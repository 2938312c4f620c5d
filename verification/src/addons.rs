//! Pluggable capabilities, and the papers addon among them.
//!
//! An addon is an external program. It proposes knowledge, goals and context; the
//! evaluation of what it proposes stays with the engine. Here stands what is decided
//! around the program: how it is called, how its output is read, and which goals are
//! made of it.

use vstd::prelude::*;

use crate::json::{get, parse_text, values, Json, Value};
use crate::json_text::{as_array, as_str};
use crate::text::{
    at_most, decimal, decimal_text, filled_lines, first_chars, first_of, has_infix, lemma_texts_push, nonempty_lines, split,
    text_contains, texts, trim, trim_text,
};

verus! {

// ---------------------------------------------------------------------------
// Registry
// ---------------------------------------------------------------------------

/// What is known of an addon on this machine.
#[derive(Debug, Clone, PartialEq, Eq)]
pub struct AddonInfo {
    pub name: &'static str,
    /// The program, as a path or as a name to search for.
    pub bin: String,
    pub available: bool,
    pub capabilities: Vec<&'static str>,
}

/// The known addons. The program of the papers addon was resolved and probed before.
pub fn registry(papers_bin: String, papers_available: bool) -> (r: Vec<AddonInfo>)
    ensures
        r@.len() == 1,
        r@[0].name@ == "papers-agent"@,
        r@[0].bin == papers_bin,
        r@[0].available == papers_available,
        r@[0].capabilities@.len() == 3,
        r@[0].capabilities@[0]@ == "knowledge (D)"@,
        r@[0].capabilities@[1]@ == "goals (DGM)"@,
        r@[0].capabilities@[2]@ == "context (RAG)"@,
{
    let mut capabilities: Vec<&'static str> = Vec::new();
    capabilities.push("knowledge (D)");
    capabilities.push("goals (DGM)");
    capabilities.push("context (RAG)");
    let mut out: Vec<AddonInfo> = Vec::new();
    out.push(AddonInfo { name: "papers-agent", bin: papers_bin, available: papers_available, capabilities });
    out
}

// ---------------------------------------------------------------------------
// Analyses
// ---------------------------------------------------------------------------

/// A technique taken from a paper.
#[derive(Debug, Clone, PartialEq, Eq)]
pub struct PaperAlgorithm {
    pub name: String,
    pub complexity: Option<String>,
    pub pseudocode: Option<String>,
}

/// What is read of the analysis of a paper.
#[derive(Debug, Clone, PartialEq, Eq)]
pub struct PaperAnalysis {
    pub summary: String,
    pub contributions: Vec<String>,
    pub algorithms: Vec<PaperAlgorithm>,
    pub impacted_modules: Vec<String>,
}

/// A technique over mathematical texts.
pub ghost struct Algorithm {
    pub name: Seq<char>,
    pub complexity: Option<Seq<char>>,
    pub pseudocode: Option<Seq<char>>,
}

/// An analysis over mathematical texts.
pub ghost struct Analysis {
    pub summary: Seq<char>,
    pub contributions: Seq<Seq<char>>,
    pub algorithms: Seq<Algorithm>,
    pub impacted_modules: Seq<Seq<char>>,
}

pub open spec fn optional_text(t: Option<String>) -> Option<Seq<char>> {
    match t {
        Some(t) => Some(t@),
        None => None,
    }
}

impl PaperAlgorithm {
    pub open spec fn view(&self) -> Algorithm {
        Algorithm {
            name: self.name@,
            complexity: optional_text(self.complexity),
            pseudocode: optional_text(self.pseudocode),
        }
    }
}

pub open spec fn algorithm_views(items: Seq<PaperAlgorithm>) -> Seq<Algorithm> {
    items.map_values(|a: PaperAlgorithm| a@)
}

impl PaperAnalysis {
    pub open spec fn view(&self) -> Analysis {
        Analysis {
            summary: self.summary@,
            contributions: texts(self.contributions@),
            algorithms: algorithm_views(self.algorithms@),
            impacted_modules: texts(self.impacted_modules@),
        }
    }
}

/// The texts among the elements of an array.
pub open spec fn texts_in(items: Seq<Value>) -> Seq<Seq<char>>
    decreases items.len(),
{
    if items.len() == 0 {
        Seq::empty()
    } else {
        match as_str(items.last()) {
            Some(s) => texts_in(items.drop_last()).push(s),
            None => texts_in(items.drop_last()),
        }
    }
}

/// The texts in the array under a key; none where there is no array.
pub open spec fn texts_at(v: Value, key: Seq<char>) -> Seq<Seq<char>> {
    match get(v, key) {
        Some(Value::Arr(items)) => texts_in(items),
        _ => Seq::empty(),
    }
}

/// The text under a key.
pub open spec fn text_at(v: Value, key: Seq<char>) -> Option<Seq<char>> {
    match get(v, key) {
        Some(x) => as_str(x),
        None => None,
    }
}

/// The elements with a name.
pub open spec fn algorithms_in(items: Seq<Value>) -> Seq<Algorithm>
    decreases items.len(),
{
    if items.len() == 0 {
        Seq::empty()
    } else {
        match text_at(items.last(), "name"@) {
            Some(name) => algorithms_in(items.drop_last()).push(
                Algorithm {
                    name,
                    complexity: text_at(items.last(), "complexity"@),
                    pseudocode: text_at(items.last(), "pseudocode"@),
                },
            ),
            None => algorithms_in(items.drop_last()),
        }
    }
}

/// What an analysis document says. Absent parts are empty.
pub open spec fn analysis_of(v: Value) -> Analysis {
    Analysis {
        summary: match text_at(v, "executive_summary"@) {
            Some(s) => s,
            None => Seq::empty(),
        },
        contributions: texts_at(v, "contributions"@),
        algorithms: match get(v, "algorithms"@) {
            Some(Value::Arr(items)) => algorithms_in(items),
            _ => Seq::empty(),
        },
        impacted_modules: texts_at(v, "impacted_modules"@),
    }
}

fn read_text(j: &Json, key: &str) -> (r: Option<String>)
    ensures
        optional_text(r) == text_at(j@, key@),
{
    match j.get(key) {
        Some(x) => match x.as_str() {
            Some(s) => Some(s.to_owned()),
            None => None,
        },
        None => None,
    }
}

fn read_texts(j: &Json, key: &str) -> (r: Vec<String>)
    ensures
        texts(r@) == texts_at(j@, key@),
{
    let mut out: Vec<String> = Vec::new();
    assert(texts(out@) =~= Seq::empty());
    let found = match j.get(key) {
        Some(x) => x,
        None => {
            return out;
        },
    };
    let items = match found.as_array() {
        Some(items) => items,
        None => {
            return out;
        },
    };
    let ghost all = values(items@);
    let mut i: usize = 0;
    assert(texts(out@) =~= texts_in(all.take(0)));
    while i < items.len()
        invariant
            i <= items@.len(),
            all == values(items@),
            all.len() == items@.len(),
            texts(out@) == texts_in(all.take(i as int)),
        decreases items@.len() - i,
    {
        broadcast use lemma_texts_push;
        proof {
            assert(all.take(i + 1).drop_last() =~= all.take(i as int));
            assert(all.take(i + 1).last() == items@[i as int]@);
        }
        match items[i].as_str() {
            Some(s) => {
                out.push(s.to_owned());
            },
            None => {},
        }
        i += 1;
    }
    assert(all.take(i as int) =~= all);
    out
}

fn read_algorithms(j: &Json) -> (r: Vec<PaperAlgorithm>)
    ensures
        algorithm_views(r@) == (match get(j@, "algorithms"@) {
            Some(Value::Arr(items)) => algorithms_in(items),
            _ => Seq::empty(),
        }),
{
    let mut out: Vec<PaperAlgorithm> = Vec::new();
    assert(algorithm_views(out@) =~= Seq::empty());
    let found = match j.get("algorithms") {
        Some(x) => x,
        None => {
            return out;
        },
    };
    let items = match found.as_array() {
        Some(items) => items,
        None => {
            return out;
        },
    };
    let ghost all = values(items@);
    let mut i: usize = 0;
    assert(algorithm_views(out@) =~= algorithms_in(all.take(0)));
    while i < items.len()
        invariant
            i <= items@.len(),
            all == values(items@),
            all.len() == items@.len(),
            algorithm_views(out@) == algorithms_in(all.take(i as int)),
        decreases items@.len() - i,
    {
        proof {
            assert(all.take(i + 1).drop_last() =~= all.take(i as int));
            assert(all.take(i + 1).last() == items@[i as int]@);
        }
        match read_text(&items[i], "name") {
            Some(name) => {
                let complexity = read_text(&items[i], "complexity");
                let pseudocode = read_text(&items[i], "pseudocode");
                let ghost before = out@;
                let a = PaperAlgorithm { name, complexity, pseudocode };
                out.push(a);
                assert(algorithm_views(out@) =~= algorithm_views(before).push(a@));
            },
            None => {},
        }
        i += 1;
    }
    assert(all.take(i as int) =~= all);
    out
}

/// Reads an analysis document.
pub fn parse_analysis_json(raw: &str) -> (r: Result<PaperAnalysis, String>)
    ensures
        match r {
            Ok(a) => parse_text(raw@) is Some && a@ == analysis_of(parse_text(raw@)->0),
            Err(e) => parse_text(raw@) is None && e@ == "analysis.json invalide : "@ + "malformed JSON text"@,
        },
{
    let j = match Json::parse(raw) {
        Ok(j) => j,
        Err(e) => {
            let mut message = "analysis.json invalide : ".to_owned();
            message.append(e.as_str());
            return Err(message);
        },
    };
    let summary = match read_text(&j, "executive_summary") {
        Some(s) => s,
        None => String::new(),
    };
    Ok(
        PaperAnalysis {
            summary,
            contributions: read_texts(&j, "contributions"),
            algorithms: read_algorithms(&j),
            impacted_modules: read_texts(&j, "impacted_modules"),
        },
    )
}

// ---------------------------------------------------------------------------
// Goals
// ---------------------------------------------------------------------------

/// The lower-case form of a text by the Unicode tables of the standard library.
pub uninterp spec fn unicode_lowercase(s: Seq<char>) -> Seq<char>;

/// The upper-case form of a text by the Unicode tables of the standard library.
pub uninterp spec fn unicode_uppercase(s: Seq<char>) -> Seq<char>;

/// Calls `str::to_lowercase`. The result is only named: it follows from tables of the
/// Unicode standard.
#[verifier::external_body]
fn lowercased(s: &str) -> (r: String)
    ensures
        r@ == unicode_lowercase(s@),
{
    s.to_lowercase()
}

/// Calls `str::to_uppercase`. The result is only named: it follows from tables of the
/// Unicode standard.
#[verifier::external_body]
fn uppercased(s: &str) -> (r: String)
    ensures
        r@ == unicode_uppercase(s@),
{
    s.to_uppercase()
}

/// Signs that an entry describes the tool itself and not a technique of the paper: what
/// its lower-case name, its upper-case complexity and its pseudocode hold.
pub open spec fn is_placeholder(name: Seq<char>, complexity: Option<Seq<char>>, pseudocode: Option<Seq<char>>) -> bool {
    ||| has_infix(name, "heuristique"@)
    ||| has_infix(name, "heuristic"@)
    ||| (complexity matches Some(c) && has_infix(c, "NON DISPONIBLE"@))
    ||| (pseudocode matches Some(p) && has_infix(p, "ProcessPaper"@))
}

/// The same on a lower-case name and an upper-case complexity.
pub fn placeholder_signs(name: &str, complexity: Option<&str>, pseudocode: Option<&str>) -> (r: bool)
    ensures
        r == is_placeholder(
            name@,
            match complexity {
                Some(c) => Some(c@),
                None => None,
            },
            match pseudocode {
                Some(p) => Some(p@),
                None => None,
            },
        ),
{
    if text_contains(name, "heuristique") || text_contains(name, "heuristic") {
        return true;
    }
    match complexity {
        Some(c) => {
            if text_contains(c, "NON DISPONIBLE") {
                return true;
            }
        },
        None => {},
    }
    match pseudocode {
        Some(p) => text_contains(p, "ProcessPaper"),
        None => false,
    }
}

impl Algorithm {
    /// The entry describes the tool itself.
    pub open spec fn is_placeholder(&self) -> bool {
        is_placeholder(
            unicode_lowercase(self.name),
            match self.complexity {
                Some(c) => Some(unicode_uppercase(c)),
                None => None,
            },
            self.pseudocode,
        )
    }

    /// A goal can be made of the entry.
    pub open spec fn is_usable(&self) -> bool {
        trim(self.name).len() > 0 && !self.is_placeholder()
    }

    /// The goal that asks for the technique.
    pub open spec fn goal(&self, target_hint: Seq<char>) -> Seq<char> {
        let head = "applique la technique « "@ + trim(self.name) + " » du papier a "@ + target_hint + ", memes resultats"@;
        let with_complexity = match self.complexity {
            Some(c) => if trim(c).len() > 0 {
                head + " (complexite visee : "@ + trim(c) + ")"@
            } else {
                head
            },
            None => head,
        };
        let with_pseudocode = match self.pseudocode {
            Some(p) => if trim(p).len() > 0 {
                with_complexity + ". Pseudocode du papier : "@ + trim(first_of(p, 400))
            } else {
                with_complexity
            },
            None => with_complexity,
        };
        with_pseudocode + ". FIND court obligatoire."@
    }
}

/// The goals of the usable entries, in order.
pub open spec fn all_goals(algorithms: Seq<Algorithm>, target_hint: Seq<char>) -> Seq<Seq<char>>
    decreases algorithms.len(),
{
    if algorithms.len() == 0 {
        Seq::empty()
    } else if algorithms.last().is_usable() {
        all_goals(algorithms.drop_last(), target_hint).push(algorithms.last().goal(target_hint))
    } else {
        all_goals(algorithms.drop_last(), target_hint)
    }
}

/// The goals of an analysis: one for each usable entry, and never more than asked for.
pub open spec fn goals_of(algorithms: Seq<Algorithm>, target_hint: Seq<char>, max_goals: usize) -> Seq<Seq<char>> {
    at_most(
        all_goals(algorithms, target_hint),
        if max_goals == 0 {
            1
        } else {
            max_goals as nat
        },
    )
}

fn is_placeholder_algorithm(a: &PaperAlgorithm) -> (r: bool)
    ensures
        r == a@.is_placeholder(),
{
    let name = lowercased(a.name.as_str());
    let pseudocode = match &a.pseudocode {
        Some(p) => Some(p.as_str()),
        None => None,
    };
    match &a.complexity {
        Some(c) => {
            let upper = uppercased(c.as_str());
            placeholder_signs(name.as_str(), Some(upper.as_str()), pseudocode)
        },
        None => placeholder_signs(name.as_str(), None, pseudocode),
    }
}

fn goal_text(a: &PaperAlgorithm, target_hint: &str) -> (r: String)
    ensures
        r@ == a@.goal(target_hint@),
{
    let mut g = "applique la technique « ".to_owned();
    g.append(trim_text(a.name.as_str()).as_str());
    g.append(" » du papier a ");
    g.append(target_hint);
    g.append(", memes resultats");
    match &a.complexity {
        Some(c) => {
            let c = trim_text(c.as_str());
            if !c.as_str().is_empty() {
                g.append(" (complexite visee : ");
                g.append(c.as_str());
                g.append(")");
            }
        },
        None => {},
    }
    match &a.pseudocode {
        Some(p) => {
            if !trim_text(p.as_str()).as_str().is_empty() {
                let short = first_chars(p.as_str(), 400);
                g.append(". Pseudocode du papier : ");
                g.append(trim_text(short.as_str()).as_str());
            }
        },
        None => {},
    }
    g.append(". FIND court obligatoire.");
    g
}

// ---------------------------------------------------------------------------
// The papers addon
// ---------------------------------------------------------------------------

/// The adapter of the papers addon.
#[derive(Debug, Clone, PartialEq, Eq)]
pub struct PapersAddon {
    pub bin: String,
    /// The limit for one call, in nanoseconds.
    pub timeout_ns: u128,
}

impl PapersAddon {
    /// The program: the configured one, or `papers`.
    pub fn resolve_bin(configured: Option<String>) -> (r: String)
        ensures
            r@ == (match configured {
                Some(bin) => bin@,
                None => "papers"@,
            }),
    {
        match configured {
            Some(bin) => bin,
            None => "papers".to_owned(),
        }
    }

    /// The addon, where its program could be started.
    pub fn detect(bin: String, started: bool) -> (r: Option<Self>)
        ensures
            r is Some <==> started,
            r matches Some(a) ==> a.bin == bin && a.timeout_ns == 300_000_000_000,
    {
        if started {
            Some(PapersAddon { bin, timeout_ns: 300_000_000_000 })
        } else {
            None
        }
    }

    /// The addon with another limit for one call.
    pub fn with_timeout(self, timeout_ns: u128) -> (r: Self)
        ensures
            r.bin == self.bin,
            r.timeout_ns == timeout_ns,
    {
        PapersAddon { bin: self.bin, timeout_ns }
    }

    /// The arguments that analyse a paper: without a model the heuristic analysis, with
    /// an empty name the default model of the tool.
    pub fn analyze_arguments(source: &str, out_dir: &str, llm_model: Option<&str>) -> (r: Vec<String>)
        ensures
            texts(r@) == seq!["analyze"@, "-s"@, source@, "-o"@, out_dir@] + (match llm_model {
                None => seq!["--no-llm"@],
                Some(m) => if m@.len() == 0 {
                    Seq::empty()
                } else {
                    seq!["--model"@, m@]
                },
            }),
    {
        let mut args: Vec<String> = Vec::new();
        args.push("analyze".to_owned());
        args.push("-s".to_owned());
        args.push(source.to_owned());
        args.push("-o".to_owned());
        args.push(out_dir.to_owned());
        match llm_model {
            None => {
                args.push("--no-llm".to_owned());
                assert(texts(args@) =~= seq!["analyze"@, "-s"@, source@, "-o"@, out_dir@] + seq!["--no-llm"@]);
            },
            Some(m) => {
                if !m.is_empty() {
                    args.push("--model".to_owned());
                    args.push(m.to_owned());
                    assert(texts(args@) =~= seq!["analyze"@, "-s"@, source@, "-o"@, out_dir@] + seq!["--model"@, m@]);
                } else {
                    assert(texts(args@) =~= seq!["analyze"@, "-s"@, source@, "-o"@, out_dir@] + Seq::empty());
                }
            },
        }
        args
    }

    /// The arguments that search for at least one passage.
    pub fn search_arguments(query: &str, k: usize) -> (r: Vec<String>)
        ensures
            texts(r@) == seq![
                "search"@,
                "-q"@,
                query@,
                "-k"@,
                decimal(
                    if k == 0 {
                        1
                    } else {
                        k as nat
                    },
                ),
            ],
    {
        let wanted: u64 = if k == 0 {
            1
        } else {
            k as u64
        };
        let mut args: Vec<String> = Vec::new();
        args.push("search".to_owned());
        args.push("-q".to_owned());
        args.push(query.to_owned());
        args.push("-k".to_owned());
        args.push(decimal_text(wanted));
        assert(texts(args@) =~= seq!["search"@, "-q"@, query@, "-k"@, decimal(wanted as nat)]);
        args
    }

    /// The lines of the tool's output that hold something.
    pub fn search_results(output: &str) -> (r: Vec<String>)
        ensures
            texts(r@) == filled_lines(split(output@, '\n')),
    {
        nonempty_lines(output)
    }

    /// Makes goals of an analysis, at most `max_goals` and at least one where there is
    /// any.
    pub fn directive_goals(analysis: &PaperAnalysis, target_hint: &str, max_goals: usize) -> (r: Vec<String>)
        ensures
            texts(r@) == goals_of(analysis@.algorithms, target_hint@, max_goals),
    {
        let limit: usize = if max_goals == 0 {
            1
        } else {
            max_goals
        };
        let ghost all = analysis@.algorithms;
        let mut out: Vec<String> = Vec::new();
        let mut i: usize = 0;
        assert(texts(out@) =~= all_goals(all.take(0), target_hint@));
        while i < analysis.algorithms.len() && out.len() < limit
            invariant
                i <= analysis.algorithms@.len(),
                all == algorithm_views(analysis.algorithms@),
                out@.len() <= limit,
                texts(out@) == all_goals(all.take(i as int), target_hint@),
            decreases analysis.algorithms@.len() - i,
        {
            broadcast use lemma_texts_push;
            proof {
                assert(all.take(i + 1).drop_last() =~= all.take(i as int));
                assert(all.take(i + 1).last() == analysis.algorithms@[i as int]@);
            }
            let a = &analysis.algorithms[i];
            if !trim_text(a.name.as_str()).as_str().is_empty() && !is_placeholder_algorithm(a) {
                out.push(goal_text(a, target_hint));
            }
            i += 1;
        }
        proof {
            lemma_goals_prefix(all, target_hint@, i as int);
            assert(texts(out@).len() == out@.len());
            assert(all.take(all.len() as int) =~= all);
            let whole = all_goals(all, target_hint@);
            if out@.len() < limit {
                assert(texts(out@) == whole);
            } else {
                assert(texts(out@) =~= whole.take(limit as int));
            }
        }
        out
    }
}

proof fn lemma_goals_prefix(algorithms: Seq<Algorithm>, target_hint: Seq<char>, n: int)
    requires
        0 <= n <= algorithms.len(),
    ensures
        all_goals(algorithms.take(n), target_hint).len() <= all_goals(algorithms, target_hint).len(),
        all_goals(algorithms.take(n), target_hint) == all_goals(algorithms, target_hint).take(
            all_goals(algorithms.take(n), target_hint).len() as int,
        ),
    decreases algorithms.len() - n,
{
    let short = all_goals(algorithms.take(n), target_hint);
    let whole = all_goals(algorithms, target_hint);
    if n < algorithms.len() {
        assert(algorithms.take(n + 1).drop_last() =~= algorithms.take(n));
        lemma_goals_prefix(algorithms, target_hint, n + 1);
        let longer = all_goals(algorithms.take(n + 1), target_hint);
        assert(short =~= longer.take(short.len() as int));
        assert(short =~= whole.take(short.len() as int));
    } else {
        assert(algorithms.take(n) =~= algorithms);
        assert(short =~= whole.take(short.len() as int));
    }
}

// ---------------------------------------------------------------------------
// Watching the program
// ---------------------------------------------------------------------------

/// What a look at the running program gave.
#[derive(Debug, Clone, PartialEq, Eq)]
pub enum ChildPoll {
    /// It ended; whether with success, and its status as a text.
    Exited { success: bool, status: String },
    Running,
    /// It could not be looked at.
    Failed(String),
}

/// What to do next.
#[derive(Debug, Clone, PartialEq, Eq)]
pub enum WatchStep {
    /// Hand out what was read.
    Deliver,
    /// Give up with a message.
    Fail(String),
    /// Stop the program and give up with a message.
    Kill(String),
    /// Look again later.
    Wait,
}

/// The next step of watching `bin`, called with `command` first, after `elapsed_ns` of
/// at most `timeout_ns` nanoseconds.
pub fn watch_step(bin: &str, command: &str, poll: &ChildPoll, elapsed_ns: u128, timeout_ns: u128) -> (r: WatchStep)
    requires
        timeout_ns / 1_000_000_000 <= u64::MAX,
    ensures
        match *poll {
            ChildPoll::Exited { success, status } => if success {
                r is Deliver
            } else {
                r matches WatchStep::Fail(m) && m@ == bin@ + " "@ + command@ + " a rendu "@ + status@
            },
            ChildPoll::Running => if elapsed_ns > timeout_ns {
                r matches WatchStep::Kill(m) && m@ == bin@ + " : timeout ("@ + decimal((timeout_ns / 1_000_000_000) as nat) + "s)"@
            } else {
                r is Wait
            },
            ChildPoll::Failed(e) => r matches WatchStep::Fail(m) && m@ == "attente de "@ + bin@ + ": "@ + e@,
        },
{
    match poll {
        ChildPoll::Exited { success, status } => {
            if *success {
                return WatchStep::Deliver;
            }
            let mut m = bin.to_owned();
            m.append(" ");
            m.append(command);
            m.append(" a rendu ");
            m.append(status.as_str());
            WatchStep::Fail(m)
        },
        ChildPoll::Running => {
            if elapsed_ns <= timeout_ns {
                return WatchStep::Wait;
            }
            let mut m = bin.to_owned();
            m.append(" : timeout (");
            m.append(decimal_text((timeout_ns / 1_000_000_000) as u64).as_str());
            m.append("s)");
            WatchStep::Kill(m)
        },
        ChildPoll::Failed(e) => {
            let mut m = "attente de ".to_owned();
            m.append(bin);
            m.append(": ");
            m.append(e.as_str());
            WatchStep::Fail(m)
        },
    }
}

// ---------------------------------------------------------------------------
// Laws
// ---------------------------------------------------------------------------

/// No goal is made of an entry that describes the tool itself.
pub proof fn law_placeholders_give_no_goals(algorithms: Seq<Algorithm>, target_hint: Seq<char>, max_goals: usize)
    requires
        forall|i: int| 0 <= i < algorithms.len() ==> (#[trigger] algorithms[i]).is_placeholder(),
    ensures
        goals_of(algorithms, target_hint, max_goals).len() == 0,
    decreases algorithms.len(),
{
    if algorithms.len() > 0 {
        let front = algorithms.drop_last();
        assert forall|i: int| 0 <= i < front.len() implies (#[trigger] front[i]).is_placeholder() by {
            assert(front[i] == algorithms[i]);
        }
        law_placeholders_give_no_goals(front, target_hint, max_goals);
        assert(all_goals(front, target_hint).len() == 0);
        assert(algorithms.last() == algorithms[algorithms.len() - 1]);
    }
}

/// The number of goals is bounded by what was asked for, and each is the goal of a
/// usable entry.
pub proof fn law_goals_are_bounded(algorithms: Seq<Algorithm>, target_hint: Seq<char>, max_goals: usize, k: int)
    requires
        0 <= k < goals_of(algorithms, target_hint, max_goals).len(),
    ensures
        goals_of(algorithms, target_hint, max_goals).len() <= if max_goals == 0 {
            1nat
        } else {
            max_goals as nat
        },
        exists|i: int|
            0 <= i < algorithms.len() && (#[trigger] algorithms[i]).is_usable() && goals_of(
                algorithms,
                target_hint,
                max_goals,
            )[k] == algorithms[i].goal(target_hint),
{
    lemma_goal_source(algorithms, target_hint, k);
}

proof fn lemma_goal_source(algorithms: Seq<Algorithm>, target_hint: Seq<char>, k: int)
    requires
        0 <= k < all_goals(algorithms, target_hint).len(),
    ensures
        exists|i: int|
            0 <= i < algorithms.len() && (#[trigger] algorithms[i]).is_usable() && all_goals(algorithms, target_hint)[k]
                == algorithms[i].goal(target_hint),
    decreases algorithms.len(),
{
    let front = algorithms.drop_last();
    let before = all_goals(front, target_hint);
    if k < before.len() {
        lemma_goal_source(front, target_hint, k);
        let i = choose|i: int|
            0 <= i < front.len() && (#[trigger] front[i]).is_usable() && before[k] == front[i].goal(target_hint);
        assert(algorithms[i] == front[i]);
    } else {
        let i = algorithms.len() - 1;
        assert(algorithms[i].is_usable());
    }
}

/// The goals of a paper are those of its usable algorithms, in order, cut to as many as are
/// wanted and at least to one.
pub proof fn law_goals_are_those_of_usable_algorithms(algorithms: Seq<Algorithm>, target_hint: Seq<char>, max_goals: usize)
    ensures
        ({
            let all = algorithms.filter(|a: Algorithm| trim(a.name).len() > 0 && !a.is_placeholder()).map_values(
                |a: Algorithm| a.goal(target_hint),
            );
            let n = if max_goals == 0 {
                1int
            } else {
                max_goals as int
            };
            goals_of(algorithms, target_hint, max_goals) == (if all.len() > n {
                all.take(n)
            } else {
                all
            })
        }),
{
    lemma_all_goals(algorithms, target_hint);
    let all = all_goals(algorithms, target_hint);
    let n = if max_goals == 0 {
        1int
    } else {
        max_goals as int
    };
    assert(all.len() == n ==> all.take(n) =~= all);
}

proof fn lemma_all_goals(algorithms: Seq<Algorithm>, target_hint: Seq<char>)
    ensures
        all_goals(algorithms, target_hint) == algorithms.filter(
            |a: Algorithm| trim(a.name).len() > 0 && !a.is_placeholder(),
        ).map_values(|a: Algorithm| a.goal(target_hint)),
    decreases algorithms.len(),
{
    reveal(Seq::filter);
    if algorithms.len() > 0 {
        lemma_all_goals(algorithms.drop_last(), target_hint);
    }
    assert(all_goals(algorithms, target_hint) =~= algorithms.filter(
        |a: Algorithm| trim(a.name).len() > 0 && !a.is_placeholder(),
    ).map_values(|a: Algorithm| a.goal(target_hint)));
}

/// The algorithms of an analysis are the items with a name, in order.
pub proof fn law_algorithms_have_names(items: Seq<Value>)
    ensures
        algorithms_in(items) == items.filter(|v: Value| text_at(v, "name"@) is Some).map_values(
            |v: Value|
                Algorithm {
                    name: text_at(v, "name"@)->0,
                    complexity: text_at(v, "complexity"@),
                    pseudocode: text_at(v, "pseudocode"@),
                },
        ),
        texts_in(items) == items.filter(|v: Value| v is Str).map_values(|v: Value| v->Str_0),
    decreases items.len(),
{
    reveal(Seq::filter);
    if items.len() > 0 {
        law_algorithms_have_names(items.drop_last());
    }
    assert(algorithms_in(items) =~= items.filter(|v: Value| text_at(v, "name"@) is Some).map_values(
        |v: Value|
            Algorithm {
                name: text_at(v, "name"@)->0,
                complexity: text_at(v, "complexity"@),
                pseudocode: text_at(v, "pseudocode"@),
            },
    ));
    assert(texts_in(items) =~= items.filter(|v: Value| v is Str).map_values(|v: Value| v->Str_0));
}

/// A child is waited for exactly while it runs within its time, killed exactly when it runs
/// beyond it, and its output delivered exactly when it ended well.
pub proof fn law_children_are_watched(
    bin: &str,
    command: &str,
    poll: ChildPoll,
    elapsed_ns: u128,
    timeout_ns: u128,
    r: WatchStep,
)
    requires
        timeout_ns / 1_000_000_000 <= u64::MAX,
        call_ensures(watch_step, (bin, command, &poll, elapsed_ns, timeout_ns), r),
    ensures
        r is Wait <==> poll is Running && elapsed_ns <= timeout_ns,
        r is Kill <==> poll is Running && elapsed_ns > timeout_ns,
        r is Deliver <==> (poll matches ChildPoll::Exited { success, .. } && success),
        r is Fail <==> poll is Failed || (poll matches ChildPoll::Exited { success, .. } && !success),
{
}

} // verus!
