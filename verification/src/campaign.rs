//! The decisions of the campaign programs: which model is asked, when a loop is given up,
//! what is shown, and how the studies are laid out.

use vstd::prelude::*;

use crate::agent::Mitigation;
use crate::cli::{flag_value, has_flag, number_within, one_line, parse_u64, parse_within, parsed, truncated, value_after};
use crate::criticality::FailureMode;
use crate::json_text::optional;
use crate::text::{
    at_most, char_is_whitespace, chars_of, decimal, decimal_text, filled_lines, first_bytes, first_bytes_of, first_chars, first_of, has_char, has_cut, join, join_text, law_split_once_at_the_first, nonempty_parts,
    same_text, split, split_once, split_text, split_text_once, texts, trim_end, words,
};

verus! {

// ---------------------------------------------------------------------------
// The model
// ---------------------------------------------------------------------------

/// Where proposals come from.
#[derive(Debug, Clone, Copy, PartialEq, Eq, Structural)]
pub enum Backend {
    Auto,
    Ollama,
    Hosted,
}

/// The backend and the model of a setting such as `ollama:name`.
pub open spec fn setting_parts(setting: Option<Seq<char>>) -> (Option<Seq<char>>, Option<Seq<char>>) {
    match setting {
        None => (None, None),
        Some(s) => match split_once(s, ':') {
            Some((backend, model)) => (Some(backend), Some(model)),
            None => (Some(s), None),
        },
    }
}

fn read_setting(setting: Option<&str>) -> (r: (Option<String>, Option<String>))
    ensures
        (optional(r.0), optional(r.1)) == setting_parts(
            match setting {
                Some(s) => Some(s@),
                None => None,
            },
        ),
{
    match setting {
        None => (None, None),
        Some(s) => match split_text_once(s, ':') {
            Some((backend, model)) => (Some(backend), Some(model)),
            None => (Some(s.to_owned()), None),
        },
    }
}

/// The first that is there.
pub open spec fn either<T>(a: Option<T>, b: Option<T>) -> Option<T> {
    match a {
        Some(_) => a,
        None => b,
    }
}

/// The backend that is asked for: the flag comes before the setting, and automatic
/// choice is the default.
pub open spec fn backend_name(args: Seq<Seq<char>>, setting: Option<Seq<char>>) -> Seq<char> {
    match either(value_after(args, "--backend"@), setting_parts(setting).0) {
        Some(b) => b,
        None => "auto"@,
    }
}

/// The backend of a name, where `hosted` is the name of the service that is reached with
/// a key.
pub open spec fn backend_of(name: Seq<char>, hosted: Seq<char>) -> Option<Backend> {
    if name == "ollama"@ {
        Some(Backend::Ollama)
    } else if name == hosted {
        Some(Backend::Hosted)
    } else if name == "auto"@ {
        Some(Backend::Auto)
    } else {
        None
    }
}

/// Chooses the backend.
pub fn choose_backend(args: &[String], setting: Option<&str>, hosted: &str) -> (r: Result<Backend, String>)
    ensures
        ({
            let name = backend_name(
                texts(args@),
                match setting {
                    Some(s) => Some(s@),
                    None => None,
                },
            );
            match r {
                Ok(b) => backend_of(name, hosted@) == Some(b),
                Err(e) => backend_of(name, hosted@) is None && e@ == "backend inconnu '"@ + name + "' (auto|ollama|"@ + hosted@
                    + ")."@,
            }
        }),
{
    let (env_backend, _) = read_setting(setting);
    let name: String = match flag_value(args, "--backend") {
        Some(b) => b,
        None => match env_backend {
            Some(b) => b,
            None => "auto".to_owned(),
        },
    };
    if same_text(name.as_str(), "ollama") {
        Ok(Backend::Ollama)
    } else if same_text(name.as_str(), hosted) {
        Ok(Backend::Hosted)
    } else if same_text(name.as_str(), "auto") {
        Ok(Backend::Auto)
    } else {
        let mut message = "backend inconnu '".to_owned();
        message.append(name.as_str());
        message.append("' (auto|ollama|");
        message.append(hosted);
        message.append(").");
        Err(message)
    }
}

/// The model that is preferred: the flag, else the setting, else the preference of the
/// environment.
pub fn preferred_model(args: &[String], setting: Option<&str>, preference: Option<String>) -> (r: Option<String>)
    ensures
        optional(r) == either(
            value_after(texts(args@), "--model"@),
            either(
                setting_parts(
                    match setting {
                        Some(s) => Some(s@),
                        None => None,
                    },
                ).1,
                optional(preference),
            ),
        ),
{
    let (_, env_model) = read_setting(setting);
    match flag_value(args, "--model") {
        Some(m) => Some(m),
        None => match env_model {
            Some(m) => Some(m),
            None => preference,
        },
    }
}

/// The value of a flag that has to be there.
pub fn required(args: &[String], flag: &str) -> (r: Result<String, String>)
    ensures
        match r {
            Ok(v) => value_after(texts(args@), flag@) == Some(v@),
            Err(e) => value_after(texts(args@), flag@) is None && e@ == flag@ + " est requis."@,
        },
{
    match flag_value(args, flag) {
        Some(v) => Ok(v),
        None => {
            let mut message = flag.to_owned();
            message.append(" est requis.");
            Err(message)
        },
    }
}

/// The files that may be edited. A list without one is refused, with the word that the
/// program has for such a file.
pub fn allowed_files(list: &str, what: &str) -> (r: Result<Vec<String>, String>)
    ensures
        match r {
            Ok(files) => texts(files@) == filled_lines(split(list@, ',')) && files@.len() > 0,
            Err(e) => filled_lines(split(list@, ',')).len() == 0 && e@ == "--allow doit lister au moins un "@ + what@ + "."@,
        },
{
    let files = nonempty_parts(list, ',');
    assert(texts(files@).len() == files@.len());
    if files.len() == 0 {
        let mut message = "--allow doit lister au moins un ".to_owned();
        message.append(what);
        message.append(".");
        return Err(message);
    }
    Ok(files)
}

// ---------------------------------------------------------------------------
// The loop
// ---------------------------------------------------------------------------

/// How many failures of the proposer in a row end a loop.
pub const MAX_PROPOSER_FAILURES: u32 = 3;

/// How a step of the loop went.
#[derive(Debug, Clone, Copy, PartialEq, Eq, Structural)]
pub enum StepEvent {
    Done,
    ProposerFailed,
    Failed,
}

/// What the loop does next.
#[derive(Debug, Clone, Copy, PartialEq, Eq, Structural)]
pub enum LoopMove {
    GoOn,
    Skip,
    GiveUp,
}

/// The failures of the proposer since the last step that was done.
#[derive(Debug, Clone, Copy, PartialEq, Eq, Structural)]
pub struct ProposerWatch {
    pub failures: u32,
}

pub open spec fn watched(failures: u32, event: StepEvent) -> (u32, LoopMove) {
    match event {
        StepEvent::Done => (0, LoopMove::GoOn),
        StepEvent::ProposerFailed => if failures + 1 >= MAX_PROPOSER_FAILURES {
            ((failures + 1) as u32, LoopMove::GiveUp)
        } else {
            ((failures + 1) as u32, LoopMove::Skip)
        },
        StepEvent::Failed => (failures, LoopMove::GiveUp),
    }
}

impl ProposerWatch {
    pub fn new() -> (r: Self)
        ensures
            r.failures == 0,
    {
        ProposerWatch { failures: 0 }
    }

    /// A failure of the proposer skips a step, and the last of several in a row ends the
    /// loop; any other failure ends it at once.
    pub fn observe(&mut self, event: StepEvent) -> (r: LoopMove)
        requires
            old(self).failures < MAX_PROPOSER_FAILURES,
        ensures
            (final(self).failures, r) == watched(old(self).failures, event),
            r != LoopMove::GiveUp ==> final(self).failures < MAX_PROPOSER_FAILURES,
    {
        match event {
            StepEvent::Done => {
                self.failures = 0;
                LoopMove::GoOn
            },
            StepEvent::ProposerFailed => {
                self.failures = self.failures + 1;
                if self.failures >= MAX_PROPOSER_FAILURES {
                    LoopMove::GiveUp
                } else {
                    LoopMove::Skip
                }
            },
            StepEvent::Failed => LoopMove::GiveUp,
        }
    }
}

/// The failures in a row after a run of events.
pub open spec fn failures_after(events: Seq<StepEvent>) -> nat
    decreases events.len(),
{
    if events.len() == 0 {
        0
    } else if events.last() == StepEvent::ProposerFailed {
        failures_after(events.drop_last()) + 1
    } else if events.last() == StepEvent::Done {
        0
    } else {
        failures_after(events.drop_last())
    }
}

/// A step that was done wipes out the failures before it, so that only failures in a row
/// end a loop.
pub proof fn law_success_clears_failures(events: Seq<StepEvent>)
    ensures
        failures_after(events.push(StepEvent::Done)) == 0,
        failures_after(events.push(StepEvent::ProposerFailed)) == failures_after(events) + 1,
{
    assert(events.push(StepEvent::Done).last() == StepEvent::Done);
    assert(events.push(StepEvent::ProposerFailed).drop_last() =~= events);
}

/// The lines of a note that say something, without the blanks at their ends and cut to a
/// width.
pub open spec fn note_lines(lines: Seq<Seq<char>>) -> Seq<Seq<char>>
    decreases lines.len(),
{
    if lines.len() == 0 {
        Seq::empty()
    } else {
        let before = note_lines(lines.drop_last());
        let line = trim_end(lines.last());
        if line.len() == 0 {
            before
        } else {
            before.push(first_of(line, 160))
        }
    }
}

fn trim_right(s: &str) -> (r: String)
    ensures
        r@ == trim_end(s@),
{
    let chars = chars_of(s);
    let mut hi: usize = chars.len();
    assert(s@.take(hi as int) =~= s@);
    while hi > 0 && char_is_whitespace(chars[hi - 1])
        invariant
            hi <= chars@.len(),
            chars@ == s@,
            trim_end(s@) == trim_end(s@.take(hi as int)),
        decreases hi,
    {
        assert(s@.take(hi as int).drop_last() =~= s@.take(hi - 1));
        hi -= 1;
    }
    first_chars(s, hi)
}

/// Why a variant was rejected: the first lines of its notes, at most eight.
pub fn rejection_lines(notes: &str) -> (r: Vec<String>)
    ensures
        texts(r@) == at_most(note_lines(split(notes@, '\n')), 8),
{
    let lines = split_text(notes, '\n');
    let ghost all = texts(lines@);
    let mut out: Vec<String> = Vec::new();
    let mut i: usize = 0;
    assert(texts(out@) =~= note_lines(all.take(0)));
    while i < lines.len() && out.len() < 8
        invariant
            i <= lines@.len(),
            all == texts(lines@),
            out@.len() <= 8,
            texts(out@) == note_lines(all.take(i as int)),
        decreases lines@.len() - i,
    {
        let ghost before = out@;
        proof {
            assert(all.take(i + 1).drop_last() =~= all.take(i as int));
            assert(all.take(i + 1).last() == lines@[i as int]@);
        }
        let line = trim_right(lines[i].as_str());
        if !line.as_str().is_empty() {
            out.push(first_chars(line.as_str(), 160));
            assert(texts(out@) =~= texts(before).push(first_of(line@, 160)));
        }
        i += 1;
    }
    proof {
        lemma_note_lines_prefix(all, i as int);
        assert(texts(out@).len() == out@.len());
        if i == lines.len() {
            assert(all.take(i as int) =~= all);
        }
        assert(texts(out@) =~= at_most(note_lines(all), 8));
    }
    out
}

proof fn lemma_note_lines_prefix(lines: Seq<Seq<char>>, n: int)
    requires
        0 <= n <= lines.len(),
    ensures
        note_lines(lines.take(n)).len() <= note_lines(lines).len(),
        note_lines(lines.take(n)) == note_lines(lines).take(note_lines(lines.take(n)).len() as int),
    decreases lines.len() - n,
{
    let few = note_lines(lines.take(n));
    let whole = note_lines(lines);
    if n < lines.len() {
        assert(lines.take(n + 1).drop_last() =~= lines.take(n));
        lemma_note_lines_prefix(lines, n + 1);
        let more = note_lines(lines.take(n + 1));
        assert(few =~= more.take(few.len() as int));
        assert(few =~= whole.take(few.len() as int));
    } else {
        assert(lines.take(n) =~= lines);
        assert(few =~= whole.take(few.len() as int));
    }
}

// ---------------------------------------------------------------------------
// Papers
// ---------------------------------------------------------------------------

/// How a paper is analysed.
#[derive(Debug, PartialEq, Eq)]
pub enum AnalysisMode<S = String> {
    Heuristic,
    Model { provider: S, model: S },
}

impl AnalysisMode {
    pub open spec fn view(&self) -> AnalysisMode<Seq<char>> {
        match *self {
            AnalysisMode::Heuristic => AnalysisMode::Heuristic,
            AnalysisMode::Model { provider, model } => AnalysisMode::Model { provider: provider@, model: model@ },
        }
    }
}

/// What the goals are drawn from: a paper that is analysed, or a bundle that exists.
#[derive(Debug, PartialEq, Eq)]
pub enum Source<S = String> {
    Paper { source: S, mode: AnalysisMode<S> },
    Bundle(S),
}

impl Source {
    pub open spec fn view(&self) -> Source<Seq<char>> {
        match *self {
            Source::Paper { source, mode } => Source::Paper { source: source@, mode: mode@ },
            Source::Bundle(path) => Source::Bundle(path@),
        }
    }
}

/// The source that the arguments name, or what is wrong with them.
pub open spec fn source_of(args: Seq<Seq<char>>) -> Result<Source<Seq<char>>, Seq<char>> {
    let paper = value_after(args, "--paper"@);
    let bundle = value_after(args, "--bundle"@);
    let provider = value_after(args, "--provider"@);
    let model = value_after(args, "--model"@);
    if paper is Some == bundle is Some {
        Err("exactement un de --paper ou --bundle est requis"@)
    } else if provider is Some != model is Some {
        Err("--provider et --model doivent être fournis ensemble"@)
    } else if bundle is Some {
        if provider is Some {
            Err("--provider/--model ne s'appliquent pas à --bundle"@)
        } else {
            Ok(Source::Bundle(bundle->0))
        }
    } else {
        Ok(
            Source::Paper {
                source: paper->0,
                mode: if provider is Some {
                    AnalysisMode::Model { provider: provider->0, model: model->0 }
                } else {
                    AnalysisMode::Heuristic
                },
            },
        )
    }
}

/// Reads the source of goals.
pub fn read_source(args: &[String]) -> (r: Result<Source, String>)
    ensures
        match r {
            Ok(s) => source_of(texts(args@)) == Ok::<Source<Seq<char>>, Seq<char>>(s@),
            Err(e) => source_of(texts(args@)) == Err::<Source<Seq<char>>, Seq<char>>(e@),
        },
{
    let paper = flag_value(args, "--paper");
    let bundle = flag_value(args, "--bundle");
    if paper.is_some() == bundle.is_some() {
        return Err("exactement un de --paper ou --bundle est requis".to_owned());
    }
    let mode: AnalysisMode = match (flag_value(args, "--provider"), flag_value(args, "--model")) {
        (None, None) => AnalysisMode::Heuristic,
        (Some(provider), Some(model)) => AnalysisMode::Model { provider, model },
        _ => {
            return Err("--provider et --model doivent être fournis ensemble".to_owned());
        },
    };
    match bundle {
        Some(path) => match mode {
            AnalysisMode::Heuristic => Ok(Source::Bundle(path)),
            _ => Err("--provider/--model ne s'appliquent pas à --bundle".to_owned()),
        },
        None => match paper {
            Some(source) => Ok(Source::Paper { source, mode }),
            None => Err("exactement un de --paper ou --bundle est requis".to_owned()),
        },
    }
}

/// The most goals drawn from a scientific bundle.
pub fn bundle_goals(args: &[String]) -> (r: u64)
    ensures
        r == number_within(texts(args@), "--max-goals"@, 3, 1, 32),
{
    parse_within(args, "--max-goals", 3, 1, 32)
}

/// The most goals drawn from a paper.
pub fn paper_goals(args: &[String]) -> (r: u64)
    ensures
        r == number_within(texts(args@), "--max-goals"@, 3, 1, 10),
{
    parse_within(args, "--max-goals", 3, 1, 10)
}

/// The steps for each goal.
pub fn steps_per_goal(args: &[String]) -> (r: u64)
    ensures
        r == number_within(texts(args@), "--steps"@, 6, 1, 64),
{
    parse_within(args, "--steps", 6, 1, 64)
}

/// What the goals aim at: the target that is given, or the files that may be edited.
pub fn goal_target(args: &[String], allowed: &[String]) -> (r: String)
    ensures
        r@ == (match value_after(texts(args@), "--target"@) {
            Some(t) => t,
            None => join(texts(allowed@), ", "@),
        }),
{
    match flag_value(args, "--target") {
        Some(t) => t,
        None => join_text(allowed, ", "),
    }
}

/// The model of the analysis, where one is asked for; an empty name leaves the choice to
/// the analysis.
pub fn paper_model(args: &[String]) -> (r: Option<String>)
    ensures
        optional(r) == (if texts(args@).contains("--paper-llm"@) {
            Some(
                match value_after(texts(args@), "--paper-model"@) {
                    Some(m) => m,
                    None => ""@,
                },
            )
        } else {
            None
        }),
{
    if has_flag(args, "--paper-llm") {
        match flag_value(args, "--paper-model") {
            Some(m) => Some(m),
            None => Some("".to_owned()),
        }
    } else {
        None
    }
}

/// A row of the report on a paper: the goal, how many variants were accepted, the best
/// score as a text and the best variant.
pub fn goal_row(place: u64, goal: &str, accepted: u64, best_score: Option<&str>, best_variant: Option<&str>) -> (r: String)
    requires
        best_variant matches Some(v) ==> has_cut(v@, 8),
    ensures
        r@ == "| "@ + decimal(place as nat) + " | "@ + truncated(join(words(goal@), " "@), 90) + " | "@ + decimal(
            accepted as nat,
        ) + " | "@ + (match best_score {
            Some(s) => s@,
            None => "—"@,
        }) + " | "@ + (match best_variant {
            Some(v) => first_bytes_of(v@, 8),
            None => "—"@,
        }) + " |\n"@,
{
    let mut out = "| ".to_owned();
    out.append(decimal_text(place).as_str());
    out.append(" | ");
    out.append(one_line(goal, 90).as_str());
    out.append(" | ");
    out.append(decimal_text(accepted).as_str());
    out.append(" | ");
    match best_score {
        Some(s) => {
            out.append(s);
        },
        None => {
            out.append("—");
        },
    }
    out.append(" | ");
    match best_variant {
        Some(v) => {
            out.append(first_bytes(v, 8).as_str());
        },
        None => {
            out.append("—");
        },
    }
    out.append(" |\n");
    out
}

/// Whether the best variant may be promoted: it is not the root of its archive, all of it
/// is green, and it is better than the baseline.
pub fn is_promotable(is_root: bool, all_green: bool, better: bool) -> (r: bool)
    ensures
        r == (!is_root && all_green && better),
{
    !is_root && all_green && better
}

/// What a paper brought, in one line.
pub fn paper_verdict(improved: bool) -> (r: &'static str)
    ensures
        r == (if improved {
            "✓ le papier a produit au moins une amélioration PROUVÉE (dry-run) — voir le rapport."
        } else {
            "∅ aucune amélioration au-dessus du seuil — verdict honnête, le papier n'a rien apporté ici."
        }),
{
    if improved {
        "✓ le papier a produit au moins une amélioration PROUVÉE (dry-run) — voir le rapport."
    } else {
        "∅ aucune amélioration au-dessus du seuil — verdict honnête, le papier n'a rien apporté ici."
    }
}

// ---------------------------------------------------------------------------
// Calibration
// ---------------------------------------------------------------------------

/// A verdict in three letters.
pub fn verdict_text(v: Option<bool>) -> (r: &'static str)
    ensures
        r == (match v {
            Some(true) => "oui",
            Some(false) => "non",
            None => " ? ",
        }),
{
    match v {
        Some(true) => "oui",
        Some(false) => "non",
        None => " ? ",
    }
}

/// Whether a prediction came true; an undecided one is neither right nor wrong.
pub fn verdict_mark(predicted: Option<bool>, actual: Option<bool>) -> (r: &'static str)
    ensures
        r == (if predicted is None {
            "?"
        } else if predicted == actual {
            "✓"
        } else {
            "✗"
        }),
{
    match (predicted, actual) {
        (None, _) => "?",
        (Some(p), Some(a)) => if p == a {
            "✓"
        } else {
            "✗"
        },
        (Some(_), None) => "✗",
    }
}

/// The name of a file without its directories.
pub fn file_name(target: &str) -> (r: String)
    ensures
        r@ == split(target@, '/').last(),
{
    let parts = split_text(target, '/');
    proof {
        crate::text::lemma_split_nonempty(target@, '/');
        assert(texts(parts@).last() == parts@.last()@);
    }
    parts[parts.len() - 1].clone()
}

/// How many rejections are remembered.
pub const REJECTION_WINDOW: usize = 8;

/// The last rejections.
pub open spec fn remembered(rejections: Seq<Seq<char>>) -> Seq<Seq<char>> {
    if rejections.len() > REJECTION_WINDOW {
        rejections.drop_first()
    } else {
        rejections
    }
}

/// Remembers a rejection; the oldest leaves a full window.
pub fn remember_rejection(rejections: &mut Vec<String>, rationale: &str)
    requires
        old(rejections)@.len() <= REJECTION_WINDOW,
    ensures
        texts(final(rejections)@) == remembered(texts(old(rejections)@).push(rationale@)),
        final(rejections)@.len() <= REJECTION_WINDOW,
{
    let ghost before = texts(rejections@);
    rejections.push(rationale.to_owned());
    assert(texts(rejections@) =~= before.push(rationale@));
    if rejections.len() > REJECTION_WINDOW {
        let ghost full = texts(rejections@);
        let _ = rejections.remove(0);
        assert(texts(rejections@) =~= full.drop_first());
    }
}

/// What a simulated verdict says of a patch: whether it passes, and why not.
pub fn prediction(compiles: Option<bool>, tests_pass: Option<bool>) -> (r: (Option<bool>, Option<&'static str>))
    ensures
        r == (if compiles == Some(false) {
            (Some(false), Some("le simulateur prédit que ce patch NE COMPILE PAS"))
        } else if tests_pass == Some(false) {
            (Some(false), Some("le simulateur prédit que ce patch CASSE des tests"))
        } else {
            (tests_pass, None)
        }),
{
    match compiles {
        Some(false) => {
            return (Some(false), Some("le simulateur prédit que ce patch NE COMPILE PAS"));
        },
        _ => {},
    }
    match tests_pass {
        Some(false) => (Some(false), Some("le simulateur prédit que ce patch CASSE des tests")),
        other => (other, None),
    }
}

// ---------------------------------------------------------------------------
// Studies
// ---------------------------------------------------------------------------

/// Which parts of the agent a configuration of the ablation study switches on.
#[derive(Debug, Clone, Copy, PartialEq, Eq)]
pub struct Ablation {
    pub name: &'static str,
    pub memory: bool,
    pub substrate: bool,
    pub knowledge: bool,
    pub active_response: bool,
    pub adaptive_eps: bool,
}

/// The configuration at a place of the study: nothing, one part at a time, everything.
pub open spec fn ablation_at(i: int) -> Ablation {
    Ablation {
        name: if i == 0 {
            "baseline (nu)"
        } else if i == 1 {
            "+ mémoire"
        } else if i == 2 {
            "+ substrat"
        } else if i == 3 {
            "+ connaissances"
        } else if i == 4 {
            "+ réponse active"
        } else if i == 5 {
            "+ ε adaptatif"
        } else {
            "FULL (tout)"
        },
        memory: i == 1 || i == 6,
        substrate: i == 2 || i == 6,
        knowledge: i == 3 || i == 6,
        active_response: i == 4 || i == 6,
        adaptive_eps: i == 5 || i == 6,
    }
}

fn ablation(name: &'static str, place: usize) -> (r: Ablation)
    ensures
        r.name == name,
        r.memory == (place == 1 || place == 6),
        r.substrate == (place == 2 || place == 6),
        r.knowledge == (place == 3 || place == 6),
        r.active_response == (place == 4 || place == 6),
        r.adaptive_eps == (place == 5 || place == 6),
{
    Ablation {
        name,
        memory: place == 1 || place == 6,
        substrate: place == 2 || place == 6,
        knowledge: place == 3 || place == 6,
        active_response: place == 4 || place == 6,
        adaptive_eps: place == 5 || place == 6,
    }
}

/// The configurations of the ablation study.
pub fn configs() -> (r: Vec<Ablation>)
    ensures
        r@ == Seq::new(7, |i: int| ablation_at(i)),
{
    let mut out: Vec<Ablation> = Vec::new();
    out.push(ablation("baseline (nu)", 0));
    out.push(ablation("+ mémoire", 1));
    out.push(ablation("+ substrat", 2));
    out.push(ablation("+ connaissances", 3));
    out.push(ablation("+ réponse active", 4));
    out.push(ablation("+ ε adaptatif", 5));
    out.push(ablation("FULL (tout)", 6));
    assert(out@ =~= Seq::new(7, |i: int| ablation_at(i)));
    out
}

/// A study needs steps and seeds.
pub fn check_study(steps: u64, seeds: u64) -> (r: Result<(), String>)
    ensures
        match r {
            Ok(_) => steps > 0 && seeds > 0,
            Err(e) => if steps == 0 {
                e@ == "steps=0 (aucune mesure possible) — fournir un nombre de pas ≥ 1"@
            } else {
                seeds == 0 && e@ == "n_seeds=0 (aucune moyenne possible) — fournir un nombre de graines ≥ 1"@
            },
        },
{
    if steps == 0 {
        return Err("steps=0 (aucune mesure possible) — fournir un nombre de pas ≥ 1".to_owned());
    }
    if seeds == 0 {
        return Err("n_seeds=0 (aucune moyenne possible) — fournir un nombre de graines ≥ 1".to_owned());
    }
    Ok(())
}

/// A document of the knowledge corpus.
pub open spec fn document(i: nat, middle: Seq<char>) -> Seq<char> {
    "domaine_"@ + decimal(i) + " concept apprentissage raisonnement substrat memoire "@ + middle + "technique_"@ + decimal(i)
}

/// The documents that feed the knowledge of an agent in the ablation study.
pub fn knowledge_docs() -> (r: Vec<String>)
    ensures
        texts(r@) == Seq::new(12, |i: int| document(i as nat, "valeurs "@)),
{
    let mut out: Vec<String> = Vec::new();
    let mut i: u64 = 0;
    while i < 12
        invariant
            i <= 12,
            out@.len() == i,
            forall|k: int| 0 <= k < i ==> (#[trigger] out@[k])@ == document(k as nat, "valeurs "@),
        decreases 12 - i,
    {
        let mut doc = "domaine_".to_owned();
        doc.append(decimal_text(i).as_str());
        doc.append(" concept apprentissage raisonnement substrat memoire ");
        doc.append("valeurs ");
        doc.append("technique_");
        doc.append(decimal_text(i).as_str());
        out.push(doc);
        i += 1;
    }
    assert(texts(out@) =~= Seq::new(12, |i: int| document(i as nat, "valeurs "@)));
    out
}

/// A document of the knowledge corpus of the integrated run.
pub open spec fn integrated_document(i: nat) -> Seq<char> {
    document(i, "valeurs criticite surface intelligence recursive "@) + " methode_"@ + decimal(i)
}

/// The documents that feed the knowledge of an agent in the integrated run.
pub fn integrated_docs() -> (r: Vec<String>)
    ensures
        texts(r@) == Seq::new(12, |i: int| integrated_document(i as nat)),
{
    let mut out: Vec<String> = Vec::new();
    let mut i: u64 = 0;
    while i < 12
        invariant
            i <= 12,
            out@.len() == i,
            forall|k: int| 0 <= k < i ==> (#[trigger] out@[k])@ == integrated_document(k as nat),
        decreases 12 - i,
    {
        let mut doc = "domaine_".to_owned();
        doc.append(decimal_text(i).as_str());
        doc.append(" concept apprentissage raisonnement substrat memoire ");
        doc.append("valeurs criticite surface intelligence recursive ");
        doc.append("technique_");
        doc.append(decimal_text(i).as_str());
        doc.append(" methode_");
        doc.append(decimal_text(i).as_str());
        out.push(doc);
        i += 1;
    }
    assert(texts(out@) =~= Seq::new(12, |i: int| integrated_document(i as nat)));
    out
}

/// The name of a failure mode in tables.
pub fn short_mode(mode: FailureMode) -> (r: &'static str)
    ensures
        r == (match mode {
            FailureMode::Regression => "régression",
            FailureMode::Instability => "instabilité",
            FailureMode::ValueDrift => "dérive-V",
            FailureMode::SubstrateCollapse => "substrat",
            FailureMode::Goodhart => "goodhart",
            FailureMode::MemoryPoison => "mémoire",
            FailureMode::Wireheading => "wirehead",
        }),
{
    match mode {
        FailureMode::Regression => "régression",
        FailureMode::Instability => "instabilité",
        FailureMode::ValueDrift => "dérive-V",
        FailureMode::SubstrateCollapse => "substrat",
        FailureMode::Goodhart => "goodhart",
        FailureMode::MemoryPoison => "mémoire",
        FailureMode::Wireheading => "wirehead",
    }
}

/// How many steps lie between two rows of a table of about so many rows.
pub open spec fn stride_of(steps: nat, rows: nat) -> nat
    recommends
        rows > 0,
{
    if steps / rows == 0 {
        1
    } else {
        steps / rows
    }
}

pub fn stride(steps: u64, rows: u64) -> (r: u64)
    requires
        rows > 0,
    ensures
        r == stride_of(steps as nat, rows as nat),
        r > 0,
{
    let s: u64 = steps / rows;
    if s == 0 {
        1
    } else {
        s
    }
}

/// A report is shown at the stride, at the end, and wherever a risk was answered.
pub fn is_shown(i: u64, total: u64, stride: u64, mitigation: Mitigation) -> (r: bool)
    requires
        i < total,
        stride > 0,
    ensures
        r == (i % stride == 0 || i + 1 == total || mitigation != Mitigation::Unneeded),
{
    i % stride == 0 || i + 1 == total || mitigation != Mitigation::Unneeded
}

/// The numbers among the arguments, in their order.
pub open spec fn numbers_of(args: Seq<Seq<char>>) -> Seq<u64>
    decreases args.len(),
{
    if args.len() == 0 {
        Seq::empty()
    } else {
        let before = numbers_of(args.drop_last());
        match parsed(args.last()) {
            Some(n) => before.push(n),
            None => before,
        }
    }
}

fn read_numbers(args: &[String]) -> (r: Vec<u64>)
    ensures
        r@ == numbers_of(texts(args@)),
{
    let ghost all = texts(args@);
    let mut out: Vec<u64> = Vec::new();
    let mut i: usize = 0;
    assert(out@ =~= numbers_of(all.take(0)));
    while i < args.len()
        invariant
            i <= args@.len(),
            all == texts(args@),
            out@ == numbers_of(all.take(i as int)),
        decreases args@.len() - i,
    {
        proof {
            assert(all.take(i + 1).drop_last() =~= all.take(i as int));
            assert(all.take(i + 1).last() == args@[i as int]@);
        }
        match parse_u64(args[i].as_str()) {
            Some(n) => {
                out.push(n);
            },
            None => {},
        }
        i += 1;
    }
    assert(all.take(i as int) =~= all);
    out
}

/// The steps and the seed of an integrated run: the first two numbers of the arguments.
pub fn run_numbers(args: &[String]) -> (r: (u64, u64))
    ensures
        ({
            let numbers = numbers_of(texts(args@));
            &&& r.0 == (if numbers.len() > 0 {
                numbers[0]
            } else {
                45
            })
            &&& r.1 == (if numbers.len() > 1 {
                numbers[1]
            } else {
                2026
            })
        }),
{
    let numbers = read_numbers(args);
    let steps: u64 = if numbers.len() > 0 { numbers[0] } else { 45 };
    let seed: u64 = if numbers.len() > 1 { numbers[1] } else { 2026 };
    (steps, seed)
}

/// How the runs of a cadence mostly ended.
pub fn common_end(plateaus: u64, seeds: u64) -> (r: &'static str)
    ensures
        r == (if plateaus * 2 >= seeds {
            "plateau"
        } else {
            "budget"
        }),
{
    if plateaus as u128 * 2 >= seeds as u128 {
        "plateau"
    } else {
        "budget"
    }
}

/// How often the strategy is revised in so many steps.
pub fn revisions(steps: u64, every: u64) -> (r: u64)
    requires
        every > 0,
    ensures
        steps <= r * every,
        r > 0 ==> (r - 1) * every < steps,
{
    let whole: u64 = steps / every;
    let rest: u64 = steps % every;
    proof {
        assert(steps == whole * every + rest && 0 <= rest < every) by (nonlinear_arith)
            requires
                every > 0,
                whole == steps / every,
                rest == steps % every,
        ;
        assert((whole + 1) * every == whole * every + every) by (nonlinear_arith);
        assert(whole > 0 ==> (whole - 1) * every == whole * every - every) by (nonlinear_arith);
        if rest > 0 && whole == u64::MAX {
            assert(whole * every >= u64::MAX) by (nonlinear_arith)
                requires
                    whole == u64::MAX,
                    every > 0,
            ;
        }
    }
    if rest == 0 {
        whole
    } else {
        whole + 1
    }
}

/// A setting is a backend and behind its first colon a model, or a backend alone.
pub proof fn law_settings(backend: Seq<char>, model: Seq<char>)
    requires
        !has_char(backend, ':'),
    ensures
        setting_parts(Some(backend + seq![':'] + model)) == (Some(backend), Some(model)),
        setting_parts(Some(backend)) == (Some(backend), None::<Seq<char>>),
        setting_parts(None) == (None::<Seq<char>>, None::<Seq<char>>),
{
    let s = backend + seq![':'] + model;
    law_split_once_at_the_first(s, ':');
    law_split_once_at_the_first(backend, ':');
    assert(s[backend.len() as int] == ':');
    assert(has_char(s, ':'));
    let (before, behind) = split_once(s, ':')->0;
    let t = before + seq![':'] + behind;
    assert(t[before.len() as int] == ':');
    if before.len() < backend.len() {
        assert(s[before.len() as int] == backend[before.len() as int]);
    } else if backend.len() < before.len() {
        assert(t[backend.len() as int] == before[backend.len() as int]);
    }
    assert(before =~= backend) by {
        assert forall|i: int| 0 <= i < before.len() implies before[i] == backend[i] by {
            assert(s[i] == t[i]);
        }
    }
    assert(behind =~= model) by {
        assert forall|i: int| 0 <= i < behind.len() implies behind[i] == model[i] by {
            assert(t[before.len() + 1 + i] == behind[i]);
            assert(s[backend.len() + 1 + i] == model[i]);
        }
    }
    match split_once(backend, ':') {
        Some((a, b)) => {
            assert((a + seq![':'] + b)[a.len() as int] == ':');
            assert(has_char(backend, ':'));
        },
        None => {},
    }
}

/// A loop that has not been given up goes on after a step that was done, skips a step on
/// the first two failures of the proposer in a row, and is given up on the third, as on any
/// other failure.
pub proof fn law_third_failure_in_a_row_ends_a_loop(failures: u32)
    requires
        failures < 3,
    ensures
        watched(failures, StepEvent::Done) == (0u32, LoopMove::GoOn),
        watched(failures, StepEvent::Failed).1 == LoopMove::GiveUp,
        watched(failures, StepEvent::ProposerFailed).0 == failures + 1,
        watched(failures, StepEvent::ProposerFailed).1 == LoopMove::GiveUp <==> failures == 2,
        watched(failures, StepEvent::ProposerFailed).1 == LoopMove::Skip <==> failures < 2,
        watched(0, StepEvent::ProposerFailed) == (1u32, LoopMove::Skip),
        watched(1, StepEvent::ProposerFailed) == (2u32, LoopMove::Skip),
        watched(2, StepEvent::ProposerFailed) == (3u32, LoopMove::GiveUp),
{
}

/// As many rejections are remembered as fit, the latest ones.
pub proof fn law_latest_rejections_are_remembered(rejections: Seq<Seq<char>>, last: Seq<char>)
    requires
        rejections.len() <= 8,
    ensures
        remembered(rejections.push(last)).len() <= 8,
        remembered(rejections.push(last)).last() == last,
        rejections.len() < 8 ==> remembered(rejections.push(last)) == rejections + seq![last],
        rejections.len() == 8 ==> remembered(rejections.push(last)) == rejections.skip(1) + seq![last],
{
    assert(rejections.push(last) =~= rejections + seq![last]);
    if rejections.len() == 8 {
        assert(rejections.push(last).drop_first() =~= rejections.skip(1) + seq![last]);
    }
}

/// A source is one of a paper and a bundle; a provider and a model come together, and with
/// a paper only.
pub proof fn law_sources(args: Seq<Seq<char>>)
    ensures
        ({
            let paper = value_after(args, "--paper"@);
            let bundle = value_after(args, "--bundle"@);
            let provider = value_after(args, "--provider"@);
            let model = value_after(args, "--model"@);
            &&& source_of(args) is Ok <==> (provider is Some <==> model is Some) && ((paper is Some && bundle is None) || (
            bundle is Some && paper is None && provider is None))
            &&& source_of(args) matches Ok(s) ==> match s {
                Source::Bundle(path) => bundle == Some(path),
                Source::Paper { source, mode } => paper == Some(source) && match mode {
                    AnalysisMode::Heuristic => provider is None && model is None,
                    AnalysisMode::Model { provider: p, model: m } => provider == Some(p) && model == Some(m),
                },
            }
        }),
{
}

/// The numbers among arguments are what can be read as one, in order.
pub proof fn law_numbers_among_arguments(args: Seq<Seq<char>>)
    ensures
        numbers_of(args) == args.map_values(|a: Seq<char>| parsed(a)).filter(|n: Option<u64>| n is Some).map_values(
            |n: Option<u64>| n->0,
        ),
    decreases args.len(),
{
    reveal(Seq::filter);
    let read = args.map_values(|a: Seq<char>| parsed(a));
    if args.len() > 0 {
        let front = args.drop_last();
        law_numbers_among_arguments(front);
        assert(read.drop_last() =~= front.map_values(|a: Seq<char>| parsed(a)));
        assert(read.last() == parsed(args.last()));
        assert(numbers_of(args) =~= read.filter(|n: Option<u64>| n is Some).map_values(|n: Option<u64>| n->0));
    } else {
        assert(numbers_of(args) =~= read.filter(|n: Option<u64>| n is Some).map_values(|n: Option<u64>| n->0));
    }
}

/// The lines of a note are its lines without blanks at their ends, those that are then
/// empty left out, each cut to its first hundred and sixty characters.
pub proof fn law_note_lines(lines: Seq<Seq<char>>)
    ensures
        note_lines(lines) == lines.map_values(|l: Seq<char>| trim_end(l)).filter(|l: Seq<char>| l.len() > 0).map_values(
            |l: Seq<char>|
                if l.len() > 160 {
                    l.take(160)
                } else {
                    l
                },
        ),
    decreases lines.len(),
{
    reveal(Seq::filter);
    let cut = |l: Seq<char>|
        if l.len() > 160 {
            l.take(160)
        } else {
            l
        };
    let trimmed = lines.map_values(|l: Seq<char>| trim_end(l));
    let kept = trimmed.filter(|l: Seq<char>| l.len() > 0);
    if lines.len() > 0 {
        let front = lines.drop_last();
        law_note_lines(front);
        assert(trimmed.drop_last() =~= front.map_values(|l: Seq<char>| trim_end(l)));
        let line = trim_end(lines.last());
        assert(trimmed.last() == line);
        assert(first_of(line, 160) =~= cut(line));
    }
    assert(note_lines(lines) =~= kept.map_values(cut));
}

/// The rows of a table are so far apart that at most twice as many fit as were asked for.
pub proof fn law_strides(steps: nat, rows: nat)
    requires
        rows > 0,
    ensures
        stride_of(steps, rows) >= 1,
        steps >= rows ==> stride_of(steps, rows) * rows <= steps < (stride_of(steps, rows) + 1) * rows,
        steps < rows ==> stride_of(steps, rows) == 1,
{
    vstd::arithmetic::div_mod::lemma_fundamental_div_mod(steps as int, rows as int);
    let q = steps as int / rows as int;
    let r = rows as int;
    assert(r * q == q * r) by (nonlinear_arith);
    assert((q + 1) * r == q * r + r) by (nonlinear_arith);
    if steps < rows {
        assert(q == 0) by {
            vstd::arithmetic::div_mod::lemma_basic_div(steps as int, rows as int);
        }
    } else {
        assert(q >= 1) by (nonlinear_arith)
            requires
                steps == r * q + steps as int % r,
                steps as int % r < r,
                steps >= r,
                r > 0,
        ;
    }
}

/// A variant is promotable exactly where it is not the root, green throughout, and better.
pub proof fn law_promotable_variants(is_root: bool, all_green: bool, better: bool, r: bool)
    requires
        call_ensures(is_promotable, (is_root, all_green, better), r),
    ensures
        r <==> !is_root && all_green && better,
{
}

/// The first row, the last and every row of a step that was mitigated are shown, and of the
/// others those a stride apart.
pub proof fn law_shown_rows(i: u64, total: u64, stride: u64, mitigation: Mitigation, r: bool)
    requires
        stride > 0,
        i < total,
        call_ensures(is_shown, (i, total, stride, mitigation), r),
    ensures
        i == 0 ==> r,
        i == total - 1 ==> r,
        mitigation != Mitigation::Unneeded ==> r,
        mitigation == Mitigation::Unneeded && i < total - 1 ==> (r <==> exists|k: int| i == #[trigger] (k * stride)),
{
    let n = i as int;
    let s = stride as int;
    vstd::arithmetic::div_mod::lemma_fundamental_div_mod(n, s);
    if n % s == 0 {
        assert(s * (n / s) == (n / s) * s) by (nonlinear_arith);
        assert(i == (n / s) * stride);
    }
    if exists|k: int| i == #[trigger] (k * stride) {
        let k = choose|k: int| i == #[trigger] (k * stride);
        vstd::arithmetic::div_mod::lemma_mod_multiples_basic(k, s);
    }
}

/// A patch that is said not to compile or to break tests is predicted to fail, with a
/// reason; any other is predicted as its tests are, without one.
pub proof fn law_predictions(compiles: Option<bool>, tests_pass: Option<bool>, r: (Option<bool>, Option<&'static str>))
    requires
        call_ensures(prediction, (compiles, tests_pass), r),
    ensures
        r.0 == Some(true) ==> compiles != Some(false) && tests_pass == Some(true),
        r.0 == Some(false) <==> compiles == Some(false) || tests_pass == Some(false),
        r.0 == Some(false) <==> r.1 is Some,
        r.0 is None ==> tests_pass is None && compiles != Some(false),
{
}

/// As many revisions are made as it takes to cover the steps, and no more.
pub proof fn law_revisions_cover_the_steps(steps: u64, every: u64, r: u64)
    requires
        every > 0,
        call_ensures(revisions, (steps, every), r),
    ensures
        r * every >= steps,
        steps == 0 ==> r == 0,
        r > 0 ==> (r - 1) * every < steps,
{
    if steps == 0 && r > 0 {
        assert((r - 1) * every >= 0) by (nonlinear_arith)
            requires
                r >= 1,
                every >= 0,
        ;
    }
}

} // verus!
