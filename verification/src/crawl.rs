//! The command line of the crawler: its options, and the lines of its index files.

use vstd::prelude::*;

use crate::cli::{parse_u64, parsed};
use crate::json::{empty_obj, parse_text, print, Json, Value};
use crate::json_text::{optional, str_at};
use crate::text::{decimal, decimal_text, law_prefix_and_infix, same_text, text_starts_with, starts_with, texts, trim, trim_text};

verus! {

// ---------------------------------------------------------------------------
// Options
// ---------------------------------------------------------------------------

/// The limits and the inputs of a crawl.
#[derive(Debug, PartialEq, Eq)]
pub struct CliOpts {
    pub max_pages: u64,
    pub depth: u64,
    pub max_bytes: u64,
    pub timeout_secs: u64,
    pub delay_ms: u64,
    pub respect_robots: bool,
    pub allow_private: bool,
    pub out: Option<String>,
    pub query: Option<String>,
    pub seeds: Vec<String>,
}

/// The options over mathematical sequences.
#[verifier::ext_equal]
pub ghost struct CrawlOptions {
    pub max_pages: u64,
    pub depth: u64,
    pub max_bytes: u64,
    pub timeout_secs: u64,
    pub delay_ms: u64,
    pub respect_robots: bool,
    pub allow_private: bool,
    pub out: Option<Seq<char>>,
    pub query: Option<Seq<char>>,
    pub seeds: Seq<Seq<char>>,
}

impl CliOpts {
    pub open spec fn view(&self) -> CrawlOptions {
        CrawlOptions {
            max_pages: self.max_pages,
            depth: self.depth,
            max_bytes: self.max_bytes,
            timeout_secs: self.timeout_secs,
            delay_ms: self.delay_ms,
            respect_robots: self.respect_robots,
            allow_private: self.allow_private,
            out: optional(self.out),
            query: optional(self.query),
            seeds: texts(self.seeds@),
        }
    }
}

pub open spec fn default_options() -> CrawlOptions {
    CrawlOptions {
        max_pages: 50,
        depth: 2,
        max_bytes: 2_097_152,
        timeout_secs: 10,
        delay_ms: 200,
        respect_robots: true,
        allow_private: false,
        out: None,
        query: None,
        seeds: Seq::empty(),
    }
}

/// The argument behind the first.
pub open spec fn next_of(args: Seq<Seq<char>>) -> Option<Seq<char>> {
    if args.len() > 1 {
        Some(args[1])
    } else {
        None
    }
}

/// The arguments behind the first two.
pub open spec fn behind_next(args: Seq<Seq<char>>) -> Seq<Seq<char>> {
    if args.len() > 1 {
        args.skip(2)
    } else {
        Seq::empty()
    }
}

/// The number behind an option, or its default.
pub open spec fn number_or(text: Option<Seq<char>>, default: u64) -> u64 {
    match text {
        Some(t) => match parsed(t) {
            Some(n) => n,
            None => default,
        },
        None => default,
    }
}

/// The options after the arguments were read one by one, or the first unknown option.
pub open spec fn options_after(o: CrawlOptions, args: Seq<Seq<char>>) -> Result<CrawlOptions, Seq<char>>
    decreases args.len(),
{
    if args.len() == 0 {
        Ok(o)
    } else if args[0] == "--max-pages"@ {
        options_after(CrawlOptions { max_pages: number_or(next_of(args), 50), ..o }, behind_next(args))
    } else if args[0] == "--depth"@ {
        options_after(CrawlOptions { depth: number_or(next_of(args), 2), ..o }, behind_next(args))
    } else if args[0] == "--max-bytes"@ {
        options_after(CrawlOptions { max_bytes: number_or(next_of(args), 2_097_152), ..o }, behind_next(args))
    } else if args[0] == "--timeout"@ {
        options_after(CrawlOptions { timeout_secs: number_or(next_of(args), 10), ..o }, behind_next(args))
    } else if args[0] == "--delay"@ {
        options_after(CrawlOptions { delay_ms: number_or(next_of(args), 200), ..o }, behind_next(args))
    } else if args[0] == "--no-robots"@ {
        options_after(CrawlOptions { respect_robots: false, ..o }, args.skip(1))
    } else if args[0] == "--allow-private"@ {
        options_after(CrawlOptions { allow_private: true, ..o }, args.skip(1))
    } else if args[0] == "--out"@ {
        options_after(CrawlOptions { out: next_of(args), ..o }, behind_next(args))
    } else if args[0] == "--query"@ {
        options_after(CrawlOptions { query: next_of(args), ..o }, behind_next(args))
    } else if starts_with(args[0], "-"@) {
        Err("option inconnue : "@ + args[0])
    } else {
        options_after(CrawlOptions { seeds: o.seeds.push(args[0]), ..o }, args.skip(1))
    }
}

fn read_number(text: &Option<String>, default: u64) -> (r: u64)
    ensures
        r == number_or(optional(*text), default),
{
    match text {
        Some(t) => match parse_u64(t.as_str()) {
            Some(n) => n,
            None => default,
        },
        None => default,
    }
}

/// What an argument of the crawler is.
#[derive(Debug, Clone, Copy, PartialEq, Eq, Structural)]
enum Argument {
    /// An option with a value behind it.
    WithValue,
    /// An option by itself, or a page.
    Single,
    Unknown,
}

spec fn takes_value(a: Seq<char>) -> bool {
    a == "--max-pages"@ || a == "--depth"@ || a == "--max-bytes"@ || a == "--timeout"@ || a == "--delay"@ || a == "--out"@ || a == "--query"@
}

spec fn is_single(a: Seq<char>) -> bool {
    a == "--no-robots"@ || a == "--allow-private"@ || !starts_with(a, "-"@)
}

fn classify(a: &str) -> (r: Argument)
    ensures
        match r {
            Argument::WithValue => takes_value(a@),
            Argument::Single => !takes_value(a@) && is_single(a@),
            Argument::Unknown => !takes_value(a@) && !is_single(a@),
        },
{
    if same_text(a, "--max-pages") || same_text(a, "--depth") || same_text(a, "--max-bytes") || same_text(a, "--timeout") || same_text(a, "--delay")
        || same_text(a, "--out") || same_text(a, "--query")
    {
        Argument::WithValue
    } else if same_text(a, "--no-robots") || same_text(a, "--allow-private") || !text_starts_with(a, "-") {
        Argument::Single
    } else {
        Argument::Unknown
    }
}

spec fn valued(o: CrawlOptions, a: Seq<char>, v: Option<Seq<char>>) -> CrawlOptions {
    if a == "--max-pages"@ {
        CrawlOptions { max_pages: number_or(v, 50), ..o }
    } else if a == "--depth"@ {
        CrawlOptions { depth: number_or(v, 2), ..o }
    } else if a == "--max-bytes"@ {
        CrawlOptions { max_bytes: number_or(v, 2_097_152), ..o }
    } else if a == "--timeout"@ {
        CrawlOptions { timeout_secs: number_or(v, 10), ..o }
    } else if a == "--delay"@ {
        CrawlOptions { delay_ms: number_or(v, 200), ..o }
    } else if a == "--out"@ {
        CrawlOptions { out: v, ..o }
    } else {
        CrawlOptions { query: v, ..o }
    }
}

spec fn single(o: CrawlOptions, a: Seq<char>) -> CrawlOptions {
    if a == "--no-robots"@ {
        CrawlOptions { respect_robots: false, ..o }
    } else if a == "--allow-private"@ {
        CrawlOptions { allow_private: true, ..o }
    } else {
        CrawlOptions { seeds: o.seeds.push(a), ..o }
    }
}

fn set_valued(o: &mut CliOpts, a: &str, v: Option<String>)
    requires
        takes_value(a@),
    ensures
        final(o)@ == valued(old(o)@, a@, optional(v)),
{
    if same_text(a, "--max-pages") {
        o.max_pages = read_number(&v, 50);
    } else if same_text(a, "--depth") {
        o.depth = read_number(&v, 2);
    } else if same_text(a, "--max-bytes") {
        o.max_bytes = read_number(&v, 2_097_152);
    } else if same_text(a, "--timeout") {
        o.timeout_secs = read_number(&v, 10);
    } else if same_text(a, "--delay") {
        o.delay_ms = read_number(&v, 200);
    } else if same_text(a, "--out") {
        o.out = v;
    } else {
        o.query = v;
    }
}

fn set_single(o: &mut CliOpts, a: &str)
    ensures
        final(o)@ == single(old(o)@, a@),
{
    if same_text(a, "--no-robots") {
        o.respect_robots = false;
    } else if same_text(a, "--allow-private") {
        o.allow_private = true;
    } else {
        let ghost before = texts(o.seeds@);
        o.seeds.push(a.to_owned());
        assert(texts(o.seeds@) =~= before.push(a@));
    }
}

proof fn lemma_read_argument(o: CrawlOptions, args: Seq<Seq<char>>)
    requires
        args.len() > 0,
    ensures
        takes_value(args[0]) ==> options_after(o, args) == options_after(
            valued(o, args[0], next_of(args)),
            behind_next(args),
        ),
        !takes_value(args[0]) && is_single(args[0]) ==> options_after(o, args) == options_after(
            single(o, args[0]),
            args.skip(1),
        ),
        !takes_value(args[0]) && !is_single(args[0]) ==> options_after(o, args) == Err::<CrawlOptions, Seq<char>>(
            "option inconnue : "@ + args[0],
        ),
{
    reveal_strlit("--no-robots");
    reveal_strlit("--allow-private");
    reveal_strlit("--out");
    reveal_strlit("--query");
    assert("--no-robots"@.len() == 11 && "--allow-private"@.len() == 15 && "--out"@.len() == 5 && "--query"@.len() == 7);
}

/// Reads the arguments behind the command.
pub fn parse_opts(args: &[String]) -> (r: Result<CliOpts, String>)
    ensures
        match r {
            Ok(o) => options_after(default_options(), texts(args@)) == Ok::<CrawlOptions, Seq<char>>(o@),
            Err(e) => options_after(default_options(), texts(args@)) == Err::<CrawlOptions, Seq<char>>(e@),
        },
{
    let mut o = CliOpts {
        max_pages: 50,
        depth: 2,
        max_bytes: 2_097_152,
        timeout_secs: 10,
        delay_ms: 200,
        respect_robots: true,
        allow_private: false,
        out: None,
        query: None,
        seeds: Vec::new(),
    };
    let ghost all = texts(args@);
    let n: usize = args.len();
    let mut i: usize = 0;
    proof {
        assert(o@ =~= default_options());
        assert(all.skip(0) =~= all);
    }
    while i < n
        invariant
            i <= n,
            n == args@.len(),
            all == texts(args@),
            options_after(default_options(), all) == options_after(o@, all.skip(i as int)),
        decreases n - i,
    {
        let a: &str = args[i].as_str();
        let ghost rest = all.skip(i as int);
        proof {
            assert(rest[0] == args@[i as int]@);
            assert(rest.skip(1) =~= all.skip(i + 1));
            if i + 1 < n {
                assert(rest[1] == args@[i + 1]@);
                assert(rest.skip(2) =~= all.skip(i + 2));
            } else {
                assert(all.skip(n as int) =~= Seq::empty());
            }
            lemma_read_argument(o@, rest);
        }
        match classify(a) {
            Argument::WithValue => {
                if i + 1 < n {
                    set_valued(&mut o, a, Some(args[i + 1].clone()));
                    i += 2;
                } else {
                    set_valued(&mut o, a, None);
                    i = n;
                }
            },
            Argument::Single => {
                set_single(&mut o, a);
                i += 1;
            },
            Argument::Unknown => {
                let mut message = "option inconnue : ".to_owned();
                message.append(a);
                return Err(message);
            },
        }
    }
    assert(all.skip(n as int).len() == 0);
    Ok(o)
}

/// The announcement of a crawl.
pub fn announcement(o: &CliOpts) -> (r: String)
    ensures
        r@ == "crawl : "@ + decimal(o.seeds@.len()) + " seed(s), max "@ + decimal(o.max_pages as nat) + " pages, profondeur "@
            + decimal(o.depth as nat) + ", robots "@ + (if o.respect_robots {
            "oui"@
        } else {
            "non"@
        }),
{
    let mut out = "crawl : ".to_owned();
    out.append(decimal_text(o.seeds.len() as u64).as_str());
    out.append(" seed(s), max ");
    out.append(decimal_text(o.max_pages).as_str());
    out.append(" pages, profondeur ");
    out.append(decimal_text(o.depth).as_str());
    out.append(", robots ");
    out.append(if o.respect_robots { "oui" } else { "non" });
    out
}

// ---------------------------------------------------------------------------
// Index files
// ---------------------------------------------------------------------------

/// A page with its text.
#[derive(Debug, PartialEq, Eq)]
pub struct Page {
    pub url: String,
    pub title: String,
    pub text: String,
}

pub open spec fn page_value(p: Page) -> Value {
    empty_obj().with("url"@, Value::Str(p.url@)).with("title"@, Value::Str(p.title@)).with("text"@, Value::Str(p.text@))
}

/// The lines of an index: each page as JSON on a line of its own.
pub open spec fn index_text(pages: Seq<Page>) -> Seq<char>
    decreases pages.len(),
{
    if pages.len() == 0 {
        Seq::empty()
    } else {
        index_text(pages.drop_last()) + print(page_value(pages.last())) + seq!['\n']
    }
}

fn page_json(p: &Page) -> (r: Json)
    ensures
        r@ == page_value(*p),
{
    let mut o = Json::obj();
    o.set("url", Json::text(p.url.as_str()));
    o.set("title", Json::text(p.title.as_str()));
    o.set("text", Json::text(p.text.as_str()));
    o
}

/// The text of an index file.
pub fn export_pages(pages: &[Page]) -> (r: String)
    ensures
        r@ == index_text(pages@),
{
    let mut out = String::new();
    let mut i: usize = 0;
    while i < pages.len()
        invariant
            i <= pages@.len(),
            out@ == index_text(pages@.take(i as int)),
        decreases pages@.len() - i,
    {
        proof {
            assert(pages@.take(i + 1).drop_last() =~= pages@.take(i as int));
            assert(pages@.take(i + 1).last() == pages@[i as int]);
        }
        let ghost before = out@;
        out.append(page_json(&pages[i]).to_string().as_str());
        out.push('\n');
        assert(out@ =~= before + print(page_value(pages@[i as int])) + seq!['\n']);
        i += 1;
    }
    assert(pages@.take(i as int) =~= pages@);
    out
}

/// What a line of an index file is.
#[derive(Debug, PartialEq, Eq)]
pub enum IndexLine {
    Blank,
    Malformed,
    /// JSON that names no page.
    Incomplete,
    Found(Page),
}

/// The page that a value names.
pub open spec fn page_of(v: Value) -> Option<(Seq<char>, Seq<char>, Seq<char>)> {
    match (str_at(v, "url"@), str_at(v, "title"@), str_at(v, "text"@)) {
        (Some(url), Some(title), Some(text)) => Some((url, title, text)),
        _ => None,
    }
}

/// Reads a line of an index file.
pub fn read_index_line(line: &str) -> (r: IndexLine)
    ensures
        match r {
            IndexLine::Blank => trim(line@).len() == 0,
            IndexLine::Malformed => trim(line@).len() > 0 && parse_text(line@) is None,
            IndexLine::Incomplete => {
                &&& trim(line@).len() > 0
                &&& parse_text(line@) matches Some(v)
                &&& page_of(v) is None
            },
            IndexLine::Found(p) => {
                &&& trim(line@).len() > 0
                &&& parse_text(line@) matches Some(v)
                &&& page_of(v) == Some((p.url@, p.title@, p.text@))
            },
        },
{
    if trim_text(line).as_str().is_empty() {
        return IndexLine::Blank;
    }
    match Json::parse(line) {
        Err(_) => IndexLine::Malformed,
        Ok(j) => match (j.str_at("url"), j.str_at("title"), j.str_at("text")) {
            (Some(url), Some(title), Some(text)) => IndexLine::Found(
                Page { url: url.to_owned(), title: title.to_owned(), text: text.to_owned() },
            ),
            _ => IndexLine::Incomplete,
        },
    }
}

// ---------------------------------------------------------------------------
// Laws
// ---------------------------------------------------------------------------

/// A page that is written to an index is read back from its line.
pub proof fn law_page_reads_back(p: Page)
    ensures
        parse_text(print(page_value(p))) matches Some(v) && page_of(v) == Some((p.url@, p.title@, p.text@)),
{
    reveal_strlit("url");
    reveal_strlit("title");
    reveal_strlit("text");
    assert("url"@.len() == 3 && "title"@.len() == 5 && "text"@.len() == 4);
    let a = empty_obj();
    let b = a.with("url"@, Value::Str(p.url@));
    let c = b.with("title"@, Value::Str(p.title@));
    crate::json::lemma_bound(a, "url"@, Value::Str(p.url@));
    crate::json::lemma_bound(b, "title"@, Value::Str(p.title@));
    crate::json::lemma_bound(c, "text"@, Value::Str(p.text@));
    crate::json_round_trip::law_parse_inverts_print(page_value(p));
}

/// Arguments without a dash are seeds, in order; nothing else is set by them.
pub proof fn law_seeds(o: CrawlOptions, seeds: Seq<Seq<char>>)
    requires
        forall|i: int| 0 <= i < seeds.len() ==> !starts_with(#[trigger] seeds[i], "-"@),
    ensures
        options_after(o, seeds) == Ok::<CrawlOptions, Seq<char>>(CrawlOptions { seeds: o.seeds + seeds, ..o }),
    decreases seeds.len(),
{
    if seeds.len() > 0 {
        reveal_strlit("-");
        reveal_strlit("--max-pages");
        reveal_strlit("--depth");
        reveal_strlit("--max-bytes");
        reveal_strlit("--timeout");
        reveal_strlit("--delay");
        reveal_strlit("--no-robots");
        reveal_strlit("--allow-private");
        reveal_strlit("--out");
        reveal_strlit("--query");
        let rest = seeds.skip(1);
        assert forall|i: int| 0 <= i < rest.len() implies !starts_with(#[trigger] rest[i], "-"@) by {
            assert(rest[i] == seeds[i + 1]);
        }
        let a = seeds[0];
        law_prefix_and_infix(a, "-"@);
        assert(a.len() == 0 || a[0] != '-') by {
            if a.len() > 0 && a[0] == '-' {
                assert(a =~= "-"@ + a.skip(1));
            }
        }
        assert("--max-pages"@[0] == '-' && "--depth"@[0] == '-' && "--max-bytes"@[0] == '-' && "--timeout"@[0] == '-');
        assert("--delay"@[0] == '-' && "--no-robots"@[0] == '-' && "--allow-private"@[0] == '-' && "--out"@[0] == '-');
        assert("--query"@[0] == '-');
        law_seeds(CrawlOptions { seeds: o.seeds.push(a), ..o }, rest);
        assert(o.seeds.push(a) + rest =~= o.seeds + seeds);
    } else {
        assert(o.seeds + seeds =~= o.seeds);
    }
}

/// Each flag sets its own option alone: to the number behind it, or to its default where
/// that is no number; to the text behind it; or, where it takes none, to what it says.
pub proof fn law_flags_set_their_options(o: CrawlOptions, value: Seq<char>, rest: Seq<Seq<char>>)
    ensures
        options_after(o, seq!["--max-pages"@].push(value) + rest) == options_after(
            CrawlOptions {
                max_pages: match parsed(value) {
                    Some(n) => n,
                    None => 50,
                },
                ..o
            },
            rest,
        ),
        options_after(o, seq!["--depth"@].push(value) + rest) == options_after(
            CrawlOptions {
                depth: match parsed(value) {
                    Some(n) => n,
                    None => 2,
                },
                ..o
            },
            rest,
        ),
        options_after(o, seq!["--max-bytes"@].push(value) + rest) == options_after(
            CrawlOptions {
                max_bytes: match parsed(value) {
                    Some(n) => n,
                    None => 2097152,
                },
                ..o
            },
            rest,
        ),
        options_after(o, seq!["--timeout"@].push(value) + rest) == options_after(
            CrawlOptions {
                timeout_secs: match parsed(value) {
                    Some(n) => n,
                    None => 10,
                },
                ..o
            },
            rest,
        ),
        options_after(o, seq!["--delay"@].push(value) + rest) == options_after(
            CrawlOptions {
                delay_ms: match parsed(value) {
                    Some(n) => n,
                    None => 200,
                },
                ..o
            },
            rest,
        ),
        options_after(o, seq!["--out"@].push(value) + rest) == options_after(CrawlOptions { out: Some(value), ..o }, rest),
        options_after(o, seq!["--query"@].push(value) + rest) == options_after(CrawlOptions { query: Some(value), ..o }, rest),
        options_after(o, seq!["--no-robots"@] + rest) == options_after(CrawlOptions { respect_robots: false, ..o }, rest),
        options_after(o, seq!["--allow-private"@] + rest) == options_after(CrawlOptions { allow_private: true, ..o }, rest),
{
    reveal_strlit("--max-pages");
    reveal_strlit("--depth");
    reveal_strlit("--max-bytes");
    reveal_strlit("--timeout");
    reveal_strlit("--delay");
    reveal_strlit("--no-robots");
    reveal_strlit("--allow-private");
    reveal_strlit("--out");
    reveal_strlit("--query");
    assert("--max-pages"@.len() == 11);
    assert("--depth"@.len() == 7);
    assert("--max-bytes"@.len() == 11);
    assert("--timeout"@.len() == 9);
    assert("--delay"@.len() == 7);
    assert("--no-robots"@.len() == 11);
    assert("--allow-private"@.len() == 15);
    assert("--out"@.len() == 5);
    assert("--query"@.len() == 7);
    assert("--max-pages"@[6] != "--max-bytes"@[6]);
    assert("--max-pages"@[2] != "--no-robots"@[2]);
    assert("--depth"@[4] != "--delay"@[4]);
    assert("--depth"@[2] != "--query"@[2]);
    assert("--max-bytes"@[2] != "--no-robots"@[2]);
    assert("--delay"@[2] != "--query"@[2]);
    let a0 = seq!["--max-pages"@].push(value) + rest;
    assert(a0[0] == "--max-pages"@ && a0[1] == value && a0.skip(2) =~= rest);
    let a1 = seq!["--depth"@].push(value) + rest;
    assert(a1[0] == "--depth"@ && a1[1] == value && a1.skip(2) =~= rest);
    let a2 = seq!["--max-bytes"@].push(value) + rest;
    assert(a2[0] == "--max-bytes"@ && a2[1] == value && a2.skip(2) =~= rest);
    let a3 = seq!["--timeout"@].push(value) + rest;
    assert(a3[0] == "--timeout"@ && a3[1] == value && a3.skip(2) =~= rest);
    let a4 = seq!["--delay"@].push(value) + rest;
    assert(a4[0] == "--delay"@ && a4[1] == value && a4.skip(2) =~= rest);
    let b0 = seq!["--out"@].push(value) + rest;
    assert(b0[0] == "--out"@ && b0[1] == value && b0.skip(2) =~= rest);
    let b1 = seq!["--query"@].push(value) + rest;
    assert(b1[0] == "--query"@ && b1[1] == value && b1.skip(2) =~= rest);
    let c0 = seq!["--no-robots"@] + rest;
    assert(c0[0] == "--no-robots"@ && c0.skip(1) =~= rest);
    let c1 = seq!["--allow-private"@] + rest;
    assert(c1[0] == "--allow-private"@ && c1.skip(1) =~= rest);
}

} // verus!
