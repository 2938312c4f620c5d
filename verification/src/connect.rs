//! Registration of the tool server in the configurations of agent runtimes.

use vstd::prelude::*;

use crate::json::{empty_obj, get, lemma_bound, parse_text, wf, Json, Value};
use crate::json_pretty::{all_space, law_pretty_reads_back, pretty, pretty_print};
use crate::json_text::optional;
use crate::text::{filled_lines, nonempty_parts, same_text, split, split_once, split_text_once, texts, trim, trim_text};

verus! {

// ---------------------------------------------------------------------------
// Options
// ---------------------------------------------------------------------------

/// What the program is asked to do.
#[derive(Debug, PartialEq, Eq)]
pub struct Options<S = String> {
    pub print_only: bool,
    pub server_name: S,
    pub bin_override: Option<S>,
}

impl Options {
    pub open spec fn view(&self) -> Options<Seq<char>> {
        Options {
            print_only: self.print_only,
            server_name: self.server_name@,
            bin_override: optional(self.bin_override),
        }
    }
}

/// The options after the arguments were read one by one; none where help is asked for.
/// Unknown arguments are passed over.
pub open spec fn options_after(o: Options<Seq<char>>, args: Seq<Seq<char>>) -> Option<Options<Seq<char>>>
    decreases args.len(),
{
    if args.len() == 0 {
        Some(o)
    } else if args[0] == "--print"@ {
        options_after(Options { print_only: true, ..o }, args.skip(1))
    } else if args[0] == "--name"@ {
        if args.len() > 1 {
            options_after(Options { server_name: args[1], ..o }, args.skip(2))
        } else {
            Some(o)
        }
    } else if args[0] == "--bin"@ {
        if args.len() > 1 {
            options_after(Options { bin_override: Some(args[1]), ..o }, args.skip(2))
        } else {
            Some(Options { bin_override: None, ..o })
        }
    } else if args[0] == "-h"@ || args[0] == "--help"@ {
        None
    } else {
        options_after(o, args.skip(1))
    }
}

pub open spec fn default_options() -> Options<Seq<char>> {
    Options { print_only: false, server_name: "rsi"@, bin_override: None }
}

/// Reads the arguments behind the program's name.
pub fn parse_options(args: &[String]) -> (r: Option<Options>)
    ensures
        match r {
            Some(o) => options_after(default_options(), texts(args@)) == Some(o@),
            None => options_after(default_options(), texts(args@)) is None,
        },
{
    let mut o = Options { print_only: false, server_name: "rsi".to_owned(), bin_override: None };
    let ghost all = texts(args@);
    let n: usize = args.len();
    let mut i: usize = 0;
    assert(all.skip(0) =~= all);
    while i < n
        invariant
            i <= n,
            n == args@.len(),
            all == texts(args@),
            options_after(default_options(), all) == options_after(o@, all.skip(i as int)),
        decreases n - i,
    {
        let arg: &str = args[i].as_str();
        let ghost rest = all.skip(i as int);
        proof {
            assert(rest[0] == args@[i as int]@);
            assert(rest.skip(1) =~= all.skip(i + 1));
            if i + 1 < n {
                assert(rest[1] == args@[i + 1]@);
                assert(rest.skip(2) =~= all.skip(i + 2));
            }
        }
        if same_text(arg, "--print") {
            o.print_only = true;
            i += 1;
        } else if same_text(arg, "--name") {
            if i + 1 < n {
                o.server_name = args[i + 1].clone();
                i += 2;
            } else {
                return Some(o);
            }
        } else if same_text(arg, "--bin") {
            if i + 1 < n {
                o.bin_override = Some(args[i + 1].clone());
                i += 2;
            } else {
                o.bin_override = None;
                return Some(o);
            }
        } else if same_text(arg, "-h") || same_text(arg, "--help") {
            return None;
        } else {
            i += 1;
        }
    }
    assert(all.skip(n as int).len() == 0);
    Some(o)
}

/// The program of the server: the one that is forced, else the one of the environment,
/// else the one that was found, else the one on the search path.
pub fn choose_binary(forced: Option<String>, configured: Option<String>, found: Option<String>) -> (r: String)
    ensures
        r@ == (match (forced, configured, found) {
            (Some(p), _, _) => p@,
            (None, Some(p), _) => p@,
            (None, None, Some(p)) => p@,
            (None, None, None) => "rsi-mcp"@,
        }),
{
    match forced {
        Some(p) => p,
        None => match configured {
            Some(p) => p,
            None => match found {
                Some(p) => p,
                None => "rsi-mcp".to_owned(),
            },
        },
    }
}

// ---------------------------------------------------------------------------
// The entry
// ---------------------------------------------------------------------------

pub open spec fn entry_value(bin: Seq<char>) -> Value {
    empty_obj().with("command"@, Value::Str(bin)).with("args"@, Value::Arr(Seq::empty())).with("env"@, empty_obj()).with(
        "description"@,
        Value::Str(
            "RSI — agent cognitif auto-améliorant (surface d'intelligence, substrat, méta-optimisation récursive sous garde-fous de stabilité)."@,
        ),
    ).with("transport"@, Value::Str("stdio"@))
}

/// The entry of the server.
pub fn server_entry(bin: &str) -> (r: Json)
    ensures
        r@ == entry_value(bin@),
{
    let none: Vec<Json> = Vec::new();
    proof {
        crate::json::lemma_arr_view(none);
        assert(crate::json::values(none@) =~= Seq::empty());
    }
    let mut entry = Json::obj();
    entry.set("command", Json::text(bin));
    entry.set("args", Json::Arr(none));
    entry.set("env", Json::obj());
    entry.set(
        "description",
        Json::text(
            "RSI — agent cognitif auto-améliorant (surface d'intelligence, substrat, méta-optimisation récursive sous garde-fous de stabilité).",
        ),
    );
    entry.set("transport", Json::text("stdio"));
    entry
}

/// A configuration with nothing but the server.
pub fn descriptor(name: &str, bin: &str) -> (r: Json)
    ensures
        r@ == empty_obj().with("mcpServers"@, empty_obj().with(name@, entry_value(bin@))),
{
    let mut servers = Json::obj();
    servers.set(name, server_entry(bin));
    let mut root = Json::obj();
    root.set("mcpServers", servers);
    root
}

// ---------------------------------------------------------------------------
// Merging
// ---------------------------------------------------------------------------

/// Why a configuration is left as it is.
#[derive(Debug, Clone, Copy, PartialEq, Eq, Structural)]
pub enum MergeRefusal {
    NotJson,
    RootIsNoObject,
}

/// The servers that a configuration names; none where it names no object of them.
pub open spec fn servers_of(root: Value) -> Value {
    match get(root, "mcpServers"@) {
        Some(v) => if v is Obj {
            v
        } else {
            empty_obj()
        },
        None => empty_obj(),
    }
}

/// A configuration with the server under its name.
pub open spec fn with_server(root: Value, name: Seq<char>, bin: Seq<char>) -> Value {
    root.with("mcpServers"@, servers_of(root).with(name, entry_value(bin)))
}

/// The configuration of a file with the server in it. A file that is missing or blank
/// counts as an empty object; one that is no JSON object is never replaced.
pub open spec fn merged(content: Option<Seq<char>>, name: Seq<char>, bin: Seq<char>) -> Result<Value, MergeRefusal> {
    match content {
        None => Ok(with_server(empty_obj(), name, bin)),
        Some(text) => if trim(text).len() == 0 {
            Ok(with_server(empty_obj(), name, bin))
        } else {
            match parse_text(text) {
                None => Err(MergeRefusal::NotJson),
                Some(root) => if root is Obj {
                    Ok(with_server(root, name, bin))
                } else {
                    Err(MergeRefusal::RootIsNoObject)
                },
            }
        },
    }
}

fn merge_into(root: Json, name: &str, bin: &str) -> (r: Json)
    ensures
        r@ == with_server(root@, name@, bin@),
{
    let mut servers: Json = match root.get("mcpServers") {
        Some(v) => match v {
            Json::Obj(_) => v.clone(),
            _ => Json::obj(),
        },
        None => Json::obj(),
    };
    servers.set(name, server_entry(bin));
    let mut out = root;
    out.set("mcpServers", servers);
    out
}

/// Merges the server into the configuration of a file.
pub fn register(content: Option<&str>, name: &str, bin: &str) -> (r: Result<Json, MergeRefusal>)
    ensures
        match r {
            Ok(j) => merged(
                match content {
                    Some(t) => Some(t@),
                    None => None,
                },
                name@,
                bin@,
            ) == Ok::<Value, MergeRefusal>(j@),
            Err(e) => merged(
                match content {
                    Some(t) => Some(t@),
                    None => None,
                },
                name@,
                bin@,
            ) == Err::<Value, MergeRefusal>(e),
        },
{
    match content {
        None => Ok(merge_into(Json::obj(), name, bin)),
        Some(text) => {
            if trim_text(text).as_str().is_empty() {
                return Ok(merge_into(Json::obj(), name, bin));
            }
            match Json::parse(text) {
                Err(_) => Err(MergeRefusal::NotJson),
                Ok(root) => match root {
                    Json::Obj(ms) => Ok(merge_into(Json::Obj(ms), name, bin)),
                    _ => Err(MergeRefusal::RootIsNoObject),
                },
            }
        },
    }
}

/// The text of a configuration file.
pub open spec fn file_text(root: Value) -> Seq<char> {
    pretty(root, seq!['\n']) + seq!['\n']
}

pub fn config_text(root: &Json) -> (r: String)
    ensures
        r@ == file_text(root@),
{
    let mut out = pretty_print(root);
    out.push('\n');
    assert(out@ =~= file_text(root@));
    out
}

// ---------------------------------------------------------------------------
// Targets
// ---------------------------------------------------------------------------

/// A further configuration, or an entry that names none.
#[derive(Debug, PartialEq, Eq)]
pub enum ExtraTarget<S = String> {
    Target { name: S, path: S },
    Ignored(S),
}

impl ExtraTarget {
    pub open spec fn view(&self) -> ExtraTarget<Seq<char>> {
        match *self {
            ExtraTarget::Target { name, path } => ExtraTarget::Target { name: name@, path: path@ },
            ExtraTarget::Ignored(pair) => ExtraTarget::Ignored(pair@),
        }
    }
}

/// A name and a path with a sign of equality between them.
pub open spec fn target_of(pair: Seq<char>) -> ExtraTarget<Seq<char>> {
    match split_once(pair, '=') {
        Some((name, path)) => if name.len() > 0 && path.len() > 0 {
            ExtraTarget::Target { name: trim(name), path: trim(path) }
        } else {
            ExtraTarget::Ignored(pair)
        },
        None => ExtraTarget::Ignored(pair),
    }
}

fn read_target(pair: &str) -> (r: ExtraTarget)
    ensures
        r@ == target_of(pair@),
{
    match split_text_once(pair, '=') {
        Some((name, path)) => {
            if !name.as_str().is_empty() && !path.as_str().is_empty() {
                ExtraTarget::Target { name: trim_text(name.as_str()), path: trim_text(path.as_str()) }
            } else {
                ExtraTarget::Ignored(pair.to_owned())
            }
        },
        None => ExtraTarget::Ignored(pair.to_owned()),
    }
}

/// Reads a list of further configurations, parted by commas.
pub fn extra_targets(list: &str) -> (r: Vec<ExtraTarget>)
    ensures
        r@.map_values(|t: ExtraTarget| t@) == filled_lines(split(list@, ',')).map_values(
            |pair: Seq<char>| target_of(pair),
        ),
{
    let pairs = nonempty_parts(list, ',');
    let ghost all = texts(pairs@);
    let mut out: Vec<ExtraTarget> = Vec::new();
    let mut i: usize = 0;
    while i < pairs.len()
        invariant
            i <= pairs@.len(),
            all == texts(pairs@),
            out@.len() == i,
            forall|j: int| 0 <= j < i ==> (#[trigger] out@[j])@ == target_of(all[j]),
        decreases pairs@.len() - i,
    {
        out.push(read_target(pairs[i].as_str()));
        i += 1;
    }
    assert(out@.map_values(|t: ExtraTarget| t@) =~= all.map_values(|pair: Seq<char>| target_of(pair)));
    out
}

/// A registration has failed when there were targets and none could be written.
pub fn registration_failed(written: usize, targets: usize) -> (r: bool)
    ensures
        r == (written == 0 && targets > 0),
{
    written == 0 && targets > 0
}

// ---------------------------------------------------------------------------
// Laws
// ---------------------------------------------------------------------------

proof fn lemma_entry_wf(bin: Seq<char>)
    ensures
        wf(entry_value(bin)),
{
    let text = Value::Str(
        "RSI — agent cognitif auto-améliorant (surface d'intelligence, substrat, méta-optimisation récursive sous garde-fous de stabilité)."@,
    );
    let a = empty_obj();
    let b = a.with("command"@, Value::Str(bin));
    let c = b.with("args"@, Value::Arr(Seq::empty()));
    let d = c.with("env"@, empty_obj());
    let e = d.with("description"@, text);
    lemma_bound(a, "command"@, Value::Str(bin));
    lemma_bound(b, "args"@, Value::Arr(Seq::empty()));
    lemma_bound(c, "env"@, empty_obj());
    lemma_bound(d, "description"@, text);
    lemma_bound(e, "transport"@, Value::Str("stdio"@));
}

/// The servers of a well-formed configuration are well-formed.
proof fn lemma_servers_wf(root: Value)
    requires
        wf(root),
        root is Obj,
    ensures
        wf(servers_of(root)),
        servers_of(root) is Obj,
{
    crate::json::lemma_lookup_wf(root->Obj_0, "mcpServers"@);
}

/// Registration puts the server in place and leaves everything else: the other servers
/// and the rest of the configuration.
pub proof fn law_registration_keeps_the_rest(root: Value, name: Seq<char>, bin: Seq<char>, other: Seq<char>, key: Seq<char>)
    requires
        wf(root),
        root is Obj,
        other != name,
        key != "mcpServers"@,
    ensures
        get(servers_of(with_server(root, name, bin)), name) == Some(entry_value(bin)),
        get(servers_of(with_server(root, name, bin)), other) == get(servers_of(root), other),
        get(with_server(root, name, bin), key) == get(root, key),
{
    lemma_servers_wf(root);
    lemma_entry_wf(bin);
    let servers = servers_of(root).with(name, entry_value(bin));
    lemma_bound(servers_of(root), name, entry_value(bin));
    lemma_bound(root, "mcpServers"@, servers);
}

/// Registration is idempotent: run again on the file that it wrote, it changes nothing.
pub proof fn law_registration_is_idempotent(root: Value, name: Seq<char>, bin: Seq<char>)
    requires
        wf(root),
        root is Obj,
    ensures
        merged(Some(file_text(with_server(root, name, bin))), name, bin) == Ok::<Value, MergeRefusal>(
            with_server(root, name, bin),
        ),
{
    lemma_servers_wf(root);
    lemma_entry_wf(bin);
    let entry = entry_value(bin);
    let servers = servers_of(root).with(name, entry);
    let out = with_server(root, name, bin);
    lemma_bound(servers_of(root), name, entry);
    lemma_bound(root, "mcpServers"@, servers);
    assert(all_space(seq!['\n']));
    law_pretty_reads_back(out, seq!['\n']);
    crate::json::lemma_set_member_twice(servers_of(root)->Obj_0, name, entry);
    crate::json::lemma_set_member_twice(root->Obj_0, "mcpServers"@, servers);
    lemma_file_text_is_not_blank(out);
}

proof fn lemma_file_text_is_not_blank(v: Value)
    requires
        wf(v),
        v is Obj,
    ensures
        trim(file_text(v)).len() > 0,
{
    let s = file_text(v);
    assert(s[0] == '{');
    crate::text::lemma_trim_keeps_start(s);
}

/// Each flag sets its own option alone, a call for help ends the reading, and other
/// arguments say nothing.
pub proof fn law_flags_set_their_options(o: Options<Seq<char>>, value: Seq<char>, rest: Seq<Seq<char>>)
    ensures
        options_after(o, seq!["--print"@] + rest) == options_after(Options { print_only: true, ..o }, rest),
        options_after(o, seq!["--name"@].push(value) + rest) == options_after(Options { server_name: value, ..o }, rest),
        options_after(o, seq!["--bin"@].push(value) + rest) == options_after(Options { bin_override: Some(value), ..o }, rest),
        options_after(o, seq!["-h"@] + rest) is None,
        options_after(o, seq!["--help"@] + rest) is None,
        value != "--print"@ && value != "--name"@ && value != "--bin"@ && value != "-h"@ && value != "--help"@
            ==> options_after(o, seq![value] + rest) == options_after(o, rest),
        options_after(o, Seq::empty()) == Some(o),
{
    reveal_strlit("--print");
    reveal_strlit("--name");
    reveal_strlit("--bin");
    reveal_strlit("-h");
    reveal_strlit("--help");
    assert("--print"@.len() == 7);
    assert("--name"@.len() == 6);
    assert("--bin"@.len() == 5);
    assert("-h"@.len() == 2);
    assert("--help"@.len() == 6);
    assert("--name"@[2] != "--help"@[2]);
    let a = seq!["--print"@] + rest;
    assert(a[0] == "--print"@ && a.skip(1) =~= rest);
    let b = seq!["--name"@].push(value) + rest;
    assert(b[0] == "--name"@ && b[1] == value && b.skip(2) =~= rest);
    let c = seq!["--bin"@].push(value) + rest;
    assert(c[0] == "--bin"@ && c[1] == value && c.skip(2) =~= rest);
    let d = seq!["-h"@] + rest;
    assert(d[0] == "-h"@);
    let e = seq!["--help"@] + rest;
    assert(e[0] == "--help"@);
    let f = seq![value] + rest;
    assert(f[0] == value && f.skip(1) =~= rest);
}

/// A file that is absent or blank becomes one with the server alone, one with an object
/// gets the server added, and any other is refused.
pub proof fn law_merging(text: Seq<char>, name: Seq<char>, bin: Seq<char>)
    ensures
        merged(None, name, bin) == Ok::<Value, MergeRefusal>(with_server(empty_obj(), name, bin)),
        trim(text).len() == 0 ==> merged(Some(text), name, bin) == merged(None, name, bin),
        trim(text).len() > 0 ==> (merged(Some(text), name, bin) is Ok <==> parse_text(text) is Some && parse_text(text)->0
            is Obj),
        trim(text).len() > 0 && parse_text(text) is None ==> merged(Some(text), name, bin) == Err::<Value, MergeRefusal>(
            MergeRefusal::NotJson,
        ),
{
}

} // verus!
