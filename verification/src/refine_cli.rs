//! The command line of refinement sessions that are kept in a file between calls.

use vstd::prelude::*;

use crate::cli::{flag_value, positional, positionals_from, value_after};
use crate::json::{empty_obj, text_array, Json, Value};
use crate::json_text::{optional, str_at};
use crate::text::{join, join_text, same_text, texts, trim, trim_text};

verus! {

pub const DEFAULT_STATE: &'static str = ".rsi-refine.json";

pub const SESSION_ID: &'static str = "cli";

/// The flags that are followed by a value.
pub open spec fn value_flags() -> Seq<Seq<char>> {
    seq!["--state"@, "--domain"@, "--target"@, "--n"@, "--lo"@, "--hi"@, "--seed"@]
}

fn value_flag_list() -> (r: Vec<String>)
    ensures
        texts(r@) == value_flags(),
{
    let mut out: Vec<String> = Vec::new();
    out.push("--state".to_owned());
    out.push("--domain".to_owned());
    out.push("--target".to_owned());
    out.push("--n".to_owned());
    out.push("--lo".to_owned());
    out.push("--hi".to_owned());
    out.push("--seed".to_owned());
    assert(texts(out@) =~= value_flags());
    out
}

/// The positional arguments behind the program and its command.
pub open spec fn candidates_of(args: Seq<Seq<char>>) -> Seq<Seq<char>> {
    if args.len() < 2 {
        Seq::empty()
    } else {
        positional(args.skip(2), value_flags())
    }
}

pub fn positionals(args: &[String]) -> (r: Vec<String>)
    ensures
        texts(r@) == candidates_of(texts(args@)),
{
    let flags = value_flag_list();
    positionals_from(args, 2, flags.as_slice())
}

/// What is asked of the program.
#[derive(Debug, Clone, Copy, PartialEq, Eq, Structural)]
pub enum RefineCommand {
    New,
    Show,
    Eval,
    Propose,
    Help,
}

pub open spec fn refine_command_of(name: Seq<char>) -> Option<RefineCommand> {
    if name == "new"@ {
        Some(RefineCommand::New)
    } else if name == "show"@ || name == "incumbent"@ {
        Some(RefineCommand::Show)
    } else if name == "eval"@ || name == "evaluate"@ {
        Some(RefineCommand::Eval)
    } else if name == "propose"@ {
        Some(RefineCommand::Propose)
    } else if name == "-h"@ || name == "--help"@ || name == "help"@ {
        Some(RefineCommand::Help)
    } else {
        None
    }
}

/// The command of the program; an unknown one is an error.
pub fn refine_command(name: &str) -> (r: Result<RefineCommand, String>)
    ensures
        match r {
            Ok(c) => refine_command_of(name@) == Some(c),
            Err(e) => refine_command_of(name@) is None && e@ == "commande inconnue : '"@ + name@ + "'"@,
        },
{
    if same_text(name, "new") {
        Ok(RefineCommand::New)
    } else if same_text(name, "show") || same_text(name, "incumbent") {
        Ok(RefineCommand::Show)
    } else if same_text(name, "eval") || same_text(name, "evaluate") {
        Ok(RefineCommand::Eval)
    } else if same_text(name, "propose") {
        Ok(RefineCommand::Propose)
    } else if same_text(name, "-h") || same_text(name, "--help") || same_text(name, "help") {
        Ok(RefineCommand::Help)
    } else {
        let mut message = "commande inconnue : '".to_owned();
        message.append(name);
        message.append("'");
        Err(message)
    }
}

/// The parameters that name the session of the command line.
pub open spec fn session_value() -> Value {
    empty_obj().with("id"@, Value::Str(SESSION_ID@))
}

pub fn id_params() -> (r: Json)
    ensures
        r@ == session_value(),
{
    let mut p = Json::obj();
    p.set("id", Json::text(SESSION_ID));
    p
}

/// The parameters with the text after a flag, where it is given.
pub open spec fn with_text(params: Value, args: Seq<Seq<char>>, flag: Seq<char>, key: Seq<char>) -> Value {
    match value_after(args, flag) {
        Some(v) => params.with(key, Value::Str(v)),
        None => params,
    }
}

/// The parameters with a number, where one was read.
pub open spec fn with_number(params: Value, key: Seq<char>, number: Option<Seq<char>>) -> Value {
    match number {
        Some(n) => params.with(key, Value::Num(n)),
        None => params,
    }
}

/// The numbers that were read from the flags of a new session.
pub struct RefineNumbers {
    pub n: Option<String>,
    pub lo: Option<String>,
    pub hi: Option<String>,
    pub seed: Option<String>,
}

pub open spec fn new_value(args: Seq<Seq<char>>, numbers: RefineNumbers) -> Value {
    let named = with_text(with_text(session_value(), args, "--domain"@, "domain"@), args, "--target"@, "target"@);
    let a = with_number(named, "n"@, optional(numbers.n));
    let b = with_number(a, "lo"@, optional(numbers.lo));
    let c = with_number(b, "hi"@, optional(numbers.hi));
    with_number(c, "seed"@, optional(numbers.seed))
}

fn set_number(params: &mut Json, key: &str, number: &Option<String>)
    ensures
        final(params)@ == with_number(old(params)@, key@, optional(*number)),
{
    match number {
        Some(n) => {
            params.set(key, Json::Num(n.clone()));
        },
        None => {},
    }
}

/// The parameters of a new session.
pub fn new_params(args: &[String], numbers: &RefineNumbers) -> (r: Json)
    ensures
        r@ == new_value(texts(args@), *numbers),
{
    let mut params = id_params();
    match flag_value(args, "--domain") {
        Some(d) => {
            params.set("domain", Json::Str(d));
        },
        None => {},
    }
    match flag_value(args, "--target") {
        Some(t) => {
            params.set("target", Json::Str(t));
        },
        None => {},
    }
    set_number(&mut params, "n", &numbers.n);
    set_number(&mut params, "lo", &numbers.lo);
    set_number(&mut params, "hi", &numbers.hi);
    set_number(&mut params, "seed", &numbers.seed);
    params
}

/// The parameters of an evaluation: the positional arguments as one candidate.
pub fn eval_params(args: &[String]) -> (r: Result<Json, String>)
    ensures
        match r {
            Ok(j) => trim(join(candidates_of(texts(args@)), " "@)).len() > 0 && j@ == session_value().with(
                "candidate"@,
                Value::Str(join(candidates_of(texts(args@)), " "@)),
            ),
            Err(e) => trim(join(candidates_of(texts(args@)), " "@)).len() == 0 && e@
                == "eval : fournir un candidat, p. ex. : rsi-refine eval \"x*x + 1\""@,
        },
{
    let parts = positionals(args);
    let candidate = join_text(parts.as_slice(), " ");
    if trim_text(candidate.as_str()).as_str().is_empty() {
        return Err("eval : fournir un candidat, p. ex. : rsi-refine eval \"x*x + 1\"".to_owned());
    }
    let mut p = id_params();
    p.set("candidate", Json::Str(candidate));
    Ok(p)
}

/// The parameters of a proposal: each positional argument is a candidate.
pub fn propose_params(args: &[String]) -> (r: Result<Json, String>)
    ensures
        match r {
            Ok(j) => candidates_of(texts(args@)).len() > 0 && j@ == session_value().with(
                "proposals"@,
                text_array(candidates_of(texts(args@))),
            ),
            Err(e) => candidates_of(texts(args@)).len() == 0 && e@ == "propose : fournir au moins un candidat"@,
        },
{
    let parts = positionals(args);
    assert(texts(parts@).len() == parts@.len());
    if parts.len() == 0 {
        return Err("propose : fournir au moins un candidat".to_owned());
    }
    let mut p = id_params();
    p.set("proposals", Json::text_array(parts.as_slice()));
    Ok(p)
}

/// The line that tells what became of a proposal: its status, with the reason, the error
/// or the candidate.
pub open spec fn result_line(item: Value) -> Seq<char> {
    let status = match str_at(item, "status"@) {
        Some(s) => s,
        None => "?"@,
    };
    let told = if crate::json::get(item, "reason"@) is Some {
        str_at(item, "reason"@)
    } else if crate::json::get(item, "error"@) is Some {
        str_at(item, "error"@)
    } else {
        str_at(item, "pretty"@)
    };
    "  ["@ + status + "] "@ + (match told {
        Some(t) => t,
        None => ""@,
    })
}

pub fn proposal_line(item: &Json) -> (r: String)
    ensures
        r@ == result_line(item@),
{
    let status: &str = match item.str_at("status") {
        Some(s) => s,
        None => "?",
    };
    let told: Option<&str> = if item.get("reason").is_some() {
        item.str_at("reason")
    } else if item.get("error").is_some() {
        item.str_at("error")
    } else {
        item.str_at("pretty")
    };
    let mut out = "  [".to_owned();
    out.append(status);
    out.append("] ");
    match told {
        Some(t) => {
            out.append(t);
        },
        None => {
            out.append("");
        },
    }
    out
}

} // verus!
