//! Indented JSON for files that people read, and its reading back.

use vstd::prelude::*;

use crate::json::{
    escaped, is_json_space, lemma_arr_view, lemma_obj_view, lemma_object_of_ascending, members, parse_items, parse_member,
    parse_members, parse_text, parse_value, print, quoted, skip_space, values, wf, Json, Members, Value,
};
use crate::json_round_trip::{ends_number, lemma_no_space, lemma_parse_string, lemma_parse_value, lemma_print_opens, opens_value};

verus! {

/// The line break before what is nested one level deeper.
pub open spec fn deeper(gap: Seq<char>) -> Seq<char> {
    gap + seq![' ', ' ']
}

/// The indented text of a value; `gap` is the line break with the indentation of its
/// level. Empty lists and objects stay on one line.
pub open spec fn pretty(v: Value, gap: Seq<char>) -> Seq<char>
    decreases v,
{
    match v {
        Value::Arr(items) => if items.len() == 0 {
            print(v)
        } else {
            seq!['['] + deeper(gap) + pretty(items[0], deeper(gap)) + pretty_items(items.drop_first(), gap)
        },
        Value::Obj(ms) => if ms.len() == 0 {
            print(v)
        } else {
            seq!['{'] + deeper(gap) + quoted(ms[0].0) + seq![':', ' '] + pretty(ms[0].1, deeper(gap)) + pretty_members(
                ms.drop_first(),
                gap,
            )
        },
        _ => print(v),
    }
}

/// The items after the first, each on a line of its own, and the closing bracket.
pub open spec fn pretty_items(items: Seq<Value>, gap: Seq<char>) -> Seq<char>
    decreases items,
{
    if items.len() == 0 {
        gap + seq![']']
    } else {
        seq![','] + deeper(gap) + pretty(items[0], deeper(gap)) + pretty_items(items.drop_first(), gap)
    }
}

/// The members after the first, each on a line of its own, and the closing brace.
pub open spec fn pretty_members(ms: Members, gap: Seq<char>) -> Seq<char>
    decreases ms,
{
    if ms.len() == 0 {
        gap + seq!['}']
    } else {
        seq![','] + deeper(gap) + quoted(ms[0].0) + seq![':', ' '] + pretty(ms[0].1, deeper(gap)) + pretty_members(
            ms.drop_first(),
            gap,
        )
    }
}

fn deeper_gap(gap: &str) -> (r: String)
    ensures
        r@ == deeper(gap@),
{
    let mut out = gap.to_owned();
    out.push(' ');
    out.push(' ');
    assert(out@ =~= deeper(gap@));
    out
}

fn write_pretty(out: &mut String, j: &Json, gap: &str)
    ensures
        final(out)@ == old(out)@ + pretty(j@, gap@),
    decreases j,
{
    match j {
        Json::Arr(items) => {
            proof {
                lemma_arr_view(*items);
            }
            if items.len() == 0 {
                out.append(j.to_string().as_str());
                return;
            }
            let ghost vs = values(items@);
            let inside = deeper_gap(gap);
            out.push('[');
            let ghost start = out@;
            let mut i: usize = 0;
            while i < items.len()
                invariant
                    i <= items@.len(),
                    items@.len() > 0,
                    vs == values(items@),
                    *j == Json::Arr(*items),
                    j@ == Value::Arr(vs),
                    inside@ == deeper(gap@),
                    i == 0 ==> out@ == start,
                    i > 0 ==> start + (deeper(gap@) + pretty(vs[0], deeper(gap@)) + pretty_items(
                        vs.drop_first(),
                        gap@,
                    )) == out@ + pretty_items(vs.skip(i as int), gap@),
                decreases items@.len() - i,
            {
                assert(decreases_to!(*j => j->Arr_0));
                assert(decreases_to!(*items => items@));
                assert(decreases_to!(items@ => items@[i as int]));
                let ghost before = out@;
                if i > 0 {
                    out.push(',');
                }
                out.append(inside.as_str());
                proof {
                    assert(vs[i as int] == items@[i as int]@);
                }
                write_pretty(out, &items[i], inside.as_str());
                proof {
                    let g = deeper(gap@);
                    let p = pretty(vs[i as int], deeper(gap@));
                    assert(vs.skip(i as int).drop_first() =~= vs.skip(i + 1));
                    assert(vs.skip(i as int)[0] == vs[i as int]);
                    let rest = pretty_items(vs.skip(i + 1), gap@);
                    if i == 0 {
                        assert(vs.drop_first() =~= vs.skip(1));
                        assert(start + (g + p + rest) =~= out@ + rest);
                    } else {
                        assert(before + (seq![','] + g + p + rest) =~= out@ + rest);
                    }
                }
                i += 1;
            }
            out.append(gap);
            out.push(']');
            proof {
                assert(vs.skip(i as int).len() == 0);
                let body = deeper(gap@) + pretty(vs[0], deeper(gap@)) + pretty_items(
                    vs.drop_first(),
                    gap@,
                );
                assert(out@ =~= start + body);
                assert(seq!['['] + body =~= pretty(j@, gap@));
                assert(out@ =~= old(out)@ + pretty(j@, gap@));
            }
        },
        Json::Obj(ms) => {
            proof {
                lemma_obj_view(*ms);
            }
            if ms.len() == 0 {
                out.append(j.to_string().as_str());
                return;
            }
            let ghost vs = members(ms@);
            let inside = deeper_gap(gap);
            out.push('{');
            let ghost start = out@;
            let mut i: usize = 0;
            while i < ms.len()
                invariant
                    i <= ms@.len(),
                    ms@.len() > 0,
                    vs == members(ms@),
                    *j == Json::Obj(*ms),
                    j@ == Value::Obj(vs),
                    inside@ == deeper(gap@),
                    i == 0 ==> out@ == start,
                    i > 0 ==> start + (deeper(gap@) + quoted(vs[0].0) + seq![':', ' '] + pretty(
                        vs[0].1,
                        deeper(gap@),
                    ) + pretty_members(vs.drop_first(), gap@)) == out@ + pretty_members(
                        vs.skip(i as int),
                        gap@,
                    ),
                decreases ms@.len() - i,
            {
                assert(decreases_to!(*j => j->Obj_0));
                assert(decreases_to!(*ms => ms@));
                assert(decreases_to!(ms@ => ms@[i as int]));
                assert(decreases_to!(ms@[i as int] => ms@[i as int].1));
                let ghost before = out@;
                if i > 0 {
                    out.push(',');
                }
                out.append(inside.as_str());
                out.append(Json::text(ms[i].0.as_str()).to_string().as_str());
                out.push(':');
                out.push(' ');
                proof {
                    assert(vs[i as int] == (ms@[i as int].0@, ms@[i as int].1@));
                }
                write_pretty(out, &ms[i].1, inside.as_str());
                proof {
                    let g = deeper(gap@);
                    let k = quoted(vs[i as int].0);
                    let p = pretty(vs[i as int].1, deeper(gap@));
                    assert(vs.skip(i as int).drop_first() =~= vs.skip(i + 1));
                    assert(vs.skip(i as int)[0] == vs[i as int]);
                    let rest = pretty_members(vs.skip(i + 1), gap@);
                    if i == 0 {
                        assert(vs.drop_first() =~= vs.skip(1));
                        assert(start + (g + k + seq![':', ' '] + p + rest) =~= out@ + rest);
                    } else {
                        assert(before + (seq![','] + g + k + seq![':', ' '] + p + rest) =~= out@ + rest);
                    }
                }
                i += 1;
            }
            out.append(gap);
            out.push('}');
            proof {
                assert(vs.skip(i as int).len() == 0);
                let body = deeper(gap@) + quoted(vs[0].0) + seq![':', ' '] + pretty(vs[0].1, deeper(gap@))
                    + pretty_members(vs.drop_first(), gap@);
                assert(out@ =~= start + body);
                assert(seq!['{'] + body =~= pretty(j@, gap@));
                assert(out@ =~= old(out)@ + pretty(j@, gap@));
            }
        },
        other => {
            out.append(other.to_string().as_str());
        },
    }
}

/// The indented text of a value.
pub fn pretty_print(v: &Json) -> (r: String)
    ensures
        r@ == pretty(v@, seq!['\n']),
{
    let mut out = String::new();
    proof {
        reveal_strlit("\n");
        assert("\n"@ =~= seq!['\n']);
    }
    write_pretty(&mut out, v, "\n");
    assert(Seq::<char>::empty() + pretty(v@, seq!['\n']) =~= pretty(v@, seq!['\n']));
    out
}

// ---------------------------------------------------------------------------
// Reading back
// ---------------------------------------------------------------------------

/// Text that holds nothing but spaces.
pub open spec fn all_space(s: Seq<char>) -> bool {
    forall|i: int| 0 <= i < s.len() ==> is_json_space(#[trigger] s[i])
}

proof fn lemma_skip_gap(gap: Seq<char>, s: Seq<char>)
    requires
        all_space(gap),
        s.len() > 0 ==> !is_json_space(s[0]),
    ensures
        skip_space(gap + s) == s,
    decreases gap.len(),
{
    let whole = gap + s;
    if gap.len() == 0 {
        assert(whole =~= s);
    } else {
        let rest = gap.drop_first();
        assert forall|i: int| 0 <= i < rest.len() implies is_json_space(#[trigger] rest[i]) by {
            assert(rest[i] == gap[i + 1]);
        }
        assert(whole.drop_first() =~= rest + s);
        assert(is_json_space(gap[0]));
        lemma_skip_gap(rest, s);
    }
}

proof fn lemma_deeper(gap: Seq<char>)
    requires
        all_space(gap),
    ensures
        all_space(deeper(gap)),
{
    let d = deeper(gap);
    assert forall|i: int| 0 <= i < d.len() implies is_json_space(#[trigger] d[i]) by {
        if i < gap.len() {
            assert(d[i] == gap[i]);
        }
    }
}

proof fn lemma_pretty_opens(v: Value, gap: Seq<char>)
    requires
        wf(v),
    ensures
        opens_value(pretty(v, gap)),
{
    lemma_print_opens(v);
}

proof fn lemma_read_value(v: Value, gap: Seq<char>, rest: Seq<char>)
    requires
        wf(v),
        all_space(gap),
        gap.len() > 0,
        ends_number(rest),
    ensures
        parse_value(pretty(v, gap) + rest) == Some((v, rest)),
    decreases v, 1int,
{
    let s = pretty(v, gap) + rest;
    let g = deeper(gap);
    lemma_deeper(gap);
    match v {
        Value::Arr(items) => {
            if items.len() == 0 {
                lemma_parse_value(v, rest);
            } else {
                assert forall|i: int| 0 <= i < items.len() implies wf(#[trigger] items[i]) by {}
                lemma_read_items(items, gap, rest);
                let t = pretty(items[0], g) + pretty_items(items.drop_first(), gap) + rest;
                assert(s[0] == '[');
                assert(s.skip(1) =~= g + t);
                lemma_pretty_opens(items[0], g);
                assert(t[0] == pretty(items[0], g)[0]);
                lemma_skip_gap(g, t);
            }
        },
        Value::Obj(ms) => {
            if ms.len() == 0 {
                lemma_parse_value(v, rest);
            } else {
                assert forall|i: int| 0 <= i < ms.len() implies wf((#[trigger] ms[i]).1) by {}
                lemma_read_members(ms, gap, rest);
                lemma_object_of_ascending(ms);
                let t = quoted(ms[0].0) + seq![':', ' '] + pretty(ms[0].1, g) + pretty_members(ms.drop_first(), gap) + rest;
                assert(s[0] == '{');
                assert(s.skip(1) =~= g + t);
                assert(t[0] == '"');
                lemma_skip_gap(g, t);
            }
        },
        _ => {
            lemma_parse_value(v, rest);
        },
    }
}

proof fn lemma_read_items(items: Seq<Value>, gap: Seq<char>, rest: Seq<char>)
    requires
        items.len() > 0,
        all_space(gap),
        gap.len() > 0,
        forall|i: int| 0 <= i < items.len() ==> wf(#[trigger] items[i]),
    ensures
        parse_items(pretty(items[0], deeper(gap)) + pretty_items(items.drop_first(), gap) + rest) == Some((items, rest)),
    decreases items, 0int,
{
    let g = deeper(gap);
    lemma_deeper(gap);
    let first = items[0];
    let tail = items.drop_first();
    let after = pretty_items(tail, gap) + rest;
    let s = pretty(first, g) + pretty_items(tail, gap) + rest;
    assert(s =~= pretty(first, g) + after);
    lemma_pretty_opens(first, g);
    if tail.len() == 0 {
        let close = seq![']'] + rest;
        assert(after =~= gap + close);
        assert(is_json_space(gap[0]));
        assert(after[0] == gap[0]);
        lemma_read_value(first, g, after);
        lemma_skip_gap(gap, close);
        assert(close.skip(1) =~= rest);
        assert(items =~= seq![first]);
    } else {
        assert forall|i: int| 0 <= i < tail.len() implies wf(#[trigger] tail[i]) by {
            assert(tail[i] == items[i + 1]);
        }
        let u = pretty(tail[0], g) + pretty_items(tail.drop_first(), gap) + rest;
        assert(after =~= seq![','] + (g + u));
        lemma_read_value(first, g, after);
        lemma_no_space(after);
        assert(after.skip(1) =~= g + u);
        lemma_pretty_opens(tail[0], g);
        assert(u[0] == pretty(tail[0], g)[0]);
        lemma_skip_gap(g, u);
        lemma_read_items(tail, gap, rest);
        assert(items =~= seq![first] + tail);
    }
}

/// A member reads back once its value does.
proof fn lemma_read_member(key: Seq<char>, v: Value, g: Seq<char>, after: Seq<char>)
    requires
        wf(v),
        parse_value(pretty(v, g) + after) == Some((v, after)),
    ensures
        parse_member(quoted(key) + seq![':', ' '] + pretty(v, g) + after) == Some(((key, v), after)),
{
    let s = quoted(key) + seq![':', ' '] + pretty(v, g) + after;
    let value_part = pretty(v, g) + after;
    let blank = seq![' '];
    let colon_part = seq![':'] + (blank + value_part);
    assert(s[0] == '"');
    assert(s.skip(1) =~= escaped(key) + (seq!['"'] + colon_part));
    lemma_parse_string(key, colon_part);
    lemma_no_space(colon_part);
    assert(colon_part.skip(1) =~= blank + value_part);
    lemma_pretty_opens(v, g);
    assert(value_part[0] == pretty(v, g)[0]);
    lemma_skip_gap(blank, value_part);
}

/// The last member, and the brace behind it.
proof fn lemma_last_member(s: Seq<char>, first: (Seq<char>, Value), gap: Seq<char>, rest: Seq<char>)
    requires
        all_space(gap),
        parse_member(s) == Some((first, gap + (seq!['}'] + rest))),
        gap.len() + 1 + rest.len() < s.len(),
    ensures
        parse_members(s) == Some((seq![first], rest)),
{
    let close = seq!['}'] + rest;
    lemma_skip_gap(gap, close);
    assert(close.skip(1) =~= rest);
}

/// A member with others behind it.
proof fn lemma_next_member(s: Seq<char>, first: (Seq<char>, Value), g: Seq<char>, u: Seq<char>, tail: Members, rest: Seq<char>)
    requires
        all_space(g),
        u.len() > 0,
        u[0] == '"',
        parse_member(s) == Some((first, seq![','] + (g + u))),
        parse_members(u) == Some((tail, rest)),
        1 + g.len() + u.len() < s.len(),
    ensures
        parse_members(s) == Some((seq![first] + tail, rest)),
{
    let after = seq![','] + (g + u);
    lemma_no_space(after);
    assert(after.skip(1) =~= g + u);
    lemma_skip_gap(g, u);
}

#[verifier::spinoff_prover]
proof fn lemma_read_members(ms: Members, gap: Seq<char>, rest: Seq<char>)
    requires
        ms.len() > 0,
        all_space(gap),
        gap.len() > 0,
        forall|i: int| 0 <= i < ms.len() ==> wf((#[trigger] ms[i]).1),
    ensures
        parse_members(
            quoted(ms[0].0) + seq![':', ' '] + pretty(ms[0].1, deeper(gap)) + pretty_members(ms.drop_first(), gap) + rest,
        ) == Some((ms, rest)),
    decreases ms, 0int,
{
    let g = deeper(gap);
    lemma_deeper(gap);
    let first = ms[0];
    let tail = ms.drop_first();
    let after = pretty_members(tail, gap) + rest;
    let s = quoted(first.0) + seq![':', ' '] + pretty(first.1, g) + pretty_members(tail, gap) + rest;
    assert(decreases_to!(ms => ms[0]));
    assert(decreases_to!(ms[0] => ms[0].1));
    assert(s =~= quoted(first.0) + seq![':', ' '] + pretty(first.1, g) + after);
    if tail.len() == 0 {
        assert(after =~= gap + (seq!['}'] + rest));
        assert(is_json_space(gap[0]));
        assert(after[0] == gap[0]);
        lemma_read_value(first.1, g, after);
        lemma_read_member(first.0, first.1, g, after);
        lemma_last_member(s, first, gap, rest);
        assert(ms =~= seq![first]);
    } else {
        assert forall|i: int| 0 <= i < tail.len() implies wf((#[trigger] tail[i]).1) by {
            assert(tail[i] == ms[i + 1]);
        }
        let u = quoted(tail[0].0) + seq![':', ' '] + pretty(tail[0].1, g) + pretty_members(tail.drop_first(), gap) + rest;
        assert(after =~= seq![','] + (g + u));
        lemma_read_value(first.1, g, after);
        lemma_read_member(first.0, first.1, g, after);
        lemma_read_members(tail, gap, rest);
        lemma_next_member(s, first, g, u, tail, rest);
        assert(ms =~= seq![first] + tail);
    }
}

/// The indented text of a well-formed value, with or without a line break at its end,
/// reads back as the value.
pub proof fn law_pretty_reads_back(v: Value, ending: Seq<char>)
    requires
        wf(v),
        all_space(ending),
    ensures
        parse_text(pretty(v, seq!['\n']) + ending) == Some(v),
{
    let gap = seq!['\n'];
    let s = pretty(v, gap) + ending;
    lemma_pretty_opens(v, gap);
    assert(s[0] == pretty(v, gap)[0]);
    lemma_no_space(s);
    if ending.len() > 0 {
        assert(is_json_space(ending[0]));
    }
    lemma_read_value(v, gap, ending);
    lemma_skip_gap(ending, Seq::empty());
    assert(ending + Seq::<char>::empty() =~= ending);
}

} // verus!
