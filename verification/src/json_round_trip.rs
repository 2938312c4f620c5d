//! Parsing inverts printing.

use vstd::prelude::*;

use crate::json::{
    digit_run, escape_char, escaped, hex4, hex_value, is_exponent, is_fraction, is_json_space, is_number, is_number_char,
    lemma_object_of_ascending, number_run, parse_items, parse_member, parse_members, parse_string, parse_text, parse_value, print,
    print_items, print_members, quoted, skip_space, unescape, wf, Members, Value,
};
use crate::json_number::lemma_plain_literal;
use crate::json_text::{as_u64, digits_value};
use crate::text::{decimal, digit_char, hex_char, is_digit, is_hex_digit};

verus! {

proof fn lemma_hex_digit_value(d: u8)
    requires
        d < 16,
    ensures
        is_hex_digit(hex_char(d)),
        hex_value(hex_char(d)) == d,
{
}

/// Undoing the escape of one character gives the character back.
proof fn lemma_unescape(c: char, tail: Seq<char>)
    requires
        escape_char(c)[0] == '\\',
    ensures
        unescape((escape_char(c) + tail).skip(1)) == Some((c, tail)),
{
    reveal(unescape);
    let e = escape_char(c);
    let s = (e + tail).skip(1);
    if c == '"' || c == '\\' || c == '\n' || c == '\r' || c == '\t' {
        assert(e.len() == 2);
        assert(s[0] == e[1]);
        assert(s.skip(1) =~= tail);
    } else {
        let n = c as u32;
        assert(n < 0x20);
        let hi = (n / 16) as u8;
        let lo = (n % 16) as u8;
        assert(e.len() == 6);
        assert(s[0] == 'u');
        let h = s.skip(1);
        assert(h[0] == '0' && h[1] == '0' && h[2] == hex_char(hi) && h[3] == hex_char(lo));
        lemma_hex_digit_value(hi);
        lemma_hex_digit_value(lo);
        assert(hex4(h) == Some(n));
        assert(n as char == c);
        assert(s.skip(5) =~= tail);
    }
}

proof fn lemma_parse_escaped_char(c: char, inner: Seq<char>)
    requires
        parse_string(inner) is Some,
    ensures
        parse_string(escape_char(c) + inner) == (match parse_string(inner) {
            Some((text, end)) => Some((seq![c] + text, end)),
            None => None,
        }),
{
    let e = escape_char(c);
    let whole = e + inner;
    assert(whole[0] == e[0]);
    assert(whole.len() == e.len() + inner.len());
    if e[0] == '\\' {
        lemma_unescape(c, inner);
        assert(e.len() >= 2);
    } else {
        assert(e =~= seq![c]);
        assert(whole.skip(1) =~= inner);
    }
}

/// A printed string reads back as its contents.
pub proof fn lemma_parse_string(s: Seq<char>, rest: Seq<char>)
    ensures
        parse_string(escaped(s) + (seq!['"'] + rest)) == Some((s, rest)),
    decreases s.len(),
{
    let tail = seq!['"'] + rest;
    if s.len() == 0 {
        assert(escaped(s) + tail =~= tail);
        assert(tail.skip(1) =~= rest);
        assert(s =~= Seq::empty());
    } else {
        let c = s[0];
        let t = s.drop_first();
        lemma_parse_string(t, rest);
        let e = escape_char(c);
        let inner = escaped(t) + tail;
        let whole = escaped(s) + tail;
        assert(whole =~= e + inner);
        assert(s =~= seq![c] + t);
        lemma_parse_escaped_char(c, inner);
    }
}

/// A text that does not begin with a space is not shortened.
pub proof fn lemma_no_space(s: Seq<char>)
    requires
        s.len() > 0 ==> !is_json_space(s[0]),
    ensures
        skip_space(s) == s,
{
}

proof fn lemma_digit_run_digits(s: Seq<char>)
    ensures
        digit_run(s) <= s.len(),
        forall|i: int| 0 <= i < digit_run(s) ==> is_digit(#[trigger] s[i]),
    decreases s.len(),
{
    if s.len() > 0 && is_digit(s[0]) {
        let t = s.drop_first();
        lemma_digit_run_digits(t);
        assert forall|i: int| 0 <= i < digit_run(s) implies is_digit(#[trigger] s[i]) by {
            if i > 0 {
                assert(s[i] == t[i - 1]);
            }
        }
    }
}

proof fn lemma_exponent_chars(s: Seq<char>)
    requires
        is_exponent(s),
    ensures
        forall|i: int| 0 <= i < s.len() ==> is_number_char(#[trigger] s[i]),
{
    if s.len() > 0 {
        let q = s.skip(1);
        let signed = q.len() > 0 && (q[0] == '+' || q[0] == '-');
        let d = if signed {
            q.skip(1)
        } else {
            q
        };
        lemma_digit_run_digits(d);
        assert forall|i: int| 0 <= i < s.len() implies is_number_char(#[trigger] s[i]) by {
            if signed {
                if i == 1 {
                    assert(s[1] == q[0]);
                } else if i > 1 {
                    assert(s[i] == d[i - 2]);
                }
            } else if i > 0 {
                assert(s[i] == d[i - 1]);
            }
        }
    }
}

proof fn lemma_fraction_chars(s: Seq<char>)
    requires
        is_fraction(s),
    ensures
        forall|i: int| 0 <= i < s.len() ==> is_number_char(#[trigger] s[i]),
{
    if s.len() > 0 && s[0] == '.' {
        let q = s.skip(1);
        let d = digit_run(q) as int;
        lemma_digit_run_digits(q);
        let e = s.skip(1 + d);
        lemma_exponent_chars(e);
        assert forall|i: int| 0 <= i < s.len() implies is_number_char(#[trigger] s[i]) by {
            if i > 0 && i <= d {
                assert(s[i] == q[i - 1]);
            } else if i > d {
                assert(s[i] == e[i - 1 - d]);
            }
        }
    } else {
        lemma_exponent_chars(s);
    }
}

/// A number literal holds number characters only, and begins with a digit or a minus sign.
pub proof fn lemma_number_chars(s: Seq<char>)
    requires
        is_number(s),
    ensures
        s.len() > 0,
        is_digit(s[0]) || s[0] == '-',
        forall|i: int| 0 <= i < s.len() ==> is_number_char(#[trigger] s[i]),
{
    let negative = s.len() > 0 && s[0] == '-';
    let t = if negative {
        s.skip(1)
    } else {
        s
    };
    let d = digit_run(t) as int;
    lemma_digit_run_digits(t);
    let f = t.skip(d);
    lemma_fraction_chars(f);
    let shift = if negative {
        1int
    } else {
        0int
    };
    assert(is_digit(t[0]));
    assert forall|i: int| 0 <= i < s.len() implies is_number_char(#[trigger] s[i]) by {
        if i >= shift {
            assert(s[i] == t[i - shift]);
            if i - shift >= d {
                assert(s[i] == f[i - shift - d]);
            }
        }
    }
}

proof fn lemma_number_run(n: Seq<char>, rest: Seq<char>)
    requires
        forall|i: int| 0 <= i < n.len() ==> is_number_char(#[trigger] n[i]),
        rest.len() > 0 ==> !is_number_char(rest[0]),
    ensures
        number_run(n + rest) == n.len(),
    decreases n.len(),
{
    if n.len() == 0 {
        assert(n + rest =~= rest);
    } else {
        let t = n.drop_first();
        assert forall|i: int| 0 <= i < t.len() implies is_number_char(#[trigger] t[i]) by {
            assert(t[i] == n[i + 1]);
        }
        lemma_number_run(t, rest);
        assert((n + rest).drop_first() =~= t + rest);
        assert(is_number_char(n[0]));
    }
}

/// What begins a printed value: never a space, a comma, a colon or a closing bracket.
pub open spec fn opens_value(s: Seq<char>) -> bool {
    s.len() > 0 && !is_json_space(s[0]) && s[0] != ']' && s[0] != '}'
}

pub proof fn lemma_print_opens(v: Value)
    requires
        wf(v),
    ensures
        opens_value(print(v)),
{
    match v {
        Value::Num(n) => {
            lemma_number_chars(n);
        },
        _ => {},
    }
}

/// Text that cannot belong to a number literal before it.
pub open spec fn ends_number(rest: Seq<char>) -> bool {
    rest.len() > 0 ==> !is_number_char(rest[0])
}

/// A printed value, followed by any text that cannot extend it, reads back as
/// the value and leaves that text.
pub proof fn lemma_parse_value(v: Value, rest: Seq<char>)
    requires
        wf(v),
        ends_number(rest),
    ensures
        parse_value(print(v) + rest) == Some((v, rest)),
    decreases v, 1int,
{
    let s = print(v) + rest;
    match v {
        Value::Null => {
            assert(s.take(4) =~= crate::json::null_text());
            assert(s.skip(4) =~= rest);
        },
        Value::Bool(b) => {
            if b {
                assert(s.take(4) =~= crate::json::true_text());
                assert(s.skip(4) =~= rest);
            } else {
                assert(s.take(5) =~= crate::json::false_text());
                assert(s.skip(5) =~= rest);
            }
        },
        Value::Num(n) => {
            lemma_number_chars(n);
            lemma_number_run(n, rest);
            assert(s[0] == n[0]);
            assert(s.take(n.len() as int) =~= n);
            assert(s.skip(n.len() as int) =~= rest);
        },
        Value::Str(text) => {
            lemma_parse_string(text, rest);
            assert(s[0] == '"');
            assert(s.skip(1) =~= escaped(text) + (seq!['"'] + rest));
        },
        Value::Arr(items) => {
            if items.len() == 0 {
                assert(s[0] == '[');
                assert(s.skip(1)[0] == ']');
                lemma_no_space(s.skip(1));
                assert(s.skip(1).skip(1) =~= rest);
                assert(items =~= Seq::empty());
            } else {
                let first = items[0];
                let tail = items.drop_first();
                assert forall|i: int| 0 <= i < items.len() implies wf(#[trigger] items[i]) by {}
                lemma_parse_items(items, rest);
                let t = print(first) + print_items(tail) + rest;
                assert(s[0] == '[');
                assert(s.skip(1) =~= t);
                lemma_print_opens(first);
                assert(t[0] == print(first)[0]);
                lemma_no_space(t);
            }
        },
        Value::Obj(ms) => {
            if ms.len() == 0 {
                assert(s[0] == '{');
                assert(s.skip(1)[0] == '}');
                lemma_no_space(s.skip(1));
                assert(s.skip(1).skip(1) =~= rest);
                assert(ms =~= Seq::empty());
            } else {
                assert forall|i: int| 0 <= i < ms.len() implies wf((#[trigger] ms[i]).1) by {}
                lemma_parse_members(ms, rest);
                lemma_object_of_ascending(ms);
                let t = quoted(ms[0].0) + seq![':'] + print(ms[0].1) + print_members(ms.drop_first())
                    + rest;
                assert(s[0] == '{');
                assert(s.skip(1) =~= t);
                assert(t[0] == '"');
                lemma_no_space(t);
            }
        },
    }
}

proof fn lemma_parse_items(items: Seq<Value>, rest: Seq<char>)
    requires
        items.len() > 0,
        forall|i: int| 0 <= i < items.len() ==> wf(#[trigger] items[i]),
    ensures
        parse_items(print(items[0]) + print_items(items.drop_first()) + rest) == Some((items, rest)),
    decreases items, 0int,
{
    let first = items[0];
    let tail = items.drop_first();
    let after = print_items(tail) + rest;
    let s = print(first) + print_items(tail) + rest;
    assert(s =~= print(first) + after);
    lemma_print_opens(first);
    if tail.len() == 0 {
        assert(after =~= seq![']'] + rest);
        lemma_parse_value(first, after);
        lemma_no_space(after);
        assert(after.skip(1) =~= rest);
        assert(items =~= seq![first]);
    } else {
        assert forall|i: int| 0 <= i < tail.len() implies wf(#[trigger] tail[i]) by {
            assert(tail[i] == items[i + 1]);
        }
        let u = print(tail[0]) + print_items(tail.drop_first()) + rest;
        assert(after =~= seq![','] + u);
        lemma_parse_value(first, after);
        lemma_no_space(after);
        assert(after.skip(1) =~= u);
        lemma_print_opens(tail[0]);
        assert(u[0] == print(tail[0])[0]);
        lemma_no_space(u);
        lemma_parse_items(tail, rest);
        assert(items =~= seq![first] + tail);
    }
}

proof fn lemma_parse_members(ms: Members, rest: Seq<char>)
    requires
        ms.len() > 0,
        forall|i: int| 0 <= i < ms.len() ==> wf((#[trigger] ms[i]).1),
    ensures
        parse_members(
            quoted(ms[0].0) + seq![':'] + print(ms[0].1) + print_members(ms.drop_first()) + rest,
        ) == Some((ms, rest)),
    decreases ms, 0int,
{
    let first = ms[0];
    let tail = ms.drop_first();
    let after = print_members(tail) + rest;
    let s = quoted(first.0) + seq![':'] + print(first.1) + print_members(tail) + rest;
    assert(decreases_to!(ms => ms[0]));
    assert(decreases_to!(ms[0] => ms[0].1));
    let value_part = print(first.1) + after;
    let colon_part = seq![':'] + value_part;
    assert(s[0] == '"');
    assert(s.skip(1) =~= escaped(first.0) + (seq!['"'] + colon_part));
    lemma_parse_string(first.0, colon_part);
    lemma_no_space(colon_part);
    assert(colon_part.skip(1) =~= value_part);
    lemma_print_opens(first.1);
    assert(value_part[0] == print(first.1)[0]);
    lemma_no_space(value_part);
    if tail.len() == 0 {
        assert(after =~= seq!['}'] + rest);
        lemma_parse_value(first.1, after);
        assert(parse_member(s) == Some((first, after)));
        lemma_no_space(after);
        assert(after.skip(1) =~= rest);
        assert(ms =~= seq![first]);
    } else {
        assert forall|i: int| 0 <= i < tail.len() implies wf((#[trigger] tail[i]).1) by {
            assert(tail[i] == ms[i + 1]);
        }
        let u = quoted(tail[0].0) + seq![':'] + print(tail[0].1) + print_members(tail.drop_first())
            + rest;
        assert(after =~= seq![','] + u);
        lemma_parse_value(first.1, after);
        assert(parse_member(s) == Some((first, after)));
        lemma_no_space(after);
        assert(after.skip(1) =~= u);
        assert(u[0] == '"');
        lemma_no_space(u);
        lemma_parse_members(tail, rest);
        assert(ms =~= seq![first] + tail);
    }
}

/// Parsing the canonical text of a well-formed value gives the value back.
pub proof fn law_parse_inverts_print(v: Value)
    requires
        wf(v),
    ensures
        parse_text(print(v)) == Some(v),
{
    lemma_print_opens(v);
    lemma_no_space(print(v));
    lemma_parse_value(v, Seq::empty());
    assert(print(v) + Seq::<char>::empty() =~= print(v));
}

/// Different well-formed values have different canonical texts.
pub proof fn law_print_is_injective(v: Value, w: Value)
    requires
        wf(v),
        wf(w),
        print(v) == print(w),
    ensures
        v == w,
{
    law_parse_inverts_print(v);
    law_parse_inverts_print(w);
}

/// The decimal numeral of a number is a number literal and spells the number.
pub proof fn lemma_decimal(n: nat)
    ensures
        is_number(decimal(n)),
        decimal(n).len() > 0,
        digit_run(decimal(n)) == decimal(n).len(),
        digits_value(decimal(n)) == n,
        n > 0 ==> decimal(n)[0] != '0',
        forall|i: int| 0 <= i < decimal(n).len() ==> is_digit(#[trigger] decimal(n)[i]),
    decreases n,
{
    let s = decimal(n);
    let last = (n % 10) as nat;
    assert(digit_char(last) as u32 == 48 + last);
    assert(s.last() == digit_char(last));
    if n >= 10 {
        let front = decimal(n / 10);
        lemma_decimal(n / 10);
        assert(s.drop_last() =~= front);
        assert(s[0] == front[0]);
        assert forall|i: int| 0 <= i < s.len() implies is_digit(#[trigger] s[i]) by {
            if i < front.len() {
                assert(s[i] == front[i]);
            }
        }
        assert(digits_value(s) == 10 * (n / 10) + last);
    } else {
        assert(s.drop_last() =~= Seq::empty());
        assert(digits_value(s.drop_last()) == 0);
        assert(digits_value(s) == last);
    }
    lemma_all_digits_run(s);
    assert(s.skip(s.len() as int).len() == 0);
    assert(is_digit(s[0]));
}

proof fn lemma_all_digits_run(s: Seq<char>)
    requires
        forall|i: int| 0 <= i < s.len() ==> is_digit(#[trigger] s[i]),
    ensures
        digit_run(s) == s.len(),
    decreases s.len(),
{
    if s.len() > 0 {
        let t = s.drop_first();
        assert forall|i: int| 0 <= i < t.len() implies is_digit(#[trigger] t[i]) by {
            assert(t[i] == s[i + 1]);
        }
        lemma_all_digits_run(t);
    }
}

/// A number that fits 64 bits is read back from its numeral.
pub proof fn law_number_reads_back(n: u64)
    ensures
        as_u64(Value::Num(decimal(n as nat))) == Some(n),
        wf(Value::Num(decimal(n as nat))),
{
    lemma_decimal(n as nat);
    lemma_plain_literal(decimal(n as nat));
}

} // verus!
