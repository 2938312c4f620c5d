//! Printing and parsing of JSON values.

use vstd::prelude::*;
use vstd::utf8::char_u32_cast;

use crate::json::{
    digit_run, escape_char, escaped, false_text, get, hex4, hex_value, is_exponent, is_fraction, is_number, is_number_char,
    lemma_arr_view, lemma_obj_view, lookup, members, null_text, number_run, obj, parse_items, parse_member, parse_members,
    parse_string, parse_text, parse_value, print, print_items, print_members, quoted, skip_space, true_text, unescape, values, Json,
    Members, Value,
};
use crate::json_number::{whole_number, whole_value};
use crate::text::{char_is_digit, char_is_hex_digit, chars_of, hex_digit, is_hex_digit, same_text, string_of};

verus! {

// ---------------------------------------------------------------------------
// Access
// ---------------------------------------------------------------------------

/// The decimal value of a run of digits.
pub open spec fn digits_value(s: Seq<char>) -> nat
    decreases s.len(),
{
    if s.len() == 0 {
        0
    } else {
        (10 * digits_value(s.drop_last()) + (s.last() as u32 - '0' as u32)) as nat
    }
}

/// A whole number that fits 64 bits, when the value is one.
pub open spec fn as_u64(v: Value) -> Option<u64> {
    match v {
        Value::Num(n) => match whole_value(n) {
            Some(x) => if x <= u64::MAX {
                Some(x as u64)
            } else {
                None
            },
            None => None,
        },
        _ => None,
    }
}

pub open spec fn as_str(v: Value) -> Option<Seq<char>> {
    match v {
        Value::Str(s) => Some(s),
        _ => None,
    }
}

pub open spec fn as_bool(v: Value) -> Option<bool> {
    match v {
        Value::Bool(b) => Some(b),
        _ => None,
    }
}

pub open spec fn as_array(v: Value) -> Option<Seq<Value>> {
    match v {
        Value::Arr(items) => Some(items),
        _ => None,
    }
}

impl Json {
    /// The value that an object binds to a key.
    pub fn get(&self, key: &str) -> (r: Option<&Json>)
        ensures
            match r {
                Some(j) => get(self@, key@) == Some(j@),
                None => get(self@, key@) is None,
            },
    {
        match self {
            Json::Obj(ms) => {
                proof {
                    lemma_obj_view(*ms);
                }
                let mut i: usize = 0;
                assert(members(ms@).skip(0) =~= members(ms@));
                while i < ms.len()
                    invariant
                        i <= ms@.len(),
                        lookup(members(ms@), key@) == lookup(members(ms@).skip(i as int), key@),
                        self@ == Value::Obj(members(ms@)),
                    decreases ms@.len() - i,
                {
                    assert(members(ms@).skip(i as int)[0] == (ms@[i as int].0@, ms@[i as int].1@));
                    if same_text(ms[i].0.as_str(), key) {
                        return Some(&ms[i].1);
                    }
                    assert(members(ms@).skip(i as int).drop_first() =~= members(ms@).skip(i + 1));
                    i += 1;
                }
                None
            },
            _ => None,
        }
    }

    pub fn as_str(&self) -> (r: Option<&str>)
        ensures
            match r {
                Some(s) => as_str(self@) == Some(s@),
                None => as_str(self@) is None,
            },
    {
        match self {
            Json::Str(s) => Some(s.as_str()),
            _ => None,
        }
    }

    pub fn as_bool(&self) -> (r: Option<bool>)
        ensures
            r == as_bool(self@),
    {
        match self {
            Json::Bool(b) => Some(*b),
            _ => None,
        }
    }

    pub fn as_array(&self) -> (r: Option<&Vec<Json>>)
        ensures
            match r {
                Some(items) => as_array(self@) == Some(values(items@)),
                None => as_array(self@) is None,
            },
    {
        match self {
            Json::Arr(items) => {
                proof {
                    lemma_arr_view(*items);
                }
                Some(items)
            },
            _ => None,
        }
    }

    pub fn as_u64(&self) -> (r: Option<u64>)
        ensures
            r == as_u64(self@),
    {
        match self {
            Json::Num(n) => whole_number(n.as_str()),
            _ => None,
        }
    }
}

/// The view of an optional text.
pub open spec fn optional(t: Option<String>) -> Option<Seq<char>> {
    match t {
        Some(s) => Some(s@),
        None => None,
    }
}

/// The whole number that an object binds to a key.
pub open spec fn u64_at(v: Value, key: Seq<char>) -> Option<u64> {
    match get(v, key) {
        Some(x) => as_u64(x),
        None => None,
    }
}

/// The literal of the number that an object binds to a key.
pub open spec fn number_at(v: Value, key: Seq<char>) -> Option<Seq<char>> {
    match get(v, key) {
        Some(Value::Num(n)) => Some(n),
        _ => None,
    }
}

/// The text that an object binds to a key.
pub open spec fn str_at(v: Value, key: Seq<char>) -> Option<Seq<char>> {
    match get(v, key) {
        Some(x) => as_str(x),
        None => None,
    }
}

/// The truth value that an object binds to a key.
pub open spec fn bool_at(v: Value, key: Seq<char>) -> Option<bool> {
    match get(v, key) {
        Some(x) => as_bool(x),
        None => None,
    }
}

impl Json {
    /// The literal of a number.
    pub fn as_number(&self) -> (r: Option<String>)
        ensures
            match r {
                Some(n) => self@ == Value::Num(n@),
                None => !(self@ is Num),
            },
    {
        match self {
            Json::Num(n) => Some(n.clone()),
            _ => None,
        }
    }

    pub fn u64_at(&self, key: &str) -> (r: Option<u64>)
        ensures
            r == u64_at(self@, key@),
    {
        match self.get(key) {
            Some(x) => x.as_u64(),
            None => None,
        }
    }

    pub fn number_at(&self, key: &str) -> (r: Option<String>)
        ensures
            optional(r) == number_at(self@, key@),
    {
        match self.get(key) {
            Some(x) => x.as_number(),
            None => None,
        }
    }

    pub fn str_at(&self, key: &str) -> (r: Option<&str>)
        ensures
            match r {
                Some(s) => str_at(self@, key@) == Some(s@),
                None => str_at(self@, key@) is None,
            },
    {
        match self.get(key) {
            Some(x) => x.as_str(),
            None => None,
        }
    }

    pub fn bool_at(&self, key: &str) -> (r: Option<bool>)
        ensures
            r == bool_at(self@, key@),
    {
        match self.get(key) {
            Some(x) => x.as_bool(),
            None => None,
        }
    }
}

// ---------------------------------------------------------------------------
// Printing
// ---------------------------------------------------------------------------

fn write_char(out: &mut String, c: char)
    ensures
        final(out)@ == old(out)@ + escape_char(c),
{
    if c == '"' {
        out.push('\\');
        out.push('"');
    } else if c == '\\' {
        out.push('\\');
        out.push('\\');
    } else if c == '\n' {
        out.push('\\');
        out.push('n');
    } else if c == '\r' {
        out.push('\\');
        out.push('r');
    } else if c == '\t' {
        out.push('\\');
        out.push('t');
    } else if (c as u32) < 0x20 {
        let n: u8 = (c as u32) as u8;
        out.push('\\');
        out.push('u');
        out.push('0');
        out.push('0');
        out.push(hex_digit(n / 16));
        out.push(hex_digit(n % 16));
    } else {
        out.push(c);
    }
    assert(out@ =~= old(out)@ + escape_char(c));
}

fn write_quoted(out: &mut String, s: &str)
    ensures
        final(out)@ == old(out)@ + quoted(s@),
{
    let chars = chars_of(s);
    out.push('"');
    let ghost start = out@;
    let mut i: usize = 0;
    assert(s@.skip(0) =~= s@);
    while i < chars.len()
        invariant
            i <= chars@.len(),
            chars@ == s@,
            start + escaped(s@) == out@ + escaped(s@.skip(i as int)),
        decreases chars@.len() - i,
    {
        let ghost before = out@;
        write_char(out, chars[i]);
        proof {
            let t = s@.skip(i as int);
            assert(t.drop_first() =~= s@.skip(i + 1));
            assert(before + (escape_char(t[0]) + escaped(t.drop_first())) =~= (before + escape_char(t[0]))
                + escaped(t.drop_first()));
        }
        i += 1;
    }
    out.push('"');
    proof {
        assert(escaped(s@.skip(i as int)) =~= Seq::empty());
        assert(out@ =~= old(out)@ + quoted(s@));
    }
}

fn write_value(out: &mut String, j: &Json)
    ensures
        final(out)@ == old(out)@ + print(j@),
    decreases j,
{
    match j {
        Json::Null => {
            out.push('n');
            out.push('u');
            out.push('l');
            out.push('l');
            assert(out@ =~= old(out)@ + null_text());
        },
        Json::Bool(b) => {
            if *b {
                out.push('t');
                out.push('r');
                out.push('u');
                out.push('e');
                assert(out@ =~= old(out)@ + true_text());
            } else {
                out.push('f');
                out.push('a');
                out.push('l');
                out.push('s');
                out.push('e');
                assert(out@ =~= old(out)@ + false_text());
            }
        },
        Json::Num(n) => {
            out.append(n.as_str());
        },
        Json::Str(s) => {
            write_quoted(out, s.as_str());
        },
        Json::Arr(items) => {
            proof {
                lemma_arr_view(*items);
            }
            out.push('[');
            let ghost start = out@;
            let ghost vs = values(items@);
            let mut i: usize = 0;
            if items.len() == 0 {
                out.push(']');
                assert(out@ =~= old(out)@ + print(j@));
                return;
            }
            while i < items.len()
                invariant
                    i <= items@.len(),
                    items@.len() > 0,
                    vs == values(items@),
                    *j == Json::Arr(*items),
                    i == 0 ==> out@ == start,
                    i > 0 ==> start + (print(vs[0]) + print_items(vs.drop_first())) == out@ + print_items(
                        vs.skip(i as int),
                    ),
                decreases items@.len() - i,
            {
                assert(decreases_to!(*j => j->Arr_0));
                assert(decreases_to!(*items => items@));
                assert(decreases_to!(items@ => items@[i as int]));
                let ghost before = out@;
                if i > 0 {
                    out.push(',');
                }
                let ghost middle = out@;
                write_value(out, &items[i]);
                proof {
                    let p = print(vs[i as int]);
                    assert(vs[i as int] == items@[i as int]@);
                    assert(vs.skip(i as int).drop_first() =~= vs.skip(i + 1));
                    assert(vs.skip(i as int)[0] == vs[i as int]);
                    if i == 0 {
                        assert(vs.drop_first() =~= vs.skip(1));
                        assert(start + (p + print_items(vs.skip(1))) =~= out@ + print_items(vs.skip(1)));
                    } else {
                        assert(before + (seq![','] + p + print_items(vs.skip(i + 1))) =~= out@ + print_items(
                            vs.skip(i + 1),
                        ));
                    }
                }
                i += 1;
            }
            out.push(']');
            proof {
                assert(vs.skip(i as int).len() == 0);
                assert(print_items(vs.skip(i as int)) =~= seq![']']);
                let body = print(vs[0]) + print_items(vs.drop_first());
                assert(print(j@) =~= seq!['['] + body);
                assert(out@ =~= start + body);
                assert(out@ =~= old(out)@ + print(j@));
            }
        },
        Json::Obj(ms) => {
            proof {
                lemma_obj_view(*ms);
            }
            out.push('{');
            let ghost start = out@;
            let ghost vs = members(ms@);
            let mut i: usize = 0;
            if ms.len() == 0 {
                out.push('}');
                assert(out@ =~= old(out)@ + print(j@));
                return;
            }
            while i < ms.len()
                invariant
                    i <= ms@.len(),
                    ms@.len() > 0,
                    vs == members(ms@),
                    *j == Json::Obj(*ms),
                    i == 0 ==> out@ == start,
                    i > 0 ==> start + (quoted(vs[0].0) + seq![':'] + print(vs[0].1) + print_members(
                        vs.drop_first(),
                    )) == out@ + print_members(vs.skip(i as int)),
                decreases ms@.len() - i,
            {
                assert(decreases_to!(*j => j->Obj_0));
                assert(decreases_to!(*ms => ms@));
                assert(decreases_to!(ms@ => ms@[i as int]));
                assert(decreases_to!(ms@[i as int] => ms@[i as int].1));
                let ghost before = out@;
                if i > 0 {
                    out.push(',');
                }
                write_quoted(out, ms[i].0.as_str());
                out.push(':');
                write_value(out, &ms[i].1);
                proof {
                    let k = quoted(vs[i as int].0);
                    let p = print(vs[i as int].1);
                    assert(vs[i as int] == (ms@[i as int].0@, ms@[i as int].1@));
                    assert(vs.skip(i as int).drop_first() =~= vs.skip(i + 1));
                    assert(vs.skip(i as int)[0] == vs[i as int]);
                    if i == 0 {
                        assert(vs.drop_first() =~= vs.skip(1));
                        assert(start + (k + seq![':'] + p + print_members(vs.skip(1))) =~= out@ + print_members(
                            vs.skip(1),
                        ));
                    } else {
                        assert(before + (seq![','] + k + seq![':'] + p + print_members(vs.skip(i + 1)))
                            =~= out@ + print_members(vs.skip(i + 1)));
                    }
                }
                i += 1;
            }
            out.push('}');
            proof {
                assert(vs.skip(i as int).len() == 0);
                assert(print_members(vs.skip(i as int)) =~= seq!['}']);
                let body = quoted(vs[0].0) + seq![':'] + print(vs[0].1) + print_members(
                    vs.drop_first(),
                );
                assert(print(j@) =~= seq!['{'] + body);
                assert(out@ =~= start + body);
                assert(out@ =~= old(out)@ + print(j@));
            }
        },
    }
}

impl Json {
    /// The canonical compact text.
    pub fn to_string(&self) -> (r: String)
        ensures
            r@ == print(self@),
    {
        let mut out = String::new();
        write_value(&mut out, self);
        assert(Seq::<char>::empty() + print(self@) =~= print(self@));
        out
    }
}

// ---------------------------------------------------------------------------
// Parsing
// ---------------------------------------------------------------------------

/// The first position at or after `pos` that holds no space.
fn skip_spaces(chars: &[char], pos: usize) -> (q: usize)
    requires
        pos <= chars@.len(),
    ensures
        pos <= q <= chars@.len(),
        skip_space(chars@.skip(pos as int)) == chars@.skip(q as int),
{
    let mut i: usize = pos;
    while i < chars.len() && (chars[i] == ' ' || chars[i] == '\t' || chars[i] == '\n' || chars[i] == '\r')
        invariant
            pos <= i <= chars@.len(),
            skip_space(chars@.skip(pos as int)) == skip_space(chars@.skip(i as int)),
        decreases chars@.len() - i,
    {
        assert(chars@.skip(i as int).drop_first() =~= chars@.skip(i + 1));
        i += 1;
    }
    i
}

/// Whether the characters at `pos` spell `word`.
fn spells(chars: &[char], pos: usize, word: &[char]) -> (r: bool)
    requires
        pos <= chars@.len(),
    ensures
        r == (chars@.skip(pos as int).len() >= word@.len() && chars@.skip(pos as int).take(word@.len() as int)
            == word@),
{
    if chars.len() - pos < word.len() {
        return false;
    }
    let mut i: usize = 0;
    while i < word.len()
        invariant
            i <= word@.len(),
            pos + word@.len() <= chars@.len() <= usize::MAX,
            forall|k: int| 0 <= k < i ==> chars@[pos + k] == word@[k],
        decreases word@.len() - i,
    {
        if chars[pos + i] != word[i] {
            assert(chars@.skip(pos as int).take(word@.len() as int)[i as int] != word@[i as int]);
            return false;
        }
        i += 1;
    }
    assert(chars@.skip(pos as int).take(word@.len() as int) =~= word@);
    true
}

fn hex_digit_value(c: char) -> (r: u32)
    requires
        is_hex_digit(c),
    ensures
        r == hex_value(c),
        r < 16,
{
    let n: u32 = c as u32;
    if char_is_digit(c) {
        n - 48
    } else if 'a' <= c && c <= 'f' {
        n - 97 + 10
    } else {
        n - 65 + 10
    }
}

fn read_hex4(chars: &[char], pos: usize) -> (r: Option<u32>)
    requires
        pos <= chars@.len(),
    ensures
        r == hex4(chars@.skip(pos as int)),
        r is Some ==> pos + 4 <= chars@.len() && r->0 < 0x10000,
{
    let ghost s = chars@.skip(pos as int);
    if chars.len() - pos < 4 {
        return None;
    }
    assert(s[0] == chars@[pos as int] && s[1] == chars@[pos + 1] && s[2] == chars@[pos + 2] && s[3]
        == chars@[pos + 3]);
    if !char_is_hex_digit(chars[pos]) || !char_is_hex_digit(chars[pos + 1]) || !char_is_hex_digit(
        chars[pos + 2],
    ) || !char_is_hex_digit(chars[pos + 3]) {
        return None;
    }
    Some(
        hex_digit_value(chars[pos]) * 4096 + hex_digit_value(chars[pos + 1]) * 256 + hex_digit_value(
            chars[pos + 2],
        ) * 16 + hex_digit_value(chars[pos + 3]),
    )
}

/// `char::from_u32` gives the character with the given code, when there is one.
#[verifier::external_body]
fn char_of(code: u32) -> (r: Option<char>)
    ensures
        r is Some <==> (code < 0xd800 || 0xe000 <= code <= 0x10ffff),
        r is Some ==> r->0 as u32 == code,
{
    char::from_u32(code)
}

fn read_escape(chars: &[char], pos: usize) -> (r: Option<(char, usize)>)
    requires
        pos <= chars@.len(),
    ensures
        match r {
            Some((c, q)) => pos < q <= chars@.len() && unescape(chars@.skip(pos as int)) == Some(
                (c, chars@.skip(q as int)),
            ),
            None => unescape(chars@.skip(pos as int)) is None,
        },
{
    reveal(unescape);
    let ghost s = chars@.skip(pos as int);
    if pos == chars.len() {
        return None;
    }
    let c = chars[pos];
    assert(s[0] == c);
    assert(s.skip(1) =~= chars@.skip(pos + 1));
    if c == '"' || c == '\\' || c == '/' {
        return Some((c, pos + 1));
    }
    if c == 'b' {
        return Some(('\x08', pos + 1));
    }
    if c == 'f' {
        return Some(('\x0c', pos + 1));
    }
    if c == 'n' {
        return Some(('\n', pos + 1));
    }
    if c == 'r' {
        return Some(('\r', pos + 1));
    }
    if c == 't' {
        return Some(('\t', pos + 1));
    }
    if c != 'u' {
        return None;
    }
    match read_hex4(chars, pos + 1) {
        None => None,
        Some(u) => {
            let next: usize = pos + 5;
            assert(s.skip(5) =~= chars@.skip(next as int));
            if 0xd800 <= u && u < 0xdc00 {
                if chars.len() - next < 2 || chars[next] != '\\' || chars[next + 1] != 'u' {
                    return None;
                }
                let ghost t = s.skip(5);
                assert(t[0] == '\\' && t[1] == 'u');
                assert(t.skip(2) =~= chars@.skip(next + 2));
                match read_hex4(chars, next + 2) {
                    None => None,
                    Some(w) => {
                        if 0xdc00 <= w && w < 0xe000 {
                            let code: u32 = 0x10000 + (u - 0xd800) * 0x400 + (w - 0xdc00);
                            assert(t.skip(6) =~= chars@.skip(next + 6));
                            match char_of(code) {
                                Some(found) => {
                                    proof {
                                        char_u32_cast(found, code);
                                    }
                                    Some((found, next + 6))
                                },
                                None => {
                                    assert(false);
                                    None
                                },
                            }
                        } else {
                            None
                        }
                    },
                }
            } else if 0xdc00 <= u && u < 0xe000 {
                None
            } else {
                match char_of(u) {
                    Some(found) => {
                        proof {
                            char_u32_cast(found, u);
                        }
                        Some((found, next))
                    },
                    None => {
                        assert(false);
                        None
                    },
                }
            }
        },
    }
}

/// `parse_string` goes on after the characters read so far.
spec fn string_continues(whole: Seq<char>, read: Seq<char>, rest: Seq<char>) -> bool {
    parse_string(whole) == (match parse_string(rest) {
        Some((text, end)) => Some((read + text, end)),
        None => None,
    })
}

proof fn lemma_string_step(whole: Seq<char>, read: Seq<char>, rest: Seq<char>, c: char, next: Seq<char>)
    requires
        string_continues(whole, read, rest),
        parse_string(rest) == (match parse_string(next) {
            Some((text, end)) => Some((seq![c] + text, end)),
            None => None,
        }),
    ensures
        string_continues(whole, read.push(c), next),
{
    match parse_string(next) {
        Some((text, end)) => {
            assert(read + (seq![c] + text) =~= read.push(c) + text);
        },
        None => {},
    }
}

fn read_string(chars: &[char], pos: usize) -> (r: Option<(String, usize)>)
    requires
        pos <= chars@.len(),
    ensures
        match r {
            Some((text, q)) => pos < q <= chars@.len() && parse_string(chars@.skip(pos as int)) == Some(
                (text@, chars@.skip(q as int)),
            ),
            None => parse_string(chars@.skip(pos as int)) is None,
        },
{
    let ghost whole = chars@.skip(pos as int);
    let mut out = String::new();
    let mut i: usize = pos;
    proof {
        match parse_string(whole) {
            Some((text, end)) => {
                assert(out@ + text =~= text);
            },
            None => {},
        }
    }
    while i < chars.len()
        invariant
            pos <= i <= chars@.len(),
            whole == chars@.skip(pos as int),
            string_continues(whole, out@, chars@.skip(i as int)),
        decreases chars@.len() - i,
    {
        let ghost s = chars@.skip(i as int);
        let c = chars[i];
        assert(s[0] == c);
        assert(s.skip(1) =~= chars@.skip(i + 1));
        if c == '"' {
            assert(out@ + Seq::<char>::empty() =~= out@);
            return Some((out, i + 1));
        }
        if (c as u32) < 0x20 {
            return None;
        }
        if c == '\\' {
            match read_escape(chars, i + 1) {
                None => {
                    return None;
                },
                Some((found, q)) => {
                    proof {
                        lemma_string_step(whole, out@, s, found, chars@.skip(q as int));
                    }
                    out.push(found);
                    i = q;
                },
            }
        } else {
            proof {
                lemma_string_step(whole, out@, s, c, chars@.skip(i + 1));
            }
            out.push(c);
            i += 1;
        }
    }
    None
}

pub(crate) fn count_digits(chars: &[char], pos: usize, end: usize) -> (n: usize)
    requires
        pos <= end <= chars@.len(),
    ensures
        n == digit_run(chars@.subrange(pos as int, end as int)),
        pos + n <= end,
{
    let mut i: usize = pos;
    while i < end && char_is_digit(chars[i])
        invariant
            pos <= i <= end <= chars@.len(),
            digit_run(chars@.subrange(pos as int, end as int)) == (i - pos) + digit_run(
                chars@.subrange(i as int, end as int),
            ),
        decreases end - i,
    {
        assert(chars@.subrange(i as int, end as int).drop_first() =~= chars@.subrange(i + 1, end as int));
        i += 1;
    }
    i - pos
}

fn check_exponent(chars: &[char], pos: usize, end: usize) -> (r: bool)
    requires
        pos <= end <= chars@.len(),
    ensures
        r == is_exponent(chars@.subrange(pos as int, end as int)),
{
    let ghost s = chars@.subrange(pos as int, end as int);
    if pos == end {
        return true;
    }
    if chars[pos] != 'e' && chars[pos] != 'E' {
        return false;
    }
    let mut from: usize = pos + 1;
    assert(s.skip(1) =~= chars@.subrange(pos + 1, end as int));
    if from < end && (chars[from] == '+' || chars[from] == '-') {
        assert(s.skip(1).skip(1) =~= chars@.subrange(pos + 2, end as int));
        from += 1;
    }
    let n: usize = count_digits(chars, from, end);
    n >= 1 && n == end - from
}

fn check_fraction(chars: &[char], pos: usize, end: usize) -> (r: bool)
    requires
        pos <= end <= chars@.len(),
    ensures
        r == is_fraction(chars@.subrange(pos as int, end as int)),
{
    let ghost s = chars@.subrange(pos as int, end as int);
    if pos < end && chars[pos] == '.' {
        assert(s.skip(1) =~= chars@.subrange(pos + 1, end as int));
        let n: usize = count_digits(chars, pos + 1, end);
        assert(s.skip(1 + n) =~= chars@.subrange(pos + 1 + n, end as int));
        n >= 1 && check_exponent(chars, pos + 1 + n, end)
    } else {
        check_exponent(chars, pos, end)
    }
}

pub(crate) fn check_number(chars: &[char], pos: usize, end: usize) -> (r: bool)
    requires
        pos <= end <= chars@.len(),
    ensures
        r == is_number(chars@.subrange(pos as int, end as int)),
{
    let ghost s = chars@.subrange(pos as int, end as int);
    let mut from: usize = pos;
    if pos < end && chars[pos] == '-' {
        assert(s.skip(1) =~= chars@.subrange(pos + 1, end as int));
        from = pos + 1;
    }
    let ghost t = chars@.subrange(from as int, end as int);
    let n: usize = count_digits(chars, from, end);
    assert(t.skip(n as int) =~= chars@.subrange(from + n, end as int));
    n >= 1 && (chars[from] != '0' || n == 1) && check_fraction(chars, from + n, end)
}

fn is_literal_char(c: char) -> (r: bool)
    ensures
        r == is_number_char(c),
{
    char_is_digit(c) || c == '-' || c == '+' || c == '.' || c == 'e' || c == 'E'
}

fn read_number(chars: &[char], pos: usize) -> (r: Option<(String, usize)>)
    requires
        pos <= chars@.len(),
    ensures
        ({
            let s = chars@.skip(pos as int);
            let n = number_run(s) as int;
            match r {
                Some((text, q)) => pos < q <= chars@.len() && n <= s.len() && is_number(s.take(n)) && text@
                    == s.take(n) && chars@.skip(q as int) == s.skip(n),
                None => !(n <= s.len() && is_number(s.take(n))),
            }
        }),
{
    let ghost s = chars@.skip(pos as int);
    let mut end: usize = pos;
    while end < chars.len() && is_literal_char(chars[end])
        invariant
            pos <= end <= chars@.len(),
            number_run(chars@.skip(pos as int)) == (end - pos) + number_run(chars@.skip(end as int)),
        decreases chars@.len() - end,
    {
        assert(chars@.skip(end as int).drop_first() =~= chars@.skip(end + 1));
        end += 1;
    }
    let ghost n = end - pos;
    assert(number_run(chars@.skip(end as int)) == 0);
    assert(s.take(n) =~= chars@.subrange(pos as int, end as int));
    assert(s.skip(n) =~= chars@.skip(end as int));
    if check_number(chars, pos, end) {
        let text = string_of(vstd::slice::slice_subrange(chars, pos, end));
        proof {
            if pos == end {
                assert(s.take(n).len() == 0);
            }
        }
        Some((text, end))
    } else {
        None
    }
}

spec fn items_continue(whole: Seq<char>, read: Seq<Value>, rest: Seq<char>) -> bool {
    parse_items(whole) == (match parse_items(rest) {
        Some((vs, end)) => Some((read + vs, end)),
        None => None,
    })
}

proof fn lemma_items_step(whole: Seq<char>, read: Seq<Value>, rest: Seq<char>, v: Value, next: Seq<char>)
    requires
        items_continue(whole, read, rest),
        parse_items(rest) == (match parse_items(next) {
            Some((vs, end)) => Some((seq![v] + vs, end)),
            None => None,
        }),
    ensures
        items_continue(whole, read.push(v), next),
{
    match parse_items(next) {
        Some((vs, end)) => {
            assert(read + (seq![v] + vs) =~= read.push(v) + vs);
        },
        None => {},
    }
}

spec fn members_continue(whole: Seq<char>, read: Members, rest: Seq<char>) -> bool {
    parse_members(whole) == (match parse_members(rest) {
        Some((ms, end)) => Some((read + ms, end)),
        None => None,
    })
}

proof fn lemma_members_step(whole: Seq<char>, read: Members, rest: Seq<char>, m: (Seq<char>, Value), next: Seq<char>)
    requires
        members_continue(whole, read, rest),
        parse_members(rest) == (match parse_members(next) {
            Some((ms, end)) => Some((seq![m] + ms, end)),
            None => None,
        }),
    ensures
        members_continue(whole, read.push(m), next),
{
    match parse_members(next) {
        Some((ms, end)) => {
            assert(read + (seq![m] + ms) =~= read.push(m) + ms);
        },
        None => {},
    }
}

fn read_value(chars: &[char], pos: usize) -> (r: Option<(Json, usize)>)
    requires
        pos <= chars@.len(),
    ensures
        match r {
            Some((j, q)) => pos < q <= chars@.len() && parse_value(chars@.skip(pos as int)) == Some(
                (j@, chars@.skip(q as int)),
            ),
            None => parse_value(chars@.skip(pos as int)) is None,
        },
    decreases chars@.len() - pos, 1int,
{
    let ghost s = chars@.skip(pos as int);
    if pos == chars.len() {
        return None;
    }
    let c = chars[pos];
    assert(s[0] == c);
    assert(s.skip(1) =~= chars@.skip(pos + 1));
    if c == 'n' {
        if spells(chars, pos, &['n', 'u', 'l', 'l']) {
            assert(s.skip(4) =~= chars@.skip(pos + 4));
            return Some((Json::Null, pos + 4));
        }
        return None;
    }
    if c == 't' {
        if spells(chars, pos, &['t', 'r', 'u', 'e']) {
            assert(s.skip(4) =~= chars@.skip(pos + 4));
            return Some((Json::Bool(true), pos + 4));
        }
        return None;
    }
    if c == 'f' {
        if spells(chars, pos, &['f', 'a', 'l', 's', 'e']) {
            assert(s.skip(5) =~= chars@.skip(pos + 5));
            return Some((Json::Bool(false), pos + 5));
        }
        return None;
    }
    if c == '"' {
        return match read_string(chars, pos + 1) {
            Some((text, q)) => Some((Json::Str(text), q)),
            None => None,
        };
    }
    if c == '[' {
        let t: usize = skip_spaces(chars, pos + 1);
        if t < chars.len() && chars[t] == ']' {
            let empty: Vec<Json> = Vec::new();
            proof {
                lemma_arr_view(empty);
                assert(values(empty@) =~= Seq::empty());
                assert(chars@.skip(t as int).skip(1) =~= chars@.skip(t + 1));
            }
            return Some((Json::Arr(empty), t + 1));
        }
        return match read_items(chars, t) {
            Some((items, q)) => {
                proof {
                    lemma_arr_view(items);
                }
                Some((Json::Arr(items), q))
            },
            None => None,
        };
    }
    if c == '{' {
        let t: usize = skip_spaces(chars, pos + 1);
        if t < chars.len() && chars[t] == '}' {
            let empty = Json::obj();
            assert(chars@.skip(t as int).skip(1) =~= chars@.skip(t + 1));
            return Some((empty, t + 1));
        }
        return read_members(chars, t);
    }
    match read_number(chars, pos) {
        Some((text, q)) => Some((Json::Num(text), q)),
        None => None,
    }
}

fn read_items(chars: &[char], pos: usize) -> (r: Option<(Vec<Json>, usize)>)
    requires
        pos <= chars@.len(),
    ensures
        match r {
            Some((items, q)) => pos < q <= chars@.len() && parse_items(chars@.skip(pos as int)) == Some(
                (values(items@), chars@.skip(q as int)),
            ),
            None => parse_items(chars@.skip(pos as int)) is None,
        },
    decreases chars@.len() - pos, 2int,
{
    let ghost whole = chars@.skip(pos as int);
    let mut out: Vec<Json> = Vec::new();
    let mut i: usize = pos;
    proof {
        match parse_items(whole) {
            Some((vs, end)) => {
                assert(values(out@) + vs =~= vs);
            },
            None => {},
        }
    }
    loop
        invariant
            pos <= i <= chars@.len(),
            whole == chars@.skip(pos as int),
            items_continue(whole, values(out@), chars@.skip(i as int)),
        decreases chars@.len() - i,
    {
        let ghost s = chars@.skip(i as int);
        let ghost before = values(out@);
        let (v, q) = match read_value(chars, i) {
            Some(found) => found,
            None => {
                return None;
            },
        };
        let t: usize = skip_spaces(chars, q);
        let ghost v_view = v@;
        out.push(v);
        assert(values(out@) =~= before.push(v_view));
        if t == chars.len() {
            return None;
        }
        assert(chars@.skip(t as int)[0] == chars@[t as int]);
        assert(chars@.skip(t as int).skip(1) =~= chars@.skip(t + 1));
        if chars[t] == ']' {
            assert(before + seq![v_view] =~= values(out@));
            return Some((out, t + 1));
        }
        if chars[t] != ',' {
            return None;
        }
        let u: usize = skip_spaces(chars, t + 1);
        proof {
            lemma_items_step(whole, before, s, v_view, chars@.skip(u as int));
        }
        i = u;
    }
}

fn read_members(chars: &[char], pos: usize) -> (r: Option<(Json, usize)>)
    requires
        pos <= chars@.len(),
    ensures
        match r {
            Some((j, q)) => pos < q <= chars@.len() && (parse_members(chars@.skip(pos as int)) matches Some(
                (ms, end),
            ) && j@ == obj(ms) && end == chars@.skip(q as int)),
            None => parse_members(chars@.skip(pos as int)) is None,
        },
    decreases chars@.len() - pos, 3int,
{
    let ghost whole = chars@.skip(pos as int);
    let ghost mut pairs: Members = Seq::empty();
    let mut out = Json::obj();
    let mut i: usize = pos;
    proof {
        match parse_members(whole) {
            Some((ms, end)) => {
                assert(pairs + ms =~= ms);
            },
            None => {},
        }
    }
    loop
        invariant
            pos <= i <= chars@.len(),
            whole == chars@.skip(pos as int),
            out@ == obj(pairs),
            members_continue(whole, pairs, chars@.skip(i as int)),
        decreases chars@.len() - i,
    {
        let ghost s = chars@.skip(i as int);
        if i == chars.len() || chars[i] != '"' {
            return None;
        }
        assert(s[0] == '"');
        assert(s.skip(1) =~= chars@.skip(i + 1));
        let (key, p) = match read_string(chars, i + 1) {
            Some(found) => found,
            None => {
                return None;
            },
        };
        let colon: usize = skip_spaces(chars, p);
        if colon == chars.len() || chars[colon] != ':' {
            return None;
        }
        assert(chars@.skip(colon as int)[0] == ':');
        assert(chars@.skip(colon as int).skip(1) =~= chars@.skip(colon + 1));
        let from: usize = skip_spaces(chars, colon + 1);
        let (v, q) = match read_value(chars, from) {
            Some(found) => found,
            None => {
                return None;
            },
        };
        let ghost m = (key@, v@);
        assert(parse_member(s) == Some((m, chars@.skip(q as int))));
        let t: usize = skip_spaces(chars, q);
        out.set(key.as_str(), v);
        let ghost before = pairs;
        proof {
            pairs = before.push(m);
            assert(pairs.drop_last() =~= before);
        }
        if t == chars.len() {
            return None;
        }
        assert(chars@.skip(t as int)[0] == chars@[t as int]);
        assert(chars@.skip(t as int).skip(1) =~= chars@.skip(t + 1));
        if chars[t] == '}' {
            assert(before + seq![m] =~= pairs);
            return Some((out, t + 1));
        }
        if chars[t] != ',' {
            return None;
        }
        let u: usize = skip_spaces(chars, t + 1);
        proof {
            lemma_members_step(whole, before, s, m, chars@.skip(u as int));
        }
        i = u;
    }
}

impl Json {
    /// Parses a whole JSON text.
    pub fn parse(input: &str) -> (r: Result<Json, String>)
        ensures
            match r {
                Ok(j) => parse_text(input@) == Some(j@),
                Err(message) => parse_text(input@) is None && message@ == "malformed JSON text"@,
            },
    {
        let chars = chars_of(input);
        let start: usize = skip_spaces(chars.as_slice(), 0);
        assert(input@.skip(0) =~= input@);
        match read_value(chars.as_slice(), start) {
            Some((j, q)) => {
                let end: usize = skip_spaces(chars.as_slice(), q);
                if end == chars.len() {
                    Ok(j)
                } else {
                    Err("malformed JSON text".to_owned())
                }
            },
            None => Err("malformed JSON text".to_owned()),
        }
    }
}

} // verus!
