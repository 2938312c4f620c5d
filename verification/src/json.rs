//! JSON values with canonical compact printing and a parser that inverts it.
//!
//! Numbers keep their decimal literal, and the members of an object are held in
//! strictly ascending order of their keys, so equal values print identically.

use vstd::prelude::*;

use crate::order::{lemma_text_order_equal, lemma_text_order_flip, lemma_text_order_transitive, order_texts, text_order, Order};
use crate::text::{decimal, decimal_int, decimal_int_text, decimal_text, hex_char, is_digit, is_hex_digit};

verus! {

/// A JSON value.
#[derive(Debug, PartialEq, Eq)]
pub enum Json {
    Null,
    Bool(bool),
    /// A number, held as its literal.
    Num(String),
    Str(String),
    Arr(Vec<Json>),
    /// Members in strictly ascending order of their keys.
    Obj(Vec<(String, Json)>),
}

/// A JSON value over mathematical sequences.
#[verifier::ext_equal]
pub enum Value {
    Null,
    Bool(bool),
    Num(Seq<char>),
    Str(Seq<char>),
    Arr(Seq<Value>),
    Obj(Seq<(Seq<char>, Value)>),
}

pub type Members = Seq<(Seq<char>, Value)>;

impl Json {
    pub open spec fn view(&self) -> Value
        decreases self,
    {
        match self {
            Json::Null => Value::Null,
            Json::Bool(b) => Value::Bool(*b),
            Json::Num(n) => Value::Num(n@),
            Json::Str(s) => Value::Str(s@),
            Json::Arr(items) => Value::Arr(
                Seq::new(
                    items@.len(),
                    |i: int|
                        if 0 <= i < items@.len() {
                            items@[i].view()
                        } else {
                            Value::Null
                        },
                ),
            ),
            Json::Obj(members) => Value::Obj(
                Seq::new(
                    members@.len(),
                    |i: int|
                        if 0 <= i < members@.len() {
                            (members@[i].0@, members@[i].1.view())
                        } else {
                            (Seq::<char>::empty(), Value::Null)
                        },
                ),
            ),
        }
    }
}

/// The values of a list of JSON values.
pub open spec fn values(items: Seq<Json>) -> Seq<Value> {
    items.map_values(|j: Json| j@)
}

/// The members of a list of keyed JSON values.
pub open spec fn members(items: Seq<(String, Json)>) -> Members {
    items.map_values(|m: (String, Json)| (m.0@, m.1@))
}

pub proof fn lemma_arr_view(items: Vec<Json>)
    ensures
        Json::Arr(items)@ == Value::Arr(values(items@)),
{
    let v = Json::Arr(items)@;
    assert(v->Arr_0 =~= values(items@));
}

pub proof fn lemma_obj_view(items: Vec<(String, Json)>)
    ensures
        Json::Obj(items)@ == Value::Obj(members(items@)),
{
    let v = Json::Obj(items)@;
    assert(v->Obj_0 =~= members(items@));
}

// ---------------------------------------------------------------------------
// Objects
// ---------------------------------------------------------------------------

/// The members with `key` bound to `value`, at its place in the order.
pub open spec fn set_member<T>(ms: Seq<(Seq<char>, T)>, key: Seq<char>, value: T) -> Seq<(Seq<char>, T)>
    decreases ms.len(),
{
    if ms.len() == 0 {
        seq![(key, value)]
    } else {
        match text_order(key, ms[0].0) {
            Order::Less => seq![(key, value)] + ms,
            Order::Equal => seq![(key, value)] + ms.drop_first(),
            Order::Greater => seq![ms[0]] + set_member(ms.drop_first(), key, value),
        }
    }
}

/// The members given one after the other; a later binding of a key replaces an
/// earlier one.
pub open spec fn object(pairs: Members) -> Members
    decreases pairs.len(),
{
    if pairs.len() == 0 {
        Seq::empty()
    } else {
        set_member(object(pairs.drop_last()), pairs.last().0, pairs.last().1)
    }
}

/// An object built from the given bindings.
pub open spec fn obj(pairs: Members) -> Value {
    Value::Obj(object(pairs))
}

/// The object without members.
pub open spec fn empty_obj() -> Value {
    Value::Obj(Seq::empty())
}

impl Value {
    /// An object with one more binding; other values stay as they are.
    pub open spec fn with(self, key: Seq<char>, value: Value) -> Value {
        match self {
            Value::Obj(ms) => Value::Obj(set_member(ms, key, value)),
            other => other,
        }
    }
}

/// The value bound to `key`.
pub open spec fn lookup<T>(ms: Seq<(Seq<char>, T)>, key: Seq<char>) -> Option<T>
    decreases ms.len(),
{
    if ms.len() == 0 {
        None
    } else if ms[0].0 == key {
        Some(ms[0].1)
    } else {
        lookup(ms.drop_first(), key)
    }
}

/// The value that an object binds to `key`; other values bind nothing.
pub open spec fn get(v: Value, key: Seq<char>) -> Option<Value> {
    match v {
        Value::Obj(ms) => lookup(ms, key),
        _ => None,
    }
}

/// Strictly ascending keys.
pub open spec fn keys_ascending<T>(ms: Seq<(Seq<char>, T)>) -> bool {
    forall|i: int, j: int|
        #![trigger ms[i], ms[j]]
        0 <= i < j < ms.len() ==> text_order(ms[i].0, ms[j].0) == Order::Less
}

/// Well-formed values: number literals are numbers, keys are in order.
pub open spec fn wf(v: Value) -> bool
    decreases v,
{
    match v {
        Value::Num(n) => is_number(n),
        Value::Arr(items) => forall|i: int| 0 <= i < items.len() ==> wf(#[trigger] items[i]),
        Value::Obj(ms) => keys_ascending(ms) && forall|i: int|
            0 <= i < ms.len() ==> wf((#[trigger] ms[i]).1),
        _ => true,
    }
}

/// Binding a key keeps the keys in order.
pub proof fn lemma_set_member_ascending<T>(ms: Seq<(Seq<char>, T)>, key: Seq<char>, value: T)
    requires
        keys_ascending(ms),
    ensures
        keys_ascending(set_member(ms, key, value)),
        forall|i: int|
            0 <= i < set_member(ms, key, value).len() ==> ((#[trigger] set_member(ms, key, value)[i]).0
                == key && set_member(ms, key, value)[i].1 == value) || ms.contains(
                set_member(ms, key, value)[i],
            ),
    decreases ms.len(),
{
    let out = set_member(ms, key, value);
    if ms.len() > 0 {
        let tail = ms.drop_first();
        lemma_text_order_equal(key, ms[0].0);
        lemma_text_order_flip(key, ms[0].0);
        assert forall|i: int, j: int|
            #![trigger tail[i], tail[j]]
            0 <= i < j < tail.len() implies text_order(tail[i].0, tail[j].0) == Order::Less by {
            assert(tail[i] == ms[i + 1] && tail[j] == ms[j + 1]);
        }
        lemma_set_member_ascending(tail, key, value);
        assert forall|i: int, j: int|
            #![trigger out[i], out[j]]
            0 <= i < j < out.len() implies text_order(out[i].0, out[j].0) == Order::Less by {
            match text_order(key, ms[0].0) {
                Order::Less => {
                    if i == 0 {
                        assert(out[j] == ms[j - 1]);
                        if j - 1 > 0 {
                            lemma_text_order_transitive(key, ms[0].0, ms[j - 1].0);
                        }
                    } else {
                        assert(out[i] == ms[i - 1] && out[j] == ms[j - 1]);
                    }
                },
                Order::Equal => {
                    assert(out[j] == ms[j]);
                    if i > 0 {
                        assert(out[i] == ms[i]);
                    }
                },
                Order::Greater => {
                    let rest = set_member(tail, key, value);
                    assert(out[j] == rest[j - 1]);
                    if i > 0 {
                        assert(out[i] == rest[i - 1]);
                    } else if tail.contains(rest[j - 1]) {
                        let k = choose|k: int| 0 <= k < tail.len() && tail[k] == rest[j - 1];
                        assert(ms[k + 1] == rest[j - 1]);
                    }
                },
            }
        }
        assert forall|i: int| 0 <= i < out.len() implies ((#[trigger] out[i]).0 == key && out[i].1
            == value) || ms.contains(out[i]) by {
            match text_order(key, ms[0].0) {
                Order::Less => {
                    if i > 0 {
                        assert(out[i] == ms[i - 1]);
                    }
                },
                Order::Equal => {
                    if i > 0 {
                        assert(out[i] == ms[i]);
                    }
                },
                Order::Greater => {
                    let rest = set_member(tail, key, value);
                    if i == 0 {
                        assert(out[i] == ms[0]);
                    } else {
                        assert(out[i] == rest[i - 1]);
                        if tail.contains(rest[i - 1]) {
                            let k = choose|k: int| 0 <= k < tail.len() && tail[k] == rest[i - 1];
                            assert(ms[k + 1] == out[i]);
                        }
                    }
                },
            }
        }
    }
}

/// Binding a key after all others appends it.
pub proof fn lemma_set_member_appends<T>(ms: Seq<(Seq<char>, T)>, key: Seq<char>, value: T)
    requires
        forall|i: int| 0 <= i < ms.len() ==> text_order((#[trigger] ms[i]).0, key) == Order::Less,
    ensures
        set_member(ms, key, value) == ms.push((key, value)),
    decreases ms.len(),
{
    if ms.len() > 0 {
        lemma_text_order_flip(key, ms[0].0);
        assert(text_order(ms[0].0, key) == Order::Less);
        assert forall|i: int| 0 <= i < ms.drop_first().len() implies text_order(
            (#[trigger] ms.drop_first()[i]).0,
            key,
        ) == Order::Less by {
            assert(ms.drop_first()[i] == ms[i + 1]);
        }
        lemma_set_member_appends(ms.drop_first(), key, value);
        assert(seq![ms[0]] + ms.drop_first().push((key, value)) =~= ms.push((key, value)));
    } else {
        assert(seq![(key, value)] =~= ms.push((key, value)));
    }
}

/// Members that are already in order are an object as they stand.
pub proof fn lemma_object_of_ascending(ms: Members)
    requires
        keys_ascending(ms),
    ensures
        object(ms) == ms,
    decreases ms.len(),
{
    if ms.len() > 0 {
        let front = ms.drop_last();
        assert forall|i: int, j: int|
            #![trigger front[i], front[j]]
            0 <= i < j < front.len() implies text_order(front[i].0, front[j].0) == Order::Less by {
            assert(front[i] == ms[i] && front[j] == ms[j]);
        }
        lemma_object_of_ascending(front);
        assert forall|i: int| 0 <= i < front.len() implies text_order(
            (#[trigger] front[i]).0,
            ms.last().0,
        ) == Order::Less by {
            assert(front[i] == ms[i]);
        }
        lemma_set_member_appends(front, ms.last().0, ms.last().1);
        assert(front.push(ms.last()) =~= ms);
    } else {
        assert(object(ms) =~= ms);
    }
}

/// A bound key is found, and binding it leaves other keys alone.
pub proof fn lemma_get_with(v: Value, key: Seq<char>, value: Value, other: Seq<char>)
    requires
        wf(v),
        v is Obj,
    ensures
        get(v.with(key, value), other) == (if other == key {
            Some(value)
        } else {
            get(v, other)
        }),
{
    lemma_lookup_set_member(v->Obj_0, key, value, other);
}

/// Binding a well-formed value keeps an object well-formed, wherever one is bound.
pub broadcast proof fn lemma_with_keeps_wf(v: Value, key: Seq<char>, value: Value)
    requires
        wf(v),
        v is Obj,
        wf(value),
    ensures
        wf(#[trigger] v.with(key, value)),
        v.with(key, value) is Obj,
{
    lemma_with_wf(v, key, value);
}

/// Binding a well-formed value keeps an object well-formed.
pub proof fn lemma_with_wf(v: Value, key: Seq<char>, value: Value)
    requires
        wf(v),
        v is Obj,
        wf(value),
    ensures
        wf(v.with(key, value)),
        v.with(key, value) is Obj,
{
    let ms = v->Obj_0;
    let out = set_member(ms, key, value);
    lemma_set_member_ascending(ms, key, value);
    assert forall|i: int| 0 <= i < out.len() implies wf((#[trigger] out[i]).1) by {
        if ms.contains(out[i]) {
            let k = choose|k: int| 0 <= k < ms.len() && ms[k] == out[i];
            assert(wf(ms[k].1));
        }
    }
}

/// What an object with one more binding binds to every key.
pub proof fn lemma_bound(v: Value, key: Seq<char>, value: Value)
    requires
        wf(v),
        v is Obj,
        wf(value),
    ensures
        wf(v.with(key, value)),
        v.with(key, value) is Obj,
        forall|other: Seq<char>| #[trigger]
            get(v.with(key, value), other) == (if other == key {
                Some(value)
            } else {
                get(v, other)
            }),
{
    lemma_with_wf(v, key, value);
    assert forall|other: Seq<char>| #[trigger]
        get(v.with(key, value), other) == (if other == key {
            Some(value)
        } else {
            get(v, other)
        }) by {
        lemma_get_with(v, key, value, other);
    }
}

/// A lookup after a binding gives the bound value back, and leaves other keys alone.
pub proof fn lemma_lookup_set_member<T>(ms: Seq<(Seq<char>, T)>, key: Seq<char>, value: T, other: Seq<char>)
    requires
        keys_ascending(ms),
    ensures
        lookup(set_member(ms, key, value), other) == (if other == key {
            Some(value)
        } else {
            lookup(ms, other)
        }),
    decreases ms.len(),
{
    if ms.len() > 0 {
        let tail = ms.drop_first();
        lemma_text_order_equal(key, ms[0].0);
        assert forall|i: int, j: int|
            #![trigger tail[i], tail[j]]
            0 <= i < j < tail.len() implies text_order(tail[i].0, tail[j].0) == Order::Less by {
            assert(tail[i] == ms[i + 1] && tail[j] == ms[j + 1]);
        }
        lemma_lookup_set_member(tail, key, value, other);
        match text_order(key, ms[0].0) {
            Order::Less => {
                assert((seq![(key, value)] + ms).drop_first() =~= ms);
            },
            Order::Equal => {
                assert((seq![(key, value)] + tail).drop_first() =~= tail);
            },
            Order::Greater => {
                let rest = set_member(tail, key, value);
                assert((seq![ms[0]] + rest).drop_first() =~= rest);
            },
        }
    } else {
        assert(seq![(key, value)].drop_first() =~= ms);
    }
}

/// What a well-formed object binds is well-formed.
pub proof fn lemma_lookup_wf(ms: Members, key: Seq<char>)
    requires
        forall|i: int| 0 <= i < ms.len() ==> wf((#[trigger] ms[i]).1),
    ensures
        lookup(ms, key) matches Some(v) ==> wf(v),
    decreases ms.len(),
{
    if ms.len() > 0 {
        assert(wf(ms[0].1));
        let tail = ms.drop_first();
        assert forall|i: int| 0 <= i < tail.len() implies wf((#[trigger] tail[i]).1) by {
            assert(tail[i] == ms[i + 1]);
        }
        lemma_lookup_wf(tail, key);
    }
}

/// Binding a key to the same value once more changes nothing.
pub proof fn lemma_set_member_twice<T>(ms: Seq<(Seq<char>, T)>, key: Seq<char>, value: T)
    ensures
        set_member(set_member(ms, key, value), key, value) == set_member(ms, key, value),
    decreases ms.len(),
{
    let once = set_member(ms, key, value);
    lemma_text_order_equal(key, key);
    if ms.len() == 0 {
        assert(once.drop_first() =~= Seq::empty());
        assert(set_member(once, key, value) =~= once);
    } else {
        match text_order(key, ms[0].0) {
            Order::Less => {
                assert(once.drop_first() =~= ms);
                assert(set_member(once, key, value) =~= once);
            },
            Order::Equal => {
                assert(once.drop_first() =~= ms.drop_first());
                assert(set_member(once, key, value) =~= once);
            },
            Order::Greater => {
                let tail = set_member(ms.drop_first(), key, value);
                lemma_set_member_twice(ms.drop_first(), key, value);
                assert(once.drop_first() =~= tail);
                assert(once[0] == ms[0]);
            },
        }
    }
}

// ---------------------------------------------------------------------------
// Printing
// ---------------------------------------------------------------------------

pub open spec fn null_text() -> Seq<char> {
    seq!['n', 'u', 'l', 'l']
}

pub open spec fn true_text() -> Seq<char> {
    seq!['t', 'r', 'u', 'e']
}

pub open spec fn false_text() -> Seq<char> {
    seq!['f', 'a', 'l', 's', 'e']
}

/// A character inside a JSON string.
pub open spec fn escape_char(c: char) -> Seq<char> {
    if c == '"' {
        seq!['\\', '"']
    } else if c == '\\' {
        seq!['\\', '\\']
    } else if c == '\n' {
        seq!['\\', 'n']
    } else if c == '\r' {
        seq!['\\', 'r']
    } else if c == '\t' {
        seq!['\\', 't']
    } else if (c as u32) < 0x20 {
        seq!['\\', 'u', '0', '0', hex_char(((c as u32) / 16) as u8), hex_char(((c as u32) % 16) as u8)]
    } else {
        seq![c]
    }
}

pub open spec fn escaped(s: Seq<char>) -> Seq<char>
    decreases s.len(),
{
    if s.len() == 0 {
        Seq::empty()
    } else {
        escape_char(s[0]) + escaped(s.drop_first())
    }
}

pub open spec fn quoted(s: Seq<char>) -> Seq<char> {
    seq!['"'] + escaped(s) + seq!['"']
}

/// The canonical compact text of a value.
pub open spec fn print(v: Value) -> Seq<char>
    decreases v,
{
    match v {
        Value::Null => null_text(),
        Value::Bool(b) => if b {
            true_text()
        } else {
            false_text()
        },
        Value::Num(n) => n,
        Value::Str(s) => quoted(s),
        Value::Arr(items) => if items.len() == 0 {
            seq!['[', ']']
        } else {
            seq!['['] + print(items[0]) + print_items(items.drop_first())
        },
        Value::Obj(ms) => if ms.len() == 0 {
            seq!['{', '}']
        } else {
            seq!['{'] + quoted(ms[0].0) + seq![':'] + print(ms[0].1) + print_members(ms.drop_first())
        },
    }
}

/// The items after the first, each behind a comma, and the closing bracket.
pub open spec fn print_items(items: Seq<Value>) -> Seq<char>
    decreases items,
{
    if items.len() == 0 {
        seq![']']
    } else {
        seq![','] + print(items[0]) + print_items(items.drop_first())
    }
}

/// The members after the first, each behind a comma, and the closing brace.
pub open spec fn print_members(ms: Members) -> Seq<char>
    decreases ms,
{
    if ms.len() == 0 {
        seq!['}']
    } else {
        seq![','] + quoted(ms[0].0) + seq![':'] + print(ms[0].1) + print_members(ms.drop_first())
    }
}

// ---------------------------------------------------------------------------
// Number literals
// ---------------------------------------------------------------------------

/// Characters that occur in number literals.
pub open spec fn is_number_char(c: char) -> bool {
    is_digit(c) || c == '-' || c == '+' || c == '.' || c == 'e' || c == 'E'
}

/// How many digits `s` begins with.
pub open spec fn digit_run(s: Seq<char>) -> nat
    decreases s.len(),
{
    if s.len() > 0 && is_digit(s[0]) {
        1 + digit_run(s.drop_first())
    } else {
        0
    }
}

/// Nothing, or an exponent.
pub open spec fn is_exponent(s: Seq<char>) -> bool {
    s.len() == 0 || ((s[0] == 'e' || s[0] == 'E') && {
        let q = s.skip(1);
        let d = if q.len() > 0 && (q[0] == '+' || q[0] == '-') {
            q.skip(1)
        } else {
            q
        };
        digit_run(d) >= 1 && digit_run(d) == d.len()
    })
}

/// Nothing, or a fraction, and then an exponent or nothing.
pub open spec fn is_fraction(s: Seq<char>) -> bool {
    if s.len() > 0 && s[0] == '.' {
        let d = digit_run(s.skip(1));
        d >= 1 && is_exponent(s.skip(1 + d as int))
    } else {
        is_exponent(s)
    }
}

/// The grammar of JSON numbers.
pub open spec fn is_number(s: Seq<char>) -> bool {
    let t = if s.len() > 0 && s[0] == '-' {
        s.skip(1)
    } else {
        s
    };
    let d = digit_run(t);
    d >= 1 && (t[0] == '0' ==> d == 1) && is_fraction(t.skip(d as int))
}

/// How many number characters `s` begins with.
pub open spec fn number_run(s: Seq<char>) -> nat
    decreases s.len(),
{
    if s.len() > 0 && is_number_char(s[0]) {
        1 + number_run(s.drop_first())
    } else {
        0
    }
}

// ---------------------------------------------------------------------------
// Parsing
// ---------------------------------------------------------------------------

pub open spec fn is_json_space(c: char) -> bool {
    c == ' ' || c == '\t' || c == '\n' || c == '\r'
}

pub open spec fn skip_space(s: Seq<char>) -> Seq<char>
    decreases s.len(),
{
    if s.len() > 0 && is_json_space(s[0]) {
        skip_space(s.drop_first())
    } else {
        s
    }
}

/// The value of a hexadecimal digit.
pub open spec fn hex_value(c: char) -> u32 {
    if is_digit(c) {
        (c as u32 - '0' as u32) as u32
    } else if 'a' <= c && c <= 'f' {
        (c as u32 - 'a' as u32 + 10) as u32
    } else {
        (c as u32 - 'A' as u32 + 10) as u32
    }
}

/// The number that four hexadecimal digits spell.
pub open spec fn hex4(s: Seq<char>) -> Option<u32> {
    if s.len() >= 4 && is_hex_digit(s[0]) && is_hex_digit(s[1]) && is_hex_digit(s[2]) && is_hex_digit(
        s[3],
    ) {
        Some(
            (hex_value(s[0]) * 4096 + hex_value(s[1]) * 256 + hex_value(s[2]) * 16 + hex_value(
                s[3],
            )) as u32,
        )
    } else {
        None
    }
}

/// The character that a backslash introduces, and the text behind it.
/// `s` begins after the backslash.
#[verifier::opaque]
pub open spec fn unescape(s: Seq<char>) -> Option<(char, Seq<char>)> {
    if s.len() == 0 {
        None
    } else if s[0] == '"' || s[0] == '\\' || s[0] == '/' {
        Some((s[0], s.skip(1)))
    } else if s[0] == 'b' {
        Some(('\x08', s.skip(1)))
    } else if s[0] == 'f' {
        Some(('\x0c', s.skip(1)))
    } else if s[0] == 'n' {
        Some(('\n', s.skip(1)))
    } else if s[0] == 'r' {
        Some(('\r', s.skip(1)))
    } else if s[0] == 't' {
        Some(('\t', s.skip(1)))
    } else if s[0] == 'u' {
        match hex4(s.skip(1)) {
            None => None,
            Some(u) => if 0xd800 <= u < 0xdc00 {
                let t = s.skip(5);
                if t.len() >= 2 && t[0] == '\\' && t[1] == 'u' {
                    match hex4(t.skip(2)) {
                        None => None,
                        Some(w) => if 0xdc00 <= w < 0xe000 {
                            Some(((0x10000 + (u - 0xd800) * 0x400 + (w - 0xdc00)) as char, t.skip(6)))
                        } else {
                            None
                        },
                    }
                } else {
                    None
                }
            } else if 0xdc00 <= u < 0xe000 {
                None
            } else {
                Some((u as char, s.skip(5)))
            },
        }
    } else {
        None
    }
}

/// The contents of a string literal and the text behind its closing quote.
/// `s` begins after the opening quote.
pub open spec fn parse_string(s: Seq<char>) -> Option<(Seq<char>, Seq<char>)>
    decreases s.len(),
{
    if s.len() == 0 {
        None
    } else if s[0] == '"' {
        Some((Seq::empty(), s.skip(1)))
    } else if (s[0] as u32) < 0x20 {
        None
    } else if s[0] == '\\' {
        match unescape(s.skip(1)) {
            Some((c, rest)) if rest.len() < s.len() => match parse_string(rest) {
                Some((text, end)) => Some((seq![c] + text, end)),
                None => None,
            },
            _ => None,
        }
    } else {
        match parse_string(s.skip(1)) {
            Some((text, end)) => Some((seq![s[0]] + text, end)),
            None => None,
        }
    }
}

/// The value at the start of `s`, which has no leading space, and the text
/// behind it.
pub open spec fn parse_value(s: Seq<char>) -> Option<(Value, Seq<char>)>
    decreases s.len(), 1int,
{
    if s.len() == 0 {
        None
    } else if s[0] == 'n' {
        if s.len() >= 4 && s.take(4) == null_text() {
            Some((Value::Null, s.skip(4)))
        } else {
            None
        }
    } else if s[0] == 't' {
        if s.len() >= 4 && s.take(4) == true_text() {
            Some((Value::Bool(true), s.skip(4)))
        } else {
            None
        }
    } else if s[0] == 'f' {
        if s.len() >= 5 && s.take(5) == false_text() {
            Some((Value::Bool(false), s.skip(5)))
        } else {
            None
        }
    } else if s[0] == '"' {
        match parse_string(s.skip(1)) {
            Some((text, rest)) => Some((Value::Str(text), rest)),
            None => None,
        }
    } else if s[0] == '[' {
        let t = skip_space(s.skip(1));
        if t.len() >= s.len() {
            None
        } else if t.len() > 0 && t[0] == ']' {
            Some((Value::Arr(Seq::empty()), t.skip(1)))
        } else {
            match parse_items(t) {
                Some((items, rest)) => Some((Value::Arr(items), rest)),
                None => None,
            }
        }
    } else if s[0] == '{' {
        let t = skip_space(s.skip(1));
        if t.len() >= s.len() {
            None
        } else if t.len() > 0 && t[0] == '}' {
            Some((Value::Obj(Seq::empty()), t.skip(1)))
        } else {
            match parse_members(t) {
                Some((pairs, rest)) => Some((obj(pairs), rest)),
                None => None,
            }
        }
    } else {
        let n = number_run(s) as int;
        if n <= s.len() && is_number(s.take(n)) {
            Some((Value::Num(s.take(n)), s.skip(n)))
        } else {
            None
        }
    }
}

/// One or more items up to the closing bracket.
pub open spec fn parse_items(s: Seq<char>) -> Option<(Seq<Value>, Seq<char>)>
    decreases s.len(), 2int,
{
    match parse_value(s) {
        None => None,
        Some((v, rest)) => {
            let t = skip_space(rest);
            if t.len() == 0 || t.len() >= s.len() {
                None
            } else if t[0] == ']' {
                Some((seq![v], t.skip(1)))
            } else if t[0] == ',' {
                let u = skip_space(t.skip(1));
                if u.len() >= s.len() {
                    None
                } else {
                    match parse_items(u) {
                        None => None,
                        Some((vs, end)) => Some((seq![v] + vs, end)),
                    }
                }
            } else {
                None
            }
        },
    }
}

/// One member: its key, its value and the text behind it.
pub open spec fn parse_member(s: Seq<char>) -> Option<((Seq<char>, Value), Seq<char>)>
    decreases s.len(), 2int,
{
    if s.len() == 0 || s[0] != '"' {
        None
    } else {
        match parse_string(s.skip(1)) {
            None => None,
            Some((key, rest)) => {
                let t = skip_space(rest);
                if t.len() == 0 || t[0] != ':' {
                    None
                } else {
                    let u = skip_space(t.skip(1));
                    if u.len() >= s.len() {
                        None
                    } else {
                        match parse_value(u) {
                            None => None,
                            Some((v, end)) => Some(((key, v), end)),
                        }
                    }
                }
            },
        }
    }
}

/// One or more members up to the closing brace, in the order of the text.
pub open spec fn parse_members(s: Seq<char>) -> Option<(Members, Seq<char>)>
    decreases s.len(), 3int,
{
    match parse_member(s) {
        None => None,
        Some((m, rest)) => {
            let t = skip_space(rest);
            if t.len() == 0 || t.len() >= s.len() {
                None
            } else if t[0] == '}' {
                Some((seq![m], t.skip(1)))
            } else if t[0] == ',' {
                let u = skip_space(t.skip(1));
                if u.len() >= s.len() {
                    None
                } else {
                    match parse_members(u) {
                        None => None,
                        Some((ms, end)) => Some((seq![m] + ms, end)),
                    }
                }
            } else {
                None
            }
        },
    }
}

/// The value of a whole JSON text.
pub open spec fn parse_text(s: Seq<char>) -> Option<Value> {
    match parse_value(skip_space(s)) {
        Some((v, rest)) => if skip_space(rest).len() == 0 {
            Some(v)
        } else {
            None
        },
        None => None,
    }
}

// ---------------------------------------------------------------------------
// Executable values
// ---------------------------------------------------------------------------

impl Clone for Json {
    fn clone(&self) -> (r: Json)
        ensures
            r@ == self@,
    {
        copy(self)
    }
}

fn copy(j: &Json) -> (r: Json)
    ensures
        r@ == j@,
    decreases j,
{
    match j {
        Json::Null => Json::Null,
        Json::Bool(b) => Json::Bool(*b),
        Json::Num(n) => Json::Num(n.clone()),
        Json::Str(s) => Json::Str(s.clone()),
        Json::Arr(items) => {
            let mut out: Vec<Json> = Vec::new();
            let mut i: usize = 0;
            while i < items.len()
                invariant
                    i <= items@.len(),
                    *j == Json::Arr(*items),
                    values(out@) == values(items@.take(i as int)),
                decreases items@.len() - i,
            {
                assert(decreases_to!(*j => j->Arr_0));
                assert(decreases_to!(*items => items@));
                assert(decreases_to!(items@ => items@[i as int]));
                assert(decreases_to!(j => items@[i as int]));
                let x = copy(&items[i]);
                let ghost before = out@;
                out.push(x);
                i += 1;
                proof {
                    assert(values(out@) =~= values(before).push(x@));
                    assert(values(items@.take(i as int)) =~= values(items@.take(i - 1)).push(
                        items@[i - 1]@,
                    ));
                }
            }
            proof {
                assert(items@.take(i as int) == items@);
                lemma_arr_view(*items);
                lemma_arr_view(out);
            }
            Json::Arr(out)
        },
        Json::Obj(ms) => {
            let mut out: Vec<(String, Json)> = Vec::new();
            let mut i: usize = 0;
            while i < ms.len()
                invariant
                    i <= ms@.len(),
                    *j == Json::Obj(*ms),
                    members(out@) == members(ms@.take(i as int)),
                decreases ms@.len() - i,
            {
                let k = ms[i].0.clone();
                assert(decreases_to!(*j => j->Obj_0));
                assert(decreases_to!(*ms => ms@));
                assert(decreases_to!(ms@ => ms@[i as int]));
                assert(decreases_to!(ms@[i as int] => ms@[i as int].1));
                assert(decreases_to!(j => ms@[i as int].1));
                let x = copy(&ms[i].1);
                let ghost before = out@;
                out.push((k, x));
                i += 1;
                proof {
                    assert(members(out@) =~= members(before).push((k@, x@)));
                    assert(members(ms@.take(i as int)) =~= members(ms@.take(i - 1)).push(
                        (ms@[i - 1].0@, ms@[i - 1].1@),
                    ));
                }
            }
            proof {
                assert(ms@.take(i as int) == ms@);
                lemma_obj_view(*ms);
                lemma_obj_view(out);
            }
            Json::Obj(out)
        },
    }
}

impl Json {
    /// An object without members.
    pub fn obj() -> (r: Json)
        ensures
            r@ == empty_obj(),
            r@ == obj(Seq::empty()),
    {
        let empty: Vec<(String, Json)> = Vec::new();
        proof {
            lemma_obj_view(empty);
            assert(members(empty@) =~= Seq::empty());
            assert(object(Seq::empty()) =~= Seq::empty());
        }
        Json::Obj(empty)
    }

    /// A string.
    pub fn text(s: &str) -> (r: Json)
        ensures
            r@ == Value::Str(s@),
    {
        Json::Str(s.to_owned())
    }

    /// A non-negative whole number, with all its digits: none is rounded to what a
    /// floating-point number can hold.
    pub fn num(n: u64) -> (r: Json)
        ensures
            r@ == Value::Num(decimal(n as nat)),
    {
        Json::Num(decimal_text(n))
    }

    /// A whole number.
    pub fn whole(n: i64) -> (r: Json)
        ensures
            r@ == Value::Num(decimal_int(n as int)),
    {
        Json::Num(decimal_int_text(n))
    }

    /// An array of strings.
    pub fn text_array(items: &[String]) -> (r: Json)
        ensures
            r@ == text_array(crate::text::texts(items@)),
    {
        let mut out: Vec<Json> = Vec::new();
        let mut i: usize = 0;
        while i < items.len()
            invariant
                i <= items@.len(),
                values(out@) == crate::text::texts(items@.take(i as int)).map_values(
                    |t: Seq<char>| Value::Str(t),
                ),
            decreases items@.len() - i,
        {
            let ghost before = out@;
            out.push(Json::Str(items[i].clone()));
            i += 1;
            proof {
                assert(values(out@) =~= values(before).push(Value::Str(items@[i - 1]@)));
                assert(values(out@) =~= crate::text::texts(items@.take(i as int)).map_values(
                    |t: Seq<char>| Value::Str(t),
                ));
            }
        }
        proof {
            assert(items@.take(i as int) == items@);
            lemma_arr_view(out);
        }
        Json::Arr(out)
    }

    /// Binds a key of an object; values that are no objects stay as they are.
    pub fn set(&mut self, key: &str, value: Json)
        ensures
            final(self)@ == old(self)@.with(key@, value@),
    {
        match self {
            Json::Obj(ms) => {
                let ghost before = ms@;
                let ghost given = value@;
                let mut i: usize = 0;
                let mut order = Order::Greater;
                while i < ms.len() && order == Order::Greater
                    invariant
                        ms@ == before,
                        i <= ms@.len(),
                        order == Order::Greater ==> forall|j: int|
                            0 <= j < i ==> text_order(key@, (#[trigger] before[j]).0@)
                                == Order::Greater,
                        order != Order::Greater ==> i > 0 && order == text_order(
                            key@,
                            before[i - 1].0@,
                        ) && forall|j: int|
                            0 <= j < i - 1 ==> text_order(key@, (#[trigger] before[j]).0@)
                                == Order::Greater,
                    decreases ms@.len() - i,
                {
                    order = order_texts(key, ms[i].0.as_str());
                    i += 1;
                }
                let name = key.to_owned();
                match order {
                    Order::Greater => {
                        ms.push((name, value));
                        proof {
                            lemma_set_member_at(members(before), key@, given, i as int);
                            assert(members(ms@) =~= members(before).push((key@, given)));
                        }
                    },
                    Order::Equal => {
                        ms.remove(i - 1);
                        ms.insert(i - 1, (name, value));
                        proof {
                            lemma_set_member_at(members(before), key@, given, i - 1);
                            assert(members(ms@) =~= members(before).update(i - 1, (key@, given)));
                        }
                    },
                    Order::Less => {
                        ms.insert(i - 1, (name, value));
                        proof {
                            lemma_set_member_at(members(before), key@, given, i - 1);
                            assert(members(ms@) =~= members(before).insert(i - 1, (key@, given)));
                        }
                    },
                }
                proof {
                    assert(final(self)@->Obj_0 =~= members(ms@));
                    assert(old(self)@->Obj_0 =~= members(before));
                }
            },
            _ => {},
        }
    }
}

/// Values with a JSON form.
pub trait ToJson: Sized {
    spec fn json(&self) -> Value;

    fn to_json(&self) -> (r: Json)
        ensures
            r@ == self.json(),
    ;
}

/// The JSON array of a list.
pub open spec fn array_json<T: ToJson>(items: Seq<T>) -> Value {
    Value::Arr(items.map_values(|x: T| x.json()))
}

/// A list whose items are well-formed as JSON is so itself.
pub proof fn lemma_array_wf<T: ToJson>(items: Seq<T>)
    requires
        forall|i: int| 0 <= i < items.len() ==> wf((#[trigger] items[i]).json()),
    ensures
        wf(array_json(items)),
{
    let vs = items.map_values(|x: T| x.json());
    assert forall|i: int| 0 <= i < vs.len() implies wf(#[trigger] vs[i]) by {
        assert(vs[i] == items[i].json());
    }
}

pub fn json_array<T: ToJson>(items: &[T]) -> (r: Json)
    ensures
        r@ == array_json(items@),
{
    let mut out: Vec<Json> = Vec::new();
    let mut i: usize = 0;
    while i < items.len()
        invariant
            i <= items@.len(),
            out@.len() == i,
            forall|j: int| 0 <= j < i ==> (#[trigger] out@[j])@ == items@[j].json(),
        decreases items@.len() - i,
    {
        out.push(items[i].to_json());
        i += 1;
    }
    proof {
        lemma_arr_view(out);
        assert(values(out@) =~= items@.map_values(|x: T| x.json()));
    }
    Json::Arr(out)
}

/// An array of texts.
pub open spec fn text_array(items: Seq<Seq<char>>) -> Value {
    Value::Arr(items.map_values(|t: Seq<char>| Value::Str(t)))
}

pub proof fn lemma_text_array_wf(items: Seq<Seq<char>>)
    ensures
        wf(text_array(items)),
{
    let vs = items.map_values(|t: Seq<char>| Value::Str(t));
    assert forall|i: int| 0 <= i < vs.len() implies wf(#[trigger] vs[i]) by {
        assert(vs[i] == Value::Str(items[i]));
    }
}

/// The binding of a key stands after all smaller keys.
pub proof fn lemma_set_member_at<T>(ms: Seq<(Seq<char>, T)>, key: Seq<char>, value: T, i: int)
    requires
        0 <= i <= ms.len(),
        forall|j: int| 0 <= j < i ==> text_order(key, (#[trigger] ms[j]).0) == Order::Greater,
        i < ms.len() ==> text_order(key, ms[i].0) != Order::Greater,
    ensures
        set_member(ms, key, value) == (if i == ms.len() {
            ms.push((key, value))
        } else if text_order(key, ms[i].0) == Order::Equal {
            ms.update(i, (key, value))
        } else {
            ms.insert(i, (key, value))
        }),
    decreases ms.len(),
{
    let out = set_member(ms, key, value);
    if ms.len() == 0 {
        assert(out =~= ms.push((key, value)));
    } else if i == 0 {
        if text_order(key, ms[0].0) == Order::Equal {
            assert(out =~= ms.update(0, (key, value)));
        } else {
            assert(out =~= ms.insert(0, (key, value)));
        }
    } else {
        let tail = ms.drop_first();
        assert(text_order(key, ms[0].0) == Order::Greater);
        assert forall|j: int| 0 <= j < i - 1 implies text_order(key, (#[trigger] tail[j]).0)
            == Order::Greater by {
            assert(tail[j] == ms[j + 1]);
        }
        lemma_set_member_at(tail, key, value, i - 1);
        if i == ms.len() {
            assert(out =~= ms.push((key, value)));
        } else if text_order(key, ms[i].0) == Order::Equal {
            assert(out =~= ms.update(i, (key, value)));
        } else {
            assert(out =~= ms.insert(i, (key, value)));
        }
    }
}

/// An object whose keys ascend still is one with one more binding, gives the bound value
/// back under its key, and under every other what it gave before.
pub proof fn law_objects_bind_keys(v: Value, key: Seq<char>, value: Value)
    requires
        v is Obj,
        keys_ascending(v->Obj_0),
    ensures
        v.with(key, value) is Obj,
        keys_ascending(v.with(key, value)->Obj_0),
        get(v.with(key, value), key) == Some(value),
        forall|other: Seq<char>|
            other != key ==> #[trigger] get(v.with(key, value), other) == get(v, other),
{
    lemma_set_member_ascending(v->Obj_0, key, value);
    assert forall|other: Seq<char>| #[trigger] get(v.with(key, value), other) == (if other == key {
        Some(value)
    } else {
        get(v, other)
    }) by {
        lemma_lookup_set_member(v->Obj_0, key, value, other);
    }
}

/// Lists with the same JSON have as many items, each with the same JSON.
pub proof fn law_lists_are_told_item_by_item<T: ToJson>(a: Seq<T>, b: Seq<T>)
    requires
        array_json(a) == array_json(b),
    ensures
        a.len() == b.len(),
        forall|i: int| 0 <= i < a.len() ==> (#[trigger] a[i]).json() == b[i].json(),
{
    let x = a.map_values(|t: T| t.json());
    let y = b.map_values(|t: T| t.json());
    assert(x == y);
    assert forall|i: int| 0 <= i < a.len() implies (#[trigger] a[i]).json() == b[i].json() by {
        assert(x[i] == y[i]);
    }
}

/// Lists of texts with the same JSON are the same.
pub proof fn law_text_lists_are_told(a: Seq<Seq<char>>, b: Seq<Seq<char>>)
    requires
        text_array(a) == text_array(b),
    ensures
        a == b,
{
    let x = a.map_values(|t: Seq<char>| Value::Str(t));
    let y = b.map_values(|t: Seq<char>| Value::Str(t));
    assert(x == y);
    assert(a =~= b) by {
        assert forall|i: int| 0 <= i < a.len() implies a[i] == b[i] by {
            assert(x[i] == Value::Str(a[i]));
            assert(y[i] == Value::Str(b[i]));
        }
    }
}

} // verus!
