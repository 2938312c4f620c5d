//! The whole numbers that number literals stand for.
//!
//! A literal is a sign, digits and a power of ten: `16`, `16.0` and `1.6e1` all stand for
//! sixteen.

use vstd::prelude::*;

use crate::json::{digit_run, is_exponent, is_number};
use crate::json_text::{check_number, count_digits, digits_value};
use crate::text::{chars_of, is_digit};

verus! {

pub open spec fn pow10(k: nat) -> nat
    decreases k,
{
    if k == 0 {
        1
    } else {
        10 * pow10((k - 1) as nat)
    }
}

/// What a literal says: digits and where their point is, as a power of ten.
pub struct Literal {
    pub negative: bool,
    pub digits: Seq<char>,
    pub exponent: int,
}

/// The power of ten that an exponent, or nothing, stands for.
pub open spec fn exponent_value(s: Seq<char>) -> int {
    if s.len() == 0 {
        0
    } else {
        let q = s.skip(1);
        if q.len() > 0 && q[0] == '-' {
            -(digits_value(q.skip(1)) as int)
        } else if q.len() > 0 && q[0] == '+' {
            digits_value(q.skip(1)) as int
        } else {
            digits_value(q) as int
        }
    }
}

pub open spec fn literal(n: Seq<char>) -> Literal {
    let negative = n.len() > 0 && n[0] == '-';
    let t = if negative {
        n.skip(1)
    } else {
        n
    };
    let d = digit_run(t) as int;
    let rest = t.skip(d);
    if rest.len() > 0 && rest[0] == '.' {
        let f = digit_run(rest.skip(1)) as int;
        Literal {
            negative,
            digits: t.take(d) + rest.skip(1).take(f),
            exponent: exponent_value(rest.skip(1 + f)) - f,
        }
    } else {
        Literal { negative, digits: t.take(d), exponent: exponent_value(rest) }
    }
}

/// The digits with their point moved by a power of ten, when that is a whole number: a
/// point moves left over zeros only.
pub open spec fn shifted(digits: Seq<char>, e: int) -> Option<nat>
    decreases digits.len(),
{
    if digits_value(digits) == 0 {
        Some(0)
    } else if e >= 0 {
        Some(digits_value(digits) * pow10(e as nat))
    } else if digits.len() > 0 && digits.last() == '0' {
        shifted(digits.drop_last(), e + 1)
    } else {
        None
    }
}

/// The whole number, not below zero, that a literal stands for.
pub open spec fn whole_value(n: Seq<char>) -> Option<nat> {
    if !is_number(n) {
        None
    } else {
        let l = literal(n);
        match shifted(l.digits, l.exponent) {
            Some(x) => if l.negative && x != 0 {
                None
            } else {
                Some(x)
            },
            None => None,
        }
    }
}

// ---------------------------------------------------------------------------
// Lemmas
// ---------------------------------------------------------------------------

proof fn lemma_pow10_grows(k: nat)
    ensures
        pow10(k) > k,
    decreases k,
{
    if k > 0 {
        lemma_pow10_grows((k - 1) as nat);
    }
}

/// Digits that are not all zero are no whole number once the point has left them.
proof fn lemma_too_small(digits: Seq<char>, e: int)
    requires
        digits_value(digits) != 0,
        digits.len() + e < 0,
    ensures
        shifted(digits, e) is None,
    decreases digits.len(),
{
    if digits.len() > 0 && digits.last() == '0' {
        lemma_too_small(digits.drop_last(), e + 1);
    }
}

/// A digit more makes no number smaller.
proof fn lemma_digits_grow(s: Seq<char>, i: int)
    requires
        0 <= i < s.len(),
        is_digit(s[i]),
    ensures
        digits_value(s.take(i + 1)) == 10 * digits_value(s.take(i)) + (s[i] as u32 - 48),
        digits_value(s.take(i + 1)) >= digits_value(s.take(i)),
{
    assert(s.take(i + 1).drop_last() =~= s.take(i));
    assert(s.take(i + 1).last() == s[i]);
}

/// A run of digits holds digits.
proof fn lemma_run_is_digits(s: Seq<char>)
    ensures
        digit_run(s) <= s.len(),
        forall|i: int| 0 <= i < digit_run(s) ==> is_digit(#[trigger] s[i]),
    decreases s.len(),
{
    if s.len() > 0 && is_digit(s[0]) {
        let t = s.drop_first();
        lemma_run_is_digits(t);
        assert forall|i: int| 0 <= i < digit_run(s) implies is_digit(#[trigger] s[i]) by {
            if i > 0 {
                assert(s[i] == t[i - 1]);
            }
        }
    }
}

/// The literal of digits alone.
pub proof fn lemma_plain_literal(n: Seq<char>)
    requires
        is_number(n),
        digit_run(n) == n.len(),
    ensures
        whole_value(n) == Some(digits_value(n)),
{
    lemma_run_is_digits(n);
    assert(is_digit(n[0]));
    assert(n.take(n.len() as int) =~= n);
    assert(n.skip(n.len() as int).len() == 0);
    assert(pow10(0) == 1);
    assert(digits_value(n) * 1 == digits_value(n));
}

// ---------------------------------------------------------------------------
// Reading
// ---------------------------------------------------------------------------

/// More than any 64-bit number, and less than a tenth of the widest.
const ENOUGH: u128 = 1_000_000_000_000_000_000_000_000_000_000;

/// Reads digits up to a bound that no 64-bit number reaches.
fn read_digits(chars: &[char], from: usize, to: usize) -> (r: Option<u128>)
    requires
        from <= to <= chars@.len(),
        forall|i: int| from <= i < to ==> is_digit(#[trigger] chars@[i]),
    ensures
        ({
            let d = digits_value(chars@.subrange(from as int, to as int));
            match r {
                Some(v) => v == d && v < 10 * ENOUGH,
                None => d >= ENOUGH,
            }
        }),
{
    let ghost s = chars@.subrange(from as int, to as int);
    let mut total: u128 = 0;
    let mut fits = true;
    let mut i: usize = from;
    while i < to
        invariant
            from <= i <= to <= chars@.len(),
            s == chars@.subrange(from as int, to as int),
            forall|k: int| from <= k < to ==> is_digit(#[trigger] chars@[k]),
            fits ==> total == digits_value(s.take(i - from)) && total < 10 * ENOUGH,
            !fits ==> digits_value(s.take(i - from)) >= ENOUGH,
        decreases to - i,
    {
        let c = chars[i];
        proof {
            assert(s[i - from] == c);
            lemma_digits_grow(s, i - from);
        }
        if fits && total < ENOUGH {
            total = total * 10 + (c as u32 - 48) as u128;
        } else {
            fits = false;
        }
        i += 1;
    }
    assert(s.take(to - from) =~= s);
    if fits {
        Some(total)
    } else {
        None
    }
}

/// An exponent: its value, or its direction when it is out of all proportion.
enum Exponent {
    Exact(i128),
    Huge,
    Tiny,
}

fn read_exponent(chars: &[char], pos: usize) -> (r: Exponent)
    requires
        pos <= chars@.len(),
        is_exponent(chars@.skip(pos as int)),
    ensures
        ({
            let e = exponent_value(chars@.skip(pos as int));
            match r {
                Exponent::Exact(v) => v == e && -10 * ENOUGH < v < 10 * ENOUGH,
                Exponent::Huge => e >= ENOUGH,
                Exponent::Tiny => e <= -(ENOUGH as int),
            }
        }),
{
    let ghost s = chars@.skip(pos as int);
    let end: usize = chars.len();
    if pos == end {
        return Exponent::Exact(0);
    }
    let ghost q = s.skip(1);
    assert(q =~= chars@.subrange(pos + 1, end as int));
    let mut from: usize = pos + 1;
    let mut below = false;
    if from < end && (chars[from] == '+' || chars[from] == '-') {
        below = chars[from] == '-';
        from += 1;
        assert(q.skip(1) =~= chars@.subrange(from as int, end as int));
    }
    let ghost d = chars@.subrange(from as int, end as int);
    proof {
        lemma_run_is_digits(d);
        assert forall|i: int| from <= i < end implies is_digit(#[trigger] chars@[i]) by {
            assert(d[i - from] == chars@[i]);
        }
        if from == pos + 1 {
            assert(d == q);
        }
    }
    match read_digits(chars, from, end) {
        Some(v) => {
            if below {
                Exponent::Exact(-(v as i128))
            } else {
                Exponent::Exact(v as i128)
            }
        },
        None => {
            if below {
                Exponent::Tiny
            } else {
                Exponent::Huge
            }
        },
    }
}

/// Appends a run of digits.
fn push_digits(out: &mut Vec<char>, chars: &[char], from: usize, to: usize)
    requires
        from <= to <= chars@.len(),
    ensures
        final(out)@ == old(out)@ + chars@.subrange(from as int, to as int),
{
    let ghost before = out@;
    let mut i: usize = from;
    while i < to
        invariant
            from <= i <= to <= chars@.len(),
            out@ == before + chars@.subrange(from as int, i as int),
        decreases to - i,
    {
        out.push(chars[i]);
        i += 1;
    }
}

/// Moves the point of digits that are not all zero.
fn shift(digits: Vec<char>, exponent: i128) -> (r: Option<u64>)
    requires
        digits_value(digits@) != 0,
        exponent <= 10 * ENOUGH,
        forall|i: int| 0 <= i < digits@.len() ==> is_digit(#[trigger] digits@[i]),
    ensures
        match r {
            Some(v) => shifted(digits@, exponent as int) == Some(v as nat) && v != 0,
            None => shifted(digits@, exponent as int) matches Some(x) ==> x > u64::MAX,
        },
{
    let ghost target = shifted(digits@, exponent as int);
    let mut digits = digits;
    let mut e: i128 = exponent;
    while e < 0 && digits.len() > 0 && digits[digits.len() - 1] == '0'
        invariant
            digits_value(digits@) != 0,
            shifted(digits@, e as int) == target,
            e <= 10 * ENOUGH,
            forall|i: int| 0 <= i < digits@.len() ==> is_digit(#[trigger] digits@[i]),
        decreases digits@.len(),
    {
        let ghost d = digits@;
        let _ = digits.pop();
        assert(digits@ =~= d.drop_last());
        e = e + 1;
    }
    if e < 0 {
        return None;
    }
    let ghost scale = pow10(e as nat);
    let end: usize = digits.len();
    proof {
        assert(digits@.subrange(0, end as int) =~= digits@);
        lemma_pow10_grows(e as nat);
    }
    let mut v: u128 = match read_digits(digits.as_slice(), 0, end) {
        Some(v) => v,
        None => {
            assert(digits_value(digits@) * scale >= digits_value(digits@)) by (nonlinear_arith)
                requires
                    scale >= 1,
            ;
            return None;
        },
    };
    let ghost total = digits_value(digits@) * scale;
    while e > 0 && v <= 0xffff_ffff_ffff_ffff
        invariant
            e >= 0,
            v > 0,
            v < 10 * ENOUGH,
            v * pow10(e as nat) == total,
        decreases e,
    {
        let ghost below = pow10((e - 1) as nat);
        assert((v * 10) * below == v * (10 * below)) by (nonlinear_arith);
        v = v * 10;
        e = e - 1;
    }
    proof {
        lemma_pow10_grows(e as nat);
        let p = pow10(e as nat);
        assert(v * p >= v) by (nonlinear_arith)
            requires
                p >= 1,
        ;
        if e == 0 {
            assert(v * 1 == v);
        }
    }
    if v <= 0xffff_ffff_ffff_ffff {
        Some(v as u64)
    } else {
        None
    }
}

/// Reads the sign and the digits of a literal, how many of them follow its point, and
/// where its exponent starts.
fn read_literal(chars: &[char]) -> (r: (bool, Vec<char>, usize, usize))
    requires
        is_number(chars@),
    ensures
        ({
            let l = literal(chars@);
            &&& r.0 == l.negative
            &&& r.1@ == l.digits
            &&& forall|i: int| 0 <= i < r.1@.len() ==> is_digit(#[trigger] r.1@[i])
            &&& r.2 <= r.1@.len()
            &&& r.3 <= chars@.len()
            &&& is_exponent(chars@.skip(r.3 as int))
            &&& l.exponent == exponent_value(chars@.skip(r.3 as int)) - r.2
        }),
{
    let ghost n = chars@;
    let end: usize = chars.len();
    proof {
        if n.len() == 0 {
            assert(digit_run(n) == 0);
        }
    }
    let negative: bool = chars[0] == '-';
    let start: usize = if negative {
        1
    } else {
        0
    };
    let ghost t = chars@.subrange(start as int, end as int);
    proof {
        if negative {
            assert(t =~= n.skip(1));
        } else {
            assert(t =~= n);
        }
        lemma_run_is_digits(t);
    }
    let d: usize = count_digits(chars, start, end);
    let ghost rest = t.skip(d as int);
    assert(rest =~= chars@.skip(start + d));
    let mut digits: Vec<char> = Vec::new();
    push_digits(&mut digits, chars, start, start + d);
    assert(digits@ =~= t.take(d as int));
    let pos: usize = start + d;
    if pos < end && chars[pos] == '.' {
        assert(rest.skip(1) =~= chars@.subrange(pos + 1, end as int));
        let f: usize = count_digits(chars, pos + 1, end);
        proof {
            lemma_run_is_digits(rest.skip(1));
            assert(rest.skip(1).take(f as int) =~= chars@.subrange(pos + 1, pos + 1 + f));
            assert(rest.skip(1 + f) =~= chars@.skip(pos + 1 + f));
        }
        push_digits(&mut digits, chars, pos + 1, pos + 1 + f);
        proof {
            assert(digits@ =~= t.take(d as int) + rest.skip(1).take(f as int));
            assert forall|i: int| 0 <= i < digits@.len() implies is_digit(#[trigger] digits@[i]) by {
                if i < d {
                    assert(digits@[i] == t[i]);
                } else {
                    assert(digits@[i] == rest.skip(1)[i - d]);
                }
            }
        }
        (negative, digits, f, pos + 1 + f)
    } else {
        proof {
            assert forall|i: int| 0 <= i < digits@.len() implies is_digit(#[trigger] digits@[i]) by {
                assert(digits@[i] == t[i]);
            }
        }
        (negative, digits, 0, pos)
    }
}

/// Reads the whole number that a literal stands for, when it fits 64 bits.
pub fn whole_number(text: &str) -> (r: Option<u64>)
    ensures
        match r {
            Some(v) => whole_value(text@) == Some(v as nat),
            None => whole_value(text@) matches Some(x) ==> x > u64::MAX,
        },
{
    let chars = chars_of(text);
    let end: usize = chars.len();
    assert(chars@.subrange(0, end as int) =~= text@);
    if !check_number(chars.as_slice(), 0, end) {
        return None;
    }
    let (negative, digits, f, pos) = read_literal(chars.as_slice());
    let ghost l = literal(text@);
    let count: usize = digits.len();
    assert(digits@.subrange(0, count as int) =~= digits@);
    match read_digits(digits.as_slice(), 0, count) {
        Some(v) => {
            if v == 0 {
                return Some(0);
            }
        },
        None => {},
    }
    match read_exponent(chars.as_slice(), pos) {
        Exponent::Exact(e) => {
            let r = shift(digits, e - f as i128);
            if negative {
                None
            } else {
                r
            }
        },
        Exponent::Huge => {
            proof {
                let k = l.exponent as nat;
                let v = digits_value(l.digits);
                lemma_pow10_grows(k);
                assert(v * pow10(k) >= pow10(k)) by (nonlinear_arith)
                    requires
                        v >= 1,
                ;
            }
            None
        },
        Exponent::Tiny => {
            proof {
                lemma_too_small(l.digits, l.exponent);
            }
            None
        },
    }
}

} // verus!
