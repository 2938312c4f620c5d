//! Command lines: flags with their values, positional arguments, numbers and short texts.

use vstd::prelude::*;

use crate::json::digit_run;
use crate::json_text::digits_value;
use crate::text::{
    char_is_digit, chars_of, contains_text, decimal, first_bytes, first_bytes_of, first_chars, has_cut, join, join_text, law_classes_of_characters,
    law_decimal_writes_the_number, same_text, split_words, starts_with,
    text_starts_with, texts, words, written,
};

verus! {

// ---------------------------------------------------------------------------
// Flags
// ---------------------------------------------------------------------------

/// The argument that follows the first occurrence of a flag.
pub open spec fn value_after(args: Seq<Seq<char>>, flag: Seq<char>) -> Option<Seq<char>>
    decreases args.len(),
{
    if args.len() == 0 {
        None
    } else if args[0] == flag {
        if args.len() > 1 {
            Some(args[1])
        } else {
            None
        }
    } else {
        value_after(args.drop_first(), flag)
    }
}

pub fn flag_value(args: &[String], flag: &str) -> (r: Option<String>)
    ensures
        match r {
            Some(v) => value_after(texts(args@), flag@) == Some(v@),
            None => value_after(texts(args@), flag@) is None,
        },
{
    let ghost all = texts(args@);
    let mut i: usize = 0;
    assert(all.skip(0) =~= all);
    while i < args.len()
        invariant
            i <= args@.len(),
            all == texts(args@),
            value_after(all, flag@) == value_after(all.skip(i as int), flag@),
        decreases args@.len() - i,
    {
        assert(all.skip(i as int)[0] == args@[i as int]@);
        if same_text(args[i].as_str(), flag) {
            if i < args.len() - 1 {
                assert(all.skip(i as int)[1] == args@[i + 1]@);
                return Some(args[i + 1].clone());
            }
            return None;
        }
        assert(all.skip(i as int).drop_first() =~= all.skip(i + 1));
        i += 1;
    }
    None
}

/// Some argument is the flag.
pub fn has_flag(args: &[String], flag: &str) -> (r: bool)
    ensures
        r == texts(args@).contains(flag@),
{
    contains_text(args, flag)
}

/// The value of a flag, or a default.
pub fn flag_or(args: &[String], flag: &str, default: &str) -> (r: String)
    ensures
        r@ == (match value_after(texts(args@), flag@) {
            Some(v) => v,
            None => default@,
        }),
{
    match flag_value(args, flag) {
        Some(v) => v,
        None => default.to_owned(),
    }
}

// ---------------------------------------------------------------------------
// Positional arguments
// ---------------------------------------------------------------------------

/// The arguments that are neither flags nor values of flags.
pub open spec fn positional(args: Seq<Seq<char>>, value_flags: Seq<Seq<char>>) -> Seq<Seq<char>>
    decreases args.len(),
{
    if args.len() == 0 {
        Seq::empty()
    } else if value_flags.contains(args[0]) {
        if args.len() > 1 {
            positional(args.skip(2), value_flags)
        } else {
            Seq::empty()
        }
    } else if starts_with(args[0], "--"@) {
        positional(args.skip(1), value_flags)
    } else {
        seq![args[0]] + positional(args.skip(1), value_flags)
    }
}

/// The positional arguments from place `start` on.
pub fn positionals_from(args: &[String], start: usize, value_flags: &[String]) -> (r: Vec<String>)
    ensures
        texts(r@) == (if start <= args@.len() {
            positional(texts(args@).skip(start as int), texts(value_flags@))
        } else {
            Seq::empty()
        }),
{
    let ghost all = texts(args@);
    let ghost flags = texts(value_flags@);
    let mut out: Vec<String> = Vec::new();
    let n: usize = args.len();
    let mut i: usize = start;
    proof {
        assert(texts(out@) =~= Seq::empty());
        if start <= n {
            let whole = positional(all.skip(start as int), flags);
            assert(Seq::<Seq<char>>::empty() + whole =~= whole);
        }
    }
    while i < n
        invariant
            n == args@.len(),
            all == texts(args@),
            flags == texts(value_flags@),
            start <= i,
            start < n ==> i <= n,
            start <= n ==> positional(all.skip(start as int), flags) == texts(out@) + (if i <= n {
                positional(all.skip(i as int), flags)
            } else {
                Seq::empty()
            }),
            start > n ==> texts(out@) == Seq::<Seq<char>>::empty(),
        decreases n - i,
    {
        let ghost rest = all.skip(i as int);
        assert(rest[0] == args@[i as int]@);
        if contains_text(value_flags, args[i].as_str()) {
            if i + 1 < n {
                assert(rest.skip(2) =~= all.skip(i + 2));
                i = i + 2;
            } else {
                assert(all.skip(n as int) =~= Seq::empty());
                i = n;
            }
        } else if text_starts_with(args[i].as_str(), "--") {
            assert(rest.skip(1) =~= all.skip(i + 1));
            i = i + 1;
        } else {
            let ghost before = texts(out@);
            out.push(args[i].clone());
            proof {
                assert(texts(out@) =~= before.push(rest[0]));
                assert(rest.skip(1) =~= all.skip(i + 1));
                let tail = positional(all.skip(i + 1), flags);
                assert(before + (seq![rest[0]] + tail) =~= texts(out@) + tail);
            }
            i = i + 1;
        }
    }
    proof {
        if start <= n {
            assert(all.skip(n as int) =~= Seq::empty());
            assert(texts(out@) + Seq::<Seq<char>>::empty() =~= texts(out@));
        }
    }
    out
}

/// The first positional argument from place `start` on.
pub fn first_positional(args: &[String], start: usize, value_flags: &[String]) -> (r: Option<String>)
    ensures
        match r {
            Some(a) => start <= args@.len() && positional(texts(args@).skip(start as int), texts(value_flags@)).len() > 0
                && a@ == positional(texts(args@).skip(start as int), texts(value_flags@))[0],
            None => start > args@.len() || positional(texts(args@).skip(start as int), texts(value_flags@)).len() == 0,
        },
{
    let all = positionals_from(args, start, value_flags);
    assert(texts(all@).len() == all@.len());
    if all.len() == 0 {
        None
    } else {
        assert(texts(all@)[0] == all@[0]@);
        Some(all[0].clone())
    }
}

// ---------------------------------------------------------------------------
// Numbers
// ---------------------------------------------------------------------------

/// The digits of a number without its sign.
pub open spec fn unsigned_digits(s: Seq<char>) -> Seq<char> {
    if s.len() > 0 && s[0] == '+' {
        s.skip(1)
    } else {
        s
    }
}

/// The whole number that a text spells, if it fits 64 bits.
pub open spec fn parsed(s: Seq<char>) -> Option<u64> {
    let d = unsigned_digits(s);
    if d.len() > 0 && digit_run(d) == d.len() && digits_value(d) <= u64::MAX {
        Some(digits_value(d) as u64)
    } else {
        None
    }
}

/// Reads a whole number.
pub fn parse_u64(s: &str) -> (r: Option<u64>)
    ensures
        r == parsed(s@),
{
    let chars = chars_of(s);
    let n: usize = chars.len();
    let start: usize = if n > 0 && chars[0] == '+' { 1 } else { 0 };
    let ghost d = unsigned_digits(s@);
    if start == n {
        return None;
    }
    let mut total: u64 = 0;
    let mut fits = true;
    let mut i: usize = start;
    proof {
        assert(d =~= s@.skip(start as int));
        assert(d.skip(0) =~= d);
    }
    while i < n
        invariant
            start <= i <= n,
            start <= 1,
            start < n,
            n == chars@.len(),
            chars@ == s@,
            d == s@.skip(start as int),
            d == unsigned_digits(s@),
            digit_run(d) == (i - start) + digit_run(d.skip(i - start)),
            fits ==> total == digits_value(d.take(i - start)),
            !fits ==> digits_value(d.take(i - start)) > u64::MAX,
        decreases n - i,
    {
        let c: char = chars[i];
        let ghost k = i - start;
        assert(d.skip(k)[0] == c);
        if !char_is_digit(c) {
            assert(digit_run(d.skip(k)) == 0);
            return None;
        }
        let v: u64 = (c as u32 - 48) as u64;
        proof {
            assert(d.skip(k).drop_first() =~= d.skip(k + 1));
            assert(d.take(k + 1).drop_last() =~= d.take(k));
            assert(d.take(k + 1).last() == c);
        }
        if fits {
            if total > (u64::MAX - v) / 10 {
                fits = false;
            } else {
                total = total * 10 + v;
            }
        }
        i += 1;
    }
    proof {
        assert(d.take(n - start) =~= d);
        assert(d.skip(n - start).len() == 0);
    }
    if fits {
        Some(total)
    } else {
        None
    }
}

/// The number after a flag, or a default where there is none that can be read.
pub open spec fn number_after(args: Seq<Seq<char>>, flag: Seq<char>, default: u64) -> u64 {
    match value_after(args, flag) {
        Some(v) => match parsed(v) {
            Some(n) => n,
            None => default,
        },
        None => default,
    }
}

pub fn parse_or(args: &[String], flag: &str, default: u64) -> (r: u64)
    ensures
        r == number_after(texts(args@), flag@, default),
{
    match flag_value(args, flag) {
        Some(v) => match parse_u64(v.as_str()) {
            Some(n) => n,
            None => default,
        },
        None => default,
    }
}

/// The same, brought between two bounds.
pub open spec fn number_within(args: Seq<Seq<char>>, flag: Seq<char>, default: u64, lo: u64, hi: u64) -> u64 {
    let n = number_after(args, flag, default);
    if n < lo {
        lo
    } else if n > hi {
        hi
    } else {
        n
    }
}

pub fn parse_within(args: &[String], flag: &str, default: u64, lo: u64, hi: u64) -> (r: u64)
    ensures
        r == number_within(texts(args@), flag@, default, lo, hi),
{
    let n: u64 = parse_or(args, flag, default);
    if n < lo {
        lo
    } else if n > hi {
        hi
    } else {
        n
    }
}

// ---------------------------------------------------------------------------
// Short texts
// ---------------------------------------------------------------------------

/// A text cut after `n` characters, with an ellipsis where something was cut off.
pub open spec fn truncated(s: Seq<char>, n: nat) -> Seq<char> {
    if s.len() > n {
        s.take(n as int).push('…')
    } else {
        s
    }
}

pub fn truncate(s: &str, n: usize) -> (r: String)
    ensures
        r@ == truncated(s@, n as nat),
{
    let chars = chars_of(s);
    if chars.len() > n {
        let mut out = first_chars(s, n);
        out.push('…');
        assert(out@ =~= truncated(s@, n as nat));
        out
    } else {
        s.to_owned()
    }
}

/// A text on one line: its words with single blanks between them, cut to a length.
pub fn one_line(s: &str, max: usize) -> (r: String)
    ensures
        r@ == truncated(join(words(s@), " "@), max as nat),
{
    let parts = split_words(s);
    let flat = join_text(parts.as_slice(), " ");
    truncate(flat.as_str(), max)
}

/// The first eight bytes of an identifier.
pub fn short(id: &str) -> (r: String)
    requires
        has_cut(id@, 8),
    ensures
        r@ == first_bytes_of(id@, 8),
{
    first_bytes(id, 8)
}

// ---------------------------------------------------------------------------
// Laws
// ---------------------------------------------------------------------------

/// No positional argument is a flag or begins like one.
pub proof fn law_positionals_are_no_flags(args: Seq<Seq<char>>, value_flags: Seq<Seq<char>>, i: int)
    requires
        0 <= i < positional(args, value_flags).len(),
    ensures
        !value_flags.contains(positional(args, value_flags)[i]),
        !starts_with(positional(args, value_flags)[i], "--"@),
    decreases args.len(),
{
    let out = positional(args, value_flags);
    if value_flags.contains(args[0]) {
        law_positionals_are_no_flags(args.skip(2), value_flags, i);
    } else if starts_with(args[0], "--"@) {
        law_positionals_are_no_flags(args.skip(1), value_flags, i);
    } else if i > 0 {
        law_positionals_are_no_flags(args.skip(1), value_flags, i - 1);
        assert(out[i] == positional(args.skip(1), value_flags)[i - 1]);
    } else {
        assert(out[0] == args[0]);
    }
}

/// A text that was cut to a length is at most one character longer than it.
pub proof fn law_truncation_is_bounded(s: Seq<char>, n: nat)
    ensures
        truncated(s, n).len() <= n + 1,
        s.len() <= n ==> truncated(s, n) == s,
{
}

/// The value of a flag is the argument right behind the first place where the flag stands;
/// there is none where the flag stands nowhere or last.
pub proof fn law_value_follows_the_first_flag(args: Seq<Seq<char>>, flag: Seq<char>)
    ensures
        match value_after(args, flag) {
            Some(v) => exists|i: int|
                0 <= i < args.len() - 1 && #[trigger] args[i] == flag && args[i + 1] == v && !args.take(i).contains(flag),
            None => !args.contains(flag) || (args.last() == flag && !args.drop_last().contains(flag)),
        },
    decreases args.len(),
{
    if args.len() > 0 {
        let rest = args.drop_first();
        law_value_follows_the_first_flag(rest, flag);
        if args[0] == flag {
            assert(!args.take(0).contains(flag));
        } else {
            match value_after(rest, flag) {
                Some(v) => {
                    let i = choose|i: int|
                        0 <= i < rest.len() - 1 && #[trigger] rest[i] == flag && rest[i + 1] == v && !rest.take(i).contains(flag);
                    assert(args[i + 1] == flag && args[i + 2] == v);
                    assert(!args.take(i + 1).contains(flag)) by {
                        let front = args.take(i + 1);
                        if front.contains(flag) {
                            let k = choose|k: int| 0 <= k < front.len() && front[k] == flag;
                            assert(args[k] == flag);
                            assert(rest.take(i)[k - 1] == flag);
                        }
                    }
                },
                None => {
                    if args.contains(flag) {
                        let k = choose|k: int| 0 <= k < args.len() && args[k] == flag;
                        assert(rest[k - 1] == flag);
                        assert(rest.last() == args.last());
                        assert(!args.drop_last().contains(flag)) by {
                            let front = args.drop_last();
                            if front.contains(flag) {
                                let m = choose|m: int| 0 <= m < front.len() && front[m] == flag;
                                assert(args[m] == flag);
                                assert(rest.drop_last()[m - 1] == flag);
                            }
                        }
                    }
                },
            }
        }
    }
}

/// A flag that takes a value hides the argument behind it, another flag only itself, and
/// what is left are the positional arguments.
pub proof fn law_positionals(arg: Seq<char>, value: Seq<char>, rest: Seq<Seq<char>>, value_flags: Seq<Seq<char>>)
    ensures
        value_flags.contains(arg) ==> positional(seq![arg].push(value) + rest, value_flags) == positional(rest, value_flags),
        !value_flags.contains(arg) && starts_with(arg, "--"@) ==> positional(seq![arg] + rest, value_flags) == positional(
            rest,
            value_flags,
        ),
        !value_flags.contains(arg) && !starts_with(arg, "--"@) ==> positional(seq![arg] + rest, value_flags) == seq![arg]
            + positional(rest, value_flags),
        positional(Seq::empty(), value_flags).len() == 0,
{
    let two = seq![arg].push(value) + rest;
    let one = seq![arg] + rest;
    assert(two[0] == arg);
    assert(one[0] == arg);
    assert(two.skip(2) =~= rest);
    assert(one.skip(1) =~= rest);
}

/// A number that is asked for within bounds lies within them, and is the given one, or the
/// default, where that does.
pub proof fn law_numbers_stay_within(args: Seq<Seq<char>>, flag: Seq<char>, default: u64, lo: u64, hi: u64)
    requires
        lo <= hi,
    ensures
        ({
            let n = number_within(args, flag, default, lo, hi);
            let given = match value_after(args, flag) {
                Some(v) => parsed(v),
                None => None,
            };
            &&& lo <= n <= hi
            &&& given matches Some(x) ==> (lo <= x <= hi ==> n == x) && (x < lo ==> n == lo) && (x > hi ==> n == hi)
            &&& given is None && lo <= default <= hi ==> n == default
            &&& given is None && default < lo ==> n == lo
            &&& given is None && default > hi ==> n == hi
        }),
{
}

/// What is written of a number is read back, with a plus before it too.
pub proof fn law_numbers_are_read_back(n: u64)
    ensures
        parsed(decimal(n as nat)) == Some(n),
        parsed(seq!['+'] + decimal(n as nat)) == Some(n),
{
    let s = decimal(n as nat);
    law_decimal_writes_the_number(n as nat);
    lemma_all_digits(s);
    lemma_digits_are_written(s);
    assert((seq!['+'] + s).skip(1) =~= s);
    assert((seq!['+'] + s)[0] == '+');
    assert(48 <= s[0] as u32 <= 57);
}

proof fn lemma_all_digits(s: Seq<char>)
    requires
        forall|i: int| 0 <= i < s.len() ==> 48 <= (#[trigger] s[i]) as u32 <= 57,
    ensures
        digit_run(s) == s.len(),
    decreases s.len(),
{
    if s.len() > 0 {
        assert(48 <= s[0] as u32 <= 57);
        law_classes_of_characters(s[0]);
        let t = s.drop_first();
        assert forall|i: int| 0 <= i < t.len() implies 48 <= (#[trigger] t[i]) as u32 <= 57 by {
            assert(t[i] == s[i + 1]);
        }
        lemma_all_digits(t);
    }
}

proof fn lemma_digits_are_written(s: Seq<char>)
    requires
        forall|i: int| 0 <= i < s.len() ==> 48 <= (#[trigger] s[i]) as u32 <= 57,
    ensures
        digits_value(s) == written(s),
    decreases s.len(),
{
    if s.len() > 0 {
        let front = s.drop_last();
        assert(48 <= s[s.len() - 1] as u32 <= 57);
        assert forall|i: int| 0 <= i < front.len() implies 48 <= (#[trigger] front[i]) as u32 <= 57 by {
            assert(front[i] == s[i]);
        }
        lemma_digits_are_written(front);
    }
}

/// A text is cut to its beginning and an ellipsis exactly where it is too long.
pub proof fn law_truncation_keeps_the_beginning(kept: Seq<char>, rest: Seq<char>)
    ensures
        rest.len() > 0 ==> truncated(kept + rest, kept.len()) == kept + seq!['…'],
        rest.len() == 0 ==> truncated(kept + rest, kept.len()) == kept,
{
    assert((kept + rest).take(kept.len() as int) =~= kept);
    assert(kept.push('…') =~= kept + seq!['…']);
    if rest.len() == 0 {
        assert(kept + rest =~= kept);
    }
}

} // verus!
