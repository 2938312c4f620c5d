//! Text as sequences of characters: character classes, trimming, splitting,
//! decimal and hexadecimal numerals, and equality of strings.

use vstd::prelude::*;
use vstd::utf8::{decode_utf8, encode_utf8, encode_utf8_decode_utf8, is_char_boundary};

verus! {

/// `String::push` appends one character to the text.
pub assume_specification[ String::push ](s: &mut String, c: char)
    ensures
        final(s)@ == old(s)@.push(c),
;

/// Values that are handed over as owned text: a `String` or a string slice.
pub trait IntoText: Sized {
    /// The characters of the text.
    spec fn text(&self) -> Seq<char>;

    fn into_text(self) -> (r: String)
        ensures
            r@ == self.text(),
    ;
}

impl IntoText for String {
    open spec fn text(&self) -> Seq<char> {
        self@
    }

    fn into_text(self) -> (r: String) {
        self
    }
}

impl<'a> IntoText for &'a str {
    open spec fn text(&self) -> Seq<char> {
        self@
    }

    fn into_text(self) -> (r: String) {
        self.to_owned()
    }
}

impl<'a> IntoText for &'a String {
    open spec fn text(&self) -> Seq<char> {
        self@
    }

    fn into_text(self) -> (r: String) {
        self.clone()
    }
}

/// The texts of a sequence of strings.
pub open spec fn texts(s: Seq<String>) -> Seq<Seq<char>> {
    s.map_values(|x: String| x@)
}

pub broadcast proof fn lemma_texts_push(s: Seq<String>, x: String)
    ensures
        #[trigger] texts(s.push(x)) == texts(s).push(x@),
{
    assert(texts(s.push(x)) =~= texts(s).push(x@));
}

// ---------------------------------------------------------------------------
// Character classes
// ---------------------------------------------------------------------------

/// Control characters: the Unicode general category `Cc`.
pub open spec fn is_control(c: char) -> bool {
    (c as u32) <= 0x1f || 0x7f <= (c as u32) <= 0x9f
}

/// The Unicode property `White_Space`.
pub open spec fn is_whitespace(c: char) -> bool {
    let n = c as u32;
    0x09 <= n <= 0x0d || n == 0x20 || n == 0x85 || n == 0xa0 || n == 0x1680 || 0x2000 <= n <= 0x200a
        || n == 0x2028 || n == 0x2029 || n == 0x202f || n == 0x205f || n == 0x3000
}

/// `0` to `9`.
pub open spec fn is_digit(c: char) -> bool {
    '0' <= c && c <= '9'
}

/// ASCII letters.
pub open spec fn is_ascii_letter(c: char) -> bool {
    ('a' <= c && c <= 'z') || ('A' <= c && c <= 'Z')
}

/// ASCII letters and digits.
pub open spec fn is_ascii_alphanumeric(c: char) -> bool {
    is_ascii_letter(c) || is_digit(c)
}

/// Hexadecimal digits of either case.
pub open spec fn is_hex_digit(c: char) -> bool {
    is_digit(c) || ('a' <= c && c <= 'f') || ('A' <= c && c <= 'F')
}

pub fn char_is_control(c: char) -> (r: bool)
    ensures
        r == is_control(c),
{
    let n: u32 = c as u32;
    n <= 0x1f || (0x7f <= n && n <= 0x9f)
}

pub fn char_is_whitespace(c: char) -> (r: bool)
    ensures
        r == is_whitespace(c),
{
    let n: u32 = c as u32;
    (0x09 <= n && n <= 0x0d) || n == 0x20 || n == 0x85 || n == 0xa0 || n == 0x1680 || (0x2000 <= n
        && n <= 0x200a) || n == 0x2028 || n == 0x2029 || n == 0x202f || n == 0x205f || n == 0x3000
}

pub fn char_is_digit(c: char) -> (r: bool)
    ensures
        r == is_digit(c),
{
    '0' <= c && c <= '9'
}

pub fn char_is_ascii_alphanumeric(c: char) -> (r: bool)
    ensures
        r == is_ascii_alphanumeric(c),
{
    ('a' <= c && c <= 'z') || ('A' <= c && c <= 'Z') || ('0' <= c && c <= '9')
}

pub fn char_is_hex_digit(c: char) -> (r: bool)
    ensures
        r == is_hex_digit(c),
{
    ('0' <= c && c <= '9') || ('a' <= c && c <= 'f') || ('A' <= c && c <= 'F')
}

// ---------------------------------------------------------------------------
// Whole texts
// ---------------------------------------------------------------------------

/// No whitespace at either end.
pub open spec fn is_trimmed(s: Seq<char>) -> bool {
    s.len() > 0 ==> !is_whitespace(s[0]) && !is_whitespace(s.last())
}

pub open spec fn any_control(s: Seq<char>) -> bool {
    exists|i: int| 0 <= i < s.len() && is_control(#[trigger] s[i])
}

pub open spec fn any_whitespace(s: Seq<char>) -> bool {
    exists|i: int| 0 <= i < s.len() && is_whitespace(#[trigger] s[i])
}

pub open spec fn all_hex(s: Seq<char>) -> bool {
    forall|i: int| 0 <= i < s.len() ==> is_hex_digit(#[trigger] s[i])
}

/// The characters of a string.
pub fn chars_of(s: &str) -> (r: Vec<char>)
    ensures
        r@ == s@,
{
    let mut out: Vec<char> = Vec::new();
    for c in it: s.chars()
        invariant
            out@ == it.seq().take(it.index() as int),
            it.seq() == s@,
    {
        out.push(c);
    }
    out
}

/// The string with the given characters.
pub fn string_of(chars: &[char]) -> (r: String)
    ensures
        r@ == chars@,
{
    let mut out = String::new();
    let mut i: usize = 0;
    while i < chars.len()
        invariant
            i <= chars@.len(),
            out@ == chars@.take(i as int),
        decreases chars@.len() - i,
    {
        out.push(chars[i]);
        i += 1;
        assert(out@ == chars@.take(i as int));
    }
    assert(chars@.take(i as int) == chars@);
    out
}

/// Whether two strings hold the same text.
pub fn same_text(a: &str, b: &str) -> (r: bool)
    ensures
        r == (a@ == b@),
{
    let x = a.as_bytes();
    let y = b.as_bytes();
    proof {
        encode_utf8_decode_utf8(a@);
        encode_utf8_decode_utf8(b@);
    }
    if x.len() != y.len() {
        return false;
    }
    let mut i: usize = 0;
    while i < x.len()
        invariant
            i <= x@.len(),
            x@.len() == y@.len(),
            x@ == encode_utf8(a@),
            y@ == encode_utf8(b@),
            forall|j: int| 0 <= j < i ==> x@[j] == y@[j],
        decreases x@.len() - i,
    {
        if x[i] != y[i] {
            return false;
        }
        i += 1;
    }
    assert(x@ =~= y@);
    true
}

pub fn text_is_trimmed(s: &str) -> (r: bool)
    ensures
        r == is_trimmed(s@),
{
    let chars = chars_of(s);
    if chars.len() == 0 {
        return true;
    }
    !char_is_whitespace(chars[0]) && !char_is_whitespace(chars[chars.len() - 1])
}

pub fn has_control(s: &str) -> (r: bool)
    ensures
        r == any_control(s@),
{
    let chars = chars_of(s);
    let mut i: usize = 0;
    while i < chars.len()
        invariant
            i <= chars@.len(),
            chars@ == s@,
            forall|j: int| 0 <= j < i ==> !is_control(#[trigger] chars@[j]),
        decreases chars@.len() - i,
    {
        if char_is_control(chars[i]) {
            assert(is_control(s@[i as int]));
            return true;
        }
        i += 1;
    }
    false
}

pub fn has_whitespace(s: &str) -> (r: bool)
    ensures
        r == any_whitespace(s@),
{
    let chars = chars_of(s);
    let mut i: usize = 0;
    while i < chars.len()
        invariant
            i <= chars@.len(),
            chars@ == s@,
            forall|j: int| 0 <= j < i ==> !is_whitespace(#[trigger] chars@[j]),
        decreases chars@.len() - i,
    {
        if char_is_whitespace(chars[i]) {
            assert(is_whitespace(s@[i as int]));
            return true;
        }
        i += 1;
    }
    false
}

pub fn is_all_hex(s: &str) -> (r: bool)
    ensures
        r == all_hex(s@),
{
    let chars = chars_of(s);
    let mut i: usize = 0;
    while i < chars.len()
        invariant
            i <= chars@.len(),
            chars@ == s@,
            forall|j: int| 0 <= j < i ==> is_hex_digit(#[trigger] chars@[j]),
        decreases chars@.len() - i,
    {
        if !char_is_hex_digit(chars[i]) {
            assert(!is_hex_digit(s@[i as int]));
            return false;
        }
        i += 1;
    }
    true
}

/// Whether `chars` contains `c`.
pub open spec fn has_char(s: Seq<char>, c: char) -> bool {
    exists|i: int| 0 <= i < s.len() && #[trigger] s[i] == c
}

pub fn contains_char(s: &str, c: char) -> (r: bool)
    ensures
        r == has_char(s@, c),
{
    let chars = chars_of(s);
    let mut i: usize = 0;
    while i < chars.len()
        invariant
            i <= chars@.len(),
            chars@ == s@,
            forall|j: int| 0 <= j < i ==> #[trigger] chars@[j] != c,
        decreases chars@.len() - i,
    {
        if chars[i] == c {
            assert(s@[i as int] == c);
            return true;
        }
        i += 1;
    }
    false
}

// ---------------------------------------------------------------------------
// ASCII case
// ---------------------------------------------------------------------------

/// The lower-case form of an ASCII letter; every other character is itself.
pub open spec fn lower(c: char) -> char {
    if 'A' <= c && c <= 'Z' {
        ((c as u32) + 32) as char
    } else {
        c
    }
}

pub open spec fn lowercase(s: Seq<char>) -> Seq<char> {
    s.map_values(|c: char| lower(c))
}

pub fn to_lower(c: char) -> (r: char)
    ensures
        r == lower(c),
{
    if 'A' <= c && c <= 'Z' {
        let n: u8 = (c as u32) as u8;
        (n + 32) as char
    } else {
        c
    }
}

/// ASCII lower case, character by character.
pub fn to_lowercase(s: &str) -> (r: String)
    ensures
        r@ == lowercase(s@),
{
    let chars = chars_of(s);
    let mut out = String::new();
    let mut i: usize = 0;
    while i < chars.len()
        invariant
            i <= chars@.len(),
            chars@ == s@,
            out@ == lowercase(s@.take(i as int)),
        decreases chars@.len() - i,
    {
        out.push(to_lower(chars[i]));
        i += 1;
        assert(s@.take(i as int) == s@.take(i - 1).push(s@[i - 1]));
        assert(out@ == lowercase(s@.take(i as int)));
    }
    assert(s@.take(i as int) == s@);
    out
}

/// Lower case is its own lower case.
pub proof fn lemma_lowercase_idempotent(s: Seq<char>)
    ensures
        lowercase(lowercase(s)) == lowercase(s),
{
    assert forall|i: int| 0 <= i < s.len() implies lower(lower(s[i])) == lower(s[i]) by {}
    assert(lowercase(lowercase(s)) =~= lowercase(s));
}

/// Lower case keeps hexadecimal digits hexadecimal.
pub proof fn lemma_lowercase_hex(s: Seq<char>)
    ensures
        all_hex(s) ==> all_hex(lowercase(s)),
{
    if all_hex(s) {
        assert forall|i: int| 0 <= i < s.len() implies is_hex_digit(
            #[trigger] lowercase(s)[i],
        ) by {
            assert(is_hex_digit(s[i]));
        }
    }
}

// ---------------------------------------------------------------------------
// Splitting and prefixes
// ---------------------------------------------------------------------------

/// The pieces of `s` between occurrences of `sep`; there is always at least one.
pub open spec fn split(s: Seq<char>, sep: char) -> Seq<Seq<char>>
    decreases s.len(),
{
    if s.len() == 0 {
        seq![Seq::<char>::empty()]
    } else {
        let front = split(s.drop_last(), sep);
        if s.last() == sep {
            front.push(Seq::<char>::empty())
        } else {
            front.drop_last().push(front.last().push(s.last()))
        }
    }
}

pub proof fn lemma_split_nonempty(s: Seq<char>, sep: char)
    ensures
        split(s, sep).len() >= 1,
    decreases s.len(),
{
    if s.len() > 0 {
        lemma_split_nonempty(s.drop_last(), sep);
    }
}

/// The pieces of a string between occurrences of a separator.
pub fn split_text(s: &str, sep: char) -> (r: Vec<String>)
    ensures
        texts(r@) == split(s@, sep),
{
    let chars = chars_of(s);
    let mut out: Vec<String> = Vec::new();
    let mut current = String::new();
    let mut i: usize = 0;
    assert(texts(out@).push(current@) =~= split(s@.take(0), sep));
    while i < chars.len()
        invariant
            i <= chars@.len(),
            chars@ == s@,
            texts(out@).push(current@) == split(s@.take(i as int), sep),
        decreases chars@.len() - i,
    {
        let ghost before = split(s@.take(i as int), sep);
        proof {
            assert(s@.take(i + 1).drop_last() == s@.take(i as int));
            assert(s@.take(i + 1).last() == s@[i as int]);
            assert(before.drop_last() == texts(out@));
            assert(before.last() == current@);
        }
        if chars[i] == sep {
            let ghost prior = out@;
            out.push(current);
            current = String::new();
            proof {
                assert(texts(out@) =~= texts(prior).push(before.last()));
                assert(texts(out@) == before);
            }
        } else {
            current.push(chars[i]);
        }
        i += 1;
    }
    assert(s@.take(i as int) == s@);
    let ghost prior = out@;
    let ghost last = current@;
    out.push(current);
    assert(texts(out@) =~= texts(prior).push(last));
    out
}

/// `s` begins with `prefix`.
pub open spec fn starts_with(s: Seq<char>, prefix: Seq<char>) -> bool {
    prefix.len() <= s.len() && s.take(prefix.len() as int) == prefix
}

pub fn text_starts_with(s: &str, prefix: &str) -> (r: bool)
    ensures
        r == starts_with(s@, prefix@),
{
    let a = chars_of(s);
    let b = chars_of(prefix);
    if b.len() > a.len() {
        return false;
    }
    let mut i: usize = 0;
    while i < b.len()
        invariant
            i <= b@.len() <= a@.len(),
            a@ == s@,
            b@ == prefix@,
            forall|j: int| 0 <= j < i ==> a@[j] == b@[j],
        decreases b@.len() - i,
    {
        if a[i] != b[i] {
            assert(s@.take(prefix@.len() as int)[i as int] != prefix@[i as int]);
            return false;
        }
        i += 1;
    }
    assert(s@.take(prefix@.len() as int) =~= prefix@);
    true
}

/// `part` occurs somewhere inside `s`.
pub open spec fn has_infix(s: Seq<char>, part: Seq<char>) -> bool {
    exists|i: int| 0 <= i <= s.len() && #[trigger] starts_with(s.skip(i), part)
}

pub fn text_contains(s: &str, part: &str) -> (r: bool)
    ensures
        r == has_infix(s@, part@),
{
    let a = chars_of(s);
    let b = chars_of(part);
    let total: usize = a.len();
    let mut i: usize = 0;
    loop
        invariant
            i <= a@.len() == total,
            a@ == s@,
            b@ == part@,
            forall|k: int| 0 <= k < i ==> !#[trigger] starts_with(s@.skip(k), part@),
        decreases a@.len() - i,
    {
        if b.len() <= total - i {
            let mut j: usize = 0;
            while j < b.len() && a[i + j] == b[j]
                invariant
                    j <= b@.len(),
                    i + b@.len() <= a@.len() == total,
                    forall|k: int| 0 <= k < j ==> a@[i + k] == b@[k],
                decreases b@.len() - j,
            {
                j += 1;
            }
            if j == b.len() {
                assert(s@.skip(i as int).take(part@.len() as int) =~= part@);
                assert(starts_with(s@.skip(i as int), part@));
                return true;
            }
            assert(s@.skip(i as int).take(part@.len() as int)[j as int] != part@[j as int]);
        }
        assert(!starts_with(s@.skip(i as int), part@));
        if i == total {
            return false;
        }
        i += 1;
    }
}

// ---------------------------------------------------------------------------
// Trimming
// ---------------------------------------------------------------------------

/// `s` without its leading whitespace.
pub open spec fn trim_start(s: Seq<char>) -> Seq<char>
    decreases s.len(),
{
    if s.len() > 0 && is_whitespace(s[0]) {
        trim_start(s.drop_first())
    } else {
        s
    }
}

/// `s` without its trailing whitespace.
pub open spec fn trim_end(s: Seq<char>) -> Seq<char>
    decreases s.len(),
{
    if s.len() > 0 && is_whitespace(s.last()) {
        trim_end(s.drop_last())
    } else {
        s
    }
}

/// `s` without the whitespace at its two ends.
pub open spec fn trim(s: Seq<char>) -> Seq<char> {
    trim_end(trim_start(s))
}

/// A text that begins with something but whitespace keeps its beginning.
pub proof fn lemma_trim_keeps_start(s: Seq<char>)
    requires
        s.len() > 0,
        !is_whitespace(s[0]),
    ensures
        trim(s).len() > 0,
        trim_end(s).len() > 0,
    decreases s.len(),
{
    if is_whitespace(s.last()) {
        lemma_trim_keeps_start(s.drop_last());
    }
}

pub fn trim_text(s: &str) -> (r: String)
    ensures
        r@ == trim(s@),
{
    let chars = chars_of(s);
    let mut lo: usize = 0;
    assert(s@.skip(0) == s@);
    while lo < chars.len() && char_is_whitespace(chars[lo])
        invariant
            lo <= chars@.len(),
            chars@ == s@,
            trim_start(s@) == trim_start(s@.skip(lo as int)),
        decreases chars@.len() - lo,
    {
        assert(s@.skip(lo as int).drop_first() == s@.skip(lo + 1));
        lo += 1;
    }
    let mut hi: usize = chars.len();
    assert(s@.skip(lo as int) == s@.subrange(lo as int, hi as int));
    while lo < hi && char_is_whitespace(chars[hi - 1])
        invariant
            lo <= hi <= chars@.len(),
            chars@ == s@,
            trim(s@) == trim_end(s@.subrange(lo as int, hi as int)),
        decreases hi,
    {
        assert(s@.subrange(lo as int, hi as int).drop_last() == s@.subrange(lo as int, hi - 1));
        hi -= 1;
    }
    let mut out = String::new();
    let mut i: usize = lo;
    while i < hi
        invariant
            lo <= i <= hi <= chars@.len(),
            chars@ == s@,
            out@ == s@.subrange(lo as int, i as int),
        decreases hi - i,
    {
        out.push(chars[i]);
        i += 1;
        assert(out@ == s@.subrange(lo as int, i as int));
    }
    out
}

// ---------------------------------------------------------------------------
// Numerals
// ---------------------------------------------------------------------------

/// The character of a decimal digit.
pub open spec fn digit_char(d: nat) -> char {
    ('0' as u32 + d) as char
}

/// The decimal numeral of `n`, without leading zeros.
pub open spec fn decimal(n: nat) -> Seq<char>
    decreases n,
{
    if n < 10 {
        seq![digit_char(n)]
    } else {
        decimal(n / 10).push(digit_char(n % 10))
    }
}

/// The decimal numeral of an integer, with a leading `-` when it is negative.
pub open spec fn decimal_int(n: int) -> Seq<char> {
    if n < 0 {
        seq!['-'] + decimal((-n) as nat)
    } else {
        decimal(n as nat)
    }
}

pub fn decimal_text(n: u64) -> (r: String)
    ensures
        r@ == decimal(n as nat),
{
    decimal_wide_text(n as u128)
}

pub fn decimal_wide_text(n: u128) -> (r: String)
    ensures
        r@ == decimal(n as nat),
    decreases n,
{
    if n < 10 {
        let mut out = String::new();
        out.push((48 + n as u8) as char);
        assert(out@ =~= seq![digit_char(n as nat)]);
        out
    } else {
        let mut out = decimal_wide_text(n / 10);
        out.push((48 + (n % 10) as u8) as char);
        out
    }
}

pub fn decimal_int_text(n: i64) -> (r: String)
    ensures
        r@ == decimal_int(n as int),
{
    if n < 0 {
        let mut out = String::new();
        out.push('-');
        let magnitude: u64 = if n == i64::MIN {
            0x8000_0000_0000_0000
        } else {
            (-n) as u64
        };
        out.append(decimal_text(magnitude).as_str());
        assert(out@ =~= seq!['-'] + decimal((-n) as nat));
        out
    } else {
        decimal_text(n as u64)
    }
}

/// The lower-case hexadecimal digit of a value below sixteen.
pub open spec fn hex_char(d: u8) -> char {
    if d < 10 {
        ('0' as u32 + d) as char
    } else {
        ('a' as u32 + (d - 10)) as char
    }
}

/// Two lower-case hexadecimal digits for each byte.
pub open spec fn hex(bytes: Seq<u8>) -> Seq<char> {
    Seq::new(
        2 * bytes.len(),
        |i: int|
            if i % 2 == 0 {
                hex_char(bytes[i / 2] / 16)
            } else {
                hex_char(bytes[i / 2] % 16)
            },
    )
}

pub fn hex_digit(d: u8) -> (r: char)
    requires
        d < 16,
    ensures
        r == hex_char(d),
        is_hex_digit(r),
{
    if d < 10 {
        (48 + d) as char
    } else {
        (97 + (d - 10)) as char
    }
}

pub fn hex_text(bytes: &[u8]) -> (r: String)
    ensures
        r@ == hex(bytes@),
{
    let mut out = String::new();
    let mut i: usize = 0;
    while i < bytes.len()
        invariant
            i <= bytes@.len(),
            out@ == hex(bytes@.take(i as int)),
        decreases bytes@.len() - i,
    {
        let b: u8 = bytes[i];
        out.push(hex_digit(b / 16));
        out.push(hex_digit(b % 16));
        i += 1;
        assert(out@ =~= hex(bytes@.take(i as int)));
    }
    assert(bytes@.take(i as int) == bytes@);
    out
}

// ---------------------------------------------------------------------------
// Concatenation
// ---------------------------------------------------------------------------

/// The texts in order, with `sep` between neighbours.
pub open spec fn join(parts: Seq<Seq<char>>, sep: Seq<char>) -> Seq<char>
    decreases parts.len(),
{
    if parts.len() == 0 {
        Seq::empty()
    } else if parts.len() == 1 {
        parts[0]
    } else {
        join(parts.drop_last(), sep) + sep + parts.last()
    }
}

pub fn join_text(parts: &[String], sep: &str) -> (r: String)
    ensures
        r@ == join(texts(parts@), sep@),
{
    let mut out = String::new();
    let mut i: usize = 0;
    while i < parts.len()
        invariant
            i <= parts@.len(),
            out@ == join(texts(parts@.take(i as int)), sep@),
        decreases parts@.len() - i,
    {
        if i > 0 {
            out.append(sep);
        }
        out.append(parts[i].as_str());
        i += 1;
        proof {
            let now = texts(parts@.take(i as int));
            assert(now.drop_last() =~= texts(parts@.take(i - 1)));
            assert(now.last() == parts@[i - 1]@);
            assert(out@ =~= join(now, sep@));
        }
    }
    assert(parts@.take(i as int) == parts@);
    out
}

/// Whether one of the strings holds the given text.
pub fn contains_text(items: &[String], wanted: &str) -> (r: bool)
    ensures
        r == texts(items@).contains(wanted@),
{
    let mut i: usize = 0;
    while i < items.len()
        invariant
            i <= items@.len(),
            forall|j: int| 0 <= j < i ==> texts(items@)[j] != wanted@,
        decreases items@.len() - i,
    {
        if same_text(items[i].as_str(), wanted) {
            assert(texts(items@)[i as int] == wanted@);
            return true;
        }
        i += 1;
    }
    false
}

/// A copy of a list of strings.
pub fn clone_texts(items: &[String]) -> (r: Vec<String>)
    ensures
        r@ == items@,
{
    let mut out: Vec<String> = Vec::new();
    let mut i: usize = 0;
    while i < items.len()
        invariant
            i <= items@.len(),
            out@ == items@.take(i as int),
        decreases items@.len() - i,
    {
        out.push(items[i].clone());
        i += 1;
        assert(out@ =~= items@.take(i as int));
    }
    assert(items@.take(i as int) == items@);
    out
}

/// The first text that occurred before.
pub open spec fn repeated_text(items: Seq<Seq<char>>) -> Option<Seq<char>>
    decreases items.len(),
{
    if items.len() == 0 {
        None
    } else {
        match repeated_text(items.drop_last()) {
            Some(p) => Some(p),
            None => if items.drop_last().contains(items.last()) {
                Some(items.last())
            } else {
                None
            },
        }
    }
}

/// The position of the first text that occurred before.
pub fn find_repeated_text(items: &[String]) -> (r: Option<usize>)
    ensures
        match r {
            Some(k) => k < items@.len() && repeated_text(texts(items@)) == Some(items@[k as int]@),
            None => repeated_text(texts(items@)) is None,
        },
{
    let ghost all = texts(items@);
    let mut i: usize = 0;
    assert(all.take(0).len() == 0);
    while i < items.len()
        invariant
            i <= items@.len(),
            all == texts(items@),
            repeated_text(all.take(i as int)) is None,
        decreases items@.len() - i,
    {
        let ghost front = all.take(i as int);
        let mut j: usize = 0;
        while j < i
            invariant
                j <= i,
                i < items@.len(),
                all == texts(items@),
                front == all.take(i as int),
                repeated_text(front) is None,
                forall|k: int| 0 <= k < j ==> front[k] != all[i as int],
            decreases i - j,
        {
            if same_text(items[j].as_str(), items[i].as_str()) {
                proof {
                    assert(front[j as int] == all[i as int]);
                    assert(all.take(i + 1).drop_last() =~= front);
                    assert(all.take(i + 1).last() == all[i as int]);
                    lemma_repeated_extends(all, i + 1);
                }
                return Some(i);
            }
            j += 1;
        }
        proof {
            assert(all.take(i + 1).drop_last() =~= front);
            assert(all.take(i + 1).last() == all[i as int]);
            if front.contains(all[i as int]) {
                let k = choose|k: int| 0 <= k < front.len() && front[k] == all[i as int];
                assert(front[k] != all[i as int]);
            }
        }
        i += 1;
    }
    assert(all.take(i as int) =~= all);
    None
}

/// A repetition in the front is the first one of the whole.
proof fn lemma_repeated_extends(items: Seq<Seq<char>>, n: int)
    requires
        0 <= n <= items.len(),
        repeated_text(items.take(n)) is Some,
    ensures
        repeated_text(items) == repeated_text(items.take(n)),
    decreases items.len() - n,
{
    if n < items.len() {
        assert(items.take(n + 1).drop_last() =~= items.take(n));
        lemma_repeated_extends(items, n + 1);
    } else {
        assert(items.take(n) =~= items);
    }
}

/// Without repetition, the texts differ.
pub proof fn lemma_no_repetition(items: Seq<Seq<char>>)
    requires
        repeated_text(items) is None,
    ensures
        forall|i: int, j: int| #![trigger items[i], items[j]] 0 <= i < j < items.len() ==> items[i] != items[j],
    decreases items.len(),
{
    if items.len() > 0 {
        let front = items.drop_last();
        lemma_no_repetition(front);
        assert forall|i: int, j: int| #![trigger items[i], items[j]] 0 <= i < j < items.len() implies items[i] != items[j] by {
            assert(front[i] == items[i]);
            if j < front.len() {
                assert(front[j] == items[j]);
            } else {
                assert(front.contains(front[i]));
            }
        }
    }
}

pub proof fn lemma_repetition_of_tail(items: Seq<Seq<char>>)
    requires
        repeated_text(items) is None,
        items.len() > 0,
    ensures
        repeated_text(items.drop_first()) is None,
    decreases items.len(),
{
    let tail = items.drop_first();
    if tail.len() > 0 {
        let front = items.drop_last();
        assert(tail.drop_last() =~= front.drop_first());
        lemma_repetition_of_tail(front);
        if tail.drop_last().contains(tail.last()) {
            let j = choose|j: int| 0 <= j < tail.drop_last().len() && tail.drop_last()[j] == tail.last();
            assert(front[j + 1] == items.last());
        }
    }
}

/// The first `n` characters, or all where there are fewer.
pub open spec fn first_of(s: Seq<char>, n: nat) -> Seq<char> {
    if n <= s.len() {
        s.take(n as int)
    } else {
        s
    }
}

/// A text of at most `n` bytes, or one with a character boundary behind its first `n`.
pub open spec fn has_cut(s: Seq<char>, n: nat) -> bool {
    encode_utf8(s).len() <= n || is_char_boundary(encode_utf8(s), n as int)
}

/// The first `n` bytes of a text, or the whole text.
pub open spec fn first_bytes_of(s: Seq<char>, n: nat) -> Seq<char> {
    if encode_utf8(s).len() <= n {
        s
    } else {
        decode_utf8(encode_utf8(s).take(n as int))
    }
}

pub fn first_bytes(s: &str, n: usize) -> (r: String)
    requires
        has_cut(s@, n as nat),
    ensures
        r@ == first_bytes_of(s@, n as nat),
{
    if s.as_bytes().len() <= n {
        s.to_owned()
    } else {
        let (head, _) = s.split_at(n);
        proof {
            encode_utf8_decode_utf8(head@);
            assert(encode_utf8(s@).take(n as int) =~= encode_utf8(s@).subrange(0, n as int));
            assert(encode_utf8(head@) == encode_utf8(s@).take(n as int));
        }
        head.to_owned()
    }
}

pub fn first_chars(s: &str, n: usize) -> (r: String)
    ensures
        r@ == first_of(s@, n as nat),
{
    let chars = chars_of(s);
    let mut out = String::new();
    let mut i: usize = 0;
    while i < n && i < chars.len()
        invariant
            i <= n,
            i <= chars@.len(),
            chars@ == s@,
            out@ == s@.take(i as int),
        decreases n - i,
    {
        out.push(chars[i]);
        i += 1;
        assert(out@ =~= s@.take(i as int));
    }
    assert(out@ =~= first_of(s@, n as nat));
    out
}

/// At most `n` texts from the front.
pub open spec fn at_most(items: Seq<Seq<char>>, n: nat) -> Seq<Seq<char>> {
    if n <= items.len() {
        items.take(n as int)
    } else {
        items
    }
}

/// The trimmed lines that are not empty.
pub open spec fn filled_lines(lines: Seq<Seq<char>>) -> Seq<Seq<char>>
    decreases lines.len(),
{
    if lines.len() == 0 {
        Seq::empty()
    } else if trim(lines.last()).len() > 0 {
        filled_lines(lines.drop_last()).push(trim(lines.last()))
    } else {
        filled_lines(lines.drop_last())
    }
}

/// The parts between separators that hold something, trimmed.
pub fn nonempty_parts(s: &str, sep: char) -> (r: Vec<String>)
    ensures
        texts(r@) == filled_lines(split(s@, sep)),
{
    let parts = split_text(s, sep);
    let ghost all = texts(parts@);
    let mut out: Vec<String> = Vec::new();
    let mut i: usize = 0;
    assert(texts(out@) =~= filled_lines(all.take(0)));
    while i < parts.len()
        invariant
            i <= parts@.len(),
            all == texts(parts@),
            texts(out@) == filled_lines(all.take(i as int)),
        decreases parts@.len() - i,
    {
        broadcast use lemma_texts_push;
        proof {
            assert(all.take(i + 1).drop_last() =~= all.take(i as int));
            assert(all.take(i + 1).last() == parts@[i as int]@);
        }
        let part = trim_text(parts[i].as_str());
        if !part.as_str().is_empty() {
            out.push(part);
        }
        i += 1;
    }
    assert(all.take(i as int) =~= all);
    out
}

/// The lines that hold something, trimmed.
pub fn nonempty_lines(s: &str) -> (r: Vec<String>)
    ensures
        texts(r@) == filled_lines(split(s@, '\n')),
{
    nonempty_parts(s, '\n')
}

/// The words of a text so far, and the word under way.
pub open spec fn word_scan(s: Seq<char>) -> (Seq<Seq<char>>, Seq<char>)
    decreases s.len(),
{
    if s.len() == 0 {
        (Seq::empty(), Seq::empty())
    } else {
        let (done, word) = word_scan(s.drop_last());
        if !is_whitespace(s.last()) {
            (done, word.push(s.last()))
        } else if word.len() == 0 {
            (done, word)
        } else {
            (done.push(word), Seq::empty())
        }
    }
}

/// The words of a text: the longest runs without whitespace.
pub open spec fn words(s: Seq<char>) -> Seq<Seq<char>> {
    let (done, word) = word_scan(s);
    if word.len() == 0 {
        done
    } else {
        done.push(word)
    }
}

/// The words of a text.
pub fn split_words(s: &str) -> (r: Vec<String>)
    ensures
        texts(r@) == words(s@),
{
    let chars = chars_of(s);
    let mut done: Vec<String> = Vec::new();
    let mut word: Vec<char> = Vec::new();
    let mut i: usize = 0;
    assert(texts(done@) =~= Seq::empty());
    while i < chars.len()
        invariant
            i <= chars@.len(),
            chars@ == s@,
            word_scan(s@.take(i as int)) == (texts(done@), word@),
        decreases chars@.len() - i,
    {
        broadcast use lemma_texts_push;
        proof {
            assert(s@.take(i + 1).drop_last() =~= s@.take(i as int));
            assert(s@.take(i + 1).last() == s@[i as int]);
        }
        let c: char = chars[i];
        if !char_is_whitespace(c) {
            word.push(c);
        } else if word.len() > 0 {
            done.push(string_of(word.as_slice()));
            word = Vec::new();
            assert(word@ =~= Seq::empty());
        }
        i += 1;
    }
    assert(s@.take(i as int) =~= s@);
    if word.len() > 0 {
        broadcast use lemma_texts_push;
        done.push(string_of(word.as_slice()));
    }
    done
}

/// The parts before and behind the first separator.
pub open spec fn split_once(s: Seq<char>, sep: char) -> Option<(Seq<char>, Seq<char>)>
    decreases s.len(),
{
    if s.len() == 0 {
        None
    } else if s[0] == sep {
        Some((Seq::empty(), s.drop_first()))
    } else {
        match split_once(s.drop_first(), sep) {
            Some((before, behind)) => Some((seq![s[0]] + before, behind)),
            None => None,
        }
    }
}

proof fn lemma_split_once_at(s: Seq<char>, sep: char, i: int)
    requires
        0 <= i < s.len(),
        s[i] == sep,
        forall|j: int| 0 <= j < i ==> #[trigger] s[j] != sep,
    ensures
        split_once(s, sep) == Some((s.take(i), s.skip(i + 1))),
    decreases s.len(),
{
    if i == 0 {
        assert(s.take(0) =~= Seq::empty());
        assert(s.drop_first() =~= s.skip(1));
    } else {
        let t = s.drop_first();
        assert(s[0] != sep);
        assert forall|j: int| 0 <= j < i - 1 implies #[trigger] t[j] != sep by {
            assert(t[j] == s[j + 1]);
        }
        lemma_split_once_at(t, sep, i - 1);
        assert(seq![s[0]] + t.take(i - 1) =~= s.take(i));
        assert(t.skip(i) =~= s.skip(i + 1));
    }
}

proof fn lemma_split_once_absent(s: Seq<char>, sep: char)
    requires
        forall|j: int| 0 <= j < s.len() ==> #[trigger] s[j] != sep,
    ensures
        split_once(s, sep) is None,
    decreases s.len(),
{
    if s.len() > 0 {
        let t = s.drop_first();
        assert(s[0] != sep);
        assert forall|j: int| 0 <= j < t.len() implies #[trigger] t[j] != sep by {
            assert(t[j] == s[j + 1]);
        }
        lemma_split_once_absent(t, sep);
    }
}

/// Parts a text at the first separator.
pub fn split_text_once(s: &str, sep: char) -> (r: Option<(String, String)>)
    ensures
        match r {
            Some((before, behind)) => split_once(s@, sep) == Some((before@, behind@)),
            None => split_once(s@, sep) is None,
        },
{
    let chars = chars_of(s);
    let mut before: Vec<char> = Vec::new();
    let mut i: usize = 0;
    while i < chars.len() && chars[i] != sep
        invariant
            i <= chars@.len(),
            chars@ == s@,
            before@ == s@.take(i as int),
            forall|j: int| 0 <= j < i ==> #[trigger] s@[j] != sep,
        decreases chars@.len() - i,
    {
        before.push(chars[i]);
        i += 1;
        assert(before@ =~= s@.take(i as int));
    }
    if i == chars.len() {
        proof {
            lemma_split_once_absent(s@, sep);
        }
        return None;
    }
    let ghost at = i as int;
    let mut behind: Vec<char> = Vec::new();
    let mut k: usize = i + 1;
    while k < chars.len()
        invariant
            0 <= at < k <= chars@.len(),
            chars@ == s@,
            behind@ == s@.subrange(at + 1, k as int),
        decreases chars@.len() - k,
    {
        behind.push(chars[k]);
        k += 1;
        assert(behind@ =~= s@.subrange(at + 1, k as int));
    }
    proof {
        lemma_split_once_at(s@, sep, at);
        assert(behind@ =~= s@.skip(at + 1));
    }
    Some((string_of(before.as_slice()), string_of(behind.as_slice())))
}

// ---------------------------------------------------------------------------
// Forms for diagnosis
// ---------------------------------------------------------------------------

/// A text in double quotes with its escapes, by the `Debug` form of the standard library.
pub uninterp spec fn debug_quoted(s: Seq<char>) -> Seq<char>;

/// Calls the `Debug` form of `str`. The result is only named: which characters are
/// escaped follows from tables of the Unicode standard.
#[verifier::external_body]
pub(crate) fn quote(s: &str) -> (r: String)
    ensures
        r@ == debug_quoted(s@),
{
    format!("{:?}", s)
}

/// A name with a value in parentheses.
pub open spec fn tuple_form(name: Seq<char>, value: Seq<char>) -> Seq<char> {
    name + "("@ + value + ")"@
}

/// A name with two named values in braces.
pub open spec fn pair_form(name: Seq<char>, a: Seq<char>, x: Seq<char>, b: Seq<char>, y: Seq<char>) -> Seq<char> {
    name + " { "@ + a + ": "@ + x + ", "@ + b + ": "@ + y + " }"@
}

/// A name with three named values in braces.
pub open spec fn triple_form(
    name: Seq<char>,
    a: Seq<char>,
    x: Seq<char>,
    b: Seq<char>,
    y: Seq<char>,
    c: Seq<char>,
    z: Seq<char>,
) -> Seq<char> {
    name + " { "@ + a + ": "@ + x + ", "@ + b + ": "@ + y + ", "@ + c + ": "@ + z + " }"@
}

pub fn tuple_text(name: &str, value: &str) -> (r: String)
    ensures
        r@ == tuple_form(name@, value@),
{
    let mut out = name.to_owned();
    out.append("(");
    out.append(value);
    out.append(")");
    out
}

pub fn pair_text(name: &str, a: &str, x: &str, b: &str, y: &str) -> (r: String)
    ensures
        r@ == pair_form(name@, a@, x@, b@, y@),
{
    let mut out = name.to_owned();
    out.append(" { ");
    out.append(a);
    out.append(": ");
    out.append(x);
    out.append(", ");
    out.append(b);
    out.append(": ");
    out.append(y);
    out.append(" }");
    out
}

pub fn triple_text(name: &str, a: &str, x: &str, b: &str, y: &str, c: &str, z: &str) -> (r: String)
    ensures
        r@ == triple_form(name@, a@, x@, b@, y@, c@, z@),
{
    let mut out = name.to_owned();
    out.append(" { ");
    out.append(a);
    out.append(": ");
    out.append(x);
    out.append(", ");
    out.append(b);
    out.append(": ");
    out.append(y);
    out.append(", ");
    out.append(c);
    out.append(": ");
    out.append(z);
    out.append(" }");
    out
}

// ---------------------------------------------------------------------------
// Laws
// ---------------------------------------------------------------------------

/// A repeated text is reported exactly where the texts are not distinct: it is the first
/// one that equals an earlier one.
pub proof fn law_repeated_text(items: Seq<Seq<char>>)
    ensures
        repeated_text(items) is None <==> items.no_duplicates(),
        repeated_text(items) matches Some(t) ==> exists|i: int, j: int|
            0 <= i < j < items.len() && #[trigger] items[i] == t && #[trigger] items[j] == t && items.take(j).no_duplicates(),
    decreases items.len(),
{
    if items.len() > 0 {
        let front = items.drop_last();
        let n = items.len() - 1;
        law_repeated_text(front);
        assert(forall|i: int| 0 <= i < n ==> #[trigger] front[i] == items[i]);
        match repeated_text(front) {
            Some(t) => {
                let (i, j) = choose|i: int, j: int|
                    0 <= i < j < front.len() && #[trigger] front[i] == t && #[trigger] front[j] == t && front.take(
                        j,
                    ).no_duplicates();
                assert(items[i] == t && items[j] == t);
                assert(items.take(j) =~= front.take(j));
            },
            None => {
                if front.contains(items.last()) {
                    let i = choose|i: int| 0 <= i < front.len() && front[i] == items.last();
                    assert(items[i] == items.last() && items[n] == items.last());
                    assert(items.take(n) =~= front);
                } else {
                    assert forall|i: int, j: int| 0 <= i < items.len() && 0 <= j < items.len() && i != j implies items[i]
                        != items[j] by {
                        if i < n && j < n {
                            assert(front[i] != front[j]);
                        } else if i < n {
                            assert(front.contains(front[i]));
                        } else {
                            assert(front.contains(front[j]));
                        }
                    }
                }
            },
        }
    }
}

/// A prefix is what a text begins with, and an infix what lies somewhere in it.
pub proof fn law_prefix_and_infix(s: Seq<char>, part: Seq<char>)
    ensures
        starts_with(s, part) <==> exists|rest: Seq<char>| s == #[trigger] (part + rest),
        has_infix(s, part) <==> exists|before: Seq<char>, behind: Seq<char>| s == #[trigger] (before + part + behind),
{
    if starts_with(s, part) {
        assert(s =~= part + s.skip(part.len() as int));
    }
    if exists|rest: Seq<char>| s == #[trigger] (part + rest) {
        let rest = choose|rest: Seq<char>| s == #[trigger] (part + rest);
        assert(s.take(part.len() as int) =~= part);
    }
    if has_infix(s, part) {
        let i = choose|i: int| 0 <= i <= s.len() && #[trigger] starts_with(s.skip(i), part);
        let behind = s.skip(i + part.len());
        assert(s.skip(i).take(part.len() as int) == part);
        assert forall|j: int| 0 <= j < s.len() implies s[j] == (s.take(i) + part + behind)[j] by {
            if i <= j < i + part.len() {
                assert(s.skip(i).take(part.len() as int)[j - i] == s[j]);
            }
        }
        assert(s =~= s.take(i) + part + behind);
    }
    if exists|before: Seq<char>, behind: Seq<char>| s == #[trigger] (before + part + behind) {
        let (before, behind) = choose|before: Seq<char>, behind: Seq<char>| s == #[trigger] (before + part + behind);
        assert(s.skip(before.len() as int).take(part.len() as int) =~= part);
        assert(starts_with(s.skip(before.len() as int), part));
    }
}

/// Splitting goes piece by piece: a text without the separator is its only piece, and the
/// pieces of two texts with a separator between them are those of both.
pub proof fn law_split_by_pieces(a: Seq<char>, b: Seq<char>, sep: char)
    ensures
        !has_char(a, sep) ==> split(a, sep) == seq![a],
        split(a + seq![sep] + b, sep) == split(a, sep) + split(b, sep),
        split(a, sep).len() > 0,
    decreases a.len() + b.len(),
{
    if a.len() > 0 {
        law_split_by_pieces(a.drop_last(), Seq::empty(), sep);
        if !has_char(a, sep) {
            assert(a[a.len() - 1] != sep);
            assert forall|i: int| 0 <= i < a.drop_last().len() implies a.drop_last()[i] != sep by {
                assert(a[i] != sep);
            }
            assert(!has_char(a.drop_last(), sep));
            assert(a.drop_last().push(a.last()) =~= a);
            assert(split(a, sep) =~= seq![a]);
        }
    } else {
        assert(a =~= Seq::empty());
    }
    let whole = a + seq![sep] + b;
    if b.len() == 0 {
        assert(whole.drop_last() =~= a);
        assert(whole.last() == sep);
        assert(b =~= Seq::empty());
        assert(split(b, sep) =~= seq![Seq::<char>::empty()]);
        assert(split(whole, sep) =~= split(a, sep) + split(b, sep));
    } else {
        let c = b.drop_last();
        law_split_by_pieces(a, c, sep);
        lemma_split_has_pieces(c, sep);
        assert(whole.drop_last() =~= a + seq![sep] + c);
        assert(whole.last() == b.last());
        let front = split(a + seq![sep] + c, sep);
        assert(front.last() == split(c, sep).last());
        assert(split(whole, sep) =~= split(a, sep) + split(b, sep));
    }
}

proof fn lemma_split_has_pieces(s: Seq<char>, sep: char)
    ensures
        split(s, sep).len() > 0,
    decreases s.len(),
{
    if s.len() > 0 {
        lemma_split_has_pieces(s.drop_last(), sep);
    }
}

/// Joining is taken apart by splitting: the pieces of a text, joined by the separator, are
/// the text, and no piece holds the separator.
pub proof fn law_join_inverts_split(s: Seq<char>, sep: char)
    ensures
        join(split(s, sep), seq![sep]) == s,
        forall|i: int| 0 <= i < split(s, sep).len() ==> !has_char(#[trigger] split(s, sep)[i], sep),
    decreases s.len(),
{
    lemma_split_has_pieces(s, sep);
    let all = split(s, sep);
    if s.len() > 0 {
        let front = split(s.drop_last(), sep);
        law_join_inverts_split(s.drop_last(), sep);
        lemma_split_has_pieces(s.drop_last(), sep);
        assert(s =~= s.drop_last().push(s.last()));
        if s.last() == sep {
            assert(all.drop_last() =~= front);
            assert(join(all, seq![sep]) =~= s);
        } else {
            let n = front.len() - 1;
            assert(all.last() == front.last().push(s.last()));
            if front.len() == 1 {
                assert(join(all, seq![sep]) =~= s);
            } else {
                assert(all.drop_last() =~= front.drop_last());
                assert(join(all, seq![sep]) =~= s);
            }
            assert forall|i: int| 0 <= i < all.len() implies !has_char(#[trigger] all[i], sep) by {
                if i < n {
                    assert(all[i] == front[i]);
                } else {
                    assert(!has_char(front[n], sep));
                    assert forall|j: int| 0 <= j < all[i].len() implies all[i][j] != sep by {
                        if j < front[n].len() {
                            assert(front[n][j] != sep);
                        }
                    }
                }
            }
        }
    } else {
        assert(all =~= seq![Seq::<char>::empty()]);
        assert(s =~= Seq::empty());
    }
}

/// Joining puts the separator between two lists of pieces.
pub proof fn law_join_puts_separators(parts: Seq<Seq<char>>, part: Seq<char>, sep: Seq<char>)
    ensures
        join(Seq::empty(), sep) == Seq::<char>::empty(),
        join(seq![part], sep) == part,
        parts.len() > 0 ==> join(parts.push(part), sep) == join(parts, sep) + sep + part,
{
    assert(parts.push(part).drop_last() =~= parts);
}

/// Trimming takes whitespace from both ends and nothing else: what is left begins and ends
/// with no whitespace, and what was taken is whitespace only.
pub proof fn law_trim_takes_outer_whitespace(s: Seq<char>)
    ensures
        is_trimmed(trim(s)),
        exists|before: Seq<char>, behind: Seq<char>|
            s == #[trigger] (before + trim(s) + behind) && (forall|i: int|
                0 <= i < before.len() ==> is_whitespace(#[trigger] before[i])) && forall|i: int|
                0 <= i < behind.len() ==> is_whitespace(#[trigger] behind[i]),
        is_trimmed(s) <==> trim(s) == s,
{
    lemma_trim_start(s);
    let rest = trim_start(s);
    lemma_trim_end(rest);
    let before = s.take(s.len() - rest.len());
    let behind = rest.skip(trim(s).len() as int);
    assert(s =~= before + trim(s) + behind);
    if trim(s).len() > 0 {
        assert(trim(s)[0] == rest[0]);
    }
    if is_trimmed(s) {
        assert(rest =~= s);
    }
}

proof fn lemma_trim_start(s: Seq<char>)
    ensures
        trim_start(s).len() <= s.len(),
        s.skip(s.len() - trim_start(s).len()) == trim_start(s),
        forall|i: int| 0 <= i < s.len() - trim_start(s).len() ==> is_whitespace(#[trigger] s[i]),
        trim_start(s).len() > 0 ==> !is_whitespace(trim_start(s)[0]),
    decreases s.len(),
{
    if s.len() > 0 && is_whitespace(s[0]) {
        let t = s.drop_first();
        lemma_trim_start(t);
        assert(s.skip(s.len() - trim_start(s).len()) =~= t.skip(t.len() - trim_start(t).len()));
        assert forall|i: int| 0 <= i < s.len() - trim_start(s).len() implies is_whitespace(#[trigger] s[i]) by {
            if i > 0 {
                assert(is_whitespace(t[i - 1]));
            }
        }
    } else {
        assert(s.skip(0) =~= s);
    }
}

proof fn lemma_trim_end(s: Seq<char>)
    ensures
        trim_end(s).len() <= s.len(),
        s.take(trim_end(s).len() as int) == trim_end(s),
        forall|i: int| trim_end(s).len() <= i < s.len() ==> is_whitespace(#[trigger] s[i]),
        trim_end(s).len() > 0 ==> !is_whitespace(trim_end(s).last()),
    decreases s.len(),
{
    if s.len() > 0 && is_whitespace(s.last()) {
        let t = s.drop_last();
        lemma_trim_end(t);
        assert(s.take(trim_end(s).len() as int) =~= t.take(trim_end(t).len() as int));
        assert forall|i: int| trim_end(s).len() <= i < s.len() implies is_whitespace(#[trigger] s[i]) by {
            if i < t.len() {
                assert(is_whitespace(t[i]));
            }
        }
    } else {
        assert(s.take(s.len() as int) =~= s);
    }
}

/// The classes of characters, by their numbers.
pub proof fn law_classes_of_characters(c: char)
    ensures
        ({
            let n = c as u32;
            &&& is_digit(c) <==> 48 <= n <= 57
            &&& is_ascii_letter(c) <==> 65 <= n <= 90 || 97 <= n <= 122
            &&& is_ascii_alphanumeric(c) <==> 48 <= n <= 57 || 65 <= n <= 90 || 97 <= n <= 122
            &&& is_hex_digit(c) <==> 48 <= n <= 57 || 65 <= n <= 70 || 97 <= n <= 102
            &&& is_control(c) <==> n < 32 || 127 <= n < 160
            &&& is_whitespace(c) && n < 128 <==> 9 <= n <= 13 || n == 32
            &&& is_whitespace(c) && n >= 128 <==> n == 133 || n == 160 || n == 5760 || 8192 <= n <= 8202 || n == 8232 || n
                == 8233 || n == 8239 || n == 8287 || n == 12288
            &&& lower(c) as u32 == if 65 <= n <= 90 {
                n + 32
            } else {
                n as int
            }
        }),
{
}

/// The number that a list of decimal digits writes.
pub open spec fn written(s: Seq<char>) -> nat
    decreases s.len(),
{
    if s.len() == 0 {
        0
    } else {
        (written(s.drop_last()) * 10 + (s.last() as u32 - 48)) as nat
    }
}

/// The decimal form of a number is made of digits, writes the number, and has no leading
/// zero.
pub proof fn law_decimal_writes_the_number(n: nat)
    ensures
        written(decimal(n)) == n,
        decimal(n).len() > 0,
        forall|i: int| 0 <= i < decimal(n).len() ==> 48 <= (#[trigger] decimal(n)[i]) as u32 <= 57,
        decimal(n).len() > 1 ==> decimal(n)[0] as u32 != 48,
        n > 0 ==> decimal(n)[0] as u32 != 48,
    decreases n,
{
    if n < 10 {
        let s = decimal(n);
        assert(s.drop_last().len() == 0);
        assert(written(s.drop_last()) == 0);
    } else {
        law_decimal_writes_the_number(n / 10);
        assert(decimal(n).drop_last() =~= decimal(n / 10));
        assert(decimal(n)[0] == decimal(n / 10)[0]);
    }
}

/// The hexadecimal form has two digits for each byte, the high one first, and so differs
/// for different bytes.
pub proof fn law_hex_writes_the_bytes(bytes: Seq<u8>, other: Seq<u8>)
    ensures
        hex(bytes).len() == 2 * bytes.len(),
        forall|i: int|
            0 <= i < bytes.len() ==> (#[trigger] bytes[i]) as int == 16 * hex_value(hex(bytes)[2 * i]) + hex_value(
                hex(bytes)[2 * i + 1],
            ),
        hex(bytes) == hex(other) ==> bytes == other,
{
    assert forall|i: int| 0 <= i < bytes.len() implies (#[trigger] bytes[i]) as int == 16 * hex_value(hex(bytes)[2 * i])
        + hex_value(hex(bytes)[2 * i + 1]) by {
        lemma_hex_at(bytes, i);
    }
    if hex(bytes) == hex(other) {
        assert(hex(bytes).len() == hex(other).len());
        assert forall|i: int| 0 <= i < bytes.len() implies bytes[i] == other[i] by {
            lemma_hex_at(bytes, i);
            lemma_hex_at(other, i);
        }
        assert(bytes =~= other);
    }
}

/// The value of a hexadecimal digit.
pub open spec fn hex_value(c: char) -> int {
    if 48 <= c as u32 <= 57 {
        c as u32 - 48
    } else {
        c as u32 - 87
    }
}

proof fn lemma_hex_at(bytes: Seq<u8>, i: int)
    requires
        0 <= i < bytes.len(),
    ensures
        bytes[i] as int == 16 * hex_value(hex(bytes)[2 * i]) + hex_value(hex(bytes)[2 * i + 1]),
{
    assert((2 * i) % 2 == 0 && (2 * i) / 2 == i);
    assert((2 * i + 1) % 2 == 1 && (2 * i + 1) / 2 == i);
    let b = bytes[i];
    assert(b == 16 * (b / 16) + b % 16);
}

/// A text is taken apart at the first separator, and at none where it has none.
pub proof fn law_split_once_at_the_first(s: Seq<char>, sep: char)
    ensures
        match split_once(s, sep) {
            Some((before, behind)) => s == before + seq![sep] + behind && !has_char(before, sep),
            None => !has_char(s, sep),
        },
    decreases s.len(),
{
    if s.len() > 0 && s[0] != sep {
        let t = s.drop_first();
        law_split_once_at_the_first(t, sep);
        match split_once(t, sep) {
            Some((before, behind)) => {
                assert(s =~= seq![s[0]] + t);
                assert(s =~= seq![s[0]] + before + seq![sep] + behind);
                assert forall|i: int| 0 <= i < before.len() + 1 implies (seq![s[0]] + before)[i] != sep by {
                    if i > 0 {
                        assert(before[i - 1] != sep);
                    }
                }
            },
            None => {
                assert forall|i: int| 0 <= i < s.len() implies s[i] != sep by {
                    if i > 0 {
                        assert(t[i - 1] != sep);
                    }
                }
            },
        }
    } else if s.len() > 0 {
        assert(s =~= Seq::<char>::empty() + seq![sep] + s.drop_first());
    }
}

/// The words of a text are the pieces between whitespace: none is empty or holds
/// whitespace, and together they hold all other characters in their order.
pub proof fn law_words_lie_between_whitespace(s: Seq<char>)
    ensures
        forall|i: int| 0 <= i < words(s).len() ==> (#[trigger] words(s)[i]).len() > 0 && !any_whitespace(words(s)[i]),
        words(s).flatten() == s.filter(|c: char| !is_whitespace(c)),
{
    lemma_word_scan(s);
    let (done, word) = word_scan(s);
    if word.len() > 0 {
        assert forall|i: int| 0 <= i < words(s).len() implies (#[trigger] words(s)[i]).len() > 0 && !any_whitespace(
            words(s)[i],
        ) by {
            if i < done.len() {
                assert(words(s)[i] == done[i]);
            }
        }
        done.lemma_flatten_push(word);
    } else {
        assert(done.flatten() + word =~= done.flatten());
    }
}

proof fn lemma_word_scan(s: Seq<char>)
    ensures
        forall|i: int|
            0 <= i < word_scan(s).0.len() ==> (#[trigger] word_scan(s).0[i]).len() > 0 && !any_whitespace(word_scan(s).0[i]),
        !any_whitespace(word_scan(s).1),
        word_scan(s).0.flatten() + word_scan(s).1 == s.filter(|c: char| !is_whitespace(c)),
    decreases s.len(),
{
    let dark = |c: char| !is_whitespace(c);
    reveal(Seq::filter);
    if s.len() == 0 {
        assert(word_scan(s).0.flatten() =~= Seq::<char>::empty());
        assert(word_scan(s).0.flatten() + word_scan(s).1 =~= s.filter(dark));
    } else {
        let front = s.drop_last();
        lemma_word_scan(front);
        let (done, word) = word_scan(front);
        if !is_whitespace(s.last()) {
            assert forall|i: int| 0 <= i < word.push(s.last()).len() implies !is_whitespace(
                #[trigger] word.push(s.last())[i],
            ) by {
                if i < word.len() {
                    assert(!is_whitespace(word[i]));
                }
            }
            assert(done.flatten() + word.push(s.last()) =~= (done.flatten() + word).push(s.last()));
        } else if word.len() > 0 {
            done.lemma_flatten_push(word);
            assert forall|i: int| 0 <= i < done.push(word).len() implies (#[trigger] done.push(word)[i]).len() > 0
                && !any_whitespace(done.push(word)[i]) by {
                if i < done.len() {
                    assert(done.push(word)[i] == done[i]);
                }
            }
            assert(done.push(word).flatten() + Seq::<char>::empty() =~= done.flatten() + word);
        }
    }
}

/// The filled lines are the lines that hold more than whitespace, trimmed, in their order.
pub proof fn law_filled_lines(lines: Seq<Seq<char>>)
    ensures
        filled_lines(lines) == lines.map_values(|l: Seq<char>| trim(l)).filter(|l: Seq<char>| l.len() > 0),
    decreases lines.len(),
{
    let short = |l: Seq<char>| trim(l);
    let full = |l: Seq<char>| l.len() > 0;
    reveal(Seq::filter);
    if lines.len() > 0 {
        law_filled_lines(lines.drop_last());
        assert(lines.map_values(short).drop_last() =~= lines.drop_last().map_values(short));
    } else {
        assert(lines.map_values(short) =~= Seq::empty());
    }
}

} // verus!
