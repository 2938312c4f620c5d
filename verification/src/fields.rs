//! What the fields of a contract may hold: lines of text, identifiers, paths,
//! digests, revisions, repositories and branch names.

use vstd::prelude::*;

use crate::text::{
    all_hex, any_control, any_whitespace, char_is_ascii_alphanumeric, chars_of, contains_char, has_char, has_control, has_infix, has_whitespace,
    is_all_hex, is_ascii_alphanumeric, is_control, is_hex_digit, is_trimmed, is_whitespace, law_classes_of_characters, law_split_by_pieces,
    law_trim_takes_outer_whitespace, same_text, split, split_text, starts_with, text_contains, text_is_trimmed,
    text_starts_with, texts, trim,
};

verus! {

/// One line of text without surrounding whitespace or control characters.
pub open spec fn is_line(s: Seq<char>) -> bool {
    is_trimmed(s) && !any_control(s)
}

pub fn line_ok(s: &str) -> (r: bool)
    ensures
        r == is_line(s@),
{
    text_is_trimmed(s) && !has_control(s)
}

pub open spec fn is_identifier_char(c: char) -> bool {
    is_ascii_alphanumeric(c) || c == '-' || c == '_' || c == '.'
}

/// ASCII letters, digits, `-`, `_` and `.` only.
pub open spec fn is_identifier(s: Seq<char>) -> bool {
    forall|i: int| 0 <= i < s.len() ==> is_identifier_char(#[trigger] s[i])
}

pub fn identifier_ok(s: &str) -> (r: bool)
    ensures
        r == is_identifier(s@),
{
    let chars = chars_of(s);
    let mut i: usize = 0;
    while i < chars.len()
        invariant
            i <= chars@.len(),
            chars@ == s@,
            forall|j: int| 0 <= j < i ==> is_identifier_char(#[trigger] chars@[j]),
        decreases chars@.len() - i,
    {
        let c = chars[i];
        if !(char_is_ascii_alphanumeric(c) || c == '-' || c == '_' || c == '.') {
            assert(!is_identifier_char(s@[i as int]));
            return false;
        }
        i += 1;
    }
    true
}

/// A SHA-256 digest: 64 hexadecimal digits.
pub open spec fn is_digest(s: Seq<char>) -> bool {
    s.len() == 64 && all_hex(s)
}

pub fn digest_ok(s: &str) -> (r: bool)
    ensures
        r == is_digest(s@),
{
    s.unicode_len() == 64 && is_all_hex(s)
}

/// A full Git object identifier: 40 or 64 hexadecimal digits.
pub open spec fn is_revision(s: Seq<char>) -> bool {
    (s.len() == 40 || s.len() == 64) && all_hex(s)
}

pub fn revision_ok(s: &str) -> (r: bool)
    ensures
        r == is_revision(s@),
{
    let n: usize = s.unicode_len();
    (n == 40 || n == 64) && is_all_hex(s)
}

/// `owner/name`, both parts present, without whitespace.
pub open spec fn is_repository(s: Seq<char>) -> bool {
    let parts = split(s, '/');
    !any_whitespace(s) && parts.len() == 2 && parts[0].len() > 0 && parts[1].len() > 0
}

pub fn repository_ok(s: &str) -> (r: bool)
    ensures
        r == is_repository(s@),
{
    let parts = split_text(s, '/');
    proof {
        assert(parts@.len() == split(s@, '/').len());
        assert(parts@.len() == 2 ==> parts@[0]@ == split(s@, '/')[0] && parts@[1]@ == split(s@, '/')[1]);
    }
    !has_whitespace(s) && parts.len() == 2 && !parts[0].as_str().is_empty() && !parts[1].as_str().is_empty()
}

/// A path component that names an entry: not empty, `.` or `..`.
pub open spec fn is_plain_component(s: Seq<char>) -> bool {
    s.len() > 0 && s != seq!['.'] && s != seq!['.', '.']
}

/// A canonical path relative to a workspace root: plain components separated by
/// single slashes, without backslashes or NUL.
pub open spec fn is_relative_path(s: Seq<char>) -> bool {
    let parts = split(s, '/');
    !has_char(s, '\\') && !has_char(s, '\0') && forall|i: int|
        0 <= i < parts.len() ==> is_plain_component(#[trigger] parts[i])
}

fn plain_component(s: &str) -> (r: bool)
    ensures
        r == is_plain_component(s@),
{
    let chars = chars_of(s);
    if chars.len() == 0 {
        return false;
    }
    if chars.len() == 1 && chars[0] == '.' {
        assert(s@ =~= seq!['.']);
        return false;
    }
    if chars.len() == 2 && chars[0] == '.' && chars[1] == '.' {
        assert(s@ =~= seq!['.', '.']);
        return false;
    }
    true
}

pub fn relative_path_ok(s: &str) -> (r: bool)
    ensures
        r == is_relative_path(s@),
{
    if contains_char(s, '\\') || contains_char(s, '\0') {
        return false;
    }
    let parts = split_text(s, '/');
    let ghost all = split(s@, '/');
    let mut i: usize = 0;
    while i < parts.len()
        invariant
            i <= parts@.len(),
            texts(parts@) == all,
            all == split(s@, '/'),
            forall|j: int| 0 <= j < i ==> is_plain_component(#[trigger] all[j]),
        decreases parts@.len() - i,
    {
        assert(all[i as int] == parts@[i as int]@);
        if !plain_component(parts[i].as_str()) {
            return false;
        }
        i += 1;
    }
    true
}

/// `path` is `prefix` or lies below it.
pub open spec fn is_within(path: Seq<char>, prefix: Seq<char>) -> bool {
    path == prefix || (starts_with(path, prefix) && path.len() > prefix.len() && path[prefix.len() as int] == '/')
}

pub fn path_is_within(path: &str, prefix: &str) -> (r: bool)
    ensures
        r == is_within(path@, prefix@),
{
    if same_text(path, prefix) {
        return true;
    }
    if !text_starts_with(path, prefix) {
        return false;
    }
    let n: usize = prefix.unicode_len();
    let chars = chars_of(path);
    n < chars.len() && chars[n] == '/'
}

/// `path` lies within one of the prefixes.
pub open spec fn is_within_any(path: Seq<char>, prefixes: Seq<Seq<char>>) -> bool {
    exists|i: int| 0 <= i < prefixes.len() && is_within(path, #[trigger] prefixes[i])
}

pub fn path_is_within_any(path: &str, prefixes: &[String]) -> (r: bool)
    ensures
        r == is_within_any(path@, texts(prefixes@)),
{
    let ghost all = texts(prefixes@);
    let mut i: usize = 0;
    while i < prefixes.len()
        invariant
            i <= prefixes@.len(),
            all == texts(prefixes@),
            forall|j: int| 0 <= j < i ==> !is_within(path@, #[trigger] all[j]),
        decreases prefixes@.len() - i,
    {
        assert(all[i as int] == prefixes@[i as int]@);
        if path_is_within(path, prefixes[i].as_str()) {
            return true;
        }
        i += 1;
    }
    false
}

/// Being within is transitive: a narrower prefix admits nothing new.
pub proof fn lemma_within_transitive(path: Seq<char>, inner: Seq<char>, outer: Seq<char>)
    requires
        is_within(path, inner),
        is_within(inner, outer),
    ensures
        is_within(path, outer),
{
    if path != inner && inner != outer {
        assert(path.take(outer.len() as int) =~= inner.take(outer.len() as int));
        assert(path[outer.len() as int] == inner[outer.len() as int]) by {
            assert(path.take(inner.len() as int)[outer.len() as int] == inner[outer.len() as int]);
        }
    }
}

/// A text that can stand in a Git branch name.
pub open spec fn is_branch_name(s: Seq<char>) -> bool {
    &&& (s.len() > 0 ==> s[0] != '/' && s.last() != '/')
    &&& !has_infix(s, seq!['.', '.'])
    &&& !has_infix(s, seq!['/', '/'])
    &&& !has_char(s, ' ')
    &&& !has_char(s, '~')
    &&& !has_char(s, '^')
    &&& !has_char(s, ':')
    &&& !has_char(s, '?')
    &&& !has_char(s, '*')
    &&& !has_char(s, '[')
    &&& !has_char(s, '\\')
}

pub fn branch_name_ok(s: &str) -> (r: bool)
    ensures
        r == is_branch_name(s@),
{
    let chars = chars_of(s);
    if chars.len() > 0 && (chars[0] == '/' || chars[chars.len() - 1] == '/') {
        return false;
    }
    proof {
        reveal_strlit("..");
        reveal_strlit("//");
        assert(".."@ =~= seq!['.', '.']);
        assert("//"@ =~= seq!['/', '/']);
    }
    !text_contains(s, "..") && !text_contains(s, "//") && !contains_char(s, ' ') && !contains_char(s, '~')
        && !contains_char(s, '^') && !contains_char(s, ':') && !contains_char(s, '?') && !contains_char(s, '*')
        && !contains_char(s, '[') && !contains_char(s, '\\')
}

// ---------------------------------------------------------------------------
// Laws
// ---------------------------------------------------------------------------

/// Identifiers are put together from identifiers, and one character is one exactly where
/// it is an ASCII letter, a digit, `-`, `.` or `_`.
pub proof fn law_identifiers(a: Seq<char>, b: Seq<char>, c: char)
    ensures
        is_identifier(a + b) <==> is_identifier(a) && is_identifier(b),
        is_identifier(seq![c]) <==> 48 <= c as u32 <= 57 || 65 <= c as u32 <= 90 || 97 <= c as u32 <= 122 || c as u32 == 45
            || c as u32 == 46 || c as u32 == 95,
        is_identifier(Seq::empty()),
{
    if is_identifier(a + b) {
        assert forall|i: int| 0 <= i < a.len() implies is_identifier_char(#[trigger] a[i]) by {
            assert(is_identifier_char((a + b)[i]));
        }
        assert forall|i: int| 0 <= i < b.len() implies is_identifier_char(#[trigger] b[i]) by {
            assert(is_identifier_char((a + b)[a.len() + i]));
        }
    }
    if is_identifier(seq![c]) {
        assert(is_identifier_char(seq![c][0]));
    }
}

/// A line is one where trimming changes nothing and no character is a control character.
pub proof fn law_lines(s: Seq<char>)
    ensures
        is_line(s) <==> trim(s) == s && forall|i: int|
            0 <= i < s.len() ==> 32 <= (#[trigger] s[i]) as u32 <= 126 || s[i] as u32 >= 160,
{
    law_trim_takes_outer_whitespace(s);
    if !any_control(s) {
        assert forall|i: int| 0 <= i < s.len() implies 32 <= (#[trigger] s[i]) as u32 <= 126 || s[i] as u32 >= 160 by {
            assert(!is_control(s[i]));
        }
    }
    if any_control(s) {
        let i = choose|i: int| 0 <= i < s.len() && is_control(#[trigger] s[i]);
        assert(!(32 <= s[i] as u32 <= 126 || s[i] as u32 >= 160));
    }
}

/// Digests and revisions are hexadecimal digits only, 64 of them, or 40 for a revision.
pub proof fn law_digests_and_revisions(s: Seq<char>)
    ensures
        ({
            let digits = forall|i: int|
                0 <= i < s.len() ==> (48 <= (#[trigger] s[i]) as u32 <= 57 || 65 <= s[i] as u32 <= 70 || 97 <= s[i] as u32
                    <= 102);
            &&& is_digest(s) <==> s.len() == 64 && digits
            &&& is_revision(s) <==> (s.len() == 40 || s.len() == 64) && digits
        }),
{
    if all_hex(s) {
        assert forall|i: int| 0 <= i < s.len() implies (48 <= (#[trigger] s[i]) as u32 <= 57 || 65 <= s[i] as u32 <= 70 || 97
            <= s[i] as u32 <= 102) by {
            assert(is_hex_digit(s[i]));
        }
    } else {
        let i = choose|i: int| 0 <= i < s.len() && !is_hex_digit(#[trigger] s[i]);
        law_classes_of_characters(s[i]);
        assert(!(48 <= s[i] as u32 <= 57 || 65 <= s[i] as u32 <= 70 || 97 <= s[i] as u32 <= 102));
    }
}

/// Relative paths are put together from components: two of them with a slash between are
/// one exactly where both are, and a component alone is one where it is not empty, `.` or
/// `..` and holds neither a backslash nor a NUL.
pub proof fn law_relative_paths(a: Seq<char>, b: Seq<char>)
    ensures
        is_relative_path(a + seq!['/'] + b) <==> is_relative_path(a) && is_relative_path(b),
        !has_char(a, '/') ==> (is_relative_path(a) <==> a.len() > 0 && a != seq!['.'] && a != seq!['.', '.'] && !has_char(
            a,
            '\\',
        ) && !has_char(a, '\0')),
{
    let whole = a + seq!['/'] + b;
    law_split_by_pieces(a, b, '/');
    let (x, y, z) = (split(a, '/'), split(b, '/'), split(whole, '/'));
    lemma_char_in_join(a, b, '\\');
    lemma_char_in_join(a, b, '\0');
    if is_relative_path(whole) {
        assert forall|i: int| 0 <= i < x.len() implies is_plain_component(#[trigger] x[i]) by {
            assert(z[i] == x[i]);
        }
        assert forall|i: int| 0 <= i < y.len() implies is_plain_component(#[trigger] y[i]) by {
            assert(z[x.len() + i] == y[i]);
        }
    }
    if is_relative_path(a) && is_relative_path(b) {
        assert forall|i: int| 0 <= i < z.len() implies is_plain_component(#[trigger] z[i]) by {
            if i < x.len() {
                assert(z[i] == x[i]);
            } else {
                assert(z[i] == y[i - x.len()]);
            }
        }
    }
    if !has_char(a, '/') {
        assert(x[0] == a);
        if is_relative_path(a) {
            assert(is_plain_component(x[0]));
        }
    }
}

proof fn lemma_char_in_join(a: Seq<char>, b: Seq<char>, c: char)
    requires
        c != '/',
    ensures
        has_char(a + seq!['/'] + b, c) <==> has_char(a, c) || has_char(b, c),
{
    let whole = a + seq!['/'] + b;
    if has_char(whole, c) {
        let i = choose|i: int| 0 <= i < whole.len() && #[trigger] whole[i] == c;
        if i < a.len() {
            assert(a[i] == c);
        } else {
            assert(b[i - a.len() - 1] == c);
        }
    }
    if has_char(a, c) {
        let i = choose|i: int| 0 <= i < a.len() && #[trigger] a[i] == c;
        assert(whole[i] == c);
    }
    if has_char(b, c) {
        let i = choose|i: int| 0 <= i < b.len() && #[trigger] b[i] == c;
        assert(whole[a.len() + 1 + i] == c);
    }
}

/// A path lies within a prefix exactly where it is the prefix, or the prefix, a slash and
/// something more.
pub proof fn law_within_is_below(path: Seq<char>, prefix: Seq<char>)
    ensures
        is_within(path, prefix) <==> path == prefix || exists|rest: Seq<char>| path == #[trigger] (prefix + seq!['/'] + rest),
{
    let n = prefix.len() as int;
    if is_within(path, prefix) && path != prefix {
        assert forall|i: int| 0 <= i < n implies path[i] == prefix[i] by {
            assert(path.take(n)[i] == prefix[i]);
        }
        assert(path =~= prefix + seq!['/'] + path.skip(n + 1));
    }
    if exists|rest: Seq<char>| path == #[trigger] (prefix + seq!['/'] + rest) {
        let rest = choose|rest: Seq<char>| path == #[trigger] (prefix + seq!['/'] + rest);
        assert(path.take(n) =~= prefix);
        assert(path[n] == '/');
    }
}

/// A repository is an owner and a name with a slash between them, neither of them empty and
/// none with a slash or whitespace in it.
pub proof fn law_repositories(owner: Seq<char>, name: Seq<char>)
    requires
        !has_char(owner, '/'),
        !has_char(name, '/'),
    ensures
        is_repository(owner + seq!['/'] + name) <==> owner.len() > 0 && name.len() > 0 && !any_whitespace(owner)
            && !any_whitespace(name),
        !is_repository(owner),
{
    let whole = owner + seq!['/'] + name;
    law_split_by_pieces(owner, name, '/');
    law_split_by_pieces(name, owner, '/');
    assert(split(whole, '/') =~= seq![owner, name]);
    if any_whitespace(owner) {
        let i = choose|i: int| 0 <= i < owner.len() && is_whitespace(#[trigger] owner[i]);
        assert(is_whitespace(whole[i]));
    }
    if any_whitespace(name) {
        let i = choose|i: int| 0 <= i < name.len() && is_whitespace(#[trigger] name[i]);
        assert(is_whitespace(whole[owner.len() + 1 + i]));
    }
    if any_whitespace(whole) {
        let i = choose|i: int| 0 <= i < whole.len() && is_whitespace(#[trigger] whole[i]);
        if i < owner.len() {
            assert(is_whitespace(owner[i]));
        } else if i > owner.len() {
            assert(is_whitespace(name[i - owner.len() - 1]));
        }
    }
}

/// A character twice in a row.
proof fn lemma_twice(s: Seq<char>, c: char)
    ensures
        has_infix(s, seq![c, c]) <==> exists|i: int| 0 <= i < s.len() - 1 && (#[trigger] s[i]) == c && s[i + 1] == c,
{
    let pair = seq![c, c];
    if has_infix(s, pair) {
        let i = choose|i: int| 0 <= i <= s.len() && #[trigger] starts_with(s.skip(i), pair);
        assert(s.skip(i).take(2)[0] == s[i]);
        assert(s.skip(i).take(2)[1] == s[i + 1]);
    }
    if exists|i: int| 0 <= i < s.len() - 1 && (#[trigger] s[i]) == c && s[i + 1] == c {
        let i = choose|i: int| 0 <= i < s.len() - 1 && (#[trigger] s[i]) == c && s[i + 1] == c;
        assert(s.skip(i).take(2) =~= pair);
        assert(starts_with(s.skip(i), pair));
    }
}

/// A branch name neither begins nor ends with a slash, has no two dots or slashes in a row,
/// and holds none of the characters that Git keeps for itself; any other text is one.
pub proof fn law_branch_names(s: Seq<char>)
    ensures
        is_branch_name(s) <==> {
            &&& forall|rest: Seq<char>| s != #[trigger] (seq!['/'] + rest)
            &&& forall|rest: Seq<char>| s != #[trigger] (rest + seq!['/'])
            &&& forall|i: int| 0 <= i < s.len() - 1 ==> !((#[trigger] s[i]) == '.' && s[i + 1] == '.')
            &&& forall|i: int| 0 <= i < s.len() - 1 ==> !((#[trigger] s[i]) == '/' && s[i + 1] == '/')
            &&& forall|i: int|
                0 <= i < s.len() ==> (#[trigger] s[i]) != ' ' && s[i] != '~' && s[i] != '^' && s[i] != ':' && s[i] != '?' && s[i]
                    != '*' && s[i] != '[' && s[i] != '\\'
        },
{
    lemma_twice(s, '.');
    lemma_twice(s, '/');
    if s.len() > 0 && s[0] == '/' {
        assert(s =~= seq!['/'] + s.drop_first());
    }
    if s.len() > 0 && s.last() == '/' {
        assert(s =~= s.drop_last() + seq!['/']);
    }
    if exists|rest: Seq<char>| s == #[trigger] (seq!['/'] + rest) {
        let rest = choose|rest: Seq<char>| s == #[trigger] (seq!['/'] + rest);
        assert(s[0] == '/');
    }
    if exists|rest: Seq<char>| s == #[trigger] (rest + seq!['/']) {
        let rest = choose|rest: Seq<char>| s == #[trigger] (rest + seq!['/']);
        assert(s.last() == '/');
    }
    if is_branch_name(s) {
        assert forall|i: int| 0 <= i < s.len() implies (#[trigger] s[i]) != ' ' && s[i] != '~' && s[i] != '^' && s[i] != ':'
            && s[i] != '?' && s[i] != '*' && s[i] != '[' && s[i] != '\\' by {
            assert(!has_char(s, s[i]) || s[i] == s[i]);
        }
    }
}

} // verus!
