//! Isolated workspaces over several repositories.
//!
//! A workspace holds a tree of every repository of a compatibility set at its exact
//! revision. Patch sets are applied only to the roles that may be patched, and temporary
//! package overrides point consumers at the providers in the workspace. Reading the
//! checkouts and writing the trees is left to the caller.

use vstd::prelude::*;

use crate::candidate_state::{
    bytes_of, check_child, check_storage, child_files, CandidateState, CandidateStateError, CandidateStoragePolicy,
};
use crate::checks::{and_then, check_all, lemma_check_all, lemma_check_step};
use crate::compatibility::{
    new_revision, set_fingerprint, CompatibilityError, CompatibilityFailure, CompatibilitySet, RepositoryRevision,
};
use crate::fields::{is_line, line_ok};
use crate::file_tree::{gathered, is_skipped, tree_identity, FileTree, TreeFile};
use crate::order::{
    ascending, canonical, canonical_texts, is_sorted_of, key_leq, key_order, keys, law_sorting, lemma_canonical_exists, lemma_text_order_equal, lemma_text_order_flip, order_texts,
    reverse_records, sort_records, sorted, strictly_ascending,
    text_order, Key, Keyed, Order,
};
use crate::patchset::{PatchSet, PatchSetError};
use crate::text::{
    clone_texts, contains_text, decimal, decimal_text, join, join_text, lemma_texts_push, same_text, split, split_text, texts, trim, trim_text, IntoText,
};

verus! {

// ---------------------------------------------------------------------------
// Failures
// ---------------------------------------------------------------------------

/// Why a workspace could not be made or changed.
///
/// The parameter is the type of the texts it carries.
#[derive(Debug, Clone, PartialEq, Eq)]
pub enum CrossRepoWorkspaceError<S = String> {
    Compatibility(CompatibilityError<S>),
    CandidateState(CandidateStateError<S>),
    PatchSet(PatchSetError<S>),
    InvalidPolicy(S),
    RepositoryLimitExceeded { actual: usize, limit: usize },
    TotalByteLimitExceeded { actual: u64, limit: u64 },
    SourceSetMismatch(S),
    DuplicateRole(S),
    UnknownRole(S),
    RevisionMismatch { role: S, expected: S, actual: S },
    Git(S),
    UnsafeTrackedPath(S),
    UnsupportedTrackedEntry(S),
    PatchRoleNotAllowed(S),
    DuplicateOverride { consumer_role: S, source: S, package: S },
    InvalidOverride(S),
    Io(S),
}

/// A failure over mathematical texts.
pub type WorkspaceFailure = CrossRepoWorkspaceError<Seq<char>>;

impl CrossRepoWorkspaceError<String> {
    pub open spec fn view(&self) -> WorkspaceFailure {
        match self {
            CrossRepoWorkspaceError::Compatibility(value) => CrossRepoWorkspaceError::Compatibility(value@),
            CrossRepoWorkspaceError::CandidateState(value) => CrossRepoWorkspaceError::CandidateState(value@),
            CrossRepoWorkspaceError::PatchSet(value) => CrossRepoWorkspaceError::PatchSet(value@),
            CrossRepoWorkspaceError::InvalidPolicy(value) => CrossRepoWorkspaceError::InvalidPolicy(value@),
            CrossRepoWorkspaceError::RepositoryLimitExceeded { actual, limit } => CrossRepoWorkspaceError::RepositoryLimitExceeded { actual: *actual, limit: *limit },
            CrossRepoWorkspaceError::TotalByteLimitExceeded { actual, limit } => CrossRepoWorkspaceError::TotalByteLimitExceeded { actual: *actual, limit: *limit },
            CrossRepoWorkspaceError::SourceSetMismatch(value) => CrossRepoWorkspaceError::SourceSetMismatch(value@),
            CrossRepoWorkspaceError::DuplicateRole(value) => CrossRepoWorkspaceError::DuplicateRole(value@),
            CrossRepoWorkspaceError::UnknownRole(value) => CrossRepoWorkspaceError::UnknownRole(value@),
            CrossRepoWorkspaceError::RevisionMismatch { role, expected, actual } => CrossRepoWorkspaceError::RevisionMismatch { role: role@, expected: expected@, actual: actual@ },
            CrossRepoWorkspaceError::Git(value) => CrossRepoWorkspaceError::Git(value@),
            CrossRepoWorkspaceError::UnsafeTrackedPath(value) => CrossRepoWorkspaceError::UnsafeTrackedPath(value@),
            CrossRepoWorkspaceError::UnsupportedTrackedEntry(value) => CrossRepoWorkspaceError::UnsupportedTrackedEntry(value@),
            CrossRepoWorkspaceError::PatchRoleNotAllowed(value) => CrossRepoWorkspaceError::PatchRoleNotAllowed(value@),
            CrossRepoWorkspaceError::DuplicateOverride { consumer_role, source, package } => CrossRepoWorkspaceError::DuplicateOverride { consumer_role: consumer_role@, source: source@, package: package@ },
            CrossRepoWorkspaceError::InvalidOverride(value) => CrossRepoWorkspaceError::InvalidOverride(value@),
            CrossRepoWorkspaceError::Io(value) => CrossRepoWorkspaceError::Io(value@),
        }
    }

    /// The message shown to a user.
    pub fn to_string(&self) -> (r: String)
        ensures
            r@ == self@.message(),
    {
        match self {
            CrossRepoWorkspaceError::Compatibility(value) => {
                let mut m = "compatibility error: ".to_owned();
                m.append(value.to_string().as_str());
                m
            },
            CrossRepoWorkspaceError::CandidateState(value) => {
                let mut m = "candidate-state error: ".to_owned();
                m.append(value.to_string().as_str());
                m
            },
            CrossRepoWorkspaceError::PatchSet(value) => {
                let mut m = "PatchSet error: ".to_owned();
                m.append(value.to_string().as_str());
                m
            },
            CrossRepoWorkspaceError::InvalidPolicy(value) => {
                let mut m = "invalid cross-repo policy: ".to_owned();
                m.append(value.as_str());
                m
            },
            CrossRepoWorkspaceError::RepositoryLimitExceeded { actual, limit } => {
                let mut m = "repository limit exceeded: ".to_owned();
                m.append(decimal_text(*actual as u64).as_str());
                m.append(" > ");
                m.append(decimal_text(*limit as u64).as_str());
                m
            },
            CrossRepoWorkspaceError::TotalByteLimitExceeded { actual, limit } => {
                let mut m = "workspace byte limit exceeded: ".to_owned();
                m.append(decimal_text(*actual).as_str());
                m.append(" > ");
                m.append(decimal_text(*limit).as_str());
                m
            },
            CrossRepoWorkspaceError::SourceSetMismatch(value) => {
                let mut m = "source set mismatch: ".to_owned();
                m.append(value.as_str());
                m
            },
            CrossRepoWorkspaceError::DuplicateRole(value) => {
                let mut m = "duplicate repository role: ".to_owned();
                m.append(value.as_str());
                m
            },
            CrossRepoWorkspaceError::UnknownRole(value) => {
                let mut m = "unknown repository role: ".to_owned();
                m.append(value.as_str());
                m
            },
            CrossRepoWorkspaceError::RevisionMismatch { role, expected, actual } => {
                let mut m = "revision mismatch for role ".to_owned();
                m.append(role.as_str());
                m.append(": expected ");
                m.append(expected.as_str());
                m.append(", got ");
                m.append(actual.as_str());
                m
            },
            CrossRepoWorkspaceError::Git(value) => {
                let mut m = "local git verification failed: ".to_owned();
                m.append(value.as_str());
                m
            },
            CrossRepoWorkspaceError::UnsafeTrackedPath(value) => {
                let mut m = "unsafe tracked path: ".to_owned();
                m.append(value.as_str());
                m
            },
            CrossRepoWorkspaceError::UnsupportedTrackedEntry(value) => {
                let mut m = "unsupported tracked filesystem entry: ".to_owned();
                m.append(value.as_str());
                m
            },
            CrossRepoWorkspaceError::PatchRoleNotAllowed(value) => {
                let mut m = "task does not allow patches to repository role ".to_owned();
                m.append(value.as_str());
                m
            },
            CrossRepoWorkspaceError::DuplicateOverride { consumer_role, source, package } => {
                let mut m = "duplicate Cargo override for ".to_owned();
                m.append(consumer_role.as_str());
                m.append(": ");
                m.append(source.as_str());
                m.append(" / ");
                m.append(package.as_str());
                m
            },
            CrossRepoWorkspaceError::InvalidOverride(value) => {
                let mut m = "invalid Cargo override: ".to_owned();
                m.append(value.as_str());
                m
            },
            CrossRepoWorkspaceError::Io(value) => {
                let mut m = "cross-repo workspace I/O error: ".to_owned();
                m.append(value.as_str());
                m
            },
        }
    }
}

impl CrossRepoWorkspaceError<Seq<char>> {
    pub open spec fn message(&self) -> Seq<char> {
        match self {
            CrossRepoWorkspaceError::Compatibility(value) => "compatibility error: "@ + value.message(),
            CrossRepoWorkspaceError::CandidateState(value) => "candidate-state error: "@ + value.message(),
            CrossRepoWorkspaceError::PatchSet(value) => "PatchSet error: "@ + value.message(),
            CrossRepoWorkspaceError::InvalidPolicy(value) => "invalid cross-repo policy: "@ + *value,
            CrossRepoWorkspaceError::RepositoryLimitExceeded { actual, limit } => "repository limit exceeded: "@ + decimal(*actual as nat) + " > "@ + decimal(*limit as nat),
            CrossRepoWorkspaceError::TotalByteLimitExceeded { actual, limit } => "workspace byte limit exceeded: "@ + decimal(*actual as nat) + " > "@ + decimal(*limit as nat),
            CrossRepoWorkspaceError::SourceSetMismatch(value) => "source set mismatch: "@ + *value,
            CrossRepoWorkspaceError::DuplicateRole(value) => "duplicate repository role: "@ + *value,
            CrossRepoWorkspaceError::UnknownRole(value) => "unknown repository role: "@ + *value,
            CrossRepoWorkspaceError::RevisionMismatch { role, expected, actual } => "revision mismatch for role "@ + *role + ": expected "@ + *expected + ", got "@ + *actual,
            CrossRepoWorkspaceError::Git(value) => "local git verification failed: "@ + *value,
            CrossRepoWorkspaceError::UnsafeTrackedPath(value) => "unsafe tracked path: "@ + *value,
            CrossRepoWorkspaceError::UnsupportedTrackedEntry(value) => "unsupported tracked filesystem entry: "@ + *value,
            CrossRepoWorkspaceError::PatchRoleNotAllowed(value) => "task does not allow patches to repository role "@ + *value,
            CrossRepoWorkspaceError::DuplicateOverride { consumer_role, source, package } => "duplicate Cargo override for "@ + *consumer_role + ": "@ + *source + " / "@ + *package,
            CrossRepoWorkspaceError::InvalidOverride(value) => "invalid Cargo override: "@ + *value,
            CrossRepoWorkspaceError::Io(value) => "cross-repo workspace I/O error: "@ + *value,
        }
    }
}

/// The outcome with its failure over mathematical texts.
pub open spec fn outcome<T>(r: Result<T, CrossRepoWorkspaceError>) -> Result<T, WorkspaceFailure> {
    match r {
        Ok(t) => Ok(t),
        Err(e) => Err(e@),
    }
}

// ---------------------------------------------------------------------------
// Paths and texts
// ---------------------------------------------------------------------------

/// The parts of a path that name something.
pub open spec fn named_parts(parts: Seq<Seq<char>>) -> Seq<Seq<char>>
    decreases parts.len(),
{
    if parts.len() == 0 {
        Seq::empty()
    } else if parts.last().len() == 0 || parts.last() == seq!['.'] {
        named_parts(parts.drop_last())
    } else {
        named_parts(parts.drop_last()).push(parts.last())
    }
}

/// A relative path without empty parts and without dots; none where the path is
/// absolute, starts at the current directory, leads upwards or names nothing.
pub open spec fn normalized(path: Seq<char>) -> Option<Seq<char>> {
    let parts = split(path, '/');
    if path.len() == 0 || path[0] == '/' || parts[0] == seq!['.'] || parts.contains(seq!['.', '.']) || named_parts(
        parts,
    ).len() == 0 {
        None
    } else {
        Some(join(named_parts(parts), "/"@))
    }
}

fn is_text_dot(s: &str) -> (r: bool)
    ensures
        r == (s@ == seq!['.']),
{
    proof {
        reveal_strlit(".");
        assert("."@ =~= seq!['.']);
    }
    same_text(s, ".")
}

fn is_text_dots(s: &str) -> (r: bool)
    ensures
        r == (s@ == seq!['.', '.']),
{
    proof {
        reveal_strlit("..");
        assert(".."@ =~= seq!['.', '.']);
    }
    same_text(s, "..")
}

fn keep_named_parts(parts: &[String]) -> (r: Vec<String>)
    ensures
        texts(r@) == named_parts(texts(parts@)),
{
    let ghost all = texts(parts@);
    let mut out: Vec<String> = Vec::new();
    let mut i: usize = 0;
    assert(texts(out@) =~= named_parts(all.take(0)));
    while i < parts.len()
        invariant
            i <= parts@.len(),
            all == texts(parts@),
            texts(out@) == named_parts(all.take(i as int)),
        decreases parts@.len() - i,
    {
        broadcast use lemma_texts_push;
        proof {
            assert(all.take(i + 1).drop_last() =~= all.take(i as int));
            assert(all.take(i + 1).last() == parts@[i as int]@);
        }
        let part = parts[i].as_str();
        if !part.is_empty() && !is_text_dot(part) {
            out.push(parts[i].clone());
        }
        i += 1;
    }
    assert(all.take(i as int) =~= all);
    out
}

fn has_dots(parts: &[String]) -> (r: bool)
    ensures
        r == texts(parts@).contains(seq!['.', '.']),
{
    let ghost all = texts(parts@);
    let mut i: usize = 0;
    while i < parts.len()
        invariant
            i <= parts@.len(),
            all == texts(parts@),
            forall|j: int| 0 <= j < i ==> all[j] != seq!['.', '.'],
        decreases parts@.len() - i,
    {
        assert(all[i as int] == parts@[i as int]@);
        if is_text_dots(parts[i].as_str()) {
            return true;
        }
        i += 1;
    }
    false
}

/// The normal form of a tracked path.
pub fn normalize_relative(path: &str) -> (r: Result<String, CrossRepoWorkspaceError>)
    ensures
        match r {
            Ok(p) => normalized(path@) == Some(p@),
            Err(e) => normalized(path@) is None && e@ == CrossRepoWorkspaceError::<Seq<char>>::UnsafeTrackedPath(path@),
        },
{
    if path.is_empty() || path.get_char(0) == '/' {
        return Err(CrossRepoWorkspaceError::UnsafeTrackedPath(path.to_owned()));
    }
    let parts = split_text(path, '/');
    proof {
        crate::text::lemma_split_nonempty(path@, '/');
        assert(texts(parts@)[0] == parts@[0]@);
    }
    if is_text_dot(parts[0].as_str()) || has_dots(parts.as_slice()) {
        return Err(CrossRepoWorkspaceError::UnsafeTrackedPath(path.to_owned()));
    }
    let named = keep_named_parts(parts.as_slice());
    assert(texts(named@).len() == named@.len());
    if named.len() == 0 {
        return Err(CrossRepoWorkspaceError::UnsafeTrackedPath(path.to_owned()));
    }
    Ok(join_text(named.as_slice(), "/"))
}

/// The normal form of a path to a package: the repository itself, or a relative path.
pub open spec fn normalized_provider(path: Seq<char>) -> Option<Seq<char>> {
    if path == seq!['.'] {
        Some(path)
    } else {
        normalized(path)
    }
}

fn normalize_provider_path(path: &str) -> (r: Result<String, CrossRepoWorkspaceError>)
    ensures
        match r {
            Ok(p) => normalized_provider(path@) == Some(p@),
            Err(e) => normalized_provider(path@) is None && e@ == CrossRepoWorkspaceError::<Seq<char>>::UnsafeTrackedPath(
                path@,
            ),
        },
{
    if is_text_dot(path) {
        return Ok(path.to_owned());
    }
    normalize_relative(path)
}

pub open spec fn check_override_text(field: &'static str, s: Seq<char>) -> Result<(), WorkspaceFailure> {
    if s.len() == 0 || !is_line(s) {
        Err(CrossRepoWorkspaceError::InvalidOverride("invalid "@ + field@))
    } else {
        Ok(())
    }
}

fn checked_text(field: &'static str, value: &str) -> (r: Result<(), CrossRepoWorkspaceError>)
    ensures
        outcome(r) == check_override_text(field, value@),
{
    if value.is_empty() || !line_ok(value) {
        let mut m = "invalid ".to_owned();
        m.append(field);
        return Err(CrossRepoWorkspaceError::InvalidOverride(m));
    }
    Ok(())
}

/// A character inside a quoted text.
pub open spec fn quoted_char(c: char) -> Seq<char> {
    if c == '\\' {
        seq!['\\', '\\']
    } else if c == '"' {
        seq!['\\', '"']
    } else if c == '\n' {
        seq!['\\', 'n']
    } else if c == '\r' {
        seq!['\\', 'r']
    } else if c == '\t' {
        seq!['\\', 't']
    } else {
        seq![c]
    }
}

pub open spec fn quoted_chars(s: Seq<char>) -> Seq<char>
    decreases s.len(),
{
    if s.len() == 0 {
        Seq::empty()
    } else {
        quoted_chars(s.drop_last()) + quoted_char(s.last())
    }
}

/// A text between double quotes, with what would end it escaped.
pub open spec fn quoted(s: Seq<char>) -> Seq<char> {
    seq!['"'] + quoted_chars(s) + seq!['"']
}

pub fn toml_quote(value: &str) -> (r: String)
    ensures
        r@ == quoted(value@),
{
    let chars = crate::text::chars_of(value);
    let mut out = String::new();
    out.push('"');
    let mut i: usize = 0;
    assert(out@ =~= seq!['"'] + quoted_chars(value@.take(0)));
    while i < chars.len()
        invariant
            i <= chars@.len(),
            chars@ == value@,
            out@ == seq!['"'] + quoted_chars(value@.take(i as int)),
        decreases chars@.len() - i,
    {
        let c = chars[i];
        let ghost before = out@;
        if c == '\\' {
            out.push('\\');
            out.push('\\');
        } else if c == '"' {
            out.push('\\');
            out.push('"');
        } else if c == '\n' {
            out.push('\\');
            out.push('n');
        } else if c == '\r' {
            out.push('\\');
            out.push('r');
        } else if c == '\t' {
            out.push('\\');
            out.push('t');
        } else {
            out.push(c);
        }
        i += 1;
        proof {
            assert(out@ =~= before + quoted_char(c));
            assert(value@.take(i as int).drop_last() =~= value@.take(i - 1));
            assert(value@.take(i as int).last() == c);
            assert(out@ =~= seq!['"'] + quoted_chars(value@.take(i as int)));
        }
    }
    assert(value@.take(i as int) =~= value@);
    out.push('"');
    assert(out@ =~= quoted(value@));
    out
}

// ---------------------------------------------------------------------------
// Sources, overrides and policy
// ---------------------------------------------------------------------------

/// A local checkout of a repository at a revision.
#[derive(Debug, Clone, PartialEq, Eq)]
pub struct LocalRepositorySource {
    pub repository: String,
    pub role: String,
    pub revision: String,
    pub root: String,
}

impl LocalRepositorySource {
    pub fn new(
        repository: impl IntoText,
        role: impl IntoText,
        revision: impl IntoText,
        root: impl IntoText,
    ) -> (r: Result<Self, CrossRepoWorkspaceError>)
        ensures
            ({
                let checked = new_revision(repository.text(), revision.text(), role.text());
                match r {
                    Ok(s) => checked == Ok::<Key, CompatibilityFailure>(seq![s.repository@, s.revision@, s.role@]) && s.root@
                        == root.text(),
                    Err(e) => match checked {
                        Err(f) => e@ == CrossRepoWorkspaceError::<Seq<char>>::Compatibility(f),
                        Ok(_) => false,
                    },
                }
            }),
    {
        match RepositoryRevision::new(repository, revision, role) {
            Ok(checked) => Ok(
                LocalRepositorySource {
                    repository: checked.repository,
                    role: checked.role,
                    revision: checked.revision,
                    root: root.into_text(),
                },
            ),
            Err(e) => Err(CrossRepoWorkspaceError::Compatibility(e)),
        }
    }
}

/// A package that a consumer takes from a provider in the workspace.
#[derive(Debug, PartialEq, Eq, PartialOrd, Ord)]
pub struct CargoPatchOverride {
    pub consumer_role: String,
    pub source: String,
    pub package: String,
    pub provider_role: String,
    pub provider_path: String,
}

impl Clone for CargoPatchOverride {
    fn clone(&self) -> (r: Self)
        ensures
            r == *self,
    {
        CargoPatchOverride {
            consumer_role: self.consumer_role.clone(),
            source: self.source.clone(),
            package: self.package.clone(),
            provider_role: self.provider_role.clone(),
            provider_path: self.provider_path.clone(),
        }
    }
}

pub open spec fn check_override(
    consumer_role: Seq<char>,
    source: Seq<char>,
    package: Seq<char>,
    provider_role: Seq<char>,
    provider_path: Seq<char>,
) -> Result<(), WorkspaceFailure> {
    and_then(
        check_override_text("consumer_role", consumer_role),
        and_then(
            check_override_text("source", source),
            and_then(
                check_override_text("package", package),
                and_then(
                    check_override_text("provider_role", provider_role),
                    match normalized_provider(provider_path) {
                        Some(_) => Ok(()),
                        None => Err(CrossRepoWorkspaceError::UnsafeTrackedPath(provider_path)),
                    },
                ),
            ),
        ),
    )
}

impl CargoPatchOverride {
    pub fn new(
        consumer_role: impl IntoText,
        source: impl IntoText,
        package: impl IntoText,
        provider_role: impl IntoText,
        provider_path: impl IntoText,
    ) -> (r: Result<Self, CrossRepoWorkspaceError>)
        ensures
            ({
                let check = check_override(
                    consumer_role.text(),
                    source.text(),
                    package.text(),
                    provider_role.text(),
                    provider_path.text(),
                );
                match r {
                    Ok(o) => {
                        &&& check is Ok
                        &&& o.consumer_role@ == consumer_role.text()
                        &&& o.source@ == source.text()
                        &&& o.package@ == package.text()
                        &&& o.provider_role@ == provider_role.text()
                        &&& normalized_provider(provider_path.text()) == Some(o.provider_path@)
                    },
                    Err(e) => check == Err::<(), WorkspaceFailure>(e@),
                }
            }),
    {
        let consumer_role = consumer_role.into_text();
        let source = source.into_text();
        let package = package.into_text();
        let provider_role = provider_role.into_text();
        let provider_path = provider_path.into_text();
        checked_text("consumer_role", consumer_role.as_str())?;
        checked_text("source", source.as_str())?;
        checked_text("package", package.as_str())?;
        checked_text("provider_role", provider_role.as_str())?;
        let provider_path = normalize_provider_path(provider_path.as_str())?;
        Ok(CargoPatchOverride { consumer_role, source, package, provider_role, provider_path })
    }
}

impl Keyed for CargoPatchOverride {
    open spec fn key(&self) -> Key {
        seq![self.consumer_role@, self.source@, self.package@, self.provider_role@, self.provider_path@]
    }

    fn order_by_key(&self, other: &Self) -> (r: Order) {
        proof {
            reveal_with_fuel(key_order, 6);
            let a = self.key();
            let b = other.key();
            assert(a.drop_first() =~= seq![a[1], a[2], a[3], a[4]]);
            assert(b.drop_first() =~= seq![b[1], b[2], b[3], b[4]]);
            assert(a.drop_first().drop_first() =~= seq![a[2], a[3], a[4]]);
            assert(b.drop_first().drop_first() =~= seq![b[2], b[3], b[4]]);
            assert(a.drop_first().drop_first().drop_first() =~= seq![a[3], a[4]]);
            assert(b.drop_first().drop_first().drop_first() =~= seq![b[3], b[4]]);
            assert(a.drop_first().drop_first().drop_first().drop_first() =~= seq![a[4]]);
            assert(b.drop_first().drop_first().drop_first().drop_first() =~= seq![b[4]]);
        }
        match order_texts(self.consumer_role.as_str(), other.consumer_role.as_str()) {
            Order::Equal => match order_texts(self.source.as_str(), other.source.as_str()) {
                Order::Equal => match order_texts(self.package.as_str(), other.package.as_str()) {
                    Order::Equal => match order_texts(self.provider_role.as_str(), other.provider_role.as_str()) {
                        Order::Equal => order_texts(self.provider_path.as_str(), other.provider_path.as_str()),
                        o => o,
                    },
                    o => o,
                },
                o => o,
            },
            o => o,
        }
    }

    fn primary(&self) -> (r: &str) {
        self.consumer_role.as_str()
    }
}

#[derive(Debug, Clone, Copy, PartialEq, Eq, Structural)]
pub struct CrossRepoWorkspacePolicy {
    pub max_repositories: usize,
    pub max_total_bytes: u64,
    pub per_repository: CandidateStoragePolicy,
}

impl CrossRepoWorkspacePolicy {
    pub fn new(max_repositories: usize, max_total_bytes: u64, per_repository: CandidateStoragePolicy) -> (r: Result<
        Self,
        CrossRepoWorkspaceError,
    >)
        ensures
            match r {
                Ok(p) => {
                    &&& max_repositories > 0 && max_total_bytes > 0
                    &&& p == (CrossRepoWorkspacePolicy { max_repositories, max_total_bytes, per_repository })
                },
                Err(e) => {
                    &&& max_repositories == 0 || max_total_bytes == 0
                    &&& e@ == CrossRepoWorkspaceError::<Seq<char>>::InvalidPolicy(
                        "repository and byte limits must be greater than zero"@,
                    )
                },
            },
    {
        if max_repositories == 0 || max_total_bytes == 0 {
            return Err(
                CrossRepoWorkspaceError::InvalidPolicy("repository and byte limits must be greater than zero".to_owned()),
            );
        }
        Ok(CrossRepoWorkspacePolicy { max_repositories, max_total_bytes, per_repository })
    }
}

// ---------------------------------------------------------------------------
// Requests
// ---------------------------------------------------------------------------

/// The source is that of the given repository and role.
pub open spec fn is_source_of(source: LocalRepositorySource, repository: Seq<char>, role: Seq<char>) -> bool {
    source.repository@ == repository && source.role@ == role
}

/// The position of the first source with the repository and role.
pub open spec fn source_position(sources: Seq<LocalRepositorySource>, repository: Seq<char>, role: Seq<char>, i: int) -> Option<int>
    decreases sources.len() - i,
{
    if i < 0 || i >= sources.len() {
        None
    } else if is_source_of(sources[i], repository, role) {
        Some(i)
    } else {
        source_position(sources, repository, role, i + 1)
    }
}

fn find_source(sources: &[LocalRepositorySource], repository: &str, role: &str, from: usize) -> (r: Option<usize>)
    requires
        from <= sources@.len(),
    ensures
        match r {
            Some(k) => k < sources@.len() && source_position(sources@, repository@, role@, from as int) == Some(k as int),
            None => source_position(sources@, repository@, role@, from as int) is None,
        },
{
    let mut i: usize = from;
    while i < sources.len()
        invariant
            from <= i <= sources@.len(),
            source_position(sources@, repository@, role@, from as int) == source_position(
                sources@,
                repository@,
                role@,
                i as int,
            ),
        decreases sources@.len() - i,
    {
        if same_text(sources[i].repository.as_str(), repository) && same_text(sources[i].role.as_str(), role) {
            return Some(i);
        }
        i += 1;
    }
    None
}

pub open spec fn pair_text(repository: Seq<char>, role: Seq<char>) -> Seq<char> {
    repository + "/"@ + role
}

/// From position `i` on, no source repeats the repository and role of an earlier one.
pub open spec fn check_sources(sources: Seq<LocalRepositorySource>, i: int) -> Result<(), WorkspaceFailure>
    decreases sources.len() - i,
{
    if i < 0 || i >= sources.len() {
        Ok(())
    } else if source_position(sources, sources[i].repository@, sources[i].role@, 0) != Some(i) {
        Err(
            CrossRepoWorkspaceError::SourceSetMismatch(
                "duplicate source for "@ + pair_text(sources[i].repository@, sources[i].role@),
            ),
        )
    } else {
        check_sources(sources, i + 1)
    }
}

fn pair_message(head: &str, repository: &str, role: &str) -> (r: String)
    ensures
        r@ == head@ + pair_text(repository@, role@),
{
    let mut pair = repository.to_owned();
    pair.append("/");
    pair.append(role);
    let mut m = head.to_owned();
    m.append(pair.as_str());
    m
}

fn validate_sources(sources: &[LocalRepositorySource]) -> (r: Result<(), CrossRepoWorkspaceError>)
    ensures
        outcome(r) == check_sources(sources@, 0),
{
    let mut i: usize = 0;
    while i < sources.len()
        invariant
            i <= sources@.len(),
            check_sources(sources@, 0) == check_sources(sources@, i as int),
        decreases sources@.len() - i,
    {
        let s = &sources[i];
        let first = find_source(sources, s.repository.as_str(), s.role.as_str(), 0);
        let repeated = match first {
            Some(k) => k != i,
            None => true,
        };
        if repeated {
            return Err(
                CrossRepoWorkspaceError::SourceSetMismatch(
                    pair_message("duplicate source for ", s.repository.as_str(), s.role.as_str()),
                ),
            );
        }
        i += 1;
    }
    Ok(())
}

/// The roles of a compatibility set.
pub open spec fn roles_of(revisions: Seq<Key>) -> Seq<Seq<char>> {
    revisions.map_values(|k: Key| k[2])
}

/// From position `i` on, roles are not repeated and every revision has its source.
pub open spec fn check_revisions(revisions: Seq<Key>, sources: Seq<LocalRepositorySource>, i: int) -> Result<
    (),
    WorkspaceFailure,
>
    decreases revisions.len() - i,
{
    if i < 0 || i >= revisions.len() {
        Ok(())
    } else if roles_of(revisions).take(i).contains(revisions[i][2]) {
        Err(CrossRepoWorkspaceError::DuplicateRole(revisions[i][2]))
    } else {
        match source_position(sources, revisions[i][0], revisions[i][2], 0) {
            None => Err(
                CrossRepoWorkspaceError::SourceSetMismatch(
                    "missing source for "@ + pair_text(revisions[i][0], revisions[i][2]),
                ),
            ),
            Some(k) => if sources[k].revision@ != revisions[i][1] {
                Err(
                    CrossRepoWorkspaceError::RevisionMismatch {
                        role: revisions[i][2],
                        expected: revisions[i][1],
                        actual: sources[k].revision@,
                    },
                )
            } else {
                check_revisions(revisions, sources, i + 1)
            },
        }
    }
}

fn role_list(revisions: &[RepositoryRevision]) -> (r: Vec<String>)
    ensures
        texts(r@) == roles_of(keys(revisions@)),
{
    let mut out: Vec<String> = Vec::new();
    let mut i: usize = 0;
    while i < revisions.len()
        invariant
            i <= revisions@.len(),
            out@.len() == i,
            forall|j: int| 0 <= j < i ==> (#[trigger] out@[j])@ == revisions@[j].role@,
        decreases revisions@.len() - i,
    {
        out.push(revisions[i].role.clone());
        i += 1;
    }
    assert(texts(out@) =~= roles_of(keys(revisions@)));
    out
}

fn validate_revisions(revisions: &[RepositoryRevision], sources: &[LocalRepositorySource]) -> (r: Result<
    (),
    CrossRepoWorkspaceError,
>)
    ensures
        outcome(r) == check_revisions(keys(revisions@), sources@, 0),
{
    let ghost all = keys(revisions@);
    let roles = role_list(revisions);
    assert(texts(roles@).len() == roles@.len());
    let mut i: usize = 0;
    while i < revisions.len()
        invariant
            i <= revisions@.len(),
            all == keys(revisions@),
            texts(roles@) == roles_of(all),
            roles@.len() == revisions@.len(),
            check_revisions(all, sources@, 0) == check_revisions(all, sources@, i as int),
        decreases revisions@.len() - i,
    {
        let revision = &revisions[i];
        assert(all[i as int] == revision.key());
        let front = vstd::slice::slice_subrange(roles.as_slice(), 0, i);
        assert(texts(front@) =~= roles_of(all).take(i as int));
        if contains_text(front, revision.role.as_str()) {
            return Err(CrossRepoWorkspaceError::DuplicateRole(revision.role.clone()));
        }
        match find_source(sources, revision.repository.as_str(), revision.role.as_str(), 0) {
            None => {
                return Err(
                    CrossRepoWorkspaceError::SourceSetMismatch(
                        pair_message("missing source for ", revision.repository.as_str(), revision.role.as_str()),
                    ),
                );
            },
            Some(k) => {
                if !same_text(sources[k].revision.as_str(), revision.revision.as_str()) {
                    return Err(
                        CrossRepoWorkspaceError::RevisionMismatch {
                            role: revision.role.clone(),
                            expected: revision.revision.clone(),
                            actual: sources[k].revision.clone(),
                        },
                    );
                }
            },
        }
        i += 1;
    }
    Ok(())
}

pub open spec fn check_role(roles: Seq<Seq<char>>, role: Seq<char>) -> Result<(), WorkspaceFailure> {
    if roles.contains(role) {
        Ok(())
    } else {
        Err(CrossRepoWorkspaceError::UnknownRole(role))
    }
}

fn validate_roles(roles: &[String], wanted: &[String]) -> (r: Result<(), CrossRepoWorkspaceError>)
    ensures
        outcome(r) == check_all(texts(wanted@), |x: Seq<char>| check_role(texts(roles@), x)),
{
    let ghost all = texts(wanted@);
    let ghost check = |x: Seq<char>| check_role(texts(roles@), x);
    let mut i: usize = 0;
    assert(all.skip(0) =~= all);
    while i < wanted.len()
        invariant
            i <= wanted@.len(),
            all == texts(wanted@),
            check == (|x: Seq<char>| check_role(texts(roles@), x)),
            check_all(all, check) == check_all(all.skip(i as int), check),
        decreases wanted@.len() - i,
    {
        proof {
            lemma_check_step(all, i as int, check);
        }
        if !contains_text(roles, wanted[i].as_str()) {
            return Err(CrossRepoWorkspaceError::UnknownRole(wanted[i].clone()));
        }
        i += 1;
    }
    Ok(())
}

/// The first of two neighbours that override the same package of the same consumer.
pub open spec fn repeated_override(s: Seq<Key>) -> Option<Key>
    decreases s.len(),
{
    if s.len() < 2 {
        None
    } else if s[0][0] == s[1][0] && s[0][1] == s[1][1] && s[0][2] == s[1][2] {
        Some(s[0])
    } else {
        repeated_override(s.drop_first())
    }
}

fn find_repeated_override(overrides: &[CargoPatchOverride]) -> (r: Option<&CargoPatchOverride>)
    ensures
        match r {
            Some(o) => repeated_override(keys(overrides@)) == Some(o.key()),
            None => repeated_override(keys(overrides@)) is None,
        },
{
    let ghost all = keys(overrides@);
    let n: usize = overrides.len();
    let mut i: usize = 0;
    assert(all.skip(0) =~= all);
    while n - i >= 2
        invariant
            i <= n == overrides@.len(),
            all == keys(overrides@),
            repeated_override(all) == repeated_override(all.skip(i as int)),
        decreases n - i,
    {
        proof {
            assert(all.skip(i as int)[0] == overrides@[i as int].key());
            assert(all.skip(i as int)[1] == overrides@[i + 1].key());
            assert(all.skip(i as int).drop_first() =~= all.skip(i + 1));
        }
        let (a, b) = (&overrides[i], &overrides[i + 1]);
        if same_text(a.consumer_role.as_str(), b.consumer_role.as_str()) && same_text(a.source.as_str(), b.source.as_str())
            && same_text(a.package.as_str(), b.package.as_str()) {
            return Some(&overrides[i]);
        }
        i += 1;
    }
    None
}

pub open spec fn check_rule(roles: Seq<Seq<char>>, k: Key) -> Result<(), WorkspaceFailure> {
    if roles.contains(k[0]) && roles.contains(k[3]) {
        Ok(())
    } else {
        Err(CrossRepoWorkspaceError::UnknownRole(k[0] + " or "@ + k[3]))
    }
}

/// The overrides in order: none repeated, all between known roles.
pub open spec fn check_rules(roles: Seq<Seq<char>>, rules: Seq<Key>) -> Result<(), WorkspaceFailure> {
    match repeated_override(rules) {
        Some(k) => Err(CrossRepoWorkspaceError::DuplicateOverride { consumer_role: k[0], source: k[1], package: k[2] }),
        None => check_all(rules, |k: Key| check_rule(roles, k)),
    }
}

fn validate_rules(roles: &[String], rules: &[CargoPatchOverride]) -> (r: Result<(), CrossRepoWorkspaceError>)
    ensures
        outcome(r) == check_rules(texts(roles@), keys(rules@)),
{
    match find_repeated_override(rules) {
        Some(o) => {
            return Err(
                CrossRepoWorkspaceError::DuplicateOverride {
                    consumer_role: o.consumer_role.clone(),
                    source: o.source.clone(),
                    package: o.package.clone(),
                },
            );
        },
        None => {},
    }
    let ghost all = keys(rules@);
    let ghost check = |k: Key| check_rule(texts(roles@), k);
    let mut i: usize = 0;
    assert(all.skip(0) =~= all);
    while i < rules.len()
        invariant
            i <= rules@.len(),
            all == keys(rules@),
            repeated_override(all) is None,
            check == (|k: Key| check_rule(texts(roles@), k)),
            check_all(all, check) == check_all(all.skip(i as int), check),
        decreases rules@.len() - i,
    {
        proof {
            lemma_check_step(all, i as int, check);
            assert(all[i as int] == rules@[i as int].key());
        }
        if !contains_text(roles, rules[i].consumer_role.as_str()) || !contains_text(roles, rules[i].provider_role.as_str()) {
            let mut m = rules[i].consumer_role.clone();
            m.append(" or ");
            m.append(rules[i].provider_role.as_str());
            return Err(CrossRepoWorkspaceError::UnknownRole(m));
        }
        i += 1;
    }
    Ok(())
}

/// Whether a workspace can be made of the sources, and why not.
pub open spec fn check_request(
    revisions: Seq<Key>,
    sources: Seq<LocalRepositorySource>,
    patch_roles: Seq<Seq<char>>,
    rules: Seq<Key>,
    policy: CrossRepoWorkspacePolicy,
) -> Result<(), WorkspaceFailure> {
    if revisions.len() > policy.max_repositories {
        Err(
            CrossRepoWorkspaceError::RepositoryLimitExceeded {
                actual: revisions.len() as usize,
                limit: policy.max_repositories,
            },
        )
    } else if sources.len() != revisions.len() {
        Err(
            CrossRepoWorkspaceError::SourceSetMismatch(
                "expected "@ + decimal(revisions.len()) + " sources, got "@ + decimal(sources.len()),
            ),
        )
    } else {
        and_then(
            check_sources(sources, 0),
            and_then(
                check_revisions(revisions, sources, 0),
                and_then(
                    check_all(canonical(patch_roles), |x: Seq<char>| check_role(roles_of(revisions), x)),
                    check_rules(roles_of(revisions), sorted(rules)),
                ),
            ),
        )
    }
}

/// A request for a workspace that can be carried out once its checkouts are read.
pub struct WorkspaceRequest {
    pub compatibility: CompatibilitySet,
    pub sources: Vec<LocalRepositorySource>,
    pub allowed_patch_roles: Vec<String>,
    pub overrides: Vec<CargoPatchOverride>,
    pub policy: CrossRepoWorkspacePolicy,
}

impl WorkspaceRequest {
    /// Everything that can be checked before a checkout is read has been, and the roles
    /// and overrides are in order.
    pub open spec fn is_checked(&self) -> bool {
        let revisions = self.compatibility@.revisions;
        &&& revisions.len() <= self.policy.max_repositories
        &&& self.sources@.len() == revisions.len()
        &&& check_sources(self.sources@, 0) is Ok
        &&& check_revisions(revisions, self.sources@, 0) is Ok
        &&& strictly_ascending(texts(self.allowed_patch_roles@))
        &&& check_all(texts(self.allowed_patch_roles@), |x: Seq<char>| check_role(roles_of(revisions), x)) is Ok
        &&& ascending(keys(self.overrides@))
        &&& check_rules(roles_of(revisions), keys(self.overrides@)) is Ok
    }

    /// Checks everything that can be checked before a checkout is read.
    pub fn new(
        compatibility: CompatibilitySet,
        sources: Vec<LocalRepositorySource>,
        allowed_patch_roles: Vec<String>,
        overrides: Vec<CargoPatchOverride>,
        policy: CrossRepoWorkspacePolicy,
    ) -> (r: Result<Self, CrossRepoWorkspaceError>)
        ensures
            ({
                let check = check_request(
                    compatibility@.revisions,
                    sources@,
                    texts(allowed_patch_roles@),
                    keys(overrides@),
                    policy,
                );
                match r {
                    Ok(w) => {
                        &&& check is Ok
                        &&& w.compatibility == compatibility
                        &&& w.sources == sources
                        &&& texts(w.allowed_patch_roles@) == canonical(texts(allowed_patch_roles@))
                        &&& keys(w.overrides@) == sorted(keys(overrides@))
                        &&& w.policy == policy
                        &&& w.is_checked()
                    },
                    Err(e) => check == Err::<(), WorkspaceFailure>(e@),
                }
            }),
    {
        let n: usize = compatibility.revisions().len();
        assert(n == compatibility@.revisions.len());
        if n > policy.max_repositories {
            return Err(
                CrossRepoWorkspaceError::RepositoryLimitExceeded { actual: n, limit: policy.max_repositories },
            );
        }
        if sources.len() != n {
            let mut m = "expected ".to_owned();
            m.append(decimal_text(n as u64).as_str());
            m.append(" sources, got ");
            m.append(decimal_text(sources.len() as u64).as_str());
            return Err(CrossRepoWorkspaceError::SourceSetMismatch(m));
        }
        validate_sources(sources.as_slice())?;
        validate_revisions(compatibility.revisions(), sources.as_slice())?;
        let roles = role_list(compatibility.revisions());
        let allowed = canonical_texts(allowed_patch_roles);
        validate_roles(roles.as_slice(), allowed.as_slice())?;
        let rules = sort_records(overrides);
        validate_rules(roles.as_slice(), rules.as_slice())?;
        Ok(WorkspaceRequest { compatibility, sources, allowed_patch_roles: allowed, overrides: rules, policy })
    }
}

// ---------------------------------------------------------------------------
// Checkouts
// ---------------------------------------------------------------------------

/// Why something could not be read.
#[derive(Debug, Clone, PartialEq, Eq)]
pub enum ReadFault {
    Git(String),
    Io(String),
}

/// What stands at a tracked path.
#[derive(Debug, PartialEq, Eq)]
pub enum TrackedFile {
    /// A regular file with its bytes.
    Regular(Vec<u8>),
    /// Something else, a link among them.
    Other,
    Unreadable(String),
}

/// One tracked path; none where it is not a text.
#[derive(Debug, PartialEq, Eq)]
pub struct TrackedEntry {
    pub path: Option<String>,
    pub file: TrackedFile,
}

/// What was read of a checkout: its head, whether it is clean, and its tracked files.
#[derive(Debug, PartialEq, Eq)]
pub struct Checkout {
    pub head: Result<String, ReadFault>,
    pub clean: Result<(), ReadFault>,
    pub entries: Result<Vec<TrackedEntry>, ReadFault>,
}

impl ReadFault {
    pub open spec fn failure(&self) -> WorkspaceFailure {
        match self {
            ReadFault::Git(m) => CrossRepoWorkspaceError::Git(m@),
            ReadFault::Io(m) => CrossRepoWorkspaceError::Io(m@),
        }
    }

    fn error(&self) -> (r: CrossRepoWorkspaceError)
        ensures
            r@ == self.failure(),
    {
        match self {
            ReadFault::Git(m) => CrossRepoWorkspaceError::Git(m.clone()),
            ReadFault::Io(m) => CrossRepoWorkspaceError::Io(m.clone()),
        }
    }
}

/// The checkout is at the expected revision and has no local changes.
pub open spec fn check_head(checkout: Checkout, role: Seq<char>, revision: Seq<char>) -> Result<(), WorkspaceFailure> {
    match checkout.head {
        Err(f) => Err(f.failure()),
        Ok(head) => if trim(head@) != revision {
            Err(CrossRepoWorkspaceError::RevisionMismatch { role, expected: revision, actual: trim(head@) })
        } else {
            match checkout.clean {
                Err(f) => Err(f.failure()),
                Ok(_) => Ok(()),
            }
        },
    }
}

fn verify_git_source(checkout: &Checkout, expected: &RepositoryRevision) -> (r: Result<(), CrossRepoWorkspaceError>)
    ensures
        outcome(r) == check_head(*checkout, expected.role@, expected.revision@),
{
    match &checkout.head {
        Err(f) => {
            return Err(f.error());
        },
        Ok(head) => {
            let head = trim_text(head.as_str());
            if !same_text(head.as_str(), expected.revision.as_str()) {
                return Err(
                    CrossRepoWorkspaceError::RevisionMismatch {
                        role: expected.role.clone(),
                        expected: expected.revision.clone(),
                        actual: head,
                    },
                );
            }
        },
    }
    match &checkout.clean {
        Err(f) => Err(f.error()),
        Ok(_) => Ok(()),
    }
}

/// The path and the bytes of a tracked file.
pub open spec fn entry_file(entry: TrackedEntry) -> Result<(Seq<char>, Seq<u8>), WorkspaceFailure> {
    match entry.path {
        None => Err(CrossRepoWorkspaceError::UnsafeTrackedPath("non-UTF8 path"@)),
        Some(path) => match normalized(path@) {
            None => Err(CrossRepoWorkspaceError::UnsafeTrackedPath(path@)),
            Some(p) => match entry.file {
                TrackedFile::Unreadable(m) => Err(CrossRepoWorkspaceError::Io(m@)),
                TrackedFile::Other => Err(CrossRepoWorkspaceError::UnsupportedTrackedEntry(p)),
                TrackedFile::Regular(bytes) => Ok((p, bytes@)),
            },
        },
    }
}

/// The tree of the tracked files.
pub open spec fn tracked_tree(entries: Seq<TrackedEntry>) -> Result<Map<Seq<char>, Seq<u8>>, WorkspaceFailure>
    decreases entries.len(),
{
    if entries.len() == 0 {
        Ok(Map::empty())
    } else {
        match tracked_tree(entries.drop_last()) {
            Err(e) => Err(e),
            Ok(tree) => match entry_file(entries.last()) {
                Err(e) => Err(e),
                Ok((path, bytes)) => if is_skipped(path) {
                    Ok(tree)
                } else {
                    Ok(tree.insert(path, bytes))
                },
            },
        }
    }
}

proof fn lemma_tracked_fails(entries: Seq<TrackedEntry>, n: int)
    requires
        0 <= n <= entries.len(),
        tracked_tree(entries.take(n)) is Err,
    ensures
        tracked_tree(entries) == tracked_tree(entries.take(n)),
    decreases entries.len() - n,
{
    if n < entries.len() {
        assert(entries.take(n + 1).drop_last() =~= entries.take(n));
        lemma_tracked_fails(entries, n + 1);
    } else {
        assert(entries.take(n) =~= entries);
    }
}

fn read_entry(entry: TrackedEntry) -> (r: Result<TreeFile, CrossRepoWorkspaceError>)
    ensures
        match r {
            Ok(f) => entry_file(entry) == Ok::<(Seq<char>, Seq<u8>), WorkspaceFailure>((f.path@, f.contents@)),
            Err(e) => entry_file(entry) == Err::<(Seq<char>, Seq<u8>), WorkspaceFailure>(e@),
        },
{
    let path = match entry.path {
        Some(path) => path,
        None => {
            return Err(CrossRepoWorkspaceError::UnsafeTrackedPath("non-UTF8 path".to_owned()));
        },
    };
    let path = normalize_relative(path.as_str())?;
    match entry.file {
        TrackedFile::Unreadable(m) => Err(CrossRepoWorkspaceError::Io(m)),
        TrackedFile::Other => Err(CrossRepoWorkspaceError::UnsupportedTrackedEntry(path)),
        TrackedFile::Regular(contents) => Ok(TreeFile { path, contents }),
    }
}

fn read_entries(entries: Vec<TrackedEntry>) -> (r: Result<Vec<TreeFile>, CrossRepoWorkspaceError>)
    ensures
        match r {
            Ok(files) => tracked_tree(entries@) == Ok::<Map<Seq<char>, Seq<u8>>, WorkspaceFailure>(gathered(files@)),
            Err(e) => tracked_tree(entries@) == Err::<Map<Seq<char>, Seq<u8>>, WorkspaceFailure>(e@),
        },
{
    let ghost all = entries@;
    let mut reversed = reverse_records(entries);
    let mut files: Vec<TreeFile> = Vec::new();
    let ghost mut done: int = 0;
    assert(all.take(0).len() == 0);
    while reversed.len() > 0
        invariant
            all == entries@,
            0 <= done,
            done + reversed@.len() == all.len(),
            forall|j: int| 0 <= j < reversed@.len() ==> #[trigger] reversed@[j] == all[all.len() - 1 - j],
            tracked_tree(all.take(done)) == Ok::<Map<Seq<char>, Seq<u8>>, WorkspaceFailure>(gathered(files@)),
        decreases reversed@.len(),
    {
        let e = reversed.pop().unwrap();
        proof {
            assert(e == all[done]);
            assert(all.take(done + 1).drop_last() =~= all.take(done));
            assert(all.take(done + 1).last() == e);
        }
        match read_entry(e) {
            Ok(f) => {
                let ghost before = files@;
                files.push(f);
                assert(files@.drop_last() =~= before);
            },
            Err(fault) => {
                proof {
                    lemma_tracked_fails(all, done + 1);
                }
                return Err(fault);
            },
        }
        proof {
            done = done + 1;
        }
    }
    assert(all.take(done) =~= all);
    Ok(files)
}

/// The tree of a checkout of a revision.
pub open spec fn checkout_tree(checkout: Checkout, role: Seq<char>, revision: Seq<char>) -> Result<
    Map<Seq<char>, Seq<u8>>,
    WorkspaceFailure,
> {
    match check_head(checkout, role, revision) {
        Err(e) => Err(e),
        Ok(_) => match checkout.entries {
            Err(f) => Err(f.failure()),
            Ok(entries) => tracked_tree(entries@),
        },
    }
}

/// The tree of a checkout within the limits of one repository.
pub open spec fn admitted_tree(
    checkout: Checkout,
    role: Seq<char>,
    revision: Seq<char>,
    policy: CandidateStoragePolicy,
) -> Result<Map<Seq<char>, Seq<u8>>, WorkspaceFailure> {
    match checkout_tree(checkout, role, revision) {
        Err(e) => Err(e),
        Ok(tree) => match check_storage(policy, tree) {
            Err(e) => Err(CrossRepoWorkspaceError::CandidateState(e)),
            Ok(_) => Ok(tree),
        },
    }
}

fn admit_checkout(checkout: Checkout, revision: &RepositoryRevision, policy: CandidateStoragePolicy) -> (r: Result<
    CandidateState,
    CrossRepoWorkspaceError,
>)
    ensures
        match r {
            Ok(state) => {
                &&& admitted_tree(checkout, revision.role@, revision.revision@, policy) == Ok::<
                    Map<Seq<char>, Seq<u8>>,
                    WorkspaceFailure,
                >(state.files())
                &&& state.limits() == policy
                &&& state.parent() is None
                &&& state.patch() is None
            },
            Err(e) => admitted_tree(checkout, revision.role@, revision.revision@, policy) == Err::<
                Map<Seq<char>, Seq<u8>>,
                WorkspaceFailure,
            >(e@),
        },
{
    verify_git_source(&checkout, revision)?;
    let files = match checkout.entries {
        Ok(entries) => read_entries(entries)?,
        Err(f) => {
            return Err(f.error());
        },
    };
    match CandidateState::baseline(files, policy) {
        Ok(state) => Ok(state),
        Err(e) => Err(CrossRepoWorkspaceError::CandidateState(e)),
    }
}

// ---------------------------------------------------------------------------
// Repositories of a workspace
// ---------------------------------------------------------------------------

/// One repository of a workspace.
pub struct MaterializedRepository {
    pub repository: String,
    pub role: String,
    pub revision: String,
    pub state: CandidateState,
    pub patch_set_ids: Vec<String>,
}

/// One repository over mathematical values.
pub ghost struct RepositoryView {
    pub repository: Seq<char>,
    pub role: Seq<char>,
    pub revision: Seq<char>,
    pub files: Map<Seq<char>, Seq<u8>>,
    pub limits: CandidateStoragePolicy,
    /// The identity of the state before the last patch set.
    pub parent: Option<Seq<char>>,
    /// The identity of the last patch set.
    pub patch: Option<Seq<char>>,
    pub patch_set_ids: Seq<Seq<char>>,
}

impl MaterializedRepository {
    pub open spec fn view(&self) -> RepositoryView {
        RepositoryView {
            repository: self.repository@,
            role: self.role@,
            revision: self.revision@,
            files: self.state.files(),
            limits: self.state.limits(),
            parent: self.state.parent(),
            patch: self.state.patch(),
            patch_set_ids: texts(self.patch_set_ids@),
        }
    }
}

pub open spec fn repository_views(repositories: Seq<MaterializedRepository>) -> Seq<RepositoryView> {
    repositories.map_values(|m: MaterializedRepository| m@)
}

impl Keyed for MaterializedRepository {
    open spec fn key(&self) -> Key {
        seq![self.role@]
    }

    fn order_by_key(&self, other: &Self) -> (r: Order) {
        proof {
            reveal_with_fuel(key_order, 2);
        }
        order_texts(self.role.as_str(), other.role.as_str())
    }

    fn primary(&self) -> (r: &str) {
        self.role.as_str()
    }
}

/// The bytes of all repositories together.
pub open spec fn total_of(repositories: Seq<RepositoryView>) -> nat
    decreases repositories.len(),
{
    if repositories.len() == 0 {
        0
    } else {
        total_of(repositories.drop_last()) + bytes_of(repositories.last().files)
    }
}

proof fn lemma_total_update(repositories: Seq<RepositoryView>, k: int, other: RepositoryView)
    requires
        0 <= k < repositories.len(),
    ensures
        total_of(repositories.update(k, other)) == total_of(repositories) - bytes_of(repositories[k].files) + bytes_of(
            other.files,
        ),
        bytes_of(repositories[k].files) <= total_of(repositories),
    decreases repositories.len(),
{
    let front = repositories.drop_last();
    if k < front.len() {
        lemma_total_update(front, k, other);
        assert(repositories.update(k, other).drop_last() =~= front.update(k, other));
    } else {
        assert(repositories.update(k, other).drop_last() =~= front);
    }
}

/// What a repository of a workspace is before any patch.
pub open spec fn fresh_view(k: Key, checkout: Checkout, policy: CandidateStoragePolicy) -> RepositoryView {
    RepositoryView {
        repository: k[0],
        role: k[2],
        revision: k[1],
        files: admitted_tree(checkout, k[2], k[1], policy)->Ok_0,
        limits: policy,
        parent: None,
        patch: None,
        patch_set_ids: Seq::empty(),
    }
}

/// From position `i` on, the checkouts can be admitted and stay within the limit of the
/// workspace, when those before take up `total` bytes.
pub open spec fn check_checkouts(
    revisions: Seq<Key>,
    checkouts: Seq<Checkout>,
    policy: CrossRepoWorkspacePolicy,
    i: int,
    total: nat,
) -> Result<(), WorkspaceFailure>
    decreases revisions.len() - i,
{
    if i < 0 || i >= revisions.len() {
        Ok(())
    } else {
        match admitted_tree(checkouts[i], revisions[i][2], revisions[i][1], policy.per_repository) {
            Err(e) => Err(e),
            Ok(tree) => and_then(
                check_total(total + bytes_of(tree), policy.max_total_bytes),
                check_checkouts(revisions, checkouts, policy, i + 1, total + bytes_of(tree)),
            ),
        }
    }
}

pub open spec fn check_total(total: nat, limit: u64) -> Result<(), WorkspaceFailure> {
    if total > u64::MAX {
        Err(CrossRepoWorkspaceError::TotalByteLimitExceeded { actual: u64::MAX, limit })
    } else if total > limit {
        Err(CrossRepoWorkspaceError::TotalByteLimitExceeded { actual: total as u64, limit })
    } else {
        Ok(())
    }
}

fn checked_total(left: u64, right: u64, limit: u64) -> (r: Result<u64, CrossRepoWorkspaceError>)
    ensures
        match r {
            Ok(t) => check_total((left + right) as nat, limit) is Ok && t == left + right,
            Err(e) => check_total((left + right) as nat, limit) == Err::<(), WorkspaceFailure>(e@),
        },
{
    match left.checked_add(right) {
        None => Err(CrossRepoWorkspaceError::TotalByteLimitExceeded { actual: u64::MAX, limit }),
        Some(total) => {
            if total > limit {
                return Err(CrossRepoWorkspaceError::TotalByteLimitExceeded { actual: total, limit });
            }
            Ok(total)
        },
    }
}

fn build_repositories(revisions: &[RepositoryRevision], checkouts: Vec<Checkout>, policy: CrossRepoWorkspacePolicy) -> (r: Result<
    Vec<MaterializedRepository>,
    CrossRepoWorkspaceError,
>)
    requires
        checkouts@.len() == revisions@.len(),
    ensures
        match r {
            Ok(out) => {
                &&& check_checkouts(keys(revisions@), checkouts@, policy, 0, 0) is Ok
                &&& out@.len() == revisions@.len()
                &&& forall|i: int|
                    0 <= i < out@.len() ==> (#[trigger] out@[i])@ == fresh_view(
                        revisions@[i].key(),
                        checkouts@[i],
                        policy.per_repository,
                    )
                &&& total_of(repository_views(out@)) <= policy.max_total_bytes
            },
            Err(e) => check_checkouts(keys(revisions@), checkouts@, policy, 0, 0) == Err::<(), WorkspaceFailure>(e@),
        },
{
    let ghost all = keys(revisions@);
    let ghost given = checkouts@;
    let mut rest = reverse_records(checkouts);
    let mut out: Vec<MaterializedRepository> = Vec::new();
    let mut total: u64 = 0;
    let mut i: usize = 0;
    assert(repository_views(out@) =~= Seq::empty());
    while i < revisions.len()
        invariant
            i <= revisions@.len(),
            all == keys(revisions@),
            given == checkouts@,
            given.len() == revisions@.len(),
            rest@.len() == revisions@.len() - i,
            forall|j: int| 0 <= j < rest@.len() ==> #[trigger] rest@[j] == given[given.len() - 1 - j],
            out@.len() == i,
            forall|j: int|
                0 <= j < i ==> (#[trigger] out@[j])@ == fresh_view(revisions@[j].key(), given[j], policy.per_repository),
            total == total_of(repository_views(out@)),
            total <= policy.max_total_bytes,
            check_checkouts(all, given, policy, 0, 0) == check_checkouts(all, given, policy, i as int, total as nat),
        decreases revisions@.len() - i,
    {
        let checkout = rest.pop().unwrap();
        let revision = &revisions[i];
        proof {
            assert(checkout == given[i as int]);
            assert(all[i as int] == revision.key());
        }
        let state = admit_checkout(checkout, revision, policy.per_repository)?;
        total = checked_total(total, state.usage().bytes, policy.max_total_bytes)?;
        let ghost before = out@;
        let repository = MaterializedRepository {
            repository: revision.repository.clone(),
            role: revision.role.clone(),
            revision: revision.revision.clone(),
            state,
            patch_set_ids: Vec::new(),
        };
        assert(repository@.patch_set_ids =~= Seq::empty());
        out.push(repository);
        proof {
            assert(repository_views(out@).drop_last() =~= repository_views(before));
            assert(repository_views(out@).last() == repository@);
        }
        i += 1;
    }
    Ok(out)
}

/// The position of the repository with a role.
pub open spec fn role_position(repositories: Seq<RepositoryView>, role: Seq<char>, i: int) -> Option<int>
    decreases repositories.len() - i,
{
    if i < 0 || i >= repositories.len() {
        None
    } else if repositories[i].role == role {
        Some(i)
    } else {
        role_position(repositories, role, i + 1)
    }
}

proof fn lemma_role_position(repositories: Seq<RepositoryView>, role: Seq<char>, i: int)
    requires
        0 <= i <= repositories.len(),
    ensures
        role_position(repositories, role, i) matches Some(k) ==> i <= k < repositories.len() && repositories[k].role == role,
    decreases repositories.len() - i,
{
    if i < repositories.len() && repositories[i].role != role {
        lemma_role_position(repositories, role, i + 1);
    }
}

fn find_role(repositories: &[MaterializedRepository], role: &str) -> (r: Option<usize>)
    ensures
        match r {
            Some(k) => k < repositories@.len() && role_position(repository_views(repositories@), role@, 0) == Some(k as int)
                && repositories@[k as int].role@ == role@,
            None => role_position(repository_views(repositories@), role@, 0) is None,
        },
{
    let ghost all = repository_views(repositories@);
    let mut i: usize = 0;
    while i < repositories.len()
        invariant
            i <= repositories@.len(),
            all == repository_views(repositories@),
            role_position(all, role@, 0) == role_position(all, role@, i as int),
        decreases repositories@.len() - i,
    {
        assert(all[i as int] == repositories@[i as int]@);
        if same_text(repositories[i].role.as_str(), role) {
            return Some(i);
        }
        i += 1;
    }
    None
}

// ---------------------------------------------------------------------------
// Package overrides
// ---------------------------------------------------------------------------

/// Where the tree of a repository is written.
pub open spec fn root_of(control_root: Seq<char>, files: Map<Seq<char>, Seq<u8>>) -> Seq<char> {
    control_root + "/"@ + tree_identity(files)
}

/// The manifest of a package in a repository.
pub open spec fn manifest_path(provider_path: Seq<char>) -> Seq<char> {
    if provider_path == seq!['.'] {
        "Cargo.toml"@
    } else {
        provider_path + "/Cargo.toml"@
    }
}

fn manifest_of(provider_path: &str) -> (r: String)
    ensures
        r@ == manifest_path(provider_path@),
{
    if is_text_dot(provider_path) {
        return "Cargo.toml".to_owned();
    }
    let mut out = provider_path.to_owned();
    out.append("/Cargo.toml");
    out
}

/// The provider of an override has the package.
pub open spec fn check_provider(repositories: Seq<RepositoryView>, k: Key) -> Result<(), WorkspaceFailure> {
    match role_position(repositories, k[3], 0) {
        None => Err(CrossRepoWorkspaceError::UnknownRole(k[3])),
        Some(j) => if repositories[j].files.dom().contains(manifest_path(k[4])) {
            Ok(())
        } else {
            Err(
                CrossRepoWorkspaceError::InvalidOverride("provider "@ + pair_text(k[3], k[4]) + " has no Cargo.toml"@),
            )
        },
    }
}

pub open spec fn check_providers(repositories: Seq<RepositoryView>, rules: Seq<Key>) -> Result<(), WorkspaceFailure> {
    check_all(rules, |k: Key| check_provider(repositories, k))
}

fn validate_providers(repositories: &[MaterializedRepository], rules: &[CargoPatchOverride]) -> (r: Result<
    (),
    CrossRepoWorkspaceError,
>)
    ensures
        outcome(r) == check_providers(repository_views(repositories@), keys(rules@)),
{
    let ghost views = repository_views(repositories@);
    let ghost all = keys(rules@);
    let ghost check = |k: Key| check_provider(views, k);
    let mut i: usize = 0;
    assert(all.skip(0) =~= all);
    while i < rules.len()
        invariant
            i <= rules@.len(),
            views == repository_views(repositories@),
            all == keys(rules@),
            check == (|k: Key| check_provider(views, k)),
            check_all(all, check) == check_all(all.skip(i as int), check),
        decreases rules@.len() - i,
    {
        proof {
            lemma_check_step(all, i as int, check);
            assert(all[i as int] == rules@[i as int].key());
        }
        let rule = &rules[i];
        match find_role(repositories, rule.provider_role.as_str()) {
            None => {
                return Err(CrossRepoWorkspaceError::UnknownRole(rule.provider_role.clone()));
            },
            Some(j) => {
                assert(views[j as int] == repositories@[j as int]@);
                if repositories[j].state.root().get(manifest_of(rule.provider_path.as_str()).as_str()).is_none() {
                    let mut m = pair_message("provider ", rule.provider_role.as_str(), rule.provider_path.as_str());
                    m.append(" has no Cargo.toml");
                    return Err(CrossRepoWorkspaceError::InvalidOverride(m));
                }
            },
        }
        i += 1;
    }
    Ok(())
}

/// The source of the last override of a consumer.
pub open spec fn last_source(rules: Seq<Key>, consumer: Seq<char>) -> Option<Seq<char>>
    decreases rules.len(),
{
    if rules.len() == 0 {
        None
    } else if rules.last()[0] == consumer {
        Some(rules.last()[1])
    } else {
        last_source(rules.drop_last(), consumer)
    }
}

/// The table of a source and one line for a package.
pub open spec fn rule_text(control_root: Seq<char>, repositories: Seq<RepositoryView>, k: Key, first_of_source: bool) -> Seq<char> {
    let files = repositories[role_position(repositories, k[3], 0)->0].files;
    (if first_of_source {
        "\n[patch."@ + quoted(k[1]) + "]\n"@
    } else {
        Seq::empty()
    }) + quoted(k[2]) + " = { path = "@ + quoted(root_of(control_root, files) + "/"@ + k[4]) + " }\n"@
}

/// The override configuration of a consumer.
pub open spec fn config_text(
    control_root: Seq<char>,
    repositories: Seq<RepositoryView>,
    rules: Seq<Key>,
    consumer: Seq<char>,
) -> Seq<char>
    decreases rules.len(),
{
    if rules.len() == 0 {
        "# generated by RSI CrossRepoWorkspace; do not commit\n"@
    } else {
        let front = rules.drop_last();
        let k = rules.last();
        config_text(control_root, repositories, front, consumer) + (if k[0] == consumer {
            rule_text(control_root, repositories, k, last_source(front, consumer) != Some(k[1]))
        } else {
            Seq::empty()
        })
    }
}

/// The consumers of the overrides, each once, in ascending order.
pub open spec fn consumers_of(rules: Seq<Key>) -> Seq<Seq<char>> {
    canonical(rules.map_values(|k: Key| k[0]))
}

/// The override configuration of one consumer.
#[derive(Debug, Clone, PartialEq, Eq)]
pub struct OverrideConfig {
    pub consumer_role: String,
    pub path: String,
    pub text: String,
}

/// The configurations are those of the consumers, in order.
pub open spec fn are_configs_of(
    configs: Seq<OverrideConfig>,
    control_root: Seq<char>,
    repositories: Seq<RepositoryView>,
    rules: Seq<Key>,
) -> bool {
    &&& configs.len() == consumers_of(rules).len()
    &&& forall|i: int|
        0 <= i < configs.len() ==> {
            &&& (#[trigger] configs[i]).consumer_role@ == consumers_of(rules)[i]
            &&& configs[i].path@ == control_root + "/cargo-overrides/"@ + decimal(i as nat) + ".toml"@
            &&& configs[i].text@ == config_text(control_root, repositories, rules, consumers_of(rules)[i])
        }
}

fn render_rule(control_root: &str, repository: &MaterializedRepository, rule: &CargoPatchOverride, first_of_source: bool, Ghost(views): Ghost<Seq<RepositoryView>>, Ghost(j): Ghost<int>) -> (r: String)
    requires
        0 <= j < views.len(),
        role_position(views, rule.provider_role@, 0) == Some(j),
        views[j] == repository@,
    ensures
        r@ == rule_text(control_root@, views, rule.key(), first_of_source),
{
    let mut root = control_root.to_owned();
    root.append("/");
    root.append(repository.state.state_id());
    root.append("/");
    root.append(rule.provider_path.as_str());
    assert(views[j].files == repository.state.files());
    assert(root@ == root_of(control_root@, views[j].files) + "/"@ + rule.key()[4]);
    let mut out = String::new();
    if first_of_source {
        out = "\n[patch.".to_owned();
        out.append(toml_quote(rule.source.as_str()).as_str());
        out.append("]\n");
    }
    assert(out@ =~= if first_of_source {
        "\n[patch."@ + quoted(rule.source@) + "]\n"@
    } else {
        Seq::empty()
    });
    out.append(toml_quote(rule.package.as_str()).as_str());
    out.append(" = { path = ");
    out.append(toml_quote(root.as_str()).as_str());
    out.append(" }\n");
    out
}

fn render_config(control_root: &str, repositories: &[MaterializedRepository], rules: &[CargoPatchOverride], consumer: &str) -> (r: String)
    requires
        ascending(keys(rules@)),
        check_providers(repository_views(repositories@), keys(rules@)) is Ok,
    ensures
        r@ == config_text(control_root@, repository_views(repositories@), keys(rules@), consumer@),
{
    let ghost views = repository_views(repositories@);
    let ghost all = keys(rules@);
    let ghost check = |k: Key| check_provider(views, k);
    proof {
        lemma_check_all(all, check);
    }
    let mut out = "# generated by RSI CrossRepoWorkspace; do not commit\n".to_owned();
    let mut previous: Option<usize> = None;
    let mut i: usize = 0;
    assert(all.take(0).len() == 0);
    while i < rules.len()
        invariant
            i <= rules@.len(),
            views == repository_views(repositories@),
            all == keys(rules@),
            check == (|k: Key| check_provider(views, k)),
            forall|n: int| 0 <= n < all.len() ==> (#[trigger] check(all[n])) is Ok,
            out@ == config_text(control_root@, views, all.take(i as int), consumer@),
            match previous {
                Some(p) => p < i && last_source(all.take(i as int), consumer@) == Some(rules@[p as int].source@),
                None => last_source(all.take(i as int), consumer@) is None,
            },
        decreases rules@.len() - i,
    {
        let rule = &rules[i];
        proof {
            assert(all.take(i + 1).drop_last() =~= all.take(i as int));
            assert(all.take(i + 1).last() == all[i as int]);
            assert(all[i as int] == rule.key());
            assert(check(all[i as int]) is Ok);
        }
        if same_text(rule.consumer_role.as_str(), consumer) {
            let first_of_source = match previous {
                Some(p) => !same_text(rules[p].source.as_str(), rule.source.as_str()),
                None => true,
            };
            match find_role(repositories, rule.provider_role.as_str()) {
                Some(j) => {
                    assert(views[j as int] == repositories@[j as int]@);
                    let text = render_rule(
                        control_root,
                        &repositories[j],
                        rule,
                        first_of_source,
                        Ghost(views),
                        Ghost(j as int),
                    );
                    out.append(text.as_str());
                },
                None => {},
            }
            previous = Some(i);
        } else {
            assert(out@ + Seq::<char>::empty() =~= out@);
        }
        i += 1;
    }
    assert(all.take(i as int) =~= all);
    out
}

fn consumer_list(rules: &[CargoPatchOverride]) -> (r: Vec<String>)
    ensures
        texts(r@) == consumers_of(keys(rules@)),
{
    let mut out: Vec<String> = Vec::new();
    let mut i: usize = 0;
    while i < rules.len()
        invariant
            i <= rules@.len(),
            out@.len() == i,
            forall|j: int| 0 <= j < i ==> (#[trigger] out@[j])@ == rules@[j].consumer_role@,
        decreases rules@.len() - i,
    {
        out.push(rules[i].consumer_role.clone());
        i += 1;
    }
    assert(texts(out@) =~= keys(rules@).map_values(|k: Key| k[0]));
    canonical_texts(out)
}

fn render_configs(control_root: &str, repositories: &[MaterializedRepository], rules: &[CargoPatchOverride]) -> (r: Result<
    Vec<OverrideConfig>,
    CrossRepoWorkspaceError,
>)
    requires
        ascending(keys(rules@)),
    ensures
        match r {
            Ok(configs) => {
                &&& check_providers(repository_views(repositories@), keys(rules@)) is Ok
                &&& are_configs_of(configs@, control_root@, repository_views(repositories@), keys(rules@))
            },
            Err(e) => check_providers(repository_views(repositories@), keys(rules@)) == Err::<(), WorkspaceFailure>(e@),
        },
{
    validate_providers(repositories, rules)?;
    let ghost views = repository_views(repositories@);
    let ghost all = keys(rules@);
    let consumers = consumer_list(rules);
    let mut out: Vec<OverrideConfig> = Vec::new();
    let mut i: usize = 0;
    while i < consumers.len()
        invariant
            i <= consumers@.len(),
            views == repository_views(repositories@),
            all == keys(rules@),
            ascending(all),
            check_providers(views, all) is Ok,
            texts(consumers@) == consumers_of(all),
            out@.len() == i,
            forall|j: int|
                0 <= j < i ==> {
                    &&& (#[trigger] out@[j]).consumer_role@ == consumers_of(all)[j]
                    &&& out@[j].path@ == control_root@ + "/cargo-overrides/"@ + decimal(j as nat) + ".toml"@
                    &&& out@[j].text@ == config_text(control_root@, views, all, consumers_of(all)[j])
                },
        decreases consumers@.len() - i,
    {
        assert(texts(consumers@)[i as int] == consumers@[i as int]@);
        let text = render_config(control_root, repositories, rules, consumers[i].as_str());
        let mut path = control_root.to_owned();
        path.append("/cargo-overrides/");
        path.append(decimal_text(i as u64).as_str());
        path.append(".toml");
        out.push(OverrideConfig { consumer_role: consumers[i].clone(), path, text });
        i += 1;
    }
    assert(texts(consumers@).len() == consumers@.len());
    Ok(out)
}

// ---------------------------------------------------------------------------
// Workspaces
// ---------------------------------------------------------------------------

#[derive(Debug, Clone, PartialEq, Eq)]
pub struct EffectiveRepositoryState {
    pub repository: String,
    pub role: String,
    pub base_revision: String,
    pub state_id: String,
    pub patch_set_ids: Vec<String>,
}

#[derive(Debug, Clone, PartialEq, Eq)]
pub struct EffectiveCargoOverride {
    pub consumer_role: String,
    pub source: String,
    pub package: String,
    pub provider_role: String,
    pub provider_path: String,
}

#[derive(Debug, Clone, PartialEq, Eq)]
pub struct CrossRepoWorkspaceResult {
    pub compatibility_fingerprint: String,
    pub repositories: Vec<EffectiveRepositoryState>,
    pub overrides: Vec<EffectiveCargoOverride>,
}

impl EffectiveRepositoryState {
    /// The state is that of the repository.
    pub open spec fn is_of(&self, m: RepositoryView) -> bool {
        &&& self.repository@ == m.repository
        &&& self.role@ == m.role
        &&& self.base_revision@ == m.revision
        &&& self.state_id@ == tree_identity(m.files)
        &&& texts(self.patch_set_ids@) == m.patch_set_ids
    }
}

impl EffectiveCargoOverride {
    pub open spec fn rule(&self) -> Key {
        seq![self.consumer_role@, self.source@, self.package@, self.provider_role@, self.provider_path@]
    }
}

/// The trees of a compatibility set, with what was applied to them.
pub struct CrossRepoWorkspace {
    compatibility: CompatibilitySet,
    repositories: Vec<MaterializedRepository>,
    allowed_patch_roles: Vec<String>,
    overrides: Vec<CargoPatchOverride>,
    override_configs: Vec<OverrideConfig>,
    control_root: String,
    policy: CrossRepoWorkspacePolicy,
}

/// Whether a patch set can be applied to a role of a workspace, and why not.
pub open spec fn check_patch(
    repositories: Seq<RepositoryView>,
    allowed: Seq<Seq<char>>,
    policy: CrossRepoWorkspacePolicy,
    role: Seq<char>,
    patch_set: PatchSet,
) -> Result<(), WorkspaceFailure> {
    if !allowed.contains(role) {
        Err(CrossRepoWorkspaceError::PatchRoleNotAllowed(role))
    } else {
        match role_position(repositories, role, 0) {
            None => Err(CrossRepoWorkspaceError::UnknownRole(role)),
            Some(k) => match check_child(repositories[k].limits, repositories[k].files, patch_set) {
                Err(e) => Err(CrossRepoWorkspaceError::CandidateState(e)),
                Ok(_) => check_total(
                    (total_of(repositories) - bytes_of(repositories[k].files) + bytes_of(
                        child_files(repositories[k].files, patch_set),
                    )) as nat,
                    policy.max_total_bytes,
                ),
            },
        }
    }
}

/// A repository after a patch set.
pub open spec fn patched(m: RepositoryView, patch_set: PatchSet) -> RepositoryView {
    RepositoryView {
        files: child_files(m.files, patch_set),
        parent: Some(tree_identity(m.files)),
        patch: Some(patch_set.digest()),
        patch_set_ids: m.patch_set_ids.push(patch_set.digest()),
        ..m
    }
}

/// The repositories after a patch set on a role.
pub open spec fn after_patch(repositories: Seq<RepositoryView>, role: Seq<char>, patch_set: PatchSet) -> Seq<RepositoryView> {
    let k = role_position(repositories, role, 0)->0;
    repositories.update(k, patched(repositories[k], patch_set))
}

impl CrossRepoWorkspace {
    #[verifier::type_invariant]
    spec fn is_sound(&self) -> bool {
        &&& total_of(repository_views(self.repositories@)) <= self.policy.max_total_bytes
        &&& ascending(keys(self.overrides@))
    }

    /// The repositories in the order of their roles.
    pub closed spec fn repos(&self) -> Seq<RepositoryView> {
        repository_views(self.repositories@)
    }

    /// The roles that may be patched.
    pub closed spec fn patch_roles(&self) -> Seq<Seq<char>> {
        texts(self.allowed_patch_roles@)
    }

    /// The package overrides in order.
    pub closed spec fn rules(&self) -> Seq<Key> {
        keys(self.overrides@)
    }

    /// The configurations that are in force.
    pub closed spec fn configs(&self) -> Seq<OverrideConfig> {
        self.override_configs@
    }

    pub closed spec fn limits(&self) -> CrossRepoWorkspacePolicy {
        self.policy
    }

    pub closed spec fn base(&self) -> Seq<char> {
        self.control_root@
    }

    pub closed spec fn fingerprint(&self) -> Seq<char> {
        set_fingerprint(self.compatibility@)
    }

    /// Makes the workspace of a request from its checkouts, which are given in the order
    /// of the revisions. Its trees are to be written below `control_root`.
    pub fn materialize(request: WorkspaceRequest, checkouts: Vec<Checkout>, control_root: String) -> (r: Result<
        Self,
        CrossRepoWorkspaceError,
    >)
        requires
            request.is_checked(),
            checkouts@.len() == request.compatibility@.revisions.len(),
        ensures
            ({
                let revisions = request.compatibility@.revisions;
                let check = check_checkouts(revisions, checkouts@, request.policy, 0, 0);
                match r {
                    Ok(w) => {
                        &&& check is Ok
                        &&& w.repos().len() == revisions.len()
                        &&& roles_ascend(w.repos())
                        &&& forall|i: int|
                            0 <= i < revisions.len() ==> w.repos().contains(
                                #[trigger] fresh_view(revisions[i], checkouts@[i], request.policy.per_repository),
                            )
                        &&& w.patch_roles() == texts(request.allowed_patch_roles@)
                        &&& w.rules() == keys(request.overrides@)
                        &&& w.limits() == request.policy
                        &&& w.base() == control_root@
                        &&& w.fingerprint() == set_fingerprint(request.compatibility@)
                        &&& check_providers(w.repos(), w.rules()) is Ok
                        &&& are_configs_of(w.configs(), w.base(), w.repos(), w.rules())
                    },
                    Err(e) => {
                        ||| check == Err::<(), WorkspaceFailure>(e@)
                        ||| check is Ok && exists|repos: Seq<RepositoryView>|
                            is_arrangement(repos, revisions, checkouts@, request.policy.per_repository)
                                && #[trigger] check_providers(repos, keys(request.overrides@)) == Err::<(), WorkspaceFailure>(
                                e@,
                            )
                    },
                }
            }),
    {
        let ghost revisions = request.compatibility@.revisions;
        let built = build_repositories(request.compatibility.revisions(), checkouts, request.policy)?;
        let ghost before = built@;
        let repositories = sort_records(built);
        proof {
            lemma_sorted_repositories(repositories@, before);
            let views = repository_views(repositories@);
            assert forall|i: int| 0 <= i < revisions.len() implies views.contains(
                #[trigger] fresh_view(revisions[i], checkouts@[i], request.policy.per_repository),
            ) by {
                assert(before[i]@ == fresh_view(revisions[i], checkouts@[i], request.policy.per_repository));
                assert(repository_views(before)[i] == before[i]@);
                assert(views.contains(repository_views(before)[i]));
            }
            assert(is_arrangement(views, revisions, checkouts@, request.policy.per_repository));
        }
        let override_configs = render_configs(
            control_root.as_str(),
            repositories.as_slice(),
            request.overrides.as_slice(),
        )?;
        Ok(
            CrossRepoWorkspace {
                compatibility: request.compatibility,
                repositories,
                allowed_patch_roles: request.allowed_patch_roles,
                overrides: request.overrides,
                override_configs,
                control_root,
                policy: request.policy,
            },
        )
    }

    /// Where the tree of a role is to be written.
    pub fn root_for_role(&self, role: &str) -> (r: Option<String>)
        ensures
            match r {
                Some(root) => role_position(self.repos(), role@, 0) matches Some(k) && root@ == root_of(
                    self.base(),
                    self.repos()[k].files,
                ),
                None => role_position(self.repos(), role@, 0) is None,
            },
    {
        match find_role(self.repositories.as_slice(), role) {
            Some(k) => {
                let mut root = self.control_root.clone();
                root.append("/");
                root.append(self.repositories[k].state.state_id());
                Some(root)
            },
            None => None,
        }
    }

    /// The tree of a role.
    pub fn tree_for_role(&self, role: &str) -> (r: Option<&FileTree>)
        ensures
            match r {
                Some(tree) => role_position(self.repos(), role@, 0) matches Some(k) && tree@ == self.repos()[k].files,
                None => role_position(self.repos(), role@, 0) is None,
            },
    {
        match find_role(self.repositories.as_slice(), role) {
            Some(k) => Some(self.repositories[k].state.root()),
            None => None,
        }
    }

    /// The override configuration of a consumer.
    pub fn cargo_override_config(&self, consumer_role: &str) -> (r: Option<&OverrideConfig>)
        ensures
            match r {
                Some(c) => self.configs().contains(*c) && c.consumer_role@ == consumer_role@,
                None => forall|i: int|
                    0 <= i < self.configs().len() ==> (#[trigger] self.configs()[i]).consumer_role@ != consumer_role@,
            },
    {
        let mut i: usize = 0;
        while i < self.override_configs.len()
            invariant
                i <= self.override_configs@.len(),
                forall|j: int|
                    0 <= j < i ==> (#[trigger] self.override_configs@[j]).consumer_role@ != consumer_role@,
            decreases self.override_configs@.len() - i,
        {
            if same_text(self.override_configs[i].consumer_role.as_str(), consumer_role) {
                assert(self.configs()[i as int] == self.override_configs@[i as int]);
                return Some(&self.override_configs[i]);
            }
            i += 1;
        }
        None
    }

    fn total_bytes(&self) -> (r: u64)
        ensures
            r == total_of(self.repos()),
    {
        proof {
            use_type_invariant(self);
        }
        let ghost all = repository_views(self.repositories@);
        let mut total: u64 = 0;
        let mut i: usize = 0;
        assert(all.take(0).len() == 0);
        while i < self.repositories.len()
            invariant
                i <= self.repositories@.len(),
                all == repository_views(self.repositories@),
                total == total_of(all.take(i as int)),
                total_of(all) <= u64::MAX,
            decreases self.repositories@.len() - i,
        {
            proof {
                assert(all.take(i + 1).drop_last() =~= all.take(i as int));
                assert(all.take(i + 1).last() == self.repositories@[i as int]@);
                lemma_total_prefix(all, i + 1);
            }
            total = total + self.repositories[i].state.usage().bytes;
            i += 1;
        }
        assert(all.take(i as int) =~= all);
        total
    }

    /// Applies a patch set to a role and returns the identity of the patch set. A refused
    /// patch leaves the workspace as it was. Where the patch was applied and an override
    /// lost its package by it, the tree is changed and the former configurations stay.
    pub fn apply_patch(&mut self, role: &str, patch_set: &PatchSet) -> (r: Result<String, CrossRepoWorkspaceError>)
        ensures
            final(self).patch_roles() == old(self).patch_roles(),
            final(self).rules() == old(self).rules(),
            final(self).limits() == old(self).limits(),
            final(self).base() == old(self).base(),
            final(self).fingerprint() == old(self).fingerprint(),
            ({
                let check = check_patch(old(self).repos(), old(self).patch_roles(), old(self).limits(), role@, *patch_set);
                let next = after_patch(old(self).repos(), role@, *patch_set);
                match check {
                    Err(e) => {
                        &&& r matches Err(f) && f@ == e
                        &&& final(self).repos() == old(self).repos()
                        &&& final(self).configs() == old(self).configs()
                    },
                    Ok(_) => {
                        &&& final(self).repos() == next
                        &&& match check_providers(next, old(self).rules()) {
                            Err(e) => {
                                &&& r matches Err(f) && f@ == e
                                &&& final(self).configs() == old(self).configs()
                            },
                            Ok(_) => {
                                &&& r matches Ok(id) && id@ == patch_set.digest()
                                &&& are_configs_of(final(self).configs(), old(self).base(), next, old(self).rules())
                            },
                        }
                    },
                }
            }),
    {
        let ghost views = self.repos();
        let (k, child, patch_set_id) = self.prepare_patch(role, patch_set)?;
        self.replace_state(k, child, patch_set_id.clone());
        assert(self.repos() == after_patch(views, role@, *patch_set));
        self.refresh_override_configs()?;
        Ok(patch_set_id)
    }

    /// The position of a role, its state after a patch set, and the identity of the
    /// patch set.
    fn prepare_patch(&self, role: &str, patch_set: &PatchSet) -> (r: Result<
        (usize, CandidateState, String),
        CrossRepoWorkspaceError,
    >)
        ensures
            match r {
                Ok((k, child, id)) => {
                    &&& check_patch(self.repos(), self.patch_roles(), self.limits(), role@, *patch_set) is Ok
                    &&& role_position(self.repos(), role@, 0) == Some(k as int)
                    &&& k < self.repos().len()
                    &&& child.files() == child_files(self.repos()[k as int].files, *patch_set)
                    &&& child.limits() == self.repos()[k as int].limits
                    &&& child.parent() == Some(tree_identity(self.repos()[k as int].files))
                    &&& child.patch() == Some(patch_set.digest())
                    &&& id@ == patch_set.digest()
                    &&& total_of(self.repos()) - bytes_of(self.repos()[k as int].files) + bytes_of(child.files())
                        <= self.limits().max_total_bytes
                },
                Err(e) => check_patch(self.repos(), self.patch_roles(), self.limits(), role@, *patch_set) == Err::<
                    (),
                    WorkspaceFailure,
                >(e@),
            },
    {
        proof {
            use_type_invariant(self);
        }
        let ghost views = self.repos();
        if !contains_text(self.allowed_patch_roles.as_slice(), role) {
            return Err(CrossRepoWorkspaceError::PatchRoleNotAllowed(role.to_owned()));
        }
        let k = match find_role(self.repositories.as_slice(), role) {
            Some(k) => k,
            None => {
                return Err(CrossRepoWorkspaceError::UnknownRole(role.to_owned()));
            },
        };
        assert(views[k as int] == self.repositories@[k as int]@);
        let old_bytes: u64 = self.repositories[k].state.usage().bytes;
        let child = match self.repositories[k].state.child(patch_set) {
            Ok(child) => child,
            Err(e) => {
                return Err(CrossRepoWorkspaceError::CandidateState(e));
            },
        };
        let patch_set_id = match patch_set.identity() {
            Ok(id) => id,
            Err(e) => {
                return Err(CrossRepoWorkspaceError::PatchSet(e));
            },
        };
        let total: u64 = self.total_bytes();
        proof {
            lemma_total_update(views, k as int, patched(views[k as int], *patch_set));
        }
        checked_total(total - old_bytes, child.usage().bytes, self.policy.max_total_bytes)?;
        Ok((k, child, patch_set_id))
    }

    fn refresh_override_configs(&mut self) -> (r: Result<(), CrossRepoWorkspaceError>)
        ensures
            final(self).repos() == old(self).repos(),
            final(self).patch_roles() == old(self).patch_roles(),
            final(self).rules() == old(self).rules(),
            final(self).limits() == old(self).limits(),
            final(self).base() == old(self).base(),
            final(self).fingerprint() == old(self).fingerprint(),
            match r {
                Ok(_) => check_providers(old(self).repos(), old(self).rules()) is Ok,
                Err(e) => check_providers(old(self).repos(), old(self).rules()) == Err::<(), WorkspaceFailure>(e@),
            },
            r is Err ==> final(self).configs() == old(self).configs(),
            r is Ok ==> are_configs_of(final(self).configs(), old(self).base(), old(self).repos(), old(self).rules()),
    {
        proof {
            use_type_invariant(&*self);
        }
        let configs = render_configs(
            self.control_root.as_str(),
            self.repositories.as_slice(),
            self.overrides.as_slice(),
        )?;
        self.override_configs = configs;
        Ok(())
    }

    /// Puts a new state in the place of a repository's state.
    fn replace_state(&mut self, k: usize, state: CandidateState, patch_set_id: String)
        requires
            k < old(self).repos().len(),
            total_of(old(self).repos()) - bytes_of(old(self).repos()[k as int].files) + bytes_of(state.files())
                <= old(self).limits().max_total_bytes,
        ensures
            final(self).repos() == old(self).repos().update(
                k as int,
                RepositoryView {
                    files: state.files(),
                    limits: state.limits(),
                    parent: state.parent(),
                    patch: state.patch(),
                    patch_set_ids: old(self).repos()[k as int].patch_set_ids.push(patch_set_id@),
                    ..old(self).repos()[k as int]
                },
            ),
            final(self).patch_roles() == old(self).patch_roles(),
            final(self).rules() == old(self).rules(),
            final(self).configs() == old(self).configs(),
            final(self).limits() == old(self).limits(),
            final(self).base() == old(self).base(),
            final(self).fingerprint() == old(self).fingerprint(),
    {
        broadcast use lemma_texts_push;
        proof {
            use_type_invariant(&*self);
        }
        let ghost views = self.repos();
        let mut repositories: Vec<MaterializedRepository> = Vec::new();
        assert(repository_views(repositories@) =~= Seq::empty());
        std::mem::swap(&mut repositories, &mut self.repositories);
        let ghost before = repositories@;
        let mut ids = clone_texts(repositories[k].patch_set_ids.as_slice());
        ids.push(patch_set_id);
        let next = MaterializedRepository {
            repository: repositories[k].repository.clone(),
            role: repositories[k].role.clone(),
            revision: repositories[k].revision.clone(),
            state,
            patch_set_ids: ids,
        };
        proof {
            assert(views[k as int] == before[k as int]@);
            lemma_total_update(views, k as int, next@);
        }
        repositories.set(k, next);
        assert(repository_views(repositories@) =~= views.update(k as int, next@));
        self.repositories = repositories;
    }

    /// The effective state of the workspace.
    pub fn result(&self) -> (r: CrossRepoWorkspaceResult)
        ensures
            r.compatibility_fingerprint@ == self.fingerprint(),
            r.repositories@.len() == self.repos().len(),
            forall|i: int| 0 <= i < r.repositories@.len() ==> (#[trigger] r.repositories@[i]).is_of(self.repos()[i]),
            r.overrides@.len() == self.rules().len(),
            forall|i: int| 0 <= i < r.overrides@.len() ==> (#[trigger] r.overrides@[i]).rule() == self.rules()[i],
    {
        let mut repositories: Vec<EffectiveRepositoryState> = Vec::new();
        let mut i: usize = 0;
        while i < self.repositories.len()
            invariant
                i <= self.repositories@.len(),
                repositories@.len() == i,
                forall|j: int| 0 <= j < i ==> (#[trigger] repositories@[j]).is_of(self.repos()[j]),
            decreases self.repositories@.len() - i,
        {
            let m = &self.repositories[i];
            assert(self.repos()[i as int] == m@);
            repositories.push(
                EffectiveRepositoryState {
                    repository: m.repository.clone(),
                    role: m.role.clone(),
                    base_revision: m.revision.clone(),
                    state_id: m.state.state_id().to_owned(),
                    patch_set_ids: clone_texts(m.patch_set_ids.as_slice()),
                },
            );
            i += 1;
        }
        let mut overrides: Vec<EffectiveCargoOverride> = Vec::new();
        let mut i: usize = 0;
        while i < self.overrides.len()
            invariant
                i <= self.overrides@.len(),
                overrides@.len() == i,
                forall|j: int| 0 <= j < i ==> (#[trigger] overrides@[j]).rule() == self.rules()[j],
            decreases self.overrides@.len() - i,
        {
            let rule = &self.overrides[i];
            assert(self.rules()[i as int] == rule.key());
            let o = EffectiveCargoOverride {
                consumer_role: rule.consumer_role.clone(),
                source: rule.source.clone(),
                package: rule.package.clone(),
                provider_role: rule.provider_role.clone(),
                provider_path: rule.provider_path.clone(),
            };
            overrides.push(o);
            i += 1;
        }
        CrossRepoWorkspaceResult {
            compatibility_fingerprint: self.compatibility.fingerprint(),
            repositories,
            overrides,
        }
    }
}

/// Roles in ascending order.
pub open spec fn roles_ascend(repositories: Seq<RepositoryView>) -> bool {
    forall|i: int, j: int|
        #![trigger repositories[i], repositories[j]]
        0 <= i < j < repositories.len() ==> text_order(repositories[i].role, repositories[j].role) != Order::Greater
}

/// The fresh repositories of the checkouts, in the order of their roles.
pub open spec fn is_arrangement(
    repositories: Seq<RepositoryView>,
    revisions: Seq<Key>,
    checkouts: Seq<Checkout>,
    policy: CandidateStoragePolicy,
) -> bool {
    &&& repositories.len() == revisions.len()
    &&& roles_ascend(repositories)
    &&& forall|i: int|
        0 <= i < revisions.len() ==> repositories.contains(#[trigger] fresh_view(revisions[i], checkouts[i], policy))
}

proof fn lemma_total_prefix(repositories: Seq<RepositoryView>, n: int)
    requires
        0 <= n <= repositories.len(),
    ensures
        total_of(repositories.take(n)) <= total_of(repositories),
    decreases repositories.len() - n,
{
    if n < repositories.len() {
        assert(repositories.take(n + 1).drop_last() =~= repositories.take(n));
        lemma_total_prefix(repositories, n + 1);
    } else {
        assert(repositories.take(n) =~= repositories);
    }
}

proof fn lemma_total_remove(s: Seq<MaterializedRepository>, k: int)
    requires
        0 <= k < s.len(),
    ensures
        total_of(repository_views(s)) == total_of(repository_views(s.remove(k))) + bytes_of(s[k]@.files),
    decreases s.len(),
{
    let views = repository_views(s);
    let front = s.drop_last();
    assert(views.drop_last() =~= repository_views(front));
    if k == s.len() - 1 {
        assert(s.remove(k) =~= front);
    } else {
        lemma_total_remove(front, k);
        let shorter = s.remove(k);
        assert(shorter.drop_last() =~= front.remove(k));
        assert(repository_views(shorter).drop_last() =~= repository_views(front.remove(k)));
        assert(repository_views(shorter).last() == s.last()@);
    }
}

proof fn lemma_total_permuted(a: Seq<MaterializedRepository>, b: Seq<MaterializedRepository>)
    requires
        a.to_multiset() == b.to_multiset(),
    ensures
        a.len() == b.len(),
        total_of(repository_views(a)) == total_of(repository_views(b)),
    decreases a.len(),
{
    broadcast use vstd::seq_lib::group_to_multiset_ensures;
    vstd::seq_lib::to_multiset_len(a);
    vstd::seq_lib::to_multiset_len(b);
    if a.len() > 0 {
        let x = a.last();
        assert(a.contains(x));
        assert(b.to_multiset().count(x) > 0);
        assert(b.contains(x));
        let k = choose|k: int| 0 <= k < b.len() && b[k] == x;
        assert(a.remove(a.len() - 1).to_multiset() =~= b.remove(k).to_multiset());
        lemma_total_permuted(a.remove(a.len() - 1), b.remove(k));
        lemma_total_remove(a, a.len() - 1);
        lemma_total_remove(b, k);
    }
}

proof fn lemma_sorted_repositories(out: Seq<MaterializedRepository>, given: Seq<MaterializedRepository>)
    requires
        is_sorted_of(out, given),
    ensures
        out.len() == given.len(),
        roles_ascend(repository_views(out)),
        total_of(repository_views(out)) == total_of(repository_views(given)),
        forall|i: int| 0 <= i < given.len() ==> repository_views(out).contains(#[trigger] repository_views(given)[i]),
{
    broadcast use vstd::seq_lib::group_to_multiset_ensures;
    lemma_total_permuted(out, given);
    let views = repository_views(out);
    assert forall|i: int, j: int| #![trigger views[i], views[j]] 0 <= i < j < views.len() implies text_order(
        views[i].role,
        views[j].role,
    ) != Order::Greater by {
        reveal_with_fuel(key_order, 2);
        let (a, b) = (keys(out)[i], keys(out)[j]);
        assert(a == seq![views[i].role]);
        assert(b == seq![views[j].role]);
        assert(a.drop_first() =~= Seq::empty());
        assert(b.drop_first() =~= Seq::empty());
        let leq = key_leq();
        assert(leq(a, b));
    }
    assert forall|i: int| 0 <= i < given.len() implies views.contains(#[trigger] repository_views(given)[i]) by {
        assert(given.contains(given[i]));
        assert(out.to_multiset().count(given[i]) > 0);
        assert(out.contains(given[i]));
        let k = choose|k: int| 0 <= k < out.len() && out[k] == given[i];
        assert(views[k] == given[i]@);
    }
}

// ---------------------------------------------------------------------------
// Laws
// ---------------------------------------------------------------------------

/// A patch set changes the tree of its role alone: every other repository of the
/// workspace stays as it was.
pub proof fn law_patch_stays_in_its_role(
    repositories: Seq<RepositoryView>,
    allowed: Seq<Seq<char>>,
    policy: CrossRepoWorkspacePolicy,
    role: Seq<char>,
    patch_set: PatchSet,
    i: int,
)
    requires
        check_patch(repositories, allowed, policy, role, patch_set) is Ok,
        0 <= i < repositories.len(),
        repositories[i].role != role,
    ensures
        allowed.contains(role),
        after_patch(repositories, role, patch_set)[i] == repositories[i],
{
    lemma_role_position(repositories, role, 0);
}

/// A workspace never holds more bytes than its policy allows, whatever is applied.
pub proof fn law_patch_keeps_the_byte_limit(
    repositories: Seq<RepositoryView>,
    allowed: Seq<Seq<char>>,
    policy: CrossRepoWorkspacePolicy,
    role: Seq<char>,
    patch_set: PatchSet,
)
    requires
        check_patch(repositories, allowed, policy, role, patch_set) is Ok,
    ensures
        total_of(after_patch(repositories, role, patch_set)) <= policy.max_total_bytes,
{
    lemma_role_position(repositories, role, 0);
    let k = role_position(repositories, role, 0)->0;
    lemma_total_update(repositories, k, patched(repositories[k], patch_set));
}

/// A normal path has no empty part and no dots, so that it stays below its root.
pub proof fn law_normal_paths_stay_below(path: Seq<char>, k: int)
    requires
        normalized(path) is Some,
        0 <= k < named_parts(split(path, '/')).len(),
    ensures
        named_parts(split(path, '/'))[k].len() > 0,
        named_parts(split(path, '/'))[k] != seq!['.'],
        named_parts(split(path, '/'))[k] != seq!['.', '.'],
{
    lemma_named_part(split(path, '/'), k);
}

proof fn lemma_named_part(parts: Seq<Seq<char>>, k: int)
    requires
        0 <= k < named_parts(parts).len(),
    ensures
        named_parts(parts)[k].len() > 0,
        named_parts(parts)[k] != seq!['.'],
        parts.contains(named_parts(parts)[k]),
    decreases parts.len(),
{
    let front = parts.drop_last();
    if k < named_parts(front).len() {
        lemma_named_part(front, k);
        let j = choose|j: int| 0 <= j < front.len() && front[j] == named_parts(front)[k];
        assert(parts[j] == front[j]);
    } else {
        assert(parts[parts.len() - 1] == parts.last());
    }
}

/// Overrides that follow each other in order and share their consumer have their sources
/// in order.
proof fn lemma_sources_ascend(rules: Seq<Key>, i: int, j: int)
    requires
        ascending(rules),
        0 <= i <= j < rules.len(),
        forall|k: int| 0 <= k < rules.len() ==> (#[trigger] rules[k]).len() == 5,
        rules[i][0] == rules[j][0],
    ensures
        text_order(rules[i][1], rules[j][1]) != Order::Greater,
{
    let (a, b) = (rules[i], rules[j]);
    lemma_text_order_equal(a[0], b[0]);
    lemma_text_order_equal(a[1], b[1]);
    if i < j {
        reveal_with_fuel(key_order, 3);
        assert(key_leq()(a, b));
        assert(a.drop_first()[0] == a[1]);
        assert(b.drop_first()[0] == b[1]);
    }
}

/// The last source of a consumer is that of its last override.
proof fn lemma_last_source(rules: Seq<Key>, consumer: Seq<char>)
    ensures
        match last_source(rules, consumer) {
            Some(source) => exists|k: int|
                0 <= k < rules.len() && (#[trigger] rules[k])[0] == consumer && rules[k][1] == source && forall|j: int|
                    k < j < rules.len() ==> (#[trigger] rules[j])[0] != consumer,
            None => forall|j: int| 0 <= j < rules.len() ==> (#[trigger] rules[j])[0] != consumer,
        },
    decreases rules.len(),
{
    if rules.len() > 0 {
        let front = rules.drop_last();
        let n = rules.len() - 1;
        assert(rules[n] == rules.last());
        if rules.last()[0] != consumer {
            lemma_last_source(front, consumer);
            assert(forall|j: int| 0 <= j < n ==> #[trigger] front[j] == rules[j]);
            match last_source(front, consumer) {
                Some(source) => {
                    let k = choose|k: int|
                        0 <= k < front.len() && (#[trigger] front[k])[0] == consumer && front[k][1] == source && forall|j: int|
                            k < j < front.len() ==> (#[trigger] front[j])[0] != consumer;
                    assert(rules[k][0] == consumer && rules[k][1] == source);
                    assert forall|j: int| k < j < rules.len() implies (#[trigger] rules[j])[0] != consumer by {
                        if j < n {
                            assert(front[j][0] != consumer);
                        }
                    }
                },
                None => {
                    assert forall|j: int| 0 <= j < rules.len() implies (#[trigger] rules[j])[0] != consumer by {
                        if j < n {
                            assert(front[j][0] != consumer);
                        }
                    }
                },
            }
        }
    }
}

/// The configuration of a consumer opens one table for each source: with the overrides in
/// order, an override opens one exactly where no earlier override of the consumer has its
/// source.
pub proof fn law_each_source_has_one_table(rules: Seq<Key>, i: int)
    requires
        ascending(rules),
        forall|k: int| 0 <= k < rules.len() ==> (#[trigger] rules[k]).len() == 5,
        0 <= i < rules.len(),
    ensures
        last_source(rules.take(i), rules[i][0]) != Some(rules[i][1]) <==> forall|j: int|
            0 <= j < i ==> !((#[trigger] rules[j])[0] == rules[i][0] && rules[j][1] == rules[i][1]),
{
    let before = rules.take(i);
    let (consumer, source) = (rules[i][0], rules[i][1]);
    lemma_last_source(before, consumer);
    assert(forall|j: int| 0 <= j < i ==> #[trigger] before[j] == rules[j]);
    match last_source(before, consumer) {
        Some(last) => {
            let k = choose|k: int|
                0 <= k < before.len() && (#[trigger] before[k])[0] == consumer && before[k][1] == last && forall|j: int|
                    k < j < before.len() ==> (#[trigger] before[j])[0] != consumer;
            assert(rules[k][0] == consumer && rules[k][1] == last);
            if last != source {
                assert forall|j: int| 0 <= j < i implies !((#[trigger] rules[j])[0] == consumer && rules[j][1] == source) by {
                    if rules[j][0] == consumer && rules[j][1] == source {
                        assert(before[j][0] == consumer);
                        lemma_sources_ascend(rules, j, k);
                        lemma_sources_ascend(rules, k, i);
                        lemma_text_order_flip(source, last);
                        lemma_text_order_equal(source, last);
                    }
                }
            }
        },
        None => {
            assert forall|j: int| 0 <= j < i implies !((#[trigger] rules[j])[0] == consumer && rules[j][1] == source) by {
                assert(before[j][0] != consumer);
            }
        },
    }
}

proof fn lemma_source_position(sources: Seq<LocalRepositorySource>, repository: Seq<char>, role: Seq<char>, i: int)
    requires
        0 <= i <= sources.len(),
    ensures
        match source_position(sources, repository, role, i) {
            Some(k) => i <= k < sources.len() && is_source_of(sources[k], repository, role) && forall|j: int|
                i <= j < k ==> !is_source_of(#[trigger] sources[j], repository, role),
            None => forall|j: int| i <= j < sources.len() ==> !is_source_of(#[trigger] sources[j], repository, role),
        },
    decreases sources.len() - i,
{
    if i < sources.len() && !is_source_of(sources[i], repository, role) {
        lemma_source_position(sources, repository, role, i + 1);
    }
}

/// No two sources are of one repository in one role.
pub open spec fn are_distinct_sources(sources: Seq<LocalRepositorySource>) -> bool {
    forall|i: int, j: int|
        0 <= i < j < sources.len() ==> !((#[trigger] sources[i]).repository@ == (#[trigger] sources[j]).repository@
            && sources[i].role@ == sources[j].role@)
}

proof fn lemma_distinct_sources(sources: Seq<LocalRepositorySource>, i: int)
    requires
        0 <= i <= sources.len(),
    ensures
        check_sources(sources, i) is Ok <==> forall|a: int, b: int|
            0 <= a < b < sources.len() && i <= b ==> !((#[trigger] sources[a]).repository@ == (
            #[trigger] sources[b]).repository@ && sources[a].role@ == sources[b].role@),
    decreases sources.len() - i,
{
    if i < sources.len() {
        lemma_distinct_sources(sources, i + 1);
        lemma_source_position(sources, sources[i].repository@, sources[i].role@, 0);
        let found = source_position(sources, sources[i].repository@, sources[i].role@, 0);
        assert(is_source_of(sources[i], sources[i].repository@, sources[i].role@));
        if found == Some(i) {
            assert forall|a: int| 0 <= a < i implies !((#[trigger] sources[a]).repository@ == sources[i].repository@
                && sources[a].role@ == sources[i].role@) by {
                assert(!is_source_of(sources[a], sources[i].repository@, sources[i].role@));
            }
        } else {
            let k = found->0;
            assert(sources[k].repository@ == sources[i].repository@ && sources[k].role@ == sources[i].role@);
        }
    }
}

/// The revision is that of a source of its repository in its role.
pub open spec fn has_source(sources: Seq<LocalRepositorySource>, revision: Key) -> bool {
    exists|k: int|
        0 <= k < sources.len() && (#[trigger] sources[k]).repository@ == revision[0] && sources[k].role@ == revision[2]
            && sources[k].revision@ == revision[1]
}

proof fn lemma_revisions(revisions: Seq<Key>, sources: Seq<LocalRepositorySource>, i: int)
    requires
        0 <= i <= revisions.len(),
        are_distinct_sources(sources),
    ensures
        check_revisions(revisions, sources, i) is Ok <==> {
            &&& forall|a: int, b: int|
                0 <= a < b < revisions.len() && i <= b ==> (#[trigger] revisions[a])[2] != (#[trigger] revisions[b])[2]
            &&& forall|k: int| i <= k < revisions.len() ==> has_source(sources, #[trigger] revisions[k])
        },
    decreases revisions.len() - i,
{
    if i < revisions.len() {
        lemma_revisions(revisions, sources, i + 1);
        let r = revisions[i];
        let roles = roles_of(revisions).take(i);
        lemma_source_position(sources, r[0], r[2], 0);
        if roles.contains(r[2]) {
            let a = choose|a: int| 0 <= a < roles.len() && roles[a] == r[2];
            assert(revisions[a][2] == revisions[i][2]);
        } else {
            assert forall|a: int| 0 <= a < i implies (#[trigger] revisions[a])[2] != r[2] by {
                assert(roles[a] == revisions[a][2]);
            }
            match source_position(sources, r[0], r[2], 0) {
                None => {
                    if has_source(sources, r) {
                        let k = choose|k: int|
                            0 <= k < sources.len() && (#[trigger] sources[k]).repository@ == r[0] && sources[k].role@ == r[2]
                                && sources[k].revision@ == r[1];
                        assert(is_source_of(sources[k], r[0], r[2]));
                    }
                },
                Some(k) => {
                    if has_source(sources, r) {
                        let m = choose|m: int|
                            0 <= m < sources.len() && (#[trigger] sources[m]).repository@ == r[0] && sources[m].role@ == r[2]
                                && sources[m].revision@ == r[1];
                        if m < k {
                            assert(sources[m].repository@ == sources[k].repository@);
                        } else if k < m {
                            assert(sources[k].repository@ == sources[m].repository@);
                        }
                    }
                },
            }
        }
    }
}

/// Two rules override one package of one source for one consumer.
pub open spec fn overrides_twice(rules: Seq<Key>) -> bool {
    exists|i: int, j: int|
        0 <= i < j < rules.len() && (#[trigger] rules[i])[0] == (#[trigger] rules[j])[0] && rules[i][1] == rules[j][1]
            && rules[i][2] == rules[j][2]
}

proof fn lemma_order_between(a: Key, b: Key, c: Key, n: int)
    requires
        0 <= n <= a.len(),
        n <= b.len(),
        n <= c.len(),
        key_order(a, b) != Order::Greater,
        key_order(b, c) != Order::Greater,
        forall|i: int| 0 <= i < n ==> #[trigger] a[i] == c[i],
    ensures
        forall|i: int| 0 <= i < n ==> #[trigger] a[i] == b[i],
    decreases n,
{
    if n > 0 {
        lemma_text_order_flip(a[0], b[0]);
        lemma_text_order_equal(a[0], b[0]);
        lemma_text_order_equal(b[0], a[0]);
        assert(a[0] == c[0]);
        let (p, q, r) = (a.drop_first(), b.drop_first(), c.drop_first());
        assert(a[0] == b[0]);
        lemma_text_order_equal(b[0], c[0]);
        assert forall|i: int| 0 <= i < n - 1 implies #[trigger] p[i] == r[i] by {
            assert(a[i + 1] == c[i + 1]);
        }
        lemma_order_between(p, q, r, n - 1);
        assert forall|i: int| 0 <= i < n implies #[trigger] a[i] == b[i] by {
            if i > 0 {
                assert(p[i - 1] == q[i - 1]);
            }
        }
    }
}

proof fn lemma_repeated_override(s: Seq<Key>)
    requires
        forall|i: int| 0 <= i < s.len() ==> (#[trigger] s[i]).len() == 5,
        forall|i: int, j: int| 0 <= i < j < s.len() ==> key_order(#[trigger] s[i], #[trigger] s[j]) != Order::Greater,
    ensures
        repeated_override(s) is Some <==> overrides_twice(s),
    decreases s.len(),
{
    if s.len() >= 2 {
        let t = s.drop_first();
        assert(forall|i: int| 0 <= i < t.len() ==> #[trigger] t[i] == s[i + 1]);
        lemma_repeated_override(t);
        if s[0][0] == s[1][0] && s[0][1] == s[1][1] && s[0][2] == s[1][2] {
            assert(overrides_twice(s));
        } else {
            if overrides_twice(t) {
                let (i, j) = choose|i: int, j: int|
                    0 <= i < j < t.len() && (#[trigger] t[i])[0] == (#[trigger] t[j])[0] && t[i][1] == t[j][1] && t[i][2]
                        == t[j][2];
                assert(s[i + 1][0] == s[j + 1][0]);
            }
            if overrides_twice(s) {
                let (i, j) = choose|i: int, j: int|
                    0 <= i < j < s.len() && (#[trigger] s[i])[0] == (#[trigger] s[j])[0] && s[i][1] == s[j][1] && s[i][2]
                        == s[j][2];
                if i == 0 {
                    if j > 1 {
                        lemma_order_between(s[0], s[1], s[j], 3);
                        assert(s[0][0] == s[1][0] && s[0][1] == s[1][1] && s[0][2] == s[1][2]);
                    }
                } else {
                    assert(t[i - 1][0] == t[j - 1][0]);
                }
            }
        }
    }
}

proof fn lemma_overrides_twice_in(s: Seq<Key>, t: Seq<Key>)
    requires
        s.to_multiset() == t.to_multiset(),
        overrides_twice(s),
    ensures
        overrides_twice(t),
{
    broadcast use vstd::seq_lib::group_to_multiset_ensures;

    let (i, j) = choose|i: int, j: int|
        0 <= i < j < s.len() && (#[trigger] s[i])[0] == (#[trigger] s[j])[0] && s[i][1] == s[j][1] && s[i][2] == s[j][2];
    if s[i] != s[j] {
        assert(s.to_multiset().count(s[i]) > 0);
        assert(s.to_multiset().count(s[j]) > 0);
        assert(t.contains(s[i]) && t.contains(s[j]));
        let a = t.index_of(s[i]);
        let b = t.index_of(s[j]);
        if a < b {
            assert(t[a][0] == t[b][0]);
        } else {
            assert(t[b][0] == t[a][0]);
        }
    } else {
        if t.no_duplicates() {
            t.lemma_multiset_has_no_duplicates();
            s.lemma_multiset_has_no_duplicates_conv();
            assert(s[i] != s[j]);
        }
        let (a, b) = choose|a: int, b: int| 0 <= a < t.len() && 0 <= b < t.len() && a != b && t[a] == t[b];
        if a < b {
            assert(t[a][0] == t[b][0]);
        } else {
            assert(t[b][0] == t[a][0]);
        }
    }
}

/// The role is that of a revision.
pub open spec fn is_role_of(revisions: Seq<Key>, role: Seq<char>) -> bool {
    exists|k: int| 0 <= k < revisions.len() && (#[trigger] revisions[k])[2] == role
}

proof fn lemma_role_of(revisions: Seq<Key>, role: Seq<char>)
    ensures
        roles_of(revisions).contains(role) <==> is_role_of(revisions, role),
{
    let roles = roles_of(revisions);
    if roles.contains(role) {
        let k = choose|k: int| 0 <= k < roles.len() && roles[k] == role;
        assert(revisions[k][2] == role);
    }
    if is_role_of(revisions, role) {
        let k = choose|k: int| 0 <= k < revisions.len() && (#[trigger] revisions[k])[2] == role;
        assert(roles[k] == role);
    }
}

/// A workspace is asked for rightly exactly where there are no more repositories than
/// allowed, as many sources as revisions, no two sources for one place and no two revisions
/// for one role; where every revision has a source at that very revision; where only roles
/// of the set may be patched; and where every override is between roles of the set and none
/// is given twice.
pub proof fn law_requests(
    revisions: Seq<Key>,
    sources: Seq<LocalRepositorySource>,
    patch_roles: Seq<Seq<char>>,
    rules: Seq<Key>,
    policy: CrossRepoWorkspacePolicy,
)
    requires
        forall|i: int| 0 <= i < rules.len() ==> (#[trigger] rules[i]).len() == 5,
    ensures
        check_request(revisions, sources, patch_roles, rules, policy) is Ok <==> {
            &&& revisions.len() <= policy.max_repositories
            &&& sources.len() == revisions.len()
            &&& are_distinct_sources(sources)
            &&& forall|a: int, b: int| 0 <= a < b < revisions.len() ==> (#[trigger] revisions[a])[2] != (#[trigger] revisions[b])[2]
            &&& forall|k: int| 0 <= k < revisions.len() ==> has_source(sources, #[trigger] revisions[k])
            &&& forall|k: int| 0 <= k < patch_roles.len() ==> is_role_of(revisions, #[trigger] patch_roles[k])
            &&& forall|k: int|
                #![trigger rules[k]]
                0 <= k < rules.len() ==> is_role_of(revisions, rules[k][0]) && is_role_of(revisions, rules[k][3])
            &&& !overrides_twice(rules)
        },
{
    lemma_distinct_sources(sources, 0);
    if are_distinct_sources(sources) {
        lemma_revisions(revisions, sources, 0);
    }
    let roles = roles_of(revisions);
    lemma_canonical_exists(patch_roles);
    let c = canonical(patch_roles);
    let role_check = |x: Seq<char>| check_role(roles, x);
    lemma_check_all(c, role_check);
    assert(check_all(c, role_check) is Ok <==> forall|k: int|
        0 <= k < patch_roles.len() ==> is_role_of(revisions, #[trigger] patch_roles[k])) by {
        if check_all(c, role_check) is Ok {
            assert forall|k: int| 0 <= k < patch_roles.len() implies is_role_of(revisions, #[trigger] patch_roles[k]) by {
                assert(patch_roles.contains(patch_roles[k]));
                assert(c.contains(patch_roles[k]));
                let i = choose|i: int| 0 <= i < c.len() && c[i] == patch_roles[k];
                assert(role_check(c[i]) is Ok);
                lemma_role_of(revisions, patch_roles[k]);
            }
        } else {
            let i = choose|i: int| 0 <= i < c.len() && !((#[trigger] role_check(c[i])) is Ok);
            assert(c.contains(c[i]));
            assert(patch_roles.contains(c[i]));
            let k = choose|k: int| 0 <= k < patch_roles.len() && patch_roles[k] == c[i];
            lemma_role_of(revisions, patch_roles[k]);
            assert(!is_role_of(revisions, patch_roles[k]));
        }
    }
    let s = sorted(rules);
    law_sorting(rules);
    assert forall|i: int| 0 <= i < s.len() implies (#[trigger] s[i]).len() == 5 by {
        assert(s.contains(s[i]));
        assert(rules.contains(s[i]));
    }
    lemma_repeated_override(s);
    if overrides_twice(s) {
        lemma_overrides_twice_in(s, rules);
    }
    if overrides_twice(rules) {
        lemma_overrides_twice_in(rules, s);
    }
    let rule_check = |k: Key| check_rule(roles, k);
    lemma_check_all(s, rule_check);
    assert(check_all(s, rule_check) is Ok <==> forall|k: int|
        #![trigger rules[k]]
        0 <= k < rules.len() ==> is_role_of(revisions, rules[k][0]) && is_role_of(revisions, rules[k][3])) by {
        if check_all(s, rule_check) is Ok {
            assert forall|k: int| #![trigger rules[k]] 0 <= k < rules.len() implies is_role_of(revisions, rules[k][0])
                && is_role_of(revisions, rules[k][3]) by {
                assert(rules.contains(rules[k]));
                assert(s.contains(rules[k]));
                let i = choose|i: int| 0 <= i < s.len() && s[i] == rules[k];
                assert(rule_check(s[i]) is Ok);
                lemma_role_of(revisions, rules[k][0]);
                lemma_role_of(revisions, rules[k][3]);
            }
        } else {
            let i = choose|i: int| 0 <= i < s.len() && !((#[trigger] rule_check(s[i])) is Ok);
            assert(s.contains(s[i]));
            assert(rules.contains(s[i]));
            let k = choose|k: int| 0 <= k < rules.len() && rules[k] == s[i];
            lemma_role_of(revisions, rules[k][0]);
            lemma_role_of(revisions, rules[k][3]);
            assert(!(is_role_of(revisions, rules[k][0]) && is_role_of(revisions, rules[k][3])));
        }
    }
}

/// The bytes of repositories add up.
pub proof fn law_totals_add_up(repositories: Seq<RepositoryView>, other: RepositoryView)
    ensures
        total_of(repositories.push(other)) == total_of(repositories) + bytes_of(other.files),
        total_of(repositories) == repositories.fold_left(0int, |sum: int, r: RepositoryView| sum + bytes_of(r.files)),
    decreases repositories.len(),
{
    assert(repositories.push(other).drop_last() =~= repositories);
    if repositories.len() > 0 {
        law_totals_add_up(repositories.drop_last(), other);
    }
}

/// The bytes of the trees that are admitted from checkouts, from the first to the last.
pub open spec fn admitted_bytes(revisions: Seq<Key>, checkouts: Seq<Checkout>, policy: CandidateStoragePolicy, n: int) -> int {
    Seq::new(n as nat, |i: int| i).fold_left(
        0int,
        |sum: int, i: int| sum + bytes_of(admitted_tree(checkouts[i], revisions[i][2], revisions[i][1], policy)->Ok_0),
    )
}

proof fn lemma_admitted_bytes(revisions: Seq<Key>, checkouts: Seq<Checkout>, policy: CandidateStoragePolicy, n: int)
    requires
        0 <= n,
    ensures
        admitted_bytes(revisions, checkouts, policy, n + 1) == admitted_bytes(revisions, checkouts, policy, n) + bytes_of(
            admitted_tree(checkouts[n], revisions[n][2], revisions[n][1], policy)->Ok_0,
        ),
        admitted_bytes(revisions, checkouts, policy, 0) == 0,
{
    let more = Seq::new((n + 1) as nat, |i: int| i);
    assert(more.drop_last() =~= Seq::new(n as nat, |i: int| i));
}

proof fn lemma_checkouts(
    revisions: Seq<Key>,
    checkouts: Seq<Checkout>,
    policy: CrossRepoWorkspacePolicy,
    i: int,
)
    requires
        0 <= i <= revisions.len(),
        admitted_bytes(revisions, checkouts, policy.per_repository, i) >= 0,
        i > 0 ==> admitted_bytes(revisions, checkouts, policy.per_repository, i) <= policy.max_total_bytes,
    ensures
        admitted_bytes(revisions, checkouts, policy.per_repository, revisions.len() as int) >= admitted_bytes(
            revisions,
            checkouts,
            policy.per_repository,
            i,
        ),
        check_checkouts(
            revisions,
            checkouts,
            policy,
            i,
            admitted_bytes(revisions, checkouts, policy.per_repository, i) as nat,
        ) is Ok <==> {
            &&& forall|k: int|
                #![trigger revisions[k]]
                i <= k < revisions.len() ==> admitted_tree(
                    checkouts[k],
                    revisions[k][2],
                    revisions[k][1],
                    policy.per_repository,
                ) is Ok
            &&& i < revisions.len() ==> admitted_bytes(
                revisions,
                checkouts,
                policy.per_repository,
                revisions.len() as int,
            ) <= policy.max_total_bytes
        },
    decreases revisions.len() - i,
{
    let p = policy.per_repository;
    if i < revisions.len() {
        lemma_admitted_bytes(revisions, checkouts, p, i);
        lemma_bytes_ascend(revisions, checkouts, p, i + 1, revisions.len() as int);
        if admitted_bytes(revisions, checkouts, p, i + 1) <= policy.max_total_bytes {
            lemma_checkouts(revisions, checkouts, policy, i + 1);
        }
    }
}

proof fn lemma_bytes_ascend(revisions: Seq<Key>, checkouts: Seq<Checkout>, policy: CandidateStoragePolicy, i: int, n: int)
    requires
        0 <= i <= n,
    ensures
        admitted_bytes(revisions, checkouts, policy, i) <= admitted_bytes(revisions, checkouts, policy, n),
    decreases n - i,
{
    if i < n {
        lemma_admitted_bytes(revisions, checkouts, policy, i);
        lemma_bytes_ascend(revisions, checkouts, policy, i + 1, n);
    }
}

/// Checkouts are taken exactly where each of them is at its revision, clean and small enough
/// by itself, and where all of them together hold no more bytes than the policy allows.
pub proof fn law_checkouts_are_bounded_together(revisions: Seq<Key>, checkouts: Seq<Checkout>, policy: CrossRepoWorkspacePolicy)
    requires
        revisions.len() > 0,
    ensures
        check_checkouts(revisions, checkouts, policy, 0, 0) is Ok <==> {
            &&& forall|k: int|
                #![trigger revisions[k]]
                0 <= k < revisions.len() ==> admitted_tree(
                    checkouts[k],
                    revisions[k][2],
                    revisions[k][1],
                    policy.per_repository,
                ) is Ok
            &&& admitted_bytes(revisions, checkouts, policy.per_repository, revisions.len() as int) <= policy.max_total_bytes
        },
{
    lemma_admitted_bytes(revisions, checkouts, policy.per_repository, 0);
    lemma_checkouts(revisions, checkouts, policy, 0);
}

/// A checkout is admitted exactly where its head was read and is the revision, where it is
/// clean, where all of its entries were read and are regular files on normal paths, and
/// where what is tracked can be stored.
pub proof fn law_checkouts_are_admitted(
    checkout: Checkout,
    role: Seq<char>,
    revision: Seq<char>,
    policy: CandidateStoragePolicy,
)
    ensures
        admitted_tree(checkout, role, revision, policy) is Ok <==> {
            &&& checkout.head is Ok
            &&& trim(checkout.head->Ok_0@) == revision
            &&& checkout.clean is Ok
            &&& checkout.entries is Ok
            &&& forall|i: int|
                #![trigger checkout.entries->Ok_0@[i]]
                0 <= i < checkout.entries->Ok_0@.len() ==> is_regular(checkout.entries->Ok_0@[i])
            &&& check_storage(policy, tracked_tree(checkout.entries->Ok_0@)->Ok_0) is Ok
        },
{
    if checkout.entries is Ok {
        law_tracked_files(checkout.entries->Ok_0@);
    }
}

/// The entry is a regular file on a path that can be made normal.
pub open spec fn is_regular(entry: TrackedEntry) -> bool {
    entry.path is Some && normalized(entry.path->0@) is Some && entry.file is Regular
}

/// The entry puts the bytes of a regular file at the path.
pub open spec fn puts(entry: TrackedEntry, path: Seq<char>) -> bool {
    is_regular(entry) && normalized(entry.path->0@) == Some(path)
}

/// Entries make a tree exactly where all are regular files on normal paths. It holds, on
/// every path that is not left out, what was tracked there last, and nothing else.
pub proof fn law_tracked_files(entries: Seq<TrackedEntry>)
    ensures
        tracked_tree(entries) is Ok <==> forall|i: int| 0 <= i < entries.len() ==> is_regular(#[trigger] entries[i]),
        tracked_tree(entries) matches Ok(tree) ==> {
            &&& forall|p: Seq<char>|
                #[trigger] tree.dom().contains(p) <==> !is_skipped(p) && exists|i: int|
                    0 <= i < entries.len() && puts(#[trigger] entries[i], p)
            &&& forall|i: int, p: Seq<char>|
                #![trigger puts(entries[i], p)]
                0 <= i < entries.len() && puts(entries[i], p) && !is_skipped(p) && (forall|later: int|
                    i < later < entries.len() ==> !puts(#[trigger] entries[later], p)) ==> tree[p]
                    == entries[i].file->Regular_0@
        },
    decreases entries.len(),
{
    if entries.len() > 0 {
        let front = entries.drop_last();
        let n = front.len() as int;
        law_tracked_files(front);
        assert(forall|i: int| 0 <= i < n ==> #[trigger] front[i] == entries[i]);
        assert(entries[n] == entries.last());
        assert(entry_file(entries[n]) is Ok <==> is_regular(entries[n]));
        if forall|i: int| 0 <= i < entries.len() ==> is_regular(#[trigger] entries[i]) {
            assert forall|i: int| 0 <= i < front.len() implies is_regular(#[trigger] front[i]) by {
                assert(is_regular(entries[i]));
            }
        }
        if tracked_tree(entries) is Ok {
            assert forall|i: int| 0 <= i < entries.len() implies is_regular(#[trigger] entries[i]) by {
                if i < n {
                    assert(is_regular(front[i]));
                }
            }
            let before = tracked_tree(front)->Ok_0;
            let tree = tracked_tree(entries)->Ok_0;
            let at = normalized(entries[n].path->0@)->0;
            assert(puts(entries[n], at));
            assert forall|p: Seq<char>| #[trigger] tree.dom().contains(p) <==> !is_skipped(p) && exists|i: int|
                0 <= i < entries.len() && puts(#[trigger] entries[i], p) by {
                if before.dom().contains(p) {
                    let i = choose|i: int| 0 <= i < front.len() && puts(#[trigger] front[i], p);
                    assert(puts(entries[i], p));
                }
                if !is_skipped(p) && exists|i: int| 0 <= i < entries.len() && puts(#[trigger] entries[i], p) {
                    let i = choose|i: int| 0 <= i < entries.len() && puts(#[trigger] entries[i], p);
                    if i < n {
                        assert(puts(front[i], p));
                        assert(before.dom().contains(p));
                    }
                }
            }
            assert forall|i: int, p: Seq<char>|
                #![trigger puts(entries[i], p)]
                0 <= i < entries.len() && puts(entries[i], p) && !is_skipped(p) && (forall|later: int|
                    i < later < entries.len() ==> !puts(#[trigger] entries[later], p)) implies tree[p]
                == entries[i].file->Regular_0@ by {
                if i < n {
                    assert(puts(front[i], p));
                    assert forall|later: int| i < later < front.len() implies !puts(#[trigger] front[later], p) by {
                        assert(!puts(entries[later], p));
                    }
                    assert(!puts(entries[n], p));
                }
            }
        }
    } else {
        assert(forall|i: int| 0 <= i < entries.len() ==> is_regular(#[trigger] entries[i]));
    }
}

/// A path is made normal exactly where it is not empty, does not begin at the root or with
/// a dot, never goes up, and names something; what is left of it are its names.
pub proof fn law_normal_paths(path: Seq<char>)
    ensures
        ({
            let parts = split(path, '/');
            let names = parts.filter(|p: Seq<char>| p.len() > 0 && p != seq!['.']);
            &&& normalized(path) is Some <==> path.len() > 0 && path[0] != '/' && parts[0] != seq!['.'] && !parts.contains(
                seq!['.', '.'],
            ) && names.len() > 0
            &&& normalized(path) matches Some(n) ==> n == join(names, "/"@)
        }),
{
    lemma_names(split(path, '/'));
}

proof fn lemma_names(parts: Seq<Seq<char>>)
    ensures
        named_parts(parts) == parts.filter(|p: Seq<char>| p.len() > 0 && p != seq!['.']),
    decreases parts.len(),
{
    reveal(Seq::filter);
    if parts.len() > 0 {
        lemma_names(parts.drop_last());
    }
}

proof fn lemma_first_role(repositories: Seq<RepositoryView>, role: Seq<char>, i: int)
    requires
        0 <= i <= repositories.len(),
    ensures
        match role_position(repositories, role, i) {
            Some(k) => i <= k < repositories.len() && repositories[k].role == role && forall|j: int|
                i <= j < k ==> (#[trigger] repositories[j]).role != role,
            None => forall|j: int| i <= j < repositories.len() ==> (#[trigger] repositories[j]).role != role,
        },
    decreases repositories.len() - i,
{
    if i < repositories.len() && repositories[i].role != role {
        lemma_first_role(repositories, role, i + 1);
    }
}

/// A patch is taken exactly on a role that may be patched and has a repository, where its
/// files can be changed so and stored, and where all the repositories as they then are hold
/// no more bytes than the policy allows. The repository then has the changed files and one
/// more patch, and remembers what it came from.
pub proof fn law_patches(
    repositories: Seq<RepositoryView>,
    allowed: Seq<Seq<char>>,
    policy: CrossRepoWorkspacePolicy,
    role: Seq<char>,
    patch_set: PatchSet,
    k: int,
)
    requires
        0 <= k < repositories.len(),
        repositories[k].role == role,
        forall|j: int| 0 <= j < k ==> (#[trigger] repositories[j]).role != role,
    ensures
        ({
            let after = after_patch(repositories, role, patch_set);
            let m = repositories[k];
            &&& check_patch(repositories, allowed, policy, role, patch_set) is Ok <==> {
                &&& allowed.contains(role)
                &&& patch_set.effect(m.files) is Ok
                &&& check_storage(m.limits, child_files(m.files, patch_set)) is Ok
                &&& total_of(after) <= policy.max_total_bytes
            }
            &&& after.len() == repositories.len()
            &&& after[k].files == child_files(m.files, patch_set)
            &&& after[k].patch_set_ids == m.patch_set_ids + seq![patch_set.digest()]
            &&& after[k].patch == Some(patch_set.digest())
            &&& after[k].parent == Some(tree_identity(m.files))
            &&& after[k].role == role && after[k].repository == m.repository && after[k].revision == m.revision
            &&& after[k].limits == m.limits
            &&& forall|j: int| 0 <= j < repositories.len() && j != k ==> #[trigger] after[j] == repositories[j]
        }),
{
    lemma_first_role(repositories, role, 0);
    let found = role_position(repositories, role, 0)->0;
    if found < k {
        assert(repositories[found].role != role);
    } else if k < found {
        assert(repositories[k].role != role);
    }
    let m = repositories[k];
    lemma_total_update(repositories, k, patched(m, patch_set));
    assert(m.patch_set_ids.push(patch_set.digest()) =~= m.patch_set_ids + seq![patch_set.digest()]);
}

/// A patch on a role without a repository is refused.
pub proof fn law_unknown_roles_are_not_patched(
    repositories: Seq<RepositoryView>,
    allowed: Seq<Seq<char>>,
    policy: CrossRepoWorkspacePolicy,
    role: Seq<char>,
    patch_set: PatchSet,
)
    requires
        forall|j: int| 0 <= j < repositories.len() ==> (#[trigger] repositories[j]).role != role,
    ensures
        check_patch(repositories, allowed, policy, role, patch_set) is Err,
{
    lemma_first_role(repositories, role, 0);
}

/// Every provider of an override has a manifest on its path, at the root where the path is
/// a dot.
pub proof fn law_providers_have_manifests(repositories: Seq<RepositoryView>, rules: Seq<Key>, i: int, k: int)
    requires
        check_providers(repositories, rules) is Ok,
        0 <= i < rules.len(),
        0 <= k < repositories.len(),
        repositories[k].role == rules[i][3],
        forall|j: int| 0 <= j < k ==> (#[trigger] repositories[j]).role != rules[i][3],
    ensures
        rules[i][4] == seq!['.'] ==> repositories[k].files.dom().contains("Cargo.toml"@),
        rules[i][4] != seq!['.'] ==> repositories[k].files.dom().contains(rules[i][4] + "/Cargo.toml"@),
{
    let check = |r: Key| check_provider(repositories, r);
    lemma_check_all(rules, check);
    assert(check(rules[i]) is Ok);
    lemma_first_role(repositories, rules[i][3], 0);
    let found = role_position(repositories, rules[i][3], 0)->0;
    if found < k {
        assert(repositories[found].role != rules[i][3]);
    } else if k < found {
        assert(repositories[k].role != rules[i][3]);
    }
}

/// What is configured for a consumer depends on its own overrides alone.
pub proof fn law_configurations_are_apart(
    control_root: Seq<char>,
    repositories: Seq<RepositoryView>,
    rules: Seq<Key>,
    consumer: Seq<char>,
)
    ensures
        config_text(control_root, repositories, rules, consumer) == config_text(
            control_root,
            repositories,
            rules.filter(|k: Key| k[0] == consumer),
            consumer,
        ),
    decreases rules.len(),
{
    reveal(Seq::filter);
    if rules.len() > 0 {
        let front = rules.drop_last();
        law_configurations_are_apart(control_root, repositories, front, consumer);
        lemma_last_of_filter(rules, consumer);
        lemma_last_of_filter(front, consumer);
        let own = front.filter(|k: Key| k[0] == consumer);
        if rules.last()[0] == consumer {
            assert(own.push(rules.last()).drop_last() =~= own);
        } else {
            let text = config_text(control_root, repositories, front, consumer);
            assert(text + Seq::<char>::empty() =~= text);
        }
    }
}

proof fn lemma_last_of_filter(rules: Seq<Key>, consumer: Seq<char>)
    ensures
        last_source(rules, consumer) == last_source(rules.filter(|k: Key| k[0] == consumer), consumer),
    decreases rules.len(),
{
    reveal(Seq::filter);
    if rules.len() > 0 {
        lemma_last_of_filter(rules.drop_last(), consumer);
    }
}

/// An override is accepted exactly with a consumer, a source, a package and a provider of
/// one line each, and with a provider path that is a dot or can be made normal.
pub proof fn law_overrides(
    consumer_role: Seq<char>,
    source: Seq<char>,
    package: Seq<char>,
    provider_role: Seq<char>,
    provider_path: Seq<char>,
)
    ensures
        check_override(consumer_role, source, package, provider_role, provider_path) is Ok <==> {
            &&& consumer_role.len() > 0 && is_line(consumer_role)
            &&& source.len() > 0 && is_line(source)
            &&& package.len() > 0 && is_line(package)
            &&& provider_role.len() > 0 && is_line(provider_role)
            &&& provider_path == seq!['.'] || normalized(provider_path) is Some
        },
        normalized_provider(seq!['.']) == Some(seq!['.']),
        provider_path != seq!['.'] ==> normalized_provider(provider_path) == normalized(provider_path),
{
}

} // verus!
