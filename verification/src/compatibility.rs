//! Deterministic cross-repository compatibility metadata.
//!
//! A [`CompatibilitySet`] records the exact repository revisions and build
//! contract that produced an engineering result. Resolving a moving branch name
//! is an orchestration concern: only immutable Git object identifiers are
//! accepted here.

use vstd::prelude::*;
use vstd::seq_lib::to_multiset_len;
use vstd::utf8::encode_utf8;

use crate::checks::{and_then, check_all, lemma_check_all, lemma_check_step, lemma_map_all_ok, lemma_map_end, lemma_map_start, lemma_map_step, map_all, map_continues};
use crate::fields::{is_line, is_repository, is_revision, line_ok, repository_ok, revision_ok};
use crate::json::{get, json_array, lemma_get_with, lemma_text_array_wf, lemma_with_wf, wf, empty_obj, parse_text, print, text_array, values, Json, ToJson, Value};
use crate::json_round_trip::{law_number_reads_back, law_parse_inverts_print};
use crate::json_text::as_u64;
use crate::order::{
    ascending, canonical, canonical_texts, key_leq, key_order, keys, law_sorting, lemma_canonical, lemma_canonical_exists,
    lemma_canonical_ignores_input_order, lemma_key_order_total, lemma_sorted_ignores_input_order, lemma_sorted_unique_keys, order_texts,
    sort_records, sorted, strictly_ascending, Key, Keyed, Order,
};
use crate::sha256::{digest_hex, sha256_hex};
use crate::text::{decimal, decimal_text, lemma_lowercase_hex, lemma_lowercase_idempotent, lowercase, same_text, texts, to_lowercase, IntoText};

verus! {

/// Version of the JSON wire format emitted by [`CompatibilitySet`].
pub const COMPATIBILITY_SCHEMA_VERSION: u64 = 1;

/// Validation or decoding failure for compatibility metadata.
///
/// The parameter is the type of the texts it carries.
#[derive(Debug, Clone, PartialEq, Eq)]
pub enum CompatibilityError<S = String> {
    EmptyField(&'static str),
    InvalidRepository(S),
    InvalidRevision(S),
    InvalidValue { field: &'static str, value: S },
    DuplicateRepositoryRole { repository: S, role: S },
    InvalidJson(S),
    UnsupportedSchema(u64),
    MissingField(&'static str),
}

/// A failure over mathematical texts.
pub type CompatibilityFailure = CompatibilityError<Seq<char>>;

impl CompatibilityError<String> {
    pub open spec fn view(&self) -> CompatibilityFailure {
        match self {
            CompatibilityError::EmptyField(field) => CompatibilityError::EmptyField(*field),
            CompatibilityError::InvalidRepository(s) => CompatibilityError::InvalidRepository(s@),
            CompatibilityError::InvalidRevision(s) => CompatibilityError::InvalidRevision(s@),
            CompatibilityError::InvalidValue { field, value } => CompatibilityError::InvalidValue {
                field: *field,
                value: value@,
            },
            CompatibilityError::DuplicateRepositoryRole { repository, role } => CompatibilityError::DuplicateRepositoryRole {
                repository: repository@,
                role: role@,
            },
            CompatibilityError::InvalidJson(s) => CompatibilityError::InvalidJson(s@),
            CompatibilityError::UnsupportedSchema(n) => CompatibilityError::UnsupportedSchema(*n),
            CompatibilityError::MissingField(field) => CompatibilityError::MissingField(*field),
        }
    }

    /// The message shown to a user.
    pub fn to_string(&self) -> (r: String)
        ensures
            r@ == self@.message(),
    {
        match self {
            CompatibilityError::EmptyField(field) => {
                let mut m = "compatibility field '".to_owned();
                m.append(*field);
                m.append("' is empty");
                m
            },
            CompatibilityError::InvalidRepository(repository) => {
                let mut m = "invalid repository identifier '".to_owned();
                m.append(repository.as_str());
                m.append("' (expected owner/name)");
                m
            },
            CompatibilityError::InvalidRevision(revision) => {
                let mut m = "invalid immutable git revision '".to_owned();
                m.append(revision.as_str());
                m.append("' (expected 40 or 64 hex characters)");
                m
            },
            CompatibilityError::InvalidValue { field, value } => {
                let mut m = "invalid compatibility field '".to_owned();
                m.append(*field);
                m.append("': '");
                m.append(value.as_str());
                m.append("'");
                m
            },
            CompatibilityError::DuplicateRepositoryRole { repository, role } => {
                let mut m = "duplicate compatibility entry for repository '".to_owned();
                m.append(repository.as_str());
                m.append("' and role '");
                m.append(role.as_str());
                m.append("'");
                m
            },
            CompatibilityError::InvalidJson(error) => {
                let mut m = "invalid compatibility JSON: ".to_owned();
                m.append(error.as_str());
                m
            },
            CompatibilityError::UnsupportedSchema(version) => {
                let mut m = "unsupported compatibility schema version ".to_owned();
                m.append(decimal_text(*version).as_str());
                m
            },
            CompatibilityError::MissingField(field) => {
                let mut m = "missing compatibility field '".to_owned();
                m.append(*field);
                m.append("'");
                m
            },
        }
    }
}

impl CompatibilityError<Seq<char>> {
    pub open spec fn message(&self) -> Seq<char> {
        match self {
            CompatibilityError::EmptyField(field) => "compatibility field '"@ + field@ + "' is empty"@,
            CompatibilityError::InvalidRepository(repository) => "invalid repository identifier '"@ + *repository
                + "' (expected owner/name)"@,
            CompatibilityError::InvalidRevision(revision) => "invalid immutable git revision '"@ + *revision
                + "' (expected 40 or 64 hex characters)"@,
            CompatibilityError::InvalidValue { field, value } => "invalid compatibility field '"@ + field@ + "': '"@
                + *value + "'"@,
            CompatibilityError::DuplicateRepositoryRole { repository, role } => "duplicate compatibility entry for repository '"@
                + *repository + "' and role '"@ + *role + "'"@,
            CompatibilityError::InvalidJson(error) => "invalid compatibility JSON: "@ + *error,
            CompatibilityError::UnsupportedSchema(version) => "unsupported compatibility schema version "@ + decimal(
                *version as nat,
            ),
            CompatibilityError::MissingField(field) => "missing compatibility field '"@ + field@ + "'"@,
        }
    }
}

// ---------------------------------------------------------------------------
// Field checks
// ---------------------------------------------------------------------------

pub open spec fn check_repository(s: Seq<char>) -> Result<(), CompatibilityFailure> {
    if s.len() == 0 {
        Err(CompatibilityError::EmptyField("repository"))
    } else if !is_repository(s) {
        Err(CompatibilityError::InvalidRepository(s))
    } else {
        Ok(())
    }
}

pub open spec fn check_revision(s: Seq<char>) -> Result<(), CompatibilityFailure> {
    if is_revision(s) {
        Ok(())
    } else {
        Err(CompatibilityError::InvalidRevision(s))
    }
}

pub open spec fn check_text(field: &'static str, s: Seq<char>) -> Result<(), CompatibilityFailure> {
    if s.len() == 0 {
        Err(CompatibilityError::EmptyField(field))
    } else if !is_line(s) {
        Err(CompatibilityError::InvalidValue { field, value: s })
    } else {
        Ok(())
    }
}

/// The outcome with its failure over mathematical texts.
pub open spec fn outcome<T>(r: Result<T, CompatibilityError>) -> Result<T, CompatibilityFailure> {
    match r {
        Ok(t) => Ok(t),
        Err(e) => Err(e@),
    }
}

fn validate_repository(repository: &str) -> (r: Result<(), CompatibilityError>)
    ensures
        outcome(r) == check_repository(repository@),
{
    if repository.is_empty() {
        return Err(CompatibilityError::EmptyField("repository"));
    }
    if !repository_ok(repository) {
        return Err(CompatibilityError::InvalidRepository(repository.to_owned()));
    }
    Ok(())
}

fn validate_revision(revision: &str) -> (r: Result<(), CompatibilityError>)
    ensures
        outcome(r) == check_revision(revision@),
{
    if !revision_ok(revision) {
        return Err(CompatibilityError::InvalidRevision(revision.to_owned()));
    }
    Ok(())
}

fn validate_text(field: &'static str, value: &str) -> (r: Result<(), CompatibilityError>)
    ensures
        outcome(r) == check_text(field, value@),
{
    if value.is_empty() {
        return Err(CompatibilityError::EmptyField(field));
    }
    if !line_ok(value) {
        return Err(CompatibilityError::InvalidValue { field, value: value.to_owned() });
    }
    Ok(())
}

// ---------------------------------------------------------------------------
// Revisions
// ---------------------------------------------------------------------------

/// One immutable repository participating in a qualified system state.
#[derive(Debug, PartialEq, Eq, PartialOrd, Ord)]
pub struct RepositoryRevision {
    /// Canonical repository locator in `owner/name` form.
    pub repository: String,
    /// Exact immutable Git object ID (SHA-1 today, SHA-256 compatible).
    pub revision: String,
    /// Semantic role in the compatibility set (`rsi`, `scirust`, `flat`, ...).
    pub role: String,
}

impl Clone for RepositoryRevision {
    fn clone(&self) -> (r: Self)
        ensures
            r == *self,
    {
        RepositoryRevision {
            repository: self.repository.clone(),
            revision: self.revision.clone(),
            role: self.role.clone(),
        }
    }
}

/// The three texts of a revision: repository, revision, role.
pub open spec fn revision_key(repository: Seq<char>, revision: Seq<char>, role: Seq<char>) -> Key {
    seq![repository, revision, role]
}

/// What [`RepositoryRevision::new`] makes of its arguments.
pub open spec fn new_revision(repository: Seq<char>, revision: Seq<char>, role: Seq<char>) -> Result<Key, CompatibilityFailure> {
    and_then(
        check_repository(repository),
        and_then(
            check_revision(revision),
            and_then(
                check_text("role", role),
                Ok(revision_key(repository, lowercase(revision), role)),
            ),
        ),
    )
}

impl Keyed for RepositoryRevision {
    open spec fn key(&self) -> Key {
        revision_key(self.repository@, self.revision@, self.role@)
    }

    fn order_by_key(&self, other: &Self) -> (r: Order) {
        proof {
            reveal_with_fuel(key_order, 4);
            let a = self.key();
            let b = other.key();
            assert(a.drop_first() =~= seq![a[1], a[2]]);
            assert(b.drop_first() =~= seq![b[1], b[2]]);
            assert(a.drop_first().drop_first() =~= seq![a[2]]);
            assert(b.drop_first().drop_first() =~= seq![b[2]]);
        }
        match order_texts(self.repository.as_str(), other.repository.as_str()) {
            Order::Equal => match order_texts(self.revision.as_str(), other.revision.as_str()) {
                Order::Equal => order_texts(self.role.as_str(), other.role.as_str()),
                o => o,
            },
            o => o,
        }
    }

    fn primary(&self) -> (r: &str) {
        self.repository.as_str()
    }
}

/// The JSON object of a revision.
pub open spec fn revision_json(k: Key) -> Value {
    empty_obj().with("repository"@, Value::Str(k[0])).with("revision"@, Value::Str(k[1])).with(
        "role"@,
        Value::Str(k[2]),
    )
}

/// A member that must be a string.
pub open spec fn string_member(v: Value, field: &'static str) -> Result<Seq<char>, CompatibilityFailure> {
    match get(v, field@) {
        Some(Value::Str(s)) => Ok(s),
        _ => Err(CompatibilityError::MissingField(field)),
    }
}

/// What decoding makes of the JSON value of a revision.
pub open spec fn decode_revision(v: Value) -> Result<Key, CompatibilityFailure> {
    match string_member(v, "repository") {
        Err(e) => Err(e),
        Ok(repository) => match string_member(v, "revision") {
            Err(e) => Err(e),
            Ok(revision) => match string_member(v, "role") {
                Err(e) => Err(e),
                Ok(role) => new_revision(repository, revision, role),
            },
        },
    }
}

fn required_string(value: &Json, field: &'static str) -> (r: Result<String, CompatibilityError>)
    ensures
        match r {
            Ok(s) => string_member(value@, field) == Ok::<Seq<char>, CompatibilityFailure>(s@),
            Err(e) => string_member(value@, field) == Err::<Seq<char>, CompatibilityFailure>(e@),
        },
{
    match value.get(field) {
        Some(found) => match found.as_str() {
            Some(s) => Ok(s.to_owned()),
            None => Err(CompatibilityError::MissingField(field)),
        },
        None => Err(CompatibilityError::MissingField(field)),
    }
}

/// The outcome of building a revision, over mathematical texts.
pub open spec fn revision_outcome(r: Result<RepositoryRevision, CompatibilityError>) -> Result<Key, CompatibilityFailure> {
    match r {
        Ok(x) => Ok(x.key()),
        Err(e) => Err(e@),
    }
}

impl ToJson for RepositoryRevision {
    open spec fn json(&self) -> Value {
        revision_json(self.key())
    }

    fn to_json(&self) -> (r: Json) {
        let mut out = Json::obj();
        out.set("repository", Json::Str(self.repository.clone()));
        out.set("revision", Json::Str(self.revision.clone()));
        out.set("role", Json::Str(self.role.clone()));
        out
    }
}

impl RepositoryRevision {
    pub fn new(repository: impl IntoText, revision: impl IntoText, role: impl IntoText) -> (r: Result<Self, CompatibilityError>)
        ensures
            revision_outcome(r) == new_revision(repository.text(), revision.text(), role.text()),
    {
        let repository = repository.into_text();
        let revision = revision.into_text();
        let role = role.into_text();
        validate_repository(repository.as_str())?;
        validate_revision(revision.as_str())?;
        validate_text("role", role.as_str())?;
        Ok(RepositoryRevision { repository, revision: to_lowercase(revision.as_str()), role })
    }

    fn from_json(value: &Json) -> (r: Result<Self, CompatibilityError>)
        ensures
            revision_outcome(r) == decode_revision(value@),
    {
        let repository = required_string(value, "repository")?;
        let revision = required_string(value, "revision")?;
        let role = required_string(value, "role")?;
        RepositoryRevision::new(repository, revision, role)
    }
}

// ---------------------------------------------------------------------------
// Sets
// ---------------------------------------------------------------------------

/// Exact, reproducible set of repositories and build features used together.
///
/// Construction canonicalizes repository and feature ordering so equivalent
/// inputs serialize to identical bytes and therefore to the same fingerprint.
#[derive(Debug, PartialEq, Eq)]
pub struct CompatibilitySet {
    revisions: Vec<RepositoryRevision>,
    toolchain: String,
    feature_contract: Vec<String>,
}

/// A compatibility set over mathematical texts.
#[verifier::ext_equal]
pub struct CompatibilityRecord {
    pub revisions: Seq<Key>,
    pub toolchain: Seq<char>,
    pub feature_contract: Seq<Seq<char>>,
}

/// Two revisions stand for one repository in one role, whatever their commits.
pub open spec fn same_place(a: Key, b: Key) -> bool {
    a[0] == b[0] && a[2] == b[2]
}

/// Some two entries stand for one repository in one role.
pub open spec fn has_repeated_place(revisions: Seq<Key>) -> bool {
    exists|i: int, j: int| 0 <= i < j < revisions.len() && #[trigger] same_place(revisions[i], revisions[j])
}

/// An earlier entry than the one at `j` has its repository and role.
pub open spec fn repeats_place(revisions: Seq<Key>, j: int) -> bool {
    exists|i: int| 0 <= i < j && #[trigger] same_place(revisions[i], revisions[j])
}

/// No entry has the repository and role of an earlier one; the first that has is named.
pub open spec fn check_roles(revisions: Seq<Key>) -> Result<(), CompatibilityFailure>
    decreases revisions.len(),
{
    if revisions.len() == 0 {
        Ok(())
    } else {
        match check_roles(revisions.drop_last()) {
            Err(e) => Err(e),
            Ok(_) => if repeats_place(revisions, revisions.len() - 1) {
                Err(
                    CompatibilityError::DuplicateRepositoryRole {
                        repository: revisions.last()[0],
                        role: revisions.last()[2],
                    },
                )
            } else {
                Ok(())
            },
        }
    }
}

/// An error in the front of a list is the error of the list.
proof fn lemma_roles_prefix(revisions: Seq<Key>, n: int)
    requires
        0 <= n <= revisions.len(),
        check_roles(revisions.take(n)) is Err,
    ensures
        check_roles(revisions) == check_roles(revisions.take(n)),
    decreases revisions.len(),
{
    if n == revisions.len() {
        assert(revisions.take(n) =~= revisions);
    } else {
        assert(revisions.drop_last().take(n) =~= revisions.take(n));
        lemma_roles_prefix(revisions.drop_last(), n);
    }
}

/// Exactly the lists without a repeated repository and role pass.
proof fn lemma_roles(revisions: Seq<Key>)
    ensures
        check_roles(revisions) is Err <==> has_repeated_place(revisions),
        check_roles(revisions) matches Err(e) ==> e is DuplicateRepositoryRole,
    decreases revisions.len(),
{
    if revisions.len() > 0 {
        let front = revisions.drop_last();
        let last = revisions.len() - 1;
        lemma_roles(front);
        if has_repeated_place(front) {
            let (i, j) = choose|i: int, j: int| 0 <= i < j < front.len() && #[trigger] same_place(front[i], front[j]);
            assert(same_place(revisions[i], revisions[j]));
        } else if repeats_place(revisions, last) {
            let i = choose|i: int| 0 <= i < last && #[trigger] same_place(revisions[i], revisions[last]);
            assert(same_place(revisions[i], revisions[last]));
        } else if has_repeated_place(revisions) {
            let (i, j) = choose|i: int, j: int|
                0 <= i < j < revisions.len() && #[trigger] same_place(revisions[i], revisions[j]);
            if j < last {
                assert(same_place(front[i], front[j]));
            }
        }
    }
}

pub open spec fn check_features(features: Seq<Seq<char>>) -> Result<(), CompatibilityFailure> {
    check_all(features, |f: Seq<char>| check_text("feature_contract", f))
}

/// What [`CompatibilitySet::new`] makes of its arguments.
pub open spec fn new_set(revisions: Seq<Key>, toolchain: Seq<char>, features: Seq<Seq<char>>) -> Result<
    CompatibilityRecord,
    CompatibilityFailure,
> {
    if revisions.len() == 0 {
        Err(CompatibilityError::EmptyField("revisions"))
    } else {
        and_then(
            check_text("toolchain", toolchain),
            and_then(
                check_features(features),
                and_then(
                    check_roles(sorted(revisions)),
                    Ok(
                        CompatibilityRecord {
                            revisions: sorted(revisions),
                            toolchain,
                            feature_contract: canonical(features),
                        },
                    ),
                ),
            ),
        )
    }
}

/// The JSON object of a set.
pub open spec fn set_json(set: CompatibilityRecord) -> Value {
    empty_obj().with("feature_contract"@, text_array(set.feature_contract)).with(
        "revisions"@,
        Value::Arr(set.revisions.map_values(|k: Key| revision_json(k))),
    ).with("schema"@, Value::Num(decimal(COMPATIBILITY_SCHEMA_VERSION as nat))).with(
        "toolchain"@,
        Value::Str(set.toolchain),
    )
}

/// The canonical text of a set.
pub open spec fn set_text(set: CompatibilityRecord) -> Seq<char> {
    print(set_json(set))
}

/// The stable state key of a set.
pub open spec fn set_fingerprint(set: CompatibilityRecord) -> Seq<char> {
    digest_hex(encode_utf8(set_text(set)))
}

pub open spec fn decode_feature(v: Value) -> Result<Seq<char>, CompatibilityFailure> {
    match v {
        Value::Str(s) => Ok(s),
        other => Err(
            CompatibilityError::InvalidValue { field: "feature_contract", value: print(other) },
        ),
    }
}

/// A member that must be an array.
pub open spec fn array_member(v: Value, field: &'static str) -> Result<Seq<Value>, CompatibilityFailure> {
    match get(v, field@) {
        Some(Value::Arr(items)) => Ok(items),
        _ => Err(CompatibilityError::MissingField(field)),
    }
}

/// The schema version of a JSON value, when it is the supported one.
pub open spec fn check_schema(v: Value) -> Result<(), CompatibilityFailure> {
    match get(v, "schema"@) {
        None => Err(CompatibilityError::MissingField("schema")),
        Some(found) => match as_u64(found) {
            None => Err(CompatibilityError::MissingField("schema")),
            Some(n) => if n == COMPATIBILITY_SCHEMA_VERSION {
                Ok(())
            } else {
                Err(CompatibilityError::UnsupportedSchema(n))
            },
        },
    }
}

/// What [`CompatibilitySet::from_json_str`] makes of the value of its text.
pub open spec fn decode_set(v: Value) -> Result<CompatibilityRecord, CompatibilityFailure> {
    match check_schema(v) {
        Err(e) => Err(e),
        Ok(_) => match array_member(v, "revisions") {
            Err(e) => Err(e),
            Ok(items) => match map_all(items, |x: Value| decode_revision(x)) {
                Err(e) => Err(e),
                Ok(revisions) => match string_member(v, "toolchain") {
                    Err(e) => Err(e),
                    Ok(toolchain) => match array_member(v, "feature_contract") {
                        Err(e) => Err(e),
                        Ok(listed) => match map_all(listed, |x: Value| decode_feature(x)) {
                            Err(e) => Err(e),
                            Ok(features) => new_set(revisions, toolchain, features),
                        },
                    },
                },
            },
        },
    }
}

/// What [`CompatibilitySet::from_json_str`] makes of its text.
pub open spec fn decode_text(text: Seq<char>) -> Result<CompatibilityRecord, CompatibilityFailure> {
    match parse_text(text) {
        None => Err(CompatibilityError::InvalidJson("malformed JSON text"@)),
        Some(v) => decode_set(v),
    }
}

/// The outcome of building a set, over mathematical texts.
pub open spec fn set_outcome(r: Result<CompatibilitySet, CompatibilityError>) -> Result<CompatibilityRecord, CompatibilityFailure> {
    match r {
        Ok(set) => Ok(set@),
        Err(e) => Err(e@),
    }
}

fn validate_roles(revisions: &[RepositoryRevision]) -> (r: Result<(), CompatibilityError>)
    ensures
        outcome(r) == check_roles(keys(revisions@)),
{
    let ghost all = keys(revisions@);
    let mut j: usize = 0;
    while j < revisions.len()
        invariant
            j <= revisions@.len(),
            all == keys(revisions@),
            check_roles(all.take(j as int)) is Ok,
        decreases revisions@.len() - j,
    {
        let ghost front = all.take(j + 1);
        proof {
            assert(front.drop_last() =~= all.take(j as int));
            assert(front.last() == revisions@[j as int].key());
        }
        let right = &revisions[j];
        let mut i: usize = 0;
        while i < j
            invariant
                i <= j < revisions@.len(),
                all == keys(revisions@),
                front == all.take(j + 1),
                front.last() == right.key(),
                front.last() == front[j as int],
                check_roles(front.drop_last()) is Ok,
                forall|k: int| 0 <= k < i ==> !#[trigger] same_place(front[k], front[j as int]),
            decreases j - i,
        {
            let left = &revisions[i];
            assert(front[i as int] == left.key());
            if same_text(left.repository.as_str(), right.repository.as_str()) && same_text(
                left.role.as_str(),
                right.role.as_str(),
            ) {
                proof {
                    assert(same_place(front[i as int], front[j as int]));
                    assert(repeats_place(front, front.len() - 1));
                    lemma_roles_prefix(all, j + 1);
                }
                return Err(
                    CompatibilityError::DuplicateRepositoryRole {
                        repository: right.repository.clone(),
                        role: right.role.clone(),
                    },
                );
            }
            i += 1;
        }
        j += 1;
    }
    assert(all.take(j as int) =~= all);
    Ok(())
}

fn validate_features(features: &[String]) -> (r: Result<(), CompatibilityError>)
    ensures
        outcome(r) == check_features(texts(features@)),
{
    let ghost all = texts(features@);
    let ghost check = |f: Seq<char>| check_text("feature_contract", f);
    let mut i: usize = 0;
    assert(all.skip(0) =~= all);
    while i < features.len()
        invariant
            i <= features@.len(),
            all == texts(features@),
            check == (|f: Seq<char>| check_text("feature_contract", f)),
            check_all(all, check) == check_all(all.skip(i as int), check),
        decreases features@.len() - i,
    {
        proof {
            lemma_check_step(all, i as int, check);
        }
        validate_text("feature_contract", features[i].as_str())?;
        i += 1;
    }
    Ok(())
}

impl CompatibilitySet {
    pub closed spec fn view(&self) -> CompatibilityRecord {
        CompatibilityRecord {
            revisions: keys(self.revisions@),
            toolchain: self.toolchain@,
            feature_contract: texts(self.feature_contract@),
        }
    }

    pub fn new(revisions: Vec<RepositoryRevision>, toolchain: impl IntoText, feature_contract: Vec<String>) -> (r: Result<
        Self,
        CompatibilityError,
    >)
        ensures
            set_outcome(r) == new_set(keys(revisions@), toolchain.text(), texts(feature_contract@)),
    {
        if revisions.len() == 0 {
            return Err(CompatibilityError::EmptyField("revisions"));
        }
        let toolchain = toolchain.into_text();
        validate_text("toolchain", toolchain.as_str())?;
        validate_features(feature_contract.as_slice())?;
        let revisions = sort_records(revisions);
        validate_roles(revisions.as_slice())?;
        let feature_contract = canonical_texts(feature_contract);
        Ok(CompatibilitySet { revisions, toolchain, feature_contract })
    }

    pub fn revisions(&self) -> (r: &[RepositoryRevision])
        ensures
            keys(r@) == self@.revisions,
    {
        self.revisions.as_slice()
    }

    pub fn toolchain(&self) -> (r: &str)
        ensures
            r@ == self@.toolchain,
    {
        self.toolchain.as_str()
    }

    pub fn feature_contract(&self) -> (r: &[String])
        ensures
            texts(r@) == self@.feature_contract,
    {
        self.feature_contract.as_slice()
    }

    fn to_json(&self) -> (r: Json)
        ensures
            r@ == set_json(self@),
    {
        let listed = json_array(self.revisions.as_slice());
        proof {
            assert(listed@->Arr_0 =~= self@.revisions.map_values(|k: Key| revision_json(k)));
        }
        let mut out = Json::obj();
        out.set("feature_contract", Json::text_array(self.feature_contract.as_slice()));
        out.set("revisions", listed);
        out.set("schema", Json::num(COMPATIBILITY_SCHEMA_VERSION));
        out.set("toolchain", Json::Str(self.toolchain.clone()));
        out
    }

    /// Canonical compact JSON representation.
    pub fn to_json_string(&self) -> (r: String)
        ensures
            r@ == set_text(self@),
    {
        self.to_json().to_string()
    }

    /// Decode and re-canonicalize a compatibility set.
    pub fn from_json_str(input: &str) -> (r: Result<Self, CompatibilityError>)
        ensures
            set_outcome(r) == decode_text(input@),
    {
        let value = match Json::parse(input) {
            Ok(v) => v,
            Err(message) => {
                return Err(CompatibilityError::InvalidJson(message));
            },
        };
        let schema = match value.get("schema") {
            Some(found) => match found.as_u64() {
                Some(n) => n,
                None => {
                    return Err(CompatibilityError::MissingField("schema"));
                },
            },
            None => {
                return Err(CompatibilityError::MissingField("schema"));
            },
        };
        if schema != COMPATIBILITY_SCHEMA_VERSION {
            return Err(CompatibilityError::UnsupportedSchema(schema));
        }
        let items = required_array(&value, "revisions")?;
        let revisions = decode_revisions(items)?;
        let toolchain = required_string(&value, "toolchain")?;
        let listed = required_array(&value, "feature_contract")?;
        let features = decode_features(listed)?;
        CompatibilitySet::new(revisions, toolchain, features)
    }

    /// SHA-256 of the canonical JSON bytes, suitable as a stable state key.
    pub fn fingerprint(&self) -> (r: String)
        ensures
            r@ == set_fingerprint(self@),
    {
        sha256_hex(self.to_json_string().as_str().as_bytes())
    }
}

impl Clone for CompatibilitySet {
    fn clone(&self) -> (r: Self)
        ensures
            r@ == self@,
    {
        let revisions = self.revisions.clone();
        let feature_contract = self.feature_contract.clone();
        proof {
            assert(revisions@ =~= self.revisions@);
            assert(feature_contract@ =~= self.feature_contract@);
        }
        CompatibilitySet { revisions, toolchain: self.toolchain.clone(), feature_contract }
    }
}

fn required_array<'a>(value: &'a Json, field: &'static str) -> (r: Result<&'a Vec<Json>, CompatibilityError>)
    ensures
        match r {
            Ok(items) => array_member(value@, field) == Ok::<Seq<Value>, CompatibilityFailure>(
                values(items@),
            ),
            Err(e) => array_member(value@, field) == Err::<Seq<Value>, CompatibilityFailure>(e@),
        },
{
    match value.get(field) {
        Some(found) => match found.as_array() {
            Some(items) => Ok(items),
            None => Err(CompatibilityError::MissingField(field)),
        },
        None => Err(CompatibilityError::MissingField(field)),
    }
}

fn decode_revisions(items: &Vec<Json>) -> (r: Result<Vec<RepositoryRevision>, CompatibilityError>)
    ensures
        match r {
            Ok(found) => map_all(values(items@), |x: Value| decode_revision(x)) == Ok::<
                Seq<Key>,
                CompatibilityFailure,
            >(keys(found@)),
            Err(e) => map_all(values(items@), |x: Value| decode_revision(x)) == Err::<
                Seq<Key>,
                CompatibilityFailure,
            >(e@),
        },
{
    let ghost all = values(items@);
    let ghost f = |x: Value| decode_revision(x);
    let mut out: Vec<RepositoryRevision> = Vec::new();
    proof {
        lemma_map_start(all, f);
        assert(keys(out@) =~= Seq::empty());
    }
    let mut i: usize = 0;
    while i < items.len()
        invariant
            i <= items@.len(),
            all == values(items@),
            f == (|x: Value| decode_revision(x)),
            map_continues(all, f, keys(out@), i as int),
        decreases items@.len() - i,
    {
        proof {
            lemma_map_step(all, f, keys(out@), i as int);
            assert(all[i as int] == items@[i as int]@);
        }
        let ghost before = out@;
        let found = RepositoryRevision::from_json(&items[i])?;
        let ghost k = found.key();
        out.push(found);
        assert(keys(out@) =~= keys(before).push(k));
        i += 1;
    }
    proof {
        lemma_map_end(all, f, keys(out@));
    }
    Ok(out)
}

fn decode_features(items: &Vec<Json>) -> (r: Result<Vec<String>, CompatibilityError>)
    ensures
        match r {
            Ok(found) => map_all(values(items@), |x: Value| decode_feature(x)) == Ok::<
                Seq<Seq<char>>,
                CompatibilityFailure,
            >(texts(found@)),
            Err(e) => map_all(values(items@), |x: Value| decode_feature(x)) == Err::<
                Seq<Seq<char>>,
                CompatibilityFailure,
            >(e@),
        },
{
    let ghost all = values(items@);
    let ghost f = |x: Value| decode_feature(x);
    let mut out: Vec<String> = Vec::new();
    proof {
        lemma_map_start(all, f);
        assert(texts(out@) =~= Seq::empty());
    }
    let mut i: usize = 0;
    while i < items.len()
        invariant
            i <= items@.len(),
            all == values(items@),
            f == (|x: Value| decode_feature(x)),
            map_continues(all, f, texts(out@), i as int),
        decreases items@.len() - i,
    {
        proof {
            lemma_map_step(all, f, texts(out@), i as int);
            assert(all[i as int] == items@[i as int]@);
        }
        let ghost before = out@;
        match items[i].as_str() {
            Some(s) => {
                out.push(s.to_owned());
                assert(texts(out@) =~= texts(before).push(s@));
            },
            None => {
                return Err(
                    CompatibilityError::InvalidValue {
                        field: "feature_contract",
                        value: items[i].to_string(),
                    },
                );
            },
        }
        i += 1;
    }
    proof {
        lemma_map_end(all, f, texts(out@));
    }
    Ok(out)
}

// ---------------------------------------------------------------------------
// Laws
// ---------------------------------------------------------------------------

/// A set as construction leaves it: valid fields in canonical order.
pub open spec fn is_canonical_set(set: CompatibilityRecord) -> bool {
    &&& set.revisions.len() > 0
    &&& forall|i: int| 0 <= i < set.revisions.len() ==> is_canonical_revision(#[trigger] set.revisions[i])
    &&& ascending(set.revisions)
    &&& check_roles(set.revisions) is Ok
    &&& check_text("toolchain", set.toolchain) is Ok
    &&& strictly_ascending(set.feature_contract)
    &&& check_features(set.feature_contract) is Ok
}

/// A revision as construction leaves it: it passes construction unchanged.
pub open spec fn is_canonical_revision(k: Key) -> bool {
    k.len() == 3 && new_revision(k[0], k[1], k[2]) == Ok::<Key, CompatibilityFailure>(k)
}

/// Building a revision from what it yielded yields it again.
pub proof fn law_new_revision_is_idempotent(repository: Seq<char>, revision: Seq<char>, role: Seq<char>)
    requires
        new_revision(repository, revision, role) is Ok,
    ensures
        is_canonical_revision(new_revision(repository, revision, role)->Ok_0),
{
    lemma_lowercase_idempotent(revision);
    lemma_lowercase_hex(revision);
    let k = new_revision(repository, revision, role)->Ok_0;
    assert(k[0] == repository && k[1] == lowercase(revision) && k[2] == role);
}

/// Whatever construction accepts, built from valid revisions, is in canonical form.
pub proof fn law_new_set_is_canonical(revisions: Seq<Key>, toolchain: Seq<char>, features: Seq<Seq<char>>)
    requires
        forall|i: int| 0 <= i < revisions.len() ==> is_canonical_revision(#[trigger] revisions[i]),
        new_set(revisions, toolchain, features) is Ok,
    ensures
        is_canonical_set(new_set(revisions, toolchain, features)->Ok_0),
{
    broadcast use vstd::seq_lib::group_to_multiset_ensures;
    let out = new_set(revisions, toolchain, features)->Ok_0;
    lemma_key_order_total();
    revisions.lemma_sort_by_ensures(key_leq());
    to_multiset_len(out.revisions);
    to_multiset_len(revisions);
    assert forall|i: int| 0 <= i < out.revisions.len() implies is_canonical_revision(
        #[trigger] out.revisions[i],
    ) by {
        assert(out.revisions.contains(out.revisions[i]));
        assert(revisions.to_multiset().count(out.revisions[i]) > 0);
        assert(revisions.contains(out.revisions[i]));
        let j = choose|j: int| 0 <= j < revisions.len() && revisions[j] == out.revisions[i];
        assert(is_canonical_revision(revisions[j]));
    }
    lemma_canonical_exists(features);
    let check = |f: Seq<char>| check_text("feature_contract", f);
    lemma_check_all(features, check);
    lemma_check_all(out.feature_contract, check);
    assert forall|i: int| 0 <= i < out.feature_contract.len() implies (#[trigger] check(
        out.feature_contract[i],
    )) is Ok by {
        assert(out.feature_contract.contains(out.feature_contract[i]));
        assert(features.contains(out.feature_contract[i]));
        let j = choose|j: int| 0 <= j < features.len() && features[j] == out.feature_contract[i];
        assert(check(features[j]) is Ok);
    }
}

/// In a set that construction accepts, no two entries stand for one repository in one
/// role.
pub proof fn law_roles_are_distinct(revisions: Seq<Key>, toolchain: Seq<char>, features: Seq<Seq<char>>)
    ensures
        new_set(revisions, toolchain, features) matches Ok(s) ==> forall|i: int, j: int|
            0 <= i < j < s.revisions.len() ==> !(#[trigger] s.revisions[i][0] == #[trigger] s.revisions[j][0]
                && s.revisions[i][2] == s.revisions[j][2]),
{
    if let Ok(s) = new_set(revisions, toolchain, features) {
        lemma_roles(s.revisions);
        assert forall|i: int, j: int| 0 <= i < j < s.revisions.len() implies !(#[trigger] s.revisions[i][0]
            == #[trigger] s.revisions[j][0] && s.revisions[i][2] == s.revisions[j][2]) by {
            assert(!same_place(s.revisions[i], s.revisions[j]));
        }
    }
}

proof fn lemma_repeated_place_moves(a: Seq<Key>, b: Seq<Key>)
    requires
        a.to_multiset() == b.to_multiset(),
        has_repeated_place(a),
    ensures
        has_repeated_place(b),
{
    broadcast use vstd::seq_lib::group_to_multiset_ensures;
    let (i, j) = choose|i: int, j: int| 0 <= i < j < a.len() && #[trigger] same_place(a[i], a[j]);
    if a[i] == a[j] {
        if b.no_duplicates() {
            b.lemma_multiset_has_no_duplicates();
            a.lemma_multiset_has_no_duplicates_conv();
            assert(false);
        }
        let (k, l) = choose|k: int, l: int| 0 <= k < b.len() && 0 <= l < b.len() && k != l && b[k] == b[l];
        if k < l {
            assert(same_place(b[k], b[l]));
        } else {
            assert(same_place(b[l], b[k]));
        }
    } else {
        assert(a.contains(a[i]) && a.contains(a[j]));
        assert(b.to_multiset().count(a[i]) > 0 && b.to_multiset().count(a[j]) > 0);
        assert(b.contains(a[i]) && b.contains(a[j]));
        let k = choose|k: int| 0 <= k < b.len() && b[k] == a[i];
        let l = choose|l: int| 0 <= l < b.len() && b[l] == a[j];
        if k < l {
            assert(same_place(b[k], b[l]));
        } else {
            assert(same_place(b[l], b[k]));
        }
    }
}

/// Given revisions, a toolchain and features that are valid by themselves, construction
/// refuses exactly the sets in which two entries stand for one repository in one role,
/// and says so.
pub proof fn law_repeated_roles_are_refused(revisions: Seq<Key>, toolchain: Seq<char>, features: Seq<Seq<char>>)
    requires
        revisions.len() > 0,
        check_text("toolchain", toolchain) is Ok,
        check_features(features) is Ok,
    ensures
        new_set(revisions, toolchain, features) is Err <==> has_repeated_place(revisions),
        new_set(revisions, toolchain, features) matches Err(e) ==> e is DuplicateRepositoryRole,
{
    lemma_key_order_total();
    revisions.lemma_sort_by_ensures(key_leq());
    lemma_roles(sorted(revisions));
    if has_repeated_place(revisions) {
        lemma_repeated_place_moves(revisions, sorted(revisions));
    }
    if has_repeated_place(sorted(revisions)) {
        lemma_repeated_place_moves(sorted(revisions), revisions);
    }
}

/// A canonical set is built from its own parts unchanged.
pub proof fn law_new_set_keeps_canonical(set: CompatibilityRecord)
    requires
        is_canonical_set(set),
    ensures
        new_set(set.revisions, set.toolchain, set.feature_contract) == Ok::<
            CompatibilityRecord,
            CompatibilityFailure,
        >(set),
{
    lemma_sorted_unique_keys(set.revisions, set.revisions);
    lemma_canonical(set.feature_contract, set.feature_contract);
}

/// The order in which revisions and features are given, and repetitions of
/// features, do not matter.
pub proof fn law_new_set_ignores_input_order(
    revisions: Seq<Key>,
    others: Seq<Key>,
    toolchain: Seq<char>,
    features: Seq<Seq<char>>,
    listed: Seq<Seq<char>>,
)
    requires
        revisions.to_multiset() == others.to_multiset(),
        forall|f: Seq<char>| #[trigger] features.contains(f) <==> listed.contains(f),
        new_set(revisions, toolchain, features) is Ok,
    ensures
        new_set(others, toolchain, listed) == new_set(revisions, toolchain, features),
{
    broadcast use vstd::seq_lib::group_to_multiset_ensures;
    to_multiset_len(revisions);
    to_multiset_len(others);
    lemma_sorted_ignores_input_order(revisions, others);
    lemma_canonical_ignores_input_order(features, listed);
    let check = |f: Seq<char>| check_text("feature_contract", f);
    lemma_check_all(features, check);
    lemma_check_all(listed, check);
    assert forall|i: int| 0 <= i < listed.len() implies (#[trigger] check(listed[i])) is Ok by {
        assert(listed.contains(listed[i]));
        assert(features.contains(listed[i]));
        let j = choose|j: int| 0 <= j < features.len() && features[j] == listed[i];
        assert(check(features[j]) is Ok);
    }
}

proof fn lemma_revision_json(k: Key)
    requires
        is_canonical_revision(k),
    ensures
        wf(revision_json(k)),
        decode_revision(revision_json(k)) == Ok::<Key, CompatibilityFailure>(k),
{
    reveal_strlit("repository");
    reveal_strlit("revision");
    reveal_strlit("role");
    let e = empty_obj();
    let a = e.with("repository"@, Value::Str(k[0]));
    let b = a.with("revision"@, Value::Str(k[1]));
    let c = b.with("role"@, Value::Str(k[2]));
    lemma_with_wf(e, "repository"@, Value::Str(k[0]));
    lemma_with_wf(a, "revision"@, Value::Str(k[1]));
    lemma_with_wf(b, "role"@, Value::Str(k[2]));
    assert("repository"@ != "revision"@ && "repository"@ != "role"@ && "revision"@ != "role"@) by {
        assert("repository"@.len() == 10);
        assert("revision"@.len() == 8);
        assert("role"@.len() == 4);
    }
    lemma_get_with(e, "repository"@, Value::Str(k[0]), "repository"@);
    lemma_get_with(a, "revision"@, Value::Str(k[1]), "repository"@);
    lemma_get_with(a, "revision"@, Value::Str(k[1]), "revision"@);
    lemma_get_with(b, "role"@, Value::Str(k[2]), "repository"@);
    lemma_get_with(b, "role"@, Value::Str(k[2]), "revision"@);
    lemma_get_with(b, "role"@, Value::Str(k[2]), "role"@);
}

/// Encoding a canonical set and decoding the text gives the set back.
pub proof fn law_json_round_trip(set: CompatibilityRecord)
    requires
        is_canonical_set(set),
    ensures
        decode_text(set_text(set)) == Ok::<CompatibilityRecord, CompatibilityFailure>(set),
{
    reveal_strlit("feature_contract");
    reveal_strlit("revisions");
    reveal_strlit("schema");
    reveal_strlit("toolchain");
    let features = text_array(set.feature_contract);
    let listed = set.revisions.map_values(|k: Key| revision_json(k));
    let revisions = Value::Arr(listed);
    let schema = Value::Num(decimal(COMPATIBILITY_SCHEMA_VERSION as nat));
    let toolchain = Value::Str(set.toolchain);
    let decode = |x: Value| decode_revision(x);
    assert forall|i: int| 0 <= i < listed.len() implies wf(#[trigger] listed[i]) && decode(listed[i])
        == Ok::<Key, CompatibilityFailure>(set.revisions[i]) by {
        lemma_revision_json(set.revisions[i]);
    }
    law_number_reads_back(COMPATIBILITY_SCHEMA_VERSION);
    let e = empty_obj();
    let a = e.with("feature_contract"@, features);
    let b = a.with("revisions"@, revisions);
    let c = b.with("schema"@, schema);
    let d = c.with("toolchain"@, toolchain);
    lemma_text_array_wf(set.feature_contract);
    lemma_with_wf(e, "feature_contract"@, features);
    lemma_with_wf(a, "revisions"@, revisions);
    lemma_with_wf(b, "schema"@, schema);
    lemma_with_wf(c, "toolchain"@, toolchain);
    assert("feature_contract"@.len() == 16);
    assert("revisions"@.len() == 9 && "toolchain"@.len() == 9);
    assert("schema"@.len() == 6);
    assert("revisions"@[0] == 'r' && "toolchain"@[0] == 't');
    lemma_get_with(e, "feature_contract"@, features, "feature_contract"@);
    lemma_get_with(a, "revisions"@, revisions, "feature_contract"@);
    lemma_get_with(a, "revisions"@, revisions, "revisions"@);
    lemma_get_with(b, "schema"@, schema, "feature_contract"@);
    lemma_get_with(b, "schema"@, schema, "revisions"@);
    lemma_get_with(b, "schema"@, schema, "schema"@);
    lemma_get_with(c, "toolchain"@, toolchain, "feature_contract"@);
    lemma_get_with(c, "toolchain"@, toolchain, "revisions"@);
    lemma_get_with(c, "toolchain"@, toolchain, "schema"@);
    lemma_get_with(c, "toolchain"@, toolchain, "toolchain"@);
    law_parse_inverts_print(d);
    lemma_map_all_ok(listed, decode, set.revisions);
    let items = set.feature_contract.map_values(|t: Seq<char>| Value::Str(t));
    let read = |x: Value| decode_feature(x);
    lemma_map_all_ok(items, read, set.feature_contract);
    law_new_set_keeps_canonical(set);
}

/// Canonical sets with the same text are the same set.
pub proof fn law_text_identifies_set(left: CompatibilityRecord, right: CompatibilityRecord)
    requires
        is_canonical_set(left),
        is_canonical_set(right),
        set_text(left) == set_text(right),
    ensures
        left == right,
{
    law_json_round_trip(left);
    law_json_round_trip(right);
}

/// A revision is recorded exactly for a repository, a revision of forty or sixty-four
/// hexadecimal digits and a role of one line; its digits are recorded in lower case.
pub proof fn law_recorded_revisions(repository: Seq<char>, revision: Seq<char>, role: Seq<char>)
    ensures
        new_revision(repository, revision, role) is Ok <==> repository.len() > 0 && is_repository(repository) && is_revision(
            revision,
        ) && role.len() > 0 && is_line(role),
        new_revision(repository, revision, role) matches Ok(k) ==> k.len() == 3 && k[0] == repository && k[1] == lowercase(
            revision,
        ) && k[2] == role,
{
}

/// A set is made exactly of one or more revisions, no two of them of one repository in one
/// role, with a toolchain and features of one line each; it holds these revisions, and each
/// feature once.
pub proof fn law_compatibility_sets(revisions: Seq<Key>, toolchain: Seq<char>, features: Seq<Seq<char>>)
    ensures
        new_set(revisions, toolchain, features) is Ok <==> {
            &&& revisions.len() > 0
            &&& toolchain.len() > 0 && is_line(toolchain)
            &&& forall|i: int|
                #![trigger features[i]]
                0 <= i < features.len() ==> features[i].len() > 0 && is_line(features[i])
            &&& forall|i: int, j: int|
                0 <= i < j < revisions.len() && (#[trigger] revisions[i])[0] == (#[trigger] revisions[j])[0]
                    ==> revisions[i][2] != revisions[j][2]
        },
        new_set(revisions, toolchain, features) matches Ok(set) ==> {
            &&& set.revisions.to_multiset() == revisions.to_multiset()
            &&& set.toolchain == toolchain
            &&& forall|f: Seq<char>| #[trigger] set.feature_contract.contains(f) <==> features.contains(f)
            &&& strictly_ascending(set.feature_contract)
        },
{
    let check = |f: Seq<char>| check_text("feature_contract", f);
    lemma_check_all(features, check);
    assert(check_features(features) is Ok <==> forall|i: int|
        #![trigger features[i]]
        0 <= i < features.len() ==> features[i].len() > 0 && is_line(features[i])) by {
        if check_all(features, check) is Ok {
            assert forall|i: int| #![trigger features[i]] 0 <= i < features.len() implies features[i].len() > 0 && is_line(
                features[i],
            ) by {
                assert(check(features[i]) is Ok);
            }
        }
    }
    if revisions.len() > 0 && check_text("toolchain", toolchain) is Ok && check_features(features) is Ok {
        law_repeated_roles_are_refused(revisions, toolchain, features);
    }
    assert(has_repeated_place(revisions) <==> exists|i: int, j: int|
        0 <= i < j < revisions.len() && (#[trigger] revisions[i])[0] == (#[trigger] revisions[j])[0] && revisions[i][2]
            == revisions[j][2]) by {
        if has_repeated_place(revisions) {
            let (i, j) = choose|i: int, j: int|
                0 <= i < j < revisions.len() && #[trigger] same_place(revisions[i], revisions[j]);
            assert(revisions[i][0] == revisions[j][0]);
        }
        if exists|i: int, j: int|
            0 <= i < j < revisions.len() && (#[trigger] revisions[i])[0] == (#[trigger] revisions[j])[0] && revisions[i][2]
                == revisions[j][2] {
            let (i, j) = choose|i: int, j: int|
                0 <= i < j < revisions.len() && (#[trigger] revisions[i])[0] == (#[trigger] revisions[j])[0]
                    && revisions[i][2] == revisions[j][2];
            assert(same_place(revisions[i], revisions[j]));
        }
    }
    law_sorting(revisions);
    lemma_canonical_exists(features);
}

} // verus!
