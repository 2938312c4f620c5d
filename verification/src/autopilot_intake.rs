//! Intake of an objective and the frozen specification contract.
//!
//! The order of the steps is structural: an objective must first become an
//! [`ExploredObjective`], then one grouped questionnaire is resolved, and only
//! then can a frozen [`FrozenAutopilotSpec`] be produced. Repository scope cannot
//! silently expand: every allowed repository must have been explored at the exact
//! immutable revision recorded by the spec.

use vstd::prelude::*;
use vstd::utf8::{encode_utf8, encode_utf8_decode_utf8};

use crate::checks::{and_then, check_all, lemma_check_all, lemma_check_step};
use crate::fields::{
    digest_ok, identifier_ok, is_digest, is_identifier, is_line, is_relative_path, is_repository, is_revision, line_ok, relative_path_ok,
    repository_ok, revision_ok,
};
use crate::json::{
    array_json, empty_obj, get, json_array, lemma_array_wf, lemma_get_with, lemma_text_array_wf, lemma_with_keeps_wf, lemma_with_wf, print,
    text_array, wf, Json, ToJson, Value,
};
use crate::json_round_trip::{law_print_is_injective, lemma_decimal};
use crate::order::{
    adjacent_duplicate, ascending, canonical, canonical_texts, dedup, find_adjacent_duplicate, is_canonical, is_sorted_of, key_order,
    keys, law_shared_first_texts_are_found, law_sorting, lemma_canonical_exists, lemma_canonical_ignores_input_order, lemma_key_order_cons, lemma_no_duplicates, lemma_same_arrangement, lemma_shared_in,
    lemma_text_order_equal, order_text_lists, order_texts, share_first_text, sort_dedup_records, sort_records, sorted, strictly_ascending, text_order, Key, Keyed, Order,
};
use crate::sha256::{digest_hex, sha256_hex};
use crate::text::{any_control, clone_texts, decimal, has_control, lowercase, same_text, texts, to_lowercase, IntoText};

verus! {

/// Version of the machine-readable specification contract.
pub const AUTOPILOT_SPEC_SCHEMA_VERSION: u64 = 1;

// ---------------------------------------------------------------------------
// Failures
// ---------------------------------------------------------------------------

/// Why an intake step was refused.
///
/// The parameter is the type of the texts it carries.
#[derive(Debug, Clone, PartialEq, Eq)]
pub enum AutopilotIntakeError<S = String> {
    EmptyField(&'static str),
    InvalidText { field: &'static str, value: S },
    InvalidIdentifier { field: &'static str, value: S },
    InvalidRepository(S),
    InvalidRevision(S),
    InvalidDigest { field: &'static str, value: S },
    InvalidPath { field: &'static str, value: S },
    InvalidArgument(S),
    InvalidBudget,
    ExplorationRequired,
    DuplicateRepository(S),
    DuplicateRepositoryRole(S),
    DuplicateQuestion(S),
    DuplicateAnswer(S),
    UnknownQuestion(S),
    UnansweredQuestion(S),
    DuplicateCriterion(S),
    UnexploredRepositoryRevision { repository: S, revision: S },
    CriterionOutsideScope { criterion_id: S, repository_role: S },
    FrozenSpecHashMismatch { expected: S, actual: S },
}

/// A failure over mathematical texts.
pub type IntakeFailure = AutopilotIntakeError<Seq<char>>;

impl AutopilotIntakeError<String> {
    pub open spec fn view(&self) -> IntakeFailure {
        match self {
            AutopilotIntakeError::EmptyField(value) => AutopilotIntakeError::EmptyField(*value),
            AutopilotIntakeError::InvalidText { field, value } => AutopilotIntakeError::InvalidText { field: *field, value: value@ },
            AutopilotIntakeError::InvalidIdentifier { field, value } => AutopilotIntakeError::InvalidIdentifier { field: *field, value: value@ },
            AutopilotIntakeError::InvalidRepository(value) => AutopilotIntakeError::InvalidRepository(value@),
            AutopilotIntakeError::InvalidRevision(value) => AutopilotIntakeError::InvalidRevision(value@),
            AutopilotIntakeError::InvalidDigest { field, value } => AutopilotIntakeError::InvalidDigest { field: *field, value: value@ },
            AutopilotIntakeError::InvalidPath { field, value } => AutopilotIntakeError::InvalidPath { field: *field, value: value@ },
            AutopilotIntakeError::InvalidArgument(value) => AutopilotIntakeError::InvalidArgument(value@),
            AutopilotIntakeError::InvalidBudget => AutopilotIntakeError::InvalidBudget,
            AutopilotIntakeError::ExplorationRequired => AutopilotIntakeError::ExplorationRequired,
            AutopilotIntakeError::DuplicateRepository(value) => AutopilotIntakeError::DuplicateRepository(value@),
            AutopilotIntakeError::DuplicateRepositoryRole(value) => AutopilotIntakeError::DuplicateRepositoryRole(value@),
            AutopilotIntakeError::DuplicateQuestion(value) => AutopilotIntakeError::DuplicateQuestion(value@),
            AutopilotIntakeError::DuplicateAnswer(value) => AutopilotIntakeError::DuplicateAnswer(value@),
            AutopilotIntakeError::UnknownQuestion(value) => AutopilotIntakeError::UnknownQuestion(value@),
            AutopilotIntakeError::UnansweredQuestion(value) => AutopilotIntakeError::UnansweredQuestion(value@),
            AutopilotIntakeError::DuplicateCriterion(value) => AutopilotIntakeError::DuplicateCriterion(value@),
            AutopilotIntakeError::UnexploredRepositoryRevision { repository, revision } => AutopilotIntakeError::UnexploredRepositoryRevision { repository: repository@, revision: revision@ },
            AutopilotIntakeError::CriterionOutsideScope { criterion_id, repository_role } => AutopilotIntakeError::CriterionOutsideScope { criterion_id: criterion_id@, repository_role: repository_role@ },
            AutopilotIntakeError::FrozenSpecHashMismatch { expected, actual } => AutopilotIntakeError::FrozenSpecHashMismatch { expected: expected@, actual: actual@ },
        }
    }

    /// The message shown to a user.
    pub fn to_string(&self) -> (r: String)
        ensures
            r@ == self@.message(),
    {
        match self {
            AutopilotIntakeError::EmptyField(value) => {
                let mut m = "AUTOPILOT field '".to_owned();
                m.append(*value);
                m.append("' is empty");
                m
            },
            AutopilotIntakeError::InvalidText { field, value } => {
                let mut m = "invalid AUTOPILOT text field '".to_owned();
                m.append(*field);
                m.append("': '");
                m.append(value.as_str());
                m.append("'");
                m
            },
            AutopilotIntakeError::InvalidIdentifier { field, value } => {
                let mut m = "invalid AUTOPILOT identifier '".to_owned();
                m.append(*field);
                m.append("': '");
                m.append(value.as_str());
                m.append("'");
                m
            },
            AutopilotIntakeError::InvalidRepository(value) => {
                let mut m = "invalid AUTOPILOT repository '".to_owned();
                m.append(value.as_str());
                m.append("'");
                m
            },
            AutopilotIntakeError::InvalidRevision(value) => {
                let mut m = "invalid immutable git revision '".to_owned();
                m.append(value.as_str());
                m.append("'");
                m
            },
            AutopilotIntakeError::InvalidDigest { field, value } => {
                let mut m = "invalid SHA-256 field '".to_owned();
                m.append(*field);
                m.append("': '");
                m.append(value.as_str());
                m.append("'");
                m
            },
            AutopilotIntakeError::InvalidPath { field, value } => {
                let mut m = "invalid workspace-relative path '".to_owned();
                m.append(*field);
                m.append("': '");
                m.append(value.as_str());
                m.append("'");
                m
            },
            AutopilotIntakeError::InvalidArgument(value) => {
                let mut m = "invalid declarative argument '".to_owned();
                m.append(value.as_str());
                m.append("'");
                m
            },
            AutopilotIntakeError::InvalidBudget => {
                "AUTOPILOT budget values must be non-zero".to_owned()
            },
            AutopilotIntakeError::ExplorationRequired => {
                "repository exploration is required before AUTOPILOT intake".to_owned()
            },
            AutopilotIntakeError::DuplicateRepository(value) => {
                let mut m = "repository explored more than once: '".to_owned();
                m.append(value.as_str());
                m.append("'");
                m
            },
            AutopilotIntakeError::DuplicateRepositoryRole(value) => {
                let mut m = "duplicate repository role '".to_owned();
                m.append(value.as_str());
                m.append("'");
                m
            },
            AutopilotIntakeError::DuplicateQuestion(value) => {
                let mut m = "duplicate intake question '".to_owned();
                m.append(value.as_str());
                m.append("'");
                m
            },
            AutopilotIntakeError::DuplicateAnswer(value) => {
                let mut m = "duplicate intake answer '".to_owned();
                m.append(value.as_str());
                m.append("'");
                m
            },
            AutopilotIntakeError::UnknownQuestion(value) => {
                let mut m = "answer references unknown question '".to_owned();
                m.append(value.as_str());
                m.append("'");
                m
            },
            AutopilotIntakeError::UnansweredQuestion(value) => {
                let mut m = "intake question '".to_owned();
                m.append(value.as_str());
                m.append("' is unanswered");
                m
            },
            AutopilotIntakeError::DuplicateCriterion(value) => {
                let mut m = "duplicate acceptance criterion '".to_owned();
                m.append(value.as_str());
                m.append("'");
                m
            },
            AutopilotIntakeError::UnexploredRepositoryRevision { repository, revision } => {
                let mut m = "spec scope references unexplored repository revision ".to_owned();
                m.append(repository.as_str());
                m.append("@");
                m.append(revision.as_str());
                m
            },
            AutopilotIntakeError::CriterionOutsideScope { criterion_id, repository_role } => {
                let mut m = "criterion '".to_owned();
                m.append(criterion_id.as_str());
                m.append("' references repository role '");
                m.append(repository_role.as_str());
                m.append("' outside the frozen scope");
                m
            },
            AutopilotIntakeError::FrozenSpecHashMismatch { expected, actual } => {
                let mut m = "frozen AUTOPILOT spec hash mismatch: expected ".to_owned();
                m.append(expected.as_str());
                m.append(", actual ");
                m.append(actual.as_str());
                m
            },
        }
    }
}

impl AutopilotIntakeError<Seq<char>> {
    pub open spec fn message(&self) -> Seq<char> {
        match self {
            AutopilotIntakeError::EmptyField(value) => "AUTOPILOT field '"@ + value@ + "' is empty"@,
            AutopilotIntakeError::InvalidText { field, value } => "invalid AUTOPILOT text field '"@ + field@ + "': '"@ + *value + "'"@,
            AutopilotIntakeError::InvalidIdentifier { field, value } => "invalid AUTOPILOT identifier '"@ + field@ + "': '"@ + *value + "'"@,
            AutopilotIntakeError::InvalidRepository(value) => "invalid AUTOPILOT repository '"@ + *value + "'"@,
            AutopilotIntakeError::InvalidRevision(value) => "invalid immutable git revision '"@ + *value + "'"@,
            AutopilotIntakeError::InvalidDigest { field, value } => "invalid SHA-256 field '"@ + field@ + "': '"@ + *value + "'"@,
            AutopilotIntakeError::InvalidPath { field, value } => "invalid workspace-relative path '"@ + field@ + "': '"@ + *value + "'"@,
            AutopilotIntakeError::InvalidArgument(value) => "invalid declarative argument '"@ + *value + "'"@,
            AutopilotIntakeError::InvalidBudget => "AUTOPILOT budget values must be non-zero"@,
            AutopilotIntakeError::ExplorationRequired => "repository exploration is required before AUTOPILOT intake"@,
            AutopilotIntakeError::DuplicateRepository(value) => "repository explored more than once: '"@ + *value + "'"@,
            AutopilotIntakeError::DuplicateRepositoryRole(value) => "duplicate repository role '"@ + *value + "'"@,
            AutopilotIntakeError::DuplicateQuestion(value) => "duplicate intake question '"@ + *value + "'"@,
            AutopilotIntakeError::DuplicateAnswer(value) => "duplicate intake answer '"@ + *value + "'"@,
            AutopilotIntakeError::UnknownQuestion(value) => "answer references unknown question '"@ + *value + "'"@,
            AutopilotIntakeError::UnansweredQuestion(value) => "intake question '"@ + *value + "' is unanswered"@,
            AutopilotIntakeError::DuplicateCriterion(value) => "duplicate acceptance criterion '"@ + *value + "'"@,
            AutopilotIntakeError::UnexploredRepositoryRevision { repository, revision } => "spec scope references unexplored repository revision "@ + *repository + "@"@ + *revision,
            AutopilotIntakeError::CriterionOutsideScope { criterion_id, repository_role } => "criterion '"@ + *criterion_id + "' references repository role '"@ + *repository_role + "' outside the frozen scope"@,
            AutopilotIntakeError::FrozenSpecHashMismatch { expected, actual } => "frozen AUTOPILOT spec hash mismatch: expected "@ + *expected + ", actual "@ + *actual,
        }
    }
}

/// The outcome with its failure over mathematical texts.
pub open spec fn outcome<T>(r: Result<T, AutopilotIntakeError>) -> Result<T, IntakeFailure> {
    match r {
        Ok(t) => Ok(t),
        Err(e) => Err(e@),
    }
}

// ---------------------------------------------------------------------------
// Field checks
// ---------------------------------------------------------------------------

pub open spec fn check_text(field: &'static str, s: Seq<char>) -> Result<(), IntakeFailure> {
    if s.len() == 0 {
        Err(AutopilotIntakeError::EmptyField(field))
    } else if !is_line(s) {
        Err(AutopilotIntakeError::InvalidText { field, value: s })
    } else {
        Ok(())
    }
}

pub open spec fn check_identifier(field: &'static str, s: Seq<char>) -> Result<(), IntakeFailure> {
    and_then(
        check_text(field, s),
        if is_identifier(s) {
            Ok(())
        } else {
            Err(AutopilotIntakeError::InvalidIdentifier { field, value: s })
        },
    )
}

pub open spec fn check_repository(s: Seq<char>) -> Result<(), IntakeFailure> {
    if is_repository(s) {
        Ok(())
    } else {
        Err(AutopilotIntakeError::InvalidRepository(s))
    }
}

pub open spec fn check_revision(s: Seq<char>) -> Result<(), IntakeFailure> {
    if is_revision(s) {
        Ok(())
    } else {
        Err(AutopilotIntakeError::InvalidRevision(s))
    }
}

pub open spec fn check_digest(field: &'static str, s: Seq<char>) -> Result<(), IntakeFailure> {
    if is_digest(s) {
        Ok(())
    } else {
        Err(AutopilotIntakeError::InvalidDigest { field, value: s })
    }
}

pub open spec fn check_path(field: &'static str, s: Seq<char>) -> Result<(), IntakeFailure> {
    if is_relative_path(s) {
        Ok(())
    } else {
        Err(AutopilotIntakeError::InvalidPath { field, value: s })
    }
}

pub open spec fn check_argument(s: Seq<char>) -> Result<(), IntakeFailure> {
    if any_control(s) {
        Err(AutopilotIntakeError::InvalidArgument(s))
    } else {
        Ok(())
    }
}

fn validate_text(field: &'static str, value: &str) -> (r: Result<(), AutopilotIntakeError>)
    ensures
        outcome(r) == check_text(field, value@),
{
    if value.is_empty() {
        return Err(AutopilotIntakeError::EmptyField(field));
    }
    if !line_ok(value) {
        return Err(AutopilotIntakeError::InvalidText { field, value: value.to_owned() });
    }
    Ok(())
}

fn validate_identifier(field: &'static str, value: &str) -> (r: Result<(), AutopilotIntakeError>)
    ensures
        outcome(r) == check_identifier(field, value@),
{
    validate_text(field, value)?;
    if !identifier_ok(value) {
        return Err(AutopilotIntakeError::InvalidIdentifier { field, value: value.to_owned() });
    }
    Ok(())
}

fn validate_repository(repository: &str) -> (r: Result<(), AutopilotIntakeError>)
    ensures
        outcome(r) == check_repository(repository@),
{
    if !repository_ok(repository) {
        return Err(AutopilotIntakeError::InvalidRepository(repository.to_owned()));
    }
    Ok(())
}

fn validate_revision(revision: &str) -> (r: Result<(), AutopilotIntakeError>)
    ensures
        outcome(r) == check_revision(revision@),
{
    if !revision_ok(revision) {
        return Err(AutopilotIntakeError::InvalidRevision(revision.to_owned()));
    }
    Ok(())
}

fn validate_digest(field: &'static str, value: &str) -> (r: Result<(), AutopilotIntakeError>)
    ensures
        outcome(r) == check_digest(field, value@),
{
    if !digest_ok(value) {
        return Err(AutopilotIntakeError::InvalidDigest { field, value: value.to_owned() });
    }
    Ok(())
}

fn validate_relative_path(field: &'static str, value: &str) -> (r: Result<(), AutopilotIntakeError>)
    ensures
        outcome(r) == check_path(field, value@),
{
    if !relative_path_ok(value) {
        return Err(AutopilotIntakeError::InvalidPath { field, value: value.to_owned() });
    }
    Ok(())
}

pub open spec fn check_paths(field: &'static str, paths: Seq<Seq<char>>) -> Result<(), IntakeFailure> {
    check_all(paths, |p: Seq<char>| check_path(field, p))
}

fn validate_relative_paths(field: &'static str, paths: &[String]) -> (r: Result<(), AutopilotIntakeError>)
    ensures
        outcome(r) == check_paths(field, texts(paths@)),
{
    let ghost all = texts(paths@);
    let ghost check = |p: Seq<char>| check_path(field, p);
    let mut i: usize = 0;
    assert(all.skip(0) =~= all);
    while i < paths.len()
        invariant
            i <= paths@.len(),
            all == texts(paths@),
            check == (|p: Seq<char>| check_path(field, p)),
            check_all(all, check) == check_all(all.skip(i as int), check),
        decreases paths@.len() - i,
    {
        proof {
            lemma_check_step(all, i as int, check);
        }
        validate_relative_path(field, paths[i].as_str())?;
        i += 1;
    }
    Ok(())
}

pub open spec fn check_texts(field: &'static str, items: Seq<Seq<char>>) -> Result<(), IntakeFailure> {
    check_all(items, |t: Seq<char>| check_text(field, t))
}

fn validate_texts(field: &'static str, items: &[String]) -> (r: Result<(), AutopilotIntakeError>)
    ensures
        outcome(r) == check_texts(field, texts(items@)),
{
    let ghost all = texts(items@);
    let ghost check = |t: Seq<char>| check_text(field, t);
    let mut i: usize = 0;
    assert(all.skip(0) =~= all);
    while i < items.len()
        invariant
            i <= items@.len(),
            all == texts(items@),
            check == (|t: Seq<char>| check_text(field, t)),
            check_all(all, check) == check_all(all.skip(i as int), check),
        decreases items@.len() - i,
    {
        proof {
            lemma_check_step(all, i as int, check);
        }
        validate_text(field, items[i].as_str())?;
        i += 1;
    }
    Ok(())
}

pub open spec fn check_arguments(items: Seq<Seq<char>>) -> Result<(), IntakeFailure> {
    check_all(items, |t: Seq<char>| check_argument(t))
}

fn validate_arguments(arguments: &[String]) -> (r: Result<(), AutopilotIntakeError>)
    ensures
        outcome(r) == check_arguments(texts(arguments@)),
{
    let ghost all = texts(arguments@);
    let ghost check = |t: Seq<char>| check_argument(t);
    let mut i: usize = 0;
    assert(all.skip(0) =~= all);
    while i < arguments.len()
        invariant
            i <= arguments@.len(),
            all == texts(arguments@),
            check == (|t: Seq<char>| check_argument(t)),
            check_all(all, check) == check_all(all.skip(i as int), check),
        decreases arguments@.len() - i,
    {
        proof {
            lemma_check_step(all, i as int, check);
        }
        if has_control(arguments[i].as_str()) {
            return Err(AutopilotIntakeError::InvalidArgument(arguments[i].clone()));
        }
        i += 1;
    }
    Ok(())
}

// ---------------------------------------------------------------------------
// Exploration
// ---------------------------------------------------------------------------

/// One immutable observation produced while exploring a repository.
#[derive(Debug, PartialEq, Eq, PartialOrd, Ord)]
pub enum ExplorationSource {
    RepositoryFile { path: String, content_sha256: String },
    Commit { revision: String },
}

impl Clone for ExplorationSource {
    fn clone(&self) -> (r: Self)
        ensures
            r == *self,
    {
        match self {
            ExplorationSource::RepositoryFile { path, content_sha256 } => ExplorationSource::RepositoryFile {
                path: path.clone(),
                content_sha256: content_sha256.clone(),
            },
            ExplorationSource::Commit { revision } => ExplorationSource::Commit { revision: revision.clone() },
        }
    }
}

impl ExplorationSource {
    pub fn repository_file(path: impl IntoText, content_sha256: impl IntoText) -> (r: Result<Self, AutopilotIntakeError>)
        ensures
            ({
                let check = and_then(
                    check_path("exploration.path", path.text()),
                    check_digest("exploration.content_sha256", content_sha256.text()),
                );
                match r {
                    Ok(ExplorationSource::RepositoryFile { path: p, content_sha256: d }) => check is Ok && p@ == path.text()
                        && d@ == lowercase(content_sha256.text()),
                    Ok(_) => false,
                    Err(e) => check == Err::<(), IntakeFailure>(e@),
                }
            }),
    {
        let path = path.into_text();
        let content_sha256 = content_sha256.into_text();
        validate_relative_path("exploration.path", path.as_str())?;
        validate_digest("exploration.content_sha256", content_sha256.as_str())?;
        Ok(ExplorationSource::RepositoryFile { path, content_sha256: to_lowercase(content_sha256.as_str()) })
    }

    pub fn commit(revision: impl IntoText) -> (r: Result<Self, AutopilotIntakeError>)
        ensures
            match r {
                Ok(ExplorationSource::Commit { revision: v }) => check_revision(revision.text()) is Ok && v@ == lowercase(
                    revision.text(),
                ),
                Ok(_) => false,
                Err(e) => check_revision(revision.text()) == Err::<(), IntakeFailure>(e@),
            },
    {
        let revision = revision.into_text();
        validate_revision(revision.as_str())?;
        Ok(ExplorationSource::Commit { revision: to_lowercase(revision.as_str()) })
    }
}

impl ToJson for ExplorationSource {
    open spec fn json(&self) -> Value {
        match self {
            ExplorationSource::RepositoryFile { path, content_sha256 } => empty_obj().with(
                "content_sha256"@,
                Value::Str(content_sha256@),
            ).with("kind"@, Value::Str("repository_file"@)).with("path"@, Value::Str(path@)),
            ExplorationSource::Commit { revision } => empty_obj().with(
                "kind"@,
                Value::Str("commit"@),
            ).with("revision"@, Value::Str(revision@)),
        }
    }

    fn to_json(&self) -> (r: Json) {
        let mut out = Json::obj();
        match self {
            ExplorationSource::RepositoryFile { path, content_sha256 } => {
                out.set("content_sha256", Json::Str(content_sha256.clone()));
                out.set("kind", Json::text("repository_file"));
                out.set("path", Json::Str(path.clone()));
            },
            ExplorationSource::Commit { revision } => {
                out.set("kind", Json::text("commit"));
                out.set("revision", Json::Str(revision.clone()));
            },
        }
        out
    }
}

/// Evidence that code, documentation, tests, build metadata, or history was
/// inspected before questions about an objective were asked.
#[derive(Debug, PartialEq, Eq, PartialOrd, Ord)]
pub struct ExplorationObservation {
    pub category: String,
    pub source: ExplorationSource,
    pub summary: String,
}

impl Clone for ExplorationObservation {
    fn clone(&self) -> (r: Self)
        ensures
            r == *self,
    {
        ExplorationObservation {
            category: self.category.clone(),
            source: self.source.clone(),
            summary: self.summary.clone(),
        }
    }
}

impl ExplorationObservation {
    pub fn new(category: impl IntoText, source: ExplorationSource, summary: impl IntoText) -> (r: Result<
        Self,
        AutopilotIntakeError,
    >)
        ensures
            ({
                let check = and_then(
                    check_text("exploration.category", category.text()),
                    check_text("exploration.summary", summary.text()),
                );
                match r {
                    Ok(o) => check is Ok && o.category@ == category.text() && o.source == source && o.summary@
                        == summary.text(),
                    Err(e) => check == Err::<(), IntakeFailure>(e@),
                }
            }),
    {
        let category = category.into_text();
        let summary = summary.into_text();
        validate_text("exploration.category", category.as_str())?;
        validate_text("exploration.summary", summary.as_str())?;
        Ok(ExplorationObservation { category, source, summary })
    }
}

impl Keyed for ExplorationObservation {
    open spec fn key(&self) -> Key {
        match self.source {
            ExplorationSource::RepositoryFile { path, content_sha256 } => seq![
                self.category@,
                seq!['0'],
                path@,
                content_sha256@,
                self.summary@,
            ],
            ExplorationSource::Commit { revision } => seq![
                self.category@,
                seq!['1'],
                revision@,
                self.summary@,
            ],
        }
    }

    fn order_by_key(&self, other: &Self) -> (r: Order) {
        proof {
            lemma_observation_order(*self, *other);
        }
        match order_texts(self.category.as_str(), other.category.as_str()) {
            Order::Equal => {},
            o => {
                return o;
            },
        }
        match (&self.source, &other.source) {
            (
                ExplorationSource::RepositoryFile { path: p, content_sha256: d },
                ExplorationSource::RepositoryFile { path: q, content_sha256: e },
            ) => {
                match order_texts(p.as_str(), q.as_str()) {
                    Order::Equal => match order_texts(d.as_str(), e.as_str()) {
                        Order::Equal => order_texts(self.summary.as_str(), other.summary.as_str()),
                        o => o,
                    },
                    o => o,
                }
            },
            (ExplorationSource::Commit { revision: p }, ExplorationSource::Commit { revision: q }) => {
                match order_texts(p.as_str(), q.as_str()) {
                    Order::Equal => order_texts(self.summary.as_str(), other.summary.as_str()),
                    o => o,
                }
            },
            (ExplorationSource::RepositoryFile { .. }, ExplorationSource::Commit { .. }) => Order::Less,
            (ExplorationSource::Commit { .. }, ExplorationSource::RepositoryFile { .. }) => Order::Greater,
        }
    }

    fn primary(&self) -> (r: &str) {
        self.category.as_str()
    }
}

proof fn lemma_observation_order(a: ExplorationObservation, b: ExplorationObservation)
    ensures
        key_order(a.key(), b.key()) == (match text_order(a.category@, b.category@) {
            Order::Equal => match (a.source, b.source) {
                (
                    ExplorationSource::RepositoryFile { path: p, content_sha256: d },
                    ExplorationSource::RepositoryFile { path: q, content_sha256: e },
                ) => match text_order(p@, q@) {
                    Order::Equal => match text_order(d@, e@) {
                        Order::Equal => text_order(a.summary@, b.summary@),
                        o => o,
                    },
                    o => o,
                },
                (ExplorationSource::Commit { revision: p }, ExplorationSource::Commit { revision: q }) => match text_order(
                    p@,
                    q@,
                ) {
                    Order::Equal => text_order(a.summary@, b.summary@),
                    o => o,
                },
                (ExplorationSource::RepositoryFile { .. }, _) => Order::Less,
                (ExplorationSource::Commit { .. }, _) => Order::Greater,
            },
            o => o,
        }),
{
    reveal_with_fuel(key_order, 6);
    reveal_with_fuel(text_order, 2);
    let x = a.key();
    let y = b.key();
    assert(x.drop_first()[0] == x[1] && y.drop_first()[0] == y[1]);
    assert(x.drop_first().drop_first()[0] == x[2] && y.drop_first().drop_first()[0] == y[2]);
    assert(x.drop_first().drop_first().drop_first()[0] == x[3]);
    assert(y.drop_first().drop_first().drop_first()[0] == y[3]);
    if x.len() == 5 {
        assert(x.drop_first().drop_first().drop_first().drop_first()[0] == x[4]);
    }
    if y.len() == 5 {
        assert(y.drop_first().drop_first().drop_first().drop_first()[0] == y[4]);
    }
}

impl ToJson for ExplorationObservation {
    open spec fn json(&self) -> Value {
        empty_obj().with("category"@, Value::Str(self.category@)).with(
            "source"@,
            self.source.json(),
        ).with("summary"@, Value::Str(self.summary@))
    }

    fn to_json(&self) -> (r: Json) {
        let mut out = Json::obj();
        out.set("category", Json::Str(self.category.clone()));
        out.set("source", self.source.to_json());
        out.set("summary", Json::Str(self.summary.clone()));
        out
    }
}

/// Exploration record for one exact repository revision.
#[derive(Debug, PartialEq, Eq, PartialOrd, Ord)]
pub struct RepositoryExploration {
    pub repository: String,
    pub revision: String,
    pub observations: Vec<ExplorationObservation>,
}

pub open spec fn check_exploration(repository: Seq<char>, revision: Seq<char>, observations: nat) -> Result<
    (),
    IntakeFailure,
> {
    and_then(
        check_repository(repository),
        and_then(
            check_revision(revision),
            if observations == 0 {
                Err(AutopilotIntakeError::EmptyField("exploration.observations"))
            } else {
                Ok(())
            },
        ),
    )
}

impl RepositoryExploration {
    pub fn new(repository: impl IntoText, revision: impl IntoText, observations: Vec<ExplorationObservation>) -> (r: Result<
        Self,
        AutopilotIntakeError,
    >)
        ensures
            match r {
                Ok(x) => {
                    &&& check_exploration(repository.text(), revision.text(), observations@.len()) is Ok
                    &&& x.repository@ == repository.text()
                    &&& x.revision@ == lowercase(revision.text())
                    &&& keys(x.observations@) == dedup(sorted(keys(observations@)))
                    &&& forall|i: int| 0 <= i < x.observations@.len() ==> observations@.contains(#[trigger] x.observations@[i])
                },
                Err(e) => check_exploration(repository.text(), revision.text(), observations@.len()) == Err::<
                    (),
                    IntakeFailure,
                >(e@),
            },
    {
        let repository = repository.into_text();
        let revision = revision.into_text();
        validate_repository(repository.as_str())?;
        validate_revision(revision.as_str())?;
        if observations.len() == 0 {
            return Err(AutopilotIntakeError::EmptyField("exploration.observations"));
        }
        let observations = sort_dedup_records(observations);
        Ok(RepositoryExploration { repository, revision: to_lowercase(revision.as_str()), observations })
    }
}

impl Keyed for RepositoryExploration {
    open spec fn key(&self) -> Key {
        seq![self.repository@, self.revision@]
    }

    fn order_by_key(&self, other: &Self) -> (r: Order) {
        proof {
            reveal_with_fuel(key_order, 3);
            assert(self.key().drop_first()[0] == self.revision@);
            assert(other.key().drop_first()[0] == other.revision@);
        }
        match order_texts(self.repository.as_str(), other.repository.as_str()) {
            Order::Equal => order_texts(self.revision.as_str(), other.revision.as_str()),
            o => o,
        }
    }

    fn primary(&self) -> (r: &str) {
        self.repository.as_str()
    }
}

impl ToJson for RepositoryExploration {
    open spec fn json(&self) -> Value {
        empty_obj().with("observations"@, array_json(self.observations@)).with(
            "repository"@,
            Value::Str(self.repository@),
        ).with("revision"@, Value::Str(self.revision@))
    }

    fn to_json(&self) -> (r: Json) {
        let mut out = Json::obj();
        out.set("observations", json_array(self.observations.as_slice()));
        out.set("repository", Json::Str(self.repository.clone()));
        out.set("revision", Json::Str(self.revision.clone()));
        out
    }
}

impl Clone for RepositoryExploration {
    fn clone(&self) -> (r: Self)
        ensures
            r.repository == self.repository,
            r.revision == self.revision,
            r.observations@ == self.observations@,
    {
        let observations = self.observations.clone();
        assert(observations@ =~= self.observations@);
        RepositoryExploration {
            repository: self.repository.clone(),
            revision: self.revision.clone(),
            observations,
        }
    }
}

// ---------------------------------------------------------------------------
// Explored objective
// ---------------------------------------------------------------------------

/// Objective after repository exploration, before the single grouped
/// questionnaire is resolved.
#[derive(Debug, Clone, PartialEq, Eq)]
pub struct ExploredObjective {
    objective: String,
    context: String,
    explorations: Vec<RepositoryExploration>,
}

/// What an explored objective holds.
pub struct Explored {
    pub objective: Seq<char>,
    pub context: Seq<char>,
    pub explorations: Seq<RepositoryExploration>,
}

impl Explored {
    /// The explorations are in order and no repository was explored twice.
    pub open spec fn is_ordered(&self) -> bool {
        ascending(keys(self.explorations)) && adjacent_duplicate(keys(self.explorations)) is None
    }
}

pub open spec fn check_explored(objective: Seq<char>, context: Seq<char>, explorations: Seq<Key>) -> Result<
    (),
    IntakeFailure,
> {
    and_then(
        check_text("objective", objective),
        and_then(
            check_text("context", context),
            if explorations.len() == 0 {
                Err(AutopilotIntakeError::ExplorationRequired)
            } else {
                match adjacent_duplicate(sorted(explorations)) {
                    Some(repository) => Err(AutopilotIntakeError::DuplicateRepository(repository)),
                    None => Ok(()),
                }
            },
        ),
    )
}

pub open spec fn check_questions(questions: Seq<Key>) -> Result<(), IntakeFailure> {
    match adjacent_duplicate(sorted(questions)) {
        Some(id) => Err(AutopilotIntakeError::DuplicateQuestion(id)),
        None => Ok(()),
    }
}

impl ExploredObjective {
    pub closed spec fn view(&self) -> Explored {
        Explored {
            objective: self.objective@,
            context: self.context@,
            explorations: self.explorations@,
        }
    }

    pub fn new(objective: impl IntoText, context: impl IntoText, explorations: Vec<RepositoryExploration>) -> (r: Result<
        Self,
        AutopilotIntakeError,
    >)
        ensures
            match r {
                Ok(x) => {
                    &&& check_explored(objective.text(), context.text(), keys(explorations@)) is Ok
                    &&& x@.objective == objective.text()
                    &&& x@.context == context.text()
                    &&& is_sorted_of(x@.explorations, explorations@)
                    &&& x@.is_ordered()
                },
                Err(e) => check_explored(objective.text(), context.text(), keys(explorations@)) == Err::<
                    (),
                    IntakeFailure,
                >(e@),
            },
    {
        let objective = objective.into_text();
        let context = context.into_text();
        validate_text("objective", objective.as_str())?;
        validate_text("context", context.as_str())?;
        if explorations.len() == 0 {
            return Err(AutopilotIntakeError::ExplorationRequired);
        }
        let explorations = sort_records(explorations);
        match find_adjacent_duplicate(explorations.as_slice()) {
            Some(repository) => {
                return Err(AutopilotIntakeError::DuplicateRepository(repository.to_owned()));
            },
            None => {},
        }
        Ok(ExploredObjective { objective, context, explorations })
    }

    /// Build the one grouped battery of questions. Even an objective with no
    /// unresolved ambiguity goes through this state with an empty vector, which
    /// keeps the exploration-before-spec ordering explicit.
    pub fn questionnaire(self, questions: Vec<IntakeQuestion>) -> (r: Result<IntakeQuestionnaire, AutopilotIntakeError>)
        ensures
            match r {
                Ok(q) => {
                    &&& check_questions(keys(questions@)) is Ok
                    &&& q.explored() == self@
                    &&& is_sorted_of(q.questions(), questions@)
                    &&& adjacent_duplicate(keys(q.questions())) is None
                },
                Err(e) => check_questions(keys(questions@)) == Err::<(), IntakeFailure>(e@),
            },
    {
        let questions = sort_records(questions);
        match find_adjacent_duplicate(questions.as_slice()) {
            Some(id) => {
                return Err(AutopilotIntakeError::DuplicateQuestion(id.to_owned()));
            },
            None => {},
        }
        Ok(IntakeQuestionnaire { explored: self, questions })
    }
}

#[derive(Debug, Clone, PartialEq, Eq)]
pub struct IntakeQuestion {
    pub id: String,
    pub prompt: String,
}

impl IntakeQuestion {
    pub fn new(id: impl IntoText, prompt: impl IntoText) -> (r: Result<Self, AutopilotIntakeError>)
        ensures
            ({
                let check = and_then(
                    check_identifier("question.id", id.text()),
                    check_text("question.prompt", prompt.text()),
                );
                match r {
                    Ok(q) => check is Ok && q.id@ == id.text() && q.prompt@ == prompt.text(),
                    Err(e) => check == Err::<(), IntakeFailure>(e@),
                }
            }),
    {
        let id = id.into_text();
        let prompt = prompt.into_text();
        validate_identifier("question.id", id.as_str())?;
        validate_text("question.prompt", prompt.as_str())?;
        Ok(IntakeQuestion { id, prompt })
    }
}

impl Keyed for IntakeQuestion {
    open spec fn key(&self) -> Key {
        seq![self.id@]
    }

    fn order_by_key(&self, other: &Self) -> (r: Order) {
        proof {
            reveal_with_fuel(key_order, 2);
        }
        order_texts(self.id.as_str(), other.id.as_str())
    }

    fn primary(&self) -> (r: &str) {
        self.id.as_str()
    }
}

#[derive(Debug, Clone, PartialEq, Eq)]
pub struct QuestionAnswer {
    pub question_id: String,
    pub answer: String,
}

impl QuestionAnswer {
    pub fn new(question_id: impl IntoText, answer: impl IntoText) -> (r: Result<Self, AutopilotIntakeError>)
        ensures
            ({
                let check = and_then(
                    check_identifier("answer.question_id", question_id.text()),
                    check_text("answer.answer", answer.text()),
                );
                match r {
                    Ok(a) => check is Ok && a.question_id@ == question_id.text() && a.answer@ == answer.text(),
                    Err(e) => check == Err::<(), IntakeFailure>(e@),
                }
            }),
    {
        let question_id = question_id.into_text();
        let answer = answer.into_text();
        validate_identifier("answer.question_id", question_id.as_str())?;
        validate_text("answer.answer", answer.as_str())?;
        Ok(QuestionAnswer { question_id, answer })
    }
}

#[derive(Debug, PartialEq, Eq)]
pub struct ResolvedQuestion {
    pub id: String,
    pub prompt: String,
    pub answer: String,
}

impl Clone for ResolvedQuestion {
    fn clone(&self) -> (r: Self)
        ensures
            r == *self,
    {
        ResolvedQuestion { id: self.id.clone(), prompt: self.prompt.clone(), answer: self.answer.clone() }
    }
}

impl ToJson for ResolvedQuestion {
    open spec fn json(&self) -> Value {
        empty_obj().with("answer"@, Value::Str(self.answer@)).with("id"@, Value::Str(self.id@)).with(
            "prompt"@,
            Value::Str(self.prompt@),
        )
    }

    fn to_json(&self) -> (r: Json) {
        let mut out = Json::obj();
        out.set("answer", Json::Str(self.answer.clone()));
        out.set("id", Json::Str(self.id.clone()));
        out.set("prompt", Json::Str(self.prompt.clone()));
        out
    }
}

// ---------------------------------------------------------------------------
// Questionnaire
// ---------------------------------------------------------------------------

#[derive(Debug, Clone, PartialEq, Eq)]
pub struct IntakeQuestionnaire {
    explored: ExploredObjective,
    questions: Vec<IntakeQuestion>,
}

/// The identifiers of the questions that are answered.
pub open spec fn answered(answers: Seq<QuestionAnswer>) -> Seq<Seq<char>> {
    answers.map_values(|a: QuestionAnswer| a.question_id@)
}

pub open spec fn question_ids(questions: Seq<IntakeQuestion>) -> Seq<Seq<char>> {
    questions.map_values(|q: IntakeQuestion| q.id@)
}

/// The first text that repeats an earlier one, from position `i` on.
pub open spec fn first_repeated(s: Seq<Seq<char>>, i: int) -> Option<Seq<char>>
    decreases s.len() - i,
{
    if i < 0 || i >= s.len() {
        None
    } else if s.take(i).contains(s[i]) {
        Some(s[i])
    } else {
        first_repeated(s, i + 1)
    }
}

/// Whether a set of answers resolves a list of questions: no question is answered
/// twice, every answer belongs to a question, every question has an answer.
pub open spec fn check_answers(questions: Seq<Seq<char>>, answers: Seq<Seq<char>>) -> Result<(), IntakeFailure> {
    match first_repeated(answers, 0) {
        Some(id) => Err(AutopilotIntakeError::DuplicateAnswer(id)),
        None => and_then(
            check_all(
                canonical(answers),
                |id: Seq<char>|
                    if questions.contains(id) {
                        Ok(())
                    } else {
                        Err(AutopilotIntakeError::UnknownQuestion(id))
                    },
            ),
            check_all(
                questions,
                |id: Seq<char>|
                    if answers.contains(id) {
                        Ok(())
                    } else {
                        Err(AutopilotIntakeError::UnansweredQuestion(id))
                    },
            ),
        ),
    }
}

/// Each decision repeats its question and carries the answer given to it.
pub open spec fn decides(decisions: Seq<ResolvedQuestion>, questions: Seq<IntakeQuestion>, answers: Seq<QuestionAnswer>) -> bool {
    &&& decisions.len() == questions.len()
    &&& forall|i: int|
        0 <= i < questions.len() ==> {
            &&& (#[trigger] decisions[i]).id == questions[i].id
            &&& decisions[i].prompt == questions[i].prompt
            &&& exists|j: int|
                0 <= j < answers.len() && (#[trigger] answers[j]).question_id@ == questions[i].id@ && answers[j].answer
                    == decisions[i].answer
        }
}

fn find_answer(answers: &[QuestionAnswer], id: &str) -> (r: Option<usize>)
    ensures
        match r {
            Some(j) => j < answers@.len() && answers@[j as int].question_id@ == id@ && answered(answers@).contains(id@),
            None => !answered(answers@).contains(id@),
        },
{
    let ghost all = answered(answers@);
    let mut j: usize = 0;
    while j < answers.len()
        invariant
            j <= answers@.len(),
            all == answered(answers@),
            forall|k: int| 0 <= k < j ==> #[trigger] all[k] != id@,
        decreases answers@.len() - j,
    {
        if same_text(answers[j].question_id.as_str(), id) {
            assert(all[j as int] == id@);
            return Some(j);
        }
        assert(all[j as int] != id@);
        j += 1;
    }
    None
}

fn find_repeated_answer(answers: &[QuestionAnswer]) -> (r: Option<usize>)
    ensures
        match r {
            Some(i) => i < answers@.len() && first_repeated(answered(answers@), 0) == Some(
                answers@[i as int].question_id@,
            ),
            None => first_repeated(answered(answers@), 0) is None,
        },
{
    let ghost all = answered(answers@);
    let mut i: usize = 0;
    while i < answers.len()
        invariant
            i <= answers@.len(),
            all == answered(answers@),
            first_repeated(all, 0) == first_repeated(all, i as int),
        decreases answers@.len() - i,
    {
        let prior = vstd::slice::slice_subrange(answers, 0, i);
        let found = find_answer(prior, answers[i].question_id.as_str());
        proof {
            assert(answered(prior@) =~= all.take(i as int));
            assert(all[i as int] == answers@[i as int].question_id@);
        }
        if found.is_some() {
            return Some(i);
        }
        i += 1;
    }
    None
}

fn has_question(questions: &[IntakeQuestion], id: &str) -> (r: bool)
    ensures
        r == question_ids(questions@).contains(id@),
{
    let ghost all = question_ids(questions@);
    let mut j: usize = 0;
    while j < questions.len()
        invariant
            j <= questions@.len(),
            all == question_ids(questions@),
            forall|k: int| 0 <= k < j ==> #[trigger] all[k] != id@,
        decreases questions@.len() - j,
    {
        if same_text(questions[j].id.as_str(), id) {
            assert(all[j as int] == id@);
            return true;
        }
        assert(all[j as int] != id@);
        j += 1;
    }
    false
}

impl IntakeQuestionnaire {
    pub closed spec fn explored(&self) -> Explored {
        self.explored@
    }

    pub closed spec fn questions(&self) -> Seq<IntakeQuestion> {
        self.questions@
    }

    pub fn resolve(self, answers: Vec<QuestionAnswer>) -> (r: Result<ResolvedIntake, AutopilotIntakeError>)
        ensures
            match r {
                Ok(x) => {
                    &&& check_answers(question_ids(self.questions()), answered(answers@)) is Ok
                    &&& x.explored() == self.explored()
                    &&& decides(x.decisions(), self.questions(), answers@)
                },
                Err(e) => check_answers(question_ids(self.questions()), answered(answers@)) == Err::<
                    (),
                    IntakeFailure,
                >(e@),
            },
    {
        let ghost given = answered(answers@);
        let ghost asked = question_ids(self.questions@);
        match find_repeated_answer(answers.as_slice()) {
            Some(i) => {
                return Err(AutopilotIntakeError::DuplicateAnswer(answers[i].question_id.clone()));
            },
            None => {},
        }
        let mut ids: Vec<String> = Vec::new();
        let mut i: usize = 0;
        while i < answers.len()
            invariant
                i <= answers@.len(),
                ids@.len() == i,
                forall|k: int| 0 <= k < i ==> (#[trigger] ids@[k]) == answers@[k].question_id,
            decreases answers@.len() - i,
        {
            ids.push(answers[i].question_id.clone());
            i += 1;
        }
        assert(texts(ids@) =~= given);
        let ids = canonical_texts(ids);
        let ghost known = |id: Seq<char>|
            if asked.contains(id) {
                Ok::<(), IntakeFailure>(())
            } else {
                Err(AutopilotIntakeError::UnknownQuestion(id))
            };
        let ghost listed = texts(ids@);
        i = 0;
        assert(listed.skip(0) =~= listed);
        while i < ids.len()
            invariant
                i <= ids@.len(),
                listed == texts(ids@),
                listed == canonical(given),
                asked == question_ids(self.questions@),
                given == answered(answers@),
                first_repeated(given, 0) is None,
                known == (|id: Seq<char>|
                    if asked.contains(id) {
                        Ok::<(), IntakeFailure>(())
                    } else {
                        Err(AutopilotIntakeError::UnknownQuestion(id))
                    }),
                check_all(listed, known) == check_all(listed.skip(i as int), known),
            decreases ids@.len() - i,
        {
            proof {
                lemma_check_step(listed, i as int, known);
            }
            if !has_question(self.questions.as_slice(), ids[i].as_str()) {
                return Err(AutopilotIntakeError::UnknownQuestion(ids[i].clone()));
            }
            i += 1;
        }
        let ghost replied = |id: Seq<char>|
            if given.contains(id) {
                Ok::<(), IntakeFailure>(())
            } else {
                Err(AutopilotIntakeError::UnansweredQuestion(id))
            };
        let mut decisions: Vec<ResolvedQuestion> = Vec::new();
        i = 0;
        assert(asked.skip(0) =~= asked);
        while i < self.questions.len()
            invariant
                i <= self.questions@.len(),
                asked == question_ids(self.questions@),
                given == answered(answers@),
                first_repeated(given, 0) is None,
                check_all(canonical(given), known) is Ok,
                known == (|id: Seq<char>|
                    if asked.contains(id) {
                        Ok::<(), IntakeFailure>(())
                    } else {
                        Err(AutopilotIntakeError::UnknownQuestion(id))
                    }),
                replied == (|id: Seq<char>|
                    if given.contains(id) {
                        Ok::<(), IntakeFailure>(())
                    } else {
                        Err(AutopilotIntakeError::UnansweredQuestion(id))
                    }),
                check_all(asked, replied) == check_all(asked.skip(i as int), replied),
                decides(decisions@, self.questions@.take(i as int), answers@),
            decreases self.questions@.len() - i,
        {
            proof {
                lemma_check_step(asked, i as int, replied);
            }
            let question = &self.questions[i];
            let ghost before = decisions@;
            match find_answer(answers.as_slice(), question.id.as_str()) {
                Some(j) => {
                    decisions.push(
                        ResolvedQuestion {
                            id: question.id.clone(),
                            prompt: question.prompt.clone(),
                            answer: answers[j].answer.clone(),
                        },
                    );
                    proof {
                        let qs = self.questions@.take(i + 1);
                        let old_qs = self.questions@.take(i as int);
                        assert forall|k: int| 0 <= k < qs.len() implies {
                            &&& (#[trigger] decisions@[k]).id == qs[k].id
                            &&& decisions@[k].prompt == qs[k].prompt
                            &&& exists|m: int|
                                0 <= m < answers@.len() && (#[trigger] answers@[m]).question_id@ == qs[k].id@
                                    && answers@[m].answer == decisions@[k].answer
                        } by {
                            if k < i {
                                assert(decisions@[k] == before[k]);
                                assert(qs[k] == old_qs[k]);
                            } else {
                                assert(answers@[j as int].question_id@ == qs[k].id@);
                            }
                        }
                    }
                },
                None => {
                    return Err(AutopilotIntakeError::UnansweredQuestion(question.id.clone()));
                },
            }
            i += 1;
        }
        assert(self.questions@.take(i as int) =~= self.questions@);
        Ok(ResolvedIntake { explored: self.explored, decisions })
    }
}

// ---------------------------------------------------------------------------
// Acceptance
// ---------------------------------------------------------------------------

#[derive(Debug, PartialEq, Eq)]
pub enum AcceptanceCheck {
    /// Declarative command kind resolved by a trusted host. No raw executable or
    /// shell string is carried by the spec.
    Command { repository_role: String, command_kind: String, arguments: Vec<String> },
    FilePresent { repository_role: String, path: String },
    FileAbsent { repository_role: String, path: String },
    FileSha256 { repository_role: String, path: String, sha256: String },
}

pub open spec fn check_file(repository_role: Seq<char>, path: Seq<char>) -> Result<(), IntakeFailure> {
    and_then(
        check_identifier("acceptance.repository_role", repository_role),
        check_path("acceptance.path", path),
    )
}

impl AcceptanceCheck {
    /// The repository role that the check is about.
    pub open spec fn role(&self) -> Seq<char> {
        match self {
            AcceptanceCheck::Command { repository_role, .. } => repository_role@,
            AcceptanceCheck::FilePresent { repository_role, .. } => repository_role@,
            AcceptanceCheck::FileAbsent { repository_role, .. } => repository_role@,
            AcceptanceCheck::FileSha256 { repository_role, .. } => repository_role@,
        }
    }

    pub fn command(repository_role: impl IntoText, command_kind: impl IntoText, arguments: Vec<String>) -> (r: Result<
        Self,
        AutopilotIntakeError,
    >)
        ensures
            ({
                let check = and_then(
                    check_identifier("acceptance.repository_role", repository_role.text()),
                    and_then(
                        check_identifier("acceptance.command_kind", command_kind.text()),
                        check_arguments(texts(arguments@)),
                    ),
                );
                match r {
                    Ok(AcceptanceCheck::Command { repository_role: p, command_kind: k, arguments: a }) => check is Ok && p@
                        == repository_role.text() && k@ == command_kind.text() && a == arguments,
                    Ok(_) => false,
                    Err(e) => check == Err::<(), IntakeFailure>(e@),
                }
            }),
    {
        let repository_role = repository_role.into_text();
        let command_kind = command_kind.into_text();
        validate_identifier("acceptance.repository_role", repository_role.as_str())?;
        validate_identifier("acceptance.command_kind", command_kind.as_str())?;
        validate_arguments(arguments.as_slice())?;
        Ok(AcceptanceCheck::Command { repository_role, command_kind, arguments })
    }

    pub fn file_present(repository_role: impl IntoText, path: impl IntoText) -> (r: Result<Self, AutopilotIntakeError>)
        ensures
            match r {
                Ok(AcceptanceCheck::FilePresent { repository_role: p, path: q }) => check_file(
                    repository_role.text(),
                    path.text(),
                ) is Ok && p@ == repository_role.text() && q@ == path.text(),
                Ok(_) => false,
                Err(e) => check_file(repository_role.text(), path.text()) == Err::<(), IntakeFailure>(e@),
            },
    {
        let repository_role = repository_role.into_text();
        let path = path.into_text();
        validate_identifier("acceptance.repository_role", repository_role.as_str())?;
        validate_relative_path("acceptance.path", path.as_str())?;
        Ok(AcceptanceCheck::FilePresent { repository_role, path })
    }

    pub fn file_absent(repository_role: impl IntoText, path: impl IntoText) -> (r: Result<Self, AutopilotIntakeError>)
        ensures
            match r {
                Ok(AcceptanceCheck::FileAbsent { repository_role: p, path: q }) => check_file(
                    repository_role.text(),
                    path.text(),
                ) is Ok && p@ == repository_role.text() && q@ == path.text(),
                Ok(_) => false,
                Err(e) => check_file(repository_role.text(), path.text()) == Err::<(), IntakeFailure>(e@),
            },
    {
        let repository_role = repository_role.into_text();
        let path = path.into_text();
        validate_identifier("acceptance.repository_role", repository_role.as_str())?;
        validate_relative_path("acceptance.path", path.as_str())?;
        Ok(AcceptanceCheck::FileAbsent { repository_role, path })
    }

    pub fn file_sha256(repository_role: impl IntoText, path: impl IntoText, sha256: impl IntoText) -> (r: Result<
        Self,
        AutopilotIntakeError,
    >)
        ensures
            ({
                let check = and_then(
                    check_file(repository_role.text(), path.text()),
                    check_digest("acceptance.sha256", sha256.text()),
                );
                match r {
                    Ok(AcceptanceCheck::FileSha256 { repository_role: p, path: q, sha256: d }) => check is Ok && p@
                        == repository_role.text() && q@ == path.text() && d@ == lowercase(sha256.text()),
                    Ok(_) => false,
                    Err(e) => check == Err::<(), IntakeFailure>(e@),
                }
            }),
    {
        let repository_role = repository_role.into_text();
        let path = path.into_text();
        let sha256 = sha256.into_text();
        validate_identifier("acceptance.repository_role", repository_role.as_str())?;
        validate_relative_path("acceptance.path", path.as_str())?;
        validate_digest("acceptance.sha256", sha256.as_str())?;
        Ok(AcceptanceCheck::FileSha256 { repository_role, path, sha256: to_lowercase(sha256.as_str()) })
    }

    pub(crate) fn repository_role(&self) -> (r: &str)
        ensures
            r@ == self.role(),
    {
        match self {
            AcceptanceCheck::Command { repository_role, .. } => repository_role.as_str(),
            AcceptanceCheck::FilePresent { repository_role, .. } => repository_role.as_str(),
            AcceptanceCheck::FileAbsent { repository_role, .. } => repository_role.as_str(),
            AcceptanceCheck::FileSha256 { repository_role, .. } => repository_role.as_str(),
        }
    }
}

impl ToJson for AcceptanceCheck {
    open spec fn json(&self) -> Value {
        match self {
            AcceptanceCheck::Command { repository_role, command_kind, arguments } => empty_obj().with(
                "arguments"@,
                text_array(texts(arguments@)),
            ).with("command_kind"@, Value::Str(command_kind@)).with("kind"@, Value::Str("command"@)).with(
                "repository_role"@,
                Value::Str(repository_role@),
            ),
            AcceptanceCheck::FilePresent { repository_role, path } => empty_obj().with(
                "kind"@,
                Value::Str("file_present"@),
            ).with("path"@, Value::Str(path@)).with("repository_role"@, Value::Str(repository_role@)),
            AcceptanceCheck::FileAbsent { repository_role, path } => empty_obj().with(
                "kind"@,
                Value::Str("file_absent"@),
            ).with("path"@, Value::Str(path@)).with("repository_role"@, Value::Str(repository_role@)),
            AcceptanceCheck::FileSha256 { repository_role, path, sha256 } => empty_obj().with(
                "kind"@,
                Value::Str("file_sha256"@),
            ).with("path"@, Value::Str(path@)).with("repository_role"@, Value::Str(repository_role@)).with(
                "sha256"@,
                Value::Str(sha256@),
            ),
        }
    }

    fn to_json(&self) -> (r: Json) {
        let mut out = Json::obj();
        match self {
            AcceptanceCheck::Command { repository_role, command_kind, arguments } => {
                out.set("arguments", Json::text_array(arguments.as_slice()));
                out.set("command_kind", Json::Str(command_kind.clone()));
                out.set("kind", Json::text("command"));
                out.set("repository_role", Json::Str(repository_role.clone()));
            },
            AcceptanceCheck::FilePresent { repository_role, path } => {
                out.set("kind", Json::text("file_present"));
                out.set("path", Json::Str(path.clone()));
                out.set("repository_role", Json::Str(repository_role.clone()));
            },
            AcceptanceCheck::FileAbsent { repository_role, path } => {
                out.set("kind", Json::text("file_absent"));
                out.set("path", Json::Str(path.clone()));
                out.set("repository_role", Json::Str(repository_role.clone()));
            },
            AcceptanceCheck::FileSha256 { repository_role, path, sha256 } => {
                out.set("kind", Json::text("file_sha256"));
                out.set("path", Json::Str(path.clone()));
                out.set("repository_role", Json::Str(repository_role.clone()));
                out.set("sha256", Json::Str(sha256.clone()));
            },
        }
        out
    }
}

impl Clone for AcceptanceCheck {
    fn clone(&self) -> (r: Self)
        ensures
            r.json() == self.json(),
            r.role() == self.role(),
    {
        match self {
            AcceptanceCheck::Command { repository_role, command_kind, arguments } => {
                let copied = clone_texts(arguments.as_slice());
                AcceptanceCheck::Command {
                    repository_role: repository_role.clone(),
                    command_kind: command_kind.clone(),
                    arguments: copied,
                }
            },
            AcceptanceCheck::FilePresent { repository_role, path } => AcceptanceCheck::FilePresent {
                repository_role: repository_role.clone(),
                path: path.clone(),
            },
            AcceptanceCheck::FileAbsent { repository_role, path } => AcceptanceCheck::FileAbsent {
                repository_role: repository_role.clone(),
                path: path.clone(),
            },
            AcceptanceCheck::FileSha256 { repository_role, path, sha256 } => AcceptanceCheck::FileSha256 {
                repository_role: repository_role.clone(),
                path: path.clone(),
                sha256: sha256.clone(),
            },
        }
    }
}

#[derive(Debug, PartialEq, Eq)]
pub struct AcceptanceCriterion {
    pub id: String,
    pub description: String,
    pub check: AcceptanceCheck,
}

impl AcceptanceCriterion {
    pub fn new(id: impl IntoText, description: impl IntoText, check: AcceptanceCheck) -> (r: Result<
        Self,
        AutopilotIntakeError,
    >)
        ensures
            ({
                let valid = and_then(
                    check_identifier("acceptance.id", id.text()),
                    check_text("acceptance.description", description.text()),
                );
                match r {
                    Ok(c) => valid is Ok && c.id@ == id.text() && c.description@ == description.text() && c.check == check,
                    Err(e) => valid == Err::<(), IntakeFailure>(e@),
                }
            }),
    {
        let id = id.into_text();
        let description = description.into_text();
        validate_identifier("acceptance.id", id.as_str())?;
        validate_text("acceptance.description", description.as_str())?;
        Ok(AcceptanceCriterion { id, description, check })
    }
}

impl Clone for AcceptanceCriterion {
    fn clone(&self) -> (r: Self)
        ensures
            r.id == self.id,
            r.description == self.description,
            r.json() == self.json(),
            r.key() == self.key(),
    {
        AcceptanceCriterion {
            id: self.id.clone(),
            description: self.description.clone(),
            check: self.check.clone(),
        }
    }
}

/// Criteria are ordered by identifier; the repository role follows.
impl Keyed for AcceptanceCriterion {
    open spec fn key(&self) -> Key {
        seq![self.id@, self.check.role()]
    }

    fn order_by_key(&self, other: &Self) -> (r: Order) {
        proof {
            reveal_with_fuel(key_order, 3);
            assert(self.key().drop_first()[0] == self.check.role());
            assert(other.key().drop_first()[0] == other.check.role());
        }
        match order_texts(self.id.as_str(), other.id.as_str()) {
            Order::Equal => order_texts(self.check.repository_role(), other.check.repository_role()),
            o => o,
        }
    }

    fn primary(&self) -> (r: &str) {
        self.id.as_str()
    }
}

impl ToJson for AcceptanceCriterion {
    open spec fn json(&self) -> Value {
        empty_obj().with("check"@, self.check.json()).with(
            "description"@,
            Value::Str(self.description@),
        ).with("id"@, Value::Str(self.id@))
    }

    fn to_json(&self) -> (r: Json) {
        let mut out = Json::obj();
        out.set("check", self.check.to_json());
        out.set("description", Json::Str(self.description.clone()));
        out.set("id", Json::Str(self.id.clone()));
        out
    }
}

#[derive(Debug, Clone, Copy, PartialEq, Eq, Structural)]
pub struct SpecBudget {
    pub max_llm_steps: u64,
    pub max_wall_time_ms: u64,
    pub max_tokens: u64,
}

impl SpecBudget {
    pub fn new(max_llm_steps: u64, max_wall_time_ms: u64, max_tokens: u64) -> (r: Result<Self, AutopilotIntakeError>)
        ensures
            match r {
                Ok(b) => max_llm_steps > 0 && max_wall_time_ms > 0 && max_tokens > 0 && b == (SpecBudget {
                    max_llm_steps,
                    max_wall_time_ms,
                    max_tokens,
                }),
                Err(e) => (max_llm_steps == 0 || max_wall_time_ms == 0 || max_tokens == 0) && e
                    == AutopilotIntakeError::<String>::InvalidBudget,
            },
    {
        if max_llm_steps == 0 || max_wall_time_ms == 0 || max_tokens == 0 {
            return Err(AutopilotIntakeError::InvalidBudget);
        }
        Ok(SpecBudget { max_llm_steps, max_wall_time_ms, max_tokens })
    }
}

impl ToJson for SpecBudget {
    open spec fn json(&self) -> Value {
        empty_obj().with("max_llm_steps"@, Value::Num(decimal(self.max_llm_steps as nat))).with(
            "max_tokens"@,
            Value::Num(decimal(self.max_tokens as nat)),
        ).with("max_wall_time_ms"@, Value::Num(decimal(self.max_wall_time_ms as nat)))
    }

    fn to_json(&self) -> (r: Json) {
        let mut out = Json::obj();
        out.set("max_llm_steps", Json::num(self.max_llm_steps));
        out.set("max_tokens", Json::num(self.max_tokens));
        out.set("max_wall_time_ms", Json::num(self.max_wall_time_ms));
        out
    }
}

// ---------------------------------------------------------------------------
// Scope
// ---------------------------------------------------------------------------

/// Exact repository and file-prefix allowlist frozen into one objective spec.
#[derive(Debug, PartialEq, Eq, PartialOrd, Ord)]
pub struct RepositoryScope {
    pub role: String,
    pub repository: String,
    pub revision: String,
    pub allowed_path_prefixes: Vec<String>,
}

pub open spec fn check_scope(role: Seq<char>, repository: Seq<char>, revision: Seq<char>, prefixes: Seq<Seq<char>>) -> Result<
    (),
    IntakeFailure,
> {
    and_then(
        check_identifier("scope.role", role),
        and_then(
            check_repository(repository),
            and_then(
                check_revision(revision),
                if prefixes.len() == 0 {
                    Err(AutopilotIntakeError::EmptyField("scope.allowed_path_prefixes"))
                } else {
                    check_paths("scope.allowed_path_prefixes", prefixes)
                },
            ),
        ),
    )
}

impl RepositoryScope {
    pub fn new(
        role: impl IntoText,
        repository: impl IntoText,
        revision: impl IntoText,
        allowed_path_prefixes: Vec<String>,
    ) -> (r: Result<Self, AutopilotIntakeError>)
        ensures
            ({
                let check = check_scope(
                    role.text(),
                    repository.text(),
                    revision.text(),
                    texts(allowed_path_prefixes@),
                );
                match r {
                    Ok(s) => {
                        &&& check is Ok
                        &&& s.role@ == role.text()
                        &&& s.repository@ == repository.text()
                        &&& s.revision@ == lowercase(revision.text())
                        &&& texts(s.allowed_path_prefixes@) == canonical(texts(allowed_path_prefixes@))
                        &&& is_canonical(texts(s.allowed_path_prefixes@), texts(allowed_path_prefixes@))
                    },
                    Err(e) => check == Err::<(), IntakeFailure>(e@),
                }
            }),
    {
        let role = role.into_text();
        let repository = repository.into_text();
        let revision = revision.into_text();
        validate_identifier("scope.role", role.as_str())?;
        validate_repository(repository.as_str())?;
        validate_revision(revision.as_str())?;
        if allowed_path_prefixes.len() == 0 {
            return Err(AutopilotIntakeError::EmptyField("scope.allowed_path_prefixes"));
        }
        validate_relative_paths("scope.allowed_path_prefixes", allowed_path_prefixes.as_slice())?;
        let allowed_path_prefixes = canonical_texts(allowed_path_prefixes);
        Ok(
            RepositoryScope {
                role,
                repository,
                revision: to_lowercase(revision.as_str()),
                allowed_path_prefixes,
            },
        )
    }
}

impl Keyed for RepositoryScope {
    open spec fn key(&self) -> Key {
        seq![self.role@] + (seq![self.repository@] + (seq![self.revision@] + texts(
            self.allowed_path_prefixes@,
        )))
    }

    fn order_by_key(&self, other: &Self) -> (r: Order) {
        proof {
            let p = texts(self.allowed_path_prefixes@);
            let q = texts(other.allowed_path_prefixes@);
            lemma_key_order_cons(
                self.role@,
                seq![self.repository@] + (seq![self.revision@] + p),
                other.role@,
                seq![other.repository@] + (seq![other.revision@] + q),
            );
            lemma_key_order_cons(
                self.repository@,
                seq![self.revision@] + p,
                other.repository@,
                seq![other.revision@] + q,
            );
            lemma_key_order_cons(self.revision@, p, other.revision@, q);
        }
        match order_texts(self.role.as_str(), other.role.as_str()) {
            Order::Equal => match order_texts(self.repository.as_str(), other.repository.as_str()) {
                Order::Equal => match order_texts(self.revision.as_str(), other.revision.as_str()) {
                    Order::Equal => order_text_lists(
                        self.allowed_path_prefixes.as_slice(),
                        other.allowed_path_prefixes.as_slice(),
                    ),
                    o => o,
                },
                o => o,
            },
            o => o,
        }
    }

    fn primary(&self) -> (r: &str) {
        self.role.as_str()
    }
}

impl ToJson for RepositoryScope {
    open spec fn json(&self) -> Value {
        empty_obj().with("allowed_path_prefixes"@, text_array(texts(self.allowed_path_prefixes@))).with(
            "repository"@,
            Value::Str(self.repository@),
        ).with("revision"@, Value::Str(self.revision@)).with("role"@, Value::Str(self.role@))
    }

    fn to_json(&self) -> (r: Json) {
        let mut out = Json::obj();
        out.set("allowed_path_prefixes", Json::text_array(self.allowed_path_prefixes.as_slice()));
        out.set("repository", Json::Str(self.repository.clone()));
        out.set("revision", Json::Str(self.revision.clone()));
        out.set("role", Json::Str(self.role.clone()));
        out
    }
}

impl Clone for RepositoryScope {
    fn clone(&self) -> (r: Self)
        ensures
            r.key() == self.key(),
            r.json() == self.json(),
    {
        RepositoryScope {
            role: self.role.clone(),
            repository: self.repository.clone(),
            revision: self.revision.clone(),
            allowed_path_prefixes: clone_texts(self.allowed_path_prefixes.as_slice()),
        }
    }
}

// ---------------------------------------------------------------------------
// Freezing
// ---------------------------------------------------------------------------

#[derive(Debug, Clone, PartialEq, Eq)]
pub struct AutopilotSpecDraft {
    pub acceptance_criteria: Vec<AcceptanceCriterion>,
    pub out_of_scope: Vec<String>,
    pub budget: SpecBudget,
    pub repository_scope: Vec<RepositoryScope>,
}

impl AutopilotSpecDraft {
    pub fn new(
        acceptance_criteria: Vec<AcceptanceCriterion>,
        out_of_scope: Vec<String>,
        budget: SpecBudget,
        repository_scope: Vec<RepositoryScope>,
    ) -> (r: Self)
        ensures
            r.acceptance_criteria == acceptance_criteria,
            r.out_of_scope == out_of_scope,
            r.budget == budget,
            r.repository_scope == repository_scope,
    {
        AutopilotSpecDraft { acceptance_criteria, out_of_scope, budget, repository_scope }
    }
}

/// The repository roles of a list of scopes.
pub open spec fn scope_roles(scopes: Seq<Key>) -> Seq<Seq<char>> {
    scopes.map_values(|k: Key| k[0])
}

/// A scope from position `i` on whose role occurred before, or whose repository
/// was not explored at its revision.
pub open spec fn check_scopes(scopes: Seq<Key>, explored: Seq<Key>, i: int) -> Result<(), IntakeFailure>
    decreases scopes.len() - i,
{
    if i < 0 || i >= scopes.len() {
        Ok(())
    } else if scope_roles(scopes).take(i).contains(scopes[i][0]) {
        Err(AutopilotIntakeError::DuplicateRepositoryRole(scopes[i][0]))
    } else if !explored.contains(seq![scopes[i][1], scopes[i][2]]) {
        Err(
            AutopilotIntakeError::UnexploredRepositoryRevision {
                repository: scopes[i][1],
                revision: scopes[i][2],
            },
        )
    } else {
        check_scopes(scopes, explored, i + 1)
    }
}

/// The criterion is about a repository role of the scope.
pub open spec fn check_criterion(roles: Seq<Seq<char>>, criterion: Key) -> Result<(), IntakeFailure> {
    if roles.contains(criterion[1]) {
        Ok(())
    } else {
        Err(
            AutopilotIntakeError::CriterionOutsideScope {
                criterion_id: criterion[0],
                repository_role: criterion[1],
            },
        )
    }
}

pub open spec fn check_criteria(roles: Seq<Seq<char>>, criteria: Seq<Key>) -> Result<(), IntakeFailure> {
    check_all(criteria, |k: Key| check_criterion(roles, k))
}

/// Whether a draft can be frozen, and why not.
pub open spec fn check_draft(explored: Seq<Key>, criteria: Seq<Key>, out_of_scope: Seq<Seq<char>>, scopes: Seq<Key>) -> Result<
    (),
    IntakeFailure,
> {
    if criteria.len() == 0 {
        Err(AutopilotIntakeError::EmptyField("acceptance_criteria"))
    } else if scopes.len() == 0 {
        Err(AutopilotIntakeError::EmptyField("repository_scope"))
    } else {
        match adjacent_duplicate(sorted(criteria)) {
            Some(id) => Err(AutopilotIntakeError::DuplicateCriterion(id)),
            None => and_then(
                check_texts("out_of_scope", out_of_scope),
                and_then(
                    check_scopes(sorted(scopes), explored, 0),
                    check_criteria(scope_roles(sorted(scopes)), sorted(criteria)),
                ),
            ),
        }
    }
}

fn has_role(scopes: &[RepositoryScope], role: &str) -> (r: bool)
    ensures
        r == scope_roles(keys(scopes@)).contains(role@),
{
    let ghost all = scope_roles(keys(scopes@));
    let mut j: usize = 0;
    while j < scopes.len()
        invariant
            j <= scopes@.len(),
            all == scope_roles(keys(scopes@)),
            forall|k: int| 0 <= k < j ==> #[trigger] all[k] != role@,
        decreases scopes@.len() - j,
    {
        assert(all[j as int] == scopes@[j as int].role@);
        if same_text(scopes[j].role.as_str(), role) {
            return true;
        }
        j += 1;
    }
    false
}

fn was_explored(explorations: &[RepositoryExploration], repository: &str, revision: &str) -> (r: bool)
    ensures
        r == keys(explorations@).contains(seq![repository@, revision@]),
{
    let ghost all = keys(explorations@);
    let ghost wanted = seq![repository@, revision@];
    let mut j: usize = 0;
    while j < explorations.len()
        invariant
            j <= explorations@.len(),
            all == keys(explorations@),
            wanted == seq![repository@, revision@],
            forall|k: int| 0 <= k < j ==> #[trigger] all[k] != wanted,
        decreases explorations@.len() - j,
    {
        let item = &explorations[j];
        assert(all[j as int] == item.key());
        assert(all[j as int][0] == item.repository@ && all[j as int][1] == item.revision@);
        assert(wanted[0] == repository@ && wanted[1] == revision@);
        if same_text(item.repository.as_str(), repository) && same_text(item.revision.as_str(), revision) {
            assert(all[j as int] =~= wanted);
            return true;
        }
        j += 1;
    }
    false
}

fn validate_scopes(scopes: &[RepositoryScope], explorations: &[RepositoryExploration]) -> (r: Result<
    (),
    AutopilotIntakeError,
>)
    ensures
        outcome(r) == check_scopes(keys(scopes@), keys(explorations@), 0),
{
    let ghost all = keys(scopes@);
    let ghost explored = keys(explorations@);
    let mut i: usize = 0;
    while i < scopes.len()
        invariant
            i <= scopes@.len(),
            all == keys(scopes@),
            explored == keys(explorations@),
            check_scopes(all, explored, 0) == check_scopes(all, explored, i as int),
        decreases scopes@.len() - i,
    {
        let scope = &scopes[i];
        let prior = vstd::slice::slice_subrange(scopes, 0, i);
        proof {
            assert(all[i as int] == scope.key());
            assert(all[i as int][0] == scope.role@);
            assert(all[i as int][1] == scope.repository@);
            assert(all[i as int][2] == scope.revision@);
            assert(scope_roles(keys(prior@)) =~= scope_roles(all).take(i as int));
        }
        if has_role(prior, scope.role.as_str()) {
            return Err(AutopilotIntakeError::DuplicateRepositoryRole(scope.role.clone()));
        }
        if !was_explored(explorations, scope.repository.as_str(), scope.revision.as_str()) {
            return Err(
                AutopilotIntakeError::UnexploredRepositoryRevision {
                    repository: scope.repository.clone(),
                    revision: scope.revision.clone(),
                },
            );
        }
        i += 1;
    }
    Ok(())
}

fn validate_criteria(criteria: &[AcceptanceCriterion], scopes: &[RepositoryScope]) -> (r: Result<
    (),
    AutopilotIntakeError,
>)
    ensures
        outcome(r) == check_criteria(scope_roles(keys(scopes@)), keys(criteria@)),
{
    let ghost roles = scope_roles(keys(scopes@));
    let ghost all = keys(criteria@);
    let ghost check = |k: Key| check_criterion(roles, k);
    let mut i: usize = 0;
    assert(all.skip(0) =~= all);
    while i < criteria.len()
        invariant
            i <= criteria@.len(),
            roles == scope_roles(keys(scopes@)),
            all == keys(criteria@),
            check == (|k: Key| check_criterion(roles, k)),
            check_all(all, check) == check_all(all.skip(i as int), check),
        decreases criteria@.len() - i,
    {
        let criterion = &criteria[i];
        proof {
            lemma_check_step(all, i as int, check);
            assert(all[i as int] == criterion.key());
            assert(all[i as int][0] == criterion.id@ && all[i as int][1] == criterion.check.role());
        }
        if !has_role(scopes, criterion.check.repository_role()) {
            return Err(
                AutopilotIntakeError::CriterionOutsideScope {
                    criterion_id: criterion.id.clone(),
                    repository_role: criterion.check.repository_role().to_owned(),
                },
            );
        }
        i += 1;
    }
    Ok(())
}

#[derive(Debug, Clone, PartialEq, Eq)]
pub struct ResolvedIntake {
    explored: ExploredObjective,
    decisions: Vec<ResolvedQuestion>,
}

impl ResolvedIntake {
    pub closed spec fn explored(&self) -> Explored {
        self.explored@
    }

    pub closed spec fn decisions(&self) -> Seq<ResolvedQuestion> {
        self.decisions@
    }

    /// Whether a draft can be frozen on this intake.
    pub open spec fn check(&self, draft: AutopilotSpecDraft) -> Result<(), IntakeFailure> {
        check_draft(
            keys(self.explored().explorations),
            keys(draft.acceptance_criteria@),
            texts(draft.out_of_scope@),
            keys(draft.repository_scope@),
        )
    }

    /// Freezes a draft into a specification with its identity.
    pub fn freeze(self, draft: AutopilotSpecDraft) -> (r: Result<FrozenAutopilotSpec, AutopilotIntakeError>)
        ensures
            match r {
                Ok(spec) => {
                    &&& self.check(draft) is Ok
                    &&& is_frozen_from(spec, self.explored(), self.decisions(), draft)
                    &&& spec.is_intact()
                    &&& spec.is_contained()
                },
                Err(e) => self.check(draft) == Err::<(), IntakeFailure>(e@),
            },
    {
        if draft.acceptance_criteria.len() == 0 {
            return Err(AutopilotIntakeError::EmptyField("acceptance_criteria"));
        }
        if draft.repository_scope.len() == 0 {
            return Err(AutopilotIntakeError::EmptyField("repository_scope"));
        }
        let acceptance_criteria = sort_records(draft.acceptance_criteria);
        match find_adjacent_duplicate(acceptance_criteria.as_slice()) {
            Some(id) => {
                return Err(AutopilotIntakeError::DuplicateCriterion(id.to_owned()));
            },
            None => {},
        }
        validate_texts("out_of_scope", draft.out_of_scope.as_slice())?;
        let out_of_scope = canonical_texts(draft.out_of_scope);
        let repository_scope = sort_records(draft.repository_scope);
        validate_scopes(repository_scope.as_slice(), self.explored.explorations.as_slice())?;
        validate_criteria(acceptance_criteria.as_slice(), repository_scope.as_slice())?;
        let mut spec = FrozenAutopilotSpec {
            schema_version: AUTOPILOT_SPEC_SCHEMA_VERSION,
            objective: self.explored.objective,
            context: self.explored.context,
            explorations: self.explored.explorations,
            decisions: self.decisions,
            acceptance_criteria,
            out_of_scope,
            budget: draft.budget,
            repository_scope,
            spec_sha256: String::new(),
        };
        let identity = spec.compute_sha256();
        spec.spec_sha256 = identity;
        proof {
            lemma_contained(spec);
        }
        Ok(spec)
    }
}

/// The specification holds what was explored, decided and drafted, in canonical
/// order.
pub open spec fn is_frozen_from(
    spec: FrozenAutopilotSpec,
    explored: Explored,
    decisions: Seq<ResolvedQuestion>,
    draft: AutopilotSpecDraft,
) -> bool {
    &&& spec@.schema_version == AUTOPILOT_SPEC_SCHEMA_VERSION
    &&& spec@.objective == explored.objective
    &&& spec@.context == explored.context
    &&& spec@.explorations == explored.explorations
    &&& spec@.decisions == decisions
    &&& is_sorted_of(spec@.acceptance_criteria, draft.acceptance_criteria@)
    &&& texts(spec@.out_of_scope) == canonical(texts(draft.out_of_scope@))
    &&& spec@.budget == draft.budget
    &&& is_sorted_of(spec@.repository_scope, draft.repository_scope@)
}

// ---------------------------------------------------------------------------
// Frozen specification
// ---------------------------------------------------------------------------

/// Deterministic specification used as the root contract of all later steps. Its
/// identity is a digest of everything else it holds.
#[derive(Debug, Clone, PartialEq, Eq)]
pub struct FrozenAutopilotSpec {
    pub(crate) schema_version: u64,
    pub(crate) objective: String,
    pub context: String,
    pub(crate) explorations: Vec<RepositoryExploration>,
    pub(crate) decisions: Vec<ResolvedQuestion>,
    pub(crate) acceptance_criteria: Vec<AcceptanceCriterion>,
    pub(crate) out_of_scope: Vec<String>,
    pub(crate) budget: SpecBudget,
    pub(crate) repository_scope: Vec<RepositoryScope>,
    pub(crate) spec_sha256: String,
}

/// The contents over mathematical sequences.
pub ghost struct SpecRecord {
    pub schema_version: u64,
    pub objective: Seq<char>,
    pub context: Seq<char>,
    pub explorations: Seq<RepositoryExploration>,
    pub decisions: Seq<ResolvedQuestion>,
    pub acceptance_criteria: Seq<AcceptanceCriterion>,
    pub out_of_scope: Seq<String>,
    pub budget: SpecBudget,
    pub repository_scope: Seq<RepositoryScope>,
    pub spec_sha256: Seq<char>,
}

impl FrozenAutopilotSpec {
    pub open(crate) spec fn view(&self) -> SpecRecord {
        SpecRecord {
            schema_version: self.schema_version,
            objective: self.objective@,
            context: self.context@,
            explorations: self.explorations@,
            decisions: self.decisions@,
            acceptance_criteria: self.acceptance_criteria@,
            out_of_scope: self.out_of_scope@,
            budget: self.budget,
            repository_scope: self.repository_scope@,
            spec_sha256: self.spec_sha256@,
        }
    }
}

impl FrozenAutopilotSpec {
    /// Everything but the identity, as JSON.
    pub open spec fn unsigned(&self) -> Value {
        empty_obj().with("acceptance_criteria"@, array_json(self@.acceptance_criteria)).with(
            "budget"@,
            self@.budget.json(),
        ).with("context"@, Value::Str(self@.context)).with("decisions"@, array_json(self@.decisions)).with(
            "explorations"@,
            array_json(self@.explorations),
        ).with("objective"@, Value::Str(self@.objective)).with(
            "out_of_scope"@,
            text_array(texts(self@.out_of_scope)),
        ).with("repository_scope"@, array_json(self@.repository_scope)).with(
            "schema_version"@,
            Value::Num(decimal(self@.schema_version as nat)),
        )
    }

    /// The digest of everything but the identity.
    pub open spec fn identity(&self) -> Seq<char> {
        digest_hex(encode_utf8(print(self.unsigned())))
    }

    /// The canonical text with the identity.
    pub open spec fn text(&self) -> Seq<char> {
        print(self.unsigned().with("spec_sha256"@, Value::Str(self@.spec_sha256)))
    }

    /// The recorded identity is the digest of the contents.
    pub open spec fn is_intact(&self) -> bool {
        self@.spec_sha256 == self.identity()
    }

    /// Scope does not expand: every scope was explored at its exact revision, no
    /// role has two scopes, no identifier has two criteria, and every criterion is
    /// about a role of the scope.
    pub open spec fn is_contained(&self) -> bool {
        &&& forall|i: int| #![trigger self@.repository_scope[i]]
            0 <= i < self@.repository_scope.len() ==> exists|j: int|
                #![trigger self@.explorations[j]]
                0 <= j < self@.explorations.len() && self@.explorations[j].repository@
                    == self@.repository_scope[i].repository@ && self@.explorations[j].revision@
                    == self@.repository_scope[i].revision@
        &&& forall|i: int, j: int|
            #![trigger self@.repository_scope[i], self@.repository_scope[j]]
            0 <= i < j < self@.repository_scope.len() ==> self@.repository_scope[i].role@
                != self@.repository_scope[j].role@
        &&& forall|i: int, j: int|
            #![trigger self@.acceptance_criteria[i], self@.acceptance_criteria[j]]
            0 <= i < j < self@.acceptance_criteria.len() ==> self@.acceptance_criteria[i].id@
                != self@.acceptance_criteria[j].id@
        &&& forall|i: int| #![trigger self@.acceptance_criteria[i]]
            0 <= i < self@.acceptance_criteria.len() ==> exists|j: int|
                #![trigger self@.repository_scope[j]]
                0 <= j < self@.repository_scope.len() && self@.repository_scope[j].role@
                    == self@.acceptance_criteria[i].check.role()
    }

    pub fn schema_version(&self) -> (r: u64)
        ensures
            r == self@.schema_version,
    {
        self.schema_version
    }

    pub fn objective(&self) -> (r: &str)
        ensures
            r@ == self@.objective,
    {
        self.objective.as_str()
    }

    pub fn context(&self) -> (r: &str)
        ensures
            r@ == self@.context,
    {
        self.context.as_str()
    }

    pub fn explorations(&self) -> (r: &[RepositoryExploration])
        ensures
            r@ == self@.explorations,
    {
        self.explorations.as_slice()
    }

    pub fn decisions(&self) -> (r: &[ResolvedQuestion])
        ensures
            r@ == self@.decisions,
    {
        self.decisions.as_slice()
    }

    pub fn acceptance_criteria(&self) -> (r: &[AcceptanceCriterion])
        ensures
            r@ == self@.acceptance_criteria,
    {
        self.acceptance_criteria.as_slice()
    }

    pub fn out_of_scope(&self) -> (r: &[String])
        ensures
            r@ == self@.out_of_scope,
    {
        self.out_of_scope.as_slice()
    }

    pub fn budget(&self) -> (r: SpecBudget)
        ensures
            r == self@.budget,
    {
        self.budget
    }

    pub fn repository_scope(&self) -> (r: &[RepositoryScope])
        ensures
            r@ == self@.repository_scope,
    {
        self.repository_scope.as_slice()
    }

    pub fn spec_sha256(&self) -> (r: &str)
        ensures
            r@ == self@.spec_sha256,
    {
        self.spec_sha256.as_str()
    }

    /// Canonical compact JSON. Object keys are in order and the arrays have already
    /// been canonicalized by constructors.
    pub fn to_json_string(&self) -> (r: String)
        ensures
            r@ == self.text(),
    {
        let mut root = self.unsigned_json();
        root.set("spec_sha256", Json::Str(self.spec_sha256.clone()));
        root.to_string()
    }

    /// The failure reported for a specification that is not intact.
    pub open spec fn mismatch(&self) -> IntakeFailure {
        AutopilotIntakeError::FrozenSpecHashMismatch { expected: self@.spec_sha256, actual: self.identity() }
    }

    /// The recorded identity is the digest of the contents; otherwise both are told.
    pub open spec fn check_identity(&self) -> Result<(), IntakeFailure> {
        if self.is_intact() {
            Ok(())
        } else {
            Err(self.mismatch())
        }
    }

    /// Whether the recorded identity belongs to the contents.
    pub fn verify(&self) -> (r: Result<(), AutopilotIntakeError>)
        ensures
            match r {
                Ok(_) => self.check_identity() is Ok,
                Err(e) => self.check_identity() == Err::<(), IntakeFailure>(e@),
            },
    {
        let actual = self.compute_sha256();
        if !same_text(actual.as_str(), self.spec_sha256.as_str()) {
            return Err(
                AutopilotIntakeError::FrozenSpecHashMismatch { expected: self.spec_sha256.clone(), actual },
            );
        }
        Ok(())
    }

    fn compute_sha256(&self) -> (r: String)
        ensures
            r@ == self.identity(),
    {
        sha256_hex(self.unsigned_json().to_string().as_str().as_bytes())
    }

    fn unsigned_json(&self) -> (r: Json)
        ensures
            r@ == self.unsigned(),
    {
        let mut root = Json::obj();
        root.set("acceptance_criteria", json_array(self.acceptance_criteria.as_slice()));
        root.set("budget", self.budget.to_json());
        root.set("context", Json::Str(self.context.clone()));
        root.set("decisions", json_array(self.decisions.as_slice()));
        root.set("explorations", json_array(self.explorations.as_slice()));
        root.set("objective", Json::Str(self.objective.clone()));
        root.set("out_of_scope", Json::text_array(self.out_of_scope.as_slice()));
        root.set("repository_scope", json_array(self.repository_scope.as_slice()));
        root.set("schema_version", Json::num(self.schema_version));
        root
    }
}

/// What passing the scope checks means.
proof fn lemma_check_scopes(scopes: Seq<Key>, explored: Seq<Key>, i: int)
    requires
        0 <= i <= scopes.len(),
        check_scopes(scopes, explored, i) is Ok,
    ensures
        forall|k: int|
            #![trigger scopes[k]]
            i <= k < scopes.len() ==> explored.contains(seq![scopes[k][1], scopes[k][2]])
                && !scope_roles(scopes).take(k).contains(scopes[k][0]),
    decreases scopes.len() - i,
{
    if i < scopes.len() {
        lemma_check_scopes(scopes, explored, i + 1);
    }
}

proof fn lemma_contained(spec: FrozenAutopilotSpec)
    requires
        check_scopes(keys(spec@.repository_scope), keys(spec@.explorations), 0) is Ok,
        check_criteria(scope_roles(keys(spec@.repository_scope)), keys(spec@.acceptance_criteria)) is Ok,
        ascending(keys(spec@.acceptance_criteria)),
        adjacent_duplicate(keys(spec@.acceptance_criteria)) is None,
    ensures
        spec.is_contained(),
{
    let scopes = keys(spec@.repository_scope);
    let explored = keys(spec@.explorations);
    let criteria = keys(spec@.acceptance_criteria);
    let roles = scope_roles(scopes);
    lemma_check_scopes(scopes, explored, 0);
    let check = |k: Key| check_criterion(roles, k);
    lemma_check_all(criteria, check);
    lemma_no_duplicates(criteria);
    assert forall|i: int, j: int|
        #![trigger spec@.acceptance_criteria[i], spec@.acceptance_criteria[j]]
        0 <= i < j < spec@.acceptance_criteria.len() implies spec@.acceptance_criteria[i].id@
        != spec@.acceptance_criteria[j].id@ by {
        assert(criteria[i][0] == spec@.acceptance_criteria[i].id@);
        assert(criteria[j][0] == spec@.acceptance_criteria[j].id@);
        lemma_text_order_equal(criteria[i][0], criteria[j][0]);
    }
    assert forall|i: int| #![trigger spec@.repository_scope[i]]
        0 <= i < spec@.repository_scope.len() implies exists|j: int|
        #![trigger spec@.explorations[j]]
        0 <= j < spec@.explorations.len() && spec@.explorations[j].repository@
            == spec@.repository_scope[i].repository@ && spec@.explorations[j].revision@
            == spec@.repository_scope[i].revision@ by {
        let k = scopes[i];
        assert(k == spec@.repository_scope[i].key());
        assert(k[1] == spec@.repository_scope[i].repository@);
        assert(k[2] == spec@.repository_scope[i].revision@);
        let wanted = seq![k[1], k[2]];
        assert(explored.contains(wanted));
        let j = choose|j: int| 0 <= j < explored.len() && explored[j] == wanted;
        let e = spec@.explorations[j];
        assert(explored[j] == e.key());
        assert(e.key()[0] == wanted[0] && e.key()[1] == wanted[1]);
    }
    assert forall|i: int, j: int|
        #![trigger spec@.repository_scope[i], spec@.repository_scope[j]]
        0 <= i < j < spec@.repository_scope.len() implies spec@.repository_scope[i].role@
        != spec@.repository_scope[j].role@ by {
        assert(scopes[i][0] == spec@.repository_scope[i].role@);
        assert(scopes[j][0] == spec@.repository_scope[j].role@);
        assert(roles.take(j)[i] == scopes[i][0]);
    }
    assert forall|i: int| #![trigger spec@.acceptance_criteria[i]]
        0 <= i < spec@.acceptance_criteria.len() implies exists|j: int|
        #![trigger spec@.repository_scope[j]]
        0 <= j < spec@.repository_scope.len() && spec@.repository_scope[j].role@
            == spec@.acceptance_criteria[i].check.role() by {
        let c = spec@.acceptance_criteria[i];
        assert(criteria[i] == c.key());
        assert(c.key()[1] == c.check.role());
        assert(check(criteria[i]) is Ok);
        assert(roles.contains(c.check.role()));
        let j = choose|j: int| 0 <= j < roles.len() && roles[j] == c.check.role();
        assert(scopes[j][0] == spec@.repository_scope[j].role@);
    }
}

// ---------------------------------------------------------------------------
// Laws
// ---------------------------------------------------------------------------

/// The order in which explorations, criteria, exclusions and scopes are given
/// does not matter: both specifications hold the same and have the same identity.
pub proof fn law_spec_ignores_input_order(
    first: FrozenAutopilotSpec,
    second: FrozenAutopilotSpec,
    explored: Explored,
    explored_again: Explored,
    decisions: Seq<ResolvedQuestion>,
    draft: AutopilotSpecDraft,
    redraft: AutopilotSpecDraft,
)
    requires
        is_frozen_from(first, explored, decisions, draft),
        is_frozen_from(second, explored_again, decisions, redraft),
        first.is_intact(),
        second.is_intact(),
        first.is_contained(),
        second.is_contained(),
        explored.objective == explored_again.objective,
        explored.context == explored_again.context,
        explored.explorations.to_multiset() == explored_again.explorations.to_multiset(),
        explored.is_ordered(),
        explored_again.is_ordered(),
        draft.acceptance_criteria@.to_multiset() == redraft.acceptance_criteria@.to_multiset(),
        forall|t: Seq<char>|
            #[trigger] texts(draft.out_of_scope@).contains(t) <==> texts(redraft.out_of_scope@).contains(t),
        draft.budget == redraft.budget,
        draft.repository_scope@.to_multiset() == redraft.repository_scope@.to_multiset(),
    ensures
        first@.schema_version == second@.schema_version,
        first@.objective == second@.objective,
        first@.context == second@.context,
        first@.explorations == second@.explorations,
        first@.decisions == second@.decisions,
        first@.acceptance_criteria == second@.acceptance_criteria,
        texts(first@.out_of_scope) == texts(second@.out_of_scope),
        first@.budget == second@.budget,
        first@.repository_scope == second@.repository_scope,
        first.unsigned() == second.unsigned(),
        first@.spec_sha256 == second@.spec_sha256,
        first.text() == second.text(),
{
    lemma_distinct(first);
    lemma_distinct(second);
    lemma_same_arrangement(first@.explorations, second@.explorations);
    lemma_same_arrangement(first@.acceptance_criteria, second@.acceptance_criteria);
    lemma_same_arrangement(first@.repository_scope, second@.repository_scope);
    lemma_canonical_ignores_input_order(texts(draft.out_of_scope@), texts(redraft.out_of_scope@));
}

proof fn lemma_distinct(spec: FrozenAutopilotSpec)
    requires
        spec.is_contained(),
    ensures
        adjacent_duplicate(keys(spec@.repository_scope)) is None,
        adjacent_duplicate(keys(spec@.acceptance_criteria)) is None,
{
    let s = keys(spec@.repository_scope);
    assert forall|i: int, j: int| #![trigger s[i], s[j]] 0 <= i < j < s.len() implies s[i][0] != s[j][0] by {
        assert(s[i][0] == spec@.repository_scope[i].role@);
        assert(s[j][0] == spec@.repository_scope[j].role@);
    }
    lemma_distinct_not_adjacent(s);
    let c = keys(spec@.acceptance_criteria);
    assert forall|i: int, j: int| #![trigger c[i], c[j]] 0 <= i < j < c.len() implies c[i][0] != c[j][0] by {
        assert(c[i][0] == spec@.acceptance_criteria[i].id@);
        assert(c[j][0] == spec@.acceptance_criteria[j].id@);
    }
    lemma_distinct_not_adjacent(c);
}

proof fn lemma_distinct_not_adjacent(s: Seq<Key>)
    requires
        forall|i: int, j: int| #![trigger s[i], s[j]] 0 <= i < j < s.len() ==> s[i][0] != s[j][0],
    ensures
        adjacent_duplicate(s) is None,
    decreases s.len(),
{
    if s.len() >= 2 {
        let t = s.drop_first();
        assert forall|i: int, j: int| #![trigger t[i], t[j]] 0 <= i < j < t.len() implies t[i][0] != t[j][0] by {
            assert(t[i] == s[i + 1] && t[j] == s[j + 1]);
        }
        lemma_distinct_not_adjacent(t);
        assert(s[0][0] != s[1][0]);
    }
}

/// A frozen specification is in canonical form: criteria by identifier, exclusions in
/// order, scopes by role, and nothing of them twice.
pub proof fn law_frozen_spec_is_canonical(
    spec: FrozenAutopilotSpec,
    explored: Explored,
    decisions: Seq<ResolvedQuestion>,
    draft: AutopilotSpecDraft,
)
    requires
        is_frozen_from(spec, explored, decisions, draft),
        spec.is_contained(),
    ensures
        forall|i: int, j: int|
            #![trigger spec@.acceptance_criteria[i], spec@.acceptance_criteria[j]]
            0 <= i < j < spec@.acceptance_criteria.len() ==> text_order(
                spec@.acceptance_criteria[i].id@,
                spec@.acceptance_criteria[j].id@,
            ) == Order::Less,
        strictly_ascending(texts(spec@.out_of_scope)),
        forall|i: int, j: int|
            #![trigger spec@.repository_scope[i], spec@.repository_scope[j]]
            0 <= i < j < spec@.repository_scope.len() ==> text_order(
                spec@.repository_scope[i].role@,
                spec@.repository_scope[j].role@,
            ) == Order::Less,
{
    lemma_distinct(spec);
    lemma_canonical_exists(texts(draft.out_of_scope@));
    let c = keys(spec@.acceptance_criteria);
    lemma_no_duplicates(c);
    assert forall|i: int, j: int|
        #![trigger spec@.acceptance_criteria[i], spec@.acceptance_criteria[j]]
        0 <= i < j < spec@.acceptance_criteria.len() implies text_order(
        spec@.acceptance_criteria[i].id@,
        spec@.acceptance_criteria[j].id@,
    ) == Order::Less by {
        assert(c[i][0] == spec@.acceptance_criteria[i].id@);
        assert(c[j][0] == spec@.acceptance_criteria[j].id@);
    }
    let s = keys(spec@.repository_scope);
    lemma_no_duplicates(s);
    assert forall|i: int, j: int|
        #![trigger spec@.repository_scope[i], spec@.repository_scope[j]]
        0 <= i < j < spec@.repository_scope.len() implies text_order(
        spec@.repository_scope[i].role@,
        spec@.repository_scope[j].role@,
    ) == Order::Less by {
        assert(s[i][0] == spec@.repository_scope[i].role@);
        assert(s[j][0] == spec@.repository_scope[j].role@);
    }
}

proof fn lemma_check_wf(check: AcceptanceCheck)
    ensures
        wf(check.json()),
{
    broadcast use lemma_with_keeps_wf;

    if let AcceptanceCheck::Command { repository_role, command_kind, arguments } = check {
        lemma_text_array_wf(texts(arguments@));
    }
}

proof fn lemma_criterion_wf(c: AcceptanceCriterion)
    ensures
        wf(c.json()),
{
    broadcast use lemma_with_keeps_wf;

    lemma_check_wf(c.check);
}

proof fn lemma_scope_wf(s: RepositoryScope)
    ensures
        wf(s.json()),
{
    broadcast use lemma_with_keeps_wf;

    lemma_text_array_wf(texts(s.allowed_path_prefixes@));
}

proof fn lemma_budget_wf(b: SpecBudget)
    ensures
        wf(b.json()),
{
    broadcast use lemma_with_keeps_wf;

    lemma_decimal(b.max_llm_steps as nat);
    lemma_decimal(b.max_tokens as nat);
    lemma_decimal(b.max_wall_time_ms as nat);
}

proof fn lemma_source_wf(s: ExplorationSource)
    ensures
        wf(s.json()),
{
    broadcast use lemma_with_keeps_wf;

}

proof fn lemma_observation_wf(o: ExplorationObservation)
    ensures
        wf(o.json()),
{
    broadcast use lemma_with_keeps_wf;

    lemma_source_wf(o.source);
}

proof fn lemma_exploration_wf(e: RepositoryExploration)
    ensures
        wf(e.json()),
{
    broadcast use lemma_with_keeps_wf;

    assert forall|i: int| 0 <= i < e.observations@.len() implies wf((#[trigger] e.observations@[i]).json()) by {
        lemma_observation_wf(e.observations@[i]);
    }
    lemma_array_wf(e.observations@);
}

proof fn lemma_decision_wf(q: ResolvedQuestion)
    ensures
        wf(q.json()),
{
    broadcast use lemma_with_keeps_wf;

}

/// The contents of a specification are well-formed JSON, and the context is among them.
proof fn lemma_unsigned(spec: FrozenAutopilotSpec)
    ensures
        wf(spec.unsigned()),
        get(spec.unsigned(), "context"@) == Some(Value::Str(spec@.context)),
{
    assert forall|i: int| 0 <= i < spec@.acceptance_criteria.len() implies wf(
        (#[trigger] spec@.acceptance_criteria[i]).json(),
    ) by {
        lemma_criterion_wf(spec@.acceptance_criteria[i]);
    }
    assert forall|i: int| 0 <= i < spec@.decisions.len() implies wf((#[trigger] spec@.decisions[i]).json()) by {
        lemma_decision_wf(spec@.decisions[i]);
    }
    assert forall|i: int| 0 <= i < spec@.explorations.len() implies wf((#[trigger] spec@.explorations[i]).json()) by {
        lemma_exploration_wf(spec@.explorations[i]);
    }
    assert forall|i: int| 0 <= i < spec@.repository_scope.len() implies wf(
        (#[trigger] spec@.repository_scope[i]).json(),
    ) by {
        lemma_scope_wf(spec@.repository_scope[i]);
    }
    lemma_array_wf(spec@.acceptance_criteria);
    lemma_array_wf(spec@.decisions);
    lemma_array_wf(spec@.explorations);
    lemma_array_wf(spec@.repository_scope);
    lemma_budget_wf(spec@.budget);
    lemma_text_array_wf(texts(spec@.out_of_scope));
    lemma_decimal(spec@.schema_version as nat);
    let criteria = array_json(spec@.acceptance_criteria);
    let context = Value::Str(spec@.context);
    let decisions = array_json(spec@.decisions);
    let explorations = array_json(spec@.explorations);
    let objective = Value::Str(spec@.objective);
    let exclusions = text_array(texts(spec@.out_of_scope));
    let scopes = array_json(spec@.repository_scope);
    let version = Value::Num(decimal(spec@.schema_version as nat));
    let a = empty_obj().with("acceptance_criteria"@, criteria);
    let b = a.with("budget"@, spec@.budget.json());
    let c = b.with("context"@, context);
    let d = c.with("decisions"@, decisions);
    let e = d.with("explorations"@, explorations);
    let f = e.with("objective"@, objective);
    let g = f.with("out_of_scope"@, exclusions);
    let h = g.with("repository_scope"@, scopes);
    lemma_with_wf(empty_obj(), "acceptance_criteria"@, criteria);
    lemma_with_wf(a, "budget"@, spec@.budget.json());
    lemma_with_wf(b, "context"@, context);
    lemma_with_wf(c, "decisions"@, decisions);
    lemma_with_wf(d, "explorations"@, explorations);
    lemma_with_wf(e, "objective"@, objective);
    lemma_with_wf(f, "out_of_scope"@, exclusions);
    lemma_with_wf(g, "repository_scope"@, scopes);
    lemma_with_wf(h, "schema_version"@, version);
    reveal_strlit("context");
    reveal_strlit("decisions");
    reveal_strlit("explorations");
    reveal_strlit("objective");
    reveal_strlit("out_of_scope");
    reveal_strlit("repository_scope");
    reveal_strlit("schema_version");
    assert("context"@.len() == 7 && "decisions"@.len() == 9 && "explorations"@.len() == 12 && "objective"@.len() == 9);
    assert("out_of_scope"@.len() == 12 && "repository_scope"@.len() == 16 && "schema_version"@.len() == 14);
    lemma_get_with(b, "context"@, context, "context"@);
    lemma_get_with(c, "decisions"@, decisions, "context"@);
    lemma_get_with(d, "explorations"@, explorations, "context"@);
    lemma_get_with(e, "objective"@, objective, "context"@);
    lemma_get_with(f, "out_of_scope"@, exclusions, "context"@);
    lemma_get_with(g, "repository_scope"@, scopes, "context"@);
    lemma_get_with(h, "schema_version"@, version, "context"@);
}

/// The contents as the bytes whose digest is the identity.
pub open spec fn material(spec: FrozenAutopilotSpec) -> Seq<u8> {
    encode_utf8(print(spec.unsigned()))
}

/// Two different byte strings with one digest.
pub open spec fn collide(a: Seq<u8>, b: Seq<u8>) -> bool {
    a != b && digest_hex(a) == digest_hex(b)
}

/// A frozen specification verifies. One that was altered after it was frozen, in its
/// context or elsewhere, while its recorded identity stayed, is refused with the recorded
/// identity and the digest of what it holds now, unless the old and the new contents are
/// two different byte strings with one digest.
pub proof fn law_altered_spec_is_detected(frozen: FrozenAutopilotSpec, altered: FrozenAutopilotSpec)
    requires
        frozen.is_intact(),
        altered@.spec_sha256 == frozen@.spec_sha256,
        altered.unsigned() != frozen.unsigned() || altered@.context != frozen@.context,
    ensures
        frozen.check_identity() is Ok,
        material(altered) != material(frozen),
        altered.check_identity() is Ok <==> collide(material(frozen), material(altered)),
        altered.check_identity() is Err ==> altered.check_identity() == Err::<(), IntakeFailure>(
            AutopilotIntakeError::FrozenSpecHashMismatch {
                expected: frozen@.spec_sha256,
                actual: digest_hex(material(altered)),
            },
        ),
{
    lemma_unsigned(frozen);
    lemma_unsigned(altered);
    if material(altered) == material(frozen) {
        encode_utf8_decode_utf8(print(altered.unsigned()));
        encode_utf8_decode_utf8(print(frozen.unsigned()));
        law_print_is_injective(altered.unsigned(), frozen.unsigned());
    }
}

/// A frozen specification to whose context something was appended is refused, where the
/// old and the new contents do not share their digest.
pub proof fn law_appended_context_is_refused(frozen: FrozenAutopilotSpec, altered: FrozenAutopilotSpec, more: Seq<char>)
    requires
        frozen.is_intact(),
        altered@ == (SpecRecord { context: frozen@.context + more, ..frozen@ }),
        more.len() > 0,
        !collide(material(frozen), material(altered)),
    ensures
        altered.check_identity() == Err::<(), IntakeFailure>(
            AutopilotIntakeError::FrozenSpecHashMismatch {
                expected: frozen@.spec_sha256,
                actual: digest_hex(material(altered)),
            },
        ),
{
    assert(altered@.context.len() != frozen@.context.len());
    law_altered_spec_is_detected(frozen, altered);
}

proof fn lemma_first_repeated(s: Seq<Seq<char>>, i: int)
    requires
        0 <= i <= s.len(),
        s.take(i).no_duplicates(),
    ensures
        first_repeated(s, i) is None <==> s.no_duplicates(),
    decreases s.len() - i,
{
    if i < s.len() {
        let front = s.take(i);
        let more = s.take(i + 1);
        assert(more =~= front.push(s[i]));
        if front.contains(s[i]) {
            let k = choose|k: int| 0 <= k < front.len() && front[k] == s[i];
            assert(s[k] == s[i]);
        } else {
            assert(more.no_duplicates()) by {
                assert forall|a: int, b: int| 0 <= a < more.len() && 0 <= b < more.len() && a != b implies more[a]
                    != more[b] by {
                    if a < i && b < i {
                        assert(front[a] != front[b]);
                    } else if a < i {
                        assert(front[a] == more[a]);
                        assert(front.contains(front[a]));
                    } else {
                        assert(front[b] == more[b]);
                        assert(front.contains(front[b]));
                    }
                }
            }
            lemma_first_repeated(s, i + 1);
        }
    } else {
        assert(s.take(i) =~= s);
    }
}

/// Answers are accepted exactly where every question has one, every one is to a question,
/// and no question has two.
pub proof fn law_every_question_is_answered_once(questions: Seq<Seq<char>>, answers: Seq<Seq<char>>)
    ensures
        check_answers(questions, answers) is Ok <==> {
            &&& answers.no_duplicates()
            &&& forall|i: int| 0 <= i < answers.len() ==> questions.contains(#[trigger] answers[i])
            &&& forall|i: int| 0 <= i < questions.len() ==> answers.contains(#[trigger] questions[i])
        },
{
    assert(answers.take(0).no_duplicates());
    lemma_first_repeated(answers, 0);
    lemma_canonical_exists(answers);
    let c = canonical(answers);
    let known = |id: Seq<char>|
        if questions.contains(id) {
            Ok::<(), IntakeFailure>(())
        } else {
            Err(AutopilotIntakeError::UnknownQuestion(id))
        };
    let told = |id: Seq<char>|
        if answers.contains(id) {
            Ok::<(), IntakeFailure>(())
        } else {
            Err(AutopilotIntakeError::UnansweredQuestion(id))
        };
    lemma_check_all(c, known);
    lemma_check_all(questions, told);
    if check_all(c, known) is Ok {
        assert forall|i: int| 0 <= i < answers.len() implies questions.contains(#[trigger] answers[i]) by {
            assert(answers.contains(answers[i]));
            assert(c.contains(answers[i]));
            let k = choose|k: int| 0 <= k < c.len() && c[k] == answers[i];
            assert(known(c[k]) is Ok);
        }
    } else {
        let k = choose|k: int| 0 <= k < c.len() && !((#[trigger] known(c[k])) is Ok);
        assert(c.contains(c[k]));
        assert(answers.contains(c[k]));
        let i = choose|i: int| 0 <= i < answers.len() && answers[i] == c[k];
        assert(!questions.contains(answers[i]));
    }
    if check_all(questions, told) is Ok {
        assert forall|i: int| 0 <= i < questions.len() implies answers.contains(#[trigger] questions[i]) by {
            assert(told(questions[i]) is Ok);
        }
    }
}

/// A questionnaire is accepted exactly where no two questions share their identifier.
pub proof fn law_questions_are_distinct(questions: Seq<IntakeQuestion>)
    ensures
        check_questions(keys(questions)) is Ok <==> forall|i: int, j: int|
            0 <= i < j < questions.len() ==> (#[trigger] questions[i]).id@ != (#[trigger] questions[j]).id@,
{
    let k = keys(questions);
    assert(forall|i: int| 0 <= i < k.len() ==> #[trigger] k[i] == seq![questions[i].id@]);
    law_shared_first_texts_are_found(k);
    if share_first_text(k) {
        let (i, j) = choose|i: int, j: int| 0 <= i < j < k.len() && (#[trigger] k[i])[0] == (#[trigger] k[j])[0];
        assert(questions[i].id@ == questions[j].id@);
    } else {
        assert forall|i: int, j: int| 0 <= i < j < questions.len() implies (#[trigger] questions[i]).id@ != (
        #[trigger] questions[j]).id@ by {
            assert(k[i][0] != k[j][0]);
        }
    }
}

/// An objective is explored exactly with an objective and a context of one line each, and
/// with one or more explorations, each of another repository.
pub proof fn law_explored_objectives(objective: Seq<char>, context: Seq<char>, explorations: Seq<RepositoryExploration>)
    ensures
        check_explored(objective, context, keys(explorations)) is Ok <==> {
            &&& objective.len() > 0 && is_line(objective)
            &&& context.len() > 0 && is_line(context)
            &&& explorations.len() > 0
            &&& forall|i: int, j: int|
                0 <= i < j < explorations.len() ==> (#[trigger] explorations[i]).repository@ != (
                #[trigger] explorations[j]).repository@
        },
{
    let k = keys(explorations);
    assert(forall|i: int|
        0 <= i < k.len() ==> #[trigger] k[i] == seq![explorations[i].repository@, explorations[i].revision@]);
    law_shared_first_texts_are_found(k);
    if share_first_text(k) {
        let (i, j) = choose|i: int, j: int| 0 <= i < j < k.len() && (#[trigger] k[i])[0] == (#[trigger] k[j])[0];
        assert(explorations[i].repository@ == explorations[j].repository@);
    } else {
        assert forall|i: int, j: int| 0 <= i < j < explorations.len() implies (#[trigger] explorations[i]).repository@ != (
        #[trigger] explorations[j]).repository@ by {
            assert(k[i][0] != k[j][0]);
        }
    }
}

/// An exploration is of a repository at a revision, with one or more observations.
pub proof fn law_explorations(repository: Seq<char>, revision: Seq<char>, observations: nat)
    ensures
        check_exploration(repository, revision, observations) is Ok <==> is_repository(repository) && is_revision(revision)
            && observations > 0,
{
}

/// A scope is of a role, a repository and a revision, with one or more relative paths.
pub proof fn law_scopes(role: Seq<char>, repository: Seq<char>, revision: Seq<char>, prefixes: Seq<Seq<char>>)
    ensures
        check_scope(role, repository, revision, prefixes) is Ok <==> {
            &&& role.len() > 0 && is_line(role) && is_identifier(role)
            &&& is_repository(repository)
            &&& is_revision(revision)
            &&& prefixes.len() > 0
            &&& forall|i: int| 0 <= i < prefixes.len() ==> is_relative_path(#[trigger] prefixes[i])
        },
{
    let check = |p: Seq<char>| check_path("scope.allowed_path_prefixes", p);
    lemma_check_all(prefixes, check);
    if check_all(prefixes, check) is Ok {
        assert forall|i: int| 0 <= i < prefixes.len() implies is_relative_path(#[trigger] prefixes[i]) by {
            assert(check(prefixes[i]) is Ok);
        }
    }
}

proof fn lemma_scopes(scopes: Seq<Key>, explored: Seq<Key>, i: int)
    requires
        0 <= i <= scopes.len(),
        forall|a: int, b: int| 0 <= a < b < i ==> (#[trigger] scopes[a])[0] != (#[trigger] scopes[b])[0],
    ensures
        check_scopes(scopes, explored, i) is Ok <==> {
            &&& !share_first_text(scopes)
            &&& forall|k: int| i <= k < scopes.len() ==> explored.contains(seq![(#[trigger] scopes[k])[1], scopes[k][2]])
        },
    decreases scopes.len() - i,
{
    if i < scopes.len() {
        let roles = scope_roles(scopes).take(i);
        if roles.contains(scopes[i][0]) {
            let a = choose|a: int| 0 <= a < roles.len() && roles[a] == scopes[i][0];
            assert(scopes[a][0] == scopes[i][0]);
        } else {
            assert forall|a: int, b: int| 0 <= a < b < i + 1 implies (#[trigger] scopes[a])[0] != (
            #[trigger] scopes[b])[0] by {
                if b == i {
                    assert(roles[a] == scopes[a][0]);
                    assert(roles.contains(scopes[a][0]));
                }
            }
            lemma_scopes(scopes, explored, i + 1);
        }
    }
}

/// The repository was explored at the revision.
pub open spec fn is_explored(explorations: Seq<RepositoryExploration>, repository: Seq<char>, revision: Seq<char>) -> bool {
    exists|k: int|
        0 <= k < explorations.len() && (#[trigger] explorations[k]).repository@ == repository && explorations[k].revision@
            == revision
}

/// The role is that of a scope.
pub open spec fn is_in_scope(scopes: Seq<RepositoryScope>, role: Seq<char>) -> bool {
    exists|s: int| 0 <= s < scopes.len() && (#[trigger] scopes[s]).role@ == role
}

/// A draft is frozen exactly with one or more criteria of different identifiers, with one or
/// more scopes of different roles, with exclusions of one line each; where every scope is on
/// a repository at a revision that was explored, and every criterion about a role in scope.
pub proof fn law_drafts_are_frozen(
    explorations: Seq<RepositoryExploration>,
    criteria: Seq<AcceptanceCriterion>,
    out_of_scope: Seq<Seq<char>>,
    scopes: Seq<RepositoryScope>,
)
    ensures
        check_draft(keys(explorations), keys(criteria), out_of_scope, keys(scopes)) is Ok <==> {
            &&& criteria.len() > 0
            &&& scopes.len() > 0
            &&& forall|i: int, j: int|
                0 <= i < j < criteria.len() ==> (#[trigger] criteria[i]).id@ != (#[trigger] criteria[j]).id@
            &&& forall|i: int, j: int| 0 <= i < j < scopes.len() ==> (#[trigger] scopes[i]).role@ != (#[trigger] scopes[j]).role@
            &&& forall|i: int|
                #![trigger out_of_scope[i]]
                0 <= i < out_of_scope.len() ==> out_of_scope[i].len() > 0 && is_line(out_of_scope[i])
            &&& forall|i: int|
                0 <= i < scopes.len() ==> is_explored(
                    explorations,
                    (#[trigger] scopes[i]).repository@,
                    scopes[i].revision@,
                )
            &&& forall|i: int|
                0 <= i < criteria.len() ==> is_in_scope(scopes, (#[trigger] criteria[i]).check.role())
        },
{
    let ek = keys(explorations);
    let ck = keys(criteria);
    let sk = keys(scopes);
    assert(forall|i: int|
        0 <= i < ek.len() ==> #[trigger] ek[i] == seq![explorations[i].repository@, explorations[i].revision@]);
    assert(forall|i: int| 0 <= i < ck.len() ==> #[trigger] ck[i] == seq![criteria[i].id@, criteria[i].check.role()]);
    assert forall|i: int| 0 <= i < sk.len() implies (#[trigger] sk[i]).len() >= 3 && sk[i][0] == scopes[i].role@ && sk[i][1]
        == scopes[i].repository@ && sk[i][2] == scopes[i].revision@ by {
        assert(sk[i] == scopes[i].key());
    }
    law_shared_first_texts_are_found(ck);
    law_shared_first_texts_are_found(sk);
    law_sorting(ck);
    law_sorting(sk);
    assert(share_first_text(ck) <==> exists|i: int, j: int|
        0 <= i < j < criteria.len() && (#[trigger] criteria[i]).id@ == (#[trigger] criteria[j]).id@) by {
        if share_first_text(ck) {
            let (i, j) = choose|i: int, j: int| 0 <= i < j < ck.len() && (#[trigger] ck[i])[0] == (#[trigger] ck[j])[0];
            assert(criteria[i].id@ == criteria[j].id@);
        }
        if exists|i: int, j: int|
            0 <= i < j < criteria.len() && (#[trigger] criteria[i]).id@ == (#[trigger] criteria[j]).id@ {
            let (i, j) = choose|i: int, j: int|
                0 <= i < j < criteria.len() && (#[trigger] criteria[i]).id@ == (#[trigger] criteria[j]).id@;
            assert(ck[i][0] == ck[j][0]);
        }
    }
    let st = sorted(sk);
    lemma_scopes(st, ek, 0);
    assert(share_first_text(st) <==> exists|i: int, j: int|
        0 <= i < j < scopes.len() && (#[trigger] scopes[i]).role@ == (#[trigger] scopes[j]).role@) by {
        if share_first_text(st) {
            lemma_shared_in(st, sk);
            let (i, j) = choose|i: int, j: int| 0 <= i < j < sk.len() && (#[trigger] sk[i])[0] == (#[trigger] sk[j])[0];
            assert(scopes[i].role@ == scopes[j].role@);
        }
        if exists|i: int, j: int| 0 <= i < j < scopes.len() && (#[trigger] scopes[i]).role@ == (#[trigger] scopes[j]).role@ {
            let (i, j) = choose|i: int, j: int|
                0 <= i < j < scopes.len() && (#[trigger] scopes[i]).role@ == (#[trigger] scopes[j]).role@;
            assert(sk[i][0] == sk[j][0]);
            lemma_shared_in(sk, st);
        }
    }
    assert((forall|k: int| 0 <= k < st.len() ==> ek.contains(seq![(#[trigger] st[k])[1], st[k][2]])) <==> forall|i: int|
        0 <= i < scopes.len() ==> is_explored(explorations, (#[trigger] scopes[i]).repository@, scopes[i].revision@)) by {
        assert forall|i: int| 0 <= i < scopes.len() implies (is_explored(
            explorations,
            (#[trigger] scopes[i]).repository@,
            scopes[i].revision@,
        ) <==> ek.contains(seq![sk[i][1], sk[i][2]])) by {
            lemma_explored_key(explorations, scopes[i].repository@, scopes[i].revision@);
        }
        if forall|k: int| 0 <= k < st.len() ==> ek.contains(seq![(#[trigger] st[k])[1], st[k][2]]) {
            assert forall|i: int| 0 <= i < scopes.len() implies is_explored(
                explorations,
                (#[trigger] scopes[i]).repository@,
                scopes[i].revision@,
            ) by {
                assert(sk.contains(sk[i]));
                assert(st.contains(sk[i]));
                let k = choose|k: int| 0 <= k < st.len() && st[k] == sk[i];
                assert(ek.contains(seq![st[k][1], st[k][2]]));
            }
        }
        if forall|i: int|
            0 <= i < scopes.len() ==> is_explored(explorations, (#[trigger] scopes[i]).repository@, scopes[i].revision@) {
            assert forall|k: int| 0 <= k < st.len() implies ek.contains(seq![(#[trigger] st[k])[1], st[k][2]]) by {
                assert(st.contains(st[k]));
                assert(sk.contains(st[k]));
                let i = choose|i: int| 0 <= i < sk.len() && sk[i] == st[k];
                assert(is_explored(explorations, scopes[i].repository@, scopes[i].revision@));
            }
        }
    }
    let text_check = |t: Seq<char>| check_text("out_of_scope", t);
    lemma_check_all(out_of_scope, text_check);
    assert(check_all(out_of_scope, text_check) is Ok <==> forall|i: int|
        #![trigger out_of_scope[i]]
        0 <= i < out_of_scope.len() ==> out_of_scope[i].len() > 0 && is_line(out_of_scope[i])) by {
        if check_all(out_of_scope, text_check) is Ok {
            assert forall|i: int| #![trigger out_of_scope[i]] 0 <= i < out_of_scope.len() implies out_of_scope[i].len() > 0
                && is_line(out_of_scope[i]) by {
                assert(text_check(out_of_scope[i]) is Ok);
            }
        }
    }
    lemma_criteria_in_scope(criteria, scopes);
}

proof fn lemma_explored_key(explorations: Seq<RepositoryExploration>, repository: Seq<char>, revision: Seq<char>)
    ensures
        is_explored(explorations, repository, revision) <==> keys(explorations).contains(seq![repository, revision]),
{
    let ek = keys(explorations);
    let key = seq![repository, revision];
    assert(key[0] == repository && key[1] == revision);
    if ek.contains(key) {
        let k = choose|k: int| 0 <= k < ek.len() && ek[k] == key;
        assert(ek[k] == seq![explorations[k].repository@, explorations[k].revision@]);
        assert(ek[k][0] == explorations[k].repository@ && ek[k][1] == explorations[k].revision@);
    }
    if is_explored(explorations, repository, revision) {
        let k = choose|k: int|
            0 <= k < explorations.len() && (#[trigger] explorations[k]).repository@ == repository
                && explorations[k].revision@ == revision;
        assert(ek[k] == seq![explorations[k].repository@, explorations[k].revision@]);
        assert(ek[k] =~= key);
    }
}

proof fn lemma_criteria_in_scope(criteria: Seq<AcceptanceCriterion>, scopes: Seq<RepositoryScope>)
    ensures
        check_criteria(scope_roles(sorted(keys(scopes))), sorted(keys(criteria))) is Ok <==> forall|i: int|
            0 <= i < criteria.len() ==> is_in_scope(scopes, (#[trigger] criteria[i]).check.role()),
{
    let ck = keys(criteria);
    let sk = keys(scopes);
    let ct = sorted(ck);
    let st = sorted(sk);
    law_sorting(ck);
    law_sorting(sk);
    let roles = scope_roles(st);
    let check = |k: Key| check_criterion(roles, k);
    lemma_check_all(ct, check);
    assert forall|i: int| 0 <= i < criteria.len() implies (is_in_scope(scopes, (#[trigger] criteria[i]).check.role()) <==> check(ck[i]) is Ok) by {
        let role = criteria[i].check.role();
        assert(ck[i] == seq![criteria[i].id@, role]);
        assert(ck[i][1] == role);
        if roles.contains(role) {
            let k = choose|k: int| 0 <= k < roles.len() && roles[k] == role;
            assert(st.contains(st[k]));
            assert(sk.contains(st[k]));
            let s = choose|s: int| 0 <= s < sk.len() && sk[s] == st[k];
            assert(sk[s] == scopes[s].key());
            assert(scopes[s].role@ == role);
        }
        if exists|s: int| 0 <= s < scopes.len() && (#[trigger] scopes[s]).role@ == role {
            let s = choose|s: int| 0 <= s < scopes.len() && (#[trigger] scopes[s]).role@ == role;
            assert(sk[s] == scopes[s].key());
            assert(sk[s][0] == role);
            assert(sk.contains(sk[s]));
            assert(st.contains(sk[s]));
            let k = choose|k: int| 0 <= k < st.len() && st[k] == sk[s];
            assert(roles[k] == role);
        }
    }
    if check_all(ct, check) is Ok {
        assert forall|i: int| 0 <= i < criteria.len() implies is_in_scope(scopes, (#[trigger] criteria[i]).check.role()) by {
            assert(ck.contains(ck[i]));
            assert(ct.contains(ck[i]));
            let k = choose|k: int| 0 <= k < ct.len() && ct[k] == ck[i];
            assert(check(ct[k]) is Ok);
        }
    } else {
        let k = choose|k: int| 0 <= k < ct.len() && !((#[trigger] check(ct[k])) is Ok);
        assert(ct.contains(ct[k]));
        assert(ck.contains(ct[k]));
        let i = choose|i: int| 0 <= i < ck.len() && ck[i] == ct[k];
        let role = criteria[i].check.role();
        assert(!is_in_scope(scopes, role));
    }
}

/// Where every question is answered once, each decision repeats its question and holds the
/// very answer that was given to it.
pub proof fn law_decisions_hold_the_answers(
    decisions: Seq<ResolvedQuestion>,
    questions: Seq<IntakeQuestion>,
    answers: Seq<QuestionAnswer>,
    i: int,
    j: int,
)
    requires
        decides(decisions, questions, answers),
        check_answers(question_ids(questions), answered(answers)) is Ok,
        0 <= i < questions.len(),
        0 <= j < answers.len(),
        answers[j].question_id@ == questions[i].id@,
    ensures
        decisions.len() == questions.len(),
        decisions[i].id@ == questions[i].id@,
        decisions[i].prompt@ == questions[i].prompt@,
        decisions[i].answer@ == answers[j].answer@,
{
    law_every_question_is_answered_once(question_ids(questions), answered(answers));
    assert(decisions[i].id == questions[i].id);
    let k = choose|k: int|
        0 <= k < answers.len() && (#[trigger] answers[k]).question_id@ == questions[i].id@ && answers[k].answer
            == decisions[i].answer;
    let ids = answered(answers);
    assert(ids[k] == ids[j]);
    assert(k == j);
}

} // verus!
