//! The feature regime: tests first, then an implementation that cannot touch them.
//!
//! A test task produces files whose contents are frozen once approval evidence is
//! supplied. The implementation task must depend on that test task and must not have
//! an edit allowance that covers a frozen test. Every candidate patch set is checked
//! again, and so are the bytes of the tests in a workspace.

use vstd::prelude::*;
use vstd::utf8::encode_utf8;

use crate::autopilot_intake::FrozenAutopilotSpec;
use crate::autopilot_task_dag::{
    allows_path, find_task, may_edit, permits, task_allows_path, task_may_edit, task_permits, AutopilotTask, AutopilotTaskDag, TaskEditAllowance,
    TaskOperation, TaskRegime,
};
use crate::checks::{and_then, check_all, lemma_check_all, lemma_check_step};
use crate::fields::{
    digest_ok, identifier_ok, is_digest, is_identifier, is_line, is_relative_path, is_within, is_within_any, line_ok, path_is_within,
    relative_path_ok,
};
use crate::json::{array_json, empty_obj, json_array, print, Json, ToJson, Value};
use crate::order::{
    key_order, keys, law_sorting, lemma_sorted_ignores_input_order, lemma_text_order_equal, lemma_text_order_flip, order_texts, sort_records, sorted,
    text_order, Key, Keyed, Order,
};
use crate::patchset::{
    check_operations, law_other_files_stay, targets, FileOperation, PatchFailure, PatchSet, PatchSetError,
};
use crate::sha256::{digest_hex, sha256_hex};
use crate::text::{contains_text, decimal, lowercase, same_text, texts, to_lowercase, IntoText};

verus! {

pub const FEATURE_TEST_MANIFEST_SCHEMA_VERSION: u64 = 1;

pub const FEATURE_IMPLEMENTATION_CONTRACT_SCHEMA_VERSION: u64 = 1;

// ---------------------------------------------------------------------------
// Failures
// ---------------------------------------------------------------------------

/// Why a feature test set, a contract or a candidate was refused.
///
/// The parameter is the type of the texts it carries.
#[derive(Debug, Clone, PartialEq, Eq)]
pub enum FeatureRegimeError<S = String> {
    EmptyField(&'static str),
    InvalidText { field: &'static str, value: S },
    InvalidIdentifier { field: &'static str, value: S },
    InvalidDigest { field: &'static str, value: S },
    InvalidPath { field: &'static str, value: S },
    InvalidSpec(S),
    InvalidDag(S),
    UnknownTask(S),
    NonFeatureTask { role: &'static str, task_id: S },
    DuplicateTestArtifact { repository_role: S, path: S },
    TestArtifactOutsideTaskRepositories { repository_role: S, path: S },
    TestArtifactOutsideEditScope { repository_role: S, path: S },
    FrozenManifestHashMismatch { expected: S, actual: S },
    ManifestContextMismatch,
    UnknownFrozenTestRole(S),
    FrozenTestRead { repository_role: S, path: S, message: S },
    FrozenTestContentMismatch { repository_role: S, path: S, expected: S, actual: S },
    ImplementationHasNoEditScope(S),
    ImplementationDoesNotDependOnTests { implementation_task_id: S, test_task_id: S },
    ImplementationAllowanceTouchesFrozenTest { implementation_task_id: S, repository_role: S, frozen_path: S, allowed_prefix: S },
    FeatureContractHashMismatch { expected: S, actual: S },
    FeatureContractContextMismatch,
    PatchSet(PatchSetError<S>),
    RepositoryOutsideImplementationTask(S),
    RepositoryIsReadOnly(S),
    CandidateTouchesFrozenTest { repository_role: S, path: S },
    CandidateOperationOutsideAllowance { repository_role: S, path: S, operation: TaskOperation },
}

/// A failure over mathematical texts.
pub type FeatureFailure = FeatureRegimeError<Seq<char>>;

impl FeatureRegimeError<String> {
    pub open spec fn view(&self) -> FeatureFailure {
        match self {
            FeatureRegimeError::EmptyField(value) => FeatureRegimeError::EmptyField(*value),
            FeatureRegimeError::InvalidText { field, value } => FeatureRegimeError::InvalidText { field: *field, value: value@ },
            FeatureRegimeError::InvalidIdentifier { field, value } => FeatureRegimeError::InvalidIdentifier { field: *field, value: value@ },
            FeatureRegimeError::InvalidDigest { field, value } => FeatureRegimeError::InvalidDigest { field: *field, value: value@ },
            FeatureRegimeError::InvalidPath { field, value } => FeatureRegimeError::InvalidPath { field: *field, value: value@ },
            FeatureRegimeError::InvalidSpec(value) => FeatureRegimeError::InvalidSpec(value@),
            FeatureRegimeError::InvalidDag(value) => FeatureRegimeError::InvalidDag(value@),
            FeatureRegimeError::UnknownTask(value) => FeatureRegimeError::UnknownTask(value@),
            FeatureRegimeError::NonFeatureTask { role, task_id } => FeatureRegimeError::NonFeatureTask { role: *role, task_id: task_id@ },
            FeatureRegimeError::DuplicateTestArtifact { repository_role, path } => FeatureRegimeError::DuplicateTestArtifact { repository_role: repository_role@, path: path@ },
            FeatureRegimeError::TestArtifactOutsideTaskRepositories { repository_role, path } => FeatureRegimeError::TestArtifactOutsideTaskRepositories { repository_role: repository_role@, path: path@ },
            FeatureRegimeError::TestArtifactOutsideEditScope { repository_role, path } => FeatureRegimeError::TestArtifactOutsideEditScope { repository_role: repository_role@, path: path@ },
            FeatureRegimeError::FrozenManifestHashMismatch { expected, actual } => FeatureRegimeError::FrozenManifestHashMismatch { expected: expected@, actual: actual@ },
            FeatureRegimeError::ManifestContextMismatch => FeatureRegimeError::ManifestContextMismatch,
            FeatureRegimeError::UnknownFrozenTestRole(value) => FeatureRegimeError::UnknownFrozenTestRole(value@),
            FeatureRegimeError::FrozenTestRead { repository_role, path, message } => FeatureRegimeError::FrozenTestRead { repository_role: repository_role@, path: path@, message: message@ },
            FeatureRegimeError::FrozenTestContentMismatch { repository_role, path, expected, actual } => FeatureRegimeError::FrozenTestContentMismatch { repository_role: repository_role@, path: path@, expected: expected@, actual: actual@ },
            FeatureRegimeError::ImplementationHasNoEditScope(value) => FeatureRegimeError::ImplementationHasNoEditScope(value@),
            FeatureRegimeError::ImplementationDoesNotDependOnTests { implementation_task_id, test_task_id } => FeatureRegimeError::ImplementationDoesNotDependOnTests { implementation_task_id: implementation_task_id@, test_task_id: test_task_id@ },
            FeatureRegimeError::ImplementationAllowanceTouchesFrozenTest { implementation_task_id, repository_role, frozen_path, allowed_prefix } => FeatureRegimeError::ImplementationAllowanceTouchesFrozenTest { implementation_task_id: implementation_task_id@, repository_role: repository_role@, frozen_path: frozen_path@, allowed_prefix: allowed_prefix@ },
            FeatureRegimeError::FeatureContractHashMismatch { expected, actual } => FeatureRegimeError::FeatureContractHashMismatch { expected: expected@, actual: actual@ },
            FeatureRegimeError::FeatureContractContextMismatch => FeatureRegimeError::FeatureContractContextMismatch,
            FeatureRegimeError::PatchSet(value) => FeatureRegimeError::PatchSet(value@),
            FeatureRegimeError::RepositoryOutsideImplementationTask(value) => FeatureRegimeError::RepositoryOutsideImplementationTask(value@),
            FeatureRegimeError::RepositoryIsReadOnly(value) => FeatureRegimeError::RepositoryIsReadOnly(value@),
            FeatureRegimeError::CandidateTouchesFrozenTest { repository_role, path } => FeatureRegimeError::CandidateTouchesFrozenTest { repository_role: repository_role@, path: path@ },
            FeatureRegimeError::CandidateOperationOutsideAllowance { repository_role, path, operation } => FeatureRegimeError::CandidateOperationOutsideAllowance { repository_role: repository_role@, path: path@, operation: *operation },
        }
    }

    /// The message shown to a user.
    pub fn to_string(&self) -> (r: String)
        ensures
            r@ == self@.message(),
    {
        match self {
            FeatureRegimeError::EmptyField(value) => {
                let mut m = "FEATURE field '".to_owned();
                m.append(*value);
                m.append("' is empty");
                m
            },
            FeatureRegimeError::InvalidText { field, value } => {
                let mut m = "invalid FEATURE text '".to_owned();
                m.append(*field);
                m.append("': '");
                m.append(value.as_str());
                m.append("'");
                m
            },
            FeatureRegimeError::InvalidIdentifier { field, value } => {
                let mut m = "invalid FEATURE identifier '".to_owned();
                m.append(*field);
                m.append("': '");
                m.append(value.as_str());
                m.append("'");
                m
            },
            FeatureRegimeError::InvalidDigest { field, value } => {
                let mut m = "invalid FEATURE SHA-256 '".to_owned();
                m.append(*field);
                m.append("': '");
                m.append(value.as_str());
                m.append("'");
                m
            },
            FeatureRegimeError::InvalidPath { field, value } => {
                let mut m = "invalid FEATURE path '".to_owned();
                m.append(*field);
                m.append("': '");
                m.append(value.as_str());
                m.append("'");
                m
            },
            FeatureRegimeError::InvalidSpec(value) => {
                let mut m = "invalid frozen spec: ".to_owned();
                m.append(value.as_str());
                m
            },
            FeatureRegimeError::InvalidDag(value) => {
                let mut m = "invalid frozen task DAG: ".to_owned();
                m.append(value.as_str());
                m
            },
            FeatureRegimeError::UnknownTask(value) => {
                let mut m = "unknown FEATURE task '".to_owned();
                m.append(value.as_str());
                m.append("'");
                m
            },
            FeatureRegimeError::NonFeatureTask { role, task_id } => {
                let mut m = (*role).to_owned();
                m.append(" task '");
                m.append(task_id.as_str());
                m.append("' is not in FEATURE regime");
                m
            },
            FeatureRegimeError::DuplicateTestArtifact { repository_role, path } => {
                let mut m = "duplicate frozen test ".to_owned();
                m.append(repository_role.as_str());
                m.append(":");
                m.append(path.as_str());
                m
            },
            FeatureRegimeError::TestArtifactOutsideTaskRepositories { repository_role, path } => {
                let mut m = "frozen test ".to_owned();
                m.append(repository_role.as_str());
                m.append(":");
                m.append(path.as_str());
                m.append(" is outside the test task repository subset");
                m
            },
            FeatureRegimeError::TestArtifactOutsideEditScope { repository_role, path } => {
                let mut m = "frozen test ".to_owned();
                m.append(repository_role.as_str());
                m.append(":");
                m.append(path.as_str());
                m.append(" is outside the test task edit scope");
                m
            },
            FeatureRegimeError::FrozenManifestHashMismatch { expected, actual } => {
                let mut m = "frozen FEATURE test manifest hash mismatch: expected ".to_owned();
                m.append(expected.as_str());
                m.append(", actual ");
                m.append(actual.as_str());
                m
            },
            FeatureRegimeError::ManifestContextMismatch => {
                "frozen FEATURE tests belong to another spec/task DAG".to_owned()
            },
            FeatureRegimeError::UnknownFrozenTestRole(value) => {
                let mut m = "no frozen FEATURE tests for repository role '".to_owned();
                m.append(value.as_str());
                m.append("'");
                m
            },
            FeatureRegimeError::FrozenTestRead { repository_role, path, message } => {
                let mut m = "cannot read frozen test ".to_owned();
                m.append(repository_role.as_str());
                m.append(":");
                m.append(path.as_str());
                m.append(": ");
                m.append(message.as_str());
                m
            },
            FeatureRegimeError::FrozenTestContentMismatch { repository_role, path, expected, actual } => {
                let mut m = "frozen test changed ".to_owned();
                m.append(repository_role.as_str());
                m.append(":");
                m.append(path.as_str());
                m.append(": expected ");
                m.append(expected.as_str());
                m.append(", actual ");
                m.append(actual.as_str());
                m
            },
            FeatureRegimeError::ImplementationHasNoEditScope(value) => {
                let mut m = "FEATURE implementation task '".to_owned();
                m.append(value.as_str());
                m.append("' has no edit scope");
                m
            },
            FeatureRegimeError::ImplementationDoesNotDependOnTests { implementation_task_id, test_task_id } => {
                let mut m = "FEATURE implementation task '".to_owned();
                m.append(implementation_task_id.as_str());
                m.append("' must depend on frozen test task '");
                m.append(test_task_id.as_str());
                m.append("'");
                m
            },
            FeatureRegimeError::ImplementationAllowanceTouchesFrozenTest { implementation_task_id, repository_role, frozen_path, allowed_prefix } => {
                let mut m = "FEATURE implementation task '".to_owned();
                m.append(implementation_task_id.as_str());
                m.append("' allowance ");
                m.append(repository_role.as_str());
                m.append(":");
                m.append(allowed_prefix.as_str());
                m.append(" covers frozen test ");
                m.append(frozen_path.as_str());
                m
            },
            FeatureRegimeError::FeatureContractHashMismatch { expected, actual } => {
                let mut m = "FEATURE implementation contract hash mismatch: expected ".to_owned();
                m.append(expected.as_str());
                m.append(", actual ");
                m.append(actual.as_str());
                m
            },
            FeatureRegimeError::FeatureContractContextMismatch => {
                "FEATURE implementation contract context mismatch".to_owned()
            },
            FeatureRegimeError::PatchSet(value) => {
                let mut m = "invalid FEATURE candidate PatchSet: ".to_owned();
                m.append(value.to_string().as_str());
                m
            },
            FeatureRegimeError::RepositoryOutsideImplementationTask(value) => {
                let mut m = "repository role '".to_owned();
                m.append(value.as_str());
                m.append("' is outside the FEATURE implementation task");
                m
            },
            FeatureRegimeError::RepositoryIsReadOnly(value) => {
                let mut m = "repository role '".to_owned();
                m.append(value.as_str());
                m.append("' is read-only for this FEATURE task");
                m
            },
            FeatureRegimeError::CandidateTouchesFrozenTest { repository_role, path } => {
                let mut m = "FEATURE candidate attempts to modify frozen test ".to_owned();
                m.append(repository_role.as_str());
                m.append(":");
                m.append(path.as_str());
                m
            },
            FeatureRegimeError::CandidateOperationOutsideAllowance { repository_role, path, operation } => {
                let mut m = "FEATURE candidate operation ".to_owned();
                m.append(operation.label());
                m.append(" on ");
                m.append(repository_role.as_str());
                m.append(":");
                m.append(path.as_str());
                m.append(" is outside the task allowlist");
                m
            },
        }
    }
}

impl FeatureRegimeError<Seq<char>> {
    pub open spec fn message(&self) -> Seq<char> {
        match self {
            FeatureRegimeError::EmptyField(value) => "FEATURE field '"@ + value@ + "' is empty"@,
            FeatureRegimeError::InvalidText { field, value } => "invalid FEATURE text '"@ + field@ + "': '"@ + *value + "'"@,
            FeatureRegimeError::InvalidIdentifier { field, value } => "invalid FEATURE identifier '"@ + field@ + "': '"@ + *value + "'"@,
            FeatureRegimeError::InvalidDigest { field, value } => "invalid FEATURE SHA-256 '"@ + field@ + "': '"@ + *value + "'"@,
            FeatureRegimeError::InvalidPath { field, value } => "invalid FEATURE path '"@ + field@ + "': '"@ + *value + "'"@,
            FeatureRegimeError::InvalidSpec(value) => "invalid frozen spec: "@ + *value,
            FeatureRegimeError::InvalidDag(value) => "invalid frozen task DAG: "@ + *value,
            FeatureRegimeError::UnknownTask(value) => "unknown FEATURE task '"@ + *value + "'"@,
            FeatureRegimeError::NonFeatureTask { role, task_id } => role@ + " task '"@ + *task_id + "' is not in FEATURE regime"@,
            FeatureRegimeError::DuplicateTestArtifact { repository_role, path } => "duplicate frozen test "@ + *repository_role + ":"@ + *path,
            FeatureRegimeError::TestArtifactOutsideTaskRepositories { repository_role, path } => "frozen test "@ + *repository_role + ":"@ + *path + " is outside the test task repository subset"@,
            FeatureRegimeError::TestArtifactOutsideEditScope { repository_role, path } => "frozen test "@ + *repository_role + ":"@ + *path + " is outside the test task edit scope"@,
            FeatureRegimeError::FrozenManifestHashMismatch { expected, actual } => "frozen FEATURE test manifest hash mismatch: expected "@ + *expected + ", actual "@ + *actual,
            FeatureRegimeError::ManifestContextMismatch => "frozen FEATURE tests belong to another spec/task DAG"@,
            FeatureRegimeError::UnknownFrozenTestRole(value) => "no frozen FEATURE tests for repository role '"@ + *value + "'"@,
            FeatureRegimeError::FrozenTestRead { repository_role, path, message } => "cannot read frozen test "@ + *repository_role + ":"@ + *path + ": "@ + *message,
            FeatureRegimeError::FrozenTestContentMismatch { repository_role, path, expected, actual } => "frozen test changed "@ + *repository_role + ":"@ + *path + ": expected "@ + *expected + ", actual "@ + *actual,
            FeatureRegimeError::ImplementationHasNoEditScope(value) => "FEATURE implementation task '"@ + *value + "' has no edit scope"@,
            FeatureRegimeError::ImplementationDoesNotDependOnTests { implementation_task_id, test_task_id } => "FEATURE implementation task '"@ + *implementation_task_id + "' must depend on frozen test task '"@ + *test_task_id + "'"@,
            FeatureRegimeError::ImplementationAllowanceTouchesFrozenTest { implementation_task_id, repository_role, frozen_path, allowed_prefix } => "FEATURE implementation task '"@ + *implementation_task_id + "' allowance "@ + *repository_role + ":"@ + *allowed_prefix + " covers frozen test "@ + *frozen_path,
            FeatureRegimeError::FeatureContractHashMismatch { expected, actual } => "FEATURE implementation contract hash mismatch: expected "@ + *expected + ", actual "@ + *actual,
            FeatureRegimeError::FeatureContractContextMismatch => "FEATURE implementation contract context mismatch"@,
            FeatureRegimeError::PatchSet(value) => "invalid FEATURE candidate PatchSet: "@ + value.message(),
            FeatureRegimeError::RepositoryOutsideImplementationTask(value) => "repository role '"@ + *value + "' is outside the FEATURE implementation task"@,
            FeatureRegimeError::RepositoryIsReadOnly(value) => "repository role '"@ + *value + "' is read-only for this FEATURE task"@,
            FeatureRegimeError::CandidateTouchesFrozenTest { repository_role, path } => "FEATURE candidate attempts to modify frozen test "@ + *repository_role + ":"@ + *path,
            FeatureRegimeError::CandidateOperationOutsideAllowance { repository_role, path, operation } => "FEATURE candidate operation "@ + operation.label_text() + " on "@ + *repository_role + ":"@ + *path + " is outside the task allowlist"@,
        }
    }
}

/// The outcome with its failure over mathematical texts.
pub open spec fn outcome<T>(r: Result<T, FeatureRegimeError>) -> Result<T, FeatureFailure> {
    match r {
        Ok(t) => Ok(t),
        Err(e) => Err(e@),
    }
}

// ---------------------------------------------------------------------------
// Field checks
// ---------------------------------------------------------------------------

pub open spec fn check_text(field: &'static str, s: Seq<char>) -> Result<(), FeatureFailure> {
    if s.len() == 0 {
        Err(FeatureRegimeError::EmptyField(field))
    } else if !is_line(s) {
        Err(FeatureRegimeError::InvalidText { field, value: s })
    } else {
        Ok(())
    }
}

pub open spec fn check_identifier(field: &'static str, s: Seq<char>) -> Result<(), FeatureFailure> {
    and_then(
        check_text(field, s),
        if is_identifier(s) {
            Ok(())
        } else {
            Err(FeatureRegimeError::InvalidIdentifier { field, value: s })
        },
    )
}

pub open spec fn check_digest(field: &'static str, s: Seq<char>) -> Result<(), FeatureFailure> {
    if is_digest(s) {
        Ok(())
    } else {
        Err(FeatureRegimeError::InvalidDigest { field, value: s })
    }
}

pub open spec fn check_path(field: &'static str, s: Seq<char>) -> Result<(), FeatureFailure> {
    if is_relative_path(s) {
        Ok(())
    } else {
        Err(FeatureRegimeError::InvalidPath { field, value: s })
    }
}

fn validate_text(field: &'static str, value: &str) -> (r: Result<(), FeatureRegimeError>)
    ensures
        outcome(r) == check_text(field, value@),
{
    if value.is_empty() {
        return Err(FeatureRegimeError::EmptyField(field));
    }
    if !line_ok(value) {
        return Err(FeatureRegimeError::InvalidText { field, value: value.to_owned() });
    }
    Ok(())
}

fn validate_identifier(field: &'static str, value: &str) -> (r: Result<(), FeatureRegimeError>)
    ensures
        outcome(r) == check_identifier(field, value@),
{
    validate_text(field, value)?;
    if !identifier_ok(value) {
        return Err(FeatureRegimeError::InvalidIdentifier { field, value: value.to_owned() });
    }
    Ok(())
}

fn validate_digest(field: &'static str, value: &str) -> (r: Result<(), FeatureRegimeError>)
    ensures
        outcome(r) == check_digest(field, value@),
{
    if !digest_ok(value) {
        return Err(FeatureRegimeError::InvalidDigest { field, value: value.to_owned() });
    }
    Ok(())
}

fn validate_relative_path(field: &'static str, value: &str) -> (r: Result<(), FeatureRegimeError>)
    ensures
        outcome(r) == check_path(field, value@),
{
    if !relative_path_ok(value) {
        return Err(FeatureRegimeError::InvalidPath { field, value: value.to_owned() });
    }
    Ok(())
}

// ---------------------------------------------------------------------------
// Approval and artifacts
// ---------------------------------------------------------------------------

/// Evidence that a trusted review step accepted the tests before implementation.
#[derive(Debug, Clone, PartialEq, Eq)]
pub struct FeatureTestApproval {
    pub authority: String,
    pub evidence_sha256: String,
}

pub open spec fn check_approval(authority: Seq<char>, evidence: Seq<char>) -> Result<(), FeatureFailure> {
    and_then(check_text("approval.authority", authority), check_digest("approval.evidence_sha256", evidence))
}

impl FeatureTestApproval {
    pub fn new(authority: impl IntoText, evidence_sha256: impl IntoText) -> (r: Result<Self, FeatureRegimeError>)
        ensures
            match r {
                Ok(a) => {
                    &&& check_approval(authority.text(), evidence_sha256.text()) is Ok
                    &&& a.authority@ == authority.text()
                    &&& a.evidence_sha256@ == lowercase(evidence_sha256.text())
                },
                Err(e) => check_approval(authority.text(), evidence_sha256.text()) == Err::<(), FeatureFailure>(e@),
            },
    {
        let authority = authority.into_text();
        let evidence_sha256 = evidence_sha256.into_text();
        validate_text("approval.authority", authority.as_str())?;
        validate_digest("approval.evidence_sha256", evidence_sha256.as_str())?;
        Ok(FeatureTestApproval { authority, evidence_sha256: to_lowercase(evidence_sha256.as_str()) })
    }
}

impl ToJson for FeatureTestApproval {
    open spec fn json(&self) -> Value {
        empty_obj().with("authority"@, Value::Str(self.authority@)).with("evidence_sha256"@, Value::Str(self.evidence_sha256@))
    }

    fn to_json(&self) -> (r: Json) {
        let mut out = Json::obj();
        out.set("authority", Json::Str(self.authority.clone()));
        out.set("evidence_sha256", Json::Str(self.evidence_sha256.clone()));
        out
    }
}

/// One approved test file at exact content bytes.
#[derive(Debug, Clone, PartialEq, Eq, PartialOrd, Ord)]
pub struct FrozenTestArtifact {
    pub repository_role: String,
    pub path: String,
    pub sha256: String,
}

pub open spec fn check_artifact(role: Seq<char>, path: Seq<char>, digest: Seq<char>) -> Result<(), FeatureFailure> {
    and_then(
        check_identifier("test.repository_role", role),
        and_then(check_path("test.path", path), check_digest("test.sha256", digest)),
    )
}

impl FrozenTestArtifact {
    pub fn new(repository_role: impl IntoText, path: impl IntoText, sha256: impl IntoText) -> (r: Result<
        Self,
        FeatureRegimeError,
    >)
        ensures
            match r {
                Ok(a) => {
                    &&& check_artifact(repository_role.text(), path.text(), sha256.text()) is Ok
                    &&& a.repository_role@ == repository_role.text()
                    &&& a.path@ == path.text()
                    &&& a.sha256@ == lowercase(sha256.text())
                },
                Err(e) => check_artifact(repository_role.text(), path.text(), sha256.text()) == Err::<(), FeatureFailure>(
                    e@,
                ),
            },
    {
        let repository_role = repository_role.into_text();
        let path = path.into_text();
        let sha256 = sha256.into_text();
        validate_identifier("test.repository_role", repository_role.as_str())?;
        validate_relative_path("test.path", path.as_str())?;
        validate_digest("test.sha256", sha256.as_str())?;
        Ok(FrozenTestArtifact { repository_role, path, sha256: to_lowercase(sha256.as_str()) })
    }
}

impl Keyed for FrozenTestArtifact {
    open spec fn key(&self) -> Key {
        seq![self.repository_role@, self.path@, self.sha256@]
    }

    fn order_by_key(&self, other: &Self) -> (r: Order) {
        proof {
            reveal_with_fuel(key_order, 4);
            let a = self.key();
            let b = other.key();
            assert(a.drop_first() =~= seq![a[1], a[2]]);
            assert(b.drop_first() =~= seq![b[1], b[2]]);
            assert(a.drop_first().drop_first() =~= seq![a[2]]);
            assert(b.drop_first().drop_first() =~= seq![b[2]]);
        }
        match order_texts(self.repository_role.as_str(), other.repository_role.as_str()) {
            Order::Equal => match order_texts(self.path.as_str(), other.path.as_str()) {
                Order::Equal => order_texts(self.sha256.as_str(), other.sha256.as_str()),
                o => o,
            },
            o => o,
        }
    }

    fn primary(&self) -> (r: &str) {
        self.repository_role.as_str()
    }
}

/// The JSON object of an artifact: repository role, path and digest.
pub open spec fn artifact_json(k: Key) -> Value {
    empty_obj().with("path"@, Value::Str(k[1])).with("repository_role"@, Value::Str(k[0])).with("sha256"@, Value::Str(k[2]))
}

impl ToJson for FrozenTestArtifact {
    open spec fn json(&self) -> Value {
        artifact_json(self.key())
    }

    fn to_json(&self) -> (r: Json) {
        let mut out = Json::obj();
        out.set("path", Json::Str(self.path.clone()));
        out.set("repository_role", Json::Str(self.repository_role.clone()));
        out.set("sha256", Json::Str(self.sha256.clone()));
        out
    }
}

/// The first of two neighbours with the same role and path.
pub open spec fn repeated_artifact(s: Seq<Key>) -> Option<Key>
    decreases s.len(),
{
    if s.len() < 2 {
        None
    } else if s[0][0] == s[1][0] && s[0][1] == s[1][1] {
        Some(s[0])
    } else {
        repeated_artifact(s.drop_first())
    }
}

fn find_repeated_artifact(artifacts: &[FrozenTestArtifact]) -> (r: Option<&FrozenTestArtifact>)
    ensures
        match r {
            Some(a) => repeated_artifact(keys(artifacts@)) == Some(a.key()),
            None => repeated_artifact(keys(artifacts@)) is None,
        },
{
    let ghost all = keys(artifacts@);
    let n: usize = artifacts.len();
    let mut i: usize = 0;
    assert(all.skip(0) =~= all);
    while n - i >= 2
        invariant
            i <= n == artifacts@.len(),
            all == keys(artifacts@),
            repeated_artifact(all) == repeated_artifact(all.skip(i as int)),
        decreases n - i,
    {
        proof {
            assert(all.skip(i as int)[0] == artifacts@[i as int].key());
            assert(all.skip(i as int)[1] == artifacts@[i + 1].key());
            assert(all.skip(i as int).drop_first() =~= all.skip(i + 1));
        }
        if same_text(artifacts[i].repository_role.as_str(), artifacts[i + 1].repository_role.as_str()) && same_text(
            artifacts[i].path.as_str(),
            artifacts[i + 1].path.as_str(),
        ) {
            return Some(&artifacts[i]);
        }
        i += 1;
    }
    None
}

// ---------------------------------------------------------------------------
// Specification, graph and task
// ---------------------------------------------------------------------------

/// Specification and graph are intact and belong together.
pub open spec fn check_context(spec: FrozenAutopilotSpec, dag: AutopilotTaskDag) -> Result<(), FeatureFailure> {
    if !spec.is_intact() {
        Err(FeatureRegimeError::InvalidSpec(spec.mismatch().message()))
    } else if !dag.is_intact() {
        Err(FeatureRegimeError::InvalidDag(dag.mismatch().message()))
    } else if dag@.spec_sha256 != spec@.spec_sha256 {
        Err(FeatureRegimeError::ManifestContextMismatch)
    } else {
        Ok(())
    }
}

fn verify_spec_and_dag(spec: &FrozenAutopilotSpec, dag: &AutopilotTaskDag) -> (r: Result<(), FeatureRegimeError>)
    ensures
        outcome(r) == check_context(*spec, *dag),
{
    match spec.verify() {
        Ok(_) => {},
        Err(e) => {
            return Err(FeatureRegimeError::InvalidSpec(e.to_string()));
        },
    }
    match dag.verify() {
        Ok(_) => {},
        Err(e) => {
            return Err(FeatureRegimeError::InvalidDag(e.to_string()));
        },
    }
    if !same_text(dag.spec_sha256(), spec.spec_sha256()) {
        return Err(FeatureRegimeError::ManifestContextMismatch);
    }
    Ok(())
}

pub open spec fn check_feature_task(task: AutopilotTask, role: &'static str) -> Result<(), FeatureFailure> {
    if task@.regime is Feature {
        Ok(())
    } else {
        Err(FeatureRegimeError::NonFeatureTask { role, task_id: task@.id })
    }
}

fn require_feature_task(task: &AutopilotTask, role: &'static str) -> (r: Result<(), FeatureRegimeError>)
    ensures
        outcome(r) == check_feature_task(*task, role),
{
    match task.regime() {
        TaskRegime::Feature => Ok(()),
        _ => Err(FeatureRegimeError::NonFeatureTask { role, task_id: task.id.clone() }),
    }
}

// ---------------------------------------------------------------------------
// Frozen tests
// ---------------------------------------------------------------------------

/// Approved tests at exact bytes, produced by a test task.
#[derive(Debug, Clone, PartialEq, Eq)]
pub struct FrozenFeatureTests {
    pub(crate) schema_version: u64,
    pub(crate) spec_sha256: String,
    pub(crate) dag_sha256: String,
    pub(crate) test_task_id: String,
    pub(crate) approval: FeatureTestApproval,
    pub(crate) artifacts: Vec<FrozenTestArtifact>,
    pub(crate) manifest_sha256: String,
}

/// The contents over mathematical sequences.
pub ghost struct FrozenTestsRecord {
    pub schema_version: u64,
    pub spec_sha256: Seq<char>,
    pub dag_sha256: Seq<char>,
    pub test_task_id: Seq<char>,
    pub approval: FeatureTestApproval,
    pub artifacts: Seq<FrozenTestArtifact>,
    pub manifest_sha256: Seq<char>,
}

impl FrozenFeatureTests {
    pub open(crate) spec fn view(&self) -> FrozenTestsRecord {
        FrozenTestsRecord {
            schema_version: self.schema_version,
            spec_sha256: self.spec_sha256@,
            dag_sha256: self.dag_sha256@,
            test_task_id: self.test_task_id@,
            approval: self.approval,
            artifacts: self.artifacts@,
            manifest_sha256: self.manifest_sha256@,
        }
    }
}

/// The artifact lies inside the repositories and the edit scope of the task.
pub open spec fn check_placed(task: AutopilotTask, k: Key) -> Result<(), FeatureFailure> {
    if !texts(task@.repository_roles).contains(k[0]) {
        Err(FeatureRegimeError::TestArtifactOutsideTaskRepositories { repository_role: k[0], path: k[1] })
    } else if !allows_path(task, k[0], k[1]) {
        Err(FeatureRegimeError::TestArtifactOutsideEditScope { repository_role: k[0], path: k[1] })
    } else {
        Ok(())
    }
}

/// The checks on the artifacts of a test task, in order of their keys.
pub open spec fn check_artifacts(task: AutopilotTask, artifacts: Seq<Key>) -> Result<(), FeatureFailure> {
    if artifacts.len() == 0 {
        Err(FeatureRegimeError::EmptyField("test_artifacts"))
    } else {
        match repeated_artifact(artifacts) {
            Some(k) => Err(FeatureRegimeError::DuplicateTestArtifact { repository_role: k[0], path: k[1] }),
            None => check_all(artifacts, |k: Key| check_placed(task, k)),
        }
    }
}

/// Whether artifacts can be frozen as the tests of a task, and why not.
pub open spec fn check_tests(
    spec: FrozenAutopilotSpec,
    dag: AutopilotTaskDag,
    test_task_id: Seq<char>,
    artifacts: Seq<Key>,
) -> Result<(), FeatureFailure> {
    and_then(
        check_context(spec, dag),
        and_then(
            check_identifier("test_task_id", test_task_id),
            match find_task(dag@.tasks, test_task_id) {
                None => Err(FeatureRegimeError::UnknownTask(test_task_id)),
                Some(task) => and_then(check_feature_task(task, "test"), check_artifacts(task, sorted(artifacts))),
            },
        ),
    )
}

fn validate_placed(task: &AutopilotTask, artifacts: &[FrozenTestArtifact]) -> (r: Result<(), FeatureRegimeError>)
    ensures
        outcome(r) == check_all(keys(artifacts@), |k: Key| check_placed(*task, k)),
{
    let ghost all = keys(artifacts@);
    let ghost check = |k: Key| check_placed(*task, k);
    let mut i: usize = 0;
    assert(all.skip(0) =~= all);
    while i < artifacts.len()
        invariant
            i <= artifacts@.len(),
            all == keys(artifacts@),
            check == (|k: Key| check_placed(*task, k)),
            check_all(all, check) == check_all(all.skip(i as int), check),
        decreases artifacts@.len() - i,
    {
        proof {
            lemma_check_step(all, i as int, check);
            assert(all[i as int] == artifacts@[i as int].key());
        }
        let artifact = &artifacts[i];
        if !contains_text(task.repository_roles(), artifact.repository_role.as_str()) {
            return Err(
                FeatureRegimeError::TestArtifactOutsideTaskRepositories {
                    repository_role: artifact.repository_role.clone(),
                    path: artifact.path.clone(),
                },
            );
        }
        if !task_allows_path(task, artifact.repository_role.as_str(), artifact.path.as_str()) {
            return Err(
                FeatureRegimeError::TestArtifactOutsideEditScope {
                    repository_role: artifact.repository_role.clone(),
                    path: artifact.path.clone(),
                },
            );
        }
        i += 1;
    }
    Ok(())
}

/// The artifacts of one repository role, in order.
pub open spec fn of_role(artifacts: Seq<FrozenTestArtifact>, role: Seq<char>) -> Seq<FrozenTestArtifact>
    decreases artifacts.len(),
{
    if artifacts.len() == 0 {
        Seq::empty()
    } else if artifacts.last().repository_role@ == role {
        of_role(artifacts.drop_last(), role).push(artifacts.last())
    } else {
        of_role(artifacts.drop_last(), role)
    }
}

/// What was read from a workspace for a frozen test: its bytes, or why it could not be
/// read.
pub open spec fn check_reading(artifact: FrozenTestArtifact, reading: Result<Vec<u8>, String>) -> Result<
    (),
    FeatureFailure,
> {
    match reading {
        Err(message) => Err(
            FeatureRegimeError::FrozenTestRead {
                repository_role: artifact.repository_role@,
                path: artifact.path@,
                message: message@,
            },
        ),
        Ok(bytes) => if digest_hex(bytes@) == artifact.sha256@ {
            Ok(())
        } else {
            Err(
                FeatureRegimeError::FrozenTestContentMismatch {
                    repository_role: artifact.repository_role@,
                    path: artifact.path@,
                    expected: artifact.sha256@,
                    actual: digest_hex(bytes@),
                },
            )
        },
    }
}

fn validate_reading(artifact: &FrozenTestArtifact, reading: &Result<Vec<u8>, String>) -> (r: Result<(), FeatureRegimeError>)
    ensures
        outcome(r) == check_reading(*artifact, *reading),
{
    match reading {
        Err(message) => Err(
            FeatureRegimeError::FrozenTestRead {
                repository_role: artifact.repository_role.clone(),
                path: artifact.path.clone(),
                message: message.clone(),
            },
        ),
        Ok(bytes) => {
            let actual = sha256_hex(bytes.as_slice());
            if !same_text(actual.as_str(), artifact.sha256.as_str()) {
                return Err(
                    FeatureRegimeError::FrozenTestContentMismatch {
                        repository_role: artifact.repository_role.clone(),
                        path: artifact.path.clone(),
                        expected: artifact.sha256.clone(),
                        actual,
                    },
                );
            }
            Ok(())
        },
    }
}

/// The readings from position `i` on.
pub open spec fn check_readings(
    artifacts: Seq<FrozenTestArtifact>,
    readings: Seq<Result<Vec<u8>, String>>,
    i: int,
) -> Result<(), FeatureFailure>
    decreases artifacts.len() - i,
{
    if i < 0 || i >= artifacts.len() {
        Ok(())
    } else {
        and_then(check_reading(artifacts[i], readings[i]), check_readings(artifacts, readings, i + 1))
    }
}

/// Checks the readings of the tests of a role and counts them.
fn validate_readings(
    artifacts: &[FrozenTestArtifact],
    repository_role: &str,
    readings: &[Result<Vec<u8>, String>],
) -> (r: Result<usize, FeatureRegimeError>)
    requires
        readings@.len() == of_role(artifacts@, repository_role@).len(),
    ensures
        match r {
            Ok(matched) => {
                &&& check_readings(of_role(artifacts@, repository_role@), readings@, 0) is Ok
                &&& matched == of_role(artifacts@, repository_role@).len()
            },
            Err(e) => check_readings(of_role(artifacts@, repository_role@), readings@, 0) == Err::<(), FeatureFailure>(e@),
        },
{
    let ghost all = artifacts@;
    let ghost frozen = of_role(all, repository_role@);
    let mut matched: usize = 0;
    let mut i: usize = 0;
    assert(all.take(0).len() == 0);
    while i < artifacts.len()
        invariant
            i <= artifacts@.len(),
            all == artifacts@,
            frozen == of_role(all, repository_role@),
            readings@.len() == frozen.len(),
            matched == of_role(all.take(i as int), repository_role@).len(),
            matched <= frozen.len(),
            check_readings(frozen, readings@, 0) == check_readings(frozen, readings@, matched as int),
        decreases artifacts@.len() - i,
    {
        proof {
            assert(all.take(i + 1).drop_last() =~= all.take(i as int));
            assert(all.take(i + 1).last() == all[i as int]);
        }
        if same_text(artifacts[i].repository_role.as_str(), repository_role) {
            proof {
                lemma_of_role_prefix(all, repository_role@, i + 1);
                let front = of_role(all.take(i + 1), repository_role@);
                assert(front[matched as int] == all[i as int]);
                assert(frozen[matched as int] == all[i as int]);
            }
            validate_reading(&artifacts[i], &readings[matched])?;
            matched += 1;
        }
        i += 1;
    }
    assert(all.take(i as int) =~= all);
    Ok(matched)
}

impl FrozenFeatureTests {
    /// Everything but the identity, as JSON.
    pub open spec fn unsigned(&self) -> Value {
        empty_obj().with("approval"@, self@.approval.json()).with("artifacts"@, array_json(self@.artifacts)).with(
            "dag_sha256"@,
            Value::Str(self@.dag_sha256),
        ).with("schema_version"@, Value::Num(decimal(self@.schema_version as nat))).with(
            "spec_sha256"@,
            Value::Str(self@.spec_sha256),
        ).with("test_task_id"@, Value::Str(self@.test_task_id))
    }

    /// The digest of everything but the identity.
    pub open spec fn identity(&self) -> Seq<char> {
        digest_hex(encode_utf8(print(self.unsigned())))
    }

    /// The recorded identity is the digest of the contents.
    pub open spec fn is_intact(&self) -> bool {
        self@.manifest_sha256 == self.identity()
    }

    /// The failure reported for a manifest that is not intact.
    pub open spec fn mismatch(&self) -> FeatureFailure {
        FeatureRegimeError::FrozenManifestHashMismatch { expected: self@.manifest_sha256, actual: self.identity() }
    }

    pub open spec fn check_intact(&self) -> Result<(), FeatureFailure> {
        if self.is_intact() {
            Ok(())
        } else {
            Err(self.mismatch())
        }
    }

    /// Whether the frozen tests stand in a workspace as they were approved. The
    /// readings are those of the tests of the role, in order.
    pub open spec fn check_workspace(&self, role: Seq<char>, readings: Seq<Result<Vec<u8>, String>>) -> Result<
        (),
        FeatureFailure,
    > {
        let frozen = of_role(self@.artifacts, role);
        and_then(
            self.check_intact(),
            and_then(
                check_readings(frozen, readings, 0),
                if frozen.len() == 0 {
                    Err(FeatureRegimeError::UnknownFrozenTestRole(role))
                } else {
                    Ok(())
                },
            ),
        )
    }

    /// Freezes the tests of a task.
    pub fn freeze(
        spec: &FrozenAutopilotSpec,
        dag: &AutopilotTaskDag,
        test_task_id: impl IntoText,
        approval: FeatureTestApproval,
        artifacts: Vec<FrozenTestArtifact>,
    ) -> (r: Result<Self, FeatureRegimeError>)
        ensures
            match r {
                Ok(m) => {
                    &&& check_tests(*spec, *dag, test_task_id.text(), keys(artifacts@)) is Ok
                    &&& m@.schema_version == FEATURE_TEST_MANIFEST_SCHEMA_VERSION
                    &&& m@.spec_sha256 == spec@.spec_sha256
                    &&& m@.dag_sha256 == dag@.dag_sha256
                    &&& m@.test_task_id == test_task_id.text()
                    &&& m@.approval == approval
                    &&& keys(m@.artifacts) == sorted(keys(artifacts@))
                    &&& m.is_intact()
                },
                Err(e) => check_tests(*spec, *dag, test_task_id.text(), keys(artifacts@)) == Err::<(), FeatureFailure>(e@),
            },
    {
        verify_spec_and_dag(spec, dag)?;
        let test_task_id = test_task_id.into_text();
        validate_identifier("test_task_id", test_task_id.as_str())?;
        let task = match dag.task(test_task_id.as_str()) {
            Some(task) => task,
            None => {
                return Err(FeatureRegimeError::UnknownTask(test_task_id));
            },
        };
        require_feature_task(task, "test")?;
        let artifacts = sort_records(artifacts);
        if artifacts.len() == 0 {
            return Err(FeatureRegimeError::EmptyField("test_artifacts"));
        }
        match find_repeated_artifact(artifacts.as_slice()) {
            Some(a) => {
                return Err(
                    FeatureRegimeError::DuplicateTestArtifact {
                        repository_role: a.repository_role.clone(),
                        path: a.path.clone(),
                    },
                );
            },
            None => {},
        }
        validate_placed(task, artifacts.as_slice())?;
        let mut manifest = FrozenFeatureTests {
            schema_version: FEATURE_TEST_MANIFEST_SCHEMA_VERSION,
            spec_sha256: spec.spec_sha256.clone(),
            dag_sha256: dag.dag_sha256.clone(),
            test_task_id,
            approval,
            artifacts,
            manifest_sha256: String::new(),
        };
        let identity = manifest.compute_sha256();
        manifest.manifest_sha256 = identity;
        Ok(manifest)
    }

    pub fn schema_version(&self) -> (r: u64)
        ensures
            r == self@.schema_version,
    {
        self.schema_version
    }

    pub fn spec_sha256(&self) -> (r: &str)
        ensures
            r@ == self@.spec_sha256,
    {
        self.spec_sha256.as_str()
    }

    pub fn dag_sha256(&self) -> (r: &str)
        ensures
            r@ == self@.dag_sha256,
    {
        self.dag_sha256.as_str()
    }

    pub fn test_task_id(&self) -> (r: &str)
        ensures
            r@ == self@.test_task_id,
    {
        self.test_task_id.as_str()
    }

    pub fn approval(&self) -> (r: &FeatureTestApproval)
        ensures
            *r == self@.approval,
    {
        &self.approval
    }

    pub fn artifacts(&self) -> (r: &[FrozenTestArtifact])
        ensures
            r@ == self@.artifacts,
    {
        self.artifacts.as_slice()
    }

    pub fn manifest_sha256(&self) -> (r: &str)
        ensures
            r@ == self@.manifest_sha256,
    {
        self.manifest_sha256.as_str()
    }

    /// Whether the recorded identity belongs to the contents.
    pub fn verify(&self) -> (r: Result<(), FeatureRegimeError>)
        ensures
            outcome(r) == self.check_intact(),
    {
        let actual = self.compute_sha256();
        if !same_text(actual.as_str(), self.manifest_sha256.as_str()) {
            return Err(
                FeatureRegimeError::FrozenManifestHashMismatch { expected: self.manifest_sha256.clone(), actual },
            );
        }
        Ok(())
    }

    /// The paths of the frozen tests of a role, in the order in which
    /// `verify_workspace` takes what was read at them.
    pub fn frozen_paths(&self, repository_role: &str) -> (r: Vec<String>)
        ensures
            r@.len() == of_role(self@.artifacts, repository_role@).len(),
            forall|i: int|
                0 <= i < r@.len() ==> (#[trigger] r@[i])@ == of_role(self@.artifacts, repository_role@)[i].path@,
    {
        let ghost all = self.artifacts@;
        let mut out: Vec<String> = Vec::new();
        let mut i: usize = 0;
        assert(all.take(0).len() == 0);
        while i < self.artifacts.len()
            invariant
                i <= self.artifacts@.len(),
                all == self.artifacts@,
                out@.len() == of_role(all.take(i as int), repository_role@).len(),
                forall|j: int|
                    0 <= j < out@.len() ==> (#[trigger] out@[j])@ == of_role(all.take(i as int), repository_role@)[j].path@,
            decreases self.artifacts@.len() - i,
        {
            proof {
                assert(all.take(i + 1).drop_last() =~= all.take(i as int));
                assert(all.take(i + 1).last() == all[i as int]);
            }
            if same_text(self.artifacts[i].repository_role.as_str(), repository_role) {
                out.push(self.artifacts[i].path.clone());
            }
            i += 1;
        }
        assert(all.take(i as int) =~= all);
        out
    }

    /// Whether the frozen tests of a role stand in a workspace as they were approved.
    /// The readings are the bytes found at `frozen_paths`, or why they could not be
    /// read.
    pub fn verify_workspace(&self, repository_role: &str, readings: &[Result<Vec<u8>, String>]) -> (r: Result<
        (),
        FeatureRegimeError,
    >)
        requires
            readings@.len() == of_role(self@.artifacts, repository_role@).len(),
        ensures
            outcome(r) == self.check_workspace(repository_role@, readings@),
    {
        self.verify()?;
        let matched = validate_readings(self.artifacts.as_slice(), repository_role, readings)?;
        if matched == 0 {
            return Err(FeatureRegimeError::UnknownFrozenTestRole(repository_role.to_owned()));
        }
        Ok(())
    }

    pub fn to_json_string(&self) -> (r: String)
        ensures
            r@ == print(self.unsigned().with("manifest_sha256"@, Value::Str(self@.manifest_sha256))),
    {
        let mut root = self.unsigned_json();
        root.set("manifest_sha256", Json::Str(self.manifest_sha256.clone()));
        root.to_string()
    }

    fn compute_sha256(&self) -> (r: String)
        ensures
            r@ == self.identity(),
    {
        sha256_hex(self.unsigned_json().to_string().as_str().as_bytes())
    }

    fn unsigned_json(&self) -> (r: Json)
        ensures
            r@ == self.unsigned(),
    {
        let mut root = Json::obj();
        root.set("approval", self.approval.to_json());
        root.set("artifacts", json_array(self.artifacts.as_slice()));
        root.set("dag_sha256", Json::Str(self.dag_sha256.clone()));
        root.set("schema_version", Json::num(self.schema_version));
        root.set("spec_sha256", Json::Str(self.spec_sha256.clone()));
        root.set("test_task_id", Json::Str(self.test_task_id.clone()));
        root
    }
}

proof fn lemma_of_role_prefix(artifacts: Seq<FrozenTestArtifact>, role: Seq<char>, n: int)
    requires
        0 <= n <= artifacts.len(),
    ensures
        of_role(artifacts.take(n), role).len() <= of_role(artifacts, role).len(),
        forall|k: int|
            0 <= k < of_role(artifacts.take(n), role).len() ==> #[trigger] of_role(artifacts.take(n), role)[k] == of_role(
                artifacts,
                role,
            )[k],
    decreases artifacts.len() - n,
{
    if n < artifacts.len() {
        assert(artifacts.take(n + 1).drop_last() =~= artifacts.take(n));
        lemma_of_role_prefix(artifacts, role, n + 1);
        let short = of_role(artifacts.take(n), role);
        let long = of_role(artifacts.take(n + 1), role);
        assert forall|k: int| 0 <= k < short.len() implies #[trigger] short[k] == of_role(artifacts, role)[k] by {
            assert(short[k] == long[k]);
        }
    } else {
        assert(artifacts.take(n) =~= artifacts);
    }
}

// ---------------------------------------------------------------------------
// The implementation contract
// ---------------------------------------------------------------------------

/// Binds an implementation task to its approved test task and test bytes.
#[derive(Debug, Clone, PartialEq, Eq)]
pub struct FeatureImplementationContract {
    pub(crate) schema_version: u64,
    pub(crate) spec_sha256: String,
    pub(crate) dag_sha256: String,
    pub(crate) frozen_tests_sha256: String,
    pub(crate) test_task_id: String,
    pub(crate) implementation_task_id: String,
    pub(crate) contract_sha256: String,
}

/// The contents over mathematical sequences.
pub ghost struct ContractRecord {
    pub schema_version: u64,
    pub spec_sha256: Seq<char>,
    pub dag_sha256: Seq<char>,
    pub frozen_tests_sha256: Seq<char>,
    pub test_task_id: Seq<char>,
    pub implementation_task_id: Seq<char>,
    pub contract_sha256: Seq<char>,
}

impl FeatureImplementationContract {
    pub open(crate) spec fn view(&self) -> ContractRecord {
        ContractRecord {
            schema_version: self.schema_version,
            spec_sha256: self.spec_sha256@,
            dag_sha256: self.dag_sha256@,
            frozen_tests_sha256: self.frozen_tests_sha256@,
            test_task_id: self.test_task_id@,
            implementation_task_id: self.implementation_task_id@,
            contract_sha256: self.contract_sha256@,
        }
    }
}

/// A path prefix that the task may edit does not cover a frozen test.
pub open spec fn check_uncovered(
    task_id: Seq<char>,
    role: Seq<char>,
    prefix: Seq<char>,
    artifact: FrozenTestArtifact,
) -> Result<(), FeatureFailure> {
    if artifact.repository_role@ == role && is_within(artifact.path@, prefix) {
        Err(
            FeatureRegimeError::ImplementationAllowanceTouchesFrozenTest {
                implementation_task_id: task_id,
                repository_role: role,
                frozen_path: artifact.path@,
                allowed_prefix: prefix,
            },
        )
    } else {
        Ok(())
    }
}

pub open spec fn check_prefix_uncovered(
    task_id: Seq<char>,
    role: Seq<char>,
    prefix: Seq<char>,
    artifacts: Seq<FrozenTestArtifact>,
) -> Result<(), FeatureFailure> {
    check_all(artifacts, |a: FrozenTestArtifact| check_uncovered(task_id, role, prefix, a))
}

pub open spec fn check_allowance_uncovered(
    task_id: Seq<char>,
    allowance: TaskEditAllowance,
    artifacts: Seq<FrozenTestArtifact>,
) -> Result<(), FeatureFailure> {
    check_all(allowance.prefixes(), |p: Seq<char>| check_prefix_uncovered(task_id, allowance.role(), p, artifacts))
}

/// No allowance of the task covers a frozen test.
pub open spec fn check_task_uncovered(task: AutopilotTask, artifacts: Seq<FrozenTestArtifact>) -> Result<(), FeatureFailure> {
    check_all(task@.edit_allowances, |a: TaskEditAllowance| check_allowance_uncovered(task@.id, a, artifacts))
}

/// The checks on the implementation task itself.
pub open spec fn check_implementation(task: AutopilotTask, tests: FrozenFeatureTests) -> Result<(), FeatureFailure> {
    and_then(
        check_feature_task(task, "implementation"),
        if task@.edit_allowances.len() == 0 {
            Err(FeatureRegimeError::ImplementationHasNoEditScope(task@.id))
        } else if !texts(task@.dependencies).contains(tests@.test_task_id) {
            Err(
                FeatureRegimeError::ImplementationDoesNotDependOnTests {
                    implementation_task_id: task@.id,
                    test_task_id: tests@.test_task_id,
                },
            )
        } else {
            check_task_uncovered(task, tests@.artifacts)
        },
    )
}

/// Whether a task can implement against frozen tests, and why not.
pub open spec fn check_contract(
    spec: FrozenAutopilotSpec,
    dag: AutopilotTaskDag,
    tests: FrozenFeatureTests,
    implementation_task_id: Seq<char>,
) -> Result<(), FeatureFailure> {
    and_then(
        check_context(spec, dag),
        and_then(
            tests.check_intact(),
            if tests@.spec_sha256 != spec@.spec_sha256 || tests@.dag_sha256 != dag@.dag_sha256 {
                Err(FeatureRegimeError::ManifestContextMismatch)
            } else {
                and_then(
                    check_identifier("implementation_task_id", implementation_task_id),
                    match find_task(dag@.tasks, implementation_task_id) {
                        None => Err(FeatureRegimeError::UnknownTask(implementation_task_id)),
                        Some(task) => check_implementation(task, tests),
                    },
                )
            },
        ),
    )
}

fn validate_prefix(task_id: &str, role: &str, prefix: &str, artifacts: &[FrozenTestArtifact]) -> (r: Result<
    (),
    FeatureRegimeError,
>)
    ensures
        outcome(r) == check_prefix_uncovered(task_id@, role@, prefix@, artifacts@),
{
    let ghost all = artifacts@;
    let ghost check = |a: FrozenTestArtifact| check_uncovered(task_id@, role@, prefix@, a);
    let mut i: usize = 0;
    assert(all.skip(0) =~= all);
    while i < artifacts.len()
        invariant
            i <= artifacts@.len(),
            all == artifacts@,
            check == (|a: FrozenTestArtifact| check_uncovered(task_id@, role@, prefix@, a)),
            check_all(all, check) == check_all(all.skip(i as int), check),
        decreases artifacts@.len() - i,
    {
        proof {
            lemma_check_step(all, i as int, check);
        }
        if same_text(artifacts[i].repository_role.as_str(), role) && path_is_within(artifacts[i].path.as_str(), prefix) {
            return Err(
                FeatureRegimeError::ImplementationAllowanceTouchesFrozenTest {
                    implementation_task_id: task_id.to_owned(),
                    repository_role: artifacts[i].repository_role.clone(),
                    frozen_path: artifacts[i].path.clone(),
                    allowed_prefix: prefix.to_owned(),
                },
            );
        }
        i += 1;
    }
    Ok(())
}

fn validate_allowance(task_id: &str, allowance: &TaskEditAllowance, artifacts: &[FrozenTestArtifact]) -> (r: Result<
    (),
    FeatureRegimeError,
>)
    ensures
        outcome(r) == check_allowance_uncovered(task_id@, *allowance, artifacts@),
{
    let prefixes = allowance.allowed_path_prefixes();
    let ghost all = allowance.prefixes();
    let ghost check = |p: Seq<char>| check_prefix_uncovered(task_id@, allowance.role(), p, artifacts@);
    let mut i: usize = 0;
    assert(all.skip(0) =~= all);
    while i < prefixes.len()
        invariant
            i <= prefixes@.len(),
            all == allowance.prefixes(),
            all == texts(prefixes@),
            check == (|p: Seq<char>| check_prefix_uncovered(task_id@, allowance.role(), p, artifacts@)),
            check_all(all, check) == check_all(all.skip(i as int), check),
        decreases prefixes@.len() - i,
    {
        proof {
            lemma_check_step(all, i as int, check);
        }
        validate_prefix(task_id, allowance.repository_role(), prefixes[i].as_str(), artifacts)?;
        i += 1;
    }
    Ok(())
}

fn validate_allowances(task: &AutopilotTask, artifacts: &[FrozenTestArtifact]) -> (r: Result<(), FeatureRegimeError>)
    ensures
        outcome(r) == check_task_uncovered(*task, artifacts@),
{
    let ghost all = task.edit_allowances@;
    let ghost check = |a: TaskEditAllowance| check_allowance_uncovered(task.id@, a, artifacts@);
    let mut i: usize = 0;
    assert(all.skip(0) =~= all);
    while i < task.edit_allowances.len()
        invariant
            i <= task.edit_allowances@.len(),
            all == task.edit_allowances@,
            check == (|a: TaskEditAllowance| check_allowance_uncovered(task.id@, a, artifacts@)),
            check_all(all, check) == check_all(all.skip(i as int), check),
        decreases task.edit_allowances@.len() - i,
    {
        proof {
            lemma_check_step(all, i as int, check);
        }
        validate_allowance(task.id.as_str(), &task.edit_allowances[i], artifacts)?;
        i += 1;
    }
    Ok(())
}

fn validate_implementation(task: &AutopilotTask, tests: &FrozenFeatureTests) -> (r: Result<(), FeatureRegimeError>)
    ensures
        outcome(r) == check_implementation(*task, *tests),
{
    require_feature_task(task, "implementation")?;
    if task.edit_allowances.len() == 0 {
        return Err(FeatureRegimeError::ImplementationHasNoEditScope(task.id.clone()));
    }
    if !contains_text(task.dependencies(), tests.test_task_id()) {
        return Err(
            FeatureRegimeError::ImplementationDoesNotDependOnTests {
                implementation_task_id: task.id.clone(),
                test_task_id: tests.test_task_id.clone(),
            },
        );
    }
    validate_allowances(task, tests.artifacts())
}

/// The path is that of a frozen test of the role.
pub open spec fn is_frozen(artifacts: Seq<FrozenTestArtifact>, role: Seq<char>, path: Seq<char>) -> bool {
    exists|i: int|
        0 <= i < artifacts.len() && (#[trigger] artifacts[i]).repository_role@ == role && artifacts[i].path@ == path
}

fn path_is_frozen(artifacts: &[FrozenTestArtifact], role: &str, path: &str) -> (r: bool)
    ensures
        r == is_frozen(artifacts@, role@, path@),
{
    let mut i: usize = 0;
    while i < artifacts.len()
        invariant
            i <= artifacts@.len(),
            forall|j: int|
                0 <= j < i ==> !((#[trigger] artifacts@[j]).repository_role@ == role@ && artifacts@[j].path@ == path@),
        decreases artifacts@.len() - i,
    {
        if same_text(artifacts[i].repository_role.as_str(), role) && same_text(artifacts[i].path.as_str(), path) {
            return true;
        }
        i += 1;
    }
    false
}

/// One operation of a candidate: not on a frozen test, and within an allowance.
pub open spec fn check_operation(
    task: AutopilotTask,
    artifacts: Seq<FrozenTestArtifact>,
    role: Seq<char>,
    operation: FileOperation,
) -> Result<(), FeatureFailure> {
    if is_frozen(artifacts, role, operation.target()) {
        Err(FeatureRegimeError::CandidateTouchesFrozenTest { repository_role: role, path: operation.target() })
    } else if !permits(task, role, operation.target(), operation.operation()) {
        Err(
            FeatureRegimeError::CandidateOperationOutsideAllowance {
                repository_role: role,
                path: operation.target(),
                operation: operation.operation(),
            },
        )
    } else {
        Ok(())
    }
}

/// The checks on a candidate against its task.
pub open spec fn check_task_candidate(
    task: AutopilotTask,
    artifacts: Seq<FrozenTestArtifact>,
    role: Seq<char>,
    operations: Seq<FileOperation>,
) -> Result<(), FeatureFailure> {
    if !texts(task@.repository_roles).contains(role) {
        Err(FeatureRegimeError::RepositoryOutsideImplementationTask(role))
    } else if !may_edit(task, role) {
        Err(FeatureRegimeError::RepositoryIsReadOnly(role))
    } else {
        check_all(operations, |o: FileOperation| check_operation(task, artifacts, role, o))
    }
}

fn validate_task_candidate(
    task: &AutopilotTask,
    artifacts: &[FrozenTestArtifact],
    repository_role: &str,
    operations: &[FileOperation],
) -> (r: Result<(), FeatureRegimeError>)
    ensures
        outcome(r) == check_task_candidate(*task, artifacts@, repository_role@, operations@),
{
    if !contains_text(task.repository_roles(), repository_role) {
        return Err(FeatureRegimeError::RepositoryOutsideImplementationTask(repository_role.to_owned()));
    }
    if !task_may_edit(task, repository_role) {
        return Err(FeatureRegimeError::RepositoryIsReadOnly(repository_role.to_owned()));
    }
    let ghost all = operations@;
    let ghost check = |o: FileOperation| check_operation(*task, artifacts@, repository_role@, o);
    let mut i: usize = 0;
    assert(all.skip(0) =~= all);
    while i < operations.len()
        invariant
            i <= operations@.len(),
            all == operations@,
            texts(task.repository_roles@).contains(repository_role@),
            may_edit(*task, repository_role@),
            check == (|o: FileOperation| check_operation(*task, artifacts@, repository_role@, o)),
            check_all(all, check) == check_all(all.skip(i as int), check),
        decreases operations@.len() - i,
    {
        proof {
            lemma_check_step(all, i as int, check);
        }
        let operation = &operations[i];
        if path_is_frozen(artifacts, repository_role, operation.path()) {
            return Err(
                FeatureRegimeError::CandidateTouchesFrozenTest {
                    repository_role: repository_role.to_owned(),
                    path: operation.path().to_owned(),
                },
            );
        }
        if !task_permits(task, repository_role, operation.path(), operation.kind()) {
            return Err(
                FeatureRegimeError::CandidateOperationOutsideAllowance {
                    repository_role: repository_role.to_owned(),
                    path: operation.path().to_owned(),
                    operation: operation.kind(),
                },
            );
        }
        i += 1;
    }
    Ok(())
}

impl FeatureImplementationContract {
    /// Everything but the identity, as JSON.
    pub open spec fn unsigned(&self) -> Value {
        empty_obj().with("dag_sha256"@, Value::Str(self@.dag_sha256)).with(
            "frozen_tests_sha256"@,
            Value::Str(self@.frozen_tests_sha256),
        ).with("implementation_task_id"@, Value::Str(self@.implementation_task_id)).with(
            "schema_version"@,
            Value::Num(decimal(self@.schema_version as nat)),
        ).with("spec_sha256"@, Value::Str(self@.spec_sha256)).with("test_task_id"@, Value::Str(self@.test_task_id))
    }

    /// The digest of everything but the identity.
    pub open spec fn identity(&self) -> Seq<char> {
        digest_hex(encode_utf8(print(self.unsigned())))
    }

    /// The recorded identity is the digest of the contents.
    pub open spec fn is_intact(&self) -> bool {
        self@.contract_sha256 == self.identity()
    }

    pub open spec fn check_intact(&self) -> Result<(), FeatureFailure> {
        if self.is_intact() {
            Ok(())
        } else {
            Err(
                FeatureRegimeError::FeatureContractHashMismatch {
                    expected: self@.contract_sha256,
                    actual: self.identity(),
                },
            )
        }
    }

    /// Graph, tests and contract belong together.
    pub open spec fn is_about(&self, dag: AutopilotTaskDag, tests: FrozenFeatureTests) -> bool {
        &&& dag@.dag_sha256 == self@.dag_sha256
        &&& tests@.manifest_sha256 == self@.frozen_tests_sha256
        &&& tests@.test_task_id == self@.test_task_id
    }

    /// Whether a candidate may be evaluated, and why not.
    pub open spec fn check_candidate(
        &self,
        dag: AutopilotTaskDag,
        tests: FrozenFeatureTests,
        role: Seq<char>,
        patch_set: PatchSet,
    ) -> Result<(), FeatureFailure> {
        and_then(
            self.check_intact(),
            if !dag.is_intact() {
                Err(FeatureRegimeError::InvalidDag(dag.mismatch().message()))
            } else {
                and_then(
                    tests.check_intact(),
                    if !self.is_about(dag, tests) {
                        Err(FeatureRegimeError::FeatureContractContextMismatch)
                    } else {
                        match check_operations(patch_set.operations@) {
                            Err(e) => Err(FeatureRegimeError::PatchSet(e)),
                            Ok(_) => match find_task(dag@.tasks, self@.implementation_task_id) {
                                None => Err(FeatureRegimeError::UnknownTask(self@.implementation_task_id)),
                                Some(task) => check_task_candidate(task, tests@.artifacts, role, patch_set.operations@),
                            },
                        }
                    },
                )
            },
        )
    }

    pub fn new(
        spec: &FrozenAutopilotSpec,
        dag: &AutopilotTaskDag,
        frozen_tests: &FrozenFeatureTests,
        implementation_task_id: impl IntoText,
    ) -> (r: Result<Self, FeatureRegimeError>)
        ensures
            match r {
                Ok(c) => {
                    &&& check_contract(*spec, *dag, *frozen_tests, implementation_task_id.text()) is Ok
                    &&& c@.schema_version == FEATURE_IMPLEMENTATION_CONTRACT_SCHEMA_VERSION
                    &&& c@.spec_sha256 == spec@.spec_sha256
                    &&& c@.dag_sha256 == dag@.dag_sha256
                    &&& c@.frozen_tests_sha256 == frozen_tests@.manifest_sha256
                    &&& c@.test_task_id == frozen_tests@.test_task_id
                    &&& c@.implementation_task_id == implementation_task_id.text()
                    &&& c.is_intact()
                },
                Err(e) => check_contract(*spec, *dag, *frozen_tests, implementation_task_id.text()) == Err::<
                    (),
                    FeatureFailure,
                >(e@),
            },
    {
        verify_spec_and_dag(spec, dag)?;
        frozen_tests.verify()?;
        if !same_text(frozen_tests.spec_sha256(), spec.spec_sha256()) || !same_text(
            frozen_tests.dag_sha256(),
            dag.dag_sha256(),
        ) {
            return Err(FeatureRegimeError::ManifestContextMismatch);
        }
        let implementation_task_id = implementation_task_id.into_text();
        validate_identifier("implementation_task_id", implementation_task_id.as_str())?;
        let task = match dag.task(implementation_task_id.as_str()) {
            Some(task) => task,
            None => {
                return Err(FeatureRegimeError::UnknownTask(implementation_task_id));
            },
        };
        validate_implementation(task, frozen_tests)?;
        let mut contract = FeatureImplementationContract {
            schema_version: FEATURE_IMPLEMENTATION_CONTRACT_SCHEMA_VERSION,
            spec_sha256: spec.spec_sha256.clone(),
            dag_sha256: dag.dag_sha256.clone(),
            frozen_tests_sha256: frozen_tests.manifest_sha256.clone(),
            test_task_id: frozen_tests.test_task_id.clone(),
            implementation_task_id,
            contract_sha256: String::new(),
        };
        let identity = contract.compute_sha256();
        contract.contract_sha256 = identity;
        Ok(contract)
    }

    pub fn implementation_task_id(&self) -> (r: &str)
        ensures
            r@ == self@.implementation_task_id,
    {
        self.implementation_task_id.as_str()
    }

    pub fn frozen_tests_sha256(&self) -> (r: &str)
        ensures
            r@ == self@.frozen_tests_sha256,
    {
        self.frozen_tests_sha256.as_str()
    }

    pub fn contract_sha256(&self) -> (r: &str)
        ensures
            r@ == self@.contract_sha256,
    {
        self.contract_sha256.as_str()
    }

    /// Whether the recorded identity belongs to the contents.
    pub fn verify(&self) -> (r: Result<(), FeatureRegimeError>)
        ensures
            outcome(r) == self.check_intact(),
    {
        let actual = self.compute_sha256();
        if !same_text(actual.as_str(), self.contract_sha256.as_str()) {
            return Err(
                FeatureRegimeError::FeatureContractHashMismatch { expected: self.contract_sha256.clone(), actual },
            );
        }
        Ok(())
    }

    /// The guard that every candidate passes before it is evaluated.
    pub fn validate_patchset(
        &self,
        dag: &AutopilotTaskDag,
        frozen_tests: &FrozenFeatureTests,
        repository_role: &str,
        patch_set: &PatchSet,
    ) -> (r: Result<(), FeatureRegimeError>)
        ensures
            outcome(r) == self.check_candidate(*dag, *frozen_tests, repository_role@, *patch_set),
    {
        self.verify()?;
        match dag.verify() {
            Ok(_) => {},
            Err(e) => {
                return Err(FeatureRegimeError::InvalidDag(e.to_string()));
            },
        }
        frozen_tests.verify()?;
        if !same_text(dag.dag_sha256(), self.dag_sha256.as_str()) || !same_text(
            frozen_tests.manifest_sha256(),
            self.frozen_tests_sha256.as_str(),
        ) || !same_text(frozen_tests.test_task_id(), self.test_task_id.as_str()) {
            return Err(FeatureRegimeError::FeatureContractContextMismatch);
        }
        match patch_set.validate() {
            Ok(_) => {},
            Err(e) => {
                return Err(FeatureRegimeError::PatchSet(e));
            },
        }
        let task = match dag.task(self.implementation_task_id.as_str()) {
            Some(task) => task,
            None => {
                return Err(FeatureRegimeError::UnknownTask(self.implementation_task_id.clone()));
            },
        };
        validate_task_candidate(task, frozen_tests.artifacts(), repository_role, patch_set.operations())
    }

    fn compute_sha256(&self) -> (r: String)
        ensures
            r@ == self.identity(),
    {
        let mut root = Json::obj();
        root.set("dag_sha256", Json::Str(self.dag_sha256.clone()));
        root.set("frozen_tests_sha256", Json::Str(self.frozen_tests_sha256.clone()));
        root.set("implementation_task_id", Json::Str(self.implementation_task_id.clone()));
        root.set("schema_version", Json::num(self.schema_version));
        root.set("spec_sha256", Json::Str(self.spec_sha256.clone()));
        root.set("test_task_id", Json::Str(self.test_task_id.clone()));
        sha256_hex(root.to_string().as_str().as_bytes())
    }
}

// ---------------------------------------------------------------------------
// Laws
// ---------------------------------------------------------------------------

/// A candidate that passes the guard changes no frozen test: applied to any tree, it
/// leaves each frozen test of the repository exactly as it was.
pub proof fn law_accepted_candidate_keeps_frozen_tests(
    contract: FeatureImplementationContract,
    dag: AutopilotTaskDag,
    tests: FrozenFeatureTests,
    role: Seq<char>,
    patch_set: PatchSet,
    before: Map<Seq<char>, Seq<u8>>,
    after: Map<Seq<char>, Seq<u8>>,
    i: int,
)
    requires
        contract.check_candidate(dag, tests, role, patch_set) is Ok,
        patch_set.effect(before) == Ok::<Map<Seq<char>, Seq<u8>>, PatchFailure>(after),
        0 <= i < tests@.artifacts.len(),
        tests@.artifacts[i].repository_role@ == role,
    ensures
        after.dom().contains(tests@.artifacts[i].path@) == before.dom().contains(tests@.artifacts[i].path@),
        before.dom().contains(tests@.artifacts[i].path@) ==> after[tests@.artifacts[i].path@]
            == before[tests@.artifacts[i].path@],
{
    let path = tests.artifacts@[i].path@;
    let task = find_task(dag.tasks@, contract.implementation_task_id@)->0;
    let operations = patch_set.operations@;
    let check = |o: FileOperation| check_operation(task, tests.artifacts@, role, o);
    lemma_check_all(operations, check);
    if targets(operations).contains(path) {
        let k = choose|k: int| 0 <= k < targets(operations).len() && targets(operations)[k] == path;
        assert(operations[k].target() == path);
        assert(check(operations[k]) is Ok);
        assert(is_frozen(tests.artifacts@, role, path));
    }
    law_other_files_stay(operations, before, after, path);
}

/// A candidate that passes the guard stays inside the edit allowances of its task.
pub proof fn law_accepted_candidate_stays_in_scope(
    contract: FeatureImplementationContract,
    dag: AutopilotTaskDag,
    tests: FrozenFeatureTests,
    role: Seq<char>,
    patch_set: PatchSet,
    k: int,
)
    requires
        contract.check_candidate(dag, tests, role, patch_set) is Ok,
        0 <= k < patch_set.operations@.len(),
    ensures
        find_task(dag@.tasks, contract@.implementation_task_id) is Some,
        permits(
            find_task(dag@.tasks, contract@.implementation_task_id)->0,
            role,
            patch_set.operations@[k].target(),
            patch_set.operations@[k].operation(),
        ),
        !is_frozen(tests@.artifacts, role, patch_set.operations@[k].target()),
{
    let task = find_task(dag.tasks@, contract.implementation_task_id@)->0;
    let check = |o: FileOperation| check_operation(task, tests.artifacts@, role, o);
    lemma_check_all(patch_set.operations@, check);
    assert(check(patch_set.operations@[k]) is Ok);
}

/// A task that can implement against frozen tests depends on their test task, and none
/// of its edit allowances covers a frozen test.
pub proof fn law_contract_separates_tests_and_implementation(
    spec: FrozenAutopilotSpec,
    dag: AutopilotTaskDag,
    tests: FrozenFeatureTests,
    implementation_task_id: Seq<char>,
    i: int,
)
    requires
        check_contract(spec, dag, tests, implementation_task_id) is Ok,
        0 <= i < tests@.artifacts.len(),
    ensures
        find_task(dag@.tasks, implementation_task_id) is Some,
        texts(find_task(dag@.tasks, implementation_task_id)->0@.dependencies).contains(tests@.test_task_id),
        !allows_path(
            find_task(dag@.tasks, implementation_task_id)->0,
            tests@.artifacts[i].repository_role@,
            tests@.artifacts[i].path@,
        ),
{
    let task = find_task(dag.tasks@, implementation_task_id)->0;
    let artifacts = tests.artifacts@;
    let role = artifacts[i].repository_role@;
    let path = artifacts[i].path@;
    let of_allowance = |a: TaskEditAllowance| check_allowance_uncovered(task.id@, a, artifacts);
    lemma_check_all(task.edit_allowances@, of_allowance);
    if allows_path(task, role, path) {
        let j = choose|j: int|
            0 <= j < task.edit_allowances@.len() && (#[trigger] task.edit_allowances@[j]).role() == role && is_within_any(
                path,
                task.edit_allowances@[j].prefixes(),
            );
        let allowance = task.edit_allowances@[j];
        assert(of_allowance(allowance) is Ok);
        let of_prefix = |p: Seq<char>| check_prefix_uncovered(task.id@, allowance.role(), p, artifacts);
        lemma_check_all(allowance.prefixes(), of_prefix);
        let k = choose|k: int| 0 <= k < allowance.prefixes().len() && is_within(path, #[trigger] allowance.prefixes()[k]);
        let prefix = allowance.prefixes()[k];
        assert(of_prefix(prefix) is Ok);
        let of_artifact = |a: FrozenTestArtifact| check_uncovered(task.id@, allowance.role(), prefix, a);
        lemma_check_all(artifacts, of_artifact);
        assert(of_artifact(artifacts[i]) is Ok);
    }
}

/// The order in which tests are given does not matter: the manifests hold the same and
/// have the same identity.
pub proof fn law_manifest_ignores_input_order(
    first: FrozenFeatureTests,
    second: FrozenFeatureTests,
    artifacts: Seq<Key>,
    others: Seq<Key>,
)
    requires
        artifacts.to_multiset() == others.to_multiset(),
        keys(first@.artifacts) == sorted(artifacts),
        keys(second@.artifacts) == sorted(others),
        first@.schema_version == second@.schema_version,
        first@.spec_sha256 == second@.spec_sha256,
        first@.dag_sha256 == second@.dag_sha256,
        first@.test_task_id == second@.test_task_id,
        first@.approval.json() == second@.approval.json(),
        first.is_intact(),
        second.is_intact(),
    ensures
        keys(first@.artifacts) == keys(second@.artifacts),
        first.unsigned() == second.unsigned(),
        first@.manifest_sha256 == second@.manifest_sha256,
{
    lemma_sorted_ignores_input_order(artifacts, others);
    let a = first.artifacts@;
    let b = second.artifacts@;
    assert(keys(a) == keys(b));
    assert(a.len() == keys(a).len() && b.len() == keys(b).len());
    assert(a.map_values(|t: FrozenTestArtifact| t.json()) =~= b.map_values(|t: FrozenTestArtifact| t.json())) by {
        assert forall|i: int| 0 <= i < a.len() implies #[trigger] a[i].json() == b[i].json() by {
            assert(keys(a)[i] == a[i].key());
            assert(keys(b)[i] == b[i].key());
        }
    }
    assert(array_json(a) == array_json(b));
}

proof fn lemma_of_role(artifacts: Seq<FrozenTestArtifact>, role: Seq<char>)
    ensures
        of_role(artifacts, role) == frozen_for(artifacts, role),
    decreases artifacts.len(),
{
    reveal(Seq::filter);
    if artifacts.len() > 0 {
        lemma_of_role(artifacts.drop_last(), role);
    }
}

proof fn lemma_some_of_role(artifacts: Seq<FrozenTestArtifact>, role: Seq<char>)
    ensures
        of_role(artifacts, role).len() > 0 <==> exists|i: int|
            0 <= i < artifacts.len() && (#[trigger] artifacts[i]).repository_role@ == role,
    decreases artifacts.len(),
{
    if artifacts.len() > 0 {
        let front = artifacts.drop_last();
        lemma_some_of_role(front, role);
        if artifacts.last().repository_role@ == role {
            assert(artifacts[artifacts.len() - 1].repository_role@ == role);
        } else {
            if exists|i: int| 0 <= i < front.len() && (#[trigger] front[i]).repository_role@ == role {
                let i = choose|i: int| 0 <= i < front.len() && (#[trigger] front[i]).repository_role@ == role;
                assert(artifacts[i].repository_role@ == role);
            }
            if exists|i: int| 0 <= i < artifacts.len() && (#[trigger] artifacts[i]).repository_role@ == role {
                let i = choose|i: int| 0 <= i < artifacts.len() && (#[trigger] artifacts[i]).repository_role@ == role;
                assert(front[i].repository_role@ == role);
            }
        }
    }
}

proof fn lemma_readings(artifacts: Seq<FrozenTestArtifact>, readings: Seq<Result<Vec<u8>, String>>, i: int)
    requires
        0 <= i <= artifacts.len(),
        readings.len() == artifacts.len(),
    ensures
        check_readings(artifacts, readings, i) is Ok <==> forall|k: int|
            #![trigger readings[k]]
            i <= k < artifacts.len() ==> readings[k] is Ok && digest_hex(readings[k]->Ok_0@) == artifacts[k].sha256@,
    decreases artifacts.len() - i,
{
    if i < artifacts.len() {
        lemma_readings(artifacts, readings, i + 1);
        assert(check_reading(artifacts[i], readings[i]) is Ok <==> readings[i] is Ok && digest_hex(readings[i]->Ok_0@)
            == artifacts[i].sha256@);
    }
}

proof fn lemma_reading_failure(artifacts: Seq<FrozenTestArtifact>, readings: Seq<Result<Vec<u8>, String>>, i: int)
    requires
        0 <= i <= artifacts.len(),
        readings.len() == artifacts.len(),
    ensures
        check_readings(artifacts, readings, i) matches Err(e) ==> exists|k: int|
            i <= k < artifacts.len() && tells_of(e, artifacts[k], #[trigger] readings[k]) && forall|j: int|
                i <= j < k ==> (#[trigger] readings[j]) is Ok && digest_hex(readings[j]->Ok_0@) == artifacts[j].sha256@,
    decreases artifacts.len() - i,
{
    if i < artifacts.len() {
        lemma_reading_failure(artifacts, readings, i + 1);
        match check_readings(artifacts, readings, i) {
            Err(e) => {
                if check_reading(artifacts[i], readings[i]) is Ok {
                    let k = choose|k: int|
                        i + 1 <= k < artifacts.len() && tells_of(e, artifacts[k], #[trigger] readings[k]) && forall|j: int|
                            i + 1 <= j < k ==> (#[trigger] readings[j]) is Ok && digest_hex(readings[j]->Ok_0@)
                                == artifacts[j].sha256@;
                    assert(tells_of(e, artifacts[k], readings[k]));
                } else {
                    assert(tells_of(e, artifacts[i], readings[i]));
                }
            },
            Ok(_) => {},
        }
    }
}

/// The failure names the frozen test, and what is wrong with what was read of it.
pub open spec fn tells_of(e: FeatureFailure, artifact: FrozenTestArtifact, reading: Result<Vec<u8>, String>) -> bool {
    match e {
        FeatureRegimeError::FrozenTestRead { repository_role, path, message } => {
            &&& repository_role == artifact.repository_role@
            &&& path == artifact.path@
            &&& reading matches Err(why) && message == why@
        },
        FeatureRegimeError::FrozenTestContentMismatch { repository_role, path, expected, actual } => {
            &&& repository_role == artifact.repository_role@
            &&& path == artifact.path@
            &&& expected == artifact.sha256@
            &&& reading matches Ok(bytes) && actual == digest_hex(bytes@)
            &&& actual != expected
        },
        _ => false,
    }
}

/// The artifacts of a role, in their order.
pub open spec fn frozen_for(artifacts: Seq<FrozenTestArtifact>, role: Seq<char>) -> Seq<FrozenTestArtifact> {
    artifacts.filter(|a: FrozenTestArtifact| a.repository_role@ == role)
}

/// A workspace is accepted exactly where the manifest is intact, where it freezes at least
/// one test for the role, and where every test frozen for the role, in the order of the
/// manifest, was read and has the frozen digest. Otherwise the first test that was not read
/// or has another digest is named.
pub proof fn law_workspace_holds_every_frozen_test(
    tests: FrozenFeatureTests,
    role: Seq<char>,
    readings: Seq<Result<Vec<u8>, String>>,
)
    requires
        readings.len() == frozen_for(tests@.artifacts, role).len(),
    ensures
        ({
            let frozen = frozen_for(tests@.artifacts, role);
            let checked = tests.check_workspace(role, readings);
            &&& of_role(tests@.artifacts, role) == frozen
            &&& checked is Ok <==> {
                &&& tests@.manifest_sha256 == tests.identity()
                &&& exists|i: int| 0 <= i < tests@.artifacts.len() && (#[trigger] tests@.artifacts[i]).repository_role@ == role
                &&& forall|k: int|
                    #![trigger readings[k]]
                    0 <= k < frozen.len() ==> readings[k] is Ok && digest_hex(readings[k]->Ok_0@) == frozen[k].sha256@
            }
            &&& tests@.manifest_sha256 == tests.identity() && frozen.len() > 0 ==> (checked matches Err(e) ==> exists|k: int|
                0 <= k < frozen.len() && tells_of(e, frozen[k], #[trigger] readings[k]) && forall|j: int|
                    0 <= j < k ==> (#[trigger] readings[j]) is Ok && digest_hex(readings[j]->Ok_0@) == frozen[j].sha256@)
        }),
{
    let frozen = frozen_for(tests@.artifacts, role);
    lemma_of_role(tests@.artifacts, role);
    lemma_some_of_role(tests@.artifacts, role);
    lemma_readings(frozen, readings, 0);
    lemma_reading_failure(frozen, readings, 0);
}

/// Among artifacts in ascending order, one is repeated exactly where two have the same role
/// and the same path, whatever their digests.
pub proof fn law_repeated_artifacts(given: Seq<Key>)
    requires
        forall|i: int| 0 <= i < given.len() ==> (#[trigger] given[i]).len() == 3,
    ensures
        repeated_artifact(sorted(given)) is Some <==> exists|i: int, j: int|
            0 <= i < j < given.len() && (#[trigger] given[i])[0] == (#[trigger] given[j])[0] && given[i][1] == given[j][1],
{
    law_sorting(given);
    let s = sorted(given);
    assert forall|i: int| 0 <= i < s.len() implies (#[trigger] s[i]).len() == 3 by {
        assert(s.contains(s[i]));
        assert(given.contains(s[i]));
    }
    lemma_repeated(s);
    if same_place(s) {
        lemma_same_place_in(s, given);
    }
    if same_place(given) {
        lemma_same_place_in(given, s);
    }
}

/// Two artifacts at one place.
spec fn same_place(s: Seq<Key>) -> bool {
    exists|i: int, j: int| 0 <= i < j < s.len() && (#[trigger] s[i])[0] == (#[trigger] s[j])[0] && s[i][1] == s[j][1]
}

proof fn lemma_same_place_in(s: Seq<Key>, t: Seq<Key>)
    requires
        s.to_multiset() == t.to_multiset(),
        same_place(s),
    ensures
        same_place(t),
{
    broadcast use vstd::seq_lib::group_to_multiset_ensures;

    let (i, j) = choose|i: int, j: int|
        0 <= i < j < s.len() && (#[trigger] s[i])[0] == (#[trigger] s[j])[0] && s[i][1] == s[j][1];
    if s[i] != s[j] {
        assert(s.to_multiset().count(s[i]) > 0);
        assert(s.to_multiset().count(s[j]) > 0);
        assert(t.contains(s[i]) && t.contains(s[j]));
        let a = t.index_of(s[i]);
        let b = t.index_of(s[j]);
        if a < b {
            assert(t[a][0] == t[b][0] && t[a][1] == t[b][1]);
        } else {
            assert(t[b][0] == t[a][0] && t[b][1] == t[a][1]);
        }
    } else {
        if t.no_duplicates() {
            t.lemma_multiset_has_no_duplicates();
            s.lemma_multiset_has_no_duplicates_conv();
            assert(s[i] != s[j]);
        }
        let (a, b) = choose|a: int, b: int| 0 <= a < t.len() && 0 <= b < t.len() && a != b && t[a] == t[b];
        if a < b {
            assert(t[a][0] == t[b][0] && t[a][1] == t[b][1]);
        } else {
            assert(t[b][0] == t[a][0] && t[b][1] == t[a][1]);
        }
    }
}

proof fn lemma_between(a: Key, b: Key, c: Key)
    requires
        a.len() == 3,
        b.len() == 3,
        c.len() == 3,
        key_order(a, b) != Order::Greater,
        key_order(b, c) != Order::Greater,
        a[0] == c[0],
        a[1] == c[1],
    ensures
        b[0] == a[0],
        b[1] == a[1],
{
    lemma_text_order_flip(a[0], b[0]);
    lemma_text_order_equal(a[0], b[0]);
    lemma_text_order_equal(b[0], a[0]);
    lemma_text_order_flip(a[1], b[1]);
    lemma_text_order_equal(a[1], b[1]);
    lemma_text_order_equal(b[1], a[1]);
    let ta = a.drop_first();
    let tb = b.drop_first();
    let tc = c.drop_first();
    assert(ta[0] == a[1] && tb[0] == b[1] && tc[0] == c[1]);
    assert(key_order(a, b) == (match text_order(a[0], b[0]) {
        Order::Equal => key_order(ta, tb),
        other => other,
    }));
    assert(key_order(b, c) == (match text_order(b[0], c[0]) {
        Order::Equal => key_order(tb, tc),
        other => other,
    }));
    assert(key_order(ta, tb) == (match text_order(ta[0], tb[0]) {
        Order::Equal => key_order(ta.drop_first(), tb.drop_first()),
        other => other,
    }));
    assert(key_order(tb, tc) == (match text_order(tb[0], tc[0]) {
        Order::Equal => key_order(tb.drop_first(), tc.drop_first()),
        other => other,
    }));
}

proof fn lemma_repeated(s: Seq<Key>)
    requires
        forall|i: int| 0 <= i < s.len() ==> (#[trigger] s[i]).len() == 3,
        forall|i: int, j: int| 0 <= i < j < s.len() ==> key_order(#[trigger] s[i], #[trigger] s[j]) != Order::Greater,
    ensures
        repeated_artifact(s) is Some <==> same_place(s),
    decreases s.len(),
{
    if s.len() >= 2 {
        let t = s.drop_first();
        assert(forall|i: int| 0 <= i < t.len() ==> #[trigger] t[i] == s[i + 1]);
        lemma_repeated(t);
        if s[0][0] == s[1][0] && s[0][1] == s[1][1] {
            assert(same_place(s));
        } else {
            if same_place(t) {
                let (i, j) = choose|i: int, j: int|
                    0 <= i < j < t.len() && (#[trigger] t[i])[0] == (#[trigger] t[j])[0] && t[i][1] == t[j][1];
                assert(s[i + 1][0] == s[j + 1][0] && s[i + 1][1] == s[j + 1][1]);
            }
            if same_place(s) {
                let (i, j) = choose|i: int, j: int|
                    0 <= i < j < s.len() && (#[trigger] s[i])[0] == (#[trigger] s[j])[0] && s[i][1] == s[j][1];
                if i == 0 {
                    if j > 1 {
                        lemma_between(s[0], s[1], s[j]);
                    }
                } else {
                    assert(t[i - 1][0] == t[j - 1][0] && t[i - 1][1] == t[j - 1][1]);
                }
            }
        }
    }
}

/// Tests are frozen exactly under an intact specification and a graph that is intact and
/// of that specification, for a task of the graph in the feature regime, and of one or more
/// artifacts at different places, each in a repository of the task and on a path that the
/// task may edit.
pub proof fn law_tests_are_frozen(
    spec: FrozenAutopilotSpec,
    dag: AutopilotTaskDag,
    test_task_id: Seq<char>,
    artifacts: Seq<Key>,
)
    requires
        forall|i: int| 0 <= i < artifacts.len() ==> (#[trigger] artifacts[i]).len() == 3,
    ensures
        check_tests(spec, dag, test_task_id, artifacts) is Ok <==> {
            &&& spec@.spec_sha256 == spec.identity()
            &&& dag@.dag_sha256 == dag.identity()
            &&& dag@.spec_sha256 == spec@.spec_sha256
            &&& test_task_id.len() > 0 && is_line(test_task_id) && is_identifier(test_task_id)
            &&& find_task(dag@.tasks, test_task_id) is Some
            &&& (find_task(dag@.tasks, test_task_id)->0)@.regime is Feature
            &&& artifacts.len() > 0
            &&& forall|i: int, j: int|
                0 <= i < j < artifacts.len() && (#[trigger] artifacts[i])[0] == (#[trigger] artifacts[j])[0]
                    ==> artifacts[i][1] != artifacts[j][1]
            &&& forall|i: int|
                #![trigger artifacts[i]]
                0 <= i < artifacts.len() ==> texts((find_task(dag@.tasks, test_task_id)->0)@.repository_roles).contains(
                    artifacts[i][0],
                ) && allows_path(find_task(dag@.tasks, test_task_id)->0, artifacts[i][0], artifacts[i][1])
        },
{
    let s = sorted(artifacts);
    law_sorting(artifacts);
    law_repeated_artifacts(artifacts);
    if find_task(dag@.tasks, test_task_id) is Some {
        let task = find_task(dag@.tasks, test_task_id)->0;
        let check = |k: Key| check_placed(task, k);
        lemma_check_all(s, check);
        if check_all(s, check) is Ok {
            assert forall|i: int| #![trigger artifacts[i]] 0 <= i < artifacts.len() implies texts(
                task@.repository_roles,
            ).contains(artifacts[i][0]) && allows_path(task, artifacts[i][0], artifacts[i][1]) by {
                assert(artifacts.contains(artifacts[i]));
                assert(s.contains(artifacts[i]));
                let k = choose|k: int| 0 <= k < s.len() && s[k] == artifacts[i];
                assert(check(s[k]) is Ok);
            }
        } else {
            let k = choose|k: int| 0 <= k < s.len() && !((#[trigger] check(s[k])) is Ok);
            assert(s.contains(s[k]));
            assert(artifacts.contains(s[k]));
            let i = choose|i: int| 0 <= i < artifacts.len() && artifacts[i] == s[k];
            assert(check_placed(task, artifacts[i]) is Err);
        }
    }
}

/// An implementation is bound to frozen tests exactly where the specification, the graph
/// and the manifest are intact and belong together, and where it is a task of the graph in
/// the feature regime that may edit something, depends on the test task, and has no
/// allowance on a place where a test is frozen.
pub proof fn law_implementations_are_bound(
    spec: FrozenAutopilotSpec,
    dag: AutopilotTaskDag,
    tests: FrozenFeatureTests,
    implementation_task_id: Seq<char>,
)
    ensures
        check_contract(spec, dag, tests, implementation_task_id) is Ok <==> {
            let task = find_task(dag@.tasks, implementation_task_id)->0;
            &&& spec@.spec_sha256 == spec.identity()
            &&& dag@.dag_sha256 == dag.identity()
            &&& tests@.manifest_sha256 == tests.identity()
            &&& dag@.spec_sha256 == spec@.spec_sha256
            &&& tests@.spec_sha256 == spec@.spec_sha256
            &&& tests@.dag_sha256 == dag@.dag_sha256
            &&& implementation_task_id.len() > 0 && is_line(implementation_task_id) && is_identifier(implementation_task_id)
            &&& find_task(dag@.tasks, implementation_task_id) is Some
            &&& task@.regime is Feature
            &&& task@.edit_allowances.len() > 0
            &&& texts(task@.dependencies).contains(tests@.test_task_id)
            &&& forall|a: int, i: int|
                0 <= a < task@.edit_allowances.len() && 0 <= i < tests@.artifacts.len() ==> !((
                #[trigger] task@.edit_allowances[a]).role() == (#[trigger] tests@.artifacts[i]).repository_role@
                    && is_within_any(tests@.artifacts[i].path@, task@.edit_allowances[a].prefixes()))
        },
{
    if find_task(dag@.tasks, implementation_task_id) is Some {
        lemma_task_uncovered(find_task(dag@.tasks, implementation_task_id)->0, tests@.artifacts);
    }
}

proof fn lemma_task_uncovered(task: AutopilotTask, artifacts: Seq<FrozenTestArtifact>)
    ensures
        check_task_uncovered(task, artifacts) is Ok <==> forall|a: int, i: int|
            0 <= a < task@.edit_allowances.len() && 0 <= i < artifacts.len() ==> !((
            #[trigger] task@.edit_allowances[a]).role() == (#[trigger] artifacts[i]).repository_role@ && is_within_any(
                artifacts[i].path@,
                task@.edit_allowances[a].prefixes(),
            )),
{
    let allowances = task@.edit_allowances;
    let check = |a: TaskEditAllowance| check_allowance_uncovered(task@.id, a, artifacts);
    lemma_check_all(allowances, check);
    assert forall|a: int| 0 <= a < allowances.len() implies ((#[trigger] check(allowances[a])) is Ok <==> forall|i: int|
        0 <= i < artifacts.len() ==> !(allowances[a].role() == (#[trigger] artifacts[i]).repository_role@ && is_within_any(
            artifacts[i].path@,
            allowances[a].prefixes(),
        ))) by {
        lemma_allowance_uncovered(task@.id, allowances[a], artifacts);
    }
    if check_all(allowances, check) is Ok {
        assert forall|a: int, i: int| 0 <= a < allowances.len() && 0 <= i < artifacts.len() implies !((
        #[trigger] allowances[a]).role() == (#[trigger] artifacts[i]).repository_role@ && is_within_any(
            artifacts[i].path@,
            allowances[a].prefixes(),
        )) by {
            assert(check(allowances[a]) is Ok);
        }
    } else {
        let a = choose|a: int| 0 <= a < allowances.len() && !((#[trigger] check(allowances[a])) is Ok);
        let i = choose|i: int|
            0 <= i < artifacts.len() && allowances[a].role() == (#[trigger] artifacts[i]).repository_role@ && is_within_any(
                artifacts[i].path@,
                allowances[a].prefixes(),
            );
        assert(allowances[a].role() == artifacts[i].repository_role@);
    }
}

proof fn lemma_allowance_uncovered(task_id: Seq<char>, allowance: TaskEditAllowance, artifacts: Seq<FrozenTestArtifact>)
    ensures
        check_allowance_uncovered(task_id, allowance, artifacts) is Ok <==> forall|i: int|
            0 <= i < artifacts.len() ==> !(allowance.role() == (#[trigger] artifacts[i]).repository_role@ && is_within_any(
                artifacts[i].path@,
                allowance.prefixes(),
            )),
{
    let prefixes = allowance.prefixes();
    let role = allowance.role();
    let check = |p: Seq<char>| check_prefix_uncovered(task_id, role, p, artifacts);
    lemma_check_all(prefixes, check);
    assert forall|p: int| 0 <= p < prefixes.len() implies ((#[trigger] check(prefixes[p])) is Ok <==> forall|i: int|
        0 <= i < artifacts.len() ==> !(role == (#[trigger] artifacts[i]).repository_role@ && is_within(
            artifacts[i].path@,
            prefixes[p],
        ))) by {
        let each = |a: FrozenTestArtifact| check_uncovered(task_id, role, prefixes[p], a);
        lemma_check_all(artifacts, each);
        if check_all(artifacts, each) is Ok {
            assert forall|i: int| 0 <= i < artifacts.len() implies !(role == (
            #[trigger] artifacts[i]).repository_role@ && is_within(artifacts[i].path@, prefixes[p])) by {
                assert(each(artifacts[i]) is Ok);
            }
        } else {
            let i = choose|i: int| 0 <= i < artifacts.len() && !((#[trigger] each(artifacts[i])) is Ok);
            assert(role == artifacts[i].repository_role@);
        }
    }
    if check_all(prefixes, check) is Ok {
        assert forall|i: int| 0 <= i < artifacts.len() implies !(role == (#[trigger] artifacts[i]).repository_role@
            && is_within_any(artifacts[i].path@, prefixes)) by {
            if role == artifacts[i].repository_role@ && is_within_any(artifacts[i].path@, prefixes) {
                let p = choose|p: int| 0 <= p < prefixes.len() && is_within(artifacts[i].path@, #[trigger] prefixes[p]);
                assert(check(prefixes[p]) is Ok);
            }
        }
    } else {
        let p = choose|p: int| 0 <= p < prefixes.len() && !((#[trigger] check(prefixes[p])) is Ok);
        let i = choose|i: int|
            0 <= i < artifacts.len() && role == (#[trigger] artifacts[i]).repository_role@ && is_within(
                artifacts[i].path@,
                prefixes[p],
            );
        assert(is_within_any(artifacts[i].path@, prefixes));
    }
}

/// A candidate is accepted exactly where the contract, the graph and the manifest are
/// intact and belong together, the operations are well formed, the role is one of the
/// implementation task and one it may edit, and every operation is one that the task
/// permits on a path where no test is frozen.
pub proof fn law_candidates_are_accepted(
    contract: FeatureImplementationContract,
    dag: AutopilotTaskDag,
    tests: FrozenFeatureTests,
    role: Seq<char>,
    patch_set: PatchSet,
)
    ensures
        contract.check_candidate(dag, tests, role, patch_set) is Ok <==> {
            let task = find_task(dag@.tasks, contract@.implementation_task_id)->0;
            let operations = patch_set.operations@;
            &&& contract@.contract_sha256 == contract.identity()
            &&& dag@.dag_sha256 == dag.identity()
            &&& tests@.manifest_sha256 == tests.identity()
            &&& contract@.dag_sha256 == dag@.dag_sha256
            &&& contract@.frozen_tests_sha256 == tests@.manifest_sha256
            &&& contract@.test_task_id == tests@.test_task_id
            &&& check_operations(operations) is Ok
            &&& find_task(dag@.tasks, contract@.implementation_task_id) is Some
            &&& texts(task@.repository_roles).contains(role)
            &&& exists|a: int| 0 <= a < task@.edit_allowances.len() && (#[trigger] task@.edit_allowances[a]).role() == role
            &&& forall|k: int|
                #![trigger operations[k]]
                0 <= k < operations.len() ==> permits(task, role, operations[k].target(), operations[k].operation())
                    && forall|i: int|
                    0 <= i < tests@.artifacts.len() ==> !((#[trigger] tests@.artifacts[i]).repository_role@ == role
                        && tests@.artifacts[i].path@ == operations[k].target())
        },
{
    let operations = patch_set.operations@;
    if find_task(dag@.tasks, contract@.implementation_task_id) is Some {
        let task = find_task(dag@.tasks, contract@.implementation_task_id)->0;
        let check = |o: FileOperation| check_operation(task, tests@.artifacts, role, o);
        lemma_check_all(operations, check);
        assert forall|k: int| #![trigger operations[k]] 0 <= k < operations.len() implies (check(operations[k]) is Ok
            <==> permits(task, role, operations[k].target(), operations[k].operation()) && forall|i: int|
            0 <= i < tests@.artifacts.len() ==> !((#[trigger] tests@.artifacts[i]).repository_role@ == role
                && tests@.artifacts[i].path@ == operations[k].target())) by {}
        if check_all(operations, check) is Ok {
            assert forall|k: int| #![trigger operations[k]] 0 <= k < operations.len() implies check(operations[k]) is Ok by {}
        }
    }
}

/// A workspace is verified exactly where the manifest is intact, freezes a test for the
/// role, and every reading, one for each test frozen for the role, gave bytes with the
/// digest of that test.
pub proof fn law_verified_workspaces(
    tests: FrozenFeatureTests,
    role: &str,
    readings: &[Result<Vec<u8>, String>],
    r: Result<(), FeatureRegimeError>,
)
    requires
        readings@.len() == frozen_for(tests@.artifacts, role@).len(),
        call_ensures(FrozenFeatureTests::verify_workspace, (&tests, role, readings), r),
    ensures
        r is Ok <==> {
            &&& tests@.manifest_sha256 == tests.identity()
            &&& exists|i: int| 0 <= i < tests@.artifacts.len() && (#[trigger] tests@.artifacts[i]).repository_role@ == role@
            &&& forall|k: int|
                #![trigger readings@[k]]
                0 <= k < readings@.len() ==> readings@[k] is Ok && digest_hex(readings@[k]->Ok_0@) == frozen_for(
                    tests@.artifacts,
                    role@,
                )[k].sha256@
        },
{
    law_workspace_holds_every_frozen_test(tests, role@, readings@);
}

} // verus!
