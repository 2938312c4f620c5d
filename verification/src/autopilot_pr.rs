//! Pull request plans and the verdicts on them.
//!
//! Nothing here reaches the network, and nothing can merge. A plan asks for a branch
//! and then for a pull request. A hosting adapter carries out these two actions and
//! returns a receipt; verdicts of continuous integration and of human review are then
//! appended to the engineering trajectory, tied to the exact head of the request.

use vstd::prelude::*;
use vstd::utf8::encode_utf8;

use crate::autopilot_intake::{FrozenAutopilotSpec, RepositoryScope};
use crate::autopilot_task_dag::{
    find_task, may_edit, permits, task_may_edit, task_permits, AutopilotTask, AutopilotTaskDag, TaskOperation, TaskRegime,
};
use crate::checks::{and_then, check_all, lemma_check_all, lemma_check_step};
use crate::compatibility::{set_fingerprint, set_text, CompatibilitySet, RepositoryRevision};
use crate::engineering_trajectory::{
    check_later, check_trajectory, AdmissibilityBreakdown, BenchmarkRecord, EngineeringTrajectory, EngineeringVerdict, GateStatus, LaterVerdict,
};
use crate::fields::{
    branch_name_ok, digest_ok, identifier_ok, is_branch_name, is_digest, is_identifier, is_line, is_revision, line_ok, revision_ok,
};
use crate::json::{empty_obj, print, text_array, Json, Value};
use crate::order::{keys, Key, Keyed};
use crate::patchset::{check_operations, FileOperation, PatchSet};
use crate::sha256::{digest_hex, sha256_hex};
use crate::text::{
    contains_text, debug_quoted, decimal, decimal_text, first_chars, first_of, has_infix, lemma_lowercase_hex, lowercase,
    pair_form, pair_text, quote, same_text, starts_with, texts, to_lowercase, triple_form, triple_text, tuple_form, tuple_text,
    IntoText,
};

verus! {

pub const AUTOPILOT_PR_PLAN_SCHEMA_VERSION: u64 = 1;

// ---------------------------------------------------------------------------
// Failures
// ---------------------------------------------------------------------------

/// Why a pull request plan, a receipt or a verdict was refused.
///
/// The parameter is the type of the texts it carries.
#[derive(Debug, Clone, PartialEq, Eq)]
pub enum AutopilotPrError<S = String> {
    EmptyField(&'static str),
    InvalidText { field: &'static str, value: S },
    InvalidIdentifier { field: &'static str, value: S },
    InvalidBranch { field: &'static str, value: S },
    InvalidRevision(S),
    InvalidDigest { field: &'static str, value: S },
    TitleTooLong(usize),
    InvalidSpec(S),
    InvalidDag(S),
    SpecDagMismatch,
    InvalidTrajectory(S),
    TrajectorySpecMismatch { expected: S, actual: S },
    TrajectoryNotAccepted,
    UnknownTask(S),
    RepositoryRoleOutsideTask(S),
    CompatibilityScopeMismatch { repository: S, role: S, revision: S },
    MissingRepositoryRole(S),
    AmbiguousRepositoryRole(S),
    InvalidPatchSet(S),
    PatchOutsideTaskAllowance { repository_role: S, path: S, operation: TaskOperation },
    RepositoryRoleReadOnly(S),
    PerfTrajectoryMissingBenchmark,
    DefaultBranchMutationForbidden(S),
    PlanHashMismatch { expected: S, actual: S },
    InvalidPullRequestNumber,
    EmissionReceiptMismatch,
    ExternalVerdictContextMismatch,
    TrajectoryCandidateMismatch { expected: S, actual: S },
    DuplicateExternalVerdict(S),
}

/// A failure over mathematical texts.
pub type PrFailure = AutopilotPrError<Seq<char>>;

impl AutopilotPrError<String> {
    pub open spec fn view(&self) -> PrFailure {
        match self {
            AutopilotPrError::EmptyField(value) => AutopilotPrError::EmptyField(*value),
            AutopilotPrError::InvalidText { field, value } => AutopilotPrError::InvalidText { field: *field, value: value@ },
            AutopilotPrError::InvalidIdentifier { field, value } => AutopilotPrError::InvalidIdentifier { field: *field, value: value@ },
            AutopilotPrError::InvalidBranch { field, value } => AutopilotPrError::InvalidBranch { field: *field, value: value@ },
            AutopilotPrError::InvalidRevision(value) => AutopilotPrError::InvalidRevision(value@),
            AutopilotPrError::InvalidDigest { field, value } => AutopilotPrError::InvalidDigest { field: *field, value: value@ },
            AutopilotPrError::TitleTooLong(value) => AutopilotPrError::TitleTooLong(*value),
            AutopilotPrError::InvalidSpec(value) => AutopilotPrError::InvalidSpec(value@),
            AutopilotPrError::InvalidDag(value) => AutopilotPrError::InvalidDag(value@),
            AutopilotPrError::SpecDagMismatch => AutopilotPrError::SpecDagMismatch,
            AutopilotPrError::InvalidTrajectory(value) => AutopilotPrError::InvalidTrajectory(value@),
            AutopilotPrError::TrajectorySpecMismatch { expected, actual } => AutopilotPrError::TrajectorySpecMismatch { expected: expected@, actual: actual@ },
            AutopilotPrError::TrajectoryNotAccepted => AutopilotPrError::TrajectoryNotAccepted,
            AutopilotPrError::UnknownTask(value) => AutopilotPrError::UnknownTask(value@),
            AutopilotPrError::RepositoryRoleOutsideTask(value) => AutopilotPrError::RepositoryRoleOutsideTask(value@),
            AutopilotPrError::CompatibilityScopeMismatch { repository, role, revision } => AutopilotPrError::CompatibilityScopeMismatch { repository: repository@, role: role@, revision: revision@ },
            AutopilotPrError::MissingRepositoryRole(value) => AutopilotPrError::MissingRepositoryRole(value@),
            AutopilotPrError::AmbiguousRepositoryRole(value) => AutopilotPrError::AmbiguousRepositoryRole(value@),
            AutopilotPrError::InvalidPatchSet(value) => AutopilotPrError::InvalidPatchSet(value@),
            AutopilotPrError::PatchOutsideTaskAllowance { repository_role, path, operation } => AutopilotPrError::PatchOutsideTaskAllowance { repository_role: repository_role@, path: path@, operation: *operation },
            AutopilotPrError::RepositoryRoleReadOnly(value) => AutopilotPrError::RepositoryRoleReadOnly(value@),
            AutopilotPrError::PerfTrajectoryMissingBenchmark => AutopilotPrError::PerfTrajectoryMissingBenchmark,
            AutopilotPrError::DefaultBranchMutationForbidden(value) => AutopilotPrError::DefaultBranchMutationForbidden(value@),
            AutopilotPrError::PlanHashMismatch { expected, actual } => AutopilotPrError::PlanHashMismatch { expected: expected@, actual: actual@ },
            AutopilotPrError::InvalidPullRequestNumber => AutopilotPrError::InvalidPullRequestNumber,
            AutopilotPrError::EmissionReceiptMismatch => AutopilotPrError::EmissionReceiptMismatch,
            AutopilotPrError::ExternalVerdictContextMismatch => AutopilotPrError::ExternalVerdictContextMismatch,
            AutopilotPrError::TrajectoryCandidateMismatch { expected, actual } => AutopilotPrError::TrajectoryCandidateMismatch { expected: expected@, actual: actual@ },
            AutopilotPrError::DuplicateExternalVerdict(value) => AutopilotPrError::DuplicateExternalVerdict(value@),
        }
    }
}

impl AutopilotPrError<Seq<char>> {
    /// The failure with what it carries, for diagnosis.
    pub open spec fn form(&self) -> Seq<char> {
        match self {
            AutopilotPrError::EmptyField(value) => tuple_form("EmptyField"@, debug_quoted(value@)),
            AutopilotPrError::InvalidText { field, value } => pair_form("InvalidText"@, "field"@, debug_quoted(field@), "value"@, debug_quoted(*value)),
            AutopilotPrError::InvalidIdentifier { field, value } => pair_form("InvalidIdentifier"@, "field"@, debug_quoted(field@), "value"@, debug_quoted(*value)),
            AutopilotPrError::InvalidBranch { field, value } => pair_form("InvalidBranch"@, "field"@, debug_quoted(field@), "value"@, debug_quoted(*value)),
            AutopilotPrError::InvalidRevision(value) => tuple_form("InvalidRevision"@, debug_quoted(*value)),
            AutopilotPrError::InvalidDigest { field, value } => pair_form("InvalidDigest"@, "field"@, debug_quoted(field@), "value"@, debug_quoted(*value)),
            AutopilotPrError::TitleTooLong(value) => tuple_form("TitleTooLong"@, decimal(*value as nat)),
            AutopilotPrError::InvalidSpec(value) => tuple_form("InvalidSpec"@, debug_quoted(*value)),
            AutopilotPrError::InvalidDag(value) => tuple_form("InvalidDag"@, debug_quoted(*value)),
            AutopilotPrError::SpecDagMismatch => "SpecDagMismatch"@,
            AutopilotPrError::InvalidTrajectory(value) => tuple_form("InvalidTrajectory"@, debug_quoted(*value)),
            AutopilotPrError::TrajectorySpecMismatch { expected, actual } => pair_form("TrajectorySpecMismatch"@, "expected"@, debug_quoted(*expected), "actual"@, debug_quoted(*actual)),
            AutopilotPrError::TrajectoryNotAccepted => "TrajectoryNotAccepted"@,
            AutopilotPrError::UnknownTask(value) => tuple_form("UnknownTask"@, debug_quoted(*value)),
            AutopilotPrError::RepositoryRoleOutsideTask(value) => tuple_form("RepositoryRoleOutsideTask"@, debug_quoted(*value)),
            AutopilotPrError::CompatibilityScopeMismatch { repository, role, revision } => triple_form("CompatibilityScopeMismatch"@, "repository"@, debug_quoted(*repository), "role"@, debug_quoted(*role), "revision"@, debug_quoted(*revision)),
            AutopilotPrError::MissingRepositoryRole(value) => tuple_form("MissingRepositoryRole"@, debug_quoted(*value)),
            AutopilotPrError::AmbiguousRepositoryRole(value) => tuple_form("AmbiguousRepositoryRole"@, debug_quoted(*value)),
            AutopilotPrError::InvalidPatchSet(value) => tuple_form("InvalidPatchSet"@, debug_quoted(*value)),
            AutopilotPrError::PatchOutsideTaskAllowance { repository_role, path, operation } => triple_form("PatchOutsideTaskAllowance"@, "repository_role"@, debug_quoted(*repository_role), "path"@, debug_quoted(*path), "operation"@, operation.label_text()),
            AutopilotPrError::RepositoryRoleReadOnly(value) => tuple_form("RepositoryRoleReadOnly"@, debug_quoted(*value)),
            AutopilotPrError::PerfTrajectoryMissingBenchmark => "PerfTrajectoryMissingBenchmark"@,
            AutopilotPrError::DefaultBranchMutationForbidden(value) => tuple_form("DefaultBranchMutationForbidden"@, debug_quoted(*value)),
            AutopilotPrError::PlanHashMismatch { expected, actual } => pair_form("PlanHashMismatch"@, "expected"@, debug_quoted(*expected), "actual"@, debug_quoted(*actual)),
            AutopilotPrError::InvalidPullRequestNumber => "InvalidPullRequestNumber"@,
            AutopilotPrError::EmissionReceiptMismatch => "EmissionReceiptMismatch"@,
            AutopilotPrError::ExternalVerdictContextMismatch => "ExternalVerdictContextMismatch"@,
            AutopilotPrError::TrajectoryCandidateMismatch { expected, actual } => pair_form("TrajectoryCandidateMismatch"@, "expected"@, debug_quoted(*expected), "actual"@, debug_quoted(*actual)),
            AutopilotPrError::DuplicateExternalVerdict(value) => tuple_form("DuplicateExternalVerdict"@, debug_quoted(*value)),
        }
    }
}

impl AutopilotPrError<String> {
    fn describe(&self) -> (r: String)
        ensures
            r@ == self@.form(),
    {
        match self {
            AutopilotPrError::EmptyField(value) => tuple_text("EmptyField", quote(value).as_str()),
            AutopilotPrError::InvalidText { field, value } => pair_text("InvalidText", "field", quote(field).as_str(), "value", quote(value.as_str()).as_str()),
            AutopilotPrError::InvalidIdentifier { field, value } => pair_text("InvalidIdentifier", "field", quote(field).as_str(), "value", quote(value.as_str()).as_str()),
            AutopilotPrError::InvalidBranch { field, value } => pair_text("InvalidBranch", "field", quote(field).as_str(), "value", quote(value.as_str()).as_str()),
            AutopilotPrError::InvalidRevision(value) => tuple_text("InvalidRevision", quote(value.as_str()).as_str()),
            AutopilotPrError::InvalidDigest { field, value } => pair_text("InvalidDigest", "field", quote(field).as_str(), "value", quote(value.as_str()).as_str()),
            AutopilotPrError::TitleTooLong(value) => tuple_text("TitleTooLong", decimal_text(*value as u64).as_str()),
            AutopilotPrError::InvalidSpec(value) => tuple_text("InvalidSpec", quote(value.as_str()).as_str()),
            AutopilotPrError::InvalidDag(value) => tuple_text("InvalidDag", quote(value.as_str()).as_str()),
            AutopilotPrError::SpecDagMismatch => "SpecDagMismatch".to_owned(),
            AutopilotPrError::InvalidTrajectory(value) => tuple_text("InvalidTrajectory", quote(value.as_str()).as_str()),
            AutopilotPrError::TrajectorySpecMismatch { expected, actual } => pair_text("TrajectorySpecMismatch", "expected", quote(expected.as_str()).as_str(), "actual", quote(actual.as_str()).as_str()),
            AutopilotPrError::TrajectoryNotAccepted => "TrajectoryNotAccepted".to_owned(),
            AutopilotPrError::UnknownTask(value) => tuple_text("UnknownTask", quote(value.as_str()).as_str()),
            AutopilotPrError::RepositoryRoleOutsideTask(value) => tuple_text("RepositoryRoleOutsideTask", quote(value.as_str()).as_str()),
            AutopilotPrError::CompatibilityScopeMismatch { repository, role, revision } => triple_text("CompatibilityScopeMismatch", "repository", quote(repository.as_str()).as_str(), "role", quote(role.as_str()).as_str(), "revision", quote(revision.as_str()).as_str()),
            AutopilotPrError::MissingRepositoryRole(value) => tuple_text("MissingRepositoryRole", quote(value.as_str()).as_str()),
            AutopilotPrError::AmbiguousRepositoryRole(value) => tuple_text("AmbiguousRepositoryRole", quote(value.as_str()).as_str()),
            AutopilotPrError::InvalidPatchSet(value) => tuple_text("InvalidPatchSet", quote(value.as_str()).as_str()),
            AutopilotPrError::PatchOutsideTaskAllowance { repository_role, path, operation } => triple_text("PatchOutsideTaskAllowance", "repository_role", quote(repository_role.as_str()).as_str(), "path", quote(path.as_str()).as_str(), "operation", operation.label()),
            AutopilotPrError::RepositoryRoleReadOnly(value) => tuple_text("RepositoryRoleReadOnly", quote(value.as_str()).as_str()),
            AutopilotPrError::PerfTrajectoryMissingBenchmark => "PerfTrajectoryMissingBenchmark".to_owned(),
            AutopilotPrError::DefaultBranchMutationForbidden(value) => tuple_text("DefaultBranchMutationForbidden", quote(value.as_str()).as_str()),
            AutopilotPrError::PlanHashMismatch { expected, actual } => pair_text("PlanHashMismatch", "expected", quote(expected.as_str()).as_str(), "actual", quote(actual.as_str()).as_str()),
            AutopilotPrError::InvalidPullRequestNumber => "InvalidPullRequestNumber".to_owned(),
            AutopilotPrError::EmissionReceiptMismatch => "EmissionReceiptMismatch".to_owned(),
            AutopilotPrError::ExternalVerdictContextMismatch => "ExternalVerdictContextMismatch".to_owned(),
            AutopilotPrError::TrajectoryCandidateMismatch { expected, actual } => pair_text("TrajectoryCandidateMismatch", "expected", quote(expected.as_str()).as_str(), "actual", quote(actual.as_str()).as_str()),
            AutopilotPrError::DuplicateExternalVerdict(value) => tuple_text("DuplicateExternalVerdict", quote(value.as_str()).as_str()),
        }
    }

    /// The message for a user.
    pub fn to_string(&self) -> (r: String)
        ensures
            r@ == "AUTOPILOT PR contract error: "@ + self@.form(),
    {
        let mut m = "AUTOPILOT PR contract error: ".to_owned();
        m.append(self.describe().as_str());
        m
    }
}

/// The outcome with its failure over mathematical texts.
pub open spec fn outcome<T>(r: Result<T, AutopilotPrError>) -> Result<T, PrFailure> {
    match r {
        Ok(t) => Ok(t),
        Err(e) => Err(e@),
    }
}

// ---------------------------------------------------------------------------
// Field checks
// ---------------------------------------------------------------------------

pub open spec fn check_text(field: &'static str, s: Seq<char>) -> Result<(), PrFailure> {
    if s.len() == 0 {
        Err(AutopilotPrError::EmptyField(field))
    } else if !is_line(s) {
        Err(AutopilotPrError::InvalidText { field, value: s })
    } else {
        Ok(())
    }
}

pub open spec fn check_identifier(field: &'static str, s: Seq<char>) -> Result<(), PrFailure> {
    and_then(
        check_text(field, s),
        if is_identifier(s) {
            Ok(())
        } else {
            Err(AutopilotPrError::InvalidIdentifier { field, value: s })
        },
    )
}

pub open spec fn check_digest(field: &'static str, s: Seq<char>) -> Result<(), PrFailure> {
    if is_digest(s) {
        Ok(())
    } else {
        Err(AutopilotPrError::InvalidDigest { field, value: s })
    }
}

fn validate_text(field: &'static str, value: &str) -> (r: Result<(), AutopilotPrError>)
    ensures
        outcome(r) == check_text(field, value@),
{
    if value.is_empty() {
        return Err(AutopilotPrError::EmptyField(field));
    }
    if !line_ok(value) {
        return Err(AutopilotPrError::InvalidText { field, value: value.to_owned() });
    }
    Ok(())
}

fn validate_identifier(field: &'static str, value: &str) -> (r: Result<(), AutopilotPrError>)
    ensures
        outcome(r) == check_identifier(field, value@),
{
    validate_text(field, value)?;
    if !identifier_ok(value) {
        return Err(AutopilotPrError::InvalidIdentifier { field, value: value.to_owned() });
    }
    Ok(())
}

fn validate_digest(field: &'static str, value: &str) -> (r: Result<(), AutopilotPrError>)
    ensures
        outcome(r) == check_digest(field, value@),
{
    if !digest_ok(value) {
        return Err(AutopilotPrError::InvalidDigest { field, value: value.to_owned() });
    }
    Ok(())
}

pub open spec fn check_branch(field: &'static str, s: Seq<char>) -> Result<(), PrFailure> {
    and_then(
        check_text(field, s),
        if is_branch_name(s) {
            Ok(())
        } else {
            Err(AutopilotPrError::InvalidBranch { field, value: s })
        },
    )
}

pub open spec fn check_revision(s: Seq<char>) -> Result<(), PrFailure> {
    if is_revision(s) {
        Ok(())
    } else {
        Err(AutopilotPrError::InvalidRevision(s))
    }
}

fn validate_branch_component(field: &'static str, value: &str) -> (r: Result<(), AutopilotPrError>)
    ensures
        outcome(r) == check_branch(field, value@),
{
    validate_text(field, value)?;
    if !branch_name_ok(value) {
        return Err(AutopilotPrError::InvalidBranch { field, value: value.to_owned() });
    }
    Ok(())
}

fn validate_revision(revision: &str) -> (r: Result<(), AutopilotPrError>)
    ensures
        outcome(r) == check_revision(revision@),
{
    if !revision_ok(revision) {
        return Err(AutopilotPrError::InvalidRevision(revision.to_owned()));
    }
    Ok(())
}

// ---------------------------------------------------------------------------
// Drafts and actions
// ---------------------------------------------------------------------------

/// All that a plan can ask of a hosting service. There is no write to the default
/// branch and no merge.
#[derive(Debug, Clone, Copy, PartialEq, Eq, Structural)]
pub enum HostingAction {
    CreateBranch,
    OpenPullRequest,
}

impl HostingAction {
    pub open spec fn name(self) -> Seq<char> {
        match self {
            HostingAction::CreateBranch => "create_branch"@,
            HostingAction::OpenPullRequest => "open_pull_request"@,
        }
    }

    pub fn as_str(self) -> (r: &'static str)
        ensures
            r@ == self.name(),
    {
        match self {
            HostingAction::CreateBranch => "create_branch",
            HostingAction::OpenPullRequest => "open_pull_request",
        }
    }
}

#[derive(Debug, Clone, PartialEq, Eq)]
pub struct PullRequestPlanDraft {
    pub task_id: String,
    pub repository_role: String,
    pub default_branch: String,
    pub title: String,
}

impl PullRequestPlanDraft {
    pub fn new(
        task_id: impl IntoText,
        repository_role: impl IntoText,
        default_branch: impl IntoText,
        title: impl IntoText,
    ) -> (r: Self)
        ensures
            r.task_id@ == task_id.text(),
            r.repository_role@ == repository_role.text(),
            r.default_branch@ == default_branch.text(),
            r.title@ == title.text(),
    {
        PullRequestPlanDraft {
            task_id: task_id.into_text(),
            repository_role: repository_role.into_text(),
            default_branch: default_branch.into_text(),
            title: title.into_text(),
        }
    }
}

/// The fields of a draft.
#[verifier::opaque]
pub open spec fn check_draft(draft: PullRequestPlanDraft) -> Result<(), PrFailure> {
    and_then(
        check_identifier("task_id", draft.task_id@),
        and_then(
            check_identifier("repository_role", draft.repository_role@),
            and_then(
                check_branch("default_branch", draft.default_branch@),
                and_then(
                    check_text("title", draft.title@),
                    if encode_utf8(draft.title@).len() > 240 {
                        Err(AutopilotPrError::TitleTooLong(encode_utf8(draft.title@).len() as usize))
                    } else {
                        Ok(())
                    },
                ),
            ),
        ),
    )
}

fn validate_draft(draft: &PullRequestPlanDraft) -> (r: Result<(), AutopilotPrError>)
    ensures
        outcome(r) == check_draft(*draft),
{
    proof {
        reveal(check_draft);
    }
    validate_identifier("task_id", draft.task_id.as_str())?;
    validate_identifier("repository_role", draft.repository_role.as_str())?;
    validate_branch_component("default_branch", draft.default_branch.as_str())?;
    validate_text("title", draft.title.as_str())?;
    let length: usize = draft.title.as_str().as_bytes().len();
    if length > 240 {
        return Err(AutopilotPrError::TitleTooLong(length));
    }
    Ok(())
}

// ---------------------------------------------------------------------------
// The candidate
// ---------------------------------------------------------------------------

/// What names the candidate of a trajectory: its task, compatibility set, parent state,
/// patch set and proposer.
pub open spec fn candidate_material(t: EngineeringTrajectory) -> Seq<char> {
    "rsi-autopilot-candidate-v1|"@ + t.task_spec_id@ + "|"@ + set_fingerprint(t.compatibility@) + "|"@ + t.parent_state_id@
        + "|"@ + t.patch_set.digest() + "|"@ + t.proposer.provider@ + "|"@ + t.proposer.model@ + "|"@
        + t.proposer.configuration_id@
}

pub open spec fn candidate_identity(t: EngineeringTrajectory) -> Seq<char> {
    digest_hex(encode_utf8(candidate_material(t)))
}

fn trajectory_candidate_identity(trajectory: &EngineeringTrajectory) -> (r: Result<String, AutopilotPrError>)
    ensures
        match r {
            Ok(id) => check_operations(trajectory.patch_set.operations@) is Ok && id@ == candidate_identity(*trajectory),
            Err(e) => match check_operations(trajectory.patch_set.operations@) {
                Err(f) => e@ == AutopilotPrError::<Seq<char>>::InvalidPatchSet(f.message()),
                Ok(_) => false,
            },
        },
{
    let patch_set_sha256 = match trajectory.patch_set.identity() {
        Ok(id) => id,
        Err(e) => {
            return Err(AutopilotPrError::InvalidPatchSet(e.to_string()));
        },
    };
    let mut material = "rsi-autopilot-candidate-v1|".to_owned();
    material.append(trajectory.task_spec_id.as_str());
    material.append("|");
    material.append(trajectory.compatibility.fingerprint().as_str());
    material.append("|");
    material.append(trajectory.parent_state_id.as_str());
    material.append("|");
    material.append(patch_set_sha256.as_str());
    material.append("|");
    material.append(trajectory.proposer.provider.as_str());
    material.append("|");
    material.append(trajectory.proposer.model.as_str());
    material.append("|");
    material.append(trajectory.proposer.configuration_id.as_str());
    Ok(sha256_hex(material.as_str().as_bytes()))
}

// ---------------------------------------------------------------------------
// The target repository
// ---------------------------------------------------------------------------

/// The revisions of a compatibility set with the given role.
pub open spec fn with_role(revisions: Seq<Key>, role: Seq<char>) -> Seq<Key>
    decreases revisions.len(),
{
    if revisions.len() == 0 {
        Seq::empty()
    } else if revisions.last()[2] == role {
        with_role(revisions.drop_last(), role).push(revisions.last())
    } else {
        with_role(revisions.drop_last(), role)
    }
}

/// A role must name exactly one revision.
pub open spec fn check_unique(revisions: Seq<Key>, role: Seq<char>) -> Result<(), PrFailure> {
    let n = with_role(revisions, role).len();
    if n == 0 {
        Err(AutopilotPrError::MissingRepositoryRole(role))
    } else if n > 1 {
        Err(AutopilotPrError::AmbiguousRepositoryRole(role))
    } else {
        Ok(())
    }
}

fn unique_revision_for_role<'a>(compatibility: &'a CompatibilitySet, role: &str) -> (r: Result<
    &'a RepositoryRevision,
    AutopilotPrError,
>)
    ensures
        match r {
            Ok(found) => check_unique(compatibility@.revisions, role@) is Ok && found.key() == with_role(
                compatibility@.revisions,
                role@,
            )[0] && found.role@ == role@,
            Err(e) => check_unique(compatibility@.revisions, role@) == Err::<(), PrFailure>(e@),
        },
{
    let revisions = compatibility.revisions();
    let ghost all = compatibility@.revisions;
    let mut count: usize = 0;
    let mut first: usize = 0;
    let mut i: usize = 0;
    assert(all.take(0).len() == 0);
    while i < revisions.len()
        invariant
            i <= revisions@.len(),
            all == keys(revisions@),
            count == with_role(all.take(i as int), role@).len(),
            count <= i,
            count > 0 ==> first < revisions@.len() && revisions@[first as int].key() == with_role(all.take(i as int), role@)[0]
                && revisions@[first as int].role@ == role@,
        decreases revisions@.len() - i,
    {
        proof {
            assert(all.take(i + 1).drop_last() =~= all.take(i as int));
            assert(all.take(i + 1).last() == all[i as int]);
            assert(all[i as int] == revisions@[i as int].key());
        }
        if same_text(revisions[i].role.as_str(), role) {
            if count == 0 {
                first = i;
            }
            count += 1;
        }
        i += 1;
    }
    assert(all.take(i as int) =~= all);
    if count == 0 {
        return Err(AutopilotPrError::MissingRepositoryRole(role.to_owned()));
    }
    if count > 1 {
        return Err(AutopilotPrError::AmbiguousRepositoryRole(role.to_owned()));
    }
    Ok(&revisions[first])
}

/// The compatibility set holds the exact revision of a frozen scope.
pub open spec fn check_scope(revisions: Seq<Key>, scope: RepositoryScope) -> Result<(), PrFailure> {
    if revisions.contains(seq![scope.repository@, scope.revision@, scope.role@]) {
        Ok(())
    } else {
        Err(
            AutopilotPrError::CompatibilityScopeMismatch {
                repository: scope.repository@,
                role: scope.role@,
                revision: scope.revision@,
            },
        )
    }
}

fn has_revision(revisions: &[RepositoryRevision], scope: &RepositoryScope) -> (r: bool)
    ensures
        r == keys(revisions@).contains(seq![scope.repository@, scope.revision@, scope.role@]),
{
    let ghost all = keys(revisions@);
    let ghost wanted = seq![scope.repository@, scope.revision@, scope.role@];
    let mut i: usize = 0;
    while i < revisions.len()
        invariant
            i <= revisions@.len(),
            all == keys(revisions@),
            wanted == seq![scope.repository@, scope.revision@, scope.role@],
            forall|j: int| 0 <= j < i ==> all[j] != wanted,
        decreases revisions@.len() - i,
    {
        let revision = &revisions[i];
        assert(all[i as int] == revision.key());
        if same_text(revision.repository.as_str(), scope.repository.as_str()) && same_text(
            revision.role.as_str(),
            scope.role.as_str(),
        ) && same_text(revision.revision.as_str(), scope.revision.as_str()) {
            assert(all[i as int] =~= wanted);
            return true;
        }
        assert(all[i as int][0] == revision.repository@ && all[i as int][1] == revision.revision@ && all[i as int][2]
            == revision.role@);
        i += 1;
    }
    false
}

fn validate_compatibility_against_spec(spec: &FrozenAutopilotSpec, compatibility: &CompatibilitySet) -> (r: Result<
    (),
    AutopilotPrError,
>)
    ensures
        outcome(r) == check_all(
            spec.repository_scope@,
            |s: RepositoryScope| check_scope(compatibility@.revisions, s),
        ),
{
    let ghost all = spec.repository_scope@;
    let ghost check = |s: RepositoryScope| check_scope(compatibility@.revisions, s);
    let mut i: usize = 0;
    assert(all.skip(0) =~= all);
    while i < spec.repository_scope.len()
        invariant
            i <= spec.repository_scope@.len(),
            all == spec.repository_scope@,
            check == (|s: RepositoryScope| check_scope(compatibility@.revisions, s)),
            check_all(all, check) == check_all(all.skip(i as int), check),
        decreases spec.repository_scope@.len() - i,
    {
        proof {
            lemma_check_step(all, i as int, check);
        }
        let scope = &spec.repository_scope[i];
        if !has_revision(compatibility.revisions(), scope) {
            return Err(
                AutopilotPrError::CompatibilityScopeMismatch {
                    repository: scope.repository.clone(),
                    role: scope.role.clone(),
                    revision: scope.revision.clone(),
                },
            );
        }
        i += 1;
    }
    Ok(())
}

pub open spec fn check_permitted(task: AutopilotTask, role: Seq<char>, operation: FileOperation) -> Result<(), PrFailure> {
    if permits(task, role, operation.target(), operation.operation()) {
        Ok(())
    } else {
        Err(
            AutopilotPrError::PatchOutsideTaskAllowance {
                repository_role: role,
                path: operation.target(),
                operation: operation.operation(),
            },
        )
    }
}

/// The patch set stays inside what the task may do in the target repository.
pub open spec fn check_patch(task: AutopilotTask, role: Seq<char>, patch_set: PatchSet) -> Result<(), PrFailure> {
    match check_operations(patch_set.operations@) {
        Err(e) => Err(AutopilotPrError::InvalidPatchSet(e.message())),
        Ok(_) => if !may_edit(task, role) {
            Err(AutopilotPrError::RepositoryRoleReadOnly(role))
        } else {
            check_all(patch_set.operations@, |o: FileOperation| check_permitted(task, role, o))
        },
    }
}

fn validate_permitted(task: &AutopilotTask, repository_role: &str, operations: &[FileOperation]) -> (r: Result<
    (),
    AutopilotPrError,
>)
    ensures
        outcome(r) == check_all(operations@, |o: FileOperation| check_permitted(*task, repository_role@, o)),
{
    let ghost all = operations@;
    let ghost check = |o: FileOperation| check_permitted(*task, repository_role@, o);
    let mut i: usize = 0;
    assert(all.skip(0) =~= all);
    while i < operations.len()
        invariant
            i <= operations@.len(),
            all == operations@,
            check == (|o: FileOperation| check_permitted(*task, repository_role@, o)),
            check_all(all, check) == check_all(all.skip(i as int), check),
        decreases operations@.len() - i,
    {
        proof {
            lemma_check_step(all, i as int, check);
        }
        let operation = &operations[i];
        if !task_permits(task, repository_role, operation.path(), operation.kind()) {
            return Err(
                AutopilotPrError::PatchOutsideTaskAllowance {
                    repository_role: repository_role.to_owned(),
                    path: operation.path().to_owned(),
                    operation: operation.kind(),
                },
            );
        }
        i += 1;
    }
    Ok(())
}

fn validate_patchset_for_target(task: &AutopilotTask, repository_role: &str, patch_set: &PatchSet) -> (r: Result<
    (),
    AutopilotPrError,
>)
    ensures
        outcome(r) == check_patch(*task, repository_role@, *patch_set),
{
    match patch_set.validate() {
        Ok(_) => {},
        Err(e) => {
            return Err(AutopilotPrError::InvalidPatchSet(e.to_string()));
        },
    }
    if !task_may_edit(task, repository_role) {
        return Err(AutopilotPrError::RepositoryRoleReadOnly(repository_role.to_owned()));
    }
    validate_permitted(task, repository_role, patch_set.operations())
}

// ---------------------------------------------------------------------------
// The body of the request
// ---------------------------------------------------------------------------

/// What the head of the body names.
#[verifier::opaque]
pub open spec fn head_section(
    task_id: Seq<char>,
    spec_sha256: Seq<char>,
    dag_sha256: Seq<char>,
    role: Seq<char>,
    revision: Seq<char>,
    parent: Seq<char>,
    patch_set_sha256: Seq<char>,
    candidate_sha256: Seq<char>,
    compatibility_sha256: Seq<char>,
) -> Seq<char> {
    "## AUTOPILOT engineering candidate\n\n- task: `"@ + task_id + "`\n- frozen spec: `"@ + spec_sha256
        + "`\n- task DAG: `"@ + dag_sha256 + "`\n- repository role: `"@ + role + "`\n- exact base revision: `"@ + revision
        + "`\n- parent state: `"@ + parent + "`\n- PatchSet: `"@ + patch_set_sha256 + "`\n- candidate identity: `"@
        + candidate_sha256 + "`\n- compatibility fingerprint: `"@ + compatibility_sha256 + "`\n\n"@
}

/// The line of a hard gate.
pub open spec fn gate_line(gate: Seq<char>, status: Seq<char>) -> Seq<char> {
    "- "@ + gate + ": `"@ + status + "`\n"@
}

/// One line for each hard gate.
#[verifier::opaque]
pub open spec fn gate_section(a: AdmissibilityBreakdown) -> Seq<char> {
    gate_line("build"@, a.build.name()) + gate_line("required_tests"@, a.required_tests.name()) + gate_line("numerical_parity"@, a.numerical_parity.name()) + gate_line("provenance"@, a.provenance.name()) + gate_line("deterministic_contract"@, a.deterministic_contract.name()) + gate_line("resource_budget"@, a.resource_budget.name()) + gate_line("policy_checks"@, a.policy_checks.name())
}

/// One line for each piece of evidence.
pub open spec fn evidence_lines(evidence: Seq<Seq<char>>) -> Seq<char>
    decreases evidence.len(),
{
    if evidence.len() == 0 {
        Seq::empty()
    } else {
        evidence_lines(evidence.drop_last()) + "- "@ + evidence.last() + "\n"@
    }
}

/// One line for each benchmark.
pub open spec fn benchmark_lines(benchmarks: Seq<BenchmarkRecord>) -> Seq<char>
    decreases benchmarks.len(),
{
    if benchmarks.len() == 0 {
        Seq::empty()
    } else {
        let b = benchmarks.last();
        benchmark_lines(benchmarks.drop_last()) + "- `"@ + b.metric@ + "`: "@ + b.summary@ + " "@ + b.unit@ + " ("@ + decimal(
            b.samples@.len(),
        ) + " samples)\n"@
    }
}

pub open spec fn benchmark_section(benchmarks: Seq<BenchmarkRecord>) -> Seq<char> {
    if benchmarks.len() == 0 {
        "- no benchmark required by this accepted FEATURE trajectory\n"@
    } else {
        benchmark_lines(benchmarks)
    }
}

/// The body of the request.
#[verifier::opaque]
pub open spec fn body_text(head: Seq<char>, t: EngineeringTrajectory) -> Seq<char> {
    head + "## Compatibility set\n\n```json\n"@ + set_text(t.compatibility@) + "\n```\n\n## Hard-gate evidence\n\n"@
        + gate_section(t.admissibility) + "\n## Compiler / test / device evidence\n\n"@ + evidence_lines(
        texts(t.compiler_test_device_evidence@),
    ) + "\n## Benchmark evidence\n\n"@ + benchmark_section(t.benchmarks@) + "\n## Review and merge policy\n\n"@
        + "This plan requests branch creation and pull-request creation only. It "@ + "does not request or encode automatic merge"@
        + ". CI and human-review verdicts are external evidence appended to the engineering trajectory.\n"@
}

fn add_gate(out: &mut String, gate: &str, status: GateStatus)
    ensures
        final(out)@ == old(out)@ + gate_line(gate@, status.name()),
{
    let ghost before = out@;
    out.append("- ");
    out.append(gate);
    out.append(": `");
    out.append(status.as_str());
    out.append("`\n");
    assert(out@ =~= before + gate_line(gate@, status.name()));
}

fn render_gates(a: &AdmissibilityBreakdown) -> (r: String)
    ensures
        r@ == gate_section(*a),
{
    proof {
        reveal(gate_section);
    }
    let mut out = String::new();
    add_gate(&mut out, "build", a.build);
    add_gate(&mut out, "required_tests", a.required_tests);
    add_gate(&mut out, "numerical_parity", a.numerical_parity);
    add_gate(&mut out, "provenance", a.provenance);
    add_gate(&mut out, "deterministic_contract", a.deterministic_contract);
    add_gate(&mut out, "resource_budget", a.resource_budget);
    add_gate(&mut out, "policy_checks", a.policy_checks);
    assert(out@ =~= gate_section(*a));
    out
}

fn render_evidence(evidence: &[String]) -> (r: String)
    ensures
        r@ == evidence_lines(texts(evidence@)),
{
    let ghost all = texts(evidence@);
    let mut out = String::new();
    let mut i: usize = 0;
    assert(out@ =~= evidence_lines(all.take(0)));
    while i < evidence.len()
        invariant
            i <= evidence@.len(),
            all == texts(evidence@),
            out@ == evidence_lines(all.take(i as int)),
        decreases evidence@.len() - i,
    {
        proof {
            assert(all.take(i + 1).drop_last() =~= all.take(i as int));
            assert(all.take(i + 1).last() == evidence@[i as int]@);
        }
        out.append("- ");
        out.append(evidence[i].as_str());
        out.append("\n");
        i += 1;
    }
    assert(all.take(i as int) =~= all);
    out
}

fn render_benchmarks(benchmarks: &[BenchmarkRecord]) -> (r: String)
    ensures
        r@ == benchmark_section(benchmarks@),
{
    if benchmarks.len() == 0 {
        return "- no benchmark required by this accepted FEATURE trajectory\n".to_owned();
    }
    let ghost all = benchmarks@;
    let mut out = String::new();
    let mut i: usize = 0;
    assert(out@ =~= benchmark_lines(all.take(0)));
    while i < benchmarks.len()
        invariant
            i <= benchmarks@.len(),
            all == benchmarks@,
            out@ == benchmark_lines(all.take(i as int)),
        decreases benchmarks@.len() - i,
    {
        proof {
            assert(all.take(i + 1).drop_last() =~= all.take(i as int));
            assert(all.take(i + 1).last() == benchmarks@[i as int]);
        }
        out.append("- `");
        out.append(benchmarks[i].metric.as_str());
        out.append("`: ");
        out.append(benchmarks[i].summary.as_str());
        out.append(" ");
        out.append(benchmarks[i].unit.as_str());
        out.append(" (");
        out.append(decimal_text(benchmarks[i].samples.len() as u64).as_str());
        out.append(" samples)\n");
        i += 1;
    }
    assert(all.take(i as int) =~= all);
    out
}

fn render_head(
    task_id: &str,
    spec_sha256: &str,
    dag_sha256: &str,
    target: &RepositoryRevision,
    parent: &str,
    patch_set_sha256: &str,
    candidate_sha256: &str,
    compatibility_sha256: &str,
) -> (r: String)
    ensures
        r@ == head_section(
            task_id@,
            spec_sha256@,
            dag_sha256@,
            target.role@,
            target.revision@,
            parent@,
            patch_set_sha256@,
            candidate_sha256@,
            compatibility_sha256@,
        ),
{
    proof {
        reveal(head_section);
    }
    let mut out = "## AUTOPILOT engineering candidate\n\n- task: `".to_owned();
    out.append(task_id);
    out.append("`\n- frozen spec: `");
    out.append(spec_sha256);
    out.append("`\n- task DAG: `");
    out.append(dag_sha256);
    out.append("`\n- repository role: `");
    out.append(target.role.as_str());
    out.append("`\n- exact base revision: `");
    out.append(target.revision.as_str());
    out.append("`\n- parent state: `");
    out.append(parent);
    out.append("`\n- PatchSet: `");
    out.append(patch_set_sha256);
    out.append("`\n- candidate identity: `");
    out.append(candidate_sha256);
    out.append("`\n- compatibility fingerprint: `");
    out.append(compatibility_sha256);
    out.append("`\n\n");
    out
}

fn render_pr_body(head: String, trajectory: &EngineeringTrajectory) -> (r: String)
    ensures
        r@ == body_text(head@, *trajectory),
{
    proof {
        reveal(body_text);
    }
    let mut body = head;
    body.append("## Compatibility set\n\n```json\n");
    body.append(trajectory.compatibility.to_json_string().as_str());
    body.append("\n```\n\n## Hard-gate evidence\n\n");
    body.append(render_gates(&trajectory.admissibility).as_str());
    body.append("\n## Compiler / test / device evidence\n\n");
    body.append(render_evidence(trajectory.compiler_test_device_evidence.as_slice()).as_str());
    body.append("\n## Benchmark evidence\n\n");
    body.append(render_benchmarks(trajectory.benchmarks.as_slice()).as_str());
    body.append("\n## Review and merge policy\n\n");
    body.append("This plan requests branch creation and pull-request creation only. It ");
    body.append("does not request or encode automatic merge");
    body.append(". CI and human-review verdicts are external evidence appended to the engineering trajectory.\n");
    body
}

// ---------------------------------------------------------------------------
// Plans
// ---------------------------------------------------------------------------

/// What a hosting adapter is asked to do for one candidate.
#[derive(Debug, Clone, PartialEq, Eq)]
pub struct AutopilotPullRequestPlan {
    pub(crate) schema_version: u64,
    pub(crate) spec_sha256: String,
    pub(crate) dag_sha256: String,
    pub(crate) task_id: String,
    pub(crate) repository_role: String,
    pub(crate) repository: String,
    pub(crate) base_revision: String,
    pub(crate) default_branch: String,
    pub(crate) branch_name: String,
    pub(crate) title: String,
    pub(crate) body: String,
    pub(crate) compatibility_sha256: String,
    pub(crate) patch_set_sha256: String,
    pub(crate) candidate_sha256: String,
    pub(crate) plan_sha256: String,
}

/// The contents over mathematical sequences.
pub ghost struct PlanRecord {
    pub schema_version: u64,
    pub spec_sha256: Seq<char>,
    pub dag_sha256: Seq<char>,
    pub task_id: Seq<char>,
    pub repository_role: Seq<char>,
    pub repository: Seq<char>,
    pub base_revision: Seq<char>,
    pub default_branch: Seq<char>,
    pub branch_name: Seq<char>,
    pub title: Seq<char>,
    pub body: Seq<char>,
    pub compatibility_sha256: Seq<char>,
    pub patch_set_sha256: Seq<char>,
    pub candidate_sha256: Seq<char>,
    pub plan_sha256: Seq<char>,
}

impl AutopilotPullRequestPlan {
    pub open(crate) spec fn view(&self) -> PlanRecord {
        PlanRecord {
            schema_version: self.schema_version,
            spec_sha256: self.spec_sha256@,
            dag_sha256: self.dag_sha256@,
            task_id: self.task_id@,
            repository_role: self.repository_role@,
            repository: self.repository@,
            base_revision: self.base_revision@,
            default_branch: self.default_branch@,
            branch_name: self.branch_name@,
            title: self.title@,
            body: self.body@,
            compatibility_sha256: self.compatibility_sha256@,
            patch_set_sha256: self.patch_set_sha256@,
            candidate_sha256: self.candidate_sha256@,
            plan_sha256: self.plan_sha256@,
        }
    }
}

/// Specification, graph and trajectory are intact, belong together, and the candidate
/// was accepted.
#[verifier::opaque]
pub open spec fn check_sources(spec: FrozenAutopilotSpec, dag: AutopilotTaskDag, t: EngineeringTrajectory) -> Result<
    (),
    PrFailure,
> {
    if !spec.is_intact() {
        Err(AutopilotPrError::InvalidSpec(spec.mismatch().message()))
    } else if !dag.is_intact() {
        Err(AutopilotPrError::InvalidDag(dag.mismatch().message()))
    } else if dag@.spec_sha256 != spec@.spec_sha256 {
        Err(AutopilotPrError::SpecDagMismatch)
    } else {
        match check_trajectory(t) {
            Err(e) => Err(AutopilotPrError::InvalidTrajectory(e.message())),
            Ok(_) => if t.task_spec_id@ != spec@.spec_sha256 {
                Err(AutopilotPrError::TrajectorySpecMismatch { expected: spec@.spec_sha256, actual: t.task_spec_id@ })
            } else if !(t.verdict is Accepted) || !t.admissibility.all_pass() {
                Err(AutopilotPrError::TrajectoryNotAccepted)
            } else {
                Ok(())
            },
        }
    }
}

/// The candidate fits the task and the target repository.
#[verifier::opaque]
pub open spec fn check_target(spec: FrozenAutopilotSpec, task: AutopilotTask, t: EngineeringTrajectory, role: Seq<char>) -> Result<
    (),
    PrFailure,
> {
    if !texts(task@.repository_roles).contains(role) {
        Err(AutopilotPrError::RepositoryRoleOutsideTask(role))
    } else {
        and_then(
            check_all(spec@.repository_scope, |s: RepositoryScope| check_scope(t.compatibility@.revisions, s)),
            and_then(
                check_unique(t.compatibility@.revisions, role),
                and_then(
                    check_patch(task, role, t.patch_set),
                    if task@.regime is Perf && t.benchmarks@.len() == 0 {
                        Err(AutopilotPrError::PerfTrajectoryMissingBenchmark)
                    } else {
                        Ok(())
                    },
                ),
            ),
        )
    }
}

/// The branch of a candidate: never one that a person would name.
pub open spec fn branch_of(task_id: Seq<char>, patch_set_sha256: Seq<char>) -> Seq<char> {
    "autopilot/"@ + task_id + "/"@ + first_of(patch_set_sha256, 12)
}

/// Whether a plan can be made for a candidate, and why not.
pub open spec fn check_plan(
    spec: FrozenAutopilotSpec,
    dag: AutopilotTaskDag,
    t: EngineeringTrajectory,
    draft: PullRequestPlanDraft,
) -> Result<(), PrFailure> {
    and_then(
        check_sources(spec, dag, t),
        and_then(
            check_draft(draft),
            match find_task(dag@.tasks, draft.task_id@) {
                None => Err(AutopilotPrError::UnknownTask(draft.task_id@)),
                Some(task) => and_then(
                    check_target(spec, task, t, draft.repository_role@),
                    if branch_of(draft.task_id@, t.patch_set.digest()) == draft.default_branch@ {
                        Err(AutopilotPrError::DefaultBranchMutationForbidden(draft.default_branch@))
                    } else {
                        Ok(())
                    },
                ),
            },
        ),
    )
}

fn validate_sources(spec: &FrozenAutopilotSpec, dag: &AutopilotTaskDag, trajectory: &EngineeringTrajectory) -> (r: Result<
    (),
    AutopilotPrError,
>)
    ensures
        outcome(r) == check_sources(*spec, *dag, *trajectory),
{
    proof {
        reveal(check_sources);
    }
    match spec.verify() {
        Ok(_) => {},
        Err(e) => {
            return Err(AutopilotPrError::InvalidSpec(e.to_string()));
        },
    }
    match dag.verify() {
        Ok(_) => {},
        Err(e) => {
            return Err(AutopilotPrError::InvalidDag(e.to_string()));
        },
    }
    if !same_text(dag.spec_sha256(), spec.spec_sha256()) {
        return Err(AutopilotPrError::SpecDagMismatch);
    }
    match trajectory.validate() {
        Ok(_) => {},
        Err(e) => {
            return Err(AutopilotPrError::InvalidTrajectory(e.to_string()));
        },
    }
    if !same_text(trajectory.task_spec_id.as_str(), spec.spec_sha256()) {
        return Err(
            AutopilotPrError::TrajectorySpecMismatch {
                expected: spec.spec_sha256.clone(),
                actual: trajectory.task_spec_id.clone(),
            },
        );
    }
    if trajectory.verdict != EngineeringVerdict::Accepted || !trajectory.admissibility.is_admissible() {
        return Err(AutopilotPrError::TrajectoryNotAccepted);
    }
    Ok(())
}

fn validate_target<'a>(
    spec: &FrozenAutopilotSpec,
    task: &AutopilotTask,
    trajectory: &'a EngineeringTrajectory,
    role: &str,
) -> (r: Result<&'a RepositoryRevision, AutopilotPrError>)
    ensures
        match r {
            Ok(target) => {
                &&& check_target(*spec, *task, *trajectory, role@) is Ok
                &&& target.key() == with_role(trajectory.compatibility@.revisions, role@)[0]
                &&& target.role@ == role@
                &&& check_operations(trajectory.patch_set.operations@) is Ok
            },
            Err(e) => check_target(*spec, *task, *trajectory, role@) == Err::<(), PrFailure>(e@),
        },
{
    proof {
        reveal(check_target);
    }
    if !contains_text(task.repository_roles(), role) {
        return Err(AutopilotPrError::RepositoryRoleOutsideTask(role.to_owned()));
    }
    validate_compatibility_against_spec(spec, &trajectory.compatibility)?;
    let target = unique_revision_for_role(&trajectory.compatibility, role)?;
    validate_patchset_for_target(task, role, &trajectory.patch_set)?;
    match task.regime() {
        TaskRegime::Perf { .. } => {
            if trajectory.benchmarks.len() == 0 {
                return Err(AutopilotPrError::PerfTrajectoryMissingBenchmark);
            }
        },
        TaskRegime::Feature => {},
    }
    Ok(target)
}

fn branch_for(task_id: &str, patch_set_sha256: &str) -> (r: String)
    ensures
        r@ == branch_of(task_id@, patch_set_sha256@),
{
    let mut out = "autopilot/".to_owned();
    out.append(task_id);
    out.append("/");
    out.append(first_chars(patch_set_sha256, 12).as_str());
    out
}

/// The names of the actions that every plan asks for.
pub open spec fn action_names() -> Seq<Seq<char>> {
    seq![HostingAction::CreateBranch.name(), HostingAction::OpenPullRequest.name()]
}

fn action_list() -> (r: Vec<String>)
    ensures
        texts(r@) == action_names(),
{
    let mut out: Vec<String> = Vec::new();
    out.push(HostingAction::CreateBranch.as_str().to_owned());
    out.push(HostingAction::OpenPullRequest.as_str().to_owned());
    assert(texts(out@) =~= action_names());
    out
}

impl AutopilotPullRequestPlan {
    /// Everything but the identity, as JSON.
    pub open spec fn unsigned(&self) -> Value {
        empty_obj().with("base_revision"@, Value::Str(self@.base_revision)).with("body"@, Value::Str(self@.body)).with(
            "branch_name"@,
            Value::Str(self@.branch_name),
        ).with("candidate_sha256"@, Value::Str(self@.candidate_sha256)).with(
            "compatibility_sha256"@,
            Value::Str(self@.compatibility_sha256),
        ).with("dag_sha256"@, Value::Str(self@.dag_sha256)).with("default_branch"@, Value::Str(self@.default_branch)).with(
            "hosting_actions"@,
            text_array(action_names()),
        ).with("patch_set_sha256"@, Value::Str(self@.patch_set_sha256)).with("repository"@, Value::Str(self@.repository)).with(
            "repository_role"@,
            Value::Str(self@.repository_role),
        ).with("schema_version"@, Value::Num(decimal(self@.schema_version as nat))).with(
            "spec_sha256"@,
            Value::Str(self@.spec_sha256),
        ).with("task_id"@, Value::Str(self@.task_id)).with("title"@, Value::Str(self@.title))
    }

    /// The digest of everything but the identity.
    pub open spec fn identity(&self) -> Seq<char> {
        digest_hex(encode_utf8(print(self.unsigned())))
    }

    /// The recorded identity is the digest of the contents.
    pub open spec fn is_intact(&self) -> bool {
        self@.plan_sha256 == self.identity()
    }

    /// The plan leaves the default branch alone and is intact.
    pub open spec fn check(&self) -> Result<(), PrFailure> {
        if self@.branch_name == self@.default_branch {
            Err(AutopilotPrError::DefaultBranchMutationForbidden(self@.default_branch))
        } else if !self.is_intact() {
            Err(AutopilotPrError::PlanHashMismatch { expected: self@.plan_sha256, actual: self.identity() })
        } else {
            Ok(())
        }
    }

    /// The plan is the one for the candidate of a trajectory.
    pub open spec fn is_for(
        &self,
        spec: FrozenAutopilotSpec,
        dag: AutopilotTaskDag,
        t: EngineeringTrajectory,
        draft: PullRequestPlanDraft,
    ) -> bool {
        let target = with_role(t.compatibility@.revisions, draft.repository_role@)[0];
        &&& self@.schema_version == AUTOPILOT_PR_PLAN_SCHEMA_VERSION
        &&& self@.spec_sha256 == spec@.spec_sha256
        &&& self@.dag_sha256 == dag@.dag_sha256
        &&& self@.task_id == draft.task_id@
        &&& self@.repository_role == draft.repository_role@
        &&& self@.repository == target[0]
        &&& self@.base_revision == target[1]
        &&& self@.default_branch == draft.default_branch@
        &&& self@.branch_name == branch_of(draft.task_id@, t.patch_set.digest())
        &&& self@.title == draft.title@
        &&& self@.compatibility_sha256 == set_fingerprint(t.compatibility@)
        &&& self@.patch_set_sha256 == t.patch_set.digest()
        &&& self@.candidate_sha256 == candidate_identity(t)
        &&& self@.body == body_text(
            head_section(
                draft.task_id@,
                spec@.spec_sha256,
                dag@.dag_sha256,
                draft.repository_role@,
                target[1],
                t.parent_state_id@,
                t.patch_set.digest(),
                candidate_identity(t),
                set_fingerprint(t.compatibility@),
            ),
            t,
        )
    }

    pub fn new(
        spec: &FrozenAutopilotSpec,
        dag: &AutopilotTaskDag,
        trajectory: &EngineeringTrajectory,
        draft: PullRequestPlanDraft,
    ) -> (r: Result<Self, AutopilotPrError>)
        ensures
            match r {
                Ok(p) => {
                    &&& check_plan(*spec, *dag, *trajectory, draft) is Ok
                    &&& p.is_for(*spec, *dag, *trajectory, draft)
                    &&& p.check() is Ok
                },
                Err(e) => check_plan(*spec, *dag, *trajectory, draft) == Err::<(), PrFailure>(e@),
            },
    {
        validate_sources(spec, dag, trajectory)?;
        validate_draft(&draft)?;
        let task = match dag.task(draft.task_id.as_str()) {
            Some(task) => task,
            None => {
                return Err(AutopilotPrError::UnknownTask(draft.task_id));
            },
        };
        let target = validate_target(spec, task, trajectory, draft.repository_role.as_str())?;
        let patch_set_sha256 = match trajectory.patch_set.identity() {
            Ok(id) => id,
            Err(e) => {
                return Err(AutopilotPrError::InvalidPatchSet(e.to_string()));
            },
        };
        let candidate_sha256 = trajectory_candidate_identity(trajectory)?;
        let branch_name = branch_for(draft.task_id.as_str(), patch_set_sha256.as_str());
        if same_text(branch_name.as_str(), draft.default_branch.as_str()) {
            return Err(AutopilotPrError::DefaultBranchMutationForbidden(draft.default_branch));
        }
        Ok(Self::assemble(spec, dag, trajectory, draft, target, branch_name, patch_set_sha256, candidate_sha256))
    }

    fn assemble(
        spec: &FrozenAutopilotSpec,
        dag: &AutopilotTaskDag,
        trajectory: &EngineeringTrajectory,
        draft: PullRequestPlanDraft,
        target: &RepositoryRevision,
        branch_name: String,
        patch_set_sha256: String,
        candidate_sha256: String,
    ) -> (p: Self)
        requires
            target.key() == with_role(trajectory.compatibility@.revisions, draft.repository_role@)[0],
            target.role@ == draft.repository_role@,
            branch_name@ == branch_of(draft.task_id@, trajectory.patch_set.digest()),
            patch_set_sha256@ == trajectory.patch_set.digest(),
            candidate_sha256@ == candidate_identity(*trajectory),
        ensures
            p.is_for(*spec, *dag, *trajectory, draft),
            p.is_intact(),
    {
        let compatibility_sha256 = trajectory.compatibility.fingerprint();
        let head = render_head(
            draft.task_id.as_str(),
            spec.spec_sha256(),
            dag.dag_sha256(),
            target,
            trajectory.parent_state_id.as_str(),
            patch_set_sha256.as_str(),
            candidate_sha256.as_str(),
            compatibility_sha256.as_str(),
        );
        let body = render_pr_body(head, trajectory);
        let mut plan = AutopilotPullRequestPlan {
            schema_version: AUTOPILOT_PR_PLAN_SCHEMA_VERSION,
            spec_sha256: spec.spec_sha256.clone(),
            dag_sha256: dag.dag_sha256.clone(),
            task_id: draft.task_id,
            repository_role: draft.repository_role,
            repository: target.repository.clone(),
            base_revision: target.revision.clone(),
            default_branch: draft.default_branch,
            branch_name,
            title: draft.title,
            body,
            compatibility_sha256,
            patch_set_sha256,
            candidate_sha256,
            plan_sha256: String::new(),
        };
        let identity = plan.compute_sha256();
        plan.plan_sha256 = identity;
        plan
    }

    /// A branch, then a pull request; nothing else.
    pub fn hosting_actions(&self) -> (r: [HostingAction; 2])
        ensures
            r@ == seq![HostingAction::CreateBranch, HostingAction::OpenPullRequest],
    {
        let r = [HostingAction::CreateBranch, HostingAction::OpenPullRequest];
        assert(r@ =~= seq![HostingAction::CreateBranch, HostingAction::OpenPullRequest]);
        r
    }

    pub fn repository(&self) -> (r: &str)
        ensures
            r@ == self@.repository,
    {
        self.repository.as_str()
    }

    pub fn repository_role(&self) -> (r: &str)
        ensures
            r@ == self@.repository_role,
    {
        self.repository_role.as_str()
    }

    pub fn base_revision(&self) -> (r: &str)
        ensures
            r@ == self@.base_revision,
    {
        self.base_revision.as_str()
    }

    pub fn default_branch(&self) -> (r: &str)
        ensures
            r@ == self@.default_branch,
    {
        self.default_branch.as_str()
    }

    pub fn branch_name(&self) -> (r: &str)
        ensures
            r@ == self@.branch_name,
    {
        self.branch_name.as_str()
    }

    pub fn title(&self) -> (r: &str)
        ensures
            r@ == self@.title,
    {
        self.title.as_str()
    }

    pub fn body(&self) -> (r: &str)
        ensures
            r@ == self@.body,
    {
        self.body.as_str()
    }

    pub fn plan_sha256(&self) -> (r: &str)
        ensures
            r@ == self@.plan_sha256,
    {
        self.plan_sha256.as_str()
    }

    pub fn candidate_sha256(&self) -> (r: &str)
        ensures
            r@ == self@.candidate_sha256,
    {
        self.candidate_sha256.as_str()
    }

    pub fn verify(&self) -> (r: Result<(), AutopilotPrError>)
        ensures
            outcome(r) == self.check(),
    {
        if same_text(self.branch_name.as_str(), self.default_branch.as_str()) {
            return Err(AutopilotPrError::DefaultBranchMutationForbidden(self.default_branch.clone()));
        }
        let actual = self.compute_sha256();
        if !same_text(actual.as_str(), self.plan_sha256.as_str()) {
            return Err(AutopilotPrError::PlanHashMismatch { expected: self.plan_sha256.clone(), actual });
        }
        Ok(())
    }

    pub fn to_json_string(&self) -> (r: String)
        ensures
            r@ == print(self.unsigned().with("plan_sha256"@, Value::Str(self@.plan_sha256))),
    {
        let mut root = self.unsigned_json();
        root.set("plan_sha256", Json::Str(self.plan_sha256.clone()));
        root.to_string()
    }

    fn compute_sha256(&self) -> (r: String)
        ensures
            r@ == self.identity(),
    {
        sha256_hex(self.unsigned_json().to_string().as_str().as_bytes())
    }

    fn unsigned_json(&self) -> (r: Json)
        ensures
            r@ == self.unsigned(),
    {
        let mut root = Json::obj();
        root.set("base_revision", Json::Str(self.base_revision.clone()));
        root.set("body", Json::Str(self.body.clone()));
        root.set("branch_name", Json::Str(self.branch_name.clone()));
        root.set("candidate_sha256", Json::Str(self.candidate_sha256.clone()));
        root.set("compatibility_sha256", Json::Str(self.compatibility_sha256.clone()));
        root.set("dag_sha256", Json::Str(self.dag_sha256.clone()));
        root.set("default_branch", Json::Str(self.default_branch.clone()));
        root.set("hosting_actions", Json::text_array(action_list().as_slice()));
        root.set("patch_set_sha256", Json::Str(self.patch_set_sha256.clone()));
        root.set("repository", Json::Str(self.repository.clone()));
        root.set("repository_role", Json::Str(self.repository_role.clone()));
        root.set("schema_version", Json::num(self.schema_version));
        root.set("spec_sha256", Json::Str(self.spec_sha256.clone()));
        root.set("task_id", Json::Str(self.task_id.clone()));
        root.set("title", Json::Str(self.title.clone()));
        root
    }
}

// ---------------------------------------------------------------------------
// Receipts
// ---------------------------------------------------------------------------

/// What the hosting adapter returns once the branch and the request exist.
#[derive(Debug, Clone, PartialEq, Eq)]
pub struct PullRequestEmissionReceipt {
    pub(crate) plan_sha256: String,
    pub(crate) repository: String,
    pub(crate) pull_request_number: u64,
    pub(crate) branch_name: String,
    pub(crate) head_revision: String,
}

/// The contents over mathematical sequences.
pub ghost struct ReceiptRecord {
    pub plan_sha256: Seq<char>,
    pub repository: Seq<char>,
    pub pull_request_number: u64,
    pub branch_name: Seq<char>,
    pub head_revision: Seq<char>,
}

impl PullRequestEmissionReceipt {
    pub open(crate) spec fn view(&self) -> ReceiptRecord {
        ReceiptRecord {
            plan_sha256: self.plan_sha256@,
            repository: self.repository@,
            pull_request_number: self.pull_request_number,
            branch_name: self.branch_name@,
            head_revision: self.head_revision@,
        }
    }
}

pub open spec fn check_emission(plan: AutopilotPullRequestPlan, number: u64, head_revision: Seq<char>) -> Result<
    (),
    PrFailure,
> {
    and_then(
        plan.check(),
        if number == 0 {
            Err(AutopilotPrError::InvalidPullRequestNumber)
        } else {
            check_revision(head_revision)
        },
    )
}

impl PullRequestEmissionReceipt {
    /// The receipt belongs to the plan.
    pub open spec fn check_against(&self, plan: AutopilotPullRequestPlan) -> Result<(), PrFailure> {
        and_then(
            plan.check(),
            if self@.plan_sha256 != plan@.plan_sha256 || self@.repository != plan@.repository || self@.branch_name
                != plan@.branch_name {
                Err(AutopilotPrError::EmissionReceiptMismatch)
            } else {
                check_revision(self@.head_revision)
            },
        )
    }

    pub fn new(plan: &AutopilotPullRequestPlan, pull_request_number: u64, head_revision: impl IntoText) -> (r: Result<
        Self,
        AutopilotPrError,
    >)
        ensures
            match r {
                Ok(receipt) => {
                    &&& check_emission(*plan, pull_request_number, head_revision.text()) is Ok
                    &&& receipt@.plan_sha256 == plan@.plan_sha256
                    &&& receipt@.repository == plan@.repository
                    &&& receipt@.pull_request_number == pull_request_number
                    &&& receipt@.branch_name == plan@.branch_name
                    &&& receipt@.head_revision == lowercase(head_revision.text())
                },
                Err(e) => check_emission(*plan, pull_request_number, head_revision.text()) == Err::<(), PrFailure>(e@),
            },
    {
        plan.verify()?;
        if pull_request_number == 0 {
            return Err(AutopilotPrError::InvalidPullRequestNumber);
        }
        let head_revision = head_revision.into_text();
        validate_revision(head_revision.as_str())?;
        Ok(
            PullRequestEmissionReceipt {
                plan_sha256: plan.plan_sha256.clone(),
                repository: plan.repository.clone(),
                pull_request_number,
                branch_name: plan.branch_name.clone(),
                head_revision: to_lowercase(head_revision.as_str()),
            },
        )
    }

    pub fn pull_request_number(&self) -> (r: u64)
        ensures
            r == self@.pull_request_number,
    {
        self.pull_request_number
    }

    pub fn head_revision(&self) -> (r: &str)
        ensures
            r@ == self@.head_revision,
    {
        self.head_revision.as_str()
    }

    pub fn verify_against_plan(&self, plan: &AutopilotPullRequestPlan) -> (r: Result<(), AutopilotPrError>)
        ensures
            outcome(r) == self.check_against(*plan),
    {
        plan.verify()?;
        if !same_text(self.plan_sha256.as_str(), plan.plan_sha256.as_str()) || !same_text(
            self.repository.as_str(),
            plan.repository.as_str(),
        ) || !same_text(self.branch_name.as_str(), plan.branch_name.as_str()) {
            return Err(AutopilotPrError::EmissionReceiptMismatch);
        }
        validate_revision(self.head_revision.as_str())
    }
}

// ---------------------------------------------------------------------------
// Verdicts
// ---------------------------------------------------------------------------

#[derive(Debug, Clone, Copy, PartialEq, Eq, Structural)]
pub enum ExternalVerdictKind {
    Ci,
    HumanReview,
}

impl ExternalVerdictKind {
    pub open spec fn name(self) -> Seq<char> {
        match self {
            ExternalVerdictKind::Ci => "ci"@,
            ExternalVerdictKind::HumanReview => "human-review"@,
        }
    }

    pub fn as_str(self) -> (r: &'static str)
        ensures
            r@ == self.name(),
    {
        match self {
            ExternalVerdictKind::Ci => "ci",
            ExternalVerdictKind::HumanReview => "human-review",
        }
    }
}

/// A verdict from outside, as a digest of its evidence and the exact request and head
/// that it is about.
#[derive(Debug, Clone, PartialEq, Eq)]
pub struct ExternalPrVerdict {
    pub(crate) kind: ExternalVerdictKind,
    pub(crate) plan_sha256: String,
    pub(crate) repository: String,
    pub(crate) pull_request_number: u64,
    pub head_revision: String,
    pub(crate) accepted: bool,
    pub(crate) reason: String,
    pub(crate) evidence_sha256: String,
}

/// The contents over mathematical sequences.
pub ghost struct VerdictRecord {
    pub kind: ExternalVerdictKind,
    pub plan_sha256: Seq<char>,
    pub repository: Seq<char>,
    pub pull_request_number: u64,
    pub head_revision: Seq<char>,
    pub accepted: bool,
    pub reason: Seq<char>,
    pub evidence_sha256: Seq<char>,
}

impl ExternalPrVerdict {
    pub open(crate) spec fn view(&self) -> VerdictRecord {
        VerdictRecord {
            kind: self.kind,
            plan_sha256: self.plan_sha256@,
            repository: self.repository@,
            pull_request_number: self.pull_request_number,
            head_revision: self.head_revision@,
            accepted: self.accepted,
            reason: self.reason@,
            evidence_sha256: self.evidence_sha256@,
        }
    }
}

pub open spec fn check_verdict(reason: Seq<char>, evidence: Seq<char>) -> Result<(), PrFailure> {
    and_then(check_text("external_verdict.reason", reason), check_digest("external_verdict.evidence_sha256", evidence))
}

impl ExternalPrVerdict {
    pub fn new(
        receipt: &PullRequestEmissionReceipt,
        kind: ExternalVerdictKind,
        accepted: bool,
        reason: impl IntoText,
        evidence_sha256: impl IntoText,
    ) -> (r: Result<Self, AutopilotPrError>)
        ensures
            match r {
                Ok(v) => {
                    &&& check_verdict(reason.text(), evidence_sha256.text()) is Ok
                    &&& v@.kind == kind
                    &&& v@.plan_sha256 == receipt@.plan_sha256
                    &&& v@.repository == receipt@.repository
                    &&& v@.pull_request_number == receipt@.pull_request_number
                    &&& v@.head_revision == receipt@.head_revision
                    &&& v@.accepted == accepted
                    &&& v@.reason == reason.text()
                    &&& v@.evidence_sha256 == lowercase(evidence_sha256.text())
                },
                Err(e) => check_verdict(reason.text(), evidence_sha256.text()) == Err::<(), PrFailure>(e@),
            },
    {
        let reason = reason.into_text();
        let evidence_sha256 = evidence_sha256.into_text();
        validate_text("external_verdict.reason", reason.as_str())?;
        validate_digest("external_verdict.evidence_sha256", evidence_sha256.as_str())?;
        Ok(
            ExternalPrVerdict {
                kind,
                plan_sha256: receipt.plan_sha256.clone(),
                repository: receipt.repository.clone(),
                pull_request_number: receipt.pull_request_number,
                head_revision: receipt.head_revision.clone(),
                accepted,
                reason,
                evidence_sha256: to_lowercase(evidence_sha256.as_str()),
            },
        )
    }

    pub fn kind(&self) -> (r: ExternalVerdictKind)
        ensures
            r == self@.kind,
    {
        self.kind
    }

    pub fn accepted(&self) -> (r: bool)
        ensures
            r == self@.accepted,
    {
        self.accepted
    }

    pub fn evidence_sha256(&self) -> (r: &str)
        ensures
            r@ == self@.evidence_sha256,
    {
        self.evidence_sha256.as_str()
    }

    /// How the verdict is named in a trajectory.
    pub open spec fn source(&self) -> Seq<char> {
        "github:"@ + self@.kind.name() + ":"@ + self@.repository + "#"@ + decimal(self@.pull_request_number as nat) + "@"@
            + self@.head_revision + ":"@ + self@.evidence_sha256
    }

    fn source_text(&self) -> (r: String)
        ensures
            r@ == self.source(),
    {
        let mut out = "github:".to_owned();
        out.append(self.kind.as_str());
        out.append(":");
        out.append(self.repository.as_str());
        out.append("#");
        out.append(decimal_text(self.pull_request_number).as_str());
        out.append("@");
        out.append(self.head_revision.as_str());
        out.append(":");
        out.append(self.evidence_sha256.as_str());
        out
    }
}

/// Some later verdict has the given source.
pub open spec fn has_source(verdicts: Seq<LaterVerdict>, source: Seq<char>) -> bool {
    exists|i: int| 0 <= i < verdicts.len() && (#[trigger] verdicts[i]).source@ == source
}

fn source_is_known(verdicts: &[LaterVerdict], source: &str) -> (r: bool)
    ensures
        r == has_source(verdicts@, source@),
{
    let mut i: usize = 0;
    while i < verdicts.len()
        invariant
            i <= verdicts@.len(),
            forall|j: int| 0 <= j < i ==> (#[trigger] verdicts@[j]).source@ != source@,
        decreases verdicts@.len() - i,
    {
        if same_text(verdicts[i].source.as_str(), source) {
            return true;
        }
        i += 1;
    }
    false
}

/// The trajectory is still the one that the plan was made for.
pub open spec fn check_same_candidate(plan: AutopilotPullRequestPlan, t: EngineeringTrajectory) -> Result<(), PrFailure> {
    match check_trajectory(t) {
        Err(e) => Err(AutopilotPrError::InvalidTrajectory(e.message())),
        Ok(_) => if candidate_identity(t) != plan@.candidate_sha256 {
            Err(
                AutopilotPrError::TrajectoryCandidateMismatch {
                    expected: plan@.candidate_sha256,
                    actual: candidate_identity(t),
                },
            )
        } else {
            Ok(())
        },
    }
}

/// Whether a verdict can be appended to a trajectory, and why not.
pub open spec fn check_append(
    plan: AutopilotPullRequestPlan,
    receipt: PullRequestEmissionReceipt,
    verdict: ExternalPrVerdict,
    t: EngineeringTrajectory,
) -> Result<(), PrFailure> {
    and_then(
        receipt.check_against(plan),
        and_then(
            check_same_candidate(plan, t),
            if verdict@.plan_sha256 != plan@.plan_sha256 || verdict@.repository != receipt@.repository
                || verdict@.pull_request_number != receipt@.pull_request_number || verdict@.head_revision
                != receipt@.head_revision {
                Err(AutopilotPrError::ExternalVerdictContextMismatch)
            } else if has_source(t.later_verdicts@, verdict.source()) {
                Err(AutopilotPrError::DuplicateExternalVerdict(verdict.source()))
            } else {
                match check_later(verdict.source(), verdict@.reason) {
                    Err(e) => Err(AutopilotPrError::InvalidTrajectory(e.message())),
                    Ok(_) => Ok(()),
                }
            },
        ),
    )
}

/// `after` is `before` with one more later verdict, that of `verdict`.
pub open spec fn is_appended(before: EngineeringTrajectory, after: EngineeringTrajectory, verdict: ExternalPrVerdict) -> bool {
    let later = after.later_verdicts@.last();
    &&& after.task_spec_id == before.task_spec_id
    &&& after.compatibility == before.compatibility
    &&& after.parent_state_id == before.parent_state_id
    &&& after.patch_set == before.patch_set
    &&& after.proposer == before.proposer
    &&& after.compiler_test_device_evidence == before.compiler_test_device_evidence
    &&& after.admissibility == before.admissibility
    &&& after.benchmarks == before.benchmarks
    &&& after.verdict == before.verdict
    &&& after.verdict_reason == before.verdict_reason
    &&& after.later_verdicts@ == before.later_verdicts@.push(later)
    &&& later.source@ == verdict.source()
    &&& later.accepted == verdict@.accepted
    &&& later.reason@ == verdict@.reason
}

fn validate_same_candidate(plan: &AutopilotPullRequestPlan, trajectory: &EngineeringTrajectory) -> (r: Result<
    (),
    AutopilotPrError,
>)
    ensures
        outcome(r) == check_same_candidate(*plan, *trajectory),
{
    match trajectory.validate() {
        Ok(_) => {},
        Err(e) => {
            return Err(AutopilotPrError::InvalidTrajectory(e.to_string()));
        },
    }
    let actual = trajectory_candidate_identity(trajectory)?;
    if !same_text(actual.as_str(), plan.candidate_sha256.as_str()) {
        return Err(
            AutopilotPrError::TrajectoryCandidateMismatch { expected: plan.candidate_sha256.clone(), actual },
        );
    }
    Ok(())
}

/// Appends a verdict to the trajectory of the candidate. A rejection is kept just as an
/// approval is; a refused verdict leaves the trajectory as it was.
pub fn append_external_pr_verdict(
    plan: &AutopilotPullRequestPlan,
    receipt: &PullRequestEmissionReceipt,
    verdict: &ExternalPrVerdict,
    trajectory: &mut EngineeringTrajectory,
) -> (r: Result<(), AutopilotPrError>)
    ensures
        outcome(r) == check_append(*plan, *receipt, *verdict, *old(trajectory)),
        r is Ok ==> is_appended(*old(trajectory), *final(trajectory), *verdict),
        r is Ok ==> check_trajectory(*final(trajectory)) is Ok,
        r is Err ==> *final(trajectory) == *old(trajectory),
{
    receipt.verify_against_plan(plan)?;
    validate_same_candidate(plan, trajectory)?;
    if !same_text(verdict.plan_sha256.as_str(), plan.plan_sha256.as_str()) || !same_text(
        verdict.repository.as_str(),
        receipt.repository.as_str(),
    ) || verdict.pull_request_number != receipt.pull_request_number || !same_text(
        verdict.head_revision.as_str(),
        receipt.head_revision.as_str(),
    ) {
        return Err(AutopilotPrError::ExternalVerdictContextMismatch);
    }
    let source = verdict.source_text();
    if source_is_known(trajectory.later_verdicts.as_slice(), source.as_str()) {
        return Err(AutopilotPrError::DuplicateExternalVerdict(source));
    }
    let later = match LaterVerdict::new(source, verdict.accepted, verdict.reason.clone()) {
        Ok(later) => later,
        Err(e) => {
            return Err(AutopilotPrError::InvalidTrajectory(e.to_string()));
        },
    };
    let ghost before = *trajectory;
    trajectory.later_verdicts.push(later);
    proof {
        lemma_appended_is_valid(before, *trajectory, *verdict);
    }
    Ok(())
}

proof fn lemma_appended_is_valid(before: EngineeringTrajectory, after: EngineeringTrajectory, verdict: ExternalPrVerdict)
    requires
        check_trajectory(before) is Ok,
        is_appended(before, after, verdict),
        check_later(verdict.source(), verdict.reason@) is Ok,
    ensures
        check_trajectory(after) is Ok,
{
    let check = |v: LaterVerdict| v.check();
    lemma_check_all(before.later_verdicts@, check);
    lemma_check_all(after.later_verdicts@, check);
    assert forall|i: int| 0 <= i < after.later_verdicts@.len() implies (#[trigger] check(after.later_verdicts@[i])) is Ok by {
        if i < before.later_verdicts@.len() {
            assert(check(before.later_verdicts@[i]) is Ok);
        }
    }
}

// ---------------------------------------------------------------------------
// Laws
// ---------------------------------------------------------------------------

/// A plan is made only for a candidate that was accepted and passed every hard gate,
/// that stays inside the task's allowances, and on a branch that is not the default
/// branch.
pub proof fn law_plan_needs_an_accepted_contained_candidate(
    spec: FrozenAutopilotSpec,
    dag: AutopilotTaskDag,
    t: EngineeringTrajectory,
    draft: PullRequestPlanDraft,
    k: int,
)
    requires
        check_plan(spec, dag, t, draft) is Ok,
        0 <= k < t.patch_set.operations@.len(),
    ensures
        t.verdict is Accepted,
        t.admissibility.all_pass(),
        branch_of(draft.task_id@, t.patch_set.digest()) != draft.default_branch@,
        find_task(dag@.tasks, draft.task_id@) is Some,
        permits(
            find_task(dag@.tasks, draft.task_id@)->0,
            draft.repository_role@,
            t.patch_set.operations@[k].target(),
            t.patch_set.operations@[k].operation(),
        ),
{
    reveal(check_sources);
    reveal(check_target);
    let task = find_task(dag.tasks@, draft.task_id@)->0;
    let check = |o: FileOperation| check_permitted(task, draft.repository_role@, o);
    lemma_check_all(t.patch_set.operations@, check);
    assert(check(t.patch_set.operations@[k]) is Ok);
}

proof fn lemma_append_keeps(s: Seq<char>, more: Seq<char>)
    ensures
        forall|part: Seq<char>| has_infix(s, part) ==> #[trigger] has_infix(s + more, part),
        has_infix(s + more, more),
{
    assert forall|part: Seq<char>| has_infix(s, part) implies #[trigger] has_infix(s + more, part) by {
        let i = choose|i: int| 0 <= i <= s.len() && #[trigger] starts_with(s.skip(i), part);
        assert((s + more).skip(i).take(part.len() as int) =~= s.skip(i).take(part.len() as int));
        assert(starts_with((s + more).skip(i), part));
    }
    assert((s + more).skip(s.len() as int) =~= more);
    assert(more.take(more.len() as int) =~= more);
    assert(starts_with((s + more).skip(s.len() as int), more));
}

/// What lies in a part of a text lies in the text.
proof fn lemma_infix_of_part(s: Seq<char>, part: Seq<char>, inner: Seq<char>)
    requires
        has_infix(s, part),
        has_infix(part, inner),
    ensures
        has_infix(s, inner),
{
    let i = choose|i: int| 0 <= i <= s.len() && #[trigger] starts_with(s.skip(i), part);
    let j = choose|j: int| 0 <= j <= part.len() && #[trigger] starts_with(part.skip(j), inner);
    assert(s.skip(i).take(part.len() as int) == part);
    assert(s.skip(i + j).take(inner.len() as int) =~= part.skip(j).take(inner.len() as int));
    assert(starts_with(s.skip(i + j), inner));
}

proof fn lemma_evidence_is_listed(evidence: Seq<Seq<char>>, k: int)
    requires
        0 <= k < evidence.len(),
    ensures
        has_infix(evidence_lines(evidence), evidence[k]),
    decreases evidence.len(),
{
    let front = evidence_lines(evidence.drop_last());
    lemma_append_keeps(front, "- "@);
    lemma_append_keeps(front + "- "@, evidence.last());
    lemma_append_keeps(front + "- "@ + evidence.last(), "\n"@);
    if k < evidence.len() - 1 {
        lemma_evidence_is_listed(evidence.drop_last(), k);
        assert(has_infix(front, evidence[k]));
        assert(has_infix(front + "- "@, evidence[k]));
        assert(has_infix(front + "- "@ + evidence.last(), evidence[k]));
    } else {
        assert(has_infix(front + "- "@ + evidence.last(), evidence[k]));
    }
}

/// The parts one behind the other.
pub open spec fn concat(parts: Seq<Seq<char>>) -> Seq<char>
    decreases parts.len(),
{
    if parts.len() == 0 {
        Seq::empty()
    } else {
        concat(parts.drop_last()) + parts.last()
    }
}

broadcast proof fn lemma_concat_push(parts: Seq<Seq<char>>, part: Seq<char>)
    ensures
        #[trigger] concat(parts.push(part)) == (if parts.len() == 0 {
            part
        } else {
            concat(parts) + part
        }),
{
    assert(parts.push(part).drop_last() =~= parts);
    assert(parts.push(part).last() == part);
    if parts.len() == 0 {
        assert(concat(parts) + part =~= part);
    }
}

/// Every part lies in the whole.
proof fn lemma_part_is_shown(parts: Seq<Seq<char>>, k: int)
    requires
        0 <= k < parts.len(),
    ensures
        has_infix(concat(parts), parts[k]),
    decreases parts.len(),
{
    lemma_append_keeps(concat(parts.drop_last()), parts.last());
    if k < parts.len() - 1 {
        lemma_part_is_shown(parts.drop_last(), k);
        assert(has_infix(concat(parts.drop_last()), parts[k]));
    }
}

/// The hard gates in the order in which a body lists them.
pub open spec fn gate_names() -> Seq<Seq<char>> {
    seq![
        "build"@,
        "required_tests"@,
        "numerical_parity"@,
        "provenance"@,
        "deterministic_contract"@,
        "resource_budget"@,
        "policy_checks"@,
    ]
}

/// Every hard gate has a line that says it passed.
pub open spec fn shows_gates(text: Seq<char>) -> bool {
    forall|i: int| 0 <= i < gate_names().len() ==> has_infix(text, gate_line(#[trigger] gate_names()[i], "pass"@))
}

proof fn lemma_gates_are_listed(a: AdmissibilityBreakdown)
    requires
        a.all_pass(),
    ensures
        shows_gates(gate_section(a)),
{
    broadcast use lemma_concat_push;

    reveal(gate_section);
    let n = gate_names();
    let pass = "pass"@;
    let lines = Seq::empty().push(gate_line("build"@, pass)).push(gate_line("required_tests"@, pass)).push(
        gate_line("numerical_parity"@, pass),
    ).push(gate_line("provenance"@, pass)).push(gate_line("deterministic_contract"@, pass)).push(
        gate_line("resource_budget"@, pass),
    ).push(gate_line("policy_checks"@, pass));
    assert(gate_section(a) == concat(lines));
    assert forall|i: int| 0 <= i < n.len() implies has_infix(gate_section(a), gate_line(#[trigger] n[i], pass)) by {
        lemma_part_is_shown(lines, i);
        assert(lines[i] == gate_line(n[i], pass));
    }
}

/// What a body shows of a trajectory, behind its head.
proof fn lemma_body_shows_its_parts(head: Seq<char>, t: EngineeringTrajectory)
    ensures
        has_infix(body_text(head, t), head),
        has_infix(body_text(head, t), set_text(t.compatibility@)),
        has_infix(body_text(head, t), gate_section(t.admissibility)),
        has_infix(body_text(head, t), evidence_lines(texts(t.compiler_test_device_evidence@))),
        has_infix(body_text(head, t), "does not request or encode automatic merge"@),
{
    broadcast use lemma_concat_push;

    reveal(body_text);
    let parts = Seq::empty().push(head).push("## Compatibility set\n\n```json\n"@).push(set_text(t.compatibility@)).push(
        "\n```\n\n## Hard-gate evidence\n\n"@,
    ).push(gate_section(t.admissibility)).push("\n## Compiler / test / device evidence\n\n"@).push(
        evidence_lines(texts(t.compiler_test_device_evidence@)),
    ).push("\n## Benchmark evidence\n\n"@).push(benchmark_section(t.benchmarks@)).push(
        "\n## Review and merge policy\n\n"@,
    ).push("This plan requests branch creation and pull-request creation only. It "@).push(
        "does not request or encode automatic merge"@,
    ).push(". CI and human-review verdicts are external evidence appended to the engineering trajectory.\n"@);
    assert(body_text(head, t) == concat(parts));
    lemma_part_is_shown(parts, 0);
    lemma_part_is_shown(parts, 2);
    lemma_part_is_shown(parts, 4);
    lemma_part_is_shown(parts, 6);
    lemma_part_is_shown(parts, 11);
}

/// The body of a plan shows the compatibility fingerprint and set, every piece of
/// evidence, the pass of every hard gate, and that nothing is merged automatically.
pub proof fn law_body_shows_the_evidence(
    plan: AutopilotPullRequestPlan,
    spec: FrozenAutopilotSpec,
    dag: AutopilotTaskDag,
    t: EngineeringTrajectory,
    draft: PullRequestPlanDraft,
)
    requires
        check_plan(spec, dag, t, draft) is Ok,
        plan.is_for(spec, dag, t, draft),
    ensures
        has_infix(plan@.body, set_fingerprint(t.compatibility@)),
        has_infix(plan@.body, set_text(t.compatibility@)),
        forall|k: int|
            0 <= k < t.compiler_test_device_evidence@.len() ==> has_infix(
                plan@.body,
                (#[trigger] t.compiler_test_device_evidence@[k])@,
            ),
        shows_gates(plan@.body),
        has_infix(plan@.body, "does not request or encode automatic merge"@),
{
    reveal(head_section);
    reveal(check_sources);
    reveal(check_target);
    let target = with_role(t.compatibility@.revisions, draft.repository_role@)[0];
    let print_of = set_fingerprint(t.compatibility@);
    let head = head_section(
        draft.task_id@,
        spec.spec_sha256@,
        dag.dag_sha256@,
        draft.repository_role@,
        target[1],
        t.parent_state_id@,
        t.patch_set.digest(),
        candidate_identity(t),
        print_of,
    );
    let above = "## AUTOPILOT engineering candidate\n\n- task: `"@ + draft.task_id@ + "`\n- frozen spec: `"@ + spec.spec_sha256@
        + "`\n- task DAG: `"@ + dag.dag_sha256@ + "`\n- repository role: `"@ + draft.repository_role@
        + "`\n- exact base revision: `"@ + target[1] + "`\n- parent state: `"@ + t.parent_state_id@ + "`\n- PatchSet: `"@
        + t.patch_set.digest() + "`\n- candidate identity: `"@ + candidate_identity(t) + "`\n- compatibility fingerprint: `"@;
    assert(head == above + print_of + "`\n\n"@);
    lemma_append_keeps(above, print_of);
    lemma_append_keeps(above + print_of, "`\n\n"@);
    assert(has_infix(above + print_of, print_of));
    let evidence = texts(t.compiler_test_device_evidence@);
    let lines = evidence_lines(evidence);
    let gates = gate_section(t.admissibility);
    let body = plan.body@;
    assert(body == body_text(head, t));
    lemma_body_shows_its_parts(head, t);
    lemma_infix_of_part(body, head, print_of);
    lemma_gates_are_listed(t.admissibility);
    assert forall|i: int| 0 <= i < gate_names().len() implies has_infix(
        body,
        gate_line(#[trigger] gate_names()[i], "pass"@),
    ) by {
        lemma_infix_of_part(body, gates, gate_line(gate_names()[i], "pass"@));
    }
    assert forall|k: int| 0 <= k < t.compiler_test_device_evidence@.len() implies has_infix(
        plan.body@,
        (#[trigger] t.compiler_test_device_evidence@[k])@,
    ) by {
        lemma_evidence_is_listed(evidence, k);
        assert(evidence[k] == t.compiler_test_device_evidence@[k]@);
        lemma_infix_of_part(body, lines, evidence[k]);
    }
}

/// Appending a verdict does not change which candidate the trajectory is about, so that
/// the plan stays the plan of the trajectory.
pub proof fn law_append_keeps_candidate(
    plan: AutopilotPullRequestPlan,
    before: EngineeringTrajectory,
    after: EngineeringTrajectory,
    verdict: ExternalPrVerdict,
)
    requires
        is_appended(before, after, verdict),
        check_same_candidate(plan, before) is Ok,
        check_trajectory(after) is Ok,
    ensures
        candidate_identity(after) == candidate_identity(before),
        check_same_candidate(plan, after) is Ok,
{
}

/// A verdict is appended once: the same verdict is refused afterwards.
pub proof fn law_verdict_is_appended_once(
    plan: AutopilotPullRequestPlan,
    receipt: PullRequestEmissionReceipt,
    verdict: ExternalPrVerdict,
    before: EngineeringTrajectory,
    after: EngineeringTrajectory,
)
    requires
        check_append(plan, receipt, verdict, before) is Ok,
        is_appended(before, after, verdict),
        check_trajectory(after) is Ok,
    ensures
        check_append(plan, receipt, verdict, after) == Err::<(), PrFailure>(
            AutopilotPrError::DuplicateExternalVerdict(verdict.source()),
        ),
{
    law_append_keeps_candidate(plan, before, after, verdict);
    let n = after.later_verdicts@.len() - 1;
    assert(after.later_verdicts@[n].source@ == verdict.source());
}

/// A receipt made for a plan is a receipt of that plan, and a verdict made for the
/// receipt is about its request and head.
pub proof fn law_receipt_and_verdict_fit_their_plan(
    plan: AutopilotPullRequestPlan,
    receipt: PullRequestEmissionReceipt,
    number: u64,
    head_revision: Seq<char>,
)
    requires
        check_emission(plan, number, head_revision) is Ok,
        receipt@.plan_sha256 == plan@.plan_sha256,
        receipt@.repository == plan@.repository,
        receipt@.branch_name == plan@.branch_name,
        receipt@.head_revision == lowercase(head_revision),
    ensures
        receipt.check_against(plan) is Ok,
{
    lemma_lowercase_hex(head_revision);
}

proof fn lemma_with_role(revisions: Seq<Key>, role: Seq<char>)
    ensures
        with_role(revisions, role) == revisions.filter(|k: Key| k[2] == role),
    decreases revisions.len(),
{
    reveal(Seq::filter);
    if revisions.len() > 0 {
        lemma_with_role(revisions.drop_last(), role);
    }
}

/// What a plan is drafted for: a task, a role and a default branch with proper names, and a
/// title of one line of at most two hundred and forty bytes.
pub proof fn law_drafts(draft: PullRequestPlanDraft)
    ensures
        check_draft(draft) is Ok <==> {
            &&& draft.task_id@.len() > 0 && is_line(draft.task_id@) && is_identifier(draft.task_id@)
            &&& draft.repository_role@.len() > 0 && is_line(draft.repository_role@) && is_identifier(draft.repository_role@)
            &&& draft.default_branch@.len() > 0 && is_line(draft.default_branch@) && is_branch_name(draft.default_branch@)
            &&& draft.title@.len() > 0 && is_line(draft.title@)
            &&& encode_utf8(draft.title@).len() <= 240
        },
{
    reveal(check_draft);
}

/// The scope is on a repository that the set holds at that revision in that role.
pub open spec fn holds_scope(revisions: Seq<Key>, scope: RepositoryScope) -> bool {
    revisions.contains(seq![scope.repository@, scope.revision@, scope.role@])
}

/// A plan is made exactly where specification and graph are intact and belong together;
/// where the trajectory is well formed, of that specification, accepted and through every
/// hard gate; where the draft is proper; where its task is in the graph and has the role;
/// where the set holds every frozen scope and the role once; where every operation is
/// permitted to the task; where a performance task was measured; and where the branch of
/// the plan is not the default one.
pub proof fn law_plans(spec: FrozenAutopilotSpec, dag: AutopilotTaskDag, t: EngineeringTrajectory, draft: PullRequestPlanDraft)
    ensures
        check_plan(spec, dag, t, draft) is Ok <==> {
            let task = find_task(dag@.tasks, draft.task_id@)->0;
            let role = draft.repository_role@;
            let revisions = t.compatibility@.revisions;
            let operations = t.patch_set.operations@;
            &&& spec@.spec_sha256 == spec.identity()
            &&& dag@.dag_sha256 == dag.identity()
            &&& dag@.spec_sha256 == spec@.spec_sha256
            &&& check_trajectory(t) is Ok
            &&& t.task_spec_id@ == spec@.spec_sha256
            &&& t.verdict is Accepted
            &&& t.admissibility.all_pass()
            &&& check_draft(draft) is Ok
            &&& find_task(dag@.tasks, draft.task_id@) is Some
            &&& texts(task@.repository_roles).contains(role)
            &&& forall|i: int|
                0 <= i < spec@.repository_scope.len() ==> holds_scope(revisions, #[trigger] spec@.repository_scope[i])
            &&& revisions.filter(|k: Key| k[2] == role).len() == 1
            &&& check_operations(operations) is Ok
            &&& exists|a: int| 0 <= a < task@.edit_allowances.len() && (#[trigger] task@.edit_allowances[a]).role() == role
            &&& forall|k: int|
                #![trigger operations[k]]
                0 <= k < operations.len() ==> permits(task, role, operations[k].target(), operations[k].operation())
            &&& task@.regime is Perf ==> t.benchmarks@.len() > 0
            &&& "autopilot/"@ + draft.task_id@ + "/"@ + (if t.patch_set.digest().len() > 12 {
                t.patch_set.digest().take(12)
            } else {
                t.patch_set.digest()
            }) != draft.default_branch@
        },
{
    reveal(check_sources);
    reveal(check_target);
    let digest = t.patch_set.digest();
    assert(digest.len() == 12 ==> digest.take(12) =~= digest);
    if find_task(dag@.tasks, draft.task_id@) is Some {
        let task = find_task(dag@.tasks, draft.task_id@)->0;
        let role = draft.repository_role@;
        let revisions = t.compatibility@.revisions;
        let operations = t.patch_set.operations@;
        lemma_with_role(revisions, role);
        let scope_check = |s: RepositoryScope| check_scope(revisions, s);
        lemma_check_all(spec@.repository_scope, scope_check);
        assert forall|i: int| 0 <= i < spec@.repository_scope.len() implies (holds_scope(
            revisions,
            #[trigger] spec@.repository_scope[i],
        ) <==> scope_check(spec@.repository_scope[i]) is Ok) by {}
        if check_all(spec@.repository_scope, scope_check) is Ok {
            assert forall|i: int| 0 <= i < spec@.repository_scope.len() implies holds_scope(
                revisions,
                #[trigger] spec@.repository_scope[i],
            ) by {
                assert(scope_check(spec@.repository_scope[i]) is Ok);
            }
        }
        let check = |o: FileOperation| check_permitted(task, role, o);
        lemma_check_all(operations, check);
        assert forall|k: int| #![trigger operations[k]] 0 <= k < operations.len() implies (check(operations[k]) is Ok
            <==> permits(task, role, operations[k].target(), operations[k].operation())) by {}
        if check_all(operations, check) is Ok {
            assert forall|k: int| #![trigger operations[k]] 0 <= k < operations.len() implies permits(
                task,
                role,
                operations[k].target(),
                operations[k].operation(),
            ) by {
                assert(check(operations[k]) is Ok);
            }
        }
    }
}

/// A plan is fit exactly where its branch is not the default one and it is as it was made;
/// an emission of it needs a number above zero and a head revision.
pub proof fn law_fit_plans(plan: AutopilotPullRequestPlan, number: u64, head_revision: Seq<char>)
    ensures
        plan.check() is Ok <==> plan@.branch_name != plan@.default_branch && plan@.plan_sha256 == plan.identity(),
        check_emission(plan, number, head_revision) is Ok <==> plan.check() is Ok && number >= 1 && is_revision(
            head_revision,
        ),
{
}

/// A receipt fits a plan exactly where the plan is fit and the receipt is of it, in its
/// repository and on its branch, at a revision.
pub proof fn law_receipts(receipt: PullRequestEmissionReceipt, plan: AutopilotPullRequestPlan)
    ensures
        receipt.check_against(plan) is Ok <==> {
            &&& plan@.branch_name != plan@.default_branch
            &&& plan@.plan_sha256 == plan.identity()
            &&& receipt@.plan_sha256 == plan@.plan_sha256
            &&& receipt@.repository == plan@.repository
            &&& receipt@.branch_name == plan@.branch_name
            &&& is_revision(receipt@.head_revision)
        },
{
}

/// A verdict needs a reason of one line and the digest of its evidence.
pub proof fn law_verdicts(reason: Seq<char>, evidence: Seq<char>)
    ensures
        check_verdict(reason, evidence) is Ok <==> reason.len() > 0 && is_line(reason) && is_digest(evidence),
{
}

/// A verdict is appended exactly where the receipt fits the plan, the trajectory is well
/// formed and of the candidate of the plan, the verdict is about that plan in that
/// repository under that number at that head, and none from the same source is there yet.
pub proof fn law_appended_verdicts(
    plan: AutopilotPullRequestPlan,
    receipt: PullRequestEmissionReceipt,
    verdict: ExternalPrVerdict,
    t: EngineeringTrajectory,
)
    ensures
        check_append(plan, receipt, verdict, t) is Ok <==> {
            &&& receipt.check_against(plan) is Ok
            &&& check_trajectory(t) is Ok
            &&& candidate_identity(t) == plan@.candidate_sha256
            &&& verdict@.plan_sha256 == plan@.plan_sha256
            &&& verdict@.repository == receipt@.repository
            &&& verdict@.pull_request_number == receipt@.pull_request_number
            &&& verdict@.head_revision == receipt@.head_revision
            &&& forall|i: int| 0 <= i < t.later_verdicts@.len() ==> (#[trigger] t.later_verdicts@[i]).source@ != verdict.source()
            &&& verdict.source().len() > 0 && is_line(verdict.source())
            &&& verdict@.reason.len() > 0 && is_line(verdict@.reason)
        },
{
}

/// A plan asks the host for two things only: to create a branch, and to open a pull request.
pub proof fn law_only_branch_and_pull_request_are_asked_for()
    ensures
        action_names().len() == 2,
        action_names()[0] == "create_branch"@,
        action_names()[1] == "open_pull_request"@,
{
}

} // verus!
