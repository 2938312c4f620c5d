//! The performance regime: an immutable benchmark and promotion against noise.
//!
//! Performance counts only after the engineering hard gates pass. The benchmark, the
//! environment, the bytes of the benchmark sources and the policy against noise are
//! frozen before candidates are searched. Supporting microbenchmarks can give evidence
//! but never promote; every end-to-end promotion gate must prove the gain by itself.

use vstd::prelude::*;
use vstd::utf8::encode_utf8;

use crate::autopilot_feature::{artifact_json, law_repeated_artifacts, repeated_artifact};
use crate::autopilot_intake::FrozenAutopilotSpec;
use crate::autopilot_task_dag::{
    allows_path, find_scope, find_task, may_edit, permits, scope_for, task_may_edit, task_permits, AutopilotTask, AutopilotTaskDag,
    TaskEditAllowance, TaskOperation, TaskRegime,
};
use crate::checks::{
    and_then, check_all, law_mapped_one_for_one, lemma_check_all, lemma_check_step, lemma_map_end, lemma_map_start, lemma_map_step, map_all, map_continues,
};
use crate::engineering_trajectory::AdmissibilityBreakdown;
use crate::fields::{
    digest_ok, identifier_ok, is_digest, is_identifier, is_line, is_relative_path, is_within, is_within_any, line_ok, path_is_within,
    path_is_within_any, relative_path_ok,
};
use crate::json::{array_json, empty_obj, json_array, print, text_array, Json, ToJson, Value};
use crate::measure::Measure;
use crate::order::{
    adjacent_duplicate, arranged, canonical, canonical_texts, find_adjacent_duplicate, is_sorted_of, key_order, keys, law_arranging, law_repetitions_are_found, law_sorting, lemma_arranged, lemma_canonical_exists,
    lemma_canonical_ignores_input_order, lemma_same_arrangement, lemma_sorted_ignores_input_order, lemma_text_order_equal, order_texts, sort_records, sorted, Key, Keyed, Order,
};
use crate::patchset::{
    check_operations, law_other_files_stay, targets, FileOperation, PatchFailure, PatchSet, PatchSetError,
};
use crate::sha256::{digest_hex, sha256_hex};
use crate::text::{
    any_control, contains_text, decimal, decimal_text, find_repeated_text, has_control, law_repeated_text, lemma_texts_push, lowercase, repeated_text, same_text,
    texts, to_lowercase, IntoText,
};

verus! {

pub const PERF_BENCHMARK_SCHEMA_VERSION: u64 = 1;

/// The most samples that one comparison may take.
pub const MAX_TOTAL_SAMPLES_PER_COMPARISON: usize = 100_000;

// ---------------------------------------------------------------------------
// Failures
// ---------------------------------------------------------------------------

/// Why a benchmark profile, a candidate or its evidence was refused.
///
/// The parameter is the type of the texts it carries.
#[derive(Debug, Clone, PartialEq, Eq)]
pub enum PerfRegimeError<S = String> {
    EmptyField(&'static str),
    InvalidText { field: &'static str, value: S },
    InvalidIdentifier { field: &'static str, value: S },
    InvalidDigest { field: &'static str, value: S },
    InvalidPath { field: &'static str, value: S },
    InvalidArgument(S),
    InvalidSpec(S),
    InvalidDag(S),
    UnknownTask(S),
    TaskIsNotPerf(S),
    MicrobenchmarkCannotPromote(S),
    InsufficientRepetition,
    InvalidAntiNoisePolicy,
    SampleBudgetOverflow,
    SampleBudgetExceeded { actual: usize, maximum: usize },
    DuplicateBenchmarkCase(S),
    NoEndToEndPromotionGate,
    BenchmarkCaseOutsideTaskRepositories { case_id: S, repository_role: S },
    DuplicateBenchmarkArtifact { repository_role: S, path: S },
    BenchmarkArtifactOutsideTaskRepositories { repository_role: S, path: S },
    BenchmarkArtifactOutsideFrozenSpec { repository_role: S, path: S },
    TaskAllowanceTouchesFrozenBenchmark { repository_role: S, frozen_path: S, allowed_prefix: S },
    FrozenProfileHashMismatch { expected: S, actual: S },
    ProfileContextMismatch,
    PatchSet(PatchSetError<S>),
    RepositoryOutsidePerfTask(S),
    RepositoryIsReadOnly(S),
    CandidateTouchesFrozenBenchmark { repository_role: S, path: S },
    CandidateOperationOutsideAllowance { repository_role: S, path: S, operation: TaskOperation },
    InvalidSamples { case_id: S, batch_id: S },
    DuplicateMeasurementBatch { case_id: S, batch_id: S },
    BatchCountMismatch { case_id: S, expected: usize, baseline: usize, candidate: usize },
    UnpairedBatches(S),
    WrongEnvironment { case_id: S, batch_id: S },
    SampleCountMismatch { case_id: S, batch_id: S, expected: usize, actual: usize },
    InvalidNoiseStatistic,
    UnknownEvidenceCase(S),
}

/// A failure over mathematical texts.
pub type PerfFailure = PerfRegimeError<Seq<char>>;

impl PerfRegimeError<String> {
    pub open spec fn view(&self) -> PerfFailure {
        match self {
            PerfRegimeError::EmptyField(value) => PerfRegimeError::EmptyField(*value),
            PerfRegimeError::InvalidText { field, value } => PerfRegimeError::InvalidText { field: *field, value: value@ },
            PerfRegimeError::InvalidIdentifier { field, value } => PerfRegimeError::InvalidIdentifier { field: *field, value: value@ },
            PerfRegimeError::InvalidDigest { field, value } => PerfRegimeError::InvalidDigest { field: *field, value: value@ },
            PerfRegimeError::InvalidPath { field, value } => PerfRegimeError::InvalidPath { field: *field, value: value@ },
            PerfRegimeError::InvalidArgument(value) => PerfRegimeError::InvalidArgument(value@),
            PerfRegimeError::InvalidSpec(value) => PerfRegimeError::InvalidSpec(value@),
            PerfRegimeError::InvalidDag(value) => PerfRegimeError::InvalidDag(value@),
            PerfRegimeError::UnknownTask(value) => PerfRegimeError::UnknownTask(value@),
            PerfRegimeError::TaskIsNotPerf(value) => PerfRegimeError::TaskIsNotPerf(value@),
            PerfRegimeError::MicrobenchmarkCannotPromote(value) => PerfRegimeError::MicrobenchmarkCannotPromote(value@),
            PerfRegimeError::InsufficientRepetition => PerfRegimeError::InsufficientRepetition,
            PerfRegimeError::InvalidAntiNoisePolicy => PerfRegimeError::InvalidAntiNoisePolicy,
            PerfRegimeError::SampleBudgetOverflow => PerfRegimeError::SampleBudgetOverflow,
            PerfRegimeError::SampleBudgetExceeded { actual, maximum } => PerfRegimeError::SampleBudgetExceeded { actual: *actual, maximum: *maximum },
            PerfRegimeError::DuplicateBenchmarkCase(value) => PerfRegimeError::DuplicateBenchmarkCase(value@),
            PerfRegimeError::NoEndToEndPromotionGate => PerfRegimeError::NoEndToEndPromotionGate,
            PerfRegimeError::BenchmarkCaseOutsideTaskRepositories { case_id, repository_role } => PerfRegimeError::BenchmarkCaseOutsideTaskRepositories { case_id: case_id@, repository_role: repository_role@ },
            PerfRegimeError::DuplicateBenchmarkArtifact { repository_role, path } => PerfRegimeError::DuplicateBenchmarkArtifact { repository_role: repository_role@, path: path@ },
            PerfRegimeError::BenchmarkArtifactOutsideTaskRepositories { repository_role, path } => PerfRegimeError::BenchmarkArtifactOutsideTaskRepositories { repository_role: repository_role@, path: path@ },
            PerfRegimeError::BenchmarkArtifactOutsideFrozenSpec { repository_role, path } => PerfRegimeError::BenchmarkArtifactOutsideFrozenSpec { repository_role: repository_role@, path: path@ },
            PerfRegimeError::TaskAllowanceTouchesFrozenBenchmark { repository_role, frozen_path, allowed_prefix } => PerfRegimeError::TaskAllowanceTouchesFrozenBenchmark { repository_role: repository_role@, frozen_path: frozen_path@, allowed_prefix: allowed_prefix@ },
            PerfRegimeError::FrozenProfileHashMismatch { expected, actual } => PerfRegimeError::FrozenProfileHashMismatch { expected: expected@, actual: actual@ },
            PerfRegimeError::ProfileContextMismatch => PerfRegimeError::ProfileContextMismatch,
            PerfRegimeError::PatchSet(value) => PerfRegimeError::PatchSet(value@),
            PerfRegimeError::RepositoryOutsidePerfTask(value) => PerfRegimeError::RepositoryOutsidePerfTask(value@),
            PerfRegimeError::RepositoryIsReadOnly(value) => PerfRegimeError::RepositoryIsReadOnly(value@),
            PerfRegimeError::CandidateTouchesFrozenBenchmark { repository_role, path } => PerfRegimeError::CandidateTouchesFrozenBenchmark { repository_role: repository_role@, path: path@ },
            PerfRegimeError::CandidateOperationOutsideAllowance { repository_role, path, operation } => PerfRegimeError::CandidateOperationOutsideAllowance { repository_role: repository_role@, path: path@, operation: *operation },
            PerfRegimeError::InvalidSamples { case_id, batch_id } => PerfRegimeError::InvalidSamples { case_id: case_id@, batch_id: batch_id@ },
            PerfRegimeError::DuplicateMeasurementBatch { case_id, batch_id } => PerfRegimeError::DuplicateMeasurementBatch { case_id: case_id@, batch_id: batch_id@ },
            PerfRegimeError::BatchCountMismatch { case_id, expected, baseline, candidate } => PerfRegimeError::BatchCountMismatch { case_id: case_id@, expected: *expected, baseline: *baseline, candidate: *candidate },
            PerfRegimeError::UnpairedBatches(value) => PerfRegimeError::UnpairedBatches(value@),
            PerfRegimeError::WrongEnvironment { case_id, batch_id } => PerfRegimeError::WrongEnvironment { case_id: case_id@, batch_id: batch_id@ },
            PerfRegimeError::SampleCountMismatch { case_id, batch_id, expected, actual } => PerfRegimeError::SampleCountMismatch { case_id: case_id@, batch_id: batch_id@, expected: *expected, actual: *actual },
            PerfRegimeError::InvalidNoiseStatistic => PerfRegimeError::InvalidNoiseStatistic,
            PerfRegimeError::UnknownEvidenceCase(value) => PerfRegimeError::UnknownEvidenceCase(value@),
        }
    }

    /// The message shown to a user.
    pub fn to_string(&self) -> (r: String)
        ensures
            r@ == self@.message(),
    {
        match self {
            PerfRegimeError::EmptyField(value) => {
                let mut m = "PERF field '".to_owned();
                m.append(*value);
                m.append("' is empty");
                m
            },
            PerfRegimeError::InvalidText { field, value } => {
                let mut m = "invalid PERF text '".to_owned();
                m.append(*field);
                m.append("': '");
                m.append(value.as_str());
                m.append("'");
                m
            },
            PerfRegimeError::InvalidIdentifier { field, value } => {
                let mut m = "invalid PERF identifier '".to_owned();
                m.append(*field);
                m.append("': '");
                m.append(value.as_str());
                m.append("'");
                m
            },
            PerfRegimeError::InvalidDigest { field, value } => {
                let mut m = "invalid PERF SHA-256 '".to_owned();
                m.append(*field);
                m.append("': '");
                m.append(value.as_str());
                m.append("'");
                m
            },
            PerfRegimeError::InvalidPath { field, value } => {
                let mut m = "invalid PERF path '".to_owned();
                m.append(*field);
                m.append("': '");
                m.append(value.as_str());
                m.append("'");
                m
            },
            PerfRegimeError::InvalidArgument(value) => {
                let mut m = "invalid PERF argument '".to_owned();
                m.append(value.as_str());
                m.append("'");
                m
            },
            PerfRegimeError::InvalidSpec(value) => {
                let mut m = "invalid frozen spec: ".to_owned();
                m.append(value.as_str());
                m
            },
            PerfRegimeError::InvalidDag(value) => {
                let mut m = "invalid frozen task DAG: ".to_owned();
                m.append(value.as_str());
                m
            },
            PerfRegimeError::UnknownTask(value) => {
                let mut m = "unknown PERF task '".to_owned();
                m.append(value.as_str());
                m.append("'");
                m
            },
            PerfRegimeError::TaskIsNotPerf(value) => {
                let mut m = "task '".to_owned();
                m.append(value.as_str());
                m.append("' is not in PERF regime");
                m
            },
            PerfRegimeError::MicrobenchmarkCannotPromote(value) => {
                let mut m = "supporting microbenchmark '".to_owned();
                m.append(value.as_str());
                m.append("' cannot be a promotion gate");
                m
            },
            PerfRegimeError::InsufficientRepetition => {
                "PERF requires at least 3 samples per batch and 2 independent batches".to_owned()
            },
            PerfRegimeError::InvalidAntiNoisePolicy => {
                "invalid PERF anti-noise policy".to_owned()
            },
            PerfRegimeError::SampleBudgetOverflow => {
                "PERF sample budget overflow".to_owned()
            },
            PerfRegimeError::SampleBudgetExceeded { actual, maximum } => {
                let mut m = "PERF sample budget ".to_owned();
                m.append(decimal_text(*actual as u64).as_str());
                m.append(" exceeds maximum ");
                m.append(decimal_text(*maximum as u64).as_str());
                m
            },
            PerfRegimeError::DuplicateBenchmarkCase(value) => {
                let mut m = "duplicate benchmark case '".to_owned();
                m.append(value.as_str());
                m.append("'");
                m
            },
            PerfRegimeError::NoEndToEndPromotionGate => {
                "PERF profile requires at least one end-to-end promotion gate".to_owned()
            },
            PerfRegimeError::BenchmarkCaseOutsideTaskRepositories { case_id, repository_role } => {
                let mut m = "benchmark case '".to_owned();
                m.append(case_id.as_str());
                m.append("' uses repository role '");
                m.append(repository_role.as_str());
                m.append("' outside the PERF task");
                m
            },
            PerfRegimeError::DuplicateBenchmarkArtifact { repository_role, path } => {
                let mut m = "duplicate frozen benchmark ".to_owned();
                m.append(repository_role.as_str());
                m.append(":");
                m.append(path.as_str());
                m
            },
            PerfRegimeError::BenchmarkArtifactOutsideTaskRepositories { repository_role, path } => {
                let mut m = "benchmark artifact ".to_owned();
                m.append(repository_role.as_str());
                m.append(":");
                m.append(path.as_str());
                m.append(" is outside the PERF task repositories");
                m
            },
            PerfRegimeError::BenchmarkArtifactOutsideFrozenSpec { repository_role, path } => {
                let mut m = "benchmark artifact ".to_owned();
                m.append(repository_role.as_str());
                m.append(":");
                m.append(path.as_str());
                m.append(" is outside the frozen objective scope");
                m
            },
            PerfRegimeError::TaskAllowanceTouchesFrozenBenchmark { repository_role, frozen_path, allowed_prefix } => {
                let mut m = "PERF task allowance ".to_owned();
                m.append(repository_role.as_str());
                m.append(":");
                m.append(allowed_prefix.as_str());
                m.append(" covers frozen benchmark ");
                m.append(frozen_path.as_str());
                m
            },
            PerfRegimeError::FrozenProfileHashMismatch { expected, actual } => {
                let mut m = "frozen PERF profile hash mismatch: expected ".to_owned();
                m.append(expected.as_str());
                m.append(", actual ");
                m.append(actual.as_str());
                m
            },
            PerfRegimeError::ProfileContextMismatch => {
                "frozen PERF profile belongs to another task DAG".to_owned()
            },
            PerfRegimeError::PatchSet(value) => {
                let mut m = "invalid PERF candidate PatchSet: ".to_owned();
                m.append(value.to_string().as_str());
                m
            },
            PerfRegimeError::RepositoryOutsidePerfTask(value) => {
                let mut m = "repository role '".to_owned();
                m.append(value.as_str());
                m.append("' is outside the PERF task");
                m
            },
            PerfRegimeError::RepositoryIsReadOnly(value) => {
                let mut m = "repository role '".to_owned();
                m.append(value.as_str());
                m.append("' is read-only for the PERF task");
                m
            },
            PerfRegimeError::CandidateTouchesFrozenBenchmark { repository_role, path } => {
                let mut m = "PERF candidate attempts to change frozen benchmark ".to_owned();
                m.append(repository_role.as_str());
                m.append(":");
                m.append(path.as_str());
                m
            },
            PerfRegimeError::CandidateOperationOutsideAllowance { repository_role, path, operation } => {
                let mut m = "PERF candidate operation ".to_owned();
                m.append(operation.label());
                m.append(" on ");
                m.append(repository_role.as_str());
                m.append(":");
                m.append(path.as_str());
                m.append(" is outside the task allowlist");
                m
            },
            PerfRegimeError::InvalidSamples { case_id, batch_id } => {
                let mut m = "invalid positive finite samples for ".to_owned();
                m.append(case_id.as_str());
                m.append("/");
                m.append(batch_id.as_str());
                m
            },
            PerfRegimeError::DuplicateMeasurementBatch { case_id, batch_id } => {
                let mut m = "duplicate measurement batch ".to_owned();
                m.append(case_id.as_str());
                m.append("/");
                m.append(batch_id.as_str());
                m
            },
            PerfRegimeError::BatchCountMismatch { case_id, expected, baseline, candidate } => {
                let mut m = "batch count mismatch for '".to_owned();
                m.append(case_id.as_str());
                m.append("': expected ");
                m.append(decimal_text(*expected as u64).as_str());
                m.append(", baseline ");
                m.append(decimal_text(*baseline as u64).as_str());
                m.append(", candidate ");
                m.append(decimal_text(*candidate as u64).as_str());
                m
            },
            PerfRegimeError::UnpairedBatches(value) => {
                let mut m = "baseline/candidate batch IDs are not paired for '".to_owned();
                m.append(value.as_str());
                m.append("'");
                m
            },
            PerfRegimeError::WrongEnvironment { case_id, batch_id } => {
                let mut m = "wrong measurement environment for ".to_owned();
                m.append(case_id.as_str());
                m.append("/");
                m.append(batch_id.as_str());
                m
            },
            PerfRegimeError::SampleCountMismatch { case_id, batch_id, expected, actual } => {
                let mut m = "sample count mismatch for ".to_owned();
                m.append(case_id.as_str());
                m.append("/");
                m.append(batch_id.as_str());
                m.append(": expected ");
                m.append(decimal_text(*expected as u64).as_str());
                m.append(", got ");
                m.append(decimal_text(*actual as u64).as_str());
                m
            },
            PerfRegimeError::InvalidNoiseStatistic => {
                "invalid PERF noise statistic".to_owned()
            },
            PerfRegimeError::UnknownEvidenceCase(value) => {
                let mut m = "measurement evidence references unknown case '".to_owned();
                m.append(value.as_str());
                m.append("'");
                m
            },
        }
    }
}

impl PerfRegimeError<Seq<char>> {
    pub open spec fn message(&self) -> Seq<char> {
        match self {
            PerfRegimeError::EmptyField(value) => "PERF field '"@ + value@ + "' is empty"@,
            PerfRegimeError::InvalidText { field, value } => "invalid PERF text '"@ + field@ + "': '"@ + *value + "'"@,
            PerfRegimeError::InvalidIdentifier { field, value } => "invalid PERF identifier '"@ + field@ + "': '"@ + *value + "'"@,
            PerfRegimeError::InvalidDigest { field, value } => "invalid PERF SHA-256 '"@ + field@ + "': '"@ + *value + "'"@,
            PerfRegimeError::InvalidPath { field, value } => "invalid PERF path '"@ + field@ + "': '"@ + *value + "'"@,
            PerfRegimeError::InvalidArgument(value) => "invalid PERF argument '"@ + *value + "'"@,
            PerfRegimeError::InvalidSpec(value) => "invalid frozen spec: "@ + *value,
            PerfRegimeError::InvalidDag(value) => "invalid frozen task DAG: "@ + *value,
            PerfRegimeError::UnknownTask(value) => "unknown PERF task '"@ + *value + "'"@,
            PerfRegimeError::TaskIsNotPerf(value) => "task '"@ + *value + "' is not in PERF regime"@,
            PerfRegimeError::MicrobenchmarkCannotPromote(value) => "supporting microbenchmark '"@ + *value + "' cannot be a promotion gate"@,
            PerfRegimeError::InsufficientRepetition => "PERF requires at least 3 samples per batch and 2 independent batches"@,
            PerfRegimeError::InvalidAntiNoisePolicy => "invalid PERF anti-noise policy"@,
            PerfRegimeError::SampleBudgetOverflow => "PERF sample budget overflow"@,
            PerfRegimeError::SampleBudgetExceeded { actual, maximum } => "PERF sample budget "@ + decimal(*actual as nat) + " exceeds maximum "@ + decimal(*maximum as nat),
            PerfRegimeError::DuplicateBenchmarkCase(value) => "duplicate benchmark case '"@ + *value + "'"@,
            PerfRegimeError::NoEndToEndPromotionGate => "PERF profile requires at least one end-to-end promotion gate"@,
            PerfRegimeError::BenchmarkCaseOutsideTaskRepositories { case_id, repository_role } => "benchmark case '"@ + *case_id + "' uses repository role '"@ + *repository_role + "' outside the PERF task"@,
            PerfRegimeError::DuplicateBenchmarkArtifact { repository_role, path } => "duplicate frozen benchmark "@ + *repository_role + ":"@ + *path,
            PerfRegimeError::BenchmarkArtifactOutsideTaskRepositories { repository_role, path } => "benchmark artifact "@ + *repository_role + ":"@ + *path + " is outside the PERF task repositories"@,
            PerfRegimeError::BenchmarkArtifactOutsideFrozenSpec { repository_role, path } => "benchmark artifact "@ + *repository_role + ":"@ + *path + " is outside the frozen objective scope"@,
            PerfRegimeError::TaskAllowanceTouchesFrozenBenchmark { repository_role, frozen_path, allowed_prefix } => "PERF task allowance "@ + *repository_role + ":"@ + *allowed_prefix + " covers frozen benchmark "@ + *frozen_path,
            PerfRegimeError::FrozenProfileHashMismatch { expected, actual } => "frozen PERF profile hash mismatch: expected "@ + *expected + ", actual "@ + *actual,
            PerfRegimeError::ProfileContextMismatch => "frozen PERF profile belongs to another task DAG"@,
            PerfRegimeError::PatchSet(value) => "invalid PERF candidate PatchSet: "@ + value.message(),
            PerfRegimeError::RepositoryOutsidePerfTask(value) => "repository role '"@ + *value + "' is outside the PERF task"@,
            PerfRegimeError::RepositoryIsReadOnly(value) => "repository role '"@ + *value + "' is read-only for the PERF task"@,
            PerfRegimeError::CandidateTouchesFrozenBenchmark { repository_role, path } => "PERF candidate attempts to change frozen benchmark "@ + *repository_role + ":"@ + *path,
            PerfRegimeError::CandidateOperationOutsideAllowance { repository_role, path, operation } => "PERF candidate operation "@ + operation.label_text() + " on "@ + *repository_role + ":"@ + *path + " is outside the task allowlist"@,
            PerfRegimeError::InvalidSamples { case_id, batch_id } => "invalid positive finite samples for "@ + *case_id + "/"@ + *batch_id,
            PerfRegimeError::DuplicateMeasurementBatch { case_id, batch_id } => "duplicate measurement batch "@ + *case_id + "/"@ + *batch_id,
            PerfRegimeError::BatchCountMismatch { case_id, expected, baseline, candidate } => "batch count mismatch for '"@ + *case_id + "': expected "@ + decimal(*expected as nat) + ", baseline "@ + decimal(*baseline as nat) + ", candidate "@ + decimal(*candidate as nat),
            PerfRegimeError::UnpairedBatches(value) => "baseline/candidate batch IDs are not paired for '"@ + *value + "'"@,
            PerfRegimeError::WrongEnvironment { case_id, batch_id } => "wrong measurement environment for "@ + *case_id + "/"@ + *batch_id,
            PerfRegimeError::SampleCountMismatch { case_id, batch_id, expected, actual } => "sample count mismatch for "@ + *case_id + "/"@ + *batch_id + ": expected "@ + decimal(*expected as nat) + ", got "@ + decimal(*actual as nat),
            PerfRegimeError::InvalidNoiseStatistic => "invalid PERF noise statistic"@,
            PerfRegimeError::UnknownEvidenceCase(value) => "measurement evidence references unknown case '"@ + *value + "'"@,
        }
    }
}

/// The outcome with its failure over mathematical texts.
pub open spec fn outcome<T>(r: Result<T, PerfRegimeError>) -> Result<T, PerfFailure> {
    match r {
        Ok(t) => Ok(t),
        Err(e) => Err(e@),
    }
}

// ---------------------------------------------------------------------------
// Field checks
// ---------------------------------------------------------------------------

pub open spec fn check_text(field: &'static str, s: Seq<char>) -> Result<(), PerfFailure> {
    if s.len() == 0 {
        Err(PerfRegimeError::EmptyField(field))
    } else if !is_line(s) {
        Err(PerfRegimeError::InvalidText { field, value: s })
    } else {
        Ok(())
    }
}

pub open spec fn check_identifier(field: &'static str, s: Seq<char>) -> Result<(), PerfFailure> {
    and_then(
        check_text(field, s),
        if is_identifier(s) {
            Ok(())
        } else {
            Err(PerfRegimeError::InvalidIdentifier { field, value: s })
        },
    )
}

pub open spec fn check_digest(field: &'static str, s: Seq<char>) -> Result<(), PerfFailure> {
    if is_digest(s) {
        Ok(())
    } else {
        Err(PerfRegimeError::InvalidDigest { field, value: s })
    }
}

pub open spec fn check_path(field: &'static str, s: Seq<char>) -> Result<(), PerfFailure> {
    if is_relative_path(s) {
        Ok(())
    } else {
        Err(PerfRegimeError::InvalidPath { field, value: s })
    }
}

fn validate_text(field: &'static str, value: &str) -> (r: Result<(), PerfRegimeError>)
    ensures
        outcome(r) == check_text(field, value@),
{
    if value.is_empty() {
        return Err(PerfRegimeError::EmptyField(field));
    }
    if !line_ok(value) {
        return Err(PerfRegimeError::InvalidText { field, value: value.to_owned() });
    }
    Ok(())
}

fn validate_identifier(field: &'static str, value: &str) -> (r: Result<(), PerfRegimeError>)
    ensures
        outcome(r) == check_identifier(field, value@),
{
    validate_text(field, value)?;
    if !identifier_ok(value) {
        return Err(PerfRegimeError::InvalidIdentifier { field, value: value.to_owned() });
    }
    Ok(())
}

fn validate_digest(field: &'static str, value: &str) -> (r: Result<(), PerfRegimeError>)
    ensures
        outcome(r) == check_digest(field, value@),
{
    if !digest_ok(value) {
        return Err(PerfRegimeError::InvalidDigest { field, value: value.to_owned() });
    }
    Ok(())
}

fn validate_relative_path(field: &'static str, value: &str) -> (r: Result<(), PerfRegimeError>)
    ensures
        outcome(r) == check_path(field, value@),
{
    if !relative_path_ok(value) {
        return Err(PerfRegimeError::InvalidPath { field, value: value.to_owned() });
    }
    Ok(())
}

/// The arguments from position `i` on, when those before take up `total` bytes.
pub open spec fn check_arguments_from(items: Seq<Seq<char>>, i: int, total: nat) -> Result<(), PerfFailure>
    decreases items.len() - i,
{
    if i < 0 || i >= items.len() {
        if total > 4096 {
            Err(PerfRegimeError::InvalidArgument("benchmark arguments exceed 4096 bytes"@))
        } else {
            Ok(())
        }
    } else if any_control(items[i]) {
        Err(PerfRegimeError::InvalidArgument(items[i]))
    } else if total + encode_utf8(items[i]).len() > usize::MAX {
        Err(PerfRegimeError::InvalidArgument("argument-byte overflow"@))
    } else {
        check_arguments_from(items, i + 1, total + encode_utf8(items[i]).len())
    }
}

pub open spec fn check_arguments(items: Seq<Seq<char>>) -> Result<(), PerfFailure> {
    if items.len() > 32 {
        Err(PerfRegimeError::InvalidArgument("more than 32 benchmark arguments"@))
    } else {
        check_arguments_from(items, 0, 0)
    }
}

fn validate_arguments(arguments: &[String]) -> (r: Result<(), PerfRegimeError>)
    ensures
        outcome(r) == check_arguments(texts(arguments@)),
{
    if arguments.len() > 32 {
        return Err(PerfRegimeError::InvalidArgument("more than 32 benchmark arguments".to_owned()));
    }
    let ghost all = texts(arguments@);
    let mut bytes: usize = 0;
    let mut i: usize = 0;
    while i < arguments.len()
        invariant
            i <= arguments@.len() <= 32,
            all == texts(arguments@),
            check_arguments(all) == check_arguments_from(all, i as int, bytes as nat),
        decreases arguments@.len() - i,
    {
        assert(all[i as int] == arguments@[i as int]@);
        if has_control(arguments[i].as_str()) {
            return Err(PerfRegimeError::InvalidArgument(arguments[i].clone()));
        }
        match bytes.checked_add(arguments[i].as_str().as_bytes().len()) {
            Some(total) => {
                bytes = total;
            },
            None => {
                return Err(PerfRegimeError::InvalidArgument("argument-byte overflow".to_owned()));
            },
        }
        i += 1;
    }
    if bytes > 4096 {
        return Err(PerfRegimeError::InvalidArgument("benchmark arguments exceed 4096 bytes".to_owned()));
    }
    Ok(())
}

// ---------------------------------------------------------------------------
// Approval, environment and artifacts
// ---------------------------------------------------------------------------

/// Evidence that a trusted review step accepted the benchmark before the search.
#[derive(Debug, Clone, PartialEq, Eq)]
pub struct PerfBenchmarkApproval {
    pub authority: String,
    pub evidence_sha256: String,
}

pub open spec fn check_approval(authority: Seq<char>, evidence: Seq<char>) -> Result<(), PerfFailure> {
    and_then(check_text("approval.authority", authority), check_digest("approval.evidence_sha256", evidence))
}

impl PerfBenchmarkApproval {
    pub fn new(authority: impl IntoText, evidence_sha256: impl IntoText) -> (r: Result<Self, PerfRegimeError>)
        ensures
            match r {
                Ok(a) => {
                    &&& check_approval(authority.text(), evidence_sha256.text()) is Ok
                    &&& a.authority@ == authority.text()
                    &&& a.evidence_sha256@ == lowercase(evidence_sha256.text())
                },
                Err(e) => check_approval(authority.text(), evidence_sha256.text()) == Err::<(), PerfFailure>(e@),
            },
    {
        let authority = authority.into_text();
        let evidence_sha256 = evidence_sha256.into_text();
        validate_text("approval.authority", authority.as_str())?;
        validate_digest("approval.evidence_sha256", evidence_sha256.as_str())?;
        Ok(PerfBenchmarkApproval { authority, evidence_sha256: to_lowercase(evidence_sha256.as_str()) })
    }
}

impl ToJson for PerfBenchmarkApproval {
    open spec fn json(&self) -> Value {
        empty_obj().with("authority"@, Value::Str(self.authority@)).with("evidence_sha256"@, Value::Str(self.evidence_sha256@))
    }

    fn to_json(&self) -> (r: Json) {
        let mut out = Json::obj();
        out.set("authority", Json::Str(self.authority.clone()));
        out.set("evidence_sha256", Json::Str(self.evidence_sha256.clone()));
        out
    }
}

/// Identity of the machine and the software on which both sides are measured.
#[derive(Debug, Clone, PartialEq, Eq)]
pub struct BenchmarkEnvironment {
    pub hardware_sha256: String,
    pub software_sha256: String,
}

pub open spec fn check_environment(hardware: Seq<char>, software: Seq<char>) -> Result<(), PerfFailure> {
    and_then(check_digest("environment.hardware_sha256", hardware), check_digest("environment.software_sha256", software))
}

impl BenchmarkEnvironment {
    pub fn new(hardware_sha256: impl IntoText, software_sha256: impl IntoText) -> (r: Result<Self, PerfRegimeError>)
        ensures
            match r {
                Ok(e) => {
                    &&& check_environment(hardware_sha256.text(), software_sha256.text()) is Ok
                    &&& e.hardware_sha256@ == lowercase(hardware_sha256.text())
                    &&& e.software_sha256@ == lowercase(software_sha256.text())
                },
                Err(e) => check_environment(hardware_sha256.text(), software_sha256.text()) == Err::<(), PerfFailure>(e@),
            },
    {
        let hardware_sha256 = hardware_sha256.into_text();
        let software_sha256 = software_sha256.into_text();
        validate_digest("environment.hardware_sha256", hardware_sha256.as_str())?;
        validate_digest("environment.software_sha256", software_sha256.as_str())?;
        Ok(
            BenchmarkEnvironment {
                hardware_sha256: to_lowercase(hardware_sha256.as_str()),
                software_sha256: to_lowercase(software_sha256.as_str()),
            },
        )
    }

    /// The digest that names the environment in measurements.
    pub open spec fn digest(&self) -> Seq<char> {
        digest_hex(encode_utf8("rsi-perf-environment-v1|"@ + self.hardware_sha256@ + seq!['|'] + self.software_sha256@))
    }

    pub fn fingerprint(&self) -> (r: String)
        ensures
            r@ == self.digest(),
    {
        let mut value = "rsi-perf-environment-v1|".to_owned();
        value.append(self.hardware_sha256.as_str());
        value.push('|');
        value.append(self.software_sha256.as_str());
        assert(value@ =~= "rsi-perf-environment-v1|"@ + self.hardware_sha256@ + seq!['|'] + self.software_sha256@);
        sha256_hex(value.as_str().as_bytes())
    }
}

impl ToJson for BenchmarkEnvironment {
    open spec fn json(&self) -> Value {
        empty_obj().with("hardware_sha256"@, Value::Str(self.hardware_sha256@)).with(
            "software_sha256"@,
            Value::Str(self.software_sha256@),
        )
    }

    fn to_json(&self) -> (r: Json) {
        let mut out = Json::obj();
        out.set("hardware_sha256", Json::Str(self.hardware_sha256.clone()));
        out.set("software_sha256", Json::Str(self.software_sha256.clone()));
        out
    }
}

/// One benchmark source at exact content bytes.
#[derive(Debug, Clone, PartialEq, Eq, PartialOrd, Ord)]
pub struct FrozenBenchmarkArtifact {
    pub repository_role: String,
    pub path: String,
    pub sha256: String,
}

pub open spec fn check_artifact(role: Seq<char>, path: Seq<char>, digest: Seq<char>) -> Result<(), PerfFailure> {
    and_then(
        check_identifier("benchmark_artifact.repository_role", role),
        and_then(check_path("benchmark_artifact.path", path), check_digest("benchmark_artifact.sha256", digest)),
    )
}

impl FrozenBenchmarkArtifact {
    pub fn new(repository_role: impl IntoText, path: impl IntoText, sha256: impl IntoText) -> (r: Result<
        Self,
        PerfRegimeError,
    >)
        ensures
            match r {
                Ok(a) => {
                    &&& check_artifact(repository_role.text(), path.text(), sha256.text()) is Ok
                    &&& a.repository_role@ == repository_role.text()
                    &&& a.path@ == path.text()
                    &&& a.sha256@ == lowercase(sha256.text())
                },
                Err(e) => check_artifact(repository_role.text(), path.text(), sha256.text()) == Err::<(), PerfFailure>(
                    e@,
                ),
            },
    {
        let repository_role = repository_role.into_text();
        let path = path.into_text();
        let sha256 = sha256.into_text();
        validate_identifier("benchmark_artifact.repository_role", repository_role.as_str())?;
        validate_relative_path("benchmark_artifact.path", path.as_str())?;
        validate_digest("benchmark_artifact.sha256", sha256.as_str())?;
        Ok(FrozenBenchmarkArtifact { repository_role, path, sha256: to_lowercase(sha256.as_str()) })
    }
}

impl Keyed for FrozenBenchmarkArtifact {
    open spec fn key(&self) -> Key {
        seq![self.repository_role@, self.path@, self.sha256@]
    }

    fn order_by_key(&self, other: &Self) -> (r: Order) {
        proof {
            reveal_with_fuel(key_order, 4);
            let a = self.key();
            let b = other.key();
            assert(a.drop_first() =~= seq![a[1], a[2]]);
            assert(b.drop_first() =~= seq![b[1], b[2]]);
            assert(a.drop_first().drop_first() =~= seq![a[2]]);
            assert(b.drop_first().drop_first() =~= seq![b[2]]);
        }
        match order_texts(self.repository_role.as_str(), other.repository_role.as_str()) {
            Order::Equal => match order_texts(self.path.as_str(), other.path.as_str()) {
                Order::Equal => order_texts(self.sha256.as_str(), other.sha256.as_str()),
                o => o,
            },
            o => o,
        }
    }

    fn primary(&self) -> (r: &str) {
        self.repository_role.as_str()
    }
}

impl ToJson for FrozenBenchmarkArtifact {
    open spec fn json(&self) -> Value {
        artifact_json(self.key())
    }

    fn to_json(&self) -> (r: Json) {
        let mut out = Json::obj();
        out.set("path", Json::Str(self.path.clone()));
        out.set("repository_role", Json::Str(self.repository_role.clone()));
        out.set("sha256", Json::Str(self.sha256.clone()));
        out
    }
}

fn find_repeated_artifact(artifacts: &[FrozenBenchmarkArtifact]) -> (r: Option<&FrozenBenchmarkArtifact>)
    ensures
        match r {
            Some(a) => repeated_artifact(keys(artifacts@)) == Some(a.key()),
            None => repeated_artifact(keys(artifacts@)) is None,
        },
{
    let ghost all = keys(artifacts@);
    let n: usize = artifacts.len();
    let mut i: usize = 0;
    assert(all.skip(0) =~= all);
    while n - i >= 2
        invariant
            i <= n == artifacts@.len(),
            all == keys(artifacts@),
            repeated_artifact(all) == repeated_artifact(all.skip(i as int)),
        decreases n - i,
    {
        proof {
            assert(all.skip(i as int)[0] == artifacts@[i as int].key());
            assert(all.skip(i as int)[1] == artifacts@[i + 1].key());
            assert(all.skip(i as int).drop_first() =~= all.skip(i + 1));
        }
        if same_text(artifacts[i].repository_role.as_str(), artifacts[i + 1].repository_role.as_str()) && same_text(
            artifacts[i].path.as_str(),
            artifacts[i + 1].path.as_str(),
        ) {
            return Some(&artifacts[i]);
        }
        i += 1;
    }
    None
}

// ---------------------------------------------------------------------------
// Cases and policy
// ---------------------------------------------------------------------------

#[derive(Debug, Clone, Copy, PartialEq, Eq, Structural)]
pub enum MetricDirection {
    Minimize,
    Maximize,
}

impl MetricDirection {
    pub open spec fn name(self) -> Seq<char> {
        match self {
            MetricDirection::Minimize => "minimize"@,
            MetricDirection::Maximize => "maximize"@,
        }
    }

    pub fn as_str(self) -> (r: &'static str)
        ensures
            r@ == self.name(),
    {
        match self {
            MetricDirection::Minimize => "minimize",
            MetricDirection::Maximize => "maximize",
        }
    }
}

#[derive(Debug, Clone, Copy, PartialEq, Eq, Structural)]
pub enum BenchmarkClass {
    EndToEnd,
    SupportingMicrobenchmark,
}

impl BenchmarkClass {
    pub open spec fn name(self) -> Seq<char> {
        match self {
            BenchmarkClass::EndToEnd => "end_to_end"@,
            BenchmarkClass::SupportingMicrobenchmark => "supporting_microbenchmark"@,
        }
    }

    pub fn as_str(self) -> (r: &'static str)
        ensures
            r@ == self.name(),
    {
        match self {
            BenchmarkClass::EndToEnd => "end_to_end",
            BenchmarkClass::SupportingMicrobenchmark => "supporting_microbenchmark",
        }
    }
}

#[derive(Debug, Clone, PartialEq, Eq)]
pub struct BenchmarkCase {
    pub id: String,
    pub repository_role: String,
    pub command_kind: String,
    pub arguments: Vec<String>,
    pub metric: String,
    pub unit: String,
    pub direction: MetricDirection,
    pub class: BenchmarkClass,
    pub promotion_gate: bool,
}

/// Whether fields make a benchmark case, and why not.
pub open spec fn check_case(
    id: Seq<char>,
    repository_role: Seq<char>,
    command_kind: Seq<char>,
    arguments: Seq<Seq<char>>,
    metric: Seq<char>,
    unit: Seq<char>,
    class: BenchmarkClass,
    promotion_gate: bool,
) -> Result<(), PerfFailure> {
    and_then(
        check_identifier("benchmark_case.id", id),
        and_then(
            check_identifier("benchmark_case.repository_role", repository_role),
            and_then(
                check_identifier("benchmark_case.command_kind", command_kind),
                and_then(
                    check_text("benchmark_case.metric", metric),
                    and_then(
                        check_text("benchmark_case.unit", unit),
                        and_then(
                            check_arguments(arguments),
                            if promotion_gate && class != BenchmarkClass::EndToEnd {
                                Err(PerfRegimeError::MicrobenchmarkCannotPromote(id))
                            } else {
                                Ok(())
                            },
                        ),
                    ),
                ),
            ),
        ),
    )
}

impl BenchmarkCase {
    pub fn new(
        id: impl IntoText,
        repository_role: impl IntoText,
        command_kind: impl IntoText,
        arguments: Vec<String>,
        metric: impl IntoText,
        unit: impl IntoText,
        direction: MetricDirection,
        class: BenchmarkClass,
        promotion_gate: bool,
    ) -> (r: Result<Self, PerfRegimeError>)
        ensures
            ({
                let check = check_case(
                    id.text(),
                    repository_role.text(),
                    command_kind.text(),
                    texts(arguments@),
                    metric.text(),
                    unit.text(),
                    class,
                    promotion_gate,
                );
                match r {
                    Ok(c) => {
                        &&& check is Ok
                        &&& c.id@ == id.text()
                        &&& c.repository_role@ == repository_role.text()
                        &&& c.command_kind@ == command_kind.text()
                        &&& c.arguments == arguments
                        &&& c.metric@ == metric.text()
                        &&& c.unit@ == unit.text()
                        &&& c.direction == direction
                        &&& c.class == class
                        &&& c.promotion_gate == promotion_gate
                    },
                    Err(e) => check == Err::<(), PerfFailure>(e@),
                }
            }),
    {
        let id = id.into_text();
        let repository_role = repository_role.into_text();
        let command_kind = command_kind.into_text();
        let metric = metric.into_text();
        let unit = unit.into_text();
        validate_identifier("benchmark_case.id", id.as_str())?;
        validate_identifier("benchmark_case.repository_role", repository_role.as_str())?;
        validate_identifier("benchmark_case.command_kind", command_kind.as_str())?;
        validate_text("benchmark_case.metric", metric.as_str())?;
        validate_text("benchmark_case.unit", unit.as_str())?;
        validate_arguments(arguments.as_slice())?;
        if promotion_gate && class != BenchmarkClass::EndToEnd {
            return Err(PerfRegimeError::MicrobenchmarkCannotPromote(id));
        }
        Ok(
            BenchmarkCase {
                id,
                repository_role,
                command_kind,
                arguments,
                metric,
                unit,
                direction,
                class,
                promotion_gate,
            },
        )
    }
}

impl Keyed for BenchmarkCase {
    open spec fn key(&self) -> Key {
        seq![self.id@]
    }

    fn order_by_key(&self, other: &Self) -> (r: Order) {
        proof {
            reveal_with_fuel(key_order, 2);
        }
        order_texts(self.id.as_str(), other.id.as_str())
    }

    fn primary(&self) -> (r: &str) {
        self.id.as_str()
    }
}

impl ToJson for BenchmarkCase {
    open spec fn json(&self) -> Value {
        empty_obj().with("arguments"@, text_array(texts(self.arguments@))).with("class"@, Value::Str(self.class.name())).with(
            "command_kind"@,
            Value::Str(self.command_kind@),
        ).with("direction"@, Value::Str(self.direction.name())).with("id"@, Value::Str(self.id@)).with(
            "metric"@,
            Value::Str(self.metric@),
        ).with("promotion_gate"@, Value::Bool(self.promotion_gate)).with(
            "repository_role"@,
            Value::Str(self.repository_role@),
        ).with("unit"@, Value::Str(self.unit@))
    }

    fn to_json(&self) -> (r: Json) {
        let mut out = Json::obj();
        out.set("arguments", Json::text_array(self.arguments.as_slice()));
        out.set("class", Json::text(self.class.as_str()));
        out.set("command_kind", Json::Str(self.command_kind.clone()));
        out.set("direction", Json::text(self.direction.as_str()));
        out.set("id", Json::Str(self.id.clone()));
        out.set("metric", Json::Str(self.metric.clone()));
        out.set("promotion_gate", Json::Bool(self.promotion_gate));
        out.set("repository_role", Json::Str(self.repository_role.clone()));
        out.set("unit", Json::Str(self.unit.clone()));
        out
    }
}

/// The frozen policy of repeated measurement. Exact counts leave no room to pick among
/// extra runs after the results are known.
#[derive(Debug, Clone, Copy, PartialEq, Eq, Structural)]
pub struct AntiNoisePolicy {
    pub samples_per_batch: usize,
    pub batches: usize,
    pub max_relative_mad_ppm: u64,
    pub min_improvement_ppm: u64,
    pub min_winning_batches: usize,
}

impl AntiNoisePolicy {
    /// Whether the policy is sound, and why not.
    pub open spec fn check(&self) -> Result<(), PerfFailure> {
        if self.samples_per_batch < 3 || self.batches < 2 {
            Err(PerfRegimeError::InsufficientRepetition)
        } else if self.max_relative_mad_ppm == 0 || self.min_improvement_ppm == 0 {
            Err(PerfRegimeError::InvalidAntiNoisePolicy)
        } else if self.min_winning_batches == 0 || self.min_winning_batches > self.batches {
            Err(PerfRegimeError::InvalidAntiNoisePolicy)
        } else if self.samples_per_batch * self.batches > usize::MAX {
            Err(PerfRegimeError::SampleBudgetOverflow)
        } else if self.samples_per_batch * self.batches > MAX_TOTAL_SAMPLES_PER_COMPARISON {
            Err(
                PerfRegimeError::SampleBudgetExceeded {
                    actual: (self.samples_per_batch * self.batches) as usize,
                    maximum: MAX_TOTAL_SAMPLES_PER_COMPARISON,
                },
            )
        } else {
            Ok(())
        }
    }

    pub fn new(
        samples_per_batch: usize,
        batches: usize,
        max_relative_mad_ppm: u64,
        min_improvement_ppm: u64,
        min_winning_batches: usize,
    ) -> (r: Result<Self, PerfRegimeError>)
        ensures
            ({
                let p = AntiNoisePolicy {
                    samples_per_batch,
                    batches,
                    max_relative_mad_ppm,
                    min_improvement_ppm,
                    min_winning_batches,
                };
                match r {
                    Ok(q) => p.check() is Ok && q == p,
                    Err(e) => p.check() == Err::<(), PerfFailure>(e@),
                }
            }),
    {
        if samples_per_batch < 3 || batches < 2 {
            return Err(PerfRegimeError::InsufficientRepetition);
        }
        if max_relative_mad_ppm == 0 || min_improvement_ppm == 0 {
            return Err(PerfRegimeError::InvalidAntiNoisePolicy);
        }
        if min_winning_batches == 0 || min_winning_batches > batches {
            return Err(PerfRegimeError::InvalidAntiNoisePolicy);
        }
        let total = match samples_per_batch.checked_mul(batches) {
            Some(total) => total,
            None => {
                return Err(PerfRegimeError::SampleBudgetOverflow);
            },
        };
        if total > MAX_TOTAL_SAMPLES_PER_COMPARISON {
            return Err(
                PerfRegimeError::SampleBudgetExceeded { actual: total, maximum: MAX_TOTAL_SAMPLES_PER_COMPARISON },
            );
        }
        Ok(
            AntiNoisePolicy {
                samples_per_batch,
                batches,
                max_relative_mad_ppm,
                min_improvement_ppm,
                min_winning_batches,
            },
        )
    }
}

impl ToJson for AntiNoisePolicy {
    open spec fn json(&self) -> Value {
        empty_obj().with("batches"@, Value::Num(decimal(self.batches as nat))).with(
            "max_relative_mad_ppm"@,
            Value::Num(decimal(self.max_relative_mad_ppm as nat)),
        ).with("min_improvement_ppm"@, Value::Num(decimal(self.min_improvement_ppm as nat))).with(
            "min_winning_batches"@,
            Value::Num(decimal(self.min_winning_batches as nat)),
        ).with("samples_per_batch"@, Value::Num(decimal(self.samples_per_batch as nat)))
    }

    fn to_json(&self) -> (r: Json) {
        let mut out = Json::obj();
        out.set("batches", Json::num(self.batches as u64));
        out.set("max_relative_mad_ppm", Json::num(self.max_relative_mad_ppm));
        out.set("min_improvement_ppm", Json::num(self.min_improvement_ppm));
        out.set("min_winning_batches", Json::num(self.min_winning_batches as u64));
        out.set("samples_per_batch", Json::num(self.samples_per_batch as u64));
        out
    }
}

// ---------------------------------------------------------------------------
// Specification, graph and task
// ---------------------------------------------------------------------------

/// Specification and graph are intact and belong together.
pub open spec fn check_context(spec: FrozenAutopilotSpec, dag: AutopilotTaskDag) -> Result<(), PerfFailure> {
    if !spec.is_intact() {
        Err(PerfRegimeError::InvalidSpec(spec.mismatch().message()))
    } else if !dag.is_intact() {
        Err(PerfRegimeError::InvalidDag(dag.mismatch().message()))
    } else if dag@.spec_sha256 != spec@.spec_sha256 {
        Err(PerfRegimeError::ProfileContextMismatch)
    } else {
        Ok(())
    }
}

fn verify_spec_and_dag(spec: &FrozenAutopilotSpec, dag: &AutopilotTaskDag) -> (r: Result<(), PerfRegimeError>)
    ensures
        outcome(r) == check_context(*spec, *dag),
{
    match spec.verify() {
        Ok(_) => {},
        Err(e) => {
            return Err(PerfRegimeError::InvalidSpec(e.to_string()));
        },
    }
    match dag.verify() {
        Ok(_) => {},
        Err(e) => {
            return Err(PerfRegimeError::InvalidDag(e.to_string()));
        },
    }
    if !same_text(dag.spec_sha256(), spec.spec_sha256()) {
        return Err(PerfRegimeError::ProfileContextMismatch);
    }
    Ok(())
}

// ---------------------------------------------------------------------------
// The frozen benchmark
// ---------------------------------------------------------------------------

/// Benchmark, environment and policy as they were approved for one task.
#[derive(Debug, Clone, PartialEq, Eq)]
pub struct FrozenPerfBenchmark {
    pub(crate) schema_version: u64,
    pub(crate) spec_sha256: String,
    pub(crate) dag_sha256: String,
    pub(crate) task_id: String,
    pub(crate) profile_id: String,
    pub(crate) approval: PerfBenchmarkApproval,
    pub(crate) environment: BenchmarkEnvironment,
    pub(crate) policy: AntiNoisePolicy,
    pub(crate) cases: Vec<BenchmarkCase>,
    pub(crate) artifacts: Vec<FrozenBenchmarkArtifact>,
    pub(crate) profile_sha256: String,
}

/// The contents over mathematical sequences.
pub ghost struct ProfileRecord {
    pub schema_version: u64,
    pub spec_sha256: Seq<char>,
    pub dag_sha256: Seq<char>,
    pub task_id: Seq<char>,
    pub profile_id: Seq<char>,
    pub approval: PerfBenchmarkApproval,
    pub environment: BenchmarkEnvironment,
    pub policy: AntiNoisePolicy,
    pub cases: Seq<BenchmarkCase>,
    pub artifacts: Seq<FrozenBenchmarkArtifact>,
    pub profile_sha256: Seq<char>,
}

impl FrozenPerfBenchmark {
    pub open(crate) spec fn view(&self) -> ProfileRecord {
        ProfileRecord {
            schema_version: self.schema_version,
            spec_sha256: self.spec_sha256@,
            dag_sha256: self.dag_sha256@,
            task_id: self.task_id@,
            profile_id: self.profile_id@,
            approval: self.approval,
            environment: self.environment,
            policy: self.policy,
            cases: self.cases@,
            artifacts: self.artifacts@,
            profile_sha256: self.profile_sha256@,
        }
    }
}

/// Some case can promote a candidate.
pub open spec fn has_gate(cases: Seq<BenchmarkCase>) -> bool {
    exists|i: int| 0 <= i < cases.len() && (#[trigger] cases[i]).promotion_gate
}

pub open spec fn check_case_placed(task: AutopilotTask, case: BenchmarkCase) -> Result<(), PerfFailure> {
    if texts(task@.repository_roles).contains(case.repository_role@) {
        Ok(())
    } else {
        Err(
            PerfRegimeError::BenchmarkCaseOutsideTaskRepositories {
                case_id: case.id@,
                repository_role: case.repository_role@,
            },
        )
    }
}

/// The checks on the cases of a profile.
pub open spec fn check_cases(task: AutopilotTask, cases: Seq<BenchmarkCase>) -> Result<(), PerfFailure> {
    match adjacent_duplicate(sorted(keys(cases))) {
        Some(id) => Err(PerfRegimeError::DuplicateBenchmarkCase(id)),
        None => if !has_gate(arranged(cases)) {
            Err(PerfRegimeError::NoEndToEndPromotionGate)
        } else {
            check_all(arranged(cases), |c: BenchmarkCase| check_case_placed(task, c))
        },
    }
}

/// The frozen specification admits the path for the role.
pub open spec fn in_frozen_spec(spec: FrozenAutopilotSpec, role: Seq<char>, path: Seq<char>) -> bool {
    match find_scope(spec@.repository_scope, role) {
        Some(scope) => is_within_any(path, texts(scope.allowed_path_prefixes@)),
        None => false,
    }
}

pub open spec fn check_prefix_uncovered(k: Key, prefix: Seq<char>) -> Result<(), PerfFailure> {
    if is_within(k[1], prefix) {
        Err(
            PerfRegimeError::TaskAllowanceTouchesFrozenBenchmark {
                repository_role: k[0],
                frozen_path: k[1],
                allowed_prefix: prefix,
            },
        )
    } else {
        Ok(())
    }
}

/// An allowance of the task does not cover a frozen benchmark.
pub open spec fn check_allowance_uncovered(k: Key, allowance: TaskEditAllowance) -> Result<(), PerfFailure> {
    if allowance.role() == k[0] {
        check_all(allowance.prefixes(), |p: Seq<char>| check_prefix_uncovered(k, p))
    } else {
        Ok(())
    }
}

/// The artifact lies in the frozen scope and outside everything the task may edit.
pub open spec fn check_artifact_placed(spec: FrozenAutopilotSpec, task: AutopilotTask, k: Key) -> Result<(), PerfFailure> {
    if !texts(task@.repository_roles).contains(k[0]) {
        Err(PerfRegimeError::BenchmarkArtifactOutsideTaskRepositories { repository_role: k[0], path: k[1] })
    } else if !in_frozen_spec(spec, k[0], k[1]) {
        Err(PerfRegimeError::BenchmarkArtifactOutsideFrozenSpec { repository_role: k[0], path: k[1] })
    } else {
        check_all(task@.edit_allowances, |a: TaskEditAllowance| check_allowance_uncovered(k, a))
    }
}

/// The checks on the artifacts of a profile, in order of their keys.
pub open spec fn check_artifacts(spec: FrozenAutopilotSpec, task: AutopilotTask, artifacts: Seq<Key>) -> Result<
    (),
    PerfFailure,
> {
    match repeated_artifact(artifacts) {
        Some(k) => Err(PerfRegimeError::DuplicateBenchmarkArtifact { repository_role: k[0], path: k[1] }),
        None => check_all(artifacts, |k: Key| check_artifact_placed(spec, task, k)),
    }
}

/// Whether cases and artifacts can be frozen for a task, and why not.
pub open spec fn check_profile(
    spec: FrozenAutopilotSpec,
    dag: AutopilotTaskDag,
    task_id: Seq<char>,
    cases: Seq<BenchmarkCase>,
    artifacts: Seq<Key>,
) -> Result<(), PerfFailure> {
    and_then(
        check_context(spec, dag),
        and_then(
            check_identifier("task_id", task_id),
            match find_task(dag@.tasks, task_id) {
                None => Err(PerfRegimeError::UnknownTask(task_id)),
                Some(task) => if task@.regime is Feature {
                    Err(PerfRegimeError::TaskIsNotPerf(task_id))
                } else if cases.len() == 0 {
                    Err(PerfRegimeError::EmptyField("benchmark_cases"))
                } else if artifacts.len() == 0 {
                    Err(PerfRegimeError::EmptyField("benchmark_artifacts"))
                } else {
                    and_then(check_cases(task, cases), check_artifacts(spec, task, sorted(artifacts)))
                },
            },
        ),
    )
}

fn any_gate(cases: &[BenchmarkCase]) -> (r: bool)
    ensures
        r == has_gate(cases@),
{
    let mut i: usize = 0;
    while i < cases.len()
        invariant
            i <= cases@.len(),
            forall|j: int| 0 <= j < i ==> !(#[trigger] cases@[j]).promotion_gate,
        decreases cases@.len() - i,
    {
        if cases[i].promotion_gate {
            return true;
        }
        i += 1;
    }
    false
}

fn validate_cases_placed(task: &AutopilotTask, cases: &[BenchmarkCase]) -> (r: Result<(), PerfRegimeError>)
    ensures
        outcome(r) == check_all(cases@, |c: BenchmarkCase| check_case_placed(*task, c)),
{
    let ghost all = cases@;
    let ghost check = |c: BenchmarkCase| check_case_placed(*task, c);
    let mut i: usize = 0;
    assert(all.skip(0) =~= all);
    while i < cases.len()
        invariant
            i <= cases@.len(),
            all == cases@,
            check == (|c: BenchmarkCase| check_case_placed(*task, c)),
            check_all(all, check) == check_all(all.skip(i as int), check),
        decreases cases@.len() - i,
    {
        proof {
            lemma_check_step(all, i as int, check);
        }
        if !contains_text(task.repository_roles(), cases[i].repository_role.as_str()) {
            return Err(
                PerfRegimeError::BenchmarkCaseOutsideTaskRepositories {
                    case_id: cases[i].id.clone(),
                    repository_role: cases[i].repository_role.clone(),
                },
            );
        }
        i += 1;
    }
    Ok(())
}

/// Sorts the cases and checks them.
fn validate_cases(task: &AutopilotTask, cases: Vec<BenchmarkCase>) -> (r: Result<Vec<BenchmarkCase>, PerfRegimeError>)
    ensures
        match r {
            Ok(out) => {
                &&& check_cases(*task, cases@) is Ok
                &&& out@ == arranged(cases@)
                &&& is_sorted_of(out@, cases@)
                &&& adjacent_duplicate(keys(out@)) is None
            },
            Err(e) => check_cases(*task, cases@) == Err::<(), PerfFailure>(e@),
        },
{
    let ghost given = cases@;
    let cases = sort_records(cases);
    match find_adjacent_duplicate(cases.as_slice()) {
        Some(id) => {
            return Err(PerfRegimeError::DuplicateBenchmarkCase(id.to_owned()));
        },
        None => {},
    }
    proof {
        lemma_arranged(cases@, given);
    }
    if !any_gate(cases.as_slice()) {
        return Err(PerfRegimeError::NoEndToEndPromotionGate);
    }
    validate_cases_placed(task, cases.as_slice())?;
    Ok(cases)
}

fn path_in_frozen_spec(spec: &FrozenAutopilotSpec, role: &str, path: &str) -> (r: bool)
    ensures
        r == in_frozen_spec(*spec, role@, path@),
{
    match scope_for(spec.repository_scope.as_slice(), role) {
        Some(scope) => path_is_within_any(path, scope.allowed_path_prefixes.as_slice()),
        None => false,
    }
}

fn validate_allowance(artifact: &FrozenBenchmarkArtifact, allowance: &TaskEditAllowance) -> (r: Result<(), PerfRegimeError>)
    ensures
        outcome(r) == check_allowance_uncovered(artifact.key(), *allowance),
{
    if !same_text(allowance.repository_role(), artifact.repository_role.as_str()) {
        return Ok(());
    }
    let prefixes = allowance.allowed_path_prefixes();
    let ghost k = artifact.key();
    let ghost all = allowance.prefixes();
    let ghost check = |p: Seq<char>| check_prefix_uncovered(k, p);
    let mut i: usize = 0;
    assert(all.skip(0) =~= all);
    while i < prefixes.len()
        invariant
            i <= prefixes@.len(),
            k == artifact.key(),
            allowance.role() == k[0],
            all == allowance.prefixes(),
            all == texts(prefixes@),
            check == (|p: Seq<char>| check_prefix_uncovered(k, p)),
            check_all(all, check) == check_all(all.skip(i as int), check),
        decreases prefixes@.len() - i,
    {
        proof {
            lemma_check_step(all, i as int, check);
        }
        if path_is_within(artifact.path.as_str(), prefixes[i].as_str()) {
            return Err(
                PerfRegimeError::TaskAllowanceTouchesFrozenBenchmark {
                    repository_role: artifact.repository_role.clone(),
                    frozen_path: artifact.path.clone(),
                    allowed_prefix: prefixes[i].clone(),
                },
            );
        }
        i += 1;
    }
    Ok(())
}

fn validate_artifact(spec: &FrozenAutopilotSpec, task: &AutopilotTask, artifact: &FrozenBenchmarkArtifact) -> (r: Result<
    (),
    PerfRegimeError,
>)
    ensures
        outcome(r) == check_artifact_placed(*spec, *task, artifact.key()),
{
    if !contains_text(task.repository_roles(), artifact.repository_role.as_str()) {
        return Err(
            PerfRegimeError::BenchmarkArtifactOutsideTaskRepositories {
                repository_role: artifact.repository_role.clone(),
                path: artifact.path.clone(),
            },
        );
    }
    if !path_in_frozen_spec(spec, artifact.repository_role.as_str(), artifact.path.as_str()) {
        return Err(
            PerfRegimeError::BenchmarkArtifactOutsideFrozenSpec {
                repository_role: artifact.repository_role.clone(),
                path: artifact.path.clone(),
            },
        );
    }
    let ghost k = artifact.key();
    let ghost all = task.edit_allowances@;
    let ghost check = |a: TaskEditAllowance| check_allowance_uncovered(k, a);
    let mut i: usize = 0;
    assert(all.skip(0) =~= all);
    while i < task.edit_allowances.len()
        invariant
            i <= task.edit_allowances@.len(),
            k == artifact.key(),
            all == task.edit_allowances@,
            texts(task.repository_roles@).contains(k[0]),
            in_frozen_spec(*spec, k[0], k[1]),
            check == (|a: TaskEditAllowance| check_allowance_uncovered(k, a)),
            check_all(all, check) == check_all(all.skip(i as int), check),
        decreases task.edit_allowances@.len() - i,
    {
        proof {
            lemma_check_step(all, i as int, check);
        }
        validate_allowance(artifact, &task.edit_allowances[i])?;
        i += 1;
    }
    Ok(())
}

fn validate_artifacts_placed(spec: &FrozenAutopilotSpec, task: &AutopilotTask, artifacts: &[FrozenBenchmarkArtifact]) -> (r: Result<
    (),
    PerfRegimeError,
>)
    ensures
        outcome(r) == check_all(keys(artifacts@), |k: Key| check_artifact_placed(*spec, *task, k)),
{
    let ghost all = keys(artifacts@);
    let ghost check = |k: Key| check_artifact_placed(*spec, *task, k);
    let mut i: usize = 0;
    assert(all.skip(0) =~= all);
    while i < artifacts.len()
        invariant
            i <= artifacts@.len(),
            all == keys(artifacts@),
            check == (|k: Key| check_artifact_placed(*spec, *task, k)),
            check_all(all, check) == check_all(all.skip(i as int), check),
        decreases artifacts@.len() - i,
    {
        proof {
            lemma_check_step(all, i as int, check);
            assert(all[i as int] == artifacts@[i as int].key());
        }
        validate_artifact(spec, task, &artifacts[i])?;
        i += 1;
    }
    Ok(())
}

/// Sorts the artifacts and checks them.
fn validate_artifacts(spec: &FrozenAutopilotSpec, task: &AutopilotTask, artifacts: Vec<FrozenBenchmarkArtifact>) -> (r: Result<
    Vec<FrozenBenchmarkArtifact>,
    PerfRegimeError,
>)
    ensures
        match r {
            Ok(out) => {
                &&& check_artifacts(*spec, *task, sorted(keys(artifacts@))) is Ok
                &&& keys(out@) == sorted(keys(artifacts@))
            },
            Err(e) => check_artifacts(*spec, *task, sorted(keys(artifacts@))) == Err::<(), PerfFailure>(e@),
        },
{
    let artifacts = sort_records(artifacts);
    match find_repeated_artifact(artifacts.as_slice()) {
        Some(a) => {
            return Err(
                PerfRegimeError::DuplicateBenchmarkArtifact {
                    repository_role: a.repository_role.clone(),
                    path: a.path.clone(),
                },
            );
        },
        None => {},
    }
    validate_artifacts_placed(spec, task, artifacts.as_slice())?;
    Ok(artifacts)
}

/// The path is that of a frozen benchmark source of the role.
pub open spec fn is_frozen(artifacts: Seq<FrozenBenchmarkArtifact>, role: Seq<char>, path: Seq<char>) -> bool {
    exists|i: int|
        0 <= i < artifacts.len() && (#[trigger] artifacts[i]).repository_role@ == role && artifacts[i].path@ == path
}

fn path_is_frozen(artifacts: &[FrozenBenchmarkArtifact], role: &str, path: &str) -> (r: bool)
    ensures
        r == is_frozen(artifacts@, role@, path@),
{
    let mut i: usize = 0;
    while i < artifacts.len()
        invariant
            i <= artifacts@.len(),
            forall|j: int|
                0 <= j < i ==> !((#[trigger] artifacts@[j]).repository_role@ == role@ && artifacts@[j].path@ == path@),
        decreases artifacts@.len() - i,
    {
        if same_text(artifacts[i].repository_role.as_str(), role) && same_text(artifacts[i].path.as_str(), path) {
            return true;
        }
        i += 1;
    }
    false
}

/// One operation of a candidate: not on a frozen benchmark, and within an allowance.
pub open spec fn check_operation(
    task: AutopilotTask,
    artifacts: Seq<FrozenBenchmarkArtifact>,
    role: Seq<char>,
    operation: FileOperation,
) -> Result<(), PerfFailure> {
    if is_frozen(artifacts, role, operation.target()) {
        Err(PerfRegimeError::CandidateTouchesFrozenBenchmark { repository_role: role, path: operation.target() })
    } else if !permits(task, role, operation.target(), operation.operation()) {
        Err(
            PerfRegimeError::CandidateOperationOutsideAllowance {
                repository_role: role,
                path: operation.target(),
                operation: operation.operation(),
            },
        )
    } else {
        Ok(())
    }
}

/// The checks on a candidate against its task.
pub open spec fn check_task_candidate(
    task: AutopilotTask,
    artifacts: Seq<FrozenBenchmarkArtifact>,
    role: Seq<char>,
    operations: Seq<FileOperation>,
) -> Result<(), PerfFailure> {
    if !texts(task@.repository_roles).contains(role) {
        Err(PerfRegimeError::RepositoryOutsidePerfTask(role))
    } else if !may_edit(task, role) {
        Err(PerfRegimeError::RepositoryIsReadOnly(role))
    } else {
        check_all(operations, |o: FileOperation| check_operation(task, artifacts, role, o))
    }
}

fn validate_task_candidate(
    task: &AutopilotTask,
    artifacts: &[FrozenBenchmarkArtifact],
    repository_role: &str,
    operations: &[FileOperation],
) -> (r: Result<(), PerfRegimeError>)
    ensures
        outcome(r) == check_task_candidate(*task, artifacts@, repository_role@, operations@),
{
    if !contains_text(task.repository_roles(), repository_role) {
        return Err(PerfRegimeError::RepositoryOutsidePerfTask(repository_role.to_owned()));
    }
    if !task_may_edit(task, repository_role) {
        return Err(PerfRegimeError::RepositoryIsReadOnly(repository_role.to_owned()));
    }
    let ghost all = operations@;
    let ghost check = |o: FileOperation| check_operation(*task, artifacts@, repository_role@, o);
    let mut i: usize = 0;
    assert(all.skip(0) =~= all);
    while i < operations.len()
        invariant
            i <= operations@.len(),
            all == operations@,
            texts(task.repository_roles@).contains(repository_role@),
            may_edit(*task, repository_role@),
            check == (|o: FileOperation| check_operation(*task, artifacts@, repository_role@, o)),
            check_all(all, check) == check_all(all.skip(i as int), check),
        decreases operations@.len() - i,
    {
        proof {
            lemma_check_step(all, i as int, check);
        }
        let operation = &operations[i];
        if path_is_frozen(artifacts, repository_role, operation.path()) {
            return Err(
                PerfRegimeError::CandidateTouchesFrozenBenchmark {
                    repository_role: repository_role.to_owned(),
                    path: operation.path().to_owned(),
                },
            );
        }
        if !task_permits(task, repository_role, operation.path(), operation.kind()) {
            return Err(
                PerfRegimeError::CandidateOperationOutsideAllowance {
                    repository_role: repository_role.to_owned(),
                    path: operation.path().to_owned(),
                    operation: operation.kind(),
                },
            );
        }
        i += 1;
    }
    Ok(())
}

impl FrozenPerfBenchmark {
    /// Everything but the identity, as JSON.
    pub open spec fn unsigned(&self) -> Value {
        empty_obj().with("approval"@, self@.approval.json()).with("artifacts"@, array_json(self@.artifacts)).with(
            "cases"@,
            array_json(self@.cases),
        ).with("dag_sha256"@, Value::Str(self@.dag_sha256)).with("environment"@, self@.environment.json()).with(
            "policy"@,
            self@.policy.json(),
        ).with("profile_id"@, Value::Str(self@.profile_id)).with(
            "schema_version"@,
            Value::Num(decimal(self@.schema_version as nat)),
        ).with("spec_sha256"@, Value::Str(self@.spec_sha256)).with("task_id"@, Value::Str(self@.task_id))
    }

    /// The digest of everything but the identity.
    pub open spec fn identity(&self) -> Seq<char> {
        digest_hex(encode_utf8(print(self.unsigned())))
    }

    /// The recorded identity is the digest of the contents.
    pub open spec fn is_intact(&self) -> bool {
        self@.profile_sha256 == self.identity()
    }

    pub open spec fn check_intact(&self) -> Result<(), PerfFailure> {
        if self.is_intact() {
            Ok(())
        } else {
            Err(
                PerfRegimeError::FrozenProfileHashMismatch { expected: self@.profile_sha256, actual: self.identity() },
            )
        }
    }

    /// Whether a candidate may be evaluated, and why not.
    pub open spec fn check_candidate(&self, dag: AutopilotTaskDag, role: Seq<char>, patch_set: PatchSet) -> Result<
        (),
        PerfFailure,
    > {
        and_then(
            self.check_intact(),
            if !dag.is_intact() {
                Err(PerfRegimeError::InvalidDag(dag.mismatch().message()))
            } else if dag@.dag_sha256 != self@.dag_sha256 {
                Err(PerfRegimeError::ProfileContextMismatch)
            } else {
                match check_operations(patch_set.operations@) {
                    Err(e) => Err(PerfRegimeError::PatchSet(e)),
                    Ok(_) => match find_task(dag@.tasks, self@.task_id) {
                        None => Err(PerfRegimeError::UnknownTask(self@.task_id)),
                        Some(task) => check_task_candidate(task, self@.artifacts, role, patch_set.operations@),
                    },
                }
            },
        )
    }

    /// Freezes the benchmark of a task.
    pub fn freeze(
        spec: &FrozenAutopilotSpec,
        dag: &AutopilotTaskDag,
        task_id: impl IntoText,
        approval: PerfBenchmarkApproval,
        environment: BenchmarkEnvironment,
        policy: AntiNoisePolicy,
        cases: Vec<BenchmarkCase>,
        artifacts: Vec<FrozenBenchmarkArtifact>,
    ) -> (r: Result<Self, PerfRegimeError>)
        ensures
            match r {
                Ok(p) => {
                    &&& check_profile(*spec, *dag, task_id.text(), cases@, keys(artifacts@)) is Ok
                    &&& p@.schema_version == PERF_BENCHMARK_SCHEMA_VERSION
                    &&& p@.spec_sha256 == spec@.spec_sha256
                    &&& p@.dag_sha256 == dag@.dag_sha256
                    &&& p@.task_id == task_id.text()
                    &&& find_task(dag@.tasks, task_id.text())->0@.regime matches TaskRegime::Perf { benchmark_profile_id }
                    &&& p@.profile_id == benchmark_profile_id@
                    &&& p@.approval == approval
                    &&& p@.environment == environment
                    &&& p@.policy == policy
                    &&& p@.cases == arranged(cases@)
                    &&& is_sorted_of(p@.cases, cases@)
                    &&& adjacent_duplicate(keys(p@.cases)) is None
                    &&& keys(p@.artifacts) == sorted(keys(artifacts@))
                    &&& p.is_intact()
                },
                Err(e) => check_profile(*spec, *dag, task_id.text(), cases@, keys(artifacts@)) == Err::<(), PerfFailure>(e@),
            },
    {
        verify_spec_and_dag(spec, dag)?;
        let task_id = task_id.into_text();
        validate_identifier("task_id", task_id.as_str())?;
        let task = match dag.task(task_id.as_str()) {
            Some(task) => task,
            None => {
                return Err(PerfRegimeError::UnknownTask(task_id));
            },
        };
        let profile_id = match task.regime() {
            TaskRegime::Perf { benchmark_profile_id } => benchmark_profile_id.clone(),
            TaskRegime::Feature => {
                return Err(PerfRegimeError::TaskIsNotPerf(task_id));
            },
        };
        if cases.len() == 0 {
            return Err(PerfRegimeError::EmptyField("benchmark_cases"));
        }
        if artifacts.len() == 0 {
            return Err(PerfRegimeError::EmptyField("benchmark_artifacts"));
        }
        let cases = validate_cases(task, cases)?;
        let artifacts = validate_artifacts(spec, task, artifacts)?;
        let mut profile = FrozenPerfBenchmark {
            schema_version: PERF_BENCHMARK_SCHEMA_VERSION,
            spec_sha256: spec.spec_sha256.clone(),
            dag_sha256: dag.dag_sha256.clone(),
            task_id,
            profile_id,
            approval,
            environment,
            policy,
            cases,
            artifacts,
            profile_sha256: String::new(),
        };
        let identity = profile.compute_sha256();
        profile.profile_sha256 = identity;
        Ok(profile)
    }

    pub fn task_id(&self) -> (r: &str)
        ensures
            r@ == self@.task_id,
    {
        self.task_id.as_str()
    }

    pub fn profile_id(&self) -> (r: &str)
        ensures
            r@ == self@.profile_id,
    {
        self.profile_id.as_str()
    }

    pub fn policy(&self) -> (r: AntiNoisePolicy)
        ensures
            r == self@.policy,
    {
        self.policy
    }

    pub fn cases(&self) -> (r: &[BenchmarkCase])
        ensures
            r@ == self@.cases,
    {
        self.cases.as_slice()
    }

    pub fn artifacts(&self) -> (r: &[FrozenBenchmarkArtifact])
        ensures
            r@ == self@.artifacts,
    {
        self.artifacts.as_slice()
    }

    pub fn environment_fingerprint(&self) -> (r: String)
        ensures
            r@ == self@.environment.digest(),
    {
        self.environment.fingerprint()
    }

    pub fn profile_sha256(&self) -> (r: &str)
        ensures
            r@ == self@.profile_sha256,
    {
        self.profile_sha256.as_str()
    }

    /// Whether the recorded identity belongs to the contents.
    pub fn verify(&self) -> (r: Result<(), PerfRegimeError>)
        ensures
            outcome(r) == self.check_intact(),
    {
        let actual = self.compute_sha256();
        if !same_text(actual.as_str(), self.profile_sha256.as_str()) {
            return Err(
                PerfRegimeError::FrozenProfileHashMismatch { expected: self.profile_sha256.clone(), actual },
            );
        }
        Ok(())
    }

    /// The guard that every candidate passes before it is evaluated.
    pub fn validate_patchset(&self, dag: &AutopilotTaskDag, repository_role: &str, patch_set: &PatchSet) -> (r: Result<
        (),
        PerfRegimeError,
    >)
        ensures
            outcome(r) == self.check_candidate(*dag, repository_role@, *patch_set),
    {
        self.verify()?;
        match dag.verify() {
            Ok(_) => {},
            Err(e) => {
                return Err(PerfRegimeError::InvalidDag(e.to_string()));
            },
        }
        if !same_text(dag.dag_sha256(), self.dag_sha256.as_str()) {
            return Err(PerfRegimeError::ProfileContextMismatch);
        }
        match patch_set.validate() {
            Ok(_) => {},
            Err(e) => {
                return Err(PerfRegimeError::PatchSet(e));
            },
        }
        let task = match dag.task(self.task_id.as_str()) {
            Some(task) => task,
            None => {
                return Err(PerfRegimeError::UnknownTask(self.task_id.clone()));
            },
        };
        validate_task_candidate(task, self.artifacts.as_slice(), repository_role, patch_set.operations())
    }

    pub fn to_json_string(&self) -> (r: String)
        ensures
            r@ == print(self.unsigned().with("profile_sha256"@, Value::Str(self@.profile_sha256))),
    {
        let mut root = self.unsigned_json();
        root.set("profile_sha256", Json::Str(self.profile_sha256.clone()));
        root.to_string()
    }

    fn compute_sha256(&self) -> (r: String)
        ensures
            r@ == self.identity(),
    {
        sha256_hex(self.unsigned_json().to_string().as_str().as_bytes())
    }

    fn unsigned_json(&self) -> (r: Json)
        ensures
            r@ == self.unsigned(),
    {
        let mut root = Json::obj();
        root.set("approval", self.approval.to_json());
        root.set("artifacts", json_array(self.artifacts.as_slice()));
        root.set("cases", json_array(self.cases.as_slice()));
        root.set("dag_sha256", Json::Str(self.dag_sha256.clone()));
        root.set("environment", self.environment.to_json());
        root.set("policy", self.policy.to_json());
        root.set("profile_id", Json::Str(self.profile_id.clone()));
        root.set("schema_version", Json::num(self.schema_version));
        root.set("spec_sha256", Json::Str(self.spec_sha256.clone()));
        root.set("task_id", Json::Str(self.task_id.clone()));
        root
    }
}

// ---------------------------------------------------------------------------
// Measurements
// ---------------------------------------------------------------------------

/// What was computed from the samples of one batch.
#[derive(Debug, Clone, Copy, PartialEq, Eq, Structural)]
pub struct SampleStatistics {
    /// The median absolute deviation in millionths of the median, if it is a number.
    pub relative_mad_ppm: Option<u64>,
    /// For a candidate, the improvement of the median over that of the baseline batch
    /// with the same identifiers, in millionths.
    pub improvement_ppm: i64,
}

/// One batch of a benchmark case.
#[derive(Debug, Clone, PartialEq, Eq)]
pub struct PerfMeasurementBatch {
    pub case_id: String,
    pub batch_id: String,
    pub environment_fingerprint: String,
    pub samples: Vec<Measure>,
    pub statistics: SampleStatistics,
}

/// A sample is a positive finite number.
pub open spec fn is_sample(m: Measure) -> bool {
    m.finite() && (Measure { bits: 0 }).below(m)
}

/// There are samples, and every one is a positive finite number.
pub open spec fn are_samples(samples: Seq<Measure>) -> bool {
    samples.len() > 0 && forall|i: int| 0 <= i < samples.len() ==> is_sample(#[trigger] samples[i])
}

fn samples_ok(samples: &[Measure]) -> (r: bool)
    ensures
        r == are_samples(samples@),
{
    let mut i: usize = 0;
    while i < samples.len()
        invariant
            i <= samples@.len(),
            forall|j: int| 0 <= j < i ==> is_sample(#[trigger] samples@[j]),
        decreases samples@.len() - i,
    {
        if !samples[i].is_finite() || !Measure::zero().is_below(&samples[i]) {
            assert(!is_sample(samples@[i as int]));
            return false;
        }
        i += 1;
    }
    samples.len() > 0
}

pub open spec fn check_measurement(
    case_id: Seq<char>,
    batch_id: Seq<char>,
    environment: Seq<char>,
    samples: Seq<Measure>,
) -> Result<(), PerfFailure> {
    and_then(
        check_identifier("measurement.case_id", case_id),
        and_then(
            check_identifier("measurement.batch_id", batch_id),
            and_then(
                check_digest("measurement.environment_fingerprint", environment),
                if !are_samples(samples) {
                    Err(PerfRegimeError::InvalidSamples { case_id, batch_id })
                } else {
                    Ok(())
                },
            ),
        ),
    )
}

impl PerfMeasurementBatch {
    pub fn new(
        case_id: impl IntoText,
        batch_id: impl IntoText,
        environment_fingerprint: impl IntoText,
        samples: Vec<Measure>,
        statistics: SampleStatistics,
    ) -> (r: Result<Self, PerfRegimeError>)
        ensures
            ({
                let check = check_measurement(
                    case_id.text(),
                    batch_id.text(),
                    environment_fingerprint.text(),
                    samples@,
                );
                match r {
                    Ok(b) => {
                        &&& check is Ok
                        &&& b.case_id@ == case_id.text()
                        &&& b.batch_id@ == batch_id.text()
                        &&& b.environment_fingerprint@ == environment_fingerprint.text()
                        &&& b.samples == samples
                        &&& b.statistics == statistics
                    },
                    Err(e) => check == Err::<(), PerfFailure>(e@),
                }
            }),
    {
        let case_id = case_id.into_text();
        let batch_id = batch_id.into_text();
        let environment_fingerprint = environment_fingerprint.into_text();
        validate_identifier("measurement.case_id", case_id.as_str())?;
        validate_identifier("measurement.batch_id", batch_id.as_str())?;
        validate_digest("measurement.environment_fingerprint", environment_fingerprint.as_str())?;
        if !samples_ok(samples.as_slice()) {
            return Err(PerfRegimeError::InvalidSamples { case_id, batch_id });
        }
        Ok(PerfMeasurementBatch { case_id, batch_id, environment_fingerprint, samples, statistics })
    }
}

/// The identifiers of the batches of a case, in the order of the evidence.
pub open spec fn ids_of_case(evidence: Seq<PerfMeasurementBatch>, case_id: Seq<char>) -> Seq<Seq<char>>
    decreases evidence.len(),
{
    if evidence.len() == 0 {
        Seq::empty()
    } else if evidence.last().case_id@ == case_id {
        ids_of_case(evidence.drop_last(), case_id).push(evidence.last().batch_id@)
    } else {
        ids_of_case(evidence.drop_last(), case_id)
    }
}

/// The first batch with the given identifiers.
pub open spec fn find_batch(evidence: Seq<PerfMeasurementBatch>, case_id: Seq<char>, batch_id: Seq<char>) -> Option<
    PerfMeasurementBatch,
>
    decreases evidence.len(),
{
    if evidence.len() == 0 {
        None
    } else if evidence[0].case_id@ == case_id && evidence[0].batch_id@ == batch_id {
        Some(evidence[0])
    } else {
        find_batch(evidence.drop_first(), case_id, batch_id)
    }
}

/// A listed batch can be found.
proof fn lemma_listed_batch(evidence: Seq<PerfMeasurementBatch>, case_id: Seq<char>, batch_id: Seq<char>)
    requires
        ids_of_case(evidence, case_id).contains(batch_id),
    ensures
        exists|i: int|
            0 <= i < evidence.len() && (#[trigger] evidence[i]).case_id@ == case_id && evidence[i].batch_id@ == batch_id,
    decreases evidence.len(),
{
    let ids = ids_of_case(evidence, case_id);
    let k = choose|k: int| 0 <= k < ids.len() && ids[k] == batch_id;
    let front = evidence.drop_last();
    let before = ids_of_case(front, case_id);
    if k < before.len() {
        assert(before[k] == batch_id);
        lemma_listed_batch(front, case_id, batch_id);
        let i = choose|i: int|
            0 <= i < front.len() && (#[trigger] front[i]).case_id@ == case_id && front[i].batch_id@ == batch_id;
        assert(evidence[i].case_id@ == case_id && evidence[i].batch_id@ == batch_id);
    } else {
        let i = evidence.len() - 1;
        assert(evidence[i].case_id@ == case_id && evidence[i].batch_id@ == batch_id);
    }
}

fn batch_ids(evidence: &[PerfMeasurementBatch], case_id: &str) -> (r: Vec<String>)
    ensures
        texts(r@) == ids_of_case(evidence@, case_id@),
{
    broadcast use lemma_texts_push;
    let ghost all = evidence@;
    let mut out: Vec<String> = Vec::new();
    let mut i: usize = 0;
    assert(texts(out@) =~= ids_of_case(all.take(0), case_id@));
    while i < evidence.len()
        invariant
            i <= evidence@.len(),
            all == evidence@,
            texts(out@) == ids_of_case(all.take(i as int), case_id@),
        decreases evidence@.len() - i,
    {
        broadcast use lemma_texts_push;
        proof {
            assert(all.take(i + 1).drop_last() =~= all.take(i as int));
            assert(all.take(i + 1).last() == all[i as int]);
        }
        if same_text(evidence[i].case_id.as_str(), case_id) {
            out.push(evidence[i].batch_id.clone());
        }
        i += 1;
    }
    assert(all.take(i as int) =~= all);
    out
}

fn batch_for<'a>(evidence: &'a [PerfMeasurementBatch], case_id: &str, batch_id: &str) -> (r: &'a PerfMeasurementBatch)
    requires
        ids_of_case(evidence@, case_id@).contains(batch_id@),
    ensures
        find_batch(evidence@, case_id@, batch_id@) == Some(*r),
{
    let ghost all = evidence@;
    proof {
        lemma_listed_batch(all, case_id@, batch_id@);
    }
    let mut i: usize = 0;
    assert(all.skip(0) =~= all);
    loop
        invariant
            i <= evidence@.len(),
            all == evidence@,
            exists|k: int|
                i <= k < all.len() && (#[trigger] all[k]).case_id@ == case_id@ && all[k].batch_id@ == batch_id@,
            find_batch(all, case_id@, batch_id@) == find_batch(all.skip(i as int), case_id@, batch_id@),
        decreases evidence@.len() - i,
    {
        assert(all.skip(i as int)[0] == all[i as int]);
        if same_text(evidence[i].case_id.as_str(), case_id) && same_text(evidence[i].batch_id.as_str(), batch_id) {
            return &evidence[i];
        }
        assert(all.skip(i as int).drop_first() =~= all.skip(i + 1));
        i += 1;
    }
}

// ---------------------------------------------------------------------------
// Comparison
// ---------------------------------------------------------------------------

/// The batch was measured in the frozen environment with the frozen number of samples.
pub open spec fn check_batch(profile: FrozenPerfBenchmark, case_id: Seq<char>, batch: PerfMeasurementBatch) -> Result<
    (),
    PerfFailure,
> {
    if batch.environment_fingerprint@ != profile@.environment.digest() {
        Err(PerfRegimeError::WrongEnvironment { case_id, batch_id: batch.batch_id@ })
    } else if batch.samples@.len() != profile@.policy.samples_per_batch {
        Err(
            PerfRegimeError::SampleCountMismatch {
                case_id,
                batch_id: batch.batch_id@,
                expected: profile@.policy.samples_per_batch,
                actual: batch.samples@.len() as usize,
            },
        )
    } else {
        Ok(())
    }
}

pub open spec fn check_noise(batch: PerfMeasurementBatch) -> Result<(), PerfFailure> {
    if batch.statistics.relative_mad_ppm is Some {
        Ok(())
    } else {
        Err(PerfRegimeError::InvalidNoiseStatistic)
    }
}

/// The checks on the two batches with one identifier.
pub open spec fn check_pair(
    profile: FrozenPerfBenchmark,
    case_id: Seq<char>,
    baseline: PerfMeasurementBatch,
    candidate: PerfMeasurementBatch,
) -> Result<(), PerfFailure> {
    and_then(
        check_batch(profile, case_id, baseline),
        and_then(
            check_batch(profile, case_id, candidate),
            and_then(check_noise(baseline), check_noise(candidate)),
        ),
    )
}

/// The batches of a case are unambiguous, complete and paired.
pub open spec fn check_batches(
    profile: FrozenPerfBenchmark,
    case_id: Seq<char>,
    baseline: Seq<PerfMeasurementBatch>,
    candidate: Seq<PerfMeasurementBatch>,
) -> Result<(), PerfFailure> {
    let b = ids_of_case(baseline, case_id);
    let c = ids_of_case(candidate, case_id);
    match repeated_text(b) {
        Some(id) => Err(PerfRegimeError::DuplicateMeasurementBatch { case_id, batch_id: id }),
        None => match repeated_text(c) {
            Some(id) => Err(PerfRegimeError::DuplicateMeasurementBatch { case_id, batch_id: id }),
            None => if b.len() != profile@.policy.batches || c.len() != profile@.policy.batches {
                Err(
                    PerfRegimeError::BatchCountMismatch {
                        case_id,
                        expected: profile@.policy.batches,
                        baseline: b.len() as usize,
                        candidate: c.len() as usize,
                    },
                )
            } else if canonical(b) != canonical(c) {
                Err(PerfRegimeError::UnpairedBatches(case_id))
            } else {
                check_all(
                    canonical(b),
                    |id: Seq<char>|
                        check_pair(
                            profile,
                            case_id,
                            find_batch(baseline, case_id, id)->0,
                            find_batch(candidate, case_id, id)->0,
                        ),
                )
            },
        },
    }
}

/// The larger of two numbers.
pub open spec fn larger(a: u64, b: u64) -> u64 {
    if a < b {
        b
    } else {
        a
    }
}

/// The greatest relative deviation in the batches of a case.
pub open spec fn max_noise(
    case_id: Seq<char>,
    baseline: Seq<PerfMeasurementBatch>,
    candidate: Seq<PerfMeasurementBatch>,
    ids: Seq<Seq<char>>,
) -> u64
    decreases ids.len(),
{
    if ids.len() == 0 {
        0
    } else {
        larger(
            larger(
                max_noise(case_id, baseline, candidate, ids.drop_last()),
                find_batch(baseline, case_id, ids.last())->0.statistics.relative_mad_ppm->0,
            ),
            find_batch(candidate, case_id, ids.last())->0.statistics.relative_mad_ppm->0,
        )
    }
}

/// The number of batches in which the candidate improved by at least `least`.
pub open spec fn winners(case_id: Seq<char>, candidate: Seq<PerfMeasurementBatch>, ids: Seq<Seq<char>>, least: i64) -> nat
    decreases ids.len(),
{
    if ids.len() == 0 {
        0
    } else {
        winners(case_id, candidate, ids.drop_last(), least) + (if find_batch(
            candidate,
            case_id,
            ids.last(),
        )->0.statistics.improvement_ppm >= least {
            1nat
        } else {
            0nat
        })
    }
}

/// What was computed from the batches of one case together: the medians of their medians
/// and the improvement of one over the other, in millionths.
#[derive(Debug, Clone, Copy, PartialEq, Eq, Structural)]
pub struct CaseSummary {
    pub baseline_median: Measure,
    pub candidate_median: Measure,
    pub improvement_ppm: i64,
}

/// The result of one case.
#[derive(Debug, Clone, PartialEq, Eq)]
pub struct PerfCaseResult {
    pub case_id: String,
    pub class: BenchmarkClass,
    pub promotion_gate: bool,
    pub baseline_median: Measure,
    pub candidate_median: Measure,
    pub improvement_ppm: i64,
    pub max_relative_mad_ppm: u64,
    pub winning_batches: usize,
    pub required_winning_batches: usize,
    pub passed: bool,
}

/// The result of one case over mathematical values.
pub ghost struct CaseVerdict {
    pub case_id: Seq<char>,
    pub class: BenchmarkClass,
    pub promotion_gate: bool,
    pub baseline_median: Measure,
    pub candidate_median: Measure,
    pub improvement_ppm: i64,
    pub max_relative_mad_ppm: u64,
    pub winning_batches: nat,
    pub required_winning_batches: nat,
    pub passed: bool,
}

impl PerfCaseResult {
    pub open spec fn view(&self) -> CaseVerdict {
        CaseVerdict {
            case_id: self.case_id@,
            class: self.class,
            promotion_gate: self.promotion_gate,
            baseline_median: self.baseline_median,
            candidate_median: self.candidate_median,
            improvement_ppm: self.improvement_ppm,
            max_relative_mad_ppm: self.max_relative_mad_ppm,
            winning_batches: self.winning_batches as nat,
            required_winning_batches: self.required_winning_batches as nat,
            passed: self.passed,
        }
    }
}

/// A case passes when its noise is within the limit, the whole improved enough, and
/// enough batches improved enough.
pub open spec fn verdict_of(
    policy: AntiNoisePolicy,
    case: BenchmarkCase,
    summary: CaseSummary,
    noise_ppm: u64,
    winning: nat,
) -> CaseVerdict {
    CaseVerdict {
        case_id: case.id@,
        class: case.class,
        promotion_gate: case.promotion_gate,
        baseline_median: summary.baseline_median,
        candidate_median: summary.candidate_median,
        improvement_ppm: summary.improvement_ppm,
        max_relative_mad_ppm: noise_ppm,
        winning_batches: winning,
        required_winning_batches: policy.min_winning_batches as nat,
        passed: noise_ppm <= policy.max_relative_mad_ppm && summary.improvement_ppm >= policy.min_improvement_ppm as i64 && winning
            >= policy.min_winning_batches,
    }
}

/// The verdict on a case, or why its evidence cannot be used. The summary is
/// that of all batches together.
pub open spec fn case_verdict(
    profile: FrozenPerfBenchmark,
    case: BenchmarkCase,
    baseline: Seq<PerfMeasurementBatch>,
    candidate: Seq<PerfMeasurementBatch>,
    summary: CaseSummary,
) -> Result<CaseVerdict, PerfFailure> {
    let ids = canonical(ids_of_case(baseline, case.id@));
    match check_batches(profile, case.id@, baseline, candidate) {
        Err(e) => Err(e),
        Ok(_) => Ok(
            verdict_of(
                profile@.policy,
                case,
                summary,
                max_noise(case.id@, baseline, candidate, ids),
                winners(case.id@, candidate, ids, profile@.policy.min_improvement_ppm as i64),
            ),
        ),
    }
}

pub open spec fn check_known(cases: Seq<BenchmarkCase>, batch: PerfMeasurementBatch) -> Result<(), PerfFailure> {
    if exists|i: int| 0 <= i < cases.len() && (#[trigger] cases[i]).id@ == batch.case_id@ {
        Ok(())
    } else {
        Err(PerfRegimeError::UnknownEvidenceCase(batch.case_id@))
    }
}

/// Every batch belongs to a case of the profile.
pub open spec fn check_evidence(cases: Seq<BenchmarkCase>, evidence: Seq<PerfMeasurementBatch>) -> Result<(), PerfFailure> {
    check_all(evidence, |b: PerfMeasurementBatch| check_known(cases, b))
}

/// The comparison of a candidate with the baseline.
#[derive(Debug, Clone, PartialEq, Eq)]
pub struct PerfComparisonReport {
    pub hard_gates_passed: bool,
    pub promotable: bool,
    pub cases: Vec<PerfCaseResult>,
}

/// A comparison over mathematical values.
pub ghost struct Comparison {
    pub hard_gates_passed: bool,
    pub promotable: bool,
    pub cases: Seq<CaseVerdict>,
}

impl PerfComparisonReport {
    pub open spec fn view(&self) -> Comparison {
        Comparison {
            hard_gates_passed: self.hard_gates_passed,
            promotable: self.promotable,
            cases: self.cases@.map_values(|c: PerfCaseResult| c@),
        }
    }
}

/// Every case that decides promotion passed.
pub open spec fn gates_passed(verdicts: Seq<CaseVerdict>) -> bool {
    forall|i: int| 0 <= i < verdicts.len() && (#[trigger] verdicts[i]).promotion_gate ==> verdicts[i].passed
}

/// The verdicts on all cases of a profile, in order.
pub open spec fn case_verdicts(
    profile: FrozenPerfBenchmark,
    baseline: Seq<PerfMeasurementBatch>,
    candidate: Seq<PerfMeasurementBatch>,
    summaries: Seq<CaseSummary>,
) -> Result<Seq<CaseVerdict>, PerfFailure> {
    map_all(
        Seq::new(profile@.cases.len(), |i: int| i),
        |i: int| case_verdict(profile, profile@.cases[i], baseline, candidate, summaries[i]),
    )
}

/// The outcome of a comparison. A candidate that does not pass the hard gates is never
/// ranked.
pub open spec fn comparison(
    profile: FrozenPerfBenchmark,
    admissibility: AdmissibilityBreakdown,
    baseline: Seq<PerfMeasurementBatch>,
    candidate: Seq<PerfMeasurementBatch>,
    summaries: Seq<CaseSummary>,
) -> Result<Comparison, PerfFailure> {
    match profile.check_intact() {
        Err(e) => Err(e),
        Ok(_) => if !admissibility.all_pass() {
            Ok(Comparison { hard_gates_passed: false, promotable: false, cases: Seq::empty() })
        } else {
            match case_verdicts(profile, baseline, candidate, summaries) {
                Err(e) => Err(e),
                Ok(verdicts) => and_then(
                    and_then(check_evidence(profile@.cases, baseline), check_evidence(profile@.cases, candidate)),
                    Ok(Comparison { hard_gates_passed: true, promotable: gates_passed(verdicts), cases: verdicts }),
                ),
            }
        },
    }
}

fn validate_batch(profile: &FrozenPerfBenchmark, case_id: &str, batch: &PerfMeasurementBatch, environment: &str) -> (r: Result<
    (),
    PerfRegimeError,
>)
    requires
        environment@ == profile.environment.digest(),
    ensures
        outcome(r) == check_batch(*profile, case_id@, *batch),
{
    if !same_text(batch.environment_fingerprint.as_str(), environment) {
        return Err(
            PerfRegimeError::WrongEnvironment { case_id: case_id.to_owned(), batch_id: batch.batch_id.clone() },
        );
    }
    if batch.samples.len() != profile.policy.samples_per_batch {
        return Err(
            PerfRegimeError::SampleCountMismatch {
                case_id: case_id.to_owned(),
                batch_id: batch.batch_id.clone(),
                expected: profile.policy.samples_per_batch,
                actual: batch.samples.len(),
            },
        );
    }
    Ok(())
}

fn noise_of(batch: &PerfMeasurementBatch) -> (r: Result<u64, PerfRegimeError>)
    ensures
        match r {
            Ok(ppm) => batch.statistics.relative_mad_ppm == Some(ppm),
            Err(e) => check_noise(*batch) == Err::<(), PerfFailure>(e@),
        },
{
    match batch.statistics.relative_mad_ppm {
        Some(ppm) => Ok(ppm),
        None => Err(PerfRegimeError::InvalidNoiseStatistic),
    }
}

/// The greater deviation of the two batches with one identifier.
fn pair_noise(
    profile: &FrozenPerfBenchmark,
    case_id: &str,
    baseline: &PerfMeasurementBatch,
    candidate: &PerfMeasurementBatch,
    environment: &str,
    noise: u64,
) -> (r: Result<u64, PerfRegimeError>)
    requires
        environment@ == profile.environment.digest(),
    ensures
        match r {
            Ok(ppm) => {
                &&& check_pair(*profile, case_id@, *baseline, *candidate) is Ok
                &&& ppm == larger(
                    larger(noise, baseline.statistics.relative_mad_ppm->0),
                    candidate.statistics.relative_mad_ppm->0,
                )
            },
            Err(e) => check_pair(*profile, case_id@, *baseline, *candidate) == Err::<(), PerfFailure>(e@),
        },
{
    validate_batch(profile, case_id, baseline, environment)?;
    validate_batch(profile, case_id, candidate, environment)?;
    let b = noise_of(baseline)?;
    let c = noise_of(candidate)?;
    let mut out = noise;
    if out < b {
        out = b;
    }
    if out < c {
        out = c;
    }
    Ok(out)
}

fn same_texts(a: &[String], b: &[String]) -> (r: bool)
    ensures
        r == (texts(a@) == texts(b@)),
{
    if a.len() != b.len() {
        assert(texts(a@).len() != texts(b@).len());
        return false;
    }
    let mut i: usize = 0;
    while i < a.len()
        invariant
            i <= a@.len(),
            a@.len() == b@.len(),
            forall|j: int| 0 <= j < i ==> a@[j]@ == b@[j]@,
        decreases a@.len() - i,
    {
        if !same_text(a[i].as_str(), b[i].as_str()) {
            assert(texts(a@)[i as int] != texts(b@)[i as int]);
            return false;
        }
        i += 1;
    }
    assert(texts(a@) =~= texts(b@));
    true
}

/// The identifiers of the paired batches of a case, in ascending order.
fn paired_ids(profile: &FrozenPerfBenchmark, case_id: &str, baseline: &[PerfMeasurementBatch], candidate: &[PerfMeasurementBatch]) -> (r: Result<
    Vec<String>,
    PerfRegimeError,
>)
    ensures
        match r {
            Ok(ids) => {
                &&& repeated_text(ids_of_case(baseline@, case_id@)) is None
                &&& repeated_text(ids_of_case(candidate@, case_id@)) is None
                &&& ids_of_case(baseline@, case_id@).len() == profile.policy.batches
                &&& ids_of_case(candidate@, case_id@).len() == profile.policy.batches
                &&& texts(ids@) == canonical(ids_of_case(baseline@, case_id@))
                &&& texts(ids@) == canonical(ids_of_case(candidate@, case_id@))
                &&& forall|x: Seq<char>|
                    #[trigger] texts(ids@).contains(x) ==> ids_of_case(baseline@, case_id@).contains(x) && ids_of_case(
                        candidate@,
                        case_id@,
                    ).contains(x)
            },
            Err(e) => check_batches(*profile, case_id@, baseline@, candidate@) == Err::<(), PerfFailure>(e@),
        },
{
    let b = batch_ids(baseline, case_id);
    match find_repeated_text(b.as_slice()) {
        Some(k) => {
            return Err(
                PerfRegimeError::DuplicateMeasurementBatch { case_id: case_id.to_owned(), batch_id: b[k].clone() },
            );
        },
        None => {},
    }
    let c = batch_ids(candidate, case_id);
    match find_repeated_text(c.as_slice()) {
        Some(k) => {
            return Err(
                PerfRegimeError::DuplicateMeasurementBatch { case_id: case_id.to_owned(), batch_id: c[k].clone() },
            );
        },
        None => {},
    }
    assert(texts(b@).len() == b@.len() && texts(c@).len() == c@.len());
    if b.len() != profile.policy.batches || c.len() != profile.policy.batches {
        return Err(
            PerfRegimeError::BatchCountMismatch {
                case_id: case_id.to_owned(),
                expected: profile.policy.batches,
                baseline: b.len(),
                candidate: c.len(),
            },
        );
    }
    let b = canonical_texts(b);
    let c = canonical_texts(c);
    if !same_texts(b.as_slice(), c.as_slice()) {
        return Err(PerfRegimeError::UnpairedBatches(case_id.to_owned()));
    }
    Ok(b)
}

fn evaluate_case(
    profile: &FrozenPerfBenchmark,
    case: &BenchmarkCase,
    baseline: &[PerfMeasurementBatch],
    candidate: &[PerfMeasurementBatch],
    summary: CaseSummary,
    environment: &str,
) -> (r: Result<PerfCaseResult, PerfRegimeError>)
    requires
        environment@ == profile.environment.digest(),
    ensures
        match r {
            Ok(v) => case_verdict(*profile, *case, baseline@, candidate@, summary) == Ok::<CaseVerdict, PerfFailure>(v@),
            Err(e) => case_verdict(*profile, *case, baseline@, candidate@, summary) == Err::<CaseVerdict, PerfFailure>(e@),
        },
{
    let case_id = case.id.as_str();
    let ids = paired_ids(profile, case_id, baseline, candidate)?;
    let ghost all = texts(ids@);
    let ghost check = |id: Seq<char>|
        check_pair(
            *profile,
            case_id@,
            find_batch(baseline@, case_id@, id)->0,
            find_batch(candidate@, case_id@, id)->0,
        );
    let least: i64 = profile.policy.min_improvement_ppm as i64;
    let mut noise: u64 = 0;
    let mut winning: usize = 0;
    let mut i: usize = 0;
    assert(all.skip(0) =~= all);
    assert(all.take(0).len() == 0);
    assert(check_batches(*profile, case_id@, baseline@, candidate@) == check_all(all, check));
    while i < ids.len()
        invariant
            i <= ids@.len(),
            all == texts(ids@),
            case_id@ == case.id@,
            environment@ == profile.environment.digest(),
            least == profile.policy.min_improvement_ppm as i64,
            check == (|id: Seq<char>|
                check_pair(
                    *profile,
                    case_id@,
                    find_batch(baseline@, case_id@, id)->0,
                    find_batch(candidate@, case_id@, id)->0,
                )),
            forall|x: Seq<char>|
                #[trigger] all.contains(x) ==> ids_of_case(baseline@, case_id@).contains(x) && ids_of_case(
                    candidate@,
                    case_id@,
                ).contains(x),
            check_batches(*profile, case_id@, baseline@, candidate@) == check_all(all, check),
            check_all(all, check) == check_all(all.skip(i as int), check),
            noise == max_noise(case_id@, baseline@, candidate@, all.take(i as int)),
            winning == winners(case_id@, candidate@, all.take(i as int), least),
            winning <= i,
        decreases ids@.len() - i,
    {
        proof {
            lemma_check_step(all, i as int, check);
            assert(all[i as int] == ids@[i as int]@);
            assert(all.contains(all[i as int]));
            assert(all.take(i + 1).drop_last() =~= all.take(i as int));
            assert(all.take(i + 1).last() == all[i as int]);
        }
        let b = batch_for(baseline, case_id, ids[i].as_str());
        let c = batch_for(candidate, case_id, ids[i].as_str());
        noise = pair_noise(profile, case_id, b, c, environment, noise)?;
        if c.statistics.improvement_ppm >= least {
            winning += 1;
        }
        i += 1;
    }
    assert(all.take(i as int) =~= all);
    let passed = noise <= profile.policy.max_relative_mad_ppm && summary.improvement_ppm >= least && winning >= profile.policy.min_winning_batches;
    Ok(
        PerfCaseResult {
            case_id: case.id.clone(),
            class: case.class,
            promotion_gate: case.promotion_gate,
            baseline_median: summary.baseline_median,
            candidate_median: summary.candidate_median,
            improvement_ppm: summary.improvement_ppm,
            max_relative_mad_ppm: noise,
            winning_batches: winning,
            required_winning_batches: profile.policy.min_winning_batches,
            passed,
        },
    )
}

fn reject_unknown_case_evidence(cases: &[BenchmarkCase], evidence: &[PerfMeasurementBatch]) -> (r: Result<
    (),
    PerfRegimeError,
>)
    ensures
        outcome(r) == check_evidence(cases@, evidence@),
{
    let ghost all = evidence@;
    let ghost check = |b: PerfMeasurementBatch| check_known(cases@, b);
    let mut i: usize = 0;
    assert(all.skip(0) =~= all);
    while i < evidence.len()
        invariant
            i <= evidence@.len(),
            all == evidence@,
            check == (|b: PerfMeasurementBatch| check_known(cases@, b)),
            check_all(all, check) == check_all(all.skip(i as int), check),
        decreases evidence@.len() - i,
    {
        proof {
            lemma_check_step(all, i as int, check);
        }
        if !case_is_known(cases, evidence[i].case_id.as_str()) {
            return Err(PerfRegimeError::UnknownEvidenceCase(evidence[i].case_id.clone()));
        }
        i += 1;
    }
    Ok(())
}

fn case_is_known(cases: &[BenchmarkCase], id: &str) -> (r: bool)
    ensures
        r == exists|i: int| 0 <= i < cases@.len() && (#[trigger] cases@[i]).id@ == id@,
{
    let mut i: usize = 0;
    while i < cases.len()
        invariant
            i <= cases@.len(),
            forall|j: int| 0 <= j < i ==> (#[trigger] cases@[j]).id@ != id@,
        decreases cases@.len() - i,
    {
        if same_text(cases[i].id.as_str(), id) {
            return true;
        }
        i += 1;
    }
    false
}

fn evaluate_cases(
    profile: &FrozenPerfBenchmark,
    baseline: &[PerfMeasurementBatch],
    candidate: &[PerfMeasurementBatch],
    summaries: &[CaseSummary],
) -> (r: Result<Vec<PerfCaseResult>, PerfRegimeError>)
    requires
        summaries@.len() == profile.cases@.len(),
    ensures
        match r {
            Ok(v) => case_verdicts(*profile, baseline@, candidate@, summaries@) == Ok::<Seq<CaseVerdict>, PerfFailure>(
                v@.map_values(|c: PerfCaseResult| c@),
            ),
            Err(e) => case_verdicts(*profile, baseline@, candidate@, summaries@) == Err::<Seq<CaseVerdict>, PerfFailure>(e@),
        },
{
    let environment = profile.environment_fingerprint();
    let ghost indices = Seq::new(profile.cases@.len(), |i: int| i);
    let ghost f = |i: int| case_verdict(*profile, profile.cases@[i], baseline@, candidate@, summaries@[i]);
    let mut results: Vec<PerfCaseResult> = Vec::new();
    let ghost mut done: Seq<CaseVerdict> = Seq::empty();
    let mut i: usize = 0;
    proof {
        lemma_map_start(indices, f);
        assert(done =~= results@.map_values(|c: PerfCaseResult| c@));
    }
    while i < profile.cases.len()
        invariant
            i <= profile.cases@.len(),
            summaries@.len() == profile.cases@.len(),
            environment@ == profile.environment.digest(),
            indices == Seq::new(profile.cases@.len(), |i: int| i),
            f == (|i: int| case_verdict(*profile, profile.cases@[i], baseline@, candidate@, summaries@[i])),
            done == results@.map_values(|c: PerfCaseResult| c@),
            map_continues(indices, f, done, i as int),
        decreases profile.cases@.len() - i,
    {
        proof {
            lemma_map_step(indices, f, done, i as int);
            assert(indices[i as int] == i as int);
        }
        let v = evaluate_case(profile, &profile.cases[i], baseline, candidate, summaries[i], environment.as_str())?;
        let ghost before = results@;
        results.push(v);
        proof {
            done = done.push(v@);
            assert(done =~= results@.map_values(|c: PerfCaseResult| c@));
        }
        i += 1;
    }
    proof {
        lemma_map_end(indices, f, done);
    }
    Ok(results)
}

fn all_gates_passed(results: &[PerfCaseResult]) -> (r: bool)
    ensures
        r == gates_passed(results@.map_values(|c: PerfCaseResult| c@)),
{
    let ghost all = results@.map_values(|c: PerfCaseResult| c@);
    let mut i: usize = 0;
    while i < results.len()
        invariant
            i <= results@.len(),
            all == results@.map_values(|c: PerfCaseResult| c@),
            forall|j: int| 0 <= j < i && (#[trigger] all[j]).promotion_gate ==> all[j].passed,
        decreases results@.len() - i,
    {
        assert(all[i as int] == results@[i as int]@);
        if results[i].promotion_gate && !results[i].passed {
            return false;
        }
        i += 1;
    }
    true
}

impl PerfComparisonReport {
    /// Compares paired evidence. There is a summary for each case, in the order of the
    /// profile's cases.
    pub fn evaluate(
        profile: &FrozenPerfBenchmark,
        admissibility: &AdmissibilityBreakdown,
        baseline: &[PerfMeasurementBatch],
        candidate: &[PerfMeasurementBatch],
        summaries: &[CaseSummary],
    ) -> (r: Result<Self, PerfRegimeError>)
        requires
            summaries@.len() == profile@.cases.len(),
        ensures
            match r {
                Ok(report) => comparison(*profile, *admissibility, baseline@, candidate@, summaries@) == Ok::<
                    Comparison,
                    PerfFailure,
                >(report@),
                Err(e) => comparison(*profile, *admissibility, baseline@, candidate@, summaries@) == Err::<
                    Comparison,
                    PerfFailure,
                >(e@),
            },
    {
        profile.verify()?;
        if !admissibility.is_admissible() {
            let report = PerfComparisonReport { hard_gates_passed: false, promotable: false, cases: Vec::new() };
            assert(report@.cases =~= Seq::empty());
            return Ok(report);
        }
        let cases = evaluate_cases(profile, baseline, candidate, summaries)?;
        reject_unknown_case_evidence(profile.cases.as_slice(), baseline)?;
        reject_unknown_case_evidence(profile.cases.as_slice(), candidate)?;
        let promotable = all_gates_passed(cases.as_slice());
        Ok(PerfComparisonReport { hard_gates_passed: true, promotable, cases })
    }
}

// ---------------------------------------------------------------------------
// Laws
// ---------------------------------------------------------------------------

proof fn lemma_verdicts(
    profile: FrozenPerfBenchmark,
    baseline: Seq<PerfMeasurementBatch>,
    candidate: Seq<PerfMeasurementBatch>,
    summaries: Seq<CaseSummary>,
    indices: Seq<int>,
    verdicts: Seq<CaseVerdict>,
)
    requires
        map_all(
            indices,
            |i: int| case_verdict(profile, profile.cases@[i], baseline, candidate, summaries[i]),
        ) == Ok::<Seq<CaseVerdict>, PerfFailure>(verdicts),
    ensures
        verdicts.len() == indices.len(),
        forall|k: int|
            0 <= k < verdicts.len() ==> case_verdict(
                profile,
                profile.cases@[indices[k]],
                baseline,
                candidate,
                summaries[indices[k]],
            ) == Ok::<CaseVerdict, PerfFailure>(#[trigger] verdicts[k]),
    decreases indices.len(),
{
    let f = |i: int| case_verdict(profile, profile.cases@[i], baseline, candidate, summaries[i]);
    if indices.len() > 0 {
        let rest = indices.drop_first();
        let tail = map_all(rest, f)->Ok_0;
        lemma_verdicts(profile, baseline, candidate, summaries, rest, tail);
        let head = f(indices[0])->Ok_0;
        assert(verdicts =~= seq![head] + tail);
        assert forall|k: int| 0 <= k < verdicts.len() implies case_verdict(
            profile,
            profile.cases@[indices[k]],
            baseline,
            candidate,
            summaries[indices[k]],
        ) == Ok::<CaseVerdict, PerfFailure>(#[trigger] verdicts[k]) by {
            if k > 0 {
                assert(verdicts[k] == tail[k - 1]);
                assert(rest[k - 1] == indices[k]);
            }
        }
    }
}

/// A candidate is promoted only on an end-to-end gain: it passed the hard gates, and
/// every case that decides promotion is an end-to-end case in which the noise stayed
/// within the limit and the gain reached the threshold, over all and in enough batches.
/// At least one such case exists.
pub proof fn law_promotion_needs_end_to_end_gain(
    profile: FrozenPerfBenchmark,
    admissibility: AdmissibilityBreakdown,
    baseline: Seq<PerfMeasurementBatch>,
    candidate: Seq<PerfMeasurementBatch>,
    summaries: Seq<CaseSummary>,
    report: Comparison,
)
    requires
        comparison(profile, admissibility, baseline, candidate, summaries) == Ok::<Comparison, PerfFailure>(report),
        report.promotable,
        has_gate(profile@.cases),
        forall|i: int|
            0 <= i < profile@.cases.len() && (#[trigger] profile@.cases[i]).promotion_gate ==> profile@.cases[i].class
                == BenchmarkClass::EndToEnd,
    ensures
        admissibility.all_pass(),
        report.hard_gates_passed,
        report.cases.len() == profile@.cases.len(),
        exists|i: int| 0 <= i < report.cases.len() && (#[trigger] report.cases[i]).promotion_gate,
        forall|i: int|
            0 <= i < report.cases.len() && (#[trigger] report.cases[i]).promotion_gate ==> {
                &&& report.cases[i].class == BenchmarkClass::EndToEnd
                &&& report.cases[i].max_relative_mad_ppm <= profile@.policy.max_relative_mad_ppm
                &&& report.cases[i].improvement_ppm >= profile@.policy.min_improvement_ppm as i64
                &&& report.cases[i].winning_batches >= profile@.policy.min_winning_batches
            },
{
    let indices = Seq::new(profile.cases@.len(), |i: int| i);
    lemma_verdicts(profile, baseline, candidate, summaries, indices, report.cases);
    let g = choose|i: int| 0 <= i < profile.cases@.len() && (#[trigger] profile.cases@[i]).promotion_gate;
    assert(indices[g] == g);
    assert(report.cases[g].promotion_gate);
    assert forall|i: int| 0 <= i < report.cases.len() && (#[trigger] report.cases[i]).promotion_gate implies {
        &&& report.cases[i].class == BenchmarkClass::EndToEnd
        &&& report.cases[i].max_relative_mad_ppm <= profile.policy.max_relative_mad_ppm
        &&& report.cases[i].improvement_ppm >= profile.policy.min_improvement_ppm as i64
        &&& report.cases[i].winning_batches >= profile.policy.min_winning_batches
    } by {
        assert(indices[i] == i);
        assert(profile.cases@[i].promotion_gate);
    }
}

/// A candidate that fails a hard gate is never ranked, whatever was measured.
pub proof fn law_inadmissible_candidates_are_not_ranked(
    profile: FrozenPerfBenchmark,
    admissibility: AdmissibilityBreakdown,
    baseline: Seq<PerfMeasurementBatch>,
    candidate: Seq<PerfMeasurementBatch>,
    summaries: Seq<CaseSummary>,
)
    requires
        profile.is_intact(),
        !admissibility.all_pass(),
    ensures
        comparison(profile, admissibility, baseline, candidate, summaries) == Ok::<Comparison, PerfFailure>(
            Comparison { hard_gates_passed: false, promotable: false, cases: Seq::empty() },
        ),
{
}

/// A candidate that passes the guard changes no frozen benchmark source: applied to any
/// tree, it leaves each of them exactly as it was.
pub proof fn law_accepted_candidate_keeps_frozen_benchmarks(
    profile: FrozenPerfBenchmark,
    dag: AutopilotTaskDag,
    role: Seq<char>,
    patch_set: PatchSet,
    before: Map<Seq<char>, Seq<u8>>,
    after: Map<Seq<char>, Seq<u8>>,
    i: int,
)
    requires
        profile.check_candidate(dag, role, patch_set) is Ok,
        patch_set.effect(before) == Ok::<Map<Seq<char>, Seq<u8>>, PatchFailure>(after),
        0 <= i < profile@.artifacts.len(),
        profile@.artifacts[i].repository_role@ == role,
    ensures
        after.dom().contains(profile@.artifacts[i].path@) == before.dom().contains(profile@.artifacts[i].path@),
        before.dom().contains(profile@.artifacts[i].path@) ==> after[profile@.artifacts[i].path@]
            == before[profile@.artifacts[i].path@],
{
    let path = profile.artifacts@[i].path@;
    let task = find_task(dag.tasks@, profile.task_id@)->0;
    let operations = patch_set.operations@;
    let check = |o: FileOperation| check_operation(task, profile.artifacts@, role, o);
    lemma_check_all(operations, check);
    if targets(operations).contains(path) {
        let k = choose|k: int| 0 <= k < targets(operations).len() && targets(operations)[k] == path;
        assert(operations[k].target() == path);
        assert(check(operations[k]) is Ok);
        assert(is_frozen(profile.artifacts@, role, path));
    }
    law_other_files_stay(operations, before, after, path);
}

/// A task whose benchmark could be frozen has no edit allowance that covers one of the
/// benchmark sources.
pub proof fn law_frozen_benchmarks_are_outside_the_task(
    spec: FrozenAutopilotSpec,
    task: AutopilotTask,
    artifacts: Seq<Key>,
    i: int,
)
    requires
        check_artifacts(spec, task, artifacts) is Ok,
        0 <= i < artifacts.len(),
    ensures
        !allows_path(task, artifacts[i][0], artifacts[i][1]),
{
    let k = artifacts[i];
    let placed = |k: Key| check_artifact_placed(spec, task, k);
    lemma_check_all(artifacts, placed);
    assert(placed(k) is Ok);
    let of_allowance = |a: TaskEditAllowance| check_allowance_uncovered(k, a);
    lemma_check_all(task.edit_allowances@, of_allowance);
    if allows_path(task, k[0], k[1]) {
        let j = choose|j: int|
            0 <= j < task.edit_allowances@.len() && (#[trigger] task.edit_allowances@[j]).role() == k[0] && is_within_any(
                k[1],
                task.edit_allowances@[j].prefixes(),
            );
        let allowance = task.edit_allowances@[j];
        assert(of_allowance(allowance) is Ok);
        let of_prefix = |p: Seq<char>| check_prefix_uncovered(k, p);
        lemma_check_all(allowance.prefixes(), of_prefix);
        let m = choose|m: int| 0 <= m < allowance.prefixes().len() && is_within(k[1], #[trigger] allowance.prefixes()[m]);
        assert(of_prefix(allowance.prefixes()[m]) is Ok);
    }
}

/// The order in which cases and artifacts are given does not matter: the profiles have
/// the same identity.
pub proof fn law_profile_ignores_input_order(
    first: FrozenPerfBenchmark,
    second: FrozenPerfBenchmark,
    cases: Seq<BenchmarkCase>,
    other_cases: Seq<BenchmarkCase>,
    artifacts: Seq<Key>,
    other_artifacts: Seq<Key>,
)
    requires
        cases.to_multiset() == other_cases.to_multiset(),
        is_sorted_of(first@.cases, cases),
        is_sorted_of(second@.cases, other_cases),
        adjacent_duplicate(keys(first@.cases)) is None,
        adjacent_duplicate(keys(second@.cases)) is None,
        artifacts.to_multiset() == other_artifacts.to_multiset(),
        keys(first@.artifacts) == sorted(artifacts),
        keys(second@.artifacts) == sorted(other_artifacts),
        first@.schema_version == second@.schema_version,
        first@.spec_sha256 == second@.spec_sha256,
        first@.dag_sha256 == second@.dag_sha256,
        first@.task_id == second@.task_id,
        first@.profile_id == second@.profile_id,
        first@.policy == second@.policy,
        first@.approval.json() == second@.approval.json(),
        first@.environment.json() == second@.environment.json(),
        first.is_intact(),
        second.is_intact(),
    ensures
        first.unsigned() == second.unsigned(),
        first@.profile_sha256 == second@.profile_sha256,
{
    lemma_same_arrangement(first.cases@, second.cases@);
    lemma_sorted_ignores_input_order(artifacts, other_artifacts);
    let a = first.artifacts@;
    let b = second.artifacts@;
    assert(a.len() == keys(a).len() && b.len() == keys(b).len());
    assert(a.map_values(|t: FrozenBenchmarkArtifact| t.json()) =~= b.map_values(|t: FrozenBenchmarkArtifact| t.json())) by {
        assert forall|i: int| 0 <= i < a.len() implies #[trigger] a[i].json() == b[i].json() by {
            assert(keys(a)[i] == a[i].key());
            assert(keys(b)[i] == b[i].key());
        }
    }
    assert(array_json(a) == array_json(b));
}

/// The batch was measured for the case under the identifier.
pub open spec fn is_batch(batch: PerfMeasurementBatch, case_id: Seq<char>, batch_id: Seq<char>) -> bool {
    batch.case_id@ == case_id && batch.batch_id@ == batch_id
}

/// The identifiers of the batches of a case that gain at least so much.
pub open spec fn winning_ids(evidence: Seq<PerfMeasurementBatch>, case_id: Seq<char>, least: i64) -> Set<Seq<char>> {
    Set::new(
        |id: Seq<char>|
            exists|k: int|
                0 <= k < evidence.len() && is_batch(#[trigger] evidence[k], case_id, id)
                    && evidence[k].statistics.improvement_ppm >= least,
    )
}

/// No two batches of the case share their identifier.
pub open spec fn are_told_apart(evidence: Seq<PerfMeasurementBatch>, case_id: Seq<char>) -> bool {
    forall|i: int, j: int|
        0 <= i < j < evidence.len() && (#[trigger] evidence[i]).case_id@ == case_id && (#[trigger] evidence[j]).case_id@
            == case_id ==> evidence[i].batch_id@ != evidence[j].batch_id@
}

/// The batches of the case, in the order of the evidence.
pub open spec fn batches_of(evidence: Seq<PerfMeasurementBatch>, case_id: Seq<char>) -> Seq<PerfMeasurementBatch> {
    evidence.filter(|b: PerfMeasurementBatch| b.case_id@ == case_id)
}

proof fn lemma_ids_of_case(evidence: Seq<PerfMeasurementBatch>, case_id: Seq<char>)
    ensures
        ids_of_case(evidence, case_id).len() == batches_of(evidence, case_id).len(),
        ids_of_case(evidence, case_id) == batches_of(evidence, case_id).map_values(|b: PerfMeasurementBatch| b.batch_id@),
        forall|id: Seq<char>|
            #[trigger] ids_of_case(evidence, case_id).contains(id) <==> exists|k: int|
                0 <= k < evidence.len() && is_batch(#[trigger] evidence[k], case_id, id),
        ids_of_case(evidence, case_id).no_duplicates() <==> are_told_apart(evidence, case_id),
    decreases evidence.len(),
{
    reveal(Seq::filter);
    let ids = ids_of_case(evidence, case_id);
    if evidence.len() > 0 {
        let front = evidence.drop_last();
        let n = front.len() as int;
        lemma_ids_of_case(front, case_id);
        let before = ids_of_case(front, case_id);
        assert(forall|k: int| 0 <= k < n ==> #[trigger] front[k] == evidence[k]);
        assert(evidence[n] == evidence.last());
        assert(ids =~= batches_of(evidence, case_id).map_values(|b: PerfMeasurementBatch| b.batch_id@));
        assert forall|id: Seq<char>| #[trigger] ids.contains(id) <==> exists|k: int|
            0 <= k < evidence.len() && is_batch(#[trigger] evidence[k], case_id, id) by {
            if ids.contains(id) {
                let i = choose|i: int| 0 <= i < ids.len() && ids[i] == id;
                if i < before.len() {
                    assert(before[i] == id);
                    assert(before.contains(id));
                    let k = choose|k: int| 0 <= k < front.len() && is_batch(#[trigger] front[k], case_id, id);
                    assert(is_batch(evidence[k], case_id, id));
                } else {
                    assert(is_batch(evidence[n], case_id, id));
                }
            }
            if exists|k: int| 0 <= k < evidence.len() && is_batch(#[trigger] evidence[k], case_id, id) {
                let k = choose|k: int| 0 <= k < evidence.len() && is_batch(#[trigger] evidence[k], case_id, id);
                if k < n {
                    assert(is_batch(front[k], case_id, id));
                    assert(before.contains(id));
                    let i = choose|i: int| 0 <= i < before.len() && before[i] == id;
                    assert(ids[i] == id);
                } else {
                    assert(ids[ids.len() - 1] == id);
                }
            }
        }
        if are_told_apart(evidence, case_id) {
            assert(are_told_apart(front, case_id));
            if evidence.last().case_id@ == case_id {
                let last = evidence.last().batch_id@;
                assert(!before.contains(last)) by {
                    if before.contains(last) {
                        let k = choose|k: int| 0 <= k < front.len() && is_batch(#[trigger] front[k], case_id, last);
                        assert(evidence[k].batch_id@ != evidence[n].batch_id@);
                    }
                }
                assert forall|i: int, j: int| 0 <= i < ids.len() && 0 <= j < ids.len() && i != j implies ids[i] != ids[j] by {
                    if i < before.len() && j < before.len() {
                        assert(before[i] != before[j]);
                    }
                }
            }
        }
        if ids.no_duplicates() {
            assert(before.no_duplicates()) by {
                assert forall|i: int, j: int| 0 <= i < before.len() && 0 <= j < before.len() && i != j implies before[i]
                    != before[j] by {
                    assert(ids[i] == before[i] && ids[j] == before[j]);
                }
            }
            assert forall|i: int, j: int|
                0 <= i < j < evidence.len() && (#[trigger] evidence[i]).case_id@ == case_id && (
                #[trigger] evidence[j]).case_id@ == case_id implies evidence[i].batch_id@ != evidence[j].batch_id@ by {
                if j < n {
                    assert(front[i].batch_id@ != front[j].batch_id@);
                } else if evidence[i].batch_id@ == evidence[j].batch_id@ {
                    assert(is_batch(front[i], case_id, evidence[i].batch_id@));
                    assert(before.contains(evidence[i].batch_id@));
                    let m = choose|m: int| 0 <= m < before.len() && before[m] == evidence[i].batch_id@;
                    assert(ids[m] == ids[ids.len() - 1]);
                }
            }
        }
    } else {
        assert(ids =~= batches_of(evidence, case_id).map_values(|b: PerfMeasurementBatch| b.batch_id@));
    }
}

proof fn lemma_find_batch(evidence: Seq<PerfMeasurementBatch>, case_id: Seq<char>, id: Seq<char>)
    ensures
        match find_batch(evidence, case_id, id) {
            Some(b) => exists|k: int|
                0 <= k < evidence.len() && #[trigger] evidence[k] == b && is_batch(b, case_id, id),
            None => forall|k: int| 0 <= k < evidence.len() ==> !is_batch(#[trigger] evidence[k], case_id, id),
        },
    decreases evidence.len(),
{
    if evidence.len() > 0 {
        let rest = evidence.drop_first();
        lemma_find_batch(rest, case_id, id);
        if !is_batch(evidence[0], case_id, id) {
            match find_batch(rest, case_id, id) {
                Some(b) => {
                    let k = choose|k: int| 0 <= k < rest.len() && #[trigger] rest[k] == b && is_batch(b, case_id, id);
                    assert(evidence[k + 1] == b);
                },
                None => {
                    assert forall|k: int| 0 <= k < evidence.len() implies !is_batch(#[trigger] evidence[k], case_id, id) by {
                        if k > 0 {
                            assert(!is_batch(rest[k - 1], case_id, id));
                        }
                    }
                },
            }
        }
    }
}

proof fn lemma_only_batch(evidence: Seq<PerfMeasurementBatch>, case_id: Seq<char>, k: int)
    requires
        are_told_apart(evidence, case_id),
        0 <= k < evidence.len(),
        evidence[k].case_id@ == case_id,
    ensures
        find_batch(evidence, case_id, evidence[k].batch_id@) == Some(evidence[k]),
{
    let id = evidence[k].batch_id@;
    lemma_find_batch(evidence, case_id, id);
    assert(is_batch(evidence[k], case_id, id));
    let b = find_batch(evidence, case_id, id)->0;
    let m = choose|m: int| 0 <= m < evidence.len() && #[trigger] evidence[m] == b && is_batch(b, case_id, id);
    if m < k {
        assert(evidence[m].batch_id@ != evidence[k].batch_id@);
    } else if k < m {
        assert(evidence[k].batch_id@ != evidence[m].batch_id@);
    }
}

proof fn lemma_winners(case_id: Seq<char>, candidate: Seq<PerfMeasurementBatch>, ids: Seq<Seq<char>>, least: i64)
    ensures
        winners(case_id, candidate, ids, least) == ids.filter(
            |id: Seq<char>| find_batch(candidate, case_id, id)->0.statistics.improvement_ppm >= least,
        ).len(),
    decreases ids.len(),
{
    reveal(Seq::filter);
    if ids.len() > 0 {
        lemma_winners(case_id, candidate, ids.drop_last(), least);
    }
}

proof fn lemma_filter_once<A>(s: Seq<A>, p: spec_fn(A) -> bool)
    requires
        s.no_duplicates(),
    ensures
        s.filter(p).no_duplicates(),
        s.filter(p).to_set().len() == s.filter(p).len(),
        forall|x: A| #[trigger] s.filter(p).contains(x) <==> s.contains(x) && p(x),
    decreases s.len(),
{
    reveal(Seq::filter);
    let t = s.filter(p);
    if s.len() > 0 {
        let front = s.drop_last();
        lemma_filter_once(front, p);
        let u = front.filter(p);
        assert(!front.contains(s.last()));
        assert forall|x: A| s.contains(x) <==> front.contains(x) || x == s.last() by {
            if front.contains(x) {
                let k = choose|k: int| 0 <= k < front.len() && front[k] == x;
                assert(s[k] == x);
            }
            if s.contains(x) && x != s.last() {
                let k = choose|k: int| 0 <= k < s.len() && s[k] == x;
                assert(front[k] == x);
            }
            assert(s[s.len() - 1] == s.last());
        }
        if p(s.last()) {
            assert(t == u.push(s.last()));
            assert forall|x: A| #[trigger] t.contains(x) <==> u.contains(x) || x == s.last() by {
                if u.contains(x) {
                    let k = choose|k: int| 0 <= k < u.len() && u[k] == x;
                    assert(t[k] == x);
                }
                assert(t[t.len() - 1] == s.last());
            }
            assert(!u.contains(s.last()));
            assert forall|i: int, j: int| 0 <= i < t.len() && 0 <= j < t.len() && i != j implies t[i] != t[j] by {
                if i < u.len() && j < u.len() {
                    assert(u[i] != u[j]);
                } else if i < u.len() {
                    assert(u.contains(u[i]));
                } else {
                    assert(u.contains(u[j]));
                }
            }
        }
    }
    t.unique_seq_to_set();
}

/// What holds of the batches of a case that can be compared: on both sides as many as
/// the policy asks for, with different identifiers, the same on either side; all of them
/// measured in the frozen environment, with as many samples as the policy asks for, and
/// with a noise that is known.
pub open spec fn are_comparable(
    profile: FrozenPerfBenchmark,
    case_id: Seq<char>,
    baseline: Seq<PerfMeasurementBatch>,
    candidate: Seq<PerfMeasurementBatch>,
) -> bool {
    &&& batches_of(baseline, case_id).len() == profile@.policy.batches
    &&& batches_of(candidate, case_id).len() == profile@.policy.batches
    &&& are_told_apart(baseline, case_id)
    &&& are_told_apart(candidate, case_id)
    &&& forall|k: int|
        0 <= k < baseline.len() && (#[trigger] baseline[k]).case_id@ == case_id ==> is_sound(profile, baseline[k]) && exists|
            m: int,
        |
            0 <= m < candidate.len() && is_batch(#[trigger] candidate[m], case_id, baseline[k].batch_id@)
    &&& forall|m: int|
        0 <= m < candidate.len() && (#[trigger] candidate[m]).case_id@ == case_id ==> is_sound(profile, candidate[m])
            && exists|k: int| 0 <= k < baseline.len() && is_batch(#[trigger] baseline[k], case_id, candidate[m].batch_id@)
}

/// The batch was measured in the frozen environment, with as many samples as the policy
/// asks for, and its noise is known.
pub open spec fn is_sound(profile: FrozenPerfBenchmark, batch: PerfMeasurementBatch) -> bool {
    &&& batch.environment_fingerprint@ == profile@.environment.digest()
    &&& batch.samples@.len() == profile@.policy.samples_per_batch
    &&& batch.statistics.relative_mad_ppm is Some
}

/// Batches of a case are compared exactly where they are comparable.
pub proof fn law_only_comparable_batches_are_compared(
    profile: FrozenPerfBenchmark,
    case_id: Seq<char>,
    baseline: Seq<PerfMeasurementBatch>,
    candidate: Seq<PerfMeasurementBatch>,
)
    ensures
        check_batches(profile, case_id, baseline, candidate) is Ok <==> are_comparable(profile, case_id, baseline, candidate),
{
    let b = ids_of_case(baseline, case_id);
    let c = ids_of_case(candidate, case_id);
    lemma_ids_of_case(baseline, case_id);
    lemma_ids_of_case(candidate, case_id);
    law_repeated_text(b);
    law_repeated_text(c);
    lemma_canonical_exists(b);
    lemma_canonical_exists(c);
    let ids = canonical(b);
    let check = |id: Seq<char>|
        check_pair(profile, case_id, find_batch(baseline, case_id, id)->0, find_batch(candidate, case_id, id)->0);
    lemma_check_all(ids, check);
    if check_batches(profile, case_id, baseline, candidate) is Ok {
        assert(forall|id: Seq<char>| #[trigger] ids.contains(id) <==> c.contains(id));
        assert forall|k: int| 0 <= k < baseline.len() && (#[trigger] baseline[k]).case_id@ == case_id implies is_sound(
            profile,
            baseline[k],
        ) && exists|m: int| 0 <= m < candidate.len() && is_batch(#[trigger] candidate[m], case_id, baseline[k].batch_id@) by {
            let id = baseline[k].batch_id@;
            assert(is_batch(baseline[k], case_id, id));
            assert(b.contains(id));
            assert(ids.contains(id));
            assert(c.contains(id));
            let i = choose|i: int| 0 <= i < ids.len() && ids[i] == id;
            assert(check(ids[i]) is Ok);
            lemma_only_batch(baseline, case_id, k);
        }
        assert forall|m: int| 0 <= m < candidate.len() && (#[trigger] candidate[m]).case_id@ == case_id implies is_sound(
            profile,
            candidate[m],
        ) && exists|k: int| 0 <= k < baseline.len() && is_batch(#[trigger] baseline[k], case_id, candidate[m].batch_id@) by {
            let id = candidate[m].batch_id@;
            assert(is_batch(candidate[m], case_id, id));
            assert(c.contains(id));
            assert(ids.contains(id));
            assert(b.contains(id));
            let i = choose|i: int| 0 <= i < ids.len() && ids[i] == id;
            assert(check(ids[i]) is Ok);
            lemma_only_batch(candidate, case_id, m);
        }
    }
    if are_comparable(profile, case_id, baseline, candidate) {
        assert forall|id: Seq<char>| #[trigger] b.contains(id) <==> c.contains(id) by {
            if b.contains(id) {
                let k = choose|k: int| 0 <= k < baseline.len() && is_batch(#[trigger] baseline[k], case_id, id);
                assert(exists|m: int| 0 <= m < candidate.len() && is_batch(#[trigger] candidate[m], case_id, id));
            }
            if c.contains(id) {
                let m = choose|m: int| 0 <= m < candidate.len() && is_batch(#[trigger] candidate[m], case_id, id);
                assert(exists|k: int| 0 <= k < baseline.len() && is_batch(#[trigger] baseline[k], case_id, id));
            }
        }
        lemma_canonical_ignores_input_order(b, c);
        assert forall|i: int| 0 <= i < ids.len() implies (#[trigger] check(ids[i])) is Ok by {
            let id = ids[i];
            assert(ids.contains(id));
            assert(b.contains(id));
            assert(c.contains(id));
            let k = choose|k: int| 0 <= k < baseline.len() && is_batch(#[trigger] baseline[k], case_id, id);
            let m = choose|m: int| 0 <= m < candidate.len() && is_batch(#[trigger] candidate[m], case_id, id);
            lemma_only_batch(baseline, case_id, k);
            lemma_only_batch(candidate, case_id, m);
            assert(is_sound(profile, baseline[k]));
            assert(is_sound(profile, candidate[m]));
        }
    }
}

/// The batches that win for a case are exactly those of the candidate whose gain reaches
/// the least gain of the policy: as many are counted as there are identifiers of such
/// batches, and a case passes only with as many as the policy asks for.
pub proof fn law_winning_batches_reach_the_least_gain(
    profile: FrozenPerfBenchmark,
    case: BenchmarkCase,
    baseline: Seq<PerfMeasurementBatch>,
    candidate: Seq<PerfMeasurementBatch>,
    summary: CaseSummary,
    verdict: CaseVerdict,
)
    requires
        case_verdict(profile, case, baseline, candidate, summary) == Ok::<CaseVerdict, PerfFailure>(verdict),
    ensures
        ({
            let ids = winning_ids(candidate, case.id@, profile@.policy.min_improvement_ppm as i64);
            &&& ids.finite()
            &&& verdict.winning_batches == ids.len()
            &&& verdict.winning_batches <= profile@.policy.batches
            &&& verdict.passed ==> ids.len() >= profile@.policy.min_winning_batches
            &&& ids.len() < profile@.policy.min_winning_batches ==> !verdict.passed
        }),
{
    let case_id = case.id@;
    let least = profile@.policy.min_improvement_ppm as i64;
    let b = ids_of_case(baseline, case_id);
    let ids = canonical(b);
    law_only_comparable_batches_are_compared(profile, case_id, baseline, candidate);
    lemma_ids_of_case(baseline, case_id);
    lemma_canonical_exists(b);
    lemma_winners(case_id, candidate, ids, least);
    let wins = |id: Seq<char>| find_batch(candidate, case_id, id)->0.statistics.improvement_ppm >= least;
    assert(ids.no_duplicates()) by {
        assert forall|i: int, j: int| 0 <= i < ids.len() && 0 <= j < ids.len() && i != j implies ids[i] != ids[j] by {
            lemma_text_order_equal(ids[i], ids[j]);
            lemma_text_order_equal(ids[j], ids[i]);
        }
    }
    lemma_filter_once(ids, wins);
    let won = ids.filter(wins);
    let all = winning_ids(candidate, case_id, least);
    assert forall|id: Seq<char>| won.contains(id) <==> all.contains(id) by {
        if won.contains(id) {
            assert(b.contains(id));
            let k = choose|k: int| 0 <= k < baseline.len() && is_batch(#[trigger] baseline[k], case_id, id);
            let m = choose|m: int| 0 <= m < candidate.len() && is_batch(#[trigger] candidate[m], case_id, id);
            lemma_only_batch(candidate, case_id, m);
            assert(candidate[m].statistics.improvement_ppm >= least);
        }
        if all.contains(id) {
            let m = choose|m: int|
                0 <= m < candidate.len() && is_batch(#[trigger] candidate[m], case_id, id)
                    && candidate[m].statistics.improvement_ppm >= least;
            lemma_only_batch(candidate, case_id, m);
            let k = choose|k: int| 0 <= k < baseline.len() && is_batch(#[trigger] baseline[k], case_id, id);
            assert(b.contains(id));
            assert(ids.contains(id));
        }
    }
    assert(won.to_set() =~= all);
    assert(won.len() <= ids.len()) by {
        broadcast use vstd::seq_lib::group_filter_ensures;

    }
    assert(ids.len() <= b.len()) by {
        ids.unique_seq_to_set();
        b.unique_seq_to_set();
        assert(ids.to_set() =~= b.to_set());
    }
}

proof fn lemma_max_noise(
    case_id: Seq<char>,
    baseline: Seq<PerfMeasurementBatch>,
    candidate: Seq<PerfMeasurementBatch>,
    ids: Seq<Seq<char>>,
)
    ensures
        forall|i: int|
            #![trigger ids[i]]
            0 <= i < ids.len() ==> find_batch(baseline, case_id, ids[i])->0.statistics.relative_mad_ppm->0 <= max_noise(
                case_id,
                baseline,
                candidate,
                ids,
            ) && find_batch(candidate, case_id, ids[i])->0.statistics.relative_mad_ppm->0 <= max_noise(
                case_id,
                baseline,
                candidate,
                ids,
            ),
        max_noise(case_id, baseline, candidate, ids) > 0 ==> exists|i: int|
            #![trigger ids[i]]
            0 <= i < ids.len() && (find_batch(baseline, case_id, ids[i])->0.statistics.relative_mad_ppm->0 == max_noise(
                case_id,
                baseline,
                candidate,
                ids,
            ) || find_batch(candidate, case_id, ids[i])->0.statistics.relative_mad_ppm->0 == max_noise(
                case_id,
                baseline,
                candidate,
                ids,
            )),
    decreases ids.len(),
{
    if ids.len() > 0 {
        let front = ids.drop_last();
        lemma_max_noise(case_id, baseline, candidate, front);
        assert(forall|i: int| 0 <= i < front.len() ==> #[trigger] front[i] == ids[i]);
        let noise = max_noise(case_id, baseline, candidate, ids);
        let before = max_noise(case_id, baseline, candidate, front);
        assert forall|i: int| #![trigger ids[i]] 0 <= i < ids.len() implies find_batch(
            baseline,
            case_id,
            ids[i],
        )->0.statistics.relative_mad_ppm->0 <= noise && find_batch(
            candidate,
            case_id,
            ids[i],
        )->0.statistics.relative_mad_ppm->0 <= noise by {
            if i < front.len() {
                assert(front[i] == ids[i]);
            } else {
                assert(ids[i] == ids.last());
            }
        }
        if noise > 0 {
            if noise == before {
                let i = choose|i: int|
                    #![trigger front[i]]
                    0 <= i < front.len() && (find_batch(
                        baseline,
                        case_id,
                        front[i],
                    )->0.statistics.relative_mad_ppm->0 == before || find_batch(
                        candidate,
                        case_id,
                        front[i],
                    )->0.statistics.relative_mad_ppm->0 == before);
                assert(ids[i] == front[i]);
            } else {
                assert(ids[ids.len() - 1] == ids.last());
            }
        }
    }
}

/// The noise of a case is the largest of its batches, of the baseline and of the candidate:
/// none is above it, and one has it.
pub proof fn law_noise_is_the_largest(
    profile: FrozenPerfBenchmark,
    case: BenchmarkCase,
    baseline: Seq<PerfMeasurementBatch>,
    candidate: Seq<PerfMeasurementBatch>,
    summary: CaseSummary,
    verdict: CaseVerdict,
)
    requires
        case_verdict(profile, case, baseline, candidate, summary) == Ok::<CaseVerdict, PerfFailure>(verdict),
    ensures
        forall|k: int|
            0 <= k < baseline.len() && (#[trigger] baseline[k]).case_id@ == case.id@
                ==> baseline[k].statistics.relative_mad_ppm->0 <= verdict.max_relative_mad_ppm,
        forall|k: int|
            0 <= k < candidate.len() && (#[trigger] candidate[k]).case_id@ == case.id@
                ==> candidate[k].statistics.relative_mad_ppm->0 <= verdict.max_relative_mad_ppm,
        verdict.max_relative_mad_ppm > 0 ==> {
            ||| exists|k: int|
                0 <= k < baseline.len() && (#[trigger] baseline[k]).case_id@ == case.id@
                    && baseline[k].statistics.relative_mad_ppm == Some(verdict.max_relative_mad_ppm)
            ||| exists|k: int|
                0 <= k < candidate.len() && (#[trigger] candidate[k]).case_id@ == case.id@
                    && candidate[k].statistics.relative_mad_ppm == Some(verdict.max_relative_mad_ppm)
        },
{
    let case_id = case.id@;
    let b = ids_of_case(baseline, case_id);
    let ids = canonical(b);
    law_only_comparable_batches_are_compared(profile, case_id, baseline, candidate);
    lemma_ids_of_case(baseline, case_id);
    lemma_canonical_exists(b);
    lemma_max_noise(case_id, baseline, candidate, ids);
    let noise = verdict.max_relative_mad_ppm;
    assert forall|k: int| 0 <= k < baseline.len() && (#[trigger] baseline[k]).case_id@ == case_id implies
        baseline[k].statistics.relative_mad_ppm->0 <= noise by {
        let id = baseline[k].batch_id@;
        assert(is_batch(baseline[k], case_id, id));
        assert(b.contains(id));
        assert(ids.contains(id));
        let i = choose|i: int| 0 <= i < ids.len() && ids[i] == id;
        lemma_only_batch(baseline, case_id, k);
        assert(ids[i] == id);
    }
    assert forall|k: int| 0 <= k < candidate.len() && (#[trigger] candidate[k]).case_id@ == case_id implies
        candidate[k].statistics.relative_mad_ppm->0 <= noise by {
        let id = candidate[k].batch_id@;
        let m = choose|m: int| 0 <= m < baseline.len() && is_batch(#[trigger] baseline[m], case_id, id);
        assert(b.contains(id));
        assert(ids.contains(id));
        let i = choose|i: int| 0 <= i < ids.len() && ids[i] == id;
        lemma_only_batch(candidate, case_id, k);
        assert(ids[i] == id);
    }
    if noise > 0 {
        let i = choose|i: int|
            #![trigger ids[i]]
            0 <= i < ids.len() && (find_batch(baseline, case_id, ids[i])->0.statistics.relative_mad_ppm->0 == noise
                || find_batch(candidate, case_id, ids[i])->0.statistics.relative_mad_ppm->0 == noise);
        let id = ids[i];
        assert(ids.contains(id));
        assert(b.contains(id));
        let k = choose|k: int| 0 <= k < baseline.len() && is_batch(#[trigger] baseline[k], case_id, id);
        let m = choose|m: int| 0 <= m < candidate.len() && is_batch(#[trigger] candidate[m], case_id, id);
        lemma_only_batch(baseline, case_id, k);
        lemma_only_batch(candidate, case_id, m);
        assert(is_sound(profile, baseline[k]));
        assert(is_sound(profile, candidate[m]));
    }
}

/// A case passes exactly where its noise is at most that of the policy, where its gain
/// reaches the least one, and where enough of the batches of the candidate do. The rest of
/// its verdict is what the case and its summary say.
pub proof fn law_cases_pass_on_noise_gain_and_batches(
    profile: FrozenPerfBenchmark,
    case: BenchmarkCase,
    baseline: Seq<PerfMeasurementBatch>,
    candidate: Seq<PerfMeasurementBatch>,
    summary: CaseSummary,
    verdict: CaseVerdict,
)
    requires
        case_verdict(profile, case, baseline, candidate, summary) == Ok::<CaseVerdict, PerfFailure>(verdict),
        profile@.policy.min_improvement_ppm <= i64::MAX,
    ensures
        verdict.passed <==> {
            &&& forall|k: int|
                0 <= k < baseline.len() && (#[trigger] baseline[k]).case_id@ == case.id@
                    ==> baseline[k].statistics.relative_mad_ppm->0 <= profile@.policy.max_relative_mad_ppm
            &&& forall|k: int|
                0 <= k < candidate.len() && (#[trigger] candidate[k]).case_id@ == case.id@
                    ==> candidate[k].statistics.relative_mad_ppm->0 <= profile@.policy.max_relative_mad_ppm
            &&& summary.improvement_ppm >= profile@.policy.min_improvement_ppm
            &&& winning_ids(candidate, case.id@, profile@.policy.min_improvement_ppm as i64).len()
                >= profile@.policy.min_winning_batches
        },
        verdict.case_id == case.id@,
        verdict.class == case.class,
        verdict.promotion_gate == case.promotion_gate,
        verdict.baseline_median == summary.baseline_median,
        verdict.candidate_median == summary.candidate_median,
        verdict.improvement_ppm == summary.improvement_ppm,
        verdict.required_winning_batches == profile@.policy.min_winning_batches,
{
    law_noise_is_the_largest(profile, case, baseline, candidate, summary, verdict);
    law_winning_batches_reach_the_least_gain(profile, case, baseline, candidate, summary, verdict);
}

/// Some case has the identifier under which the batch was measured.
pub open spec fn is_of_some_case(cases: Seq<BenchmarkCase>, batch: PerfMeasurementBatch) -> bool {
    exists|i: int| 0 <= i < cases.len() && (#[trigger] cases[i]).id@ == batch.case_id@
}

/// A comparison is made exactly of an intact profile and either of an engineering result
/// that fails a hard gate, or of evidence that is comparable for every case and about cases
/// of the profile only. It lists one verdict for each case, in their order, and what it
/// compares can be promoted exactly where the hard gates pass and so does every case that
/// is a gate of the promotion.
pub proof fn law_comparisons(
    profile: FrozenPerfBenchmark,
    admissibility: AdmissibilityBreakdown,
    baseline: Seq<PerfMeasurementBatch>,
    candidate: Seq<PerfMeasurementBatch>,
    summaries: Seq<CaseSummary>,
)
    requires
        summaries.len() == profile@.cases.len(),
    ensures
        ({
            let compared = comparison(profile, admissibility, baseline, candidate, summaries);
            let gates = admissibility.build is Pass && admissibility.required_tests is Pass
                && admissibility.numerical_parity is Pass && admissibility.provenance is Pass
                && admissibility.deterministic_contract is Pass && admissibility.resource_budget is Pass
                && admissibility.policy_checks is Pass;
            &&& compared is Ok <==> profile@.profile_sha256 == profile.identity() && (!gates || {
                &&& forall|i: int|
                    0 <= i < profile@.cases.len() ==> are_comparable(
                        profile,
                        (#[trigger] profile@.cases[i]).id@,
                        baseline,
                        candidate,
                    )
                &&& forall|k: int| 0 <= k < baseline.len() ==> is_of_some_case(profile@.cases, #[trigger] baseline[k])
                &&& forall|k: int| 0 <= k < candidate.len() ==> is_of_some_case(profile@.cases, #[trigger] candidate[k])
            })
            &&& compared matches Ok(report) ==> {
                &&& report.hard_gates_passed == gates
                &&& !gates ==> !report.promotable && report.cases.len() == 0
                &&& gates ==> report.cases.len() == profile@.cases.len() && forall|i: int|
                    0 <= i < profile@.cases.len() ==> case_verdict(
                        profile,
                        profile@.cases[i],
                        baseline,
                        candidate,
                        summaries[i],
                    ) == Ok::<CaseVerdict, PerfFailure>(#[trigger] report.cases[i])
                &&& gates ==> (report.promotable <==> forall|i: int|
                    0 <= i < report.cases.len() && (#[trigger] report.cases[i]).promotion_gate ==> report.cases[i].passed)
            }
        }),
{
    let indices = Seq::new(profile@.cases.len(), |i: int| i);
    let f = |i: int| case_verdict(profile, profile@.cases[i], baseline, candidate, summaries[i]);
    law_mapped_one_for_one(indices, f);
    let check = |b: PerfMeasurementBatch| check_known(profile@.cases, b);
    lemma_check_all(baseline, check);
    lemma_check_all(candidate, check);
    assert forall|i: int| 0 <= i < profile@.cases.len() implies (are_comparable(
        profile,
        (#[trigger] profile@.cases[i]).id@,
        baseline,
        candidate,
    ) <==> f(indices[i]) is Ok) by {
        law_only_comparable_batches_are_compared(profile, profile@.cases[i].id@, baseline, candidate);
    }
    let verdicts = map_all(indices, f);
    if verdicts is Ok {
        assert forall|i: int| 0 <= i < profile@.cases.len() implies are_comparable(
            profile,
            (#[trigger] profile@.cases[i]).id@,
            baseline,
            candidate,
        ) by {
            assert(f(indices[i]) is Ok);
        }
        assert forall|i: int| 0 <= i < profile@.cases.len() implies case_verdict(
            profile,
            profile@.cases[i],
            baseline,
            candidate,
            summaries[i],
        ) == Ok::<CaseVerdict, PerfFailure>(#[trigger] verdicts->Ok_0[i]) by {
            assert(f(indices[i]) == Ok::<CaseVerdict, PerfFailure>(verdicts->Ok_0[i]));
        }
    } else {
        let e = verdicts->Err_0;
        let i = choose|i: int| 0 <= i < indices.len() && #[trigger] f(indices[i]) == Err::<CaseVerdict, PerfFailure>(e);
        assert(!are_comparable(profile, profile@.cases[i].id@, baseline, candidate));
    }
    if check_all(baseline, check) is Ok {
        assert forall|k: int| 0 <= k < baseline.len() implies is_of_some_case(profile@.cases, #[trigger] baseline[k]) by {
            assert(check(baseline[k]) is Ok);
        }
    }
    if check_all(candidate, check) is Ok {
        assert forall|k: int| 0 <= k < candidate.len() implies is_of_some_case(profile@.cases, #[trigger] candidate[k]) by {
            assert(check(candidate[k]) is Ok);
        }
    }
    assert forall|k: int| 0 <= k < baseline.len() implies (is_of_some_case(profile@.cases, #[trigger] baseline[k]) <==> check(
        baseline[k],
    ) is Ok) by {}
    assert forall|k: int| 0 <= k < candidate.len() implies (is_of_some_case(profile@.cases, #[trigger] candidate[k])
        <==> check(candidate[k]) is Ok) by {}
}

/// A policy is sound exactly with at least three samples in each of at least two batches,
/// at most a hundred thousand samples in all, some noise and some gain, and no more winning
/// batches than there are.
pub proof fn law_sound_policies(policy: AntiNoisePolicy)
    ensures
        policy.check() is Ok <==> policy.samples_per_batch >= 3 && policy.batches >= 2 && policy.samples_per_batch
            * policy.batches <= 100_000 && policy.max_relative_mad_ppm >= 1 && policy.min_improvement_ppm >= 1
            && 1 <= policy.min_winning_batches <= policy.batches,
{
}

/// How many bytes the texts take together.
pub open spec fn bytes_in(items: Seq<Seq<char>>) -> int {
    items.fold_left(0int, |sum: int, t: Seq<char>| sum + encode_utf8(t).len())
}

proof fn lemma_arguments_from(items: Seq<Seq<char>>, i: int)
    requires
        0 <= i <= items.len(),
    ensures
        bytes_in(items.take(i)) >= 0,
        check_arguments_from(items, i, bytes_in(items.take(i)) as nat) is Ok <==> bytes_in(items) <= 4096 && forall|k: int|
            i <= k < items.len() ==> !any_control(#[trigger] items[k]),
        bytes_in(items.take(i)) <= bytes_in(items),
    decreases items.len() - i,
{
    lemma_bytes_grow(items, i);
    if i < items.len() {
        lemma_arguments_from(items, i + 1);
        assert(items.take(i + 1).drop_last() =~= items.take(i));
        assert(items.take(i + 1).last() == items[i]);
    } else {
        assert(items.take(i) =~= items);
    }
}

proof fn lemma_bytes_grow(items: Seq<Seq<char>>, i: int)
    requires
        0 <= i <= items.len(),
    ensures
        0 <= bytes_in(items.take(i)) <= bytes_in(items),
    decreases items.len(),
{
    if items.len() > 0 {
        let front = items.drop_last();
        if i < items.len() {
            lemma_bytes_grow(front, i);
            assert(front.take(i) =~= items.take(i));
        } else {
            lemma_bytes_grow(front, i - 1);
            assert(items.take(i) =~= items);
            assert(0 <= bytes_in(front.take(i - 1)));
        }
    }
}

/// Arguments are accepted exactly where there are at most thirty-two, none of them with a
/// control character, of at most four kibibytes in all.
pub proof fn law_benchmark_arguments(items: Seq<Seq<char>>)
    ensures
        check_arguments(items) is Ok <==> items.len() <= 32 && bytes_in(items) <= 4096 && forall|k: int|
            0 <= k < items.len() ==> !any_control(#[trigger] items[k]),
{
    lemma_arguments_from(items, 0);
    assert(items.take(0).len() == 0);
}

/// A case is made exactly with identifiers for itself, its repository and its command, with
/// a metric and a unit of one line each, with acceptable arguments, and with a promotion
/// gate only where it is an end-to-end case.
pub proof fn law_benchmark_cases(
    id: Seq<char>,
    repository_role: Seq<char>,
    command_kind: Seq<char>,
    arguments: Seq<Seq<char>>,
    metric: Seq<char>,
    unit: Seq<char>,
    class: BenchmarkClass,
    promotion_gate: bool,
)
    ensures
        check_case(id, repository_role, command_kind, arguments, metric, unit, class, promotion_gate) is Ok <==> {
            &&& id.len() > 0 && is_line(id) && is_identifier(id)
            &&& repository_role.len() > 0 && is_line(repository_role) && is_identifier(repository_role)
            &&& command_kind.len() > 0 && is_line(command_kind) && is_identifier(command_kind)
            &&& metric.len() > 0 && is_line(metric)
            &&& unit.len() > 0 && is_line(unit)
            &&& arguments.len() <= 32 && bytes_in(arguments) <= 4096
            &&& forall|k: int| 0 <= k < arguments.len() ==> !any_control(#[trigger] arguments[k])
            &&& promotion_gate ==> class is EndToEnd
        },
{
    law_benchmark_arguments(arguments);
}

/// A measurement is accepted exactly with identifiers for its case and its batch, with the
/// digest of an environment, and with one or more samples that are finite and above zero.
pub proof fn law_measurements(case_id: Seq<char>, batch_id: Seq<char>, environment: Seq<char>, samples: Seq<Measure>)
    ensures
        check_measurement(case_id, batch_id, environment, samples) is Ok <==> {
            &&& case_id.len() > 0 && is_line(case_id) && is_identifier(case_id)
            &&& batch_id.len() > 0 && is_line(batch_id) && is_identifier(batch_id)
            &&& is_digest(environment)
            &&& samples.len() > 0
            &&& forall|i: int|
                0 <= i < samples.len() ==> (#[trigger] samples[i]).finite() && samples[i].rank() > 0
        },
{
    assert forall|i: int| 0 <= i < samples.len() implies (is_sample(#[trigger] samples[i]) <==> samples[i].finite()
        && samples[i].rank() > 0) by {}
}

/// A profile is frozen exactly under an intact specification and an intact graph of it, for
/// a task of the graph in the performance regime; of one or more cases with different
/// identifiers, in repositories of the task, one of them a gate of the promotion; and of
/// one or more artifacts at different places, in repositories of the task, inside the
/// frozen scope and outside of what the task may edit.
pub proof fn law_profiles_are_frozen(
    spec: FrozenAutopilotSpec,
    dag: AutopilotTaskDag,
    task_id: Seq<char>,
    cases: Seq<BenchmarkCase>,
    artifacts: Seq<Key>,
)
    requires
        forall|i: int| 0 <= i < artifacts.len() ==> (#[trigger] artifacts[i]).len() == 3,
    ensures
        check_profile(spec, dag, task_id, cases, artifacts) is Ok <==> {
            let task = find_task(dag@.tasks, task_id)->0;
            &&& spec@.spec_sha256 == spec.identity()
            &&& dag@.dag_sha256 == dag.identity()
            &&& dag@.spec_sha256 == spec@.spec_sha256
            &&& task_id.len() > 0 && is_line(task_id) && is_identifier(task_id)
            &&& find_task(dag@.tasks, task_id) is Some
            &&& task@.regime is Perf
            &&& cases.len() > 0
            &&& artifacts.len() > 0
            &&& forall|i: int, j: int| 0 <= i < j < cases.len() ==> (#[trigger] cases[i]).id@ != (#[trigger] cases[j]).id@
            &&& exists|i: int| 0 <= i < cases.len() && (#[trigger] cases[i]).promotion_gate
            &&& forall|i: int|
                0 <= i < cases.len() ==> texts(task@.repository_roles).contains((#[trigger] cases[i]).repository_role@)
            &&& forall|i: int, j: int|
                0 <= i < j < artifacts.len() && (#[trigger] artifacts[i])[0] == (#[trigger] artifacts[j])[0]
                    ==> artifacts[i][1] != artifacts[j][1]
            &&& forall|i: int|
                #![trigger artifacts[i]]
                0 <= i < artifacts.len() ==> is_out_of_reach(spec, task, artifacts[i][0], artifacts[i][1])
        },
{
    law_arranging(cases);
    law_sorting(artifacts);
    law_repeated_artifacts(artifacts);
    let k = keys(cases);
    assert(forall|i: int| 0 <= i < k.len() ==> #[trigger] k[i] == seq![cases[i].id@]);
    law_repetitions_are_found(k);
    if k.no_duplicates() {
        assert forall|i: int, j: int| 0 <= i < j < cases.len() implies (#[trigger] cases[i]).id@ != (
        #[trigger] cases[j]).id@ by {
            assert(k[i] != k[j]);
        }
    } else {
        let (i, j) = choose|i: int, j: int| 0 <= i < k.len() && 0 <= j < k.len() && i != j && k[i] == k[j];
        assert(k[i][0] == k[j][0]);
        assert(cases[i].id@ == cases[j].id@);
    }
    let a = arranged(cases);
    if has_gate(a) {
        let i = choose|i: int| 0 <= i < a.len() && (#[trigger] a[i]).promotion_gate;
        assert(a.contains(a[i]));
        assert(cases.contains(a[i]));
    }
    if exists|i: int| 0 <= i < cases.len() && (#[trigger] cases[i]).promotion_gate {
        let i = choose|i: int| 0 <= i < cases.len() && (#[trigger] cases[i]).promotion_gate;
        assert(cases.contains(cases[i]));
        assert(a.contains(cases[i]));
        let j = choose|j: int| 0 <= j < a.len() && a[j] == cases[i];
        assert(a[j].promotion_gate);
    }
    if find_task(dag@.tasks, task_id) is Some {
        let task = find_task(dag@.tasks, task_id)->0;
        let case_check = |c: BenchmarkCase| check_case_placed(task, c);
        lemma_check_all(a, case_check);
        if check_all(a, case_check) is Ok {
            assert forall|i: int| 0 <= i < cases.len() implies texts(task@.repository_roles).contains((
            #[trigger] cases[i]).repository_role@) by {
                assert(cases.contains(cases[i]));
                assert(a.contains(cases[i]));
                let j = choose|j: int| 0 <= j < a.len() && a[j] == cases[i];
                assert(case_check(a[j]) is Ok);
            }
        } else {
            let j = choose|j: int| 0 <= j < a.len() && !((#[trigger] case_check(a[j])) is Ok);
            assert(a.contains(a[j]));
            assert(cases.contains(a[j]));
            let i = choose|i: int| 0 <= i < cases.len() && cases[i] == a[j];
            assert(!texts(task@.repository_roles).contains(cases[i].repository_role@));
        }
        let s = sorted(artifacts);
        let check = |k: Key| check_artifact_placed(spec, task, k);
        lemma_check_all(s, check);
        if check_all(s, check) is Ok {
            assert forall|i: int| #![trigger artifacts[i]] 0 <= i < artifacts.len() implies is_out_of_reach(
                spec,
                task,
                artifacts[i][0],
                artifacts[i][1],
            ) by {
                assert(artifacts.contains(artifacts[i]));
                assert(s.contains(artifacts[i]));
                let j = choose|j: int| 0 <= j < s.len() && s[j] == artifacts[i];
                assert(check(s[j]) is Ok);
                lemma_out_of_reach(spec, task, artifacts[i]);
            }
        } else {
            let j = choose|j: int| 0 <= j < s.len() && !((#[trigger] check(s[j])) is Ok);
            assert(s.contains(s[j]));
            assert(artifacts.contains(s[j]));
            let i = choose|i: int| 0 <= i < artifacts.len() && artifacts[i] == s[j];
            lemma_out_of_reach(spec, task, artifacts[i]);
            assert(!is_out_of_reach(spec, task, artifacts[i][0], artifacts[i][1]));
        }
    }
}

/// The place is in a repository of the task and inside the frozen scope, and no allowance of
/// the task is on it.
pub open spec fn is_out_of_reach(spec: FrozenAutopilotSpec, task: AutopilotTask, role: Seq<char>, path: Seq<char>) -> bool {
    &&& texts(task@.repository_roles).contains(role)
    &&& find_scope(spec@.repository_scope, role) is Some
    &&& is_within_any(path, texts((find_scope(spec@.repository_scope, role)->0).allowed_path_prefixes@))
    &&& !allows_path(task, role, path)
}

proof fn lemma_out_of_reach(spec: FrozenAutopilotSpec, task: AutopilotTask, k: Key)
    ensures
        check_artifact_placed(spec, task, k) is Ok <==> is_out_of_reach(spec, task, k[0], k[1]),
{
    let allowances = task@.edit_allowances;
    let check = |a: TaskEditAllowance| check_allowance_uncovered(k, a);
    lemma_check_all(allowances, check);
    assert forall|i: int| 0 <= i < allowances.len() implies ((#[trigger] check(allowances[i])) is Ok <==> !(
    allowances[i].role() == k[0] && is_within_any(k[1], allowances[i].prefixes()))) by {
        let prefixes = allowances[i].prefixes();
        let each = |p: Seq<char>| check_prefix_uncovered(k, p);
        lemma_check_all(prefixes, each);
        if is_within_any(k[1], prefixes) {
            let p = choose|p: int| 0 <= p < prefixes.len() && is_within(k[1], #[trigger] prefixes[p]);
            assert(each(prefixes[p]) is Err);
        } else {
            assert forall|p: int| 0 <= p < prefixes.len() implies (#[trigger] each(prefixes[p])) is Ok by {
                assert(!is_within(k[1], prefixes[p]));
            }
        }
    }
    if check_all(allowances, check) is Ok {
        assert(!allows_path(task, k[0], k[1])) by {
            if allows_path(task, k[0], k[1]) {
                let i = choose|i: int|
                    0 <= i < allowances.len() && (#[trigger] allowances[i]).role() == k[0] && is_within_any(
                        k[1],
                        allowances[i].prefixes(),
                    );
                assert(check(allowances[i]) is Ok);
            }
        }
    } else {
        let i = choose|i: int| 0 <= i < allowances.len() && !((#[trigger] check(allowances[i])) is Ok);
        assert(allowances[i].role() == k[0]);
    }
}

/// A candidate is accepted exactly where the profile and the graph are intact and belong
/// together, the operations are well formed, the role is one of the task and one it may
/// edit, and every operation is one that the task permits on a path where no benchmark is
/// frozen.
pub proof fn law_candidates_are_accepted(
    profile: FrozenPerfBenchmark,
    dag: AutopilotTaskDag,
    role: Seq<char>,
    patch_set: PatchSet,
)
    ensures
        profile.check_candidate(dag, role, patch_set) is Ok <==> {
            let task = find_task(dag@.tasks, profile@.task_id)->0;
            let operations = patch_set.operations@;
            &&& profile@.profile_sha256 == profile.identity()
            &&& dag@.dag_sha256 == dag.identity()
            &&& profile@.dag_sha256 == dag@.dag_sha256
            &&& check_operations(operations) is Ok
            &&& find_task(dag@.tasks, profile@.task_id) is Some
            &&& texts(task@.repository_roles).contains(role)
            &&& exists|a: int| 0 <= a < task@.edit_allowances.len() && (#[trigger] task@.edit_allowances[a]).role() == role
            &&& forall|k: int|
                #![trigger operations[k]]
                0 <= k < operations.len() ==> permits(task, role, operations[k].target(), operations[k].operation())
                    && forall|i: int|
                    0 <= i < profile@.artifacts.len() ==> !((#[trigger] profile@.artifacts[i]).repository_role@ == role
                        && profile@.artifacts[i].path@ == operations[k].target())
        },
{
    let operations = patch_set.operations@;
    if find_task(dag@.tasks, profile@.task_id) is Some {
        let task = find_task(dag@.tasks, profile@.task_id)->0;
        let check = |o: FileOperation| check_operation(task, profile@.artifacts, role, o);
        lemma_check_all(operations, check);
        assert forall|k: int| #![trigger operations[k]] 0 <= k < operations.len() implies (check(operations[k]) is Ok
            <==> permits(task, role, operations[k].target(), operations[k].operation()) && forall|i: int|
            0 <= i < profile@.artifacts.len() ==> !((#[trigger] profile@.artifacts[i]).repository_role@ == role
                && profile@.artifacts[i].path@ == operations[k].target())) by {}
        if check_all(operations, check) is Ok {
            assert forall|k: int| #![trigger operations[k]] 0 <= k < operations.len() implies check(operations[k]) is Ok by {}
        }
    }
}

/// In every report of a candidate that passes the hard gates there is a result for each
/// case in turn. It counts as winning the batches of the candidate whose gain reaches the
/// least gain, by their identifiers; and it passed only where enough of them won, where the
/// gain of the case reaches the least one, and where no batch is noisier than allowed.
pub proof fn law_reported_cases(
    profile: FrozenPerfBenchmark,
    admissibility: AdmissibilityBreakdown,
    baseline: &[PerfMeasurementBatch],
    candidate: &[PerfMeasurementBatch],
    summaries: &[CaseSummary],
    r: Result<PerfComparisonReport, PerfRegimeError>,
    i: int,
)
    requires
        summaries@.len() == profile@.cases.len(),
        call_ensures(PerfComparisonReport::evaluate, (&profile, &admissibility, baseline, candidate, summaries), r),
        r is Ok,
        admissibility.all_pass(),
        0 <= i < profile@.cases.len(),
    ensures
        ({
            let result = r->Ok_0.cases@[i];
            let case_id = profile@.cases[i].id@;
            let won = winning_ids(candidate@, case_id, profile@.policy.min_improvement_ppm as i64);
            &&& r->Ok_0.cases@.len() == profile@.cases.len()
            &&& result.case_id@ == case_id
            &&& result.winning_batches == won.len()
            &&& result.improvement_ppm == summaries@[i].improvement_ppm
            &&& result.passed ==> {
                &&& won.len() >= profile@.policy.min_winning_batches
                &&& summaries@[i].improvement_ppm >= profile@.policy.min_improvement_ppm as i64
                &&& result.max_relative_mad_ppm <= profile@.policy.max_relative_mad_ppm
            }
            &&& r->Ok_0.promotable && profile@.cases[i].promotion_gate ==> result.passed
        }),
{
    law_comparisons(profile, admissibility, baseline@, candidate@, summaries@);
    let report = r->Ok_0@;
    assert(report.cases[i] == r->Ok_0.cases@[i]@);
    law_winning_batches_reach_the_least_gain(
        profile,
        profile@.cases[i],
        baseline@,
        candidate@,
        summaries@[i],
        report.cases[i],
    );
}

/// Directions and classes of benchmarks are told apart by their names.
pub proof fn law_names_tell_apart(a: MetricDirection, b: MetricDirection, c: BenchmarkClass, d: BenchmarkClass)
    ensures
        a.name() == b.name() <==> a == b,
        c.name() == d.name() <==> c == d,
{
    reveal_strlit("minimize");
    reveal_strlit("maximize");
    reveal_strlit("end_to_end");
    reveal_strlit("supporting_microbenchmark");
    assert("minimize"@[1] != "maximize"@[1]);
    assert("end_to_end"@.len() == 10 && "supporting_microbenchmark"@.len() == 25);
}

} // verus!
