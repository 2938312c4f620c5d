//! The task graph of a frozen specification.
//!
//! Tasks may narrow the repository, path and operation scope of the specification
//! but can never widen it. The base engineering hard gates are structural and
//! cannot be disabled by a task. Performance tasks carry an explicit benchmark
//! profile identifier; feature tasks have no benchmark semantics.

use vstd::prelude::*;
use vstd::utf8::encode_utf8;

use crate::autopilot_intake::{AcceptanceCriterion, FrozenAutopilotSpec, RepositoryScope, SpecBudget};
use crate::checks::{and_then, check_all, lemma_check_all, lemma_check_step};
use crate::fields::{
    identifier_ok, is_identifier, is_line, is_relative_path, is_within, is_within_any, lemma_within_transitive, line_ok, path_is_within_any,
    relative_path_ok,
};
use crate::json::{array_json, empty_obj, json_array, print, text_array, Json, ToJson, Value};
use crate::order::{
    adjacent_duplicate, arranged, ascending, canonical, canonical_texts, find_adjacent_duplicate, is_canonical, is_sorted_of, key_order, keys,
    law_arranging, law_repetitions_are_found, lemma_arranged, lemma_keys_multiset, lemma_no_duplicates, lemma_same_arrangement, lemma_text_order_equal, lemma_text_order_flip, lemma_text_order_transitive,
    order_texts, sort_records, sorted, strictly_ascending, text_order, Key, Keyed, Order,
};
use crate::schedule::{
    closes, covers, distinct, is_next, is_ready, known, law_cycles_are_left_out, law_full_schedule_covers, law_left_out_ascends,
    law_orderable_steps_are_scheduled, law_schedule_is_the_smallest_order, law_schedule_respects_dependencies, leads_to_cycle,
    left_out, lemma_next_is_unique, lemma_next_ready, next_ready, outside, respects, run, schedule, step_ids, Step,
};
use crate::sha256::{digest_hex, sha256_hex};
use crate::text::{
    contains_text, debug_quoted, decimal, decimal_text, join, join_text, lemma_texts_push, quote, same_text, texts, IntoText,
};

verus! {

pub const AUTOPILOT_TASK_DAG_SCHEMA_VERSION: u64 = 1;

/// The gates that every engineering task must pass.
pub const BASE_HARD_GATES: [&'static str; 7] = [
    "build",
    "required_tests",
    "numerical_parity",
    "provenance",
    "deterministic_contract",
    "resource_budget",
    "policy_checks",
];

// ---------------------------------------------------------------------------
// Failures
// ---------------------------------------------------------------------------

/// Items in brackets, with commas between them.
pub open spec fn bracketed(items: Seq<Seq<char>>) -> Seq<char> {
    seq!['['] + join(items, ", "@) + seq![']']
}

/// A list of identifiers as it is shown to a user.
pub open spec fn listed(items: Seq<Seq<char>>) -> Seq<char> {
    bracketed(items.map_values(|t: Seq<char>| debug_quoted(t)))
}

/// Puts items in brackets, with commas between them.
pub fn bracket_text(items: &[String]) -> (r: String)
    ensures
        r@ == bracketed(texts(items@)),
{
    let mut out = String::new();
    out.push('[');
    out.append(join_text(items, ", ").as_str());
    out.push(']');
    assert(out@ =~= bracketed(texts(items@)));
    out
}

/// A list of identifiers as it is shown to a user: quoted, separated by commas, in
/// brackets.
pub fn list_text(items: &[String]) -> (r: String)
    ensures
        r@ == listed(texts(items@)),
{
    let mut quoted: Vec<String> = Vec::new();
    let mut i: usize = 0;
    while i < items.len()
        invariant
            i <= items@.len(),
            quoted@.len() == i,
            forall|j: int| 0 <= j < i ==> (#[trigger] quoted@[j])@ == debug_quoted(items@[j]@),
        decreases items@.len() - i,
    {
        quoted.push(quote(items[i].as_str()));
        i += 1;
    }
    assert(texts(quoted@) =~= texts(items@).map_values(|t: Seq<char>| debug_quoted(t)));
    bracket_text(quoted.as_slice())
}

/// Why a task or a task graph was refused.
///
/// The parameters are the types of the texts and of the lists of texts it carries.
#[derive(Debug, Clone, PartialEq, Eq)]
pub enum AutopilotTaskDagError<S = String, L = Vec<String>> {
    EmptyField(&'static str),
    InvalidText { field: &'static str, value: S },
    InvalidIdentifier { field: &'static str, value: S },
    InvalidPath { field: &'static str, value: S },
    InvalidTaskBudget,
    InvalidDagPolicy,
    InvalidFrozenSpec(S),
    DuplicateHardGate(S),
    DuplicateEditAllowance(S),
    DuplicateTask(S),
    SelfDependency(S),
    UnknownDependency { task_id: S, dependency: S },
    UnknownRepositoryRole { task_id: S, repository_role: S },
    EditRoleOutsideTaskSubset { task_id: S, repository_role: S },
    PathOutsideFrozenScope { task_id: S, repository_role: S, path_prefix: S },
    UnknownDoneCriterion { task_id: S, criterion_id: S },
    DoneCriterionOutsideTaskSubset { task_id: S, criterion_id: S, repository_role: S },
    TaskLimitExceeded { actual: usize, maximum: usize },
    CandidateEvaluationLimitExceeded { task_id: S, actual: u64, maximum: u64 },
    TotalCandidateEvaluationLimitExceeded { actual: u64, maximum: u64 },
    ObjectiveBudgetExceeded { field: &'static str, actual: u64, maximum: u64 },
    BudgetOverflow(&'static str),
    CycleDetected(L),
    FrozenDagHashMismatch { expected: S, actual: S },
}

/// A failure over mathematical texts.
pub type DagFailure = AutopilotTaskDagError<Seq<char>, Seq<Seq<char>>>;

impl AutopilotTaskDagError<String, Vec<String>> {
    pub open spec fn view(&self) -> DagFailure {
        match self {
            AutopilotTaskDagError::EmptyField(value) => AutopilotTaskDagError::EmptyField(*value),
            AutopilotTaskDagError::InvalidText { field, value } => AutopilotTaskDagError::InvalidText { field: *field, value: value@ },
            AutopilotTaskDagError::InvalidIdentifier { field, value } => AutopilotTaskDagError::InvalidIdentifier { field: *field, value: value@ },
            AutopilotTaskDagError::InvalidPath { field, value } => AutopilotTaskDagError::InvalidPath { field: *field, value: value@ },
            AutopilotTaskDagError::InvalidTaskBudget => AutopilotTaskDagError::InvalidTaskBudget,
            AutopilotTaskDagError::InvalidDagPolicy => AutopilotTaskDagError::InvalidDagPolicy,
            AutopilotTaskDagError::InvalidFrozenSpec(value) => AutopilotTaskDagError::InvalidFrozenSpec(value@),
            AutopilotTaskDagError::DuplicateHardGate(value) => AutopilotTaskDagError::DuplicateHardGate(value@),
            AutopilotTaskDagError::DuplicateEditAllowance(value) => AutopilotTaskDagError::DuplicateEditAllowance(value@),
            AutopilotTaskDagError::DuplicateTask(value) => AutopilotTaskDagError::DuplicateTask(value@),
            AutopilotTaskDagError::SelfDependency(value) => AutopilotTaskDagError::SelfDependency(value@),
            AutopilotTaskDagError::UnknownDependency { task_id, dependency } => AutopilotTaskDagError::UnknownDependency { task_id: task_id@, dependency: dependency@ },
            AutopilotTaskDagError::UnknownRepositoryRole { task_id, repository_role } => AutopilotTaskDagError::UnknownRepositoryRole { task_id: task_id@, repository_role: repository_role@ },
            AutopilotTaskDagError::EditRoleOutsideTaskSubset { task_id, repository_role } => AutopilotTaskDagError::EditRoleOutsideTaskSubset { task_id: task_id@, repository_role: repository_role@ },
            AutopilotTaskDagError::PathOutsideFrozenScope { task_id, repository_role, path_prefix } => AutopilotTaskDagError::PathOutsideFrozenScope { task_id: task_id@, repository_role: repository_role@, path_prefix: path_prefix@ },
            AutopilotTaskDagError::UnknownDoneCriterion { task_id, criterion_id } => AutopilotTaskDagError::UnknownDoneCriterion { task_id: task_id@, criterion_id: criterion_id@ },
            AutopilotTaskDagError::DoneCriterionOutsideTaskSubset { task_id, criterion_id, repository_role } => AutopilotTaskDagError::DoneCriterionOutsideTaskSubset { task_id: task_id@, criterion_id: criterion_id@, repository_role: repository_role@ },
            AutopilotTaskDagError::TaskLimitExceeded { actual, maximum } => AutopilotTaskDagError::TaskLimitExceeded { actual: *actual, maximum: *maximum },
            AutopilotTaskDagError::CandidateEvaluationLimitExceeded { task_id, actual, maximum } => AutopilotTaskDagError::CandidateEvaluationLimitExceeded { task_id: task_id@, actual: *actual, maximum: *maximum },
            AutopilotTaskDagError::TotalCandidateEvaluationLimitExceeded { actual, maximum } => AutopilotTaskDagError::TotalCandidateEvaluationLimitExceeded { actual: *actual, maximum: *maximum },
            AutopilotTaskDagError::ObjectiveBudgetExceeded { field, actual, maximum } => AutopilotTaskDagError::ObjectiveBudgetExceeded { field: *field, actual: *actual, maximum: *maximum },
            AutopilotTaskDagError::BudgetOverflow(value) => AutopilotTaskDagError::BudgetOverflow(*value),
            AutopilotTaskDagError::CycleDetected(value) => AutopilotTaskDagError::CycleDetected(texts(value@)),
            AutopilotTaskDagError::FrozenDagHashMismatch { expected, actual } => AutopilotTaskDagError::FrozenDagHashMismatch { expected: expected@, actual: actual@ },
        }
    }

    /// The message shown to a user.
    pub fn to_string(&self) -> (r: String)
        ensures
            r@ == self@.message(),
    {
        match self {
            AutopilotTaskDagError::EmptyField(value) => {
                let mut m = "AUTOPILOT DAG field '".to_owned();
                m.append(*value);
                m.append("' is empty");
                m
            },
            AutopilotTaskDagError::InvalidText { field, value } => {
                let mut m = "invalid AUTOPILOT DAG text '".to_owned();
                m.append(*field);
                m.append("': '");
                m.append(value.as_str());
                m.append("'");
                m
            },
            AutopilotTaskDagError::InvalidIdentifier { field, value } => {
                let mut m = "invalid AUTOPILOT DAG identifier '".to_owned();
                m.append(*field);
                m.append("': '");
                m.append(value.as_str());
                m.append("'");
                m
            },
            AutopilotTaskDagError::InvalidPath { field, value } => {
                let mut m = "invalid AUTOPILOT DAG path '".to_owned();
                m.append(*field);
                m.append("': '");
                m.append(value.as_str());
                m.append("'");
                m
            },
            AutopilotTaskDagError::InvalidTaskBudget => {
                "AUTOPILOT task budget values must be non-zero".to_owned()
            },
            AutopilotTaskDagError::InvalidDagPolicy => {
                "AUTOPILOT DAG policy limits must be non-zero".to_owned()
            },
            AutopilotTaskDagError::InvalidFrozenSpec(value) => {
                let mut m = "invalid frozen AUTOPILOT spec: ".to_owned();
                m.append(value.as_str());
                m
            },
            AutopilotTaskDagError::DuplicateHardGate(value) => {
                let mut m = "duplicate base hard gate '".to_owned();
                m.append(value.as_str());
                m.append("'");
                m
            },
            AutopilotTaskDagError::DuplicateEditAllowance(value) => {
                let mut m = "duplicate edit allowance for repository role '".to_owned();
                m.append(value.as_str());
                m.append("'");
                m
            },
            AutopilotTaskDagError::DuplicateTask(value) => {
                let mut m = "duplicate AUTOPILOT task '".to_owned();
                m.append(value.as_str());
                m.append("'");
                m
            },
            AutopilotTaskDagError::SelfDependency(value) => {
                let mut m = "AUTOPILOT task '".to_owned();
                m.append(value.as_str());
                m.append("' depends on itself");
                m
            },
            AutopilotTaskDagError::UnknownDependency { task_id, dependency } => {
                let mut m = "task '".to_owned();
                m.append(task_id.as_str());
                m.append("' depends on unknown task '");
                m.append(dependency.as_str());
                m.append("'");
                m
            },
            AutopilotTaskDagError::UnknownRepositoryRole { task_id, repository_role } => {
                let mut m = "task '".to_owned();
                m.append(task_id.as_str());
                m.append("' references repository role '");
                m.append(repository_role.as_str());
                m.append("' outside the frozen spec");
                m
            },
            AutopilotTaskDagError::EditRoleOutsideTaskSubset { task_id, repository_role } => {
                let mut m = "task '".to_owned();
                m.append(task_id.as_str());
                m.append("' edits repository role '");
                m.append(repository_role.as_str());
                m.append("' outside its repository subset");
                m
            },
            AutopilotTaskDagError::PathOutsideFrozenScope { task_id, repository_role, path_prefix } => {
                let mut m = "task '".to_owned();
                m.append(task_id.as_str());
                m.append("' path '");
                m.append(path_prefix.as_str());
                m.append("' widens frozen scope for repository role '");
                m.append(repository_role.as_str());
                m.append("'");
                m
            },
            AutopilotTaskDagError::UnknownDoneCriterion { task_id, criterion_id } => {
                let mut m = "task '".to_owned();
                m.append(task_id.as_str());
                m.append("' references unknown done criterion '");
                m.append(criterion_id.as_str());
                m.append("'");
                m
            },
            AutopilotTaskDagError::DoneCriterionOutsideTaskSubset { task_id, criterion_id, repository_role } => {
                let mut m = "task '".to_owned();
                m.append(task_id.as_str());
                m.append("' done criterion '");
                m.append(criterion_id.as_str());
                m.append("' targets repository role '");
                m.append(repository_role.as_str());
                m.append("' outside the task subset");
                m
            },
            AutopilotTaskDagError::TaskLimitExceeded { actual, maximum } => {
                let mut m = "task count ".to_owned();
                m.append(decimal_text(*actual as u64).as_str());
                m.append(" exceeds trusted maximum ");
                m.append(decimal_text(*maximum as u64).as_str());
                m
            },
            AutopilotTaskDagError::CandidateEvaluationLimitExceeded { task_id, actual, maximum } => {
                let mut m = "task '".to_owned();
                m.append(task_id.as_str());
                m.append("' candidate-evaluation budget ");
                m.append(decimal_text(*actual).as_str());
                m.append(" exceeds trusted maximum ");
                m.append(decimal_text(*maximum).as_str());
                m
            },
            AutopilotTaskDagError::TotalCandidateEvaluationLimitExceeded { actual, maximum } => {
                let mut m = "total candidate-evaluation budget ".to_owned();
                m.append(decimal_text(*actual).as_str());
                m.append(" exceeds trusted maximum ");
                m.append(decimal_text(*maximum).as_str());
                m
            },
            AutopilotTaskDagError::ObjectiveBudgetExceeded { field, actual, maximum } => {
                let mut m = "task DAG ".to_owned();
                m.append(*field);
                m.append(" budget ");
                m.append(decimal_text(*actual).as_str());
                m.append(" exceeds frozen objective maximum ");
                m.append(decimal_text(*maximum).as_str());
                m
            },
            AutopilotTaskDagError::BudgetOverflow(value) => {
                let mut m = "task DAG budget overflow for '".to_owned();
                m.append(*value);
                m.append("'");
                m
            },
            AutopilotTaskDagError::CycleDetected(value) => {
                let mut m = "AUTOPILOT task DAG contains a cycle: ".to_owned();
                m.append(list_text(value.as_slice()).as_str());
                m
            },
            AutopilotTaskDagError::FrozenDagHashMismatch { expected, actual } => {
                let mut m = "frozen AUTOPILOT DAG hash mismatch: expected ".to_owned();
                m.append(expected.as_str());
                m.append(", actual ");
                m.append(actual.as_str());
                m
            },
        }
    }
}

impl AutopilotTaskDagError<Seq<char>, Seq<Seq<char>>> {
    pub open spec fn message(&self) -> Seq<char> {
        match self {
            AutopilotTaskDagError::EmptyField(value) => "AUTOPILOT DAG field '"@ + value@ + "' is empty"@,
            AutopilotTaskDagError::InvalidText { field, value } => "invalid AUTOPILOT DAG text '"@ + field@ + "': '"@ + *value + "'"@,
            AutopilotTaskDagError::InvalidIdentifier { field, value } => "invalid AUTOPILOT DAG identifier '"@ + field@ + "': '"@ + *value + "'"@,
            AutopilotTaskDagError::InvalidPath { field, value } => "invalid AUTOPILOT DAG path '"@ + field@ + "': '"@ + *value + "'"@,
            AutopilotTaskDagError::InvalidTaskBudget => "AUTOPILOT task budget values must be non-zero"@,
            AutopilotTaskDagError::InvalidDagPolicy => "AUTOPILOT DAG policy limits must be non-zero"@,
            AutopilotTaskDagError::InvalidFrozenSpec(value) => "invalid frozen AUTOPILOT spec: "@ + *value,
            AutopilotTaskDagError::DuplicateHardGate(value) => "duplicate base hard gate '"@ + *value + "'"@,
            AutopilotTaskDagError::DuplicateEditAllowance(value) => "duplicate edit allowance for repository role '"@ + *value + "'"@,
            AutopilotTaskDagError::DuplicateTask(value) => "duplicate AUTOPILOT task '"@ + *value + "'"@,
            AutopilotTaskDagError::SelfDependency(value) => "AUTOPILOT task '"@ + *value + "' depends on itself"@,
            AutopilotTaskDagError::UnknownDependency { task_id, dependency } => "task '"@ + *task_id + "' depends on unknown task '"@ + *dependency + "'"@,
            AutopilotTaskDagError::UnknownRepositoryRole { task_id, repository_role } => "task '"@ + *task_id + "' references repository role '"@ + *repository_role + "' outside the frozen spec"@,
            AutopilotTaskDagError::EditRoleOutsideTaskSubset { task_id, repository_role } => "task '"@ + *task_id + "' edits repository role '"@ + *repository_role + "' outside its repository subset"@,
            AutopilotTaskDagError::PathOutsideFrozenScope { task_id, repository_role, path_prefix } => "task '"@ + *task_id + "' path '"@ + *path_prefix + "' widens frozen scope for repository role '"@ + *repository_role + "'"@,
            AutopilotTaskDagError::UnknownDoneCriterion { task_id, criterion_id } => "task '"@ + *task_id + "' references unknown done criterion '"@ + *criterion_id + "'"@,
            AutopilotTaskDagError::DoneCriterionOutsideTaskSubset { task_id, criterion_id, repository_role } => "task '"@ + *task_id + "' done criterion '"@ + *criterion_id + "' targets repository role '"@ + *repository_role + "' outside the task subset"@,
            AutopilotTaskDagError::TaskLimitExceeded { actual, maximum } => "task count "@ + decimal(*actual as nat) + " exceeds trusted maximum "@ + decimal(*maximum as nat),
            AutopilotTaskDagError::CandidateEvaluationLimitExceeded { task_id, actual, maximum } => "task '"@ + *task_id + "' candidate-evaluation budget "@ + decimal(*actual as nat) + " exceeds trusted maximum "@ + decimal(*maximum as nat),
            AutopilotTaskDagError::TotalCandidateEvaluationLimitExceeded { actual, maximum } => "total candidate-evaluation budget "@ + decimal(*actual as nat) + " exceeds trusted maximum "@ + decimal(*maximum as nat),
            AutopilotTaskDagError::ObjectiveBudgetExceeded { field, actual, maximum } => "task DAG "@ + field@ + " budget "@ + decimal(*actual as nat) + " exceeds frozen objective maximum "@ + decimal(*maximum as nat),
            AutopilotTaskDagError::BudgetOverflow(value) => "task DAG budget overflow for '"@ + value@ + "'"@,
            AutopilotTaskDagError::CycleDetected(value) => "AUTOPILOT task DAG contains a cycle: "@ + listed(*value),
            AutopilotTaskDagError::FrozenDagHashMismatch { expected, actual } => "frozen AUTOPILOT DAG hash mismatch: expected "@ + *expected + ", actual "@ + *actual,
        }
    }
}

/// The outcome with its failure over mathematical texts.
pub open spec fn outcome<T>(r: Result<T, AutopilotTaskDagError>) -> Result<T, DagFailure> {
    match r {
        Ok(t) => Ok(t),
        Err(e) => Err(e@),
    }
}

// ---------------------------------------------------------------------------
// Field checks
// ---------------------------------------------------------------------------

pub open spec fn check_text(field: &'static str, s: Seq<char>) -> Result<(), DagFailure> {
    if s.len() == 0 {
        Err(AutopilotTaskDagError::EmptyField(field))
    } else if !is_line(s) {
        Err(AutopilotTaskDagError::InvalidText { field, value: s })
    } else {
        Ok(())
    }
}

pub open spec fn check_identifier(field: &'static str, s: Seq<char>) -> Result<(), DagFailure> {
    and_then(
        check_text(field, s),
        if is_identifier(s) {
            Ok(())
        } else {
            Err(AutopilotTaskDagError::InvalidIdentifier { field, value: s })
        },
    )
}

pub open spec fn check_identifiers(field: &'static str, items: Seq<Seq<char>>) -> Result<(), DagFailure> {
    check_all(items, |s: Seq<char>| check_identifier(field, s))
}

pub open spec fn check_path(field: &'static str, s: Seq<char>) -> Result<(), DagFailure> {
    if is_relative_path(s) {
        Ok(())
    } else {
        Err(AutopilotTaskDagError::InvalidPath { field, value: s })
    }
}

pub open spec fn check_paths(field: &'static str, items: Seq<Seq<char>>) -> Result<(), DagFailure> {
    check_all(items, |s: Seq<char>| check_path(field, s))
}

fn validate_text(field: &'static str, value: &str) -> (r: Result<(), AutopilotTaskDagError>)
    ensures
        outcome(r) == check_text(field, value@),
{
    if value.is_empty() {
        return Err(AutopilotTaskDagError::EmptyField(field));
    }
    if !line_ok(value) {
        return Err(AutopilotTaskDagError::InvalidText { field, value: value.to_owned() });
    }
    Ok(())
}

fn validate_identifier(field: &'static str, value: &str) -> (r: Result<(), AutopilotTaskDagError>)
    ensures
        outcome(r) == check_identifier(field, value@),
{
    validate_text(field, value)?;
    if !identifier_ok(value) {
        return Err(AutopilotTaskDagError::InvalidIdentifier { field, value: value.to_owned() });
    }
    Ok(())
}

fn validate_identifiers(field: &'static str, items: &[String]) -> (r: Result<(), AutopilotTaskDagError>)
    ensures
        outcome(r) == check_identifiers(field, texts(items@)),
{
    let ghost all = texts(items@);
    let ghost check = |s: Seq<char>| check_identifier(field, s);
    let mut i: usize = 0;
    assert(all.skip(0) =~= all);
    while i < items.len()
        invariant
            i <= items@.len(),
            all == texts(items@),
            check == (|s: Seq<char>| check_identifier(field, s)),
            check_all(all, check) == check_all(all.skip(i as int), check),
        decreases items@.len() - i,
    {
        proof {
            lemma_check_step(all, i as int, check);
        }
        validate_identifier(field, items[i].as_str())?;
        i += 1;
    }
    Ok(())
}

fn validate_relative_paths(field: &'static str, items: &[String]) -> (r: Result<(), AutopilotTaskDagError>)
    ensures
        outcome(r) == check_paths(field, texts(items@)),
{
    let ghost all = texts(items@);
    let ghost check = |s: Seq<char>| check_path(field, s);
    let mut i: usize = 0;
    assert(all.skip(0) =~= all);
    while i < items.len()
        invariant
            i <= items@.len(),
            all == texts(items@),
            check == (|s: Seq<char>| check_path(field, s)),
            check_all(all, check) == check_all(all.skip(i as int), check),
        decreases items@.len() - i,
    {
        proof {
            lemma_check_step(all, i as int, check);
        }
        if !relative_path_ok(items[i].as_str()) {
            return Err(AutopilotTaskDagError::InvalidPath { field, value: items[i].clone() });
        }
        i += 1;
    }
    Ok(())
}

// ---------------------------------------------------------------------------
// Operations and allowances
// ---------------------------------------------------------------------------

#[derive(Debug, Clone, Copy, PartialEq, Eq, PartialOrd, Ord, Structural)]
pub enum TaskOperation {
    Create,
    ModifyExact,
    Delete,
    Rename,
}

impl TaskOperation {
    pub open spec fn name(self) -> Seq<char> {
        match self {
            TaskOperation::Create => "create"@,
            TaskOperation::ModifyExact => "modify_exact"@,
            TaskOperation::Delete => "delete"@,
            TaskOperation::Rename => "rename"@,
        }
    }

    pub fn as_str(self) -> (r: &'static str)
        ensures
            r@ == self.name(),
    {
        match self {
            TaskOperation::Create => "create",
            TaskOperation::ModifyExact => "modify_exact",
            TaskOperation::Delete => "delete",
            TaskOperation::Rename => "rename",
        }
    }

    pub open spec fn label_text(self) -> Seq<char> {
        match self {
            TaskOperation::Create => "Create"@,
            TaskOperation::ModifyExact => "ModifyExact"@,
            TaskOperation::Delete => "Delete"@,
            TaskOperation::Rename => "Rename"@,
        }
    }

    /// The name of the variant, for messages.
    pub fn label(self) -> (r: &'static str)
        ensures
            r@ == self.label_text(),
    {
        match self {
            TaskOperation::Create => "Create",
            TaskOperation::ModifyExact => "ModifyExact",
            TaskOperation::Delete => "Delete",
            TaskOperation::Rename => "Rename",
        }
    }
}

impl ToJson for TaskOperation {
    open spec fn json(&self) -> Value {
        Value::Str(self.name())
    }

    fn to_json(&self) -> (r: Json) {
        Json::text(self.as_str())
    }
}

/// The given operations, each once, in the order of their declaration.
pub open spec fn canonical_operations(given: Seq<TaskOperation>) -> Seq<TaskOperation> {
    keep_listed(
        seq![TaskOperation::Create, TaskOperation::ModifyExact, TaskOperation::Delete, TaskOperation::Rename],
        given,
    )
}

/// The elements of `all` that occur in `given`.
pub open spec fn keep_listed(all: Seq<TaskOperation>, given: Seq<TaskOperation>) -> Seq<TaskOperation>
    decreases all.len(),
{
    if all.len() == 0 {
        Seq::empty()
    } else if given.contains(all.last()) {
        keep_listed(all.drop_last(), given).push(all.last())
    } else {
        keep_listed(all.drop_last(), given)
    }
}

/// Whether an operation is listed.
pub fn has_operation(items: &[TaskOperation], wanted: TaskOperation) -> (r: bool)
    ensures
        r == items@.contains(wanted),
{
    let mut i: usize = 0;
    while i < items.len()
        invariant
            i <= items@.len(),
            forall|j: int| 0 <= j < i ==> items@[j] != wanted,
        decreases items@.len() - i,
    {
        if items[i] == wanted {
            return true;
        }
        i += 1;
    }
    false
}

fn arrange_operations(given: &[TaskOperation]) -> (r: Vec<TaskOperation>)
    ensures
        r@ == canonical_operations(given@),
{
    let all: [TaskOperation; 4] = [
        TaskOperation::Create,
        TaskOperation::ModifyExact,
        TaskOperation::Delete,
        TaskOperation::Rename,
    ];
    let mut out: Vec<TaskOperation> = Vec::new();
    let mut i: usize = 0;
    while i < 4
        invariant
            i <= 4,
            all@.len() == 4,
            out@ == keep_listed(all@.take(i as int), given@),
        decreases 4 - i,
    {
        let operation = all[i];
        proof {
            assert(all@.take(i + 1).drop_last() =~= all@.take(i as int));
            assert(all@.take(i + 1).last() == operation);
        }
        if has_operation(given, operation) {
            out.push(operation);
        }
        i += 1;
    }
    assert(all@.take(4) =~= seq![
        TaskOperation::Create,
        TaskOperation::ModifyExact,
        TaskOperation::Delete,
        TaskOperation::Rename,
    ]);
    out
}

/// Task-level edit scope. A repository can be present in the task's read/eval
/// subset without receiving an edit allowance.
#[derive(Debug, Clone, PartialEq, Eq, PartialOrd, Ord)]
pub struct TaskEditAllowance {
    repository_role: String,
    allowed_path_prefixes: Vec<String>,
    operations: Vec<TaskOperation>,
}

pub open spec fn check_allowance_fields(role: Seq<char>, prefixes: Seq<Seq<char>>, operations: nat) -> Result<(), DagFailure> {
    and_then(
        check_identifier("edit_allowance.repository_role", role),
        if prefixes.len() == 0 {
            Err(AutopilotTaskDagError::EmptyField("edit_allowance.allowed_path_prefixes"))
        } else if operations == 0 {
            Err(AutopilotTaskDagError::EmptyField("edit_allowance.operations"))
        } else {
            check_paths("edit_allowance.allowed_path_prefixes", prefixes)
        },
    )
}

impl TaskEditAllowance {
    pub closed spec fn role(&self) -> Seq<char> {
        self.repository_role@
    }

    pub closed spec fn prefixes(&self) -> Seq<Seq<char>> {
        texts(self.allowed_path_prefixes@)
    }

    pub closed spec fn permitted(&self) -> Seq<TaskOperation> {
        self.operations@
    }

    pub fn new(
        repository_role: impl IntoText,
        allowed_path_prefixes: Vec<String>,
        operations: Vec<TaskOperation>,
    ) -> (r: Result<Self, AutopilotTaskDagError>)
        ensures
            ({
                let check = check_allowance_fields(
                    repository_role.text(),
                    texts(allowed_path_prefixes@),
                    operations@.len(),
                );
                match r {
                    Ok(a) => {
                        &&& check is Ok
                        &&& a.role() == repository_role.text()
                        &&& a.prefixes() == canonical(texts(allowed_path_prefixes@))
                        &&& a.permitted() == canonical_operations(operations@)
                    },
                    Err(e) => check == Err::<(), DagFailure>(e@),
                }
            }),
    {
        let repository_role = repository_role.into_text();
        validate_identifier("edit_allowance.repository_role", repository_role.as_str())?;
        if allowed_path_prefixes.len() == 0 {
            return Err(AutopilotTaskDagError::EmptyField("edit_allowance.allowed_path_prefixes"));
        }
        if operations.len() == 0 {
            return Err(AutopilotTaskDagError::EmptyField("edit_allowance.operations"));
        }
        validate_relative_paths("edit_allowance.allowed_path_prefixes", allowed_path_prefixes.as_slice())?;
        let allowed_path_prefixes = canonical_texts(allowed_path_prefixes);
        let operations = arrange_operations(operations.as_slice());
        Ok(TaskEditAllowance { repository_role, allowed_path_prefixes, operations })
    }

    pub fn repository_role(&self) -> (r: &str)
        ensures
            r@ == self.role(),
    {
        self.repository_role.as_str()
    }

    pub fn allowed_path_prefixes(&self) -> (r: &[String])
        ensures
            texts(r@) == self.prefixes(),
    {
        self.allowed_path_prefixes.as_slice()
    }

    pub fn operations(&self) -> (r: &[TaskOperation])
        ensures
            r@ == self.permitted(),
    {
        self.operations.as_slice()
    }
}

/// Allowances are ordered by repository role.
impl Keyed for TaskEditAllowance {
    open spec fn key(&self) -> Key {
        seq![self.role()]
    }

    fn order_by_key(&self, other: &Self) -> (r: Order) {
        proof {
            reveal_with_fuel(key_order, 2);
        }
        order_texts(self.repository_role.as_str(), other.repository_role.as_str())
    }

    fn primary(&self) -> (r: &str) {
        self.repository_role.as_str()
    }
}

impl ToJson for TaskEditAllowance {
    open spec fn json(&self) -> Value {
        empty_obj().with("allowed_path_prefixes"@, text_array(self.prefixes())).with(
            "operations"@,
            array_json(self.permitted()),
        ).with("repository_role"@, Value::Str(self.role()))
    }

    fn to_json(&self) -> (r: Json) {
        let mut out = Json::obj();
        out.set("allowed_path_prefixes", Json::text_array(self.allowed_path_prefixes.as_slice()));
        out.set("operations", json_array(self.operations.as_slice()));
        out.set("repository_role", Json::Str(self.repository_role.clone()));
        out
    }
}

// ---------------------------------------------------------------------------
// Regimes, gates, budgets
// ---------------------------------------------------------------------------

#[derive(Debug, Clone, PartialEq, Eq)]
pub enum TaskRegime {
    Feature,
    Perf { benchmark_profile_id: String },
}

impl TaskRegime {
    pub open spec fn check(&self) -> Result<(), DagFailure> {
        match self {
            TaskRegime::Feature => Ok(()),
            TaskRegime::Perf { benchmark_profile_id } => check_identifier(
                "benchmark_profile_id",
                benchmark_profile_id@,
            ),
        }
    }

    pub fn feature() -> (r: Self)
        ensures
            r == TaskRegime::Feature,
    {
        TaskRegime::Feature
    }

    pub fn perf(benchmark_profile_id: impl IntoText) -> (r: Result<Self, AutopilotTaskDagError>)
        ensures
            ({
                let check = check_identifier("benchmark_profile_id", benchmark_profile_id.text());
                match r {
                    Ok(TaskRegime::Perf { benchmark_profile_id: id }) => check is Ok && id@ == benchmark_profile_id.text(),
                    Ok(_) => false,
                    Err(e) => check == Err::<(), DagFailure>(e@),
                }
            }),
    {
        let benchmark_profile_id = benchmark_profile_id.into_text();
        validate_identifier("benchmark_profile_id", benchmark_profile_id.as_str())?;
        Ok(TaskRegime::Perf { benchmark_profile_id })
    }

    fn validate(&self) -> (r: Result<(), AutopilotTaskDagError>)
        ensures
            outcome(r) == self.check(),
    {
        match self {
            TaskRegime::Feature => Ok(()),
            TaskRegime::Perf { benchmark_profile_id } => validate_identifier(
                "benchmark_profile_id",
                benchmark_profile_id.as_str(),
            ),
        }
    }
}

impl ToJson for TaskRegime {
    open spec fn json(&self) -> Value {
        match self {
            TaskRegime::Feature => empty_obj().with("kind"@, Value::Str("feature"@)),
            TaskRegime::Perf { benchmark_profile_id } => empty_obj().with(
                "benchmark_profile_id"@,
                Value::Str(benchmark_profile_id@),
            ).with("kind"@, Value::Str("perf"@)),
        }
    }

    fn to_json(&self) -> (r: Json) {
        let mut out = Json::obj();
        match self {
            TaskRegime::Feature => {
                out.set("kind", Json::text("feature"));
            },
            TaskRegime::Perf { benchmark_profile_id } => {
                out.set("benchmark_profile_id", Json::Str(benchmark_profile_id.clone()));
                out.set("kind", Json::text("perf"));
            },
        }
        out
    }
}

/// Base engineering gates are always required. Profiles can only add trusted
/// named gates; they cannot remove build/tests/parity/provenance/determinism/
/// resources/policy.
#[derive(Debug, Clone, PartialEq, Eq)]
pub struct HardGateProfile {
    additional_required_gates: Vec<String>,
}

/// The texts of the base gates.
pub open spec fn base_gates() -> Seq<Seq<char>> {
    seq![
        "build"@,
        "required_tests"@,
        "numerical_parity"@,
        "provenance"@,
        "deterministic_contract"@,
        "resource_budget"@,
        "policy_checks"@,
    ]
}

/// An additional gate has an identifier that names no base gate.
pub open spec fn check_gate(gate: Seq<char>) -> Result<(), DagFailure> {
    and_then(
        check_identifier("hard_gate_profile.additional_required_gates", gate),
        if base_gates().contains(gate) {
            Err(AutopilotTaskDagError::DuplicateHardGate(gate))
        } else {
            Ok(())
        },
    )
}

pub open spec fn check_gates(gates: Seq<Seq<char>>) -> Result<(), DagFailure> {
    check_all(gates, |g: Seq<char>| check_gate(g))
}

fn is_base_gate(gate: &str) -> (r: bool)
    ensures
        r == base_gates().contains(gate@),
{
    let mut i: usize = 0;
    while i < 7
        invariant
            i <= 7,
            forall|j: int| 0 <= j < i ==> #[trigger] base_gates()[j] != gate@,
        decreases 7 - i,
    {
        assert(BASE_HARD_GATES[i as int]@ == base_gates()[i as int]);
        if same_text(BASE_HARD_GATES[i], gate) {
            return true;
        }
        i += 1;
    }
    false
}

impl HardGateProfile {
    /// The gates beyond the base ones.
    pub closed spec fn additional(&self) -> Seq<Seq<char>> {
        texts(self.additional_required_gates@)
    }

    /// All required gates, the base ones first.
    pub open spec fn required(&self) -> Seq<Seq<char>> {
        base_gates() + self.additional()
    }

    pub fn engineering_strict() -> (r: Self)
        ensures
            r.additional() == Seq::<Seq<char>>::empty(),
    {
        let out = HardGateProfile { additional_required_gates: Vec::new() };
        assert(out.additional() =~= Seq::<Seq<char>>::empty());
        out
    }

    pub fn engineering_strict_with(additional_required_gates: Vec<String>) -> (r: Result<Self, AutopilotTaskDagError>)
        ensures
            match r {
                Ok(p) => check_gates(texts(additional_required_gates@)) is Ok && p.additional() == canonical(
                    texts(additional_required_gates@),
                ),
                Err(e) => check_gates(texts(additional_required_gates@)) == Err::<(), DagFailure>(e@),
            },
    {
        let ghost all = texts(additional_required_gates@);
        let ghost check = |g: Seq<char>| check_gate(g);
        let mut i: usize = 0;
        assert(all.skip(0) =~= all);
        while i < additional_required_gates.len()
            invariant
                i <= additional_required_gates@.len(),
                all == texts(additional_required_gates@),
                check == (|g: Seq<char>| check_gate(g)),
                check_all(all, check) == check_all(all.skip(i as int), check),
            decreases additional_required_gates@.len() - i,
        {
            proof {
                lemma_check_step(all, i as int, check);
            }
            let gate = additional_required_gates[i].as_str();
            validate_identifier("hard_gate_profile.additional_required_gates", gate)?;
            if is_base_gate(gate) {
                return Err(AutopilotTaskDagError::DuplicateHardGate(gate.to_owned()));
            }
            i += 1;
        }
        Ok(HardGateProfile { additional_required_gates: canonical_texts(additional_required_gates) })
    }

    pub fn required_gates(&self) -> (r: Vec<String>)
        ensures
            texts(r@) == self.required(),
    {
        let mut out: Vec<String> = Vec::new();
        let mut i: usize = 0;
        assert(texts(out@) =~= base_gates().take(0));
        while i < 7
            invariant
                i <= 7,
                texts(out@) == base_gates().take(i as int),
            decreases 7 - i,
        {
            broadcast use lemma_texts_push;
            assert(BASE_HARD_GATES[i as int]@ == base_gates()[i as int]);
            out.push(BASE_HARD_GATES[i].to_owned());
            i += 1;
            assert(texts(out@) =~= base_gates().take(i as int));
        }
        assert(base_gates().take(7) =~= base_gates());
        i = 0;
        assert(base_gates() + self.additional().take(0) =~= base_gates());
        while i < self.additional_required_gates.len()
            invariant
                i <= self.additional_required_gates@.len(),
                texts(out@) == base_gates() + self.additional().take(i as int),
            decreases self.additional_required_gates@.len() - i,
        {
            broadcast use lemma_texts_push;
            assert(self.additional()[i as int] == self.additional_required_gates@[i as int]@);
            out.push(self.additional_required_gates[i].clone());
            i += 1;
            assert(texts(out@) =~= base_gates() + self.additional().take(i as int));
        }
        assert(self.additional().take(i as int) =~= self.additional());
        out
    }
}

impl ToJson for HardGateProfile {
    open spec fn json(&self) -> Value {
        text_array(self.required())
    }

    fn to_json(&self) -> (r: Json) {
        Json::text_array(self.required_gates().as_slice())
    }
}

#[derive(Debug, Clone, Copy, PartialEq, Eq, Structural)]
pub struct TaskBudget {
    pub max_candidate_evaluations: u64,
    pub max_llm_steps: u64,
    pub max_wall_time_ms: u64,
    pub max_tokens: u64,
}

impl TaskBudget {
    pub fn new(max_candidate_evaluations: u64, max_llm_steps: u64, max_wall_time_ms: u64, max_tokens: u64) -> (r: Result<
        Self,
        AutopilotTaskDagError,
    >)
        ensures
            match r {
                Ok(b) => max_candidate_evaluations > 0 && max_llm_steps > 0 && max_wall_time_ms > 0 && max_tokens > 0
                    && b == (TaskBudget { max_candidate_evaluations, max_llm_steps, max_wall_time_ms, max_tokens }),
                Err(e) => (max_candidate_evaluations == 0 || max_llm_steps == 0 || max_wall_time_ms == 0 || max_tokens == 0)
                    && e@ == DagFailure::InvalidTaskBudget,
            },
    {
        if max_candidate_evaluations == 0 || max_llm_steps == 0 || max_wall_time_ms == 0 || max_tokens == 0 {
            return Err(AutopilotTaskDagError::InvalidTaskBudget);
        }
        Ok(TaskBudget { max_candidate_evaluations, max_llm_steps, max_wall_time_ms, max_tokens })
    }
}

impl ToJson for TaskBudget {
    open spec fn json(&self) -> Value {
        empty_obj().with(
            "max_candidate_evaluations"@,
            Value::Num(decimal(self.max_candidate_evaluations as nat)),
        ).with("max_llm_steps"@, Value::Num(decimal(self.max_llm_steps as nat))).with(
            "max_tokens"@,
            Value::Num(decimal(self.max_tokens as nat)),
        ).with("max_wall_time_ms"@, Value::Num(decimal(self.max_wall_time_ms as nat)))
    }

    fn to_json(&self) -> (r: Json) {
        let mut out = Json::obj();
        out.set("max_candidate_evaluations", Json::num(self.max_candidate_evaluations));
        out.set("max_llm_steps", Json::num(self.max_llm_steps));
        out.set("max_tokens", Json::num(self.max_tokens));
        out.set("max_wall_time_ms", Json::num(self.max_wall_time_ms));
        out
    }
}

/// Trusted host bounds that are not model-controlled spec content.
#[derive(Debug, Clone, Copy, PartialEq, Eq, Structural)]
pub struct TaskDagPolicy {
    pub max_tasks: usize,
    pub max_candidate_evaluations_per_task: u64,
    pub max_total_candidate_evaluations: u64,
}

impl TaskDagPolicy {
    pub fn new(max_tasks: usize, max_candidate_evaluations_per_task: u64, max_total_candidate_evaluations: u64) -> (r: Result<
        Self,
        AutopilotTaskDagError,
    >)
        ensures
            match r {
                Ok(p) => max_tasks > 0 && max_candidate_evaluations_per_task > 0 && max_total_candidate_evaluations > 0
                    && p == (TaskDagPolicy {
                    max_tasks,
                    max_candidate_evaluations_per_task,
                    max_total_candidate_evaluations,
                }),
                Err(e) => (max_tasks == 0 || max_candidate_evaluations_per_task == 0 || max_total_candidate_evaluations
                    == 0) && e@ == DagFailure::InvalidDagPolicy,
            },
    {
        if max_tasks == 0 || max_candidate_evaluations_per_task == 0 || max_total_candidate_evaluations == 0 {
            return Err(AutopilotTaskDagError::InvalidDagPolicy);
        }
        Ok(TaskDagPolicy { max_tasks, max_candidate_evaluations_per_task, max_total_candidate_evaluations })
    }
}

impl ToJson for TaskDagPolicy {
    open spec fn json(&self) -> Value {
        empty_obj().with("max_tasks"@, Value::Num(decimal(self.max_tasks as nat))).with(
            "max_candidate_evaluations_per_task"@,
            Value::Num(decimal(self.max_candidate_evaluations_per_task as nat)),
        ).with(
            "max_total_candidate_evaluations"@,
            Value::Num(decimal(self.max_total_candidate_evaluations as nat)),
        )
    }

    fn to_json(&self) -> (r: Json) {
        let mut out = Json::obj();
        out.set("max_tasks", Json::num(self.max_tasks as u64));
        out.set("max_candidate_evaluations_per_task", Json::num(self.max_candidate_evaluations_per_task));
        out.set("max_total_candidate_evaluations", Json::num(self.max_total_candidate_evaluations));
        out
    }
}

// ---------------------------------------------------------------------------
// Tasks
// ---------------------------------------------------------------------------

#[derive(Debug, Clone, PartialEq, Eq)]
pub struct AutopilotTaskDraft {
    pub id: String,
    pub description: String,
    pub regime: TaskRegime,
    pub repository_roles: Vec<String>,
    pub edit_allowances: Vec<TaskEditAllowance>,
    pub hard_gate_profile: HardGateProfile,
    pub budget: TaskBudget,
    pub dependencies: Vec<String>,
    pub done_criterion_id: String,
}

#[derive(Debug, Clone, PartialEq, Eq)]
pub struct AutopilotTask {
    pub(crate) id: String,
    pub(crate) description: String,
    pub(crate) regime: TaskRegime,
    pub(crate) repository_roles: Vec<String>,
    pub(crate) edit_allowances: Vec<TaskEditAllowance>,
    pub(crate) hard_gate_profile: HardGateProfile,
    pub budget: TaskBudget,
    pub(crate) dependencies: Vec<String>,
    pub(crate) done_criterion_id: String,
}

/// The contents over mathematical sequences.
pub ghost struct TaskRecord {
    pub id: Seq<char>,
    pub description: Seq<char>,
    pub regime: TaskRegime,
    pub repository_roles: Seq<String>,
    pub edit_allowances: Seq<TaskEditAllowance>,
    pub hard_gate_profile: HardGateProfile,
    pub budget: TaskBudget,
    pub dependencies: Seq<String>,
    pub done_criterion_id: Seq<char>,
}

impl AutopilotTask {
    pub open(crate) spec fn view(&self) -> TaskRecord {
        TaskRecord {
            id: self.id@,
            description: self.description@,
            regime: self.regime,
            repository_roles: self.repository_roles@,
            edit_allowances: self.edit_allowances@,
            hard_gate_profile: self.hard_gate_profile,
            budget: self.budget,
            dependencies: self.dependencies@,
            done_criterion_id: self.done_criterion_id@,
        }
    }
}

/// A dependency has an identifier and is not the task itself.
pub open spec fn check_dependency(id: Seq<char>, dependency: Seq<char>) -> Result<(), DagFailure> {
    and_then(
        check_identifier("task.dependencies", dependency),
        if dependency == id {
            Err(AutopilotTaskDagError::SelfDependency(id))
        } else {
            Ok(())
        },
    )
}

pub open spec fn check_dependencies(id: Seq<char>, dependencies: Seq<Seq<char>>) -> Result<(), DagFailure> {
    check_all(dependencies, |d: Seq<char>| check_dependency(id, d))
}

/// Whether a draft is a task, and why not.
pub open spec fn check_task_draft(draft: AutopilotTaskDraft) -> Result<(), DagFailure> {
    and_then(
        check_identifier("task.id", draft.id@),
        and_then(
            check_text("task.description", draft.description@),
            and_then(
                draft.regime.check(),
                and_then(
                    check_identifier("task.done_criterion_id", draft.done_criterion_id@),
                    if draft.repository_roles@.len() == 0 {
                        Err(AutopilotTaskDagError::EmptyField("task.repository_roles"))
                    } else {
                        and_then(
                            check_identifiers("task.repository_roles", texts(draft.repository_roles@)),
                            match adjacent_duplicate(sorted(keys(draft.edit_allowances@))) {
                                Some(role) => Err(AutopilotTaskDagError::DuplicateEditAllowance(role)),
                                None => check_dependencies(draft.id@, texts(draft.dependencies@)),
                            },
                        )
                    },
                ),
            ),
        ),
    )
}

fn validate_dependencies(id: &str, dependencies: &[String]) -> (r: Result<(), AutopilotTaskDagError>)
    ensures
        outcome(r) == check_dependencies(id@, texts(dependencies@)),
{
    let ghost all = texts(dependencies@);
    let ghost check = |d: Seq<char>| check_dependency(id@, d);
    let mut i: usize = 0;
    assert(all.skip(0) =~= all);
    while i < dependencies.len()
        invariant
            i <= dependencies@.len(),
            all == texts(dependencies@),
            check == (|d: Seq<char>| check_dependency(id@, d)),
            check_all(all, check) == check_all(all.skip(i as int), check),
        decreases dependencies@.len() - i,
    {
        proof {
            lemma_check_step(all, i as int, check);
        }
        validate_identifier("task.dependencies", dependencies[i].as_str())?;
        if same_text(dependencies[i].as_str(), id) {
            return Err(AutopilotTaskDagError::SelfDependency(id.to_owned()));
        }
        i += 1;
    }
    Ok(())
}

impl AutopilotTask {
    pub fn new(draft: AutopilotTaskDraft) -> (r: Result<Self, AutopilotTaskDagError>)
        ensures
            match r {
                Ok(task) => {
                    &&& check_task_draft(draft) is Ok
                    &&& task@.id == draft.id@
                    &&& task@.description == draft.description@
                    &&& task@.regime == draft.regime
                    &&& texts(task@.repository_roles) == canonical(texts(draft.repository_roles@))
                    &&& task@.edit_allowances == arranged(draft.edit_allowances@)
                    &&& is_sorted_of(task@.edit_allowances, draft.edit_allowances@)
                    &&& task@.hard_gate_profile == draft.hard_gate_profile
                    &&& task@.budget == draft.budget
                    &&& texts(task@.dependencies) == canonical(texts(draft.dependencies@))
                    &&& is_canonical(texts(task@.dependencies), texts(draft.dependencies@))
                    &&& task@.done_criterion_id == draft.done_criterion_id@
                },
                Err(e) => check_task_draft(draft) == Err::<(), DagFailure>(e@),
            },
    {
        validate_identifier("task.id", draft.id.as_str())?;
        validate_text("task.description", draft.description.as_str())?;
        draft.regime.validate()?;
        validate_identifier("task.done_criterion_id", draft.done_criterion_id.as_str())?;
        if draft.repository_roles.len() == 0 {
            return Err(AutopilotTaskDagError::EmptyField("task.repository_roles"));
        }
        validate_identifiers("task.repository_roles", draft.repository_roles.as_slice())?;
        let repository_roles = canonical_texts(draft.repository_roles);
        let edit_allowances = sort_records(draft.edit_allowances);
        match find_adjacent_duplicate(edit_allowances.as_slice()) {
            Some(role) => {
                return Err(AutopilotTaskDagError::DuplicateEditAllowance(role.to_owned()));
            },
            None => {},
        }
        proof {
            lemma_arranged(edit_allowances@, draft.edit_allowances@);
        }
        validate_dependencies(draft.id.as_str(), draft.dependencies.as_slice())?;
        let dependencies = canonical_texts(draft.dependencies);
        Ok(
            AutopilotTask {
                id: draft.id,
                description: draft.description,
                regime: draft.regime,
                repository_roles,
                edit_allowances,
                hard_gate_profile: draft.hard_gate_profile,
                budget: draft.budget,
                dependencies,
                done_criterion_id: draft.done_criterion_id,
            },
        )
    }

    pub fn id(&self) -> (r: &str)
        ensures
            r@ == self@.id,
    {
        self.id.as_str()
    }

    pub fn description(&self) -> (r: &str)
        ensures
            r@ == self@.description,
    {
        self.description.as_str()
    }

    pub fn regime(&self) -> (r: &TaskRegime)
        ensures
            *r == self@.regime,
    {
        &self.regime
    }

    pub fn repository_roles(&self) -> (r: &[String])
        ensures
            r@ == self@.repository_roles,
    {
        self.repository_roles.as_slice()
    }

    pub fn edit_allowances(&self) -> (r: &[TaskEditAllowance])
        ensures
            r@ == self@.edit_allowances,
    {
        self.edit_allowances.as_slice()
    }

    pub fn hard_gate_profile(&self) -> (r: &HardGateProfile)
        ensures
            *r == self@.hard_gate_profile,
    {
        &self.hard_gate_profile
    }

    pub fn budget(&self) -> (r: TaskBudget)
        ensures
            r == self@.budget,
    {
        self.budget
    }

    pub fn dependencies(&self) -> (r: &[String])
        ensures
            r@ == self@.dependencies,
    {
        self.dependencies.as_slice()
    }

    pub fn done_criterion_id(&self) -> (r: &str)
        ensures
            r@ == self@.done_criterion_id,
    {
        self.done_criterion_id.as_str()
    }
}

/// Tasks are ordered by identifier.
impl Keyed for AutopilotTask {
    open spec fn key(&self) -> Key {
        seq![self@.id]
    }

    fn order_by_key(&self, other: &Self) -> (r: Order) {
        proof {
            reveal_with_fuel(key_order, 2);
        }
        order_texts(self.id.as_str(), other.id.as_str())
    }

    fn primary(&self) -> (r: &str) {
        self.id.as_str()
    }
}

impl ToJson for AutopilotTask {
    open spec fn json(&self) -> Value {
        empty_obj().with("budget"@, self@.budget.json()).with(
            "dependencies"@,
            text_array(texts(self@.dependencies)),
        ).with("description"@, Value::Str(self@.description)).with(
            "done_criterion_id"@,
            Value::Str(self@.done_criterion_id),
        ).with("edit_allowances"@, array_json(self@.edit_allowances)).with(
            "hard_gates"@,
            self@.hard_gate_profile.json(),
        ).with("id"@, Value::Str(self@.id)).with("regime"@, self@.regime.json()).with(
            "repository_roles"@,
            text_array(texts(self@.repository_roles)),
        )
    }

    fn to_json(&self) -> (r: Json) {
        let mut out = Json::obj();
        out.set("budget", self.budget.to_json());
        out.set("dependencies", Json::text_array(self.dependencies.as_slice()));
        out.set("description", Json::Str(self.description.clone()));
        out.set("done_criterion_id", Json::Str(self.done_criterion_id.clone()));
        out.set("edit_allowances", json_array(self.edit_allowances.as_slice()));
        out.set("hard_gates", self.hard_gate_profile.to_json());
        out.set("id", Json::Str(self.id.clone()));
        out.set("regime", self.regime.to_json());
        out.set("repository_roles", Json::text_array(self.repository_roles.as_slice()));
        out
    }
}

// ---------------------------------------------------------------------------
// Scope of a task
// ---------------------------------------------------------------------------

/// The last scope with the given role.
pub open spec fn find_scope(scopes: Seq<RepositoryScope>, role: Seq<char>) -> Option<RepositoryScope>
    decreases scopes.len(),
{
    if scopes.len() == 0 {
        None
    } else if scopes.last().role@ == role {
        Some(scopes.last())
    } else {
        find_scope(scopes.drop_last(), role)
    }
}

/// The last criterion with the given identifier.
pub open spec fn find_criterion(criteria: Seq<AcceptanceCriterion>, id: Seq<char>) -> Option<AcceptanceCriterion>
    decreases criteria.len(),
{
    if criteria.len() == 0 {
        None
    } else if criteria.last().id@ == id {
        Some(criteria.last())
    } else {
        find_criterion(criteria.drop_last(), id)
    }
}

pub open spec fn check_role(scopes: Seq<RepositoryScope>, task_id: Seq<char>, role: Seq<char>) -> Result<(), DagFailure> {
    if find_scope(scopes, role) is Some {
        Ok(())
    } else {
        Err(AutopilotTaskDagError::UnknownRepositoryRole { task_id, repository_role: role })
    }
}

/// A path prefix of a task lies within the frozen prefixes of its role.
pub open spec fn check_prefix(frozen: Seq<Seq<char>>, task_id: Seq<char>, role: Seq<char>, prefix: Seq<char>) -> Result<(), DagFailure> {
    if is_within_any(prefix, frozen) {
        Ok(())
    } else {
        Err(AutopilotTaskDagError::PathOutsideFrozenScope { task_id, repository_role: role, path_prefix: prefix })
    }
}

/// An edit allowance narrows the frozen scope of one of the task's roles.
pub open spec fn check_allowance(
    scopes: Seq<RepositoryScope>,
    task_id: Seq<char>,
    roles: Seq<Seq<char>>,
    allowance: TaskEditAllowance,
) -> Result<(), DagFailure> {
    let role = allowance.role();
    if !roles.contains(role) {
        Err(AutopilotTaskDagError::EditRoleOutsideTaskSubset { task_id, repository_role: role })
    } else {
        match find_scope(scopes, role) {
            None => Err(AutopilotTaskDagError::UnknownRepositoryRole { task_id, repository_role: role }),
            Some(scope) => check_all(
                allowance.prefixes(),
                |p: Seq<char>| check_prefix(texts(scope.allowed_path_prefixes@), task_id, role, p),
            ),
        }
    }
}

/// The done criterion exists and is about one of the task's roles.
pub open spec fn check_done(criteria: Seq<AcceptanceCriterion>, task: AutopilotTask) -> Result<(), DagFailure> {
    match find_criterion(criteria, task@.done_criterion_id) {
        None => Err(
            AutopilotTaskDagError::UnknownDoneCriterion {
                task_id: task@.id,
                criterion_id: task@.done_criterion_id,
            },
        ),
        Some(c) => if texts(task@.repository_roles).contains(c.check.role()) {
            Ok(())
        } else {
            Err(
                AutopilotTaskDagError::DoneCriterionOutsideTaskSubset {
                    task_id: task@.id,
                    criterion_id: task@.done_criterion_id,
                    repository_role: c.check.role(),
                },
            )
        },
    }
}

/// A task stays inside the frozen scope.
pub open spec fn check_task_scope(spec: FrozenAutopilotSpec, task: AutopilotTask) -> Result<(), DagFailure> {
    and_then(
        check_all(
            texts(task@.repository_roles),
            |r: Seq<char>| check_role(spec@.repository_scope, task@.id, r),
        ),
        and_then(
            check_all(
                task@.edit_allowances,
                |a: TaskEditAllowance|
                    check_allowance(
                        spec@.repository_scope,
                        task@.id,
                        texts(task@.repository_roles),
                        a,
                    ),
            ),
            check_done(spec@.acceptance_criteria, task),
        ),
    )
}

pub fn scope_for<'a>(scopes: &'a [RepositoryScope], role: &str) -> (r: Option<&'a RepositoryScope>)
    ensures
        match r {
            Some(s) => find_scope(scopes@, role@) == Some(*s),
            None => find_scope(scopes@, role@) is None,
        },
{
    let mut i: usize = scopes.len();
    assert(scopes@.take(i as int) =~= scopes@);
    while i > 0
        invariant
            i <= scopes@.len(),
            find_scope(scopes@, role@) == find_scope(scopes@.take(i as int), role@),
        decreases i,
    {
        assert(scopes@.take(i as int).drop_last() =~= scopes@.take(i - 1));
        if same_text(scopes[i - 1].role.as_str(), role) {
            return Some(&scopes[i - 1]);
        }
        i -= 1;
    }
    None
}

fn criterion_for<'a>(criteria: &'a [AcceptanceCriterion], id: &str) -> (r: Option<&'a AcceptanceCriterion>)
    ensures
        match r {
            Some(c) => find_criterion(criteria@, id@) == Some(*c),
            None => find_criterion(criteria@, id@) is None,
        },
{
    let mut i: usize = criteria.len();
    assert(criteria@.take(i as int) =~= criteria@);
    while i > 0
        invariant
            i <= criteria@.len(),
            find_criterion(criteria@, id@) == find_criterion(criteria@.take(i as int), id@),
        decreases i,
    {
        assert(criteria@.take(i as int).drop_last() =~= criteria@.take(i - 1));
        if same_text(criteria[i - 1].id.as_str(), id) {
            return Some(&criteria[i - 1]);
        }
        i -= 1;
    }
    None
}

fn validate_roles(task: &AutopilotTask, spec: &FrozenAutopilotSpec) -> (r: Result<(), AutopilotTaskDagError>)
    ensures
        outcome(r) == check_all(
            texts(task.repository_roles@),
            |r: Seq<char>| check_role(spec.repository_scope@, task.id@, r),
        ),
{
    let ghost all = texts(task.repository_roles@);
    let ghost check = |r: Seq<char>| check_role(spec.repository_scope@, task.id@, r);
    let mut i: usize = 0;
    assert(all.skip(0) =~= all);
    while i < task.repository_roles.len()
        invariant
            i <= task.repository_roles@.len(),
            all == texts(task.repository_roles@),
            check == (|r: Seq<char>| check_role(spec.repository_scope@, task.id@, r)),
            check_all(all, check) == check_all(all.skip(i as int), check),
        decreases task.repository_roles@.len() - i,
    {
        proof {
            lemma_check_step(all, i as int, check);
        }
        let role = task.repository_roles[i].as_str();
        if scope_for(spec.repository_scope.as_slice(), role).is_none() {
            return Err(
                AutopilotTaskDagError::UnknownRepositoryRole {
                    task_id: task.id.clone(),
                    repository_role: role.to_owned(),
                },
            );
        }
        i += 1;
    }
    Ok(())
}

fn validate_allowance(task: &AutopilotTask, allowance: &TaskEditAllowance, spec: &FrozenAutopilotSpec) -> (r: Result<
    (),
    AutopilotTaskDagError,
>)
    ensures
        outcome(r) == check_allowance(
            spec.repository_scope@,
            task.id@,
            texts(task.repository_roles@),
            *allowance,
        ),
{
    let role = allowance.repository_role();
    if !contains_text(task.repository_roles.as_slice(), role) {
        return Err(
            AutopilotTaskDagError::EditRoleOutsideTaskSubset {
                task_id: task.id.clone(),
                repository_role: role.to_owned(),
            },
        );
    }
    let scope = match scope_for(spec.repository_scope.as_slice(), role) {
        Some(s) => s,
        None => {
            return Err(
                AutopilotTaskDagError::UnknownRepositoryRole {
                    task_id: task.id.clone(),
                    repository_role: role.to_owned(),
                },
            );
        },
    };
    let prefixes = allowance.allowed_path_prefixes();
    let ghost frozen = texts(scope.allowed_path_prefixes@);
    let ghost all = allowance.prefixes();
    let ghost check = |p: Seq<char>| check_prefix(frozen, task.id@, role@, p);
    let mut i: usize = 0;
    assert(all.skip(0) =~= all);
    while i < prefixes.len()
        invariant
            i <= prefixes@.len(),
            all == texts(prefixes@),
            all == allowance.prefixes(),
            role@ == allowance.role(),
            texts(task.repository_roles@).contains(role@),
            find_scope(spec.repository_scope@, role@) == Some(*scope),
            frozen == texts(scope.allowed_path_prefixes@),
            check == (|p: Seq<char>| check_prefix(frozen, task.id@, role@, p)),
            check_all(all, check) == check_all(all.skip(i as int), check),
        decreases prefixes@.len() - i,
    {
        proof {
            lemma_check_step(all, i as int, check);
        }
        if !path_is_within_any(prefixes[i].as_str(), scope.allowed_path_prefixes.as_slice()) {
            return Err(
                AutopilotTaskDagError::PathOutsideFrozenScope {
                    task_id: task.id.clone(),
                    repository_role: role.to_owned(),
                    path_prefix: prefixes[i].clone(),
                },
            );
        }
        i += 1;
    }
    Ok(())
}

fn validate_allowances(task: &AutopilotTask, spec: &FrozenAutopilotSpec) -> (r: Result<(), AutopilotTaskDagError>)
    ensures
        outcome(r) == check_all(
            task.edit_allowances@,
            |a: TaskEditAllowance|
                check_allowance(spec.repository_scope@, task.id@, texts(task.repository_roles@), a),
        ),
{
    let ghost all = task.edit_allowances@;
    let ghost check = |a: TaskEditAllowance|
        check_allowance(spec.repository_scope@, task.id@, texts(task.repository_roles@), a);
    let mut i: usize = 0;
    assert(all.skip(0) =~= all);
    while i < task.edit_allowances.len()
        invariant
            i <= task.edit_allowances@.len(),
            all == task.edit_allowances@,
            check == (|a: TaskEditAllowance|
                check_allowance(spec.repository_scope@, task.id@, texts(task.repository_roles@), a)),
            check_all(all, check) == check_all(all.skip(i as int), check),
        decreases task.edit_allowances@.len() - i,
    {
        proof {
            lemma_check_step(all, i as int, check);
        }
        validate_allowance(task, &task.edit_allowances[i], spec)?;
        i += 1;
    }
    Ok(())
}

fn validate_task_scope(task: &AutopilotTask, spec: &FrozenAutopilotSpec) -> (r: Result<(), AutopilotTaskDagError>)
    ensures
        outcome(r) == check_task_scope(*spec, *task),
{
    validate_roles(task, spec)?;
    validate_allowances(task, spec)?;
    let criterion = match criterion_for(spec.acceptance_criteria.as_slice(), task.done_criterion_id.as_str()) {
        Some(c) => c,
        None => {
            return Err(
                AutopilotTaskDagError::UnknownDoneCriterion {
                    task_id: task.id.clone(),
                    criterion_id: task.done_criterion_id.clone(),
                },
            );
        },
    };
    let role = criterion.check.repository_role();
    if !contains_text(task.repository_roles.as_slice(), role) {
        return Err(
            AutopilotTaskDagError::DoneCriterionOutsideTaskSubset {
                task_id: task.id.clone(),
                criterion_id: task.done_criterion_id.clone(),
                repository_role: role.to_owned(),
            },
        );
    }
    Ok(())
}

// ---------------------------------------------------------------------------
// Budgets
// ---------------------------------------------------------------------------

/// What the tasks of a graph may use up together.
pub struct Totals {
    pub candidate_evaluations: int,
    pub llm_steps: int,
    pub wall_time_ms: int,
    pub tokens: int,
}

pub open spec fn no_totals() -> Totals {
    Totals { candidate_evaluations: 0, llm_steps: 0, wall_time_ms: 0, tokens: 0 }
}

impl Totals {
    pub open spec fn plus(self, b: TaskBudget) -> Totals {
        Totals {
            candidate_evaluations: self.candidate_evaluations + b.max_candidate_evaluations,
            llm_steps: self.llm_steps + b.max_llm_steps,
            wall_time_ms: self.wall_time_ms + b.max_wall_time_ms,
            tokens: self.tokens + b.max_tokens,
        }
    }

    /// Every total fits 64 bits.
    pub open spec fn check_size(self) -> Result<(), DagFailure> {
        if self.candidate_evaluations > u64::MAX {
            Err(AutopilotTaskDagError::BudgetOverflow("candidate_evaluations"))
        } else if self.llm_steps > u64::MAX {
            Err(AutopilotTaskDagError::BudgetOverflow("llm_steps"))
        } else if self.wall_time_ms > u64::MAX {
            Err(AutopilotTaskDagError::BudgetOverflow("wall_time_ms"))
        } else if self.tokens > u64::MAX {
            Err(AutopilotTaskDagError::BudgetOverflow("tokens"))
        } else {
            Ok(())
        }
    }
}

/// The totals of a list of tasks.
pub open spec fn totals(tasks: Seq<AutopilotTask>) -> Totals
    decreases tasks.len(),
{
    if tasks.len() == 0 {
        no_totals()
    } else {
        totals(tasks.drop_last()).plus(tasks.last()@.budget)
    }
}

/// The identifiers of a list of tasks.
pub open spec fn task_ids(tasks: Seq<AutopilotTask>) -> Seq<Seq<char>> {
    tasks.map_values(|t: AutopilotTask| t@.id)
}

/// A dependency names a task of the graph.
pub open spec fn check_known(ids: Seq<Seq<char>>, task_id: Seq<char>, dependency: Seq<char>) -> Result<(), DagFailure> {
    if ids.contains(dependency) {
        Ok(())
    } else {
        Err(AutopilotTaskDagError::UnknownDependency { task_id, dependency })
    }
}

/// One task of a graph: inside the scope, with known dependencies, within the
/// evaluation limit.
pub open spec fn check_task(
    spec: FrozenAutopilotSpec,
    ids: Seq<Seq<char>>,
    policy: TaskDagPolicy,
    task: AutopilotTask,
) -> Result<(), DagFailure> {
    and_then(
        check_task_scope(spec, task),
        and_then(
            check_all(texts(task@.dependencies), |d: Seq<char>| check_known(ids, task@.id, d)),
            if task@.budget.max_candidate_evaluations > policy.max_candidate_evaluations_per_task {
                Err(
                    AutopilotTaskDagError::CandidateEvaluationLimitExceeded {
                        task_id: task@.id,
                        actual: task@.budget.max_candidate_evaluations,
                        maximum: policy.max_candidate_evaluations_per_task,
                    },
                )
            } else {
                Ok(())
            },
        ),
    )
}

/// The tasks from position `i` on, one after the other, with the totals up to each.
pub open spec fn check_tasks(spec: FrozenAutopilotSpec, tasks: Seq<AutopilotTask>, policy: TaskDagPolicy, i: int) -> Result<
    (),
    DagFailure,
>
    decreases tasks.len() - i,
{
    if i < 0 || i >= tasks.len() {
        Ok(())
    } else {
        and_then(
            check_task(spec, task_ids(tasks), policy, tasks[i]),
            and_then(
                totals(tasks.take(i + 1)).check_size(),
                check_tasks(spec, tasks, policy, i + 1),
            ),
        )
    }
}

pub open spec fn check_total(field: &'static str, actual: int, maximum: u64) -> Result<(), DagFailure> {
    if actual > maximum {
        Err(AutopilotTaskDagError::ObjectiveBudgetExceeded { field, actual: actual as u64, maximum })
    } else {
        Ok(())
    }
}

/// The tasks together stay within the budget of the objective.
pub open spec fn check_objective_budget(budget: SpecBudget, t: Totals) -> Result<(), DagFailure> {
    and_then(
        check_total("llm_steps", t.llm_steps, budget.max_llm_steps),
        and_then(
            check_total("wall_time_ms", t.wall_time_ms, budget.max_wall_time_ms),
            check_total("tokens", t.tokens, budget.max_tokens),
        ),
    )
}

fn checked_budget_add(field: &'static str, left: u64, right: u64) -> (r: Result<u64, AutopilotTaskDagError>)
    ensures
        match r {
            Ok(sum) => sum == left + right,
            Err(e) => left + right > u64::MAX && e@ == DagFailure::BudgetOverflow(field),
        },
{
    match left.checked_add(right) {
        Some(sum) => Ok(sum),
        None => Err(AutopilotTaskDagError::BudgetOverflow(field)),
    }
}

fn validate_total(field: &'static str, actual: u64, maximum: u64) -> (r: Result<(), AutopilotTaskDagError>)
    ensures
        outcome(r) == check_total(field, actual as int, maximum),
{
    if actual > maximum {
        return Err(AutopilotTaskDagError::ObjectiveBudgetExceeded { field, actual, maximum });
    }
    Ok(())
}

fn validate_objective_budget(budget: SpecBudget, llm_steps: u64, wall_time_ms: u64, tokens: u64) -> (r: Result<
    (),
    AutopilotTaskDagError,
>)
    ensures
        outcome(r) == check_objective_budget(
            budget,
            Totals {
                candidate_evaluations: 0,
                llm_steps: llm_steps as int,
                wall_time_ms: wall_time_ms as int,
                tokens: tokens as int,
            },
        ),
{
    validate_total("llm_steps", llm_steps, budget.max_llm_steps)?;
    validate_total("wall_time_ms", wall_time_ms, budget.max_wall_time_ms)?;
    validate_total("tokens", tokens, budget.max_tokens)?;
    Ok(())
}

// ---------------------------------------------------------------------------
// Order
// ---------------------------------------------------------------------------

/// The steps of a task graph.
pub open spec fn steps(tasks: Seq<AutopilotTask>) -> Seq<Step> {
    tasks.map_values(|t: AutopilotTask| Step { id: t@.id, dependencies: texts(t@.dependencies) })
}

/// All tasks can be scheduled; otherwise the tasks that cannot are reported.
pub open spec fn check_order(tasks: Seq<AutopilotTask>) -> Result<(), DagFailure> {
    let order = schedule(steps(tasks));
    if order.len() == tasks.len() {
        Ok(())
    } else {
        Err(AutopilotTaskDagError::CycleDetected(left_out(steps(tasks), order)))
    }
}

fn task_is_ready(task: &AutopilotTask, done: &[String]) -> (r: bool)
    ensures
        r == is_ready(Step { id: task.id@, dependencies: texts(task.dependencies@) }, texts(done@)),
{
    let ghost finished = texts(done@);
    let ghost needed = texts(task.dependencies@);
    let ghost step = Step { id: task.id@, dependencies: needed };
    if contains_text(done, task.id.as_str()) {
        return false;
    }
    let mut i: usize = 0;
    while i < task.dependencies.len()
        invariant
            i <= task.dependencies@.len(),
            finished == texts(done@),
            needed == texts(task.dependencies@),
            step == (Step { id: task.id@, dependencies: needed }),
            forall|j: int| 0 <= j < i ==> finished.contains(#[trigger] needed[j]),
        decreases task.dependencies@.len() - i,
    {
        assert(needed[i as int] == task.dependencies@[i as int]@);
        if !contains_text(done, task.dependencies[i].as_str()) {
            assert(!finished.contains(step.dependencies[i as int]));
            return false;
        }
        i += 1;
    }
    true
}

/// The ready task with the smallest identifier.
fn find_ready(tasks: &[AutopilotTask], done: &[String]) -> (r: Option<usize>)
    ensures
        match r {
            Some(k) => k < tasks@.len() && next_ready(steps(tasks@), texts(done@)) == Some(tasks@[k as int]@.id),
            None => next_ready(steps(tasks@), texts(done@)) is None,
        },
{
    let ghost all = steps(tasks@);
    let ghost finished = texts(done@);
    let mut best: Option<usize> = None;
    let mut i: usize = 0;
    while i < tasks.len()
        invariant
            i <= tasks@.len(),
            all == steps(tasks@),
            finished == texts(done@),
            best is None ==> forall|j: int| 0 <= j < i ==> !is_ready(#[trigger] all[j], finished),
            best matches Some(k) ==> {
                &&& k < i
                &&& is_ready(all[k as int], finished)
                &&& forall|j: int|
                    0 <= j < i && is_ready(#[trigger] all[j], finished) ==> text_order(all[k as int].id, all[j].id)
                        != Order::Greater
            },
        decreases tasks@.len() - i,
    {
        assert(all[i as int] == (Step {
            id: tasks@[i as int].id@,
            dependencies: texts(tasks@[i as int].dependencies@),
        }));
        if task_is_ready(&tasks[i], done) {
            best = match best {
                None => {
                    proof {
                        lemma_text_order_equal(all[i as int].id, all[i as int].id);
                    }
                    Some(i)
                },
                Some(k) => {
                    proof {
                        lemma_smaller_comes_first(all, finished, k as int, i as int);
                    }
                    match order_texts(tasks[i].id.as_str(), tasks[k].id.as_str()) {
                        Order::Less => Some(i),
                        _ => Some(k),
                    }
                },
            };
        }
        i += 1;
    }
    proof {
        match best {
            Some(k) => {
                assert(is_next(all, finished, k as int));
                lemma_next_is_unique(all, finished, k as int);
            },
            None => {
                lemma_next_ready(all, finished);
            },
        }
    }
    best
}

/// A ready step with a smaller identifier than the smallest one so far takes its place.
proof fn lemma_smaller_comes_first(all: Seq<Step>, done: Seq<Seq<char>>, k: int, i: int)
    requires
        0 <= k < i < all.len(),
        forall|j: int|
            0 <= j < i && is_ready(#[trigger] all[j], done) ==> text_order(all[k].id, all[j].id) != Order::Greater,
    ensures
        text_order(all[i].id, all[k].id) == Order::Less ==> forall|j: int|
            0 <= j <= i && is_ready(#[trigger] all[j], done) ==> text_order(all[i].id, all[j].id) != Order::Greater,
        text_order(all[i].id, all[k].id) != Order::Less ==> text_order(all[k].id, all[i].id) != Order::Greater,
{
    lemma_text_order_flip(all[k].id, all[i].id);
    lemma_text_order_equal(all[i].id, all[i].id);
    if text_order(all[i].id, all[k].id) == Order::Less {
        assert forall|j: int| 0 <= j <= i && is_ready(#[trigger] all[j], done) implies text_order(all[i].id, all[j].id)
            != Order::Greater by {
            if j < i {
                lemma_text_order_equal(all[k].id, all[j].id);
                lemma_text_order_transitive(all[i].id, all[k].id, all[j].id);
            }
        }
    }
}

/// The order of the tasks, in whatever order they are listed.
fn topological_order(tasks: &[AutopilotTask]) -> (r: Result<Vec<String>, AutopilotTaskDagError>)
    requires
        distinct(steps(tasks@)),
    ensures
        match r {
            Ok(order) => check_order(tasks@) is Ok && texts(order@) == schedule(steps(tasks@)) && order@.len()
                == tasks@.len(),
            Err(e) => check_order(tasks@) == Err::<(), DagFailure>(e@),
        },
        r matches Err(AutopilotTaskDagError::CycleDetected(ids)) ==> strictly_ascending(texts(ids@)),
        known(steps(tasks@)) ==> (r is Err <==> exists|walk: Seq<Seq<char>>| #[trigger] closes(steps(tasks@), walk)),
        known(steps(tasks@)) ==> (r matches Err(AutopilotTaskDagError::CycleDetected(ids)) ==> forall|id: Seq<char>|
            #[trigger] texts(ids@).contains(id) <==> leads_to_cycle(steps(tasks@), id)),
{
    broadcast use lemma_texts_push;
    let ghost all = steps(tasks@);
    let mut order: Vec<String> = Vec::new();
    let mut blocked = false;
    assert(texts(order@) =~= Seq::empty());
    while !blocked && order.len() < tasks.len()
        invariant
            all == steps(tasks@),
            order@.len() <= tasks@.len(),
            run(all, texts(order@)) == schedule(all),
            blocked ==> next_ready(all, texts(order@)) is None,
        decreases
            tasks@.len() - order@.len(),
            if blocked {
                0int
            } else {
                1int
            },
    {
        broadcast use lemma_texts_push;
        match find_ready(tasks, order.as_slice()) {
            Some(k) => {
                order.push(tasks[k].id.clone());
            },
            None => {
                blocked = true;
            },
        }
    }
    assert(texts(order@) == schedule(all));
    proof {
        law_left_out_ascends(all, schedule(all));
        if known(all) {
            law_cycles_are_left_out(all);
        }
    }
    if order.len() != tasks.len() {
        let cyclic = tasks_left_out(tasks, order.as_slice());
        return Err(AutopilotTaskDagError::CycleDetected(cyclic));
    }
    Ok(order)
}

/// The identifiers of the tasks outside an order, in increasing order.
fn tasks_left_out(tasks: &[AutopilotTask], order: &[String]) -> (r: Vec<String>)
    ensures
        texts(r@) == left_out(steps(tasks@), texts(order@)),
{
    let ghost all = steps(tasks@);
    let ghost scheduled = texts(order@);
    let mut out: Vec<String> = Vec::new();
    let mut i: usize = 0;
    assert(texts(out@) =~= Seq::empty());
    while i < tasks.len()
        invariant
            i <= tasks@.len(),
            all == steps(tasks@),
            scheduled == texts(order@),
            texts(out@) == outside(all.take(i as int), scheduled),
        decreases tasks@.len() - i,
    {
        broadcast use lemma_texts_push;
        proof {
            assert(all.take(i + 1).drop_last() =~= all.take(i as int));
            assert(all.take(i + 1).last() == all[i as int]);
            assert(all[i as int].id == tasks@[i as int].id@);
        }
        if !contains_text(order, tasks[i].id.as_str()) {
            out.push(tasks[i].id.clone());
        }
        i += 1;
    }
    assert(all.take(i as int) =~= all);
    canonical_texts(out)
}

// ---------------------------------------------------------------------------
// The graph
// ---------------------------------------------------------------------------

#[derive(Debug, Clone, PartialEq, Eq)]
pub struct AutopilotTaskDag {
    pub(crate) schema_version: u64,
    pub(crate) spec_sha256: String,
    pub(crate) policy: TaskDagPolicy,
    pub(crate) tasks: Vec<AutopilotTask>,
    pub(crate) topological_order: Vec<String>,
    pub(crate) dag_sha256: String,
}

/// The contents over mathematical sequences.
pub ghost struct TaskDagRecord {
    pub schema_version: u64,
    pub spec_sha256: Seq<char>,
    pub policy: TaskDagPolicy,
    pub tasks: Seq<AutopilotTask>,
    pub topological_order: Seq<String>,
    pub dag_sha256: Seq<char>,
}

impl AutopilotTaskDag {
    pub open(crate) spec fn view(&self) -> TaskDagRecord {
        TaskDagRecord {
            schema_version: self.schema_version,
            spec_sha256: self.spec_sha256@,
            policy: self.policy,
            tasks: self.tasks@,
            topological_order: self.topological_order@,
            dag_sha256: self.dag_sha256@,
        }
    }
}

/// The failure reported for a specification that is not intact.
pub open spec fn broken_spec(spec: FrozenAutopilotSpec) -> DagFailure {
    AutopilotTaskDagError::InvalidFrozenSpec(spec.mismatch().message())
}

/// Whether a list of tasks is a graph under a specification, and why not.
pub open spec fn check_dag(spec: FrozenAutopilotSpec, tasks: Seq<AutopilotTask>, policy: TaskDagPolicy) -> Result<
    (),
    DagFailure,
> {
    if !spec.is_intact() {
        Err(broken_spec(spec))
    } else if tasks.len() == 0 {
        Err(AutopilotTaskDagError::EmptyField("tasks"))
    } else if tasks.len() > policy.max_tasks {
        Err(
            AutopilotTaskDagError::TaskLimitExceeded {
                actual: tasks.len() as usize,
                maximum: policy.max_tasks,
            },
        )
    } else {
        match adjacent_duplicate(sorted(keys(tasks))) {
            Some(id) => Err(AutopilotTaskDagError::DuplicateTask(id)),
            None => check_arranged(spec, arranged(tasks), policy),
        }
    }
}

/// Scope, dependencies and budgets of tasks in order of their identifiers.
pub open spec fn check_limits(spec: FrozenAutopilotSpec, tasks: Seq<AutopilotTask>, policy: TaskDagPolicy) -> Result<
    (),
    DagFailure,
> {
    let t = totals(tasks);
    and_then(
        check_tasks(spec, tasks, policy, 0),
        if t.candidate_evaluations > policy.max_total_candidate_evaluations {
            Err(
                AutopilotTaskDagError::TotalCandidateEvaluationLimitExceeded {
                    actual: t.candidate_evaluations as u64,
                    maximum: policy.max_total_candidate_evaluations,
                },
            )
        } else {
            check_objective_budget(spec@.budget, t)
        },
    )
}

/// The checks on tasks in order of their identifiers.
pub open spec fn check_arranged(spec: FrozenAutopilotSpec, tasks: Seq<AutopilotTask>, policy: TaskDagPolicy) -> Result<
    (),
    DagFailure,
> {
    and_then(check_limits(spec, tasks, policy), check_order(tasks))
}

fn validate_known(task: &AutopilotTask, tasks: &[AutopilotTask]) -> (r: Result<(), AutopilotTaskDagError>)
    ensures
        outcome(r) == check_all(
            texts(task@.dependencies),
            |d: Seq<char>| check_known(task_ids(tasks@), task@.id, d),
        ),
{
    let ghost ids = task_ids(tasks@);
    let ghost all = texts(task@.dependencies);
    let ghost check = |d: Seq<char>| check_known(ids, task@.id, d);
    let mut i: usize = 0;
    assert(all.skip(0) =~= all);
    while i < task.dependencies.len()
        invariant
            i <= task@.dependencies.len(),
            ids == task_ids(tasks@),
            all == texts(task@.dependencies),
            check == (|d: Seq<char>| check_known(ids, task@.id, d)),
            check_all(all, check) == check_all(all.skip(i as int), check),
        decreases task@.dependencies.len() - i,
    {
        proof {
            lemma_check_step(all, i as int, check);
        }
        if position_of(tasks, task.dependencies[i].as_str()).is_none() {
            return Err(
                AutopilotTaskDagError::UnknownDependency {
                    task_id: task.id.clone(),
                    dependency: task.dependencies[i].clone(),
                },
            );
        }
        i += 1;
    }
    Ok(())
}

fn position_of(tasks: &[AutopilotTask], id: &str) -> (r: Option<usize>)
    ensures
        match r {
            Some(k) => k < tasks@.len() && tasks@[k as int].id@ == id@ && forall|j: int|
                0 <= j < k ==> (#[trigger] tasks@[j]).id@ != id@,
            None => forall|j: int| 0 <= j < tasks@.len() ==> (#[trigger] tasks@[j]).id@ != id@,
        },
        r is Some == task_ids(tasks@).contains(id@),
{
    let ghost ids = task_ids(tasks@);
    let mut i: usize = 0;
    while i < tasks.len()
        invariant
            i <= tasks@.len(),
            ids == task_ids(tasks@),
            forall|j: int| 0 <= j < i ==> (#[trigger] tasks@[j]).id@ != id@,
        decreases tasks@.len() - i,
    {
        if same_text(tasks[i].id.as_str(), id) {
            assert(ids[i as int] == id@);
            return Some(i);
        }
        i += 1;
    }
    proof {
        if ids.contains(id@) {
            let k = choose|k: int| 0 <= k < ids.len() && ids[k] == id@;
            assert(tasks@[k].id@ == id@);
        }
    }
    None
}

fn validate_task(task: &AutopilotTask, tasks: &[AutopilotTask], spec: &FrozenAutopilotSpec, policy: &TaskDagPolicy) -> (r: Result<
    (),
    AutopilotTaskDagError,
>)
    ensures
        outcome(r) == check_task(*spec, task_ids(tasks@), *policy, *task),
{
    validate_task_scope(task, spec)?;
    validate_known(task, tasks)?;
    if task.budget.max_candidate_evaluations > policy.max_candidate_evaluations_per_task {
        return Err(
            AutopilotTaskDagError::CandidateEvaluationLimitExceeded {
                task_id: task.id.clone(),
                actual: task.budget.max_candidate_evaluations,
                maximum: policy.max_candidate_evaluations_per_task,
            },
        );
    }
    Ok(())
}

fn validate_tasks(tasks: &[AutopilotTask], spec: &FrozenAutopilotSpec, policy: &TaskDagPolicy) -> (r: Result<
    (),
    AutopilotTaskDagError,
>)
    ensures
        outcome(r) == check_limits(*spec, tasks@, *policy),
{
    let ghost all = tasks@;
    let mut evaluations: u64 = 0;
    let mut llm_steps: u64 = 0;
    let mut wall_time_ms: u64 = 0;
    let mut tokens: u64 = 0;
    let mut i: usize = 0;
    assert(all.take(0).len() == 0);
    while i < tasks.len()
        invariant
            i <= tasks@.len(),
            all == tasks@,
            check_tasks(*spec, all, *policy, 0) == check_tasks(*spec, all, *policy, i as int),
            totals(all.take(i as int)) == (Totals {
                candidate_evaluations: evaluations as int,
                llm_steps: llm_steps as int,
                wall_time_ms: wall_time_ms as int,
                tokens: tokens as int,
            }),
        decreases tasks@.len() - i,
    {
        let task = &tasks[i];
        proof {
            assert(all.take(i + 1).drop_last() =~= all.take(i as int));
            assert(all.take(i + 1).last() == *task);
        }
        validate_task(task, tasks, spec, policy)?;
        evaluations = checked_budget_add("candidate_evaluations", evaluations, task.budget.max_candidate_evaluations)?;
        llm_steps = checked_budget_add("llm_steps", llm_steps, task.budget.max_llm_steps)?;
        wall_time_ms = checked_budget_add("wall_time_ms", wall_time_ms, task.budget.max_wall_time_ms)?;
        tokens = checked_budget_add("tokens", tokens, task.budget.max_tokens)?;
        i += 1;
    }
    assert(all.take(i as int) =~= all);
    if evaluations > policy.max_total_candidate_evaluations {
        return Err(
            AutopilotTaskDagError::TotalCandidateEvaluationLimitExceeded {
                actual: evaluations,
                maximum: policy.max_total_candidate_evaluations,
            },
        );
    }
    validate_objective_budget(spec.budget, llm_steps, wall_time_ms, tokens)
}

impl AutopilotTaskDag {
    /// Everything but the identity, as JSON.
    pub open spec fn unsigned(&self) -> Value {
        empty_obj().with("policy"@, self@.policy.json()).with(
            "schema_version"@,
            Value::Num(decimal(self@.schema_version as nat)),
        ).with("spec_sha256"@, Value::Str(self@.spec_sha256)).with("tasks"@, array_json(self@.tasks)).with(
            "topological_order"@,
            text_array(texts(self@.topological_order)),
        )
    }

    /// The digest of everything but the identity.
    pub open spec fn identity(&self) -> Seq<char> {
        digest_hex(encode_utf8(print(self.unsigned())))
    }

    /// The recorded identity is the digest of the contents.
    pub open spec fn is_intact(&self) -> bool {
        self@.dag_sha256 == self.identity()
    }

    /// Every task stays inside the frozen scope, and the tasks together stay within
    /// the budget of the objective and the limits of the policy.
    pub open spec fn is_contained_in(&self, spec: FrozenAutopilotSpec) -> bool {
        &&& forall|i: int|
            0 <= i < self@.tasks.len() ==> check_task_scope(spec, #[trigger] self@.tasks[i]) is Ok
        &&& totals(self@.tasks).llm_steps <= spec@.budget.max_llm_steps
        &&& totals(self@.tasks).wall_time_ms <= spec@.budget.max_wall_time_ms
        &&& totals(self@.tasks).tokens <= spec@.budget.max_tokens
        &&& totals(self@.tasks).candidate_evaluations <= self@.policy.max_total_candidate_evaluations
        &&& self@.tasks.len() <= self@.policy.max_tasks
    }

    /// The recorded order lists every task once, each after its dependencies.
    pub open spec fn is_ordered(&self) -> bool {
        &&& respects(steps(self@.tasks), texts(self@.topological_order))
        &&& covers(steps(self@.tasks), texts(self@.topological_order))
        &&& self@.topological_order.len() == self@.tasks.len()
    }

    /// The graph of the given tasks under a specification.
    pub fn new(spec: &FrozenAutopilotSpec, tasks: Vec<AutopilotTask>, policy: TaskDagPolicy) -> (r: Result<
        Self,
        AutopilotTaskDagError,
    >)
        ensures
            match r {
                Ok(dag) => {
                    &&& check_dag(*spec, tasks@, policy) is Ok
                    &&& dag@.schema_version == AUTOPILOT_TASK_DAG_SCHEMA_VERSION
                    &&& dag@.spec_sha256 == spec@.spec_sha256
                    &&& dag@.policy == policy
                    &&& dag@.tasks == arranged(tasks@)
                    &&& is_sorted_of(dag@.tasks, tasks@)
                    &&& distinct(steps(dag@.tasks))
                    &&& texts(dag@.topological_order) == schedule(steps(dag@.tasks))
                    &&& dag.is_intact()
                    &&& dag.is_contained_in(*spec)
                    &&& dag.is_ordered()
                },
                Err(e) => check_dag(*spec, tasks@, policy) == Err::<(), DagFailure>(e@),
            },
    {
        match spec.verify() {
            Ok(_) => {},
            Err(e) => {
                return Err(AutopilotTaskDagError::InvalidFrozenSpec(e.to_string()));
            },
        }
        if tasks.len() == 0 {
            return Err(AutopilotTaskDagError::EmptyField("tasks"));
        }
        if tasks.len() > policy.max_tasks {
            return Err(
                AutopilotTaskDagError::TaskLimitExceeded { actual: tasks.len(), maximum: policy.max_tasks },
            );
        }
        let ghost given = tasks@;
        let tasks = sort_records(tasks);
        match find_adjacent_duplicate(tasks.as_slice()) {
            Some(id) => {
                return Err(AutopilotTaskDagError::DuplicateTask(id.to_owned()));
            },
            None => {},
        }
        proof {
            lemma_arranged(tasks@, given);
            vstd::seq_lib::to_multiset_len(tasks@);
            vstd::seq_lib::to_multiset_len(given);
        }
        validate_tasks(tasks.as_slice(), spec, &policy)?;
        proof {
            lemma_distinct_tasks(tasks@);
        }
        let topological_order = topological_order(tasks.as_slice())?;
        let mut dag = AutopilotTaskDag {
            schema_version: AUTOPILOT_TASK_DAG_SCHEMA_VERSION,
            spec_sha256: spec.spec_sha256.clone(),
            policy,
            tasks,
            topological_order,
            dag_sha256: String::new(),
        };
        let identity = dag.compute_sha256();
        dag.dag_sha256 = identity;
        proof {
            lemma_check_tasks(*spec, dag.tasks@, policy, 0);
            law_schedule_respects_dependencies(steps(dag.tasks@));
            law_full_schedule_covers(steps(dag.tasks@));
        }
        Ok(dag)
    }

    pub fn schema_version(&self) -> (r: u64)
        ensures
            r == self@.schema_version,
    {
        self.schema_version
    }

    pub fn spec_sha256(&self) -> (r: &str)
        ensures
            r@ == self@.spec_sha256,
    {
        self.spec_sha256.as_str()
    }

    pub fn policy(&self) -> (r: TaskDagPolicy)
        ensures
            r == self@.policy,
    {
        self.policy
    }

    pub fn tasks(&self) -> (r: &[AutopilotTask])
        ensures
            r@ == self@.tasks,
    {
        self.tasks.as_slice()
    }

    pub fn topological_order(&self) -> (r: &[String])
        ensures
            r@ == self@.topological_order,
    {
        self.topological_order.as_slice()
    }

    pub fn dag_sha256(&self) -> (r: &str)
        ensures
            r@ == self@.dag_sha256,
    {
        self.dag_sha256.as_str()
    }

    /// The task with the given identifier.
    pub fn task(&self, id: &str) -> (r: Option<&AutopilotTask>)
        ensures
            match r {
                Some(t) => find_task(self@.tasks, id@) == Some(*t),
                None => find_task(self@.tasks, id@) is None,
            },
    {
        match position_of(self.tasks.as_slice(), id) {
            Some(k) => {
                proof {
                    lemma_find_task(self.tasks@, id@, k as int);
                }
                Some(&self.tasks[k])
            },
            None => {
                proof {
                    lemma_find_no_task(self.tasks@, id@);
                }
                None
            },
        }
    }

    pub fn to_json_string(&self) -> (r: String)
        ensures
            r@ == print(self.unsigned().with("dag_sha256"@, Value::Str(self@.dag_sha256))),
    {
        let mut root = self.unsigned_json();
        root.set("dag_sha256", Json::Str(self.dag_sha256.clone()));
        root.to_string()
    }

    /// Whether the recorded identity belongs to the contents.
    pub fn verify(&self) -> (r: Result<(), AutopilotTaskDagError>)
        ensures
            match r {
                Ok(_) => self.is_intact(),
                Err(e) => !self.is_intact() && e@ == self.mismatch(),
            },
    {
        let actual = self.compute_sha256();
        if !same_text(actual.as_str(), self.dag_sha256.as_str()) {
            return Err(
                AutopilotTaskDagError::FrozenDagHashMismatch { expected: self.dag_sha256.clone(), actual },
            );
        }
        Ok(())
    }

    /// The failure reported for a graph that is not intact.
    pub open spec fn mismatch(&self) -> DagFailure {
        AutopilotTaskDagError::FrozenDagHashMismatch { expected: self@.dag_sha256, actual: self.identity() }
    }

    fn compute_sha256(&self) -> (r: String)
        ensures
            r@ == self.identity(),
    {
        sha256_hex(self.unsigned_json().to_string().as_str().as_bytes())
    }

    fn unsigned_json(&self) -> (r: Json)
        ensures
            r@ == self.unsigned(),
    {
        let mut root = Json::obj();
        root.set("policy", self.policy.to_json());
        root.set("schema_version", Json::num(self.schema_version));
        root.set("spec_sha256", Json::Str(self.spec_sha256.clone()));
        root.set("tasks", json_array(self.tasks.as_slice()));
        root.set("topological_order", Json::text_array(self.topological_order.as_slice()));
        root
    }
}

/// Some allowance of the task for the role covers the path.
pub open spec fn allows_path(task: AutopilotTask, role: Seq<char>, path: Seq<char>) -> bool {
    exists|i: int|
        0 <= i < task@.edit_allowances.len() && (#[trigger] task@.edit_allowances[i]).role() == role && is_within_any(
            path,
            task@.edit_allowances[i].prefixes(),
        )
}

pub fn task_allows_path(task: &AutopilotTask, repository_role: &str, path: &str) -> (r: bool)
    ensures
        r == allows_path(*task, repository_role@, path@),
{
    let mut i: usize = 0;
    while i < task.edit_allowances.len()
        invariant
            i <= task.edit_allowances@.len(),
            forall|j: int|
                0 <= j < i ==> !((#[trigger] task.edit_allowances@[j]).role() == repository_role@ && is_within_any(
                    path@,
                    task.edit_allowances@[j].prefixes(),
                )),
        decreases task.edit_allowances@.len() - i,
    {
        if same_text(task.edit_allowances[i].repository_role(), repository_role) && path_is_within_any(
            path,
            task.edit_allowances[i].allowed_path_prefixes(),
        ) {
            assert(task@.edit_allowances[i as int] == task.edit_allowances@[i as int]);
            return true;
        }
        i += 1;
    }
    false
}

/// Some allowance of the task for the role covers the path and permits the operation.
pub open spec fn permits(task: AutopilotTask, role: Seq<char>, path: Seq<char>, operation: TaskOperation) -> bool {
    exists|i: int|
        0 <= i < task@.edit_allowances.len() && (#[trigger] task@.edit_allowances[i]).role() == role && is_within_any(
            path,
            task@.edit_allowances[i].prefixes(),
        ) && task@.edit_allowances[i].permitted().contains(operation)
}

/// The task has an allowance for the role.
pub open spec fn may_edit(task: AutopilotTask, role: Seq<char>) -> bool {
    exists|i: int| 0 <= i < task@.edit_allowances.len() && (#[trigger] task@.edit_allowances[i]).role() == role
}

pub fn task_permits(task: &AutopilotTask, repository_role: &str, path: &str, operation: TaskOperation) -> (r: bool)
    ensures
        r == permits(*task, repository_role@, path@, operation),
{
    let mut i: usize = 0;
    while i < task.edit_allowances.len()
        invariant
            i <= task.edit_allowances@.len(),
            forall|j: int|
                0 <= j < i ==> !((#[trigger] task.edit_allowances@[j]).role() == repository_role@ && is_within_any(
                    path@,
                    task.edit_allowances@[j].prefixes(),
                ) && task.edit_allowances@[j].permitted().contains(operation)),
        decreases task.edit_allowances@.len() - i,
    {
        let allowance = &task.edit_allowances[i];
        if same_text(allowance.repository_role(), repository_role) && path_is_within_any(
            path,
            allowance.allowed_path_prefixes(),
        ) && has_operation(allowance.operations(), operation) {
            assert(task@.edit_allowances[i as int] == task.edit_allowances@[i as int]);
            return true;
        }
        i += 1;
    }
    false
}

pub fn task_may_edit(task: &AutopilotTask, repository_role: &str) -> (r: bool)
    ensures
        r == may_edit(*task, repository_role@),
{
    let mut i: usize = 0;
    while i < task.edit_allowances.len()
        invariant
            i <= task.edit_allowances@.len(),
            forall|j: int| 0 <= j < i ==> (#[trigger] task.edit_allowances@[j]).role() != repository_role@,
        decreases task.edit_allowances@.len() - i,
    {
        if same_text(task.edit_allowances[i].repository_role(), repository_role) {
            assert(task@.edit_allowances[i as int] == task.edit_allowances@[i as int]);
            return true;
        }
        i += 1;
    }
    false
}

/// The first task with the given identifier.
pub open spec fn find_task(tasks: Seq<AutopilotTask>, id: Seq<char>) -> Option<AutopilotTask>
    decreases tasks.len(),
{
    if tasks.len() == 0 {
        None
    } else if tasks[0]@.id == id {
        Some(tasks[0])
    } else {
        find_task(tasks.drop_first(), id)
    }
}

proof fn lemma_find_task(tasks: Seq<AutopilotTask>, id: Seq<char>, k: int)
    requires
        0 <= k < tasks.len(),
        tasks[k].id@ == id,
        forall|j: int| 0 <= j < k ==> (#[trigger] tasks[j]).id@ != id,
    ensures
        find_task(tasks, id) == Some(tasks[k]),
    decreases tasks.len(),
{
    if k > 0 {
        let t = tasks.drop_first();
        assert forall|j: int| 0 <= j < k - 1 implies (#[trigger] t[j]).id@ != id by {
            assert(t[j] == tasks[j + 1]);
        }
        assert(tasks[0].id@ != id);
        lemma_find_task(t, id, k - 1);
    }
}

proof fn lemma_find_no_task(tasks: Seq<AutopilotTask>, id: Seq<char>)
    requires
        forall|j: int| 0 <= j < tasks.len() ==> (#[trigger] tasks[j]).id@ != id,
    ensures
        find_task(tasks, id) is None,
    decreases tasks.len(),
{
    if tasks.len() > 0 {
        let t = tasks.drop_first();
        assert forall|j: int| 0 <= j < t.len() implies (#[trigger] t[j]).id@ != id by {
            assert(t[j] == tasks[j + 1]);
        }
        assert(tasks[0].id@ != id);
        lemma_find_no_task(t, id);
    }
}

proof fn lemma_distinct_tasks(tasks: Seq<AutopilotTask>)
    requires
        ascending(keys(tasks)),
        adjacent_duplicate(keys(tasks)) is None,
    ensures
        distinct(steps(tasks)),
{
    lemma_no_duplicates(keys(tasks));
    let s = steps(tasks);
    assert forall|i: int, j: int| #![trigger s[i], s[j]] 0 <= i < j < s.len() implies s[i].id != s[j].id by {
        assert(keys(tasks)[i][0] == s[i].id);
        assert(keys(tasks)[j][0] == s[j].id);
        lemma_text_order_equal(s[i].id, s[j].id);
    }
}

proof fn lemma_check_tasks(spec: FrozenAutopilotSpec, tasks: Seq<AutopilotTask>, policy: TaskDagPolicy, i: int)
    requires
        0 <= i <= tasks.len(),
        check_tasks(spec, tasks, policy, i) is Ok,
    ensures
        forall|k: int|
            i <= k < tasks.len() ==> check_task_scope(spec, #[trigger] tasks[k]) is Ok,
    decreases tasks.len() - i,
{
    if i < tasks.len() {
        lemma_check_tasks(spec, tasks, policy, i + 1);
    }
}

// ---------------------------------------------------------------------------
// Laws
// ---------------------------------------------------------------------------

/// A task never widens the frozen scope: whatever path one of its edit allowances
/// admits, the specification admits for the same repository role.
pub proof fn law_task_never_widens_scope(
    dag: AutopilotTaskDag,
    spec: FrozenAutopilotSpec,
    i: int,
    j: int,
    path: Seq<char>,
)
    requires
        dag.is_contained_in(spec),
        0 <= i < dag@.tasks.len(),
        0 <= j < dag@.tasks[i]@.edit_allowances.len(),
        is_within_any(path, dag@.tasks[i]@.edit_allowances[j].prefixes()),
    ensures
        find_scope(spec@.repository_scope, dag@.tasks[i]@.edit_allowances[j].role()) is Some,
        is_within_any(
            path,
            texts(
                find_scope(spec@.repository_scope, dag@.tasks[i]@.edit_allowances[j].role())->0.allowed_path_prefixes@,
            ),
        ),
        texts(dag@.tasks[i]@.repository_roles).contains(dag@.tasks[i]@.edit_allowances[j].role()),
{
    let task = dag.tasks@[i];
    let allowance = task.edit_allowances@[j];
    let roles = texts(task.repository_roles@);
    let check = |a: TaskEditAllowance| check_allowance(spec.repository_scope@, task.id@, roles, a);
    lemma_check_all(task.edit_allowances@, check);
    assert(check(allowance) is Ok);
    let scope = find_scope(spec.repository_scope@, allowance.role())->0;
    let frozen = texts(scope.allowed_path_prefixes@);
    let narrow = |p: Seq<char>| check_prefix(frozen, task.id@, allowance.role(), p);
    lemma_check_all(allowance.prefixes(), narrow);
    let k = choose|k: int|
        0 <= k < allowance.prefixes().len() && is_within(path, #[trigger] allowance.prefixes()[k]);
    let inner = allowance.prefixes()[k];
    assert(narrow(inner) is Ok);
    let m = choose|m: int| 0 <= m < frozen.len() && is_within(inner, #[trigger] frozen[m]);
    lemma_within_transitive(path, inner, frozen[m]);
}

/// Every task requires the base gates, whatever its profile adds.
pub proof fn law_base_gates_are_required(profile: HardGateProfile, gate: Seq<char>)
    requires
        base_gates().contains(gate),
    ensures
        profile.required().contains(gate),
{
    let k = choose|k: int| 0 <= k < base_gates().len() && base_gates()[k] == gate;
    assert(profile.required()[k] == gate);
}

/// The order in which tasks are given does not matter: the graphs hold the same
/// and have the same identity.
pub proof fn law_dag_ignores_input_order(
    first: AutopilotTaskDag,
    second: AutopilotTaskDag,
    tasks: Seq<AutopilotTask>,
    others: Seq<AutopilotTask>,
)
    requires
        tasks.to_multiset() == others.to_multiset(),
        is_sorted_of(first@.tasks, tasks),
        is_sorted_of(second@.tasks, others),
        distinct(steps(first@.tasks)),
        distinct(steps(second@.tasks)),
        texts(first@.topological_order) == schedule(steps(first@.tasks)),
        texts(second@.topological_order) == schedule(steps(second@.tasks)),
        first@.schema_version == second@.schema_version,
        first@.spec_sha256 == second@.spec_sha256,
        first@.policy == second@.policy,
        first.is_intact(),
        second.is_intact(),
    ensures
        first@.tasks == second@.tasks,
        first.unsigned() == second.unsigned(),
        first@.dag_sha256 == second@.dag_sha256,
{
    lemma_distinct_not_adjacent(first.tasks@);
    lemma_distinct_not_adjacent(second.tasks@);
    lemma_same_arrangement(first.tasks@, second.tasks@);
}

proof fn lemma_distinct_not_adjacent(tasks: Seq<AutopilotTask>)
    requires
        distinct(steps(tasks)),
    ensures
        adjacent_duplicate(keys(tasks)) is None,
    decreases tasks.len(),
{
    let s = keys(tasks);
    if s.len() >= 2 {
        let t = tasks.drop_first();
        assert(keys(t) =~= s.drop_first());
        assert forall|i: int, j: int|
            #![trigger steps(t)[i], steps(t)[j]]
            0 <= i < j < steps(t).len() implies steps(t)[i].id != steps(t)[j].id by {
            assert(steps(t)[i] == steps(tasks)[i + 1]);
            assert(steps(t)[j] == steps(tasks)[j + 1]);
        }
        lemma_distinct_not_adjacent(t);
        assert(steps(tasks)[0].id == s[0][0]);
        assert(steps(tasks)[1].id == s[1][0]);
    }
}

/// A cycle is reported only where the tasks cannot be put in any order that
/// respects their dependencies.
pub proof fn law_orderable_tasks_are_accepted(tasks: Seq<AutopilotTask>, witness: Seq<Seq<char>>)
    requires
        distinct(steps(tasks)),
        respects(steps(tasks), witness),
        covers(steps(tasks), witness),
    ensures
        check_order(tasks) is Ok,
{
    law_orderable_steps_are_scheduled(steps(tasks), witness);
}

/// The order of a graph, as construction leaves it, is the smallest one by the
/// identifiers of all orders of its tasks that respect their dependencies.
pub proof fn law_topological_order_is_the_smallest(dag: AutopilotTaskDag, witness: Seq<Seq<char>>)
    requires
        distinct(steps(dag@.tasks)),
        texts(dag@.topological_order) == schedule(steps(dag@.tasks)),
        respects(steps(dag@.tasks), witness),
        covers(steps(dag@.tasks), witness),
    ensures
        texts(dag@.topological_order).len() == dag@.tasks.len(),
        respects(steps(dag@.tasks), texts(dag@.topological_order)),
        covers(steps(dag@.tasks), texts(dag@.topological_order)),
        key_order(texts(dag@.topological_order), witness) != Order::Greater,
{
    law_schedule_is_the_smallest_order(steps(dag@.tasks), witness);
}

/// Tasks that wait for each other are refused, and nothing else is: a cycle is reported
/// exactly where there is one, with the identifiers of the tasks on a cycle and of those
/// that depend on one, in increasing order and in whatever order the tasks are listed.
pub proof fn law_cycles_are_reported(tasks: Seq<AutopilotTask>)
    requires
        distinct(steps(tasks)),
        known(steps(tasks)),
    ensures
        check_order(tasks) is Err <==> exists|walk: Seq<Seq<char>>| #[trigger] closes(steps(tasks), walk),
        check_order(tasks) matches Err(e) ==> {
            &&& e matches AutopilotTaskDagError::CycleDetected(ids)
            &&& strictly_ascending(ids)
            &&& forall|id: Seq<char>| #[trigger] ids.contains(id) <==> leads_to_cycle(steps(tasks), id)
        },
{
    law_cycles_are_left_out(steps(tasks));
    law_left_out_ascends(steps(tasks), schedule(steps(tasks)));
}

/// What the tasks take of a budget together, by one of its parts.
pub open spec fn sum_of(tasks: Seq<AutopilotTask>, part: spec_fn(TaskBudget) -> int) -> int {
    tasks.fold_left(0int, |sum: int, t: AutopilotTask| sum + part(t@.budget))
}

pub open spec fn evaluations_part() -> spec_fn(TaskBudget) -> int {
    |b: TaskBudget| b.max_candidate_evaluations as int
}

pub open spec fn llm_steps_part() -> spec_fn(TaskBudget) -> int {
    |b: TaskBudget| b.max_llm_steps as int
}

pub open spec fn wall_time_part() -> spec_fn(TaskBudget) -> int {
    |b: TaskBudget| b.max_wall_time_ms as int
}

pub open spec fn tokens_part() -> spec_fn(TaskBudget) -> int {
    |b: TaskBudget| b.max_tokens as int
}

/// The totals of tasks are the sums of their budgets: each part of one more task is added.
pub proof fn law_totals_are_sums(tasks: Seq<AutopilotTask>, task: AutopilotTask)
    ensures
        totals(tasks).candidate_evaluations == sum_of(tasks, evaluations_part()),
        totals(tasks).llm_steps == sum_of(tasks, llm_steps_part()),
        totals(tasks).wall_time_ms == sum_of(tasks, wall_time_part()),
        totals(tasks).tokens == sum_of(tasks, tokens_part()),
        totals(tasks.push(task)).candidate_evaluations == totals(tasks).candidate_evaluations
            + task@.budget.max_candidate_evaluations,
        totals(tasks.push(task)).llm_steps == totals(tasks).llm_steps + task@.budget.max_llm_steps,
        totals(tasks.push(task)).wall_time_ms == totals(tasks).wall_time_ms + task@.budget.max_wall_time_ms,
        totals(tasks.push(task)).tokens == totals(tasks).tokens + task@.budget.max_tokens,
    decreases tasks.len(),
{
    assert(tasks.push(task).drop_last() =~= tasks);
    if tasks.len() > 0 {
        law_totals_are_sums(tasks.drop_last(), task);
    }
}

proof fn lemma_totals_grow(tasks: Seq<AutopilotTask>, n: int)
    requires
        0 <= n <= tasks.len(),
    ensures
        totals(tasks.take(n)).candidate_evaluations <= totals(tasks).candidate_evaluations,
        totals(tasks.take(n)).llm_steps <= totals(tasks).llm_steps,
        totals(tasks.take(n)).wall_time_ms <= totals(tasks).wall_time_ms,
        totals(tasks.take(n)).tokens <= totals(tasks).tokens,
    decreases tasks.len(),
{
    if n < tasks.len() {
        lemma_totals_grow(tasks.drop_last(), n);
        assert(tasks.drop_last().take(n) =~= tasks.take(n));
    } else {
        assert(tasks.take(n) =~= tasks);
    }
}

/// The task stands inside the frozen scope: its repository roles are frozen; each of its
/// allowances is for one of them and lies within what is frozen for that role; and its
/// done criterion is frozen and about one of them.
pub open spec fn stands_inside(spec: FrozenAutopilotSpec, task: AutopilotTask) -> bool {
    let roles = texts(task@.repository_roles);
    let scopes = spec@.repository_scope;
    let criteria = spec@.acceptance_criteria;
    &&& forall|r: int| 0 <= r < roles.len() ==> exists|s: int| 0 <= s < scopes.len() && (#[trigger] scopes[s]).role@ == #[trigger] roles[r]
    &&& forall|a: int|
        0 <= a < task@.edit_allowances.len() ==> {
            let allowance = #[trigger] task@.edit_allowances[a];
            &&& roles.contains(allowance.role())
            &&& exists|s: int|
                0 <= s < scopes.len() && (#[trigger] scopes[s]).role@ == allowance.role() && (forall|later: int|
                    s < later < scopes.len() ==> (#[trigger] scopes[later]).role@ != allowance.role()) && forall|p: int|
                    0 <= p < allowance.prefixes().len() ==> is_within_any(
                        #[trigger] allowance.prefixes()[p],
                        texts(scopes[s].allowed_path_prefixes@),
                    )
        }
    &&& exists|c: int|
        0 <= c < criteria.len() && (#[trigger] criteria[c]).id@ == task@.done_criterion_id && roles.contains(
            criteria[c].check.role(),
        ) && forall|later: int| c < later < criteria.len() ==> (#[trigger] criteria[later]).id@ != task@.done_criterion_id
}

/// The scope that counts for a role is the last one with it.
proof fn lemma_find_scope(scopes: Seq<RepositoryScope>, role: Seq<char>)
    ensures
        match find_scope(scopes, role) {
            Some(found) => exists|s: int|
                0 <= s < scopes.len() && #[trigger] scopes[s] == found && found.role@ == role && forall|later: int|
                    s < later < scopes.len() ==> (#[trigger] scopes[later]).role@ != role,
            None => forall|s: int| 0 <= s < scopes.len() ==> (#[trigger] scopes[s]).role@ != role,
        },
    decreases scopes.len(),
{
    if scopes.len() > 0 {
        let n = scopes.len() - 1;
        if scopes.last().role@ != role {
            let front = scopes.drop_last();
            lemma_find_scope(front, role);
            assert(forall|s: int| 0 <= s < n ==> #[trigger] front[s] == scopes[s]);
            if find_scope(front, role) is Some {
                let found = find_scope(front, role)->0;
                let s = choose|s: int|
                    0 <= s < front.len() && #[trigger] front[s] == found && found.role@ == role && forall|later: int|
                        s < later < front.len() ==> (#[trigger] front[later]).role@ != role;
                assert(scopes[s] == found);
                assert forall|later: int| s < later < scopes.len() implies (#[trigger] scopes[later]).role@ != role by {
                    if later < n {
                        assert(front[later].role@ != role);
                    }
                }
            } else {
                assert forall|s: int| 0 <= s < scopes.len() implies (#[trigger] scopes[s]).role@ != role by {
                    if s < n {
                        assert(front[s].role@ != role);
                    }
                }
            }
        } else {
            assert(scopes[n] == scopes.last());
        }
    }
}

/// The criterion that counts for an identifier is the last one with it.
proof fn lemma_find_criterion(criteria: Seq<AcceptanceCriterion>, id: Seq<char>)
    ensures
        match find_criterion(criteria, id) {
            Some(found) => exists|c: int|
                0 <= c < criteria.len() && #[trigger] criteria[c] == found && found.id@ == id && forall|later: int|
                    c < later < criteria.len() ==> (#[trigger] criteria[later]).id@ != id,
            None => forall|c: int| 0 <= c < criteria.len() ==> (#[trigger] criteria[c]).id@ != id,
        },
    decreases criteria.len(),
{
    if criteria.len() > 0 {
        let n = criteria.len() - 1;
        if criteria.last().id@ != id {
            let front = criteria.drop_last();
            lemma_find_criterion(front, id);
            assert(forall|s: int| 0 <= s < n ==> #[trigger] front[s] == criteria[s]);
            if find_criterion(front, id) is Some {
                let found = find_criterion(front, id)->0;
                let c = choose|c: int|
                    0 <= c < front.len() && #[trigger] front[c] == found && found.id@ == id && forall|later: int|
                        c < later < front.len() ==> (#[trigger] front[later]).id@ != id;
                assert(criteria[c] == found);
                assert forall|later: int| c < later < criteria.len() implies (#[trigger] criteria[later]).id@ != id by {
                    if later < n {
                        assert(front[later].id@ != id);
                    }
                }
            } else {
                assert forall|c: int| 0 <= c < criteria.len() implies (#[trigger] criteria[c]).id@ != id by {
                    if c < n {
                        assert(front[c].id@ != id);
                    }
                }
            }
        } else {
            assert(criteria[n] == criteria.last());
        }
    }
}

/// A task is inside the scope exactly where it stands inside it.
pub proof fn law_scope_of_a_task(spec: FrozenAutopilotSpec, task: AutopilotTask)
    ensures
        check_task_scope(spec, task) is Ok <==> stands_inside(spec, task),
{
    let roles = texts(task@.repository_roles);
    let scopes = spec@.repository_scope;
    let criteria = spec@.acceptance_criteria;
    let role_check = |r: Seq<char>| check_role(scopes, task@.id, r);
    let allowance_check = |a: TaskEditAllowance| check_allowance(scopes, task@.id, roles, a);
    lemma_check_all(roles, role_check);
    lemma_check_all(task@.edit_allowances, allowance_check);
    lemma_find_criterion(criteria, task@.done_criterion_id);
    assert forall|r: int| 0 <= r < roles.len() implies ((#[trigger] role_check(roles[r])) is Ok <==> exists|s: int|
        0 <= s < scopes.len() && (#[trigger] scopes[s]).role@ == roles[r]) by {
        lemma_find_scope(scopes, roles[r]);
    }
    assert forall|a: int| 0 <= a < task@.edit_allowances.len() implies ((#[trigger] allowance_check(
        task@.edit_allowances[a],
    )) is Ok <==> {
        let allowance = task@.edit_allowances[a];
        &&& roles.contains(allowance.role())
        &&& exists|s: int|
            0 <= s < scopes.len() && (#[trigger] scopes[s]).role@ == allowance.role() && (forall|later: int|
                s < later < scopes.len() ==> (#[trigger] scopes[later]).role@ != allowance.role()) && forall|p: int|
                0 <= p < allowance.prefixes().len() ==> is_within_any(
                    #[trigger] allowance.prefixes()[p],
                    texts(scopes[s].allowed_path_prefixes@),
                )
    }) by {
        let allowance = task@.edit_allowances[a];
        let role = allowance.role();
        lemma_find_scope(scopes, role);
        if find_scope(scopes, role) is Some {
            let scope = find_scope(scopes, role)->0;
            let frozen = texts(scope.allowed_path_prefixes@);
            let prefix_check = |p: Seq<char>| check_prefix(frozen, task@.id, role, p);
            lemma_check_all(allowance.prefixes(), prefix_check);
            let s = choose|s: int|
                0 <= s < scopes.len() && #[trigger] scopes[s] == scope && scope.role@ == role && forall|later: int|
                    s < later < scopes.len() ==> (#[trigger] scopes[later]).role@ != role;
            if check_all(allowance.prefixes(), prefix_check) is Ok {
                assert forall|p: int| 0 <= p < allowance.prefixes().len() implies is_within_any(
                    #[trigger] allowance.prefixes()[p],
                    frozen,
                ) by {
                    assert(prefix_check(allowance.prefixes()[p]) is Ok);
                }
                assert(scopes[s].role@ == role);
            }
            if exists|s: int|
                0 <= s < scopes.len() && (#[trigger] scopes[s]).role@ == role && (forall|later: int|
                    s < later < scopes.len() ==> (#[trigger] scopes[later]).role@ != role) && forall|p: int|
                    0 <= p < allowance.prefixes().len() ==> is_within_any(
                        #[trigger] allowance.prefixes()[p],
                        texts(scopes[s].allowed_path_prefixes@),
                    ) {
                let m = choose|s: int|
                    0 <= s < scopes.len() && (#[trigger] scopes[s]).role@ == role && (forall|later: int|
                        s < later < scopes.len() ==> (#[trigger] scopes[later]).role@ != role) && forall|p: int|
                        0 <= p < allowance.prefixes().len() ==> is_within_any(
                            #[trigger] allowance.prefixes()[p],
                            texts(scopes[s].allowed_path_prefixes@),
                        );
                if m < s {
                    assert(scopes[s].role@ != role);
                } else if s < m {
                    assert(scopes[m].role@ != role);
                }
                assert forall|p: int| 0 <= p < allowance.prefixes().len() implies (#[trigger] prefix_check(
                    allowance.prefixes()[p],
                )) is Ok by {
                    assert(is_within_any(allowance.prefixes()[p], frozen));
                }
            }
        }
    }
    if check_task_scope(spec, task) is Ok {
        assert forall|r: int| 0 <= r < roles.len() implies exists|s: int|
            0 <= s < scopes.len() && (#[trigger] scopes[s]).role@ == #[trigger] roles[r] by {
            assert(role_check(roles[r]) is Ok);
        }
        assert forall|a: int| 0 <= a < task@.edit_allowances.len() implies ({
            let allowance = #[trigger] task@.edit_allowances[a];
            &&& roles.contains(allowance.role())
            &&& exists|s: int|
                0 <= s < scopes.len() && (#[trigger] scopes[s]).role@ == allowance.role() && (forall|later: int|
                    s < later < scopes.len() ==> (#[trigger] scopes[later]).role@ != allowance.role()) && forall|p: int|
                    0 <= p < allowance.prefixes().len() ==> is_within_any(
                        #[trigger] allowance.prefixes()[p],
                        texts(scopes[s].allowed_path_prefixes@),
                    )
        }) by {
            assert(allowance_check(task@.edit_allowances[a]) is Ok);
        }
        let found = find_criterion(criteria, task@.done_criterion_id)->0;
        let c = choose|c: int|
            0 <= c < criteria.len() && #[trigger] criteria[c] == found && found.id@ == task@.done_criterion_id && forall|
                later: int,
            |
                c < later < criteria.len() ==> (#[trigger] criteria[later]).id@ != task@.done_criterion_id;
        assert(criteria[c].id@ == task@.done_criterion_id);
    }
    if stands_inside(spec, task) {
        assert forall|r: int| 0 <= r < roles.len() implies (#[trigger] role_check(roles[r])) is Ok by {
            let role = roles[r];
            assert(exists|s: int| 0 <= s < scopes.len() && (#[trigger] scopes[s]).role@ == role);
        }
        assert forall|a: int| 0 <= a < task@.edit_allowances.len() implies (#[trigger] allowance_check(
            task@.edit_allowances[a],
        )) is Ok by {
            let allowance = task@.edit_allowances[a];
        }
        let m = choose|c: int|
            0 <= c < criteria.len() && (#[trigger] criteria[c]).id@ == task@.done_criterion_id && roles.contains(
                criteria[c].check.role(),
            ) && forall|later: int|
                c < later < criteria.len() ==> (#[trigger] criteria[later]).id@ != task@.done_criterion_id;
        let found = find_criterion(criteria, task@.done_criterion_id)->0;
        let c = choose|c: int|
            0 <= c < criteria.len() && #[trigger] criteria[c] == found && found.id@ == task@.done_criterion_id && forall|
                later: int,
            |
                c < later < criteria.len() ==> (#[trigger] criteria[later]).id@ != task@.done_criterion_id;
        if m < c {
            assert(criteria[c].id@ != task@.done_criterion_id);
        } else if c < m {
            assert(criteria[m].id@ != task@.done_criterion_id);
        }
    }
}

/// Tasks are admitted under a specification and a policy exactly where each stands inside
/// the frozen scope, depends on tasks of the graph alone and stays within the evaluations
/// of one task, and where what they take together, summed up over all of them, stays within
/// the evaluations of the policy and within the steps, the time and the tokens of the
/// objective.
pub proof fn law_tasks_stay_within_scope_and_budget(spec: FrozenAutopilotSpec, tasks: Seq<AutopilotTask>, policy: TaskDagPolicy)
    ensures
        check_limits(spec, tasks, policy) is Ok <==> {
            &&& forall|i: int|
                #![trigger tasks[i]]
                0 <= i < tasks.len() ==> stands_inside(spec, tasks[i]) && tasks[i]@.budget.max_candidate_evaluations
                    <= policy.max_candidate_evaluations_per_task && depends_inside(tasks, tasks[i])
            &&& sum_of(tasks, evaluations_part()) <= policy.max_total_candidate_evaluations
            &&& sum_of(tasks, llm_steps_part()) <= spec@.budget.max_llm_steps
            &&& sum_of(tasks, wall_time_part()) <= spec@.budget.max_wall_time_ms
            &&& sum_of(tasks, tokens_part()) <= spec@.budget.max_tokens
        },
{
    if tasks.len() > 0 {
        law_totals_are_sums(tasks, tasks[0]);
    }
    lemma_admitted(spec, tasks, policy, 0);
    assert forall|i: int| #![trigger tasks[i]] 0 <= i < tasks.len() implies (check_task(
        spec,
        task_ids(tasks),
        policy,
        tasks[i],
    ) is Ok <==> stands_inside(spec, tasks[i]) && tasks[i]@.budget.max_candidate_evaluations
        <= policy.max_candidate_evaluations_per_task && depends_inside(tasks, tasks[i])) by {
        law_scope_of_a_task(spec, tasks[i]);
        lemma_depends_inside(tasks, tasks[i]);
    }
}

/// Every dependency of a task is the identifier of a task of the list.
pub open spec fn depends_inside(tasks: Seq<AutopilotTask>, task: AutopilotTask) -> bool {
    forall|d: int| 0 <= d < task@.dependencies.len() ==> has_task(tasks, (#[trigger] task@.dependencies[d])@)
}

/// A task of the list has the identifier.
pub open spec fn has_task(tasks: Seq<AutopilotTask>, id: Seq<char>) -> bool {
    exists|k: int| 0 <= k < tasks.len() && (#[trigger] tasks[k])@.id == id
}

proof fn lemma_depends_inside(tasks: Seq<AutopilotTask>, task: AutopilotTask)
    ensures
        check_all(texts(task@.dependencies), |d: Seq<char>| check_known(task_ids(tasks), task@.id, d)) is Ok
            <==> depends_inside(tasks, task),
{
    let deps = texts(task@.dependencies);
    let ids = task_ids(tasks);
    let check = |d: Seq<char>| check_known(ids, task@.id, d);
    lemma_check_all(deps, check);
    if check_all(deps, check) is Ok {
        assert forall|d: int| 0 <= d < task@.dependencies.len() implies has_task(
            tasks,
            (#[trigger] task@.dependencies[d])@,
        ) by {
            assert(check(deps[d]) is Ok);
            let k = choose|k: int| 0 <= k < ids.len() && ids[k] == deps[d];
            assert(tasks[k]@.id == task@.dependencies[d]@);
        }
    }
    if depends_inside(tasks, task) {
        assert forall|d: int| 0 <= d < deps.len() implies (#[trigger] check(deps[d])) is Ok by {
            let dependency = task@.dependencies[d]@;
            assert(has_task(tasks, dependency));
            let k = choose|k: int| 0 <= k < tasks.len() && (#[trigger] tasks[k])@.id == dependency;
            assert(ids[k] == deps[d]);
        }
    }
}

proof fn lemma_admitted(spec: FrozenAutopilotSpec, tasks: Seq<AutopilotTask>, policy: TaskDagPolicy, i: int)
    requires
        0 <= i <= tasks.len(),
    ensures
        check_tasks(spec, tasks, policy, i) is Ok ==> forall|k: int|
            i <= k < tasks.len() ==> check_task(spec, task_ids(tasks), policy, #[trigger] tasks[k]) is Ok,
        (forall|k: int|
            i <= k < tasks.len() ==> check_task(spec, task_ids(tasks), policy, #[trigger] tasks[k]) is Ok)
            && totals(tasks).check_size() is Ok ==> check_tasks(spec, tasks, policy, i) is Ok,
    decreases tasks.len() - i,
{
    if i < tasks.len() {
        lemma_admitted(spec, tasks, policy, i + 1);
        lemma_totals_grow(tasks, i + 1);
    }
}

/// A graph is made only of one to so many tasks, no two of which share their identifier,
/// under a specification that is intact; and where one of these fails, it is told which.
pub proof fn law_graphs_have_distinct_tasks(spec: FrozenAutopilotSpec, tasks: Seq<AutopilotTask>, policy: TaskDagPolicy)
    ensures
        check_dag(spec, tasks, policy) is Ok ==> {
            &&& spec@.spec_sha256 == spec.identity()
            &&& 0 < tasks.len() <= policy.max_tasks
            &&& forall|i: int, j: int|
                0 <= i < j < tasks.len() ==> (#[trigger] tasks[i])@.id != (#[trigger] tasks[j])@.id
        },
        spec.is_intact() && tasks.len() == 0 ==> check_dag(spec, tasks, policy) is Err,
        spec.is_intact() && tasks.len() > policy.max_tasks ==> check_dag(spec, tasks, policy) is Err,
        (exists|i: int, j: int| 0 <= i < j < tasks.len() && (#[trigger] tasks[i])@.id == (#[trigger] tasks[j])@.id)
            ==> check_dag(spec, tasks, policy) is Err,
{
    let k = keys(tasks);
    assert(forall|i: int| 0 <= i < k.len() ==> #[trigger] k[i] == seq![tasks[i]@.id]);
    law_repetitions_are_found(k);
    if adjacent_duplicate(sorted(k)) is None {
        assert forall|i: int, j: int| 0 <= i < j < tasks.len() implies (#[trigger] tasks[i])@.id != (
        #[trigger] tasks[j])@.id by {
            assert(k[i] != k[j]);
        }
    }
}

/// The task with an identifier is the first of the list that has it.
pub proof fn law_tasks_are_found(tasks: Seq<AutopilotTask>, id: Seq<char>)
    ensures
        match find_task(tasks, id) {
            Some(t) => t@.id == id && exists|k: int|
                0 <= k < tasks.len() && #[trigger] tasks[k] == t && forall|j: int|
                    0 <= j < k ==> (#[trigger] tasks[j])@.id != id,
            None => forall|j: int| 0 <= j < tasks.len() ==> (#[trigger] tasks[j])@.id != id,
        },
    decreases tasks.len(),
{
    if tasks.len() > 0 {
        let rest = tasks.drop_first();
        law_tasks_are_found(rest, id);
        if tasks[0]@.id != id {
            match find_task(rest, id) {
                Some(t) => {
                    let k = choose|k: int|
                        0 <= k < rest.len() && #[trigger] rest[k] == t && forall|j: int|
                            0 <= j < k ==> (#[trigger] rest[j])@.id != id;
                    assert(tasks[k + 1] == t);
                    assert forall|j: int| 0 <= j < k + 1 implies (#[trigger] tasks[j])@.id != id by {
                        if j > 0 {
                            assert(rest[j - 1]@.id != id);
                        }
                    }
                },
                None => {
                    assert forall|j: int| 0 <= j < tasks.len() implies (#[trigger] tasks[j])@.id != id by {
                        if j > 0 {
                            assert(rest[j - 1]@.id != id);
                        }
                    }
                },
            }
        }
    }
}

/// A task may do an operation on a path exactly where one of its allowances is for the
/// role, has a prefix that the path is or lies below, and has the operation.
pub proof fn law_permission_needs_one_allowance(task: AutopilotTask, role: Seq<char>, path: Seq<char>, operation: TaskOperation)
    ensures
        permits(task, role, path, operation) <==> exists|a: int, p: int|
            #![trigger task@.edit_allowances[a].prefixes()[p]]
            0 <= a < task@.edit_allowances.len() && task@.edit_allowances[a].role() == role
                && task@.edit_allowances[a].permitted().contains(operation) && 0 <= p
                < task@.edit_allowances[a].prefixes().len() && is_within(path, task@.edit_allowances[a].prefixes()[p]),
        permits(task, role, path, operation) ==> allows_path(task, role, path) && may_edit(task, role),
{
    if permits(task, role, path, operation) {
        let a = choose|i: int|
            0 <= i < task@.edit_allowances.len() && (#[trigger] task@.edit_allowances[i]).role() == role && is_within_any(
                path,
                task@.edit_allowances[i].prefixes(),
            ) && task@.edit_allowances[i].permitted().contains(operation);
        let prefixes = task@.edit_allowances[a].prefixes();
        let p = choose|p: int| 0 <= p < prefixes.len() && is_within(path, #[trigger] prefixes[p]);
        assert(is_within(path, task@.edit_allowances[a].prefixes()[p]));
    }
}

proof fn lemma_two_of_a_sum(tasks: Seq<AutopilotTask>, part: spec_fn(TaskBudget) -> int, i: int, j: int)
    requires
        0 <= i < j < tasks.len(),
        forall|k: int| 0 <= k < tasks.len() ==> part((#[trigger] tasks[k])@.budget) >= 0,
    ensures
        part(tasks[i]@.budget) + part(tasks[j]@.budget) <= sum_of(tasks, part),
    decreases tasks.len(),
{
    let front = tasks.drop_last();
    assert(forall|k: int| 0 <= k < front.len() ==> #[trigger] front[k] == tasks[k]);
    assert(part(tasks.last()@.budget) >= 0) by {
        assert(tasks.last() == tasks[tasks.len() - 1]);
    }
    if j < front.len() {
        lemma_two_of_a_sum(front, part, i, j);
    } else {
        lemma_one_of_a_sum(front, part, i);
    }
}

proof fn lemma_one_of_a_sum(tasks: Seq<AutopilotTask>, part: spec_fn(TaskBudget) -> int, i: int)
    requires
        0 <= i < tasks.len(),
        forall|k: int| 0 <= k < tasks.len() ==> part((#[trigger] tasks[k])@.budget) >= 0,
    ensures
        part(tasks[i]@.budget) <= sum_of(tasks, part),
    decreases tasks.len(),
{
    let front = tasks.drop_last();
    assert(forall|k: int| 0 <= k < front.len() ==> #[trigger] front[k] == tasks[k]);
    assert(part(tasks.last()@.budget) >= 0) by {
        assert(tasks.last() == tasks[tasks.len() - 1]);
    }
    if i < front.len() {
        lemma_one_of_a_sum(front, part, i);
    } else {
        lemma_sum_is_not_negative(front, part);
    }
}

proof fn lemma_sum_is_not_negative(tasks: Seq<AutopilotTask>, part: spec_fn(TaskBudget) -> int)
    requires
        forall|k: int| 0 <= k < tasks.len() ==> part((#[trigger] tasks[k])@.budget) >= 0,
    ensures
        sum_of(tasks, part) >= 0,
    decreases tasks.len(),
{
    if tasks.len() > 0 {
        let front = tasks.drop_last();
        assert(forall|k: int| 0 <= k < front.len() ==> #[trigger] front[k] == tasks[k]);
        assert(part(tasks[tasks.len() - 1]@.budget) >= 0);
        lemma_sum_is_not_negative(front, part);
    }
}

/// What the tasks of a graph may take is bounded over all of them as they were given, in
/// whatever order: the sums of their budgets stay within the frozen limits, and so do the
/// budgets of any two of them together.
pub proof fn law_graph_stays_within_frozen_budget(dag: AutopilotTaskDag, spec: FrozenAutopilotSpec, given: Seq<AutopilotTask>, i: int, j: int)
    requires
        dag.is_contained_in(spec),
        is_sorted_of(dag@.tasks, given),
        0 <= i < j < given.len(),
    ensures
        sum_of(given, wall_time_part()) <= spec@.budget.max_wall_time_ms,
        sum_of(given, llm_steps_part()) <= spec@.budget.max_llm_steps,
        sum_of(given, tokens_part()) <= spec@.budget.max_tokens,
        sum_of(given, evaluations_part()) <= dag@.policy.max_total_candidate_evaluations,
        given[i]@.budget.max_wall_time_ms + given[j]@.budget.max_wall_time_ms <= spec@.budget.max_wall_time_ms,
        given[i]@.budget.max_llm_steps + given[j]@.budget.max_llm_steps <= spec@.budget.max_llm_steps,
        given[i]@.budget.max_tokens + given[j]@.budget.max_tokens <= spec@.budget.max_tokens,
        given[i]@.budget.max_candidate_evaluations + given[j]@.budget.max_candidate_evaluations
            <= dag@.policy.max_total_candidate_evaluations,
{
    law_totals_are_sums(dag@.tasks, given[i]);
    lemma_sum_ignores_order(dag@.tasks, given, wall_time_part());
    lemma_sum_ignores_order(dag@.tasks, given, llm_steps_part());
    lemma_sum_ignores_order(dag@.tasks, given, tokens_part());
    lemma_sum_ignores_order(dag@.tasks, given, evaluations_part());
    lemma_two_of_a_sum(given, wall_time_part(), i, j);
    lemma_two_of_a_sum(given, llm_steps_part(), i, j);
    lemma_two_of_a_sum(given, tokens_part(), i, j);
    lemma_two_of_a_sum(given, evaluations_part(), i, j);
}

proof fn lemma_sum_ignores_order(s: Seq<AutopilotTask>, t: Seq<AutopilotTask>, part: spec_fn(TaskBudget) -> int)
    requires
        s.to_multiset() == t.to_multiset(),
    ensures
        sum_of(s, part) == sum_of(t, part),
{
    vstd::seq_lib::lemma_fold_left_permutation(s, t, |sum: int, a: AutopilotTask| sum + part(a@.budget), 0int);
}

/// A task is made exactly of a draft with identifiers for itself, its repository roles, its
/// criterion and its dependencies, with a description of one line, with at least one role,
/// with at most one allowance for each role, and that does not wait for itself.
pub proof fn law_drafts_become_tasks(draft: AutopilotTaskDraft)
    ensures
        check_task_draft(draft) is Ok <==> {
            &&& draft.id@.len() > 0 && is_line(draft.id@) && is_identifier(draft.id@)
            &&& draft.description@.len() > 0 && is_line(draft.description@)
            &&& draft.regime matches TaskRegime::Perf { benchmark_profile_id } ==> benchmark_profile_id@.len() > 0
                && is_line(benchmark_profile_id@) && is_identifier(benchmark_profile_id@)
            &&& draft.done_criterion_id@.len() > 0 && is_line(draft.done_criterion_id@) && is_identifier(
                draft.done_criterion_id@,
            )
            &&& draft.repository_roles@.len() > 0
            &&& forall|i: int|
                #![trigger draft.repository_roles@[i]]
                0 <= i < draft.repository_roles@.len() ==> draft.repository_roles@[i]@.len() > 0 && is_line(
                    draft.repository_roles@[i]@,
                ) && is_identifier(draft.repository_roles@[i]@)
            &&& forall|i: int, j: int|
                0 <= i < j < draft.edit_allowances@.len() ==> (#[trigger] draft.edit_allowances@[i]).role() != (
                #[trigger] draft.edit_allowances@[j]).role()
            &&& forall|i: int|
                #![trigger draft.dependencies@[i]]
                0 <= i < draft.dependencies@.len() ==> draft.dependencies@[i]@.len() > 0 && is_line(
                    draft.dependencies@[i]@,
                ) && is_identifier(draft.dependencies@[i]@) && draft.dependencies@[i]@ != draft.id@
        },
{
    let roles = texts(draft.repository_roles@);
    let deps = texts(draft.dependencies@);
    let role_check = |s: Seq<char>| check_identifier("task.repository_roles", s);
    let dep_check = |d: Seq<char>| check_dependency(draft.id@, d);
    lemma_check_all(roles, role_check);
    lemma_check_all(deps, dep_check);
    assert(forall|i: int| 0 <= i < roles.len() ==> #[trigger] roles[i] == draft.repository_roles@[i]@);
    assert(forall|i: int| 0 <= i < deps.len() ==> #[trigger] deps[i] == draft.dependencies@[i]@);
    assert forall|i: int| #![trigger draft.repository_roles@[i]] 0 <= i < draft.repository_roles@.len() implies (role_check(
        roles[i],
    ) is Ok <==> draft.repository_roles@[i]@.len() > 0 && is_line(draft.repository_roles@[i]@) && is_identifier(
        draft.repository_roles@[i]@,
    )) by {}
    assert forall|i: int| #![trigger draft.dependencies@[i]] 0 <= i < draft.dependencies@.len() implies (dep_check(
        deps[i],
    ) is Ok <==> draft.dependencies@[i]@.len() > 0 && is_line(draft.dependencies@[i]@) && is_identifier(
        draft.dependencies@[i]@,
    ) && draft.dependencies@[i]@ != draft.id@) by {}
    assert(forall|i: int| 0 <= i < roles.len() ==> #[trigger] role_check(roles[i]) == check_identifier("task.repository_roles", draft.repository_roles@[i]@));
    assert(forall|i: int| 0 <= i < deps.len() ==> #[trigger] dep_check(deps[i]) == check_dependency(draft.id@, draft.dependencies@[i]@));
    let k = keys(draft.edit_allowances@);
    assert(forall|i: int| 0 <= i < k.len() ==> #[trigger] k[i] == seq![draft.edit_allowances@[i].role()]);
    law_repetitions_are_found(k);
    if k.no_duplicates() {
        assert forall|i: int, j: int| 0 <= i < j < draft.edit_allowances@.len() implies (
        #[trigger] draft.edit_allowances@[i]).role() != (#[trigger] draft.edit_allowances@[j]).role() by {
            assert(k[i] != k[j]);
        }
    } else {
        let (i, j) = choose|i: int, j: int| 0 <= i < k.len() && 0 <= j < k.len() && i != j && k[i] == k[j];
        assert(k[i][0] == k[j][0]);
        assert(draft.edit_allowances@[i].role() == draft.edit_allowances@[j].role());
    }
}

/// An allowance is made exactly for a role with an identifier, of one or more relative
/// paths and one or more operations.
pub proof fn law_allowances(role: Seq<char>, prefixes: Seq<Seq<char>>, operations: nat)
    ensures
        check_allowance_fields(role, prefixes, operations) is Ok <==> role.len() > 0 && is_line(role) && is_identifier(role)
            && prefixes.len() > 0 && operations > 0 && forall|i: int|
            0 <= i < prefixes.len() ==> is_relative_path(#[trigger] prefixes[i]),
{
    let check = |s: Seq<char>| check_path("edit_allowance.allowed_path_prefixes", s);
    lemma_check_all(prefixes, check);
    assert forall|i: int| 0 <= i < prefixes.len() implies (check(#[trigger] prefixes[i]) is Ok <==> is_relative_path(
        prefixes[i],
    )) by {}
    if check_all(prefixes, check) is Ok {
        assert forall|i: int| 0 <= i < prefixes.len() implies is_relative_path(#[trigger] prefixes[i]) by {
            assert(check(prefixes[i]) is Ok);
        }
    }
}

/// The operations of an allowance are those given, each once, whatever the order.
pub proof fn law_operations_are_kept(given: Seq<TaskOperation>)
    ensures
        canonical_operations(given).to_set() =~= given.to_set(),
        canonical_operations(given).no_duplicates(),
{
    let all = seq![TaskOperation::Create, TaskOperation::ModifyExact, TaskOperation::Delete, TaskOperation::Rename];
    lemma_keep_listed(all, given);
    assert(all[0] is Create && all[1] is ModifyExact && all[2] is Delete && all[3] is Rename);
    assert forall|o: TaskOperation| all.contains(o) by {
        match o {
            TaskOperation::Create => assert(all[0] == o),
            TaskOperation::ModifyExact => assert(all[1] == o),
            TaskOperation::Delete => assert(all[2] == o),
            TaskOperation::Rename => assert(all[3] == o),
        }
    }
}

proof fn lemma_keep_listed(all: Seq<TaskOperation>, given: Seq<TaskOperation>)
    requires
        all.no_duplicates(),
    ensures
        forall|o: TaskOperation|
            #[trigger] keep_listed(all, given).contains(o) <==> all.contains(o) && given.contains(o),
        keep_listed(all, given).no_duplicates(),
    decreases all.len(),
{
    if all.len() > 0 {
        let front = all.drop_last();
        lemma_keep_listed(front, given);
        let kept = keep_listed(front, given);
        assert(!front.contains(all.last()));
        assert(all =~= front.push(all.last()));
        assert forall|o: TaskOperation| all.contains(o) <==> front.contains(o) || o == all.last() by {
            if front.contains(o) {
                let k = choose|k: int| 0 <= k < front.len() && front[k] == o;
                assert(all[k] == o);
            }
            if all.contains(o) && o != all.last() {
                let k = choose|k: int| 0 <= k < all.len() && all[k] == o;
                assert(front[k] == o);
            }
            assert(all[all.len() - 1] == all.last());
        }
        if given.contains(all.last()) {
            let more = kept.push(all.last());
            assert forall|o: TaskOperation| #[trigger] more.contains(o) <==> kept.contains(o) || o == all.last() by {
                if kept.contains(o) {
                    let k = choose|k: int| 0 <= k < kept.len() && kept[k] == o;
                    assert(more[k] == o);
                }
                assert(more[more.len() - 1] == all.last());
            }
            assert(!kept.contains(all.last()));
        }
    }
}

/// Further gates are accepted exactly where each is an identifier and none is a gate that
/// every task has anyway.
pub proof fn law_further_gates(gates: Seq<Seq<char>>)
    ensures
        check_gates(gates) is Ok <==> forall|i: int|
            #![trigger gates[i]]
            0 <= i < gates.len() ==> gates[i].len() > 0 && is_line(gates[i]) && is_identifier(gates[i])
                && !base_gates().contains(gates[i]),
{
    let check = |g: Seq<char>| check_gate(g);
    lemma_check_all(gates, check);
    assert forall|i: int| #![trigger gates[i]] 0 <= i < gates.len() implies (check(gates[i]) is Ok <==> gates[i].len() > 0
        && is_line(gates[i]) && is_identifier(gates[i]) && !base_gates().contains(gates[i])) by {}
    if check_all(gates, check) is Ok {
        assert forall|i: int| #![trigger gates[i]] 0 <= i < gates.len() implies gates[i].len() > 0 && is_line(gates[i])
            && is_identifier(gates[i]) && !base_gates().contains(gates[i]) by {
            assert(check(gates[i]) is Ok);
        }
    }
}

/// Whatever a profile adds, a task must pass the build, the required tests, numerical
/// parity, provenance, the deterministic contract, the resource budget and the policy
/// checks; and what a profile adds is required too.
pub proof fn law_named_gates_are_required(profile: HardGateProfile)
    ensures
        profile.required().contains("build"@),
        profile.required().contains("required_tests"@),
        profile.required().contains("numerical_parity"@),
        profile.required().contains("provenance"@),
        profile.required().contains("deterministic_contract"@),
        profile.required().contains("resource_budget"@),
        profile.required().contains("policy_checks"@),
        forall|g: Seq<char>| profile.additional().contains(g) ==> #[trigger] profile.required().contains(g),
        profile.required().len() == 7 + profile.additional().len(),
{
    let r = profile.required();
    let more = profile.additional();
    assert(r[0] == "build"@);
    assert(r[1] == "required_tests"@);
    assert(r[2] == "numerical_parity"@);
    assert(r[3] == "provenance"@);
    assert(r[4] == "deterministic_contract"@);
    assert(r[5] == "resource_budget"@);
    assert(r[6] == "policy_checks"@);
    assert forall|g: Seq<char>| more.contains(g) implies #[trigger] r.contains(g) by {
        let k = choose|k: int| 0 <= k < more.len() && more[k] == g;
        assert(r[7 + k] == g);
    }
}

proof fn lemma_depends_in_any_order(s: Seq<AutopilotTask>, t: Seq<AutopilotTask>, task: AutopilotTask)
    requires
        forall|x: AutopilotTask| #[trigger] s.contains(x) <==> t.contains(x),
        depends_inside(s, task),
    ensures
        depends_inside(t, task),
{
    assert forall|d: int| 0 <= d < task@.dependencies.len() implies has_task(t, (#[trigger] task@.dependencies[d])@) by {
        let dependency = task@.dependencies[d]@;
        assert(has_task(s, dependency));
        let k = choose|k: int| 0 <= k < s.len() && (#[trigger] s[k])@.id == dependency;
        assert(s.contains(s[k]));
        assert(t.contains(s[k]));
        let m = choose|m: int| 0 <= m < t.len() && t[m] == s[k];
        assert(t[m]@.id == dependency);
    }
}

/// Each of the tasks stands inside the frozen scope, stays within the evaluations of one
/// task and depends on tasks of the list alone.
pub open spec fn all_stand_inside(spec: FrozenAutopilotSpec, tasks: Seq<AutopilotTask>, policy: TaskDagPolicy) -> bool {
    forall|i: int|
        #![trigger tasks[i]]
        0 <= i < tasks.len() ==> stands_inside(spec, tasks[i]) && tasks[i]@.budget.max_candidate_evaluations
            <= policy.max_candidate_evaluations_per_task && depends_inside(tasks, tasks[i])
}

proof fn lemma_all_in_any_order(
    spec: FrozenAutopilotSpec,
    s: Seq<AutopilotTask>,
    t: Seq<AutopilotTask>,
    policy: TaskDagPolicy,
)
    requires
        forall|x: AutopilotTask| #[trigger] s.contains(x) <==> t.contains(x),
        all_stand_inside(spec, s, policy),
    ensures
        all_stand_inside(spec, t, policy),
{
    assert forall|i: int| #![trigger t[i]] 0 <= i < t.len() implies stands_inside(spec, t[i])
        && t[i]@.budget.max_candidate_evaluations <= policy.max_candidate_evaluations_per_task && depends_inside(t, t[i]) by {
        assert(t.contains(t[i]));
        assert(s.contains(t[i]));
        let k = choose|k: int| 0 <= k < s.len() && s[k] == t[i];
        assert(stands_inside(spec, s[k]));
        lemma_depends_in_any_order(s, t, t[i]);
    }
}

/// A graph is made exactly under an intact specification, of one to so many tasks with
/// different identifiers, each inside the frozen scope and depending on tasks of the list
/// alone, none waiting for itself by way of others, and of budgets that stay within the
/// frozen limits when summed up over all the tasks.
pub proof fn law_graphs_are_made(spec: FrozenAutopilotSpec, tasks: Seq<AutopilotTask>, policy: TaskDagPolicy)
    ensures
        check_dag(spec, tasks, policy) is Ok <==> {
            &&& spec@.spec_sha256 == spec.identity()
            &&& 0 < tasks.len() <= policy.max_tasks
            &&& forall|i: int, j: int| 0 <= i < j < tasks.len() ==> (#[trigger] tasks[i])@.id != (#[trigger] tasks[j])@.id
            &&& all_stand_inside(spec, tasks, policy)
            &&& sum_of(tasks, evaluations_part()) <= policy.max_total_candidate_evaluations
            &&& sum_of(tasks, llm_steps_part()) <= spec@.budget.max_llm_steps
            &&& sum_of(tasks, wall_time_part()) <= spec@.budget.max_wall_time_ms
            &&& sum_of(tasks, tokens_part()) <= spec@.budget.max_tokens
            &&& !exists|walk: Seq<Seq<char>>| #[trigger] closes(steps(arranged(tasks)), walk)
        },
{
    law_arranging(tasks);
    let k = keys(tasks);
    assert(forall|i: int| 0 <= i < k.len() ==> #[trigger] k[i] == seq![tasks[i]@.id]);
    law_repetitions_are_found(k);
    if k.no_duplicates() {
        assert forall|i: int, j: int| 0 <= i < j < tasks.len() implies (#[trigger] tasks[i])@.id != (
        #[trigger] tasks[j])@.id by {
            assert(k[i] != k[j]);
        }
    } else {
        let (i, j) = choose|i: int, j: int| 0 <= i < k.len() && 0 <= j < k.len() && i != j && k[i] == k[j];
        assert(k[i][0] == k[j][0]);
        assert(tasks[i]@.id == tasks[j]@.id);
    }
    let a = arranged(tasks);
    law_tasks_stay_within_scope_and_budget(spec, a, policy);
    lemma_sum_ignores_order(a, tasks, wall_time_part());
    lemma_sum_ignores_order(a, tasks, llm_steps_part());
    lemma_sum_ignores_order(a, tasks, tokens_part());
    lemma_sum_ignores_order(a, tasks, evaluations_part());
    if all_stand_inside(spec, a, policy) {
        lemma_all_in_any_order(spec, a, tasks, policy);
    }
    if all_stand_inside(spec, tasks, policy) {
        lemma_all_in_any_order(spec, tasks, a, policy);
    }
    if k.no_duplicates() && all_stand_inside(spec, a, policy) {
        let ka = keys(a);
        assert(ka.no_duplicates()) by {
            lemma_keys_multiset(a, tasks);
            k.lemma_multiset_has_no_duplicates();
            ka.lemma_multiset_has_no_duplicates_conv();
        }
        let s = steps(a);
        assert(distinct(s)) by {
            assert forall|i: int, j: int| #![trigger s[i], s[j]] 0 <= i < j < s.len() implies s[i].id != s[j].id by {
                assert(ka[i] == seq![a[i]@.id] && ka[j] == seq![a[j]@.id]);
                assert(ka[i] != ka[j]);
            }
        }
        assert(known(s)) by {
            let ids = step_ids(s);
            assert forall|n: int, d: int| 0 <= n < s.len() && 0 <= d < s[n].dependencies.len() implies ids.contains(
                #[trigger] s[n].dependencies[d],
            ) by {
                let task = a[n];
                assert(depends_inside(a, task));
                let dependency = task@.dependencies[d]@;
                assert(has_task(a, dependency));
                assert(s[n].dependencies[d] == dependency);
                let m = choose|m: int| 0 <= m < a.len() && (#[trigger] a[m])@.id == dependency;
                assert(ids[m] == dependency);
            }
        }
        law_cycles_are_reported(a);
    }
}

/// Whatever graph is made, the budgets of the tasks it was made of, summed up, stay within
/// the frozen limits of the objective and the limit of the policy, and so does each of them
/// within the limit of one task; and tasks that exceed one of the limits make no graph.
pub proof fn law_made_graphs_keep_the_frozen_limits(
    spec: FrozenAutopilotSpec,
    tasks: Vec<AutopilotTask>,
    policy: TaskDagPolicy,
    r: Result<AutopilotTaskDag, AutopilotTaskDagError>,
)
    requires
        call_ensures(AutopilotTaskDag::new, (&spec, tasks, policy), r),
    ensures
        r is Ok ==> {
            &&& sum_of(tasks@, wall_time_part()) <= spec@.budget.max_wall_time_ms
            &&& sum_of(tasks@, llm_steps_part()) <= spec@.budget.max_llm_steps
            &&& sum_of(tasks@, tokens_part()) <= spec@.budget.max_tokens
            &&& sum_of(tasks@, evaluations_part()) <= policy.max_total_candidate_evaluations
            &&& all_stand_inside(spec, tasks@, policy)
            &&& r->Ok_0@.tasks.to_multiset() == tasks@.to_multiset()
            &&& r->Ok_0@.spec_sha256 == spec@.spec_sha256
            &&& r->Ok_0@.policy == policy
        },
        sum_of(tasks@, wall_time_part()) > spec@.budget.max_wall_time_ms || sum_of(tasks@, llm_steps_part())
            > spec@.budget.max_llm_steps || sum_of(tasks@, tokens_part()) > spec@.budget.max_tokens || sum_of(
            tasks@,
            evaluations_part(),
        ) > policy.max_total_candidate_evaluations ==> r is Err,
{
    law_graphs_are_made(spec, tasks@, policy);
}

} // verus!
