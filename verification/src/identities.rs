//! What the identities cover.
//!
//! Every frozen contract is identified by the digest of its JSON without the identity. That
//! JSON tells all there is: contracts that differ in a field differ in their JSON, and so in
//! their identity, unless two different strings of bytes have one digest.

use vstd::prelude::*;
use vstd::utf8::{encode_utf8, encode_utf8_decode_utf8};

use crate::autopilot_feature::{FeatureImplementationContract, FeatureTestApproval, FrozenFeatureTests, FrozenTestArtifact};
use crate::autopilot_intake::{
    collide, AcceptanceCheck, AcceptanceCriterion, ExplorationObservation, ExplorationSource, FrozenAutopilotSpec, RepositoryExploration,
    RepositoryScope, ResolvedQuestion, SpecBudget,
};
use crate::autopilot_perf::{
    AntiNoisePolicy, BenchmarkCase, BenchmarkEnvironment, FrozenBenchmarkArtifact, FrozenPerfBenchmark, PerfBenchmarkApproval,
};
use crate::autopilot_pr::{action_names, AutopilotPullRequestPlan};
use crate::autopilot_task_dag::{
    AutopilotTask, AutopilotTaskDag, HardGateProfile, TaskBudget, TaskDagPolicy, TaskEditAllowance, TaskOperation, TaskRegime,
};
use crate::json::{
    array_json, empty_obj, get, law_lists_are_told_item_by_item, law_text_lists_are_told, lemma_array_wf, lemma_bound, lemma_text_array_wf,
    print, text_array, wf, ToJson, Value,
};
use crate::json_round_trip::{law_print_is_injective, lemma_decimal};
use crate::order::Keyed;
use crate::patchset::{FileOperation, PatchSet};
use crate::text::{decimal, law_decimal_writes_the_number, texts};

verus! {

// ---------------------------------------------------------------------------
// Specifications
// ---------------------------------------------------------------------------

proof fn lemma_members_of_spec_budget(x: SpecBudget)
    ensures
        wf(x.json()),
        x.json() is Obj,
        get(x.json(), "max_llm_steps"@) == Some(Value::Num(decimal(x.max_llm_steps as nat))),
        get(x.json(), "max_tokens"@) == Some(Value::Num(decimal(x.max_tokens as nat))),
        get(x.json(), "max_wall_time_ms"@) == Some(Value::Num(decimal(x.max_wall_time_ms as nat))),
{
    reveal_strlit("max_llm_steps");
    reveal_strlit("max_tokens");
    reveal_strlit("max_wall_time_ms");
    assert("max_llm_steps"@.len() == 13);
    assert("max_tokens"@.len() == 10);
    assert("max_wall_time_ms"@.len() == 16);
    lemma_decimal(x.max_llm_steps as nat);
    lemma_decimal(x.max_tokens as nat);
    lemma_decimal(x.max_wall_time_ms as nat);
    let o0 = empty_obj();
    let v0 = Value::Num(decimal(x.max_llm_steps as nat));
    lemma_bound(o0, "max_llm_steps"@, v0);
    let o1 = o0.with("max_llm_steps"@, v0);
    let v1 = Value::Num(decimal(x.max_tokens as nat));
    lemma_bound(o1, "max_tokens"@, v1);
    let o2 = o1.with("max_tokens"@, v1);
    let v2 = Value::Num(decimal(x.max_wall_time_ms as nat));
    lemma_bound(o2, "max_wall_time_ms"@, v2);
}

/// Budgets with the same JSON are the same, field by field.
pub proof fn law_members_of_spec_budget(a: SpecBudget, b: SpecBudget)
    requires
        a.json() == b.json(),
    ensures
        a.max_llm_steps == b.max_llm_steps,
        a.max_tokens == b.max_tokens,
        a.max_wall_time_ms == b.max_wall_time_ms,
{
    lemma_members_of_spec_budget(a);
    lemma_members_of_spec_budget(b);
    assert(get(a.json(), "max_llm_steps"@) == get(b.json(), "max_llm_steps"@));
    law_decimal_writes_the_number(a.max_llm_steps as nat);
    law_decimal_writes_the_number(b.max_llm_steps as nat);
    assert(get(a.json(), "max_tokens"@) == get(b.json(), "max_tokens"@));
    law_decimal_writes_the_number(a.max_tokens as nat);
    law_decimal_writes_the_number(b.max_tokens as nat);
    assert(get(a.json(), "max_wall_time_ms"@) == get(b.json(), "max_wall_time_ms"@));
    law_decimal_writes_the_number(a.max_wall_time_ms as nat);
    law_decimal_writes_the_number(b.max_wall_time_ms as nat);
}

proof fn lemma_members_of_scope(x: RepositoryScope)
    ensures
        wf(x.json()),
        x.json() is Obj,
        get(x.json(), "allowed_path_prefixes"@) == Some(text_array(texts(x.allowed_path_prefixes@))),
        get(x.json(), "repository"@) == Some(Value::Str(x.repository@)),
        get(x.json(), "revision"@) == Some(Value::Str(x.revision@)),
        get(x.json(), "role"@) == Some(Value::Str(x.role@)),
{
    reveal_strlit("allowed_path_prefixes");
    reveal_strlit("repository");
    reveal_strlit("revision");
    reveal_strlit("role");
    assert("allowed_path_prefixes"@.len() == 21);
    assert("repository"@.len() == 10);
    assert("revision"@.len() == 8);
    assert("role"@.len() == 4);
    lemma_text_array_wf(texts(x.allowed_path_prefixes@));
    let o0 = empty_obj();
    let v0 = text_array(texts(x.allowed_path_prefixes@));
    lemma_bound(o0, "allowed_path_prefixes"@, v0);
    let o1 = o0.with("allowed_path_prefixes"@, v0);
    let v1 = Value::Str(x.repository@);
    lemma_bound(o1, "repository"@, v1);
    let o2 = o1.with("repository"@, v1);
    let v2 = Value::Str(x.revision@);
    lemma_bound(o2, "revision"@, v2);
    let o3 = o2.with("revision"@, v2);
    let v3 = Value::Str(x.role@);
    lemma_bound(o3, "role"@, v3);
}

/// Scopes with the same JSON are the same, field by field.
pub proof fn law_members_of_scope(a: RepositoryScope, b: RepositoryScope)
    requires
        a.json() == b.json(),
    ensures
        texts(a.allowed_path_prefixes@) == texts(b.allowed_path_prefixes@),
        a.repository@ == b.repository@,
        a.revision@ == b.revision@,
        a.role@ == b.role@,
{
    lemma_members_of_scope(a);
    lemma_members_of_scope(b);
    assert(get(a.json(), "allowed_path_prefixes"@) == get(b.json(), "allowed_path_prefixes"@));
    law_text_lists_are_told(texts(a.allowed_path_prefixes@), texts(b.allowed_path_prefixes@));
    assert(get(a.json(), "repository"@) == get(b.json(), "repository"@));
    assert(get(a.json(), "revision"@) == get(b.json(), "revision"@));
    assert(get(a.json(), "role"@) == get(b.json(), "role"@));
}

proof fn lemma_members_of_decision(x: ResolvedQuestion)
    ensures
        wf(x.json()),
        x.json() is Obj,
        get(x.json(), "answer"@) == Some(Value::Str(x.answer@)),
        get(x.json(), "id"@) == Some(Value::Str(x.id@)),
        get(x.json(), "prompt"@) == Some(Value::Str(x.prompt@)),
{
    reveal_strlit("answer");
    reveal_strlit("id");
    reveal_strlit("prompt");
    assert("answer"@.len() == 6);
    assert("id"@.len() == 2);
    assert("prompt"@.len() == 6);
    assert("answer"@[0] != "prompt"@[0]);
    let o0 = empty_obj();
    let v0 = Value::Str(x.answer@);
    lemma_bound(o0, "answer"@, v0);
    let o1 = o0.with("answer"@, v0);
    let v1 = Value::Str(x.id@);
    lemma_bound(o1, "id"@, v1);
    let o2 = o1.with("id"@, v1);
    let v2 = Value::Str(x.prompt@);
    lemma_bound(o2, "prompt"@, v2);
}

/// Decisions with the same JSON are the same, field by field.
pub proof fn law_members_of_decision(a: ResolvedQuestion, b: ResolvedQuestion)
    requires
        a.json() == b.json(),
    ensures
        a.answer@ == b.answer@,
        a.id@ == b.id@,
        a.prompt@ == b.prompt@,
{
    lemma_members_of_decision(a);
    lemma_members_of_decision(b);
    assert(get(a.json(), "answer"@) == get(b.json(), "answer"@));
    assert(get(a.json(), "id"@) == get(b.json(), "id"@));
    assert(get(a.json(), "prompt"@) == get(b.json(), "prompt"@));
}

proof fn lemma_members_of_check(x: AcceptanceCheck)
    ensures
        wf(x.json()),
        x.json() is Obj,
        match x {
            AcceptanceCheck::Command { repository_role: _repository_role, command_kind: _command_kind, arguments: _arguments } => {
                &&& get(x.json(), "arguments"@) == Some(text_array(texts(_arguments@)))
                &&& get(x.json(), "command_kind"@) == Some(Value::Str(_command_kind@))
                &&& get(x.json(), "kind"@) == Some(Value::Str("command"@))
                &&& get(x.json(), "repository_role"@) == Some(Value::Str(_repository_role@))
            },
            AcceptanceCheck::FilePresent { repository_role: _repository_role, path: _path } => {
                &&& get(x.json(), "kind"@) == Some(Value::Str("file_present"@))
                &&& get(x.json(), "path"@) == Some(Value::Str(_path@))
                &&& get(x.json(), "repository_role"@) == Some(Value::Str(_repository_role@))
            },
            AcceptanceCheck::FileAbsent { repository_role: _repository_role, path: _path } => {
                &&& get(x.json(), "kind"@) == Some(Value::Str("file_absent"@))
                &&& get(x.json(), "path"@) == Some(Value::Str(_path@))
                &&& get(x.json(), "repository_role"@) == Some(Value::Str(_repository_role@))
            },
            AcceptanceCheck::FileSha256 { repository_role: _repository_role, path: _path, sha256: _sha256 } => {
                &&& get(x.json(), "kind"@) == Some(Value::Str("file_sha256"@))
                &&& get(x.json(), "path"@) == Some(Value::Str(_path@))
                &&& get(x.json(), "repository_role"@) == Some(Value::Str(_repository_role@))
                &&& get(x.json(), "sha256"@) == Some(Value::Str(_sha256@))
            },
        },
{
    reveal_strlit("arguments");
    reveal_strlit("command_kind");
    reveal_strlit("kind");
    reveal_strlit("path");
    reveal_strlit("repository_role");
    reveal_strlit("sha256");
    assert("arguments"@.len() == 9);
    assert("command_kind"@.len() == 12);
    assert("kind"@.len() == 4);
    assert("path"@.len() == 4);
    assert("repository_role"@.len() == 15);
    assert("sha256"@.len() == 6);
    assert("kind"@[0] != "path"@[0]);
    match x {
        AcceptanceCheck::Command { repository_role: _repository_role, command_kind: _command_kind, arguments: _arguments } => {
            lemma_text_array_wf(texts(_arguments@));
            let o0 = empty_obj();
            let v0 = text_array(texts(_arguments@));
            lemma_bound(o0, "arguments"@, v0);
            let o1 = o0.with("arguments"@, v0);
            let v1 = Value::Str(_command_kind@);
            lemma_bound(o1, "command_kind"@, v1);
            let o2 = o1.with("command_kind"@, v1);
            let v2 = Value::Str("command"@);
            lemma_bound(o2, "kind"@, v2);
            let o3 = o2.with("kind"@, v2);
            let v3 = Value::Str(_repository_role@);
            lemma_bound(o3, "repository_role"@, v3);
        },
        AcceptanceCheck::FilePresent { repository_role: _repository_role, path: _path } => {
            let o0 = empty_obj();
            let v0 = Value::Str("file_present"@);
            lemma_bound(o0, "kind"@, v0);
            let o1 = o0.with("kind"@, v0);
            let v1 = Value::Str(_path@);
            lemma_bound(o1, "path"@, v1);
            let o2 = o1.with("path"@, v1);
            let v2 = Value::Str(_repository_role@);
            lemma_bound(o2, "repository_role"@, v2);
        },
        AcceptanceCheck::FileAbsent { repository_role: _repository_role, path: _path } => {
            let o0 = empty_obj();
            let v0 = Value::Str("file_absent"@);
            lemma_bound(o0, "kind"@, v0);
            let o1 = o0.with("kind"@, v0);
            let v1 = Value::Str(_path@);
            lemma_bound(o1, "path"@, v1);
            let o2 = o1.with("path"@, v1);
            let v2 = Value::Str(_repository_role@);
            lemma_bound(o2, "repository_role"@, v2);
        },
        AcceptanceCheck::FileSha256 { repository_role: _repository_role, path: _path, sha256: _sha256 } => {
            let o0 = empty_obj();
            let v0 = Value::Str("file_sha256"@);
            lemma_bound(o0, "kind"@, v0);
            let o1 = o0.with("kind"@, v0);
            let v1 = Value::Str(_path@);
            lemma_bound(o1, "path"@, v1);
            let o2 = o1.with("path"@, v1);
            let v2 = Value::Str(_repository_role@);
            lemma_bound(o2, "repository_role"@, v2);
            let o3 = o2.with("repository_role"@, v2);
            let v3 = Value::Str(_sha256@);
            lemma_bound(o3, "sha256"@, v3);
        },
    }
}

/// Checks with the same JSON are of the same kind and the same, field by field.
pub proof fn law_members_of_check(a: AcceptanceCheck, b: AcceptanceCheck)
    requires
        a.json() == b.json(),
    ensures
        match (a, b) {
            (AcceptanceCheck::Command { repository_role: p_repository_role, command_kind: p_command_kind, arguments: p_arguments }, AcceptanceCheck::Command { repository_role: q_repository_role, command_kind: q_command_kind, arguments: q_arguments }) => texts(p_arguments@) == texts(q_arguments@) && p_command_kind@ == q_command_kind@ && p_repository_role@ == q_repository_role@,
            (AcceptanceCheck::FilePresent { repository_role: p_repository_role, path: p_path }, AcceptanceCheck::FilePresent { repository_role: q_repository_role, path: q_path }) => p_path@ == q_path@ && p_repository_role@ == q_repository_role@,
            (AcceptanceCheck::FileAbsent { repository_role: p_repository_role, path: p_path }, AcceptanceCheck::FileAbsent { repository_role: q_repository_role, path: q_path }) => p_path@ == q_path@ && p_repository_role@ == q_repository_role@,
            (AcceptanceCheck::FileSha256 { repository_role: p_repository_role, path: p_path, sha256: p_sha256 }, AcceptanceCheck::FileSha256 { repository_role: q_repository_role, path: q_path, sha256: q_sha256 }) => p_path@ == q_path@ && p_repository_role@ == q_repository_role@ && p_sha256@ == q_sha256@,
            _ => false,
        },
{
    reveal_strlit("command");
    reveal_strlit("file_present");
    reveal_strlit("file_absent");
    reveal_strlit("file_sha256");
    assert("command"@.len() == 7);
    assert("file_present"@.len() == 12);
    assert("file_absent"@.len() == 11);
    assert("file_sha256"@.len() == 11);
    assert("file_absent"@[5] != "file_sha256"@[5]);
    lemma_members_of_check(a);
    lemma_members_of_check(b);
    assert(get(a.json(), "kind"@) == get(b.json(), "kind"@));
    assert(get(a.json(), "arguments"@) == get(b.json(), "arguments"@));
    assert(get(a.json(), "command_kind"@) == get(b.json(), "command_kind"@));
    assert(get(a.json(), "path"@) == get(b.json(), "path"@));
    assert(get(a.json(), "repository_role"@) == get(b.json(), "repository_role"@));
    assert(get(a.json(), "sha256"@) == get(b.json(), "sha256"@));
    match (a, b) {
        (AcceptanceCheck::Command { repository_role: p_repository_role, command_kind: p_command_kind, arguments: p_arguments }, AcceptanceCheck::Command { repository_role: q_repository_role, command_kind: q_command_kind, arguments: q_arguments }) => {
            law_text_lists_are_told(texts(p_arguments@), texts(q_arguments@));
        },
        (AcceptanceCheck::FilePresent { repository_role: p_repository_role, path: p_path }, AcceptanceCheck::FilePresent { repository_role: q_repository_role, path: q_path }) => {
        },
        (AcceptanceCheck::FileAbsent { repository_role: p_repository_role, path: p_path }, AcceptanceCheck::FileAbsent { repository_role: q_repository_role, path: q_path }) => {
        },
        (AcceptanceCheck::FileSha256 { repository_role: p_repository_role, path: p_path, sha256: p_sha256 }, AcceptanceCheck::FileSha256 { repository_role: q_repository_role, path: q_path, sha256: q_sha256 }) => {
        },
        _ => {},
    }
}

proof fn lemma_members_of_criterion(x: AcceptanceCriterion)
    ensures
        wf(x.json()),
        x.json() is Obj,
        get(x.json(), "check"@) == Some(x.check.json()),
        get(x.json(), "description"@) == Some(Value::Str(x.description@)),
        get(x.json(), "id"@) == Some(Value::Str(x.id@)),
{
    reveal_strlit("check");
    reveal_strlit("description");
    reveal_strlit("id");
    assert("check"@.len() == 5);
    assert("description"@.len() == 11);
    assert("id"@.len() == 2);
    lemma_members_of_check(x.check);
    let o0 = empty_obj();
    let v0 = x.check.json();
    lemma_bound(o0, "check"@, v0);
    let o1 = o0.with("check"@, v0);
    let v1 = Value::Str(x.description@);
    lemma_bound(o1, "description"@, v1);
    let o2 = o1.with("description"@, v1);
    let v2 = Value::Str(x.id@);
    lemma_bound(o2, "id"@, v2);
}

/// Criteria with the same JSON are the same, field by field.
pub proof fn law_members_of_criterion(a: AcceptanceCriterion, b: AcceptanceCriterion)
    requires
        a.json() == b.json(),
    ensures
        a.check.json() == b.check.json(),
        a.description@ == b.description@,
        a.id@ == b.id@,
{
    lemma_members_of_criterion(a);
    lemma_members_of_criterion(b);
    assert(get(a.json(), "check"@) == get(b.json(), "check"@));
    assert(get(a.json(), "description"@) == get(b.json(), "description"@));
    assert(get(a.json(), "id"@) == get(b.json(), "id"@));
}

proof fn lemma_members_of_source(x: ExplorationSource)
    ensures
        wf(x.json()),
        x.json() is Obj,
        match x {
            ExplorationSource::RepositoryFile { path: _path, content_sha256: _content_sha256 } => {
                &&& get(x.json(), "content_sha256"@) == Some(Value::Str(_content_sha256@))
                &&& get(x.json(), "kind"@) == Some(Value::Str("repository_file"@))
                &&& get(x.json(), "path"@) == Some(Value::Str(_path@))
            },
            ExplorationSource::Commit { revision: _revision } => {
                &&& get(x.json(), "kind"@) == Some(Value::Str("commit"@))
                &&& get(x.json(), "revision"@) == Some(Value::Str(_revision@))
            },
        },
{
    reveal_strlit("content_sha256");
    reveal_strlit("kind");
    reveal_strlit("path");
    reveal_strlit("revision");
    assert("content_sha256"@.len() == 14);
    assert("kind"@.len() == 4);
    assert("path"@.len() == 4);
    assert("revision"@.len() == 8);
    assert("kind"@[0] != "path"@[0]);
    match x {
        ExplorationSource::RepositoryFile { path: _path, content_sha256: _content_sha256 } => {
            let o0 = empty_obj();
            let v0 = Value::Str(_content_sha256@);
            lemma_bound(o0, "content_sha256"@, v0);
            let o1 = o0.with("content_sha256"@, v0);
            let v1 = Value::Str("repository_file"@);
            lemma_bound(o1, "kind"@, v1);
            let o2 = o1.with("kind"@, v1);
            let v2 = Value::Str(_path@);
            lemma_bound(o2, "path"@, v2);
        },
        ExplorationSource::Commit { revision: _revision } => {
            let o0 = empty_obj();
            let v0 = Value::Str("commit"@);
            lemma_bound(o0, "kind"@, v0);
            let o1 = o0.with("kind"@, v0);
            let v1 = Value::Str(_revision@);
            lemma_bound(o1, "revision"@, v1);
        },
    }
}

/// Sources with the same JSON are of the same kind and the same, field by field.
pub proof fn law_members_of_source(a: ExplorationSource, b: ExplorationSource)
    requires
        a.json() == b.json(),
    ensures
        match (a, b) {
            (ExplorationSource::RepositoryFile { path: p_path, content_sha256: p_content_sha256 }, ExplorationSource::RepositoryFile { path: q_path, content_sha256: q_content_sha256 }) => p_content_sha256@ == q_content_sha256@ && p_path@ == q_path@,
            (ExplorationSource::Commit { revision: p_revision }, ExplorationSource::Commit { revision: q_revision }) => p_revision@ == q_revision@,
            _ => false,
        },
{
    reveal_strlit("repository_file");
    reveal_strlit("commit");
    assert("repository_file"@.len() == 15);
    assert("commit"@.len() == 6);
    lemma_members_of_source(a);
    lemma_members_of_source(b);
    assert(get(a.json(), "kind"@) == get(b.json(), "kind"@));
    assert(get(a.json(), "content_sha256"@) == get(b.json(), "content_sha256"@));
    assert(get(a.json(), "path"@) == get(b.json(), "path"@));
    assert(get(a.json(), "revision"@) == get(b.json(), "revision"@));
    match (a, b) {
        (ExplorationSource::RepositoryFile { path: p_path, content_sha256: p_content_sha256 }, ExplorationSource::RepositoryFile { path: q_path, content_sha256: q_content_sha256 }) => {
        },
        (ExplorationSource::Commit { revision: p_revision }, ExplorationSource::Commit { revision: q_revision }) => {
        },
        _ => {},
    }
}

proof fn lemma_members_of_observation(x: ExplorationObservation)
    ensures
        wf(x.json()),
        x.json() is Obj,
        get(x.json(), "category"@) == Some(Value::Str(x.category@)),
        get(x.json(), "source"@) == Some(x.source.json()),
        get(x.json(), "summary"@) == Some(Value::Str(x.summary@)),
{
    reveal_strlit("category");
    reveal_strlit("source");
    reveal_strlit("summary");
    assert("category"@.len() == 8);
    assert("source"@.len() == 6);
    assert("summary"@.len() == 7);
    lemma_members_of_source(x.source);
    let o0 = empty_obj();
    let v0 = Value::Str(x.category@);
    lemma_bound(o0, "category"@, v0);
    let o1 = o0.with("category"@, v0);
    let v1 = x.source.json();
    lemma_bound(o1, "source"@, v1);
    let o2 = o1.with("source"@, v1);
    let v2 = Value::Str(x.summary@);
    lemma_bound(o2, "summary"@, v2);
}

/// Observations with the same JSON are the same, field by field.
pub proof fn law_members_of_observation(a: ExplorationObservation, b: ExplorationObservation)
    requires
        a.json() == b.json(),
    ensures
        a.category@ == b.category@,
        a.source.json() == b.source.json(),
        a.summary@ == b.summary@,
{
    lemma_members_of_observation(a);
    lemma_members_of_observation(b);
    assert(get(a.json(), "category"@) == get(b.json(), "category"@));
    assert(get(a.json(), "source"@) == get(b.json(), "source"@));
    assert(get(a.json(), "summary"@) == get(b.json(), "summary"@));
}

proof fn lemma_members_of_exploration(x: RepositoryExploration)
    ensures
        wf(x.json()),
        x.json() is Obj,
        get(x.json(), "observations"@) == Some(array_json(x.observations@)),
        get(x.json(), "repository"@) == Some(Value::Str(x.repository@)),
        get(x.json(), "revision"@) == Some(Value::Str(x.revision@)),
{
    reveal_strlit("observations");
    reveal_strlit("repository");
    reveal_strlit("revision");
    assert("observations"@.len() == 12);
    assert("repository"@.len() == 10);
    assert("revision"@.len() == 8);
    assert forall|i: int| 0 <= i < x.observations@.len() implies wf((#[trigger] x.observations@[i]).json()) by {
        lemma_members_of_observation(x.observations@[i]);
    }
    lemma_array_wf(x.observations@);
    let o0 = empty_obj();
    let v0 = array_json(x.observations@);
    lemma_bound(o0, "observations"@, v0);
    let o1 = o0.with("observations"@, v0);
    let v1 = Value::Str(x.repository@);
    lemma_bound(o1, "repository"@, v1);
    let o2 = o1.with("repository"@, v1);
    let v2 = Value::Str(x.revision@);
    lemma_bound(o2, "revision"@, v2);
}

/// Explorations with the same JSON are the same, field by field.
pub proof fn law_members_of_exploration(a: RepositoryExploration, b: RepositoryExploration)
    requires
        a.json() == b.json(),
    ensures
        a.observations@.len() == b.observations@.len(),
        forall|i: int| 0 <= i < a.observations@.len() ==> (#[trigger] a.observations@[i]).json() == b.observations@[i].json(),
        a.repository@ == b.repository@,
        a.revision@ == b.revision@,
{
    lemma_members_of_exploration(a);
    lemma_members_of_exploration(b);
    assert(get(a.json(), "observations"@) == get(b.json(), "observations"@));
    law_lists_are_told_item_by_item(a.observations@, b.observations@);
    assert(get(a.json(), "repository"@) == get(b.json(), "repository"@));
    assert(get(a.json(), "revision"@) == get(b.json(), "revision"@));
}

proof fn lemma_members_of_spec(x: FrozenAutopilotSpec)
    ensures
        wf(x.unsigned()),
        x.unsigned() is Obj,
        get(x.unsigned(), "acceptance_criteria"@) == Some(array_json(x@.acceptance_criteria)),
        get(x.unsigned(), "budget"@) == Some(x@.budget.json()),
        get(x.unsigned(), "context"@) == Some(Value::Str(x@.context)),
        get(x.unsigned(), "decisions"@) == Some(array_json(x@.decisions)),
        get(x.unsigned(), "explorations"@) == Some(array_json(x@.explorations)),
        get(x.unsigned(), "objective"@) == Some(Value::Str(x@.objective)),
        get(x.unsigned(), "out_of_scope"@) == Some(text_array(texts(x@.out_of_scope))),
        get(x.unsigned(), "repository_scope"@) == Some(array_json(x@.repository_scope)),
        get(x.unsigned(), "schema_version"@) == Some(Value::Num(decimal(x@.schema_version as nat))),
{
    reveal_strlit("acceptance_criteria");
    reveal_strlit("budget");
    reveal_strlit("context");
    reveal_strlit("decisions");
    reveal_strlit("explorations");
    reveal_strlit("objective");
    reveal_strlit("out_of_scope");
    reveal_strlit("repository_scope");
    reveal_strlit("schema_version");
    assert("acceptance_criteria"@.len() == 19);
    assert("budget"@.len() == 6);
    assert("context"@.len() == 7);
    assert("decisions"@.len() == 9);
    assert("explorations"@.len() == 12);
    assert("objective"@.len() == 9);
    assert("out_of_scope"@.len() == 12);
    assert("repository_scope"@.len() == 16);
    assert("schema_version"@.len() == 14);
    assert("decisions"@[0] != "objective"@[0]);
    assert("explorations"@[0] != "out_of_scope"@[0]);
    assert forall|i: int| 0 <= i < x@.acceptance_criteria.len() implies wf((#[trigger] x@.acceptance_criteria[i]).json()) by {
        lemma_members_of_criterion(x@.acceptance_criteria[i]);
    }
    lemma_array_wf(x@.acceptance_criteria);
    lemma_members_of_spec_budget(x@.budget);
    assert forall|i: int| 0 <= i < x@.decisions.len() implies wf((#[trigger] x@.decisions[i]).json()) by {
        lemma_members_of_decision(x@.decisions[i]);
    }
    lemma_array_wf(x@.decisions);
    assert forall|i: int| 0 <= i < x@.explorations.len() implies wf((#[trigger] x@.explorations[i]).json()) by {
        lemma_members_of_exploration(x@.explorations[i]);
    }
    lemma_array_wf(x@.explorations);
    lemma_text_array_wf(texts(x@.out_of_scope));
    assert forall|i: int| 0 <= i < x@.repository_scope.len() implies wf((#[trigger] x@.repository_scope[i]).json()) by {
        lemma_members_of_scope(x@.repository_scope[i]);
    }
    lemma_array_wf(x@.repository_scope);
    lemma_decimal(x@.schema_version as nat);
    let o0 = empty_obj();
    let v0 = array_json(x@.acceptance_criteria);
    lemma_bound(o0, "acceptance_criteria"@, v0);
    let o1 = o0.with("acceptance_criteria"@, v0);
    let v1 = x@.budget.json();
    lemma_bound(o1, "budget"@, v1);
    let o2 = o1.with("budget"@, v1);
    let v2 = Value::Str(x@.context);
    lemma_bound(o2, "context"@, v2);
    let o3 = o2.with("context"@, v2);
    let v3 = array_json(x@.decisions);
    lemma_bound(o3, "decisions"@, v3);
    let o4 = o3.with("decisions"@, v3);
    let v4 = array_json(x@.explorations);
    lemma_bound(o4, "explorations"@, v4);
    let o5 = o4.with("explorations"@, v4);
    let v5 = Value::Str(x@.objective);
    lemma_bound(o5, "objective"@, v5);
    let o6 = o5.with("objective"@, v5);
    let v6 = text_array(texts(x@.out_of_scope));
    lemma_bound(o6, "out_of_scope"@, v6);
    let o7 = o6.with("out_of_scope"@, v6);
    let v7 = array_json(x@.repository_scope);
    lemma_bound(o7, "repository_scope"@, v7);
    let o8 = o7.with("repository_scope"@, v7);
    let v8 = Value::Num(decimal(x@.schema_version as nat));
    lemma_bound(o8, "schema_version"@, v8);
}

/// Specifications with the same content are the same, field by field.
pub proof fn law_members_of_spec(a: FrozenAutopilotSpec, b: FrozenAutopilotSpec)
    requires
        a.unsigned() == b.unsigned(),
    ensures
        a@.acceptance_criteria.len() == b@.acceptance_criteria.len(),
        forall|i: int| 0 <= i < a@.acceptance_criteria.len() ==> (#[trigger] a@.acceptance_criteria[i]).json() == b@.acceptance_criteria[i].json(),
        a@.budget.json() == b@.budget.json(),
        a@.context == b@.context,
        a@.decisions.len() == b@.decisions.len(),
        forall|i: int| 0 <= i < a@.decisions.len() ==> (#[trigger] a@.decisions[i]).json() == b@.decisions[i].json(),
        a@.explorations.len() == b@.explorations.len(),
        forall|i: int| 0 <= i < a@.explorations.len() ==> (#[trigger] a@.explorations[i]).json() == b@.explorations[i].json(),
        a@.objective == b@.objective,
        texts(a@.out_of_scope) == texts(b@.out_of_scope),
        a@.repository_scope.len() == b@.repository_scope.len(),
        forall|i: int| 0 <= i < a@.repository_scope.len() ==> (#[trigger] a@.repository_scope[i]).json() == b@.repository_scope[i].json(),
        a@.schema_version == b@.schema_version,
{
    lemma_members_of_spec(a);
    lemma_members_of_spec(b);
    assert(get(a.unsigned(), "acceptance_criteria"@) == get(b.unsigned(), "acceptance_criteria"@));
    law_lists_are_told_item_by_item(a@.acceptance_criteria, b@.acceptance_criteria);
    assert(get(a.unsigned(), "budget"@) == get(b.unsigned(), "budget"@));
    assert(get(a.unsigned(), "context"@) == get(b.unsigned(), "context"@));
    assert(get(a.unsigned(), "decisions"@) == get(b.unsigned(), "decisions"@));
    law_lists_are_told_item_by_item(a@.decisions, b@.decisions);
    assert(get(a.unsigned(), "explorations"@) == get(b.unsigned(), "explorations"@));
    law_lists_are_told_item_by_item(a@.explorations, b@.explorations);
    assert(get(a.unsigned(), "objective"@) == get(b.unsigned(), "objective"@));
    assert(get(a.unsigned(), "out_of_scope"@) == get(b.unsigned(), "out_of_scope"@));
    law_text_lists_are_told(texts(a@.out_of_scope), texts(b@.out_of_scope));
    assert(get(a.unsigned(), "repository_scope"@) == get(b.unsigned(), "repository_scope"@));
    law_lists_are_told_item_by_item(a@.repository_scope, b@.repository_scope);
    assert(get(a.unsigned(), "schema_version"@) == get(b.unsigned(), "schema_version"@));
    law_decimal_writes_the_number(a@.schema_version as nat);
    law_decimal_writes_the_number(b@.schema_version as nat);
}

/// Specifications with one identity are of one content, unless two different strings of bytes
/// have one digest.
pub proof fn law_identity_of_spec(a: FrozenAutopilotSpec, b: FrozenAutopilotSpec)
    requires
        a.identity() == b.identity(),
    ensures
        a.unsigned() == b.unsigned() || collide(encode_utf8(print(a.unsigned())), encode_utf8(print(b.unsigned()))),
{
    lemma_members_of_spec(a);
    lemma_members_of_spec(b);
    let s = print(a.unsigned());
    let t = print(b.unsigned());
    if encode_utf8(s) == encode_utf8(t) {
        encode_utf8_decode_utf8(s);
        encode_utf8_decode_utf8(t);
        law_print_is_injective(a.unsigned(), b.unsigned());
    }
}

// ---------------------------------------------------------------------------
// Task graphs
// ---------------------------------------------------------------------------

/// Operations with the same JSON are the same.
pub proof fn law_members_of_operation(a: TaskOperation, b: TaskOperation)
    requires
        a.json() == b.json(),
    ensures
        a == b,
{
    reveal_strlit("create");
    reveal_strlit("modify_exact");
    reveal_strlit("delete");
    reveal_strlit("rename");
    assert("create"@[0] != "delete"@[0] && "create"@[0] != "rename"@[0] && "delete"@[0] != "rename"@[0]);
    assert("modify_exact"@.len() == 12 && "create"@.len() == 6 && "delete"@.len() == 6 && "rename"@.len() == 6);
    assert(a.name() == b.name());
}

proof fn lemma_operation(x: TaskOperation)
    ensures
        wf(x.json()),
{
}

proof fn lemma_gates(x: HardGateProfile)
    ensures
        wf(x.json()),
{
    lemma_text_array_wf(x.required());
}

/// Gate profiles with the same JSON require the same gates.
pub proof fn law_members_of_gates(a: HardGateProfile, b: HardGateProfile)
    requires
        a.json() == b.json(),
    ensures
        a.required() == b.required(),
{
    law_text_lists_are_told(a.required(), b.required());
}

proof fn lemma_members_of_task_budget(x: TaskBudget)
    ensures
        wf(x.json()),
        x.json() is Obj,
        get(x.json(), "max_candidate_evaluations"@) == Some(Value::Num(decimal(x.max_candidate_evaluations as nat))),
        get(x.json(), "max_llm_steps"@) == Some(Value::Num(decimal(x.max_llm_steps as nat))),
        get(x.json(), "max_tokens"@) == Some(Value::Num(decimal(x.max_tokens as nat))),
        get(x.json(), "max_wall_time_ms"@) == Some(Value::Num(decimal(x.max_wall_time_ms as nat))),
{
    reveal_strlit("max_candidate_evaluations");
    reveal_strlit("max_llm_steps");
    reveal_strlit("max_tokens");
    reveal_strlit("max_wall_time_ms");
    assert("max_candidate_evaluations"@.len() == 25);
    assert("max_llm_steps"@.len() == 13);
    assert("max_tokens"@.len() == 10);
    assert("max_wall_time_ms"@.len() == 16);
    lemma_decimal(x.max_candidate_evaluations as nat);
    lemma_decimal(x.max_llm_steps as nat);
    lemma_decimal(x.max_tokens as nat);
    lemma_decimal(x.max_wall_time_ms as nat);
    let o0 = empty_obj();
    let v0 = Value::Num(decimal(x.max_candidate_evaluations as nat));
    lemma_bound(o0, "max_candidate_evaluations"@, v0);
    let o1 = o0.with("max_candidate_evaluations"@, v0);
    let v1 = Value::Num(decimal(x.max_llm_steps as nat));
    lemma_bound(o1, "max_llm_steps"@, v1);
    let o2 = o1.with("max_llm_steps"@, v1);
    let v2 = Value::Num(decimal(x.max_tokens as nat));
    lemma_bound(o2, "max_tokens"@, v2);
    let o3 = o2.with("max_tokens"@, v2);
    let v3 = Value::Num(decimal(x.max_wall_time_ms as nat));
    lemma_bound(o3, "max_wall_time_ms"@, v3);
}

/// Budgets of tasks with the same JSON are the same, field by field.
pub proof fn law_members_of_task_budget(a: TaskBudget, b: TaskBudget)
    requires
        a.json() == b.json(),
    ensures
        a.max_candidate_evaluations == b.max_candidate_evaluations,
        a.max_llm_steps == b.max_llm_steps,
        a.max_tokens == b.max_tokens,
        a.max_wall_time_ms == b.max_wall_time_ms,
{
    lemma_members_of_task_budget(a);
    lemma_members_of_task_budget(b);
    assert(get(a.json(), "max_candidate_evaluations"@) == get(b.json(), "max_candidate_evaluations"@));
    law_decimal_writes_the_number(a.max_candidate_evaluations as nat);
    law_decimal_writes_the_number(b.max_candidate_evaluations as nat);
    assert(get(a.json(), "max_llm_steps"@) == get(b.json(), "max_llm_steps"@));
    law_decimal_writes_the_number(a.max_llm_steps as nat);
    law_decimal_writes_the_number(b.max_llm_steps as nat);
    assert(get(a.json(), "max_tokens"@) == get(b.json(), "max_tokens"@));
    law_decimal_writes_the_number(a.max_tokens as nat);
    law_decimal_writes_the_number(b.max_tokens as nat);
    assert(get(a.json(), "max_wall_time_ms"@) == get(b.json(), "max_wall_time_ms"@));
    law_decimal_writes_the_number(a.max_wall_time_ms as nat);
    law_decimal_writes_the_number(b.max_wall_time_ms as nat);
}

proof fn lemma_members_of_dag_policy(x: TaskDagPolicy)
    ensures
        wf(x.json()),
        x.json() is Obj,
        get(x.json(), "max_tasks"@) == Some(Value::Num(decimal(x.max_tasks as nat))),
        get(x.json(), "max_candidate_evaluations_per_task"@) == Some(Value::Num(decimal(x.max_candidate_evaluations_per_task as nat))),
        get(x.json(), "max_total_candidate_evaluations"@) == Some(Value::Num(decimal(x.max_total_candidate_evaluations as nat))),
{
    reveal_strlit("max_tasks");
    reveal_strlit("max_candidate_evaluations_per_task");
    reveal_strlit("max_total_candidate_evaluations");
    assert("max_tasks"@.len() == 9);
    assert("max_candidate_evaluations_per_task"@.len() == 34);
    assert("max_total_candidate_evaluations"@.len() == 31);
    lemma_decimal(x.max_tasks as nat);
    lemma_decimal(x.max_candidate_evaluations_per_task as nat);
    lemma_decimal(x.max_total_candidate_evaluations as nat);
    let o0 = empty_obj();
    let v0 = Value::Num(decimal(x.max_tasks as nat));
    lemma_bound(o0, "max_tasks"@, v0);
    let o1 = o0.with("max_tasks"@, v0);
    let v1 = Value::Num(decimal(x.max_candidate_evaluations_per_task as nat));
    lemma_bound(o1, "max_candidate_evaluations_per_task"@, v1);
    let o2 = o1.with("max_candidate_evaluations_per_task"@, v1);
    let v2 = Value::Num(decimal(x.max_total_candidate_evaluations as nat));
    lemma_bound(o2, "max_total_candidate_evaluations"@, v2);
}

/// Policies with the same JSON are the same, field by field.
pub proof fn law_members_of_dag_policy(a: TaskDagPolicy, b: TaskDagPolicy)
    requires
        a.json() == b.json(),
    ensures
        a.max_tasks == b.max_tasks,
        a.max_candidate_evaluations_per_task == b.max_candidate_evaluations_per_task,
        a.max_total_candidate_evaluations == b.max_total_candidate_evaluations,
{
    lemma_members_of_dag_policy(a);
    lemma_members_of_dag_policy(b);
    assert(get(a.json(), "max_tasks"@) == get(b.json(), "max_tasks"@));
    law_decimal_writes_the_number(a.max_tasks as nat);
    law_decimal_writes_the_number(b.max_tasks as nat);
    assert(get(a.json(), "max_candidate_evaluations_per_task"@) == get(b.json(), "max_candidate_evaluations_per_task"@));
    law_decimal_writes_the_number(a.max_candidate_evaluations_per_task as nat);
    law_decimal_writes_the_number(b.max_candidate_evaluations_per_task as nat);
    assert(get(a.json(), "max_total_candidate_evaluations"@) == get(b.json(), "max_total_candidate_evaluations"@));
    law_decimal_writes_the_number(a.max_total_candidate_evaluations as nat);
    law_decimal_writes_the_number(b.max_total_candidate_evaluations as nat);
}

proof fn lemma_members_of_allowance(x: TaskEditAllowance)
    ensures
        wf(x.json()),
        x.json() is Obj,
        get(x.json(), "allowed_path_prefixes"@) == Some(text_array(x.prefixes())),
        get(x.json(), "operations"@) == Some(array_json(x.permitted())),
        get(x.json(), "repository_role"@) == Some(Value::Str(x.role())),
{
    reveal_strlit("allowed_path_prefixes");
    reveal_strlit("operations");
    reveal_strlit("repository_role");
    assert("allowed_path_prefixes"@.len() == 21);
    assert("operations"@.len() == 10);
    assert("repository_role"@.len() == 15);
    lemma_text_array_wf(x.prefixes());
    assert forall|i: int| 0 <= i < x.permitted().len() implies wf((#[trigger] x.permitted()[i]).json()) by {
        lemma_operation(x.permitted()[i]);
    }
    lemma_array_wf(x.permitted());
    let o0 = empty_obj();
    let v0 = text_array(x.prefixes());
    lemma_bound(o0, "allowed_path_prefixes"@, v0);
    let o1 = o0.with("allowed_path_prefixes"@, v0);
    let v1 = array_json(x.permitted());
    lemma_bound(o1, "operations"@, v1);
    let o2 = o1.with("operations"@, v1);
    let v2 = Value::Str(x.role());
    lemma_bound(o2, "repository_role"@, v2);
}

/// Allowances with the same JSON are the same, field by field.
pub proof fn law_members_of_allowance(a: TaskEditAllowance, b: TaskEditAllowance)
    requires
        a.json() == b.json(),
    ensures
        a.prefixes() == b.prefixes(),
        a.permitted().len() == b.permitted().len(),
        forall|i: int| 0 <= i < a.permitted().len() ==> (#[trigger] a.permitted()[i]).json() == b.permitted()[i].json(),
        a.role() == b.role(),
{
    lemma_members_of_allowance(a);
    lemma_members_of_allowance(b);
    assert(get(a.json(), "allowed_path_prefixes"@) == get(b.json(), "allowed_path_prefixes"@));
    law_text_lists_are_told(a.prefixes(), b.prefixes());
    assert(get(a.json(), "operations"@) == get(b.json(), "operations"@));
    law_lists_are_told_item_by_item(a.permitted(), b.permitted());
    assert(get(a.json(), "repository_role"@) == get(b.json(), "repository_role"@));
}

proof fn lemma_members_of_regime(x: TaskRegime)
    ensures
        wf(x.json()),
        x.json() is Obj,
        match x {
            TaskRegime::Feature => {
                &&& get(x.json(), "kind"@) == Some(Value::Str("feature"@))
            },
            TaskRegime::Perf { benchmark_profile_id: _benchmark_profile_id } => {
                &&& get(x.json(), "benchmark_profile_id"@) == Some(Value::Str(_benchmark_profile_id@))
                &&& get(x.json(), "kind"@) == Some(Value::Str("perf"@))
            },
        },
{
    reveal_strlit("benchmark_profile_id");
    reveal_strlit("kind");
    assert("benchmark_profile_id"@.len() == 20);
    assert("kind"@.len() == 4);
    match x {
        TaskRegime::Feature => {
            let o0 = empty_obj();
            let v0 = Value::Str("feature"@);
            lemma_bound(o0, "kind"@, v0);
        },
        TaskRegime::Perf { benchmark_profile_id: _benchmark_profile_id } => {
            let o0 = empty_obj();
            let v0 = Value::Str(_benchmark_profile_id@);
            lemma_bound(o0, "benchmark_profile_id"@, v0);
            let o1 = o0.with("benchmark_profile_id"@, v0);
            let v1 = Value::Str("perf"@);
            lemma_bound(o1, "kind"@, v1);
        },
    }
}

/// Regimes with the same JSON are the same.
pub proof fn law_members_of_regime(a: TaskRegime, b: TaskRegime)
    requires
        a.json() == b.json(),
    ensures
        match (a, b) {
            (TaskRegime::Feature, TaskRegime::Feature) => true,
            (TaskRegime::Perf { benchmark_profile_id: p_benchmark_profile_id }, TaskRegime::Perf { benchmark_profile_id: q_benchmark_profile_id }) => p_benchmark_profile_id@ == q_benchmark_profile_id@,
            _ => false,
        },
{
    reveal_strlit("feature");
    reveal_strlit("perf");
    assert("feature"@.len() == 7);
    assert("perf"@.len() == 4);
    lemma_members_of_regime(a);
    lemma_members_of_regime(b);
    assert(get(a.json(), "kind"@) == get(b.json(), "kind"@));
    assert(get(a.json(), "benchmark_profile_id"@) == get(b.json(), "benchmark_profile_id"@));
    match (a, b) {
        (TaskRegime::Feature, TaskRegime::Feature) => {
        },
        (TaskRegime::Perf { benchmark_profile_id: p_benchmark_profile_id }, TaskRegime::Perf { benchmark_profile_id: q_benchmark_profile_id }) => {
        },
        _ => {},
    }
}

proof fn lemma_members_of_task(x: AutopilotTask)
    ensures
        wf(x.json()),
        x.json() is Obj,
        get(x.json(), "budget"@) == Some(x@.budget.json()),
        get(x.json(), "dependencies"@) == Some(text_array(texts(x@.dependencies))),
        get(x.json(), "description"@) == Some(Value::Str(x@.description)),
        get(x.json(), "done_criterion_id"@) == Some(Value::Str(x@.done_criterion_id)),
        get(x.json(), "edit_allowances"@) == Some(array_json(x@.edit_allowances)),
        get(x.json(), "hard_gates"@) == Some(x@.hard_gate_profile.json()),
        get(x.json(), "id"@) == Some(Value::Str(x@.id)),
        get(x.json(), "regime"@) == Some(x@.regime.json()),
        get(x.json(), "repository_roles"@) == Some(text_array(texts(x@.repository_roles))),
{
    reveal_strlit("budget");
    reveal_strlit("dependencies");
    reveal_strlit("description");
    reveal_strlit("done_criterion_id");
    reveal_strlit("edit_allowances");
    reveal_strlit("hard_gates");
    reveal_strlit("id");
    reveal_strlit("regime");
    reveal_strlit("repository_roles");
    assert("budget"@.len() == 6);
    assert("dependencies"@.len() == 12);
    assert("description"@.len() == 11);
    assert("done_criterion_id"@.len() == 17);
    assert("edit_allowances"@.len() == 15);
    assert("hard_gates"@.len() == 10);
    assert("id"@.len() == 2);
    assert("regime"@.len() == 6);
    assert("repository_roles"@.len() == 16);
    assert("budget"@[0] != "regime"@[0]);
    lemma_members_of_task_budget(x@.budget);
    lemma_text_array_wf(texts(x@.dependencies));
    assert forall|i: int| 0 <= i < x@.edit_allowances.len() implies wf((#[trigger] x@.edit_allowances[i]).json()) by {
        lemma_members_of_allowance(x@.edit_allowances[i]);
    }
    lemma_array_wf(x@.edit_allowances);
    lemma_gates(x@.hard_gate_profile);
    lemma_members_of_regime(x@.regime);
    lemma_text_array_wf(texts(x@.repository_roles));
    let o0 = empty_obj();
    let v0 = x@.budget.json();
    lemma_bound(o0, "budget"@, v0);
    let o1 = o0.with("budget"@, v0);
    let v1 = text_array(texts(x@.dependencies));
    lemma_bound(o1, "dependencies"@, v1);
    let o2 = o1.with("dependencies"@, v1);
    let v2 = Value::Str(x@.description);
    lemma_bound(o2, "description"@, v2);
    let o3 = o2.with("description"@, v2);
    let v3 = Value::Str(x@.done_criterion_id);
    lemma_bound(o3, "done_criterion_id"@, v3);
    let o4 = o3.with("done_criterion_id"@, v3);
    let v4 = array_json(x@.edit_allowances);
    lemma_bound(o4, "edit_allowances"@, v4);
    let o5 = o4.with("edit_allowances"@, v4);
    let v5 = x@.hard_gate_profile.json();
    lemma_bound(o5, "hard_gates"@, v5);
    let o6 = o5.with("hard_gates"@, v5);
    let v6 = Value::Str(x@.id);
    lemma_bound(o6, "id"@, v6);
    let o7 = o6.with("id"@, v6);
    let v7 = x@.regime.json();
    lemma_bound(o7, "regime"@, v7);
    let o8 = o7.with("regime"@, v7);
    let v8 = text_array(texts(x@.repository_roles));
    lemma_bound(o8, "repository_roles"@, v8);
}

/// Tasks with the same JSON are the same, field by field.
pub proof fn law_members_of_task(a: AutopilotTask, b: AutopilotTask)
    requires
        a.json() == b.json(),
    ensures
        a@.budget.json() == b@.budget.json(),
        texts(a@.dependencies) == texts(b@.dependencies),
        a@.description == b@.description,
        a@.done_criterion_id == b@.done_criterion_id,
        a@.edit_allowances.len() == b@.edit_allowances.len(),
        forall|i: int| 0 <= i < a@.edit_allowances.len() ==> (#[trigger] a@.edit_allowances[i]).json() == b@.edit_allowances[i].json(),
        a@.hard_gate_profile.json() == b@.hard_gate_profile.json(),
        a@.id == b@.id,
        a@.regime.json() == b@.regime.json(),
        texts(a@.repository_roles) == texts(b@.repository_roles),
{
    lemma_members_of_task(a);
    lemma_members_of_task(b);
    assert(get(a.json(), "budget"@) == get(b.json(), "budget"@));
    assert(get(a.json(), "dependencies"@) == get(b.json(), "dependencies"@));
    law_text_lists_are_told(texts(a@.dependencies), texts(b@.dependencies));
    assert(get(a.json(), "description"@) == get(b.json(), "description"@));
    assert(get(a.json(), "done_criterion_id"@) == get(b.json(), "done_criterion_id"@));
    assert(get(a.json(), "edit_allowances"@) == get(b.json(), "edit_allowances"@));
    law_lists_are_told_item_by_item(a@.edit_allowances, b@.edit_allowances);
    assert(get(a.json(), "hard_gates"@) == get(b.json(), "hard_gates"@));
    assert(get(a.json(), "id"@) == get(b.json(), "id"@));
    assert(get(a.json(), "regime"@) == get(b.json(), "regime"@));
    assert(get(a.json(), "repository_roles"@) == get(b.json(), "repository_roles"@));
    law_text_lists_are_told(texts(a@.repository_roles), texts(b@.repository_roles));
}

proof fn lemma_members_of_dag(x: AutopilotTaskDag)
    ensures
        wf(x.unsigned()),
        x.unsigned() is Obj,
        get(x.unsigned(), "policy"@) == Some(x@.policy.json()),
        get(x.unsigned(), "schema_version"@) == Some(Value::Num(decimal(x@.schema_version as nat))),
        get(x.unsigned(), "spec_sha256"@) == Some(Value::Str(x@.spec_sha256)),
        get(x.unsigned(), "tasks"@) == Some(array_json(x@.tasks)),
        get(x.unsigned(), "topological_order"@) == Some(text_array(texts(x@.topological_order))),
{
    reveal_strlit("policy");
    reveal_strlit("schema_version");
    reveal_strlit("spec_sha256");
    reveal_strlit("tasks");
    reveal_strlit("topological_order");
    assert("policy"@.len() == 6);
    assert("schema_version"@.len() == 14);
    assert("spec_sha256"@.len() == 11);
    assert("tasks"@.len() == 5);
    assert("topological_order"@.len() == 17);
    lemma_members_of_dag_policy(x@.policy);
    lemma_decimal(x@.schema_version as nat);
    assert forall|i: int| 0 <= i < x@.tasks.len() implies wf((#[trigger] x@.tasks[i]).json()) by {
        lemma_members_of_task(x@.tasks[i]);
    }
    lemma_array_wf(x@.tasks);
    lemma_text_array_wf(texts(x@.topological_order));
    let o0 = empty_obj();
    let v0 = x@.policy.json();
    lemma_bound(o0, "policy"@, v0);
    let o1 = o0.with("policy"@, v0);
    let v1 = Value::Num(decimal(x@.schema_version as nat));
    lemma_bound(o1, "schema_version"@, v1);
    let o2 = o1.with("schema_version"@, v1);
    let v2 = Value::Str(x@.spec_sha256);
    lemma_bound(o2, "spec_sha256"@, v2);
    let o3 = o2.with("spec_sha256"@, v2);
    let v3 = array_json(x@.tasks);
    lemma_bound(o3, "tasks"@, v3);
    let o4 = o3.with("tasks"@, v3);
    let v4 = text_array(texts(x@.topological_order));
    lemma_bound(o4, "topological_order"@, v4);
}

/// Task graphs with the same content are the same, field by field.
pub proof fn law_members_of_dag(a: AutopilotTaskDag, b: AutopilotTaskDag)
    requires
        a.unsigned() == b.unsigned(),
    ensures
        a@.policy.json() == b@.policy.json(),
        a@.schema_version == b@.schema_version,
        a@.spec_sha256 == b@.spec_sha256,
        a@.tasks.len() == b@.tasks.len(),
        forall|i: int| 0 <= i < a@.tasks.len() ==> (#[trigger] a@.tasks[i]).json() == b@.tasks[i].json(),
        texts(a@.topological_order) == texts(b@.topological_order),
{
    lemma_members_of_dag(a);
    lemma_members_of_dag(b);
    assert(get(a.unsigned(), "policy"@) == get(b.unsigned(), "policy"@));
    assert(get(a.unsigned(), "schema_version"@) == get(b.unsigned(), "schema_version"@));
    law_decimal_writes_the_number(a@.schema_version as nat);
    law_decimal_writes_the_number(b@.schema_version as nat);
    assert(get(a.unsigned(), "spec_sha256"@) == get(b.unsigned(), "spec_sha256"@));
    assert(get(a.unsigned(), "tasks"@) == get(b.unsigned(), "tasks"@));
    law_lists_are_told_item_by_item(a@.tasks, b@.tasks);
    assert(get(a.unsigned(), "topological_order"@) == get(b.unsigned(), "topological_order"@));
    law_text_lists_are_told(texts(a@.topological_order), texts(b@.topological_order));
}

/// Task graphs with one identity are of one content, unless two different strings of bytes
/// have one digest.
pub proof fn law_identity_of_dag(a: AutopilotTaskDag, b: AutopilotTaskDag)
    requires
        a.identity() == b.identity(),
    ensures
        a.unsigned() == b.unsigned() || collide(encode_utf8(print(a.unsigned())), encode_utf8(print(b.unsigned()))),
{
    lemma_members_of_dag(a);
    lemma_members_of_dag(b);
    let s = print(a.unsigned());
    let t = print(b.unsigned());
    if encode_utf8(s) == encode_utf8(t) {
        encode_utf8_decode_utf8(s);
        encode_utf8_decode_utf8(t);
        law_print_is_injective(a.unsigned(), b.unsigned());
    }
}

// ---------------------------------------------------------------------------
// Feature tests and contracts
// ---------------------------------------------------------------------------

proof fn lemma_members_of_test_approval(x: FeatureTestApproval)
    ensures
        wf(x.json()),
        x.json() is Obj,
        get(x.json(), "authority"@) == Some(Value::Str(x.authority@)),
        get(x.json(), "evidence_sha256"@) == Some(Value::Str(x.evidence_sha256@)),
{
    reveal_strlit("authority");
    reveal_strlit("evidence_sha256");
    assert("authority"@.len() == 9);
    assert("evidence_sha256"@.len() == 15);
    let o0 = empty_obj();
    let v0 = Value::Str(x.authority@);
    lemma_bound(o0, "authority"@, v0);
    let o1 = o0.with("authority"@, v0);
    let v1 = Value::Str(x.evidence_sha256@);
    lemma_bound(o1, "evidence_sha256"@, v1);
}

/// Approvals of tests with the same JSON are the same, field by field.
pub proof fn law_members_of_test_approval(a: FeatureTestApproval, b: FeatureTestApproval)
    requires
        a.json() == b.json(),
    ensures
        a.authority@ == b.authority@,
        a.evidence_sha256@ == b.evidence_sha256@,
{
    lemma_members_of_test_approval(a);
    lemma_members_of_test_approval(b);
    assert(get(a.json(), "authority"@) == get(b.json(), "authority"@));
    assert(get(a.json(), "evidence_sha256"@) == get(b.json(), "evidence_sha256"@));
}

proof fn lemma_members_of_test_artifact(x: FrozenTestArtifact)
    ensures
        wf(x.json()),
        x.json() is Obj,
        get(x.json(), "path"@) == Some(Value::Str(x.path@)),
        get(x.json(), "repository_role"@) == Some(Value::Str(x.repository_role@)),
        get(x.json(), "sha256"@) == Some(Value::Str(x.sha256@)),
{
    reveal_strlit("path");
    reveal_strlit("repository_role");
    reveal_strlit("sha256");
    assert("path"@.len() == 4);
    assert("repository_role"@.len() == 15);
    assert("sha256"@.len() == 6);
    let k = x.key();
    assert(k[0] == x.repository_role@ && k[1] == x.path@ && k[2] == x.sha256@);
    let o0 = empty_obj();
    let v0 = Value::Str(x.path@);
    lemma_bound(o0, "path"@, v0);
    let o1 = o0.with("path"@, v0);
    let v1 = Value::Str(x.repository_role@);
    lemma_bound(o1, "repository_role"@, v1);
    let o2 = o1.with("repository_role"@, v1);
    let v2 = Value::Str(x.sha256@);
    lemma_bound(o2, "sha256"@, v2);
}

/// Frozen tests with the same JSON are the same, field by field.
pub proof fn law_members_of_test_artifact(a: FrozenTestArtifact, b: FrozenTestArtifact)
    requires
        a.json() == b.json(),
    ensures
        a.path@ == b.path@,
        a.repository_role@ == b.repository_role@,
        a.sha256@ == b.sha256@,
{
    lemma_members_of_test_artifact(a);
    lemma_members_of_test_artifact(b);
    assert(get(a.json(), "path"@) == get(b.json(), "path"@));
    assert(get(a.json(), "repository_role"@) == get(b.json(), "repository_role"@));
    assert(get(a.json(), "sha256"@) == get(b.json(), "sha256"@));
}

proof fn lemma_members_of_tests(x: FrozenFeatureTests)
    ensures
        wf(x.unsigned()),
        x.unsigned() is Obj,
        get(x.unsigned(), "approval"@) == Some(x@.approval.json()),
        get(x.unsigned(), "artifacts"@) == Some(array_json(x@.artifacts)),
        get(x.unsigned(), "dag_sha256"@) == Some(Value::Str(x@.dag_sha256)),
        get(x.unsigned(), "schema_version"@) == Some(Value::Num(decimal(x@.schema_version as nat))),
        get(x.unsigned(), "spec_sha256"@) == Some(Value::Str(x@.spec_sha256)),
        get(x.unsigned(), "test_task_id"@) == Some(Value::Str(x@.test_task_id)),
{
    reveal_strlit("approval");
    reveal_strlit("artifacts");
    reveal_strlit("dag_sha256");
    reveal_strlit("schema_version");
    reveal_strlit("spec_sha256");
    reveal_strlit("test_task_id");
    assert("approval"@.len() == 8);
    assert("artifacts"@.len() == 9);
    assert("dag_sha256"@.len() == 10);
    assert("schema_version"@.len() == 14);
    assert("spec_sha256"@.len() == 11);
    assert("test_task_id"@.len() == 12);
    lemma_members_of_test_approval(x@.approval);
    assert forall|i: int| 0 <= i < x@.artifacts.len() implies wf((#[trigger] x@.artifacts[i]).json()) by {
        lemma_members_of_test_artifact(x@.artifacts[i]);
    }
    lemma_array_wf(x@.artifacts);
    lemma_decimal(x@.schema_version as nat);
    let o0 = empty_obj();
    let v0 = x@.approval.json();
    lemma_bound(o0, "approval"@, v0);
    let o1 = o0.with("approval"@, v0);
    let v1 = array_json(x@.artifacts);
    lemma_bound(o1, "artifacts"@, v1);
    let o2 = o1.with("artifacts"@, v1);
    let v2 = Value::Str(x@.dag_sha256);
    lemma_bound(o2, "dag_sha256"@, v2);
    let o3 = o2.with("dag_sha256"@, v2);
    let v3 = Value::Num(decimal(x@.schema_version as nat));
    lemma_bound(o3, "schema_version"@, v3);
    let o4 = o3.with("schema_version"@, v3);
    let v4 = Value::Str(x@.spec_sha256);
    lemma_bound(o4, "spec_sha256"@, v4);
    let o5 = o4.with("spec_sha256"@, v4);
    let v5 = Value::Str(x@.test_task_id);
    lemma_bound(o5, "test_task_id"@, v5);
}

/// Manifests with the same content are the same, field by field.
pub proof fn law_members_of_tests(a: FrozenFeatureTests, b: FrozenFeatureTests)
    requires
        a.unsigned() == b.unsigned(),
    ensures
        a@.approval.json() == b@.approval.json(),
        a@.artifacts.len() == b@.artifacts.len(),
        forall|i: int| 0 <= i < a@.artifacts.len() ==> (#[trigger] a@.artifacts[i]).json() == b@.artifacts[i].json(),
        a@.dag_sha256 == b@.dag_sha256,
        a@.schema_version == b@.schema_version,
        a@.spec_sha256 == b@.spec_sha256,
        a@.test_task_id == b@.test_task_id,
{
    lemma_members_of_tests(a);
    lemma_members_of_tests(b);
    assert(get(a.unsigned(), "approval"@) == get(b.unsigned(), "approval"@));
    assert(get(a.unsigned(), "artifacts"@) == get(b.unsigned(), "artifacts"@));
    law_lists_are_told_item_by_item(a@.artifacts, b@.artifacts);
    assert(get(a.unsigned(), "dag_sha256"@) == get(b.unsigned(), "dag_sha256"@));
    assert(get(a.unsigned(), "schema_version"@) == get(b.unsigned(), "schema_version"@));
    law_decimal_writes_the_number(a@.schema_version as nat);
    law_decimal_writes_the_number(b@.schema_version as nat);
    assert(get(a.unsigned(), "spec_sha256"@) == get(b.unsigned(), "spec_sha256"@));
    assert(get(a.unsigned(), "test_task_id"@) == get(b.unsigned(), "test_task_id"@));
}

/// Manifests with one identity are of one content, unless two different strings of bytes
/// have one digest.
pub proof fn law_identity_of_tests(a: FrozenFeatureTests, b: FrozenFeatureTests)
    requires
        a.identity() == b.identity(),
    ensures
        a.unsigned() == b.unsigned() || collide(encode_utf8(print(a.unsigned())), encode_utf8(print(b.unsigned()))),
{
    lemma_members_of_tests(a);
    lemma_members_of_tests(b);
    let s = print(a.unsigned());
    let t = print(b.unsigned());
    if encode_utf8(s) == encode_utf8(t) {
        encode_utf8_decode_utf8(s);
        encode_utf8_decode_utf8(t);
        law_print_is_injective(a.unsigned(), b.unsigned());
    }
}

proof fn lemma_members_of_contract(x: FeatureImplementationContract)
    ensures
        wf(x.unsigned()),
        x.unsigned() is Obj,
        get(x.unsigned(), "dag_sha256"@) == Some(Value::Str(x@.dag_sha256)),
        get(x.unsigned(), "frozen_tests_sha256"@) == Some(Value::Str(x@.frozen_tests_sha256)),
        get(x.unsigned(), "implementation_task_id"@) == Some(Value::Str(x@.implementation_task_id)),
        get(x.unsigned(), "schema_version"@) == Some(Value::Num(decimal(x@.schema_version as nat))),
        get(x.unsigned(), "spec_sha256"@) == Some(Value::Str(x@.spec_sha256)),
        get(x.unsigned(), "test_task_id"@) == Some(Value::Str(x@.test_task_id)),
{
    reveal_strlit("dag_sha256");
    reveal_strlit("frozen_tests_sha256");
    reveal_strlit("implementation_task_id");
    reveal_strlit("schema_version");
    reveal_strlit("spec_sha256");
    reveal_strlit("test_task_id");
    assert("dag_sha256"@.len() == 10);
    assert("frozen_tests_sha256"@.len() == 19);
    assert("implementation_task_id"@.len() == 22);
    assert("schema_version"@.len() == 14);
    assert("spec_sha256"@.len() == 11);
    assert("test_task_id"@.len() == 12);
    lemma_decimal(x@.schema_version as nat);
    let o0 = empty_obj();
    let v0 = Value::Str(x@.dag_sha256);
    lemma_bound(o0, "dag_sha256"@, v0);
    let o1 = o0.with("dag_sha256"@, v0);
    let v1 = Value::Str(x@.frozen_tests_sha256);
    lemma_bound(o1, "frozen_tests_sha256"@, v1);
    let o2 = o1.with("frozen_tests_sha256"@, v1);
    let v2 = Value::Str(x@.implementation_task_id);
    lemma_bound(o2, "implementation_task_id"@, v2);
    let o3 = o2.with("implementation_task_id"@, v2);
    let v3 = Value::Num(decimal(x@.schema_version as nat));
    lemma_bound(o3, "schema_version"@, v3);
    let o4 = o3.with("schema_version"@, v3);
    let v4 = Value::Str(x@.spec_sha256);
    lemma_bound(o4, "spec_sha256"@, v4);
    let o5 = o4.with("spec_sha256"@, v4);
    let v5 = Value::Str(x@.test_task_id);
    lemma_bound(o5, "test_task_id"@, v5);
}

/// Contracts with the same content are the same, field by field.
pub proof fn law_members_of_contract(a: FeatureImplementationContract, b: FeatureImplementationContract)
    requires
        a.unsigned() == b.unsigned(),
    ensures
        a@.dag_sha256 == b@.dag_sha256,
        a@.frozen_tests_sha256 == b@.frozen_tests_sha256,
        a@.implementation_task_id == b@.implementation_task_id,
        a@.schema_version == b@.schema_version,
        a@.spec_sha256 == b@.spec_sha256,
        a@.test_task_id == b@.test_task_id,
{
    lemma_members_of_contract(a);
    lemma_members_of_contract(b);
    assert(get(a.unsigned(), "dag_sha256"@) == get(b.unsigned(), "dag_sha256"@));
    assert(get(a.unsigned(), "frozen_tests_sha256"@) == get(b.unsigned(), "frozen_tests_sha256"@));
    assert(get(a.unsigned(), "implementation_task_id"@) == get(b.unsigned(), "implementation_task_id"@));
    assert(get(a.unsigned(), "schema_version"@) == get(b.unsigned(), "schema_version"@));
    law_decimal_writes_the_number(a@.schema_version as nat);
    law_decimal_writes_the_number(b@.schema_version as nat);
    assert(get(a.unsigned(), "spec_sha256"@) == get(b.unsigned(), "spec_sha256"@));
    assert(get(a.unsigned(), "test_task_id"@) == get(b.unsigned(), "test_task_id"@));
}

/// Contracts with one identity are of one content, unless two different strings of bytes
/// have one digest.
pub proof fn law_identity_of_contract(a: FeatureImplementationContract, b: FeatureImplementationContract)
    requires
        a.identity() == b.identity(),
    ensures
        a.unsigned() == b.unsigned() || collide(encode_utf8(print(a.unsigned())), encode_utf8(print(b.unsigned()))),
{
    lemma_members_of_contract(a);
    lemma_members_of_contract(b);
    let s = print(a.unsigned());
    let t = print(b.unsigned());
    if encode_utf8(s) == encode_utf8(t) {
        encode_utf8_decode_utf8(s);
        encode_utf8_decode_utf8(t);
        law_print_is_injective(a.unsigned(), b.unsigned());
    }
}

// ---------------------------------------------------------------------------
// Benchmarks
// ---------------------------------------------------------------------------

proof fn lemma_members_of_benchmark_approval(x: PerfBenchmarkApproval)
    ensures
        wf(x.json()),
        x.json() is Obj,
        get(x.json(), "authority"@) == Some(Value::Str(x.authority@)),
        get(x.json(), "evidence_sha256"@) == Some(Value::Str(x.evidence_sha256@)),
{
    reveal_strlit("authority");
    reveal_strlit("evidence_sha256");
    assert("authority"@.len() == 9);
    assert("evidence_sha256"@.len() == 15);
    let o0 = empty_obj();
    let v0 = Value::Str(x.authority@);
    lemma_bound(o0, "authority"@, v0);
    let o1 = o0.with("authority"@, v0);
    let v1 = Value::Str(x.evidence_sha256@);
    lemma_bound(o1, "evidence_sha256"@, v1);
}

/// Approvals of benchmarks with the same JSON are the same, field by field.
pub proof fn law_members_of_benchmark_approval(a: PerfBenchmarkApproval, b: PerfBenchmarkApproval)
    requires
        a.json() == b.json(),
    ensures
        a.authority@ == b.authority@,
        a.evidence_sha256@ == b.evidence_sha256@,
{
    lemma_members_of_benchmark_approval(a);
    lemma_members_of_benchmark_approval(b);
    assert(get(a.json(), "authority"@) == get(b.json(), "authority"@));
    assert(get(a.json(), "evidence_sha256"@) == get(b.json(), "evidence_sha256"@));
}

proof fn lemma_members_of_environment(x: BenchmarkEnvironment)
    ensures
        wf(x.json()),
        x.json() is Obj,
        get(x.json(), "hardware_sha256"@) == Some(Value::Str(x.hardware_sha256@)),
        get(x.json(), "software_sha256"@) == Some(Value::Str(x.software_sha256@)),
{
    reveal_strlit("hardware_sha256");
    reveal_strlit("software_sha256");
    assert("hardware_sha256"@.len() == 15);
    assert("software_sha256"@.len() == 15);
    assert("hardware_sha256"@[0] != "software_sha256"@[0]);
    let o0 = empty_obj();
    let v0 = Value::Str(x.hardware_sha256@);
    lemma_bound(o0, "hardware_sha256"@, v0);
    let o1 = o0.with("hardware_sha256"@, v0);
    let v1 = Value::Str(x.software_sha256@);
    lemma_bound(o1, "software_sha256"@, v1);
}

/// Environments with the same JSON are the same, field by field.
pub proof fn law_members_of_environment(a: BenchmarkEnvironment, b: BenchmarkEnvironment)
    requires
        a.json() == b.json(),
    ensures
        a.hardware_sha256@ == b.hardware_sha256@,
        a.software_sha256@ == b.software_sha256@,
{
    lemma_members_of_environment(a);
    lemma_members_of_environment(b);
    assert(get(a.json(), "hardware_sha256"@) == get(b.json(), "hardware_sha256"@));
    assert(get(a.json(), "software_sha256"@) == get(b.json(), "software_sha256"@));
}

proof fn lemma_members_of_benchmark_artifact(x: FrozenBenchmarkArtifact)
    ensures
        wf(x.json()),
        x.json() is Obj,
        get(x.json(), "path"@) == Some(Value::Str(x.path@)),
        get(x.json(), "repository_role"@) == Some(Value::Str(x.repository_role@)),
        get(x.json(), "sha256"@) == Some(Value::Str(x.sha256@)),
{
    reveal_strlit("path");
    reveal_strlit("repository_role");
    reveal_strlit("sha256");
    assert("path"@.len() == 4);
    assert("repository_role"@.len() == 15);
    assert("sha256"@.len() == 6);
    let k = x.key();
    assert(k[0] == x.repository_role@ && k[1] == x.path@ && k[2] == x.sha256@);
    let o0 = empty_obj();
    let v0 = Value::Str(x.path@);
    lemma_bound(o0, "path"@, v0);
    let o1 = o0.with("path"@, v0);
    let v1 = Value::Str(x.repository_role@);
    lemma_bound(o1, "repository_role"@, v1);
    let o2 = o1.with("repository_role"@, v1);
    let v2 = Value::Str(x.sha256@);
    lemma_bound(o2, "sha256"@, v2);
}

/// Frozen benchmarks with the same JSON are the same, field by field.
pub proof fn law_members_of_benchmark_artifact(a: FrozenBenchmarkArtifact, b: FrozenBenchmarkArtifact)
    requires
        a.json() == b.json(),
    ensures
        a.path@ == b.path@,
        a.repository_role@ == b.repository_role@,
        a.sha256@ == b.sha256@,
{
    lemma_members_of_benchmark_artifact(a);
    lemma_members_of_benchmark_artifact(b);
    assert(get(a.json(), "path"@) == get(b.json(), "path"@));
    assert(get(a.json(), "repository_role"@) == get(b.json(), "repository_role"@));
    assert(get(a.json(), "sha256"@) == get(b.json(), "sha256"@));
}

proof fn lemma_members_of_case(x: BenchmarkCase)
    ensures
        wf(x.json()),
        x.json() is Obj,
        get(x.json(), "arguments"@) == Some(text_array(texts(x.arguments@))),
        get(x.json(), "class"@) == Some(Value::Str(x.class.name())),
        get(x.json(), "command_kind"@) == Some(Value::Str(x.command_kind@)),
        get(x.json(), "direction"@) == Some(Value::Str(x.direction.name())),
        get(x.json(), "id"@) == Some(Value::Str(x.id@)),
        get(x.json(), "metric"@) == Some(Value::Str(x.metric@)),
        get(x.json(), "promotion_gate"@) == Some(Value::Bool(x.promotion_gate)),
        get(x.json(), "repository_role"@) == Some(Value::Str(x.repository_role@)),
        get(x.json(), "unit"@) == Some(Value::Str(x.unit@)),
{
    reveal_strlit("arguments");
    reveal_strlit("class");
    reveal_strlit("command_kind");
    reveal_strlit("direction");
    reveal_strlit("id");
    reveal_strlit("metric");
    reveal_strlit("promotion_gate");
    reveal_strlit("repository_role");
    reveal_strlit("unit");
    assert("arguments"@.len() == 9);
    assert("class"@.len() == 5);
    assert("command_kind"@.len() == 12);
    assert("direction"@.len() == 9);
    assert("id"@.len() == 2);
    assert("metric"@.len() == 6);
    assert("promotion_gate"@.len() == 14);
    assert("repository_role"@.len() == 15);
    assert("unit"@.len() == 4);
    assert("arguments"@[0] != "direction"@[0]);
    lemma_text_array_wf(texts(x.arguments@));
    let o0 = empty_obj();
    let v0 = text_array(texts(x.arguments@));
    lemma_bound(o0, "arguments"@, v0);
    let o1 = o0.with("arguments"@, v0);
    let v1 = Value::Str(x.class.name());
    lemma_bound(o1, "class"@, v1);
    let o2 = o1.with("class"@, v1);
    let v2 = Value::Str(x.command_kind@);
    lemma_bound(o2, "command_kind"@, v2);
    let o3 = o2.with("command_kind"@, v2);
    let v3 = Value::Str(x.direction.name());
    lemma_bound(o3, "direction"@, v3);
    let o4 = o3.with("direction"@, v3);
    let v4 = Value::Str(x.id@);
    lemma_bound(o4, "id"@, v4);
    let o5 = o4.with("id"@, v4);
    let v5 = Value::Str(x.metric@);
    lemma_bound(o5, "metric"@, v5);
    let o6 = o5.with("metric"@, v5);
    let v6 = Value::Bool(x.promotion_gate);
    lemma_bound(o6, "promotion_gate"@, v6);
    let o7 = o6.with("promotion_gate"@, v6);
    let v7 = Value::Str(x.repository_role@);
    lemma_bound(o7, "repository_role"@, v7);
    let o8 = o7.with("repository_role"@, v7);
    let v8 = Value::Str(x.unit@);
    lemma_bound(o8, "unit"@, v8);
}

/// Cases with the same JSON are the same, field by field.
pub proof fn law_members_of_case(a: BenchmarkCase, b: BenchmarkCase)
    requires
        a.json() == b.json(),
    ensures
        texts(a.arguments@) == texts(b.arguments@),
        a.class.name() == b.class.name(),
        a.command_kind@ == b.command_kind@,
        a.direction.name() == b.direction.name(),
        a.id@ == b.id@,
        a.metric@ == b.metric@,
        a.promotion_gate == b.promotion_gate,
        a.repository_role@ == b.repository_role@,
        a.unit@ == b.unit@,
{
    lemma_members_of_case(a);
    lemma_members_of_case(b);
    assert(get(a.json(), "arguments"@) == get(b.json(), "arguments"@));
    law_text_lists_are_told(texts(a.arguments@), texts(b.arguments@));
    assert(get(a.json(), "class"@) == get(b.json(), "class"@));
    assert(get(a.json(), "command_kind"@) == get(b.json(), "command_kind"@));
    assert(get(a.json(), "direction"@) == get(b.json(), "direction"@));
    assert(get(a.json(), "id"@) == get(b.json(), "id"@));
    assert(get(a.json(), "metric"@) == get(b.json(), "metric"@));
    assert(get(a.json(), "promotion_gate"@) == get(b.json(), "promotion_gate"@));
    assert(get(a.json(), "repository_role"@) == get(b.json(), "repository_role"@));
    assert(get(a.json(), "unit"@) == get(b.json(), "unit"@));
}

proof fn lemma_members_of_noise_policy(x: AntiNoisePolicy)
    ensures
        wf(x.json()),
        x.json() is Obj,
        get(x.json(), "batches"@) == Some(Value::Num(decimal(x.batches as nat))),
        get(x.json(), "max_relative_mad_ppm"@) == Some(Value::Num(decimal(x.max_relative_mad_ppm as nat))),
        get(x.json(), "min_improvement_ppm"@) == Some(Value::Num(decimal(x.min_improvement_ppm as nat))),
        get(x.json(), "min_winning_batches"@) == Some(Value::Num(decimal(x.min_winning_batches as nat))),
        get(x.json(), "samples_per_batch"@) == Some(Value::Num(decimal(x.samples_per_batch as nat))),
{
    reveal_strlit("batches");
    reveal_strlit("max_relative_mad_ppm");
    reveal_strlit("min_improvement_ppm");
    reveal_strlit("min_winning_batches");
    reveal_strlit("samples_per_batch");
    assert("batches"@.len() == 7);
    assert("max_relative_mad_ppm"@.len() == 20);
    assert("min_improvement_ppm"@.len() == 19);
    assert("min_winning_batches"@.len() == 19);
    assert("samples_per_batch"@.len() == 17);
    assert("min_improvement_ppm"@[4] != "min_winning_batches"@[4]);
    lemma_decimal(x.batches as nat);
    lemma_decimal(x.max_relative_mad_ppm as nat);
    lemma_decimal(x.min_improvement_ppm as nat);
    lemma_decimal(x.min_winning_batches as nat);
    lemma_decimal(x.samples_per_batch as nat);
    let o0 = empty_obj();
    let v0 = Value::Num(decimal(x.batches as nat));
    lemma_bound(o0, "batches"@, v0);
    let o1 = o0.with("batches"@, v0);
    let v1 = Value::Num(decimal(x.max_relative_mad_ppm as nat));
    lemma_bound(o1, "max_relative_mad_ppm"@, v1);
    let o2 = o1.with("max_relative_mad_ppm"@, v1);
    let v2 = Value::Num(decimal(x.min_improvement_ppm as nat));
    lemma_bound(o2, "min_improvement_ppm"@, v2);
    let o3 = o2.with("min_improvement_ppm"@, v2);
    let v3 = Value::Num(decimal(x.min_winning_batches as nat));
    lemma_bound(o3, "min_winning_batches"@, v3);
    let o4 = o3.with("min_winning_batches"@, v3);
    let v4 = Value::Num(decimal(x.samples_per_batch as nat));
    lemma_bound(o4, "samples_per_batch"@, v4);
}

/// Policies against noise with the same JSON are the same, field by field.
pub proof fn law_members_of_noise_policy(a: AntiNoisePolicy, b: AntiNoisePolicy)
    requires
        a.json() == b.json(),
    ensures
        a.batches == b.batches,
        a.max_relative_mad_ppm == b.max_relative_mad_ppm,
        a.min_improvement_ppm == b.min_improvement_ppm,
        a.min_winning_batches == b.min_winning_batches,
        a.samples_per_batch == b.samples_per_batch,
{
    lemma_members_of_noise_policy(a);
    lemma_members_of_noise_policy(b);
    assert(get(a.json(), "batches"@) == get(b.json(), "batches"@));
    law_decimal_writes_the_number(a.batches as nat);
    law_decimal_writes_the_number(b.batches as nat);
    assert(get(a.json(), "max_relative_mad_ppm"@) == get(b.json(), "max_relative_mad_ppm"@));
    law_decimal_writes_the_number(a.max_relative_mad_ppm as nat);
    law_decimal_writes_the_number(b.max_relative_mad_ppm as nat);
    assert(get(a.json(), "min_improvement_ppm"@) == get(b.json(), "min_improvement_ppm"@));
    law_decimal_writes_the_number(a.min_improvement_ppm as nat);
    law_decimal_writes_the_number(b.min_improvement_ppm as nat);
    assert(get(a.json(), "min_winning_batches"@) == get(b.json(), "min_winning_batches"@));
    law_decimal_writes_the_number(a.min_winning_batches as nat);
    law_decimal_writes_the_number(b.min_winning_batches as nat);
    assert(get(a.json(), "samples_per_batch"@) == get(b.json(), "samples_per_batch"@));
    law_decimal_writes_the_number(a.samples_per_batch as nat);
    law_decimal_writes_the_number(b.samples_per_batch as nat);
}

proof fn lemma_members_of_profile(x: FrozenPerfBenchmark)
    ensures
        wf(x.unsigned()),
        x.unsigned() is Obj,
        get(x.unsigned(), "approval"@) == Some(x@.approval.json()),
        get(x.unsigned(), "artifacts"@) == Some(array_json(x@.artifacts)),
        get(x.unsigned(), "cases"@) == Some(array_json(x@.cases)),
        get(x.unsigned(), "dag_sha256"@) == Some(Value::Str(x@.dag_sha256)),
        get(x.unsigned(), "environment"@) == Some(x@.environment.json()),
        get(x.unsigned(), "policy"@) == Some(x@.policy.json()),
        get(x.unsigned(), "profile_id"@) == Some(Value::Str(x@.profile_id)),
        get(x.unsigned(), "schema_version"@) == Some(Value::Num(decimal(x@.schema_version as nat))),
        get(x.unsigned(), "spec_sha256"@) == Some(Value::Str(x@.spec_sha256)),
        get(x.unsigned(), "task_id"@) == Some(Value::Str(x@.task_id)),
{
    reveal_strlit("approval");
    reveal_strlit("artifacts");
    reveal_strlit("cases");
    reveal_strlit("dag_sha256");
    reveal_strlit("environment");
    reveal_strlit("policy");
    reveal_strlit("profile_id");
    reveal_strlit("schema_version");
    reveal_strlit("spec_sha256");
    reveal_strlit("task_id");
    assert("approval"@.len() == 8);
    assert("artifacts"@.len() == 9);
    assert("cases"@.len() == 5);
    assert("dag_sha256"@.len() == 10);
    assert("environment"@.len() == 11);
    assert("policy"@.len() == 6);
    assert("profile_id"@.len() == 10);
    assert("schema_version"@.len() == 14);
    assert("spec_sha256"@.len() == 11);
    assert("task_id"@.len() == 7);
    assert("dag_sha256"@[0] != "profile_id"@[0]);
    assert("environment"@[0] != "spec_sha256"@[0]);
    lemma_members_of_benchmark_approval(x@.approval);
    assert forall|i: int| 0 <= i < x@.artifacts.len() implies wf((#[trigger] x@.artifacts[i]).json()) by {
        lemma_members_of_benchmark_artifact(x@.artifacts[i]);
    }
    lemma_array_wf(x@.artifacts);
    assert forall|i: int| 0 <= i < x@.cases.len() implies wf((#[trigger] x@.cases[i]).json()) by {
        lemma_members_of_case(x@.cases[i]);
    }
    lemma_array_wf(x@.cases);
    lemma_members_of_environment(x@.environment);
    lemma_members_of_noise_policy(x@.policy);
    lemma_decimal(x@.schema_version as nat);
    let o0 = empty_obj();
    let v0 = x@.approval.json();
    lemma_bound(o0, "approval"@, v0);
    let o1 = o0.with("approval"@, v0);
    let v1 = array_json(x@.artifacts);
    lemma_bound(o1, "artifacts"@, v1);
    let o2 = o1.with("artifacts"@, v1);
    let v2 = array_json(x@.cases);
    lemma_bound(o2, "cases"@, v2);
    let o3 = o2.with("cases"@, v2);
    let v3 = Value::Str(x@.dag_sha256);
    lemma_bound(o3, "dag_sha256"@, v3);
    let o4 = o3.with("dag_sha256"@, v3);
    let v4 = x@.environment.json();
    lemma_bound(o4, "environment"@, v4);
    let o5 = o4.with("environment"@, v4);
    let v5 = x@.policy.json();
    lemma_bound(o5, "policy"@, v5);
    let o6 = o5.with("policy"@, v5);
    let v6 = Value::Str(x@.profile_id);
    lemma_bound(o6, "profile_id"@, v6);
    let o7 = o6.with("profile_id"@, v6);
    let v7 = Value::Num(decimal(x@.schema_version as nat));
    lemma_bound(o7, "schema_version"@, v7);
    let o8 = o7.with("schema_version"@, v7);
    let v8 = Value::Str(x@.spec_sha256);
    lemma_bound(o8, "spec_sha256"@, v8);
    let o9 = o8.with("spec_sha256"@, v8);
    let v9 = Value::Str(x@.task_id);
    lemma_bound(o9, "task_id"@, v9);
}

/// Profiles with the same content are the same, field by field.
pub proof fn law_members_of_profile(a: FrozenPerfBenchmark, b: FrozenPerfBenchmark)
    requires
        a.unsigned() == b.unsigned(),
    ensures
        a@.approval.json() == b@.approval.json(),
        a@.artifacts.len() == b@.artifacts.len(),
        forall|i: int| 0 <= i < a@.artifacts.len() ==> (#[trigger] a@.artifacts[i]).json() == b@.artifacts[i].json(),
        a@.cases.len() == b@.cases.len(),
        forall|i: int| 0 <= i < a@.cases.len() ==> (#[trigger] a@.cases[i]).json() == b@.cases[i].json(),
        a@.dag_sha256 == b@.dag_sha256,
        a@.environment.json() == b@.environment.json(),
        a@.policy.json() == b@.policy.json(),
        a@.profile_id == b@.profile_id,
        a@.schema_version == b@.schema_version,
        a@.spec_sha256 == b@.spec_sha256,
        a@.task_id == b@.task_id,
{
    lemma_members_of_profile(a);
    lemma_members_of_profile(b);
    assert(get(a.unsigned(), "approval"@) == get(b.unsigned(), "approval"@));
    assert(get(a.unsigned(), "artifacts"@) == get(b.unsigned(), "artifacts"@));
    law_lists_are_told_item_by_item(a@.artifacts, b@.artifacts);
    assert(get(a.unsigned(), "cases"@) == get(b.unsigned(), "cases"@));
    law_lists_are_told_item_by_item(a@.cases, b@.cases);
    assert(get(a.unsigned(), "dag_sha256"@) == get(b.unsigned(), "dag_sha256"@));
    assert(get(a.unsigned(), "environment"@) == get(b.unsigned(), "environment"@));
    assert(get(a.unsigned(), "policy"@) == get(b.unsigned(), "policy"@));
    assert(get(a.unsigned(), "profile_id"@) == get(b.unsigned(), "profile_id"@));
    assert(get(a.unsigned(), "schema_version"@) == get(b.unsigned(), "schema_version"@));
    law_decimal_writes_the_number(a@.schema_version as nat);
    law_decimal_writes_the_number(b@.schema_version as nat);
    assert(get(a.unsigned(), "spec_sha256"@) == get(b.unsigned(), "spec_sha256"@));
    assert(get(a.unsigned(), "task_id"@) == get(b.unsigned(), "task_id"@));
}

/// Profiles with one identity are of one content, unless two different strings of bytes
/// have one digest.
pub proof fn law_identity_of_profile(a: FrozenPerfBenchmark, b: FrozenPerfBenchmark)
    requires
        a.identity() == b.identity(),
    ensures
        a.unsigned() == b.unsigned() || collide(encode_utf8(print(a.unsigned())), encode_utf8(print(b.unsigned()))),
{
    lemma_members_of_profile(a);
    lemma_members_of_profile(b);
    let s = print(a.unsigned());
    let t = print(b.unsigned());
    if encode_utf8(s) == encode_utf8(t) {
        encode_utf8_decode_utf8(s);
        encode_utf8_decode_utf8(t);
        law_print_is_injective(a.unsigned(), b.unsigned());
    }
}

// ---------------------------------------------------------------------------
// Plans
// ---------------------------------------------------------------------------

proof fn lemma_members_of_plan(x: AutopilotPullRequestPlan)
    ensures
        wf(x.unsigned()),
        x.unsigned() is Obj,
        get(x.unsigned(), "base_revision"@) == Some(Value::Str(x@.base_revision)),
        get(x.unsigned(), "body"@) == Some(Value::Str(x@.body)),
        get(x.unsigned(), "branch_name"@) == Some(Value::Str(x@.branch_name)),
        get(x.unsigned(), "candidate_sha256"@) == Some(Value::Str(x@.candidate_sha256)),
        get(x.unsigned(), "compatibility_sha256"@) == Some(Value::Str(x@.compatibility_sha256)),
        get(x.unsigned(), "dag_sha256"@) == Some(Value::Str(x@.dag_sha256)),
        get(x.unsigned(), "default_branch"@) == Some(Value::Str(x@.default_branch)),
        get(x.unsigned(), "hosting_actions"@) == Some(text_array(action_names())),
        get(x.unsigned(), "patch_set_sha256"@) == Some(Value::Str(x@.patch_set_sha256)),
        get(x.unsigned(), "repository"@) == Some(Value::Str(x@.repository)),
        get(x.unsigned(), "repository_role"@) == Some(Value::Str(x@.repository_role)),
        get(x.unsigned(), "schema_version"@) == Some(Value::Num(decimal(x@.schema_version as nat))),
        get(x.unsigned(), "spec_sha256"@) == Some(Value::Str(x@.spec_sha256)),
        get(x.unsigned(), "task_id"@) == Some(Value::Str(x@.task_id)),
        get(x.unsigned(), "title"@) == Some(Value::Str(x@.title)),
{
    reveal_strlit("base_revision");
    reveal_strlit("body");
    reveal_strlit("branch_name");
    reveal_strlit("candidate_sha256");
    reveal_strlit("compatibility_sha256");
    reveal_strlit("dag_sha256");
    reveal_strlit("default_branch");
    reveal_strlit("hosting_actions");
    reveal_strlit("patch_set_sha256");
    reveal_strlit("repository");
    reveal_strlit("repository_role");
    reveal_strlit("schema_version");
    reveal_strlit("spec_sha256");
    reveal_strlit("task_id");
    reveal_strlit("title");
    assert("base_revision"@.len() == 13);
    assert("body"@.len() == 4);
    assert("branch_name"@.len() == 11);
    assert("candidate_sha256"@.len() == 16);
    assert("compatibility_sha256"@.len() == 20);
    assert("dag_sha256"@.len() == 10);
    assert("default_branch"@.len() == 14);
    assert("hosting_actions"@.len() == 15);
    assert("patch_set_sha256"@.len() == 16);
    assert("repository"@.len() == 10);
    assert("repository_role"@.len() == 15);
    assert("schema_version"@.len() == 14);
    assert("spec_sha256"@.len() == 11);
    assert("task_id"@.len() == 7);
    assert("title"@.len() == 5);
    assert("branch_name"@[0] != "spec_sha256"@[0]);
    assert("candidate_sha256"@[0] != "patch_set_sha256"@[0]);
    assert("dag_sha256"@[0] != "repository"@[0]);
    assert("default_branch"@[0] != "schema_version"@[0]);
    assert("hosting_actions"@[0] != "repository_role"@[0]);
    lemma_text_array_wf(action_names());
    lemma_decimal(x@.schema_version as nat);
    let o0 = empty_obj();
    let v0 = Value::Str(x@.base_revision);
    lemma_bound(o0, "base_revision"@, v0);
    let o1 = o0.with("base_revision"@, v0);
    let v1 = Value::Str(x@.body);
    lemma_bound(o1, "body"@, v1);
    let o2 = o1.with("body"@, v1);
    let v2 = Value::Str(x@.branch_name);
    lemma_bound(o2, "branch_name"@, v2);
    let o3 = o2.with("branch_name"@, v2);
    let v3 = Value::Str(x@.candidate_sha256);
    lemma_bound(o3, "candidate_sha256"@, v3);
    let o4 = o3.with("candidate_sha256"@, v3);
    let v4 = Value::Str(x@.compatibility_sha256);
    lemma_bound(o4, "compatibility_sha256"@, v4);
    let o5 = o4.with("compatibility_sha256"@, v4);
    let v5 = Value::Str(x@.dag_sha256);
    lemma_bound(o5, "dag_sha256"@, v5);
    let o6 = o5.with("dag_sha256"@, v5);
    let v6 = Value::Str(x@.default_branch);
    lemma_bound(o6, "default_branch"@, v6);
    let o7 = o6.with("default_branch"@, v6);
    let v7 = text_array(action_names());
    lemma_bound(o7, "hosting_actions"@, v7);
    let o8 = o7.with("hosting_actions"@, v7);
    let v8 = Value::Str(x@.patch_set_sha256);
    lemma_bound(o8, "patch_set_sha256"@, v8);
    let o9 = o8.with("patch_set_sha256"@, v8);
    let v9 = Value::Str(x@.repository);
    lemma_bound(o9, "repository"@, v9);
    let o10 = o9.with("repository"@, v9);
    let v10 = Value::Str(x@.repository_role);
    lemma_bound(o10, "repository_role"@, v10);
    let o11 = o10.with("repository_role"@, v10);
    let v11 = Value::Num(decimal(x@.schema_version as nat));
    lemma_bound(o11, "schema_version"@, v11);
    let o12 = o11.with("schema_version"@, v11);
    let v12 = Value::Str(x@.spec_sha256);
    lemma_bound(o12, "spec_sha256"@, v12);
    let o13 = o12.with("spec_sha256"@, v12);
    let v13 = Value::Str(x@.task_id);
    lemma_bound(o13, "task_id"@, v13);
    let o14 = o13.with("task_id"@, v13);
    let v14 = Value::Str(x@.title);
    lemma_bound(o14, "title"@, v14);
}

/// Plans with the same content are the same, field by field.
pub proof fn law_members_of_plan(a: AutopilotPullRequestPlan, b: AutopilotPullRequestPlan)
    requires
        a.unsigned() == b.unsigned(),
    ensures
        a@.base_revision == b@.base_revision,
        a@.body == b@.body,
        a@.branch_name == b@.branch_name,
        a@.candidate_sha256 == b@.candidate_sha256,
        a@.compatibility_sha256 == b@.compatibility_sha256,
        a@.dag_sha256 == b@.dag_sha256,
        a@.default_branch == b@.default_branch,
        a@.patch_set_sha256 == b@.patch_set_sha256,
        a@.repository == b@.repository,
        a@.repository_role == b@.repository_role,
        a@.schema_version == b@.schema_version,
        a@.spec_sha256 == b@.spec_sha256,
        a@.task_id == b@.task_id,
        a@.title == b@.title,
{
    lemma_members_of_plan(a);
    lemma_members_of_plan(b);
    assert(get(a.unsigned(), "base_revision"@) == get(b.unsigned(), "base_revision"@));
    assert(get(a.unsigned(), "body"@) == get(b.unsigned(), "body"@));
    assert(get(a.unsigned(), "branch_name"@) == get(b.unsigned(), "branch_name"@));
    assert(get(a.unsigned(), "candidate_sha256"@) == get(b.unsigned(), "candidate_sha256"@));
    assert(get(a.unsigned(), "compatibility_sha256"@) == get(b.unsigned(), "compatibility_sha256"@));
    assert(get(a.unsigned(), "dag_sha256"@) == get(b.unsigned(), "dag_sha256"@));
    assert(get(a.unsigned(), "default_branch"@) == get(b.unsigned(), "default_branch"@));
    assert(get(a.unsigned(), "hosting_actions"@) == get(b.unsigned(), "hosting_actions"@));
    assert(get(a.unsigned(), "patch_set_sha256"@) == get(b.unsigned(), "patch_set_sha256"@));
    assert(get(a.unsigned(), "repository"@) == get(b.unsigned(), "repository"@));
    assert(get(a.unsigned(), "repository_role"@) == get(b.unsigned(), "repository_role"@));
    assert(get(a.unsigned(), "schema_version"@) == get(b.unsigned(), "schema_version"@));
    law_decimal_writes_the_number(a@.schema_version as nat);
    law_decimal_writes_the_number(b@.schema_version as nat);
    assert(get(a.unsigned(), "spec_sha256"@) == get(b.unsigned(), "spec_sha256"@));
    assert(get(a.unsigned(), "task_id"@) == get(b.unsigned(), "task_id"@));
    assert(get(a.unsigned(), "title"@) == get(b.unsigned(), "title"@));
}

/// Plans with one identity are of one content, unless two different strings of bytes
/// have one digest.
pub proof fn law_identity_of_plan(a: AutopilotPullRequestPlan, b: AutopilotPullRequestPlan)
    requires
        a.identity() == b.identity(),
    ensures
        a.unsigned() == b.unsigned() || collide(encode_utf8(print(a.unsigned())), encode_utf8(print(b.unsigned()))),
{
    lemma_members_of_plan(a);
    lemma_members_of_plan(b);
    let s = print(a.unsigned());
    let t = print(b.unsigned());
    if encode_utf8(s) == encode_utf8(t) {
        encode_utf8_decode_utf8(s);
        encode_utf8_decode_utf8(t);
        law_print_is_injective(a.unsigned(), b.unsigned());
    }
}

// ---------------------------------------------------------------------------
// Patch sets
// ---------------------------------------------------------------------------

proof fn lemma_members_of_file_operation(x: FileOperation)
    ensures
        wf(x.json()),
        x.json() is Obj,
        match x {
            FileOperation::Create { path: _path, contents: _contents } => {
                &&& get(x.json(), "contents"@) == Some(Value::Str(_contents@))
                &&& get(x.json(), "kind"@) == Some(Value::Str("create"@))
                &&& get(x.json(), "path"@) == Some(Value::Str(_path@))
            },
            FileOperation::ModifyExact { path: _path, expected: _expected, replacement: _replacement } => {
                &&& get(x.json(), "expected"@) == Some(Value::Str(_expected@))
                &&& get(x.json(), "kind"@) == Some(Value::Str("modify_exact"@))
                &&& get(x.json(), "path"@) == Some(Value::Str(_path@))
                &&& get(x.json(), "replacement"@) == Some(Value::Str(_replacement@))
            },
            FileOperation::Delete { path: _path, sha256: _sha256 } => {
                &&& get(x.json(), "kind"@) == Some(Value::Str("delete"@))
                &&& get(x.json(), "path"@) == Some(Value::Str(_path@))
                &&& get(x.json(), "sha256"@) == Some(Value::Str(_sha256@))
            },
        },
{
    reveal_strlit("contents");
    reveal_strlit("expected");
    reveal_strlit("kind");
    reveal_strlit("path");
    reveal_strlit("replacement");
    reveal_strlit("sha256");
    assert("contents"@.len() == 8);
    assert("expected"@.len() == 8);
    assert("kind"@.len() == 4);
    assert("path"@.len() == 4);
    assert("replacement"@.len() == 11);
    assert("sha256"@.len() == 6);
    assert("contents"@[0] != "expected"@[0]);
    assert("kind"@[0] != "path"@[0]);
    match x {
        FileOperation::Create { path: _path, contents: _contents } => {
            let o0 = empty_obj();
            let v0 = Value::Str(_contents@);
            lemma_bound(o0, "contents"@, v0);
            let o1 = o0.with("contents"@, v0);
            let v1 = Value::Str("create"@);
            lemma_bound(o1, "kind"@, v1);
            let o2 = o1.with("kind"@, v1);
            let v2 = Value::Str(_path@);
            lemma_bound(o2, "path"@, v2);
        },
        FileOperation::ModifyExact { path: _path, expected: _expected, replacement: _replacement } => {
            let o0 = empty_obj();
            let v0 = Value::Str(_expected@);
            lemma_bound(o0, "expected"@, v0);
            let o1 = o0.with("expected"@, v0);
            let v1 = Value::Str("modify_exact"@);
            lemma_bound(o1, "kind"@, v1);
            let o2 = o1.with("kind"@, v1);
            let v2 = Value::Str(_path@);
            lemma_bound(o2, "path"@, v2);
            let o3 = o2.with("path"@, v2);
            let v3 = Value::Str(_replacement@);
            lemma_bound(o3, "replacement"@, v3);
        },
        FileOperation::Delete { path: _path, sha256: _sha256 } => {
            let o0 = empty_obj();
            let v0 = Value::Str("delete"@);
            lemma_bound(o0, "kind"@, v0);
            let o1 = o0.with("kind"@, v0);
            let v1 = Value::Str(_path@);
            lemma_bound(o1, "path"@, v1);
            let o2 = o1.with("path"@, v1);
            let v2 = Value::Str(_sha256@);
            lemma_bound(o2, "sha256"@, v2);
        },
    }
}

/// Operations on files with the same JSON are of the same kind and the same, field by field.
pub proof fn law_members_of_file_operation(a: FileOperation, b: FileOperation)
    requires
        a.json() == b.json(),
    ensures
        match (a, b) {
            (FileOperation::Create { path: p_path, contents: p_contents }, FileOperation::Create { path: q_path, contents: q_contents }) => p_contents@ == q_contents@ && p_path@ == q_path@,
            (FileOperation::ModifyExact { path: p_path, expected: p_expected, replacement: p_replacement }, FileOperation::ModifyExact { path: q_path, expected: q_expected, replacement: q_replacement }) => p_expected@ == q_expected@ && p_path@ == q_path@ && p_replacement@ == q_replacement@,
            (FileOperation::Delete { path: p_path, sha256: p_sha256 }, FileOperation::Delete { path: q_path, sha256: q_sha256 }) => p_path@ == q_path@ && p_sha256@ == q_sha256@,
            _ => false,
        },
{
    reveal_strlit("create");
    reveal_strlit("modify_exact");
    reveal_strlit("delete");
    assert("create"@.len() == 6);
    assert("modify_exact"@.len() == 12);
    assert("delete"@.len() == 6);
    assert("create"@[0] != "delete"@[0]);
    lemma_members_of_file_operation(a);
    lemma_members_of_file_operation(b);
    assert(get(a.json(), "kind"@) == get(b.json(), "kind"@));
    assert(get(a.json(), "contents"@) == get(b.json(), "contents"@));
    assert(get(a.json(), "expected"@) == get(b.json(), "expected"@));
    assert(get(a.json(), "path"@) == get(b.json(), "path"@));
    assert(get(a.json(), "replacement"@) == get(b.json(), "replacement"@));
    assert(get(a.json(), "sha256"@) == get(b.json(), "sha256"@));
    match (a, b) {
        (FileOperation::Create { path: p_path, contents: p_contents }, FileOperation::Create { path: q_path, contents: q_contents }) => {
        },
        (FileOperation::ModifyExact { path: p_path, expected: p_expected, replacement: p_replacement }, FileOperation::ModifyExact { path: q_path, expected: q_expected, replacement: q_replacement }) => {
        },
        (FileOperation::Delete { path: p_path, sha256: p_sha256 }, FileOperation::Delete { path: q_path, sha256: q_sha256 }) => {
        },
        _ => {},
    }
}

proof fn lemma_members_of_patch_set(x: PatchSet)
    ensures
        wf(x.record()),
        x.record() is Obj,
        get(x.record(), "operations"@) == Some(array_json(x.operations@)),
{
    reveal_strlit("operations");
    assert("operations"@.len() == 10);
    assert forall|i: int| 0 <= i < x.operations@.len() implies wf((#[trigger] x.operations@[i]).json()) by {
        lemma_members_of_file_operation(x.operations@[i]);
    }
    lemma_array_wf(x.operations@);
    let o0 = empty_obj();
    let v0 = array_json(x.operations@);
    lemma_bound(o0, "operations"@, v0);
}

/// Patch sets with the same content hold the same operations in the same order.
pub proof fn law_members_of_patch_set(a: PatchSet, b: PatchSet)
    requires
        a.record() == b.record(),
    ensures
        a.operations@.len() == b.operations@.len(),
        forall|i: int| 0 <= i < a.operations@.len() ==> (#[trigger] a.operations@[i]).json() == b.operations@[i].json(),
{
    lemma_members_of_patch_set(a);
    lemma_members_of_patch_set(b);
    assert(get(a.record(), "operations"@) == get(b.record(), "operations"@));
    law_lists_are_told_item_by_item(a.operations@, b.operations@);
}

/// Patch sets with one identity are of one content, unless two different strings of bytes
/// have one digest.
pub proof fn law_identity_of_patch_set(a: PatchSet, b: PatchSet)
    requires
        a.digest() == b.digest(),
    ensures
        a.record() == b.record() || collide(encode_utf8(print(a.record())), encode_utf8(print(b.record()))),
{
    lemma_members_of_patch_set(a);
    lemma_members_of_patch_set(b);
    let s = print(a.record());
    let t = print(b.record());
    if encode_utf8(s) == encode_utf8(t) {
        encode_utf8_decode_utf8(s);
        encode_utf8_decode_utf8(t);
        law_print_is_injective(a.record(), b.record());
    }
}

} // verus!
