use rsi::autopilot_feature::{FeatureImplementationContract, FeatureRegimeError, FeatureTestApproval, FrozenFeatureTests, FrozenTestArtifact};
use rsi::autopilot_intake::{AcceptanceCheck, AcceptanceCriterion, AutopilotSpecDraft, ExplorationObservation, ExplorationSource, ExploredObjective, FrozenAutopilotSpec, RepositoryExploration, RepositoryScope, SpecBudget};
use rsi::autopilot_task_dag::{AutopilotTask, AutopilotTaskDag, AutopilotTaskDraft, HardGateProfile, TaskBudget, TaskDagPolicy, TaskEditAllowance, TaskOperation, TaskRegime};
use rsi::patchset::{FileOperation, PatchSet};
use rsi::sha256::sha256_hex;

fn revision(hex: char) -> String {
    hex.to_string().repeat(40)
}

fn digest(hex: char) -> String {
    hex.to_string().repeat(64)
}

fn spec() -> FrozenAutopilotSpec {
    let exploration = RepositoryExploration::new(
        "Memorithm/RSI",
        revision('a'),
        vec![
            ExplorationObservation::new(
                "tests",
                ExplorationSource::repository_file("tests/feature.rs", digest('b')).unwrap(),
                "inspected the existing FEATURE test boundary",
            )
            .unwrap(),
        ],
    )
    .unwrap();
    ExploredObjective::new(
        "implement a reviewed FEATURE change",
        "tests are approved before implementation",
        vec![exploration],
    )
    .unwrap()
    .questionnaire(Vec::new())
    .unwrap()
    .resolve(Vec::new())
    .unwrap()
    .freeze(AutopilotSpecDraft::new(
        vec![
            AcceptanceCriterion::new(
                "tests-pass",
                "frozen tests pass",
                AcceptanceCheck::command("rsi", "cargo_test", Vec::new()).unwrap(),
            )
            .unwrap(),
        ],
        vec!["editing approved tests during implementation".to_string()],
        SpecBudget::new(20, 20_000, 20_000).unwrap(),
        vec![
            RepositoryScope::new(
                "rsi",
                "Memorithm/RSI",
                revision('a'),
                vec!["src".to_string(), "tests".to_string()],
            )
            .unwrap(),
        ],
    ))
    .unwrap()
}

fn task(
    id: &str,
    path: &str,
    operations: Vec<TaskOperation>,
    dependencies: Vec<String>,
) -> AutopilotTask {
    AutopilotTask::new(AutopilotTaskDraft {
        id: id.to_string(),
        description: format!("FEATURE task {id}"),
        regime: TaskRegime::feature(),
        repository_roles: vec!["rsi".to_string()],
        edit_allowances: vec![
            TaskEditAllowance::new("rsi", vec![path.to_string()], operations).unwrap(),
        ],
        hard_gate_profile: HardGateProfile::engineering_strict(),
        budget: TaskBudget::new(2, 4, 4_000, 4_000).unwrap(),
        dependencies,
        done_criterion_id: "tests-pass".to_string(),
    })
    .unwrap()
}

fn dag(implementation_path: &str) -> AutopilotTaskDag {
    AutopilotTaskDag::new(
        &spec(),
        vec![
            task(
                "tests-only",
                "tests",
                vec![TaskOperation::Create, TaskOperation::ModifyExact],
                Vec::new(),
            ),
            task(
                "implementation",
                implementation_path,
                vec![TaskOperation::Create, TaskOperation::ModifyExact],
                vec!["tests-only".to_string()],
            ),
        ],
        TaskDagPolicy::new(4, 4, 8).unwrap(),
    )
    .unwrap()
}

fn frozen_tests(spec: &FrozenAutopilotSpec, dag: &AutopilotTaskDag) -> FrozenFeatureTests {
    FrozenFeatureTests::freeze(
        spec,
        dag,
        "tests-only",
        FeatureTestApproval::new("human-review", digest('e')).unwrap(),
        vec![FrozenTestArtifact::new("rsi", "tests/feature.rs", digest('f')).unwrap()],
    )
    .unwrap()
}

#[test]
fn implementation_must_depend_on_approved_test_task() {
    let spec = spec();
    let dag = AutopilotTaskDag::new(
        &spec,
        vec![
            task(
                "tests-only",
                "tests",
                vec![TaskOperation::Create],
                Vec::new(),
            ),
            task(
                "implementation",
                "src",
                vec![TaskOperation::ModifyExact],
                Vec::new(),
            ),
        ],
        TaskDagPolicy::new(4, 4, 8).unwrap(),
    )
    .unwrap();
    let frozen = frozen_tests(&spec, &dag);
    assert!(matches!(
        FeatureImplementationContract::new(&spec, &dag, &frozen, "implementation"),
        Err(FeatureRegimeError::ImplementationDoesNotDependOnTests { .. })
    ));
}

#[test]
fn implementation_allowlist_cannot_cover_frozen_test() {
    let spec = spec();
    let dag = dag("tests");
    let frozen = frozen_tests(&spec, &dag);
    assert!(matches!(
        FeatureImplementationContract::new(&spec, &dag, &frozen, "implementation"),
        Err(FeatureRegimeError::ImplementationAllowanceTouchesFrozenTest { .. })
    ));
}

#[test]
fn candidate_patchset_cannot_touch_frozen_test_even_before_scope_check() {
    let spec = spec();
    let dag = dag("src");
    let frozen = frozen_tests(&spec, &dag);
    let contract =
        FeatureImplementationContract::new(&spec, &dag, &frozen, "implementation").unwrap();
    let patch = PatchSet::new(vec![FileOperation::modify_exact(
        "tests/feature.rs",
        "old",
        "new",
    )])
    .unwrap();
    assert!(matches!(
        contract.validate_patchset(&dag, &frozen, "rsi", &patch),
        Err(FeatureRegimeError::CandidateTouchesFrozenTest { .. })
    ));
}

#[test]
fn candidate_operation_must_match_task_operation_allowlist() {
    let spec = spec();
    let dag = dag("src");
    let frozen = frozen_tests(&spec, &dag);
    let contract =
        FeatureImplementationContract::new(&spec, &dag, &frozen, "implementation").unwrap();
    let patch = PatchSet::new(vec![FileOperation::delete("src/lib.rs", digest('a'))]).unwrap();
    assert!(matches!(
        contract.validate_patchset(&dag, &frozen, "rsi", &patch),
        Err(FeatureRegimeError::CandidateOperationOutsideAllowance { .. })
    ));
}

#[test]
fn valid_implementation_patch_passes_guard() {
    let spec = spec();
    let dag = dag("src");
    let frozen = frozen_tests(&spec, &dag);
    let contract =
        FeatureImplementationContract::new(&spec, &dag, &frozen, "implementation").unwrap();
    let patch = PatchSet::new(vec![FileOperation::modify_exact(
        "src/lib.rs",
        "old",
        "new",
    )])
    .unwrap();
    contract
        .validate_patchset(&dag, &frozen, "rsi", &patch)
        .unwrap();
    frozen.verify().unwrap();
    contract.verify().unwrap();
}

#[test]
fn frozen_workspace_bytes_are_checked_exactly() {
    let spec = spec();
    let dag = dag("src");
    let bytes = b"#[test]\nfn approved() {}\n";
    let artifact = FrozenTestArtifact::new(
        "rsi",
        "tests/feature.rs",
        sha256_hex(bytes),
    )
    .unwrap();
    let frozen = FrozenFeatureTests::freeze(
        &spec,
        &dag,
        "tests-only",
        FeatureTestApproval::new("human-review", digest('e')).unwrap(),
        vec![artifact],
    )
    .unwrap();

    assert_eq!(frozen.frozen_paths("rsi"), vec!["tests/feature.rs".to_string()]);
    frozen.verify_workspace("rsi", &[Ok(bytes.to_vec())]).unwrap();
    assert!(matches!(
        frozen.verify_workspace("rsi", &[Ok(b"changed".to_vec())]),
        Err(FeatureRegimeError::FrozenTestContentMismatch { .. })
    ));
    assert!(frozen.verify_workspace("rsi", &[Err("absent".to_string())]).is_err());
    assert!(matches!(
        frozen.verify_workspace("other", &[]),
        Err(FeatureRegimeError::UnknownFrozenTestRole(_))
    ));
}

#[test]
fn frozen_test_manifest_is_order_independent() {
    let spec = spec();
    let dag = dag("src");
    let approval = FeatureTestApproval::new("human-review", digest('e')).unwrap();
    let a = FrozenTestArtifact::new("rsi", "tests/a.rs", digest('a')).unwrap();
    let b = FrozenTestArtifact::new("rsi", "tests/b.rs", digest('b')).unwrap();
    let first = FrozenFeatureTests::freeze(
        &spec,
        &dag,
        "tests-only",
        approval.clone(),
        vec![b.clone(), a.clone()],
    )
    .unwrap();
    let second = FrozenFeatureTests::freeze(
        &spec,
        &dag,
        "tests-only",
        approval,
        vec![a, b],
    )
    .unwrap();
    assert_eq!(first.manifest_sha256(), second.manifest_sha256());
    assert_eq!(first.to_json_string(), second.to_json_string());
}
