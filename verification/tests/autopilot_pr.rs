use rsi::autopilot_intake::{AcceptanceCheck, AcceptanceCriterion, AutopilotSpecDraft, ExplorationObservation, ExplorationSource, ExploredObjective, FrozenAutopilotSpec, RepositoryExploration, RepositoryScope, SpecBudget};
use rsi::autopilot_pr::{AutopilotPrError, AutopilotPullRequestPlan, ExternalPrVerdict, ExternalVerdictKind, HostingAction, PullRequestEmissionReceipt, PullRequestPlanDraft, append_external_pr_verdict};
use rsi::autopilot_task_dag::{AutopilotTask, AutopilotTaskDag, AutopilotTaskDraft, HardGateProfile, TaskBudget, TaskDagPolicy, TaskEditAllowance, TaskOperation, TaskRegime};
use rsi::compatibility::{CompatibilitySet, RepositoryRevision};
use rsi::engineering_trajectory::{AdmissibilityBreakdown, BenchmarkRecord, EngineeringTrajectory, EngineeringVerdict, GateStatus, ProposerMetadata};
use rsi::patchset::{FileOperation, PatchSet};

fn digest(hex: char) -> String {
    hex.to_string().repeat(64)
}

fn revision(hex: char) -> String {
    hex.to_string().repeat(40)
}

fn spec() -> FrozenAutopilotSpec {
    let exploration = RepositoryExploration::new(
        "Memorithm/RSI",
        revision('a'),
        vec![
            ExplorationObservation::new(
                "code",
                ExplorationSource::repository_file("src/lib.rs", digest('b')).unwrap(),
                "inspected the implementation and CI boundary",
            )
            .unwrap(),
        ],
    )
    .unwrap();
    ExploredObjective::new(
        "emit an auditable engineering pull request",
        "candidate already passed the frozen inner-loop contract",
        vec![exploration],
    )
    .unwrap()
    .questionnaire(Vec::new())
    .unwrap()
    .resolve(Vec::new())
    .unwrap()
    .freeze(AutopilotSpecDraft::new(
        vec![
            AcceptanceCriterion::new(
                "tests-pass",
                "all required tests pass",
                AcceptanceCheck::command("rsi", "cargo_test", Vec::new()).unwrap(),
            )
            .unwrap(),
        ],
        vec!["automatic merge".to_string()],
        SpecBudget::new(10, 10_000, 10_000).unwrap(),
        vec![
            RepositoryScope::new(
                "rsi",
                "Memorithm/RSI",
                revision('a'),
                vec!["src".to_string()],
            )
            .unwrap(),
        ],
    ))
    .unwrap()
}

fn task(regime: TaskRegime) -> AutopilotTask {
    AutopilotTask::new(AutopilotTaskDraft {
        id: "implementation".to_string(),
        description: "implement the accepted candidate".to_string(),
        regime,
        repository_roles: vec!["rsi".to_string()],
        edit_allowances: vec![
            TaskEditAllowance::new(
                "rsi",
                vec!["src".to_string()],
                vec![TaskOperation::Create, TaskOperation::ModifyExact],
            )
            .unwrap(),
        ],
        hard_gate_profile: HardGateProfile::engineering_strict(),
        budget: TaskBudget::new(2, 4, 4_000, 4_000).unwrap(),
        dependencies: Vec::new(),
        done_criterion_id: "tests-pass".to_string(),
    })
    .unwrap()
}

fn dag(spec: &FrozenAutopilotSpec, regime: TaskRegime) -> AutopilotTaskDag {
    AutopilotTaskDag::new(
        spec,
        vec![task(regime)],
        TaskDagPolicy::new(4, 4, 4).unwrap(),
    )
    .unwrap()
}

fn gates() -> AdmissibilityBreakdown {
    AdmissibilityBreakdown {
        build: GateStatus::Pass,
        required_tests: GateStatus::Pass,
        numerical_parity: GateStatus::Pass,
        provenance: GateStatus::Pass,
        deterministic_contract: GateStatus::Pass,
        resource_budget: GateStatus::Pass,
        policy_checks: GateStatus::Pass,
    }
}

fn trajectory(spec: &FrozenAutopilotSpec, with_benchmark: bool) -> EngineeringTrajectory {
    EngineeringTrajectory {
        task_spec_id: spec.spec_sha256().to_string(),
        compatibility: CompatibilitySet::new(
            vec![
                RepositoryRevision::new("Memorithm/RSI", revision('a'), "rsi").unwrap(),
            ],
            "stable",
            vec!["default".to_string()],
        )
        .unwrap(),
        parent_state_id: digest('c'),
        patch_set: PatchSet::new(vec![FileOperation::modify_exact(
            "src/lib.rs",
            "old",
            "new",
        )])
        .unwrap(),
        proposer: ProposerMetadata::new("sciagent", "engineering", "heldout-v1").unwrap(),
        compiler_test_device_evidence: vec!["cargo test: pass".to_string()],
        admissibility: gates(),
        benchmarks: if with_benchmark {
            vec![BenchmarkRecord::new("latency", "ns", vec!["10".to_string(), "9".to_string()], "9.5").unwrap()]
        } else {
            Vec::new()
        },
        verdict: EngineeringVerdict::Accepted,
        verdict_reason: "frozen acceptance criteria satisfied".to_string(),
        later_verdicts: Vec::new(),
    }
}

fn plan(
    spec: &FrozenAutopilotSpec,
    dag: &AutopilotTaskDag,
    trajectory: &EngineeringTrajectory,
) -> AutopilotPullRequestPlan {
    AutopilotPullRequestPlan::new(
        spec,
        dag,
        trajectory,
        PullRequestPlanDraft::new(
            "implementation",
            "rsi",
            "main",
            "feat(autopilot): apply accepted candidate",
        ),
    )
    .unwrap()
}

#[test]
fn plan_requests_branch_then_pr_and_never_merge() {
    let spec = spec();
    let dag = dag(&spec, TaskRegime::feature());
    let trajectory = trajectory(&spec, false);
    let plan = plan(&spec, &dag, &trajectory);
    assert_eq!(
        plan.hosting_actions(),
        [HostingAction::CreateBranch, HostingAction::OpenPullRequest]
    );
    assert_ne!(plan.branch_name(), plan.default_branch());
    assert!(plan.branch_name().starts_with("autopilot/implementation/"));
    assert!(plan.body().contains("does not request or encode automatic merge"));
}

#[test]
fn body_contains_exact_compatibility_and_evidence() {
    let spec = spec();
    let dag = dag(&spec, TaskRegime::feature());
    let trajectory = trajectory(&spec, false);
    let plan = plan(&spec, &dag, &trajectory);
    assert!(plan.body().contains(&trajectory.compatibility.fingerprint()));
    assert!(plan.body().contains(&trajectory.compatibility.to_json_string()));
    assert!(plan.body().contains("numerical_parity: `pass`"));
    assert!(plan.body().contains("cargo test: pass"));
    plan.verify().unwrap();
}

#[test]
fn inadmissible_or_rejected_candidate_cannot_emit_pr() {
    let spec = spec();
    let dag = dag(&spec, TaskRegime::feature());
    let mut trajectory = trajectory(&spec, false);
    trajectory.admissibility.policy_checks = GateStatus::Fail;
    trajectory.verdict = EngineeringVerdict::Rejected;
    assert!(matches!(
        AutopilotPullRequestPlan::new(
            &spec,
            &dag,
            &trajectory,
            PullRequestPlanDraft::new("implementation", "rsi", "main", "candidate")
        ),
        Err(AutopilotPrError::TrajectoryNotAccepted)
            | Err(AutopilotPrError::InvalidTrajectory(_))
    ));
}

#[test]
fn perf_candidate_requires_recorded_benchmark() {
    let spec = spec();
    let dag = dag(&spec, TaskRegime::perf("perf-v1").unwrap());
    let bare = trajectory(&spec, false);
    assert!(matches!(
        AutopilotPullRequestPlan::new(
            &spec,
            &dag,
            &bare,
            PullRequestPlanDraft::new("implementation", "rsi", "main", "candidate")
        ),
        Err(AutopilotPrError::PerfTrajectoryMissingBenchmark)
    ));
    let measured = trajectory(&spec, true);
    plan(&spec, &dag, &measured).verify().unwrap();
}

#[test]
fn patchset_must_stay_inside_task_allowance() {
    let spec = spec();
    let dag = dag(&spec, TaskRegime::feature());
    let mut trajectory = trajectory(&spec, false);
    trajectory.patch_set = PatchSet::new(vec![FileOperation::create("docs/out.md", "x")]).unwrap();
    assert!(matches!(
        AutopilotPullRequestPlan::new(
            &spec,
            &dag,
            &trajectory,
            PullRequestPlanDraft::new("implementation", "rsi", "main", "candidate")
        ),
        Err(AutopilotPrError::PatchOutsideTaskAllowance { .. })
    ));
}

#[test]
fn ci_and_human_review_are_appended_to_same_trajectory() {
    let spec = spec();
    let dag = dag(&spec, TaskRegime::feature());
    let mut trajectory = trajectory(&spec, false);
    let plan = plan(&spec, &dag, &trajectory);
    let receipt = PullRequestEmissionReceipt::new(&plan, 42, revision('d')).unwrap();
    let ci = ExternalPrVerdict::new(
        &receipt,
        ExternalVerdictKind::Ci,
        true,
        "required final-head CI passed",
        digest('e'),
    )
    .unwrap();
    append_external_pr_verdict(&plan, &receipt, &ci, &mut trajectory).unwrap();
    let review = ExternalPrVerdict::new(
        &receipt,
        ExternalVerdictKind::HumanReview,
        false,
        "review requested a safer implementation",
        digest('f'),
    )
    .unwrap();
    append_external_pr_verdict(&plan, &receipt, &review, &mut trajectory).unwrap();

    assert_eq!(trajectory.later_verdicts.len(), 2);
    assert!(trajectory.later_verdicts[0].accepted);
    assert!(!trajectory.later_verdicts[1].accepted);
    assert!(trajectory.later_verdicts[1]
        .source
        .contains("github:human-review:Memorithm/RSI#42@"));
}

#[test]
fn duplicate_external_verdict_is_rejected() {
    let spec = spec();
    let dag = dag(&spec, TaskRegime::feature());
    let mut trajectory = trajectory(&spec, false);
    let plan = plan(&spec, &dag, &trajectory);
    let receipt = PullRequestEmissionReceipt::new(&plan, 42, revision('d')).unwrap();
    let ci = ExternalPrVerdict::new(
        &receipt,
        ExternalVerdictKind::Ci,
        true,
        "CI passed",
        digest('e'),
    )
    .unwrap();
    append_external_pr_verdict(&plan, &receipt, &ci, &mut trajectory).unwrap();
    assert!(matches!(
        append_external_pr_verdict(&plan, &receipt, &ci, &mut trajectory),
        Err(AutopilotPrError::DuplicateExternalVerdict(_))
    ));
}

#[test]
fn verdict_for_other_head_is_rejected() {
    let spec = spec();
    let dag = dag(&spec, TaskRegime::feature());
    let mut trajectory = trajectory(&spec, false);
    let plan = plan(&spec, &dag, &trajectory);
    let receipt = PullRequestEmissionReceipt::new(&plan, 42, revision('d')).unwrap();
    let mut verdict = ExternalPrVerdict::new(
        &receipt,
        ExternalVerdictKind::HumanReview,
        true,
        "approved",
        digest('e'),
    )
    .unwrap();
    verdict.head_revision = revision('f');
    assert!(matches!(
        append_external_pr_verdict(&plan, &receipt, &verdict, &mut trajectory),
        Err(AutopilotPrError::ExternalVerdictContextMismatch)
    ));
}

#[test]
fn compatibility_must_match_frozen_repository_revision() {
    let spec = spec();
    let dag = dag(&spec, TaskRegime::feature());
    let mut trajectory = trajectory(&spec, false);
    trajectory.compatibility = CompatibilitySet::new(
        vec![RepositoryRevision::new("Memorithm/RSI", revision('9'), "rsi").unwrap()],
        "stable",
        Vec::new(),
    )
    .unwrap();
    assert!(matches!(
        AutopilotPullRequestPlan::new(
            &spec,
            &dag,
            &trajectory,
            PullRequestPlanDraft::new("implementation", "rsi", "main", "candidate")
        ),
        Err(AutopilotPrError::CompatibilityScopeMismatch { .. })
    ));
}

#[test]
fn errors_are_told_with_what_they_carry() {
    let all: Vec<AutopilotPrError> = vec![
        AutopilotPrError::EmptyField("title"),
        AutopilotPrError::InvalidText { field: "title", value: "a\"b\n".to_string() },
        AutopilotPrError::InvalidRevision("x".to_string()),
        AutopilotPrError::TitleTooLong(300),
        AutopilotPrError::SpecDagMismatch,
        AutopilotPrError::CompatibilityScopeMismatch {
            repository: "o/r".to_string(),
            role: "x".to_string(),
            revision: "1".to_string(),
        },
        AutopilotPrError::PatchOutsideTaskAllowance {
            repository_role: "x".to_string(),
            path: "a/b".to_string(),
            operation: TaskOperation::ModifyExact,
        },
        AutopilotPrError::TrajectorySpecMismatch { expected: "1".to_string(), actual: "2".to_string() },
    ];
    for e in all {
        assert_eq!(e.to_string(), format!("AUTOPILOT PR contract error: {e:?}"));
    }
}
