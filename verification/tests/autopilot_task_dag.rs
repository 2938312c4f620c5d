use rsi::autopilot_intake::{AcceptanceCheck, AcceptanceCriterion, AutopilotSpecDraft, ExplorationObservation, ExplorationSource, ExploredObjective, FrozenAutopilotSpec, RepositoryExploration, RepositoryScope, SpecBudget};
use rsi::autopilot_task_dag::{bracket_text, AutopilotTask, AutopilotTaskDag, AutopilotTaskDagError, AutopilotTaskDraft, BASE_HARD_GATES, HardGateProfile, TaskBudget, TaskDagPolicy, TaskEditAllowance, TaskOperation, TaskRegime};

fn revision(hex: char) -> String {
    hex.to_string().repeat(40)
}

fn digest(hex: char) -> String {
    hex.to_string().repeat(64)
}

fn frozen_spec() -> FrozenAutopilotSpec {
    let explorations = vec![
        RepositoryExploration::new(
            "Memorithm/RSI",
            revision('a'),
            vec![
                ExplorationObservation::new(
                    "code",
                    ExplorationSource::repository_file("src/lib.rs", digest('b')).unwrap(),
                    "inspected RSI public module boundary",
                )
                .unwrap(),
            ],
        )
        .unwrap(),
        RepositoryExploration::new(
            "Memorithm/scirust",
            revision('c'),
            vec![
                ExplorationObservation::new(
                    "code",
                    ExplorationSource::repository_file(
                        "scirust-sciagent/src/lib.rs",
                        digest('d'),
                    )
                    .unwrap(),
                    "inspected SciAgent integration boundary",
                )
                .unwrap(),
            ],
        )
        .unwrap(),
    ];
    let intake = ExploredObjective::new(
        "deliver AUTOPILOT task DAG",
        "P8.1 froze exact repository scope before decomposition",
        explorations,
    )
    .unwrap()
    .questionnaire(Vec::new())
    .unwrap()
    .resolve(Vec::new())
    .unwrap();
    let criteria = vec![
        AcceptanceCriterion::new(
            "rsi-tests",
            "RSI tests pass",
            AcceptanceCheck::command("rsi", "cargo_test", Vec::new()).unwrap(),
        )
        .unwrap(),
        AcceptanceCriterion::new(
            "sciagent-check",
            "SciAgent compiles",
            AcceptanceCheck::command("scirust", "cargo_check", Vec::new()).unwrap(),
        )
        .unwrap(),
    ];
    intake
        .freeze(AutopilotSpecDraft::new(
            criteria,
            vec!["direct default-branch writes".to_string()],
            SpecBudget::new(20, 20_000, 20_000).unwrap(),
            vec![
                RepositoryScope::new(
                    "rsi",
                    "Memorithm/RSI",
                    revision('a'),
                    vec!["src".to_string(), "tests".to_string()],
                )
                .unwrap(),
                RepositoryScope::new(
                    "scirust",
                    "Memorithm/scirust",
                    revision('c'),
                    vec!["scirust-sciagent".to_string()],
                )
                .unwrap(),
            ],
        ))
        .unwrap()
}

fn allowance(role: &str, path: &str) -> TaskEditAllowance {
    TaskEditAllowance::new(
        role,
        vec![path.to_string()],
        vec![TaskOperation::Create, TaskOperation::ModifyExact],
    )
    .unwrap()
}

fn task(
    id: &str,
    dependencies: Vec<String>,
    role: &str,
    path: &str,
    criterion: &str,
) -> AutopilotTask {
    AutopilotTask::new(AutopilotTaskDraft {
        id: id.to_string(),
        description: format!("execute task {id}"),
        regime: TaskRegime::feature(),
        repository_roles: vec![role.to_string()],
        edit_allowances: vec![allowance(role, path)],
        hard_gate_profile: HardGateProfile::engineering_strict(),
        budget: TaskBudget::new(2, 4, 4_000, 4_000).unwrap(),
        dependencies,
        done_criterion_id: criterion.to_string(),
    })
    .unwrap()
}

fn policy() -> TaskDagPolicy {
    TaskDagPolicy::new(8, 4, 16).unwrap()
}

#[test]
fn strict_hard_gate_profile_cannot_omit_base_gates() {
    let gates = HardGateProfile::engineering_strict().required_gates();
    assert_eq!(gates.len(), BASE_HARD_GATES.len());
    for gate in BASE_HARD_GATES {
        assert!(gates.iter().any(|item| item == gate));
    }
}

#[test]
fn task_scope_can_narrow_but_not_widen_frozen_paths() {
    let spec = frozen_spec();
    let valid = task("a", Vec::new(), "rsi", "src/autopilot", "rsi-tests");
    AutopilotTaskDag::new(&spec, vec![valid], policy()).unwrap();

    let widened = task("a", Vec::new(), "rsi", "docs", "rsi-tests");
    assert!(matches!(
        AutopilotTaskDag::new(&spec, vec![widened], policy()),
        Err(AutopilotTaskDagError::PathOutsideFrozenScope { .. })
    ));
}

#[test]
fn done_criterion_must_belong_to_task_repository_subset() {
    let spec = frozen_spec();
    let task = task("a", Vec::new(), "rsi", "src", "sciagent-check");
    assert!(matches!(
        AutopilotTaskDag::new(&spec, vec![task], policy()),
        Err(AutopilotTaskDagError::DoneCriterionOutsideTaskSubset { .. })
    ));
}

#[test]
fn dag_rejects_unknown_dependencies_and_cycles() {
    let spec = frozen_spec();
    let unknown = task(
        "a",
        vec!["missing".to_string()],
        "rsi",
        "src",
        "rsi-tests",
    );
    assert!(matches!(
        AutopilotTaskDag::new(&spec, vec![unknown], policy()),
        Err(AutopilotTaskDagError::UnknownDependency { .. })
    ));

    let first = task(
        "a",
        vec!["b".to_string()],
        "rsi",
        "src",
        "rsi-tests",
    );
    let second = task(
        "b",
        vec!["a".to_string()],
        "rsi",
        "tests",
        "rsi-tests",
    );
    assert!(matches!(
        AutopilotTaskDag::new(&spec, vec![first, second], policy()),
        Err(AutopilotTaskDagError::CycleDetected(_))
    ));
}

#[test]
fn aggregate_task_budget_cannot_exceed_frozen_objective_budget() {
    let spec = frozen_spec();
    let mut first = task("a", Vec::new(), "rsi", "src", "rsi-tests");
    let mut second = task(
        "b",
        vec!["a".to_string()],
        "rsi",
        "tests",
        "rsi-tests",
    );
    first.budget.max_tokens = 15_000;
    second.budget.max_tokens = 15_000;
    assert!(matches!(
        AutopilotTaskDag::new(&spec, vec![first, second], policy()),
        Err(AutopilotTaskDagError::ObjectiveBudgetExceeded {
            field: "tokens",
            ..
        })
    ));
}

#[test]
fn topological_order_and_hash_are_deterministic() {
    let spec = frozen_spec();
    let a = task("a", Vec::new(), "rsi", "src", "rsi-tests");
    let b = task("b", Vec::new(), "scirust", "scirust-sciagent", "sciagent-check");
    let c = task(
        "c",
        vec!["a".to_string(), "b".to_string()],
        "rsi",
        "tests",
        "rsi-tests",
    );
    let first = AutopilotTaskDag::new(
        &spec,
        vec![c.clone(), b.clone(), a.clone()],
        policy(),
    )
    .unwrap();
    let second = AutopilotTaskDag::new(&spec, vec![a, c, b], policy()).unwrap();
    assert_eq!(first.topological_order(), &["a", "b", "c"]);
    assert_eq!(first.dag_sha256(), second.dag_sha256());
    assert_eq!(first.to_json_string(), second.to_json_string());
    first.verify().unwrap();
}

#[test]
fn perf_regime_requires_nonempty_machine_identifier() {
    assert!(TaskRegime::perf("flat-decode-v1").is_ok());
    assert!(matches!(
        TaskRegime::perf(""),
        Err(AutopilotTaskDagError::EmptyField("benchmark_profile_id"))
    ));
}

#[test]
fn read_only_repository_subset_is_allowed() {
    let spec = frozen_spec();
    let task = AutopilotTask::new(AutopilotTaskDraft {
        id: "cross-check".to_string(),
        description: "evaluate RSI while reading exact SciRust state".to_string(),
        regime: TaskRegime::feature(),
        repository_roles: vec!["rsi".to_string(), "scirust".to_string()],
        edit_allowances: vec![allowance("rsi", "src")],
        hard_gate_profile: HardGateProfile::engineering_strict(),
        budget: TaskBudget::new(1, 2, 2_000, 2_000).unwrap(),
        dependencies: Vec::new(),
        done_criterion_id: "rsi-tests".to_string(),
    })
    .unwrap();
    let dag = AutopilotTaskDag::new(&spec, vec![task], policy()).unwrap();
    assert_eq!(dag.tasks()[0].repository_roles(), &["rsi", "scirust"]);
}

#[test]
fn cycles_are_told_with_escapes() {
    let told = |ids: &[&str]| {
        AutopilotTaskDagError::<String, Vec<String>>::CycleDetected(ids.iter().map(|s| s.to_string()).collect()).to_string()
    };
    for ids in [&[][..], &["a"], &["a", "b"], &["q\"\\", "l\nt\t", "é\u{200b}'"]] {
        assert_eq!(told(ids), format!("AUTOPILOT task DAG contains a cycle: {ids:?}"));
    }
    assert_eq!(bracket_text(&["x".to_string(), "y".to_string()]), "[x, y]");
}

#[test]
fn a_task_waits_for_its_dependency_alone() {
    let spec = frozen_spec();
    let a = task("a", vec!["c".to_string()], "rsi", "src", "rsi-tests");
    let b = task("b", Vec::new(), "scirust", "scirust-sciagent", "sciagent-check");
    let c = task("c", Vec::new(), "rsi", "tests", "rsi-tests");
    let dag = AutopilotTaskDag::new(&spec, vec![a, c, b], policy()).unwrap();
    assert_eq!(dag.topological_order(), &["b", "c", "a"]);
}

#[test]
fn cycles_name_their_tasks_and_those_behind_them() {
    let spec = frozen_spec();
    let a = task("a", vec!["b".to_string()], "rsi", "src", "rsi-tests");
    let b = task("b", vec!["a".to_string()], "rsi", "tests", "rsi-tests");
    let c = task("c", vec!["a".to_string()], "rsi", "tests", "rsi-tests");
    let d = task("d", Vec::new(), "scirust", "scirust-sciagent", "sciagent-check");
    for tasks in [vec![b.clone(), a.clone()], vec![a.clone(), b.clone()]] {
        match AutopilotTaskDag::new(&spec, tasks, policy()) {
            Err(AutopilotTaskDagError::CycleDetected(ids)) => assert_eq!(ids, ["a", "b"]),
            other => panic!("{other:?}"),
        }
    }
    match AutopilotTaskDag::new(&spec, vec![d, c, b, a], policy()) {
        Err(AutopilotTaskDagError::CycleDetected(ids)) => assert_eq!(ids, ["a", "b", "c"]),
        other => panic!("{other:?}"),
    }
}
