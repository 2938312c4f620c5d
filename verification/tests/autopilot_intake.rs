use rsi::autopilot_intake::{AcceptanceCheck, AcceptanceCriterion, AutopilotIntakeError, AutopilotSpecDraft, ExplorationObservation, ExplorationSource, ExploredObjective, IntakeQuestion, QuestionAnswer, RepositoryExploration, RepositoryScope, ResolvedIntake, SpecBudget};

fn digest(hex: char) -> String {
    hex.to_string().repeat(64)
}

fn revision(hex: char) -> String {
    hex.to_string().repeat(40)
}

fn exploration(repository: &str, rev: char, path: &str) -> RepositoryExploration {
    RepositoryExploration::new(
        repository,
        revision(rev),
        vec![
            ExplorationObservation::new(
                "code",
                ExplorationSource::repository_file(path, digest('a')).unwrap(),
                "inspected the implementation boundary",
            )
            .unwrap(),
            ExplorationObservation::new(
                "history",
                ExplorationSource::commit(revision(rev)).unwrap(),
                "inspected the immutable baseline commit",
            )
            .unwrap(),
        ],
    )
    .unwrap()
}

fn resolved(explorations: Vec<RepositoryExploration>) -> ResolvedIntake {
    ExploredObjective::new(
        "implement bounded AUTOPILOT intake",
        "the repository already has cumulative PatchSets and COGNO hard gates",
        explorations,
    )
    .unwrap()
    .questionnaire(vec![
        IntakeQuestion::new("scope", "Should generated specs stay inside RSI?").unwrap(),
    ])
    .unwrap()
    .resolve(vec![QuestionAnswer::new("scope", "yes, RSI only for this slice").unwrap()])
    .unwrap()
}

fn draft(rev: char) -> AutopilotSpecDraft {
    let scope = RepositoryScope::new(
        "rsi",
        "Memorithm/RSI",
        revision(rev),
        vec!["src/autopilot_intake.rs".to_string(), "src/lib.rs".to_string()],
    )
    .unwrap();
    let criterion = AcceptanceCriterion::new(
        "unit-tests",
        "the default RSI test suite passes",
        AcceptanceCheck::command("rsi", "cargo_test", vec!["--lib".to_string()]).unwrap(),
    )
    .unwrap();
    AutopilotSpecDraft::new(
        vec![criterion],
        vec!["automatic merge".to_string(), "direct main writes".to_string()],
        SpecBudget::new(32, 3_600_000, 200_000).unwrap(),
        vec![scope],
    )
}

#[test]
fn exploration_is_required_before_questionnaire_or_spec() {
    let error = ExploredObjective::new("objective", "context", Vec::new()).unwrap_err();
    assert_eq!(error, AutopilotIntakeError::ExplorationRequired);
}

#[test]
fn grouped_questionnaire_fails_closed_on_missing_or_unknown_answers() {
    let questionnaire = ExploredObjective::new(
        "objective",
        "context",
        vec![exploration("Memorithm/RSI", 'a', "src/lib.rs")],
    )
    .unwrap()
    .questionnaire(vec![IntakeQuestion::new("q1", "Choose the scope").unwrap()])
    .unwrap();
    assert!(matches!(
        questionnaire.clone().resolve(Vec::new()),
        Err(AutopilotIntakeError::UnansweredQuestion(id)) if id == "q1"
    ));
    assert!(matches!(
        questionnaire.resolve(vec![QuestionAnswer::new("other", "answer").unwrap()]),
        Err(AutopilotIntakeError::UnknownQuestion(id)) if id == "other"
    ));
}

#[test]
fn frozen_scope_must_have_been_explored_at_exact_revision() {
    let error = resolved(vec![exploration("Memorithm/RSI", 'a', "src/lib.rs")])
        .freeze(draft('b'))
        .unwrap_err();
    assert!(matches!(
        error,
        AutopilotIntakeError::UnexploredRepositoryRevision { .. }
    ));
}

#[test]
fn acceptance_criterion_cannot_reference_unlisted_repository_role() {
    let mut value = draft('a');
    value.acceptance_criteria = vec![
        AcceptanceCriterion::new(
            "foreign",
            "must not silently expand scope",
            AcceptanceCheck::file_present("scirust", "Cargo.toml").unwrap(),
        )
        .unwrap(),
    ];
    let error = resolved(vec![exploration("Memorithm/RSI", 'a', "src/lib.rs")])
        .freeze(value)
        .unwrap_err();
    assert!(matches!(
        error,
        AutopilotIntakeError::CriterionOutsideScope { .. }
    ));
}

#[test]
fn canonical_spec_identity_is_input_order_independent() {
    let explorations_a = vec![
        exploration("Memorithm/scirust", 'b', "scirust-sciagent/src/lib.rs"),
        exploration("Memorithm/RSI", 'a', "src/lib.rs"),
    ];
    let explorations_b = explorations_a.iter().cloned().rev().collect();

    let make_draft = || {
        let scopes = vec![
            RepositoryScope::new(
                "scirust",
                "Memorithm/scirust",
                revision('b'),
                vec!["scirust-sciagent/src/lib.rs".to_string()],
            )
            .unwrap(),
            RepositoryScope::new(
                "rsi",
                "Memorithm/RSI",
                revision('a'),
                vec!["src/lib.rs".to_string()],
            )
            .unwrap(),
        ];
        let criteria = vec![
            AcceptanceCriterion::new(
                "b",
                "SciRust compiles",
                AcceptanceCheck::command("scirust", "cargo_check", Vec::new()).unwrap(),
            )
            .unwrap(),
            AcceptanceCriterion::new(
                "a",
                "RSI compiles",
                AcceptanceCheck::command("rsi", "cargo_check", Vec::new()).unwrap(),
            )
            .unwrap(),
        ];
        AutopilotSpecDraft::new(
            criteria,
            vec!["scope creep".to_string(), "direct merge".to_string()],
            SpecBudget::new(16, 60_000, 50_000).unwrap(),
            scopes,
        )
    };

    let first = resolved(explorations_a).freeze(make_draft()).unwrap();
    let mut reversed = make_draft();
    reversed.acceptance_criteria.reverse();
    reversed.repository_scope.reverse();
    reversed.out_of_scope.reverse();
    let second = resolved(explorations_b).freeze(reversed).unwrap();

    assert_eq!(first.spec_sha256(), second.spec_sha256());
    assert_eq!(first.to_json_string(), second.to_json_string());
    first.verify().unwrap();
}

#[test]
fn frozen_hash_detects_tampering() {
    let mut spec = resolved(vec![exploration("Memorithm/RSI", 'a', "src/lib.rs")])
        .freeze(draft('a'))
        .unwrap();
    spec.context.push_str(" modified after freeze");
    assert!(matches!(
        spec.verify(),
        Err(AutopilotIntakeError::FrozenSpecHashMismatch { .. })
    ));
}

#[test]
fn traversal_and_noncanonical_paths_are_rejected() {
    for path in ["../src/lib.rs", "/tmp/file", "src//lib.rs", "./src/lib.rs"] {
        assert!(matches!(
            RepositoryScope::new("rsi", "Memorithm/RSI", revision('a'), vec![path.to_string()]),
            Err(AutopilotIntakeError::InvalidPath { .. })
        ));
    }
}
