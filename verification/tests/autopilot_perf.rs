use rsi::autopilot_intake::{AcceptanceCheck, AcceptanceCriterion, AutopilotSpecDraft, ExplorationObservation, ExplorationSource, ExploredObjective, FrozenAutopilotSpec, RepositoryExploration, RepositoryScope, SpecBudget};
use rsi::autopilot_perf::{AntiNoisePolicy, BenchmarkCase, BenchmarkClass, BenchmarkEnvironment, CaseSummary, FrozenBenchmarkArtifact, FrozenPerfBenchmark, MetricDirection, PerfBenchmarkApproval, PerfComparisonReport, PerfMeasurementBatch, PerfRegimeError, SampleStatistics};
use rsi::measure::Measure;
use rsi::autopilot_task_dag::{AutopilotTask, AutopilotTaskDag, AutopilotTaskDraft, HardGateProfile, TaskBudget, TaskDagPolicy, TaskEditAllowance, TaskOperation, TaskRegime};
use rsi::engineering_trajectory::{AdmissibilityBreakdown, GateStatus};
use rsi::patchset::{FileOperation, PatchSet};

fn digest(hex: char) -> String {
    hex.to_string().repeat(64)
}

fn revision(hex: char) -> String {
    hex.to_string().repeat(40)
}

fn spec() -> FrozenAutopilotSpec {
    let exploration = RepositoryExploration::new(
        "Memorithm/RSI",
        revision('a'),
        vec![
            ExplorationObservation::new(
                "benchmark",
                ExplorationSource::repository_file("benches/perf.rs", digest('b')).unwrap(),
                "inspected the end-to-end benchmark harness",
            )
            .unwrap(),
        ],
    )
    .unwrap();
    ExploredObjective::new(
        "improve measured end-to-end performance",
        "benchmark and anti-noise policy are frozen before candidate search",
        vec![exploration],
    )
    .unwrap()
    .questionnaire(Vec::new())
    .unwrap()
    .resolve(Vec::new())
    .unwrap()
    .freeze(AutopilotSpecDraft::new(
        vec![
            AcceptanceCriterion::new(
                "perf-gates",
                "all hard gates pass before performance ranking",
                AcceptanceCheck::command("rsi", "cargo_test", Vec::new()).unwrap(),
            )
            .unwrap(),
        ],
        vec!["editing the benchmark during candidate search".to_string()],
        SpecBudget::new(20, 20_000, 20_000).unwrap(),
        vec![
            RepositoryScope::new(
                "rsi",
                "Memorithm/RSI",
                revision('a'),
                vec!["benches".to_string(), "src".to_string()],
            )
            .unwrap(),
        ],
    ))
    .unwrap()
}

fn perf_task(edit_prefix: &str) -> AutopilotTask {
    AutopilotTask::new(AutopilotTaskDraft {
        id: "perf-opt".to_string(),
        description: "optimize end-to-end latency".to_string(),
        regime: TaskRegime::perf("decode-v1").unwrap(),
        repository_roles: vec!["rsi".to_string()],
        edit_allowances: vec![
            TaskEditAllowance::new(
                "rsi",
                vec![edit_prefix.to_string()],
                vec![TaskOperation::ModifyExact, TaskOperation::Create],
            )
            .unwrap(),
        ],
        hard_gate_profile: HardGateProfile::engineering_strict(),
        budget: TaskBudget::new(4, 10, 10_000, 10_000).unwrap(),
        dependencies: Vec::new(),
        done_criterion_id: "perf-gates".to_string(),
    })
    .unwrap()
}

fn dag(edit_prefix: &str) -> AutopilotTaskDag {
    let spec = spec();
    AutopilotTaskDag::new(
        &spec,
        vec![perf_task(edit_prefix)],
        TaskDagPolicy::new(4, 8, 8).unwrap(),
    )
    .unwrap()
}

fn profile() -> FrozenPerfBenchmark {
    let spec = spec();
    let dag = dag("src");
    FrozenPerfBenchmark::freeze(
        &spec,
        &dag,
        "perf-opt",
        PerfBenchmarkApproval::new("human-review", digest('c')).unwrap(),
        BenchmarkEnvironment::new(digest('d'), digest('e')).unwrap(),
        AntiNoisePolicy::new(5, 3, 20_000, 20_000, 3).unwrap(),
        vec![
            BenchmarkCase::new(
                "e2e-latency",
                "rsi",
                "bench_e2e",
                Vec::new(),
                "latency",
                "ns",
                MetricDirection::Minimize,
                BenchmarkClass::EndToEnd,
                true,
            )
            .unwrap(),
            BenchmarkCase::new(
                "micro-helper",
                "rsi",
                "bench_helper",
                Vec::new(),
                "throughput",
                "items_s",
                MetricDirection::Maximize,
                BenchmarkClass::SupportingMicrobenchmark,
                false,
            )
            .unwrap(),
        ],
        vec![FrozenBenchmarkArtifact::new("rsi", "benches/perf.rs", digest('f')).unwrap()],
    )
    .unwrap()
}

fn admissible() -> AdmissibilityBreakdown {
    AdmissibilityBreakdown {
        build: GateStatus::Pass,
        required_tests: GateStatus::Pass,
        numerical_parity: GateStatus::Pass,
        provenance: GateStatus::Pass,
        deterministic_contract: GateStatus::Pass,
        resource_budget: GateStatus::Pass,
        policy_checks: GateStatus::Pass,
    }
}

/// A batch with its samples.
struct Raw {
    case_id: String,
    batch_id: String,
    environment_fingerprint: String,
    samples: Vec<f64>,
}

fn m(x: f64) -> Measure {
    Measure::from_bits(x.to_bits())
}

fn median(samples: &[f64]) -> f64 {
    let mut sorted = samples.to_vec();
    sorted.sort_by(|left, right| left.total_cmp(right));
    let middle = sorted.len() / 2;
    if sorted.len() % 2 == 0 {
        (sorted[middle - 1] + sorted[middle]) / 2.0
    } else {
        sorted[middle]
    }
}

fn relative_mad_ppm(samples: &[f64]) -> Option<u64> {
    let center = median(samples);
    let deviations: Vec<f64> = samples.iter().map(|sample| (sample - center).abs()).collect();
    let ppm = median(&deviations) / center * 1_000_000.0;
    if !center.is_finite() || center <= 0.0 || !ppm.is_finite() || ppm < 0.0 {
        None
    } else {
        Some(ppm.round() as u64)
    }
}

fn improvement_ppm(direction: MetricDirection, baseline: f64, candidate: f64) -> i64 {
    let ratio = match direction {
        MetricDirection::Minimize => (baseline - candidate) / baseline,
        MetricDirection::Maximize => (candidate - baseline) / baseline,
    };
    (ratio * 1_000_000.0).round() as i64
}

fn direction_of(profile: &FrozenPerfBenchmark, case: &str) -> MetricDirection {
    profile.cases().iter().find(|c| c.id == case).unwrap().direction
}

fn measured(raw: &Raw, improvement_ppm: i64) -> PerfMeasurementBatch {
    PerfMeasurementBatch::new(
        raw.case_id.as_str(),
        raw.batch_id.as_str(),
        raw.environment_fingerprint.as_str(),
        raw.samples.iter().map(|s| m(*s)).collect(),
        SampleStatistics {
            relative_mad_ppm: relative_mad_ppm(&raw.samples),
            improvement_ppm,
        },
    )
    .unwrap()
}

fn evaluate(
    profile: &FrozenPerfBenchmark,
    gates: &AdmissibilityBreakdown,
    baseline: &[Raw],
    candidate: &[Raw],
) -> Result<PerfComparisonReport, PerfRegimeError> {
    let base: Vec<PerfMeasurementBatch> = baseline.iter().map(|raw| measured(raw, 0)).collect();
    let cand: Vec<PerfMeasurementBatch> = candidate
        .iter()
        .map(|raw| {
            let pair = baseline
                .iter()
                .find(|b| b.case_id == raw.case_id && b.batch_id == raw.batch_id)
                .unwrap();
            measured(
                raw,
                improvement_ppm(
                    direction_of(profile, &raw.case_id),
                    median(&pair.samples),
                    median(&raw.samples),
                ),
            )
        })
        .collect();
    let summaries: Vec<CaseSummary> = profile
        .cases()
        .iter()
        .map(|case| {
            let medians = |all: &[Raw]| -> Vec<f64> {
                all.iter().filter(|b| b.case_id == case.id).map(|b| median(&b.samples)).collect()
            };
            let (before, after) = (median(&medians(baseline)), median(&medians(candidate)));
            CaseSummary {
                baseline_median: m(before),
                candidate_median: m(after),
                improvement_ppm: improvement_ppm(case.direction, before, after),
            }
        })
        .collect();
    PerfComparisonReport::evaluate(profile, gates, &base, &cand, &summaries)
}

fn batch(profile: &FrozenPerfBenchmark, case: &str, batch: &str, samples: &[f64]) -> Raw {
    Raw {
        case_id: case.to_string(),
        batch_id: batch.to_string(),
        environment_fingerprint: profile.environment_fingerprint(),
        samples: samples.to_vec(),
    }
}

fn paired_evidence(profile: &FrozenPerfBenchmark) -> (Vec<Raw>, Vec<Raw>) {
    let mut baseline = Vec::new();
    let mut candidate = Vec::new();
    for id in ["a", "b", "c"] {
        baseline.push(batch(profile, "e2e-latency", id, &[100.0, 100.5, 99.5, 100.2, 99.8]));
        candidate.push(batch(profile, "e2e-latency", id, &[90.0, 90.4, 89.6, 90.2, 89.8]));
        baseline.push(batch(profile, "micro-helper", id, &[1000.0, 1005.0, 995.0, 1002.0, 998.0]));
        candidate.push(batch(profile, "micro-helper", id, &[1200.0, 1205.0, 1195.0, 1202.0, 1198.0]));
    }
    (baseline, candidate)
}

#[test]
fn robust_end_to_end_gain_is_promotable() {
    let profile = profile();
    let (baseline, candidate) = paired_evidence(&profile);
    let report = evaluate(&profile, &admissible(), &baseline, &candidate)
    .unwrap();
    assert!(report.hard_gates_passed);
    assert!(report.promotable);
    assert!(report.cases.iter().all(|case| case.passed));
}

#[test]
fn inadmissible_candidate_is_never_performance_ranked() {
    let profile = profile();
    let (baseline, candidate) = paired_evidence(&profile);
    let mut gates = admissible();
    gates.numerical_parity = GateStatus::Fail;
    let report = evaluate(&profile, &gates, &baseline, &candidate).unwrap();
    assert!(!report.hard_gates_passed);
    assert!(!report.promotable);
    assert!(report.cases.is_empty());
}

#[test]
fn noisy_end_to_end_evidence_cannot_promote() {
    let profile = profile();
    let (baseline, mut candidate) = paired_evidence(&profile);
    for batch in candidate
        .iter_mut()
        .filter(|batch| batch.case_id == "e2e-latency")
    {
        batch.samples = vec![70.0, 110.0, 75.0, 108.0, 90.0];
    }
    let report = evaluate(&profile, &admissible(), &baseline, &candidate)
    .unwrap();
    assert!(!report.promotable);
    assert!(report
        .cases
        .iter()
        .any(|case| case.promotion_gate && !case.passed));
}

#[test]
fn microbenchmark_win_cannot_override_end_to_end_regression() {
    let profile = profile();
    let (baseline, mut candidate) = paired_evidence(&profile);
    for batch in candidate
        .iter_mut()
        .filter(|batch| batch.case_id == "e2e-latency")
    {
        batch.samples = vec![105.0, 105.2, 104.8, 105.1, 104.9];
    }
    let report = evaluate(&profile, &admissible(), &baseline, &candidate)
    .unwrap();
    assert!(!report.promotable);
    assert!(report
        .cases
        .iter()
        .find(|case| case.case_id == "micro-helper")
        .unwrap()
        .passed);
}

#[test]
fn perf_task_cannot_edit_frozen_benchmark_source() {
    let spec = spec();
    let dag = dag("benches");
    assert!(matches!(
        FrozenPerfBenchmark::freeze(
            &spec,
            &dag,
            "perf-opt",
            PerfBenchmarkApproval::new("human-review", digest('c')).unwrap(),
            BenchmarkEnvironment::new(digest('d'), digest('e')).unwrap(),
            AntiNoisePolicy::new(5, 3, 20_000, 20_000, 3).unwrap(),
            vec![BenchmarkCase::new(
                "e2e",
                "rsi",
                "bench_e2e",
                Vec::new(),
                "latency",
                "ns",
                MetricDirection::Minimize,
                BenchmarkClass::EndToEnd,
                true,
            )
            .unwrap()],
            vec![FrozenBenchmarkArtifact::new("rsi", "benches/perf.rs", digest('f')).unwrap()],
        ),
        Err(PerfRegimeError::TaskAllowanceTouchesFrozenBenchmark { .. })
    ));
}

#[test]
fn candidate_patch_cannot_touch_frozen_benchmark() {
    let profile = profile();
    let dag = dag("src");
    let patch = PatchSet::new(vec![FileOperation::modify_exact(
        "benches/perf.rs",
        "old",
        "new",
    )])
    .unwrap();
    assert!(matches!(
        profile.validate_patchset(&dag, "rsi", &patch),
        Err(PerfRegimeError::CandidateTouchesFrozenBenchmark { .. })
    ));
}

#[test]
fn wrong_hardware_or_software_fingerprint_is_rejected() {
    let profile = profile();
    let (baseline, mut candidate) = paired_evidence(&profile);
    candidate[0].environment_fingerprint = digest('0');
    assert!(matches!(
        evaluate(&profile, &admissible(), &baseline, &candidate),
        Err(PerfRegimeError::WrongEnvironment { .. })
    ));
}

#[test]
fn microbenchmark_cannot_be_declared_as_promotion_gate() {
    assert!(matches!(
        BenchmarkCase::new(
            "micro",
            "rsi",
            "bench_micro",
            Vec::new(),
            "latency",
            "ns",
            MetricDirection::Minimize,
            BenchmarkClass::SupportingMicrobenchmark,
            true,
        ),
        Err(PerfRegimeError::MicrobenchmarkCannotPromote(_))
    ));
}

#[test]
fn reported_gain_is_exact() {
    let profile = profile();
    let (baseline, candidate) = paired_evidence(&profile);
    let report = evaluate(&profile, &admissible(), &baseline, &candidate).unwrap();
    let e2e = report.cases.iter().find(|case| case.case_id == "e2e-latency").unwrap();
    assert_eq!(e2e.improvement_ppm, 100_000);
    assert_eq!(e2e.max_relative_mad_ppm, 2222);
    assert_eq!(e2e.winning_batches, 3);
    assert_eq!(e2e.baseline_median, m(100.0));
    assert_eq!(e2e.candidate_median, m(90.0));
}

#[test]
fn samples_are_positive_numbers() {
    let statistics = SampleStatistics { relative_mad_ppm: Some(0), improvement_ppm: 0 };
    let batch = |samples: &[f64]| {
        PerfMeasurementBatch::new("case", "a", digest('1'), samples.iter().map(|s| m(*s)).collect(), statistics)
    };
    assert!(batch(&[1.0, 2.5]).is_ok());
    for bad in [&[][..], &[0.0], &[-0.0], &[1.0, -1.0], &[f64::NAN], &[f64::INFINITY]] {
        assert!(matches!(batch(bad), Err(PerfRegimeError::InvalidSamples { .. })));
    }
}

#[test]
fn missing_batches_are_refused() {
    let profile = profile();
    let (mut baseline, mut candidate) = paired_evidence(&profile);
    baseline.pop();
    candidate.pop();
    assert!(matches!(
        evaluate(&profile, &admissible(), &baseline, &candidate),
        Err(PerfRegimeError::BatchCountMismatch { .. })
    ));
}
