use rsi::agent::{
    guard_move, keeps_power, risk_velocity_exceeded, strategy_hash, usable_seeds, GuardMove, Mitigation, RSIAgent, RiskConfig,
    StepOutcome,
};
use rsi::audit::HashChainLog;
use rsi::checkpoint::{Checkpoint, CognitiveState, Matrix, MetaStrategy, Substrate};
use rsi::criticality::{FailureMode, RiskReading};
use rsi::measure::Measure;
use rsi::step::{Action, Event, Stage};

fn m(x: f64) -> Measure {
    Measure::from_bits(x.to_bits())
}

fn numbers(values: &[&str]) -> Vec<String> {
    values.iter().map(|v| v.to_string()).collect()
}

fn state(level: &str) -> CognitiveState {
    let v = || numbers(&[level, "0.5"]);
    CognitiveState { d: v(), m: v(), r: v(), a: v(), c: v(), v: v() }
}

fn matrix() -> Matrix {
    Matrix { rows: 1, cols: 2, data: numbers(&["1", "-0.25"]) }
}

fn substrate() -> Substrate {
    Substrate {
        h: numbers(&["0.1"]),
        o: numbers(&["0.2", "0.3"]),
        a: matrix(),
        b: matrix(),
        c: matrix(),
        measured_software_eff: None,
    }
}

fn strategy() -> MetaStrategy {
    MetaStrategy {
        focus: numbers(&["0", "0", "0", "0", "0", "1"]),
        software_edit: numbers(&["0", "1e-3"]),
        gain: "0.05".to_string(),
    }
}

fn agent() -> RSIAgent {
    RSIAgent::new(state("0.1"), substrate(), strategy())
}

fn outcome(level: &str) -> StepOutcome {
    StepOutcome {
        state: state(level),
        substrate: substrate(),
        strategy: strategy(),
        theta: vec![0.5f64.to_bits()],
        si_global: "0.300000000".to_string(),
        si_safe: "0.290000000".to_string(),
        risk_global: "0.020000000".to_string(),
        max_rpn: "0.100000000".to_string(),
        p_eff: "0.500000000".to_string(),
        most_critical: FailureMode::Regression,
    }
}

#[test]
fn risk_velocity_guardrail_logic() {
    let exceeded = |prev: f64, cur: f64, delta: f64| risk_velocity_exceeded(&m(prev), &m(cur - prev), &m(delta));
    assert!(!exceeded(f64::NAN, 0.9, 0.1));
    assert!(exceeded(0.30, 0.45, 0.1));
    assert!(!exceeded(0.30, 0.35, 0.1));
    assert!(!exceeded(0.50, 0.20, 0.1));
}

#[test]
fn risk_answers_follow_the_leading_mode() {
    let reading = |rpn: f64, mode: FailureMode| RiskReading { max_rpn: m(rpn), most_critical: mode };
    let mut a = agent();
    let calm = a.respond(&reading(0.2, FailureMode::Goodhart), m(0.05), &m(f64::NAN));
    assert!(!calm.over_threshold);
    assert_eq!(calm.settled(true).name(), "none");
    let high = a.respond(&reading(0.5, FailureMode::Goodhart), m(0.05), &m(0.0));
    assert_eq!(high.settled(true).name(), "damp_gain");
    let rising = a.respond(&reading(0.2, FailureMode::Goodhart), m(0.30), &m(0.25));
    assert_eq!(rising.settled(true).name(), "damp_risk_delta");
    let drift = a.respond(&reading(0.5, FailureMode::ValueDrift), m(0.30), &m(0.0));
    assert!(drift.realign);
    assert_eq!(drift.settled(true).name(), "realign_V");
    let wire = a.respond(&reading(0.9, FailureMode::Wireheading), m(0.30), &m(0.0));
    assert_eq!(wire.settled(true).name(), "trust_floor");
    assert_eq!(wire.settled(false).name(), "damp_gain");
    let mut off = agent().with_risk_config(RiskConfig { active_response: false, ..RiskConfig::default() });
    let silent = off.respond(&reading(0.9, FailureMode::Wireheading), m(0.9), &m(0.9));
    assert_eq!(silent.settled(true), Mitigation::Unneeded);
}

#[test]
fn regressing_steps_are_halved_and_given_up() {
    let go = |si: f64, halvings: u32| guard_move(Mitigation::Unneeded, &m(si), &m(0.5), halvings);
    assert_eq!(go(0.5, 0), GuardMove::Keep);
    assert_eq!(go(0.4, 0), GuardMove::Halve);
    assert_eq!(go(0.4, 19), GuardMove::Halve);
    assert_eq!(go(0.4, 20), GuardMove::StayPut);
    assert_eq!(guard_move(Mitigation::TrustFloor, &m(0.1), &m(0.5), 0), GuardMove::Keep);
    assert!(keeps_power(&m(0.5), &m(0.5)));
    assert!(!keeps_power(&m(0.4), &m(0.5)));
}

#[test]
fn cadence_follows_the_interval() {
    let mut a = agent().with_meta_interval(3);
    let mut revised = Vec::new();
    for _ in 0..6 {
        revised.push(a.open_step().revise);
        a.commit(outcome("0.2"));
    }
    assert_eq!(revised, vec![true, false, false, true, false, false]);
    assert_eq!(agent().with_meta_interval(0).meta_interval, 1);
}

#[test]
fn substrate_is_improved_where_it_holds_back() {
    let a = agent();
    assert!(!a.routes_to_substrate(&m(0.9), FailureMode::Goodhart));
    let a = agent().with_substrate_improver();
    assert!(a.routes_to_substrate(&m(0.5), FailureMode::Goodhart));
    assert!(!a.routes_to_substrate(&m(0.4), FailureMode::Goodhart));
    assert!(a.routes_to_substrate(&m(0.4), FailureMode::SubstrateCollapse));
    let strict = agent().with_substrate_improver().with_route_threshold(m(7.0));
    assert_eq!(strict.route_threshold.bits, 1.0f64.to_bits());
}

#[test]
fn backends_are_listed_in_order() {
    assert!(agent().active_backends().is_empty());
    let full = agent()
        .with_knowledge()
        .with_audit(HashChainLog::new())
        .with_memory(0)
        .with_substrate_improver();
    assert_eq!(
        full.active_backends(),
        vec!["substrate_improver", "context_memory", "audit_log", "knowledge_source"]
    );
    let opening = full.open_step();
    assert!(opening.absorb);
    assert_eq!(opening.recall, Some(4));
}

#[test]
fn memory_records_each_step() {
    let mut a = agent().with_memory(0);
    for _ in 0..10 {
        a.commit(outcome("0.2"));
    }
    assert_eq!(a.memory_len(), 10);
}

#[test]
fn audit_log_traces_and_verifies() {
    let mut a = agent().with_audit(HashChainLog::new());
    for _ in 0..15 {
        a.commit(outcome("0.2"));
    }
    assert_eq!(a.audit_len(), 15);
    assert!(a.audit_verify());
    assert!(a.audit_head().is_some());
    assert!(agent().audit_verify());
    assert_eq!(agent().audit_len(), 0);
}

#[test]
fn audit_head_is_deterministic() {
    let run = || {
        let mut a = agent().with_audit(HashChainLog::new());
        for _ in 0..12 {
            a.commit(outcome("0.2"));
        }
        a.audit_head().unwrap()
    };
    assert_eq!(run(), run());
}

#[test]
fn strategies_hash_to_known_values() {
    assert_eq!(strategy_hash(&[]), 0xcbf2_9ce4_8422_2325);
    let mut h: u64 = 0xcbf2_9ce4_8422_2325;
    for v in [1.5f64, -2.0] {
        for b in v.to_le_bytes() {
            h ^= b as u64;
            h = h.wrapping_mul(0x0000_0100_0000_01b3);
        }
    }
    assert_eq!(strategy_hash(&[1.5f64.to_bits(), (-2.0f64).to_bits()]), h);
}

#[test]
fn seeds_have_the_length_of_the_software_vector() {
    assert_eq!(usable_seeds(&[Some(2), None, Some(3), Some(2)], 2), vec![0, 3]);
}

#[test]
fn snapshot_restore_preserves_macro_state() {
    let mut a = agent();
    for _ in 0..5 {
        a.commit(outcome("0.3"));
    }
    let cp = a.snapshot();
    for _ in 0..3 {
        a.commit(outcome("0.9"));
    }
    assert_ne!(a.current.t, cp.t);
    a.restore(&cp);
    assert_eq!(a.current, cp);
}

#[test]
fn checkpoint_json_roundtrip() {
    let mut a = agent();
    a.commit(outcome("0.3"));
    let mut cp = a.snapshot();
    assert_eq!(Checkpoint::from_json(&cp.to_json()).unwrap(), cp);
    cp.substrate.measured_software_eff = Some("0.75".to_string());
    assert_eq!(Checkpoint::from_json(&cp.to_json()).unwrap(), cp);
}

#[test]
fn try_restore_rejects_mismatched_dims() {
    let mut a = agent();
    let good = a.snapshot();
    assert!(a.try_restore(&good).is_ok());
    let mut bad = a.snapshot();
    bad.state.d.pop();
    let err = a.try_restore(&bad).unwrap_err();
    assert_eq!(
        err,
        "dimensions d'état du checkpoint [1, 2, 2, 2, 2, 2] incohérentes avec l'agent [2, 2, 2, 2, 2, 2]"
    );
    let mut bad = a.snapshot();
    bad.substrate.o.pop();
    let err = a.try_restore(&bad).unwrap_err();
    assert_eq!(
        err,
        "dimensions substrat du checkpoint (h=1, o=1) incohérentes avec l'agent (h=1, o=2)"
    );
}

#[test]
fn from_json_rejects_empty_state_component() {
    let mut cp = agent().snapshot();
    cp.state.r.clear();
    let err = Checkpoint::from_json(&cp.to_json()).unwrap_err();
    assert!(err.contains("vide"), "msg = {err}");
}

#[test]
fn unreadable_checkpoints_say_why() {
    let message = |text: &str| Checkpoint::from_json(text).unwrap_err();
    assert_eq!(message("{}"), "champ 't'");
    assert_eq!(message("{\"t\":1}"), "champ 'state'");
    assert_eq!(message("{\"t\":1,\"state\":{}}"), "state.d");
    assert_eq!(message("{\"t\":1,\"state\":{\"d\":3}}"), "state.d invalide");
    let text = agent().snapshot().to_json();
    assert_eq!(message(&text.replace("\"substrate\"", "\"x\"")), "champ 'substrate'");
    assert_eq!(message(&text.replace("\"rows\":1", "\"rows\":2")), "substrate.a");
    assert_eq!(message(&text.replace("\"strategy\"", "\"x\"")), "champ 'strategy'");
    assert_eq!(
        message(&text.replace("[0,0,0,0,0,1]", "[0,0]")),
        "strategy.focus doit avoir 6 valeurs"
    );
    let plain = text.replace("\"gain\":0.05,", "");
    assert_eq!(Checkpoint::from_json(&plain).unwrap().strategy.gain, "0.05");
}

// --- steps ---

fn assessed(rpn: f64, mode: FailureMode, limited: f64) -> Event {
    Event::Assessed {
        reading: RiskReading { max_rpn: m(rpn), most_critical: mode },
        risk_global: m(0.05),
        rise: m(f64::NAN),
        limited: m(limited),
    }
}

#[test]
fn plain_step_goes_from_risk_to_commit() {
    let mut a = agent().with_meta_interval(2);
    a.commit(outcome("0.2"));
    let (at, action) = a.begin_step();
    assert_eq!(action, Action::Assess);
    let (at, action) = a.step(at, &assessed(0.1, FailureMode::Goodhart, 0.0));
    assert_eq!(action, Action::Propose { damped: false, realign: false });
    assert_eq!(a.prev_pre_risk.bits, 0.05f64.to_bits());
    let (at, action) = a.step(at, &Event::Proposed { rewritten: m(0.4), current: m(0.5) });
    assert_eq!(action, Action::Learn { rewritten: false, improved: false, distrust: false });
    let (at, action) = a.step(at, &Event::Learned { measured: false, result: m(0.6), least: m(0.5) });
    assert_eq!(
        action,
        Action::Commit { rewritten: false, improved: false, mitigation: Mitigation::Unneeded, stay: false }
    );
    assert_eq!(at, Stage::Done);
}

#[test]
fn full_step_asks_every_backend() {
    let mut a = agent().with_knowledge().with_memory(3).with_substrate_improver();
    let (at, action) = a.begin_step();
    assert_eq!(action, Action::Absorb);
    let (at, action) = a.step(at, &Event::Absorbed);
    assert_eq!(action, Action::Recall(4));
    let (at, action) = a.step(at, &Event::Recalled { edit_lengths: vec![None, Some(2), Some(3)], length: 2 });
    assert_eq!(action, Action::Seed(vec![1]));
    let (at, action) = a.step(at, &Event::Seeded);
    assert_eq!(action, Action::Revise);
    let (at, action) = a.step(at, &Event::Revised);
    assert_eq!(action, Action::Assess);
    let (at, action) = a.step(at, &assessed(0.9, FailureMode::Wireheading, 0.9));
    assert_eq!(action, Action::Propose { damped: true, realign: false });
    let (at, action) = a.step(at, &Event::Proposed { rewritten: m(0.5), current: m(0.5) });
    assert_eq!(action, Action::Improve { rewritten: true });
    let (at, action) = a.step(at, &Event::Improved { improved: m(0.6), before: m(0.5) });
    assert_eq!(action, Action::Learn { rewritten: true, improved: true, distrust: true });
    let (_, action) = a.step(at, &Event::Learned { measured: true, result: m(0.1), least: m(0.5) });
    assert_eq!(
        action,
        Action::Commit { rewritten: true, improved: true, mitigation: Mitigation::TrustFloor, stay: false }
    );
}

#[test]
fn regressing_step_is_halved_twenty_times_and_stays_put() {
    let mut a = agent();
    let (at, _) = a.begin_step();
    let (at, _) = a.step(at, &Event::Revised);
    let (at, _) = a.step(at, &assessed(0.1, FailureMode::Goodhart, 0.0));
    let (at, _) = a.step(at, &Event::Proposed { rewritten: m(0.5), current: m(0.5) });
    let (mut at, mut action) = a.step(at, &Event::Learned { measured: false, result: m(0.1), least: m(0.5) });
    let mut halvings = 0;
    while action == Action::Halve {
        halvings += 1;
        (at, action) = a.step(at, &Event::Halved { result: m(0.1) });
    }
    assert_eq!(halvings, 20);
    assert_eq!(
        action,
        Action::Commit { rewritten: true, improved: false, mitigation: Mitigation::Unneeded, stay: true }
    );
}

#[test]
fn foreign_events_change_nothing() {
    let mut a = agent();
    let (at, _) = a.begin_step();
    let (same, action) = a.step(at, &assessed(0.9, FailureMode::Goodhart, 0.0));
    assert_eq!(action, Action::Refuse);
    assert_eq!(same, at);
    assert!(a.prev_pre_risk.is_nan());
}
