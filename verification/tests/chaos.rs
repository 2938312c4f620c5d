use rsi::chaos::{rehearse, ChaosReport, ScenarioResult};

#[test]
fn all_adversarial_scenarios_are_contained() {
    let report = rehearse();
    assert!(
        report.all_contained(),
        "brèche de sûreté détectée :\n{}",
        report.summary()
    );
    assert_eq!(report.results.len(), 5);
}

#[test]
fn report_flags_a_breach() {
    let mut r = ChaosReport::default();
    r.results.push(ScenarioResult { name: "x", contained: false, detail: "brèche".into() });
    assert!(!r.all_contained());
    assert!(r.summary().contains("BRÈCHE"));
}

#[test]
fn empty_report_is_not_contained() {
    assert!(!ChaosReport::default().all_contained());
}

#[test]
fn rehearsal_tells_what_held() {
    let report = rehearse();
    assert_eq!(
        report.results[1].detail,
        "candidat score=1.0 < réf=100.0 → jamais adopté (best=100.0)"
    );
    assert_eq!(
        report.results[2].detail,
        "gain +0.5 % < seuil 5 % → rejeté (anti-bruit)"
    );
}
