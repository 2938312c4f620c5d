use rsi::audit::{ct_digest_eq, link_hash, AuditEvent, AuditLog, HashChainLog, GENESIS};
use rsi::json::Json;
use rsi::sha256::{hmac_sha256_hex, sha256};

fn nine(x: f64) -> String {
    format!("{x:.9}")
}

fn ev(t: u64, si: f64) -> AuditEvent {
    AuditEvent {
        t,
        si_global: nine(si),
        si_safe: nine(si - 0.01),
        risk_global: nine(0.02),
        max_rpn: nine(0.1),
        most_critical: "regression_competence",
        strategy_id: 12345 + t,
        p_eff: nine(0.5),
    }
}

#[test]
fn chain_verifies() {
    let mut log = HashChainLog::new();
    for i in 0..10 {
        log.record(&ev(i, 0.1 * i as f64));
    }
    assert_eq!(log.len(), 10);
    assert!(log.verify());
    assert_eq!(log.events()[0].prev_hash, GENESIS);
    for i in 1..10 {
        assert_eq!(log.events()[i].prev_hash, log.events()[i - 1].hash);
    }
}

#[test]
fn tampering_is_detected() {
    let mut log = HashChainLog::new();
    for i in 0..5 {
        log.record(&ev(i, 0.1 * i as f64));
    }
    assert!(log.verify());
    log.events[2].payload.push_str("FALSIFIE");
    assert!(!log.verify());
}

#[test]
fn deterministic_head_across_runs() {
    let build = || {
        let mut log = HashChainLog::new();
        for i in 0..8 {
            log.record(&ev(i, 0.1 * i as f64));
        }
        log.head()
    };
    assert_eq!(build(), build());
}

#[test]
fn ccos_export_parses() {
    let mut log = HashChainLog::new();
    log.record(&ev(0, 0.1));
    let json = log.to_ccos_json();
    let parsed = Json::parse(&json).unwrap();
    assert_eq!(parsed.get("events").unwrap().as_array().unwrap().len(), 1);
}

#[test]
fn signed_chain_requires_key() {
    let mut log = HashChainLog::with_key(b"secret-key");
    for i in 0..6 {
        log.record(&ev(i, 0.1 * i as f64));
    }
    assert!(log.verify(), "bonne clé → chaîne signée valide");

    let mut wrong = HashChainLog::with_key(b"autre-cle");
    wrong.events = log.events.clone();
    assert!(!wrong.verify(), "vérification avec la mauvaise clé");

    let mut forged_events = log.events.clone();
    for e in &mut forged_events {
        e.hash = link_hash(&e.prev_hash, e.sequence_number, &e.event_type, &e.payload);
    }
    let mut forged = HashChainLog::with_key(b"secret-key");
    forged.events = forged_events;
    assert!(!forged.verify(), "réécriture sans clé détectée par le signataire");

    let mut plain = HashChainLog::new();
    plain.events = log.events.clone();
    assert!(!plain.verify());
    let mut plain2 = HashChainLog::new();
    for i in 0..3 {
        plain2.record(&ev(i, 0.1 * i as f64));
    }
    assert!(plain2.verify());
}

#[test]
fn payload_has_its_exact_text() {
    assert_eq!(
        ev(3, 0.25).payload(),
        "t=3;si=0.250000000;safe=0.240000000;risk=0.020000000;rpn=0.100000000;crit=regression_competence;strat=12348;peff=0.500000000"
    );
}

#[test]
fn anchor_detects_a_cut_journal() {
    let mut log = HashChainLog::new();
    for i in 0..4 {
        log.record(&ev(i, 0.1));
    }
    let (head, len) = log.anchor();
    assert!(log.verify_against(&head, len));
    log.events.pop();
    assert!(log.verify());
    assert!(!log.verify_against(&head, len));
}

#[test]
fn replay_gives_the_asked_range() {
    let mut log = HashChainLog::new();
    for i in 0..5 {
        log.record(&ev(i, 0.1));
    }
    assert_eq!(log.replay(1, Some(3)).len(), 2);
    assert_eq!(log.replay(2, None).len(), 3);
}

#[test]
fn long_keys_sign_as_their_digest() {
    let long = [7u8; 100];
    let mut log = HashChainLog::with_key(&long);
    let mut same = HashChainLog::with_key(&sha256(&long));
    let mut other = HashChainLog::with_key(&long[..64]);
    let head = log.record(&ev(0, 0.1));
    assert_eq!(same.record(&ev(0, 0.1)), head);
    assert_ne!(other.record(&ev(0, 0.1)), head);
    let e = &log.events()[0];
    let material = format!("{}|{}|{}|{}", e.prev_hash, e.sequence_number, e.event_type, e.payload);
    assert_eq!(hmac_sha256_hex(&long, material.as_bytes()), head);
}

#[test]
fn digests_compare_by_content() {
    assert!(ct_digest_eq("abc", "abc"));
    assert!(!ct_digest_eq("abc", "abd"));
    assert!(!ct_digest_eq("abc", "ab"));
}
