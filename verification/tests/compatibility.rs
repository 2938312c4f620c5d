use rsi::compatibility::{CompatibilityError, CompatibilitySet, RepositoryRevision};

fn rev(repository: &str, hex: char, role: &str) -> RepositoryRevision {
    RepositoryRevision::new(repository, hex.to_string().repeat(40), role).unwrap()
}

#[test]
fn canonical_order_is_independent_of_input_order() {
    let a = CompatibilitySet::new(
        vec![
            rev("Memorithm/scirust", 'b', "scirust"),
            rev("Memorithm/RSI", 'a', "rsi"),
        ],
        "rustc 1.89.0",
        vec!["wgpu".into(), "flat-attention".into(), "wgpu".into()],
    )
    .unwrap();
    let b = CompatibilitySet::new(
        vec![
            rev("Memorithm/RSI", 'a', "rsi"),
            rev("Memorithm/scirust", 'b', "scirust"),
        ],
        "rustc 1.89.0",
        vec!["flat-attention".into(), "wgpu".into()],
    )
    .unwrap();

    assert_eq!(a, b);
    assert_eq!(a.to_json_string(), b.to_json_string());
    assert_eq!(a.fingerprint(), b.fingerprint());
    assert_eq!(a.feature_contract(), &["flat-attention", "wgpu"]);
}

#[test]
fn json_round_trip_is_byte_stable() {
    let set = CompatibilitySet::new(
        vec![
            rev("Memorithm/FLAT-ATTENTION", 'c', "flat"),
            rev("Memorithm/RSI", 'a', "rsi"),
            rev("Memorithm/scirust", 'b', "scirust"),
        ],
        "nightly-2026-07-02",
        vec!["flat-attention".into(), "wgpu".into()],
    )
    .unwrap();

    let encoded = set.to_json_string();
    let decoded = CompatibilitySet::from_json_str(&encoded).unwrap();
    assert_eq!(decoded, set);
    assert_eq!(decoded.to_json_string(), encoded);
}

#[test]
fn moving_branch_name_is_rejected_as_revision() {
    let error = RepositoryRevision::new("Memorithm/scirust", "master", "scirust").unwrap_err();
    assert!(matches!(error, CompatibilityError::InvalidRevision(_)));
}

#[test]
fn duplicate_repository_role_is_rejected() {
    let error = CompatibilitySet::new(
        vec![
            rev("Memorithm/scirust", 'a', "scirust"),
            rev("Memorithm/scirust", 'b', "scirust"),
        ],
        "rustc stable",
        vec![],
    )
    .unwrap_err();
    assert!(matches!(
        error,
        CompatibilityError::DuplicateRepositoryRole { .. }
    ));
}

#[test]
fn roles_are_distinct_whatever_lies_between() {
    let error = CompatibilitySet::new(
        vec![rev("o/r", 'a', "x"), rev("o/r", 'b', "y"), rev("o/r", 'c', "x")],
        "rustc stable",
        vec![],
    )
    .unwrap_err();
    match error {
        CompatibilityError::DuplicateRepositoryRole { repository, role } => {
            assert_eq!((repository.as_str(), role.as_str()), ("o/r", "x"));
        }
        other => panic!("{other:?}"),
    }
    assert!(CompatibilitySet::new(
        vec![rev("o/r", 'a', "x"), rev("o/r", 'a', "y"), rev("o/s", 'a', "x")],
        "rustc stable",
        vec![],
    )
    .is_ok());
}

#[test]
fn invalid_repository_is_rejected() {
    let error = RepositoryRevision::new("scirust", "a".repeat(40), "scirust").unwrap_err();
    assert!(matches!(error, CompatibilityError::InvalidRepository(_)));
}

#[test]
fn uppercase_revision_is_normalized() {
    let revision = RepositoryRevision::new(
        "Memorithm/RSI",
        "ABCDEF0123456789ABCDEF0123456789ABCDEF01",
        "rsi",
    )
    .unwrap();
    assert_eq!(revision.revision, "abcdef0123456789abcdef0123456789abcdef01");
}

#[test]
fn set_has_exact_canonical_text() {
    let set = CompatibilitySet::new(
        vec![rev("Memorithm/RSI", 'a', "rsi")],
        "rustc 1.89.0",
        vec!["wgpu".into()],
    )
    .unwrap();
    let expected = format!(
        "{{\"feature_contract\":[\"wgpu\"],\"revisions\":[{{\"repository\":\"Memorithm/RSI\",\"revision\":\"{}\",\"role\":\"rsi\"}}],\"schema\":1,\"toolchain\":\"rustc 1.89.0\"}}",
        "a".repeat(40)
    );
    assert_eq!(set.to_json_string(), expected);
    assert_eq!(set.fingerprint().len(), 64);
}

#[test]
fn unreadable_sets_are_refused() {
    assert!(matches!(
        CompatibilitySet::from_json_str("pas du json"),
        Err(CompatibilityError::InvalidJson(_))
    ));
    assert!(matches!(
        CompatibilitySet::from_json_str("{}"),
        Err(CompatibilityError::MissingField(_))
    ));
    assert!(matches!(
        CompatibilitySet::from_json_str("{\"schema\":2,\"toolchain\":\"x\",\"revisions\":[],\"feature_contract\":[]}"),
        Err(CompatibilityError::UnsupportedSchema(2))
    ));
    assert!(matches!(
        RepositoryRevision::new("", "a".repeat(40), "rsi"),
        Err(CompatibilityError::EmptyField(_) | CompatibilityError::InvalidRepository(_))
    ));
    assert!(matches!(
        CompatibilitySet::new(vec![rev("Memorithm/RSI", 'a', "rsi")], "a\nb", vec![]),
        Err(CompatibilityError::InvalidValue { .. })
    ));
}
