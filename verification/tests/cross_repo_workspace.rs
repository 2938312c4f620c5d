use rsi::candidate_state::CandidateStoragePolicy;
use rsi::compatibility::{CompatibilitySet, RepositoryRevision};
use rsi::cross_repo_workspace::{
    normalize_relative, toml_quote, CargoPatchOverride, Checkout, CrossRepoWorkspace, CrossRepoWorkspaceError,
    CrossRepoWorkspacePolicy, LocalRepositorySource, ReadFault, TrackedEntry, TrackedFile, WorkspaceRequest,
};
use rsi::patchset::{FileOperation, PatchSet};

fn entry(path: &str, contents: String) -> TrackedEntry {
    TrackedEntry { path: Some(path.to_string()), file: TrackedFile::Regular(contents.into_bytes()) }
}

fn revision(hex: char) -> String {
    hex.to_string().repeat(40)
}

fn checkout(name: &str, package: &str, revision: &str) -> Checkout {
    Checkout {
        head: Ok(format!("{revision}\n")),
        clean: Ok(()),
        entries: Ok(vec![
            entry("Cargo.toml", format!("[package]\nname = \"{package}\"\nversion = \"0.1.0\"\n")),
            entry("src/lib.rs", format!("pub const NAME: &str = \"{name}\";\n")),
        ]),
    }
}

fn policy() -> CrossRepoWorkspacePolicy {
    CrossRepoWorkspacePolicy::new(4, 1_000_000, CandidateStoragePolicy::new(100, 500_000).unwrap()).unwrap()
}

fn control() -> String {
    "/tmp/control".to_string()
}

#[test]
fn materializes_exact_revision_and_ignores_untracked_files() {
    let (a_rev, b_rev) = (revision('a'), revision('b'));
    let set = CompatibilitySet::new(
        vec![
            RepositoryRevision::new("Memorithm/RSI", a_rev.as_str(), "rsi").unwrap(),
            RepositoryRevision::new("Memorithm/scirust", b_rev.as_str(), "scirust").unwrap(),
        ],
        "rustc stable",
        vec![],
    )
    .unwrap();
    let request = WorkspaceRequest::new(
        set,
        vec![
            LocalRepositorySource::new("Memorithm/RSI", "rsi", a_rev.as_str(), "/a").unwrap(),
            LocalRepositorySource::new("Memorithm/scirust", "scirust", b_rev.as_str(), "/b").unwrap(),
        ],
        vec!["rsi".into()],
        vec![],
        policy(),
    )
    .unwrap();
    let workspace = CrossRepoWorkspace::materialize(
        request,
        vec![
            checkout("rsi", "rsi-fixture", &a_rev),
            checkout("scirust", "scirust-fixture", &b_rev),
        ],
        control(),
    )
    .unwrap();
    assert!(workspace.tree_for_role("rsi").unwrap().get("Cargo.toml").is_some());
    assert!(workspace.tree_for_role("scirust").unwrap().get("local-only.bin").is_none());
    assert!(workspace.root_for_role("rsi").unwrap().starts_with("/tmp/control"));
}

fn single(revision: &str, roles: Vec<String>) -> WorkspaceRequest {
    let set = CompatibilitySet::new(
        vec![RepositoryRevision::new("Memorithm/RSI", revision, "rsi").unwrap()],
        "rustc stable",
        vec![],
    )
    .unwrap();
    WorkspaceRequest::new(
        set,
        vec![LocalRepositorySource::new("Memorithm/RSI", "rsi", revision, "/a").unwrap()],
        roles,
        vec![],
        policy(),
    )
    .unwrap()
}

#[test]
fn rejects_revision_mismatch_and_dirty_tracked_sources() {
    let rev = revision('c');
    let set = CompatibilitySet::new(
        vec![RepositoryRevision::new("Memorithm/RSI", rev.as_str(), "rsi").unwrap()],
        "rustc stable",
        vec![],
    )
    .unwrap();
    let mismatch = WorkspaceRequest::new(
        set,
        vec![LocalRepositorySource::new("Memorithm/RSI", "rsi", "a".repeat(40), "/a").unwrap()],
        vec![],
        vec![],
        policy(),
    )
    .err()
    .unwrap();
    assert!(matches!(mismatch, CrossRepoWorkspaceError::RevisionMismatch { .. }));

    let mut changed = checkout("rsi", "rsi-fixture", &rev);
    changed.clean = Err(ReadFault::Git("tracked changes".to_string()));
    let dirty = CrossRepoWorkspace::materialize(single(&rev, vec![]), vec![changed], control()).err().unwrap();
    assert!(matches!(dirty, CrossRepoWorkspaceError::Git(_)));

    let moved = checkout("rsi", "rsi-fixture", &revision('d'));
    let other = CrossRepoWorkspace::materialize(single(&rev, vec![]), vec![moved], control()).err().unwrap();
    assert!(matches!(other, CrossRepoWorkspaceError::RevisionMismatch { .. }));
}

#[test]
fn patch_permission_is_role_scoped_and_result_records_patchset() {
    let rev = revision('e');
    let patch =
        PatchSet::new(vec![FileOperation::modify_exact("src/lib.rs", "rsi", "rsi-patched")]).unwrap();
    let mut denied = CrossRepoWorkspace::materialize(
        single(&rev, vec![]),
        vec![checkout("rsi", "rsi-fixture", &rev)],
        control(),
    )
    .unwrap();
    assert!(matches!(
        denied.apply_patch("rsi", &patch),
        Err(CrossRepoWorkspaceError::PatchRoleNotAllowed(_))
    ));
    let mut allowed = CrossRepoWorkspace::materialize(
        single(&rev, vec!["rsi".into()]),
        vec![checkout("rsi", "rsi-fixture", &rev)],
        control(),
    )
    .unwrap();
    let before = allowed.result().repositories[0].state_id.clone();
    let patch_id = allowed.apply_patch("rsi", &patch).unwrap();
    let result = allowed.result();
    assert_ne!(before, result.repositories[0].state_id);
    assert_eq!(result.repositories[0].base_revision, rev);
    assert_eq!(result.repositories[0].patch_set_ids, vec![patch_id]);
}

#[test]
fn cargo_override_lives_outside_tracked_repository_and_is_recorded() {
    let (consumer_rev, provider_rev) = (revision('1'), revision('2'));
    let set = CompatibilitySet::new(
        vec![
            RepositoryRevision::new("Memorithm/RSI", consumer_rev.as_str(), "consumer").unwrap(),
            RepositoryRevision::new("Memorithm/scirust", provider_rev.as_str(), "provider").unwrap(),
        ],
        "rustc stable",
        vec![],
    )
    .unwrap();
    let rule = CargoPatchOverride::new(
        "consumer",
        "https://github.com/Memorithm/scirust",
        "provider-fixture",
        "provider",
        ".",
    )
    .unwrap();
    let request = WorkspaceRequest::new(
        set,
        vec![
            LocalRepositorySource::new("Memorithm/RSI", "consumer", consumer_rev.as_str(), "/c").unwrap(),
            LocalRepositorySource::new("Memorithm/scirust", "provider", provider_rev.as_str(), "/p").unwrap(),
        ],
        vec!["provider".into()],
        vec![rule],
        policy(),
    )
    .unwrap();
    let workspace = CrossRepoWorkspace::materialize(
        request,
        vec![
            checkout("consumer", "consumer-fixture", &consumer_rev),
            checkout("provider", "provider-fixture", &provider_rev),
        ],
        control(),
    )
    .unwrap();
    let config = workspace.cargo_override_config("consumer").unwrap();
    assert!(!config.path.starts_with(&workspace.root_for_role("consumer").unwrap()));
    assert!(config.text.contains("[patch.\"https://github.com/Memorithm/scirust\"]"));
    assert!(config.text.contains("provider-fixture"));
    assert_eq!(workspace.result().overrides.len(), 1);
}

#[test]
fn paths_are_normalized_or_refused() {
    assert_eq!(normalize_relative("a/./b//c/").unwrap(), "a/b/c");
    assert!(normalize_relative("./a/b").is_err());
    assert!(normalize_relative("").is_err());
    assert!(normalize_relative("../a").is_err());
    assert!(normalize_relative("/a").is_err());
    assert_eq!(toml_quote("a\"b"), "\"a\\\"b\"");
}
