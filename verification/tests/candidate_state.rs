use rsi::candidate_state::{CandidateState, CandidateStateError, CandidateStoragePolicy};
use rsi::file_tree::{FileTree, TreeFile};
use rsi::patchset::{FileOperation, PatchSet, PatchSetError};
use rsi::sha256::sha256_hex;

fn file(path: &str, contents: &str) -> TreeFile {
    TreeFile { path: path.to_string(), contents: contents.as_bytes().to_vec() }
}

fn fixture() -> Vec<TreeFile> {
    vec![file("src/a.rs", "a=0\n"), file("src/b.rs", "b=0\n")]
}

fn policy() -> CandidateStoragePolicy {
    CandidateStoragePolicy::new(32, 4096).unwrap()
}

fn read(tree: &FileTree, path: &str) -> String {
    String::from_utf8(tree.get(path).unwrap().to_vec()).unwrap()
}

#[test]
fn baseline_identity_is_content_deterministic() {
    let first = CandidateState::baseline(fixture(), policy()).unwrap();
    let second = CandidateState::baseline(fixture(), policy()).unwrap();
    assert_eq!(first.state_id(), second.state_id());
    assert_eq!(first.parent_state_id(), None);
    assert_eq!(first.patch_set_id(), None);
}

#[test]
fn grandchild_materializes_all_accepted_ancestor_changes() {
    let baseline = CandidateState::baseline(fixture(), policy()).unwrap();
    let patch_a = PatchSet::new(vec![FileOperation::modify_exact("src/a.rs", "a=0", "a=1")]).unwrap();
    let patch_b = PatchSet::new(vec![FileOperation::modify_exact("src/b.rs", "b=0", "b=1")]).unwrap();

    let after_a = baseline.child(&patch_a).unwrap();
    let after_a_b = after_a.child(&patch_b).unwrap();
    let baseline_b = baseline.child(&patch_b).unwrap();

    assert_ne!(after_a_b.state_id(), baseline_b.state_id());
    assert_eq!(read(after_a_b.root(), "src/a.rs"), "a=1\n");
    assert_eq!(read(after_a_b.root(), "src/b.rs"), "b=1\n");
    assert_eq!(after_a_b.parent_state_id(), Some(after_a.state_id()));
    assert_eq!(after_a_b.patch_set_id(), Some(patch_b.identity().unwrap().as_str()));
}

#[test]
fn rejected_child_never_mutates_parent() {
    let baseline = CandidateState::baseline(fixture(), policy()).unwrap();
    let invalid_for_parent = PatchSet::new(vec![FileOperation::modify_exact(
        "src/a.rs",
        "missing",
        "replacement",
    )])
    .unwrap();
    assert!(baseline.child(&invalid_for_parent).is_err());
    assert_eq!(read(baseline.root(), "src/a.rs"), "a=0\n");
}

#[test]
fn storage_policy_rejects_oversized_materialized_tree() {
    let too_small = CandidateStoragePolicy::new(1, 4096).unwrap();
    assert!(matches!(
        CandidateState::baseline(fixture(), too_small),
        Err(CandidateStateError::StorageLimitExceeded { kind: "files", .. })
    ));
}

#[test]
fn byte_limit_is_enforced() {
    let too_small = CandidateStoragePolicy::new(32, 7).unwrap();
    assert!(matches!(
        CandidateState::baseline(fixture(), too_small),
        Err(CandidateStateError::StorageLimitExceeded { kind: "bytes", actual: 8, limit: 7 })
    ));
    assert!(matches!(
        CandidateStoragePolicy::new(0, 1),
        Err(CandidateStateError::InvalidPolicy(_))
    ));
}

#[test]
fn build_outputs_are_not_part_of_a_state() {
    let mut files = fixture();
    files.push(file("target/debug/x", "junk"));
    let with_junk = CandidateState::baseline(files, policy()).unwrap();
    let without = CandidateState::baseline(fixture(), policy()).unwrap();
    assert_eq!(with_junk.state_id(), without.state_id());
    assert_eq!(with_junk.usage().files, 2);
    assert_eq!(with_junk.usage().bytes, 8);
}

#[test]
fn patch_sets_create_and_delete_exactly() {
    let base = FileTree::gather(fixture());
    let patch = PatchSet::new(vec![
        FileOperation::create("src/c.rs", "c"),
        FileOperation::delete("src/a.rs", sha256_hex(b"a=0\n")),
    ])
    .unwrap();
    let tree = patch.materialize(&base).unwrap();
    assert_eq!(tree.len(), 2);
    assert_eq!(read(&tree, "src/c.rs"), "c");
    assert!(tree.get("src/a.rs").is_none());
    assert_eq!(base.len(), 2);
}

#[test]
fn patch_set_errors_name_their_cause() {
    let base = FileTree::gather(fixture());
    assert!(matches!(PatchSet::new(vec![]), Err(PatchSetError::Empty)));
    assert!(matches!(
        PatchSet::new(vec![FileOperation::create("../x", "x")]),
        Err(PatchSetError::InvalidPath(_))
    ));
    assert!(matches!(
        PatchSet::new(vec![FileOperation::modify_exact("a", "", "x")]),
        Err(PatchSetError::EmptyExpectedText(_))
    ));
    assert!(matches!(
        PatchSet::new(vec![FileOperation::delete("a", "xyz")]),
        Err(PatchSetError::InvalidDigest { .. })
    ));
    assert!(matches!(
        PatchSet::new(vec![FileOperation::create("a", "x"), FileOperation::create("a", "y")]),
        Err(PatchSetError::DuplicatePath(_))
    ));
    let apply = |op: FileOperation| PatchSet::new(vec![op]).unwrap().materialize(&base);
    assert!(matches!(
        apply(FileOperation::create("src/a.rs", "x")),
        Err(PatchSetError::FileExists(_))
    ));
    assert!(matches!(
        apply(FileOperation::modify_exact("src/z.rs", "x", "y")),
        Err(PatchSetError::FileMissing(_))
    ));
    assert!(matches!(
        apply(FileOperation::modify_exact("src/a.rs", "zzz", "y")),
        Err(PatchSetError::TextNotFound(_))
    ));
    assert!(matches!(
        apply(FileOperation::delete("src/a.rs", sha256_hex(b"other"))),
        Err(PatchSetError::ContentMismatch { .. })
    ));
    let twice = FileTree::gather(vec![file("t", "xx")]);
    assert!(matches!(
        PatchSet::new(vec![FileOperation::modify_exact("t", "x", "y")]).unwrap().materialize(&twice),
        Err(PatchSetError::TextNotUnique(_))
    ));
}

#[test]
fn files_patched_under_build_directories_do_not_count() {
    let base = CandidateState::baseline(fixture(), policy()).unwrap();
    let patch = PatchSet::new(vec![
        FileOperation::create("src/c.rs", "c"),
        FileOperation::create("target/out.txt", "junk"),
    ])
    .unwrap();
    let plain = PatchSet::new(vec![FileOperation::create("src/c.rs", "c")]).unwrap();
    let child = base.child(&patch).unwrap();
    assert_eq!(child.state_id(), base.child(&plain).unwrap().state_id());
    assert_eq!(child.usage().files, 3);
    assert_eq!(child.usage().bytes, 9);
    assert!(child.root().get("target/out.txt").is_none());
}
