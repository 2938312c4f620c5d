//! Immutable cumulative engineering candidate states.
//!
//! A state is a complete file tree. Its identity is the digest of the tree alone,
//! whatever parent and whatever sequence of patch sets led to it; the lineage is
//! kept beside it.

use vstd::prelude::*;

use crate::file_tree::{byte_count, counted, gathered, is_skipped, law_files_and_bytes_add_up, law_trees_are_listed, lemma_gathered_count, listing_of, tree_identity, FileTree, TreeFile};
use crate::patchset::{law_other_files_stay, targets, PatchSet, PatchSetError};
use crate::text::{decimal, decimal_text};

verus! {

/// Why a candidate state could not be made.
///
/// The parameter is the type of the texts it carries.
#[derive(Debug, Clone, PartialEq, Eq)]
pub enum CandidateStateError<S = String> {
    InvalidPolicy(S),
    StorageLimitExceeded { kind: &'static str, actual: u64, limit: u64 },
    PatchSet(PatchSetError<S>),
    Io(S),
}

/// A failure over mathematical texts.
pub type CandidateFailure = CandidateStateError<Seq<char>>;

impl CandidateStateError<String> {
    pub open spec fn view(&self) -> CandidateFailure {
        match self {
            CandidateStateError::InvalidPolicy(value) => CandidateStateError::InvalidPolicy(value@),
            CandidateStateError::StorageLimitExceeded { kind, actual, limit } => CandidateStateError::StorageLimitExceeded { kind: *kind, actual: *actual, limit: *limit },
            CandidateStateError::PatchSet(value) => CandidateStateError::PatchSet(value@),
            CandidateStateError::Io(value) => CandidateStateError::Io(value@),
        }
    }

    /// The message shown to a user.
    pub fn to_string(&self) -> (r: String)
        ensures
            r@ == self@.message(),
    {
        match self {
            CandidateStateError::InvalidPolicy(value) => {
                let mut m = "invalid candidate storage policy: ".to_owned();
                m.append(value.as_str());
                m
            },
            CandidateStateError::StorageLimitExceeded { kind, actual, limit } => {
                let mut m = "candidate storage ".to_owned();
                m.append(*kind);
                m.append(" limit exceeded: ");
                m.append(decimal_text(*actual).as_str());
                m.append(" > ");
                m.append(decimal_text(*limit).as_str());
                m
            },
            CandidateStateError::PatchSet(value) => {
                let mut m = "candidate PatchSet error: ".to_owned();
                m.append(value.to_string().as_str());
                m
            },
            CandidateStateError::Io(value) => {
                let mut m = "candidate state I/O error: ".to_owned();
                m.append(value.as_str());
                m
            },
        }
    }
}

impl CandidateStateError<Seq<char>> {
    pub open spec fn message(&self) -> Seq<char> {
        match self {
            CandidateStateError::InvalidPolicy(value) => "invalid candidate storage policy: "@ + *value,
            CandidateStateError::StorageLimitExceeded { kind, actual, limit } => "candidate storage "@ + kind@ + " limit exceeded: "@ + decimal(*actual as nat) + " > "@ + decimal(*limit as nat),
            CandidateStateError::PatchSet(value) => "candidate PatchSet error: "@ + value.message(),
            CandidateStateError::Io(value) => "candidate state I/O error: "@ + *value,
        }
    }
}

/// The outcome with its failure over mathematical texts.
pub open spec fn outcome<T>(r: Result<T, CandidateStateError>) -> Result<T, CandidateFailure> {
    match r {
        Ok(t) => Ok(t),
        Err(e) => Err(e@),
    }
}

/// Hard storage limits applied to every materialized candidate tree.
#[derive(Debug, Clone, Copy, PartialEq, Eq, Structural)]
pub struct CandidateStoragePolicy {
    pub max_files: u64,
    pub max_bytes: u64,
}

/// The size of a tree.
#[derive(Debug, Clone, Copy, PartialEq, Eq, Structural)]
pub struct TreeUsage {
    pub files: u64,
    pub bytes: u64,
}

pub open spec fn check_policy(max_files: u64, max_bytes: u64) -> Result<(), CandidateFailure> {
    if max_files == 0 {
        Err(CandidateStateError::InvalidPolicy("max_files must be greater than zero"@))
    } else if max_bytes == 0 {
        Err(CandidateStateError::InvalidPolicy("max_bytes must be greater than zero"@))
    } else {
        Ok(())
    }
}

/// The number of files of a tree.
pub open spec fn files_of(tree: Map<Seq<char>, Seq<u8>>) -> nat {
    listing_of(tree).len()
}

/// The number of bytes of a tree.
pub open spec fn bytes_of(tree: Map<Seq<char>, Seq<u8>>) -> nat {
    byte_count(listing_of(tree))
}

/// Whether a tree is within the limits, and why not.
pub open spec fn check_storage(policy: CandidateStoragePolicy, tree: Map<Seq<char>, Seq<u8>>) -> Result<
    (),
    CandidateFailure,
> {
    if bytes_of(tree) > u64::MAX {
        Err(CandidateStateError::Io("byte-count overflow while measuring tree"@))
    } else if files_of(tree) > policy.max_files {
        Err(
            CandidateStateError::StorageLimitExceeded {
                kind: "files",
                actual: files_of(tree) as u64,
                limit: policy.max_files,
            },
        )
    } else if bytes_of(tree) > policy.max_bytes {
        Err(
            CandidateStateError::StorageLimitExceeded {
                kind: "bytes",
                actual: bytes_of(tree) as u64,
                limit: policy.max_bytes,
            },
        )
    } else {
        Ok(())
    }
}

/// The usage is the size of the tree.
pub open spec fn measures(usage: TreeUsage, tree: Map<Seq<char>, Seq<u8>>) -> bool {
    usage.files == files_of(tree) && usage.bytes == bytes_of(tree)
}

fn measure_tree(tree: &FileTree) -> (r: Result<TreeUsage, CandidateStateError>)
    ensures
        match r {
            Ok(usage) => measures(usage, tree@),
            Err(e) => bytes_of(tree@) > u64::MAX && e@ == CandidateStateError::<Seq<char>>::Io(
                "byte-count overflow while measuring tree"@,
            ),
        },
{
    let ghost listing = listing_of(tree@);
    let n: usize = tree.len();
    let mut bytes: u64 = 0;
    let mut i: usize = 0;
    assert(listing.take(0).len() == 0);
    while i < n
        invariant
            i <= n,
            n == listing.len(),
            listing == listing_of(tree@),
            bytes == byte_count(listing.take(i as int)),
        decreases n - i,
    {
        proof {
            assert(listing.take(i + 1).drop_last() =~= listing.take(i as int));
            assert(listing.take(i + 1).last() == listing[i as int]);
        }
        let length = tree.contents_at(i).len() as u64;
        match bytes.checked_add(length) {
            Some(total) => {
                bytes = total;
            },
            None => {
                proof {
                    lemma_byte_count_grows(listing, i + 1);
                }
                return Err(CandidateStateError::Io("byte-count overflow while measuring tree".to_owned()));
            },
        }
        i += 1;
    }
    assert(listing.take(i as int) =~= listing);
    Ok(TreeUsage { files: n as u64, bytes })
}

proof fn lemma_byte_count_grows(listing: Seq<(Seq<char>, Seq<u8>)>, i: int)
    requires
        0 <= i <= listing.len(),
    ensures
        byte_count(listing.take(i)) <= byte_count(listing),
    decreases listing.len() - i,
{
    if i < listing.len() {
        assert(listing.take(i + 1).drop_last() =~= listing.take(i));
        lemma_byte_count_grows(listing, i + 1);
    } else {
        assert(listing.take(i) =~= listing);
    }
}

impl CandidateStoragePolicy {
    pub fn new(max_files: u64, max_bytes: u64) -> (r: Result<Self, CandidateStateError>)
        ensures
            match r {
                Ok(p) => check_policy(max_files, max_bytes) is Ok && p.max_files == max_files && p.max_bytes == max_bytes,
                Err(e) => check_policy(max_files, max_bytes) == Err::<(), CandidateFailure>(e@),
            },
    {
        if max_files == 0 {
            return Err(CandidateStateError::InvalidPolicy("max_files must be greater than zero".to_owned()));
        }
        if max_bytes == 0 {
            return Err(CandidateStateError::InvalidPolicy("max_bytes must be greater than zero".to_owned()));
        }
        Ok(CandidateStoragePolicy { max_files, max_bytes })
    }

    /// The size of a tree within the limits.
    pub fn enforce(&self, tree: &FileTree) -> (r: Result<TreeUsage, CandidateStateError>)
        ensures
            match r {
                Ok(usage) => check_storage(*self, tree@) is Ok && measures(usage, tree@),
                Err(e) => check_storage(*self, tree@) == Err::<(), CandidateFailure>(e@),
            },
    {
        let usage = measure_tree(tree)?;
        if usage.files > self.max_files {
            return Err(
                CandidateStateError::StorageLimitExceeded { kind: "files", actual: usage.files, limit: self.max_files },
            );
        }
        if usage.bytes > self.max_bytes {
            return Err(
                CandidateStateError::StorageLimitExceeded { kind: "bytes", actual: usage.bytes, limit: self.max_bytes },
            );
        }
        Ok(usage)
    }
}

/// One complete candidate tree with its identity and its lineage.
#[derive(Debug)]
pub struct CandidateState {
    tree: FileTree,
    state_id: String,
    parent_state_id: Option<String>,
    patch_set_id: Option<String>,
    usage: TreeUsage,
    policy: CandidateStoragePolicy,
}

/// The text of an optional identity.
pub open spec fn id_text(id: Option<String>) -> Option<Seq<char>> {
    match id {
        Some(id) => Some(id@),
        None => None,
    }
}

/// The files that count after a patch set that applies.
pub open spec fn child_files(tree: Map<Seq<char>, Seq<u8>>, patch_set: PatchSet) -> Map<Seq<char>, Seq<u8>> {
    counted(patch_set.effect(tree)->Ok_0)
}

/// Whether a patch set leads from a tree to a state, and why not.
pub open spec fn check_child(policy: CandidateStoragePolicy, tree: Map<Seq<char>, Seq<u8>>, patch_set: PatchSet) -> Result<
    (),
    CandidateFailure,
> {
    match patch_set.effect(tree) {
        Err(e) => Err(CandidateStateError::PatchSet(e)),
        Ok(next) => check_storage(policy, counted(next)),
    }
}

impl CandidateState {
    #[verifier::type_invariant]
    spec fn is_sound(&self) -> bool {
        &&& self.state_id@ == tree_identity(self.tree@)
        &&& measures(self.usage, self.tree@)
        &&& check_storage(self.policy, self.tree@) is Ok
    }

    /// The files of the state.
    pub closed spec fn files(&self) -> Map<Seq<char>, Seq<u8>> {
        self.tree@
    }

    /// The identity of the parent, unless the state is a baseline.
    pub closed spec fn parent(&self) -> Option<Seq<char>> {
        id_text(self.parent_state_id)
    }

    /// The identity of the patch set that led here, unless the state is a baseline.
    pub closed spec fn patch(&self) -> Option<Seq<char>> {
        id_text(self.patch_set_id)
    }

    /// The limits that hold for the state and its descendants.
    pub closed spec fn limits(&self) -> CandidateStoragePolicy {
        self.policy
    }

    /// The baseline state of the given files.
    pub fn baseline(files: Vec<TreeFile>, policy: CandidateStoragePolicy) -> (r: Result<Self, CandidateStateError>)
        ensures
            match r {
                Ok(s) => {
                    &&& check_storage(policy, gathered(files@)) is Ok
                    &&& s.files() == gathered(files@)
                    &&& s.files() == counted(s.files())
                    &&& s.parent() is None
                    &&& s.patch() is None
                    &&& s.limits() == policy
                },
                Err(e) => check_storage(policy, gathered(files@)) == Err::<(), CandidateFailure>(e@),
            },
    {
        proof {
            lemma_gathered_count(files@);
        }
        let tree = FileTree::gather(files);
        let usage = policy.enforce(&tree)?;
        let state_id = tree.identity();
        Ok(CandidateState { tree, state_id, parent_state_id: None, patch_set_id: None, usage, policy })
    }

    /// The state that a patch set makes of this one, which stays as it is. Files that the
    /// patch set makes under a directory to leave out do not count.
    pub fn child(&self, patch_set: &PatchSet) -> (r: Result<Self, CandidateStateError>)
        ensures
            match r {
                Ok(s) => {
                    &&& check_child(self.limits(), self.files(), *patch_set) is Ok
                    &&& s.files() == child_files(self.files(), *patch_set)
                    &&& s.files() == counted(s.files())
                    &&& s.parent() == Some(tree_identity(self.files()))
                    &&& s.patch() == Some(patch_set.digest())
                    &&& s.limits() == self.limits()
                },
                Err(e) => check_child(self.limits(), self.files(), *patch_set) == Err::<(), CandidateFailure>(e@),
            },
    {
        proof {
            use_type_invariant(self);
        }
        let patch_set_id = match patch_set.identity() {
            Ok(id) => id,
            Err(e) => {
                return Err(CandidateStateError::PatchSet(e));
            },
        };
        let tree = match patch_set.materialize(&self.tree) {
            Ok(patched) => patched.without_skipped(),
            Err(e) => {
                return Err(CandidateStateError::PatchSet(e));
            },
        };
        assert(tree@ =~= counted(tree@));
        let usage = self.policy.enforce(&tree)?;
        let state_id = tree.identity();
        Ok(
            CandidateState {
                tree,
                state_id,
                parent_state_id: Some(self.state_id.clone()),
                patch_set_id: Some(patch_set_id),
                usage,
                policy: self.policy,
            },
        )
    }

    /// The tree of the state.
    pub fn root(&self) -> (r: &FileTree)
        ensures
            r@ == self.files(),
    {
        &self.tree
    }

    pub fn state_id(&self) -> (r: &str)
        ensures
            r@ == tree_identity(self.files()),
    {
        proof {
            use_type_invariant(self);
        }
        self.state_id.as_str()
    }

    pub fn parent_state_id(&self) -> (r: Option<&str>)
        ensures
            match r {
                Some(id) => self.parent() == Some(id@),
                None => self.parent() is None,
            },
    {
        match &self.parent_state_id {
            Some(id) => Some(id.as_str()),
            None => None,
        }
    }

    pub fn patch_set_id(&self) -> (r: Option<&str>)
        ensures
            match r {
                Some(id) => self.patch() == Some(id@),
                None => self.patch() is None,
            },
    {
        match &self.patch_set_id {
            Some(id) => Some(id.as_str()),
            None => None,
        }
    }

    pub fn usage(&self) -> (r: TreeUsage)
        ensures
            measures(r, self.files()),
            r.files <= self.limits().max_files,
            r.bytes <= self.limits().max_bytes,
    {
        proof {
            use_type_invariant(self);
        }
        self.usage
    }

    pub fn policy(&self) -> (r: CandidateStoragePolicy)
        ensures
            r == self.limits(),
    {
        self.policy
    }
}

// ---------------------------------------------------------------------------
// Laws
// ---------------------------------------------------------------------------

/// A grandchild holds the changes of both patch sets: where the second has no
/// operation, it has the file that the first left, and where neither has one, the file
/// of the start.
pub proof fn law_grandchild_keeps_changes(
    first: PatchSet,
    second: PatchSet,
    start: Map<Seq<char>, Seq<u8>>,
    middle: Map<Seq<char>, Seq<u8>>,
    end: Map<Seq<char>, Seq<u8>>,
    path: Seq<char>,
)
    requires
        start == counted(start),
        first.effect(start) is Ok,
        middle == child_files(start, first),
        second.effect(middle) is Ok,
        end == child_files(middle, second),
        !targets(second.operations@).contains(path),
    ensures
        end.dom().contains(path) == middle.dom().contains(path),
        middle.dom().contains(path) ==> end[path] == middle[path],
        !targets(first.operations@).contains(path) ==> end.dom().contains(path) == start.dom().contains(path) && (
        start.dom().contains(path) ==> end[path] == start[path]),
{
    law_other_files_stay(second.operations@, middle, second.effect(middle)->Ok_0, path);
    if !targets(first.operations@).contains(path) {
        law_other_files_stay(first.operations@, start, first.effect(start)->Ok_0, path);
        assert(start.dom().contains(path) == counted(start).dom().contains(path));
    }
}

/// A file that a patch set makes under a directory to leave out is no part of the state.
pub proof fn law_skipped_files_do_not_count(tree: Map<Seq<char>, Seq<u8>>, patch_set: PatchSet, path: Seq<char>)
    requires
        patch_set.effect(tree) is Ok,
        is_skipped(path),
    ensures
        !child_files(tree, patch_set).dom().contains(path),
        counted(child_files(tree, patch_set)) == child_files(tree, patch_set),
{
    assert(counted(child_files(tree, patch_set)) =~= child_files(tree, patch_set));
}

/// A tree is stored exactly where it has at most so many files of at most so many bytes, and
/// what is refused is told with what was measured.
pub proof fn law_storage_is_bounded(policy: CandidateStoragePolicy, tree: Map<Seq<char>, Seq<u8>>)
    requires
        tree.dom().finite(),
    ensures
        check_storage(policy, tree) is Ok <==> tree.dom().len() <= policy.max_files && bytes_of(tree) <= policy.max_bytes,
        files_of(tree) == tree.dom().len(),
        bytes_of(tree) <= u64::MAX && tree.dom().len() > policy.max_files ==> (check_storage(policy, tree) matches Err(
            CandidateStateError::StorageLimitExceeded { limit, .. },
        ) && limit == policy.max_files),
{
    law_trees_are_listed(tree);
}

/// The bytes of a tree are those of its files together.
pub proof fn law_bytes_are_those_of_the_files(tree: Map<Seq<char>, Seq<u8>>, path: Seq<char>, contents: Seq<u8>)
    requires
        tree.dom().finite(),
        !tree.dom().contains(path),
    ensures
        bytes_of(tree.insert(path, contents)) == bytes_of(tree) + contents.len(),
        files_of(tree.insert(path, contents)) == files_of(tree) + 1,
        bytes_of(Map::<Seq<char>, Seq<u8>>::empty()) == 0,
        files_of(Map::<Seq<char>, Seq<u8>>::empty()) == 0,
{
    law_files_and_bytes_add_up(tree, path, contents);
}

/// A policy of storage admits some files and some bytes.
pub proof fn law_storage_policies(max_files: u64, max_bytes: u64)
    ensures
        check_policy(max_files, max_bytes) is Ok <==> max_files >= 1 && max_bytes >= 1,
{
}

} // verus!
