//! Patch sets: exact file operations on a tree.
//!
//! A patch set holds at most one operation for each path, so that the order of its
//! operations has no effect on the files it leaves behind.

use vstd::prelude::*;
use vstd::utf8::encode_utf8;

use crate::autopilot_task_dag::TaskOperation;
use crate::checks::{and_then, check_all, lemma_check_all, lemma_check_step};
use crate::fields::{digest_ok, is_digest, is_relative_path, relative_path_ok};
use crate::file_tree::FileTree;
use crate::json::{array_json, empty_obj, json_array, print, Json, ToJson, Value};
use crate::sha256::{digest_hex, push_bytes, sha256_hex};
use crate::text::{
    law_repeated_text, find_repeated_text, lemma_no_repetition, lemma_repetition_of_tail, lowercase, repeated_text, same_text, texts, to_lowercase, IntoText,
};

verus! {

// ---------------------------------------------------------------------------
// Failures
// ---------------------------------------------------------------------------

/// Why a patch set was refused or could not be applied.
///
/// The parameter is the type of the texts it carries.
#[derive(Debug, Clone, PartialEq, Eq)]
pub enum PatchSetError<S = String> {
    Empty,
    InvalidPath(S),
    EmptyExpectedText(S),
    InvalidDigest { path: S, value: S },
    DuplicatePath(S),
    FileExists(S),
    FileMissing(S),
    TextNotFound(S),
    TextNotUnique(S),
    ContentMismatch { path: S, expected: S, actual: S },
}

/// A failure over mathematical texts.
pub type PatchFailure = PatchSetError<Seq<char>>;

impl PatchSetError<String> {
    pub open spec fn view(&self) -> PatchFailure {
        match self {
            PatchSetError::Empty => PatchSetError::Empty,
            PatchSetError::InvalidPath(value) => PatchSetError::InvalidPath(value@),
            PatchSetError::EmptyExpectedText(value) => PatchSetError::EmptyExpectedText(value@),
            PatchSetError::InvalidDigest { path, value } => PatchSetError::InvalidDigest { path: path@, value: value@ },
            PatchSetError::DuplicatePath(value) => PatchSetError::DuplicatePath(value@),
            PatchSetError::FileExists(value) => PatchSetError::FileExists(value@),
            PatchSetError::FileMissing(value) => PatchSetError::FileMissing(value@),
            PatchSetError::TextNotFound(value) => PatchSetError::TextNotFound(value@),
            PatchSetError::TextNotUnique(value) => PatchSetError::TextNotUnique(value@),
            PatchSetError::ContentMismatch { path, expected, actual } => PatchSetError::ContentMismatch { path: path@, expected: expected@, actual: actual@ },
        }
    }

    /// The message shown to a user.
    pub fn to_string(&self) -> (r: String)
        ensures
            r@ == self@.message(),
    {
        match self {
            PatchSetError::Empty => {
                "PatchSet has no operations".to_owned()
            },
            PatchSetError::InvalidPath(value) => {
                let mut m = "invalid PatchSet path '".to_owned();
                m.append(value.as_str());
                m.append("'");
                m
            },
            PatchSetError::EmptyExpectedText(value) => {
                let mut m = "exact modification of '".to_owned();
                m.append(value.as_str());
                m.append("' expects no text");
                m
            },
            PatchSetError::InvalidDigest { path, value } => {
                let mut m = "invalid SHA-256 for '".to_owned();
                m.append(path.as_str());
                m.append("': '");
                m.append(value.as_str());
                m.append("'");
                m
            },
            PatchSetError::DuplicatePath(value) => {
                let mut m = "duplicate PatchSet path '".to_owned();
                m.append(value.as_str());
                m.append("'");
                m
            },
            PatchSetError::FileExists(value) => {
                let mut m = "file '".to_owned();
                m.append(value.as_str());
                m.append("' already exists");
                m
            },
            PatchSetError::FileMissing(value) => {
                let mut m = "file '".to_owned();
                m.append(value.as_str());
                m.append("' does not exist");
                m
            },
            PatchSetError::TextNotFound(value) => {
                let mut m = "expected text not found in '".to_owned();
                m.append(value.as_str());
                m.append("'");
                m
            },
            PatchSetError::TextNotUnique(value) => {
                let mut m = "expected text occurs more than once in '".to_owned();
                m.append(value.as_str());
                m.append("'");
                m
            },
            PatchSetError::ContentMismatch { path, expected, actual } => {
                let mut m = "file '".to_owned();
                m.append(path.as_str());
                m.append("' changed: expected ");
                m.append(expected.as_str());
                m.append(", actual ");
                m.append(actual.as_str());
                m
            },
        }
    }
}

impl PatchSetError<Seq<char>> {
    pub open spec fn message(&self) -> Seq<char> {
        match self {
            PatchSetError::Empty => "PatchSet has no operations"@,
            PatchSetError::InvalidPath(value) => "invalid PatchSet path '"@ + *value + "'"@,
            PatchSetError::EmptyExpectedText(value) => "exact modification of '"@ + *value + "' expects no text"@,
            PatchSetError::InvalidDigest { path, value } => "invalid SHA-256 for '"@ + *path + "': '"@ + *value + "'"@,
            PatchSetError::DuplicatePath(value) => "duplicate PatchSet path '"@ + *value + "'"@,
            PatchSetError::FileExists(value) => "file '"@ + *value + "' already exists"@,
            PatchSetError::FileMissing(value) => "file '"@ + *value + "' does not exist"@,
            PatchSetError::TextNotFound(value) => "expected text not found in '"@ + *value + "'"@,
            PatchSetError::TextNotUnique(value) => "expected text occurs more than once in '"@ + *value + "'"@,
            PatchSetError::ContentMismatch { path, expected, actual } => "file '"@ + *path + "' changed: expected "@ + *expected + ", actual "@ + *actual,
        }
    }
}

/// The outcome with its failure over mathematical texts.
pub open spec fn outcome<T>(r: Result<T, PatchSetError>) -> Result<T, PatchFailure> {
    match r {
        Ok(t) => Ok(t),
        Err(e) => Err(e@),
    }
}

// ---------------------------------------------------------------------------
// Operations
// ---------------------------------------------------------------------------

/// One operation on one file.
#[derive(Debug, Clone, PartialEq, Eq)]
pub enum FileOperation {
    /// Creates a file that does not exist yet.
    Create { path: String, contents: String },
    /// Replaces the one occurrence of a text.
    ModifyExact { path: String, expected: String, replacement: String },
    /// Removes a file whose contents have the given digest.
    Delete { path: String, sha256: String },
}

impl FileOperation {
    pub open spec fn target(&self) -> Seq<char> {
        match self {
            FileOperation::Create { path, .. } => path@,
            FileOperation::ModifyExact { path, .. } => path@,
            FileOperation::Delete { path, .. } => path@,
        }
    }

    /// The kind of the operation in the terms of a task's edit allowance.
    pub open spec fn operation(&self) -> TaskOperation {
        match self {
            FileOperation::Create { .. } => TaskOperation::Create,
            FileOperation::ModifyExact { .. } => TaskOperation::ModifyExact,
            FileOperation::Delete { .. } => TaskOperation::Delete,
        }
    }

    pub fn create(path: impl IntoText, contents: impl IntoText) -> (r: Self)
        ensures
            r matches FileOperation::Create { path: p, contents: c } && p@ == path.text() && c@ == contents.text(),
    {
        FileOperation::Create { path: path.into_text(), contents: contents.into_text() }
    }

    pub fn modify_exact(path: impl IntoText, expected: impl IntoText, replacement: impl IntoText) -> (r: Self)
        ensures
            r matches FileOperation::ModifyExact { path: p, expected: e, replacement: n } && p@ == path.text() && e@
                == expected.text() && n@ == replacement.text(),
    {
        FileOperation::ModifyExact {
            path: path.into_text(),
            expected: expected.into_text(),
            replacement: replacement.into_text(),
        }
    }

    pub fn delete(path: impl IntoText, sha256: impl IntoText) -> (r: Self)
        ensures
            r matches FileOperation::Delete { path: p, sha256: d } && p@ == path.text() && d@ == sha256.text(),
    {
        FileOperation::Delete { path: path.into_text(), sha256: sha256.into_text() }
    }

    pub fn path(&self) -> (r: &str)
        ensures
            r@ == self.target(),
    {
        match self {
            FileOperation::Create { path, .. } => path.as_str(),
            FileOperation::ModifyExact { path, .. } => path.as_str(),
            FileOperation::Delete { path, .. } => path.as_str(),
        }
    }

    pub fn kind(&self) -> (r: TaskOperation)
        ensures
            r == self.operation(),
    {
        match self {
            FileOperation::Create { .. } => TaskOperation::Create,
            FileOperation::ModifyExact { .. } => TaskOperation::ModifyExact,
            FileOperation::Delete { .. } => TaskOperation::Delete,
        }
    }

    /// Whether the operation is well formed by itself.
    pub open spec fn check(&self) -> Result<(), PatchFailure> {
        if !is_relative_path(self.target()) {
            Err(PatchSetError::InvalidPath(self.target()))
        } else {
            match self {
                FileOperation::Create { .. } => Ok(()),
                FileOperation::ModifyExact { path, expected, .. } => if expected@.len() == 0 {
                    Err(PatchSetError::EmptyExpectedText(path@))
                } else {
                    Ok(())
                },
                FileOperation::Delete { path, sha256 } => if is_digest(sha256@) {
                    Ok(())
                } else {
                    Err(PatchSetError::InvalidDigest { path: path@, value: sha256@ })
                },
            }
        }
    }

    fn validate(&self) -> (r: Result<(), PatchSetError>)
        ensures
            outcome(r) == self.check(),
    {
        if !relative_path_ok(self.path()) {
            return Err(PatchSetError::InvalidPath(self.path().to_owned()));
        }
        match self {
            FileOperation::Create { .. } => Ok(()),
            FileOperation::ModifyExact { path, expected, .. } => {
                if expected.as_str().is_empty() {
                    Err(PatchSetError::EmptyExpectedText(path.clone()))
                } else {
                    Ok(())
                }
            },
            FileOperation::Delete { path, sha256 } => {
                if digest_ok(sha256.as_str()) {
                    Ok(())
                } else {
                    Err(PatchSetError::InvalidDigest { path: path.clone(), value: sha256.clone() })
                }
            },
        }
    }
}

impl ToJson for FileOperation {
    open spec fn json(&self) -> Value {
        match self {
            FileOperation::Create { path, contents } => empty_obj().with("contents"@, Value::Str(contents@)).with(
                "kind"@,
                Value::Str("create"@),
            ).with("path"@, Value::Str(path@)),
            FileOperation::ModifyExact { path, expected, replacement } => empty_obj().with(
                "expected"@,
                Value::Str(expected@),
            ).with("kind"@, Value::Str("modify_exact"@)).with("path"@, Value::Str(path@)).with(
                "replacement"@,
                Value::Str(replacement@),
            ),
            FileOperation::Delete { path, sha256 } => empty_obj().with("kind"@, Value::Str("delete"@)).with(
                "path"@,
                Value::Str(path@),
            ).with("sha256"@, Value::Str(sha256@)),
        }
    }

    fn to_json(&self) -> (r: Json) {
        let mut out = Json::obj();
        match self {
            FileOperation::Create { path, contents } => {
                out.set("contents", Json::Str(contents.clone()));
                out.set("kind", Json::text("create"));
                out.set("path", Json::Str(path.clone()));
            },
            FileOperation::ModifyExact { path, expected, replacement } => {
                out.set("expected", Json::Str(expected.clone()));
                out.set("kind", Json::text("modify_exact"));
                out.set("path", Json::Str(path.clone()));
                out.set("replacement", Json::Str(replacement.clone()));
            },
            FileOperation::Delete { path, sha256 } => {
                out.set("kind", Json::text("delete"));
                out.set("path", Json::Str(path.clone()));
                out.set("sha256", Json::Str(sha256.clone()));
            },
        }
        out
    }
}

// ---------------------------------------------------------------------------
// Patch sets
// ---------------------------------------------------------------------------

/// Operations that belong together.
#[derive(Debug, Clone, PartialEq, Eq)]
pub struct PatchSet {
    pub operations: Vec<FileOperation>,
}

/// The paths that the operations are about.
pub open spec fn targets(operations: Seq<FileOperation>) -> Seq<Seq<char>> {
    operations.map_values(|o: FileOperation| o.target())
}

/// Whether operations make a patch set, and why not.
pub open spec fn check_operations(operations: Seq<FileOperation>) -> Result<(), PatchFailure> {
    if operations.len() == 0 {
        Err(PatchSetError::Empty)
    } else {
        and_then(
            check_all(operations, |o: FileOperation| o.check()),
            match repeated_text(targets(operations)) {
                Some(p) => Err(PatchSetError::DuplicatePath(p)),
                None => Ok(()),
            },
        )
    }
}

fn paths_of(operations: &[FileOperation]) -> (r: Vec<String>)
    ensures
        texts(r@) == targets(operations@),
{
    let mut out: Vec<String> = Vec::new();
    let mut i: usize = 0;
    while i < operations.len()
        invariant
            i <= operations@.len(),
            out@.len() == i,
            forall|j: int| 0 <= j < i ==> (#[trigger] out@[j])@ == operations@[j].target(),
        decreases operations@.len() - i,
    {
        out.push(operations[i].path().to_owned());
        i += 1;
    }
    assert(texts(out@) =~= targets(operations@));
    out
}

impl PatchSet {
    pub fn new(operations: Vec<FileOperation>) -> (r: Result<Self, PatchSetError>)
        ensures
            match r {
                Ok(p) => check_operations(operations@) is Ok && p.operations@ == operations@,
                Err(e) => check_operations(operations@) == Err::<(), PatchFailure>(e@),
            },
    {
        let patch_set = PatchSet { operations };
        patch_set.validate()?;
        Ok(patch_set)
    }

    pub fn operations(&self) -> (r: &[FileOperation])
        ensures
            r@ == self.operations@,
    {
        self.operations.as_slice()
    }

    pub fn validate(&self) -> (r: Result<(), PatchSetError>)
        ensures
            outcome(r) == check_operations(self.operations@),
    {
        if self.operations.len() == 0 {
            return Err(PatchSetError::Empty);
        }
        let ghost all = self.operations@;
        let ghost check = |o: FileOperation| o.check();
        let mut i: usize = 0;
        assert(all.skip(0) =~= all);
        while i < self.operations.len()
            invariant
                i <= self.operations@.len(),
                all == self.operations@,
                all.len() > 0,
                check == (|o: FileOperation| o.check()),
                check_all(all, check) == check_all(all.skip(i as int), check),
            decreases self.operations@.len() - i,
        {
            proof {
                lemma_check_step(all, i as int, check);
            }
            self.operations[i].validate()?;
            i += 1;
        }
        let paths = paths_of(self.operations.as_slice());
        match find_repeated_text(paths.as_slice()) {
            Some(k) => Err(PatchSetError::DuplicatePath(paths[k].clone())),
            None => Ok(()),
        }
    }

    /// The patch set as JSON.
    pub open spec fn record(&self) -> Value {
        empty_obj().with("operations"@, array_json(self.operations@))
    }

    /// The digest of the patch set.
    pub open spec fn digest(&self) -> Seq<char> {
        digest_hex(encode_utf8(print(self.record())))
    }

    /// The identity of a valid patch set.
    pub fn identity(&self) -> (r: Result<String, PatchSetError>)
        ensures
            match r {
                Ok(id) => check_operations(self.operations@) is Ok && id@ == self.digest(),
                Err(e) => check_operations(self.operations@) == Err::<(), PatchFailure>(e@),
            },
    {
        self.validate()?;
        let mut root = Json::obj();
        root.set("operations", json_array(self.operations.as_slice()));
        Ok(sha256_hex(root.to_string().as_str().as_bytes()))
    }
}

// ---------------------------------------------------------------------------
// Application to a tree
// ---------------------------------------------------------------------------

/// `needle` stands in `hay` at position `i`.
pub open spec fn occurs_at(hay: Seq<u8>, needle: Seq<u8>, i: int) -> bool {
    &&& 0 <= i
    &&& i + needle.len() <= hay.len()
    &&& hay.subrange(i, i + needle.len()) == needle
}

/// The first position from `i` on at which `needle` stands in `hay`.
pub open spec fn find_from(hay: Seq<u8>, needle: Seq<u8>, i: int) -> Option<int>
    decreases hay.len() + 1 - i,
{
    if i < 0 || i + needle.len() > hay.len() {
        None
    } else if occurs_at(hay, needle, i) {
        Some(i)
    } else {
        find_from(hay, needle, i + 1)
    }
}

/// `hay` with the part that `needle` takes up at position `i` replaced.
pub open spec fn replaced(hay: Seq<u8>, needle: Seq<u8>, i: int, replacement: Seq<u8>) -> Seq<u8> {
    hay.take(i) + replacement + hay.skip(i + needle.len())
}

/// A tree after one operation.
#[verifier::opaque]
pub open spec fn apply(operation: FileOperation, tree: Map<Seq<char>, Seq<u8>>) -> Result<
    Map<Seq<char>, Seq<u8>>,
    PatchFailure,
> {
    match operation {
        FileOperation::Create { path, contents } => if tree.dom().contains(path@) {
            Err(PatchSetError::FileExists(path@))
        } else {
            Ok(tree.insert(path@, encode_utf8(contents@)))
        },
        FileOperation::ModifyExact { path, expected, replacement } => if !tree.dom().contains(path@) {
            Err(PatchSetError::FileMissing(path@))
        } else {
            let hay = tree[path@];
            let needle = encode_utf8(expected@);
            match find_from(hay, needle, 0) {
                None => Err(PatchSetError::TextNotFound(path@)),
                Some(i) => if find_from(hay, needle, i + 1) is Some {
                    Err(PatchSetError::TextNotUnique(path@))
                } else {
                    Ok(tree.insert(path@, replaced(hay, needle, i, encode_utf8(replacement@))))
                },
            }
        },
        FileOperation::Delete { path, sha256 } => if !tree.dom().contains(path@) {
            Err(PatchSetError::FileMissing(path@))
        } else if digest_hex(tree[path@]) != lowercase(sha256@) {
            Err(
                PatchSetError::ContentMismatch {
                    path: path@,
                    expected: lowercase(sha256@),
                    actual: digest_hex(tree[path@]),
                },
            )
        } else {
            Ok(tree.remove(path@))
        },
    }
}

/// A tree after operations, one after the other.
pub open spec fn apply_all(operations: Seq<FileOperation>, tree: Map<Seq<char>, Seq<u8>>) -> Result<
    Map<Seq<char>, Seq<u8>>,
    PatchFailure,
>
    decreases operations.len(),
{
    if operations.len() == 0 {
        Ok(tree)
    } else {
        match apply(operations[0], tree) {
            Ok(next) => apply_all(operations.drop_first(), next),
            Err(e) => Err(e),
        }
    }
}

fn bytes_occur_at(hay: &[u8], needle: &[u8], i: usize) -> (r: bool)
    requires
        i + needle@.len() <= hay@.len(),
    ensures
        r == occurs_at(hay@, needle@, i as int),
{
    let n: usize = hay.len();
    let mut j: usize = 0;
    let ghost part = hay@.subrange(i as int, i + needle@.len());
    while j < needle.len()
        invariant
            n == hay@.len(),
            j <= needle@.len(),
            i + needle@.len() <= n,
            part == hay@.subrange(i as int, i + needle@.len()),
            forall|k: int| 0 <= k < j ==> part[k] == needle@[k],
        decreases needle@.len() - j,
    {
        assert(part[j as int] == hay@[i + j]);
        if hay[i + j] != needle[j] {
            return false;
        }
        j += 1;
    }
    assert(part =~= needle@);
    true
}

fn find_bytes(hay: &[u8], needle: &[u8], from: usize) -> (r: Option<usize>)
    requires
        from <= hay@.len(),
    ensures
        match r {
            Some(i) => find_from(hay@, needle@, from as int) == Some(i as int),
            None => find_from(hay@, needle@, from as int) is None,
        },
        r matches Some(i) ==> i + needle@.len() <= hay@.len(),
{
    let n: usize = hay.len();
    let mut i: usize = from;
    while needle.len() <= n - i
        invariant
            n == hay@.len(),
            from <= i <= n,
            find_from(hay@, needle@, from as int) == find_from(hay@, needle@, i as int),
        decreases n - i,
    {
        if bytes_occur_at(hay, needle, i) {
            return Some(i);
        }
        if i == n {
            assert(find_from(hay@, needle@, i + 1) is None);
            return None;
        }
        i += 1;
    }
    None
}

fn replace_bytes(hay: &[u8], needle: &[u8], i: usize, replacement: &[u8]) -> (r: Vec<u8>)
    requires
        i + needle@.len() <= hay@.len(),
    ensures
        r@ == replaced(hay@, needle@, i as int, replacement@),
{
    let n: usize = hay.len();
    let mut out: Vec<u8> = Vec::new();
    push_bytes(&mut out, vstd::slice::slice_subrange(hay, 0, i));
    push_bytes(&mut out, replacement);
    push_bytes(&mut out, vstd::slice::slice_subrange(hay, i + needle.len(), n));
    assert(out@ =~= replaced(hay@, needle@, i as int, replacement@));
    out
}

fn bytes_of(text: &str) -> (r: Vec<u8>)
    ensures
        r@ == encode_utf8(text@),
{
    let mut out: Vec<u8> = Vec::new();
    push_bytes(&mut out, text.as_bytes());
    assert(out@ =~= encode_utf8(text@));
    out
}

/// Replaces the one occurrence of a text in a file.
fn modified(tree: &FileTree, path: &str, expected: &str, replacement: &str) -> (r: Result<Vec<u8>, PatchSetError>)
    ensures
        match r {
            Ok(bytes) => {
                &&& tree@.dom().contains(path@)
                &&& find_from(tree@[path@], encode_utf8(expected@), 0) matches Some(i)
                &&& find_from(tree@[path@], encode_utf8(expected@), i + 1) is None
                &&& bytes@ == replaced(tree@[path@], encode_utf8(expected@), i, encode_utf8(replacement@))
            },
            Err(e) => if !tree@.dom().contains(path@) {
                e@ == PatchSetError::<Seq<char>>::FileMissing(path@)
            } else {
                match find_from(tree@[path@], encode_utf8(expected@), 0) {
                    None => e@ == PatchSetError::<Seq<char>>::TextNotFound(path@),
                    Some(i) => find_from(tree@[path@], encode_utf8(expected@), i + 1) is Some && e@
                        == PatchSetError::<Seq<char>>::TextNotUnique(path@),
                }
            },
        },
{
    let hay = match tree.get(path) {
        Some(hay) => hay,
        None => {
            return Err(PatchSetError::FileMissing(path.to_owned()));
        },
    };
    let needle = expected.as_bytes();
    let i = match find_bytes(hay, needle, 0) {
        Some(i) => i,
        None => {
            return Err(PatchSetError::TextNotFound(path.to_owned()));
        },
    };
    if i < hay.len() && find_bytes(hay, needle, i + 1).is_some() {
        return Err(PatchSetError::TextNotUnique(path.to_owned()));
    }
    Ok(replace_bytes(hay, needle, i, replacement.as_bytes()))
}

/// Applies one operation; a failure leaves the tree as it was.
fn apply_to(tree: &mut FileTree, operation: &FileOperation) -> (r: Result<(), PatchSetError>)
    ensures
        match r {
            Ok(_) => apply(*operation, old(tree)@) == Ok::<Map<Seq<char>, Seq<u8>>, PatchFailure>(final(tree)@),
            Err(e) => final(tree)@ == old(tree)@ && apply(*operation, old(tree)@) == Err::<
                Map<Seq<char>, Seq<u8>>,
                PatchFailure,
            >(e@),
        },
{
    proof {
        reveal(apply);
    }
    match operation {
        FileOperation::Create { path, contents } => {
            if tree.get(path.as_str()).is_some() {
                return Err(PatchSetError::FileExists(path.clone()));
            }
            tree.insert(path.clone(), bytes_of(contents.as_str()));
            Ok(())
        },
        FileOperation::ModifyExact { path, expected, replacement } => {
            let bytes = modified(tree, path.as_str(), expected.as_str(), replacement.as_str())?;
            tree.insert(path.clone(), bytes);
            Ok(())
        },
        FileOperation::Delete { path, sha256 } => {
            let actual = match tree.get(path.as_str()) {
                Some(contents) => sha256_hex(contents),
                None => {
                    return Err(PatchSetError::FileMissing(path.clone()));
                },
            };
            let expected = to_lowercase(sha256.as_str());
            if !same_text(actual.as_str(), expected.as_str()) {
                return Err(PatchSetError::ContentMismatch { path: path.clone(), expected, actual });
            }
            tree.remove(path.as_str());
            Ok(())
        },
    }
}

impl PatchSet {
    /// The tree that the patch set makes of a tree.
    pub open spec fn effect(&self, base: Map<Seq<char>, Seq<u8>>) -> Result<Map<Seq<char>, Seq<u8>>, PatchFailure> {
        and_then(check_operations(self.operations@), apply_all(self.operations@, base))
    }

    /// Applies the patch set to a copy of the tree; the tree itself stays as it is.
    pub fn materialize(&self, base: &FileTree) -> (r: Result<FileTree, PatchSetError>)
        ensures
            match r {
                Ok(tree) => self.effect(base@) == Ok::<Map<Seq<char>, Seq<u8>>, PatchFailure>(tree@),
                Err(e) => self.effect(base@) == Err::<Map<Seq<char>, Seq<u8>>, PatchFailure>(e@),
            },
    {
        self.validate()?;
        let ghost all = self.operations@;
        let mut tree = base.duplicate();
        let mut i: usize = 0;
        assert(all.skip(0) =~= all);
        while i < self.operations.len()
            invariant
                i <= self.operations@.len(),
                all == self.operations@,
                check_operations(all) is Ok,
                apply_all(all, base@) == apply_all(all.skip(i as int), tree@),
            decreases self.operations@.len() - i,
        {
            assert(all.skip(i as int).drop_first() =~= all.skip(i + 1));
            apply_to(&mut tree, &self.operations[i])?;
            i += 1;
        }
        Ok(tree)
    }
}

// ---------------------------------------------------------------------------
// Laws
// ---------------------------------------------------------------------------

/// A patch set leaves every file alone that none of its operations is about.
pub proof fn law_other_files_stay(
    operations: Seq<FileOperation>,
    before: Map<Seq<char>, Seq<u8>>,
    after: Map<Seq<char>, Seq<u8>>,
    path: Seq<char>,
)
    requires
        apply_all(operations, before) == Ok::<Map<Seq<char>, Seq<u8>>, PatchFailure>(after),
        !targets(operations).contains(path),
    ensures
        after.dom().contains(path) == before.dom().contains(path),
        before.dom().contains(path) ==> after[path] == before[path],
    decreases operations.len(),
{
    reveal(apply);
    if operations.len() > 0 {
        let next = apply(operations[0], before)->Ok_0;
        let rest = operations.drop_first();
        assert(targets(operations)[0] == operations[0].target());
        assert(operations[0].target() != path);
        if targets(rest).contains(path) {
            let k = choose|k: int| 0 <= k < targets(rest).len() && targets(rest)[k] == path;
            assert(targets(operations)[k + 1] == path);
        }
        law_other_files_stay(rest, next, after, path);
    }
}

/// What a valid patch set leaves at a path depends on the one operation about it and
/// on the file that was there before, not on the order of the operations.
pub proof fn law_each_file_changes_by_its_operation(
    operations: Seq<FileOperation>,
    before: Map<Seq<char>, Seq<u8>>,
    after: Map<Seq<char>, Seq<u8>>,
    k: int,
)
    requires
        repeated_text(targets(operations)) is None,
        apply_all(operations, before) == Ok::<Map<Seq<char>, Seq<u8>>, PatchFailure>(after),
        0 <= k < operations.len(),
    ensures
        apply(operations[k], before) is Ok,
        after.dom().contains(operations[k].target()) == apply(operations[k], before)->Ok_0.dom().contains(
            operations[k].target(),
        ),
        after.dom().contains(operations[k].target()) ==> after[operations[k].target()] == apply(
            operations[k],
            before,
        )->Ok_0[operations[k].target()],
    decreases operations.len(),
{
    reveal(apply);
    let path = operations[k].target();
    let paths = targets(operations);
    let rest = operations.drop_first();
    let next = apply(operations[0], before)->Ok_0;
    lemma_no_repetition(paths);
    if k == 0 {
        if targets(rest).contains(path) {
            let j = choose|j: int| 0 <= j < targets(rest).len() && targets(rest)[j] == path;
            assert(paths[j + 1] == path);
            assert(paths[0] == path);
        }
        law_other_files_stay(rest, next, after, path);
    } else {
        assert(paths[0] == operations[0].target());
        assert(paths[k] == path);
        assert(rest[k - 1] == operations[k]);
        assert(targets(rest) =~= paths.drop_first());
        lemma_repetition_of_tail(paths);
        law_each_file_changes_by_its_operation(rest, next, after, k - 1);
        assert(next.dom().contains(path) == before.dom().contains(path));
        assert(before.dom().contains(path) ==> next[path] == before[path]);
    }
}

/// Two patch sets with the same one modification have the same effect.
pub proof fn lemma_same_modification(a: PatchSet, b: PatchSet, tree: Map<Seq<char>, Seq<u8>>)
    requires
        a.operations@.len() == 1,
        b.operations@.len() == 1,
        a.operations@[0] is ModifyExact,
        b.operations@[0] is ModifyExact,
        a.operations@[0]->ModifyExact_path@ == b.operations@[0]->ModifyExact_path@,
        a.operations@[0]->expected@ == b.operations@[0]->expected@,
        a.operations@[0]->replacement@ == b.operations@[0]->replacement@,
    ensures
        a.effect(tree) == b.effect(tree),
{
    reveal(apply);
    let (x, y) = (a.operations@, b.operations@);
    assert(targets(x) =~= targets(y));
    reveal_with_fuel(check_all, 2);
    reveal_with_fuel(apply_all, 2);
    assert(x.drop_first() =~= Seq::empty());
    assert(y.drop_first() =~= Seq::empty());
}

/// A text taken apart around one of its places: what lies before it, and what lies behind.
pub open spec fn splits(hay: Seq<u8>, before: Seq<u8>, needle: Seq<u8>, behind: Seq<u8>) -> bool {
    hay == before + needle + behind
}

/// A text has the needle at one place only, between `before` and `behind`.
pub open spec fn splits_once(hay: Seq<u8>, before: Seq<u8>, needle: Seq<u8>, behind: Seq<u8>) -> bool {
    &&& splits(hay, before, needle, behind)
    &&& forall|b: Seq<u8>, e: Seq<u8>| #[trigger] splits(hay, b, needle, e) ==> b == before && e == behind
}

proof fn lemma_occurrence_splits(hay: Seq<u8>, needle: Seq<u8>, i: int)
    requires
        occurs_at(hay, needle, i),
    ensures
        splits(hay, hay.take(i), needle, hay.skip(i + needle.len())),
{
    let whole = hay.take(i) + needle + hay.skip(i + needle.len());
    assert(whole.len() == hay.len());
    assert forall|j: int| 0 <= j < hay.len() implies hay[j] == whole[j] by {
        if i <= j < i + needle.len() {
            assert(hay.subrange(i, i + needle.len())[j - i] == needle[j - i]);
        }
    }
    assert(hay =~= whole);
}

proof fn lemma_split_occurs(hay: Seq<u8>, before: Seq<u8>, needle: Seq<u8>, behind: Seq<u8>)
    requires
        splits(hay, before, needle, behind),
    ensures
        occurs_at(hay, needle, before.len() as int),
        hay.take(before.len() as int) == before,
        hay.skip((before.len() + needle.len()) as int) == behind,
{
    let i = before.len() as int;
    assert(hay.subrange(i, i + needle.len()) =~= needle);
    assert(hay.take(i) =~= before);
    assert(hay.skip(i + needle.len()) =~= behind);
}

/// The search finds the first place from where it starts.
proof fn lemma_find_from(hay: Seq<u8>, needle: Seq<u8>, i: int)
    requires
        0 <= i,
    ensures
        match find_from(hay, needle, i) {
            Some(k) => i <= k && occurs_at(hay, needle, k) && forall|j: int| i <= j < k ==> !occurs_at(hay, needle, j),
            None => forall|j: int| i <= j ==> !occurs_at(hay, needle, j),
        },
    decreases hay.len() + 1 - i,
{
    if i + needle.len() <= hay.len() && !occurs_at(hay, needle, i) {
        lemma_find_from(hay, needle, i + 1);
    }
}

/// An exact modification replaces the expected text where it stands and leaves the rest:
/// a file that is something, the expected text and something more becomes the same with
/// the replacement in the middle. Every other file stays.
pub proof fn law_exact_modification_replaces(
    operation: FileOperation,
    tree: Map<Seq<char>, Seq<u8>>,
    before: Seq<u8>,
    behind: Seq<u8>,
)
    requires
        operation is ModifyExact,
        tree.dom().contains(operation->ModifyExact_path@),
        splits_once(
            tree[operation->ModifyExact_path@],
            before,
            encode_utf8(operation->ModifyExact_expected@),
            behind,
        ),
    ensures
        apply(operation, tree) is Ok,
        ({
            let after = apply(operation, tree)->Ok_0;
            let path = operation->ModifyExact_path@;
            &&& after.dom() == tree.dom()
            &&& after[path] == before + encode_utf8(operation->ModifyExact_replacement@) + behind
            &&& forall|other: Seq<char>| other != path && tree.dom().contains(other) ==> #[trigger] after[other] == tree[other]
        }),
{
    reveal(apply);
    let path = operation->ModifyExact_path@;
    let hay = tree[path];
    let needle = encode_utf8(operation->ModifyExact_expected@);
    lemma_split_occurs(hay, before, needle, behind);
    lemma_find_from(hay, needle, 0);
    let i = find_from(hay, needle, 0)->0;
    lemma_occurrence_splits(hay, needle, i);
    lemma_find_from(hay, needle, i + 1);
    if find_from(hay, needle, i + 1) is Some {
        let k = find_from(hay, needle, i + 1)->0;
        lemma_occurrence_splits(hay, needle, k);
        assert(hay.take(k).len() == hay.take(i).len());
    }
    assert(apply(operation, tree)->Ok_0.dom() =~= tree.dom());
}

/// An exact modification applies exactly to a file that has the expected text once; a
/// file that is missing, that lacks the text, or that has it at two places is told apart.
pub proof fn law_exact_modification_is_exact(operation: FileOperation, tree: Map<Seq<char>, Seq<u8>>)
    requires
        operation is ModifyExact,
    ensures
        ({
            let path = operation->ModifyExact_path@;
            let needle = encode_utf8(operation->ModifyExact_expected@);
            let found = exists|b: Seq<u8>, e: Seq<u8>| #[trigger] splits(tree[path], b, needle, e);
            let once = exists|b: Seq<u8>, e: Seq<u8>| #[trigger] splits_once(tree[path], b, needle, e);
            &&& !tree.dom().contains(path) <==> apply(operation, tree) == Err::<Map<Seq<char>, Seq<u8>>, PatchFailure>(
                PatchSetError::FileMissing(path),
            )
            &&& tree.dom().contains(path) ==> {
                &&& apply(operation, tree) is Ok <==> once
                &&& !found <==> apply(operation, tree) == Err::<Map<Seq<char>, Seq<u8>>, PatchFailure>(
                    PatchSetError::TextNotFound(path),
                )
                &&& found && !once <==> apply(operation, tree) == Err::<Map<Seq<char>, Seq<u8>>, PatchFailure>(
                    PatchSetError::TextNotUnique(path),
                )
            }
        }),
{
    reveal(apply);
    let path = operation->ModifyExact_path@;
    let hay = tree[path];
    let needle = encode_utf8(operation->ModifyExact_expected@);
    lemma_find_from(hay, needle, 0);
    match find_from(hay, needle, 0) {
        None => {
            if exists|b: Seq<u8>, e: Seq<u8>| #[trigger] splits(hay, b, needle, e) {
                let (b, e) = choose|b: Seq<u8>, e: Seq<u8>| #[trigger] splits(hay, b, needle, e);
                lemma_split_occurs(hay, b, needle, e);
            }
        },
        Some(i) => {
            lemma_occurrence_splits(hay, needle, i);
            lemma_find_from(hay, needle, i + 1);
            let (before, behind) = (hay.take(i), hay.skip(i + needle.len()));
            match find_from(hay, needle, i + 1) {
                Some(k) => {
                    lemma_occurrence_splits(hay, needle, k);
                    assert(hay.take(k).len() != hay.take(i).len());
                },
                None => {
                    assert forall|b: Seq<u8>, e: Seq<u8>| #[trigger] splits(hay, b, needle, e) implies b == before && e
                        == behind by {
                        lemma_split_occurs(hay, b, needle, e);
                        assert(b.len() == i);
                    }
                    assert(splits_once(hay, before, needle, behind));
                },
            }
        },
    }
}

/// What an exact modification did is undone by the one with the texts exchanged, where the
/// replacement stands at one place of the modified file.
pub proof fn law_exact_modification_is_undone(
    there: FileOperation,
    back: FileOperation,
    tree: Map<Seq<char>, Seq<u8>>,
    before: Seq<u8>,
    behind: Seq<u8>,
)
    requires
        there is ModifyExact,
        back is ModifyExact,
        back->ModifyExact_path@ == there->ModifyExact_path@,
        back->ModifyExact_expected@ == there->ModifyExact_replacement@,
        back->ModifyExact_replacement@ == there->ModifyExact_expected@,
        tree.dom().contains(there->ModifyExact_path@),
        splits_once(tree[there->ModifyExact_path@], before, encode_utf8(there->ModifyExact_expected@), behind),
        splits_once(
            before + encode_utf8(there->ModifyExact_replacement@) + behind,
            before,
            encode_utf8(there->ModifyExact_replacement@),
            behind,
        ),
    ensures
        apply(there, tree) is Ok,
        apply(back, apply(there, tree)->Ok_0) == Ok::<Map<Seq<char>, Seq<u8>>, PatchFailure>(tree),
{
    law_exact_modification_replaces(there, tree, before, behind);
    let middle = apply(there, tree)->Ok_0;
    law_exact_modification_replaces(back, middle, before, behind);
    let end = apply(back, middle)->Ok_0;
    let path = there->ModifyExact_path@;
    assert forall|p: Seq<char>| tree.dom().contains(p) implies #[trigger] end[p] == tree[p] by {
        if p != path {
            assert(middle[p] == tree[p]);
        }
    }
    assert(end =~= tree);
}

/// A creation writes its contents to a path that holds no file, and refuses any other; a
/// deletion takes away a file that has the expected digest, and refuses any other.
pub proof fn law_creation_and_deletion(operation: FileOperation, tree: Map<Seq<char>, Seq<u8>>)
    ensures
        operation matches FileOperation::Create { path, contents } ==> {
            &&& apply(operation, tree) is Ok <==> !tree.dom().contains(path@)
            &&& apply(operation, tree) matches Ok(after) ==> after.dom() == tree.dom().insert(path@) && after[path@]
                == encode_utf8(contents@) && forall|p: Seq<char>| tree.dom().contains(p) ==> #[trigger] after[p] == tree[p]
            &&& apply(operation, tree) matches Err(e) ==> e == PatchFailure::FileExists(path@)
        },
        operation matches FileOperation::Delete { path, sha256 } ==> {
            &&& apply(operation, tree) is Ok <==> tree.dom().contains(path@) && digest_hex(tree[path@]) == lowercase(sha256@)
            &&& apply(operation, tree) matches Ok(after) ==> after.dom() == tree.dom().remove(path@) && forall|p: Seq<char>|
                after.dom().contains(p) ==> #[trigger] after[p] == tree[p]
            &&& apply(operation, tree) matches Err(e) ==> if tree.dom().contains(path@) {
                e is ContentMismatch
            } else {
                e == PatchFailure::FileMissing(path@)
            }
        },
{
    reveal(apply);
    if apply(operation, tree) is Ok {
        let after = apply(operation, tree)->Ok_0;
        match operation {
            FileOperation::Create { path, .. } => {
                assert(after.dom() =~= tree.dom().insert(path@));
            },
            FileOperation::Delete { path, .. } => {
                assert(after.dom() =~= tree.dom().remove(path@));
            },
            _ => {},
        }
    }
}

/// The operations of a patch set are accepted exactly where there is one, where each has a
/// canonical relative path, an exact modification expects some text and a deletion names a
/// digest, and where no two have the same path.
pub proof fn law_patch_sets_are_well_formed(operations: Seq<FileOperation>)
    ensures
        check_operations(operations) is Ok <==> {
            &&& operations.len() > 0
            &&& forall|i: int|
                0 <= i < operations.len() ==> is_relative_path((#[trigger] operations[i]).target()) && (
                operations[i] matches FileOperation::ModifyExact { expected, .. } ==> expected@.len() > 0) && (
                operations[i] matches FileOperation::Delete { sha256, .. } ==> is_digest(sha256@))
            &&& forall|i: int, j: int|
                0 <= i < j < operations.len() ==> (#[trigger] operations[i]).target() != (#[trigger] operations[j]).target()
        },
{
    let check = |o: FileOperation| o.check();
    lemma_check_all(operations, check);
    law_repeated_text(targets(operations));
    let t = targets(operations);
    assert(forall|i: int| 0 <= i < operations.len() ==> #[trigger] t[i] == operations[i].target());
    if check_operations(operations) is Ok {
        assert forall|i: int| 0 <= i < operations.len() implies is_relative_path((#[trigger] operations[i]).target()) && (
        operations[i] matches FileOperation::ModifyExact { expected, .. } ==> expected@.len() > 0) && (
        operations[i] matches FileOperation::Delete { sha256, .. } ==> is_digest(sha256@)) by {
            assert(check(operations[i]) is Ok);
        }
        assert forall|i: int, j: int| 0 <= i < j < operations.len() implies (#[trigger] operations[i]).target() != (
        #[trigger] operations[j]).target() by {
            assert(t[i] != t[j]);
        }
    }
    if {
        &&& operations.len() > 0
        &&& forall|i: int|
            0 <= i < operations.len() ==> is_relative_path((#[trigger] operations[i]).target()) && (
            operations[i] matches FileOperation::ModifyExact { expected, .. } ==> expected@.len() > 0) && (
            operations[i] matches FileOperation::Delete { sha256, .. } ==> is_digest(sha256@))
        &&& forall|i: int, j: int|
            0 <= i < j < operations.len() ==> (#[trigger] operations[i]).target() != (#[trigger] operations[j]).target()
    } {
        assert forall|i: int| 0 <= i < operations.len() implies (#[trigger] check(operations[i])) is Ok by {
            assert(is_relative_path(operations[i].target()));
        }
        assert(t.no_duplicates()) by {
            assert forall|i: int, j: int| 0 <= i < t.len() && 0 <= j < t.len() && i != j implies t[i] != t[j] by {
                if i < j {
                    assert(operations[i].target() != operations[j].target());
                } else {
                    assert(operations[j].target() != operations[i].target());
                }
            }
        }
    }
}

/// A patch set with distinct paths applies exactly where each of its operations applies to
/// the tree as it was, whatever the order of the operations.
pub proof fn law_patch_set_applies_as_its_operations(operations: Seq<FileOperation>, tree: Map<Seq<char>, Seq<u8>>)
    requires
        forall|i: int, j: int|
            0 <= i < j < operations.len() ==> (#[trigger] operations[i]).target() != (#[trigger] operations[j]).target(),
    ensures
        apply_all(operations, tree) is Ok <==> forall|k: int|
            0 <= k < operations.len() ==> apply(#[trigger] operations[k], tree) is Ok,
    decreases operations.len(),
{
    if operations.len() > 0 {
        let first = operations[0];
        let rest = operations.drop_first();
        assert forall|i: int, j: int| 0 <= i < j < rest.len() implies (#[trigger] rest[i]).target() != (
        #[trigger] rest[j]).target() by {
            assert(operations[i + 1].target() != operations[j + 1].target());
        }
        if apply(first, tree) is Ok {
            let next = apply(first, tree)->Ok_0;
            law_patch_set_applies_as_its_operations(rest, next);
            assert forall|k: int| 0 <= k < rest.len() implies (apply(#[trigger] rest[k], next) is Ok <==> apply(
                operations[k + 1],
                tree,
            ) is Ok) by {
                assert(operations[0].target() != operations[k + 1].target());
                lemma_apply_elsewhere(first, rest[k], tree);
            }
            if forall|k: int| 0 <= k < rest.len() ==> apply(#[trigger] rest[k], next) is Ok {
                assert forall|k: int| 0 <= k < operations.len() implies apply(#[trigger] operations[k], tree) is Ok by {
                    if k > 0 {
                        assert(apply(rest[k - 1], next) is Ok);
                    }
                }
            }
        }
    }
}

/// What one operation does to its file does not touch whether another applies to its own.
proof fn lemma_apply_elsewhere(first: FileOperation, second: FileOperation, tree: Map<Seq<char>, Seq<u8>>)
    requires
        first.target() != second.target(),
        apply(first, tree) is Ok,
    ensures
        apply(second, apply(first, tree)->Ok_0) is Ok <==> apply(second, tree) is Ok,
{
    reveal(apply);
    let next = apply(first, tree)->Ok_0;
    let p = second.target();
    assert(next.dom().contains(p) == tree.dom().contains(p));
    assert(tree.dom().contains(p) ==> next[p] == tree[p]);
}

} // verus!
