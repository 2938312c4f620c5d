//! File trees held in memory, and the identity of their contents.

use vstd::prelude::*;
use vstd::utf8::encode_utf8;

use crate::order::{
    lemma_canonical_unique, lemma_text_order_equal, lemma_text_order_flip, lemma_text_order_transitive, order_texts, reverse_records, strictly_ascending,
    text_order, Order,
};
use crate::sha256::{be64, digest_hex, push_be64, push_bytes, sha256_hex};
use crate::text::{has_char, law_split_by_pieces, same_text, split, split_text, texts};

verus! {

/// Directories whose contents belong to no tree.
pub const SKIP_DIRS: [&'static str; 4] = ["target", ".git", "node_modules", ".rsi_backups"];

pub open spec fn skip_dirs() -> Seq<Seq<char>> {
    SKIP_DIRS@.map_values(|d: &'static str| d@)
}

/// A path that leads through one of the directories to leave out.
pub open spec fn is_skipped(path: Seq<char>) -> bool {
    let parts = split(path, '/');
    exists|i: int| 0 <= i < parts.len() - 1 && skip_dirs().contains(#[trigger] parts[i])
}

fn is_skip_dir(name: &str) -> (r: bool)
    ensures
        r == skip_dirs().contains(name@),
{
    let ghost all = skip_dirs();
    let mut i: usize = 0;
    while i < 4
        invariant
            i <= 4,
            all == skip_dirs(),
            forall|j: int| 0 <= j < i ==> all[j] != name@,
        decreases 4 - i,
    {
        assert(all[i as int] == SKIP_DIRS@[i as int]@);
        if same_text(SKIP_DIRS[i], name) {
            return true;
        }
        i += 1;
    }
    false
}

pub fn path_is_skipped(path: &str) -> (r: bool)
    ensures
        r == is_skipped(path@),
{
    let parts = split_text(path, '/');
    let n: usize = parts.len();
    let mut i: usize = 0;
    while i < n && n - i > 1
        invariant
            n == parts@.len(),
            i <= n,
            texts(parts@) == split(path@, '/'),
            forall|j: int| 0 <= j < i ==> !skip_dirs().contains(#[trigger] texts(parts@)[j]),
        decreases n - i,
    {
        assert(texts(parts@)[i as int] == parts@[i as int]@);
        if is_skip_dir(parts[i].as_str()) {
            return true;
        }
        i += 1;
    }
    false
}

/// One file of a tree.
#[derive(Debug, PartialEq, Eq)]
pub struct TreeFile {
    pub path: String,
    pub contents: Vec<u8>,
}

/// The paths of a listing.
pub open spec fn listed_paths(listing: Seq<(Seq<char>, Seq<u8>)>) -> Seq<Seq<char>> {
    listing.map_values(|f: (Seq<char>, Seq<u8>)| f.0)
}

/// The files of a listing by path.
pub open spec fn by_path(listing: Seq<(Seq<char>, Seq<u8>)>) -> Map<Seq<char>, Seq<u8>> {
    Map::new(
        |p: Seq<char>| listed_paths(listing).contains(p),
        |p: Seq<char>| listing[listed_paths(listing).index_of(p)].1,
    )
}

/// The number of bytes in the files of a listing.
pub open spec fn byte_count(listing: Seq<(Seq<char>, Seq<u8>)>) -> nat
    decreases listing.len(),
{
    if listing.len() == 0 {
        0
    } else {
        byte_count(listing.drop_last()) + listing.last().1.len()
    }
}

/// The listing of the files of a tree in ascending order of their paths.
pub open spec fn listing_of(tree: Map<Seq<char>, Seq<u8>>) -> Seq<(Seq<char>, Seq<u8>)> {
    choose|listing: Seq<(Seq<char>, Seq<u8>)>|
        strictly_ascending(listed_paths(listing)) && #[trigger] by_path(listing) == tree
}

/// A set of files, at most one for each path.
#[derive(Debug, PartialEq, Eq)]
pub struct FileTree {
    files: Vec<TreeFile>,
}

/// The files in the order in which they are stored.
spec fn entries(files: Seq<TreeFile>) -> Seq<(Seq<char>, Seq<u8>)> {
    files.map_values(|f: TreeFile| (f.path@, f.contents@))
}

proof fn lemma_by_path(listing: Seq<(Seq<char>, Seq<u8>)>, i: int)
    requires
        strictly_ascending(listed_paths(listing)),
        0 <= i < listing.len(),
    ensures
        by_path(listing).dom().contains(listing[i].0),
        by_path(listing)[listing[i].0] == listing[i].1,
{
    let paths = listed_paths(listing);
    assert(paths[i] == listing[i].0);
    let k = paths.index_of(listing[i].0);
    assert(paths[k] == paths[i]);
    lemma_text_order_equal(paths[i], paths[k]);
    lemma_text_order_equal(paths[k], paths[i]);
}

/// A map from paths to contents has one ordered listing only.
proof fn lemma_listing_unique(a: Seq<(Seq<char>, Seq<u8>)>, b: Seq<(Seq<char>, Seq<u8>)>)
    requires
        strictly_ascending(listed_paths(a)),
        strictly_ascending(listed_paths(b)),
        by_path(a) == by_path(b),
    ensures
        a == b,
{
    assert forall|p: Seq<char>| #[trigger] listed_paths(a).contains(p) <==> listed_paths(b).contains(p) by {
        assert(by_path(a).dom().contains(p) <==> listed_paths(a).contains(p));
        assert(by_path(b).dom().contains(p) <==> listed_paths(b).contains(p));
    }
    lemma_canonical_unique(listed_paths(a), listed_paths(b));
    assert(a.len() == listed_paths(a).len());
    assert(b.len() == listed_paths(b).len());
    assert forall|i: int| 0 <= i < a.len() implies a[i] == b[i] by {
        lemma_by_path(a, i);
        lemma_by_path(b, i);
        assert(listed_paths(a)[i] == listed_paths(b)[i]);
    }
    assert(a =~= b);
}

proof fn lemma_listing_of(listing: Seq<(Seq<char>, Seq<u8>)>)
    requires
        strictly_ascending(listed_paths(listing)),
    ensures
        listing_of(by_path(listing)) == listing,
{
    lemma_listing_unique(listing, listing_of(by_path(listing)));
}

impl View for FileTree {
    type V = Map<Seq<char>, Seq<u8>>;

    open spec fn view(&self) -> Map<Seq<char>, Seq<u8>> {
        by_path(self.listing())
    }
}

impl FileTree {
    #[verifier::type_invariant]
    spec fn ordered(&self) -> bool {
        strictly_ascending(listed_paths(self.listing()))
    }

    /// The files in the order in which they are held.
    pub closed spec fn listing(&self) -> Seq<(Seq<char>, Seq<u8>)> {
        entries(self.files@)
    }

    /// The tree without files.
    pub fn new() -> (r: Self)
        ensures
            r@ == Map::<Seq<char>, Seq<u8>>::empty(),
    {
        let r = FileTree { files: Vec::new() };
        assert(r.listing() =~= Seq::empty());
        assert(r@ =~= Map::empty());
        r
    }

    /// The number of files.
    pub fn len(&self) -> (r: usize)
        ensures
            r == listing_of(self@).len(),
    {
        proof {
            use_type_invariant(self);
            lemma_listing_of(self.listing());
        }
        self.files.len()
    }

    /// The path of the file at a position of the listing.
    pub fn path_at(&self, i: usize) -> (r: &str)
        requires
            i < listing_of(self@).len(),
        ensures
            r@ == listing_of(self@)[i as int].0,
    {
        proof {
            use_type_invariant(self);
            lemma_listing_of(self.listing());
        }
        self.files[i].path.as_str()
    }

    /// The contents of the file at a position of the listing.
    pub fn contents_at(&self, i: usize) -> (r: &[u8])
        requires
            i < listing_of(self@).len(),
        ensures
            r@ == listing_of(self@)[i as int].1,
    {
        proof {
            use_type_invariant(self);
            lemma_listing_of(self.listing());
        }
        self.files[i].contents.as_slice()
    }

    /// The position of the first file whose path is not before the given one.
    fn position(&self, path: &str) -> (k: usize)
        ensures
            k <= self.files@.len(),
            forall|j: int| 0 <= j < k ==> text_order((#[trigger] self.files@[j]).path@, path@) == Order::Less,
            k < self.files@.len() ==> text_order(self.files@[k as int].path@, path@) == Order::Greater
                || self.files@[k as int].path@ == path@,
    {
        let mut k: usize = 0;
        while k < self.files.len()
            invariant
                k <= self.files@.len(),
                forall|j: int| 0 <= j < k ==> text_order((#[trigger] self.files@[j]).path@, path@) == Order::Less,
            decreases self.files@.len() - k,
        {
            match order_texts(self.files[k].path.as_str(), path) {
                Order::Less => {
                    k += 1;
                },
                _ => {
                    proof {
                        lemma_text_order_equal(self.files@[k as int].path@, path@);
                    }
                    return k;
                },
            }
        }
        k
    }

    /// The contents of the file at a path.
    pub fn get(&self, path: &str) -> (r: Option<&[u8]>)
        ensures
            match r {
                Some(contents) => self@.dom().contains(path@) && contents@ == self@[path@],
                None => !self@.dom().contains(path@),
            },
    {
        proof {
            use_type_invariant(self);
        }
        let k = self.position(path);
        let ghost listing = self.listing();
        if k < self.files.len() && same_text(self.files[k].path.as_str(), path) {
            proof {
                lemma_by_path(listing, k as int);
            }
            return Some(self.files[k].contents.as_slice());
        }
        proof {
            lemma_absent(listing, path@, k as int);
        }
        None
    }

    /// Puts a file into the tree, in place of the one at its path.
    pub fn insert(&mut self, path: String, contents: Vec<u8>)
        ensures
            final(self)@ == old(self)@.insert(path@, contents@),
    {
        proof {
            use_type_invariant(&*self);
        }
        let k = self.position(path.as_str());
        let mut files: Vec<TreeFile> = Vec::new();
        std::mem::swap(&mut files, &mut self.files);
        let ghost before = entries(files@);
        if k < files.len() && same_text(files[k].path.as_str(), path.as_str()) {
            proof {
                lemma_put(before, path@, contents@, k as int);
            }
            files.set(k, TreeFile { path, contents });
            assert(entries(files@) =~= before.update(k as int, (path@, contents@)));
        } else {
            proof {
                lemma_add(before, path@, contents@, k as int);
            }
            files.insert(k, TreeFile { path, contents });
            assert(entries(files@) =~= before.insert(k as int, (path@, contents@)));
        }
        self.files = files;
    }

    /// Takes the file at a path out of the tree.
    pub fn remove(&mut self, path: &str)
        ensures
            final(self)@ == old(self)@.remove(path@),
    {
        proof {
            use_type_invariant(&*self);
        }
        let k = self.position(path);
        let mut files: Vec<TreeFile> = Vec::new();
        std::mem::swap(&mut files, &mut self.files);
        let ghost before = entries(files@);
        if k < files.len() && same_text(files[k].path.as_str(), path) {
            proof {
                lemma_drop(before, k as int);
            }
            files.remove(k);
            assert(entries(files@) =~= before.remove(k as int));
        } else {
            proof {
                lemma_absent(before, path@, k as int);
                assert(by_path(before) =~= by_path(before).remove(path@));
            }
        }
        self.files = files;
    }

    /// A tree with the same files.
    pub fn duplicate(&self) -> (r: Self)
        ensures
            r@ == self@,
    {
        proof {
            use_type_invariant(self);
        }
        let mut files: Vec<TreeFile> = Vec::new();
        let mut i: usize = 0;
        assert(entries(files@) =~= self.listing().take(0));
        while i < self.files.len()
            invariant
                i <= self.files@.len(),
                entries(files@) == self.listing().take(i as int),
            decreases self.files@.len() - i,
        {
            let mut contents: Vec<u8> = Vec::new();
            push_bytes(&mut contents, self.files[i].contents.as_slice());
            assert(contents@ =~= self.files@[i as int].contents@);
            let ghost before = files@;
            files.push(TreeFile { path: self.files[i].path.clone(), contents });
            assert(entries(files@) =~= entries(before).push(self.listing()[i as int]));
            i += 1;
            assert(entries(files@) =~= self.listing().take(i as int));
        }
        assert(self.listing().take(i as int) =~= self.listing());
        FileTree { files }
    }

    /// The files that count, without those under a directory to leave out.
    pub fn without_skipped(&self) -> (r: Self)
        ensures
            r@ == counted(self@),
    {
        proof {
            use_type_invariant(self);
        }
        let ghost listing = self.listing();
        let mut tree = FileTree::new();
        let mut i: usize = 0;
        while i < self.files.len()
            invariant
                i <= self.files@.len(),
                listing == self.listing(),
                strictly_ascending(listed_paths(listing)),
                forall|p: Seq<char>| #[trigger]
                    tree@.dom().contains(p) <==> !is_skipped(p) && listed_paths(listing).take(i as int).contains(p),
                forall|p: Seq<char>| #[trigger] tree@.dom().contains(p) ==> tree@[p] == by_path(listing)[p],
            decreases self.files@.len() - i,
        {
            let ghost before = tree@;
            let ghost path = self.files@[i as int].path@;
            proof {
                lemma_by_path(listing, i as int);
                assert(listing[i as int] == (path, self.files@[i as int].contents@));
            }
            if !path_is_skipped(self.files[i].path.as_str()) {
                let mut contents: Vec<u8> = Vec::new();
                push_bytes(&mut contents, self.files[i].contents.as_slice());
                assert(contents@ =~= self.files@[i as int].contents@);
                tree.insert(self.files[i].path.clone(), contents);
            }
            proof {
                let paths = listed_paths(listing);
                assert(paths[i as int] == path);
                assert(paths.take(i + 1) =~= paths.take(i as int).push(path));
                assert forall|p: Seq<char>| #[trigger]
                    tree@.dom().contains(p) <==> !is_skipped(p) && paths.take(i + 1).contains(p) by {
                    assert(before.dom().contains(p) <==> !is_skipped(p) && paths.take(i as int).contains(p));
                    lemma_pushed_contains(paths.take(i as int), path, p);
                }
            }
            i += 1;
        }
        proof {
            assert(listed_paths(listing).take(i as int) =~= listed_paths(listing));
            assert(tree@ =~= counted(self@));
        }
        tree
    }

    /// The tree of the given files, without those under a directory to leave out.
    /// Of two files at one path the later counts.
    pub fn gather(files: Vec<TreeFile>) -> (r: Self)
        ensures
            r@ == gathered(files@),
    {
        let ghost all = files@;
        let mut reversed = reverse_records(files);
        let mut tree = FileTree::new();
        let ghost mut done: int = 0;
        assert(all.take(0).len() == 0);
        while reversed.len() > 0
            invariant
                0 <= done,
                done + reversed@.len() == all.len(),
                forall|j: int|
                    0 <= j < reversed@.len() ==> #[trigger] reversed@[j] == all[all.len() - 1 - j],
                tree@ == gathered(all.take(done)),
            decreases reversed@.len(),
        {
            let f = reversed.pop().unwrap();
            proof {
                assert(f == all[done]);
                assert(all.take(done + 1).drop_last() =~= all.take(done));
                assert(all.take(done + 1).last() == f);
                done = done + 1;
            }
            if !path_is_skipped(f.path.as_str()) {
                tree.insert(f.path, f.contents);
            }
        }
        assert(all.take(done) =~= all);
        tree
    }

    /// The identity of the tree: the digest of its paths and contents.
    pub fn identity(&self) -> (r: String)
        ensures
            r@ == tree_identity(self@),
    {
        proof {
            use_type_invariant(self);
            lemma_listing_of(self.listing());
        }
        let ghost listing = self.listing();
        let mut material: Vec<u8> = Vec::new();
        push_bytes(&mut material, "rsi-candidate-tree-v1\0".as_bytes());
        let mut count: Vec<u8> = Vec::new();
        push_be64(&mut count, self.files.len() as u64);
        assert(count@ =~= be64(listing.len() as u64));
        push_field(&mut material, count.as_slice());
        let mut i: usize = 0;
        assert(material@ =~= tree_head(listing.len()) + file_fields(listing.take(0)));
        while i < self.files.len()
            invariant
                i <= self.files@.len(),
                listing == self.listing(),
                material@ == tree_head(listing.len()) + file_fields(listing.take(i as int)),
            decreases self.files@.len() - i,
        {
            push_field(&mut material, self.files[i].path.as_str().as_bytes());
            push_field(&mut material, self.files[i].contents.as_slice());
            i += 1;
            proof {
                assert(listing.take(i as int) =~= listing.take(i - 1).push(listing[i - 1]));
                lemma_fields_push(listing.take(i - 1), listing[i - 1]);
                assert(material@ =~= tree_head(listing.len()) + file_fields(listing.take(i as int)));
            }
        }
        assert(listing.take(i as int) =~= listing);
        sha256_hex(material.as_slice())
    }
}

/// The files of a tree that count: those not under a directory to leave out.
pub open spec fn counted(tree: Map<Seq<char>, Seq<u8>>) -> Map<Seq<char>, Seq<u8>> {
    Map::new(|p: Seq<char>| tree.dom().contains(p) && !is_skipped(p), |p: Seq<char>| tree[p])
}

proof fn lemma_pushed_contains(s: Seq<Seq<char>>, x: Seq<char>, y: Seq<char>)
    ensures
        s.push(x).contains(y) <==> s.contains(y) || x == y,
{
    if s.contains(y) {
        let k = choose|k: int| 0 <= k < s.len() && s[k] == y;
        assert(s.push(x)[k] == y);
    }
    assert(s.push(x)[s.len() as int] == x);
}

/// All files gathered into a tree count.
pub proof fn lemma_gathered_count(files: Seq<TreeFile>)
    ensures
        counted(gathered(files)) == gathered(files),
    decreases files.len(),
{
    if files.len() > 0 {
        lemma_gathered_count(files.drop_last());
        let front = gathered(files.drop_last());
        assert forall|p: Seq<char>| #[trigger] front.dom().contains(p) implies !is_skipped(p) by {
            assert(counted(front).dom().contains(p));
        }
    }
    assert(counted(gathered(files)) =~= gathered(files));
}

/// The files that count, by path: not under a directory to leave out, and the
/// last one given for its path.
pub open spec fn gathered(files: Seq<TreeFile>) -> Map<Seq<char>, Seq<u8>>
    decreases files.len(),
{
    if files.len() == 0 {
        Map::empty()
    } else if is_skipped(files.last().path@) {
        gathered(files.drop_last())
    } else {
        gathered(files.drop_last()).insert(files.last().path@, files.last().contents@)
    }
}

/// A byte string behind its length.
pub open spec fn field_bytes(value: Seq<u8>) -> Seq<u8> {
    be64(value.len() as u64) + value
}

/// Paths and contents of a listing.
pub open spec fn file_fields(listing: Seq<(Seq<char>, Seq<u8>)>) -> Seq<u8>
    decreases listing.len(),
{
    if listing.len() == 0 {
        Seq::empty()
    } else {
        field_bytes(encode_utf8(listing[0].0)) + field_bytes(listing[0].1) + file_fields(listing.drop_first())
    }
}

/// The version tag and the number of files.
pub open spec fn tree_head(count: nat) -> Seq<u8> {
    encode_utf8("rsi-candidate-tree-v1\0"@) + field_bytes(be64(count as u64))
}

/// The bytes over which the identity of a listing is taken.
pub open spec fn tree_material(listing: Seq<(Seq<char>, Seq<u8>)>) -> Seq<u8> {
    tree_head(listing.len()) + file_fields(listing)
}

/// The identity of a tree: the digest of its paths and contents.
pub open spec fn tree_identity(tree: Map<Seq<char>, Seq<u8>>) -> Seq<char> {
    digest_hex(tree_material(listing_of(tree)))
}

proof fn lemma_fields_push(listing: Seq<(Seq<char>, Seq<u8>)>, f: (Seq<char>, Seq<u8>))
    ensures
        file_fields(listing.push(f)) == file_fields(listing) + field_bytes(encode_utf8(f.0)) + field_bytes(f.1),
    decreases listing.len(),
{
    if listing.len() == 0 {
        assert(listing.push(f).drop_first() =~= Seq::empty());
        assert(file_fields(listing.push(f).drop_first()) =~= Seq::<u8>::empty());
        assert(file_fields(listing.push(f)) =~= file_fields(listing) + field_bytes(encode_utf8(f.0)) + field_bytes(f.1));
    } else {
        lemma_fields_push(listing.drop_first(), f);
        assert(listing.push(f).drop_first() =~= listing.drop_first().push(f));
        assert(file_fields(listing.push(f)) =~= file_fields(listing) + field_bytes(encode_utf8(f.0)) + field_bytes(f.1));
    }
}

fn push_field(out: &mut Vec<u8>, value: &[u8])
    ensures
        final(out)@ == old(out)@ + field_bytes(value@),
{
    push_be64(out, value.len() as u64);
    push_bytes(out, value);
    assert(out@ =~= old(out)@ + field_bytes(value@));
}

/// No file of an ordered listing is at a path that would come before position `k`.
proof fn lemma_absent(listing: Seq<(Seq<char>, Seq<u8>)>, path: Seq<char>, k: int)
    requires
        strictly_ascending(listed_paths(listing)),
        0 <= k <= listing.len(),
        forall|j: int| 0 <= j < k ==> text_order((#[trigger] listing[j]).0, path) == Order::Less,
        k < listing.len() ==> text_order(listing[k].0, path) == Order::Greater,
    ensures
        !listed_paths(listing).contains(path),
        !by_path(listing).dom().contains(path),
{
    let paths = listed_paths(listing);
    if paths.contains(path) {
        let i = choose|i: int| 0 <= i < paths.len() && paths[i] == path;
        assert(paths[i] == listing[i].0);
        lemma_text_order_equal(path, path);
        if i > k {
            assert(paths[k] == listing[k].0);
            lemma_text_order_flip(paths[k], path);
        }
    }
}

proof fn lemma_put(listing: Seq<(Seq<char>, Seq<u8>)>, path: Seq<char>, contents: Seq<u8>, k: int)
    requires
        strictly_ascending(listed_paths(listing)),
        0 <= k < listing.len(),
        listing[k].0 == path,
    ensures
        strictly_ascending(listed_paths(listing.update(k, (path, contents)))),
        by_path(listing.update(k, (path, contents))) == by_path(listing).insert(path, contents),
{
    let after = listing.update(k, (path, contents));
    assert(listed_paths(after) =~= listed_paths(listing));
    let m = by_path(listing).insert(path, contents);
    assert forall|p: Seq<char>| #[trigger] by_path(after).dom().contains(p) <==> m.dom().contains(p) by {
        assert(listed_paths(listing)[k] == path);
    }
    assert forall|p: Seq<char>| by_path(after).dom().contains(p) implies #[trigger] by_path(after)[p] == m[p] by {
        let i = listed_paths(after).index_of(p);
        assert(listed_paths(after)[i] == after[i].0);
        lemma_by_path(after, i);
        lemma_by_path(listing, i);
        lemma_by_path(after, k);
        assert(listed_paths(listing)[i] == listing[i].0);
    }
    assert(by_path(after) =~= m);
}

proof fn lemma_add(listing: Seq<(Seq<char>, Seq<u8>)>, path: Seq<char>, contents: Seq<u8>, k: int)
    requires
        strictly_ascending(listed_paths(listing)),
        0 <= k <= listing.len(),
        forall|j: int| 0 <= j < k ==> text_order((#[trigger] listing[j]).0, path) == Order::Less,
        k < listing.len() ==> text_order(listing[k].0, path) == Order::Greater,
    ensures
        strictly_ascending(listed_paths(listing.insert(k, (path, contents)))),
        by_path(listing.insert(k, (path, contents))) == by_path(listing).insert(path, contents),
{
    let after = listing.insert(k, (path, contents));
    let paths = listed_paths(listing);
    let next = listed_paths(after);
    assert forall|i: int, j: int| #![trigger next[i], next[j]] 0 <= i < j < next.len() implies text_order(next[i], next[j])
        == Order::Less by {
        let a = if i < k {
            i
        } else {
            i - 1
        };
        let b = if j < k {
            j
        } else {
            j - 1
        };
        if i != k && j != k {
            assert(next[i] == paths[a]);
            assert(next[j] == paths[b]);
        } else if j == k {
            assert(next[i] == listing[i].0);
        } else {
            assert(next[j] == paths[j - 1]);
            assert(paths[k] == listing[k].0);
            assert(paths[j - 1] == listing[j - 1].0);
            lemma_text_order_flip(paths[k], path);
            lemma_text_order_transitive(path, paths[k], paths[j - 1]);
        }
    }
    let m = by_path(listing).insert(path, contents);
    assert forall|p: Seq<char>| #[trigger] by_path(after).dom().contains(p) <==> m.dom().contains(p) by {
        if next.contains(p) {
            let i = choose|i: int| 0 <= i < next.len() && next[i] == p;
            if i != k {
                assert(paths[if i < k {
                    i
                } else {
                    i - 1
                }] == p);
            }
        }
        if paths.contains(p) {
            let i = choose|i: int| 0 <= i < paths.len() && paths[i] == p;
            assert(next[if i < k {
                i
            } else {
                i + 1
            }] == p);
        }
        assert(next[k] == path);
    }
    assert forall|p: Seq<char>| by_path(after).dom().contains(p) implies #[trigger] by_path(after)[p] == m[p] by {
        let i = next.index_of(p);
        assert(next[i] == after[i].0);
        lemma_by_path(after, i);
        if i != k {
            let a = if i < k {
                i
            } else {
                i - 1
            };
            assert(paths[a] == listing[a].0);
            lemma_by_path(listing, a);
            lemma_absent(listing, path, k);
        }
    }
    assert(by_path(after) =~= m);
}

proof fn lemma_drop(listing: Seq<(Seq<char>, Seq<u8>)>, k: int)
    requires
        strictly_ascending(listed_paths(listing)),
        0 <= k < listing.len(),
    ensures
        strictly_ascending(listed_paths(listing.remove(k))),
        by_path(listing.remove(k)) == by_path(listing).remove(listing[k].0),
{
    let after = listing.remove(k);
    let paths = listed_paths(listing);
    let next = listed_paths(after);
    assert forall|i: int, j: int| #![trigger next[i], next[j]] 0 <= i < j < next.len() implies text_order(next[i], next[j])
        == Order::Less by {
        assert(next[i] == paths[if i < k {
            i
        } else {
            i + 1
        }]);
        assert(next[j] == paths[if j < k {
            j
        } else {
            j + 1
        }]);
    }
    let m = by_path(listing).remove(listing[k].0);
    assert(paths[k] == listing[k].0);
    assert forall|p: Seq<char>| #[trigger] by_path(after).dom().contains(p) <==> m.dom().contains(p) by {
        if next.contains(p) {
            let i = choose|i: int| 0 <= i < next.len() && next[i] == p;
            let a = if i < k {
                i
            } else {
                i + 1
            };
            assert(paths[a] == p);
            lemma_text_order_equal(paths[a], paths[k]);
            lemma_text_order_equal(paths[k], paths[a]);
        }
        if paths.contains(p) && p != listing[k].0 {
            let i = choose|i: int| 0 <= i < paths.len() && paths[i] == p;
            assert(next[if i < k {
                i
            } else {
                i - 1
            }] == p);
        }
    }
    assert forall|p: Seq<char>| by_path(after).dom().contains(p) implies #[trigger] by_path(after)[p] == m[p] by {
        let i = next.index_of(p);
        assert(next[i] == after[i].0);
        lemma_by_path(after, i);
        let a = if i < k {
            i
        } else {
            i + 1
        };
        assert(paths[a] == listing[a].0);
        lemma_by_path(listing, a);
        assert(m.dom().contains(p));
    }
    assert(by_path(after) =~= m);
}

// ---------------------------------------------------------------------------
// Laws
// ---------------------------------------------------------------------------

proof fn lemma_be64_injective(a: u64, b: u64)
    requires
        be64(a) == be64(b),
    ensures
        a == b,
{
    let (x, y) = (be64(a), be64(b));
    assert(x[0] == y[0] && x[1] == y[1] && x[2] == y[2] && x[3] == y[3]);
    assert(x[4] == y[4] && x[5] == y[5] && x[6] == y[6] && x[7] == y[7]);
    assert(a == b) by (bit_vector)
        requires
            ((a >> 56u64) & 0xff) as u8 == ((b >> 56u64) & 0xff) as u8,
            ((a >> 48u64) & 0xff) as u8 == ((b >> 48u64) & 0xff) as u8,
            ((a >> 40u64) & 0xff) as u8 == ((b >> 40u64) & 0xff) as u8,
            ((a >> 32u64) & 0xff) as u8 == ((b >> 32u64) & 0xff) as u8,
            ((a >> 24u64) & 0xff) as u8 == ((b >> 24u64) & 0xff) as u8,
            ((a >> 16u64) & 0xff) as u8 == ((b >> 16u64) & 0xff) as u8,
            ((a >> 8u64) & 0xff) as u8 == ((b >> 8u64) & 0xff) as u8,
            (a & 0xff) as u8 == (b & 0xff) as u8,
    ;
}

/// A field can be told from what follows it.
pub proof fn lemma_field_prefix(x: Seq<u8>, r: Seq<u8>, y: Seq<u8>, s: Seq<u8>)
    requires
        x.len() <= u64::MAX,
        y.len() <= u64::MAX,
        field_bytes(x) + r == field_bytes(y) + s,
    ensures
        x == y,
        r == s,
{
    let a = field_bytes(x) + r;
    let b = field_bytes(y) + s;
    assert(a.take(8) =~= be64(x.len() as u64));
    assert(b.take(8) =~= be64(y.len() as u64));
    lemma_be64_injective(x.len() as u64, y.len() as u64);
    assert(a.subrange(8, 8 + x.len() as int) =~= x);
    assert(b.subrange(8, 8 + x.len() as int) =~= y);
    assert(a.skip(8 + x.len() as int) =~= r);
    assert(b.skip(8 + x.len() as int) =~= s);
}

/// Every path and every file is within the length that a field can record.
pub open spec fn recordable(listing: Seq<(Seq<char>, Seq<u8>)>) -> bool {
    &&& listing.len() <= u64::MAX
    &&& forall|i: int|
        0 <= i < listing.len() ==> encode_utf8((#[trigger] listing[i]).0).len() <= u64::MAX && listing[i].1.len()
            <= u64::MAX
}

proof fn lemma_fields_injective(a: Seq<(Seq<char>, Seq<u8>)>, b: Seq<(Seq<char>, Seq<u8>)>)
    requires
        recordable(a),
        recordable(b),
        a.len() == b.len(),
        file_fields(a) == file_fields(b),
    ensures
        a == b,
    decreases a.len(),
{
    if a.len() > 0 {
        let (p, q) = (a.drop_first(), b.drop_first());
        assert(recordable(p)) by {
            assert forall|i: int| 0 <= i < p.len() implies encode_utf8((#[trigger] p[i]).0).len() <= u64::MAX && p[i].1.len()
                <= u64::MAX by {
                assert(p[i] == a[i + 1]);
            }
        }
        assert(recordable(q)) by {
            assert forall|i: int| 0 <= i < q.len() implies encode_utf8((#[trigger] q[i]).0).len() <= u64::MAX && q[i].1.len()
                <= u64::MAX by {
                assert(q[i] == b[i + 1]);
            }
        }
        let path_a = encode_utf8(a[0].0);
        let path_b = encode_utf8(b[0].0);
        let rest_a = field_bytes(a[0].1) + file_fields(p);
        let rest_b = field_bytes(b[0].1) + file_fields(q);
        assert(file_fields(a) =~= field_bytes(path_a) + rest_a);
        assert(file_fields(b) =~= field_bytes(path_b) + rest_b);
        lemma_field_prefix(path_a, rest_a, path_b, rest_b);
        lemma_field_prefix(a[0].1, file_fields(p), b[0].1, file_fields(q));
        vstd::utf8::encode_utf8_decode_utf8(a[0].0);
        vstd::utf8::encode_utf8_decode_utf8(b[0].0);
        lemma_fields_injective(p, q);
        assert(a[0] == b[0]);
        assert(a =~= seq![a[0]] + p);
        assert(b =~= seq![b[0]] + q);
    } else {
        assert(a =~= b);
    }
}

/// The bytes that are digested for the identity of a tree determine every path and
/// every file of it.
pub proof fn law_material_determines_tree(a: Seq<(Seq<char>, Seq<u8>)>, b: Seq<(Seq<char>, Seq<u8>)>)
    requires
        recordable(a),
        recordable(b),
        tree_material(a) == tree_material(b),
    ensures
        a == b,
{
    let tag = encode_utf8("rsi-candidate-tree-v1\0"@);
    let (x, y) = (be64(a.len() as u64), be64(b.len() as u64));
    let rest_a = field_bytes(x) + file_fields(a);
    let rest_b = field_bytes(y) + file_fields(b);
    assert(tree_material(a) =~= tag + rest_a);
    assert(tree_material(b) =~= tag + rest_b);
    assert(rest_a =~= (tag + rest_a).skip(tag.len() as int));
    assert(rest_b =~= (tag + rest_b).skip(tag.len() as int));
    lemma_field_prefix(x, file_fields(a), y, file_fields(b));
    lemma_be64_injective(a.len() as u64, b.len() as u64);
    lemma_fields_injective(a, b);
}

proof fn lemma_path_place(listing: Seq<(Seq<char>, Seq<u8>)>, path: Seq<char>) -> (k: int)
    requires
        !listed_paths(listing).contains(path),
    ensures
        0 <= k <= listing.len(),
        forall|j: int| 0 <= j < k ==> text_order((#[trigger] listing[j]).0, path) == Order::Less,
        k < listing.len() ==> text_order(listing[k].0, path) == Order::Greater,
    decreases listing.len(),
{
    if listing.len() == 0 {
        0
    } else {
        assert(listed_paths(listing)[0] == listing[0].0);
        lemma_text_order_equal(listing[0].0, path);
        if text_order(listing[0].0, path) == Order::Greater {
            0
        } else {
            let rest = listing.drop_first();
            assert(!listed_paths(rest).contains(path)) by {
                if listed_paths(rest).contains(path) {
                    let i = choose|i: int| 0 <= i < listed_paths(rest).len() && listed_paths(rest)[i] == path;
                    assert(listed_paths(listing)[i + 1] == path);
                }
            }
            let k = lemma_path_place(rest, path);
            assert forall|j: int| 0 <= j < k + 1 implies text_order((#[trigger] listing[j]).0, path) == Order::Less by {
                if j > 0 {
                    assert(text_order(rest[j - 1].0, path) == Order::Less);
                }
            }
            k + 1
        }
    }
}

proof fn lemma_bytes_insert(listing: Seq<(Seq<char>, Seq<u8>)>, k: int, f: (Seq<char>, Seq<u8>))
    requires
        0 <= k <= listing.len(),
    ensures
        byte_count(listing.insert(k, f)) == byte_count(listing) + f.1.len(),
    decreases listing.len(),
{
    if k == listing.len() {
        assert(listing.insert(k, f).drop_last() =~= listing);
    } else {
        assert(listing.insert(k, f).drop_last() =~= listing.drop_last().insert(k, f));
        assert(listing.insert(k, f).last() == listing.last());
        lemma_bytes_insert(listing.drop_last(), k, f);
    }
}

/// A finite tree is listed by its paths in ascending order, each with its contents.
pub proof fn law_trees_are_listed(tree: Map<Seq<char>, Seq<u8>>)
    requires
        tree.dom().finite(),
    ensures
        strictly_ascending(listed_paths(listing_of(tree))),
        by_path(listing_of(tree)) == tree,
        listing_of(tree).len() == tree.dom().len(),
    decreases tree.dom().len(),
{
    if tree.dom().len() == 0 {
        let none = Seq::<(Seq<char>, Seq<u8>)>::empty();
        assert(tree.dom() =~= Set::empty());
        assert(by_path(none) =~= tree);
        lemma_listing_of(none);
    } else {
        let p = tree.dom().choose();
        assert(tree.dom().contains(p));
        let less = tree.remove(p);
        law_trees_are_listed(less);
        let listing = listing_of(less);
        assert(!by_path(listing).dom().contains(p));
        let k = lemma_path_place(listing, p);
        lemma_add(listing, p, tree[p], k);
        assert(less.insert(p, tree[p]) =~= tree);
        lemma_listing_of(listing.insert(k, (p, tree[p])));
    }
}

/// One more file adds itself to the files of a tree and its bytes to the bytes; without
/// files there are none of either.
pub proof fn law_files_and_bytes_add_up(tree: Map<Seq<char>, Seq<u8>>, path: Seq<char>, contents: Seq<u8>)
    requires
        tree.dom().finite(),
        !tree.dom().contains(path),
    ensures
        listing_of(tree.insert(path, contents)).len() == listing_of(tree).len() + 1,
        byte_count(listing_of(tree.insert(path, contents))) == byte_count(listing_of(tree)) + contents.len(),
        listing_of(Map::<Seq<char>, Seq<u8>>::empty()).len() == 0,
        byte_count(listing_of(Map::<Seq<char>, Seq<u8>>::empty())) == 0,
{
    law_trees_are_listed(tree);
    law_trees_are_listed(Map::empty());
    let listing = listing_of(tree);
    let k = lemma_path_place(listing, path);
    lemma_add(listing, path, contents, k);
    lemma_listing_of(listing.insert(k, (path, contents)));
    lemma_bytes_insert(listing, k, (path, contents));
}

/// A path is left out below a directory named `target`, `.git`, `node_modules` or
/// `.rsi_backups`, at whatever depth; a name without directories never is.
pub proof fn law_skipped_paths(above: Seq<char>, dir: Seq<char>, below: Seq<char>)
    ensures
        dir == "target"@ || dir == ".git"@ || dir == "node_modules"@ || dir == ".rsi_backups"@ ==> is_skipped(
            dir + seq!['/'] + below,
        ) && is_skipped(above + seq!['/'] + (dir + seq!['/'] + below)),
        !has_char(dir, '/') ==> !is_skipped(dir),
        !has_char(dir, '/') && dir != "target"@ && dir != ".git"@ && dir != "node_modules"@ && dir != ".rsi_backups"@ ==> (
        is_skipped(dir + seq!['/'] + below) <==> is_skipped(below)),
{
    reveal_strlit("target");
    reveal_strlit(".git");
    reveal_strlit("node_modules");
    reveal_strlit(".rsi_backups");
    let dirs = skip_dirs();
    assert(dirs.len() == 4);
    assert(dirs[0] == "target"@ && dirs[1] == ".git"@ && dirs[2] == "node_modules"@ && dirs[3] == ".rsi_backups"@);
    let path = dir + seq!['/'] + below;
    law_split_by_pieces(dir, below, '/');
    law_split_by_pieces(below, below, '/');
    law_split_by_pieces(above, path, '/');
    if dir == "target"@ || dir == ".git"@ || dir == "node_modules"@ || dir == ".rsi_backups"@ {
        assert(!has_char(dir, '/'));
        assert(dirs.contains(dir));
        let parts = split(path, '/');
        assert(parts[0] == dir);
        let deep = split(above + seq!['/'] + path, '/');
        assert(deep[split(above, '/').len() as int] == dir);
    } else if !has_char(dir, '/') {
        assert(!dirs.contains(dir));
        let parts = split(path, '/');
        let rest = split(below, '/');
        assert(parts =~= seq![dir] + rest);
        if is_skipped(below) {
            let i = choose|i: int| 0 <= i < rest.len() - 1 && dirs.contains(#[trigger] rest[i]);
            assert(parts[i + 1] == rest[i]);
        }
        if is_skipped(path) {
            let i = choose|i: int| 0 <= i < parts.len() - 1 && dirs.contains(#[trigger] parts[i]);
            assert(i > 0);
            assert(rest[i - 1] == parts[i]);
        }
    }
}

/// Gathered files are those that are not left out, each path with what was given for it
/// last.
pub proof fn law_gathered_files(files: Seq<TreeFile>)
    ensures
        gathered(files).dom().finite(),
        forall|p: Seq<char>|
            #[trigger] gathered(files).dom().contains(p) <==> !is_skipped(p) && exists|i: int|
                0 <= i < files.len() && (#[trigger] files[i]).path@ == p,
        forall|i: int|
            0 <= i < files.len() && !is_skipped((#[trigger] files[i]).path@) && (forall|later: int|
                i < later < files.len() ==> (#[trigger] files[later]).path@ != files[i].path@) ==> gathered(
                files,
            )[files[i].path@] == files[i].contents@,
    decreases files.len(),
{
    if files.len() > 0 {
        let front = files.drop_last();
        let n = front.len() as int;
        law_gathered_files(front);
        assert(forall|i: int| 0 <= i < n ==> #[trigger] front[i] == files[i]);
        assert(files[n] == files.last());
        let tree = gathered(files);
        assert forall|p: Seq<char>| #[trigger] tree.dom().contains(p) <==> !is_skipped(p) && exists|i: int|
            0 <= i < files.len() && (#[trigger] files[i]).path@ == p by {
            if gathered(front).dom().contains(p) {
                let i = choose|i: int| 0 <= i < front.len() && (#[trigger] front[i]).path@ == p;
                assert(files[i].path@ == p);
            }
            if !is_skipped(p) && exists|i: int| 0 <= i < files.len() && (#[trigger] files[i]).path@ == p {
                let i = choose|i: int| 0 <= i < files.len() && (#[trigger] files[i]).path@ == p;
                if i < n {
                    assert(front[i].path@ == p);
                    assert(gathered(front).dom().contains(p));
                }
            }
        }
        assert forall|i: int|
            0 <= i < files.len() && !is_skipped((#[trigger] files[i]).path@) && (forall|later: int|
                i < later < files.len() ==> (#[trigger] files[later]).path@ != files[i].path@) implies tree[files[i].path@]
            == files[i].contents@ by {
            if i < n {
                assert(front[i] == files[i]);
                assert forall|later: int| i < later < front.len() implies (#[trigger] front[later]).path@
                    != front[i].path@ by {
                    assert(files[later].path@ != files[i].path@);
                }
                assert(files[n].path@ != files[i].path@);
            }
        }
    }
}

/// What counts of a tree are its files that are not left out.
pub proof fn law_counted_files(tree: Map<Seq<char>, Seq<u8>>, path: Seq<char>)
    ensures
        counted(tree).dom().contains(path) <==> tree.dom().contains(path) && !is_skipped(path),
        counted(tree).dom().contains(path) ==> counted(tree)[path] == tree[path],
{
}

} // verus!
