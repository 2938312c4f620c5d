//! The evolutionary engine: which variants enter the archive.
//!
//! Variants are evaluated on snapshots; the live tree is never written. A variant
//! enters only when everything is green, when its target may be edited, and when its
//! score reaches that of the best so far, raised by the least gain that counts.
//!
//! The engine of this module covers these decisions alone: scores are whole thousandths,
//! and one evaluated patch is considered at a time. Who proposes and who evaluates lies
//! with the caller.

use vstd::prelude::*;

use crate::file_tree::FileTree;
use crate::patchset::{FileOperation, PatchFailure, PatchSet};
use crate::text::{contains_text, texts, IntoText};

verus! {

/// A replacement of one text in one file.
#[derive(Debug, PartialEq, Eq)]
pub struct Patch {
    pub target: String,
    pub find: String,
    pub replace: String,
}

impl Clone for Patch {
    fn clone(&self) -> (r: Self)
        ensures
            r == *self,
    {
        Patch { target: self.target.clone(), find: self.find.clone(), replace: self.replace.clone() }
    }
}

impl Patch {
    pub fn new(target: impl IntoText, find: impl IntoText, replace: impl IntoText) -> (r: Self)
        ensures
            r.target@ == target.text(),
            r.find@ == find.text(),
            r.replace@ == replace.text(),
    {
        Patch { target: target.into_text(), find: find.into_text(), replace: replace.into_text() }
    }
}

/// What the evaluation of a variant gave. The score is counted in thousandths.
#[derive(Debug, Clone, Copy, PartialEq, Eq, Structural)]
pub struct Fitness {
    pub compiles: bool,
    pub tests_passed: u32,
    pub tests_failed: u32,
    pub score_milli: i64,
}

impl Fitness {
    /// It compiles and no test fails.
    pub open spec fn all_green(&self) -> bool {
        self.compiles && self.tests_failed == 0
    }

    pub fn is_all_green(&self) -> (r: bool)
        ensures
            r == self.all_green(),
    {
        self.compiles && self.tests_failed == 0
    }
}

pub open spec fn magnitude(x: int) -> int {
    if x < 0 {
        -x
    } else {
        x
    }
}

/// A variant may follow a reference: all green, not worse, and better by at least the
/// given share of the reference, in millionths.
pub open spec fn admits(reference: Fitness, candidate: Fitness, min_gain_ppm: u32) -> bool {
    &&& candidate.all_green()
    &&& candidate.score_milli >= reference.score_milli
    &&& (candidate.score_milli - reference.score_milli) * 1_000_000 >= min_gain_ppm * magnitude(
        reference.score_milli as int,
    )
}

pub fn gate_admits(reference: &Fitness, candidate: &Fitness, min_gain_ppm: u32) -> (r: bool)
    ensures
        r == admits(*reference, *candidate, min_gain_ppm),
{
    if !candidate.is_all_green() || candidate.score_milli < reference.score_milli {
        return false;
    }
    let gain: i128 = (candidate.score_milli as i128 - reference.score_milli as i128) * 1_000_000;
    let size: i128 = if reference.score_milli < 0 {
        -(reference.score_milli as i128)
    } else {
        reference.score_milli as i128
    };
    assert(0 <= size <= 0x8000_0000_0000_0000);
    assert(0 <= min_gain_ppm * size <= 0xffff_ffff * 0x8000_0000_0000_0000) by (nonlinear_arith)
        requires
            0 <= size <= 0x8000_0000_0000_0000,
            0 <= min_gain_ppm <= 0xffff_ffff,
    ;
    let least: i128 = min_gain_ppm as i128 * size;
    gain >= least
}

/// A variant of the archive: the root has no patch.
#[derive(Debug, PartialEq, Eq)]
pub struct Variant {
    pub patch: Option<Patch>,
    pub fitness: Fitness,
}

#[derive(Debug, PartialEq, Eq)]
pub struct Archive {
    pub variants: Vec<Variant>,
}

/// The position of the highest score, the first of them where several are equal.
pub open spec fn best_position(variants: Seq<Variant>) -> int
    decreases variants.len(),
{
    if variants.len() <= 1 {
        0
    } else {
        let k = best_position(variants.drop_last());
        if variants[k].fitness.score_milli < variants.last().fitness.score_milli {
            variants.len() - 1
        } else {
            k
        }
    }
}

proof fn lemma_best_position(variants: Seq<Variant>)
    requires
        variants.len() > 0,
    ensures
        0 <= best_position(variants) < variants.len(),
        forall|i: int|
            0 <= i < variants.len() ==> (#[trigger] variants[i]).fitness.score_milli <= variants[best_position(
                variants,
            )].fitness.score_milli,
    decreases variants.len(),
{
    if variants.len() > 1 {
        let front = variants.drop_last();
        lemma_best_position(front);
        assert forall|i: int| 0 <= i < variants.len() implies (#[trigger] variants[i]).fitness.score_milli
            <= variants[best_position(variants)].fitness.score_milli by {
            if i < front.len() {
                assert(front[i] == variants[i]);
            }
            assert(front[best_position(front)] == variants[best_position(front)]);
        }
    }
}

impl Archive {
    pub open spec fn has_root(&self) -> bool {
        self.variants@.len() > 0
    }

    /// The fitness of the best variant.
    pub open spec fn best_fitness(&self) -> Fitness {
        self.variants@[best_position(self.variants@)].fitness
    }

    pub fn with_root(fitness: Fitness) -> (r: Self)
        ensures
            r.variants@ == seq![Variant { patch: None, fitness }],
            r.has_root(),
            r.best_fitness() == fitness,
    {
        let mut variants: Vec<Variant> = Vec::new();
        variants.push(Variant { patch: None, fitness });
        let r = Archive { variants };
        assert(r.variants@ =~= seq![Variant { patch: None, fitness }]);
        r
    }

    pub fn len(&self) -> (r: usize)
        ensures
            r == self.variants@.len(),
    {
        self.variants.len()
    }

    /// The best variant.
    pub fn best(&self) -> (r: &Variant)
        requires
            self.has_root(),
        ensures
            *r == self.variants@[best_position(self.variants@)],
            forall|i: int|
                0 <= i < self.variants@.len() ==> (#[trigger] self.variants@[i]).fitness.score_milli
                    <= r.fitness.score_milli,
    {
        let ghost all = self.variants@;
        let mut k: usize = 0;
        let mut i: usize = 1;
        assert(all.take(1).len() == 1);
        while i < self.variants.len()
            invariant
                1 <= i <= self.variants@.len(),
                all == self.variants@,
                k < i,
                k == best_position(all.take(i as int)),
            decreases self.variants@.len() - i,
        {
            proof {
                assert(all.take(i + 1).drop_last() =~= all.take(i as int));
                assert(all.take(i + 1).last() == all[i as int]);
                assert(all.take(i + 1)[k as int] == all[k as int]);
            }
            if self.variants[k].fitness.score_milli < self.variants[i].fitness.score_milli {
                k = i;
            }
            i += 1;
        }
        proof {
            assert(all.take(i as int) =~= all);
            lemma_best_position(all);
        }
        &self.variants[k]
    }
}

/// The limits of a search.
#[derive(Debug, PartialEq, Eq)]
pub struct DgmConfig {
    /// The least gain that counts, in millionths of the reference.
    pub min_score_gain_ppm: u32,
    /// The files that may be edited; every file where there is no list.
    pub allow: Option<Vec<String>>,
}

impl DgmConfig {
    pub open spec fn allows(&self, target: Seq<char>) -> bool {
        match self.allow {
            Some(list) => texts(list@).contains(target),
            None => true,
        }
    }

    pub fn may_edit(&self, target: &str) -> (r: bool)
        ensures
            r == self.allows(target@),
    {
        match &self.allow {
            Some(list) => contains_text(list.as_slice(), target),
            None => true,
        }
    }
}

/// The patch set of a patch.
pub open spec fn is_patch_set_of(set: PatchSet, patch: Patch) -> bool {
    &&& set.operations@.len() == 1
    &&& set.operations@[0] matches FileOperation::ModifyExact { path, expected, replacement }
    &&& path@ == patch.target@
    &&& expected@ == patch.find@
    &&& replacement@ == patch.replace@
}

/// A search over a live tree.
pub struct DgmEngine {
    pub archive: Archive,
    pub config: DgmConfig,
    pub live: FileTree,
}

impl DgmEngine {
    pub fn new(archive: Archive, config: DgmConfig, live: FileTree) -> (r: Self)
        ensures
            r.archive == archive,
            r.config == config,
            r.live == live,
    {
        DgmEngine { archive, config, live }
    }

    /// The isolated tree on which a patch is to be evaluated, if the patch may be
    /// proposed and fits the live tree.
    pub fn snapshot(&self, patch: &Patch) -> (r: Option<FileTree>)
        ensures
            r is Some ==> self.config.allows(patch.target@),
            r matches Some(tree) ==> exists|set: PatchSet|
                is_patch_set_of(set, *patch) && #[trigger] set.effect(self.live@) == Ok::<
                    Map<Seq<char>, Seq<u8>>,
                    PatchFailure,
                >(tree@),
            r is None && self.config.allows(patch.target@) ==> forall|set: PatchSet|
                is_patch_set_of(set, *patch) ==> (#[trigger] set.effect(self.live@)) is Err,
    {
        if !self.config.may_edit(patch.target.as_str()) {
            return None;
        }
        let mut operations: Vec<FileOperation> = Vec::new();
        operations.push(FileOperation::modify_exact(patch.target.clone(), patch.find.clone(), patch.replace.clone()));
        let set = PatchSet { operations };
        assert(is_patch_set_of(set, *patch));
        match set.materialize(&self.live) {
            Ok(tree) => Some(tree),
            Err(_) => {
                proof {
                    assert forall|other: PatchSet| is_patch_set_of(other, *patch) implies (#[trigger] other.effect(
                        self.live@,
                    )) is Err by {
                        lemma_same_effect(set, other, *patch, self.live@);
                    }
                }
                None
            },
        }
    }

    /// Decides on an evaluated patch. The variant enters the archive when its target may
    /// be edited and it is admitted against the best so far.
    pub fn consider(&mut self, patch: Patch, fitness: Fitness) -> (accepted: bool)
        requires
            old(self).archive.has_root(),
        ensures
            accepted == (old(self).config.allows(patch.target@) && admits(
                old(self).archive.best_fitness(),
                fitness,
                old(self).config.min_score_gain_ppm,
            )),
            accepted ==> final(self).archive.variants@ == old(self).archive.variants@.push(
                Variant { patch: Some(patch), fitness },
            ),
            !accepted ==> final(self).archive == old(self).archive,
            final(self).archive.has_root(),
            final(self).archive.best_fitness().score_milli >= old(self).archive.best_fitness().score_milli,
            final(self).live == old(self).live,
            final(self).config == old(self).config,
    {
        if !self.config.may_edit(patch.target.as_str()) {
            return false;
        }
        let reference: Fitness = self.archive.best().fitness;
        if !gate_admits(&reference, &fitness, self.config.min_score_gain_ppm) {
            return false;
        }
        let ghost before = self.archive.variants@;
        self.archive.variants.push(Variant { patch: Some(patch), fitness });
        proof {
            lemma_best_position(before);
            lemma_best_position(self.archive.variants@);
            assert(self.archive.variants@[best_position(before)] == before[best_position(before)]);
        }
        true
    }
}

/// A patch has one effect, however its patch set is held.
proof fn lemma_same_effect(a: PatchSet, b: PatchSet, patch: Patch, tree: Map<Seq<char>, Seq<u8>>)
    requires
        is_patch_set_of(a, patch),
        is_patch_set_of(b, patch),
    ensures
        a.effect(tree) == b.effect(tree),
{
    crate::patchset::lemma_same_modification(a, b, tree);
}

// ---------------------------------------------------------------------------
// Laws
// ---------------------------------------------------------------------------

/// A score buys nothing without green tests.
pub proof fn law_gate_needs_green(reference: Fitness, candidate: Fitness, min_gain_ppm: u32)
    requires
        admits(reference, candidate, min_gain_ppm),
    ensures
        candidate.compiles,
        candidate.tests_failed == 0,
        candidate.score_milli >= reference.score_milli,
{
}

/// A gain below the threshold is not admitted.
pub proof fn law_gate_rejects_noise(reference: Fitness, candidate: Fitness, min_gain_ppm: u32)
    requires
        reference.score_milli > 0,
        (candidate.score_milli - reference.score_milli) * 1_000_000 < min_gain_ppm * reference.score_milli,
    ensures
        !admits(reference, candidate, min_gain_ppm),
{
}

/// A candidate is admitted exactly where it compiles, fails no test, is no worse, and gains
/// at least the given share of what the reference scores, whatever the sign of that.
pub proof fn law_admission(reference: Fitness, candidate: Fitness, min_gain_ppm: u32)
    ensures
        ({
            let gain = candidate.score_milli - reference.score_milli;
            let green = candidate.compiles && candidate.tests_failed == 0;
            &&& reference.score_milli >= 0 ==> (admits(reference, candidate, min_gain_ppm) <==> green && gain >= 0 && gain
                * 1_000_000 >= min_gain_ppm * reference.score_milli)
            &&& reference.score_milli < 0 ==> (admits(reference, candidate, min_gain_ppm) <==> green && gain >= 0 && gain
                * 1_000_000 >= min_gain_ppm * (-reference.score_milli))
            &&& min_gain_ppm == 0 ==> (admits(reference, candidate, min_gain_ppm) <==> green && gain >= 0)
        }),
{
    if min_gain_ppm == 0 {
        assert(min_gain_ppm * magnitude(reference.score_milli as int) == 0) by (nonlinear_arith)
            requires
                min_gain_ppm == 0,
        ;
    }
}

/// What is admitted stays so with a higher score or a lower demand.
pub proof fn law_admission_is_monotone(reference: Fitness, candidate: Fitness, better: Fitness, least: u32, less: u32)
    requires
        admits(reference, candidate, least),
        better.compiles,
        better.tests_failed == 0,
        better.score_milli >= candidate.score_milli,
        less <= least,
    ensures
        admits(reference, better, less),
{
    let m = magnitude(reference.score_milli as int);
    assert(less * m <= least * m) by (nonlinear_arith)
        requires
            less <= least,
            m >= 0,
    ;
}

/// The best variant is the first that none scores above.
pub proof fn law_best_is_the_first_highest(variants: Seq<Variant>)
    requires
        variants.len() > 0,
    ensures
        0 <= best_position(variants) < variants.len(),
        forall|i: int|
            0 <= i < variants.len() ==> (#[trigger] variants[i]).fitness.score_milli <= variants[best_position(
                variants,
            )].fitness.score_milli,
        forall|i: int|
            0 <= i < best_position(variants) ==> (#[trigger] variants[i]).fitness.score_milli < variants[best_position(
                variants,
            )].fitness.score_milli,
    decreases variants.len(),
{
    if variants.len() > 1 {
        let front = variants.drop_last();
        law_best_is_the_first_highest(front);
        let k = best_position(front);
        assert(forall|i: int| 0 <= i < front.len() ==> #[trigger] front[i] == variants[i]);
        assert(variants[variants.len() - 1] == variants.last());
        assert forall|i: int| 0 <= i < variants.len() implies (#[trigger] variants[i]).fitness.score_milli
            <= variants[best_position(variants)].fitness.score_milli by {
            if i < front.len() {
                assert(front[i].fitness.score_milli <= front[k].fitness.score_milli);
            }
        }
        assert forall|i: int| 0 <= i < best_position(variants) implies (#[trigger] variants[i]).fitness.score_milli
            < variants[best_position(variants)].fitness.score_milli by {
            assert(front[i].fitness.score_milli <= front[k].fitness.score_milli);
        }
    }
}

} // verus!
