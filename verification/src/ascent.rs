//! The bounded elitist ascent: a revision is adopted only if it is strictly better.
//!
//! The caller scores and revises candidates; each score comes here with the bar that it
//! has to pass, the best score so far raised by the least gain that counts. What is
//! adopted, what is counted and when the ascent ends is decided here.

use vstd::prelude::*;

use crate::measure::Measure;

verus! {

/// The bounds of an ascent.
#[derive(Debug, Clone, Copy)]
pub struct Guard {
    pub max_iters: usize,
    pub patience: usize,
    pub target: Option<Measure>,
    pub min_delta: Measure,
}

impl Default for Guard {
    fn default() -> (r: Self)
        ensures
            r.max_iters == 50,
            r.patience == 0,
            r.target is None,
            r.min_delta.bits == 0,
    {
        Guard { max_iters: 50, patience: 0, target: None, min_delta: Measure::zero() }
    }
}

impl Guard {
    pub fn new() -> (r: Self)
        ensures
            r.max_iters == 50,
            r.patience == 0,
            r.target is None,
            r.min_delta.bits == 0,
    {
        Guard::default()
    }

    /// The hard bound on the number of iterations.
    pub fn max_iters(self, n: usize) -> (r: Self)
        ensures
            r == (Guard { max_iters: n, ..self }),
    {
        Guard { max_iters: n, ..self }
    }

    /// Ends the ascent after `n` iterations in a row without a gain; never, for 0.
    pub fn patience(self, n: usize) -> (r: Self)
        ensures
            r == (Guard { patience: n, ..self }),
    {
        Guard { patience: n, ..self }
    }

    /// Ends the ascent once the best score reaches `t`.
    pub fn target(self, t: Measure) -> (r: Self)
        ensures
            r == (Guard { target: Some(t), ..self }),
    {
        Guard { target: Some(t), ..self }
    }

    /// The gain that a revision has to exceed; none where `d` is not positive.
    pub fn min_delta(self, d: Measure) -> (r: Self)
        ensures
            r == (Guard {
                min_delta: if (Measure { bits: 0 }).below(d) {
                    d
                } else {
                    Measure { bits: 0 }
                },
                ..self
            }),
    {
        let least: Measure = if Measure::zero().is_below(&d) { d } else { Measure::zero() };
        Guard { min_delta: least, ..self }
    }
}

/// Why an ascent ended.
#[derive(Debug, Clone, Copy, PartialEq, Eq, Structural)]
pub enum StopReason {
    MaxIters,
    Patience,
    Target,
}

/// The account of an ascent.
#[derive(Debug)]
pub struct Report {
    /// The best score after each iteration; the first is that of the start.
    pub history: Vec<Measure>,
    pub iters: usize,
    /// How many revisions were adopted.
    pub accepted: usize,
    pub stop: StopReason,
}

/// Each item reaches the item before it, lowered by the caller's tolerance.
pub open spec fn monotone(history: Seq<Measure>, lowered: Seq<Measure>) -> bool {
    forall|i: int| 0 <= i < history.len() - 1 ==> (#[trigger] history[i + 1]).reaches(lowered[i])
}

impl Report {
    /// The best score reached; negative infinity for an empty history.
    pub fn best(&self) -> (r: Measure)
        ensures
            self.history@.len() > 0 ==> r == self.history@.last(),
            self.history@.len() == 0 ==> r.bits == 0xfff0_0000_0000_0000,
    {
        let n: usize = self.history.len();
        if n == 0 {
            Measure::from_bits(0xfff0_0000_0000_0000)
        } else {
            self.history[n - 1]
        }
    }

    /// No score falls. `lowered` holds each score less the tolerance.
    pub fn is_monotone(&self, lowered: &[Measure]) -> (r: bool)
        requires
            lowered@.len() == self.history@.len(),
        ensures
            r == monotone(self.history@, lowered@),
    {
        let n: usize = self.history.len();
        let mut i: usize = 0;
        while n > 0 && i < n - 1
            invariant
                n == self.history@.len(),
                lowered@.len() == n,
                0 <= i,
                i < n || i == 0,
                forall|k: int| 0 <= k < i ==> (#[trigger] self.history@[k + 1]).reaches(lowered@[k]),
            decreases n - i,
        {
            if !self.history[i + 1].is_at_least(&lowered[i]) {
                assert(!self.history@[i + 1].reaches(lowered@[i as int]));
                return false;
            }
            i += 1;
        }
        true
    }
}

/// An ascent under way.
#[derive(Debug)]
pub struct Ascent<C> {
    pub best: C,
    pub history: Vec<Measure>,
    pub iters: usize,
    pub accepted: usize,
    /// Iterations since the last adoption.
    pub stale: usize,
    pub stop: Option<StopReason>,
}

/// Why an ascent ends after so many iterations, if it does: the target comes before
/// patience, and patience before the bound.
pub open spec fn stop_after(guard: Guard, best: Measure, stale: int, iters: int) -> Option<StopReason> {
    if guard.target is Some && best.reaches(guard.target->0) {
        Some(StopReason::Target)
    } else if guard.patience > 0 && stale >= guard.patience {
        Some(StopReason::Patience)
    } else if iters >= guard.max_iters {
        Some(StopReason::MaxIters)
    } else {
        None
    }
}

impl<C> Ascent<C> {
    /// One score for the start and one for each iteration, no count above that of the
    /// iterations, no change of the best score since the last adoption, and the end that
    /// the last iteration calls for.
    pub open spec fn wf(&self, guard: Guard) -> bool {
        &&& self.history@.len() == self.iters + 1
        &&& self.accepted <= self.iters
        &&& self.stale <= self.iters
        &&& self.iters <= guard.max_iters
        &&& self.stop is None ==> self.iters < guard.max_iters
        &&& forall|k: int|
            self.iters - self.stale <= k <= self.iters ==> #[trigger] self.history@[k] == self.best_score()
        &&& self.iters == 0 && self.stop is Some ==> guard.max_iters == 0 && self.stop == Some(StopReason::MaxIters)
        &&& self.iters > 0 ==> self.stop == stop_after(
            guard,
            self.best_score(),
            self.stale as int,
            self.iters as int,
        )
    }

    /// The ascent from a score through revisions, each a score with its bar.
    pub open spec fn follows(&self, start: Measure, revisions: Seq<(Measure, Measure)>) -> bool {
        &&& self.history@ == incumbents(start, revisions)
        &&& self.iters == revisions.len()
        &&& self.accepted == adoptions(revisions)
        &&& self.stale == idle(revisions)
    }

    /// The score of the best candidate.
    pub open spec fn best_score(&self) -> Measure {
        self.history@.last()
    }

    /// Starts from a scored candidate. With no iteration allowed it has ended already.
    pub fn start(init: C, score: Measure, guard: &Guard) -> (r: Self)
        ensures
            r.wf(*guard),
            r.best == init,
            r.history@ == seq![score],
            r.iters == 0,
            r.accepted == 0,
            r.stale == 0,
            r.stop == (if guard.max_iters == 0 {
                Some(StopReason::MaxIters)
            } else {
                None
            }),
            r.follows(score, Seq::empty()),
    {
        let stop: Option<StopReason> = if guard.max_iters == 0 {
            Some(StopReason::MaxIters)
        } else {
            None
        };
        let mut history: Vec<Measure> = Vec::new();
        history.push(score);
        Ascent { best: init, history, iters: 0, accepted: 0, stale: 0, stop }
    }

    /// Takes a revision with its score and the bar to pass: it replaces the best
    /// candidate if the score is above the bar.
    pub fn observe(&mut self, revision: C, score: Measure, bar: Measure, guard: &Guard)
        requires
            old(self).wf(*guard),
            old(self).stop is None,
        ensures
            final(self).wf(*guard),
            final(self).iters == old(self).iters + 1,
            bar.below(score) ==> {
                &&& final(self).best == revision
                &&& final(self).history@ == old(self).history@.push(score)
                &&& final(self).accepted == old(self).accepted + 1
                &&& final(self).stale == 0
            },
            !bar.below(score) ==> {
                &&& final(self).best == old(self).best
                &&& final(self).history@ == old(self).history@.push(old(self).best_score())
                &&& final(self).accepted == old(self).accepted
                &&& final(self).stale == old(self).stale + 1
            },
            final(self).stop == stop_after(
                *guard,
                final(self).best_score(),
                final(self).stale as int,
                final(self).iters as int,
            ),
            forall|start: Measure, revisions: Seq<(Measure, Measure)>| #[trigger]
                old(self).follows(start, revisions) ==> final(self).follows(start, revisions.push((score, bar))),
    {
        let ghost before = *self;
        self.iters = self.iters + 1;
        if bar.is_below(&score) {
            self.best = revision;
            self.history.push(score);
            self.accepted = self.accepted + 1;
            self.stale = 0;
        } else {
            let kept: Measure = self.history[self.history.len() - 1];
            self.history.push(kept);
            self.stale = self.stale + 1;
        }
        let best: Measure = self.history[self.history.len() - 1];
        let reached: bool = match &guard.target {
            Some(t) => best.is_at_least(t),
            None => false,
        };
        self.stop = if reached {
            Some(StopReason::Target)
        } else if guard.patience > 0 && self.stale >= guard.patience {
            Some(StopReason::Patience)
        } else if self.iters >= guard.max_iters {
            Some(StopReason::MaxIters)
        } else {
            None
        };
        proof {
            assert forall|start: Measure, revisions: Seq<(Measure, Measure)>| #[trigger]
                before.follows(start, revisions) implies self.follows(start, revisions.push((score, bar))) by {
                assert(revisions.push((score, bar)).drop_last() =~= revisions);
            }
        }
    }

    /// The best candidate and the account of an ascent that has ended.
    pub fn finish(self, guard: &Guard) -> (r: (C, Report))
        requires
            self.wf(*guard),
            self.stop is Some,
        ensures
            r.0 == self.best,
            r.1.history@ == self.history@,
            r.1.iters == self.iters,
            r.1.accepted == self.accepted,
            Some(r.1.stop) == self.stop,
            r.1.iters <= guard.max_iters,
            r.1.history@.len() == r.1.iters + 1,
    {
        let stop: StopReason = match self.stop {
            Some(s) => s,
            None => StopReason::MaxIters,
        };
        (self.best, Report { history: self.history, iters: self.iters, accepted: self.accepted, stop })
    }
}

/// The best scores after a run of revisions, each a score with its bar.
pub open spec fn incumbents(start: Measure, revisions: Seq<(Measure, Measure)>) -> Seq<Measure>
    decreases revisions.len(),
{
    if revisions.len() == 0 {
        seq![start]
    } else {
        let before = incumbents(start, revisions.drop_last());
        let (score, bar) = revisions.last();
        before.push(if bar.below(score) {
            score
        } else {
            before.last()
        })
    }
}

/// How many revisions pass their bars.
pub open spec fn adoptions(revisions: Seq<(Measure, Measure)>) -> nat
    decreases revisions.len(),
{
    if revisions.len() == 0 {
        0
    } else {
        let (score, bar) = revisions.last();
        adoptions(revisions.drop_last()) + (if bar.below(score) {
            1nat
        } else {
            0nat
        })
    }
}

/// How many revisions at the end do not pass their bars.
pub open spec fn idle(revisions: Seq<(Measure, Measure)>) -> nat
    decreases revisions.len(),
{
    if revisions.len() == 0 {
        0
    } else {
        let (score, bar) = revisions.last();
        if bar.below(score) {
            0
        } else {
            idle(revisions.drop_last()) + 1
        }
    }
}

/// How often a history rises.
pub open spec fn rises(history: Seq<Measure>) -> nat
    decreases history.len(),
{
    if history.len() < 2 {
        0
    } else {
        rises(history.drop_last()) + (if history[history.len() - 2].below(history.last()) {
            1nat
        } else {
            0nat
        })
    }
}

/// Over a whole ascent, as many revisions are adopted as the history has strict rises,
/// where each bar reaches the best score at its time or is no number.
pub proof fn law_adoptions_are_the_rises<C>(a: Ascent<C>, start: Measure, revisions: Seq<(Measure, Measure)>)
    requires
        a.follows(start, revisions),
        forall|k: int|
            0 <= k < revisions.len() ==> (#[trigger] revisions[k]).1.nan() || revisions[k].1.reaches(
                incumbents(start, revisions)[k],
            ),
    ensures
        a.accepted == rises(a.history@),
{
    lemma_adoptions_are_rises(start, revisions);
}

proof fn lemma_adoptions_are_rises(start: Measure, revisions: Seq<(Measure, Measure)>)
    requires
        forall|k: int|
            0 <= k < revisions.len() ==> (#[trigger] revisions[k]).1.nan() || revisions[k].1.reaches(
                incumbents(start, revisions)[k],
            ),
    ensures
        adoptions(revisions) == rises(incumbents(start, revisions)),
    decreases revisions.len(),
{
    if revisions.len() > 0 {
        let front = revisions.drop_last();
        let all = incumbents(start, revisions);
        let before = incumbents(start, front);
        lemma_incumbents_length(start, front);
        assert forall|k: int| 0 <= k < front.len() implies (#[trigger] front[k]).1.nan() || front[k].1.reaches(before[k]) by {
            assert(front[k] == revisions[k]);
            assert(all[k] == before[k]);
        }
        lemma_adoptions_are_rises(start, front);
        assert(all.drop_last() =~= before);
        assert(all[all.len() - 2] == before.last());
        assert(revisions[revisions.len() - 1] == revisions.last());
    }
}

/// An ascent that ends for patience adopted nothing in as many iterations at its end as
/// patience allows: none of those revisions passed its bar, and the best score stayed.
pub proof fn law_patience_ends_idle_ascents<C>(a: Ascent<C>, guard: Guard, start: Measure, revisions: Seq<(Measure, Measure)>)
    requires
        a.wf(guard),
        a.follows(start, revisions),
        a.stop == Some(StopReason::Patience),
    ensures
        0 < guard.patience <= revisions.len(),
        forall|k: int|
            revisions.len() - guard.patience <= k < revisions.len() ==> !(#[trigger] revisions[k]).1.below(revisions[k].0),
        forall|k: int|
            revisions.len() - guard.patience <= k <= revisions.len() ==> #[trigger] a.history@[k] == a.best_score(),
{
    lemma_idle(revisions);
}

proof fn lemma_idle(revisions: Seq<(Measure, Measure)>)
    ensures
        idle(revisions) <= revisions.len(),
        forall|k: int|
            revisions.len() - idle(revisions) <= k < revisions.len() ==> !(#[trigger] revisions[k]).1.below(revisions[k].0),
    decreases revisions.len(),
{
    if revisions.len() > 0 {
        let front = revisions.drop_last();
        lemma_idle(front);
        assert forall|k: int| revisions.len() - idle(revisions) <= k < revisions.len() implies !(#[trigger] revisions[k]).1.below(
            revisions[k].0,
        ) by {
            if k < front.len() {
                assert(front[k] == revisions[k]);
            }
        }
    }
}

/// Elitism: where each bar reaches the best score at its time, as a bar does that is
/// raised by no less than nothing, no best score lies below an earlier one.
pub proof fn law_ascent_never_regresses(start: Measure, revisions: Seq<(Measure, Measure)>, i: int, j: int)
    requires
        !start.nan(),
        forall|k: int|
            0 <= k < revisions.len() ==> (#[trigger] revisions[k]).1.reaches(
                incumbents(start, revisions)[k],
            ),
        0 <= i <= j <= revisions.len(),
    ensures
        incumbents(start, revisions).len() == revisions.len() + 1,
        incumbents(start, revisions)[j].reaches(incumbents(start, revisions)[i]),
    decreases revisions.len(),
{
    if revisions.len() > 0 {
        let front = revisions.drop_last();
        let all = incumbents(start, revisions);
        let before = incumbents(start, front);
        lemma_incumbents_length(start, front);
        assert forall|k: int| 0 <= k < front.len() implies (#[trigger] front[k]).1.reaches(before[k]) by {
            assert(front[k] == revisions[k]);
            assert(all[k] == before[k]);
        }
        if j < revisions.len() {
            law_ascent_never_regresses(start, front, i, j);
        } else {
            law_ascent_never_regresses(start, front, 0, front.len() as int);
            if i < j {
                law_ascent_never_regresses(start, front, i, j - 1);
            }
            assert(revisions[revisions.len() - 1].1.reaches(all[revisions.len() - 1]));
        }
    }
}

proof fn lemma_incumbents_length(start: Measure, revisions: Seq<(Measure, Measure)>)
    ensures
        incumbents(start, revisions).len() == revisions.len() + 1,
    decreases revisions.len(),
{
    if revisions.len() > 0 {
        lemma_incumbents_length(start, revisions.drop_last());
    }
}

/// Patience and the bound end every ascent: at the bound no ascent is still open.
pub proof fn law_ascent_ends_at_the_bound(guard: Guard, best: Measure, stale: int)
    ensures
        stop_after(guard, best, stale, guard.max_iters as int) is Some,
{
}

/// An ascent ends exactly at its target, after its patience, or at its bound, and is told
/// the first of these that holds.
pub proof fn law_reasons_to_stop(guard: Guard, best: Measure, stale: int, iters: int)
    ensures
        ({
            let at_target = match guard.target {
                Some(t) => best.reaches(t),
                None => false,
            };
            let out_of_patience = guard.patience != 0 && guard.patience <= stale;
            let stop = stop_after(guard, best, stale, iters);
            &&& stop is None <==> !at_target && !out_of_patience && iters < guard.max_iters
            &&& stop == Some(StopReason::Target) <==> at_target
            &&& stop == Some(StopReason::Patience) <==> out_of_patience && !at_target
            &&& stop == Some(StopReason::MaxIters) <==> iters >= guard.max_iters && !out_of_patience && !at_target
        }),
{
}

/// Every revision adds one incumbent: its score where that is above the bar, and the one
/// before otherwise.
pub proof fn law_incumbents_change_above_the_bar(start: Measure, revisions: Seq<(Measure, Measure)>, k: int)
    requires
        0 <= k < revisions.len(),
    ensures
        incumbents(start, revisions).len() == revisions.len() + 1,
        incumbents(start, revisions)[0] == start,
        revisions[k].1.below(revisions[k].0) ==> incumbents(start, revisions)[k + 1] == revisions[k].0,
        !revisions[k].1.below(revisions[k].0) ==> incumbents(start, revisions)[k + 1] == incumbents(start, revisions)[k],
    decreases revisions.len(),
{
    let front = revisions.drop_last();
    lemma_incumbents(start, front);
    if k < front.len() {
        law_incumbents_change_above_the_bar(start, front, k);
        assert(front[k] == revisions[k]);
    } else {
        assert(revisions[k] == revisions.last());
    }
}

proof fn lemma_incumbents(start: Measure, revisions: Seq<(Measure, Measure)>)
    ensures
        incumbents(start, revisions).len() == revisions.len() + 1,
        incumbents(start, revisions)[0] == start,
    decreases revisions.len(),
{
    if revisions.len() > 0 {
        lemma_incumbents(start, revisions.drop_last());
    }
}

/// The adoptions are as many as there are revisions above their bar, and the idle ones as
/// many as come behind the last of those.
pub proof fn law_adoptions_and_idle_revisions(revisions: Seq<(Measure, Measure)>)
    ensures
        adoptions(revisions) == revisions.filter(|r: (Measure, Measure)| r.1.below(r.0)).len(),
        idle(revisions) <= revisions.len(),
        forall|k: int|
            revisions.len() - idle(revisions) <= k < revisions.len() ==> !(#[trigger] revisions[k]).1.below(revisions[k].0),
        idle(revisions) < revisions.len() ==> {
            let last = revisions[revisions.len() - idle(revisions) - 1];
            last.1.below(last.0)
        },
    decreases revisions.len(),
{
    reveal(Seq::filter);
    if revisions.len() > 0 {
        let front = revisions.drop_last();
        law_adoptions_and_idle_revisions(front);
        assert(forall|k: int| 0 <= k < front.len() ==> #[trigger] front[k] == revisions[k]);
        assert(revisions[revisions.len() - 1] == revisions.last());
        assert forall|k: int| revisions.len() - idle(revisions) <= k < revisions.len() implies !(
        #[trigger] revisions[k]).1.below(revisions[k].0) by {
            if k < front.len() {
                assert(!front[k].1.below(front[k].0));
            }
        }
    }
}

} // verus!
