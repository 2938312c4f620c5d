//! The evolution strategy's bookkeeping: the population, its ranking and the best found.
//!
//! Sampling, recombination and the adaptation of the step are numeric and belong to the
//! caller, who hands the fitness of each individual in by its bits.

use vstd::prelude::*;

use crate::measure::Measure;

verus! {

/// The sizes of a population and of its parents.
#[derive(Debug, Clone, Copy, PartialEq, Eq, Structural)]
pub struct PopulationSize {
    pub lambda: usize,
    pub mu: usize,
}

/// A population of the given size, or of the default for 0, and of four at the least; half
/// of it are parents.
pub fn population_size(lambda: usize, default: usize) -> (r: PopulationSize)
    ensures
        ({
            let wanted = if lambda == 0 {
                default
            } else {
                lambda
            };
            let size = if wanted < 4 {
                4
            } else {
                wanted
            };
            r.lambda == size && r.mu == size / 2
        }),
        2 <= r.mu < r.lambda,
{
    let wanted: usize = if lambda == 0 { default } else { lambda };
    let size: usize = if wanted < 4 { 4 } else { wanted };
    PopulationSize { lambda: size, mu: size / 2 }
}

/// The place of the individual that replaces the best found so far, -1 if none does: the
/// first one that no other exceeds, where it exceeds the best.
pub open spec fn champion(best: Measure, fits: Seq<Measure>) -> int
    decreases fits.len(),
{
    if fits.len() == 0 {
        -1
    } else {
        let k = champion(best, fits.drop_last());
        if fitness_at(best, fits.drop_last(), k).below(fits.last()) {
            fits.len() - 1
        } else {
            k
        }
    }
}

/// The best fitness with the champion at a place.
pub open spec fn fitness_at(best: Measure, fits: Seq<Measure>, k: int) -> Measure {
    if 0 <= k < fits.len() {
        fits[k]
    } else {
        best
    }
}

proof fn lemma_champion_range(best: Measure, fits: Seq<Measure>)
    ensures
        -1 <= champion(best, fits) < fits.len(),
    decreases fits.len(),
{
    if fits.len() > 0 {
        lemma_champion_range(best, fits.drop_last());
    }
}

/// Finds the individual that becomes the best found.
pub fn find_champion(best: &Measure, fits: &[Measure]) -> (r: Option<usize>)
    ensures
        match r {
            Some(k) => champion(*best, fits@) == k,
            None => champion(*best, fits@) == -1,
        },
{
    let mut top: Measure = *best;
    let mut found: Option<usize> = None;
    let mut i: usize = 0;
    while i < fits.len()
        invariant
            i <= fits@.len(),
            match found {
                Some(k) => champion(*best, fits@.take(i as int)) == k,
                None => champion(*best, fits@.take(i as int)) == -1,
            },
            top == fitness_at(*best, fits@.take(i as int), champion(*best, fits@.take(i as int))),
        decreases fits@.len() - i,
    {
        proof {
            lemma_champion_range(*best, fits@.take(i as int));
            assert(fits@.take(i + 1).drop_last() =~= fits@.take(i as int));
            assert(fits@.take(i + 1).last() == fits@[i as int]);
        }
        if top.is_below(&fits[i]) {
            top = fits[i];
            found = Some(i);
        }
        i += 1;
    }
    assert(fits@.take(i as int) =~= fits@);
    found
}

/// One individual ranks before another: its fitness is higher, or it is equal and the
/// individual came first.
pub open spec fn ranks_before(fits: Seq<Measure>, a: int, b: int) -> bool {
    fits[a].rank() > fits[b].rank() || (fits[a].rank() == fits[b].rank() && a < b)
}

/// The places of all individuals, the fittest first.
pub open spec fn is_ranking(fits: Seq<Measure>, order: Seq<usize>) -> bool {
    &&& order.len() == fits.len()
    &&& forall|i: int| 0 <= i < order.len() ==> (#[trigger] order[i]) < fits.len()
    &&& forall|i: int, j: int|
        #![trigger order[i], order[j]]
        0 <= i < j < order.len() ==> ranks_before(fits, order[i] as int, order[j] as int)
}

fn comes_before(fits: &[Measure], a: usize, b: usize) -> (r: bool)
    requires
        a < fits@.len(),
        b < fits@.len(),
        a != b,
        !fits@[a as int].nan(),
        !fits@[b as int].nan(),
    ensures
        r == ranks_before(fits@, a as int, b as int),
{
    if fits[b].is_below(&fits[a]) {
        true
    } else if fits[a].is_below(&fits[b]) {
        false
    } else {
        a < b
    }
}

/// Ranks a population whose fitness is known, the fittest first.
pub fn ranking(fits: &[Measure]) -> (r: Vec<usize>)
    requires
        forall|i: int| 0 <= i < fits@.len() ==> !(#[trigger] fits@[i]).nan(),
    ensures
        is_ranking(fits@, r@),
{
    let mut order: Vec<usize> = Vec::new();
    let mut i: usize = 0;
    while i < fits.len()
        invariant
            i <= fits@.len(),
            forall|k: int| 0 <= k < fits@.len() ==> !(#[trigger] fits@[k]).nan(),
            is_ranking(fits@.take(i as int), order@),
        decreases fits@.len() - i,
    {
        let n: usize = order.len();
        let mut at: usize = 0;
        while at < n && comes_before(fits, order[at], i)
            invariant
                at <= n,
                n == order@.len(),
                i < fits@.len(),
                forall|k: int| 0 <= k < fits@.len() ==> !(#[trigger] fits@[k]).nan(),
                is_ranking(fits@.take(i as int), order@),
                forall|k: int| 0 <= k < n ==> (#[trigger] order@[k]) < i,
                forall|k: int| 0 <= k < at ==> ranks_before(fits@, (#[trigger] order@[k]) as int, i as int),
            decreases n - at,
        {
            at += 1;
        }
        let ghost before = order@;
        let ghost few = fits@.take(i as int);
        let ghost more = fits@.take(i + 1);
        order.insert(at, i);
        proof {
            assert forall|a: int, b: int|
                #![trigger order@[a], order@[b]]
                0 <= a < b < order@.len() implies ranks_before(more, order@[a] as int, order@[b] as int) by {
                let x = if a < at { a } else { a - 1 };
                let y = if b < at { b } else { b - 1 };
                if a == at {
                    assert(order@[b] == before[b - 1]);
                    assert(!ranks_before(fits@, before[at as int] as int, i as int));
                    if b - 1 > at {
                        assert(ranks_before(few, before[at as int] as int, before[b - 1] as int));
                    }
                } else if b == at {
                    assert(order@[a] == before[a]);
                } else {
                    assert(order@[a] == before[x] && order@[b] == before[y]);
                    assert(ranks_before(few, before[x] as int, before[y] as int));
                }
            }
            assert forall|a: int| 0 <= a < order@.len() implies (#[trigger] order@[a]) < more.len() by {
                if a < at {
                    assert(order@[a] == before[a]);
                } else if a > at {
                    assert(order@[a] == before[a - 1]);
                }
            }
        }
        i += 1;
    }
    assert(fits@.take(i as int) =~= fits@);
    order
}

/// The best found never gets worse, and no individual of the population exceeds it.
pub proof fn law_champion_is_elitist(best: Measure, fits: Seq<Measure>, i: int)
    requires
        0 <= i < fits.len(),
        !best.nan(),
    ensures
        !fitness_at(best, fits, champion(best, fits)).below(best),
        !fitness_at(best, fits, champion(best, fits)).below(fits[i]),
        !fitness_at(best, fits, champion(best, fits)).nan(),
    decreases fits.len(),
{
    let front = fits.drop_last();
    lemma_champion_range(best, front);
    if front.len() > 0 {
        if i < front.len() {
            law_champion_is_elitist(best, front, i);
            assert(front[i] == fits[i]);
        } else {
            law_champion_is_elitist(best, front, 0);
        }
    }
}

/// A ranking names no individual twice and never rises.
pub proof fn law_ranking_descends(fits: Seq<Measure>, order: Seq<usize>, i: int, j: int)
    requires
        is_ranking(fits, order),
        0 <= i < j < order.len(),
    ensures
        order[i] != order[j],
        fits[order[i] as int].rank() >= fits[order[j] as int].rank(),
{
}

/// The champion is the first of the fitnesses that no other exceeds, where one exceeds the
/// best so far; where none does, there is no champion.
pub proof fn law_champion_is_the_first_best(best: Measure, fits: Seq<Measure>)
    requires
        !best.nan(),
    ensures
        -1 <= champion(best, fits) < fits.len(),
        champion(best, fits) == -1 <==> forall|i: int| 0 <= i < fits.len() ==> !best.below(#[trigger] fits[i]),
        champion(best, fits) >= 0 ==> {
            let k = champion(best, fits);
            &&& best.below(fits[k])
            &&& forall|i: int| 0 <= i < k ==> (#[trigger] fits[i]).nan() || fits[i].rank() < fits[k].rank()
            &&& forall|i: int| k <= i < fits.len() ==> (#[trigger] fits[i]).nan() || fits[i].rank() <= fits[k].rank()
        },
    decreases fits.len(),
{
    if fits.len() > 0 {
        let front = fits.drop_last();
        let n = front.len() as int;
        law_champion_is_the_first_best(best, front);
        assert(forall|i: int| 0 <= i < n ==> #[trigger] front[i] == fits[i]);
        assert(fits[n] == fits.last());
        let k = champion(best, front);
        if k >= 0 {
            assert(front[k] == fits[k]);
            assert(best.below(fits[k]));
        }
        if fitness_at(best, front, k).below(fits.last()) {
            assert forall|i: int| 0 <= i < n implies (#[trigger] fits[i]).nan() || fits[i].rank() < fits[n].rank() by {
                assert(front[i] == fits[i]);
                if k == -1 {
                    assert(!best.below(front[i]));
                }
            }
            assert(best.below(fits[n]));
        } else if k == -1 {
            assert forall|i: int| 0 <= i < fits.len() implies !best.below(#[trigger] fits[i]) by {
                if i < n {
                    assert(!best.below(front[i]));
                }
            }
        } else {
            assert forall|i: int| k <= i < fits.len() implies (#[trigger] fits[i]).nan() || fits[i].rank()
                <= fits[k].rank() by {
                if i < n {
                    assert(front[i] == fits[i]);
                }
            }
            assert forall|i: int| 0 <= i < k implies (#[trigger] fits[i]).nan() || fits[i].rank() < fits[k].rank() by {
                assert(front[i] == fits[i]);
            }
        }
    }
}

/// A ranking lists every position exactly once, higher fitnesses first, and of equal
/// ones the earlier.
pub proof fn law_ranking_lists_every_position(fits: Seq<Measure>, order: Seq<usize>)
    requires
        is_ranking(fits, order),
    ensures
        order.no_duplicates(),
        forall|p: usize| p < fits.len() ==> #[trigger] order.contains(p),
        forall|i: int, j: int|
            0 <= i < j < order.len() && fits[#[trigger] order[i] as int].rank() == fits[#[trigger] order[j] as int].rank()
                ==> order[i] < order[j],
        forall|i: int, j: int|
            0 <= i < order.len() && 0 <= j < order.len() && fits[#[trigger] order[i] as int].rank()
                > fits[#[trigger] order[j] as int].rank() ==> i < j,
{
    assert(order.no_duplicates()) by {
        assert forall|i: int, j: int| 0 <= i < order.len() && 0 <= j < order.len() && i != j implies order[i] != order[j] by {
            if i < j {
                assert(ranks_before(fits, order[i] as int, order[j] as int));
            } else {
                assert(ranks_before(fits, order[j] as int, order[i] as int));
            }
        }
    }
    let ints = order.map_values(|p: usize| p as int);
    assert(ints.no_duplicates());
    ints.unique_seq_to_set();
    let all = vstd::set_lib::set_int_range(0, fits.len() as int);
    vstd::set_lib::lemma_int_range(0, fits.len() as int);
    assert(ints.to_set().subset_of(all));
    vstd::set_lib::lemma_subset_equality(ints.to_set(), all);
    assert forall|p: usize| p < fits.len() implies #[trigger] order.contains(p) by {
        assert(ints.to_set().contains(p as int));
        let i = choose|i: int| 0 <= i < ints.len() && ints[i] == p as int;
        assert(order[i] == p);
    }
    assert forall|i: int, j: int|
        0 <= i < order.len() && 0 <= j < order.len() && fits[#[trigger] order[i] as int].rank()
            > fits[#[trigger] order[j] as int].rank() implies i < j by {
        if j < i {
            assert(ranks_before(fits, order[j] as int, order[i] as int));
        }
    }
}

/// A population is the wanted one where that is large enough, half of it parents, rounded
/// down.
pub proof fn law_populations(lambda: usize, default: usize, r: PopulationSize)
    requires
        call_ensures(population_size, (lambda, default), r),
    ensures
        r.lambda >= 4,
        lambda >= 4 ==> r.lambda == lambda,
        0 < lambda < 4 ==> r.lambda == 4,
        lambda == 0 && default >= 4 ==> r.lambda == default,
        lambda == 0 && default < 4 ==> r.lambda == 4,
        2 * r.mu <= r.lambda < 2 * r.mu + 2,
{
}

} // verus!
