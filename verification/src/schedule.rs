//! The deterministic order in which dependent steps are carried out: of the steps whose
//! dependencies are all done, always the one with the smallest identifier, in whatever
//! order the steps are listed.

use vstd::prelude::*;

use crate::order::{
    canonical, key_order, lemma_canonical_exists, lemma_canonical_ignores_input_order, lemma_text_order_equal, lemma_text_order_flip,
    lemma_text_order_transitive, strictly_ascending, text_order, Order,
};

verus! {

/// A step and the steps it depends on.
pub struct Step {
    pub id: Seq<char>,
    pub dependencies: Seq<Seq<char>>,
}

/// The identifiers of the steps.
pub open spec fn step_ids(steps: Seq<Step>) -> Seq<Seq<char>> {
    steps.map_values(|s: Step| s.id)
}

/// A step that is not done and whose dependencies are.
pub open spec fn is_ready(step: Step, done: Seq<Seq<char>>) -> bool {
    &&& !done.contains(step.id)
    &&& forall|i: int| 0 <= i < step.dependencies.len() ==> done.contains(#[trigger] step.dependencies[i])
}

/// The step at position `k` is ready, and no ready step has a smaller identifier.
pub open spec fn is_next(steps: Seq<Step>, done: Seq<Seq<char>>, k: int) -> bool {
    &&& 0 <= k < steps.len()
    &&& is_ready(steps[k], done)
    &&& forall|j: int|
        0 <= j < steps.len() && is_ready(#[trigger] steps[j], done) ==> text_order(steps[k].id, steps[j].id)
            != Order::Greater
}

/// The smallest identifier of a ready step.
pub open spec fn next_ready(steps: Seq<Step>, done: Seq<Seq<char>>) -> Option<Seq<char>> {
    if exists|k: int| is_next(steps, done, k) {
        Some(steps[choose|k: int| is_next(steps, done, k)].id)
    } else {
        None
    }
}

/// Carries out ready steps until none is left.
pub open spec fn run(steps: Seq<Step>, done: Seq<Seq<char>>) -> Seq<Seq<char>>
    decreases steps.len() - done.len(),
{
    if done.len() >= steps.len() {
        done
    } else {
        match next_ready(steps, done) {
            Some(id) => run(steps, done.push(id)),
            None => done,
        }
    }
}

/// The order of all steps that can be carried out.
pub open spec fn schedule(steps: Seq<Step>) -> Seq<Seq<char>> {
    run(steps, Seq::empty())
}

/// The identifiers outside an order, as the steps are listed.
pub open spec fn outside(steps: Seq<Step>, order: Seq<Seq<char>>) -> Seq<Seq<char>>
    decreases steps.len(),
{
    if steps.len() == 0 {
        Seq::empty()
    } else {
        let front = outside(steps.drop_last(), order);
        if order.contains(steps.last().id) {
            front
        } else {
            front.push(steps.last().id)
        }
    }
}

/// The identifiers that an order leaves out, in increasing order.
pub open spec fn left_out(steps: Seq<Step>, order: Seq<Seq<char>>) -> Seq<Seq<char>> {
    canonical(outside(steps, order))
}

/// No two steps share an identifier.
pub open spec fn distinct(steps: Seq<Step>) -> bool {
    forall|i: int, j: int| #![trigger steps[i], steps[j]] 0 <= i < j < steps.len() ==> steps[i].id != steps[j].id
}

/// Each entry of `order` is a step whose dependencies come before it, and none
/// occurs twice.
pub open spec fn respects(steps: Seq<Step>, order: Seq<Seq<char>>) -> bool {
    &&& order.no_duplicates()
    &&& forall|p: int|
        0 <= p < order.len() ==> exists|k: int|
            0 <= k < steps.len() && (#[trigger] steps[k]).id == #[trigger] order[p] && forall|d: int|
                0 <= d < steps[k].dependencies.len() ==> order.take(p).contains(
                    #[trigger] steps[k].dependencies[d],
                )
}

/// All steps occur.
pub open spec fn covers(steps: Seq<Step>, order: Seq<Seq<char>>) -> bool {
    forall|k: int| 0 <= k < steps.len() ==> order.contains((#[trigger] steps[k]).id)
}

/// Two steps that both come next share their identifier.
pub proof fn lemma_next_is_unique(steps: Seq<Step>, done: Seq<Seq<char>>, k: int)
    requires
        is_next(steps, done, k),
    ensures
        next_ready(steps, done) == Some(steps[k].id),
{
    let m = choose|m: int| is_next(steps, done, m);
    lemma_text_order_flip(steps[k].id, steps[m].id);
    lemma_text_order_equal(steps[k].id, steps[m].id);
}

/// Where one of the first `n` steps is ready, one of them has the smallest identifier.
proof fn lemma_smallest_ready(steps: Seq<Step>, done: Seq<Seq<char>>, n: int)
    requires
        0 <= n <= steps.len(),
    ensures
        (forall|j: int| 0 <= j < n ==> !is_ready(#[trigger] steps[j], done)) || exists|k: int|
            is_next(steps.take(n), done, k),
    decreases n,
{
    if n > 0 {
        lemma_smallest_ready(steps, done, n - 1);
        let part = steps.take(n);
        let shorter = steps.take(n - 1);
        let last = n - 1;
        assert(forall|j: int| 0 <= j < last ==> #[trigger] part[j] == shorter[j]);
        assert(part[last] == steps[last]);
        if exists|k: int| is_next(shorter, done, k) {
            let k = choose|k: int| is_next(shorter, done, k);
            assert(is_ready(part[k], done));
            if is_ready(steps[last], done) && text_order(part[k].id, part[last].id) == Order::Greater {
                lemma_text_order_flip(part[k].id, part[last].id);
                assert forall|j: int| 0 <= j < part.len() && is_ready(#[trigger] part[j], done) implies text_order(
                    part[last].id,
                    part[j].id,
                ) != Order::Greater by {
                    if j < last {
                        assert(is_ready(shorter[j], done));
                        lemma_text_order_equal(part[k].id, part[j].id);
                        lemma_text_order_transitive(part[last].id, part[k].id, part[j].id);
                    } else {
                        lemma_text_order_equal(part[last].id, part[last].id);
                    }
                }
                assert(is_next(part, done, last));
            } else {
                assert forall|j: int| 0 <= j < part.len() && is_ready(#[trigger] part[j], done) implies text_order(
                    part[k].id,
                    part[j].id,
                ) != Order::Greater by {
                    if j < last {
                        assert(is_ready(shorter[j], done));
                    }
                }
                assert(is_next(part, done, k));
            }
        } else if is_ready(steps[last], done) {
            lemma_text_order_equal(part[last].id, part[last].id);
            assert forall|j: int| 0 <= j < part.len() && is_ready(#[trigger] part[j], done) implies text_order(
                part[last].id,
                part[j].id,
            ) != Order::Greater by {
                if j < last {
                    assert(!is_ready(steps[j], done));
                }
            }
            assert(is_next(part, done, last));
        }
    }
}

/// A step comes next exactly where one is ready.
pub proof fn lemma_next_ready(steps: Seq<Step>, done: Seq<Seq<char>>)
    ensures
        match next_ready(steps, done) {
            Some(id) => exists|k: int| is_next(steps, done, k) && steps[k].id == id,
            None => forall|j: int| 0 <= j < steps.len() ==> !is_ready(#[trigger] steps[j], done),
        },
{
    lemma_smallest_ready(steps, done, steps.len() as int);
    assert(steps.take(steps.len() as int) =~= steps);
    if exists|k: int| is_next(steps, done, k) {
        let k = choose|k: int| is_next(steps, done, k);
        assert(is_next(steps, done, k) && steps[k].id == next_ready(steps, done)->0);
    }
}

proof fn lemma_respects_push(steps: Seq<Step>, done: Seq<Seq<char>>, k: int)
    requires
        respects(steps, done),
        0 <= k < steps.len(),
        is_ready(steps[k], done),
    ensures
        respects(steps, done.push(steps[k].id)),
{
    let next = done.push(steps[k].id);
    assert forall|p: int| 0 <= p < next.len() implies exists|m: int|
        0 <= m < steps.len() && (#[trigger] steps[m]).id == #[trigger] next[p] && forall|d: int|
            0 <= d < steps[m].dependencies.len() ==> next.take(p).contains(
                #[trigger] steps[m].dependencies[d],
            ) by {
        assert(next.take(p) =~= done.take(p));
        if p < done.len() {
            assert(next[p] == done[p]);
            let m = choose|m: int|
                0 <= m < steps.len() && (#[trigger] steps[m]).id == done[p] && forall|d: int|
                    0 <= d < steps[m].dependencies.len() ==> done.take(p).contains(
                        #[trigger] steps[m].dependencies[d],
                    );
            assert(steps[m].id == next[p]);
        } else {
            assert(done.take(p) =~= done);
            assert(steps[k].id == next[p]);
        }
    }
}

/// What running leaves behind: an order that respects dependencies, with no ready
/// step unless every step is in it.
pub proof fn lemma_run(steps: Seq<Step>, done: Seq<Seq<char>>)
    requires
        respects(steps, done),
        done.len() <= steps.len(),
    ensures
        respects(steps, run(steps, done)),
        run(steps, done).len() <= steps.len(),
        run(steps, done).len() < steps.len() ==> next_ready(steps, run(steps, done)) is None,
    decreases steps.len() - done.len(),
{
    if done.len() < steps.len() {
        lemma_next_ready(steps, done);
        match next_ready(steps, done) {
            Some(id) => {
                let k = choose|k: int| is_next(steps, done, k) && steps[k].id == id;
                lemma_respects_push(steps, done, k);
                lemma_run(steps, done.push(id));
            },
            None => {},
        }
    }
}

/// The schedule respects dependencies, and nothing that it leaves out could still
/// be carried out.
pub proof fn law_schedule_respects_dependencies(steps: Seq<Step>)
    ensures
        respects(steps, schedule(steps)),
        schedule(steps).len() <= steps.len(),
        schedule(steps).len() < steps.len() ==> forall|k: int|
            0 <= k < steps.len() ==> !is_ready(#[trigger] steps[k], schedule(steps)),
{
    lemma_run(steps, Seq::empty());
    lemma_next_ready(steps, schedule(steps));
}

/// A schedule of full length contains every step.
pub proof fn law_full_schedule_covers(steps: Seq<Step>)
    requires
        distinct(steps),
        schedule(steps).len() == steps.len(),
    ensures
        covers(steps, schedule(steps)),
{
    law_schedule_respects_dependencies(steps);
    let order = schedule(steps);
    let ids = step_ids(steps);
    assert(ids.no_duplicates()) by {
        assert forall|i: int, j: int| 0 <= i < ids.len() && 0 <= j < ids.len() && i != j implies ids[i] != ids[j] by {
            if i < j {
                assert(steps[i].id != steps[j].id);
            } else {
                assert(steps[j].id != steps[i].id);
            }
        }
    }
    order.unique_seq_to_set();
    ids.unique_seq_to_set();
    assert(order.to_set().subset_of(ids.to_set())) by {
        assert forall|x: Seq<char>| #[trigger] order.to_set().contains(x) implies ids.to_set().contains(x) by {
            let p = choose|p: int| 0 <= p < order.len() && order[p] == x;
            let k = choose|k: int|
                0 <= k < steps.len() && (#[trigger] steps[k]).id == order[p] && forall|d: int|
                    0 <= d < steps[k].dependencies.len() ==> order.take(p).contains(
                        #[trigger] steps[k].dependencies[d],
                    );
            assert(ids[k] == x);
        }
    }
    vstd::set_lib::lemma_subset_equality(order.to_set(), ids.to_set());
    assert forall|k: int| 0 <= k < steps.len() implies order.contains((#[trigger] steps[k]).id) by {
        assert(ids[k] == steps[k].id);
        assert(ids.to_set().contains(ids[k]));
        assert(order.to_set().contains(ids[k]));
    }
}

/// Every entry of a witness order that respects dependencies gets scheduled.
proof fn lemma_witness_is_scheduled(steps: Seq<Step>, witness: Seq<Seq<char>>, p: int)
    requires
        respects(steps, witness),
        0 <= p <= witness.len(),
        forall|k: int| 0 <= k < steps.len() ==> !is_ready(#[trigger] steps[k], schedule(steps)),
    ensures
        forall|q: int| 0 <= q < p ==> schedule(steps).contains(#[trigger] witness[q]),
    decreases p,
{
    if p > 0 {
        lemma_witness_is_scheduled(steps, witness, p - 1);
        let order = schedule(steps);
        let q = p - 1;
        let k = choose|k: int|
            0 <= k < steps.len() && (#[trigger] steps[k]).id == witness[q] && forall|d: int|
                0 <= d < steps[k].dependencies.len() ==> witness.take(q).contains(
                    #[trigger] steps[k].dependencies[d],
                );
        assert forall|d: int| 0 <= d < steps[k].dependencies.len() implies order.contains(
            #[trigger] steps[k].dependencies[d],
        ) by {
            assert(witness.take(q).contains(steps[k].dependencies[d]));
            let m = choose|m: int|
                0 <= m < witness.take(q).len() && witness.take(q)[m] == steps[k].dependencies[d];
            assert(witness[m] == steps[k].dependencies[d]);
        }
        assert(!is_ready(steps[k], order));
        assert(order.contains(witness[q]));
    }
}

/// Steps that can be put in some order that respects their dependencies are all
/// scheduled: steps are left out only where the dependencies are circular.
pub proof fn law_orderable_steps_are_scheduled(steps: Seq<Step>, witness: Seq<Seq<char>>)
    requires
        distinct(steps),
        respects(steps, witness),
        covers(steps, witness),
    ensures
        schedule(steps).len() == steps.len(),
        covers(steps, schedule(steps)),
{
    law_schedule_respects_dependencies(steps);
    let order = schedule(steps);
    if order.len() < steps.len() {
        lemma_witness_is_scheduled(steps, witness, witness.len() as int);
        assert forall|k: int| 0 <= k < steps.len() implies order.contains((#[trigger] steps[k]).id) by {
            assert(witness.contains(steps[k].id));
            let m = choose|m: int| 0 <= m < witness.len() && witness[m] == steps[k].id;
            assert(order.contains(witness[m]));
        }
        lemma_covering_is_long(steps, order);
    }
    law_full_schedule_covers(steps);
}

proof fn lemma_covering_is_long(steps: Seq<Step>, order: Seq<Seq<char>>)
    requires
        distinct(steps),
        covers(steps, order),
    ensures
        order.len() >= steps.len(),
{
    let ids = step_ids(steps);
    assert(ids.no_duplicates()) by {
        assert forall|i: int, j: int| 0 <= i < ids.len() && 0 <= j < ids.len() && i != j implies ids[i] != ids[j] by {
            if i < j {
                assert(steps[i].id != steps[j].id);
            } else {
                assert(steps[j].id != steps[i].id);
            }
        }
    }
    ids.unique_seq_to_set();
    order.lemma_cardinality_of_set();
    assert(ids.to_set().subset_of(order.to_set())) by {
        assert forall|x: Seq<char>| #[trigger] ids.to_set().contains(x) implies order.to_set().contains(x) by {
            let k = choose|k: int| 0 <= k < ids.len() && ids[k] == x;
            assert(order.contains(steps[k].id));
        }
    }
    vstd::set_lib::lemma_len_subset(ids.to_set(), order.to_set());
}

/// A step that the schedule leaves out waits for another one that it leaves out.
pub proof fn law_left_out_steps_wait(steps: Seq<Step>, k: int)
    requires
        distinct(steps),
        schedule(steps).len() < steps.len(),
        0 <= k < steps.len(),
        !schedule(steps).contains(steps[k].id),
    ensures
        exists|d: int|
            0 <= d < steps[k].dependencies.len() && !schedule(steps).contains(
                #[trigger] steps[k].dependencies[d],
            ),
{
    law_schedule_respects_dependencies(steps);
    assert(!is_ready(steps[k], schedule(steps)));
}

/// Running keeps what is done, and puts the smallest ready step at each later place.
proof fn lemma_run_takes_smallest_ready(steps: Seq<Step>, done: Seq<Seq<char>>, p: int)
    requires
        0 <= p < run(steps, done).len(),
    ensures
        done.len() <= run(steps, done).len(),
        run(steps, done).take(done.len() as int) == done,
        p >= done.len() ==> {
            next_ready(steps, run(steps, done).take(p)) == Some(run(steps, done)[p])
        },
    decreases steps.len() - done.len(),
{
    let all = run(steps, done);
    if done.len() < steps.len() {
        match next_ready(steps, done) {
            Some(id) => {
                let next = done.push(id);
                lemma_run_takes_smallest_ready(steps, next, p);
                assert(all.take(done.len() as int) =~= next.take(done.len() as int));
                assert(next.take(done.len() as int) =~= done);
                if p == done.len() {
                    assert(all.take(next.len() as int)[p] == all[p]);
                }
            },
            None => {
                assert(all.take(done.len() as int) =~= done);
            },
        }
    } else {
        assert(all.take(done.len() as int) =~= done);
    }
}

/// A list that, wherever two lists part for the first time, has the smaller text comes
/// no later than the other.
proof fn lemma_no_later(a: Seq<Seq<char>>, b: Seq<Seq<char>>)
    requires
        a.len() <= b.len(),
        forall|p: int|
            0 <= p < a.len() && #[trigger] a.take(p) == b.take(p) ==> a[p] == b[p] || text_order(a[p], b[p]) == Order::Less,
    ensures
        key_order(a, b) != Order::Greater,
    decreases a.len(),
{
    if a.len() > 0 {
        assert(a.take(0) =~= b.take(0));
        lemma_text_order_equal(a[0], b[0]);
        if a[0] == b[0] {
            let x = a.drop_first();
            let y = b.drop_first();
            assert forall|p: int| 0 <= p < x.len() && #[trigger] x.take(p) == y.take(p) implies x[p] == y[p] || text_order(
                x[p],
                y[p],
            ) == Order::Less by {
                assert(a.take(p + 1) =~= seq![a[0]] + x.take(p));
                assert(b.take(p + 1) =~= seq![b[0]] + y.take(p));
            }
            lemma_no_later(x, y);
        }
    }
}

/// Of all orders of steps that respect the dependencies, the schedule is the smallest one
/// by the identifiers.
pub proof fn law_schedule_is_the_smallest_order(steps: Seq<Step>, witness: Seq<Seq<char>>)
    requires
        distinct(steps),
        respects(steps, witness),
        covers(steps, witness),
    ensures
        respects(steps, schedule(steps)),
        covers(steps, schedule(steps)),
        schedule(steps).len() == steps.len(),
        key_order(schedule(steps), witness) != Order::Greater,
{
    law_schedule_respects_dependencies(steps);
    law_orderable_steps_are_scheduled(steps, witness);
    lemma_covering_is_long(steps, witness);
    let order = schedule(steps);
    assert forall|p: int| 0 <= p < order.len() && #[trigger] order.take(p) == witness.take(p) implies order[p] == witness[p]
        || text_order(order[p], witness[p]) == Order::Less by {
        let done = order.take(p);
        lemma_run_takes_smallest_ready(steps, Seq::empty(), p);
        lemma_next_ready(steps, done);
        let k = choose|k: int| is_next(steps, done, k) && steps[k].id == order[p];
        let m = choose|m: int|
            0 <= m < steps.len() && (#[trigger] steps[m]).id == witness[p] && forall|d: int|
                0 <= d < steps[m].dependencies.len() ==> witness.take(p).contains(#[trigger] steps[m].dependencies[d]);
        if done.contains(witness[p]) {
            let q = choose|q: int| 0 <= q < done.len() && done[q] == witness[p];
            assert(witness.take(p)[q] == witness[q]);
        }
        assert(is_ready(steps[m], done));
        assert(text_order(steps[k].id, steps[m].id) != Order::Greater);
        lemma_text_order_equal(steps[k].id, steps[m].id);
    }
    lemma_no_later(order, witness);
}

/// The order in which the steps are listed does not matter, neither for the schedule nor
/// for what it leaves out.
pub proof fn law_schedule_ignores_listing(steps: Seq<Step>, others: Seq<Step>)
    requires
        steps.to_multiset() == others.to_multiset(),
    ensures
        schedule(steps) == schedule(others),
        left_out(steps, schedule(steps)) == left_out(others, schedule(others)),
{
    lemma_run_ignores_listing(steps, others, Seq::empty());
    let order = schedule(steps);
    assert forall|t: Seq<char>| #[trigger] outside(steps, order).contains(t) <==> outside(others, order).contains(t) by {
        lemma_outside(steps, order, t);
        lemma_outside(others, order, t);
        if outside(steps, order).contains(t) {
            let k = choose|k: int| 0 <= k < steps.len() && (#[trigger] steps[k]).id == t;
            lemma_same_steps(steps, others, k);
        }
        if outside(others, order).contains(t) {
            let k = choose|k: int| 0 <= k < others.len() && (#[trigger] others[k]).id == t;
            lemma_same_steps(others, steps, k);
        }
    }
    lemma_canonical_ignores_input_order(outside(steps, order), outside(others, order));
}

/// A step of one listing stands in the other.
proof fn lemma_same_steps(steps: Seq<Step>, others: Seq<Step>, k: int)
    requires
        steps.to_multiset() == others.to_multiset(),
        0 <= k < steps.len(),
    ensures
        steps.len() == others.len(),
        exists|m: int| 0 <= m < others.len() && #[trigger] others[m] == steps[k],
{
    broadcast use vstd::seq_lib::group_to_multiset_ensures;

    vstd::seq_lib::to_multiset_len(steps);
    vstd::seq_lib::to_multiset_len(others);
    assert(steps.contains(steps[k]));
    assert(others.to_multiset().count(steps[k]) > 0);
    assert(others.contains(steps[k]));
}

proof fn lemma_next_ignores_listing(steps: Seq<Step>, others: Seq<Step>, done: Seq<Seq<char>>, k: int)
    requires
        steps.to_multiset() == others.to_multiset(),
        is_next(steps, done, k),
    ensures
        next_ready(others, done) == Some(steps[k].id),
{
    lemma_same_steps(steps, others, k);
    let m = choose|m: int| 0 <= m < others.len() && #[trigger] others[m] == steps[k];
    assert forall|j: int| 0 <= j < others.len() && is_ready(#[trigger] others[j], done) implies text_order(
        others[m].id,
        others[j].id,
    ) != Order::Greater by {
        lemma_same_steps(others, steps, j);
        let i = choose|i: int| 0 <= i < steps.len() && #[trigger] steps[i] == others[j];
        assert(is_ready(steps[i], done));
    }
    assert(is_next(others, done, m));
    lemma_next_is_unique(others, done, m);
}

proof fn lemma_run_ignores_listing(steps: Seq<Step>, others: Seq<Step>, done: Seq<Seq<char>>)
    requires
        steps.to_multiset() == others.to_multiset(),
    ensures
        run(steps, done) == run(others, done),
    decreases steps.len() - done.len(),
{
    vstd::seq_lib::to_multiset_len(steps);
    vstd::seq_lib::to_multiset_len(others);
    if done.len() < steps.len() {
        if exists|k: int| is_next(steps, done, k) {
            let k = choose|k: int| is_next(steps, done, k);
            lemma_next_ignores_listing(steps, others, done, k);
            lemma_run_ignores_listing(steps, others, done.push(steps[k].id));
        } else if exists|k: int| is_next(others, done, k) {
            let k = choose|k: int| is_next(others, done, k);
            lemma_next_ignores_listing(others, steps, done, k);
        }
    }
}

/// What stands outside an order.
proof fn lemma_outside(steps: Seq<Step>, order: Seq<Seq<char>>, id: Seq<char>)
    ensures
        outside(steps, order).contains(id) <==> !order.contains(id) && exists|k: int|
            0 <= k < steps.len() && (#[trigger] steps[k]).id == id,
    decreases steps.len(),
{
    if steps.len() > 0 {
        let front = steps.drop_last();
        let last = steps.len() - 1;
        lemma_outside(front, order, id);
        assert(forall|k: int| 0 <= k < last ==> #[trigger] front[k] == steps[k]);
        if outside(steps, order).contains(id) {
            let i = choose|i: int| 0 <= i < outside(steps, order).len() && outside(steps, order)[i] == id;
            if i < outside(front, order).len() {
                assert(outside(front, order)[i] == id);
                let k = choose|k: int| 0 <= k < front.len() && (#[trigger] front[k]).id == id;
                assert(steps[k].id == id);
            } else {
                assert(steps[last].id == id);
            }
        }
        if !order.contains(id) && exists|k: int| 0 <= k < steps.len() && (#[trigger] steps[k]).id == id {
            let k = choose|k: int| 0 <= k < steps.len() && (#[trigger] steps[k]).id == id;
            if k == last {
                let all = outside(steps, order);
                assert(all[all.len() - 1] == id);
            } else {
                assert(front[k].id == id);
                let i = choose|i: int| 0 <= i < outside(front, order).len() && outside(front, order)[i] == id;
                assert(outside(steps, order)[i] == id);
            }
        }
    }
}

/// The identifiers left out ascend, each once, and are those of the steps that the order
/// does not hold.
pub proof fn law_left_out_ascends(steps: Seq<Step>, order: Seq<Seq<char>>)
    ensures
        strictly_ascending(left_out(steps, order)),
        forall|id: Seq<char>| #[trigger]
            left_out(steps, order).contains(id) <==> !order.contains(id) && exists|k: int|
                0 <= k < steps.len() && (#[trigger] steps[k]).id == id,
{
    lemma_canonical_exists(outside(steps, order));
    assert forall|id: Seq<char>| #[trigger]
        left_out(steps, order).contains(id) <==> !order.contains(id) && exists|k: int|
            0 <= k < steps.len() && (#[trigger] steps[k]).id == id by {
        lemma_outside(steps, order, id);
        assert(left_out(steps, order).contains(id) <==> outside(steps, order).contains(id));
    }
}

// ---------------------------------------------------------------------------
// Cycles
// ---------------------------------------------------------------------------

/// Every dependency is a step.
pub open spec fn known(steps: Seq<Step>) -> bool {
    forall|k: int, d: int|
        0 <= k < steps.len() && 0 <= d < steps[k].dependencies.len() ==> step_ids(steps).contains(
            #[trigger] steps[k].dependencies[d],
        )
}

/// The entry of a walk at `i` is a step that depends on the following entry.
pub open spec fn links(steps: Seq<Step>, walk: Seq<Seq<char>>, i: int) -> bool {
    exists|k: int|
        0 <= k < steps.len() && (#[trigger] steps[k]).id == walk[i] && steps[k].dependencies.contains(walk[i + 1])
}

/// Each entry of a walk depends on the following one.
pub open spec fn is_walk(steps: Seq<Step>, walk: Seq<Seq<char>>) -> bool {
    forall|i: int| 0 <= i < walk.len() - 1 ==> #[trigger] links(steps, walk, i)
}

/// A walk that ends where it has been before.
pub open spec fn closes(steps: Seq<Step>, walk: Seq<Seq<char>>) -> bool {
    is_walk(steps, walk) && exists|j: int| 0 <= j < walk.len() - 1 && #[trigger] walk[j] == walk.last()
}

/// The step lies on a cycle, or depends, directly or not, on one that does.
pub open spec fn leads_to_cycle(steps: Seq<Step>, id: Seq<char>) -> bool {
    exists|walk: Seq<Seq<char>>| walk.len() > 0 && walk[0] == id && #[trigger] closes(steps, walk)
}

/// A step that is left out, by its identifier.
spec fn waits(steps: Seq<Step>, id: Seq<char>) -> bool {
    step_ids(steps).contains(id) && !schedule(steps).contains(id)
}

/// A step that waits depends on another one that waits.
proof fn lemma_waits_for(steps: Seq<Step>, id: Seq<char>) -> (next: Seq<char>)
    requires
        distinct(steps),
        known(steps),
        schedule(steps).len() < steps.len(),
        waits(steps, id),
    ensures
        waits(steps, next),
        links(steps, seq![id, next], 0),
{
    let k = choose|k: int| 0 <= k < step_ids(steps).len() && step_ids(steps)[k] == id;
    assert(steps[k].id == id);
    law_left_out_steps_wait(steps, k);
    let d = choose|d: int|
        0 <= d < steps[k].dependencies.len() && !schedule(steps).contains(#[trigger] steps[k].dependencies[d]);
    assert(steps[k].dependencies.contains(steps[k].dependencies[d]));
    let pair = seq![id, steps[k].dependencies[d]];
    assert(steps[k].id == pair[0]);
    steps[k].dependencies[d]
}

/// A walk of any length over steps that wait.
proof fn lemma_waiting_walk(steps: Seq<Step>, id: Seq<char>, n: nat) -> (walk: Seq<Seq<char>>)
    requires
        distinct(steps),
        known(steps),
        schedule(steps).len() < steps.len(),
        waits(steps, id),
    ensures
        walk.len() == n + 1,
        walk[0] == id,
        is_walk(steps, walk),
        forall|i: int| 0 <= i < walk.len() ==> waits(steps, #[trigger] walk[i]),
    decreases n,
{
    if n == 0 {
        seq![id]
    } else {
        let next = lemma_waits_for(steps, id);
        let rest = lemma_waiting_walk(steps, next, (n - 1) as nat);
        let walk = seq![id] + rest;
        let pair = seq![id, next];
        assert forall|i: int| 0 <= i < walk.len() - 1 implies #[trigger] links(steps, walk, i) by {
            if i == 0 {
                let k = choose|k: int|
                    0 <= k < steps.len() && (#[trigger] steps[k]).id == pair[0] && steps[k].dependencies.contains(pair[1]);
                assert(steps[k].id == walk[i]);
                assert(walk[i + 1] == next);
            } else {
                assert(links(steps, rest, i - 1));
                let k = choose|k: int|
                    0 <= k < steps.len() && (#[trigger] steps[k]).id == rest[i - 1] && steps[k].dependencies.contains(
                        rest[i - 1 + 1],
                    );
                assert(steps[k].id == walk[i]);
                assert(walk[i + 1] == rest[i]);
            }
        }
        assert forall|i: int| 0 <= i < walk.len() implies waits(steps, #[trigger] walk[i]) by {
            if i > 0 {
                assert(waits(steps, rest[i - 1]));
            }
        }
        walk
    }
}

proof fn lemma_waiting_leads_to_cycle(steps: Seq<Step>, id: Seq<char>)
    requires
        distinct(steps),
        known(steps),
        schedule(steps).len() < steps.len(),
        waits(steps, id),
    ensures
        leads_to_cycle(steps, id),
{
    let walk = lemma_waiting_walk(steps, id, steps.len());
    let ids = step_ids(steps);
    if walk.no_duplicates() {
        walk.unique_seq_to_set();
        ids.lemma_cardinality_of_set();
        assert(walk.to_set().subset_of(ids.to_set())) by {
            assert forall|x: Seq<char>| #[trigger] walk.to_set().contains(x) implies ids.to_set().contains(x) by {
                let i = choose|i: int| 0 <= i < walk.len() && walk[i] == x;
                assert(waits(steps, walk[i]));
            }
        }
        vstd::set_lib::lemma_len_subset(walk.to_set(), ids.to_set());
        assert(false);
    }
    let (a, b) = choose|a: int, b: int| 0 <= a < walk.len() && 0 <= b < walk.len() && a != b && walk[a] == walk[b];
    let (i, j) = if a < b {
        (a, b)
    } else {
        (b, a)
    };
    let cut = walk.take(j + 1);
    assert forall|m: int| 0 <= m < cut.len() - 1 implies #[trigger] links(steps, cut, m) by {
        assert(links(steps, walk, m));
        let k = choose|k: int|
            0 <= k < steps.len() && (#[trigger] steps[k]).id == walk[m] && steps[k].dependencies.contains(walk[m + 1]);
        assert(steps[k].id == cut[m]);
        assert(cut[m + 1] == walk[m + 1]);
    }
    assert(cut[i] == cut.last());
    assert(closes(steps, cut));
    assert(cut[0] == id);
}

/// What a scheduled step depends on is scheduled before it.
proof fn lemma_link_goes_back(steps: Seq<Step>, walk: Seq<Seq<char>>, i: int, p: int) -> (q: int)
    requires
        distinct(steps),
        links(steps, walk, i),
        0 <= p < schedule(steps).len(),
        schedule(steps)[p] == walk[i],
    ensures
        0 <= q < p,
        schedule(steps)[q] == walk[i + 1],
{
    law_schedule_respects_dependencies(steps);
    let order = schedule(steps);
    let k = choose|k: int|
        0 <= k < steps.len() && (#[trigger] steps[k]).id == walk[i] && steps[k].dependencies.contains(walk[i + 1]);
    let m = choose|m: int|
        0 <= m < steps.len() && (#[trigger] steps[m]).id == order[p] && forall|d: int|
            0 <= d < steps[m].dependencies.len() ==> order.take(p).contains(#[trigger] steps[m].dependencies[d]);
    if k < m {
        assert(steps[k].id != steps[m].id);
    } else if m < k {
        assert(steps[m].id != steps[k].id);
    }
    let d = choose|d: int| 0 <= d < steps[k].dependencies.len() && steps[k].dependencies[d] == walk[i + 1];
    assert(order.take(p).contains(steps[m].dependencies[d]));
    let q = choose|q: int| 0 <= q < order.take(p).len() && order.take(p)[q] == walk[i + 1];
    q
}

/// From a scheduled step a walk only goes back in the schedule.
proof fn lemma_walk_goes_back(steps: Seq<Step>, walk: Seq<Seq<char>>, i: int, j: int, p: int) -> (q: int)
    requires
        distinct(steps),
        is_walk(steps, walk),
        0 <= i <= j < walk.len(),
        0 <= p < schedule(steps).len(),
        schedule(steps)[p] == walk[i],
    ensures
        0 <= q <= p,
        i < j ==> q < p,
        schedule(steps)[q] == walk[j],
    decreases j - i,
{
    if i == j {
        p
    } else {
        assert(links(steps, walk, i));
        let q = lemma_link_goes_back(steps, walk, i, p);
        lemma_walk_goes_back(steps, walk, i + 1, j, q)
    }
}

/// Exactly the steps on a cycle, and those that depend on them, are left out.
pub proof fn law_cycles_are_left_out(steps: Seq<Step>)
    requires
        distinct(steps),
        known(steps),
    ensures
        forall|id: Seq<char>| #[trigger]
            left_out(steps, schedule(steps)).contains(id) <==> leads_to_cycle(steps, id),
        schedule(steps).len() != steps.len() <==> exists|walk: Seq<Seq<char>>| #[trigger] closes(steps, walk),
{
    let order = schedule(steps);
    law_schedule_respects_dependencies(steps);
    law_left_out_ascends(steps, order);
    assert forall|id: Seq<char>| #[trigger] left_out(steps, order).contains(id) <==> leads_to_cycle(steps, id) by {
        if left_out(steps, order).contains(id) {
            let k = choose|k: int| 0 <= k < steps.len() && (#[trigger] steps[k]).id == id;
            assert(step_ids(steps)[k] == id);
            if order.len() == steps.len() {
                law_full_schedule_covers(steps);
                assert(order.contains(steps[k].id));
            }
            lemma_waiting_leads_to_cycle(steps, id);
        }
        if leads_to_cycle(steps, id) {
            let walk = choose|walk: Seq<Seq<char>>| walk.len() > 0 && walk[0] == id && #[trigger] closes(steps, walk);
            lemma_closed_walk_is_left_out(steps, walk);
        }
    }
    if order.len() != steps.len() {
        if covers(steps, order) {
            lemma_covering_is_long(steps, order);
        }
        let k = choose|k: int| 0 <= k < steps.len() && !order.contains((#[trigger] steps[k]).id);
        assert(left_out(steps, order).contains(steps[k].id));
        assert(leads_to_cycle(steps, steps[k].id));
    }
    if exists|walk: Seq<Seq<char>>| #[trigger] closes(steps, walk) {
        let walk = choose|walk: Seq<Seq<char>>| #[trigger] closes(steps, walk);
        lemma_closed_walk_is_left_out(steps, walk);
        if order.len() == steps.len() {
            law_full_schedule_covers(steps);
            let k = choose|k: int| 0 <= k < steps.len() && (#[trigger] steps[k]).id == walk[0];
            assert(order.contains(steps[k].id));
        }
    }
}

proof fn lemma_closed_walk_is_left_out(steps: Seq<Step>, walk: Seq<Seq<char>>)
    requires
        distinct(steps),
        closes(steps, walk),
    ensures
        left_out(steps, schedule(steps)).contains(walk[0]),
        exists|k: int| 0 <= k < steps.len() && (#[trigger] steps[k]).id == walk[0],
        !schedule(steps).contains(walk[0]),
{
    let order = schedule(steps);
    law_schedule_respects_dependencies(steps);
    law_left_out_ascends(steps, order);
    let j = choose|j: int| 0 <= j < walk.len() - 1 && #[trigger] walk[j] == walk.last();
    assert(links(steps, walk, 0));
    if order.contains(walk[0]) {
        let p = choose|p: int| 0 <= p < order.len() && order[p] == walk[0];
        let q = lemma_walk_goes_back(steps, walk, 0, j, p);
        let r = lemma_walk_goes_back(steps, walk, j, walk.len() - 1, q);
        assert(order[q] == order[r]);
    }
}

} // verus!
