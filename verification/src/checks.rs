//! Checks that are applied one after the other.

use vstd::prelude::*;

verus! {

/// The outcome of the first check that fails.
pub open spec fn check_all<A, E>(s: Seq<A>, check: spec_fn(A) -> Result<(), E>) -> Result<(), E>
    decreases s.len(),
{
    if s.len() == 0 {
        Ok(())
    } else {
        match check(s[0]) {
            Err(e) => Err(e),
            Ok(_) => check_all(s.drop_first(), check),
        }
    }
}

/// The results of a fallible function on each element, or its first failure.
pub open spec fn map_all<A, B, E>(s: Seq<A>, f: spec_fn(A) -> Result<B, E>) -> Result<Seq<B>, E>
    decreases s.len(),
{
    if s.len() == 0 {
        Ok(Seq::empty())
    } else {
        match f(s[0]) {
            Err(e) => Err(e),
            Ok(b) => match map_all(s.drop_first(), f) {
                Err(e) => Err(e),
                Ok(bs) => Ok(seq![b] + bs),
            },
        }
    }
}

/// `map_all` on the whole, when `done` holds the results on the first `i` elements.
pub open spec fn map_continues<A, B, E>(s: Seq<A>, f: spec_fn(A) -> Result<B, E>, done: Seq<B>, i: int) -> bool {
    map_all(s, f) == (match map_all(s.skip(i), f) {
        Ok(bs) => Ok(done + bs),
        Err(e) => Err(e),
    })
}

pub proof fn lemma_map_start<A, B, E>(s: Seq<A>, f: spec_fn(A) -> Result<B, E>)
    ensures
        map_continues(s, f, Seq::empty(), 0),
{
    assert(s.skip(0) =~= s);
    match map_all(s, f) {
        Ok(bs) => {
            assert(Seq::<B>::empty() + bs =~= bs);
        },
        Err(e) => {},
    }
}

pub proof fn lemma_map_step<A, B, E>(s: Seq<A>, f: spec_fn(A) -> Result<B, E>, done: Seq<B>, i: int)
    requires
        0 <= i < s.len(),
        map_continues(s, f, done, i),
    ensures
        match f(s[i]) {
            Ok(b) => map_continues(s, f, done.push(b), i + 1),
            Err(e) => map_all(s, f) == Err::<Seq<B>, E>(e),
        },
{
    assert(s.skip(i).drop_first() =~= s.skip(i + 1));
    match f(s[i]) {
        Ok(b) => match map_all(s.skip(i + 1), f) {
            Ok(bs) => {
                assert(done + (seq![b] + bs) =~= done.push(b) + bs);
            },
            Err(e) => {},
        },
        Err(e) => {},
    }
}

pub proof fn lemma_map_end<A, B, E>(s: Seq<A>, f: spec_fn(A) -> Result<B, E>, done: Seq<B>)
    requires
        map_continues(s, f, done, s.len() as int),
    ensures
        map_all(s, f) == Ok::<Seq<B>, E>(done),
{
    assert(s.skip(s.len() as int).len() == 0);
    assert(done + Seq::<B>::empty() =~= done);
}

/// A function that succeeds on every element maps the whole sequence.
pub proof fn lemma_map_all_ok<A, B, E>(s: Seq<A>, f: spec_fn(A) -> Result<B, E>, out: Seq<B>)
    requires
        s.len() == out.len(),
        forall|i: int| 0 <= i < s.len() ==> #[trigger] f(s[i]) == Ok::<B, E>(out[i]),
    ensures
        map_all(s, f) == Ok::<Seq<B>, E>(out),
    decreases s.len(),
{
    if s.len() > 0 {
        let t = s.drop_first();
        let u = out.drop_first();
        assert forall|i: int| 0 <= i < t.len() implies #[trigger] f(t[i]) == Ok::<B, E>(u[i]) by {
            assert(f(s[i + 1]) == Ok::<B, E>(out[i + 1]));
        }
        lemma_map_all_ok(t, f, u);
        assert(f(s[0]) == Ok::<B, E>(out[0]));
        assert(out =~= seq![out[0]] + u);
    } else {
        assert(out =~= Seq::empty());
    }
}

/// The second outcome, unless the first is a failure.
pub open spec fn and_then<A, B, E>(first: Result<A, E>, second: Result<B, E>) -> Result<B, E> {
    match first {
        Err(e) => Err(e),
        Ok(_) => second,
    }
}

/// Passing all checks is passing each.
pub proof fn lemma_check_all<A, E>(s: Seq<A>, check: spec_fn(A) -> Result<(), E>)
    ensures
        check_all(s, check) is Ok <==> forall|i: int| 0 <= i < s.len() ==> (#[trigger] check(s[i])) is Ok,
    decreases s.len(),
{
    if s.len() > 0 {
        let t = s.drop_first();
        lemma_check_all(t, check);
        if check_all(s, check) is Ok {
            assert forall|i: int| 0 <= i < s.len() implies (#[trigger] check(s[i])) is Ok by {
                if i > 0 {
                    assert(check(t[i - 1]) is Ok);
                }
            }
        }
        if forall|i: int| 0 <= i < s.len() ==> (#[trigger] check(s[i])) is Ok {
            assert(check(s[0]) is Ok);
            assert forall|i: int| 0 <= i < t.len() implies (#[trigger] check(t[i])) is Ok by {
                assert(check(s[i + 1]) is Ok);
            }
        }
    }
}

/// One step of a loop that applies the checks in order.
pub proof fn lemma_check_step<A, E>(s: Seq<A>, i: int, check: spec_fn(A) -> Result<(), E>)
    requires
        0 <= i < s.len(),
    ensures
        check_all(s.skip(i), check) == (match check(s[i]) {
            Err(e) => Err(e),
            Ok(_) => check_all(s.skip(i + 1), check),
        }),
{
    assert(s.skip(i).drop_first() =~= s.skip(i + 1));
}

/// A failure is that of the first check that fails, and there is one.
pub proof fn law_first_failure_is_reported<A, E>(s: Seq<A>, check: spec_fn(A) -> Result<(), E>)
    ensures
        check_all(s, check) matches Err(e) ==> exists|i: int|
            0 <= i < s.len() && #[trigger] check(s[i]) == Err::<(), E>(e) && forall|j: int|
                0 <= j < i ==> (#[trigger] check(s[j])) is Ok,
    decreases s.len(),
{
    if s.len() > 0 {
        let t = s.drop_first();
        law_first_failure_is_reported(t, check);
        match check_all(s, check) {
            Err(e) => {
                if check(s[0]) is Ok {
                    let i = choose|i: int|
                        0 <= i < t.len() && #[trigger] check(t[i]) == Err::<(), E>(e) && forall|j: int|
                            0 <= j < i ==> (#[trigger] check(t[j])) is Ok;
                    assert(check(s[i + 1]) == Err::<(), E>(e));
                    assert forall|j: int| 0 <= j < i + 1 implies (#[trigger] check(s[j])) is Ok by {
                        if j > 0 {
                            assert(check(t[j - 1]) is Ok);
                        }
                    }
                } else {
                    assert(check(s[0]) == Err::<(), E>(e));
                }
            },
            Ok(_) => {},
        }
    }
}

/// What is mapped whole is mapped one for one; what is not fails on some element.
pub proof fn law_mapped_one_for_one<A, B, E>(s: Seq<A>, f: spec_fn(A) -> Result<B, E>)
    ensures
        match map_all(s, f) {
            Ok(out) => out.len() == s.len() && forall|i: int|
                #![trigger f(s[i])]
                #![trigger out[i]]
                0 <= i < s.len() ==> f(s[i]) == Ok::<B, E>(out[i]),
            Err(e) => exists|i: int| 0 <= i < s.len() && #[trigger] f(s[i]) == Err::<B, E>(e),
        },
    decreases s.len(),
{
    if s.len() > 0 {
        let t = s.drop_first();
        law_mapped_one_for_one(t, f);
        match f(s[0]) {
            Err(e) => {
                assert(f(s[0]) == Err::<B, E>(e));
            },
            Ok(b) => match map_all(t, f) {
                Ok(bs) => {
                    let out = seq![b] + bs;
                    assert forall|i: int| 0 <= i < s.len() implies #[trigger] f(s[i]) == Ok::<B, E>(out[i]) by {
                        if i > 0 {
                            assert(f(t[i - 1]) == Ok::<B, E>(bs[i - 1]));
                        }
                    }
                    assert forall|i: int| 0 <= i < s.len() implies f(s[i]) == Ok::<B, E>(#[trigger] out[i]) by {}
                },
                Err(e) => {
                    let i = choose|i: int| 0 <= i < t.len() && #[trigger] f(t[i]) == Err::<B, E>(e);
                    assert(f(s[i + 1]) == Err::<B, E>(e));
                },
            },
        }
    }
}

} // verus!
