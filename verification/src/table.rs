//! Tables: values under names, in the order of the names.

use vstd::prelude::*;

use crate::json::{keys_ascending, lemma_set_member_ascending, lemma_set_member_at, lookup, set_member};
use crate::order::{lemma_text_order_equal, order_texts, text_order, Order};
use crate::text::same_text;

verus! {

/// Values under names. A name occurs once, and the names ascend.
pub struct Table<T> {
    entries: Vec<(String, T)>,
}

/// The entries as pairs of a name and a value.
pub open spec fn rows<T>(entries: Seq<(String, T)>) -> Seq<(Seq<char>, T)> {
    entries.map_values(|e: (String, T)| (e.0@, e.1))
}

impl<T> Table<T> {
    pub closed spec fn view(&self) -> Seq<(Seq<char>, T)> {
        rows(self.entries@)
    }

    #[verifier::type_invariant]
    spec fn inv(self) -> bool {
        keys_ascending(rows(self.entries@))
    }

    pub fn new() -> (r: Self)
        ensures
            r@ == Seq::<(Seq<char>, T)>::empty(),
    {
        let entries: Vec<(String, T)> = Vec::new();
        assert(rows(entries@) =~= Seq::empty());
        Table { entries }
    }

    pub fn len(&self) -> (r: usize)
        ensures
            r == self@.len(),
    {
        self.entries.len()
    }

    /// The name and the value at a place.
    pub fn at(&self, i: usize) -> (r: (&str, &T))
        requires
            i < self@.len(),
        ensures
            self@[i as int] == (r.0@, *r.1),
    {
        (self.entries[i].0.as_str(), &self.entries[i].1)
    }

    /// The value under a name.
    pub fn get(&self, name: &str) -> (r: Option<&T>)
        ensures
            match r {
                Some(value) => lookup(self@, name@) == Some(*value),
                None => lookup(self@, name@) is None,
            },
            keys_ascending(self@),
    {
        proof {
            use_type_invariant(self);
        }
        let mut i: usize = 0;
        assert(self@.skip(0) =~= self@);
        while i < self.entries.len()
            invariant
                i <= self.entries@.len(),
                keys_ascending(self@),
                lookup(self@, name@) == lookup(self@.skip(i as int), name@),
            decreases self.entries@.len() - i,
        {
            assert(self@.skip(i as int)[0] == (self.entries@[i as int].0@, self.entries@[i as int].1));
            if same_text(self.entries[i].0.as_str(), name) {
                return Some(&self.entries[i].1);
            }
            assert(self@.skip(i as int).drop_first() =~= self@.skip(i + 1));
            i += 1;
        }
        None
    }

    pub fn contains(&self, name: &str) -> (r: bool)
        ensures
            r == lookup(self@, name@) is Some,
    {
        self.get(name).is_some()
    }

    /// Puts a value under a name, in place of one that stood there.
    pub fn insert(&mut self, name: &str, value: T)
        ensures
            final(self)@ == set_member(old(self)@, name@, value),
            lookup(final(self)@, name@) == Some(value),
    {
        proof {
            use_type_invariant(&*self);
        }
        let mut entries: Vec<(String, T)> = Vec::new();
        std::mem::swap(&mut entries, &mut self.entries);
        let ghost before = entries@;
        let ghost given = value;
        let mut i: usize = 0;
        let mut order = Order::Greater;
        while i < entries.len() && order == Order::Greater
            invariant
                entries@ == before,
                i <= before.len(),
                order == Order::Greater ==> forall|j: int|
                    0 <= j < i ==> text_order(name@, (#[trigger] before[j]).0@) == Order::Greater,
                order != Order::Greater ==> i > 0 && order == text_order(name@, before[i - 1].0@) && forall|j: int|
                    0 <= j < i - 1 ==> text_order(name@, (#[trigger] before[j]).0@) == Order::Greater,
            decreases before.len() - i,
        {
            order = order_texts(name, entries[i].0.as_str());
            i += 1;
        }
        let ghost all = rows(before);
        proof {
            lemma_set_member_ascending(all, name@, given);
            law_insert_then_get(all, name@, given, name@);
        }
        match order {
            Order::Greater => {
                entries.push((name.to_owned(), value));
                proof {
                    lemma_set_member_at(all, name@, given, i as int);
                    assert(rows(entries@) =~= all.push((name@, given)));
                }
            },
            Order::Equal => {
                entries.remove(i - 1);
                entries.insert(i - 1, (name.to_owned(), value));
                proof {
                    lemma_set_member_at(all, name@, given, i - 1);
                    assert(rows(entries@) =~= all.update(i - 1, (name@, given)));
                }
            },
            Order::Less => {
                entries.insert(i - 1, (name.to_owned(), value));
                proof {
                    lemma_set_member_at(all, name@, given, i - 1);
                    assert(rows(entries@) =~= all.insert(i - 1, (name@, given)));
                }
            },
        }
        self.entries = entries;
    }

    /// Takes the value under a name out.
    pub fn remove(&mut self, name: &str) -> (r: Option<T>)
        ensures
            r == lookup(old(self)@, name@),
            final(self)@ == without(old(self)@, name@),
            r is None ==> final(self)@ == old(self)@,
            keys_ascending(old(self)@),
    {
        proof {
            use_type_invariant(&*self);
        }
        let mut entries: Vec<(String, T)> = Vec::new();
        std::mem::swap(&mut entries, &mut self.entries);
        let ghost all = rows(entries@);
        let mut i: usize = 0;
        assert(all.skip(0) =~= all);
        let mut found = false;
        while i < entries.len() && !found
            invariant
                rows(entries@) == all,
                i <= entries@.len(),
                !found ==> lookup(all, name@) == lookup(all.skip(i as int), name@) && forall|j: int|
                    0 <= j < i ==> (#[trigger] all[j]).0 != name@,
                found ==> i < entries@.len() && all[i as int].0 == name@ && lookup(all, name@) == Some(all[i as int].1)
                    && forall|j: int| 0 <= j < i ==> (#[trigger] all[j]).0 != name@,
            decreases entries@.len() - i, (if found { 0int } else { 1int }),
        {
            assert(all.skip(i as int)[0] == (entries@[i as int].0@, entries@[i as int].1));
            if same_text(entries[i].0.as_str(), name) {
                found = true;
            } else {
                assert(all.skip(i as int).drop_first() =~= all.skip(i + 1));
                i += 1;
            }
        }
        if found {
            proof {
                lemma_without_at(all, name@, i as int);
                lemma_remove_ascending(all, i as int);
            }
            let (_, value) = entries.remove(i);
            assert(rows(entries@) =~= all.remove(i as int));
            self.entries = entries;
            Some(value)
        } else {
            proof {
                lemma_without_absent(all, name@);
            }
            self.entries = entries;
            None
        }
    }
}

/// The rows but the one under a name.
pub open spec fn without<T>(all: Seq<(Seq<char>, T)>, name: Seq<char>) -> Seq<(Seq<char>, T)>
    decreases all.len(),
{
    if all.len() == 0 {
        all
    } else if all[0].0 == name {
        all.drop_first()
    } else {
        seq![all[0]] + without(all.drop_first(), name)
    }
}

proof fn lemma_without_at<T>(all: Seq<(Seq<char>, T)>, name: Seq<char>, i: int)
    requires
        0 <= i < all.len(),
        all[i].0 == name,
        forall|j: int| 0 <= j < i ==> (#[trigger] all[j]).0 != name,
    ensures
        without(all, name) == all.remove(i),
    decreases all.len(),
{
    let out = without(all, name);
    if i == 0 {
        assert(out =~= all.remove(0));
    } else {
        assert(all[0].0 != name);
        assert forall|j: int| 0 <= j < i - 1 implies (#[trigger] all.drop_first()[j]).0 != name by {
            assert(all.drop_first()[j] == all[j + 1]);
        }
        lemma_without_at(all.drop_first(), name, i - 1);
        assert(out =~= all.remove(i));
    }
}

proof fn lemma_without_absent<T>(all: Seq<(Seq<char>, T)>, name: Seq<char>)
    requires
        forall|j: int| 0 <= j < all.len() ==> (#[trigger] all[j]).0 != name,
    ensures
        without(all, name) == all,
    decreases all.len(),
{
    if all.len() > 0 {
        assert(all[0].0 != name);
        assert forall|j: int| 0 <= j < all.drop_first().len() implies (#[trigger] all.drop_first()[j]).0 != name by {
            assert(all.drop_first()[j] == all[j + 1]);
        }
        lemma_without_absent(all.drop_first(), name);
        assert(without(all, name) =~= all);
    }
}

proof fn lemma_remove_ascending<T>(all: Seq<(Seq<char>, T)>, i: int)
    requires
        0 <= i < all.len(),
        keys_ascending(all),
    ensures
        keys_ascending(all.remove(i)),
{
    let out = all.remove(i);
    assert forall|a: int, b: int|
        #![trigger out[a], out[b]]
        0 <= a < b < out.len() implies text_order(out[a].0, out[b].0) == Order::Less by {
        let x = if a < i { a } else { a + 1 };
        let y = if b < i { b } else { b + 1 };
        assert(out[a] == all[x] && out[b] == all[y]);
    }
}

/// A value put under a name is found there, and what stands under other names stays.
pub proof fn law_insert_then_get<T>(all: Seq<(Seq<char>, T)>, name: Seq<char>, value: T, other: Seq<char>)
    requires
        keys_ascending(all),
    ensures
        lookup(set_member(all, name, value), other) == (if other == name {
            Some(value)
        } else {
            lookup(all, other)
        }),
{
    crate::json::lemma_lookup_set_member(all, name, value, other);
}

/// A table grows by one when a name is new, and keeps its length otherwise.
pub proof fn law_insert_counts_names<T>(all: Seq<(Seq<char>, T)>, name: Seq<char>, value: T)
    requires
        keys_ascending(all),
    ensures
        set_member(all, name, value).len() == all.len() + (if lookup(all, name) is Some {
            0int
        } else {
            1int
        }),
    decreases all.len(),
{
    if all.len() > 0 {
        let tail = all.drop_first();
        lemma_text_order_equal(name, all[0].0);
        lemma_tail_ascending(all);
        match text_order(name, all[0].0) {
            Order::Less => {
                lemma_smaller_is_absent(all, name);
            },
            Order::Equal => {},
            Order::Greater => {
                law_insert_counts_names(tail, name, value);
            },
        }
    }
}

proof fn lemma_tail_ascending<T>(all: Seq<(Seq<char>, T)>)
    requires
        all.len() > 0,
        keys_ascending(all),
    ensures
        keys_ascending(all.drop_first()),
{
    lemma_remove_ascending(all, 0);
    assert(all.remove(0) =~= all.drop_first());
}

proof fn lemma_smaller_is_absent<T>(all: Seq<(Seq<char>, T)>, name: Seq<char>)
    requires
        keys_ascending(all),
        all.len() > 0 ==> text_order(name, all[0].0) == Order::Less,
    ensures
        lookup(all, name) is None,
    decreases all.len(),
{
    if all.len() > 0 {
        let tail = all.drop_first();
        lemma_text_order_equal(name, all[0].0);
        lemma_tail_ascending(all);
        if tail.len() > 0 {
            assert(tail[0] == all[1]);
            crate::order::lemma_text_order_transitive(name, all[0].0, tail[0].0);
        }
        lemma_smaller_is_absent(tail, name);
    }
}

/// Taking a value out and putting another under its name replaces it.
pub proof fn law_remove_then_insert_replaces<T>(all: Seq<(Seq<char>, T)>, name: Seq<char>, value: T)
    requires
        keys_ascending(all),
    ensures
        set_member(without(all, name), name, value) == set_member(all, name, value),
    decreases all.len(),
{
    if all.len() > 0 {
        let tail = all.drop_first();
        lemma_text_order_equal(name, all[0].0);
        lemma_tail_ascending(all);
        if all[0].0 == name {
            if tail.len() > 0 {
                assert(tail[0] == all[1]);
            }
            assert(set_member(tail, name, value) =~= seq![(name, value)] + tail);
        } else {
            law_remove_then_insert_replaces(tail, name, value);
            let rest = without(tail, name);
            let short = without(all, name);
            assert(short[0] == all[0]);
            assert(short.drop_first() =~= rest);
            if text_order(name, all[0].0) == Order::Less {
                lemma_smaller_is_absent(all, name);
                lemma_absent_rows(all, name);
                lemma_without_absent(all, name);
            }
        }
    }
}

proof fn lemma_absent_rows<T>(all: Seq<(Seq<char>, T)>, name: Seq<char>)
    requires
        lookup(all, name) is None,
    ensures
        forall|j: int| 0 <= j < all.len() ==> (#[trigger] all[j]).0 != name,
    decreases all.len(),
{
    if all.len() > 0 {
        lemma_absent_rows(all.drop_first(), name);
        assert forall|j: int| 0 <= j < all.len() implies (#[trigger] all[j]).0 != name by {
            if j > 0 {
                assert(all.drop_first()[j - 1] == all[j]);
            }
        }
    }
}

} // verus!
