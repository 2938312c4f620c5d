//! The canonical order of texts and of records keyed by texts, sorting, and
//! removal of duplicates.

use vstd::prelude::*;
use vstd::relations::{sorted_by, total_ordering};
use vstd::seq_lib::lemma_sorted_unique;

use crate::text::{chars_of, texts};

verus! {

/// The outcome of comparing two values.
#[derive(Debug, Clone, Copy, PartialEq, Eq, Structural)]
pub enum Order {
    Less,
    Equal,
    Greater,
}

/// Lexicographic order by code point.
pub open spec fn text_order(a: Seq<char>, b: Seq<char>) -> Order
    decreases a.len(),
{
    if a.len() == 0 && b.len() == 0 {
        Order::Equal
    } else if a.len() == 0 {
        Order::Less
    } else if b.len() == 0 {
        Order::Greater
    } else if a[0] < b[0] {
        Order::Less
    } else if b[0] < a[0] {
        Order::Greater
    } else {
        text_order(a.drop_first(), b.drop_first())
    }
}

/// A record is ordered by the texts of its fields, first field first.
pub type Key = Seq<Seq<char>>;

/// Lexicographic order of keys, each component compared as a text.
pub open spec fn key_order(a: Key, b: Key) -> Order
    decreases a.len(),
{
    if a.len() == 0 && b.len() == 0 {
        Order::Equal
    } else if a.len() == 0 {
        Order::Less
    } else if b.len() == 0 {
        Order::Greater
    } else {
        match text_order(a[0], b[0]) {
            Order::Equal => key_order(a.drop_first(), b.drop_first()),
            other => other,
        }
    }
}

pub open spec fn flip(o: Order) -> Order {
    match o {
        Order::Less => Order::Greater,
        Order::Equal => Order::Equal,
        Order::Greater => Order::Less,
    }
}

pub proof fn lemma_text_order_equal(a: Seq<char>, b: Seq<char>)
    ensures
        text_order(a, b) == Order::Equal <==> a == b,
    decreases a.len(),
{
    if a.len() > 0 && b.len() > 0 && a[0] == b[0] {
        lemma_text_order_equal(a.drop_first(), b.drop_first());
        if a.drop_first() == b.drop_first() {
            assert(a =~= seq![a[0]] + a.drop_first());
            assert(b =~= seq![b[0]] + b.drop_first());
        }
    } else if a.len() == 0 && b.len() == 0 {
        assert(a =~= b);
    }
}

pub proof fn lemma_text_order_flip(a: Seq<char>, b: Seq<char>)
    ensures
        text_order(b, a) == flip(text_order(a, b)),
    decreases a.len(),
{
    if a.len() > 0 && b.len() > 0 && a[0] == b[0] {
        lemma_text_order_flip(a.drop_first(), b.drop_first());
    }
}

pub proof fn lemma_text_order_transitive(a: Seq<char>, b: Seq<char>, c: Seq<char>)
    ensures
        text_order(a, b) == Order::Less && text_order(b, c) == Order::Less ==> text_order(a, c)
            == Order::Less,
    decreases a.len(),
{
    if a.len() > 0 && b.len() > 0 && c.len() > 0 {
        lemma_text_order_transitive(a.drop_first(), b.drop_first(), c.drop_first());
    }
}

pub proof fn lemma_key_order_equal(a: Key, b: Key)
    ensures
        key_order(a, b) == Order::Equal <==> a == b,
    decreases a.len(),
{
    if a.len() > 0 && b.len() > 0 {
        lemma_text_order_equal(a[0], b[0]);
        lemma_key_order_equal(a.drop_first(), b.drop_first());
        if a[0] == b[0] && a.drop_first() == b.drop_first() {
            assert(a =~= seq![a[0]] + a.drop_first());
            assert(b =~= seq![b[0]] + b.drop_first());
        }
    } else if a.len() == 0 && b.len() == 0 {
        assert(a =~= b);
    }
}

pub proof fn lemma_key_order_flip(a: Key, b: Key)
    ensures
        key_order(b, a) == flip(key_order(a, b)),
    decreases a.len(),
{
    if a.len() > 0 && b.len() > 0 {
        lemma_text_order_flip(a[0], b[0]);
        lemma_key_order_flip(a.drop_first(), b.drop_first());
    }
}

pub proof fn lemma_key_order_transitive(a: Key, b: Key, c: Key)
    ensures
        key_order(a, b) == Order::Less && key_order(b, c) == Order::Less ==> key_order(a, c)
            == Order::Less,
    decreases a.len(),
{
    if a.len() > 0 && b.len() > 0 && c.len() > 0 {
        lemma_text_order_transitive(a[0], b[0], c[0]);
        lemma_text_order_equal(a[0], b[0]);
        lemma_text_order_equal(b[0], c[0]);
        lemma_text_order_equal(a[0], c[0]);
        lemma_key_order_transitive(a.drop_first(), b.drop_first(), c.drop_first());
    }
}

/// "Not after", as a relation on keys.
pub open spec fn key_leq() -> spec_fn(Key, Key) -> bool {
    |a: Key, b: Key| key_order(a, b) != Order::Greater
}

/// The order of keys is total.
pub proof fn lemma_key_order_total()
    ensures
        total_ordering(key_leq()),
{
    let leq = key_leq();
    assert forall|a: Key| #[trigger] leq(a, a) by {
        lemma_key_order_equal(a, a);
    }
    assert forall|a: Key, b: Key| #[trigger] leq(a, b) && #[trigger] leq(b, a) implies a == b by {
        lemma_key_order_flip(a, b);
        lemma_key_order_equal(a, b);
    }
    assert forall|a: Key, b: Key, c: Key| #[trigger] leq(a, b) && #[trigger] leq(b, c) implies leq(
        a,
        c,
    ) by {
        lemma_key_order_transitive(a, b, c);
        lemma_key_order_equal(a, b);
        lemma_key_order_equal(b, c);
    }
    assert forall|a: Key, b: Key| #[trigger] leq(a, b) || #[trigger] leq(b, a) by {
        lemma_key_order_flip(a, b);
    }
}

/// Compares two texts by code point.
pub fn order_texts(a: &str, b: &str) -> (r: Order)
    ensures
        r == text_order(a@, b@),
{
    let x = chars_of(a);
    let y = chars_of(b);
    let mut i: usize = 0;
    assert(a@.skip(0) == a@ && b@.skip(0) == b@);
    while i < x.len() && i < y.len()
        invariant
            i <= x@.len(),
            i <= y@.len(),
            x@ == a@,
            y@ == b@,
            text_order(a@, b@) == text_order(a@.skip(i as int), b@.skip(i as int)),
        decreases x@.len() - i,
    {
        if x[i] < y[i] {
            return Order::Less;
        }
        if y[i] < x[i] {
            return Order::Greater;
        }
        assert(a@.skip(i as int).drop_first() == a@.skip(i + 1));
        assert(b@.skip(i as int).drop_first() == b@.skip(i + 1));
        i += 1;
    }
    if i < x.len() {
        Order::Greater
    } else if i < y.len() {
        Order::Less
    } else {
        Order::Equal
    }
}

/// Compares two lists of texts, component by component.
pub fn order_text_lists(a: &[String], b: &[String]) -> (r: Order)
    ensures
        r == key_order(texts(a@), texts(b@)),
{
    let mut i: usize = 0;
    assert(texts(a@).skip(0) == texts(a@) && texts(b@).skip(0) == texts(b@));
    while i < a.len() && i < b.len()
        invariant
            i <= a@.len(),
            i <= b@.len(),
            key_order(texts(a@), texts(b@)) == key_order(
                texts(a@).skip(i as int),
                texts(b@).skip(i as int),
            ),
        decreases a@.len() - i,
    {
        let o = order_texts(a[i].as_str(), b[i].as_str());
        assert(texts(a@).skip(i as int)[0] == a@[i as int]@);
        assert(texts(b@).skip(i as int)[0] == b@[i as int]@);
        if o != Order::Equal {
            return o;
        }
        assert(texts(a@).skip(i as int).drop_first() == texts(a@).skip(i + 1));
        assert(texts(b@).skip(i as int).drop_first() == texts(b@).skip(i + 1));
        i += 1;
    }
    if i < a.len() {
        Order::Greater
    } else if i < b.len() {
        Order::Less
    } else {
        Order::Equal
    }
}

/// Two keys that begin with the given component compare by it first.
pub proof fn lemma_key_order_cons(x: Seq<char>, a: Key, y: Seq<char>, b: Key)
    ensures
        key_order(seq![x] + a, seq![y] + b) == (match text_order(x, y) {
            Order::Equal => key_order(a, b),
            other => other,
        }),
{
    assert((seq![x] + a).drop_first() =~= a);
    assert((seq![y] + b).drop_first() =~= b);
}

/// Records with a sort key.
pub trait Keyed: Sized {
    /// The texts by which the record is ordered.
    spec fn key(&self) -> Key;

    /// Compares two records by their keys.
    fn order_by_key(&self, other: &Self) -> (r: Order)
        ensures
            r == key_order(self.key(), other.key()),
    ;

    /// The first text of the key.
    fn primary(&self) -> (r: &str)
        ensures
            self.key().len() > 0,
            r@ == self.key()[0],
    ;
}

impl Keyed for String {
    open spec fn key(&self) -> Key {
        seq![self@]
    }

    fn order_by_key(&self, other: &Self) -> (r: Order) {
        proof {
            reveal_with_fuel(key_order, 2);
        }
        order_texts(self.as_str(), other.as_str())
    }

    fn primary(&self) -> (r: &str) {
        self.as_str()
    }
}

/// The keys of a sequence of records.
pub open spec fn keys<T: Keyed>(s: Seq<T>) -> Seq<Key> {
    s.map_values(|x: T| x.key())
}

/// The keys in ascending order.
pub open spec fn sorted(s: Seq<Key>) -> Seq<Key> {
    s.sort_by(key_leq())
}

/// A sequence of keys is in ascending order.
pub open spec fn ascending(s: Seq<Key>) -> bool {
    sorted_by(s, key_leq())
}

/// Any ascending arrangement of the same keys is the sorted one.
pub proof fn lemma_sorted_unique_keys(s: Seq<Key>, t: Seq<Key>)
    requires
        ascending(t),
        s.to_multiset() == t.to_multiset(),
    ensures
        t == sorted(s),
{
    lemma_key_order_total();
    s.lemma_sort_by_ensures(key_leq());
    lemma_sorted_unique(t, sorted(s), key_leq());
}

/// Sorting does not depend on the order in which the keys are given.
pub proof fn lemma_sorted_ignores_input_order(s: Seq<Key>, t: Seq<Key>)
    requires
        s.to_multiset() == t.to_multiset(),
    ensures
        sorted(s) == sorted(t),
{
    lemma_key_order_total();
    t.lemma_sort_by_ensures(key_leq());
    lemma_sorted_unique_keys(s, sorted(t));
}

/// `out` holds the records of `given` in ascending order of their keys.
pub open spec fn is_sorted_of<T: Keyed>(out: Seq<T>, given: Seq<T>) -> bool {
    out.to_multiset() == given.to_multiset() && ascending(keys(out))
}

/// Sorts records by key; records with equal keys keep their order.
pub fn sort_records<T: Keyed>(v: Vec<T>) -> (r: Vec<T>)
    ensures
        is_sorted_of(r@, v@),
        r@.len() == v@.len(),
        keys(r@) == sorted(keys(v@)),
{
    broadcast use vstd::seq_lib::group_to_multiset_ensures;
    let ghost given = v@;
    let mut rest = v;
    let mut out: Vec<T> = Vec::new();
    proof {
        assert(given.skip(given.len() as int) =~= Seq::empty());
        assert(keys(given).skip(given.len() as int) =~= Seq::empty());
        assert(keys(out@) =~= Seq::empty());
    }
    while rest.len() > 0
        invariant
            rest@.len() <= given.len(),
            rest@ == given.take(rest@.len() as int),
            out@.len() == given.len() - rest@.len(),
            out@.to_multiset() == given.skip(rest@.len() as int).to_multiset(),
            keys(out@).to_multiset() == keys(given).skip(rest@.len() as int).to_multiset(),
            ascending(keys(out@)),
        decreases rest@.len(),
    {
        broadcast use vstd::seq_lib::group_to_multiset_ensures;
        let ghost k = rest@.len() - 1;
        let x = rest.pop().unwrap();
        let ghost before = out@;
        let mut i: usize = 0;
        while i < out.len() && out[i].order_by_key(&x) == Order::Less
            invariant
                i <= out@.len(),
                out@ == before,
                forall|j: int| 0 <= j < i ==> key_order(#[trigger] out@[j].key(), x.key()) == Order::Less,
            decreases out@.len() - i,
        {
            i += 1;
        }
        out.insert(i, x);
        proof {
            assert(x == given[k]);
            assert(given.skip(k).drop_first() =~= given.skip(k + 1));
            assert(given.skip(k) =~= given.skip(k + 1).insert(0, x));
            assert(keys(given).skip(k) =~= keys(given).skip(k + 1).insert(0, x.key()));
            assert(keys(out@) =~= keys(before).insert(i as int, x.key()));
            lemma_insert_ascending(keys(before), i as int, x.key());
        }
    }
    proof {
        assert(given.skip(0) =~= given);
        assert(keys(given).skip(0) =~= keys(given));
        lemma_sorted_unique_keys(keys(given), keys(out@));
    }
    out
}

proof fn lemma_insert_ascending(s: Seq<Key>, i: int, x: Key)
    requires
        ascending(s),
        0 <= i <= s.len(),
        forall|j: int| 0 <= j < i ==> key_order(#[trigger] s[j], x) == Order::Less,
        i < s.len() ==> key_order(s[i], x) != Order::Less,
    ensures
        ascending(s.insert(i, x)),
{
    let t = s.insert(i, x);
    let leq = key_leq();
    lemma_key_order_total();
    assert forall|a: int, b: int| 0 <= a < b < t.len() implies #[trigger] leq(t[a], t[b]) by {
        if a < i && b < i {
            assert(t[a] == s[a] && t[b] == s[b]);
            assert(leq(s[a], s[b]));
        } else if a < i && b == i {
            assert(t[a] == s[a] && t[b] == x);
            assert(key_order(s[a], x) == Order::Less);
        } else if a < i {
            assert(t[a] == s[a] && t[b] == s[b - 1]);
            assert(leq(s[a], s[b - 1]));
        } else if a == i {
            assert(t[a] == x && t[b] == s[b - 1]);
            lemma_key_order_flip(s[i], x);
            assert(leq(x, s[i]));
            if b - 1 > i {
                assert(leq(s[i], s[b - 1]));
                assert(leq(x, s[b - 1]));
            }
        } else {
            assert(t[a] == s[a - 1] && t[b] == s[b - 1]);
            assert(leq(s[a - 1], s[b - 1]));
        }
    }
}

/// The same records have the same keys.
pub proof fn lemma_keys_multiset<T: Keyed>(a: Seq<T>, b: Seq<T>)
    requires
        a.to_multiset() == b.to_multiset(),
    ensures
        keys(a).to_multiset() == keys(b).to_multiset(),
    decreases a.len(),
{
    broadcast use vstd::seq_lib::group_to_multiset_ensures;
    vstd::seq_lib::to_multiset_len(a);
    vstd::seq_lib::to_multiset_len(b);
    if a.len() == 0 {
        assert(keys(a) =~= keys(b));
    } else {
        assert(a.contains(a[0]));
        assert(b.to_multiset().count(a[0]) > 0);
        assert(b.contains(a[0]));
        let j = choose|j: int| 0 <= j < b.len() && b[j] == a[0];
        let ta = a.remove(0);
        let tb = b.remove(j);
        lemma_keys_multiset(ta, tb);
        assert(keys(ta) =~= keys(a).remove(0));
        assert(keys(tb) =~= keys(b).remove(j));
        assert(keys(a)[0] == keys(b)[j]);
        assert(keys(a) =~= keys(ta).insert(0, keys(a)[0]));
        assert(keys(b) =~= keys(tb).insert(j, keys(b)[j]));
    }
}

/// The records in ascending order of their keys.
pub open spec fn arranged<T: Keyed>(given: Seq<T>) -> Seq<T> {
    choose|s: Seq<T>| is_sorted_of(s, given)
}

/// Records whose first texts differ have one arrangement.
pub proof fn lemma_arranged<T: Keyed>(out: Seq<T>, given: Seq<T>)
    requires
        is_sorted_of(out, given),
        adjacent_duplicate(keys(out)) is None,
        forall|x: T| (#[trigger] x.key()).len() > 0,
    ensures
        out == arranged(given),
        keys(out) == sorted(keys(given)),
{
    let s = arranged(given);
    lemma_keys_multiset(out, given);
    lemma_keys_multiset(s, given);
    lemma_sorted_unique_keys(keys(given), keys(out));
    lemma_sorted_unique_keys(keys(given), keys(s));
    lemma_no_duplicates(keys(out));
    lemma_no_duplicates(keys(s));
    lemma_sorted_records_unique(out, s);
}

/// Two arrangements of the same records, without repeated first texts, are equal.
pub proof fn lemma_same_arrangement<T: Keyed>(a: Seq<T>, b: Seq<T>)
    requires
        a.to_multiset() == b.to_multiset(),
        ascending(keys(a)),
        ascending(keys(b)),
        adjacent_duplicate(keys(a)) is None,
        adjacent_duplicate(keys(b)) is None,
        forall|i: int| 0 <= i < a.len() ==> (#[trigger] keys(a)[i]).len() > 0,
        forall|i: int| 0 <= i < b.len() ==> (#[trigger] keys(b)[i]).len() > 0,
    ensures
        a == b,
{
    lemma_no_duplicates(keys(a));
    lemma_no_duplicates(keys(b));
    lemma_sorted_records_unique(a, b);
}

/// The keys without those that repeat their successor.
pub open spec fn dedup(s: Seq<Key>) -> Seq<Key>
    decreases s.len(),
{
    if s.len() < 2 {
        s
    } else if s[0] == s[1] {
        dedup(s.drop_first())
    } else {
        seq![s[0]] + dedup(s.drop_first())
    }
}

proof fn lemma_dedup_first(s: Seq<Key>)
    requires
        s.len() > 0,
    ensures
        dedup(s).len() > 0,
        dedup(s)[0] == s[0],
    decreases s.len(),
{
    if s.len() >= 2 {
        lemma_dedup_first(s.drop_first());
    }
}

/// Sorts records by key and keeps one record of each key.
pub fn sort_dedup_records<T: Keyed>(v: Vec<T>) -> (r: Vec<T>)
    ensures
        keys(r@) == dedup(sorted(keys(v@))),
        v@.len() > 0 ==> r@.len() > 0,
        forall|i: int| 0 <= i < r@.len() ==> v@.contains(#[trigger] r@[i]),
{
    broadcast use vstd::seq_lib::group_to_multiset_ensures;
    let ghost given = v@;
    let mut rest = sort_records(v);
    let ghost all = rest@;
    let ghost ks = keys(all);
    let mut out: Vec<T> = Vec::new();
    proof {
        assert(ks.skip(all.len() as int) =~= Seq::empty());
        assert(keys(out@) =~= Seq::empty());
        assert(rest@ =~= all.take(all.len() as int));
        assert forall|x: T| #[trigger] all.contains(x) implies given.contains(x) by {
            assert(given.to_multiset().count(x) > 0);
        }
    }
    while rest.len() > 0
        invariant
            rest@.len() <= all.len(),
            rest@ == all.take(rest@.len() as int),
            ks == keys(all),
            keys(out@) == dedup(ks.skip(rest@.len() as int)),
            rest@.len() < all.len() ==> out@.len() > 0,
            forall|x: T| #[trigger] all.contains(x) ==> given.contains(x),
            forall|i: int| 0 <= i < out@.len() ==> given.contains(#[trigger] out@[i]),
        decreases rest@.len(),
    {
        let ghost k = rest@.len() - 1;
        let ghost before = out@;
        let x = rest.pop().unwrap();
        proof {
            assert(x == all[k]);
            assert(all.contains(x));
            assert(ks.skip(k).drop_first() =~= ks.skip(k + 1));
            assert(ks.skip(k)[0] == x.key());
            if before.len() > 0 {
                lemma_dedup_first(ks.skip(k + 1));
                assert(keys(before)[0] == before[0].key());
                assert(ks.skip(k)[1] == ks.skip(k + 1)[0]);
                lemma_key_order_equal(x.key(), before[0].key());
            }
        }
        if out.len() == 0 || x.order_by_key(&out[0]) != Order::Equal {
            out.insert(0, x);
            proof {
                assert(keys(out@) =~= seq![x.key()] + keys(before));
                assert forall|i: int| 0 <= i < out@.len() implies given.contains(#[trigger] out@[i]) by {
                    if i > 0 {
                        assert(out@[i] == before[i - 1]);
                    }
                }
                if before.len() == 0 {
                    assert(ks.skip(k) =~= seq![x.key()]);
                    assert(keys(out@) =~= seq![x.key()]);
                }
            }
        }
    }
    assert(ks.skip(0) =~= ks);
    out
}

/// The first text that two neighbours share as the first component of their keys.
pub open spec fn adjacent_duplicate(s: Seq<Key>) -> Option<Seq<char>>
    decreases s.len(),
{
    if s.len() < 2 {
        None
    } else if s[0][0] == s[1][0] {
        Some(s[0][0])
    } else {
        adjacent_duplicate(s.drop_first())
    }
}

pub fn find_adjacent_duplicate<T: Keyed>(v: &[T]) -> (r: Option<&str>)
    ensures
        match r {
            Some(found) => adjacent_duplicate(keys(v@)) == Some(found@),
            None => adjacent_duplicate(keys(v@)) is None,
        },
{
    let ghost all = keys(v@);
    let n: usize = v.len();
    let mut i: usize = 0;
    assert(all.skip(0) =~= all);
    while n - i >= 2
        invariant
            i <= n == v@.len(),
            all == keys(v@),
            adjacent_duplicate(all) == adjacent_duplicate(all.skip(i as int)),
        decreases n - i,
    {
        proof {
            assert(all.skip(i as int)[0] == v@[i as int].key());
            assert(all.skip(i as int)[1] == v@[i + 1].key());
            assert(all.skip(i as int).drop_first() =~= all.skip(i + 1));
        }
        let left = v[i].primary();
        let right = v[i + 1].primary();
        if crate::text::same_text(left, right) {
            return Some(left);
        }
        i += 1;
    }
    None
}

/// Ascending keys without neighbours that share their first text have pairwise
/// different first texts.
pub proof fn lemma_no_duplicates(s: Seq<Key>)
    requires
        ascending(s),
        adjacent_duplicate(s) is None,
        forall|i: int| 0 <= i < s.len() ==> (#[trigger] s[i]).len() > 0,
    ensures
        forall|i: int, j: int|
            #![trigger s[i], s[j]]
            0 <= i < j < s.len() ==> text_order(s[i][0], s[j][0]) == Order::Less,
    decreases s.len(),
{
    if s.len() >= 2 {
        let leq = key_leq();
        let t = s.drop_first();
        assert forall|i: int, j: int| 0 <= i < j < t.len() implies #[trigger] leq(t[i], t[j]) by {
            assert(leq(s[i + 1], s[j + 1]));
        }
        lemma_no_duplicates(t);
        assert(leq(s[0], s[1]));
        lemma_text_order_equal(s[0][0], s[1][0]);
        assert(text_order(s[0][0], s[1][0]) == Order::Less);
        assert forall|i: int, j: int|
            #![trigger s[i], s[j]]
            0 <= i < j < s.len() implies text_order(s[i][0], s[j][0]) == Order::Less by {
            if i > 0 {
                assert(s[i] == t[i - 1] && s[j] == t[j - 1]);
            } else if j > 1 {
                assert(s[1] == t[0] && s[j] == t[j - 1]);
                lemma_text_order_transitive(s[0][0], s[1][0], s[j][0]);
            }
        }
    }
}

/// Records with pairwise different first texts are arranged by their keys in one
/// way only.
pub proof fn lemma_sorted_records_unique<T: Keyed>(a: Seq<T>, b: Seq<T>)
    requires
        a.to_multiset() == b.to_multiset(),
        forall|i: int, j: int|
            #![trigger keys(a)[i], keys(a)[j]]
            0 <= i < j < a.len() ==> text_order(keys(a)[i][0], keys(a)[j][0]) == Order::Less,
        forall|i: int, j: int|
            #![trigger keys(b)[i], keys(b)[j]]
            0 <= i < j < b.len() ==> text_order(keys(b)[i][0], keys(b)[j][0]) == Order::Less,
    ensures
        a == b,
    decreases a.len(),
{
    broadcast use vstd::seq_lib::group_to_multiset_ensures;
    vstd::seq_lib::to_multiset_len(a);
    vstd::seq_lib::to_multiset_len(b);
    if a.len() == 0 {
        assert(a =~= b);
    } else {
        assert(a.contains(a[0]));
        assert(b.to_multiset().count(a[0]) > 0);
        assert(b.contains(a[0]));
        let j = choose|j: int| 0 <= j < b.len() && b[j] == a[0];
        assert(b.contains(b[0]));
        assert(a.to_multiset().count(b[0]) > 0);
        assert(a.contains(b[0]));
        let i = choose|i: int| 0 <= i < a.len() && a[i] == b[0];
        let x = keys(a)[0][0];
        let y = keys(b)[0][0];
        assert(keys(b)[j] == keys(a)[0]);
        assert(keys(a)[i] == keys(b)[0]);
        if i > 0 && j > 0 {
            assert(text_order(x, y) == Order::Less);
            assert(text_order(y, x) == Order::Less);
            lemma_text_order_flip(x, y);
        }
        assert(a[0] == b[0]);
        let ta = a.drop_first();
        let tb = b.drop_first();
        assert(ta =~= a.remove(0));
        assert(tb =~= b.remove(0));
        assert forall|p: int, q: int|
            #![trigger keys(ta)[p], keys(ta)[q]]
            0 <= p < q < ta.len() implies text_order(keys(ta)[p][0], keys(ta)[q][0]) == Order::Less by {
            assert(keys(ta)[p] == keys(a)[p + 1] && keys(ta)[q] == keys(a)[q + 1]);
        }
        assert forall|p: int, q: int|
            #![trigger keys(tb)[p], keys(tb)[q]]
            0 <= p < q < tb.len() implies text_order(keys(tb)[p][0], keys(tb)[q][0]) == Order::Less by {
            assert(keys(tb)[p] == keys(b)[p + 1] && keys(tb)[q] == keys(b)[q + 1]);
        }
        lemma_sorted_records_unique(ta, tb);
        assert(a =~= seq![a[0]] + ta);
        assert(b =~= seq![b[0]] + tb);
    }
}

// ---------------------------------------------------------------------------
// Sets of texts
// ---------------------------------------------------------------------------

/// The texts are in strictly ascending order, so none occurs twice.
pub open spec fn strictly_ascending(s: Seq<Seq<char>>) -> bool {
    forall|i: int, j: int|
        #![trigger s[i], s[j]]
        0 <= i < j < s.len() ==> text_order(s[i], s[j]) == Order::Less
}

/// `out` holds exactly the texts of `given`, each once, in ascending order.
pub open spec fn is_canonical(out: Seq<Seq<char>>, given: Seq<Seq<char>>) -> bool {
    &&& strictly_ascending(out)
    &&& forall|x: Seq<char>| #[trigger] out.contains(x) <==> given.contains(x)
}

/// A set of texts has one canonical form only.
pub proof fn lemma_canonical_unique(a: Seq<Seq<char>>, b: Seq<Seq<char>>)
    requires
        strictly_ascending(a),
        strictly_ascending(b),
        forall|x: Seq<char>| #[trigger] a.contains(x) <==> b.contains(x),
    ensures
        a == b,
    decreases a.len(),
{
    if a.len() == 0 {
        if b.len() > 0 {
            assert(b.contains(b[0]));
            assert(a.contains(b[0]));
        }
        assert(a =~= b);
    } else {
        assert(a.contains(a[0]));
        let i = choose|i: int| 0 <= i < b.len() && b[i] == a[0];
        assert(b.contains(b[0]));
        assert(a.contains(b[0]));
        let j = choose|j: int| 0 <= j < a.len() && a[j] == b[0];
        if i > 0 && j > 0 {
            assert(text_order(b[0], b[i]) == Order::Less);
            assert(text_order(a[0], a[j]) == Order::Less);
            lemma_text_order_flip(a[0], b[0]);
        }
        assert(a[0] == b[0]);
        let ta = a.drop_first();
        let tb = b.drop_first();
        lemma_text_order_equal(a[0], a[0]);
        assert forall|x: Seq<char>| #[trigger] ta.contains(x) <==> tb.contains(x) by {
            if ta.contains(x) {
                let k = choose|k: int| 0 <= k < ta.len() && ta[k] == x;
                assert(a[k + 1] == x);
                assert(a.contains(x));
                let m = choose|m: int| 0 <= m < b.len() && b[m] == x;
                assert(text_order(a[0], a[k + 1]) == Order::Less);
                assert(m > 0);
                assert(tb[m - 1] == x);
            }
            if tb.contains(x) {
                let k = choose|k: int| 0 <= k < tb.len() && tb[k] == x;
                assert(b[k + 1] == x);
                assert(b.contains(x));
                assert(a.contains(x));
                let m = choose|m: int| 0 <= m < a.len() && a[m] == x;
                assert(text_order(b[0], b[k + 1]) == Order::Less);
                assert(m > 0);
                assert(ta[m - 1] == x);
            }
        }
        assert forall|p: int, q: int|
            #![trigger ta[p], ta[q]]
            0 <= p < q < ta.len() implies text_order(ta[p], ta[q]) == Order::Less by {
            assert(text_order(a[p + 1], a[q + 1]) == Order::Less);
        }
        assert forall|p: int, q: int|
            #![trigger tb[p], tb[q]]
            0 <= p < q < tb.len() implies text_order(tb[p], tb[q]) == Order::Less by {
            assert(text_order(b[p + 1], b[q + 1]) == Order::Less);
        }
        lemma_canonical_unique(ta, tb);
        assert(a =~= seq![a[0]] + ta);
        assert(b =~= seq![b[0]] + tb);
    }
}

/// The canonical form of a set of texts: sorted, without repetition.
pub open spec fn canonical(given: Seq<Seq<char>>) -> Seq<Seq<char>> {
    choose|out: Seq<Seq<char>>| is_canonical(out, given)
}

/// Whatever satisfies [`is_canonical`] is the canonical form.
pub proof fn lemma_canonical(out: Seq<Seq<char>>, given: Seq<Seq<char>>)
    requires
        is_canonical(out, given),
    ensures
        out == canonical(given),
        is_canonical(canonical(given), given),
{
    lemma_canonical_unique(out, canonical(given));
}

/// `x` at its place in a strictly ascending sequence.
spec fn insert_text(s: Seq<Seq<char>>, x: Seq<char>) -> Seq<Seq<char>>
    decreases s.len(),
{
    if s.len() == 0 {
        seq![x]
    } else {
        match text_order(x, s[0]) {
            Order::Less => seq![x] + s,
            Order::Equal => s,
            Order::Greater => seq![s[0]] + insert_text(s.drop_first(), x),
        }
    }
}

proof fn lemma_insert_text(s: Seq<Seq<char>>, x: Seq<char>)
    requires
        strictly_ascending(s),
    ensures
        strictly_ascending(insert_text(s, x)),
        forall|y: Seq<char>| #[trigger] insert_text(s, x).contains(y) <==> s.contains(y) || y == x,
    decreases s.len(),
{
    let out = insert_text(s, x);
    if s.len() == 0 {
        assert(out[0] == x);
    } else {
        let tail = s.drop_first();
        lemma_text_order_equal(x, s[0]);
        lemma_text_order_flip(x, s[0]);
        assert forall|i: int, j: int|
            #![trigger tail[i], tail[j]]
            0 <= i < j < tail.len() implies text_order(tail[i], tail[j]) == Order::Less by {
            assert(tail[i] == s[i + 1] && tail[j] == s[j + 1]);
        }
        lemma_insert_text(tail, x);
        let rest = insert_text(tail, x);
        assert forall|y: Seq<char>| #[trigger] tail.contains(y) implies s.contains(y) by {
            let k = choose|k: int| 0 <= k < tail.len() && tail[k] == y;
            assert(s[k + 1] == y);
        }
        match text_order(x, s[0]) {
            Order::Less => {
                assert forall|i: int, j: int|
                    #![trigger out[i], out[j]]
                    0 <= i < j < out.len() implies text_order(out[i], out[j]) == Order::Less by {
                    assert(out[j] == s[j - 1]);
                    if i > 0 {
                        assert(out[i] == s[i - 1]);
                    } else if j > 1 {
                        lemma_text_order_transitive(x, s[0], s[j - 1]);
                    }
                }
                assert forall|y: Seq<char>| #[trigger] out.contains(y) <==> s.contains(y) || y == x by {
                    if s.contains(y) {
                        let k = choose|k: int| 0 <= k < s.len() && s[k] == y;
                        assert(out[k + 1] == y);
                    }
                    if y == x {
                        assert(out[0] == y);
                    }
                    if out.contains(y) {
                        let k = choose|k: int| 0 <= k < out.len() && out[k] == y;
                        if k > 0 {
                            assert(s[k - 1] == y);
                        }
                    }
                }
            },
            Order::Equal => {
                assert(s[0] == x);
            },
            Order::Greater => {
                assert forall|i: int, j: int|
                    #![trigger out[i], out[j]]
                    0 <= i < j < out.len() implies text_order(out[i], out[j]) == Order::Less by {
                    assert(out[j] == rest[j - 1]);
                    if i > 0 {
                        assert(out[i] == rest[i - 1]);
                    } else {
                        assert(rest.contains(rest[j - 1]));
                        if tail.contains(rest[j - 1]) {
                            let k = choose|k: int| 0 <= k < tail.len() && tail[k] == rest[j - 1];
                            assert(s[k + 1] == rest[j - 1]);
                            assert(text_order(s[0], s[k + 1]) == Order::Less);
                        }
                    }
                }
                assert forall|y: Seq<char>| #[trigger] out.contains(y) <==> s.contains(y) || y == x by {
                    if s.contains(y) {
                        let k = choose|k: int| 0 <= k < s.len() && s[k] == y;
                        if k == 0 {
                            assert(out[0] == y);
                        } else {
                            assert(tail[k - 1] == y);
                            assert(tail.contains(y));
                        }
                    }
                    if tail.contains(y) || y == x {
                        assert(rest.contains(y));
                        let m = choose|m: int| 0 <= m < rest.len() && rest[m] == y;
                        assert(out[m + 1] == y);
                    }
                    if out.contains(y) {
                        let k = choose|k: int| 0 <= k < out.len() && out[k] == y;
                        if k == 0 {
                            assert(s[0] == y);
                        } else {
                            assert(rest[k - 1] == y);
                            assert(rest.contains(y));
                        }
                    }
                }
            },
        }
    }
}

/// Every list of texts has a canonical form.
pub proof fn lemma_canonical_exists(given: Seq<Seq<char>>)
    ensures
        is_canonical(canonical(given), given),
    decreases given.len(),
{
    if given.len() == 0 {
        assert(is_canonical(Seq::empty(), given));
    } else {
        let front = given.drop_last();
        lemma_canonical_exists(front);
        let out = insert_text(canonical(front), given.last());
        lemma_insert_text(canonical(front), given.last());
        assert forall|y: Seq<char>| #[trigger] out.contains(y) <==> given.contains(y) by {
            if out.contains(y) {
                if y == given.last() {
                    assert(given[given.len() - 1] == y);
                } else {
                    assert(canonical(front).contains(y));
                    assert(front.contains(y));
                    let k = choose|k: int| 0 <= k < front.len() && front[k] == y;
                    assert(given[k] == y);
                }
            }
            if given.contains(y) {
                let k = choose|k: int| 0 <= k < given.len() && given[k] == y;
                if k < front.len() {
                    assert(front[k] == y);
                    assert(front.contains(y));
                    assert(canonical(front).contains(y));
                }
            }
        }
        assert(is_canonical(out, given));
    }
}

/// The canonical form depends on which texts are given, not on their order or
/// on how often each is given.
pub proof fn lemma_canonical_ignores_input_order(a: Seq<Seq<char>>, b: Seq<Seq<char>>)
    requires
        forall|x: Seq<char>| #[trigger] a.contains(x) <==> b.contains(x),
    ensures
        canonical(a) == canonical(b),
{
    lemma_canonical_exists(a);
    lemma_canonical_exists(b);
    let x = canonical(a);
    let y = canonical(b);
    assert forall|t: Seq<char>| #[trigger] x.contains(t) <==> y.contains(t) by {
        assert(x.contains(t) <==> a.contains(t));
        assert(y.contains(t) <==> b.contains(t));
    }
    lemma_canonical_unique(x, y);
}

/// Sorts texts and removes repetitions.
pub fn canonical_texts(v: Vec<String>) -> (r: Vec<String>)
    ensures
        texts(r@) == canonical(texts(v@)),
        is_canonical(texts(r@), texts(v@)),
{
    broadcast use vstd::seq_lib::group_to_multiset_ensures;
    let ghost given = texts(v@);
    let ghost raw = v@;
    let mut rest = sort_records(v);
    let ghost all = rest@;
    proof {
        assert forall|x: Seq<char>| #[trigger] texts(all).contains(x) <==> given.contains(x) by {
            if texts(all).contains(x) {
                let i = choose|i: int| 0 <= i < all.len() && texts(all)[i] == x;
                assert(all.contains(all[i]));
                assert(raw.to_multiset().count(all[i]) > 0);
                assert(raw.contains(all[i]));
                let j = choose|j: int| 0 <= j < raw.len() && raw[j] == all[i];
                assert(given[j] == x);
            }
            if given.contains(x) {
                let i = choose|i: int| 0 <= i < raw.len() && given[i] == x;
                assert(raw.contains(raw[i]));
                assert(all.to_multiset().count(raw[i]) > 0);
                assert(all.contains(raw[i]));
                let j = choose|j: int| 0 <= j < all.len() && all[j] == raw[i];
                assert(texts(all)[j] == x);
            }
        }
    }
    let mut out: Vec<String> = Vec::new();
    assert(rest@ =~= all.take(rest@.len() as int));
    while rest.len() > 0
        invariant
            rest@.len() <= all.len(),
            rest@ == all.take(rest@.len() as int),
            ascending(keys(all)),
            strictly_ascending(texts(out@)),
            out@.len() > 0 ==> rest@.len() < all.len() && out@[0]@ == all[rest@.len() as int]@,
            out@.len() == 0 ==> rest@.len() == all.len(),
            forall|i: int| 0 <= i < out@.len() ==> texts(all).contains(#[trigger] texts(out@)[i]),
            forall|i: int| rest@.len() <= i < all.len() ==> texts(out@).contains(#[trigger] all[i]@),
        decreases rest@.len(),
    {
        let ghost k = rest@.len() - 1;
        let x = rest.pop().unwrap();
        let ghost before = out@;
        assert(x == all[k]);
        assert(texts(all)[k] == x@);
        let fresh = if out.len() == 0 {
            true
        } else {
            proof {
                let leq = key_leq();
                assert(leq(keys(all)[k], keys(all)[k + 1]));
                reveal_with_fuel(key_order, 2);
                assert(text_order(all[k]@, all[k + 1]@) != Order::Greater);
                lemma_text_order_equal(all[k]@, all[k + 1]@);
            }
            !crate::text::same_text(out[0].as_str(), x.as_str())
        };
        if fresh {
            out.insert(0, x);
            proof {
                let now = texts(out@);
                assert(now =~= texts(before).insert(0, x@));
                assert forall|i: int, j: int|
                    #![trigger now[i], now[j]]
                    0 <= i < j < now.len() implies text_order(now[i], now[j]) == Order::Less by {
                    if i > 0 {
                        assert(now[i] == texts(before)[i - 1]);
                        assert(now[j] == texts(before)[j - 1]);
                    } else {
                        assert(now[j] == texts(before)[j - 1]);
                        assert(text_order(x@, texts(before)[0]) == Order::Less);
                        if j - 1 > 0 {
                            lemma_text_order_transitive(x@, texts(before)[0], texts(before)[j - 1]);
                        }
                    }
                }
                assert forall|i: int| k <= i < all.len() implies now.contains(
                    #[trigger] all[i]@,
                ) by {
                    if i == k {
                        assert(now[0] == all[i]@);
                    } else {
                        assert(texts(before).contains(all[i]@));
                        let m = choose|m: int|
                            0 <= m < texts(before).len() && texts(before)[m] == all[i]@;
                        assert(now[m + 1] == all[i]@);
                    }
                }
                assert forall|i: int| 0 <= i < out@.len() implies texts(all).contains(
                    #[trigger] now[i],
                ) by {
                    if i > 0 {
                        assert(now[i] == texts(before)[i - 1]);
                    }
                }
            }
        } else {
            assert(texts(out@)[0] == x@);
        }
    }
    proof {
        assert forall|x: Seq<char>| #[trigger] texts(out@).contains(x) <==> given.contains(x) by {
            if texts(out@).contains(x) {
                let i = choose|i: int| 0 <= i < out@.len() && texts(out@)[i] == x;
                assert(texts(all).contains(texts(out@)[i]));
            }
            if given.contains(x) {
                assert(texts(all).contains(x));
                let i = choose|i: int| 0 <= i < all.len() && texts(all)[i] == x;
                assert(texts(out@).contains(all[i]@));
            }
        }
        lemma_canonical(texts(out@), given);
    }
    out
}

/// The records from the last to the first.
pub fn reverse_records<T>(v: Vec<T>) -> (r: Vec<T>)
    ensures
        r@.len() == v@.len(),
        forall|j: int| 0 <= j < r@.len() ==> #[trigger] r@[j] == v@[v@.len() - 1 - j],
{
    let ghost all = v@;
    let mut rest = v;
    let mut out: Vec<T> = Vec::new();
    while rest.len() > 0
        invariant
            rest@.len() + out@.len() == all.len(),
            rest@ =~= all.take(rest@.len() as int),
            forall|j: int| 0 <= j < out@.len() ==> #[trigger] out@[j] == all[all.len() - 1 - j],
        decreases rest@.len(),
    {
        let e = rest.pop().unwrap();
        out.push(e);
    }
    out
}

// ---------------------------------------------------------------------------
// Laws
// ---------------------------------------------------------------------------

/// The first place at which two texts part decides their order, and where there is none,
/// the shorter comes first.
pub proof fn law_texts_are_ordered_at_their_first_difference(a: Seq<char>, b: Seq<char>, k: int)
    requires
        0 <= k <= a.len(),
        k <= b.len(),
        a.take(k) == b.take(k),
    ensures
        k < a.len() && k < b.len() && a[k] < b[k] ==> text_order(a, b) == Order::Less && text_order(b, a)
            == Order::Greater,
        k == a.len() && k < b.len() ==> text_order(a, b) == Order::Less && text_order(b, a) == Order::Greater,
        k == a.len() && k == b.len() ==> text_order(a, b) == Order::Equal,
    decreases k,
{
    if k > 0 {
        assert(a[0] == a.take(k)[0] && b[0] == b.take(k)[0]);
        let (x, y) = (a.drop_first(), b.drop_first());
        assert(x.take(k - 1) =~= a.take(k).drop_first());
        assert(y.take(k - 1) =~= b.take(k).drop_first());
        law_texts_are_ordered_at_their_first_difference(x, y, k - 1);
    }
}

/// Keys are ordered by their first texts, and by what follows where those are equal.
pub proof fn law_keys_are_ordered_text_by_text(x: Seq<char>, a: Key, y: Seq<char>, b: Key)
    ensures
        x != y ==> key_order(seq![x] + a, seq![y] + b) == text_order(x, y),
        x == y ==> key_order(seq![x] + a, seq![y] + b) == key_order(a, b),
        key_order(Seq::empty(), seq![y] + b) == Order::Less,
        key_order(Seq::empty(), Seq::empty()) == Order::Equal,
{
    lemma_key_order_cons(x, a, y, b);
    lemma_text_order_equal(x, y);
}

/// Sorting keeps what is sorted, as often as it is there, and puts no larger key before a
/// smaller one.
pub proof fn law_sorting(s: Seq<Key>)
    ensures
        sorted(s).to_multiset() == s.to_multiset(),
        sorted(s).len() == s.len(),
        forall|i: int, j: int|
            0 <= i < j < sorted(s).len() ==> key_order(#[trigger] sorted(s)[i], #[trigger] sorted(s)[j]) != Order::Greater,
        forall|k: Key| #[trigger] sorted(s).contains(k) <==> s.contains(k),
{
    broadcast use vstd::seq_lib::group_to_multiset_ensures;

    lemma_key_order_total();
    s.lemma_sort_by_ensures(key_leq());
    let t = sorted(s);
    vstd::seq_lib::to_multiset_len(t);
    vstd::seq_lib::to_multiset_len(s);
    assert forall|i: int, j: int| 0 <= i < j < t.len() implies key_order(#[trigger] t[i], #[trigger] t[j]) != Order::Greater by {
        assert(key_leq()(t[i], t[j]));
    }
    assert forall|k: Key| #[trigger] t.contains(k) <==> s.contains(k) by {
        assert(t.to_multiset().count(k) == s.to_multiset().count(k));
    }
}

/// Among sorted keys of one text each, a repetition is found exactly where two of the given
/// ones are equal.
pub proof fn law_repetitions_are_found(s: Seq<Key>)
    requires
        forall|i: int| 0 <= i < s.len() ==> (#[trigger] s[i]).len() == 1,
    ensures
        adjacent_duplicate(sorted(s)) is None <==> s.no_duplicates(),
        adjacent_duplicate(sorted(s)) matches Some(x) ==> s.contains(seq![x]),
{
    law_sorting(s);
    let t = sorted(s);
    assert forall|i: int| 0 <= i < t.len() implies (#[trigger] t[i]).len() == 1 by {
        assert(t.contains(t[i]));
        assert(s.contains(t[i]));
    }
    lemma_key_order_total();
    s.lemma_sort_by_ensures(key_leq());
    lemma_adjacent_repetition(t);
    if adjacent_duplicate(t) is None {
        lemma_no_duplicates(t);
        assert(t.no_duplicates()) by {
            assert forall|i: int, j: int| 0 <= i < t.len() && 0 <= j < t.len() && i != j implies t[i] != t[j] by {
                lemma_text_order_equal(t[i][0], t[j][0]);
                lemma_text_order_equal(t[j][0], t[i][0]);
            }
        }
        t.lemma_multiset_has_no_duplicates();
        s.lemma_multiset_has_no_duplicates_conv();
    } else {
        let x = adjacent_duplicate(t)->0;
        let i = choose|i: int| 0 <= i < t.len() - 1 && (#[trigger] t[i])[0] == x && t[i + 1][0] == x;
        assert(t[i] =~= seq![x]);
        assert(t[i + 1] =~= seq![x]);
        assert(t.contains(t[i]));
        if s.no_duplicates() {
            s.lemma_multiset_has_no_duplicates();
            t.lemma_multiset_has_no_duplicates_conv();
            assert(t[i] != t[i + 1]);
        }
    }
}

proof fn lemma_adjacent_repetition(t: Seq<Key>)
    ensures
        adjacent_duplicate(t) matches Some(x) ==> exists|i: int|
            0 <= i < t.len() - 1 && (#[trigger] t[i])[0] == x && t[i + 1][0] == x,
    decreases t.len(),
{
    if t.len() >= 2 && t[0][0] != t[1][0] {
        let u = t.drop_first();
        lemma_adjacent_repetition(u);
        if adjacent_duplicate(u) is Some {
            let x = adjacent_duplicate(u)->0;
            let i = choose|i: int| 0 <= i < u.len() - 1 && (#[trigger] u[i])[0] == x && u[i + 1][0] == x;
            assert(t[i + 1][0] == x && t[i + 2][0] == x);
        }
    } else if t.len() >= 2 {
        let i: int = 0;
        assert(t[i][0] == t[0][0] && t[i + 1][0] == t[0][0]);
    }
}

/// Where a key comes in among others.
proof fn lemma_place(s: Seq<Key>, x: Key) -> (i: int)
    ensures
        0 <= i <= s.len(),
        forall|j: int| 0 <= j < i ==> key_order(#[trigger] s[j], x) == Order::Less,
        i < s.len() ==> key_order(s[i], x) != Order::Less,
    decreases s.len(),
{
    if s.len() == 0 || key_order(s[0], x) != Order::Less {
        0
    } else {
        let t = s.drop_first();
        let i = lemma_place(t, x);
        assert forall|j: int| 0 <= j < i + 1 implies key_order(#[trigger] s[j], x) == Order::Less by {
            if j > 0 {
                assert(key_order(t[j - 1], x) == Order::Less);
            }
        }
        i + 1
    }
}

/// Arranged records are the given ones, as often as they were given, none before one with a
/// smaller key.
pub proof fn law_arranging<T: Keyed>(given: Seq<T>)
    ensures
        is_sorted_of(arranged(given), given),
        arranged(given).len() == given.len(),
        forall|x: T| #[trigger] arranged(given).contains(x) <==> given.contains(x),
        forall|i: int, j: int|
            0 <= i < j < given.len() ==> key_order((#[trigger] arranged(given)[i]).key(), (#[trigger] arranged(given)[j]).key())
                != Order::Greater,
    decreases given.len(),
{
    broadcast use vstd::seq_lib::group_to_multiset_ensures;

    if given.len() == 0 {
        assert(keys(given).len() == 0);
        assert(is_sorted_of(given, given));
    } else {
        let rest = given.drop_first();
        law_arranging(rest);
        let a = arranged(rest);
        let x = given[0];
        let i = lemma_place(keys(a), x.key());
        lemma_insert_ascending(keys(a), i, x.key());
        let out = a.insert(i, x);
        assert(keys(out) =~= keys(a).insert(i, x.key()));
        assert(given =~= rest.insert(0, x));
        assert(is_sorted_of(out, given));
    }
    let s = arranged(given);
    vstd::seq_lib::to_multiset_len(s);
    vstd::seq_lib::to_multiset_len(given);
    assert forall|x: T| #[trigger] s.contains(x) <==> given.contains(x) by {
        assert(s.to_multiset().count(x) == given.to_multiset().count(x));
    }
    let leq = key_leq();
    assert forall|i: int, j: int| 0 <= i < j < given.len() implies key_order((#[trigger] s[i]).key(), (
    #[trigger] s[j]).key()) != Order::Greater by {
        assert(leq(keys(s)[i], keys(s)[j]));
    }
}

/// Two keys begin with the same text.
pub open spec fn share_first_text(s: Seq<Key>) -> bool {
    exists|i: int, j: int| 0 <= i < j < s.len() && (#[trigger] s[i])[0] == (#[trigger] s[j])[0]
}

/// Among sorted keys a repetition is found exactly where two of the given ones begin with
/// the same text, and it is the text of two such.
pub proof fn law_shared_first_texts_are_found(s: Seq<Key>)
    requires
        forall|i: int| 0 <= i < s.len() ==> (#[trigger] s[i]).len() > 0,
    ensures
        adjacent_duplicate(sorted(s)) is Some <==> share_first_text(s),
{
    law_sorting(s);
    lemma_key_order_total();
    s.lemma_sort_by_ensures(key_leq());
    let t = sorted(s);
    assert forall|i: int| 0 <= i < t.len() implies (#[trigger] t[i]).len() > 0 by {
        assert(t.contains(t[i]));
        assert(s.contains(t[i]));
    }
    lemma_adjacent_repetition(t);
    if adjacent_duplicate(t) is Some {
        let x = adjacent_duplicate(t)->0;
        let i = choose|i: int| 0 <= i < t.len() - 1 && (#[trigger] t[i])[0] == x && t[i + 1][0] == x;
        assert(t[i][0] == t[i + 1][0]);
        assert(share_first_text(t));
        lemma_shared_in(t, s);
    } else {
        lemma_no_duplicates(t);
        if share_first_text(s) {
            lemma_shared_in(s, t);
            let (i, j) = choose|i: int, j: int| 0 <= i < j < t.len() && (#[trigger] t[i])[0] == (#[trigger] t[j])[0];
            lemma_text_order_equal(t[i][0], t[j][0]);
        }
    }
}

/// Keys in another order share a first text too.
pub proof fn lemma_shared_in(s: Seq<Key>, t: Seq<Key>)
    requires
        s.to_multiset() == t.to_multiset(),
        share_first_text(s),
    ensures
        share_first_text(t),
{
    broadcast use vstd::seq_lib::group_to_multiset_ensures;

    let (i, j) = choose|i: int, j: int| 0 <= i < j < s.len() && (#[trigger] s[i])[0] == (#[trigger] s[j])[0];
    if s[i] != s[j] {
        assert(s.to_multiset().count(s[i]) > 0);
        assert(s.to_multiset().count(s[j]) > 0);
        assert(t.contains(s[i]) && t.contains(s[j]));
        let a = t.index_of(s[i]);
        let b = t.index_of(s[j]);
        if a < b {
            assert(t[a][0] == t[b][0]);
        } else {
            assert(t[b][0] == t[a][0]);
        }
    } else {
        if t.no_duplicates() {
            t.lemma_multiset_has_no_duplicates();
            s.lemma_multiset_has_no_duplicates_conv();
            assert(s[i] != s[j]);
        }
        let (a, b) = choose|a: int, b: int| 0 <= a < t.len() && 0 <= b < t.len() && a != b && t[a] == t[b];
        if a < b {
            assert(t[a][0] == t[b][0]);
        } else {
            assert(t[b][0] == t[a][0]);
        }
    }
}

} // verus!
