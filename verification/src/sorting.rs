//! Sorting by a key, keeping the order of items whose keys are equal.

use vstd::prelude::*;
use vstd::seq_lib::*;

verus! {

/// A thing that is put in order by an integer key.
pub trait SortKey {
    /// The key of this item.
    spec fn spec_key(&self) -> int;

    /// The key of this item.
    fn key(&self) -> (k: i128)
        ensures
            k == self.spec_key(),
    ;
}

impl SortKey for i32 {
    open spec fn spec_key(&self) -> int {
        *self as int
    }

    fn key(&self) -> (k: i128) {
        *self as i128
    }
}

/// Whether the keys of `s` never go down.
pub open spec fn sorted_by_key<T: SortKey>(s: Seq<T>) -> bool {
    forall|i: int, j: int| 0 <= i <= j < s.len() ==> s[i].spec_key() <= s[j].spec_key()
}

/// Where an item with key `k` goes into `s`: behind the last item whose key is not
/// greater.
pub open spec fn insertion_point<T: SortKey>(s: Seq<T>, k: int) -> int
    decreases s.len(),
{
    if s.len() == 0 {
        0
    } else if s.last().spec_key() <= k {
        s.len() as int
    } else {
        insertion_point(s.drop_last(), k)
    }
}

/// The items of `s` in the order of their keys, items with equal keys in the order in
/// which they stand in `s`.
pub open spec fn stable_sorted<T: SortKey>(s: Seq<T>) -> Seq<T>
    decreases s.len(),
{
    if s.len() == 0 {
        Seq::<T>::empty()
    } else {
        let sorted = stable_sorted(s.drop_last());
        sorted.insert(insertion_point(sorted, s.last().spec_key()), s.last())
    }
}

/// The insertion point lies in the sequence, with no greater key before it and only
/// greater keys from it on.
pub proof fn lemma_insertion_point<T: SortKey>(s: Seq<T>, k: int)
    requires
        sorted_by_key(s),
    ensures
        0 <= insertion_point(s, k) <= s.len(),
        forall|i: int| 0 <= i < insertion_point(s, k) ==> (#[trigger] s[i]).spec_key() <= k,
        forall|i: int| insertion_point(s, k) <= i < s.len() ==> (#[trigger] s[i]).spec_key() > k,
    decreases s.len(),
{
    if s.len() > 0 {
        if s.last().spec_key() <= k {
            assert forall|i: int| 0 <= i < s.len() implies (#[trigger] s[i]).spec_key() <= k by {
                assert(s[i].spec_key() <= s[s.len() - 1].spec_key());
            }
        } else {
            let front = s.drop_last();
            assert(sorted_by_key(front)) by {
                assert forall|i: int, j: int| 0 <= i <= j < front.len() implies front[i].spec_key()
                    <= front[j].spec_key() by {
                    assert(front[i] == s[i] && front[j] == s[j]);
                }
            }
            lemma_insertion_point(front, k);
            assert forall|i: int| insertion_point(s, k) <= i < s.len() implies (
            #[trigger] s[i]).spec_key() > k by {
                if i < front.len() {
                    assert(front[i] == s[i]);
                }
            }
            assert forall|i: int| 0 <= i < insertion_point(s, k) implies (
            #[trigger] s[i]).spec_key() <= k by {
                assert(front[i] == s[i]);
            }
        }
    }
}

/// Putting an item in at its insertion point keeps a sorted sequence sorted.
pub proof fn lemma_insert_keeps_sorted<T: SortKey>(s: Seq<T>, x: T)
    requires
        sorted_by_key(s),
    ensures
        sorted_by_key(s.insert(insertion_point(s, x.spec_key()), x)),
{
    let at = insertion_point(s, x.spec_key());
    lemma_insertion_point(s, x.spec_key());
    let t = s.insert(at, x);
    assert forall|i: int, j: int| 0 <= i <= j < t.len() implies t[i].spec_key()
        <= t[j].spec_key() by {
        if i < at {
            assert(t[i] == s[i]);
        } else if i > at {
            assert(t[i] == s[i - 1]);
        }
        if j < at {
            assert(t[j] == s[j]);
        } else if j > at {
            assert(t[j] == s[j - 1]);
        }
    }
}

/// What [`stable_sorted`] gives is sorted, and holds the items it was given, each as
/// often as it was there.
pub proof fn lemma_stable_sorted<T: SortKey>(s: Seq<T>)
    ensures
        sorted_by_key(stable_sorted(s)),
        stable_sorted(s).to_multiset() == s.to_multiset(),
        stable_sorted(s).len() == s.len(),
    decreases s.len(),
{
    broadcast use to_multiset_insert, to_multiset_build;

    if s.len() == 0 {
        assert(stable_sorted(s) =~= s);
    } else {
        let front = s.drop_last();
        lemma_stable_sorted(front);
        let sorted = stable_sorted(front);
        lemma_insertion_point(sorted, s.last().spec_key());
        lemma_insert_keeps_sorted(sorted, s.last());
        assert(front.push(s.last()) =~= s);
        assert(s.to_multiset() == front.to_multiset().insert(s.last()));
    }
}

/// Puts `x` into the sorted `items`, behind every item whose key is not greater.
pub fn insert_sorted<T: SortKey>(items: &mut Vec<T>, x: T)
    requires
        sorted_by_key(old(items)@),
    ensures
        final(items)@ == old(items)@.insert(insertion_point(old(items)@, x.spec_key()), x),
        sorted_by_key(final(items)@),
        final(items)@.to_multiset() == old(items)@.to_multiset().insert(x),
{
    let k = x.key();
    let mut at: usize = items.len();
    assert(items@.take(at as int) =~= items@);
    while at > 0 && items[at - 1].key() > k
        invariant
            at <= items.len(),
            k == x.spec_key(),
            insertion_point(items@, k as int) == insertion_point(items@.take(at as int), k as int),
        decreases at,
    {
        assert(items@.take(at as int).drop_last() =~= items@.take(at - 1));
        at = at - 1;
    }
    proof {
        lemma_insert_keeps_sorted(items@, x);
        lemma_insertion_point(items@, x.spec_key());
        to_multiset_insert(items@, insertion_point(items@, x.spec_key()), x);
        if at == 0 {
            assert(items@.take(0).len() == 0);
        }
    }
    items.insert(at, x);
}

/// The items of `items` from the last to the first.
pub fn turned_round<T>(items: Vec<T>) -> (turned: Vec<T>)
    ensures
        turned@.len() == items@.len(),
        forall|i: int|
            0 <= i < turned@.len() ==> #[trigger] turned@[i] == items@[items@.len() - 1 - i],
{
    let ghost given = items@;
    let mut rest = items;
    let mut turned: Vec<T> = Vec::new();
    while rest.len() > 0
        invariant
            rest@.len() + turned@.len() == given.len(),
            rest@ == given.take(rest@.len() as int),
            forall|i: int|
                0 <= i < turned@.len() ==> #[trigger] turned@[i] == given[given.len() - 1 - i],
        decreases rest.len(),
    {
        let last = rest.pop().unwrap();
        turned.push(last);
    }
    turned
}

/// Sorts `items` by their keys. Items with equal keys keep their order.
pub fn stable_sort<T: SortKey>(items: Vec<T>) -> (sorted: Vec<T>)
    ensures
        sorted@ == stable_sorted(items@),
        sorted_by_key(sorted@),
        sorted@.to_multiset() == items@.to_multiset(),
        sorted@.len() == items@.len(),
{
    let ghost given = items@;
    let mut taken = turned_round(items);
    let mut sorted: Vec<T> = Vec::new();
    let ghost mut done: int = 0;
    assert(given.take(0) =~= Seq::<T>::empty());
    while taken.len() > 0
        invariant
            0 <= done <= given.len(),
            taken@.len() == given.len() - done,
            forall|i: int|
                0 <= i < taken@.len() ==> #[trigger] taken@[i] == given[given.len() - 1 - i],
            sorted@ == stable_sorted(given.take(done)),
            sorted_by_key(sorted@),
        decreases taken.len(),
    {
        let next = taken.pop().unwrap();
        proof {
            assert(next == given[done]);
            assert(given.take(done + 1).drop_last() =~= given.take(done));
            assert(given.take(done + 1).last() == given[done]);
        }
        insert_sorted(&mut sorted, next);
        proof {
            done = done + 1;
        }
    }
    proof {
        assert(given.take(done) =~= given);
        lemma_stable_sorted(given);
    }
    sorted
}

} // verus!
