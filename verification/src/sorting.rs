//! Stable ordering by insertion.
//!
//! The lists this library orders are small (a lyrics file, a page of search
//! results, a smart playlist), and a stable order is what the rest of the
//! program was written against. `sorted_by(s, before)` is the stable sort of
//! `s` in which `x` goes ahead of `y` exactly when `before(x, y)`: each element
//! is placed in front of the first element already placed that it must
//! precede, so elements that tie keep the order they came in.

use vstd::prelude::*;

verus! {

/// `x` placed in front of the first element of `s` it must precede.
pub open spec fn insert_by<T>(s: Seq<T>, x: T, before: spec_fn(T, T) -> bool) -> Seq<T>
    decreases s.len(),
{
    if s.len() == 0 {
        seq![x]
    } else if before(x, s[0]) {
        seq![x] + s
    } else {
        seq![s[0]] + insert_by(s.drop_first(), x, before)
    }
}

/// The stable sort of `s` by `before`.
pub open spec fn sorted_by<T>(s: Seq<T>, before: spec_fn(T, T) -> bool) -> Seq<T>
    decreases s.len(),
{
    if s.len() == 0 {
        seq![]
    } else {
        insert_by(sorted_by(s.drop_last(), before), s.last(), before)
    }
}

/// Where `insert_by` puts `x`: in front of the first element it must precede.
pub proof fn lemma_insert_by_at<T>(s: Seq<T>, x: T, before: spec_fn(T, T) -> bool, p: int)
    requires
        0 <= p <= s.len(),
        forall|j: int| 0 <= j < p ==> !before(x, #[trigger] s[j]),
        p == s.len() || before(x, s[p]),
    ensures
        insert_by(s, x, before) == s.take(p) + seq![x] + s.skip(p),
    decreases s.len(),
{
    if s.len() == 0 {
        assert(s.take(p) + seq![x] + s.skip(p) =~= seq![x]);
    } else if p == 0 {
        assert(s.take(p) + seq![x] + s.skip(p) =~= seq![x] + s);
    } else {
        let t = s.drop_first();
        assert forall|j: int| 0 <= j < p - 1 implies !before(x, #[trigger] t[j]) by {
            assert(t[j] == s[j + 1]);
        }
        if p < s.len() {
            assert(t[p - 1] == s[p]);
        }
        assert(!before(x, s[0]));
        lemma_insert_by_at(t, x, before, p - 1);
        assert(seq![s[0]] + (t.take(p - 1) + seq![x] + t.skip(p - 1)) =~= s.take(p) + seq![x] + s.skip(p));
    }
}

/// Sorting one more element is inserting it into the sorted rest.
pub proof fn lemma_sorted_by_push<T>(s: Seq<T>, x: T, before: spec_fn(T, T) -> bool)
    ensures
        sorted_by(s.push(x), before) == insert_by(sorted_by(s, before), x, before),
{
    assert(s.push(x).drop_last() =~= s);
}

/// Inserting keeps every element and adds one.
pub proof fn lemma_insert_by_len<T>(s: Seq<T>, x: T, before: spec_fn(T, T) -> bool)
    ensures
        insert_by(s, x, before).len() == s.len() + 1,
    decreases s.len(),
{
    if s.len() > 0 && !before(x, s[0]) {
        lemma_insert_by_len(s.drop_first(), x, before);
    }
}

/// Sorting keeps the length.
pub proof fn lemma_sorted_by_len<T>(s: Seq<T>, before: spec_fn(T, T) -> bool)
    ensures
        sorted_by(s, before).len() == s.len(),
    decreases s.len(),
{
    if s.len() > 0 {
        lemma_sorted_by_len(s.drop_last(), before);
        lemma_insert_by_len(sorted_by(s.drop_last(), before), s.last(), before);
    }
}

/// Inserting keeps the multiset of elements, plus the new one.
pub proof fn lemma_insert_by_multiset<T>(s: Seq<T>, x: T, before: spec_fn(T, T) -> bool)
    ensures
        insert_by(s, x, before).to_multiset() == s.to_multiset().insert(x),
    decreases s.len(),
{
    broadcast use vstd::seq_lib::group_to_multiset_ensures;

    if s.len() == 0 {
        assert(seq![x] =~= Seq::<T>::empty().push(x));
    } else if before(x, s[0]) {
        assert(seq![x] + s =~= seq![x].add(s));
        vstd::seq_lib::lemma_multiset_commutative(seq![x], s);
        assert(seq![x] =~= Seq::<T>::empty().push(x));
    } else {
        let t = s.drop_first();
        lemma_insert_by_multiset(t, x, before);
        vstd::seq_lib::lemma_multiset_commutative(seq![s[0]], insert_by(t, x, before));
        vstd::seq_lib::lemma_multiset_commutative(seq![s[0]], t);
        assert(seq![s[0]] + t =~= s);
        assert(seq![s[0]] =~= Seq::<T>::empty().push(s[0]));
    }
}

/// Sorting only reorders.
pub proof fn lemma_sorted_by_multiset<T>(s: Seq<T>, before: spec_fn(T, T) -> bool)
    ensures
        sorted_by(s, before).to_multiset() == s.to_multiset(),
    decreases s.len(),
{
    broadcast use vstd::seq_lib::group_to_multiset_ensures;

    if s.len() > 0 {
        lemma_sorted_by_multiset(s.drop_last(), before);
        lemma_insert_by_multiset(sorted_by(s.drop_last(), before), s.last(), before);
        assert(s.drop_last().push(s.last()) =~= s);
    }
}

} // verus!
