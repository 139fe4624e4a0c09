//! Grouping under ordered keys, as a `BTreeMap` built with `entry` and read
//! back with `into_values` does: one group per key, groups in key order, and
//! within a group the order things were added in.

use vstd::prelude::*;

verus! {

/// `k` added to the key-ordered groups `gs`: merged into its group where
/// there is one, or as a fresh group in key order where there is not.
pub open spec fn upsert<K, V>(
    gs: Seq<(K, V)>,
    k: K,
    lt: spec_fn(K, K) -> bool,
    fresh: V,
    merge: spec_fn(V) -> V,
) -> Seq<(K, V)>
    decreases gs.len(),
{
    if gs.len() == 0 {
        seq![(k, fresh)]
    } else if gs[0].0 == k {
        seq![(k, merge(gs[0].1))] + gs.drop_first()
    } else if lt(k, gs[0].0) {
        seq![(k, fresh)] + gs
    } else {
        seq![gs[0]] + upsert(gs.drop_first(), k, lt, fresh, merge)
    }
}

/// `lt` orders keys strictly and totally.
pub open spec fn strict_total<K>(lt: spec_fn(K, K) -> bool) -> bool {
    &&& forall|a: K| !#[trigger] lt(a, a)
    &&& forall|a: K, b: K| a != b ==> (#[trigger] lt(a, b) <==> !lt(b, a))
}

/// Where `upsert` puts `k`: at the first group whose key is not below it.
pub proof fn lemma_upsert_at<K, V>(
    gs: Seq<(K, V)>,
    k: K,
    lt: spec_fn(K, K) -> bool,
    fresh: V,
    merge: spec_fn(V) -> V,
    p: int,
)
    requires
        strict_total(lt),
        0 <= p <= gs.len(),
        forall|j: int| 0 <= j < p ==> #[trigger] lt(gs[j].0, k),
        p == gs.len() || !lt(gs[p].0, k),
    ensures
        p < gs.len() && gs[p].0 == k ==> upsert(gs, k, lt, fresh, merge) == gs.take(p) + seq![
            (k, merge(gs[p].1)),
        ] + gs.skip(p + 1),
        !(p < gs.len() && gs[p].0 == k) ==> upsert(gs, k, lt, fresh, merge) == gs.take(p) + seq![
            (k, fresh),
        ] + gs.skip(p),
    decreases gs.len(),
{
    if gs.len() == 0 {
        assert(gs.take(p) + seq![(k, fresh)] + gs.skip(p) =~= seq![(k, fresh)]);
    } else if p == 0 {
        if gs[0].0 == k {
            assert(gs.take(0) + seq![(k, merge(gs[0].1))] + gs.skip(1) =~= seq![(k, merge(gs[0].1))]
                + gs.drop_first());
        } else {
            assert(lt(k, gs[0].0));
            assert(gs.take(0) + seq![(k, fresh)] + gs.skip(0) =~= seq![(k, fresh)] + gs);
        }
    } else {
        assert(lt(gs[0].0, k));
        assert(gs[0].0 != k);
        assert(!lt(k, gs[0].0));
        let t = gs.drop_first();
        assert forall|j: int| 0 <= j < p - 1 implies #[trigger] lt(t[j].0, k) by {
            assert(t[j] == gs[j + 1]);
            assert(lt(gs[j + 1].0, k));
        }
        if p < gs.len() {
            assert(t[p - 1] == gs[p]);
        }
        lemma_upsert_at(t, k, lt, fresh, merge, p - 1);
        if p < gs.len() && gs[p].0 == k {
            assert(seq![gs[0]] + (t.take(p - 1) + seq![(k, merge(gs[p].1))] + t.skip(p)) =~= gs.take(p)
                + seq![(k, merge(gs[p].1))] + gs.skip(p + 1));
        } else {
            assert(seq![gs[0]] + (t.take(p - 1) + seq![(k, fresh)] + t.skip(p - 1)) =~= gs.take(p)
                + seq![(k, fresh)] + gs.skip(p));
        }
    }
}

/// `String`'s order: lexicographic by code point, which is the byte order
/// of their UTF-8 encodings.
pub open spec fn text_lt(a: Seq<char>, b: Seq<char>) -> bool
    decreases a.len(),
{
    if a.len() == 0 {
        b.len() > 0
    } else if b.len() == 0 {
        false
    } else if a[0] != b[0] {
        a[0] < b[0]
    } else {
        text_lt(a.drop_first(), b.drop_first())
    }
}

/// `text_lt` as a relation.
pub open spec fn by_text() -> spec_fn(Seq<char>, Seq<char>) -> bool {
    |a: Seq<char>, b: Seq<char>| text_lt(a, b)
}

proof fn lemma_text_lt_total(a: Seq<char>, b: Seq<char>)
    ensures
        !text_lt(a, a),
        a != b ==> (text_lt(a, b) <==> !text_lt(b, a)),
    decreases a.len(),
{
    if a.len() > 0 {
        lemma_text_lt_total(a.drop_first(), a.drop_first());
        if b.len() > 0 {
            lemma_text_lt_total(a.drop_first(), b.drop_first());
            if a[0] == b[0] && a != b {
                assert(a.drop_first() != b.drop_first()) by {
                    if a.drop_first() == b.drop_first() {
                        assert(a =~= b) by {
                            assert(a.len() == b.len());
                            assert forall|i: int| 0 <= i < a.len() implies a[i] == b[i] by {
                                if i > 0 {
                                    assert(a[i] == a.drop_first()[i - 1]);
                                    assert(b[i] == b.drop_first()[i - 1]);
                                }
                            }
                        }
                    }
                }
            }
        }
    } else if b.len() == 0 {
        assert(a =~= b);
    }
}

/// `String`'s order is strict and total.
pub proof fn lemma_text_order()
    ensures
        strict_total(by_text()),
{
    assert forall|a: Seq<char>| !#[trigger] by_text()(a, a) by {
        lemma_text_lt_total(a, a);
    }
    assert forall|a: Seq<char>, b: Seq<char>| a != b implies (#[trigger] by_text()(a, b) <==> !by_text()(b, a)) by {
        lemma_text_lt_total(a, b);
    }
}

/// The order of pairs of texts, first by the first and then by the second.
pub open spec fn pair_lt(a: (Seq<char>, Seq<char>), b: (Seq<char>, Seq<char>)) -> bool {
    text_lt(a.0, b.0) || (a.0 == b.0 && text_lt(a.1, b.1))
}

/// `pair_lt` as a relation.
pub open spec fn by_pair() -> spec_fn((Seq<char>, Seq<char>), (Seq<char>, Seq<char>)) -> bool {
    |a: (Seq<char>, Seq<char>), b: (Seq<char>, Seq<char>)| pair_lt(a, b)
}

/// The order of pairs is strict and total.
pub proof fn lemma_pair_order()
    ensures
        strict_total(by_pair()),
{
    assert forall|a: (Seq<char>, Seq<char>)| !#[trigger] by_pair()(a, a) by {
        lemma_text_lt_total(a.0, a.0);
        lemma_text_lt_total(a.1, a.1);
    }
    assert forall|a: (Seq<char>, Seq<char>), b: (Seq<char>, Seq<char>)| a != b implies (
    #[trigger] by_pair()(a, b) <==> !by_pair()(b, a)) by {
        lemma_text_lt_total(a.0, b.0);
        lemma_text_lt_total(a.1, b.1);
    }
}

/// `text_lt` over characters.
pub fn text_less(a: &[char], b: &[char]) -> (r: bool)
    ensures
        r == text_lt(a@, b@),
{
    let mut i: usize = 0;
    assert(a@.skip(0) =~= a@);
    assert(b@.skip(0) =~= b@);
    while i < a.len() && i < b.len() && a[i] == b[i]
        invariant
            i <= a@.len(),
            i <= b@.len(),
            forall|j: int| 0 <= j < i ==> a@[j] == b@[j],
            text_lt(a@, b@) == text_lt(a@.skip(i as int), b@.skip(i as int)),
        decreases a.len() - i,
    {
        proof {
            let x = a@.skip(i as int);
            let y = b@.skip(i as int);
            assert(x.drop_first() =~= a@.skip(i + 1));
            assert(y.drop_first() =~= b@.skip(i + 1));
        }
        i = i + 1;
    }
    if i == a.len() {
        assert(a@.skip(i as int).len() == 0);
        i < b.len()
    } else if i == b.len() {
        false
    } else {
        proof {
            assert(a@.skip(i as int)[0] == a@[i as int]);
            assert(b@.skip(i as int)[0] == b@[i as int]);
        }
        a[i] < b[i]
    }
}

} // verus!
