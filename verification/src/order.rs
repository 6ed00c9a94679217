//! The ordering and fallback algorithm shared by every dispatch.
//!
//! Given the full list of implementations registered under one key, the
//! algorithm first selects the participating subset: the non-default
//! implementations when at least one exists, otherwise all the (default)
//! implementations. It then orders that subset by weight, ascending, with
//! ties broken by registration order (a stable sort).

use vstd::prelude::*;

verus! {

/// One registered implementation together with its ordering metadata.
///
/// `weight` decides the position in the dispatch order (lower runs earlier);
/// `is_default` marks a fallback that participates only when no non-default
/// implementation is registered under the same key.
pub struct Weighted<T> {
    pub hook: T,
    pub weight: i32,
    pub is_default: bool,
}

/// Whether at least one non-default implementation is registered.
pub open spec fn has_non_default<T>(s: Seq<Weighted<T>>) -> bool {
    exists|i: int| 0 <= i < s.len() && !(#[trigger] s[i]).is_default
}

/// Whether the implementation at index `i` takes part in dispatch:
/// non-defaults always do; defaults do only when no non-default exists.
pub open spec fn participates<T>(s: Seq<Weighted<T>>, i: int) -> bool {
    &&& 0 <= i < s.len()
    &&& has_non_default(s) ==> !s[i].is_default
}

/// The strict order in which two registered implementations run:
/// by weight ascending, ties broken by registration index.
pub open spec fn earlier<T>(s: Seq<Weighted<T>>, i: int, j: int) -> bool {
    s[i].weight < s[j].weight || (s[i].weight == s[j].weight && i < j)
}

/// The index sequence `r`, read as registration indices into `s`, is the
/// dispatch order of `s`: it lists exactly the participating implementations,
/// each once, sorted by weight ascending with ties in registration order.
pub open spec fn is_dispatch_order<T>(s: Seq<Weighted<T>>, r: Seq<int>) -> bool {
    &&& forall|k: int| 0 <= k < r.len() ==> participates(s, #[trigger] r[k])
    &&& forall|i: int| #[trigger] participates(s, i) ==> r.contains(i)
    &&& forall|k1: int, k2: int|
        0 <= k1 < k2 < r.len() ==> earlier(s, #[trigger] r[k1], #[trigger] r[k2])
}

/// The integer view of a vector of registration indices.
pub open spec fn idx_seq(r: Seq<usize>) -> Seq<int> {
    Seq::new(r.len(), |k: int| r[k] as int)
}

/// The dispatch order of `s`, as a mathematical value. It is meaningful
/// whenever some dispatch order exists, and by
/// [`lemma_dispatch_order_unique`] it is then the only one.
pub open spec fn the_dispatch_order<T>(s: Seq<Weighted<T>>) -> Seq<int> {
    choose|r: Seq<int>| is_dispatch_order(s, r)
}

/// Computes the dispatch order of `items`: the participating subset,
/// stably sorted by weight ascending.
pub fn dispatch_order<T>(items: &Vec<Weighted<T>>) -> (r: Vec<usize>)
    ensures
        is_dispatch_order(items@, idx_seq(r@)),
{
    let ghost s = items@;
    let mut has_nd = false;
    let mut i: usize = 0;
    while i < items.len()
        invariant
            i <= items.len(),
            s == items@,
            has_nd <==> exists|j: int| 0 <= j < i && !(#[trigger] s[j]).is_default,
        decreases items.len() - i,
    {
        if !items[i].is_default {
            has_nd = true;
            assert(!s[i as int].is_default);
        }
        i = i + 1;
    }
    assert(has_nd == has_non_default(s));

    let mut cand: Vec<usize> = Vec::new();
    let mut i: usize = 0;
    while i < items.len()
        invariant
            i <= items.len(),
            s == items@,
            has_nd == has_non_default(s),
            forall|k: int|
                0 <= k < cand@.len() ==> cand@[k] < i && participates(s, #[trigger] cand@[k] as int),
            forall|j: int| 0 <= j < i && participates(s, j) ==> idx_seq(cand@).contains(j),
            forall|k1: int, k2: int| 0 <= k1 < k2 < cand@.len() ==> cand@[k1] < cand@[k2],
        decreases items.len() - i,
    {
        let ghost c_old = cand@;
        if !has_nd || !items[i].is_default {
            cand.push(i);
            assert(participates(s, i as int));
            assert(idx_seq(cand@)[cand@.len() - 1] == i as int);
        }
        assert forall|j: int| 0 <= j < i + 1 && participates(s, j) implies idx_seq(
            cand@,
        ).contains(j) by {
            if j < i {
                let k = choose|k: int| 0 <= k < c_old.len() && c_old[k] as int == j;
                assert(cand@[k] == c_old[k]);
                assert(idx_seq(cand@)[k] == j);
            } else {
                assert(idx_seq(cand@)[cand@.len() - 1] == j);
            }
        }
        i = i + 1;
    }

    let mut r: Vec<usize> = Vec::new();
    let mut i: usize = 0;
    while i < cand.len()
        invariant
            i <= cand.len(),
            s == items@,
            forall|k: int|
                0 <= k < cand@.len() ==> cand@[k] < items@.len() && participates(
                    s,
                    #[trigger] cand@[k] as int,
                ),
            forall|j: int| participates(s, j) ==> idx_seq(cand@).contains(j),
            forall|k1: int, k2: int| 0 <= k1 < k2 < cand@.len() ==> cand@[k1] < cand@[k2],
            forall|k: int|
                0 <= k < r@.len() ==> exists|m: int| 0 <= m < i && cand@[m] == #[trigger] r@[k],
            forall|m: int| 0 <= m < i ==> idx_seq(r@).contains(#[trigger] cand@[m] as int),
            forall|k1: int, k2: int|
                0 <= k1 < k2 < r@.len() ==> earlier(s, #[trigger] r@[k1] as int, #[trigger] r@[k2] as int),
        decreases cand.len() - i,
    {
        let x = cand[i];
        assert(x < items.len()) by {
            assert(participates(s, cand@[i as int] as int));
        }
        let mut p: usize = 0;
        while p < r.len() && items[r[p]].weight <= items[x].weight
            invariant
                p <= r@.len(),
                s == items@,
                x < items@.len(),
                forall|k: int| 0 <= k < r@.len() ==> #[trigger] r@[k] < items@.len(),
                forall|k: int|
                    0 <= k < p ==> s[#[trigger] r@[k] as int].weight <= s[x as int].weight,
            decreases r.len() - p,
        {
            p = p + 1;
        }
        // Everything at or after the insertion point runs strictly later than x.
        assert forall|k: int| p <= k < r@.len() implies s[x as int].weight < s[
            (#[trigger] r@[k]) as int
        ].weight by {
            if p < r@.len() {
                if k > p {
                    assert(earlier(s, r@[p as int] as int, r@[k] as int));
                }
            }
        }
        // Everything before the insertion point comes from an earlier candidate.
        assert forall|k: int| 0 <= k < p implies earlier(s, r@[k] as int, x as int) by {
            let m = choose|m: int| 0 <= m < i && cand@[m] == r@[k];
            assert(cand@[m] < cand@[i as int]);
        }
        let ghost r_old = r@;
        r.insert(p, x);
        assert(r@ == r_old.insert(p as int, x));
        proof {
            r_old.insert_ensures(p as int, x);
        }
        assert forall|k1: int, k2: int| 0 <= k1 < k2 < r@.len() implies earlier(
            s,
            #[trigger] r@[k1] as int,
            #[trigger] r@[k2] as int,
        ) by {
            if k1 < p && k2 < p {
            } else if k1 == p && k2 > p {
                assert(r@[k2] == r_old[k2 - 1]);
            } else if k1 < p && k2 == p {
            } else if k1 < p && k2 > p {
                assert(r@[k2] == r_old[k2 - 1]);
            } else if k1 > p {
                assert(r@[k1] == r_old[k1 - 1]);
                assert(r@[k2] == r_old[k2 - 1]);
            }
        }
        assert forall|m: int| 0 <= m < i + 1 implies idx_seq(r@).contains(
            #[trigger] cand@[m] as int,
        ) by {
            if m == i {
                assert(r@[p as int] == x);
                assert(idx_seq(r@)[p as int] == x as int);
            } else {
                let k = choose|k: int| 0 <= k < r_old.len() && r_old[k] as int == cand@[m] as int;
                if k < p {
                    assert(r@[k] == r_old[k]);
                    assert(idx_seq(r@)[k] == cand@[m] as int);
                } else {
                    assert(r@[k + 1] == r_old[k]);
                    assert(idx_seq(r@)[k + 1] == cand@[m] as int);
                }
            }
        }
        assert forall|k: int| 0 <= k < r@.len() implies exists|m: int|
            0 <= m < i + 1 && cand@[m] == #[trigger] r@[k] by {
            if k == p {
                assert(cand@[i as int] == r@[k]);
            } else if k < p {
                assert(r@[k] == r_old[k]);
            } else {
                assert(r@[k] == r_old[k - 1]);
            }
        }
        i = i + 1;
    }
    assert forall|j: int| #[trigger] participates(s, j) implies idx_seq(r@).contains(j) by {
        assert(idx_seq(cand@).contains(j));
        let m = choose|m: int| 0 <= m < idx_seq(cand@).len() && idx_seq(cand@)[m] == j;
        assert(idx_seq(r@).contains(cand@[m] as int));
    }
    assert forall|k: int| 0 <= k < idx_seq(r@).len() implies participates(
        s,
        #[trigger] idx_seq(r@)[k],
    ) by {
        let m = choose|m: int| 0 <= m < cand@.len() && cand@[m] == r@[k];
        assert(participates(s, cand@[m] as int));
    }
    r
}

/// Override-wins: when any non-default implementation is registered, no
/// default implementation appears anywhere in the dispatch order.
pub proof fn lemma_override_wins<T>(s: Seq<Weighted<T>>, r: Seq<int>, k: int)
    requires
        is_dispatch_order(s, r),
        has_non_default(s),
        0 <= k < r.len(),
    ensures
        !s[r[k]].is_default,
{
    assert(participates(s, r[k]));
}

/// Default fallback: when only default implementations are registered, every
/// one of them appears in the dispatch order, and nothing else does.
pub proof fn lemma_default_fallback<T>(s: Seq<Weighted<T>>, r: Seq<int>)
    requires
        is_dispatch_order(s, r),
        !has_non_default(s),
    ensures
        forall|i: int| 0 <= i < s.len() ==> r.contains(i),
        forall|k: int| 0 <= k < r.len() ==> 0 <= #[trigger] r[k] < s.len(),
{
    assert forall|i: int| 0 <= i < s.len() implies r.contains(i) by {
        assert(participates(s, i));
    }
    assert forall|k: int| 0 <= k < r.len() implies 0 <= #[trigger] r[k] < s.len() by {
        assert(participates(s, r[k]));
    }
}

/// No implementation runs twice: a dispatch order lists each registration
/// index at most once.
pub proof fn lemma_dispatch_no_repeats<T>(s: Seq<Weighted<T>>, r: Seq<int>, k1: int, k2: int)
    requires
        is_dispatch_order(s, r),
        0 <= k1 < k2 < r.len(),
    ensures
        r[k1] != r[k2],
{
    assert(earlier(s, r[k1], r[k2]));
}

/// The insertion-order-only mode is the degenerate case of the algorithm:
/// with every implementation of one weight and none a default, the dispatch
/// order is exactly the registration order.
pub proof fn lemma_uniform_weights_registration_order<T>(s: Seq<Weighted<T>>, r: Seq<int>)
    requires
        is_dispatch_order(s, r),
        forall|i: int, j: int|
            #![trigger s[i], s[j]]
            0 <= i < s.len() && 0 <= j < s.len() ==> s[i].weight == s[j].weight,
        forall|i: int| 0 <= i < s.len() ==> !(#[trigger] s[i]).is_default,
    ensures
        r == Seq::new(s.len(), |i: int| i),
{
    let id = Seq::new(s.len(), |i: int| i);
    assert forall|i: int| #[trigger] participates(s, i) implies id.contains(i) by {
        assert(id[i] == i);
    }
    assert forall|k1: int, k2: int| 0 <= k1 < k2 < id.len() implies earlier(
        s,
        #[trigger] id[k1],
        #[trigger] id[k2],
    ) by {
        assert(s[id[k1]].weight == s[id[k2]].weight);
    }
    assert(is_dispatch_order(s, id));
    lemma_dispatch_order_unique(s, r, id);
}

/// An extension point with no registered implementations at all dispatches
/// an empty sequence: a valid state, not an error.
pub proof fn lemma_empty_dispatch<T>(s: Seq<Weighted<T>>, r: Seq<int>)
    requires
        is_dispatch_order(s, r),
        s.len() == 0,
    ensures
        r.len() == 0,
{
    if r.len() > 0 {
        assert(participates(s, r[0]));
    }
}

/// Stability: implementations of equal weight keep their relative
/// registration order in every dispatch order.
pub proof fn lemma_stable_order<T>(s: Seq<Weighted<T>>, r: Seq<int>, k1: int, k2: int)
    requires
        is_dispatch_order(s, r),
        0 <= k1 < k2 < r.len(),
        s[r[k1]].weight == s[r[k2]].weight,
    ensures
        r[k1] < r[k2],
{
    assert(earlier(s, r[k1], r[k2]));
}

/// Monotonicity in weight: a strictly lighter participating implementation
/// always runs before a strictly heavier one, whatever their registration
/// order was.
pub proof fn lemma_weight_monotonic<T>(s: Seq<Weighted<T>>, r: Seq<int>, k1: int, k2: int)
    requires
        is_dispatch_order(s, r),
        0 <= k1 < r.len(),
        0 <= k2 < r.len(),
        s[r[k1]].weight < s[r[k2]].weight,
    ensures
        k1 < k2,
{
    if k2 < k1 {
        assert(earlier(s, r[k2], r[k1]));
    }
}

/// Whether `r` is strictly sorted by the dispatch order on `s`.
pub open spec fn sorted_by_earlier<T>(s: Seq<Weighted<T>>, r: Seq<int>) -> bool {
    forall|k1: int, k2: int|
        0 <= k1 < k2 < r.len() ==> earlier(s, #[trigger] r[k1], #[trigger] r[k2])
}

/// Two sequences strictly sorted by the same dispatch order and holding the
/// same elements are identical.
proof fn lemma_sorted_same_elements_equal<T>(s: Seq<Weighted<T>>, r1: Seq<int>, r2: Seq<int>)
    requires
        sorted_by_earlier(s, r1),
        sorted_by_earlier(s, r2),
        forall|i: int| r1.contains(i) <==> r2.contains(i),
    ensures
        r1 == r2,
    decreases r1.len(),
{
    if r1.len() == 0 {
        if r2.len() > 0 {
            assert(r2.contains(r2[0]));
            assert(r1.contains(r2[0]));
        }
        assert(r1 =~= r2);
    } else if r2.len() == 0 {
        assert(r1.contains(r1[0]));
        assert(r2.contains(r1[0]));
        assert(r1 =~= r2);
    } else {
        // The heads agree: each is the strict minimum of the same element set.
        assert(r1.contains(r1[0]));
        assert(r2.contains(r2[0]));
        assert(r2.contains(r1[0]));
        assert(r1.contains(r2[0]));
        if r1[0] != r2[0] {
            let k1 = choose|k: int| 0 <= k < r1.len() && r1[k] == r2[0];
            let k2 = choose|k: int| 0 <= k < r2.len() && r2[k] == r1[0];
            assert(k1 > 0);
            assert(k2 > 0);
            assert(earlier(s, r1[0], r1[k1]));
            assert(earlier(s, r2[0], r2[k2]));
            assert(false);
        }
        let t1 = r1.skip(1);
        let t2 = r2.skip(1);
        assert forall|i: int| t1.contains(i) implies t2.contains(i) by {
            let k = choose|k: int| 0 <= k < t1.len() && t1[k] == i;
            assert(r1[k + 1] == i);
            assert(r1.contains(i));
            assert(earlier(s, r1[0], r1[k + 1]));
            let m = choose|m: int| 0 <= m < r2.len() && r2[m] == i;
            assert(m > 0);
            assert(t2[m - 1] == i);
        }
        assert forall|i: int| t2.contains(i) implies t1.contains(i) by {
            let k = choose|k: int| 0 <= k < t2.len() && t2[k] == i;
            assert(r2[k + 1] == i);
            assert(r2.contains(i));
            assert(earlier(s, r2[0], r2[k + 1]));
            let m = choose|m: int| 0 <= m < r1.len() && r1[m] == i;
            assert(m > 0);
            assert(t1[m - 1] == i);
        }
        lemma_sorted_same_elements_equal(s, t1, t2);
        assert(r1.len() == r2.len());
        assert forall|k: int| 0 <= k < r1.len() implies r1[k] == r2[k] by {
            if k > 0 {
                assert(t1[k - 1] == r1[k]);
                assert(t2[k - 1] == r2[k]);
            }
        }
        assert(r1 =~= r2);
    }
}

/// Determinism: the dispatch order of a given list of implementations is
/// unique, so ordering is a pure function of an entry's contents.
pub proof fn lemma_dispatch_order_unique<T>(s: Seq<Weighted<T>>, r1: Seq<int>, r2: Seq<int>)
    requires
        is_dispatch_order(s, r1),
        is_dispatch_order(s, r2),
    ensures
        r1 == r2,
{
    assert forall|i: int| r1.contains(i) implies r2.contains(i) by {
        let k = choose|k: int| 0 <= k < r1.len() && r1[k] == i;
        assert(participates(s, r1[k]));
    }
    assert forall|i: int| r2.contains(i) implies r1.contains(i) by {
        let k = choose|k: int| 0 <= k < r2.len() && r2[k] == i;
        assert(participates(s, r2[k]));
    }
    lemma_sorted_same_elements_equal(s, r1, r2);
}

} // verus!
