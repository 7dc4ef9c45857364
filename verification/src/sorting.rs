//! Stable ordering by an integer key, the way `slice::sort_by` orders
//! elements whose comparison is a key comparison: ascending by key, and
//! elements of equal key in the order they were given.
use vstd::prelude::*;

verus! {

/// The first position in `order` whose element has a key greater than `k`
/// (`order.len()` when there is none).
pub open spec fn first_greater(order: Seq<usize>, keys: Seq<i128>, k: i128) -> int
    decreases order.len(),
{
    if order.len() == 0 {
        0
    } else if keys[order[0] as int] > k {
        0
    } else {
        1 + first_greater(order.drop_first(), keys, k)
    }
}

/// The stable ascending order of the indices `0..keys.len()` by key: each
/// index, taken in turn, goes after every earlier one whose key is not
/// greater than its own.
pub open spec fn sort_order(keys: Seq<i128>) -> Seq<usize>
    decreases keys.len(),
{
    if keys.len() == 0 {
        seq![]
    } else {
        let o = sort_order(keys.drop_last());
        o.insert(first_greater(o, keys, keys.last()), (keys.len() - 1) as usize)
    }
}

/// `order` lists each index of `0..n` exactly once.
pub open spec fn is_permutation_of_range(order: Seq<usize>, n: nat) -> bool {
    &&& order.len() == n
    &&& forall|i: int| 0 <= i < order.len() ==> #[trigger] order[i] < n
    &&& forall|i: int, j: int| 0 <= i < j < order.len() ==> order[i] != order[j]
}

/// Every index of `0..n` occurs in `order`.
pub open spec fn covers_range(order: Seq<usize>, n: nat) -> bool {
    forall|x: int| 0 <= x < n ==> #[trigger] occurs(order, x)
}

/// `x` occurs in `order`.
pub open spec fn occurs(order: Seq<usize>, x: int) -> bool {
    exists|i: int| 0 <= i < order.len() && order[i] == x
}

/// `ms` read in `order`.
pub open spec fn permute<T>(ms: Seq<T>, order: Seq<usize>) -> Seq<T> {
    order.map_values(|i: usize| ms[i as int])
}

/// The keys, read in `order`, never decrease.
pub open spec fn is_sorted_by(order: Seq<usize>, keys: Seq<i128>) -> bool {
    forall|i: int, j: int|
        0 <= i < j < order.len() ==> keys[order[i] as int] <= keys[order[j] as int]
}

/// Indices of equal key keep their relative order.
pub open spec fn is_stable_by(order: Seq<usize>, keys: Seq<i128>) -> bool {
    forall|i: int, j: int|
        0 <= i < j < order.len() && keys[order[i] as int] == keys[order[j] as int] ==> order[i]
            < order[j]
}

proof fn lemma_first_greater(order: Seq<usize>, keys: Seq<i128>, k: i128)
    requires
        forall|i: int| 0 <= i < order.len() ==> (#[trigger] order[i] as int) < keys.len(),
        is_sorted_by(order, keys),
    ensures
        0 <= first_greater(order, keys, k) <= order.len(),
        forall|i: int|
            0 <= i < first_greater(order, keys, k) ==> keys[#[trigger] order[i] as int] <= k,
        forall|i: int|
            first_greater(order, keys, k) <= i < order.len() ==> keys[#[trigger] order[i] as int]
                > k,
    decreases order.len(),
{
    if order.len() > 0 {
        let t = order.drop_first();
        assert forall|i: int| 0 <= i < t.len() implies (#[trigger] t[i] as int) < keys.len() by {
            assert(t[i] == order[i + 1]);
        }
        assert forall|i: int, j: int| 0 <= i < j < t.len() implies keys[t[i] as int] <= keys[t[j] as int] by {
            assert(t[i] == order[i + 1] && t[j] == order[j + 1]);
        }
        lemma_first_greater(t, keys, k);
        if keys[order[0] as int] > k {
            assert forall|i: int| 0 <= i < order.len() implies keys[#[trigger] order[i] as int] > k by {
                if i > 0 {
                    assert(keys[order[0] as int] <= keys[order[i] as int]);
                }
            }
        } else {
            assert forall|i: int| 0 <= i < first_greater(order, keys, k) implies keys[#[trigger] order[i] as int] <= k by {
                if i > 0 {
                    assert(order[i] == t[i - 1]);
                }
            }
            assert forall|i: int| first_greater(order, keys, k) <= i < order.len() implies keys[#[trigger] order[i] as int] > k by {
                assert(order[i] == t[i - 1]);
            }
        }
    }
}

proof fn lemma_first_greater_frame(order: Seq<usize>, keys: Seq<i128>, more: Seq<i128>, k: i128)
    requires
        forall|i: int| 0 <= i < order.len() ==> (#[trigger] order[i] as int) < keys.len(),
        keys.len() <= more.len(),
        forall|i: int| 0 <= i < keys.len() ==> keys[i] == more[i],
    ensures
        first_greater(order, keys, k) == first_greater(order, more, k),
    decreases order.len(),
{
    if order.len() > 0 {
        let t = order.drop_first();
        assert forall|i: int| 0 <= i < t.len() implies (#[trigger] t[i] as int) < keys.len() by {
            assert(t[i] == order[i + 1]);
        }
        lemma_first_greater_frame(t, keys, more, k);
    }
}

/// The stable key order is a permutation of the indices, sorted by key,
/// and keeps indices of equal key in the order they were given.
pub proof fn lemma_sort_order(keys: Seq<i128>)
    requires
        keys.len() <= usize::MAX,
    ensures
        is_permutation_of_range(sort_order(keys), keys.len()),
        covers_range(sort_order(keys), keys.len()),
        is_sorted_by(sort_order(keys), keys),
        is_stable_by(sort_order(keys), keys),
    decreases keys.len(),
{
    if keys.len() > 0 {
        let n = keys.len() - 1;
        let prev = keys.drop_last();
        let o = sort_order(prev);
        lemma_sort_order(prev);
        assert(forall|i: int| 0 <= i < o.len() ==> (#[trigger] o[i] as int) < prev.len());
        assert forall|i: int, j: int| 0 <= i < j < o.len() implies keys[o[i] as int] <= keys[o[j] as int] by {
            assert(keys[o[i] as int] == prev[o[i] as int]);
            assert(keys[o[j] as int] == prev[o[j] as int]);
        }
        lemma_first_greater(o, keys, keys.last());
        let p = first_greater(o, keys, keys.last());
        let r = o.insert(p, n as usize);
        assert(sort_order(keys) == r);
        assert(r[p] == n);
        assert(keys.last() == keys[n]);
        assert forall|x: int| 0 <= x < keys.len() implies #[trigger] occurs(r, x) by {
            if x == n {
                assert(r[p] == x);
            } else {
                assert(occurs(o, x));
                let i0 = choose|i: int| 0 <= i < o.len() && o[i] == x;
                if i0 < p {
                    assert(r[i0] == o[i0]);
                } else {
                    assert(r[i0 + 1] == o[i0]);
                }
            }
        }
        assert forall|i: int| 0 <= i < r.len() implies (#[trigger] r[i]) < keys.len() by {
            if i < p {
                assert(r[i] == o[i]);
            } else if i > p {
                assert(r[i] == o[i - 1]);
            }
        }
        assert forall|i: int, j: int| 0 <= i < j < r.len() implies r[i] != r[j] by {
            if i < p {
                assert(r[i] == o[i]);
            } else if i > p {
                assert(r[i] == o[i - 1]);
            }
            if j < p {
                assert(r[j] == o[j]);
            } else if j > p {
                assert(r[j] == o[j - 1]);
            }
        }
        assert forall|i: int, j: int| 0 <= i < j < r.len() implies keys[r[i] as int] <= keys[r[j] as int] by {
            if i < p {
                assert(r[i] == o[i]);
            } else if i > p {
                assert(r[i] == o[i - 1]);
            }
            if j < p {
                assert(r[j] == o[j]);
            } else if j > p {
                assert(r[j] == o[j - 1]);
            }
        }
        assert forall|i: int, j: int|
            0 <= i < j < r.len() && keys[r[i] as int] == keys[r[j] as int] implies r[i] < r[j] by {
            if i < p {
                assert(r[i] == o[i]);
            } else if i > p {
                assert(r[i] == o[i - 1]);
            }
            if j < p {
                assert(r[j] == o[j]);
            } else if j > p {
                assert(r[j] == o[j - 1]);
            }
        }
    }
}

/// The stable ascending order of the indices of `keys` by key.
pub fn stable_order(keys: &Vec<i128>) -> (order: Vec<usize>)
    ensures
        order@ == sort_order(keys@),
        is_permutation_of_range(order@, keys@.len()),
        is_sorted_by(order@, keys@),
        is_stable_by(order@, keys@),
{
    let mut order: Vec<usize> = Vec::new();
    let mut i: usize = 0;
    while i < keys.len()
        invariant
            i <= keys.len(),
            order@ == sort_order(keys@.take(i as int)),
        decreases keys.len() - i,
    {
        let ghost pre = keys@.take(i as int);
        let ghost now = keys@.take(i + 1);
        assert(now.drop_last() == pre);
        proof {
            lemma_sort_order(pre);
            assert forall|a: int, b: int| 0 <= a < b < order@.len() implies keys@[order@[a] as int]
                <= keys@[order@[b] as int] by {
                assert(keys@[order@[a] as int] == pre[order@[a] as int]);
                assert(keys@[order@[b] as int] == pre[order@[b] as int]);
            }
            assert(forall|t: int| 0 <= t < order@.len() ==> (#[trigger] order@[t] as int) < now.len());
            lemma_first_greater(order@, keys@, keys@[i as int]);
            lemma_first_greater_frame(order@, now, keys@, keys@[i as int]);
        }
        let k = keys[i];
        let mut p: usize = 0;
        while p < order.len() && keys[order[p]] <= k
            invariant
                p <= order.len(),
                order@ == sort_order(pre),
                forall|t: int| 0 <= t < order.len() ==> (#[trigger] order@[t] as int) < pre.len(),
                pre == keys@.take(i as int),
                i < keys.len(),
                k == keys@[i as int],
                p <= first_greater(order@, keys@, k),
                forall|t: int| 0 <= t < first_greater(order@, keys@, k) ==> keys@[#[trigger] order@[t] as int] <= k,
                forall|t: int| first_greater(order@, keys@, k) <= t < order.len() ==> keys@[#[trigger] order@[t] as int] > k,
                first_greater(order@, keys@, k) <= order.len(),
            decreases order.len() - p,
        {
            p = p + 1;
        }
        assert(p == first_greater(order@, keys@, k));
        assert(now.last() == k);
        order.insert(p, i);
        i = i + 1;
    }
    assert(keys@.take(keys.len() as int) == keys@);
    proof {
        lemma_sort_order(keys@);
    }
    order
}

} // verus!
