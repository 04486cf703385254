//! Stable sorting by two-part integer keys.
//!
//! The layout pipeline sorts runs, elements and grid points by pairs of
//! fixed-point coordinates, sometimes ascending and sometimes descending in
//! the first component.  Sorting is done over the index space: the caller
//! extracts one `(i64, i64)` key per item, gets back the stable-sorted
//! order of indices, and rebuilds its vector.  The specs below pin the
//! exact output order, so every caller's contract stays deterministic.

use vstd::prelude::*;

verus! {

/// Ascending in both components, lexicographically.
pub open spec fn key_le_asc(a: (i64, i64), b: (i64, i64)) -> bool {
    a.0 < b.0 || (a.0 == b.0 && a.1 <= b.1)
}

/// Descending in the first component, ascending in the second.
pub open spec fn key_le_desc(a: (i64, i64), b: (i64, i64)) -> bool {
    a.0 > b.0 || (a.0 == b.0 && a.1 <= b.1)
}

/// Stable insertion of index `x` into the sorted index list: `x` passes
/// every trailing index whose key is strictly greater.
pub open spec fn spec_insert_idx(sorted: Seq<usize>, keys: Seq<(i64, i64)>, x: usize, asc: bool) -> Seq<
    usize,
>
    decreases sorted.len(),
{
    if sorted.len() == 0 {
        seq![x]
    } else if (if asc {
        key_le_asc(keys[sorted.last() as int], keys[x as int])
    } else {
        key_le_desc(keys[sorted.last() as int], keys[x as int])
    }) {
        sorted.push(x)
    } else {
        spec_insert_idx(sorted.drop_last(), keys, x, asc).push(sorted.last())
    }
}

/// The stable insertion sort of the first `k` indices.
pub open spec fn spec_sort_idx_prefix(keys: Seq<(i64, i64)>, k: int, asc: bool) -> Seq<usize>
    decreases k,
{
    if k <= 0 {
        Seq::empty()
    } else {
        spec_insert_idx(spec_sort_idx_prefix(keys, k - 1, asc), keys, (k - 1) as usize, asc)
    }
}

/// The stable-sorted order of indices `0..keys.len()`.
pub open spec fn spec_sort_idx(keys: Seq<(i64, i64)>, asc: bool) -> Seq<usize> {
    spec_sort_idx_prefix(keys, keys.len() as int, asc)
}

pub open spec fn spec_le(a: (i64, i64), b: (i64, i64), asc: bool) -> bool {
    if asc {
        key_le_asc(a, b)
    } else {
        key_le_desc(a, b)
    }
}

proof fn lemma_insert_props(sorted: Seq<usize>, keys: Seq<(i64, i64)>, x: usize, asc: bool)
    ensures
        spec_insert_idx(sorted, keys, x, asc).len() == sorted.len() + 1,
        spec_insert_idx(sorted, keys, x, asc).to_multiset() == sorted.to_multiset().insert(x),
        ((forall|i: int| 0 <= i < sorted.len() ==> #[trigger] sorted[i] < keys.len()) && x
            < keys.len()) ==> forall|i: int|
            0 <= i < sorted.len() + 1 ==> #[trigger] spec_insert_idx(sorted, keys, x, asc)[i]
                < keys.len(),
    decreases sorted.len(),
{
    sorted.to_multiset_ensures();
    let out = spec_insert_idx(sorted, keys, x, asc);
    if sorted.len() == 0 {
        assert(out =~= seq![x]);
        assert(sorted =~= Seq::<usize>::empty());
        assert(seq![x] =~= Seq::<usize>::empty().push(x));
        Seq::<usize>::empty().to_multiset_ensures();
    } else if spec_le(keys[sorted.last() as int], keys[x as int], asc) {
        assert(out == sorted.push(x));
    } else {
        let head = sorted.drop_last();
        let inner = spec_insert_idx(head, keys, x, asc);
        lemma_insert_props(head, keys, x, asc);
        head.to_multiset_ensures();
        inner.to_multiset_ensures();
        assert(out == inner.push(sorted.last()));
        assert(out.to_multiset() == inner.to_multiset().insert(sorted.last()));
        assert(sorted =~= head.push(sorted.last()));
        assert(sorted.to_multiset() == head.to_multiset().insert(sorted.last()));
        assert(inner.to_multiset() == head.to_multiset().insert(x));
        assert(out.to_multiset() =~= sorted.to_multiset().insert(x)) by {
            assert(head.to_multiset().insert(x).insert(sorted.last()) =~= head.to_multiset().insert(
                sorted.last(),
            ).insert(x));
        }
        if (forall|i: int| 0 <= i < sorted.len() ==> #[trigger] sorted[i] < keys.len()) && x
            < keys.len() {
            assert(forall|i: int| 0 <= i < head.len() ==> #[trigger] head[i] < keys.len());
            assert(forall|i: int| 0 <= i < head.len() + 1 ==> #[trigger] inner[i] < keys.len());
            assert forall|i: int| 0 <= i < sorted.len() + 1 implies #[trigger] out[i] < keys.len()
                by {
                if i < inner.len() {
                    assert(out[i] == inner[i]);
                } else {
                    assert(out[i] == sorted.last());
                }
            }
        }
    }
}

/// Every index the sort emits is an index of `keys`, each exactly once.
pub proof fn lemma_sort_idx_props(keys: Seq<(i64, i64)>, k: int, asc: bool)
    requires
        0 <= k <= keys.len(),
        k <= usize::MAX,
    ensures
        spec_sort_idx_prefix(keys, k, asc).len() == k,
        spec_sort_idx_prefix(keys, k, asc).to_multiset() == Seq::new(
            k as nat,
            |i: int| i as usize,
        ).to_multiset(),
        forall|i: int|
            0 <= i < k ==> #[trigger] spec_sort_idx_prefix(keys, k, asc)[i] < keys.len(),
    decreases k,
{
    let out = spec_sort_idx_prefix(keys, k, asc);
    if k <= 0 {
        assert(out =~= Seq::<usize>::empty());
        assert(Seq::new(0nat, |i: int| i as usize) =~= Seq::<usize>::empty());
    } else {
        let prev = spec_sort_idx_prefix(keys, k - 1, asc);
        lemma_sort_idx_props(keys, k - 1, asc);
        lemma_insert_props(prev, keys, (k - 1) as usize, asc);
        let ids_prev = Seq::new((k - 1) as nat, |i: int| i as usize);
        let ids = Seq::new(k as nat, |i: int| i as usize);
        assert(ids.drop_last() =~= ids_prev);
        assert(ids =~= ids_prev.push((k - 1) as usize));
        ids_prev.to_multiset_ensures();
        assert(ids.to_multiset() == ids_prev.to_multiset().insert((k - 1) as usize));
        assert forall|i: int| 0 <= i < k implies #[trigger] out[i] < keys.len() by {
            assert(forall|i: int| 0 <= i < prev.len() ==> #[trigger] prev[i] < keys.len() as int);
        }
    }
}

/// The stable-sorted index order for `keys`: ascending lexicographic when
/// `asc`, else descending in the first key component.
pub fn sort_indices(keys: &Vec<(i64, i64)>, asc: bool) -> (r: Vec<usize>)
    ensures
        r@ == spec_sort_idx(keys@, asc),
        r@.len() == keys@.len(),
        forall|i: int| 0 <= i < r@.len() ==> #[trigger] r@[i] < keys@.len(),
{
    let mut out: Vec<usize> = Vec::new();
    let mut k: usize = 0;
    proof {
        lemma_sort_idx_props(keys@, 0, asc);
    }
    while k < keys.len()
        invariant
            k <= keys@.len(),
            out@ == spec_sort_idx_prefix(keys@, k as int, asc),
            out@.len() == k,
            forall|i: int| 0 <= i < out@.len() ==> #[trigger] out@[i] < keys@.len(),
        decreases keys@.len() - k,
    {
        let ghost prev = out@;
        out.push(k);
        let mut j: usize = out.len() - 1;
        let mut placed = false;
        proof {
            assert(prev.subrange(0, prev.len() as int) =~= prev);
            assert(spec_insert_idx(prev, keys@, k, asc) + prev.subrange(
                prev.len() as int,
                prev.len() as int,
            ) =~= spec_insert_idx(prev, keys@, k, asc));
        }
        while j > 0 && !placed
            invariant
                k < keys@.len(),
                out@.len() == prev.len() + 1,
                j < out@.len(),
                out@[j as int] == k,
                forall|i: int| 0 <= i < out@.len() ==> #[trigger] out@[i] < keys@.len(),
                forall|i: int| 0 <= i < j ==> out@[i] == prev[i],
                forall|i: int| j < i < out@.len() ==> out@[i] == prev[i - 1],
                placed ==> j > 0 && spec_le(keys@[prev[j - 1] as int], keys@[k as int], asc),
                spec_insert_idx(prev, keys@, k, asc) == spec_insert_idx(
                    prev.subrange(0, j as int),
                    keys@,
                    k,
                    asc,
                ) + prev.subrange(j as int, prev.len() as int),
            decreases j, (if placed { 0int } else { 1int }),
        {
            let a0 = keys[out[j - 1]];
            let b0 = keys[out[j]];
            let le = if asc {
                a0.0 < b0.0 || (a0.0 == b0.0 && a0.1 <= b0.1)
            } else {
                a0.0 > b0.0 || (a0.0 == b0.0 && a0.1 <= b0.1)
            };
            if le {
                placed = true;
            } else {
            let a = out[j - 1];
            let b = out[j];
            out[j - 1] = b;
            out[j] = a;
            proof {
                let s = prev.subrange(0, j as int);
                assert(s.last() == prev[j - 1]);
                assert(s.drop_last() =~= prev.subrange(0, j - 1 as int));
                assert(spec_insert_idx(s, keys@, k, asc) == spec_insert_idx(
                    s.drop_last(),
                    keys@,
                    k,
                    asc,
                ).push(prev[j - 1]));
                assert(spec_insert_idx(prev.subrange(0, j - 1 as int), keys@, k, asc).push(
                    prev[j - 1],
                ) + prev.subrange(j as int, prev.len() as int) =~= spec_insert_idx(
                    prev.subrange(0, j - 1 as int),
                    keys@,
                    k,
                    asc,
                ) + prev.subrange(j - 1 as int, prev.len() as int));
            }
            j = j - 1;
            }
        }
        proof {
            let s = prev.subrange(0, j as int);
            if j > 0 {
                assert(s.last() == prev[j - 1]);
                assert(spec_le(keys@[prev[j - 1] as int], keys@[k as int], asc));
                assert(spec_insert_idx(s, keys@, k, asc) == s.push(k));
            } else {
                assert(s =~= Seq::<usize>::empty());
                assert(spec_insert_idx(s, keys@, k, asc) =~= seq![k]);
            }
            assert(out@ =~= s.push(k) + prev.subrange(j as int, prev.len() as int));
            assert(out@ =~= spec_insert_idx(prev, keys@, k, asc));
            lemma_sort_idx_props(keys@, k + 1, asc);
        }
        k = k + 1;
    }
    out
}

} // verus!
