//! In-place sorting of `i32` vectors over half-open index ranges:
//! merge sort, selection sort, and a hybrid of the two that switches to
//! selection sort on small subranges.

use vstd::prelude::*;
use vstd::seq_lib::lemma_multiset_commutative;
use vstd::seq_lib::group_to_multiset_ensures;

verus! {

/// Subranges of at most this many elements are handed to selection sort by
/// the hybrid algorithm; larger ones are split and merged.
pub const HYBRID_THRESHOLD: usize = 150;

/// The elements of `s` at positions `lo..hi` are in non-descending order.
pub open spec fn sorted_between(s: Seq<i32>, lo: int, hi: int) -> bool {
    forall|i: int, j: int| lo <= i <= j < hi ==> s[i] <= s[j]
}

/// The whole sequence is in non-descending order.
pub open spec fn sorted(s: Seq<i32>) -> bool {
    sorted_between(s, 0, s.len() as int)
}

/// Splitting a subrange at an interior point splits its sequence of elements.
proof fn lemma_subrange_split(s: Seq<i32>, lo: int, mid: int, hi: int)
    requires
        0 <= lo <= mid <= hi <= s.len(),
    ensures
        s.subrange(lo, hi) =~= s.subrange(lo, mid) + s.subrange(mid, hi),
{
}

/// Appending the next unconsumed element of `x` to the merged prefix keeps
/// the prefix's multiset equal to the multiset of what was consumed so far.
proof fn lemma_take_from_left(presub: Seq<i32>, newsub: Seq<i32>, x: Seq<i32>, xi: int, y: Seq<i32>, yj: int)
    requires
        0 <= xi < x.len(),
        0 <= yj <= y.len(),
        newsub == presub.push(x[xi]),
        presub.to_multiset() == (x.subrange(0, xi) + y.subrange(0, yj)).to_multiset(),
    ensures
        newsub.to_multiset() == (x.subrange(0, xi + 1) + y.subrange(0, yj)).to_multiset(),
{
    broadcast use vstd::multiset::group_multiset_axioms;
    broadcast use group_to_multiset_ensures;
    broadcast use lemma_multiset_commutative;
    assert(x.subrange(0, xi + 1) =~= x.subrange(0, xi).push(x[xi]));
    assert(newsub.to_multiset() == presub.to_multiset().insert(x[xi]));
    assert(x.subrange(0, xi + 1).to_multiset() == x.subrange(0, xi).to_multiset().insert(x[xi]));
    assert((x.subrange(0, xi + 1) + y.subrange(0, yj)).to_multiset()
        =~= (x.subrange(0, xi) + y.subrange(0, yj)).to_multiset().insert(x[xi]));
}

/// The mirror image of `lemma_take_from_left`, consuming from `y`.
proof fn lemma_take_from_right(presub: Seq<i32>, newsub: Seq<i32>, x: Seq<i32>, xi: int, y: Seq<i32>, yj: int)
    requires
        0 <= xi <= x.len(),
        0 <= yj < y.len(),
        newsub == presub.push(y[yj]),
        presub.to_multiset() == (x.subrange(0, xi) + y.subrange(0, yj)).to_multiset(),
    ensures
        newsub.to_multiset() == (x.subrange(0, xi) + y.subrange(0, yj + 1)).to_multiset(),
{
    broadcast use vstd::multiset::group_multiset_axioms;
    broadcast use group_to_multiset_ensures;
    broadcast use lemma_multiset_commutative;
    assert(y.subrange(0, yj + 1) =~= y.subrange(0, yj).push(y[yj]));
    assert(newsub.to_multiset() == presub.to_multiset().insert(y[yj]));
    assert(y.subrange(0, yj + 1).to_multiset() == y.subrange(0, yj).to_multiset().insert(y[yj]));
    assert((x.subrange(0, xi) + y.subrange(0, yj + 1)).to_multiset()
        =~= (x.subrange(0, xi) + y.subrange(0, yj)).to_multiset().insert(y[yj]));
}

/// Merges the two adjacent sorted subranges `left..mid` and `mid..right` of
/// `arr` into one sorted subrange `left..right`, leaving every element
/// outside `left..right` where it was.
pub fn merge(arr: Vec<i32>, left: usize, mid: usize, right: usize) -> (r: Vec<i32>)
    requires
        left <= mid <= right <= arr.len(),
        sorted_between(arr@, left as int, mid as int),
        sorted_between(arr@, mid as int, right as int),
    ensures
        r@.len() == arr@.len(),
        sorted_between(r@, left as int, right as int),
        r@.subrange(left as int, right as int).to_multiset()
            == arr@.subrange(left as int, right as int).to_multiset(),
        forall|t: int| 0 <= t < arr@.len() && !(left <= t < right) ==> r@[t] == arr@[t],
{
    broadcast use group_to_multiset_ensures;
    broadcast use lemma_multiset_commutative;

    let ghost orig = arr@;
    let mut arr = arr;

    let mut lhs: Vec<i32> = Vec::new();
    let mut idx: usize = left;
    while idx < mid
        invariant
            left <= idx <= mid <= arr.len(),
            lhs@ =~= arr@.subrange(left as int, idx as int),
        decreases mid - idx,
    {
        lhs.push(arr[idx]);
        idx = idx + 1;
    }
    let mut rhs: Vec<i32> = Vec::new();
    let mut idx2: usize = mid;
    while idx2 < right
        invariant
            mid <= idx2 <= right <= arr.len(),
            rhs@ =~= arr@.subrange(mid as int, idx2 as int),
        decreases right - idx2,
    {
        rhs.push(arr[idx2]);
        idx2 = idx2 + 1;
    }

    let n1 = mid - left;
    let n2 = right - mid;
    let mut i: usize = 0;
    let mut j: usize = 0;
    let mut k: usize = left;
    while i < n1 && j < n2
        invariant
            n1 == mid - left,
            n2 == right - mid,
            left <= mid <= right <= arr.len(),
            arr@.len() == orig.len(),
            i <= n1,
            j <= n2,
            k == left + i + j,
            lhs@ == orig.subrange(left as int, mid as int),
            rhs@ == orig.subrange(mid as int, right as int),
            sorted(lhs@),
            sorted(rhs@),
            forall|t: int| 0 <= t < orig.len() && !(left <= t < k) ==> arr@[t] == orig[t],
            sorted_between(arr@, left as int, k as int),
            forall|t: int| left <= t < k && i < n1 ==> arr@[t] <= lhs@[i as int],
            forall|t: int| left <= t < k && j < n2 ==> arr@[t] <= rhs@[j as int],
            arr@.subrange(left as int, k as int).to_multiset()
                =~= (lhs@.subrange(0, i as int) + rhs@.subrange(0, j as int)).to_multiset(),
        decreases n1 - i + n2 - j,
    {
        let ghost pre = arr@;
        if lhs[i] < rhs[j] {
            arr[k] = lhs[i];
            proof {
                assert(arr@.subrange(left as int, k + 1 as int)
                    =~= pre.subrange(left as int, k as int).push(lhs@[i as int]));
                lemma_take_from_left(
                    pre.subrange(left as int, k as int),
                    arr@.subrange(left as int, k + 1 as int),
                    lhs@, i as int, rhs@, j as int);
            }
            i = i + 1;
        } else {
            arr[k] = rhs[j];
            proof {
                assert(arr@.subrange(left as int, k + 1 as int)
                    =~= pre.subrange(left as int, k as int).push(rhs@[j as int]));
                lemma_take_from_right(
                    pre.subrange(left as int, k as int),
                    arr@.subrange(left as int, k + 1 as int),
                    lhs@, i as int, rhs@, j as int);
            }
            j = j + 1;
        }
        k = k + 1;
    }
    while i < n1
        invariant
            n1 == mid - left,
            n2 == right - mid,
            left <= mid <= right <= arr.len(),
            arr@.len() == orig.len(),
            i <= n1,
            j <= n2,
            i < n1 ==> j == n2,
            k == left + i + j,
            lhs@ == orig.subrange(left as int, mid as int),
            rhs@ == orig.subrange(mid as int, right as int),
            sorted(lhs@),
            forall|t: int| 0 <= t < orig.len() && !(left <= t < k) ==> arr@[t] == orig[t],
            sorted_between(arr@, left as int, k as int),
            forall|t: int| left <= t < k && i < n1 ==> arr@[t] <= lhs@[i as int],
            forall|t: int| left <= t < k && j < n2 ==> arr@[t] <= rhs@[j as int],
            arr@.subrange(left as int, k as int).to_multiset()
                =~= (lhs@.subrange(0, i as int) + rhs@.subrange(0, j as int)).to_multiset(),
        decreases n1 - i,
    {
        let ghost pre = arr@;
        arr[k] = lhs[i];
        proof {
            assert(arr@.subrange(left as int, k + 1 as int)
                =~= pre.subrange(left as int, k as int).push(lhs@[i as int]));
            lemma_take_from_left(
                pre.subrange(left as int, k as int),
                arr@.subrange(left as int, k + 1 as int),
                lhs@, i as int, rhs@, j as int);
        }
        i = i + 1;
        k = k + 1;
    }
    while j < n2
        invariant
            n1 == mid - left,
            n2 == right - mid,
            left <= mid <= right <= arr.len(),
            arr@.len() == orig.len(),
            i == n1,
            j <= n2,
            k == left + i + j,
            lhs@ == orig.subrange(left as int, mid as int),
            rhs@ == orig.subrange(mid as int, right as int),
            sorted(rhs@),
            forall|t: int| 0 <= t < orig.len() && !(left <= t < k) ==> arr@[t] == orig[t],
            sorted_between(arr@, left as int, k as int),
            forall|t: int| left <= t < k && j < n2 ==> arr@[t] <= rhs@[j as int],
            arr@.subrange(left as int, k as int).to_multiset()
                =~= (lhs@.subrange(0, i as int) + rhs@.subrange(0, j as int)).to_multiset(),
        decreases n2 - j,
    {
        let ghost pre = arr@;
        arr[k] = rhs[j];
        proof {
            assert(arr@.subrange(left as int, k + 1 as int)
                =~= pre.subrange(left as int, k as int).push(rhs@[j as int]));
            lemma_take_from_right(
                pre.subrange(left as int, k as int),
                arr@.subrange(left as int, k + 1 as int),
                lhs@, i as int, rhs@, j as int);
        }
        j = j + 1;
        k = k + 1;
    }
    proof {
        assert(lhs@.subrange(0, n1 as int) =~= lhs@);
        assert(rhs@.subrange(0, n2 as int) =~= rhs@);
        lemma_subrange_split(orig, left as int, mid as int, right as int);
        assert(arr@.subrange(left as int, right as int).to_multiset()
            == orig.subrange(left as int, right as int).to_multiset());
    }
    arr
}

/// Rearranges all elements of `arr` into non-descending order in place,
/// by repeatedly selecting the minimum of the unsorted suffix.
pub fn selection_sort(arr: &mut Vec<i32>)
    ensures
        final(arr)@.len() == old(arr)@.len(),
        sorted(final(arr)@),
        final(arr)@.to_multiset() == old(arr)@.to_multiset(),
{
    broadcast use group_to_multiset_ensures;

    let len = arr.len();
    let mut i: usize = 0;
    while i < len
        invariant
            i <= len,
            arr@.len() == len,
            arr@.to_multiset() == old(arr)@.to_multiset(),
            sorted_between(arr@, 0, i as int),
            forall|t: int, u: int| 0 <= t < i && i <= u < len ==> arr@[t] <= arr@[u],
        decreases len - i,
    {
        let mut min_index: usize = i;
        let mut j: usize = i + 1;
        while j < len
            invariant
                i < len,
                i <= min_index < j <= len,
                arr@.len() == len,
                forall|t: int| i <= t < j ==> arr@[min_index as int] <= arr@[t],
            decreases len - j,
        {
            if arr[j] < arr[min_index] {
                min_index = j;
            }
            j = j + 1;
        }
        if i != min_index {
            let ghost pre = arr@;
            let lo_val = arr[i];
            let hi_val = arr[min_index];
            arr[i] = hi_val;
            arr[min_index] = lo_val;
            proof {
                broadcast use vstd::multiset::group_multiset_axioms;
                let s1 = pre.update(i as int, hi_val);
                vstd::seq_lib::to_multiset_contains(pre, lo_val);
                vstd::seq_lib::to_multiset_update(pre, i as int, hi_val);
                vstd::seq_lib::to_multiset_update(s1, min_index as int, lo_val);
                assert(pre.contains(lo_val));
                assert(s1[min_index as int] == hi_val);
                assert(arr@ == s1.update(min_index as int, lo_val));
                assert(arr@.to_multiset() =~= pre.to_multiset());
            }
        }
        i = i + 1;
    }
}

/// Sorts the subrange `left..right` of `arr` by recursive halving: each half
/// is sorted and the two sorted halves are merged. Elements outside the
/// subrange keep their positions.
pub fn merge_sort(arr: Vec<i32>, left: usize, right: usize) -> (r: Vec<i32>)
    requires
        left <= right <= arr.len(),
    ensures
        r@.len() == arr@.len(),
        sorted_between(r@, left as int, right as int),
        r@.subrange(left as int, right as int).to_multiset()
            == arr@.subrange(left as int, right as int).to_multiset(),
        forall|t: int| 0 <= t < arr@.len() && !(left <= t < right) ==> r@[t] == arr@[t],
    decreases right - left,
{
    broadcast use lemma_multiset_commutative;

    if right - left > 1 {
        let mid = left + (right - left) / 2;
        let ghost a0 = arr@;
        let arr1 = merge_sort(arr, left, mid);
        let ghost a1 = arr1@;
        let arr2 = merge_sort(arr1, mid, right);
        let ghost a2 = arr2@;
        proof {
            assert(a2.subrange(left as int, mid as int) =~= a1.subrange(left as int, mid as int));
        }
        let r = merge(arr2, left, mid, right);
        proof {
            assert(a2.subrange(mid as int, right as int).to_multiset()
                == a0.subrange(mid as int, right as int).to_multiset()) by {
                assert(a1.subrange(mid as int, right as int) =~= a0.subrange(mid as int, right as int));
            }
            lemma_subrange_split(a2, left as int, mid as int, right as int);
            lemma_subrange_split(a0, left as int, mid as int, right as int);
            assert(a2.subrange(left as int, right as int).to_multiset()
                == a0.subrange(left as int, right as int).to_multiset());
        }
        r
    } else {
        arr
    }
}

/// Sorts the subrange `left..right` of `arr` by copying it out, selection
/// sorting the copy, and writing the copy back. Elements outside the
/// subrange keep their positions.
pub fn sort_range_by_selection(arr: Vec<i32>, left: usize, right: usize) -> (r: Vec<i32>)
    requires
        left <= right <= arr.len(),
    ensures
        r@.len() == arr@.len(),
        sorted_between(r@, left as int, right as int),
        r@.subrange(left as int, right as int).to_multiset()
            == arr@.subrange(left as int, right as int).to_multiset(),
        forall|t: int| 0 <= t < arr@.len() && !(left <= t < right) ==> r@[t] == arr@[t],
{
    let ghost orig = arr@;
    let mut arr = arr;
    let mut tmp: Vec<i32> = Vec::new();
    let mut idx: usize = left;
    while idx < right
        invariant
            left <= idx <= right <= arr.len(),
            tmp@ =~= arr@.subrange(left as int, idx as int),
        decreases right - idx,
    {
        tmp.push(arr[idx]);
        idx = idx + 1;
    }
    selection_sort(&mut tmp);
    let mut w: usize = left;
    while w < right
        invariant
            left <= w <= right <= arr.len(),
            arr@.len() == orig.len(),
            tmp@.len() == right - left,
            sorted(tmp@),
            tmp@.to_multiset() == orig.subrange(left as int, right as int).to_multiset(),
            forall|t: int| 0 <= t < orig.len() && !(left <= t < w) ==> arr@[t] == orig[t],
            forall|t: int| left <= t < w ==> arr@[t] == tmp@[t - left],
        decreases right - w,
    {
        arr[w] = tmp[w - left];
        w = w + 1;
    }
    proof {
        assert(arr@.subrange(left as int, right as int) =~= tmp@);
        assert forall|i: int, j: int| left <= i <= j < right implies arr@[i] <= arr@[j] by {
            assert(arr@[i] == tmp@[i - left]);
            assert(arr@[j] == tmp@[j - left]);
        }
    }
    arr
}

/// Sorts the subrange `left..right` of `arr`: subranges of at most
/// `HYBRID_THRESHOLD` elements go to selection sort, larger ones are halved
/// recursively and merged, as in merge sort. Elements outside the subrange
/// keep their positions.
pub fn hybrid_sort(arr: Vec<i32>, left: usize, right: usize) -> (r: Vec<i32>)
    requires
        left <= right <= arr.len(),
    ensures
        r@.len() == arr@.len(),
        sorted_between(r@, left as int, right as int),
        r@.subrange(left as int, right as int).to_multiset()
            == arr@.subrange(left as int, right as int).to_multiset(),
        forall|t: int| 0 <= t < arr@.len() && !(left <= t < right) ==> r@[t] == arr@[t],
    decreases right - left,
{
    broadcast use lemma_multiset_commutative;

    if right - left <= HYBRID_THRESHOLD {
        sort_range_by_selection(arr, left, right)
    } else {
        let mid = left + (right - left) / 2;
        let ghost a0 = arr@;
        let arr1 = hybrid_sort(arr, left, mid);
        let ghost a1 = arr1@;
        let arr2 = hybrid_sort(arr1, mid, right);
        let ghost a2 = arr2@;
        proof {
            assert(a2.subrange(left as int, mid as int) =~= a1.subrange(left as int, mid as int));
        }
        let r = merge(arr2, left, mid, right);
        proof {
            assert(a2.subrange(mid as int, right as int).to_multiset()
                == a0.subrange(mid as int, right as int).to_multiset()) by {
                assert(a1.subrange(mid as int, right as int) =~= a0.subrange(mid as int, right as int));
            }
            lemma_subrange_split(a2, left as int, mid as int, right as int);
            lemma_subrange_split(a0, left as int, mid as int, right as int);
            assert(a2.subrange(left as int, right as int).to_multiset()
                == a0.subrange(left as int, right as int).to_multiset());
        }
        r
    }
}

/// A sequence has exactly one sorted rearrangement: two sorted sequences
/// holding the same multiset of values are equal.
pub proof fn lemma_sorted_permutation_unique(a: Seq<i32>, b: Seq<i32>)
    requires
        sorted(a),
        sorted(b),
        a.to_multiset() == b.to_multiset(),
    ensures
        a == b,
{
    let leq = |x: i32, y: i32| x <= y;
    assert(vstd::relations::total_ordering(leq)) by {
        assert forall|x: i32| #[trigger] leq(x, x) by {}
    }
    assert(vstd::relations::sorted_by(a, leq)) by {
        assert forall|i: int, j: int| 0 <= i < j < a.len() implies #[trigger] leq(a[i], a[j]) by {
            assert(a[i] <= a[j]);
        }
    }
    assert(vstd::relations::sorted_by(b, leq)) by {
        assert forall|i: int, j: int| 0 <= i < j < b.len() implies #[trigger] leq(b[i], b[j]) by {
            assert(b[i] <= b[j]);
        }
    }
    vstd::seq_lib::lemma_sorted_unique(a, b, leq);
    assert(a =~= b);
}

/// Sorting is idempotent: sorting an already sorted permutation of a
/// sequence hands the same sequence back. `once` is the outcome of one sort
/// of `s`, `twice` the outcome of sorting `once` again.
pub proof fn lemma_sort_idempotent(s: Seq<i32>, once: Seq<i32>, twice: Seq<i32>)
    requires
        once.to_multiset() == s.to_multiset(),
        sorted(once),
        twice.to_multiset() == once.to_multiset(),
        sorted(twice),
    ensures
        twice == once,
{
    lemma_sorted_permutation_unique(twice, once);
}

/// The hybrid and merge algorithms agree on every input: any two sorted
/// permutations of the same sequence are the same, so the two algorithms'
/// outcomes coincide.
pub proof fn lemma_hybrid_matches_merge(s: Seq<i32>, merged: Seq<i32>, hybridized: Seq<i32>)
    requires
        merged.to_multiset() == s.to_multiset(),
        sorted(merged),
        hybridized.to_multiset() == s.to_multiset(),
        sorted(hybridized),
    ensures
        hybridized == merged,
{
    lemma_sorted_permutation_unique(hybridized, merged);
}

/// A sequence of length zero or one comes back from a sort unchanged.
pub proof fn lemma_short_input_unchanged(s: Seq<i32>, r: Seq<i32>)
    requires
        s.len() <= 1,
        r.to_multiset() == s.to_multiset(),
        sorted(r),
    ensures
        r == s,
{
    lemma_sorted_permutation_unique(r, s);
}

} // verus!
