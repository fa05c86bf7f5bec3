//! Sorted position lists: the posting lists of the query indexes and the
//! set operations that combine them.
use vstd::prelude::*;

verus! {

/// Strictly increasing: sorted and free of duplicates.
pub open spec fn strictly_sorted(s: Seq<usize>) -> bool {
    forall|i: int, j: int| 0 <= i < j < s.len() ==> s[i] < s[j]
}

/// Whether `x` occurs in one of the first `n` lists.
pub open spec fn in_first_lists(lists: Seq<Vec<usize>>, n: int, x: usize) -> bool {
    exists|i: int| 0 <= i < n && i < lists.len() && (#[trigger] lists[i])@.contains(x)
}

/// Whether `x` occurs in any of the lists.
pub open spec fn in_some_list(lists: Seq<Vec<usize>>, x: usize) -> bool {
    in_first_lists(lists, lists.len() as int, x)
}

/// Whether `x` occurs among the first `n` elements of `s`.
pub open spec fn in_prefix(s: Seq<usize>, n: int, x: usize) -> bool {
    exists|m: int| 0 <= m < n && m < s.len() && #[trigger] s[m] == x
}

/// Inserts `x` into a strictly sorted vector, keeping it strictly sorted; an
/// element already present is not inserted twice.
pub fn insert_sorted_unique(v: &mut Vec<usize>, x: usize)
    requires
        strictly_sorted(old(v)@),
    ensures
        strictly_sorted(final(v)@),
        forall|y: usize| final(v)@.contains(y) <==> (old(v)@.contains(y) || y == x),
{
    let n = v.len();
    let mut i: usize = 0;
    while i < n && v[i] < x
        invariant
            n == v@.len(),
            v@ == old(v)@,
            i <= n,
            strictly_sorted(v@),
            forall|j: int| 0 <= j < i ==> v@[j] < x,
        decreases n - i,
    {
        i = i + 1;
    }
    if i < n && v[i] == x {
        assert(v@[i as int] == x);
        assert(v@.contains(x));
        return;
    }
    let ghost before = v@;
    assert(before == old(v)@);
    v.insert(i, x);
    proof {
        assert(v@ == before.insert(i as int, x));
        assert forall|a: int, b: int| 0 <= a < b < v@.len() implies v@[a] < v@[b] by {
            let va = if a < i { before[a] } else if a == i { x } else { before[a - 1] };
            let vb = if b < i { before[b] } else if b == i { x } else { before[b - 1] };
            assert(v@[a] == va);
            assert(v@[b] == vb);
            if a < i && b > i {
                assert(before[a] < x);
                assert(before[i as int] >= x);
                assert(before[i as int] <= before[b - 1]);
            } else if a == i && b > i {
                assert(before[i as int] != x);
                assert(before[i as int] >= x);
                assert(before[i as int] <= before[b - 1]);
            }
        }
        assert forall|y: usize| v@.contains(y) <==> (before.contains(y) || y == x) by {
            if v@.contains(y) {
                let k = choose|k: int| 0 <= k < v@.len() && v@[k] == y;
                if k < i {
                    assert(before[k] == y);
                } else if k > i {
                    assert(before[k - 1] == y);
                }
            }
            if before.contains(y) {
                let k = choose|k: int| 0 <= k < before.len() && before[k] == y;
                if k < i {
                    assert(v@[k] == y);
                } else {
                    assert(v@[k + 1] == y);
                }
            }
            if y == x {
                assert(v@[i as int] == y);
            }
        }
        assert(forall|y: usize| v@.contains(y) <==> (old(v)@.contains(y) || y == x));
    }
}

/// The union of several position lists, sorted and without duplicates.
pub fn union_position_lists(lists: &[Vec<usize>]) -> (r: Vec<usize>)
    ensures
        strictly_sorted(r@),
        forall|x: usize| r@.contains(x) <==> in_some_list(lists@, x),
{
    let mut r: Vec<usize> = Vec::new();
    let mut i: usize = 0;
    while i < lists.len()
        invariant
            i <= lists@.len(),
            strictly_sorted(r@),
            forall|x: usize| r@.contains(x) <==> in_first_lists(lists@, i as int, x),
        decreases lists@.len() - i,
    {
        let list = &lists[i];
        let mut k: usize = 0;
        while k < list.len()
            invariant
                i < lists@.len(),
                list == lists@[i as int],
                k <= list@.len(),
                strictly_sorted(r@),
                forall|x: usize| r@.contains(x) <==> (in_first_lists(lists@, i as int, x)
                    || in_prefix(list@, k as int, x)),
            decreases list@.len() - k,
        {
            let ghost r0 = r@;
            insert_sorted_unique(&mut r, list[k]);
            proof {
                assert forall|x: usize| r@.contains(x) <==> (in_first_lists(lists@, i as int, x)
                    || in_prefix(list@, k + 1, x)) by {
                    if in_prefix(list@, k + 1, x) {
                        let m = choose|m: int| 0 <= m < k + 1 && m < list@.len() && #[trigger] list@[m] == x;
                        if m < k {
                            assert(in_prefix(list@, k as int, x));
                        }
                    }
                    if in_prefix(list@, k as int, x) {
                        let m = choose|m: int| 0 <= m < k && m < list@.len() && #[trigger] list@[m] == x;
                        assert(in_prefix(list@, k + 1, x));
                    }
                    if x == list@[k as int] {
                        assert(in_prefix(list@, k + 1, x));
                    }
                }
            }
            k = k + 1;
        }
        proof {
            assert forall|x: usize| in_first_lists(lists@, i + 1, x) <==> (in_first_lists(
                lists@,
                i as int,
                x,
            ) || in_prefix(list@, list@.len() as int, x)) by {
                if in_first_lists(lists@, i + 1, x) {
                    let m = choose|m: int|
                        0 <= m < i + 1 && m < lists@.len() && (#[trigger] lists@[m])@.contains(x);
                    if m == i {
                        let q = choose|q: int| 0 <= q < list@.len() && list@[q] == x;
                        assert(in_prefix(list@, list@.len() as int, x));
                    }
                }
                if in_prefix(list@, list@.len() as int, x) {
                    let q = choose|q: int| 0 <= q < list@.len() && #[trigger] list@[q] == x;
                    assert(lists@[i as int]@.contains(x));
                }
            }
        }
        i = i + 1;
    }
    r
}

/// Intersection of two position lists by a merge walk. For strictly sorted
/// inputs the result is their sorted intersection; for any input, every
/// element of the result occurs in both lists.
pub fn intersect_sorted_positions(left: &[usize], right: &[usize]) -> (r: Vec<usize>)
    ensures
        forall|x: usize| r@.contains(x) ==> left@.contains(x) && right@.contains(x),
        strictly_sorted(left@) && strictly_sorted(right@) ==> strictly_sorted(r@) && forall|
            x: usize,
        | r@.contains(x) <==> (left@.contains(x) && right@.contains(x)),
{
    let ghost both_sorted = strictly_sorted(left@) && strictly_sorted(right@);
    let mut r: Vec<usize> = Vec::new();
    let mut li: usize = 0;
    let mut ri: usize = 0;
    while li < left.len() && ri < right.len()
        invariant
            li <= left@.len(),
            ri <= right@.len(),
            both_sorted == (strictly_sorted(left@) && strictly_sorted(right@)),
            forall|x: usize| r@.contains(x) ==> left@.contains(x) && right@.contains(x),
            both_sorted ==> strictly_sorted(r@),
            both_sorted ==> forall|k: int, p: int|
                0 <= k < r@.len() && li <= p < left@.len() ==> r@[k] < left@[p],
            both_sorted ==> forall|k: int, q: int|
                0 <= k < r@.len() && ri <= q < right@.len() ==> r@[k] < right@[q],
            both_sorted ==> forall|p: int, q: int|
                0 <= p < left@.len() && 0 <= q < right@.len() && left@[p] == right@[q] && (p < li
                    || q < ri) ==> r@.contains(left@[p]),
        decreases left@.len() - li + right@.len() - ri,
    {
        let a = left[li];
        let b = right[ri];
        let ghost r0 = r@;
        let ghost li0 = li as int;
        let ghost ri0 = ri as int;
        if a < b {
            li = li + 1;
        } else if a > b {
            ri = ri + 1;
        } else {
            r.push(a);
            li = li + 1;
            ri = ri + 1;
        }
        proof {
            assert forall|x: usize| r@.contains(x) implies left@.contains(x) && right@.contains(
                x,
            ) by {
                if !r0.contains(x) {
                    let k = choose|k: int| 0 <= k < r@.len() && r@[k] == x;
                    assert(k == r0.len());
                    assert(left@[li0] == x);
                    assert(right@[ri0] == x);
                }
            }
            if both_sorted {
                assert forall|k: int, p: int|
                    0 <= k < r@.len() && li <= p < left@.len() implies r@[k] < left@[p] by {
                    if k < r0.len() {
                        assert(r0[k] == r@[k]);
                    } else {
                        assert(left@[li0] < left@[p]);
                    }
                }
                assert forall|k: int, q: int|
                    0 <= k < r@.len() && ri <= q < right@.len() implies r@[k] < right@[q] by {
                    if k < r0.len() {
                        assert(r0[k] == r@[k]);
                    } else {
                        assert(right@[ri0] < right@[q]);
                    }
                }
                assert forall|i: int, j: int| 0 <= i < j < r@.len() implies r@[i] < r@[j] by {
                    if j >= r0.len() {
                        assert(r0[i] < left@[li0]);
                    }
                }
                assert forall|p: int, q: int|
                    0 <= p < left@.len() && 0 <= q < right@.len() && left@[p] == right@[q] && (p
                        < li || q < ri) implies r@.contains(left@[p]) by {
                    if p < li0 || q < ri0 {
                        let k = choose|k: int| 0 <= k < r0.len() && r0[k] == left@[p];
                        assert(r@[k] == left@[p]);
                    } else if p == li0 && q >= ri0 {
                        if a < b {
                            assert(right@[ri0] <= right@[q]);
                        } else if a > b {
                            assert(q == ri0);
                        } else {
                            assert(q == ri0);
                            assert(r@[r0.len() as int] == left@[p]);
                        }
                    } else {
                        assert(q == ri0 && p >= li0);
                        if a > b {
                            assert(left@[li0] <= left@[p]);
                        } else if a < b {
                            assert(p == li0);
                        } else {
                            assert(p == li0);
                            assert(r@[r0.len() as int] == left@[p]);
                        }
                    }
                }
            }
        }
    }
    proof {
        if both_sorted {
            assert forall|x: usize| (left@.contains(x) && right@.contains(x)) implies r@.contains(
                x,
            ) by {
                let p = choose|p: int| 0 <= p < left@.len() && left@[p] == x;
                let q = choose|q: int| 0 <= q < right@.len() && right@[q] == x;
                assert(left@[p] == right@[q]);
            }
        }
    }
    r
}

/// The positions in `lo..hi` that satisfy `pred`, in increasing order.
pub open spec fn pick(pred: spec_fn(int) -> bool, lo: int, hi: int) -> Seq<usize>
    decreases hi - lo,
{
    if hi <= lo {
        Seq::empty()
    } else {
        let prev = pick(pred, lo, hi - 1);
        if pred(hi - 1) {
            prev.push((hi - 1) as usize)
        } else {
            prev
        }
    }
}

/// Extending the range past positions that fail `pred` changes nothing.
pub proof fn lemma_pick_skip(pred: spec_fn(int) -> bool, lo: int, a: int, b: int)
    requires
        lo <= a <= b,
        forall|p: int| a <= p < b ==> !#[trigger] pred(p),
    ensures
        pick(pred, lo, b) == pick(pred, lo, a),
    decreases b - a,
{
    if a < b {
        lemma_pick_skip(pred, lo, a, b - 1);
    }
}

/// Picking from `lo..hi` is picking from `lo..m` and then from `m..hi`.
pub proof fn lemma_pick_split(pred: spec_fn(int) -> bool, lo: int, m: int, hi: int)
    requires
        lo <= m <= hi,
    ensures
        pick(pred, lo, hi) == pick(pred, lo, m) + pick(pred, m, hi),
    decreases hi - m,
{
    if m == hi {
        assert(pick(pred, lo, m) + Seq::<usize>::empty() =~= pick(pred, lo, m));
    } else {
        lemma_pick_split(pred, lo, m, hi - 1);
        if pred(hi - 1) {
            assert(pick(pred, lo, m) + pick(pred, m, hi - 1).push((hi - 1) as usize) =~= (pick(pred, lo, m)
                + pick(pred, m, hi - 1)).push((hi - 1) as usize));
        }
    }
}

/// Starting later, past positions that fail `pred`, changes nothing.
pub proof fn lemma_pick_skip_front(pred: spec_fn(int) -> bool, lo: int, s: int, hi: int)
    requires
        lo <= s <= hi,
        forall|p: int| lo <= p < s ==> !#[trigger] pred(p),
    ensures
        pick(pred, lo, hi) == pick(pred, s, hi),
{
    lemma_pick_split(pred, lo, s, hi);
    lemma_pick_skip(pred, lo, lo, s);
    assert(Seq::<usize>::empty() + pick(pred, s, hi) =~= pick(pred, s, hi));
}

/// The picked positions lie in the range and increase.
pub proof fn lemma_pick_bounds(pred: spec_fn(int) -> bool, lo: int, hi: int)
    requires
        0 <= lo,
        hi <= usize::MAX,
    ensures
        forall|j: int| 0 <= j < pick(pred, lo, hi).len() ==> lo <= #[trigger] pick(pred, lo, hi)[j] < hi,
        strictly_sorted(pick(pred, lo, hi)),
    decreases hi - lo,
{
    if hi > lo {
        lemma_pick_bounds(pred, lo, hi - 1);
        let prev = pick(pred, lo, hi - 1);
        let cur = pick(pred, lo, hi);
        assert forall|j: int| 0 <= j < cur.len() implies lo <= #[trigger] cur[j] < hi by {
            if j < prev.len() {
                assert(cur[j] == prev[j]);
            }
        }
        assert forall|i: int, j: int| 0 <= i < j < cur.len() implies cur[i] < cur[j] by {
            assert(cur[i] == prev[i]);
            if j < prev.len() {
                assert(cur[j] == prev[j]);
            } else {
                assert(prev[i] < hi - 1);
            }
        }
    }
}

/// Every picked position satisfies `pred`.
pub proof fn lemma_pick_members(pred: spec_fn(int) -> bool, lo: int, hi: int)
    requires
        0 <= lo,
        hi <= usize::MAX,
    ensures
        forall|j: int| 0 <= j < pick(pred, lo, hi).len() ==> pred(#[trigger] pick(pred, lo, hi)[j] as int),
    decreases hi - lo,
{
    if hi > lo {
        lemma_pick_members(pred, lo, hi - 1);
        let prev = pick(pred, lo, hi - 1);
        let cur = pick(pred, lo, hi);
        assert forall|j: int| 0 <= j < cur.len() implies pred(#[trigger] cur[j] as int) by {
            if j < prev.len() {
                assert(cur[j] == prev[j]);
            }
        }
    }
}

} // verus!
