//! The algorithms that divide the array: quicksort and merge sort.

use vstd::prelude::*;
use crate::order::{
    Snapshot, sorted_between, rearranged, same_outside, swapped, lemma_upper_bound_kept,
    lemma_lower_bound_kept, lemma_whole_rearranged,
};
use crate::sorters::SortableArray;

verus! {

/// Where the left pointer stops: the first position from `i` up to `j`
/// whose value is above `pivot`, and `j + 1` where there is none.
pub open spec fn scan_up(s: Seq<u32>, i: int, j: int, pivot: u32) -> int
    decreases j + 1 - i,
{
    if i <= j && s[i] <= pivot {
        scan_up(s, i + 1, j, pivot)
    } else {
        i
    }
}

/// Where the right pointer stops: the last position from `j` down to `i`
/// whose value is at most `pivot`, and `i - 1` where there is none.
pub open spec fn scan_down(s: Seq<u32>, i: int, j: int, pivot: u32) -> int
    decreases j + 1 - i,
{
    if i <= j && s[j] > pivot {
        scan_down(s, i, j - 1, pivot)
    } else {
        j
    }
}

/// What the two pointers, starting at `i` and `j`, make of `s`, and where
/// the right one ends: both scan, and as long as the left one stops before
/// the right one the two values are exchanged and both scan on.
pub open spec fn hoare(s: Seq<u32>, i: int, j: int, pivot: u32) -> (Seq<u32>, int)
    decreases 2 * (j - i) + (if s[i] > pivot { 1int } else { 0int }),
{
    let i2 = scan_up(s, i, j, pivot);
    let j2 = scan_down(s, i2, j, pivot);
    if 0 <= i <= i2 && i2 < j2 && j2 <= j < s.len() && s[i2] > pivot && s[j2] <= pivot {
        hoare(swapped(s, i2, j2), i2, j2, pivot)
    } else {
        (s, j2)
    }
}

/// What `partition` makes of `s` between `low` and `high`, and the place
/// of the pivot.
pub open spec fn partitioned(s: Seq<u32>, low: int, high: int) -> (Seq<u32>, int) {
    let split = hoare(s, low + 1, high, s[low]);
    (swapped(split.0, low, split.1), split.1)
}

/// What quicksort makes of `s` between `low` and `high`, and the steps it
/// records: the split, then those of the left part, then those of the
/// right part.
pub open spec fn quicksorted(s: Seq<u32>, low: int, high: int) -> (Seq<u32>, Seq<Snapshot>)
    decreases (if high > low { high - low } else { 0 }),
{
    if high <= low {
        (s, Seq::empty())
    } else {
        let split = partitioned(s, low, high);
        let p = split.1;
        let step = Snapshot {
            values: split.0,
            highlight: seq![s[low], #[verifier::truncate] (p as u32)],
        };
        if p < low || p > high {
            (split.0, seq![step])
        } else {
            let left = if p > 0 {
                quicksorted(split.0, low, p - 1)
            } else {
                (split.0, Seq::empty())
            };
            let right = quicksorted(left.0, p + 1, high);
            (right.0, (seq![step] + left.1) + right.1)
        }
    }
}

/// How many values a merge of `left` and `right` has taken from `left`
/// after `count` writes: each write takes the front value of `left` unless
/// `left` is used up or the front value of `right` is smaller.
pub open spec fn taken(left: Seq<u32>, right: Seq<u32>, count: int) -> int
    decreases count,
{
    if count <= 0 {
        0
    } else {
        let i = taken(left, right, count - 1);
        let j = count - 1 - i;
        if i < left.len() && (j >= right.len() || left[i] <= right[j]) {
            i + 1
        } else {
            i
        }
    }
}

/// The value that the write after the first `count` writes.
pub open spec fn written(left: Seq<u32>, right: Seq<u32>, count: int) -> u32 {
    let i = taken(left, right, count);
    let j = count - i;
    if i < left.len() && (j >= right.len() || left[i] <= right[j]) {
        left[i]
    } else {
        right[j]
    }
}

/// `s` after the first `count` writes of merging its ranges `l..=m` and
/// `m+1..=r`.
pub open spec fn merging(s: Seq<u32>, l: int, m: int, r: int, count: int) -> Seq<u32>
    decreases count,
{
    if count <= 0 {
        s
    } else {
        merging(s, l, m, r, count - 1).update(
            l + count - 1,
            written(s.subrange(l, m + 1), s.subrange(m + 1, r + 1), count - 1),
        )
    }
}

/// The steps of those writes: the array after each, with the value written.
pub open spec fn merge_steps(s: Seq<u32>, l: int, m: int, r: int, count: int) -> Seq<Snapshot> {
    Seq::new(
        (if count <= 0 { 0 } else { count }) as nat,
        |t: int|
            Snapshot {
                values: merging(s, l, m, r, t + 1),
                highlight: seq![written(s.subrange(l, m + 1), s.subrange(m + 1, r + 1), t)],
            },
    )
}

/// What merge sort makes of `s` between `l` and `r`, and the steps it
/// records: those of the left half, those of the right half, then those of
/// the merge.
pub open spec fn merge_sorted(s: Seq<u32>, l: int, r: int) -> (Seq<u32>, Seq<Snapshot>)
    decreases (if r > l { r - l } else { 0 }),
{
    if r <= l {
        (s, Seq::empty())
    } else {
        let m = l + (r - l) / 2;
        let a = merge_sorted(s, l, m);
        let b = merge_sorted(a.0, m + 1, r);
        (merging(b.0, l, m, r, r - l + 1), (a.1 + b.1) + merge_steps(b.0, l, m, r, r - l + 1))
    }
}

impl SortableArray {
    /// What sorting the positions `lo..=hi` leaves: that range ascending, the
    /// rest of the array untouched, the values kept, the trace continued.
    pub open spec fn sorts_range(&self, before: &Self, lo: int, hi: int) -> bool {
        &&& sorted_between(self.arr@, lo, hi + 1)
        &&& same_outside(self.arr@, before.arr@, lo, hi + 1)
        &&& rearranged(self.arr@, before.arr@)
        &&& self.continues(before)
        &&& self.trace().len() > before.trace().len()
    }

    /// Splits the positions `low..=high` around the value at `low`, the pivot,
    /// with one pointer from each end: the left one passes values up to the
    /// pivot, the right one values above it, and where both stop the two
    /// values are exchanged. The pivot then moves to the place where the
    /// pointers met, which is returned. One step is recorded, with the pivot
    /// and that place.
    #[verifier::rlimit(40)]
    pub fn partition(&mut self, low: usize, high: usize) -> (p: usize)
        requires
            low <= high < old(self).arr.len(),
        ensures
            low <= p <= high,
            (final(self).arr@, p as int) == partitioned(old(self).arr@, low as int, high as int),
            final(self).arr@[p as int] == old(self).arr@[low as int],
            forall|k: int| low <= k < p ==> final(self).arr@[k] <= final(self).arr@[p as int],
            forall|k: int| p < k <= high ==> final(self).arr@[k] > final(self).arr@[p as int],
            same_outside(final(self).arr@, old(self).arr@, low as int, high + 1),
            rearranged(final(self).arr@, old(self).arr@),
            final(self).trace() == old(self).trace().push(
                Snapshot {
                    values: final(self).arr@,
                    highlight: seq![old(self).arr@[low as int], #[verifier::truncate] (p as u32)],
                },
            ),
    {
        let pivot = self.arr[low];
        let mut i: usize = low + 1;
        let mut j: usize = high;
        let ghost goal = hoare(self.arr@, low + 1, high as int, pivot);
        loop
            invariant_except_break
                i <= j || low == high,
                hoare(self.arr@, i as int, j as int, pivot) == goal,
            invariant
                goal == hoare(old(self).arr@, low + 1, high as int, pivot),
                low <= high < self.arr.len(),
                low < i <= j + 1,
                j <= high,
                self.arr@[low as int] == pivot,
                pivot == old(self).arr@[low as int],
                forall|k: int| low < k < i ==> self.arr@[k] <= pivot,
                forall|k: int| j < k <= high ==> self.arr@[k] > pivot,
                same_outside(self.arr@, old(self).arr@, low as int, high + 1),
                rearranged(self.arr@, old(self).arr@),
                self.trace() == old(self).trace(),
            ensures
                i == j + 1,
                goal == (self.arr@, j as int),
            decreases 2 * (j - i) + (if self.arr@[i as int] > pivot { 1int } else { 0int }),
        {
            let ghost i0 = i as int;
            let ghost j0 = j as int;
            while i <= j && self.arr[i] <= pivot
                invariant
                    i0 <= i,
                    scan_up(self.arr@, i as int, j as int, pivot) == scan_up(self.arr@, i0, j as int, pivot),
                    low <= high < self.arr.len(),
                    low < i <= j + 1,
                    j <= high,
                    forall|k: int| low < k < i ==> self.arr@[k] <= pivot,
                decreases j + 1 - i,
            {
                i += 1;
            }
            while i <= j && self.arr[j] > pivot
                invariant
                    j <= j0,
                    scan_down(self.arr@, i as int, j as int, pivot) == scan_down(
                        self.arr@,
                        i as int,
                        j0,
                        pivot,
                    ),
                    low <= high < self.arr.len(),
                    low < i <= j + 1,
                    j <= high,
                    forall|k: int| j < k <= high ==> self.arr@[k] > pivot,
                decreases j,
            {
                j -= 1;
            }
            if i >= j {
                break ;
            }
            self.swap(i, j);
        }
        self.swap(low, j);
        self.record(vec![pivot, #[verifier::truncate] (j as u32)]);
        j
    }

    /// Quicksort on the positions `low..=high`, with the first value of each
    /// range as its pivot. Each split is recorded as `partition` says.
    #[verifier::rlimit(100)]
    pub fn quicksort(&mut self, low: usize, high: usize)
        requires
            low < high ==> high < old(self).arr.len(),
        ensures
            low < high ==> final(self).sorts_range(old(self), low as int, high as int),
            low >= high ==> *final(self) == *old(self),
            final(self).arr@ == quicksorted(old(self).arr@, low as int, high as int).0,
            final(self).trace() == old(self).trace() + quicksorted(
                old(self).arr@,
                low as int,
                high as int,
            ).1,
        decreases (if high > low { high - low } else { 0 }),
    {
        proof {
            if high <= low {
                assert(self.trace() + Seq::<Snapshot>::empty() =~= self.trace());
            }
        }
        if high > low {
            let pivot_index = self.partition(low, high);
            let ghost split = *self;
            let ghost pivot = self.arr@[pivot_index as int] as int;
            if pivot_index > 0 {
                self.quicksort(low, pivot_index - 1);
            }
            let ghost left = *self;
            proof {
                if low < pivot_index - 1 {
                    lemma_upper_bound_kept(split.arr@, left.arr@, low as int, pivot_index as int, pivot);
                }
            }
            self.quicksort(pivot_index + 1, high);
            proof {
                if pivot_index + 1 < high {
                    lemma_lower_bound_kept(left.arr@, self.arr@, pivot_index + 1, high + 1, pivot + 1);
                }
                let step = Snapshot {
                    values: split.arr@,
                    highlight: seq![
                        old(self).arr@[low as int],
                        #[verifier::truncate] (pivot_index as u32),
                    ],
                };
                let first = if pivot_index > 0 {
                    quicksorted(split.arr@, low as int, pivot_index - 1).1
                } else {
                    Seq::<Snapshot>::empty()
                };
                let second = quicksorted(left.arr@, pivot_index + 1, high as int).1;
                let t = old(self).trace();
                assert(split.trace() == t.push(step));
                assert(left.trace() =~= split.trace() + first);
                assert(((t.push(step)) + first) + second =~= t + ((seq![step] + first) + second));
            }
        }
    }
    /// A copy of the values at the positions `lo..hi`.
    fn copy_range(&self, lo: usize, hi: usize) -> (out: Vec<u32>)
        requires
            lo <= hi <= self.arr.len(),
        ensures
            out@ == self.arr@.subrange(lo as int, hi as int),
    {
        let mut out: Vec<u32> = Vec::new();
        let mut k: usize = lo;
        while k < hi
            invariant
                lo <= k <= hi <= self.arr.len(),
                out@ == self.arr@.subrange(lo as int, k as int),
            decreases hi - k,
        {
            out.push(self.arr[k]);
            k += 1;
            assert(out@ =~= self.arr@.subrange(lo as int, k as int));
        }
        out
    }

    /// Merges the neighbouring ranges `l..=m` and `m+1..=r` into `l..=r`:
    /// each position in turn takes the smaller of the two front values, the
    /// left one where they are equal, and a range that is used up counts as
    /// holding only larger values. Every write is recorded, with the value
    /// written.
    #[verifier::rlimit(40)]
    pub fn merge(&mut self, l: usize, m: usize, r: usize)
        requires
            l <= m <= r < old(self).arr.len(),
        ensures
            same_outside(final(self).arr@, old(self).arr@, l as int, r + 1),
            rearranged(final(self).arr@, old(self).arr@),
            final(self).continues(old(self)),
            final(self).trace().len() == old(self).trace().len() + (r - l + 1),
            final(self).arr@ == merging(old(self).arr@, l as int, m as int, r as int, r - l + 1),
            final(self).trace() == old(self).trace() + merge_steps(
                old(self).arr@,
                l as int,
                m as int,
                r as int,
                r - l + 1,
            ),
            sorted_between(old(self).arr@, l as int, m + 1) && sorted_between(
                old(self).arr@,
                m + 1,
                r + 1,
            ) ==> sorted_between(final(self).arr@, l as int, r + 1),
    {
        let left = self.copy_range(l, m + 1);
        let right = self.copy_range(m + 1, r + 1);
        let ghost halves_sorted = sorted_between(old(self).arr@, l as int, m + 1) && sorted_between(
            old(self).arr@,
            m + 1,
            r + 1,
        );
        let mut i: usize = 0;
        let mut j: usize = 0;
        let mut k: usize = l;
        proof {
            broadcast use vstd::seq_lib::group_to_multiset_ensures;
            assert(self.arr@.subrange(l as int, l as int) =~= Seq::<u32>::empty());
            assert(left@.subrange(0, 0) =~= Seq::<u32>::empty());
            assert(right@.subrange(0, 0) =~= Seq::<u32>::empty());
            assert(Seq::<u32>::empty().to_multiset() =~= Seq::<u32>::empty().to_multiset().add(
                Seq::<u32>::empty().to_multiset(),
            ));
            if halves_sorted {
                assert forall|a: int, b: int| 0 <= a <= b < left@.len() implies left@[a] <= left@[b] by {
                    assert(left@[a] == old(self).arr@[l + a]);
                    assert(left@[b] == old(self).arr@[l + b]);
                }
                assert forall|a: int, b: int| 0 <= a <= b < right@.len() implies right@[a] <= right@[b] by {
                    assert(right@[a] == old(self).arr@[m + 1 + a]);
                    assert(right@[b] == old(self).arr@[m + 1 + b]);
                }
            }
        }
        proof {
            assert(self.trace() + merge_steps(self.arr@, l as int, m as int, r as int, 0)
                =~= self.trace());
        }
        while k <= r
            invariant
                i == taken(left@, right@, k - l),
                self.arr@ == merging(old(self).arr@, l as int, m as int, r as int, k - l),
                self.trace() == old(self).trace() + merge_steps(
                    old(self).arr@,
                    l as int,
                    m as int,
                    r as int,
                    k - l,
                ),
                halves_sorted ==> sorted_between(left@, 0, left@.len() as int),
                halves_sorted ==> sorted_between(right@, 0, right@.len() as int),
                l <= m <= r < self.arr.len(),
                self.arr.len() == old(self).arr.len(),
                l <= k <= r + 1,
                i + j == k - l,
                i <= left.len(),
                j <= right.len(),
                left@ == old(self).arr@.subrange(l as int, m + 1),
                right@ == old(self).arr@.subrange(m + 1, r + 1),
                same_outside(self.arr@, old(self).arr@, l as int, r + 1),
                self.arr@.subrange(l as int, k as int).to_multiset() == left@.subrange(
                    0,
                    i as int,
                ).to_multiset().add(right@.subrange(0, j as int).to_multiset()),
                halves_sorted ==> sorted_between(self.arr@, l as int, k as int),
                halves_sorted ==> forall|a: int, b: int|
                    l <= a < k && i <= b < left.len() ==> self.arr@[a] <= left@[b],
                halves_sorted ==> forall|a: int, b: int|
                    l <= a < k && j <= b < right.len() ==> self.arr@[a] <= right@[b],
                self.continues(old(self)),
                self.trace().len() == old(self).trace().len() + (k - l),
            decreases r + 1 - k,
        {
            let ghost prev = self.arr@;
            if i < left.len() && (j >= right.len() || left[i] <= right[j]) {
                self.arr[k] = left[i];
                proof {
                    assert(left@.subrange(0, i + 1) =~= left@.subrange(0, i as int).push(left@[i as int]));
                    assert(self.arr@.subrange(l as int, k + 1) =~= prev.subrange(l as int, k as int).push(
                        left@[i as int],
                    ));
                }
                i += 1;
            } else {
                self.arr[k] = right[j];
                proof {
                    assert(right@.subrange(0, j + 1) =~= right@.subrange(0, j as int).push(
                        right@[j as int],
                    ));
                    assert(self.arr@.subrange(l as int, k + 1) =~= prev.subrange(l as int, k as int).push(
                        right@[j as int],
                    ));
                }
                j += 1;
            }
            proof {
                broadcast use vstd::seq_lib::group_to_multiset_ensures;
                assert(self.arr@.subrange(l as int, k + 1).to_multiset() =~= left@.subrange(
                    0,
                    i as int,
                ).to_multiset().add(right@.subrange(0, j as int).to_multiset()));
            }
            let index = vec![self.arr[k]];
            assert(index@ =~= seq![self.arr@[k as int]]);
            self.record(index);
            k += 1;
            proof {
                let step = Snapshot { values: self.arr@, highlight: index@ };
                let before = merge_steps(old(self).arr@, l as int, m as int, r as int, k - 1 - l);
                assert(merge_steps(old(self).arr@, l as int, m as int, r as int, k - l)
                    =~= before.push(step));
                assert((old(self).trace() + before).push(step) =~= old(self).trace() + before.push(
                    step,
                ));
            }
        }
        proof {
            let whole = old(self).arr@.subrange(l as int, r + 1);
            assert(left@.subrange(0, i as int) =~= left@);
            assert(right@.subrange(0, j as int) =~= right@);
            assert(whole =~= left@ + right@);
            vstd::seq_lib::lemma_multiset_commutative(left@, right@);
            lemma_whole_rearranged(old(self).arr@, self.arr@, l as int, r + 1);
        }
    }

    /// Merge sort on the positions `l..=r`: sorts each half, then merges them
    /// as `merge` says.
    #[verifier::rlimit(40)]
    pub fn merge_sort_rec(&mut self, l: usize, r: usize)
        requires
            l < r ==> r < old(self).arr.len(),
        ensures
            l < r ==> final(self).sorts_range(old(self), l as int, r as int),
            l >= r ==> *final(self) == *old(self),
            final(self).arr@ == merge_sorted(old(self).arr@, l as int, r as int).0,
            final(self).trace() == old(self).trace() + merge_sorted(
                old(self).arr@,
                l as int,
                r as int,
            ).1,
        decreases (if r > l { r - l } else { 0 }),
    {
        proof {
            if r <= l {
                assert(self.trace() + Seq::<Snapshot>::empty() =~= self.trace());
            }
        }
        if l < r {
            let m = l + (r - l) / 2;
            self.merge_sort_rec(l, m);
            let ghost first = *self;
            self.merge_sort_rec(m + 1, r);
            let ghost second = *self;
            self.merge(l, m, r);
            proof {
                let t = old(self).trace();
                let a = merge_sorted(old(self).arr@, l as int, m as int).1;
                let b = merge_sorted(first.arr@, m + 1, r as int).1;
                let c = merge_steps(second.arr@, l as int, m as int, r as int, r - l + 1);
                assert(((t + a) + b) + c =~= t + ((a + b) + c));
            }
        }
    }
}

} // verus!
