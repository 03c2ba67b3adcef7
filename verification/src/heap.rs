//! Heap sort.

use vstd::prelude::*;
use crate::order::{
    Snapshot, sorted_between, rearranged, same_outside, swapped, lemma_upper_bound_kept,
};
use crate::sorters::SortableArray;

verus! {

/// Among the first `len` values of `s`, the one at `k` is no smaller than its
/// children, which stand at `2k+1` and `2k+2`.
pub open spec fn heap_node(s: Seq<u32>, len: int, k: int) -> bool {
    &&& 2 * k + 1 < len ==> s[2 * k + 1] <= s[k]
    &&& 2 * k + 2 < len ==> s[2 * k + 2] <= s[k]
}

/// Every position from `lo` up to `len` is a `heap_node`.
pub open spec fn heap_from(s: Seq<u32>, lo: int, len: int) -> bool {
    forall|k: int| lo <= k < len ==> heap_node(s, len, k)
}

/// Every position from `lo` up to `len` is a `heap_node`, but perhaps `x`;
/// and where the parent of `x` is among them, it is no smaller than the
/// children of `x`.
pub open spec fn heap_but(s: Seq<u32>, lo: int, len: int, x: int) -> bool {
    &&& forall|k: int| lo <= k < len && k != x ==> heap_node(s, len, k)
    &&& x > 0 && lo <= (x - 1) / 2 && 2 * x + 1 < len ==> s[2 * x + 1] <= s[(x - 1) / 2]
    &&& x > 0 && lo <= (x - 1) / 2 && 2 * x + 2 < len ==> s[2 * x + 2] <= s[(x - 1) / 2]
}

/// In a heap the first value is the largest.
pub proof fn lemma_heap_root_largest(s: Seq<u32>, len: int, k: int)
    requires
        heap_from(s, 0, len),
        0 <= k < len <= s.len(),
    ensures
        s[k] <= s[0],
    decreases k,
{
    if k > 0 {
        let p = (k - 1) / 2;
        assert(heap_node(s, len, p));
        assert(k == 2 * p + 1 || k == 2 * p + 2);
        lemma_heap_root_largest(s, len, p);
    }
}

/// The position of the largest of the value at `i` and its children among
/// the first `len` values of `s`: `i` itself unless a child is larger, and
/// the left child unless the right one is larger than that.
pub open spec fn largest_of(s: Seq<u32>, len: int, i: int) -> int {
    let first = if 2 * i + 1 < len && s[2 * i + 1] > s[i] {
        2 * i + 1
    } else {
        i
    };
    if 2 * i + 2 < len && s[2 * i + 2] > s[first] {
        2 * i + 2
    } else {
        first
    }
}

/// What sifting the value at `i` down makes of the first `len` values of
/// `s`, and the steps it records: those of the positions below, then one
/// for `i`, with `i` and the child that it changed place with.
pub open spec fn sifted(s: Seq<u32>, len: int, i: int) -> (Seq<u32>, Seq<Snapshot>)
    decreases len - i,
{
    let child = largest_of(s, len, i);
    if 0 <= i < child < len {
        let below = sifted(swapped(s, i, child), len, child);
        (
            below.0,
            below.1.push(
                Snapshot {
                    values: below.0,
                    highlight: seq![
                        #[verifier::truncate] (i as u32),
                        #[verifier::truncate] (child as u32),
                    ],
                },
            ),
        )
    } else {
        (
            s,
            seq![
                Snapshot {
                    values: s,
                    highlight: seq![#[verifier::truncate] (i as u32), #[verifier::truncate] (i as u32)],
                },
            ],
        )
    }
}

/// What making a heap of `s` does from the position `i - 1` back to the
/// first, and the steps it records.
pub open spec fn heaped(s: Seq<u32>, i: int) -> (Seq<u32>, Seq<Snapshot>)
    decreases i,
{
    if i <= 0 {
        (s, Seq::empty())
    } else {
        let here = sifted(s, s.len() as int, i - 1);
        (heaped(here.0, i - 1).0, here.1 + heaped(here.0, i - 1).1)
    }
}

/// What taking the heap of the first `i` values of `s` apart does, and the
/// steps it records: the first value changes place with the last of the
/// heap, the new first value is sifted down in the heap without that last
/// one, and so on until one value is left.
pub open spec fn unheaped(s: Seq<u32>, i: int) -> (Seq<u32>, Seq<Snapshot>)
    decreases i,
{
    if i <= 1 {
        (s, Seq::empty())
    } else {
        let here = sifted(swapped(s, 0, i - 1), i - 1, 0);
        (unheaped(here.0, i - 1).0, here.1 + unheaped(here.0, i - 1).1)
    }
}

/// What heap sort makes of `s`, and the steps it records.
pub open spec fn heap_sorted(s: Seq<u32>) -> (Seq<u32>, Seq<Snapshot>) {
    let heap = heaped(s, s.len() as int / 2);
    let done = unheaped(heap.0, s.len() as int);
    (done.0, heap.1 + done.1)
}

impl SortableArray {
    /// Sifts the value at `i` down within the first `len` values: while a
    /// child is larger, the value changes place with its largest child (the
    /// left one of two equal). Each position visited is recorded on the way
    /// back, deepest first, with the position and the child it changed place
    /// with (itself at the last).
    #[verifier::rlimit(40)]
    pub fn heapify(&mut self, len: usize, i: usize)
        requires
            len <= old(self).arr.len(),
        ensures
            same_outside(final(self).arr@, old(self).arr@, i as int, len as int),
            rearranged(final(self).arr@, old(self).arr@),
            final(self).continues(old(self)),
            final(self).trace().len() > old(self).trace().len(),
            final(self).arr@ == sifted(old(self).arr@, len as int, i as int).0,
            final(self).trace() == old(self).trace() + sifted(old(self).arr@, len as int, i as int).1,
            forall|lo: int|
                0 <= lo <= i && #[trigger] heap_but(old(self).arr@, lo, len as int, i as int)
                    ==> heap_from(final(self).arr@, lo, len as int),
        decreases (if i < len { len - i } else { 0 }),
    {
        let mut largest: usize = i;
        if i < len / 2 {
            let left: usize = 2 * i + 1;
            let right: usize = left + 1;
            if self.arr[left] > self.arr[largest] {
                largest = left;
            }
            if right < len && self.arr[right] > self.arr[largest] {
                largest = right;
            }
        }
        if largest != i {
            self.swap(i, largest);
            let ghost mid = self.arr@;
            self.heapify(len, largest);
            proof {
                assert forall|lo: int|
                    0 <= lo <= i && #[trigger] heap_but(
                        old(self).arr@,
                        lo,
                        len as int,
                        i as int,
                    ) implies heap_from(self.arr@, lo, len as int) by {
                    let before = old(self).arr@;
                    assert(heap_node(before, len as int, largest as int));
                    assert forall|k: int| lo <= k < len && k != largest implies heap_node(
                        mid,
                        len as int,
                        k,
                    ) by {
                        if k != i {
                            assert(heap_node(before, len as int, k));
                        }
                    }
                    assert(heap_but(mid, lo, len as int, largest as int));
                }
            }
        }
        let ghost seen = self.trace();
        let index = vec![#[verifier::truncate] (i as u32), #[verifier::truncate] (largest as u32)];
        assert(index@ =~= seq![#[verifier::truncate] (i as u32), #[verifier::truncate] (largest as u32)]);
        self.record(index);
        proof {
            let step = Snapshot { values: self.arr@, highlight: index@ };
            assert(largest == largest_of(old(self).arr@, len as int, i as int));
            if largest != i {
                let below = sifted(swapped(old(self).arr@, i as int, largest as int), len as int, largest as int);
                assert(seen == old(self).trace() + below.1);
                assert((old(self).trace() + below.1).push(step) =~= old(self).trace() + below.1.push(
                    step,
                ));
            } else {
                assert(old(self).trace().push(step) =~= old(self).trace() + seq![step]);
            }
        }
    }

    /// Heap sort: makes the array a heap, from the last parent back to the
    /// first position, then again and again moves the first value behind the
    /// heap and sifts the new first value down. The steps are those that
    /// `heapify` records.
    #[verifier::rlimit(40)]
    pub fn heap_sort(&mut self)
        ensures
            final(self).sorts(old(self)),
            final(self).arr@ == heap_sorted(old(self).arr@).0,
            final(self).trace() == old(self).trace() + heap_sorted(old(self).arr@).1,
    {
        let len = self.arr.len();
        let ghost base = self.trace().len();
        let ghost heap = heaped(self.arr@, len as int / 2);
        let mut i: usize = len / 2;
        while i > 0
            invariant
                heap.0 == heaped(self.arr@, i as int).0,
                old(self).trace() + heap.1 == self.trace() + heaped(self.arr@, i as int).1,
                len == self.arr.len(),
                i <= len / 2,
                base == old(self).trace().len(),
                heap_from(self.arr@, i as int, len as int),
                rearranged(self.arr@, old(self).arr@),
                self.continues(old(self)),
                i < len / 2 ==> self.trace().len() > base,
            decreases i,
        {
            i -= 1;
            proof {
                let s = self.arr@;
                assert forall|k: int| i < k < len implies heap_node(s, len as int, k) by {
                    assert(heap_node(s, len as int, k));
                }
                assert(heap_but(s, i as int, len as int, i as int));
            }
            let ghost t0 = self.trace();
            let ghost a0 = self.arr@;
            self.heapify(len, i);
            proof {
                let here = sifted(a0, len as int, i as int).1;
                let rest = heaped(self.arr@, i as int).1;
                assert((t0 + here) + rest =~= t0 + (here + rest));
            }
        }
        proof {
            assert(self.trace() + Seq::<Snapshot>::empty() =~= self.trace());
        }
        let ghost done = unheaped(self.arr@, len as int);
        let ghost mid_trace = self.trace();
        let mut i: usize = len;
        while i > 1
            invariant
                mid_trace == old(self).trace() + heap.1,
                heap == heaped(old(self).arr@, len as int / 2),
                done == unheaped(heap.0, len as int),
                done.0 == unheaped(self.arr@, i as int).0,
                mid_trace + done.1 == self.trace() + unheaped(self.arr@, i as int).1,
                len == self.arr.len(),
                i <= len,
                len >= 1 ==> i >= 1,
                base == old(self).trace().len(),
                heap_from(self.arr@, 0, i as int),
                sorted_between(self.arr@, i as int, len as int),
                forall|a: int, b: int| 0 <= a < i <= b < len ==> self.arr@[a] <= self.arr@[b],
                rearranged(self.arr@, old(self).arr@),
                self.continues(old(self)),
                len >= 2 ==> self.trace().len() > base,
            decreases i,
        {
            proof {
                let values = self.arr@;
                assert forall|k: int| 0 <= k < i implies #[trigger] values[k] <= values[0] by {
                    lemma_heap_root_largest(values, i as int, k);
                }
            }
            let ghost top = self.arr@;
            i -= 1;
            self.swap(0, i);
            let ghost mid = self.arr@;
            proof {
                assert forall|k: int| 0 < k < i implies heap_node(mid, i as int, k) by {
                    assert(heap_node(top, i + 1, k));
                }
                assert(heap_but(mid, 0, i as int, 0));
            }
            let ghost t0 = self.trace();
            self.heapify(i, 0);
            proof {
                lemma_upper_bound_kept(mid, self.arr@, 0, i as int, mid[i as int] as int);
                let here = sifted(mid, i as int, 0).1;
                let rest = unheaped(self.arr@, i as int).1;
                assert((t0 + here) + rest =~= t0 + (here + rest));
            }
        }
        proof {
            assert(self.trace() + Seq::<Snapshot>::empty() =~= self.trace());
            assert((old(self).trace() + heap.1) + done.1 =~= old(self).trace() + (heap.1 + done.1));
        }
    }
}

} // verus!
