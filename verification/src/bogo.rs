//! Bogo sort: shuffle until a scan finds the array ascending.

use vstd::prelude::*;
use rand::seq::SliceRandom;
use crate::order::{Snapshot, sorted, rearranged};
use crate::sorters::SortableArray;

verus! {

/// How many values a scan for order inspects in `s` from position `i` on: it
/// stops behind the first value that is smaller than the one before it.
pub open spec fn scanned(s: Seq<u32>, i: int) -> nat
    decreases s.len() - i,
{
    if i < 1 || i >= s.len() {
        0
    } else if s[i] < s[i - 1] {
        1
    } else {
        1 + scanned(s, i + 1)
    }
}

/// `s` is ascending before position `i`.
pub open spec fn sorted_prefix(s: Seq<u32>, i: int) -> bool {
    forall|a: int| 1 <= a < i && a < s.len() ==> s[a - 1] <= #[trigger] s[a]
}

/// A sequence whose every value is at least the one before it is ascending.
pub proof fn lemma_neighbours_sorted(s: Seq<u32>, a: int, b: int)
    requires
        sorted_prefix(s, s.len() as int),
        0 <= a <= b < s.len(),
    ensures
        s[a] <= s[b],
    decreases b - a,
{
    if a < b {
        lemma_neighbours_sorted(s, a, b - 1);
    }
}

/// Brings the values of `arr` into a random order, with
/// `rand::seq::SliceRandom::shuffle` and the generator of
/// `rand::thread_rng`. The call exchanges values of the slice with each
/// other and does nothing else to it, so the values are the old ones in
/// some order; which order is left open.
#[verifier::external_body]
fn shuffle(arr: &mut Vec<u32>)
    ensures
        rearranged(final(arr)@, old(arr)@),
{
    arr.shuffle(&mut rand::thread_rng());
}

impl SortableArray {
    /// Scans the array for order, from the second value on, and stops at the
    /// first value that is smaller than the one before it. Each value
    /// inspected is recorded, before it is compared, with the value itself.
    pub fn is_sorted(&mut self) -> (ascending: bool)
        ensures
            ascending == sorted(old(self).arr@),
            final(self).arr@ == old(self).arr@,
            final(self).trace().len() == old(self).trace().len() + scanned(old(self).arr@, 1),
            final(self).continues(old(self)),
            forall|k: int|
                old(self).trace().len() <= k < final(self).trace().len() ==> {
                    &&& (#[trigger] final(self).trace()[k]).values == old(self).arr@
                    &&& final(self).trace()[k].highlight == seq![
                        old(self).arr@[k - old(self).trace().len() + 1],
                    ]
                },
    {
        let n = self.arr.len();
        let ghost base = self.trace().len() as int;
        let ghost s = self.arr@;
        let mut i: usize = 1;
        while i < n
            invariant
                n == self.arr.len(),
                1 <= i,
                i <= n || n == 0,
                s == old(self).arr@,
                self.arr@ == s,
                base == old(self).trace().len(),
                sorted_prefix(s, i as int),
                self.trace().len() == base + i - 1,
                scanned(s, 1) == i - 1 + scanned(s, i as int),
                self.continues(old(self)),
                forall|k: int|
                    base <= k < self.trace().len() ==> {
                        &&& (#[trigger] self.trace()[k]).values == s
                        &&& self.trace()[k].highlight == seq![s[k - base + 1]]
                    },
            decreases n - i,
        {
            self.record(vec![self.arr[i]]);
            if self.arr[i] < self.arr[i - 1] {
                return false;
            }
            i += 1;
        }
        proof {
            assert forall|a: int, b: int| 0 <= a <= b < s.len() implies s[a] <= s[b] by {
                lemma_neighbours_sorted(s, a, b);
            }
        }
        true
    }

    /// Bogo sort with a ceiling: scans the array for order and, as long as
    /// the scan fails and fewer than `max_shuffles` shuffles were made,
    /// shuffles it and scans again. Returns whether the last scan found the
    /// array ascending. The steps are those that the scans record, at least
    /// one for each scan of an array of two values or more.
    pub fn bogo_sort(&mut self, max_shuffles: usize) -> (done: bool)
        ensures
            done == sorted(final(self).arr@),
            sorted(old(self).arr@) ==> final(self).arr@ == old(self).arr@,
            sorted(old(self).arr@) ==> final(self).trace().len() == old(self).trace().len() + scanned(
                old(self).arr@,
                1,
            ),
            max_shuffles == 0 ==> final(self).arr@ == old(self).arr@,
            rearranged(final(self).arr@, old(self).arr@),
            final(self).continues(old(self)),
            old(self).arr@.len() >= 2 ==> final(self).trace().len() > old(self).trace().len(),
            !done ==> final(self).trace().len() >= old(self).trace().len() + max_shuffles + 1,
    {
        let ghost n = self.arr@.len();
        let mut shuffles: usize = 0;
        let mut done = self.is_sorted();
        while !done && shuffles < max_shuffles
            invariant
                n == self.arr@.len(),
                shuffles <= max_shuffles,
                done == sorted(self.arr@),
                sorted(old(self).arr@) ==> done && self.arr@ == old(self).arr@,
                sorted(old(self).arr@) ==> self.trace().len() == old(self).trace().len() + scanned(
                    old(self).arr@,
                    1,
                ),
                shuffles == 0 ==> self.arr@ == old(self).arr@,
                rearranged(self.arr@, old(self).arr@),
                self.continues(old(self)),
                n >= 2 ==> self.trace().len() >= old(self).trace().len() + shuffles + 1,
            decreases max_shuffles - shuffles,
        {
            shuffle(&mut self.arr);
            shuffles += 1;
            done = self.is_sorted();
        }
        done
    }
}

} // verus!
