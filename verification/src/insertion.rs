//! The algorithms that place one value at a time: selection sort, insertion
//! sort and shell sort.

use vstd::prelude::*;
use crate::order::{Snapshot, sorted, sorted_between, rearranged, swapped};
use crate::sorters::SortableArray;

verus! {

/// The position of the smallest value of `s` between `from` (inclusive)
/// and `to` (exclusive), the first of equal ones; `from` where the range is
/// empty.
pub open spec fn first_min(s: Seq<u32>, from: int, to: int) -> int
    decreases to - from,
{
    if to <= from + 1 {
        from
    } else if s[to - 1] < s[first_min(s, from, to - 1)] {
        to - 1
    } else {
        first_min(s, from, to - 1)
    }
}

/// `s` after the first `passes` passes of selection sort.
pub open spec fn selected(s: Seq<u32>, passes: int) -> Seq<u32>
    decreases passes,
{
    if passes <= 0 {
        s
    } else {
        swapped(
            selected(s, passes - 1),
            passes - 1,
            first_min(selected(s, passes - 1), passes - 1, s.len() as int),
        )
    }
}

/// The steps of those passes: the array after each, with the position
/// where its smallest value was found.
pub open spec fn selection_steps(s: Seq<u32>, passes: int) -> Seq<Snapshot> {
    Seq::new(
        (if passes <= 0 { 0 } else { passes }) as nat,
        |t: int|
            Snapshot {
                values: selected(s, t + 1),
                highlight: seq![
                    #[verifier::truncate] (first_min(selected(s, t), t, s.len() as int) as u32),
                ],
            },
    )
}

/// `s` after the value at `j` moved left in strides of `gap`, past every
/// larger value it met.
pub open spec fn sunk(s: Seq<u32>, j: int, gap: int) -> Seq<u32>
    decreases j,
{
    if gap >= 1 && j >= gap && s[j - gap] > s[j] {
        sunk(swapped(s, j - gap, j), j - gap, gap)
    } else {
        s
    }
}

/// The position that the value at `j` reaches on that way.
pub open spec fn landing(s: Seq<u32>, j: int, gap: int) -> int
    decreases j,
{
    if gap >= 1 && j >= gap && s[j - gap] > s[j] {
        landing(swapped(s, j - gap, j), j - gap, gap)
    } else {
        j
    }
}

/// `s` after the values at `gap`, `gap + 1`, up to `upto - 1` were sunk, in
/// that order.
pub open spec fn gapped(s: Seq<u32>, gap: int, upto: int) -> Seq<u32>
    decreases upto - gap,
{
    if upto <= gap {
        s
    } else {
        sunk(gapped(s, gap, upto - 1), upto - 1, gap)
    }
}

/// The steps of that pass: the array after each value was sunk, with the
/// position it came from and the one it reached.
pub open spec fn gap_steps(s: Seq<u32>, gap: int, upto: int) -> Seq<Snapshot> {
    Seq::new(
        (if upto <= gap { 0 } else { upto - gap }) as nat,
        |t: int|
            Snapshot {
                values: gapped(s, gap, gap + t + 1),
                highlight: seq![
                    #[verifier::truncate] ((gap + t) as u32),
                    #[verifier::truncate] (landing(gapped(s, gap, gap + t), gap + t, gap) as u32),
                ],
            },
    )
}

/// What shell sort does to `s` from the gap `gap` on, and the steps it
/// records: a pass with that gap, then the same with half the gap, until
/// the gap is 0.
pub open spec fn shelled(s: Seq<u32>, gap: int) -> (Seq<u32>, Seq<Snapshot>)
    decreases gap,
{
    if gap <= 0 {
        (s, Seq::empty())
    } else {
        let pass = gapped(s, gap, s.len() as int);
        (shelled(pass, gap / 2).0, gap_steps(s, gap, s.len() as int) + shelled(pass, gap / 2).1)
    }
}

impl SortableArray {
    /// Selection sort: for each position in turn, finds the smallest of the
    /// values from there on (the first of equal ones) and exchanges it with
    /// the value at that position. Each pass is recorded, with the position
    /// where the smallest value was found.
    pub fn selection_sort(&mut self)
        ensures
            final(self).sorts(old(self)),
            final(self).arr@ == selected(old(self).arr@, old(self).arr@.len() as int),
            final(self).trace() == old(self).trace() + selection_steps(
                old(self).arr@,
                old(self).arr@.len() as int,
            ),
    {
        let n = self.arr.len();
        let ghost base = self.trace().len();
        let mut i: usize = 0;
        proof {
            assert(self.trace() + selection_steps(self.arr@, 0) =~= self.trace());
        }
        while i < n
            invariant
                self.arr@ == selected(old(self).arr@, i as int),
                self.trace() == old(self).trace() + selection_steps(old(self).arr@, i as int),
                n == self.arr.len(),
                i <= n,
                base == old(self).trace().len(),
                sorted_between(self.arr@, 0, i as int),
                forall|a: int, b: int| 0 <= a < i <= b < n ==> self.arr@[a] <= self.arr@[b],
                rearranged(self.arr@, old(self).arr@),
                self.continues(old(self)),
                self.trace().len() == base + i,
            decreases n - i,
        {
            let mut min: usize = i;
            let mut j: usize = i + 1;
            while j < n
                invariant
                    n == self.arr.len(),
                    i <= min < j <= n,
                    forall|k: int| i <= k < j ==> self.arr@[min as int] <= self.arr@[k],
                    min == first_min(self.arr@, i as int, j as int),
                decreases n - j,
            {
                if self.arr[j] < self.arr[min] {
                    min = j;
                }
                j += 1;
            }
            self.swap(i, min);
            let ghost seen = self.trace();
            let index = vec![#[verifier::truncate] (min as u32)];
            assert(index@ =~= seq![#[verifier::truncate] (min as u32)]);
            self.record(index);
            i += 1;
            proof {
                let step = Snapshot { values: self.arr@, highlight: index@ };
                let before = selection_steps(old(self).arr@, i - 1);
                assert(selection_steps(old(self).arr@, i as int) =~= before.push(step));
                assert((old(self).trace() + before).push(step) =~= old(self).trace() + before.push(
                    step,
                ));
            }
        }
    }

    /// Insertion sort: each value from the second on moves left, past every
    /// larger value before it. Each placement is recorded, with the position
    /// the value came from and the one it reached.
    pub fn insertion_sort(&mut self)
        ensures
            final(self).sorts(old(self)),
            final(self).arr@ == gapped(old(self).arr@, 1, old(self).arr@.len() as int),
            final(self).trace() == old(self).trace() + gap_steps(
                old(self).arr@,
                1,
                old(self).arr@.len() as int,
            ),
    {
        let n = self.arr.len();
        let ghost base = self.trace().len();
        let mut i: usize = 1;
        proof {
            assert(self.trace() + gap_steps(self.arr@, 1, 1) =~= self.trace());
            assert(self.trace() + gap_steps(self.arr@, 1, 0) =~= self.trace());
        }
        while i < n
            invariant
                self.arr@ == gapped(old(self).arr@, 1, if n == 0 { 0 } else { i as int }),
                self.trace() == old(self).trace() + gap_steps(
                    old(self).arr@,
                    1,
                    if n == 0 { 0 } else { i as int },
                ),
                n == self.arr.len(),
                1 <= i,
                i <= n || n == 0,
                base == old(self).trace().len(),
                sorted_between(self.arr@, 0, i as int),
                rearranged(self.arr@, old(self).arr@),
                self.continues(old(self)),
                self.trace().len() == base + i - 1,
            decreases n - i,
        {
            let ghost head = self.trace();
            let ghost a0 = self.arr@;
            let mut j: usize = i;
            while j > 0 && self.arr[j - 1] > self.arr[j]
                invariant
                    sunk(self.arr@, j as int, 1) == sunk(a0, i as int, 1),
                    landing(self.arr@, j as int, 1) == landing(a0, i as int, 1),
                    n == self.arr.len(),
                    j <= i < n,
                    rearranged(self.arr@, old(self).arr@),
                    self.trace() == head,
                    forall|a: int, b: int|
                        0 <= a <= b <= i && a != j && b != j ==> self.arr@[a] <= self.arr@[b],
                    forall|b: int| j < b <= i ==> self.arr@[j as int] <= self.arr@[b],
                decreases j,
            {
                self.swap(j - 1, j);
                j -= 1;
            }
            let index = vec![#[verifier::truncate] (i as u32), #[verifier::truncate] (j as u32)];
            assert(index@ =~= seq![#[verifier::truncate] (i as u32), #[verifier::truncate] (j as u32)]);
            self.record(index);
            i += 1;
            proof {
                let step = Snapshot { values: self.arr@, highlight: index@ };
                let before = gap_steps(old(self).arr@, 1, i - 1);
                assert(gap_steps(old(self).arr@, 1, i as int) =~= before.push(step));
                assert((old(self).trace() + before).push(step) =~= old(self).trace() + before.push(
                    step,
                ));
            }
        }
    }

    /// Shell sort: insertion sort over the values a gap apart, with gaps of
    /// half the length, then half of that, down to one. Each placement is
    /// recorded, with the position the value came from and the one it reached.
    #[verifier::rlimit(40)]
    pub fn shell_sort(&mut self)
        ensures
            final(self).sorts(old(self)),
            final(self).arr@ == shelled(old(self).arr@, old(self).arr@.len() as int / 2).0,
            final(self).trace() == old(self).trace() + shelled(
                old(self).arr@,
                old(self).arr@.len() as int / 2,
            ).1,
    {
        let len = self.arr.len();
        let ghost base = self.trace().len();
        let ghost goal = shelled(self.arr@, len as int / 2);
        let mut gap: usize = len / 2;
        proof {
            if gap == 0 {
                assert(self.trace() + goal.1 =~= self.trace());
            }
        }
        while gap > 0
            invariant
                goal.0 == shelled(self.arr@, gap as int).0,
                old(self).trace() + goal.1 == self.trace() + shelled(self.arr@, gap as int).1,
                len == self.arr.len(),
                gap <= len / 2,
                base == old(self).trace().len(),
                rearranged(self.arr@, old(self).arr@),
                self.continues(old(self)),
                gap == 0 ==> sorted(self.arr@),
                len >= 2 && gap < len / 2 ==> self.trace().len() > base,
            decreases gap,
        {
            let ghost p0 = self.arr@;
            let ghost t0 = self.trace();
            let mut i: usize = gap;
            proof {
                assert(t0 + gap_steps(p0, gap as int, gap as int) =~= t0);
            }
            while i < len
                invariant
                    self.arr@ == gapped(p0, gap as int, i as int),
                    self.trace() == t0 + gap_steps(p0, gap as int, i as int),
                    len == self.arr.len(),
                    1 <= gap <= i <= len,
                    gap <= len / 2,
                    base == old(self).trace().len(),
                    rearranged(self.arr@, old(self).arr@),
                    self.continues(old(self)),
                    gap == 1 ==> sorted_between(self.arr@, 0, i as int),
                    i > gap ==> self.trace().len() > base,
                decreases len - i,
            {
                let ghost head = self.trace();
                let ghost a0 = self.arr@;
                let mut j: usize = i;
                while j >= gap && self.arr[j - gap] > self.arr[j]
                    invariant
                        sunk(self.arr@, j as int, gap as int) == sunk(a0, i as int, gap as int),
                        landing(self.arr@, j as int, gap as int) == landing(a0, i as int, gap as int),
                        len == self.arr.len(),
                        1 <= gap,
                        j <= i < len,
                        rearranged(self.arr@, old(self).arr@),
                        self.trace() == head,
                        gap == 1 ==> forall|a: int, b: int|
                            0 <= a <= b <= i && a != j && b != j ==> self.arr@[a] <= self.arr@[b],
                        gap == 1 ==> forall|b: int| j < b <= i ==> self.arr@[j as int] <= self.arr@[b],
                    decreases j,
                {
                    self.swap(j - gap, j);
                    j -= gap;
                }
                let index = vec![#[verifier::truncate] (i as u32), #[verifier::truncate] (j as u32)];
                assert(index@ =~= seq![#[verifier::truncate] (i as u32), #[verifier::truncate] (j as u32)]);
                self.record(index);
                i += 1;
                proof {
                    let step = Snapshot { values: self.arr@, highlight: index@ };
                    let before = gap_steps(p0, gap as int, i - 1);
                    assert(gap_steps(p0, gap as int, i as int) =~= before.push(step));
                    assert((t0 + before).push(step) =~= t0 + before.push(step));
                }
            }
            proof {
                let pass = gap_steps(p0, gap as int, len as int);
                let rest = shelled(self.arr@, gap as int / 2).1;
                assert((t0 + pass) + rest =~= t0 + (pass + rest));
            }
            gap /= 2;
        }
    }
}

} // verus!
