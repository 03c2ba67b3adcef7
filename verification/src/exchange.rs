//! The algorithms that sweep over neighbours: bubble sort and cocktail sort.

use vstd::prelude::*;
use crate::order::{Snapshot, sorted, sorted_between, rearranged, swapped};
use crate::sorters::SortableArray;

verus! {

/// `s` after the neighbours at `k` and `k + 1` were put in order.
pub open spec fn settled(s: Seq<u32>, k: int) -> Seq<u32> {
    if s[k] > s[k + 1] {
        swapped(s, k, k + 1)
    } else {
        s
    }
}

/// `s` after an upward sweep: the pairs at `from`, `from + 1`, up to
/// `to - 1` were settled, in that order.
pub open spec fn swept_up(s: Seq<u32>, from: int, to: int) -> Seq<u32>
    decreases to - from,
{
    if to <= from {
        s
    } else {
        settled(swept_up(s, from, to - 1), to - 1)
    }
}

/// Whether that upward sweep exchanged any pair.
pub open spec fn exchanged_up(s: Seq<u32>, from: int, to: int) -> bool
    decreases to - from,
{
    if to <= from {
        false
    } else {
        exchanged_up(s, from, to - 1) || swept_up(s, from, to - 1)[to - 1] > swept_up(
            s,
            from,
            to - 1,
        )[to]
    }
}

/// `s` after a downward sweep: the pairs at `to - 1`, `to - 2`, down to
/// `from` were settled, in that order.
pub open spec fn swept_down(s: Seq<u32>, from: int, to: int) -> Seq<u32>
    decreases to - from,
{
    if to <= from {
        s
    } else {
        settled(swept_down(s, from + 1, to), from)
    }
}

/// Whether that downward sweep exchanged any pair.
pub open spec fn exchanged_down(s: Seq<u32>, from: int, to: int) -> bool
    decreases to - from,
{
    if to <= from {
        false
    } else {
        exchanged_down(s, from + 1, to) || swept_down(s, from + 1, to)[from] > swept_down(
            s,
            from + 1,
            to,
        )[from + 1]
    }
}

/// The steps of an upward sweep in cocktail sort: one for each pair, with
/// the larger value of the pair.
pub open spec fn up_steps(s: Seq<u32>, from: int, to: int) -> Seq<Snapshot> {
    Seq::new(
        (if to <= from { 0 } else { to - from }) as nat,
        |t: int|
            Snapshot {
                values: swept_up(s, from, from + t + 1),
                highlight: seq![swept_up(s, from, from + t + 1)[from + t + 1]],
            },
    )
}

/// The steps of a downward sweep in cocktail sort: one for each pair, with
/// the larger value of the pair.
pub open spec fn down_steps(s: Seq<u32>, from: int, to: int) -> Seq<Snapshot> {
    Seq::new(
        (if to <= from { 0 } else { to - from }) as nat,
        |t: int|
            Snapshot {
                values: swept_down(s, to - 1 - t, to),
                highlight: seq![swept_down(s, to - 1 - t, to)[to - t]],
            },
    )
}

/// What cocktail sort does to `s` between `start` and `end`, and the steps
/// it records: an upward sweep; if that exchanged something, a downward
/// sweep that stops one pair earlier; if that exchanged something too, the
/// same again between `start + 1` and `end - 1`.
pub open spec fn cocktail(s: Seq<u32>, start: int, end: int) -> (Seq<u32>, Seq<Snapshot>)
    decreases end - start,
{
    if end <= start {
        (s, Seq::empty())
    } else if !exchanged_up(s, start, end) {
        (swept_up(s, start, end), up_steps(s, start, end))
    } else {
        let up = swept_up(s, start, end);
        let down = swept_down(up, start, end - 1);
        let steps = up_steps(s, start, end) + down_steps(up, start, end - 1);
        if !exchanged_down(up, start, end - 1) {
            (down, steps)
        } else {
            (cocktail(down, start + 1, end - 1).0, steps + cocktail(down, start + 1, end - 1).1)
        }
    }
}

/// The steps of one sweep of bubble sort: one for each pair, with the two
/// positions of the pair.
pub open spec fn pair_steps(s: Seq<u32>, to: int) -> Seq<Snapshot> {
    Seq::new(
        (if to <= 0 { 0 } else { to }) as nat,
        |t: int|
            Snapshot {
                values: swept_up(s, 0, t + 1),
                highlight: seq![#[verifier::truncate] (t as u32), #[verifier::truncate] ((t + 1) as u32)],
            },
    )
}

/// `s` after the first `passes` sweeps of bubble sort, each from the front
/// and one pair shorter than the one before it.
pub open spec fn bubbled(s: Seq<u32>, passes: int) -> Seq<u32>
    decreases passes,
{
    if passes <= 0 {
        s
    } else {
        swept_up(bubbled(s, passes - 1), 0, s.len() - passes)
    }
}

/// The steps of those sweeps.
pub open spec fn bubble_steps(s: Seq<u32>, passes: int) -> Seq<Snapshot>
    decreases passes,
{
    if passes <= 0 {
        Seq::empty()
    } else {
        bubble_steps(s, passes - 1) + pair_steps(bubbled(s, passes - 1), s.len() - passes)
    }
}

/// An upward sweep that goes one pair further records one step more.
pub proof fn lemma_up_steps_grow(s: Seq<u32>, from: int, to: int)
    requires
        from <= to,
    ensures
        up_steps(s, from, to + 1) == up_steps(s, from, to).push(
            Snapshot {
                values: swept_up(s, from, to + 1),
                highlight: seq![swept_up(s, from, to + 1)[to + 1]],
            },
        ),
{
    assert(up_steps(s, from, to + 1) =~= up_steps(s, from, to).push(
        Snapshot {
            values: swept_up(s, from, to + 1),
            highlight: seq![swept_up(s, from, to + 1)[to + 1]],
        },
    ));
}

/// A downward sweep that goes one pair further records one step more.
pub proof fn lemma_down_steps_grow(s: Seq<u32>, from: int, to: int)
    requires
        from <= to,
    ensures
        down_steps(s, from - 1, to) == down_steps(s, from, to).push(
            Snapshot {
                values: swept_down(s, from - 1, to),
                highlight: seq![swept_down(s, from - 1, to)[from]],
            },
        ),
{
    assert(down_steps(s, from - 1, to) =~= down_steps(s, from, to).push(
        Snapshot {
            values: swept_down(s, from - 1, to),
            highlight: seq![swept_down(s, from - 1, to)[from]],
        },
    ));
}

impl SortableArray {
    /// Cocktail sort: forward and backward sweeps over neighbours in turn,
    /// each sweep one shorter than the last, until a sweep exchanges nothing.
    /// Every comparison is recorded, with the larger value of the pair.
    #[verifier::rlimit(100)]
    pub fn cocktail_sort(&mut self)
        ensures
            final(self).sorts(old(self)),
            final(self).arr@ == cocktail(old(self).arr@, 0, old(self).arr@.len() - 1).0,
            final(self).trace() == old(self).trace() + cocktail(
                old(self).arr@,
                0,
                old(self).arr@.len() - 1,
            ).1,
    {
        let n = self.arr.len();
        let ghost goal = cocktail(self.arr@, 0, n - 1);
        if n == 0 {
            assert(self.trace() + goal.1 =~= self.trace());
            return ;
        }
        let mut swapped = true;
        let mut start: usize = 0;
        let mut end: usize = n - 1;
        let ghost base = self.trace().len();

        while swapped
            invariant
                n == self.arr@.len(),
                n >= 1,
                base == old(self).trace().len(),
                start + end == n - 1,
                start <= end + 1,
                end < n,
                rearranged(self.arr@, old(self).arr@),
                self.continues(old(self)),
                sorted_between(self.arr@, 0, start as int),
                forall|a: int, b: int| 0 <= a < start <= b < n ==> self.arr@[a] <= self.arr@[b],
                sorted_between(self.arr@, end + 1, n as int),
                forall|a: int, b: int| 0 <= a <= end < b < n ==> self.arr@[a] <= self.arr@[b],
                start > 0 ==> self.trace().len() > base,
                !swapped ==> sorted(self.arr@),
                !swapped && n >= 2 ==> self.trace().len() > base,
                swapped ==> goal.0 == cocktail(self.arr@, start as int, end as int).0,
                swapped ==> old(self).trace() + goal.1 == self.trace() + cocktail(
                    self.arr@,
                    start as int,
                    end as int,
                ).1,
                !swapped ==> goal.0 == self.arr@,
                !swapped ==> old(self).trace() + goal.1 == self.trace(),
            ensures
                sorted(self.arr@),
                n >= 2 ==> self.trace().len() > base,
                goal.0 == self.arr@,
                old(self).trace() + goal.1 == self.trace(),
            decreases end + 1 - start,
        {
            swapped = false;
            let ghost a0 = self.arr@;
            let ghost t0 = self.trace();

            let mut i: usize = start;
            proof {
                assert(t0 + up_steps(a0, start as int, start as int) =~= t0);
            }
            while i < end
                invariant
                    self.arr@ == swept_up(a0, start as int, i as int),
                    swapped == exchanged_up(a0, start as int, i as int),
                    self.trace() == t0 + up_steps(a0, start as int, i as int),
                    n == self.arr@.len(),
                    start <= i,
                    i <= end || i == start,
                    end < n,
                    rearranged(self.arr@, old(self).arr@),
                    self.continues(old(self)),
                    sorted_between(self.arr@, 0, start as int),
                    forall|a: int, b: int| 0 <= a < start <= b < n ==> self.arr@[a] <= self.arr@[b],
                    sorted_between(self.arr@, end + 1, n as int),
                    forall|a: int, b: int| 0 <= a <= end < b < n ==> self.arr@[a] <= self.arr@[b],
                    forall|k: int| start <= k <= i && i <= end ==> self.arr@[k] <= self.arr@[i as int],
                    !swapped ==> sorted_between(self.arr@, start as int, i + 1),
                    swapped ==> start < end,
                    start > 0 || i > start ==> self.trace().len() > base,
                    base == old(self).trace().len(),
                decreases end - i,
            {
                if self.arr[i] > self.arr[i + 1] {
                    self.swap(i, i + 1);
                    swapped = true;
                }
                let tone = if self.arr[i] > self.arr[i + 1] {
                    self.arr[i]
                } else {
                    self.arr[i + 1]
                };
                let ghost seen = self.trace();
                let index = vec![tone];
                assert(index@ =~= seq![tone]);
                self.record(index);
                i += 1;
                proof {
                    lemma_up_steps_grow(a0, start as int, i - 1);
                    let step = Snapshot { values: self.arr@, highlight: seq![tone] };
                    assert(self.trace() == seen.push(step));
                    assert((t0 + up_steps(a0, start as int, i - 1)).push(step) =~= t0 + up_steps(
                        a0,
                        start as int,
                        i - 1,
                    ).push(step));
                }
            }
            if !swapped {
                proof {
                    let whole = cocktail(a0, start as int, end as int);
                    if end <= start {
                        assert(i == start);
                        assert(whole == (a0, Seq::<Snapshot>::empty()));
                        assert(t0 + Seq::<Snapshot>::empty() =~= t0);
                    } else {
                        assert(i == end);
                        assert(whole == (
                            swept_up(a0, start as int, end as int),
                            up_steps(a0, start as int, end as int),
                        ));
                    }
                }
                break ;
            }
            swapped = false;
            end -= 1;
            let ghost a1 = self.arr@;
            let ghost t1 = self.trace();

            let mut i: usize = end;
            proof {
                assert(t1 + down_steps(a1, end as int, end as int) =~= t1);
            }
            while i > start
                invariant
                    self.arr@ == swept_down(a1, i as int, end as int),
                    swapped == exchanged_down(a1, i as int, end as int),
                    self.trace() == t1 + down_steps(a1, i as int, end as int),
                    n == self.arr@.len(),
                    start <= i <= end,
                    end + 1 < n,
                    rearranged(self.arr@, old(self).arr@),
                    self.continues(old(self)),
                    sorted_between(self.arr@, 0, start as int),
                    forall|a: int, b: int| 0 <= a < start <= b < n ==> self.arr@[a] <= self.arr@[b],
                    sorted_between(self.arr@, end + 1, n as int),
                    forall|a: int, b: int| 0 <= a <= end < b < n ==> self.arr@[a] <= self.arr@[b],
                    forall|k: int| i <= k <= end ==> self.arr@[i as int] <= self.arr@[k],
                    !swapped ==> sorted_between(self.arr@, i as int, end + 1),
                    self.trace().len() > base,
                    base == old(self).trace().len(),
                decreases i,
            {
                i -= 1;
                if self.arr[i] > self.arr[i + 1] {
                    self.swap(i, i + 1);
                    swapped = true;
                }
                let tone = if self.arr[i] > self.arr[i + 1] {
                    self.arr[i]
                } else {
                    self.arr[i + 1]
                };
                let ghost seen = self.trace();
                let index = vec![tone];
                assert(index@ =~= seq![tone]);
                self.record(index);
                proof {
                    lemma_down_steps_grow(a1, i + 1, end as int);
                    let step = Snapshot { values: self.arr@, highlight: seq![tone] };
                    assert(self.trace() == seen.push(step));
                    assert((t1 + down_steps(a1, i + 1, end as int)).push(step) =~= t1 + down_steps(
                        a1,
                        i + 1,
                        end as int,
                    ).push(step));
                }
            }
            proof {
                let up = up_steps(a0, start as int, end + 1);
                let down = down_steps(a1, start as int, end as int);
                let rest = cocktail(self.arr@, start + 1, end as int).1;
                assert((t0 + up) + down =~= t0 + (up + down));
                assert(((t0 + up) + down) + rest =~= t0 + ((up + down) + rest));
            }

            start += 1;
        }
    }
    /// Bubble sort: sweeps over neighbours from the front, each sweep one
    /// shorter than the last. Every comparison is recorded, with the two
    /// positions compared.
    #[verifier::rlimit(40)]
    pub fn bubble_sort(&mut self)
        ensures
            final(self).sorts(old(self)),
            final(self).arr@ == bubbled(old(self).arr@, old(self).arr@.len() as int),
            final(self).trace() == old(self).trace() + bubble_steps(
                old(self).arr@,
                old(self).arr@.len() as int,
            ),
    {
        let n = self.arr.len();
        proof {
            assert(self.trace() + bubble_steps(self.arr@, 0) =~= self.trace());
        }
        let ghost base = self.trace().len();
        let mut i: usize = 0;
        while i < n
            invariant
                n == self.arr@.len(),
                i <= n,
                base == old(self).trace().len(),
                rearranged(self.arr@, old(self).arr@),
                self.continues(old(self)),
                sorted_between(self.arr@, n - i, n as int),
                forall|a: int, b: int| 0 <= a < n - i <= b < n ==> self.arr@[a] <= self.arr@[b],
                i > 0 && n >= 2 ==> self.trace().len() > base,
                self.arr@ == bubbled(old(self).arr@, i as int),
                self.trace() == old(self).trace() + bubble_steps(old(self).arr@, i as int),
            decreases n - i,
        {
            let ghost a0 = self.arr@;
            let ghost t0 = self.trace();
            let mut j: usize = 0;
            proof {
                assert(t0 + pair_steps(a0, 0) =~= t0);
            }
            while j < n - i - 1
                invariant
                    self.arr@ == swept_up(a0, 0, j as int),
                    self.trace() == t0 + pair_steps(a0, j as int),
                    n == self.arr@.len(),
                    i < n,
                    j <= n - i - 1,
                    base == old(self).trace().len(),
                    rearranged(self.arr@, old(self).arr@),
                    self.continues(old(self)),
                    sorted_between(self.arr@, n - i, n as int),
                    forall|a: int, b: int| 0 <= a < n - i <= b < n ==> self.arr@[a] <= self.arr@[b],
                    forall|k: int| 0 <= k <= j ==> self.arr@[k] <= self.arr@[j as int],
                    (i > 0 || j > 0) && n >= 2 ==> self.trace().len() > base,
                decreases n - i - 1 - j,
            {
                if self.arr[j] > self.arr[j + 1] {
                    self.swap(j, j + 1);
                }
                self.record(vec![#[verifier::truncate] (j as u32), #[verifier::truncate] ((j + 1) as u32)]);
                j += 1;
                proof {
                    assert(self.trace() =~= t0 + pair_steps(a0, j as int));
                }
            }
            i += 1;
            proof {
                let before = bubble_steps(old(self).arr@, i - 1);
                let pass = pair_steps(a0, n - i);
                assert((old(self).trace() + before) + pass =~= old(self).trace() + (before + pass));
            }
        }
    }
}

} // verus!
