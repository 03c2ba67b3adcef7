//! The recorder and its sorting algorithms.

use vstd::prelude::*;
use crate::order::{Snapshot, sorted, sorted_between, rearranged, same_outside, swapped, lemma_swapped_rearranged, lemma_range_rearranged, lemma_whole_rearranged, lemma_upper_bound_kept, lemma_lower_bound_kept};

verus! {

/// One recorded step of a run: a copy of the array and the highlight.
#[derive(Debug)]
pub struct Iteration {
    /// The array as it stood when the step was recorded.
    pub arr: Vec<u32>,
    /// The positions or values that the step worked on.
    pub index: Vec<u32>,
}

impl View for Iteration {
    type V = Snapshot;

    open spec fn view(&self) -> Snapshot {
        Snapshot { values: self.arr@, highlight: self.index@ }
    }
}

/// The steps that `t` holds, as the contracts see them.
pub open spec fn snapshots(t: Seq<Iteration>) -> Seq<Snapshot> {
    Seq::new(t.len(), |i: int| t[i]@)
}

/// An array under sorting, together with the steps recorded so far.
pub struct SortableArray {
    pub arr: Vec<u32>,
    pub iterations: Vec<Iteration>,
}

impl SortableArray {
    /// The steps recorded so far, oldest first.
    pub open spec fn trace(&self) -> Seq<Snapshot> {
        snapshots(self.iterations@)
    }

    /// What every algorithm does to the trace: `self` keeps the steps of
    /// `before` and adds steps of the array's length, the last of which shows
    /// the array as it now is; without a new step the array is untouched.
    pub open spec fn continues(&self, before: &Self) -> bool {
        &&& self.arr@.len() == before.arr@.len()
        &&& before.trace().len() <= self.trace().len()
        &&& forall|i: int| 0 <= i < before.trace().len() ==> self.trace()[i] == before.trace()[i]
        &&& forall|i: int|
            before.trace().len() <= i < self.trace().len() ==> (#[trigger] self.trace()[i]).values.len()
                == self.arr@.len()
        &&& if self.trace().len() == before.trace().len() {
            self.arr@ == before.arr@
        } else {
            self.trace().last().values == self.arr@
        }
    }

    /// What a finished run leaves: the array ascending, holding the values it
    /// began with, and a trace that `continues` the one before, with at least
    /// one new step where the array has two values or more.
    pub open spec fn sorts(&self, before: &Self) -> bool {
        &&& sorted(self.arr@)
        &&& rearranged(self.arr@, before.arr@)
        &&& self.continues(before)
        &&& before.arr@.len() >= 2 ==> self.trace().len() > before.trace().len()
    }

    /// Wraps `arr` with an empty trace.
    pub fn new(arr: Vec<u32>) -> (s: Self)
        ensures
            s.arr@ == arr@,
            s.trace() == Seq::<Snapshot>::empty(),
    {
        let s = Self { arr, iterations: Vec::new() };
        assert(s.trace() =~= Seq::<Snapshot>::empty());
        s
    }

    /// Hands out the recorded steps.
    pub fn get_iterations(self) -> (t: Vec<Iteration>)
        ensures
            snapshots(t@) == self.trace(),
    {
        self.iterations
    }

    /// Exchanges the values at `i` and `j`.
    pub(crate) fn swap(&mut self, i: usize, j: usize)
        requires
            i < old(self).arr@.len(),
            j < old(self).arr@.len(),
        ensures
            final(self).arr@ == swapped(old(self).arr@, i as int, j as int),
            rearranged(final(self).arr@, old(self).arr@),
            final(self).trace() == old(self).trace(),
    {
        let a = self.arr[i];
        let b = self.arr[j];
        self.arr[i] = b;
        self.arr[j] = a;
        proof {
            lemma_swapped_rearranged(old(self).arr@, i as int, j as int);
            assert(self.trace() =~= old(self).trace());
        }
    }

    /// Appends a step that shows the array as it is, with `index` as highlight.
    pub(crate) fn record(&mut self, index: Vec<u32>)
        ensures
            final(self).arr@ == old(self).arr@,
            final(self).trace() == old(self).trace().push(
                Snapshot { values: old(self).arr@, highlight: index@ },
            ),
    {
        let copy = self.arr.clone();
        assert(copy@ =~= self.arr@);
        self.iterations.push(Iteration { arr: copy, index });
        assert(self.trace() =~= old(self).trace().push(
            Snapshot { values: old(self).arr@, highlight: index@ },
        ));
    }
}

} // verus!
