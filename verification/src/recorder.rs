//! The entry points: choose an algorithm, run it on an array, get the trace.

use vstd::prelude::*;
use crate::order::{Snapshot, sorted, rearranged, lemma_sorted_rearranged_equal};
use crate::sorters::{Iteration, SortableArray, snapshots};
use crate::exchange::{bubbled, bubble_steps, cocktail};
use crate::insertion::{selected, selection_steps, gapped, gap_steps, shelled};
use crate::divide::{merge_sorted, quicksorted};
use crate::heap::heap_sorted;

verus! {

/// The sorting algorithms on offer.
#[derive(Clone, Copy, Debug, PartialEq, Eq)]
pub enum Algorithm {
    Bubble,
    Selection,
    Insertion,
    Shell,
    Merge,
    Quicksort,
    Heap,
    Cocktail,
    Bogo,
}

/// What a run that began with the array `before` hands back: the array
/// `after` holds the same values; every step shows an array of that length;
/// the last step shows `after`; an array of two values or more has at least
/// one step, and one without a step is untouched.
pub open spec fn recorded(before: Seq<u32>, after: Seq<u32>, trace: Seq<Snapshot>) -> bool {
    &&& rearranged(after, before)
    &&& forall|i: int| 0 <= i < trace.len() ==> (#[trigger] trace[i]).values.len() == before.len()
    &&& trace.len() > 0 ==> trace.last().values == after
    &&& trace.len() == 0 ==> after == before
    &&& before.len() >= 2 ==> trace.len() > 0
}

/// What `algorithm` makes of the array `s`, and the steps it records. For
/// bogo sort, whose steps depend on chance, this is `s` without any step.
pub open spec fn outcome(s: Seq<u32>, algorithm: Algorithm) -> (Seq<u32>, Seq<Snapshot>) {
    let n = s.len() as int;
    match algorithm {
        Algorithm::Bubble => (bubbled(s, n), bubble_steps(s, n)),
        Algorithm::Selection => (selected(s, n), selection_steps(s, n)),
        Algorithm::Insertion => (gapped(s, 1, n), gap_steps(s, 1, n)),
        Algorithm::Shell => shelled(s, n / 2),
        Algorithm::Merge => merge_sorted(s, 0, n - 1),
        Algorithm::Quicksort => quicksorted(s, 0, n - 1),
        Algorithm::Heap => heap_sorted(s),
        Algorithm::Cocktail => cocktail(s, 0, n - 1),
        Algorithm::Bogo => (s, Seq::empty()),
    }
}

/// The array `after` and the steps `trace` are what `algorithm` makes of
/// the array `before`.
pub open spec fn is_run_of(
    before: Seq<u32>,
    algorithm: Algorithm,
    after: Seq<u32>,
    trace: Seq<Snapshot>,
) -> bool {
    after == outcome(before, algorithm).0 && trace == outcome(before, algorithm).1
}

/// Two runs of an algorithm other than bogo sort on the same array end
/// with the same array and record the same steps, in the same order and
/// with the same highlights.
pub proof fn law_repeated_runs_agree(
    algorithm: Algorithm,
    before: Seq<u32>,
    after_a: Seq<u32>,
    trace_a: Seq<Snapshot>,
    after_b: Seq<u32>,
    trace_b: Seq<Snapshot>,
)
    requires
        !(algorithm is Bogo),
        is_run_of(before, algorithm, after_a, trace_a),
        is_run_of(before, algorithm, after_b, trace_b),
    ensures
        after_a == after_b,
        trace_a == trace_b,
{
}

/// Sorts `arr` with `algorithm` and returns the steps it recorded. Every
/// algorithm but bogo sort leaves the array ascending; bogo sort makes at
/// most `max_shuffles` shuffles and leaves it ascending if one of its scans
/// found it so. An array that is ascending already, and so any array of
/// fewer than two values, is left as it was.
pub fn run(arr: &mut [u32], algorithm: Algorithm, max_shuffles: usize) -> (trace: Vec<Iteration>)
    ensures
        recorded(old(arr)@, final(arr)@, snapshots(trace@)),
        !(algorithm is Bogo) ==> sorted(final(arr)@),
        !(algorithm is Bogo) ==> is_run_of(old(arr)@, algorithm, final(arr)@, snapshots(trace@)),
        sorted(old(arr)@) ==> final(arr)@ == old(arr)@,
        old(arr)@.len() <= 1 ==> final(arr)@ == old(arr)@,
        max_shuffles == 0 && algorithm is Bogo ==> final(arr)@ == old(arr)@,
{
    let n = arr.len();
    let mut work: Vec<u32> = Vec::new();
    let mut k: usize = 0;
    while k < n
        invariant
            n == arr@.len(),
            k <= n,
            arr@ == old(arr)@,
            work@ == arr@.subrange(0, k as int),
        decreases n - k,
    {
        work.push(arr[k]);
        k += 1;
        assert(work@ =~= arr@.subrange(0, k as int));
    }
    assert(work@ =~= old(arr)@);
    let mut sortable = SortableArray::new(work);
    let ghost start = sortable;
    match algorithm {
        Algorithm::Bubble => sortable.bubble_sort(),
        Algorithm::Selection => sortable.selection_sort(),
        Algorithm::Insertion => sortable.insertion_sort(),
        Algorithm::Shell => sortable.shell_sort(),
        Algorithm::Merge => {
            if n > 0 {
                sortable.merge_sort_rec(0, n - 1);
            }
        },
        Algorithm::Quicksort => {
            if n > 0 {
                sortable.quicksort(0, n - 1);
            }
        },
        Algorithm::Heap => sortable.heap_sort(),
        Algorithm::Cocktail => sortable.cocktail_sort(),
        Algorithm::Bogo => {
            let _ = sortable.bogo_sort(max_shuffles);
        },
    }
    proof {
        assert(sortable.continues(&start));
        assert(start.trace() + outcome(start.arr@, algorithm).1 =~= outcome(start.arr@, algorithm).1);
        if sorted(start.arr@) && sorted(sortable.arr@) {
            lemma_sorted_rearranged_equal(sortable.arr@, start.arr@);
        }
    }
    let mut k: usize = 0;
    while k < n
        invariant
            n == arr@.len(),
            n == sortable.arr@.len(),
            k <= n,
            forall|i: int| 0 <= i < k ==> arr@[i] == sortable.arr@[i],
        decreases n - k,
    {
        arr[k] = sortable.arr[k];
        k += 1;
    }
    assert(arr@ =~= sortable.arr@);
    sortable.get_iterations()
}

/// Sorts `arr` with cocktail sort and returns the steps it recorded.
pub fn sort(arr: &mut [u32]) -> (trace: Vec<Iteration>)
    ensures
        recorded(old(arr)@, final(arr)@, snapshots(trace@)),
        sorted(final(arr)@),
        sorted(old(arr)@) ==> final(arr)@ == old(arr)@,
        is_run_of(old(arr)@, Algorithm::Cocktail, final(arr)@, snapshots(trace@)),
{
    run(arr, Algorithm::Cocktail, 0)
}

impl SortableArray {
    /// An ascending array comes out of any algorithm as it went in, and the
    /// last step recorded, if there is one, shows it so.
    pub proof fn law_sorted_input_kept(before: Self, after: Self)
        requires
            after.sorts(&before),
            sorted(before.arr@),
        ensures
            after.arr@ == before.arr@,
            after.trace().len() > before.trace().len() ==> after.trace().last().values
                == before.arr@,
    {
        lemma_sorted_rearranged_equal(after.arr@, before.arr@);
    }

    /// An array of fewer than two values comes out of any algorithm as it
    /// went in.
    pub proof fn law_short_input_kept(before: Self, after: Self)
        requires
            after.sorts(&before),
            before.arr@.len() <= 1,
        ensures
            after.arr@ == before.arr@,
    {
        lemma_sorted_rearranged_equal(after.arr@, before.arr@);
    }

    /// Two runs on the same values end with the same array, whichever
    /// algorithms they used.
    pub proof fn law_final_array_determined(
        before_a: Self,
        after_a: Self,
        before_b: Self,
        after_b: Self,
    )
        requires
            before_a.arr@ == before_b.arr@,
            after_a.sorts(&before_a),
            after_b.sorts(&before_b),
        ensures
            after_a.arr@ == after_b.arr@,
    {
        lemma_sorted_rearranged_equal(after_a.arr@, after_b.arr@);
    }
}

} // verus!
