//! The decisions of playback: which bar is highlighted, which one sounds, and
//! which frame comes next.

use vstd::prelude::*;
use crate::sorters::Iteration;

verus! {

/// The largest value of `arr`, and 0 where it has none.
pub fn get_max(arr: &[u32]) -> (max: u32)
    ensures
        forall|i: int| 0 <= i < arr@.len() ==> arr@[i] <= max,
        max == 0 || arr@.contains(max),
{
    let mut max: u32 = 0;
    let mut k: usize = 0;
    while k < arr.len()
        invariant
            k <= arr@.len(),
            forall|i: int| 0 <= i < k ==> arr@[i] <= max,
            max == 0 || arr@.contains(max),
        decreases arr@.len() - k,
    {
        if arr[k] > max {
            max = arr[k];
            assert(arr@[k as int] == max);
        }
        k += 1;
    }
    max
}

/// Whether `values` holds `e`.
pub fn holds(values: &[u32], e: u32) -> (found: bool)
    ensures
        found == values@.contains(e),
{
    let mut k: usize = 0;
    while k < values.len()
        invariant
            k <= values@.len(),
            forall|i: int| 0 <= i < k ==> values@[i] != e,
        decreases values@.len() - k,
    {
        if values[k] == e {
            assert(values@[k as int] == e);
            return true;
        }
        k += 1;
    }
    false
}

/// How a bar is shown.
#[derive(Clone, Copy, Debug, PartialEq, Eq)]
pub enum Bar {
    /// Not part of the step.
    Plain,
    /// Part of the step.
    Highlighted,
    /// Part of the step, and the one whose tone is played.
    Sounding,
}

/// How the bar of the value `e` is shown in `iteration`: highlighted where
/// the highlight holds `e`, and sounding where `e` is also the largest value
/// of the highlight.
pub fn bar(iteration: &Iteration, e: u32) -> (shown: Bar)
    ensures
        !iteration.index@.contains(e) ==> shown is Plain,
        iteration.index@.contains(e) ==> (shown is Sounding <==> forall|i: int|
            0 <= i < iteration.index@.len() ==> iteration.index@[i] <= e),
        iteration.index@.contains(e) ==> shown is Sounding || shown is Highlighted,
{
    if holds(iteration.index.as_slice(), e) {
        let max_index = get_max(iteration.index.as_slice());
        if max_index == e {
            Bar::Sounding
        } else {
            Bar::Highlighted
        }
    } else {
        Bar::Plain
    }
}

/// Reads the keys: Escape stops playback and ends the program, Space starts
/// playback. Returns whether the program ends.
pub fn handle_key_input(escape_down: bool, space_down: bool, started: &mut bool) -> (quit: bool)
    ensures
        quit == escape_down,
        *final(started) == (!escape_down && (space_down || *old(started))),
{
    if escape_down {
        *started = false;
        return true;
    }
    if space_down {
        *started = true;
    }
    false
}

/// Moves playback on by one step over a trace of `len` steps: the step at
/// `position` is shown and `position` moves on; behind the last step nothing
/// is shown and `position` goes back to the start.
pub fn process_iteration(len: usize, position: &mut usize) -> (shown: Option<usize>)
    ensures
        *old(position) < len ==> shown == Some(*old(position)) && *final(position) == *old(position)
            + 1,
        *old(position) >= len ==> shown is None && *final(position) == 0,
{
    if *position < len {
        let at = *position;
        *position = at + 1;
        Some(at)
    } else {
        *position = 0;
        None
    }
}

/// What the playback loop does in one round.
#[derive(Clone, Copy, Debug, PartialEq, Eq)]
pub enum Frame {
    /// Tell the sound to stop, and leave the loop.
    Quit,
    /// Show the invitation to start.
    Prompt,
    /// Show the step with this number, then wait one step's time.
    Show(usize),
    /// Past the last step: wait a second, show nothing, then wait one step's time.
    Rest,
}

/// One round of the playback loop over a trace of `len` steps: reads the
/// keys as `handle_key_input` does, and while playback runs moves on as
/// `process_iteration` does.
pub fn main_loop(
    escape_down: bool,
    space_down: bool,
    len: usize,
    started: &mut bool,
    position: &mut usize,
) -> (frame: Frame)
    ensures
        *final(started) == (!escape_down && (space_down || *old(started))),
        escape_down ==> frame is Quit && *final(position) == *old(position),
        !escape_down && !*final(started) ==> frame is Prompt && *final(position) == *old(position),
        !escape_down && *final(started) && *old(position) < len
            ==> frame == Frame::Show(*old(position)) && *final(position) == *old(position) + 1,
        !escape_down && *final(started) && *old(position) >= len ==> frame is Rest
            && *final(position) == 0,
{
    let should_end = handle_key_input(escape_down, space_down, started);
    if should_end {
        return Frame::Quit;
    }
    if !*started {
        return Frame::Prompt;
    }
    match process_iteration(len, position) {
        Some(at) => Frame::Show(at),
        None => Frame::Rest,
    }
}

} // verus!
