//! A recorder of sorting runs: each algorithm sorts an array in place and
//! appends a snapshot of the array, with the positions or values that were
//! active, after each of its steps.

pub mod order;
pub mod sorters;
pub mod exchange;
pub mod divide;
pub mod heap;
pub mod insertion;
pub mod bogo;
pub mod recorder;
pub mod playback;
