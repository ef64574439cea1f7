//! Verified core of a keyboard-driven terminal file browser: directory
//! entries, ordered directory snapshots with a hidden-file index, bounded
//! LRU caching of snapshots, and coalescing of concurrent load requests.

use vstd::prelude::*;

pub mod entry;
pub mod order;
pub mod panel;
pub mod cache;
pub mod loader;

verus! {

/// A saturating decrement, shared by the navigation code.
pub fn saturating_dec(x: usize, step: usize) -> (r: usize)
    ensures
        r == if x >= step {
            (x - step) as int
        } else {
            0int
        },
{
    if x >= step {
        x - step
    } else {
        0
    }
}

} // verus!
