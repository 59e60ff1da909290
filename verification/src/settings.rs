//! What a run is set up with: the world's range of levels and the number of
//! workers.

use crate::y_range::valid_y_range;
use std::ops::Range;
use vstd::prelude::*;

verus! {

/// The levels of a world of the old height.
pub open spec fn low_world() -> Range<isize> {
    Range { start: 0isize, end: 256isize }
}

/// The levels of a high world.
pub open spec fn high_world() -> Range<isize> {
    Range { start: -64isize, end: 320isize }
}

/// The range of levels to count over: that of a high world where
/// `high_worlds` is set, else that of a world of the old height.
pub fn world_y_coords(high_worlds: bool) -> (r: Range<isize>)
    ensures
        r == if high_worlds { high_world() } else { low_world() },
        valid_y_range(r),
{
    if high_worlds {
        -64..320
    } else {
        0..256
    }
}

/// The number of workers for one request: the number asked for, or, where
/// none or zero was asked for, the number of processors at hand.
pub open spec fn workers_for(threads: Option<usize>, available: usize) -> usize {
    match threads {
        Some(t) => if t == 0 { available } else { t },
        None => available,
    }
}

/// The number of workers, given the number of processors at hand.
pub fn pool_size_for(threads: Option<usize>, available: usize) -> (n: usize)
    ensures
        n == workers_for(threads, available),
{
    match threads {
        Some(t) => if t == 0 { available } else { t },
        None => available,
    }
}

/// `num_cpus::get`: the number of processors that this process can use. It
/// depends on the machine; its documentation promises at least one.
#[verifier::external_body]
fn available_processors() -> (n: usize)
    ensures
        n >= 1,
{
    num_cpus::get()
}

/// The number of workers on this machine: the number asked for, or, where
/// none or zero was asked for, the number of processors that this process
/// can use. It is never zero.
pub fn pool_size(threads: Option<usize>) -> (n: usize)
    ensures
        n >= 1,
        threads matches Some(t) ==> t != 0 ==> n == t,
{
    pool_size_for(threads, available_processors())
}

} // verus!
