//! The reducer's step: one region's result is folded into the total, or
//! dropped without a trace in the total.

use crate::block_count::{BlockCount, BlockCountError};
use crate::census::{merged, sum_fits};
use crate::region::RegionError;
use vstd::prelude::*;

verus! {

/// Why a region's contribution was dropped.
#[derive(Debug)]
pub enum Dropped {
    /// The region gave no census.
    Region(RegionError),
    /// The region's census is over another range of levels than the total.
    Range(BlockCountError),
}

/// Folds one region's result into `total`.
///
/// A census over the total's range is merged in. A census over another
/// range, or a region that failed, is dropped: the total stays as it was, and
/// the reason is handed back.
pub fn reduce(total: &mut BlockCount, result: Result<BlockCount, RegionError>) -> (r: Result<
    (),
    Dropped,
>)
    requires
        old(total).wf(),
        result matches Ok(region_counts) ==> region_counts.wf() && (old(total).y_range()
            == region_counts.y_range() ==> sum_fits(
            old(total)@,
            region_counts@,
            isize::MAX as int,
        )),
    ensures
        final(total).wf(),
        final(total).y_range() == old(total).y_range(),
        match result {
            Ok(region_counts) => if region_counts.y_range() == old(total).y_range() {
                r is Ok && final(total)@ == merged(old(total)@, region_counts@)
            } else {
                r == Err::<(), Dropped>(
                    Dropped::Range(
                        BlockCountError::MismatchingYRange {
                            this: old(total).y_range(),
                            other: region_counts.y_range(),
                        },
                    ),
                ) && *final(total) == *old(total)
            },
            Err(e) => r == Err::<(), Dropped>(Dropped::Region(e)) && *final(total) == *old(total),
        },
{
    match result {
        Ok(region_counts) => match total.add_block_count(region_counts) {
            Ok(()) => Ok(()),
            Err(e) => Err(Dropped::Range(e)),
        },
        Err(e) => Err(Dropped::Region(e)),
    }
}

} // verus!
