//! A vertical census of block occurrences: per-level counts of each block
//! type, tallied per region and merged into one total.
//!
//! - `census` is the mathematical model, `algebra` what holds of counting
//!   and merging in it.
//! - `block_count` is the accumulator, `names` the order of its rows,
//!   `y_range` the ranges of levels.
//! - `chunk` tallies one chunk, `region` one region file, through the
//!   decoder that `anvil` declares; `container` looks at a region file's
//!   head before a chunk is read.
//! - `reducer` folds the regions' results into the total, `report` renders
//!   the total, `text` writes its numbers, `settings` holds a run's choices.

pub mod algebra;
pub mod anvil;
pub mod block_count;
pub mod census;
pub mod chunk;
pub mod container;
pub mod names;
pub mod reducer;
pub mod region;
pub mod report;
pub mod settings;
pub mod text;
pub mod y_range;
