//! The head of a region container, as far as the census looks at it before
//! a chunk is read: where the table of locations places a chunk, and the
//! length that the chunk's own header gives.

use vstd::prelude::*;

verus! {

/// The size of the table of chunk locations at the head of a container.
pub const LOCATIONS_SIZE: usize = 4096;

/// The size of a sector, the unit in which the table places chunks.
pub const SECTOR_SIZE: u64 = 4096;

/// Where the entry of slot `(x, z)` stands in the table of locations.
pub open spec fn slot_entry(x: int, z: int) -> int {
    4 * (x + 32 * z)
}

/// The sector at which the table places the chunk of slot `(x, z)`.
pub open spec fn slot_sector(data: Seq<u8>, x: int, z: int) -> int {
    let e = slot_entry(x, z);
    data[e] * 65536 + data[e + 1] * 256 + data[e + 2]
}

/// The number of sectors that the table gives the chunk of slot `(x, z)`.
pub open spec fn slot_sectors(data: Seq<u8>, x: int, z: int) -> int {
    data[slot_entry(x, z) + 3] as int
}

/// The table places a chunk in slot `(x, z)`, the chunk's header lies within
/// the container, and the length that it gives is zero.
#[verifier::opaque]
pub open spec fn zero_length_slot(data: Seq<u8>, x: int, z: int) -> bool {
    let at = slot_sector(data, x, z) * 4096;
    &&& data.len() >= LOCATIONS_SIZE
    &&& (slot_sector(data, x, z) != 0 || slot_sectors(data, x, z) != 0)
    &&& at + 5 <= data.len()
    &&& data[at] == 0
    &&& data[at + 1] == 0
    &&& data[at + 2] == 0
    &&& data[at + 3] == 0
}

/// Whether the chunk that the table places in slot `(x, z)` gives zero as
/// its length.
pub fn has_zero_length(data: &Vec<u8>, x: usize, z: usize) -> (b: bool)
    requires
        x < 32,
        z < 32,
    ensures
        b == zero_length_slot(data@, x as int, z as int),
{
    proof {
        reveal(zero_length_slot);
    }
    if data.len() < LOCATIONS_SIZE {
        return false;
    }
    let e: usize = 4 * (x + 32 * z);
    let sector: u64 = (data[e] as u64) * 65536 + (data[e + 1] as u64) * 256 + (data[e + 2] as u64);
    let sectors: u8 = data[e + 3];
    if sector == 0 && sectors == 0 {
        return false;
    }
    let at: u64 = sector * SECTOR_SIZE;
    if at + 5 > data.len() as u64 {
        return false;
    }
    let i: usize = at as usize;
    data[i] == 0 && data[i + 1] == 0 && data[i + 2] == 0 && data[i + 3] == 0
}

/// None of the first `n` slots, counted row by row, gives zero as the
/// length of its chunk.
pub open spec fn lengths_sound(data: Seq<u8>, n: int) -> bool {
    forall|i: int| 0 <= i < n ==> !#[trigger] zero_length_slot(data, i % 32, i / 32)
}

/// The number of the first slot, counted row by row, whose chunk gives zero
/// as its length.
pub fn first_zero_length(data: &Vec<u8>) -> (r: Option<usize>)
    ensures
        match r {
            Some(i) => i < 1024 && lengths_sound(data@, i as int) && zero_length_slot(
                data@,
                i as int % 32,
                i as int / 32,
            ),
            None => lengths_sound(data@, 1024),
        },
{
    let mut i: usize = 0;
    while i < 1024
        invariant
            i <= 1024,
            lengths_sound(data@, i as int),
        decreases 1024 - i,
    {
        if has_zero_length(data, i % 32, i / 32) {
            return Some(i);
        }
        i += 1;
    }
    None
}

} // verus!
