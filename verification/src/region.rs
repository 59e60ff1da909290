//! The work on one region: every chunk that the container holds is decoded
//! and tallied into one fresh accumulator.

use crate::anvil::{
    check_nbt, chunk_header, chunk_levels, chunk_status, decode_chunk, nbt_sound, open_region,
    read_chunk, region_data, stored_chunk,
};
use crate::block_count::BlockCount;
use crate::census::{bounded, shaped, Census};
use crate::chunk::{
    chunk_answers, chunk_tally, count_chunk, ignored, lemma_chunk_tally_bounded,
    lemma_chunk_tally_grows, lemma_no_shared_level, lookup_ready, names_of, tallied_level, Answers,
    CHUNK_FULL,
};
use crate::container::{first_zero_length, lengths_sound, zero_length_slot, LOCATIONS_SIZE};
use crate::y_range::{valid_y_range, y_len};
use fastanvil::JavaChunk;
use std::ops::Range;
use vstd::prelude::*;

verus! {

/// The number of chunks along each side of a region.
pub const REGION_WIDTH: usize = 32;

/// No count of one region's census is above this: a region holds
/// `32 * 32` chunks with `256` blocks each on a level.
pub const REGION_LEVEL_AREA: isize = 262144;

/// Why a region gave no census.
#[derive(Debug)]
#[allow(inconsistent_fields)]
pub enum RegionError {
    /// The container's header could not be read.
    Container(fastanvil::Error),
    /// The chunk at `(x, z)` gives zero as its length.
    ZeroLength { x: usize, z: usize },
    /// The chunk at `(x, z)` could not be read from the container.
    Unreadable { x: usize, z: usize, cause: fastanvil::Error },
    /// The chunk at `(x, z)` could not be decoded.
    Malformed { x: usize, z: usize, cause: fastnbt::error::Error },
}

/// The slot `(x, z)` of a container cannot be read.
pub open spec fn slot_unreadable(data: Seq<u8>, x: int, z: int) -> bool {
    !zero_length_slot(data, x, z) && stored_chunk(data, x, z) is None
}

/// These bytes are no chunk: they do not parse, or what they parse to does
/// not decode.
pub open spec fn no_chunk(bytes: Seq<u8>) -> bool {
    !nbt_sound(bytes) || chunk_header(bytes) is None
}

/// The slot `(x, z)` of a container holds a chunk that does not decode.
pub open spec fn slot_malformed(data: Seq<u8>, x: int, z: int) -> bool {
    &&& !zero_length_slot(data, x, z)
    &&& stored_chunk(data, x, z) matches Some(Some(bytes))
    &&& no_chunk(bytes)
}

/// Slot number `i`, counted row by row, fails the region.
pub open spec fn slot_fails(data: Seq<u8>, i: int) -> bool {
    ||| zero_length_slot(data, i % 32, i / 32)
    ||| slot_unreadable(data, i % 32, i / 32)
    ||| slot_malformed(data, i % 32, i / 32)
}

/// None of the first `n` slots fails the region.
pub open spec fn slots_sound(data: Seq<u8>, n: int) -> bool {
    forall|i: int| 0 <= i < n ==> !slot_fails(data, i)
}

/// `after` is what tallying a chunk with this status and these levels makes
/// of `before`: the tally of the blocks that `lookup` names on some chunk of
/// that status and those levels, or `before` itself where the chunk is
/// skipped for its status.
#[verifier::opaque]
pub open spec fn chunk_step<F: Fn(&JavaChunk, usize, isize, usize) -> Option<&str>>(
    lookup: F,
    before: Census,
    after: Census,
    world: Range<isize>,
    process_all_chunks: bool,
    status: Seq<char>,
    levels: (int, int),
) -> bool {
    if process_all_chunks || status == CHUNK_FULL@ {
        exists|chunk: JavaChunk, given: Answers|
            #![trigger chunk_status(chunk), names_of(given)]
            {
                &&& chunk_status(chunk) == status
                &&& chunk_levels(chunk) == levels
                &&& chunk_answers(lookup, &chunk, given, world, levels)
                &&& after == chunk_tally(before, world, levels, names_of(given))
            }
    } else {
        after == before
    }
}

/// `after` is what tallying the chunk of this header makes of `before`; with
/// no header there is no chunk, and nothing changes.
pub open spec fn header_step<F: Fn(&JavaChunk, usize, isize, usize) -> Option<&str>>(
    lookup: F,
    before: Census,
    after: Census,
    world: Range<isize>,
    process_all_chunks: bool,
    header: Option<(Seq<char>, (int, int))>,
) -> bool {
    match header {
        Some((status, levels)) => chunk_step(
            lookup,
            before,
            after,
            world,
            process_all_chunks,
            status,
            levels,
        ),
        None => after == before,
    }
}

/// `after` is what tallying slot number `i` of a container makes of
/// `before`. A slot without a chunk changes nothing.
pub open spec fn slot_step<F: Fn(&JavaChunk, usize, isize, usize) -> Option<&str>>(
    lookup: F,
    before: Census,
    after: Census,
    data: Seq<u8>,
    world: Range<isize>,
    process_all_chunks: bool,
    i: int,
) -> bool {
    match stored_chunk(data, i % 32, i / 32) {
        Some(Some(bytes)) => header_step(
            lookup,
            before,
            after,
            world,
            process_all_chunks,
            chunk_header(bytes),
        ),
        _ => after == before,
    }
}

/// `steps` holds the census before the first slot, which is empty, and after
/// each of the first `n` slots.
#[verifier::opaque]
pub open spec fn region_steps<F: Fn(&JavaChunk, usize, isize, usize) -> Option<&str>>(
    lookup: F,
    data: Seq<u8>,
    world: Range<isize>,
    process_all_chunks: bool,
    steps: Seq<Census>,
    n: int,
) -> bool {
    &&& steps.len() == n + 1
    &&& steps[0] == Map::<Seq<char>, Seq<int>>::empty()
    &&& forall|i: int|
        0 <= i < n ==> slot_step(
            lookup,
            #[trigger] steps[i],
            steps[i + 1],
            data,
            world,
            process_all_chunks,
            i,
        )
}

/// Tallies what was read from the slot `(x, z)` of a container.
///
/// A chunk is decoded and tallied as `count_chunk` says; a slot without a
/// chunk changes nothing. A read that failed, or a chunk that does not
/// parse or decode, is reported with the slot's position, and nothing is
/// counted. Every count must have room for one level's blocks:
/// `BlockCount::has_room` tests that with 256.
pub fn tally_slot<F: Fn(&JavaChunk, usize, isize, usize) -> Option<&str>>(
    region_counts: &mut BlockCount,
    x: usize,
    z: usize,
    read: Result<Option<Vec<u8>>, fastanvil::Error>,
    process_all_chunks: bool,
    lookup: &F,
) -> (r: Result<(), RegionError>)
    requires
        old(region_counts).wf(),
        bounded(old(region_counts)@, isize::MAX - 256),
        lookup_ready(*lookup),
    ensures
        final(region_counts).wf(),
        final(region_counts).y_range() == old(region_counts).y_range(),
        match read {
            Ok(Some(bytes)) => if no_chunk(bytes@) {
                &&& r matches Err(RegionError::Malformed { x: at_x, z: at_z, .. })
                &&& at_x == x
                &&& at_z == z
                &&& *final(region_counts) == *old(region_counts)
            } else {
                &&& r is Ok
                &&& header_step(
                    *lookup,
                    old(region_counts)@,
                    final(region_counts)@,
                    old(region_counts).y_range(),
                    process_all_chunks,
                    chunk_header(bytes@),
                )
            },
            Ok(None) => r is Ok && *final(region_counts) == *old(region_counts),
            Err(e) => {
                &&& r == Err::<(), RegionError>(RegionError::Unreadable { x, z, cause: e })
                &&& *final(region_counts) == *old(region_counts)
            },
        },
{
    proof {
        reveal(chunk_step);
    }
    match read {
        Ok(Some(data)) => {
            match check_nbt(data.as_slice()) {
                Ok(()) => {},
                Err(e) => {
                    return Err(RegionError::Malformed { x, z, cause: e });
                },
            }
            let chunk = match decode_chunk(data.as_slice()) {
                Ok(chunk) => chunk,
                Err(e) => {
                    return Err(RegionError::Malformed { x, z, cause: e });
                },
            };
            count_chunk(region_counts, &chunk, process_all_chunks, lookup);
            Ok(())
        },
        Ok(None) => Ok(()),
        Err(e) => Err(RegionError::Unreadable { x, z, cause: e }),
    }
}

/// Reads the slot `(x, z)` of a region and tallies what was read.
fn visit_slot<F: Fn(&JavaChunk, usize, isize, usize) -> Option<&str>>(
    region: &mut fastanvil::Region<std::io::Cursor<Vec<u8>>>,
    region_counts: &mut BlockCount,
    x: usize,
    z: usize,
    process_all_chunks: bool,
    lookup: &F,
) -> (r: Result<(), RegionError>)
    requires
        x < REGION_WIDTH,
        z < REGION_WIDTH,
        !zero_length_slot(region_data(*old(region)), x as int, z as int),
        old(region_counts).wf(),
        bounded(old(region_counts)@, isize::MAX - 256),
        lookup_ready(*lookup),
    ensures
        region_data(*final(region)) == region_data(*old(region)),
        final(region_counts).wf(),
        final(region_counts).y_range() == old(region_counts).y_range(),
        match r {
            Ok(()) => {
                &&& !slot_fails(region_data(*old(region)), 32 * z + x)
                &&& slot_step(
                    *lookup,
                    old(region_counts)@,
                    final(region_counts)@,
                    region_data(*old(region)),
                    old(region_counts).y_range(),
                    process_all_chunks,
                    32 * z + x,
                )
            },
            Err(RegionError::Unreadable { x: at_x, z: at_z, .. }) => at_x == x && at_z == z
                && slot_unreadable(region_data(*old(region)), x as int, z as int),
            Err(RegionError::Malformed { x: at_x, z: at_z, .. }) => at_x == x && at_z == z
                && slot_malformed(region_data(*old(region)), x as int, z as int),
            Err(_) => false,
        },
{
    let ghost i = 32 * z + x;
    assert(i % 32 == x && i / 32 == z);
    let read = read_chunk(region, x, z);
    tally_slot(region_counts, x, z, read, process_all_chunks, lookup)
}

/// Takes the census of one region from the bytes of its container.
///
/// The slots are visited row by row. Each chunk that the container holds is
/// decoded and tallied as `count_chunk` says, over the levels of
/// `world_y_coords`, with `lookup` to name the blocks of a chunk. The first
/// slot whose chunk gives zero as its length, cannot be read, or does not
/// decode, fails the whole region: no count of the region is handed out
/// then. A container too short for its table of locations fails at once.
#[verifier::rlimit(40)]
pub fn gather_region_stats<F: Fn(&JavaChunk, usize, isize, usize) -> Option<&str>>(
    region_bytes: Vec<u8>,
    world_y_coords: Range<isize>,
    process_all_chunks: bool,
    lookup: F,
) -> (r: Result<BlockCount, RegionError>)
    requires
        valid_y_range(world_y_coords),
        lookup_ready(lookup),
    ensures
        match r {
            Ok(region_counts) => {
                &&& region_bytes.len() >= LOCATIONS_SIZE
                &&& slots_sound(region_bytes@, 1024)
                &&& exists|steps: Seq<Census>|
                    #[trigger] region_steps(
                        lookup,
                        region_bytes@,
                        world_y_coords,
                        process_all_chunks,
                        steps,
                        1024,
                    ) && steps[1024] == region_counts@
                &&& region_counts.wf()
                &&& region_counts.y_range() == world_y_coords
                &&& bounded(region_counts@, REGION_LEVEL_AREA as int)
                &&& forall|name: Seq<char>|
                    ignored(name) ==> !#[trigger] region_counts@.contains_key(name)
            },
            Err(RegionError::Container(_)) => region_bytes.len() < LOCATIONS_SIZE,
            Err(RegionError::ZeroLength { x, z }) => {
                &&& region_bytes.len() >= LOCATIONS_SIZE
                &&& x < REGION_WIDTH
                &&& z < REGION_WIDTH
                &&& slots_sound(region_bytes@, 32 * z + x)
                &&& zero_length_slot(region_bytes@, x as int, z as int)
            },
            Err(RegionError::Unreadable { x, z, .. }) => {
                &&& region_bytes.len() >= LOCATIONS_SIZE
                &&& x < REGION_WIDTH
                &&& z < REGION_WIDTH
                &&& slots_sound(region_bytes@, 32 * z + x)
                &&& slot_unreadable(region_bytes@, x as int, z as int)
            },
            Err(RegionError::Malformed { x, z, .. }) => {
                &&& region_bytes.len() >= LOCATIONS_SIZE
                &&& x < REGION_WIDTH
                &&& z < REGION_WIDTH
                &&& slots_sound(region_bytes@, 32 * z + x)
                &&& slot_malformed(region_bytes@, x as int, z as int)
            },
        },
{
    let ghost data = region_bytes@;
    let first_zero = first_zero_length(&region_bytes);
    let mut region = match open_region(region_bytes) {
        Ok(region) => region,
        Err(e) => {
            return Err(RegionError::Container(e));
        },
    };
    let mut region_counts = BlockCount::new(&world_y_coords);
    let ghost mut steps: Seq<Census> = seq![region_counts@];
    proof {
        reveal(region_steps);
    }

    // process chunks in region file sequentially
    let mut z: usize = 0;
    while z < REGION_WIDTH
        invariant
            z <= REGION_WIDTH,
            data == region_bytes@,
            data.len() >= LOCATIONS_SIZE,
            region_data(region) == data,
            lookup_ready(lookup),
            match first_zero {
                Some(i) => i < 1024 && lengths_sound(data, i as int) && zero_length_slot(
                    data,
                    i as int % 32,
                    i as int / 32,
                ),
                None => lengths_sound(data, 1024),
            },
            first_zero matches Some(at) ==> 32 * z <= at,
            region_counts.wf(),
            region_counts.y_range() == world_y_coords,
            slots_sound(data, 32 * z),
            region_steps(lookup, data, world_y_coords, process_all_chunks, steps, 32 * z),
            steps.len() == 32 * z + 1,
            steps[32 * z] == region_counts@,
            bounded(region_counts@, 256 * (32 * z)),
            forall|name: Seq<char>| ignored(name) ==> !#[trigger] region_counts@.contains_key(name),
        decreases REGION_WIDTH - z,
    {
        let mut x: usize = 0;
        while x < REGION_WIDTH
            invariant
                z < REGION_WIDTH,
                x <= REGION_WIDTH,
                data == region_bytes@,
                data.len() >= LOCATIONS_SIZE,
                region_data(region) == data,
                lookup_ready(lookup),
                match first_zero {
                    Some(i) => i < 1024 && lengths_sound(data, i as int) && zero_length_slot(
                        data,
                        i as int % 32,
                        i as int / 32,
                    ),
                    None => lengths_sound(data, 1024),
                },
                first_zero matches Some(at) ==> 32 * z + x <= at,
                region_counts.wf(),
                region_counts.y_range() == world_y_coords,
                slots_sound(data, 32 * z + x),
                region_steps(lookup, data, world_y_coords, process_all_chunks, steps, 32 * z + x),
                steps.len() == 32 * z + x + 1,
                steps[32 * z + x] == region_counts@,
                bounded(region_counts@, 256 * (32 * z + x)),
                forall|name: Seq<char>|
                    ignored(name) ==> !#[trigger] region_counts@.contains_key(name),
            decreases REGION_WIDTH - x,
        {
            let ghost i = 32 * z + x;
            let ghost before = region_counts@;
            match first_zero {
                Some(at) => {
                    if at == 32 * z + x {
                        return Err(RegionError::ZeroLength { x, z });
                    }
                },
                None => {},
            }
            proof {
                assert(i % 32 == x && i / 32 == z);
                assert(!zero_length_slot(data, i % 32, i / 32));
                region_counts.lemma_wf();
            }
            match visit_slot(&mut region, &mut region_counts, x, z, process_all_chunks, &lookup) {
                Ok(()) => {},
                Err(e) => {
                    return Err(e);
                },
            }
            proof {
                lemma_slot_step_bounded(
                    lookup,
                    before,
                    region_counts@,
                    data,
                    world_y_coords,
                    process_all_chunks,
                    i,
                    256 * i,
                );
                lemma_steps_push(
                    lookup,
                    data,
                    world_y_coords,
                    process_all_chunks,
                    steps,
                    i,
                    region_counts@,
                );
                steps = steps.push(region_counts@);
            }
            x += 1;
        }
        z += 1;
    }
    Ok(region_counts)
}

/// One more slot's step makes the steps one longer.
pub proof fn lemma_steps_push<F: Fn(&JavaChunk, usize, isize, usize) -> Option<&str>>(
    lookup: F,
    data: Seq<u8>,
    world: Range<isize>,
    process_all_chunks: bool,
    steps: Seq<Census>,
    n: int,
    after: Census,
)
    requires
        0 <= n,
        region_steps(lookup, data, world, process_all_chunks, steps, n),
        steps.len() == n + 1,
        slot_step(lookup, steps[n], after, data, world, process_all_chunks, n),
    ensures
        region_steps(lookup, data, world, process_all_chunks, steps.push(after), n + 1),
        steps.push(after).len() == n + 2,
        steps.push(after)[n + 1] == after,
{
    reveal(region_steps);
    let more = steps.push(after);
    assert forall|i: int| 0 <= i < n + 1 implies slot_step(
        lookup,
        #[trigger] more[i],
        more[i + 1],
        data,
        world,
        process_all_chunks,
        i,
    ) by {
        if i < n {
            assert(slot_step(
                lookup,
                steps[i],
                steps[i + 1],
                data,
                world,
                process_all_chunks,
                i,
            ));
        }
    }
}

/// A chunk that is skipped for its status, or whose levels share none with
/// the world's range, causes no change.
pub proof fn lemma_chunk_step_idle<F: Fn(&JavaChunk, usize, isize, usize) -> Option<&str>>(
    lookup: F,
    before: Census,
    after: Census,
    world: Range<isize>,
    process_all_chunks: bool,
    status: Seq<char>,
    levels: (int, int),
)
    requires
        shaped(before, y_len(world)),
        chunk_step(lookup, before, after, world, process_all_chunks, status, levels),
        (!process_all_chunks && status != CHUNK_FULL@) || forall|y: int| !#[trigger] tallied_level(
            world,
            levels,
            y,
        ),
    ensures
        after == before,
{
    reveal(chunk_step);
    if process_all_chunks || status == CHUNK_FULL@ {
        let (chunk, given) = choose|chunk: JavaChunk, given: Answers|
            #![trigger chunk_status(chunk), names_of(given)]
            {
                &&& chunk_status(chunk) == status
                &&& chunk_levels(chunk) == levels
                &&& chunk_answers(lookup, &chunk, given, world, levels)
                &&& after == chunk_tally(before, world, levels, names_of(given))
            };
        lemma_no_shared_level(before, world, levels, names_of(given));
    }
}

/// Slot number `i` holds no chunk, or a chunk that is skipped for its
/// status, or one whose levels share none with the world's range.
pub open spec fn slot_idle(data: Seq<u8>, world: Range<isize>, process_all_chunks: bool, i: int)
    -> bool {
    match stored_chunk(data, i % 32, i / 32) {
        Some(Some(bytes)) => match chunk_header(bytes) {
            Some((status, levels)) => (!process_all_chunks && status != CHUNK_FULL@)
                || forall|y: int| !#[trigger] tallied_level(world, levels, y),
            None => true,
        },
        _ => true,
    }
}

/// An idle slot causes no change.
pub proof fn lemma_slot_step_idle<F: Fn(&JavaChunk, usize, isize, usize) -> Option<&str>>(
    lookup: F,
    before: Census,
    after: Census,
    data: Seq<u8>,
    world: Range<isize>,
    process_all_chunks: bool,
    i: int,
)
    requires
        shaped(before, y_len(world)),
        slot_step(lookup, before, after, data, world, process_all_chunks, i),
        slot_idle(data, world, process_all_chunks, i),
    ensures
        after == before,
{
    if after != before {
        let bytes = stored_chunk(data, i % 32, i / 32)->0->0;
        let (status, levels) = chunk_header(bytes)->0;
        lemma_chunk_step_idle(lookup, before, after, world, process_all_chunks, status, levels);
    }
}

/// A region whose first `n` slots are all idle has an empty census after
/// each of them: where no chunk is full and none is asked for otherwise,
/// nothing is counted.
pub proof fn lemma_region_idle<F: Fn(&JavaChunk, usize, isize, usize) -> Option<&str>>(
    lookup: F,
    data: Seq<u8>,
    world: Range<isize>,
    process_all_chunks: bool,
    steps: Seq<Census>,
    n: int,
    k: int,
)
    requires
        0 <= k <= n,
        region_steps(lookup, data, world, process_all_chunks, steps, n),
        forall|i: int| 0 <= i < n ==> #[trigger] slot_idle(data, world, process_all_chunks, i),
    ensures
        steps[k] == Map::<Seq<char>, Seq<int>>::empty(),
    decreases k,
{
    reveal(region_steps);
    if k > 0 {
        lemma_region_idle(lookup, data, world, process_all_chunks, steps, n, k - 1);
        assert(slot_idle(data, world, process_all_chunks, k - 1));
        assert(slot_step(
            lookup,
            steps[k - 1],
            steps[k - 1 + 1],
            data,
            world,
            process_all_chunks,
            k - 1,
        ));
        lemma_slot_step_idle(
            lookup,
            steps[k - 1],
            steps[k],
            data,
            world,
            process_all_chunks,
            k - 1,
        );
    }
}

/// A slot's step drops no name and lowers no count: whether or not chunks
/// are skipped for their status, what was counted stays counted.
pub proof fn lemma_slot_step_grows<F: Fn(&JavaChunk, usize, isize, usize) -> Option<&str>>(
    lookup: F,
    before: Census,
    after: Census,
    data: Seq<u8>,
    world: Range<isize>,
    process_all_chunks: bool,
    i: int,
)
    requires
        shaped(before, y_len(world)),
        slot_step(lookup, before, after, data, world, process_all_chunks, i),
    ensures
        forall|k: Seq<char>| #[trigger] before.contains_key(k) ==> after.contains_key(k),
        forall|k: Seq<char>, j: int|
            before.contains_key(k) && 0 <= j < y_len(world) ==> (#[trigger] before[k][j])
                <= after[k][j],
{
    reveal(chunk_step);
    if after != before {
        let bytes = stored_chunk(data, i % 32, i / 32)->0->0;
        let (status, levels) = chunk_header(bytes)->0;
        let (chunk, given) = choose|chunk: JavaChunk, given: Answers|
            #![trigger chunk_status(chunk), names_of(given)]
            {
                &&& chunk_status(chunk) == status
                &&& chunk_levels(chunk) == levels
                &&& chunk_answers(lookup, &chunk, given, world, levels)
                &&& after == chunk_tally(before, world, levels, names_of(given))
            };
        lemma_chunk_tally_grows(before, world, levels, names_of(given));
    }
}

/// A slot's step keeps the shape of the census, raises no count by more
/// than the number of positions on a level, and brings in no ignored name.
pub proof fn lemma_slot_step_bounded<F: Fn(&JavaChunk, usize, isize, usize) -> Option<&str>>(
    lookup: F,
    before: Census,
    after: Census,
    data: Seq<u8>,
    world: Range<isize>,
    process_all_chunks: bool,
    i: int,
    limit: int,
)
    requires
        shaped(before, y_len(world)),
        bounded(before, limit),
        0 <= limit,
        slot_step(lookup, before, after, data, world, process_all_chunks, i),
    ensures
        shaped(after, y_len(world)),
        bounded(after, limit + 256),
        forall|name: Seq<char>|
            ignored(name) && !before.contains_key(name) ==> !#[trigger] after.contains_key(name),
{
    reveal(chunk_step);
    if after != before {
        let bytes = stored_chunk(data, i % 32, i / 32)->0->0;
        let (status, levels) = chunk_header(bytes)->0;
        let (chunk, given) = choose|chunk: JavaChunk, given: Answers|
            #![trigger chunk_status(chunk), names_of(given)]
            {
                &&& chunk_status(chunk) == status
                &&& chunk_levels(chunk) == levels
                &&& chunk_answers(lookup, &chunk, given, world, levels)
                &&& after == chunk_tally(before, world, levels, names_of(given))
            };
        lemma_chunk_tally_bounded(before, world, levels, names_of(given), limit);
    }
}

} // verus!
