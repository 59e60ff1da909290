//! Tallying one chunk: every block of the chunk that lies in the world's
//! range of levels and is not of an ignored type is counted once. The
//! blocks are named by a lookup that the caller hands in; what is proved
//! holds of the answers that the lookup gives.

use crate::anvil::{chunk_levels, chunk_status, status_of, y_range_of};
use crate::block_count::BlockCount;
use crate::census::{bounded, counted, row_or_zeros, shaped, Census};
use crate::names::same_name;
use crate::y_range::{range_intersect, y_len, y_within};
use fastanvil::JavaChunk;
use std::ops::Range;
use vstd::prelude::*;

verus! {

/// The status of a chunk that has been generated in full.
pub const CHUNK_FULL: &'static str = "full";

/// Air, which is never counted.
pub const AIR: &'static str = "minecraft:air";

/// The air of caves, which is never counted either.
pub const CAVE_AIR: &'static str = "minecraft:cave_air";

/// The names of the blocks of a chunk by position `(x, y, z)`.
pub type Blocks = Map<(int, int, int), Seq<char>>;

/// Whether blocks of this type are left out of the census.
pub open spec fn ignored(name: Seq<char>) -> bool {
    name == AIR@ || name == CAVE_AIR@
}

/// Position `p` of level `y`, counted row by row, holds a block named `name`.
pub open spec fn named_at(blocks: Blocks, name: Seq<char>, y: int, p: int) -> bool {
    blocks.contains_key((p / 16, y, p % 16)) && blocks[(p / 16, y, p % 16)] == name
}

/// How many of the first `n` positions of level `y` hold a block named
/// `name`.
pub open spec fn occurrences(blocks: Blocks, name: Seq<char>, y: int, n: nat) -> nat
    decreases n,
{
    if n == 0 {
        0
    } else {
        occurrences(blocks, name, y, (n - 1) as nat) + if named_at(blocks, name, y, n - 1) {
            1nat
        } else {
            0nat
        }
    }
}

/// Level `y` is tallied: it lies in the world's range and in the chunk's.
pub open spec fn tallied_level(world: Range<isize>, levels: (int, int), y: int) -> bool {
    y_within(world, y) && levels.0 <= y < levels.1
}

/// The census `m` after a chunk has been tallied into it.
///
/// A name is held if `m` held it or a block of that name, not ignored, lies
/// on a tallied level. Each count has grown by the number of blocks of that
/// name on that level.
pub open spec fn chunk_tally(m: Census, world: Range<isize>, levels: (int, int), blocks: Blocks)
    -> Census {
    Map::new(
        |k: Seq<char>|
            m.contains_key(k) || (!ignored(k) && exists|y: int, p: int|
                tallied_level(world, levels, y) && 0 <= p < 256 && #[trigger] named_at(
                    blocks,
                    k,
                    y,
                    p,
                )),
        |k: Seq<char>|
            Seq::new(
                y_len(world),
                |i: int|
                    row_or_zeros(m, y_len(world), k)[i] + if !ignored(k) && tallied_level(
                        world,
                        levels,
                        world.start + i,
                    ) {
                        occurrences(blocks, k, world.start + i, 256)
                    } else {
                        0
                    },
            ),
    )
}

/// What was answered when the positions of a chunk were asked for their
/// blocks: the name of a block, or `None` for a hole.
pub type Answers<'a> = Map<(int, int, int), Option<&'a str>>;

/// The blocks that the answers name.
pub open spec fn names_of(given: Answers) -> Blocks {
    Map::new(
        |pos: (int, int, int)| given.contains_key(pos) && given[pos] is Some,
        |pos: (int, int, int)| given[pos]->0@,
    )
}

/// `lookup` may be asked for any position within a chunk, on any level.
#[verifier::opaque]
pub open spec fn lookup_ready<F: Fn(&JavaChunk, usize, isize, usize) -> Option<&str>>(
    lookup: F,
) -> bool {
    forall|c: &JavaChunk, x: usize, y: isize, z: usize|
        x < 16 && z < 16 ==> call_requires(lookup, (c, x, y, z))
}

/// `given` holds, for each position of each tallied level, an answer that
/// `lookup` can give for it on `chunk`.
pub open spec fn chunk_answers<F: Fn(&JavaChunk, usize, isize, usize) -> Option<&str>>(
    lookup: F,
    chunk: &JavaChunk,
    given: Answers,
    world: Range<isize>,
    levels: (int, int),
) -> bool {
    &&& forall|x: int, y: int, z: int|
        0 <= x < 16 && 0 <= z < 16 && tallied_level(world, levels, y)
            ==> #[trigger] given.contains_key((x, y, z))
    &&& forall|x: int, y: int, z: int| #[trigger]
        given.contains_key((x, y, z)) && 0 <= x < 16 && 0 <= z < 16 && tallied_level(
            world,
            levels,
            y,
        ) ==> call_ensures(
            lookup,
            (chunk, x as usize, y as isize, z as usize),
            given[(x, y, z)],
        )
}

/// How many positions of level `y` have been visited when the levels from
/// `lo` up to `y_now` are done and `n` positions of level `y_now`.
spec fn visited(lo: int, y_now: int, n: nat, y: int) -> nat {
    if lo <= y < y_now {
        256
    } else if y == y_now {
        n
    } else {
        0
    }
}

/// The census `m` after the visited part of a chunk has been tallied.
spec fn tally_to(m: Census, world: Range<isize>, blocks: Blocks, lo: int, y_now: int, n: nat)
    -> Census {
    Map::new(
        |k: Seq<char>|
            m.contains_key(k) || (!ignored(k) && exists|y: int, p: int|
                0 <= p < visited(lo, y_now, n, y) && #[trigger] named_at(blocks, k, y, p)),
        |k: Seq<char>|
            Seq::new(
                y_len(world),
                |i: int|
                    row_or_zeros(m, y_len(world), k)[i] + if ignored(k) {
                        0
                    } else {
                        occurrences(
                            blocks,
                            k,
                            world.start + i,
                            visited(lo, y_now, n, world.start + i),
                        )
                    },
            ),
    )
}

/// Among `n` positions a name occurs at most `n` times.
pub proof fn lemma_occurrences_bound(blocks: Blocks, name: Seq<char>, y: int, n: nat)
    ensures
        occurrences(blocks, name, y, n) <= n,
    decreases n,
{
    if n > 0 {
        lemma_occurrences_bound(blocks, name, y, (n - 1) as nat);
    }
}

/// A name that is at none of the first `n` positions occurs zero times among
/// them.
proof fn lemma_occurrences_none(blocks: Blocks, name: Seq<char>, y: int, n: nat)
    requires
        forall|p: int| 0 <= p < n ==> !named_at(blocks, name, y, p),
    ensures
        occurrences(blocks, name, y, n) == 0,
    decreases n,
{
    if n > 0 {
        lemma_occurrences_none(blocks, name, y, (n - 1) as nat);
    }
}

/// Two chunks that agree on the first `n` positions of a level agree on how
/// often a name occurs among them.
proof fn lemma_occurrences_frame(a: Blocks, b: Blocks, name: Seq<char>, y: int, n: nat)
    requires
        forall|p: int| 0 <= p < n ==> named_at(a, name, y, p) == named_at(b, name, y, p),
    ensures
        occurrences(a, name, y, n) == occurrences(b, name, y, n),
    decreases n,
{
    if n > 0 {
        lemma_occurrences_frame(a, b, name, y, (n - 1) as nat);
    }
}

/// The tally looks at visited positions only: a block at the position that
/// comes next does not change it.
proof fn lemma_tally_frame(
    m: Census,
    world: Range<isize>,
    blocks: Blocks,
    lo: int,
    y: int,
    n: nat,
    name: Seq<char>,
)
    requires
        lo <= y,
        n < 256,
    ensures
        tally_to(m, world, blocks.insert((n as int / 16, y, n as int % 16), name), lo, y, n)
            == tally_to(m, world, blocks, lo, y, n),
{
    let more = blocks.insert((n as int / 16, y, n as int % 16), name);
    let a = tally_to(m, world, more, lo, y, n);
    let b = tally_to(m, world, blocks, lo, y, n);
    assert forall|k: Seq<char>| a.contains_key(k) == b.contains_key(k) by {
        if a.contains_key(k) && !m.contains_key(k) {
            let (v, p) = choose|v: int, p: int|
                0 <= p < visited(lo, y, n, v) && #[trigger] named_at(more, k, v, p);
            assert(named_at(blocks, k, v, p));
        }
        if b.contains_key(k) && !m.contains_key(k) {
            let (v, p) = choose|v: int, p: int|
                0 <= p < visited(lo, y, n, v) && #[trigger] named_at(blocks, k, v, p);
            assert(named_at(more, k, v, p));
        }
    }
    assert forall|k: Seq<char>| a.contains_key(k) implies #[trigger] a[k] == b[k] by {
        assert forall|i: int| 0 <= i < y_len(world) implies a[k][i] == b[k][i] by {
            let v = world.start + i;
            lemma_occurrences_frame(more, blocks, k, v, visited(lo, y, n, v));
        }
    }
}

/// Before any position is visited the census is unchanged.
proof fn lemma_tally_start(m: Census, world: Range<isize>, blocks: Blocks, lo: int)
    requires
        shaped(m, y_len(world)),
    ensures
        tally_to(m, world, blocks, lo, lo, 0) == m,
{
    let t = tally_to(m, world, blocks, lo, lo, 0);
    assert forall|k: Seq<char>| m.contains_key(k) implies #[trigger] t[k] == m[k] by {}
}

/// A level whose positions are all visited counts as done.
proof fn lemma_tally_next_level(m: Census, world: Range<isize>, blocks: Blocks, lo: int, y: int)
    requires
        lo <= y,
    ensures
        tally_to(m, world, blocks, lo, y, 256) == tally_to(m, world, blocks, lo, y + 1, 0),
{
    let a = tally_to(m, world, blocks, lo, y, 256);
    let b = tally_to(m, world, blocks, lo, y + 1, 0);
    assert forall|k: Seq<char>| a.contains_key(k) implies #[trigger] a[k] == b[k] by {}
}

/// Visiting one more position: a block there that is not ignored is counted
/// once, and nothing else changes.
proof fn lemma_tally_step(
    m: Census,
    world: Range<isize>,
    blocks: Blocks,
    lo: int,
    y: int,
    n: nat,
)
    requires
        shaped(m, y_len(world)),
        lo <= y,
        y_within(world, y),
        n < 256,
    ensures
        ({
            let pos = (n as int / 16, y, n as int % 16);
            let before = tally_to(m, world, blocks, lo, y, n);
            let after = tally_to(m, world, blocks, lo, y, n + 1);
            if blocks.contains_key(pos) && !ignored(blocks[pos]) {
                after == counted(before, y_len(world), y - world.start, blocks[pos])
            } else {
                after == before
            }
        }),
{
    let pos = (n as int / 16, y, n as int % 16);
    let before = tally_to(m, world, blocks, lo, y, n);
    let after = tally_to(m, world, blocks, lo, y, n + 1);
    let hit = blocks.contains_key(pos) && !ignored(blocks[pos]);
    let goal = if hit {
        counted(before, y_len(world), y - world.start, blocks[pos])
    } else {
        before
    };
    assert forall|k: Seq<char>| after.contains_key(k) == goal.contains_key(k) by {
        if goal.contains_key(k) && !m.contains_key(k) {
            if hit && k == blocks[pos] {
                assert(0 <= n < visited(lo, y, n + 1, y) && named_at(blocks, k, y, n as int));
            }
        }
    }
    assert forall|k: Seq<char>| after.contains_key(k) implies #[trigger] after[k] == goal[k] by {
        assert forall|i: int| 0 <= i < y_len(world) implies after[k][i] == goal[k][i] by {
            let v = world.start + i;
            if !before.contains_key(k) {
                lemma_occurrences_none(blocks, k, v, visited(lo, y, n, v));
            }
        }
    }
}

/// When every level of the intersection is done, the chunk is tallied.
proof fn lemma_tally_done(m: Census, world: Range<isize>, levels: (int, int), blocks: Blocks)
    ensures
        ({
            let lo = if world.start > levels.0 { world.start as int } else { levels.0 };
            let hi = if world.end < levels.1 { world.end as int } else { levels.1 };
            tally_to(m, world, blocks, lo, if lo <= hi { hi } else { lo }, 0) == chunk_tally(
                m,
                world,
                levels,
                blocks,
            )
        }),
{
    let lo = if world.start > levels.0 { world.start as int } else { levels.0 };
    let hi = if world.end < levels.1 { world.end as int } else { levels.1 };
    let top = if lo <= hi { hi } else { lo };
    let a = tally_to(m, world, blocks, lo, top, 0);
    let b = chunk_tally(m, world, levels, blocks);
    assert forall|k: Seq<char>| a.contains_key(k) implies #[trigger] a[k] == b[k] by {}
}

/// Tallying a chunk keeps the shape of the census and raises no count by
/// more than the number of positions on a level.
pub proof fn lemma_chunk_tally_bounded(
    m: Census,
    world: Range<isize>,
    levels: (int, int),
    blocks: Blocks,
    limit: int,
)
    requires
        shaped(m, y_len(world)),
        bounded(m, limit),
        0 <= limit,
    ensures
        shaped(chunk_tally(m, world, levels, blocks), y_len(world)),
        bounded(chunk_tally(m, world, levels, blocks), limit + 256),
{
    let t = chunk_tally(m, world, levels, blocks);
    assert forall|k: Seq<char>, i: int|
        t.contains_key(k) && 0 <= i < t[k].len() implies #[trigger] t[k][i] <= limit + 256 by {
        lemma_occurrences_bound(blocks, k, world.start + i, 256);
    }
}

/// A block of an ignored type is never counted, on whatever level it lies:
/// tallying a chunk neither brings in an ignored name nor changes its row.
pub proof fn lemma_ignored_never_counted(
    m: Census,
    world: Range<isize>,
    levels: (int, int),
    blocks: Blocks,
    name: Seq<char>,
)
    requires
        shaped(m, y_len(world)),
        ignored(name),
    ensures
        chunk_tally(m, world, levels, blocks).contains_key(name) == m.contains_key(name),
        m.contains_key(name) ==> chunk_tally(m, world, levels, blocks)[name] == m[name],
{
}

/// The blocks without those of an ignored type: a hole stands in the place
/// of each.
pub open spec fn without_ignored(blocks: Blocks) -> Blocks {
    Map::new(
        |pos: (int, int, int)| blocks.contains_key(pos) && !ignored(blocks[pos]),
        |pos: (int, int, int)| blocks[pos],
    )
}

/// An ignored block counts like a hole: the tally of a chunk is the tally of
/// the chunk with a hole in the place of each ignored block.
pub proof fn lemma_ignored_like_hole(
    m: Census,
    world: Range<isize>,
    levels: (int, int),
    blocks: Blocks,
)
    ensures
        chunk_tally(m, world, levels, blocks) == chunk_tally(
            m,
            world,
            levels,
            without_ignored(blocks),
        ),
{
    let holes = without_ignored(blocks);
    let a = chunk_tally(m, world, levels, blocks);
    let b = chunk_tally(m, world, levels, holes);
    assert forall|k: Seq<char>, y: int, p: int| !ignored(k) implies named_at(blocks, k, y, p)
        == #[trigger] named_at(holes, k, y, p) by {}
    assert forall|k: Seq<char>| a.contains_key(k) == b.contains_key(k) by {
        if a.contains_key(k) && !m.contains_key(k) {
            let (y, p) = choose|y: int, p: int|
                tallied_level(world, levels, y) && 0 <= p < 256 && #[trigger] named_at(
                    blocks,
                    k,
                    y,
                    p,
                );
            assert(named_at(holes, k, y, p));
        }
        if b.contains_key(k) && !m.contains_key(k) {
            let (y, p) = choose|y: int, p: int|
                tallied_level(world, levels, y) && 0 <= p < 256 && #[trigger] named_at(
                    holes,
                    k,
                    y,
                    p,
                );
            assert(named_at(blocks, k, y, p));
        }
    }
    assert forall|k: Seq<char>| a.contains_key(k) implies #[trigger] a[k] == b[k] by {
        assert forall|i: int| 0 <= i < y_len(world) implies a[k][i] == b[k][i] by {
            if !ignored(k) {
                lemma_occurrences_frame(blocks, holes, k, world.start + i, 256);
            }
        }
    }
}

/// A chunk whose levels share none with the world's range adds nothing.
pub proof fn lemma_no_shared_level(
    m: Census,
    world: Range<isize>,
    levels: (int, int),
    blocks: Blocks,
)
    requires
        shaped(m, y_len(world)),
        forall|y: int| !#[trigger] tallied_level(world, levels, y),
    ensures
        chunk_tally(m, world, levels, blocks) == m,
{
    let t = chunk_tally(m, world, levels, blocks);
    assert forall|k: Seq<char>| m.contains_key(k) implies #[trigger] t[k] == m[k] by {
        assert forall|i: int| 0 <= i < y_len(world) implies t[k][i] == m[k][i] by {
            assert(!tallied_level(world, levels, world.start + i));
        }
    }
}

/// Tallying a chunk drops no name and lowers no count.
pub proof fn lemma_chunk_tally_grows(
    m: Census,
    world: Range<isize>,
    levels: (int, int),
    blocks: Blocks,
)
    requires
        shaped(m, y_len(world)),
    ensures
        forall|k: Seq<char>| #[trigger]
            m.contains_key(k) ==> chunk_tally(m, world, levels, blocks).contains_key(k),
        forall|k: Seq<char>, i: int|
            m.contains_key(k) && 0 <= i < y_len(world) ==> (#[trigger] m[k][i]) <= chunk_tally(
                m,
                world,
                levels,
                blocks,
            )[k][i],
{
}

/// Whether blocks of this type are left out of the census.
pub fn is_ignored(name: &str) -> (b: bool)
    ensures
        b == ignored(name@),
{
    same_name(name, AIR) || same_name(name, CAVE_AIR)
}

/// Whether a chunk of this status is tallied: every chunk is where
/// `process_all_chunks` is set, else only one whose status is `CHUNK_FULL`,
/// letter for letter.
pub fn wants_chunk(process_all_chunks: bool, status: &str) -> (b: bool)
    ensures
        b == (process_all_chunks || status@ == CHUNK_FULL@),
{
    process_all_chunks || same_name(status, CHUNK_FULL)
}

/// Tallies what one position of level `y_coord` holds: a block is counted
/// once unless its type is ignored, and a hole is passed over.
pub fn tally_block(acc: &mut BlockCount, y_coord: isize, block: Option<&str>)
    requires
        old(acc).wf(),
        y_within(old(acc).y_range(), y_coord as int),
        block matches Some(name) ==> !ignored(name@) ==> row_or_zeros(
            old(acc)@,
            old(acc).levels(),
            name@,
        )[y_coord - old(acc).y_range().start] < isize::MAX,
    ensures
        final(acc).wf(),
        final(acc).y_range() == old(acc).y_range(),
        final(acc)@ == match block {
            Some(name) => if ignored(name@) {
                old(acc)@
            } else {
                counted(
                    old(acc)@,
                    old(acc).levels(),
                    y_coord - old(acc).y_range().start,
                    name@,
                )
            },
            None => old(acc)@,
        },
{
    match block {
        Some(block_type) => {
            // skip blocks that we're not interested in
            if !is_ignored(block_type) {
                acc.count_block(y_coord, block_type);
            }
        },
        None => {},
    }
}

/// Tallies the blocks of `chunk`, taken as a column, 16 by 16 wide, that
/// spans `levels`.
///
/// Each position on a level that lies both in the accumulator's range and in
/// `levels` is looked up once, level by level. The census becomes the tally
/// of the blocks that the lookup named: each is counted once, but for the
/// ignored types. Every count must have room for one level's blocks:
/// `BlockCount::has_room` tests that with 256.
pub fn tally_levels<F: Fn(&JavaChunk, usize, isize, usize) -> Option<&str>>(
    acc: &mut BlockCount,
    levels: &Range<isize>,
    chunk: &JavaChunk,
    lookup: &F,
)
    requires
        old(acc).wf(),
        bounded(old(acc)@, isize::MAX - 256),
        lookup_ready(*lookup),
    ensures
        final(acc).wf(),
        final(acc).y_range() == old(acc).y_range(),
        exists|given: Answers|
            chunk_answers(
                *lookup,
                chunk,
                given,
                old(acc).y_range(),
                (levels.start as int, levels.end as int),
            ) && final(acc)@ == chunk_tally(
                old(acc)@,
                old(acc).y_range(),
                (levels.start as int, levels.end as int),
                #[trigger] names_of(given),
            ),
{
    // only process Y coordinates that are within range
    let world = acc.world_y_range();
    let y_range = range_intersect(&world, levels);
    let ghost m = acc@;
    let ghost lo = y_range.start as int;
    let ghost mut given: Answers = Map::empty();
    proof {
        reveal(lookup_ready);
        acc.lemma_wf();
        lemma_tally_start(m, world, names_of(given), lo);
    }
    let mut chunk_y: isize = y_range.start;
    while chunk_y < y_range.end
        invariant
            acc.wf(),
            acc.y_range() == world,
            shaped(m, y_len(world)),
            bounded(m, isize::MAX - 256),
            forall|c: &JavaChunk, x: usize, y: isize, z: usize|
                x < 16 && z < 16 ==> call_requires(*lookup, (c, x, y, z)),
            lo == y_range.start,
            world.start <= lo,
            y_range.end <= world.end || y_range.end == lo,
            lo <= chunk_y,
            chunk_y <= y_range.end || chunk_y == lo,
            forall|x: int, v: int, z: int| #[trigger]
                given.contains_key((x, v, z)) <==> 0 <= x < 16 && 0 <= z < 16 && lo <= v
                    < chunk_y,
            forall|x: int, v: int, z: int| #[trigger]
                given.contains_key((x, v, z)) ==> call_ensures(
                    *lookup,
                    (chunk, x as usize, v as isize, z as usize),
                    given[(x, v, z)],
                ),
            acc@ == tally_to(m, world, names_of(given), lo, chunk_y as int, 0),
        decreases y_range.end - chunk_y,
    {
        let mut chunk_x: usize = 0;
        while chunk_x < 16
            invariant
                chunk_x <= 16,
                acc.wf(),
                acc.y_range() == world,
                shaped(m, y_len(world)),
                bounded(m, isize::MAX - 256),
                forall|c: &JavaChunk, x: usize, y: isize, z: usize|
                    x < 16 && z < 16 ==> call_requires(*lookup, (c, x, y, z)),
                lo <= chunk_y < y_range.end <= world.end,
                world.start <= lo,
                forall|x: int, v: int, z: int| #[trigger]
                    given.contains_key((x, v, z)) <==> 0 <= x < 16 && 0 <= z < 16 && (lo <= v
                        < chunk_y || (v == chunk_y && x < chunk_x)),
                forall|x: int, v: int, z: int| #[trigger]
                    given.contains_key((x, v, z)) ==> call_ensures(
                        *lookup,
                        (chunk, x as usize, v as isize, z as usize),
                        given[(x, v, z)],
                    ),
                acc@ == tally_to(
                    m,
                    world,
                    names_of(given),
                    lo,
                    chunk_y as int,
                    (16 * chunk_x) as nat,
                ),
            decreases 16 - chunk_x,
        {
            let mut chunk_z: usize = 0;
            while chunk_z < 16
                invariant
                    chunk_x < 16,
                    chunk_z <= 16,
                    acc.wf(),
                    acc.y_range() == world,
                    shaped(m, y_len(world)),
                    bounded(m, isize::MAX - 256),
                    forall|c: &JavaChunk, x: usize, y: isize, z: usize|
                        x < 16 && z < 16 ==> call_requires(*lookup, (c, x, y, z)),
                    lo <= chunk_y < y_range.end <= world.end,
                    world.start <= lo,
                    forall|x: int, v: int, z: int| #[trigger]
                        given.contains_key((x, v, z)) <==> 0 <= x < 16 && 0 <= z < 16 && (lo <= v
                            < chunk_y || (v == chunk_y && 16 * x + z < 16 * chunk_x + chunk_z)),
                    forall|x: int, v: int, z: int| #[trigger]
                        given.contains_key((x, v, z)) ==> call_ensures(
                            *lookup,
                            (chunk, x as usize, v as isize, z as usize),
                            given[(x, v, z)],
                        ),
                    acc@ == tally_to(
                        m,
                        world,
                        names_of(given),
                        lo,
                        chunk_y as int,
                        (16 * chunk_x + chunk_z) as nat,
                    ),
                decreases 16 - chunk_z,
            {
                let ghost n = (16 * chunk_x + chunk_z) as nat;
                let ghost pos = (chunk_x as int, chunk_y as int, chunk_z as int);
                let ghost blocks = names_of(given);
                let block = lookup(chunk, chunk_x, chunk_y, chunk_z);
                proof {
                    given = given.insert(pos, block);
                    if let Some(block_type) = block {
                        lemma_tally_frame(m, world, blocks, lo, chunk_y as int, n, block_type@);
                        assert(names_of(given) =~= blocks.insert(pos, block_type@));
                        lemma_occurrences_bound(
                            names_of(given),
                            block_type@,
                            chunk_y as int,
                            n,
                        );
                    } else {
                        assert(names_of(given) =~= blocks);
                    }
                    lemma_tally_step(m, world, names_of(given), lo, chunk_y as int, n);
                }
                tally_block(acc, chunk_y, block);
                chunk_z += 1;
            }
            chunk_x += 1;
        }
        proof {
            lemma_tally_next_level(m, world, names_of(given), lo, chunk_y as int);
        }
        chunk_y += 1;
    }
    proof {
        lemma_tally_done(m, world, (levels.start as int, levels.end as int), names_of(given));
        let span = (levels.start as int, levels.end as int);
        assert(chunk_answers(*lookup, chunk, given, world, span));
    }
}

/// Tallies one chunk into `acc`.
///
/// Unless `process_all_chunks` is set, a chunk whose status is not
/// `CHUNK_FULL` is skipped: nothing changes. Otherwise `lookup` is asked for
/// the block at each position of the chunk as `tally_levels` says, and the
/// census becomes the tally of the blocks that it named. Every count must
/// have room for one level's blocks: `BlockCount::has_room` tests that with
/// 256.
pub fn count_chunk<F: Fn(&JavaChunk, usize, isize, usize) -> Option<&str>>(
    acc: &mut BlockCount,
    chunk: &JavaChunk,
    process_all_chunks: bool,
    lookup: &F,
)
    requires
        old(acc).wf(),
        bounded(old(acc)@, isize::MAX - 256),
        lookup_ready(*lookup),
    ensures
        final(acc).wf(),
        final(acc).y_range() == old(acc).y_range(),
        if process_all_chunks || chunk_status(*chunk) == CHUNK_FULL@ {
            exists|given: Answers|
                chunk_answers(
                    *lookup,
                    chunk,
                    given,
                    old(acc).y_range(),
                    chunk_levels(*chunk),
                ) && final(acc)@ == chunk_tally(
                    old(acc)@,
                    old(acc).y_range(),
                    chunk_levels(*chunk),
                    #[trigger] names_of(given),
                )
        } else {
            final(acc)@ == old(acc)@
        },
{
    // skip incomplete chunks
    let status = status_of(chunk);
    if !wants_chunk(process_all_chunks, status.as_str()) {
        return;
    }
    let levels = y_range_of(chunk);
    tally_levels(acc, &levels, chunk, lookup);
}

} // verus!
