//! The region container and the chunk decoder, as far as the census calls
//! them. Nothing in this file is proved: each contract states what the
//! decoder's source shows.
//!
//! Asking a chunk for a block is not among these calls. The decoder does not
//! hold a chunk's packed data against its palette, and for the format of
//! versions 1.13 to 1.17 it shows that data through no accessor, so nothing
//! here could tell the chunks on which the query returns from those on which
//! it does not. The census takes the query as a lookup from its caller.

use fastanvil::JavaChunk;
use fastanvil::Region;
use crate::container::{zero_length_slot, LOCATIONS_SIZE};
use std::io::Cursor;
use std::ops::Range;
use vstd::prelude::*;

verus! {

/// A region container over a stream.
#[verifier::external_type_specification]
#[verifier::external_body]
#[verifier::reject_recursive_types(S)]
pub struct ExRegion<S>(Region<S>);

/// A stream over bytes held in memory.
#[verifier::external_type_specification]
#[verifier::external_body]
#[verifier::reject_recursive_types(T)]
pub struct ExCursor<T>(Cursor<T>);

/// A decoded chunk: a column of blocks, 16 by 16 wide.
#[verifier::external_type_specification]
#[verifier::external_body]
pub struct ExJavaChunk(JavaChunk);

/// Why the container could not be read.
#[verifier::external_type_specification]
#[verifier::external_body]
pub struct ExContainerError(fastanvil::Error);

/// Why a chunk could not be decoded.
#[verifier::external_type_specification]
#[verifier::external_body]
pub struct ExDecodeError(fastnbt::error::Error);

/// The bytes of the container that a region reads from.
pub uninterp spec fn region_data(region: Region<Cursor<Vec<u8>>>) -> Seq<u8>;

/// What reading the chunk at `(x, z)` from a container of these bytes gives:
/// `None` where the read fails, `Some(None)` where the container holds no
/// such chunk, else the chunk's bytes, decompressed.
pub uninterp spec fn stored_chunk(data: Seq<u8>, x: int, z: int) -> Option<Option<Seq<u8>>>;

/// Whether these bytes parse as one tree of named tags.
pub uninterp spec fn nbt_sound(data: Seq<u8>) -> bool;

/// What decoding a chunk from these bytes gives: `None` where they do not
/// decode, else the chunk's status and the start and the end of its levels.
pub uninterp spec fn chunk_header(data: Seq<u8>) -> Option<(Seq<char>, (int, int))>;

/// The status that a chunk reports.
pub uninterp spec fn chunk_status(chunk: JavaChunk) -> Seq<char>;

/// The start and the end of the levels that a chunk reports.
pub uninterp spec fn chunk_levels(chunk: JavaChunk) -> (int, int);

/// `Region::from_stream` on a cursor over `data`. It reads each entry of the
/// table of chunk locations, so it fails exactly where `data` is shorter
/// than the table. The region reads from `data`.
#[verifier::external_body]
pub(crate) fn open_region(data: Vec<u8>) -> (r: Result<Region<Cursor<Vec<u8>>>, fastanvil::Error>)
    ensures
        r is Ok <==> data.len() >= LOCATIONS_SIZE,
        r matches Ok(region) ==> region_data(region) == data@,
{
    Region::from_stream(Cursor::new(data))
}

/// `Region::read_chunk`: the stored bytes of the chunk at `(x, z)`,
/// decompressed, or `None` where the container holds no such chunk. What
/// comes back depends on the container's bytes and on `x` and `z` alone, and
/// reading leaves the bytes as they are. The decoder takes one from the
/// length that the chunk's header gives, so a length of zero is left out.
#[verifier::external_body]
pub(crate) fn read_chunk(region: &mut Region<Cursor<Vec<u8>>>, x: usize, z: usize) -> (r: Result<
    Option<Vec<u8>>,
    fastanvil::Error,
>)
    requires
        x < 32,
        z < 32,
        !zero_length_slot(region_data(*old(region)), x as int, z as int),
    ensures
        region_data(*final(region)) == region_data(*old(region)),
        match r {
            Ok(Some(bytes)) => stored_chunk(region_data(*old(region)), x as int, z as int) == Some(
                Some(bytes@),
            ),
            Ok(None) => stored_chunk(region_data(*old(region)), x as int, z as int) == Some(
                None::<Seq<u8>>,
            ),
            Err(_) => stored_chunk(region_data(*old(region)), x as int, z as int) is None,
        },
{
    region.read_chunk(x, z)
}

/// `fastnbt::from_bytes` to a `fastnbt::Value`: parses the bytes as one
/// tree of named tags and drops the tree. It refuses a list whose elements
/// have the tag of an end but whose length is not zero.
#[verifier::external_body]
pub(crate) fn check_nbt(data: &[u8]) -> (r: Result<(), fastnbt::error::Error>)
    ensures
        r is Ok <==> nbt_sound(data@),
{
    fastnbt::from_bytes::<fastnbt::Value>(data).map(|_| ())
}

/// `JavaChunk::from_bytes`: decodes a chunk. Whether it decodes, and what
/// status and levels the chunk then reports, depends on the bytes alone. It
/// skips the tags that a chunk does not hold, and cannot skip a list that
/// `check_nbt` refuses: the bytes must have passed that.
#[verifier::external_body]
pub(crate) fn decode_chunk(data: &[u8]) -> (r: Result<JavaChunk, fastnbt::error::Error>)
    requires
        nbt_sound(data@),
    ensures
        match r {
            Ok(chunk) => chunk_header(data@) == Some((chunk_status(chunk), chunk_levels(chunk))),
            Err(_) => chunk_header(data@) is None,
        },
{
    JavaChunk::from_bytes(data)
}

/// `Chunk::status` of a `JavaChunk`: the status that the chunk reports. It
/// depends on the chunk alone.
#[verifier::external_body]
pub(crate) fn status_of(chunk: &JavaChunk) -> (s: String)
    ensures
        s@ == chunk_status(*chunk),
{
    fastanvil::Chunk::status(chunk)
}

/// `Chunk::y_range` of a `JavaChunk`: the levels that the chunk's sections
/// span. They depend on the chunk alone.
#[verifier::external_body]
pub(crate) fn y_range_of(chunk: &JavaChunk) -> (r: Range<isize>)
    ensures
        (r.start as int, r.end as int) == chunk_levels(*chunk),
{
    fastanvil::Chunk::y_range(chunk)
}

} // verus!
