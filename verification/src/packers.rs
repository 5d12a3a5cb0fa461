//! The compressors and the checksum a chunk goes through.
//!
//! Each function here hands bytes to a compression or checksum crate and takes bytes back. What the
//! crate computes is named rather than restated; of a pair of functions that undo one another, the
//! one that undoes says so.

use vstd::endian::{endianness, Endian};
use vstd::prelude::*;

verus! {

/// The CRC32 of a run of bytes, as `crc32fast::hash` computes it.
pub uninterp spec fn crc32_of(data: Seq<u8>) -> u32;

/// The zstd frame `zstd::encode_all` writes for a run of bytes at a level, if it writes one, on a machine
/// of this word size and byte order.
pub uninterp spec fn zstd_packed(raw: Seq<u8>, level: i32, bits: nat, little: bool) -> Option<
    Seq<u8>,
>;

/// The bytes a frame holds, as `zstd::bulk::decompress` gives them where it unpacks the frame.
pub uninterp spec fn zstd_content(data: Seq<u8>) -> Seq<u8>;

/// The block `lz4_flex::block::compress` writes for a run of bytes, on a machine of this word size and
/// byte order.
pub uninterp spec fn lz4_packed(raw: Seq<u8>, bits: nat, little: bool) -> Seq<u8>;

/// What `lz4_flex::block::decompress` makes of a block within a size, on a machine of this word size: the
/// bytes, or its complaint.
pub uninterp spec fn lz4_unpacked(data: Seq<u8>, size: nat, bits: nat) -> Result<
    Seq<u8>,
    Seq<char>,
>;

/// The lengths `lz4_flex` can size an output buffer for: 110% of the input and twenty bytes.
pub open spec fn packable(len: nat) -> bool {
    len * 110 <= u64::MAX && 20 + len * 110 / 100 <= isize::MAX
}

/// An unpacking's result, over sequences.
pub open spec fn unpacked_view(result: Result<Vec<u8>, String>) -> Result<Seq<u8>, Seq<char>> {
    match result {
        Ok(raw) => Ok(raw@),
        Err(complaint) => Err(complaint@),
    }
}

/// Whether a result is the source of a zstd frame, wherever the frame has one that fits.
pub open spec fn zstd_gives_back(
    data: Seq<u8>,
    capacity: nat,
    raw: Result<Seq<u8>, Seq<char>>,
) -> bool {
    forall|source: Seq<u8>, level: i32, bits: nat, little: bool| #[trigger]
        zstd_packed(source, level, bits, little) == Some(data) && source.len() <= capacity
            ==> raw == Ok::<Seq<u8>, Seq<char>>(source)
}

/// The zstd frame of a run of bytes at a level on this machine, if there is one.
pub open spec fn zstd_here(raw: Seq<u8>, level: i32) -> Option<Seq<u8>> {
    zstd_packed(raw, level, usize::BITS as nat, endianness() is Little)
}

/// The lz4 block of a run of bytes on this machine.
pub open spec fn lz4_here(raw: Seq<u8>) -> Seq<u8> {
    lz4_packed(raw, usize::BITS as nat, endianness() is Little)
}

/// Whether every length in an lz4 block can be counted, with room for `size` bytes of output: a length
/// goes up by at most 255 with each byte.
pub open spec fn countable(len: nat, size: nat) -> bool {
    255 * len + size <= usize::MAX
}

/// What an lz4 block unpacks to within a size on this machine.
pub open spec fn lz4_unpacked_here(data: Seq<u8>, size: nat) -> Result<Seq<u8>, Seq<char>> {
    lz4_unpacked(data, size, usize::BITS as nat)
}

/// Whether an lz4 block unpacks to these bytes, given room for them.
pub open spec fn lz4_holds(data: Seq<u8>, raw: Seq<u8>) -> bool {
    forall|size: nat|
        raw.len() <= size <= isize::MAX && countable(data.len(), size)
            ==> #[trigger] lz4_unpacked_here(data, size) == Ok::<Seq<u8>, Seq<char>>(raw)
}

/// Calls `crc32fast::hash`: the result is the CRC32 of the bytes, and of nothing else.
#[verifier::external_body]
pub(crate) fn crc32(data: &[u8]) -> (sum: u32)
    ensures
        sum == crc32_of(data@),
{
    crc32fast::hash(data)
}

/// Calls `zstd::encode_all` on the bytes: the frame depends on them, on the level, on the machine's word
/// size and on its byte order.
///
/// A failure of the compressor is reported as no frame at all.
#[verifier::external_body]
pub(crate) fn zstd_pack(raw: &[u8], level: i32) -> (packed: Option<Vec<u8>>)
    ensures
        match packed {
            Some(data) => zstd_packed(raw@, level, usize::BITS as nat, endianness() is Little)
                == Some(data@),
            None => zstd_packed(
                raw@,
                level,
                usize::BITS as nat,
                endianness() is Little,
            ) is None,
        },
{
    zstd::encode_all(raw, level).ok()
}

/// Calls `zstd::bulk::decompress` on a frame, allowing it `capacity` bytes of output.
///
/// What it unpacks is all that the frame holds, never a part. A frame that `zstd::encode_all` wrote holds
/// the bytes it was written from, and is unpacked whenever they fit in the capacity. Which other frames
/// it unpacks is not stated: that depends on the room an allocation really has, on the machine's word
/// size, and for frames of older formats on more room than they need. What the complaint says is not
/// stated either.
#[verifier::external_body]
pub(crate) fn zstd_unpack(data: &[u8], capacity: usize) -> (raw: Result<Vec<u8>, String>)
    requires
        capacity <= isize::MAX,
    ensures
        raw matches Ok(bytes) ==> bytes@ == zstd_content(data@),
        zstd_gives_back(data@, capacity as nat, unpacked_view(raw)),
{
    zstd::bulk::decompress(data, capacity).map_err(|error| error.to_string())
}

/// Calls `lz4_flex::block::compress` on the bytes: the block depends on them, on the machine's word size
/// and on its byte order, and unpacks to them again.
#[verifier::external_body]
pub(crate) fn lz4_pack(raw: &[u8]) -> (packed: Vec<u8>)
    requires
        packable(raw@.len()),
    ensures
        packed@ == lz4_packed(raw@, usize::BITS as nat, endianness() is Little),
        lz4_holds(packed@, raw@),
{
    lz4_flex::block::compress(raw)
}

/// Calls `lz4_flex::block::decompress` on a block, with room for `size` bytes of output.
///
/// The result depends on the two arguments and on the machine's word size alone.
#[verifier::external_body]
pub(crate) fn lz4_unpack(data: &[u8], size: usize) -> (raw: Result<Vec<u8>, String>)
    requires
        size <= isize::MAX,
        countable(data@.len(), size as nat),
    ensures
        unpacked_view(raw) == lz4_unpacked(data@, size as nat, usize::BITS as nat),
{
    lz4_flex::block::decompress(data, size).map_err(|error| error.to_string())
}

} // verus!
