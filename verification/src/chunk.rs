//! A page's ink as one compressed blob: the encoding behind a note's chunks.
//!
//! A chunk is the arrays of [`crate::arrays`], compressed with whichever codec makes them smaller,
//! and sealed with a checksum. It is not self-describing beyond its own counts: it is decoded by
//! handing back the codec, the length, the stroke count and the checksum it was filed with, and a
//! mismatch is reported rather than guessed at.

use crate::archive::refused_with;
use crate::arrays::{
    arrays, arrays_of, arrays_read_back, lines_in, palette_of, points_in, read_arrays, reads_as,
    MAX_COLORS,
};
use crate::error::{note_error, refused, AppError};
use crate::ink::{lines_of, Line, Stroke};
use crate::packers::{
    countable, crc32, crc32_of, lz4_here, lz4_holds, lz4_pack, lz4_unpack, lz4_unpacked_here,
    packable, zstd_content, zstd_here, zstd_pack, zstd_unpack,
};
use crate::text::{decimal, decimal_text};
use std::ops::Range;
use vstd::prelude::*;

verus! {

/// Fixed-point units per logical pixel: 1/64 of a pixel.
///
/// Below what a digitizer reports, below what one pixel of a 400% zoom shows, and small enough that
/// a step of up to two pixels is a small varint.
pub const QUANTUM: i32 = 64;

/// The largest raw chunk written, before compression.
pub const CHUNK_RAW_TARGET: usize = 65536;

/// The most strokes a chunk holds, whichever comes first.
pub const CHUNK_MAX_STROKES: usize = 512;

/// The `zstd` level chunks are written at.
pub const ZSTD_LEVEL: i32 = 3;

/// The compressor a chunk was written with.
#[derive(Clone, Copy, Debug, PartialEq, Eq, Structural)]
pub enum Codec {
    /// Not compressed: the arrays as they were built.
    Raw,
    /// `lz4_flex`, which is fast at both ends.
    Lz4,
    /// `zstd`, which is what a page of handwriting actually uses.
    Zstd,
}

impl Codec {
    /// The number a codec is filed under.
    pub open spec fn id_of(self) -> u32 {
        match self {
            Codec::Raw => 0,
            Codec::Lz4 => 1,
            Codec::Zstd => 2,
        }
    }

    /// The number a codec is filed under.
    pub fn id(self) -> (id: u32)
        ensures
            id == self.id_of(),
    {
        match self {
            Codec::Raw => 0,
            Codec::Lz4 => 1,
            Codec::Zstd => 2,
        }
    }

    /// The codec a chunk was written with, from the number it is filed under.
    ///
    /// An unknown number is an error rather than a fallback: it means the file was written by a
    /// build that knows a compressor this one does not.
    pub fn from_id(id: u32) -> (result: Result<Self, AppError>)
        ensures
            match result {
                Ok(codec) => codec.id_of() == id,
                Err(_) => id > 2 && refused(
                    result,
                    "this note uses compression "@ + decimal_text(id as nat)
                        + ", which this build does not know"@,
                ),
            },
    {
        match id {
            0 => Ok(Codec::Raw),
            1 => Ok(Codec::Lz4),
            2 => Ok(Codec::Zstd),
            other => Err(
                AppError::Note(
                    String::from_str("this note uses compression ").concat(
                        decimal(other as u64).as_str(),
                    ).concat(", which this build does not know"),
                ),
            ),
        }
    }
}

/// One encoded chunk, ready to be filed.
#[derive(Clone, Debug, PartialEq, Eq)]
pub struct Encoded {
    /// Which compressor was used.
    pub codec: Codec,
    /// The length of the arrays before compression, so decoding can size its buffers exactly.
    pub raw_len: u32,
    /// The compressed arrays.
    pub data: Vec<u8>,
    /// CRC32 of `data`, so a damaged blob is caught before it is decompressed.
    pub crc32: u32,
}

/// Whether zstd makes some arrays smaller.
pub open spec fn zstd_pays(raw: Seq<u8>) -> bool {
    zstd_here(raw, ZSTD_LEVEL) matches Some(data) && data.len() < raw.len()
}

/// Whether lz4 makes some arrays smaller.
pub open spec fn lz4_pays(raw: Seq<u8>) -> bool {
    lz4_here(raw).len() < raw.len()
}

/// The codec some arrays are kept by: the first that makes them smaller.
pub open spec fn codec_of(raw: Seq<u8>) -> Codec {
    if zstd_pays(raw) {
        Codec::Zstd
    } else if lz4_pays(raw) {
        Codec::Lz4
    } else {
        Codec::Raw
    }
}

/// The blob some arrays are kept as.
pub open spec fn blob_of(raw: Seq<u8>) -> Seq<u8> {
    match codec_of(raw) {
        Codec::Zstd => zstd_here(raw, ZSTD_LEVEL)->0,
        Codec::Lz4 => lz4_here(raw),
        Codec::Raw => raw,
    }
}

/// Whether a blob filed with these values is the one that encoding these lines writes.
pub open spec fn written_as(
    lines: Seq<Line<i32>>,
    data: Seq<u8>,
    raw_len: nat,
    codec: Codec,
    sum: u32,
) -> bool {
    let raw = arrays_of(lines);
    &&& codec == codec_of(raw)
    &&& data == blob_of(raw)
    &&& raw_len == raw.len()
    &&& sum == crc32_of(data)
    &&& codec == Codec::Lz4 ==> lz4_holds(data, raw)
}

/// Whether a compressor was worth it: it answered, and with fewer bytes than it was given.
fn pays(packed: &Option<Vec<u8>>, raw_len: usize) -> (worth: bool)
    ensures
        worth == (packed is Some && packed->0@.len() < raw_len),
{
    match packed {
        Some(data) => data.len() < raw_len,
        None => false,
    }
}

/// Chooses what a chunk is kept as, from what the compressors made of its arrays.
///
/// The second compressor's answer is only looked at when the first did not pay.
pub fn pick(raw: Vec<u8>, zstd: Option<Vec<u8>>, lz4: Option<Vec<u8>>) -> (choice: (Codec, Vec<u8>))
    ensures
        zstd is Some && zstd->0@.len() < raw@.len() ==> choice.0 == Codec::Zstd && choice.1
            == zstd->0,
        !(zstd is Some && zstd->0@.len() < raw@.len()) && lz4 is Some && lz4->0@.len() < raw@.len()
            ==> choice.0 == Codec::Lz4 && choice.1 == lz4->0,
        !(zstd is Some && zstd->0@.len() < raw@.len()) && !(lz4 is Some && lz4->0@.len()
            < raw@.len()) ==> choice.0 == Codec::Raw && choice.1 == raw,
{
    if pays(&zstd, raw.len()) {
        match zstd {
            Some(data) => (Codec::Zstd, data),
            None => (Codec::Raw, raw),
        }
    } else if pays(&lz4, raw.len()) {
        match lz4 {
            Some(data) => (Codec::Lz4, data),
            None => (Codec::Raw, raw),
        }
    } else {
        (Codec::Raw, raw)
    }
}

/// The compressed blob plus the three values that describe it.
pub fn sealed(codec: Codec, raw_len: usize, data: Vec<u8>) -> (encoded: Encoded)
    ensures
        encoded.codec == codec,
        encoded.raw_len == raw_len as int % 0x1_0000_0000,
        encoded.data == data,
        encoded.crc32 == crc32_of(data@),
{
    let sum: u32 = crc32(data.as_slice());
    Encoded {
        codec,
        raw_len: (raw_len as u64 % 0x1_0000_0000) as u32,
        data,
        crc32: sum,
    }
}

/// The arrays of a run of strokes, encoded and compressed, with the compressor that was chosen.
///
/// The choice is made by measuring: the arrays are built first, then each codec is given a chance
/// in order — zstd, then lz4, then nothing — and the first one that makes the blob smaller than the
/// arrays wins. Which block lz4 writes depends on the machine; that it unpacks to the arrays does not.
/// No strokes at all are refused: a chunk that decodes to no strokes is
/// indistinguishable from a damaged one.
pub fn encode(strokes: &[Stroke<i32>]) -> (result: Result<Encoded, AppError>)
    requires
        points_in(lines_of(strokes@)) <= u64::MAX,
        packable(arrays_of(lines_of(strokes@)).len()),
    ensures
        strokes@.len() == 0 ==> refused(result, "a chunk of no strokes is not written"@),
        strokes@.len() > 0 ==> (result matches Ok(encoded) && written_as(
            lines_of(strokes@),
            encoded.data@,
            arrays_of(lines_of(strokes@)).len(),
            encoded.codec,
            encoded.crc32,
        ) && encoded.raw_len == arrays_of(lines_of(strokes@)).len() % 0x1_0000_0000),
{
    if strokes.len() == 0 {
        return Err(note_error("a chunk of no strokes is not written"));
    }
    let raw: Vec<u8> = arrays(strokes);
    let raw_len: usize = raw.len();
    let zstd: Option<Vec<u8>> = zstd_pack(raw.as_slice(), ZSTD_LEVEL);
    let lz4: Option<Vec<u8>> = if pays(&zstd, raw_len) {
        None
    } else {
        Some(lz4_pack(raw.as_slice()))
    };
    let (codec, data) = pick(raw, zstd, lz4);
    Ok(sealed(codec, raw_len, data))
}

/// The lines of a chunk from its unpacked arrays, or why it has none.
pub open spec fn opened(raw: Seq<u8>, raw_len: nat, stroke_count: nat) -> Result<
    Seq<Line<i32>>,
    Seq<char>,
> {
    if raw.len() != raw_len {
        Err(
            "a chunk of this note unpacks to "@ + decimal_text(raw.len()) + " bytes, not the "@
                + decimal_text(raw_len) + " it was written as"@,
        )
    } else {
        match lines_in(raw) {
            Ok(lines) => if lines.len() != stroke_count {
                Err(
                    "a chunk of this note holds "@ + decimal_text(lines.len())
                        + " strokes, not the "@ + decimal_text(stroke_count)
                        + " it is filed under"@,
                )
            } else {
                Ok(lines)
            },
            Err(reason) => Err(reason),
        }
    }
}

/// What a chunk that its codec cannot unpack is refused with, before the codec's own complaint.
pub open spec fn packed_text() -> Seq<char> {
    "a chunk of this note could not be unpacked: "@
}

/// Whether a result is the lines of a chunk from the values it is filed under, or the refusal it meets.
///
/// A zstd frame is read as what it holds, or refused by its codec; one that [`encode`] wrote is never
/// refused.
pub open spec fn decodes(
    result: Result<Vec<Stroke<i32>>, AppError>,
    data: Seq<u8>,
    raw_len: nat,
    codec: Codec,
    stroke_count: nat,
    sum: u32,
) -> bool {
    if crc32_of(data) != sum {
        refused(result, "a chunk of this note is damaged (its checksum does not match)"@)
    } else {
        match codec {
            Codec::Raw => reads_as(result, opened(data, raw_len, stroke_count)),
            Codec::Lz4 => match lz4_unpacked_here(data, raw_len) {
                Ok(raw) => reads_as(result, opened(raw, raw_len, stroke_count)),
                Err(complaint) => refused(result, packed_text() + complaint),
            },
            Codec::Zstd => reads_as(result, opened(zstd_content(data), raw_len, stroke_count))
                || refused_with(result, packed_text()),
        }
    }
}

/// The strokes of one chunk from its unpacked arrays.
///
/// The length catches a truncated blob, and the stroke count catches the case the checksum and the
/// length both miss: a blob that is intact and is not the chunk it is filed under.
pub fn open_arrays(raw: &[u8], raw_len: usize, stroke_count: usize) -> (result: Result<
    Vec<Stroke<i32>>,
    AppError,
>)
    ensures
        reads_as(result, opened(raw@, raw_len as nat, stroke_count as nat)),
{
    if raw.len() != raw_len {
        return Err(
            AppError::Note(
                String::from_str("a chunk of this note unpacks to ").concat(
                    decimal(raw.len() as u64).as_str(),
                ).concat(" bytes, not the ").concat(decimal(raw_len as u64).as_str()).concat(
                    " it was written as",
                ),
            ),
        );
    }
    let strokes: Vec<Stroke<i32>> = match read_arrays(raw) {
        Ok(strokes) => strokes,
        Err(error) => return Err(error),
    };
    if strokes.len() != stroke_count {
        return Err(
            AppError::Note(
                String::from_str("a chunk of this note holds ").concat(
                    decimal(strokes.len() as u64).as_str(),
                ).concat(" strokes, not the ").concat(
                    decimal(stroke_count as u64).as_str(),
                ).concat(" it is filed under"),
            ),
        );
    }
    Ok(strokes)
}

/// The refusal of a blob its codec could not unpack.
pub fn unpack_error(complaint: &str) -> (error: AppError)
    ensures
        error matches AppError::Note(said) && said@ == packed_text() + complaint@,
{
    AppError::Note(
        String::from_str("a chunk of this note could not be unpacked: ").concat(complaint),
    )
}

/// The strokes of one chunk, from the values it is filed under.
///
/// Every argument but the blob is a stored value rather than something read from the blob, and all
/// of them are checked. A chunk that [`encode`] wrote gives back the lines it was written from.
pub fn decode(
    data: &[u8],
    raw_len: usize,
    codec: Codec,
    stroke_count: usize,
    sum: u32,
) -> (result: Result<Vec<Stroke<i32>>, AppError>)
    requires
        codec is Raw || raw_len <= isize::MAX,
        codec is Lz4 ==> countable(data@.len(), raw_len as nat),
    ensures
        decodes(result, data@, raw_len as nat, codec, stroke_count as nat, sum),
        forall|lines: Seq<Line<i32>>| #[trigger]
            written_as(lines, data@, raw_len as nat, codec, sum) && palette_of(lines).len()
                <= MAX_COLORS && points_in(lines) <= u64::MAX && lines.len() == stroke_count
                ==> (result matches Ok(strokes) && lines_of(strokes@) == lines),
{
    if crc32(data) != sum {
        return Err(note_error("a chunk of this note is damaged (its checksum does not match)"));
    }
    proof {
        assert forall|lines: Seq<Line<i32>>| #[trigger]
            written_as(lines, data@, raw_len as nat, codec, sum) && palette_of(lines).len()
                <= MAX_COLORS && points_in(lines) <= u64::MAX && lines.len()
                == stroke_count implies opened(
            arrays_of(lines),
            raw_len as nat,
            stroke_count as nat,
        ) == Ok::<Seq<Line<i32>>, Seq<char>>(lines) by {
            arrays_read_back(lines);
        }
    }
    match codec {
        Codec::Raw => open_arrays(data, raw_len, stroke_count),
        Codec::Lz4 => match lz4_unpack(data, raw_len) {
            Ok(raw) => open_arrays(raw.as_slice(), raw_len, stroke_count),
            Err(complaint) => Err(unpack_error(complaint.as_str())),
        },
        Codec::Zstd => match zstd_unpack(data, raw_len) {
            Ok(raw) => open_arrays(raw.as_slice(), raw_len, stroke_count),
            Err(complaint) => {
                let ghost start = packed_text();
                assert((start + complaint@).take(start.len() as int) =~= start);
                Err(unpack_error(complaint.as_str()))
            },
        },
    }
}

/// Saving never drifts: what was read of a chunk, which is what it was written from, is written as the
/// same bytes under the same values again.
pub proof fn re_encoding_does_not_drift(
    lines: Seq<Line<i32>>,
    encoded: Encoded,
    read: Result<Vec<Stroke<i32>>, AppError>,
    again: Encoded,
)
    requires
        written_as(
            lines,
            encoded.data@,
            arrays_of(lines).len(),
            encoded.codec,
            encoded.crc32,
        ),
        encoded.raw_len == arrays_of(lines).len() % 0x1_0000_0000,
        read matches Ok(strokes) && lines_of(strokes@) == lines,
        written_as(
            lines_of(read->Ok_0@),
            again.data@,
            arrays_of(lines_of(read->Ok_0@)).len(),
            again.codec,
            again.crc32,
        ),
        again.raw_len == arrays_of(lines_of(read->Ok_0@)).len() % 0x1_0000_0000,
    ensures
        again.codec == encoded.codec,
        again.raw_len == encoded.raw_len,
        again.data@ == encoded.data@,
        again.crc32 == encoded.crc32,
{
}

// ---------------------------------------------------------------------------------------------
// Which strokes make one chunk
// ---------------------------------------------------------------------------------------------

/// What one line is expected to cost as arrays: three bases, the colour index and the count, then
/// two bytes for each of a point's three values.
pub open spec fn cost_of(line: Line<i32>) -> nat {
    14 + 6 * line.points.len()
}

/// What a run of lines is expected to cost as arrays.
pub open spec fn cost_in(lines: Seq<Line<i32>>) -> nat
    decreases lines.len(),
{
    if lines.len() == 0 {
        0
    } else {
        cost_in(lines.drop_last()) + cost_of(lines.last())
    }
}

/// Whether a chunk that starts at `start` has no room for the line at `index`: the arrays would
/// pass the target, it holds all the strokes a chunk may, or the line brings a colour the palette
/// has no place for.
pub open spec fn full_at(lines: Seq<Line<i32>>, start: int, index: int) -> bool {
    let held = lines.subrange(start, index);
    ||| cost_in(held) + cost_of(lines[index]) > CHUNK_RAW_TARGET
    ||| index - start >= CHUNK_MAX_STROKES
    ||| palette_of(held).len() >= MAX_COLORS && !palette_of(held).contains(lines[index].color)
}

/// Whether the lines from `start` up to `end` are one chunk: it takes at least one line, takes the
/// next as long as there is room, and ends where there is none.
pub open spec fn is_chunk(lines: Seq<Line<i32>>, start: int, end: int) -> bool {
    &&& 0 <= start < end <= lines.len()
    &&& forall|index: int| start < index < end ==> !#[trigger] full_at(lines, start, index)
    &&& end < lines.len() ==> full_at(lines, start, end)
}

/// Whether ranges are the chunks of the lines before `end`: they follow one another from the first
/// line on, with nothing between them.
pub open spec fn chunks_up_to(lines: Seq<Line<i32>>, ranges: Seq<Range<usize>>, end: int) -> bool {
    &&& ranges.len() == 0 ==> end == 0
    &&& ranges.len() > 0 ==> ranges[0].start == 0 && ranges.last().end == end
    &&& forall|i: int|
        0 <= i < ranges.len() ==> is_chunk(
            lines,
            (#[trigger] ranges[i]).start as int,
            ranges[i].end as int,
        )
    &&& forall|i: int|
        0 < i < ranges.len() ==> (#[trigger] ranges[i]).start == ranges[i - 1].end
}

/// A chunk stays within every bound: its strokes, its colours, and — unless one stroke alone is
/// larger — its size.
pub proof fn chunk_is_bounded(lines: Seq<Line<i32>>, start: int, end: int)
    requires
        is_chunk(lines, start, end),
    ensures
        end - start <= CHUNK_MAX_STROKES,
        palette_of(lines.subrange(start, end)).len() <= MAX_COLORS,
        end - start > 1 ==> cost_in(lines.subrange(start, end)) <= CHUNK_RAW_TARGET,
{
    chunk_prefix_is_bounded(lines, start, end, end);
}

/// A chunk stays within every bound as it grows.
proof fn chunk_prefix_is_bounded(lines: Seq<Line<i32>>, start: int, end: int, upto: int)
    requires
        is_chunk(lines, start, end),
        start < upto <= end,
    ensures
        upto - start <= CHUNK_MAX_STROKES,
        palette_of(lines.subrange(start, upto)).len() <= MAX_COLORS,
        upto - start > 1 ==> cost_in(lines.subrange(start, upto)) <= CHUNK_RAW_TARGET,
    decreases upto,
{
    run_grows(lines, start, upto - 1);
    if upto - 1 > start {
        chunk_prefix_is_bounded(lines, start, end, upto - 1);
        assert(!full_at(lines, start, upto - 1));
    } else {
        assert(lines.subrange(start, start) =~= seq![]);
    }
}

/// Every line is in exactly one of the chunks a page is split into.
pub proof fn chunks_cover(lines: Seq<Line<i32>>, ranges: Seq<Range<usize>>, line: int)
    requires
        chunks_up_to(lines, ranges, lines.len() as int),
        0 <= line < lines.len(),
    ensures
        exists|i: int|
            0 <= i < ranges.len() && (#[trigger] ranges[i]).start <= line < ranges[i].end,
        forall|i: int, j: int|
            0 <= i < ranges.len() && 0 <= j < ranges.len() && (#[trigger] ranges[i]).start <= line
                < ranges[i].end && (#[trigger] ranges[j]).start <= line < ranges[j].end ==> i == j,
{
    chunks_reach(lines, ranges, lines.len() as int, line);
    assert forall|i: int, j: int|
        0 <= i < ranges.len() && 0 <= j < ranges.len() && (#[trigger] ranges[i]).start <= line
            < ranges[i].end && (#[trigger] ranges[j]).start <= line < ranges[j].end implies i
        == j by {
        if i < j {
            chunks_are_apart(lines, ranges, i, j);
        } else if j < i {
            chunks_are_apart(lines, ranges, j, i);
        }
    }
}

/// A later chunk starts no sooner than an earlier one ends.
proof fn chunks_are_apart(lines: Seq<Line<i32>>, ranges: Seq<Range<usize>>, i: int, j: int)
    requires
        chunks_up_to(lines, ranges, lines.len() as int),
        0 <= i < j < ranges.len(),
    ensures
        ranges[i].end <= ranges[j].start,
    decreases j - i,
{
    if i + 1 < j {
        chunks_are_apart(lines, ranges, i, j - 1);
        assert(is_chunk(lines, ranges[j - 1].start as int, ranges[j - 1].end as int));
    }
}

/// Some chunk holds each line before the end.
proof fn chunks_reach(lines: Seq<Line<i32>>, ranges: Seq<Range<usize>>, end: int, line: int)
    requires
        chunks_up_to(lines, ranges, end),
        0 <= line < end,
    ensures
        exists|i: int|
            0 <= i < ranges.len() && (#[trigger] ranges[i]).start <= line < ranges[i].end,
    decreases ranges.len(),
{
    let last = ranges.len() - 1;
    if ranges[last].start <= line {
        assert(ranges[last].start <= line < ranges[last].end);
    } else {
        let before = ranges.drop_last();
        assert(before.len() > 0);
        assert(ranges[last].start == ranges[last - 1].end);
        assert forall|i: int| 0 <= i < before.len() implies is_chunk(
            lines,
            (#[trigger] before[i]).start as int,
            before[i].end as int,
        ) by {
            assert(before[i] == ranges[i]);
        }
        assert forall|i: int| 0 < i < before.len() implies (#[trigger] before[i]).start
            == before[i - 1].end by {
            assert(before[i] == ranges[i]);
        }
        chunks_reach(lines, before, before.last().end as int, line);
        let i = choose|i: int|
            0 <= i < before.len() && (#[trigger] before[i]).start <= line < before[i].end;
        assert(ranges[i].start <= line < ranges[i].end);
    }
}

/// A run of lines, one longer.
proof fn run_grows(lines: Seq<Line<i32>>, start: int, index: int)
    requires
        0 <= start <= index < lines.len(),
    ensures
        lines.subrange(start, index + 1).drop_last() == lines.subrange(start, index),
        lines.subrange(start, index + 1).last() == lines[index],
        lines.subrange(start, index + 1).len() > 0,
{
    assert(lines.subrange(start, index + 1).drop_last() =~= lines.subrange(start, index));
}

/// Whether a colour is among the ones seen.
fn has_color(colors: &Vec<u32>, color: u32) -> (found: bool)
    ensures
        found == colors@.contains(color),
{
    let mut index: usize = 0;
    while index < colors.len()
        invariant
            index <= colors@.len(),
            forall|i: int| 0 <= i < index ==> colors@[i] != color,
        decreases colors@.len() - index,
    {
        if colors[index] == color {
            assert(colors@[index as int] == color);
            return true;
        }
        index = index + 1;
    }
    false
}

/// Which slices of `strokes` make one chunk each.
///
/// A chunk ends at whichever comes first: [`CHUNK_RAW_TARGET`] of estimated arrays,
/// [`CHUNK_MAX_STROKES`] strokes, or the palette filling up, which is what keeps the colour index
/// one byte. The ranges tile the slice exactly and in order.
pub fn chunk_ranges(strokes: &[Stroke<i32>]) -> (ranges: Vec<Range<usize>>)
    ensures
        chunks_up_to(lines_of(strokes@), ranges@, strokes@.len() as int),
{
    let ghost lines = lines_of(strokes@);
    let mut ranges: Vec<Range<usize>> = Vec::new();
    let mut start: usize = 0;
    let mut raw: u128 = 0;
    let mut colors: Vec<u32> = Vec::new();
    let mut index: usize = 0;
    assert(lines.subrange(0, 0) =~= seq![]);
    while index < strokes.len()
        invariant
            lines == lines_of(strokes@),
            start <= index <= strokes@.len(),
            index > 0 ==> start < index,
            chunks_up_to(lines, ranges@, start as int),
            forall|i: int| start < i < index ==> !#[trigger] full_at(lines, start as int, i),
            raw == cost_in(lines.subrange(start as int, index as int)),
            raw <= 0x10_0000_0000_0000_0000,
            colors@ == palette_of(lines.subrange(start as int, index as int)),
        decreases strokes@.len() - index,
    {
        let size: u128 = 14 + 6 * strokes[index].points.len() as u128;
        assert(size == cost_of(lines[index as int]));
        let known: bool = has_color(&colors, strokes[index].color);
        let full: bool = raw + size > CHUNK_RAW_TARGET as u128 || index - start
            >= CHUNK_MAX_STROKES || (colors.len() >= MAX_COLORS && !known);
        assert(full == full_at(lines, start as int, index as int));
        if full && index > start {
            let ghost before = ranges@;
            ranges.push(Range { start, end: index });
            proof {
                assert(is_chunk(lines, start as int, index as int));
                assert forall|i: int| 0 <= i < ranges@.len() implies is_chunk(
                    lines,
                    (#[trigger] ranges@[i]).start as int,
                    ranges@[i].end as int,
                ) by {
                    if i < before.len() {
                        assert(ranges@[i] == before[i]);
                    }
                }
                assert forall|i: int| 0 < i < ranges@.len() implies (#[trigger] ranges@[i]).start
                    == ranges@[i - 1].end by {
                    if i < before.len() {
                        assert(ranges@[i] == before[i]);
                    }
                }
            }
            start = index;
            raw = 0;
            colors.clear();
            assert(lines.subrange(start as int, index as int) =~= seq![]);
        }
        assert(raw == cost_in(lines.subrange(start as int, index as int)));
        assert(colors@ == palette_of(lines.subrange(start as int, index as int)));
        proof {
            run_grows(lines, start as int, index as int);
        }
        raw = raw + size;
        if !has_color(&colors, strokes[index].color) {
            colors.push(strokes[index].color);
        }
        index = index + 1;
    }
    if start < strokes.len() {
        let ghost before = ranges@;
        ranges.push(Range { start, end: strokes.len() });
        proof {
            assert(is_chunk(lines, start as int, strokes@.len() as int));
            assert forall|i: int| 0 <= i < ranges@.len() implies is_chunk(
                lines,
                (#[trigger] ranges@[i]).start as int,
                ranges@[i].end as int,
            ) by {
                if i < before.len() {
                    assert(ranges@[i] == before[i]);
                }
            }
            assert forall|i: int| 0 < i < ranges@.len() implies (#[trigger] ranges@[i]).start
                == ranges@[i - 1].end by {
                if i < before.len() {
                    assert(ranges@[i] == before[i]);
                }
            }
        }
    }
    ranges
}

// ---------------------------------------------------------------------------------------------
// What a chunk promises
// ---------------------------------------------------------------------------------------------

/// Each codec is filed under a number of its own, and the number leads back to it.
pub proof fn a_codec_has_its_own_number(codec: Codec, other: Codec)
    ensures
        Codec::Raw.id_of() == 0,
        Codec::Lz4.id_of() == 1,
        Codec::Zstd.id_of() == 2,
        codec.id_of() == other.id_of() ==> codec == other,
{
}

/// A chunk is kept by the first codec that makes it smaller, zstd before lz4, and as it is where neither does: it
/// is never kept larger than it is.
pub proof fn a_chunk_is_kept_by_what_makes_it_smaller(raw: Seq<u8>)
    ensures
        blob_of(raw).len() <= raw.len(),
        codec_of(raw) == Codec::Raw ==> blob_of(raw) == raw,
        codec_of(raw) != Codec::Raw ==> blob_of(raw).len() < raw.len(),
        zstd_here(raw, 3) matches Some(data) ==> data.len() < raw.len() ==> codec_of(raw)
            == Codec::Zstd && blob_of(raw) == data,
        (zstd_here(raw, 3) is None || zstd_here(raw, 3)->0.len() >= raw.len()) && lz4_here(raw).len()
            < raw.len() ==> codec_of(raw) == Codec::Lz4 && blob_of(raw) == lz4_here(raw),
        (zstd_here(raw, 3) is None || zstd_here(raw, 3)->0.len() >= raw.len()) && lz4_here(raw).len()
            >= raw.len() ==> codec_of(raw) == Codec::Raw,
{
}

/// A chunk that was written is filed under the length of its arrays and the checksum of its bytes, and its bytes
/// are what its codec made of the arrays.
pub proof fn a_written_chunk_is_filed_as_it_is(
    lines: Seq<Line<i32>>,
    data: Seq<u8>,
    raw_len: nat,
    codec: Codec,
    sum: u32,
)
    requires
        written_as(lines, data, raw_len, codec, sum),
    ensures
        raw_len == arrays_of(lines).len(),
        sum == crc32_of(data),
        codec == Codec::Raw ==> data == arrays_of(lines),
        codec == Codec::Lz4 ==> data == lz4_here(arrays_of(lines)) && lz4_holds(
            data,
            arrays_of(lines),
        ),
        codec == Codec::Zstd ==> zstd_here(arrays_of(lines), 3) == Some(data),
        data.len() <= raw_len,
{
    a_chunk_is_kept_by_what_makes_it_smaller(arrays_of(lines));
}

/// A chunk is read only where its checksum, its length and its strokes are those it is filed under; each that is
/// not is refused, in its own words.
pub proof fn a_chunk_is_what_it_is_filed_under(
    result: Result<Vec<Stroke<i32>>, AppError>,
    data: Seq<u8>,
    raw_len: nat,
    stroke_count: nat,
    sum: u32,
    codec: Codec,
)
    requires
        decodes(result, data, raw_len, codec, stroke_count, sum),
    ensures
        crc32_of(data) != sum ==> refused(
            result,
            "a chunk of this note is damaged (its checksum does not match)"@,
        ),
        result is Ok ==> crc32_of(data) == sum && result->Ok_0@.len() == stroke_count,
        result is Ok && codec == Codec::Raw ==> data.len() == raw_len && lines_in(data) == Ok::<
            Seq<Line<i32>>,
            Seq<char>,
        >(lines_of(result->Ok_0@)),
        result is Ok && codec == Codec::Zstd ==> zstd_content(data).len() == raw_len && lines_in(
            zstd_content(data),
        ) == Ok::<Seq<Line<i32>>, Seq<char>>(lines_of(result->Ok_0@)),
        result is Ok && codec == Codec::Lz4 ==> (lz4_unpacked_here(data, raw_len) matches Ok(raw)
            && raw.len() == raw_len && lines_in(raw) == Ok::<Seq<Line<i32>>, Seq<char>>(
            lines_of(result->Ok_0@),
        )),
        crc32_of(data) == sum && codec == Codec::Raw && data.len() != raw_len ==> refused(
            result,
            "a chunk of this note unpacks to "@ + decimal_text(data.len()) + " bytes, not the "@
                + decimal_text(raw_len) + " it was written as"@,
        ),
        crc32_of(data) == sum && codec == Codec::Raw && data.len() == raw_len ==> (lines_in(
            data,
        ) matches Ok(lines) ==> lines.len() != stroke_count ==> refused(
            result,
            "a chunk of this note holds "@ + decimal_text(lines.len()) + " strokes, not the "@
                + decimal_text(stroke_count) + " it is filed under"@,
        )),
        crc32_of(data) == sum && codec == Codec::Raw && data.len() == raw_len ==> (lines_in(
            data,
        ) matches Ok(lines) ==> lines.len() == stroke_count ==> result is Ok),
        crc32_of(data) == sum && codec == Codec::Lz4 ==> (lz4_unpacked_here(
            data,
            raw_len,
        ) matches Err(complaint) ==> refused(
            result,
            "a chunk of this note could not be unpacked: "@ + complaint,
        )),
{
    if result is Ok {
        assert(lines_of(result->Ok_0@).len() == result->Ok_0@.len());
    }
}

/// A chunk has room for a line as long as it stays within sixty-four kilobytes, five hundred and twelve strokes
/// and two hundred and fifty-five colours, each line being reckoned at fourteen bytes and six more for each of its
/// points.
pub proof fn a_chunk_has_room_within_its_bounds(
    lines: Seq<Line<i32>>,
    start: int,
    index: int,
    held: Seq<Line<i32>>,
    line: Line<i32>,
)
    requires
        0 <= start <= index < lines.len(),
    ensures
        cost_in(Seq::<Line<i32>>::empty()) == 0,
        cost_in(held.push(line)) == cost_in(held) + 14 + 6 * line.points.len(),
        ({
            let before = lines.subrange(start, index);
            let size = cost_in(before) + 14 + 6 * lines[index].points.len();
            let fresh = !palette_of(before).contains(lines[index].color);
            full_at(lines, start, index) <==> size > 65536 || index - start >= 512 || (palette_of(
                before,
            ).len() >= 255 && fresh)
        }),
{
    assert(held.push(line).drop_last() =~= held);
}

/// Chunks follow one another from the first line to the last: each has at least one line, the next begins where
/// it ends, and it ends only where it is full or the lines do.
pub proof fn chunks_follow_one_another(
    lines: Seq<Line<i32>>,
    ranges: Seq<Range<usize>>,
    i: int,
    index: int,
)
    requires
        chunks_up_to(lines, ranges, lines.len() as int),
        0 <= i < ranges.len(),
    ensures
        ranges[0].start == 0,
        ranges.last().end == lines.len(),
        ranges[i].start < ranges[i].end <= lines.len(),
        i + 1 < ranges.len() ==> ranges[i + 1].start == ranges[i].end,
        ranges[i].start < index < ranges[i].end ==> !full_at(lines, ranges[i].start as int, index),
        i + 1 < ranges.len() ==> full_at(lines, ranges[i].start as int, ranges[i].end as int),
{
    assert(is_chunk(lines, ranges[i].start as int, ranges[i].end as int));
    if i + 1 < ranges.len() {
        assert(ranges[i + 1].start == ranges[i].end);
        assert(is_chunk(lines, ranges[i + 1].start as int, ranges[i + 1].end as int));
    }
}

/// A point is kept to a sixty-fourth, and a chunk is packed at the third level of zstd. A chunk that cannot be
/// unpacked is refused in these words, and then the
/// unpacker's.
pub proof fn a_chunk_is_kept_fine()
    ensures
        QUANTUM == 64,
        ZSTD_LEVEL == 3,
        packed_text() == "a chunk of this note could not be unpacked: "@,
{
}

/// Lines are never left without a chunk, and no chunk is made of no lines.
pub proof fn lines_are_in_chunks(lines: Seq<Line<i32>>, ranges: Seq<Range<usize>>)
    requires
        chunks_up_to(lines, ranges, lines.len() as int),
    ensures
        ranges.len() > 0 <==> lines.len() > 0,
{
    if ranges.len() > 0 {
        assert(is_chunk(lines, ranges[0].start as int, ranges[0].end as int));
    }
}

} // verus!
