//! The arrays of a chunk: a structure of arrays in fixed point, with the three streams separated.
//!
//! ```text
//! [total points: varint] [strokes: varint] [palette: count + colours]
//! [per stroke: colour index, point count]
//! [x: per stroke: i32 base, then deltas]     <- the three arrays
//! [y: per stroke: i32 base, then deltas]
//! [w: per stroke: i32 base, then deltas]
//! ```

use crate::error::{note_error, refused, AppError};
use crate::ink::{lines_of, InkPoint, Line, Stroke};
use crate::text::{decimal, decimal_text};
use crate::wire::{
    byte_at, i32_at, le_bytes, le_reads_back, put_i32, put_varint, unzigzag, unzigzag_of, varint_at, varint_of,
    varint_rest, wrap32, zigzag, zigzag_of, zigzag_reads_back, Cursor,
};
use vstd::prelude::*;

verus! {

/// The most distinct colours one chunk can describe.
pub const MAX_COLORS: usize = 255;

/// How many points a run of lines holds in all.
pub open spec fn points_in(lines: Seq<Line<i32>>) -> nat
    decreases lines.len(),
{
    if lines.len() == 0 {
        0
    } else {
        points_in(lines.drop_last()) + lines.last().points.len()
    }
}

/// The colours a run of lines is written in, each once, in the order they first appear.
pub open spec fn palette_of(lines: Seq<Line<i32>>) -> Seq<u32>
    decreases lines.len(),
{
    if lines.len() == 0 {
        seq![]
    } else {
        let before = palette_of(lines.drop_last());
        if before.contains(lines.last().color) {
            before
        } else {
            before.push(lines.last().color)
        }
    }
}

/// One of a point's three values.
pub open spec fn axis_value(point: InkPoint<i32>, axis: int) -> i32 {
    if axis == 0 {
        point.x
    } else if axis == 1 {
        point.y
    } else {
        point.width
    }
}

/// One axis of a line: one value per point.
pub open spec fn axis_values(line: Line<i32>, axis: int) -> Seq<i32> {
    Seq::new(line.points.len(), |i: int| axis_value(line.points[i], axis))
}

/// The steps from each value to the next, from the one at `from` on.
pub open spec fn deltas_of(values: Seq<i32>, from: int) -> Seq<u8>
    decreases values.len() - from,
{
    if from >= values.len() || from < 1 {
        seq![]
    } else {
        varint_of(zigzag_of(wrap32(values[from] - values[from - 1]))) + deltas_of(values, from + 1)
    }
}

/// One line's values of one axis: the first as an exact integer, the rest as steps from it.
pub open spec fn stream_of(values: Seq<i32>) -> Seq<u8> {
    if values.len() == 0 {
        seq![]
    } else {
        le_bytes(values[0]) + deltas_of(values, 1)
    }
}

/// One axis of every line from the one at `from` on.
pub open spec fn streams_of(lines: Seq<Line<i32>>, axis: int, from: int) -> Seq<u8>
    decreases lines.len() - from,
{
    if from >= lines.len() || from < 0 {
        seq![]
    } else {
        stream_of(axis_values(lines[from], axis)) + streams_of(lines, axis, from + 1)
    }
}

/// The colours of a palette from the one at `from` on.
pub open spec fn colors_of(palette: Seq<u32>, from: int) -> Seq<u8>
    decreases palette.len() - from,
{
    if from >= palette.len() || from < 0 {
        seq![]
    } else {
        varint_of(palette[from] as nat) + colors_of(palette, from + 1)
    }
}

/// The table entries of the lines from the one at `from` on: a colour index and a point count.
pub open spec fn headers_of(lines: Seq<Line<i32>>, palette: Seq<u32>, from: int) -> Seq<u8>
    decreases lines.len() - from,
{
    if from >= lines.len() || from < 0 {
        seq![]
    } else {
        seq![(palette.index_of(lines[from].color) % 256) as u8] + varint_of(
            lines[from].points.len(),
        ) + headers_of(lines, palette, from + 1)
    }
}

/// The lines of one chunk as bytes: the tables that describe them, then the three arrays.
pub open spec fn arrays_of(lines: Seq<Line<i32>>) -> Seq<u8> {
    let palette = palette_of(lines);
    varint_of(points_in(lines)) + varint_of(lines.len()) + varint_of(palette.len()) + colors_of(
        palette,
        0,
    ) + headers_of(lines, palette, 0) + streams_of(lines, 0, 0) + streams_of(lines, 1, 0)
        + streams_of(lines, 2, 0)
}

/// Where a colour is in a palette, if it is there.
fn color_index(colors: &Vec<u32>, color: u32) -> (found: Option<usize>)
    ensures
        match found {
            Some(index) => index < colors@.len() && colors@[index as int] == color,
            None => !colors@.contains(color),
        },
{
    let mut index: usize = 0;
    while index < colors.len()
        invariant
            index <= colors@.len(),
            forall|i: int| 0 <= i < index ==> colors@[i] != color,
        decreases colors@.len() - index,
    {
        if colors[index] == color {
            return Some(index);
        }
        index = index + 1;
    }
    None
}

/// A palette names each of its colours once.
proof fn palette_is_distinct(lines: Seq<Line<i32>>)
    ensures
        palette_of(lines).no_duplicates(),
    decreases lines.len(),
{
    if lines.len() > 0 {
        palette_is_distinct(lines.drop_last());
    }
}

/// A palette holds the colour of every line.
proof fn palette_holds(lines: Seq<Line<i32>>, i: int)
    requires
        0 <= i < lines.len(),
    ensures
        palette_of(lines).contains(lines[i].color),
    decreases lines.len(),
{
    let before = palette_of(lines.drop_last());
    if i < lines.len() - 1 {
        palette_holds(lines.drop_last(), i);
        let k = choose|k: int| 0 <= k < before.len() && before[k] == lines[i].color;
        assert(palette_of(lines)[k] == lines[i].color);
    } else if !before.contains(lines.last().color) {
        assert(palette_of(lines)[before.len() as int] == lines[i].color);
    }
}

/// A prefix of a run of lines, one longer.
proof fn prefix_grows(lines: Seq<Line<i32>>, n: int)
    requires
        0 <= n < lines.len(),
    ensures
        lines.take(n + 1).drop_last() == lines.take(n),
        lines.take(n + 1).last() == lines[n],
{
    assert(lines.take(n + 1).drop_last() =~= lines.take(n));
}

/// A prefix holds no more points than the whole.
proof fn points_grow(lines: Seq<Line<i32>>, n: int)
    requires
        0 <= n <= lines.len(),
    ensures
        points_in(lines.take(n)) <= points_in(lines),
    decreases lines.len() - n,
{
    if n < lines.len() {
        prefix_grows(lines, n);
        points_grow(lines, n + 1);
    } else {
        assert(lines.take(n) =~= lines);
    }
}

/// Appends one axis of one stroke.
fn put_stream(out: &mut Vec<u8>, stroke: &Stroke<i32>, axis: usize)
    requires
        axis < 3,
    ensures
        final(out)@ == old(out)@ + stream_of(axis_values(stroke@, axis as int)),
{
    let ghost values = axis_values(stroke@, axis as int);
    let mut previous: i32 = 0;
    let mut index: usize = 0;
    while index < stroke.points.len()
        invariant
            index <= stroke.points@.len(),
            axis < 3,
            values == axis_values(stroke@, axis as int),
            index == 0 ==> out@ == old(out)@,
            index > 0 ==> previous == values[index - 1] && out@ + deltas_of(values, index as int)
                == old(out)@ + stream_of(values),
        decreases stroke.points@.len() - index,
    {
        let point: InkPoint<i32> = stroke.points[index];
        let value: i32 = if axis == 0 {
            point.x
        } else if axis == 1 {
            point.y
        } else {
            point.width
        };
        let ghost before = out@;
        if index == 0 {
            put_i32(out, value);
        } else {
            let step: i32 = value.wrapping_sub(previous);
            assert(step == wrap32(values[index as int] - values[index - 1]));
            put_varint(out, zigzag(step));
            assert(out@ + deltas_of(values, index + 1) =~= before + deltas_of(
                values,
                index as int,
            ));
        }
        assert(index == 0 ==> out@ + deltas_of(values, 1) =~= old(out)@ + stream_of(values));
        previous = value;
        index = index + 1;
    }
    assert(out@ =~= old(out)@ + stream_of(values));
}

/// The lines of one page, split into the three arrays and the tables that describe them.
pub fn arrays(strokes: &[Stroke<i32>]) -> (out: Vec<u8>)
    requires
        points_in(lines_of(strokes@)) <= u64::MAX,
    ensures
        out@ == arrays_of(lines_of(strokes@)),
{
    let ghost lines = lines_of(strokes@);
    let ghost palette = palette_of(lines);
    let mut points: u64 = 0;
    let mut colors: Vec<u32> = Vec::new();
    let mut seen: usize = 0;
    while seen < strokes.len()
        invariant
            seen <= strokes@.len(),
            lines == lines_of(strokes@),
            points_in(lines) <= u64::MAX,
            points == points_in(lines.take(seen as int)),
            colors@ == palette_of(lines.take(seen as int)),
        decreases strokes@.len() - seen,
    {
        proof {
            prefix_grows(lines, seen as int);
            points_grow(lines, seen + 1);
        }
        points = points + strokes[seen].points.len() as u64;
        if color_index(&colors, strokes[seen].color).is_none() {
            colors.push(strokes[seen].color);
        }
        seen = seen + 1;
    }
    assert(lines.take(seen as int) =~= lines);

    let mut out: Vec<u8> = Vec::new();
    put_varint(&mut out, points);
    put_varint(&mut out, strokes.len() as u64);
    put_varint(&mut out, colors.len() as u64);

    let ghost head = out@;
    let mut named: usize = 0;
    assert(out@ + colors_of(palette, 0) == head + colors_of(palette, 0));
    while named < colors.len()
        invariant
            named <= colors@.len(),
            colors@ == palette,
            out@ + colors_of(palette, named as int) == head + colors_of(palette, 0),
        decreases colors@.len() - named,
    {
        let ghost before = out@;
        put_varint(&mut out, colors[named] as u64);
        assert(out@ + colors_of(palette, named + 1) =~= before + colors_of(palette, named as int));
        named = named + 1;
    }
    assert(out@ =~= head + colors_of(palette, 0));

    let ghost head = out@;
    let mut filed: usize = 0;
    while filed < strokes.len()
        invariant
            filed <= strokes@.len(),
            lines == lines_of(strokes@),
            palette == palette_of(lines),
            colors@ == palette,
            out@ + headers_of(lines, palette, filed as int) == head + headers_of(
                lines,
                palette,
                0,
            ),
        decreases strokes@.len() - filed,
    {
        let ghost before = out@;
        let found: Option<usize> = color_index(&colors, strokes[filed].color);
        proof {
            palette_is_distinct(lines);
            palette_holds(lines, filed as int);
            assert(lines[filed as int].color == strokes@[filed as int].color);
        }
        let index: usize = match found {
            Some(index) => index,
            None => 0,
        };
        assert(index == palette.index_of(lines[filed as int].color));
        out.push((index % 256) as u8);
        put_varint(&mut out, strokes[filed].points.len() as u64);
        assert(out@ + headers_of(lines, palette, filed + 1) =~= before + headers_of(
            lines,
            palette,
            filed as int,
        ));
        filed = filed + 1;
    }
    assert(out@ =~= head + headers_of(lines, palette, 0));

    put_axis(&mut out, strokes, 0);
    put_axis(&mut out, strokes, 1);
    put_axis(&mut out, strokes, 2);
    out
}

/// Appends one axis of every stroke.
fn put_axis(out: &mut Vec<u8>, strokes: &[Stroke<i32>], axis: usize)
    requires
        axis < 3,
    ensures
        final(out)@ == old(out)@ + streams_of(lines_of(strokes@), axis as int, 0),
{
    let ghost lines = lines_of(strokes@);
    let mut laid: usize = 0;
    while laid < strokes.len()
        invariant
            laid <= strokes@.len(),
            axis < 3,
            lines == lines_of(strokes@),
            out@ + streams_of(lines, axis as int, laid as int) == old(out)@ + streams_of(
                lines,
                axis as int,
                0,
            ),
        decreases strokes@.len() - laid,
    {
        let ghost before = out@;
        put_stream(out, &strokes[laid], axis);
        assert(out@ + streams_of(lines, axis as int, laid + 1) =~= before + streams_of(
            lines,
            axis as int,
            laid as int,
        ));
        laid = laid + 1;
    }
    assert(out@ =~= old(out)@ + streams_of(lines, axis as int, 0));
}

// ---------------------------------------------------------------------------------------------
// Reading the arrays back
// ---------------------------------------------------------------------------------------------

/// What was read so far in front of what is read next.
pub open spec fn prepend<V>(
    done: Seq<V>,
    rest: Result<(Seq<V>, int), Seq<char>>,
) -> Result<(Seq<V>, int), Seq<char>> {
    match rest {
        Ok((values, end)) => Ok((done + values, end)),
        Err(reason) => Err(reason),
    }
}

/// `count` further values at a place, each a step from the one before it.
pub open spec fn steps_at(bytes: Seq<u8>, at: int, previous: i32, count: nat) -> Result<
    (Seq<i32>, int),
    Seq<char>,
>
    decreases count,
{
    if count == 0 {
        Ok((seq![], at))
    } else {
        match varint_at(bytes, at) {
            Ok((folded, next)) => {
                let value = wrap32(previous + unzigzag_of(folded));
                prepend(seq![value], steps_at(bytes, next, value, (count - 1) as nat))
            },
            Err(reason) => Err(reason),
        }
    }
}

/// One axis of a line of `count` points.
pub open spec fn stream_at(bytes: Seq<u8>, at: int, count: nat) -> Result<
    (Seq<i32>, int),
    Seq<char>,
> {
    if count == 0 {
        Ok((seq![], at))
    } else {
        match i32_at(bytes, at) {
            Ok((first, next)) => prepend(
                seq![first],
                steps_at(bytes, next, first, (count - 1) as nat),
            ),
            Err(reason) => Err(reason),
        }
    }
}

/// One axis of every line from the one at `from` on.
pub open spec fn streams_at(
    bytes: Seq<u8>,
    at: int,
    headers: Seq<(u32, u64)>,
    from: int,
) -> Result<(Seq<Seq<i32>>, int), Seq<char>>
    decreases headers.len() - from,
{
    if from >= headers.len() || from < 0 {
        Ok((seq![], at))
    } else {
        match stream_at(bytes, at, headers[from].1 as nat) {
            Ok((values, next)) => prepend(
                seq![values],
                streams_at(bytes, next, headers, from + 1),
            ),
            Err(reason) => Err(reason),
        }
    }
}

/// `count` colours of a palette: of a number too large for a colour, only the low 32 bits.
pub open spec fn palette_at(bytes: Seq<u8>, at: int, count: nat) -> Result<
    (Seq<u32>, int),
    Seq<char>,
>
    decreases count,
{
    if count == 0 {
        Ok((seq![], at))
    } else {
        match varint_at(bytes, at) {
            Ok((color, next)) => prepend(
                seq![(color % 0x1_0000_0000) as u32],
                palette_at(bytes, next, (count - 1) as nat),
            ),
            Err(reason) => Err(reason),
        }
    }
}

/// Why a colour index past the palette is refused.
pub open spec fn no_such_color_text() -> Seq<char> {
    "a chunk of this note refers to a colour it does not hold"@
}

/// `count` table entries: the colour each line is written in, and how many points it has.
pub open spec fn headers_at(bytes: Seq<u8>, at: int, palette: Seq<u32>, count: nat) -> Result<
    (Seq<(u32, u64)>, int),
    Seq<char>,
>
    decreases count,
{
    if count == 0 {
        Ok((seq![], at))
    } else {
        match byte_at(bytes, at) {
            Ok((index, after)) => if index >= palette.len() {
                Err(no_such_color_text())
            } else {
                match varint_at(bytes, after) {
                    Ok((points, next)) => prepend(
                        seq![(palette[index as int], points as u64)],
                        headers_at(bytes, next, palette, (count - 1) as nat),
                    ),
                    Err(reason) => Err(reason),
                }
            },
            Err(reason) => Err(reason),
        }
    }
}

/// Why a palette of more than 255 colours is refused.
pub open spec fn too_many_colors_text() -> Seq<char> {
    "a chunk of this note names more colours than a chunk can hold"@
}

/// Why counts larger than the chunk itself are refused.
pub open spec fn too_much_ink_text() -> Seq<char> {
    "a chunk of this note claims more ink than its own bytes could hold"@
}

/// Why a chunk with bytes nobody read is refused.
pub open spec fn left_over_text(left: nat) -> Seq<char> {
    "a chunk of this note has "@ + decimal_text(left) + " bytes left over"@
}

/// The line three streams and a table entry describe.
pub open spec fn line_of(header: (u32, u64), xs: Seq<i32>, ys: Seq<i32>, ws: Seq<i32>) -> Line<i32> {
    Line {
        points: Seq::new(xs.len(), |i: int| InkPoint { x: xs[i], y: ys[i], width: ws[i] }),
        color: header.0,
    }
}

/// The lines the three arrays hold, once the tables are known.
pub open spec fn ink_at(bytes: Seq<u8>, at: int, headers: Seq<(u32, u64)>) -> Result<
    Seq<Line<i32>>,
    Seq<char>,
> {
    match streams_at(bytes, at, headers, 0) {
        Ok((xs, after_x)) => match streams_at(bytes, after_x, headers, 0) {
            Ok((ys, after_y)) => match streams_at(bytes, after_y, headers, 0) {
                Ok((ws, end)) => if end != bytes.len() {
                    Err(left_over_text((bytes.len() - end) as nat))
                } else {
                    Ok(Seq::new(headers.len(), |i: int| line_of(headers[i], xs[i], ys[i], ws[i])))
                },
                Err(reason) => Err(reason),
            },
            Err(reason) => Err(reason),
        },
        Err(reason) => Err(reason),
    }
}

/// The lines of a chunk, once its palette is known.
pub open spec fn tables_at(
    bytes: Seq<u8>,
    at: int,
    points: nat,
    count: nat,
    palette: Seq<u32>,
) -> Result<Seq<Line<i32>>, Seq<char>> {
    if count > bytes.len() || points > bytes.len() {
        Err(too_much_ink_text())
    } else {
        match headers_at(bytes, at, palette, count) {
            Ok((headers, next)) => ink_at(bytes, next, headers),
            Err(reason) => Err(reason),
        }
    }
}

/// The lines the arrays of a chunk describe, or why they describe none.
pub open spec fn lines_in(raw: Seq<u8>) -> Result<Seq<Line<i32>>, Seq<char>> {
    match varint_at(raw, 0) {
        Ok((points, after_points)) => match varint_at(raw, after_points) {
            Ok((count, after_count)) => match varint_at(raw, after_count) {
                Ok((colors, after_colors)) => if colors > MAX_COLORS {
                    Err(too_many_colors_text())
                } else {
                    match palette_at(raw, after_colors, colors) {
                        Ok((palette, next)) => tables_at(raw, next, points, count, palette),
                        Err(reason) => Err(reason),
                    }
                },
                Err(reason) => Err(reason),
            },
            Err(reason) => Err(reason),
        },
        Err(reason) => Err(reason),
    }
}

/// One more value in front of the rest.
proof fn prepend_moves<V>(done: Seq<V>, value: V, rest: Result<(Seq<V>, int), Seq<char>>)
    ensures
        prepend(done.push(value), rest) == prepend(done, prepend(seq![value], rest)),
{
    if let Ok((values, end)) = rest {
        assert(done.push(value) + values =~= done + (seq![value] + values));
    }
}

/// Nothing in front changes nothing.
proof fn prepend_nothing<V>(rest: Result<(Seq<V>, int), Seq<char>>)
    ensures
        prepend(seq![], rest) == rest,
{
    if let Ok((values, end)) = rest {
        assert(Seq::<V>::empty() + values =~= values);
    }
}

/// Reads one axis of one line.
fn read_stream(cursor: &mut Cursor<'_>, count: u64) -> (result: Result<Vec<i32>, AppError>)
    requires
        old(cursor).wf(),
    ensures
        final(cursor).wf(),
        final(cursor).bytes() == old(cursor).bytes(),
        match stream_at(old(cursor).bytes(), old(cursor).at(), count as nat) {
            Ok((values, end)) => result matches Ok(read) && read@ == values && final(cursor).at()
                == end,
            Err(reason) => refused(result, reason),
        },
{
    let ghost bytes = cursor.bytes();
    let ghost whole = stream_at(bytes, cursor.at(), count as nat);
    let mut values: Vec<i32> = Vec::new();
    if count == 0 {
        return Ok(values);
    }
    let mut previous: i32 = match cursor.i32_le() {
        Ok(first) => first,
        Err(error) => return Err(error),
    };
    values.push(previous);
    assert(values@ =~= seq![previous]);
    let mut index: u64 = 1;
    while index < count
        invariant
            1 <= index <= count,
            cursor.wf(),
            cursor.bytes() == bytes,
            bytes == old(cursor).bytes(),
            whole == stream_at(bytes, old(cursor).at(), count as nat),
            whole == prepend(
                values@,
                steps_at(bytes, cursor.at(), previous, (count - index) as nat),
            ),
        decreases count - index,
    {
        let ghost before = values@;
        let folded: u64 = match cursor.varint() {
            Ok(folded) => folded,
            Err(error) => return Err(error),
        };
        previous = previous.wrapping_add(unzigzag(folded));
        values.push(previous);
        index = index + 1;
        proof {
            prepend_moves(
                before,
                previous,
                steps_at(bytes, cursor.at(), previous, (count - index) as nat),
            );
        }
    }
    assert(values@ + Seq::<i32>::empty() =~= values@);
    Ok(values)
}

/// The values a list of read streams holds.
spec fn nested(streams: Seq<Vec<i32>>) -> Seq<Seq<i32>> {
    Seq::new(streams.len(), |i: int| streams[i]@)
}

/// Reads one axis of every line.
fn read_streams(cursor: &mut Cursor<'_>, headers: &Vec<(u32, u64)>) -> (result: Result<
    Vec<Vec<i32>>,
    AppError,
>)
    requires
        old(cursor).wf(),
    ensures
        final(cursor).wf(),
        final(cursor).bytes() == old(cursor).bytes(),
        match streams_at(old(cursor).bytes(), old(cursor).at(), headers@, 0) {
            Ok((values, end)) => result matches Ok(read) && nested(read@) == values && final(
                cursor).at() == end,
            Err(reason) => refused(result, reason),
        },
{
    let ghost bytes = cursor.bytes();
    let ghost whole = streams_at(bytes, cursor.at(), headers@, 0);
    let mut streams: Vec<Vec<i32>> = Vec::new();
    let mut index: usize = 0;
    proof {
        assert(nested(streams@) =~= seq![]);
        prepend_nothing(whole);
    }
    while index < headers.len()
        invariant
            index <= headers@.len(),
            cursor.wf(),
            cursor.bytes() == bytes,
            bytes == old(cursor).bytes(),
            whole == streams_at(bytes, old(cursor).at(), headers@, 0),
            whole == prepend(
                nested(streams@),
                streams_at(bytes, cursor.at(), headers@, index as int),
            ),
        decreases headers@.len() - index,
    {
        let ghost before = nested(streams@);
        let values: Vec<i32> = match read_stream(cursor, headers[index].1) {
            Ok(values) => values,
            Err(error) => return Err(error),
        };
        let ghost read = values@;
        streams.push(values);
        index = index + 1;
        proof {
            prepend_moves(before, read, streams_at(bytes, cursor.at(), headers@, index as int));
            assert(nested(streams@) =~= before.push(read));
        }
    }
    assert(nested(streams@) + Seq::<Seq<i32>>::empty() =~= nested(streams@));
    Ok(streams)
}

/// Every stream has one value for each point its table entry promises.
proof fn streams_are_full(bytes: Seq<u8>, at: int, headers: Seq<(u32, u64)>, from: int)
    requires
        0 <= from <= headers.len(),
    ensures
        streams_at(bytes, at, headers, from) matches Ok((streams, _)) ==> streams.len()
            == headers.len() - from && (forall|i: int|
            0 <= i < streams.len() ==> #[trigger] streams[i].len() == headers[from + i].1),
    decreases headers.len() - from,
{
    if from < headers.len() {
        if let Ok((values, next)) = stream_at(bytes, at, headers[from].1 as nat) {
            stream_is_full(bytes, at, headers[from].1 as nat);
            streams_are_full(bytes, next, headers, from + 1);
            if let Ok((streams, _)) = streams_at(bytes, next, headers, from + 1) {
                assert forall|i: int| 0 <= i < streams.len() + 1 implies #[trigger] (seq![values]
                    + streams)[i].len() == headers[from + i].1 by {
                    if i > 0 {
                        assert((seq![values] + streams)[i] == streams[i - 1]);
                    }
                }
            }
        }
    }
}

/// A stream has as many values as were asked for.
proof fn stream_is_full(bytes: Seq<u8>, at: int, count: nat)
    ensures
        stream_at(bytes, at, count) matches Ok((values, _)) ==> values.len() == count,
{
    if count > 0 {
        if let Ok((first, next)) = i32_at(bytes, at) {
            steps_are_full(bytes, next, first, (count - 1) as nat);
        }
    }
}

/// As many steps are read as were asked for.
proof fn steps_are_full(bytes: Seq<u8>, at: int, previous: i32, count: nat)
    ensures
        steps_at(bytes, at, previous, count) matches Ok((values, _)) ==> values.len() == count,
    decreases count,
{
    if count > 0 {
        if let Ok((folded, next)) = varint_at(bytes, at) {
            steps_are_full(
                bytes,
                next,
                wrap32(previous + unzigzag_of(folded)),
                (count - 1) as nat,
            );
        }
    }
}

/// The line one table entry and three streams describe, as a stroke.
fn stroke_of(color: u32, xs: &Vec<i32>, ys: &Vec<i32>, ws: &Vec<i32>) -> (stroke: Stroke<i32>)
    requires
        xs@.len() == ys@.len() == ws@.len(),
    ensures
        forall|count: u64| stroke@ == #[trigger] line_of((color, count), xs@, ys@, ws@),
{
    let mut points: Vec<InkPoint<i32>> = Vec::new();
    let mut index: usize = 0;
    while index < xs.len()
        invariant
            index <= xs@.len(),
            xs@.len() == ys@.len() == ws@.len(),
            points@.len() == index,
            forall|i: int|
                0 <= i < index ==> points@[i] == (InkPoint { x: xs@[i], y: ys@[i], width: ws@[i] }),
        decreases xs@.len() - index,
    {
        points.push(InkPoint { x: xs[index], y: ys[index], width: ws[index] });
        index = index + 1;
    }
    let stroke: Stroke<i32> = Stroke { points, color };
    assert forall|count: u64| stroke@ == #[trigger] line_of((color, count), xs@, ys@, ws@) by {
        assert(stroke@.points =~= line_of((color, count), xs@, ys@, ws@).points);
    }
    stroke
}

/// The strokes a read left behind, as a result over lines.
pub open spec fn reads_as(
    result: Result<Vec<Stroke<i32>>, AppError>,
    meant: Result<Seq<Line<i32>>, Seq<char>>,
) -> bool {
    match meant {
        Ok(lines) => result matches Ok(strokes) && lines_of(strokes@) == lines,
        Err(reason) => refused(result, reason),
    }
}

/// Reads the three arrays, once the tables are known.
fn read_ink(cursor: &mut Cursor<'_>, headers: &Vec<(u32, u64)>) -> (result: Result<
    Vec<Stroke<i32>>,
    AppError,
>)
    requires
        old(cursor).wf(),
    ensures
        reads_as(result, ink_at(old(cursor).bytes(), old(cursor).at(), headers@)),
{
    let ghost bytes = cursor.bytes();
    proof {
        streams_are_full(bytes, cursor.at(), headers@, 0);
    }
    let xs: Vec<Vec<i32>> = match read_streams(cursor, headers) {
        Ok(streams) => streams,
        Err(error) => return Err(error),
    };
    proof {
        streams_are_full(bytes, cursor.at(), headers@, 0);
    }
    let ys: Vec<Vec<i32>> = match read_streams(cursor, headers) {
        Ok(streams) => streams,
        Err(error) => return Err(error),
    };
    proof {
        streams_are_full(bytes, cursor.at(), headers@, 0);
    }
    let ws: Vec<Vec<i32>> = match read_streams(cursor, headers) {
        Ok(streams) => streams,
        Err(error) => return Err(error),
    };
    let left: usize = cursor.remaining();
    if left != 0 {
        return Err(
            AppError::Note(
                String::from_str("a chunk of this note has ").concat(
                    decimal(left as u64).as_str(),
                ).concat(" bytes left over"),
            ),
        );
    }
    let mut strokes: Vec<Stroke<i32>> = Vec::new();
    let mut index: usize = 0;
    assert(nested(xs@).len() == headers@.len());
    assert(nested(ys@).len() == headers@.len());
    assert(nested(ws@).len() == headers@.len());
    while index < headers.len()
        invariant
            index <= headers@.len(),
            xs@.len() == ys@.len() == ws@.len() == headers@.len(),
            forall|i: int|
                0 <= i < headers@.len() ==> #[trigger] nested(xs@)[i].len() == headers@[i].1,
            forall|i: int|
                0 <= i < headers@.len() ==> #[trigger] nested(ys@)[i].len() == headers@[i].1,
            forall|i: int|
                0 <= i < headers@.len() ==> #[trigger] nested(ws@)[i].len() == headers@[i].1,
            strokes@.len() == index,
            forall|i: int|
                0 <= i < index ==> #[trigger] strokes@[i]@ == line_of(
                    headers@[i],
                    nested(xs@)[i],
                    nested(ys@)[i],
                    nested(ws@)[i],
                ),
        decreases headers@.len() - index,
    {
        assert(nested(xs@)[index as int].len() == headers@[index as int].1);
        assert(nested(ys@)[index as int].len() == headers@[index as int].1);
        assert(nested(ws@)[index as int].len() == headers@[index as int].1);
        strokes.push(stroke_of(headers[index].0, &xs[index], &ys[index], &ws[index]));
        assert(strokes@[index as int]@ == line_of(
            (headers@[index as int].0, headers@[index as int].1),
            xs@[index as int]@,
            ys@[index as int]@,
            ws@[index as int]@,
        ));
        index = index + 1;
    }
    assert(lines_of(strokes@) =~= Seq::new(
        headers@.len(),
        |i: int| line_of(headers@[i], nested(xs@)[i], nested(ys@)[i], nested(ws@)[i]),
    ));
    Ok(strokes)
}

/// Reads a palette of `count` colours.
fn read_palette(cursor: &mut Cursor<'_>, count: u64) -> (result: Result<Vec<u32>, AppError>)
    requires
        old(cursor).wf(),
    ensures
        final(cursor).wf(),
        final(cursor).bytes() == old(cursor).bytes(),
        match palette_at(old(cursor).bytes(), old(cursor).at(), count as nat) {
            Ok((colors, end)) => result matches Ok(read) && read@ == colors && final(cursor).at()
                == end,
            Err(reason) => refused(result, reason),
        },
{
    let ghost bytes = cursor.bytes();
    let ghost whole = palette_at(bytes, cursor.at(), count as nat);
    let mut palette: Vec<u32> = Vec::new();
    let mut index: u64 = 0;
    proof {
        prepend_nothing(whole);
    }
    while index < count
        invariant
            index <= count,
            cursor.wf(),
            cursor.bytes() == bytes,
            bytes == old(cursor).bytes(),
            whole == palette_at(bytes, old(cursor).at(), count as nat),
            whole == prepend(palette@, palette_at(bytes, cursor.at(), (count - index) as nat)),
        decreases count - index,
    {
        let ghost before = palette@;
        let color: u64 = match cursor.varint() {
            Ok(color) => color,
            Err(error) => return Err(error),
        };
        let low: u32 = (color % 0x1_0000_0000) as u32;
        palette.push(low);
        index = index + 1;
        proof {
            prepend_moves(before, low, palette_at(bytes, cursor.at(), (count - index) as nat));
        }
    }
    assert(palette@ + Seq::<u32>::empty() =~= palette@);
    Ok(palette)
}

/// Reads `count` table entries.
fn read_headers(cursor: &mut Cursor<'_>, palette: &Vec<u32>, count: u64) -> (result: Result<
    Vec<(u32, u64)>,
    AppError,
>)
    requires
        old(cursor).wf(),
    ensures
        final(cursor).wf(),
        final(cursor).bytes() == old(cursor).bytes(),
        match headers_at(old(cursor).bytes(), old(cursor).at(), palette@, count as nat) {
            Ok((headers, end)) => result matches Ok(read) && read@ == headers && final(
                cursor).at() == end,
            Err(reason) => refused(result, reason),
        },
{
    let ghost bytes = cursor.bytes();
    let ghost whole = headers_at(bytes, cursor.at(), palette@, count as nat);
    let mut headers: Vec<(u32, u64)> = Vec::new();
    let mut index: u64 = 0;
    proof {
        prepend_nothing(whole);
    }
    while index < count
        invariant
            index <= count,
            cursor.wf(),
            cursor.bytes() == bytes,
            bytes == old(cursor).bytes(),
            whole == headers_at(bytes, old(cursor).at(), palette@, count as nat),
            whole == prepend(
                headers@,
                headers_at(bytes, cursor.at(), palette@, (count - index) as nat),
            ),
        decreases count - index,
    {
        let ghost before = headers@;
        let named: u8 = match cursor.byte() {
            Ok(named) => named,
            Err(error) => return Err(error),
        };
        if named as usize >= palette.len() {
            return Err(note_error("a chunk of this note refers to a colour it does not hold"));
        }
        let color: u32 = palette[named as usize];
        let points: u64 = match cursor.varint() {
            Ok(points) => points,
            Err(error) => return Err(error),
        };
        headers.push((color, points));
        index = index + 1;
        proof {
            prepend_moves(
                before,
                (color, points),
                headers_at(bytes, cursor.at(), palette@, (count - index) as nat),
            );
        }
    }
    assert(headers@ + Seq::<(u32, u64)>::empty() =~= headers@);
    Ok(headers)
}

/// The strokes the arrays in `raw` describe.
pub fn read_arrays(raw: &[u8]) -> (result: Result<Vec<Stroke<i32>>, AppError>)
    ensures
        reads_as(result, lines_in(raw@)),
{
    let mut cursor = Cursor::new(raw);
    let points: u64 = match cursor.varint() {
        Ok(points) => points,
        Err(error) => return Err(error),
    };
    let count: u64 = match cursor.varint() {
        Ok(count) => count,
        Err(error) => return Err(error),
    };
    let colors: u64 = match cursor.varint() {
        Ok(colors) => colors,
        Err(error) => return Err(error),
    };
    if colors > MAX_COLORS as u64 {
        return Err(note_error("a chunk of this note names more colours than a chunk can hold"));
    }
    let palette: Vec<u32> = match read_palette(&mut cursor, colors) {
        Ok(palette) => palette,
        Err(error) => return Err(error),
    };
    // Both counts come from the blob, so neither is believed before the bytes that would have to
    // hold them are known to be there.
    if count > raw.len() as u64 || points > raw.len() as u64 {
        return Err(note_error("a chunk of this note claims more ink than its own bytes could hold"));
    }
    let headers: Vec<(u32, u64)> = match read_headers(&mut cursor, &palette, count) {
        Ok(headers) => headers,
        Err(error) => return Err(error),
    };
    read_ink(&mut cursor, &headers)
}

// ---------------------------------------------------------------------------------------------
// What is written is what is read
// ---------------------------------------------------------------------------------------------

/// Whether a run of bytes stands at a place.
pub open spec fn holds(bytes: Seq<u8>, at: int, part: Seq<u8>) -> bool {
    &&& 0 <= at
    &&& at + part.len() <= bytes.len()
    &&& bytes.subrange(at, at + part.len()) == part
}

/// Two runs, one after the other.
proof fn holds_splits(bytes: Seq<u8>, at: int, a: Seq<u8>, b: Seq<u8>)
    requires
        holds(bytes, at, a + b),
    ensures
        holds(bytes, at, a),
        holds(bytes, at + a.len(), b),
{
    let whole = bytes.subrange(at, at + (a + b).len());
    assert(bytes.subrange(at, at + a.len()) =~= whole.subrange(0, a.len() as int));
    assert((a + b).subrange(0, a.len() as int) =~= a);
    assert(bytes.subrange(at + a.len(), at + a.len() + b.len()) =~= whole.subrange(
        a.len() as int,
        (a + b).len() as int,
    ));
    assert((a + b).subrange(a.len() as int, (a + b).len() as int) =~= b);
}

/// One more than the largest number that fits in what is left of ten bytes.
spec fn room(taken: nat) -> nat
    decreases 10 - taken,
{
    if taken >= 9 {
        128
    } else {
        128 * room(taken + 1)
    }
}

/// A varint reads back as the number it was written from.
proof fn varint_rest_reads_back(bytes: Seq<u8>, at: int, value: nat, taken: nat)
    requires
        taken < 10,
        value < room(taken),
        holds(bytes, at, varint_of(value)),
    ensures
        varint_rest(bytes, at, taken) == Ok::<(nat, int), Seq<char>>(
            (value, at + varint_of(value).len()),
        ),
    decreases value,
{
    let first = bytes.subrange(at, at + varint_of(value).len())[0];
    assert(first == bytes[at]);
    if value >= 128 {
        holds_splits(bytes, at, seq![(value % 128 + 128) as u8], varint_of(value / 128));
        varint_rest_reads_back(bytes, at + 1, value / 128, taken + 1);
        assert((first - 128 + 128 * (value / 128)) as nat == value);
    }
}

/// A varint of 64 bits reads back as the number it was written from.
pub proof fn varint_reads_back(bytes: Seq<u8>, at: int, value: nat)
    requires
        value <= u64::MAX,
        holds(bytes, at, varint_of(value)),
    ensures
        varint_at(bytes, at) == Ok::<(nat, int), Seq<char>>((value, at + varint_of(value).len())),
{
    reveal_with_fuel(room, 10);
    varint_rest_reads_back(bytes, at, value, 0);
}

/// Four bytes read back as the integer they were written from.
proof fn i32_reads_back(bytes: Seq<u8>, at: int, value: i32)
    requires
        holds(bytes, at, le_bytes(value)),
    ensures
        i32_at(bytes, at) == Ok::<(i32, int), Seq<char>>((value, at + le_bytes(value).len())),
{
    let part = bytes.subrange(at, at + 4);
    assert(part[0] == bytes[at] && part[1] == bytes[at + 1] && part[2] == bytes[at + 2] && part[3]
        == bytes[at + 3]);
    le_reads_back(value);
}

/// A step taken from where it was measured leads to where it was measured to.
proof fn step_returns(previous: i32, value: i32)
    ensures
        wrap32(previous + unzigzag_of(zigzag_of(wrap32(value - previous)))) == value,
{
    zigzag_reads_back(wrap32(value - previous));
}

/// The steps of a stream read back as the values they lead to.
proof fn steps_read_back(bytes: Seq<u8>, at: int, values: Seq<i32>, from: int)
    requires
        1 <= from <= values.len(),
        holds(bytes, at, deltas_of(values, from)),
    ensures
        steps_at(bytes, at, values[from - 1], (values.len() - from) as nat) == Ok::<
            (Seq<i32>, int),
            Seq<char>,
        >((values.skip(from), at + deltas_of(values, from).len())),
    decreases values.len() - from,
{
    if from < values.len() {
        let step = wrap32(values[from] - values[from - 1]);
        let part = varint_of(zigzag_of(step));
        holds_splits(bytes, at, part, deltas_of(values, from + 1));
        varint_reads_back(bytes, at, zigzag_of(step));
        steps_read_back(bytes, at + part.len(), values, from + 1);
        step_returns(values[from - 1], values[from]);
        assert(seq![values[from]] + values.skip(from + 1) =~= values.skip(from));
    } else {
        assert(values.skip(from) =~= seq![]);
    }
}

/// A stream reads back as the values it was written from.
proof fn stream_reads_back(bytes: Seq<u8>, at: int, values: Seq<i32>)
    requires
        holds(bytes, at, stream_of(values)),
    ensures
        stream_at(bytes, at, values.len()) == Ok::<(Seq<i32>, int), Seq<char>>(
            (values, at + stream_of(values).len()),
        ),
{
    if values.len() > 0 {
        holds_splits(bytes, at, le_bytes(values[0]), deltas_of(values, 1));
        i32_reads_back(bytes, at, values[0]);
        steps_read_back(bytes, at + 4, values, 1);
        assert(seq![values[0]] + values.skip(1) =~= values);
    } else {
        assert(values =~= seq![]);
    }
}

/// The table entries of a run of lines.
pub open spec fn headers_for(lines: Seq<Line<i32>>) -> Seq<(u32, u64)> {
    Seq::new(lines.len(), |i: int| (lines[i].color, lines[i].points.len() as u64))
}

/// One axis of the lines from the one at `from` on.
spec fn axes_from(lines: Seq<Line<i32>>, axis: int, from: int) -> Seq<Seq<i32>> {
    Seq::new((lines.len() - from) as nat, |i: int| axis_values(lines[from + i], axis))
}

/// An array reads back as the values it was written from.
proof fn streams_read_back(bytes: Seq<u8>, at: int, lines: Seq<Line<i32>>, axis: int, from: int)
    requires
        0 <= from <= lines.len(),
        forall|i: int| 0 <= i < lines.len() ==> #[trigger] lines[i].points.len() <= u64::MAX,
        holds(bytes, at, streams_of(lines, axis, from)),
    ensures
        streams_at(bytes, at, headers_for(lines), from) == Ok::<(Seq<Seq<i32>>, int), Seq<char>>(
            (axes_from(lines, axis, from), at + streams_of(lines, axis, from).len()),
        ),
    decreases lines.len() - from,
{
    if from < lines.len() {
        let values = axis_values(lines[from], axis);
        holds_splits(bytes, at, stream_of(values), streams_of(lines, axis, from + 1));
        stream_reads_back(bytes, at, values);
        streams_read_back(bytes, at + stream_of(values).len(), lines, axis, from + 1);
        assert(seq![values] + axes_from(lines, axis, from + 1) =~= axes_from(lines, axis, from));
    } else {
        assert(axes_from(lines, axis, from) =~= seq![]);
    }
}

/// A palette reads back as the colours it was written from.
proof fn palette_reads_back(bytes: Seq<u8>, at: int, palette: Seq<u32>, from: int)
    requires
        0 <= from <= palette.len(),
        holds(bytes, at, colors_of(palette, from)),
    ensures
        palette_at(bytes, at, (palette.len() - from) as nat) == Ok::<(Seq<u32>, int), Seq<char>>(
            (palette.skip(from), at + colors_of(palette, from).len()),
        ),
    decreases palette.len() - from,
{
    if from < palette.len() {
        let part = varint_of(palette[from] as nat);
        holds_splits(bytes, at, part, colors_of(palette, from + 1));
        varint_reads_back(bytes, at, palette[from] as nat);
        palette_reads_back(bytes, at + part.len(), palette, from + 1);
        assert(seq![palette[from]] + palette.skip(from + 1) =~= palette.skip(from));
    } else {
        assert(palette.skip(from) =~= seq![]);
    }
}

/// The tables read back as the colours and counts they were written from.
proof fn headers_read_back(bytes: Seq<u8>, at: int, lines: Seq<Line<i32>>, from: int)
    requires
        0 <= from <= lines.len(),
        palette_of(lines).len() <= MAX_COLORS,
        forall|i: int| 0 <= i < lines.len() ==> #[trigger] lines[i].points.len() <= u64::MAX,
        holds(bytes, at, headers_of(lines, palette_of(lines), from)),
    ensures
        headers_at(bytes, at, palette_of(lines), (lines.len() - from) as nat) == Ok::<
            (Seq<(u32, u64)>, int),
            Seq<char>,
        >(
            (
                headers_for(lines).skip(from),
                at + headers_of(lines, palette_of(lines), from).len(),
            ),
        ),
    decreases lines.len() - from,
{
    let palette = palette_of(lines);
    if from < lines.len() {
        palette_holds(lines, from);
        let index = palette.index_of(lines[from].color);
        let name = seq![(index % 256) as u8];
        let count = varint_of(lines[from].points.len());
        holds_splits(bytes, at, name + count, headers_of(lines, palette, from + 1));
        holds_splits(bytes, at, name, count);
        assert(bytes.subrange(at, at + 1)[0] == bytes[at]);
        varint_reads_back(bytes, at + 1, lines[from].points.len());
        headers_read_back(bytes, at + (name + count).len(), lines, from + 1);
        assert(seq![headers_for(lines)[from]] + headers_for(lines).skip(from + 1)
            =~= headers_for(lines).skip(from));
    } else {
        assert(headers_for(lines).skip(from) =~= seq![]);
    }
}

/// An array has at least one byte for each point.
proof fn streams_are_long(lines: Seq<Line<i32>>, axis: int, from: int)
    requires
        0 <= from <= lines.len(),
    ensures
        points_in(lines.take(from)) + streams_of(lines, axis, from).len() >= points_in(lines),
    decreases lines.len() - from,
{
    if from < lines.len() {
        prefix_grows(lines, from);
        streams_are_long(lines, axis, from + 1);
        let values = axis_values(lines[from], axis);
        if values.len() > 0 {
            deltas_are_long(values, 1);
        }
    } else {
        assert(lines.take(from) =~= lines);
    }
}

/// Every step takes at least one byte.
proof fn deltas_are_long(values: Seq<i32>, from: int)
    requires
        1 <= from <= values.len(),
    ensures
        deltas_of(values, from).len() >= values.len() - from,
    decreases values.len() - from,
{
    if from < values.len() {
        deltas_are_long(values, from + 1);
    }
}

/// The tables have at least one byte for each line.
proof fn headers_are_long(lines: Seq<Line<i32>>, palette: Seq<u32>, from: int)
    requires
        0 <= from <= lines.len(),
    ensures
        headers_of(lines, palette, from).len() >= lines.len() - from,
    decreases lines.len() - from,
{
    if from < lines.len() {
        headers_are_long(lines, palette, from + 1);
    }
}

/// No line has more points than the whole run.
proof fn line_fits(lines: Seq<Line<i32>>, i: int)
    requires
        0 <= i < lines.len(),
    ensures
        lines[i].points.len() <= points_in(lines),
    decreases lines.len(),
{
    if i < lines.len() - 1 {
        line_fits(lines.drop_last(), i);
    }
}

/// The three arrays read back as the lines they were written from.
proof fn ink_reads_back(raw: Seq<u8>, at: int, lines: Seq<Line<i32>>)
    requires
        forall|i: int| 0 <= i < lines.len() ==> #[trigger] lines[i].points.len() <= u64::MAX,
        holds(raw, at, streams_of(lines, 0, 0) + streams_of(lines, 1, 0) + streams_of(lines, 2, 0)),
        raw.len() == at + streams_of(lines, 0, 0).len() + streams_of(lines, 1, 0).len()
            + streams_of(lines, 2, 0).len(),
    ensures
        ink_at(raw, at, headers_for(lines)) == Ok::<Seq<Line<i32>>, Seq<char>>(lines),
{
    let xs = streams_of(lines, 0, 0);
    let ys = streams_of(lines, 1, 0);
    let ws = streams_of(lines, 2, 0);
    let headers = headers_for(lines);
    holds_splits(raw, at, xs + ys, ws);
    holds_splits(raw, at, xs, ys);
    streams_read_back(raw, at, lines, 0, 0);
    streams_read_back(raw, at + xs.len(), lines, 1, 0);
    streams_read_back(raw, at + (xs + ys).len(), lines, 2, 0);
    let read = Seq::new(
        headers.len(),
        |i: int|
            line_of(
                headers[i],
                axes_from(lines, 0, 0)[i],
                axes_from(lines, 1, 0)[i],
                axes_from(lines, 2, 0)[i],
            ),
    );
    assert forall|i: int| 0 <= i < lines.len() implies #[trigger] read[i] == lines[i] by {
        assert(read[i].points =~= lines[i].points);
    }
    assert(read =~= lines);
}

/// What comes before the three arrays: the two counts, the palette, and the tables.
spec fn front_of(lines: Seq<Line<i32>>) -> Seq<u8> {
    varint_of(points_in(lines)) + varint_of(lines.len()) + varint_of(palette_of(lines).len())
        + colors_of(palette_of(lines), 0) + headers_of(lines, palette_of(lines), 0)
}

/// The arrays are what comes before them and the three arrays themselves.
proof fn arrays_have_a_front(lines: Seq<Line<i32>>)
    ensures
        holds(arrays_of(lines), 0, front_of(lines)),
        holds(
            arrays_of(lines),
            front_of(lines).len() as int,
            streams_of(lines, 0, 0) + streams_of(lines, 1, 0) + streams_of(lines, 2, 0),
        ),
        arrays_of(lines).len() == front_of(lines).len() + streams_of(lines, 0, 0).len()
            + streams_of(lines, 1, 0).len() + streams_of(lines, 2, 0).len(),
{
    let raw = arrays_of(lines);
    let ink = streams_of(lines, 0, 0) + streams_of(lines, 1, 0) + streams_of(lines, 2, 0);
    assert(raw =~= front_of(lines) + ink);
    assert(raw.subrange(0, raw.len() as int) =~= raw);
    holds_splits(raw, 0, front_of(lines), ink);
}

/// The parts of what comes before the arrays stand one behind the other.
proof fn front_splits(raw: Seq<u8>, lines: Seq<Line<i32>>)
    requires
        holds(raw, 0, front_of(lines)),
    ensures
        ({
            let points = varint_of(points_in(lines));
            let a2 = points + varint_of(lines.len());
            let a3 = a2 + varint_of(palette_of(lines).len());
            let a4 = a3 + colors_of(palette_of(lines), 0);
            &&& holds(raw, 0, points)
            &&& holds(raw, points.len() as int, varint_of(lines.len()))
            &&& holds(raw, a2.len() as int, varint_of(palette_of(lines).len()))
            &&& holds(raw, a3.len() as int, colors_of(palette_of(lines), 0))
            &&& holds(raw, a4.len() as int, headers_of(lines, palette_of(lines), 0))
        }),
{
    let points = varint_of(points_in(lines));
    let count = varint_of(lines.len());
    let colors = varint_of(palette_of(lines).len());
    let names = colors_of(palette_of(lines), 0);
    let tables = headers_of(lines, palette_of(lines), 0);
    let a2 = points + count;
    let a3 = a2 + colors;
    let a4 = a3 + names;
    holds_splits(raw, 0, a4, tables);
    holds_splits(raw, 0, a3, names);
    holds_splits(raw, 0, a2, colors);
    holds_splits(raw, 0, points, count);
}

/// There are no more points and no more lines than there are bytes.
proof fn arrays_are_long(lines: Seq<Line<i32>>)
    ensures
        points_in(lines) <= arrays_of(lines).len(),
        lines.len() <= arrays_of(lines).len(),
{
    arrays_have_a_front(lines);
    streams_are_long(lines, 0, 0);
    assert(lines.take(0) =~= seq![]);
    headers_are_long(lines, palette_of(lines), 0);
}

/// What is written is what is read: the arrays of any lines whose colours fit in one palette read
/// back as exactly those lines.
#[verifier::spinoff_prover]
#[verifier::rlimit(40)]
pub proof fn arrays_read_back(lines: Seq<Line<i32>>)
    requires
        palette_of(lines).len() <= MAX_COLORS,
        lines.len() <= u64::MAX,
        points_in(lines) <= u64::MAX,
    ensures
        lines_in(arrays_of(lines)) == Ok::<Seq<Line<i32>>, Seq<char>>(lines),
{
    let palette = palette_of(lines);
    let raw = arrays_of(lines);
    let points = varint_of(points_in(lines));
    let a2 = points + varint_of(lines.len());
    let a3 = a2 + varint_of(palette.len());
    let a4 = a3 + colors_of(palette, 0);
    assert forall|i: int| 0 <= i < lines.len() implies #[trigger] lines[i].points.len()
        <= u64::MAX by {
        line_fits(lines, i);
    }
    arrays_have_a_front(lines);
    front_splits(raw, lines);
    arrays_are_long(lines);
    varint_reads_back(raw, 0, points_in(lines));
    varint_reads_back(raw, points.len() as int, lines.len());
    varint_reads_back(raw, a2.len() as int, palette.len());
    palette_reads_back(raw, a3.len() as int, palette, 0);
    assert(palette.skip(0) =~= palette);
    headers_read_back(raw, a4.len() as int, lines, 0);
    assert(headers_for(lines).skip(0) =~= headers_for(lines));
    ink_reads_back(raw, front_of(lines).len() as int, lines);
}

/// A number takes no more bytes than it has room for.
proof fn varint_is_short(value: nat, taken: nat)
    requires
        taken < 10,
        value < room(taken),
    ensures
        varint_of(value).len() <= 10 - taken,
    decreases value,
{
    if value >= 128 {
        varint_is_short(value / 128, taken + 1);
    }
}

/// A number of 64 bits takes at most ten bytes.
proof fn varint_is_ten(value: nat)
    requires
        value <= u64::MAX,
    ensures
        varint_of(value).len() <= 10,
{
    reveal_with_fuel(room, 10);
    varint_is_short(value, 0);
}

/// Every step takes at most ten bytes.
proof fn deltas_are_short(values: Seq<i32>, from: int)
    requires
        1 <= from <= values.len(),
    ensures
        deltas_of(values, from).len() <= 10 * (values.len() - from),
    decreases values.len() - from,
{
    if from < values.len() {
        deltas_are_short(values, from + 1);
        varint_is_ten(zigzag_of(wrap32(values[from] - values[from - 1])));
    }
}

/// An array takes at most ten bytes for each point.
proof fn streams_are_short(lines: Seq<Line<i32>>, axis: int, from: int)
    requires
        0 <= from <= lines.len(),
    ensures
        10 * points_in(lines.take(from)) + streams_of(lines, axis, from).len() <= 10 * points_in(
            lines,
        ),
    decreases lines.len() - from,
{
    if from < lines.len() {
        prefix_grows(lines, from);
        streams_are_short(lines, axis, from + 1);
        let values = axis_values(lines[from], axis);
        if values.len() > 0 {
            deltas_are_short(values, 1);
        }
    } else {
        assert(lines.take(from) =~= lines);
    }
}

/// The tables take at most eleven bytes for each line.
proof fn headers_are_short(lines: Seq<Line<i32>>, palette: Seq<u32>, from: int)
    requires
        0 <= from <= lines.len(),
        points_in(lines) <= u64::MAX,
    ensures
        headers_of(lines, palette, from).len() <= 11 * (lines.len() - from),
    decreases lines.len() - from,
{
    if from < lines.len() {
        headers_are_short(lines, palette, from + 1);
        line_fits(lines, from);
        varint_is_ten(lines[from].points.len());
    }
}

/// A palette takes at most ten bytes for each colour.
proof fn colors_are_short(palette: Seq<u32>, from: int)
    requires
        0 <= from <= palette.len(),
    ensures
        colors_of(palette, from).len() <= 10 * (palette.len() - from),
    decreases palette.len() - from,
{
    if from < palette.len() {
        colors_are_short(palette, from + 1);
        varint_is_ten(palette[from] as nat);
    }
}

/// A palette is no longer than the lines it is of.
proof fn palette_is_short(lines: Seq<Line<i32>>)
    ensures
        palette_of(lines).len() <= lines.len(),
    decreases lines.len(),
{
    if lines.len() > 0 {
        palette_is_short(lines.drop_last());
    }
}

/// The arrays are never much larger than the ink: thirty bytes, thirty more for each point, and
/// twenty-one for each line.
pub proof fn arrays_are_bounded(lines: Seq<Line<i32>>)
    requires
        lines.len() <= u64::MAX,
        points_in(lines) <= u64::MAX,
    ensures
        arrays_of(lines).len() <= 30 + 21 * lines.len() + 30 * points_in(lines),
{
    let palette = palette_of(lines);
    palette_is_short(lines);
    varint_is_ten(points_in(lines));
    varint_is_ten(lines.len());
    varint_is_ten(palette.len());
    colors_are_short(palette, 0);
    headers_are_short(lines, palette, 0);
    assert(lines.take(0) =~= seq![]);
    streams_are_short(lines, 0, 0);
    streams_are_short(lines, 1, 0);
    streams_are_short(lines, 2, 0);
}

// ---------------------------------------------------------------------------------------------
// How the arrays are laid out
// ---------------------------------------------------------------------------------------------

/// The arrays begin with how many points there are, how many lines, and how many colours, and go on with the
/// colours, the tables, and the three axes one after the other.
pub proof fn the_arrays_stand_in_order(lines: Seq<Line<i32>>)
    requires
        points_in(lines) <= u64::MAX,
        lines.len() <= u64::MAX,
    ensures
        ({
            let raw = arrays_of(lines);
            let points = varint_of(points_in(lines));
            let count = varint_of(lines.len());
            let colors = varint_of(palette_of(lines).len());
            let palette = colors_of(palette_of(lines), 0);
            let tables = headers_of(lines, palette_of(lines), 0);
            let xs = streams_of(lines, 0, 0);
            let ys = streams_of(lines, 1, 0);
            let ws = streams_of(lines, 2, 0);
            &&& raw.len() == points.len() + count.len() + colors.len() + palette.len() + tables.len()
                + xs.len() + ys.len() + ws.len()
            &&& holds(raw, 0, points)
            &&& holds(raw, points.len() as int, count)
            &&& holds(raw, (points.len() + count.len()) as int, colors)
            &&& holds(raw, (points.len() + count.len() + colors.len()) as int, palette)
            &&& holds(raw, raw.len() - ws.len() - ys.len() - xs.len() - tables.len(), tables)
            &&& holds(raw, raw.len() - ws.len() - ys.len() - xs.len(), xs)
            &&& holds(raw, raw.len() - ws.len() - ys.len(), ys)
            &&& holds(raw, raw.len() - ws.len(), ws)
        }),
{
    let raw = arrays_of(lines);
    let xs = streams_of(lines, 0, 0);
    let ys = streams_of(lines, 1, 0);
    let ws = streams_of(lines, 2, 0);
    let front = front_of(lines);
    arrays_have_a_front(lines);
    front_splits(raw, lines);
    holds_splits(raw, front.len() as int, xs + ys, ws);
    holds_splits(raw, front.len() as int, xs, ys);
}

/// Points are counted line by line.
pub proof fn points_are_counted(lines: Seq<Line<i32>>, line: Line<i32>)
    ensures
        points_in(Seq::<Line<i32>>::empty()) == 0,
        points_in(lines.push(line)) == points_in(lines) + line.points.len(),
{
    assert(lines.push(line).drop_last() =~= lines);
}

/// The palette has each colour of the lines once, in the order they first appear, and no other.
pub proof fn the_palette_has_each_colour_once(lines: Seq<Line<i32>>, line: Line<i32>)
    ensures
        palette_of(Seq::<Line<i32>>::empty()).len() == 0,
        palette_of(lines).contains(line.color) ==> palette_of(lines.push(line)) == palette_of(lines),
        !palette_of(lines).contains(line.color) ==> palette_of(lines.push(line)) == palette_of(
            lines,
        ).push(line.color),
        palette_of(lines).no_duplicates(),
        forall|i: int|
            0 <= i < lines.len() ==> palette_of(lines).contains((#[trigger] lines[i]).color),
    decreases lines.len(),
{
    assert(lines.push(line).drop_last() =~= lines);
    if lines.len() > 0 {
        let rest = lines.drop_last();
        let before = palette_of(rest);
        let all = palette_of(lines);
        the_palette_has_each_colour_once(rest, line);
        assert forall|i: int| 0 <= i < lines.len() implies all.contains(
            (#[trigger] lines[i]).color,
        ) by {
            if i < rest.len() {
                assert(before.contains(rest[i].color));
                let k = choose|k: int| 0 <= k < before.len() && before[k] == lines[i].color;
                assert(all[k] == lines[i].color);
            } else if !before.contains(lines[i].color) {
                assert(all[before.len() as int] == lines[i].color);
            }
        }
    }
}

/// A line's values of one axis are those of its points, in order: how far across, how far down, and how wide.
pub proof fn an_axis_is_one_value_of_each_point(line: Line<i32>, i: int)
    requires
        0 <= i < line.points.len(),
    ensures
        axis_values(line, 0).len() == line.points.len(),
        axis_values(line, 1).len() == line.points.len(),
        axis_values(line, 2).len() == line.points.len(),
        axis_values(line, 0)[i] == line.points[i].x,
        axis_values(line, 1)[i] == line.points[i].y,
        axis_values(line, 2)[i] == line.points[i].width,
{
}

/// A stream is its first value as it is, and then the step to each further one, folded; a line without points
/// has none.
pub proof fn a_stream_is_a_base_and_steps(values: Seq<i32>, value: i32)
    ensures
        stream_of(Seq::<i32>::empty()).len() == 0,
        stream_of(seq![value]) == le_bytes(value),
        values.len() > 0 ==> stream_of(values.push(value)) == stream_of(values) + varint_of(
            zigzag_of(wrap32(value - values.last())),
        ),
{
    assert(stream_of(seq![value]) =~= le_bytes(value));
    if values.len() > 0 {
        steps_grow(values, value, 1);
        assert(stream_of(values.push(value)) =~= stream_of(values) + varint_of(
            zigzag_of(wrap32(value - values.last())),
        ));
    }
}

/// One value more is one step more.
proof fn steps_grow(values: Seq<i32>, value: i32, from: int)
    requires
        1 <= from <= values.len(),
    ensures
        deltas_of(values.push(value), from) == deltas_of(values, from) + varint_of(
            zigzag_of(wrap32(value - values.last())),
        ),
    decreases values.len() - from,
{
    let longer = values.push(value);
    let step = varint_of(zigzag_of(wrap32(value - values.last())));
    if from < values.len() {
        steps_grow(values, value, from + 1);
        assert(longer[from] == values[from] && longer[from - 1] == values[from - 1]);
        let part = varint_of(zigzag_of(wrap32(values[from] - values[from - 1])));
        assert(part + (deltas_of(values, from + 1) + step) =~= part + deltas_of(values, from + 1)
            + step);
    } else {
        assert(longer[from] == value && longer[from - 1] == values.last());
        assert(deltas_of(longer, from + 1) =~= seq![]);
        assert(deltas_of(values, from) =~= seq![]);
        assert(deltas_of(longer, from) =~= step);
        assert(deltas_of(values, from) + step =~= step);
    }
}

/// An axis has the streams of the lines one behind the other.
pub proof fn an_axis_has_stream_after_stream(lines: Seq<Line<i32>>, line: Line<i32>, axis: int)
    ensures
        streams_of(Seq::<Line<i32>>::empty(), axis, 0).len() == 0,
        streams_of(lines.push(line), axis, 0) == streams_of(lines, axis, 0) + stream_of(
            axis_values(line, axis),
        ),
{
    an_axis_grows(lines, line, axis, 0);
}

/// One line more is one stream more.
proof fn an_axis_grows(lines: Seq<Line<i32>>, line: Line<i32>, axis: int, from: int)
    requires
        0 <= from <= lines.len(),
    ensures
        streams_of(lines.push(line), axis, from) == streams_of(lines, axis, from) + stream_of(
            axis_values(line, axis),
        ),
    decreases lines.len() - from,
{
    let longer = lines.push(line);
    let last = stream_of(axis_values(line, axis));
    if from < lines.len() {
        an_axis_grows(lines, line, axis, from + 1);
        assert(longer[from] == lines[from]);
        let part = stream_of(axis_values(lines[from], axis));
        assert(part + (streams_of(lines, axis, from + 1) + last) =~= part + streams_of(
            lines,
            axis,
            from + 1,
        ) + last);
    } else {
        assert(longer[from] == line);
        assert(streams_of(longer, axis, from + 1) =~= seq![]);
        assert(streams_of(lines, axis, from) =~= seq![]);
        assert(streams_of(longer, axis, from) =~= last);
        assert(streams_of(lines, axis, from) + last =~= last);
    }
}

/// The colours of a palette stand one behind the other.
pub proof fn the_colours_stand_in_order(palette: Seq<u32>, color: u32)
    ensures
        colors_of(Seq::<u32>::empty(), 0).len() == 0,
        colors_of(palette.push(color), 0) == colors_of(palette, 0) + varint_of(color as nat),
{
    the_colours_grow(palette, color, 0);
}

/// One colour more is one number more.
proof fn the_colours_grow(palette: Seq<u32>, color: u32, from: int)
    requires
        0 <= from <= palette.len(),
    ensures
        colors_of(palette.push(color), from) == colors_of(palette, from) + varint_of(color as nat),
    decreases palette.len() - from,
{
    let longer = palette.push(color);
    let last = varint_of(color as nat);
    if from < palette.len() {
        the_colours_grow(palette, color, from + 1);
        assert(longer[from] == palette[from]);
        let part = varint_of(palette[from] as nat);
        assert(part + (colors_of(palette, from + 1) + last) =~= part + colors_of(palette, from + 1)
            + last);
    } else {
        assert(longer[from] == color);
        assert(colors_of(longer, from + 1) =~= seq![]);
        assert(colors_of(palette, from) =~= seq![]);
        assert(colors_of(longer, from) =~= last);
        assert(colors_of(palette, from) + last =~= last);
    }
}

/// The tables have for each line which colour of the palette it is written in, as one byte, and how many points
/// it has.
pub proof fn the_tables_have_a_colour_and_a_count(
    lines: Seq<Line<i32>>,
    line: Line<i32>,
    palette: Seq<u32>,
    index: int,
)
    requires
        palette.no_duplicates(),
        0 <= index < palette.len() <= 256,
        palette[index] == line.color,
    ensures
        headers_of(Seq::<Line<i32>>::empty(), palette, 0).len() == 0,
        headers_of(lines.push(line), palette, 0) == headers_of(lines, palette, 0) + seq![index as u8]
            + varint_of(line.points.len()),
{
    the_tables_grow(lines, line, palette, 0);
    assert(palette.index_of(line.color) == index);
    let name = seq![index as u8];
    let count = varint_of(line.points.len());
    assert(headers_of(lines, palette, 0) + (name + count) =~= headers_of(lines, palette, 0) + name
        + count);
}

/// One line more is one entry more.
proof fn the_tables_grow(lines: Seq<Line<i32>>, line: Line<i32>, palette: Seq<u32>, from: int)
    requires
        0 <= from <= lines.len(),
    ensures
        headers_of(lines.push(line), palette, from) == headers_of(lines, palette, from) + (seq![
            (palette.index_of(line.color) % 256) as u8,
        ] + varint_of(line.points.len())),
    decreases lines.len() - from,
{
    let longer = lines.push(line);
    let last = seq![(palette.index_of(line.color) % 256) as u8] + varint_of(line.points.len());
    if from < lines.len() {
        the_tables_grow(lines, line, palette, from + 1);
        assert(longer[from] == lines[from]);
        let part = seq![(palette.index_of(lines[from].color) % 256) as u8] + varint_of(
            lines[from].points.len(),
        );
        assert(part + (headers_of(lines, palette, from + 1) + last) =~= part + headers_of(
            lines,
            palette,
            from + 1,
        ) + last);
    } else {
        assert(longer[from] == line);
        assert(headers_of(longer, palette, from + 1) =~= seq![]);
        assert(headers_of(lines, palette, from) =~= seq![]);
        assert(headers_of(longer, palette, from) =~= last);
        assert(headers_of(lines, palette, from) + last =~= last);
    }
}

/// Bytes behind the last line are not passed over: the chunk is refused, and how many there are is said.
#[verifier::spinoff_prover]
#[verifier::rlimit(40)]
pub proof fn bytes_left_over_are_refused(lines: Seq<Line<i32>>, extra: Seq<u8>)
    requires
        palette_of(lines).len() <= MAX_COLORS,
        lines.len() <= u64::MAX,
        points_in(lines) <= u64::MAX,
        extra.len() > 0,
    ensures
        lines_in(arrays_of(lines) + extra) == Err::<Seq<Line<i32>>, Seq<char>>(
            "a chunk of this note has "@ + decimal_text(extra.len()) + " bytes left over"@,
        ),
{
    let palette = palette_of(lines);
    let raw = arrays_of(lines) + extra;
    let points = varint_of(points_in(lines));
    let a2 = points + varint_of(lines.len());
    let a3 = a2 + varint_of(palette.len());
    let a4 = a3 + colors_of(palette, 0);
    let front = front_of(lines);
    let xs = streams_of(lines, 0, 0);
    let ys = streams_of(lines, 1, 0);
    let ws = streams_of(lines, 2, 0);
    assert forall|i: int| 0 <= i < lines.len() implies #[trigger] lines[i].points.len()
        <= u64::MAX by {
        line_fits(lines, i);
    }
    assert(raw =~= front + (xs + ys + ws + extra));
    assert(raw.subrange(0, raw.len() as int) =~= raw);
    holds_splits(raw, 0, front, xs + ys + ws + extra);
    holds_splits(raw, front.len() as int, xs + ys + ws, extra);
    front_splits(raw, lines);
    arrays_are_long(lines);
    varint_reads_back(raw, 0, points_in(lines));
    varint_reads_back(raw, points.len() as int, lines.len());
    varint_reads_back(raw, a2.len() as int, palette.len());
    palette_reads_back(raw, a3.len() as int, palette, 0);
    assert(palette.skip(0) =~= palette);
    headers_read_back(raw, a4.len() as int, lines, 0);
    assert(headers_for(lines).skip(0) =~= headers_for(lines));
    let at = front.len() as int;
    holds_splits(raw, at, xs + ys, ws);
    holds_splits(raw, at, xs, ys);
    streams_read_back(raw, at, lines, 0, 0);
    streams_read_back(raw, at + xs.len(), lines, 1, 0);
    streams_read_back(raw, at + (xs + ys).len(), lines, 2, 0);
}

/// What a chunk claims is held against what it is: more than 255 colours are refused, and so are more points or
/// lines than it has bytes, and a colour the palette does not have.
pub proof fn a_chunk_that_claims_too_much_is_refused(
    raw: Seq<u8>,
    points: nat,
    count: nat,
    colors: nat,
    a: int,
    b: int,
    c: int,
)
    requires
        varint_at(raw, 0) == Ok::<(nat, int), Seq<char>>((points, a)),
        varint_at(raw, a) == Ok::<(nat, int), Seq<char>>((count, b)),
        varint_at(raw, b) == Ok::<(nat, int), Seq<char>>((colors, c)),
    ensures
        colors > 255 ==> lines_in(raw) == Err::<Seq<Line<i32>>, Seq<char>>(
            "a chunk of this note names more colours than a chunk can hold"@,
        ),
        colors <= 255 ==> (palette_at(raw, c, colors) matches Ok((palette, next)) ==> {
            &&& count > raw.len() || points > raw.len() ==> lines_in(raw) == Err::<
                Seq<Line<i32>>,
                Seq<char>,
            >("a chunk of this note claims more ink than its own bytes could hold"@)
            &&& 0 < count <= raw.len() && points <= raw.len() && 0 <= next < raw.len() && raw[next]
                >= palette.len() ==> lines_in(raw) == Err::<Seq<Line<i32>>, Seq<char>>(
                "a chunk of this note refers to a colour it does not hold"@,
            )
        }),
{
}

/// A line that is read has a point for each of its values, of the three of them together, and its colour.
pub proof fn a_line_is_put_together(
    header: (u32, u64),
    xs: Seq<i32>,
    ys: Seq<i32>,
    ws: Seq<i32>,
    i: int,
)
    requires
        0 <= i < xs.len(),
    ensures
        line_of(header, xs, ys, ws).color == header.0,
        line_of(header, xs, ys, ws).points.len() == xs.len(),
        line_of(header, xs, ys, ws).points[i].x == xs[i],
        line_of(header, xs, ys, ws).points[i].y == ys[i],
        line_of(header, xs, ys, ws).points[i].width == ws[i],
{
}

/// What was read is the lines that were meant, stroke for stroke, or the refusal that was meant.
pub proof fn what_is_read_is_what_was_meant(
    result: Result<Vec<Stroke<i32>>, AppError>,
    lines: Seq<Line<i32>>,
    reason: Seq<char>,
)
    ensures
        reads_as(result, Ok(lines)) <==> result is Ok && lines_of(result->Ok_0@) == lines,
        reads_as(result, Err(reason)) <==> refused(result, reason),
{
}

/// A stream starts with its first value and goes on in steps from there; one that breaks off is refused for what
/// broke it.
pub proof fn a_stream_starts_with_its_value(
    bytes: Seq<u8>,
    at: int,
    count: nat,
    value: i32,
    next: int,
)
    ensures
        stream_at(bytes, at, 0) == Ok::<(Seq<i32>, int), Seq<char>>((seq![], at)),
        i32_at(bytes, at) == Ok::<(i32, int), Seq<char>>((value, next)) ==> (steps_at(
            bytes,
            next,
            value,
            count,
        ) matches Ok((values, end)) ==> stream_at(bytes, at, count + 1) == Ok::<
            (Seq<i32>, int),
            Seq<char>,
        >((seq![value] + values, end))),
        i32_at(bytes, at) == Ok::<(i32, int), Seq<char>>((value, next)) ==> (steps_at(
            bytes,
            next,
            value,
            count,
        ) matches Err(reason) ==> stream_at(bytes, at, count + 1) == Err::<
            (Seq<i32>, int),
            Seq<char>,
        >(reason)),
        i32_at(bytes, at) matches Err(reason) ==> stream_at(bytes, at, count + 1) == Err::<
            (Seq<i32>, int),
            Seq<char>,
        >(reason),
{
    assert(((count + 1) - 1) as nat == count);
}

/// The values of a stream come one after the other, each as far from the one before it as its step says; steps
/// that break off are refused for what broke them.
pub proof fn a_value_follows_by_its_step(
    bytes: Seq<u8>,
    at: int,
    previous: i32,
    count: nat,
    step: i32,
    next: int,
)
    requires
        i32::MIN <= previous + step <= i32::MAX,
    ensures
        steps_at(bytes, at, previous, 0) == Ok::<(Seq<i32>, int), Seq<char>>((seq![], at)),
        varint_at(bytes, at) == Ok::<(nat, int), Seq<char>>((zigzag_of(step), next)) ==> (steps_at(
            bytes,
            next,
            (previous + step) as i32,
            count,
        ) matches Ok((values, end)) ==> steps_at(bytes, at, previous, count + 1) == Ok::<
            (Seq<i32>, int),
            Seq<char>,
        >((seq![(previous + step) as i32] + values, end))),
        varint_at(bytes, at) matches Err(reason) ==> steps_at(bytes, at, previous, count + 1)
            == Err::<(Seq<i32>, int), Seq<char>>(reason),
{
    crate::wire::folding_keeps_small_numbers_small(step, if step >= 0 {
        step as nat
    } else {
        (-1 - step) as nat
    });
    assert(unzigzag_of(zigzag_of(step)) == step);
    crate::wire::a_number_wraps_by_whole_turns(previous + step, 0);
    assert(wrap32(previous + unzigzag_of(zigzag_of(step))) == previous + step);
    assert(((count + 1) - 1) as nat == count);
    let folded = zigzag_of(step);
    if varint_at(bytes, at) == Ok::<(nat, int), Seq<char>>((folded, next)) {
        let value = wrap32(previous + unzigzag_of(folded));
        assert(steps_at(bytes, at, previous, count + 1) == prepend(
            seq![value],
            steps_at(bytes, next, value, count),
        ));
    }
}

/// Streams stand one behind the other, one for each line, and each is as long as its line.
pub proof fn a_stream_follows_its_stream(
    bytes: Seq<u8>,
    at: int,
    headers: Seq<(u32, u64)>,
    from: int,
)
    requires
        0 <= from < headers.len(),
    ensures
        streams_at(bytes, at, headers, headers.len() as int) == Ok::<
            (Seq<Seq<i32>>, int),
            Seq<char>,
        >((seq![], at)),
        stream_at(bytes, at, headers[from].1 as nat) matches Ok((values, next)) ==> (streams_at(
            bytes,
            next,
            headers,
            from + 1,
        ) matches Ok((rest, end)) ==> streams_at(bytes, at, headers, from) == Ok::<
            (Seq<Seq<i32>>, int),
            Seq<char>,
        >((seq![values] + rest, end))),
        stream_at(bytes, at, headers[from].1 as nat) matches Ok((values, next)) ==> (streams_at(
            bytes,
            next,
            headers,
            from + 1,
        ) matches Err(reason) ==> streams_at(bytes, at, headers, from) == Err::<
            (Seq<Seq<i32>>, int),
            Seq<char>,
        >(reason)),
        stream_at(bytes, at, headers[from].1 as nat) matches Err(reason) ==> streams_at(
            bytes,
            at,
            headers,
            from,
        ) == Err::<(Seq<Seq<i32>>, int), Seq<char>>(reason),
{
}

/// The table names for each line a colour of the palette by its place, and then how many points the line has.
pub proof fn a_table_names_a_colour(
    bytes: Seq<u8>,
    at: int,
    palette: Seq<u32>,
    count: nat,
    points: nat,
    next: int,
)
    requires
        0 <= at < bytes.len(),
    ensures
        bytes[at] >= palette.len() ==> headers_at(bytes, at, palette, count + 1) == Err::<
            (Seq<(u32, u64)>, int),
            Seq<char>,
        >("a chunk of this note refers to a colour it does not hold"@),
        bytes[at] < palette.len() && varint_at(bytes, at + 1) == Ok::<(nat, int), Seq<char>>(
            (points, next),
        ) ==> (headers_at(bytes, next, palette, count) matches Ok((rest, end)) ==> headers_at(
            bytes,
            at,
            palette,
            count + 1,
        ) == Ok::<(Seq<(u32, u64)>, int), Seq<char>>(
            (seq![(palette[bytes[at] as int], points as u64)] + rest, end),
        )),
        bytes[at] < palette.len() ==> (varint_at(bytes, at + 1) matches Err(reason) ==> headers_at(
            bytes,
            at,
            palette,
            count + 1,
        ) == Err::<(Seq<(u32, u64)>, int), Seq<char>>(reason)),
{
}

/// A chunk is read only if every byte of it is: the lines have the colours and the points of the table, and the
/// three axes, read one behind the other, end where the chunk ends.
pub proof fn a_chunk_is_read_to_its_end(
    bytes: Seq<u8>,
    at: int,
    headers: Seq<(u32, u64)>,
    lines: Seq<Line<i32>>,
)
    requires
        ink_at(bytes, at, headers) == Ok::<Seq<Line<i32>>, Seq<char>>(lines),
    ensures
        lines.len() == headers.len(),
        forall|i: int| 0 <= i < lines.len() ==> (#[trigger] lines[i]).color == headers[i].0,
        streams_at(bytes, at, headers, 0) matches Ok((xs, after_x)) && (streams_at(
            bytes,
            after_x,
            headers,
            0,
        ) matches Ok((ys, after_y)) && (streams_at(bytes, after_y, headers, 0) matches Ok((ws, end))
            && end == bytes.len() && forall|i: int, j: int|
            0 <= i < lines.len() && 0 <= j < xs[i].len() ==> #[trigger] lines[i].points[j] == (InkPoint {
                x: xs[i][j],
                y: ys[i][j],
                width: ws[i][j],
            }))),
{
}

} // verus!
