//! The encoding a note keeps its ink in.

use cheap_note::arrays::{arrays, read_arrays};
use cheap_note::chunk::{
    chunk_ranges, decode, encode, open_arrays, pick, sealed, Codec, Encoded, CHUNK_MAX_STROKES,
    QUANTUM,
};
use cheap_note::ink::{InkPoint, Stroke};
use cheap_note::wire::{put_i32, put_varint, unzigzag, zigzag, Cursor};

/// A value on the lattice.
fn quantised(value: f32) -> i32 {
    (value * QUANTUM as f32)
        .round()
        .clamp(i32::MIN as f32 + 1.0, i32::MAX as f32) as i32
}

/// A value back from the lattice.
fn unquantised(value: i32) -> f32 {
    value as f32 / QUANTUM as f32
}

/// A stroke on the lattice.
fn on_lattice(stroke: &Stroke<f32>) -> Stroke<i32> {
    Stroke {
        points: stroke
            .points
            .iter()
            .map(|p| InkPoint::new(quantised(p.x), quantised(p.y), quantised(p.width)))
            .collect(),
        color: stroke.color,
    }
}

/// Strokes on the lattice.
fn lattice(strokes: &[Stroke<f32>]) -> Vec<Stroke<i32>> {
    strokes.iter().map(on_lattice).collect()
}

/// The strokes of a chunk.
fn read_back(encoded: &Encoded, count: usize) -> Result<Vec<Stroke<i32>>, String> {
    decode(
        &encoded.data,
        encoded.raw_len as usize,
        encoded.codec,
        count,
        encoded.crc32,
    )
    .map_err(|error| error.message())
}

/// A stroke that walks across the page, one point every 1.5 px, as a resampled pen leaves.
fn stroke(points: usize, from: (f32, f32), color: u32) -> Stroke<f32> {
    let mut stroke = Stroke::new(InkPoint::new(from.0, from.1, 1.25), color);

    for step in 1..points {
        stroke.points.push(InkPoint::new(
            from.0 + step as f32 * 1.5,
            from.1 + (step % 7) as f32 * 0.75,
            1.25 + (step % 5) as f32 * 0.1,
        ));
    }

    stroke
}

/// A page of `strokes` strokes, each with a realistic number of points.
fn page(strokes: usize) -> Vec<Stroke<f32>> {
    (0..strokes)
        .map(|index| {
            stroke(
                48 + index % 17,
                (12.0 + index as f32 * 3.0, 20.0 + index as f32 * 2.0),
                Stroke::<f32>::DEFAULT_COLOR,
            )
        })
        .collect()
}

/// A stroke that walks like a hand: small steps, a heading that turns slowly, and a shape of its own.
fn hand_stroke(seed: u64, points: usize) -> Stroke<f32> {
    let mut state = seed.wrapping_mul(2_654_435_761) | 1;
    let mut random = move || {
        state ^= state << 13;
        state ^= state >> 7;
        state ^= state << 17;
        (state >> 40) as f32 / (1u64 << 24) as f32
    };

    let mut heading = random() * std::f32::consts::TAU;
    let mut x = random() * 640.0;
    let mut y = random() * 860.0;
    let mut stroke = Stroke::new(
        InkPoint::new(x, y, 1.25 + random() * 1.5),
        Stroke::<f32>::DEFAULT_COLOR,
    );

    for _ in 1..points {
        heading += (random() - 0.5) * 0.35;
        let step = 1.0 + random();
        x += heading.cos() * step;
        y += heading.sin() * step;
        stroke.points.push(InkPoint::new(x, y, 1.25 + random() * 1.5));
    }

    stroke
}

/// Strokes as JSON.
fn json(strokes: &[Stroke<f32>]) -> String {
    let strokes: Vec<String> = strokes
        .iter()
        .map(|stroke| {
            let points: Vec<String> = stroke
                .points
                .iter()
                .map(|p| format!("{{\"x\":{},\"y\":{},\"width\":{}}}", p.x, p.y, p.width))
                .collect();
            format!("{{\"points\":[{}],\"color\":{}}}", points.join(","), stroke.color)
        })
        .collect();
    format!("[{}]", strokes.join(","))
}

/// What was written comes back: same strokes, same colours, same points to the quantum.
#[test]
fn a_chunk_round_trips() {
    let strokes = vec![
        stroke(40, (10.5, 20.25), 0x00_11_22),
        stroke(9, (300.0, 4.0), 0xAA_BB_CC),
    ];
    let encoded = encode(&lattice(&strokes)).expect("the page encodes");
    let decoded = read_back(&encoded, strokes.len()).expect("the page decodes");

    assert_eq!(decoded, lattice(&strokes), "exactly what was written");
    assert_eq!(decoded.len(), strokes.len());
    for (before, after) in strokes.iter().zip(&decoded) {
        assert_eq!(before.color, after.color);
        assert_eq!(before.points.len(), after.points.len());

        for (before, after) in before.points.iter().zip(&after.points) {
            for (before, after) in [
                (before.x, unquantised(after.x)),
                (before.y, unquantised(after.y)),
                (before.width, unquantised(after.width)),
            ] {
                assert!(
                    (before - after).abs() <= 0.5 / QUANTUM as f32,
                    "{before} and {after} are the same value to the quantum"
                );
            }
        }
    }
}

/// A single-stroke blob is usually stored uncompressed: a compressor's header is bigger than the
/// stroke.
#[test]
fn a_single_stroke_blob_usually_skips_the_compressor() {
    let short = encode(&lattice(&[hand_stroke(11, 45)])).expect("the stroke encodes");
    assert_eq!(
        short.codec,
        Codec::Raw,
        "{} bytes of one stroke were left as they were",
        short.raw_len
    );

    let long = encode(&lattice(&[hand_stroke(11, 120)])).expect("the stroke encodes");
    assert_eq!(long.codec, Codec::Zstd, "a long stroke is worth compressing");
}

/// A hand-written page is many times smaller than the JSON it used to be.
#[test]
fn a_hand_written_page_is_much_smaller_than_json() {
    let strokes: Vec<Stroke<f32>> = (0..200)
        .map(|index| hand_stroke(index as u64 + 7, 40 + index % 31))
        .collect();

    let raw = arrays(&lattice(&strokes));
    let encoded = encode(&lattice(&strokes)).expect("the page encodes");
    let json = json(&strokes);

    assert!(
        encoded.data.len() * 8 < json.len(),
        "{} bytes of chunk against {} bytes of JSON",
        encoded.data.len(),
        json.len()
    );
    assert!(
        encoded.data.len() < raw.len(),
        "and the compressor still earns its header"
    );
}

/// A dot survives: one point is a stroke, and it is the case a delta-only format gets wrong.
#[test]
fn a_single_point_stroke_round_trips() {
    let strokes = vec![stroke(1, (77.5, 91.0), 0x00_00_00)];
    let encoded = encode(&lattice(&strokes)).expect("the dot encodes");
    let decoded = read_back(&encoded, strokes.len()).expect("the dot decodes");

    assert_eq!(decoded[0].points.len(), 1);
    assert!((unquantised(decoded[0].points[0].x) - 77.5).abs() < 0.02);
}

/// The point of the format: a page of handwriting costs a fraction of its own arrays.
#[test]
fn the_codec_shrinks_what_it_is_given() {
    let strokes = page(200);
    let encoded = encode(&lattice(&strokes)).expect("the page encodes");

    assert_eq!(encoded.codec, Codec::Zstd, "a page is worth compressing");
    assert!(
        encoded.data.len() * 4 < encoded.raw_len as usize,
        "{} bytes of arrays became {} bytes of chunk",
        encoded.raw_len,
        encoded.data.len()
    );
}

/// A damaged blob is caught by its checksum rather than decompressed into nonsense.
#[test]
fn a_damaged_chunk_is_refused() {
    let strokes = page(3);
    let mut encoded = encode(&lattice(&strokes)).expect("the page encodes");
    encoded.data[2] ^= 0x40;

    let error = read_back(&encoded, strokes.len()).expect_err("a damaged chunk is refused");

    assert!(error.contains("damaged"), "{error}");
}

/// A chunk that is intact but is not the one it is filed under is refused too.
#[test]
fn a_chunk_filed_under_the_wrong_count_is_refused() {
    let strokes = page(4);
    let encoded = encode(&lattice(&strokes)).expect("the page encodes");

    let error = read_back(&encoded, strokes.len() + 1).expect_err("the wrong count is refused");

    assert!(error.contains("not the 5"), "{error}");
}

/// Nothing is written for nothing, and a compressor this build does not know is named rather than
/// guessed at.
#[test]
fn what_cannot_be_read_is_refused_by_name() {
    assert!(encode(&[]).is_err());

    let error = Codec::from_id(9).expect_err("an unknown codec is refused");
    assert!(error.message().contains('9'), "{}", error.message());
}

/// The chunks of a page tile it: every stroke in exactly one chunk, in order, each chunk within the
/// size and stroke bounds.
#[test]
fn a_page_is_split_into_chunks_that_tile_it() {
    let strokes = lattice(&page(1200));
    let ranges = chunk_ranges(&strokes);

    assert!(ranges.len() > 1, "a page of this size is several chunks");
    assert_eq!(ranges[0].start, 0);
    assert_eq!(ranges[ranges.len() - 1].end, strokes.len());

    let mut next = 0;
    for range in &ranges {
        assert_eq!(range.start, next, "the chunks follow one another");
        next = range.end;

        assert!(
            range.len() <= CHUNK_MAX_STROKES,
            "a chunk holds at most {CHUNK_MAX_STROKES} strokes"
        );

        let encoded = encode(&strokes[range.clone()]).expect("the chunk encodes");
        let decoded = read_back(&encoded, range.len()).expect("the chunk decodes");
        assert_eq!(decoded.len(), range.len());
    }
}

/// A page written in hundreds of colours is split so that each chunk's palette fits in one byte.
#[test]
fn the_palette_ends_a_chunk_before_it_overflows() {
    let strokes: Vec<Stroke<i32>> = (0..300)
        .map(|index| on_lattice(&stroke(4, (index as f32, 0.0), 0x10_00_00 + index)))
        .collect();

    let ranges = chunk_ranges(&strokes);
    assert!(ranges.len() > 1, "one byte of colour index cannot hold 300");

    for range in &ranges {
        let encoded = encode(&strokes[range.clone()]).expect("the chunk encodes");
        let decoded = read_back(&encoded, range.len()).expect("the chunk decodes");
        assert_eq!(decoded[0].color, 0x10_00_00 + range.start as u32);
    }
}

/// Fixed point is a lattice: decoding puts every value on it, so a note that is read and written
/// again does not drift, and the second write is the same bytes as the first.
#[test]
fn re_encoding_what_was_decoded_gives_the_same_bytes() {
    let strokes = page(50);
    let first = encode(&lattice(&strokes)).expect("the page encodes");
    let decoded = read_back(&first, strokes.len()).expect("the page decodes");

    // Through logical pixels and back, as a note that is opened and saved goes.
    let shown: Vec<Stroke<f32>> = decoded
        .iter()
        .map(|stroke| Stroke {
            points: stroke
                .points
                .iter()
                .map(|p| InkPoint::new(unquantised(p.x), unquantised(p.y), unquantised(p.width)))
                .collect(),
            color: stroke.color,
        })
        .collect();

    let again = encode(&lattice(&shown)).expect("the page encodes again");
    assert_eq!(again.codec, first.codec);
    assert_eq!(again.data, first.data, "the second write is the first");
}

/// The arrays are smaller than the JSON they replace, by an order of magnitude, which is the whole
/// reason the format changed.
#[test]
fn the_arrays_are_much_smaller_than_json() {
    let strokes = page(20);
    let raw = arrays(&lattice(&strokes));

    let json = json(&strokes);
    assert!(
        raw.len() * 5 < json.len(),
        "{} bytes of arrays against {} bytes of JSON",
        raw.len(),
        json.len()
    );
}

/// The codec that is picked is the first that pays.
#[test]
fn the_first_codec_that_pays_is_picked() {
    let raw = vec![1, 2, 3, 4];
    assert_eq!(
        pick(raw.clone(), Some(vec![9, 9, 9]), Some(vec![8])),
        (Codec::Zstd, vec![9, 9, 9])
    );
    assert_eq!(
        pick(raw.clone(), Some(vec![9, 9, 9, 9]), Some(vec![8])),
        (Codec::Lz4, vec![8])
    );
    assert_eq!(pick(raw.clone(), None, Some(vec![8; 4])), (Codec::Raw, raw.clone()));
    assert_eq!(pick(raw.clone(), None, None), (Codec::Raw, raw));
}

/// A chunk kept as an lz4 block is read back through lz4.
#[test]
fn an_lz4_chunk_is_read_back() {
    let strokes = lattice(&page(30));
    let raw = arrays(&strokes);
    let block = lz4_flex::block::compress(&raw);
    let filed = sealed(Codec::Lz4, raw.len(), block);
    assert_eq!(read_back(&filed, strokes.len()).expect("the chunk decodes"), strokes);

    let broken = sealed(Codec::Lz4, raw.len(), vec![0xff; 9]);
    let error = read_back(&broken, strokes.len()).expect_err("a broken block is refused");
    assert!(error.contains("could not be unpacked"), "{error}");
    let broken = sealed(Codec::Zstd, raw.len(), vec![0xff; 9]);
    let error = read_back(&broken, strokes.len()).expect_err("a broken frame is refused");
    assert!(error.contains("could not be unpacked"), "{error}");
}

/// A blob is sealed with the checksum everyone computes.
#[test]
fn a_blob_is_sealed_with_its_checksum() {
    let blob = sealed(Codec::Raw, 9, b"123456789".to_vec());
    assert_eq!(blob.crc32, 0xCBF4_3926);
    assert_eq!(blob.raw_len, 9);
    assert_eq!(Codec::Raw.id(), 0);
    assert_eq!(Codec::from_id(1).ok(), Some(Codec::Lz4));
    assert_eq!(Codec::from_id(2).ok(), Some(Codec::Zstd));
}

/// A truncated blob is told by its length.
#[test]
fn a_truncated_chunk_is_refused() {
    let raw = arrays(&lattice(&page(2)));
    let error = open_arrays(&raw, raw.len() + 1, 2).expect_err("too short").message();
    assert!(error.contains("bytes, not the"), "{error}");
    let error = read_arrays(&raw[..raw.len() - 1]).expect_err("cut").message();
    assert!(error.contains("the note file could not be read or written"), "{error}");
}

/// The arrays of a short line, byte by byte.
#[test]
fn a_line_is_written_byte_by_byte() {
    let mut line = Stroke::new(InkPoint::new(1, -1, 2), 300);
    line.points.push(InkPoint::new(3, -4, 2));
    let raw = arrays(&[line.clone()]);
    let wanted: Vec<u8> = vec![
        2, 1, 1, // two points, one stroke, one colour
        0xac, 0x02, // the colour
        0, 2, // the stroke: its colour's index, and its points
        1, 0, 0, 0, 4, // across: from 1, and two to the right
        0xff, 0xff, 0xff, 0xff, 5, // down: from -1, and three up
        2, 0, 0, 0, 0, // as wide as before
    ];
    assert_eq!(raw, wanted);
    assert_eq!(read_arrays(&raw).expect("it reads back"), vec![line]);
}

/// Numbers as they are put into bytes, and back.
#[test]
fn numbers_are_put_into_bytes() {
    let mut out = Vec::new();
    put_varint(&mut out, 300);
    assert_eq!(out, vec![0xac, 0x02]);
    put_i32(&mut out, -2);
    assert_eq!(&out[2..], &[0xfe, 0xff, 0xff, 0xff]);
    let mut cursor = Cursor::new(&out);
    assert_eq!(cursor.varint().ok(), Some(300));
    assert_eq!(cursor.i32_le().ok(), Some(-2));
    assert_eq!(cursor.remaining(), 0);
    assert!(cursor.byte().is_err());
    assert_eq!(zigzag(-1), 1);
    assert_eq!(zigzag(1), 2);
    assert_eq!(unzigzag(zigzag(i32::MIN)), i32::MIN);
    let mut endless = Cursor::new(&[0xff; 11]);
    assert!(endless.varint().is_err(), "a number that never ends is refused");
}
