//! What rendering a PDF page in slices comes to: which call is made next, what its answer means, and
//! the pixels that are handed over.
//!
//! The library itself is called by whoever holds its handles.

use crate::error::AppError;
use crate::messages::{join, joined_with, words};
use crate::text::{decimal, decimal_text, signed_decimal, signed_text};
use vstd::prelude::*;

verus! {

/// The progressive calls' answer for a page that is not finished.
pub const RENDER_TO_BE_CONTINUED: i32 = 1;

/// The progressive calls' answer for a page that is finished.
pub const RENDER_DONE: i32 = 2;

/// The progressive calls' answer for a page that cannot be rendered.
pub const RENDER_FAILED: i32 = 3;

/// The flag that draws a page's own annotations into the bitmap.
pub const RENDER_ANNOTATIONS: i32 = 1;

/// The code of a bitmap with one byte a pixel.
pub const BITMAP_GRAY: i32 = 1;

/// The code of a bitmap with blue, green, red and alpha bytes.
pub const BITMAP_BGRA: i32 = 4;

/// What a page's bitmap is filled with before anything is drawn on it: opaque white.
pub const PAPER: u32 = 0xffff_ffff;

/// The file name the library is built as.
pub const LIBRARY_NAME: &'static str = "pdfium.dll";

/// What one slice of rendering did.
#[derive(Debug)]
pub enum Progress {
    /// The slice ended on its budget.
    Unfinished,
    /// The page is complete.
    Finished,
    /// The library refused, or the render failed. The message says which.
    Failed(String),
}

/// The colour format a page is rendered in.
#[derive(Clone, Copy, Debug, PartialEq, Eq, Structural)]
pub enum Format {
    /// Four bytes per pixel, blue-green-red-alpha.
    Bgra,
    /// One byte per pixel.
    Grayscale,
}

impl Format {
    /// The code a bitmap of this format is created with.
    pub open spec fn code_of(self) -> i32 {
        match self {
            Format::Bgra => BITMAP_BGRA,
            Format::Grayscale => BITMAP_GRAY,
        }
    }

    /// The code a bitmap of this format is created with.
    pub fn code(self) -> (code: i32)
        ensures
            code == self.code_of(),
    {
        match self {
            Format::Bgra => BITMAP_BGRA,
            Format::Grayscale => BITMAP_GRAY,
        }
    }

    /// How many bytes one pixel of a bitmap takes.
    pub open spec fn pixel_bytes(self) -> nat {
        match self {
            Format::Bgra => 4,
            Format::Grayscale => 1,
        }
    }
}

/// The flags a page is rendered with.
pub fn render_flags(annotations: bool) -> (flags: i32)
    ensures
        flags == (if annotations {
            RENDER_ANNOTATIONS
        } else {
            0
        }),
{
    if annotations {
        RENDER_ANNOTATIONS
    } else {
        0
    }
}

/// A page's rotation in quarter turns, from what the library reports.
pub fn quarter_turns(reported: i32) -> (turns: u8)
    ensures
        turns == (if reported < 0 {
            0
        } else if reported > 3 {
            3
        } else {
            reported as int
        }),
{
    if reported < 0 {
        0
    } else if reported > 3 {
        3
    } else {
        reported as u8
    }
}

/// Whether a page turned this far needs its bitmap the other way round.
pub fn is_sideways(turns: u8) -> (sideways: bool)
    ensures
        sideways == (turns == 1 || turns == 3),
{
    turns == 1 || turns == 3
}

// ---------------------------------------------------------------------------------------------
// One slice after another
// ---------------------------------------------------------------------------------------------

/// The call a slice of rendering makes.
#[derive(Clone, Copy, Debug, PartialEq, Eq, Structural)]
pub enum Call {
    /// None: the render is over.
    Nothing,
    /// The one that starts a render.
    Start,
    /// The one that carries on with it.
    Continue,
}

/// How far a render has come.
#[derive(Clone, Copy, Debug, PartialEq, Eq, Structural)]
pub struct Slices {
    /// Whether it has been started.
    pub started: bool,
    /// Whether it has finished or failed.
    pub settled: bool,
}

/// What an answer to a slice's call means, and whether the render is over with it.
pub open spec fn answer_means(status: i32, error: nat, progress: Progress) -> bool {
    if status == RENDER_DONE {
        progress is Finished
    } else if status == RENDER_TO_BE_CONTINUED {
        progress is Unfinished
    } else if status == RENDER_FAILED {
        progress matches Progress::Failed(said) && said@
            == "Pdfium could not render the page (error "@ + decimal_text(error) + ")"@
    } else {
        progress matches Progress::Failed(said) && said@ == "Pdfium returned "@ + signed_text(
            status as int,
        ) + " for a progressive render"@
    }
}

impl Slices {
    /// A render that has not begun.
    pub fn new() -> (slices: Self)
        ensures
            slices == (Slices { started: false, settled: false }),
    {
        Slices { started: false, settled: false }
    }

    /// The call the next slice makes.
    pub fn next(&mut self) -> (call: Call)
        ensures
            old(self).settled ==> call == Call::Nothing && *final(self) == *old(self),
            !old(self).settled ==> call == (if old(self).started {
                Call::Continue
            } else {
                Call::Start
            }) && *final(self) == (Slices { started: true, settled: false }),
    {
        if self.settled {
            Call::Nothing
        } else if self.started {
            Call::Continue
        } else {
            self.started = true;
            Call::Start
        }
    }

    /// What the answer to a slice's call means. `error` is the library's last error.
    ///
    /// Whatever is not an unfinished page ends the render.
    pub fn answered(&mut self, status: i32, error: u32) -> (progress: Progress)
        ensures
            answer_means(status, error as nat, progress),
            *final(self) == (if status == RENDER_TO_BE_CONTINUED {
                *old(self)
            } else {
                Slices { settled: true, ..*old(self) }
            }),
    {
        if status == RENDER_DONE {
            self.settled = true;
            Progress::Finished
        } else if status == RENDER_TO_BE_CONTINUED {
            Progress::Unfinished
        } else if status == RENDER_FAILED {
            self.settled = true;
            Progress::Failed(
                String::from_str("Pdfium could not render the page (error ").concat(
                    decimal(error as u64).as_str(),
                ).concat(")"),
            )
        } else {
            self.settled = true;
            Progress::Failed(
                String::from_str("Pdfium returned ").concat(
                    signed_decimal(status as i64).as_str(),
                ).concat(" for a progressive render"),
            )
        }
    }

    /// What a slice comes to when there is no library: the render is over.
    pub fn unavailable(&mut self) -> (progress: Progress)
        ensures
            progress matches Progress::Failed(said) && said@
                == "the Pdfium library is not available"@,
            *final(self) == (Slices { settled: true, ..*old(self) }),
    {
        self.settled = true;
        Progress::Failed(String::from_str("the Pdfium library is not available"))
    }
}

// ---------------------------------------------------------------------------------------------
// Pixels
// ---------------------------------------------------------------------------------------------

/// A row of one-byte pixels as BGRA: the one channel becomes all three, opaque.
pub open spec fn widened(row: Seq<u8>) -> Seq<u8>
    decreases row.len(),
{
    if row.len() == 0 {
        seq![]
    } else {
        widened(row.drop_last()) + seq![row.last(), row.last(), row.last(), 0xff]
    }
}

/// A row of a bitmap as BGRA.
pub open spec fn row_as_bgra(row: Seq<u8>, format: Format) -> Seq<u8> {
    match format {
        Format::Bgra => row,
        Format::Grayscale => widened(row),
    }
}

/// The first rows of a bitmap as BGRA, without what pads them to the stride.
pub open spec fn rows_as_bgra(
    buffer: Seq<u8>,
    width: nat,
    stride: nat,
    rows: nat,
    format: Format,
) -> Seq<u8>
    decreases rows,
{
    if rows == 0 {
        seq![]
    } else {
        let start = (rows - 1) * stride;
        rows_as_bgra(buffer, width, stride, (rows - 1) as nat, format) + row_as_bgra(
            buffer.subrange(start, start + width * format.pixel_bytes()),
            format,
        )
    }
}

/// A page's pixels: its size, and rows of BGRA.
#[derive(Debug)]
pub struct Pixels {
    /// How many pixels wide the page is.
    pub width: u32,
    /// How many pixels tall the page is.
    pub height: u32,
    /// The rows, top to bottom.
    pub bgra: Vec<u8>,
}

/// Copies the rendered pixels out of a bitmap, row by row, because the stride may be wider than a row.
///
/// A grayscale page is widened to BGRA. A bitmap without a size or a buffer has no pixels.
pub fn pixels(width: i32, height: i32, stride: i32, buffer: Option<&[u8]>, format: Format) -> (result:
    Option<Pixels>)
    requires
        width > 0 && height > 0 && stride > 0 ==> (buffer matches Some(buffer) ==> width
            * format.pixel_bytes() <= stride && stride * height <= buffer@.len()),
    ensures
        result is Some <==> width > 0 && height > 0 && stride > 0 && buffer is Some,
        result matches Some(pixels) ==> pixels.width == width && pixels.height == height
            && pixels.bgra@ == rows_as_bgra(
            buffer->0@,
            width as nat,
            stride as nat,
            height as nat,
            format,
        ),
{
    if width <= 0 || height <= 0 || stride <= 0 {
        return None;
    }
    let buffer: &[u8] = match buffer {
        Some(buffer) => buffer,
        None => return None,
    };
    let rows: usize = height as usize;
    let step: usize = stride as usize;
    let columns: usize = width as usize;
    let mut bgra: Vec<u8> = Vec::new();
    let mut line: usize = 0;
    let mut start: usize = 0;
    let total: usize = buffer.len();
    while line < rows
        invariant
            line <= rows,
            rows == height,
            step == stride,
            columns == width,
            step > 0,
            total == buffer@.len(),
            columns * format.pixel_bytes() <= step,
            step * rows <= total,
            start == line * step,
            bgra@ == rows_as_bgra(
                buffer@,
                columns as nat,
                step as nat,
                line as nat,
                format,
            ),
        decreases rows - line,
    {
        assert(line * step + step <= step * rows) by (nonlinear_arith)
            requires
                line < rows,
        ;
        assert((line + 1) * step == line * step + step) by (nonlinear_arith);
        let ghost before = bgra@;
        let ghost row = buffer@.subrange(
            start as int,
            start + columns * format.pixel_bytes(),
        );
        match format {
            Format::Bgra => {
                let mut x: usize = 0;
                while x < columns * 4
                    invariant
                        x <= columns * 4,
                        columns * 4 <= step,
                        start + step <= total,
                        total == buffer@.len(),
                        row == buffer@.subrange(start as int, start + columns * 4),
                        bgra@ == before + row.take(x as int),
                    decreases columns * 4 - x,
                {
                    bgra.push(buffer[start + x]);
                    assert(row.take(x + 1) =~= row.take(x as int).push(row[x as int]));
                    assert(bgra@ =~= before + row.take(x + 1));
                    x = x + 1;
                }
                assert(row.take(x as int) =~= row);
            },
            Format::Grayscale => {
                let mut x: usize = 0;
                assert(row.take(0) =~= Seq::<u8>::empty());
                assert(before + widened(row.take(0)) =~= before);
                while x < columns
                    invariant
                        x <= columns,
                        columns <= step,
                        start + step <= total,
                        total == buffer@.len(),
                        row == buffer@.subrange(start as int, start + columns),
                        bgra@ == before + widened(row.take(x as int)),
                    decreases columns - x,
                {
                    let value: u8 = buffer[start + x];
                    bgra.push(value);
                    bgra.push(value);
                    bgra.push(value);
                    bgra.push(0xff);
                    assert(row.take(x + 1).drop_last() =~= row.take(x as int));
                    assert(row.take(x + 1).last() == value);
                    assert(bgra@ =~= before + widened(row.take(x + 1)));
                    x = x + 1;
                }
                assert(row.take(x as int) =~= row);
            },
        }
        line = line + 1;
        start = start + step;
    }
    Some(Pixels { width: width as u32, height: height as u32, bgra })
}

/// A page of one-byte pixels has its brightness in every channel and is opaque everywhere.
pub proof fn widening_is_grey_and_opaque(row: Seq<u8>, x: int)
    requires
        0 <= x < row.len(),
    ensures
        widened(row).len() == 4 * row.len(),
        widened(row)[4 * x] == row[x],
        widened(row)[4 * x + 1] == row[x],
        widened(row)[4 * x + 2] == row[x],
        widened(row)[4 * x + 3] == 0xff,
    decreases row.len(),
{
    let shorter = row.drop_last();
    widened_length(shorter);
    if x < shorter.len() {
        widening_is_grey_and_opaque(shorter, x);
    }
}

/// A widened row is four times as long.
proof fn widened_length(row: Seq<u8>)
    ensures
        widened(row).len() == 4 * row.len(),
    decreases row.len(),
{
    if row.len() > 0 {
        widened_length(row.drop_last());
    }
}

/// The pixels of a page fill its width and height exactly.
pub proof fn pixels_fill_the_page(
    buffer: Seq<u8>,
    width: nat,
    stride: nat,
    rows: nat,
    format: Format,
)
    requires
        width * format.pixel_bytes() <= stride,
        stride * rows <= buffer.len(),
    ensures
        rows_as_bgra(buffer, width, stride, rows, format).len() == rows * (width * 4),
    decreases rows,
{
    if rows > 0 {
        let less = (rows - 1) as nat;
        assert(stride * less <= stride * rows) by (nonlinear_arith)
            requires
                less <= rows,
        ;
        assert(less * stride + stride == stride * rows) by (nonlinear_arith)
            requires
                rows == less + 1,
        ;
        assert(0 <= less * stride) by (nonlinear_arith);
        assert(rows * (width * 4) == less * (width * 4) + width * 4) by (nonlinear_arith)
            requires
                rows == less + 1,
        ;
        pixels_fill_the_page(buffer, width, stride, less, format);
        let start = (rows - 1) * stride;
        let row = buffer.subrange(start, start + width * format.pixel_bytes());
        widened_length(row);
        assert(row.len() == width * format.pixel_bytes());
        assert(row_as_bgra(row, format).len() == width * 4);
    } else {
        assert(rows * (width * 4) == 0) by (nonlinear_arith)
            requires
                rows == 0,
        ;
    }
}

// ---------------------------------------------------------------------------------------------
// What is said when it does not work
// ---------------------------------------------------------------------------------------------

/// The refusal of a document the library could not read.
pub fn document_unreadable(name: &str, error: u32) -> (refusal: AppError)
    ensures
        refusal matches AppError::Pdf(said) && said@ == name@
            + " could not be read (Pdfium error "@ + decimal_text(error as nat) + ")"@,
{
    AppError::Pdf(
        String::from_str(name).concat(" could not be read (Pdfium error ").concat(
            decimal(error as u64).as_str(),
        ).concat(")"),
    )
}

/// The refusal of a page the document does not have.
pub fn page_missing(index: usize, name: &str, count: usize, error: u32) -> (refusal: AppError)
    requires
        index < u64::MAX,
    ensures
        refusal matches AppError::Pdf(said) && said@ == "page "@ + decimal_text((index + 1) as nat)
            + " of "@ + name@ + " was not found: it has "@ + decimal_text(count as nat)
            + " pages, and Pdfium reports error "@ + decimal_text(error as nat),
{
    AppError::Pdf(
        String::from_str("page ").concat(decimal(index as u64 + 1).as_str()).concat(
            " of ",
        ).concat(name).concat(" was not found: it has ").concat(
            decimal(count as u64).as_str(),
        ).concat(" pages, and Pdfium reports error ").concat(decimal(error as u64).as_str()),
    )
}

/// The refusal of a page the library could not load.
pub fn page_unloadable(index: usize, name: &str, error: u32) -> (refusal: AppError)
    requires
        index < u64::MAX,
    ensures
        refusal matches AppError::Pdf(said) && said@ == "page "@ + decimal_text((index + 1) as nat)
            + " of "@ + name@ + " could not be loaded (Pdfium error "@ + decimal_text(error as nat)
            + ")"@,
{
    AppError::Pdf(
        String::from_str("page ").concat(decimal(index as u64 + 1).as_str()).concat(
            " of ",
        ).concat(name).concat(" could not be loaded (Pdfium error ").concat(
            decimal(error as u64).as_str(),
        ).concat(")"),
    )
}

/// The refusal of a page whose bitmap could not be allocated.
pub fn bitmap_unavailable(width: u32, height: u32, index: usize) -> (refusal: AppError)
    requires
        index < u64::MAX,
    ensures
        refusal matches AppError::Pdf(said) && said@ == "a "@ + decimal_text(width as nat) + "×"@
            + decimal_text(height as nat) + " bitmap could not be allocated for page "@
            + decimal_text((index + 1) as nat),
{
    AppError::Pdf(
        String::from_str("a ").concat(decimal(width as u64).as_str()).concat("×").concat(
            decimal(height as u64).as_str(),
        ).concat(" bitmap could not be allocated for page ").concat(
            decimal(index as u64 + 1).as_str(),
        ),
    )
}

/// The refusal of a library that could not be loaded: it was nowhere, or every attempt failed.
pub fn library_unavailable(tried: &Vec<String>) -> (refusal: AppError)
    ensures
        refusal matches AppError::PdfiumLibrary(said) && said@ == (if tried@.len() == 0 {
            LIBRARY_NAME@
                + " was not found next to the executable, in the working directory, or in vendor/lib"@
        } else {
            joined_with(words(tried@), "; "@)
        }),
{
    if tried.len() == 0 {
        return AppError::PdfiumLibrary(
            String::from_str(LIBRARY_NAME).concat(
                " was not found next to the executable, in the working directory, or in vendor/lib",
            ),
        );
    }
    AppError::PdfiumLibrary(join(tried, "; "))
}

/// The refusal of a library that lacks a function.
pub fn symbol_missing(name: &str) -> (refusal: AppError)
    ensures
        refusal matches AppError::PdfiumLibrary(said) && said@ == name@
            + " is missing from this build of "@ + LIBRARY_NAME@,
{
    AppError::PdfiumLibrary(
        String::from_str(name).concat(" is missing from this build of ").concat(LIBRARY_NAME),
    )
}

/// A place in a run of rows lies in one of them.
proof fn a_place_is_in_a_row(y: int, k: int, rows: int, length: int)
    requires
        0 <= y < rows,
        0 <= k < length,
    ensures
        0 <= y * length + k < rows * length,
        y < rows - 1 ==> y * length + k < (rows - 1) * length,
{
    assert(0 <= y * length) by (nonlinear_arith)
        requires
            0 <= y,
            0 <= length,
    ;
    assert(y * length + length <= rows * length) by (nonlinear_arith)
        requires
            y + 1 <= rows,
            0 <= length,
    ;
    if y < rows - 1 {
        assert(y * length + length <= (rows - 1) * length) by (nonlinear_arith)
            requires
                y + 1 <= rows - 1,
                0 <= length,
        ;
    }
}

/// Every byte of a colour page is the byte of the bitmap at its own place: what pads a row to the stride is
/// left out, and nothing else is changed or moved.
pub proof fn a_colour_page_is_its_bitmap(
    buffer: Seq<u8>,
    width: nat,
    stride: nat,
    rows: nat,
    y: int,
    k: int,
)
    requires
        width * 4 <= stride,
        stride * rows <= buffer.len(),
        0 <= y < rows,
        0 <= k < 4 * width,
    ensures
        ({
            let bgra = rows_as_bgra(buffer, width, stride, rows, Format::Bgra);
            &&& bgra.len() == rows * (width * 4)
            &&& bgra[y * (width * 4) + k] == buffer[y * stride + k]
        }),
    decreases rows,
{
    let less = (rows - 1) as nat;
    assert(stride * less + stride == stride * rows) by (nonlinear_arith)
        requires
            rows == less + 1,
    ;
    assert(stride * less == less * stride) by (nonlinear_arith);
    assert(0 <= less * stride) by (nonlinear_arith);
    pixels_fill_the_page(buffer, width, stride, rows, Format::Bgra);
    pixels_fill_the_page(buffer, width, stride, less, Format::Bgra);
    a_place_is_in_a_row(y, k, rows as int, (width * 4) as int);
    if y < less {
        a_colour_page_is_its_bitmap(buffer, width, stride, less, y, k);
    }
}

/// Every pixel of a grey page is the byte of the bitmap at its own place, in each of the three colours, and
/// opaque.
pub proof fn a_grey_page_is_its_bitmap(
    buffer: Seq<u8>,
    width: nat,
    stride: nat,
    rows: nat,
    y: int,
    x: int,
)
    requires
        width <= stride,
        stride * rows <= buffer.len(),
        0 <= y < rows,
        0 <= x < width,
    ensures
        ({
            let bgra = rows_as_bgra(buffer, width, stride, rows, Format::Grayscale);
            let at = y * (width * 4) + 4 * x;
            &&& bgra.len() == rows * (width * 4)
            &&& bgra[at] == buffer[y * stride + x]
            &&& bgra[at + 1] == buffer[y * stride + x]
            &&& bgra[at + 2] == buffer[y * stride + x]
            &&& bgra[at + 3] == 0xff
        }),
    decreases rows,
{
    let less = (rows - 1) as nat;
    assert(stride * less + stride == stride * rows) by (nonlinear_arith)
        requires
            rows == less + 1,
    ;
    assert(stride * less == less * stride) by (nonlinear_arith);
    assert(0 <= less * stride) by (nonlinear_arith);
    assert(width * Format::Grayscale.pixel_bytes() == width);
    pixels_fill_the_page(buffer, width, stride, rows, Format::Grayscale);
    pixels_fill_the_page(buffer, width, stride, less, Format::Grayscale);
    a_place_is_in_a_row(y, 4 * x, rows as int, (width * 4) as int);
    a_place_is_in_a_row(y, 4 * x + 3, rows as int, (width * 4) as int);
    if y < less {
        a_grey_page_is_its_bitmap(buffer, width, stride, less, y, x);
    } else {
        let start = (rows - 1) * stride;
        let row = buffer.subrange(start, start + width);
        widening_is_grey_and_opaque(row, x);
    }
}

/// A slice is over, goes on or has failed as its answer says, and each of the three answers is one of the
/// library's; any other is a failure that says what came.
pub proof fn an_answer_is_taken_at_its_word(status: i32, error: nat, progress: Progress)
    requires
        answer_means(status, error, progress),
    ensures
        progress is Unfinished <==> status == 1,
        progress is Finished <==> status == 2,
        progress is Failed <==> status != 1 && status != 2,
        status == 3 ==> progress->Failed_0@ == "Pdfium could not render the page (error "@
            + decimal_text(error) + ")"@,
        status < 1 || status > 3 ==> progress->Failed_0@ == "Pdfium returned "@ + signed_text(
            status as int,
        ) + " for a progressive render"@,
{
}

/// A colour bitmap has four bytes a pixel and a grey one has one, and the library is asked for each by its
/// own code. The paper is white and opaque.
pub proof fn a_bitmap_is_asked_for_by_its_code()
    ensures
        Format::Bgra.pixel_bytes() == 4,
        Format::Grayscale.pixel_bytes() == 1,
        Format::Bgra.code_of() == 4,
        Format::Grayscale.code_of() == 1,
        RENDER_ANNOTATIONS == 1,
        PAPER == u32::MAX,
{
}

/// The library is the one that ships beside the application.
pub proof fn the_library_is_called_by_its_name()
    ensures
        LIBRARY_NAME@ == "pdfium.dll"@,
{
}

} // verus!
