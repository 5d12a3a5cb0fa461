//! The rendered pages of a document, and which of them are kept.

use crate::error::AppError;
use crate::paths::{file_name, name_in};
use crate::text::{decimal, decimal_text};
use std::collections::HashMap;
use vstd::prelude::*;

verus! {

broadcast use vstd::std_specs::hash::group_hash_axioms;

/// What is shown for a document that has no name.
pub const UNTITLED: &'static str = "untitled page";

/// The name shown for the document in hand.
pub fn file_title(path: Option<&str>) -> (name: String)
    ensures
        name@ == (match path {
            Some(path) => match name_in(path@) {
                Some(name) => name,
                None => UNTITLED@,
            },
            None => UNTITLED@,
        }),
{
    match path {
        Some(path) => match file_name(path) {
            Some(name) => name,
            None => String::from_str(UNTITLED),
        },
        None => String::from_str(UNTITLED),
    }
}

/// Whether a page can be rendered, and why not: there has to be a document, and it has to have the
/// page.
pub fn renderable(count: Option<usize>, index: usize) -> (result: Result<(), AppError>)
    ensures
        match count {
            None => result matches Err(AppError::Other(said)) && said@ == "no PDF is open"@,
            Some(count) => if index < count {
                result is Ok
            } else {
                result matches Err(AppError::Other(said)) && said@ == "page "@ + decimal_text(
                    index as nat,
                ) + " is past the end"@
            },
        },
{
    match count {
        None => Err(AppError::Other(String::from_str("no PDF is open"))),
        Some(count) => if index < count {
            Ok(())
        } else {
            Err(
                AppError::Other(
                    String::from_str("page ").concat(decimal(index as u64).as_str()).concat(
                        " is past the end",
                    ),
                ),
            )
        },
    }
}

/// Whether this many bytes are enough for four of them a pixel, where a row's own length fits the
/// machine's word.
pub open spec fn holds_pixels(width: u32, height: u32, count: nat) -> bool {
    4 * width <= usize::MAX && 4 * width * height <= count
}

/// Calls `image::RgbaImage::from_raw`, which takes a buffer that is large enough for four bytes a pixel
/// and keeps it as it is. A row whose own length does not fit the machine's word is refused too, even
/// where there is no row.
#[verifier::external_body]
pub(crate) fn rgba_image(width: u32, height: u32, bytes: Vec<u8>) -> (image: Option<Vec<u8>>)
    ensures
        image matches Some(kept) ==> kept@ == bytes@,
        image is Some == holds_pixels(width, height, bytes@.len()),
{
    image::RgbaImage::from_raw(width, height, bytes).map(|image| image.into_raw())
}

/// What is said of a bitmap whose buffer is too small for its size.
pub const MISMATCH: &'static str = "the rendered page did not match the buffer size Pdfium reported";

/// The pixels of a rendered page: its size, and the bytes that fill it.
#[derive(Debug)]
pub struct PageImage {
    /// How many pixels wide it is.
    pub width: u32,
    /// How many pixels tall it is.
    pub height: u32,
    /// Four bytes a pixel.
    pub bytes: Vec<u8>,
}

/// A size a bitmap reports, which is none when it is negative.
pub open spec fn reported_size(size: i32) -> u32 {
    if size > 0 {
        size as u32
    } else {
        0
    }
}

/// Takes the pixels of a bitmap over, once their number fits the size the bitmap reports.
pub fn page_image(width: i32, height: i32, bytes: Vec<u8>) -> (result: Result<PageImage, AppError>)
    ensures
        result is Ok == holds_pixels(reported_size(width), reported_size(height), bytes@.len()),
        result matches Ok(image) ==> image.width == reported_size(width) && image.height
            == reported_size(height) && image.bytes@ == bytes@,
        result is Err ==> (result matches Err(AppError::Other(said)) && said@ == MISMATCH@),
{
    let columns: u32 = if width > 0 {
        width as u32
    } else {
        0
    };
    let rows: u32 = if height > 0 {
        height as u32
    } else {
        0
    };
    match rgba_image(columns, rows, bytes) {
        Some(bytes) => Ok(PageImage { width: columns, height: rows, bytes }),
        None => Err(AppError::Other(String::from_str(MISMATCH))),
    }
}

/// The pages that have been rendered, mathematically.
#[verifier::ext_equal]
pub ghost struct Rendered<P> {
    /// The pages, by their index.
    pub pages: Map<usize, P>,
    /// The width they were rendered at.
    pub pixel_width: u32,
}

impl<P> Rendered<P> {
    /// The pages that are still good at a width: all of them, or none.
    pub open spec fn at_width(self, pixel_width: u32) -> Self {
        if self.pixel_width == pixel_width {
            self
        } else {
            Rendered { pages: Map::empty(), pixel_width }
        }
    }
}

/// The pages that have been rendered, all at one width.
#[derive(Debug)]
pub struct PageCache<P> {
    pages: HashMap<usize, P>,
    pixel_width: u32,
}

impl<P> View for PageCache<P> {
    type V = Rendered<P>;

    closed spec fn view(&self) -> Rendered<P> {
        Rendered { pages: self.pages@, pixel_width: self.pixel_width }
    }
}

impl<P> PageCache<P> {
    /// A cache with no page in it, for pages of a width.
    pub fn new(pixel_width: u32) -> (cache: Self)
        ensures
            cache@ == (Rendered::<P> { pages: Map::empty(), pixel_width }),
    {
        PageCache { pages: HashMap::new(), pixel_width }
    }

    /// The page as it was rendered at a width, if it was.
    ///
    /// Asking for another width drops what was rendered at the last one.
    pub fn look_up(&mut self, index: usize, pixel_width: u32) -> (page: Option<&P>)
        ensures
            final(self)@ == old(self)@.at_width(pixel_width),
            match page {
                Some(page) => final(self)@.pages.contains_key(index) && *page
                    == final(self)@.pages[index],
                None => !final(self)@.pages.contains_key(index),
            },
    {
        if self.pixel_width != pixel_width {
            self.pages = HashMap::new();
            self.pixel_width = pixel_width;
        }
        self.pages.get(&index)
    }

    /// Keeps a page that was rendered at the width in use.
    pub fn keep(&mut self, index: usize, page: P)
        ensures
            final(self)@ == (Rendered {
                pages: old(self)@.pages.insert(index, page),
                ..old(self)@
            }),
    {
        self.pages.insert(index, page);
    }
}

/// A page that was kept comes back as it was, for as long as the width does not change; and not once
/// it does.
pub proof fn a_page_is_rendered_once_per_width<P>(
    cache: Rendered<P>,
    index: usize,
    page: P,
    pixel_width: u32,
)
    ensures
        ({
            let kept = Rendered { pages: cache.pages.insert(index, page), ..cache };
            let asked = kept.at_width(pixel_width);
            if pixel_width == cache.pixel_width {
                asked.pages.contains_key(index) && asked.pages[index] == page
            } else {
                forall|other: usize| !asked.pages.contains_key(other)
            }
        }),
{
}

/// A bitmap's size is what it reports, and nothing where it reports less than nothing; its bytes fit where
/// there are four of them for each pixel.
pub proof fn a_bitmap_needs_four_bytes_a_pixel(width: i32, height: i32, count: nat)
    ensures
        width >= 0 ==> reported_size(width) == width,
        width < 0 ==> reported_size(width) == 0,
        width >= 0 && height >= 0 && 4 * width <= usize::MAX ==> (holds_pixels(
            reported_size(width),
            reported_size(height),
            count,
        ) <==> count >= 4 * width * height),
{
}

/// Asking for the width the pages were rendered at keeps them all; asking for another keeps none, and the
/// width asked for is the one in use.
pub proof fn a_width_keeps_its_pages<P>(cache: Rendered<P>, pixel_width: u32, index: usize)
    ensures
        cache.at_width(pixel_width).pixel_width == pixel_width,
        pixel_width == cache.pixel_width ==> cache.at_width(pixel_width).pages == cache.pages,
        pixel_width != cache.pixel_width ==> !cache.at_width(pixel_width).pages.contains_key(index),
{
}

/// A document without a name is called untitled, and a bitmap of the wrong size is refused in these words.
pub proof fn a_document_without_a_name_is_untitled()
    ensures
        UNTITLED@ == "untitled page"@,
        MISMATCH@ == "the rendered page did not match the buffer size Pdfium reported"@,
{
}

} // verus!
