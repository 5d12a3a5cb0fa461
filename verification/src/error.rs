//! The application's error types.

use vstd::prelude::*;

verus! {

/// Everything the application can refuse to do.
#[derive(Debug)]
pub enum AppError {
    /// The pen capture could not be attached to the window; the application draws with the mouse.
    Pen(String),
    /// The Pdfium shared library could not be located or loaded.
    PdfiumLibrary(String),
    /// A PDF document could not be opened, or a page could not be rendered.
    Pdf(String),
    /// The index of what has been opened could not be read from or written to disk.
    IndexIo(String),
    /// The index of what has been opened is not the JSON this application writes.
    IndexFormat(String),
    /// A saved note could not be read or written.
    Note(String),
    /// A request that does not fit any of the cases above.
    Other(String),
}

/// Whether a result is the refusal of a note with exactly this reason.
pub open spec fn refused<T>(result: Result<T, AppError>, reason: Seq<char>) -> bool {
    result matches Err(AppError::Note(said)) && said@ == reason
}

impl AppError {
    /// The sentence the error is shown as.
    pub open spec fn message_text(self) -> Seq<char> {
        match self {
            AppError::Pen(reason) => "pen input is unavailable: "@ + reason@,
            AppError::PdfiumLibrary(reason) => "the Pdfium library could not be loaded: "@ + reason@,
            AppError::Pdf(reason) => "the PDF document could not be read: "@ + reason@,
            AppError::IndexIo(reason) => "the index of opened notes could not be accessed: "@
                + reason@,
            AppError::IndexFormat(reason) => "the index of opened notes is not valid: "@ + reason@,
            AppError::Note(reason) => "the note file could not be read or written: "@ + reason@,
            AppError::Other(reason) => reason@,
        }
    }

    /// The sentence the error is shown as: what failed, and why.
    pub fn message(&self) -> (message: String)
        ensures
            message@ == self.message_text(),
    {
        match self {
            AppError::Pen(reason) => String::from_str("pen input is unavailable: ").concat(
                reason.as_str(),
            ),
            AppError::PdfiumLibrary(reason) => String::from_str(
                "the Pdfium library could not be loaded: ",
            ).concat(reason.as_str()),
            AppError::Pdf(reason) => String::from_str(
                "the PDF document could not be read: ",
            ).concat(reason.as_str()),
            AppError::IndexIo(reason) => String::from_str(
                "the index of opened notes could not be accessed: ",
            ).concat(reason.as_str()),
            AppError::IndexFormat(reason) => String::from_str(
                "the index of opened notes is not valid: ",
            ).concat(reason.as_str()),
            AppError::Note(reason) => String::from_str(
                "the note file could not be read or written: ",
            ).concat(reason.as_str()),
            AppError::Other(reason) => reason.clone(),
        }
    }
}

/// The refusal of a note, for a reason given in words.
pub fn note_error(reason: &str) -> (error: AppError)
    ensures
        error matches AppError::Note(said) && said@ == reason@,
{
    AppError::Note(String::from_str(reason))
}

/// An error says what failed, each kind in its own words, and then why.
pub proof fn an_error_says_what_failed(error: AppError)
    ensures
        error matches AppError::Pen(why) ==> error.message_text() == "pen input is unavailable: "@
            + why@,
        error matches AppError::PdfiumLibrary(why) ==> error.message_text()
            == "the Pdfium library could not be loaded: "@ + why@,
        error matches AppError::Pdf(why) ==> error.message_text()
            == "the PDF document could not be read: "@ + why@,
        error matches AppError::IndexIo(why) ==> error.message_text()
            == "the index of opened notes could not be accessed: "@ + why@,
        error matches AppError::IndexFormat(why) ==> error.message_text()
            == "the index of opened notes is not valid: "@ + why@,
        error matches AppError::Note(why) ==> error.message_text()
            == "the note file could not be read or written: "@ + why@,
        error matches AppError::Other(why) ==> error.message_text() == why@,
{
}

/// A refusal is of a note, and for just the reason it gives.
pub proof fn a_refusal_gives_its_reason<T>(result: Result<T, AppError>, reason: Seq<char>)
    ensures
        refused(result, reason) ==> result is Err && result->Err_0 is Note && result->Err_0->Note_0@
            == reason,
        result is Ok ==> !refused(result, reason),
{
}

} // verus!
