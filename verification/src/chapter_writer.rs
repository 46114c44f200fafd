//! What every chapter file writer can do.

use vstd::prelude::*;
use vstd::string::StringExecFns;

verus! {

/// Why a writer refused to render something.
#[derive(Clone, Copy, Debug, PartialEq, Eq, Structural)]
pub enum WriterError {
    /// The header was asked for a second time.
    HeaderAlreadyWritten,
    /// Something was asked for that has to come after the header.
    HeaderMissing,
    /// The track counter has run out.
    TooManyTracks,
    /// A pattern used to clean up a text was not accepted.
    BadPattern,
}

impl WriterError {
    /// A short description of the error.
    pub fn message(&self) -> (text: String)
        ensures
            text@ == match *self {
                WriterError::HeaderAlreadyWritten => "header already written"@,
                WriterError::HeaderMissing => "must write header first"@,
                WriterError::TooManyTracks => "too many tracks"@,
                WriterError::BadPattern => "clean-up pattern not accepted"@,
            },
    {
        match self {
            WriterError::HeaderAlreadyWritten => String::from_str("header already written"),
            WriterError::HeaderMissing => String::from_str("must write header first"),
            WriterError::TooManyTracks => String::from_str("too many tracks"),
            WriterError::BadPattern => String::from_str("clean-up pattern not accepted"),
        }
    }
}

/// A writer of chapter files: it is told where each chapter starts, in
/// increasing order of time, and at last how long the whole recording is.
pub trait ChapterWriter {
    /// A chapter with this title starts at `start_time` milliseconds.
    fn on_chapter_start(&mut self, start_time: u64, title: &str) -> Result<(), WriterError>;

    /// The recording ends at `file_duration` milliseconds.
    fn on_end_of_file(&mut self, file_duration: u64) -> Result<(), WriterError>;
}

} // verus!
