//! Rendering an ffmetadata file.

use crate::chapter_writer::{ChapterWriter, WriterError};
use crate::text::{
    decimal, push_decimal, regex_replace_all, regex_replaced, trim, trimmed, unindent, unindented,
};
use vstd::prelude::*;
use vstd::string::StringExecFns;

verus! {

/// Runs of carriage returns, which an ffmetadata value drops.
pub open spec fn carriage_returns_pattern() -> Seq<char> {
    "\r+"@
}

/// The characters that an ffmetadata value has to escape: line feed, equals
/// sign, semicolon, hash and backslash.
pub open spec fn special_chars_pattern() -> Seq<char> {
    "[\n=;#\\\\]"@
}

/// The replacement that puts a backslash before what was matched.
pub open spec fn escaped_match() -> Seq<char> {
    "\\$0"@
}

/// A text made fit for an ffmetadata value: carriage returns are taken out,
/// each special character gets a backslash before it, and the white space at
/// either end goes. `None` where a pattern is not accepted.
pub open spec fn ffmetadata_sanitized(text: Seq<char>) -> Option<Seq<char>> {
    match regex_replaced(carriage_returns_pattern(), text, ""@) {
        Some(without_cr) => match regex_replaced(
            special_chars_pattern(),
            without_cr,
            escaped_match(),
        ) {
            Some(escaped) => Some(trimmed(escaped)),
            None => None,
        },
        None => None,
    }
}

/// The first line of an ffmetadata file.
pub open spec fn ffmetadata_header() -> Seq<char> {
    ";FFMETADATA1\n"@
}

/// One chapter of an ffmetadata file as it is laid out before the indentation
/// that the lines share is removed.
pub open spec fn chapter_layout(start: nat, end: nat, title: Seq<char>) -> Seq<char> {
    "\n                [CHAPTER]\n                TIMEBASE=1/1000\n                START="@
        + decimal(start) + "\n                END="@ + decimal(end)
        + "\n                title="@ + title + "\n            "@
}

/// One chapter of an ffmetadata file.
pub open spec fn chapter_block(start: nat, end: nat, title: Seq<char>) -> Seq<char> {
    unindented(chapter_layout(start, end, title))
}

/// The mathematical value of an [`FfmetadataWriter`].
pub struct FfmetadataView {
    /// What has been rendered so far.
    pub text: Seq<char>,
    /// Whether the header is rendered.
    pub header_written: bool,
    /// The start and title of the chapter that is open: it is rendered once
    /// its end is known.
    pub partial_chapter: Option<(nat, Seq<char>)>,
}

/// Renders an ffmetadata file piece by piece into a text that the caller
/// writes out.
pub struct FfmetadataWriter {
    out: String,
    header_written: bool,
    /// A tuple of (start_time, title). We still need the end time to actually
    /// write the chapter.
    partial_chapter: Option<(u64, String)>,
}

impl View for FfmetadataWriter {
    type V = FfmetadataView;

    closed spec fn view(&self) -> FfmetadataView {
        FfmetadataView {
            text: self.out@,
            header_written: self.header_written,
            partial_chapter: match self.partial_chapter {
                Some((start, title)) => Some((start as nat, title@)),
                None => None,
            },
        }
    }
}

/// What asking a writer in state `before` for the header comes to: the
/// answer, and the writer afterwards. The header is refused where it is
/// rendered already.
pub open spec fn after_header(before: FfmetadataView) -> (Result<(), WriterError>, FfmetadataView) {
    if before.header_written {
        (Err(WriterError::HeaderAlreadyWritten), before)
    } else {
        (
            Ok(()),
            FfmetadataView {
                text: before.text + ffmetadata_header(),
                header_written: true,
                partial_chapter: before.partial_chapter,
            },
        )
    }
}

/// What asking a writer in state `before` for a chapter comes to: the
/// answer, and the writer afterwards.
///
/// The chapter is refused where the header is not rendered yet and where the
/// title cannot be cleaned up; a writer that refuses stays as it was.
pub open spec fn after_chapter(before: FfmetadataView, start: nat, end: nat, title: Seq<char>) -> (
    Result<(), WriterError>,
    FfmetadataView,
) {
    if !before.header_written {
        (Err(WriterError::HeaderMissing), before)
    } else {
        match ffmetadata_sanitized(title) {
            Some(clean) => (
                Ok(()),
                FfmetadataView {
                    text: before.text + chapter_block(start, end, clean),
                    header_written: true,
                    partial_chapter: before.partial_chapter,
                },
            ),
            None => (Err(WriterError::BadPattern), before),
        }
    }
}

/// The writer with no chapter open.
pub open spec fn closed_off(state: FfmetadataView) -> FfmetadataView {
    FfmetadataView {
        text: state.text,
        header_written: state.header_written,
        partial_chapter: None,
    }
}

/// What closing the open chapter at `end` comes to. With no chapter open
/// nothing happens. Otherwise the chapter is rendered from its start to
/// `end`; where that is refused, the chapter is dropped all the same.
pub open spec fn after_close(before: FfmetadataView, end: nat) -> (
    Result<(), WriterError>,
    FfmetadataView,
) {
    match before.partial_chapter {
        Some((start, title)) => after_chapter(closed_off(before), start, end, title),
        None => (Ok(()), before),
    }
}

/// What the start of a chapter comes to: the chapter that was open is closed
/// at the start of the new one, and the new one is open from then on. Where
/// closing is refused, no chapter is open afterwards.
pub open spec fn after_chapter_start(before: FfmetadataView, start: nat, title: Seq<char>) -> (
    Result<(), WriterError>,
    FfmetadataView,
) {
    let closed = after_close(before, start);
    if closed.0 is Ok {
        (
            Ok(()),
            FfmetadataView {
                text: closed.1.text,
                header_written: closed.1.header_written,
                partial_chapter: Some((start, title)),
            },
        )
    } else {
        closed
    }
}

impl FfmetadataWriter {
    /// A writer that has rendered nothing yet.
    pub fn new() -> (writer: Self)
        ensures
            writer@ == (FfmetadataView {
                text: Seq::empty(),
                header_written: false,
                partial_chapter: None,
            }),
    {
        Self { out: String::new(), header_written: false, partial_chapter: None }
    }

    /// Makes a text fit for an ffmetadata value.
    pub fn sanitize_string(s: &str) -> (r: Result<String, WriterError>)
        ensures
            match ffmetadata_sanitized(s@) {
                Some(clean) => r matches Ok(text) && text@ == clean,
                None => r == Err::<String, WriterError>(WriterError::BadPattern),
            },
    {
        let without_cr = match regex_replace_all("\r+", s, "") {
            Ok(text) => text,
            Err(_) => {
                return Err(WriterError::BadPattern);
            },
        };
        match regex_replace_all("[\n=;#\\\\]", without_cr.as_str(), "\\$0") {
            Ok(escaped) => Ok(String::from_str(trim(escaped.as_str()))),
            Err(_) => Err(WriterError::BadPattern),
        }
    }

    /// Renders the header line.
    ///
    /// Fails, and renders nothing, where the header is rendered already.
    pub fn write_header(&mut self) -> (r: Result<(), WriterError>)
        ensures
            (r, final(self)@) == after_header(old(self)@),
    {
        if self.header_written {
            return Err(WriterError::HeaderAlreadyWritten);
        }
        self.out.append(";FFMETADATA1\n");
        self.header_written = true;
        Ok(())
    }

    /// Renders one chapter that runs from `start_time` to `end_time`, both in
    /// milliseconds.
    pub fn write_chapter(&mut self, start_time: u64, end_time: u64, title: &str) -> (r: Result<
        (),
        WriterError,
    >)
        ensures
            (r, final(self)@) == after_chapter(
                old(self)@,
                start_time as nat,
                end_time as nat,
                title@,
            ),
    {
        if !self.header_written {
            return Err(WriterError::HeaderMissing);
        }
        let clean = match Self::sanitize_string(title) {
            Ok(clean) => clean,
            Err(e) => {
                return Err(e);
            },
        };
        let mut layout = String::from_str(
            "\n                [CHAPTER]\n                TIMEBASE=1/1000\n                START=",
        );
        push_decimal(&mut layout, start_time);
        layout.append("\n                END=");
        push_decimal(&mut layout, end_time);
        layout.append("\n                title=");
        layout.append(clean.as_str());
        layout.append("\n            ");
        let block = unindent(layout.as_str());
        self.out.append(block.as_str());
        Ok(())
    }

    /// What has been rendered so far.
    pub fn text(&self) -> (text: &str)
        ensures
            text@ == self@.text,
    {
        self.out.as_str()
    }

    /// Whether the header is rendered.
    pub fn header_written(&self) -> (r: bool)
        ensures
            r == self@.header_written,
    {
        self.header_written
    }

    fn close_chapter(&mut self, end: u64) -> (r: Result<(), WriterError>)
        ensures
            (r, final(self)@) == after_close(old(self)@, end as nat),
    {
        let open = self.partial_chapter.take();
        match open {
            Some((start, title)) => self.write_chapter(start, end, title.as_str()),
            None => Ok(()),
        }
    }
}

impl ChapterWriter for FfmetadataWriter {
    /// Closes the chapter that is open, at the start of the new one, and opens
    /// the new one. Where closing fails, no chapter is open afterwards.
    fn on_chapter_start(&mut self, start_time: u64, title: &str) -> (r: Result<(), WriterError>)
        ensures
            (r, final(self)@) == after_chapter_start(old(self)@, start_time as nat, title@),
    {
        match self.close_chapter(start_time) {
            Ok(()) => {},
            Err(e) => {
                return Err(e);
            },
        }
        self.partial_chapter = Some((start_time, String::from_str(title)));
        Ok(())
    }

    /// Closes the chapter that is open, at the end of the recording.
    fn on_end_of_file(&mut self, file_duration: u64) -> (r: Result<(), WriterError>)
        ensures
            (r, final(self)@) == after_close(old(self)@, file_duration as nat),
    {
        self.close_chapter(file_duration)
    }
}

} // verus!
