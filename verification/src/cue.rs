//! Rendering a cue sheet.

use crate::chapter_writer::{ChapterWriter, WriterError};
use crate::text::{
    decimal, lowercase, lowercased, push_decimal, push_two_digits, regex_replace_all,
    regex_replaced, trim, trimmed, two_digits, unindent, unindented,
};
use vstd::prelude::*;
use vstd::string::StringExecFns;

verus! {

/// There are 75 frames in one second.
pub const CUE_FRAMES_PER_SECOND: u64 = 75;

/// The position `millis` milliseconds into the recording, as a cue sheet
/// writes it: minutes, seconds within the minute, and frames within the
/// second, the frames with two digits.
pub open spec fn cue_index(millis: nat) -> Seq<char> {
    decimal(millis / 60000) + seq![':'] + decimal((millis / 1000) % 60) + seq![':'] + two_digits(
        (millis % 1000) * CUE_FRAMES_PER_SECOND as nat / 1000,
    )
}

/// Renders a position in the recording, given in milliseconds, for a cue
/// sheet.
pub fn duration_to_cue_index(duration: &u64) -> (index: String)
    ensures
        index@ == cue_index(*duration as nat),
{
    let millis: u64 = *duration % 1000;
    let frames: u64 = millis * CUE_FRAMES_PER_SECOND / 1000;
    let seconds: u64 = (*duration / 1000) % 60;
    let minutes: u64 = (*duration / 1000) / 60;
    assert(minutes == *duration as nat / 60000) by (nonlinear_arith)
        requires
            minutes == (*duration / 1000) / 60,
    ;
    proof {
        reveal_strlit(":");
    }
    let mut index = String::new();
    push_decimal(&mut index, minutes);
    index.append(":");
    push_decimal(&mut index, seconds);
    index.append(":");
    push_two_digits(&mut index, frames);
    index
}

/// The characters that a quoted string of a cue sheet cannot hold, in runs.
pub open spec fn cue_unsafe_pattern() -> Seq<char> {
    "[\r\n\"\\\\]+"@
}

/// A text made fit for a quoted string of a cue sheet: every run of carriage
/// returns, line feeds, double quotes and backslashes is taken out, then the
/// white space at either end. `None` where the pattern is not accepted.
pub open spec fn cue_sanitized(text: Seq<char>) -> Option<Seq<char>> {
    match regex_replaced(cue_unsafe_pattern(), text, ""@) {
        Some(clean) => Some(trimmed(clean)),
        None => None,
    }
}

/// The file type that a cue sheet names for a file with this extension.
pub open spec fn cue_file_type(extension: Option<Seq<char>>) -> Seq<char> {
    match extension {
        Some(ext) => {
            let lower = lowercased(ext);
            if lower == "mp3"@ {
                "MP3"@
            } else if lower == "wav"@ || lower == "wv"@ || lower == "flac"@ {
                "WAVE"@
            } else if lower == "m4a"@ || lower == "m4b"@ {
                "MP4"@
            } else {
                "BINARY"@
            }
        },
        None => "BINARY"@,
    }
}

/// The first line of a cue sheet.
pub open spec fn cue_header(file_name: Seq<char>, file_type: Seq<char>) -> Seq<char> {
    "FILE \""@ + file_name + "\" "@ + file_type + "\n"@
}

/// One track of a cue sheet as it is laid out before the indentation that the
/// lines share is removed.
pub open spec fn cue_track_layout(track_num: nat, title: Seq<char>, index: Seq<char>) -> Seq<
    char,
> {
    "\n                TRACK "@ + decimal(track_num) + " AUDIO\n                    TITLE \""@
        + title + "\"\n                    INDEX 01 "@ + index + "\n            "@
}

/// One track of a cue sheet.
pub open spec fn cue_track(track_num: nat, title: Seq<char>, millis: nat) -> Seq<char> {
    unindented(cue_track_layout(track_num, title, cue_index(millis)))
}

/// The mathematical value of a [`CueWriter`].
pub struct CueView {
    /// What has been rendered so far.
    pub text: Seq<char>,
    /// The number that the next track gets.
    pub track_num: nat,
    /// Whether the header is rendered.
    pub header_written: bool,
}

/// Renders a cue sheet piece by piece into a text that the caller writes out.
pub struct CueWriter {
    out: String,
    track_num: u64,
    header_written: bool,
}

impl View for CueWriter {
    type V = CueView;

    closed spec fn view(&self) -> CueView {
        CueView {
            text: self.out@,
            track_num: self.track_num as nat,
            header_written: self.header_written,
        }
    }
}

/// The view of a text that may be missing.
pub open spec fn str_view(text: Option<&str>) -> Option<Seq<char>> {
    match text {
        Some(t) => Some(t@),
        None => None,
    }
}

/// What asking a writer in state `before` for the header comes to: the
/// answer, and the writer afterwards.
///
/// The header is refused where it is rendered already, and where the file
/// name cannot be cleaned up; a writer that refuses stays as it was.
pub open spec fn after_header(
    before: CueView,
    file_name: Seq<char>,
    extension: Option<Seq<char>>,
) -> (Result<(), WriterError>, CueView) {
    if before.header_written {
        (Err(WriterError::HeaderAlreadyWritten), before)
    } else {
        match cue_sanitized(file_name) {
            Some(name) => (
                Ok(()),
                CueView {
                    text: before.text + cue_header(name, cue_file_type(extension)),
                    track_num: before.track_num,
                    header_written: true,
                },
            ),
            None => (Err(WriterError::BadPattern), before),
        }
    }
}

/// What asking a writer in state `before` for a track comes to: the answer,
/// and the writer afterwards.
///
/// The track is refused where the header is not rendered yet, where the track
/// counter has run out, and where the title cannot be cleaned up, in this
/// order; a writer that refuses stays as it was. Otherwise the track is added
/// under the next number.
pub open spec fn after_track(before: CueView, start: nat, title: Seq<char>) -> (
    Result<(), WriterError>,
    CueView,
) {
    if !before.header_written {
        (Err(WriterError::HeaderMissing), before)
    } else if before.track_num >= u64::MAX {
        (Err(WriterError::TooManyTracks), before)
    } else {
        match cue_sanitized(title) {
            Some(clean) => (
                Ok(()),
                CueView {
                    text: before.text + cue_track(before.track_num, clean, start),
                    track_num: before.track_num + 1,
                    header_written: true,
                },
            ),
            None => (Err(WriterError::BadPattern), before),
        }
    }
}

impl CueWriter {
    /// A writer that has rendered nothing yet; its first track gets number 1.
    pub fn new() -> (writer: Self)
        ensures
            writer@ == (CueView { text: Seq::empty(), track_num: 1, header_written: false }),
    {
        Self { out: String::new(), track_num: 1, header_written: false }
    }

    /// Makes a text fit for a quoted string of a cue sheet.
    pub fn sanitize_string(s: &str) -> (r: Result<String, WriterError>)
        ensures
            match cue_sanitized(s@) {
                Some(clean) => r matches Ok(text) && text@ == clean,
                None => r == Err::<String, WriterError>(WriterError::BadPattern),
            },
    {
        match regex_replace_all("[\r\n\"\\\\]+", s, "") {
            Ok(clean) => Ok(String::from_str(trim(clean.as_str()))),
            Err(_) => Err(WriterError::BadPattern),
        }
    }

    /// Renders the header: the line that names the audio file and its type.
    /// `file_name` is the last component of the file's path and `extension`
    /// what follows its last dot, if it has one.
    ///
    /// Fails, and renders nothing, where the header is rendered already.
    pub fn write_header(&mut self, file_name: &str, extension: Option<&str>) -> (r: Result<
        (),
        WriterError,
    >)
        ensures
            (r, final(self)@) == after_header(old(self)@, file_name@, str_view(extension)),
    {
        if self.header_written {
            return Err(WriterError::HeaderAlreadyWritten);
        }
        let file_type = match extension {
            Some(ext) => {
                let lower = lowercase(ext);
                if lower == String::from_str("mp3") {
                    "MP3"
                } else if lower == String::from_str("wav") || lower == String::from_str("wv")
                    || lower == String::from_str("flac") {
                    "WAVE"
                } else if lower == String::from_str("m4a") || lower == String::from_str("m4b") {
                    "MP4"
                } else {
                    "BINARY"
                }
            },
            None => "BINARY",
        };
        let name = match Self::sanitize_string(file_name) {
            Ok(name) => name,
            Err(e) => {
                return Err(e);
            },
        };
        self.out.append("FILE \"");
        self.out.append(name.as_str());
        self.out.append("\" ");
        self.out.append(file_type);
        self.out.append("\n");
        self.header_written = true;
        assert(self@.text =~= old(self)@.text + cue_header(
            name@,
            cue_file_type(str_view(extension)),
        ));
        Ok(())
    }

    /// Renders one track that starts `start` milliseconds into the recording.
    ///
    /// Fails, and renders nothing, where the header is not rendered yet or the
    /// track counter has run out.
    pub fn write_track(&mut self, start: u64, title: &str) -> (r: Result<(), WriterError>)
        ensures
            (r, final(self)@) == after_track(old(self)@, start as nat, title@),
    {
        if !self.header_written {
            return Err(WriterError::HeaderMissing);
        }
        if self.track_num == u64::MAX {
            return Err(WriterError::TooManyTracks);
        }
        let clean = match Self::sanitize_string(title) {
            Ok(clean) => clean,
            Err(e) => {
                return Err(e);
            },
        };
        let index = duration_to_cue_index(&start);
        let mut layout = String::from_str("\n                TRACK ");
        push_decimal(&mut layout, self.track_num);
        layout.append(" AUDIO\n                    TITLE \"");
        layout.append(clean.as_str());
        layout.append("\"\n                    INDEX 01 ");
        layout.append(index.as_str());
        layout.append("\n            ");
        let track = unindent(layout.as_str());
        self.out.append(track.as_str());
        self.track_num = self.track_num + 1;
        Ok(())
    }

    /// What has been rendered so far.
    pub fn text(&self) -> (text: &str)
        ensures
            text@ == self@.text,
    {
        self.out.as_str()
    }

    /// Whether the header is rendered.
    pub fn header_written(&self) -> (r: bool)
        ensures
            r == self@.header_written,
    {
        self.header_written
    }
}

impl ChapterWriter for CueWriter {
    /// A chapter start is a track.
    fn on_chapter_start(&mut self, start_time: u64, title: &str) -> (r: Result<(), WriterError>)
        ensures
            (r, final(self)@) == after_track(old(self)@, start_time as nat, title@),
    {
        self.write_track(start_time, title)
    }

    /// A cue sheet has nothing to say about the end of the recording.
    fn on_end_of_file(&mut self, file_duration: u64) -> (r: Result<(), WriterError>)
        ensures
            r == Ok::<(), WriterError>(()),
            final(self)@ == old(self)@,
    {
        Ok(())
    }
}

} // verus!
