//! Chapter detection for audiobook transcripts.
//!
//! A speech recogniser hands over ranked hypotheses for each utterance. This
//! library picks one hypothesis per utterance, folds spelled-out numbers into
//! single tokens, and runs a small online parser that recognises spoken chapter
//! headings ("chapter twenty three") and reports where each chapter starts.
//!
//! All times are whole milliseconds held in `u64`; scores are thousandths held
//! in integers. Nothing here performs I/O: writers render text into a buffer and
//! the caller decides where it goes.

pub mod audio_provider;
pub mod chapter_writer;
pub mod chapterize;
pub mod cue;
pub mod extract;
pub mod ffmetadata;
pub mod fixed_vec_deque;
pub mod progress;
pub mod text;

use crate::text::{push_two_digits, two_digits};
use vstd::prelude::*;
use vstd::string::StringExecFns;

verus! {

/// A length of time of `millis` milliseconds as hours, minutes and seconds,
/// each with at least two digits, and hundredths of a second.
pub open spec fn duration_text(millis: nat) -> Seq<char> {
    two_digits(millis / 3600000) + seq![':'] + two_digits((millis / 60000) % 60) + seq![':']
        + two_digits((millis / 1000) % 60) + seq!['.'] + two_digits((millis % 1000) / 10)
}

/// Renders a length of time given in milliseconds for a reader, and an
/// unknown length as two question marks.
pub fn format_duration(duration: &Option<u64>) -> (text: String)
    ensures
        text@ == match *duration {
            Some(millis) => duration_text(millis as nat),
            None => "??"@,
        },
{
    let total: u64 = match duration {
        Some(millis) => *millis,
        None => {
            return String::from_str("??");
        },
    };
    let millis: u64 = total % 1000;
    let seconds: u64 = (total / 1000) % 60;
    let minutes: u64 = ((total / 1000) / 60) % 60;
    let hours: u64 = ((total / 1000) / 60) / 60;
    assert(minutes == (total as nat / 60000) % 60 && hours == total as nat / 3600000)
        by (nonlinear_arith)
        requires
            minutes == ((total / 1000) / 60) % 60,
            hours == ((total / 1000) / 60) / 60,
    ;
    proof {
        reveal_strlit(":");
        reveal_strlit(".");
    }
    let mut text = String::new();
    push_two_digits(&mut text, hours);
    text.append(":");
    push_two_digits(&mut text, minutes);
    text.append(":");
    push_two_digits(&mut text, seconds);
    text.append(".");
    push_two_digits(&mut text, millis / 10);
    text
}

} // verus!
