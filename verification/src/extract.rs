//! Chapters that the audio file already carries in its metadata.
//!
//! Where a file comes with chapter marks of its own there is nothing to
//! listen for: the marks are turned into the same chapter starts that
//! listening would have produced.

use crate::chapterize::chapter::{event_views, first_chapter_title, ChapterEvent, EventView};
use vstd::prelude::*;
use vstd::string::StringExecFns;

verus! {

/// The probe reports every time this many milliseconds later than the
/// encoder does.
pub const PROBE_OFFSET: u64 = 25;

/// One chapter mark of the file's metadata.
#[derive(Debug)]
pub struct Chapter {
    /// The number the file gives the chapter.
    pub id: i64,
    /// Milliseconds into the recording at which the chapter starts, as the
    /// probe reports it.
    pub start: u64,
    /// Milliseconds into the recording at which the chapter ends, as the
    /// probe reports it.
    pub end: u64,
    /// The tag `title`, if the chapter has it.
    pub title: Option<String>,
    /// The tag `description`, if the chapter has it.
    pub description: Option<String>,
}

/// The mathematical value of a [`Chapter`].
pub struct ChapterView {
    pub id: int,
    pub start: nat,
    pub end: nat,
    pub title: Option<Seq<char>>,
    pub description: Option<Seq<char>>,
}

/// The view of a text that may be missing.
pub open spec fn text_view(text: Option<String>) -> Option<Seq<char>> {
    match text {
        Some(t) => Some(t@),
        None => None,
    }
}

impl View for Chapter {
    type V = ChapterView;

    open spec fn view(&self) -> ChapterView {
        ChapterView {
            id: self.id as int,
            start: self.start as nat,
            end: self.end as nat,
            title: text_view(self.title),
            description: text_view(self.description),
        }
    }
}

/// The views of a sequence of chapters.
pub open spec fn chapter_views(chapters: Seq<Chapter>) -> Seq<ChapterView> {
    chapters.map_values(|c: Chapter| c@)
}

/// A time given as `ticks` units of `numer / denom` seconds each, in whole
/// milliseconds, rounded down. `None` where the unit has a zero denominator,
/// the time is negative, or the milliseconds do not fit in 64 bits.
pub open spec fn millis_of_ticks(ticks: int, numer: int, denom: int) -> Option<nat> {
    let scaled = if denom < 0 {
        -(ticks * numer * 1000)
    } else {
        ticks * numer * 1000
    };
    let unit = if denom < 0 {
        -denom
    } else {
        denom
    };
    if denom == 0 || scaled < 0 || scaled / unit > u64::MAX {
        None
    } else {
        Some((scaled / unit) as nat)
    }
}

/// Converts a time given in units of `numer / denom` seconds to
/// milliseconds.
pub fn ticks_to_millis(ticks: i64, numer: i32, denom: i32) -> (millis: Option<u64>)
    ensures
        match millis_of_ticks(ticks as int, numer as int, denom as int) {
            Some(m) => millis == Some(m as u64),
            None => millis is None,
        },
{
    if denom == 0 {
        return None;
    }
    assert(-0x8000_0000_0000_0000 * 0x8000_0000 <= (ticks as int) * (numer as int)
        <= 0x8000_0000_0000_0000 * 0x8000_0000) by (nonlinear_arith)
        requires
            -0x8000_0000_0000_0000 <= ticks as int <= 0x8000_0000_0000_0000,
            -0x8000_0000 <= numer as int <= 0x8000_0000,
    ;
    let product: i128 = (ticks as i128) * (numer as i128);
    let scaled: i128 = if denom < 0 {
        -(product * 1000)
    } else {
        product * 1000
    };
    if scaled < 0 {
        return None;
    }
    let unit: u128 = if denom < 0 {
        (-(denom as i64)) as u128
    } else {
        denom as u128
    };
    let quotient: u128 = (scaled as u128) / unit;
    if quotient > u64::MAX as u128 {
        None
    } else {
        Some(quotient as u64)
    }
}

/// What the probe's time becomes once its offset is taken off; never less
/// than zero.
pub open spec fn corrected(millis: nat) -> nat {
    if millis >= PROBE_OFFSET {
        (millis - PROBE_OFFSET) as nat
    } else {
        0
    }
}

/// Takes the probe's offset off a time it reported, in milliseconds.
pub fn ffprobe_duration_difference_workaround(duration: u64) -> (r: u64)
    ensures
        r == corrected(duration as nat),
{
    if duration >= PROBE_OFFSET {
        duration - PROBE_OFFSET
    } else {
        0
    }
}

impl Chapter {
    /// The chapter's title, if it has one.
    pub fn title(&self) -> (r: Option<&str>)
        ensures
            match r {
                Some(t) => self@.title == Some(t@),
                None => self@.title is None,
            },
    {
        match &self.title {
            Some(t) => Some(t.as_str()),
            None => None,
        }
    }

    /// The chapter's description, if it has one.
    pub fn description(&self) -> (r: Option<&str>)
        ensures
            match r {
                Some(t) => self@.description == Some(t@),
                None => self@.description is None,
            },
    {
        match &self.description {
            Some(t) => Some(t.as_str()),
            None => None,
        }
    }

    /// Milliseconds into the recording at which the chapter starts, as the
    /// probe reports it.
    pub fn start(&self) -> (r: u64)
        ensures
            r == self@.start,
    {
        self.start
    }

    /// Milliseconds into the recording at which the chapter ends, as the
    /// probe reports it.
    pub fn end(&self) -> (r: u64)
        ensures
            r == self@.end,
    {
        self.end
    }
}

/// What is to be handed to the chapter writers for a file with chapter marks.
#[derive(Debug)]
pub struct ChapterPlan {
    /// The chapter starts, in the order of the marks.
    pub events: Vec<ChapterEvent>,
    /// Where the last chapter ends, in milliseconds.
    pub end_of_file: u64,
}

/// The title given to a chapter mark that has none.
pub open spec fn untitled() -> Seq<char> {
    "Untitled"@
}

/// The chapter start that a mark stands for.
pub open spec fn event_of_mark(mark: ChapterView) -> EventView {
    EventView {
        start_time: corrected(mark.start),
        title: match mark.title {
            Some(t) => t,
            None => untitled(),
        },
    }
}

/// The chapter starts for the marks of a file: one for each mark, in order,
/// and before them one at the very start of the recording where the first
/// mark comes later than that.
pub open spec fn planned_events(marks: Seq<ChapterView>) -> Seq<EventView> {
    let starts = marks.map_values(|m: ChapterView| event_of_mark(m));
    if marks.len() > 0 && corrected(marks[0].start) != 0 {
        seq![EventView { start_time: 0, title: first_chapter_title() }] + starts
    } else {
        starts
    }
}

/// A plan always starts at the very start of the recording, and has a chapter
/// start for every mark.
pub proof fn lemma_plan_starts_at_zero(marks: Seq<ChapterView>)
    requires
        marks.len() > 0,
    ensures
        planned_events(marks).len() >= marks.len(),
        planned_events(marks)[0].start_time == 0,
        forall|i: int|
            0 <= i < marks.len() ==> planned_events(marks)[planned_events(marks).len()
                - marks.len() + i] == event_of_mark(#[trigger] marks[i]),
{
}

/// Plans what the chapter writers get for the marks found in a file.
///
/// Without marks there is no plan, and the chapters have to be found by
/// listening. With marks, the plan holds a chapter start for each of them,
/// after one at the very start of the recording if the first mark comes
/// later, and ends where the last mark ends.
pub fn extract_chapters(chapters: &Vec<Chapter>) -> (plan: Option<ChapterPlan>)
    ensures
        match plan {
            Some(p) => {
                &&& chapters@.len() > 0
                &&& event_views(p.events@) == planned_events(chapter_views(chapters@))
                &&& p.end_of_file == corrected(chapters@[chapters@.len() - 1]@.end)
            },
            None => chapters@.len() == 0,
        },
{
    if chapters.len() == 0 {
        return None;
    }
    let ghost marks = chapter_views(chapters@);
    let ghost starts = marks.map_values(|m: ChapterView| event_of_mark(m));
    let mut events: Vec<ChapterEvent> = Vec::new();
    if ffprobe_duration_difference_workaround(chapters[0].start()) != 0 {
        events.push(ChapterEvent { start_time: 0, title: String::from_str("Chapter 00") });
    }
    let ghost lead = event_views(events@);
    let mut i: usize = 0;
    while i < chapters.len()
        invariant
            i <= chapters.len(),
            marks == chapter_views(chapters@),
            starts == marks.map_values(|m: ChapterView| event_of_mark(m)),
            event_views(events@) == lead + starts.take(i as int),
        decreases chapters.len() - i,
    {
        let chapter = &chapters[i];
        let title = match chapter.title() {
            Some(t) => String::from_str(t),
            None => String::from_str("Untitled"),
        };
        let event = ChapterEvent {
            start_time: ffprobe_duration_difference_workaround(chapter.start()),
            title,
        };
        events.push(event);
        assert(lead + starts.take(i + 1) =~= (lead + starts.take(i as int)).push(
            starts[i as int],
        ));
        i += 1;
    }
    let last = &chapters[chapters.len() - 1];
    Some(ChapterPlan { events, end_of_file: ffprobe_duration_difference_workaround(last.end()) })
}

} // verus!
