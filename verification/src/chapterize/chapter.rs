//! From headings to chapter starts.

use crate::chapterize::results_parser::{Outcome, ParseResult};
use crate::chapterize::token::TokenView;
use vstd::prelude::*;
use vstd::string::{StrSliceExecFns, StringExecFns};

verus! {

/// This margin, in milliseconds, is subtracted from the start of a heading:
/// the chapter is taken to start a little before its heading is spoken.
pub const PRE_CHAPTER_START_MARGIN: u64 = 1000;

/// Where a chapter starts and what it is called.
#[derive(Debug)]
pub struct ChapterEvent {
    /// Milliseconds into the recording.
    pub start_time: u64,
    /// The title of the chapter.
    pub title: String,
}

/// The mathematical value of a [`ChapterEvent`].
pub struct EventView {
    pub start_time: nat,
    pub title: Seq<char>,
}

impl View for ChapterEvent {
    type V = EventView;

    open spec fn view(&self) -> EventView {
        EventView { start_time: self.start_time as nat, title: self.title@ }
    }
}

/// The views of a sequence of events.
pub open spec fn event_views(events: Seq<ChapterEvent>) -> Seq<EventView> {
    events.map_values(|e: ChapterEvent| e@)
}

/// Whether `c` is a decimal digit.
pub open spec fn is_digit(c: char) -> bool {
    '0' <= c && c <= '9'
}

/// Whether the text is a whole number in digits.
pub open spec fn is_whole_number(text: Seq<char>) -> bool {
    text.len() > 0 && forall|i: int| 0 <= i < text.len() ==> is_digit(#[trigger] text[i])
}

/// The number of digits that the text starts with.
pub open spec fn leading_digits(text: Seq<char>) -> nat
    decreases text.len(),
{
    if text.len() > 0 && is_digit(text[0]) {
        1 + leading_digits(text.drop_first())
    } else {
        0
    }
}

/// The number of zeros that can go from the front of the digits without
/// changing the number or leaving nothing.
pub open spec fn leading_zeros(digits: Seq<char>) -> nat
    decreases digits.len(),
{
    if digits.len() > 1 && digits[0] == '0' {
        1 + leading_zeros(digits.drop_first())
    } else {
        0
    }
}

/// The number of zeros that the digits end with.
pub open spec fn trailing_zeros(digits: Seq<char>) -> nat
    decreases digits.len(),
{
    if digits.len() > 0 && digits.last() == '0' {
        1 + trailing_zeros(digits.drop_last())
    } else {
        0
    }
}

/// Whether the text is one of the endings that mark a number as an ordinal
/// or a fraction: as in 1st, 2nd, 3rd, 4th, 5ths and 3rds.
pub open spec fn is_ordinal_marker(text: Seq<char>) -> bool {
    text == "st"@ || text == "nd"@ || text == "rd"@ || text == "th"@ || text == "ths"@ || text
        == "rds"@
}

/// The digits without the zeros that a whole number does not need in front.
pub open spec fn plain_number(digits: Seq<char>) -> Seq<char> {
    digits.skip(leading_zeros(digits) as int)
}

/// A whole chapter number as a title shows it: the number that the digits
/// stand for, with at least two digits.
pub open spec fn chapter_number(digits: Seq<char>) -> Seq<char> {
    if plain_number(digits).len() < 2 {
        seq!['0'] + plain_number(digits)
    } else {
        plain_number(digits)
    }
}

/// The number that a text stands for as a title shows it; `None` where the
/// text is no number.
///
/// A number is written in digits, and may go on with a decimal point and
/// more digits, or with the marker of an ordinal. A whole number, the rank of
/// an ordinal, and a number with nothing but zeros behind the point are shown
/// with at least two digits. Any other number is shown with its point,
/// without zeros at its far end.
pub open spec fn shown_number(text: Seq<char>) -> Option<Seq<char>> {
    let whole = text.take(leading_digits(text) as int);
    let rest = text.skip(leading_digits(text) as int);
    if whole.len() == 0 {
        None
    } else if rest.len() == 0 || is_ordinal_marker(rest) {
        Some(chapter_number(whole))
    } else if rest[0] == '.' && is_whole_number(rest.skip(1)) {
        let behind = rest.skip(1).take(rest.len() - 1 - trailing_zeros(rest.skip(1)));
        if behind.len() == 0 {
            Some(chapter_number(whole))
        } else {
            Some(plain_number(whole) + seq!['.'] + behind)
        }
    } else {
        None
    }
}

/// The title of the chapter whose number is written as `number`; `None`
/// where `number` is no number.
pub open spec fn chapter_title_of(number: Seq<char>) -> Option<Seq<char>> {
    match shown_number(number) {
        Some(shown) => Some("Chapter "@ + shown),
        None => None,
    }
}

/// The title of the chapter at the very start of a recording.
pub open spec fn first_chapter_title() -> Seq<char> {
    "Chapter 00"@
}

/// The time one margin before `time`, or the start of the recording where
/// `time` is earlier than that.
pub open spec fn margin_before(time: nat) -> nat {
    if time >= PRE_CHAPTER_START_MARGIN {
        (time - PRE_CHAPTER_START_MARGIN) as nat
    } else {
        0
    }
}

/// Where the chapter of a heading starts: one margin before the keyword.
pub open spec fn chapter_start_of(keyword: TokenView) -> nat {
    margin_before(keyword.start)
}

/// The chapter start that a verdict stands for: a heading whose number token
/// holds a number gives one; anything else gives none.
pub open spec fn event_of(outcome: Outcome) -> Option<EventView> {
    match outcome {
        Outcome::Match(tokens) => {
            if tokens.len() >= 2 {
                match chapter_title_of(tokens[1].word) {
                    Some(title) => Some(
                        EventView { start_time: chapter_start_of(tokens[0]), title },
                    ),
                    None => None,
                }
            } else {
                None
            }
        },
        _ => None,
    }
}

/// The digits that a text starts with are digits, and what follows them is
/// none; so a text is a whole number where it is not empty and starts with as
/// many digits as it is long.
pub proof fn lemma_leading_digits(text: Seq<char>)
    ensures
        leading_digits(text) <= text.len(),
        forall|i: int| 0 <= i < leading_digits(text) ==> is_digit(#[trigger] text[i]),
        leading_digits(text) < text.len() ==> !is_digit(text[leading_digits(text) as int]),
        is_whole_number(text) <==> text.len() > 0 && leading_digits(text) == text.len(),
    decreases text.len(),
{
    if text.len() > 0 && is_digit(text[0]) {
        let rest = text.drop_first();
        lemma_leading_digits(rest);
        assert forall|i: int| 0 <= i < leading_digits(text) implies is_digit(
            #[trigger] text[i],
        ) by {
            if i > 0 {
                assert(text[i] == rest[i - 1]);
            }
        }
        if leading_digits(text) < text.len() {
            assert(text[leading_digits(text) as int] == rest[leading_digits(rest) as int]);
        }
        if is_whole_number(text) && rest.len() > 0 {
            assert forall|i: int| 0 <= i < rest.len() implies is_digit(#[trigger] rest[i]) by {
                assert(rest[i] == text[i + 1]);
            }
        }
    }
}

/// A whole number in digits is shown as the number it stands for, with at
/// least two digits.
pub proof fn lemma_whole_number_is_shown(text: Seq<char>)
    requires
        is_whole_number(text),
    ensures
        shown_number(text) == Some(chapter_number(text)),
        chapter_title_of(text) == Some("Chapter "@ + chapter_number(text)),
{
    lemma_leading_digits(text);
    assert(text.take(text.len() as int) =~= text);
}

/// The number of digits that `text` starts with at `from`.
fn count_digits(text: &str, from: usize) -> (n: usize)
    requires
        from <= text@.len(),
    ensures
        n == leading_digits(text@.skip(from as int)),
        from + n <= text@.len(),
{
    let len = text.unicode_len();
    let mut i: usize = from;
    while i < len && is_digit_char(text.get_char(i))
        invariant
            from <= i <= len,
            len == text@.len(),
            leading_digits(text@.skip(from as int)) == (i - from) + leading_digits(
                text@.skip(i as int),
            ),
        decreases len - i,
    {
        assert(text@.skip(i as int).drop_first() =~= text@.skip(i + 1));
        i += 1;
    }
    i - from
}

fn is_digit_char(c: char) -> (r: bool)
    ensures
        r == is_digit(c),
{
    '0' <= c && c <= '9'
}

/// The number of zeros that the first `n` characters of `text`, all of them
/// digits, can do without in front.
fn count_leading_zeros(text: &str, n: usize) -> (zeros: usize)
    requires
        0 < n <= text@.len(),
    ensures
        zeros == leading_zeros(text@.take(n as int)),
        zeros < n,
{
    let ghost digits = text@.take(n as int);
    let mut zeros: usize = 0;
    assert(digits.skip(0) =~= digits);
    while zeros + 1 < n && text.get_char(zeros) == '0'
        invariant
            zeros < n <= text@.len(),
            digits == text@.take(n as int),
            leading_zeros(digits) == zeros + leading_zeros(digits.skip(zeros as int)),
        decreases n - zeros,
    {
        assert(digits.skip(zeros as int).drop_first() =~= digits.skip(zeros + 1));
        zeros += 1;
    }
    assert(leading_zeros(digits.skip(zeros as int)) == 0);
    zeros
}

/// The number of zeros that `text` ends with, not counting what comes before
/// `from`.
fn count_trailing_zeros(text: &str, from: usize) -> (zeros: usize)
    requires
        from <= text@.len(),
    ensures
        zeros == trailing_zeros(text@.skip(from as int)),
        from + zeros <= text@.len(),
{
    let len = text.unicode_len();
    let ghost digits = text@.skip(from as int);
    let mut end: usize = len;
    assert(digits.take(digits.len() as int) =~= digits);
    while end > from && text.get_char(end - 1) == '0'
        invariant
            from <= end <= len,
            len == text@.len(),
            digits == text@.skip(from as int),
            trailing_zeros(digits) == (len - end) + trailing_zeros(digits.take(end - from)),
        decreases end,
    {
        assert(digits.take(end - from).drop_last() =~= digits.take(end - from - 1));
        end -= 1;
    }
    assert(trailing_zeros(digits.take(end - from)) == 0);
    len - end
}

fn is_marker(text: &str) -> (r: bool)
    ensures
        r == is_ordinal_marker(text@),
{
    let marker = String::from_str(text);
    marker == String::from_str("st") || marker == String::from_str("nd") || marker
        == String::from_str("rd") || marker == String::from_str("th") || marker
        == String::from_str("ths") || marker == String::from_str("rds")
}

/// The title for the chapter whose number is written as `number`: `Chapter`
/// and the number, a whole number with at least two digits. `None` where
/// `number` is no number.
///
/// A number is written in digits, and may go on with a decimal point and
/// more digits, or with the marker of an ordinal, which counts for its rank.
pub fn chapter_title(number: &str) -> (title: Option<String>)
    ensures
        match chapter_title_of(number@) {
            Some(text) => title matches Some(t) && t@ == text,
            None => title is None,
        },
{
    let len = number.unicode_len();
    assert(number@.skip(0) =~= number@);
    let n = count_digits(number, 0);
    if n == 0 {
        return None;
    }
    let ghost whole = number@.take(n as int);
    let ghost rest = number@.skip(n as int);
    let zeros = count_leading_zeros(number, n);
    let plain = number.substring_char(zeros, n);
    assert(plain@ =~= plain_number(whole));
    proof {
        reveal_strlit("0");
        reveal_strlit(".");
    }
    let mut title = String::from_str("Chapter ");
    if n < len && !is_marker(number.substring_char(n, len)) {
        assert(rest.len() > 0 && rest[0] == number@[n as int]);
        if number.get_char(n) != '.' {
            return None;
        }
        assert(rest.skip(1) =~= number@.skip(n + 1));
        if count_digits(number, n + 1) != len - (n + 1) || n + 1 == len {
            assert(!is_whole_number(rest.skip(1))) by {
                lemma_leading_digits(rest.skip(1));
            }
            return None;
        }
        assert(is_whole_number(rest.skip(1))) by {
            lemma_leading_digits(rest.skip(1));
        }
        let end = len - count_trailing_zeros(number, n + 1);
        if end > n + 1 {
            title.append(plain);
            title.append(".");
            title.append(number.substring_char(n + 1, end));
            assert(title@ =~= "Chapter "@ + (plain_number(whole) + seq!['.'] + rest.skip(1).take(
                rest.len() - 1 - trailing_zeros(rest.skip(1)),
            )));
            return Some(title);
        }
    } else {
        assert(number@.subrange(n as int, len as int) =~= rest);
    }
    if n - zeros < 2 {
        title.append("0");
    }
    title.append(plain);
    assert(title@ =~= "Chapter "@ + chapter_number(whole));
    Some(title)
}

/// The chapter start that a verdict stands for, if it stands for one.
pub fn chapter_event(result: &ParseResult) -> (event: Option<ChapterEvent>)
    ensures
        match event_of(result@) {
            Some(e) => event matches Some(found) && found@ == e,
            None => event is None,
        },
{
    match result {
        ParseResult::Match(tokens) => {
            if tokens.len() < 2 {
                return None;
            }
            match chapter_title(tokens[1].word.as_str()) {
                Some(title) => Some(
                    ChapterEvent {
                        start_time: if tokens[0].start >= PRE_CHAPTER_START_MARGIN {
                            tokens[0].start - PRE_CHAPTER_START_MARGIN
                        } else {
                            0
                        },
                        title,
                    },
                ),
                None => None,
            }
        },
        _ => None,
    }
}

/// The chapter that every recording starts with.
pub open spec fn first_chapter() -> EventView {
    EventView { start_time: 0, title: first_chapter_title() }
}

/// The chapter starts that a verdict adds to the list of chapters, where
/// `started` says whether the list has a chapter already. A list always
/// starts at the start of the recording: where its first heading comes later
/// than that, the chapter before the heading is put in first.
pub open spec fn events_of(started: bool, outcome: Outcome) -> Seq<EventView> {
    match event_of(outcome) {
        Some(e) => if !started && e.start_time > 0 {
            seq![first_chapter(), e]
        } else {
            seq![e]
        },
        None => Seq::empty(),
    }
}

/// The chapter starts that the end of the input adds: the one chapter that
/// every recording has, where no other was found.
pub open spec fn events_at_end(started: bool) -> Seq<EventView> {
    if started {
        Seq::empty()
    } else {
        seq![first_chapter()]
    }
}

/// Turns verdicts into the list of chapter starts, one verdict at a time.
pub struct ChapterFeed {
    started: bool,
}

impl View for ChapterFeed {
    type V = bool;

    /// Whether a chapter start has been handed out.
    closed spec fn view(&self) -> bool {
        self.started
    }
}

impl ChapterFeed {
    /// A feed that has handed out nothing.
    pub fn new() -> (feed: Self)
        ensures
            !feed@,
    {
        ChapterFeed { started: false }
    }

    /// The chapter starts that `result` adds to the list, in order.
    pub fn on_result(&mut self, result: &ParseResult) -> (events: Vec<ChapterEvent>)
        ensures
            event_views(events@) == events_of(old(self)@, result@),
            final(self)@ == (old(self)@ || events@.len() > 0),
            !old(self)@ && events@.len() > 0 ==> events@[0]@.start_time == 0,
    {
        let mut events: Vec<ChapterEvent> = Vec::new();
        match chapter_event(result) {
            Some(event) => {
                if !self.started && event.start_time > 0 {
                    let first = ChapterEvent {
                        start_time: 0,
                        title: String::from_str("Chapter 00"),
                    };
                    events.push(first);
                }
                events.push(event);
                self.started = true;
            },
            None => {},
        }
        events
    }

    /// The chapter starts that the end of the input adds to the list.
    pub fn finish(self) -> (events: Vec<ChapterEvent>)
        ensures
            event_views(events@) == events_at_end(self@),
    {
        let mut events: Vec<ChapterEvent> = Vec::new();
        if !self.started {
            let first = ChapterEvent { start_time: 0, title: String::from_str("Chapter 00") };
            events.push(first);
        }
        events
    }
}

} // verus!
