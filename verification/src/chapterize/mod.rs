//! Turning recognition results into chapter boundaries.
//!
//! [`Chapterizer`] is the whole of it: it takes the recognition results of a
//! recording in order and hands out the chapter starts it finds. The parts it
//! is made of can be used on their own.

pub mod alternatives;
pub mod chapter;
pub mod matches;
pub mod numbers;
pub mod results_parser;
pub mod token;

use crate::chapterize::alternatives::{best_index, is_best, AlternativeView, RecognitionResult};
use crate::chapterize::chapter::{
    chapter_number, chapter_start_of, event_of, event_views, events_at_end, events_of,
    first_chapter, is_whole_number, leading_zeros, lemma_whole_number_is_shown, margin_before,
    ChapterEvent, ChapterFeed, EventView,
};
use crate::chapterize::numbers::{
    found_numbers, has_replacement, lemma_one_phrase_after_first, normalized, SpanView,
    MAX_RECOGNISED_TOKENS,
};
use crate::chapterize::results_parser::{
    heading_starts, lemma_heading_at_end_matches, lemma_headings_come_in_order, lemma_idle_run,
    lemma_number_phrase_is_collected, lemma_run_splits, non_decreasing, opens_heading,
    option_view, outcome_views, parser_wf, pause_gate_open, ran, resolved, starts_in_order,
    token_before, Outcome, ParserView, ResultsParser,
};
use crate::chapterize::token::{raw_tokens, Token, TokenView};
use vstd::prelude::*;

verus! {

/// The number of samples handed to the recogniser at a time.
pub const SAMPLES_BUFFER_SIZE: usize = 8192;

/// The number of tokens that are looked at after the keyword and the number.
/// 30 tokens should be plenty to capture the chapter number followed by most
/// chapter titles.
pub const POST_CHAPTER_CONTEXT: usize = 30;

/// The mathematical value of a [`Chapterizer`].
pub struct ChapterizerView {
    /// The parser for headings.
    pub parser: ParserView,
    /// The last token of the transcript so far.
    pub last_token: Option<TokenView>,
    /// Whether a chapter start has been handed out.
    pub started: bool,
}

/// The chapter starts that a run of verdicts adds to the list of chapters,
/// and whether the list has a chapter afterwards, where `started` says
/// whether it had one before.
pub open spec fn fed(started: bool, outcomes: Seq<Outcome>) -> (bool, Seq<EventView>)
    decreases outcomes.len(),
{
    if outcomes.len() == 0 {
        (started, Seq::empty())
    } else {
        let before = fed(started, outcomes.drop_last());
        let more = events_of(before.0, outcomes.last());
        (before.0 || more.len() > 0, before.1 + more)
    }
}

/// The words that are taken from a recognition result: those of its best
/// alternative.
pub open spec fn chosen_tokens(multi: Seq<AlternativeView>) -> Seq<TokenView> {
    raw_tokens(multi[best_index(multi)].result)
}

/// The chapterizer after a recognition result.
pub open spec fn ingested(state: ChapterizerView, multi: Seq<AlternativeView>) -> ChapterizerView {
    let tokens = chosen_tokens(multi);
    let run = ran(state.parser, state.last_token, tokens);
    ChapterizerView {
        parser: run.0,
        last_token: token_before(state.last_token, tokens, tokens.len() as int),
        started: fed(state.started, run.1).0,
    }
}

/// The chapter starts that a recognition result brings.
pub open spec fn events_ingested(state: ChapterizerView, multi: Seq<AlternativeView>) -> Seq<
    EventView,
> {
    fed(state.started, ran(state.parser, state.last_token, chosen_tokens(multi)).1).1
}

/// The chapter starts that the end of the input brings: what the last verdict
/// on the tokens still collected gives, and the chapter that every recording
/// starts with where no other was found at all.
pub open spec fn events_finished(state: ChapterizerView) -> Seq<EventView> {
    let last = events_of(
        state.started,
        resolved(state.parser.buffer, state.parser.preceding, true),
    );
    last + events_at_end(state.started || last.len() > 0)
}

/// The times at which the chapters start.
pub open spec fn event_times(events: Seq<EventView>) -> Seq<nat> {
    events.map_values(|e: EventView| e.start_time)
}

/// Verdicts can be taken in pieces: a run of verdicts adds the same chapter
/// starts as a run of its first part and then a run of the rest.
pub proof fn lemma_fed_splits(started: bool, first: Seq<Outcome>, second: Seq<Outcome>)
    ensures
        fed(started, first + second) == ({
            let head = fed(started, first);
            let tail = fed(head.0, second);
            (tail.0, head.1 + tail.1)
        }),
    decreases second.len(),
{
    let head = fed(started, first);
    if second.len() == 0 {
        assert(first + second =~= first);
        assert(head.1 + Seq::<EventView>::empty() =~= head.1);
    } else {
        assert((first + second).drop_last() =~= first + second.drop_last());
        lemma_fed_splits(started, first, second.drop_last());
        let tail = fed(head.0, second.drop_last());
        let more = events_of(tail.0, second.last());
        assert((head.1 + tail.1) + more =~= head.1 + (tail.1 + more));
    }
}

/// Where no heading among the verdicts starts before one that comes before
/// it, no chapter in the list starts before one that comes before it; and no
/// chapter starts later than one margin before the last heading.
pub proof fn lemma_fed_in_order(started: bool, outcomes: Seq<Outcome>)
    requires
        non_decreasing(heading_starts(outcomes)),
    ensures
        non_decreasing(event_times(fed(started, outcomes).1)),
        fed(started, outcomes).0 == (started || fed(started, outcomes).1.len() > 0),
        forall|k: int|
            0 <= k < fed(started, outcomes).1.len() ==> {
                &&& heading_starts(outcomes).len() > 0
                &&& (#[trigger] fed(started, outcomes).1[k]).start_time <= margin_before(
                    heading_starts(outcomes).last(),
                )
            },
    decreases outcomes.len(),
{
    if outcomes.len() > 0 {
        let earlier = outcomes.drop_last();
        let starts = heading_starts(earlier);
        let grown = heading_starts(outcomes);
        assert(starts.len() <= grown.len() && forall|i: int|
            0 <= i < starts.len() ==> starts[i] == grown[i]);
        lemma_fed_in_order(started, earlier);
        let before = fed(started, earlier);
        let more = events_of(before.0, outcomes.last());
        let after = fed(started, outcomes);
        assert(after.1 == before.1 + more);
        assert(more.len() > 0 ==> grown.len() == starts.len() + 1 && more.last().start_time
            == margin_before(grown.last()) && (more.len() == 1 || (more.len() == 2
            && more[0].start_time == 0 && before.1.len() == 0)));
        assert(starts.len() > 0 ==> starts.last() <= grown.last()) by {
            if starts.len() > 0 {
                assert(grown[starts.len() - 1] <= grown[grown.len() - 1]);
            }
        }
        assert forall|k: int| 0 <= k < after.1.len() implies (#[trigger] after.1[k]).start_time
            <= margin_before(grown.last()) by {
            if k < before.1.len() {
                assert(before.1[k].start_time <= margin_before(starts.last()));
            }
        }
        assert forall|i: int, j: int| 0 <= i <= j < after.1.len() implies event_times(after.1)[i]
            <= event_times(after.1)[j] by {
            if j < before.1.len() {
                assert(event_times(before.1)[i] <= event_times(before.1)[j]);
            } else if i < before.1.len() {
                assert(before.1[i].start_time <= margin_before(starts.last()));
            }
        }
    }
}

/// The chapters of a transcript are handed out in the order in which they
/// start: where no token starts before the one before it, no chapter start
/// that is handed out, while the tokens come in or at the end of the input,
/// is earlier than one handed out before.
pub proof fn lemma_chapters_come_in_order(
    state: ParserView,
    prev: Option<TokenView>,
    tokens: Seq<TokenView>,
    started: bool,
)
    requires
        parser_wf(state),
        starts_in_order(state.buffer + tokens),
    ensures
        ({
            let run = ran(state, prev, tokens);
            let reports = run.1.push(resolved(run.0.buffer, run.0.preceding, true));
            let list = fed(started, reports);
            non_decreasing(event_times(list.1 + events_at_end(list.0)))
        }),
{
    let run = ran(state, prev, tokens);
    let reports = run.1.push(resolved(run.0.buffer, run.0.preceding, true));
    lemma_headings_come_in_order(state, prev, tokens);
    lemma_fed_in_order(started, reports);
}

/// The number token for the words after the first of `tokens`, all taken as
/// one number with these digits.
pub open spec fn number_after_first(tokens: Seq<TokenView>, digits: Seq<char>) -> TokenView {
    TokenView {
        start: tokens[1].start,
        end: tokens[tokens.len() - 1].end,
        word: digits,
        is_replacement: true,
    }
}

/// A spoken heading at the end of the input gives its chapter.
///
/// The tokens are a keyword that comes after enough silence and the words of
/// one number: at each point from the first of these words on, the recogniser
/// takes all the words so far for one number phrase, with the digits
/// `digits[m]` when it has seen `m` tokens. Then nothing is reported while the
/// tokens come in, and at the end of the input exactly one heading is
/// reported: the keyword and the number with the digits of the whole phrase.
/// Where these digits are a whole number, the chapter starts one margin
/// before the keyword and is called by that number.
pub proof fn lemma_spoken_heading_gives_chapter(
    state: ParserView,
    prev: Option<TokenView>,
    tokens: Seq<TokenView>,
    digits: Seq<Seq<char>>,
)
    requires
        parser_wf(state),
        state.buffer.len() == 0,
        2 <= tokens.len() < state.capacity,
        tokens.len() <= MAX_RECOGNISED_TOKENS,
        opens_heading(tokens[0]),
        pause_gate_open(prev, tokens[0]),
        !has_replacement(tokens),
        digits.len() == tokens.len() + 1,
        forall|m: int|
            2 <= m <= tokens.len() ==> #[trigger] found_numbers(tokens.take(m)) == seq![
                SpanView { start: 1, end: m as nat, text: digits[m] },
            ],
    ensures
        ran(state, prev, tokens).0 == (ParserView {
            buffer: tokens,
            preceding: prev,
            capacity: state.capacity,
        }),
        ran(state, prev, tokens).1 == Seq::<Outcome>::empty(),
        resolved(tokens, prev, true) == Outcome::Match(
            seq![tokens[0], number_after_first(tokens, digits[tokens.len() as int])],
        ),
        is_whole_number(digits[tokens.len() as int]) ==> event_of(resolved(tokens, prev, true))
            == Some(
            EventView {
                start_time: chapter_start_of(tokens[0]),
                title: "Chapter "@ + chapter_number(digits[tokens.len() as int]),
            },
        ),
{
    assert forall|m: int| 2 <= m <= tokens.len() implies {
        let folded = #[trigger] normalized(tokens.take(m));
        folded.len() == 2 && opens_heading(folded[0]) && folded[1].is_replacement
    } by {
        let stretch = tokens.take(m);
        assert(!has_replacement(stretch)) by {
            if has_replacement(stretch) {
                let i = choose|i: int| 0 <= i < stretch.len() && stretch[i].is_replacement;
                assert(tokens[i].is_replacement);
            }
        }
        lemma_one_phrase_after_first(stretch, digits[m]);
    }
    lemma_heading_at_end_matches(state, prev, tokens);
    lemma_number_phrase_is_collected(state, prev, tokens, tokens.len() as int);
    assert(tokens.take(tokens.len() as int) =~= tokens);
    lemma_one_phrase_after_first(tokens, digits[tokens.len() as int]);
    if is_whole_number(digits[tokens.len() as int]) {
        lemma_whole_number_is_shown(digits[tokens.len() as int]);
    }
}

/// A recording that ends with its only heading has that chapter, and before
/// it the chapter that every recording starts with where the heading comes
/// later than the start.
///
/// The words taken from the recognition result are words that cannot open a
/// heading, and then a heading as in [`lemma_spoken_heading_gives_chapter`]:
/// a keyword after enough silence and the words of one whole number, of
/// which the recogniser makes the digits `digits[m]` when it has seen `m`
/// tokens of the heading. Then the result brings no chapter start, and the end
/// of the input brings the chapter of the heading, one margin before the
/// keyword, called by the number.
pub proof fn lemma_heading_closes_the_transcript(
    state: ChapterizerView,
    multi: Seq<AlternativeView>,
    before: Seq<TokenView>,
    heading: Seq<TokenView>,
    digits: Seq<Seq<char>>,
)
    requires
        parser_wf(state.parser),
        state.parser.buffer.len() == 0,
        !state.started,
        chosen_tokens(multi) == before + heading,
        forall|i: int| 0 <= i < before.len() ==> !opens_heading(#[trigger] before[i]),
        2 <= heading.len() < state.parser.capacity,
        heading.len() <= MAX_RECOGNISED_TOKENS,
        opens_heading(heading[0]),
        pause_gate_open(token_before(state.last_token, before, before.len() as int), heading[0]),
        !has_replacement(heading),
        digits.len() == heading.len() + 1,
        forall|m: int|
            2 <= m <= heading.len() ==> #[trigger] found_numbers(heading.take(m)) == seq![
                SpanView { start: 1, end: m as nat, text: digits[m] },
            ],
        is_whole_number(digits[heading.len() as int]),
    ensures
        events_ingested(state, multi) == Seq::<EventView>::empty(),
        events_finished(ingested(state, multi)) == ({
            let chapter = EventView {
                start_time: margin_before(heading[0].start),
                title: "Chapter "@ + chapter_number(digits[heading.len() as int]),
            };
            if chapter.start_time > 0 {
                seq![first_chapter(), chapter]
            } else {
                seq![chapter]
            }
        }),
{
    let between = token_before(state.last_token, before, before.len() as int);
    lemma_idle_run(state.parser, state.last_token, before);
    lemma_run_splits(state.parser, state.last_token, before, heading);
    lemma_spoken_heading_gives_chapter(state.parser, between, heading, digits);
    let run = ran(state.parser, state.last_token, before + heading);
    assert(run.1 =~= Seq::<Outcome>::empty());
    assert(run.0 == (ParserView {
        buffer: heading,
        preceding: between,
        capacity: state.parser.capacity,
    }));
    let chapter = EventView {
        start_time: margin_before(heading[0].start),
        title: "Chapter "@ + chapter_number(digits[heading.len() as int]),
    };
    let last = events_of(false, resolved(heading, between, true));
    assert(event_of(resolved(heading, between, true)) == Some(chapter));
    assert(last.len() > 0);
    assert(last + events_at_end(true) =~= last);
}

/// [`lemma_heading_closes_the_transcript`] at work. The words are "the end",
/// a pause of three tenths of a second, and "chapter two"; of "chapter two"
/// the recogniser makes the digit 2. Then the recording has exactly one
/// chapter: it is called Chapter 02 and starts at the start of the recording,
/// which is where the margin before the keyword ends up.
pub proof fn example_heading_after_a_pause(multi: Seq<AlternativeView>)
    requires
        chosen_tokens(multi) == seq![
            TokenView { start: 0, end: 200, word: "the"@, is_replacement: false },
            TokenView { start: 200, end: 500, word: "end"@, is_replacement: false },
            TokenView { start: 800, end: 1200, word: "chapter"@, is_replacement: false },
            TokenView { start: 1200, end: 1500, word: "two"@, is_replacement: false },
        ],
        found_numbers(
            seq![
                TokenView { start: 800, end: 1200, word: "chapter"@, is_replacement: false },
                TokenView { start: 1200, end: 1500, word: "two"@, is_replacement: false },
            ],
        ) == seq![SpanView { start: 1, end: 2, text: "2"@ }],
    ensures
        ({
            let state = ChapterizerView {
                parser: ParserView {
                    buffer: Seq::empty(),
                    preceding: None,
                    capacity: (POST_CHAPTER_CONTEXT + 2) as nat,
                },
                last_token: None,
                started: false,
            };
            &&& events_ingested(state, multi) == Seq::<EventView>::empty()
            &&& events_finished(ingested(state, multi)) == seq![
                EventView { start_time: 0, title: "Chapter 02"@ },
            ]
        }),
{
    let state = ChapterizerView {
        parser: ParserView {
            buffer: Seq::empty(),
            preceding: None,
            capacity: (POST_CHAPTER_CONTEXT + 2) as nat,
        },
        last_token: None,
        started: false,
    };
    let before = seq![
        TokenView { start: 0, end: 200, word: "the"@, is_replacement: false },
        TokenView { start: 200, end: 500, word: "end"@, is_replacement: false },
    ];
    let heading = seq![
        TokenView { start: 800, end: 1200, word: "chapter"@, is_replacement: false },
        TokenView { start: 1200, end: 1500, word: "two"@, is_replacement: false },
    ];
    let digits = seq![Seq::<char>::empty(), Seq::<char>::empty(), "2"@];
    reveal_strlit("the");
    reveal_strlit("end");
    reveal_strlit("chapter");
    reveal_strlit("chapters");
    reveal_strlit("2");
    reveal_strlit("Chapter ");
    reveal_strlit("Chapter 02");
    assert(chosen_tokens(multi) =~= before + heading);
    assert(heading.take(2) =~= heading);
    assert("the"@.len() == 3 && "end"@.len() == 3);
    lemma_heading_closes_the_transcript(state, multi, before, heading, digits);
    assert(leading_zeros("2"@) == 0);
    assert("2"@.skip(0) =~= "2"@);
    assert("Chapter "@ + chapter_number("2"@) =~= "Chapter 02"@);
}

/// How the transcript is cut into recognition results makes no difference:
/// two results, one after the other, bring the chapter starts that the words
/// of both bring when they come in one run, and leave the chapterizer as
/// that run leaves it.
pub proof fn lemma_results_add_up(
    state: ChapterizerView,
    first: Seq<AlternativeView>,
    second: Seq<AlternativeView>,
)
    ensures
        ({
            let tokens = chosen_tokens(first) + chosen_tokens(second);
            let run = ran(state.parser, state.last_token, tokens);
            let list = fed(state.started, run.1);
            let between = ingested(state, first);
            &&& events_ingested(state, first) + events_ingested(between, second) == list.1
            &&& ingested(between, second) == (ChapterizerView {
                parser: run.0,
                last_token: token_before(state.last_token, tokens, tokens.len() as int),
                started: list.0,
            })
        }),
{
    let head = chosen_tokens(first);
    let tail = chosen_tokens(second);
    let run = ran(state.parser, state.last_token, head);
    lemma_run_splits(state.parser, state.last_token, head, tail);
    lemma_fed_splits(
        state.started,
        run.1,
        ran(run.0, token_before(state.last_token, head, head.len() as int), tail).1,
    );
}

/// Finds the chapter starts in the recognition results of a recording.
pub struct Chapterizer {
    parser: ResultsParser,
    last_token: Option<Token>,
    feed: ChapterFeed,
}

impl View for Chapterizer {
    type V = ChapterizerView;

    closed spec fn view(&self) -> ChapterizerView {
        ChapterizerView {
            parser: self.parser@,
            last_token: option_view(self.last_token),
            started: self.feed@,
        }
    }
}

impl Chapterizer {
    /// A chapterizer at the start of a recording, which looks at
    /// `post_match_context` tokens after the keyword and the number.
    pub fn new(post_match_context: usize) -> (chapterizer: Self)
        requires
            post_match_context + 2 <= usize::MAX,
        ensures
            chapterizer@ == (ChapterizerView {
                parser: ParserView {
                    buffer: Seq::empty(),
                    preceding: None,
                    capacity: (post_match_context + 2) as nat,
                },
                last_token: None,
                started: false,
            }),
    {
        Chapterizer {
            parser: ResultsParser::new(post_match_context),
            last_token: None,
            feed: ChapterFeed::new(),
        }
    }

    /// Takes the next recognition result of the recording and returns the
    /// chapter starts that it brings, in order.
    pub fn ingest(&mut self, multi: &RecognitionResult) -> (events: Vec<ChapterEvent>)
        requires
            multi@.len() > 0,
        ensures
            is_best(multi@, best_index(multi@)),
            final(self)@ == ingested(old(self)@, multi@),
            event_views(events@) == events_ingested(old(self)@, multi@),
            parser_wf(final(self)@.parser),
    {
        let ghost started = self.feed@;
        let reports = self.parser.ingest_results(&mut self.last_token, multi);
        let ghost outcomes = outcome_views(reports@);
        let ghost parser = self.parser@;
        let ghost last_token = option_view(self.last_token);
        let mut events: Vec<ChapterEvent> = Vec::new();
        let mut i: usize = 0;
        while i < reports.len()
            invariant
                i <= reports.len(),
                outcomes == outcome_views(reports@),
                (self.feed@, event_views(events@)) == fed(started, outcomes.take(i as int)),
                self.parser@ == parser,
                option_view(self.last_token) == last_token,
            decreases reports.len() - i,
        {
            let mut more = self.feed.on_result(&reports[i]);
            events.append(&mut more);
            proof {
                assert(outcomes.take(i + 1).drop_last() =~= outcomes.take(i as int));
            }
            i += 1;
        }
        assert(outcomes.take(reports.len() as int) =~= outcomes);
        events
    }

    /// Ends the recording and returns the chapter starts that are still due.
    pub fn finish(self) -> (events: Vec<ChapterEvent>)
        ensures
            event_views(events@) == events_finished(self@),
    {
        let mut feed = self.feed;
        let last = self.parser.flush();
        let mut events = feed.on_result(&last);
        let mut rest = feed.finish();
        events.append(&mut rest);
        events
    }
}

} // verus!
