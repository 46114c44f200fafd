//! The online parser that recognises spoken chapter headings.
//!
//! Tokens arrive one at a time. Nothing is kept until a chapter keyword shows
//! up; from then on tokens are collected in a bounded buffer, and after each
//! new token the parser tries to settle whether the buffer holds a heading
//! ("chapter" and a number), holds none, or cannot be judged yet.

use crate::chapterize::alternatives::{best_index, get_best_alt, is_best, RecognitionResult};
use crate::chapterize::numbers::{
    lemma_normalized_keeps_raw_head, lemma_views_push, normalized, rewrite_numbers,
};
use crate::chapterize::token::{
    is_chapter_word, pause_between, raw_tokens, token_views, word_views, Token, TokenView,
};
use vstd::prelude::*;

verus! {

/// A chapter keyword counts only if at least this many milliseconds of silence
/// part it from the word before.
pub const MIN_VOCAL_PAUSE_BEFORE_CHAPTER: u64 = 250;

/// What an attempt to settle the buffer came to.
#[derive(Debug)]
pub enum ParseResult {
    /// A heading: the keyword token and the number token, in this order.
    Match(Vec<Token>),
    /// More input is needed.
    Incomplete,
    /// No heading here.
    Failure,
}

/// The mathematical value of a [`ParseResult`].
pub enum Outcome {
    Match(Seq<TokenView>),
    Incomplete,
    Failure,
}

impl View for ParseResult {
    type V = Outcome;

    open spec fn view(&self) -> Outcome {
        match self {
            ParseResult::Match(tokens) => Outcome::Match(token_views(tokens@)),
            ParseResult::Incomplete => Outcome::Incomplete,
            ParseResult::Failure => Outcome::Failure,
        }
    }
}

/// The views of a sequence of results.
pub open spec fn outcome_views(results: Seq<ParseResult>) -> Seq<Outcome> {
    results.map_values(|r: ParseResult| r@)
}

/// The mathematical value of a [`ResultsParser`].
pub struct ParserView {
    /// The tokens collected since the keyword, the keyword first.
    pub buffer: Seq<TokenView>,
    /// The token heard just before the keyword, if there was one. `None`
    /// while the buffer is empty.
    pub preceding: Option<TokenView>,
    /// The number of tokens the buffer must never reach.
    pub capacity: nat,
}

/// Whether a token can open a heading: it reads "chapter" or "chapters", and
/// was heard, not made from a number.
pub open spec fn opens_heading(token: TokenView) -> bool {
    is_chapter_word(token.word) && !token.is_replacement
}

/// Whether the keyword comes after enough silence. With nothing before it,
/// it does.
pub open spec fn pause_gate_open(preceding: Option<TokenView>, keyword: TokenView) -> bool {
    match preceding {
        Some(p) => pause_between(p, keyword) >= MIN_VOCAL_PAUSE_BEFORE_CHAPTER,
        None => true,
    }
}

/// The verdict on a buffer once its numbers are folded. `tokens` is the buffer
/// in normal form.
///
/// A heading needs the keyword, still in first place, and a number token right
/// after it. While input may still come and nothing follows the number, the
/// number may yet grow: no verdict. A heading is cut down to keyword and
/// number.
pub open spec fn judged(tokens: Seq<TokenView>, is_end: bool) -> Outcome {
    if tokens.len() < 2 || !opens_heading(tokens[0]) || !tokens[1].is_replacement {
        Outcome::Failure
    } else if tokens.len() == 2 && !is_end {
        Outcome::Incomplete
    } else {
        Outcome::Match(tokens.take(2))
    }
}

/// The verdict on a buffer, given the token heard before its keyword.
pub open spec fn resolved(
    buffer: Seq<TokenView>,
    preceding: Option<TokenView>,
    is_end: bool,
) -> Outcome {
    if buffer.len() == 0 || !opens_heading(buffer[0]) {
        if is_end {
            Outcome::Failure
        } else {
            Outcome::Incomplete
        }
    } else if !pause_gate_open(preceding, buffer[0]) {
        Outcome::Failure
    } else if buffer.len() == 1 {
        if is_end {
            Outcome::Failure
        } else {
            Outcome::Incomplete
        }
    } else {
        judged(normalized(buffer), is_end)
    }
}

/// The parser with nothing collected.
pub open spec fn cleared(state: ParserView) -> ParserView {
    ParserView { buffer: Seq::empty(), preceding: None, capacity: state.capacity }
}

/// The parser after `token` is added to what it has collected, and what it
/// reports. A verdict of heading or no heading empties the buffer and is
/// reported. Without a verdict the token is kept, unless the buffer would then
/// be full: in that case the buffer is emptied and no heading is reported.
pub open spec fn pushed(state: ParserView, token: TokenView) -> (ParserView, Option<Outcome>) {
    let grown = state.buffer.push(token);
    match resolved(grown, state.preceding, false) {
        Outcome::Incomplete => {
            if grown.len() >= state.capacity {
                (cleared(state), Some(Outcome::Failure))
            } else {
                (
                    ParserView {
                        buffer: grown,
                        preceding: state.preceding,
                        capacity: state.capacity,
                    },
                    None,
                )
            }
        },
        verdict => (cleared(state), Some(verdict)),
    }
}

/// The parser after the next token of the transcript, and what it reports.
/// `prev` is the token that came just before `token` in the transcript.
///
/// With nothing collected, a token that cannot open a heading changes nothing.
/// One that can is collected, and `prev` is remembered for the pause gate.
/// With something collected, every token is collected.
pub open spec fn stepped(state: ParserView, prev: Option<TokenView>, token: TokenView) -> (
    ParserView,
    Option<Outcome>,
) {
    if state.buffer.len() == 0 {
        if opens_heading(token) {
            pushed(
                ParserView { buffer: Seq::empty(), preceding: prev, capacity: state.capacity },
                token,
            )
        } else {
            (state, None)
        }
    } else {
        pushed(state, token)
    }
}

/// The token that came just before the `i`-th of `tokens`, where `prev` came
/// just before the first.
pub open spec fn token_before(prev: Option<TokenView>, tokens: Seq<TokenView>, i: int) -> Option<
    TokenView,
> {
    if i <= 0 {
        prev
    } else {
        Some(tokens[i - 1])
    }
}

/// What a report adds to the reports made so far.
pub open spec fn with_report(reports: Seq<Outcome>, report: Option<Outcome>) -> Seq<Outcome> {
    match report {
        Some(r) => reports.push(r),
        None => reports,
    }
}

/// The parser after a run of tokens, and its reports in order. `prev` is the
/// token that came just before the first of them.
pub open spec fn ran(state: ParserView, prev: Option<TokenView>, tokens: Seq<TokenView>) -> (
    ParserView,
    Seq<Outcome>,
)
    decreases tokens.len(),
{
    if tokens.len() == 0 {
        (state, Seq::empty())
    } else {
        let before = ran(state, prev, tokens.drop_last());
        let step = stepped(before.0, token_before(prev, tokens, tokens.len() - 1), tokens.last());
        (step.0, with_report(before.1, step.1))
    }
}

/// What holds of every parser between two calls: the buffer stays below its
/// capacity, a buffer that is not empty starts with the keyword, and nothing
/// is remembered from before the keyword while the buffer is empty.
pub open spec fn parser_wf(state: ParserView) -> bool {
    &&& state.capacity >= 2
    &&& state.buffer.len() < state.capacity
    &&& state.buffer.len() > 0 ==> opens_heading(state.buffer[0])
    &&& state.buffer.len() == 0 ==> state.preceding is None
}

/// No step lets the buffer reach its capacity: a well-formed parser stays well
/// formed and keeps its capacity, and whenever something is reported, nothing
/// is collected any more.
pub proof fn lemma_step_keeps_wf(state: ParserView, prev: Option<TokenView>, token: TokenView)
    requires
        parser_wf(state),
    ensures
        parser_wf(stepped(state, prev, token).0),
        stepped(state, prev, token).0.capacity == state.capacity,
        stepped(state, prev, token).1 is Some ==> stepped(state, prev, token).0.buffer.len() == 0,
        stepped(state, prev, token).1 != Some(Outcome::Incomplete),
{
}

/// No run of tokens lets the buffer reach its capacity.
pub proof fn lemma_run_keeps_wf(state: ParserView, prev: Option<TokenView>, tokens: Seq<TokenView>)
    requires
        parser_wf(state),
    ensures
        parser_wf(ran(state, prev, tokens).0),
        ran(state, prev, tokens).0.capacity == state.capacity,
        forall|i: int|
            0 <= i < ran(state, prev, tokens).1.len() ==> #[trigger] ran(state, prev, tokens).1[i]
                != Outcome::Incomplete,
    decreases tokens.len(),
{
    if tokens.len() > 0 {
        lemma_run_keeps_wf(state, prev, tokens.drop_last());
    }
}

/// A token that would fill the buffer while the verdict is still open forces
/// the verdict. The parser reports that there is no heading and empties the
/// buffer.
pub proof fn lemma_full_buffer_forces_failure(
    state: ParserView,
    prev: Option<TokenView>,
    token: TokenView,
)
    requires
        parser_wf(state),
        state.buffer.len() > 0,
        state.buffer.len() + 1 == state.capacity,
        resolved(state.buffer.push(token), state.preceding, false) == Outcome::Incomplete,
    ensures
        stepped(state, prev, token) == (cleared(state), Some(Outcome::Failure)),
{
}

/// A keyword that follows the word before it too closely is no heading,
/// whatever comes after it and whether or not more input will come.
pub proof fn lemma_short_pause_fails(
    buffer: Seq<TokenView>,
    preceding: TokenView,
    is_end: bool,
)
    requires
        buffer.len() > 0,
        opens_heading(buffer[0]),
        pause_between(preceding, buffer[0]) < MIN_VOCAL_PAUSE_BEFORE_CHAPTER,
    ensures
        resolved(buffer, Some(preceding), is_end) == Outcome::Failure,
{
}

/// A keyword that follows the word before it too closely is reported as no
/// heading at once, and the tokens after it, up to the next keyword, bring no
/// further report: in particular no heading.
pub proof fn lemma_short_pause_never_matches(
    state: ParserView,
    preceding: TokenView,
    keyword: TokenView,
    rest: Seq<TokenView>,
)
    requires
        parser_wf(state),
        state.buffer.len() == 0,
        opens_heading(keyword),
        pause_between(preceding, keyword) < MIN_VOCAL_PAUSE_BEFORE_CHAPTER,
        forall|i: int| 0 <= i < rest.len() ==> !opens_heading(#[trigger] rest[i]),
    ensures
        ran(state, Some(preceding), seq![keyword] + rest) == (
            cleared(state),
            seq![Outcome::Failure],
        ),
    decreases rest.len(),
{
    let tokens = seq![keyword] + rest;
    let prev = Some(preceding);
    if rest.len() == 0 {
        assert(ran(state, prev, tokens.drop_last()) == (state, Seq::<Outcome>::empty()));
    } else {
        assert(tokens.drop_last() =~= seq![keyword] + rest.drop_last());
        lemma_short_pause_never_matches(state, preceding, keyword, rest.drop_last());
    }
}

/// Where folding the numbers leaves no number token right after the keyword,
/// the verdict is never a heading; and it is no heading as soon as anything
/// follows the keyword, or the input has ended.
pub proof fn lemma_no_number_no_match(
    buffer: Seq<TokenView>,
    preceding: Option<TokenView>,
    is_end: bool,
)
    requires
        normalized(buffer).len() < 2 || !normalized(buffer)[1].is_replacement,
    ensures
        !(resolved(buffer, preceding, is_end) is Match),
        buffer.len() > 0 && opens_heading(buffer[0]) && (buffer.len() >= 2 || is_end) ==> resolved(
            buffer,
            preceding,
            is_end,
        ) == Outcome::Failure,
{
}

/// A heading is reported only for a keyword that comes after enough silence
/// and has a number token right after it once the numbers are folded; and
/// what is reported is that keyword, as it was collected, and that number
/// token.
pub proof fn lemma_match_is_keyword_and_number(
    buffer: Seq<TokenView>,
    preceding: Option<TokenView>,
    is_end: bool,
)
    requires
        resolved(buffer, preceding, is_end) is Match,
    ensures
        buffer.len() >= 2,
        opens_heading(buffer[0]),
        pause_gate_open(preceding, buffer[0]),
        normalized(buffer).len() >= 2,
        normalized(buffer)[1].is_replacement,
        resolved(buffer, preceding, is_end) == Outcome::Match(
            seq![buffer[0], normalized(buffer)[1]],
        ),
{
    lemma_normalized_keeps_raw_head(buffer);
    assert(normalized(buffer).take(2) =~= seq![normalized(buffer)[0], normalized(buffer)[1]]);
}

/// While a keyword that comes after enough silence is followed by words that
/// fold into one number, nothing is reported and every token is collected.
pub proof fn lemma_number_phrase_is_collected(
    state: ParserView,
    prev: Option<TokenView>,
    tokens: Seq<TokenView>,
    n: int,
)
    requires
        parser_wf(state),
        state.buffer.len() == 0,
        1 <= n <= tokens.len(),
        tokens.len() < state.capacity,
        opens_heading(tokens[0]),
        pause_gate_open(prev, tokens[0]),
        forall|m: int|
            2 <= m <= tokens.len() ==> {
                let folded = #[trigger] normalized(tokens.take(m));
                folded.len() == 2 && opens_heading(folded[0]) && folded[1].is_replacement
            },
    ensures
        ran(state, prev, tokens.take(n)) == (
            ParserView { buffer: tokens.take(n), preceding: prev, capacity: state.capacity },
            Seq::<Outcome>::empty(),
        ),
    decreases n,
{
    let grown = tokens.take(n);
    if n == 1 {
        assert(ran(state, prev, grown.drop_last()) == (state, Seq::<Outcome>::empty()));
        assert(Seq::<TokenView>::empty().push(tokens[0]) =~= grown);
    } else {
        assert(grown.drop_last() =~= tokens.take(n - 1));
        lemma_number_phrase_is_collected(state, prev, tokens, n - 1);
        assert(tokens.take(n - 1).push(tokens[n - 1]) =~= grown);
        assert(normalized(grown).len() == 2);
    }
}

/// A keyword that comes after enough silence, followed by words that fold into
/// one number and then by the end of the input, gives exactly one report, at
/// the end: a heading made of the keyword and that number.
pub proof fn lemma_heading_at_end_matches(
    state: ParserView,
    prev: Option<TokenView>,
    tokens: Seq<TokenView>,
)
    requires
        parser_wf(state),
        state.buffer.len() == 0,
        2 <= tokens.len() < state.capacity,
        opens_heading(tokens[0]),
        pause_gate_open(prev, tokens[0]),
        forall|m: int|
            2 <= m <= tokens.len() ==> {
                let folded = #[trigger] normalized(tokens.take(m));
                folded.len() == 2 && opens_heading(folded[0]) && folded[1].is_replacement
            },
    ensures
        ran(state, prev, tokens).1 == Seq::<Outcome>::empty(),
        resolved(ran(state, prev, tokens).0.buffer, ran(state, prev, tokens).0.preceding, true)
            == Outcome::Match(normalized(tokens)),
        normalized(tokens).len() == 2,
        opens_heading(normalized(tokens)[0]),
        normalized(tokens)[1].is_replacement,
{
    lemma_number_phrase_is_collected(state, prev, tokens, tokens.len() as int);
    assert(tokens.take(tokens.len() as int) =~= tokens);
    assert(normalized(tokens).take(2) =~= normalized(tokens));
}

/// Tokens that cannot open a heading pass a parser that has collected
/// nothing: they leave it as it is, and nothing is reported.
pub proof fn lemma_idle_run(state: ParserView, prev: Option<TokenView>, tokens: Seq<TokenView>)
    requires
        state.buffer.len() == 0,
        forall|i: int| 0 <= i < tokens.len() ==> !opens_heading(#[trigger] tokens[i]),
    ensures
        ran(state, prev, tokens) == (state, Seq::<Outcome>::empty()),
    decreases tokens.len(),
{
    if tokens.len() > 0 {
        let earlier = tokens.drop_last();
        assert forall|i: int| 0 <= i < earlier.len() implies !opens_heading(
            #[trigger] earlier[i],
        ) by {
            assert(earlier[i] == tokens[i]);
        }
        lemma_idle_run(state, prev, earlier);
        assert(!opens_heading(tokens[tokens.len() - 1]));
    }
}

/// A transcript can be taken in pieces: a run of tokens comes to the same as
/// a run of its first part and then, from where that leaves the parser, a run
/// of the rest.
pub proof fn lemma_run_splits(
    state: ParserView,
    prev: Option<TokenView>,
    first: Seq<TokenView>,
    second: Seq<TokenView>,
)
    ensures
        ran(state, prev, first + second) == ({
            let head = ran(state, prev, first);
            let tail = ran(head.0, token_before(prev, first, first.len() as int), second);
            (tail.0, head.1 + tail.1)
        }),
    decreases second.len(),
{
    let head = ran(state, prev, first);
    let between = token_before(prev, first, first.len() as int);
    if second.len() == 0 {
        assert(first + second =~= first);
        assert(head.1 + Seq::<Outcome>::empty() =~= head.1);
    } else {
        let whole = first + second;
        assert(whole.drop_last() =~= first + second.drop_last());
        lemma_run_splits(state, prev, first, second.drop_last());
        let tail = ran(head.0, between, second.drop_last());
        assert(token_before(prev, whole, whole.len() - 1) == token_before(
            between,
            second,
            second.len() - 1,
        ));
        let step = stepped(tail.0, token_before(between, second, second.len() - 1), second.last());
        assert(with_report(head.1 + tail.1, step.1) =~= head.1 + with_report(tail.1, step.1));
    }
}

/// Whether no token starts before the one that comes before it.
pub open spec fn starts_in_order(tokens: Seq<TokenView>) -> bool {
    forall|i: int, j: int|
        0 <= i <= j < tokens.len() ==> (#[trigger] tokens[i]).start <= (#[trigger] tokens[j]).start
}

/// Whether no number is less than one that comes before it.
pub open spec fn non_decreasing(times: Seq<nat>) -> bool {
    forall|i: int, j: int| 0 <= i <= j < times.len() ==> times[i] <= times[j]
}

/// Where the keyword of each heading among the reports starts, in the order
/// of the reports.
pub open spec fn heading_starts(reports: Seq<Outcome>) -> Seq<nat>
    decreases reports.len(),
{
    if reports.len() == 0 {
        Seq::empty()
    } else {
        let before = heading_starts(reports.drop_last());
        match reports.last() {
            Outcome::Match(tokens) => if tokens.len() > 0 {
                before.push(tokens[0].start)
            } else {
                before
            },
            _ => before,
        }
    }
}

/// Whether `part` is the end of `whole`.
pub open spec fn is_end_of(part: Seq<TokenView>, whole: Seq<TokenView>) -> bool {
    part.len() <= whole.len() && part == whole.skip(whole.len() - part.len())
}

/// What is collected is always the end of what has come in, and no heading
/// that has been reported starts later than what is collected, or than the
/// last token that has come in.
pub proof fn lemma_run_in_order(state: ParserView, prev: Option<TokenView>, tokens: Seq<TokenView>)
    requires
        parser_wf(state),
        starts_in_order(state.buffer + tokens),
    ensures
        is_end_of(ran(state, prev, tokens).0.buffer, state.buffer + tokens),
        non_decreasing(heading_starts(ran(state, prev, tokens).1)),
        forall|k: int|
            0 <= k < heading_starts(ran(state, prev, tokens).1).len() ==> {
                let start = #[trigger] heading_starts(ran(state, prev, tokens).1)[k];
                &&& tokens.len() > 0
                &&& start <= tokens.last().start
                &&& ran(state, prev, tokens).0.buffer.len() > 0 ==> start <= ran(
                    state,
                    prev,
                    tokens,
                ).0.buffer[0].start
            },
    decreases tokens.len(),
{
    let all = state.buffer + tokens;
    if tokens.len() == 0 {
        assert(all =~= state.buffer);
        assert(state.buffer.skip(0) =~= state.buffer);
    } else {
        let earlier = tokens.drop_last();
        let token = tokens.last();
        let before = ran(state, prev, earlier);
        let after = ran(state, prev, tokens);
        let seen = state.buffer + earlier;
        assert(all =~= seen.push(token));
        assert(starts_in_order(seen)) by {
            assert forall|i: int, j: int| 0 <= i <= j < seen.len() implies (
            #[trigger] seen[i]).start <= (#[trigger] seen[j]).start by {
                assert(seen[i] == all[i] && seen[j] == all[j]);
            }
        }
        lemma_run_in_order(state, prev, earlier);
        lemma_run_keeps_wf(state, prev, earlier);
        let grown = before.0.buffer.push(token);
        assert(is_end_of(grown, all)) by {
            assert(grown =~= all.skip(all.len() - grown.len()));
        }
        assert(grown[0].start <= token.start) by {
            assert(grown[0] == all[all.len() - grown.len()]);
            assert(token == all[all.len() - 1]);
        }
        assert(earlier.len() > 0 ==> earlier.last().start <= token.start) by {
            if earlier.len() > 0 {
                assert(earlier.last() == all[all.len() - 2]);
                assert(token == all[all.len() - 1]);
            }
        }
        let starts = heading_starts(before.1);
        assert(starts.len() > 0 ==> earlier.len() > 0) by {
            if starts.len() > 0 {
                assert(starts[0] == starts[0]);
            }
        }
        assert(forall|k: int| 0 <= k < starts.len() ==> #[trigger] starts[k] <= grown[0].start) by {
            assert forall|k: int| 0 <= k < starts.len() implies #[trigger] starts[k]
                <= grown[0].start by {
                assert(starts[k] <= earlier.last().start);
                if before.0.buffer.len() > 0 {
                    assert(grown[0] == before.0.buffer[0]);
                } else {
                    assert(grown[0] == token);
                }
            }
        }
        if before.0.buffer.len() == 0 && !opens_heading(token) {
            assert(after == (before.0, before.1));
            assert(after.0.buffer =~= all.skip(all.len() as int));
        } else {
            let preceding = if before.0.buffer.len() == 0 {
                token_before(prev, tokens, tokens.len() - 1)
            } else {
                before.0.preceding
            };
            let verdict = resolved(grown, preceding, false);
            if verdict is Incomplete && grown.len() < state.capacity {
                assert(after.0.buffer == grown);
                assert(after.1 == before.1);
            } else {
                let report = if verdict is Incomplete {
                    Outcome::Failure
                } else {
                    verdict
                };
                assert(after.0.buffer =~= all.skip(all.len() as int));
                assert(after.1 == before.1.push(report));
                assert(after.1.drop_last() =~= before.1);
                if verdict is Match {
                    lemma_match_is_keyword_and_number(grown, preceding, false);
                    assert(heading_starts(after.1) == starts.push(grown[0].start));
                } else {
                    assert(heading_starts(after.1) == starts);
                }
            }
        }
    }
}

/// The headings of a transcript are reported in the order in which they are
/// spoken: where no token starts before the one before it, no heading that is
/// reported, while the tokens come in or at the end of the input, starts
/// before one reported earlier.
pub proof fn lemma_headings_come_in_order(
    state: ParserView,
    prev: Option<TokenView>,
    tokens: Seq<TokenView>,
)
    requires
        parser_wf(state),
        starts_in_order(state.buffer + tokens),
    ensures
        non_decreasing(
            heading_starts(
                ran(state, prev, tokens).1.push(
                    resolved(
                        ran(state, prev, tokens).0.buffer,
                        ran(state, prev, tokens).0.preceding,
                        true,
                    ),
                ),
            ),
        ),
{
    lemma_run_in_order(state, prev, tokens);
    let after = ran(state, prev, tokens);
    let last = resolved(after.0.buffer, after.0.preceding, true);
    assert(after.1.push(last).drop_last() =~= after.1);
    if last is Match {
        lemma_match_is_keyword_and_number(after.0.buffer, after.0.preceding, true);
    }
}

/// The view of a token that may be missing.
pub open spec fn option_view(token: Option<Token>) -> Option<TokenView> {
    match token {
        Some(t) => Some(t@),
        None => None,
    }
}

/// The view of a report that may be missing.
pub open spec fn report_view(report: Option<ParseResult>) -> Option<Outcome> {
    match report {
        Some(r) => Some(r@),
        None => None,
    }
}

fn copy_option(token: &Option<Token>) -> (r: Option<Token>)
    ensures
        option_view(r) == option_view(*token),
{
    match token {
        Some(t) => Some(t.duplicate()),
        None => None,
    }
}

fn copy_tokens(tokens: &Vec<Token>) -> (r: Vec<Token>)
    ensures
        token_views(r@) == token_views(tokens@),
{
    let mut out: Vec<Token> = Vec::new();
    let mut i: usize = 0;
    while i < tokens.len()
        invariant
            i <= tokens.len(),
            token_views(out@) == token_views(tokens@).take(i as int),
        decreases tokens.len() - i,
    {
        let ghost before = out@;
        let copy = tokens[i].duplicate();
        out.push(copy);
        proof {
            lemma_views_push(before, copy);
        }
        i += 1;
    }
    out
}

/// Whether `token` can open a heading.
pub fn token_opens_heading(token: &Token) -> (r: bool)
    ensures
        r == opens_heading(token@),
{
    token.is_chapter_token() && !token.is_replacement
}

/// Whether the keyword comes after enough silence.
pub fn gate_open(preceding: &Option<Token>, keyword: &Token) -> (r: bool)
    ensures
        r == pause_gate_open(option_view(*preceding), keyword@),
{
    match preceding {
        Some(p) => keyword.start >= p.end && keyword.start - p.end
            >= MIN_VOCAL_PAUSE_BEFORE_CHAPTER,
        None => true,
    }
}

/// Gives the verdict on a buffer whose numbers are folded already.
pub fn judge(tokens: Vec<Token>, is_end: bool) -> (r: ParseResult)
    ensures
        r@ == judged(token_views(tokens@), is_end),
{
    if tokens.len() < 2 {
        return ParseResult::Failure;
    }
    if !token_opens_heading(&tokens[0]) || !tokens[1].is_replacement {
        return ParseResult::Failure;
    }
    if tokens.len() == 2 && !is_end {
        return ParseResult::Incomplete;
    }
    let mut heading = tokens;
    heading.truncate(2);
    assert(token_views(heading@) =~= token_views(tokens@).take(2));
    ParseResult::Match(heading)
}

/// Gives the verdict on `buffer`, where `preceding` is the token heard before
/// its keyword and `is_end` says that no more input will come.
///
/// The checks come in this order. A buffer that does not start with the
/// keyword cannot be judged, which at the end counts as no heading. A keyword
/// too close to the word before it is no heading. A keyword with nothing after
/// it cannot be judged, which at the end counts as no heading. Then the
/// numbers in the buffer are folded and [`judge`] decides.
pub fn resolve(buffer: &Vec<Token>, preceding: &Option<Token>, is_end: bool) -> (r: ParseResult)
    ensures
        r@ == resolved(token_views(buffer@), option_view(*preceding), is_end),
        is_end ==> !(r is Incomplete),
{
    if buffer.len() == 0 || !token_opens_heading(&buffer[0]) {
        return if is_end {
            ParseResult::Failure
        } else {
            ParseResult::Incomplete
        };
    }
    if !gate_open(preceding, &buffer[0]) {
        return ParseResult::Failure;
    }
    if buffer.len() == 1 {
        return if is_end {
            ParseResult::Failure
        } else {
            ParseResult::Incomplete
        };
    }
    judge(rewrite_numbers(copy_tokens(buffer)), is_end)
}

/// The parser: a bounded buffer of tokens that starts with a chapter keyword,
/// and the token that was heard just before that keyword.
#[derive(Debug)]
pub struct ResultsParser {
    buffer: Vec<Token>,
    preceding: Option<Token>,
    capacity: usize,
}

impl View for ResultsParser {
    type V = ParserView;

    closed spec fn view(&self) -> ParserView {
        ParserView {
            buffer: token_views(self.buffer@),
            preceding: option_view(self.preceding),
            capacity: self.capacity as nat,
        }
    }
}

impl ResultsParser {
    #[verifier::type_invariant]
    spec fn inv(self) -> bool {
        parser_wf(self@)
    }

    /// A parser with nothing collected, whose buffer takes the keyword, the
    /// number and `post_match_context` tokens more.
    pub fn new(post_match_context: usize) -> (parser: Self)
        requires
            post_match_context + 2 <= usize::MAX,
        ensures
            parser@ == (ParserView {
                buffer: Seq::empty(),
                preceding: None,
                capacity: (post_match_context + 2) as nat,
            }),
    {
        let parser = ResultsParser {
            buffer: Vec::new(),
            preceding: None,
            capacity: 2 + post_match_context,
        };
        assert(token_views(parser.buffer@) =~= Seq::empty());
        parser
    }

    /// Whether nothing is collected.
    pub fn is_empty(&self) -> (r: bool)
        ensures
            r == (self@.buffer.len() == 0),
    {
        self.buffer.len() == 0
    }

    /// Whether something is collected.
    pub fn has_data(&self) -> (r: bool)
        ensures
            r == (self@.buffer.len() > 0),
    {
        !self.is_empty()
    }

    /// The number of tokens collected. It stays below the capacity.
    pub fn len(&self) -> (r: usize)
        ensures
            r == self@.buffer.len(),
            parser_wf(self@),
    {
        proof {
            use_type_invariant(self);
        }
        self.buffer.len()
    }

    /// The number of tokens the buffer never reaches.
    pub fn capacity(&self) -> (r: usize)
        ensures
            r == self@.capacity,
    {
        self.capacity
    }

    /// The verdict on what is collected, without changing it.
    pub fn parse_chapter(&self, is_end: bool) -> (r: ParseResult)
        ensures
            r@ == resolved(self@.buffer, self@.preceding, is_end),
            is_end ==> !(r is Incomplete),
    {
        resolve(&self.buffer, &self.preceding, is_end)
    }

    /// Takes the next token of the transcript. `prev_token` holds the token
    /// that came just before it, and holds `token` afterwards.
    ///
    /// Returns the verdict that this token brought about, if it brought one:
    /// a heading or no heading, never [`ParseResult::Incomplete`]. After a
    /// verdict nothing is collected any more.
    pub fn step(&mut self, prev_token: &mut Option<Token>, token: Token) -> (report: Option<
        ParseResult,
    >)
        ensures
            (final(self)@, report_view(report)) == stepped(
                old(self)@,
                option_view(*old(prev_token)),
                token@,
            ),
            option_view(*final(prev_token)) == Some(token@),
            parser_wf(final(self)@),
            final(self)@.capacity == old(self)@.capacity,
            report matches Some(r) ==> !(r is Incomplete),
            report is Some ==> final(self)@.buffer.len() == 0,
    {
        proof {
            use_type_invariant(&*self);
        }
        let collecting = self.buffer.len() > 0;
        let report = if collecting || token_opens_heading(&token) {
            let preceding = if collecting {
                copy_option(&self.preceding)
            } else {
                copy_option(prev_token)
            };
            let mut candidate = copy_tokens(&self.buffer);
            let copy = token.duplicate();
            candidate.push(copy);
            let full = candidate.len() >= self.capacity;
            let ghost start = if collecting {
                old(self)@
            } else {
                ParserView {
                    buffer: Seq::empty(),
                    preceding: option_view(*old(prev_token)),
                    capacity: old(self)@.capacity,
                }
            };
            assert(token_views(candidate@) == start.buffer.push(token@));
            match resolve(&candidate, &preceding, false) {
                ParseResult::Incomplete => {
                    if full {
                        self.preceding = None;
                        self.buffer = Vec::new();
                        assert(token_views(self.buffer@) =~= Seq::empty());
                        Some(ParseResult::Failure)
                    } else {
                        self.buffer = candidate;
                        self.preceding = preceding;
                        None
                    }
                },
                verdict => {
                    self.preceding = None;
                    self.buffer = Vec::new();
                    assert(token_views(self.buffer@) =~= Seq::empty());
                    Some(verdict)
                },
            }
        } else {
            None
        };
        *prev_token = Some(token);
        report
    }

    /// Takes the words of one utterance: picks the best alternative, and
    /// steps through its words in order. `prev_token` holds the token that
    /// came just before the utterance, and the last token of the utterance
    /// afterwards.
    ///
    /// Returns the verdicts reached on the way, in order.
    pub fn ingest_results(
        &mut self,
        prev_token: &mut Option<Token>,
        multi: &RecognitionResult,
    ) -> (reports: Vec<ParseResult>)
        requires
            multi@.len() > 0,
        ensures
            is_best(multi@, best_index(multi@)),
            (final(self)@, outcome_views(reports@)) == ran(
                old(self)@,
                option_view(*old(prev_token)),
                raw_tokens(multi@[best_index(multi@)].result),
            ),
            option_view(*final(prev_token)) == token_before(
                option_view(*old(prev_token)),
                raw_tokens(multi@[best_index(multi@)].result),
                multi@[best_index(multi@)].result.len() as int,
            ),
            parser_wf(final(self)@),
            final(self)@.capacity == old(self)@.capacity,
    {
        proof {
            use_type_invariant(&*self);
        }
        let best_alt = get_best_alt(multi.alternatives.as_slice());
        let ghost start = self@;
        let ghost prev = option_view(*prev_token);
        let ghost tokens = raw_tokens(multi@[best_index(multi@)].result);
        let mut reports: Vec<ParseResult> = Vec::new();
        let mut i: usize = 0;
        while i < best_alt.result.len()
            invariant
                i <= best_alt.result.len(),
                tokens == raw_tokens(word_views(best_alt.result@)),
                (self@, outcome_views(reports@)) == ran(start, prev, tokens.take(i as int)),
                option_view(*prev_token) == token_before(prev, tokens, i as int),
                parser_wf(self@),
                self@.capacity == start.capacity,
            decreases best_alt.result.len() - i,
        {
            let token = Token::from_word(&best_alt.result[i]);
            let report = self.step(prev_token, token);
            match report {
                Some(r) => {
                    reports.push(r);
                },
                None => {},
            }
            proof {
                let grown = tokens.take(i + 1);
                assert(grown.drop_last() =~= tokens.take(i as int));
            }
            i += 1;
        }
        assert(tokens.take(tokens.len() as int) =~= tokens);
        reports
    }

    /// Ends the transcript: gives the last verdict, on what is still
    /// collected. With nothing collected there is no heading.
    pub fn flush(self) -> (r: ParseResult)
        ensures
            r@ == resolved(self@.buffer, self@.preceding, true),
            !(r is Incomplete),
    {
        resolve(&self.buffer, &self.preceding, true)
    }
}

} // verus!
