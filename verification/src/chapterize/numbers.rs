//! Folding spelled-out numbers into single tokens.
//!
//! Recognising number phrases in English is left to the `text2num` crate. What
//! is done with the phrases it reports (which of them are taken, what the
//! token that stands for one looks like, and what happens to the tokens around
//! it) is decided and proved here.

use crate::chapterize::token::{token_views, Token, TokenView};
use vstd::prelude::*;

verus! {

/// A number phrase found in a sequence of tokens: the tokens from `start` up to
/// but not including `end` spell the number whose digits are `text`.
#[derive(Debug)]
pub struct NumberSpan {
    /// Offset of the first token of the phrase.
    pub start: usize,
    /// Offset after the last token of the phrase.
    pub end: usize,
    /// The number in digits.
    pub text: String,
}

/// The mathematical value of a [`NumberSpan`].
pub struct SpanView {
    pub start: nat,
    pub end: nat,
    pub text: Seq<char>,
}

impl View for NumberSpan {
    type V = SpanView;

    open spec fn view(&self) -> SpanView {
        SpanView { start: self.start as nat, end: self.end as nat, text: self.text@ }
    }
}

/// The views of a sequence of spans.
pub open spec fn span_views(spans: Seq<NumberSpan>) -> Seq<SpanView> {
    spans.map_values(|s: NumberSpan| s@)
}

/// The number of tokens that the recogniser is shown at most in one go.
///
/// The recogniser works out the value of the digits behind a decimal point in
/// 64 bits, and gives up where they do not fit. Nineteen digits always fit.
/// Each digit takes a token of its own, and the number before the point and
/// the point take two more at least.
pub const MAX_RECOGNISED_TOKENS: usize = 21;

/// The number phrases that `text2num` reports for `tokens`, read as English and
/// with no number too small to report, in the order in which it reports them.
pub uninterp spec fn found_numbers(tokens: Seq<TokenView>) -> Seq<SpanView>;

/// Runs `text2num::find_numbers` over `tokens` with the English interpreter and
/// a threshold of zero, and copies `start`, `end` and `text` out of each
/// occurrence it returns.
///
/// The recogniser reads each token through the text, the lower-case text and
/// the pause test of [`Token`], all of which depend on the token's value alone,
/// and keeps no state between calls. The contract claims no more than that: the
/// result is the one that belongs to these tokens. Nothing is claimed about
/// where the spans lie.
///
/// The call is made for no more than [`MAX_RECOGNISED_TOKENS`] tokens. Beyond
/// that the recogniser can run into an overflow, in the digits of a number
/// with twenty or more decimal places, and end the program.
#[verifier::external_body]
pub(crate) fn find_numbers(tokens: &Vec<Token>) -> (spans: Vec<NumberSpan>)
    requires
        tokens@.len() <= MAX_RECOGNISED_TOKENS,
    ensures
        span_views(spans@) == found_numbers(token_views(tokens@)),
{
    let english = text2num::Language::english();
    text2num::find_numbers(tokens.iter(), &english, Default::default())
        .into_iter()
        .map(|found| NumberSpan { start: found.start, end: found.end, text: found.text })
        .collect()
}

/// Whether some token of the sequence stands for a number already.
pub open spec fn has_replacement(tokens: Seq<TokenView>) -> bool {
    exists|i: int| 0 <= i < tokens.len() && (#[trigger] tokens[i]).is_replacement
}

/// Whether the tokens from `from` up to `to` are all recognised words.
pub open spec fn all_raw(tokens: Seq<TokenView>, from: int, to: int) -> bool {
    forall|i: int| from <= i < to ==> !(#[trigger] tokens[i]).is_replacement
}

/// Whether `span` can be taken when the tokens before `cursor` are spoken for:
/// it is not empty, lies within the tokens at or after `cursor`, and covers
/// recognised words only.
pub open spec fn span_fits(tokens: Seq<TokenView>, span: SpanView, cursor: nat) -> bool {
    &&& cursor <= span.start
    &&& span.start < span.end
    &&& span.end <= tokens.len()
    &&& all_raw(tokens, span.start as int, span.end as int)
}

/// The token that stands for the words under `span`: it starts where the first
/// of them starts, ends where the last of them ends, and carries the digits.
pub open spec fn merged_token(tokens: Seq<TokenView>, span: SpanView) -> TokenView {
    TokenView {
        start: tokens[span.start as int].start,
        end: tokens[span.end - 1].end,
        word: span.text,
        is_replacement: true,
    }
}

/// What becomes of the tokens at or after `cursor` when the spans from the
/// `k`-th on are applied in order. A span that does not fit is passed over.
pub open spec fn replaced_from(
    tokens: Seq<TokenView>,
    spans: Seq<SpanView>,
    k: nat,
    cursor: nat,
) -> Seq<TokenView>
    decreases spans.len() - k,
{
    if k >= spans.len() {
        tokens.skip(cursor as int)
    } else if span_fits(tokens, spans[k as int], cursor) {
        tokens.subrange(cursor as int, spans[k as int].start as int).push(
            merged_token(tokens, spans[k as int]),
        ) + replaced_from(tokens, spans, k + 1, spans[k as int].end)
    } else {
        replaced_from(tokens, spans, k + 1, cursor)
    }
}

/// The tokens with every span that fits replaced by one token.
pub open spec fn replaced(tokens: Seq<TokenView>, spans: Seq<SpanView>) -> Seq<TokenView> {
    replaced_from(tokens, spans, 0, 0)
}

/// The normal form of a token sequence. A sequence that holds a number token
/// has been through this pass before and is its own normal form. So is one of
/// more than [`MAX_RECOGNISED_TOKENS`] tokens, which the recogniser is not
/// shown. In any other, each number phrase that the recogniser reports is
/// replaced by one token.
pub open spec fn normalized(tokens: Seq<TokenView>) -> Seq<TokenView> {
    if has_replacement(tokens) || tokens.len() > MAX_RECOGNISED_TOKENS {
        tokens
    } else {
        replaced(tokens, found_numbers(tokens))
    }
}

/// Applying spans either brings in a number token or changes nothing.
pub proof fn lemma_replaced_changes_by_numbers(
    tokens: Seq<TokenView>,
    spans: Seq<SpanView>,
    k: nat,
    cursor: nat,
)
    requires
        cursor <= tokens.len(),
    ensures
        has_replacement(replaced_from(tokens, spans, k, cursor)) || replaced_from(
            tokens,
            spans,
            k,
            cursor,
        ) == tokens.skip(cursor as int),
    decreases spans.len() - k,
{
    if k < spans.len() {
        let span = spans[k as int];
        if span_fits(tokens, span, cursor) {
            let head = tokens.subrange(cursor as int, span.start as int).push(
                merged_token(tokens, span),
            );
            let out = replaced_from(tokens, spans, k, cursor);
            assert(out[head.len() - 1].is_replacement);
        } else {
            lemma_replaced_changes_by_numbers(tokens, spans, k + 1, cursor);
        }
    }
}

/// Folding numbers twice is folding them once: the normal form of a sequence
/// is its own normal form.
pub proof fn lemma_normalized_is_idempotent(tokens: Seq<TokenView>)
    ensures
        normalized(normalized(tokens)) == normalized(tokens),
{
    if !has_replacement(tokens) && tokens.len() <= MAX_RECOGNISED_TOKENS {
        lemma_replaced_changes_by_numbers(tokens, found_numbers(tokens), 0, 0);
        assert(tokens.skip(0) =~= tokens);
    }
}

/// A number token is never folded again or taken apart: whatever spans are
/// applied, every number token of the sequence is a token of the outcome.
pub proof fn lemma_number_tokens_are_kept(
    tokens: Seq<TokenView>,
    spans: Seq<SpanView>,
    k: nat,
    cursor: nat,
    i: int,
)
    requires
        cursor <= i < tokens.len(),
        tokens[i].is_replacement,
    ensures
        replaced_from(tokens, spans, k, cursor).contains(tokens[i]),
    decreases spans.len() - k,
{
    let out = replaced_from(tokens, spans, k, cursor);
    if k >= spans.len() {
        assert(out[i - cursor] == tokens[i]);
    } else {
        let span = spans[k as int];
        if span_fits(tokens, span, cursor) {
            if i < span.start {
                assert(out[i - cursor] == tokens[i]);
            } else {
                let head = tokens.subrange(cursor as int, span.start as int).push(
                    merged_token(tokens, span),
                );
                let tail = replaced_from(tokens, spans, k + 1, span.end);
                lemma_number_tokens_are_kept(tokens, spans, k + 1, span.end, i);
                let j = choose|j: int| 0 <= j < tail.len() && tail[j] == tokens[i];
                assert(out[head.len() + j] == tokens[i]);
            }
        } else {
            lemma_number_tokens_are_kept(tokens, spans, k + 1, cursor, i);
        }
    }
}

/// A recognised word at the front of the outcome was at the front before:
/// whatever spans are applied, a token that is put in front of the others is
/// a number token.
pub proof fn lemma_raw_head_is_kept(
    tokens: Seq<TokenView>,
    spans: Seq<SpanView>,
    k: nat,
    cursor: nat,
)
    requires
        cursor <= tokens.len(),
        replaced_from(tokens, spans, k, cursor).len() > 0,
        !replaced_from(tokens, spans, k, cursor)[0].is_replacement,
    ensures
        cursor < tokens.len(),
        replaced_from(tokens, spans, k, cursor)[0] == tokens[cursor as int],
    decreases spans.len() - k,
{
    if k < spans.len() && !span_fits(tokens, spans[k as int], cursor) {
        lemma_raw_head_is_kept(tokens, spans, k + 1, cursor);
    }
}

/// A recognised word at the front of the normal form was at the front
/// before.
pub proof fn lemma_normalized_keeps_raw_head(tokens: Seq<TokenView>)
    requires
        normalized(tokens).len() > 0,
        !normalized(tokens)[0].is_replacement,
    ensures
        tokens.len() > 0,
        normalized(tokens)[0] == tokens[0],
{
    if !has_replacement(tokens) && tokens.len() <= MAX_RECOGNISED_TOKENS {
        lemma_raw_head_is_kept(tokens, found_numbers(tokens), 0, 0);
    }
}

/// Where the recogniser reports one number phrase, and that phrase is all
/// that follows the first token, what is left after folding is the first
/// token and one number token: it carries the digits of the phrase, starts
/// with the second token and ends with the last.
pub proof fn lemma_one_phrase_after_first(tokens: Seq<TokenView>, text: Seq<char>)
    requires
        2 <= tokens.len() <= MAX_RECOGNISED_TOKENS,
        !has_replacement(tokens),
        found_numbers(tokens) == seq![SpanView { start: 1, end: tokens.len(), text }],
    ensures
        normalized(tokens) == seq![
            tokens[0],
            TokenView {
                start: tokens[1].start,
                end: tokens[tokens.len() - 1].end,
                word: text,
                is_replacement: true,
            },
        ],
{
    assert(replaced_from(tokens, found_numbers(tokens), 1, tokens.len()) =~= Seq::empty());
}

/// Pushing a token pushes its view.
pub proof fn lemma_views_push(tokens: Seq<Token>, token: Token)
    ensures
        token_views(tokens.push(token)) == token_views(tokens).push(token@),
{
}

/// Whether some token of `tokens` stands for a number already.
pub fn contains_replacement(tokens: &Vec<Token>) -> (r: bool)
    ensures
        r == has_replacement(token_views(tokens@)),
{
    let mut i: usize = 0;
    while i < tokens.len()
        invariant
            i <= tokens.len(),
            all_raw(token_views(tokens@), 0, i as int),
        decreases tokens.len() - i,
    {
        if tokens[i].is_replacement {
            assert(token_views(tokens@)[i as int].is_replacement);
            return true;
        }
        i += 1;
    }
    false
}

/// Whether the tokens from `from` up to `to` are all recognised words.
fn is_raw_range(tokens: &Vec<Token>, from: usize, to: usize) -> (r: bool)
    requires
        from <= to <= tokens.len(),
    ensures
        r == all_raw(token_views(tokens@), from as int, to as int),
{
    let mut i: usize = from;
    while i < to
        invariant
            from <= i <= to <= tokens.len(),
            all_raw(token_views(tokens@), from as int, i as int),
        decreases to - i,
    {
        if tokens[i].is_replacement {
            assert(token_views(tokens@)[i as int].is_replacement);
            return false;
        }
        i += 1;
    }
    true
}

/// Appends copies of the tokens from `from` up to `to` to `out`.
fn copy_range(tokens: &Vec<Token>, from: usize, to: usize, out: &mut Vec<Token>)
    requires
        from <= to <= tokens.len(),
    ensures
        token_views(final(out)@) == token_views(old(out)@) + token_views(tokens@).subrange(
            from as int,
            to as int,
        ),
{
    let mut i: usize = from;
    while i < to
        invariant
            from <= i <= to <= tokens.len(),
            token_views(out@) == token_views(old(out)@) + token_views(tokens@).subrange(
                from as int,
                i as int,
            ),
        decreases to - i,
    {
        let ghost before = out@;
        out.push(tokens[i].duplicate());
        proof {
            lemma_views_push(before, out@[out@.len() - 1]);
        }
        i += 1;
    }
}

/// Replaces each span that fits by one token, taking the spans in order.
///
/// The new token starts with the first word under the span and ends with the
/// last; its text is the span's. A span that is empty, reaches past the tokens,
/// starts before the end of the span taken before it, or covers a token that
/// stands for a number already, is passed over. Every other token is kept as
/// it is.
pub fn replace_numbers(tokens: &Vec<Token>, spans: &Vec<NumberSpan>) -> (out: Vec<Token>)
    ensures
        token_views(out@) == replaced(token_views(tokens@), span_views(spans@)),
{
    let ghost tv = token_views(tokens@);
    let ghost sv = span_views(spans@);
    let mut out: Vec<Token> = Vec::new();
    let mut cursor: usize = 0;
    let mut k: usize = 0;
    while k < spans.len()
        invariant
            k <= spans.len(),
            cursor <= tokens.len(),
            tv == token_views(tokens@),
            sv == span_views(spans@),
            token_views(out@) + replaced_from(tv, sv, k as nat, cursor as nat) == replaced(tv, sv),
        decreases spans.len() - k,
    {
        let span = &spans[k];
        let fits = cursor <= span.start && span.start < span.end && span.end <= tokens.len()
            && is_raw_range(tokens, span.start, span.end);
        if fits {
            copy_range(tokens, cursor, span.start, &mut out);
            let ghost copied = out@;
            let number = Token {
                start: tokens[span.start].start,
                end: tokens[span.end - 1].end,
                word: span.text.clone(),
                is_replacement: true,
            };
            out.push(number);
            proof {
                lemma_views_push(copied, number);
            }
            cursor = span.end;
        }
        k += 1;
    }
    copy_range(tokens, cursor, tokens.len(), &mut out);
    out
}

/// Brings a token sequence into normal form.
///
/// A sequence that holds a number token has been through this pass before and
/// is returned as it is. So is a sequence of more than
/// [`MAX_RECOGNISED_TOKENS`] tokens: the recogniser is not asked about it. In
/// any other, each number phrase that the recogniser reports is replaced by
/// one token, as [`replace_numbers`] does it.
pub fn rewrite_numbers(tokens: Vec<Token>) -> (out: Vec<Token>)
    ensures
        token_views(out@) == normalized(token_views(tokens@)),
{
    if tokens.len() > MAX_RECOGNISED_TOKENS || contains_replacement(&tokens) {
        tokens
    } else {
        let spans = find_numbers(&tokens);
        replace_numbers(&tokens, &spans)
    }
}

} // verus!
