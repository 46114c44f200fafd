//! Choosing one hypothesis out of the ranked alternatives of an utterance.
//!
//! The recogniser's first alternative is taken as it is unless a chapter
//! keyword is at stake. Then the alternatives that hold the keyword are scored,
//! and the one with the highest score wins.

use crate::chapterize::numbers::{
    find_numbers, found_numbers, lemma_views_push, span_views, NumberSpan, SpanView,
    MAX_RECOGNISED_TOKENS,
};
use crate::chapterize::token::{
    is_chapter_token, is_chapter_word, raw_tokens, token_views, word_views, Token, TokenView, Word,
    WordView,
};
use vstd::prelude::*;
use vstd::string::StringExecFns;

verus! {

/// What the singular keyword adds to a score, in thousandths.
pub const SINGULAR_BONUS: i128 = 1000;

/// What the plural keyword adds to a score, in thousandths.
pub const PLURAL_BONUS: i128 = 900;

/// What each word of the number after the keyword adds to a score, in
/// thousandths.
pub const NUMBER_WORD_BONUS: i128 = 1000;

/// One hypothesis of the recogniser for an utterance.
#[derive(Debug)]
pub struct Alternative {
    /// The recogniser's confidence in thousandths; higher is better.
    pub confidence: i64,
    /// The words of the hypothesis in the order spoken.
    pub result: Vec<Word>,
}

/// The alternatives for one utterance, the recogniser's first choice first.
#[derive(Debug)]
pub struct RecognitionResult {
    pub alternatives: Vec<Alternative>,
}

/// The mathematical value of an [`Alternative`].
pub struct AlternativeView {
    pub confidence: int,
    pub result: Seq<WordView>,
}

impl View for Alternative {
    type V = AlternativeView;

    open spec fn view(&self) -> AlternativeView {
        AlternativeView { confidence: self.confidence as int, result: word_views(self.result@) }
    }
}

impl View for RecognitionResult {
    type V = Seq<AlternativeView>;

    open spec fn view(&self) -> Seq<AlternativeView> {
        alternative_views(self.alternatives@)
    }
}

/// The views of a sequence of alternatives.
pub open spec fn alternative_views(alts: Seq<Alternative>) -> Seq<AlternativeView> {
    alts.map_values(|a: Alternative| a@)
}

/// Whether a chapter keyword occurs among the words.
pub open spec fn contains_keyword(words: Seq<WordView>) -> bool {
    exists|i: int| 0 <= i < words.len() && is_chapter_word((#[trigger] words[i]).word)
}

/// The offset of the first chapter keyword at or after `from`, or the number
/// of words if there is none.
pub open spec fn first_keyword_from(words: Seq<WordView>, from: int) -> int
    decreases words.len() - from,
{
    if from < 0 || from >= words.len() {
        words.len() as int
    } else if is_chapter_word(words[from].word) {
        from
    } else {
        first_keyword_from(words, from + 1)
    }
}

/// The offset of the first chapter keyword, or the number of words if there
/// is none.
pub open spec fn first_keyword(words: Seq<WordView>) -> int {
    first_keyword_from(words, 0)
}

/// What the keyword adds to the score: a little more for the singular.
pub open spec fn keyword_bonus(word: Seq<char>) -> int {
    if word == "chapter"@ {
        SINGULAR_BONUS as int
    } else {
        PLURAL_BONUS as int
    }
}

/// The number of words in the number phrase that starts right after the
/// keyword, given the phrases found in the words after the keyword. Zero where
/// the first phrase starts later or there is none.
pub open spec fn number_bonus(spans: Seq<SpanView>) -> int {
    if spans.len() > 0 && spans[0].start == 0 {
        spans[0].end as int
    } else {
        0
    }
}

/// Where the words end that are looked at for a number after the first
/// keyword: with the last word, or [`MAX_RECOGNISED_TOKENS`] words after the
/// keyword where more follow it.
pub open spec fn end_of_look(words: Seq<WordView>) -> int {
    if words.len() - (first_keyword(words) + 1) > MAX_RECOGNISED_TOKENS {
        first_keyword(words) + 1 + MAX_RECOGNISED_TOKENS
    } else {
        words.len() as int
    }
}

/// The words that follow the first keyword, as tokens; of more than
/// [`MAX_RECOGNISED_TOKENS`] words, the first so many.
pub open spec fn tokens_after_keyword(words: Seq<WordView>) -> Seq<TokenView> {
    raw_tokens(words.subrange(first_keyword(words) + 1, end_of_look(words)))
}

/// The score of an alternative that holds a keyword, given the number phrases
/// found in the words looked at after its first keyword: its confidence, the
/// bonus for the keyword, and a bonus for each word of a number that follows
/// at once.
pub open spec fn score_with(alt: AlternativeView, spans: Seq<SpanView>) -> int {
    alt.confidence + keyword_bonus(alt.result[first_keyword(alt.result)].word) + NUMBER_WORD_BONUS
        * number_bonus(spans)
}

/// The score of an alternative that holds a keyword.
pub open spec fn score(alt: AlternativeView) -> int {
    score_with(alt, found_numbers(tokens_after_keyword(alt.result)))
}

/// Whether the `i`-th alternative is the one to take. Where no alternative
/// holds a keyword it is the first. Otherwise it holds a keyword, no other
/// that holds one scores higher, and none after it scores as high.
pub open spec fn is_best(alts: Seq<AlternativeView>, i: int) -> bool {
    &&& 0 <= i < alts.len()
    &&& if forall|j: int| 0 <= j < alts.len() ==> !contains_keyword((#[trigger] alts[j]).result) {
        i == 0
    } else {
        &&& contains_keyword(alts[i].result)
        &&& forall|j: int|
            0 <= j < alts.len() && contains_keyword((#[trigger] alts[j]).result) ==> score(alts[j])
                <= score(alts[i])
        &&& forall|j: int|
            i < j < alts.len() && contains_keyword((#[trigger] alts[j]).result) ==> score(alts[j])
                < score(alts[i])
    }
}

/// The offset of the alternative to take.
pub open spec fn best_index(alts: Seq<AlternativeView>) -> int {
    choose|i: int| is_best(alts, i)
}

/// At most one alternative is the one to take.
pub proof fn lemma_best_is_unique(alts: Seq<AlternativeView>, i: int, j: int)
    requires
        is_best(alts, i),
        is_best(alts, j),
    ensures
        i == j,
{
}

/// The offset of the first chapter keyword among `words`, or their number if
/// there is none.
pub fn find_chapter_word(words: &Vec<Word>) -> (k: usize)
    ensures
        k == first_keyword(word_views(words@)),
        k <= words.len(),
        (k < words.len()) == contains_keyword(word_views(words@)),
{
    let ghost wv = word_views(words@);
    let mut i: usize = 0;
    while i < words.len()
        invariant
            i <= words.len(),
            wv == word_views(words@),
            first_keyword(wv) == first_keyword_from(wv, i as int),
            forall|j: int| 0 <= j < i ==> !is_chapter_word((#[trigger] wv[j]).word),
        decreases words.len() - i,
    {
        if is_chapter_token(&words[i]) {
            return i;
        }
        i += 1;
    }
    i
}

/// Whether the alternative holds a chapter keyword.
pub fn alt_contains_potential_match(alt: &Alternative) -> (r: bool)
    ensures
        r == contains_keyword(alt@.result),
{
    find_chapter_word(&alt.result) < alt.result.len()
}

/// The number of words in the phrase that starts at the very first token,
/// given the phrases found. Zero where the first phrase starts later or there
/// is none.
pub fn count_number_words(spans: &Vec<NumberSpan>) -> (n: usize)
    ensures
        n == number_bonus(span_views(spans@)),
{
    if spans.len() > 0 && spans[0].start == 0 {
        spans[0].end
    } else {
        0
    }
}

/// The score of `alt`, given the number phrases found in the words after its
/// first keyword.
pub fn score_alt_with(alt: &Alternative, spans: &Vec<NumberSpan>) -> (s: i128)
    requires
        contains_keyword(alt@.result),
    ensures
        s == score_with(alt@, span_views(spans@)),
{
    let k = find_chapter_word(&alt.result);
    let singular = String::from_str("chapter");
    let bonus = if alt.result[k].word == singular {
        SINGULAR_BONUS
    } else {
        PLURAL_BONUS
    };
    let words = count_number_words(spans);
    assert(NUMBER_WORD_BONUS * (words as i128) <= 1000 * 0x1_0000_0000_0000_0000)
        by (nonlinear_arith)
        requires
            NUMBER_WORD_BONUS == 1000,
            0 <= words as i128 <= 0x1_0000_0000_0000_0000,
    ;
    (alt.confidence as i128) + bonus + NUMBER_WORD_BONUS * (words as i128)
}

/// The words after the first keyword of `words`, as tokens; of more than
/// [`MAX_RECOGNISED_TOKENS`] words, the first so many.
fn after_keyword(words: &Vec<Word>) -> (following: Vec<Token>)
    requires
        contains_keyword(word_views(words@)),
    ensures
        token_views(following@) == tokens_after_keyword(word_views(words@)),
        following@.len() <= MAX_RECOGNISED_TOKENS,
{
    let ghost wv = word_views(words@);
    let k = find_chapter_word(words);
    let end: usize = if words.len() - (k + 1) > MAX_RECOGNISED_TOKENS {
        k + 1 + MAX_RECOGNISED_TOKENS
    } else {
        words.len()
    };
    let mut following: Vec<Token> = Vec::new();
    let mut i: usize = k + 1;
    while i < end
        invariant
            k + 1 <= i <= end <= words.len(),
            wv == word_views(words@),
            following@.len() == i - (k + 1),
            token_views(following@) == raw_tokens(wv.subrange(k + 1, i as int)),
        decreases end - i,
    {
        let ghost before = following@;
        let token = Token::from_word(&words[i]);
        following.push(token);
        proof {
            lemma_views_push(before, token);
        }
        i += 1;
    }
    following
}

/// The score of an alternative that holds a keyword.
pub fn score_alt(alt: &Alternative) -> (s: i128)
    requires
        contains_keyword(alt@.result),
    ensures
        s == score(alt@),
{
    let following = after_keyword(&alt.result);
    let spans = find_numbers(&following);
    score_alt_with(alt, &spans)
}

/// The offset of the alternative to take: the first where no alternative holds
/// a chapter keyword; otherwise, among those that hold one, the one with the
/// highest score, and of several with that score the last.
pub fn best_alt_index(alts: &[Alternative]) -> (best: usize)
    requires
        alts@.len() > 0,
    ensures
        is_best(alternative_views(alts@), best as int),
        best == best_index(alternative_views(alts@)),
{
    let ghost av = alternative_views(alts@);
    let mut found = false;
    let mut best: usize = 0;
    let mut best_score: i128 = 0;
    let mut i: usize = 0;
    while i < alts.len()
        invariant
            i <= alts.len(),
            alts@.len() > 0,
            av == alternative_views(alts@),
            !found ==> best == 0,
            !found ==> forall|j: int| 0 <= j < i ==> !contains_keyword((#[trigger] av[j]).result),
            found ==> best < i && contains_keyword(av[best as int].result) && best_score == score(
                av[best as int],
            ),
            found ==> forall|j: int|
                0 <= j < i && contains_keyword((#[trigger] av[j]).result) ==> score(av[j])
                    <= best_score,
            found ==> forall|j: int|
                best < j < i && contains_keyword((#[trigger] av[j]).result) ==> score(av[j])
                    < best_score,
        decreases alts.len() - i,
    {
        if alt_contains_potential_match(&alts[i]) {
            let s = score_alt(&alts[i]);
            if !found || s >= best_score {
                found = true;
                best = i;
                best_score = s;
            }
        }
        i += 1;
    }
    proof {
        lemma_best_is_unique(av, best as int, best_index(av));
    }
    best
}

/// Given several alternatives, returns the best one: see [`best_alt_index`].
pub fn get_best_alt(alts: &[Alternative]) -> (best: &Alternative)
    requires
        alts@.len() > 0,
    ensures
        is_best(alternative_views(alts@), best_index(alternative_views(alts@))),
        *best == alts@[best_index(alternative_views(alts@))],
{
    &alts[best_alt_index(alts)]
}

} // verus!
