//! Words of a transcript and the tokens the chapter parser works on.

use crate::text::{lowercase, lowercased};
use std::borrow::Cow;
use vstd::prelude::*;
use vstd::string::StringExecFns;

verus! {

/// Two words further apart than this many milliseconds never belong to the
/// same spoken number.
pub const MAX_PAUSE_WITHIN_NUMBER: u64 = 200;

/// One recognised word with its timing, as the recogniser reports it.
#[derive(Debug)]
pub struct Word {
    /// Time in milliseconds when the word starts.
    pub start: u64,
    /// Time in milliseconds when the word ends.
    pub end: u64,
    /// The transcribed word.
    pub word: String,
}

/// A unit of the transcript: either a recognised word, or one number that
/// stands for a run of recognised words.
#[derive(Debug)]
pub struct Token {
    /// Time in milliseconds when the word starts.
    pub start: u64,
    /// Time in milliseconds when the word ends.
    pub end: u64,
    /// The transcribed word.
    pub word: String,
    /// Indicates that this token replaced other token(s).
    pub is_replacement: bool,
}

/// The mathematical value of a [`Word`].
pub struct WordView {
    pub start: nat,
    pub end: nat,
    pub word: Seq<char>,
}

/// The mathematical value of a [`Token`].
pub struct TokenView {
    pub start: nat,
    pub end: nat,
    pub word: Seq<char>,
    pub is_replacement: bool,
}

impl View for Word {
    type V = WordView;

    open spec fn view(&self) -> WordView {
        WordView { start: self.start as nat, end: self.end as nat, word: self.word@ }
    }
}

impl View for Token {
    type V = TokenView;

    open spec fn view(&self) -> TokenView {
        TokenView {
            start: self.start as nat,
            end: self.end as nat,
            word: self.word@,
            is_replacement: self.is_replacement,
        }
    }
}

/// The views of a sequence of words.
pub open spec fn word_views(words: Seq<Word>) -> Seq<WordView> {
    words.map_values(|w: Word| w@)
}

/// The views of a sequence of tokens.
pub open spec fn token_views(tokens: Seq<Token>) -> Seq<TokenView> {
    tokens.map_values(|t: Token| t@)
}

/// Whether `word` is one of the two spellings that open a chapter heading.
pub open spec fn is_chapter_word(word: Seq<char>) -> bool {
    word == "chapter"@ || word == "chapters"@
}

/// The token that a freshly recognised word becomes.
pub open spec fn raw_token(w: WordView) -> TokenView {
    TokenView { start: w.start, end: w.end, word: w.word, is_replacement: false }
}

/// The tokens that freshly recognised words become.
pub open spec fn raw_tokens(words: Seq<WordView>) -> Seq<TokenView> {
    words.map_values(|w: WordView| raw_token(w))
}

/// The silence between the end of `previous` and the start of `next`, in
/// milliseconds; negative where the two overlap.
pub open spec fn pause_between(previous: TokenView, next: TokenView) -> int {
    next.start - previous.end
}

fn word_is_chapter(word: &String) -> (r: bool)
    ensures
        r == is_chapter_word(word@),
{
    let singular = String::from_str("chapter");
    let plural = String::from_str("chapters");
    *word == singular || *word == plural
}

/// Whether the recognised word opens a chapter heading.
pub fn is_chapter_token(wia: &Word) -> (r: bool)
    ensures
        r == is_chapter_word(wia@.word),
{
    word_is_chapter(&wia.word)
}

impl Token {
    /// Whether this token opens a chapter heading.
    pub fn is_chapter_token(&self) -> (r: bool)
        ensures
            r == is_chapter_word(self@.word),
    {
        word_is_chapter(&self.word)
    }

    /// The token for a freshly recognised word.
    pub fn from_word(wia: &Word) -> (t: Token)
        ensures
            t@ == raw_token(wia@),
    {
        Token { start: wia.start, end: wia.end, word: wia.word.clone(), is_replacement: false }
    }

    /// A copy of this token.
    pub fn duplicate(&self) -> (t: Token)
        ensures
            t@ == self@,
    {
        Token {
            start: self.start,
            end: self.end,
            word: self.word.clone(),
            is_replacement: self.is_replacement,
        }
    }

    /// Whether the pause between `previous` and this token is long enough to
    /// keep the two out of one spoken number.
    pub fn separated_from(&self, previous: &Token) -> (r: bool)
        ensures
            r == (pause_between(previous@, self@) > MAX_PAUSE_WITHIN_NUMBER),
    {
        self.start > previous.end && self.start - previous.end > MAX_PAUSE_WITHIN_NUMBER
    }
}

impl Clone for Token {
    fn clone(&self) -> (t: Token)
        ensures
            t@ == self@,
    {
        self.duplicate()
    }
}

/// How the number recogniser reads a token: by its text, and by the pause that
/// parts it from the token before.
impl text2num::Token for &Token {
    /// The word as it was transcribed.
    fn text(&self) -> (text: Cow<'_, str>)
        ensures
            text@ == self@.word,
    {
        Cow::Borrowed(self.word.as_str())
    }

    /// The word in lower case.
    fn text_lowercase(&self) -> (text: Cow<'_, str>)
        ensures
            text@ == lowercased(self@.word),
    {
        Cow::Owned(lowercase(self.word.as_str()))
    }

    /// Whether the pause since `previous` is too long for the two to belong
    /// to one spoken number.
    fn nt_separated(&self, previous: &Self) -> (separated: bool)
        ensures
            separated == (pause_between(previous@, self@) > MAX_PAUSE_WITHIN_NUMBER),
    {
        self.separated_from(previous)
    }
}

} // verus!
