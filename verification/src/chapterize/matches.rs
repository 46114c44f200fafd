//! Choosing which recognition results to keep for a later look.
//!
//! Every result in which some alternative holds a chapter keyword is kept,
//! together with the results just before it and just after it.

use crate::fixed_vec_deque::FixedVecDeque;
use vstd::prelude::*;

verus! {

/// The number of results before and after a potential match that are kept
/// with it.
pub const WRITE_POT_MATCH_CONTEXT: usize = 2;

/// The mathematical value of a [`MatchesLog`].
pub struct MatchesView {
    /// The last results seen, the oldest first; at most
    /// [`WRITE_POT_MATCH_CONTEXT`] of them.
    pub previous: Seq<Seq<char>>,
    /// The number of results seen since the last potential match; `None`
    /// before the first.
    pub since_match: Option<nat>,
}

/// Decides, result by result, what is kept.
pub struct MatchesLog {
    previous_results: FixedVecDeque<String>,
    since_match: Option<u64>,
}

/// The views of a sequence of texts.
pub open spec fn text_views(texts: Seq<String>) -> Seq<Seq<char>> {
    texts.map_values(|t: String| t@)
}

impl View for MatchesLog {
    type V = MatchesView;

    closed spec fn view(&self) -> MatchesView {
        MatchesView {
            previous: text_views(self.previous_results@),
            since_match: match self.since_match {
                Some(n) => Some(n as nat),
                None => None,
            },
        }
    }
}

/// The last results seen, once `msg` is one of them.
pub open spec fn remembered(previous: Seq<Seq<char>>, msg: Seq<char>) -> Seq<Seq<char>> {
    if previous.len() >= WRITE_POT_MATCH_CONTEXT {
        previous.skip(previous.len() - WRITE_POT_MATCH_CONTEXT + 1).push(msg)
    } else {
        previous.push(msg)
    }
}

/// What is kept when the result `msg` comes in. A potential match is kept
/// after the results remembered from before it. Any other result is kept if
/// it is one of the first [`WRITE_POT_MATCH_CONTEXT`] after a potential match.
pub open spec fn kept(state: MatchesView, msg: Seq<char>, has_potential_match: bool) -> Seq<
    Seq<char>,
> {
    if has_potential_match {
        state.previous.push(msg)
    } else {
        match state.since_match {
            Some(n) => if n < WRITE_POT_MATCH_CONTEXT {
                seq![msg]
            } else {
                Seq::empty()
            },
            None => Seq::empty(),
        }
    }
}

/// The number of results seen since the last potential match, once one more
/// has come in; counting stops where 64 bits are full.
pub open spec fn counted(since_match: Option<nat>, has_potential_match: bool) -> Option<nat> {
    if has_potential_match {
        Some(0)
    } else {
        match since_match {
            Some(n) => Some(
                if n < u64::MAX {
                    n + 1
                } else {
                    n
                },
            ),
            None => None,
        }
    }
}

/// The log after the result `msg` has come in.
pub open spec fn recorded(state: MatchesView, msg: Seq<char>, has_potential_match: bool)
    -> MatchesView {
    MatchesView {
        previous: remembered(state.previous, msg),
        since_match: counted(state.since_match, has_potential_match),
    }
}

impl MatchesLog {
    #[verifier::type_invariant]
    spec fn inv(self) -> bool {
        &&& self.previous_results.spec_max_len() == WRITE_POT_MATCH_CONTEXT
        &&& self.previous_results@.len() <= WRITE_POT_MATCH_CONTEXT
    }

    /// A log that has seen no result.
    pub fn new() -> (log: Self)
        ensures
            log@ == (MatchesView { previous: Seq::empty(), since_match: None }),
    {
        let log = MatchesLog {
            previous_results: FixedVecDeque::with_max_len(WRITE_POT_MATCH_CONTEXT),
            since_match: None,
        };
        assert(text_views(log.previous_results@) =~= Seq::empty());
        log
    }

    /// Takes the next result, `msg`, and whether one of its alternatives holds
    /// a chapter keyword. Returns the results to keep now, in the order in
    /// which they are to be written.
    pub fn record(&mut self, msg: String, has_potential_match: bool) -> (lines: Vec<String>)
        ensures
            text_views(lines@) == kept(old(self)@, msg@, has_potential_match),
            final(self)@ == recorded(old(self)@, msg@, has_potential_match),
            final(self)@.previous.len() <= WRITE_POT_MATCH_CONTEXT,
    {
        proof {
            use_type_invariant(&*self);
        }
        let mut lines: Vec<String> = Vec::new();
        if has_potential_match {
            let mut i: usize = 0;
            while i < self.previous_results.len()
                invariant
                    i <= self.previous_results@.len(),
                    text_views(lines@) == text_views(self.previous_results@).take(i as int),
                decreases self.previous_results@.len() - i,
            {
                match self.previous_results.get(i) {
                    Some(previous) => {
                        let line = previous.clone();
                        lines.push(line);
                    },
                    None => {},
                }
                assert(text_views(self.previous_results@).take(i + 1) =~= text_views(
                    self.previous_results@,
                ).take(i as int).push(self.previous_results@[i as int]@));
                i += 1;
            }
            let ghost before = lines@;
            let line = msg.clone();
            lines.push(line);
            assert(text_views(lines@) =~= text_views(before).push(line@));
            self.since_match = Some(0);
        } else {
            match self.since_match {
                Some(n) => {
                    if n < WRITE_POT_MATCH_CONTEXT as u64 {
                        let line = msg.clone();
                        lines.push(line);
                    }
                    self.since_match = Some(
                        if n < u64::MAX {
                            n + 1
                        } else {
                            n
                        },
                    );
                },
                None => {},
            }
        }
        let ghost seen = self.previous_results@;
        let mut window: FixedVecDeque<String> = FixedVecDeque::with_max_len(
            WRITE_POT_MATCH_CONTEXT,
        );
        core::mem::swap(&mut self.previous_results, &mut window);
        window.push_back(msg);
        core::mem::swap(&mut self.previous_results, &mut window);
        assert(text_views(self.previous_results@) =~= remembered(text_views(seen), msg@));
        lines
    }
}

} // verus!
