//! The tokenizer and its abstract state.

use vstd::prelude::*;
use vstd::string::*;
use crate::scan::{decode, find_from, first_match, lemma_first_match_leftmost};
use crate::trim::{trim, trimmed};

verus! {

/// What a tokenizer is, mathematically: the text, the delimiter, and how many
/// characters of the text have been consumed.
pub struct ScanState {
    pub source: Seq<char>,
    pub delimiter: Seq<char>,
    pub cursor: nat,
}

impl ScanState {
    /// The state of a tokenizer that has consumed nothing yet.
    pub open spec fn start(source: Seq<char>, delimiter: Seq<char>) -> ScanState {
        ScanState { source, delimiter, cursor: 0 }
    }

    /// The cursor lies within the text or at its end.
    pub open spec fn wf(self) -> bool {
        self.cursor <= self.source.len()
    }

    /// Some of the text is still unconsumed.
    pub open spec fn has_next(self) -> bool {
        self.cursor < self.source.len()
    }

    /// The text that is still unconsumed.
    pub open spec fn remaining(self) -> Seq<char> {
        self.source.subrange(self.cursor as int, self.source.len() as int)
    }

    /// Where the leftmost delimiter at or after the cursor begins, if any.
    pub open spec fn next_delimiter(self) -> Option<int> {
        first_match(self.source, self.delimiter, self.cursor as int)
    }

    /// Where the next token ends: at the next delimiter, or at the end of the
    /// text where no delimiter is left.
    pub open spec fn token_end(self) -> int {
        match self.next_delimiter() {
            Some(p) => p,
            None => self.source.len() as int,
        }
    }

    /// The next token: the text from the cursor up to `token_end`.
    pub open spec fn next_token(self) -> Seq<char> {
        self.source.subrange(self.cursor as int, self.token_end())
    }

    /// The state after the next token has been taken: the cursor stands just
    /// behind the delimiter that ended the token, or at the end of the text.
    pub open spec fn advance(self) -> ScanState {
        ScanState {
            source: self.source,
            delimiter: self.delimiter,
            cursor: match self.next_delimiter() {
                Some(p) => (p + self.delimiter.len()) as nat,
                None => self.source.len(),
            },
        }
    }

    /// The next token is a piece of the text, and taking it never moves the
    /// cursor backwards nor past the end of the text.
    pub proof fn lemma_advance_bounds(self)
        requires
            self.wf(),
        ensures
            self.cursor <= self.token_end() <= self.advance().cursor <= self.source.len(),
            self.advance().wf(),
            self.next_token().len() == self.token_end() - self.cursor,
    {
        lemma_first_match_leftmost(self.source, self.delimiter, self.cursor as int);
    }
}

/// A lazy tokenizer over an owned text and an owned literal delimiter.
pub struct StringTokenizer {
    text: String,
    source: Vec<char>,
    delimiter: Vec<char>,
    cursor: usize,
}

impl View for StringTokenizer {
    type V = ScanState;

    closed spec fn view(&self) -> ScanState {
        ScanState { source: self.source@, delimiter: self.delimiter@, cursor: self.cursor as nat }
    }
}

impl StringTokenizer {
    #[verifier::type_invariant]
    spec fn inv(self) -> bool {
        &&& self.text@ == self.source@
        &&& self.cursor <= self.source@.len()
    }

    /// Makes a tokenizer that stands at the start of `source`.
    pub fn new(source: &str, delimiter: &str) -> (tokenizer: StringTokenizer)
        ensures
            tokenizer@ == ScanState::start(source@, delimiter@),
    {
        StringTokenizer {
            text: source.to_owned(),
            source: decode(source),
            delimiter: decode(delimiter),
            cursor: 0,
        }
    }

    /// Tells whether any of the text is still unconsumed.
    pub fn has_next(&self) -> (more: bool)
        ensures
            more == self@.has_next(),
            self@.wf(),
    {
        proof {
            use_type_invariant(self);
        }
        self.cursor < self.source.len()
    }

    /// Returns the next token and moves the cursor behind it.
    ///
    /// The token runs from the cursor to the leftmost delimiter at or after
    /// it, or to the end of the text where no delimiter is left.  Once the
    /// text is exhausted the token is empty and the state no longer changes.
    /// An empty delimiter is found at the cursor itself: the token is empty
    /// and the cursor stays where it is.
    pub fn get_next(&mut self) -> (token: String)
        ensures
            token@ == old(self)@.next_token(),
            final(self)@ == old(self)@.advance(),
            final(self)@.source == old(self)@.source,
            final(self)@.delimiter == old(self)@.delimiter,
            old(self)@.cursor <= final(self)@.cursor <= old(self)@.source.len(),
            !old(self)@.has_next() ==> token@ == Seq::<char>::empty() && final(self)@ == old(
                self,
            )@,
    {
        proof {
            use_type_invariant(&*self);
            self@.lemma_advance_bounds();
        }
        let start: usize = self.cursor;
        let len: usize = self.source.len();
        let end: usize;
        match find_from(self.source.as_slice(), self.delimiter.as_slice(), start) {
            Some(p) => {
                end = p;
                self.cursor = p + self.delimiter.len();
            },
            None => {
                end = len;
                self.cursor = len;
            },
        }
        self.text.as_str().substring_char(start, end).to_owned()
    }

    /// Returns the next token without its leading and trailing whitespace and
    /// moves the cursor exactly as `get_next` does.
    pub fn get_next_with_trim(&mut self) -> (token: String)
        ensures
            token@ == trimmed(old(self)@.next_token()),
            final(self)@ == old(self)@.advance(),
            final(self)@.source == old(self)@.source,
            final(self)@.delimiter == old(self)@.delimiter,
            old(self)@.cursor <= final(self)@.cursor <= old(self)@.source.len(),
            !old(self)@.has_next() ==> token@ == Seq::<char>::empty() && final(self)@ == old(
                self,
            )@,
    {
        let token = self.get_next();
        trim(token.as_str())
    }
}

} // verus!
