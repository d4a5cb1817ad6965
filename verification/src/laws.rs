//! What holds of a tokenizer that is driven until its text is exhausted.
//!
//! The laws are stated over [`ScanState`], the abstract state in which the
//! tokenizer's operations are specified: one call of `get_next` returns
//! `next_token()` and leaves the state `advance()`.

use vstd::prelude::*;
use crate::scan::{lemma_empty_delimiter_matches, lemma_first_match_leftmost};
use crate::tokenizer::ScanState;
use crate::trim::trimmed;

verus! {

/// The tokens that are produced, in order, by taking the next token for as
/// long as some text is unconsumed.  Defined for a non-empty delimiter: with
/// an empty one the cursor never moves and the tokens never end.
pub open spec fn tokens(st: ScanState) -> Seq<Seq<char>>
    decreases st.source.len() - st.cursor,
    when st.wf() && st.delimiter.len() > 0
{
    if st.has_next() {
        proof {
            st.lemma_advance_bounds();
            lemma_first_match_leftmost(st.source, st.delimiter, st.cursor as int);
        }
        seq![st.next_token()] + tokens(st.advance())
    } else {
        Seq::empty()
    }
}

/// How many occurrences of the delimiter a greedy scan from the cursor finds:
/// each time the leftmost one, the next search starting just behind it.
pub open spec fn occurrences(st: ScanState) -> nat
    decreases st.source.len() - st.cursor,
    when st.wf() && st.delimiter.len() > 0
{
    match st.next_delimiter() {
        Some(_) => {
            proof {
                st.lemma_advance_bounds();
                lemma_first_match_leftmost(st.source, st.delimiter, st.cursor as int);
            }
            1 + occurrences(st.advance())
        },
        None => 0,
    }
}

/// The last occurrence that a greedy scan from the cursor finds ends exactly
/// where the text ends.
pub open spec fn ends_on_delimiter(st: ScanState) -> bool
    decreases st.source.len() - st.cursor,
    when st.wf() && st.delimiter.len() > 0
{
    match st.next_delimiter() {
        Some(_) => {
            proof {
                st.lemma_advance_bounds();
                lemma_first_match_leftmost(st.source, st.delimiter, st.cursor as int);
            }
            !st.advance().has_next() || ends_on_delimiter(st.advance())
        },
        None => false,
    }
}

/// The tokens written one after another with `d` between each two.
pub open spec fn join(parts: Seq<Seq<char>>, d: Seq<char>) -> Seq<char>
    decreases parts.len(),
{
    if parts.len() == 0 {
        Seq::empty()
    } else if parts.len() == 1 {
        parts[0]
    } else {
        parts[0] + d + join(parts.drop_first(), d)
    }
}

/// No token is produced exactly when no text is left.
pub proof fn lemma_tokens_empty(st: ScanState)
    requires
        st.wf(),
        st.delimiter.len() > 0,
    ensures
        tokens(st).len() == 0 <==> !st.has_next(),
{
}

/// Exhaustion is absorbing: with no text left the next token is empty and
/// taking it leaves the state as it is, so no text is left afterwards either.
pub proof fn law_exhausted_is_absorbing(st: ScanState)
    requires
        st.wf(),
        !st.has_next(),
    ensures
        st.next_token() == Seq::<char>::empty(),
        st.advance() == st,
        !st.advance().has_next(),
{
    st.lemma_advance_bounds();
    lemma_first_match_leftmost(st.source, st.delimiter, st.cursor as int);
    assert(st.next_token() =~= Seq::<char>::empty());
}

/// With an empty delimiter the search succeeds at the cursor itself: every
/// token is empty and the cursor never moves.
pub proof fn law_empty_delimiter_stalls(st: ScanState)
    requires
        st.wf(),
        st.delimiter.len() == 0,
    ensures
        st.next_token() == Seq::<char>::empty(),
        st.advance() == st,
{
    lemma_empty_delimiter_matches(st.source, st.delimiter, st.cursor as int);
    assert(st.next_token() =~= Seq::<char>::empty());
}

/// Token count in general: the tokens are one more than the occurrences of
/// the delimiter, except that an empty text, and a text whose last occurrence
/// ends it, give exactly as many tokens as occurrences.
pub proof fn law_token_count_exact(st: ScanState)
    requires
        st.wf(),
        st.delimiter.len() > 0,
    ensures
        tokens(st).len() == occurrences(st) + if st.has_next() && !ends_on_delimiter(st) {
            1nat
        } else {
            0nat
        },
    decreases st.source.len() - st.cursor,
{
    st.lemma_advance_bounds();
    lemma_first_match_leftmost(st.source, st.delimiter, st.cursor as int);
    if st.has_next() {
        law_token_count_exact(st.advance());
    }
}

/// Token count: a non-empty text that does not end on an occurrence of the
/// delimiter is cut into one more token than it has occurrences.
pub proof fn law_token_count(st: ScanState)
    requires
        st.wf(),
        st.delimiter.len() > 0,
        st.has_next(),
        !ends_on_delimiter(st),
    ensures
        tokens(st).len() == occurrences(st) + 1,
{
    law_token_count_exact(st);
}

/// Reconstruction in general: the tokens joined with the delimiter give back
/// the unconsumed text; where the text ends on an occurrence of the
/// delimiter, they give it back without that last occurrence.
pub proof fn law_reconstruction_exact(st: ScanState)
    requires
        st.wf(),
        st.delimiter.len() > 0,
    ensures
        !ends_on_delimiter(st) ==> join(tokens(st), st.delimiter) == st.remaining(),
        ends_on_delimiter(st) ==> join(tokens(st), st.delimiter) + st.delimiter
            == st.remaining(),
    decreases st.source.len() - st.cursor,
{
    let s = st.source;
    let d = st.delimiter;
    let c = st.cursor as int;
    let n = s.len() as int;
    st.lemma_advance_bounds();
    lemma_first_match_leftmost(s, d, c);
    if !st.has_next() {
        assert(st.remaining() =~= Seq::<char>::empty());
    } else {
        let next = st.advance();
        let rest = tokens(next);
        let all = tokens(st);
        law_reconstruction_exact(next);
        lemma_tokens_empty(next);
        assert(all.drop_first() =~= rest);
        assert(all[0] == st.next_token());
        match st.next_delimiter() {
            Some(p) => {
                assert(s.subrange(p, p + d.len()) == d);
                if rest.len() == 0 {
                    assert(s.subrange(c, p) + d =~= s.subrange(c, n));
                } else if ends_on_delimiter(next) {
                    assert(s.subrange(c, p) + d + join(rest, d) + d =~= s.subrange(c, p) + d + (
                    join(rest, d) + d));
                    assert(s.subrange(c, p) + d + s.subrange(p + d.len(), n) =~= s.subrange(c, n));
                } else {
                    assert(s.subrange(c, p) + d + s.subrange(p + d.len(), n) =~= s.subrange(c, n));
                }
            },
            None => {},
        }
    }
}

/// Reconstruction: for a text that does not end on an occurrence of the
/// delimiter, all the tokens of a fresh tokenizer joined with the delimiter
/// are the text again.
pub proof fn law_reconstruction(source: Seq<char>, delimiter: Seq<char>)
    requires
        delimiter.len() > 0,
        !ends_on_delimiter(ScanState::start(source, delimiter)),
    ensures
        join(tokens(ScanState::start(source, delimiter)), delimiter) == source,
{
    let st = ScanState::start(source, delimiter);
    law_reconstruction_exact(st);
    assert(st.remaining() =~= source);
}

/// Trimming an empty token gives an empty token.
pub proof fn law_trimmed_empty()
    ensures
        trimmed(Seq::<char>::empty()) == Seq::<char>::empty(),
{
}

} // verus!
