//! Literal substring search over character sequences.

use vstd::prelude::*;
use vstd::string::*;

verus! {

/// `d` occurs in `s` as a contiguous run that begins at index `i`.
pub open spec fn matches_at(s: Seq<char>, d: Seq<char>, i: int) -> bool {
    &&& 0 <= i
    &&& i + d.len() <= s.len()
    &&& s.subrange(i, i + d.len()) =~= d
}

/// The index of the leftmost occurrence of `d` in `s` that begins at or after
/// `from`, if there is one.
pub open spec fn first_match(s: Seq<char>, d: Seq<char>, from: int) -> Option<int>
    decreases s.len() - from,
{
    if from < 0 || from + d.len() > s.len() {
        None
    } else if matches_at(s, d, from) {
        Some(from)
    } else {
        first_match(s, d, from + 1)
    }
}

/// `first_match` finds an occurrence, and no occurrence lies between `from`
/// and the one it finds; where it finds none, there is none at or after `from`.
pub proof fn lemma_first_match_leftmost(s: Seq<char>, d: Seq<char>, from: int)
    requires
        0 <= from,
    ensures
        match first_match(s, d, from) {
            Some(p) => {
                &&& from <= p
                &&& matches_at(s, d, p)
                &&& forall|j: int| from <= j < p ==> !matches_at(s, d, j)
            },
            None => forall|j: int| from <= j ==> !matches_at(s, d, j),
        },
    decreases s.len() - from,
{
    if from + d.len() > s.len() {
    } else if matches_at(s, d, from) {
    } else {
        lemma_first_match_leftmost(s, d, from + 1);
    }
}

/// Any index that is a leftmost occurrence at or after `from` is the one that
/// `first_match` returns.
pub proof fn lemma_leftmost_is_first_match(s: Seq<char>, d: Seq<char>, from: int, p: int)
    requires
        0 <= from <= p,
        matches_at(s, d, p),
        forall|j: int| from <= j < p ==> !matches_at(s, d, j),
    ensures
        first_match(s, d, from) == Some(p),
{
    lemma_first_match_leftmost(s, d, from);
}

/// An empty delimiter occurs at every position of the text, the end included.
pub proof fn lemma_empty_delimiter_matches(s: Seq<char>, d: Seq<char>, from: int)
    requires
        d.len() == 0,
        0 <= from <= s.len(),
    ensures
        first_match(s, d, from) == Some(from),
{
}

/// Reads the characters of `s` into a vector, the form in which texts are
/// searched and trimmed.
pub fn decode(s: &str) -> (chars: Vec<char>)
    ensures
        chars@ == s@,
{
    let mut chars: Vec<char> = Vec::new();
    for c in it: s.chars()
        invariant
            it.seq() == s@,
            chars@ == it.seq().take(it.index()),
    {
        chars.push(c);
    }
    chars
}

/// Tells whether `d` occurs in `s` at index `i`.
pub fn occurs_at(s: &[char], d: &[char], i: usize) -> (found: bool)
    ensures
        found == matches_at(s@, d@, i as int),
{
    let n: usize = s.len();
    let m: usize = d.len();
    if m > n || i > n - m {
        return false;
    }
    let mut k: usize = 0;
    while k < m
        invariant
            n == s@.len(),
            m == d@.len(),
            i + m <= n,
            k <= m,
            forall|j: int| 0 <= j < k ==> s@[i + j] == d@[j],
        decreases m - k,
    {
        if s[i + k] != d[k] {
            proof {
                assert(s@.subrange(i as int, i + m)[k as int] == s@[i + k]);
            }
            return false;
        }
        k += 1;
    }
    true
}

/// Searches `s` from index `from` onwards for the leftmost occurrence of `d`.
pub fn find_from(s: &[char], d: &[char], from: usize) -> (found: Option<usize>)
    ensures
        match found {
            Some(p) => first_match(s@, d@, from as int) == Some(p as int),
            None => first_match(s@, d@, from as int) is None,
        },
{
    let n: usize = s.len();
    let m: usize = d.len();
    if m > n || from > n - m {
        return None;
    }
    let last: usize = n - m;
    let mut i: usize = from;
    while i <= last
        invariant
            n == s@.len(),
            m == d@.len(),
            last == n - m,
            from <= i <= last + 1,
            first_match(s@, d@, from as int) == first_match(s@, d@, i as int),
        decreases last + 1 - i,
    {
        if occurs_at(s, d, i) {
            return Some(i);
        }
        i += 1;
    }
    None
}

} // verus!
