//! A lazy, forward-only string tokenizer.
//!
//! A [`StringTokenizer`] owns a source text and a literal delimiter and hands
//! out, one call at a time, the pieces of the source that lie between
//! successive occurrences of the delimiter.  Every operation is total and is
//! specified over the text as a sequence of characters.

pub mod scan;
pub mod trim;
pub mod tokenizer;
pub mod laws;

pub use tokenizer::ScanState;
pub use tokenizer::StringTokenizer;
