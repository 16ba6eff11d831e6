//! A small news-feed ingestion library: parsing raw syndication entries,
//! cleaning their text, resolving textual timestamps, deduplicating against a
//! stored corpus, and writing new records in bounded batches, together with an
//! in-memory feed store and its query operations.

pub mod batch;
pub mod dates;
pub mod dedupe;
pub mod model;
pub mod normalize;
pub mod pipeline;
pub mod store;
pub mod text;

use vstd::prelude::*;

verus! {

/// A character is an ASCII decimal digit.
pub open spec fn is_digit(c: char) -> bool {
    '0' <= c && c <= '9'
}

/// Numeric value of an ASCII decimal digit.
pub open spec fn digit_val(c: char) -> int {
    c as int - '0' as int
}

/// Executable digit test, equal to the spec-level one.
pub fn check_digit(c: char) -> (r: bool)
    ensures
        r == is_digit(c),
{
    '0' <= c && c <= '9'
}

} // verus!
