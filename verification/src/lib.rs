//! Answer-synthesis pipeline for a code-search service.
//!
//! Given a set of scored code passages returned by a search backend, the
//! library groups them by file, removes overlapping passages per file,
//! ranks and truncates the survivors, validates the index picked by an
//! external relevance selector, grows the chosen passage's byte window
//! under a token budget, computes the explanation completion budget, and
//! assembles the final answer payload.  All transport, I/O and external
//! service calls live with the embedding application; this crate holds the
//! decisions and the algorithms.

use vstd::prelude::*;

pub mod assemble;
pub mod decode;
pub mod error;
pub mod explain;
pub mod grow;
pub mod group;
pub mod overlap;
pub mod pipeline;
pub mod rank;
pub mod select;
pub mod snippet;
pub mod sorting;
pub mod textnum;

verus! {

/// Fixed size of the ranked shortlist handed to the relevance selector.
pub const SNIPPET_COUNT: usize = 15;

/// Default for the request's `limit` parameter when the caller leaves it out.
pub fn default_limit() -> (r: u64)
    ensures
        r == 10u64,
{
    10
}

} // verus!
