//! The errors of polling and fetching.
use vstd::prelude::*;

verus! {

/// Every error leaves consumer-owned checkpoints untouched.
#[derive(Clone, Copy, Debug, PartialEq, Eq)]
pub enum Error {
    /// Missing coverage, inconsistent hashes, or malformed ancestry.
    InvalidData(&'static str),
    /// Catch-up/reorg exceeds the configured number of ancestry steps.
    AncestryLimit(usize),
    /// A finalized head would replace already processed state.
    FinalityViolation,
}

} // verus!
