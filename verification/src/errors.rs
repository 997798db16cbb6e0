//! The pipeline's error kinds.  Every fallible step surfaces its error to the
//! caller at once: the run favours fail-fast correctness over partial
//! completion, since a partially duplicated world would pair identities and
//! subtrees inconsistently.

use vstd::prelude::*;

verus! {

/// What went wrong in a run.
#[derive(Clone, Copy, PartialEq, Eq, Structural, Debug)]
pub enum Error {
    /// The base store, or a referenced subtree path, is missing.
    NotFound,
    /// A payload tag lookup failed, or encoding or decoding against the
    /// declared schema failed.
    SchemaMismatch,
    /// An entity lacks a persistent identity where one is required.
    InvariantViolation,
    /// An underlying read or write failed.
    IoFailure,
}

} // verus!
