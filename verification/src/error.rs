//! Session-fatal errors of the reduction engine.
//!
//! Every error aborts the whole proving session: a partial proof has no
//! value. The variants distinguish caller misuse (a bad claim) from internal
//! inconsistency (a registry or witness mismatch).

use vstd::prelude::*;

verus! {

/// Why a proving session was aborted.
#[derive(Clone, Copy, Debug, PartialEq, Eq, Structural)]
pub enum Error {
    /// A claim's polynomial reference or point dimensionality is
    /// inconsistent with the oracle registry.
    MalformedClaim { oracle_id: usize },
    /// A virtual polynomial's declared composition does not match the
    /// witness data backing it.
    CompositionMismatch { oracle_id: usize },
    /// A proof artifact could not be written to the transcript.
    SerializationFailure,
    /// The greedy loop ran longer than the registry's declared composition
    /// depth: the oracle set is cyclic or misconfigured.
    ReductionDepthExceeded,
}

} // verus!
