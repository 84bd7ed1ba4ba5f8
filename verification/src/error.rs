//! The error taxonomy of the library.

use vstd::prelude::*;

verus! {

/// Every failure of the library maps to exactly one of these kinds.
#[derive(Clone, Copy, Debug, PartialEq, Eq, Structural)]
pub enum Error {
    /// A point or field element could not be decoded.
    SerializationError,
    /// The map to the curve failed.
    HashToCurveError,
    /// A proof did not verify: the recomputed challenge differs.
    ProofVerificationError,
    /// The caller's secret key does not correspond to the instance's public key.
    InvalidSecretKey,
}

} // verus!
