//! A verifiable random function over the Stark curve.
//!
//! The VRF follows the ECVRF construction with an algebraic (Poseidon) hash
//! and a Simplified SWU map to the curve: `prove` turns a secret scalar and
//! a seed of base-field elements into a proof (Gamma, c, s), `verify` checks
//! a proof against the public key, and `proof_to_hash` derives the
//! pseudorandom output beta from a valid proof. An auxiliary square-root
//! hint serves succinct verifiers that cannot take square roots natively.
//!
//! Field and group arithmetic is carried out by outside crates behind
//! trusted wrappers with exact modular contracts; everything built on top of
//! them - the SWU map, the message encodings with their domain-separation
//! tags, and the engine itself - is verified.

use vstd::prelude::*;

pub mod curve;
pub mod ecvrf;
pub mod error;
pub mod field;
pub mod hash;
pub mod swu;

verus! {

/// The VRF over the fixed Stark curve with the Poseidon hash engine.
pub type StarkVRF = crate::ecvrf::ECVRF;

/// The public key that corresponds to a secret scalar: PK = sk * G.
pub fn generate_public_key(secret: &crate::field::Fr) -> (r: crate::curve::AffinePt)
    requires
        secret.wf(),
    ensures
        r@ == crate::curve::pt_mul_of(secret@, crate::curve::gen_val()),
        r.wf(),
{
    crate::curve::StarkCurve::generator().mul(secret)
}

} // verus!
