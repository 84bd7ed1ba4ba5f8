//! The algebraic hash over the base field.
//!
//! The hash consumes a sequence of base-field elements and emits a digest
//! that can be read either as a base-field element or, reduced modulo r, as
//! a scalar. The digest of a message is named by `poseidon_of`; the library
//! states nothing about its value beyond its canonical range, and all
//! derived quantities are functions of that name.

use vstd::prelude::*;

use crate::field::{fq_mod_r, r_val, Fq, Fr};
use starknet_ff::FieldElement;

verus! {

/// The values held by a sequence of base-field elements.
pub open spec fn vals(s: Seq<Fq>) -> Seq<nat> {
    s.map_values(|e: Fq| e@)
}

/// Mapping to values commutes with appending one element.
pub proof fn lemma_vals_push(s: Seq<Fq>, e: Fq)
    ensures
        vals(s.push(e)) =~= vals(s).push(e@),
{
    assert forall|j: int| 0 <= j < s.len() + 1 implies vals(s.push(e))[j] == vals(s).push(e@)[j] by {
        if j < s.len() {
            assert(s.push(e)[j] == s[j]);
        } else {
            assert(s.push(e)[j] == e);
        }
    }
}

/// The Poseidon digest of a message of base-field elements, as computed by
/// the outside sponge.
pub uninterp spec fn poseidon_of(msg: Seq<nat>) -> nat;

/// Relies on starknet_crypto::poseidon_hash_many: the Poseidon sponge over
/// the Stark field; its digest is a function of the message elements alone
/// and is returned in canonical range.
#[verifier::external_body]
fn poseidon_raw(msg: &Vec<Fq>) -> (r: Fq)
    requires
        forall|i: int| 0 <= i < msg@.len() ==> #[trigger] msg@[i].wf(),
    ensures
        r@ == poseidon_of(vals(msg@)),
        r.wf(),
{
    let fes: Vec<FieldElement> = msg.iter().map(
        |e| FieldElement::from_bytes_be(&e.b).unwrap(),
    ).collect();
    Fq { b: starknet_crypto::poseidon_hash_many(&fes).to_bytes_be() }
}

/// The hash engine: a Poseidon sponge over the base field.
pub struct PoseidonHash;

impl PoseidonHash {
    /// A fresh hash engine; the sponge is stateless between messages.
    pub fn new() -> (r: PoseidonHash) {
        PoseidonHash
    }

    /// Hash a message to a base-field element: the digest is canonical in Fq
    /// by construction.
    pub fn hash_to_base(&self, msg: &Vec<Fq>) -> (r: Fq)
        requires
            forall|i: int| 0 <= i < msg@.len() ==> #[trigger] msg@[i].wf(),
        ensures
            r@ == poseidon_of(vals(msg@)),
            r.wf(),
    {
        poseidon_raw(msg)
    }

    /// Hash a message to a scalar: the same digest, reduced modulo r.
    pub fn hash_to_scalar(&self, msg: &Vec<Fq>) -> (r: Fr)
        requires
            forall|i: int| 0 <= i < msg@.len() ==> #[trigger] msg@[i].wf(),
        ensures
            r@ == poseidon_of(vals(msg@)) % r_val(),
            r.wf(),
    {
        let d = poseidon_raw(msg);
        fq_mod_r(&d)
    }
}

} // verus!
