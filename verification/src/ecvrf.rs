//! The ECVRF engine: prove, verify, proof-to-hash, and nonce derivation.
//!
//! Hash inputs are domain-separated by a small tag prepended in the base
//! field: 1 for hash-to-curve, 2 for the challenge, 3 for proof-to-hash; the
//! challenge and proof-to-hash messages also carry a trailing 0. The tags
//! are part of the wire-compatible definition and are fixed by the message
//! spec functions below.

use vstd::prelude::*;

use crate::curve::{gen_val, neg_val, AffinePt, PointVal, StarkCurve};
use crate::error::Error;
use crate::field::{mulq, q_val, r_val, sqrt_of, Fq, Fr};
use crate::hash::{lemma_vals_push, poseidon_of, vals, PoseidonHash};
use crate::swu::{
    map_to_curve, swu_good, swu_gx1, swu_gx1_square, swu_point, swu_ok,
};

verus! {

/// A proof: the point Gamma and the scalars c and s.
pub type Proof = (AffinePt, Fr, Fr);

/// All three parts of a proof are well-formed: Gamma is on the curve and
/// the scalars are canonical.
pub open spec fn proof_wf(p: Proof) -> bool {
    p.0.wf() && p.1.wf() && p.2.wf()
}

/// All elements of a message are well-formed.
pub open spec fn all_wf(s: Seq<Fq>) -> bool {
    forall|i: int| 0 <= i < s.len() ==> #[trigger] s[i].wf()
}

/// The hash-to-curve message: the public key, the tag 1, then the seed.
/// The public-key prefix binds the hash to one VRF instance; the tag
/// separates it from the challenge (2) and proof-to-hash (3) domains.
pub open spec fn htc_msg(pk: PointVal, seed: Seq<nat>) -> Seq<nat> {
    seq![pk.x, pk.y, 1nat] + seed
}

/// The field element hashed from the seed under this instance's key.
pub open spec fn htc_u(pk: PointVal, seed: Seq<nat>) -> nat {
    poseidon_of(htc_msg(pk, seed))
}

/// The curve point that the seed hashes to.
pub open spec fn htc_point(pk: PointVal, seed: Seq<nat>) -> PointVal {
    swu_point(htc_u(pk, seed))
}

/// The hash-to-curve step succeeds on this input.
pub open spec fn htc_ok(pk: PointVal, seed: Seq<nat>) -> bool {
    swu_good(htc_u(pk, seed))
}

/// The nonce message: the point obtained by mapping the secret key through
/// the SWU map, then the seed.
pub open spec fn nonce_msg(n: PointVal, seed: Seq<nat>) -> Seq<nat> {
    seq![n.x, n.y] + seed
}

/// The deterministic nonce: a scalar derived from the secret key and the
/// seed alone.
pub open spec fn nonce_of(sk: nat, seed: Seq<nat>) -> nat {
    poseidon_of(nonce_msg(swu_point(sk), seed)) % r_val()
}

/// The challenge message: the tag 2, the coordinates of the five points,
/// and a trailing 0.
pub open spec fn challenge_msg(
    pk: PointVal,
    h: PointVal,
    gamma: PointVal,
    u: PointVal,
    v: PointVal,
) -> Seq<nat> {
    seq![
        2nat, pk.x, pk.y, h.x, h.y, gamma.x, gamma.y, u.x, u.y, v.x, v.y, 0nat,
    ]
}

/// The challenge scalar.
pub open spec fn challenge_of(
    pk: PointVal,
    h: PointVal,
    gamma: PointVal,
    u: PointVal,
    v: PointVal,
) -> nat {
    poseidon_of(challenge_msg(pk, h, gamma, u, v)) % r_val()
}

/// The proof-to-hash message: the tag 3, Gamma, and a trailing 0.
pub open spec fn beta_msg(gamma: PointVal) -> Seq<nat> {
    seq![3nat, gamma.x, gamma.y, 0nat]
}

/// The VRF output derived from a proof.
pub open spec fn beta_of(gamma: PointVal) -> nat {
    poseidon_of(beta_msg(gamma))
}

/// The point Gamma of an honest proof.
pub open spec fn prove_gamma(pk: PointVal, sk: nat, seed: Seq<nat>) -> PointVal {
    crate::curve::pt_mul_of(sk, htc_point(pk, seed))
}

/// The challenge of an honest proof.
pub open spec fn prove_c(pk: PointVal, sk: nat, seed: Seq<nat>) -> nat {
    challenge_of(
        pk,
        htc_point(pk, seed),
        prove_gamma(pk, sk, seed),
        crate::curve::pt_mul_of(nonce_of(sk, seed), gen_val()),
        crate::curve::pt_mul_of(nonce_of(sk, seed), htc_point(pk, seed)),
    )
}

/// The response scalar of an honest proof: s = k + c * sk in Fr.
pub open spec fn prove_s(pk: PointVal, sk: nat, seed: Seq<nat>) -> nat {
    (nonce_of(sk, seed) + (prove_c(pk, sk, seed) * sk) % r_val()) % r_val()
}

/// The point U = s*G - c*PK recomputed by the verifier.
pub open spec fn verify_u(pk: PointVal, c: nat, s: nat) -> PointVal {
    crate::curve::pt_add_of(
        crate::curve::pt_mul_of(s, gen_val()),
        neg_val(crate::curve::pt_mul_of(c, pk)),
    )
}

/// The point V = s*H - c*Gamma recomputed by the verifier.
pub open spec fn verify_v(h: PointVal, gamma: PointVal, c: nat, s: nat) -> PointVal {
    crate::curve::pt_add_of(
        crate::curve::pt_mul_of(s, h),
        neg_val(crate::curve::pt_mul_of(c, gamma)),
    )
}

/// The challenge the verifier recomputes for a proof.
pub open spec fn verify_c(pk: PointVal, gamma: PointVal, c: nat, s: nat, seed: Seq<nat>) -> nat {
    challenge_of(
        pk,
        htc_point(pk, seed),
        gamma,
        verify_u(pk, c, s),
        verify_v(htc_point(pk, seed), gamma, c, s),
    )
}

/// The VRF instance: it owns the public key and a hash engine, and is
/// immutable after construction.
pub struct ECVRF {
    public_key: AffinePt,
    hasher: PoseidonHash,
}

impl View for ECVRF {
    type V = PointVal;

    closed spec fn view(&self) -> PointVal {
        self.public_key@
    }
}

impl ECVRF {
    /// The stored public key is a well-formed curve point.
    pub closed spec fn wf(&self) -> bool {
        self.public_key.wf()
    }

    /// Build an instance for a public key. The map-to-curve parameters of
    /// the fixed Stark curve are valid, so construction never fails; the
    /// fallible signature is kept for callers that treat construction as
    /// fallible.
    pub fn new(public_key: AffinePt) -> (r: Result<ECVRF, Error>)
        requires
            public_key.wf(),
        ensures
            r is Ok,
            r matches Ok(v) ==> v@ == public_key@ && v.wf(),
    {
        Ok(ECVRF { public_key, hasher: PoseidonHash::new() })
    }

    /// The field element that the seed hashes to under this instance.
    fn htc_u_exec(&self, seed: &Vec<Fq>) -> (r: Fq)
        requires
            self.wf(),
            all_wf(seed@),
        ensures
            r@ == htc_u(self@, vals(seed@)),
            r.wf(),
    {
        let mut buf: Vec<Fq> = Vec::new();
        buf.push(self.public_key.x);
        buf.push(self.public_key.y);
        buf.push(Fq::one());
        push_all(&mut buf, seed);
        proof {
            assert(vals(buf@) =~= htc_msg(self@, vals(seed@)));
        }
        self.hasher.hash_to_base(&buf)
    }

    /// Hash the seed to a curve point: H = SWU(hash_to_base(PK, 1, seed)).
    fn hash_to_curve(&self, message: &Vec<Fq>) -> (r: Result<AffinePt, Error>)
        requires
            self.wf(),
            all_wf(message@),
        ensures
            r is Ok <==> htc_ok(self@, vals(message@)),
            r matches Ok(p) ==> p@ == htc_point(self@, vals(message@)) && p.wf(),
            r matches Err(e) ==> e == Error::HashToCurveError,
    {
        let t = self.htc_u_exec(message);
        map_to_curve(&t)
    }

    /// The challenge scalar over a list of points: tag 2, the coordinates,
    /// and a trailing 0.
    fn hash_points(&self, points: &Vec<AffinePt>) -> (r: Fr)
        requires
            forall|i: int|
                0 <= i < points@.len() ==> (#[trigger] points@[i]).x.wf() && points@[i].y.wf(),
        ensures
            r@ == poseidon_of(seq![2nat] + flat_vals(points@.map_values(|p: AffinePt| p@))
                + seq![0nat]) % r_val(),
            r.wf(),
    {
        let mut buf: Vec<Fq> = Vec::new();
        buf.push(Fq::small(2));
        let mut i: usize = 0;
        while i < points.len()
            invariant
                0 <= i <= points@.len(),
                forall|j: int|
                    0 <= j < points@.len() ==> (#[trigger] points@[j]).x.wf()
                        && points@[j].y.wf(),
                all_wf(buf@),
                vals(buf@) =~= seq![2nat] + flat_vals(
                    points@.subrange(0, i as int).map_values(|p: AffinePt| p@),
                ),
            decreases points@.len() - i,
        {
            let ghost prev = buf@;
            let ghost j = i as int;
            buf.push(points[i].x);
            let ghost mid = buf@;
            buf.push(points[i].y);
            i += 1;
            proof {
                lemma_vals_push(prev, points@[j].x);
                lemma_vals_push(mid, points@[j].y);
                let pv = points@.subrange(0, j + 1).map_values(|p: AffinePt| p@);
                assert(pv.drop_last() =~= points@.subrange(0, j).map_values(|p: AffinePt| p@));
                assert(pv.last() == points@[j]@);
                assert(flat_vals(pv) == flat_vals(pv.drop_last()) + seq![pv.last().x, pv.last().y]);
                assert(vals(buf@) =~= seq![2nat] + flat_vals(pv));
            }
        }
        buf.push(Fq::zero());
        proof {
            assert(points@.subrange(0, points@.len() as int) =~= points@);
            assert(vals(buf@) =~= seq![2nat] + flat_vals(points@.map_values(|p: AffinePt| p@))
                + seq![0nat]);
        }
        self.hasher.hash_to_scalar(&buf)
    }

    /// The deterministic nonce: the secret key, read as a base-field
    /// element, is mapped through the SWU map, and the resulting point and
    /// the seed are hashed to a scalar.
    pub fn nonce(&self, secret_key: &Fr, seed: &Vec<Fq>) -> (r: Result<Fr, Error>)
        requires
            self.wf(),
            secret_key.wf(),
            all_wf(seed@),
        ensures
            r is Ok <==> swu_good(secret_key@),
            r matches Ok(k) ==> k@ == nonce_of(secret_key@, vals(seed@)) && k.wf(),
            r matches Err(e) ==> e == Error::HashToCurveError,
    {
        let base_sk = secret_key.to_base();
        let n = match map_to_curve(&base_sk) {
            Ok(p) => p,
            Err(e) => { return Err(e); },
        };
        let mut buf: Vec<Fq> = Vec::new();
        buf.push(n.x);
        buf.push(n.y);
        push_all(&mut buf, seed);
        proof {
            assert(vals(buf@) =~= nonce_msg(swu_point(secret_key@), vals(seed@)));
        }
        Ok(self.hasher.hash_to_scalar(&buf))
    }

    /// Produce a proof (Gamma, c, s) for a seed.
    ///
    /// Fails with `InvalidSecretKey` exactly when the secret key does not
    /// generate this instance's public key; fails with `HashToCurveError`
    /// exactly when one of the two SWU evaluations finds no square root,
    /// which no input reaches in practice.
    pub fn prove(&self, secret_key: &Fr, seed: &Vec<Fq>) -> (r: Result<Proof, Error>)
        requires
            self.wf(),
            secret_key.wf(),
            all_wf(seed@),
        ensures
            match r {
                Ok(p) => crate::curve::pt_mul_of(secret_key@, gen_val()) == self@ && htc_ok(
                    self@,
                    vals(seed@),
                ) && swu_good(secret_key@) && proof_wf(p) && p.0@ == prove_gamma(
                    self@,
                    secret_key@,
                    vals(seed@),
                ) && p.1@ == prove_c(self@, secret_key@, vals(seed@)) && p.2@ == prove_s(
                    self@,
                    secret_key@,
                    vals(seed@),
                ),
                Err(Error::InvalidSecretKey) => crate::curve::pt_mul_of(secret_key@, gen_val())
                    != self@,
                Err(Error::HashToCurveError) => crate::curve::pt_mul_of(secret_key@, gen_val())
                    == self@ && !(htc_ok(self@, vals(seed@)) && swu_good(secret_key@)),
                _ => false,
            },
    {
        let g = StarkCurve::generator();
        let pk_from_secret = g.mul(secret_key);
        if !self.public_key.equals(&pk_from_secret) {
            return Err(Error::InvalidSecretKey);
        }

        let h = match self.hash_to_curve(seed) {
            Ok(p) => p,
            Err(e) => { return Err(e); },
        };
        let gamma = h.mul(secret_key);
        let k = match self.nonce(secret_key, seed) {
            Ok(k) => k,
            Err(e) => { return Err(e); },
        };
        let kg = g.mul(&k);
        let kh = h.mul(&k);

        let mut points: Vec<AffinePt> = Vec::new();
        points.push(self.public_key);
        points.push(h);
        points.push(gamma);
        points.push(kg);
        points.push(kh);
        let c = self.hash_points(&points);
        proof {
            lemma_five_points(points@.map_values(|p: AffinePt| p@));
            assert(points@.map_values(|p: AffinePt| p@) =~= seq![
                self@, h@, gamma@, kg@, kh@,
            ]);
        }
        let s = k.add(&c.mul(secret_key));
        Ok((gamma, c, s))
    }

    /// Check a proof against a seed.
    ///
    /// Accepts exactly when the proof's challenge equals the challenge
    /// recomputed from U = s*G - c*PK and V = s*H - c*Gamma; rejects with
    /// `ProofVerificationError` otherwise.
    pub fn verify(&self, proof: &Proof, seed: &Vec<Fq>) -> (r: Result<(), Error>)
        requires
            self.wf(),
            proof_wf(*proof),
            all_wf(seed@),
        ensures
            match r {
                Ok(()) => htc_ok(self@, vals(seed@)) && proof.1@ == verify_c(
                    self@,
                    proof.0@,
                    proof.1@,
                    proof.2@,
                    vals(seed@),
                ),
                Err(Error::ProofVerificationError) => htc_ok(self@, vals(seed@)) && proof.1@
                    != verify_c(self@, proof.0@, proof.1@, proof.2@, vals(seed@)),
                Err(Error::HashToCurveError) => !htc_ok(self@, vals(seed@)),
                _ => false,
            },
    {
        let pk = self.public_key;
        let (gamma, c, s) = proof;

        let h = match self.hash_to_curve(seed) {
            Ok(p) => p,
            Err(e) => { return Err(e); },
        };
        let g = StarkCurve::generator();
        let u = g.mul(s).sub(&pk.mul(c));
        let v = h.mul(s).sub(&gamma.mul(c));

        let mut points: Vec<AffinePt> = Vec::new();
        points.push(pk);
        points.push(h);
        points.push(*gamma);
        points.push(u);
        points.push(v);
        let c_prim = self.hash_points(&points);
        proof {
            lemma_five_points(points@.map_values(|p: AffinePt| p@));
            assert(points@.map_values(|p: AffinePt| p@) =~= seq![
                self@, h@, gamma@, u@, v@,
            ]);
        }
        if c.equals(&c_prim) {
            Ok(())
        } else {
            Err(Error::ProofVerificationError)
        }
    }

    /// Derive the pseudorandom output beta from a proof.
    ///
    /// The cofactor of the curve is 1, so the defensive check that
    /// cofactor * Gamma equals Gamma is discharged statically: the scalar
    /// multiple by one is proved equal to Gamma, and the contract records
    /// that fact.
    pub fn proof_to_hash(&self, proof: &Proof) -> (r: Result<Fq, Error>)
        requires
            proof_wf(*proof),
        ensures
            r is Ok,
            r matches Ok(b) ==> b@ == beta_of(proof.0@) && b.wf(),
            crate::curve::pt_mul_of(1, proof.0@) == proof.0@,
    {
        let cofactor_gamma = proof.0.mul(&Fr::one());
        assert(cofactor_gamma@ == proof.0@);

        let mut buf: Vec<Fq> = Vec::new();
        buf.push(Fq::small(3));
        buf.push(proof.0.x);
        buf.push(proof.0.y);
        buf.push(Fq::zero());
        proof {
            assert(vals(buf@) =~= beta_msg(proof.0@));
        }
        Ok(self.hasher.hash_to_base(&buf))
    }

    /// The auxiliary square-root hint for succinct verifiers: the square
    /// root of g(x1) when it is a square, and of ZETA * g(x1) otherwise,
    /// for the same hashed input as the real map. The branch follows the
    /// Legendre classification of g(x1). If neither candidate is a square,
    /// which no input reaches, zero is returned.
    pub fn hash_to_sqrt_ratio_hint(&self, message: &Vec<Fq>) -> (r: Fq)
        requires
            self.wf(),
            all_wf(message@),
        ensures
            swu_gx1_square(htc_u(self@, vals(message@))) ==> r@ == sqrt_of(
                swu_gx1(htc_u(self@, vals(message@))),
            ) && mulq(r@, r@) == swu_gx1(htc_u(self@, vals(message@))),
            !swu_gx1_square(htc_u(self@, vals(message@))) && crate::field::is_square(
                mulq(crate::curve::zeta_val(), swu_gx1(htc_u(self@, vals(message@)))),
            ) ==> r@ == sqrt_of(mulq(crate::curve::zeta_val(), swu_gx1(htc_u(self@, vals(message@)))))
                && mulq(r@, r@) == mulq(
                crate::curve::zeta_val(),
                swu_gx1(htc_u(self@, vals(message@))),
            ),
            !swu_ok(htc_u(self@, vals(message@))) ==> r@ == 0,
            r.wf(),
    {
        let u = self.htc_u_exec(message);

        let a = StarkCurve::coeff_a();
        let b = StarkCurve::coeff_b();
        let z = StarkCurve::zeta();

        let tv1 = z.mul(&u.mul(&u));
        let tv2 = tv1.mul(&tv1).add(&tv1);
        let tv3 = b.mul(&tv2.add(&Fq::one()));
        let tv4 = if tv2.is_zero() {
            a.mul(&z)
        } else {
            a.mul(&tv2.neg())
        };
        proof {
            crate::field::lemma_moduli();
            if tv2@ != 0 {
                vstd::arithmetic::div_mod::lemma_small_mod(tv2@, q_val());
                vstd::arithmetic::div_mod::lemma_small_mod((q_val() - tv2@) as nat, q_val());
            }
        }
        assert(tv4@ != 0);
        let tv2b = tv3.mul(&tv3);
        let tv6 = tv4.mul(&tv4);
        let tv5 = a.mul(&tv6);
        let tv2c = tv2b.add(&tv5);
        let tv2d = tv2c.mul(&tv3);
        let tv6b = tv6.mul(&tv4);
        let tv5b = b.mul(&tv6b);
        let tv2e = tv2d.add(&tv5b);

        let tv6_inv = match tv6b.inverse() {
            Some(v) => v,
            None => {
                proof {
                    assert(false);
                }
                return Fq::zero();
            },
        };
        let gx1 = tv2e.mul(&tv6_inv);
        match gx1.legendre() {
            crate::field::Legendre::QuadraticResidue => {
                match gx1.sqrt() {
                    Some(s) => s,
                    None => {
                        proof {
                            assert(false);
                        }
                        Fq::zero()
                    },
                }
            },
            _ => {
                let zeta_gx1 = z.mul(&gx1);
                match zeta_gx1.sqrt() {
                    Some(s) => s,
                    None => Fq::zero(),
                }
            },
        }
    }
}

/// The domain-separation tags are fixed: the hash-to-curve message carries
/// the tag 1 after the public key, the challenge message opens with 2 and
/// closes with 0, and the proof-to-hash message opens with 3 and closes
/// with 0. Swapping any two of the tags changes the corresponding message.
pub proof fn lemma_tags(
    pk: PointVal,
    h: PointVal,
    gamma: PointVal,
    u: PointVal,
    v: PointVal,
    seed: Seq<nat>,
)
    ensures
        htc_msg(pk, seed)[0] == pk.x,
        htc_msg(pk, seed)[1] == pk.y,
        htc_msg(pk, seed)[2] == 1,
        challenge_msg(pk, h, gamma, u, v)[0] == 2,
        challenge_msg(pk, h, gamma, u, v).last() == 0,
        beta_msg(gamma)[0] == 3,
        beta_msg(gamma).last() == 0,
{
}

/// Domain separation by the public key: for one seed, two instances whose
/// keys differ in a coordinate feed different messages to the hash. That
/// the hashed points themselves differ is a collision-resistance property
/// of the hash and is exercised by tests, not stated here.
pub proof fn lemma_htc_domain_separation(pk1: PointVal, pk2: PointVal, seed: Seq<nat>)
    requires
        pk1.x != pk2.x || pk1.y != pk2.y,
    ensures
        htc_msg(pk1, seed) != htc_msg(pk2, seed),
{
    if pk1.x != pk2.x {
        assert(htc_msg(pk1, seed)[0] == pk1.x && htc_msg(pk2, seed)[0] == pk2.x);
    } else {
        assert(htc_msg(pk1, seed)[1] == pk1.y && htc_msg(pk2, seed)[1] == pk2.y);
    }
}

/// Determinism of the output: beta is a function of Gamma alone, and the
/// Gamma of an honest proof is a function of the instance, the key, and
/// the seed, so equal inputs give equal outputs. That different seeds give
/// different outputs is a collision-resistance property of the hash and is
/// exercised by tests.
pub proof fn lemma_output_deterministic(
    pk: PointVal,
    sk: nat,
    seed: Seq<nat>,
    g1: PointVal,
    g2: PointVal,
)
    requires
        g1 == prove_gamma(pk, sk, seed),
        g2 == prove_gamma(pk, sk, seed),
    ensures
        beta_of(g1) == beta_of(g2),
{
}

/// The coordinates of a list of points, flattened in order.
pub open spec fn flat_vals(s: Seq<PointVal>) -> Seq<nat>
    decreases s.len(),
{
    if s.len() == 0 {
        Seq::empty()
    } else {
        flat_vals(s.drop_last()) + seq![s.last().x, s.last().y]
    }
}

/// The flattened coordinates of five points, written out.
proof fn lemma_five_points(s: Seq<PointVal>)
    requires
        s.len() == 5,
    ensures
        seq![2nat] + flat_vals(s) + seq![0nat] =~= challenge_msg(s[0], s[1], s[2], s[3], s[4]),
{
    let s4 = s.subrange(0, 4);
    let s3 = s.subrange(0, 3);
    let s2 = s.subrange(0, 2);
    let s1 = s.subrange(0, 1);
    let s0 = s.subrange(0, 0);
    assert(s.drop_last() =~= s4);
    assert(s4.drop_last() =~= s3);
    assert(s3.drop_last() =~= s2);
    assert(s2.drop_last() =~= s1);
    assert(s1.drop_last() =~= s0);
    assert(flat_vals(s0) =~= Seq::<nat>::empty());
    assert(flat_vals(s1) == flat_vals(s0) + seq![s[0].x, s[0].y]);
    assert(flat_vals(s2) == flat_vals(s1) + seq![s[1].x, s[1].y]);
    assert(flat_vals(s3) == flat_vals(s2) + seq![s[2].x, s[2].y]);
    assert(flat_vals(s4) == flat_vals(s3) + seq![s[3].x, s[3].y]);
    assert(flat_vals(s) == flat_vals(s4) + seq![s[4].x, s[4].y]);
}

/// Append the elements of one message to another.
fn push_all(buf: &mut Vec<Fq>, extra: &Vec<Fq>)
    requires
        all_wf(old(buf)@),
        all_wf(extra@),
    ensures
        vals(final(buf)@) == vals(old(buf)@) + vals(extra@),
        all_wf(final(buf)@),
{
    let mut i: usize = 0;
    while i < extra.len()
        invariant
            0 <= i <= extra@.len(),
            all_wf(buf@),
            all_wf(extra@),
            vals(buf@) =~= vals(old(buf)@) + vals(extra@.subrange(0, i as int)),
        decreases extra@.len() - i,
    {
        let ghost prev = buf@;
        let ghost j = i as int;
        buf.push(extra[i]);
        i += 1;
        proof {
            lemma_vals_push(prev, extra@[j]);
            assert(extra@.subrange(0, j + 1) =~= extra@.subrange(0, j).push(extra@[j]));
            lemma_vals_push(extra@.subrange(0, j), extra@[j]);
            assert(vals(buf@) =~= vals(old(buf)@) + vals(extra@.subrange(0, i as int)));
        }
    }
    proof {
        assert(extra@.subrange(0, extra@.len() as int) =~= extra@);
    }
}

} // verus!
