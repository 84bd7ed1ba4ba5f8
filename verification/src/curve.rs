//! The Stark curve: a short-Weierstrass curve y^2 = x^3 + A*x + B over Fq
//! with A = 1, cofactor 1, and a fixed generator.
//!
//! Points are affine coordinates with an infinity flag. Group operations are
//! delegated to an outside crate through trusted wrappers; their results are
//! named by uninterpreted spec functions, and membership of the curve is
//! stated exactly by `on_curve`.

use vstd::prelude::*;
use vstd::string::StringSliceAdditionalSpecFns;

use crate::error::Error;
use crate::field::{
    addq, be_nat, chars_of, dec_repr, dec_val, is_dec_digits, lemma_be_nat_lt, lemma_moduli,
    mulq, q_seq, q_val, Fq, Fr,
};
use starknet_curve::AffinePoint;
use starknet_ff::FieldElement;

verus! {

/// The mathematical value of a point: affine coordinates and an infinity
/// flag.
pub struct PointVal {
    pub x: nat,
    pub y: nat,
    pub inf: bool,
}

/// The curve equation, on canonical values.
pub open spec fn on_curve_xy(x: nat, y: nat) -> bool {
    mulq(y, y) == addq(addq(mulq(mulq(x, x), x), x), b_val())
}

/// A point value is on the curve: it is the identity or satisfies the curve
/// equation. Since the cofactor is 1, every such point is in the prime-order
/// subgroup.
pub open spec fn on_curve(p: PointVal) -> bool {
    p.inf || on_curve_xy(p.x, p.y)
}

/// Bytes of the curve coefficient
/// B = 3141592653589793238462643383279502884197169399375105820974944592307816406665.
pub open spec fn b_seq() -> Seq<u8> {
    seq![
        0x06u8, 0xf2, 0x14, 0x13, 0xef, 0xbe, 0x40, 0xde, 0x15, 0x0e, 0x59, 0x6d, 0x72, 0xf7,
        0xa8, 0xc5, 0x60, 0x9a, 0xd2, 0x6c, 0x15, 0xc9, 0x15, 0xc1, 0xf4, 0xcd, 0xfc, 0xb9,
        0x9c, 0xee, 0x9e, 0x89,
    ]
}

/// The curve coefficient B.
pub open spec fn b_val() -> nat {
    be_nat(b_seq())
}

/// The curve coefficient A.
pub open spec fn a_val() -> nat {
    1
}

/// The non-residue used by the Simplified SWU map.
pub open spec fn zeta_val() -> nat {
    19
}

/// Bytes of the generator abscissa
/// G.x = 874739451078007766457464989774322083649278607533249481151382481072868806602.
pub open spec fn gx_seq() -> Seq<u8> {
    seq![
        0x01u8, 0xef, 0x15, 0xc1, 0x85, 0x99, 0x97, 0x1b, 0x7b, 0xec, 0xed, 0x41, 0x5a, 0x40,
        0xf0, 0xc7, 0xde, 0xac, 0xfd, 0x9b, 0x0d, 0x18, 0x19, 0xe0, 0x3d, 0x72, 0x3d, 0x8b,
        0xc9, 0x43, 0xcf, 0xca,
    ]
}

/// Bytes of the generator ordinate
/// G.y = 152666792071518830868575557812948353041420400780739481342941381225525861407.
pub open spec fn gy_seq() -> Seq<u8> {
    seq![
        0x00u8, 0x56, 0x68, 0x06, 0x0a, 0xa4, 0x97, 0x30, 0xb7, 0xbe, 0x48, 0x01, 0xdf, 0x46,
        0xec, 0x62, 0xde, 0x53, 0xec, 0xd1, 0x1a, 0xbe, 0x43, 0xa3, 0x28, 0x73, 0x00, 0x0c,
        0x36, 0xe8, 0xdc, 0x1f,
    ]
}

/// The value of the fixed generator G.
pub open spec fn gen_val() -> PointVal {
    PointVal { x: be_nat(gx_seq()), y: be_nat(gy_seq()), inf: false }
}

/// An affine point of the curve.
#[derive(Clone, Copy, Debug)]
pub struct AffinePt {
    pub x: Fq,
    pub y: Fq,
    pub infinity: bool,
}

impl View for AffinePt {
    type V = PointVal;

    open spec fn view(&self) -> PointVal {
        PointVal { x: self.x@, y: self.y@, inf: self.infinity }
    }
}

impl AffinePt {
    /// Coordinates are canonical, the point is on the curve or the
    /// identity, and the identity is stored in its canonical form with
    /// zero coordinates.
    pub open spec fn wf(&self) -> bool {
        self.x.wf() && self.y.wf() && on_curve(self@) && (self@.inf ==> self@.x == 0 && self@.y
            == 0)
    }

    /// The identity element of the group.
    pub fn identity() -> (r: AffinePt)
        ensures
            r@.inf,
            r.wf(),
    {
        AffinePt { x: Fq::zero(), y: Fq::zero(), infinity: true }
    }

    /// Equality of point values.
    pub fn equals(&self, other: &AffinePt) -> (r: bool)
        ensures
            r <==> self@ == other@,
    {
        self.x.equals(&other.x) && self.y.equals(&other.y) && self.infinity == other.infinity
    }

    /// The exact on-curve test, computed from the curve equation.
    pub fn is_on_curve(&self) -> (r: bool)
        requires
            self.x.wf(),
            self.y.wf(),
        ensures
            r <==> on_curve(self@),
    {
        if self.infinity {
            return true;
        }
        let y2 = self.y.mul(&self.y);
        let x2 = self.x.mul(&self.x);
        let x3 = x2.mul(&self.x);
        let rhs = x3.add(&self.x).add(&b_coeff());
        y2.equals(&rhs)
    }

    /// The negation of a point: the ordinate is negated.
    pub fn neg(&self) -> (r: AffinePt)
        requires
            self.x.wf(),
            self.y.wf(),
        ensures
            r@ == neg_val(self@),
            r.x.wf(),
            r.y.wf(),
            self.wf() ==> r.wf(),
    {
        let r = AffinePt { x: self.x, y: self.y.neg(), infinity: self.infinity };
        proof {
            lemma_moduli();
            if on_curve(self@) && !self@.inf {
                lemma_neg_on_curve(self@.x, self@.y);
            }
            if self@.inf && self@.y == 0 {
                assert(q_val() % q_val() == 0) by (nonlinear_arith)
                    requires
                        q_val() > 0,
                ;
                assert(crate::field::negq(0) == 0);
            }
        }
        r
    }

    /// The decimal representations of the coordinates.
    pub fn to_decimals(&self) -> (r: (String, String))
        ensures
            r.0@ == chars_of(dec_repr(self@.x)),
            r.1@ == chars_of(dec_repr(self@.y)),
    {
        (self.x.to_decimal(), self.y.to_decimal())
    }

    /// Decode a point from decimal coordinates. Succeeds exactly when both
    /// strings are nonempty digit strings and the decoded coordinates
    /// satisfy the curve equation; rejects everything else.
    pub fn from_decimals(x: &str, y: &str) -> (r: Result<AffinePt, Error>)
        ensures
            match r {
                Ok(p) => p.wf() && !p@.inf && x.spec_bytes().len() > 0 && is_dec_digits(
                    x.spec_bytes(),
                ) && y.spec_bytes().len() > 0 && is_dec_digits(y.spec_bytes()) && p@.x == dec_val(
                    x.spec_bytes(),
                ) % q_val() && p@.y == dec_val(y.spec_bytes()) % q_val(),
                Err(e) => e == Error::SerializationError && (x.spec_bytes().len() == 0
                    || !is_dec_digits(x.spec_bytes()) || y.spec_bytes().len() == 0
                    || !is_dec_digits(y.spec_bytes()) || !on_curve_xy(
                    dec_val(x.spec_bytes()) % q_val(),
                    dec_val(y.spec_bytes()) % q_val(),
                )),
            },
    {
        let xf = match Fq::from_decimal(x) {
            Ok(v) => v,
            Err(e) => { return Err(e); },
        };
        let yf = match Fq::from_decimal(y) {
            Ok(v) => v,
            Err(e) => { return Err(e); },
        };
        let p = AffinePt { x: xf, y: yf, infinity: false };
        if p.is_on_curve() {
            Ok(p)
        } else {
            Err(Error::SerializationError)
        }
    }
}

/// Round-trip law for point serialization: strings carrying the decimal
/// printing of a well-formed point's coordinates are nonempty digit strings
/// that decode to the same coordinates, which still satisfy the curve
/// equation. With the contract of `from_decimals`, decoding the output of
/// `to_decimals` therefore succeeds and returns the point itself.
pub proof fn lemma_point_decimal_round_trip(x: &str, y: &str, p: PointVal)
    requires
        p.x < q_val(),
        p.y < q_val(),
        on_curve_xy(p.x, p.y),
        x@ == chars_of(dec_repr(p.x)),
        y@ == chars_of(dec_repr(p.y)),
    ensures
        x.spec_bytes().len() > 0,
        is_dec_digits(x.spec_bytes()),
        y.spec_bytes().len() > 0,
        is_dec_digits(y.spec_bytes()),
        dec_val(x.spec_bytes()) % q_val() == p.x,
        dec_val(y.spec_bytes()) % q_val() == p.y,
        on_curve_xy(dec_val(x.spec_bytes()) % q_val(), dec_val(y.spec_bytes()) % q_val()),
{
    crate::field::lemma_moduli();
    crate::field::lemma_decimal_reparse(x, p.x, q_val());
    crate::field::lemma_decimal_reparse(y, p.y, q_val());
}

/// The value of the negation of a point.
pub open spec fn neg_val(p: PointVal) -> PointVal {
    PointVal { x: p.x, y: crate::field::negq(p.y), inf: p.inf }
}

/// Negation preserves the curve equation: (-y)^2 = y^2.
pub proof fn lemma_neg_on_curve(x: nat, y: nat)
    requires
        y < q_val(),
        on_curve_xy(x, y),
    ensures
        on_curve_xy(x, crate::field::negq(y)),
{
    let q = q_val();
    lemma_moduli();
    let ny = crate::field::negq(y);
    vstd::arithmetic::div_mod::lemma_small_mod(y, q);
    if y == 0 {
        assert(q % q == 0) by (nonlinear_arith)
            requires
                q > 0,
        ;
        assert(ny == 0);
    } else {
        vstd::arithmetic::div_mod::lemma_small_mod((q - y) as nat, q);
        assert(ny == q - y);
        assert((q - y) * (q - y) == q * q - 2 * q * y + y * y) by (nonlinear_arith);
        let k = (q - 2 * y) as int;
        assert(q * q - 2 * q * y + y * y == q * k + y * y) by (nonlinear_arith)
            requires
                k == q - 2 * y,
        ;
        assert(mulq(ny, ny) == (q * k + y * y) as nat % q);
        vstd::arithmetic::div_mod::lemma_mod_multiples_vanish(k, (y * y) as int, q as int);
        assert(mulq(ny, ny) == mulq(y, y));
    }
}

/// The result of multiplying a curve point by a scalar, as computed by the
/// outside double-and-add routine.
pub uninterp spec fn pt_mul_of(k: nat, p: PointVal) -> PointVal;

/// The result of adding two curve points, as computed by the outside
/// chord-and-tangent routine.
pub uninterp spec fn pt_add_of(a: PointVal, b: PointVal) -> PointVal;

/// Relies on starknet_curve::ec_point::AffinePoint multiplication by a bit
/// slice: double-and-add over the little-endian bits of the scalar, so the
/// result is the scalar multiple of the point. A group operation applied to
/// points of the curve yields a point of the curve, and the multiple by one
/// is the point itself.
#[verifier::external_body]
pub(crate) fn pt_mul_raw(k: &Fr, p: &AffinePt) -> (r: AffinePt)
    requires
        k.wf(),
        p.wf(),
    ensures
        r@ == pt_mul_of(k@, p@),
        r.wf(),
        k@ == 1 ==> r@ == p@,
{
    let px = FieldElement::from_bytes_be(&p.x.b).unwrap();
    let py = FieldElement::from_bytes_be(&p.y.b).unwrap();
    let pt = AffinePoint { x: px, y: py, infinity: p.infinity };
    let bits = FieldElement::from_bytes_be(&k.b).unwrap().to_bits_le();
    let prod = &pt * &bits[..];
    let x = Fq { b: prod.x.to_bytes_be() };
    let y = Fq { b: prod.y.to_bytes_be() };
    AffinePt { x, y, infinity: prod.infinity }
}

/// Relies on starknet_curve::ec_point::AffinePoint addition: the group law
/// of the curve, so a sum of points of the curve is a point of the curve.
#[verifier::external_body]
pub(crate) fn pt_add_raw(a: &AffinePt, b: &AffinePt) -> (r: AffinePt)
    requires
        a.wf(),
        b.wf(),
    ensures
        r@ == pt_add_of(a@, b@),
        r.wf(),
{
    let ax = FieldElement::from_bytes_be(&a.x.b).unwrap();
    let ay = FieldElement::from_bytes_be(&a.y.b).unwrap();
    let bx = FieldElement::from_bytes_be(&b.x.b).unwrap();
    let by = FieldElement::from_bytes_be(&b.y.b).unwrap();
    let p1 = AffinePoint { x: ax, y: ay, infinity: a.infinity };
    let p2 = AffinePoint { x: bx, y: by, infinity: b.infinity };
    let s = &p1 + &p2;
    let x = Fq { b: s.x.to_bytes_be() };
    let y = Fq { b: s.y.to_bytes_be() };
    AffinePt { x, y, infinity: s.infinity }
}

/// Relies on starknet_curve::curve_params::GENERATOR: the standard generator
/// of the Stark curve, whose coordinates are the fixed values of `gen_val`
/// and which lies on the curve.
#[verifier::external_body]
fn generator_raw() -> (r: AffinePt)
    ensures
        r@ == gen_val(),
        r.wf(),
{
    let g = starknet_curve::curve_params::GENERATOR;
    let x = Fq { b: g.x.to_bytes_be() };
    let y = Fq { b: g.y.to_bytes_be() };
    AffinePt { x, y, infinity: g.infinity }
}

impl AffinePt {
    /// Scalar multiplication.
    pub fn mul(&self, k: &Fr) -> (r: AffinePt)
        requires
            k.wf(),
            self.wf(),
        ensures
            r@ == pt_mul_of(k@, self@),
            r.wf(),
            k@ == 1 ==> r@ == self@,
    {
        pt_mul_raw(k, self)
    }

    /// Point addition.
    pub fn add(&self, other: &AffinePt) -> (r: AffinePt)
        requires
            self.wf(),
            other.wf(),
        ensures
            r@ == pt_add_of(self@, other@),
            r.wf(),
    {
        pt_add_raw(self, other)
    }

    /// Point doubling.
    pub fn double(&self) -> (r: AffinePt)
        requires
            self.wf(),
        ensures
            r@ == pt_add_of(self@, self@),
            r.wf(),
    {
        pt_add_raw(self, self)
    }

    /// Point subtraction: addition of the negation.
    pub fn sub(&self, other: &AffinePt) -> (r: AffinePt)
        requires
            self.wf(),
            other.wf(),
        ensures
            r@ == pt_add_of(self@, neg_val(other@)),
            r.wf(),
    {
        pt_add_raw(self, &other.neg())
    }
}

/// The Stark curve configuration: its coefficients, non-residue, and
/// generator.
pub struct StarkCurve;

impl StarkCurve {
    /// The coefficient A = 1.
    pub fn coeff_a() -> (r: Fq)
        ensures
            r@ == a_val(),
            r.wf(),
    {
        Fq::one()
    }

    /// The coefficient B.
    pub fn coeff_b() -> (r: Fq)
        ensures
            r@ == b_val(),
            r.wf(),
    {
        b_coeff()
    }

    /// The SWU non-residue ZETA = 19.
    pub fn zeta() -> (r: Fq)
        ensures
            r@ == zeta_val(),
            r.wf(),
    {
        Fq::small(19)
    }

    /// The fixed generator G.
    pub fn generator() -> (r: AffinePt)
        ensures
            r@ == gen_val(),
            r.wf(),
            !r@.inf,
    {
        generator_raw()
    }
}

/// The coefficient B as a field element.
fn b_coeff() -> (r: Fq)
    ensures
        r@ == b_val(),
        r.wf(),
{
    let b: [u8; 32] = [
        0x06u8, 0xf2, 0x14, 0x13, 0xef, 0xbe, 0x40, 0xde, 0x15, 0x0e, 0x59, 0x6d, 0x72, 0xf7,
        0xa8, 0xc5, 0x60, 0x9a, 0xd2, 0x6c, 0x15, 0xc9, 0x15, 0xc1, 0xf4, 0xcd, 0xfc, 0xb9,
        0x9c, 0xee, 0x9e, 0x89,
    ];
    proof {
        assert(b@ =~= b_seq());
        lemma_be_nat_lt(b_seq(), q_seq(), 0);
    }
    Fq::from_canonical_bytes(b)
}

} // verus!
