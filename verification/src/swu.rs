//! The Simplified SWU map from the base field to the curve.
//!
//! The map follows the inversion-avoiding formulation for Weierstrass curves
//! with A*B != 0: two candidate abscissas are derived from the input, the one
//! whose curve polynomial value is a square is kept, and the ordinate's sign
//! is matched to the parity of the input. Every step is a verified field
//! computation, mirrored exactly by the `swu_*` spec functions; the result is
//! checked against the curve equation before it is returned.

use vstd::prelude::*;

use crate::curve::{a_val, b_val, on_curve, zeta_val, AffinePt, PointVal, StarkCurve};
use crate::error::Error;
use crate::field::{addq, inv_of, is_square, mulq, negq, q_val, sqrt_of, Fq};

verus! {

pub open spec fn swu_zeta_u2(u: nat) -> nat {
    mulq(zeta_val(), mulq(u, u))
}

pub open spec fn swu_ta(u: nat) -> nat {
    addq(mulq(swu_zeta_u2(u), swu_zeta_u2(u)), swu_zeta_u2(u))
}

pub open spec fn swu_num_x1(u: nat) -> nat {
    mulq(b_val(), addq(swu_ta(u), 1))
}

pub open spec fn swu_div(u: nat) -> nat {
    mulq(a_val(), if swu_ta(u) == 0 {
        zeta_val()
    } else {
        negq(swu_ta(u))
    })
}

pub open spec fn swu_div2(u: nat) -> nat {
    mulq(swu_div(u), swu_div(u))
}

pub open spec fn swu_div3(u: nat) -> nat {
    mulq(swu_div2(u), swu_div(u))
}

pub open spec fn swu_num_gx1(u: nat) -> nat {
    addq(
        mulq(addq(mulq(swu_num_x1(u), swu_num_x1(u)), mulq(a_val(), swu_div2(u))), swu_num_x1(u)),
        mulq(b_val(), swu_div3(u)),
    )
}

/// The curve polynomial at the first candidate abscissa.
pub open spec fn swu_gx1(u: nat) -> nat {
    mulq(swu_num_gx1(u), inv_of(swu_div3(u)))
}

/// The branch taken by the map: whether g(x1) is a nonzero square.
pub open spec fn swu_gx1_square(u: nat) -> bool {
    swu_gx1(u) != 0 && is_square(swu_gx1(u))
}

pub open spec fn swu_y1(u: nat) -> nat {
    if swu_gx1_square(u) {
        sqrt_of(swu_gx1(u))
    } else {
        sqrt_of(mulq(zeta_val(), swu_gx1(u)))
    }
}

pub open spec fn swu_y_raw(u: nat) -> nat {
    if swu_gx1_square(u) {
        swu_y1(u)
    } else {
        mulq(mulq(swu_zeta_u2(u), u), swu_y1(u))
    }
}

pub open spec fn swu_x(u: nat) -> nat {
    mulq(
        if swu_gx1_square(u) {
            swu_num_x1(u)
        } else {
            mulq(swu_zeta_u2(u), swu_num_x1(u))
        },
        inv_of(swu_div(u)),
    )
}

/// The ordinate, with its sign matched to the parity of the input.
pub open spec fn swu_y(u: nat) -> nat {
    if (swu_y_raw(u) % 2 == 1) != (u % 2 == 1) {
        negq(swu_y_raw(u))
    } else {
        swu_y_raw(u)
    }
}

/// The point computed by the map.
pub open spec fn swu_point(u: nat) -> PointVal {
    PointVal { x: swu_x(u), y: swu_y(u), inf: false }
}

/// A square root exists for the branch that the map takes. This holds for
/// every input because the non-residue makes exactly one of g(x1) and
/// ZETA * g(x1) a square; the library does not assume that and carries the
/// condition instead.
pub open spec fn swu_ok(u: nat) -> bool {
    swu_gx1_square(u) || is_square(mulq(zeta_val(), swu_gx1(u)))
}

/// The map succeeds: a root exists and the computed point satisfies the
/// curve equation.
pub open spec fn swu_good(u: nat) -> bool {
    swu_ok(u) && on_curve(swu_point(u))
}

/// Map a base-field element to a point of the curve.
pub fn map_to_curve(u: &Fq) -> (r: Result<AffinePt, Error>)
    requires
        u.wf(),
    ensures
        r is Ok <==> swu_good(u@),
        r matches Ok(p) ==> p@ == swu_point(u@) && p.wf() && !p@.inf,
        r matches Err(e) ==> e == Error::HashToCurveError,
{
    let a = StarkCurve::coeff_a();
    let b = StarkCurve::coeff_b();
    let z = StarkCurve::zeta();

    let zeta_u2 = z.mul(&u.mul(u));
    let ta = zeta_u2.mul(&zeta_u2).add(&zeta_u2);
    let num_x1 = b.mul(&ta.add(&Fq::one()));
    let div = if ta.is_zero() {
        a.mul(&z)
    } else {
        a.mul(&ta.neg())
    };
    proof {
        crate::field::lemma_moduli();
        if ta@ != 0 {
            vstd::arithmetic::div_mod::lemma_small_mod(ta@, q_val());
            assert(negq(ta@) == ((q_val() - ta@) as nat) % q_val());
            vstd::arithmetic::div_mod::lemma_small_mod((q_val() - ta@) as nat, q_val());
        }
    }
    assert(div@ != 0);
    let div2 = div.mul(&div);
    let div3 = div2.mul(&div);
    let num_gx1 = num_x1.mul(&num_x1).add(&a.mul(&div2)).mul(&num_x1).add(&b.mul(&div3));

    let div3_inv = match div3.inverse() {
        Some(v) => v,
        None => {
            proof {
                assert(false);
            }
            return Err(Error::HashToCurveError);
        },
    };
    let gx1 = num_gx1.mul(&div3_inv);

    let zg = z.mul(&gx1);
    let y1: Fq;
    let gx1_square: bool;
    if !gx1.is_zero() {
        match gx1.sqrt() {
            Some(s) => {
                y1 = s;
                gx1_square = true;
            },
            None => {
                match zg.sqrt() {
                    Some(s) => {
                        y1 = s;
                        gx1_square = false;
                    },
                    None => {
                        return Err(Error::HashToCurveError);
                    },
                }
            },
        }
    } else {
        match zg.sqrt() {
            Some(s) => {
                y1 = s;
                gx1_square = false;
            },
            None => {
                return Err(Error::HashToCurveError);
            },
        }
    }
    assert(gx1_square == swu_gx1_square(u@));
    assert(y1@ == swu_y1(u@));

    let num_x = if gx1_square {
        num_x1
    } else {
        zeta_u2.mul(&num_x1)
    };
    let y_raw = if gx1_square {
        y1
    } else {
        zeta_u2.mul(u).mul(&y1)
    };
    let div_inv = match div.inverse() {
        Some(v) => v,
        None => {
            proof {
                assert(false);
            }
            return Err(Error::HashToCurveError);
        },
    };
    let x_aff = num_x.mul(&div_inv);
    let y_aff = if y_raw.is_odd() != u.is_odd() {
        y_raw.neg()
    } else {
        y_raw
    };
    let p = AffinePt { x: x_aff, y: y_aff, infinity: false };
    if p.is_on_curve() {
        Ok(p)
    } else {
        proof {
            assert(!swu_good(u@));
        }
        Err(Error::HashToCurveError)
    }
}

} // verus!
