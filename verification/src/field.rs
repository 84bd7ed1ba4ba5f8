//! The two prime fields of the Stark curve.
//!
//! `Fq` is the base field and `Fr` the scalar field. An element is stored as
//! its canonical value in 32 big-endian bytes; the mathematical value of an
//! element is given by `be_nat` on those bytes. All modular arithmetic is
//! delegated to outside crates through trusted wrappers whose contracts state
//! the result as exact modular arithmetic on the values.

use vstd::prelude::*;
use vstd::string::StringSliceAdditionalSpecFns;

use crate::error::Error;
use num_bigint::BigUint;
use starknet_ff::FieldElement;

verus! {

/// Value of a big-endian byte string, most significant byte first.
pub open spec fn be_nat(s: Seq<u8>) -> nat
    decreases s.len(),
{
    if s.len() == 0 {
        0
    } else {
        be_nat(s.drop_last()) * 256 + s.last() as nat
    }
}

/// Bytes of the base-field modulus
/// q = 3618502788666131213697322783095070105623107215331596699973092056135872020481
/// (that is 2^251 + 17 * 2^192 + 1).
pub open spec fn q_seq() -> Seq<u8> {
    seq![
        0x08u8, 0x00, 0x00, 0x00, 0x00, 0x00, 0x00, 0x11, 0x00, 0x00, 0x00, 0x00, 0x00, 0x00,
        0x00, 0x00, 0x00, 0x00, 0x00, 0x00, 0x00, 0x00, 0x00, 0x00, 0x00, 0x00, 0x00, 0x00,
        0x00, 0x00, 0x00, 0x01,
    ]
}

/// The base-field modulus q.
pub open spec fn q_val() -> nat {
    be_nat(q_seq())
}

/// Bytes of the scalar-field modulus (the order of the curve group)
/// r = 3618502788666131213697322783095070105526743751716087489154079457884512865583.
pub open spec fn r_seq() -> Seq<u8> {
    seq![
        0x08u8, 0x00, 0x00, 0x00, 0x00, 0x00, 0x00, 0x10, 0xff, 0xff, 0xff, 0xff, 0xff, 0xff,
        0xff, 0xff, 0xb7, 0x81, 0x12, 0x6d, 0xca, 0xe7, 0xb2, 0x32, 0x1e, 0x66, 0xa2, 0x41,
        0xad, 0xc6, 0x4d, 0x2f,
    ]
}

/// The scalar-field modulus r.
pub open spec fn r_val() -> nat {
    be_nat(r_seq())
}

/// Addition in the base field.
pub open spec fn addq(a: nat, b: nat) -> nat {
    (a + b) % q_val()
}

/// Multiplication in the base field.
pub open spec fn mulq(a: nat, b: nat) -> nat {
    (a * b) % q_val()
}

/// Negation in the base field.
pub open spec fn negq(a: nat) -> nat {
    ((q_val() - a % q_val()) as nat) % q_val()
}

/// A base-field element is a square iff some element squares to it.
pub open spec fn is_square(a: nat) -> bool {
    exists|y: nat| y < q_val() && mulq(y, y) == a
}

/// The square root of a base-field square, as computed by the outside
/// Tonelli-Shanks routine; which of the two roots is returned is fixed but
/// not specified.
pub uninterp spec fn sqrt_of(a: nat) -> nat;

/// The multiplicative inverse of a nonzero base-field element, as returned by
/// the outside inversion routine.
pub uninterp spec fn inv_of(a: nat) -> nat;

/// 256^n; used to bound byte-string values.
pub open spec fn pow256(n: nat) -> nat
    decreases n,
{
    if n == 0 {
        1
    } else {
        256 * pow256((n - 1) as nat)
    }
}

pub proof fn lemma_be_nat_bound(s: Seq<u8>)
    ensures
        be_nat(s) < pow256(s.len()),
    decreases s.len(),
{
    if s.len() == 0 {
    } else {
        lemma_be_nat_bound(s.drop_last());
        assert(be_nat(s.drop_last()) + 1 <= pow256((s.len() - 1) as nat));
        assert(be_nat(s.drop_last()) * 256 + 256 <= pow256((s.len() - 1) as nat) * 256) by (nonlinear_arith)
            requires
                be_nat(s.drop_last()) + 1 <= pow256((s.len() - 1) as nat),
        ;
    }
}

pub proof fn lemma_be_nat_all_zero(s: Seq<u8>)
    requires
        forall|i: int| 0 <= i < s.len() ==> s[i] == 0,
    ensures
        be_nat(s) == 0,
    decreases s.len(),
{
    if s.len() > 0 {
        lemma_be_nat_all_zero(s.drop_last());
    }
}

/// A byte string whose bytes are all zero except possibly the last has the
/// last byte as its value.
pub proof fn lemma_be_nat_small(s: Seq<u8>)
    requires
        s.len() >= 1,
        forall|i: int| 0 <= i < s.len() - 1 ==> s[i] == 0,
    ensures
        be_nat(s) == s.last(),
{
    lemma_be_nat_all_zero(s.drop_last());
}

/// Splitting off the most significant byte.
pub proof fn lemma_be_nat_head(s: Seq<u8>)
    requires
        s.len() >= 1,
    ensures
        be_nat(s) == s[0] * pow256((s.len() - 1) as nat) + be_nat(s.subrange(1, s.len() as int)),
    decreases s.len(),
{
    if s.len() == 1 {
        assert(s.subrange(1, 1).len() == 0);
        assert(s.drop_last().len() == 0);
        assert(be_nat(s) == be_nat(s.drop_last()) * 256 + s.last());
        assert(s.last() == s[0]);
        assert(pow256(0) == 1);
    } else {
        let d = s.drop_last();
        lemma_be_nat_head(d);
        let mid = d.subrange(1, d.len() as int);
        let tail = s.subrange(1, s.len() as int);
        assert(tail.drop_last() =~= mid);
        assert(be_nat(s) == (s[0] * pow256((d.len() - 1) as nat) + be_nat(mid)) * 256
            + s.last());
        assert((s[0] * pow256((d.len() - 1) as nat) + be_nat(mid)) * 256 == s[0] * (256 * pow256(
            (d.len() - 1) as nat)) + be_nat(mid) * 256) by (nonlinear_arith);
        assert(pow256((s.len() - 1) as nat) == 256 * pow256((d.len() - 1) as nat));
        assert(s[0] * pow256((s.len() - 1) as nat) == s[0] * (256 * pow256((d.len() - 1) as nat)))
            by (nonlinear_arith)
            requires
                pow256((s.len() - 1) as nat) == 256 * pow256((d.len() - 1) as nat),
        ;
        assert(tail.last() == s.last());
        assert(be_nat(tail) == be_nat(mid) * 256 + s.last());
    }
}

/// Big-endian comparison: if two equal-length byte strings agree up to
/// position `k` and differ there, the one with the smaller byte is smaller.
pub proof fn lemma_be_nat_lt(s1: Seq<u8>, s2: Seq<u8>, k: int)
    requires
        s1.len() == s2.len(),
        0 <= k < s1.len(),
        forall|i: int| 0 <= i < k ==> s1[i] == s2[i],
        s1[k] < s2[k],
    ensures
        be_nat(s1) < be_nat(s2),
    decreases k,
{
    lemma_be_nat_head(s1);
    lemma_be_nat_head(s2);
    let t1 = s1.subrange(1, s1.len() as int);
    let t2 = s2.subrange(1, s2.len() as int);
    if k == 0 {
        lemma_be_nat_bound(t1);
        assert(s1[0] + 1 <= s2[0]);
        assert(s1[0] * pow256(t1.len()) + pow256(t1.len()) <= s2[0] * pow256(t2.len()))
            by (nonlinear_arith)
            requires
                s1[0] + 1 <= s2[0],
                t1.len() == t2.len(),
                pow256(t1.len()) > 0 || true,
        ;
        lemma_pow256_pos(t1.len());
    } else {
        lemma_be_nat_lt(t1, t2, k - 1);
    }
}

pub proof fn lemma_pow256_pos(n: nat)
    ensures
        pow256(n) >= 1,
    decreases n,
{
    if n > 0 {
        lemma_pow256_pos((n - 1) as nat);
    }
}

/// Equal values mean equal byte strings (uniqueness of the base-256
/// representation at a fixed length).
pub proof fn lemma_be_nat_inj(s1: Seq<u8>, s2: Seq<u8>)
    requires
        s1.len() == s2.len(),
        be_nat(s1) == be_nat(s2),
    ensures
        s1 =~= s2,
    decreases s1.len(),
{
    if s1.len() > 0 {
        let a = be_nat(s1.drop_last());
        let b = be_nat(s2.drop_last());
        assert(a * 256 + s1.last() == b * 256 + s2.last());
        assert(a == b && s1.last() == s2.last()) by (nonlinear_arith)
            requires
                a * 256 + s1.last() == b * 256 + s2.last(),
                s1.last() < 256,
                s2.last() < 256,
        ;
        lemma_be_nat_inj(s1.drop_last(), s2.drop_last());
        assert(s1 =~= s1.drop_last().push(s1.last()));
        assert(s2 =~= s2.drop_last().push(s2.last()));
    }
}

/// ASCII decimal digits.
pub open spec fn is_dec_digits(s: Seq<u8>) -> bool {
    forall|i: int| 0 <= i < s.len() ==> 48 <= #[trigger] s[i] <= 57
}

/// Value of an ASCII decimal digit string.
pub open spec fn dec_val(s: Seq<u8>) -> nat
    decreases s.len(),
{
    if s.len() == 0 {
        0
    } else {
        dec_val(s.drop_last()) * 10 + (s.last() - 48) as nat
    }
}

/// Canonical ASCII decimal representation of a number: no leading zeros,
/// a single `0` for zero.
pub open spec fn dec_repr(n: nat) -> Seq<u8>
    decreases n,
{
    if n < 10 {
        seq![(48 + n) as u8]
    } else {
        dec_repr(n / 10).push((48 + n % 10) as u8)
    }
}

pub proof fn lemma_dec_repr_digits(n: nat)
    ensures
        is_dec_digits(dec_repr(n)),
        dec_repr(n).len() >= 1,
    decreases n,
{
    if n >= 10 {
        lemma_dec_repr_digits(n / 10);
        assert(0 <= n % 10 < 10);
    }
}

/// Printing a number in decimal and reading the digits back yields the
/// number itself.
pub proof fn lemma_dec_round_trip(n: nat)
    ensures
        dec_val(dec_repr(n)) == n,
    decreases n,
{
    if n < 10 {
        let s = dec_repr(n);
        assert(s.drop_last() =~= Seq::<u8>::empty());
        assert(dec_val(s.drop_last()) == 0);
        assert(s.last() == (48 + n) as u8);
        assert((48 + n) as u8 == 48 + n);
        assert(dec_val(s) == n);
    } else {
        lemma_dec_round_trip(n / 10);
        let s = dec_repr(n);
        assert(s.drop_last() =~= dec_repr(n / 10));
        assert(s.last() == (48 + n % 10) as u8);
        assert(0 <= n % 10 < 10);
        assert((48 + n % 10) as u8 == 48 + n % 10);
        assert(dec_val(s) == (n / 10) * 10 + n % 10);
        vstd::arithmetic::div_mod::lemma_fundamental_div_mod(n as int, 10);
    }
}

/// The moduli are positive, q is smaller than 2^256, and r < q.
pub proof fn lemma_moduli()
    ensures
        0 < r_val(),
        r_val() < q_val(),
        q_val() < pow256(32),
{
    lemma_be_nat_lt(r_seq(), q_seq(), 7);
    lemma_be_nat_bound(q_seq());
    let z = seq![
        0x00u8, 0x00, 0x00, 0x00, 0x00, 0x00, 0x00, 0x00, 0x00, 0x00, 0x00, 0x00, 0x00, 0x00,
        0x00, 0x00, 0x00, 0x00, 0x00, 0x00, 0x00, 0x00, 0x00, 0x00, 0x00, 0x00, 0x00, 0x00,
        0x00, 0x00, 0x00, 0x00,
    ];
    lemma_be_nat_all_zero(z);
    lemma_be_nat_lt(z, r_seq(), 0);
}

/// An element of the base field Fq, stored as its canonical value in 32
/// big-endian bytes.
#[derive(Clone, Copy, Debug)]
pub struct Fq {
    pub(crate) b: [u8; 32],
}

/// An element of the scalar field Fr, stored as its canonical value in 32
/// big-endian bytes.
#[derive(Clone, Copy, Debug)]
pub struct Fr {
    pub(crate) b: [u8; 32],
}

impl View for Fq {
    type V = nat;

    closed spec fn view(&self) -> nat {
        be_nat(self.b@)
    }
}

impl View for Fr {
    type V = nat;

    closed spec fn view(&self) -> nat {
        be_nat(self.b@)
    }
}

impl Fq {
    /// The element is in canonical range.
    pub open spec fn wf(&self) -> bool {
        self@ < q_val()
    }
}

impl Fr {
    /// The element is in canonical range.
    pub open spec fn wf(&self) -> bool {
        self@ < r_val()
    }
}

/// Relies on starknet_ff::FieldElement addition: addition modulo the Stark
/// prime q, on canonical big-endian byte encodings.
#[verifier::external_body]
fn fq_add_raw(a: &Fq, b: &Fq) -> (r: Fq)
    requires
        a.wf(),
        b.wf(),
    ensures
        r@ == addq(a@, b@),
        r.wf(),
{
    let x = FieldElement::from_bytes_be(&a.b).unwrap();
    let y = FieldElement::from_bytes_be(&b.b).unwrap();
    Fq { b: (x + y).to_bytes_be() }
}

/// Relies on starknet_ff::FieldElement subtraction modulo the Stark prime q.
#[verifier::external_body]
fn fq_sub_raw(a: &Fq, b: &Fq) -> (r: Fq)
    requires
        a.wf(),
        b.wf(),
    ensures
        r@ == ((a@ + q_val() - b@) as nat) % q_val(),
        r.wf(),
{
    let x = FieldElement::from_bytes_be(&a.b).unwrap();
    let y = FieldElement::from_bytes_be(&b.b).unwrap();
    Fq { b: (x - y).to_bytes_be() }
}

/// Relies on starknet_ff::FieldElement multiplication modulo the Stark prime
/// q. Since q is prime, a product of two nonzero elements is nonzero.
#[verifier::external_body]
fn fq_mul_raw(a: &Fq, b: &Fq) -> (r: Fq)
    requires
        a.wf(),
        b.wf(),
    ensures
        r@ == mulq(a@, b@),
        r.wf(),
        a@ != 0 && b@ != 0 ==> r@ != 0,
{
    let x = FieldElement::from_bytes_be(&a.b).unwrap();
    let y = FieldElement::from_bytes_be(&b.b).unwrap();
    Fq { b: (x * y).to_bytes_be() }
}

/// Relies on starknet_ff::FieldElement negation modulo the Stark prime q.
#[verifier::external_body]
fn fq_neg_raw(a: &Fq) -> (r: Fq)
    requires
        a.wf(),
    ensures
        r@ == negq(a@),
        r.wf(),
{
    let x = FieldElement::from_bytes_be(&a.b).unwrap();
    Fq { b: (-x).to_bytes_be() }
}

/// Relies on starknet_ff::FieldElement::invert: returns the multiplicative
/// inverse of a nonzero element and None for zero.
#[verifier::external_body]
fn fq_invert_raw(a: &Fq) -> (r: Option<Fq>)
    requires
        a.wf(),
    ensures
        r is Some <==> a@ != 0,
        r matches Some(v) ==> v@ == inv_of(a@) && mulq(inv_of(a@), a@) == 1 && v.wf(),
{
    FieldElement::from_bytes_be(&a.b).unwrap().invert().map(|v| Fq { b: v.to_bytes_be() })
}

/// Relies on starknet_ff::FieldElement::sqrt (the arkworks Tonelli-Shanks
/// square root): returns a square root exactly when the element is a square.
#[verifier::external_body]
fn fq_sqrt_raw(a: &Fq) -> (r: Option<Fq>)
    requires
        a.wf(),
    ensures
        r is Some <==> is_square(a@),
        r matches Some(v) ==> v@ == sqrt_of(a@) && mulq(v@, v@) == a@ && v.wf(),
{
    FieldElement::from_bytes_be(&a.b).unwrap().sqrt().map(|v| Fq { b: v.to_bytes_be() })
}

/// Relies on num_bigint::BigUint multiplication and remainder: exact integer
/// arithmetic on big-endian byte strings.
#[verifier::external_body]
fn big_mul_mod(a: &[u8; 32], b: &[u8; 32], m: &[u8; 32]) -> (r: [u8; 32])
    requires
        be_nat(m@) > 0,
    ensures
        be_nat(r@) == (be_nat(a@) * be_nat(b@)) % be_nat(m@),
{
    let v = (BigUint::from_bytes_be(a) * BigUint::from_bytes_be(b)) % BigUint::from_bytes_be(m);
    let by = v.to_bytes_be();
    let mut out = [0u8; 32];
    out[32 - by.len()..].copy_from_slice(&by);
    out
}

/// Relies on num_bigint::BigUint addition and remainder: exact integer
/// arithmetic on big-endian byte strings.
#[verifier::external_body]
fn big_add_mod(a: &[u8; 32], b: &[u8; 32], m: &[u8; 32]) -> (r: [u8; 32])
    requires
        be_nat(m@) > 0,
    ensures
        be_nat(r@) == (be_nat(a@) + be_nat(b@)) % be_nat(m@),
{
    let v = (BigUint::from_bytes_be(a) + BigUint::from_bytes_be(b)) % BigUint::from_bytes_be(m);
    let by = v.to_bytes_be();
    let mut out = [0u8; 32];
    out[32 - by.len()..].copy_from_slice(&by);
    out
}

/// Relies on num_bigint::BigUint subtraction and remainder: exact integer
/// arithmetic; the minuend is lifted by the modulus so the difference is
/// never negative.
#[verifier::external_body]
fn big_sub_mod(a: &[u8; 32], b: &[u8; 32], m: &[u8; 32]) -> (r: [u8; 32])
    requires
        be_nat(m@) > 0,
        be_nat(b@) <= be_nat(m@),
    ensures
        be_nat(r@) == ((be_nat(a@) + be_nat(m@) - be_nat(b@)) as nat) % be_nat(m@),
{
    let v = ((BigUint::from_bytes_be(a) + BigUint::from_bytes_be(m)) - BigUint::from_bytes_be(b))
        % BigUint::from_bytes_be(m);
    let by = v.to_bytes_be();
    let mut out = [0u8; 32];
    out[32 - by.len()..].copy_from_slice(&by);
    out
}

/// Relies on num_bigint::BigUint remainder: exact integer arithmetic.
#[verifier::external_body]
fn big_mod(a: &[u8; 32], m: &[u8; 32]) -> (r: [u8; 32])
    requires
        be_nat(m@) > 0,
    ensures
        be_nat(r@) == be_nat(a@) % be_nat(m@),
{
    let v = BigUint::from_bytes_be(a) % BigUint::from_bytes_be(m);
    let by = v.to_bytes_be();
    let mut out = [0u8; 32];
    out[32 - by.len()..].copy_from_slice(&by);
    out
}

/// Relies on num_bigint::BigUint::modinv: returns the inverse exactly when
/// the element and the modulus are coprime.
#[verifier::external_body]
fn big_modinv(a: &[u8; 32], m: &[u8; 32]) -> (r: Option<[u8; 32]>)
    requires
        be_nat(m@) > 1,
    ensures
        r is Some <==> gcd(be_nat(a@), be_nat(m@)) == 1,
        r matches Some(v) ==> (be_nat(v@) * be_nat(a@)) % be_nat(m@) == 1 && be_nat(v@) < be_nat(
            m@,
        ),
{
    let v = BigUint::from_bytes_be(a).modinv(&BigUint::from_bytes_be(m))?;
    let by = v.to_bytes_be();
    let mut out = [0u8; 32];
    out[32 - by.len()..].copy_from_slice(&by);
    Some(out)
}

/// The greatest common divisor, by Euclid's algorithm.
pub open spec fn gcd(a: nat, b: nat) -> nat
    decreases b,
{
    if b == 0 {
        a
    } else {
        gcd(b, a % b)
    }
}

/// The characters denoted by a byte string, one character per byte.
pub open spec fn chars_of(s: Seq<u8>) -> Seq<char> {
    s.map_values(|b: u8| b as char)
}

/// Relies on num_bigint::BigUint::to_str_radix through Display: the canonical
/// decimal representation, without leading zeros.
#[verifier::external_body]
fn big_to_dec(a: &[u8; 32]) -> (r: String)
    ensures
        r@ == chars_of(dec_repr(be_nat(a@))),
{
    BigUint::from_bytes_be(a).to_str_radix(10)
}

/// Relies on num_bigint::BigUint parsing (FromStr) and remainder: on a
/// nonempty all-digit string it returns exactly the denoted number.
#[verifier::external_body]
fn big_from_dec(s: &[u8], m: &[u8; 32]) -> (r: [u8; 32])
    requires
        s@.len() > 0,
        is_dec_digits(s@),
        be_nat(m@) > 0,
    ensures
        be_nat(r@) == dec_val(s@) % be_nat(m@),
{
    let v = core::str::from_utf8(s).unwrap().parse::<BigUint>().unwrap()
        % BigUint::from_bytes_be(m);
    let by = v.to_bytes_be();
    let mut out = [0u8; 32];
    out[32 - by.len()..].copy_from_slice(&by);
    out
}

/// The byte encoding of q, for use as a modulus argument.
fn q_bytes() -> (r: [u8; 32])
    ensures
        be_nat(r@) == q_val(),
{
    let r: [u8; 32] = [
        0x08u8, 0x00, 0x00, 0x00, 0x00, 0x00, 0x00, 0x11, 0x00, 0x00, 0x00, 0x00, 0x00, 0x00,
        0x00, 0x00, 0x00, 0x00, 0x00, 0x00, 0x00, 0x00, 0x00, 0x00, 0x00, 0x00, 0x00, 0x00,
        0x00, 0x00, 0x00, 0x01,
    ];
    proof {
        assert(r@ =~= q_seq());
    }
    r
}

/// The byte encoding of r, for use as a modulus argument.
fn r_bytes() -> (r: [u8; 32])
    ensures
        be_nat(r@) == r_val(),
{
    let r: [u8; 32] = [
        0x08u8, 0x00, 0x00, 0x00, 0x00, 0x00, 0x00, 0x10, 0xff, 0xff, 0xff, 0xff, 0xff, 0xff,
        0xff, 0xff, 0xb7, 0x81, 0x12, 0x6d, 0xca, 0xe7, 0xb2, 0x32, 0x1e, 0x66, 0xa2, 0x41,
        0xad, 0xc6, 0x4d, 0x2f,
    ];
    proof {
        assert(r@ =~= r_seq());
    }
    r
}

/// Byte-wise equality of two 32-byte arrays.
fn bytes32_eq(a: &[u8; 32], b: &[u8; 32]) -> (r: bool)
    ensures
        r <==> a@ =~= b@,
{
    let mut i: usize = 0;
    while i < 32
        invariant
            i <= 32,
            forall|j: int| 0 <= j < i ==> a@[j] == b@[j],
        decreases 32 - i,
    {
        if a[i] != b[i] {
            return false;
        }
        i += 1;
    }
    true
}

/// Byte-wise big-endian comparison of two 32-byte arrays.
fn bytes32_lt(a: &[u8; 32], b: &[u8; 32]) -> (r: bool)
    ensures
        r <==> be_nat(a@) < be_nat(b@),
{
    let mut i: usize = 0;
    while i < 32
        invariant
            i <= 32,
            forall|j: int| 0 <= j < i ==> a@[j] == b@[j],
        decreases 32 - i,
    {
        if a[i] < b[i] {
            proof {
                lemma_be_nat_lt(a@, b@, i as int);
            }
            return true;
        }
        if a[i] > b[i] {
            proof {
                lemma_be_nat_lt(b@, a@, i as int);
            }
            return false;
        }
        i += 1;
    }
    proof {
        assert(a@ =~= b@);
    }
    false
}

/// The zero 32-byte array.
fn bytes32_zero() -> (r: [u8; 32])
    ensures
        be_nat(r@) == 0,
        r@.len() == 32,
        forall|i: int| 0 <= i < 32 ==> r@[i] == 0,
{
    let r: [u8; 32] = [0u8; 32];
    proof {
        lemma_be_nat_all_zero(r@);
    }
    r
}

/// A 32-byte array holding a single small value in its last byte.
fn bytes32_small(v: u8) -> (r: [u8; 32])
    ensures
        be_nat(r@) == v,
        be_nat(r@) < q_val() && be_nat(r@) < r_val(),
{
    let z = bytes32_zero();
    let mut r = z;
    r[31] = v;
    proof {
        lemma_be_nat_small(r@);
        lemma_small_lt(r@);
    }
    r
}

/// Any 32-byte string that is zero outside its last byte denotes a value
/// smaller than both moduli.
proof fn lemma_small_lt(s: Seq<u8>)
    requires
        s.len() == 32,
        forall|i: int| 0 <= i < 31 ==> s[i] == 0,
    ensures
        be_nat(s) < r_val(),
        be_nat(s) < q_val(),
{
    lemma_be_nat_lt(s, r_seq(), 0);
    lemma_moduli();
}

impl Fq {
    /// The zero element.
    pub fn zero() -> (r: Fq)
        ensures
            r@ == 0,
            r.wf(),
    {
        let b = bytes32_zero();
        proof {
            lemma_moduli();
            lemma_pow256_pos(32);
        }
        Fq { b }
    }

    /// A small constant element.
    pub fn small(v: u8) -> (r: Fq)
        ensures
            r@ == v,
            r.wf(),
    {
        Fq { b: bytes32_small(v) }
    }

    /// The unit element.
    pub fn one() -> (r: Fq)
        ensures
            r@ == 1,
            r.wf(),
    {
        Fq::small(1)
    }

    /// Whether this element is zero.
    pub fn is_zero(&self) -> (r: bool)
        ensures
            r <==> self@ == 0,
    {
        let z = bytes32_zero();
        let r = bytes32_eq(&self.b, &z);
        proof {
            if self@ == be_nat(z@) {
                lemma_be_nat_inj(self.b@, z@);
            }
        }
        r
    }

    /// Equality of values.
    pub fn equals(&self, other: &Fq) -> (r: bool)
        ensures
            r <==> self@ == other@,
    {
        let r = bytes32_eq(&self.b, &other.b);
        proof {
            if self@ == other@ {
                lemma_be_nat_inj(self.b@, other.b@);
            }
        }
        r
    }

    /// Field addition.
    pub fn add(&self, other: &Fq) -> (r: Fq)
        requires
            self.wf(),
            other.wf(),
        ensures
            r@ == addq(self@, other@),
            r.wf(),
    {
        fq_add_raw(self, other)
    }

    /// Field subtraction.
    pub fn sub(&self, other: &Fq) -> (r: Fq)
        requires
            self.wf(),
            other.wf(),
        ensures
            r@ == ((self@ + q_val() - other@) as nat) % q_val(),
            r.wf(),
    {
        fq_sub_raw(self, other)
    }

    /// Field multiplication.
    pub fn mul(&self, other: &Fq) -> (r: Fq)
        requires
            self.wf(),
            other.wf(),
        ensures
            r@ == mulq(self@, other@),
            r.wf(),
            self@ != 0 && other@ != 0 ==> r@ != 0,
    {
        fq_mul_raw(self, other)
    }

    /// Field negation.
    pub fn neg(&self) -> (r: Fq)
        requires
            self.wf(),
        ensures
            r@ == negq(self@),
            r.wf(),
    {
        fq_neg_raw(self)
    }

    /// Multiplicative inverse; `None` exactly for zero.
    pub fn inverse(&self) -> (r: Option<Fq>)
        requires
            self.wf(),
        ensures
            r is Some <==> self@ != 0,
            r matches Some(v) ==> v@ == inv_of(self@) && mulq(inv_of(self@), self@) == 1
                && v.wf(),
    {
        fq_invert_raw(self)
    }

    /// A square root; `Some` exactly when the element is a square.
    pub fn sqrt(&self) -> (r: Option<Fq>)
        requires
            self.wf(),
        ensures
            r is Some <==> is_square(self@),
            r matches Some(v) ==> v@ == sqrt_of(self@) && mulq(v@, v@) == self@ && v.wf(),
    {
        fq_sqrt_raw(self)
    }

    /// The Legendre classification of this element.
    pub fn legendre(&self) -> (r: Legendre)
        requires
            self.wf(),
        ensures
            r == Legendre::Zero <==> self@ == 0,
            r == Legendre::QuadraticResidue <==> self@ != 0 && is_square(self@),
            r == Legendre::QuadraticNonResidue <==> self@ != 0 && !is_square(self@),
    {
        if self.is_zero() {
            Legendre::Zero
        } else {
            match fq_sqrt_raw(self) {
                Some(_) => Legendre::QuadraticResidue,
                None => Legendre::QuadraticNonResidue,
            }
        }
    }

    /// Whether this element is odd, as an integer in canonical range.
    pub fn is_odd(&self) -> (r: bool)
        ensures
            r <==> self@ % 2 == 1,
    {
        proof {
            lemma_be_nat_parity(self.b@);
        }
        self.b[31] % 2 == 1
    }

    /// Parse a canonical decimal string; the value is reduced modulo q.
    pub fn from_decimal(s: &str) -> (r: Result<Fq, Error>)
        ensures
            match r {
                Ok(v) => s.spec_bytes().len() > 0 && is_dec_digits(s.spec_bytes()) && v@
                    == dec_val(s.spec_bytes()) % q_val() && v.wf(),
                Err(e) => e == Error::SerializationError && (s.spec_bytes().len() == 0
                    || !is_dec_digits(s.spec_bytes())),
            },
    {
        let bytes = s.as_bytes();
        if !check_digits(bytes) {
            return Err(Error::SerializationError);
        }
        let m = q_bytes();
        let out = big_from_dec(bytes, &m);
        proof {
            lemma_moduli();
        }
        Ok(Fq { b: out })
    }

    /// The canonical decimal representation of this element.
    pub fn to_decimal(&self) -> (r: String)
        ensures
            r@ == chars_of(dec_repr(self@)),
    {
        big_to_dec(&self.b)
    }

    /// The canonical big-endian byte encoding of this element.
    pub fn to_bytes_be(&self) -> (r: [u8; 32])
        ensures
            be_nat(r@) == self@,
    {
        self.b
    }

    /// Decode an element from its canonical big-endian byte encoding;
    /// values at or above the modulus are rejected.
    pub fn from_bytes_be(bytes: &[u8; 32]) -> (r: Result<Fq, Error>)
        ensures
            match r {
                Ok(v) => be_nat(bytes@) < q_val() && v@ == be_nat(bytes@) && v.wf(),
                Err(e) => e == Error::SerializationError && be_nat(bytes@) >= q_val(),
            },
    {
        let m = q_bytes();
        if bytes32_lt(bytes, &m) {
            Ok(Fq { b: *bytes })
        } else {
            Err(Error::SerializationError)
        }
    }

    /// Assemble an element from canonical bytes; for use inside the library.
    pub(crate) fn from_canonical_bytes(b: [u8; 32]) -> (r: Fq)
        requires
            be_nat(b@) < q_val(),
        ensures
            r@ == be_nat(b@),
            r.wf(),
    {
        Fq { b }
    }
}

/// The Legendre symbol of a base-field element.
#[derive(Clone, Copy, Debug, PartialEq, Eq, Structural)]
pub enum Legendre {
    Zero,
    QuadraticResidue,
    QuadraticNonResidue,
}

/// The value of a byte string has the parity of its last byte.
pub proof fn lemma_be_nat_parity(s: Seq<u8>)
    requires
        s.len() >= 1,
    ensures
        be_nat(s) % 2 == s.last() % 2,
{
    let a = be_nat(s.drop_last());
    assert((a * 256 + s.last()) % 2 == s.last() % 2) by (nonlinear_arith);
}

/// Checks that a byte string is nonempty and all ASCII decimal digits.
fn check_digits(s: &[u8]) -> (r: bool)
    ensures
        r <==> (s@.len() > 0 && is_dec_digits(s@)),
{
    if s.len() == 0 {
        return false;
    }
    let mut i: usize = 0;
    while i < s.len()
        invariant
            i <= s@.len(),
            forall|j: int| 0 <= j < i ==> 48 <= #[trigger] s@[j] <= 57,
        decreases s@.len() - i,
    {
        let c = s[i];
        if c < 48 || c > 57 {
            return false;
        }
        i += 1;
    }
    true
}

impl Fr {
    /// The zero element.
    pub fn zero() -> (r: Fr)
        ensures
            r@ == 0,
            r.wf(),
    {
        let b = bytes32_zero();
        proof {
            lemma_moduli();
        }
        Fr { b }
    }

    /// A small constant element.
    pub fn small(v: u8) -> (r: Fr)
        ensures
            r@ == v,
            r.wf(),
    {
        Fr { b: bytes32_small(v) }
    }

    /// The unit element.
    pub fn one() -> (r: Fr)
        ensures
            r@ == 1,
            r.wf(),
    {
        Fr::small(1)
    }

    /// Equality of values.
    pub fn equals(&self, other: &Fr) -> (r: bool)
        ensures
            r <==> self@ == other@,
    {
        let r = bytes32_eq(&self.b, &other.b);
        proof {
            if self@ == other@ {
                lemma_be_nat_inj(self.b@, other.b@);
            }
        }
        r
    }

    /// Scalar-field addition.
    pub fn add(&self, other: &Fr) -> (r: Fr)
        requires
            self.wf(),
            other.wf(),
        ensures
            r@ == (self@ + other@) % r_val(),
            r.wf(),
    {
        let m = r_bytes();
        proof {
            lemma_moduli();
        }
        let out = big_add_mod(&self.b, &other.b, &m);
        Fr { b: out }
    }

    /// Scalar-field subtraction.
    pub fn sub(&self, other: &Fr) -> (r: Fr)
        requires
            self.wf(),
            other.wf(),
        ensures
            r@ == ((self@ + r_val() - other@) as nat) % r_val(),
            r.wf(),
    {
        let m = r_bytes();
        proof {
            lemma_moduli();
        }
        let out = big_sub_mod(&self.b, &other.b, &m);
        Fr { b: out }
    }

    /// Scalar-field multiplication.
    pub fn mul(&self, other: &Fr) -> (r: Fr)
        requires
            self.wf(),
            other.wf(),
        ensures
            r@ == (self@ * other@) % r_val(),
            r.wf(),
    {
        let m = r_bytes();
        proof {
            lemma_moduli();
        }
        let out = big_mul_mod(&self.b, &other.b, &m);
        Fr { b: out }
    }

    /// Multiplicative inverse; `Some` exactly when the value and r are
    /// coprime, so for every nonzero element of the field.
    pub fn inverse(&self) -> (r: Option<Fr>)
        requires
            self.wf(),
        ensures
            r is Some <==> gcd(self@, r_val()) == 1,
            r matches Some(v) ==> (v@ * self@) % r_val() == 1 && v.wf(),
    {
        let m = r_bytes();
        proof {
            lemma_moduli();
            lemma_be_nat_lt(
                seq![
                    0x00u8, 0x00, 0x00, 0x00, 0x00, 0x00, 0x00, 0x00, 0x00, 0x00, 0x00, 0x00,
                    0x00, 0x00, 0x00, 0x00, 0x00, 0x00, 0x00, 0x00, 0x00, 0x00, 0x00, 0x00,
                    0x00, 0x00, 0x00, 0x00, 0x00, 0x00, 0x00, 0x01,
                ],
                r_seq(),
                0,
            );
            lemma_be_nat_small(
                seq![
                    0x00u8, 0x00, 0x00, 0x00, 0x00, 0x00, 0x00, 0x00, 0x00, 0x00, 0x00, 0x00,
                    0x00, 0x00, 0x00, 0x00, 0x00, 0x00, 0x00, 0x00, 0x00, 0x00, 0x00, 0x00,
                    0x00, 0x00, 0x00, 0x00, 0x00, 0x00, 0x00, 0x01,
                ],
            );
        }
        match big_modinv(&self.b, &m) {
            Some(v) => Some(Fr { b: v }),
            None => None,
        }
    }

    /// Parse a canonical decimal string; the value is reduced modulo r.
    pub fn from_decimal(s: &str) -> (r: Result<Fr, Error>)
        ensures
            match r {
                Ok(v) => s.spec_bytes().len() > 0 && is_dec_digits(s.spec_bytes()) && v@
                    == dec_val(s.spec_bytes()) % r_val() && v.wf(),
                Err(e) => e == Error::SerializationError && (s.spec_bytes().len() == 0
                    || !is_dec_digits(s.spec_bytes())),
            },
    {
        let bytes = s.as_bytes();
        if !check_digits(bytes) {
            return Err(Error::SerializationError);
        }
        let m = r_bytes();
        proof {
            lemma_moduli();
        }
        let out = big_from_dec(bytes, &m);
        Ok(Fr { b: out })
    }

    /// The canonical decimal representation of this element.
    pub fn to_decimal(&self) -> (r: String)
        ensures
            r@ == chars_of(dec_repr(self@)),
    {
        big_to_dec(&self.b)
    }

    /// The canonical big-endian byte encoding of this element.
    pub fn to_bytes_be(&self) -> (r: [u8; 32])
        ensures
            be_nat(r@) == self@,
    {
        self.b
    }

    /// Decode an element from its canonical big-endian byte encoding;
    /// values at or above the modulus are rejected.
    pub fn from_bytes_be(bytes: &[u8; 32]) -> (r: Result<Fr, Error>)
        ensures
            match r {
                Ok(v) => be_nat(bytes@) < r_val() && v@ == be_nat(bytes@) && v.wf(),
                Err(e) => e == Error::SerializationError && be_nat(bytes@) >= r_val(),
            },
    {
        let m = r_bytes();
        if bytes32_lt(bytes, &m) {
            Ok(Fr { b: *bytes })
        } else {
            Err(Error::SerializationError)
        }
    }

    /// The same value as a base-field element; every scalar is in canonical
    /// base-field range because r < q.
    pub fn to_base(&self) -> (r: Fq)
        requires
            self.wf(),
        ensures
            r@ == self@,
            r.wf(),
    {
        proof {
            lemma_moduli();
        }
        Fq { b: self.b }
    }
}

/// Reduce a base-field element modulo r; used to reinterpret a hash digest
/// as a scalar.
pub(crate) fn fq_mod_r(a: &Fq) -> (r: Fr)
    ensures
        r@ == a@ % r_val(),
        r.wf(),
{
    let m = r_bytes();
    proof {
        lemma_moduli();
    }
    let out = big_mod(&a.b, &m);
    Fr { b: out }
}

/// Round-trip law: for a value in canonical range, parsing the decimal
/// representation yields the value again. The parse side reduces modulo the
/// modulus, and the reduction is the identity below it.
pub proof fn lemma_decimal_round_trip(n: nat, m: nat)
    requires
        n < m,
    ensures
        is_dec_digits(dec_repr(n)),
        dec_repr(n).len() > 0,
        dec_val(dec_repr(n)) % m == n,
{
    lemma_dec_repr_digits(n);
    lemma_dec_round_trip(n);
    vstd::arithmetic::div_mod::lemma_small_mod(n, m);
}

/// Round-trip law at the string level: any string whose characters are the
/// decimal printing of a canonical value parses back to that value. This
/// connects `to_decimal`, whose result is such a string, with
/// `from_decimal`, which reads the string's bytes.
pub proof fn lemma_decimal_reparse(s: &str, n: nat, m: nat)
    requires
        n < m,
        s@ == chars_of(dec_repr(n)),
    ensures
        s.spec_bytes().len() > 0,
        is_dec_digits(s.spec_bytes()),
        dec_val(s.spec_bytes()) % m == n,
{
    lemma_dec_repr_digits(n);
    let d = dec_repr(n);
    let cs = chars_of(d);
    assert forall|i: int| 0 <= i < cs.len() implies '\0' <= #[trigger] cs[i] <= '\u{7f}' by {
        assert(48 <= d[i] <= 57);
        assert(cs[i] == d[i] as char);
    }
    assert(vstd::utf8::is_ascii_chars(cs));
    vstd::utf8::is_ascii_chars_encode_utf8(cs);
    assert(s.spec_bytes() =~= d) by {
        assert forall|i: int| 0 <= i < d.len() implies s.spec_bytes()[i] == d[i] by {
            assert(cs[i] == d[i] as char);
            assert(s.spec_bytes()[i] == cs[i] as u8);
        }
    }
    lemma_dec_round_trip(n);
    vstd::arithmetic::div_mod::lemma_small_mod(n, m);
}

/// Marker for the base field: holds its modulus.
pub struct BaseFieldConfig;

impl BaseFieldConfig {
    /// The byte encoding of the base-field modulus q.
    pub fn modulus_bytes() -> (r: [u8; 32])
        ensures
            be_nat(r@) == q_val(),
    {
        q_bytes()
    }
}

/// Marker for the scalar field: holds its modulus.
pub struct ScalarFieldConfig;

impl ScalarFieldConfig {
    /// The byte encoding of the scalar-field modulus r.
    pub fn modulus_bytes() -> (r: [u8; 32])
        ensures
            be_nat(r@) == r_val(),
    {
        r_bytes()
    }
}

} // verus!
