use stark_vrf::curve::{AffinePt, StarkCurve};
use stark_vrf::error::Error;
use stark_vrf::field::{BaseFieldConfig, Fq, Fr, Legendre, ScalarFieldConfig};
use stark_vrf::generate_public_key;
use stark_vrf::hash::PoseidonHash;
use stark_vrf::StarkVRF;

fn fq(s: &str) -> Fq {
    Fq::from_decimal(s).unwrap()
}

fn fr(s: &str) -> Fr {
    Fr::from_decimal(s).unwrap()
}

#[test]
fn it_proves_and_verifies() {
    let secret_key = fr("190");
    let public_key = generate_public_key(&secret_key);

    let seed = vec![fq("42")];
    let ecvrf = StarkVRF::new(public_key).unwrap();
    let proof = ecvrf.prove(&secret_key, &seed).unwrap();
    let sqrt_ratio_hint = ecvrf.hash_to_sqrt_ratio_hint(&seed);
    let beta = ecvrf.proof_to_hash(&proof).unwrap();

    println!("public key: {public_key:?}");
    println!("seed: 42");
    println!("proof gamma: {}", {
        let (x, y) = proof.0.to_decimals();
        format!("({x}, {y})")
    });
    println!("proof c: {}", proof.1.to_decimal());
    println!("proof s: {}", proof.2.to_decimal());
    println!("proof verify hint: {}", sqrt_ratio_hint.to_decimal());

    ecvrf.verify(&proof, &seed).expect("proof correct");
    println!("proof verified, random value = {}", beta.to_decimal());
}

#[test]
fn scenario_prove_verify_and_beta_binding() {
    let sk = fr("190");
    let pk = generate_public_key(&sk);
    let vrf = StarkVRF::new(pk).unwrap();
    let seed = vec![fq("42")];

    let proof = vrf.prove(&sk, &seed).unwrap();
    vrf.verify(&proof, &seed).expect("honest proof verifies");

    // Gamma is on the curve.
    assert!(proof.0.is_on_curve());

    // beta equals the hash of [3, gamma.x, gamma.y, 0]: the proof-to-hash tag.
    let beta = vrf.proof_to_hash(&proof).unwrap();
    let hasher = PoseidonHash::new();
    let msg = vec![Fq::small(3), proof.0.x, proof.0.y, Fq::zero()];
    let expect = hasher.hash_to_base(&msg);
    assert!(beta.equals(&expect));

    // Determinism: proving again gives the same proof and output.
    let proof2 = vrf.prove(&sk, &seed).unwrap();
    assert!(proof.0.equals(&proof2.0));
    assert!(proof.1.equals(&proof2.1));
    assert!(proof.2.equals(&proof2.2));
    let beta2 = vrf.proof_to_hash(&proof2).unwrap();
    assert!(beta.equals(&beta2));
}

#[test]
fn scenario_tampered_s_is_rejected() {
    let sk = fr("190");
    let pk = generate_public_key(&sk);
    let vrf = StarkVRF::new(pk).unwrap();
    let seed = vec![fq("42")];

    let proof = vrf.prove(&sk, &seed).unwrap();
    let tampered = (proof.0, proof.1, proof.2.add(&Fr::one()));
    assert_eq!(
        vrf.verify(&tampered, &seed).unwrap_err(),
        Error::ProofVerificationError
    );
}

#[test]
fn scenario_tampered_c_is_rejected() {
    let sk = fr("190");
    let pk = generate_public_key(&sk);
    let vrf = StarkVRF::new(pk).unwrap();
    let seed = vec![fq("42")];

    let proof = vrf.prove(&sk, &seed).unwrap();
    let tampered = (proof.0, proof.1.add(&Fr::one()), proof.2);
    assert_eq!(
        vrf.verify(&tampered, &seed).unwrap_err(),
        Error::ProofVerificationError
    );
}

#[test]
fn scenario_beta_differs_across_seeds() {
    let sk = fr("190");
    let pk = generate_public_key(&sk);
    let vrf = StarkVRF::new(pk).unwrap();

    let seed1 = vec![fq("42")];
    let seed2 = vec![fq("43")];
    let beta1 = vrf.proof_to_hash(&vrf.prove(&sk, &seed1).unwrap()).unwrap();
    let beta2 = vrf.proof_to_hash(&vrf.prove(&sk, &seed2).unwrap()).unwrap();
    assert!(!beta1.equals(&beta2));
}

#[test]
fn scenario_wrong_secret_key() {
    let sk = fr("190");
    let pk = generate_public_key(&sk);
    let vrf = StarkVRF::new(pk).unwrap();
    let seed = vec![fq("42")];

    let wrong = fr("191");
    assert_eq!(
        vrf.prove(&wrong, &seed).unwrap_err(),
        Error::InvalidSecretKey
    );
}

#[test]
fn scenario_sqrt_ratio_hint() {
    let sk = fr("190");
    let pk = generate_public_key(&sk);
    let vrf = StarkVRF::new(pk).unwrap();
    let seed = vec![fq("42")];

    let hint = vrf.hash_to_sqrt_ratio_hint(&seed);

    // Recompute u = hash([pk.x, pk.y, 1, seed...]) and the SWU candidate
    // gx1 = num_gx1 / div^3, with the field operations of the library.
    let hasher = PoseidonHash::new();
    let msg = vec![pk.x, pk.y, Fq::one(), fq("42")];
    let u = hasher.hash_to_base(&msg);

    let a = StarkCurve::coeff_a();
    let b = StarkCurve::coeff_b();
    let z = StarkCurve::zeta();
    let tv1 = z.mul(&u.mul(&u));
    let tv2 = tv1.mul(&tv1).add(&tv1);
    let tv3 = b.mul(&tv2.add(&Fq::one()));
    let tv4 = if tv2.is_zero() { a.mul(&z) } else { a.mul(&tv2.neg()) };
    let num2 = tv3.mul(&tv3);
    let div2 = tv4.mul(&tv4);
    let num_gx1 = num2.add(&a.mul(&div2)).mul(&tv3).add(&b.mul(&div2.mul(&tv4)));
    let div3 = div2.mul(&tv4);
    let gx1 = num_gx1.mul(&div3.inverse().unwrap());

    // The hint squares to gx1 or to zeta * gx1, matching the Legendre test.
    let h2 = hint.mul(&hint);
    match gx1.legendre() {
        Legendre::QuadraticResidue => assert!(h2.equals(&gx1)),
        _ => assert!(h2.equals(&z.mul(&gx1))),
    }
}

#[test]
fn challenge_uses_tag_two() {
    // Recompute the challenge from scratch: H from the tag-1 message and the
    // SWU map, the nonce points from the public nonce derivation, and the
    // challenge hash from the tag-2 message with its trailing zero. A change
    // to any tag or to the message layout would break this equality.
    let sk = fr("190");
    let pk = generate_public_key(&sk);
    let vrf = StarkVRF::new(pk).unwrap();
    let seed = vec![fq("42")];
    let proof = vrf.prove(&sk, &seed).unwrap();

    let hasher = PoseidonHash::new();
    let u = hasher.hash_to_base(&vec![pk.x, pk.y, Fq::one(), fq("42")]);
    let h = stark_vrf::swu::map_to_curve(&u).unwrap();
    let k = vrf.nonce(&sk, &seed).unwrap();
    let g = StarkCurve::generator();
    let kg = g.mul(&k);
    let kh = h.mul(&k);
    let msg = vec![
        Fq::small(2),
        pk.x,
        pk.y,
        h.x,
        h.y,
        proof.0.x,
        proof.0.y,
        kg.x,
        kg.y,
        kh.x,
        kh.y,
        Fq::zero(),
    ];
    let expect_c = hasher.hash_to_scalar(&msg);
    assert!(proof.1.equals(&expect_c));

    // Gamma and s are the documented functions of the same ingredients:
    // Gamma = sk * H and s = k + c * sk.
    assert!(proof.0.equals(&h.mul(&sk)));
    assert!(proof.2.equals(&k.add(&proof.1.mul(&sk))));
}

#[test]
fn scenario_point_serialization_round_trip() {
    let g = StarkCurve::generator();
    let (x, y) = g.to_decimals();
    let back = AffinePt::from_decimals(&x, &y).unwrap();
    assert!(back.equals(&g));
    assert!(back.is_on_curve());
}

#[test]
fn generator_matches_fixed_constants() {
    let g = StarkCurve::generator();
    let (x, y) = g.to_decimals();
    assert_eq!(
        x,
        "874739451078007766457464989774322083649278607533249481151382481072868806602"
    );
    assert_eq!(
        y,
        "152666792071518830868575557812948353041420400780739481342941381225525861407"
    );
    assert!(g.is_on_curve());
    assert_eq!(
        StarkCurve::coeff_b().to_decimal(),
        "3141592653589793238462643383279502884197169399375105820974944592307816406665"
    );
    assert_eq!(StarkCurve::coeff_a().to_decimal(), "1");
    assert_eq!(StarkCurve::zeta().to_decimal(), "19");
}

#[test]
fn field_decimal_round_trip() {
    let x = fq("12345678901234567890");
    let s = x.to_decimal();
    let y = fq(&s);
    assert!(x.equals(&y));
    assert_eq!(s, "12345678901234567890");

    let k = fr("3618502788666131213697322783095070105526743751716087489154079457884512865582");
    let s = k.to_decimal();
    let k2 = fr(&s);
    assert!(k.equals(&k2));
}

#[test]
fn byte_encoding_round_trip() {
    let x = fq("123456789");
    let bytes = x.to_bytes_be();
    let back = Fq::from_bytes_be(&bytes).unwrap();
    assert!(x.equals(&back));

    let k = fr("190");
    let back = Fr::from_bytes_be(&k.to_bytes_be()).unwrap();
    assert!(k.equals(&back));

    // The modulus itself is not a canonical encoding.
    assert_eq!(
        Fq::from_bytes_be(&BaseFieldConfig::modulus_bytes()).unwrap_err(),
        Error::SerializationError
    );
    assert_eq!(
        Fr::from_bytes_be(&ScalarFieldConfig::modulus_bytes()).unwrap_err(),
        Error::SerializationError
    );
}

#[test]
fn field_arithmetic() {
    let two = fq("2");
    let three = fq("3");
    assert_eq!(two.add(&three).to_decimal(), "5");
    assert_eq!(two.mul(&three).to_decimal(), "6");
    assert_eq!(
        Fq::one().neg().to_decimal(),
        "3618502788666131213697322783095070105623107215331596699973092056135872020480"
    );
    assert_eq!(
        two.sub(&three).to_decimal(),
        "3618502788666131213697322783095070105623107215331596699973092056135872020480"
    );
    let inv = three.inverse().unwrap();
    assert_eq!(three.mul(&inv).to_decimal(), "1");
    assert!(Fq::zero().inverse().is_none());

    let four = fq("4");
    let s = four.sqrt().unwrap();
    assert!(s.mul(&s).equals(&four));
    assert_eq!(four.legendre(), Legendre::QuadraticResidue);
    assert_eq!(Fq::zero().legendre(), Legendre::Zero);
    // zeta = 19 is a quadratic non-residue: that is what makes it usable
    // for the SWU map.
    assert_eq!(StarkCurve::zeta().legendre(), Legendre::QuadraticNonResidue);
    assert!(StarkCurve::zeta().sqrt().is_none());
}

#[test]
fn scalar_arithmetic() {
    // r - 1 wraps to 0 when 1 is added.
    let rm1 = fr("3618502788666131213697322783095070105526743751716087489154079457884512865582");
    assert_eq!(rm1.add(&Fr::one()).to_decimal(), "0");
    assert_eq!(Fr::one().sub(&rm1).to_decimal(), "2");
    let two = fr("2");
    let three = fr("3");
    assert_eq!(two.mul(&three).to_decimal(), "6");
    let inv = three.inverse().unwrap();
    assert_eq!(three.mul(&inv).to_decimal(), "1");
}

#[test]
fn point_group_consistency() {
    let g = StarkCurve::generator();
    // 1 * G = G, and 2 * G = G + G = double(G).
    let g1 = g.mul(&Fr::one());
    assert!(g1.equals(&g));
    let g2 = g.mul(&fr("2"));
    let gg = g.add(&g);
    assert!(g2.equals(&gg));
    assert!(g.double().equals(&g2));
    assert!(!g2.equals(&g));
    assert!(g2.is_on_curve());
    // G - G is the identity, and G + identity = G.
    let zero = g.sub(&g);
    assert!(zero.mul(&fr("5")).equals(&zero));
    let back = g.add(&zero);
    assert!(back.equals(&g));
}

#[test]
fn poseidon_digest_depends_on_message() {
    let hasher = PoseidonHash::new();
    let d1 = hasher.hash_to_base(&vec![fq("42")]);
    let d2 = hasher.hash_to_base(&vec![fq("43")]);
    assert!(!d1.equals(&d2));
    // The digest is not the message element itself.
    assert!(!d1.equals(&fq("42")));
    // Trailing elements change the digest.
    let d3 = hasher.hash_to_base(&vec![fq("42"), Fq::zero()]);
    assert!(!d1.equals(&d3));
    // The scalar view is the same digest reduced modulo r.
    let s1 = hasher.hash_to_scalar(&vec![fq("42")]);
    let s2 = hasher.hash_to_scalar(&vec![fq("42")]);
    assert!(s1.equals(&s2));
}

#[test]
fn decode_errors() {
    assert_eq!(Fq::from_decimal("abc").unwrap_err(), Error::SerializationError);
    assert_eq!(Fq::from_decimal("").unwrap_err(), Error::SerializationError);
    assert_eq!(Fr::from_decimal("12x").unwrap_err(), Error::SerializationError);
    // A coordinate pair that is not on the curve is rejected.
    assert_eq!(
        AffinePt::from_decimals("1", "1").unwrap_err(),
        Error::SerializationError
    );
}

#[test]
fn nonce_is_deterministic_and_key_dependent() {
    let sk = fr("190");
    let pk = generate_public_key(&sk);
    let vrf = StarkVRF::new(pk).unwrap();
    let seed = vec![fq("42")];

    let k1 = vrf.nonce(&sk, &seed).unwrap();
    let k2 = vrf.nonce(&sk, &seed).unwrap();
    assert!(k1.equals(&k2));

    let other = vrf.nonce(&fr("191"), &seed).unwrap();
    assert!(!k1.equals(&other));
}

#[test]
fn domain_separation_across_keys() {
    // The same seed under two different public keys gives different outputs.
    let sk1 = fr("190");
    let sk2 = fr("191");
    let vrf1 = StarkVRF::new(generate_public_key(&sk1)).unwrap();
    let vrf2 = StarkVRF::new(generate_public_key(&sk2)).unwrap();
    let seed = vec![fq("42")];
    let h1 = vrf1.hash_to_sqrt_ratio_hint(&seed);
    let h2 = vrf2.hash_to_sqrt_ratio_hint(&seed);
    assert!(!h1.equals(&h2));
}
