use ark_bls12_381::{Fr, G1Projective as G1};
use ark_ec::{AdditiveGroup, PrimeGroup};
use ark_ff::PrimeField;
use ark_serialize::CanonicalSerialize;
use blake2::Digest;
use plonk::domain::{
    construct_Omega, construct_vanishing_polynomial, construct_vanishing_polynomial_from_roots,
};
use plonk::field::{scalar_eq, scalar_neg, scalar_pow, Scalar};
use plonk::group::{g1_from_bytes, G1Point};
use plonk::poly::Poly;
use plonk::transcript::{
    derive_challenge_from_commitments, derive_multiple_challenges_from_commitments,
};

fn s(x: u64) -> Scalar {
    Scalar::from_u64(x)
}

fn sneg(x: u64) -> Scalar {
    scalar_neg(&Scalar::from_u64(x))
}

fn coeffs_are(p: &Poly, expected: &[Scalar]) -> bool {
    let got = p.coefficients();
    if got.len() != expected.len() {
        return false;
    }
    got.iter().zip(expected.iter()).all(|(a, b)| scalar_eq(a, b))
}

fn fr_to_scalar(x: Fr) -> Scalar {
    let limbs = x.into_bigint().0;
    Scalar::from_limbs(limbs[0], limbs[1], limbs[2], limbs[3]).unwrap()
}

fn g1_to_point(p: G1) -> G1Point {
    let mut bytes = Vec::new();
    p.serialize_compressed(&mut bytes).unwrap();
    g1_from_bytes(&bytes).unwrap()
}

#[test]
fn test_construct_Omega() {
    let k = 8;

    // define Omega as subset of size k
    let omega = construct_Omega(k).unwrap();

    for w in &omega {
        assert!(
            scalar_eq(&scalar_pow(w, k), &Scalar::one()),
            "omega must be of order k"
        );
    }
}

#[test]
fn test_construct_Omega_order_one() {
    // the trivial subgroup: the generator raised to the full group order
    let omega = construct_Omega(1).unwrap();
    assert_eq!(omega.len(), 1);
    assert!(scalar_eq(&omega[0], &Scalar::one()));
}

#[test]
fn test_construct_vanishing_polynomial() {
    let k = 4;

    // construct Z_Omega (vanishing polynomial) of subset Omega of size 4
    let z_omega = construct_vanishing_polynomial(k); // -1 + x^4

    assert!(
        coeffs_are(&z_omega, &[sneg(1), s(0), s(0), s(0), s(1)]),
        "Z_Omega must be equal to X^k - 1"
    );
}

#[test]
fn test_construct_vanishing_polynomial_from_roots() {
    // Z_Omega (vanishing polynomial) from roots 2, 3
    let z_omega = construct_vanishing_polynomial_from_roots(&vec![s(2), s(3)]); // (x-2)(x-3)

    assert!(
        coeffs_are(&z_omega, &[s(6), sneg(5), s(1)]),
        "Z_Omega must be equal to (X-2)(X-3)"
    );
}

#[test]
fn test_derive_challenge_from_single_commitment() {
    // Use the generator as a deterministic commitment
    let commitment = G1::generator();

    // Derive the challenge
    let challenge = derive_challenge_from_commitments(&vec![g1_to_point(commitment)]);

    // Re-derive the expected value manually
    let mut bytes = Vec::new();
    commitment
        .serialize_compressed(&mut bytes)
        .expect("Serialization should not fail");
    let hash = blake2::Blake2s256::digest(&bytes);
    let mut hash_bytes = [0u8; 32];
    hash_bytes.copy_from_slice(&hash[..32]);
    let expected = Fr::from_le_bytes_mod_order(&hash_bytes);

    // Now check
    assert!(
        scalar_eq(&challenge, &fr_to_scalar(expected)),
        "Derived challenge doesn't match expected value"
    );
}

#[test]
fn test_derive_challenge_from_two_commitments() {
    let commitment1 = G1::generator();
    let commitment2 = G1::generator().double(); // Distinct second commitment

    let challenge = derive_challenge_from_commitments(&vec![
        g1_to_point(commitment1),
        g1_to_point(commitment2),
    ]);

    // Derive the expected value manually
    let mut bytes = Vec::new();
    commitment1.serialize_compressed(&mut bytes).unwrap();
    commitment2.serialize_compressed(&mut bytes).unwrap();
    let hash = blake2::Blake2s256::digest(&bytes);
    let mut hash_bytes = [0u8; 32];
    hash_bytes.copy_from_slice(&hash[..32]);
    let expected = Fr::from_le_bytes_mod_order(&hash_bytes);

    assert!(
        scalar_eq(&challenge, &fr_to_scalar(expected)),
        "Derived challenge from two commitments doesn't match expected value"
    );
}

#[test]
fn test_derive_three_challenges_from_two_commitments() {
    let commitment1 = G1::generator();
    let commitment2 = G1::generator().double(); // A distinct second commitment

    let challenges = derive_multiple_challenges_from_commitments(
        &vec![g1_to_point(commitment1), g1_to_point(commitment2)],
        3,
    );

    // Manually re-derive the expected challenges
    let mut bytes = Vec::new();
    commitment1.serialize_compressed(&mut bytes).unwrap();
    commitment2.serialize_compressed(&mut bytes).unwrap();
    let hash = blake2::Blake2s256::digest(&bytes);

    let hasher_input = hash.to_vec();
    for i in 0..3 {
        let mut hasher = blake2::Blake2s256::new();
        hasher.update(&hasher_input);
        hasher.update([i as u8]);
        let hash_i = hasher.finalize();
        let mut hash_bytes = [0u8; 32];
        hash_bytes.copy_from_slice(&hash_i[..32]);
        let challenge_i = Fr::from_le_bytes_mod_order(&hash_bytes);
        assert!(
            scalar_eq(&challenges[i], &fr_to_scalar(challenge_i)),
            "Derived challenges do not match expected values"
        );
    }
}
