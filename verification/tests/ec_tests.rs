use ark_bls12_381::G1Projective as G1;
use ark_ec::{AdditiveGroup, CurveGroup, PrimeGroup};
use ark_ff::UniformRand;
use ark_serialize::CanonicalSerialize;
use ark_std::Zero;
use plonk::field::Scalar;
use plonk::group::{g1_add, g1_from_bytes, G1Point};

fn g1_to_point(p: G1) -> G1Point {
    let mut bytes = Vec::new();
    p.serialize_compressed(&mut bytes).unwrap();
    g1_from_bytes(&bytes).unwrap()
}

#[test]
fn test_closure() {
    let mut rng = ark_std::test_rng();
    // Let's sample uniformly random group elements
    let a = G1::rand(&mut rng);
    let b = G1::rand(&mut rng);

    assert!(
        (a + b).into_affine().is_on_curve(),
        "a+b is not on the curve"
    );
}

#[test]
fn test_associativity() {
    let mut rng = ark_std::test_rng();
    // Let's sample uniformly random group elements
    let a = G1::rand(&mut rng);
    let b = G1::rand(&mut rng);
    let c = G1::rand(&mut rng);

    assert_eq!(
        (a + b) + c,
        a + (b + c),
        "(a + b) + c is not equal to a + (b + c)"
    );
}

#[test]
fn test_identity() {
    let mut rng = ark_std::test_rng();
    // Let's sample uniformly a random group element
    let a = G1::rand(&mut rng);
    let e = G1::zero();

    assert_eq!(a + e, e + a, "a + e is not equal to e + a");
    assert_eq!(a + e, a, "a + e is not equal to a");
}

#[test]
fn test_inverse() {
    let mut rng = ark_std::test_rng();
    // Let's sample uniformly a random group element
    let a = G1::rand(&mut rng);
    let b = -a;

    assert_eq!(a + b, b + a, "a + (-a) is not equal to (-a) + a");
    assert_eq!(a + b, G1::zero(), "a + (-a) is not equal to e");
}

#[test]
fn test_double() {
    let mut rng = ark_std::test_rng();
    let a = G1::rand(&mut rng);

    assert_eq!(a.double(), a + a, "2a is not equal to a + a");
}

#[test]
fn test_scalar_mul() {
    let mut rng = ark_std::test_rng();
    // Let's sample uniformly a random scalar
    let x = ark_bls12_381::Fr::rand(&mut rng);

    let a = G1::generator() * x;
    let b = G1::generator() * (-x);

    assert_eq!(a + b, G1::ZERO, "a + b is not equal to e");
}

#[test]
fn test_group_wrapper_matches_reference() {
    // the library's point addition agrees with the reference group law
    let mut rng = ark_std::test_rng();
    let a = G1::rand(&mut rng);
    let b = G1::rand(&mut rng);
    let sum = g1_add(&g1_to_point(a), &g1_to_point(b));
    let mut expected = Vec::new();
    (a + b).serialize_compressed(&mut expected).unwrap();
    assert_eq!(sum.to_bytes(), expected);

    // the identity point round-trips through the byte encoding
    let z = plonk::group::g1_gen_mul(&Scalar::zero());
    let mut id_bytes = Vec::new();
    G1::zero().serialize_compressed(&mut id_bytes).unwrap();
    assert_eq!(z.to_bytes(), id_bytes);
}
