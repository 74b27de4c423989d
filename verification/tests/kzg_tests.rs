use ark_bls12_381::{Bls12_381, Fr, G1Projective as G1, G2Projective as G2};
use ark_ec::pairing::Pairing;
use ark_ec::PrimeGroup;
use ark_ff::PrimeField;
use ark_serialize::{CanonicalDeserialize, CanonicalSerialize};
use plonk::field::{scalar_eq, Scalar};
use plonk::group::{g1_from_bytes, g2_from_bytes, G1Point, G2Point};
use plonk::kzg::{kzg_commit, kzg_evaluate, kzg_setup, kzg_verify, CommitError, GlobalParameters};
use plonk::poly::{poly_eval, random_polynomial};

fn fr_to_scalar(x: Fr) -> Scalar {
    let limbs = x.into_bigint().0;
    Scalar::from_limbs(limbs[0], limbs[1], limbs[2], limbs[3]).unwrap()
}

fn scalar_to_fr(x: &Scalar) -> Fr {
    let (l0, l1, l2, l3) = x.limbs();
    Fr::from(ark_ff::BigInt([l0, l1, l2, l3]))
}

fn g1_to_point(p: G1) -> G1Point {
    let mut bytes = Vec::new();
    p.serialize_compressed(&mut bytes).unwrap();
    g1_from_bytes(&bytes).unwrap()
}

fn g2_to_point(p: G2) -> G2Point {
    let mut bytes = Vec::new();
    p.serialize_compressed(&mut bytes).unwrap();
    g2_from_bytes(&bytes).unwrap()
}

fn point_is(p: &G1Point, expected: G1) -> bool {
    let mut bytes = Vec::new();
    expected.serialize_compressed(&mut bytes).unwrap();
    p.to_bytes() == bytes
}

// deterministic sample scalars standing in for the trapdoor of a
// hand-built reference string
fn sample_tau() -> Fr {
    Fr::from(937561u64) * Fr::from(104729u64)
}

fn build_gp(degree: usize, tau: Fr) -> GlobalParameters {
    let mut accumulator = G1::generator();
    let mut tau_powers_g1 = vec![g1_to_point(accumulator)];
    for _ in 1..(degree + 1) {
        accumulator = accumulator * tau;
        tau_powers_g1.push(g1_to_point(accumulator));
    }
    let tau_g2 = g2_to_point(G2::generator() * tau);
    GlobalParameters { tau_powers_g1, tau_g2 }
}

#[test]
fn test_kzg_setup() {
    let degree = 10;
    let gp = kzg_setup(degree);

    assert_eq!(
        gp.tau_powers_g1.len(),
        degree + 1,
        "Length of tau_powers_g1 must be d+1"
    );

    let g2gen = G2::generator();
    let tau_g2 =
        ark_bls12_381::G2Projective::deserialize_compressed(gp.tau_g2.to_bytes().as_slice())
            .unwrap();
    for i in 0..degree {
        let p_next =
            G1::deserialize_compressed(gp.tau_powers_g1[i + 1].to_bytes().as_slice()).unwrap();
        let p_cur =
            G1::deserialize_compressed(gp.tau_powers_g1[i].to_bytes().as_slice()).unwrap();
        assert_eq!(
            Bls12_381::pairing(p_next, g2gen),
            Bls12_381::pairing(p_cur, tau_g2),
            "Pairing(g1*tau^{}, g2) must be equal to pairing(g1*tau^{}, g2*tau)",
            i + 1,
            i
        );
    }
}

#[test]
fn test_kzg_commit_success() {
    let degree = 10;
    // build the setup by hand to know tau
    let tau = sample_tau();
    let gp = build_gp(degree, tau);

    // generate randomly a polynomial f
    let f = random_polynomial(degree);

    // compute commitment of f
    let com_f = kzg_commit(&gp, &f).unwrap();

    let v = poly_eval(&f, &fr_to_scalar(tau));
    assert!(
        point_is(&com_f, G1::generator() * scalar_to_fr(&v)),
        "Commitment of f must be equal to g1*f(tau)"
    );
}

#[test]
fn test_kzg_commit_fail() {
    let degree = 10;

    // generate global parameters
    let gp = kzg_setup(degree);

    // generate randomly a polynomial f of degree + 1
    let f = random_polynomial(degree + 1);

    // commit call should return an error
    let result = kzg_commit(&gp, &f);
    assert!(result.is_err(), "Expected an error but got Ok instead");
    if let Err(e) = result {
        assert!(
            matches!(e, CommitError::CommitFailed),
            "Unexpected error: {:?}",
            e
        );
    }
}

#[test]
fn test_kzg_eval() {
    let degree = 10;
    let tau = sample_tau();
    let gp = build_gp(degree, tau);

    // generate randomly a polynomial f and a point u
    let f = random_polynomial(degree);
    let u = Scalar::from_u64(987654321u64);

    // call eval on gp, f, u
    let (v, proof) = kzg_evaluate(&gp, &f, &u);

    assert!(
        scalar_eq(&v, &poly_eval(&f, &u)),
        "v must be equal to f(u)"
    );

    // compute q as (f-v)/(x-u) and check proof = g1*q(tau)
    let v_poly = plonk::poly::Poly::from_coeffs(vec![v]);
    let f_minus_v = plonk::poly::poly_sub(&f, &v_poly);
    let x_minus_u =
        plonk::poly::Poly::from_coeffs(vec![plonk::field::scalar_neg(&u), Scalar::one()]);
    let (q, _) = plonk::poly::poly_divide(&f_minus_v, &x_minus_u);
    let q_tau = poly_eval(&q, &fr_to_scalar(tau));
    assert!(
        point_is(&proof, G1::generator() * scalar_to_fr(&q_tau)),
        "Proof must be equal to g1*q(tau)"
    );
}

#[test]
fn test_kzg_verify() {
    let degree = 10;
    let tau = sample_tau();
    let gp = build_gp(degree, tau);

    // generate randomly a polynomial f, evaluate at u
    let f = random_polynomial(degree);
    let u = Scalar::from_u64(123456789u64);
    let (v, proof) = kzg_evaluate(&gp, &f, &u);

    // compute com_f as g1*f(tau)
    let f_tau = poly_eval(&f, &fr_to_scalar(tau));
    let com_f = g1_to_point(G1::generator() * scalar_to_fr(&f_tau));

    // call verify on gp, com_f, u, v, proof
    assert!(
        kzg_verify(&gp, &com_f, &u, &v, &proof),
        "Verify must return true"
    );
}

#[test]
fn test_full_kzg_protocol() {
    let degrees = [0usize, 1, 2, 5, 10, 17, 33, 50, 75, 100];
    for &degree in degrees.iter() {
        // generate global parameters
        let gp = kzg_setup(degree);

        // Prover generates randomly a polynomial f
        let f = random_polynomial(degree);

        // Prover computes commitment of f
        let com_f = kzg_commit(&gp, &f).unwrap();

        // Verifier picks u
        let u = Scalar::from_u64(degree as u64 + 42);

        // Prover evaluates f on u
        let (v, proof) = kzg_evaluate(&gp, &f, &u);

        // Verifier verifies (v, proof) sent by Prover
        assert!(
            kzg_verify(&gp, &com_f, &u, &v, &proof),
            "Verify must return true"
        );
    }
}
