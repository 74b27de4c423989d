use plonk::domain::construct_Omega;
use plonk::field::{scalar_add, scalar_eq, Scalar};
use plonk::group::g1_from_bytes;
use plonk::kzg::{kzg_commit, kzg_evaluate, kzg_setup, kzg_verify};
use plonk::poly::{poly_add, poly_divide, poly_eval, random_polynomial, Poly};
use plonk::protocols::{compute_t_and_t1_product_check_rational_functions, ProtocolError};
use plonk::setup::SetupOutput;
use plonk::setup_global_params;
use plonk::setup_proving_key;
use plonk::setup_verification_key;
use plonk::prover;
use plonk::verification;

fn s(x: u64) -> Scalar {
    Scalar::from_u64(x)
}

fn rand_scalar() -> Scalar {
    random_polynomial(0).coeff(0)
}

#[test]
fn test_three_gate_circuit_accepts() {
    // inputs x1=5, x2=6, witness w=1; gates 5+6=11, 6+1=7, 11*7=77
    let setup = setup_global_params::run();
    let pk = setup_proving_key::run(&setup).unwrap();
    let vk = setup_verification_key::run(&setup).unwrap();
    let proof = prover::run(&setup, &pk, &vk).unwrap();
    assert!(scalar_eq(&proof.output, &s(77)));
    assert_eq!(proof.pub_inputs.len(), 2);
    assert!(scalar_eq(&proof.pub_inputs[0], &s(5)));
    assert!(scalar_eq(&proof.pub_inputs[1], &s(6)));
    assert_eq!(verification::run(&setup, &vk, &proof).unwrap(), true);
}

#[test]
fn test_three_gate_circuit_rejects_wrong_output() {
    let setup = setup_global_params::run();
    let pk = setup_proving_key::run(&setup).unwrap();
    let vk = setup_verification_key::run(&setup).unwrap();
    let mut proof = prover::run(&setup, &pk, &vk).unwrap();
    // claim any output other than 77
    proof.output = s(78);
    assert_eq!(verification::run(&setup, &vk, &proof).unwrap(), false);
}

#[test]
fn test_kzg_rejects_wrong_value() {
    let gp = kzg_setup(10);
    let f = random_polynomial(10);
    let com_f = kzg_commit(&gp, &f).unwrap();
    let u = rand_scalar();
    let (v, proof) = kzg_evaluate(&gp, &f, &u);
    assert!(kzg_verify(&gp, &com_f, &u, &v, &proof));

    // any v' different from f(u) must be rejected
    let wrong_v = scalar_add(&v, &Scalar::one());
    assert!(!kzg_verify(&gp, &com_f, &u, &wrong_v, &proof));
}

#[test]
fn test_kzg_rejects_mutated_proof() {
    let gp = kzg_setup(10);
    let f = random_polynomial(10);
    let com_f = kzg_commit(&gp, &f).unwrap();
    let u = rand_scalar();
    let (v, proof) = kzg_evaluate(&gp, &f, &u);

    // mutate single bytes of the proof: the result is either no longer a
    // canonical group encoding, and so rejected outright, or a different
    // group element, which must fail verification
    let bytes = proof.to_bytes();
    for pos in 0..bytes.len() {
        let mut tampered = bytes.clone();
        tampered[pos] ^= 1;
        if let Some(bad) = g1_from_bytes(&tampered) {
            assert!(
                !kzg_verify(&gp, &com_f, &u, &v, &bad),
                "a tampered proof must not verify (byte {})",
                pos
            );
        }
    }
    // substituting any other group element for the proof must fail too
    let shifted = plonk::group::g1_add(&proof, &plonk::group::g1_gen_mul(&Scalar::one()));
    assert!(!kzg_verify(&gp, &com_f, &u, &v, &shifted));
}

#[test]
fn test_point_decoding_rejects_malformed_bytes() {
    // wrong length
    assert!(g1_from_bytes(&vec![0u8; 47]).is_none());
    // all zero bytes are not a canonical compressed encoding
    assert!(g1_from_bytes(&vec![0u8; 48]).is_none());
}

#[test]
fn test_rational_check_reports_zero_denominator() {
    let omega = construct_Omega(8).unwrap();
    let f = random_polynomial(10);
    // g vanishes on the first domain point
    let mut x_vals = omega.clone();
    x_vals.extend((0..3).map(|_| rand_scalar()));
    let mut g_y: Vec<Scalar> = vec![Scalar::zero()];
    g_y.extend((0..10).map(|_| rand_scalar()));
    let g = plonk::interpolate::interpolate_polynomial(&x_vals, &g_y);
    let r = compute_t_and_t1_product_check_rational_functions(&omega, &f, &g);
    assert!(matches!(r, Err(ProtocolError::ZeroDenominator)));
}

#[test]
fn test_divide_small_by_large() {
    // dividing by a higher-degree polynomial leaves the dividend as remainder
    let a = Poly::from_coeffs(vec![s(3), s(4)]);
    let b = Poly::from_coeffs(vec![s(1), s(2), s(1)]);
    let (q, r) = poly_divide(&a, &b);
    assert_eq!(q.len(), 0);
    let ca = a.coefficients();
    let cr = r.coefficients();
    assert_eq!(ca.len(), cr.len());
    assert!(ca.iter().zip(cr.iter()).all(|(x, y)| scalar_eq(x, y)));
}

#[test]
fn test_trailing_zeros_are_trimmed() {
    let p = Poly::from_coeffs(vec![s(1), s(2), s(0), s(0)]);
    assert_eq!(p.len(), 2);
    let q = Poly::from_coeffs(vec![s(0), s(0)]);
    assert_eq!(q.len(), 0);
    assert!(scalar_eq(&poly_eval(&q, &s(5)), &Scalar::zero()));
}

#[test]
fn test_zero_polynomial_arithmetic() {
    let z = Poly::zero();
    let p = Poly::from_coeffs(vec![s(7), s(9)]);
    let sum = poly_add(&z, &p);
    let cp = p.coefficients();
    let cs = sum.coefficients();
    assert_eq!(cp.len(), cs.len());
    assert!(cp.iter().zip(cs.iter()).all(|(x, y)| scalar_eq(x, y)));
    // committing the zero polynomial yields the identity commitment
    let gp = kzg_setup(3);
    let com = kzg_commit(&gp, &z).unwrap();
    let id = plonk::group::g1_gen_mul(&Scalar::zero());
    assert_eq!(com.to_bytes(), id.to_bytes());
}

#[test]
fn test_single_stage_setup_shape() {
    let out: SetupOutput = plonk::setup::run();
    assert_eq!(out.number_gates, 3);
    assert_eq!(out.number_public_inputs, 2);
    assert_eq!(out.number_witnesses, 1);
    assert_eq!(out.d, 12);
    assert_eq!(out.gp.tau_powers_g1.len(), 13);
}

#[test]
fn test_challenge_determinism_across_calls() {
    // identical commitment lists give identical challenges, call after call
    let gp = kzg_setup(4);
    let f = random_polynomial(3);
    let c = kzg_commit(&gp, &f).unwrap();
    let list1 = vec![c.dup()];
    let list2 = vec![c.dup()];
    let a = plonk::transcript::derive_challenge_from_commitments(&list1);
    let b = plonk::transcript::derive_challenge_from_commitments(&list2);
    assert!(scalar_eq(&a, &b));
    let xs = plonk::transcript::derive_multiple_challenges_from_commitments(&list1, 3);
    let ys = plonk::transcript::derive_multiple_challenges_from_commitments(&list2, 3);
    for i in 0..3 {
        assert!(scalar_eq(&xs[i], &ys[i]));
    }
}
