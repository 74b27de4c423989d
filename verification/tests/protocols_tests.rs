use plonk::domain::{construct_Omega, construct_vanishing_polynomial};
use plonk::field::{scalar_eq, scalar_inv, scalar_mul, scalar_neg, Scalar};
use plonk::group::G1Point;
use plonk::interpolate::interpolate_polynomial;
use plonk::kzg::{kzg_commit, kzg_setup, GlobalParameters};
use plonk::poly::{poly_eval, poly_mul, random_polynomial, Poly};
use plonk::protocols::{
    compute_q_zero_test, compute_q_zero_test_from_roots, compute_t1_T_S_zero_test,
    compute_t_and_t1_prescribed_permutation_check, compute_t_and_t1_product_check,
    compute_t_and_t1_product_check_rational_functions, compute_t_and_t1_sum_check,
    prove_T_S_zero_test, prove_equality, prove_prescribed_permutation_check, prove_product_check,
    prove_product_check_rational_functions, prove_sum_check, prove_zero_test, verify_T_S_zero_test,
    verify_equality, verify_prescribed_permutation_check, verify_product_check,
    verify_product_check_rational_functions, verify_sum_check, verify_zero_on_roots_test,
    verify_zero_test,
};

fn s(x: u64) -> Scalar {
    Scalar::from_u64(x)
}

fn rand_scalar() -> Scalar {
    // a fresh uniformly drawn field element, via the library's sampler
    let p = random_polynomial(0);
    p.coeff(0)
}

fn polys_equal(a: &Poly, b: &Poly) -> bool {
    let ca = a.coefficients();
    let cb = b.coefficients();
    ca.len() == cb.len() && ca.iter().zip(cb.iter()).all(|(x, y)| scalar_eq(x, y))
}

fn commit(gp: &GlobalParameters, f: &Poly) -> G1Point {
    kzg_commit(gp, f).unwrap()
}

#[test]
fn test_equality_success() {
    let degree = 10;

    // generate global parameters
    let gp = kzg_setup(degree);

    // Prover generates randomly a polynomial f
    let f = random_polynomial(degree);
    let g = f.clone();

    // Prover computes commitments of f and g
    let com_f = commit(&gp, &f);
    let com_g = commit(&gp, &g);

    // Verifier generates randomly r
    let r = rand_scalar();

    // Prover proves equality
    let proof = prove_equality(&gp, &f, &g, &r);

    // Verifier verifies equality
    assert!(
        verify_equality(&gp, &com_f, &com_g, &r, &proof),
        "Verify must return true because polynomials are equal"
    );
}

#[test]
fn test_equality_fail() {
    let degree = 10;

    // generate global parameters
    let gp = kzg_setup(degree);

    // Prover generates randomly a polynomial f and a polynomial g
    let f = random_polynomial(degree);
    let g = random_polynomial(degree);

    // Prover computes commitments of f and g
    let com_f = commit(&gp, &f);
    let com_g = commit(&gp, &g);

    // Verifier generates randomly r
    let r = rand_scalar();

    // Prover proves equality
    let proof = prove_equality(&gp, &f, &g, &r);

    // Verifier verifies equality
    assert!(
        verify_equality(&gp, &com_f, &com_g, &r, &proof) == false,
        "Verify must return false because polynomials are not equal"
    );
}

#[test]
fn test_zero_test_success() {
    let degree = 10;
    let k = 8;
    let gp = kzg_setup(degree);

    // define Omega as subset of size k
    let omega = construct_Omega(k).unwrap();

    // compute x_vals and y_vals and interpolate f, zero on Omega
    let mut x_vals = omega.clone();
    x_vals.extend((0..3).map(|_| rand_scalar()));
    let mut y_vals: Vec<Scalar> = (0..8).map(|_| Scalar::zero()).collect();
    y_vals.extend((0..3).map(|_| rand_scalar()));
    let f = interpolate_polynomial(&x_vals, &y_vals);

    // check that f is of degree 10
    assert_eq!(f.degree(), 10, "f must be of degree 10");

    // construct Z_Omega (vanishing polynomial) of subset Omega of size 8
    let z_omega = construct_vanishing_polynomial(k); // -1 + x^8

    // Prover computes commitment of f
    let com_f = commit(&gp, &f);

    // Prover computes quotient polynomial of f by Z_Omega
    let q = compute_q_zero_test(k, &f);

    // check that f is divisible by Z_Omega
    assert!(polys_equal(&poly_mul(&q, &z_omega), &f));

    // Verifier generates randomly r
    let r = rand_scalar();

    // Prover proves Zero Test
    let proof = prove_zero_test(&gp, &f, &q, &r);

    // Verifier verifies Zero Test
    assert!(
        verify_zero_test(&gp, k, &com_f, &r, &proof),
        "Verify must return true because polynomial is Zero on Omega"
    );
}

#[test]
fn test_zero_test_fail() {
    let degree = 10;
    let k = 8;
    let gp = kzg_setup(degree);

    // generate f randomly so it won't be zero on Omega
    let f = random_polynomial(10);
    assert_eq!(f.degree(), 10, "f must be of degree 10");

    let z_omega = construct_vanishing_polynomial(k);

    let com_f = commit(&gp, &f);

    let q = compute_q_zero_test(k, &f);

    // check that f is not divisible by Z_Omega
    assert!(!polys_equal(&poly_mul(&q, &z_omega), &f));

    let r = rand_scalar();
    let proof = prove_zero_test(&gp, &f, &q, &r);

    assert!(
        verify_zero_test(&gp, k, &com_f, &r, &proof) == false,
        "Verify must return false because polynomial is not Zero on Omega"
    );
}

#[test]
fn test_zero_on_roots_test_success() {
    let degree = 10;
    let roots = vec![s(2), s(3)];
    let gp = kzg_setup(degree);

    // interpolate f, zero on the roots
    let mut x_vals = roots.clone();
    x_vals.extend((0..9).map(|_| rand_scalar()));
    let mut y_vals: Vec<Scalar> = (0..2).map(|_| Scalar::zero()).collect();
    y_vals.extend((0..9).map(|_| rand_scalar()));
    let f = interpolate_polynomial(&x_vals, &y_vals);

    assert_eq!(f.degree(), 10, "f must be of degree 10");

    let z_omega = plonk::domain::construct_vanishing_polynomial_from_roots(&roots);

    let com_f = commit(&gp, &f);

    let q = compute_q_zero_test_from_roots(&roots, &f);

    // check that f is divisible by Z_Omega
    assert!(polys_equal(&poly_mul(&q, &z_omega), &f));

    let r = rand_scalar();
    let proof = prove_zero_test(&gp, &f, &q, &r);

    assert!(
        verify_zero_on_roots_test(&gp, &roots, &com_f, &r, &proof),
        "Verify must return true because polynomial is Zero on Omega"
    );
}

#[test]
fn test_zero_on_roots_test_fail() {
    let degree = 10;
    let roots = vec![s(2), s(3)];
    let gp = kzg_setup(degree);

    let f = random_polynomial(10);
    assert_eq!(f.degree(), 10, "f must be of degree 10");

    let z_omega = plonk::domain::construct_vanishing_polynomial_from_roots(&roots);

    let com_f = commit(&gp, &f);

    let q = compute_q_zero_test_from_roots(&roots, &f);

    assert!(!polys_equal(&poly_mul(&q, &z_omega), &f));

    let r = rand_scalar();
    let proof = prove_zero_test(&gp, &f, &q, &r);

    assert!(
        verify_zero_on_roots_test(&gp, &roots, &com_f, &r, &proof) == false,
        "Verify must return false because polynomial is not Zero on Omega"
    );
}

#[test]
fn test_product_check_success() {
    // the setup must cover the quotient polynomial of degree 12
    let degree = 12;
    let k = 8;
    let gp = kzg_setup(degree);

    let omega = construct_Omega(k).unwrap();

    // interpolate f whose product over Omega is 1
    let mut x_vals = omega.clone();
    x_vals.extend((0..3).map(|_| rand_scalar()));
    let mut y_vals: Vec<Scalar> = (0..7).map(|_| rand_scalar()).collect();
    let product = y_vals
        .iter()
        .fold(Scalar::one(), |prod, y| scalar_mul(&prod, y));
    y_vals.push(scalar_inv(&product));
    y_vals.extend((0..3).map(|_| rand_scalar()));
    let f = interpolate_polynomial(&x_vals, &y_vals);

    let f_prod_omega = omega
        .iter()
        .fold(Scalar::one(), |prod, w| scalar_mul(&prod, &poly_eval(&f, w)));
    assert!(
        scalar_eq(&f_prod_omega, &Scalar::one()),
        "product of f over Omega must be equal to 1"
    );

    assert_eq!(f.degree(), 10, "f must be of degree 10");

    let z_omega = construct_vanishing_polynomial(k);

    let com_f = commit(&gp, &f);

    let (t, t1) = compute_t_and_t1_product_check(&omega, &f).unwrap();

    let q = compute_q_zero_test(k, &t1);

    // check that t1 is divisible by Z_Omega
    assert!(polys_equal(&poly_mul(&q, &z_omega), &t1));

    let r = rand_scalar();

    let proof = prove_product_check(&gp, &omega[1], k, &t, &q, &f, &r);

    assert!(
        verify_product_check(&gp, &omega[1], k, &com_f, &r, &proof),
        "Verify must return true because polynomial's product over Omega is 1"
    );
}

#[test]
fn test_product_check_fail() {
    let degree = 12;
    let k = 8;
    let gp = kzg_setup(degree);

    let omega = construct_Omega(k).unwrap();

    // generate f randomly so its product over Omega is not 1
    let f = random_polynomial(10);

    let f_prod_omega = omega
        .iter()
        .fold(Scalar::one(), |prod, w| scalar_mul(&prod, &poly_eval(&f, w)));
    assert!(
        !scalar_eq(&f_prod_omega, &Scalar::one()),
        "product of f over Omega must not be equal to 1"
    );

    let z_omega = construct_vanishing_polynomial(k);

    let com_f = commit(&gp, &f);

    let (t, t1) = compute_t_and_t1_product_check(&omega, &f).unwrap();

    let q = compute_q_zero_test(k, &t1);

    assert!(!polys_equal(&poly_mul(&q, &z_omega), &t1));

    let r = rand_scalar();

    let proof = prove_product_check(&gp, &omega[1], k, &t, &q, &f, &r);

    assert!(
        verify_product_check(&gp, &omega[1], k, &com_f, &r, &proof) == false,
        "Verify must return false because polynomial's product over Omega is not equal to 1"
    );
}

#[test]
fn test_sum_check_success() {
    let degree = 10;
    let k = 8;
    let gp = kzg_setup(degree);

    let omega = construct_Omega(k).unwrap();

    // interpolate f whose sum over Omega is 0
    let mut x_vals = omega.clone();
    x_vals.extend((0..3).map(|_| rand_scalar()));
    let mut y_vals: Vec<Scalar> = (0..7).map(|_| rand_scalar()).collect();
    let sum = y_vals
        .iter()
        .fold(Scalar::zero(), |acc, y| plonk::field::scalar_add(&acc, y));
    y_vals.push(scalar_neg(&sum));
    y_vals.extend((0..3).map(|_| rand_scalar()));
    let f = interpolate_polynomial(&x_vals, &y_vals);

    let f_sum_omega = omega.iter().fold(Scalar::zero(), |acc, w| {
        plonk::field::scalar_add(&acc, &poly_eval(&f, w))
    });
    assert!(
        scalar_eq(&f_sum_omega, &Scalar::zero()),
        "sum of f over Omega must be equal to 0"
    );

    assert_eq!(f.degree(), 10, "f must be of degree 10");

    let z_omega = construct_vanishing_polynomial(k);

    let com_f = commit(&gp, &f);

    let (t, t1) = compute_t_and_t1_sum_check(&omega, &f).unwrap();

    let q = compute_q_zero_test(k, &t1);

    assert!(polys_equal(&poly_mul(&q, &z_omega), &t1));

    let r = rand_scalar();

    let proof = prove_sum_check(&gp, &omega[1], k, &t, &q, &f, &r);

    assert!(
        verify_sum_check(&gp, &omega[1], k, &com_f, &r, &proof),
        "Verify must return true because polynomial's sum over Omega is 0"
    );
}

#[test]
fn test_sum_check_fail() {
    let degree = 10;
    let k = 8;
    let gp = kzg_setup(degree);

    let omega = construct_Omega(k).unwrap();

    let f = random_polynomial(10);

    let f_sum_omega = omega.iter().fold(Scalar::zero(), |acc, w| {
        plonk::field::scalar_add(&acc, &poly_eval(&f, w))
    });
    assert!(
        !scalar_eq(&f_sum_omega, &Scalar::zero()),
        "sum of f over Omega must not be equal to 0"
    );

    let z_omega = construct_vanishing_polynomial(k);

    let com_f = commit(&gp, &f);

    let (t, t1) = compute_t_and_t1_sum_check(&omega, &f).unwrap();

    let q = compute_q_zero_test(k, &t1);

    assert!(!polys_equal(&poly_mul(&q, &z_omega), &t1));

    let r = rand_scalar();

    let proof = prove_sum_check(&gp, &omega[1], k, &t, &q, &f, &r);

    assert!(
        verify_sum_check(&gp, &omega[1], k, &com_f, &r, &proof) == false,
        "Verify must return false because polynomial's sum over Omega is not 0"
    );
}

#[test]
fn test_product_check_rational_functions_success() {
    // the setup must cover the quotient polynomial of degree 12
    let degree = 12;
    let k = 8;
    let gp = kzg_setup(degree);

    let omega = construct_Omega(k).unwrap();

    // interpolate f, g with matching products over Omega
    let mut x_vals = omega.clone();
    x_vals.extend((0..3).map(|_| rand_scalar()));
    let mut f_y_vals: Vec<Scalar> = (0..8).map(|_| rand_scalar()).collect();
    let f_product = f_y_vals
        .iter()
        .fold(Scalar::one(), |prod, y| scalar_mul(&prod, y));
    let mut g_y_vals: Vec<Scalar> = (0..7).map(|_| rand_scalar()).collect();
    let g_product = g_y_vals
        .iter()
        .fold(Scalar::one(), |prod, y| scalar_mul(&prod, y));
    // fix the last value of g so the products agree
    g_y_vals.push(scalar_mul(&f_product, &scalar_inv(&g_product)));
    f_y_vals.extend((0..3).map(|_| rand_scalar()));
    g_y_vals.extend((0..3).map(|_| rand_scalar()));
    let f = interpolate_polynomial(&x_vals, &f_y_vals);
    let g = interpolate_polynomial(&x_vals, &g_y_vals);

    assert_eq!(f.degree(), 10, "f must be of degree 10");
    assert_eq!(g.degree(), 10, "g must be of degree 10");

    let z_omega = construct_vanishing_polynomial(k);

    let com_f = commit(&gp, &f);
    let com_g = commit(&gp, &g);

    let (t, t1) = compute_t_and_t1_product_check_rational_functions(&omega, &f, &g).unwrap();

    let q = compute_q_zero_test(k, &t1);

    assert!(polys_equal(&poly_mul(&q, &z_omega), &t1));

    let r = rand_scalar();

    let proof = prove_product_check_rational_functions(&gp, &omega[1], k, &t, &q, &f, &g, &r);

    assert!(
        verify_product_check_rational_functions(&gp, &omega[1], k, &com_f, &com_g, &r, &proof),
        "Verify must return true because rational function's product over Omega is 1"
    );
}

#[test]
fn test_product_check_rational_functions_fail() {
    let degree = 12;
    let k = 8;
    let gp = kzg_setup(degree);

    let omega = construct_Omega(k).unwrap();

    let f = random_polynomial(10);
    let g = random_polynomial(10);

    let z_omega = construct_vanishing_polynomial(k);

    let com_f = commit(&gp, &f);
    let com_g = commit(&gp, &g);

    let (t, t1) = compute_t_and_t1_product_check_rational_functions(&omega, &f, &g).unwrap();

    let q = compute_q_zero_test(k, &t1);

    assert!(!polys_equal(&poly_mul(&q, &z_omega), &t1));

    let r = rand_scalar();

    let proof = prove_product_check_rational_functions(&gp, &omega[1], k, &t, &q, &f, &g, &r);

    assert!(
        verify_product_check_rational_functions(&gp, &omega[1], k, &com_f, &com_g, &r, &proof)
            == false,
        "Verify must return false because rational function's product over Omega is not 1"
    );
}

#[test]
fn test_permutation_check_success() {
    // the setup must cover the quotient polynomial of degree 12
    let degree = 12;
    let k = 8;
    let gp = kzg_setup(degree);

    let omega = construct_Omega(k).unwrap();

    // g takes, over Omega, a permutation of the values of f
    let mut x_vals = omega.clone();
    x_vals.extend((0..3).map(|_| rand_scalar()));
    let mut f_y_vals: Vec<Scalar> = (0..8).map(|_| rand_scalar()).collect();
    // a fixed rotation of the values
    let mut g_y_vals: Vec<Scalar> = Vec::new();
    for i in 0..8 {
        g_y_vals.push(f_y_vals[(i + 3) % 8]);
    }
    f_y_vals.extend((0..3).map(|_| rand_scalar()));
    g_y_vals.extend((0..3).map(|_| rand_scalar()));
    let f = interpolate_polynomial(&x_vals, &f_y_vals);
    let g = interpolate_polynomial(&x_vals, &g_y_vals);

    assert_eq!(f.degree(), 10, "f must be of degree 10");
    assert_eq!(g.degree(), 10, "g must be of degree 10");

    let z_omega = construct_vanishing_polynomial(k);

    let com_f = commit(&gp, &f);
    let com_g = commit(&gp, &g);

    let (t, t1) = compute_t_and_t1_product_check_rational_functions(&omega, &f, &g).unwrap();

    let q = compute_q_zero_test(k, &t1);

    assert!(polys_equal(&poly_mul(&q, &z_omega), &t1));

    let r = rand_scalar();

    let proof = prove_product_check_rational_functions(&gp, &omega[1], k, &t, &q, &f, &g, &r);

    assert!(
        verify_product_check_rational_functions(&gp, &omega[1], k, &com_f, &com_g, &r, &proof),
        "Verify must return true because g is permutation of f over Omega"
    );
}

#[test]
fn test_permutation_check_fail() {
    let degree = 12;
    let k = 8;
    let gp = kzg_setup(degree);

    let omega = construct_Omega(k).unwrap();

    let f = random_polynomial(10);
    let g = random_polynomial(10);

    let z_omega = construct_vanishing_polynomial(k);

    let com_f = commit(&gp, &f);
    let com_g = commit(&gp, &g);

    let (t, t1) = compute_t_and_t1_product_check_rational_functions(&omega, &f, &g).unwrap();

    let q = compute_q_zero_test(k, &t1);

    assert!(!polys_equal(&poly_mul(&q, &z_omega), &t1));

    let r = rand_scalar();

    let proof = prove_product_check_rational_functions(&gp, &omega[1], k, &t, &q, &f, &g, &r);

    assert!(
        verify_product_check_rational_functions(&gp, &omega[1], k, &com_f, &com_g, &r, &proof)
            == false,
        "Verify must return false because g is not permutation of f over Omega"
    );
}

#[test]
fn test_prescribed_permutation_check_success() {
    // the setup must cover the quotient polynomial of degree 12
    let degree = 12;
    let k = 8;
    let gp = kzg_setup(degree);

    let omega = construct_Omega(k).unwrap();

    // W realizes a fixed rotation of Omega; g(W(w)) = f(w)
    let mut x_vals = omega.clone();
    let mut w_y_vals: Vec<Scalar> = Vec::new();
    for i in 0..8 {
        w_y_vals.push(omega[(i + 1) % 8]);
    }
    x_vals.extend((0..3).map(|_| rand_scalar()));

    let mut f_y_vals: Vec<Scalar> = (0..8).map(|_| rand_scalar()).collect();
    let mut g_x_vals = w_y_vals.clone();
    let mut g_y_vals = f_y_vals.clone();

    w_y_vals.extend((0..3).map(|_| rand_scalar()));
    f_y_vals.extend((0..3).map(|_| rand_scalar()));
    g_x_vals.extend((0..3).map(|_| rand_scalar()));
    g_y_vals.extend((0..3).map(|_| rand_scalar()));

    let w_poly = interpolate_polynomial(&x_vals, &w_y_vals);
    let f = interpolate_polynomial(&x_vals, &f_y_vals);
    let g = interpolate_polynomial(&g_x_vals, &g_y_vals);

    for w in omega.iter() {
        assert!(
            scalar_eq(&poly_eval(&f, w), &poly_eval(&g, &poly_eval(&w_poly, w))),
            "f(w) must be equal to g(W(w))"
        );
    }

    assert_eq!(w_poly.degree(), 10, "W must be of degree 10");
    assert_eq!(f.degree(), 10, "f must be of degree 10");
    assert_eq!(g.degree(), 10, "g must be of degree 10");

    let z_omega = construct_vanishing_polynomial(k);

    let com_w = commit(&gp, &w_poly);
    let com_f = commit(&gp, &f);
    let com_g = commit(&gp, &g);

    // Verifier generates randomly (r, s)
    let (r, s) = (rand_scalar(), rand_scalar());

    let (t, t1) =
        compute_t_and_t1_prescribed_permutation_check(&omega, &f, &g, &w_poly, &r, &s).unwrap();

    let q = compute_q_zero_test(k, &t1);

    assert!(polys_equal(&poly_mul(&q, &z_omega), &t1));

    let rp = rand_scalar();

    let proof =
        prove_prescribed_permutation_check(&gp, &omega[1], k, &t, &q, &f, &g, &w_poly, &rp);

    assert!(
        verify_prescribed_permutation_check(
            &gp, &omega[1], k, &com_f, &com_g, &com_w, &r, &s, &rp, &proof,
        ),
        "Verify must return true because g is prescribed permutation of f over Omega"
    );
}

#[test]
fn test_prescribed_permutation_check_fail() {
    let degree = 12;
    let k = 8;
    let gp = kzg_setup(degree);

    let omega = construct_Omega(k).unwrap();

    let f = random_polynomial(10);
    let g = random_polynomial(10);
    let w_poly = random_polynomial(10);

    for w in omega.iter() {
        assert!(
            !scalar_eq(&poly_eval(&f, w), &poly_eval(&g, &poly_eval(&w_poly, w))),
            "f(w) must be not equal to g(W(w))"
        );
    }

    let z_omega = construct_vanishing_polynomial(k);

    let com_w = commit(&gp, &w_poly);
    let com_f = commit(&gp, &f);
    let com_g = commit(&gp, &g);

    let (r, s) = (rand_scalar(), rand_scalar());

    let (t, t1) =
        compute_t_and_t1_prescribed_permutation_check(&omega, &f, &g, &w_poly, &r, &s).unwrap();

    let q = compute_q_zero_test(k, &t1);

    assert!(!polys_equal(&poly_mul(&q, &z_omega), &t1));

    let rp = rand_scalar();

    let proof =
        prove_prescribed_permutation_check(&gp, &omega[1], k, &t, &q, &f, &g, &w_poly, &rp);

    assert!(
        verify_prescribed_permutation_check(
            &gp, &omega[1], k, &com_f, &com_g, &com_w, &r, &s, &rp, &proof,
        ) == false,
        "Verify must return false because g is not prescribed permutation of f over Omega"
    );
}

#[test]
fn test_T_S_zero_test_success() {
    // the setup must cover the quotient polynomial of degree 21
    let degree = 21;
    let d = 12;
    let number_gates = 3;
    let gp = kzg_setup(degree);

    // Define Omega as subgroup of size d
    let omega = construct_Omega(d).unwrap();
    assert_eq!(omega.len(), d, "Omega must be of length d");

    let (mut x_vals, mut y_vals) = (vec![], vec![]);

    // T encodes all inputs: T(w^-j) = input#j
    x_vals.push(omega[d - 1]);
    y_vals.push(s(5));
    x_vals.push(omega[d - 2]);
    y_vals.push(s(6));
    x_vals.push(omega[d - 3]);
    y_vals.push(s(1));

    // Gate 0 (Addition): 5 + 6 = 11
    x_vals.push(omega[0]);
    y_vals.push(s(5));
    x_vals.push(omega[1]);
    y_vals.push(s(6));
    x_vals.push(omega[2]);
    y_vals.push(s(11));

    // Gate 1 (Addition): 6 + 1 = 7
    x_vals.push(omega[3]);
    y_vals.push(s(6));
    x_vals.push(omega[4]);
    y_vals.push(s(1));
    x_vals.push(omega[5]);
    y_vals.push(s(7));

    // Gate 2 (Multiplication): 11 * 7 = 77
    x_vals.push(omega[6]);
    y_vals.push(s(11));
    x_vals.push(omega[7]);
    y_vals.push(s(7));
    x_vals.push(omega[8]);
    y_vals.push(s(77));

    // Interpolate the polynomial T that encodes the entire trace
    let t_poly = interpolate_polynomial(&x_vals, &y_vals);
    assert_eq!(t_poly.degree(), d - 1, "T must be of degree d-1");

    // Define Omega_gates
    let mut omega_gates = vec![];
    (0..number_gates).for_each(|l| omega_gates.push(omega[3 * l]));

    // S encodes the kinds of the gates at the anchors
    let gates = vec![Scalar::one(), Scalar::one(), Scalar::zero()];

    let s_poly = interpolate_polynomial(&omega_gates, &gates);
    assert_eq!(
        s_poly.degree(),
        number_gates - 1,
        "S must be of degree (number_gates - 1)"
    );

    let t1 = compute_t1_T_S_zero_test(&omega[1], &t_poly, &s_poly);

    // check that t1 is of degree 24
    assert_eq!(t1.degree(), 24, "t1 must be of degree 24");

    for y in &omega_gates {
        assert!(
            scalar_eq(&poly_eval(&t1, y), &Scalar::zero()),
            "t1 should be zero on Omega_gates"
        );
    }

    let z_gates = plonk::domain::construct_vanishing_polynomial_from_roots(&omega_gates);

    let com_t = commit(&gp, &t_poly);
    let com_s = commit(&gp, &s_poly);

    let q = compute_q_zero_test_from_roots(&omega_gates, &t1);

    assert_eq!(q.degree(), 21, "q must be of degree 21");

    assert!(polys_equal(&poly_mul(&q, &z_gates), &t1));

    let r = rand_scalar();

    let proof = prove_T_S_zero_test(&gp, &omega[1], &q, &t_poly, &s_poly, &r);

    assert!(
        verify_T_S_zero_test(&gp, &omega[1], &omega_gates, &com_t, &com_s, &r, &proof),
        "Verify must return true because T and S satisfy the trace-selector zero test on Omega_gates"
    );
}

#[test]
fn test_T_S_zero_test_fail() {
    let degree = 21;
    let d = 12;
    let number_gates = 3;
    let gp = kzg_setup(degree);

    let omega = construct_Omega(d).unwrap();
    assert_eq!(omega.len(), d, "Omega must be of length d");

    // generate T, S randomly
    let t_poly = random_polynomial(11);
    let s_poly = random_polynomial(2);

    let mut omega_gates = vec![];
    (0..number_gates).for_each(|l| omega_gates.push(omega[3 * l]));

    let t1 = compute_t1_T_S_zero_test(&omega[1], &t_poly, &s_poly);

    assert_eq!(t1.degree(), 24, "t1 must be of degree 24");

    for y in &omega_gates {
        assert!(
            !scalar_eq(&poly_eval(&t1, y), &Scalar::zero()),
            "t1 should be not zero on Omega_gates"
        );
    }

    let z_gates = plonk::domain::construct_vanishing_polynomial_from_roots(&omega_gates);

    let com_t = commit(&gp, &t_poly);
    let com_s = commit(&gp, &s_poly);

    let q = compute_q_zero_test_from_roots(&omega_gates, &t1);

    assert_eq!(q.degree(), 21, "q must be of degree 21");

    assert!(!polys_equal(&poly_mul(&q, &z_gates), &t1));

    let r = rand_scalar();

    let proof = prove_T_S_zero_test(&gp, &omega[1], &q, &t_poly, &s_poly, &r);

    assert!(
        verify_T_S_zero_test(&gp, &omega[1], &omega_gates, &com_t, &com_s, &r, &proof) == false,
        "Verify must return false because T and S do not satisfy the trace-selector zero test"
    );
}
