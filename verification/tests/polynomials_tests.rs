use plonk::domain::{construct_Omega, construct_vanishing_polynomial};
use plonk::field::{scalar_eq, scalar_neg, Scalar};
use plonk::interpolate::interpolate_polynomial;
use plonk::poly::{
    compose_polynomials, poly_add, poly_divide, poly_eval, poly_mul, pow, random_polynomial, Poly,
};

fn s(x: u64) -> Scalar {
    Scalar::from_u64(x)
}

fn sneg(x: u64) -> Scalar {
    scalar_neg(&Scalar::from_u64(x))
}

fn poly_from(coeffs: Vec<Scalar>) -> Poly {
    Poly::from_coeffs(coeffs)
}

fn coeffs_are(p: &Poly, expected: &[Scalar]) -> bool {
    let got = p.coefficients();
    if got.len() != expected.len() {
        return false;
    }
    got.iter().zip(expected.iter()).all(|(a, b)| scalar_eq(a, b))
}

fn polys_equal(a: &Poly, b: &Poly) -> bool {
    coeffs_are(a, &b.coefficients())
}

#[test]
fn test_rand_poly_degree() {
    for i in 0..100 {
        assert_eq!(random_polynomial(i).degree(), i, "degree is wrong");
    }
}

#[test]
fn test_add_polys() {
    let poly1 = poly_from(vec![s(1), s(2), s(3)]); // 1 + 2*x + 3*x^2
    let poly2 = poly_from(vec![s(4), s(5), s(6)]); // 4 + 5*x + 6*x^2
    let poly3 = poly_add(&poly1, &poly2);
    assert!(coeffs_are(&poly3, &[s(5), s(7), s(9)])); // 5 + 7x + 9*x^2
}

#[test]
fn test_mul_polys() {
    let poly1 = poly_from(vec![s(1), s(1)]); // 1 + x
    let poly2 = poly_from(vec![s(1), s(1)]); // 1 + x
    let poly3 = poly_mul(&poly1, &poly2);
    assert!(coeffs_are(&poly3, &[s(1), s(2), s(1)])); // 1 + 2x + x^2
}

#[test]
fn test_div_polys() {
    let poly1 = poly_from(vec![sneg(1), s(0), s(1)]); // -1 + x^2
    let poly2 = poly_from(vec![sneg(1), s(1)]); // -1 + x
    let (poly3, rem) = poly_divide(&poly1, &poly2);
    assert!(coeffs_are(&poly3, &[s(1), s(1)])); // 1 + x
    assert_eq!(rem.len(), 0);
}

#[test]
fn test_divide_with_q_r_polys() {
    let poly1 = poly_from(vec![
        s(4),
        sneg(5),
        s(0),
        s(0),
        s(0),
        s(0),
        s(0),
        s(0),
        s(0),
        s(1),
    ]); // 4 - 5x + x^9
    let poly2 = poly_from(vec![s(1), s(0), s(1)]); // 1 + x^2
    let (q, r) = poly_divide(&poly1, &poly2);
    assert!(coeffs_are(
        &q,
        &[s(0), sneg(1), s(0), s(1), s(0), sneg(1), s(0), s(1)]
    )); // -x + x^3 - x^5 + x^7
    assert!(coeffs_are(&r, &[s(4), sneg(4)])); // 4 - 4x
}

#[test]
fn test_divide_with_q_r_rand_polys() {
    for i in 0..20 {
        let degree_a = (i * 13 + 7) % 51;
        let degree_b = (i * 11 + 3) % 51;
        let a = random_polynomial(degree_a);
        let b = random_polynomial(degree_b);
        let (q, r) = poly_divide(&a, &b);
        let d = poly_add(&r, &poly_mul(&q, &b));
        let degree_r = r.degree();
        let degree_b = b.degree();
        assert!(
            degree_r < degree_b || (degree_r == 0 && degree_b == 0),
            "Polynomial r must have a smaller degree than polynomial b (r: {}, b: {})",
            degree_r,
            degree_b
        );
        assert!(polys_equal(&d, &a), "Polynomial d must be equal to a");
    }
}

#[test]
fn test_prod_polys() {
    // define g as an element of order 1024
    let omega = construct_Omega(1024).unwrap();
    let expected_product = construct_vanishing_polynomial(1024); // -1 + x^1024

    let mut product = poly_from(vec![s(1)]); // start product with polynomial 1
    for gi in omega.iter() {
        let term = poly_from(vec![scalar_neg(gi), s(1)]); // (X - g^i)
        product = poly_mul(&term, &product);
    }
    assert!(
        polys_equal(&product, &expected_product),
        "Polynomial product must be equal to expected_product"
    );
}

#[test]
fn test_eval_poly() {
    let poly = poly_from(vec![s(0), s(1), s(1)]); // x + x^2
    assert!(scalar_eq(&poly_eval(&poly, &s(5)), &s(30)));
}

#[test]
fn test_poly_interpolation() {
    let x_vals = vec![s(0), s(1), s(2)];
    let y_vals = vec![
        s(0), // f(0)
        s(1), // f(1)
        s(8), // f(2)
    ];
    let poly = interpolate_polynomial(&x_vals, &y_vals);
    // -2x + 3x^2
    assert!(
        coeffs_are(&poly, &[s(0), sneg(2), s(3)]),
        "Interpolated poly must be equal to expected_poly"
    );
}

#[test]
fn test_rand_poly_interpolation() {
    let degrees = [0usize, 1, 5, 17, 33, 50, 64, 77, 90, 100];
    for &degree in degrees.iter() {
        let poly = random_polynomial(degree);
        let x_vals: Vec<Scalar> = (0..(degree as u64 + 1)).map(s).collect();
        let y_vals: Vec<Scalar> = x_vals.iter().map(|x| poly_eval(&poly, x)).collect();
        let interpolated_poly = interpolate_polynomial(&x_vals, &y_vals);
        assert!(
            polys_equal(&interpolated_poly, &poly),
            "Interpolated poly must be equal to poly"
        );
    }
}

#[test]
fn test_pow_poly() {
    let f = poly_from(vec![s(1), s(1)]); // 1 + x
    let f_pow_2 = pow(&f, 2);
    let f_pow_3 = pow(&f, 3);
    assert!(coeffs_are(&f_pow_2, &[s(1), s(2), s(1)])); // 1 + 2x + x^2
    assert!(coeffs_are(&f_pow_3, &[s(1), s(3), s(3), s(1)])); // 1 + 3x + 3x^2 + x^3
}

#[test]
fn test_compose_polys() {
    let f = poly_from(vec![s(0), s(1), s(1)]); // x + x^2
    let g = poly_from(vec![s(1), s(1)]); // 1 + x
    let f_g = compose_polynomials(&f, &g);
    // 2 + 3x + x^2
    assert!(
        coeffs_are(&f_g, &[s(2), s(3), s(1)]),
        "Composed poly must be equal to expected"
    );
}
