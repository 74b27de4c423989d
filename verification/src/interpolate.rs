//! Lagrange interpolation.
//!
//! Given `n >= 1` sample points with pairwise distinct x-values, the result
//! is the unique polynomial of degree at most `n - 1` that passes through
//! all of them; the contract states exactly that.

use vstd::prelude::*;
use vstd::arithmetic::div_mod::{
    lemma_add_mod_noop, lemma_add_mod_noop_right, lemma_mod_add_multiples_vanish, lemma_mod_bound,
    lemma_mod_twice, lemma_mul_mod_noop_general, lemma_mul_mod_noop_right, lemma_small_mod,
};
use crate::algebra::{
    lemma_add_mod_both, lemma_peval_bound, lemma_peval_padd, lemma_peval_pmul, lemma_peval_pscale,
    lemma_peval_ptrim, lemma_pmul_len, lemma_pmul_reduced, padd, peval, pmul, pscale, ptrim,
    reduced,
};
use crate::field::{field_q, scalar_inv, scalar_mul, scalar_neg, scalar_sub, Scalar};
use crate::poly::{add_raw, all_wf, lemma_all_wf_reduced, mul_raw, scale_raw, svals, Poly};

verus! {

/// No two entries are equal.
pub open spec fn distinct_vals(s: Seq<int>) -> bool {
    forall|i: int, j: int| 0 <= i < j < s.len() ==> s[i] != s[j]
}

/// Two canonical representatives differ exactly when their difference is
/// nonzero modulo the field order.
proof fn lemma_sub_nonzero(a: int, b: int)
    requires
        0 <= a < field_q(),
        0 <= b < field_q(),
        a != b,
    ensures
        (a - b) % field_q() != 0,
{
    let q = field_q();
    if a > b {
        lemma_small_mod((a - b) as nat, q as nat);
    } else {
        lemma_mod_add_multiples_vanish(a - b, q);
        lemma_small_mod((a - b + q) as nat, q as nat);
    }
}

/// Multiplying two products that are each congruent to one gives one.
proof fn lemma_inv_product(d: int, e: int, f: int, g: int)
    requires
        (d * e) % field_q() == 1,
        (f * g) % field_q() == 1,
    ensures
        ((d * f) % field_q() * ((e * g) % field_q())) % field_q() == 1,
{
    let q = field_q();
    lemma_mul_mod_noop_general(d * f, e * g, q);
    assert((d * f) * (e * g) == (d * e) * (f * g)) by (nonlinear_arith);
    lemma_mul_mod_noop_general(d * e, f * g, q);
    assert(((d * e) % q * ((f * g) % q)) % q == ((d * e) * (f * g)) % q);
    lemma_small_mod(1, q as nat);
}

/// The evaluation of the monic linear factor `x - c`.
pub proof fn lemma_peval_linear(lin: Seq<int>, c: int, x: int)
    requires
        lin.len() == 2,
        lin[0] == (0 - c) % field_q(),
        lin[1] == 1,
    ensures
        peval(lin, x) == (x - c) % field_q(),
{
    let q = field_q();
    let t = lin.skip(1);
    assert(t.len() == 1);
    assert(t[0] == 1);
    assert(t.skip(1).len() == 0);
    assert(peval(t.skip(1), x) == 0);
    assert(x * 0 == 0) by (nonlinear_arith);
    lemma_small_mod(1, q as nat);
    assert(peval(t, x) == 1);
    assert(x * 1 == x) by (nonlinear_arith);
    assert(peval(lin, x) == ((0 - c) % q + x) % q);
    lemma_add_mod_noop((0 - c), x, q);
    lemma_small_mod(0, q as nat);
    // ((0-c)%q + x) % q == ((0-c) + x) % q
    lemma_add_mod_noop_right((0 - c) % q, x, q);
    lemma_add_mod_noop_right(0 - c, x, q);
    assert(((0 - c) % q + x % q) % q == ((0 - c) + x) % q);
    lemma_mod_twice(x, q);
    assert(((0 - c) % q + x % q) % q == ((0 - c) % q + x) % q) by {
        lemma_add_mod_noop_right((0 - c) % q, x % q, q);
        lemma_add_mod_noop_right((0 - c) % q, x, q);
        lemma_mod_twice(x, q);
    }
}

/// Interpolates the polynomial through the given points.  The x-values must
/// be pairwise distinct; the result evaluates to `y_points[i]` at
/// `x_points[i]` for every `i`, and has degree at most `n - 1`.
pub fn interpolate_polynomial(x_points: &Vec<Scalar>, y_points: &Vec<Scalar>) -> (r: Poly)
    requires
        x_points@.len() == y_points@.len(),
        x_points@.len() >= 1,
        all_wf(x_points@),
        all_wf(y_points@),
        distinct_vals(svals(x_points@)),
    ensures
        r.wf(),
        r.vals().len() <= x_points@.len(),
        forall|i: int|
            0 <= i < x_points@.len() ==> peval(r.vals(), svals(x_points@)[i]) == svals(
                y_points@,
            )[i],
{
    let ghost xv = svals(x_points@);
    let ghost yv = svals(y_points@);
    proof {
        lemma_all_wf_reduced(x_points@);
        lemma_all_wf_reduced(y_points@);
    }
    let n = x_points.len();
    let mut acc: Vec<Scalar> = Vec::new();
    let mut i: usize = 0;
    while i < n
        invariant
            i <= n,
            n == x_points@.len(),
            n == y_points@.len(),
            n >= 1,
            xv == svals(x_points@),
            yv == svals(y_points@),
            all_wf(x_points@),
            all_wf(y_points@),
            reduced(xv),
            reduced(yv),
            distinct_vals(xv),
            all_wf(acc@),
            acc@.len() <= n,
            forall|m: int|
                0 <= m < n ==> peval(svals(acc@), xv[m]) == if m < i {
                    yv[m]
                } else {
                    0
                },
        decreases n - i,
    {
        // build the numerator product of the linear factors (x - x_j), j != i,
        // and the running inverse of the denominator product
        let mut num: Vec<Scalar> = Vec::new();
        num.push(Scalar::one());
        let mut dinv: Scalar = Scalar::one();
        proof {
            assert(svals(num@) =~= seq![1int]);
            assert(svals(num@).skip(1).len() == 0);
            assert(peval(svals(num@).skip(1), xv[i as int]) == 0);
            assert(xv[i as int] * 0 == 0) by (nonlinear_arith);
            lemma_small_mod(1, field_q() as nat);
            assert(peval(svals(num@), xv[i as int]) == 1);
            assert(1int * 1int == 1int) by (nonlinear_arith);
        }
        let mut j: usize = 0;
        while j < n
            invariant
                j <= n,
                i < n,
                n == x_points@.len(),
                xv == svals(x_points@),
                all_wf(x_points@),
                reduced(xv),
                distinct_vals(xv),
                all_wf(num@),
                dinv.wf(),
                num@.len() == 1 + if j <= i {
                    j as int
                } else {
                    j - 1
                },
                (dinv.val() * peval(svals(num@), xv[i as int])) % field_q() == 1,
                forall|m: int|
                    0 <= m < j && m != i ==> peval(svals(num@), #[trigger] xv[m]) == 0,
            decreases n - j,
        {
            if j != i {
                let neg = scalar_neg(&x_points[j]);
                let mut lin: Vec<Scalar> = Vec::new();
                lin.push(neg);
                lin.push(Scalar::one());
                let ghost linv = svals(lin@);
                let ghost numv = svals(num@);
                proof {
                    assert(linv.len() == 2);
                    assert(linv[0] == (0 - xv[j as int]) % field_q());
                    assert(linv[1] == 1);
                    assert(all_wf(lin@));
                    lemma_all_wf_reduced(lin@);
                    lemma_all_wf_reduced(num@);
                }
                let new_num = mul_raw(&lin, &num);
                let diff = scalar_sub(&x_points[i], &x_points[j]);
                proof {
                    lemma_sub_nonzero(xv[i as int], xv[j as int]);
                }
                let finv = scalar_inv(&diff);
                let new_dinv = scalar_mul(&dinv, &finv);
                proof {
                    let q = field_q();
                    lemma_pmul_len(linv, numv);
                    // evaluations of the new numerator
                    assert forall|m: int| 0 <= m < n implies peval(svals(new_num@), #[trigger] xv[m])
                        == (peval(numv, xv[m]) * ((xv[m] - xv[j as int]) % q)) % q by {
                        lemma_peval_pmul(linv, numv, xv[m]);
                        lemma_peval_linear(linv, xv[j as int], xv[m]);
                        assert(peval(linv, xv[m]) * peval(numv, xv[m]) == peval(numv, xv[m])
                            * peval(linv, xv[m])) by (nonlinear_arith);
                    }
                    // roots already collected stay roots, and x_j joins them
                    assert forall|m: int| 0 <= m < j + 1 && m != i implies peval(
                        svals(new_num@),
                        #[trigger] xv[m],
                    ) == 0 by {
                        if m < j {
                            assert(peval(numv, xv[m]) == 0);
                            assert(0int * ((xv[m] - xv[j as int]) % q) == 0) by (nonlinear_arith);
                            lemma_small_mod(0, q as nat);
                        } else {
                            assert(m == j);
                            lemma_sub_nonzero(xv[i as int], xv[j as int]);
                            assert((xv[m] - xv[j as int]) % q == 0) by {
                                assert(xv[m] - xv[j as int] == 0);
                                lemma_small_mod(0, q as nat);
                            }
                            assert(peval(numv, xv[m]) * 0 == 0) by (nonlinear_arith);
                            lemma_small_mod(0, q as nat);
                        }
                    }
                    // the inverse of the denominator product follows along
                    let e = peval(numv, xv[i as int]);
                    let d = (xv[i as int] - xv[j as int]) % q;
                    lemma_inv_product(dinv.val(), e, finv.val(), d);
                    assert((finv.val() * diff.val()) % q == 1);
                    assert(peval(svals(new_num@), xv[i as int]) == (e * d) % q);
                }
                num = new_num;
                dinv = new_dinv;
            }
            j += 1;
        }
        // term = y_i * dinv * numerator
        let c = scalar_mul(&y_points[i], &dinv);
        let term = scale_raw(&num, &c);
        let new_acc = add_raw(&acc, &term);
        proof {
            let q = field_q();
            let accv = svals(acc@);
            let numv = svals(num@);
            let termv = svals(term@);
            lemma_all_wf_reduced(acc@);
            lemma_all_wf_reduced(term@);
            lemma_all_wf_reduced(num@);
            assert forall|m: int| 0 <= m < n implies peval(svals(new_acc@), #[trigger] xv[m])
                == if m < i + 1 {
                yv[m]
            } else {
                0
            } by {
                lemma_peval_padd(accv, termv, xv[m]);
                lemma_peval_pscale(numv, c.val(), xv[m]);
                lemma_peval_bound(accv, xv[m]);
                lemma_peval_bound(numv, xv[m]);
                let e = peval(numv, xv[m]);
                if m != i {
                    assert(e == 0);
                    assert(c.val() * 0 == 0) by (nonlinear_arith);
                    lemma_small_mod(0, q as nat);
                    assert(peval(termv, xv[m]) == 0);
                    lemma_small_mod(peval(accv, xv[m]) as nat, q as nat);
                    assert(peval(svals(new_acc@), xv[m]) == peval(accv, xv[m]));
                } else {
                    assert(peval(accv, xv[m]) == 0);
                    // c * e == y_i * (dinv * e) == y_i (mod q)
                    let ei = peval(numv, xv[i as int]);
                    assert((c.val() * ei) % q == yv[i as int]) by {
                        lemma_mul_mod_noop_general(yv[i as int] * dinv.val(), ei, q);
                        assert((yv[i as int] * dinv.val()) * ei == yv[i as int] * (dinv.val()
                            * ei)) by (nonlinear_arith);
                        lemma_mul_mod_noop_right(yv[i as int], dinv.val() * ei, q);
                        assert((yv[i as int] * ((dinv.val() * ei) % q)) % q == (yv[i as int] * (
                        dinv.val() * ei)) % q);
                        assert(yv[i as int] * 1 == yv[i as int]) by (nonlinear_arith);
                        lemma_small_mod(yv[i as int] as nat, q as nat);
                        assert(c.val() == (yv[i as int] * dinv.val()) % q);
                        lemma_mul_mod_noop_general(c.val(), ei, q);
                        lemma_mod_twice(c.val(), q);
                        lemma_mul_mod_noop_general(yv[i as int] * dinv.val(), ei, q);
                    }
                    assert(peval(termv, xv[m]) == (c.val() * ei) % q);
                    lemma_small_mod(yv[i as int] as nat, q as nat);
                    assert(peval(svals(new_acc@), xv[m]) == (0 + yv[i as int]) % q);
                }
            }
            assert(svals(new_acc@).len() <= n);
        }
        acc = new_acc;
        i += 1;
    }
    let ghost accv = svals(acc@);
    let r = Poly::from_coeffs(acc);
    proof {
        assert forall|m: int| 0 <= m < n implies peval(r.vals(), #[trigger] xv[m]) == yv[m] by {
            lemma_peval_ptrim(accv, xv[m]);
        }
        crate::algebra::lemma_ptrim_canonical(accv);
    }
    r
}

} // verus!
