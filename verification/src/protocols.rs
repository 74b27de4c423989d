//! The algebraic check protocols.
//!
//! Each protocol reduces a property of committed polynomials to exact
//! polynomial divisibility: the prover commits to a quotient, a
//! Fiat–Shamir challenge is drawn, the prover opens the relevant
//! polynomials at the challenge (and at its shift by the subgroup
//! generator, and at boundary points) with KZG proofs, and the verifier
//! replays the openings and a small identity at the challenge point.

use vstd::prelude::*;
use vstd::arithmetic::div_mod::lemma_small_mod;
use crate::algebra::{
    canonical, coef, lemma_peval_bound, lemma_peval_pmul, lemma_peval_psub, lemma_peval_ptrim,
    lemma_pmul_reduced, lemma_ptrim_canonical, padd, peval, pmul, psub, ptrim, reduced,
};
use crate::domain::{
    construct_vanishing_polynomial, construct_vanishing_polynomial_from_roots, roots_poly,
    vanishing_spec,
};
use crate::field::{field_q, pow_mod, scalar_mul, scalar_pow, scalar_sub, scalar_eq, Scalar};
use crate::group::G1Point;
use crate::kzg::{
    is_kzg_opening, kzg_commit, kzg_evaluate, kzg_verify, spec_kzg_accepts, commit_of,
    GlobalParameters,
};
use crate::poly::{lemma_all_wf_reduced, poly_divide, poly_eval, svals, Poly};

verus! {

/// Proof that two committed polynomials agree at a point.
pub struct EqualityProof {
    pub y_f: Scalar,
    pub proof_f: G1Point,
    pub y_g: Scalar,
    pub proof_g: G1Point,
}

impl EqualityProof {
    pub open spec fn wf(self) -> bool {
        self.y_f.wf() && self.proof_f.wf() && self.y_g.wf() && self.proof_g.wf()
    }
}

/// Proof that a committed polynomial vanishes on a domain: the quotient
/// commitment and the openings of the polynomial and the quotient at the
/// challenge.
pub struct ZeroTestProof {
    pub com_q: G1Point,
    pub f_r: Scalar,
    pub proof_f_r: G1Point,
    pub q_r: Scalar,
    pub proof_q_r: G1Point,
}

impl ZeroTestProof {
    pub open spec fn wf(self) -> bool {
        self.com_q.wf() && self.f_r.wf() && self.proof_f_r.wf() && self.q_r.wf()
            && self.proof_q_r.wf()
    }
}

/// Exact division: some remainder below the divisor's degree completes
/// the quotient to the dividend.
pub open spec fn divides_with(qv: Seq<int>, bv: Seq<int>, av: Seq<int>) -> bool {
    exists|remv: Seq<int>|
        {
            &&& canonical(remv)
            &&& remv.len() < bv.len()
            &&& forall|j: int|
                0 <= j ==> #[trigger] coef(padd(pmul(qv, bv), remv), j) == coef(av, j)
        }
}

/// Computes the quotient of `f` by the subgroup vanishing polynomial
/// `x^k - 1`; the remainder is discarded.
pub fn compute_q_zero_test(k: usize, f: &Poly) -> (r: Poly)
    requires
        1 <= k < usize::MAX,
        f.wf(),
    ensures
        r.wf(),
        divides_with(r.vals(), vanishing_spec(k as nat), f.vals()),
        r.vals().len() <= if f.vals().len() >= k + 1 {
            f.vals().len() - k
        } else {
            0
        },
{
    let z = construct_vanishing_polynomial(k);
    let (q, rem) = poly_divide(f, &z);
    proof {
        let remv = rem.vals();
        assert(canonical(remv));
        assert(divides_with(q.vals(), vanishing_spec(k as nat), f.vals()));
    }
    q
}

/// Computes the quotient of `f` by the vanishing polynomial of the given
/// root set; the remainder is discarded.
pub fn compute_q_zero_test_from_roots(roots: &Vec<Scalar>, f: &Poly) -> (r: Poly)
    requires
        crate::poly::all_wf(roots@),
        f.wf(),
    ensures
        r.wf(),
        divides_with(r.vals(), roots_poly(svals(roots@)), f.vals()),
        r.vals().len() <= if f.vals().len() >= roots@.len() + 1 {
            f.vals().len() - roots@.len()
        } else {
            0
        },
{
    let z = construct_vanishing_polynomial_from_roots(roots);
    let (q, rem) = poly_divide(f, &z);
    proof {
        let remv = rem.vals();
        assert(canonical(remv));
        assert(divides_with(q.vals(), roots_poly(svals(roots@)), f.vals()));
    }
    q
}

/// Generates a proof that two committed polynomials agree at `r`: their
/// openings at `r`.
pub fn prove_equality(gp: &GlobalParameters, f: &Poly, g: &Poly, r: &Scalar) -> (pf: EqualityProof)
    requires
        gp.wf(),
        f.wf(),
        g.wf(),
        r.wf(),
        f.vals().len() <= gp.srs().len(),
        g.vals().len() <= gp.srs().len(),
    ensures
        pf.wf(),
        pf.y_f.val() == peval(f.vals(), r.val()),
        pf.y_g.val() == peval(g.vals(), r.val()),
        is_kzg_opening(gp.srs(), f.vals(), r.val(), pf.y_f.val(), pf.proof_f.rep()),
        is_kzg_opening(gp.srs(), g.vals(), r.val(), pf.y_g.val(), pf.proof_g.rep()),
{
    let (y_f, proof_f) = kzg_evaluate(gp, f, r);
    let (y_g, proof_g) = kzg_evaluate(gp, g, r);
    EqualityProof { y_f, proof_f, y_g, proof_g }
}

/// What the equality verifier accepts: equal claimed values and two valid
/// openings.
pub open spec fn equality_accepts(
    tau_g2: Seq<u8>,
    com_f: Seq<u8>,
    com_g: Seq<u8>,
    r: int,
    pf: EqualityProof,
) -> bool {
    &&& pf.y_f.val() == pf.y_g.val()
    &&& spec_kzg_accepts(tau_g2, com_f, r, pf.y_f.val(), pf.proof_f.rep())
    &&& spec_kzg_accepts(tau_g2, com_g, r, pf.y_g.val(), pf.proof_g.rep())
}

/// Verifies a proof that two committed polynomials agree at `r`.
pub fn verify_equality(
    gp: &GlobalParameters,
    com_f: &G1Point,
    com_g: &G1Point,
    r: &Scalar,
    pf: &EqualityProof,
) -> (res: bool)
    requires
        gp.wf(),
        com_f.wf(),
        com_g.wf(),
        r.wf(),
        pf.wf(),
    ensures
        res == equality_accepts(gp.tau_g2.rep(), com_f.rep(), com_g.rep(), r.val(), *pf),
{
    let eq = scalar_eq(&pf.y_f, &pf.y_g);
    if !eq {
        return false;
    }
    let ok_f = kzg_verify(gp, com_f, r, &pf.y_f, &pf.proof_f);
    if !ok_f {
        return false;
    }
    kzg_verify(gp, com_g, r, &pf.y_g, &pf.proof_g)
}

/// Generates the zero-test proof: the quotient commitment and the openings
/// of `f` and `q` at the challenge `r`.
pub fn prove_zero_test(gp: &GlobalParameters, f: &Poly, q: &Poly, r: &Scalar) -> (pf: ZeroTestProof)
    requires
        gp.wf(),
        f.wf(),
        q.wf(),
        r.wf(),
        f.vals().len() <= gp.srs().len(),
        q.vals().len() <= gp.srs().len(),
    ensures
        pf.wf(),
        pf.com_q.rep() == commit_of(gp.srs(), q.vals()),
        pf.f_r.val() == peval(f.vals(), r.val()),
        pf.q_r.val() == peval(q.vals(), r.val()),
        is_kzg_opening(gp.srs(), f.vals(), r.val(), pf.f_r.val(), pf.proof_f_r.rep()),
        is_kzg_opening(gp.srs(), q.vals(), r.val(), pf.q_r.val(), pf.proof_q_r.rep()),
{
    let com_q = match kzg_commit(gp, q) {
        Ok(c) => c,
        Err(_) => {
            proof {
                assert(false);
            }
            crate::group::g1_gen_mul(&Scalar::zero())
        },
    };
    let (f_r, proof_f_r) = kzg_evaluate(gp, f, r);
    let (q_r, proof_q_r) = kzg_evaluate(gp, q, r);
    ZeroTestProof { com_q, f_r, proof_f_r, q_r, proof_q_r }
}

/// What the subgroup zero-test verifier accepts: the stepping identity
/// `f(r) = q(r) * (r^k - 1)` and valid openings of the quotient and of the
/// committed polynomial at `r`.
pub open spec fn zero_test_accepts(
    tau_g2: Seq<u8>,
    k: nat,
    com_f: Seq<u8>,
    r: int,
    pf: ZeroTestProof,
) -> bool {
    &&& pf.f_r.val() == (pf.q_r.val() * ((pow_mod(r, k) - 1) % field_q())) % field_q()
    &&& spec_kzg_accepts(tau_g2, pf.com_q.rep(), r, pf.q_r.val(), pf.proof_q_r.rep())
    &&& spec_kzg_accepts(tau_g2, com_f, r, pf.f_r.val(), pf.proof_f_r.rep())
}

/// Verifies a subgroup zero test.
pub fn verify_zero_test(
    gp: &GlobalParameters,
    k: usize,
    com_f: &G1Point,
    r: &Scalar,
    pf: &ZeroTestProof,
) -> (res: bool)
    requires
        gp.wf(),
        com_f.wf(),
        r.wf(),
        pf.wf(),
    ensures
        res == zero_test_accepts(gp.tau_g2.rep(), k as nat, com_f.rep(), r.val(), *pf),
{
    let rk = scalar_pow(r, k);
    let rk_minus_1 = scalar_sub(&rk, &Scalar::one());
    let rhs = scalar_mul(&pf.q_r, &rk_minus_1);
    let id = scalar_eq(&pf.f_r, &rhs);
    if !id {
        return false;
    }
    let ok_q = kzg_verify(gp, &pf.com_q, r, &pf.q_r, &pf.proof_q_r);
    if !ok_q {
        return false;
    }
    kzg_verify(gp, com_f, r, &pf.f_r, &pf.proof_f_r)
}

/// What the root-set zero-test verifier accepts: the identity
/// `f(r) = q(r) * Z(r)` with `Z` the vanishing polynomial of the root set,
/// and valid openings.
pub open spec fn zero_on_roots_accepts(
    tau_g2: Seq<u8>,
    roots: Seq<int>,
    com_f: Seq<u8>,
    r: int,
    pf: ZeroTestProof,
) -> bool {
    &&& pf.f_r.val() == (pf.q_r.val() * peval(roots_poly(roots), r)) % field_q()
    &&& spec_kzg_accepts(tau_g2, pf.com_q.rep(), r, pf.q_r.val(), pf.proof_q_r.rep())
    &&& spec_kzg_accepts(tau_g2, com_f, r, pf.f_r.val(), pf.proof_f_r.rep())
}

/// Verifies a zero test against an arbitrary root set.
pub fn verify_zero_on_roots_test(
    gp: &GlobalParameters,
    roots: &Vec<Scalar>,
    com_f: &G1Point,
    r: &Scalar,
    pf: &ZeroTestProof,
) -> (res: bool)
    requires
        gp.wf(),
        crate::poly::all_wf(roots@),
        com_f.wf(),
        r.wf(),
        pf.wf(),
    ensures
        res == zero_on_roots_accepts(
            gp.tau_g2.rep(),
            svals(roots@),
            com_f.rep(),
            r.val(),
            *pf,
        ),
{
    let z = construct_vanishing_polynomial_from_roots(roots);
    let z_r = poly_eval(&z, r);
    let rhs = scalar_mul(&pf.q_r, &z_r);
    let id = scalar_eq(&pf.f_r, &rhs);
    if !id {
        return false;
    }
    let ok_q = kzg_verify(gp, &pf.com_q, r, &pf.q_r, &pf.proof_q_r);
    if !ok_q {
        return false;
    }
    kzg_verify(gp, com_f, r, &pf.f_r, &pf.proof_f_r)
}


/// Failure of an auxiliary-polynomial construction or of a pipeline stage.
#[derive(Debug, Clone, PartialEq, Eq, Structural)]
pub enum ProtocolError {
    /// The interpolation points drawn for the running polynomial collided.
    PointsNotDistinct,
    /// A denominator evaluated to zero.
    ZeroDenominator,
    /// The evaluation domain's generator did not have the expected order.
    DomainNotClosed,
}

/// The product of the first `n` evaluations of `fv` over the domain.
pub open spec fn prod_evals(fv: Seq<int>, om: Seq<int>, n: nat) -> int
    decreases n,
{
    if n == 0 {
        1
    } else {
        (prod_evals(fv, om, (n - 1) as nat) * peval(fv, om[n - 1])) % field_q()
    }
}

/// The sum of the first `n` evaluations of `fv` over the domain.
pub open spec fn sum_evals(fv: Seq<int>, om: Seq<int>, n: nat) -> int
    decreases n,
{
    if n == 0 {
        0
    } else {
        (sum_evals(fv, om, (n - 1) as nat) + peval(fv, om[n - 1])) % field_q()
    }
}

/// Whether all entries of a vector hold pairwise distinct field values.
pub(crate) fn all_distinct(xs: &Vec<Scalar>) -> (r: bool)
    ensures
        r == crate::interpolate::distinct_vals(svals(xs@)),
{
    let n = xs.len();
    let mut i: usize = 0;
    while i < n
        invariant
            i <= n,
            n == xs@.len(),
            forall|a: int, b: int| 0 <= a < b < n && a < i ==> svals(xs@)[a] != svals(xs@)[b],
        decreases n - i,
    {
        let mut j: usize = i + 1;
        while j < n
            invariant
                i < j <= n || (i + 1 > n && j == i + 1),
                i < n,
                n == xs@.len(),
                forall|b: int| i < b < j ==> svals(xs@)[i as int] != svals(xs@)[b],
            decreases n - j,
        {
            if scalar_eq(&xs[i], &xs[j]) {
                proof {
                    assert(svals(xs@)[i as int] == svals(xs@)[j as int]);
                }
                return false;
            }
            j += 1;
        }
        i += 1;
    }
    true
}

/// Interpolates the running polynomial through the domain points and a few
/// freshly drawn points: the result matches the prescribed values on the
/// domain, and carries the extra degrees of freedom the protocol needs.
/// Fails only if the drawn points collide.
fn interpolate_padded(omega: &Vec<Scalar>, y_core: &Vec<Scalar>, extra: usize) -> (r: Result<
    Poly,
    ProtocolError,
>)
    requires
        crate::poly::all_wf(omega@),
        crate::poly::all_wf(y_core@),
        omega@.len() == y_core@.len(),
        omega@.len() >= 1,
        omega@.len() + extra < usize::MAX,
    ensures
        match r {
            Ok(t) => {
                &&& t.wf()
                &&& t.vals().len() <= omega@.len() + extra
                &&& forall|i: int|
                    0 <= i < omega@.len() ==> peval(t.vals(), svals(omega@)[i]) == svals(
                        y_core@,
                    )[i]
            },
            Err(e) => {
                &&& e == ProtocolError::PointsNotDistinct
                &&& (extra > 0 || !crate::interpolate::distinct_vals(svals(omega@)))
            },
        },
{
    let mut xs = crate::poly::copy_scalars(omega);
    let mut ys = crate::poly::copy_scalars(y_core);
    let mut e: usize = 0;
    while e < extra
        invariant
            e <= extra,
            omega@.len() + extra < usize::MAX,
            xs@.len() == omega@.len() + e,
            ys@.len() == omega@.len() + e,
            crate::poly::all_wf(xs@),
            crate::poly::all_wf(ys@),
            forall|i: int| 0 <= i < omega@.len() ==> xs@[i] == omega@[i],
            forall|i: int| 0 <= i < omega@.len() ==> ys@[i] == y_core@[i],
        decreases extra - e,
    {
        xs.push(crate::field::scalar_rand());
        ys.push(crate::field::scalar_rand());
        e += 1;
    }
    if !all_distinct(&xs) {
        proof {
            if extra == 0 {
                assert(xs@ =~= omega@);
            }
        }
        return Err(ProtocolError::PointsNotDistinct);
    }
    let t = crate::interpolate::interpolate_polynomial(&xs, &ys);
    proof {
        assert forall|i: int|
            0 <= i < omega@.len() implies peval(t.vals(), svals(omega@)[i]) == svals(
            y_core@,
        )[i] by {
            assert(svals(xs@)[i] == svals(omega@)[i]);
            assert(svals(ys@)[i] == svals(y_core@)[i]);
        }
    }
    Ok(t)
}

/// The monic or general linear polynomial `c0 + c1 * x`, with its
/// evaluation pinned.
fn linear_poly(c0: &Scalar, c1: &Scalar) -> (r: Poly)
    requires
        c0.wf(),
        c1.wf(),
    ensures
        r.wf(),
        forall|x: int| #[trigger]
            peval(r.vals(), x) == (c0.val() + x * c1.val()) % field_q(),
        r.vals().len() <= 2,
{
    let mut v: Vec<Scalar> = Vec::new();
    v.push(*c0);
    v.push(*c1);
    let r = Poly::from_coeffs(v);
    proof {
        let raw = svals(v@);
        assert(raw =~= seq![c0.val(), c1.val()]);
        assert forall|x: int| #[trigger]
            peval(r.vals(), x) == (c0.val() + x * c1.val()) % field_q() by {
            lemma_peval_ptrim(raw, x);
            assert(raw.skip(1) =~= seq![c1.val()]);
            assert(raw.skip(1).skip(1).len() == 0);
            assert(peval(raw.skip(1).skip(1), x) == 0);
            assert(x * 0 == 0) by (nonlinear_arith);
            lemma_small_mod(c1.val() as nat, field_q() as nat);
            assert(peval(raw.skip(1), x) == c1.val());
            assert(peval(raw, x) == (c0.val() + x * c1.val()) % field_q());
        }
        lemma_ptrim_canonical(raw);
    }
    r
}

/// Proof that the running product moves one step.
proof fn lemma_prod_step(acc: int, e: int, fv: Seq<int>, om: Seq<int>, n: nat)
    requires
        n < om.len(),
        acc == prod_evals(fv, om, n),
        e == peval(fv, om[n as int]),
    ensures
        (acc * e) % field_q() == prod_evals(fv, om, (n + 1) as nat),
{
}

/// Constructs the running-product polynomial `t` and the derived
/// polynomial `t1(x) = t(w*x) - t(x) * f(w*x)` for the product check.
#[allow(non_snake_case)]
pub fn compute_t_and_t1_product_check(Omega: &Vec<Scalar>, f: &Poly) -> (r: Result<
    (Poly, Poly),
    ProtocolError,
>)
    requires
        crate::poly::all_wf(Omega@),
        Omega@.len() >= 2,
        f.wf(),
        f.vals().len() >= Omega@.len(),
        f.vals().len() < usize::MAX,
    ensures
        match r {
            Ok(tt) => {
                &&& tt.0.wf()
                &&& tt.1.wf()
                &&& forall|i: int|
                    0 <= i < Omega@.len() ==> peval(tt.0.vals(), svals(Omega@)[i]) == prod_evals(
                        f.vals(),
                        svals(Omega@),
                        (i + 1) as nat,
                    )
                &&& forall|x: int|
                    #[trigger] peval(tt.1.vals(), x) == (peval(
                        tt.0.vals(),
                        (svals(Omega@)[1] * x) % field_q(),
                    ) - peval(tt.0.vals(), x) * peval(
                        f.vals(),
                        (svals(Omega@)[1] * x) % field_q(),
                    )) % field_q()
                &&& tt.0.vals().len() <= f.vals().len()
            },
            Err(e) => {
                &&& e == ProtocolError::PointsNotDistinct
                &&& (f.vals().len() > Omega@.len() || !crate::interpolate::distinct_vals(
                    svals(Omega@),
                ))
            },
        },
{
    let ghost fv = f.vals();
    let ghost omv = svals(Omega@);
    let k = Omega.len();
    // running products of the evaluations of f over the domain
    let mut ys: Vec<Scalar> = Vec::new();
    let mut acc = Scalar::one();
    let mut i: usize = 0;
    while i < k
        invariant
            i <= k,
            k == Omega@.len(),
            fv == f.vals(),
            omv == svals(Omega@),
            f.wf(),
            crate::poly::all_wf(Omega@),
            acc.wf(),
            acc.val() == prod_evals(fv, omv, i as nat),
            ys@.len() == i,
            crate::poly::all_wf(ys@),
            forall|j: int| 0 <= j < i ==> svals(ys@)[j] == prod_evals(fv, omv, (j + 1) as nat),
        decreases k - i,
    {
        let e = poly_eval(f, &Omega[i]);
        proof {
            assert(Omega@[i as int].wf());
            assert(omv[i as int] == Omega@[i as int].val());
        }
        let next = scalar_mul(&acc, &e);
        proof {
            lemma_prod_step(acc.val(), e.val(), fv, omv, i as nat);
        }
        let ghost prev = ys@;
        ys.push(next);
        proof {
            assert(svals(ys@)[i as int] == next.val());
            assert forall|j: int| 0 <= j < i implies svals(ys@)[j] == prod_evals(
                fv,
                omv,
                (j + 1) as nat,
            ) by {
                assert(ys@[j] == prev[j]);
                assert(svals(prev)[j] == prod_evals(fv, omv, (j + 1) as nat));
            }
        }
        acc = next;
        i += 1;
    }
    let extra = f.len() - k;
    let t = match interpolate_padded(Omega, &ys, extra) {
        Ok(t) => t,
        Err(e) => {
            return Err(e);
        },
    };
    proof {
        assert(Omega@[1].wf());
    }
    let w = Omega[1];
    let t1 = shifted_difference_product(&t, f, &w);
    proof {
        assert(w.val() == omv[1]);
        assert forall|i: int|
            0 <= i < Omega@.len() implies peval(t.vals(), svals(Omega@)[i]) == prod_evals(
            fv,
            omv,
            (i + 1) as nat,
        ) by {
            assert(peval(t.vals(), svals(Omega@)[i]) == svals(ys@)[i]);
        }
    }
    Ok((t, t1))
}

/// `t1(x) = t(w*x) - t(x) * f(w*x)`.
fn shifted_difference_product(t: &Poly, f: &Poly, w: &Scalar) -> (r: Poly)
    requires
        t.wf(),
        f.wf(),
        w.wf(),
    ensures
        r.wf(),
        forall|x: int|
            #[trigger] peval(r.vals(), x) == (peval(t.vals(), (w.val() * x) % field_q()) - peval(
                t.vals(),
                x,
            ) * peval(f.vals(), (w.val() * x) % field_q())) % field_q(),
{
    let z = Scalar::zero();
    let wx = linear_poly(&z, w);
    let t_w_x = crate::poly::compose_polynomials(t, &wx);
    let f_w_x = crate::poly::compose_polynomials(f, &wx);
    let prod = crate::poly::poly_mul(t, &f_w_x);
    let r = crate::poly::poly_sub(&t_w_x, &prod);
    proof {
        let q = field_q();
        assert forall|x: int|
            #[trigger] peval(r.vals(), x) == (peval(t.vals(), (w.val() * x) % q) - peval(
                t.vals(),
                x,
            ) * peval(f.vals(), (w.val() * x) % q)) % q by {
            let y = peval(wx.vals(), x);
            assert(y == (0 + x * w.val()) % q);
            assert(x * w.val() == w.val() * x) by (nonlinear_arith);
            assert(y == (w.val() * x) % q);
            lemma_peval_ptrim(psub(t_w_x.vals(), prod.vals()), x);
            lemma_peval_psub(t_w_x.vals(), prod.vals(), x);
            lemma_peval_ptrim(pmul(t.vals(), f_w_x.vals()), x);
            lemma_peval_pmul(t.vals(), f_w_x.vals(), x);
            assert(peval(t_w_x.vals(), x) == peval(t.vals(), y));
            assert(peval(f_w_x.vals(), x) == peval(f.vals(), y));
            let a = peval(t.vals(), y);
            let b = peval(t.vals(), x);
            let c = peval(f.vals(), y);
            assert(peval(prod.vals(), x) == (b * c) % q);
            vstd::arithmetic::div_mod::lemma_sub_mod_noop_right(a, b * c, q);
            vstd::arithmetic::div_mod::lemma_mod_twice(b * c, q);
            assert((a - (b * c) % q) % q == (a - b * c) % q);
        }
    }
    r
}


/// The trimmed product of two coefficient sequences is no longer than the
/// untrimmed convolution.
proof fn lemma_trim_mul_len(a: Seq<int>, b: Seq<int>)
    ensures
        ptrim(pmul(a, b)).len() <= if a.len() >= 1 && b.len() >= 1 {
            a.len() + b.len() - 1
        } else {
            0
        },
{
    crate::algebra::lemma_pmul_reduced(a, b);
    lemma_ptrim_canonical(pmul(a, b));
    if a.len() >= 1 && b.len() >= 1 {
        crate::algebra::lemma_pmul_len(a, b);
    }
}

/// Commits where capacity is known to suffice.
fn commit_must(gp: &GlobalParameters, p: &Poly) -> (c: G1Point)
    requires
        gp.wf(),
        p.wf(),
        p.vals().len() <= gp.srs().len(),
    ensures
        c.wf(),
        c.rep() == commit_of(gp.srs(), p.vals()),
{
    match kzg_commit(gp, p) {
        Ok(c) => c,
        Err(_) => {
            proof {
                assert(false);
            }
            crate::group::g1_gen_mul(&Scalar::zero())
        },
    }
}

/// Proof of a product check: the commitments to the running polynomial and
/// the quotient, the boundary opening, and the openings at the challenge
/// and its shift.
pub struct ProductCheckProof {
    pub com_t: G1Point,
    pub com_q: G1Point,
    pub t_w_k_minus_1: Scalar,
    pub proof_t_w_k_minus_1: G1Point,
    pub t_r: Scalar,
    pub proof_t_r: G1Point,
    pub t_w_r: Scalar,
    pub proof_t_w_r: G1Point,
    pub q_r: Scalar,
    pub proof_q_r: G1Point,
    pub f_w_r: Scalar,
    pub proof_f_w_r: G1Point,
}

impl ProductCheckProof {
    pub open spec fn wf(self) -> bool {
        &&& self.com_t.wf() && self.com_q.wf()
        &&& self.t_w_k_minus_1.wf() && self.proof_t_w_k_minus_1.wf()
        &&& self.t_r.wf() && self.proof_t_r.wf()
        &&& self.t_w_r.wf() && self.proof_t_w_r.wf()
        &&& self.q_r.wf() && self.proof_q_r.wf()
        &&& self.f_w_r.wf() && self.proof_f_w_r.wf()
    }
}

/// Generates the product-check proof: commitments to `t` and `q`, and the
/// openings the verifier replays.
pub fn prove_product_check(
    gp: &GlobalParameters,
    w: &Scalar,
    k: usize,
    t: &Poly,
    q: &Poly,
    f: &Poly,
    r: &Scalar,
) -> (pf: ProductCheckProof)
    requires
        gp.wf(),
        w.wf(),
        k >= 1,
        t.wf(),
        q.wf(),
        f.wf(),
        r.wf(),
        t.vals().len() <= gp.srs().len(),
        q.vals().len() <= gp.srs().len(),
        f.vals().len() <= gp.srs().len(),
    ensures
        pf.wf(),
        pf.com_t.rep() == commit_of(gp.srs(), t.vals()),
        pf.com_q.rep() == commit_of(gp.srs(), q.vals()),
        pf.t_w_k_minus_1.val() == peval(t.vals(), pow_mod(w.val(), (k - 1) as nat)),
        pf.t_r.val() == peval(t.vals(), r.val()),
        pf.t_w_r.val() == peval(t.vals(), (r.val() * w.val()) % field_q()),
        pf.q_r.val() == peval(q.vals(), r.val()),
        pf.f_w_r.val() == peval(f.vals(), (r.val() * w.val()) % field_q()),
        is_kzg_opening(
            gp.srs(),
            t.vals(),
            pow_mod(w.val(), (k - 1) as nat),
            pf.t_w_k_minus_1.val(),
            pf.proof_t_w_k_minus_1.rep(),
        ),
        is_kzg_opening(gp.srs(), t.vals(), r.val(), pf.t_r.val(), pf.proof_t_r.rep()),
        is_kzg_opening(
            gp.srs(),
            t.vals(),
            (r.val() * w.val()) % field_q(),
            pf.t_w_r.val(),
            pf.proof_t_w_r.rep(),
        ),
        is_kzg_opening(gp.srs(), q.vals(), r.val(), pf.q_r.val(), pf.proof_q_r.rep()),
        is_kzg_opening(
            gp.srs(),
            f.vals(),
            (r.val() * w.val()) % field_q(),
            pf.f_w_r.val(),
            pf.proof_f_w_r.rep(),
        ),
{
    let com_t = commit_must(gp, t);
    let com_q = commit_must(gp, q);
    let wk1 = scalar_pow(w, k - 1);
    let rw = scalar_mul(r, w);
    let (t_w_k_minus_1, proof_t_w_k_minus_1) = kzg_evaluate(gp, t, &wk1);
    let (t_r, proof_t_r) = kzg_evaluate(gp, t, r);
    let (t_w_r, proof_t_w_r) = kzg_evaluate(gp, t, &rw);
    let (q_r, proof_q_r) = kzg_evaluate(gp, q, r);
    let (f_w_r, proof_f_w_r) = kzg_evaluate(gp, f, &rw);
    ProductCheckProof {
        com_t,
        com_q,
        t_w_k_minus_1,
        proof_t_w_k_minus_1,
        t_r,
        proof_t_r,
        t_w_r,
        proof_t_w_r,
        q_r,
        proof_q_r,
        f_w_r,
        proof_f_w_r,
    }
}

/// What the product-check verifier accepts: the boundary value one, the
/// stepping identity at the challenge, and the five openings.
pub open spec fn product_check_accepts(
    tau_g2: Seq<u8>,
    w: int,
    k: nat,
    com_f: Seq<u8>,
    r: int,
    pf: ProductCheckProof,
) -> bool {
    &&& pf.t_w_k_minus_1.val() == 1
    &&& (pf.t_w_r.val() - (pf.t_r.val() * pf.f_w_r.val()) % field_q()) % field_q() == (
    pf.q_r.val() * ((pow_mod(r, k) - 1) % field_q())) % field_q()
    &&& spec_kzg_accepts(
        tau_g2,
        pf.com_t.rep(),
        pow_mod(w, (k - 1) as nat),
        pf.t_w_k_minus_1.val(),
        pf.proof_t_w_k_minus_1.rep(),
    )
    &&& spec_kzg_accepts(tau_g2, pf.com_t.rep(), r, pf.t_r.val(), pf.proof_t_r.rep())
    &&& spec_kzg_accepts(
        tau_g2,
        pf.com_t.rep(),
        (r * w) % field_q(),
        pf.t_w_r.val(),
        pf.proof_t_w_r.rep(),
    )
    &&& spec_kzg_accepts(tau_g2, pf.com_q.rep(), r, pf.q_r.val(), pf.proof_q_r.rep())
    &&& spec_kzg_accepts(tau_g2, com_f, (r * w) % field_q(), pf.f_w_r.val(), pf.proof_f_w_r.rep())
}

/// Verifies a product check.
pub fn verify_product_check(
    gp: &GlobalParameters,
    w: &Scalar,
    k: usize,
    com_f: &G1Point,
    r: &Scalar,
    pf: &ProductCheckProof,
) -> (res: bool)
    requires
        gp.wf(),
        w.wf(),
        k >= 1,
        com_f.wf(),
        r.wf(),
        pf.wf(),
    ensures
        res == product_check_accepts(
            gp.tau_g2.rep(),
            w.val(),
            k as nat,
            com_f.rep(),
            r.val(),
            *pf,
        ),
{
    let one = Scalar::one();
    if !scalar_eq(&pf.t_w_k_minus_1, &one) {
        return false;
    }
    let lhs = scalar_sub(&pf.t_w_r, &scalar_mul(&pf.t_r, &pf.f_w_r));
    let rk = scalar_pow(r, k);
    let rhs = scalar_mul(&pf.q_r, &scalar_sub(&rk, &one));
    if !scalar_eq(&lhs, &rhs) {
        return false;
    }
    let wk1 = scalar_pow(w, k - 1);
    let rw = scalar_mul(r, w);
    if !kzg_verify(gp, &pf.com_t, &wk1, &pf.t_w_k_minus_1, &pf.proof_t_w_k_minus_1) {
        return false;
    }
    if !kzg_verify(gp, &pf.com_t, r, &pf.t_r, &pf.proof_t_r) {
        return false;
    }
    if !kzg_verify(gp, &pf.com_t, &rw, &pf.t_w_r, &pf.proof_t_w_r) {
        return false;
    }
    if !kzg_verify(gp, &pf.com_q, r, &pf.q_r, &pf.proof_q_r) {
        return false;
    }
    kzg_verify(gp, com_f, &rw, &pf.f_w_r, &pf.proof_f_w_r)
}

/// Constructs the running-sum polynomial `t` and the derived polynomial
/// `t1(x) = t(w*x) - (t(x) + f(w*x))` for the sum check.
#[allow(non_snake_case)]
pub fn compute_t_and_t1_sum_check(Omega: &Vec<Scalar>, f: &Poly) -> (r: Result<
    (Poly, Poly),
    ProtocolError,
>)
    requires
        crate::poly::all_wf(Omega@),
        Omega@.len() >= 2,
        f.wf(),
        f.vals().len() >= Omega@.len(),
        f.vals().len() < usize::MAX,
    ensures
        match r {
            Ok(tt) => {
                &&& tt.0.wf()
                &&& tt.1.wf()
                &&& forall|i: int|
                    0 <= i < Omega@.len() ==> peval(tt.0.vals(), svals(Omega@)[i]) == sum_evals(
                        f.vals(),
                        svals(Omega@),
                        (i + 1) as nat,
                    )
                &&& forall|x: int|
                    #[trigger] peval(tt.1.vals(), x) == (peval(
                        tt.0.vals(),
                        (svals(Omega@)[1] * x) % field_q(),
                    ) - (peval(tt.0.vals(), x) + peval(
                        f.vals(),
                        (svals(Omega@)[1] * x) % field_q(),
                    )) % field_q()) % field_q()
                &&& tt.0.vals().len() <= f.vals().len()
            },
            Err(e) => {
                &&& e == ProtocolError::PointsNotDistinct
                &&& (f.vals().len() > Omega@.len() || !crate::interpolate::distinct_vals(
                    svals(Omega@),
                ))
            },
        },
{
    let ghost fv = f.vals();
    let ghost omv = svals(Omega@);
    let k = Omega.len();
    let mut ys: Vec<Scalar> = Vec::new();
    let mut acc = Scalar::zero();
    let mut i: usize = 0;
    while i < k
        invariant
            i <= k,
            k == Omega@.len(),
            fv == f.vals(),
            omv == svals(Omega@),
            f.wf(),
            crate::poly::all_wf(Omega@),
            acc.wf(),
            acc.val() == sum_evals(fv, omv, i as nat),
            ys@.len() == i,
            crate::poly::all_wf(ys@),
            forall|j: int| 0 <= j < i ==> svals(ys@)[j] == sum_evals(fv, omv, (j + 1) as nat),
        decreases k - i,
    {
        let e = poly_eval(f, &Omega[i]);
        proof {
            assert(Omega@[i as int].wf());
            assert(omv[i as int] == Omega@[i as int].val());
        }
        let next = crate::field::scalar_add(&acc, &e);
        let ghost prev = ys@;
        ys.push(next);
        proof {
            assert(svals(ys@)[i as int] == next.val());
            assert forall|j: int| 0 <= j < i implies svals(ys@)[j] == sum_evals(
                fv,
                omv,
                (j + 1) as nat,
            ) by {
                assert(ys@[j] == prev[j]);
                assert(svals(prev)[j] == sum_evals(fv, omv, (j + 1) as nat));
            }
        }
        acc = next;
        i += 1;
    }
    let extra = f.len() - k;
    let t = match interpolate_padded(Omega, &ys, extra) {
        Ok(t) => t,
        Err(e) => {
            return Err(e);
        },
    };
    proof {
        assert(Omega@[1].wf());
    }
    let w = Omega[1];
    let z = Scalar::zero();
    let wx = linear_poly(&z, &w);
    let t_w_x = crate::poly::compose_polynomials(&t, &wx);
    let f_w_x = crate::poly::compose_polynomials(f, &wx);
    let sum = crate::poly::poly_add(&t, &f_w_x);
    let t1 = crate::poly::poly_sub(&t_w_x, &sum);
    proof {
        let q = field_q();
        assert(w.val() == omv[1]);
        assert forall|x: int|
            #[trigger] peval(t1.vals(), x) == (peval(t.vals(), (omv[1] * x) % q) - (peval(
                t.vals(),
                x,
            ) + peval(fv, (omv[1] * x) % q)) % q) % q by {
            let y = peval(wx.vals(), x);
            assert(y == (0 + x * w.val()) % q);
            assert(x * w.val() == w.val() * x) by (nonlinear_arith);
            lemma_peval_ptrim(psub(t_w_x.vals(), sum.vals()), x);
            lemma_peval_psub(t_w_x.vals(), sum.vals(), x);
            lemma_peval_ptrim(crate::algebra::padd(t.vals(), f_w_x.vals()), x);
            crate::algebra::lemma_peval_padd(t.vals(), f_w_x.vals(), x);
        }
        assert forall|i2: int|
            0 <= i2 < Omega@.len() implies peval(t.vals(), svals(Omega@)[i2]) == sum_evals(
            fv,
            omv,
            (i2 + 1) as nat,
        ) by {
            assert(peval(t.vals(), svals(Omega@)[i2]) == svals(ys@)[i2]);
        }
    }
    Ok((t, t1))
}

/// Proof of a sum check; the same shape as a product check.
pub struct SumCheckProof {
    pub com_t: G1Point,
    pub com_q: G1Point,
    pub t_w_k_minus_1: Scalar,
    pub proof_t_w_k_minus_1: G1Point,
    pub t_r: Scalar,
    pub proof_t_r: G1Point,
    pub t_w_r: Scalar,
    pub proof_t_w_r: G1Point,
    pub q_r: Scalar,
    pub proof_q_r: G1Point,
    pub f_w_r: Scalar,
    pub proof_f_w_r: G1Point,
}

impl SumCheckProof {
    pub open spec fn wf(self) -> bool {
        &&& self.com_t.wf() && self.com_q.wf()
        &&& self.t_w_k_minus_1.wf() && self.proof_t_w_k_minus_1.wf()
        &&& self.t_r.wf() && self.proof_t_r.wf()
        &&& self.t_w_r.wf() && self.proof_t_w_r.wf()
        &&& self.q_r.wf() && self.proof_q_r.wf()
        &&& self.f_w_r.wf() && self.proof_f_w_r.wf()
    }
}

/// Generates the sum-check proof.
pub fn prove_sum_check(
    gp: &GlobalParameters,
    w: &Scalar,
    k: usize,
    t: &Poly,
    q: &Poly,
    f: &Poly,
    r: &Scalar,
) -> (pf: SumCheckProof)
    requires
        gp.wf(),
        w.wf(),
        k >= 1,
        t.wf(),
        q.wf(),
        f.wf(),
        r.wf(),
        t.vals().len() <= gp.srs().len(),
        q.vals().len() <= gp.srs().len(),
        f.vals().len() <= gp.srs().len(),
    ensures
        pf.wf(),
        pf.com_t.rep() == commit_of(gp.srs(), t.vals()),
        pf.com_q.rep() == commit_of(gp.srs(), q.vals()),
        pf.t_w_k_minus_1.val() == peval(t.vals(), pow_mod(w.val(), (k - 1) as nat)),
        pf.t_r.val() == peval(t.vals(), r.val()),
        pf.t_w_r.val() == peval(t.vals(), (r.val() * w.val()) % field_q()),
        pf.q_r.val() == peval(q.vals(), r.val()),
        pf.f_w_r.val() == peval(f.vals(), (r.val() * w.val()) % field_q()),
        is_kzg_opening(
            gp.srs(),
            t.vals(),
            pow_mod(w.val(), (k - 1) as nat),
            pf.t_w_k_minus_1.val(),
            pf.proof_t_w_k_minus_1.rep(),
        ),
        is_kzg_opening(gp.srs(), t.vals(), r.val(), pf.t_r.val(), pf.proof_t_r.rep()),
        is_kzg_opening(
            gp.srs(),
            t.vals(),
            (r.val() * w.val()) % field_q(),
            pf.t_w_r.val(),
            pf.proof_t_w_r.rep(),
        ),
        is_kzg_opening(gp.srs(), q.vals(), r.val(), pf.q_r.val(), pf.proof_q_r.rep()),
        is_kzg_opening(
            gp.srs(),
            f.vals(),
            (r.val() * w.val()) % field_q(),
            pf.f_w_r.val(),
            pf.proof_f_w_r.rep(),
        ),
{
    let com_t = commit_must(gp, t);
    let com_q = commit_must(gp, q);
    let wk1 = scalar_pow(w, k - 1);
    let rw = scalar_mul(r, w);
    let (t_w_k_minus_1, proof_t_w_k_minus_1) = kzg_evaluate(gp, t, &wk1);
    let (t_r, proof_t_r) = kzg_evaluate(gp, t, r);
    let (t_w_r, proof_t_w_r) = kzg_evaluate(gp, t, &rw);
    let (q_r, proof_q_r) = kzg_evaluate(gp, q, r);
    let (f_w_r, proof_f_w_r) = kzg_evaluate(gp, f, &rw);
    SumCheckProof {
        com_t,
        com_q,
        t_w_k_minus_1,
        proof_t_w_k_minus_1,
        t_r,
        proof_t_r,
        t_w_r,
        proof_t_w_r,
        q_r,
        proof_q_r,
        f_w_r,
        proof_f_w_r,
    }
}

/// What the sum-check verifier accepts: the boundary value zero, the
/// stepping identity, and the five openings.
pub open spec fn sum_check_accepts(
    tau_g2: Seq<u8>,
    w: int,
    k: nat,
    com_f: Seq<u8>,
    r: int,
    pf: SumCheckProof,
) -> bool {
    &&& pf.t_w_k_minus_1.val() == 0
    &&& (pf.t_w_r.val() - (pf.t_r.val() + pf.f_w_r.val()) % field_q()) % field_q() == (
    pf.q_r.val() * ((pow_mod(r, k) - 1) % field_q())) % field_q()
    &&& spec_kzg_accepts(
        tau_g2,
        pf.com_t.rep(),
        pow_mod(w, (k - 1) as nat),
        pf.t_w_k_minus_1.val(),
        pf.proof_t_w_k_minus_1.rep(),
    )
    &&& spec_kzg_accepts(tau_g2, pf.com_t.rep(), r, pf.t_r.val(), pf.proof_t_r.rep())
    &&& spec_kzg_accepts(
        tau_g2,
        pf.com_t.rep(),
        (r * w) % field_q(),
        pf.t_w_r.val(),
        pf.proof_t_w_r.rep(),
    )
    &&& spec_kzg_accepts(tau_g2, pf.com_q.rep(), r, pf.q_r.val(), pf.proof_q_r.rep())
    &&& spec_kzg_accepts(tau_g2, com_f, (r * w) % field_q(), pf.f_w_r.val(), pf.proof_f_w_r.rep())
}

/// Verifies a sum check.
pub fn verify_sum_check(
    gp: &GlobalParameters,
    w: &Scalar,
    k: usize,
    com_f: &G1Point,
    r: &Scalar,
    pf: &SumCheckProof,
) -> (res: bool)
    requires
        gp.wf(),
        w.wf(),
        k >= 1,
        com_f.wf(),
        r.wf(),
        pf.wf(),
    ensures
        res == sum_check_accepts(gp.tau_g2.rep(), w.val(), k as nat, com_f.rep(), r.val(), *pf),
{
    let zero = Scalar::zero();
    let one = Scalar::one();
    if !scalar_eq(&pf.t_w_k_minus_1, &zero) {
        return false;
    }
    let lhs = scalar_sub(&pf.t_w_r, &crate::field::scalar_add(&pf.t_r, &pf.f_w_r));
    let rk = scalar_pow(r, k);
    let rhs = scalar_mul(&pf.q_r, &scalar_sub(&rk, &one));
    if !scalar_eq(&lhs, &rhs) {
        return false;
    }
    let wk1 = scalar_pow(w, k - 1);
    let rw = scalar_mul(r, w);
    if !kzg_verify(gp, &pf.com_t, &wk1, &pf.t_w_k_minus_1, &pf.proof_t_w_k_minus_1) {
        return false;
    }
    if !kzg_verify(gp, &pf.com_t, r, &pf.t_r, &pf.proof_t_r) {
        return false;
    }
    if !kzg_verify(gp, &pf.com_t, &rw, &pf.t_w_r, &pf.proof_t_w_r) {
        return false;
    }
    if !kzg_verify(gp, &pf.com_q, r, &pf.q_r, &pf.proof_q_r) {
        return false;
    }
    kzg_verify(gp, com_f, &rw, &pf.f_w_r, &pf.proof_f_w_r)
}


/// One step of a running ratio: if the accumulator times the denominator
/// product equals the numerator product, the extended accumulator keeps
/// the relation.
proof fn lemma_ratio_step(acc: int, pg: int, pf_: int, fe: int, ge: int, ig: int)
    requires
        (acc * pg) % field_q() == pf_,
        (ig * ge) % field_q() == 1,
    ensures
        ((acc * ((fe * ig) % field_q())) % field_q() * ((pg * ge) % field_q())) % field_q() == (
        pf_ * fe) % field_q(),
{
    let q = field_q();
    let a = (acc * ((fe * ig) % q)) % q;
    vstd::arithmetic::div_mod::lemma_mul_mod_noop_right(acc, fe * ig, q);
    assert(a == (acc * (fe * ig)) % q);
    vstd::arithmetic::div_mod::lemma_mul_mod_noop_general(acc * (fe * ig), pg * ge, q);
    assert((acc * (fe * ig)) * (pg * ge) == ((acc * pg) * fe) * (ig * ge)) by (nonlinear_arith);
    vstd::arithmetic::div_mod::lemma_mul_mod_noop_right((acc * pg) * fe, ig * ge, q);
    assert((((acc * pg) * fe) * ((ig * ge) % q)) % q == (((acc * pg) * fe) * (ig * ge)) % q);
    assert(((acc * pg) * fe) * 1 == (acc * pg) * fe) by (nonlinear_arith);
    vstd::arithmetic::div_mod::lemma_mul_mod_noop_left(acc * pg, fe, q);
    assert((((acc * pg) % q) * fe) % q == ((acc * pg) * fe) % q);
}

/// Constructs the running polynomial `t` for the rational product check,
/// whose value on the domain, multiplied by the running product of the
/// denominators, equals the running product of the numerators; and
/// `t1(x) = t(w*x)*g(w*x) - t(x)*f(w*x)`.
#[allow(non_snake_case)]
pub fn compute_t_and_t1_product_check_rational_functions(
    Omega: &Vec<Scalar>,
    f: &Poly,
    g: &Poly,
) -> (r: Result<(Poly, Poly), ProtocolError>)
    requires
        crate::poly::all_wf(Omega@),
        Omega@.len() >= 2,
        f.wf(),
        g.wf(),
        f.vals().len() >= Omega@.len(),
        f.vals().len() < usize::MAX,
    ensures
        match r {
            Ok(tt) => {
                &&& tt.0.wf()
                &&& tt.1.wf()
                &&& forall|i: int|
                    0 <= i < Omega@.len() ==> (peval(tt.0.vals(), svals(Omega@)[i]) * prod_evals(
                        g.vals(),
                        svals(Omega@),
                        (i + 1) as nat,
                    )) % field_q() == prod_evals(f.vals(), svals(Omega@), (i + 1) as nat)
                &&& forall|x: int|
                    #[trigger] peval(tt.1.vals(), x) == ((peval(
                        tt.0.vals(),
                        (svals(Omega@)[1] * x) % field_q(),
                    ) * peval(g.vals(), (svals(Omega@)[1] * x) % field_q())) % field_q() - (peval(
                        tt.0.vals(),
                        x,
                    ) * peval(f.vals(), (svals(Omega@)[1] * x) % field_q())) % field_q())
                        % field_q()
                &&& tt.0.vals().len() <= f.vals().len()
            },
            Err(e) => {
                ||| (e == ProtocolError::ZeroDenominator && exists|i: int|
                    0 <= i < Omega@.len() && #[trigger] peval(g.vals(), svals(Omega@)[i]) == 0)
                ||| {
                    &&& e == ProtocolError::PointsNotDistinct
                    &&& forall|i: int|
                        0 <= i < Omega@.len() ==> #[trigger] peval(g.vals(), svals(Omega@)[i])
                            != 0
                    &&& (f.vals().len() > Omega@.len() || !crate::interpolate::distinct_vals(
                        svals(Omega@),
                    ))
                }
            },
        },
{
    let ghost fv = f.vals();
    let ghost gv = g.vals();
    let ghost omv = svals(Omega@);
    let k = Omega.len();
    let mut ys: Vec<Scalar> = Vec::new();
    let mut acc = Scalar::one();
    let mut i: usize = 0;
    while i < k
        invariant
            i <= k,
            k == Omega@.len(),
            fv == f.vals(),
            gv == g.vals(),
            omv == svals(Omega@),
            f.wf(),
            g.wf(),
            crate::poly::all_wf(Omega@),
            acc.wf(),
            (acc.val() * prod_evals(gv, omv, i as nat)) % field_q() == prod_evals(
                fv,
                omv,
                i as nat,
            ),
            ys@.len() == i,
            crate::poly::all_wf(ys@),
            forall|j: int|
                0 <= j < i ==> (svals(ys@)[j] * prod_evals(gv, omv, (j + 1) as nat)) % field_q()
                    == prod_evals(fv, omv, (j + 1) as nat),
            forall|j: int| 0 <= j < i ==> #[trigger] peval(gv, omv[j]) != 0,
        decreases k - i,
    {
        proof {
            assert(Omega@[i as int].wf());
            assert(omv[i as int] == Omega@[i as int].val());
        }
        let fe = poly_eval(f, &Omega[i]);
        let ge = poly_eval(g, &Omega[i]);
        if scalar_eq(&ge, &Scalar::zero()) {
            proof {
                assert(peval(gv, omv[i as int]) == 0);
            }
            return Err(ProtocolError::ZeroDenominator);
        }
        let ig = crate::field::scalar_inv(&ge);
        let next = scalar_mul(&acc, &scalar_mul(&fe, &ig));
        proof {
            lemma_ratio_step(
                acc.val(),
                prod_evals(gv, omv, i as nat),
                prod_evals(fv, omv, i as nat),
                fe.val(),
                ge.val(),
                ig.val(),
            );
        }
        let ghost prev = ys@;
        ys.push(next);
        proof {
            assert(svals(ys@)[i as int] == next.val());
            assert forall|j: int|
                0 <= j < i implies (svals(ys@)[j] * prod_evals(gv, omv, (j + 1) as nat))
                % field_q() == prod_evals(fv, omv, (j + 1) as nat) by {
                assert(ys@[j] == prev[j]);
                assert((svals(prev)[j] * prod_evals(gv, omv, (j + 1) as nat)) % field_q()
                    == prod_evals(fv, omv, (j + 1) as nat));
            }
        }
        acc = next;
        i += 1;
    }
    let extra = f.len() - k;
    let t = match interpolate_padded(Omega, &ys, extra) {
        Ok(t) => t,
        Err(e) => {
            proof {
                assert(extra > 0 ==> f.vals().len() > Omega@.len());
            }
            return Err(e);
        },
    };
    proof {
        assert(Omega@[1].wf());
    }
    let w = Omega[1];
    let z = Scalar::zero();
    let wx = linear_poly(&z, &w);
    let t_w_x = crate::poly::compose_polynomials(&t, &wx);
    let g_w_x = crate::poly::compose_polynomials(g, &wx);
    let f_w_x = crate::poly::compose_polynomials(f, &wx);
    let left = crate::poly::poly_mul(&t_w_x, &g_w_x);
    let right = crate::poly::poly_mul(&t, &f_w_x);
    let t1 = crate::poly::poly_sub(&left, &right);
    proof {
        let q = field_q();
        assert(w.val() == omv[1]);
        assert forall|x: int|
            #[trigger] peval(t1.vals(), x) == ((peval(t.vals(), (omv[1] * x) % q) * peval(
                gv,
                (omv[1] * x) % q,
            )) % q - (peval(t.vals(), x) * peval(fv, (omv[1] * x) % q)) % q) % q by {
            let y = peval(wx.vals(), x);
            assert(y == (0 + x * w.val()) % q);
            assert(x * w.val() == w.val() * x) by (nonlinear_arith);
            lemma_peval_ptrim(psub(left.vals(), right.vals()), x);
            lemma_peval_psub(left.vals(), right.vals(), x);
            lemma_peval_ptrim(pmul(t_w_x.vals(), g_w_x.vals()), x);
            lemma_peval_pmul(t_w_x.vals(), g_w_x.vals(), x);
            lemma_peval_ptrim(pmul(t.vals(), f_w_x.vals()), x);
            lemma_peval_pmul(t.vals(), f_w_x.vals(), x);
        }
        assert forall|i2: int|
            0 <= i2 < Omega@.len() implies (peval(t.vals(), svals(Omega@)[i2]) * prod_evals(
            gv,
            omv,
            (i2 + 1) as nat,
        )) % field_q() == prod_evals(fv, omv, (i2 + 1) as nat) by {
            assert(peval(t.vals(), svals(Omega@)[i2]) == svals(ys@)[i2]);
        }
    }
    Ok((t, t1))
}

/// Proof of a rational product check.
pub struct ProductCheckRationalProof {
    pub com_t: G1Point,
    pub com_q: G1Point,
    pub t_w_k_minus_1: Scalar,
    pub proof_t_w_k_minus_1: G1Point,
    pub t_r: Scalar,
    pub proof_t_r: G1Point,
    pub t_w_r: Scalar,
    pub proof_t_w_r: G1Point,
    pub q_r: Scalar,
    pub proof_q_r: G1Point,
    pub f_w_r: Scalar,
    pub proof_f_w_r: G1Point,
    pub g_w_r: Scalar,
    pub proof_g_w_r: G1Point,
}

impl ProductCheckRationalProof {
    pub open spec fn wf(self) -> bool {
        &&& self.com_t.wf() && self.com_q.wf()
        &&& self.t_w_k_minus_1.wf() && self.proof_t_w_k_minus_1.wf()
        &&& self.t_r.wf() && self.proof_t_r.wf()
        &&& self.t_w_r.wf() && self.proof_t_w_r.wf()
        &&& self.q_r.wf() && self.proof_q_r.wf()
        &&& self.f_w_r.wf() && self.proof_f_w_r.wf()
        &&& self.g_w_r.wf() && self.proof_g_w_r.wf()
    }
}

/// Generates the rational-product-check proof.
pub fn prove_product_check_rational_functions(
    gp: &GlobalParameters,
    w: &Scalar,
    k: usize,
    t: &Poly,
    q: &Poly,
    f: &Poly,
    g: &Poly,
    r: &Scalar,
) -> (pf: ProductCheckRationalProof)
    requires
        gp.wf(),
        w.wf(),
        k >= 1,
        t.wf(),
        q.wf(),
        f.wf(),
        g.wf(),
        r.wf(),
        t.vals().len() <= gp.srs().len(),
        q.vals().len() <= gp.srs().len(),
        f.vals().len() <= gp.srs().len(),
        g.vals().len() <= gp.srs().len(),
    ensures
        pf.wf(),
        pf.com_t.rep() == commit_of(gp.srs(), t.vals()),
        pf.com_q.rep() == commit_of(gp.srs(), q.vals()),
        pf.t_w_k_minus_1.val() == peval(t.vals(), pow_mod(w.val(), (k - 1) as nat)),
        pf.t_r.val() == peval(t.vals(), r.val()),
        pf.t_w_r.val() == peval(t.vals(), (r.val() * w.val()) % field_q()),
        pf.q_r.val() == peval(q.vals(), r.val()),
        pf.f_w_r.val() == peval(f.vals(), (r.val() * w.val()) % field_q()),
        pf.g_w_r.val() == peval(g.vals(), (r.val() * w.val()) % field_q()),
        is_kzg_opening(
            gp.srs(),
            t.vals(),
            pow_mod(w.val(), (k - 1) as nat),
            pf.t_w_k_minus_1.val(),
            pf.proof_t_w_k_minus_1.rep(),
        ),
        is_kzg_opening(gp.srs(), t.vals(), r.val(), pf.t_r.val(), pf.proof_t_r.rep()),
        is_kzg_opening(
            gp.srs(),
            t.vals(),
            (r.val() * w.val()) % field_q(),
            pf.t_w_r.val(),
            pf.proof_t_w_r.rep(),
        ),
        is_kzg_opening(gp.srs(), q.vals(), r.val(), pf.q_r.val(), pf.proof_q_r.rep()),
        is_kzg_opening(
            gp.srs(),
            f.vals(),
            (r.val() * w.val()) % field_q(),
            pf.f_w_r.val(),
            pf.proof_f_w_r.rep(),
        ),
        is_kzg_opening(
            gp.srs(),
            g.vals(),
            (r.val() * w.val()) % field_q(),
            pf.g_w_r.val(),
            pf.proof_g_w_r.rep(),
        ),
{
    let com_t = commit_must(gp, t);
    let com_q = commit_must(gp, q);
    let wk1 = scalar_pow(w, k - 1);
    let rw = scalar_mul(r, w);
    let (t_w_k_minus_1, proof_t_w_k_minus_1) = kzg_evaluate(gp, t, &wk1);
    let (t_r, proof_t_r) = kzg_evaluate(gp, t, r);
    let (t_w_r, proof_t_w_r) = kzg_evaluate(gp, t, &rw);
    let (q_r, proof_q_r) = kzg_evaluate(gp, q, r);
    let (f_w_r, proof_f_w_r) = kzg_evaluate(gp, f, &rw);
    let (g_w_r, proof_g_w_r) = kzg_evaluate(gp, g, &rw);
    ProductCheckRationalProof {
        com_t,
        com_q,
        t_w_k_minus_1,
        proof_t_w_k_minus_1,
        t_r,
        proof_t_r,
        t_w_r,
        proof_t_w_r,
        q_r,
        proof_q_r,
        f_w_r,
        proof_f_w_r,
        g_w_r,
        proof_g_w_r,
    }
}

/// What the rational-product-check verifier accepts.
pub open spec fn product_check_rational_accepts(
    tau_g2: Seq<u8>,
    w: int,
    k: nat,
    com_f: Seq<u8>,
    com_g: Seq<u8>,
    r: int,
    pf: ProductCheckRationalProof,
) -> bool {
    &&& pf.t_w_k_minus_1.val() == 1
    &&& ((pf.t_w_r.val() * pf.g_w_r.val()) % field_q() - (pf.t_r.val() * pf.f_w_r.val())
        % field_q()) % field_q() == (pf.q_r.val() * ((pow_mod(r, k) - 1) % field_q())) % field_q()
    &&& spec_kzg_accepts(
        tau_g2,
        pf.com_t.rep(),
        pow_mod(w, (k - 1) as nat),
        pf.t_w_k_minus_1.val(),
        pf.proof_t_w_k_minus_1.rep(),
    )
    &&& spec_kzg_accepts(tau_g2, pf.com_t.rep(), r, pf.t_r.val(), pf.proof_t_r.rep())
    &&& spec_kzg_accepts(
        tau_g2,
        pf.com_t.rep(),
        (r * w) % field_q(),
        pf.t_w_r.val(),
        pf.proof_t_w_r.rep(),
    )
    &&& spec_kzg_accepts(tau_g2, pf.com_q.rep(), r, pf.q_r.val(), pf.proof_q_r.rep())
    &&& spec_kzg_accepts(tau_g2, com_f, (r * w) % field_q(), pf.f_w_r.val(), pf.proof_f_w_r.rep())
    &&& spec_kzg_accepts(tau_g2, com_g, (r * w) % field_q(), pf.g_w_r.val(), pf.proof_g_w_r.rep())
}

/// Verifies a rational product check.
pub fn verify_product_check_rational_functions(
    gp: &GlobalParameters,
    w: &Scalar,
    k: usize,
    com_f: &G1Point,
    com_g: &G1Point,
    r: &Scalar,
    pf: &ProductCheckRationalProof,
) -> (res: bool)
    requires
        gp.wf(),
        w.wf(),
        k >= 1,
        com_f.wf(),
        com_g.wf(),
        r.wf(),
        pf.wf(),
    ensures
        res == product_check_rational_accepts(
            gp.tau_g2.rep(),
            w.val(),
            k as nat,
            com_f.rep(),
            com_g.rep(),
            r.val(),
            *pf,
        ),
{
    let one = Scalar::one();
    if !scalar_eq(&pf.t_w_k_minus_1, &one) {
        return false;
    }
    let lhs = scalar_sub(&scalar_mul(&pf.t_w_r, &pf.g_w_r), &scalar_mul(&pf.t_r, &pf.f_w_r));
    let rk = scalar_pow(r, k);
    let rhs = scalar_mul(&pf.q_r, &scalar_sub(&rk, &one));
    if !scalar_eq(&lhs, &rhs) {
        return false;
    }
    let wk1 = scalar_pow(w, k - 1);
    let rw = scalar_mul(r, w);
    if !kzg_verify(gp, &pf.com_t, &wk1, &pf.t_w_k_minus_1, &pf.proof_t_w_k_minus_1) {
        return false;
    }
    if !kzg_verify(gp, &pf.com_t, r, &pf.t_r, &pf.proof_t_r) {
        return false;
    }
    if !kzg_verify(gp, &pf.com_t, &rw, &pf.t_w_r, &pf.proof_t_w_r) {
        return false;
    }
    if !kzg_verify(gp, &pf.com_q, r, &pf.q_r, &pf.proof_q_r) {
        return false;
    }
    if !kzg_verify(gp, com_f, &rw, &pf.f_w_r, &pf.proof_f_w_r) {
        return false;
    }
    kzg_verify(gp, com_g, &rw, &pf.g_w_r, &pf.proof_g_w_r)
}


/// One numerator term of the prescribed-permutation ratio:
/// `r - s*W(om[j]) - f(om[j])`.
pub open spec fn perm_num(rr: int, ss: int, wv: Seq<int>, fv: Seq<int>, om: Seq<int>, j: int) -> int {
    ((rr - (ss * peval(wv, om[j])) % field_q()) % field_q() - peval(fv, om[j])) % field_q()
}

/// One denominator term: `r - s*om[j] - g(om[j])`.
pub open spec fn perm_den(rr: int, ss: int, gv: Seq<int>, om: Seq<int>, j: int) -> int {
    ((rr - (ss * om[j]) % field_q()) % field_q() - peval(gv, om[j])) % field_q()
}

/// The product of the first `n` numerator terms.
pub open spec fn perm_prod_num(
    rr: int,
    ss: int,
    wv: Seq<int>,
    fv: Seq<int>,
    om: Seq<int>,
    n: nat,
) -> int
    decreases n,
{
    if n == 0 {
        1
    } else {
        (perm_prod_num(rr, ss, wv, fv, om, (n - 1) as nat) * perm_num(rr, ss, wv, fv, om, n - 1))
            % field_q()
    }
}

/// The product of the first `n` denominator terms.
pub open spec fn perm_prod_den(rr: int, ss: int, gv: Seq<int>, om: Seq<int>, n: nat) -> int
    decreases n,
{
    if n == 0 {
        1
    } else {
        (perm_prod_den(rr, ss, gv, om, (n - 1) as nat) * perm_den(rr, ss, gv, om, n - 1))
            % field_q()
    }
}

/// The value at `x` of the derived polynomial
/// `t1 = t(w*x)*(r - s*w*x - g(w*x)) - t(x)*(r - s*W(w*x) - f(w*x))`.
pub open spec fn perm_t1_val(
    tv: Seq<int>,
    fv: Seq<int>,
    gv: Seq<int>,
    wv: Seq<int>,
    rr: int,
    ss: int,
    w: int,
    x: int,
) -> int {
    let y = (w * x) % field_q();
    let e1 = (peval(tv, y) * (((rr + x * ((0 - (ss * w) % field_q()) % field_q())) % field_q()
        - peval(gv, y)) % field_q())) % field_q();
    let e2 = (peval(tv, x) * (((rr + peval(wv, y) * ((0 - ss) % field_q())) % field_q() - peval(
        fv,
        y,
    )) % field_q())) % field_q();
    (e1 - e2) % field_q()
}

/// Constructs the running polynomial `t` for the prescribed-permutation
/// check and the derived polynomial `t1`.  On the domain, `t` times the
/// running denominator product equals the running numerator product.
#[allow(non_snake_case)]
pub fn compute_t_and_t1_prescribed_permutation_check(
    Omega: &Vec<Scalar>,
    f: &Poly,
    g: &Poly,
    W: &Poly,
    r: &Scalar,
    s: &Scalar,
) -> (res: Result<(Poly, Poly), ProtocolError>)
    requires
        crate::poly::all_wf(Omega@),
        Omega@.len() >= 2,
        f.wf(),
        g.wf(),
        W.wf(),
        r.wf(),
        s.wf(),
        f.vals().len() >= Omega@.len(),
        f.vals().len() < usize::MAX,
    ensures
        match res {
            Ok(tt) => {
                &&& tt.0.wf()
                &&& tt.1.wf()
                &&& forall|i: int|
                    0 <= i < Omega@.len() ==> (peval(tt.0.vals(), svals(Omega@)[i])
                        * perm_prod_den(r.val(), s.val(), g.vals(), svals(Omega@), (i + 1) as nat))
                        % field_q() == perm_prod_num(
                        r.val(),
                        s.val(),
                        W.vals(),
                        f.vals(),
                        svals(Omega@),
                        (i + 1) as nat,
                    )
                &&& forall|x: int|
                    #[trigger] peval(tt.1.vals(), x) == perm_t1_val(
                        tt.0.vals(),
                        f.vals(),
                        g.vals(),
                        W.vals(),
                        r.val(),
                        s.val(),
                        svals(Omega@)[1],
                        x,
                    )
                &&& tt.0.vals().len() <= f.vals().len()
                &&& (g.vals().len() <= f.vals().len() && W.vals().len() <= f.vals().len()
                    && f.vals().len() >= 2) ==> tt.1.vals().len() <= 2 * f.vals().len() - 1
            },
            Err(e) => {
                ||| (e == ProtocolError::ZeroDenominator && exists|i: int|
                    0 <= i < Omega@.len() && #[trigger] perm_den(
                        r.val(),
                        s.val(),
                        g.vals(),
                        svals(Omega@),
                        i,
                    ) == 0)
                ||| {
                    &&& e == ProtocolError::PointsNotDistinct
                    &&& forall|i: int|
                        0 <= i < Omega@.len() ==> #[trigger] perm_den(
                            r.val(),
                            s.val(),
                            g.vals(),
                            svals(Omega@),
                            i,
                        ) != 0
                    &&& (f.vals().len() > Omega@.len() || !crate::interpolate::distinct_vals(
                        svals(Omega@),
                    ))
                }
            },
        },
{
    let ghost fv = f.vals();
    let ghost gv = g.vals();
    let ghost wv = W.vals();
    let ghost omv = svals(Omega@);
    let ghost rr = r.val();
    let ghost ss = s.val();
    let k = Omega.len();
    let mut ys: Vec<Scalar> = Vec::new();
    let mut acc = Scalar::one();
    let mut i: usize = 0;
    while i < k
        invariant
            i <= k,
            k == Omega@.len(),
            fv == f.vals(),
            gv == g.vals(),
            wv == W.vals(),
            omv == svals(Omega@),
            rr == r.val(),
            ss == s.val(),
            f.wf(),
            g.wf(),
            W.wf(),
            r.wf(),
            s.wf(),
            crate::poly::all_wf(Omega@),
            acc.wf(),
            (acc.val() * perm_prod_den(rr, ss, gv, omv, i as nat)) % field_q() == perm_prod_num(
                rr,
                ss,
                wv,
                fv,
                omv,
                i as nat,
            ),
            ys@.len() == i,
            crate::poly::all_wf(ys@),
            forall|j: int|
                0 <= j < i ==> (svals(ys@)[j] * perm_prod_den(rr, ss, gv, omv, (j + 1) as nat))
                    % field_q() == perm_prod_num(rr, ss, wv, fv, omv, (j + 1) as nat),
            forall|j: int| 0 <= j < i ==> #[trigger] perm_den(rr, ss, gv, omv, j) != 0,
        decreases k - i,
    {
        proof {
            assert(Omega@[i as int].wf());
            assert(omv[i as int] == Omega@[i as int].val());
        }
        let we = poly_eval(W, &Omega[i]);
        let fe = poly_eval(f, &Omega[i]);
        let ge = poly_eval(g, &Omega[i]);
        let num = scalar_sub(&scalar_sub(r, &scalar_mul(s, &we)), &fe);
        let den = scalar_sub(&scalar_sub(r, &scalar_mul(s, &Omega[i])), &ge);
        proof {
            assert(num.val() == perm_num(rr, ss, wv, fv, omv, i as int));
            assert(den.val() == perm_den(rr, ss, gv, omv, i as int));
        }
        if scalar_eq(&den, &Scalar::zero()) {
            proof {
                assert(perm_den(rr, ss, gv, omv, i as int) == 0);
            }
            return Err(ProtocolError::ZeroDenominator);
        }
        let id = crate::field::scalar_inv(&den);
        let next = scalar_mul(&acc, &scalar_mul(&num, &id));
        proof {
            lemma_ratio_step(
                acc.val(),
                perm_prod_den(rr, ss, gv, omv, i as nat),
                perm_prod_num(rr, ss, wv, fv, omv, i as nat),
                num.val(),
                den.val(),
                id.val(),
            );
        }
        let ghost prev = ys@;
        ys.push(next);
        proof {
            assert(svals(ys@)[i as int] == next.val());
            assert forall|j: int|
                0 <= j < i implies (svals(ys@)[j] * perm_prod_den(rr, ss, gv, omv, (j + 1) as nat))
                % field_q() == perm_prod_num(rr, ss, wv, fv, omv, (j + 1) as nat) by {
                assert(ys@[j] == prev[j]);
                assert((svals(prev)[j] * perm_prod_den(rr, ss, gv, omv, (j + 1) as nat))
                    % field_q() == perm_prod_num(rr, ss, wv, fv, omv, (j + 1) as nat));
            }
        }
        acc = next;
        i += 1;
    }
    let extra = f.len() - k;
    let t = match interpolate_padded(Omega, &ys, extra) {
        Ok(t) => t,
        Err(e) => {
            proof {
                assert(extra > 0 ==> f.vals().len() > Omega@.len());
            }
            return Err(e);
        },
    };
    proof {
        assert(Omega@[1].wf());
    }
    let w = Omega[1];
    let z = Scalar::zero();
    let wx = linear_poly(&z, &w);
    let t_w_x = crate::poly::compose_polynomials(&t, &wx);
    // r - s*w*x
    let neg_sw = crate::field::scalar_neg(&scalar_mul(s, &w));
    let r_s_w_x = linear_poly(r, &neg_sw);
    let g_w_x = crate::poly::compose_polynomials(g, &wx);
    let W_w_x = crate::poly::compose_polynomials(W, &wx);
    // r - s * W(w*x)
    let neg_s = crate::field::scalar_neg(s);
    let r_minus_s = linear_poly(r, &neg_s);
    let r_s_W_w_x = crate::poly::compose_polynomials(&r_minus_s, &W_w_x);
    let f_w_x = crate::poly::compose_polynomials(f, &wx);
    let sub_left = crate::poly::poly_sub(&r_s_w_x, &g_w_x);
    let left = crate::poly::poly_mul(&t_w_x, &sub_left);
    let sub_right = crate::poly::poly_sub(&r_s_W_w_x, &f_w_x);
    let right = crate::poly::poly_mul(&t, &sub_right);
    let t1 = crate::poly::poly_sub(&left, &right);
    proof {
        let q = field_q();
        assert(w.val() == omv[1]);
        assert forall|x: int|
            #[trigger] peval(t1.vals(), x) == perm_t1_val(
                t.vals(),
                fv,
                gv,
                wv,
                rr,
                ss,
                omv[1],
                x,
            ) by {
            let y = peval(wx.vals(), x);
            assert(y == (0 + x * w.val()) % q);
            assert(x * w.val() == w.val() * x) by (nonlinear_arith);
            lemma_peval_ptrim(psub(left.vals(), right.vals()), x);
            lemma_peval_psub(left.vals(), right.vals(), x);
            // left
            let sub1 = ptrim(psub(r_s_w_x.vals(), g_w_x.vals()));
            lemma_peval_ptrim(pmul(t_w_x.vals(), sub1), x);
            assert(left.vals() == ptrim(pmul(t_w_x.vals(), sub1)));
            lemma_peval_pmul(t_w_x.vals(), sub1, x);
            lemma_peval_ptrim(psub(r_s_w_x.vals(), g_w_x.vals()), x);
            lemma_peval_psub(r_s_w_x.vals(), g_w_x.vals(), x);
            assert(peval(r_s_w_x.vals(), x) == (rr + x * neg_sw.val()) % q);
            assert(peval(g_w_x.vals(), x) == peval(gv, y));
            // right
            let sub2 = ptrim(psub(r_s_W_w_x.vals(), f_w_x.vals()));
            lemma_peval_ptrim(pmul(t.vals(), sub2), x);
            assert(right.vals() == ptrim(pmul(t.vals(), sub2)));
            lemma_peval_pmul(t.vals(), sub2, x);
            lemma_peval_ptrim(psub(r_s_W_w_x.vals(), f_w_x.vals()), x);
            lemma_peval_psub(r_s_W_w_x.vals(), f_w_x.vals(), x);
            assert(peval(W_w_x.vals(), x) == peval(wv, y));
            assert(peval(r_s_W_w_x.vals(), x) == peval(r_minus_s.vals(), peval(wv, y)));
            assert(peval(r_minus_s.vals(), peval(wv, y)) == (rr + peval(wv, y) * neg_s.val())
                % q);
            assert(peval(f_w_x.vals(), x) == peval(fv, y));
        }
        assert forall|i2: int|
            0 <= i2 < Omega@.len() implies (peval(t.vals(), svals(Omega@)[i2]) * perm_prod_den(
            rr,
            ss,
            gv,
            omv,
            (i2 + 1) as nat,
        )) % field_q() == perm_prod_num(rr, ss, wv, fv, omv, (i2 + 1) as nat) by {
            assert(peval(t.vals(), svals(Omega@)[i2]) == svals(ys@)[i2]);
        }
        // degree bookkeeping: with f at least as long as g and W, the
        // derived polynomial stays below twice f's length
        if gv.len() <= fv.len() && wv.len() <= fv.len() && fv.len() >= 2 {
            let fl = fv.len() as int;
            assert(t.vals().len() <= fl);
            assert(t_w_x.vals().len() <= fl) by {
                if t.vals().len() >= 1 && wx.vals().len() >= 1 {
                    assert((t.vals().len() - 1) * (wx.vals().len() - 1) <= t.vals().len()
                        - 1) by (nonlinear_arith)
                        requires
                            wx.vals().len() - 1 <= 1,
                            t.vals().len() - 1 >= 0,
                    ;
                }
            }
            assert(g_w_x.vals().len() <= fl) by {
                if gv.len() >= 1 && wx.vals().len() >= 1 {
                    assert((gv.len() - 1) * (wx.vals().len() - 1) <= gv.len() - 1)
                        by (nonlinear_arith)
                        requires
                            wx.vals().len() - 1 <= 1,
                            gv.len() - 1 >= 0,
                    ;
                }
            }
            assert(W_w_x.vals().len() <= fl) by {
                if wv.len() >= 1 && wx.vals().len() >= 1 {
                    assert((wv.len() - 1) * (wx.vals().len() - 1) <= wv.len() - 1)
                        by (nonlinear_arith)
                        requires
                            wx.vals().len() - 1 <= 1,
                            wv.len() - 1 >= 0,
                    ;
                }
            }
            assert(f_w_x.vals().len() <= fl) by {
                if fv.len() >= 1 && wx.vals().len() >= 1 {
                    assert((fv.len() - 1) * (wx.vals().len() - 1) <= fv.len() - 1)
                        by (nonlinear_arith)
                        requires
                            wx.vals().len() - 1 <= 1,
                            fv.len() - 1 >= 0,
                    ;
                }
            }
            assert(r_s_W_w_x.vals().len() <= fl) by {
                if r_minus_s.vals().len() >= 1 && W_w_x.vals().len() >= 1 {
                    assert((r_minus_s.vals().len() - 1) * (W_w_x.vals().len() - 1) <= fl
                        - 1) by (nonlinear_arith)
                        requires
                            r_minus_s.vals().len() - 1 <= 1,
                            0 <= W_w_x.vals().len() - 1 <= fl - 1,
                    ;
                }
            }
            assert(sub_left.vals().len() <= fl) by {
                lemma_ptrim_canonical(psub(r_s_w_x.vals(), g_w_x.vals()));
            }
            assert(sub_right.vals().len() <= fl) by {
                lemma_ptrim_canonical(psub(r_s_W_w_x.vals(), f_w_x.vals()));
            }
            assert(left.vals().len() <= 2 * fl - 1) by {
                lemma_trim_mul_len(t_w_x.vals(), sub_left.vals());
            }
            assert(right.vals().len() <= 2 * fl - 1) by {
                lemma_trim_mul_len(t.vals(), sub_right.vals());
            }
            assert(t1.vals().len() <= 2 * fl - 1) by {
                lemma_ptrim_canonical(psub(left.vals(), right.vals()));
            }
        }
    }
    Ok((t, t1))
}


/// Proof of a prescribed permutation check.
#[allow(non_snake_case)]
pub struct PrescribedPermutationCheckProof {
    pub com_t: G1Point,
    pub com_q: G1Point,
    pub t_w_k_minus_1: Scalar,
    pub proof_t_w_k_minus_1: G1Point,
    pub t_rp: Scalar,
    pub proof_t_rp: G1Point,
    pub t_w_rp: Scalar,
    pub proof_t_w_rp: G1Point,
    pub q_rp: Scalar,
    pub proof_q_rp: G1Point,
    pub f_w_rp: Scalar,
    pub proof_f_w_rp: G1Point,
    pub g_w_rp: Scalar,
    pub proof_g_w_rp: G1Point,
    pub W_w_rp: Scalar,
    pub proof_W_w_rp: G1Point,
}

impl PrescribedPermutationCheckProof {
    pub open spec fn wf(self) -> bool {
        &&& self.com_t.wf() && self.com_q.wf()
        &&& self.t_w_k_minus_1.wf() && self.proof_t_w_k_minus_1.wf()
        &&& self.t_rp.wf() && self.proof_t_rp.wf()
        &&& self.t_w_rp.wf() && self.proof_t_w_rp.wf()
        &&& self.q_rp.wf() && self.proof_q_rp.wf()
        &&& self.f_w_rp.wf() && self.proof_f_w_rp.wf()
        &&& self.g_w_rp.wf() && self.proof_g_w_rp.wf()
        &&& self.W_w_rp.wf() && self.proof_W_w_rp.wf()
    }
}

/// Generates the prescribed-permutation-check proof.
#[allow(non_snake_case)]
pub fn prove_prescribed_permutation_check(
    gp: &GlobalParameters,
    w: &Scalar,
    k: usize,
    t: &Poly,
    q: &Poly,
    f: &Poly,
    g: &Poly,
    W: &Poly,
    rp: &Scalar,
) -> (pf: PrescribedPermutationCheckProof)
    requires
        gp.wf(),
        w.wf(),
        k >= 1,
        t.wf(),
        q.wf(),
        f.wf(),
        g.wf(),
        W.wf(),
        rp.wf(),
        t.vals().len() <= gp.srs().len(),
        q.vals().len() <= gp.srs().len(),
        f.vals().len() <= gp.srs().len(),
        g.vals().len() <= gp.srs().len(),
        W.vals().len() <= gp.srs().len(),
    ensures
        pf.wf(),
        pf.com_t.rep() == commit_of(gp.srs(), t.vals()),
        pf.com_q.rep() == commit_of(gp.srs(), q.vals()),
        pf.t_w_k_minus_1.val() == peval(t.vals(), pow_mod(w.val(), (k - 1) as nat)),
        pf.t_rp.val() == peval(t.vals(), rp.val()),
        pf.t_w_rp.val() == peval(t.vals(), (rp.val() * w.val()) % field_q()),
        pf.q_rp.val() == peval(q.vals(), rp.val()),
        pf.f_w_rp.val() == peval(f.vals(), (rp.val() * w.val()) % field_q()),
        pf.g_w_rp.val() == peval(g.vals(), (rp.val() * w.val()) % field_q()),
        pf.W_w_rp.val() == peval(W.vals(), (rp.val() * w.val()) % field_q()),
        is_kzg_opening(
            gp.srs(),
            t.vals(),
            pow_mod(w.val(), (k - 1) as nat),
            pf.t_w_k_minus_1.val(),
            pf.proof_t_w_k_minus_1.rep(),
        ),
        is_kzg_opening(gp.srs(), t.vals(), rp.val(), pf.t_rp.val(), pf.proof_t_rp.rep()),
        is_kzg_opening(
            gp.srs(),
            t.vals(),
            (rp.val() * w.val()) % field_q(),
            pf.t_w_rp.val(),
            pf.proof_t_w_rp.rep(),
        ),
        is_kzg_opening(gp.srs(), q.vals(), rp.val(), pf.q_rp.val(), pf.proof_q_rp.rep()),
        is_kzg_opening(
            gp.srs(),
            f.vals(),
            (rp.val() * w.val()) % field_q(),
            pf.f_w_rp.val(),
            pf.proof_f_w_rp.rep(),
        ),
        is_kzg_opening(
            gp.srs(),
            g.vals(),
            (rp.val() * w.val()) % field_q(),
            pf.g_w_rp.val(),
            pf.proof_g_w_rp.rep(),
        ),
        is_kzg_opening(
            gp.srs(),
            W.vals(),
            (rp.val() * w.val()) % field_q(),
            pf.W_w_rp.val(),
            pf.proof_W_w_rp.rep(),
        ),
{
    let com_t = commit_must(gp, t);
    let com_q = commit_must(gp, q);
    let wk1 = scalar_pow(w, k - 1);
    let rw = scalar_mul(rp, w);
    let (t_w_k_minus_1, proof_t_w_k_minus_1) = kzg_evaluate(gp, t, &wk1);
    let (t_rp, proof_t_rp) = kzg_evaluate(gp, t, rp);
    let (t_w_rp, proof_t_w_rp) = kzg_evaluate(gp, t, &rw);
    let (q_rp, proof_q_rp) = kzg_evaluate(gp, q, rp);
    let (f_w_rp, proof_f_w_rp) = kzg_evaluate(gp, f, &rw);
    let (g_w_rp, proof_g_w_rp) = kzg_evaluate(gp, g, &rw);
    let (W_w_rp, proof_W_w_rp) = kzg_evaluate(gp, W, &rw);
    PrescribedPermutationCheckProof {
        com_t,
        com_q,
        t_w_k_minus_1,
        proof_t_w_k_minus_1,
        t_rp,
        proof_t_rp,
        t_w_rp,
        proof_t_w_rp,
        q_rp,
        proof_q_rp,
        f_w_rp,
        proof_f_w_rp,
        g_w_rp,
        proof_g_w_rp,
        W_w_rp,
        proof_W_w_rp,
    }
}

/// What the prescribed-permutation verifier accepts: the boundary value
/// one, the stepping identity at the third challenge with the first two
/// challenges folded in, and the seven openings.
pub open spec fn prescribed_permutation_accepts(
    tau_g2: Seq<u8>,
    w: int,
    k: nat,
    com_f: Seq<u8>,
    com_g: Seq<u8>,
    com_W: Seq<u8>,
    r: int,
    s: int,
    rp: int,
    pf: PrescribedPermutationCheckProof,
) -> bool {
    &&& {
        let q = field_q();
        let a1 = ((r - (((s * w) % q) * rp) % q) % q - pf.g_w_rp.val()) % q;
        let a2 = ((r - (s * pf.W_w_rp.val()) % q) % q - pf.f_w_rp.val()) % q;
        &&& pf.t_w_k_minus_1.val() == 1
        &&& ((pf.t_w_rp.val() * a1) % q - (pf.t_rp.val() * a2) % q) % q == (pf.q_rp.val() * ((
        pow_mod(rp, k) - 1) % q)) % q
    }
    &&& spec_kzg_accepts(
        tau_g2,
        pf.com_t.rep(),
        pow_mod(w, (k - 1) as nat),
        pf.t_w_k_minus_1.val(),
        pf.proof_t_w_k_minus_1.rep(),
    )
    &&& spec_kzg_accepts(tau_g2, pf.com_t.rep(), rp, pf.t_rp.val(), pf.proof_t_rp.rep())
    &&& spec_kzg_accepts(
        tau_g2,
        pf.com_t.rep(),
        (rp * w) % field_q(),
        pf.t_w_rp.val(),
        pf.proof_t_w_rp.rep(),
    )
    &&& spec_kzg_accepts(tau_g2, pf.com_q.rep(), rp, pf.q_rp.val(), pf.proof_q_rp.rep())
    &&& spec_kzg_accepts(
        tau_g2,
        com_f,
        (rp * w) % field_q(),
        pf.f_w_rp.val(),
        pf.proof_f_w_rp.rep(),
    )
    &&& spec_kzg_accepts(
        tau_g2,
        com_g,
        (rp * w) % field_q(),
        pf.g_w_rp.val(),
        pf.proof_g_w_rp.rep(),
    )
    &&& spec_kzg_accepts(
        tau_g2,
        com_W,
        (rp * w) % field_q(),
        pf.W_w_rp.val(),
        pf.proof_W_w_rp.rep(),
    )
}

/// Verifies a prescribed permutation check.
#[allow(non_snake_case)]
pub fn verify_prescribed_permutation_check(
    gp: &GlobalParameters,
    w: &Scalar,
    k: usize,
    com_f: &G1Point,
    com_g: &G1Point,
    com_W: &G1Point,
    r: &Scalar,
    s: &Scalar,
    rp: &Scalar,
    pf: &PrescribedPermutationCheckProof,
) -> (res: bool)
    requires
        gp.wf(),
        w.wf(),
        k >= 1,
        com_f.wf(),
        com_g.wf(),
        com_W.wf(),
        r.wf(),
        s.wf(),
        rp.wf(),
        pf.wf(),
    ensures
        res == prescribed_permutation_accepts(
            gp.tau_g2.rep(),
            w.val(),
            k as nat,
            com_f.rep(),
            com_g.rep(),
            com_W.rep(),
            r.val(),
            s.val(),
            rp.val(),
            *pf,
        ),
{
    let one = Scalar::one();
    if !scalar_eq(&pf.t_w_k_minus_1, &one) {
        return false;
    }
    let a1 = scalar_sub(&scalar_sub(r, &scalar_mul(&scalar_mul(s, w), rp)), &pf.g_w_rp);
    let a2 = scalar_sub(&scalar_sub(r, &scalar_mul(s, &pf.W_w_rp)), &pf.f_w_rp);
    let lhs = scalar_sub(&scalar_mul(&pf.t_w_rp, &a1), &scalar_mul(&pf.t_rp, &a2));
    let rk = scalar_pow(rp, k);
    let rhs = scalar_mul(&pf.q_rp, &scalar_sub(&rk, &one));
    if !scalar_eq(&lhs, &rhs) {
        return false;
    }
    let wk1 = scalar_pow(w, k - 1);
    let rw = scalar_mul(rp, w);
    if !kzg_verify(gp, &pf.com_t, &wk1, &pf.t_w_k_minus_1, &pf.proof_t_w_k_minus_1) {
        return false;
    }
    if !kzg_verify(gp, &pf.com_t, rp, &pf.t_rp, &pf.proof_t_rp) {
        return false;
    }
    if !kzg_verify(gp, &pf.com_t, &rw, &pf.t_w_rp, &pf.proof_t_w_rp) {
        return false;
    }
    if !kzg_verify(gp, &pf.com_q, rp, &pf.q_rp, &pf.proof_q_rp) {
        return false;
    }
    if !kzg_verify(gp, com_f, &rw, &pf.f_w_rp, &pf.proof_f_w_rp) {
        return false;
    }
    if !kzg_verify(gp, com_g, &rw, &pf.g_w_rp, &pf.proof_g_w_rp) {
        return false;
    }
    kzg_verify(gp, com_W, &rw, &pf.W_w_rp, &pf.proof_W_w_rp)
}

/// The value at `x` of the constraint polynomial
/// `S*(T + T(w*x)) + (1 - S)*(T * T(w*x)) - T(w^2*x)`.
pub open spec fn ts_t1_val(tv: Seq<int>, sv: Seq<int>, w: int, x: int) -> int {
    let y = (w * x) % field_q();
    let y2 = (((w * w) % field_q()) * x) % field_q();
    let a = peval(tv, x);
    let b = peval(tv, y);
    let c = peval(tv, y2);
    let se = peval(sv, x);
    (((se * ((a + b) % field_q())) % field_q() + (((1 - se) % field_q()) * ((a * b) % field_q()))
        % field_q()) % field_q() - c) % field_q()
}

/// Constructs the constraint polynomial whose vanishing on the anchors of the gates is
/// the generic constraint equation of the circuit.
#[allow(non_snake_case)]
pub fn compute_t1_T_S_zero_test(w: &Scalar, T: &Poly, S: &Poly) -> (r: Poly)
    requires
        w.wf(),
        T.wf(),
        S.wf(),
    ensures
        r.wf(),
        forall|x: int| #[trigger] peval(r.vals(), x) == ts_t1_val(T.vals(), S.vals(), w.val(), x),
        (S.vals().len() >= 1 && T.vals().len() >= 1) ==> r.vals().len() <= S.vals().len() + 2
            * T.vals().len() - 2,
{
    let z = Scalar::zero();
    let wx = linear_poly(&z, w);
    let w2 = scalar_mul(w, w);
    let w2x = linear_poly(&z, &w2);
    let T_w_y = crate::poly::compose_polynomials(T, &wx);
    let T_w2_y = crate::poly::compose_polynomials(T, &w2x);
    let mut ov: Vec<Scalar> = Vec::new();
    ov.push(Scalar::one());
    let one_poly = Poly::from_coeffs(ov);
    let one_minus_S = crate::poly::poly_sub(&one_poly, S);
    let sum_T = crate::poly::poly_add(T, &T_w_y);
    let prod_T = crate::poly::poly_mul(T, &T_w_y);
    let left = crate::poly::poly_mul(S, &sum_T);
    let right = crate::poly::poly_mul(&one_minus_S, &prod_T);
    let gates = crate::poly::poly_add(&left, &right);
    let r = crate::poly::poly_sub(&gates, &T_w2_y);
    proof {
        let q = field_q();
        assert(one_poly.vals() =~= seq![1int]);
        assert forall|x: int|
            #[trigger] peval(r.vals(), x) == ts_t1_val(T.vals(), S.vals(), w.val(), x) by {
            let y = peval(wx.vals(), x);
            assert(y == (0 + x * w.val()) % q);
            assert(x * w.val() == w.val() * x) by (nonlinear_arith);
            let y2 = peval(w2x.vals(), x);
            assert(y2 == (0 + x * w2.val()) % q);
            assert(x * w2.val() == w2.val() * x) by (nonlinear_arith);
            lemma_peval_ptrim(psub(gates.vals(), T_w2_y.vals()), x);
            lemma_peval_psub(gates.vals(), T_w2_y.vals(), x);
            lemma_peval_ptrim(crate::algebra::padd(left.vals(), right.vals()), x);
            crate::algebra::lemma_peval_padd(left.vals(), right.vals(), x);
            lemma_peval_ptrim(pmul(S.vals(), sum_T.vals()), x);
            lemma_peval_pmul(S.vals(), sum_T.vals(), x);
            lemma_peval_ptrim(pmul(one_minus_S.vals(), prod_T.vals()), x);
            lemma_peval_pmul(one_minus_S.vals(), prod_T.vals(), x);
            lemma_peval_ptrim(crate::algebra::padd(T.vals(), T_w_y.vals()), x);
            crate::algebra::lemma_peval_padd(T.vals(), T_w_y.vals(), x);
            lemma_peval_ptrim(pmul(T.vals(), T_w_y.vals()), x);
            lemma_peval_pmul(T.vals(), T_w_y.vals(), x);
            lemma_peval_ptrim(psub(one_poly.vals(), S.vals()), x);
            lemma_peval_psub(one_poly.vals(), S.vals(), x);
            assert(seq![1int].skip(1).len() == 0);
            assert(peval(seq![1int].skip(1), x) == 0);
            assert(x * 0 == 0) by (nonlinear_arith);
            lemma_small_mod(1, q as nat);
            assert(peval(one_poly.vals(), x) == 1);
            assert(peval(T_w_y.vals(), x) == peval(T.vals(), y));
            assert(peval(T_w2_y.vals(), x) == peval(T.vals(), y2));
        }
        // degree bookkeeping for the constraint polynomial
        if S.vals().len() >= 1 && T.vals().len() >= 1 {
            let ls = S.vals().len() as int;
            let lt = T.vals().len() as int;
            assert(T_w_y.vals().len() <= lt) by {
                if wx.vals().len() >= 1 {
                    assert((lt - 1) * (wx.vals().len() - 1) <= lt - 1) by (nonlinear_arith)
                        requires
                            wx.vals().len() - 1 <= 1,
                            lt - 1 >= 0,
                    ;
                }
            }
            assert(T_w2_y.vals().len() <= lt) by {
                if w2x.vals().len() >= 1 {
                    assert((lt - 1) * (w2x.vals().len() - 1) <= lt - 1) by (nonlinear_arith)
                        requires
                            w2x.vals().len() - 1 <= 1,
                            lt - 1 >= 0,
                    ;
                }
            }
            assert(one_minus_S.vals().len() <= ls) by {
                lemma_ptrim_canonical(psub(one_poly.vals(), S.vals()));
                assert(one_poly.vals().len() == 1);
            }
            assert(sum_T.vals().len() <= lt) by {
                lemma_ptrim_canonical(crate::algebra::padd(T.vals(), T_w_y.vals()));
            }
            assert(prod_T.vals().len() <= 2 * lt - 1) by {
                lemma_trim_mul_len(T.vals(), T_w_y.vals());
            }
            assert(left.vals().len() <= ls + lt - 1) by {
                lemma_trim_mul_len(S.vals(), sum_T.vals());
            }
            assert(right.vals().len() <= ls + 2 * lt - 2) by {
                lemma_trim_mul_len(one_minus_S.vals(), prod_T.vals());
            }
            assert(gates.vals().len() <= ls + 2 * lt - 2) by {
                lemma_ptrim_canonical(crate::algebra::padd(left.vals(), right.vals()));
            }
            assert(r.vals().len() <= ls + 2 * lt - 2) by {
                lemma_ptrim_canonical(psub(gates.vals(), T_w2_y.vals()));
            }
        }
    }
    r
}

/// Proof of the trace-selector zero test: the quotient commitment and openings of
/// the trace at the challenge and its two shifts, of the selector, and of
/// the quotient.
#[allow(non_snake_case)]
pub struct TSZeroTestProof {
    pub com_q: G1Point,
    pub T_r: Scalar,
    pub proof_T_r: G1Point,
    pub T_w_r: Scalar,
    pub proof_T_w_r: G1Point,
    pub T_w2_r: Scalar,
    pub proof_T_w2_r: G1Point,
    pub S_r: Scalar,
    pub proof_S_r: G1Point,
    pub q_r: Scalar,
    pub proof_q_r: G1Point,
}

impl TSZeroTestProof {
    pub open spec fn wf(self) -> bool {
        &&& self.com_q.wf()
        &&& self.T_r.wf() && self.proof_T_r.wf()
        &&& self.T_w_r.wf() && self.proof_T_w_r.wf()
        &&& self.T_w2_r.wf() && self.proof_T_w2_r.wf()
        &&& self.S_r.wf() && self.proof_S_r.wf()
        &&& self.q_r.wf() && self.proof_q_r.wf()
    }
}

/// Generates the trace-selector zero-test proof.
#[allow(non_snake_case)]
pub fn prove_T_S_zero_test(
    gp: &GlobalParameters,
    w: &Scalar,
    q: &Poly,
    T: &Poly,
    S: &Poly,
    r: &Scalar,
) -> (pf: TSZeroTestProof)
    requires
        gp.wf(),
        w.wf(),
        q.wf(),
        T.wf(),
        S.wf(),
        r.wf(),
        q.vals().len() <= gp.srs().len(),
        T.vals().len() <= gp.srs().len(),
        S.vals().len() <= gp.srs().len(),
    ensures
        pf.wf(),
        pf.com_q.rep() == commit_of(gp.srs(), q.vals()),
        pf.T_r.val() == peval(T.vals(), r.val()),
        pf.T_w_r.val() == peval(T.vals(), (w.val() * r.val()) % field_q()),
        pf.T_w2_r.val() == peval(
            T.vals(),
            (((w.val() * w.val()) % field_q()) * r.val()) % field_q(),
        ),
        pf.S_r.val() == peval(S.vals(), r.val()),
        pf.q_r.val() == peval(q.vals(), r.val()),
        is_kzg_opening(gp.srs(), T.vals(), r.val(), pf.T_r.val(), pf.proof_T_r.rep()),
        is_kzg_opening(
            gp.srs(),
            T.vals(),
            (w.val() * r.val()) % field_q(),
            pf.T_w_r.val(),
            pf.proof_T_w_r.rep(),
        ),
        is_kzg_opening(
            gp.srs(),
            T.vals(),
            (((w.val() * w.val()) % field_q()) * r.val()) % field_q(),
            pf.T_w2_r.val(),
            pf.proof_T_w2_r.rep(),
        ),
        is_kzg_opening(gp.srs(), S.vals(), r.val(), pf.S_r.val(), pf.proof_S_r.rep()),
        is_kzg_opening(gp.srs(), q.vals(), r.val(), pf.q_r.val(), pf.proof_q_r.rep()),
{
    let com_q = commit_must(gp, q);
    let wr = scalar_mul(w, r);
    let w2r = scalar_mul(&scalar_mul(w, w), r);
    let (T_r, proof_T_r) = kzg_evaluate(gp, T, r);
    let (T_w_r, proof_T_w_r) = kzg_evaluate(gp, T, &wr);
    let (T_w2_r, proof_T_w2_r) = kzg_evaluate(gp, T, &w2r);
    let (S_r, proof_S_r) = kzg_evaluate(gp, S, r);
    let (q_r, proof_q_r) = kzg_evaluate(gp, q, r);
    TSZeroTestProof {
        com_q,
        T_r,
        proof_T_r,
        T_w_r,
        proof_T_w_r,
        T_w2_r,
        proof_T_w2_r,
        S_r,
        proof_S_r,
        q_r,
        proof_q_r,
    }
}

/// What the trace-selector zero-test verifier accepts: the generic constraint identity at
/// the challenge against the vanishing polynomial of the anchors of the gates, and
/// the five openings.
#[allow(non_snake_case)]
pub open spec fn ts_zero_test_accepts(
    tau_g2: Seq<u8>,
    w: int,
    gates: Seq<int>,
    com_T: Seq<u8>,
    com_S: Seq<u8>,
    r: int,
    pf: TSZeroTestProof,
) -> bool {
    &&& (((pf.S_r.val() * ((pf.T_r.val() + pf.T_w_r.val()) % field_q())) % field_q() + (((1
        - pf.S_r.val()) % field_q()) * ((pf.T_r.val() * pf.T_w_r.val()) % field_q())) % field_q())
        % field_q() - pf.T_w2_r.val()) % field_q() == (pf.q_r.val() * peval(
        roots_poly(gates),
        r,
    )) % field_q()
    &&& spec_kzg_accepts(tau_g2, com_T, r, pf.T_r.val(), pf.proof_T_r.rep())
    &&& spec_kzg_accepts(
        tau_g2,
        com_T,
        (w * r) % field_q(),
        pf.T_w_r.val(),
        pf.proof_T_w_r.rep(),
    )
    &&& spec_kzg_accepts(
        tau_g2,
        com_T,
        (((w * w) % field_q()) * r) % field_q(),
        pf.T_w2_r.val(),
        pf.proof_T_w2_r.rep(),
    )
    &&& spec_kzg_accepts(tau_g2, com_S, r, pf.S_r.val(), pf.proof_S_r.rep())
    &&& spec_kzg_accepts(tau_g2, pf.com_q.rep(), r, pf.q_r.val(), pf.proof_q_r.rep())
}

/// Verifies a trace-selector zero test.
#[allow(non_snake_case)]
pub fn verify_T_S_zero_test(
    gp: &GlobalParameters,
    w: &Scalar,
    Omega_gates: &Vec<Scalar>,
    com_T: &G1Point,
    com_S: &G1Point,
    r: &Scalar,
    pf: &TSZeroTestProof,
) -> (res: bool)
    requires
        gp.wf(),
        w.wf(),
        crate::poly::all_wf(Omega_gates@),
        com_T.wf(),
        com_S.wf(),
        r.wf(),
        pf.wf(),
    ensures
        res == ts_zero_test_accepts(
            gp.tau_g2.rep(),
            w.val(),
            svals(Omega_gates@),
            com_T.rep(),
            com_S.rep(),
            r.val(),
            *pf,
        ),
{
    let one = Scalar::one();
    let z = construct_vanishing_polynomial_from_roots(Omega_gates);
    let z_r = poly_eval(&z, r);
    let lhs_sum = crate::field::scalar_add(
        &scalar_mul(&pf.S_r, &crate::field::scalar_add(&pf.T_r, &pf.T_w_r)),
        &scalar_mul(&scalar_sub(&one, &pf.S_r), &scalar_mul(&pf.T_r, &pf.T_w_r)),
    );
    let lhs = scalar_sub(&lhs_sum, &pf.T_w2_r);
    let rhs = scalar_mul(&pf.q_r, &z_r);
    if !scalar_eq(&lhs, &rhs) {
        return false;
    }
    let wr = scalar_mul(w, r);
    let w2r = scalar_mul(&scalar_mul(w, w), r);
    if !kzg_verify(gp, com_T, r, &pf.T_r, &pf.proof_T_r) {
        return false;
    }
    if !kzg_verify(gp, com_T, &wr, &pf.T_w_r, &pf.proof_T_w_r) {
        return false;
    }
    if !kzg_verify(gp, com_T, &w2r, &pf.T_w2_r, &pf.proof_T_w2_r) {
        return false;
    }
    if !kzg_verify(gp, com_S, r, &pf.S_r, &pf.proof_S_r) {
        return false;
    }
    kzg_verify(gp, &pf.com_q, r, &pf.q_r, &pf.proof_q_r)
}

} // verus!
