//! The KZG polynomial commitment scheme.
//!
//! Setup samples a trapdoor scalar, publishes its powers in G1 and its
//! image in G2, and discards it.  A commitment is the multi-scalar product
//! of the coefficients with the published powers; an opening proof is the
//! commitment to the quotient of `f - f(u)` by `x - u`; verification is a
//! pairing equation over the published values.

use vstd::prelude::*;
use vstd::arithmetic::div_mod::{lemma_mod_twice, lemma_small_mod};
use vstd::arithmetic::power::{lemma_pow0, pow};
use crate::algebra::{
    coef, lemma_padd_coef, lemma_peval_bound, lemma_peval_coef_ext, lemma_peval_padd,
    lemma_peval_pmul, lemma_peval_psub, lemma_pmul_reduced, lemma_psub_coef,
    lemma_ptrim_canonical, padd, peval, pmul, psub, ptrim, reduced,
};
use crate::field::{field_q, pow_mod, scalar_mul, scalar_neg, scalar_rand, Scalar};
use crate::group::{
    g1_add, g1_gen_mul, g1_gen_mul_of, g1_add_of, g1_mul, g1_mul_of, g1_sub, g1_sub_of,
    g2_gen_mul, g2_gen_mul_of, g2_sub, g2_sub_of, pairing, pairing_of, bytes_eq, G1Point, G2Point,
};
use crate::interpolate::lemma_peval_linear;
use crate::poly::{all_wf, lemma_all_wf_reduced, poly_divide, poly_eval, poly_sub, svals, Poly};

verus! {

/// Commitment failure: the polynomial's degree exceeds what the reference
/// string supports.
#[derive(Debug, Clone, PartialEq, Eq, Structural)]
pub enum CommitError {
    CommitFailed,
}

/// The structured reference string: the trapdoor's powers in G1 and its
/// image in G2.  The trapdoor itself does not outlive setup.
pub struct GlobalParameters {
    pub tau_powers_g1: Vec<G1Point>,
    pub tau_g2: G2Point,
}

impl GlobalParameters {
    /// The encodings of the published G1 powers.
    pub open spec fn srs(self) -> Seq<Seq<u8>> {
        Seq::new(self.tau_powers_g1@.len(), |i: int| self.tau_powers_g1@[i].rep())
    }

    pub open spec fn wf(self) -> bool {
        &&& self.tau_powers_g1@.len() >= 1
        &&& forall|i: int|
            0 <= i < self.tau_powers_g1@.len() ==> (#[trigger] self.tau_powers_g1@[i]).wf()
        &&& self.tau_g2.wf()
    }
}

/// The multi-scalar product of the coefficients with the reference-string
/// points, folded from the low degree up.
pub open spec fn msm_of(points: Seq<Seq<u8>>, coeffs: Seq<int>) -> Seq<u8>
    decreases coeffs.len(),
{
    if coeffs.len() == 0 {
        g1_gen_mul_of(0)
    } else if coeffs.len() == 1 {
        g1_mul_of(points[0], coeffs[0])
    } else {
        g1_add_of(
            msm_of(points.drop_last(), coeffs.drop_last()),
            g1_mul_of(points[coeffs.len() - 1], coeffs[coeffs.len() - 1]),
        )
    }
}

/// The commitment to a coefficient sequence under a reference string: the
/// zero polynomial commits to the group identity.
pub open spec fn commit_of(points: Seq<Seq<u8>>, coeffs: Seq<int>) -> Seq<u8> {
    msm_of(points, coeffs)
}

/// The monic linear polynomial `x - u`, as coefficients.
pub open spec fn linear_at(u: int) -> Seq<int> {
    seq![(0 - u) % field_q(), 1int]
}

/// What it means for `pf` to be the KZG opening proof of `fv` at `u` with
/// claimed value `v` under the reference string `srs`: some quotient
/// polynomial satisfies `q * (x - u) = f - v` exactly, and `pf` commits to
/// it.
pub open spec fn is_kzg_opening(
    srs: Seq<Seq<u8>>,
    fv: Seq<int>,
    u: int,
    v: int,
    pf: Seq<u8>,
) -> bool {
    exists|qv: Seq<int>|
        {
            &&& reduced(qv)
            &&& qv.len() + 1 <= srs.len()
            &&& forall|j: int|
                0 <= j ==> coef(pmul(qv, linear_at(u)), j) == coef(psub(fv, seq![v]), j)
            &&& pf == commit_of(srs, qv)
        }
}

/// The pairing equation of KZG verification:
/// `e(com - v*G1, G2) == e(pf, tau*G2 - u*G2)`.
pub open spec fn spec_kzg_accepts(
    tau_g2: Seq<u8>,
    com: Seq<u8>,
    u: int,
    v: int,
    pf: Seq<u8>,
) -> bool {
    pairing_of(g1_sub_of(com, g1_gen_mul_of(v)), g2_gen_mul_of(1)) == pairing_of(
        pf,
        g2_sub_of(tau_g2, g2_gen_mul_of(u)),
    )
}

/// The shape of an honestly generated reference string: the published
/// points are the G1 images of the successive powers of one field element,
/// whose G2 image is also published.
pub open spec fn srs_shape(gp: GlobalParameters, degree: nat) -> bool {
    exists|t: int|
        {
            &&& 0 <= t < field_q()
            &&& forall|i: int|
                0 <= i <= degree ==> #[trigger] gp.srs()[i] == g1_gen_mul_of(pow_mod(t, i as nat))
            &&& gp.tau_g2.rep() == g2_gen_mul_of(t)
        }
}

/// Generates the reference string for polynomials of degree at most
/// `degree`.  The trapdoor is sampled inside and dropped on return; what is
/// promised of the output is its shape.
pub fn kzg_setup(degree: usize) -> (r: GlobalParameters)
    requires
        degree < usize::MAX,
    ensures
        r.wf(),
        r.tau_powers_g1@.len() == degree + 1,
        srs_shape(r, degree as nat),
{
    let tau = scalar_rand();
    let mut tau_powers_g1: Vec<G1Point> = Vec::new();
    let mut tpow = Scalar::one();
    proof {
        lemma_pow0(tau.val());
        lemma_small_mod(1, field_q() as nat);
    }
    let mut i: usize = 0;
    while i <= degree
        invariant
            i <= degree + 1,
            degree < usize::MAX,
            tau.wf(),
            tpow.wf(),
            tpow.val() == pow_mod(tau.val(), i as nat),
            tau_powers_g1@.len() == i,
            forall|j: int| 0 <= j < i ==> (#[trigger] tau_powers_g1@[j]).wf(),
            forall|j: int|
                0 <= j < i ==> (#[trigger] tau_powers_g1@[j]).rep() == g1_gen_mul_of(
                    pow_mod(tau.val(), j as nat),
                ),
        decreases degree + 1 - i,
    {
        let p = g1_gen_mul(&tpow);
        tau_powers_g1.push(p);
        let next = scalar_mul(&tpow, &tau);
        proof {
            let b = tau.val();
            let pw = pow(b, i as nat);
            vstd::arithmetic::div_mod::lemma_mul_mod_noop_left(pw, b, field_q());
            assert(pow(b, (i + 1) as nat) == b * pw) by {
                reveal(vstd::arithmetic::power::pow);
            }
            assert(pw * b == b * pw) by (nonlinear_arith);
        }
        tpow = next;
        i += 1;
    }
    let tau_g2 = g2_gen_mul(&tau);
    let r = GlobalParameters { tau_powers_g1, tau_g2 };
    proof {
        assert forall|j: int|
            0 <= j <= degree implies #[trigger] r.srs()[j] == g1_gen_mul_of(
            pow_mod(tau.val(), j as nat),
        ) by {
            assert(r.srs()[j] == r.tau_powers_g1@[j].rep());
        }
        assert(srs_shape(r, degree as nat));
    }
    r
}

/// Commits to a polynomial.  Fails exactly when the polynomial has more
/// coefficients than the reference string has points; otherwise the result
/// is the multi-scalar product of the coefficients with the points.
pub fn kzg_commit(gp: &GlobalParameters, f: &Poly) -> (r: Result<G1Point, CommitError>)
    requires
        gp.wf(),
        f.wf(),
    ensures
        match r {
            Ok(c) => {
                &&& f.vals().len() <= gp.srs().len()
                &&& c.wf()
                &&& c.rep() == commit_of(gp.srs(), f.vals())
            },
            Err(e) => {
                &&& f.vals().len() > gp.srs().len()
                &&& e == CommitError::CommitFailed
            },
        },
{
    let n = f.len();
    if n > gp.tau_powers_g1.len() {
        return Err(CommitError::CommitFailed);
    }
    if n == 0 {
        let z = Scalar::zero();
        return Ok(g1_gen_mul(&z));
    }
    let c0 = f.coeff(0);
    let mut acc = g1_mul(&gp.tau_powers_g1[0], &c0);
    proof {
        assert(f.vals().take(1).drop_last() =~= Seq::<int>::empty());
        assert(f.vals().take(1)[0] == f.vals()[0]);
        assert(gp.srs().take(1)[0] == gp.srs()[0]);
        assert(acc.rep() == msm_of(gp.srs().take(1), f.vals().take(1)));
    }
    let mut i: usize = 1;
    while i < n
        invariant
            1 <= i <= n,
            n == f.vals().len(),
            n <= gp.srs().len(),
            gp.wf(),
            f.wf(),
            acc.wf(),
            acc.rep() == msm_of(gp.srs().take(i as int), f.vals().take(i as int)),
        decreases n - i,
    {
        let ci = f.coeff(i);
        proof {
            assert(ci.wf()) by {
                assert(f.vals()[i as int] == ci.val());
            }
        }
        let term = g1_mul(&gp.tau_powers_g1[i], &ci);
        let next = g1_add(&acc, &term);
        proof {
            let p1 = gp.srs().take(i as int + 1);
            let c1 = f.vals().take(i as int + 1);
            assert(c1.drop_last() =~= f.vals().take(i as int));
            assert(p1.drop_last() =~= gp.srs().take(i as int));
            assert(c1.len() > 1);
            assert(p1[c1.len() - 1] == gp.srs()[i as int]);
            assert(c1[c1.len() - 1] == f.vals()[i as int]);
            assert(msm_of(p1, c1) == g1_add_of(
                msm_of(gp.srs().take(i as int), f.vals().take(i as int)),
                g1_mul_of(gp.srs()[i as int], f.vals()[i as int]),
            ));
        }
        acc = next;
        i += 1;
    }
    proof {
        assert(f.vals().take(n as int) =~= f.vals());
        assert(gp.srs().take(n as int) =~= gp.srs().take(n as int));
        // msm only reads the first n points
        lemma_msm_prefix(gp.srs(), gp.srs().take(n as int), f.vals());
    }
    Ok(acc)
}

/// The multi-scalar product only reads as many points as there are
/// coefficients.
proof fn lemma_msm_prefix(p1: Seq<Seq<u8>>, p2: Seq<Seq<u8>>, c: Seq<int>)
    requires
        c.len() <= p1.len(),
        c.len() <= p2.len(),
        forall|i: int| 0 <= i < c.len() ==> p1[i] == p2[i],
    ensures
        msm_of(p1, c) == msm_of(p2, c),
    decreases c.len(),
{
    if c.len() == 0 {
    } else if c.len() == 1 {
    } else {
        lemma_msm_prefix(p1.drop_last(), p2.drop_last(), c.drop_last());
    }
}

/// Evaluates `f` at `u` and produces the KZG opening proof: the value is
/// the evaluation, and the proof commits to the exact quotient of `f - v`
/// by `x - u`.
pub fn kzg_evaluate(gp: &GlobalParameters, f: &Poly, u: &Scalar) -> (r: (Scalar, G1Point))
    requires
        gp.wf(),
        f.wf(),
        u.wf(),
        f.vals().len() <= gp.srs().len(),
    ensures
        r.0.wf(),
        r.0.val() == peval(f.vals(), u.val()),
        r.1.wf(),
        is_kzg_opening(gp.srs(), f.vals(), u.val(), r.0.val(), r.1.rep()),
{
    let ghost fv = f.vals();
    let v = poly_eval(f, u);
    // f - v
    let mut vv: Vec<Scalar> = Vec::new();
    vv.push(v);
    let vpoly = Poly::from_coeffs(vv);
    let f_minus_v = poly_sub(f, &vpoly);
    // x - u
    let neg_u = scalar_neg(u);
    let mut xu: Vec<Scalar> = Vec::new();
    xu.push(neg_u);
    xu.push(Scalar::one());
    let x_minus_u = Poly::from_coeffs(xu);
    proof {
        assert(svals(xu@) =~= linear_at(u.val()));
        assert(linear_at(u.val())[1] == 1);
        assert(ptrim(linear_at(u.val())) == linear_at(u.val()));
        assert(x_minus_u.vals() == linear_at(u.val()));
    }
    let (qp, rem) = poly_divide(&f_minus_v, &x_minus_u);
    proof {
        let q = field_q();
        let uu = u.val();
        let lin = linear_at(uu);
        let fmv = f_minus_v.vals();
        let qv = qp.vals();
        let rv = rem.vals();
        // the coefficients of f_minus_v agree with psub(fv, [v])
        crate::algebra::lemma_ptrim_canonical(psub(fv, vpoly.vals()));
        crate::algebra::lemma_ptrim_canonical(svals(seq![v]));
        assert forall|j: int| 0 <= j implies coef(fmv, j) == coef(psub(fv, seq![v.val()]), j) by {
            lemma_psub_coef(fv, vpoly.vals(), j);
            lemma_psub_coef(fv, seq![v.val()], j);
            assert(coef(vpoly.vals(), j) == coef(seq![v.val()], j)) by {
                assert(vpoly.vals() == ptrim(svals(seq![v])));
                assert(svals(seq![v]) =~= seq![v.val()]);
                lemma_ptrim_canonical(seq![v.val()]);
            }
        }
        // the remainder is the zero polynomial
        let sstar = padd(pmul(qv, lin), rv);
        assert(peval(sstar, uu) == peval(fmv, uu)) by {
            lemma_peval_coef_ext(sstar, fmv, uu);
        }
        lemma_pmul_reduced(qv, lin);
        lemma_peval_padd(pmul(qv, lin), rv, uu);
        lemma_peval_pmul(qv, lin, uu);
        lemma_peval_linear(lin, uu, uu);
        assert((uu - uu) % q == 0) by {
            lemma_small_mod(0, q as nat);
        }
        assert(peval(qv, uu) * 0 == 0) by (nonlinear_arith);
        lemma_small_mod(0, q as nat);
        assert(peval(pmul(qv, lin), uu) == 0);
        lemma_peval_bound(rv, uu);
        lemma_small_mod(peval(rv, uu) as nat, q as nat);
        assert(peval(sstar, uu) == peval(rv, uu));
        // and f_minus_v itself evaluates to zero at u
        assert(peval(fmv, uu) == 0) by {
            lemma_peval_coef_ext(fmv, psub(fv, seq![v.val()]), uu);
            lemma_peval_psub(fv, seq![v.val()], uu);
            assert(seq![v.val()].skip(1).len() == 0);
            assert(peval(seq![v.val()].skip(1), uu) == 0);
            assert(uu * 0 == 0) by (nonlinear_arith);
            lemma_small_mod(v.val() as nat, q as nat);
            assert(peval(seq![v.val()], uu) == v.val());
            lemma_small_mod(0, q as nat);
            assert((peval(fv, uu) - peval(fv, uu)) % q == 0);
        }
        assert(peval(rv, uu) == 0);
        // a canonical polynomial of degree zero with a zero value is empty
        assert(rv.len() == 0) by {
            if rv.len() == 1 {
                assert(peval(rv, uu) == (rv[0] + uu * peval(rv.skip(1), uu)) % q);
                assert(rv.skip(1).len() == 0);
                assert(peval(rv.skip(1), uu) == 0);
                assert(uu * 0 == 0) by (nonlinear_arith);
                lemma_small_mod(rv[0] as nat, q as nat);
                assert(rv[0] == 0);
                assert(rv[rv.len() - 1] != 0);
            }
        }
        // hence q * (x - u) matches f - v coefficient-wise
        assert forall|j: int|
            0 <= j implies coef(pmul(qv, lin), j) == coef(psub(fv, seq![v.val()]), j) by {
            lemma_padd_coef(pmul(qv, lin), rv, j);
            lemma_pmul_reduced(qv, lin);
            assert(coef(rv, j) == 0);
            let mj = coef(pmul(qv, lin), j);
            assert(0 <= mj < q) by {
                if 0 <= j < pmul(qv, lin).len() {
                }
            }
            lemma_small_mod(mj as nat, q as nat);
            assert(coef(padd(pmul(qv, lin), rv), j) == (mj + 0) % q);
            assert(coef(padd(pmul(qv, lin), rv), j) == coef(fmv, j));
            assert(coef(fmv, j) == coef(psub(fv, seq![v.val()]), j));
        }
    }
    let proof_pt = match kzg_commit(gp, &qp) {
        Ok(c) => c,
        Err(_) => {
            proof {
                assert(false);
            }
            g1_gen_mul(&Scalar::zero())
        },
    };
    proof {
        let qv = qp.vals();
        assert(reduced(qv));
        lemma_ptrim_canonical(psub(fv, vpoly.vals()));
        assert(f_minus_v.vals().len() <= psub(fv, vpoly.vals()).len());
        assert(qv.len() + 1 <= gp.srs().len()) by {
            if f_minus_v.vals().len() >= 2 {
                assert(psub(fv, vpoly.vals()).len() >= 2);
                assert(fv.len() >= 2);
            } else {
                assert(qv.len() == 0);
            }
        }
        assert(proof_pt.rep() == commit_of(gp.srs(), qv));
        assert(is_kzg_opening(gp.srs(), fv, u.val(), v.val(), proof_pt.rep()));
    }
    (v, proof_pt)
}

/// Verifies a KZG opening against a commitment: checks the pairing
/// equation over the published reference string.
pub fn kzg_verify(
    gp: &GlobalParameters,
    com_f: &G1Point,
    u: &Scalar,
    v: &Scalar,
    pf: &G1Point,
) -> (r: bool)
    requires
        gp.wf(),
        com_f.wf(),
        u.wf(),
        v.wf(),
        pf.wf(),
    ensures
        r == spec_kzg_accepts(gp.tau_g2.rep(), com_f.rep(), u.val(), v.val(), pf.rep()),
{
    let vg1 = g1_gen_mul(v);
    let left = g1_sub(com_f, &vg1);
    let one = Scalar::one();
    let g2gen = g2_gen_mul(&one);
    let e1 = pairing(&left, &g2gen);
    let ug2 = g2_gen_mul(u);
    let right = g2_sub(&gp.tau_g2, &ug2);
    let e2 = pairing(pf, &right);
    bytes_eq(&e1, &e2)
}

} // verus!
