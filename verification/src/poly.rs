//! Dense single-variable polynomials over the scalar field.
//!
//! A `Poly` owns its coefficient vector in canonical form: every coefficient
//! is a well-formed field element and the highest stored coefficient is not
//! zero, so the degree is the length minus one (the zero polynomial stores
//! no coefficients).  Every operation is proved against the coefficient
//! model in the algebra module.

use vstd::prelude::*;
use vstd::arithmetic::div_mod::{
    lemma_add_mod_noop, lemma_add_mod_noop_right, lemma_mod_twice, lemma_mul_mod_noop_right,
    lemma_small_mod,
};
use crate::algebra::{
    canonical, coef, lemma_padd_coef, lemma_peval_bound, lemma_peval_padd, lemma_peval_pmul,
    lemma_peval_ptrim, lemma_pmul_coef_ext, lemma_pmul_reduced, lemma_pmul_update,
    lemma_pshiftn_coef, lemma_ptrim_canonical, padd, peval, pmul, pscale, pshift, pshiftn, psub,
    ptrim, reduced,
};
use crate::field::{
    field_q, scalar_add, scalar_eq, scalar_inv, scalar_mul, scalar_rand, scalar_sub, Scalar,
};

verus! {

/// The values of a vector of field elements, as the coefficient model.
pub open spec fn svals(s: Seq<Scalar>) -> Seq<int> {
    Seq::new(s.len(), |i: int| s[i].val())
}

/// Every element of the vector is a well-formed field element.
pub open spec fn all_wf(s: Seq<Scalar>) -> bool {
    forall|i: int| 0 <= i < s.len() ==> (#[trigger] s[i]).wf()
}

pub proof fn lemma_all_wf_reduced(s: Seq<Scalar>)
    requires
        all_wf(s),
    ensures
        reduced(svals(s)),
{
    assert forall|i: int| 0 <= i < svals(s).len() implies 0 <= #[trigger] svals(s)[i]
        < field_q() by {
        assert(s[i].wf());
    }
}

/// A dense polynomial in canonical coefficient form.
#[derive(Clone, Debug)]
pub struct Poly {
    coeffs: Vec<Scalar>,
}

impl Poly {
    /// The coefficient model of this polynomial.
    pub closed spec fn vals(self) -> Seq<int> {
        svals(self.coeffs@)
    }

    /// Canonical form: reduced coefficients, no trailing zero.
    pub open spec fn wf(self) -> bool {
        canonical(self.vals())
    }

    /// The zero polynomial.
    pub fn zero() -> (r: Poly)
        ensures
            r.wf(),
            r.vals() == Seq::<int>::empty(),
    {
        let r = Poly { coeffs: Vec::new() };
        proof {
            assert(r.vals() =~= Seq::<int>::empty());
        }
        r
    }

    /// Builds a polynomial from coefficients, trimming trailing zeros.
    pub fn from_coeffs(v: Vec<Scalar>) -> (r: Poly)
        requires
            all_wf(v@),
        ensures
            r.wf(),
            r.vals() == ptrim(svals(v@)),
    {
        proof {
            lemma_all_wf_reduced(v@);
            lemma_ptrim_canonical(svals(v@));
        }
        Poly { coeffs: trim_vec(v) }
    }

    /// The stored coefficients, low degree first.
    pub fn coefficients(&self) -> (r: Vec<Scalar>)
        requires
            self.wf(),
        ensures
            svals(r@) == self.vals(),
            all_wf(r@),
    {
        proof {
            assert forall|i: int| 0 <= i < self.coeffs@.len() implies (
            #[trigger] self.coeffs@[i]).wf() by {
                assert(self.vals()[i] == self.coeffs@[i].val());
            }
        }
        let mut out: Vec<Scalar> = Vec::new();
        let mut i: usize = 0;
        while i < self.coeffs.len()
            invariant
                i <= self.coeffs@.len(),
                out@.len() == i,
                forall|j: int| 0 <= j < i ==> out@[j] == self.coeffs@[j],
                all_wf(self.coeffs@),
            decreases self.coeffs@.len() - i,
        {
            out.push(self.coeffs[i]);
            i += 1;
        }
        proof {
            assert(out@ =~= self.coeffs@);
            assert(svals(out@) =~= self.vals());
        }
        out
    }

    /// The number of stored coefficients: degree + 1, or 0 for the zero
    /// polynomial.
    pub fn len(&self) -> (r: usize)
        ensures
            r == self.vals().len(),
    {
        self.coeffs.len()
    }

    /// The degree, with the zero polynomial given degree 0.
    pub fn degree(&self) -> (r: usize)
        ensures
            self.vals().len() == 0 ==> r == 0,
            self.vals().len() > 0 ==> r == self.vals().len() - 1,
    {
        if self.coeffs.len() == 0 {
            0
        } else {
            self.coeffs.len() - 1
        }
    }

    /// The coefficient of `x^i`.
    pub fn coeff(&self, i: usize) -> (r: Scalar)
        requires
            i < self.vals().len(),
        ensures
            r.val() == self.vals()[i as int],
    {
        self.coeffs[i]
    }
}

/// Removes trailing zero coefficients.
fn trim_vec(v: Vec<Scalar>) -> (r: Vec<Scalar>)
    requires
        all_wf(v@),
    ensures
        svals(r@) == ptrim(svals(v@)),
        all_wf(r@),
{
    let mut out = v;
    loop
        invariant
            all_wf(out@),
            ptrim(svals(out@)) == ptrim(svals(v@)),
        ensures
            all_wf(out@),
            ptrim(svals(out@)) == ptrim(svals(v@)),
            svals(out@).len() == 0 || svals(out@)[svals(out@).len() - 1] != 0,
        decreases out@.len(),
    {
        let n = out.len();
        if n == 0 {
            break ;
        }
        let last = out[n - 1];
        if scalar_eq(&last, &Scalar::zero()) {
            let ghost before = svals(out@);
            out.pop();
            proof {
                assert(svals(out@) =~= before.drop_last());
                assert(before[before.len() - 1] == 0);
            }
        } else {
            proof {
                assert(svals(out@)[svals(out@).len() - 1] == last.val());
            }
            break ;
        }
    }
    proof {
        let s = svals(out@);
        if s.len() == 0 {
            assert(ptrim(s) == s);
        } else {
            assert(s[s.len() - 1] != 0);
            assert(ptrim(s) == s);
        }
    }
    out
}

/// Pointwise sum of coefficient vectors, without trimming.
pub(crate) fn add_raw(a: &Vec<Scalar>, b: &Vec<Scalar>) -> (r: Vec<Scalar>)
    requires
        all_wf(a@),
        all_wf(b@),
    ensures
        svals(r@) == padd(svals(a@), svals(b@)),
        all_wf(r@),
{
    let n = if a.len() >= b.len() {
        a.len()
    } else {
        b.len()
    };
    let mut out: Vec<Scalar> = Vec::new();
    let mut i: usize = 0;
    while i < n
        invariant
            i <= n,
            n == if a@.len() >= b@.len() {
                a@.len()
            } else {
                b@.len()
            },
            all_wf(a@),
            all_wf(b@),
            all_wf(out@),
            out@.len() == i,
            forall|j: int| 0 <= j < i ==> svals(out@)[j] == padd(svals(a@), svals(b@))[j],
        decreases n - i,
    {
        let ca = if i < a.len() {
            a[i]
        } else {
            Scalar::zero()
        };
        let cb = if i < b.len() {
            b[i]
        } else {
            Scalar::zero()
        };
        let s = scalar_add(&ca, &cb);
        let ghost prev = out@;
        out.push(s);
        proof {
            assert(coef(svals(a@), i as int) == ca.val());
            assert(coef(svals(b@), i as int) == cb.val());
            assert(svals(out@)[i as int] == s.val());
            assert forall|j: int| 0 <= j < i implies svals(out@)[j] == padd(
                svals(a@),
                svals(b@),
            )[j] by {
                assert(out@[j] == prev[j]);
                assert(svals(prev)[j] == padd(svals(a@), svals(b@))[j]);
            }
        }
        i += 1;
    }
    proof {
        assert(svals(out@) =~= padd(svals(a@), svals(b@)));
    }
    out
}

/// Pointwise difference of coefficient vectors, without trimming.
pub(crate) fn sub_raw(a: &Vec<Scalar>, b: &Vec<Scalar>) -> (r: Vec<Scalar>)
    requires
        all_wf(a@),
        all_wf(b@),
    ensures
        svals(r@) == psub(svals(a@), svals(b@)),
        all_wf(r@),
{
    let n = if a.len() >= b.len() {
        a.len()
    } else {
        b.len()
    };
    let mut out: Vec<Scalar> = Vec::new();
    let mut i: usize = 0;
    while i < n
        invariant
            i <= n,
            n == if a@.len() >= b@.len() {
                a@.len()
            } else {
                b@.len()
            },
            all_wf(a@),
            all_wf(b@),
            all_wf(out@),
            out@.len() == i,
            forall|j: int| 0 <= j < i ==> svals(out@)[j] == psub(svals(a@), svals(b@))[j],
        decreases n - i,
    {
        let ca = if i < a.len() {
            a[i]
        } else {
            Scalar::zero()
        };
        let cb = if i < b.len() {
            b[i]
        } else {
            Scalar::zero()
        };
        let s = scalar_sub(&ca, &cb);
        let ghost prev = out@;
        out.push(s);
        proof {
            assert(coef(svals(a@), i as int) == ca.val());
            assert(coef(svals(b@), i as int) == cb.val());
            assert(svals(out@)[i as int] == s.val());
            assert forall|j: int| 0 <= j < i implies svals(out@)[j] == psub(
                svals(a@),
                svals(b@),
            )[j] by {
                assert(out@[j] == prev[j]);
                assert(svals(prev)[j] == psub(svals(a@), svals(b@))[j]);
            }
        }
        i += 1;
    }
    proof {
        assert(svals(out@) =~= psub(svals(a@), svals(b@)));
    }
    out
}

/// All coefficients multiplied by a constant, without trimming.
pub(crate) fn scale_raw(a: &Vec<Scalar>, c: &Scalar) -> (r: Vec<Scalar>)
    requires
        all_wf(a@),
        c.wf(),
    ensures
        svals(r@) == pscale(svals(a@), c.val()),
        all_wf(r@),
{
    let mut out: Vec<Scalar> = Vec::new();
    let mut i: usize = 0;
    while i < a.len()
        invariant
            i <= a@.len(),
            all_wf(a@),
            c.wf(),
            all_wf(out@),
            out@.len() == i,
            forall|j: int| 0 <= j < i ==> svals(out@)[j] == pscale(svals(a@), c.val())[j],
        decreases a@.len() - i,
    {
        let m = scalar_mul(&a[i], c);
        let ghost prev = out@;
        out.push(m);
        proof {
            assert(svals(out@)[i as int] == m.val());
            assert forall|j: int| 0 <= j < i implies svals(out@)[j] == pscale(
                svals(a@),
                c.val(),
            )[j] by {
                assert(out@[j] == prev[j]);
                assert(svals(prev)[j] == pscale(svals(a@), c.val())[j]);
            }
        }
        i += 1;
    }
    proof {
        assert(svals(out@) =~= pscale(svals(a@), c.val()));
    }
    out
}

/// Product of coefficient vectors, mirroring the recursive model, without
/// trimming.
pub(crate) fn mul_raw(a: &Vec<Scalar>, b: &Vec<Scalar>) -> (r: Vec<Scalar>)
    requires
        all_wf(a@),
        all_wf(b@),
    ensures
        svals(r@) == pmul(svals(a@), svals(b@)),
        all_wf(r@),
    decreases a@.len(),
{
    if a.len() == 0 || b.len() == 0 {
        let out: Vec<Scalar> = Vec::new();
        proof {
            assert(svals(out@) =~= pmul(svals(a@), svals(b@)));
        }
        out
    } else if a.len() == 1 {
        let out = scale_raw(b, &a[0]);
        proof {
            assert(svals(a@)[0] == a@[0].val());
            assert(svals(out@) =~= pmul(svals(a@), svals(b@)));
        }
        out
    } else {
        let mut tail: Vec<Scalar> = Vec::new();
        let mut i: usize = 1;
        while i < a.len()
            invariant
                1 <= i <= a@.len(),
                all_wf(a@),
                tail@.len() == i - 1,
                forall|j: int| 0 <= j < i - 1 ==> tail@[j] == a@[j + 1],
            decreases a@.len() - i,
        {
            tail.push(a[i]);
            i += 1;
        }
        proof {
            assert(tail@ =~= a@.skip(1));
            assert(all_wf(tail@));
        }
        let rest = mul_raw(&tail, b);
        let mut shifted: Vec<Scalar> = Vec::new();
        shifted.push(Scalar::zero());
        let mut j: usize = 0;
        while j < rest.len()
            invariant
                j <= rest@.len(),
                shifted@.len() == j + 1,
                shifted@[0].val() == 0,
                shifted@[0].wf(),
                all_wf(rest@),
                forall|m: int| 0 <= m < j ==> shifted@[m + 1] == rest@[m],
            decreases rest@.len() - j,
        {
            shifted.push(rest[j]);
            j += 1;
        }
        proof {
            assert(all_wf(shifted@)) by {
                assert forall|m: int| 0 <= m < shifted@.len() implies (
                #[trigger] shifted@[m]).wf() by {
                    if m > 0 {
                        assert(shifted@[m] == rest@[m - 1]);
                    }
                }
            }
            assert(svals(shifted@) =~= pshift(svals(rest@)));
            assert(svals(tail@) =~= svals(a@).skip(1));
        }
        let scaled = scale_raw(b, &a[0]);
        let out = add_raw(&scaled, &shifted);
        proof {
            assert(svals(a@)[0] == a@[0].val());
            assert(svals(out@) == pmul(svals(a@), svals(b@)));
        }
        out
    }
}

/// Polynomial addition.
pub fn poly_add(a: &Poly, b: &Poly) -> (r: Poly)
    requires
        a.wf(),
        b.wf(),
    ensures
        r.wf(),
        r.vals() == ptrim(padd(a.vals(), b.vals())),
{
    proof {
        poly_all_wf(a);
        poly_all_wf(b);
    }
    let raw = add_raw(&a.coeffs, &b.coeffs);
    proof {
        lemma_all_wf_reduced(raw@);
        lemma_ptrim_canonical(svals(raw@));
    }
    Poly { coeffs: trim_vec(raw) }
}

/// Polynomial subtraction.
pub fn poly_sub(a: &Poly, b: &Poly) -> (r: Poly)
    requires
        a.wf(),
        b.wf(),
    ensures
        r.wf(),
        r.vals() == ptrim(psub(a.vals(), b.vals())),
{
    proof {
        poly_all_wf(a);
        poly_all_wf(b);
    }
    let raw = sub_raw(&a.coeffs, &b.coeffs);
    proof {
        lemma_all_wf_reduced(raw@);
        lemma_ptrim_canonical(svals(raw@));
    }
    Poly { coeffs: trim_vec(raw) }
}

/// Polynomial multiplication, by convolution of the coefficient vectors.
pub fn poly_mul(a: &Poly, b: &Poly) -> (r: Poly)
    requires
        a.wf(),
        b.wf(),
    ensures
        r.wf(),
        r.vals() == ptrim(pmul(a.vals(), b.vals())),
{
    proof {
        poly_all_wf(a);
        poly_all_wf(b);
    }
    let raw = mul_raw(&a.coeffs, &b.coeffs);
    proof {
        lemma_all_wf_reduced(raw@);
        lemma_ptrim_canonical(svals(raw@));
    }
    Poly { coeffs: trim_vec(raw) }
}

/// Multiplication by a constant.
pub fn poly_scale(a: &Poly, c: &Scalar) -> (r: Poly)
    requires
        a.wf(),
        c.wf(),
    ensures
        r.wf(),
        r.vals() == ptrim(pscale(a.vals(), c.val())),
{
    proof {
        poly_all_wf(a);
    }
    let raw = scale_raw(&a.coeffs, c);
    proof {
        lemma_all_wf_reduced(raw@);
        lemma_ptrim_canonical(svals(raw@));
    }
    Poly { coeffs: trim_vec(raw) }
}

proof fn poly_all_wf(p: &Poly)
    requires
        p.wf(),
    ensures
        all_wf(p.coeffs@),
        reduced(p.vals()),
{
    assert forall|i: int| 0 <= i < p.coeffs@.len() implies (#[trigger] p.coeffs@[i]).wf() by {
        assert(p.vals()[i] == p.coeffs@[i].val());
    }
}

/// Evaluation at a point, by Horner's rule.
pub fn poly_eval(f: &Poly, x: &Scalar) -> (r: Scalar)
    requires
        f.wf(),
        x.wf(),
    ensures
        r.wf(),
        r.val() == peval(f.vals(), x.val()),
{
    proof {
        poly_all_wf(f);
    }
    let mut acc = Scalar::zero();
    let mut i: usize = f.coeffs.len();
    proof {
        assert(f.vals().skip(i as int) =~= Seq::<int>::empty());
    }
    while i > 0
        invariant
            i <= f.vals().len(),
            f.wf(),
            x.wf(),
            acc.wf(),
            all_wf(f.coeffs@),
            acc.val() == peval(f.vals().skip(i as int), x.val()),
        decreases i,
    {
        i = i - 1;
        let c = f.coeffs[i];
        let m = scalar_mul(x, &acc);
        let next = scalar_add(&c, &m);
        proof {
            let s = f.vals().skip(i as int);
            assert(s.len() > 0);
            assert(s[0] == f.vals()[i as int]);
            assert(s.skip(1) =~= f.vals().skip(i as int + 1));
            assert(c.val() == f.vals()[i as int]);
            // next = (c + (x*acc)%q)%q == (c + x*acc)%q
            lemma_mul_mod_noop_right(x.val(), acc.val(), field_q());
            lemma_add_mod_noop_right(c.val(), x.val() * acc.val(), field_q());
            assert(next.val() == (c.val() + x.val() * acc.val()) % field_q());
        }
        acc = next;
    }
    proof {
        assert(f.vals().skip(0) =~= f.vals());
    }
    acc
}

/// Division with remainder by school long division.  The divisor must not be
/// the zero polynomial; the quotient and remainder satisfy the division
/// identity `q*b + rem = a` coefficient by coefficient, and the remainder has
/// degree strictly below the divisor's.
pub fn poly_divide(a: &Poly, b: &Poly) -> (r: (Poly, Poly))
    requires
        a.wf(),
        b.wf(),
        b.vals().len() > 0,
    ensures
        r.0.wf(),
        r.1.wf(),
        r.1.vals().len() < b.vals().len(),
        r.0.vals().len() <= if a.vals().len() >= b.vals().len() {
            a.vals().len() - b.vals().len() + 1
        } else {
            0
        },
        forall|j: int|
            0 <= j ==> coef(padd(pmul(r.0.vals(), b.vals()), r.1.vals()), j) == coef(a.vals(), j),
{
    proof {
        poly_all_wf(a);
        poly_all_wf(b);
    }
    let ghost av = a.vals();
    let ghost bv = b.vals();
    let alen = a.coeffs.len();
    let blen = b.coeffs.len();
    if alen < blen {
        let q = Poly::zero();
        let rem = Poly { coeffs: trim_vec_copy(&a.coeffs) };
        proof {
            lemma_all_wf_reduced(a.coeffs@);
            lemma_ptrim_canonical(av);
            assert(ptrim(av) == av);
            assert forall|j: int| 0 <= j implies coef(padd(pmul(q.vals(), bv), rem.vals()), j)
                == coef(av, j) by {
                assert(pmul(q.vals(), bv) =~= Seq::<int>::empty());
                lemma_padd_coef(pmul(q.vals(), bv), rem.vals(), j);
                if 0 <= j < av.len() {
                    lemma_small_mod(av[j] as nat, field_q() as nat);
                } else {
                    lemma_small_mod(0, field_q() as nat);
                }
            }
        }
        return (q, rem);
    }
    // the leading coefficient of b is invertible
    let lead_b = b.coeffs[blen - 1];
    proof {
        assert(bv[bv.len() - 1] == b.coeffs@[blen - 1].val());
    }
    let inv_lead = scalar_inv(&lead_b);
    let mut rem: Vec<Scalar> = copy_scalars(&a.coeffs);
    let mut q: Vec<Scalar> = Vec::new();
    let qlen = alen - blen + 1;
    let mut zi: usize = 0;
    while zi < qlen
        invariant
            zi <= qlen,
            q@.len() == zi,
            forall|j: int| 0 <= j < zi ==> (#[trigger] q@[j]).wf() && q@[j].val() == 0,
        decreases qlen - zi,
    {
        q.push(Scalar::zero());
        zi += 1;
    }
    proof {
        assert(all_wf(q@));
        assert(all_wf(rem@));
        assert(svals(rem@) =~= av);
        lemma_div_identity_base(svals(q@), bv, av);
    }
    while rem.len() >= blen
        invariant
            a.wf(),
            b.wf(),
            bv == b.vals(),
            av == a.vals(),
            blen == bv.len(),
            alen == av.len(),
            blen >= 1,
            alen >= blen,
            rem@.len() <= alen,
            q@.len() == alen - blen + 1,
            all_wf(rem@),
            all_wf(q@),
            lead_b.val() == bv[blen - 1],
            all_wf(b.coeffs@),
            svals(b.coeffs@) == bv,
            inv_lead.wf(),
            (inv_lead.val() * lead_b.val()) % field_q() == 1,
            forall|j: int| 0 <= j <= rem@.len() - blen ==> svals(q@)[j] == 0,
            forall|j: int|
                0 <= j ==> coef(padd(pmul(svals(q@), bv), svals(rem@)), j) == coef(av, j),
        decreases rem@.len(),
    {
        let rlen = rem.len();
        let k = rlen - blen;
        let lead = scalar_mul(&rem[rlen - 1], &inv_lead);
        let ghost qv_old = svals(q@);
        let ghost rv = svals(rem@);
        q.set(k, lead);
        let ghost qv_new = svals(q@);
        proof {
            assert(qv_new =~= qv_old.update(k as int, lead.val()));
        }
        // subtract lead * x^k * b from the remainder and drop the top
        // coefficient, which cancels exactly
        let mut nr: Vec<Scalar> = Vec::new();
        let mut idx: usize = 0;
        while idx < rlen - 1
            invariant
                idx <= rlen - 1,
                rlen == rem@.len(),
                rlen >= blen >= 1,
                k == rlen - blen,
                all_wf(rem@),
                all_wf(b.coeffs@),
                blen == b.coeffs@.len(),
                lead.wf(),
                nr@.len() == idx,
                all_wf(nr@),
                forall|j: int|
                    0 <= j < idx ==> svals(nr@)[j] == if j < k {
                        svals(rem@)[j]
                    } else {
                        (svals(rem@)[j] - (svals(b.coeffs@)[j - k] * lead.val()) % field_q())
                            % field_q()
                    },
            decreases rlen - 1 - idx,
        {
            let ghost prev = nr@;
            if idx >= k {
                let t = scalar_mul(&b.coeffs[idx - k], &lead);
                let s = scalar_sub(&rem[idx], &t);
                nr.push(s);
                proof {
                    assert(svals(nr@)[idx as int] == s.val());
                    assert(t.val() == (svals(b.coeffs@)[idx - k] * lead.val()) % field_q());
                }
            } else {
                nr.push(rem[idx]);
                proof {
                    assert(svals(nr@)[idx as int] == svals(rem@)[idx as int]);
                }
            }
            proof {
                assert forall|j: int| 0 <= j < idx implies svals(nr@)[j] == if j < k {
                    svals(rem@)[j]
                } else {
                    (svals(rem@)[j] - (svals(b.coeffs@)[j - k] * lead.val()) % field_q())
                        % field_q()
                } by {
                    assert(nr@[j] == prev[j]);
                    assert(svals(nr@)[j] == svals(prev)[j]);
                }
            }
            idx += 1;
        }
        proof {
            let ghost nv = svals(nr@);
            let ghost m = pshiftn(pscale(bv, lead.val()), k as nat);
            lemma_pmul_reduced(qv_old, bv);
            lemma_pmul_reduced(qv_new, bv);
            lemma_all_wf_reduced(rem@);
            lemma_all_wf_reduced(nr@);
            lemma_all_wf_reduced(b.coeffs@);
            assert(svals(b.coeffs@) == bv);
            // the dropped top coefficient cancels: (bv[blen-1]*lead) % q == rv[rlen-1]
            lemma_cancel_inv(rv[rlen - 1], bv[blen - 1], inv_lead.val());
            assert forall|j: int|
                0 <= j implies coef(padd(pmul(qv_new, bv), nv), j) == coef(av, j) by {
                lemma_pmul_update(qv_old, bv, k as int, lead.val(), j);
                lemma_padd_coef(pmul(qv_new, bv), nv, j);
                lemma_padd_coef(pmul(qv_old, bv), rv, j);
                lemma_pshiftn_coef(pscale(bv, lead.val()), k as nat, j);
                let mj = coef(m, j);
                let mo = coef(pmul(qv_old, bv), j);
                let rj = coef(rv, j);
                let nj = coef(nv, j);
                assert(0 <= mo < field_q()) by {
                    if 0 <= j < pmul(qv_old, bv).len() {
                    }
                }
                assert(0 <= rj < field_q()) by {
                    if 0 <= j < rv.len() {
                    } else {
                    }
                }
                if j < k {
                    assert(mj == 0);
                    assert(nj == rj);
                    lemma_add_mod_noop(mo, mj, field_q());
                    lemma_small_mod(mo as nat, field_q() as nat);
                    assert(coef(pmul(qv_new, bv), j) == (mo + 0) % field_q());
                    assert((mo + 0) % field_q() == mo);
                } else if j < rlen - 1 {
                    assert(mj == (bv[j - k] * lead.val()) % field_q());
                    assert(nj == (rj - mj) % field_q());
                    assert(coef(pmul(qv_new, bv), j) == (mo + mj) % field_q());
                    lemma_add_mod_noop(mo + mj, rj - mj, field_q());
                    lemma_mod_twice(mo + mj, field_q());
                    lemma_mod_twice(rj - mj, field_q());
                    assert(((mo + mj) % field_q() + (rj - mj) % field_q()) % field_q() == (mo + mj
                        + rj - mj) % field_q());
                    assert((mo + mj + rj - mj) == mo + rj);
                } else if j == rlen - 1 {
                    assert(mj == (bv[blen - 1] * lead.val()) % field_q());
                    assert(mj == rj);
                    assert(nj == 0);
                    assert(coef(pmul(qv_new, bv), j) == (mo + mj) % field_q());
                    lemma_add_mod_noop_right((mo + mj) % field_q(), 0, field_q());
                    lemma_mod_twice(mo + mj, field_q());
                    assert(((mo + mj) % field_q() + 0) % field_q() == (mo + mj) % field_q());
                } else {
                    assert(mj == 0) by {
                        if j < m.len() {
                            assert(coef(pscale(bv, lead.val()), j - k) == 0);
                        }
                    }
                    assert(nj == 0);
                    assert(rj == 0);
                }
            }
            // the zero prefix shrinks with the remainder
            assert forall|j: int| 0 <= j <= nr@.len() - blen implies svals(q@)[j] == 0 by {
                assert(j < k);
                assert(svals(q@)[j] == qv_old[j]);
            }
        }
        rem = nr;
    }
    proof {
        lemma_all_wf_reduced(q@);
        lemma_all_wf_reduced(rem@);
        lemma_ptrim_canonical(svals(q@));
        lemma_ptrim_canonical(svals(rem@));
    }
    let ghost qv_final = svals(q@);
    let ghost rv_final = svals(rem@);
    let qp = Poly { coeffs: trim_vec(q) };
    let rp = Poly { coeffs: trim_vec(rem) };
    proof {
        assert forall|j: int|
            0 <= j implies coef(padd(pmul(qp.vals(), bv), rp.vals()), j) == coef(av, j) by {
            lemma_pmul_coef_ext(qp.vals(), qv_final, bv, j);
            lemma_padd_coef(pmul(qp.vals(), bv), rp.vals(), j);
            lemma_padd_coef(pmul(qv_final, bv), rv_final, j);
        }
        assert(rp.vals().len() <= rv_final.len());
    }
    (qp, rp)
}

/// `(bl * ((r * ibl) % q)) % q == r` when `ibl` inverts `bl`.
proof fn lemma_cancel_inv(r: int, bl: int, ibl: int)
    requires
        0 <= r < field_q(),
        (ibl * bl) % field_q() == 1,
    ensures
        (bl * ((r * ibl) % field_q())) % field_q() == r,
{
    let q = field_q();
    lemma_mul_mod_noop_right(bl, r * ibl, q);
    assert(bl * (r * ibl) == r * (ibl * bl)) by (nonlinear_arith);
    lemma_mul_mod_noop_right(r, ibl * bl, q);
    assert((r * ((ibl * bl) % q)) % q == (r * (ibl * bl)) % q);
    assert(r * 1 == r) by (nonlinear_arith);
    lemma_small_mod(r as nat, q as nat);
}

proof fn lemma_div_identity_base(qv: Seq<int>, bv: Seq<int>, av: Seq<int>)
    requires
        reduced(av),
        forall|j: int| 0 <= j < qv.len() ==> qv[j] == 0,
        qv.len() >= 1 ==> bv.len() >= 1,
    ensures
        forall|j: int| 0 <= j ==> coef(padd(pmul(qv, bv), av), j) == coef(av, j),
{
    assert forall|j: int| 0 <= j implies coef(padd(pmul(qv, bv), av), j) == coef(av, j) by {
        lemma_padd_coef(pmul(qv, bv), av, j);
        crate::algebra::lemma_pmul_zero_left(qv, bv, j);
        if 0 <= j < av.len() {
            lemma_small_mod(av[j] as nat, field_q() as nat);
        } else {
            lemma_small_mod(0, field_q() as nat);
        }
    }
}

/// Copies a coefficient vector.
pub(crate) fn copy_scalars(v: &Vec<Scalar>) -> (r: Vec<Scalar>)
    ensures
        r@ == v@,
{
    let mut out: Vec<Scalar> = Vec::new();
    let mut i: usize = 0;
    while i < v.len()
        invariant
            i <= v@.len(),
            out@.len() == i,
            forall|j: int| 0 <= j < i ==> out@[j] == v@[j],
        decreases v@.len() - i,
    {
        out.push(v[i]);
        i += 1;
    }
    proof {
        assert(out@ =~= v@);
    }
    out
}

/// Copies and trims a coefficient vector.
fn trim_vec_copy(v: &Vec<Scalar>) -> (r: Vec<Scalar>)
    requires
        all_wf(v@),
    ensures
        svals(r@) == ptrim(svals(v@)),
        all_wf(r@),
{
    let c = copy_scalars(v);
    trim_vec(c)
}

/// Composition `f(g(x))`, by Horner's rule on the coefficients of `f`.
/// The result evaluates at every point `x` to `f` evaluated at `g(x)`,
/// and its degree is at most the product of the degrees.
pub fn compose_polynomials(f: &Poly, g: &Poly) -> (r: Poly)
    requires
        f.wf(),
        g.wf(),
    ensures
        r.wf(),
        forall|x: int|
            peval(r.vals(), x) == peval(f.vals(), peval(#[trigger] g.vals(), x)),
        f.vals().len() == 0 ==> r.vals().len() == 0,
        f.vals().len() >= 1 && g.vals().len() >= 1 ==> r.vals().len() <= (f.vals().len() - 1) * (
        g.vals().len() - 1) + 1,
        g.vals().len() == 0 ==> r.vals().len() <= 1,
{
    proof {
        poly_all_wf(f);
        poly_all_wf(g);
    }
    let mut acc = Poly::zero();
    let mut i: usize = f.coeffs.len();
    proof {
        assert(f.vals().skip(i as int) =~= Seq::<int>::empty());
        assert(acc.vals().len() == 0);
    }
    while i > 0
        invariant
            i <= f.vals().len(),
            f.wf(),
            g.wf(),
            acc.wf(),
            all_wf(f.coeffs@),
            forall|x: int|
                peval(acc.vals(), x) == peval(
                    f.vals().skip(i as int),
                    peval(#[trigger] g.vals(), x),
                ),
            g.vals().len() == 0 ==> acc.vals().len() <= 1,
            f.vals().len() == 0 ==> acc.vals().len() == 0,
            g.vals().len() >= 1 ==> acc.vals().len() <= if i == f.vals().len() {
                0int
            } else {
                (f.vals().len() - i - 1) * (g.vals().len() - 1) + 1
            },
        decreases i,
    {
        i = i - 1;
        let ghost old_acc = acc;
        let c = f.coeffs[i];
        let mut cvec: Vec<Scalar> = Vec::new();
        cvec.push(c);
        let cpoly = Poly::from_coeffs(cvec);
        let prod = poly_mul(g, &acc);
        let next = poly_add(&cpoly, &prod);
        proof {
            let q = field_q();
            let fv = f.vals();
            let gv = g.vals();
            assert(c.val() == fv[i as int]);
            assert(svals(cvec@) =~= seq![fv[i as int]]);
            assert forall|x: int|
                peval(next.vals(), x) == peval(fv.skip(i as int), #[trigger] peval(gv, x)) by {
                let y = peval(gv, x);
                lemma_peval_bound(gv, x);
                lemma_peval_bound(old_acc.vals(), x);
                lemma_peval_ptrim(pmul(gv, old_acc.vals()), x);
                lemma_peval_pmul(gv, old_acc.vals(), x);
                lemma_peval_ptrim(padd(cpoly.vals(), prod.vals()), x);
                crate::algebra::lemma_ptrim_canonical(pmul(gv, old_acc.vals()));
                lemma_peval_padd(cpoly.vals(), prod.vals(), x);
                // the singleton evaluates to its coefficient
                lemma_peval_ptrim(seq![fv[i as int]], x);
                assert(seq![fv[i as int]].skip(1).len() == 0);
                assert(peval(seq![fv[i as int]].skip(1), x) == 0);
                assert(x * 0 == 0) by (nonlinear_arith);
                lemma_small_mod(fv[i as int] as nat, q as nat);
                assert(peval(seq![fv[i as int]], x) == fv[i as int]);
                assert(peval(cpoly.vals(), x) == fv[i as int]);
                // assemble the Horner step
                let e = peval(old_acc.vals(), x);
                assert(peval(prod.vals(), x) == (peval(gv, x) * e) % q);
                assert(peval(next.vals(), x) == (fv[i as int] + (y * e) % q) % q);
                lemma_add_mod_noop_right(fv[i as int], y * e, q);
                lemma_mod_twice(y * e, q);
                assert(peval(next.vals(), x) == (fv[i as int] + y * e) % q);
                let s = fv.skip(i as int);
                assert(s.len() > 0);
                assert(s[0] == fv[i as int]);
                assert(s.skip(1) =~= fv.skip(i as int + 1));
                assert(e == peval(s.skip(1), y));
            }
            // the length can grow by at most deg(g) per Horner step
            let la = old_acc.vals().len();
            let lg = gv.len();
            crate::algebra::lemma_ptrim_canonical(pmul(gv, old_acc.vals()));
            crate::algebra::lemma_ptrim_canonical(padd(cpoly.vals(), prod.vals()));
            lemma_ptrim_canonical(seq![fv[i as int]]);
            if lg == 0 || la == 0 {
                assert(pmul(gv, old_acc.vals()).len() == 0);
                assert(next.vals().len() <= 1);
            } else {
                crate::algebra::lemma_pmul_len(gv, old_acc.vals());
                assert(prod.vals().len() <= lg + la - 1);
                assert(next.vals().len() <= lg + la - 1);
                assert(la <= (fv.len() - i - 2) * (lg - 1) + 1);
                assert(lg + ((fv.len() - i - 2) * (lg - 1) + 1) - 1 == (fv.len() - i - 1) * (lg
                    - 1) + 1) by (nonlinear_arith);
            }
            if lg >= 1 {
                assert((fv.len() - i - 1) * (lg - 1) >= 0) by (nonlinear_arith)
                    requires
                        fv.len() - i >= 1,
                        lg >= 1,
                ;
            }
        }
        acc = next;
    }
    proof {
        assert(f.vals().skip(0) =~= f.vals());
    }
    acc
}

/// The polynomial raised to a power, by repeated multiplication.  The
/// result evaluates at every point to the power of the base's evaluation.
pub fn pow(base: &Poly, exp: u64) -> (r: Poly)
    requires
        base.wf(),
    ensures
        r.wf(),
        forall|x: int|
            peval(r.vals(), x) == crate::field::pow_mod(peval(#[trigger] base.vals(), x), exp as nat),
{
    let mut acc_vec: Vec<Scalar> = Vec::new();
    acc_vec.push(Scalar::one());
    let acc0 = Poly { coeffs: acc_vec };
    proof {
        assert(acc0.vals() =~= seq![1int]);
    }
    let mut acc = acc0;
    let mut i: u64 = 0;
    proof {
        assert forall|x: int|
            peval(acc.vals(), x) == crate::field::pow_mod(peval(#[trigger] base.vals(), x), 0) by {
            assert(acc.vals().skip(1).len() == 0);
            assert(peval(acc.vals().skip(1), x) == 0);
            assert(x * 0 == 0) by (nonlinear_arith);
            lemma_small_mod(1, field_q() as nat);
            vstd::arithmetic::power::lemma_pow0(peval(base.vals(), x));
        }
    }
    while i < exp
        invariant
            i <= exp,
            base.wf(),
            acc.wf(),
            forall|x: int|
                peval(acc.vals(), x) == crate::field::pow_mod(
                    peval(#[trigger] base.vals(), x),
                    i as nat,
                ),
        decreases exp - i,
    {
        let ghost old_acc = acc;
        let next = poly_mul(&acc, base);
        proof {
            let q = field_q();
            assert forall|x: int|
                peval(next.vals(), x) == crate::field::pow_mod(
                    peval(#[trigger] base.vals(), x),
                    (i + 1) as nat,
                ) by {
                poly_all_wf(base);
                lemma_peval_ptrim(pmul(old_acc.vals(), base.vals()), x);
                lemma_peval_pmul(old_acc.vals(), base.vals(), x);
                let eb = peval(base.vals(), x);
                let p = vstd::arithmetic::power::pow(eb, i as nat);
                assert(peval(next.vals(), x) == ((p % q) * eb) % q);
                vstd::arithmetic::div_mod::lemma_mul_mod_noop_left(p, eb, q);
                assert(vstd::arithmetic::power::pow(eb, (i + 1) as nat) == eb * p) by {
                    reveal(vstd::arithmetic::power::pow);
                }
                assert(p * eb == eb * p) by (nonlinear_arith);
            }
        }
        acc = next;
        i += 1;
    }
    acc
}

/// A polynomial with uniformly drawn coefficients and the requested degree.
pub fn random_polynomial(degree: usize) -> (r: Poly)
    requires
        degree < usize::MAX,
    ensures
        r.wf(),
        r.vals().len() == degree + 1,
{
    let mut coeffs: Vec<Scalar> = Vec::new();
    let mut i: usize = 0;
    while i < degree
        invariant
            i <= degree,
            coeffs@.len() == i,
            all_wf(coeffs@),
        decreases degree - i,
    {
        coeffs.push(scalar_rand());
        i += 1;
    }
    let top = scalar_rand();
    let top = if scalar_eq(&top, &Scalar::zero()) {
        Scalar::one()
    } else {
        top
    };
    coeffs.push(top);
    let r = Poly { coeffs };
    proof {
        assert(r.vals().len() == degree + 1);
        assert(r.vals()[degree as int] != 0);
        assert(canonical(r.vals())) by {
            lemma_all_wf_reduced(r.coeffs@);
        }
    }
    r
}

} // verus!
