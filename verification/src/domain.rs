//! Evaluation domains: multiplicative subgroups and vanishing polynomials.
//!
//! A subgroup of order `k` exists whenever `k` divides the order of the
//! field's multiplicative group; its generator is obtained by raising the
//! field generator to the power `(field_q() - 1) / k`.  The vanishing
//! polynomial of the subgroup is `x^k - 1`; the vanishing polynomial of an
//! arbitrary root set is the product of the monic linear factors.

#[allow(non_snake_case)]
use vstd::prelude::*;
use vstd::arithmetic::div_mod::{
    lemma_add_mod_noop_right, lemma_fundamental_div_mod_converse_div,
    lemma_fundamental_div_mod_converse_mod, lemma_mod_add_multiples_vanish, lemma_mod_twice,
    lemma_mul_mod_noop_left, lemma_small_mod, lemma_sub_mod_noop,
};
use vstd::arithmetic::power::{lemma1_pow, lemma_pow0, lemma_pow_mod_noop, lemma_pow_multiplies, pow};
use crate::algebra::{
    lemma_horner_mod, lemma_peval_pmul, lemma_pmul_last, lemma_pmul_len, peval, ptrim, reduced,
};
use crate::field::{
    divmod_wide, field_generator, field_q, pow_mod, scalar_mul, scalar_neg, scalar_pow_limbs,
    Scalar,
};
use crate::poly::{all_wf, lemma_all_wf_reduced, mul_raw, svals, Poly};

verus! {

/// The canonical generator of the multiplicative subgroup of order `k`:
/// the field generator raised to `(field_q() - 1) / k`.
pub open spec fn omega_of(k: nat) -> int {
    pow_mod(field_generator(), ((field_q() - 1) / (k as int)) as nat)
}

/// The coefficients of `x^k - 1`.
pub open spec fn vanishing_spec(k: nat) -> Seq<int> {
    Seq::new(
        k + 1,
        |i: int|
            if i == k {
                1
            } else if i == 0 {
                field_q() - 1
            } else {
                0
            },
    )
}

/// The coefficients of `x^m`.
pub open spec fn monomial_spec(m: nat) -> Seq<int> {
    Seq::new(m + 1, |i: int| if i == m { 1int } else { 0int })
}

proof fn lemma_peval_monomial(m: nat, x: int)
    ensures
        peval(monomial_spec(m), x) == pow(x, m) % field_q(),
    decreases m,
{
    let q = field_q();
    if m == 0 {
        assert(monomial_spec(0).skip(1).len() == 0);
        assert(peval(monomial_spec(0).skip(1), x) == 0);
        assert(x * 0 == 0) by (nonlinear_arith);
        lemma_pow0(x);
        lemma_small_mod(1, q as nat);
        assert(peval(monomial_spec(0), x) == (1int + 0int) % q);
    } else {
        lemma_peval_monomial((m - 1) as nat, x);
        assert(monomial_spec(m).skip(1) =~= monomial_spec((m - 1) as nat));
        assert(peval(monomial_spec(m), x) == (0 + x * (pow(x, (m - 1) as nat) % q)) % q);
        lemma_horner_mod(0, x, pow(x, (m - 1) as nat));
        assert(pow(x, m) == x * pow(x, (m - 1) as nat)) by {
            reveal(vstd::arithmetic::power::pow);
        }
    }
}

/// The vanishing polynomial of the subgroup of order `k` evaluates to
/// `x^k - 1`.
pub proof fn lemma_peval_vanishing(k: nat, x: int)
    requires
        k >= 1,
    ensures
        peval(vanishing_spec(k), x) == (pow(x, k) - 1) % field_q(),
{
    let q = field_q();
    assert(vanishing_spec(k).skip(1) =~= monomial_spec((k - 1) as nat));
    lemma_peval_monomial((k - 1) as nat, x);
    assert(peval(vanishing_spec(k), x) == ((q - 1) + x * (pow(x, (k - 1) as nat) % q)) % q);
    lemma_horner_mod(q - 1, x, pow(x, (k - 1) as nat));
    assert(pow(x, k) == x * pow(x, (k - 1) as nat)) by {
        reveal(vstd::arithmetic::power::pow);
    }
    assert(((q - 1) + pow(x, k)) % q == (q + (pow(x, k) - 1)) % q);
    lemma_mod_add_multiples_vanish(pow(x, k) - 1, q);
}

/// Every power of an element of multiplicative order dividing `k` is a root
/// of `x^k - 1`: the subgroup half of the vanishing-polynomial root
/// property.
pub proof fn lemma_subgroup_vanishing(w: int, k: nat, i: nat)
    requires
        k >= 1,
        pow_mod(w, k) == 1,
    ensures
        peval(vanishing_spec(k), pow_mod(w, i)) == 0,
{
    let q = field_q();
    let y = pow_mod(w, i);
    lemma_peval_vanishing(k, y);
    // pow(y, k) % q == 1
    lemma_pow_mod_noop(pow(w, i), k, q);
    lemma_pow_multiplies(w, i, k);
    lemma_pow_multiplies(w, k, i);
    assert(i * k == k * i) by (nonlinear_arith);
    assert(pow(pow(w, i), k) == pow(pow(w, k), i));
    lemma_pow_mod_noop(pow(w, k), i, q);
    lemma1_pow(i);
    lemma_small_mod(1, q as nat);
    assert(pow(y, k) % q == 1);
    // hence pow(y, k) - 1 vanishes modulo q
    lemma_sub_mod_noop(pow(y, k), 1, q);
    lemma_small_mod(1, q as nat);
    lemma_small_mod(0, q as nat);
    assert((pow(y, k) - 1) % q == (pow(y, k) % q - 1int % q) % q);
}

/// Failure of the subgroup construction.
#[derive(Debug, Clone, PartialEq, Eq, Structural)]
pub enum DomainError {
    /// The computed generator did not have order dividing `k`.
    NotClosed,
}

/// Constructs the multiplicative subgroup of order `k`, in generator order:
/// element `i` is the `i`-th power of the subgroup generator.  The order
/// must divide the order of the field's multiplicative group.  The
/// generator's order is checked on the way: on success the subgroup is
/// closed (`omega^k = 1`) and every element is a root of `x^k - 1`.
#[allow(non_snake_case)]
pub fn construct_Omega(k: usize) -> (res: Result<Vec<Scalar>, DomainError>)
    requires
        k >= 1,
        (field_q() - 1) % (k as int) == 0,
    ensures
        match res {
            Ok(r) => {
                &&& r@.len() == k
                &&& all_wf(r@)
                &&& forall|i: int|
                    0 <= i < k ==> (#[trigger] svals(r@)[i]) == pow_mod(
                        omega_of(k as nat),
                        i as nat,
                    )
                &&& pow_mod(omega_of(k as nat), k as nat) == 1
                &&& forall|i: int|
                    0 <= i < k ==> peval(vanishing_spec(k as nat), #[trigger] svals(r@)[i]) == 0
            },
            Err(e) => {
                &&& e == DomainError::NotClosed
                &&& pow_mod(omega_of(k as nat), k as nat) != 1
            },
        },
{
    let ghost q = field_q();
    // the limbs of field_q() - 1
    let n0: u64 = 0xFFFFFFFF00000000u64;
    let n1: u64 = 0x53BDA402FFFE5BFEu64;
    let n2: u64 = 0x3339D80809A1D805u64;
    let n3: u64 = 0x73EDA753299D7D48u64;
    proof {
        assert(n0 + n1 * 0x10000000000000000int + n2 * 0x100000000000000000000000000000000int + n3
            * 0x1000000000000000000000000000000000000000000000000int == q - 1);
    }
    let (e0, e1, e2, e3, rem) = divmod_wide(n0, n1, n2, n3, k as u64);
    let ghost eval_limbs = e0 + e1 * 0x10000000000000000int + e2
        * 0x100000000000000000000000000000000int + e3
        * 0x1000000000000000000000000000000000000000000000000int;
    proof {
        lemma_fundamental_div_mod_converse_mod(q - 1, k as int, eval_limbs, rem as int);
        lemma_fundamental_div_mod_converse_div(q - 1, k as int, eval_limbs, rem as int);
        assert(rem == 0);
        assert(eval_limbs == (q - 1) / (k as int));
    }
    let gen = Scalar::from_u64(7);
    let omega = scalar_pow_limbs(&gen, e0, e1, e2, e3);
    proof {
        assert(omega.val() == omega_of(k as nat));
    }
    let mut out: Vec<Scalar> = Vec::new();
    let mut acc = Scalar::one();
    proof {
        lemma_pow0(omega.val());
        lemma_small_mod(1, q as nat);
    }
    let mut i: usize = 0;
    while i < k
        invariant
            i <= k,
            omega.wf(),
            acc.wf(),
            omega.val() == omega_of(k as nat),
            acc.val() == pow_mod(omega.val(), i as nat),
            out@.len() == i,
            all_wf(out@),
            forall|j: int| 0 <= j < i ==> svals(out@)[j] == pow_mod(omega.val(), j as nat),
        decreases k - i,
    {
        let ghost prev = out@;
        out.push(acc);
        let next = scalar_mul(&acc, &omega);
        proof {
            assert(svals(out@)[i as int] == acc.val());
            assert forall|j: int| 0 <= j < i implies svals(out@)[j] == pow_mod(
                omega.val(),
                j as nat,
            ) by {
                assert(out@[j] == prev[j]);
                assert(svals(prev)[j] == pow_mod(omega.val(), j as nat));
            }
            let b = omega.val();
            let p = pow(b, i as nat);
            lemma_mul_mod_noop_left(p, b, field_q());
            assert(pow(b, (i + 1) as nat) == b * p) by {
                reveal(vstd::arithmetic::power::pow);
            }
            assert(p * b == b * p) by (nonlinear_arith);
        }
        acc = next;
        i += 1;
    }
    // the accumulator now holds omega^k: the subgroup is closed exactly
    // when it is one
    if !crate::field::scalar_eq(&acc, &Scalar::one()) {
        return Err(DomainError::NotClosed);
    }
    proof {
        assert(pow_mod(omega.val(), k as nat) == 1);
        assert forall|i: int|
            0 <= i < k implies peval(vanishing_spec(k as nat), #[trigger] svals(out@)[i])
            == 0 by {
            lemma_subgroup_vanishing(omega.val(), k as nat, i as nat);
        }
    }
    Ok(out)
}

/// Constructs the vanishing polynomial `x^k - 1` of the subgroup of order
/// `k`.
pub fn construct_vanishing_polynomial(k: usize) -> (r: Poly)
    requires
        1 <= k < usize::MAX,
    ensures
        r.wf(),
        r.vals() == vanishing_spec(k as nat),
{
    let mut v: Vec<Scalar> = Vec::new();
    let neg_one = scalar_neg(&Scalar::one());
    v.push(neg_one);
    let mut i: usize = 1;
    while i < k
        invariant
            1 <= i <= k,
            v@.len() == i,
            all_wf(v@),
            svals(v@)[0] == field_q() - 1,
            forall|j: int| 1 <= j < i ==> svals(v@)[j] == 0,
        decreases k - i,
    {
        let ghost prev = v@;
        v.push(Scalar::zero());
        proof {
            assert(svals(v@)[i as int] == 0);
            assert(svals(v@)[0] == svals(prev)[0]);
            assert forall|j: int| 1 <= j < i + 1 implies svals(v@)[j] == 0 by {
                if j < i {
                    assert(v@[j] == prev[j]);
                    assert(svals(prev)[j] == 0);
                }
            }
        }
        i += 1;
    }
    let ghost prev2 = v@;
    v.push(Scalar::one());
    let ghost vv = svals(v@);
    proof {
        assert(vv[k as int] == 1);
        assert(vv[0] == svals(prev2)[0]);
        assert forall|j: int| 1 <= j < k implies vv[j] == 0 by {
            assert(v@[j] == prev2[j]);
            assert(svals(prev2)[j] == 0);
        }
        assert(vv =~= vanishing_spec(k as nat));
        assert(vv[vv.len() - 1] == 1);
        assert(ptrim(vv) == vv);
    }
    Poly::from_coeffs(v)
}

/// The product of the monic linear factors `x - root`, taken left to
/// right.
pub open spec fn roots_poly(roots: Seq<int>) -> Seq<int>
    decreases roots.len(),
{
    if roots.len() == 0 {
        seq![1int]
    } else {
        crate::algebra::pmul(
            roots_poly(roots.drop_last()),
            seq![(0 - roots.last()) % field_q(), 1int],
        )
    }
}

/// Constructs the monic vanishing polynomial with exactly the given roots:
/// the product of the linear factors `x - root`.  Every listed root is a
/// root of the result.
pub fn construct_vanishing_polynomial_from_roots(roots: &Vec<Scalar>) -> (r: Poly)
    requires
        all_wf(roots@),
    ensures
        r.wf(),
        r.vals().len() == roots@.len() + 1,
        r.vals()[roots@.len() as int] == 1,
        r.vals() == roots_poly(svals(roots@)),
        forall|i: int|
            0 <= i < roots@.len() ==> peval(r.vals(), svals(roots@)[i]) == 0,
{
    let ghost rv = svals(roots@);
    proof {
        lemma_all_wf_reduced(roots@);
    }
    let n = roots.len();
    let mut prod: Vec<Scalar> = Vec::new();
    prod.push(Scalar::one());
    proof {
        assert(svals(prod@) =~= seq![1int]);
        assert(rv.take(0) =~= Seq::<int>::empty());
    }
    let mut j: usize = 0;
    while j < n
        invariant
            j <= n,
            n == roots@.len(),
            rv == svals(roots@),
            all_wf(roots@),
            reduced(rv),
            all_wf(prod@),
            prod@.len() == j + 1,
            svals(prod@)[j as int] == 1,
            svals(prod@) == roots_poly(rv.take(j as int)),
            forall|m: int| 0 <= m < j ==> peval(svals(prod@), #[trigger] rv[m]) == 0,
        decreases n - j,
    {
        let neg = scalar_neg(&roots[j]);
        let mut lin: Vec<Scalar> = Vec::new();
        lin.push(neg);
        lin.push(Scalar::one());
        let ghost linv = svals(lin@);
        let ghost pv = svals(prod@);
        proof {
            assert(linv.len() == 2);
            assert(linv[0] == (0 - rv[j as int]) % field_q());
            assert(linv[1] == 1);
            assert(all_wf(lin@));
            lemma_all_wf_reduced(lin@);
            lemma_all_wf_reduced(prod@);
        }
        let new_prod = mul_raw(&prod, &lin);
        proof {
            lemma_pmul_len(pv, linv);
            lemma_pmul_last(pv, linv);
            lemma_small_mod(1, field_q() as nat);
            assert(svals(new_prod@)[new_prod@.len() - 1] == (1int * 1int) % field_q());
            assert forall|m: int| 0 <= m < j + 1 implies peval(svals(new_prod@), #[trigger] rv[m])
                == 0 by {
                lemma_peval_pmul(pv, linv, rv[m]);
                crate::interpolate::lemma_peval_linear(linv, rv[j as int], rv[m]);
                if m < j {
                    assert(peval(pv, rv[m]) == 0);
                    assert(0int * ((rv[m] - rv[j as int]) % field_q()) == 0) by (nonlinear_arith);
                    lemma_small_mod(0, field_q() as nat);
                } else {
                    assert((rv[m] - rv[j as int]) % field_q() == 0) by {
                        assert(rv[m] - rv[j as int] == 0);
                        lemma_small_mod(0, field_q() as nat);
                    }
                    assert(peval(pv, rv[m]) * 0 == 0) by (nonlinear_arith);
                    lemma_small_mod(0, field_q() as nat);
                }
            }
        }
        proof {
            let t1 = rv.take(j as int + 1);
            assert(t1.drop_last() =~= rv.take(j as int));
            assert(t1.last() == rv[j as int]);
            assert(svals(new_prod@) == roots_poly(t1)) by {
                assert(linv =~= seq![(0 - rv[j as int]) % field_q(), 1int]);
            }
        }
        prod = new_prod;
        j += 1;
    }
    proof {
        assert(rv.take(n as int) =~= rv);
    }
    let ghost fv = svals(prod@);
    proof {
        assert(fv[fv.len() - 1] == 1);
        assert(ptrim(fv) == fv);
    }
    let r = Poly::from_coeffs(prod);
    r
}

} // verus!
