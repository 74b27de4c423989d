//! The mathematical model of dense polynomials over the scalar field.
//!
//! A polynomial is modelled as the sequence of its coefficients, each a
//! canonical representative in `[0, field_q())`; coefficient `i` multiplies
//! `x^i`.  The operations here are specification-level only; the executable
//! counterparts in the polynomial modules are proved against them.

use vstd::prelude::*;
use vstd::arithmetic::div_mod::{
    lemma_add_mod_noop, lemma_add_mod_noop_right, lemma_mod_bound, lemma_mod_twice,
    lemma_mul_mod_noop_general, lemma_mul_mod_noop_right, lemma_small_mod, lemma_sub_mod_noop,
};
use vstd::arithmetic::mul::{
    lemma_mul_is_associative, lemma_mul_is_commutative, lemma_mul_is_distributive_add,
    lemma_mul_is_distributive_sub,
};
use crate::field::field_q;

verus! {

/// Every coefficient is a canonical field representative.
pub open spec fn reduced(s: Seq<int>) -> bool {
    forall|i: int| 0 <= i < s.len() ==> 0 <= #[trigger] s[i] < field_q()
}

/// Canonical form: reduced, with no trailing zero coefficient.
pub open spec fn canonical(s: Seq<int>) -> bool {
    reduced(s) && (s.len() == 0 || s[s.len() - 1] != 0)
}

/// The coefficient of `x^j`, zero beyond the stored length.
pub open spec fn coef(s: Seq<int>, j: int) -> int {
    if 0 <= j < s.len() {
        s[j]
    } else {
        0
    }
}

/// Pointwise sum of two coefficient sequences.
pub open spec fn padd(a: Seq<int>, b: Seq<int>) -> Seq<int> {
    Seq::new(
        if a.len() >= b.len() {
            a.len()
        } else {
            b.len()
        },
        |j: int| (coef(a, j) + coef(b, j)) % field_q(),
    )
}

/// Pointwise difference of two coefficient sequences.
pub open spec fn psub(a: Seq<int>, b: Seq<int>) -> Seq<int> {
    Seq::new(
        if a.len() >= b.len() {
            a.len()
        } else {
            b.len()
        },
        |j: int| (coef(a, j) - coef(b, j)) % field_q(),
    )
}

/// All coefficients multiplied by a constant.
pub open spec fn pscale(a: Seq<int>, c: int) -> Seq<int> {
    Seq::new(a.len(), |j: int| (a[j] * c) % field_q())
}

/// Multiplication by `x`: coefficients move up one degree.
pub open spec fn pshift(a: Seq<int>) -> Seq<int> {
    Seq::new(a.len() + 1, |j: int| if j == 0 { 0 } else { a[j - 1] })
}

/// Multiplication by `x^n`.
pub open spec fn pshiftn(a: Seq<int>, n: nat) -> Seq<int>
    decreases n,
{
    if n == 0 {
        a
    } else {
        pshift(pshiftn(a, (n - 1) as nat))
    }
}

/// Product of two coefficient sequences, defined by peeling the low
/// coefficient of the left factor: `a * b = a[0]*b + x*(tail(a)*b)`.
pub open spec fn pmul(a: Seq<int>, b: Seq<int>) -> Seq<int>
    decreases a.len(),
{
    if a.len() == 0 || b.len() == 0 {
        Seq::empty()
    } else if a.len() == 1 {
        pscale(b, a[0])
    } else {
        padd(pscale(b, a[0]), pshift(pmul(a.skip(1), b)))
    }
}

/// Evaluation at a point, by Horner's rule, reduced into the field.
pub open spec fn peval(s: Seq<int>, x: int) -> int
    decreases s.len(),
{
    if s.len() == 0 {
        0
    } else {
        (s[0] + x * peval(s.skip(1), x)) % field_q()
    }
}

/// Trailing zero coefficients removed.
pub open spec fn ptrim(s: Seq<int>) -> Seq<int>
    decreases s.len(),
{
    if s.len() == 0 {
        s
    } else if s[s.len() - 1] == 0 {
        ptrim(s.drop_last())
    } else {
        s
    }
}

pub proof fn lemma_peval_bound(s: Seq<int>, x: int)
    ensures
        0 <= peval(s, x) < field_q(),
    decreases s.len(),
{
    if s.len() == 0 {
    } else {
        lemma_mod_bound(s[0] + x * peval(s.skip(1), x), field_q());
    }
}

/// `(c + x * (e % q)) % q == (c + x * e) % q`.
pub proof fn lemma_horner_mod(c: int, x: int, e: int)
    ensures
        (c + x * (e % field_q())) % field_q() == (c + x * e) % field_q(),
{
    let q = field_q();
    lemma_mul_mod_noop_right(x, e, q);
    lemma_add_mod_noop_right(c, x * (e % q), q);
    lemma_add_mod_noop_right(c, x * e, q);
}

/// `((a % q) + (b % q)) % q == (a + b) % q`.
pub proof fn lemma_add_mod_both(a: int, b: int)
    ensures
        ((a % field_q()) + (b % field_q())) % field_q() == (a + b) % field_q(),
{
    lemma_add_mod_noop(a, b, field_q());
}

pub proof fn lemma_padd_coef(a: Seq<int>, b: Seq<int>, j: int)
    requires
        j >= 0,
    ensures
        coef(padd(a, b), j) == (coef(a, j) + coef(b, j)) % field_q(),
{
    if j >= padd(a, b).len() {
        assert(coef(a, j) == 0 && coef(b, j) == 0);
    }
}

pub proof fn lemma_psub_coef(a: Seq<int>, b: Seq<int>, j: int)
    requires
        j >= 0,
    ensures
        coef(psub(a, b), j) == (coef(a, j) - coef(b, j)) % field_q(),
{
    if j >= psub(a, b).len() {
        assert(coef(a, j) == 0 && coef(b, j) == 0);
    }
}

pub proof fn lemma_pshiftn_coef(a: Seq<int>, n: nat, j: int)
    requires
        j >= 0,
    ensures
        pshiftn(a, n).len() == a.len() + n,
        coef(pshiftn(a, n), j) == if j < n {
            0
        } else {
            coef(a, j - n)
        },
    decreases n,
{
    if n > 0 {
        lemma_pshiftn_coef(a, (n - 1) as nat, if j > 0 { j - 1 } else { 0 });
    }
}

pub proof fn lemma_pmul_len(a: Seq<int>, b: Seq<int>)
    requires
        a.len() > 0,
        b.len() > 0,
    ensures
        pmul(a, b).len() == a.len() + b.len() - 1,
    decreases a.len(),
{
    if a.len() > 1 {
        lemma_pmul_len(a.skip(1), b);
    }
}

pub proof fn lemma_pmul_reduced(a: Seq<int>, b: Seq<int>)
    ensures
        reduced(pmul(a, b)),
    decreases a.len(),
{
    if a.len() == 0 || b.len() == 0 {
    } else if a.len() == 1 {
        assert forall|i: int| 0 <= i < pmul(a, b).len() implies 0 <= #[trigger] pmul(a, b)[i]
            < field_q() by {
            lemma_mod_bound(b[i] * a[0], field_q());
        }
    } else {
        assert forall|i: int| 0 <= i < pmul(a, b).len() implies 0 <= #[trigger] pmul(a, b)[i]
            < field_q() by {
            lemma_mod_bound(
                coef(pscale(b, a[0]), i) + coef(pshift(pmul(a.skip(1), b)), i),
                field_q(),
            );
        }
    }
}

pub proof fn lemma_peval_padd(a: Seq<int>, b: Seq<int>, x: int)
    requires
        reduced(a),
        reduced(b),
    ensures
        peval(padd(a, b), x) == (peval(a, x) + peval(b, x)) % field_q(),
    decreases a.len() + b.len(),
{
    let q = field_q();
    if a.len() == 0 && b.len() == 0 {
    } else if a.len() == 0 {
        assert(padd(a, b) =~= b) by {
            assert forall|j: int| 0 <= j < b.len() implies padd(a, b)[j] == b[j] by {
                lemma_small_mod(b[j] as nat, q as nat);
            }
        }
        lemma_peval_bound(b, x);
        lemma_small_mod(peval(b, x) as nat, q as nat);
    } else if b.len() == 0 {
        assert(padd(a, b) =~= a) by {
            assert forall|j: int| 0 <= j < a.len() implies padd(a, b)[j] == a[j] by {
                lemma_small_mod(a[j] as nat, q as nat);
            }
        }
        lemma_peval_bound(a, x);
        lemma_small_mod(peval(a, x) as nat, q as nat);
    } else {
        let ta = a.skip(1);
        let tb = b.skip(1);
        assert(padd(a, b).len() > 0);
        assert(padd(a, b).skip(1) =~= padd(ta, tb));
        lemma_peval_padd(ta, tb, x);
        let ea = peval(ta, x);
        let eb = peval(tb, x);
        // peval(padd(a,b), x) unfolds to ((a0+b0)%q + x*((ea+eb)%q)) % q
        assert(peval(padd(a, b), x) == ((a[0] + b[0]) % q + x * ((ea + eb) % q)) % q);
        lemma_horner_mod((a[0] + b[0]) % q, x, ea + eb);
        lemma_add_mod_noop((a[0] + b[0]), x * (ea + eb), q);
        lemma_mod_twice(a[0] + b[0], q);
        lemma_add_mod_both((a[0] + b[0]) % q, x * (ea + eb));
        assert(((a[0] + b[0]) % q + x * (ea + eb)) % q == (a[0] + b[0] + x * (ea + eb)) % q) by {
            lemma_add_mod_noop((a[0] + b[0]) % q, x * (ea + eb), q);
            lemma_add_mod_noop(a[0] + b[0], x * (ea + eb), q);
            lemma_mod_twice(a[0] + b[0], q);
        }
        lemma_mul_is_distributive_add(x, ea, eb);
        assert((a[0] + b[0] + x * (ea + eb)) % q == (a[0] + b[0] + x * ea + x * eb) % q);
        // the two Horner heads recombine
        lemma_add_mod_both(a[0] + x * ea, b[0] + x * eb);
        assert(peval(a, x) == (a[0] + x * ea) % q);
        assert(peval(b, x) == (b[0] + x * eb) % q);
    }
}

pub proof fn lemma_peval_pscale(a: Seq<int>, c: int, x: int)
    ensures
        peval(pscale(a, c), x) == (c * peval(a, x)) % field_q(),
    decreases a.len(),
{
    let q = field_q();
    if a.len() == 0 {
        lemma_small_mod(0, q as nat);
        assert(c * 0 == 0) by (nonlinear_arith);
    } else {
        let ta = a.skip(1);
        assert(pscale(a, c).skip(1) =~= pscale(ta, c));
        lemma_peval_pscale(ta, c, x);
        let e = peval(ta, x);
        assert(peval(pscale(a, c), x) == ((a[0] * c) % q + x * ((c * e) % q)) % q);
        lemma_horner_mod((a[0] * c) % q, x, c * e);
        lemma_add_mod_noop((a[0] * c), x * (c * e), q);
        lemma_mod_twice(a[0] * c, q);
        lemma_add_mod_both(a[0] * c, x * (c * e));
        assert(((a[0] * c) % q + x * (c * e)) % q == (a[0] * c + x * (c * e)) % q);
        // rearrange to c * (a0 + x*e)
        assert(a[0] * c + x * (c * e) == c * (a[0] + x * e)) by (nonlinear_arith);
        lemma_mul_mod_noop_right(c, a[0] + x * e, q);
        assert(peval(a, x) == (a[0] + x * e) % q);
    }
}

pub proof fn lemma_peval_pshift(a: Seq<int>, x: int)
    ensures
        peval(pshift(a), x) == (x * peval(a, x)) % field_q(),
{
    assert(pshift(a).skip(1) =~= a);
    assert(peval(pshift(a), x) == (0 + x * peval(a, x)) % field_q());
}

pub proof fn lemma_peval_pshiftn(a: Seq<int>, n: nat, x: int)
    ensures
        peval(pshiftn(a, n), x) == (vstd::arithmetic::power::pow(x, n) * peval(a, x))
            % field_q(),
    decreases n,
{
    let q = field_q();
    if n == 0 {
        lemma_peval_bound(a, x);
        lemma_small_mod(peval(a, x) as nat, q as nat);
        assert(vstd::arithmetic::power::pow(x, 0) == 1) by {
            vstd::arithmetic::power::lemma_pow0(x);
        }
        assert(1 * peval(a, x) == peval(a, x)) by (nonlinear_arith);
    } else {
        lemma_peval_pshiftn(a, (n - 1) as nat, x);
        lemma_peval_pshift(pshiftn(a, (n - 1) as nat), x);
        let p1 = vstd::arithmetic::power::pow(x, (n - 1) as nat);
        let e = peval(a, x);
        // peval(pshiftn(a,n),x) == (x * ((p1 * e) % q)) % q
        lemma_mul_mod_noop_right(x, p1 * e, q);
        assert(x * (p1 * e) == (x * p1) * e) by (nonlinear_arith);
        assert(vstd::arithmetic::power::pow(x, n) == x * p1) by {
            reveal(vstd::arithmetic::power::pow);
        }
    }
}

pub proof fn lemma_peval_pmul(a: Seq<int>, b: Seq<int>, x: int)
    requires
        reduced(a),
        reduced(b),
    ensures
        peval(pmul(a, b), x) == (peval(a, x) * peval(b, x)) % field_q(),
    decreases a.len(),
{
    let q = field_q();
    if a.len() == 0 || b.len() == 0 {
        if a.len() == 0 {
            assert(peval(a, x) == 0);
            assert(0 * peval(b, x) == 0) by (nonlinear_arith);
        } else {
            assert(peval(b, x) == 0);
            assert(peval(a, x) * 0 == 0) by (nonlinear_arith);
        }
        lemma_small_mod(0, q as nat);
    } else if a.len() == 1 {
        lemma_peval_pscale(b, a[0], x);
        assert(a.skip(1).len() == 0);
        assert(peval(a.skip(1), x) == 0);
        assert(peval(a, x) == (a[0] + x * 0) % q);
        assert(x * 0 == 0) by (nonlinear_arith);
        lemma_small_mod(a[0] as nat, q as nat);
        assert(peval(a, x) == a[0]);
        lemma_mul_is_commutative(a[0], peval(b, x));
    } else {
        let ta = a.skip(1);
        assert(reduced(ta)) by {
            assert(forall|i: int| 0 <= i < ta.len() ==> ta[i] == a[i + 1]);
        }
        lemma_pmul_reduced(ta, b);
        let sc = pscale(b, a[0]);
        let sh = pshift(pmul(ta, b));
        assert(reduced(sc)) by {
            assert forall|i: int| 0 <= i < sc.len() implies 0 <= #[trigger] sc[i] < q by {
                lemma_mod_bound(b[i] * a[0], q);
            }
        }
        assert(reduced(sh)) by {
            assert forall|i: int| 0 <= i < sh.len() implies 0 <= #[trigger] sh[i] < q by {
                if i > 0 {
                    assert(sh[i] == pmul(ta, b)[i - 1]);
                }
            }
        }
        lemma_peval_padd(sc, sh, x);
        lemma_peval_pscale(b, a[0], x);
        lemma_peval_pshift(pmul(ta, b), x);
        lemma_peval_pmul(ta, b, x);
        let ea = peval(ta, x);
        let eb = peval(b, x);
        // assemble: ((a0*eb)%q + (x * ((ea*eb)%q))%q) % q == ((a0 + x*ea)%q * eb) % q
        assert(peval(pmul(a, b), x) == ((a[0] * eb) % q + (x * ((ea * eb) % q)) % q) % q);
        lemma_mul_mod_noop_right(x, ea * eb, q);
        lemma_add_mod_noop_right((a[0] * eb) % q, x * (ea * eb), q);
        lemma_mod_twice(x * (ea * eb), q);
        assert(((a[0] * eb) % q + (x * (ea * eb)) % q) % q == (a[0] * eb + x * (ea * eb)) % q) by {
            lemma_add_mod_both(a[0] * eb, x * (ea * eb));
        }
        assert((x * ((ea * eb) % q)) % q == (x * (ea * eb)) % q);
        assert(((a[0] * eb) % q + (x * ((ea * eb) % q)) % q) % q == ((a[0] * eb) % q + (x * (ea
            * eb)) % q) % q);
        assert(a[0] * eb + x * (ea * eb) == (a[0] + x * ea) * eb) by (nonlinear_arith);
        lemma_mul_mod_noop_general(a[0] + x * ea, eb, q);
        assert(peval(a, x) == (a[0] + x * ea) % q);
        assert((peval(a, x) * eb) % q == ((a[0] + x * ea) % q * eb) % q);
    }
}

pub proof fn lemma_peval_drop_last_zero(s: Seq<int>, x: int)
    requires
        s.len() > 0,
        s[s.len() - 1] == 0,
    ensures
        peval(s, x) == peval(s.drop_last(), x),
    decreases s.len(),
{
    if s.len() == 1 {
        assert(s.drop_last().len() == 0);
        assert(s.skip(1).len() == 0);
        assert(peval(s.skip(1), x) == 0);
        assert(peval(s, x) == (s[0] + x * 0) % field_q());
        assert(x * 0 == 0) by (nonlinear_arith);
        lemma_small_mod(0, field_q() as nat);
    } else {
        let t = s.skip(1);
        assert(t[t.len() - 1] == 0);
        lemma_peval_drop_last_zero(t, x);
        assert(s.drop_last().skip(1) =~= t.drop_last());
        assert(peval(s, x) == (s[0] + x * peval(t, x)) % field_q());
        assert(peval(s.drop_last(), x) == (s[0] + x * peval(t.drop_last(), x)) % field_q());
    }
}

pub proof fn lemma_peval_ptrim(s: Seq<int>, x: int)
    ensures
        peval(ptrim(s), x) == peval(s, x),
    decreases s.len(),
{
    if s.len() == 0 {
    } else if s[s.len() - 1] == 0 {
        lemma_peval_drop_last_zero(s, x);
        lemma_peval_ptrim(s.drop_last(), x);
    } else {
    }
}

pub proof fn lemma_ptrim_canonical(s: Seq<int>)
    requires
        reduced(s),
    ensures
        canonical(ptrim(s)),
        ptrim(s).len() <= s.len(),
        forall|j: int| 0 <= j ==> coef(ptrim(s), j) == coef(s, j),
    decreases s.len(),
{
    if s.len() == 0 {
    } else if s[s.len() - 1] == 0 {
        lemma_ptrim_canonical(s.drop_last());
        assert forall|j: int| 0 <= j implies coef(ptrim(s), j) == coef(s, j) by {
            assert(coef(ptrim(s), j) == coef(s.drop_last(), j));
        }
    } else {
    }
}

pub proof fn lemma_ptrim_of_canonical(s: Seq<int>)
    requires
        canonical(s),
    ensures
        ptrim(s) == s,
{
}

/// Two coefficient sequences that agree coefficient-wise produce
/// coefficient-wise equal products with any third sequence.
pub proof fn lemma_pmul_coef_ext(a1: Seq<int>, a2: Seq<int>, b: Seq<int>, j: int)
    requires
        forall|i: int| 0 <= i ==> coef(a1, i) == coef(a2, i),
        j >= 0,
    ensures
        coef(pmul(a1, b), j) == coef(pmul(a2, b), j),
    decreases a1.len() + a2.len(),
{
    if b.len() == 0 {
    } else if a1.len() == 0 && a2.len() == 0 {
    } else if a1.len() == 0 {
        // every coefficient of a2 is zero
        lemma_pmul_all_zero(a2, b, j);
    } else if a2.len() == 0 {
        lemma_pmul_all_zero(a1, b, j);
    } else {
        assert(coef(a1, 0) == coef(a2, 0));
        let t1 = a1.skip(1);
        let t2 = a2.skip(1);
        assert(forall|i: int| 0 <= i ==> coef(t1, i) == coef(a1, i + 1));
        assert(forall|i: int| 0 <= i ==> coef(t2, i) == coef(a2, i + 1));
        lemma_pmul_coef_ext(t1, t2, b, if j > 0 { j - 1 } else { 0 });
        lemma_pmul_unfold_coef(a1, b, j);
        lemma_pmul_unfold_coef(a2, b, j);
    }
}

proof fn lemma_peval_all_zero(s: Seq<int>, x: int)
    requires
        forall|j: int| 0 <= j < s.len() ==> s[j] == 0,
    ensures
        peval(s, x) == 0,
    decreases s.len(),
{
    if s.len() > 0 {
        let t = s.skip(1);
        assert(forall|j: int| 0 <= j < t.len() ==> t[j] == s[j + 1]);
        lemma_peval_all_zero(t, x);
        assert(x * 0 == 0) by (nonlinear_arith);
        lemma_small_mod(0, field_q() as nat);
    }
}

/// Sequences that agree coefficient by coefficient evaluate equally.
pub proof fn lemma_peval_coef_ext(s1: Seq<int>, s2: Seq<int>, x: int)
    requires
        forall|j: int| 0 <= j ==> coef(s1, j) == coef(s2, j),
    ensures
        peval(s1, x) == peval(s2, x),
    decreases s1.len() + s2.len(),
{
    if s1.len() == 0 && s2.len() == 0 {
    } else if s1.len() == 0 {
        assert forall|j: int| 0 <= j < s2.len() implies s2[j] == 0 by {
            assert(coef(s1, j) == 0);
        }
        lemma_peval_all_zero(s2, x);
    } else if s2.len() == 0 {
        assert forall|j: int| 0 <= j < s1.len() implies s1[j] == 0 by {
            assert(coef(s2, j) == 0);
        }
        lemma_peval_all_zero(s1, x);
    } else {
        let t1 = s1.skip(1);
        let t2 = s2.skip(1);
        assert forall|j: int| 0 <= j implies coef(t1, j) == coef(t2, j) by {
            assert(coef(s1, j + 1) == coef(s2, j + 1));
        }
        lemma_peval_coef_ext(t1, t2, x);
        assert(coef(s1, 0) == coef(s2, 0));
    }
}

/// The two Horner heads of a pointwise difference recombine.
proof fn lemma_sub_horner(a0: int, b0: int, x: int, ea: int, eb: int)
    ensures
        ((a0 - b0) % field_q() + x * ((ea - eb) % field_q())) % field_q() == ((a0 + x * ea)
            % field_q() - (b0 + x * eb) % field_q()) % field_q(),
{
    let q = field_q();
    lemma_horner_mod((a0 - b0) % q, x, ea - eb);
    lemma_add_mod_noop((a0 - b0), x * (ea - eb), q);
    lemma_mod_twice(a0 - b0, q);
    lemma_mod_twice(x * (ea - eb), q);
    assert(((a0 - b0) % q + x * (ea - eb)) % q == (a0 - b0 + x * (ea - eb)) % q);
    lemma_mul_is_distributive_sub(x, ea, eb);
    lemma_sub_mod_noop(a0 + x * ea, b0 + x * eb, q);
}

/// The evaluation of a pointwise difference.
pub proof fn lemma_peval_psub(a: Seq<int>, b: Seq<int>, x: int)
    ensures
        peval(psub(a, b), x) == (peval(a, x) - peval(b, x)) % field_q(),
    decreases a.len() + b.len(),
{
    let q = field_q();
    if a.len() == 0 && b.len() == 0 {
        lemma_small_mod(0, q as nat);
    } else {
        let ta = if a.len() == 0 {
            a
        } else {
            a.skip(1)
        };
        let tb = if b.len() == 0 {
            b
        } else {
            b.skip(1)
        };
        let a0 = coef(a, 0);
        let b0 = coef(b, 0);
        assert(psub(a, b).len() > 0);
        assert(psub(a, b)[0] == (a0 - b0) % q);
        assert(psub(a, b).skip(1) =~= psub(ta, tb));
        lemma_peval_psub(ta, tb, x);
        let ea = peval(ta, x);
        let eb = peval(tb, x);
        assert(peval(psub(a, b), x) == ((a0 - b0) % q + x * ((ea - eb) % q)) % q);
        lemma_sub_horner(a0, b0, x, ea, eb);
        assert(peval(a, x) == (a0 + x * ea) % q) by {
            if a.len() == 0 {
                assert(x * 0 == 0) by (nonlinear_arith);
                lemma_small_mod(0, q as nat);
                lemma_peval_bound(a, x);
            }
        }
        assert(peval(b, x) == (b0 + x * eb) % q) by {
            if b.len() == 0 {
                assert(x * 0 == 0) by (nonlinear_arith);
                lemma_small_mod(0, q as nat);
            }
        }
        lemma_mod_twice(peval(a, x) - peval(b, x), q);
        lemma_peval_bound(a, x);
        lemma_peval_bound(b, x);
        lemma_small_mod(peval(a, x) as nat, q as nat);
        lemma_small_mod(peval(b, x) as nat, q as nat);
        assert(((a0 + x * ea) % q - (b0 + x * eb) % q) % q == (peval(a, x) - peval(b, x)) % q);
    }
}

/// The leading coefficient of a product is the product of the leading
/// coefficients.
pub proof fn lemma_pmul_last(a: Seq<int>, b: Seq<int>)
    requires
        a.len() > 0,
        b.len() > 0,
        reduced(a),
        reduced(b),
    ensures
        pmul(a, b)[a.len() + b.len() - 2] == (a[a.len() - 1] * b[b.len() - 1]) % field_q(),
    decreases a.len(),
{
    lemma_pmul_len(a, b);
    if a.len() == 1 {
        assert(pmul(a, b)[b.len() - 1] == (b[b.len() - 1] * a[0]) % field_q());
        lemma_mul_is_commutative(b[b.len() - 1], a[0]);
    } else {
        let ta = a.skip(1);
        assert(reduced(ta)) by {
            assert(forall|i: int| 0 <= i < ta.len() ==> ta[i] == a[i + 1]);
        }
        lemma_pmul_last(ta, b);
        lemma_pmul_len(ta, b);
        let top = a.len() + b.len() - 2;
        let sc = pscale(b, a[0]);
        let sh = pshift(pmul(ta, b));
        lemma_padd_coef(sc, sh, top);
        assert(coef(sc, top) == 0);
        assert(coef(sh, top) == pmul(ta, b)[top - 1]);
        assert(ta[ta.len() - 1] == a[a.len() - 1]);
        lemma_pmul_reduced(ta, b);
        lemma_mod_twice(a[a.len() - 1] * b[b.len() - 1], field_q());
    }
}

/// A left factor whose stored coefficients are all zero multiplies to zero.
pub proof fn lemma_pmul_zero_left(a: Seq<int>, b: Seq<int>, j: int)
    requires
        forall|i: int| 0 <= i < a.len() ==> a[i] == 0,
        j >= 0,
    ensures
        coef(pmul(a, b), j) == 0,
{
    assert(forall|i: int| 0 <= i ==> coef(a, i) == 0);
    lemma_pmul_all_zero(a, b, j);
}

/// A sequence whose coefficients are all zero multiplies to zero.
proof fn lemma_pmul_all_zero(a: Seq<int>, b: Seq<int>, j: int)
    requires
        forall|i: int| 0 <= i ==> coef(a, i) == 0,
        j >= 0,
    ensures
        coef(pmul(a, b), j) == 0,
    decreases a.len(),
{
    if a.len() == 0 || b.len() == 0 {
    } else {
        let t = a.skip(1);
        assert(forall|i: int| 0 <= i ==> coef(t, i) == coef(a, i + 1));
        lemma_pmul_all_zero(t, b, if j > 0 { j - 1 } else { 0 });
        lemma_pmul_unfold_coef(a, b, j);
        assert(a[0] == coef(a, 0));
        assert((b[j] * 0) % field_q() == 0) by (nonlinear_arith)
            requires
                field_q() > 0,
        ;
        lemma_small_mod(0, field_q() as nat);
    }
}

/// Unfolds one step of `pmul` at a single coefficient:
/// `coef(a*b, j) == (coef(b,j)*a[0] + coef(tail(a)*b, j-1)) % q` for `j >= 1`,
/// and `coef(a*b, 0) == (b[0]*a[0]) % q`.
proof fn lemma_pmul_unfold_coef(a: Seq<int>, b: Seq<int>, j: int)
    requires
        a.len() > 0,
        b.len() > 0,
        j >= 0,
    ensures
        j == 0 ==> coef(pmul(a, b), j) == (coef(b, 0) * a[0]) % field_q(),
        j >= 1 ==> coef(pmul(a, b), j) == ((coef(b, j) * a[0]) % field_q() + coef(
            pmul(a.skip(1), b),
            j - 1,
        )) % field_q(),
{
    let q = field_q();
    if a.len() == 1 {
        // pmul(a, b) == pscale(b, a[0]); tail product is empty
        assert(a.skip(1).len() == 0);
        if j == 0 {
        } else {
            if j < b.len() {
                lemma_mod_twice(coef(b, j) * a[0], q);
            } else {
                lemma_small_mod(0, q as nat);
            }
        }
    } else {
        let sc = pscale(b, a[0]);
        let sh = pshift(pmul(a.skip(1), b));
        lemma_padd_coef(sc, sh, j);
        lemma_pmul_len(a.skip(1), b);
        if j == 0 {
            assert(coef(sh, 0) == 0);
            lemma_mod_twice(coef(b, 0) * a[0], q);
        } else {
            assert(coef(sh, j) == coef(pmul(a.skip(1), b), j - 1));
            if j < b.len() {
            } else {
                lemma_small_mod(0, q as nat);
            }
        }
    }
}

/// Updating a zero coefficient of the left factor adds the corresponding
/// shifted, scaled copy of the right factor to the product.
pub proof fn lemma_pmul_update(q: Seq<int>, b: Seq<int>, k: int, l: int, j: int)
    requires
        0 <= k < q.len(),
        q[k] == 0,
        b.len() > 0,
        j >= 0,
    ensures
        coef(pmul(q.update(k, l), b), j) == (coef(pmul(q, b), j) + coef(
            pshiftn(pscale(b, l), k as nat),
            j,
        )) % field_q(),
    decreases q.len(),
{
    let qq = field_q();
    let m = pshiftn(pscale(b, l), k as nat);
    lemma_pshiftn_coef(pscale(b, l), k as nat, j);
    lemma_pmul_reduced(q, b);
    if k == 0 {
        let qu = q.update(0, l);
        assert(qu[0] == l);
        assert(qu.skip(1) =~= q.skip(1));
        lemma_pmul_unfold_coef(qu, b, j);
        lemma_pmul_unfold_coef(q, b, j);
        if j == 0 {
            // coef(qu*b, 0) == (b0*l)%q ; coef(q*b,0) == (b0*0)%q == 0
            assert((coef(b, 0) * 0) % qq == 0) by {
                assert(coef(b, 0) * 0 == 0) by (nonlinear_arith);
                lemma_small_mod(0, qq as nat);
            }
            assert(coef(m, 0) == (b[0] * l) % qq);
            lemma_mod_twice(b[0] * l, qq);
            assert(coef(b, 0) * l == b[0] * l);
        } else {
            // coef(qu*b, j) == ((bj*l)%q + T)%q ; coef(q*b, j) == ((bj*0)%q + T)%q == T%q
            let t = coef(pmul(q.skip(1), b), j - 1);
            assert(coef(pmul(qu, b), j) == ((coef(b, j) * l) % qq + t) % qq);
            assert((coef(b, j) * 0) % qq == 0) by {
                assert(coef(b, j) * 0 == 0) by (nonlinear_arith);
                lemma_small_mod(0, qq as nat);
            }
            assert(coef(pmul(q, b), j) == (0 + t) % qq);
            // t is reduced
            lemma_pmul_reduced(q.skip(1), b);
            assert(0 <= t < qq) by {
                if 0 <= j - 1 < pmul(q.skip(1), b).len() {
                } else {
                }
            }
            lemma_small_mod(t as nat, qq as nat);
            if j < b.len() || j < m.len() {
                assert(coef(m, j) == coef(pscale(b, l), j));
            }
            if j < b.len() {
                assert(coef(m, j) == (b[j] * l) % qq);
                lemma_add_mod_both(coef(b, j) * l, t);
                lemma_mod_twice(coef(b, j) * l, qq);
                lemma_small_mod(t as nat, qq as nat);
                assert(((coef(b, j) * l) % qq + t) % qq == ((coef(b, j) * l) % qq + t % qq) % qq);
                assert((t + coef(m, j)) % qq == (t % qq + (coef(b, j) * l) % qq) % qq) by {
                    lemma_add_mod_both(t, coef(b, j) * l);
                }
            } else {
                assert(coef(m, j) == 0) by {
                    if j < m.len() {
                        assert(coef(pscale(b, l), j) == 0);
                    }
                }
                assert((coef(b, j) * l) == 0 * l);
                assert(0 * l == 0) by (nonlinear_arith);
                lemma_small_mod(0, qq as nat);
            }
        }
    } else {
        let qu = q.update(k, l);
        assert(qu[0] == q[0]);
        assert(qu.skip(1) =~= q.skip(1).update(k - 1, l));
        lemma_pmul_update(q.skip(1), b, k - 1, l, if j > 0 { j - 1 } else { 0 });
        lemma_pmul_unfold_coef(qu, b, j);
        lemma_pmul_unfold_coef(q, b, j);
        lemma_pshiftn_coef(pscale(b, l), (k - 1) as nat, if j > 0 { j - 1 } else { 0 });
        if j == 0 {
            assert(coef(m, 0) == 0);
            lemma_pmul_reduced(qu, b);
            assert(coef(pmul(qu, b), 0) == coef(pmul(q, b), 0)) by {
                lemma_pmul_unfold_coef(qu, b, 0);
                lemma_pmul_unfold_coef(q, b, 0);
            }
            assert(0 <= coef(pmul(q, b), 0) < qq) by {
                if 0 < pmul(q, b).len() {
                } else {
                }
            }
            lemma_small_mod(coef(pmul(q, b), 0) as nat, qq as nat);
        } else {
            let h = (coef(b, j) * q[0]) % qq;
            let t1 = coef(pmul(qu.skip(1), b), j - 1);
            let t0 = coef(pmul(q.skip(1), b), j - 1);
            let mj = coef(m, j);
            let m1 = coef(pshiftn(pscale(b, l), (k - 1) as nat), j - 1);
            assert(mj == m1);
            assert(t1 == (t0 + m1) % qq) by {
                assert(pmul(qu.skip(1), b) == pmul(q.skip(1).update(k - 1, l), b));
            }
            assert(coef(pmul(qu, b), j) == (h + t1) % qq);
            assert(coef(pmul(q, b), j) == (h + t0) % qq);
            // (h + (t0 + mj)%q)%q == ((h + t0)%q + mj)%q
            lemma_add_mod_noop_right(h, t0 + mj, qq);
            lemma_add_mod_noop(h + t0, mj, qq);
            lemma_mod_twice(mj, qq);
            lemma_mod_twice(h + t0, qq);
            assert((h + (t0 + mj) % qq) % qq == (h + t0 + mj) % qq);
            assert(((h + t0) % qq + mj) % qq == (h + t0 + mj) % qq) by {
                lemma_add_mod_both(h + t0, mj);
                lemma_small_mod((mj % qq) as nat, qq as nat);
                lemma_add_mod_noop_right((h + t0) % qq, mj, qq);
                lemma_add_mod_noop_right(h + t0, mj, qq);
            }
        }
    }
}

} // verus!
