//! Elements of the BLS12-381 scalar field.
//!
//! A `Scalar` stores the canonical representative of a field element as four
//! little-endian 64-bit limbs, always below the field modulus.  All field
//! arithmetic is delegated to the arkworks implementation through trusted
//! wrappers whose contracts state the exact result modulo the field order.

use vstd::prelude::*;
use vstd::arithmetic::div_mod::{
    lemma_fundamental_div_mod, lemma_fundamental_div_mod_converse_mod, lemma_small_mod,
};
use vstd::arithmetic::mul::lemma_mul_inequality;
use vstd::arithmetic::power::pow;

verus! {

/// The order of the BLS12-381 scalar field: a 255-bit prime.
pub open spec fn field_q() -> int {
    52435875175126190479447740508185965837690552500527637822603658699938581184513int
}

/// The multiplicative generator of the field that the subgroup
/// construction raises to powers (the arkworks configuration uses 7).
pub open spec fn field_generator() -> int {
    7
}

/// `base ^ exp` reduced into the field.
pub open spec fn pow_mod(base: int, exp: nat) -> int {
    pow(base, exp) % field_q()
}

/// A scalar-field element, stored as the canonical representative in
/// little-endian 64-bit limbs.
#[derive(Clone, Copy, PartialEq, Eq, Structural, Debug)]
pub struct Scalar {
    l0: u64,
    l1: u64,
    l2: u64,
    l3: u64,
}

impl Scalar {
    /// The integer this element stands for.
    pub closed spec fn val(self) -> int {
        self.l0 + self.l1 * 0x10000000000000000int
            + self.l2 * 0x100000000000000000000000000000000int
            + self.l3 * 0x1000000000000000000000000000000000000000000000000int
    }

    /// The stored representative is canonical: below the field order.
    pub open spec fn wf(self) -> bool {
        0 <= self.val() < field_q()
    }

    pub fn zero() -> (r: Scalar)
        ensures
            r.wf(),
            r.val() == 0,
    {
        Scalar { l0: 0, l1: 0, l2: 0, l3: 0 }
    }

    pub fn one() -> (r: Scalar)
        ensures
            r.wf(),
            r.val() == 1,
    {
        Scalar { l0: 1, l1: 0, l2: 0, l3: 0 }
    }

    pub fn from_u64(x: u64) -> (r: Scalar)
        ensures
            r.wf(),
            r.val() == x,
    {
        Scalar { l0: x, l1: 0, l2: 0, l3: 0 }
    }

    /// Builds an element from little-endian limbs; rejects values that are
    /// not below the field order.
    pub fn from_limbs(l0: u64, l1: u64, l2: u64, l3: u64) -> (r: Option<Scalar>)
        ensures
            match r {
                Some(s) => s.wf() && s.val() == l0 + l1 * 0x10000000000000000int
                    + l2 * 0x100000000000000000000000000000000int
                    + l3 * 0x1000000000000000000000000000000000000000000000000int,
                None => l0 + l1 * 0x10000000000000000int
                    + l2 * 0x100000000000000000000000000000000int
                    + l3 * 0x1000000000000000000000000000000000000000000000000int >= field_q(),
            },
    {
        let below: bool = if l3 != 0x73EDA753299D7D48u64 {
            l3 < 0x73EDA753299D7D48u64
        } else if l2 != 0x3339D80809A1D805u64 {
            l2 < 0x3339D80809A1D805u64
        } else if l1 != 0x53BDA402FFFE5BFEu64 {
            l1 < 0x53BDA402FFFE5BFEu64
        } else {
            l0 < 0xFFFFFFFF00000001u64
        };
        if below {
            Some(Scalar { l0, l1, l2, l3 })
        } else {
            None
        }
    }

    /// The little-endian limbs of the canonical representative.
    pub fn limbs(&self) -> (r: (u64, u64, u64, u64))
        ensures
            r.0 + r.1 * 0x10000000000000000int
                + r.2 * 0x100000000000000000000000000000000int
                + r.3 * 0x1000000000000000000000000000000000000000000000000int == self.val(),
    {
        (self.l0, self.l1, self.l2, self.l3)
    }
}

/// Two elements with the same value have the same limbs: the positional
/// representation is unique.
pub proof fn lemma_scalar_val_injective(a: Scalar, b: Scalar)
    ensures
        (a.val() == b.val()) ==> a == b,
{
    if a.val() == b.val() {
        lemma_limbs_unique(a.l0, a.l1, a.l2, a.l3, b.l0, b.l1, b.l2, b.l3);
    }
}

proof fn lemma_limbs_unique(a0: u64, a1: u64, a2: u64, a3: u64, b0: u64, b1: u64, b2: u64, b3: u64)
    requires
        a0 + a1 * 0x10000000000000000int + a2 * 0x100000000000000000000000000000000int
            + a3 * 0x1000000000000000000000000000000000000000000000000int == b0 + b1
            * 0x10000000000000000int + b2 * 0x100000000000000000000000000000000int + b3
            * 0x1000000000000000000000000000000000000000000000000int,
    ensures
        a0 == b0 && a1 == b1 && a2 == b2 && a3 == b3,
{
    let base: int = 0x10000000000000000int;
    let va: int = a0 + a1 * base + a2 * (base * base) + a3 * (base * base * base);
    let vb: int = b0 + b1 * base + b2 * (base * base) + b3 * (base * base * base);
    assert(va == a0 + base * (a1 + base * (a2 + base * a3))) by (nonlinear_arith)
        requires
            va == a0 + a1 * base + a2 * (base * base) + a3 * (base * base * base),
    ;
    assert(vb == b0 + base * (b1 + base * (b2 + base * b3))) by (nonlinear_arith)
        requires
            vb == b0 + b1 * base + b2 * (base * base) + b3 * (base * base * base),
    ;
    lemma_digit_unique(a0, a1 + base * (a2 + base * a3), b0, b1 + base * (b2 + base * b3));
    lemma_digit_unique(a1, a2 + base * a3, b1, b2 + base * b3);
    lemma_digit_unique(a2, a3 as int, b2, b3 as int);
}

proof fn lemma_digit_unique(alow: u64, ahigh: int, blow: u64, bhigh: int)
    requires
        ahigh >= 0,
        bhigh >= 0,
        alow + 0x10000000000000000int * ahigh == blow + 0x10000000000000000int * bhigh,
    ensures
        alow == blow,
        ahigh == bhigh,
{
    let base: int = 0x10000000000000000int;
    let v: int = alow + base * ahigh;
    lemma_fundamental_div_mod_converse_mod(v, base, ahigh, alow as int);
    lemma_fundamental_div_mod_converse_mod(v, base, bhigh, blow as int);
    assert(alow == v % base);
    assert(blow == v % base);
    assert(base * ahigh == base * bhigh);
    assert(ahigh == bhigh) by (nonlinear_arith)
        requires
            base * ahigh == base * bhigh,
            base == 0x10000000000000000int,
    ;
}

/// Equality of field elements is equality of values.
pub fn scalar_eq(a: &Scalar, b: &Scalar) -> (r: bool)
    ensures
        r == (a.val() == b.val()),
{
    proof {
        lemma_scalar_val_injective(*a, *b);
    }
    a == b
}

/// Relies on arkworks field addition on BLS12-381 scalars: canonical
/// representatives add modulo the field order.
#[verifier::external_body]
pub fn scalar_add(a: &Scalar, b: &Scalar) -> (r: Scalar)
    requires
        a.wf(),
        b.wf(),
    ensures
        r.wf(),
        r.val() == (a.val() + b.val()) % field_q(),
{
    let x = ark_bls12_381::Fr::from(ark_ff::BigInt([a.l0, a.l1, a.l2, a.l3]));
    let y = ark_bls12_381::Fr::from(ark_ff::BigInt([b.l0, b.l1, b.l2, b.l3]));
    let s = ark_ff::PrimeField::into_bigint(x + y).0;
    Scalar { l0: s[0], l1: s[1], l2: s[2], l3: s[3] }
}

/// Relies on arkworks field subtraction on BLS12-381 scalars.
#[verifier::external_body]
pub fn scalar_sub(a: &Scalar, b: &Scalar) -> (r: Scalar)
    requires
        a.wf(),
        b.wf(),
    ensures
        r.wf(),
        r.val() == (a.val() - b.val()) % field_q(),
{
    let x = ark_bls12_381::Fr::from(ark_ff::BigInt([a.l0, a.l1, a.l2, a.l3]));
    let y = ark_bls12_381::Fr::from(ark_ff::BigInt([b.l0, b.l1, b.l2, b.l3]));
    let s = ark_ff::PrimeField::into_bigint(x - y).0;
    Scalar { l0: s[0], l1: s[1], l2: s[2], l3: s[3] }
}

/// Relies on arkworks field negation on BLS12-381 scalars.
#[verifier::external_body]
pub fn scalar_neg(a: &Scalar) -> (r: Scalar)
    requires
        a.wf(),
    ensures
        r.wf(),
        r.val() == (0 - a.val()) % field_q(),
{
    let x = ark_bls12_381::Fr::from(ark_ff::BigInt([a.l0, a.l1, a.l2, a.l3]));
    let s = ark_ff::PrimeField::into_bigint(-x).0;
    Scalar { l0: s[0], l1: s[1], l2: s[2], l3: s[3] }
}

/// Relies on arkworks field multiplication on BLS12-381 scalars.
#[verifier::external_body]
pub fn scalar_mul(a: &Scalar, b: &Scalar) -> (r: Scalar)
    requires
        a.wf(),
        b.wf(),
    ensures
        r.wf(),
        r.val() == (a.val() * b.val()) % field_q(),
{
    let x = ark_bls12_381::Fr::from(ark_ff::BigInt([a.l0, a.l1, a.l2, a.l3]));
    let y = ark_bls12_381::Fr::from(ark_ff::BigInt([b.l0, b.l1, b.l2, b.l3]));
    let s = ark_ff::PrimeField::into_bigint(x * y).0;
    Scalar { l0: s[0], l1: s[1], l2: s[2], l3: s[3] }
}

/// Relies on arkworks field inversion: every nonzero element of the field
/// has a multiplicative inverse, and `inverse` returns it.
#[verifier::external_body]
pub fn scalar_inv(a: &Scalar) -> (r: Scalar)
    requires
        a.wf(),
        a.val() != 0,
    ensures
        r.wf(),
        (r.val() * a.val()) % field_q() == 1,
{
    let x = ark_bls12_381::Fr::from(ark_ff::BigInt([a.l0, a.l1, a.l2, a.l3]));
    let s = ark_ff::PrimeField::into_bigint(ark_ff::Field::inverse(&x).unwrap()).0;
    Scalar { l0: s[0], l1: s[1], l2: s[2], l3: s[3] }
}

/// Relies on arkworks field exponentiation with a little-endian 64-bit
/// limb exponent.
#[verifier::external_body]
pub fn scalar_pow_limbs(base: &Scalar, e0: u64, e1: u64, e2: u64, e3: u64) -> (r: Scalar)
    requires
        base.wf(),
    ensures
        r.wf(),
        r.val() == pow_mod(
            base.val(),
            (e0 + e1 * 0x10000000000000000int + e2 * 0x100000000000000000000000000000000int + e3
                * 0x1000000000000000000000000000000000000000000000000int) as nat,
        ),
{
    let x = ark_bls12_381::Fr::from(ark_ff::BigInt([base.l0, base.l1, base.l2, base.l3]));
    let s = ark_ff::PrimeField::into_bigint(ark_ff::Field::pow(&x, [e0, e1, e2, e3])).0;
    Scalar { l0: s[0], l1: s[1], l2: s[2], l3: s[3] }
}

/// Relies on the rand thread rng and arkworks uniform field sampling;
/// nothing is assumed of the drawn value beyond being a field element.
#[verifier::external_body]
pub fn scalar_rand() -> (r: Scalar)
    ensures
        r.wf(),
{
    let mut rng = ark_std::rand::thread_rng();
    let x: ark_bls12_381::Fr = ark_std::UniformRand::rand(&mut rng);
    let s = ark_ff::PrimeField::into_bigint(x).0;
    Scalar { l0: s[0], l1: s[1], l2: s[2], l3: s[3] }
}

/// Exponentiation with a machine-word exponent, by repeated multiplication.
pub fn scalar_pow(base: &Scalar, e: usize) -> (r: Scalar)
    requires
        base.wf(),
    ensures
        r.wf(),
        r.val() == pow_mod(base.val(), e as nat),
{
    let mut acc = Scalar::one();
    proof {
        vstd::arithmetic::power::lemma_pow0(base.val());
        lemma_small_mod(1, field_q() as nat);
    }
    let mut i: usize = 0;
    while i < e
        invariant
            i <= e,
            base.wf(),
            acc.wf(),
            acc.val() == pow_mod(base.val(), i as nat),
        decreases e - i,
    {
        let next = scalar_mul(&acc, base);
        proof {
            let q = field_q();
            let b = base.val();
            let p = pow(b, i as nat);
            vstd::arithmetic::div_mod::lemma_mul_mod_noop_left(p, b, q);
            assert(pow(b, (i + 1) as nat) == b * p) by {
                reveal(vstd::arithmetic::power::pow);
            }
            assert(p * b == b * p) by (nonlinear_arith);
        }
        acc = next;
        i += 1;
    }
    acc
}

/// The integer a little-endian byte string stands for.
pub open spec fn le_bytes_val(s: Seq<u8>) -> int
    decreases s.len(),
{
    if s.len() == 0 {
        0
    } else {
        s[0] + 256 * le_bytes_val(s.skip(1))
    }
}

/// Relies on arkworks `from_le_bytes_mod_order`: the bytes are read as a
/// little-endian integer and reduced modulo the field order.
#[verifier::external_body]
pub fn scalar_from_le_bytes(bytes: &Vec<u8>) -> (r: Scalar)
    ensures
        r.wf(),
        r.val() == le_bytes_val(bytes@) % field_q(),
{
    let x = <ark_bls12_381::Fr as ark_ff::PrimeField>::from_le_bytes_mod_order(bytes.as_slice());
    let s = ark_ff::PrimeField::into_bigint(x).0;
    Scalar { l0: s[0], l1: s[1], l2: s[2], l3: s[3] }
}

/// Long division of a 256-bit value, given as four little-endian limbs, by a
/// 64-bit divisor: returns quotient limbs and remainder.
pub fn divmod_wide(n0: u64, n1: u64, n2: u64, n3: u64, k: u64) -> (r: (u64, u64, u64, u64, u64))
    requires
        k > 0,
    ensures
        (r.0 + r.1 * 0x10000000000000000int + r.2 * 0x100000000000000000000000000000000int + r.3
            * 0x1000000000000000000000000000000000000000000000000int) * k + r.4 == n0 + n1
            * 0x10000000000000000int + n2 * 0x100000000000000000000000000000000int + n3
            * 0x1000000000000000000000000000000000000000000000000int,
        r.4 < k,
{
    let ghost base: int = 0x10000000000000000int;
    let kw: u128 = k as u128;
    let c3: u128 = n3 as u128;
    let q3: u64 = (c3 / kw) as u64;
    let r3: u64 = (c3 % kw) as u64;
    proof {
        lemma_fundamental_div_mod(c3 as int, kw as int);
    }
    let c2: u128 = (r3 as u128) * 0x10000000000000000u128 + (n2 as u128);
    proof {
        lemma_div_fits(c2 as int, k as int);
    }
    let q2: u64 = (c2 / kw) as u64;
    let r2: u64 = (c2 % kw) as u64;
    proof {
        lemma_fundamental_div_mod(c2 as int, kw as int);
    }
    let c1: u128 = (r2 as u128) * 0x10000000000000000u128 + (n1 as u128);
    proof {
        lemma_div_fits(c1 as int, k as int);
    }
    let q1: u64 = (c1 / kw) as u64;
    let r1: u64 = (c1 % kw) as u64;
    proof {
        lemma_fundamental_div_mod(c1 as int, kw as int);
    }
    let c0: u128 = (r1 as u128) * 0x10000000000000000u128 + (n0 as u128);
    proof {
        lemma_div_fits(c0 as int, k as int);
    }
    let q0: u64 = (c0 / kw) as u64;
    let r0: u64 = (c0 % kw) as u64;
    proof {
        lemma_fundamental_div_mod(c0 as int, kw as int);
        assert((q0 + q1 * base + q2 * (base * base) + q3 * (base * base * base)) * k + r0 == n0
            + n1 * base + n2 * (base * base) + n3 * (base * base * base)) by (nonlinear_arith)
            requires
                base == 0x10000000000000000int,
                c3 == n3,
                c3 == k * (q3 as int) + r3,
                c2 == r3 * base + n2,
                c2 == k * (q2 as int) + r2,
                c1 == r2 * base + n1,
                c1 == k * (q1 as int) + r1,
                c0 == r1 * base + n0,
                c0 == k * (q0 as int) + r0,
        ;
    }
    (q0, q1, q2, q3, r0)
}

proof fn lemma_div_fits(c: int, k: int)
    requires
        k > 0,
        c < k * 0x10000000000000000int,
        c >= 0,
    ensures
        c / k < 0x10000000000000000int,
        c / k >= 0,
{
    lemma_fundamental_div_mod(c, k);
    let q: int = c / k;
    if q >= 0x10000000000000000int {
        lemma_mul_inequality(0x10000000000000000int, q, k);
        assert(k * 0x10000000000000000int == 0x10000000000000000int * k) by (nonlinear_arith);
        assert(q * k == k * q) by (nonlinear_arith);
        assert(false);
    }
}

} // verus!
