//! Points of the two pairing groups, carried as canonical compressed
//! encodings.
//!
//! A `G1Point` (`G2Point`) holds the 48-byte (96-byte) compressed encoding
//! of a BLS12-381 group element.  The group operations are delegated to
//! arkworks through trusted wrappers; each wrapper's result is named by an
//! uninterpreted function of the operand encodings, which is sound because
//! the operations and the canonical serialization are deterministic.

use vstd::prelude::*;
use crate::field::Scalar;
use ark_serialize::{CanonicalDeserialize, CanonicalSerialize};

verus! {

/// Whether a byte string is the canonical compressed encoding of a G1
/// element: what `deserialize_compressed` accepts on exactly 48 bytes.
pub uninterp spec fn g1_valid(b: Seq<u8>) -> bool;

/// Whether a byte string is the canonical compressed encoding of a G2
/// element.
pub uninterp spec fn g2_valid(b: Seq<u8>) -> bool;

/// The encoding of the G1 generator multiplied by a scalar.
pub uninterp spec fn g1_gen_mul_of(s: int) -> Seq<u8>;

/// The encoding of a G1 point multiplied by a scalar.
pub uninterp spec fn g1_mul_of(p: Seq<u8>, s: int) -> Seq<u8>;

/// The encoding of the sum of two G1 points.
pub uninterp spec fn g1_add_of(a: Seq<u8>, b: Seq<u8>) -> Seq<u8>;

/// The encoding of the difference of two G1 points.
pub uninterp spec fn g1_sub_of(a: Seq<u8>, b: Seq<u8>) -> Seq<u8>;

/// The encoding of the G2 generator multiplied by a scalar.
pub uninterp spec fn g2_gen_mul_of(s: int) -> Seq<u8>;

/// The encoding of the difference of two G2 points.
pub uninterp spec fn g2_sub_of(a: Seq<u8>, b: Seq<u8>) -> Seq<u8>;

/// The serialized value of the bilinear pairing of a G1 and a G2 point.
pub uninterp spec fn pairing_of(a: Seq<u8>, b: Seq<u8>) -> Seq<u8>;

/// An element of the first pairing group, as its compressed encoding.
#[derive(Clone, Debug)]
pub struct G1Point {
    bytes: Vec<u8>,
}

/// An element of the second pairing group, as its compressed encoding.
#[derive(Clone, Debug)]
pub struct G2Point {
    bytes: Vec<u8>,
}

impl G1Point {
    /// The compressed encoding.
    pub closed spec fn rep(self) -> Seq<u8> {
        self.bytes@
    }

    pub open spec fn wf(self) -> bool {
        self.rep().len() == 48 && g1_valid(self.rep())
    }

    /// The encoding as bytes.
    pub fn to_bytes(&self) -> (r: Vec<u8>)
        ensures
            r@ == self.rep(),
    {
        copy_bytes(&self.bytes)
    }

    /// A copy of the point.
    pub fn dup(&self) -> (r: G1Point)
        ensures
            r.rep() == self.rep(),
            self.wf() ==> r.wf(),
    {
        G1Point { bytes: copy_bytes(&self.bytes) }
    }
}

impl G2Point {
    /// The compressed encoding.
    pub closed spec fn rep(self) -> Seq<u8> {
        self.bytes@
    }

    pub open spec fn wf(self) -> bool {
        self.rep().len() == 96 && g2_valid(self.rep())
    }

    /// The encoding as bytes.
    pub fn to_bytes(&self) -> (r: Vec<u8>)
        ensures
            r@ == self.rep(),
    {
        copy_bytes(&self.bytes)
    }

    /// A copy of the point.
    pub fn dup(&self) -> (r: G2Point)
        ensures
            r.rep() == self.rep(),
            self.wf() ==> r.wf(),
    {
        G2Point { bytes: copy_bytes(&self.bytes) }
    }
}

/// Byte-for-byte copy.
pub(crate) fn copy_bytes(v: &Vec<u8>) -> (r: Vec<u8>)
    ensures
        r@ == v@,
{
    let mut out: Vec<u8> = Vec::new();
    let mut i: usize = 0;
    while i < v.len()
        invariant
            i <= v@.len(),
            out@.len() == i,
            forall|j: int| 0 <= j < i ==> out@[j] == v@[j],
        decreases v@.len() - i,
    {
        out.push(v[i]);
        i += 1;
    }
    proof {
        assert(out@ =~= v@);
    }
    out
}

/// Byte-for-byte comparison.
pub(crate) fn bytes_eq(a: &Vec<u8>, b: &Vec<u8>) -> (r: bool)
    ensures
        r == (a@ == b@),
{
    if a.len() != b.len() {
        proof {
            assert(a@ != b@);
        }
        return false;
    }
    let mut i: usize = 0;
    while i < a.len()
        invariant
            i <= a@.len(),
            a@.len() == b@.len(),
            forall|j: int| 0 <= j < i ==> a@[j] == b@[j],
        decreases a@.len() - i,
    {
        if a[i] != b[i] {
            return false;
        }
        i += 1;
    }
    proof {
        assert(a@ =~= b@);
    }
    true
}

/// Relies on arkworks compressed deserialization for G1: accepts exactly
/// the canonical 48-byte compressed encodings.
#[verifier::external_body]
pub fn g1_from_bytes(b: &Vec<u8>) -> (r: Option<G1Point>)
    ensures
        match r {
            Some(p) => p.wf() && p.rep() == b@,
            None => !(b@.len() == 48 && g1_valid(b@)),
        },
{
    if b.len() != 48 {
        return None;
    }
    match ark_bls12_381::G1Projective::deserialize_compressed(b.as_slice()) {
        Ok(_) => Some(G1Point { bytes: b.clone() }),
        Err(_) => None,
    }
}

/// Relies on arkworks compressed deserialization for G2: accepts exactly
/// the canonical 96-byte compressed encodings.
#[verifier::external_body]
pub fn g2_from_bytes(b: &Vec<u8>) -> (r: Option<G2Point>)
    ensures
        match r {
            Some(p) => p.wf() && p.rep() == b@,
            None => !(b@.len() == 96 && g2_valid(b@)),
        },
{
    if b.len() != 96 {
        return None;
    }
    match ark_bls12_381::G2Projective::deserialize_compressed(b.as_slice()) {
        Ok(_) => Some(G2Point { bytes: b.clone() }),
        Err(_) => None,
    }
}

/// Relies on arkworks G1 scalar multiplication of the group generator and
/// canonical compressed serialization.
#[verifier::external_body]
pub fn g1_gen_mul(s: &Scalar) -> (r: G1Point)
    requires
        s.wf(),
    ensures
        r.wf(),
        r.rep() == g1_gen_mul_of(s.val()),
{
    let (l0, l1, l2, l3) = s.limbs();
    let f = ark_bls12_381::Fr::from(ark_ff::BigInt([l0, l1, l2, l3]));
    let p = <ark_bls12_381::G1Projective as ark_ec::PrimeGroup>::generator() * f;
    let mut bytes = Vec::new();
    p.serialize_compressed(&mut bytes).unwrap();
    G1Point { bytes }
}

/// Relies on arkworks G1 scalar multiplication and canonical compressed
/// serialization.
#[verifier::external_body]
pub fn g1_mul(p: &G1Point, s: &Scalar) -> (r: G1Point)
    requires
        p.wf(),
        s.wf(),
    ensures
        r.wf(),
        r.rep() == g1_mul_of(p.rep(), s.val()),
{
    let (l0, l1, l2, l3) = s.limbs();
    let f = ark_bls12_381::Fr::from(ark_ff::BigInt([l0, l1, l2, l3]));
    let g = ark_bls12_381::G1Projective::deserialize_compressed(p.bytes.as_slice()).unwrap();
    let mut bytes = Vec::new();
    (g * f).serialize_compressed(&mut bytes).unwrap();
    G1Point { bytes }
}

/// Relies on arkworks G1 point addition and canonical compressed
/// serialization.
#[verifier::external_body]
pub fn g1_add(a: &G1Point, b: &G1Point) -> (r: G1Point)
    requires
        a.wf(),
        b.wf(),
    ensures
        r.wf(),
        r.rep() == g1_add_of(a.rep(), b.rep()),
{
    let x = ark_bls12_381::G1Projective::deserialize_compressed(a.bytes.as_slice()).unwrap();
    let y = ark_bls12_381::G1Projective::deserialize_compressed(b.bytes.as_slice()).unwrap();
    let mut bytes = Vec::new();
    (x + y).serialize_compressed(&mut bytes).unwrap();
    G1Point { bytes }
}

/// Relies on arkworks G1 point subtraction and canonical compressed
/// serialization.
#[verifier::external_body]
pub fn g1_sub(a: &G1Point, b: &G1Point) -> (r: G1Point)
    requires
        a.wf(),
        b.wf(),
    ensures
        r.wf(),
        r.rep() == g1_sub_of(a.rep(), b.rep()),
{
    let x = ark_bls12_381::G1Projective::deserialize_compressed(a.bytes.as_slice()).unwrap();
    let y = ark_bls12_381::G1Projective::deserialize_compressed(b.bytes.as_slice()).unwrap();
    let mut bytes = Vec::new();
    (x - y).serialize_compressed(&mut bytes).unwrap();
    G1Point { bytes }
}

/// Relies on arkworks G2 scalar multiplication of the group generator and
/// canonical compressed serialization.
#[verifier::external_body]
pub fn g2_gen_mul(s: &Scalar) -> (r: G2Point)
    requires
        s.wf(),
    ensures
        r.wf(),
        r.rep() == g2_gen_mul_of(s.val()),
{
    let (l0, l1, l2, l3) = s.limbs();
    let f = ark_bls12_381::Fr::from(ark_ff::BigInt([l0, l1, l2, l3]));
    let p = <ark_bls12_381::G2Projective as ark_ec::PrimeGroup>::generator() * f;
    let mut bytes = Vec::new();
    p.serialize_compressed(&mut bytes).unwrap();
    G2Point { bytes }
}

/// Relies on arkworks G2 point subtraction and canonical compressed
/// serialization.
#[verifier::external_body]
pub fn g2_sub(a: &G2Point, b: &G2Point) -> (r: G2Point)
    requires
        a.wf(),
        b.wf(),
    ensures
        r.wf(),
        r.rep() == g2_sub_of(a.rep(), b.rep()),
{
    let x = ark_bls12_381::G2Projective::deserialize_compressed(a.bytes.as_slice()).unwrap();
    let y = ark_bls12_381::G2Projective::deserialize_compressed(b.bytes.as_slice()).unwrap();
    let mut bytes = Vec::new();
    (x - y).serialize_compressed(&mut bytes).unwrap();
    G2Point { bytes }
}

/// Relies on the arkworks BLS12-381 bilinear pairing and the canonical
/// serialization of target-group elements: equal serializations mean equal
/// pairing values.
#[verifier::external_body]
pub fn pairing(a: &G1Point, b: &G2Point) -> (r: Vec<u8>)
    requires
        a.wf(),
        b.wf(),
    ensures
        r@ == pairing_of(a.rep(), b.rep()),
{
    let x = ark_bls12_381::G1Projective::deserialize_compressed(a.bytes.as_slice()).unwrap();
    let y = ark_bls12_381::G2Projective::deserialize_compressed(b.bytes.as_slice()).unwrap();
    let e = <ark_bls12_381::Bls12_381 as ark_ec::pairing::Pairing>::pairing(x, y);
    let mut bytes = Vec::new();
    e.serialize_compressed(&mut bytes).unwrap();
    bytes
}

} // verus!
