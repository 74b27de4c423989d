//! The Fiat–Shamir transcript: deterministic challenge derivation.
//!
//! A challenge is the Blake2s-256 digest of the concatenated compressed
//! commitment encodings, read as a little-endian integer and reduced into
//! the scalar field.  Further challenges re-hash the base digest with a
//! one-byte domain-separation index.  Both derivations are pure functions
//! of the ordered commitment list.

use vstd::prelude::*;
use crate::field::{field_q, le_bytes_val, scalar_from_le_bytes, Scalar};
use crate::group::G1Point;

verus! {

/// The Blake2s-256 digest of a byte string.  Naming the digest is sound
/// because the hash is a deterministic function of its input alone.
pub uninterp spec fn blake2s_of(input: Seq<u8>) -> Seq<u8>;

/// Relies on the blake2 crate's Blake2s256: a 32-byte digest determined by
/// the input bytes.
#[verifier::external_body]
fn blake2s_hash(input: &Vec<u8>) -> (r: Vec<u8>)
    ensures
        r@ == blake2s_of(input@),
        r@.len() == 32,
{
    let digest = <blake2::Blake2s256 as blake2::Digest>::digest(input.as_slice());
    digest.to_vec()
}

/// The concatenation of a list of encodings.
pub open spec fn concat_of(reps: Seq<Seq<u8>>) -> Seq<u8>
    decreases reps.len(),
{
    if reps.len() == 0 {
        Seq::empty()
    } else {
        concat_of(reps.drop_last()) + reps.last()
    }
}

/// The encodings of a list of commitments.
pub open spec fn reps_of(commitments: Seq<G1Point>) -> Seq<Seq<u8>> {
    Seq::new(commitments.len(), |i: int| commitments[i].rep())
}

/// The challenge derived from an ordered list of commitment encodings.
pub open spec fn challenge_of(reps: Seq<Seq<u8>>) -> int {
    le_bytes_val(blake2s_of(concat_of(reps))) % field_q()
}

/// The `i`-th of several challenges derived from an ordered list of
/// commitment encodings, separated by a one-byte domain index.
pub open spec fn challenge_multi_of(reps: Seq<Seq<u8>>, i: int) -> int {
    le_bytes_val(blake2s_of(blake2s_of(concat_of(reps)) + seq![i as u8])) % field_q()
}

/// Challenge derivation is deterministic: it is a pure function of the
/// ordered commitment encodings, so prover and verifier agree whenever
/// they feed the same commitments in the same order.
pub proof fn lemma_challenge_deterministic(a: Seq<Seq<u8>>, b: Seq<Seq<u8>>, n: int)
    requires
        a == b,
    ensures
        challenge_of(a) == challenge_of(b),
        forall|i: int| 0 <= i < n ==> challenge_multi_of(a, i) == challenge_multi_of(b, i),
{
}

/// Derives one challenge field element from the ordered commitments.
pub fn derive_challenge_from_commitments(commitments: &Vec<G1Point>) -> (r: Scalar)
    requires
        forall|i: int| 0 <= i < commitments@.len() ==> (#[trigger] commitments@[i]).wf(),
    ensures
        r.wf(),
        r.val() == challenge_of(reps_of(commitments@)),
{
    let buf = concat_commitments(commitments);
    let h = blake2s_hash(&buf);
    scalar_from_le_bytes(&h)
}

/// Derives several challenge field elements from the ordered commitments,
/// separated by a one-byte domain index.
pub fn derive_multiple_challenges_from_commitments(
    commitments: &Vec<G1Point>,
    num_challenges: usize,
) -> (r: Vec<Scalar>)
    requires
        forall|i: int| 0 <= i < commitments@.len() ==> (#[trigger] commitments@[i]).wf(),
        num_challenges <= 256,
    ensures
        r@.len() == num_challenges,
        forall|i: int| 0 <= i < num_challenges ==> (#[trigger] r@[i]).wf(),
        forall|i: int|
            0 <= i < num_challenges ==> (#[trigger] r@[i]).val() == challenge_multi_of(
                reps_of(commitments@),
                i,
            ),
{
    let buf = concat_commitments(commitments);
    let base = blake2s_hash(&buf);
    let mut out: Vec<Scalar> = Vec::new();
    let mut i: usize = 0;
    while i < num_challenges
        invariant
            i <= num_challenges,
            num_challenges <= 256,
            base@ == blake2s_of(concat_of(reps_of(commitments@))),
            out@.len() == i,
            forall|j: int| 0 <= j < i ==> (#[trigger] out@[j]).wf(),
            forall|j: int|
                0 <= j < i ==> (#[trigger] out@[j]).val() == challenge_multi_of(
                    reps_of(commitments@),
                    j,
                ),
        decreases num_challenges - i,
    {
        let mut sub_input = crate::group::copy_bytes(&base);
        sub_input.push(i as u8);
        proof {
            assert(sub_input@ =~= blake2s_of(concat_of(reps_of(commitments@))) + seq![i as u8]);
        }
        let h = blake2s_hash(&sub_input);
        let c = scalar_from_le_bytes(&h);
        out.push(c);
        i += 1;
    }
    out
}

/// Concatenates the compressed encodings of the commitments.
fn concat_commitments(commitments: &Vec<G1Point>) -> (r: Vec<u8>)
    ensures
        r@ == concat_of(reps_of(commitments@)),
{
    let mut buf: Vec<u8> = Vec::new();
    let mut i: usize = 0;
    proof {
        assert(buf@ =~= concat_of(reps_of(commitments@).take(0)));
    }
    while i < commitments.len()
        invariant
            i <= commitments@.len(),
            buf@ == concat_of(reps_of(commitments@).take(i as int)),
        decreases commitments@.len() - i,
    {
        let b = commitments[i].to_bytes();
        let mut j: usize = 0;
        let ghost before = buf@;
        while j < b.len()
            invariant
                j <= b@.len(),
                buf@ == before + b@.take(j as int),
            decreases b@.len() - j,
        {
            let ghost mid = buf@;
            buf.push(b[j]);
            proof {
                assert(buf@ =~= before + b@.take(j as int + 1));
            }
            j += 1;
        }
        proof {
            assert(b@.take(b@.len() as int) =~= b@);
            let taken = reps_of(commitments@).take(i as int + 1);
            assert(taken.drop_last() =~= reps_of(commitments@).take(i as int));
            assert(taken.last() == commitments@[i as int].rep());
            assert(buf@ =~= concat_of(taken));
        }
        i += 1;
    }
    proof {
        assert(reps_of(commitments@).take(commitments@.len() as int) =~= reps_of(commitments@));
    }
    buf
}

} // verus!
