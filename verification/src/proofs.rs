//! The aggregate proof that the prover emits and the verifier consumes.

use vstd::prelude::*;
use crate::field::Scalar;
use crate::group::G1Point;
use crate::poly::all_wf;
use crate::protocols::{PrescribedPermutationCheckProof, TSZeroTestProof, ZeroTestProof};

verus! {

/// The serializable aggregate of the public inputs, the claimed output,
/// the trace commitment, and the four check proofs.
#[allow(non_snake_case)]
pub struct Proof {
    pub pub_inputs: Vec<Scalar>,
    pub output: Scalar,
    pub com_T: G1Point,
    pub proof_T_minus_v_zero: ZeroTestProof,
    pub proof_T_S_zero: TSZeroTestProof,
    pub proof_T_W_prescribed_permutation: PrescribedPermutationCheckProof,
    pub proof_last_gate_KZG: G1Point,
}

impl Proof {
    pub open spec fn wf(self) -> bool {
        &&& all_wf(self.pub_inputs@)
        &&& self.output.wf()
        &&& self.com_T.wf()
        &&& self.proof_T_minus_v_zero.wf()
        &&& self.proof_T_S_zero.wf()
        &&& self.proof_T_W_prescribed_permutation.wf()
        &&& self.proof_last_gate_KZG.wf()
    }
}

/// The proof in its persistence shape: curve points hex-encoded in
/// compressed form, field elements as decimal strings.  The encoding and
/// decoding themselves live outside the core.
#[allow(non_snake_case)]
pub struct ProofJson {
    pub pub_inputs: Vec<String>,
    pub output: String,
    pub com_T: String,
    pub proof_T_minus_v_zero: (String, String, String, String, String),
    pub proof_T_S_zero: (
        String,
        String,
        String,
        String,
        String,
        String,
        String,
        String,
        String,
        String,
        String,
    ),
    pub proof_T_W_prescribed_permutation: (
        String,
        String,
        String,
        String,
        String,
        String,
        String,
        String,
        String,
        String,
        String,
        String,
        String,
        String,
        String,
        String,
    ),
    pub proof_last_gate_KZG: String,
}

} // verus!
