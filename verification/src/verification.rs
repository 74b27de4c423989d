//! The verifier pipeline for the fixed toy circuit.
//!
//! Every challenge is recomputed from the same commitments the prover
//! used: the trace commitment from the proof, and the selector and wiring
//! commitments from the verification key.  The four checks are replayed
//! in the prover's order, and the verdict is their conjunction.

use vstd::prelude::*;
use vstd::arithmetic::div_mod::lemma_small_mod;
use crate::algebra::{canonical, peval};
use crate::domain::construct_Omega;
use crate::field::{field_q, pow_mod, Scalar};
use crate::group::{g1_sub, g1_sub_of, G1Point};
use crate::kzg::{commit_of, kzg_commit, kzg_verify, spec_kzg_accepts};
use crate::interpolate::{distinct_vals, interpolate_polynomial};
use crate::poly::{all_wf, svals, Poly};
use crate::proofs::Proof;
use crate::protocols::{
    all_distinct, prescribed_permutation_accepts, ts_zero_test_accepts, verify_T_S_zero_test,
    verify_prescribed_permutation_check, verify_zero_on_roots_test, zero_on_roots_accepts,
    ProtocolError, TSZeroTestProof, PrescribedPermutationCheckProof, ZeroTestProof,
};
use crate::setup_global_params::{
    gate_roots, input_roots, omega12, SetupGlobalParamsOutput,
};
use crate::setup_verification_key::SetupVerificationKeyOutput;
use crate::transcript::{
    challenge_multi_of, challenge_of, derive_challenge_from_commitments,
    derive_multiple_challenges_from_commitments,
};

verus! {

/// A canonical polynomial of degree at most one that encodes the two
/// public inputs at the input positions.
pub open spec fn interpolates_inputs(vv: Seq<int>, pub0: int, pub1: int) -> bool {
    &&& canonical(vv)
    &&& vv.len() <= 2
    &&& peval(vv, omega12(11)) == pub0
    &&& peval(vv, omega12(10)) == pub1
}

/// The input zero test, replayed against a given input interpolant `vv`:
/// the challenge is re-derived from the commitment to `T - v`.
#[allow(non_snake_case)]
pub open spec fn input_check_with(
    tau_g2: Seq<u8>,
    srs: Seq<Seq<u8>>,
    com_T: Seq<u8>,
    vv: Seq<int>,
    pf: ZeroTestProof,
) -> bool {
    zero_on_roots_accepts(
        tau_g2,
        input_roots(),
        g1_sub_of(com_T, commit_of(srs, vv)),
        challenge_of(seq![g1_sub_of(com_T, commit_of(srs, vv))]),
        pf,
    )
}

/// The trace-selector zero test with its challenge re-derived from the
/// trace and selector commitments.
#[allow(non_snake_case)]
pub open spec fn gate_check(
    tau_g2: Seq<u8>,
    com_T: Seq<u8>,
    com_S: Seq<u8>,
    pf: TSZeroTestProof,
) -> bool {
    ts_zero_test_accepts(
        tau_g2,
        omega12(1),
        gate_roots(),
        com_T,
        com_S,
        challenge_of(seq![com_T, com_S]),
        pf,
    )
}

/// The wiring permutation check with its three challenges re-derived from
/// the trace and wiring commitments.
#[allow(non_snake_case)]
pub open spec fn wiring_check(
    tau_g2: Seq<u8>,
    com_T: Seq<u8>,
    com_W: Seq<u8>,
    pf: PrescribedPermutationCheckProof,
) -> bool {
    prescribed_permutation_accepts(
        tau_g2,
        omega12(1),
        12,
        com_T,
        com_T,
        com_W,
        challenge_multi_of(seq![com_T, com_W], 0),
        challenge_multi_of(seq![com_T, com_W], 1),
        challenge_multi_of(seq![com_T, com_W], 2),
        pf,
    )
}

/// The output consistency check: the trace opens to the claimed output at
/// the last-output position.
#[allow(non_snake_case)]
pub open spec fn output_check(tau_g2: Seq<u8>, com_T: Seq<u8>, output: int, pf: Seq<u8>) -> bool {
    spec_kzg_accepts(tau_g2, com_T, omega12(8), output, pf)
}

/// The domain facts every replayed check relies on: twelve well-formed
/// elements, element `i` being the `i`-th power of the subgroup generator.
pub open spec fn domain_ok(omega: Seq<Scalar>) -> bool {
    &&& omega.len() == 12
    &&& all_wf(omega)
    &&& forall|i: int| 0 <= i < 12 ==> (#[trigger] svals(omega)[i]) == omega12(i as nat)
}

/// Replays the input zero test with the verifier's own interpolant of
/// the claimed public inputs.
#[allow(non_snake_case)]
fn input_part(
    setup: &SetupGlobalParamsOutput,
    omega: &Vec<Scalar>,
    com_T: &G1Point,
    pi0: Scalar,
    pi1: Scalar,
    pf: &ZeroTestProof,
) -> (r: Result<bool, ProtocolError>)
    requires
        setup.wf(),
        domain_ok(omega@),
        com_T.wf(),
        pi0.wf(),
        pi1.wf(),
        pf.wf(),
    ensures
        match r {
            Ok(b) => exists|vv: Seq<int>|
                {
                    &&& interpolates_inputs(vv, pi0.val(), pi1.val())
                    &&& b == input_check_with(
                        setup.gp.tau_g2.rep(),
                        setup.gp.srs(),
                        com_T.rep(),
                        vv,
                        *pf,
                    )
                },
            Err(e) => e == ProtocolError::PointsNotDistinct && !distinct_vals(input_roots()),
        },
{
    let mut in_x: Vec<Scalar> = Vec::new();
    in_x.push(omega[11]);
    in_x.push(omega[10]);
    proof {
        assert(omega@[11].wf() && omega@[10].wf()) by {
            assert(svals(omega@)[11] == omega@[11].val());
            assert(svals(omega@)[10] == omega@[10].val());
        }
        assert(svals(in_x@)[0] == omega@[11].val());
        assert(svals(in_x@)[1] == omega@[10].val());
        assert(svals(omega@)[11] == omega@[11].val());
        assert(svals(omega@)[10] == omega@[10].val());
        assert(svals(in_x@) =~= input_roots());
    }
    if !all_distinct(&in_x) {
        return Err(ProtocolError::PointsNotDistinct);
    }
    let mut in_y: Vec<Scalar> = Vec::new();
    in_y.push(pi0);
    in_y.push(pi1);
    proof {
        assert(svals(in_y@)[0] == pi0.val());
        assert(svals(in_y@)[1] == pi1.val());
    }
    let v_poly = interpolate_polynomial(&in_x, &in_y);
    let com_v = match kzg_commit(&setup.gp, &v_poly) {
        Ok(c) => c,
        Err(_) => {
            proof {
                assert(false);
            }
            return Ok(false);
        },
    };
    let com_t_minus_v = g1_sub(com_T, &com_v);
    let mut ch_input: Vec<G1Point> = Vec::new();
    ch_input.push(com_t_minus_v.dup());
    let r2 = derive_challenge_from_commitments(&ch_input);
    proof {
        assert(crate::transcript::reps_of(ch_input@) =~= seq![
            g1_sub_of(com_T.rep(), commit_of(setup.gp.srs(), v_poly.vals())),
        ]);
    }
    let ok = verify_zero_on_roots_test(&setup.gp, &in_x, &com_t_minus_v, &r2, pf);
    proof {
        let vv = v_poly.vals();
        assert(interpolates_inputs(vv, pi0.val(), pi1.val()));
        assert(ok == input_check_with(
            setup.gp.tau_g2.rep(),
            setup.gp.srs(),
            com_T.rep(),
            vv,
            *pf,
        ));
    }
    Ok(ok)
}

/// Replays the trace-selector zero test.
#[allow(non_snake_case)]
fn gate_part(
    setup: &SetupGlobalParamsOutput,
    omega: &Vec<Scalar>,
    com_T: &G1Point,
    com_S: &G1Point,
    pf: &TSZeroTestProof,
) -> (b: bool)
    requires
        setup.wf(),
        domain_ok(omega@),
        com_T.wf(),
        com_S.wf(),
        pf.wf(),
    ensures
        b == gate_check(setup.gp.tau_g2.rep(), com_T.rep(), com_S.rep(), *pf),
{
    let mut ch_gates: Vec<G1Point> = Vec::new();
    ch_gates.push(com_T.dup());
    ch_gates.push(com_S.dup());
    let r3 = derive_challenge_from_commitments(&ch_gates);
    let mut gate_x: Vec<Scalar> = Vec::new();
    gate_x.push(omega[0]);
    gate_x.push(omega[3]);
    gate_x.push(omega[6]);
    proof {
        assert(crate::transcript::reps_of(ch_gates@) =~= seq![com_T.rep(), com_S.rep()]);
        assert(omega@[0].wf() && omega@[3].wf() && omega@[6].wf() && omega@[1].wf()) by {
            assert(svals(omega@)[0] == omega@[0].val());
            assert(svals(omega@)[3] == omega@[3].val());
            assert(svals(omega@)[6] == omega@[6].val());
            assert(svals(omega@)[1] == omega@[1].val());
        }
        assert(svals(gate_x@)[0] == omega@[0].val());
        assert(svals(gate_x@)[1] == omega@[3].val());
        assert(svals(gate_x@)[2] == omega@[6].val());
        assert(svals(omega@)[0] == omega@[0].val());
        assert(svals(omega@)[3] == omega@[3].val());
        assert(svals(omega@)[6] == omega@[6].val());
        assert(svals(omega@)[1] == omega@[1].val());
        assert(svals(gate_x@) =~= gate_roots());
    }
    let w1 = omega[1];
    verify_T_S_zero_test(&setup.gp, &w1, &gate_x, com_T, com_S, &r3, pf)
}

/// Replays the wiring permutation check.
#[allow(non_snake_case)]
fn wiring_part(
    setup: &SetupGlobalParamsOutput,
    omega: &Vec<Scalar>,
    com_T: &G1Point,
    com_W: &G1Point,
    pf: &PrescribedPermutationCheckProof,
) -> (b: bool)
    requires
        setup.wf(),
        domain_ok(omega@),
        com_T.wf(),
        com_W.wf(),
        pf.wf(),
    ensures
        b == wiring_check(setup.gp.tau_g2.rep(), com_T.rep(), com_W.rep(), *pf),
{
    let mut ch_wiring: Vec<G1Point> = Vec::new();
    ch_wiring.push(com_T.dup());
    ch_wiring.push(com_W.dup());
    let challenges = derive_multiple_challenges_from_commitments(&ch_wiring, 3);
    proof {
        assert(crate::transcript::reps_of(ch_wiring@) =~= seq![com_T.rep(), com_W.rep()]);
        assert(omega@[1].wf()) by {
            assert(svals(omega@)[1] == omega@[1].val());
        }
        assert(svals(omega@)[1] == omega@[1].val());
    }
    let w1 = omega[1];
    verify_prescribed_permutation_check(
        &setup.gp,
        &w1,
        12,
        com_T,
        com_T,
        com_W,
        &challenges[0],
        &challenges[1],
        &challenges[2],
        pf,
    )
}

/// Replays the output consistency check.
#[allow(non_snake_case)]
fn output_part(
    setup: &SetupGlobalParamsOutput,
    omega: &Vec<Scalar>,
    com_T: &G1Point,
    output: &Scalar,
    pf: &G1Point,
) -> (b: bool)
    requires
        setup.wf(),
        domain_ok(omega@),
        com_T.wf(),
        output.wf(),
        pf.wf(),
    ensures
        b == output_check(setup.gp.tau_g2.rep(), com_T.rep(), output.val(), pf.rep()),
{
    proof {
        assert(omega@[8].wf()) by {
            assert(svals(omega@)[8] == omega@[8].val());
        }
        assert(svals(omega@)[8] == omega@[8].val());
    }
    kzg_verify(&setup.gp, com_T, &omega[8], output, pf)
}

/// Runs the verifier: recomputes every challenge and replays the four
/// checks.  Acceptance implies that all four checks hold with the
/// verifier's own input interpolant; rejection refutes one of them.  Each
/// error names the exact domain condition that failed.
pub fn run(
    setup: &SetupGlobalParamsOutput,
    verification_key: &SetupVerificationKeyOutput,
    proof: &Proof,
) -> (r: Result<bool, ProtocolError>)
    requires
        setup.wf(),
        verification_key.wf(),
        proof.wf(),
    ensures
        match r {
            Ok(b) => {
                let tau_g2 = setup.gp.tau_g2.rep();
                let com_t = proof.com_T.rep();
                if b {
                    &&& proof.pub_inputs@.len() == 2
                    &&& exists|vv: Seq<int>|
                        {
                            &&& interpolates_inputs(
                                vv,
                                svals(proof.pub_inputs@)[0],
                                svals(proof.pub_inputs@)[1],
                            )
                            &&& input_check_with(
                                tau_g2,
                                setup.gp.srs(),
                                com_t,
                                vv,
                                proof.proof_T_minus_v_zero,
                            )
                        }
                    &&& gate_check(
                        tau_g2,
                        com_t,
                        verification_key.com_S.rep(),
                        proof.proof_T_S_zero,
                    )
                    &&& wiring_check(
                        tau_g2,
                        com_t,
                        verification_key.com_W.rep(),
                        proof.proof_T_W_prescribed_permutation,
                    )
                    &&& output_check(
                        tau_g2,
                        com_t,
                        proof.output.val(),
                        proof.proof_last_gate_KZG.rep(),
                    )
                } else {
                    ||| proof.pub_inputs@.len() != 2
                    ||| !gate_check(
                        tau_g2,
                        com_t,
                        verification_key.com_S.rep(),
                        proof.proof_T_S_zero,
                    )
                    ||| !wiring_check(
                        tau_g2,
                        com_t,
                        verification_key.com_W.rep(),
                        proof.proof_T_W_prescribed_permutation,
                    )
                    ||| !output_check(
                        tau_g2,
                        com_t,
                        proof.output.val(),
                        proof.proof_last_gate_KZG.rep(),
                    )
                    ||| exists|vv: Seq<int>|
                        {
                            &&& interpolates_inputs(
                                vv,
                                svals(proof.pub_inputs@)[0],
                                svals(proof.pub_inputs@)[1],
                            )
                            &&& !input_check_with(
                                tau_g2,
                                setup.gp.srs(),
                                com_t,
                                vv,
                                proof.proof_T_minus_v_zero,
                            )
                        }
                }
            },
            Err(e) => {
                ||| (e == ProtocolError::DomainNotClosed && pow_mod(
                    crate::domain::omega_of(12),
                    12,
                ) != 1)
                ||| (e == ProtocolError::PointsNotDistinct && !distinct_vals(input_roots()))
            },
        },
{
    if proof.pub_inputs.len() != 2 {
        return Ok(false);
    }
    proof {
        assert((field_q() - 1) % 12 == 0);
    }
    let omega = match construct_Omega(setup.d) {
        Ok(o) => o,
        Err(_) => {
            proof {
                assert(setup.d as nat == 12nat);
            }
            return Err(ProtocolError::DomainNotClosed);
        },
    };
    proof {
        assert(setup.d == 12);
        assert forall|i: int| 0 <= i < 12 implies (#[trigger] svals(omega@)[i]) == omega12(
            i as nat,
        ) by {
            assert(svals(omega@)[i] == pow_mod(crate::domain::omega_of(setup.d as nat), i as nat));
            assert(setup.d as nat == 12nat);
        }
        assert(domain_ok(omega@));
    }
    let pi0 = proof.pub_inputs[0];
    let pi1 = proof.pub_inputs[1];
    proof {
        assert(proof.pub_inputs@[0].wf() && proof.pub_inputs@[1].wf());
        assert(pi0.val() == svals(proof.pub_inputs@)[0]);
        assert(pi1.val() == svals(proof.pub_inputs@)[1]);
    }
    let ok1 = match input_part(setup, &omega, &proof.com_T, pi0, pi1, &proof.proof_T_minus_v_zero) {
        Ok(b) => b,
        Err(e) => {
            return Err(e);
        },
    };
    let ok2 = gate_part(
        setup,
        &omega,
        &proof.com_T,
        &verification_key.com_S,
        &proof.proof_T_S_zero,
    );
    let ok3 = wiring_part(
        setup,
        &omega,
        &proof.com_T,
        &verification_key.com_W,
        &proof.proof_T_W_prescribed_permutation,
    );
    let ok4 = output_part(
        setup,
        &omega,
        &proof.com_T,
        &proof.output,
        &proof.proof_last_gate_KZG,
    );
    Ok(ok1 && ok2 && ok3 && ok4)
}

} // verus!
