//! The prover pipeline for the fixed toy circuit.
//!
//! The trace interpolates the inputs `5`, `6`, the witness `1`, and the
//! wire values of the three gates; the prover then commits to it and
//! produces, in order, the input zero test, the trace-selector zero test, the wiring
//! permutation check, and the direct opening of the output wire.  Every
//! challenge is derived only from commitments that already exist.

use vstd::prelude::*;
use crate::algebra::{canonical, peval};
use crate::domain::construct_Omega;
use crate::field::{field_q, Scalar};
use crate::group::{g1_sub, G1Point};
use crate::interpolate::{distinct_vals, interpolate_polynomial};
use crate::kzg::{commit_of, is_kzg_opening, kzg_commit, kzg_evaluate};
use crate::poly::{poly_sub, svals, Poly};
use crate::proofs::Proof;
use crate::protocols::{
    all_distinct, compute_q_zero_test, compute_q_zero_test_from_roots,
    compute_t_and_t1_prescribed_permutation_check, compute_t1_T_S_zero_test, perm_den,
    prove_prescribed_permutation_check, prove_T_S_zero_test, prove_zero_test, ProtocolError,
};
use crate::setup_global_params::{
    input_roots, omega12, omega_family, trace_domain, SetupGlobalParamsOutput,
};
use crate::setup_proving_key::SetupProvingKeyOutput;
use crate::setup_verification_key::SetupVerificationKeyOutput;
use crate::transcript::{
    challenge_multi_of, derive_challenge_from_commitments,
    derive_multiple_challenges_from_commitments, reps_of,
};

verus! {

/// Failure of the prover pipeline.
#[derive(Debug, Clone, PartialEq, Eq, Structural)]
pub enum ProveError {
    /// The evaluation domain's generator did not have the expected order.
    DomainNotClosed,
    /// Interpolation points collided.
    PointsNotDistinct,
    /// A denominator of the permutation ratio evaluated to zero.
    ZeroDenominator,
    /// The interpolated trace fell short of the full domain degree.
    TraceDegenerate,
}

/// Whether the `i`-th denominator of the wiring-check ratio vanishes for
/// a trace with coefficients `tv`, at the challenges derived from its
/// commitment and the wiring commitment.
pub open spec fn wiring_denominator_zero(
    srs: Seq<Seq<u8>>,
    com_w: Seq<u8>,
    tv: Seq<int>,
    i: int,
) -> bool {
    perm_den(
        challenge_multi_of(seq![commit_of(srs, tv), com_w], 0),
        challenge_multi_of(seq![commit_of(srs, tv), com_w], 1),
        tv,
        omega_family(),
        i,
    ) == 0
}

/// The wire values of the fixed circuit, read off the trace polynomial:
/// inputs 5 and 6 and witness 1 on the negative powers, and the three
/// gates 5+6=11, 6+1=7, 11*7=77 on the wires of the gates.
pub open spec fn trace_evals(tv: Seq<int>) -> bool {
    &&& peval(tv, omega12(11)) == 5
    &&& peval(tv, omega12(10)) == 6
    &&& peval(tv, omega12(9)) == 1
    &&& peval(tv, omega12(0)) == 5
    &&& peval(tv, omega12(1)) == 6
    &&& peval(tv, omega12(2)) == 11
    &&& peval(tv, omega12(3)) == 6
    &&& peval(tv, omega12(4)) == 1
    &&& peval(tv, omega12(5)) == 7
    &&& peval(tv, omega12(6)) == 11
    &&& peval(tv, omega12(7)) == 7
    &&& peval(tv, omega12(8)) == 77
}

/// Runs the prover: interpolates and commits the trace, produces the four
/// checks, and assembles the proof.
pub fn run(
    setup: &SetupGlobalParamsOutput,
    proving_key: &SetupProvingKeyOutput,
    verification_key: &SetupVerificationKeyOutput,
) -> (r: Result<Proof, ProveError>)
    requires
        setup.wf(),
        proving_key.wf(),
        verification_key.wf(),
    ensures
        match r {
            Ok(p) => {
                &&& p.wf()
                &&& p.pub_inputs@.len() == 2
                &&& svals(p.pub_inputs@)[0] == 5
                &&& svals(p.pub_inputs@)[1] == 6
                &&& p.output.val() == 77
                &&& exists|tv: Seq<int>|
                    {
                        &&& canonical(tv)
                        &&& tv.len() <= 12
                        &&& trace_evals(tv)
                        &&& p.com_T.rep() == commit_of(setup.gp.srs(), tv)
                        &&& is_kzg_opening(
                            setup.gp.srs(),
                            tv,
                            omega12(8),
                            77,
                            p.proof_last_gate_KZG.rep(),
                        )
                    }
            },
            Err(e) => {
                ||| (e == ProveError::DomainNotClosed && crate::field::pow_mod(
                    crate::domain::omega_of(12),
                    12,
                ) != 1)
                ||| (e == ProveError::PointsNotDistinct && (!distinct_vals(trace_domain())
                    || !distinct_vals(input_roots()) || !distinct_vals(omega_family())))
                ||| (e == ProveError::TraceDegenerate && exists|tv: Seq<int>|
                    canonical(tv) && #[trigger] trace_evals(tv) && tv.len() < 12)
                ||| (e == ProveError::ZeroDenominator && exists|tv: Seq<int>, i: int|
                    {
                        &&& canonical(tv)
                        &&& tv.len() <= 12
                        &&& trace_evals(tv)
                        &&& 0 <= i < 12
                        &&& #[trigger] wiring_denominator_zero(
                            setup.gp.srs(),
                            verification_key.com_W.rep(),
                            tv,
                            i,
                        )
                    })
            },
        },
{
    proof {
        assert((field_q() - 1) % 12 == 0);
    }
    let omega = match construct_Omega(setup.d) {
        Ok(o) => o,
        Err(_) => {
            proof {
                assert(setup.d as nat == 12nat);
            }
            return Err(ProveError::DomainNotClosed);
        },
    };
    proof {
        assert(setup.d == 12);
        assert forall|i: int| 0 <= i < 12 implies (#[trigger] omega@[i]).wf() && omega@[i].val()
            == omega12(i as nat) by {
            assert(svals(omega@)[i] == crate::field::pow_mod(
                crate::domain::omega_of(setup.d as nat),
                i as nat,
            ));
            assert(svals(omega@)[i] == omega@[i].val());
            assert(setup.d as nat == 12nat);
        }
    }
    // part 1: interpolate and commit the trace
    let mut tx: Vec<Scalar> = Vec::new();
    tx.push(omega[11]);
    tx.push(omega[10]);
    tx.push(omega[9]);
    tx.push(omega[0]);
    tx.push(omega[1]);
    tx.push(omega[2]);
    tx.push(omega[3]);
    tx.push(omega[4]);
    tx.push(omega[5]);
    tx.push(omega[6]);
    tx.push(omega[7]);
    tx.push(omega[8]);
    let mut ty: Vec<Scalar> = Vec::new();
    ty.push(Scalar::from_u64(5));
    ty.push(Scalar::from_u64(6));
    ty.push(Scalar::from_u64(1));
    ty.push(Scalar::from_u64(5));
    ty.push(Scalar::from_u64(6));
    ty.push(Scalar::from_u64(11));
    ty.push(Scalar::from_u64(6));
    ty.push(Scalar::from_u64(1));
    ty.push(Scalar::from_u64(7));
    ty.push(Scalar::from_u64(11));
    ty.push(Scalar::from_u64(7));
    ty.push(Scalar::from_u64(77));
    let ghost txv = svals(tx@);
    let ghost tyv = svals(ty@);
    proof {
        assert(txv[0] == omega@[11].val() && tyv[0] == 5);
        assert(txv[1] == omega@[10].val() && tyv[1] == 6);
        assert(txv[2] == omega@[9].val() && tyv[2] == 1);
        assert(txv[3] == omega@[0].val() && tyv[3] == 5);
        assert(txv[4] == omega@[1].val() && tyv[4] == 6);
        assert(txv[5] == omega@[2].val() && tyv[5] == 11);
        assert(txv[6] == omega@[3].val() && tyv[6] == 6);
        assert(txv[7] == omega@[4].val() && tyv[7] == 1);
        assert(txv[8] == omega@[5].val() && tyv[8] == 7);
        assert(txv[9] == omega@[6].val() && tyv[9] == 11);
        assert(txv[10] == omega@[7].val() && tyv[10] == 7);
        assert(txv[11] == omega@[8].val() && tyv[11] == 77);
        assert(txv =~= trace_domain());
    }
    if !all_distinct(&tx) {
        return Err(ProveError::PointsNotDistinct);
    }
    let t_poly = interpolate_polynomial(&tx, &ty);
    proof {
        assert(trace_evals(t_poly.vals()));
    }
    let com_t = match kzg_commit(&setup.gp, &t_poly) {
        Ok(c) => c,
        Err(_) => {
            proof {
                assert(false);
            }
            return Err(ProveError::TraceDegenerate);
        },
    };
    // part 2: the inputs are encoded correctly
    let mut in_x: Vec<Scalar> = Vec::new();
    in_x.push(omega[11]);
    in_x.push(omega[10]);
    let mut in_y: Vec<Scalar> = Vec::new();
    in_y.push(Scalar::from_u64(5));
    in_y.push(Scalar::from_u64(6));
    proof {
        assert(svals(in_x@)[0] == omega@[11].val());
        assert(svals(in_x@)[1] == omega@[10].val());
        assert(svals(in_x@) =~= input_roots());
    }
    if !all_distinct(&in_x) {
        return Err(ProveError::PointsNotDistinct);
    }
    let v_poly = interpolate_polynomial(&in_x, &in_y);
    let t_minus_v = poly_sub(&t_poly, &v_poly);
    let q2 = compute_q_zero_test_from_roots(&in_x, &t_minus_v);
    let com_v = match kzg_commit(&setup.gp, &v_poly) {
        Ok(c) => c,
        Err(_) => {
            proof {
                assert(false);
            }
            return Err(ProveError::TraceDegenerate);
        },
    };
    let com_t_minus_v = g1_sub(&com_t, &com_v);
    let mut ch_input: Vec<G1Point> = Vec::new();
    ch_input.push(com_t_minus_v.dup());
    let r2 = derive_challenge_from_commitments(&ch_input);
    proof {
        // capacity: T - v has at most 12 coefficients, its quotient fewer
        crate::algebra::lemma_ptrim_canonical(
            crate::algebra::psub(t_poly.vals(), v_poly.vals()),
        );
        assert(t_minus_v.vals().len() <= 12);
    }
    let proof_t_minus_v_zero = prove_zero_test(&setup.gp, &t_minus_v, &q2, &r2);
    // part 3: the gates are computed correctly
    let w1 = omega[1];
    let t1_gate = compute_t1_T_S_zero_test(&w1, &t_poly, &proving_key.S);
    let mut gate_x: Vec<Scalar> = Vec::new();
    gate_x.push(omega[0]);
    gate_x.push(omega[3]);
    gate_x.push(omega[6]);
    let q3 = compute_q_zero_test_from_roots(&gate_x, &t1_gate);
    proof {
        // capacity: the selector and the trace are nonzero polynomials, so
        // the constraint polynomial has at most 25 coefficients and its
        // quotient by the three anchors at most 22
        assert(proving_key.S.vals().len() >= 1) by {
            if proving_key.S.vals().len() == 0 {
                assert(peval(proving_key.S.vals(), omega12(0)) == 0);
            }
        }
        assert(t_poly.vals().len() >= 1) by {
            if t_poly.vals().len() == 0 {
                assert(peval(t_poly.vals(), omega12(11)) == 0);
            }
        }
        assert(t1_gate.vals().len() <= 25);
        assert(q3.vals().len() <= 22);
    }
    let mut ch_gates: Vec<G1Point> = Vec::new();
    ch_gates.push(com_t.dup());
    ch_gates.push(verification_key.com_S.dup());
    let r3 = derive_challenge_from_commitments(&ch_gates);
    let proof_t_s_zero = prove_T_S_zero_test(&setup.gp, &w1, &q3, &t_poly, &proving_key.S, &r3);
    // part 4: the wiring is respected
    let mut ch_wiring: Vec<G1Point> = Vec::new();
    ch_wiring.push(com_t.dup());
    ch_wiring.push(verification_key.com_W.dup());
    let challenges = derive_multiple_challenges_from_commitments(&ch_wiring, 3);
    let r4 = challenges[0];
    let s4 = challenges[1];
    let rp4 = challenges[2];
    if t_poly.len() < 12 {
        proof {
            let tv = t_poly.vals();
            assert(canonical(tv) && trace_evals(tv) && tv.len() < 12);
        }
        return Err(ProveError::TraceDegenerate);
    }
    let (t4, t14) = match compute_t_and_t1_prescribed_permutation_check(
        &omega,
        &t_poly,
        &t_poly,
        &proving_key.W,
        &r4,
        &s4,
    ) {
        Ok(tt) => tt,
        Err(e) => {
            proof {
                assert(svals(omega@) =~= omega_family());
                assert(reps_of(ch_wiring@) =~= seq![
                    commit_of(setup.gp.srs(), t_poly.vals()),
                    verification_key.com_W.rep(),
                ]);
                if e == ProtocolError::ZeroDenominator {
                    let tv = t_poly.vals();
                    let i = choose|i: int|
                        0 <= i < omega@.len() && #[trigger] perm_den(
                            r4.val(),
                            s4.val(),
                            tv,
                            svals(omega@),
                            i,
                        ) == 0;
                    assert(canonical(tv) && tv.len() <= 12 && trace_evals(tv) && 0 <= i < 12
                        && wiring_denominator_zero(
                        setup.gp.srs(),
                        verification_key.com_W.rep(),
                        tv,
                        i,
                    ));
                } else {
                    assert(e == ProtocolError::PointsNotDistinct);
                    assert(!distinct_vals(omega_family()));
                }
            }
            return Err(
                match e {
                    ProtocolError::ZeroDenominator => ProveError::ZeroDenominator,
                    _ => ProveError::PointsNotDistinct,
                },
            );
        },
    };
    let q4 = compute_q_zero_test(12, &t14);
    proof {
        // capacity: the running polynomial stays within the trace degree
        // and the quotient within the reference string
        assert(t4.vals().len() <= 12);
        assert(t14.vals().len() <= 23);
        assert(q4.vals().len() <= 11);
    }
    let proof_perm = prove_prescribed_permutation_check(
        &setup.gp,
        &w1,
        12,
        &t4,
        &q4,
        &t_poly,
        &t_poly,
        &proving_key.W,
        &rp4,
    );
    // part 5: the output wire opens to the claimed output
    let (v5, proof_last_gate) = kzg_evaluate(&setup.gp, &t_poly, &omega[8]);
    proof {
        assert(v5.val() == 77);
    }
    let output = Scalar::from_u64(77);
    let mut pub_inputs: Vec<Scalar> = Vec::new();
    pub_inputs.push(Scalar::from_u64(5));
    pub_inputs.push(Scalar::from_u64(6));
    let p = Proof {
        pub_inputs,
        output,
        com_T: com_t,
        proof_T_minus_v_zero: proof_t_minus_v_zero,
        proof_T_S_zero: proof_t_s_zero,
        proof_T_W_prescribed_permutation: proof_perm,
        proof_last_gate_KZG: proof_last_gate,
    };
    proof {
        let tv = t_poly.vals();
        assert(canonical(tv));
        assert(svals(p.pub_inputs@)[0] == 5);
        assert(svals(p.pub_inputs@)[1] == 6);
    }
    Ok(p)
}

} // verus!
