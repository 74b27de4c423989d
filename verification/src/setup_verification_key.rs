//! Setup of the verification key: the commitments to the selector and
//! wiring polynomials.

use vstd::prelude::*;
use crate::algebra::{canonical, peval};
use crate::group::G1Point;
use crate::kzg::{commit_of, kzg_commit};
use crate::protocols::ProtocolError;
use crate::setup_global_params::{omega12, SetupGlobalParamsOutput};

verus! {

/// The verification key: commitments to `S` and `W`.
#[allow(non_snake_case)]
pub struct SetupVerificationKeyOutput {
    pub com_S: G1Point,
    pub com_W: G1Point,
}

impl SetupVerificationKeyOutput {
    pub open spec fn wf(self) -> bool {
        self.com_S.wf() && self.com_W.wf()
    }
}

/// What the verification key commits to: some selector polynomial with
/// the selector markings and some wiring polynomial realizing the
/// copy-constraint permutation.
pub open spec fn vk_commits(vk: SetupVerificationKeyOutput, srs: Seq<Seq<u8>>) -> bool {
    &&& exists|sv: Seq<int>|
        {
            &&& canonical(sv)
            &&& sv.len() <= 3
            &&& peval(sv, omega12(0)) == 1
            &&& peval(sv, omega12(3)) == 1
            &&& peval(sv, omega12(6)) == 0
            &&& vk.com_S.rep() == commit_of(srs, sv)
        }
    &&& exists|wv: Seq<int>|
        {
            &&& canonical(wv)
            &&& wv.len() <= 12
            &&& peval(wv, omega12(10)) == omega12(1)
            &&& peval(wv, omega12(1)) == omega12(3)
            &&& peval(wv, omega12(3)) == omega12(10)
            &&& peval(wv, omega12(11)) == omega12(0)
            &&& peval(wv, omega12(0)) == omega12(11)
            &&& peval(wv, omega12(2)) == omega12(6)
            &&& peval(wv, omega12(6)) == omega12(2)
            &&& peval(wv, omega12(9)) == omega12(4)
            &&& peval(wv, omega12(4)) == omega12(9)
            &&& peval(wv, omega12(5)) == omega12(7)
            &&& peval(wv, omega12(7)) == omega12(5)
            &&& peval(wv, omega12(8)) == omega12(8)
            &&& vk.com_W.rep() == commit_of(srs, wv)
        }
}

/// Derives the verification key: re-derives the proving key and commits
/// to its two polynomials.  The error conditions are the proving-key
/// stage's, carried through.
pub fn run(setup: &SetupGlobalParamsOutput) -> (r: Result<
    SetupVerificationKeyOutput,
    ProtocolError,
>)
    requires
        setup.wf(),
    ensures
        match r {
            Ok(vk) => vk.wf() && vk_commits(vk, setup.gp.srs()),
            Err(e) => {
                ||| (e == ProtocolError::DomainNotClosed && crate::field::pow_mod(
                    crate::domain::omega_of(12),
                    12,
                ) != 1)
                ||| (e == ProtocolError::PointsNotDistinct && (!crate::interpolate::distinct_vals(
                    crate::setup_global_params::gate_roots(),
                ) || !crate::interpolate::distinct_vals(
                    crate::setup_global_params::wiring_domain(),
                )))
            },
        },
{
    let pk = match crate::setup_proving_key::run(setup) {
        Ok(pk) => pk,
        Err(e) => {
            return Err(e);
        },
    };
    let com_S = match kzg_commit(&setup.gp, &pk.S) {
        Ok(c) => c,
        Err(_) => {
            proof {
                assert(false);
            }
            crate::group::g1_gen_mul(&crate::field::Scalar::zero())
        },
    };
    let com_W = match kzg_commit(&setup.gp, &pk.W) {
        Ok(c) => c,
        Err(_) => {
            proof {
                assert(false);
            }
            crate::group::g1_gen_mul(&crate::field::Scalar::zero())
        },
    };
    let vk = SetupVerificationKeyOutput { com_S, com_W };
    proof {
        let sv = pk.S.vals();
        let wv = pk.W.vals();
        assert(vk_commits(vk, setup.gp.srs()));
    }
    Ok(vk)
}

/// The verification key in its persistence shape: hex-encoded compressed
/// commitments.  The encoding itself lives outside the core.
#[allow(non_snake_case)]
pub struct SetupVerificationKeyOutputJson {
    pub com_S: String,
    pub com_W: String,
}

} // verus!
