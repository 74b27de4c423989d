//! Setup of the proving key: the selector and wiring polynomials of the
//! fixed toy circuit.
//!
//! The selector takes value 1 on the anchors of the two addition gates and
//! 0 on the anchor of the multiplication.  The wiring polynomial encodes
//! the copy constraints as a permutation of the evaluation domain.

use vstd::prelude::*;
use crate::domain::construct_Omega;
use crate::field::{field_q, Scalar};
use crate::interpolate::interpolate_polynomial;
use crate::poly::{all_wf, svals, Poly};
use crate::protocols::ProtocolError;
use crate::interpolate::distinct_vals;
use crate::setup_global_params::{gate_roots, omega12, wiring_domain, SetupGlobalParamsOutput};
use crate::algebra::peval;

verus! {

/// The proving key: the selector polynomial `S` and the wiring polynomial
/// `W`.
#[allow(non_snake_case)]
pub struct SetupProvingKeyOutput {
    pub S: Poly,
    pub W: Poly,
}

impl SetupProvingKeyOutput {
    /// What the fixed circuit demands of the key: the selector marks the
    /// kinds of the gates on the anchors of the gates, and the wiring polynomial realizes
    /// the copy-constraint permutation of the domain.
    pub open spec fn wf(self) -> bool {
        &&& self.S.wf()
        &&& self.W.wf()
        &&& self.S.vals().len() <= 3
        &&& self.W.vals().len() <= 12
        &&& peval(self.S.vals(), omega12(0)) == 1
        &&& peval(self.S.vals(), omega12(3)) == 1
        &&& peval(self.S.vals(), omega12(6)) == 0
        &&& peval(self.W.vals(), omega12(10)) == omega12(1)
        &&& peval(self.W.vals(), omega12(1)) == omega12(3)
        &&& peval(self.W.vals(), omega12(3)) == omega12(10)
        &&& peval(self.W.vals(), omega12(11)) == omega12(0)
        &&& peval(self.W.vals(), omega12(0)) == omega12(11)
        &&& peval(self.W.vals(), omega12(2)) == omega12(6)
        &&& peval(self.W.vals(), omega12(6)) == omega12(2)
        &&& peval(self.W.vals(), omega12(9)) == omega12(4)
        &&& peval(self.W.vals(), omega12(4)) == omega12(9)
        &&& peval(self.W.vals(), omega12(5)) == omega12(7)
        &&& peval(self.W.vals(), omega12(7)) == omega12(5)
        &&& peval(self.W.vals(), omega12(8)) == omega12(8)
    }
}

/// Derives the proving key from the setup by interpolation over the
/// evaluation domain.  Succeeds whenever the domain is closed and its
/// points are distinct; each error names the exact condition that failed.
pub fn run(setup: &SetupGlobalParamsOutput) -> (r: Result<SetupProvingKeyOutput, ProtocolError>)
    requires
        setup.wf(),
    ensures
        match r {
            Ok(pk) => pk.wf(),
            Err(e) => {
                ||| (e == ProtocolError::DomainNotClosed && crate::field::pow_mod(
                    crate::domain::omega_of(12),
                    12,
                ) != 1)
                ||| (e == ProtocolError::PointsNotDistinct && (!distinct_vals(gate_roots())
                    || !distinct_vals(wiring_domain())))
            },
        },
{
    proof {
        assert((field_q() - 1) % 12 == 0);
    }
    let omega = match construct_Omega(setup.d) {
        Ok(o) => o,
        Err(_) => {
            proof {
                assert(setup.d as nat == 12nat);
            }
            return Err(ProtocolError::DomainNotClosed);
        },
    };
    proof {
        assert(setup.d == 12);
        assert forall|i: int| 0 <= i < 12 implies (#[trigger] omega@[i]).wf() && omega@[i].val()
            == omega12(i as nat) by {
            assert(svals(omega@)[i] == crate::field::pow_mod(
                crate::domain::omega_of(setup.d as nat),
                i as nat,
            ));
            assert(svals(omega@)[i] == omega@[i].val());
            assert(setup.d as nat == 12nat);
        }
    }
    // the selector over the anchors of the gates
    let mut gate_x: Vec<Scalar> = Vec::new();
    gate_x.push(omega[0]);
    gate_x.push(omega[3]);
    gate_x.push(omega[6]);
    let mut gate_y: Vec<Scalar> = Vec::new();
    gate_y.push(Scalar::one());
    gate_y.push(Scalar::one());
    gate_y.push(Scalar::zero());
    proof {
        assert(svals(gate_x@)[0] == omega@[0].val());
        assert(svals(gate_x@)[1] == omega@[3].val());
        assert(svals(gate_x@)[2] == omega@[6].val());
        assert(svals(gate_x@) =~= gate_roots());
        assert(svals(gate_y@)[0] == 1);
        assert(svals(gate_y@)[1] == 1);
        assert(svals(gate_y@)[2] == 0);
    }
    if !crate::protocols::all_distinct(&gate_x) {
        return Err(ProtocolError::PointsNotDistinct);
    }
    let s_poly = interpolate_polynomial(&gate_x, &gate_y);
    // the wiring permutation
    let mut wx: Vec<Scalar> = Vec::new();
    wx.push(omega[10]);
    wx.push(omega[1]);
    wx.push(omega[3]);
    wx.push(omega[11]);
    wx.push(omega[0]);
    wx.push(omega[2]);
    wx.push(omega[6]);
    wx.push(omega[9]);
    wx.push(omega[4]);
    wx.push(omega[5]);
    wx.push(omega[7]);
    wx.push(omega[8]);
    let mut wy: Vec<Scalar> = Vec::new();
    wy.push(omega[1]);
    wy.push(omega[3]);
    wy.push(omega[10]);
    wy.push(omega[0]);
    wy.push(omega[11]);
    wy.push(omega[6]);
    wy.push(omega[2]);
    wy.push(omega[4]);
    wy.push(omega[9]);
    wy.push(omega[7]);
    wy.push(omega[5]);
    wy.push(omega[8]);
    let ghost xsv = svals(wx@);
    let ghost ysv = svals(wy@);
    proof {
        assert(xsv[0] == omega@[10].val() && ysv[0] == omega@[1].val());
        assert(xsv[1] == omega@[1].val() && ysv[1] == omega@[3].val());
        assert(xsv[2] == omega@[3].val() && ysv[2] == omega@[10].val());
        assert(xsv[3] == omega@[11].val() && ysv[3] == omega@[0].val());
        assert(xsv[4] == omega@[0].val() && ysv[4] == omega@[11].val());
        assert(xsv[5] == omega@[2].val() && ysv[5] == omega@[6].val());
        assert(xsv[6] == omega@[6].val() && ysv[6] == omega@[2].val());
        assert(xsv[7] == omega@[9].val() && ysv[7] == omega@[4].val());
        assert(xsv[8] == omega@[4].val() && ysv[8] == omega@[9].val());
        assert(xsv[9] == omega@[5].val() && ysv[9] == omega@[7].val());
        assert(xsv[10] == omega@[7].val() && ysv[10] == omega@[5].val());
        assert(xsv[11] == omega@[8].val() && ysv[11] == omega@[8].val());
        assert(xsv =~= wiring_domain());
        assert(xsv[0] == omega12(10) && ysv[0] == omega12(1));
        assert(xsv[1] == omega12(1) && ysv[1] == omega12(3));
        assert(xsv[2] == omega12(3) && ysv[2] == omega12(10));
        assert(xsv[3] == omega12(11) && ysv[3] == omega12(0));
        assert(xsv[4] == omega12(0) && ysv[4] == omega12(11));
        assert(xsv[5] == omega12(2) && ysv[5] == omega12(6));
        assert(xsv[6] == omega12(6) && ysv[6] == omega12(2));
        assert(xsv[7] == omega12(9) && ysv[7] == omega12(4));
        assert(xsv[8] == omega12(4) && ysv[8] == omega12(9));
        assert(xsv[9] == omega12(5) && ysv[9] == omega12(7));
        assert(xsv[10] == omega12(7) && ysv[10] == omega12(5));
        assert(xsv[11] == omega12(8) && ysv[11] == omega12(8));
    }
    if !crate::protocols::all_distinct(&wx) {
        return Err(ProtocolError::PointsNotDistinct);
    }
    let w_poly = interpolate_polynomial(&wx, &wy);
    Ok(SetupProvingKeyOutput { S: s_poly, W: w_poly })
}

/// The proving key in its persistence shape: the coefficients of `S` and
/// `W` as decimal strings.  The encoding itself lives outside the core.
#[allow(non_snake_case)]
pub struct SetupProvingKeyOutputJson {
    pub S: Vec<String>,
    pub W: Vec<String>,
}

} // verus!
