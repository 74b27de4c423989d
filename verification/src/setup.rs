//! The single-stage setup: circuit sizes and a reference string sized for
//! the evaluation domain itself.

use vstd::prelude::*;
use crate::kzg::{kzg_setup, srs_shape, GlobalParameters};

verus! {

/// The sizes of the fixed circuit together with a reference string for
/// polynomials of degree at most the domain order.
pub struct SetupOutput {
    pub number_gates: usize,
    pub number_public_inputs: usize,
    pub number_witnesses: usize,
    pub d: usize,
    pub gp: GlobalParameters,
}

impl SetupOutput {
    pub open spec fn wf(self) -> bool {
        &&& self.number_gates == 3
        &&& self.number_public_inputs == 2
        &&& self.number_witnesses == 1
        &&& self.d == 12
        &&& self.gp.wf()
        &&& self.gp.srs().len() == 13
    }
}

/// Runs the setup: fixes the circuit sizes and generates the reference
/// string for the domain order.
pub fn run() -> (r: SetupOutput)
    ensures
        r.wf(),
        srs_shape(r.gp, 12),
{
    let number_gates: usize = 3;
    let number_public_inputs: usize = 2;
    let number_witnesses: usize = 1;
    let d = 3 * number_gates + number_public_inputs + number_witnesses;
    let gp = kzg_setup(d);
    SetupOutput { number_gates, number_public_inputs, number_witnesses, d, gp }
}

/// The reference string in its persistence shape: hex-encoded compressed
/// points.  The encoding itself lives outside the core.
pub struct GlobalParametersJson {
    pub tau_powers_g1: Vec<String>,
    pub tau_g2: String,
}

/// The setup output in its persistence shape.
pub struct SetupOutputJson {
    pub number_gates: usize,
    pub number_public_inputs: usize,
    pub number_witnesses: usize,
    pub d: usize,
    pub gp: GlobalParametersJson,
}

} // verus!
