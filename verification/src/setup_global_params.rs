//! Setup of the global parameters for the fixed toy circuit.
//!
//! The circuit has three gates (two additions, one multiplication), two
//! public inputs and one witness, so the evaluation domain has order
//! `3*3 + 2 + 1 = 12`; the reference string is sized for the largest
//! polynomial committed anywhere in the pipeline, of degree 21.

use vstd::prelude::*;
use crate::domain::omega_of;
use crate::field::pow_mod;
use crate::kzg::{kzg_setup, srs_shape, GlobalParameters};

verus! {

/// The power `i` of the order-12 subgroup generator: the anchors of the
/// toy circuit's evaluation domain.
pub open spec fn omega12(i: nat) -> int {
    pow_mod(omega_of(12), i)
}

/// The whole evaluation domain, in generator order.
pub open spec fn omega_family() -> Seq<int> {
    Seq::new(12, |i: int| omega12(i as nat))
}

/// The anchors of the three gates.
pub open spec fn gate_roots() -> Seq<int> {
    seq![omega12(0), omega12(3), omega12(6)]
}

/// The positions of the two public inputs.
pub open spec fn input_roots() -> Seq<int> {
    seq![omega12(11), omega12(10)]
}

/// The domain points of the wiring interpolation, in the order the key
/// setup feeds them.
pub open spec fn wiring_domain() -> Seq<int> {
    seq![
        omega12(10),
        omega12(1),
        omega12(3),
        omega12(11),
        omega12(0),
        omega12(2),
        omega12(6),
        omega12(9),
        omega12(4),
        omega12(5),
        omega12(7),
        omega12(8),
    ]
}

/// The domain points of the trace interpolation, in the order the prover
/// feeds them: input and witness positions first, then the wires of the
/// gates.
pub open spec fn trace_domain() -> Seq<int> {
    seq![
        omega12(11),
        omega12(10),
        omega12(9),
        omega12(0),
        omega12(1),
        omega12(2),
        omega12(3),
        omega12(4),
        omega12(5),
        omega12(6),
        omega12(7),
        omega12(8),
    ]
}

/// The sizes of the fixed circuit together with its reference string.
pub struct SetupGlobalParamsOutput {
    pub number_gates: usize,
    pub number_public_inputs: usize,
    pub number_witnesses: usize,
    pub d: usize,
    pub gp: GlobalParameters,
}

impl SetupGlobalParamsOutput {
    /// The shape every stage of the fixed-circuit pipeline relies on.
    pub open spec fn wf(self) -> bool {
        &&& self.number_gates == 3
        &&& self.number_public_inputs == 2
        &&& self.number_witnesses == 1
        &&& self.d == 12
        &&& self.gp.wf()
        &&& self.gp.srs().len() == 22
    }
}

/// Runs the setup stage: fixes the circuit sizes and generates the
/// reference string for degree 21.
pub fn run() -> (r: SetupGlobalParamsOutput)
    ensures
        r.wf(),
        srs_shape(r.gp, 21),
{
    let number_gates: usize = 3;
    let number_public_inputs: usize = 2;
    let number_witnesses: usize = 1;
    let d = 3 * number_gates + number_public_inputs + number_witnesses;
    let gp = kzg_setup(21);
    SetupGlobalParamsOutput { number_gates, number_public_inputs, number_witnesses, d, gp }
}

} // verus!
