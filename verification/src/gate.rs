//! The constant-gate generator: zero inputs, one output, and a block of
//! constant samples every tick.

use vstd::prelude::*;

use crate::types::GateState;
use crate::{Sample, BLOCK_SIZE, SAMPLE_UNIT};

verus! {

/// The sample value a gate writes on every tick: full scale while open,
/// silence while closed.
pub open spec fn gate_value(s: GateState) -> Sample {
    match s {
        GateState::Open => SAMPLE_UNIT,
        GateState::Closed => 0,
    }
}

/// A pure generator module: its whole per-tick output is fixed by its
/// two-state parameter.
pub struct Gate {
    params: GateState,
}

impl Gate {
    /// The current configuration.
    pub closed spec fn spec_params(&self) -> GateState {
        self.params
    }

    pub fn create(params: GateState) -> (r: (Gate, ()))
        ensures
            r.0.spec_params() == params,
    {
        (Gate { params }, ())
    }

    pub fn params(&self) -> (r: GateState)
        ensures
            r == self.spec_params(),
    {
        self.params
    }

    /// Replaces the configuration.  A gate's externally visible status never
    /// changes, so no indication is emitted.
    pub fn update(&mut self, new_params: GateState) -> (r: Option<()>)
        ensures
            final(self).spec_params() == new_params,
            r is None,
    {
        self.params = new_params;
        None
    }

    /// Fills the single output terminal with a full block of the constant
    /// gate value.  An unchanged tick emits no indication.
    pub fn run_tick(&mut self, _t: u64, _inputs: &Vec<Option<Vec<Sample>>>) -> (r: (
        Vec<Vec<Sample>>,
        Option<()>,
    ))
        ensures
            *final(self) == *old(self),
            r.0@.len() == 1,
            r.0@[0]@.len() == BLOCK_SIZE as nat,
            forall|i: int|
                0 <= i < r.0@[0]@.len() ==> r.0@[0]@[i] == gate_value(old(self).spec_params()),
            r.1 is None,
    {
        let value: Sample = match self.params {
            GateState::Open => SAMPLE_UNIT,
            GateState::Closed => 0,
        };
        let mut block: Vec<Sample> = Vec::new();
        let mut i: usize = 0;
        while i < BLOCK_SIZE
            invariant
                i <= BLOCK_SIZE,
                block@.len() == i as nat,
                value == gate_value(old(self).spec_params()),
                forall|j: int| 0 <= j < i ==> block@[j] == gate_value(old(self).spec_params()),
                *self == *old(self),
            decreases BLOCK_SIZE - i,
        {
            block.push(value);
            i += 1;
        }
        let mut outputs: Vec<Vec<Sample>> = Vec::new();
        outputs.push(block);
        (outputs, None)
    }

    pub fn input_count(&self) -> (n: usize)
        ensures
            n == 0,
    {
        0
    }

    pub fn output_count(&self) -> (n: usize)
        ensures
            n == 1,
    {
        1
    }
}

} // verus!
