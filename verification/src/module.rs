//! The closed set of module variants and the uniform execution contract the
//! scheduler drives them through: configure, poll, and run one tick.

use vstd::prelude::*;

use crate::gate::{gate_value, Gate};
use crate::types::{GateState, ModuleParams, PluginInfo};
use crate::vst::Vst;
use crate::{Sample, BLOCK_SIZE};

verus! {

/// One live module instance of any variant.
pub enum AnyModule {
    Gate(Gate),
    Vst(Vst),
}

impl AnyModule {
    /// The serializable configuration this instance carries.
    pub open spec fn spec_params(&self) -> ModuleParams {
        match self {
            AnyModule::Gate(g) => ModuleParams::Gate(g.spec_params()),
            AnyModule::Vst(_) => ModuleParams::Vst,
        }
    }

    pub open spec fn spec_input_count(&self) -> nat {
        match self {
            AnyModule::Gate(_) => 0,
            AnyModule::Vst(v) => v.spec_input_count(),
        }
    }

    pub open spec fn spec_output_count(&self) -> nat {
        match self {
            AnyModule::Gate(_) => 1,
            AnyModule::Vst(v) => v.spec_output_count(),
        }
    }

    pub open spec fn is_gate(&self) -> bool {
        self is Gate
    }

    /// The state of a gate instance.
    pub open spec fn spec_gate_state(&self) -> GateState
        recommends
            self.is_gate(),
    {
        self->Gate_0.spec_params()
    }

    /// Constructs a fresh instance from a configuration value.  For a
    /// native-plugin module the host has already loaded the plugin; `plugin`
    /// is the arity it reported, ignored by every other variant.
    pub fn create(params: ModuleParams, plugin: PluginInfo) -> (r: (AnyModule, ()))
        ensures
            r.0.spec_params() == params,
            params matches ModuleParams::Vst ==> r.0.spec_input_count() == plugin.inputs
                && r.0.spec_output_count() == plugin.outputs,
    {
        match params {
            ModuleParams::Gate(state) => {
                let (g, _ind) = Gate::create(state);
                (AnyModule::Gate(g), ())
            },
            ModuleParams::Vst => {
                let (v, _ind) = Vst::create(plugin);
                (AnyModule::Vst(v), ())
            },
        }
    }

    /// The current configuration snapshot (pure read).
    pub fn params(&self) -> (r: ModuleParams)
        ensures
            r == self.spec_params(),
    {
        match self {
            AnyModule::Gate(g) => ModuleParams::Gate(g.params()),
            AnyModule::Vst(_) => ModuleParams::Vst,
        }
    }

    /// Replaces the configuration.  A structurally incompatible value (a
    /// different variant) rebuilds the instance from scratch; a native-plugin
    /// module rebuilds around the freshly reported arity either way.
    pub fn update(&mut self, params: ModuleParams, plugin: PluginInfo) -> (r: Option<()>)
        ensures
            final(self).spec_params() == params,
            params matches ModuleParams::Vst ==> final(self).spec_input_count() == plugin.inputs
                && final(self).spec_output_count() == plugin.outputs,
            params matches ModuleParams::Gate(_) ==> final(self).spec_input_count() == 0
                && final(self).spec_output_count() == 1,
            r is None,
    {
        match (&mut *self, params) {
            (AnyModule::Gate(g), ModuleParams::Gate(state)) => g.update(state),
            (AnyModule::Vst(v), ModuleParams::Vst) => v.update(plugin),
            _ => {
                let (m, _ind) = AnyModule::create(params, plugin);
                *self = m;
                None
            },
        }
    }

    pub fn input_count(&self) -> (n: usize)
        ensures
            n == self.spec_input_count(),
    {
        match self {
            AnyModule::Gate(g) => g.input_count(),
            AnyModule::Vst(v) => v.input_count(),
        }
    }

    pub fn output_count(&self) -> (n: usize)
        ensures
            n == self.spec_output_count(),
    {
        match self {
            AnyModule::Gate(g) => g.output_count(),
            AnyModule::Vst(v) => v.output_count(),
        }
    }

    /// Runs one tick: one optional input block per input terminal comes in,
    /// and every output terminal leaves with a block of exactly
    /// [`BLOCK_SIZE`] samples — silence is written explicitly, never left
    /// implicit.  A gate's blocks hold exactly its constant value.
    pub fn run_tick(&mut self, t: u64, inputs: &Vec<Option<Vec<Sample>>>) -> (r: (
        Vec<Vec<Sample>>,
        Option<()>,
    ))
        requires
            inputs@.len() == old(self).spec_input_count(),
        ensures
            final(self).spec_params() == old(self).spec_params(),
            final(self).spec_input_count() == old(self).spec_input_count(),
            final(self).spec_output_count() == old(self).spec_output_count(),
            r.0@.len() == old(self).spec_output_count(),
            forall|o: int| 0 <= o < r.0@.len() ==> (#[trigger] r.0@[o])@.len() == BLOCK_SIZE as nat,
            old(self).is_gate() ==> forall|o: int, i: int|
                0 <= o < r.0@.len() && 0 <= i < r.0@[o]@.len() ==> r.0@[o]@[i] == gate_value(
                    old(self).spec_gate_state(),
                ),
            r.1 is None,
    {
        match self {
            AnyModule::Gate(g) => g.run_tick(t, inputs),
            AnyModule::Vst(v) => v.run_tick(t, inputs),
        }
    }
}

} // verus!
