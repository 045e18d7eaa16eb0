//! The native-plugin adapter module.  The plugin binary is loaded by the
//! host outside the engine; only the arity it reports enters the graph, so
//! the port topology is data-dependent and fixed anew on every (re)build.
//! Per-tick work never loads anything; until real routing through the plugin
//! is wired up, every output terminal is filled with explicit silence.

use vstd::prelude::*;

use crate::types::{LineType, PluginInfo, Terminal};
use crate::{Sample, BLOCK_SIZE};

verus! {

/// Every terminal of this port set is a mono line with no label.
pub open spec fn all_mono_unlabeled(s: Seq<Terminal>) -> bool {
    forall|i: int|
        0 <= i < s.len() ==> (#[trigger] s[i]).line_type == LineType::Mono && s[i].label is None
}

/// A module whose terminals mirror the arity a loaded plugin reported.
pub struct Vst {
    inputs: Vec<Terminal>,
    outputs: Vec<Terminal>,
}

/// Builds one unlabeled mono terminal per reported port.
fn make_terminals(n: usize) -> (v: Vec<Terminal>)
    ensures
        v@.len() == n,
        all_mono_unlabeled(v@),
{
    let mut v: Vec<Terminal> = Vec::new();
    let mut i: usize = 0;
    while i < n
        invariant
            i <= n,
            v@.len() == i as nat,
            all_mono_unlabeled(v@),
        decreases n - i,
    {
        v.push(LineType::Mono.unlabeled());
        proof {
            assert(all_mono_unlabeled(v@));
        }
        i += 1;
    }
    v
}

/// One block of explicit silence.
fn silence_block() -> (b: Vec<Sample>)
    ensures
        b@.len() == BLOCK_SIZE as nat,
        forall|i: int| 0 <= i < b@.len() ==> b@[i] == 0,
{
    let mut b: Vec<Sample> = Vec::new();
    let mut i: usize = 0;
    while i < BLOCK_SIZE
        invariant
            i <= BLOCK_SIZE,
            b@.len() == i as nat,
            forall|j: int| 0 <= j < i ==> b@[j] == 0,
        decreases BLOCK_SIZE - i,
    {
        b.push(0);
        i += 1;
    }
    b
}

impl Vst {
    pub closed spec fn spec_inputs(&self) -> Seq<Terminal> {
        self.inputs@
    }

    pub closed spec fn spec_outputs(&self) -> Seq<Terminal> {
        self.outputs@
    }

    pub closed spec fn spec_input_count(&self) -> nat {
        self.inputs@.len()
    }

    pub closed spec fn spec_output_count(&self) -> nat {
        self.outputs@.len()
    }

    /// Builds a fresh adapter around a plugin the host has just loaded,
    /// initialized and resumed; `plugin` is the arity it reported.
    pub fn create(plugin: PluginInfo) -> (r: (Vst, ()))
        ensures
            r.0.spec_input_count() == plugin.inputs,
            r.0.spec_output_count() == plugin.outputs,
            all_mono_unlabeled(r.0.spec_inputs()),
            all_mono_unlabeled(r.0.spec_outputs()),
    {
        let vst = Vst { inputs: make_terminals(plugin.inputs), outputs: make_terminals(plugin.outputs) };
        (vst, ())
    }

    /// Reconfiguration fully rebuilds the adapter around a freshly loaded
    /// plugin, since the reported arity may have changed.
    pub fn update(&mut self, plugin: PluginInfo) -> (r: Option<()>)
        ensures
            final(self).spec_input_count() == plugin.inputs,
            final(self).spec_output_count() == plugin.outputs,
            all_mono_unlabeled(final(self).spec_inputs()),
            all_mono_unlabeled(final(self).spec_outputs()),
            r is None,
    {
        let (vst, _ind) = Vst::create(plugin);
        *self = vst;
        None
    }

    /// A native-plugin module declares no parameters of its own.
    pub fn params(&self) -> () {
        ()
    }

    /// Fills every output terminal with a full block of explicit silence.
    /// No loading happens here, and no indication is emitted.
    pub fn run_tick(&mut self, _t: u64, inputs: &Vec<Option<Vec<Sample>>>) -> (r: (
        Vec<Vec<Sample>>,
        Option<()>,
    ))
        requires
            inputs@.len() == old(self).spec_input_count(),
        ensures
            *final(self) == *old(self),
            r.0@.len() == old(self).spec_output_count(),
            forall|o: int| 0 <= o < r.0@.len() ==> (#[trigger] r.0@[o])@.len() == BLOCK_SIZE as nat,
            forall|o: int, i: int|
                0 <= o < r.0@.len() && 0 <= i < r.0@[o]@.len() ==> r.0@[o]@[i] == 0,
            r.1 is None,
    {
        let mut outputs: Vec<Vec<Sample>> = Vec::new();
        let n = self.outputs.len();
        let mut o: usize = 0;
        while o < n
            invariant
                o <= n,
                outputs@.len() == o as nat,
                forall|k: int| 0 <= k < o ==> (#[trigger] outputs@[k])@.len() == BLOCK_SIZE as nat,
                forall|k: int, i: int|
                    0 <= k < o && 0 <= i < outputs@[k]@.len() ==> outputs@[k]@[i] == 0,
                *self == *old(self),
            decreases n - o,
        {
            outputs.push(silence_block());
            o += 1;
        }
        (outputs, None)
    }

    pub fn inputs(&self) -> (t: &Vec<Terminal>)
        ensures
            t@ == self.spec_inputs(),
            t@.len() == self.spec_input_count(),
    {
        &self.inputs
    }

    pub fn outputs(&self) -> (t: &Vec<Terminal>)
        ensures
            t@ == self.spec_outputs(),
            t@.len() == self.spec_output_count(),
    {
        &self.outputs
    }

    pub fn input_count(&self) -> (n: usize)
        ensures
            n == self.spec_input_count(),
    {
        self.inputs.len()
    }

    pub fn output_count(&self) -> (n: usize)
        ensures
            n == self.spec_output_count(),
    {
        self.outputs.len()
    }
}

} // verus!
