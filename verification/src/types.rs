//! The shared protocol vocabulary: terminals, module parameters, workspace
//! snapshots and the per-tick performance record.

use vstd::prelude::*;

verus! {

/// The two states of a constant gate generator.
#[derive(Clone, Copy, PartialEq, Eq, Structural, Debug)]
pub enum GateState {
    Open,
    Closed,
}

/// The signal type a terminal carries.
#[derive(Clone, Copy, PartialEq, Eq, Structural, Debug)]
pub enum LineType {
    Mono,
}

/// A typed input or output port on a module, with an optional
/// human-readable label.
#[derive(Clone, Debug)]
pub struct Terminal {
    pub line_type: LineType,
    pub label: Option<String>,
}

impl LineType {
    /// A terminal of this line type with no label.
    pub fn unlabeled(self) -> (t: Terminal)
        ensures
            t.line_type == self,
            t.label is None,
    {
        Terminal { line_type: self, label: None }
    }
}

/// Port arity of a native plugin as reported by the plugin host after a
/// successful load.  Loading itself happens outside the engine; only the
/// resulting arity enters the graph.
#[derive(Clone, Copy, PartialEq, Eq, Structural, Debug)]
pub struct PluginInfo {
    pub inputs: usize,
    pub outputs: usize,
}

/// The externally visible, serializable configuration of one module.
/// A native-plugin module declares no parameters of its own: its
/// configuration is implicit in the fixed plugin path.
#[derive(Clone, Copy, PartialEq, Eq, Structural, Debug)]
pub enum ModuleParams {
    Gate(GateState),
    Vst,
}

/// One module as it appears in a workspace snapshot.
#[derive(Clone, Copy, PartialEq, Eq, Structural, Debug)]
pub struct SavedModule {
    pub id: u64,
    pub params: ModuleParams,
}

/// One connection as it appears in a workspace snapshot, by module id and
/// terminal index.
#[derive(Clone, Copy, PartialEq, Eq, Structural, Debug)]
pub struct SavedConnection {
    pub src_id: u64,
    pub src_output: u64,
    pub dst_id: u64,
    pub dst_input: u64,
}

/// The full serializable snapshot of the module graph: every live engine
/// state can be reconstructed from the last emitted one.
pub struct WorkspaceState {
    pub modules: Vec<SavedModule>,
    pub connections: Vec<SavedConnection>,
}

impl WorkspaceState {
    /// A deep copy; the snapshot types own no shared state.
    pub fn duplicate(&self) -> (r: WorkspaceState)
        ensures
            r.modules@ == self.modules@,
            r.connections@ == self.connections@,
    {
        let mut modules: Vec<SavedModule> = Vec::new();
        let mut i: usize = 0;
        while i < self.modules.len()
            invariant
                i <= self.modules@.len(),
                modules@ == self.modules@.subrange(0, i as int),
            decreases self.modules@.len() - i,
        {
            modules.push(self.modules[i]);
            i += 1;
        }
        let mut connections: Vec<SavedConnection> = Vec::new();
        let mut j: usize = 0;
        while j < self.connections.len()
            invariant
                j <= self.connections@.len(),
                connections@ == self.connections@.subrange(0, j as int),
            decreases self.connections@.len() - j,
        {
            connections.push(self.connections[j]);
            j += 1;
        }
        proof {
            assert(modules@ =~= self.modules@);
            assert(connections@ =~= self.connections@);
        }
        WorkspaceState { modules, connections }
    }
}

impl Default for WorkspaceState {
    /// The empty workspace used when no snapshot has been persisted yet.
    fn default() -> (r: WorkspaceState)
        ensures
            r.modules@.len() == 0,
            r.connections@.len() == 0,
    {
        WorkspaceState { modules: Vec::new(), connections: Vec::new() }
    }
}

/// The per-tick timing record emitted on the best-effort telemetry feed.
#[derive(Clone, Copy, PartialEq, Eq, Structural, Debug)]
pub struct PerformanceInfo {
    pub tick: u64,
    pub elapsed_micros: u64,
}

} // verus!
