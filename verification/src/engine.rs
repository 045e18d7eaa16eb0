//! The tick-driven scheduler.  It owns the live module graph and advances it
//! one tick at a time: modules are kept in execution order, every connection
//! runs from an earlier module to a later one (which keeps the graph acyclic
//! by construction — a backward edge is rejected at edit time), and within a
//! tick each module's inputs are exactly the blocks its producers wrote this
//! same tick.

use vstd::prelude::*;

use crate::module::AnyModule;
use crate::gate::gate_value;
use crate::types::{ModuleParams, PluginInfo, SavedConnection, SavedModule, WorkspaceState};
use crate::{Sample, BLOCK_SIZE};

verus! {

/// A directed edge between two terminals, by position in the execution order.
#[derive(Clone, Copy, PartialEq, Eq, Structural, Debug)]
pub struct EngineConnection {
    pub src: usize,
    pub src_output: usize,
    pub dst: usize,
    pub dst_input: usize,
}

/// One module instance together with its stable identity.
pub struct ModuleSlot {
    pub id: u64,
    pub module: AnyModule,
}

/// Why a graph edit was rejected; the graph is left unchanged in every case.
#[derive(Clone, Copy, PartialEq, Eq, Structural, Debug)]
pub enum EditError {
    /// No module carries the given id.
    NoSuchModule,
    /// The terminal index is out of range for its module.
    BadTerminal,
    /// The input terminal already has a producer.
    InputInUse,
    /// The module still has connections and cannot leave the graph yet.
    ModuleInUse,
    /// Two saved modules carry the same id.
    DuplicateId,
    /// The edge would run against the execution order and could close a cycle.
    WouldCycle,
    /// Module identifiers are exhausted.
    IdsExhausted,
}

/// A connection is well formed when it runs forward in the execution order
/// and both terminal indices are in range.
pub open spec fn conn_wf(c: EngineConnection, ms: Seq<ModuleSlot>) -> bool {
    &&& (c.src as int) < (c.dst as int)
    &&& (c.dst as int) < ms.len()
    &&& (c.src_output as nat) < ms[c.src as int].module.spec_output_count()
    &&& (c.dst_input as nat) < ms[c.dst as int].module.spec_input_count()
}

/// Two connections collide when they feed the same input terminal.
pub open spec fn same_input(a: EngineConnection, b: EngineConnection) -> bool {
    a.dst == b.dst && a.dst_input == b.dst_input
}

/// Whether connection `c` feeds input terminal `i` of module `m`.
pub open spec fn feeds(c: EngineConnection, m: int, i: int) -> bool {
    c.dst as int == m && c.dst_input as int == i
}

/// Whether connection `c` starts or ends at module `m`.
pub open spec fn touches(c: EngineConnection, m: int) -> bool {
    c.src as int == m || c.dst as int == m
}

/// Whether every connection touching the module at `idx` still lands on a
/// terminal that exists under the given arity.
pub open spec fn conns_fit_arity(
    conns: Seq<EngineConnection>,
    idx: int,
    in_count: nat,
    out_count: nat,
) -> bool {
    forall|k: int|
        0 <= k < conns.len() ==> {
            let c = #[trigger] conns[k];
            &&& (c.src as int == idx ==> (c.src_output as nat) < out_count)
            &&& (c.dst as int == idx ==> (c.dst_input as nat) < in_count)
        }
}

/// How a connection's endpoints move when the module at `idx` (which the
/// connection does not touch) leaves the execution order.
pub open spec fn shift_conn(c: EngineConnection, idx: int) -> EngineConnection {
    EngineConnection {
        src: if c.src as int > idx { (c.src - 1) as usize } else { c.src },
        src_output: c.src_output,
        dst: if c.dst as int > idx { (c.dst - 1) as usize } else { c.dst },
        dst_input: c.dst_input,
    }
}

/// Identity and shape (parameters and arity) of a slot are untouched.
pub open spec fn slot_shape_preserved(a: ModuleSlot, b: ModuleSlot) -> bool {
    &&& b.id == a.id
    &&& b.module.spec_params() == a.module.spec_params()
    &&& b.module.spec_input_count() == a.module.spec_input_count()
    &&& b.module.spec_output_count() == a.module.spec_output_count()
}

/// What one tick hands back: for every module, the input block (or `None`,
/// for an unconnected terminal) it consumed per input terminal, and the block
/// it produced per output terminal, all from this same tick.
pub struct TickResult {
    pub inputs: Vec<Vec<Option<Vec<Sample>>>>,
    pub outputs: Vec<Vec<Vec<Sample>>>,
    pub tick: u64,
}

/// The scheduler: the live graph plus the tick counter.
pub struct Engine {
    modules: Vec<ModuleSlot>,
    connections: Vec<EngineConnection>,
    next_id: u64,
    tick: u64,
}

/// The input arity a module built from `p` will have.
pub open spec fn params_input_count(p: ModuleParams, plugin: PluginInfo) -> nat {
    match p {
        ModuleParams::Gate(_) => 0,
        ModuleParams::Vst => plugin.inputs as nat,
    }
}

/// The output arity a module built from `p` will have.
pub open spec fn params_output_count(p: ModuleParams, plugin: PluginInfo) -> nat {
    match p {
        ModuleParams::Gate(_) => 1,
        ModuleParams::Vst => plugin.outputs as nat,
    }
}

/// Whether some saved module carries `id`.
pub open spec fn saved_has_module(ms: Seq<SavedModule>, id: u64) -> bool {
    exists|i: int| 0 <= i < ms.len() && ms[i].id == id
}

/// The position of the saved module carrying `id` (unique when ids are).
pub open spec fn saved_index_of(ms: Seq<SavedModule>, id: u64) -> int {
    choose|i: int| 0 <= i < ms.len() && ms[i].id == id
}

/// Saved modules can seed a graph: ids are pairwise distinct and leave room
/// for the allocation counter.
pub open spec fn saved_modules_ok(ms: Seq<SavedModule>) -> bool {
    &&& forall|i: int, j: int|
        0 <= i < j < ms.len() ==> (#[trigger] ms[i]).id != (#[trigger] ms[j]).id
    &&& forall|i: int| 0 <= i < ms.len() ==> (#[trigger] ms[i]).id < u64::MAX
}

/// Saved connection `k` can be rebuilt, given every one before it: both ids
/// exist, the edge runs forward, the terminals exist on the arity the
/// parameters fix, and no earlier connection feeds the same input.
pub open spec fn saved_conn_ok(ws: WorkspaceState, plugin: PluginInfo, k: int) -> bool {
    let ms = ws.modules@;
    let s = ws.connections@[k];
    &&& saved_has_module(ms, s.src_id)
    &&& saved_has_module(ms, s.dst_id)
    &&& saved_index_of(ms, s.src_id) < saved_index_of(ms, s.dst_id)
    &&& s.src_output <= usize::MAX
    &&& s.dst_input <= usize::MAX
    &&& (s.src_output as nat) < params_output_count(
        ms[saved_index_of(ms, s.src_id)].params,
        plugin,
    )
    &&& (s.dst_input as nat) < params_input_count(ms[saved_index_of(ms, s.dst_id)].params, plugin)
    &&& forall|k2: int|
        0 <= k2 < k ==> !((#[trigger] ws.connections@[k2]).dst_id == s.dst_id
            && ws.connections@[k2].dst_input == s.dst_input)
}

/// Exactly the snapshots [`Engine::restore`] accepts.
pub open spec fn restorable(ws: WorkspaceState, plugin: PluginInfo) -> bool {
    &&& saved_modules_ok(ws.modules@)
    &&& forall|k: int| 0 <= k < ws.connections@.len() ==> saved_conn_ok(ws, plugin, k)
}

/// Whether a snapshot can be rebuilt depends only on its content.
pub proof fn lemma_restorable_depends_on_views(
    a: WorkspaceState,
    b: WorkspaceState,
    plugin: PluginInfo,
)
    requires
        a.modules@ == b.modules@,
        a.connections@ == b.connections@,
    ensures
        restorable(a, plugin) <==> restorable(b, plugin),
{
    assert forall|k: int|
        0 <= k < a.connections@.len() && #[trigger] saved_conn_ok(a, plugin, k) implies
        saved_conn_ok(b, plugin, k) by {
        assert forall|k2: int|
            0 <= k2 < k implies !((#[trigger] b.connections@[k2]).dst_id
                == b.connections@[k].dst_id && b.connections@[k2].dst_input
                == b.connections@[k].dst_input) by {
            assert(!((a.connections@[k2]).dst_id == a.connections@[k].dst_id && (
            a.connections@[k2]).dst_input == a.connections@[k].dst_input));
        }
        assert(saved_conn_ok(b, plugin, k));
    }
    assert forall|k: int|
        0 <= k < b.connections@.len() && #[trigger] saved_conn_ok(b, plugin, k) implies
        saved_conn_ok(a, plugin, k) by {
        assert forall|k2: int|
            0 <= k2 < k implies !((#[trigger] a.connections@[k2]).dst_id
                == a.connections@[k].dst_id && a.connections@[k2].dst_input
                == a.connections@[k].dst_input) by {
            assert(!((b.connections@[k2]).dst_id == b.connections@[k].dst_id && (
            b.connections@[k2]).dst_input == b.connections@[k].dst_input));
        }
        assert(saved_conn_ok(a, plugin, k));
    }
    if restorable(a, plugin) {
        assert forall|k: int| 0 <= k < b.connections@.len() implies #[trigger] saved_conn_ok(
            b,
            plugin,
            k,
        ) by {
            assert(saved_conn_ok(a, plugin, k));
        }
        assert(saved_modules_ok(b.modules@));
        assert(restorable(b, plugin));
    }
    if restorable(b, plugin) {
        assert forall|k: int| 0 <= k < a.connections@.len() implies #[trigger] saved_conn_ok(
            a,
            plugin,
            k,
        ) by {
            assert(saved_conn_ok(b, plugin, k));
        }
        assert(saved_modules_ok(a.modules@));
        assert(restorable(a, plugin));
    }
}

/// Under distinct saved ids, a position holding `id` is the chosen one.
pub proof fn lemma_saved_index_of(ms: Seq<SavedModule>, id: u64, i: int)
    requires
        forall|a: int, b: int|
            0 <= a < b < ms.len() ==> (#[trigger] ms[a]).id != (#[trigger] ms[b]).id,
        0 <= i < ms.len(),
        ms[i].id == id,
    ensures
        saved_has_module(ms, id),
        saved_index_of(ms, id) == i,
{
    assert(saved_has_module(ms, id));
    let si = saved_index_of(ms, id);
    assert(0 <= si < ms.len() && ms[si].id == id);
    if si < i {
        assert(ms[si].id != ms[i].id);
    }
    if si > i {
        assert(ms[i].id != ms[si].id);
    }
}

/// An exact copy of a sample block.
fn copy_block(b: &Vec<Sample>) -> (r: Vec<Sample>)
    ensures
        r@ == b@,
{
    let mut r: Vec<Sample> = Vec::new();
    let mut i: usize = 0;
    while i < b.len()
        invariant
            i <= b@.len(),
            r@ == b@.subrange(0, i as int),
        decreases b@.len() - i,
    {
        r.push(b[i]);
        i += 1;
    }
    proof {
        assert(r@ =~= b@);
    }
    r
}

/// Under unique ids, a position holding `id` is the chosen one: callers use
/// this to pin `spec_index_of` down to a concrete position.
pub proof fn lemma_index_of(e: Engine, id: u64, i: int)
    requires
        e.wf(),
        0 <= i < e.spec_modules().len(),
        e.spec_modules()[i].id == id,
    ensures
        e.spec_has_module(id),
        e.spec_index_of(id) == i,
{
    assert(e.spec_has_module(id));
    let si = e.spec_index_of(id);
    assert(0 <= si < e.spec_modules().len() && e.spec_modules()[si].id == id);
    if si < i {
        assert(e.spec_modules()[si].id != e.spec_modules()[i].id);
    }
    if si > i {
        assert(e.spec_modules()[i].id != e.spec_modules()[si].id);
    }
}

impl Engine {
    pub closed spec fn spec_modules(&self) -> Seq<ModuleSlot> {
        self.modules@
    }

    pub closed spec fn spec_connections(&self) -> Seq<EngineConnection> {
        self.connections@
    }

    pub closed spec fn spec_tick(&self) -> u64 {
        self.tick
    }

    pub closed spec fn spec_next_id(&self) -> u64 {
        self.next_id
    }

    /// Graph well-formedness: every connection runs forward with terminals in
    /// range, no input terminal has two producers, and ids are unique and
    /// below the allocation counter.
    pub open spec fn wf(&self) -> bool {
        &&& forall|k: int|
            0 <= k < self.spec_connections().len() ==> conn_wf(
                #[trigger] self.spec_connections()[k],
                self.spec_modules(),
            )
        &&& forall|k1: int, k2: int|
            0 <= k1 < k2 < self.spec_connections().len() ==> !same_input(
                #[trigger] self.spec_connections()[k1],
                #[trigger] self.spec_connections()[k2],
            )
        &&& forall|i: int|
            0 <= i < self.spec_modules().len() ==> (#[trigger] self.spec_modules()[i]).id
                < self.spec_next_id()
        &&& forall|i: int, j: int|
            0 <= i < j < self.spec_modules().len() ==> (#[trigger] self.spec_modules()[i]).id != (
            #[trigger] self.spec_modules()[j]).id
    }

    /// Whether some module carries `id`.
    pub open spec fn spec_has_module(&self, id: u64) -> bool {
        exists|i: int| 0 <= i < self.spec_modules().len() && self.spec_modules()[i].id == id
    }

    /// The position of the module carrying `id` (unique under `wf`).
    pub open spec fn spec_index_of(&self, id: u64) -> int {
        choose|i: int| 0 <= i < self.spec_modules().len() && self.spec_modules()[i].id == id
    }

    pub fn new() -> (r: Engine)
        ensures
            r.wf(),
            r.spec_modules().len() == 0,
            r.spec_connections().len() == 0,
            r.spec_tick() == 0,
            r.spec_next_id() == 0,
    {
        Engine { modules: Vec::new(), connections: Vec::new(), next_id: 0, tick: 0 }
    }

    fn find_module(&self, id: u64) -> (r: Option<usize>)
        ensures
            match r {
                Some(i) => (i as int) < self.spec_modules().len()
                    && self.spec_modules()[i as int].id == id,
                None => forall|i: int|
                    0 <= i < self.spec_modules().len() ==> (#[trigger] self.spec_modules()[i]).id
                        != id,
            },
    {
        let mut i: usize = 0;
        while i < self.modules.len()
            invariant
                i <= self.modules@.len(),
                forall|j: int| 0 <= j < i ==> (#[trigger] self.modules@[j]).id != id,
            decreases self.modules@.len() - i,
        {
            if self.modules[i].id == id {
                return Some(i);
            }
            i += 1;
        }
        None
    }

    /// Appends a fresh module built from `params` at the end of the execution
    /// order and hands back its newly allocated identity.  Fails only when
    /// the id counter is exhausted.
    pub fn add_module(&mut self, params: ModuleParams, plugin: PluginInfo) -> (r: Result<
        u64,
        EditError,
    >)
        requires
            old(self).wf(),
        ensures
            final(self).wf(),
            final(self).spec_tick() == old(self).spec_tick(),
            final(self).spec_connections() == old(self).spec_connections(),
            r is Err <==> old(self).spec_next_id() == u64::MAX,
            match r {
                Ok(id) => {
                    let new_ms = final(self).spec_modules();
                    let prev = old(self).spec_modules();
                    &&& new_ms.len() == prev.len() + 1
                    &&& new_ms.subrange(0, prev.len() as int) == prev
                    &&& new_ms.last().id == id
                    &&& new_ms.last().module.spec_params() == params
                    &&& (params matches ModuleParams::Vst ==> new_ms.last().module.spec_input_count()
                        == plugin.inputs && new_ms.last().module.spec_output_count()
                        == plugin.outputs)
                    &&& (params matches ModuleParams::Gate(_)
                        ==> new_ms.last().module.spec_input_count() == 0
                        && new_ms.last().module.spec_output_count() == 1)
                    &&& forall|i: int| 0 <= i < prev.len() ==> (#[trigger] prev[i]).id != id
                },
                Err(e) => e == EditError::IdsExhausted && *final(self) == *old(self),
            },
    {
        if self.next_id == u64::MAX {
            return Err(EditError::IdsExhausted);
        }
        let id = self.next_id;
        self.next_id = self.next_id + 1;
        let (m, _ind) = AnyModule::create(params, plugin);
        let ghost prev = self.modules@;
        self.modules.push(ModuleSlot { id, module: m });
        proof {
            assert(self.modules@.subrange(0, prev.len() as int) =~= prev);
            let new_ms = self.modules@;
            assert forall|k: int| 0 <= k < self.connections@.len() implies conn_wf(
                #[trigger] self.connections@[k],
                new_ms,
            ) by {
                assert(conn_wf(old(self).spec_connections()[k], old(self).spec_modules()));
            }
            assert forall|i: int| 0 <= i < new_ms.len() implies (#[trigger] new_ms[i]).id
                < self.next_id by {
                if i < prev.len() {
                    assert(new_ms[i] == prev[i]);
                }
            }
            assert forall|i: int, j: int| 0 <= i < j < new_ms.len() implies (
            #[trigger] new_ms[i]).id != (#[trigger] new_ms[j]).id by {
                if j == new_ms.len() - 1 {
                    assert(new_ms[i] == prev[i]);
                    assert(prev[i].id < id);
                } else {
                    assert(new_ms[i] == prev[i]);
                    assert(new_ms[j] == prev[j]);
                }
            }
            assert forall|i: int| 0 <= i < prev.len() implies (#[trigger] prev[i]).id != id by {
                assert(prev[i].id < id);
            }
        }
        Ok(id)
    }

    /// Wires an output terminal of the module carrying `src_id` to an input
    /// terminal of the module carrying `dst_id`.  The edge must run forward
    /// in the execution order (a backward edge could close a cycle and is
    /// rejected at edit time), both terminals must exist, and the input must
    /// still be free.
    pub fn add_connection(
        &mut self,
        src_id: u64,
        src_output: usize,
        dst_id: u64,
        dst_input: usize,
    ) -> (r: Result<(), EditError>)
        requires
            old(self).wf(),
        ensures
            final(self).wf(),
            final(self).spec_modules() == old(self).spec_modules(),
            final(self).spec_tick() == old(self).spec_tick(),
            final(self).spec_next_id() == old(self).spec_next_id(),
            match r {
                Ok(()) => {
                    let si = old(self).spec_index_of(src_id);
                    let di = old(self).spec_index_of(dst_id);
                    let c = EngineConnection {
                        src: si as usize,
                        src_output,
                        dst: di as usize,
                        dst_input,
                    };
                    &&& old(self).spec_has_module(src_id)
                    &&& old(self).spec_has_module(dst_id)
                    &&& si < di
                    &&& (src_output as nat) < old(self).spec_modules()[si].module.spec_output_count()
                    &&& (dst_input as nat) < old(self).spec_modules()[di].module.spec_input_count()
                    &&& forall|k2: int|
                        0 <= k2 < old(self).spec_connections().len() ==> !feeds(
                            #[trigger] old(self).spec_connections()[k2],
                            di,
                            dst_input as int,
                        )
                    &&& final(self).spec_connections() == old(self).spec_connections().push(c)
                },
                Err(e) => *final(self) == *old(self) && match e {
                    EditError::NoSuchModule => !old(self).spec_has_module(src_id) || !old(self).spec_has_module(dst_id),
                    EditError::WouldCycle => old(self).spec_has_module(src_id) && old(self).spec_has_module(dst_id) && old(self).spec_index_of(src_id) >= old(self).spec_index_of(dst_id),
                    EditError::BadTerminal => {
                        let si = old(self).spec_index_of(src_id);
                        let di = old(self).spec_index_of(dst_id);
                        &&& old(self).spec_has_module(src_id)
                        &&& old(self).spec_has_module(dst_id)
                        &&& si < di
                        &&& ((src_output as nat) >= old(self).spec_modules()[si].module.spec_output_count()
                            || (dst_input as nat) >= old(self).spec_modules()[di].module.spec_input_count())
                    },
                    EditError::InputInUse => {
                        let di = old(self).spec_index_of(dst_id);
                        &&& old(self).spec_has_module(src_id)
                        &&& old(self).spec_has_module(dst_id)
                        &&& exists|k: int|
                            0 <= k < old(self).spec_connections().len() && feeds(
                                #[trigger] old(self).spec_connections()[k],
                                di,
                                dst_input as int,
                            )
                    },
                    EditError::IdsExhausted => false,
                    EditError::ModuleInUse => false,
                    EditError::DuplicateId => false,
                },
            },
    {
        let src = match self.find_module(src_id) {
            Some(i) => i,
            None => {
                return Err(EditError::NoSuchModule);
            },
        };
        let dst = match self.find_module(dst_id) {
            Some(i) => i,
            None => {
                return Err(EditError::NoSuchModule);
            },
        };
        proof {
            lemma_index_of(*self, src_id, src as int);
            lemma_index_of(*self, dst_id, dst as int);
        }
        if src >= dst {
            return Err(EditError::WouldCycle);
        }
        if src_output >= self.modules[src].module.output_count() {
            return Err(EditError::BadTerminal);
        }
        if dst_input >= self.modules[dst].module.input_count() {
            return Err(EditError::BadTerminal);
        }
        let mut k: usize = 0;
        while k < self.connections.len()
            invariant
                old(self).wf(),
                *self == *old(self),
                old(self).spec_has_module(src_id),
                old(self).spec_has_module(dst_id),
                (src as int) == old(self).spec_index_of(src_id),
                (dst as int) == old(self).spec_index_of(dst_id),
                k <= self.connections@.len(),
                forall|j: int|
                    0 <= j < k ==> !feeds(
                        #[trigger] self.connections@[j],
                        dst as int,
                        dst_input as int,
                    ),
            decreases self.connections@.len() - k,
        {
            let c = self.connections[k];
            if c.dst == dst && c.dst_input == dst_input {
                proof {
                    assert(feeds(
                        old(self).spec_connections()[k as int],
                        old(self).spec_index_of(dst_id),
                        dst_input as int,
                    ));
                }
                return Err(EditError::InputInUse);
            }
            k += 1;
        }
        let c = EngineConnection { src, src_output, dst, dst_input };
        let ghost prev = self.connections@;
        self.connections.push(c);
        proof {
            assert forall|j: int| 0 <= j < self.connections@.len() implies conn_wf(
                #[trigger] self.connections@[j],
                self.modules@,
            ) by {
                if j < prev.len() {
                    assert(self.connections@[j] == prev[j]);
                    assert(conn_wf(old(self).spec_connections()[j], old(self).spec_modules()));
                }
            }
            assert forall|k1: int, k2: int|
                0 <= k1 < k2 < self.connections@.len() implies !same_input(
                #[trigger] self.connections@[k1],
                #[trigger] self.connections@[k2],
            ) by {
                if k2 == self.connections@.len() - 1 {
                    assert(self.connections@[k1] == prev[k1]);
                    assert(!feeds(prev[k1], dst as int, dst_input as int));
                } else {
                    assert(self.connections@[k1] == prev[k1]);
                    assert(self.connections@[k2] == prev[k2]);
                    assert(!same_input(
                        old(self).spec_connections()[k1],
                        old(self).spec_connections()[k2],
                    ));
                }
            }
        }
        Ok(())
    }

    /// Removes the connection into the given input terminal, if any; says
    /// whether one was removed.  Afterwards nothing feeds that terminal.
    pub fn disconnect_input(&mut self, dst_id: u64, dst_input: usize) -> (r: bool)
        requires
            old(self).wf(),
        ensures
            final(self).wf(),
            final(self).spec_modules() == old(self).spec_modules(),
            final(self).spec_tick() == old(self).spec_tick(),
            final(self).spec_next_id() == old(self).spec_next_id(),
            !r ==> *final(self) == *old(self),
            r <==> old(self).spec_has_module(dst_id) && (exists|k: int|
                0 <= k < old(self).spec_connections().len() && feeds(
                    #[trigger] old(self).spec_connections()[k],
                    old(self).spec_index_of(dst_id),
                    dst_input as int,
                )),
            r ==> exists|k: int|
                0 <= k < old(self).spec_connections().len() && feeds(
                    #[trigger] old(self).spec_connections()[k],
                    old(self).spec_index_of(dst_id),
                    dst_input as int,
                ) && final(self).spec_connections() == old(self).spec_connections().remove(k),
            old(self).spec_has_module(dst_id) ==> forall|k: int|
                0 <= k < final(self).spec_connections().len() ==> !feeds(
                    #[trigger] final(self).spec_connections()[k],
                    old(self).spec_index_of(dst_id),
                    dst_input as int,
                ),
    {
        let dst = match self.find_module(dst_id) {
            Some(i) => i,
            None => {
                proof {
                    if self.spec_has_module(dst_id) {
                        let i = self.spec_index_of(dst_id);
                        assert(0 <= i < self.spec_modules().len() && self.spec_modules()[i].id
                            == dst_id);
                    }
                }
                return false;
            },
        };
        proof {
            lemma_index_of(*self, dst_id, dst as int);
        }
        let mut k: usize = 0;
        while k < self.connections.len()
            invariant
                old(self).wf(),
                *self == *old(self),
                k <= self.connections@.len(),
                (dst as int) == old(self).spec_index_of(dst_id),
                old(self).spec_has_module(dst_id),
                forall|j: int|
                    0 <= j < k ==> !feeds(
                        #[trigger] self.connections@[j],
                        dst as int,
                        dst_input as int,
                    ),
            decreases self.connections@.len() - k,
        {
            let c = self.connections[k];
            if c.dst == dst && c.dst_input == dst_input {
                self.connections.remove(k);
                proof {
                    let oldc = old(self).spec_connections();
                    assert(feeds(oldc[k as int], dst as int, dst_input as int));
                    assert(self.connections@ == oldc.remove(k as int));
                    assert(0 <= k < oldc.len() && feeds(
                        oldc[k as int],
                        old(self).spec_index_of(dst_id),
                        dst_input as int,
                    ) && self.connections@ == oldc.remove(k as int));
                    assert forall|j: int| 0 <= j < self.connections@.len() implies !feeds(
                        #[trigger] self.connections@[j],
                        dst as int,
                        dst_input as int,
                    ) by {
                        if j < k {
                            assert(self.connections@[j] == oldc[j]);
                        } else {
                            assert(self.connections@[j] == oldc[j + 1]);
                            assert(!same_input(oldc[k as int], oldc[j + 1]));
                        }
                    }
                    assert forall|k1: int, k2: int|
                        0 <= k1 < k2 < self.connections@.len() implies !same_input(
                        #[trigger] self.connections@[k1],
                        #[trigger] self.connections@[k2],
                    ) by {
                        let a1 = if k1 < k { k1 } else { k1 + 1 };
                        let a2 = if k2 < k { k2 } else { k2 + 1 };
                        assert(self.connections@[k1] == oldc[a1]);
                        assert(self.connections@[k2] == oldc[a2]);
                        assert(!same_input(oldc[a1], oldc[a2]));
                    }
                    assert forall|j: int| 0 <= j < self.connections@.len() implies conn_wf(
                        #[trigger] self.connections@[j],
                        self.modules@,
                    ) by {
                        let a = if j < k { j } else { j + 1 };
                        assert(self.connections@[j] == oldc[a]);
                        assert(conn_wf(oldc[a], self.modules@));
                    }
                }
                return true;
            }
            k += 1;
        }
        proof {
            if exists|j: int|
                0 <= j < self.connections@.len() && feeds(
                    #[trigger] self.connections@[j],
                    dst as int,
                    dst_input as int,
                ) {
                let j = choose|j: int|
                    0 <= j < self.connections@.len() && feeds(
                        #[trigger] self.connections@[j],
                        dst as int,
                        dst_input as int,
                    );
                assert(!feeds(self.connections@[j], dst as int, dst_input as int));
            }
        }
        false
    }

    /// Runs one tick.  Every module runs exactly once, in execution order;
    /// each input terminal receives exactly the block its producer wrote this
    /// tick (or `None` when unconnected), and every output terminal of every
    /// module leaves with a block of exactly [`BLOCK_SIZE`] samples.  A
    /// gate's blocks hold exactly its constant value.
    pub fn run_tick(&mut self) -> (r: TickResult)
        requires
            old(self).wf(),
        ensures
            final(self).wf(),
            final(self).spec_connections() == old(self).spec_connections(),
            final(self).spec_next_id() == old(self).spec_next_id(),
            final(self).spec_modules().len() == old(self).spec_modules().len(),
            forall|m: int|
                0 <= m < old(self).spec_modules().len() ==> slot_shape_preserved(
                    #[trigger] old(self).spec_modules()[m],
                    final(self).spec_modules()[m],
                ),
            r.tick == old(self).spec_tick(),
            final(self).spec_tick() == if old(self).spec_tick() < u64::MAX {
                old(self).spec_tick() + 1
            } else {
                u64::MAX as int
            },
            r.outputs@.len() == old(self).spec_modules().len(),
            forall|m: int|
                0 <= m < r.outputs@.len() ==> (#[trigger] r.outputs@[m])@.len() == old(self).spec_modules()[m].module.spec_output_count(),
            forall|m: int, o: int|
                #![trigger r.outputs@[m]@[o]]
                0 <= m < r.outputs@.len() && 0 <= o < r.outputs@[m]@.len()
                    ==> r.outputs@[m]@[o]@.len() == BLOCK_SIZE as nat,
            forall|m: int|
                0 <= m < r.outputs@.len() && (#[trigger] old(self).spec_modules()[m]).module.is_gate() ==> forall|o: int, i: int|
                    #![trigger r.outputs@[m]@[o]@[i]]
                    0 <= o < r.outputs@[m]@.len() && 0 <= i < r.outputs@[m]@[o]@.len()
                        ==> r.outputs@[m]@[o]@[i] == gate_value(
                        old(self).spec_modules()[m].module.spec_gate_state(),
                    ),
            r.inputs@.len() == old(self).spec_modules().len(),
            forall|m: int|
                0 <= m < r.inputs@.len() ==> (#[trigger] r.inputs@[m])@.len() == old(self).spec_modules()[m].module.spec_input_count(),
            forall|k: int|
                0 <= k < old(self).spec_connections().len() ==> {
                    let c = #[trigger] old(self).spec_connections()[k];
                    r.inputs@[c.dst as int]@[c.dst_input as int] matches Some(b) && b@
                        == r.outputs@[c.src as int]@[c.src_output as int]@
                },
            forall|m: int, i: int|
                #![trigger r.inputs@[m]@[i]]
                0 <= m < r.inputs@.len() && 0 <= i < r.inputs@[m]@.len() && (forall|k: int|
                    0 <= k < old(self).spec_connections().len() ==> !feeds(
                        #[trigger] old(self).spec_connections()[k],
                        m,
                        i,
                    )) ==> r.inputs@[m]@[i] is None,
    {
        let ghost old_ms = self.modules@;
        let t = self.tick;
        let n = self.modules.len();
        let mut outputs: Vec<Vec<Vec<Sample>>> = Vec::new();
        let mut inputs_used: Vec<Vec<Option<Vec<Sample>>>> = Vec::new();
        let mut m: usize = 0;
        while m < n
            invariant
                old(self).wf(),
                n == old_ms.len(),
                old_ms == old(self).spec_modules(),
                self.connections@ == old(self).spec_connections(),
                self.next_id == old(self).spec_next_id(),
                self.tick == old(self).spec_tick(),
                m <= n,
                self.modules@.len() == n,
                forall|j: int|
                    0 <= j < n ==> slot_shape_preserved(#[trigger] old_ms[j], self.modules@[j]),
                forall|j: int| m <= j < n ==> self.modules@[j] == old_ms[j],
                outputs@.len() == m as nat,
                forall|j: int|
                    0 <= j < m ==> (#[trigger] outputs@[j])@.len()
                        == old_ms[j].module.spec_output_count(),
                forall|j: int, o: int|
                    #![trigger outputs@[j]@[o]]
                    0 <= j < m && 0 <= o < outputs@[j]@.len() ==> outputs@[j]@[o]@.len()
                        == BLOCK_SIZE as nat,
                forall|j: int|
                    0 <= j < m && (#[trigger] old_ms[j]).module.is_gate() ==> forall|o: int, i: int|
                        #![trigger outputs@[j]@[o]@[i]]
                        0 <= o < outputs@[j]@.len() && 0 <= i < outputs@[j]@[o]@.len()
                            ==> outputs@[j]@[o]@[i] == gate_value(
                            old_ms[j].module.spec_gate_state(),
                        ),
                inputs_used@.len() == m as nat,
                forall|j: int|
                    0 <= j < m ==> (#[trigger] inputs_used@[j])@.len()
                        == old_ms[j].module.spec_input_count(),
                forall|k: int|
                    0 <= k < self.connections@.len() && (#[trigger] self.connections@[k]).dst
                        < m ==> {
                        let c = self.connections@[k];
                        inputs_used@[c.dst as int]@[c.dst_input as int] matches Some(b) && b@
                            == outputs@[c.src as int]@[c.src_output as int]@
                    },
                forall|j: int, i: int|
                    #![trigger inputs_used@[j]@[i]]
                    0 <= j < m && 0 <= i < inputs_used@[j]@.len() && (forall|k: int|
                        0 <= k < self.connections@.len() ==> !feeds(
                            #[trigger] self.connections@[k],
                            j,
                            i,
                        )) ==> inputs_used@[j]@[i] is None,
            decreases n - m,
        {
            // gather this module's inputs from blocks produced earlier this tick
            let in_count = self.modules[m].module.input_count();
            let mut ins: Vec<Option<Vec<Sample>>> = Vec::new();
            let mut i: usize = 0;
            while i < in_count
                invariant
                    old(self).wf(),
                    self.connections@ == old(self).spec_connections(),
                    old_ms == old(self).spec_modules(),
                    m < n,
                    n == old_ms.len(),
                    self.modules@.len() == n,
                    forall|j: int| m <= j < n ==> self.modules@[j] == old_ms[j],
                    in_count as nat == old_ms[m as int].module.spec_input_count(),
                    outputs@.len() == m as nat,
                    forall|j: int|
                        0 <= j < m ==> (#[trigger] outputs@[j])@.len()
                            == old_ms[j].module.spec_output_count(),
                    i <= in_count,
                    ins@.len() == i as nat,
                    forall|k: int|
                        0 <= k < self.connections@.len() && (#[trigger] self.connections@[k]).dst
                            as int == m as int && (self.connections@[k]).dst_input < i ==> {
                            let c = self.connections@[k];
                            ins@[c.dst_input as int] matches Some(b) && b@
                                == outputs@[c.src as int]@[c.src_output as int]@
                        },
                    forall|ii: int|
                        0 <= ii < i && (forall|k: int|
                            0 <= k < self.connections@.len() ==> !feeds(
                                #[trigger] self.connections@[k],
                                m as int,
                                ii,
                            )) ==> ins@[ii] is None,
                decreases in_count - i,
            {
                let mut found: Option<Vec<Sample>> = None;
                let mut k: usize = 0;
                while k < self.connections.len()
                    invariant
                        old(self).wf(),
                        self.connections@ == old(self).spec_connections(),
                        old_ms == old(self).spec_modules(),
                        m < n,
                        n == old_ms.len(),
                        outputs@.len() == m as nat,
                        forall|j: int|
                            0 <= j < m ==> (#[trigger] outputs@[j])@.len()
                                == old_ms[j].module.spec_output_count(),
                        k <= self.connections@.len(),
                        forall|kk: int|
                            0 <= kk < k && feeds(
                                #[trigger] self.connections@[kk],
                                m as int,
                                i as int,
                            ) ==> {
                                let c = self.connections@[kk];
                                found matches Some(b) && b@
                                    == outputs@[c.src as int]@[c.src_output as int]@
                            },
                        found is Some ==> exists|kk: int|
                            0 <= kk < k && feeds(
                                #[trigger] self.connections@[kk],
                                m as int,
                                i as int,
                            ),
                    decreases self.connections@.len() - k,
                {
                    let c = self.connections[k];
                    if c.dst == m && c.dst_input == i {
                        proof {
                            assert(conn_wf(
                                old(self).spec_connections()[k as int],
                                old(self).spec_modules(),
                            ));
                            assert(conn_wf(self.connections@[k as int], old_ms));
                            assert(feeds(self.connections@[k as int], m as int, i as int));
                            assert forall|kk: int| 0 <= kk < k implies !feeds(
                                #[trigger] self.connections@[kk],
                                m as int,
                                i as int,
                            ) by {
                                assert(!same_input(
                                    old(self).spec_connections()[kk],
                                    old(self).spec_connections()[k as int],
                                ));
                            }
                        }
                        found = Some(copy_block(&outputs[c.src][c.src_output]));
                    }
                    k += 1;
                }
                ins.push(found);
                i += 1;
            }
            // run the module on exactly these inputs
            let ghost ms_before = self.modules@;
            proof {
                assert(ms_before[m as int] == old_ms[m as int]);
            }
            let mut slot = self.modules.remove(m);
            let (outs, _ind) = slot.module.run_tick(t, &ins);
            self.modules.insert(m, slot);
            proof {
                assert(self.modules@ =~= ms_before.update(m as int, self.modules@[m as int]));
                assert forall|j: int| 0 <= j < n implies slot_shape_preserved(
                    #[trigger] old_ms[j],
                    self.modules@[j],
                ) by {
                    if j != m as int {
                        assert(self.modules@[j] == ms_before[j]);
                    }
                }
            }
            outputs.push(outs);
            inputs_used.push(ins);
            proof {
                assert forall|k: int|
                    0 <= k < self.connections@.len() && (#[trigger] self.connections@[k]).dst < m
                        + 1 implies {
                    let c = self.connections@[k];
                    inputs_used@[c.dst as int]@[c.dst_input as int] matches Some(b) && b@
                        == outputs@[c.src as int]@[c.src_output as int]@
                } by {
                    let c = self.connections@[k];
                    assert(conn_wf(old(self).spec_connections()[k], old(self).spec_modules()));
                    assert(conn_wf(c, old_ms));
                    if c.dst as int == m as int {
                        assert(inputs_used@[c.dst as int] == ins);
                        assert((c.dst_input as nat) < old_ms[m as int].module.spec_input_count());
                    }
                }
            }
            m += 1;
        }
        if self.tick < u64::MAX {
            self.tick = self.tick + 1;
        }
        proof {
            assert forall|k: int| 0 <= k < self.connections@.len() implies {
                let c = #[trigger] self.connections@[k];
                inputs_used@[c.dst as int]@[c.dst_input as int] matches Some(b) && b@
                    == outputs@[c.src as int]@[c.src_output as int]@
            } by {
                assert(conn_wf(old(self).spec_connections()[k], old(self).spec_modules()));
            }
            assert forall|k: int| 0 <= k < self.connections@.len() implies conn_wf(
                #[trigger] self.connections@[k],
                self.modules@,
            ) by {
                assert(conn_wf(old(self).spec_connections()[k], old(self).spec_modules()));
                let c = self.connections@[k];
                assert(slot_shape_preserved(old_ms[c.src as int], self.modules@[c.src as int]));
                assert(slot_shape_preserved(old_ms[c.dst as int], self.modules@[c.dst as int]));
            }
            assert forall|i: int| 0 <= i < self.modules@.len() implies (
            #[trigger] self.modules@[i]).id < self.next_id by {
                assert(slot_shape_preserved(old_ms[i], self.modules@[i]));
            }
            assert forall|i: int, j: int| 0 <= i < j < self.modules@.len() implies (
            #[trigger] self.modules@[i]).id != (#[trigger] self.modules@[j]).id by {
                assert(slot_shape_preserved(old_ms[i], self.modules@[i]));
                assert(slot_shape_preserved(old_ms[j], self.modules@[j]));
            }
        }
        TickResult { inputs: inputs_used, outputs, tick: t }
    }


    /// Takes the module carrying `id` out of the graph.  Its connections must
    /// have been removed first: a still-wired module is refused, so no
    /// dangling edge can ever arise.  Connections among the other modules are
    /// kept, with their positions shifted past the gap.
    pub fn remove_module(&mut self, id: u64) -> (r: Result<(), EditError>)
        requires
            old(self).wf(),
        ensures
            final(self).wf(),
            final(self).spec_tick() == old(self).spec_tick(),
            final(self).spec_next_id() == old(self).spec_next_id(),
            r is Err ==> *final(self) == *old(self),
            match r {
                Ok(()) => {
                    let idx = old(self).spec_index_of(id);
                    &&& old(self).spec_has_module(id)
                    &&& final(self).spec_modules() == old(self).spec_modules().remove(idx)
                    &&& !final(self).spec_has_module(id)
                    &&& final(self).spec_connections().len() == old(self).spec_connections().len()
                    &&& forall|k: int|
                        0 <= k < old(self).spec_connections().len() ==> final(self).spec_connections()[k] == shift_conn(
                            #[trigger] old(self).spec_connections()[k],
                            idx,
                        )
                },
                Err(EditError::NoSuchModule) => !old(self).spec_has_module(id),
                Err(EditError::ModuleInUse) => old(self).spec_has_module(id) && exists|k: int|
                    0 <= k < old(self).spec_connections().len() && touches(
                        #[trigger] old(self).spec_connections()[k],
                        old(self).spec_index_of(id),
                    ),
                Err(_) => false,
            },
    {
        let idx = match self.find_module(id) {
            Some(i) => i,
            None => {
                proof {
                    if self.spec_has_module(id) {
                        let i = self.spec_index_of(id);
                        assert(0 <= i < self.spec_modules().len() && self.spec_modules()[i].id
                            == id);
                    }
                }
                return Err(EditError::NoSuchModule);
            },
        };
        proof {
            lemma_index_of(*self, id, idx as int);
        }
        let mut k: usize = 0;
        while k < self.connections.len()
            invariant
                old(self).wf(),
                *self == *old(self),
                (idx as int) == old(self).spec_index_of(id),
                old(self).spec_has_module(id),
                k <= self.connections@.len(),
                forall|j: int| 0 <= j < k ==> !touches(#[trigger] self.connections@[j], idx as int),
            decreases self.connections@.len() - k,
        {
            let c = self.connections[k];
            if c.src == idx || c.dst == idx {
                proof {
                    assert(touches(
                        old(self).spec_connections()[k as int],
                        old(self).spec_index_of(id),
                    ));
                }
                return Err(EditError::ModuleInUse);
            }
            k += 1;
        }
        let ghost old_ms = self.modules@;
        let ghost oldc = self.connections@;
        self.modules.remove(idx);
        let mut remapped: Vec<EngineConnection> = Vec::new();
        let mut j: usize = 0;
        while j < self.connections.len()
            invariant
                old(self).wf(),
                oldc == old(self).spec_connections(),
                self.connections@ == oldc,
                (idx as int) < old_ms.len(),
                forall|a: int| 0 <= a < oldc.len() ==> !touches(#[trigger] oldc[a], idx as int),
                j <= oldc.len(),
                remapped@.len() == j as nat,
                forall|a: int|
                    0 <= a < j ==> remapped@[a] == shift_conn(#[trigger] oldc[a], idx as int),
            decreases oldc.len() - j,
        {
            let c = self.connections[j];
            proof {
                assert(conn_wf(old(self).spec_connections()[j as int], old(self).spec_modules()));
                assert(!touches(oldc[j as int], idx as int));
            }
            let src = if c.src > idx {
                c.src - 1
            } else {
                c.src
            };
            let dst = if c.dst > idx {
                c.dst - 1
            } else {
                c.dst
            };
            remapped.push(EngineConnection { src, src_output: c.src_output, dst, dst_input: c.dst_input });
            j += 1;
        }
        self.connections = remapped;
        proof {
            let new_ms = self.modules@;
            assert(new_ms == old_ms.remove(idx as int));
            assert forall|a: int| 0 <= a < new_ms.len() implies (#[trigger] new_ms[a]).id != id
                && new_ms[a].id < self.next_id by {
                let b = if a < idx as int {
                    a
                } else {
                    a + 1
                };
                assert(new_ms[a] == old_ms[b]);
                if b < idx as int {
                    assert(old_ms[b].id != old_ms[idx as int].id);
                }
                if b > idx as int {
                    assert(old_ms[idx as int].id != old_ms[b].id);
                }
            }
            if self.spec_has_module(id) {
                let i2 = self.spec_index_of(id);
                assert(0 <= i2 < new_ms.len() && new_ms[i2].id == id);
            }
            assert forall|a: int, b: int| 0 <= a < b < new_ms.len() implies (
            #[trigger] new_ms[a]).id != (#[trigger] new_ms[b]).id by {
                let a1 = if a < idx as int {
                    a
                } else {
                    a + 1
                };
                let b1 = if b < idx as int {
                    b
                } else {
                    b + 1
                };
                assert(new_ms[a] == old_ms[a1]);
                assert(new_ms[b] == old_ms[b1]);
                assert(old_ms[a1].id != old_ms[b1].id);
            }
            assert forall|a: int| 0 <= a < self.connections@.len() implies conn_wf(
                #[trigger] self.connections@[a],
                new_ms,
            ) by {
                assert(conn_wf(old(self).spec_connections()[a], old(self).spec_modules()));
                let c = oldc[a];
                let c2 = self.connections@[a];
                assert(c2 == shift_conn(c, idx as int));
                assert(!touches(c, idx as int));
                if c.src as int > idx as int {
                    assert(new_ms[c2.src as int] == old_ms[c.src as int]);
                } else {
                    assert(new_ms[c2.src as int] == old_ms[c.src as int]);
                }
                if c.dst as int > idx as int {
                    assert(new_ms[c2.dst as int] == old_ms[c.dst as int]);
                } else {
                    assert(new_ms[c2.dst as int] == old_ms[c.dst as int]);
                }
            }
            assert forall|k1: int, k2: int|
                0 <= k1 < k2 < self.connections@.len() implies !same_input(
                #[trigger] self.connections@[k1],
                #[trigger] self.connections@[k2],
            ) by {
                assert(!same_input(
                    old(self).spec_connections()[k1],
                    old(self).spec_connections()[k2],
                ));
                assert(self.connections@[k1] == shift_conn(oldc[k1], idx as int));
                assert(self.connections@[k2] == shift_conn(oldc[k2], idx as int));
                assert(!touches(oldc[k1], idx as int));
                assert(!touches(oldc[k2], idx as int));
            }
        }
        Ok(())
    }

    /// Replaces the configuration of the module carrying `id`.  The new
    /// parameters fix the module's arity (a native-plugin module takes the
    /// freshly reported `plugin` arity), so the edit is accepted only when
    /// every existing connection still lands on a terminal that exists.
    pub fn update_module(&mut self, id: u64, params: ModuleParams, plugin: PluginInfo) -> (r:
        Result<(), EditError>)
        requires
            old(self).wf(),
        ensures
            final(self).wf(),
            final(self).spec_connections() == old(self).spec_connections(),
            final(self).spec_tick() == old(self).spec_tick(),
            final(self).spec_next_id() == old(self).spec_next_id(),
            final(self).spec_modules().len() == old(self).spec_modules().len(),
            r is Err ==> *final(self) == *old(self),
            r is Ok <==> old(self).spec_has_module(id) && conns_fit_arity(
                old(self).spec_connections(),
                old(self).spec_index_of(id),
                params_input_count(params, plugin),
                params_output_count(params, plugin),
            ),
            match r {
                Ok(()) => {
                    let idx = old(self).spec_index_of(id);
                    &&& final(self).spec_modules()[idx].id == id
                    &&& final(self).spec_modules()[idx].module.spec_params() == params
                    &&& final(self).spec_modules()[idx].module.spec_input_count()
                        == params_input_count(params, plugin)
                    &&& final(self).spec_modules()[idx].module.spec_output_count()
                        == params_output_count(params, plugin)
                    &&& forall|j: int|
                        0 <= j < old(self).spec_modules().len() && j != idx ==> final(self).spec_modules()[j] == old(self).spec_modules()[j]
                },
                Err(EditError::NoSuchModule) => !old(self).spec_has_module(id),
                Err(EditError::BadTerminal) => old(self).spec_has_module(id) && !conns_fit_arity(
                    old(self).spec_connections(),
                    old(self).spec_index_of(id),
                    params_input_count(params, plugin),
                    params_output_count(params, plugin),
                ),
                Err(_) => false,
            },
    {
        let idx = match self.find_module(id) {
            Some(i) => i,
            None => {
                proof {
                    if self.spec_has_module(id) {
                        let i = self.spec_index_of(id);
                        assert(0 <= i < self.spec_modules().len() && self.spec_modules()[i].id
                            == id);
                    }
                }
                return Err(EditError::NoSuchModule);
            },
        };
        proof {
            lemma_index_of(*self, id, idx as int);
        }
        // the new arity is fixed by the parameters alone
        let (new_in, new_out): (usize, usize) = match params {
            ModuleParams::Gate(_) => (0, 1),
            ModuleParams::Vst => (plugin.inputs, plugin.outputs),
        };
        // every existing connection must still land on a terminal that exists
        let mut k: usize = 0;
        while k < self.connections.len()
            invariant
                old(self).wf(),
                *self == *old(self),
                (idx as int) == old(self).spec_index_of(id),
                old(self).spec_has_module(id),
                new_in as nat == params_input_count(params, plugin),
                new_out as nat == params_output_count(params, plugin),
                k <= self.connections@.len(),
                forall|j: int|
                    0 <= j < k ==> {
                        let c = #[trigger] self.connections@[j];
                        &&& (c.src as int == idx as int ==> (c.src_output as int) < new_out as int)
                        &&& (c.dst as int == idx as int ==> (c.dst_input as int) < new_in as int)
                    },
            decreases self.connections@.len() - k,
        {
            let c = self.connections[k];
            if c.src == idx && c.src_output >= new_out {
                proof {
                    assert(new_out as nat == params_output_count(params, plugin));
                    assert((old(self).spec_connections()[k as int]).src as int == idx as int);
                }
                return Err(EditError::BadTerminal);
            }
            if c.dst == idx && c.dst_input >= new_in {
                proof {
                    assert(new_in as nat == params_input_count(params, plugin));
                    assert((old(self).spec_connections()[k as int]).dst as int == idx as int);
                }
                return Err(EditError::BadTerminal);
            }
            k += 1;
        }
        proof {
            assert(new_in as nat == params_input_count(params, plugin));
            assert(new_out as nat == params_output_count(params, plugin));
            assert(conns_fit_arity(
                old(self).spec_connections(),
                old(self).spec_index_of(id),
                params_input_count(params, plugin),
                params_output_count(params, plugin),
            ));
        }
        let ghost ms_before = self.modules@;
        let mut slot = self.modules.remove(idx);
        let _ind = slot.module.update(params, plugin);
        self.modules.insert(idx, slot);
        proof {
            assert(self.modules@ =~= ms_before.update(idx as int, self.modules@[idx as int]));
            assert forall|k2: int| 0 <= k2 < self.connections@.len() implies conn_wf(
                #[trigger] self.connections@[k2],
                self.modules@,
            ) by {
                assert(conn_wf(old(self).spec_connections()[k2], old(self).spec_modules()));
                let c = self.connections@[k2];
                if c.src as int != idx as int {
                    assert(self.modules@[c.src as int] == ms_before[c.src as int]);
                }
                if c.dst as int != idx as int {
                    assert(self.modules@[c.dst as int] == ms_before[c.dst as int]);
                }
            }
            assert forall|i: int| 0 <= i < self.modules@.len() implies (
            #[trigger] self.modules@[i]).id < self.next_id by {
                if i != idx as int {
                    assert(self.modules@[i] == ms_before[i]);
                }
                assert(ms_before[i].id < self.next_id);
            }
            assert forall|i: int, j: int| 0 <= i < j < self.modules@.len() implies (
            #[trigger] self.modules@[i]).id != (#[trigger] self.modules@[j]).id by {
                assert(self.modules@[i].id == ms_before[i].id);
                assert(self.modules@[j].id == ms_before[j].id);
            }
        }
        Ok(())
    }

    /// The serializable snapshot of the live graph: every module's identity
    /// and parameters, and every connection by module id.  The snapshot is
    /// complete: the graph can be reconstructed from it by [`Engine::restore`].
    pub fn snapshot(&self) -> (r: WorkspaceState)
        requires
            self.wf(),
        ensures
            r.modules@.len() == self.spec_modules().len(),
            forall|i: int|
                0 <= i < r.modules@.len() ==> (#[trigger] r.modules@[i]).id
                    == self.spec_modules()[i].id && r.modules@[i].params
                    == self.spec_modules()[i].module.spec_params(),
            r.connections@.len() == self.spec_connections().len(),
            forall|k: int|
                0 <= k < r.connections@.len() ==> {
                    let s = #[trigger] r.connections@[k];
                    let c = self.spec_connections()[k];
                    &&& s.src_id == self.spec_modules()[c.src as int].id
                    &&& s.src_output == c.src_output as u64
                    &&& s.dst_id == self.spec_modules()[c.dst as int].id
                    &&& s.dst_input == c.dst_input as u64
                },
    {
        let mut modules: Vec<SavedModule> = Vec::new();
        let mut i: usize = 0;
        while i < self.modules.len()
            invariant
                self.wf(),
                i <= self.modules@.len(),
                modules@.len() == i as nat,
                forall|j: int|
                    0 <= j < i ==> (#[trigger] modules@[j]).id == self.spec_modules()[j].id
                        && modules@[j].params == self.spec_modules()[j].module.spec_params(),
            decreases self.modules@.len() - i,
        {
            let slot = &self.modules[i];
            modules.push(SavedModule { id: slot.id, params: slot.module.params() });
            i += 1;
        }
        let mut connections: Vec<SavedConnection> = Vec::new();
        let mut k: usize = 0;
        while k < self.connections.len()
            invariant
                self.wf(),
                k <= self.connections@.len(),
                connections@.len() == k as nat,
                forall|j: int|
                    0 <= j < k ==> {
                        let s = #[trigger] connections@[j];
                        let c = self.spec_connections()[j];
                        &&& s.src_id == self.spec_modules()[c.src as int].id
                        &&& s.src_output == c.src_output as u64
                        &&& s.dst_id == self.spec_modules()[c.dst as int].id
                        &&& s.dst_input == c.dst_input as u64
                    },
            decreases self.connections@.len() - k,
        {
            let c = self.connections[k];
            proof {
                assert(conn_wf(self.spec_connections()[k as int], self.spec_modules()));
            }
            connections.push(
                SavedConnection {
                    src_id: self.modules[c.src].id,
                    src_output: c.src_output as u64,
                    dst_id: self.modules[c.dst].id,
                    dst_input: c.dst_input as u64,
                },
            );
            k += 1;
        }
        WorkspaceState { modules, connections }
    }

    /// Rebuilds a live graph from a snapshot.  Every native-plugin module is
    /// rebuilt around the arity the host reports now (`plugin`).  Exactly the
    /// snapshots satisfying [`restorable`] are accepted: duplicate ids,
    /// unknown ids in a connection, a terminal out of range, two producers
    /// for one input, and a backward edge are each rejected.
    pub fn restore(ws: &WorkspaceState, plugin: PluginInfo) -> (r: Result<Engine, EditError>)
        ensures
            r is Ok <==> restorable(*ws, plugin),
            match r {
                Ok(e) => {
                    &&& e.wf()
                    &&& e.spec_tick() == 0
                    &&& e.spec_modules().len() == ws.modules@.len()
                    &&& forall|i: int|
                        0 <= i < ws.modules@.len() ==> {
                            let m = #[trigger] e.spec_modules()[i];
                            &&& m.id == ws.modules@[i].id
                            &&& m.module.spec_params() == ws.modules@[i].params
                        }
                    &&& e.spec_connections().len() == ws.connections@.len()
                    &&& forall|k: int|
                        0 <= k < ws.connections@.len() ==> {
                            let c = #[trigger] e.spec_connections()[k];
                            let s = ws.connections@[k];
                            &&& e.spec_modules()[c.src as int].id == s.src_id
                            &&& c.src_output as u64 == s.src_output
                            &&& e.spec_modules()[c.dst as int].id == s.dst_id
                            &&& c.dst_input as u64 == s.dst_input
                        }
                },
                Err(_) => true,
            },
    {
        let mut e = Engine::new();
        let mut i: usize = 0;
        while i < ws.modules.len()
            invariant
                e.wf(),
                e.spec_tick() == 0,
                e.spec_connections().len() == 0,
                i <= ws.modules@.len(),
                e.spec_modules().len() == i as nat,
                forall|j: int| 0 <= j < i ==> (#[trigger] ws.modules@[j]).id < u64::MAX,
                forall|j: int|
                    0 <= j < i ==> {
                        let m = #[trigger] e.spec_modules()[j];
                        &&& m.id == ws.modules@[j].id
                        &&& m.module.spec_params() == ws.modules@[j].params
                        &&& m.module.spec_input_count() == params_input_count(
                            ws.modules@[j].params,
                            plugin,
                        )
                        &&& m.module.spec_output_count() == params_output_count(
                            ws.modules@[j].params,
                            plugin,
                        )
                    },
            decreases ws.modules@.len() - i,
        {
            let saved = ws.modules[i];
            match e.find_module(saved.id) {
                Some(dup) => {
                    proof {
                        assert(e.spec_modules()[dup as int].id == saved.id);
                        assert(ws.modules@[dup as int].id == ws.modules@[i as int].id);
                        assert(!saved_modules_ok(ws.modules@));
                    }
                    return Err(EditError::DuplicateId);
                },
                None => {},
            }
            if saved.id == u64::MAX {
                proof {
                    assert(ws.modules@[i as int].id == u64::MAX);
                    assert(!saved_modules_ok(ws.modules@));
                }
                return Err(EditError::IdsExhausted);
            }
            let (m, _ind) = AnyModule::create(saved.params, plugin);
            let ghost prev = e.modules@;
            if saved.id >= e.next_id {
                e.next_id = saved.id + 1;
            }
            e.modules.push(ModuleSlot { id: saved.id, module: m });
            proof {
                let new_ms = e.modules@;
                assert forall|a: int| 0 <= a < new_ms.len() implies (#[trigger] new_ms[a]).id
                    < e.next_id by {
                    if a < prev.len() {
                        assert(new_ms[a] == prev[a]);
                    }
                }
                assert forall|a: int, b: int| 0 <= a < b < new_ms.len() implies (
                #[trigger] new_ms[a]).id != (#[trigger] new_ms[b]).id by {
                    if b == new_ms.len() - 1 {
                        assert(new_ms[a] == prev[a]);
                        assert(prev[a].id != saved.id);
                    } else {
                        assert(new_ms[a] == prev[a]);
                        assert(new_ms[b] == prev[b]);
                    }
                }
            }
            i += 1;
        }
        proof {
            assert forall|a: int, b: int| 0 <= a < b < ws.modules@.len() implies (
            #[trigger] ws.modules@[a]).id != (#[trigger] ws.modules@[b]).id by {
                assert(e.spec_modules()[a].id != e.spec_modules()[b].id);
            }
            assert(saved_modules_ok(ws.modules@));
        }
        let mut k: usize = 0;
        while k < ws.connections.len()
            invariant
                e.wf(),
                e.spec_tick() == 0,
                saved_modules_ok(ws.modules@),
                k <= ws.connections@.len(),
                e.spec_modules().len() == ws.modules@.len(),
                ws.modules@.len() <= usize::MAX,
                forall|j: int|
                    0 <= j < ws.modules@.len() ==> {
                        let m = #[trigger] e.spec_modules()[j];
                        &&& m.id == ws.modules@[j].id
                        &&& m.module.spec_params() == ws.modules@[j].params
                        &&& m.module.spec_input_count() == params_input_count(
                            ws.modules@[j].params,
                            plugin,
                        )
                        &&& m.module.spec_output_count() == params_output_count(
                            ws.modules@[j].params,
                            plugin,
                        )
                    },
                e.spec_connections().len() == k as nat,
                forall|j: int| 0 <= j < k ==> saved_conn_ok(*ws, plugin, j),
                forall|j: int|
                    0 <= j < k ==> {
                        let c = #[trigger] e.spec_connections()[j];
                        let s = ws.connections@[j];
                        &&& conn_wf(c, e.spec_modules())
                        &&& e.spec_modules()[c.src as int].id == s.src_id
                        &&& c.src_output as u64 == s.src_output
                        &&& e.spec_modules()[c.dst as int].id == s.dst_id
                        &&& c.dst_input as u64 == s.dst_input
                    },
            decreases ws.connections@.len() - k,
        {
            let s = ws.connections[k];
            if s.src_output > (usize::MAX as u64) || s.dst_input > (usize::MAX as u64) {
                proof {
                    assert(!saved_conn_ok(*ws, plugin, k as int));
                    assert(!restorable(*ws, plugin));
                }
                return Err(EditError::BadTerminal);
            }
            let ghost e_prev = e;
            let r = e.add_connection(s.src_id, s.src_output as usize, s.dst_id, s.dst_input as usize);
            proof {
                // the engine mirrors the saved modules, so existence and
                // positions agree between the two
                assert forall|id: u64| e_prev.spec_has_module(id) == saved_has_module(
                    ws.modules@,
                    id,
                ) by {
                    if e_prev.spec_has_module(id) {
                        let p = e_prev.spec_index_of(id);
                        assert(0 <= p < e_prev.spec_modules().len()
                            && e_prev.spec_modules()[p].id == id);
                        assert(ws.modules@[p].id == id);
                        assert(saved_has_module(ws.modules@, id));
                    }
                    if saved_has_module(ws.modules@, id) {
                        let p = saved_index_of(ws.modules@, id);
                        assert(0 <= p < ws.modules@.len() && ws.modules@[p].id == id);
                        assert(e_prev.spec_modules()[p].id == id);
                        assert(e_prev.spec_has_module(id));
                    }
                }
            }
            match r {
                Ok(()) => {},
                Err(err) => {
                    proof {
                        let si = e_prev.spec_index_of(s.src_id);
                        let di = e_prev.spec_index_of(s.dst_id);
                        if e_prev.spec_has_module(s.src_id) {
                            assert(e_prev.spec_modules()[si].id == s.src_id);
                            assert(ws.modules@[si].id == s.src_id);
                            lemma_saved_index_of(ws.modules@, s.src_id, si);
                        }
                        if e_prev.spec_has_module(s.dst_id) {
                            assert(e_prev.spec_modules()[di].id == s.dst_id);
                            assert(ws.modules@[di].id == s.dst_id);
                            lemma_saved_index_of(ws.modules@, s.dst_id, di);
                        }
                        match err {
                            EditError::NoSuchModule => {
                                assert(!saved_conn_ok(*ws, plugin, k as int));
                            },
                            EditError::WouldCycle => {
                                assert(!saved_conn_ok(*ws, plugin, k as int));
                            },
                            EditError::BadTerminal => {
                                assert(!saved_conn_ok(*ws, plugin, k as int));
                            },
                            EditError::InputInUse => {
                                let k2 = choose|k2: int|
                                    0 <= k2 < e_prev.spec_connections().len() && feeds(
                                        #[trigger] e_prev.spec_connections()[k2],
                                        di,
                                        s.dst_input as int,
                                    );
                                let c2 = e_prev.spec_connections()[k2];
                                assert(e_prev.spec_modules()[c2.dst as int].id == ws.connections@[
                                    k2].dst_id);
                                assert(ws.connections@[k2].dst_id == s.dst_id);
                                assert(ws.connections@[k2].dst_input == s.dst_input);
                                assert(!saved_conn_ok(*ws, plugin, k as int));
                            },
                            _ => {
                                assert(false);
                            },
                        }
                        assert(!restorable(*ws, plugin));
                    }
                    return Err(err);
                },
            }
            proof {
                let si = e_prev.spec_index_of(s.src_id);
                let di = e_prev.spec_index_of(s.dst_id);
                assert(e_prev.spec_has_module(s.src_id) && e_prev.spec_has_module(s.dst_id));
                assert(0 <= si < e_prev.spec_modules().len() && e_prev.spec_modules()[si].id
                    == s.src_id);
                assert(0 <= di < e_prev.spec_modules().len() && e_prev.spec_modules()[di].id
                    == s.dst_id);
                lemma_saved_index_of(ws.modules@, s.src_id, si);
                lemma_saved_index_of(ws.modules@, s.dst_id, di);
                // this step met every acceptance condition of its snapshot form
                assert forall|k2: int|
                    0 <= k2 < k implies !((#[trigger] ws.connections@[k2]).dst_id == s.dst_id
                        && ws.connections@[k2].dst_input == s.dst_input) by {
                    let c2 = e_prev.spec_connections()[k2];
                    assert(!feeds(c2, di, s.dst_input as int));
                    if ws.connections@[k2].dst_id == s.dst_id && ws.connections@[k2].dst_input
                        == s.dst_input {
                        assert(e_prev.spec_modules()[c2.dst as int].id == s.dst_id);
                        assert(conn_wf(c2, e_prev.spec_modules()));
                        lemma_index_of(e_prev, s.dst_id, c2.dst as int);
                        assert(c2.dst as int == di);
                        assert(c2.dst_input as u64 == s.dst_input);
                        assert((s.dst_input as usize) as int == c2.dst_input as int);
                    }
                }
                assert(saved_conn_ok(*ws, plugin, k as int));
                assert forall|j: int| 0 <= j < k + 1 implies {
                    let c = #[trigger] e.spec_connections()[j];
                    let sj = ws.connections@[j];
                    &&& conn_wf(c, e.spec_modules())
                    &&& e.spec_modules()[c.src as int].id == sj.src_id
                    &&& c.src_output as u64 == sj.src_output
                    &&& e.spec_modules()[c.dst as int].id == sj.dst_id
                    &&& c.dst_input as u64 == sj.dst_input
                } by {
                    assert(conn_wf(e.spec_connections()[j], e.spec_modules()));
                    if j < k {
                        assert(e.spec_connections()[j] == e_prev.spec_connections()[j]);
                        assert(conn_wf(e_prev.spec_connections()[j], e_prev.spec_modules()));
                    } else {
                        assert(e.spec_connections()[j] == e.spec_connections().last());
                        assert(0 <= si <= usize::MAX as int);
                        assert(0 <= di <= usize::MAX as int);
                        assert((si as usize) as int == si);
                        assert((di as usize) as int == di);
                    }
                }
            }
            k += 1;
        }
        Ok(e)
    }
}

} // verus!
