//! The engine/session boundary: one hub owns the current workspace snapshot
//! and fans change events out to any number of observers.  Each observer gets
//! its own bounded queue with drop-oldest semantics, so a slow or absent
//! observer never blocks publishing; among the events an observer retains,
//! order is preserved — every queue is a suffix of the published history.

use vstd::prelude::*;

use crate::types::{PerformanceInfo, WorkspaceState};

verus! {

/// The one expected failure of `connect`: the engine is gone.
#[derive(Clone, Copy, PartialEq, Eq, Structural, Debug)]
pub enum EngineError {
    Stopped,
}

/// An observer's handle, used to poll its event queue and to disconnect.
#[derive(Clone, Copy, PartialEq, Eq, Structural, Debug)]
pub struct EngineSession {
    pub session_id: u64,
}

/// Two snapshots carry the same state.
pub open spec fn ws_matches(a: WorkspaceState, b: WorkspaceState) -> bool {
    a.modules@ == b.modules@ && a.connections@ == b.connections@
}

/// `events` holds exactly the most recent published states, in order.
pub open spec fn is_recent_suffix(events: Seq<WorkspaceState>, history: Seq<WorkspaceState>) -> bool {
    &&& events.len() <= history.len()
    &&& forall|j: int|
        0 <= j < events.len() ==> ws_matches(
            #[trigger] events[j],
            history[history.len() - events.len() + j],
        )
}

/// How one observer's queue changes when a state is published: appended while
/// below capacity, otherwise the oldest retained event is dropped first.  The
/// retained prefix is kept verbatim, so ordering is preserved.
pub open spec fn queue_step(
    oldq: Seq<WorkspaceState>,
    newq: Seq<WorkspaceState>,
    ws: WorkspaceState,
    cap: int,
) -> bool {
    &&& (oldq.len() < cap ==> newq.len() == oldq.len() + 1 && newq.subrange(
        0,
        oldq.len() as int,
    ) == oldq)
    &&& (oldq.len() >= cap ==> newq.len() == cap && newq.subrange(0, cap - 1) == oldq.subrange(
        oldq.len() - (cap - 1),
        oldq.len() as int,
    ))
    &&& ws_matches(newq.last(), ws)
}

struct SessionQueue {
    id: u64,
    events: Vec<WorkspaceState>,
}

/// The multiplexer between the tick loop and its observers.
pub struct SessionHub {
    running: bool,
    current: WorkspaceState,
    sessions: Vec<SessionQueue>,
    next_session: u64,
    capacity: usize,
    perf: Vec<PerformanceInfo>,
    history: Ghost<Seq<WorkspaceState>>,
}

impl SessionHub {
    pub closed spec fn spec_running(&self) -> bool {
        self.running
    }

    pub closed spec fn spec_current(&self) -> WorkspaceState {
        self.current
    }

    pub closed spec fn spec_capacity(&self) -> int {
        self.capacity as int
    }

    pub closed spec fn spec_next_session(&self) -> u64 {
        self.next_session
    }

    /// Every state ever published, oldest first; the current state is last.
    pub closed spec fn spec_history(&self) -> Seq<WorkspaceState> {
        self.history@
    }

    pub closed spec fn spec_session_count(&self) -> nat {
        self.sessions@.len()
    }

    pub closed spec fn spec_session_id_at(&self, x: int) -> u64 {
        self.sessions@[x].id
    }

    pub closed spec fn spec_events_at(&self, x: int) -> Seq<WorkspaceState> {
        self.sessions@[x].events@
    }

    pub closed spec fn spec_has_session(&self, sid: u64) -> bool {
        exists|x: int| 0 <= x < self.sessions@.len() && self.sessions@[x].id == sid
    }

    pub closed spec fn spec_session_index(&self, sid: u64) -> int {
        choose|x: int| 0 <= x < self.sessions@.len() && self.sessions@[x].id == sid
    }

    pub closed spec fn spec_perf(&self) -> Seq<PerformanceInfo> {
        self.perf@
    }

    /// Hub well-formedness: the current state is the last published one,
    /// session ids are unique and below the allocation counter, and every
    /// observer's queue is a bounded suffix of the history.
    pub closed spec fn wf(&self) -> bool {
        &&& self.capacity >= 1
        &&& self.history@.len() >= 1
        &&& ws_matches(self.current, self.history@.last())
        &&& forall|x: int|
            0 <= x < self.sessions@.len() ==> (#[trigger] self.sessions@[x]).id
                < self.next_session
        &&& forall|x: int, y: int|
            0 <= x < y < self.sessions@.len() ==> (#[trigger] self.sessions@[x]).id != (
            #[trigger] self.sessions@[y]).id
        &&& forall|x: int|
            0 <= x < self.sessions@.len() ==> (#[trigger] self.sessions@[x]).events@.len()
                <= self.capacity
        &&& forall|x: int|
            0 <= x < self.sessions@.len() ==> is_recent_suffix(
                (#[trigger] self.sessions@[x]).events@,
                self.history@,
            )
        &&& self.perf@.len() <= self.capacity
    }

    /// A hub for a freshly started engine, seeded with its first snapshot.
    pub fn new(initial: WorkspaceState, capacity: usize) -> (r: SessionHub)
        requires
            capacity >= 1,
        ensures
            r.wf(),
            r.spec_running(),
            r.spec_current() == initial,
            r.spec_history() =~= seq![initial],
            r.spec_session_count() == 0,
            r.spec_capacity() == capacity,
            r.spec_perf().len() == 0,
    {
        let ghost h = seq![initial];
        SessionHub {
            running: true,
            current: initial,
            sessions: Vec::new(),
            next_session: 0,
            capacity,
            perf: Vec::new(),
            history: Ghost(h),
        }
    }

    /// Atomically captures the current state, registers the caller for all
    /// subsequent events, and hands back the session handle.  The snapshot is
    /// exactly the state at the moment of the call — never stale.  Fails only
    /// when the engine is gone (or session ids are exhausted); no partial
    /// session is left registered on failure.
    pub fn connect(&mut self) -> (r: Result<(WorkspaceState, EngineSession), EngineError>)
        requires
            old(self).wf(),
        ensures
            final(self).wf(),
            r is Ok <==> old(self).spec_running() && old(self).spec_next_session() < u64::MAX,
            r is Err ==> *final(self) == *old(self) && r == Err::<
                (WorkspaceState, EngineSession),
                EngineError,
            >(EngineError::Stopped),
            match r {
                Ok((ws, s)) => {
                    &&& ws_matches(ws, old(self).spec_current())
                    &&& ws_matches(ws, old(self).spec_history().last())
                    &&& s.session_id == old(self).spec_next_session()
                    &&& !old(self).spec_has_session(s.session_id)
                    &&& final(self).spec_has_session(s.session_id)
                    &&& final(self).spec_session_count() == old(self).spec_session_count() + 1
                    &&& final(self).spec_session_id_at(old(self).spec_session_count() as int)
                        == s.session_id
                    &&& final(self).spec_events_at(old(self).spec_session_count() as int)
                        == Seq::<WorkspaceState>::empty()
                    &&& forall|x: int|
                        0 <= x < old(self).spec_session_count() ==> final(self).spec_session_id_at(
                            x,
                        ) == old(self).spec_session_id_at(x) && final(self).spec_events_at(x)
                            == old(self).spec_events_at(x)
                    &&& final(self).spec_current() == old(self).spec_current()
                    &&& final(self).spec_history() == old(self).spec_history()
                    &&& final(self).spec_running()
                    &&& final(self).spec_perf() == old(self).spec_perf()
                },
                Err(_) => true,
            },
    {
        if !self.running {
            return Err(EngineError::Stopped);
        }
        if self.next_session == u64::MAX {
            return Err(EngineError::Stopped);
        }
        let sid = self.next_session;
        self.next_session = self.next_session + 1;
        let ghost prev = self.sessions@;
        self.sessions.push(SessionQueue { id: sid, events: Vec::new() });
        let snap = self.current.duplicate();
        proof {
            if old(self).spec_has_session(sid) {
                let x = old(self).spec_session_index(sid);
                assert(0 <= x < prev.len() && prev[x].id == sid);
            }
            assert forall|x: int| 0 <= x < self.sessions@.len() implies (
            #[trigger] self.sessions@[x]).id < self.next_session by {
                if x < prev.len() {
                    assert(self.sessions@[x] == prev[x]);
                }
            }
            assert forall|x: int, y: int| 0 <= x < y < self.sessions@.len() implies (
            #[trigger] self.sessions@[x]).id != (#[trigger] self.sessions@[y]).id by {
                if y == self.sessions@.len() - 1 {
                    assert(self.sessions@[x] == prev[x]);
                    assert(prev[x].id < sid);
                } else {
                    assert(self.sessions@[x] == prev[x]);
                    assert(self.sessions@[y] == prev[y]);
                }
            }
            assert forall|x: int| 0 <= x < self.sessions@.len() implies is_recent_suffix(
                (#[trigger] self.sessions@[x]).events@,
                self.history@,
            ) && self.sessions@[x].events@.len() <= self.capacity by {
                if x < prev.len() {
                    assert(self.sessions@[x] == prev[x]);
                    assert(is_recent_suffix(prev[x].events@, self.history@));
                }
            }
        }
        proof {
            assert(self.sessions@[self.sessions@.len() - 1].id == sid);
            assert(self.spec_has_session(sid));
        }
        Ok((snap, EngineSession { session_id: sid }))
    }

    /// Publishes a new state: it becomes the current snapshot, enters the
    /// history, and is appended to every observer's queue, dropping each
    /// queue's oldest event when it is full.  Publishing never fails and
    /// never waits on any observer.
    pub fn publish(&mut self, ws: WorkspaceState)
        requires
            old(self).wf(),
        ensures
            final(self).wf(),
            final(self).spec_running() == old(self).spec_running(),
            final(self).spec_capacity() == old(self).spec_capacity(),
            final(self).spec_next_session() == old(self).spec_next_session(),
            final(self).spec_perf() == old(self).spec_perf(),
            ws_matches(final(self).spec_current(), ws),
            final(self).spec_history() == old(self).spec_history().push(
                final(self).spec_current(),
            ),
            final(self).spec_session_count() == old(self).spec_session_count(),
            forall|x: int|
                0 <= x < old(self).spec_session_count() ==> final(self).spec_session_id_at(x)
                    == old(self).spec_session_id_at(x),
            forall|x: int|
                0 <= x < old(self).spec_session_count() ==> queue_step(
                    old(self).spec_events_at(x),
                    #[trigger] final(self).spec_events_at(x),
                    ws,
                    old(self).spec_capacity(),
                ),
    {
        let n = self.sessions.len();
        let mut x: usize = 0;
        while x < n
            invariant
                old(self).wf(),
                n == old(self).spec_session_count(),
                self.running == old(self).spec_running(),
                self.capacity == old(self).spec_capacity(),
                self.next_session == old(self).spec_next_session(),
                self.current == old(self).spec_current(),
                self.history@ == old(self).spec_history(),
                self.perf@ == old(self).spec_perf(),
                x <= n,
                self.sessions@.len() == n,
                forall|j: int|
                    0 <= j < n ==> (#[trigger] self.sessions@[j]).id == old(self).spec_session_id_at(j),
                forall|j: int| x <= j < n ==> self.sessions@[j] == old(self).sessions@[j],
                forall|j: int|
                    0 <= j < x ==> queue_step(
                        old(self).spec_events_at(j),
                        (#[trigger] self.sessions@[j]).events@,
                        ws,
                        old(self).spec_capacity(),
                    ),
                forall|j: int|
                    0 <= j < x ==> (#[trigger] self.sessions@[j]).events@.len() <= self.capacity,
            decreases n - x,
        {
            let ghost before = self.sessions@;
            let mut q = self.sessions.remove(x);
            let ghost oldq = q.events@;
            proof {
                assert(before[x as int] == old(self).sessions@[x as int]);
                assert(oldq.len() <= self.capacity);
            }
            if q.events.len() >= self.capacity {
                q.events.remove(0);
            }
            q.events.push(ws.duplicate());
            self.sessions.insert(x, q);
            proof {
                assert(self.sessions@ =~= before.update(x as int, self.sessions@[x as int]));
                let newq = self.sessions@[x as int].events@;
                if oldq.len() < old(self).spec_capacity() {
                    assert(newq.subrange(0, oldq.len() as int) =~= oldq);
                } else {
                    assert(oldq.len() == old(self).spec_capacity());
                    assert(newq.subrange(0, old(self).spec_capacity() - 1) =~= oldq.subrange(
                        oldq.len() - (old(self).spec_capacity() - 1),
                        oldq.len() as int,
                    ));
                }
                assert(queue_step(
                    oldq,
                    newq,
                    ws,
                    old(self).spec_capacity(),
                ));
            }
            x += 1;
        }
        self.current = ws;
        proof {
            let h2 = self.history@.push(self.current);
            assert(ws_matches(self.current, h2.last()));
        }
        let ghost h2 = self.history@.push(self.current);
        self.history = Ghost(h2);
        proof {
            assert forall|j: int| 0 <= j < self.sessions@.len() implies is_recent_suffix(
                (#[trigger] self.sessions@[j]).events@,
                self.history@,
            ) by {
                let oldq = old(self).spec_events_at(j);
                let newq = self.sessions@[j].events@;
                let oldh = old(self).spec_history();
                assert(is_recent_suffix(oldq, oldh));
                assert(queue_step(oldq, newq, ws, old(self).spec_capacity()));
                assert forall|jj: int| 0 <= jj < newq.len() implies ws_matches(
                    #[trigger] newq[jj],
                    self.history@[self.history@.len() - newq.len() + jj],
                ) by {
                    if jj < newq.len() - 1 {
                        if oldq.len() < old(self).spec_capacity() {
                            assert(newq[jj] == newq.subrange(0, oldq.len() as int)[jj]);
                            assert(newq[jj] == oldq[jj]);
                        } else {
                            assert(newq[jj] == newq.subrange(
                                0,
                                old(self).spec_capacity() - 1,
                            )[jj]);
                            assert(newq[jj] == oldq[oldq.len() - (old(self).spec_capacity() - 1)
                                + jj]);
                        }
                    } else {
                        assert(ws_matches(newq.last(), ws));
                    }
                }
            }
        }
    }

    /// Drains and returns the caller's pending events, oldest first.  An
    /// unknown session gets nothing.
    pub fn poll_events(&mut self, session: &EngineSession) -> (r: Vec<WorkspaceState>)
        requires
            old(self).wf(),
        ensures
            final(self).wf(),
            !old(self).spec_has_session(session.session_id) ==> *final(self) == *old(self)
                && r@.len() == 0,
            old(self).spec_has_session(session.session_id) ==> {
                let x = old(self).spec_session_index(session.session_id);
                &&& r@ == old(self).spec_events_at(x)
                &&& final(self).spec_events_at(x) == Seq::<WorkspaceState>::empty()
                &&& final(self).spec_session_count() == old(self).spec_session_count()
                &&& forall|j: int|
                    0 <= j < old(self).spec_session_count() ==> final(self).spec_session_id_at(j)
                        == old(self).spec_session_id_at(j)
                &&& forall|j: int|
                    0 <= j < old(self).spec_session_count() && j != x ==> final(self).spec_events_at(j) == old(self).spec_events_at(j)
                &&& final(self).spec_current() == old(self).spec_current()
                &&& final(self).spec_history() == old(self).spec_history()
                &&& final(self).spec_running() == old(self).spec_running()
            },
    {
        let mut x: usize = 0;
        let n = self.sessions.len();
        while x < n
            invariant
                old(self).wf(),
                *self == *old(self),
                n == self.sessions@.len(),
                x <= n,
                forall|j: int| 0 <= j < x ==> (#[trigger] self.sessions@[j]).id != session.session_id,
            decreases n - x,
        {
            if self.sessions[x].id == session.session_id {
                let ghost before = self.sessions@;
                proof {
                    // unique ids make this position the chosen one
                    assert(self.spec_has_session(session.session_id));
                    let c = self.spec_session_index(session.session_id);
                    assert(0 <= c < before.len() && before[c].id == session.session_id);
                    if c < x as int {
                        assert(before[c].id != before[x as int].id);
                    }
                    if c > x as int {
                        assert(before[x as int].id != before[c].id);
                    }
                }
                let mut q = self.sessions.remove(x);
                let mut out: Vec<WorkspaceState> = Vec::new();
                core::mem::swap(&mut out, &mut q.events);
                self.sessions.insert(x, q);
                proof {
                    assert(self.sessions@ =~= before.update(x as int, self.sessions@[x as int]));
                    assert forall|j: int| 0 <= j < self.sessions@.len() implies is_recent_suffix(
                        (#[trigger] self.sessions@[j]).events@,
                        self.history@,
                    ) && self.sessions@[j].events@.len() <= self.capacity by {
                        if j != x as int {
                            assert(self.sessions@[j] == before[j]);
                        }
                        assert(is_recent_suffix(before[j].events@, self.history@));
                    }
                    assert forall|a: int, b: int| 0 <= a < b < self.sessions@.len() implies (
                    #[trigger] self.sessions@[a]).id != (#[trigger] self.sessions@[b]).id by {
                        assert(self.sessions@[a].id == before[a].id);
                        assert(self.sessions@[b].id == before[b].id);
                    }
                    assert forall|a: int| 0 <= a < self.sessions@.len() implies (
                    #[trigger] self.sessions@[a]).id < self.next_session by {
                        assert(self.sessions@[a].id == before[a].id);
                    }
                }
                return out;
            }
            x += 1;
        }
        proof {
            if self.spec_has_session(session.session_id) {
                let c = self.spec_session_index(session.session_id);
                assert(0 <= c < self.sessions@.len() && self.sessions@[c].id
                    == session.session_id);
            }
        }
        Vec::new()
    }

    /// Unregisters an observer; its queue is reclaimed.  Safe at any point;
    /// says whether the session was registered.
    pub fn disconnect(&mut self, session: EngineSession) -> (r: bool)
        requires
            old(self).wf(),
        ensures
            final(self).wf(),
            !final(self).spec_has_session(session.session_id),
            r <==> old(self).spec_has_session(session.session_id),
            !r ==> *final(self) == *old(self),
            final(self).spec_current() == old(self).spec_current(),
            final(self).spec_history() == old(self).spec_history(),
            final(self).spec_running() == old(self).spec_running(),
            forall|sid: u64|
                sid != session.session_id ==> (final(self).spec_has_session(sid) <==> old(self).spec_has_session(sid)),
    {
        let mut x: usize = 0;
        let n = self.sessions.len();
        while x < n
            invariant
                old(self).wf(),
                *self == *old(self),
                n == self.sessions@.len(),
                x <= n,
                forall|j: int| 0 <= j < x ==> (#[trigger] self.sessions@[j]).id != session.session_id,
            decreases n - x,
        {
            if self.sessions[x].id == session.session_id {
                let ghost before = self.sessions@;
                self.sessions.remove(x);
                proof {
                    assert forall|j: int| 0 <= j < self.sessions@.len() implies is_recent_suffix(
                        (#[trigger] self.sessions@[j]).events@,
                        self.history@,
                    ) && self.sessions@[j].events@.len() <= self.capacity && self.sessions@[j].id
                        < self.next_session by {
                        let a = if j < x { j } else { j + 1 };
                        assert(self.sessions@[j] == before[a]);
                        assert(is_recent_suffix(before[a].events@, self.history@));
                    }
                    assert forall|a: int, b: int| 0 <= a < b < self.sessions@.len() implies (
                    #[trigger] self.sessions@[a]).id != (#[trigger] self.sessions@[b]).id by {
                        let a1 = if a < x { a } else { a + 1 };
                        let b1 = if b < x { b } else { b + 1 };
                        assert(self.sessions@[a] == before[a1]);
                        assert(self.sessions@[b] == before[b1]);
                        assert(before[a1].id != before[b1].id);
                    }
                    assert forall|j: int| 0 <= j < self.sessions@.len() implies (
                    #[trigger] self.sessions@[j]).id != session.session_id by {
                        let a = if j < x { j } else { j + 1 };
                        assert(self.sessions@[j] == before[a]);
                        if a != x {
                            assert(before[a].id != before[x as int].id);
                        }
                    }
                    if self.spec_has_session(session.session_id) {
                        let c = self.spec_session_index(session.session_id);
                        assert(0 <= c < self.sessions@.len() && self.sessions@[c].id
                            == session.session_id);
                    }
                    assert(before[x as int].id == session.session_id);
                    assert(old(self).spec_has_session(session.session_id));
                    assert forall|sid: u64|
                        sid != session.session_id implies (self.spec_has_session(sid) <==> old(self).spec_has_session(sid)) by {
                        if old(self).spec_has_session(sid) {
                            let c = old(self).spec_session_index(sid);
                            assert(0 <= c < before.len() && before[c].id == sid);
                            assert(c != x as int);
                            let c2 = if c < x as int { c } else { c - 1 };
                            assert(self.sessions@[c2] == before[c]);
                            assert(self.spec_has_session(sid));
                        }
                        if self.spec_has_session(sid) {
                            let c = self.spec_session_index(sid);
                            assert(0 <= c < self.sessions@.len() && self.sessions@[c].id == sid);
                            let a = if c < x as int { c } else { c + 1 };
                            assert(self.sessions@[c] == before[a]);
                            assert(old(self).spec_has_session(sid));
                        }
                    }
                }
                return true;
            }
            x += 1;
        }
        proof {
            if self.spec_has_session(session.session_id) {
                let c = self.spec_session_index(session.session_id);
                assert(0 <= c < self.sessions@.len() && self.sessions@[c].id
                    == session.session_id);
            }
        }
        false
    }

    /// Marks the engine as terminated: every later `connect` fails.
    pub fn stop(&mut self)
        requires
            old(self).wf(),
        ensures
            final(self).wf(),
            !final(self).spec_running(),
            final(self).spec_current() == old(self).spec_current(),
            final(self).spec_history() == old(self).spec_history(),
            final(self).spec_session_count() == old(self).spec_session_count(),
    {
        self.running = false;
    }

    /// Appends one per-tick timing record to the lossy telemetry feed,
    /// dropping the oldest when full; never fails and never waits.
    pub fn push_perf(&mut self, p: PerformanceInfo)
        requires
            old(self).wf(),
        ensures
            final(self).wf(),
            final(self).spec_perf().last() == p,
            final(self).spec_perf().len() <= old(self).spec_capacity(),
            old(self).spec_perf().len() < old(self).spec_capacity() ==> final(self).spec_perf()
                == old(self).spec_perf().push(p),
            old(self).spec_perf().len() >= old(self).spec_capacity() ==> final(self).spec_perf()
                == old(self).spec_perf().subrange(1, old(self).spec_perf().len() as int).push(p),
            final(self).spec_current() == old(self).spec_current(),
            final(self).spec_history() == old(self).spec_history(),
            final(self).spec_session_count() == old(self).spec_session_count(),
            forall|x: int|
                0 <= x < old(self).spec_session_count() ==> final(self).spec_session_id_at(x)
                    == old(self).spec_session_id_at(x) && final(self).spec_events_at(x) == old(self).spec_events_at(x),
            final(self).spec_running() == old(self).spec_running(),
    {
        if self.perf.len() >= self.capacity {
            self.perf.remove(0);
            proof {
                assert(self.perf@ =~= old(self).spec_perf().subrange(
                    1,
                    old(self).spec_perf().len() as int,
                ));
            }
        }
        self.perf.push(p);
    }

    /// Drains the telemetry feed, oldest first.
    pub fn take_perf(&mut self) -> (r: Vec<PerformanceInfo>)
        requires
            old(self).wf(),
        ensures
            final(self).wf(),
            r@ == old(self).spec_perf(),
            final(self).spec_perf() == Seq::<PerformanceInfo>::empty(),
            final(self).spec_current() == old(self).spec_current(),
            final(self).spec_history() == old(self).spec_history(),
            final(self).spec_session_count() == old(self).spec_session_count(),
            forall|x: int|
                0 <= x < old(self).spec_session_count() ==> final(self).spec_session_id_at(x)
                    == old(self).spec_session_id_at(x) && final(self).spec_events_at(x) == old(self).spec_events_at(x),
            final(self).spec_running() == old(self).spec_running(),
    {
        let mut out: Vec<PerformanceInfo> = Vec::new();
        core::mem::swap(&mut out, &mut self.perf);
        out
    }
}

} // verus!
