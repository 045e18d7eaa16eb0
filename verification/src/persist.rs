//! The persistence discipline.  A snapshot reaches disk in two steps: the
//! full document is written to a sibling temporary path, and that path is
//! then renamed over the canonical path.  The rename is the sole atomic
//! commit point, so a reader of the canonical path never observes a partially
//! written file, and a crash mid-write leaves the previously committed
//! document intact.  The tick loop never touches storage itself: it only
//! enqueues snapshots, and a single background task drains them and writes.

use vstd::prelude::*;

use crate::codec::workspace_bytes;
use crate::types::WorkspaceState;

verus! {

/// The two paths the persister touches, each either absent or holding bytes.
pub struct StoreState {
    pub temp: Option<Seq<u8>>,
    pub canonical: Option<Seq<u8>>,
}

/// Writing the temporary file: whatever lands there — the full document or
/// any partial prefix left by a crash — only `temp` changes.
pub open spec fn write_temp(s: StoreState, content: Seq<u8>) -> StoreState {
    StoreState { temp: Some(content), canonical: s.canonical }
}

/// The rename: the temporary file atomically becomes the canonical one.
pub open spec fn commit(s: StoreState) -> StoreState
    recommends
        s.temp is Some,
{
    StoreState { temp: None, canonical: s.temp }
}

/// Atomic persistence.  With some snapshot committed at the canonical path,
/// a write of the next document to the temporary path — interrupted at any
/// point, leaving arbitrary bytes there — keeps the canonical path holding
/// the committed document unchanged.  Only a completed write followed by the
/// rename installs the new document, whole.
pub proof fn lemma_atomic_persistence(
    s: StoreState,
    committed: WorkspaceState,
    partial: Seq<u8>,
    next: WorkspaceState,
)
    requires
        s.canonical == Some(workspace_bytes(committed)),
    ensures
        write_temp(s, partial).canonical == Some(workspace_bytes(committed)),
        commit(write_temp(s, workspace_bytes(next))).canonical == Some(workspace_bytes(next)),
{
}

/// After a clean write-and-rename, the canonical path holds exactly the new
/// snapshot's canonical document, whatever it held before.
pub proof fn lemma_clean_write_installs(s: StoreState, next: WorkspaceState)
    ensures
        commit(write_temp(s, workspace_bytes(next))).canonical == Some(workspace_bytes(next)),
        commit(write_temp(s, workspace_bytes(next))).temp is None,
{
}

} // verus!
