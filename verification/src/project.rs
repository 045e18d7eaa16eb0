//! The durable-storage coordinator: the media catalog, the in-flight upload
//! registry, and the project handle that ties them to the live engine.  All
//! catalog and registry mutations go through one owner; the bytes of an
//! upload are written to their own file outside this state, so uploads can
//! proceed in parallel while the metadata stays consistent.

use vstd::prelude::*;

use std::collections::HashMap;

use crate::codec::{parse_workspace, workspace_bytes};
use crate::engine::{lemma_restorable_depends_on_views, restorable, Engine};
use crate::session::{ws_matches, EngineError, EngineSession, SessionHub};
use crate::types::{PerformanceInfo, PluginInfo, WorkspaceState};

verus! {

broadcast use vstd::std_specs::hash::group_hash_axioms;

/// What a caller declares about an upload before the first byte arrives.
pub struct UploadInfo {
    pub name: String,
    pub kind: String,
    pub size: usize,
}

/// A permanent catalog record; created only by a successful finalize and
/// never mutated afterwards.
pub struct MediaInfo {
    pub name: String,
    pub kind: String,
}

/// An upload that has begun but is neither finalized nor cancelled: its
/// declared metadata plus the running byte counter.
pub struct InProgressUpload {
    pub info: UploadInfo,
    pub uploaded_bytes: usize,
}

/// The identifier an upload keeps across the upload-to-published transition.
pub struct MediaUploadId(pub u128);

/// Why an upload call failed.  `Cancelled` covers every call against an
/// identifier that is no longer an active upload — genuine cancellation and
/// double finalize collapse into this one signal.  `Io` is raised only by the
/// surrounding byte-writing layer, never by this state.
#[derive(Clone, Copy, PartialEq, Eq, Structural, Debug)]
pub enum UploadError {
    Io,
    Cancelled,
}

/// Why opening a project failed.
#[derive(Clone, Copy, PartialEq, Eq, Structural, Debug)]
pub enum OpenError {
    /// The storage layer failed to read or create project files.
    Io,
    /// The persisted workspace document is malformed or names a graph that
    /// cannot be rebuilt.
    Json,
    /// The project path exists and is not a directory.
    NotDirectory,
}

/// Relies on uuid::Uuid::new_v4 for a freshly generated random identifier.
/// Nothing is promised of the value: every caller states what holds for any
/// identifier that comes back.
#[verifier::external_body]
fn fresh_upload_id() -> (r: u128) {
    uuid::Uuid::new_v4().as_u128()
}

/// The project's metadata: the published media library and the in-progress
/// upload registry, both keyed by upload identifier.
pub struct ProjectBase {
    library: HashMap<u128, MediaInfo>,
    uploads: HashMap<u128, InProgressUpload>,
}

impl ProjectBase {
    /// The published catalog.
    pub closed spec fn spec_library(&self) -> Map<u128, MediaInfo> {
        self.library@
    }

    /// The in-progress uploads.
    pub closed spec fn spec_uploads(&self) -> Map<u128, InProgressUpload> {
        self.uploads@
    }

    /// A fresh base with an empty catalog and no uploads in flight.
    pub fn open_at() -> (r: ProjectBase)
        ensures
            r.spec_library() == Map::<u128, MediaInfo>::empty(),
            r.spec_uploads() == Map::<u128, InProgressUpload>::empty(),
    {
        ProjectBase { library: HashMap::new(), uploads: HashMap::new() }
    }

    /// Registers a new upload under a freshly generated identifier with zero
    /// bytes received, and hands back the write handle.  The library is not
    /// touched.
    pub fn begin_media_upload(&mut self, info: UploadInfo) -> (r: MediaUpload)
        ensures
            final(self).spec_library() == old(self).spec_library(),
            final(self).spec_uploads() == old(self).spec_uploads().insert(
                r.spec_id(),
                (InProgressUpload { info, uploaded_bytes: 0 }),
            ),
    {
        let id = fresh_upload_id();
        self.uploads.insert(id, InProgressUpload { info, uploaded_bytes: 0 });
        MediaUpload { id }
    }

    /// The published record under `id`, if any.
    pub fn media_info(&self, id: u128) -> (r: Option<&MediaInfo>)
        ensures
            match r {
                Some(m) => self.spec_library().contains_key(id) && *m == self.spec_library()[id],
                None => !self.spec_library().contains_key(id),
            },
    {
        self.library.get(&id)
    }

    /// The running byte counter of the upload under `id`, if it is still
    /// active.
    pub fn uploaded_bytes(&self, id: u128) -> (r: Option<usize>)
        ensures
            match r {
                Some(n) => self.spec_uploads().contains_key(id) && n == self.spec_uploads()[id].uploaded_bytes,
                None => !self.spec_uploads().contains_key(id),
            },
    {
        match self.uploads.get(&id) {
            Some(u) => Some(u.uploaded_bytes),
            None => None,
        }
    }
}

/// The scoped write handle of one upload.  The bytes themselves go to the
/// upload's own file outside this state; this handle moves the metadata
/// through its lifecycle: in progress, then finalized or cancelled exactly
/// once.
#[derive(Clone, Copy)]
pub struct MediaUpload {
    id: u128,
}

impl MediaUpload {
    pub closed spec fn spec_id(&self) -> u128 {
        self.id
    }

    pub fn id(&self) -> (r: MediaUploadId)
        ensures
            r.0 == self.spec_id(),
    {
        MediaUploadId(self.id)
    }

    /// Accounts for `bytes` having been appended to the upload's file.  The
    /// counter grows by exactly the byte count; a call against an identifier
    /// that is no longer an active upload fails with `Cancelled` and mutates
    /// nothing, the library least of all.
    pub fn receive_bytes(&self, base: &mut ProjectBase, bytes: &[u8]) -> (r: Result<
        (),
        UploadError,
    >)
        requires
            old(base).spec_uploads().contains_key(self.spec_id()) ==> old(base).spec_uploads()[self.spec_id()].uploaded_bytes + bytes@.len() <= usize::MAX,
        ensures
            final(base).spec_library() == old(base).spec_library(),
            r is Ok <==> old(base).spec_uploads().contains_key(self.spec_id()),
            r is Ok ==> final(base).spec_uploads() == old(base).spec_uploads().insert(
                self.spec_id(),
                (InProgressUpload {
                    info: old(base).spec_uploads()[self.spec_id()].info,
                    uploaded_bytes: (old(base).spec_uploads()[self.spec_id()].uploaded_bytes
                        + bytes@.len()) as usize,
                }),
            ),
            r is Err ==> final(base).spec_uploads() == old(base).spec_uploads() && r == Err::<
                (),
                UploadError,
            >(UploadError::Cancelled),
    {
        match base.uploads.remove(&self.id) {
            Some(entry) => {
                let updated = InProgressUpload {
                    info: entry.info,
                    uploaded_bytes: entry.uploaded_bytes + bytes.len(),
                };
                base.uploads.insert(self.id, updated);
                proof {
                    assert(base.uploads@ =~= old(base).spec_uploads().insert(
                        self.spec_id(),
                        (InProgressUpload {
                            info: old(base).spec_uploads()[self.spec_id()].info,
                            uploaded_bytes: (old(base).spec_uploads()[self.spec_id()].uploaded_bytes + bytes@.len()) as usize,
                        }),
                    ));
                }
                Ok(())
            },
            None => {
                proof {
                    assert(base.uploads@ =~= old(base).spec_uploads());
                }
                Err(UploadError::Cancelled)
            },
        }
    }

    /// Publishes the upload: the entry leaves the in-progress registry and an
    /// immutable `MediaInfo` record enters the library under the same
    /// identifier.  A second finalize, or one after cancellation, finds no
    /// active upload and fails with `Cancelled` without touching the library.
    pub fn finalize(self, base: &mut ProjectBase) -> (r: Result<(), UploadError>)
        ensures
            r is Ok <==> old(base).spec_uploads().contains_key(self.spec_id()),
            r is Ok ==> final(base).spec_uploads() == old(base).spec_uploads().remove(
                self.spec_id(),
            ) && final(base).spec_library() == old(base).spec_library().insert(
                self.spec_id(),
                (MediaInfo {
                    name: old(base).spec_uploads()[self.spec_id()].info.name,
                    kind: old(base).spec_uploads()[self.spec_id()].info.kind,
                }),
            ),
            r is Err ==> final(base).spec_uploads() == old(base).spec_uploads()
                && final(base).spec_library() == old(base).spec_library()
                && r == Err::<(), UploadError>(
                UploadError::Cancelled,
            ),
    {
        match base.uploads.remove(&self.id) {
            Some(entry) => {
                base.library.insert(
                    self.id,
                    MediaInfo { name: entry.info.name, kind: entry.info.kind },
                );
                Ok(())
            },
            None => {
                proof {
                    assert(base.uploads@ =~= old(base).spec_uploads());
                }
                Err(UploadError::Cancelled)
            },
        }
    }

    /// Cancels the upload: the entry leaves the registry without being
    /// published.  Says whether the upload was still active.  Safe at any
    /// point; the library is never touched.
    pub fn cancel(self, base: &mut ProjectBase) -> (r: bool)
        ensures
            final(base).spec_library() == old(base).spec_library(),
            final(base).spec_uploads() == old(base).spec_uploads().remove(self.spec_id()),
            r <==> old(base).spec_uploads().contains_key(self.spec_id()),
    {
        let r = base.uploads.remove(&self.id);
        proof {
            if !old(base).spec_uploads().contains_key(self.spec_id()) {
                assert(base.uploads@ =~= old(base).spec_uploads().remove(self.spec_id()));
            }
        }
        r.is_some()
    }
}

/// The total of a run of chunk lengths.
pub open spec fn sum_of(lens: Seq<int>) -> int
    decreases lens.len(),
{
    if lens.len() == 0 {
        0
    } else {
        sum_of(lens.drop_last()) + lens.last()
    }
}

/// The byte counter is exact over any run of accounted chunks.  `counters`
/// traces the upload's counter: it starts at zero when the upload is
/// registered, and each successful `receive_bytes` grows it by exactly its
/// chunk's length — as that method's contract states — so after any number of
/// chunks it holds exactly their total.
pub proof fn lemma_uploaded_bytes_total(counters: Seq<int>, lens: Seq<int>)
    requires
        counters.len() == lens.len() + 1,
        counters[0] == 0,
        forall|i: int| 0 <= i < lens.len() ==> counters[i + 1] == counters[i] + lens[i],
    ensures
        counters.last() == sum_of(lens),
    decreases lens.len(),
{
    if lens.len() > 0 {
        let n = lens.len() as int;
        assert(counters.drop_last()[0] == counters[0]);
        assert forall|i: int| 0 <= i < lens.drop_last().len() implies counters.drop_last()[i + 1]
            == counters.drop_last()[i] + lens.drop_last()[i] by {
            assert(counters.drop_last()[i + 1] == counters[i + 1]);
            assert(counters.drop_last()[i] == counters[i]);
            assert(lens.drop_last()[i] == lens[i]);
        }
        lemma_uploaded_bytes_total(counters.drop_last(), lens.drop_last());
        assert(counters.drop_last().last() == counters[n - 1]);
        assert(counters.last() == counters[n - 1] + lens[n - 1]);
    }
}

/// Exactly-once publish: finalizing an active upload inserts its record into
/// the library under the same identifier, and the entry it consumed is gone,
/// so the success condition of a second finalize on that identifier is false.
pub proof fn lemma_finalize_once(
    uploads: Map<u128, InProgressUpload>,
    library: Map<u128, MediaInfo>,
    id: u128,
    rec: MediaInfo,
)
    requires
        uploads.contains_key(id),
    ensures
        library.insert(id, rec).contains_key(id),
        library.insert(id, rec)[id] == rec,
        !uploads.remove(id).contains_key(id),
{
}

/// The externally facing project: the metadata base plus the session hub that
/// multiplexes the live engine outward.
pub struct ProjectHandle {
    pub base: ProjectBase,
    pub hub: SessionHub,
}

impl ProjectHandle {
    /// Registers a new upload; the caller writes the bytes through the
    /// returned handle's file while this state tracks the metadata.
    pub fn begin_media_upload(&mut self, info: UploadInfo) -> (r: MediaUpload)
        ensures
            final(self).base.spec_library() == old(self).base.spec_library(),
            final(self).base.spec_uploads() == old(self).base.spec_uploads().insert(
                r.spec_id(),
                (InProgressUpload { info, uploaded_bytes: 0 }),
            ),
            final(self).hub == old(self).hub,
    {
        self.base.begin_media_upload(info)
    }

    /// Connects an observer to the live engine: atomically captures the
    /// current workspace snapshot, registers the caller for all subsequent
    /// change events, and hands back the session handle.  Fails only when the
    /// engine is gone.
    pub fn connect_engine(&mut self) -> (r: Result<
        (WorkspaceState, EngineSession),
        EngineError,
    >)
        requires
            old(self).hub.wf(),
        ensures
            final(self).hub.wf(),
            final(self).base == old(self).base,
            r is Ok <==> old(self).hub.spec_running() && old(self).hub.spec_next_session()
                < u64::MAX,
            r matches Ok((ws, s)) ==> ws_matches(ws, old(self).hub.spec_current()) && ws_matches(
                ws,
                old(self).hub.spec_history().last(),
            ) && final(self).hub.spec_has_session(s.session_id),
            r is Err ==> *final(self) == *old(self),
    {
        self.hub.connect()
    }

    /// Drains the per-tick timing records gathered since the last call,
    /// oldest first.  The feed is bounded and lossy: a slow consumer loses
    /// the oldest records, never ordering among those kept.
    pub fn performance_info(&mut self) -> (r: Vec<PerformanceInfo>)
        requires
            old(self).hub.wf(),
        ensures
            final(self).hub.wf(),
            final(self).base == old(self).base,
            r@ == old(self).hub.spec_perf(),
            final(self).hub.spec_perf() == Seq::<PerformanceInfo>::empty(),
    {
        self.hub.take_perf()
    }
}

/// Whether a live graph carries exactly a snapshot's content: the same
/// module identities and parameters in the same order, and the same
/// connections, terminal for terminal.
pub open spec fn engine_mirrors(engine: Engine, ws0: WorkspaceState) -> bool {
    &&& engine.spec_modules().len() == ws0.modules@.len()
    &&& forall|i: int|
        0 <= i < ws0.modules@.len() ==> (#[trigger] engine.spec_modules()[i]).id
            == ws0.modules@[i].id && engine.spec_modules()[i].module.spec_params()
            == ws0.modules@[i].params
    &&& engine.spec_connections().len() == ws0.connections@.len()
    &&& forall|k: int|
        0 <= k < ws0.connections@.len() ==> {
            let c = #[trigger] engine.spec_connections()[k];
            let sc = ws0.connections@[k];
            &&& engine.spec_modules()[c.src as int].id == sc.src_id
            &&& c.src_output as u64 == sc.src_output
            &&& engine.spec_modules()[c.dst as int].id == sc.dst_id
            &&& c.dst_input as u64 == sc.dst_input
        }
}

/// Opens a project from the persisted workspace document, if one exists, or
/// from the default empty workspace when none has been written yet.  The open
/// succeeds exactly when the document is the canonical form of a snapshot the
/// engine can rebuild; the live engine then carries exactly that snapshot's
/// content, and the session hub is seeded from it.
pub fn open_or_create(persisted: Option<Vec<u8>>, plugin: PluginInfo, event_capacity: usize) -> (r:
    Result<(Engine, ProjectHandle), OpenError>)
    requires
        event_capacity >= 1,
    ensures
        persisted matches Some(b) ==> (r is Ok <==> exists|ws0: WorkspaceState|
            (#[trigger] workspace_bytes(ws0)) == b@ && restorable(ws0, plugin)),
        match r {
            Ok((engine, handle)) => {
                &&& engine.wf()
                &&& handle.base.spec_library() == Map::<u128, MediaInfo>::empty()
                &&& handle.base.spec_uploads() == Map::<u128, InProgressUpload>::empty()
                &&& handle.hub.wf()
                &&& handle.hub.spec_running()
                &&& handle.hub.spec_current().modules@.len() == engine.spec_modules().len()
                &&& forall|i: int|
                    0 <= i < engine.spec_modules().len() ==> (
                    #[trigger] handle.hub.spec_current().modules@[i]).id
                        == engine.spec_modules()[i].id
                        && handle.hub.spec_current().modules@[i].params
                        == engine.spec_modules()[i].module.spec_params()
                &&& handle.hub.spec_current().connections@.len()
                    == engine.spec_connections().len()
                &&& (persisted is None ==> engine.spec_modules().len() == 0
                    && engine.spec_connections().len() == 0)
                &&& (persisted matches Some(b) ==> exists|ws0: WorkspaceState|
                    (#[trigger] workspace_bytes(ws0)) == b@ && restorable(ws0, plugin)
                        && engine_mirrors(engine, ws0))
            },
            Err(e) => e == OpenError::Json && persisted is Some,
        },
{
    let engine = match persisted {
        None => Engine::new(),
        Some(bytes) => {
            let parsed = parse_workspace(&bytes);
            let ws: WorkspaceState = match parsed {
                Some(ws) => ws,
                None => {
                    proof {
                        assert forall|ws0: WorkspaceState|
                            !((#[trigger] workspace_bytes(ws0)) == bytes@ && restorable(
                                ws0,
                                plugin,
                            )) by {
                            if workspace_bytes(ws0) == bytes@ {
                                assert(false);
                            }
                        }
                    }
                    return Err(OpenError::Json);
                },
            };
            let engine = match Engine::restore(&ws, plugin) {
                Ok(e) => e,
                Err(_) => {
                    proof {
                        assert forall|ws0: WorkspaceState|
                            !((#[trigger] workspace_bytes(ws0)) == bytes@ && restorable(
                                ws0,
                                plugin,
                            )) by {
                            if workspace_bytes(ws0) == bytes@ && restorable(ws0, plugin) {
                                lemma_restorable_depends_on_views(ws0, ws, plugin);
                                assert(false);
                            }
                        }
                    }
                    return Err(OpenError::Json);
                },
            };
            proof {
                // the parsed snapshot itself witnesses acceptance and mirror
                assert(workspace_bytes(ws) == bytes@);
                assert(restorable(ws, plugin));
                assert(engine_mirrors(engine, ws));
                assert(exists|ws0: WorkspaceState|
                    (#[trigger] workspace_bytes(ws0)) == bytes@ && restorable(ws0, plugin)
                        && engine_mirrors(engine, ws0));
            }
            engine
        },
    };
    let snapshot = engine.snapshot();
    let hub = SessionHub::new(snapshot, event_capacity);
    let base = ProjectBase::open_at();
    Ok((engine, ProjectHandle { base, hub }))
}

} // verus!
