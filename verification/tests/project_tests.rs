use mixlab::codec::{parse_workspace, serialize_workspace};
use mixlab::engine::Engine;
use mixlab::project::{open_or_create, OpenError, UploadError, UploadInfo};
use mixlab::session::EngineError;
use mixlab::types::{GateState, ModuleParams, PerformanceInfo, PluginInfo, SavedConnection, SavedModule, WorkspaceState};

fn plugin_1x1() -> PluginInfo {
    PluginInfo { inputs: 1, outputs: 1 }
}

fn demo_info() -> UploadInfo {
    UploadInfo { name: String::from("drums.wav"), kind: String::from("audio/wav"), size: 7 }
}

fn demo_workspace() -> WorkspaceState {
    let mut engine = Engine::new();
    let g = engine.add_module(ModuleParams::Gate(GateState::Open), plugin_1x1()).unwrap();
    let v = engine.add_module(ModuleParams::Vst, plugin_1x1()).unwrap();
    engine.add_connection(g, 0, v, 0).unwrap();
    engine.snapshot()
}

#[test]
fn empty_workspace_serializes_to_the_exact_document() {
    let ws = WorkspaceState::default();
    let bytes = serialize_workspace(&ws);
    assert_eq!(String::from_utf8(bytes).unwrap(), "{\"modules\":[],\"connections\":[]}");
}

#[test]
fn small_workspace_serializes_to_the_exact_document() {
    let ws = demo_workspace();
    let bytes = serialize_workspace(&ws);
    let expected = "{\"modules\":[{\"id\":0,\"params\":{\"type\":\"gate\",\"state\":\"open\"}},{\"id\":1,\"params\":{\"type\":\"vst\"}}],\"connections\":[{\"srcId\":0,\"srcOutput\":0,\"dstId\":1,\"dstInput\":0}]}";
    assert_eq!(String::from_utf8(bytes).unwrap(), expected);
}

#[test]
fn parse_inverts_serialize() {
    let ws = demo_workspace();
    let bytes = serialize_workspace(&ws);
    let parsed = parse_workspace(&bytes).unwrap();
    assert_eq!(parsed.modules.len(), ws.modules.len());
    assert_eq!(parsed.connections.len(), ws.connections.len());
    for (a, b) in parsed.modules.iter().zip(ws.modules.iter()) {
        assert_eq!(a, b);
    }
    for (a, b) in parsed.connections.iter().zip(ws.connections.iter()) {
        assert_eq!(a, b);
    }
}

#[test]
fn parse_rejects_garbage_and_non_canonical_documents() {
    assert!(parse_workspace(&b"not json at all".to_vec()).is_none());
    assert!(parse_workspace(&b"{\"modules\":[],\"connections\":[]".to_vec()).is_none());
    assert!(parse_workspace(&Vec::new()).is_none());
    // trailing bytes after a valid document are rejected
    let mut bytes = serialize_workspace(&WorkspaceState::default());
    bytes.push(b' ');
    assert!(parse_workspace(&bytes).is_none());
}

#[test]
fn snapshot_roundtrip_is_byte_identical() {
    let ws = demo_workspace();
    let first = serialize_workspace(&ws);
    let parsed = parse_workspace(&first).unwrap();
    let rebuilt = Engine::restore(&parsed, plugin_1x1()).unwrap();
    let second = serialize_workspace(&rebuilt.snapshot());
    assert_eq!(first, second);
}

#[test]
fn open_without_a_persisted_file_uses_the_default_workspace() {
    let (mut engine, _handle) = open_or_create(None, plugin_1x1(), 8).unwrap();
    let bytes = serialize_workspace(&engine.snapshot());
    assert_eq!(String::from_utf8(bytes).unwrap(), "{\"modules\":[],\"connections\":[]}");
    let tick = engine.run_tick();
    assert!(tick.outputs.is_empty());
}

#[test]
fn open_with_a_persisted_file_restores_the_graph() {
    let ws = demo_workspace();
    let bytes = serialize_workspace(&ws);
    let (engine, _handle) = open_or_create(Some(bytes.clone()), plugin_1x1(), 8).unwrap();
    assert_eq!(serialize_workspace(&engine.snapshot()), bytes);
}

#[test]
fn open_with_a_malformed_file_fails_the_open() {
    let r = open_or_create(Some(b"{broken".to_vec()), plugin_1x1(), 8);
    assert!(matches!(r, Err(OpenError::Json)));
}

#[test]
fn uploaded_bytes_counts_exactly_what_was_received() {
    let (_engine, mut handle) = open_or_create(None, plugin_1x1(), 8).unwrap();
    let up = handle.begin_media_upload(demo_info());
    let id = up.id().0;
    assert_eq!(handle.base.uploaded_bytes(id), Some(0));
    up.receive_bytes(&mut handle.base, &[1, 2, 3]).unwrap();
    up.receive_bytes(&mut handle.base, &[4, 5, 6, 7]).unwrap();
    assert_eq!(handle.base.uploaded_bytes(id), Some(7));
}

#[test]
fn finalize_publishes_once_and_only_once() {
    let (_engine, mut handle) = open_or_create(None, plugin_1x1(), 8).unwrap();
    let up = handle.begin_media_upload(demo_info());
    let id = up.id().0;
    let stale = up;
    up.finalize(&mut handle.base).unwrap();
    let record = handle.base.media_info(id).unwrap();
    assert_eq!(record.name, "drums.wav");
    assert_eq!(record.kind, "audio/wav");
    assert_eq!(handle.base.uploaded_bytes(id), None);
    // the second finalize finds no active upload
    assert_eq!(stale.finalize(&mut handle.base), Err(UploadError::Cancelled));
    // the library is untouched by the failed call
    assert!(handle.base.media_info(id).is_some());
}

#[test]
fn receive_after_finalize_fails_cancelled_without_mutating_the_library() {
    let (_engine, mut handle) = open_or_create(None, plugin_1x1(), 8).unwrap();
    let up = handle.begin_media_upload(demo_info());
    let id = up.id().0;
    let stale = up;
    up.finalize(&mut handle.base).unwrap();
    assert_eq!(stale.receive_bytes(&mut handle.base, &[9, 9]), Err(UploadError::Cancelled));
    assert!(handle.base.media_info(id).is_some());
    assert_eq!(handle.base.uploaded_bytes(id), None);
}

#[test]
fn cancellation_removes_the_upload_without_publishing() {
    let (_engine, mut handle) = open_or_create(None, plugin_1x1(), 8).unwrap();
    let up = handle.begin_media_upload(demo_info());
    let id = up.id().0;
    let stale = up;
    assert!(up.cancel(&mut handle.base));
    assert!(handle.base.media_info(id).is_none());
    assert_eq!(stale.receive_bytes(&mut handle.base, &[1]), Err(UploadError::Cancelled));
    assert_eq!(stale.finalize(&mut handle.base), Err(UploadError::Cancelled));
    assert!(handle.base.media_info(id).is_none());
}

#[test]
fn observers_each_get_the_state_current_at_their_own_connect() {
    let (mut engine, mut handle) = open_or_create(None, plugin_1x1(), 8).unwrap();
    let (snap1, s1) = handle.connect_engine().unwrap();
    assert!(snap1.modules.is_empty());
    // an edit happens and is published
    let g = engine.add_module(ModuleParams::Gate(GateState::Open), plugin_1x1()).unwrap();
    let after_edit = engine.snapshot();
    handle.hub.publish(after_edit);
    // a later observer sees the edited state as its initial snapshot
    let (snap2, s2) = handle.connect_engine().unwrap();
    assert_eq!(snap2.modules.len(), 1);
    assert_eq!(snap2.modules[0].id, g);
    // the earlier observer receives the same edit through its event queue
    let events1 = handle.hub.poll_events(&s1);
    assert_eq!(events1.len(), 1);
    assert_eq!(events1[0].modules.len(), 1);
    // the later observer was registered after the edit: nothing pending
    assert!(handle.hub.poll_events(&s2).is_empty());
}

#[test]
fn slow_observer_keeps_only_the_most_recent_events_in_order() {
    let (mut engine, mut handle) = open_or_create(None, plugin_1x1(), 2).unwrap();
    let (_snap, s) = handle.connect_engine().unwrap();
    for _ in 0..3 {
        engine.add_module(ModuleParams::Gate(GateState::Closed), plugin_1x1()).unwrap();
        handle.hub.publish(engine.snapshot());
    }
    let events = handle.hub.poll_events(&s);
    assert_eq!(events.len(), 2);
    // the oldest event was dropped; the retained ones are in publish order
    assert_eq!(events[0].modules.len(), 2);
    assert_eq!(events[1].modules.len(), 3);
}

#[test]
fn disconnect_reclaims_the_session() {
    let (_engine, mut handle) = open_or_create(None, plugin_1x1(), 8).unwrap();
    let (_snap, s) = handle.connect_engine().unwrap();
    assert!(handle.hub.disconnect(s));
    assert!(!handle.hub.disconnect(s));
    assert!(handle.hub.poll_events(&s).is_empty());
}

#[test]
fn connect_fails_cleanly_once_the_engine_is_gone() {
    let (_engine, mut handle) = open_or_create(None, plugin_1x1(), 8).unwrap();
    handle.hub.stop();
    assert!(matches!(handle.connect_engine(), Err(EngineError::Stopped)));
}

#[test]
fn performance_feed_is_drained_in_order_and_lossy_when_full() {
    let (_engine, mut handle) = open_or_create(None, plugin_1x1(), 2).unwrap();
    for t in 0..3u64 {
        handle.hub.push_perf(PerformanceInfo { tick: t, elapsed_micros: 10 * t });
    }
    let records = handle.performance_info();
    assert_eq!(records.len(), 2);
    assert_eq!(records[0].tick, 1);
    assert_eq!(records[1].tick, 2);
    assert!(handle.performance_info().is_empty());
}

#[test]
fn restore_rejects_snapshots_that_name_no_valid_graph() {
    // duplicate ids
    let dup = WorkspaceState {
        modules: vec![
            SavedModule { id: 3, params: ModuleParams::Vst },
            SavedModule { id: 3, params: ModuleParams::Vst },
        ],
        connections: vec![],
    };
    assert!(Engine::restore(&dup, plugin_1x1()).is_err());
    // a connection naming an unknown module
    let unknown = WorkspaceState {
        modules: vec![SavedModule { id: 0, params: ModuleParams::Gate(GateState::Open) }],
        connections: vec![SavedConnection { src_id: 0, src_output: 0, dst_id: 9, dst_input: 0 }],
    };
    assert!(Engine::restore(&unknown, plugin_1x1()).is_err());
    // a backward edge
    let backward = WorkspaceState {
        modules: vec![
            SavedModule { id: 0, params: ModuleParams::Vst },
            SavedModule { id: 1, params: ModuleParams::Gate(GateState::Open) },
        ],
        connections: vec![SavedConnection { src_id: 1, src_output: 0, dst_id: 0, dst_input: 0 }],
    };
    assert!(Engine::restore(&backward, plugin_1x1()).is_err());
}
