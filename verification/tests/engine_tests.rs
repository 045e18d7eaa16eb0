use mixlab::engine::{EditError, Engine};
use mixlab::gate::Gate;
use mixlab::module::AnyModule;
use mixlab::types::{GateState, LineType, ModuleParams, PluginInfo};
use mixlab::vst::Vst;
use mixlab::{BLOCK_SIZE, SAMPLE_UNIT};

fn plugin_1x1() -> PluginInfo {
    PluginInfo { inputs: 1, outputs: 1 }
}

#[test]
fn gate_open_fills_full_block_of_ones() {
    let (mut gate, _ind) = Gate::create(GateState::Open);
    let (outputs, ind) = gate.run_tick(0, &Vec::new());
    assert_eq!(outputs.len(), 1);
    assert_eq!(outputs[0].len(), BLOCK_SIZE);
    assert!(outputs[0].iter().all(|&s| s == SAMPLE_UNIT));
    assert!(ind.is_none());
}

#[test]
fn gate_closed_fills_full_block_of_zeros() {
    let (mut gate, _ind) = Gate::create(GateState::Closed);
    let (outputs, _) = gate.run_tick(7, &Vec::new());
    assert_eq!(outputs[0].len(), BLOCK_SIZE);
    assert!(outputs[0].iter().all(|&s| s == 0));
}

#[test]
fn gate_update_switches_value() {
    let (mut gate, _ind) = Gate::create(GateState::Open);
    let ind = gate.update(GateState::Closed);
    assert!(ind.is_none());
    assert_eq!(gate.params(), GateState::Closed);
    let (outputs, _) = gate.run_tick(1, &Vec::new());
    assert!(outputs[0].iter().all(|&s| s == 0));
}

#[test]
fn vst_arity_follows_plugin_report() {
    let (vst, _ind) = Vst::create(PluginInfo { inputs: 2, outputs: 3 });
    assert_eq!(vst.input_count(), 2);
    assert_eq!(vst.output_count(), 3);
    assert_eq!(vst.inputs().len(), 2);
    assert_eq!(vst.outputs().len(), 3);
    for t in vst.inputs().iter().chain(vst.outputs().iter()) {
        assert_eq!(t.line_type, LineType::Mono);
        assert!(t.label.is_none());
    }
}

#[test]
fn vst_writes_explicit_silence_to_every_output() {
    let (mut vst, _ind) = Vst::create(PluginInfo { inputs: 1, outputs: 2 });
    let inputs = vec![Some(vec![SAMPLE_UNIT; BLOCK_SIZE])];
    let (outputs, ind) = vst.run_tick(3, &inputs);
    assert_eq!(outputs.len(), 2);
    for block in &outputs {
        assert_eq!(block.len(), BLOCK_SIZE);
        assert!(block.iter().all(|&s| s == 0));
    }
    assert!(ind.is_none());
}

#[test]
fn any_module_rebuilds_on_kind_change() {
    let (mut m, _ind) = AnyModule::create(ModuleParams::Gate(GateState::Open), plugin_1x1());
    assert_eq!(m.input_count(), 0);
    assert_eq!(m.output_count(), 1);
    m.update(ModuleParams::Vst, PluginInfo { inputs: 4, outputs: 5 });
    assert_eq!(m.params(), ModuleParams::Vst);
    assert_eq!(m.input_count(), 4);
    assert_eq!(m.output_count(), 5);
}

#[test]
fn every_output_terminal_gets_exactly_one_block_per_tick() {
    let mut engine = Engine::new();
    let g = engine.add_module(ModuleParams::Gate(GateState::Open), plugin_1x1()).unwrap();
    let v = engine
        .add_module(ModuleParams::Vst, PluginInfo { inputs: 2, outputs: 3 })
        .unwrap();
    engine.add_connection(g, 0, v, 0).unwrap();
    for _ in 0..3 {
        let tick = engine.run_tick();
        assert_eq!(tick.outputs.len(), 2);
        assert_eq!(tick.outputs[0].len(), 1);
        assert_eq!(tick.outputs[1].len(), 3);
        for module_outputs in &tick.outputs {
            for block in module_outputs {
                assert_eq!(block.len(), BLOCK_SIZE);
            }
        }
    }
}

#[test]
fn linear_chain_input_equals_same_tick_output() {
    let mut engine = Engine::new();
    let a = engine.add_module(ModuleParams::Gate(GateState::Open), plugin_1x1()).unwrap();
    let b = engine.add_module(ModuleParams::Vst, plugin_1x1()).unwrap();
    let c = engine.add_module(ModuleParams::Vst, plugin_1x1()).unwrap();
    engine.add_connection(a, 0, b, 0).unwrap();
    engine.add_connection(b, 0, c, 0).unwrap();
    for t in 0..4u64 {
        let tick = engine.run_tick();
        assert_eq!(tick.tick, t);
        assert!(tick.inputs[0].is_empty());
        // B's input at tick t is exactly A's output computed at tick t
        assert_eq!(tick.inputs[1][0].as_ref().unwrap(), &tick.outputs[0][0]);
        assert_eq!(tick.outputs[0][0], vec![SAMPLE_UNIT; BLOCK_SIZE]);
        // C's input at tick t is exactly B's output computed at tick t
        assert_eq!(tick.inputs[2][0].as_ref().unwrap(), &tick.outputs[1][0]);
        assert_eq!(tick.outputs[1][0], vec![0; BLOCK_SIZE]);
    }
}

#[test]
fn unconnected_input_receives_none() {
    let mut engine = Engine::new();
    let _g = engine.add_module(ModuleParams::Gate(GateState::Open), plugin_1x1()).unwrap();
    let _v = engine
        .add_module(ModuleParams::Vst, PluginInfo { inputs: 2, outputs: 1 })
        .unwrap();
    let tick = engine.run_tick();
    assert!(tick.inputs[1][0].is_none());
    assert!(tick.inputs[1][1].is_none());
}

#[test]
fn backward_edge_is_rejected_at_edit_time() {
    let mut engine = Engine::new();
    let v = engine.add_module(ModuleParams::Vst, plugin_1x1()).unwrap();
    let g = engine.add_module(ModuleParams::Gate(GateState::Open), plugin_1x1()).unwrap();
    assert_eq!(engine.add_connection(g, 0, v, 0), Err(EditError::WouldCycle));
    // a self-edge is likewise a cycle
    assert_eq!(engine.add_connection(v, 0, v, 0), Err(EditError::WouldCycle));
}

#[test]
fn edit_errors_name_their_cause() {
    let mut engine = Engine::new();
    let g = engine.add_module(ModuleParams::Gate(GateState::Open), plugin_1x1()).unwrap();
    let v = engine.add_module(ModuleParams::Vst, plugin_1x1()).unwrap();
    assert_eq!(engine.add_connection(99, 0, v, 0), Err(EditError::NoSuchModule));
    assert_eq!(engine.add_connection(g, 1, v, 0), Err(EditError::BadTerminal));
    assert_eq!(engine.add_connection(g, 0, v, 5), Err(EditError::BadTerminal));
    engine.add_connection(g, 0, v, 0).unwrap();
    assert_eq!(engine.add_connection(g, 0, v, 0), Err(EditError::InputInUse));
}

#[test]
fn disconnect_frees_the_input() {
    let mut engine = Engine::new();
    let g = engine.add_module(ModuleParams::Gate(GateState::Open), plugin_1x1()).unwrap();
    let v = engine.add_module(ModuleParams::Vst, plugin_1x1()).unwrap();
    engine.add_connection(g, 0, v, 0).unwrap();
    assert!(engine.disconnect_input(v, 0));
    assert!(!engine.disconnect_input(v, 0));
    let tick = engine.run_tick();
    assert!(tick.inputs[1][0].is_none());
    engine.add_connection(g, 0, v, 0).unwrap();
}

#[test]
fn update_module_params_keeps_the_wiring_valid() {
    let mut engine = Engine::new();
    let g = engine.add_module(ModuleParams::Gate(GateState::Open), plugin_1x1()).unwrap();
    let v = engine.add_module(ModuleParams::Vst, plugin_1x1()).unwrap();
    engine.add_connection(g, 0, v, 0).unwrap();
    // gate parameters can change freely
    engine.update_module(g, ModuleParams::Gate(GateState::Closed), plugin_1x1()).unwrap();
    let tick = engine.run_tick();
    assert_eq!(tick.outputs[0][0], vec![0; BLOCK_SIZE]);
    // shrinking the plugin's arity below a wired terminal is rejected
    assert_eq!(
        engine.update_module(v, ModuleParams::Vst, PluginInfo { inputs: 0, outputs: 1 }),
        Err(EditError::BadTerminal)
    );
    // growing it is fine
    engine
        .update_module(v, ModuleParams::Vst, PluginInfo { inputs: 2, outputs: 2 })
        .unwrap();
}

#[test]
fn remove_module_requires_unwiring_first() {
    let mut engine = Engine::new();
    let g = engine.add_module(ModuleParams::Gate(GateState::Open), plugin_1x1()).unwrap();
    let v = engine.add_module(ModuleParams::Vst, plugin_1x1()).unwrap();
    engine.add_connection(g, 0, v, 0).unwrap();
    assert_eq!(engine.remove_module(g), Err(EditError::ModuleInUse));
    assert!(engine.disconnect_input(v, 0));
    engine.remove_module(g).unwrap();
    assert_eq!(engine.remove_module(g), Err(EditError::NoSuchModule));
    // the remaining module keeps its identity and stays usable
    let g2 = engine.add_module(ModuleParams::Gate(GateState::Closed), plugin_1x1()).unwrap();
    assert_eq!(engine.add_connection(g2, 0, v, 0), Err(EditError::WouldCycle));
    let tick = engine.run_tick();
    assert_eq!(tick.outputs.len(), 2);
}

#[test]
fn remove_module_shifts_surviving_connections() {
    let mut engine = Engine::new();
    let g = engine.add_module(ModuleParams::Gate(GateState::Open), plugin_1x1()).unwrap();
    let lone = engine.add_module(ModuleParams::Vst, PluginInfo { inputs: 0, outputs: 0 }).unwrap();
    let v = engine.add_module(ModuleParams::Vst, plugin_1x1()).unwrap();
    engine.add_connection(g, 0, v, 0).unwrap();
    engine.remove_module(lone).unwrap();
    let tick = engine.run_tick();
    // the surviving edge still feeds the plugin module from the generator
    assert_eq!(tick.inputs[1][0].as_ref().unwrap(), &tick.outputs[0][0]);
    assert_eq!(tick.outputs[0][0], vec![SAMPLE_UNIT; BLOCK_SIZE]);
}
