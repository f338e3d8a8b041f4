use circuitbuilder::codec::example_model;
use circuitbuilder::codec::from_json;
use circuitbuilder::codec::to_json;
use circuitbuilder::editor::AddingElement;
use circuitbuilder::editor::AuthoringError;
use circuitbuilder::editor::Editor;
use circuitbuilder::editor::SelectedElement;
use circuitbuilder::model::CircuitModel;
use circuitbuilder::model::Function;

const EXAMPLE: &str = r#"{"inputs":[{"value_index":0},{"value_index":1}],"outputs":[{"value_index":2}],"components":[{"input_value_indices":[0,1],"output_value_indices":[2],"owned_value_indices":[],"function":"And"}],"value_list_len":3}"#;

#[test]
fn add_input_allocates_fresh_slot() {
    let mut m = CircuitModel::new();
    m.add_input();
    m.add_input();
    assert_eq!(m.value_list_len(), 2);
    assert_eq!(m.input(0).value_index(), 0);
    assert_eq!(m.input(1).value_index(), 1);
    assert_eq!(m.all_inputs().len(), 2);
}

#[test]
fn add_output_taps_existing_slot() {
    let mut m = CircuitModel::new();
    m.add_input();
    m.add_output(0);
    assert_eq!(m.value_list_len(), 1);
    assert_eq!(m.all_outputs().len(), 1);
    assert_eq!(m.output(0).value_index(), 0);
}

#[test]
fn add_component_grows_by_output_and_owned_counts() {
    let mut m = CircuitModel::new();
    m.add_input();
    m.add_input();
    m.add_component(Function::And, vec![0, 1]);
    // one output slot, no owned state
    assert_eq!(m.value_list_len(), 3);
    let c = m.component(0);
    assert_eq!(c.input_value_indices(), &vec![0, 1]);
    assert_eq!(c.output_value_indices(), &vec![2]);
    assert!(c.owned_value_indices().is_empty());

    let mut m2 = CircuitModel::new();
    m2.add_input();
    m2.add_input();
    m2.add_component(Function::FlipFlopD, vec![0, 1]);
    // one output slot plus one owned memory slot
    assert_eq!(m2.value_list_len(), 4);
    let c2 = m2.component(0);
    assert_eq!(c2.output_value_indices(), &vec![2]);
    assert_eq!(c2.owned_value_indices(), &vec![3]);
}

#[test]
fn function_catalog_counts() {
    assert_eq!(Function::And.input_value_count(), 2);
    assert_eq!(Function::Or.input_value_count(), 2);
    assert_eq!(Function::Not.input_value_count(), 1);
    assert_eq!(Function::Nand.input_value_count(), 2);
    assert_eq!(Function::Nor.input_value_count(), 2);
    assert_eq!(Function::FlipFlopRS.input_value_count(), 2);
    assert_eq!(Function::FlipFlopJK.input_value_count(), 3);
    assert_eq!(Function::FlipFlopD.input_value_count(), 2);
    assert_eq!(Function::FlipFlopT.input_value_count(), 2);
    let nested = Function::Circuit(example_model());
    assert_eq!(nested.input_value_count(), 2);
    assert_eq!(nested.output_value_count(), 1);
    assert_eq!(nested.owned_value_count(), 3);
}

#[test]
fn draft_resize_preserves_prefix_and_zero_pads() {
    let mut ed = Editor::new();
    ed.load_model(example_model());
    ed.begin_add_component();
    // default draft: And with an empty binding list
    match &ed.adding {
        AddingElement::AddComponent(d) => {
            assert!(matches!(d.function, Function::And));
            assert!(d.input_value_indices.is_empty());
        }
        _ => panic!("expected a component draft"),
    }
    // switch to a three-input variant: list grows, padded with zeros
    ed.set_draft_function(Function::FlipFlopJK);
    ed.set_draft_input_index(0, 2);
    ed.set_draft_input_index(1, 1);
    ed.set_draft_input_index(2, 1);
    match &ed.adding {
        AddingElement::AddComponent(d) => {
            assert_eq!(d.input_value_indices, vec![2, 1, 1]);
        }
        _ => panic!("expected a component draft"),
    }
    // shrink to one input: only the tail beyond the new arity is discarded
    ed.set_draft_function(Function::Not);
    match &ed.adding {
        AddingElement::AddComponent(d) => {
            assert_eq!(d.input_value_indices, vec![2]);
        }
        _ => panic!("expected a component draft"),
    }
    // grow again: the overlapping prefix survives, the extension is zero
    ed.set_draft_function(Function::Nand);
    match &ed.adding {
        AddingElement::AddComponent(d) => {
            assert_eq!(d.input_value_indices, vec![2, 0]);
        }
        _ => panic!("expected a component draft"),
    }
}

#[test]
fn draft_same_variant_change_is_a_no_op() {
    let mut ed = Editor::new();
    ed.load_model(example_model());
    ed.begin_add_component();
    ed.set_draft_function(Function::Nor);
    ed.set_draft_input_index(0, 2);
    // choosing the same variant again must not discard entered bindings
    ed.set_draft_function(Function::Nor);
    match &ed.adding {
        AddingElement::AddComponent(d) => {
            assert_eq!(d.input_value_indices, vec![2, 0]);
        }
        _ => panic!("expected a component draft"),
    }
}

#[test]
fn start_without_circuit_is_a_no_op() {
    let mut ed = Editor::new();
    ed.start_simulation();
    assert!(ed.simulator.is_none());
    ed.new_circuit();
    ed.start_simulation();
    assert!(ed.simulator.is_some());
}

#[test]
fn stop_keeps_authored_circuit() {
    let mut ed = Editor::new();
    ed.load_model(example_model());
    ed.start_simulation();
    ed.stop_simulation();
    assert!(ed.simulator.is_none());
    assert_eq!(ed.circuit.as_ref().unwrap().value_list_len(), 3);
}

#[test]
fn example_scenario_and_gate() {
    let mut ed = Editor::new();
    ed.load_model(example_model());
    ed.start_simulation();
    {
        let sim = ed.simulator.as_mut().unwrap();
        sim.set_input(0, true);
        sim.set_input(1, true);
    }
    ed.frame_tick();
    assert!(ed.simulator.as_ref().unwrap().value_for_index(2));
    ed.simulator.as_mut().unwrap().set_input(0, false);
    ed.frame_tick();
    assert!(!ed.simulator.as_ref().unwrap().value_for_index(2));
}

#[test]
fn set_input_takes_effect_next_step_only() {
    let mut ed = Editor::new();
    ed.load_model(example_model());
    ed.start_simulation();
    {
        let sim = ed.simulator.as_mut().unwrap();
        sim.set_input(0, true);
        sim.set_input(1, true);
        // no tick yet: the output slot still holds its default
        assert!(!sim.value_for_index(2));
    }
    ed.frame_tick();
    assert!(ed.simulator.as_ref().unwrap().value_for_index(2));
}

#[test]
fn gate_truth_tables() {
    for (f, a, b, want) in [
        (Function::Or, false, false, false),
        (Function::Or, true, false, true),
        (Function::Nand, true, true, false),
        (Function::Nand, false, true, true),
        (Function::Nor, false, false, true),
        (Function::Nor, true, false, false),
    ] {
        let mut m = CircuitModel::new();
        m.add_input();
        m.add_input();
        m.add_component(f, vec![0, 1]);
        m.add_output(2);
        let mut ed = Editor::new();
        ed.load_model(m);
        ed.start_simulation();
        {
            let sim = ed.simulator.as_mut().unwrap();
            sim.set_input(0, a);
            sim.set_input(1, b);
        }
        ed.frame_tick();
        assert_eq!(ed.simulator.as_ref().unwrap().value_for_index(2), want);
    }
    let mut m = CircuitModel::new();
    m.add_input();
    m.add_component(Function::Not, vec![0]);
    m.add_output(1);
    let mut ed = Editor::new();
    ed.load_model(m);
    ed.start_simulation();
    ed.frame_tick();
    assert!(ed.simulator.as_ref().unwrap().value_for_index(1));
}

#[test]
fn flipflop_d_latches_on_clock() {
    let mut m = CircuitModel::new();
    m.add_input(); // data, slot 0
    m.add_input(); // clock, slot 1
    m.add_component(Function::FlipFlopD, vec![0, 1]); // output 2, owned 3
    let mut ed = Editor::new();
    ed.load_model(m);
    ed.start_simulation();
    {
        let sim = ed.simulator.as_mut().unwrap();
        sim.set_input(0, true);
        sim.set_input(1, true);
    }
    ed.frame_tick();
    assert!(ed.simulator.as_ref().unwrap().value_for_index(2));
    // clock low: the stored bit survives a data change
    {
        let sim = ed.simulator.as_mut().unwrap();
        sim.set_input(0, false);
        sim.set_input(1, false);
    }
    ed.frame_tick();
    assert!(ed.simulator.as_ref().unwrap().value_for_index(2));
}

#[test]
fn nested_circuit_component_propagates() {
    let mut m = CircuitModel::new();
    m.add_input();
    m.add_input();
    m.add_component(Function::Circuit(example_model()), vec![0, 1]);
    // one published output slot plus a three-slot private nested space
    assert_eq!(m.value_list_len(), 6);
    m.add_output(2);
    let mut ed = Editor::new();
    ed.load_model(m);
    ed.start_simulation();
    {
        let sim = ed.simulator.as_mut().unwrap();
        sim.set_input(0, true);
        sim.set_input(1, true);
    }
    ed.frame_tick();
    assert!(ed.simulator.as_ref().unwrap().value_for_index(2));
}

#[test]
fn serializes_example_exactly() {
    assert_eq!(to_json(&example_model()), EXAMPLE);
}

#[test]
fn round_trips_example() {
    let m = example_model();
    let text = to_json(&m);
    let m2 = from_json(&text).expect("canonical document must load");
    assert_eq!(m2.value_list_len(), 3);
    assert_eq!(m2.all_inputs().len(), 2);
    assert_eq!(m2.all_outputs().len(), 1);
    assert_eq!(m2.all_components().len(), 1);
    assert_eq!(to_json(&m2), text);
}

#[test]
fn round_trips_nested_circuit() {
    let mut m = CircuitModel::new();
    m.add_input();
    m.add_input();
    m.add_component(Function::Circuit(example_model()), vec![0, 1]);
    m.add_output(2);
    let text = to_json(&m);
    let m2 = from_json(&text).expect("nested document must load");
    assert_eq!(to_json(&m2), text);
    match m2.component(0).function() {
        Function::Circuit(inner) => assert_eq!(inner.value_list_len(), 3),
        _ => panic!("expected an embedded circuit"),
    }
}

#[test]
fn loads_bundled_example_text() {
    let m = from_json(EXAMPLE).expect("bundled example must load");
    assert_eq!(to_json(&m), EXAMPLE);
}

#[test]
fn rejects_malformed_documents() {
    assert!(from_json("").is_none());
    assert!(from_json("not json at all").is_none());
    assert!(from_json(&EXAMPLE[..EXAMPLE.len() - 1]).is_none());
    let mut trailing = String::from(EXAMPLE);
    trailing.push(' ');
    assert!(from_json(&trailing).is_none());
}

#[test]
fn rejects_out_of_range_bindings() {
    // an output tapping slot five of a one-slot space
    let text = r#"{"inputs":[{"value_index":0}],"outputs":[{"value_index":5}],"components":[],"value_list_len":1}"#;
    assert!(from_json(text).is_none());
    // a component whose binding list does not match its function's arity
    let text2 = r#"{"inputs":[{"value_index":0}],"outputs":[],"components":[{"input_value_indices":[0],"output_value_indices":[1],"owned_value_indices":[],"function":"And"}],"value_list_len":2}"#;
    assert!(from_json(text2).is_none());
}

#[test]
fn produced_text_is_valid_json() {
    let text = to_json(&example_model());
    let v: serde_json::Value = serde_json::from_str(&text).expect("well-formed JSON");
    assert_eq!(v.get("value_list_len").and_then(|x| x.as_u64()), Some(3));
    assert_eq!(
        v.get("inputs").and_then(|x| x.as_array()).map(|a| a.len()),
        Some(2)
    );
}

#[test]
fn output_candidate_selector_is_bounded() {
    let mut ed = Editor::new();
    ed.load_model(example_model());
    ed.begin_add_output();
    ed.set_output_candidate(10);
    // the selector's maximum is value_list_len - 1
    match ed.adding {
        AddingElement::AddOutput(c) => assert_eq!(c, 2),
        _ => panic!("expected the add-output workflow"),
    }
    assert!(ed.confirm_add().is_ok());
    let c = ed.circuit.as_ref().unwrap();
    assert_eq!(c.all_outputs().len(), 2);
    assert_eq!(c.output(1).value_index(), 2);
}

#[test]
fn confirm_output_on_empty_space_is_rejected() {
    let mut ed = Editor::new();
    ed.new_circuit();
    ed.begin_add_output();
    assert_eq!(ed.confirm_add(), Err(AuthoringError::InvalidBinding));
    assert_eq!(ed.circuit.as_ref().unwrap().all_outputs().len(), 0);
}

#[test]
fn confirm_outside_a_workflow_is_illegal() {
    let mut ed = Editor::new();
    ed.load_model(example_model());
    assert_eq!(ed.confirm_add(), Err(AuthoringError::IllegalModeTransition));
    let mut ed2 = Editor::new();
    assert_eq!(ed2.confirm_add(), Err(AuthoringError::IllegalModeTransition));
}

#[test]
fn confirm_unresized_draft_is_rejected() {
    let mut ed = Editor::new();
    ed.load_model(example_model());
    ed.begin_add_component();
    // the default draft still has an empty binding list against arity two
    assert_eq!(ed.confirm_add(), Err(AuthoringError::InvalidBinding));
    assert_eq!(ed.circuit.as_ref().unwrap().all_components().len(), 1);
}

#[test]
fn confirm_add_input_commits_and_returns_to_idle() {
    let mut ed = Editor::new();
    ed.load_model(example_model());
    ed.begin_add_input();
    assert!(ed.confirm_add().is_ok());
    assert!(matches!(ed.adding, AddingElement::Idle));
    let c = ed.circuit.as_ref().unwrap();
    assert_eq!(c.value_list_len(), 4);
    assert_eq!(c.input(2).value_index(), 3);
}

#[test]
fn authoring_is_disabled_while_running() {
    let mut ed = Editor::new();
    ed.load_model(example_model());
    ed.start_simulation();
    ed.begin_add_input();
    assert!(matches!(ed.adding, AddingElement::Idle));
    ed.begin_add_component();
    assert!(matches!(ed.adding, AddingElement::Idle));
}

#[test]
fn selection_resets_when_model_is_replaced() {
    let mut ed = Editor::new();
    ed.load_model(example_model());
    ed.select_input(1);
    assert!(matches!(ed.selected, SelectedElement::InputAt(1)));
    ed.new_circuit();
    assert!(matches!(ed.selected, SelectedElement::Nothing));
}

#[test]
fn session_snapshot_is_independent_of_later_edits() {
    let mut ed = Editor::new();
    ed.load_model(example_model());
    ed.start_simulation();
    ed.stop_simulation();
    ed.begin_add_input();
    ed.confirm_add().unwrap();
    ed.start_simulation();
    // the fresh session snapshots the grown circuit
    assert_eq!(
        ed.simulator.as_ref().unwrap().model.value_list_len(),
        ed.circuit.as_ref().unwrap().value_list_len()
    );
}

#[test]
fn flipflop_rs_sets_and_resets() {
    let mut m = CircuitModel::new();
    m.add_input(); // reset, slot 0
    m.add_input(); // set, slot 1
    m.add_component(Function::FlipFlopRS, vec![0, 1]); // output 2, owned 3
    let mut ed = Editor::new();
    ed.load_model(m);
    ed.start_simulation();
    ed.simulator.as_mut().unwrap().set_input(1, true);
    ed.frame_tick();
    assert!(ed.simulator.as_ref().unwrap().value_for_index(2));
    // with both lines low the stored bit holds
    ed.simulator.as_mut().unwrap().set_input(1, false);
    ed.frame_tick();
    assert!(ed.simulator.as_ref().unwrap().value_for_index(2));
    // reset wins
    ed.simulator.as_mut().unwrap().set_input(0, true);
    ed.frame_tick();
    assert!(!ed.simulator.as_ref().unwrap().value_for_index(2));
}

#[test]
fn flipflop_t_toggles_on_clock() {
    let mut m = CircuitModel::new();
    m.add_input(); // toggle, slot 0
    m.add_input(); // clock, slot 1
    m.add_component(Function::FlipFlopT, vec![0, 1]); // output 2, owned 3
    let mut ed = Editor::new();
    ed.load_model(m);
    ed.start_simulation();
    {
        let sim = ed.simulator.as_mut().unwrap();
        sim.set_input(0, true);
        sim.set_input(1, true);
    }
    ed.frame_tick();
    assert!(ed.simulator.as_ref().unwrap().value_for_index(2));
    ed.frame_tick();
    assert!(!ed.simulator.as_ref().unwrap().value_for_index(2));
    // clock low: no further toggling
    ed.simulator.as_mut().unwrap().set_input(1, false);
    ed.frame_tick();
    assert!(!ed.simulator.as_ref().unwrap().value_for_index(2));
}

#[test]
fn flipflop_jk_sets_resets_and_toggles() {
    let mut m = CircuitModel::new();
    m.add_input(); // j, slot 0
    m.add_input(); // k, slot 1
    m.add_input(); // clock, slot 2
    m.add_component(Function::FlipFlopJK, vec![0, 1, 2]); // output 3, owned 4
    let mut ed = Editor::new();
    ed.load_model(m);
    ed.start_simulation();
    {
        let sim = ed.simulator.as_mut().unwrap();
        sim.set_input(0, true);
        sim.set_input(2, true);
    }
    ed.frame_tick();
    assert!(ed.simulator.as_ref().unwrap().value_for_index(3));
    // j and k both high: the bit toggles each clocked step
    ed.simulator.as_mut().unwrap().set_input(1, true);
    ed.frame_tick();
    assert!(!ed.simulator.as_ref().unwrap().value_for_index(3));
    ed.frame_tick();
    assert!(ed.simulator.as_ref().unwrap().value_for_index(3));
    // k alone high resets
    ed.simulator.as_mut().unwrap().set_input(0, false);
    ed.frame_tick();
    assert!(!ed.simulator.as_ref().unwrap().value_for_index(3));
}

#[test]
fn components_propagate_in_order_within_one_step() {
    let mut m = CircuitModel::new();
    m.add_input(); // slot 0
    m.add_component(Function::Not, vec![0]); // output 1
    m.add_component(Function::Not, vec![1]); // output 2, sees slot 1 of this same step
    let mut ed = Editor::new();
    ed.load_model(m);
    ed.start_simulation();
    ed.frame_tick();
    let sim = ed.simulator.as_ref().unwrap();
    assert!(sim.value_for_index(1));
    assert!(!sim.value_for_index(2));
}
