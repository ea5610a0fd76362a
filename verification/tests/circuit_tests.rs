use authenticated_tensor_garbling::circuit::{Circuit, Gate};

#[test]
fn test_from_params() {
    let circ = Circuit::from_params(2, 2);
    let mut seen_ids = std::collections::HashSet::new();
    for gate in circ.gates.iter() {
        let (x, y, z) = match gate {
            Gate::And { x, y, z } => (x, y, z),
            Gate::Xor { x, y, z } => (x, y, z),
        };
        assert!(seen_ids.insert(x.id()), "Duplicate wire ID: {}", x.id());
        assert!(seen_ids.insert(y.id()), "Duplicate wire ID: {}", y.id());
        assert!(seen_ids.insert(z.id()), "Duplicate wire ID: {}", z.id());
    }
    assert_eq!(circ.inputs(), 8);
    assert_eq!(circ.outputs(), 4);
    assert_eq!(circ.gates.len(), 4);
    assert_eq!(circ.and_count(), 2);
    assert_eq!(circ.xor_count(), 2);
}

#[test]
fn test_wire_ids_contiguous() {
    let circ = Circuit::from_params(3, 4);
    let mut wire_ids = Vec::new();
    for gate in circ.gates.iter() {
        let (x, y, z) = match gate {
            Gate::And { x, y, z } => (x, y, z),
            Gate::Xor { x, y, z } => (x, y, z),
        };
        wire_ids.push(x.id());
        wire_ids.push(y.id());
        wire_ids.push(z.id());
    }
    for (index, &wire_id) in wire_ids.iter().enumerate() {
        assert_eq!(wire_id, index);
    }
    let total_gates = circ.and_count() + circ.xor_count();
    assert_eq!(wire_ids.len(), total_gates * 3);
}

#[test]
fn wire_lists_follow_gate_kinds() {
    let circ = Circuit::from_params(1, 2);
    let inputs: Vec<usize> = circ.get_input_wires().iter().map(|w| w.id()).collect();
    assert_eq!(inputs, vec![0, 1, 3, 4, 6, 7]);
    let xor_inputs: Vec<usize> = circ.get_xor_input_wires().iter().map(|w| w.id()).collect();
    assert_eq!(xor_inputs, vec![0, 1]);
    let and_wires: Vec<usize> = circ.get_and_wires().iter().map(|w| w.id()).collect();
    assert_eq!(and_wires, vec![3, 4, 5, 6, 7, 8]);
    let outputs: Vec<usize> = circ.get_output_wires().iter().map(|w| w.id()).collect();
    assert_eq!(outputs, vec![2, 5, 8]);
    assert_eq!(circ.total_wires(), 9);
}

#[test]
fn parameter_circuit_wires_are_numbered_in_gate_order() {
    let circ = Circuit::from_params(2, 3);
    let mut listed = Vec::new();
    for gate in circ.gates.iter() {
        let (x, y, z) = match gate {
            Gate::And { x, y, z } => (x, y, z),
            Gate::Xor { x, y, z } => (x, y, z),
        };
        listed.push(x.id);
        listed.push(y.id);
        listed.push(z.id);
    }
    let expected: Vec<usize> = (0..15).collect();
    assert_eq!(listed, expected);
    assert_eq!(circ.total_wires(), circ.get_input_wires().len() + circ.get_output_wires().len());
    assert_eq!(circ.total_wires(), 1 + listed.iter().copied().max().unwrap());
}
