use graph::{build_family_tree, cpu_6502_diagram, dfa_diagram, Person};

#[test]
fn dfa_diagram_has_three_states_and_four_transitions() {
    let g = dfa_diagram();
    assert_eq!(g.record_count(), 0);
    assert_eq!(g.node_count(), 3);
    assert_eq!(g.edge_count(), 4);
    let dot = g.to_dot();
    assert!(dot.contains("rankdir=\"LR\", "));
    assert!(dot.contains("label=\"q0 (start)\", "));
    assert!(dot.contains("fillcolor=\"lightblue\", "));
}

#[test]
fn cpu_diagram_has_one_record_two_nodes_and_forty_wires() {
    let g = cpu_6502_diagram();
    assert_eq!(g.record_count(), 1);
    assert_eq!(g.node_count(), 2);
    assert_eq!(g.edge_count(), 40);
    let dot = g.to_dot();
    assert!(dot.contains("shape=record"));
    assert!(dot.contains(">VSS"));
    assert!(dot.contains(">A15"));
    assert!(dot.contains(">20"));
}

#[test]
fn family_tree_builds_one_node_per_person_and_parent_edges() {
    let people = vec![
        Person {
            id: 1,
            parent_id: None,
            name: "Ada".to_string(),
            gender: "female".to_string(),
            alt_names: vec!["Countess".to_string()],
            category: "patriarch".to_string(),
        },
        Person {
            id: 2,
            parent_id: Some(1),
            name: "Byron".to_string(),
            gender: "male".to_string(),
            alt_names: vec![],
            category: "poet".to_string(),
        },
    ];
    let g = build_family_tree(&people);
    assert_eq!(g.node_count(), 2);
    assert_eq!(g.edge_count(), 1);
    let dot = g.to_dot();
    assert!(dot.contains("Ada [patriarch] (Countess)"));
    assert!(dot.contains("Byron [person] "));
    assert!(dot.contains("fillcolor=\"pink\", "));
    assert!(dot.contains("fillcolor=\"lightblue\", "));
    assert!(dot.contains(" -> "));
}
