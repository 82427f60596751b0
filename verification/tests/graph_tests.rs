use graph::{Graph, GridError, Node, Properties, Record, Value, ID};

#[test]
fn node_names_render_in_lower_hex() {
    let node = Node::new(ID::new(1));
    assert_eq!(node.name(), "Node_00000000000000000000000000000001");
    let owned = node.with_record(ID::new(0xab));
    assert_eq!(
        owned.name(),
        "Record_000000000000000000000000000000ab:Node_00000000000000000000000000000001"
    );
}

#[test]
fn edge_renders_start_arrow_end() {
    let a = Node::new(ID::new(1));
    let b = Node::new(ID::new(2));
    let builder = Graph::new_edge(a, b);
    let mut g = Graph::new();
    let edge = builder.finalize(&mut g);
    assert_eq!(
        edge.render(),
        "Node_00000000000000000000000000000001 -> Node_00000000000000000000000000000002"
    );
}

#[test]
fn edge_identifier_is_derived_from_the_ordered_pair() {
    let a = Node::new(ID::new(1));
    let b = Node::new(ID::new(2));
    let mut g1 = Graph::new();
    let mut g2 = Graph::new();
    let e1 = Graph::new_edge(a, b).finalize(&mut g1);
    let e2 = Graph::new_edge(a, b).finalize(&mut g2);
    let e3 = Graph::new_edge(b, a).finalize(&mut g2);
    assert_eq!(e1.id().value(), e2.id().value());
    assert_ne!(e2.id().value(), e3.id().value());
    assert_eq!(e1.id().value(), ID::new(1).join(&ID::new(2)).value());
}

#[test]
fn grid_insert_is_bounds_checked() {
    let mut record = Record::new(ID::new(5), 2, 3);
    assert_eq!(
        record.insert_node(2, 0, Node::new(ID::new(1)), "x"),
        Err(GridError::IndexOutOfRange)
    );
    assert_eq!(
        record.insert_node(0, 3, Node::new(ID::new(1)), "x"),
        Err(GridError::IndexOutOfRange)
    );
    assert_eq!(record.insert_node(1, 2, Node::new(ID::new(1)), "x"), Ok(()));
}

#[test]
fn record_stamps_placed_nodes_with_its_identifier() {
    let mut record = Record::new(ID::new(5), 2, 3);
    record.insert_node(0, 0, Node::new(ID::new(9)), "pin").unwrap();
    let placed = record.cell_node(0, 0).unwrap();
    assert_eq!(placed.id().value(), 9);
    assert_eq!(placed.record().map(|r| r.value()), Some(5));
    // A free-standing node never carries an owner.
    assert_eq!(Node::new(ID::new(9)).record(), None);
    // Untouched slots stay empty.
    assert!(record.cell_node(1, 1).is_none());
}

#[test]
fn serializing_twice_is_byte_identical() {
    let mut g = Graph::new().with_property("rankdir", Value::text("LR"));
    let a = Graph::new_node(ID::from_text("A"))
        .with_property("label", Value::text("A"))
        .finalize(&mut g);
    let b = Graph::new_node(ID::from_text("B")).finalize(&mut g);
    Graph::new_edge(a, b).finalize(&mut g);
    Graph::new_record(ID::from_text("R"), 2, 1)
        .insert(0, 0, "cell")
        .finalize(&mut g);

    let first = g.to_dot();
    let second = g.to_dot();
    assert_eq!(first, second);
    assert_eq!(first.as_bytes(), second.as_bytes());
}

#[test]
fn serialized_output_lists_records_then_nodes_then_edges() {
    let mut g = Graph::new();
    let a = Graph::new_node(ID::from_text("A")).finalize(&mut g);
    let b = Graph::new_node(ID::from_text("B")).finalize(&mut g);
    let c = Graph::new_node(ID::from_text("C")).finalize(&mut g);
    Graph::new_edge(a, b)
        .with_property("label", Value::text("x"))
        .finalize(&mut g);
    Graph::new_edge(b, c)
        .with_property("label", Value::text("x"))
        .finalize(&mut g);

    let dot = g.to_dot();
    let lines: Vec<&str> = dot.lines().collect();
    assert_eq!(lines[0], "digraph {");
    assert_eq!(*lines.last().unwrap(), "}");

    let edge_lines: Vec<usize> = (0..lines.len())
        .filter(|i| lines[*i].contains(" -> "))
        .collect();
    let node_lines: Vec<usize> = (0..lines.len())
        .filter(|i| lines[*i].trim_start().starts_with("Node_") && !lines[*i].contains(" -> "))
        .collect();

    // Exactly two edge lines, each carrying the label pair.
    assert_eq!(edge_lines.len(), 2);
    for i in &edge_lines {
        assert!(lines[*i].contains("label=\"x\", "));
    }
    // Three node lines, all before every edge line.
    assert_eq!(node_lines.len(), 3);
    for n in &node_lines {
        for e in &edge_lines {
            assert!(n < e);
        }
    }
}

#[test]
fn blank_record_columns_render_as_fields_not_omitted() {
    let mut g = Graph::new();
    Graph::new_record(ID::from_text("R"), 3, 1)
        .insert(0, 0, "cell")
        .finalize(&mut g);
    let dot = g.to_dot();

    let record_line = dot
        .lines()
        .find(|l| l.trim_start().starts_with("Record_"))
        .unwrap();
    let start = record_line.find("label=\" ").unwrap() + "label=\" ".len();
    let end = record_line.rfind(" \"]").unwrap();
    let label = &record_line[start..end];
    let fields: Vec<&str> = label.split('|').collect();
    assert_eq!(fields.len(), 3);
    assert!(fields[0].ends_with(">cell"));
    assert_eq!(fields[1], "");
    assert_eq!(fields[2], "");
}

#[test]
fn graph_line_carries_graph_properties() {
    let g = Graph::new().with_property("rankdir", Value::text("LR"));
    let dot = g.to_dot();
    assert!(dot.starts_with("digraph {\n  graph [rankdir=\"LR\", ];\n"));
    assert!(dot.ends_with("}\n"));
}

#[test]
fn committing_the_same_node_id_twice_keeps_one_entry_and_its_position() {
    let mut g = Graph::new();
    let mut first = Properties::new();
    first.set("label", Value::text("one"));
    g.insert_node(Node::new(ID::new(1)), first);
    g.insert_node(Node::new(ID::new(2)), Properties::new());
    let mut replacement = Properties::new();
    replacement.set("label", Value::text("changed"));
    g.insert_node(Node::new(ID::new(1)), replacement);

    assert_eq!(g.node_count(), 2);
    let dot = g.to_dot();
    let n1 = dot.find("Node_00000000000000000000000000000001").unwrap();
    let n2 = dot.find("Node_00000000000000000000000000000002").unwrap();
    assert!(n1 < n2);
    assert!(dot.contains("label=\"changed\", "));
}

#[test]
fn properties_of_committed_entities_can_be_read_and_mutated() {
    let mut g = Graph::new();
    let id = ID::new(7);
    let node = Graph::new_node(id)
        .with_property("label", Value::text("n"))
        .finalize(&mut g);
    assert_eq!(node.id().value(), 7);

    let props = g.get_node_properties(&id).unwrap();
    assert_eq!(props.get("label"), Some(&Value::Text("n".to_string())));
    assert!(g.get_node_properties(&ID::new(8)).is_none());

    assert!(g.set_node_property(&id, "label", Value::text("renamed")));
    assert!(!g.set_node_property(&ID::new(8), "label", Value::Nothing));
    let props = g.get_node_properties(&id).unwrap();
    assert_eq!(props.get("label"), Some(&Value::Text("renamed".to_string())));
}

#[test]
fn builders_commit_exactly_once_and_assign_sequence_numbers() {
    let mut g = Graph::new();
    assert_eq!(g.node_count(), 0);
    let a = Graph::new_node(ID::new(1)).finalize(&mut g);
    assert_eq!(g.node_count(), 1);
    Graph::new_edge(a, Node::new(ID::new(2))).finalize(&mut g);
    assert_eq!(g.edge_count(), 1);
    Graph::new_record(ID::new(3), 1, 1).finalize(&mut g);
    assert_eq!(g.record_count(), 1);
}

#[test]
fn edge_and_record_properties_can_be_mutated_after_commit() {
    let mut g = Graph::new();
    let a = Node::new(ID::new(1));
    let b = Node::new(ID::new(2));
    let edge = Graph::new_edge(a, b).finalize(&mut g);
    let record = Graph::new_record(ID::new(3), 1, 1).finalize(&mut g);

    assert!(g.set_edge_property(&edge.id(), "color", Value::text("red")));
    assert!(g.set_record_property(&record.id(), "style", Value::text("bold")));
    assert!(!g.set_edge_property(&ID::new(99), "color", Value::Nothing));
    assert!(!g.set_record_property(&ID::new(99), "style", Value::Nothing));

    let ep = g.get_edge_properties(&edge.id()).unwrap();
    assert_eq!(ep.get("color"), Some(&Value::Text("red".to_string())));
    let rp = g.get_record_properties(&record.id()).unwrap();
    assert_eq!(rp.get("style"), Some(&Value::Text("bold".to_string())));
}

#[test]
fn grid_columns_are_reachable_and_sized() {
    let record = Record::new(ID::new(1), 2, 4);
    assert_eq!(record.name(), "Record_00000000000000000000000000000001");
    let grid = record.nodes();
    assert!(grid.get_column(0).is_some());
    assert!(grid.get_column(1).is_some());
    assert!(grid.get_column(2).is_none());
}

#[test]
fn with_properties_folds_a_whole_map_into_a_builder() {
    let mut extra = Properties::new();
    extra.set("color", Value::text("red"));
    extra.set("label", Value::text("wins"));
    let mut g = Graph::new();
    let id = ID::new(4);
    Graph::new_node(id)
        .with_property("label", Value::text("loses"))
        .with_properties(extra)
        .finalize(&mut g);
    let props = g.get_node_properties(&id).unwrap();
    assert_eq!(props.get("label"), Some(&Value::Text("wins".to_string())));
    assert_eq!(props.get("color"), Some(&Value::Text("red".to_string())));
}
