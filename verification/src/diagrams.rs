//! Ready-made diagram builders: a small automaton, a 40-pin processor
//! pinout, and a family tree built from plain person entries. Each returns
//! the populated graph; callers decide what to do with its serialized form.

use vstd::prelude::*;
use vstd::string::StringExecFns;
use crate::graph::Graph;
use crate::id::ID;
use crate::props::set_entry;
use crate::value::Value;
use crate::value::ValV;
use crate::value::str_equal;

verus! {

/// A three-state automaton with labeled transitions, laid out left to
/// right.
pub fn dfa_diagram() -> (r: Graph)
    ensures
        r.wf(),
        r.graph_props() == set_entry(
            Seq::<(Seq<char>, ValV)>::empty(),
            "rankdir"@,
            ValV::Text("LR"@),
        ),
        r.records_view().len() == 0,
        1 <= r.nodes_view().len() <= 3,
        1 <= r.edges_view().len() <= 4,
{
    let mut g = Graph::new().with_property("rankdir", Value::text("LR"));

    let q0 = Graph::new_node(ID::from_text("q0"))
        .with_property("label", Value::text("q0 (start)"))
        .with_property("style", Value::text("filled"))
        .with_property("fillcolor", Value::text("lightgreen"))
        .finalize(&mut g);

    let q1 = Graph::new_node(ID::from_text("q1"))
        .with_property("label", Value::text("q1"))
        .finalize(&mut g);

    let q2 = Graph::new_node(ID::from_text("q2"))
        .with_property("label", Value::text("q2"))
        .with_property("shape", Value::text("doublecircle"))
        .with_property("style", Value::text("filled"))
        .with_property("fillcolor", Value::text("lightblue"))
        .finalize(&mut g);

    Graph::new_edge(q0, q1).with_property("label", Value::text("1")).finalize(&mut g);
    Graph::new_edge(q1, q1).with_property("label", Value::text("1")).finalize(&mut g);
    Graph::new_edge(q1, q2).with_property("label", Value::text("0")).finalize(&mut g);
    Graph::new_edge(q2, q2).with_property("label", Value::text("0")).finalize(&mut g);

    g
}

/// A 40-pin processor drawn as one record: two pin columns on each side of
/// a central label column, wired to two surrounding nodes.
pub fn cpu_6502_diagram() -> (r: Graph)
    ensures
        r.wf(),
        r.graph_props() == set_entry(
            set_entry(
                set_entry(Seq::<(Seq<char>, ValV)>::empty(), "rankdir"@, ValV::Text("TB"@)),
                "nodesep"@,
                ValV::Text("0.5"@),
            ),
            "layout"@,
            ValV::Text("fdp"@),
        ),
        r.records_view().len() == 1,
        1 <= r.nodes_view().len() <= 2,
        r.edges_view().len() <= 40,
{
    let mut g = Graph::new()
        .with_property("rankdir", Value::text("TB"))
        .with_property("nodesep", Value::text("0.5"))
        .with_property("layout", Value::text("fdp"));

    let mut b = Graph::new_record(ID::from_text("CPU_6502"), 5, 20);
    b = b.insert(2, 0, "6502\\nCPU");

    let left_pins = [
        "VSS", "RDY", "1 (OUT)", "IRQ", "N.C.", "NMI", "SYNC", "VCC", "A0", "A1", "A2", "A3",
        "A4", "A5", "A6", "A7", "A8", "A9", "A10", "A11",
    ];
    let right_pins = [
        "RES", "2 (OUT)", "S.O.", "0 (IN)", "N.C.", "N.C.", "R/W", "D0", "D1", "D2", "D3", "D4",
        "D5", "D6", "D7", "A15", "A14", "A13", "A12", "VSS",
    ];

    let mut y: usize = 0;
    while y < 20
        invariant
            y <= 20,
            b.wf(),
            b.record_spec().grid_spec().width_spec() == 5,
            b.record_spec().grid_spec().height_spec() == 20,
        decreases 20 - y,
    {
        let low = crate::value::usize_decimal(y + 1);
        b = b.insert(1, y, low.as_str());
        let high = crate::value::usize_decimal(40 - y);
        b = b.insert(3, y, high.as_str());
        b = b.insert(0, y, left_pins[y]);
        b = b.insert(4, y, right_pins[y]);
        y = y + 1;
    }
    let cpu = b.finalize(&mut g);

    let a = Graph::new_node(ID::from_text("Complex Wiring Stuff"))
        .with_property("label", Value::text("Complex Wiring Stuff"))
        .with_property("pos", Value::text("-6,0!"))
        .finalize(&mut g);
    let bnode = Graph::new_node(ID::from_text("Other Complex Wiring Stuff"))
        .with_property("label", Value::text("Other Complex Wiring Stuff"))
        .with_property("pos", Value::text("6,0!"))
        .finalize(&mut g);

    let ghost seq0 = g.next_seq_spec();
    let ghost gp = g.graph_props();
    y = 0;
    while y < 20
        invariant
            y <= 20,
            g.wf(),
            g.graph_props() == gp,
            g.records_view().len() == 1,
            1 <= g.nodes_view().len() <= 2,
            g.edges_view().len() <= 2 * y,
            g.next_seq_spec() <= seq0 + 2 * y,
            seq0 <= 43,
        decreases 20 - y,
    {
        match cpu.cell_node(4, y) {
            Some(pin) => {
                Graph::new_edge(pin, bnode).finalize(&mut g);
            },
            None => {},
        }
        match cpu.cell_node(0, y) {
            Some(pin) => {
                Graph::new_edge(a, pin).finalize(&mut g);
            },
            None => {},
        }
        y = y + 1;
    }

    g
}

/// One person of a family tree, as plain values.
pub struct Person {
    /// A numeric identifier unique to the person.
    pub id: i64,
    /// The identifier of the parent, if the person has one in the tree.
    pub parent_id: Option<i64>,
    pub name: String,
    pub gender: String,
    pub alt_names: Vec<String>,
    pub category: String,
}

/// The marker text a category maps to.
pub open spec fn marker_of(category: Seq<char>) -> Seq<char> {
    if category == "priest"@ {
        "[priest]"@
    } else if category == "king"@ {
        "[king]"@
    } else if category == "nation"@ {
        "[nation]"@
    } else if category == "patriarch"@ {
        "[patriarch]"@
    } else if category == "prophet"@ {
        "[prophet]"@
    } else {
        "[person]"@
    }
}

/// The marker drawn after a person's name, by category.
fn category_marker(category: &str) -> (r: &'static str)
    ensures
        r@ == marker_of(category@),
{
    if str_equal(category, "priest") {
        "[priest]"
    } else if str_equal(category, "king") {
        "[king]"
    } else if str_equal(category, "nation") {
        "[nation]"
    } else if str_equal(category, "patriarch") {
        "[patriarch]"
    } else if str_equal(category, "prophet") {
        "[prophet]"
    } else {
        "[person]"
    }
}

/// A family tree: one box per person, colored by gender, and one edge from
/// each parent to each of its children.
pub fn build_family_tree(people: &Vec<Person>) -> (r: Graph)
    requires
        2 * people@.len() + 4 < usize::MAX,
    ensures
        r.wf(),
        r.graph_props() == set_entry(
            set_entry(
                set_entry(
                    set_entry(Seq::<(Seq<char>, ValV)>::empty(), "rankdir"@, ValV::Text("TB"@)),
                    "splines"@,
                    ValV::Text("ortho"@),
                ),
                "nodesep"@,
                ValV::Text("1.25"@),
            ),
            "ranksep"@,
            ValV::Text("1.25"@),
        ),
        r.records_view().len() == 0,
        r.nodes_view().len() <= people@.len(),
        r.edges_view().len() <= people@.len(),
{
    let mut g = Graph::new()
        .with_property("rankdir", Value::text("TB"))
        .with_property("splines", Value::text("ortho"))
        .with_property("nodesep", Value::text("1.25"))
        .with_property("ranksep", Value::text("1.25"));

    let ghost gp = g.graph_props();
    let n = people.len();
    let mut i: usize = 0;
    while i < n
        invariant
            i <= n,
            n == people@.len(),
            g.wf(),
            g.graph_props() == gp,
            g.records_view().len() == 0,
            g.nodes_view().len() <= i,
            g.edges_view().len() == 0,
            g.next_seq_spec() <= i,
        decreases n - i,
    {
        let person = &people[i];
        let mut label = person.name.clone();
        label.append(" ");
        label.append(category_marker(person.category.as_str()));
        label.append(" ");
        if person.alt_names.len() > 0 {
            label.append("(");
            let m = person.alt_names.len();
            let mut j: usize = 0;
            while j < m
                invariant
                    j <= m,
                    m == person.alt_names@.len(),
                decreases m - j,
            {
                if j > 0 {
                    label.append(", ");
                }
                label.append(person.alt_names[j].as_str());
                j = j + 1;
            }
            label.append(")");
        }
        let fill: &str = if str_equal(person.gender.as_str(), "male") {
            "lightblue"
        } else {
            "pink"
        };
        let pid = #[verifier::truncate] (person.id as u128);
        Graph::new_node(ID::new(pid))
            .with_property("label", Value::Text(label))
            .with_property("style", Value::text("filled"))
            .with_property("shape", Value::text("box"))
            .with_property("fillcolor", Value::text(fill))
            .finalize(&mut g);
        i = i + 1;
    }

    let ghost nodes_after = g.nodes_view().len();
    let ghost seq_after = g.next_seq_spec();
    i = 0;
    while i < n
        invariant
            i <= n,
            n == people@.len(),
            g.wf(),
            g.graph_props() == gp,
            g.records_view().len() == 0,
            g.nodes_view().len() == nodes_after,
            nodes_after <= n,
            g.edges_view().len() <= i,
            g.next_seq_spec() <= seq_after + i,
            seq_after <= n,
            2 * n + 4 < usize::MAX,
        decreases n - i,
    {
        let person = &people[i];
        match person.parent_id {
            Some(parent) => {
                let parent_value = #[verifier::truncate] (parent as u128);
                let child_value = #[verifier::truncate] (person.id as u128);
                let from = crate::node::Node::new(ID::new(parent_value));
                let to = crate::node::Node::new(ID::new(child_value));
                Graph::new_edge(from, to).finalize(&mut g);
            },
            None => {},
        }
        i = i + 1;
    }

    g
}

} // verus!
