//! A directed connection between two nodes, addressed by a derived
//! identifier.

use vstd::prelude::*;
use vstd::string::StringExecFns;
use crate::id::ID;
use crate::node::Node;
use crate::node::node_name_of;

verus! {

/// A directed edge: a derived identifier and the two endpoint nodes,
/// copied by value.
#[derive(Debug, Clone, Copy, PartialEq)]
pub struct Edge {
    id: ID,
    start_node: Node,
    end_node: Node,
}

/// The display form: `<start> -> <end>`.
pub open spec fn edge_str(e: Edge) -> Seq<char> {
    node_name_of(e.start_spec()) + " -> "@ + node_name_of(e.end_spec())
}

impl Edge {
    pub closed spec fn id_spec(&self) -> ID {
        self.id
    }

    pub closed spec fn start_spec(&self) -> Node {
        self.start_node
    }

    pub closed spec fn end_spec(&self) -> Node {
        self.end_node
    }

    /// An edge with the given identifier and endpoints.
    pub fn new(id: ID, start_node: Node, end_node: Node) -> (r: Edge)
        ensures
            r.id_spec() == id,
            r.start_spec() == start_node,
            r.end_spec() == end_node,
    {
        Edge { id, start_node, end_node }
    }

    /// The edge's identifier.
    pub fn id(&self) -> (r: ID)
        ensures
            r == self.id_spec(),
    {
        self.id
    }

    /// The start endpoint.
    pub fn start_node(&self) -> (r: Node)
        ensures
            r == self.start_spec(),
    {
        self.start_node
    }

    /// The end endpoint.
    pub fn end_node(&self) -> (r: Node)
        ensures
            r == self.end_spec(),
    {
        self.end_node
    }

    /// The display form `<start> -> <end>`.
    pub fn render(&self) -> (r: String)
        ensures
            r@ == edge_str(*self),
    {
        let mut out = self.start_node.name();
        out.append(" -> ");
        let end_name = self.end_node.name();
        out.append(end_name.as_str());
        out
    }
}

} // verus!
