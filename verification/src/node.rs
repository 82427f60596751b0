//! A point entity addressed by identifier, with an optional non-owning
//! back-reference to the record that placed it.

use vstd::prelude::*;
use vstd::string::StringExecFns;
use crate::id::ID;
use crate::id::hex_lower_of;

verus! {

/// A node: an identifier, and the identifier of its owning record when it
/// was placed into one.
#[derive(Debug, Clone, Copy, PartialEq)]
pub struct Node {
    record: Option<ID>,
    id: ID,
}

/// Stamping is construction: the stamped node is the plain node with the
/// owner filled in.
pub proof fn lemma_with_record_spec(n: Node, owner: ID)
    ensures
        n.with_record_spec(owner) == Node::node_of(n.id_spec(), Some(owner)),
{
}

/// The display name: `Record_<owner>:Node_<id>` for an owned node, else
/// `Node_<id>`, identifiers in lower-case hex.
pub open spec fn node_name_of(n: Node) -> Seq<char> {
    match n.record_spec() {
        Some(r) => "Record_"@ + hex_lower_of(r.value_spec()) + ":Node_"@ + hex_lower_of(
            n.id_spec().value_spec(),
        ),
        None => "Node_"@ + hex_lower_of(n.id_spec().value_spec()),
    }
}

impl Node {
    /// The node with the given identifier and owner, as plain data.
    pub closed spec fn node_of(id: ID, record: Option<ID>) -> Node {
        Node { record, id }
    }

    /// The node's identifier.
    pub closed spec fn id_spec(&self) -> ID {
        self.id
    }

    /// The owning record's identifier, if any.
    pub closed spec fn record_spec(&self) -> Option<ID> {
        self.record
    }

    /// A free-standing node: no owning record.
    pub fn new(id: ID) -> (r: Node)
        ensures
            r == Node::node_of(id, None),
            r.id_spec() == id,
            r.record_spec() == Option::<ID>::None,
    {
        Node { record: None, id }
    }

    /// The node stamped with an owner, as plain data.
    pub closed spec fn with_record_spec(self, owner: ID) -> Node {
        Node { record: Some(owner), id: self.id }
    }

    /// The same node stamped with an owning record's identifier.
    pub fn with_record(self, record: ID) -> (r: Node)
        ensures
            r == self.with_record_spec(record),
            r == Node::node_of(self.id_spec(), Some(record)),
            r.id_spec() == self.id_spec(),
            r.record_spec() == Some(record),
    {
        Node { record: Some(record), id: self.id }
    }

    /// The node's identifier.
    pub fn id(&self) -> (r: ID)
        ensures
            r == self.id_spec(),
    {
        self.id
    }

    /// The owning record's identifier, if any.
    pub fn record(&self) -> (r: Option<ID>)
        ensures
            r == self.record_spec(),
    {
        self.record
    }

    /// The display name.
    pub fn name(&self) -> (r: String)
        ensures
            r@ == node_name_of(*self),
    {
        match &self.record {
            Some(rec) => {
                let mut out = String::from_str("Record_");
                let owner_hex = rec.to_hex_lower();
                out.append(owner_hex.as_str());
                out.append(":Node_");
                let id_hex = self.id.to_hex_lower();
                out.append(id_hex.as_str());
                out
            },
            None => {
                let mut out = String::from_str("Node_");
                let id_hex = self.id.to_hex_lower();
                out.append(id_hex.as_str());
                out
            },
        }
    }
}

} // verus!
