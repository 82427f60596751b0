//! In-memory graph descriptions with deterministic identifier derivation
//! and order-stable serialization to a textual graph-description format.
//!
//! The core pieces are a from-scratch hash primitive, a 128-bit identifier
//! with pluggable pure derivation rules, a tagged value and property map,
//! node / edge / record entities, and a graph container that assigns each
//! committed entity an insertion-sequence number and serializes records,
//! then nodes, then edges in that order.

mod diagrams;
mod edge;
mod graph;
mod hash;
mod id;
mod node;
mod props;
mod record;
mod value;

pub use diagrams::Person;
pub use diagrams::build_family_tree;
pub use diagrams::cpu_6502_diagram;
pub use diagrams::dfa_diagram;
pub use edge::Edge;
pub use graph::EdgeBuilder;
pub use graph::EdgeEntry;
pub use graph::Graph;
pub use graph::NodeBuilder;
pub use graph::NodeEntry;
pub use graph::RecordBuilder;
pub use graph::RecordEntry;
pub use hash::Sha512;
pub use hash::sha512;
pub use id::ID;
pub use id::IdGenerator;
pub use node::Node;
pub use props::Properties;
pub use props::PropsError;
pub use record::Column;
pub use record::Grid;
pub use record::GridError;
pub use record::Record;
pub use value::Value;
pub use value::ValV;
