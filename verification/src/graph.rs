//! The graph container: it owns all committed entities and their property
//! maps, assigns each a per-graph insertion-sequence number at commit time,
//! and serializes records, then nodes, then edges, each in insertion order.
//!
//! Entities are built through inert builder objects and become part of the
//! graph only at an explicit `finalize` call; a builder is consumed by that
//! call, so an entity is committed at most once per builder.

use vstd::prelude::*;
use vstd::string::StringExecFns;
use crate::edge::Edge;
use crate::edge::edge_str;
use crate::id::ID;
use crate::id::IdGenerator;
use crate::id::join_values;
use crate::id::text_value;
use crate::node::Node;
use crate::node::node_name_of;
use crate::props::EntriesV;
use crate::props::Properties;
use crate::props::props_str;
use crate::props::set_entry;
use crate::props::merge_entries;
use crate::props::unique_keys;
use crate::record::Record;
use crate::record::SlotV;
use crate::record::record_str;
use crate::value::Value;

verus! {

/// A committed node with its properties and insertion-sequence number.
pub struct NodeEntry {
    pub node: Node,
    pub props: Properties,
    pub seq: usize,
}

/// A committed edge with its properties and insertion-sequence number.
pub struct EdgeEntry {
    pub edge: Edge,
    pub props: Properties,
    pub seq: usize,
}

/// A committed record with its properties and insertion-sequence number.
pub struct RecordEntry {
    pub record: Record,
    pub props: Properties,
    pub seq: usize,
}

/// A node table as plain data: entity, properties, sequence number.
pub type NodesV = Seq<(Node, EntriesV, int)>;

/// An edge table as plain data.
pub type EdgesV = Seq<(Edge, EntriesV, int)>;

/// A record table as plain data: identifier value, columns, properties,
/// sequence number.
pub type RecordsV = Seq<(u128, Seq<Seq<SlotV>>, EntriesV, int)>;

pub open spec fn has_node_id(s: NodesV, v: u128) -> bool {
    exists|i: int| 0 <= i < s.len() && s[i].0.id_spec().value_spec() == v
}

pub open spec fn node_idx(s: NodesV, v: u128) -> int {
    choose|i: int| 0 <= i < s.len() && s[i].0.id_spec().value_spec() == v
}

pub open spec fn has_edge_id(s: EdgesV, v: u128) -> bool {
    exists|i: int| 0 <= i < s.len() && s[i].0.id_spec().value_spec() == v
}

pub open spec fn edge_idx(s: EdgesV, v: u128) -> int {
    choose|i: int| 0 <= i < s.len() && s[i].0.id_spec().value_spec() == v
}

pub open spec fn has_record_id(s: RecordsV, v: u128) -> bool {
    exists|i: int| 0 <= i < s.len() && s[i].0 == v
}

pub open spec fn record_idx(s: RecordsV, v: u128) -> int {
    choose|i: int| 0 <= i < s.len() && s[i].0 == v
}

/// A well-formed node table: well-formed property maps, sequence numbers
/// strictly increasing and below the counter, identifiers unique by value.
pub open spec fn nodes_table_wf(s: NodesV, bound: int) -> bool {
    &&& forall|i: int| 0 <= i < s.len() ==> unique_keys((#[trigger] s[i]).1)
    &&& forall|i: int| 0 <= i < s.len() ==> (#[trigger] s[i]).2 < bound
    &&& forall|i: int, j: int| 0 <= i < j < s.len() ==> (#[trigger] s[i]).2 < (#[trigger] s[j]).2
    &&& forall|i: int, j: int|
        0 <= i < j < s.len() ==> (#[trigger] s[i]).0.id_spec().value_spec() != (
        #[trigger] s[j]).0.id_spec().value_spec()
}

pub open spec fn edges_table_wf(s: EdgesV, bound: int) -> bool {
    &&& forall|i: int| 0 <= i < s.len() ==> unique_keys((#[trigger] s[i]).1)
    &&& forall|i: int| 0 <= i < s.len() ==> (#[trigger] s[i]).2 < bound
    &&& forall|i: int, j: int| 0 <= i < j < s.len() ==> (#[trigger] s[i]).2 < (#[trigger] s[j]).2
    &&& forall|i: int, j: int|
        0 <= i < j < s.len() ==> (#[trigger] s[i]).0.id_spec().value_spec() != (
        #[trigger] s[j]).0.id_spec().value_spec()
}

pub open spec fn records_table_wf(s: RecordsV, bound: int) -> bool {
    &&& forall|i: int| 0 <= i < s.len() ==> unique_keys((#[trigger] s[i]).2)
    &&& forall|i: int| 0 <= i < s.len() ==> (#[trigger] s[i]).3 < bound
    &&& forall|i: int, j: int| 0 <= i < j < s.len() ==> (#[trigger] s[i]).3 < (#[trigger] s[j]).3
    &&& forall|i: int, j: int| 0 <= i < j < s.len() ==> (#[trigger] s[i]).0 != (#[trigger] s[j]).0
}

// ---------------------------------------------------------------------
// Serialized form.
// ---------------------------------------------------------------------

pub open spec fn record_line(t: (u128, Seq<Seq<SlotV>>, EntriesV, int)) -> Seq<char> {
    "  "@ + record_str(t.0, t.1) + " "@ + props_str(t.2) + ";\n"@
}

pub open spec fn record_lines(s: RecordsV) -> Seq<char>
    decreases s.len(),
{
    if s.len() == 0 {
        Seq::<char>::empty()
    } else {
        record_lines(s.drop_last()) + record_line(s.last())
    }
}

pub open spec fn node_line(t: (Node, EntriesV, int)) -> Seq<char> {
    "  "@ + node_name_of(t.0) + " "@ + props_str(t.1) + ";\n"@
}

pub open spec fn node_lines(s: NodesV) -> Seq<char>
    decreases s.len(),
{
    if s.len() == 0 {
        Seq::<char>::empty()
    } else {
        node_lines(s.drop_last()) + node_line(s.last())
    }
}

pub open spec fn edge_line(t: (Edge, EntriesV, int)) -> Seq<char> {
    "  "@ + edge_str(t.0) + " "@ + props_str(t.1) + ";\n"@
}

pub open spec fn edge_lines(s: EdgesV) -> Seq<char>
    decreases s.len(),
{
    if s.len() == 0 {
        Seq::<char>::empty()
    } else {
        edge_lines(s.drop_last()) + edge_line(s.last())
    }
}

/// The whole textual description: a block with the graph properties, then
/// one line per record, node and edge, each table in insertion order.
pub open spec fn dot_str(gprops: EntriesV, rs: RecordsV, ns: NodesV, es: EdgesV) -> Seq<char> {
    "digraph {\n"@ + "  graph "@ + props_str(gprops) + ";\n"@ + record_lines(rs) + node_lines(ns)
        + edge_lines(es) + "}\n"@
}

// ---------------------------------------------------------------------
// The graph.
// ---------------------------------------------------------------------

/// The graph: global properties, three entity tables kept in insertion
/// order, and the shared insertion-sequence counter.
pub struct Graph {
    properties: Properties,
    nodes: Vec<NodeEntry>,
    edges: Vec<EdgeEntry>,
    records: Vec<RecordEntry>,
    next_seq: usize,
}

/// What committing a node changes: nothing but the node table and, for a
/// fresh identifier, the counter. An already-known identifier keeps its
/// sequence number; its entity and properties are replaced.
pub open spec fn node_inserted(g0: Graph, g1: Graph, node: Node, props: EntriesV) -> bool {
    &&& g1.graph_props() == g0.graph_props()
    &&& g1.edges_view() == g0.edges_view()
    &&& g1.records_view() == g0.records_view()
    &&& if has_node_id(g0.nodes_view(), node.id_spec().value_spec()) {
        let i = node_idx(g0.nodes_view(), node.id_spec().value_spec());
        g1.nodes_view() == g0.nodes_view().update(i, (node, props, g0.nodes_view()[i].2))
            && g1.next_seq_spec() == g0.next_seq_spec()
    } else {
        g1.nodes_view() == g0.nodes_view().push((node, props, g0.next_seq_spec()))
            && g1.next_seq_spec() == g0.next_seq_spec() + 1
    }
}

/// What committing an edge changes.
pub open spec fn edge_inserted(g0: Graph, g1: Graph, edge: Edge, props: EntriesV) -> bool {
    &&& g1.graph_props() == g0.graph_props()
    &&& g1.nodes_view() == g0.nodes_view()
    &&& g1.records_view() == g0.records_view()
    &&& if has_edge_id(g0.edges_view(), edge.id_spec().value_spec()) {
        let i = edge_idx(g0.edges_view(), edge.id_spec().value_spec());
        g1.edges_view() == g0.edges_view().update(i, (edge, props, g0.edges_view()[i].2))
            && g1.next_seq_spec() == g0.next_seq_spec()
    } else {
        g1.edges_view() == g0.edges_view().push((edge, props, g0.next_seq_spec()))
            && g1.next_seq_spec() == g0.next_seq_spec() + 1
    }
}

/// What committing a record changes.
pub open spec fn record_inserted(
    g0: Graph,
    g1: Graph,
    idv: u128,
    cols: Seq<Seq<SlotV>>,
    props: EntriesV,
) -> bool {
    &&& g1.graph_props() == g0.graph_props()
    &&& g1.nodes_view() == g0.nodes_view()
    &&& g1.edges_view() == g0.edges_view()
    &&& if has_record_id(g0.records_view(), idv) {
        let i = record_idx(g0.records_view(), idv);
        g1.records_view() == g0.records_view().update(
            i,
            (idv, cols, props, g0.records_view()[i].3),
        ) && g1.next_seq_spec() == g0.next_seq_spec()
    } else {
        g1.records_view() == g0.records_view().push((idv, cols, props, g0.next_seq_spec()))
            && g1.next_seq_spec() == g0.next_seq_spec() + 1
    }
}

impl Graph {
    /// The graph-level properties as plain data.
    pub closed spec fn graph_props(&self) -> EntriesV {
        self.properties.entries_spec()
    }

    /// The committed nodes in insertion order.
    pub closed spec fn nodes_view(&self) -> NodesV {
        Seq::new(
            self.nodes@.len(),
            |i: int|
                (self.nodes@[i].node, self.nodes@[i].props.entries_spec(), self.nodes@[i].seq as int),
        )
    }

    /// The committed edges in insertion order.
    pub closed spec fn edges_view(&self) -> EdgesV {
        Seq::new(
            self.edges@.len(),
            |i: int|
                (self.edges@[i].edge, self.edges@[i].props.entries_spec(), self.edges@[i].seq as int),
        )
    }

    /// The committed records in insertion order.
    pub closed spec fn records_view(&self) -> RecordsV {
        Seq::new(
            self.records@.len(),
            |i: int|
                (
                    self.records@[i].record.id_spec().value_spec(),
                    self.records@[i].record.cols(),
                    self.records@[i].props.entries_spec(),
                    self.records@[i].seq as int,
                ),
        )
    }

    /// The next insertion-sequence number; 0 on a fresh graph.
    pub closed spec fn next_seq_spec(&self) -> int {
        self.next_seq as int
    }

    /// The graph's invariant: well-formed property maps throughout, each
    /// table in strictly increasing sequence order below the shared
    /// counter, identifiers unique per table, and sequence numbers never
    /// shared across tables.
    pub open spec fn wf(&self) -> bool {
        &&& unique_keys(self.graph_props())
        &&& nodes_table_wf(self.nodes_view(), self.next_seq_spec())
        &&& edges_table_wf(self.edges_view(), self.next_seq_spec())
        &&& records_table_wf(self.records_view(), self.next_seq_spec())
        &&& forall|i: int, j: int|
            0 <= i < self.nodes_view().len() && 0 <= j < self.edges_view().len() ==> (
            #[trigger] self.nodes_view()[i]).2 != (#[trigger] self.edges_view()[j]).2
        &&& forall|i: int, j: int|
            0 <= i < self.nodes_view().len() && 0 <= j < self.records_view().len() ==> (
            #[trigger] self.nodes_view()[i]).2 != (#[trigger] self.records_view()[j]).3
        &&& forall|i: int, j: int|
            0 <= i < self.edges_view().len() && 0 <= j < self.records_view().len() ==> (
            #[trigger] self.edges_view()[i]).2 != (#[trigger] self.records_view()[j]).3
    }

    /// An empty graph with its own counter at zero.
    pub fn new() -> (r: Graph)
        ensures
            r.wf(),
            r.graph_props() == Seq::<(Seq<char>, crate::value::ValV)>::empty(),
            r.nodes_view() == Seq::<(Node, EntriesV, int)>::empty(),
            r.edges_view() == Seq::<(Edge, EntriesV, int)>::empty(),
            r.records_view() == Seq::<(u128, Seq<Seq<SlotV>>, EntriesV, int)>::empty(),
            r.next_seq_spec() == 0,
    {
        let r = Graph {
            properties: Properties::new(),
            nodes: Vec::new(),
            edges: Vec::new(),
            records: Vec::new(),
            next_seq: 0,
        };
        proof {
            assert(r.nodes_view() =~= Seq::<(Node, EntriesV, int)>::empty());
            assert(r.edges_view() =~= Seq::<(Edge, EntriesV, int)>::empty());
            assert(r.records_view() =~= Seq::<(u128, Seq<Seq<SlotV>>, EntriesV, int)>::empty());
        }
        r
    }

    /// The graph with one graph-level property set.
    pub fn with_property(self, key: &str, value: Value) -> (r: Graph)
        requires
            self.wf(),
        ensures
            r.wf(),
            r.graph_props() == set_entry(self.graph_props(), key@, value@),
            r.nodes_view() == self.nodes_view(),
            r.edges_view() == self.edges_view(),
            r.records_view() == self.records_view(),
            r.next_seq_spec() == self.next_seq_spec(),
    {
        let ghost g0 = self;
        let mut g = self;
        proof {
            crate::props::lemma_set_entry(g.graph_props(), key@, value@);
        }
        g.properties.set(key, value);
        proof {
            assert(g.nodes_view() =~= g0.nodes_view());
            assert(g.edges_view() =~= g0.edges_view());
            assert(g.records_view() =~= g0.records_view());
        }
        g
    }

    /// The number of committed nodes.
    pub fn node_count(&self) -> (r: usize)
        ensures
            r == self.nodes_view().len(),
    {
        self.nodes.len()
    }

    /// The number of committed edges.
    pub fn edge_count(&self) -> (r: usize)
        ensures
            r == self.edges_view().len(),
    {
        self.edges.len()
    }

    /// The number of committed records.
    pub fn record_count(&self) -> (r: usize)
        ensures
            r == self.records_view().len(),
    {
        self.records.len()
    }

    fn find_node(&self, v: u128) -> (r: Option<usize>)
        requires
            self.wf(),
        ensures
            match r {
                Some(i) => i < self.nodes@.len() && has_node_id(self.nodes_view(), v)
                    && node_idx(self.nodes_view(), v) == i as int,
                None => !has_node_id(self.nodes_view(), v),
            },
    {
        let n = self.nodes.len();
        let mut i: usize = 0;
        while i < n
            invariant
                i <= n,
                n == self.nodes@.len(),
                self.wf(),
                forall|j: int|
                    0 <= j < i ==> (#[trigger] self.nodes_view()[j]).0.id_spec().value_spec() != v,
            decreases n - i,
        {
            if self.nodes[i].node.id().value() == v {
                proof {
                    let s = self.nodes_view();
                    assert(s[i as int].0.id_spec().value_spec() == v);
                    let j = node_idx(s, v);
                    assert(0 <= j < s.len() && s[j].0.id_spec().value_spec() == v);
                    if j != i as int {
                        assert(s[j].0.id_spec().value_spec() != s[i as int].0.id_spec().value_spec());
                    }
                }
                return Some(i);
            }
            i = i + 1;
        }
        None
    }

    fn find_edge(&self, v: u128) -> (r: Option<usize>)
        requires
            self.wf(),
        ensures
            match r {
                Some(i) => i < self.edges@.len() && has_edge_id(self.edges_view(), v)
                    && edge_idx(self.edges_view(), v) == i as int,
                None => !has_edge_id(self.edges_view(), v),
            },
    {
        let n = self.edges.len();
        let mut i: usize = 0;
        while i < n
            invariant
                i <= n,
                n == self.edges@.len(),
                self.wf(),
                forall|j: int|
                    0 <= j < i ==> (#[trigger] self.edges_view()[j]).0.id_spec().value_spec() != v,
            decreases n - i,
        {
            if self.edges[i].edge.id().value() == v {
                proof {
                    let s = self.edges_view();
                    assert(s[i as int].0.id_spec().value_spec() == v);
                    let j = edge_idx(s, v);
                    assert(0 <= j < s.len() && s[j].0.id_spec().value_spec() == v);
                    if j != i as int {
                        assert(s[j].0.id_spec().value_spec() != s[i as int].0.id_spec().value_spec());
                    }
                }
                return Some(i);
            }
            i = i + 1;
        }
        None
    }

    fn find_record(&self, v: u128) -> (r: Option<usize>)
        requires
            self.wf(),
        ensures
            match r {
                Some(i) => i < self.records@.len() && has_record_id(self.records_view(), v)
                    && record_idx(self.records_view(), v) == i as int,
                None => !has_record_id(self.records_view(), v),
            },
    {
        let n = self.records.len();
        let mut i: usize = 0;
        while i < n
            invariant
                i <= n,
                n == self.records@.len(),
                self.wf(),
                forall|j: int| 0 <= j < i ==> (#[trigger] self.records_view()[j]).0 != v,
            decreases n - i,
        {
            if self.records[i].record.id().value() == v {
                proof {
                    let s = self.records_view();
                    assert(s[i as int].0 == v);
                    let j = record_idx(s, v);
                    assert(0 <= j < s.len() && s[j].0 == v);
                    if j != i as int {
                        assert(s[j].0 != s[i as int].0);
                    }
                }
                return Some(i);
            }
            i = i + 1;
        }
        None
    }

    /// The properties of the node with this identifier value, if committed.
    pub fn get_node_properties(&self, id: &ID) -> (r: Option<&Properties>)
        requires
            self.wf(),
        ensures
            match r {
                Some(p) => has_node_id(self.nodes_view(), id.value_spec()) && p.entries_spec()
                    == self.nodes_view()[node_idx(self.nodes_view(), id.value_spec())].1
                    && p.wf(),
                None => !has_node_id(self.nodes_view(), id.value_spec()),
            },
    {
        match self.find_node(id.value()) {
            Some(i) => Some(&self.nodes[i].props),
            None => None,
        }
    }

    /// The properties of the edge with this identifier value, if committed.
    pub fn get_edge_properties(&self, id: &ID) -> (r: Option<&Properties>)
        requires
            self.wf(),
        ensures
            match r {
                Some(p) => has_edge_id(self.edges_view(), id.value_spec()) && p.entries_spec()
                    == self.edges_view()[edge_idx(self.edges_view(), id.value_spec())].1
                    && p.wf(),
                None => !has_edge_id(self.edges_view(), id.value_spec()),
            },
    {
        match self.find_edge(id.value()) {
            Some(i) => Some(&self.edges[i].props),
            None => None,
        }
    }

    /// The properties of the record with this identifier value, if
    /// committed.
    pub fn get_record_properties(&self, id: &ID) -> (r: Option<&Properties>)
        requires
            self.wf(),
        ensures
            match r {
                Some(p) => has_record_id(self.records_view(), id.value_spec())
                    && p.entries_spec() == self.records_view()[record_idx(
                    self.records_view(),
                    id.value_spec(),
                )].2 && p.wf(),
                None => !has_record_id(self.records_view(), id.value_spec()),
            },
    {
        match self.find_record(id.value()) {
            Some(i) => Some(&self.records[i].props),
            None => None,
        }
    }

    /// Sets one property of a committed node; returns whether the node was
    /// found.
    pub fn set_node_property(&mut self, id: &ID, key: &str, value: Value) -> (r: bool)
        requires
            old(self).wf(),
        ensures
            final(self).wf(),
            final(self).graph_props() == old(self).graph_props(),
            final(self).edges_view() == old(self).edges_view(),
            final(self).records_view() == old(self).records_view(),
            final(self).next_seq_spec() == old(self).next_seq_spec(),
            r == has_node_id(old(self).nodes_view(), id.value_spec()),
            if has_node_id(old(self).nodes_view(), id.value_spec()) {
                let i = node_idx(old(self).nodes_view(), id.value_spec());
                let e = old(self).nodes_view()[i];
                final(self).nodes_view() == old(self).nodes_view().update(
                    i,
                    (e.0, set_entry(e.1, key@, value@), e.2),
                )
            } else {
                final(self).nodes_view() == old(self).nodes_view()
            },
    {
        let ghost g0 = *self;
        match self.find_node(id.value()) {
            Some(i) => {
                let ghost e = g0.nodes_view()[i as int];
                proof {
                    crate::props::lemma_set_entry(e.1, key@, value@);
                }
                let mut entry = self.nodes.remove(i);
                entry.props.set(key, value);
                self.nodes.insert(i, entry);
                proof {
                    assert(self.nodes_view() =~= g0.nodes_view().update(
                        i as int,
                        (e.0, set_entry(e.1, key@, value@), e.2),
                    ));
                    assert(self.edges_view() =~= g0.edges_view());
                    assert(self.records_view() =~= g0.records_view());
                    assert(nodes_table_wf(self.nodes_view(), self.next_seq_spec())) by {
                        let s0 = g0.nodes_view();
                        let s1 = self.nodes_view();
                        assert(forall|j: int|
                            0 <= j < s1.len() ==> (#[trigger] s1[j]).2 == s0[j].2);
                        assert(forall|j: int|
                            0 <= j < s1.len()
                                ==> (#[trigger] s1[j]).0.id_spec().value_spec()
                                == s0[j].0.id_spec().value_spec());
                    }
                }
                true
            },
            None => false,
        }
    }

    /// Sets one property of a committed edge; returns whether the edge was
    /// found.
    pub fn set_edge_property(&mut self, id: &ID, key: &str, value: Value) -> (r: bool)
        requires
            old(self).wf(),
        ensures
            final(self).wf(),
            final(self).graph_props() == old(self).graph_props(),
            final(self).nodes_view() == old(self).nodes_view(),
            final(self).records_view() == old(self).records_view(),
            final(self).next_seq_spec() == old(self).next_seq_spec(),
            r == has_edge_id(old(self).edges_view(), id.value_spec()),
            if has_edge_id(old(self).edges_view(), id.value_spec()) {
                let i = edge_idx(old(self).edges_view(), id.value_spec());
                let e = old(self).edges_view()[i];
                final(self).edges_view() == old(self).edges_view().update(
                    i,
                    (e.0, set_entry(e.1, key@, value@), e.2),
                )
            } else {
                final(self).edges_view() == old(self).edges_view()
            },
    {
        let ghost g0 = *self;
        match self.find_edge(id.value()) {
            Some(i) => {
                let ghost e = g0.edges_view()[i as int];
                proof {
                    crate::props::lemma_set_entry(e.1, key@, value@);
                }
                let mut entry = self.edges.remove(i);
                entry.props.set(key, value);
                self.edges.insert(i, entry);
                proof {
                    assert(self.edges_view() =~= g0.edges_view().update(
                        i as int,
                        (e.0, set_entry(e.1, key@, value@), e.2),
                    ));
                    assert(self.nodes_view() =~= g0.nodes_view());
                    assert(self.records_view() =~= g0.records_view());
                    assert(edges_table_wf(self.edges_view(), self.next_seq_spec())) by {
                        let s0 = g0.edges_view();
                        let s1 = self.edges_view();
                        assert(forall|j: int|
                            0 <= j < s1.len() ==> (#[trigger] s1[j]).2 == s0[j].2);
                        assert(forall|j: int|
                            0 <= j < s1.len()
                                ==> (#[trigger] s1[j]).0.id_spec().value_spec()
                                == s0[j].0.id_spec().value_spec());
                    }
                }
                true
            },
            None => false,
        }
    }

    /// Sets one property of a committed record; returns whether the record
    /// was found.
    pub fn set_record_property(&mut self, id: &ID, key: &str, value: Value) -> (r: bool)
        requires
            old(self).wf(),
        ensures
            final(self).wf(),
            final(self).graph_props() == old(self).graph_props(),
            final(self).nodes_view() == old(self).nodes_view(),
            final(self).edges_view() == old(self).edges_view(),
            final(self).next_seq_spec() == old(self).next_seq_spec(),
            r == has_record_id(old(self).records_view(), id.value_spec()),
            if has_record_id(old(self).records_view(), id.value_spec()) {
                let i = record_idx(old(self).records_view(), id.value_spec());
                let e = old(self).records_view()[i];
                final(self).records_view() == old(self).records_view().update(
                    i,
                    (e.0, e.1, set_entry(e.2, key@, value@), e.3),
                )
            } else {
                final(self).records_view() == old(self).records_view()
            },
    {
        let ghost g0 = *self;
        match self.find_record(id.value()) {
            Some(i) => {
                let ghost e = g0.records_view()[i as int];
                proof {
                    crate::props::lemma_set_entry(e.2, key@, value@);
                }
                let mut entry = self.records.remove(i);
                entry.props.set(key, value);
                self.records.insert(i, entry);
                proof {
                    assert(self.records_view() =~= g0.records_view().update(
                        i as int,
                        (e.0, e.1, set_entry(e.2, key@, value@), e.3),
                    ));
                    assert(self.nodes_view() =~= g0.nodes_view());
                    assert(self.edges_view() =~= g0.edges_view());
                    assert(records_table_wf(self.records_view(), self.next_seq_spec())) by {
                        let s0 = g0.records_view();
                        let s1 = self.records_view();
                        assert(forall|j: int|
                            0 <= j < s1.len() ==> (#[trigger] s1[j]).3 == s0[j].3);
                        assert(forall|j: int|
                            0 <= j < s1.len() ==> (#[trigger] s1[j]).0 == s0[j].0);
                    }
                }
                true
            },
            None => false,
        }
    }

    /// Commits a node with its properties. A fresh identifier takes the
    /// next sequence number; a known one keeps its number and has its
    /// entity and properties replaced.
    pub fn insert_node(&mut self, node: Node, properties: Properties)
        requires
            old(self).wf(),
            properties.wf(),
            old(self).next_seq_spec() < usize::MAX,
        ensures
            final(self).wf(),
            node_inserted(*old(self), *final(self), node, properties.entries_spec()),
    {
        let ghost g0 = *self;
        match self.find_node(node.id().value()) {
            Some(i) => {
                let ghost e = g0.nodes_view()[i as int];
                let old_entry = self.nodes.remove(i);
                let seq = old_entry.seq;
                self.nodes.insert(i, NodeEntry { node, props: properties, seq });
                proof {
                    assert(self.nodes_view() =~= g0.nodes_view().update(
                        i as int,
                        (node, properties.entries_spec(), e.2),
                    ));
                    assert(self.edges_view() =~= g0.edges_view());
                    assert(self.records_view() =~= g0.records_view());
                    assert(nodes_table_wf(self.nodes_view(), self.next_seq_spec())) by {
                        let s0 = g0.nodes_view();
                        let s1 = self.nodes_view();
                        assert(forall|j: int|
                            0 <= j < s1.len() ==> (#[trigger] s1[j]).2 == s0[j].2);
                        assert(forall|j: int|
                            0 <= j < s1.len()
                                ==> (#[trigger] s1[j]).0.id_spec().value_spec()
                                == s0[j].0.id_spec().value_spec());
                    }
                }
            },
            None => {
                let seq = self.next_seq;
                self.nodes.push(NodeEntry { node, props: properties, seq });
                self.next_seq = self.next_seq + 1;
                proof {
                    assert(self.nodes_view() =~= g0.nodes_view().push(
                        (node, properties.entries_spec(), g0.next_seq_spec()),
                    ));
                    assert(self.edges_view() =~= g0.edges_view());
                    assert(self.records_view() =~= g0.records_view());
                    let s1 = self.nodes_view();
                    let s0 = g0.nodes_view();
                    assert(nodes_table_wf(s1, self.next_seq_spec())) by {
                        assert(forall|j: int| 0 <= j < s0.len() ==> s1[j] == s0[j]);
                        assert(s1[s0.len() as int].2 == g0.next_seq_spec());
                    }
                }
            },
        }
    }

    /// Commits an edge with its properties; same sequence rule as for
    /// nodes.
    pub fn insert_edge(&mut self, edge: Edge, properties: Properties)
        requires
            old(self).wf(),
            properties.wf(),
            old(self).next_seq_spec() < usize::MAX,
        ensures
            final(self).wf(),
            edge_inserted(*old(self), *final(self), edge, properties.entries_spec()),
    {
        let ghost g0 = *self;
        match self.find_edge(edge.id().value()) {
            Some(i) => {
                let ghost e = g0.edges_view()[i as int];
                let old_entry = self.edges.remove(i);
                let seq = old_entry.seq;
                self.edges.insert(i, EdgeEntry { edge, props: properties, seq });
                proof {
                    assert(self.edges_view() =~= g0.edges_view().update(
                        i as int,
                        (edge, properties.entries_spec(), e.2),
                    ));
                    assert(self.nodes_view() =~= g0.nodes_view());
                    assert(self.records_view() =~= g0.records_view());
                    assert(edges_table_wf(self.edges_view(), self.next_seq_spec())) by {
                        let s0 = g0.edges_view();
                        let s1 = self.edges_view();
                        assert(forall|j: int|
                            0 <= j < s1.len() ==> (#[trigger] s1[j]).2 == s0[j].2);
                        assert(forall|j: int|
                            0 <= j < s1.len()
                                ==> (#[trigger] s1[j]).0.id_spec().value_spec()
                                == s0[j].0.id_spec().value_spec());
                    }
                }
            },
            None => {
                let seq = self.next_seq;
                self.edges.push(EdgeEntry { edge, props: properties, seq });
                self.next_seq = self.next_seq + 1;
                proof {
                    assert(self.edges_view() =~= g0.edges_view().push(
                        (edge, properties.entries_spec(), g0.next_seq_spec()),
                    ));
                    assert(self.nodes_view() =~= g0.nodes_view());
                    assert(self.records_view() =~= g0.records_view());
                    let s1 = self.edges_view();
                    let s0 = g0.edges_view();
                    assert(edges_table_wf(s1, self.next_seq_spec())) by {
                        assert(forall|j: int| 0 <= j < s0.len() ==> s1[j] == s0[j]);
                        assert(s1[s0.len() as int].2 == g0.next_seq_spec());
                    }
                }
            },
        }
    }

    /// Commits a record with its properties; same sequence rule as for
    /// nodes.
    pub fn insert_record(&mut self, record: Record, properties: Properties)
        requires
            old(self).wf(),
            properties.wf(),
            old(self).next_seq_spec() < usize::MAX,
        ensures
            final(self).wf(),
            record_inserted(
                *old(self),
                *final(self),
                record.id_spec().value_spec(),
                record.cols(),
                properties.entries_spec(),
            ),
    {
        let ghost g0 = *self;
        let ghost rec0 = record;
        let ghost idv = record.id_spec().value_spec();
        match self.find_record(record.id().value()) {
            Some(i) => {
                let ghost e = g0.records_view()[i as int];
                let old_entry = self.records.remove(i);
                let seq = old_entry.seq;
                self.records.insert(i, RecordEntry { record, props: properties, seq });
                proof {
                    assert(g0.records_view()[i as int].0 == idv);
                    assert(self.records_view() =~= g0.records_view().update(
                        i as int,
                        (idv, rec0.cols(), properties.entries_spec(), e.3),
                    ));
                    assert(self.nodes_view() =~= g0.nodes_view());
                    assert(self.edges_view() =~= g0.edges_view());
                    assert(records_table_wf(self.records_view(), self.next_seq_spec())) by {
                        let s0 = g0.records_view();
                        let s1 = self.records_view();
                        assert(forall|j: int|
                            0 <= j < s1.len() ==> (#[trigger] s1[j]).3 == s0[j].3);
                        assert(forall|j: int|
                            0 <= j < s1.len() ==> (#[trigger] s1[j]).0 == s0[j].0);
                    }
                }
            },
            None => {
                let seq = self.next_seq;
                self.records.push(RecordEntry { record, props: properties, seq });
                self.next_seq = self.next_seq + 1;
                proof {
                    assert(self.records_view() =~= g0.records_view().push(
                        (idv, rec0.cols(), properties.entries_spec(), g0.next_seq_spec()),
                    ));
                    assert(self.nodes_view() =~= g0.nodes_view());
                    assert(self.edges_view() =~= g0.edges_view());
                    let s1 = self.records_view();
                    let s0 = g0.records_view();
                    assert(records_table_wf(s1, self.next_seq_spec())) by {
                        assert(forall|j: int| 0 <= j < s0.len() ==> s1[j] == s0[j]);
                        assert(s1[s0.len() as int].3 == g0.next_seq_spec());
                    }
                }
            },
        }
    }

    /// A builder for a node with this identifier.
    pub fn new_node(id: ID) -> (r: NodeBuilder)
        ensures
            r.wf(),
            r.id_spec() == id,
            r.props_spec() == Seq::<(Seq<char>, crate::value::ValV)>::empty(),
    {
        NodeBuilder::new(id)
    }

    /// A builder for an edge between these nodes; the edge identifier is
    /// derived from the two endpoint identifiers, in order.
    pub fn new_edge(start_node: Node, end_node: Node) -> (r: EdgeBuilder)
        ensures
            r.wf(),
            r.id_spec() == ID::id_of(
                join_values(
                    start_node.id_spec().value_spec(),
                    end_node.id_spec().value_spec(),
                ),
                IdGenerator::Sha512,
            ),
            r.start_spec() == start_node,
            r.end_spec() == end_node,
            r.props_spec() == Seq::<(Seq<char>, crate::value::ValV)>::empty(),
    {
        EdgeBuilder::new(start_node, end_node)
    }

    /// A builder for a record with this identifier and an empty
    /// width × height grid.
    pub fn new_record(id: ID, width: usize, height: usize) -> (r: RecordBuilder)
        ensures
            r.wf(),
            r.record_spec().id_spec() == id,
            r.record_spec().grid_spec().width_spec() == width,
            r.record_spec().grid_spec().height_spec() == height,
            r.record_spec().cols() == Seq::new(
                width as nat,
                |i: int| Seq::new(height as nat, |j: int| None::<(Node, Seq<char>)>),
            ),
            r.props_spec() == Seq::<(Seq<char>, crate::value::ValV)>::empty(),
    {
        RecordBuilder::new(id, width, height)
    }

    /// Serializes the graph: the graph properties line, then one line per
    /// record, node and edge, each table in insertion order. A function of
    /// the graph's contents alone.
    pub fn to_dot(&self) -> (r: String)
        ensures
            r@ == dot_str(
                self.graph_props(),
                self.records_view(),
                self.nodes_view(),
                self.edges_view(),
            ),
    {
        let mut out = String::from_str("digraph {\n");
        out.append("  graph ");
        let gprops = self.properties.render();
        out.append(gprops.as_str());
        out.append(";\n");
        let ghost rs = self.records_view();
        let ghost ns = self.nodes_view();
        let ghost es = self.edges_view();
        let ghost head = "digraph {\n"@ + "  graph "@ + props_str(self.graph_props()) + ";\n"@;

        let n_r = self.records.len();
        let mut i: usize = 0;
        proof {
            assert(record_lines(rs.take(0)) =~= Seq::<char>::empty());
            assert(out@ =~= head + record_lines(rs.take(0)));
        }
        while i < n_r
            invariant
                i <= n_r,
                n_r == self.records@.len(),
                rs == self.records_view(),
                out@ == head + record_lines(rs.take(i as int)),
            decreases n_r - i,
        {
            out.append("  ");
            let body = self.records[i].record.render();
            out.append(body.as_str());
            out.append(" ");
            let props = self.records[i].props.render();
            out.append(props.as_str());
            out.append(";\n");
            i = i + 1;
            proof {
                assert(rs.take(i as int).drop_last() =~= rs.take(i - 1));
                assert(rs.take(i as int).last() == rs[i - 1]);
                assert(out@ =~= head + record_lines(rs.take(i as int)));
            }
        }
        proof {
            assert(rs.take(n_r as int) =~= rs);
        }

        let ghost head2 = head + record_lines(rs);
        let n_n = self.nodes.len();
        i = 0;
        proof {
            assert(node_lines(ns.take(0)) =~= Seq::<char>::empty());
            assert(out@ =~= head2 + node_lines(ns.take(0)));
        }
        while i < n_n
            invariant
                i <= n_n,
                n_n == self.nodes@.len(),
                ns == self.nodes_view(),
                out@ == head2 + node_lines(ns.take(i as int)),
            decreases n_n - i,
        {
            out.append("  ");
            let name = self.nodes[i].node.name();
            out.append(name.as_str());
            out.append(" ");
            let props = self.nodes[i].props.render();
            out.append(props.as_str());
            out.append(";\n");
            i = i + 1;
            proof {
                assert(ns.take(i as int).drop_last() =~= ns.take(i - 1));
                assert(ns.take(i as int).last() == ns[i - 1]);
                assert(out@ =~= head2 + node_lines(ns.take(i as int)));
            }
        }
        proof {
            assert(ns.take(n_n as int) =~= ns);
        }

        let ghost head3 = head2 + node_lines(ns);
        let n_e = self.edges.len();
        i = 0;
        proof {
            assert(edge_lines(es.take(0)) =~= Seq::<char>::empty());
            assert(out@ =~= head3 + edge_lines(es.take(0)));
        }
        while i < n_e
            invariant
                i <= n_e,
                n_e == self.edges@.len(),
                es == self.edges_view(),
                out@ == head3 + edge_lines(es.take(i as int)),
            decreases n_e - i,
        {
            out.append("  ");
            let text = self.edges[i].edge.render();
            out.append(text.as_str());
            out.append(" ");
            let props = self.edges[i].props.render();
            out.append(props.as_str());
            out.append(";\n");
            i = i + 1;
            proof {
                assert(es.take(i as int).drop_last() =~= es.take(i - 1));
                assert(es.take(i as int).last() == es[i - 1]);
                assert(out@ =~= head3 + edge_lines(es.take(i as int)));
            }
        }
        proof {
            assert(es.take(n_e as int) =~= es);
        }

        out.append("}\n");
        proof {
            assert(out@ =~= dot_str(self.graph_props(), rs, ns, es));
        }
        out
    }
}

/// Serialization depends on the graph's contents alone: graphs with equal
/// contents serialize to byte-identical text, independent of any internal
/// storage.
pub proof fn lemma_to_dot_deterministic(g1: Graph, g2: Graph)
    requires
        g1.graph_props() == g2.graph_props(),
        g1.records_view() == g2.records_view(),
        g1.nodes_view() == g2.nodes_view(),
        g1.edges_view() == g2.edges_view(),
    ensures
        dot_str(g1.graph_props(), g1.records_view(), g1.nodes_view(), g1.edges_view()) == dot_str(
            g2.graph_props(),
            g2.records_view(),
            g2.nodes_view(),
            g2.edges_view(),
        ),
{
}

// ---------------------------------------------------------------------
// Builders.
// ---------------------------------------------------------------------

/// An inert, uncommitted node: properties accumulate until `finalize`
/// commits the node to a graph exactly once.
pub struct NodeBuilder {
    id: ID,
    properties: Properties,
}

impl NodeBuilder {
    pub closed spec fn id_spec(&self) -> ID {
        self.id
    }

    pub closed spec fn props_spec(&self) -> EntriesV {
        self.properties.entries_spec()
    }

    pub open spec fn wf(&self) -> bool {
        unique_keys(self.props_spec())
    }

    /// A builder for a node with this identifier and no properties yet.
    pub fn new(id: ID) -> (r: NodeBuilder)
        ensures
            r.wf(),
            r.id_spec() == id,
            r.props_spec() == Seq::<(Seq<char>, crate::value::ValV)>::empty(),
    {
        NodeBuilder { id, properties: Properties::new() }
    }

    /// The builder with one more property.
    pub fn with_property(self, key: &str, value: Value) -> (r: NodeBuilder)
        requires
            self.wf(),
        ensures
            r.wf(),
            r.id_spec() == self.id_spec(),
            r.props_spec() == set_entry(self.props_spec(), key@, value@),
    {
        proof {
            crate::props::lemma_set_entry(self.props_spec(), key@, value@);
        }
        let mut properties = self.properties;
        properties.set(key, value);
        NodeBuilder { id: self.id, properties }
    }

    /// The builder with a whole property map folded in, the given map's
    /// values winning on shared keys.
    pub fn with_properties(self, properties: Properties) -> (r: NodeBuilder)
        requires
            self.wf(),
            properties.wf(),
        ensures
            r.wf(),
            r.id_spec() == self.id_spec(),
            r.props_spec() == merge_entries(self.props_spec(), properties.entries_spec()),
    {
        proof {
            crate::props::lemma_merge_semantics(self.props_spec(), properties.entries_spec());
        }
        let mut own = self.properties;
        let mut other = properties;
        own.append(&mut other);
        NodeBuilder { id: self.id, properties: own }
    }

    /// Commits the node: it takes the graph's next sequence number (or
    /// replaces the entry with the same identifier value) and becomes
    /// immutable. Consumes the builder, so a builder commits at most once.
    pub fn finalize(self, graph: &mut Graph) -> (node: Node)
        requires
            self.wf(),
            old(graph).wf(),
            old(graph).next_seq_spec() < usize::MAX,
        ensures
            node == Node::node_of(self.id_spec(), None),
            final(graph).wf(),
            node_inserted(*old(graph), *final(graph), node, self.props_spec()),
    {
        let node = Node::new(self.id);
        graph.insert_node(node, self.properties);
        node
    }
}

/// An inert, uncommitted edge; its identifier is already derived from the
/// ordered endpoint pair.
pub struct EdgeBuilder {
    id: ID,
    start_node: Node,
    end_node: Node,
    properties: Properties,
}

impl EdgeBuilder {
    pub closed spec fn id_spec(&self) -> ID {
        self.id
    }

    pub closed spec fn start_spec(&self) -> Node {
        self.start_node
    }

    pub closed spec fn end_spec(&self) -> Node {
        self.end_node
    }

    pub closed spec fn props_spec(&self) -> EntriesV {
        self.properties.entries_spec()
    }

    pub open spec fn wf(&self) -> bool {
        unique_keys(self.props_spec())
    }

    /// A builder for an edge from `start_node` to `end_node`; the
    /// identifier is the order-sensitive join of the endpoint identifiers,
    /// so the two directions of a pair get distinct identifiers.
    pub fn new(start_node: Node, end_node: Node) -> (r: EdgeBuilder)
        ensures
            r.wf(),
            r.id_spec() == ID::id_of(
                join_values(
                    start_node.id_spec().value_spec(),
                    end_node.id_spec().value_spec(),
                ),
                IdGenerator::Sha512,
            ),
            r.start_spec() == start_node,
            r.end_spec() == end_node,
            r.props_spec() == Seq::<(Seq<char>, crate::value::ValV)>::empty(),
    {
        let sid = start_node.id();
        let eid = end_node.id();
        EdgeBuilder {
            id: sid.join(&eid),
            start_node,
            end_node,
            properties: Properties::new(),
        }
    }

    /// The builder with one more property.
    pub fn with_property(self, key: &str, value: Value) -> (r: EdgeBuilder)
        requires
            self.wf(),
        ensures
            r.wf(),
            r.id_spec() == self.id_spec(),
            r.start_spec() == self.start_spec(),
            r.end_spec() == self.end_spec(),
            r.props_spec() == set_entry(self.props_spec(), key@, value@),
    {
        proof {
            crate::props::lemma_set_entry(self.props_spec(), key@, value@);
        }
        let mut properties = self.properties;
        properties.set(key, value);
        EdgeBuilder {
            id: self.id,
            start_node: self.start_node,
            end_node: self.end_node,
            properties,
        }
    }

    /// The builder with a whole property map folded in.
    pub fn with_properties(self, properties: Properties) -> (r: EdgeBuilder)
        requires
            self.wf(),
            properties.wf(),
        ensures
            r.wf(),
            r.id_spec() == self.id_spec(),
            r.start_spec() == self.start_spec(),
            r.end_spec() == self.end_spec(),
            r.props_spec() == merge_entries(self.props_spec(), properties.entries_spec()),
    {
        proof {
            crate::props::lemma_merge_semantics(self.props_spec(), properties.entries_spec());
        }
        let mut own = self.properties;
        let mut other = properties;
        own.append(&mut other);
        EdgeBuilder {
            id: self.id,
            start_node: self.start_node,
            end_node: self.end_node,
            properties: own,
        }
    }

    /// Commits the edge; consumes the builder.
    pub fn finalize(self, graph: &mut Graph) -> (edge: Edge)
        requires
            self.wf(),
            old(graph).wf(),
            old(graph).next_seq_spec() < usize::MAX,
        ensures
            edge.id_spec() == self.id_spec(),
            edge.start_spec() == self.start_spec(),
            edge.end_spec() == self.end_spec(),
            final(graph).wf(),
            edge_inserted(*old(graph), *final(graph), edge, self.props_spec()),
    {
        let edge = Edge::new(self.id, self.start_node, self.end_node);
        graph.insert_edge(edge, self.properties);
        edge
    }
}

/// The identifier value a record cell derives from its column index, row
/// index and label text, composed pairwise.
pub open spec fn cell_id_value(x: u128, y: u128, label: Seq<char>) -> u128 {
    join_values(join_values(x, y), text_value(label))
}

/// An inert, uncommitted record: cells and properties accumulate until
/// `finalize` commits it.
pub struct RecordBuilder {
    record: Record,
    properties: Properties,
}

impl RecordBuilder {
    pub closed spec fn record_spec(&self) -> Record {
        self.record
    }

    pub closed spec fn props_spec(&self) -> EntriesV {
        self.properties.entries_spec()
    }

    pub open spec fn wf(&self) -> bool {
        unique_keys(self.props_spec()) && self.record_spec().wf()
    }

    /// A builder for a record with an empty width × height grid.
    pub fn new(id: ID, width: usize, height: usize) -> (r: RecordBuilder)
        ensures
            r.wf(),
            r.record_spec().id_spec() == id,
            r.record_spec().grid_spec().width_spec() == width,
            r.record_spec().grid_spec().height_spec() == height,
            r.record_spec().cols() == Seq::new(
                width as nat,
                |i: int| Seq::new(height as nat, |j: int| None::<(Node, Seq<char>)>),
            ),
            r.props_spec() == Seq::<(Seq<char>, crate::value::ValV)>::empty(),
    {
        RecordBuilder { record: Record::new(id, width, height), properties: Properties::new() }
    }

    /// Places a labeled cell at column `x`, row `y`. The cell's node gets
    /// an identifier derived from the column index, the row index and the
    /// label, composed pairwise, and is stamped with the record's
    /// identifier as owner.
    pub fn insert(self, x: usize, y: usize, label: &str) -> (r: RecordBuilder)
        requires
            self.wf(),
            x < self.record_spec().grid_spec().width_spec(),
            y < self.record_spec().grid_spec().height_spec(),
        ensures
            r.wf(),
            r.props_spec() == self.props_spec(),
            r.record_spec().id_spec() == self.record_spec().id_spec(),
            r.record_spec().grid_spec().width_spec() == self.record_spec().grid_spec().width_spec(),
            r.record_spec().grid_spec().height_spec() == self.record_spec().grid_spec().height_spec(),
            r.record_spec().cols() == self.record_spec().cols().update(
                x as int,
                self.record_spec().cols()[x as int].update(
                    y as int,
                    Some(
                        (
                            Node::node_of(
                                ID::id_of(
                                    cell_id_value(x as u128, y as u128, label@),
                                    IdGenerator::Sha512,
                                ),
                                Some(self.record_spec().id_spec()),
                            ),
                            label@,
                        ),
                    ),
                ),
            ),
    {
        let xid = ID::from_usize(x);
        let yid = ID::from_usize(y);
        let lid = ID::from_text(label);
        let cell_id = xid.join(&yid).join(&lid);
        let node = Node::new(cell_id);
        let ghost rec0 = self.record;
        let mut record = self.record;
        let res = record.insert_node(x, y, node, label);
        proof {
            assert(res is Ok);
            crate::node::lemma_with_record_spec(node, rec0.id_spec());
            assert(cell_id == ID::id_of(
                cell_id_value(x as u128, y as u128, label@),
                IdGenerator::Sha512,
            ));
        }
        RecordBuilder { record, properties: self.properties }
    }

    /// The builder with one more property.
    pub fn with_property(self, key: &str, value: Value) -> (r: RecordBuilder)
        requires
            self.wf(),
        ensures
            r.wf(),
            r.record_spec() == self.record_spec(),
            r.props_spec() == set_entry(self.props_spec(), key@, value@),
    {
        proof {
            crate::props::lemma_set_entry(self.props_spec(), key@, value@);
        }
        let mut properties = self.properties;
        properties.set(key, value);
        RecordBuilder { record: self.record, properties }
    }

    /// The builder with a whole property map folded in.
    pub fn with_properties(self, properties: Properties) -> (r: RecordBuilder)
        requires
            self.wf(),
            properties.wf(),
        ensures
            r.wf(),
            r.record_spec() == self.record_spec(),
            r.props_spec() == merge_entries(self.props_spec(), properties.entries_spec()),
    {
        proof {
            crate::props::lemma_merge_semantics(self.props_spec(), properties.entries_spec());
        }
        let mut own = self.properties;
        let mut other = properties;
        own.append(&mut other);
        RecordBuilder { record: self.record, properties: own }
    }

    /// Commits the record and returns it; consumes the builder.
    pub fn finalize(self, graph: &mut Graph) -> (record: Record)
        requires
            self.wf(),
            old(graph).wf(),
            old(graph).next_seq_spec() < usize::MAX,
        ensures
            record.id_spec() == self.record_spec().id_spec(),
            record.cols() == self.record_spec().cols(),
            final(graph).wf(),
            record_inserted(
                *old(graph),
                *final(graph),
                self.record_spec().id_spec().value_spec(),
                self.record_spec().cols(),
                self.props_spec(),
            ),
    {
        let record = self.record.duplicate();
        graph.insert_record(self.record, self.properties);
        record
    }
}

} // verus!
