//! A compound multi-cell entity: a record owns a width × height grid of
//! optional (node, label) cells and renders as a single record shape.
//!
//! Inserting a cell is bounds-checked and overwrites the slot in place; an
//! out-of-range column or row index fails with `IndexOutOfRange` rather
//! than being silently dropped.

use vstd::prelude::*;
use vstd::string::StringExecFns;
use crate::id::ID;
use crate::id::hex_lower_of;
use crate::node::Node;
use crate::node::node_name_of;

verus! {

/// An error raised by a cell insertion outside the grid.
#[derive(Debug, Clone, Copy, PartialEq, Eq, Structural)]
pub enum GridError {
    IndexOutOfRange,
}

/// One slot of a column as plain data: empty, or a node and its label.
pub type SlotV = Option<(Node, Seq<char>)>;

/// A stored slot as plain data.
pub open spec fn slot_view(s: Option<(Node, String)>) -> SlotV {
    match s {
        Some(p) => Some((p.0, p.1@)),
        None => None,
    }
}

/// A column in a grid: a fixed-length sequence of slots.
#[derive(Debug, Clone, PartialEq)]
pub struct Column {
    nodes: Vec<Option<(Node, String)>>,
}

/// A grid which can have nodes placed on it.
#[derive(Debug, Clone, PartialEq)]
pub struct Grid {
    width: usize,
    height: usize,
    nodes: Vec<Column>,
}

/// A record: an identifier and the grid of its cells.
#[derive(Debug, Clone, PartialEq)]
pub struct Record {
    id: ID,
    nodes: Grid,
}

// ---------------------------------------------------------------------
// Rendering.
// ---------------------------------------------------------------------

/// One populated slot renders as `<anchor>label`, preceded by `|` except in
/// the first row; an empty slot renders nothing.
pub open spec fn cell_str(slot: SlotV, y: int) -> Seq<char> {
    match slot {
        Some((n, l)) => (if y > 0 {
            seq!['|']
        } else {
            Seq::<char>::empty()
        }) + seq!['<'] + node_name_of(n) + seq!['>'] + l,
        None => Seq::<char>::empty(),
    }
}

/// The first `hi` slots of a column, rendered in row order.
pub open spec fn cells_str(slots: Seq<SlotV>, hi: int) -> Seq<char>
    decreases hi,
{
    if hi <= 0 {
        Seq::<char>::empty()
    } else {
        cells_str(slots, hi - 1) + cell_str(slots[hi - 1], hi - 1)
    }
}

/// A column with more than one slot is brace-grouped.
pub open spec fn column_str(slots: Seq<SlotV>) -> Seq<char> {
    if slots.len() > 1 {
        seq!['{'] + cells_str(slots, slots.len() as int) + seq!['}']
    } else {
        cells_str(slots, slots.len() as int)
    }
}

/// A zero-height column renders as a blank placeholder.
pub open spec fn column_field(slots: Seq<SlotV>) -> Seq<char> {
    if slots.len() == 0 {
        seq![' ']
    } else {
        column_str(slots)
    }
}

/// The first `hi` columns left to right, separated by `|`.
pub open spec fn columns_str(cols: Seq<Seq<SlotV>>, hi: int) -> Seq<char>
    decreases hi,
{
    if hi <= 0 {
        Seq::<char>::empty()
    } else {
        columns_str(cols, hi - 1) + (if hi - 1 > 0 {
            seq!['|']
        } else {
            Seq::<char>::empty()
        }) + column_field(cols[hi - 1])
    }
}

/// A record's full line form: one record shape whose label lists the
/// columns.
pub open spec fn record_str(id_value: u128, cols: Seq<Seq<SlotV>>) -> Seq<char> {
    "Record_"@ + hex_lower_of(id_value) + " [shape=record, label=\" "@ + columns_str(
        cols,
        cols.len() as int,
    ) + " \"]"@
}

// ---------------------------------------------------------------------
// Column.
// ---------------------------------------------------------------------

impl Column {
    /// The slots as plain data.
    pub closed spec fn slots(&self) -> Seq<SlotV> {
        Seq::new(self.nodes@.len(), |i: int| slot_view(self.nodes@[i]))
    }

    /// A column of `length` empty slots.
    pub fn new(length: usize) -> (r: Column)
        ensures
            r.slots() =~= Seq::new(length as nat, |i: int| None::<(Node, Seq<char>)>),
    {
        let mut nodes: Vec<Option<(Node, String)>> = Vec::new();
        let mut i: usize = 0;
        while i < length
            invariant
                i <= length,
                nodes@.len() == i,
                forall|j: int| 0 <= j < i ==> nodes@[j] is None,
            decreases length - i,
        {
            nodes.push(None);
            i = i + 1;
        }
        let r = Column { nodes };
        proof {
            assert(r.slots() =~= Seq::new(length as nat, |i: int| None::<(Node, Seq<char>)>));
        }
        r
    }

    /// An equal column; duplication preserves the slots.
    pub fn duplicate(&self) -> (r: Column)
        ensures
            r.slots() == self.slots(),
    {
        let mut nodes: Vec<Option<(Node, String)>> = Vec::new();
        let n = self.nodes.len();
        let mut i: usize = 0;
        while i < n
            invariant
                i <= n,
                n == self.nodes@.len(),
                nodes@.len() == i,
                forall|j: int| 0 <= j < i ==> slot_view(#[trigger] nodes@[j]) == self.slots()[j],
            decreases n - i,
        {
            let slot_copy: Option<(Node, String)> = match &self.nodes[i] {
                Some(p) => Some((p.0, p.1.clone())),
                None => None,
            };
            let ghost sc = slot_copy;
            proof {
                assert(slot_view(sc) == slot_view(self.nodes@[i as int]));
                assert(slot_view(sc) == self.slots()[i as int]);
            }
            nodes.push(slot_copy);
            i = i + 1;
        }
        let r = Column { nodes };
        proof {
            assert(r.slots() =~= self.slots());
        }
        r
    }

    /// Overwrites slot `y` in place; fails when `y` is out of range.
    pub fn insert_node(&mut self, y: usize, node: Node, label: &str) -> (r: Result<
        (),
        GridError,
    >)
        ensures
            match r {
                Ok(()) => y < old(self).slots().len() && final(self).slots() == old(
                    self,
                ).slots().update(y as int, Some((node, label@))),
                Err(e) => y >= old(self).slots().len() && *final(self) == *old(self) && e
                    == GridError::IndexOutOfRange,
            },
    {
        if y >= self.nodes.len() {
            return Err(GridError::IndexOutOfRange);
        }
        let ghost s0 = self.slots();
        let _ = self.nodes.remove(y);
        self.nodes.insert(y, Some((node, label.to_owned())));
        proof {
            assert(self.slots() =~= s0.update(y as int, Some((node, label@))));
        }
        Ok(())
    }
}

// ---------------------------------------------------------------------
// Grid.
// ---------------------------------------------------------------------

impl Grid {
    /// The columns' slots as plain data.
    pub closed spec fn cols(&self) -> Seq<Seq<SlotV>> {
        Seq::new(self.nodes@.len(), |i: int| self.nodes@[i].slots())
    }

    pub closed spec fn width_spec(&self) -> int {
        self.width as int
    }

    pub closed spec fn height_spec(&self) -> int {
        self.height as int
    }

    /// The stated size matches the columns.
    pub open spec fn wf(&self) -> bool {
        &&& self.cols().len() == self.width_spec()
        &&& forall|i: int| 0 <= i < self.cols().len() ==> #[trigger] self.cols()[i].len()
            == self.height_spec()
    }

    /// A grid of `width` columns, each of `height` empty slots.
    pub fn new(width: usize, height: usize) -> (r: Grid)
        ensures
            r.wf(),
            r.width_spec() == width,
            r.height_spec() == height,
            r.cols() =~= Seq::new(
                width as nat,
                |i: int| Seq::new(height as nat, |j: int| None::<(Node, Seq<char>)>),
            ),
    {
        let mut nodes: Vec<Column> = Vec::new();
        let mut i: usize = 0;
        while i < width
            invariant
                i <= width,
                nodes@.len() == i,
                forall|j: int|
                    0 <= j < i ==> #[trigger] nodes@[j].slots() =~= Seq::new(
                        height as nat,
                        |y: int| None::<(Node, Seq<char>)>,
                    ),
            decreases width - i,
        {
            nodes.push(Column::new(height));
            i = i + 1;
        }
        let r = Grid { width, height, nodes };
        proof {
            assert(r.cols() =~= Seq::new(
                width as nat,
                |i: int| Seq::new(height as nat, |j: int| None::<(Node, Seq<char>)>),
            ));
        }
        r
    }

    /// An equal grid; duplication preserves size and contents.
    pub fn duplicate(&self) -> (r: Grid)
        ensures
            r.width_spec() == self.width_spec(),
            r.height_spec() == self.height_spec(),
            r.cols() == self.cols(),
    {
        let mut nodes: Vec<Column> = Vec::new();
        let n = self.nodes.len();
        let mut i: usize = 0;
        while i < n
            invariant
                i <= n,
                n == self.nodes@.len(),
                nodes@.len() == i,
                forall|j: int| 0 <= j < i ==> (#[trigger] nodes@[j].slots()) == self.cols()[j],
            decreases n - i,
        {
            nodes.push(self.nodes[i].duplicate());
            i = i + 1;
        }
        let r = Grid { width: self.width, height: self.height, nodes };
        proof {
            assert(r.cols() =~= self.cols());
        }
        r
    }

    /// The node stored at column `x`, row `y`, if that slot is populated.
    pub fn cell_node(&self, x: usize, y: usize) -> (r: Option<Node>)
        ensures
            match r {
                Some(n) => x < self.cols().len() && y < self.cols()[x as int].len() && (
                match self.cols()[x as int][y as int] {
                    Some(c) => n == c.0,
                    None => false,
                }),
                None => x >= self.cols().len() || y >= self.cols()[x as int].len()
                    || self.cols()[x as int][y as int] is None,
            },
    {
        if x >= self.nodes.len() {
            return None;
        }
        let column = &self.nodes[x];
        if y >= column.nodes.len() {
            return None;
        }
        match &column.nodes[y] {
            Some(p) => Some(p.0),
            None => None,
        }
    }

    /// The column at `x`, if `x` is in range.
    pub fn get_column(&self, x: usize) -> (r: Option<&Column>)
        ensures
            match r {
                Some(c) => x < self.cols().len() && c.slots() == self.cols()[x as int],
                None => x >= self.cols().len(),
            },
    {
        if x < self.nodes.len() {
            Some(&self.nodes[x])
        } else {
            None
        }
    }

    /// Overwrites the slot at column `x`, row `y`; fails when either index
    /// is out of range.
    pub fn insert_node(&mut self, x: usize, y: usize, node: Node, label: &str) -> (r: Result<
        (),
        GridError,
    >)
        ensures
            final(self).width_spec() == old(self).width_spec(),
            final(self).height_spec() == old(self).height_spec(),
            match r {
                Ok(()) => x < old(self).cols().len() && y < old(self).cols()[x as int].len()
                    && final(self).cols() == old(self).cols().update(
                    x as int,
                    old(self).cols()[x as int].update(y as int, Some((node, label@))),
                ),
                Err(e) => (x >= old(self).cols().len() || y >= old(
                    self,
                ).cols()[x as int].len()) && final(self).cols() == old(self).cols() && e
                    == GridError::IndexOutOfRange,
            },
    {
        if x >= self.nodes.len() {
            return Err(GridError::IndexOutOfRange);
        }
        let ghost c0 = self.cols();
        let mut column = self.nodes.remove(x);
        let res = column.insert_node(y, node, label);
        self.nodes.insert(x, column);
        proof {
            match res {
                Ok(()) => {
                    assert(self.cols() =~= c0.update(
                        x as int,
                        c0[x as int].update(y as int, Some((node, label@))),
                    ));
                },
                Err(_) => {
                    assert(self.cols() =~= c0);
                },
            }
        }
        res
    }
}

// ---------------------------------------------------------------------
// Record.
// ---------------------------------------------------------------------

impl Record {
    pub closed spec fn id_spec(&self) -> ID {
        self.id
    }

    /// The grid's columns as plain data.
    pub open spec fn cols(&self) -> Seq<Seq<SlotV>> {
        self.grid_spec().cols()
    }

    pub closed spec fn grid_spec(&self) -> Grid {
        self.nodes
    }

    /// Every populated cell carries this record's identifier as its
    /// owning back-reference; free-standing nodes never do.
    pub open spec fn owned_cells(&self) -> bool {
        forall|x: int, y: int|
            0 <= x < self.cols().len() && 0 <= y < self.cols()[x].len() ==> ((
            #[trigger] self.cols()[x][y]) matches Some(c) ==> c.0.record_spec() == Some(
                self.id_spec(),
            ))
    }

    pub open spec fn wf(&self) -> bool {
        self.grid_spec().wf() && self.owned_cells()
    }

    /// A record with an empty width × height grid.
    pub fn new(id: ID, width: usize, height: usize) -> (r: Record)
        ensures
            r.wf(),
            r.id_spec() == id,
            r.grid_spec().width_spec() == width,
            r.grid_spec().height_spec() == height,
            r.cols() =~= Seq::new(
                width as nat,
                |i: int| Seq::new(height as nat, |j: int| None::<(Node, Seq<char>)>),
            ),
    {
        let r = Record { id, nodes: Grid::new(width, height) };
        proof {
            assert forall|x: int, y: int|
                0 <= x < r.cols().len() && 0 <= y < r.cols()[x].len() implies ((
            #[trigger] r.cols()[x][y]) matches Some(c) ==> c.0.record_spec() == Some(
                r.id_spec(),
            )) by {
                assert(r.cols()[x][y] is None);
            }
        }
        r
    }

    /// The record's identifier.
    pub fn id(&self) -> (r: ID)
        ensures
            r == self.id_spec(),
    {
        self.id
    }

    /// An equal record; duplication preserves identifier, size and cells.
    pub fn duplicate(&self) -> (r: Record)
        ensures
            r.id_spec() == self.id_spec(),
            r.grid_spec().width_spec() == self.grid_spec().width_spec(),
            r.grid_spec().height_spec() == self.grid_spec().height_spec(),
            r.cols() == self.cols(),
            self.wf() ==> r.wf(),
    {
        let r = Record { id: self.id, nodes: self.nodes.duplicate() };
        proof {
            if self.wf() {
                assert forall|x: int, y: int|
                    0 <= x < r.cols().len() && 0 <= y < r.cols()[x].len() implies ((
                #[trigger] r.cols()[x][y]) matches Some(c) ==> c.0.record_spec() == Some(
                    r.id_spec(),
                )) by {
                    assert(r.cols()[x] == self.cols()[x]);
                    assert(self.cols()[x][y] == r.cols()[x][y]);
                }
            }
        }
        r
    }

    /// The grid of cells.
    pub fn nodes(&self) -> (r: &Grid)
        ensures
            r == self.grid_spec(),
    {
        &self.nodes
    }

    /// The node stored at column `x`, row `y`, if that slot is populated.
    pub fn cell_node(&self, x: usize, y: usize) -> (r: Option<Node>)
        ensures
            match r {
                Some(n) => x < self.cols().len() && y < self.cols()[x as int].len() && (
                match self.cols()[x as int][y as int] {
                    Some(c) => n == c.0,
                    None => false,
                }),
                None => x >= self.cols().len() || y >= self.cols()[x as int].len()
                    || self.cols()[x as int][y as int] is None,
            },
    {
        self.nodes.cell_node(x, y)
    }

    /// Places a node: the node is stamped with this record's identifier as
    /// its owner and stored at column `x`, row `y`, replacing prior
    /// content; fails when either index is out of range.
    pub fn insert_node(&mut self, x: usize, y: usize, node: Node, label: &str) -> (r: Result<
        (),
        GridError,
    >)
        ensures
            final(self).id_spec() == old(self).id_spec(),
            final(self).grid_spec().width_spec() == old(self).grid_spec().width_spec(),
            final(self).grid_spec().height_spec() == old(self).grid_spec().height_spec(),
            old(self).wf() ==> final(self).wf(),
            match r {
                Ok(()) => x < old(self).cols().len() && y < old(self).cols()[x as int].len()
                    && final(self).cols() == old(self).cols().update(
                    x as int,
                    old(self).cols()[x as int].update(
                        y as int,
                        Some((node.with_record_spec(old(self).id_spec()), label@)),
                    ),
                ),
                Err(e) => (x >= old(self).cols().len() || y >= old(
                    self,
                ).cols()[x as int].len()) && final(self).cols() == old(self).cols() && e
                    == GridError::IndexOutOfRange,
            },
    {
        let owner = self.id;
        let stamped = node.with_record(owner);
        let ghost self0 = *self;
        let res = self.nodes.insert_node(x, y, stamped, label);
        proof {
            if self0.wf() {
                let c0 = self0.cols();
                let c1 = self.cols();
                assert(self.grid_spec().wf()) by {
                    assert forall|i: int|
                        0 <= i < c1.len() implies #[trigger] c1[i].len()
                        == self.grid_spec().height_spec() by {
                        if res is Ok && i == x as int {
                        } else {
                            assert(c1[i] == c0[i]);
                        }
                    }
                }
                assert(self.owned_cells()) by {
                    assert forall|x2: int, y2: int|
                        0 <= x2 < c1.len() && 0 <= y2 < c1[x2].len() implies ((
                    #[trigger] c1[x2][y2]) matches Some(c) ==> c.0.record_spec() == Some(
                        self.id_spec(),
                    )) by {
                        if res is Ok && x2 == x as int && y2 == y as int {
                            assert(c1[x2][y2] == Some((stamped, label@)));
                        } else if res is Ok && x2 == x as int {
                            assert(c1[x2][y2] == c0[x2][y2]);
                        } else {
                            assert(c1[x2] == c0[x2]);
                        }
                    }
                }
            }
        }
        res
    }

    /// The display name `Record_<id>` in lower-case hex.
    pub fn name(&self) -> (r: String)
        ensures
            r@ == "Record_"@ + hex_lower_of(self.id_spec().value_spec()),
    {
        let mut out = String::from_str("Record_");
        let hex = self.id.to_hex_lower();
        out.append(hex.as_str());
        out
    }

    /// Renders the record as a single record shape whose label lists its
    /// columns left to right.
    pub fn render(&self) -> (r: String)
        ensures
            r@ == record_str(self.id_spec().value_spec(), self.cols()),
    {
        let mut out = String::from_str("Record_");
        let hex = self.id.to_hex_lower();
        out.append(hex.as_str());
        out.append(" [shape=record, label=\" ");
        let ghost cols = self.cols();
        let n = self.nodes.col_count();
        let mut x: usize = 0;
        proof {
            assert(out@ =~= "Record_"@ + hex_lower_of(self.id_spec().value_spec())
                + " [shape=record, label=\" "@ + columns_str(cols, 0));
        }
        while x < n
            invariant
                x <= n,
                n == cols.len(),
                cols == self.cols(),
                out@ == "Record_"@ + hex_lower_of(self.id_spec().value_spec())
                    + " [shape=record, label=\" "@ + columns_str(cols, x as int),
            decreases n - x,
        {
            if x > 0 {
                out.append("|");
                proof {
                    reveal_strlit("|");
                }
            }
            let field = self.nodes.column_text(x);
            out.append(field.as_str());
            x = x + 1;
            proof {
                if x - 1 > 0 {
                    assert("|"@ =~= seq!['|']) by {
                        reveal_strlit("|");
                    }
                }
                assert(out@ =~= "Record_"@ + hex_lower_of(self.id_spec().value_spec())
                    + " [shape=record, label=\" "@ + columns_str(cols, x as int));
            }
        }
        out.append(" \"]");
        proof {
            assert(out@ =~= record_str(self.id_spec().value_spec(), self.cols()));
        }
        out
    }
}

impl Grid {
    /// The number of columns.
    pub fn col_count(&self) -> (r: usize)
        ensures
            r == self.cols().len(),
    {
        self.nodes.len()
    }

    /// Renders the column at `x` as one field of a record label.
    pub fn column_text(&self, x: usize) -> (r: String)
        requires
            x < self.cols().len(),
        ensures
            r@ == column_field(self.cols()[x as int]),
    {
        let column = &self.nodes[x];
        let m = column.nodes.len();
        let ghost slots = self.cols()[x as int];
        proof {
            assert(slots == column.slots());
        }
        let mut out = String::new();
        if m > 1 {
            out.append("{");
            proof {
                reveal_strlit("{");
                assert(out@ =~= seq!['{']);
            }
        }
        let ghost braced = m > 1;
        let ghost prefix = if braced {
            seq!['{']
        } else {
            Seq::<char>::empty()
        };
        let mut y: usize = 0;
        proof {
            assert(out@ =~= prefix + cells_str(slots, 0));
        }
        while y < m
            invariant
                y <= m,
                m == slots.len(),
                slots == column.slots(),
                column == self.nodes@[x as int],
                x < self.nodes@.len(),
                out@ == prefix + cells_str(slots, y as int),
            decreases m - y,
        {
            match &column.nodes[y] {
                Some(cell) => {
                    if y > 0 {
                        out.append("|");
                    }
                    out.append("<");
                    let nm = cell.0.name();
                    out.append(nm.as_str());
                    out.append(">");
                    out.append(cell.1.as_str());
                    proof {
                        assert("|"@ =~= seq!['|']) by {
                            reveal_strlit("|");
                        }
                        assert("<"@ =~= seq!['<']) by {
                            reveal_strlit("<");
                        }
                        assert(">"@ =~= seq!['>']) by {
                            reveal_strlit(">");
                        }
                    }
                },
                None => {},
            }
            y = y + 1;
            proof {
                assert(out@ =~= prefix + cells_str(slots, y as int));
            }
        }
        if m > 1 {
            out.append("}");
        }
        if m == 0 {
            out.append(" ");
        }
        proof {
            assert("{"@ =~= seq!['{']) by {
                reveal_strlit("{");
            }
            assert("}"@ =~= seq!['}']) by {
                reveal_strlit("}");
            }
            assert(" "@ =~= seq![' ']) by {
                reveal_strlit(" ");
            }
            assert(cells_str(slots, 0) =~= Seq::<char>::empty());
            assert(out@ =~= column_field(slots));
        }
        out
    }
}

} // verus!
