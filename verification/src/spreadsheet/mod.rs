//! The cell store and the dependency graph.

use vstd::prelude::*;
use dashmap::DashMap;
use crate::utils::str_equal;
use crate::values::{Value, ValueView};

verus! {

/// The record of one cell.
#[derive(Debug, Clone)]
pub struct Cell {
    /// The value that was last computed for the cell.
    pub value: Value,
    /// The expression that the value was computed from, where it has
    /// variables; or a note of why the cell holds an error.
    pub expression: Option<String>,
    /// The time stamp of the write that the record comes from.
    pub timestamp: u64,
}

/// What a `Cell` stands for.
pub struct CellView {
    pub value: ValueView,
    pub expression: Option<Seq<char>>,
    pub timestamp: u64,
}

/// What an optional string stands for.
pub open spec fn text_of(s: Option<String>) -> Option<Seq<char>> {
    match s {
        Some(s) => Some(s@),
        None => None,
    }
}

/// What a list of strings stands for.
pub open spec fn texts(list: Seq<String>) -> Seq<Seq<char>> {
    list.map_values(|s: String| s@)
}

impl View for Cell {
    type V = CellView;

    open spec fn view(&self) -> CellView {
        CellView {
            value: self.value@,
            expression: text_of(self.expression),
            timestamp: self.timestamp,
        }
    }
}

impl Cell {
    /// A cell that holds `value`, with no expression and the earliest time
    /// stamp.
    pub fn new(value: Value) -> (cell: Cell)
        ensures
            cell@ == (CellView { value: value@, expression: None, timestamp: 0 }),
    {
        Cell { value, expression: None, timestamp: 0 }
    }
}

impl Default for Cell {
    fn default() -> (cell: Cell)
        ensures
            cell@ == (CellView { value: ValueView::Empty, expression: None, timestamp: 0 }),
    {
        Cell { value: Value::Empty, expression: None, timestamp: 0 }
    }
}

/// `list` without the occurrences of `item`, the rest in their order.
pub open spec fn without(list: Seq<Seq<char>>, item: Seq<char>) -> Seq<Seq<char>>
    decreases list.len(),
{
    if list.len() == 0 {
        Seq::empty()
    } else if list.last() == item {
        without(list.drop_last(), item)
    } else {
        without(list.drop_last(), item).push(list.last())
    }
}

/// What a spreadsheet stands for: the records of the cells that were
/// written, and for each parent cell the list of its children.
pub struct SheetView {
    pub cells: Map<Seq<char>, CellView>,
    pub edges: Map<Seq<char>, Seq<Seq<char>>>,
}

/// The store in which no cell was written.
pub open spec fn no_cells() -> Map<Seq<char>, CellView> {
    Map::empty()
}

/// The graph without edges.
pub open spec fn no_edges() -> Map<Seq<char>, Seq<Seq<char>>> {
    Map::empty()
}

/// The value of the cell `key` among `cells`; empty where the cell was
/// never written.
pub open spec fn value_of(cells: Map<Seq<char>, CellView>, key: Seq<char>) -> ValueView {
    if cells.contains_key(key) {
        cells[key].value
    } else {
        ValueView::Empty
    }
}

/// The expression of the cell `key` among `cells`.
pub open spec fn expression_of(cells: Map<Seq<char>, CellView>, key: Seq<char>) -> Option<
    Seq<char>,
> {
    if cells.contains_key(key) {
        cells[key].expression
    } else {
        None
    }
}

/// The time stamp of the cell `key` among `cells`; 0 where the cell was
/// never written.
pub open spec fn timestamp_of(cells: Map<Seq<char>, CellView>, key: Seq<char>) -> u64 {
    if cells.contains_key(key) {
        cells[key].timestamp
    } else {
        0
    }
}

/// `cells` after a write to `key` with the stamp `timestamp`: the record
/// is replaced unless the cell holds a later stamp.
pub open spec fn write_cell(
    cells: Map<Seq<char>, CellView>,
    key: Seq<char>,
    value: ValueView,
    expression: Option<Seq<char>>,
    timestamp: u64,
) -> Map<Seq<char>, CellView> {
    if timestamp >= timestamp_of(cells, key) {
        cells.insert(key, CellView { value, expression, timestamp })
    } else {
        cells
    }
}

/// The children of `parent` in `edges`; none where the parent is unknown.
pub open spec fn children_of(edges: Map<Seq<char>, Seq<Seq<char>>>, parent: Seq<char>) -> Seq<
    Seq<char>,
> {
    if edges.contains_key(parent) {
        edges[parent]
    } else {
        Seq::empty()
    }
}

/// `edges` with `child` appended to the children of `parent`.
pub open spec fn add_edge(
    edges: Map<Seq<char>, Seq<Seq<char>>>,
    parent: Seq<char>,
    child: Seq<char>,
) -> Map<Seq<char>, Seq<Seq<char>>> {
    edges.insert(parent, children_of(edges, parent).push(child))
}

/// `edges` with every occurrence of `child` taken from the children of
/// `parent`. An unknown parent stays unknown.
pub open spec fn remove_edge(
    edges: Map<Seq<char>, Seq<Seq<char>>>,
    parent: Seq<char>,
    child: Seq<char>,
) -> Map<Seq<char>, Seq<Seq<char>>> {
    if edges.contains_key(parent) {
        edges.insert(parent, without(edges[parent], child))
    } else {
        edges
    }
}

/// No cell of `after` holds an earlier time stamp than in `before`, and no
/// cell of `before` is missing from `after`.
pub open spec fn stamps_grow(
    before: Map<Seq<char>, CellView>,
    after: Map<Seq<char>, CellView>,
) -> bool {
    &&& before.dom().subset_of(after.dom())
    &&& forall|key: Seq<char>| #[trigger] timestamp_of(before, key) <= timestamp_of(after, key)
}

/// Time stamps that grow from a first state to a second and from the
/// second to a third grow from the first to the third.
pub proof fn lemma_stamps_grow_twice(
    first: Map<Seq<char>, CellView>,
    second: Map<Seq<char>, CellView>,
    third: Map<Seq<char>, CellView>,
)
    requires
        stamps_grow(first, second),
        stamps_grow(second, third),
    ensures
        stamps_grow(first, third),
{
    assert forall|key: Seq<char>| #[trigger]
        timestamp_of(first, key) <= timestamp_of(third, key) by {
        assert(timestamp_of(first, key) <= timestamp_of(second, key));
        assert(timestamp_of(second, key) <= timestamp_of(third, key));
    }
}

/// `dashmap::DashMap`, a map that is carried as it is: what it holds is
/// told by `stored_cells` and `stored_edges`.
#[verifier::external_type_specification]
#[verifier::external_body]
#[verifier::reject_recursive_types(K)]
#[verifier::reject_recursive_types(V)]
#[verifier::reject_recursive_types(S)]
pub struct ExDashMap<K, V, S>(DashMap<K, V, S>);

/// The records that a map of cells holds, by the cell's name.
pub uninterp spec fn stored_cells(store: DashMap<String, Cell>) -> Map<Seq<char>, CellView>;

/// The lists of children that a map of edges holds, by the parent's name.
pub uninterp spec fn stored_edges(graph: DashMap<String, Vec<String>>) -> Map<
    Seq<char>,
    Seq<Seq<char>>,
>;

/// `DashMap::new`, for the cells: a map that holds nothing.
#[verifier::external_body]
fn new_store() -> (store: DashMap<String, Cell>)
    ensures
        stored_cells(store) == no_cells(),
{
    DashMap::new()
}

/// `DashMap::get`, for the cells: a copy of the record kept under `key`,
/// if there is one.
#[verifier::external_body]
fn store_get(store: &DashMap<String, Cell>, key: &str) -> (found: Option<Cell>)
    ensures
        match found {
            Some(cell) => stored_cells(*store).contains_key(key@) && cell@ == stored_cells(
                *store,
            )[key@],
            None => !stored_cells(*store).contains_key(key@),
        },
{
    store.get(key).map(|entry| entry.value().clone())
}

/// `DashMap::insert`, for the cells: `cell` is kept under `key`, in place
/// of what was kept there, and nothing else changes.
#[verifier::external_body]
fn store_insert(store: &mut DashMap<String, Cell>, key: &str, cell: Cell)
    ensures
        stored_cells(*final(store)) == stored_cells(*old(store)).insert(key@, cell@),
{
    store.insert(key.to_string(), cell);
}

/// `DashMap::new`, for the edges: a map that holds nothing.
#[verifier::external_body]
fn new_graph() -> (graph: DashMap<String, Vec<String>>)
    ensures
        stored_edges(graph) == no_edges(),
{
    DashMap::new()
}

/// `DashMap::get`, for the edges: a copy of the list kept under `parent`,
/// if there is one.
#[verifier::external_body]
fn graph_get(graph: &DashMap<String, Vec<String>>, parent: &str) -> (found: Option<Vec<String>>)
    ensures
        match found {
            Some(children) => stored_edges(*graph).contains_key(parent@) && texts(children@)
                == stored_edges(*graph)[parent@],
            None => !stored_edges(*graph).contains_key(parent@),
        },
{
    graph.get(parent).map(|entry| entry.value().clone())
}

/// `DashMap::insert`, for the edges: `children` is kept under `parent`, in
/// place of what was kept there, and nothing else changes.
#[verifier::external_body]
fn graph_insert(graph: &mut DashMap<String, Vec<String>>, parent: &str, children: Vec<String>)
    ensures
        stored_edges(*final(graph)) == stored_edges(*old(graph)).insert(
            parent@,
            texts(children@),
        ),
{
    graph.insert(parent.to_string(), children);
}

/// A spreadsheet: the cells that were written, and the graph of which cell
/// depends on which.
pub struct Spreadsheet {
    cells: DashMap<String, Cell>,
    dependencies: DashMap<String, Vec<String>>,
}

impl View for Spreadsheet {
    type V = SheetView;

    closed spec fn view(&self) -> SheetView {
        SheetView { cells: stored_cells(self.cells), edges: stored_edges(self.dependencies) }
    }
}

impl Spreadsheet {
    /// The graph has finitely many parents.
    pub open spec fn wf(&self) -> bool {
        self@.edges.dom().finite()
    }

    /// A spreadsheet with no cell and no edge.
    pub fn new() -> (sheet: Spreadsheet)
        ensures
            sheet.wf(),
            sheet@.cells == no_cells(),
            sheet@.edges == no_edges(),
    {
        Spreadsheet { cells: new_store(), dependencies: new_graph() }
    }

    /// Writes a cell with the stamp `inc_timestamp`: the record is replaced
    /// by the given value and expression unless the cell holds a later
    /// stamp; a cell that was never written holds the stamp 0.
    pub fn set_cell(
        &mut self,
        key: &str,
        value: Value,
        expr: Option<String>,
        inc_timestamp: u64,
    )
        ensures
            final(self)@.cells == write_cell(
                old(self)@.cells,
                key@,
                value@,
                text_of(expr),
                inc_timestamp,
            ),
            final(self)@.edges == old(self)@.edges,
            stamps_grow(old(self)@.cells, final(self)@.cells),
    {
        let curr_timestamp: u64 = match store_get(&self.cells, key) {
            Some(cell) => cell.timestamp,
            None => 0,
        };
        if inc_timestamp >= curr_timestamp {
            store_insert(&mut self.cells, key, Cell { value, expression: expr, timestamp: inc_timestamp });
        }
    }

    /// The value of a cell; empty where the cell was never written.
    pub fn get_cell_val(&self, key: &str) -> (value: Value)
        ensures
            value@ == value_of(self@.cells, key@),
    {
        match store_get(&self.cells, key) {
            Some(cell) => cell.value,
            None => Value::Empty,
        }
    }

    /// The expression of a cell, if it was written with one.
    pub fn get_cell_expr(&self, key: &str) -> (expr: Option<String>)
        ensures
            text_of(expr) == expression_of(self@.cells, key@),
    {
        match store_get(&self.cells, key) {
            Some(cell) => cell.expression,
            None => None,
        }
    }

    /// The time stamp of a cell; 0 where the cell was never written.
    pub fn get_cell_timestamp(&self, key: &str) -> (timestamp: u64)
        ensures
            timestamp == timestamp_of(self@.cells, key@),
    {
        match store_get(&self.cells, key) {
            Some(cell) => cell.timestamp,
            None => 0,
        }
    }

    /// A copy of the list of the children of `parent`, if the graph knows
    /// the parent.
    pub fn get_dependencies(&self, parent: &str) -> (children: Option<Vec<String>>)
        ensures
            match children {
                Some(list) => self@.edges.contains_key(parent@) && texts(list@)
                    == self@.edges[parent@],
                None => !self@.edges.contains_key(parent@),
            },
    {
        graph_get(&self.dependencies, parent)
    }

    /// Appends `child` to the children of `parent`, also where it is among
    /// them already.
    pub fn add_dependency(&mut self, parent: &str, child: &str)
        requires
            old(self).wf(),
        ensures
            final(self).wf(),
            final(self)@.edges == add_edge(old(self)@.edges, parent@, child@),
            final(self)@.cells == old(self)@.cells,
    {
        let mut children: Vec<String> = match graph_get(&self.dependencies, parent) {
            Some(children) => children,
            None => Vec::new(),
        };
        let ghost before = texts(children@);
        assert(before =~= children_of(old(self)@.edges, parent@));
        children.push(child.to_owned());
        assert(texts(children@) =~= before.push(child@));
        graph_insert(&mut self.dependencies, parent, children);
    }

    /// Takes every occurrence of `child` from the children of `parent`.
    pub fn remove_dependency(&mut self, parent: &str, child: &str)
        requires
            old(self).wf(),
        ensures
            final(self).wf(),
            final(self)@.edges == remove_edge(old(self)@.edges, parent@, child@),
            final(self)@.cells == old(self)@.cells,
    {
        if let Some(children) = graph_get(&self.dependencies, parent) {
            let mut kept: Vec<String> = Vec::new();
            let mut i: usize = 0;
            assert(texts(children@).subrange(0, 0) =~= Seq::<Seq<char>>::empty());
            assert(texts(kept@) =~= Seq::<Seq<char>>::empty());
            while i < children.len()
                invariant
                    0 <= i <= children.len(),
                    texts(kept@) == without(texts(children@).subrange(0, i as int), child@),
                decreases children.len() - i,
            {
                let ghost before = texts(kept@);
                proof {
                    assert(texts(children@).subrange(0, i + 1).drop_last() =~= texts(
                        children@,
                    ).subrange(0, i as int));
                    assert(texts(children@).subrange(0, i + 1).last() == children@[i as int]@);
                }
                if !str_equal(children[i].as_str(), child) {
                    kept.push(children[i].clone());
                    assert(texts(kept@) =~= before.push(children@[i as int]@));
                }
                i = i + 1;
            }
            assert(texts(children@).subrange(0, children.len() as int) =~= texts(children@));
            graph_insert(&mut self.dependencies, parent, kept);
        }
    }
}

impl Default for Spreadsheet {
    fn default() -> (sheet: Spreadsheet)
        ensures
            sheet.wf(),
            sheet@.cells == no_cells(),
            sheet@.edges == no_edges(),
    {
        Spreadsheet::new()
    }
}

} // verus!
