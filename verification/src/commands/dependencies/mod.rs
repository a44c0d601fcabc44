//! The edges of the dependency graph that an expression stands for, and the
//! recomputation of the cells that depend on a changed cell.

use vstd::prelude::*;
use vstd::string::*;
use crate::commands::variables::{
    all_in_bounds, bindings_for, corners_readable, covered, covered_all, grid_cells, in_bounds,
    range_cells, token_cells, token_fits, variable_map_for_runner,
};
use crate::cells::{col_number, row_number};
use crate::runner::{all_variable_tokens, evaluate, expr_variables, find_variables, may_give};
use crate::spreadsheet::{
    add_edge, children_of, expression_of, lemma_stamps_grow_twice, remove_edge, stamps_grow,
    texts, write_cell, CellView, Spreadsheet,
};
use crate::utils::str_equal;
use crate::values::{Argument, Reply, Value, ValueView};

verus! {

/// `edges` after `child` was added to the children of each of `parents`,
/// one after the other.
pub open spec fn add_edges(
    edges: Map<Seq<char>, Seq<Seq<char>>>,
    parents: Seq<Seq<char>>,
    child: Seq<char>,
) -> Map<Seq<char>, Seq<Seq<char>>>
    decreases parents.len(),
{
    if parents.len() == 0 {
        edges
    } else {
        add_edge(add_edges(edges, parents.drop_last(), child), parents.last(), child)
    }
}

/// `edges` after `child` was taken from the children of each of `parents`.
pub open spec fn remove_edges(
    edges: Map<Seq<char>, Seq<Seq<char>>>,
    parents: Seq<Seq<char>>,
    child: Seq<char>,
) -> Map<Seq<char>, Seq<Seq<char>>>
    decreases parents.len(),
{
    if parents.len() == 0 {
        edges
    } else {
        remove_edge(remove_edges(edges, parents.drop_last(), child), parents.last(), child)
    }
}

/// Adding edges from a list of parents made of two parts is adding those
/// of the first part, then those of the second.
pub proof fn lemma_add_edges_concat(
    edges: Map<Seq<char>, Seq<Seq<char>>>,
    first: Seq<Seq<char>>,
    second: Seq<Seq<char>>,
    child: Seq<char>,
)
    ensures
        add_edges(edges, first + second, child) == add_edges(
            add_edges(edges, first, child),
            second,
            child,
        ),
    decreases second.len(),
{
    if second.len() == 0 {
        assert(first + second =~= first);
    } else {
        lemma_add_edges_concat(edges, first, second.drop_last(), child);
        assert((first + second).drop_last() =~= first + second.drop_last());
    }
}

/// Removing edges from a list of parents made of two parts is removing
/// those of the first part, then those of the second.
pub proof fn lemma_remove_edges_concat(
    edges: Map<Seq<char>, Seq<Seq<char>>>,
    first: Seq<Seq<char>>,
    second: Seq<Seq<char>>,
    child: Seq<char>,
)
    ensures
        remove_edges(edges, first + second, child) == remove_edges(
            remove_edges(edges, first, child),
            second,
            child,
        ),
    decreases second.len(),
{
    if second.len() == 0 {
        assert(first + second =~= first);
    } else {
        lemma_remove_edges_concat(edges, first, second.drop_last(), child);
        assert((first + second).drop_last() =~= first + second.drop_last());
    }
}

/// The tokens of the expression can be expanded: the numbers of their
/// corners fit in 32 bits.
pub open spec fn readable(expr: Seq<char>) -> bool {
    all_in_bounds(expr_variables(expr))
}

/// The cells that the expression refers to: those that its variables
/// cover, variable after variable.
pub open spec fn parents_of(expr: Seq<char>) -> Seq<Seq<char>> {
    covered_all(expr_variables(expr))
}

/// Whether every token's numbers fit in 32 bits.
pub fn all_fit(variables: &Vec<String>) -> (fit: bool)
    requires
        all_variable_tokens(texts(variables@)),
    ensures
        fit == all_in_bounds(texts(variables@)),
{
    let mut i: usize = 0;
    while i < variables.len()
        invariant
            0 <= i <= variables.len(),
            all_variable_tokens(texts(variables@)),
            forall|j: int| 0 <= j < i ==> in_bounds(#[trigger] texts(variables@)[j]),
        decreases variables.len() - i,
    {
        assert(texts(variables@)[i as int] == variables@[i as int]@);
        if !token_fits(variables[i].as_str()) {
            return false;
        }
        i = i + 1;
    }
    true
}

/// Adds `child` to the children of each of `parents`, in order.
pub fn add_edges_from(spreadsheet: &mut Spreadsheet, parents: &Vec<String>, child: &str)
    requires
        old(spreadsheet).wf(),
    ensures
        final(spreadsheet).wf(),
        final(spreadsheet)@.cells == old(spreadsheet)@.cells,
        final(spreadsheet)@.edges == add_edges(old(spreadsheet)@.edges, texts(parents@), child@),
{
    let mut i: usize = 0;
    assert(texts(parents@).subrange(0, 0) =~= Seq::<Seq<char>>::empty());
    while i < parents.len()
        invariant
            0 <= i <= parents.len(),
            spreadsheet.wf(),
            spreadsheet@.cells == old(spreadsheet)@.cells,
            spreadsheet@.edges == add_edges(
                old(spreadsheet)@.edges,
                texts(parents@).subrange(0, i as int),
                child@,
            ),
        decreases parents.len() - i,
    {
        proof {
            assert(texts(parents@).subrange(0, i + 1).drop_last() =~= texts(parents@).subrange(
                0,
                i as int,
            ));
            assert(texts(parents@).subrange(0, i + 1).last() == parents@[i as int]@);
        }
        spreadsheet.add_dependency(parents[i].as_str(), child);
        i = i + 1;
    }
    assert(texts(parents@).subrange(0, parents.len() as int) =~= texts(parents@));
}

/// Takes `child` from the children of each of `parents`.
pub fn remove_edges_from(spreadsheet: &mut Spreadsheet, parents: &Vec<String>, child: &str)
    requires
        old(spreadsheet).wf(),
    ensures
        final(spreadsheet).wf(),
        final(spreadsheet)@.cells == old(spreadsheet)@.cells,
        final(spreadsheet)@.edges == remove_edges(
            old(spreadsheet)@.edges,
            texts(parents@),
            child@,
        ),
{
    let mut i: usize = 0;
    assert(texts(parents@).subrange(0, 0) =~= Seq::<Seq<char>>::empty());
    while i < parents.len()
        invariant
            0 <= i <= parents.len(),
            spreadsheet.wf(),
            spreadsheet@.cells == old(spreadsheet)@.cells,
            spreadsheet@.edges == remove_edges(
                old(spreadsheet)@.edges,
                texts(parents@).subrange(0, i as int),
                child@,
            ),
        decreases parents.len() - i,
    {
        proof {
            assert(texts(parents@).subrange(0, i + 1).drop_last() =~= texts(parents@).subrange(
                0,
                i as int,
            ));
            assert(texts(parents@).subrange(0, i + 1).last() == parents@[i as int]@);
        }
        spreadsheet.remove_dependency(parents[i].as_str(), child);
        i = i + 1;
    }
    assert(texts(parents@).subrange(0, parents.len() as int) =~= texts(parents@));
}

/// Makes `cell` a child of every cell of a rectangle, in row-major order;
/// the corners are given as they are written.
pub fn add_dependencies(
    spreadsheet: &mut Spreadsheet,
    cell: &str,
    start_col: &str,
    start_row: &str,
    end_col: &str,
    end_row: &str,
)
    requires
        old(spreadsheet).wf(),
        corners_readable(start_col@, start_row@, end_col@, end_row@),
    ensures
        final(spreadsheet).wf(),
        final(spreadsheet)@.cells == old(spreadsheet)@.cells,
        final(spreadsheet)@.edges == add_edges(
            old(spreadsheet)@.edges,
            grid_cells(
                row_number(start_row@),
                row_number(end_row@) + 1,
                col_number(start_col@),
                col_number(end_col@) + 1,
            ),
            cell@,
        ),
{
    let parents: Vec<String> = range_cells(start_col, start_row, end_col, end_row);
    add_edges_from(spreadsheet, &parents, cell);
}

/// Makes `cell` a child of every cell that the variables cover.
pub fn add_variable_edges(spreadsheet: &mut Spreadsheet, cell: &str, variables: &Vec<String>)
    requires
        old(spreadsheet).wf(),
        all_variable_tokens(texts(variables@)),
        all_in_bounds(texts(variables@)),
    ensures
        final(spreadsheet).wf(),
        final(spreadsheet)@.cells == old(spreadsheet)@.cells,
        final(spreadsheet)@.edges == add_edges(
            old(spreadsheet)@.edges,
            covered_all(texts(variables@)),
            cell@,
        ),
{
    let mut i: usize = 0;
    assert(texts(variables@).subrange(0, 0) =~= Seq::<Seq<char>>::empty());
    while i < variables.len()
        invariant
            0 <= i <= variables.len(),
            all_variable_tokens(texts(variables@)),
            all_in_bounds(texts(variables@)),
            spreadsheet.wf(),
            spreadsheet@.cells == old(spreadsheet)@.cells,
            spreadsheet@.edges == add_edges(
                old(spreadsheet)@.edges,
                covered_all(texts(variables@).subrange(0, i as int)),
                cell@,
            ),
        decreases variables.len() - i,
    {
        proof {
            assert(texts(variables@).subrange(0, i + 1).drop_last() =~= texts(
                variables@,
            ).subrange(0, i as int));
            assert(texts(variables@).subrange(0, i + 1).last() == variables@[i as int]@);
            assert(texts(variables@)[i as int] == variables@[i as int]@);
            lemma_add_edges_concat(
                old(spreadsheet)@.edges,
                covered_all(texts(variables@).subrange(0, i as int)),
                covered(variables@[i as int]@),
                cell@,
            );
        }
        let parents: Vec<String> = token_cells(variables[i].as_str());
        add_edges_from(spreadsheet, &parents, cell);
        i = i + 1;
    }
    assert(texts(variables@).subrange(0, variables.len() as int) =~= texts(variables@));
}

/// Takes `cell` from the children of every cell that the variables cover.
pub fn remove_variable_edges(spreadsheet: &mut Spreadsheet, cell: &str, variables: &Vec<String>)
    requires
        old(spreadsheet).wf(),
        all_variable_tokens(texts(variables@)),
        all_in_bounds(texts(variables@)),
    ensures
        final(spreadsheet).wf(),
        final(spreadsheet)@.cells == old(spreadsheet)@.cells,
        final(spreadsheet)@.edges == remove_edges(
            old(spreadsheet)@.edges,
            covered_all(texts(variables@)),
            cell@,
        ),
{
    let mut i: usize = 0;
    assert(texts(variables@).subrange(0, 0) =~= Seq::<Seq<char>>::empty());
    while i < variables.len()
        invariant
            0 <= i <= variables.len(),
            all_variable_tokens(texts(variables@)),
            all_in_bounds(texts(variables@)),
            spreadsheet.wf(),
            spreadsheet@.cells == old(spreadsheet)@.cells,
            spreadsheet@.edges == remove_edges(
                old(spreadsheet)@.edges,
                covered_all(texts(variables@).subrange(0, i as int)),
                cell@,
            ),
        decreases variables.len() - i,
    {
        proof {
            assert(texts(variables@).subrange(0, i + 1).drop_last() =~= texts(
                variables@,
            ).subrange(0, i as int));
            assert(texts(variables@).subrange(0, i + 1).last() == variables@[i as int]@);
            assert(texts(variables@)[i as int] == variables@[i as int]@);
            lemma_remove_edges_concat(
                old(spreadsheet)@.edges,
                covered_all(texts(variables@).subrange(0, i as int)),
                covered(variables@[i as int]@),
                cell@,
            );
        }
        let parents: Vec<String> = token_cells(variables[i].as_str());
        remove_edges_from(spreadsheet, &parents, cell);
        i = i + 1;
    }
    assert(texts(variables@).subrange(0, variables.len() as int) =~= texts(variables@));
}

/// The edges after the teardown that precedes a write of `new_expr` to
/// `cell`: where the cell holds another expression, and that one is
/// readable, `cell` is no longer a child of any cell that it refers to.
pub open spec fn torn_down(
    cells: Map<Seq<char>, CellView>,
    edges: Map<Seq<char>, Seq<Seq<char>>>,
    cell: Seq<char>,
    new_expr: Seq<char>,
) -> Map<Seq<char>, Seq<Seq<char>>> {
    match expression_of(cells, cell) {
        Some(old_expr) => if old_expr != new_expr && readable(old_expr) {
            remove_edges(edges, parents_of(old_expr), cell)
        } else {
            edges
        },
        None => edges,
    }
}

/// Removes the edges that the expression held by `cell` stands for, unless
/// that expression is `new_expr`.
pub fn remove_all_dependencies(spreadsheet: &mut Spreadsheet, cell: &str, new_expr: &String)
    requires
        old(spreadsheet).wf(),
    ensures
        final(spreadsheet).wf(),
        final(spreadsheet)@.cells == old(spreadsheet)@.cells,
        final(spreadsheet)@.edges == torn_down(
            old(spreadsheet)@.cells,
            old(spreadsheet)@.edges,
            cell@,
            new_expr@,
        ),
{
    if let Some(old_expr) = spreadsheet.get_cell_expr(cell) {
        if !str_equal(old_expr.as_str(), new_expr.as_str()) {
            let old_vars: Vec<String> = find_variables(old_expr.as_str());
            if all_fit(&old_vars) {
                remove_variable_edges(spreadsheet, cell, &old_vars);
            }
        }
    }
}

/// The note that stands in place of the expression of a cell that was
/// found on a cycle.
pub open spec fn circular_note() -> Seq<char> {
    "Circular Dependency"@
}

/// The message of the cell at which a cycle was found.
pub open spec fn self_referential(cell: Seq<char>) -> Seq<char> {
    "Cell "@ + cell + " is self-referential"@
}

/// The message of a child of the cell at which a cycle was found.
pub open spec fn on_a_cycle(cell: Seq<char>) -> Seq<char> {
    "Cell "@ + cell + " is involved in a circular dependency"@
}

/// The record of a cell that holds the error `message` of a cycle.
pub open spec fn cycle_write(
    cells: Map<Seq<char>, CellView>,
    cell: Seq<char>,
    message: Seq<char>,
    timestamp: u64,
) -> Map<Seq<char>, CellView> {
    write_cell(cells, cell, ValueView::Error(message), Some(circular_note()), timestamp)
}

/// `cells` after each of `kids` was written as a member of a cycle, one
/// after the other.
pub open spec fn poison_children(
    cells: Map<Seq<char>, CellView>,
    kids: Seq<Seq<char>>,
    timestamp: u64,
) -> Map<Seq<char>, CellView>
    decreases kids.len(),
{
    if kids.len() == 0 {
        cells
    } else {
        cycle_write(
            poison_children(cells, kids.drop_last(), timestamp),
            kids.last(),
            on_a_cycle(kids.last()),
            timestamp,
        )
    }
}

/// `cells` after a cycle was found at `root`: the root is written as
/// self-referential, then each of its children as a member of a cycle.
pub open spec fn poisoned(
    cells: Map<Seq<char>, CellView>,
    edges: Map<Seq<char>, Seq<Seq<char>>>,
    root: Seq<char>,
    timestamp: u64,
) -> Map<Seq<char>, CellView> {
    poison_children(
        cycle_write(cells, root, self_referential(root), timestamp),
        children_of(edges, root),
        timestamp,
    )
}

/// Writes `message` as the error of `cell`, with the note of a cycle.
fn write_cycle_error(spreadsheet: &mut Spreadsheet, cell: &str, message: String, timestamp: u64)
    ensures
        final(spreadsheet)@.edges == old(spreadsheet)@.edges,
        final(spreadsheet)@.cells == cycle_write(
            old(spreadsheet)@.cells,
            cell@,
            message@,
            timestamp,
        ),
        stamps_grow(old(spreadsheet)@.cells, final(spreadsheet)@.cells),
{
    let note: String = "Circular Dependency".to_owned();
    spreadsheet.set_cell(cell, Value::Error(message), Some(note), timestamp);
}

/// Marks the cell at which a cycle was found, and its children, with the
/// errors of a cycle.
pub fn handle_circular_dependency(spreadsheet: &mut Spreadsheet, parent: &str, timestamp: u64)
    ensures
        final(spreadsheet)@.edges == old(spreadsheet)@.edges,
        final(spreadsheet)@.cells == poisoned(
            old(spreadsheet)@.cells,
            old(spreadsheet)@.edges,
            parent@,
            timestamp,
        ),
        stamps_grow(old(spreadsheet)@.cells, final(spreadsheet)@.cells),
{
    let mut message: String = "Cell ".to_owned();
    message.append(parent);
    message.append(" is self-referential");
    write_cycle_error(spreadsheet, parent, message, timestamp);
    let ghost marked = spreadsheet@.cells;
    let dependencies: Vec<String> = match spreadsheet.get_dependencies(parent) {
        Some(list) => list,
        None => Vec::new(),
    };
    assert(texts(dependencies@) =~= children_of(spreadsheet@.edges, parent@));
    let mut i: usize = 0;
    assert(texts(dependencies@).subrange(0, 0) =~= Seq::<Seq<char>>::empty());
    while i < dependencies.len()
        invariant
            0 <= i <= dependencies.len(),
            spreadsheet@.edges == old(spreadsheet)@.edges,
            stamps_grow(old(spreadsheet)@.cells, spreadsheet@.cells),
            spreadsheet@.cells == poison_children(
                marked,
                texts(dependencies@).subrange(0, i as int),
                timestamp,
            ),
        decreases dependencies.len() - i,
    {
        proof {
            assert(texts(dependencies@).subrange(0, i + 1).drop_last() =~= texts(
                dependencies@,
            ).subrange(0, i as int));
            assert(texts(dependencies@).subrange(0, i + 1).last() == dependencies@[i as int]@);
        }
        let dep: &str = dependencies[i].as_str();
        let mut message: String = "Cell ".to_owned();
        message.append(dep);
        message.append(" is involved in a circular dependency");
        let ghost before = spreadsheet@.cells;
        write_cycle_error(spreadsheet, dep, message, timestamp);
        proof {
            lemma_stamps_grow_twice(old(spreadsheet)@.cells, before, spreadsheet@.cells);
        }
        i = i + 1;
    }
    assert(texts(dependencies@).subrange(0, dependencies.len() as int) =~= texts(
        dependencies@,
    ));
}

/// What happened while the children of a changed cell were visited, one
/// after the other: which of them were passed over, and for each of the
/// others the value that the evaluator gave and what happened while its
/// own children were visited. The last child stands outermost.
pub enum Trace {
    /// No child was visited.
    Start,
    /// After `earlier`, a child was passed over.
    Skip { earlier: Box<Trace> },
    /// After `earlier`, a child was written with `value`, and `below`
    /// happened while its dependants were recomputed.
    Step { earlier: Box<Trace>, value: ValueView, below: Box<Trace> },
}

/// The expression that is kept with a value computed from `expr`: the
/// expression itself where it has variables, none where it has not.
pub open spec fn stored_expression(expr: Seq<char>) -> Option<Seq<char>> {
    if expr_variables(expr).len() == 0 {
        None
    } else {
        Some(expr)
    }
}

/// The child `kid` is recomputed when it is reached with the cells as they
/// are: it holds an expression, and the expression is readable.
pub open spec fn is_recomputed(cells: Map<Seq<char>, CellView>, kid: Seq<char>) -> bool {
    expression_of(cells, kid) is Some && readable(expression_of(cells, kid)->0)
}

/// The cells after the children `kids` of a changed cell were visited, one
/// after the other, with `path` the cells that the walk is below of. A
/// child that is not recomputed is passed over. Any other child is written
/// with the value that the trace records for it, and with its expression,
/// then its own dependants are recomputed. The result is `None` where the
/// trace is not one of this walk: where it has not the shape of the walk,
/// or records a value that the evaluator may not give for a child's
/// expression on the cells as they are when the child is reached.
pub open spec fn visit(
    cells: Map<Seq<char>, CellView>,
    edges: Map<Seq<char>, Seq<Seq<char>>>,
    kids: Seq<Seq<char>>,
    path: Seq<Seq<char>>,
    timestamp: u64,
    trace: Trace,
) -> Option<Map<Seq<char>, CellView>>
    decreases trace, 0int,
{
    if kids.len() == 0 {
        if trace is Start {
            Some(cells)
        } else {
            None
        }
    } else {
        let kid = kids.last();
        match trace {
            Trace::Start => None,
            Trace::Skip { earlier } => match visit(
                cells,
                edges,
                kids.drop_last(),
                path,
                timestamp,
                *earlier,
            ) {
                Some(reached) => if is_recomputed(reached, kid) {
                    None
                } else {
                    Some(reached)
                },
                None => None,
            },
            Trace::Step { earlier, value, below } => match visit(
                cells,
                edges,
                kids.drop_last(),
                path,
                timestamp,
                *earlier,
            ) {
                Some(reached) => {
                    let expr = expression_of(reached, kid)->0;
                    if is_recomputed(reached, kid) && may_give(
                        expr,
                        bindings_for(reached, expr_variables(expr)),
                        value,
                    ) {
                        propagated(
                            write_cell(reached, kid, value, stored_expression(expr), timestamp),
                            edges,
                            kid,
                            path,
                            timestamp,
                            *below,
                        )
                    } else {
                        None
                    }
                },
                None => None,
            },
        }
    }
}

/// The cells after the dependants of `root` were recomputed, with `path`
/// the cells that the walk is below of. Where the root is on the path, a
/// cycle is closed: the root and its children are marked, and the walk goes
/// no further. Otherwise the children of the root are visited below the
/// path and the root.
pub open spec fn propagated(
    cells: Map<Seq<char>, CellView>,
    edges: Map<Seq<char>, Seq<Seq<char>>>,
    root: Seq<char>,
    path: Seq<Seq<char>>,
    timestamp: u64,
    trace: Trace,
) -> Option<Map<Seq<char>, CellView>>
    decreases trace, 1int,
{
    if path.contains(root) {
        if trace is Start {
            Some(poisoned(cells, edges, root, timestamp))
        } else {
            None
        }
    } else {
        visit(cells, edges, children_of(edges, root), path.push(root), timestamp, trace)
    }
}

/// The number of parents of the graph that are not on the path.
pub open spec fn unvisited(edges: Map<Seq<char>, Seq<Seq<char>>>, path: Seq<Seq<char>>) -> nat {
    edges.dom().difference(path.to_set()).len()
}

/// A parent of the graph that joins the path leaves fewer parents off it.
pub proof fn lemma_unvisited_shrinks(
    edges: Map<Seq<char>, Seq<Seq<char>>>,
    path: Seq<Seq<char>>,
    parent: Seq<char>,
)
    requires
        edges.dom().finite(),
        edges.contains_key(parent),
        !path.contains(parent),
    ensures
        unvisited(edges, path.push(parent)) < unvisited(edges, path),
{
    let off = edges.dom().difference(path.to_set());
    path.lemma_push_to_set_commute(parent);
    assert(edges.dom().difference(path.push(parent).to_set()) =~= off.remove(parent));
    assert(off.contains(parent));
    assert(off.finite());
}

/// Whether `item` is among `list`.
pub fn list_contains(list: &Vec<String>, item: &str) -> (found: bool)
    ensures
        found == texts(list@).contains(item@),
{
    let mut i: usize = 0;
    while i < list.len()
        invariant
            0 <= i <= list.len(),
            forall|j: int| 0 <= j < i ==> #[trigger] texts(list@)[j] != item@,
        decreases list.len() - i,
    {
        assert(texts(list@)[i as int] == list@[i as int]@);
        if str_equal(list[i].as_str(), item) {
            return true;
        }
        i = i + 1;
    }
    false
}

/// A copy of `list` with `item` at its end.
fn extended(list: &Vec<String>, item: &str) -> (longer: Vec<String>)
    ensures
        texts(longer@) == texts(list@).push(item@),
{
    let mut longer: Vec<String> = Vec::new();
    let mut i: usize = 0;
    while i < list.len()
        invariant
            0 <= i <= list.len(),
            longer@.len() == i,
            forall|j: int| 0 <= j < i ==> (#[trigger] longer@[j])@ == list@[j]@,
        decreases list.len() - i,
    {
        longer.push(list[i].clone());
        i = i + 1;
    }
    longer.push(item.to_owned());
    assert(texts(longer@) =~= texts(list@).push(item@));
    longer
}

/// Recomputes `cell` from the expression that it holds, if it holds one
/// that is readable: the expression is evaluated on the cells as they are
/// and the cell is written with the value, and with the expression where
/// it has variables. Tells whether it did so, and the value.
fn recompute(spreadsheet: &mut Spreadsheet, cell: &str, timestamp: u64) -> (done: (
    bool,
    Ghost<ValueView>,
))
    ensures
        final(spreadsheet)@.edges == old(spreadsheet)@.edges,
        stamps_grow(old(spreadsheet)@.cells, final(spreadsheet)@.cells),
        done.0 == is_recomputed(old(spreadsheet)@.cells, cell@),
        !done.0 ==> final(spreadsheet)@.cells == old(spreadsheet)@.cells,
        done.0 ==> ({
            let expr = expression_of(old(spreadsheet)@.cells, cell@)->0;
            &&& may_give(
                expr,
                bindings_for(old(spreadsheet)@.cells, expr_variables(expr)),
                done.1@,
            )
            &&& final(spreadsheet)@.cells == write_cell(
                old(spreadsheet)@.cells,
                cell@,
                done.1@,
                stored_expression(expr),
                timestamp,
            )
        }),
{
    let expr: String = match spreadsheet.get_cell_expr(cell) {
        Some(expr) => expr,
        None => {
            return (false, Ghost(ValueView::Empty));
        },
    };
    let vars: Vec<String> = find_variables(expr.as_str());
    if !all_fit(&vars) {
        return (false, Ghost(ValueView::Empty));
    }
    let var_map: Vec<(String, Argument)> = variable_map_for_runner(spreadsheet, &vars);
    let cell_val: Value = evaluate(expr.as_str(), &var_map);
    let ghost given = cell_val@;
    let kept: Option<String> = if vars.len() == 0 {
        None
    } else {
        Some(expr)
    };
    spreadsheet.set_cell(cell, cell_val, kept, timestamp);
    (true, Ghost(given))
}

/// Recomputes the dependants of `parent` below `path` and records what
/// happened.
fn refresh(spreadsheet: &mut Spreadsheet, parent: &str, path: &Vec<String>, timestamp: u64) -> (trace:
    Ghost<Trace>)
    requires
        old(spreadsheet).wf(),
    ensures
        final(spreadsheet).wf(),
        final(spreadsheet)@.edges == old(spreadsheet)@.edges,
        stamps_grow(old(spreadsheet)@.cells, final(spreadsheet)@.cells),
        propagated(
            old(spreadsheet)@.cells,
            old(spreadsheet)@.edges,
            parent@,
            texts(path@),
            timestamp,
            trace@,
        ) == Some(final(spreadsheet)@.cells),
    decreases unvisited(old(spreadsheet)@.edges, texts(path@)),
{
    if list_contains(path, parent) {
        handle_circular_dependency(spreadsheet, parent, timestamp);
        return Ghost(Trace::Start);
    }
    let dependencies: Vec<String> = match spreadsheet.get_dependencies(parent) {
        Some(list) => list,
        None => {
            return Ghost(Trace::Start);
        },
    };
    let deeper: Vec<String> = extended(path, parent);
    let ghost kids = texts(dependencies@);
    let ghost mut trace: Trace = Trace::Start;
    let mut i: usize = 0;
    proof {
        lemma_unvisited_shrinks(spreadsheet@.edges, texts(path@), parent@);
        assert(kids.subrange(0, 0) =~= Seq::<Seq<char>>::empty());
    }
    while i < dependencies.len()
        invariant
            0 <= i <= dependencies.len(),
            kids == texts(dependencies@),
            spreadsheet.wf(),
            spreadsheet@.edges == old(spreadsheet)@.edges,
            stamps_grow(old(spreadsheet)@.cells, spreadsheet@.cells),
            unvisited(spreadsheet@.edges, texts(deeper@)) < unvisited(
                old(spreadsheet)@.edges,
                texts(path@),
            ),
            visit(
                old(spreadsheet)@.cells,
                old(spreadsheet)@.edges,
                kids.subrange(0, i as int),
                texts(deeper@),
                timestamp,
                trace,
            ) == Some(spreadsheet@.cells),
        decreases dependencies.len() - i,
    {
        proof {
            assert(kids.subrange(0, i + 1).drop_last() =~= kids.subrange(0, i as int));
            assert(kids.subrange(0, i + 1).last() == dependencies@[i as int]@);
        }
        let dep: &str = dependencies[i].as_str();
        let ghost reached = spreadsheet@.cells;
        let (recomputed, given) = recompute(spreadsheet, dep, timestamp);
        if recomputed {
            let ghost value = given@;
            let ghost written = spreadsheet@.cells;
            let below: Ghost<Trace> = refresh(spreadsheet, dep, &deeper, timestamp);
            proof {
                lemma_stamps_grow_twice(old(spreadsheet)@.cells, reached, written);
                lemma_stamps_grow_twice(old(spreadsheet)@.cells, written, spreadsheet@.cells);
                trace = Trace::Step {
                    earlier: Box::new(trace),
                    value,
                    below: Box::new(below@),
                };
            }
        } else {
            proof {
                trace = Trace::Skip { earlier: Box::new(trace) };
            }
        }
        i = i + 1;
    }
    assert(kids.subrange(0, dependencies.len() as int) =~= kids);
    Ghost(trace)
}

/// Recomputes every cell that depends on `parent`, directly or through
/// other cells, depth first. `path` holds the cells that the walk is below
/// of, and is left as it was. The walk ends for any graph: it goes no
/// further at a cell that is on its own path, which it marks, with its
/// children, as members of a cycle.
pub fn update_dependency(
    spreadsheet: &mut Spreadsheet,
    parent: &str,
    path: &mut Vec<String>,
    timestamp: u64,
) -> (done: Result<(), Reply>)
    requires
        old(spreadsheet).wf(),
    ensures
        done is Ok,
        final(path)@ == old(path)@,
        final(spreadsheet).wf(),
        final(spreadsheet)@.edges == old(spreadsheet)@.edges,
        stamps_grow(old(spreadsheet)@.cells, final(spreadsheet)@.cells),
        exists|trace: Trace|
            propagated(
                old(spreadsheet)@.cells,
                old(spreadsheet)@.edges,
                parent@,
                texts(old(path)@),
                timestamp,
                trace,
            ) == Some(final(spreadsheet)@.cells),
{
    let trace: Ghost<Trace> = refresh(spreadsheet, parent, path, timestamp);
    Ok(())
}

} // verus!
