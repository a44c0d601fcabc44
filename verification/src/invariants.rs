//! What holds of the graph and of the cells whatever commands are given.

use vstd::prelude::*;
use crate::commands::dependencies::{
    add_edges, circular_note, cycle_write, parents_of, poison_children, poisoned, propagated,
    readable, remove_edges, self_referential, stored_expression, torn_down, visit, Trace,
};
use crate::commands::set::{dependent_note, first_error, kept_expression, set_outcome};
use crate::commands::get::{get_answer, GetView};
use crate::commands::variables::{bindings_for, covered_all};
use crate::runner::{expr_variables, may_give};
use crate::utils::is_cell_name;
use crate::spreadsheet::{
    add_edge, children_of, expression_of, no_cells, no_edges, remove_edge, timestamp_of,
    value_of, without, write_cell, CellView, SheetView,
};
use crate::values::ValueView;

verus! {

/// `child` is among the children of `parent`.
pub open spec fn has_edge(
    edges: Map<Seq<char>, Seq<Seq<char>>>,
    parent: Seq<char>,
    child: Seq<char>,
) -> bool {
    children_of(edges, parent).contains(child)
}

/// A list with one more item holds what it held, and the item.
pub proof fn lemma_push_contains(list: Seq<Seq<char>>, item: Seq<char>, x: Seq<char>)
    ensures
        list.push(item).contains(x) <==> list.contains(x) || x == item,
{
    if list.contains(x) {
        let i = choose|i: int| 0 <= i < list.len() && list[i] == x;
        assert(list.push(item)[i] == x);
    }
    if x == item {
        assert(list.push(item)[list.len() as int] == x);
    }
    if list.push(item).contains(x) {
        let i = choose|i: int| 0 <= i < list.push(item).len() && list.push(item)[i] == x;
        if i < list.len() {
            assert(list[i] == x);
        }
    }
}

/// A list without an item holds what it held but the item.
pub proof fn lemma_without_contains(list: Seq<Seq<char>>, item: Seq<char>, x: Seq<char>)
    ensures
        without(list, item).contains(x) <==> list.contains(x) && x != item,
    decreases list.len(),
{
    if list.len() > 0 {
        lemma_without_contains(list.drop_last(), item, x);
        lemma_push_contains(list.drop_last(), list.last(), x);
        assert(list.drop_last().push(list.last()) =~= list);
        if list.last() != item {
            lemma_push_contains(without(list.drop_last(), item), list.last(), x);
        }
    }
}

/// After an edge was added, the graph holds the edges that it held, and
/// the new one.
pub proof fn lemma_add_edge_holds(
    edges: Map<Seq<char>, Seq<Seq<char>>>,
    parent: Seq<char>,
    child: Seq<char>,
    p: Seq<char>,
    x: Seq<char>,
)
    ensures
        has_edge(add_edge(edges, parent, child), p, x) <==> has_edge(edges, p, x) || (p
            == parent && x == child),
{
    lemma_push_contains(children_of(edges, parent), child, x);
}

/// After an edge was removed, the graph holds the edges that it held, but
/// that one.
pub proof fn lemma_remove_edge_holds(
    edges: Map<Seq<char>, Seq<Seq<char>>>,
    parent: Seq<char>,
    child: Seq<char>,
    p: Seq<char>,
    x: Seq<char>,
)
    ensures
        has_edge(remove_edge(edges, parent, child), p, x) <==> has_edge(edges, p, x) && !(p
            == parent && x == child),
{
    if edges.contains_key(parent) {
        lemma_without_contains(edges[parent], child, x);
    }
}

/// After `child` was made a child of each of `parents`, the graph holds
/// the edges that it held, and an edge from each of `parents` to `child`.
pub proof fn lemma_add_edges_holds(
    edges: Map<Seq<char>, Seq<Seq<char>>>,
    parents: Seq<Seq<char>>,
    child: Seq<char>,
    p: Seq<char>,
    x: Seq<char>,
)
    ensures
        has_edge(add_edges(edges, parents, child), p, x) <==> has_edge(edges, p, x) || (
        parents.contains(p) && x == child),
    decreases parents.len(),
{
    if parents.len() > 0 {
        lemma_add_edges_holds(edges, parents.drop_last(), child, p, x);
        lemma_add_edge_holds(
            add_edges(edges, parents.drop_last(), child),
            parents.last(),
            child,
            p,
            x,
        );
        lemma_push_contains(parents.drop_last(), parents.last(), p);
        assert(parents.drop_last().push(parents.last()) =~= parents);
    }
}

/// After `child` was taken from the children of each of `parents`, the
/// graph holds the edges that it held, but those from `parents` to `child`.
pub proof fn lemma_remove_edges_holds(
    edges: Map<Seq<char>, Seq<Seq<char>>>,
    parents: Seq<Seq<char>>,
    child: Seq<char>,
    p: Seq<char>,
    x: Seq<char>,
)
    ensures
        has_edge(remove_edges(edges, parents, child), p, x) <==> has_edge(edges, p, x) && !(
        parents.contains(p) && x == child),
    decreases parents.len(),
{
    if parents.len() > 0 {
        lemma_remove_edges_holds(edges, parents.drop_last(), child, p, x);
        lemma_remove_edge_holds(
            remove_edges(edges, parents.drop_last(), child),
            parents.last(),
            child,
            p,
            x,
        );
        lemma_push_contains(parents.drop_last(), parents.last(), p);
        assert(parents.drop_last().push(parents.last()) =~= parents);
    }
}

/// The expression `e` is one of the two notes that stand in the place of
/// an expression.
pub open spec fn is_note(e: Seq<char>) -> bool {
    e == dependent_note() || e == circular_note()
}

/// Each cell's expression in `after` is what it was in `before`, or none,
/// or the note of a cycle.
pub open spec fn expressions_fade(
    before: Map<Seq<char>, CellView>,
    after: Map<Seq<char>, CellView>,
) -> bool {
    forall|c: Seq<char>|
        {
            let now = #[trigger] expression_of(after, c);
            now == expression_of(before, c) || now is None || now == Some(circular_note())
        }
}

/// Expressions that fade from a first state to a second and from the
/// second to a third fade from the first to the third.
pub proof fn lemma_fade_twice(
    first: Map<Seq<char>, CellView>,
    second: Map<Seq<char>, CellView>,
    third: Map<Seq<char>, CellView>,
)
    requires
        expressions_fade(first, second),
        expressions_fade(second, third),
    ensures
        expressions_fade(first, third),
{
    assert forall|c: Seq<char>|
        {
            let now = #[trigger] expression_of(third, c);
            now == expression_of(first, c) || now is None || now == Some(circular_note())
        } by {
        let mid = expression_of(second, c);
    }
}

/// Marking cells as members of a cycle lets expressions fade.
pub proof fn lemma_poison_children_fades(
    cells: Map<Seq<char>, CellView>,
    kids: Seq<Seq<char>>,
    timestamp: u64,
)
    ensures
        expressions_fade(cells, poison_children(cells, kids, timestamp)),
    decreases kids.len(),
{
    if kids.len() > 0 {
        lemma_poison_children_fades(cells, kids.drop_last(), timestamp);
        let mid = poison_children(cells, kids.drop_last(), timestamp);
        lemma_fade_twice(cells, mid, poison_children(cells, kids, timestamp));
    }
}

/// Recomputing the dependants of a cell lets expressions fade: no cell
/// gets an expression that it did not hold, but for the note of a cycle.
pub proof fn lemma_propagated_fades(
    cells: Map<Seq<char>, CellView>,
    edges: Map<Seq<char>, Seq<Seq<char>>>,
    root: Seq<char>,
    path: Seq<Seq<char>>,
    timestamp: u64,
    trace: Trace,
)
    requires
        propagated(cells, edges, root, path, timestamp, trace) is Some,
    ensures
        expressions_fade(cells, propagated(cells, edges, root, path, timestamp, trace)->0),
    decreases trace, 1int,
{
    if path.contains(root) {
        let marked = cycle_write(cells, root, self_referential(root), timestamp);
        lemma_poison_children_fades(marked, children_of(edges, root), timestamp);
        lemma_fade_twice(cells, marked, poisoned(cells, edges, root, timestamp));
    } else {
        lemma_visit_fades(
            cells,
            edges,
            children_of(edges, root),
            path.push(root),
            timestamp,
            trace,
        );
    }
}

/// Recomputing the children of a cell lets expressions fade.
pub proof fn lemma_visit_fades(
    cells: Map<Seq<char>, CellView>,
    edges: Map<Seq<char>, Seq<Seq<char>>>,
    kids: Seq<Seq<char>>,
    path: Seq<Seq<char>>,
    timestamp: u64,
    trace: Trace,
)
    requires
        visit(cells, edges, kids, path, timestamp, trace) is Some,
    ensures
        expressions_fade(cells, visit(cells, edges, kids, path, timestamp, trace)->0),
    decreases trace, 0int,
{
    if kids.len() > 0 {
        let kid = kids.last();
        match trace {
            Trace::Start => {},
            Trace::Skip { earlier } => {
                lemma_visit_fades(cells, edges, kids.drop_last(), path, timestamp, *earlier);
            },
            Trace::Step { earlier, value, below } => {
                lemma_visit_fades(cells, edges, kids.drop_last(), path, timestamp, *earlier);
                let reached = visit(cells, edges, kids.drop_last(), path, timestamp, *earlier)->0;
                let expr = expression_of(reached, kid)->0;
                let written = write_cell(
                    reached,
                    kid,
                    value,
                    stored_expression(expr),
                    timestamp,
                );
                assert(expressions_fade(reached, written));
                lemma_propagated_fades(written, edges, kid, path, timestamp, *below);
                let after = propagated(written, edges, kid, path, timestamp, *below)->0;
                lemma_fade_twice(cells, reached, written);
                lemma_fade_twice(cells, written, after);
            },
        }
    }
}

/// Every cell that holds an expression, and not a note in its place, is a
/// child of each cell that the expression refers to.
pub open spec fn references_wired(sheet: SheetView) -> bool {
    forall|c: Seq<char>, p: Seq<char>|
        expression_of(sheet.cells, c) is Some && !is_note(expression_of(sheet.cells, c)->0)
            && parents_of(expression_of(sheet.cells, c)->0).contains(p) ==> #[trigger] has_edge(
            sheet.edges,
            p,
            c,
        )
}

/// No cell holds a time stamp later than `timestamp`.
pub open spec fn is_latest(cells: Map<Seq<char>, CellView>, timestamp: u64) -> bool {
    forall|key: Seq<char>| #[trigger] timestamp_of(cells, key) <= timestamp
}

/// A `set` whose time stamp is not earlier than the one that the cell
/// holds keeps every expression wired: if before it each cell with an
/// expression is a child of every cell that its expression refers to, the
/// same holds after it.
pub proof fn lemma_set_keeps_references(
    before: SheetView,
    cell: Seq<char>,
    expr: Seq<char>,
    timestamp: u64,
    value: ValueView,
    trace: Trace,
)
    requires
        references_wired(before),
        timestamp >= timestamp_of(before.cells, cell),
        set_outcome(before, cell, expr, expr_variables(expr), timestamp, value, trace) is Some,
    ensures
        references_wired(
            set_outcome(before, cell, expr, expr_variables(expr), timestamp, value, trace)->0,
        ),
{
    let variables = expr_variables(expr);
    let after = set_outcome(before, cell, expr, variables, timestamp, value, trace)->0;
    let torn = torn_down(before.cells, before.edges, cell, expr);
    let error = first_error(before.cells, covered_all(variables));
    let written = write_cell(
        before.cells,
        cell,
        value,
        kept_expression(expr, variables),
        timestamp,
    );
    if error is None {
        lemma_propagated_fades(written, after.edges, cell, Seq::empty(), timestamp, trace);
    }
    assert forall|c: Seq<char>, p: Seq<char>|
        expression_of(after.cells, c) is Some && !is_note(expression_of(after.cells, c)->0)
            && parents_of(expression_of(after.cells, c)->0).contains(p) implies #[trigger] has_edge(
        after.edges,
        p,
        c,
    ) by {
        let e = expression_of(after.cells, c)->0;
        if c != cell {
            assert(expression_of(written, c) == expression_of(before.cells, c));
            assert(expression_of(before.cells, c) == Some(e));
            assert(has_edge(before.edges, p, c));
            if expression_of(before.cells, cell) is Some {
                lemma_remove_edges_holds(
                    before.edges,
                    parents_of(expression_of(before.cells, cell)->0),
                    cell,
                    p,
                    c,
                );
            }
            assert(has_edge(torn, p, c));
            lemma_add_edges_holds(torn, covered_all(variables), cell, p, c);
        } else {
            assert(error is None);
            assert(expression_of(written, c) == Some(e));
            assert(e == expr);
            lemma_add_edges_holds(torn, covered_all(variables), cell, p, c);
        }
    }
}

/// In the spreadsheet with no cell and no edge every expression is wired.
pub proof fn lemma_empty_sheet_wired()
    ensures
        references_wired(SheetView { cells: no_cells(), edges: no_edges() }),
{
}

/// Setting a cell to the expression that it holds changes no edge of the
/// graph, if the cell is a child of every cell that the expression refers
/// to: each parent has the children that it had, though it may now hold
/// the cell more than once.
pub proof fn lemma_same_expression_keeps_edges(
    before: SheetView,
    cell: Seq<char>,
    expr: Seq<char>,
    variables: Seq<Seq<char>>,
    timestamp: u64,
    value: ValueView,
    trace: Trace,
    parent: Seq<char>,
    child: Seq<char>,
)
    requires
        expression_of(before.cells, cell) == Some(expr),
        forall|q: Seq<char>|
            covered_all(variables).contains(q) ==> #[trigger] has_edge(before.edges, q, cell),
        set_outcome(before, cell, expr, variables, timestamp, value, trace) is Some,
    ensures
        has_edge(
            set_outcome(before, cell, expr, variables, timestamp, value, trace)->0.edges,
            parent,
            child,
        ) <==> has_edge(before.edges, parent, child),
{
    lemma_add_edges_holds(before.edges, covered_all(variables), cell, parent, child);
    if covered_all(variables).contains(parent) {
        assert(has_edge(before.edges, parent, cell));
    }
}

/// Setting a cell that holds a readable expression to another one, which
/// has no parent in common with the first, takes the cell from the
/// children of every cell that the first expression refers to. Unless a
/// cell that the new expression refers to holds an error, it makes the
/// cell a child of every cell that the new expression refers to. No other
/// cell gets the cell as a child or loses it, and no other child is added
/// or removed anywhere.
pub proof fn lemma_new_expression_rewires(
    before: SheetView,
    cell: Seq<char>,
    expr: Seq<char>,
    variables: Seq<Seq<char>>,
    timestamp: u64,
    value: ValueView,
    trace: Trace,
    parent: Seq<char>,
    child: Seq<char>,
)
    requires
        expression_of(before.cells, cell) is Some,
        expression_of(before.cells, cell)->0 != expr,
        readable(expression_of(before.cells, cell)->0),
        forall|q: Seq<char>|
            !(#[trigger] parents_of(expression_of(before.cells, cell)->0).contains(q)
                && covered_all(variables).contains(q)),
        set_outcome(before, cell, expr, variables, timestamp, value, trace) is Some,
    ensures
        ({
            let after = set_outcome(before, cell, expr, variables, timestamp, value, trace)->0;
            let old_parents = parents_of(expression_of(before.cells, cell)->0);
            let new_parents = covered_all(variables);
            &&& old_parents.contains(parent) ==> !has_edge(after.edges, parent, cell)
            &&& new_parents.contains(parent) && first_error(before.cells, new_parents) is None
                ==> has_edge(after.edges, parent, cell)
            &&& !old_parents.contains(parent) && !new_parents.contains(parent) ==> (has_edge(
                after.edges,
                parent,
                cell,
            ) <==> has_edge(before.edges, parent, cell))
            &&& child != cell ==> (has_edge(after.edges, parent, child) <==> has_edge(
                before.edges,
                parent,
                child,
            ))
        }),
{
    let old_parents = parents_of(expression_of(before.cells, cell)->0);
    let torn = remove_edges(before.edges, old_parents, cell);
    assert(!(old_parents.contains(parent) && covered_all(variables).contains(parent)));
    lemma_remove_edges_holds(before.edges, old_parents, cell, parent, cell);
    lemma_remove_edges_holds(before.edges, old_parents, cell, parent, child);
    lemma_add_edges_holds(torn, covered_all(variables), cell, parent, cell);
    lemma_add_edges_holds(torn, covered_all(variables), cell, parent, child);
}

/// A `get` of a cell that was never written gives the empty value.
pub proof fn lemma_unwritten_cell_is_empty(cells: Map<Seq<char>, CellView>, args: Seq<Seq<char>>)
    requires
        args.len() >= 2,
        is_cell_name(args[1]),
        !cells.contains_key(args[1]),
    ensures
        get_answer(cells, args) == GetView::Value(args[1], ValueView::Empty),
{
}

/// After a `set` that is not cut short by an error and whose time stamp is
/// not earlier than the one that the cell holds, a cell without children
/// holds a value that the evaluator may give for the expression on the
/// cells as they were.
pub proof fn lemma_set_stores_evaluation(
    before: SheetView,
    cell: Seq<char>,
    expr: Seq<char>,
    variables: Seq<Seq<char>>,
    timestamp: u64,
    value: ValueView,
    trace: Trace,
)
    requires
        timestamp >= timestamp_of(before.cells, cell),
        first_error(before.cells, covered_all(variables)) is None,
        set_outcome(before, cell, expr, variables, timestamp, value, trace) is Some,
        children_of(
            set_outcome(before, cell, expr, variables, timestamp, value, trace)->0.edges,
            cell,
        ).len() == 0,
    ensures
        may_give(expr, bindings_for(before.cells, variables), value),
        value_of(
            set_outcome(before, cell, expr, variables, timestamp, value, trace)->0.cells,
            cell,
        ) == value,
{
    assert(!Seq::<Seq<char>>::empty().contains(cell));
}

/// Two writes to one cell with different time stamps leave the same
/// cells whichever arrives first: the later stamp wins, or the cell keeps
/// a record that is later than both.
pub proof fn lemma_later_stamp_wins(
    cells: Map<Seq<char>, CellView>,
    key: Seq<char>,
    first: CellView,
    second: CellView,
)
    requires
        first.timestamp != second.timestamp,
    ensures
        write_cell(
            write_cell(cells, key, first.value, first.expression, first.timestamp),
            key,
            second.value,
            second.expression,
            second.timestamp,
        ) == write_cell(
            write_cell(cells, key, second.value, second.expression, second.timestamp),
            key,
            first.value,
            first.expression,
            first.timestamp,
        ),
{
    let one = write_cell(cells, key, first.value, first.expression, first.timestamp);
    let two = write_cell(cells, key, second.value, second.expression, second.timestamp);
    assert(write_cell(one, key, second.value, second.expression, second.timestamp)
        =~= write_cell(two, key, first.value, first.expression, first.timestamp));
}

/// Writes to two different cells leave the same cells in either order.
pub proof fn lemma_writes_to_different_cells_commute(
    cells: Map<Seq<char>, CellView>,
    key: Seq<char>,
    record: CellView,
    other_key: Seq<char>,
    other: CellView,
)
    requires
        key != other_key,
    ensures
        write_cell(
            write_cell(cells, key, record.value, record.expression, record.timestamp),
            other_key,
            other.value,
            other.expression,
            other.timestamp,
        ) == write_cell(
            write_cell(cells, other_key, other.value, other.expression, other.timestamp),
            key,
            record.value,
            record.expression,
            record.timestamp,
        ),
{
    let one = write_cell(cells, key, record.value, record.expression, record.timestamp);
    let two = write_cell(cells, other_key, other.value, other.expression, other.timestamp);
    assert(write_cell(one, other_key, other.value, other.expression, other.timestamp)
        =~= write_cell(two, key, record.value, record.expression, record.timestamp));
}

} // verus!
