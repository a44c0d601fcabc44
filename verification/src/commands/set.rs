//! The `set` command: a cell is given an expression, the graph is rewired
//! for it, the expression is evaluated, and the cells that depend on the
//! cell are recomputed.

use vstd::prelude::*;
use vstd::string::*;
use crate::commands::dependencies::{
    add_edges, add_variable_edges, all_fit, propagated, readable, remove_all_dependencies,
    torn_down, update_dependency, Trace,
};
use crate::commands::variables::{
    all_in_bounds, bindings_for, covered_all, token_cells, variable_map_for_runner,
};
use crate::invariants::{is_latest, lemma_set_keeps_references, references_wired};
use crate::runner::{all_variable_tokens, evaluate, expr_variables, find_variables, may_give};
use crate::spreadsheet::{
    lemma_stamps_grow_twice, stamps_grow, texts, timestamp_of, value_of, write_cell, CellView,
    SheetView, Spreadsheet,
};
use crate::utils::{is_cell_name, is_valid_cell};
use crate::values::{Argument, Reply, ReplyView, Value, ValueView};

verus! {

/// What a list of string slices stands for.
pub open spec fn strs(list: Seq<&str>) -> Seq<Seq<char>> {
    list.map_values(|s: &str| s@)
}

/// The parts with a single space between each two.
pub open spec fn joined(parts: Seq<Seq<char>>) -> Seq<char>
    decreases parts.len(),
{
    if parts.len() == 0 {
        Seq::empty()
    } else if parts.len() == 1 {
        parts[0]
    } else {
        joined(parts.drop_last()) + " "@ + parts.last()
    }
}

/// The expression of a `set` command: what follows the command's name and
/// the cell, joined by single spaces.
pub open spec fn set_expression(args: Seq<Seq<char>>) -> Seq<char> {
    joined(args.subrange(2, args.len() as int))
}

/// The note that stands in place of the expression of a cell whose
/// expression refers to a cell that holds an error.
pub open spec fn dependent_note() -> Seq<char> {
    "Dependent"@
}

/// The error held by the first of the named cells that holds one.
pub open spec fn first_error(cells: Map<Seq<char>, CellView>, names: Seq<Seq<char>>) -> Option<
    ValueView,
>
    decreases names.len(),
{
    if names.len() == 0 {
        None
    } else {
        match first_error(cells, names.drop_last()) {
            Some(error) => Some(error),
            None => if value_of(cells, names.last()) is Error {
                Some(value_of(cells, names.last()))
            } else {
                None
            },
        }
    }
}

/// An error found among the first names of a list is the first error of
/// the list.
pub proof fn lemma_first_error_prefix(
    cells: Map<Seq<char>, CellView>,
    names: Seq<Seq<char>>,
    k: int,
)
    requires
        0 <= k <= names.len(),
        first_error(cells, names.subrange(0, k)) is Some,
    ensures
        first_error(cells, names) == first_error(cells, names.subrange(0, k)),
    decreases names.len() - k,
{
    if k == names.len() {
        assert(names.subrange(0, k) =~= names);
    } else {
        assert(names.subrange(0, k + 1).drop_last() =~= names.subrange(0, k));
        lemma_first_error_prefix(cells, names, k + 1);
    }
}

/// The names of the cells that the variables cover, variable after
/// variable.
pub fn covered_cells(variables: &Vec<String>) -> (names: Vec<String>)
    requires
        all_variable_tokens(texts(variables@)),
        all_in_bounds(texts(variables@)),
    ensures
        texts(names@) == covered_all(texts(variables@)),
{
    let mut names: Vec<String> = Vec::new();
    let mut i: usize = 0;
    assert(texts(variables@).subrange(0, 0) =~= Seq::<Seq<char>>::empty());
    assert(texts(names@) =~= Seq::<Seq<char>>::empty());
    while i < variables.len()
        invariant
            0 <= i <= variables.len(),
            all_variable_tokens(texts(variables@)),
            all_in_bounds(texts(variables@)),
            texts(names@) == covered_all(texts(variables@).subrange(0, i as int)),
        decreases variables.len() - i,
    {
        proof {
            assert(texts(variables@).subrange(0, i + 1).drop_last() =~= texts(
                variables@,
            ).subrange(0, i as int));
            assert(texts(variables@).subrange(0, i + 1).last() == variables@[i as int]@);
            assert(texts(variables@)[i as int] == variables@[i as int]@);
        }
        let ghost before = texts(names@);
        let mut more: Vec<String> = token_cells(variables[i].as_str());
        let ghost added = texts(more@);
        names.append(&mut more);
        assert(texts(names@) =~= before + added);
        i = i + 1;
    }
    assert(texts(variables@).subrange(0, variables.len() as int) =~= texts(variables@));
    names
}

/// The error held by the first of the named cells that holds one.
pub fn find_error(spreadsheet: &Spreadsheet, names: &Vec<String>) -> (found: Option<Value>)
    ensures
        match found {
            Some(error) => first_error(spreadsheet@.cells, texts(names@)) == Some(error@),
            None => first_error(spreadsheet@.cells, texts(names@)) is None,
        },
{
    let mut i: usize = 0;
    assert(texts(names@).subrange(0, 0) =~= Seq::<Seq<char>>::empty());
    while i < names.len()
        invariant
            0 <= i <= names.len(),
            first_error(spreadsheet@.cells, texts(names@).subrange(0, i as int)) is None,
        decreases names.len() - i,
    {
        proof {
            assert(texts(names@).subrange(0, i + 1).drop_last() =~= texts(names@).subrange(
                0,
                i as int,
            ));
            assert(texts(names@).subrange(0, i + 1).last() == names@[i as int]@);
        }
        let value: Value = spreadsheet.get_cell_val(names[i].as_str());
        if value.is_error() {
            proof {
                lemma_first_error_prefix(spreadsheet@.cells, texts(names@), i + 1);
            }
            return Some(value);
        }
        i = i + 1;
    }
    assert(texts(names@).subrange(0, names.len() as int) =~= texts(names@));
    None
}

/// The expression that is kept with a value computed from an expression
/// with the given variables: the expression itself where it has variables,
/// none where it has not.
pub open spec fn kept_expression(expr: Seq<char>, variables: Seq<Seq<char>>) -> Option<
    Seq<char>,
> {
    if variables.len() == 0 {
        None
    } else {
        Some(expr)
    }
}

/// The spreadsheet after `cell` was set to the expression `expr`, whose
/// variables are `variables`, at the time `timestamp`. `value` is what the
/// evaluator gave for the expression and `trace` what it gave while the
/// dependants of the cell were recomputed.
///
/// First the edges of the expression that the cell held are taken down.
/// Where a cell that the new expression refers to holds an error, the cell
/// is written with that error and the note of a dependent cell, and nothing
/// more is done. Otherwise the cell becomes a child of every cell that the
/// expression refers to, is written with the value, and its dependants are
/// recomputed. The result is `None` where the evaluator may not give the
/// value for the expression on the cells as they are, or the trace is not
/// one of that walk.
pub open spec fn set_outcome(
    before: SheetView,
    cell: Seq<char>,
    expr: Seq<char>,
    variables: Seq<Seq<char>>,
    timestamp: u64,
    value: ValueView,
    trace: Trace,
) -> Option<SheetView> {
    let torn = torn_down(before.cells, before.edges, cell, expr);
    match first_error(before.cells, covered_all(variables)) {
        Some(error) => Some(
            SheetView {
                cells: write_cell(before.cells, cell, error, Some(dependent_note()), timestamp),
                edges: torn,
            },
        ),
        None => if !may_give(expr, bindings_for(before.cells, variables), value) {
            None
        } else {
            let wired = add_edges(torn, covered_all(variables), cell);
            let written = write_cell(
                before.cells,
                cell,
                value,
                kept_expression(expr, variables),
                timestamp,
            );
            match propagated(written, wired, cell, Seq::empty(), timestamp, trace) {
                Some(cells) => Some(SheetView { cells, edges: wired }),
                None => None,
            }
        },
    }
}

/// Sets `cell` to the expression `expr`, whose variables are `variables`.
pub fn set_with_variables(
    spreadsheet: &mut Spreadsheet,
    cell: &str,
    expr: String,
    variables: &Vec<String>,
    timestamp: u64,
)
    requires
        old(spreadsheet).wf(),
        all_variable_tokens(texts(variables@)),
        all_in_bounds(texts(variables@)),
    ensures
        final(spreadsheet).wf(),
        stamps_grow(old(spreadsheet)@.cells, final(spreadsheet)@.cells),
        exists|value: ValueView, trace: Trace|
            set_outcome(
                old(spreadsheet)@,
                cell@,
                expr@,
                texts(variables@),
                timestamp,
                value,
                trace,
            ) == Some(final(spreadsheet)@),
{
    let ghost before = spreadsheet@;
    remove_all_dependencies(spreadsheet, cell, &expr);
    let parents: Vec<String> = covered_cells(variables);
    if let Some(error) = find_error(spreadsheet, &parents) {
        let ghost found = error@;
        spreadsheet.set_cell(cell, error, Some("Dependent".to_owned()), timestamp);
        proof {
            let after = spreadsheet@;
            assert(set_outcome(
                before,
                cell@,
                expr@,
                texts(variables@),
                timestamp,
                found,
                Trace::Start,
            ) == Some(after));
        }
        return ;
    }
    add_variable_edges(spreadsheet, cell, variables);
    let bindings: Vec<(String, Argument)> = variable_map_for_runner(spreadsheet, variables);
    let cell_val: Value = evaluate(expr.as_str(), &bindings);
    let ghost given = cell_val@;
    let kept: Option<String> = if variables.len() == 0 {
        None
    } else {
        Some(expr)
    };
    spreadsheet.set_cell(cell, cell_val, kept, timestamp);
    let ghost written = spreadsheet@;
    let mut path: Vec<String> = Vec::new();
    assert(texts(path@) =~= Seq::<Seq<char>>::empty());
    let _ = update_dependency(spreadsheet, cell, &mut path, timestamp);
    proof {
        let after = spreadsheet@;
        lemma_stamps_grow_twice(before.cells, written.cells, after.cells);
        let trace = choose|trace: Trace|
            propagated(written.cells, written.edges, cell@, texts(path@), timestamp, trace)
                == Some(after.cells);
        assert(set_outcome(
            before,
            cell@,
            expr@,
            texts(variables@),
            timestamp,
            given,
            trace,
        ) == Some(after));
    }
}

/// The words from index `from` on, with a single space between each two.
pub fn join_words(words: &Vec<&str>, from: usize) -> (text: String)
    requires
        from <= words.len(),
    ensures
        text@ == joined(strs(words@).subrange(from as int, words.len() as int)),
{
    let mut text: String = String::new();
    if from >= words.len() {
        assert(strs(words@).subrange(from as int, words.len() as int) =~= Seq::<
            Seq<char>,
        >::empty());
        return text;
    }
    text.append(words[from]);
    let mut i: usize = from + 1;
    assert(strs(words@).subrange(from as int, from + 1) =~= seq![words@[from as int]@]);
    assert(text@ =~= words@[from as int]@);
    while i < words.len()
        invariant
            from < i <= words.len(),
            text@ == joined(strs(words@).subrange(from as int, i as int)),
        decreases words.len() - i,
    {
        proof {
            assert(strs(words@).subrange(from as int, i + 1).drop_last() =~= strs(
                words@,
            ).subrange(from as int, i as int));
            assert(strs(words@).subrange(from as int, i + 1).last() == words@[i as int]@);
        }
        text.append(" ");
        text.append(words[i]);
        i = i + 1;
    }
    text
}

/// The expression of a `set` command with a valid cell can be expanded:
/// the numbers of its range tokens fit in 32 bits.
pub open spec fn set_admits(args: Seq<Seq<char>>) -> bool {
    args.len() >= 3 && is_cell_name(args[1]) ==> readable(set_expression(args))
}

/// What a `set` command with the words `args` gives and does. With fewer
/// than three words, or with a second word that is no cell name, it is
/// rejected and nothing changes. Otherwise it succeeds, and the
/// spreadsheet is as `set_outcome` says for the cell, the expression and
/// the variables that the evaluator finds in it.
pub open spec fn set_post(
    before: SheetView,
    args: Seq<Seq<char>>,
    timestamp: u64,
    outcome: Result<(), Reply>,
    after: SheetView,
) -> bool {
    if args.len() < 3 {
        &&& outcome matches Err(reply)
        &&& reply@ == ReplyView::Error("Invalid number of arguments supplied for set"@)
        &&& after == before
    } else if !is_cell_name(args[1]) {
        &&& outcome matches Err(reply)
        &&& reply@ == ReplyView::Error("Invalid cell provided."@)
        &&& after == before
    } else {
        &&& outcome is Ok
        &&& exists|value: ValueView, trace: Trace|
            set_outcome(
                before,
                args[1],
                set_expression(args),
                expr_variables(set_expression(args)),
                timestamp,
                value,
                trace,
            ) == Some(after)
    }
}

/// The `set` command: `args` holds the command's name, a cell, and the
/// words of an expression. Where every expression was wired before, and
/// the time stamp is not earlier than the one that the cell holds, every
/// expression is wired after.
pub fn set(spreadsheet: &mut Spreadsheet, args: Vec<&str>, timestamp: u64) -> (outcome: Result<
    (),
    Reply,
>)
    requires
        old(spreadsheet).wf(),
        set_admits(strs(args@)),
    ensures
        final(spreadsheet).wf(),
        stamps_grow(old(spreadsheet)@.cells, final(spreadsheet)@.cells),
        set_post(old(spreadsheet)@, strs(args@), timestamp, outcome, final(spreadsheet)@),
        references_wired(old(spreadsheet)@) && (args.len() >= 3 ==> timestamp >= timestamp_of(
            old(spreadsheet)@.cells,
            args[1]@,
        )) ==> references_wired(final(spreadsheet)@),
{
    if args.len() < 3 {
        return Err(Reply::Error("Invalid number of arguments supplied for set".to_owned()));
    }
    let cell: &str = args[1];
    if !is_valid_cell(cell) {
        return Err(Reply::Error("Invalid cell provided.".to_owned()));
    }
    let expr: String = join_words(&args, 2);
    let vars: Vec<String> = find_variables(expr.as_str());
    let ghost before = spreadsheet@;
    let ghost text = expr@;
    set_with_variables(spreadsheet, cell, expr, &vars, timestamp);
    proof {
        if references_wired(before) && timestamp >= timestamp_of(before.cells, cell@) {
            let (value, trace) = choose|value: ValueView, trace: Trace|
                set_outcome(before, cell@, text, expr_variables(text), timestamp, value, trace)
                    == Some(spreadsheet@);
            lemma_set_keeps_references(before, cell@, text, timestamp, value, trace);
        }
    }
    Ok(())
}

/// The `set` command for any words: `None`, with nothing changed, where
/// the expression cannot be expanded; else what `set` gives and does.
/// With a time stamp that is not earlier than any in the store, every
/// expression stays wired.
pub fn set_checked(spreadsheet: &mut Spreadsheet, args: Vec<&str>, timestamp: u64) -> (outcome:
    Option<Result<(), Reply>>)
    requires
        old(spreadsheet).wf(),
    ensures
        final(spreadsheet).wf(),
        stamps_grow(old(spreadsheet)@.cells, final(spreadsheet)@.cells),
        match outcome {
            Some(done) => set_admits(strs(args@)) && set_post(
                old(spreadsheet)@,
                strs(args@),
                timestamp,
                done,
                final(spreadsheet)@,
            ),
            None => !set_admits(strs(args@)) && final(spreadsheet)@ == old(spreadsheet)@,
        },
        references_wired(old(spreadsheet)@) && is_latest(old(spreadsheet)@.cells, timestamp)
            ==> references_wired(final(spreadsheet)@),
{
    if args.len() >= 3 && is_valid_cell(args[1]) {
        let expr: String = join_words(&args, 2);
        let vars: Vec<String> = find_variables(expr.as_str());
        if !all_fit(&vars) {
            return None;
        }
        assert(is_latest(spreadsheet@.cells, timestamp) ==> timestamp >= timestamp_of(
            spreadsheet@.cells,
            args[1]@,
        ));
    }
    Some(set(spreadsheet, args, timestamp))
}

} // verus!
