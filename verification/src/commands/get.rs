//! The `get` command: the value of a cell, or the error that the cell
//! stands for.

use vstd::prelude::*;
use vstd::string::*;
use crate::commands::dependencies::circular_note;
use crate::commands::set::{dependent_note, strs};
use crate::runner::{render_value, rendered};
use crate::spreadsheet::{expression_of, value_of, CellView, Spreadsheet};
use crate::utils::{is_cell_name, is_valid_cell, str_equal};
use crate::values::{Reply, ReplyView, Value, ValueView};

verus! {

/// What a `get` command gives: a cell with its value, or a cell with the
/// error to reply.
pub enum GetView {
    Value(Seq<char>, ValueView),
    Error(Seq<char>, ReplyView),
}

/// What a `get` command with the words `args` gives on `cells`. With fewer
/// than two words, or with a second word that is no cell name, it is
/// rejected. A cell with the note of a dependent cell gives an error that
/// quotes its value. A cell with the note of a cycle that holds an error
/// gives that error's message. Any other cell gives its value, empty where
/// it was never written.
pub open spec fn get_answer(cells: Map<Seq<char>, CellView>, args: Seq<Seq<char>>) -> GetView {
    if args.len() < 2 {
        GetView::Error(""@, ReplyView::Error("Invalid number of arguments for get"@))
    } else if !is_cell_name(args[1]) {
        GetView::Error(args[1], ReplyView::Error("Invalid cell"@))
    } else {
        let value = value_of(cells, args[1]);
        let expr = expression_of(cells, args[1]);
        if expr == Some(dependent_note()) {
            GetView::Error(
                args[1],
                ReplyView::Error("A dependent cell contained an error: "@ + rendered(value)),
            )
        } else if expr == Some(circular_note()) && value is Error {
            GetView::Error(args[1], ReplyView::Error(value->Error_0))
        } else {
            GetView::Value(args[1], value)
        }
    }
}

/// What the result of a `get` command stands for.
pub open spec fn get_view(outcome: Result<(String, Value), (String, Reply)>) -> GetView {
    match outcome {
        Ok(found) => GetView::Value(found.0@, found.1@),
        Err(refused) => GetView::Error(refused.0@, refused.1@),
    }
}

/// The `get` command: `args` holds the command's name and a cell.
pub fn get(spreadsheet: &Spreadsheet, args: Vec<&str>) -> (outcome: Result<
    (String, Value),
    (String, Reply),
>)
    ensures
        get_view(outcome) == get_answer(spreadsheet@.cells, strs(args@)),
{
    if args.len() < 2 {
        return Err(
            ("".to_owned(), Reply::Error("Invalid number of arguments for get".to_owned())),
        );
    }
    let cell: &str = args[1];
    if !is_valid_cell(cell) {
        return Err((cell.to_owned(), Reply::Error("Invalid cell".to_owned())));
    }
    let cell_val: Value = spreadsheet.get_cell_val(cell);
    let cell_expr: Option<String> = spreadsheet.get_cell_expr(cell);
    if let Some(s) = cell_expr {
        if str_equal(s.as_str(), "Dependent") {
            let mut message: String = "A dependent cell contained an error: ".to_owned();
            let shown: String = render_value(&cell_val);
            message.append(shown.as_str());
            return Err((cell.to_owned(), Reply::Error(message)));
        } else if str_equal(s.as_str(), "Circular Dependency") {
            if let Value::Error(text) = cell_val {
                return Err((cell.to_owned(), Reply::Error(text)));
            }
        }
    }
    Ok((cell.to_owned(), cell_val))
}

} // verus!
