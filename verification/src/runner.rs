//! The evaluator of expressions: which variables an expression names, and
//! what it evaluates to.

use vstd::prelude::*;
use crate::cells::decimal;
use crate::spreadsheet::texts;
use crate::utils::is_cell_name;
use crate::values::{Argument, ArgumentView, Value, ValueView};

verus! {

/// `s` is a range token: two cell names joined by an underscore at index
/// `k`.
pub open spec fn is_range_at(s: Seq<char>, k: int) -> bool {
    &&& 0 <= k < s.len()
    &&& s[k] == '_'
    &&& is_cell_name(s.subrange(0, k))
    &&& is_cell_name(s.subrange(k + 1, s.len() as int))
}

/// `s` is a variable token: the name of a cell, or a range token.
pub open spec fn is_variable_token(s: Seq<char>) -> bool {
    is_cell_name(s) || exists|k: int| is_range_at(s, k)
}

/// Every member of `tokens` is a variable token.
pub open spec fn all_variable_tokens(tokens: Seq<Seq<char>>) -> bool {
    forall|i: int| 0 <= i < tokens.len() ==> is_variable_token(#[trigger] tokens[i])
}

/// An integer in decimal, with a minus sign where it is negative.
pub open spec fn signed_decimal(i: int) -> Seq<char> {
    if i < 0 {
        seq!['-'] + decimal((-i) as nat)
    } else {
        decimal(i as nat)
    }
}

/// How a value is written in a message.
pub open spec fn rendered(value: ValueView) -> Seq<char> {
    match value {
        ValueView::Empty => "None"@,
        ValueView::Int(i) => signed_decimal(i as int),
        ValueView::Text(s) => "\""@ + s + "\""@,
        ValueView::Error(s) => "Error: \""@ + s + "\""@,
    }
}

/// The evaluator's own type of a value, carried as it is.
#[verifier::external_type_specification]
#[verifier::external_body]
pub struct ExCellValue(rsheet_lib::cell_value::CellValue);

/// The evaluator's own type of an argument, carried as it is.
#[verifier::external_type_specification]
#[verifier::external_body]
pub struct ExCellArgument(rsheet_lib::command_runner::CellArgument);

/// The variable tokens that the evaluator finds in an expression, in the
/// order in which it finds them.
pub uninterp spec fn expr_variables(expr: Seq<char>) -> Seq<Seq<char>>;

/// `CommandRunner::new` and `CommandRunner::find_variables`: the variables
/// of the expression. The evaluator keeps only the names that are a cell
/// name or two cell names joined by an underscore.
#[verifier::external_body]
pub(crate) fn find_variables(expr: &str) -> (vars: Vec<String>)
    ensures
        texts(vars@) == expr_variables(expr@),
        all_variable_tokens(texts(vars@)),
{
    rsheet_lib::command_runner::CommandRunner::new(expr).find_variables()
}

/// The evaluator's value with the same variant and content as `value`.
#[verifier::external_body]
fn outside_value(value: &Value) -> rsheet_lib::cell_value::CellValue {
    match value {
        Value::Empty => rsheet_lib::cell_value::CellValue::None,
        Value::Int(i) => rsheet_lib::cell_value::CellValue::Int(*i),
        Value::String(s) => rsheet_lib::cell_value::CellValue::String(s.clone()),
        Value::Error(s) => rsheet_lib::cell_value::CellValue::Error(s.clone()),
    }
}

/// The evaluator's argument with the same variant and content as
/// `argument`.
#[verifier::external_body]
fn outside_argument(argument: &Argument) -> rsheet_lib::command_runner::CellArgument {
    match argument {
        Argument::Value(v) => rsheet_lib::command_runner::CellArgument::Value(
            outside_value(v),
        ),
        Argument::Vector(values) => rsheet_lib::command_runner::CellArgument::Vector(
            values.iter().map(outside_value).collect(),
        ),
        Argument::Matrix(rows) => rsheet_lib::command_runner::CellArgument::Matrix(
            rows.iter().map(|row| row.iter().map(outside_value).collect()).collect(),
        ),
    }
}

/// The library's value with the same variant and content as the
/// evaluator's `value`.
#[verifier::external_body]
fn inside_value(value: rsheet_lib::cell_value::CellValue) -> Value {
    match value {
        rsheet_lib::cell_value::CellValue::None => Value::Empty,
        rsheet_lib::cell_value::CellValue::Int(i) => Value::Int(i),
        rsheet_lib::cell_value::CellValue::String(s) => Value::String(s),
        rsheet_lib::cell_value::CellValue::Error(s) => Value::Error(s),
    }
}

/// What a list of bindings stands for.
pub open spec fn binding_views(bindings: Seq<(String, Argument)>) -> Seq<
    (Seq<char>, ArgumentView),
> {
    Seq::new(bindings.len(), |i: int| (bindings[i].0@, bindings[i].1@))
}

/// Whether `value` is among the values that the evaluator may give for the
/// expression on the bindings. An expression may read the clock, so the
/// same expression and bindings need not give the same value twice.
pub uninterp spec fn may_give(
    expr: Seq<char>,
    bindings: Seq<(Seq<char>, ArgumentView)>,
    value: ValueView,
) -> bool;

/// `CommandRunner::new` and `CommandRunner::run`: the value of the
/// expression where each variable stands for the argument bound to its
/// name. Of the value the contract says only that it is one that the
/// evaluator may give.
#[verifier::external_body]
pub(crate) fn evaluate(expr: &str, bindings: &Vec<(String, Argument)>) -> (value: Value)
    ensures
        may_give(expr@, binding_views(bindings@), value@),
{
    let variables = bindings.iter().map(|b| (b.0.clone(), outside_argument(&b.1))).collect();
    inside_value(rsheet_lib::command_runner::CommandRunner::new(expr).run(&variables))
}

/// `to_string` on the evaluator's value: an integer in decimal, a text
/// between double quotes, an error's message between double quotes after
/// `Error: `, and `None` for the empty value.
#[verifier::external_body]
pub(crate) fn render_value(value: &Value) -> (text: String)
    ensures
        text@ == rendered(value@),
{
    outside_value(value).to_string()
}

} // verus!
