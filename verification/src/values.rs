//! The values that cells hold, the arguments that an expression is
//! evaluated on, and the replies that a command gives.

use vstd::prelude::*;

verus! {

/// The value of a cell.
#[derive(Debug, Clone, PartialEq, Eq)]
pub enum Value {
    /// The cell is empty.
    Empty,
    /// An integer.
    Int(i64),
    /// A text.
    String(String),
    /// The message of an error that the cell's expression produced.
    Error(String),
}

/// What a `Value` stands for.
pub enum ValueView {
    Empty,
    Int(i64),
    Text(Seq<char>),
    Error(Seq<char>),
}

impl View for Value {
    type V = ValueView;

    open spec fn view(&self) -> ValueView {
        match self {
            Value::Empty => ValueView::Empty,
            Value::Int(i) => ValueView::Int(*i),
            Value::String(s) => ValueView::Text(s@),
            Value::Error(s) => ValueView::Error(s@),
        }
    }
}

impl Value {
    /// Whether the value is an error.
    pub fn is_error(&self) -> (r: bool)
        ensures
            r == (self@ is Error),
    {
        match self {
            Value::Error(_) => true,
            _ => false,
        }
    }
}

/// The views of a list of values, in order.
pub open spec fn value_views(values: Seq<Value>) -> Seq<ValueView> {
    values.map_values(|v: Value| v@)
}

/// The views of the rows of a matrix of values, in order.
pub open spec fn row_views(rows: Seq<Vec<Value>>) -> Seq<Seq<ValueView>> {
    rows.map_values(|row: Vec<Value>| value_views(row@))
}

/// What a variable of an expression is bound to.
#[derive(Debug, Clone, PartialEq, Eq)]
pub enum Argument {
    /// The value of a single cell.
    Value(Value),
    /// The values of the cells of a row or a column, in order.
    Vector(Vec<Value>),
    /// The values of the cells of a rectangle: its rows from the top, each
    /// from the left.
    Matrix(Vec<Vec<Value>>),
}

/// What a `Argument` stands for.
pub enum ArgumentView {
    Value(ValueView),
    Vector(Seq<ValueView>),
    Matrix(Seq<Seq<ValueView>>),
}

impl View for Argument {
    type V = ArgumentView;

    open spec fn view(&self) -> ArgumentView {
        match self {
            Argument::Value(v) => ArgumentView::Value(v@),
            Argument::Vector(values) => ArgumentView::Vector(value_views(values@)),
            Argument::Matrix(rows) => ArgumentView::Matrix(row_views(rows@)),
        }
    }
}

/// What a command answers.
#[derive(Debug, Clone, PartialEq, Eq)]
pub enum Reply {
    /// The value of the cell that was asked for.
    Value(String, Value),
    /// The message of an error.
    Error(String),
}

/// What a `Reply` stands for.
pub enum ReplyView {
    Value(Seq<char>, ValueView),
    Error(Seq<char>),
}

impl View for Reply {
    type V = ReplyView;

    open spec fn view(&self) -> ReplyView {
        match self {
            Reply::Value(cell, value) => ReplyView::Value(cell@, value@),
            Reply::Error(message) => ReplyView::Error(message@),
        }
    }
}

} // verus!
