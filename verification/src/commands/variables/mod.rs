//! Variable tokens: their kinds, the cells that they cover, and the
//! arguments that they are bound to when an expression is evaluated.

use vstd::prelude::*;
use vstd::string::*;
use crate::cells::{
    cell_name, col_number, column_number, make_cell_name, parse_row, row_number,
};
use crate::runner::{all_variable_tokens, binding_views, is_range_at, is_variable_token};
use crate::spreadsheet::{texts, value_of, CellView, Spreadsheet};
use crate::values::{
    row_views, value_views, Argument, ArgumentView, Value, ValueView,
};
use crate::utils::{
    all_digits, all_upper, is_cell_name, is_cell_name_at, is_digit, is_upper, str_equal,
};

verus! {

/// The kind of a variable token, with the labels and the digits of its
/// corners as they are written in the token.
#[derive(Debug, PartialEq)]
pub enum VariableType<'a> {
    /// A single cell, such as `A1`.
    Scalar,
    /// Cells of one row, such as `A1_C1`: the row, the first and the last
    /// column.
    HorizontalVector(&'a str, &'a str, &'a str),
    /// Cells of one column, such as `A1_A3`: the column, the first and the
    /// last row.
    VerticalVector(&'a str, &'a str, &'a str),
    /// Cells of a rectangle, such as `A1_C3`: column and row of the first
    /// corner, column and row of the last.
    Matrix((&'a str, &'a str), (&'a str, &'a str)),
}

/// What a `VariableType` stands for.
pub enum VariableKind {
    Scalar,
    HorizontalVector(Seq<char>, Seq<char>, Seq<char>),
    VerticalVector(Seq<char>, Seq<char>, Seq<char>),
    Matrix((Seq<char>, Seq<char>), (Seq<char>, Seq<char>)),
}

impl<'a> View for VariableType<'a> {
    type V = VariableKind;

    open spec fn view(&self) -> VariableKind {
        match self {
            VariableType::Scalar => VariableKind::Scalar,
            VariableType::HorizontalVector(row, first, last) => VariableKind::HorizontalVector(
                row@,
                first@,
                last@,
            ),
            VariableType::VerticalVector(col, first, last) => VariableKind::VerticalVector(
                col@,
                first@,
                last@,
            ),
            VariableType::Matrix(from, to) => VariableKind::Matrix(
                (from.0@, from.1@),
                (to.0@, to.1@),
            ),
        }
    }
}

/// The index of the first digit of `s`, or its length where it has none.
pub open spec fn first_digit(s: Seq<char>) -> int
    decreases s.len(),
{
    if s.len() == 0 {
        0
    } else if is_digit(s[0]) {
        0
    } else {
        1 + first_digit(s.skip(1))
    }
}

/// The index of the first underscore of `s`, or its length where it has
/// none.
pub open spec fn first_underscore(s: Seq<char>) -> int
    decreases s.len(),
{
    if s.len() == 0 {
        0
    } else if s[0] == '_' {
        0
    } else {
        1 + first_underscore(s.skip(1))
    }
}

/// The column label and the row digits of a cell name: what stands before
/// its first digit, and the rest.
pub open spec fn split_cell(cell: Seq<char>) -> (Seq<char>, Seq<char>) {
    (cell.subrange(0, first_digit(cell)), cell.subrange(first_digit(cell), cell.len() as int))
}

/// The part of a token before its first underscore.
pub open spec fn first_part(token: Seq<char>) -> Seq<char> {
    token.subrange(0, first_underscore(token))
}

/// The part of a token between its first underscore and the next one, or
/// the end.
pub open spec fn second_part(token: Seq<char>) -> Seq<char> {
    let rest = token.subrange(first_underscore(token) + 1, token.len() as int);
    rest.subrange(0, first_underscore(rest))
}

/// The kind of a variable token. A token without an underscore is a single
/// cell. Otherwise its two corners are compared as they are written: equal
/// column labels make a vertical vector, else equal row digits a horizontal
/// one, else the token is a matrix.
pub open spec fn classify(token: Seq<char>) -> VariableKind {
    if first_underscore(token) >= token.len() {
        VariableKind::Scalar
    } else {
        let (start_col, start_row) = split_cell(first_part(token));
        let (end_col, end_row) = split_cell(second_part(token));
        if start_col == end_col {
            VariableKind::VerticalVector(start_col, start_row, end_row)
        } else if start_row == end_row {
            VariableKind::HorizontalVector(start_row, start_col, end_col)
        } else {
            VariableKind::Matrix((start_col, start_row), (end_col, end_row))
        }
    }
}

/// Where no character before index `k` is a digit and the one at `k` is,
/// or `k` is the length, the first digit is at `k`.
pub proof fn lemma_first_digit(s: Seq<char>, k: int)
    requires
        0 <= k <= s.len(),
        forall|j: int| 0 <= j < k ==> !is_digit(#[trigger] s[j]),
        k < s.len() ==> is_digit(s[k]),
    ensures
        first_digit(s) == k,
    decreases k,
{
    if k > 0 {
        assert(!is_digit(s[0]));
        assert forall|j: int| 0 <= j < k - 1 implies !is_digit(#[trigger] s.skip(1)[j]) by {
            assert(s.skip(1)[j] == s[j + 1]);
        }
        lemma_first_digit(s.skip(1), k - 1);
    }
}

/// Where no character before index `k` is an underscore and the one at `k`
/// is, or `k` is the length, the first underscore is at `k`.
pub proof fn lemma_first_underscore(s: Seq<char>, k: int)
    requires
        0 <= k <= s.len(),
        forall|j: int| 0 <= j < k ==> #[trigger] s[j] != '_',
        k < s.len() ==> s[k] == '_',
    ensures
        first_underscore(s) == k,
    decreases k,
{
    if k > 0 {
        assert(s[0] != '_');
        assert forall|j: int| 0 <= j < k - 1 implies #[trigger] s.skip(1)[j] != '_' by {
            assert(s.skip(1)[j] == s[j + 1]);
        }
        lemma_first_underscore(s.skip(1), k - 1);
    }
}

/// A cell name has no underscore; its first digit ends its letters, so it
/// splits into a label of letters and a row of digits, neither empty.
pub proof fn lemma_cell_name_shape(s: Seq<char>)
    requires
        is_cell_name(s),
    ensures
        first_underscore(s) == s.len(),
        0 < first_digit(s) < s.len(),
        all_upper(split_cell(s).0),
        all_digits(split_cell(s).1),
{
    let k = choose|k: int| is_cell_name_at(s, k);
    assert forall|j: int| 0 <= j < s.len() implies (if j < k {
        is_upper(#[trigger] s[j])
    } else {
        is_digit(s[j])
    }) by {
        if j < k {
            assert(s.subrange(0, k)[j] == s[j]);
        } else {
            assert(s.subrange(k, s.len() as int)[j - k] == s[j]);
        }
    }
    lemma_first_underscore(s, s.len() as int);
    lemma_first_digit(s, k);
}

/// A variable token with an underscore is two cell names joined by its
/// first underscore, and these are its two parts.
pub proof fn lemma_range_shape(token: Seq<char>)
    requires
        is_variable_token(token),
        first_underscore(token) < token.len(),
    ensures
        is_range_at(token, first_underscore(token)),
        is_cell_name(first_part(token)),
        is_cell_name(second_part(token)),
        second_part(token) == token.subrange(first_underscore(token) + 1, token.len() as int),
{
    if is_cell_name(token) {
        lemma_cell_name_shape(token);
    }
    let k = choose|k: int| is_range_at(token, k);
    let head = token.subrange(0, k);
    let tail = token.subrange(k + 1, token.len() as int);
    lemma_cell_name_shape(head);
    lemma_cell_name_shape(tail);
    assert forall|j: int| 0 <= j < k implies #[trigger] token[j] != '_' by {
        assert(head[j] == token[j]);
        let kk = choose|kk: int| is_cell_name_at(head, kk);
        if j < kk {
            assert(head.subrange(0, kk)[j] == head[j]);
        } else {
            assert(head.subrange(kk, head.len() as int)[j - kk] == head[j]);
        }
    }
    lemma_first_underscore(token, k);
    assert(tail.subrange(0, tail.len() as int) =~= tail);
}

/// The index of the first digit of `s`.
fn find_digit(s: &str) -> (at: usize)
    ensures
        at == first_digit(s@),
        at <= s@.len(),
{
    let n: usize = s.unicode_len();
    let mut i: usize = 0;
    while i < n
        invariant
            n == s@.len(),
            0 <= i <= n,
            forall|j: int| 0 <= j < i ==> !is_digit(#[trigger] s@[j]),
        decreases n - i,
    {
        let c: char = s.get_char(i);
        if '0' <= c && c <= '9' {
            proof {
                lemma_first_digit(s@, i as int);
            }
            return i;
        }
        i = i + 1;
    }
    proof {
        lemma_first_digit(s@, n as int);
    }
    n
}

/// The index of the first underscore of `s`.
fn find_underscore(s: &str) -> (at: usize)
    ensures
        at == first_underscore(s@),
        at <= s@.len(),
{
    let n: usize = s.unicode_len();
    let mut i: usize = 0;
    while i < n
        invariant
            n == s@.len(),
            0 <= i <= n,
            forall|j: int| 0 <= j < i ==> #[trigger] s@[j] != '_',
        decreases n - i,
    {
        let c: char = s.get_char(i);
        if c == '_' {
            proof {
                lemma_first_underscore(s@, i as int);
            }
            return i;
        }
        i = i + 1;
    }
    proof {
        lemma_first_underscore(s@, n as int);
    }
    n
}

/// Splits a cell name into its column label and its row digits.
pub fn get_row_col(cell: &str) -> (parts: (&str, &str))
    requires
        first_digit(cell@) < cell@.len(),
    ensures
        (parts.0@, parts.1@) == split_cell(cell@),
{
    let at: usize = find_digit(cell);
    let n: usize = cell.unicode_len();
    (cell.substring_char(0, at), cell.substring_char(at, n))
}

/// Tells the kind of a variable token.
pub fn categorize_variable(variable: &str) -> (kind: VariableType<'_>)
    requires
        is_variable_token(variable@),
    ensures
        kind@ == classify(variable@),
{
    let n: usize = variable.unicode_len();
    let at: usize = find_underscore(variable);
    if at >= n {
        return VariableType::Scalar;
    }
    proof {
        lemma_range_shape(variable@);
        lemma_cell_name_shape(first_part(variable@));
        lemma_cell_name_shape(second_part(variable@));
    }
    let first: &str = variable.substring_char(0, at);
    let rest: &str = variable.substring_char(at + 1, n);
    let end: usize = find_underscore(rest);
    let second: &str = rest.substring_char(0, end);
    let (start_col, start_row) = get_row_col(first);
    let (end_col, end_row) = get_row_col(second);
    if str_equal(start_col, end_col) {
        return VariableType::VerticalVector(start_col, start_row, end_row);
    }
    if str_equal(start_row, end_row) {
        return VariableType::HorizontalVector(start_row, start_col, end_col);
    }
    VariableType::Matrix((start_col, start_row), (end_col, end_row))
}

/// The names of the cells of row `row` in the columns from `first_col` up
/// to, not including, `end_col`, from the left.
pub open spec fn row_cells(row: nat, first_col: nat, end_col: nat) -> Seq<Seq<char>>
    decreases end_col,
{
    if end_col <= first_col {
        Seq::empty()
    } else {
        row_cells(row, first_col, (end_col - 1) as nat).push(
            cell_name((end_col - 1) as nat, row),
        )
    }
}

/// The rows from `first_row` up to, not including, `end_row`, from the
/// top, each as `row_cells` gives it.
pub open spec fn grid_rows(first_row: nat, end_row: nat, first_col: nat, end_col: nat) -> Seq<
    Seq<Seq<char>>,
>
    decreases end_row,
{
    if end_row <= first_row {
        Seq::empty()
    } else {
        grid_rows(first_row, (end_row - 1) as nat, first_col, end_col).push(
            row_cells((end_row - 1) as nat, first_col, end_col),
        )
    }
}

/// The names of the cells of a rectangle in row-major order: the rows of
/// `grid_rows` one after the other.
pub open spec fn grid_cells(first_row: nat, end_row: nat, first_col: nat, end_col: nat) -> Seq<
    Seq<char>,
>
    decreases end_row,
{
    if end_row <= first_row {
        Seq::empty()
    } else {
        grid_cells(first_row, (end_row - 1) as nat, first_col, end_col) + row_cells(
            (end_row - 1) as nat,
            first_col,
            end_col,
        )
    }
}

/// The corners of a range, as numbers.
pub struct Corners {
    pub first_col: nat,
    pub first_row: nat,
    pub last_col: nat,
    pub last_row: nat,
}

/// The corners of a range token: column and row of its first cell name,
/// column and row of its second.
pub open spec fn corners(token: Seq<char>) -> Corners {
    let (start_col, start_row) = split_cell(first_part(token));
    let (end_col, end_row) = split_cell(second_part(token));
    Corners {
        first_col: col_number(start_col),
        first_row: row_number(start_row),
        last_col: col_number(end_col),
        last_row: row_number(end_row),
    }
}

/// The cells that a variable token covers: the cell that it names, or the
/// cells of its range in row-major order. A range whose last row or column
/// lies before its first covers nothing.
pub open spec fn covered(token: Seq<char>) -> Seq<Seq<char>> {
    if first_underscore(token) >= token.len() {
        seq![token]
    } else {
        let c = corners(token);
        grid_cells(c.first_row, c.last_row + 1, c.first_col, c.last_col + 1)
    }
}

/// The cells that the tokens cover, token after token.
pub open spec fn covered_all(tokens: Seq<Seq<char>>) -> Seq<Seq<char>>
    decreases tokens.len(),
{
    if tokens.len() == 0 {
        Seq::empty()
    } else {
        covered_all(tokens.drop_last()) + covered(tokens.last())
    }
}

/// The numbers of a range token's corners fit in 32 bits. A single cell
/// has no numbers to fit.
pub open spec fn in_bounds(token: Seq<char>) -> bool {
    first_underscore(token) >= token.len() || {
        let c = corners(token);
        &&& c.first_col <= u32::MAX
        &&& c.first_row <= u32::MAX
        &&& c.last_col <= u32::MAX
        &&& c.last_row <= u32::MAX
    }
}

/// Every token is in bounds.
pub open spec fn all_in_bounds(tokens: Seq<Seq<char>>) -> bool {
    forall|i: int| 0 <= i < tokens.len() ==> in_bounds(#[trigger] tokens[i])
}

/// The values of the named cells, in order.
pub open spec fn values_at(cells: Map<Seq<char>, CellView>, names: Seq<Seq<char>>) -> Seq<
    ValueView,
> {
    Seq::new(names.len(), |i: int| value_of(cells, names[i]))
}

/// The values of the named cells, row by row.
pub open spec fn rows_at(cells: Map<Seq<char>, CellView>, rows: Seq<Seq<Seq<char>>>) -> Seq<
    Seq<ValueView>,
> {
    Seq::new(rows.len(), |i: int| values_at(cells, rows[i]))
}

/// What a variable token is bound to: the value of its cell, the values of
/// its row or column, or the values of its rectangle row by row.
pub open spec fn argument_for(cells: Map<Seq<char>, CellView>, token: Seq<char>) -> ArgumentView {
    let c = corners(token);
    match classify(token) {
        VariableKind::Scalar => ArgumentView::Value(value_of(cells, token)),
        VariableKind::Matrix(_, _) => ArgumentView::Matrix(
            rows_at(cells, grid_rows(c.first_row, c.last_row + 1, c.first_col, c.last_col + 1)),
        ),
        _ => ArgumentView::Vector(values_at(cells, covered(token))),
    }
}

/// The bindings of the tokens: each token with its argument, in order.
pub open spec fn bindings_for(cells: Map<Seq<char>, CellView>, tokens: Seq<Seq<char>>) -> Seq<
    (Seq<char>, ArgumentView),
> {
    Seq::new(tokens.len(), |i: int| (tokens[i], argument_for(cells, tokens[i])))
}

/// The names of the cells of one row, from column `first_col` to column
/// `last_col`.
pub fn row_names(row: u32, first_col: u32, last_col: u32) -> (names: Vec<String>)
    requires
        first_col >= 1,
    ensures
        texts(names@) == row_cells(row as nat, first_col as nat, (last_col + 1) as nat),
{
    let mut names: Vec<String> = Vec::new();
    let mut col: u64 = first_col as u64;
    assert(texts(names@) =~= Seq::<Seq<char>>::empty());
    while col <= last_col as u64
        invariant
            1 <= first_col <= col,
            col <= last_col + 1 || (last_col < first_col && col == first_col),
            texts(names@) == row_cells(row as nat, first_col as nat, col as nat),
        decreases last_col + 1 - col,
    {
        let ghost before = texts(names@);
        let name: String = make_cell_name(col as u32, row);
        names.push(name);
        assert(texts(names@) =~= before.push(name@));
        col = col + 1;
    }
    assert(last_col < first_col ==> row_cells(row as nat, first_col as nat, (last_col + 1) as nat)
        =~= row_cells(row as nat, first_col as nat, col as nat));
    names
}

/// The strings of a corner pair are labels and digits whose numbers fit in
/// 32 bits.
pub open spec fn corners_readable(
    start_col: Seq<char>,
    start_row: Seq<char>,
    end_col: Seq<char>,
    end_row: Seq<char>,
) -> bool {
    &&& start_col.len() > 0 && all_upper(start_col) && col_number(start_col) <= u32::MAX
    &&& end_col.len() > 0 && all_upper(end_col) && col_number(end_col) <= u32::MAX
    &&& start_row.len() > 0 && all_digits(start_row) && row_number(start_row) <= u32::MAX
    &&& end_row.len() > 0 && all_digits(end_row) && row_number(end_row) <= u32::MAX
}

/// A label of upper-case letters that is not empty names a column from 1
/// on.
pub proof fn lemma_col_number_positive(label: Seq<char>)
    requires
        label.len() > 0,
        all_upper(label),
    ensures
        col_number(label) >= 1,
{
    assert(is_upper(label[label.len() - 1]));
}

/// The names of the cells of a rectangle in row-major order, the corners
/// given as they are written.
pub fn range_cells(start_col: &str, start_row: &str, end_col: &str, end_row: &str) -> (names:
    Vec<String>)
    requires
        corners_readable(start_col@, start_row@, end_col@, end_row@),
    ensures
        texts(names@) == grid_cells(
            row_number(start_row@),
            row_number(end_row@) + 1,
            col_number(start_col@),
            col_number(end_col@) + 1,
        ),
{
    proof {
        lemma_col_number_positive(start_col@);
    }
    let first_row: u32 = parse_row(start_row).unwrap();
    let last_row: u32 = parse_row(end_row).unwrap();
    let first_col: u32 = column_number(start_col).unwrap();
    let last_col: u32 = column_number(end_col).unwrap();
    let mut names: Vec<String> = Vec::new();
    let mut row: u64 = first_row as u64;
    assert(texts(names@) =~= Seq::<Seq<char>>::empty());
    while row <= last_row as u64
        invariant
            first_col >= 1,
            first_row <= row,
            row <= last_row + 1 || (last_row < first_row && row == first_row),
            texts(names@) == grid_cells(
                first_row as nat,
                row as nat,
                first_col as nat,
                (last_col + 1) as nat,
            ),
        decreases last_row + 1 - row,
    {
        let ghost before = texts(names@);
        let mut more: Vec<String> = row_names(row as u32, first_col, last_col);
        let ghost added = texts(more@);
        names.append(&mut more);
        assert(texts(names@) =~= before + added);
        row = row + 1;
    }
    assert(last_row < first_row ==> grid_cells(
        first_row as nat,
        (last_row + 1) as nat,
        first_col as nat,
        (last_col + 1) as nat,
    ) =~= grid_cells(first_row as nat, row as nat, first_col as nat, (last_col + 1) as nat));
    names
}

/// Whether the numbers of a variable token's corners fit in 32 bits.
pub fn token_fits(token: &str) -> (fits: bool)
    requires
        is_variable_token(token@),
    ensures
        fits == in_bounds(token@),
{
    match categorize_variable(token) {
        VariableType::Scalar => true,
        VariableType::VerticalVector(col, first, last) => {
            proof {
                lemma_range_shape(token@);
                lemma_cell_name_shape(first_part(token@));
                lemma_cell_name_shape(second_part(token@));
            }
            column_number(col).is_some() && parse_row(first).is_some() && parse_row(
                last,
            ).is_some()
        },
        VariableType::HorizontalVector(row, first, last) => {
            proof {
                lemma_range_shape(token@);
                lemma_cell_name_shape(first_part(token@));
                lemma_cell_name_shape(second_part(token@));
            }
            parse_row(row).is_some() && column_number(first).is_some() && column_number(
                last,
            ).is_some()
        },
        VariableType::Matrix(from, to) => {
            proof {
                lemma_range_shape(token@);
                lemma_cell_name_shape(first_part(token@));
                lemma_cell_name_shape(second_part(token@));
            }
            column_number(from.0).is_some() && parse_row(from.1).is_some() && column_number(
                to.0,
            ).is_some() && parse_row(to.1).is_some()
        },
    }
}

/// The names of the cells that a variable token covers.
pub fn token_cells(token: &str) -> (names: Vec<String>)
    requires
        is_variable_token(token@),
        in_bounds(token@),
    ensures
        texts(names@) == covered(token@),
{
    proof {
        if first_underscore(token@) < token@.len() {
            lemma_range_shape(token@);
            lemma_cell_name_shape(first_part(token@));
            lemma_cell_name_shape(second_part(token@));
        }
    }
    match categorize_variable(token) {
        VariableType::Scalar => {
            let mut names: Vec<String> = Vec::new();
            names.push(token.to_owned());
            assert(texts(names@) =~= seq![token@]);
            names
        },
        VariableType::VerticalVector(col, first, last) => range_cells(col, first, col, last),
        VariableType::HorizontalVector(row, first, last) => range_cells(first, row, last, row),
        VariableType::Matrix(from, to) => range_cells(from.0, from.1, to.0, to.1),
    }
}

/// The values of the named cells, in order.
pub fn read_cells(spreadsheet: &Spreadsheet, names: &Vec<String>) -> (values: Vec<Value>)
    ensures
        value_views(values@) == values_at(spreadsheet@.cells, texts(names@)),
{
    let mut values: Vec<Value> = Vec::new();
    let mut i: usize = 0;
    while i < names.len()
        invariant
            0 <= i <= names.len(),
            values@.len() == i,
            forall|j: int|
                0 <= j < i ==> (#[trigger] values@[j])@ == value_of(
                    spreadsheet@.cells,
                    names@[j]@,
                ),
        decreases names.len() - i,
    {
        let value: Value = spreadsheet.get_cell_val(names[i].as_str());
        values.push(value);
        i = i + 1;
    }
    assert(value_views(values@) =~= values_at(spreadsheet@.cells, texts(names@)));
    values
}

/// The values of the cells of a rectangle in row-major order, the corners
/// given as they are written.
pub fn create_cell_vec(
    start_row: &str,
    end_row: &str,
    start_col: &str,
    end_col: &str,
    spreadsheet: &Spreadsheet,
) -> (values: Vec<Value>)
    requires
        corners_readable(start_col@, start_row@, end_col@, end_row@),
    ensures
        value_views(values@) == values_at(
            spreadsheet@.cells,
            grid_cells(
                row_number(start_row@),
                row_number(end_row@) + 1,
                col_number(start_col@),
                col_number(end_col@) + 1,
            ),
        ),
{
    let names: Vec<String> = range_cells(start_col, start_row, end_col, end_row);
    read_cells(spreadsheet, &names)
}

/// The values of the cells of a rectangle, row by row from the top, each
/// row from the left; the corners given as they are written.
pub fn create_cell_matrix(
    start_row: &str,
    end_row: &str,
    start_col: &str,
    end_col: &str,
    spreadsheet: &Spreadsheet,
) -> (rows: Vec<Vec<Value>>)
    requires
        corners_readable(start_col@, start_row@, end_col@, end_row@),
    ensures
        row_views(rows@) == rows_at(
            spreadsheet@.cells,
            grid_rows(
                row_number(start_row@),
                row_number(end_row@) + 1,
                col_number(start_col@),
                col_number(end_col@) + 1,
            ),
        ),
{
    proof {
        lemma_col_number_positive(start_col@);
    }
    let first_row: u32 = parse_row(start_row).unwrap();
    let last_row: u32 = parse_row(end_row).unwrap();
    let first_col: u32 = column_number(start_col).unwrap();
    let last_col: u32 = column_number(end_col).unwrap();
    let mut rows: Vec<Vec<Value>> = Vec::new();
    let mut row: u64 = first_row as u64;
    let ghost cells = spreadsheet@.cells;
    assert(row_views(rows@) =~= rows_at(
        cells,
        grid_rows(first_row as nat, row as nat, first_col as nat, (last_col + 1) as nat),
    ));
    while row <= last_row as u64
        invariant
            first_col >= 1,
            first_row <= row,
            row <= last_row + 1 || (last_row < first_row && row == first_row),
            cells == spreadsheet@.cells,
            row_views(rows@) == rows_at(
                cells,
                grid_rows(first_row as nat, row as nat, first_col as nat, (last_col + 1) as nat),
            ),
        decreases last_row + 1 - row,
    {
        let ghost before = row_views(rows@);
        let names: Vec<String> = row_names(row as u32, first_col, last_col);
        let values: Vec<Value> = read_cells(spreadsheet, &names);
        rows.push(values);
        assert(row_views(rows@) =~= before.push(values_at(cells, texts(names@))));
        assert(row_views(rows@) =~= rows_at(
            cells,
            grid_rows(
                first_row as nat,
                (row + 1) as nat,
                first_col as nat,
                (last_col + 1) as nat,
            ),
        ));
        row = row + 1;
    }
    assert(last_row < first_row ==> grid_rows(
        first_row as nat,
        (last_row + 1) as nat,
        first_col as nat,
        (last_col + 1) as nat,
    ) =~= grid_rows(first_row as nat, row as nat, first_col as nat, (last_col + 1) as nat));
    rows
}

/// The argument that a variable token is bound to.
pub fn argument_of(spreadsheet: &Spreadsheet, token: &str) -> (argument: Argument)
    requires
        is_variable_token(token@),
        in_bounds(token@),
    ensures
        argument@ == argument_for(spreadsheet@.cells, token@),
{
    proof {
        if first_underscore(token@) < token@.len() {
            lemma_range_shape(token@);
            lemma_cell_name_shape(first_part(token@));
            lemma_cell_name_shape(second_part(token@));
        }
    }
    match categorize_variable(token) {
        VariableType::Scalar => Argument::Value(spreadsheet.get_cell_val(token)),
        VariableType::VerticalVector(start_col, start_row, end_row) => Argument::Vector(
            create_cell_vec(start_row, end_row, start_col, start_col, spreadsheet),
        ),
        VariableType::HorizontalVector(start_row, start_col, end_col) => Argument::Vector(
            create_cell_vec(start_row, start_row, start_col, end_col, spreadsheet),
        ),
        VariableType::Matrix(from, to) => Argument::Matrix(
            create_cell_matrix(from.1, to.1, from.0, to.0, spreadsheet),
        ),
    }
}

/// The bindings that an expression with the given variables is evaluated
/// on: each variable with its argument, in the order of the variables.
pub fn variable_map_for_runner(spreadsheet: &Spreadsheet, variables: &Vec<String>) -> (bindings:
    Vec<(String, Argument)>)
    requires
        all_variable_tokens(texts(variables@)),
        all_in_bounds(texts(variables@)),
    ensures
        binding_views(bindings@) == bindings_for(spreadsheet@.cells, texts(variables@)),
{
    let mut bindings: Vec<(String, Argument)> = Vec::new();
    let mut i: usize = 0;
    while i < variables.len()
        invariant
            0 <= i <= variables.len(),
            all_variable_tokens(texts(variables@)),
            all_in_bounds(texts(variables@)),
            bindings@.len() == i,
            forall|j: int|
                0 <= j < i ==> (#[trigger] bindings@[j]).0@ == variables@[j]@ && bindings@[j].1@
                    == argument_for(spreadsheet@.cells, variables@[j]@),
        decreases variables.len() - i,
    {
        assert(texts(variables@)[i as int] == variables@[i as int]@);
        let argument: Argument = argument_of(spreadsheet, variables[i].as_str());
        bindings.push((variables[i].clone(), argument));
        i = i + 1;
    }
    assert(binding_views(bindings@) =~= bindings_for(spreadsheet@.cells, texts(variables@)));
    bindings
}

/// Every character of a cell name is an upper-case letter or a digit.
pub proof fn lemma_cell_name_chars(s: Seq<char>)
    requires
        is_cell_name(s),
    ensures
        forall|j: int| 0 <= j < s.len() ==> is_upper(#[trigger] s[j]) || is_digit(s[j]),
{
    let k = choose|k: int| is_cell_name_at(s, k);
    assert forall|j: int| 0 <= j < s.len() implies is_upper(#[trigger] s[j]) || is_digit(
        s[j],
    ) by {
        if j < k {
            assert(s.subrange(0, k)[j] == s[j]);
        } else {
            assert(s.subrange(k, s.len() as int)[j - k] == s[j]);
        }
    }
}

/// A range from a cell to the same cell is a vertical vector that covers
/// one cell: the one in the column and the row that the name gives.
pub proof fn lemma_single_cell_range(name: Seq<char>)
    requires
        is_cell_name(name),
    ensures
        is_variable_token(name + seq!['_'] + name),
        classify(name + seq!['_'] + name) is VerticalVector,
        covered(name + seq!['_'] + name) == seq![
            cell_name(col_number(split_cell(name).0), row_number(split_cell(name).1)),
        ],
{
    let token = name + seq!['_'] + name;
    let n = name.len() as int;
    lemma_cell_name_chars(name);
    assert(token.subrange(0, n) =~= name);
    assert(token.subrange(n + 1, token.len() as int) =~= name);
    assert(token[n] == '_');
    assert(is_range_at(token, n));
    assert forall|j: int| 0 <= j < n implies #[trigger] token[j] != '_' by {
        assert(token[j] == name[j]);
    }
    lemma_first_underscore(token, n);
    lemma_range_shape(token);
    lemma_cell_name_shape(name);
    assert(first_part(token) == name);
    assert(second_part(token) == name);
    let c = col_number(split_cell(name).0);
    let r = row_number(split_cell(name).1);
    assert(row_cells(r, c, c) =~= Seq::<Seq<char>>::empty());
    assert(row_cells(r, c, c + 1) =~= seq![cell_name(c, r)]);
    assert(grid_cells(r, r, c, c + 1) =~= Seq::<Seq<char>>::empty());
    assert(grid_cells(r, r + 1, c, c + 1) =~= seq![cell_name(c, r)]);
}

} // verus!
