//! Column labels and row numbers: what a cell name's two halves stand for,
//! and how a cell's name is written from its column and row.

use vstd::prelude::*;
use vstd::string::*;
use crate::utils::{all_digits, all_upper, is_digit, is_upper};

verus! {

/// The place of an upper-case letter in the alphabet, `A` being 1.
pub open spec fn letter_rank(c: char) -> nat {
    (c as nat - 'A' as nat + 1) as nat
}

/// The letter whose place in the alphabet is `rank`, for `rank` in 1..=26.
pub open spec fn rank_letter(rank: nat) -> char {
    (('A' as nat + rank - 1) as u8) as char
}

/// The number of the column that `label` names, in bijective base 26:
/// `A` is 1, `Z` is 26, `AA` is 27.
pub open spec fn col_number(label: Seq<char>) -> nat
    decreases label.len(),
{
    if label.len() == 0 {
        0
    } else {
        col_number(label.drop_last()) * 26 + letter_rank(label.last())
    }
}

/// The label of column `n`, the inverse of `col_number`; column 0 has the
/// empty label.
pub open spec fn col_label(n: nat) -> Seq<char>
    decreases n,
{
    if n == 0 {
        Seq::empty()
    } else {
        col_label(((n - 1) / 26) as nat).push(rank_letter(((n - 1) % 26 + 1) as nat))
    }
}

/// The value of a decimal digit.
pub open spec fn digit_value(c: char) -> nat {
    (c as nat - '0' as nat) as nat
}

/// The character of a decimal digit, for `d` in 0..=9.
pub open spec fn digit_char(d: nat) -> char {
    (('0' as nat + d) as u8) as char
}

/// The number that the decimal digits `digits` write.
pub open spec fn row_number(digits: Seq<char>) -> nat
    decreases digits.len(),
{
    if digits.len() == 0 {
        0
    } else {
        row_number(digits.drop_last()) * 10 + digit_value(digits.last())
    }
}

/// `n` in decimal, without leading zeros.
pub open spec fn decimal(n: nat) -> Seq<char>
    decreases n,
{
    if n < 10 {
        seq![digit_char(n)]
    } else {
        decimal(n / 10).push(digit_char(n % 10))
    }
}

/// The name of the cell in column `col` (1-based) and row `row`.
pub open spec fn cell_name(col: nat, row: nat) -> Seq<char> {
    col_label(col) + decimal(row)
}

/// A prefix of a digit string writes no larger a number than the string.
pub proof fn lemma_row_number_prefix(digits: Seq<char>, k: int)
    requires
        0 <= k <= digits.len(),
    ensures
        row_number(digits.subrange(0, k)) <= row_number(digits),
    decreases digits.len() - k,
{
    if k == digits.len() {
        assert(digits.subrange(0, k) =~= digits);
    } else {
        lemma_row_number_prefix(digits, k + 1);
        assert(digits.subrange(0, k + 1).drop_last() =~= digits.subrange(0, k));
    }
}

/// A prefix of a column label names no larger a column than the label.
pub proof fn lemma_col_number_prefix(label: Seq<char>, k: int)
    requires
        0 <= k <= label.len(),
    ensures
        col_number(label.subrange(0, k)) <= col_number(label),
    decreases label.len() - k,
{
    if k == label.len() {
        assert(label.subrange(0, k) =~= label);
    } else {
        lemma_col_number_prefix(label, k + 1);
        assert(label.subrange(0, k + 1).drop_last() =~= label.subrange(0, k));
    }
}

/// Reads a row number: the value of the digits, if there are digits and
/// nothing else, and the value fits in 32 bits.
pub fn parse_row(digits: &str) -> (row: Option<u32>)
    ensures
        row == (if digits@.len() > 0 && all_digits(digits@) && row_number(digits@) <= u32::MAX {
            Some(row_number(digits@) as u32)
        } else {
            None
        }),
{
    let n: usize = digits.unicode_len();
    if n == 0 {
        return None;
    }
    let mut value: u64 = 0;
    let mut i: usize = 0;
    assert(digits@.subrange(0, 0) =~= Seq::<char>::empty());
    while i < n
        invariant
            n == digits@.len(),
            0 <= i <= n,
            all_digits(digits@.subrange(0, i as int)),
            value == row_number(digits@.subrange(0, i as int)),
            value <= u32::MAX,
        decreases n - i,
    {
        let c: char = digits.get_char(i);
        if !('0' <= c && c <= '9') {
            return None;
        }
        let d: u64 = (c as u32 - '0' as u32) as u64;
        proof {
            assert(digits@.subrange(0, i + 1).drop_last() =~= digits@.subrange(0, i as int));
            assert(digits@.subrange(0, i + 1).last() == c);
            assert forall|j: int| 0 <= j < i + 1 implies is_digit(
                #[trigger] digits@.subrange(0, i + 1)[j],
            ) by {
                if j < i {
                    assert(digits@.subrange(0, i as int)[j] == digits@[j]);
                }
            }
        }
        value = value * 10 + d;
        if value > 0xFFFF_FFFF {
            proof {
                if all_digits(digits@) {
                    lemma_row_number_prefix(digits@, i + 1);
                }
            }
            return None;
        }
        i = i + 1;
    }
    assert(digits@.subrange(0, n as int) =~= digits@);
    Some(value as u32)
}

/// Tells whether `label` is made of upper-case letters, one at least, and
/// names a column whose number fits in 32 bits.
pub fn column_fits(label: &str) -> (fits: bool)
    ensures
        fits == (label@.len() > 0 && all_upper(label@) && col_number(label@) <= u32::MAX),
{
    let n: usize = label.unicode_len();
    if n == 0 {
        return false;
    }
    let mut value: u64 = 0;
    let mut i: usize = 0;
    assert(label@.subrange(0, 0) =~= Seq::<char>::empty());
    while i < n
        invariant
            n == label@.len(),
            0 <= i <= n,
            all_upper(label@.subrange(0, i as int)),
            value == col_number(label@.subrange(0, i as int)),
            value <= u32::MAX,
        decreases n - i,
    {
        let c: char = label.get_char(i);
        if !('A' <= c && c <= 'Z') {
            return false;
        }
        let d: u64 = (c as u32 - 'A' as u32 + 1) as u64;
        proof {
            assert(label@.subrange(0, i + 1).drop_last() =~= label@.subrange(0, i as int));
            assert(label@.subrange(0, i + 1).last() == c);
            assert forall|j: int| 0 <= j < i + 1 implies is_upper(
                #[trigger] label@.subrange(0, i + 1)[j],
            ) by {
                if j < i {
                    assert(label@.subrange(0, i as int)[j] == label@[j]);
                }
            }
        }
        value = value * 26 + d;
        if value > 0xFFFF_FFFF {
            proof {
                if all_upper(label@) {
                    lemma_col_number_prefix(label@, i + 1);
                }
            }
            return false;
        }
        i = i + 1;
    }
    assert(label@.subrange(0, n as int) =~= label@);
    true
}

/// `rsheet_lib::cells::column_name_to_number`: the zero-based index of the
/// column that a label of upper-case letters names, one less than its
/// number. Left out are the empty label and the labels whose number does
/// not fit in 32 bits, on which the function's arithmetic overflows.
#[verifier::external_body]
fn name_to_index(label: &str) -> (index: u32)
    requires
        label@.len() > 0,
        all_upper(label@),
        col_number(label@) <= u32::MAX,
    ensures
        index + 1 == col_number(label@),
{
    rsheet_lib::cells::column_name_to_number(label)
}

/// `rsheet_lib::cells::column_number_to_name`: the label of the column with
/// the zero-based index `index`. Left out is the largest index, on which
/// the function's first addition overflows.
#[verifier::external_body]
fn index_to_name(index: u32) -> (label: String)
    requires
        index < u32::MAX,
    ensures
        label@ == col_label((index + 1) as nat),
{
    rsheet_lib::cells::column_number_to_name(index)
}

/// `format!` with a string and an integer: the string followed by the
/// integer in decimal.
#[verifier::external_body]
fn join_label_and_row(label: &str, row: u32) -> (name: String)
    ensures
        name@ == label@ + decimal(row as nat),
{
    format!("{}{}", label, row)
}

/// The number of the column that `label` names, if the label is made of
/// upper-case letters, one at least, and the number fits in 32 bits.
pub fn column_number(label: &str) -> (col: Option<u32>)
    ensures
        col == (if label@.len() > 0 && all_upper(label@) && col_number(label@) <= u32::MAX {
            Some(col_number(label@) as u32)
        } else {
            None
        }),
{
    if column_fits(label) {
        let index: u32 = name_to_index(label);
        Some(index + 1)
    } else {
        None
    }
}

/// Writes the name of the cell in column `col` (1-based) and row `row`.
pub fn make_cell_name(col: u32, row: u32) -> (name: String)
    requires
        col >= 1,
    ensures
        name@ == cell_name(col as nat, row as nat),
{
    let label: String = index_to_name(col - 1);
    join_label_and_row(label.as_str(), row)
}

} // verus!
