//! The grammar of cell names, and the comparison of strings.

use vstd::prelude::*;

verus! {

/// An upper-case ASCII letter.
pub open spec fn is_upper(c: char) -> bool {
    'A' <= c && c <= 'Z'
}

/// An ASCII digit.
pub open spec fn is_digit(c: char) -> bool {
    '0' <= c && c <= '9'
}

/// Every character of `s` is an upper-case ASCII letter.
pub open spec fn all_upper(s: Seq<char>) -> bool {
    forall|i: int| 0 <= i < s.len() ==> is_upper(#[trigger] s[i])
}

/// Every character of `s` is an ASCII digit.
pub open spec fn all_digits(s: Seq<char>) -> bool {
    forall|i: int| 0 <= i < s.len() ==> is_digit(#[trigger] s[i])
}

/// `s` is one or more upper-case letters followed by one or more digits,
/// the letters ending at index `k`.
pub open spec fn is_cell_name_at(s: Seq<char>, k: int) -> bool {
    &&& 0 < k < s.len()
    &&& all_upper(s.subrange(0, k))
    &&& all_digits(s.subrange(k, s.len() as int))
}

/// `s` is a cell name: a column label of upper-case letters followed by a
/// row number in decimal digits, such as `A1` or `AA27`.
pub open spec fn is_cell_name(s: Seq<char>) -> bool {
    exists|k: int| is_cell_name_at(s, k)
}

/// The regular expression that accepts exactly the cell names.
pub open spec fn cell_pattern() -> Seq<char> {
    "^[A-Z]+[0-9]+$"@
}

/// Compiles `pattern` with `regex::Regex::new` and asks `Regex::is_match`
/// whether `text` matches it. The contract is stated for the cell-name
/// pattern only: anchored at both ends, it matches the strings made of one
/// or more of `A`..`Z` followed by one or more of `0`..`9`, and nothing else.
#[verifier::external_body]
fn pattern_matches(pattern: &str, text: &str) -> (hit: bool)
    requires
        pattern@ == cell_pattern(),
    ensures
        hit == is_cell_name(text@),
{
    match regex::Regex::new(pattern) {
        Ok(re) => re.is_match(text),
        Err(_) => false,
    }
}

/// Whether `cell_name` names a cell.
pub fn is_valid_cell(cell_name: &str) -> (valid: bool)
    ensures
        valid == is_cell_name(cell_name@),
{
    pattern_matches("^[A-Z]+[0-9]+$", cell_name)
}

/// Whether two strings hold the same text.
pub fn str_equal(a: &str, b: &str) -> (same: bool)
    ensures
        same == (a@ == b@),
{
    let left: String = a.to_owned();
    let right: String = b.to_owned();
    left == right
}

} // verus!
