use rsheets::spreadsheet::{Cell, Spreadsheet};
use rsheets::utils::{is_valid_cell, str_equal};
use rsheets::values::Value;

#[test]
fn cell_names_are_letters_then_digits() {
    assert!(is_valid_cell("A1"));
    assert!(is_valid_cell("AA27"));
    assert!(is_valid_cell("ZZZ000"));
    assert!(!is_valid_cell(""));
    assert!(!is_valid_cell("A"));
    assert!(!is_valid_cell("1"));
    assert!(!is_valid_cell("1A"));
    assert!(!is_valid_cell("a1"));
    assert!(!is_valid_cell("A1 "));
    assert!(!is_valid_cell("A1\n"));
    assert!(!is_valid_cell("A1B"));
    assert!(!is_valid_cell("A1_B2"));
    assert!(!is_valid_cell("A1_B2_C3"));
}

#[test]
fn unwritten_cell_reads_as_empty() {
    let sheet = Spreadsheet::new();
    assert_eq!(sheet.get_cell_val("A1"), Value::Empty);
    assert_eq!(sheet.get_cell_expr("A1"), None);
    assert_eq!(sheet.get_cell_timestamp("A1"), 0);
    assert_eq!(sheet.get_dependencies("A1"), None);
}

#[test]
fn set_cell_replaces_the_whole_record() {
    let mut sheet = Spreadsheet::new();
    sheet.set_cell("A1", Value::Int(10), Some("A2 + 10".to_string()), 3);
    assert_eq!(sheet.get_cell_val("A1"), Value::Int(10));
    assert_eq!(sheet.get_cell_expr("A1"), Some("A2 + 10".to_string()));
    assert_eq!(sheet.get_cell_timestamp("A1"), 3);
    assert_eq!(sheet.get_cell_val("A2"), Value::Empty);
    sheet.set_cell("A1", Value::String("x".to_string()), None, 4);
    assert_eq!(sheet.get_cell_val("A1"), Value::String("x".to_string()));
    assert_eq!(sheet.get_cell_expr("A1"), None);
    assert_eq!(sheet.get_cell_timestamp("A1"), 4);
}

#[test]
fn later_stamp_wins_whatever_the_order() {
    let mut sheet = Spreadsheet::new();
    sheet.set_cell("A1", Value::Int(5), None, 10);
    sheet.set_cell("A1", Value::Int(7), None, 11);
    assert_eq!(sheet.get_cell_val("A1"), Value::Int(7));
    assert_eq!(sheet.get_cell_timestamp("A1"), 11);

    let mut sheet = Spreadsheet::new();
    sheet.set_cell("A1", Value::Int(7), None, 11);
    sheet.set_cell("A1", Value::Int(5), Some("B1".to_string()), 10);
    assert_eq!(sheet.get_cell_val("A1"), Value::Int(7));
    assert_eq!(sheet.get_cell_expr("A1"), None);
    assert_eq!(sheet.get_cell_timestamp("A1"), 11);
}

#[test]
fn equal_stamps_let_the_later_write_win() {
    let mut sheet = Spreadsheet::new();
    sheet.set_cell("A1", Value::Int(5), None, 10);
    sheet.set_cell("A1", Value::Int(7), None, 10);
    assert_eq!(sheet.get_cell_val("A1"), Value::Int(7));
    sheet.set_cell("B1", Value::Int(1), None, 0);
    assert_eq!(sheet.get_cell_val("B1"), Value::Int(1));
}

#[test]
fn time_stamps_never_go_back() {
    let mut sheet = Spreadsheet::new();
    let stamps: Vec<u64> = vec![4, 2, 9, 9, 0, 7, 12, 1];
    let mut last: u64 = 0;
    for stamp in stamps {
        sheet.set_cell("A1", Value::Int(1), None, stamp);
        let now = sheet.get_cell_timestamp("A1");
        assert!(now >= last);
        assert!(now >= stamp);
        last = now;
    }
    assert_eq!(last, 12);
}

#[test]
fn edges_keep_their_order_and_their_duplicates() {
    let mut sheet = Spreadsheet::new();
    sheet.add_dependency("A1", "B1");
    assert_eq!(sheet.get_dependencies("A1"), Some(vec!["B1".to_string()]));
    sheet.add_dependency("A1", "C1");
    sheet.add_dependency("A1", "B1");
    assert_eq!(
        sheet.get_dependencies("A1"),
        Some(vec!["B1".to_string(), "C1".to_string(), "B1".to_string()])
    );
    assert_eq!(sheet.get_dependencies("B1"), None);
}

#[test]
fn remove_dependency_takes_every_occurrence() {
    let mut sheet = Spreadsheet::new();
    sheet.add_dependency("A1", "B1");
    sheet.add_dependency("A1", "C1");
    sheet.add_dependency("A1", "B1");
    sheet.add_dependency("A1", "D1");
    sheet.remove_dependency("A1", "B1");
    assert_eq!(
        sheet.get_dependencies("A1"),
        Some(vec!["C1".to_string(), "D1".to_string()])
    );
    sheet.remove_dependency("A1", "C1");
    sheet.remove_dependency("A1", "D1");
    assert_eq!(sheet.get_dependencies("A1"), Some(Vec::<String>::new()));
    sheet.remove_dependency("Z9", "B1");
    assert_eq!(sheet.get_dependencies("Z9"), None);
}

#[test]
fn new_cell_holds_its_value_only() {
    let cell = Cell::new(Value::Int(3));
    assert_eq!(cell.value, Value::Int(3));
    assert_eq!(cell.expression, None);
    assert_eq!(cell.timestamp, 0);
    let cell = Cell::default();
    assert_eq!(cell.value, Value::Empty);
    assert_eq!(cell.expression, None);
    assert_eq!(cell.timestamp, 0);
    let sheet = Spreadsheet::default();
    assert_eq!(sheet.get_cell_val("A1"), Value::Empty);
}

#[test]
fn str_equal_compares_texts() {
    assert!(str_equal("A1", "A1"));
    assert!(!str_equal("A1", "A2"));
    assert!(!str_equal("A1", "A"));
    assert!(str_equal("", ""));
}

#[test]
fn values_tell_errors_apart() {
    assert!(Value::Error("e".to_string()).is_error());
    assert!(!Value::String("e".to_string()).is_error());
    assert!(!Value::Empty.is_error());
    assert!(!Value::Int(0).is_error());
}
