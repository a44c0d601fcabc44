use rsheets::commands::dependencies::{
    add_dependencies, add_edges_from, add_variable_edges, all_fit, handle_circular_dependency,
    list_contains, remove_all_dependencies, remove_edges_from, remove_variable_edges,
    update_dependency,
};
use rsheets::commands::get::get;
use rsheets::commands::set::{
    covered_cells, find_error, join_words, set_checked, set_with_variables,
};
use rsheets::spreadsheet::Spreadsheet;
use rsheets::values::{Reply, Value};

fn value_of(sheet: &Spreadsheet, cell: &str) -> Value {
    match get(sheet, vec!["get", cell]) {
        Ok((name, value)) => {
            assert_eq!(name, cell);
            value
        }
        Err((_, reply)) => panic!("get {} gave {:?}", cell, reply),
    }
}

fn error_of(sheet: &Spreadsheet, cell: &str) -> String {
    match get(sheet, vec!["get", cell]) {
        Ok((_, value)) => panic!("get {} gave {:?}", cell, value),
        Err((name, Reply::Error(message))) => {
            assert_eq!(name, cell);
            message
        }
        Err((_, reply)) => panic!("get {} gave {:?}", cell, reply),
    }
}

#[test]
fn scalar_propagation() {
    let mut sheet = Spreadsheet::new();
    assert_eq!(rsheets::commands::set::set(&mut sheet, vec!["set", "A1", "5"], 1), Ok(()));
    assert_eq!(
        get(&sheet, vec!["get", "A1"]),
        Ok(("A1".to_string(), Value::Int(5)))
    );
    assert_eq!(rsheets::commands::set::set(&mut sheet, vec!["set", "B1", "A1"], 2), Ok(()));
    assert_eq!(
        get(&sheet, vec!["get", "B1"]),
        Ok(("B1".to_string(), Value::Int(5)))
    );
    assert_eq!(rsheets::commands::set::set(&mut sheet, vec!["set", "A1", "7"], 3), Ok(()));
    assert_eq!(
        get(&sheet, vec!["get", "B1"]),
        Ok(("B1".to_string(), Value::Int(7)))
    );
}

#[test]
fn range_sum() {
    let mut sheet = Spreadsheet::new();
    assert_eq!(rsheets::commands::set::set(&mut sheet, vec!["set", "A1", "1"], 1), Ok(()));
    assert_eq!(rsheets::commands::set::set(&mut sheet, vec!["set", "A2", "2"], 1), Ok(()));
    assert_eq!(rsheets::commands::set::set(&mut sheet, vec!["set", "A3", "3"], 1), Ok(()));
    assert_eq!(rsheets::commands::set::set(&mut sheet, vec!["set", "B1", "sum(A1_A3)"], 1), Ok(()));
    assert_eq!(value_of(&sheet, "B1"), Value::Int(6));
    assert_eq!(rsheets::commands::set::set(&mut sheet, vec!["set", "A2", "20"], 2), Ok(()));
    assert_eq!(value_of(&sheet, "B1"), Value::Int(24));
}

#[test]
fn matrix_sum_follows_every_cell() {
    let mut sheet = Spreadsheet::new();
    assert_eq!(rsheets::commands::set::set(&mut sheet, vec!["set", "A1", "1"], 1), Ok(()));
    assert_eq!(rsheets::commands::set::set(&mut sheet, vec!["set", "B1", "0"], 1), Ok(()));
    assert_eq!(rsheets::commands::set::set(&mut sheet, vec!["set", "A2", "0"], 1), Ok(()));
    assert_eq!(rsheets::commands::set::set(&mut sheet, vec!["set", "B2", "4"], 1), Ok(()));
    assert_eq!(rsheets::commands::set::set(&mut sheet, vec!["set", "C1", "sum(A1_B2)"], 1), Ok(()));
    assert_eq!(value_of(&sheet, "C1"), Value::Int(5));
    for parent in ["A1", "B1", "A2", "B2"] {
        assert_eq!(
            sheet.get_dependencies(parent),
            Some(vec!["C1".to_string()])
        );
    }
    assert_eq!(rsheets::commands::set::set(&mut sheet, vec!["set", "B1", "10"], 2), Ok(()));
    assert_eq!(value_of(&sheet, "C1"), Value::Int(15));
}

#[test]
fn self_cycle() {
    let mut sheet = Spreadsheet::new();
    assert_eq!(rsheets::commands::set::set(&mut sheet, vec!["set", "A1", "A1"], 1), Ok(()));
    assert_eq!(
        sheet.get_cell_expr("A1"),
        Some("Circular Dependency".to_string())
    );
    assert_eq!(
        get(&sheet, vec!["get", "A1"]),
        Err((
            "A1".to_string(),
            Reply::Error("Cell A1 is involved in a circular dependency".to_string())
        ))
    );
}

#[test]
fn cycle_found_at_a_cell_without_own_edge_is_self_referential() {
    let mut sheet = Spreadsheet::new();
    sheet.add_dependency("A1", "B1");
    handle_circular_dependency(&mut sheet, "A1", 4);
    assert_eq!(
        sheet.get_cell_val("A1"),
        Value::Error("Cell A1 is self-referential".to_string())
    );
    assert_eq!(
        sheet.get_cell_expr("A1"),
        Some("Circular Dependency".to_string())
    );
    assert_eq!(sheet.get_cell_timestamp("A1"), 4);
    assert_eq!(
        sheet.get_cell_val("B1"),
        Value::Error("Cell B1 is involved in a circular dependency".to_string())
    );
    assert_eq!(
        sheet.get_cell_expr("B1"),
        Some("Circular Dependency".to_string())
    );
    assert_eq!(error_of(&sheet, "A1"), "Cell A1 is self-referential");
}

#[test]
fn mutual_cycle() {
    let mut sheet = Spreadsheet::new();
    assert_eq!(rsheets::commands::set::set(&mut sheet, vec!["set", "A1", "B1"], 1), Ok(()));
    assert_eq!(rsheets::commands::set::set(&mut sheet, vec!["set", "B1", "A1"], 2), Ok(()));
    assert_eq!(
        error_of(&sheet, "A1"),
        "Cell A1 is involved in a circular dependency"
    );
    assert_eq!(error_of(&sheet, "B1"), "Cell B1 is self-referential");
}

#[test]
fn long_cycle_ends() {
    let mut sheet = Spreadsheet::new();
    let names: Vec<String> = (1..=60).map(|i| format!("A{}", i)).collect();
    for i in 0..names.len() {
        let next = &names[(i + 1) % names.len()];
        assert_eq!(
            rsheets::commands::set::set(&mut sheet, vec!["set", names[i].as_str(), next.as_str()], 1),
            Ok(())
        );
    }
    let last = names[names.len() - 1].as_str();
    assert!(matches!(get(&sheet, vec!["get", last]), Err(_)));
}

#[test]
fn error_propagation() {
    let mut sheet = Spreadsheet::new();
    assert_eq!(rsheets::commands::set::set(&mut sheet, vec!["set", "A1", "A1"], 1), Ok(()));
    assert_eq!(rsheets::commands::set::set(&mut sheet, vec!["set", "B1", "A1", "+", "1"], 2), Ok(()));
    assert_eq!(sheet.get_cell_expr("B1"), Some("Dependent".to_string()));
    assert_eq!(
        error_of(&sheet, "B1"),
        "A dependent cell contained an error: Error: \"Cell A1 is involved in a circular dependency\""
    );
    assert_eq!(sheet.get_dependencies("A1"), Some(vec!["A1".to_string()]));
}

#[test]
fn error_in_a_range_cuts_the_set_short() {
    let mut sheet = Spreadsheet::new();
    sheet.set_cell("A2", Value::Error("boom".to_string()), None, 0);
    assert_eq!(rsheets::commands::set::set(&mut sheet, vec!["set", "B1", "sum(A1_A3)"], 1), Ok(()));
    assert_eq!(sheet.get_cell_val("B1"), Value::Error("boom".to_string()));
    assert_eq!(sheet.get_cell_expr("B1"), Some("Dependent".to_string()));
    assert_eq!(sheet.get_dependencies("A1"), None);
    assert_eq!(sheet.get_dependencies("A2"), None);
    assert_eq!(
        error_of(&sheet, "B1"),
        "A dependent cell contained an error: Error: \"boom\""
    );
}

#[test]
fn evaluator_error_is_stored_not_raised() {
    let mut sheet = Spreadsheet::new();
    assert_eq!(rsheets::commands::set::set(&mut sheet, vec!["set", "A1", "1", "+"], 1), Ok(()));
    assert!(matches!(sheet.get_cell_val("A1"), Value::Error(_)));
    assert_eq!(sheet.get_cell_expr("A1"), None);
    assert!(matches!(
        get(&sheet, vec!["get", "A1"]),
        Ok((_, Value::Error(_)))
    ));
}

#[test]
fn timestamp_reconciliation() {
    let mut sheet = Spreadsheet::new();
    assert_eq!(rsheets::commands::set::set(&mut sheet, vec!["set", "A1", "5"], 10), Ok(()));
    assert_eq!(rsheets::commands::set::set(&mut sheet, vec!["set", "A1", "7"], 11), Ok(()));
    assert_eq!(value_of(&sheet, "A1"), Value::Int(7));

    let mut sheet = Spreadsheet::new();
    assert_eq!(rsheets::commands::set::set(&mut sheet, vec!["set", "A1", "7"], 11), Ok(()));
    assert_eq!(rsheets::commands::set::set(&mut sheet, vec!["set", "A1", "5"], 10), Ok(()));
    assert_eq!(value_of(&sheet, "A1"), Value::Int(7));
    assert_eq!(sheet.get_cell_timestamp("A1"), 11);
}

#[test]
fn get_on_an_unwritten_cell_is_empty() {
    let sheet = Spreadsheet::new();
    assert_eq!(
        get(&sheet, vec!["get", "Q9"]),
        Ok(("Q9".to_string(), Value::Empty))
    );
}

#[test]
fn get_rejects_bad_requests() {
    let sheet = Spreadsheet::new();
    assert_eq!(
        get(&sheet, vec!["get"]),
        Err((
            "".to_string(),
            Reply::Error("Invalid number of arguments for get".to_string())
        ))
    );
    assert_eq!(
        get(&sheet, vec!["get", "a1"]),
        Err(("a1".to_string(), Reply::Error("Invalid cell".to_string())))
    );
    assert_eq!(
        get(&sheet, vec!["get", "A1_B2"]),
        Err(("A1_B2".to_string(), Reply::Error("Invalid cell".to_string())))
    );
}

#[test]
fn get_shows_the_value_of_a_dependent_cell() {
    let mut sheet = Spreadsheet::new();
    sheet.set_cell("A1", Value::Int(-12), Some("Dependent".to_string()), 0);
    assert_eq!(
        error_of(&sheet, "A1"),
        "A dependent cell contained an error: -12"
    );
    sheet.set_cell("A2", Value::String("hi".to_string()), Some("Dependent".to_string()), 0);
    assert_eq!(
        error_of(&sheet, "A2"),
        "A dependent cell contained an error: \"hi\""
    );
    sheet.set_cell("A3", Value::Empty, Some("Dependent".to_string()), 0);
    assert_eq!(
        error_of(&sheet, "A3"),
        "A dependent cell contained an error: None"
    );
    sheet.set_cell("A4", Value::Int(i64::MIN), Some("Dependent".to_string()), 0);
    assert_eq!(
        error_of(&sheet, "A4"),
        "A dependent cell contained an error: -9223372036854775808"
    );
    sheet.set_cell("A5", Value::Int(3), Some("Circular Dependency".to_string()), 0);
    assert_eq!(value_of(&sheet, "A5"), Value::Int(3));
}

#[test]
fn set_rejects_bad_requests() {
    let mut sheet = Spreadsheet::new();
    assert_eq!(
        rsheets::commands::set::set(&mut sheet, vec!["set", "A1"], 1),
        Err(Reply::Error(
            "Invalid number of arguments supplied for set".to_string()
        ))
    );
    assert_eq!(
        rsheets::commands::set::set(&mut sheet, vec!["set"], 1),
        Err(Reply::Error(
            "Invalid number of arguments supplied for set".to_string()
        ))
    );
    assert_eq!(
        rsheets::commands::set::set(&mut sheet, vec!["set", "1A", "5"], 1),
        Err(Reply::Error("Invalid cell provided.".to_string()))
    );
    assert_eq!(
        rsheets::commands::set::set(&mut sheet, vec!["set", "A1_A2", "5"], 1),
        Err(Reply::Error("Invalid cell provided.".to_string()))
    );
    assert_eq!(sheet.get_cell_val("A1"), Value::Empty);
    assert_eq!(sheet.get_cell_timestamp("A1"), 0);
}

#[test]
fn same_expression_twice_keeps_parents_and_value() {
    let mut sheet = Spreadsheet::new();
    assert_eq!(rsheets::commands::set::set(&mut sheet, vec!["set", "A1", "4"], 1), Ok(()));
    assert_eq!(rsheets::commands::set::set(&mut sheet, vec!["set", "B1", "A1", "*", "2"], 2), Ok(()));
    assert_eq!(sheet.get_dependencies("A1"), Some(vec!["B1".to_string()]));
    assert_eq!(rsheets::commands::set::set(&mut sheet, vec!["set", "B1", "A1", "*", "2"], 3), Ok(()));
    let children = sheet.get_dependencies("A1").unwrap();
    assert!(children.iter().all(|c| c == "B1"));
    assert!(!children.is_empty());
    assert_eq!(sheet.get_dependencies("B1"), None);
    assert_eq!(value_of(&sheet, "B1"), Value::Int(8));
    assert_eq!(sheet.get_cell_expr("B1"), Some("A1 * 2".to_string()));
}

#[test]
fn new_expression_moves_the_edges() {
    let mut sheet = Spreadsheet::new();
    assert_eq!(rsheets::commands::set::set(&mut sheet, vec!["set", "A1", "1"], 1), Ok(()));
    assert_eq!(rsheets::commands::set::set(&mut sheet, vec!["set", "A2", "2"], 1), Ok(()));
    assert_eq!(rsheets::commands::set::set(&mut sheet, vec!["set", "C1", "5"], 1), Ok(()));
    assert_eq!(rsheets::commands::set::set(&mut sheet, vec!["set", "B1", "sum(A1_A2)"], 2), Ok(()));
    assert_eq!(sheet.get_dependencies("A1"), Some(vec!["B1".to_string()]));
    assert_eq!(sheet.get_dependencies("A2"), Some(vec!["B1".to_string()]));
    assert_eq!(rsheets::commands::set::set(&mut sheet, vec!["set", "B1", "C1"], 3), Ok(()));
    assert_eq!(sheet.get_dependencies("A1"), Some(Vec::<String>::new()));
    assert_eq!(sheet.get_dependencies("A2"), Some(Vec::<String>::new()));
    assert_eq!(sheet.get_dependencies("C1"), Some(vec!["B1".to_string()]));
    assert_eq!(value_of(&sheet, "B1"), Value::Int(5));
    assert_eq!(rsheets::commands::set::set(&mut sheet, vec!["set", "A1", "100"], 4), Ok(()));
    assert_eq!(value_of(&sheet, "B1"), Value::Int(5));
    assert_eq!(rsheets::commands::set::set(&mut sheet, vec!["set", "C1", "6"], 5), Ok(()));
    assert_eq!(value_of(&sheet, "B1"), Value::Int(6));
}

#[test]
fn every_expression_is_wired_after_sets() {
    let mut sheet = Spreadsheet::new();
    assert_eq!(rsheets::commands::set::set(&mut sheet, vec!["set", "D1", "sum(A1_B2)", "+", "C3"], 1), Ok(()));
    assert_eq!(sheet.get_cell_expr("D1"), Some("sum(A1_B2) + C3".to_string()));
    for parent in ["A1", "B1", "A2", "B2", "C3"] {
        let children = sheet.get_dependencies(parent).unwrap();
        assert!(children.contains(&"D1".to_string()));
    }
}

#[test]
fn dependent_cell_is_not_driven_again() {
    let mut sheet = Spreadsheet::new();
    sheet.set_cell("A1", Value::Error("bad".to_string()), None, 0);
    assert_eq!(rsheets::commands::set::set(&mut sheet, vec!["set", "B1", "A1"], 1), Ok(()));
    assert_eq!(sheet.get_cell_expr("B1"), Some("Dependent".to_string()));
    assert_eq!(rsheets::commands::set::set(&mut sheet, vec!["set", "A1", "3"], 2), Ok(()));
    assert_eq!(sheet.get_cell_val("B1"), Value::Error("bad".to_string()));
    assert_eq!(sheet.get_cell_expr("B1"), Some("Dependent".to_string()));
}

#[test]
fn diamond_is_recomputed_along_each_path() {
    let mut sheet = Spreadsheet::new();
    assert_eq!(rsheets::commands::set::set(&mut sheet, vec!["set", "A1", "1"], 1), Ok(()));
    assert_eq!(rsheets::commands::set::set(&mut sheet, vec!["set", "B1", "A1", "+", "1"], 1), Ok(()));
    assert_eq!(rsheets::commands::set::set(&mut sheet, vec!["set", "C1", "A1", "+", "2"], 1), Ok(()));
    assert_eq!(rsheets::commands::set::set(&mut sheet, vec!["set", "D1", "B1", "+", "C1"], 1), Ok(()));
    assert_eq!(value_of(&sheet, "D1"), Value::Int(5));
    assert_eq!(rsheets::commands::set::set(&mut sheet, vec!["set", "A1", "10"], 2), Ok(()));
    assert_eq!(value_of(&sheet, "B1"), Value::Int(11));
    assert_eq!(value_of(&sheet, "C1"), Value::Int(12));
    assert_eq!(value_of(&sheet, "D1"), Value::Int(23));
    assert_eq!(sheet.get_cell_timestamp("D1"), 2);
}

#[test]
fn set_checked_refuses_what_cannot_be_expanded() {
    let mut sheet = Spreadsheet::new();
    assert_eq!(
        set_checked(&mut sheet, vec!["set", "B1", "sum(A1_A4294967296)"], 1),
        None
    );
    assert_eq!(sheet.get_cell_val("B1"), Value::Empty);
    assert_eq!(sheet.get_cell_timestamp("B1"), 0);
    sheet.set_cell("A1", Value::Int(3), None, 0);
    sheet.set_cell("A2", Value::Int(4), None, 0);
    assert_eq!(
        set_checked(&mut sheet, vec!["set", "B1", "sum(A1_A2)"], 1),
        Some(Ok(()))
    );
    assert_eq!(sheet.get_cell_val("B1"), Value::Int(7));
    assert_eq!(
        set_checked(&mut sheet, vec!["set", "b1", "sum(A1_A4294967296)"], 1),
        Some(Err(Reply::Error("Invalid cell provided.".to_string())))
    );
    assert_eq!(
        set_checked(&mut sheet, vec!["set", "B1"], 1),
        Some(Err(Reply::Error(
            "Invalid number of arguments supplied for set".to_string()
        )))
    );
}

#[test]
fn set_with_variables_wires_the_given_variables() {
    let mut sheet = Spreadsheet::new();
    sheet.set_cell("A1", Value::Int(2), None, 0);
    sheet.set_cell("A2", Value::Int(5), None, 0);
    let vars = vec!["A1".to_string(), "A1_A2".to_string()];
    set_with_variables(&mut sheet, "B1", "A1 + sum(A1_A2)".to_string(), &vars, 1);
    assert_eq!(sheet.get_cell_val("B1"), Value::Int(9));
    assert_eq!(
        sheet.get_dependencies("A1"),
        Some(vec!["B1".to_string(), "B1".to_string()])
    );
    assert_eq!(sheet.get_dependencies("A2"), Some(vec!["B1".to_string()]));
    let none: Vec<String> = Vec::new();
    set_with_variables(&mut sheet, "C1", "7".to_string(), &none, 1);
    assert_eq!(sheet.get_cell_val("C1"), Value::Int(7));
    assert_eq!(sheet.get_cell_expr("C1"), None);
}

#[test]
fn edge_helpers_add_and_remove_in_order() {
    let mut sheet = Spreadsheet::new();
    add_dependencies(&mut sheet, "A1", "A", "2", "A", "4");
    for parent in ["A2", "A3", "A4"] {
        assert_eq!(sheet.get_dependencies(parent), Some(vec!["A1".to_string()]));
    }
    assert_eq!(sheet.get_dependencies("A5"), None);
    let parents = vec!["A2".to_string(), "A2".to_string(), "B9".to_string()];
    add_edges_from(&mut sheet, &parents, "Z1");
    assert_eq!(
        sheet.get_dependencies("A2"),
        Some(vec!["A1".to_string(), "Z1".to_string(), "Z1".to_string()])
    );
    remove_edges_from(&mut sheet, &parents, "Z1");
    assert_eq!(sheet.get_dependencies("A2"), Some(vec!["A1".to_string()]));
    assert_eq!(sheet.get_dependencies("B9"), Some(Vec::<String>::new()));
    let vars = vec!["C1_D1".to_string(), "E5".to_string()];
    add_variable_edges(&mut sheet, "F1", &vars);
    for parent in ["C1", "D1", "E5"] {
        assert_eq!(sheet.get_dependencies(parent), Some(vec!["F1".to_string()]));
    }
    remove_variable_edges(&mut sheet, "F1", &vars);
    for parent in ["C1", "D1", "E5"] {
        assert_eq!(sheet.get_dependencies(parent), Some(Vec::<String>::new()));
    }
}

#[test]
fn teardown_spares_the_same_expression() {
    let mut sheet = Spreadsheet::new();
    sheet.set_cell("A1", Value::Int(10), Some("A2 + 10".to_string()), 0);
    sheet.add_dependency("A2", "A1");
    remove_all_dependencies(&mut sheet, "A1", &"A2 + 10".to_string());
    assert_eq!(sheet.get_dependencies("A2"), Some(vec!["A1".to_string()]));
    remove_all_dependencies(&mut sheet, "A1", &"A3".to_string());
    assert_eq!(sheet.get_dependencies("A2"), Some(Vec::<String>::new()));
    remove_all_dependencies(&mut sheet, "Q1", &"A3".to_string());
    assert_eq!(sheet.get_dependencies("A2"), Some(Vec::<String>::new()));
}

#[test]
fn update_dependency_recomputes_descendants() {
    let mut sheet = Spreadsheet::new();
    sheet.set_cell("A1", Value::Int(0), None, 0);
    sheet.set_cell("A2", Value::Int(20), Some("A1 + 10".to_string()), 0);
    sheet.set_cell("A3", Value::Int(30), Some("A2 + 10".to_string()), 0);
    sheet.set_cell("A4", Value::Int(40), Some("5".to_string()), 0);
    sheet.add_dependency("A1", "A2");
    sheet.add_dependency("A2", "A3");
    sheet.add_dependency("A1", "A4");
    sheet.add_dependency("A1", "A9");
    let mut path: Vec<String> = Vec::new();
    assert_eq!(update_dependency(&mut sheet, "A1", &mut path, 6), Ok(()));
    assert!(path.is_empty());
    assert_eq!(sheet.get_cell_val("A1"), Value::Int(0));
    assert_eq!(sheet.get_cell_val("A2"), Value::Int(10));
    assert_eq!(sheet.get_cell_val("A3"), Value::Int(20));
    assert_eq!(sheet.get_cell_timestamp("A3"), 6);
    assert_eq!(sheet.get_cell_expr("A3"), Some("A2 + 10".to_string()));
    assert_eq!(sheet.get_cell_val("A4"), Value::Int(5));
    assert_eq!(sheet.get_cell_expr("A4"), None);
    assert_eq!(sheet.get_cell_val("A9"), Value::Empty);
    assert_eq!(sheet.get_cell_timestamp("A9"), 0);
}

#[test]
fn update_dependency_marks_a_cell_on_its_own_path() {
    let mut sheet = Spreadsheet::new();
    sheet.add_dependency("A1", "B1");
    let mut path = vec!["Z1".to_string(), "A1".to_string()];
    assert_eq!(update_dependency(&mut sheet, "A1", &mut path, 2), Ok(()));
    assert_eq!(path, vec!["Z1".to_string(), "A1".to_string()]);
    assert_eq!(
        sheet.get_cell_val("A1"),
        Value::Error("Cell A1 is self-referential".to_string())
    );
    assert_eq!(
        sheet.get_cell_val("B1"),
        Value::Error("Cell B1 is involved in a circular dependency".to_string())
    );
}

#[test]
fn stale_update_leaves_newer_cells() {
    let mut sheet = Spreadsheet::new();
    sheet.set_cell("A1", Value::Int(1), None, 0);
    sheet.set_cell("B1", Value::Int(99), Some("A1".to_string()), 50);
    sheet.add_dependency("A1", "B1");
    let mut path: Vec<String> = Vec::new();
    assert_eq!(update_dependency(&mut sheet, "A1", &mut path, 10), Ok(()));
    assert_eq!(sheet.get_cell_val("B1"), Value::Int(99));
    assert_eq!(sheet.get_cell_timestamp("B1"), 50);
}

#[test]
fn unreadable_child_is_passed_over() {
    let mut sheet = Spreadsheet::new();
    sheet.set_cell("B1", Value::Int(1), Some("sum(A1_A4294967296)".to_string()), 0);
    sheet.add_dependency("A1", "B1");
    let mut path: Vec<String> = Vec::new();
    assert_eq!(update_dependency(&mut sheet, "A1", &mut path, 3), Ok(()));
    assert_eq!(sheet.get_cell_val("B1"), Value::Int(1));
    assert_eq!(sheet.get_cell_timestamp("B1"), 0);
}

#[test]
fn small_helpers() {
    let list = vec!["A1".to_string(), "B2".to_string()];
    assert!(list_contains(&list, "B2"));
    assert!(!list_contains(&list, "B"));
    assert!(all_fit(&vec!["A1".to_string(), "A1_B2".to_string()]));
    assert!(!all_fit(&vec!["A1".to_string(), "A1_B4294967296".to_string()]));
    assert_eq!(
        covered_cells(&vec!["B2".to_string(), "A1_A2".to_string()]),
        vec!["B2".to_string(), "A1".to_string(), "A2".to_string()]
    );
    assert_eq!(join_words(&vec!["set", "A1", "1", "+", "2"], 2), "1 + 2");
    assert_eq!(join_words(&vec!["set", "A1", "x"], 2), "x");
    assert_eq!(join_words(&vec!["set", "A1"], 2), "");
    let mut sheet = Spreadsheet::new();
    sheet.set_cell("A2", Value::Error("first".to_string()), None, 0);
    sheet.set_cell("A3", Value::Error("second".to_string()), None, 0);
    let names = vec!["A1".to_string(), "A2".to_string(), "A3".to_string()];
    assert_eq!(
        find_error(&sheet, &names),
        Some(Value::Error("first".to_string()))
    );
    assert_eq!(find_error(&sheet, &vec!["A1".to_string()]), None);
}
