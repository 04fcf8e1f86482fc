//! End-to-end tests of the formula engine: arithmetic, references, the
//! built-in functions, the copy-down sentinel, and the error taxonomy.

use sheetcalc::literal::EvalError;
use sheetcalc::table::TableData;

fn empty_table() -> TableData {
    TableData::new()
}

fn table_with_a() -> TableData {
    let mut t = TableData::new();
    t.add_column(String::from("A"));
    t.add_row(0, 1, String::from("10"));
    t.add_row(0, 2, String::from("20"));
    t
}

#[test]
fn arithmetic_simple_sum() {
    let t = empty_table();
    assert_eq!(t.parse_string(String::from("=2+3"), 1), Ok(String::from("5")));
}

#[test]
fn arithmetic_left_to_right_chain() {
    let t = empty_table();
    assert_eq!(t.parse_string(String::from("=2+3+4"), 1), Ok(String::from("9")));
}

#[test]
fn arithmetic_parenthesized_group() {
    let t = empty_table();
    assert_eq!(t.parse_string(String::from("=(2+3)*4"), 1), Ok(String::from("20")));
}

#[test]
fn arithmetic_subtraction_order() {
    let t = empty_table();
    assert_eq!(t.parse_string(String::from("=7-2"), 1), Ok(String::from("5")));
}

#[test]
fn arithmetic_exact_division() {
    let t = empty_table();
    assert_eq!(t.parse_string(String::from("=8/2"), 1), Ok(String::from("4")));
}

#[test]
fn arithmetic_division_by_zero_fails() {
    let t = empty_table();
    assert_eq!(t.parse_string(String::from("=4/0"), 1), Err(EvalError::DivisionByZero));
}

#[test]
fn arithmetic_inexact_division_fails() {
    let t = empty_table();
    assert_eq!(t.parse_string(String::from("=5/2"), 1), Err(EvalError::InexactDivision));
}

#[test]
fn reference_absolute_coordinate() {
    let t = table_with_a();
    assert_eq!(t.parse_string(String::from("=A1"), 7), Ok(String::from("10")));
}

#[test]
fn reference_previous_row() {
    let t = table_with_a();
    assert_eq!(t.parse_string(String::from("=A^"), 2), Ok(String::from("10")));
}

#[test]
fn reference_last_value_of_column() {
    let t = table_with_a();
    assert_eq!(t.parse_string(String::from("=A^v"), 1), Ok(String::from("20")));
}

#[test]
fn reference_previous_row_on_row_zero_fails() {
    let t = table_with_a();
    assert_eq!(t.parse_string(String::from("=A^"), 0), Err(EvalError::RowZeroPrevious));
}

#[test]
fn reference_missing_column_fails() {
    let t = table_with_a();
    assert_eq!(t.parse_string(String::from("=Z1"), 1), Err(EvalError::MissingColumn));
}

#[test]
fn reference_missing_row_fails() {
    let t = table_with_a();
    assert_eq!(t.parse_string(String::from("=A9"), 1), Err(EvalError::MissingRow));
}

#[test]
fn reference_unsupported_shape_fails() {
    let t = table_with_a();
    assert_eq!(t.parse_string(String::from("=A+"), 1), Err(EvalError::UnsupportedReference));
}

#[test]
fn column_index_reference() {
    let mut t = TableData::new();
    t.add_column(String::from("cost"));
    t.add_row(0, 5, String::from("42"));
    assert_eq!(t.parse_string(String::from("=@cost<5>"), 1), Ok(String::from("42")));
}

#[test]
fn column_index_reference_needs_the_at_prefix() {
    let mut t = TableData::new();
    t.add_column(String::from("ost"));
    t.add_row(0, 5, String::from("42"));
    // the token before `<` must begin with `@`: `cost` must not silently
    // resolve the column named `ost`
    assert_eq!(t.parse_string(String::from("=cost<5>"), 1), Err(EvalError::MalformedExpression));
}

#[test]
fn column_index_reference_missing_column_fails() {
    let t = empty_table();
    assert_eq!(t.parse_string(String::from("=@nope<1>"), 1), Err(EvalError::MissingColumn));
}

#[test]
fn inc_from_counts_from_zero_each_cell() {
    let t = empty_table();
    assert_eq!(t.parse_string(String::from("=incFrom(3)"), 1), Ok(String::from("3")));
    // a prior cell's call leaves no trace: the counter is per evaluation
    assert_eq!(t.parse_string(String::from("=incFrom(3)"), 2), Ok(String::from("3")));
}

#[test]
fn inc_from_accumulates_within_one_cell() {
    let t = empty_table();
    assert_eq!(t.parse_string(String::from("=incFrom(2)+incFrom(3)"), 1), Ok(String::from("7")));
}

#[test]
fn quoted_text_literal_in_group() {
    let t = empty_table();
    assert_eq!(t.parse_string(String::from("=(\"hi\")"), 1), Ok(String::from("hi")));
}

#[test]
fn unknown_function_yields_placeholder() {
    let t = empty_table();
    assert_eq!(t.parse_string(String::from("=foo(2)"), 1), Ok(String::from("[foo(wtf)]")));
}

#[test]
fn plain_text_passes_through_unchanged() {
    let t = empty_table();
    assert_eq!(t.parse_string(String::from("10"), 1), Ok(String::from("10")));
    assert_eq!(t.parse_string(String::from("hello"), 3), Ok(String::from("hello")));
    assert_eq!(t.parse_string(String::from(""), 3), Ok(String::from("")));
}

#[test]
fn naked_operands_without_operator_fail() {
    let t = empty_table();
    assert_eq!(t.parse_string(String::from("=2 3"), 1), Err(EvalError::MalformedExpression));
}

#[test]
fn unknown_symbol_reports_position() {
    let t = empty_table();
    assert_eq!(t.parse_string(String::from("=2&3"), 1), Err(EvalError::UnknownSymbol { pos: 1 }));
}

#[test]
fn unmatched_opening_zone_fails() {
    let t = empty_table();
    assert_eq!(t.parse_string(String::from("=(2+3"), 1), Err(EvalError::UnmatchedZone));
}

#[test]
fn text_operand_in_arithmetic_fails() {
    let t = table_with_a();
    // a resolved reference is text, and arithmetic takes numbers only
    assert_eq!(t.parse_string(String::from("=A1+1"), 1), Err(EvalError::TypeMismatch));
}

#[test]
fn arithmetic_negative_result() {
    let t = empty_table();
    assert_eq!(t.parse_string(String::from("=2-5"), 1), Ok(String::from("-3")));
}

#[test]
fn reference_letter_at_end_of_input_fails() {
    let t = table_with_a();
    assert_eq!(t.parse_string(String::from("=A"), 1), Err(EvalError::UnsupportedReference));
}

#[test]
fn inc_from_takes_an_int_not_an_arithmetic_result() {
    let t = empty_table();
    // (2+3) is a Num, and incFrom reads the Int variant only
    assert_eq!(
        t.parse_string(String::from("=incFrom((2+3))"), 1),
        Err(EvalError::TypeMismatch)
    );
}

#[test]
fn split_result_has_no_text_form() {
    let t = empty_table();
    // the formula evaluates, but a text array cannot stand as cell text
    assert_eq!(
        t.parse_string(String::from("=split(\"a,b\", \",\")"), 1),
        Err(EvalError::TypeMismatch)
    );
}

#[test]
fn fill_data_evaluates_every_cell_in_place() {
    let mut t = TableData::new();
    t.add_column(String::from("A"));
    t.add_row(0, 1, String::from("2"));
    t.add_row(0, 2, String::from("=2*3"));
    assert_eq!(t.fill_data(), Ok(()));
    assert_eq!(t.get_by_coordinate('A', 1), Ok(String::from("2")));
    assert_eq!(t.get_by_coordinate('A', 2), Ok(String::from("6")));
}

#[test]
fn fill_data_copy_down_sentinel_shifts_references() {
    let mut t = TableData::new();
    t.add_column(String::from("A"));
    t.add_row(0, 2, String::from("10"));
    t.add_row(0, 3, String::from("20"));
    t.add_column(String::from("B"));
    t.add_row(1, 2, String::from("=A2"));
    t.add_row(1, 3, String::from("=^^"));
    assert_eq!(t.fill_data(), Ok(()));
    assert_eq!(t.get_by_coordinate('B', 2), Ok(String::from("10")));
    // row 3 re-used row 2's raw formula with A2 rewritten to A3
    assert_eq!(t.get_by_coordinate('B', 3), Ok(String::from("20")));
}

#[test]
fn fill_data_later_rows_observe_earlier_results() {
    let mut t = TableData::new();
    t.add_column(String::from("A"));
    t.add_row(0, 1, String::from("=2+3"));
    t.add_row(0, 2, String::from("=A^"));
    assert_eq!(t.fill_data(), Ok(()));
    // A^ read row 1 after it was already evaluated to 5
    assert_eq!(t.get_by_coordinate('A', 2), Ok(String::from("5")));
}

#[test]
fn fill_data_is_idempotent_on_plain_results() {
    let mut t = TableData::new();
    t.add_column(String::from("A"));
    t.add_row(0, 1, String::from("7"));
    t.add_row(0, 2, String::from("plain"));
    assert_eq!(t.fill_data(), Ok(()));
    assert_eq!(t.fill_data(), Ok(()));
    assert_eq!(t.get_by_coordinate('A', 1), Ok(String::from("7")));
    assert_eq!(t.get_by_coordinate('A', 2), Ok(String::from("plain")));
}

#[test]
fn fill_data_reports_the_failing_cell_error() {
    let mut t = TableData::new();
    t.add_column(String::from("A"));
    t.add_row(0, 1, String::from("=2 3"));
    assert_eq!(t.fill_data(), Err(EvalError::MalformedExpression));
}
