//! Tests of the function dispatcher, `split`, and the string and table
//! utilities around the engine.

use sheetcalc::literal::{EvalError, Item, LiteralValue};
use sheetcalc::strutil;
use sheetcalc::table::TableData;

#[test]
fn split_yields_the_text_array() {
    let t = TableData::new();
    let args = vec![
        Item::conduct_str_literal_value(String::from("a,b,c")),
        Item::conduct_str_literal_value(String::from(",")),
    ];
    let mut counter: usize = 0;
    let res = t.calc_function("split", args, &mut counter).unwrap();
    let arr = res.get_text_array().unwrap();
    assert_eq!(arr, &vec![String::from("a"), String::from("b"), String::from("c")]);
}

#[test]
fn split_keeps_empty_pieces() {
    let t = TableData::new();
    let args = vec![
        Item::conduct_str_literal_value(String::from(",x,")),
        Item::conduct_str_literal_value(String::from(",")),
    ];
    let res = t.split(args).unwrap();
    let arr = res.get_text_array().unwrap();
    assert_eq!(arr, &vec![String::from(""), String::from("x"), String::from("")]);
}

#[test]
fn split_long_separator_fails() {
    let t = TableData::new();
    let args = vec![
        Item::conduct_str_literal_value(String::from("a,b,c")),
        Item::conduct_str_literal_value(String::from(",,")),
    ];
    match t.split(args) {
        Err(e) => assert_eq!(e, EvalError::SeparatorNotSingle),
        Ok(_) => panic!("a two-character separator must be rejected"),
    }
}

#[test]
fn split_wrong_arity_fails() {
    let t = TableData::new();
    let args = vec![Item::conduct_str_literal_value(String::from("a,b,c"))];
    match t.split(args) {
        Err(e) => assert_eq!(e, EvalError::MalformedExpression),
        Ok(_) => panic!("split takes two operands"),
    }
}

#[test]
fn inc_from_adds_to_the_counter() {
    let t = TableData::new();
    let mut counter: usize = 4;
    let res = t.inc_from(vec![Item::conduct_int_literal_value(3)], &mut counter).unwrap();
    assert_eq!(counter, 7);
    assert_eq!(res.get_int().unwrap(), 7);
}

#[test]
fn inc_from_needs_an_int_operand() {
    let t = TableData::new();
    let mut counter: usize = 0;
    let args = vec![Item::conduct_str_literal_value(String::from("3"))];
    match t.inc_from(args, &mut counter) {
        Err(e) => assert_eq!(e, EvalError::TypeMismatch),
        Ok(_) => panic!("incFrom takes an Int literal"),
    }
    assert_eq!(counter, 0);
}

#[test]
fn unknown_function_placeholder_text() {
    let t = TableData::new();
    let mut counter: usize = 0;
    let res = t.calc_function("sum", Vec::new(), &mut counter).unwrap();
    match res.to_text() {
        Ok(s) => assert_eq!(s, String::from("[sum(wtf)]")),
        Err(_) => panic!("a text literal has a text form"),
    }
}

#[test]
fn arithmetic_needs_two_operands() {
    let t = TableData::new();
    let args = vec![Item::conduct_num_literal_value(2)];
    match t.evaluate_arithmetic('+', &args) {
        Err(e) => assert_eq!(e, EvalError::MalformedExpression),
        Ok(_) => panic!("one operand is not enough"),
    }
}

#[test]
fn arithmetic_overflow_is_an_error() {
    let t = TableData::new();
    let args = vec![Item::conduct_num_literal_value(i64::MAX), Item::conduct_num_literal_value(1)];
    match t.evaluate_arithmetic('+', &args) {
        Err(e) => assert_eq!(e, EvalError::NumberOverflow),
        Ok(_) => panic!("the sum does not fit"),
    }
}

#[test]
fn str_to_vector_splits_on_the_separator() {
    let parts = strutil::str_to_vector("a,b,c", ',');
    assert_eq!(parts, vec!["a", "b", "c"]);
    let lines = strutil::str_to_vector("one\ntwo", '\n');
    assert_eq!(lines, vec!["one", "two"]);
    assert_eq!(strutil::str_to_vector("", ','), vec![""]);
}

#[test]
fn remove_first_symbol_drops_one_character() {
    assert_eq!(strutil::remove_first_symbol("@cost"), "cost");
    assert_eq!(strutil::remove_first_symbol("=A1"), "A1");
    assert_eq!(strutil::remove_first_symbol("x"), "");
}

#[test]
fn increase_column_digits_shifts_matching_references() {
    let shifted = TableData::increase_column_digits(String::from("=A2+B2"), 2);
    assert_eq!(shifted, String::from("=A3+B3"));
    let kept = TableData::increase_column_digits(String::from("=A1+B3"), 2);
    assert_eq!(kept, String::from("=A1+B3"));
    let nested = TableData::increase_column_digits(String::from("sum(spread(split(D2, \",\")))"), 2);
    assert_eq!(nested, String::from("sum(spread(split(D3, \",\")))"));
}

#[test]
fn increase_column_digits_nine_to_ten() {
    let shifted = TableData::increase_column_digits(String::from("=C9*2"), 9);
    assert_eq!(shifted, String::from("=C10*2"));
}

#[test]
fn table_lookups_and_keys() {
    let mut t = TableData::new();
    t.add_column(String::from("A"));
    t.add_row(0, 1, String::from("x"));
    t.add_row(0, 4, String::from("y"));
    let col = t.get_by_name_unmut("A").unwrap();
    assert_eq!(col.get_sorted_keys(), vec![1, 4]);
    assert_eq!(col.get_cell_by_index(4).unwrap(), String::from("y"));
    assert_eq!(col.get_cell_by_index(2), Err(EvalError::MissingRow));
    assert_eq!(t.get_last_value_of_the_column('A').unwrap(), String::from("y"));
    assert_eq!(t.get_by_coordinate('A', 1).unwrap(), String::from("x"));
    assert_eq!(t.get_by_coordinate('A', 3), Err(EvalError::MissingRow));
    match t.get_by_name_unmut("B") {
        Err(e) => assert_eq!(e, EvalError::MissingColumn),
        Ok(_) => panic!("no column B was added"),
    }
}

#[test]
fn literal_text_forms() {
    assert_eq!(
        Item::conduct_str_literal_value(String::from("t")).to_text(),
        Ok(String::from("t"))
    );
    assert_eq!(Item::conduct_int_literal_value(12).to_text(), Ok(String::from("12")));
    assert_eq!(Item::conduct_num_literal_value(-5).to_text(), Ok(String::from("-5")));
    let arr = LiteralValue::TextArray(vec![String::from("a")]);
    assert_eq!(arr.to_text(), Err(EvalError::TypeMismatch));
}

#[test]
fn item_accessors_check_the_kind() {
    let lit = Item::conduct_int_literal(3);
    assert_eq!(lit.get_literal_as_number(), Ok(3));
    assert_eq!(lit.get_token(), Err(EvalError::TypeMismatch));
    let tok = Item::Token(String::from("@c"));
    assert_eq!(tok.get_token(), Ok(String::from("@c")));
    assert_eq!(tok.get_literal_as_number(), Err(EvalError::TypeMismatch));
    let start = Item::ZoneStart('<');
    assert!(start.expect_start_of('<').is_ok());
    assert_eq!(start.expect_start_of('('), Err(EvalError::MalformedExpression));
    let end = Item::ZoneEnd('>');
    assert_eq!(end.get_end_zone_character(), Ok('>'));
    let op = Item::Operator('*');
    assert_eq!(op.get_as_operator(), Ok('*'));
}
