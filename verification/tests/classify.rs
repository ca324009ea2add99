use arraysql::classify::{
    check_array, check_binop, check_field, check_identifier, check_int_literal, check_operator,
    check_string_literal, check_unop,
};
use arraysql::vocabulary::Vocabulary;

fn sample() -> Vocabulary {
    Vocabulary::new(
        &["=", "<", ">", "<=", ">=", "!=", "AND", "OR", "NOT"],
        &["=", "<", ">", "<=", ">=", "!=", "AND", "OR"],
        &["NOT"],
    )
    .unwrap()
}

#[test]
fn digits_are_an_int_literal() {
    assert!(check_int_literal("0"));
    assert!(check_int_literal("123"));
    assert!(check_int_literal("007"));
    assert!(check_int_literal("99999999999999999999999"));
}

#[test]
fn a_letter_among_digits_is_no_int_literal() {
    assert!(!check_int_literal("12a"));
    assert!(!check_int_literal("a12"));
    assert!(!check_int_literal("1 2"));
}

#[test]
fn the_empty_token_is_no_int_literal() {
    assert!(!check_int_literal(""));
}

#[test]
fn a_sign_is_no_digit() {
    assert!(!check_int_literal("-5"));
    assert!(!check_int_literal("+5"));
}

#[test]
fn digits_outside_ascii_are_no_digits() {
    assert!(!check_int_literal("\u{0661}\u{0662}"));
    assert!(!check_int_literal("\u{ff11}"));
}

#[test]
fn quoted_text_is_a_string_literal() {
    assert!(check_string_literal("'abc'"));
    assert!(check_string_literal("''"));
    assert!(check_string_literal("'a, b'"));
    assert!(check_string_literal("'it\\'s'"));
}

#[test]
fn a_lone_quote_is_a_string_literal() {
    assert!(check_string_literal("'"));
}

#[test]
fn a_missing_quote_makes_no_string_literal() {
    assert!(!check_string_literal("abc"));
    assert!(!check_string_literal("'abc"));
    assert!(!check_string_literal("abc'"));
    assert!(!check_string_literal(""));
    assert!(!check_string_literal("\"abc\""));
}

#[test]
fn bracketed_text_is_an_array_literal() {
    assert!(check_array("[]"));
    assert!(check_array("[1, 2, 3]"));
    assert!(check_array("[[1], [2]]"));
    assert!(check_array("['a', 'b']"));
}

#[test]
fn a_missing_bracket_makes_no_array_literal() {
    assert!(!check_array("["));
    assert!(!check_array("]"));
    assert!(!check_array(""));
    assert!(!check_array("[1, 2"));
    assert!(!check_array("1, 2]"));
    assert!(!check_array("(1, 2)"));
}

#[test]
fn operators_are_found_in_the_vocabulary() {
    let v = sample();
    for op in ["=", "<", ">", "<=", ">=", "!=", "AND", "OR", "NOT"] {
        assert!(check_operator(op, &v));
    }
    assert!(!check_operator("username", &v));
    assert!(!check_operator("==", &v));
    assert!(!check_operator("and", &v));
    assert!(!check_operator("", &v));
    assert!(!check_operator("AN", &v));
    assert!(!check_operator("ANDY", &v));
}

#[test]
fn binary_and_unary_operators_are_told_apart() {
    let v = sample();
    assert!(check_binop("=", &v));
    assert!(check_binop("AND", &v));
    assert!(!check_binop("NOT", &v));
    assert!(!check_binop("x", &v));
    assert!(check_unop("NOT", &v));
    assert!(!check_unop("AND", &v));
    assert!(!check_unop("x", &v));
}

#[test]
fn every_binary_and_unary_operator_is_an_operator() {
    let v = sample();
    for token in ["=", "<", ">", "<=", ">=", "!=", "AND", "OR", "NOT", "x", "1", "'a'"] {
        if check_binop(token, &v) || check_unop(token, &v) {
            assert!(check_operator(token, &v));
        }
    }
}

#[test]
fn identifier_candidates_are_literals_and_what_is_no_operator() {
    let v = sample();
    assert!(check_identifier("12", &v));
    assert!(check_identifier("'abc'", &v));
    assert!(check_identifier("username", &v));
    assert!(check_identifier("[1, 2]", &v));
    assert!(!check_identifier("=", &v));
    assert!(!check_identifier("AND", &v));
}

#[test]
fn field_candidates_are_neither_literals_nor_operators() {
    let v = sample();
    assert!(check_field("username", &v));
    assert!(check_field("[1, 2]", &v));
    assert!(check_field("", &v));
    assert!(!check_field("12", &v));
    assert!(!check_field("'abc'", &v));
    assert!(!check_field("=", &v));
    assert!(!check_field("NOT", &v));
}

#[test]
fn an_operator_in_the_form_of_a_literal_is_an_identifier_candidate() {
    let v = Vocabulary::new(&["'", "7", "="], &[], &[]).unwrap();
    assert!(check_operator("'", &v));
    assert!(check_operator("7", &v));
    assert!(check_identifier("'", &v));
    assert!(check_identifier("7", &v));
    assert!(!check_field("'", &v));
    assert!(!check_field("7", &v));
}
