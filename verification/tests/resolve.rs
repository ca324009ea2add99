use arraysql::identifier::{Identifier, ResolveError};
use arraysql::resolve::as_identifier;
use arraysql::vocabulary::Vocabulary;

fn sample() -> Vocabulary {
    Vocabulary::new(
        &["=", "<", ">", "<=", ">=", "!=", "AND", "OR", "NOT"],
        &["=", "<", ">", "<=", ">=", "!=", "AND", "OR"],
        &["NOT"],
    )
    .unwrap()
}

fn resolve(token: &str) -> Result<Identifier, ResolveError> {
    as_identifier(&token.to_string(), &sample())
}

fn number(n: i32) -> Identifier {
    Identifier::IntLiteral(n)
}

fn text(s: &str) -> Identifier {
    Identifier::StringLiteral(s.to_string())
}

fn name(s: &str) -> Identifier {
    Identifier::Field(s.to_string())
}

#[test]
fn digits_resolve_to_their_number() {
    assert_eq!(resolve("0"), Ok(number(0)));
    assert_eq!(resolve("7"), Ok(number(7)));
    assert_eq!(resolve("123"), Ok(number(123)));
    assert_eq!(resolve("1000000"), Ok(number(1_000_000)));
}

#[test]
fn leading_zeros_do_not_count() {
    assert_eq!(resolve("007"), Ok(number(7)));
    assert_eq!(resolve("0000000000000000000000042"), Ok(number(42)));
    assert_eq!(resolve("000"), Ok(number(0)));
}

#[test]
fn the_largest_i32_resolves() {
    assert_eq!(resolve("2147483647"), Ok(number(i32::MAX)));
    assert_eq!(resolve("02147483647"), Ok(number(i32::MAX)));
}

#[test]
fn a_number_too_large_for_an_i32_is_rejected() {
    assert_eq!(resolve("2147483648"), Err(ResolveError::InvalidIntegerLiteral));
    assert_eq!(resolve("2147483650"), Err(ResolveError::InvalidIntegerLiteral));
    assert_eq!(resolve("4294967296"), Err(ResolveError::InvalidIntegerLiteral));
    assert_eq!(resolve("4294967297"), Err(ResolveError::InvalidIntegerLiteral));
    assert_eq!(resolve("99999999999999999999999999"), Err(ResolveError::InvalidIntegerLiteral));
}

#[test]
fn digits_with_a_letter_are_a_field() {
    assert_eq!(resolve("12a"), Ok(name("12a")));
}

#[test]
fn a_signed_number_is_a_field() {
    assert_eq!(resolve("-5"), Ok(name("-5")));
}

#[test]
fn a_string_literal_keeps_its_quotes() {
    assert_eq!(resolve("'hello'"), Ok(text("'hello'")));
    assert_eq!(resolve("''"), Ok(text("''")));
    assert_eq!(resolve("'a, b'"), Ok(text("'a, b'")));
    assert_eq!(resolve("'12'"), Ok(text("'12'")));
    assert_eq!(resolve("'='"), Ok(text("'='")));
}

#[test]
fn a_string_literal_keeps_its_escapes() {
    assert_eq!(resolve("'it\\'s'"), Ok(text("'it\\'s'")));
}

#[test]
fn a_lone_quote_is_a_string_literal_of_one_character() {
    assert_eq!(resolve("'"), Ok(text("'")));
}

#[test]
fn a_name_is_a_field() {
    assert_eq!(resolve("username"), Ok(name("username")));
    assert_eq!(resolve("user_id2"), Ok(name("user_id2")));
    assert_eq!(resolve("and"), Ok(name("and")));
}

#[test]
fn the_empty_token_is_a_field() {
    assert_eq!(resolve(""), Ok(name("")));
}

#[test]
fn an_operator_is_rejected() {
    assert_eq!(resolve("="), Err(ResolveError::NotAnIdentifier));
    for op in ["=", "<", ">", "<=", ">=", "!=", "AND", "OR", "NOT"] {
        assert_eq!(resolve(op), Err(ResolveError::NotAnIdentifier));
    }
}

#[test]
fn an_operator_in_the_form_of_a_literal_resolves_as_the_literal() {
    let v = Vocabulary::new(&["'", "7", "[]", "="], &[], &[]).unwrap();
    assert_eq!(as_identifier(&"'".to_string(), &v), Ok(text("'")));
    assert_eq!(as_identifier(&"7".to_string(), &v), Ok(number(7)));
    assert_eq!(as_identifier(&"[]".to_string(), &v), Ok(Identifier::Array(vec![])));
    assert_eq!(as_identifier(&"=".to_string(), &v), Err(ResolveError::NotAnIdentifier));
}

#[test]
fn without_operators_every_other_token_is_a_field() {
    let v = Vocabulary::new(&[], &[], &[]).unwrap();
    assert_eq!(as_identifier(&"=".to_string(), &v), Ok(name("=")));
    assert_eq!(as_identifier(&"AND".to_string(), &v), Ok(name("AND")));
}

#[test]
fn the_empty_array_resolves_to_no_elements() {
    assert_eq!(resolve("[]"), Ok(Identifier::Array(vec![])));
}

#[test]
fn an_array_resolves_element_by_element() {
    assert_eq!(resolve("[1, 2, 3]"), Ok(Identifier::Array(vec![number(1), number(2), number(3)])));
    assert_eq!(
        resolve("['a', 'bc', 'def']"),
        Ok(Identifier::Array(vec![text("'a'"), text("'bc'"), text("'def'")]))
    );
    assert_eq!(
        resolve("[1, 'x', name]"),
        Ok(Identifier::Array(vec![number(1), text("'x'"), name("name")]))
    );
    assert_eq!(resolve("[5]"), Ok(Identifier::Array(vec![number(5)])));
}

#[test]
fn an_inner_array_of_one_element_resolves_as_an_array() {
    assert_eq!(
        resolve("[1, 'x', [2]]"),
        Ok(Identifier::Array(vec![number(1), text("'x'"), Identifier::Array(vec![number(2)])]))
    );
    assert_eq!(
        resolve("[[[7]]]"),
        Ok(Identifier::Array(vec![Identifier::Array(vec![Identifier::Array(vec![number(7)])])]))
    );
    assert_eq!(
        resolve("[[], [1], [b]]"),
        Ok(Identifier::Array(vec![
            Identifier::Array(vec![]),
            Identifier::Array(vec![number(1)]),
            Identifier::Array(vec![name("b")]),
        ]))
    );
}

#[test]
fn an_inner_array_is_split_at_its_commas_too() {
    assert_eq!(
        resolve("[1, 'x', [2, 3]]"),
        Ok(Identifier::Array(vec![number(1), text("'x'"), name("[2"), name("3]")]))
    );
    assert_eq!(
        resolve("[['a']]"),
        Ok(Identifier::Array(vec![name("['a'"), name("]")]))
    );
}

#[test]
fn an_array_fails_as_its_first_failing_element() {
    assert_eq!(resolve("[1, =, 3]"), Err(ResolveError::NotAnIdentifier));
    assert_eq!(resolve("[1, 2147483648]"), Err(ResolveError::InvalidIntegerLiteral));
    assert_eq!(resolve("[=, 2147483648]"), Err(ResolveError::NotAnIdentifier));
    assert_eq!(resolve("[2147483648, =]"), Err(ResolveError::InvalidIntegerLiteral));
    assert_eq!(resolve("[[AND], 2147483648]"), Err(ResolveError::NotAnIdentifier));
}

#[test]
fn a_quoted_operator_inside_an_array_is_a_string() {
    assert_eq!(resolve("['=', 'AND']"), Ok(Identifier::Array(vec![text("'='"), text("'AND'")])));
}

#[test]
fn what_was_resolved_resolves_to_itself_again() {
    for token in ["0", "42", "007", "2147483647", "'hello'", "'", "'it\\'s'", "username", "", "-5", "12a"] {
        let first = resolve(token).unwrap();
        let written = match &first {
            Identifier::IntLiteral(n) => n.to_string(),
            Identifier::StringLiteral(s) => s.clone(),
            Identifier::Field(s) => s.clone(),
            Identifier::Array(_) => unreachable!(),
        };
        assert_eq!(resolve(&written), Ok(first));
    }
}

#[test]
fn characters_outside_ascii_pass_through() {
    assert_eq!(resolve("'\u{4e16}\u{754c}'"), Ok(text("'\u{4e16}\u{754c}'")));
    assert_eq!(resolve("caf\u{e9}"), Ok(name("caf\u{e9}")));
    assert_eq!(
        resolve("[\u{e9}, '\u{fc}']"),
        Ok(Identifier::Array(vec![name("\u{e9}"), text("'\u{fc}'")]))
    );
}

#[test]
fn a_clone_is_equal_to_what_it_was_made_from() {
    for token in ["42", "'x'", "name", "[]", "[1, 'x', [2], y]"] {
        let id = resolve(token).unwrap();
        assert_eq!(id.clone(), id);
    }
    let nested = Identifier::Array(vec![
        number(-3),
        Identifier::Array(vec![text("'a'"), Identifier::Array(vec![])]),
        name("n"),
    ]);
    assert_eq!(nested.clone(), nested);
}

#[test]
fn identifiers_of_different_kinds_differ() {
    assert_ne!(text("'1'"), name("'1'"));
    assert_ne!(number(1), name("1"));
    assert_ne!(Identifier::Array(vec![number(1)]), number(1));
    assert_ne!(
        Identifier::Array(vec![number(1), number(2)]),
        Identifier::Array(vec![number(2), number(1)])
    );
}
