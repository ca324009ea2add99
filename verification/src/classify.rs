use crate::text::chars_of;
use crate::vocabulary::Vocabulary;
use vstd::prelude::*;

verus! {

/// Whether `c` is one of the ten ASCII decimal digits.
pub open spec fn is_digit(c: char) -> bool {
    '0' <= c <= '9'
}

/// A token is an integer literal when it has at least one character and all
/// of its characters are ASCII decimal digits. A sign is not a digit.
pub open spec fn is_int_literal(token: Seq<char>) -> bool {
    &&& token.len() > 0
    &&& forall|i: int| 0 <= i < token.len() ==> is_digit(#[trigger] token[i])
}

/// Whether `token` begins with `open` and ends with `close`. One character
/// may be both its beginning and its end.
pub open spec fn is_enclosed(token: Seq<char>, open: char, close: char) -> bool {
    &&& token.len() > 0
    &&& token.first() == open
    &&& token.last() == close
}

/// A token is a string literal when it begins and ends with a single quote.
/// A lone quote is one.
pub open spec fn is_string_literal(token: Seq<char>) -> bool {
    is_enclosed(token, '\'', '\'')
}

/// A token is an array literal when it begins with `[` and ends with `]`.
pub open spec fn is_array_literal(token: Seq<char>) -> bool {
    is_enclosed(token, '[', ']')
}

/// A token may stand where a value or a name is expected when it is a
/// literal or is no operator.
pub open spec fn is_identifier_candidate(operators: Set<Seq<char>>, token: Seq<char>) -> bool {
    is_int_literal(token) || is_string_literal(token) || !operators.contains(token)
}

/// A token may be the name of a column when it is neither an integer
/// literal, nor a string literal, nor an operator.
pub open spec fn is_field_candidate(operators: Set<Seq<char>>, token: Seq<char>) -> bool {
    !(is_int_literal(token) || is_string_literal(token) || operators.contains(token))
}

/// Whether `token` is an integer literal.
pub fn check_int_literal(token: &str) -> (yes: bool)
    ensures
        yes == is_int_literal(token@),
{
    let mut seen = false;
    for c in it: token.chars()
        invariant
            it.seq() == token@,
            seen == (it.index() > 0),
            forall|i: int| 0 <= i < it.index() ==> is_digit(#[trigger] token@[i]),
    {
        if !('0' <= c && c <= '9') {
            return false;
        }
        seen = true;
    }
    seen
}

/// Whether `token` begins with `open` and ends with `close`.
fn check_enclosed(token: &str, open: char, close: char) -> (yes: bool)
    ensures
        yes == is_enclosed(token@, open, close),
{
    let mut first: Option<char> = None;
    let mut last: Option<char> = None;
    for c in it: token.chars()
        invariant
            it.seq() == token@,
            it.index() == 0 ==> first is None && last is None,
            it.index() > 0 ==> first == Some(token@[0]) && last == Some(token@[it.index() - 1]),
    {
        if first.is_none() {
            first = Some(c);
        }
        last = Some(c);
    }
    match (first, last) {
        (Some(a), Some(b)) => a == open && b == close,
        _ => false,
    }
}

/// Whether `token` is a string literal.
pub fn check_string_literal(token: &str) -> (yes: bool)
    ensures
        yes == is_string_literal(token@),
{
    check_enclosed(token, '\'', '\'')
}

/// Whether `token` is an array literal.
pub fn check_array(token: &str) -> (yes: bool)
    ensures
        yes == is_array_literal(token@),
{
    check_enclosed(token, '[', ']')
}

/// Whether `token` is an operator of `vocabulary`.
pub fn check_operator(token: &str, vocabulary: &Vocabulary) -> (yes: bool)
    ensures
        yes == vocabulary.operators().contains(token@),
{
    vocabulary.has_operator(&chars_of(token))
}

/// Whether `token` is a binary operator of `vocabulary`. Every binary
/// operator is an operator.
pub fn check_binop(token: &str, vocabulary: &Vocabulary) -> (yes: bool)
    ensures
        yes == vocabulary.binary_operators().contains(token@),
        yes ==> vocabulary.operators().contains(token@),
{
    vocabulary.has_binary(&chars_of(token))
}

/// Whether `token` is a unary operator of `vocabulary`. Every unary
/// operator is an operator.
pub fn check_unop(token: &str, vocabulary: &Vocabulary) -> (yes: bool)
    ensures
        yes == vocabulary.unary_operators().contains(token@),
        yes ==> vocabulary.operators().contains(token@),
{
    vocabulary.has_unary(&chars_of(token))
}

/// Whether `token` may stand where a value or a name is expected.
pub fn check_identifier(token: &str, vocabulary: &Vocabulary) -> (yes: bool)
    ensures
        yes == is_identifier_candidate(vocabulary.operators(), token@),
{
    check_int_literal(token) || check_string_literal(token) || !check_operator(token, vocabulary)
}

/// Whether `token` may be the name of a column.
pub fn check_field(token: &str, vocabulary: &Vocabulary) -> (yes: bool)
    ensures
        yes == is_field_candidate(vocabulary.operators(), token@),
{
    !(check_int_literal(token) || check_string_literal(token) || check_operator(token, vocabulary))
}

} // verus!
