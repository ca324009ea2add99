use crate::classify::{is_array_literal, is_int_literal, is_string_literal};
use crate::decimal::{all_digits, decimal_value, parse_decimal};
use crate::identifier::{
    lemma_array_view, outcome_view, Identifier, IdentifierView, ResolveError,
};
use crate::split::{lemma_split_elements_bounds, split_chars, split_elements};
use crate::text::{chars_of, string_of, words};
use crate::vocabulary::Vocabulary;
use vstd::prelude::*;

verus! {

/// The length of the longest of `tokens`, and 0 if there is none.
pub open spec fn longest(tokens: Seq<Seq<char>>) -> nat
    decreases tokens.len(),
{
    if tokens.len() == 0 {
        0
    } else if tokens.last().len() > longest(tokens.drop_last()) {
        tokens.last().len()
    } else {
        longest(tokens.drop_last())
    }
}

/// None of `tokens` is longer than the longest of them.
pub proof fn lemma_longest(tokens: Seq<Seq<char>>)
    ensures
        forall|k: int| 0 <= k < tokens.len() ==> (#[trigger] tokens[k]).len() <= longest(tokens),
        tokens.len() > 0 ==> exists|k: int| 0 <= k < tokens.len() && tokens[k].len() == longest(tokens),
    decreases tokens.len(),
{
    if tokens.len() > 0 {
        let front = tokens.drop_last();
        lemma_longest(front);
        assert forall|k: int| 0 <= k < tokens.len() implies (#[trigger] tokens[k]).len() <= longest(
            tokens,
        ) by {
            if k < front.len() {
                assert(tokens[k] == front[k]);
            }
        }
        let k = if front.len() > 0 && tokens.last().len() <= longest(front) {
            choose|k: int| 0 <= k < front.len() && front[k].len() == longest(front)
        } else {
            tokens.len() - 1
        };
        assert(tokens[k].len() == longest(tokens));
    }
}

/// The array of `items`, if there are any.
pub open spec fn array_of(items: Result<Seq<IdentifierView>, ResolveError>) -> Result<
    IdentifierView,
    ResolveError,
> {
    match items {
        Ok(items) => Ok(IdentifierView::Array(items)),
        Err(e) => Err(e),
    }
}

/// What `token` resolves to, given the set of operator tokens.
///
/// The kinds are tried in a fixed order. An integer literal is its number,
/// unless that is too large for an `i32`. A string literal is itself, quotes
/// and all. An array literal is the array of what its element tokens resolve
/// to. Any other token is a column name, unless it is an operator.
pub open spec fn resolve(operators: Set<Seq<char>>, token: Seq<char>) -> Result<
    IdentifierView,
    ResolveError,
>
    decreases token.len(), 0nat,
{
    if is_int_literal(token) {
        if decimal_value(token) <= i32::MAX {
            Ok(IdentifierView::IntLiteral(decimal_value(token)))
        } else {
            Err(ResolveError::InvalidIntegerLiteral)
        }
    } else if is_string_literal(token) {
        Ok(IdentifierView::StringLiteral(token))
    } else if is_array_literal(token) {
        proof {
            lemma_split_elements_bounds(token);
            lemma_longest(split_elements(token));
        }
        array_of(resolve_all(operators, split_elements(token)))
    } else if !operators.contains(token) {
        Ok(IdentifierView::Field(token))
    } else {
        Err(ResolveError::NotAnIdentifier)
    }
}

/// What `tokens` resolve to, one by one and in order. If some of them fail,
/// the result is the error of the first that does.
pub open spec fn resolve_all(operators: Set<Seq<char>>, tokens: Seq<Seq<char>>) -> Result<
    Seq<IdentifierView>,
    ResolveError,
>
    decreases longest(tokens), 1 + tokens.len(),
{
    if tokens.len() == 0 {
        Ok(Seq::empty())
    } else {
        proof {
            lemma_longest(tokens);
            lemma_longest(tokens.drop_last());
        }
        match resolve_all(operators, tokens.drop_last()) {
            Err(e) => Err(e),
            Ok(items) => match resolve(operators, tokens.last()) {
                Err(e) => Err(e),
                Ok(item) => Ok(items.push(item)),
            },
        }
    }
}

/// Resolves the token whose characters are `chars`.
pub(crate) fn resolve_chars(chars: &Vec<char>, vocabulary: &Vocabulary) -> (out: Result<
    Identifier,
    ResolveError,
>)
    ensures
        outcome_view(out) == resolve(vocabulary.operators(), chars@),
    decreases chars@.len(),
{
    let n = chars.len();
    if all_digits(chars) {
        match parse_decimal(chars) {
            Some(value) => Ok(Identifier::IntLiteral(value)),
            None => Err(ResolveError::InvalidIntegerLiteral),
        }
    } else if n > 0 && chars[0] == '\'' && chars[n - 1] == '\'' {
        Ok(Identifier::StringLiteral(string_of(chars)))
    } else if n > 0 && chars[0] == '[' && chars[n - 1] == ']' {
        let parts = split_chars(chars);
        let ghost tokens = words(parts@);
        let mut items: Vec<Identifier> = Vec::new();
        let mut i: usize = 0;
        proof {
            lemma_split_elements_bounds(chars@);
            assert(items.deep_view() =~= Seq::empty());
        }
        while i < parts.len()
            invariant
                i <= parts.len(),
                tokens == words(parts@),
                tokens == split_elements(chars@),
                !is_int_literal(chars@),
                !is_string_literal(chars@),
                is_array_literal(chars@),
                items.len() == i,
                forall|k: int| 0 <= k < tokens.len() ==> (#[trigger] tokens[k]).len() < chars@.len(),
                resolve_all(vocabulary.operators(), tokens.take(i as int)) == Ok::<
                    Seq<IdentifierView>,
                    ResolveError,
                >(items.deep_view()),
            decreases parts.len() - i,
        {
            assert(tokens[i as int] == parts[i as int]@);
            assert(tokens.take(i + 1).drop_last() == tokens.take(i as int));
            match resolve_chars(&parts[i], vocabulary) {
                Ok(item) => {
                    let ghost before = items.deep_view();
                    items.push(item);
                    assert(items.deep_view() =~= before.push(item@));
                },
                Err(e) => {
                    proof {
                        lemma_resolve_all_prefix_error(
                            vocabulary.operators(),
                            tokens,
                            i + 1,
                        );
                    }
                    return Err(e);
                },
            }
            i += 1;
        }
        assert(tokens.take(i as int) == tokens);
        proof {
            lemma_array_view(items);
        }
        Ok(Identifier::Array(items))
    } else if !vocabulary.has_operator(chars) {
        Ok(Identifier::Field(string_of(chars)))
    } else {
        Err(ResolveError::NotAnIdentifier)
    }
}

/// If the first `n` of `tokens` do not all resolve, neither do all of
/// `tokens`, and the error is the same.
pub proof fn lemma_resolve_all_prefix_error(
    operators: Set<Seq<char>>,
    tokens: Seq<Seq<char>>,
    n: int,
)
    requires
        0 <= n <= tokens.len(),
        resolve_all(operators, tokens.take(n)) is Err,
    ensures
        resolve_all(operators, tokens) == resolve_all(operators, tokens.take(n)),
    decreases tokens.len() - n,
{
    if n < tokens.len() {
        assert(tokens.take(n + 1).drop_last() == tokens.take(n));
        lemma_resolve_all_prefix_error(operators, tokens, n + 1);
    } else {
        assert(tokens.take(n) == tokens);
    }
}

/// Resolves `token`: says which kind of value or name it is, and gives it
/// as an [`Identifier`].
///
/// It fails with [`ResolveError::InvalidIntegerLiteral`] on digits whose number
/// is too large for an `i32`, and with [`ResolveError::NotAnIdentifier`] on an
/// operator that is no literal. An array literal fails as the first of its
/// elements that fails.
pub fn as_identifier(token: &String, vocabulary: &Vocabulary) -> (out: Result<
    Identifier,
    ResolveError,
>)
    ensures
        outcome_view(out) == resolve(vocabulary.operators(), token@),
{
    resolve_chars(&chars_of(token.as_str()), vocabulary)
}

} // verus!
