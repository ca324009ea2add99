use crate::classify::{
    is_array_literal, is_digit, is_field_candidate, is_int_literal, is_string_literal,
};
use crate::decimal::{decimal_value, lemma_decimal_text, lemma_decimal_value_nonnegative};
use crate::identifier::{text_of, IdentifierView, ResolveError};
use crate::listing::{array_literal_of, is_element, lemma_scan_listed, listed};
use crate::resolve::{array_of, resolve, resolve_all};
use crate::split::{interior, lemma_scan_plain, split_elements, without_separators};
use vstd::prelude::*;

verus! {

/// A token of decimal digits is an integer literal, and it resolves to the
/// number that it denotes if an `i32` can hold that number.
pub proof fn law_digits_resolve_to_their_number(operators: Set<Seq<char>>, token: Seq<char>)
    requires
        token.len() > 0,
        forall|i: int| 0 <= i < token.len() ==> is_digit(#[trigger] token[i]),
        decimal_value(token) <= i32::MAX,
    ensures
        is_int_literal(token),
        resolve(operators, token) == Ok::<IdentifierView, ResolveError>(
            IdentifierView::IntLiteral(decimal_value(token)),
        ),
{
}

/// A token of decimal digits whose number no `i32` can hold is an integer
/// literal all the same, and it does not resolve.
pub proof fn law_large_digits_are_rejected(operators: Set<Seq<char>>, token: Seq<char>)
    requires
        token.len() > 0,
        forall|i: int| 0 <= i < token.len() ==> is_digit(#[trigger] token[i]),
        decimal_value(token) > i32::MAX,
    ensures
        is_int_literal(token),
        resolve(operators, token) == Err::<IdentifierView, ResolveError>(
            ResolveError::InvalidIntegerLiteral,
        ),
{
}

/// Whatever stands between two single quotes, the quoted token is a string
/// literal, and it resolves to itself with its quotes.
pub proof fn law_quoted_resolves_to_itself(operators: Set<Seq<char>>, body: Seq<char>)
    ensures
        is_string_literal(seq!['\''] + body + seq!['\'']),
        resolve(operators, seq!['\''] + body + seq!['\'']) == Ok::<IdentifierView, ResolveError>(
            IdentifierView::StringLiteral(seq!['\''] + body + seq!['\'']),
        ),
{
}

/// An operator that does not have the form of a literal does not resolve.
pub proof fn law_operator_is_rejected(operators: Set<Seq<char>>, token: Seq<char>)
    requires
        operators.contains(token),
        !is_int_literal(token),
        !is_string_literal(token),
        !is_array_literal(token),
    ensures
        resolve(operators, token) == Err::<IdentifierView, ResolveError>(
            ResolveError::NotAnIdentifier,
        ),
{
}

/// What a token resolves to tells what kind of token it is: a number comes
/// from an integer literal only, a string from a string literal that is no
/// integer literal, an array from an array literal that is neither, and a
/// name from a token that is none of these and no operator.
pub proof fn law_result_tells_the_kind(operators: Set<Seq<char>>, token: Seq<char>)
    ensures
        resolve(operators, token) matches Ok(IdentifierView::IntLiteral(n)) ==> is_int_literal(
            token,
        ) && n == decimal_value(token) && 0 <= n <= i32::MAX,
        resolve(operators, token) matches Ok(IdentifierView::StringLiteral(text)) ==> text
            == token && is_string_literal(token) && !is_int_literal(token),
        resolve(operators, token) matches Ok(IdentifierView::Array(items)) ==> is_array_literal(
            token,
        ) && !is_int_literal(token) && !is_string_literal(token) && resolve_all(
            operators,
            split_elements(token),
        ) == Ok::<Seq<IdentifierView>, ResolveError>(items),
        resolve(operators, token) matches Ok(IdentifierView::Field(name)) ==> name == token
            && is_field_candidate(operators, token) && !is_array_literal(token),
        resolve(operators, token) == Err::<IdentifierView, ResolveError>(
            ResolveError::InvalidIntegerLiteral,
        ) ==> is_int_literal(token) || is_array_literal(token),
        resolve(operators, token) == Err::<IdentifierView, ResolveError>(
            ResolveError::NotAnIdentifier,
        ) ==> operators.contains(token) || is_array_literal(token),
{
    if is_int_literal(token) {
        lemma_decimal_value_nonnegative(token);
    }
}

/// What a token resolves to, if that is no array, resolves to itself again
/// when it is written out.
pub proof fn law_resolve_round_trip(
    operators: Set<Seq<char>>,
    token: Seq<char>,
    id: IdentifierView,
)
    requires
        resolve(operators, token) == Ok::<IdentifierView, ResolveError>(id),
        id !is Array,
    ensures
        text_of(id) is Some,
        resolve(operators, text_of(id)->0) == Ok::<IdentifierView, ResolveError>(id),
{
    if let IdentifierView::IntLiteral(n) = id {
        lemma_decimal_value_nonnegative(token);
        lemma_decimal_text(n as nat);
    }
}

/// Of an array literal without quotes, the element tokens hold, in order, the
/// characters between the delimiters that are neither commas nor spaces.
pub proof fn law_plain_elements_keep_characters(token: Seq<char>)
    requires
        forall|i: int| 1 <= i < token.len() - 1 ==> token[i] != '\'',
    ensures
        split_elements(token).flatten() == without_separators(interior(token)),
{
    broadcast use Seq::lemma_flatten_push;

    lemma_scan_plain(token, token.len() - 1);
}

/// Splitting undoes listing: the array literal that lists bare and quoted
/// elements splits into these elements.
pub proof fn law_split_inverts_listing(elements: Seq<Seq<char>>)
    requires
        forall|k: int| 0 <= k < elements.len() ==> is_element(#[trigger] elements[k]),
    ensures
        split_elements(array_literal_of(elements)) == elements,
{
    if elements.len() > 0 {
        let token = array_literal_of(elements);
        assert(token.subrange(1, 1 + listed(elements).len() as int) =~= listed(elements));
        lemma_scan_listed(token, elements);
    }
}

/// The array literal that lists bare and quoted elements resolves to the
/// array of what the elements resolve to, and fails as the first of them
/// that fails.
pub proof fn law_listing_resolves_elementwise(
    operators: Set<Seq<char>>,
    elements: Seq<Seq<char>>,
)
    requires
        forall|k: int| 0 <= k < elements.len() ==> is_element(#[trigger] elements[k]),
    ensures
        is_array_literal(array_literal_of(elements)),
        resolve(operators, array_literal_of(elements)) == array_of(
            resolve_all(operators, elements),
        ),
{
    law_split_inverts_listing(elements);
}

/// The array literal without elements resolves to the empty array.
pub proof fn law_empty_array(operators: Set<Seq<char>>)
    ensures
        split_elements(seq!['[', ']']) == Seq::<Seq<char>>::empty(),
        resolve(operators, seq!['[', ']']) == Ok::<IdentifierView, ResolveError>(
            IdentifierView::Array(Seq::empty()),
        ),
{
}

/// Whether the token at index `k` is the first of `tokens` that does not
/// resolve, and `e` is its error.
pub open spec fn first_failure(
    operators: Set<Seq<char>>,
    tokens: Seq<Seq<char>>,
    k: int,
    e: ResolveError,
) -> bool {
    &&& 0 <= k < tokens.len()
    &&& resolve(operators, tokens[k]) == Err::<IdentifierView, ResolveError>(e)
    &&& forall|j: int| 0 <= j < k ==> (#[trigger] resolve(operators, tokens[j])) is Ok
}

/// A sequence of tokens resolves exactly if each of them does, and then to
/// what they resolve to, in the same order. Otherwise it fails as the first
/// of them that fails.
pub proof fn law_resolve_all_elementwise(operators: Set<Seq<char>>, tokens: Seq<Seq<char>>)
    ensures
        resolve_all(operators, tokens) is Ok <==> forall|k: int|
            0 <= k < tokens.len() ==> (#[trigger] resolve(operators, tokens[k])) is Ok,
        resolve_all(operators, tokens) matches Ok(items) ==> items.len() == tokens.len(),
        resolve_all(operators, tokens) matches Ok(items) ==> forall|k: int|
            0 <= k < tokens.len() ==> resolve(operators, tokens[k]) == Ok::<
                IdentifierView,
                ResolveError,
            >(#[trigger] items[k]),
        resolve_all(operators, tokens) matches Err(e) ==> exists|k: int|
            first_failure(operators, tokens, k, e),
    decreases tokens.len(),
{
    if tokens.len() > 0 {
        let front = tokens.drop_last();
        law_resolve_all_elementwise(operators, front);
        assert forall|k: int| 0 <= k < front.len() implies front[k] == tokens[k] by {}
        match resolve_all(operators, front) {
            Ok(_) => {
                if let Err(e) = resolve(operators, tokens.last()) {
                    assert(first_failure(operators, tokens, tokens.len() - 1, e));
                }
            },
            Err(e) => {
                let k = choose|k: int| first_failure(operators, front, k, e);
                assert(first_failure(operators, tokens, k, e));
            },
        }
    }
}

} // verus!
