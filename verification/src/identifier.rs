use crate::decimal::decimal_text;
use vstd::prelude::*;

verus! {

/// A resolved query value or reference.
#[derive(Debug, PartialEq, Eq)]
pub enum Identifier {
    /// An integer literal.
    IntLiteral(i32),
    /// A string literal, with both of its quote delimiters and with its
    /// escape sequences left as they were written.
    StringLiteral(String),
    /// An array literal; the elements are in the order in which they were written.
    Array(Vec<Identifier>),
    /// The name of a column.
    Field(String),
}

/// The mathematical value of an [`Identifier`].
pub ghost enum IdentifierView {
    /// The number of an integer literal.
    IntLiteral(int),
    /// The characters of a string literal, its quotes among them.
    StringLiteral(Seq<char>),
    /// The values of the elements of an array, in order.
    Array(Seq<IdentifierView>),
    /// The characters of a column name.
    Field(Seq<char>),
}

impl View for Identifier {
    type V = IdentifierView;

    open spec fn view(&self) -> IdentifierView
        decreases self,
    {
        match self {
            Identifier::IntLiteral(n) => IdentifierView::IntLiteral(*n as int),
            Identifier::StringLiteral(s) => IdentifierView::StringLiteral(s@),
            Identifier::Array(items) => IdentifierView::Array(
                Seq::new(
                    items.len() as nat,
                    |i: int|
                        if 0 <= i < items.len() {
                            items[i].view()
                        } else {
                            arbitrary()
                        },
                ),
            ),
            Identifier::Field(name) => IdentifierView::Field(name@),
        }
    }
}

impl DeepView for Identifier {
    type V = IdentifierView;

    open spec fn deep_view(&self) -> IdentifierView {
        self.view()
    }
}

/// The token that an identifier is written as. A negative number is written
/// with a minus sign. An array has no such token.
pub open spec fn text_of(id: IdentifierView) -> Option<Seq<char>> {
    match id {
        IdentifierView::IntLiteral(n) => Some(
            if n < 0 {
                seq!['-'] + decimal_text((-n) as nat)
            } else {
                decimal_text(n as nat)
            },
        ),
        IdentifierView::StringLiteral(text) => Some(text),
        IdentifierView::Field(name) => Some(name),
        IdentifierView::Array(_) => None,
    }
}

/// The mathematical value of the outcome of a resolution.
pub open spec fn outcome_view(outcome: Result<Identifier, ResolveError>) -> Result<
    IdentifierView,
    ResolveError,
> {
    match outcome {
        Ok(id) => Ok(id@),
        Err(e) => Err(e),
    }
}

/// An array is viewed as the sequence of the views of its elements.
pub proof fn lemma_array_view(items: Vec<Identifier>)
    ensures
        Identifier::Array(items)@ == IdentifierView::Array(items.deep_view()),
{
    reveal_with_fuel(<Identifier as View>::view, 2);
    assert(Identifier::Array(items)@->Array_0 =~= items.deep_view());
}

impl Clone for Identifier {
    /// A copy with the same value.
    fn clone(&self) -> (out: Identifier)
        ensures
            out@ == self@,
        decreases self,
    {
        match self {
            Identifier::IntLiteral(n) => Identifier::IntLiteral(*n),
            Identifier::StringLiteral(text) => Identifier::StringLiteral(text.clone()),
            Identifier::Array(items) => {
                let mut copies: Vec<Identifier> = Vec::new();
                let mut i: usize = 0;
                while i < items.len()
                    invariant
                        i <= items.len(),
                        copies.len() == i,
                        self is Array,
                        self->Array_0 == *items,
                        forall|k: int| 0 <= k < i ==> copies[k]@ == items[k]@,
                    decreases items.len() - i,
                {
                    copies.push(items[i].clone());
                    i += 1;
                }
                proof {
                    lemma_array_view(copies);
                    lemma_array_view(*items);
                    assert(copies.deep_view() =~= items.deep_view());
                }
                Identifier::Array(copies)
            },
            Identifier::Field(name) => Identifier::Field(name.clone()),
        }
    }
}

/// Why a token could not be resolved.
#[derive(Debug, Clone, Copy, PartialEq, Eq)]
pub enum ResolveError {
    /// The token is written with decimal digits only, and the number does
    /// not fit in an `i32`.
    InvalidIntegerLiteral,
    /// The token is an operator, which names no value and no column.
    NotAnIdentifier,
}

} // verus!
