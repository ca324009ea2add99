use crate::text::{chars_of, table_has, words};
use vstd::prelude::*;

verus! {

/// The operator tokens of the query language: all of them, those that take
/// two operands, and those that take one. It is made once and then only read.
pub struct Vocabulary {
    operators: Vec<Vec<char>>,
    binary: Vec<Vec<char>>,
    unary: Vec<Vec<char>>,
}

/// Whether every entry of `part` is an entry of `whole`.
spec fn all_among(part: Seq<Seq<char>>, whole: Seq<Seq<char>>) -> bool {
    forall|k: int| 0 <= k < part.len() ==> whole.contains(#[trigger] part[k])
}

/// Every entry of one table is an entry of another exactly if the entries
/// of the first are a subset of those of the second.
proof fn lemma_all_among(part: Seq<Seq<char>>, whole: Seq<Seq<char>>)
    ensures
        all_among(part, whole) <==> part.to_set().subset_of(whole.to_set()),
{
    if part.to_set().subset_of(whole.to_set()) {
        assert forall|k: int| 0 <= k < part.len() implies whole.contains(#[trigger] part[k]) by {
            assert(part.to_set().contains(part[k]));
        }
    }
}

impl Vocabulary {
    /// Every operator token.
    pub closed spec fn operators(&self) -> Set<Seq<char>> {
        words(self.operators@).to_set()
    }

    /// The operator tokens that take two operands.
    pub closed spec fn binary_operators(&self) -> Set<Seq<char>> {
        words(self.binary@).to_set()
    }

    /// The operator tokens that take one operand.
    pub closed spec fn unary_operators(&self) -> Set<Seq<char>> {
        words(self.unary@).to_set()
    }

    #[verifier::type_invariant]
    spec fn subsets(&self) -> bool {
        &&& self.binary_operators().subset_of(self.operators())
        &&& self.unary_operators().subset_of(self.operators())
    }

    /// Makes a vocabulary of the three tables. There is one exactly if every
    /// binary and every unary operator is among `operators`. The order of a
    /// table does not matter, nor how often it names an operator.
    pub fn new(operators: &[&str], binary: &[&str], unary: &[&str]) -> (out: Option<Vocabulary>)
        ensures
            out is Some <==> binary.deep_view().to_set().subset_of(operators.deep_view().to_set())
                && unary.deep_view().to_set().subset_of(operators.deep_view().to_set()),
            out matches Some(v) ==> v.operators() == operators.deep_view().to_set(),
            out matches Some(v) ==> v.binary_operators() == binary.deep_view().to_set(),
            out matches Some(v) ==> v.unary_operators() == unary.deep_view().to_set(),
    {
        let all = table_of(operators);
        let two = table_of(binary);
        let one = table_of(unary);
        proof {
            lemma_all_among(words(two@), words(all@));
            lemma_all_among(words(one@), words(all@));
        }
        if is_part(&two, &all) && is_part(&one, &all) {
            Some(Vocabulary { operators: all, binary: two, unary: one })
        } else {
            None
        }
    }

    /// Whether `word` is an operator.
    pub(crate) fn has_operator(&self, word: &Vec<char>) -> (found: bool)
        ensures
            found == self.operators().contains(word@),
    {
        table_has(&self.operators, word)
    }

    /// Whether `word` is a binary operator.
    pub(crate) fn has_binary(&self, word: &Vec<char>) -> (found: bool)
        ensures
            found == self.binary_operators().contains(word@),
            found ==> self.operators().contains(word@),
    {
        proof {
            use_type_invariant(self);
        }
        table_has(&self.binary, word)
    }

    /// Whether `word` is a unary operator.
    pub(crate) fn has_unary(&self, word: &Vec<char>) -> (found: bool)
        ensures
            found == self.unary_operators().contains(word@),
            found ==> self.operators().contains(word@),
    {
        proof {
            use_type_invariant(self);
        }
        table_has(&self.unary, word)
    }
}

/// The entries of `table`, each as its characters.
fn table_of(table: &[&str]) -> (out: Vec<Vec<char>>)
    ensures
        words(out@) == table.deep_view(),
{
    let mut out: Vec<Vec<char>> = Vec::new();
    let mut i: usize = 0;
    while i < table.len()
        invariant
            i <= table.len(),
            out.len() == i,
            forall|k: int| 0 <= k < i ==> out[k]@ == table[k]@,
        decreases table.len() - i,
    {
        out.push(chars_of(table[i]));
        i += 1;
    }
    out
}

/// Whether every entry of `part` is an entry of `whole`.
fn is_part(part: &Vec<Vec<char>>, whole: &Vec<Vec<char>>) -> (yes: bool)
    ensures
        yes == all_among(words(part@), words(whole@)),
{
    let mut i: usize = 0;
    while i < part.len()
        invariant
            i <= part.len(),
            forall|k: int| 0 <= k < i ==> words(whole@).contains(#[trigger] words(part@)[k]),
        decreases part.len() - i,
    {
        if !table_has(whole, &part[i]) {
            assert(words(part@)[i as int] == part[i as int]@);
            return false;
        }
        i += 1;
    }
    true
}

} // verus!
