use vstd::prelude::*;

verus! {

/// What is taken on trust of the standard library's `String::push`, as its
/// documentation has it: it appends `ch` to the end of the string, so that
/// afterwards the string holds the characters that it held, in order, and
/// then `ch`.
pub assume_specification[ String::push ](s: &mut String, ch: char)
    ensures
        final(s)@ == old(s)@.push(ch),
;

/// The character sequences that the vectors of `parts` hold, in order.
pub open spec fn words(parts: Seq<Vec<char>>) -> Seq<Seq<char>> {
    parts.map_values(|w: Vec<char>| w@)
}

/// The characters of `s`, in order.
pub(crate) fn chars_of(s: &str) -> (out: Vec<char>)
    ensures
        out@ == s@,
{
    let mut out: Vec<char> = Vec::new();
    for c in it: s.chars()
        invariant
            out@ == it.seq().take(it.index() as int),
            it.seq() == s@,
    {
        out.push(c);
    }
    out
}

/// The string made of `chars`, in order.
pub(crate) fn string_of(chars: &Vec<char>) -> (out: String)
    ensures
        out@ == chars@,
{
    let mut out = String::new();
    let mut i: usize = 0;
    while i < chars.len()
        invariant
            i <= chars.len(),
            out@ == chars@.take(i as int),
        decreases chars.len() - i,
    {
        out.push(chars[i]);
        i += 1;
    }
    out
}

/// Whether `a` and `b` hold the same characters in the same order.
pub(crate) fn same_chars(a: &Vec<char>, b: &Vec<char>) -> (same: bool)
    ensures
        same == (a@ == b@),
{
    if a.len() != b.len() {
        return false;
    }
    let mut i: usize = 0;
    while i < a.len()
        invariant
            a.len() == b.len(),
            i <= a.len(),
            a@.take(i as int) == b@.take(i as int),
        decreases a.len() - i,
    {
        if a[i] != b[i] {
            return false;
        }
        i += 1;
    }
    assert(a@ == a@.take(i as int) && b@ == b@.take(i as int));
    true
}

/// Whether `word` is one of the entries of `table`.
pub(crate) fn table_has(table: &Vec<Vec<char>>, word: &Vec<char>) -> (found: bool)
    ensures
        found == words(table@).contains(word@),
{
    let mut i: usize = 0;
    while i < table.len()
        invariant
            i <= table.len(),
            forall|k: int| 0 <= k < i ==> words(table@)[k] != word@,
        decreases table.len() - i,
    {
        if same_chars(&table[i], word) {
            assert(words(table@)[i as int] == word@);
            return true;
        }
        i += 1;
    }
    false
}

} // verus!
