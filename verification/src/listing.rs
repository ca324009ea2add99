use crate::split::{is_separator, scan, ScanState};
use vstd::prelude::*;

verus! {

/// Whether `c` may stand in a bare element: it is no comma, no space and no quote.
pub open spec fn is_bare_char(c: char) -> bool {
    !is_separator(c) && c != '\''
}

/// A bare element has at least one character and holds no comma, no space
/// and no quote.
pub open spec fn is_bare_element(element: Seq<char>) -> bool {
    &&& element.len() > 0
    &&& forall|j: int| 0 <= j < element.len() ==> is_bare_char(#[trigger] element[j])
}

/// Whether `element` can be listed: it is bare or quoted.
pub open spec fn is_element(element: Seq<char>) -> bool {
    is_bare_element(element) || is_quoted_element(element)
}

/// A quoted element begins with a quote and ends with the next quote that no
/// backslash precedes.
pub open spec fn is_quoted_element(element: Seq<char>) -> bool {
    &&& element.len() >= 2
    &&& element.first() == '\''
    &&& element.last() == '\''
    &&& element[element.len() - 2] != '\\'
    &&& forall|j: int|
        0 < j < element.len() - 1 && #[trigger] element[j] == '\'' ==> element[j - 1] == '\\'
}

/// The elements written one after the other, with a comma and a space
/// between each two.
pub open spec fn listed(elements: Seq<Seq<char>>) -> Seq<char>
    decreases elements.len(),
{
    if elements.len() == 0 {
        Seq::empty()
    } else if elements.len() == 1 {
        elements[0]
    } else {
        listed(elements.drop_last()) + seq![',', ' '] + elements.last()
    }
}

/// The array literal that lists `elements`.
pub open spec fn array_literal_of(elements: Seq<Seq<char>>) -> Seq<char> {
    seq!['['] + listed(elements) + seq![']']
}

/// Outside quotes the scanner keeps a run of characters that are neither
/// commas, spaces nor quotes, and closes no element.
pub proof fn lemma_scan_bare_run(token: Seq<char>, from: int, upto: int)
    requires
        1 <= from <= upto <= token.len(),
        !scan(token, from).quoted,
        forall|i: int| from <= i < upto ==> is_bare_char(#[trigger] token[i]),
    ensures
        scan(token, upto) == (ScanState {
            emitted: scan(token, from).emitted,
            pending: scan(token, from).pending + token.subrange(from, upto),
            quoted: false,
        }),
    decreases upto - from,
{
    if from < upto {
        lemma_scan_bare_run(token, from, upto - 1);
        let kept = scan(token, from).pending;
        assert((kept + token.subrange(from, upto - 1)).push(token[upto - 1]) =~= kept
            + token.subrange(from, upto));
    }
}

/// Inside quotes the scanner keeps every character up to the next quote
/// that no backslash precedes.
pub proof fn lemma_scan_inside_quotes(token: Seq<char>, from: int, upto: int)
    requires
        1 <= from < upto <= token.len(),
        !scan(token, from).quoted,
        token[from] == '\'',
        token[from - 1] != '\\',
        forall|i: int| from < i < upto && #[trigger] token[i] == '\'' ==> token[i - 1] == '\\',
    ensures
        scan(token, upto) == (ScanState {
            emitted: scan(token, from).emitted,
            pending: scan(token, from).pending + token.subrange(from, upto),
            quoted: true,
        }),
    decreases upto - from,
{
    let kept = scan(token, from).pending;
    if upto == from + 1 {
        assert(kept.push(token[from]) =~= kept + token.subrange(from, upto));
    } else {
        lemma_scan_inside_quotes(token, from, upto - 1);
        assert((kept + token.subrange(from, upto - 1)).push(token[upto - 1]) =~= kept
            + token.subrange(from, upto));
    }
}

/// Outside quotes the scanner reads a quoted element to its end and closes
/// it there, together with the characters that stood before it.
pub proof fn lemma_scan_quoted_run(token: Seq<char>, from: int, upto: int)
    requires
        1 <= from <= upto <= token.len(),
        !scan(token, from).quoted,
        token[from - 1] != '\\',
        is_quoted_element(token.subrange(from, upto)),
    ensures
        scan(token, upto) == (ScanState {
            emitted: scan(token, from).emitted.push(
                scan(token, from).pending + token.subrange(from, upto),
            ),
            pending: Seq::empty(),
            quoted: false,
        }),
{
    let kept = scan(token, from).pending;
    let element = token.subrange(from, upto);
    assert forall|i: int| from < i < upto - 1 && #[trigger] token[i] == '\'' implies token[i - 1]
        == '\\' by {
        assert(element[i - from] == token[i]);
    }
    lemma_scan_inside_quotes(token, from, upto - 1);
    assert((kept + token.subrange(from, upto - 1)).push(token[upto - 1]) =~= kept + element);
}

/// The state of the scanner that has read what lists `elements`: it is
/// outside quotes and holds these elements, of which the last one is still
/// being read if it is bare.
pub open spec fn scanned(elements: Seq<Seq<char>>) -> ScanState {
    if elements.len() > 0 && !is_quoted_element(elements.last()) {
        ScanState { emitted: elements.drop_last(), pending: elements.last(), quoted: false }
    } else {
        ScanState { emitted: elements, pending: Seq::empty(), quoted: false }
    }
}

/// A token that begins with a character other than a backslash and goes on
/// with what lists `elements` brings the scanner into the state [`scanned`].
pub proof fn lemma_scan_listed(token: Seq<char>, elements: Seq<Seq<char>>)
    requires
        elements.len() > 0,
        forall|k: int| 0 <= k < elements.len() ==> is_element(#[trigger] elements[k]),
        token.len() >= 1 + listed(elements).len(),
        token[0] != '\\',
        token.subrange(1, 1 + listed(elements).len() as int) == listed(elements),
    ensures
        scan(token, 1 + listed(elements).len() as int) == scanned(elements),
    decreases elements.len(),
{
    let last = elements.last();
    let end: int = 1 + listed(elements).len() as int;
    let begin: int = end - last.len();
    if elements.len() == 1 {
        assert(elements.drop_last() =~= Seq::empty());
        assert(Seq::<Seq<char>>::empty().push(last) =~= elements);
    } else {
        let front = elements.drop_last();
        let comma: int = 1 + listed(front).len() as int;
        assert(token.subrange(1, comma) =~= listed(front));
        lemma_scan_listed(token, front);
        assert(token[comma] == ',' && token[comma + 1] == ' ') by {
            assert(token.subrange(1, end)[comma - 1] == ',');
            assert(token.subrange(1, end)[comma] == ' ');
        }
        assert(front.drop_last().push(front.last()) =~= front);
        assert(scan(token, begin) == scan(token, comma + 1));
        assert(front.push(last) =~= elements);
    }
    assert(token.subrange(begin, end) =~= last) by {
        assert(token.subrange(1, end).subrange(begin - 1, end - 1) =~= token.subrange(begin, end));
    }
    if is_quoted_element(last) {
        lemma_scan_quoted_run(token, begin, end);
    } else {
        assert forall|i: int| begin <= i < end implies is_bare_char(#[trigger] token[i]) by {
            assert(token[i] == last[i - begin]);
        }
        lemma_scan_bare_run(token, begin, end);
    }
}

} // verus!
