use crate::text::{chars_of, string_of, words};
use vstd::prelude::*;

verus! {

/// What the scanner of an array literal knows after some of its characters.
pub ghost struct ScanState {
    /// The elements that are complete, in the order in which they ended.
    pub emitted: Seq<Seq<char>>,
    /// The characters of the element that is being read.
    pub pending: Seq<char>,
    /// Whether the scanner is inside a quoted string.
    pub quoted: bool,
}

/// The state in which a scan starts: nothing read, outside quotes.
pub open spec fn scan_start() -> ScanState {
    ScanState { emitted: Seq::empty(), pending: Seq::empty(), quoted: false }
}

/// The state with `c` added to the element that is being read.
pub open spec fn keep(st: ScanState, c: char) -> ScanState {
    ScanState { pending: st.pending.push(c), ..st }
}

/// The state with the element that is being read closed and a new, empty one begun.
pub open spec fn emit(st: ScanState) -> ScanState {
    ScanState { emitted: st.emitted.push(st.pending), pending: Seq::empty(), ..st }
}

/// One step of the scanner: the state after the character `c`, which stands
/// directly behind `prev`.
///
/// A quote that no backslash precedes opens a quoted string, or closes the one
/// that is open and with it the element. Inside a quoted string every other
/// character is kept. Outside, a comma ends the element if it has any
/// character, a space is dropped, and every other character is kept.
pub open spec fn scan_step(st: ScanState, prev: char, c: char) -> ScanState {
    if c == '\'' && prev != '\\' {
        if st.quoted {
            emit(ScanState { quoted: false, ..keep(st, c) })
        } else {
            ScanState { quoted: true, ..keep(st, c) }
        }
    } else if st.quoted {
        keep(st, c)
    } else if c == ',' {
        if st.pending.len() > 0 {
            emit(st)
        } else {
            st
        }
    } else if c == ' ' {
        st
    } else {
        keep(st, c)
    }
}

/// The state of the scanner when it has read the characters of `token` from
/// index 1 up to, but not including, index `upto`. The character at index 0
/// is the opening delimiter and is never read.
pub open spec fn scan(token: Seq<char>, upto: int) -> ScanState
    decreases upto,
{
    if upto <= 1 {
        scan_start()
    } else {
        scan_step(scan(token, upto - 1), token[upto - 2], token[upto - 1])
    }
}

/// The elements that a finished scan yields: the complete ones, and after
/// them the one that was being read, if it has any character.
pub open spec fn scan_result(st: ScanState) -> Seq<Seq<char>> {
    if st.pending.len() > 0 {
        st.emitted.push(st.pending)
    } else {
        st.emitted
    }
}

/// The element tokens of the array literal `token`: what the scanner yields
/// for the characters between the first and the last one, which are the
/// delimiters. A token of fewer than three characters has no element.
pub open spec fn split_elements(token: Seq<char>) -> Seq<Seq<char>> {
    scan_result(scan(token, token.len() - 1))
}

/// While it reads, the scanner keeps no more characters in an element than
/// it has read, and it closes no element that is empty.
pub proof fn lemma_scan_bounds(token: Seq<char>, upto: int)
    ensures
        upto <= 1 ==> scan(token, upto) == scan_start(),
        upto >= 1 ==> scan(token, upto).pending.len() <= upto - 1,
        forall|k: int|
            0 <= k < scan(token, upto).emitted.len() ==> 0 < (#[trigger] scan(
                token,
                upto,
            ).emitted[k]).len() <= upto - 1,
    decreases upto,
{
    if upto > 1 {
        lemma_scan_bounds(token, upto - 1);
    }
}

/// Every element token has at least one character, and at least two fewer
/// than the array literal that it was split from.
pub proof fn lemma_split_elements_bounds(token: Seq<char>)
    ensures
        forall|k: int|
            0 <= k < split_elements(token).len() ==> 0 < (#[trigger] split_elements(
                token,
            )[k]).len() <= token.len() - 2,
{
    lemma_scan_bounds(token, token.len() - 1);
}

/// Whether `c` separates bare elements: a comma or a space.
pub open spec fn is_separator(c: char) -> bool {
    c == ',' || c == ' '
}

/// The characters of `text` that are no separators, in order.
pub open spec fn without_separators(text: Seq<char>) -> Seq<char> {
    text.filter(|c: char| !is_separator(c))
}

/// The characters of `token` from index 1 up to, but not including, index `upto`.
pub open spec fn read_by(token: Seq<char>, upto: int) -> Seq<char> {
    if upto <= 1 {
        Seq::empty()
    } else {
        token.subrange(1, upto)
    }
}

/// The characters of `token` between its first and its last one.
pub open spec fn interior(token: Seq<char>) -> Seq<char> {
    read_by(token, token.len() - 1)
}

/// Where no quote has been read, the scanner is outside quotes, and what it
/// holds are the characters read that are no separators, in order.
pub proof fn lemma_scan_plain(token: Seq<char>, upto: int)
    requires
        upto <= token.len(),
        forall|i: int| 1 <= i < upto ==> token[i] != '\'',
    ensures
        !scan(token, upto).quoted,
        scan(token, upto).emitted.flatten() + scan(token, upto).pending == without_separators(
            read_by(token, upto),
        ),
    decreases upto,
{
    broadcast use Seq::lemma_flatten_push, Seq::lemma_filter_push;

    if upto > 1 {
        lemma_scan_plain(token, upto - 1);
        assert(read_by(token, upto) =~= read_by(token, upto - 1).push(token[upto - 1]));
    }
}

/// The element tokens of the array literal `chars`, as characters.
pub(crate) fn split_chars(chars: &Vec<char>) -> (out: Vec<Vec<char>>)
    ensures
        words(out@) == split_elements(chars@),
{
    let mut out: Vec<Vec<char>> = Vec::new();
    let mut pending: Vec<char> = Vec::new();
    let mut quoted = false;
    let n = chars.len();
    assert(words(out@) =~= Seq::empty());
    if n < 2 {
        return out;
    }
    let mut i: usize = 1;
    while i < n - 1
        invariant
            n == chars.len(),
            1 <= i <= n - 1,
            scan(chars@, i as int) == (ScanState {
                emitted: words(out@),
                pending: pending@,
                quoted,
            }),
        decreases n - i,
    {
        let c = chars[i];
        let ghost before = out@;
        if c == '\'' && chars[i - 1] != '\\' {
            pending.push(c);
            if quoted {
                let ghost word = pending@;
                out.push(pending);
                pending = Vec::new();
                quoted = false;
                assert(words(out@) =~= words(before).push(word));
            } else {
                quoted = true;
            }
        } else if quoted {
            pending.push(c);
        } else if c == ',' {
            if pending.len() > 0 {
                let ghost word = pending@;
                out.push(pending);
                pending = Vec::new();
                assert(words(out@) =~= words(before).push(word));
            }
        } else if c != ' ' {
            pending.push(c);
        }
        i += 1;
    }
    if pending.len() > 0 {
        out.push(pending);
    }
    out
}

/// Splits an array literal into its element tokens, in the order in which
/// they are written. The first and the last character of `token` are taken
/// to be the delimiters and are not read.
pub fn split_array(token: &str) -> (out: Vec<String>)
    ensures
        out.deep_view() == split_elements(token@),
{
    let chars = chars_of(token);
    let parts = split_chars(&chars);
    let mut out: Vec<String> = Vec::new();
    let mut i: usize = 0;
    while i < parts.len()
        invariant
            i <= parts.len(),
            out.len() == i,
            forall|k: int| 0 <= k < i ==> out[k]@ == parts[k]@,
        decreases parts.len() - i,
    {
        let s = string_of(&parts[i]);
        out.push(s);
        i += 1;
    }
    out
}

} // verus!
