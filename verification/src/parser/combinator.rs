//! Signs and keywords, with the blank space behind them.

use vstd::prelude::*;
use crate::parser::whitespace::{any_whitespace, skip, some_whitespace};
use crate::parser::Parse;

verus! {

/// Whether the characters of `word` stand at `a`.
pub open spec fn stands(cs: Seq<char>, a: int, word: Seq<char>) -> bool {
    0 <= a && a + word.len() <= cs.len() && cs.subrange(a, a + word.len()) == word
}

/// The end of the sign `word` at `a` and of the blank space behind it, if
/// the sign stands there.
pub open spec fn sign_end(cs: Seq<char>, a: int, word: Seq<char>) -> Option<int> {
    if stands(cs, a, word) {
        Some(skip(cs, a + word.len()))
    } else {
        None
    }
}

/// The end of the keyword `word` at `a` and of the blank space behind it,
/// if the keyword stands there. A keyword is followed by blank space or by
/// the end of the text.
pub open spec fn keyword_end(cs: Seq<char>, a: int, word: Seq<char>) -> Option<int> {
    if stands(cs, a, word) && (a + word.len() == cs.len() || skip(cs, a + word.len()) > a
        + word.len()) {
        Some(skip(cs, a + word.len()))
    } else {
        None
    }
}

/// A sign ends behind its characters, in the text.
pub proof fn lemma_sign(cs: Seq<char>, a: int, word: Seq<char>)
    requires
        0 <= a <= cs.len(),
    ensures
        sign_end(cs, a, word) matches Some(e) ==> a + word.len() <= e <= cs.len(),
        keyword_end(cs, a, word) matches Some(e) ==> a + word.len() <= e <= cs.len(),
{
    if stands(cs, a, word) {
        crate::parser::whitespace::lemma_skip(cs, a + word.len());
    }
}

/// The signs that open the parts of the grammar exclude each other, and
/// none of them starts a word.
pub proof fn lemma_signs(cs: Seq<char>, a: int)
    requires
        0 <= a <= cs.len(),
    ensures
        sign_end(cs, a, seq!['v', '[']) is Some ==> a < cs.len() && cs[a] == 'v' && a + 1
            < cs.len() && cs[a + 1] == '[',
        sign_end(cs, a, seq!['s', '[']) is Some ==> a < cs.len() && cs[a] == 's' && a + 1
            < cs.len() && cs[a + 1] == '[',
        sign_end(cs, a, seq!['{']) is Some ==> a < cs.len() && cs[a] == '{',
        sign_end(cs, a, seq!['(']) is Some ==> a < cs.len() && cs[a] == '(',
{
    if sign_end(cs, a, seq!['v', '[']) is Some {
        assert(cs.subrange(a, a + 2)[0] == 'v');
        assert(cs.subrange(a, a + 2)[1] == '[');
    }
    if sign_end(cs, a, seq!['s', '[']) is Some {
        assert(cs.subrange(a, a + 2)[0] == 's');
        assert(cs.subrange(a, a + 2)[1] == '[');
    }
    if sign_end(cs, a, seq!['{']) is Some {
        assert(cs.subrange(a, a + 1)[0] == '{');
    }
    if sign_end(cs, a, seq!['(']) is Some {
        assert(cs.subrange(a, a + 1)[0] == '(');
    }
}

/// Whether the characters of `word` stand at `pos`.
pub fn tag(inp: &Vec<char>, pos: usize, word: &[char]) -> (r: bool)
    requires
        pos <= inp@.len(),
    ensures
        r == stands(inp@, pos as int, word@),
{
    let n = inp.len();
    if word.len() > n - pos {
        return false;
    }
    let mut k: usize = 0;
    while k < word.len()
        invariant
            n == inp@.len(),
            k <= word@.len(),
            pos + word@.len() <= n,
            forall|j: int| 0 <= j < k ==> inp@[pos + j] == word@[j],
        decreases word@.len() - k,
    {
        if inp[pos + k] != word[k] {
            assert(inp@.subrange(pos as int, pos + word@.len())[k as int] != word@[k as int]);
            return false;
        }
        k += 1;
    }
    assert(inp@.subrange(pos as int, pos + word@.len()) =~= word@);
    true
}

/// Reads the sign `word` at `pos` and the blank space behind it.
pub fn lexeme(inp: &Vec<char>, pos: usize, word: &[char]) -> (r: Option<usize>)
    requires
        pos <= inp@.len(),
    ensures
        r matches Some(e) ==> pos + word@.len() <= e <= inp@.len(),
        match r {
            Some(e) => sign_end(inp@, pos as int, word@) == Some(e as int),
            None => sign_end(inp@, pos as int, word@) is None,
        },
{
    let n = inp.len();
    if tag(inp, pos, word) {
        Some(any_whitespace(inp, pos + word.len()))
    } else {
        None
    }
}

/// Reads the keyword `word` at `pos` and the blank space behind it, of
/// which there must be some unless the text ends.
pub fn lexeme_ws(inp: &Vec<char>, pos: usize, word: &[char]) -> (r: Option<usize>)
    requires
        pos <= inp@.len(),
    ensures
        r matches Some(e) ==> pos + word@.len() <= e <= inp@.len(),
        match r {
            Some(e) => keyword_end(inp@, pos as int, word@) == Some(e as int),
            None => keyword_end(inp@, pos as int, word@) is None,
        },
{
    let n = inp.len();
    if !tag(inp, pos, word) {
        return None;
    }
    match some_whitespace(inp, pos + word.len()) {
        Parse::Done(_, e) => Some(e),
        _ => None,
    }
}

} // verus!
