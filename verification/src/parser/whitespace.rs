//! Blank space: spaces, line breaks, and comments.

use vstd::prelude::*;
use crate::parser::Parse;

verus! {

/// Whether the character is a space, a tab or a line break.
pub open spec fn is_space(c: char) -> bool {
    c == '\n' || c == '\r' || c == ' ' || c == '\t'
}

/// The end of the run of spaces that starts at `a`.
pub open spec fn spaces_end(cs: Seq<char>, a: int) -> int
    decreases cs.len() - a,
{
    if 0 <= a < cs.len() && is_space(cs[a]) {
        spaces_end(cs, a + 1)
    } else {
        a
    }
}

/// The end of the line that `a` is on: the position of the next line feed,
/// or the end of the text.
pub open spec fn line_end(cs: Seq<char>, a: int) -> int
    decreases cs.len() - a,
{
    if 0 <= a < cs.len() && cs[a] != '\n' {
        line_end(cs, a + 1)
    } else {
        a
    }
}

/// The end of the block comment whose body starts at `a`: the position
/// behind the first `*/`, if there is one.
pub open spec fn block_end(cs: Seq<char>, a: int) -> Option<int>
    decreases cs.len() - a,
{
    if a < 0 || a + 1 >= cs.len() {
        None
    } else if cs[a] == '*' && cs[a + 1] == '/' {
        Some(a + 2)
    } else {
        block_end(cs, a + 1)
    }
}

/// The end of the piece of blank space that starts at `a`, if one does: a
/// run of spaces, a comment from `//` to the end of the line, or a comment
/// from `/*` to the next `*/`.
pub open spec fn blank_end(cs: Seq<char>, a: int) -> Option<int> {
    if 0 <= a < cs.len() && is_space(cs[a]) {
        Some(spaces_end(cs, a))
    } else if 0 <= a && a + 1 < cs.len() && cs[a] == '/' && cs[a + 1] == '/' {
        Some(line_end(cs, a + 2))
    } else if 0 <= a && a + 1 < cs.len() && cs[a] == '/' && cs[a + 1] == '*' {
        block_end(cs, a + 2)
    } else {
        None
    }
}

/// The end of the blank space that starts at `a`: the first position from
/// `a` on at which no piece of blank space starts.
pub open spec fn skip(cs: Seq<char>, a: int) -> int
    decreases cs.len() - a,
{
    match blank_end(cs, a) {
        Some(e) => if a < e <= cs.len() {
            skip(cs, e)
        } else {
            a
        },
        None => a,
    }
}

/// Skipping blank space goes forward, stays in the text, and leaves no
/// blank space to skip.
pub proof fn lemma_skip(cs: Seq<char>, a: int)
    requires
        0 <= a <= cs.len(),
    ensures
        a <= skip(cs, a) <= cs.len(),
        skip(cs, skip(cs, a)) == skip(cs, a),
    decreases cs.len() - a,
{
    match blank_end(cs, a) {
        Some(e) => {
            if a < e <= cs.len() {
                lemma_skip(cs, e);
            }
        },
        None => {},
    }
}

/// The end of the run of spaces that starts at `pos`.
fn spaces(inp: &Vec<char>, pos: usize) -> (r: usize)
    requires
        pos <= inp@.len(),
    ensures
        r == spaces_end(inp@, pos as int),
        pos <= r <= inp@.len(),
{
    let mut at = pos;
    while at < inp.len() && (inp[at] == '\n' || inp[at] == '\r' || inp[at] == ' ' || inp[at]
        == '\t')
        invariant
            pos <= at <= inp@.len(),
            spaces_end(inp@, pos as int) == spaces_end(inp@, at as int),
        decreases inp@.len() - at,
    {
        at += 1;
    }
    at
}

/// A comment from `//` to the end of the line, if one starts at `pos`.
fn line_comment(inp: &Vec<char>, pos: usize) -> (r: Option<usize>)
    requires
        pos <= inp@.len(),
    ensures
        match r {
            Some(e) => pos + 1 < inp@.len() && inp@[pos as int] == '/' && inp@[pos + 1] == '/'
                && e == line_end(inp@, pos + 2) && pos + 2 <= e <= inp@.len(),
            None => !(pos + 1 < inp@.len() && inp@[pos as int] == '/' && inp@[pos + 1] == '/'),
        },
{
    let n = inp.len();
    if n - pos < 2 || inp[pos] != '/' || inp[pos + 1] != '/' {
        return None;
    }
    let mut at = pos + 2;
    while at < n && inp[at] != '\n'
        invariant
            n == inp@.len(),
            pos + 2 <= at <= n,
            line_end(inp@, pos + 2) == line_end(inp@, at as int),
        decreases n - at,
    {
        at += 1;
    }
    Some(at)
}

/// A comment from `/*` to the next `*/`, if one starts at `pos` and ends.
fn block_comment(inp: &Vec<char>, pos: usize) -> (r: Option<usize>)
    requires
        pos <= inp@.len(),
    ensures
        match r {
            Some(e) => pos + 1 < inp@.len() && inp@[pos as int] == '/' && inp@[pos + 1] == '*'
                && block_end(inp@, pos + 2) == Some(e as int) && pos + 4 <= e <= inp@.len(),
            None => !(pos + 1 < inp@.len() && inp@[pos as int] == '/' && inp@[pos + 1] == '*')
                || block_end(inp@, pos + 2) is None,
        },
{
    let n = inp.len();
    if n - pos < 2 || inp[pos] != '/' || inp[pos + 1] != '*' {
        return None;
    }
    let mut at = pos + 2;
    while n - at >= 2
        invariant
            n == inp@.len(),
            pos + 2 <= at <= n,
            inp@[pos as int] == '/' && inp@[pos + 1] == '*',
            block_end(inp@, pos + 2) == block_end(inp@, at as int),
        decreases n - at,
    {
        if inp[at] == '*' && inp[at + 1] == '/' {
            assert(block_end(inp@, at as int) == Some(at + 2));
            return Some(at + 2);
        }
        at += 1;
    }
    None
}

/// One piece of blank space, if one starts at `pos`.
fn blank(inp: &Vec<char>, pos: usize) -> (r: Option<usize>)
    requires
        pos <= inp@.len(),
    ensures
        r matches Some(e) ==> pos < e <= inp@.len(),
        match r {
            Some(e) => blank_end(inp@, pos as int) == Some(e as int),
            None => blank_end(inp@, pos as int) is None,
        },
{
    if pos < inp.len() && (inp[pos] == '\n' || inp[pos] == '\r' || inp[pos] == ' ' || inp[pos]
        == '\t') {
        assert(spaces_end(inp@, pos as int) == spaces_end(inp@, pos + 1));
        return Some(spaces(inp, pos + 1));
    }
    match line_comment(inp, pos) {
        Some(e) => Some(e),
        None => block_comment(inp, pos),
    }
}

/// Skips the blank space at `pos`, if there is any, and gives the position
/// behind it.
pub fn any_whitespace(inp: &Vec<char>, pos: usize) -> (r: usize)
    requires
        pos <= inp@.len(),
    ensures
        r == skip(inp@, pos as int),
        pos <= r <= inp@.len(),
{
    let mut at = pos;
    loop
        invariant
            pos <= at <= inp@.len(),
            skip(inp@, pos as int) == skip(inp@, at as int),
        decreases inp@.len() - at,
    {
        match blank(inp, at) {
            Some(e) => {
                at = e;
            },
            None => {
                return at;
            },
        }
    }
}

/// Skips the blank space at `pos`, of which there must be some unless the
/// text ends at `pos`, and gives the position behind it.
pub fn some_whitespace(inp: &Vec<char>, pos: usize) -> (r: Parse<()>)
    requires
        pos <= inp@.len(),
    ensures
        match r {
            Parse::Done(_, e) => e == skip(inp@, pos as int) && pos <= e <= inp@.len() && (pos
                == inp@.len() || pos < e),
            Parse::Miss => pos < inp@.len() && skip(inp@, pos as int) == pos,
            Parse::Fail(_) => false,
        },
{
    proof {
        lemma_skip(inp@, pos as int);
    }
    if pos == inp.len() {
        return Parse::Done((), pos);
    }
    let e = any_whitespace(inp, pos);
    if e == pos {
        Parse::Miss
    } else {
        Parse::Done((), e)
    }
}

} // verus!
