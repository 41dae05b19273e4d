//! Words: identifiers, variables, and numbers.

use vstd::prelude::*;
use crate::parser::whitespace::{any_whitespace, skip};
use crate::parser::Parse;

verus! {

/// Whether the character may stand in an identifier: a letter of the Latin
/// alphabet or an underscore.
pub open spec fn is_letter(c: char) -> bool {
    ('a' <= c && c <= 'z') || ('A' <= c && c <= 'Z') || c == '_'
}

/// Whether the character is a decimal digit.
pub open spec fn is_digit(c: char) -> bool {
    '0' <= c && c <= '9'
}

/// The end of the run of letters that starts at `a`.
pub open spec fn letters_end(cs: Seq<char>, a: int) -> int
    decreases cs.len() - a,
{
    if 0 <= a < cs.len() && is_letter(cs[a]) {
        letters_end(cs, a + 1)
    } else {
        a
    }
}

/// The end of the run of digits that starts at `a`.
pub open spec fn digits_end(cs: Seq<char>, a: int) -> int
    decreases cs.len() - a,
{
    if 0 <= a < cs.len() && is_digit(cs[a]) {
        digits_end(cs, a + 1)
    } else {
        a
    }
}

/// The number that the digits from `a` up to `b` write in decimal.
pub open spec fn decimal_value(cs: Seq<char>, a: int, b: int) -> int
    decreases b - a,
{
    if b <= a || b > cs.len() {
        0
    } else {
        decimal_value(cs, a, b - 1) * 10 + (cs[b - 1] as int - '0' as int)
    }
}

/// The identifier at `a`: its name, and the end of the blank space behind
/// it. An identifier is a run of letters.
pub open spec fn identifier_at(cs: Seq<char>, a: int) -> Option<(Seq<char>, int)> {
    if 0 <= a < cs.len() && is_letter(cs[a]) {
        Some((cs.subrange(a, letters_end(cs, a)), skip(cs, letters_end(cs, a))))
    } else {
        None
    }
}

/// The variable at `a`: an `@` and an identifier right behind it.
pub open spec fn var_at(cs: Seq<char>, a: int) -> Option<(Seq<char>, int)> {
    if 0 <= a < cs.len() && cs[a] == '@' {
        identifier_at(cs, a + 1)
    } else {
        None
    }
}

/// The number at `a`: the value of the run of digits there, and the end of
/// the blank space behind it.
pub open spec fn number_at(cs: Seq<char>, a: int) -> Option<(int, int)> {
    if 0 <= a < cs.len() && is_digit(cs[a]) {
        Some((decimal_value(cs, a, digits_end(cs, a)), skip(cs, digits_end(cs, a))))
    } else {
        None
    }
}

/// A run of letters or digits ends in the text, at or behind its start.
pub proof fn lemma_runs(cs: Seq<char>, a: int)
    requires
        0 <= a <= cs.len(),
    ensures
        a <= letters_end(cs, a) <= cs.len(),
        a <= digits_end(cs, a) <= cs.len(),
        a < cs.len() && is_letter(cs[a]) ==> a < letters_end(cs, a),
        a < cs.len() && is_digit(cs[a]) ==> a < digits_end(cs, a),
    decreases cs.len() - a,
{
    if a < cs.len() {
        lemma_runs(cs, a + 1);
    }
}

/// A word ends in the text, behind its start, and a number, a variable
/// and an identifier start with different characters.
pub proof fn lemma_words(cs: Seq<char>, a: int)
    requires
        0 <= a <= cs.len(),
    ensures
        identifier_at(cs, a) matches Some((_, e)) ==> a < e <= cs.len() && is_letter(cs[a]),
        var_at(cs, a) matches Some((_, e)) ==> a < e <= cs.len() && cs[a] == '@',
        number_at(cs, a) matches Some((v, e)) ==> a < e <= cs.len() && is_digit(cs[a]) && 0 <= v,
{
    lemma_runs(cs, a);
    if a < cs.len() {
        lemma_runs(cs, a + 1);
        crate::parser::whitespace::lemma_skip(cs, letters_end(cs, a));
        crate::parser::whitespace::lemma_skip(cs, letters_end(cs, a + 1));
        crate::parser::whitespace::lemma_skip(cs, digits_end(cs, a));
        lemma_digit_run(cs, a);
        lemma_decimal(cs, a, digits_end(cs, a));
    }
}

/// A run of digits holds digits only.
pub proof fn lemma_digit_run(cs: Seq<char>, a: int)
    requires
        0 <= a <= cs.len(),
    ensures
        forall|k: int| a <= k < digits_end(cs, a) ==> is_digit(#[trigger] cs[k]),
    decreases cs.len() - a,
{
    if a < cs.len() && is_digit(cs[a]) {
        lemma_digit_run(cs, a + 1);
    }
}

/// The value of a run of digits is not negative.
pub proof fn lemma_decimal(cs: Seq<char>, a: int, b: int)
    requires
        0 <= a <= b <= cs.len(),
        forall|k: int| a <= k < b ==> is_digit(#[trigger] cs[k]),
    ensures
        decimal_value(cs, a, b) >= 0,
    decreases b - a,
{
    if a < b {
        lemma_decimal(cs, a, b - 1);
    }
}

/// Whether the character may stand in an identifier.
fn letter(c: char) -> (r: bool)
    ensures
        r == is_letter(c),
{
    ('a' <= c && c <= 'z') || ('A' <= c && c <= 'Z') || c == '_'
}

/// Appends one character to a string.
///
/// This is `String::push` of the standard library, which puts the given
/// character at the end of the string.
#[verifier::external_body]
fn push_char(s: &mut String, c: char)
    ensures
        final(s)@ == old(s)@.push(c),
{
    s.push(c)
}

/// The characters of the text from `from` up to `to`, as a string.
fn text_of(inp: &Vec<char>, from: usize, to: usize) -> (r: String)
    requires
        from <= to <= inp@.len(),
    ensures
        r@ == inp@.subrange(from as int, to as int),
{
    let mut out = String::new();
    let mut k = from;
    assert(out@ =~= inp@.subrange(from as int, from as int));
    while k < to
        invariant
            from <= k <= to <= inp@.len(),
            out@ == inp@.subrange(from as int, k as int),
        decreases to - k,
    {
        push_char(&mut out, inp[k]);
        assert(out@ =~= inp@.subrange(from as int, k + 1));
        k += 1;
    }
    out
}

/// Reads an identifier at `pos` and the blank space behind it.
pub fn identifier(inp: &Vec<char>, pos: usize) -> (r: Parse<String>)
    requires
        pos <= inp@.len(),
    ensures
        match r {
            Parse::Done(name, e) => identifier_at(inp@, pos as int) == Some((name@, e as int))
                && pos < e <= inp@.len(),
            Parse::Miss => identifier_at(inp@, pos as int) is None,
            Parse::Fail(_) => false,
        },
{
    let n = inp.len();
    if pos >= n || !letter(inp[pos]) {
        return Parse::Miss;
    }
    let mut at = pos + 1;
    while at < n && letter(inp[at])
        invariant
            n == inp@.len(),
            pos < at <= n,
            letters_end(inp@, pos as int) == letters_end(inp@, at as int),
        decreases n - at,
    {
        at += 1;
    }
    let name = text_of(inp, pos, at);
    Parse::Done(name, any_whitespace(inp, at))
}

/// Reads a variable at `pos`: an `@`, an identifier right behind it, and
/// the blank space behind that.
pub fn var(inp: &Vec<char>, pos: usize) -> (r: Parse<String>)
    requires
        pos <= inp@.len(),
    ensures
        match r {
            Parse::Done(name, e) => var_at(inp@, pos as int) == Some((name@, e as int)) && pos
                < e <= inp@.len(),
            Parse::Miss => var_at(inp@, pos as int) is None,
            Parse::Fail(_) => false,
        },
{
    if pos >= inp.len() || inp[pos] != '@' {
        return Parse::Miss;
    }
    identifier(inp, pos + 1)
}

/// Reads a number at `pos` and the blank space behind it. A number that
/// does not fit a machine integer is malformed.
pub fn number(inp: &Vec<char>, pos: usize) -> (r: Parse<i64>)
    requires
        pos <= inp@.len(),
    ensures
        match r {
            Parse::Done(i, e) => number_at(inp@, pos as int) == Some((i as int, e as int)) && pos
                < e <= inp@.len(),
            Parse::Miss => number_at(inp@, pos as int) is None,
            Parse::Fail(at) => number_at(inp@, pos as int) matches Some((i, _)) && i > i64::MAX,
        },
{
    let n = inp.len();
    if pos >= n || !('0' <= inp[pos] && inp[pos] <= '9') {
        return Parse::Miss;
    }
    let mut at = pos;
    let mut value: i64 = 0;
    let mut fits = true;
    while at < n && '0' <= inp[at] && inp[at] <= '9'
        invariant
            n == inp@.len(),
            pos <= at <= n,
            at > pos || (at == pos && value == 0 && fits),
            digits_end(inp@, pos as int) == digits_end(inp@, at as int),
            forall|k: int| pos <= k < at ==> is_digit(#[trigger] inp@[k]),
            fits ==> value == decimal_value(inp@, pos as int, at as int),
            value >= 0,
            !fits ==> decimal_value(inp@, pos as int, at as int) > i64::MAX,
            decimal_value(inp@, pos as int, at as int) >= 0,
        decreases n - at,
    {
        let d: i64 = (inp[at] as u32 - '0' as u32) as i64;
        proof {
            assert(decimal_value(inp@, pos as int, at + 1) == decimal_value(
                inp@,
                pos as int,
                at as int,
            ) * 10 + d);
        }
        if fits {
            if value > (i64::MAX - d) / 10 {
                fits = false;
            } else {
                value = value * 10 + d;
            }
        }
        at += 1;
    }
    if !fits {
        return Parse::Fail(pos);
    }
    Parse::Done(value, any_whitespace(inp, at))
}

} // verus!
