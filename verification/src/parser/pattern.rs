//! Patterns: numbers, variables, vectors and compounds.

use vstd::prelude::*;
use crate::irs::ast1::types::Pattern;
use crate::parser::combinator::{lexeme, sign_end};
use crate::parser::word::{identifier, identifier_at, number, number_at, var, var_at};
use crate::parser::{Extent, Parse};

verus! {

impl Pattern {
    /// The end of the text of the pattern, if its text starts at `a`.
    ///
    /// A number is written in decimal and a variable with an `@` before its
    /// name. A vector is `v[`, its parts with commas between them, and `]`.
    /// A compound is a colon and its tag, followed by its parts in round
    /// brackets if it has any. A compound of any tag cannot be written.
    pub open spec fn reads(&self, cs: Seq<char>, a: int) -> Option<int>
        decreases self, 0int,
    {
        match self {
            Pattern::IntLiteral(i) => match number_at(cs, a) {
                Some((v, e)) => if v == *i {
                    Some(e)
                } else {
                    None
                },
                None => None,
            },
            Pattern::Variable(n) => match var_at(cs, a) {
                Some((name, e)) => if name == n@ {
                    Some(e)
                } else {
                    None
                },
                None => None,
            },
            Pattern::Vector(ps) => match sign_end(cs, a, seq!['v', '[']) {
                Some(m) => match Self::reads_list(cs, m, ps@, ps@.len() as int) {
                    Some(m2) => sign_end(cs, m2, seq![']']),
                    None => None,
                },
                None => None,
            },
            Pattern::Compound(name, ps) => if 0 <= a < cs.len() && cs[a] == ':' {
                match identifier_at(cs, a + 1) {
                    Some((tag, m)) => if tag != name@ {
                        None
                    } else {
                        match sign_end(cs, m, seq!['(']) {
                            None => if ps@.len() == 0 {
                                Some(m)
                            } else {
                                None
                            },
                            Some(m1) => if ps@.len() == 0 {
                                None
                            } else {
                                match Self::reads_list(cs, m1, ps@, ps@.len() as int) {
                                    Some(m2) => sign_end(cs, m2, seq![')']),
                                    None => None,
                                }
                            },
                        }
                    },
                    None => None,
                }
            } else {
                None
            },
            Pattern::WcCompound(_) => None,
        }
    }

    /// The end of the text of the first `n` of the patterns `ps`, with
    /// commas between them, if that text starts at `a`.
    pub open spec fn reads_list(cs: Seq<char>, a: int, ps: Seq<Pattern>, n: int) -> Option<int>
        decreases ps, n,
    {
        if n <= 0 {
            Some(a)
        } else if n > ps.len() {
            None
        } else if n == 1 {
            ps[0].reads(cs, a)
        } else {
            match Self::reads_list(cs, a, ps, n - 1) {
                Some(m) => match sign_end(cs, m, seq![',']) {
                    Some(m2) => ps[n - 1].reads(cs, m2),
                    None => None,
                },
                None => None,
            }
        }
    }
}

/// Where the pattern at `a` ends.
pub open spec fn pattern_end(cs: Seq<char>, a: int) -> Extent
    decreases cs.len() - a, 1int,
{
    if a < 0 || a > cs.len() {
        Extent::Absent
    } else if number_at(cs, a) is Some {
        if number_at(cs, a)->Some_0.0 <= i64::MAX {
            Extent::Ends(number_at(cs, a)->Some_0.1)
        } else {
            Extent::Broken
        }
    } else if var_at(cs, a) is Some {
        Extent::Ends(var_at(cs, a)->Some_0.1)
    } else if sign_end(cs, a, seq!['v', '[']) is Some {
        let m = sign_end(cs, a, seq!['v', '['])->Some_0;
        if a < m <= cs.len() {
            match patterns_end(cs, m) {
                Extent::Ends(m2) => Extent::sign(sign_end(cs, m2, seq![']'])),
                _ => Extent::Broken,
            }
        } else {
            Extent::Broken
        }
    } else if a < cs.len() && cs[a] == ':' {
        match identifier_at(cs, a + 1) {
            None => Extent::Absent,
            Some((_, m)) => match sign_end(cs, m, seq!['(']) {
                None => Extent::Ends(m),
                Some(m1) => if a < m1 <= cs.len() {
                    match patterns_end(cs, m1) {
                        Extent::Ends(m2) => if m2 == m1 {
                            Extent::Broken
                        } else {
                            Extent::sign(sign_end(cs, m2, seq![')']))
                        },
                        _ => Extent::Broken,
                    }
                } else {
                    Extent::Broken
                },
            },
        }
    } else {
        Extent::Absent
    }
}

/// Where the patterns at `a`, with commas between them, end. There may be
/// none.
pub open spec fn patterns_end(cs: Seq<char>, a: int) -> Extent
    decreases cs.len() - a, 2int,
{
    match pattern_end(cs, a) {
        Extent::Absent => Extent::Ends(a),
        Extent::Broken => Extent::Broken,
        Extent::Ends(e) => if a < e <= cs.len() {
            more_patterns_end(cs, e)
        } else {
            Extent::Broken
        },
    }
}

/// Where the patterns end of which one ends at `a`: at `a`, unless a comma
/// and more patterns follow.
pub open spec fn more_patterns_end(cs: Seq<char>, a: int) -> Extent
    decreases cs.len() - a, 0int,
{
    match sign_end(cs, a, seq![',']) {
        None => Extent::Ends(a),
        Some(m) => if a < m <= cs.len() {
            match pattern_end(cs, m) {
                Extent::Ends(e) => if m < e <= cs.len() {
                    more_patterns_end(cs, e)
                } else {
                    Extent::Broken
                },
                _ => Extent::Broken,
            }
        } else {
            Extent::Broken
        },
    }
}

/// A pattern that the text reads as ends where the pattern of the text ends.
pub proof fn lemma_pattern_extent(p: Pattern, cs: Seq<char>, a: int)
    requires
        0 <= a <= cs.len(),
        p.reads(cs, a) is Some,
    ensures
        pattern_end(cs, a) == Extent::Ends(p.reads(cs, a)->Some_0),
        a < p.reads(cs, a)->Some_0 <= cs.len(),
    decreases p, 0int,
{
    crate::parser::word::lemma_words(cs, a);
    crate::parser::combinator::lemma_signs(cs, a);
    match p {
        Pattern::Vector(ps) => {
            let m = sign_end(cs, a, seq!['v', '['])->Some_0;
            crate::parser::combinator::lemma_sign(cs, a, seq!['v', '[']);
            lemma_patterns_extent(ps@, ps@.len() as int, cs, m);
            let m2 = Pattern::reads_list(cs, m, ps@, ps@.len() as int)->Some_0;
            crate::parser::combinator::lemma_sign(cs, m2, seq![']']);
            lemma_no_comma(cs, m2);
            assert(patterns_end(cs, m) == Extent::Ends(m2));
        },
        Pattern::Compound(name, ps) => {
            crate::parser::word::lemma_words(cs, a + 1);
            let m = identifier_at(cs, a + 1)->Some_0.1;
            if ps@.len() > 0 {
                crate::parser::combinator::lemma_sign(cs, m, seq!['(']);
                let m1 = sign_end(cs, m, seq!['('])->Some_0;
                lemma_patterns_extent(ps@, ps@.len() as int, cs, m1);
                let m2 = Pattern::reads_list(cs, m1, ps@, ps@.len() as int)->Some_0;
                crate::parser::combinator::lemma_sign(cs, m2, seq![')']);
                lemma_no_comma(cs, m2);
            }
        },
        _ => {},
    }
}

/// Where a closing bracket stands, no comma stands and no pattern starts.
pub proof fn lemma_no_comma(cs: Seq<char>, a: int)
    requires
        0 <= a <= cs.len(),
    ensures
        sign_end(cs, a, seq![']']) is Some || sign_end(cs, a, seq![')']) is Some ==> sign_end(
            cs,
            a,
            seq![','],
        ) is None && pattern_end(cs, a) == Extent::Absent,
{
    crate::parser::combinator::lemma_signs(cs, a);
    crate::parser::word::lemma_words(cs, a);
    if sign_end(cs, a, seq![']']) is Some {
        assert(cs.subrange(a, a + 1)[0] == ']');
        if sign_end(cs, a, seq![',']) is Some {
            assert(cs.subrange(a, a + 1)[0] == ',');
        }
    }
    if sign_end(cs, a, seq![')']) is Some {
        assert(cs.subrange(a, a + 1)[0] == ')');
        if sign_end(cs, a, seq![',']) is Some {
            assert(cs.subrange(a, a + 1)[0] == ',');
        }
    }
}

/// Patterns that the text reads as, with commas between them, lead to
/// where the patterns of the text end, if no comma follows them.
pub proof fn lemma_patterns_extent(ps: Seq<Pattern>, n: int, cs: Seq<char>, a: int)
    requires
        0 <= a <= cs.len(),
        0 <= n <= ps.len(),
        Pattern::reads_list(cs, a, ps, n) is Some,
    ensures
        a <= Pattern::reads_list(cs, a, ps, n)->Some_0 <= cs.len(),
        n > 0 ==> a < Pattern::reads_list(cs, a, ps, n)->Some_0,
        n > 0 ==> patterns_end(cs, a) == more_patterns_end(
            cs,
            Pattern::reads_list(cs, a, ps, n)->Some_0,
        ),
    decreases ps, n,
{
    if n == 1 {
        lemma_pattern_extent(ps[0], cs, a);
    } else if n > 1 {
        lemma_patterns_extent(ps, n - 1, cs, a);
        let m = Pattern::reads_list(cs, a, ps, n - 1)->Some_0;
        crate::parser::combinator::lemma_sign(cs, m, seq![',']);
        let m2 = sign_end(cs, m, seq![','])->Some_0;
        lemma_pattern_extent(ps[n - 1], cs, m2);
    }
}

/// What a list reads does not depend on what follows in the list.
pub proof fn lemma_patterns_kept(
    cs: Seq<char>,
    a: int,
    short: Seq<Pattern>,
    long: Seq<Pattern>,
    n: int,
)
    requires
        0 <= n <= short.len() <= long.len(),
        forall|i: int| 0 <= i < short.len() ==> short[i] == long[i],
    ensures
        Pattern::reads_list(cs, a, long, n) == Pattern::reads_list(cs, a, short, n),
    decreases n,
{
    if n > 1 {
        lemma_patterns_kept(cs, a, short, long, n - 1);
    }
}

/// Reads patterns with commas between them, as many as there are.
pub fn patterns(inp: &Vec<char>, pos: usize) -> (r: Parse<Vec<Pattern>>)
    requires
        pos <= inp@.len(),
    ensures
        r.extent() == patterns_end(inp@, pos as int),
        r matches Parse::Done(ps, e) ==> {
            &&& Pattern::reads_list(inp@, pos as int, ps@, ps@.len() as int) == Some(e as int)
            &&& pos <= e <= inp@.len()
            &&& (ps@.len() > 0 <==> pos < e)
        },
    decreases inp@.len() - pos, 2int,
{
    let mut items: Vec<Pattern> = Vec::new();
    let mut at = match pattern(inp, pos) {
        Parse::Miss => {
            return Parse::Done(items, pos);
        },
        Parse::Fail(x) => {
            return Parse::Fail(x);
        },
        Parse::Done(p, e) => {
            items.push(p);
            e
        },
    };
    loop
        invariant
            pos < at <= inp@.len(),
            items@.len() > 0,
            Pattern::reads_list(inp@, pos as int, items@, items@.len() as int) == Some(at as int),
            patterns_end(inp@, pos as int) == more_patterns_end(inp@, at as int),
        decreases inp@.len() - at,
    {
        let comma = [','];
        assert(comma@ =~= seq![',']);
        let m = match lexeme(inp, at, &comma) {
            None => {
                return Parse::Done(items, at);
            },
            Some(m) => m,
        };
        match pattern(inp, m) {
            Parse::Done(p, e) => {
                let ghost before = items@;
                items.push(p);
                proof {
                    let n = before.len() as int;
                    lemma_patterns_kept(inp@, pos as int, before, items@, n);
                    assert(items@[n] == p);
                    assert(Pattern::reads_list(inp@, pos as int, items@, n) == Some(at as int));
                    assert(sign_end(inp@, at as int, seq![',']) == Some(m as int));
                    assert(Pattern::reads_list(inp@, pos as int, items@, n + 1) == Some(e as int));
                }
                at = e;
            },
            Parse::Miss => {
                return Parse::Fail(m);
            },
            Parse::Fail(x) => {
                return Parse::Fail(x);
            },
        }
    }
}

/// Reads a pattern.
pub fn pattern(inp: &Vec<char>, pos: usize) -> (r: Parse<Pattern>)
    requires
        pos <= inp@.len(),
    ensures
        r.extent() == pattern_end(inp@, pos as int),
        r matches Parse::Done(p, e) ==> p.reads(inp@, pos as int) == Some(e as int) && pos < e
            <= inp@.len(),
    decreases inp@.len() - pos, 1int,
{
    match number(inp, pos) {
        Parse::Done(i, e) => {
            return Parse::Done(Pattern::IntLiteral(i), e);
        },
        Parse::Fail(at) => {
            return Parse::Fail(at);
        },
        Parse::Miss => {},
    }
    match var(inp, pos) {
        Parse::Done(n, e) => {
            return Parse::Done(Pattern::Variable(n), e);
        },
        Parse::Fail(at) => {
            return Parse::Fail(at);
        },
        Parse::Miss => {},
    }
    let open = ['v', '['];
    let close = [']'];
    let round = ['('];
    let closing = [')'];
    proof {
        assert(open@ =~= seq!['v', '[']);
        assert(close@ =~= seq![']']);
        assert(round@ =~= seq!['(']);
        assert(closing@ =~= seq![')']);
    }
    match lexeme(inp, pos, &open) {
        Some(m) => {
            let (ps, m2) = match patterns(inp, m) {
                Parse::Done(ps, e) => (ps, e),
                Parse::Miss => {
                    return Parse::Fail(m);
                },
                Parse::Fail(at) => {
                    return Parse::Fail(at);
                },
            };
            return match lexeme(inp, m2, &close) {
                Some(e) => Parse::Done(Pattern::Vector(ps), e),
                None => Parse::Fail(m2),
            };
        },
        None => {},
    }
    if pos < inp.len() && inp[pos] == ':' {
        let (name, m) = match identifier(inp, pos + 1) {
            Parse::Done(name, m) => (name, m),
            _ => {
                return Parse::Miss;
            },
        };
        match lexeme(inp, m, &round) {
            None => {
                return Parse::Done(Pattern::Compound(name, Vec::new()), m);
            },
            Some(m1) => {
                let (ps, m2) = match patterns(inp, m1) {
                    Parse::Done(ps, e) => (ps, e),
                    Parse::Miss => {
                        return Parse::Fail(m1);
                    },
                    Parse::Fail(at) => {
                        return Parse::Fail(at);
                    },
                };
                if ps.len() == 0 {
                    return Parse::Fail(m1);
                }
                return match lexeme(inp, m2, &closing) {
                    Some(e) => Parse::Done(Pattern::Compound(name, ps), e),
                    None => Parse::Fail(m2),
                };
            },
        }
    }
    Parse::Miss
}

} // verus!
