//! Expressions and conditions.

use vstd::prelude::*;
use crate::irs::ast1::types::{BinOp, Condition, Expression};
use crate::parser::combinator::{
    keyword_end, lemma_sign, lemma_signs, lexeme, lexeme_ws, sign_end, stands, tag,
};
use crate::parser::pattern::{lemma_pattern_extent, pattern, pattern_end};
use crate::parser::whitespace::{any_whitespace, lemma_skip, skip};
use crate::parser::word::{identifier, identifier_at, lemma_words, number, number_at, var, var_at};
use crate::parser::{Extent, Parse};

verus! {

/// The binary operator at `a`, and the end of the blank space behind it.
/// The logical operators have no sign.
pub open spec fn binop_at(cs: Seq<char>, a: int) -> Option<(BinOp, int)> {
    if stands(cs, a, seq!['*']) {
        Some((BinOp::Multiply, skip(cs, a + 1)))
    } else if stands(cs, a, seq!['/']) {
        Some((BinOp::Divide, skip(cs, a + 1)))
    } else if stands(cs, a, seq!['+']) {
        Some((BinOp::Add, skip(cs, a + 1)))
    } else if stands(cs, a, seq!['-']) {
        Some((BinOp::Subtract, skip(cs, a + 1)))
    } else if stands(cs, a, seq!['<', '=']) {
        Some((BinOp::Le, skip(cs, a + 2)))
    } else if stands(cs, a, seq!['>', '=']) {
        Some((BinOp::Ge, skip(cs, a + 2)))
    } else if stands(cs, a, seq!['<']) {
        Some((BinOp::Lt, skip(cs, a + 1)))
    } else if stands(cs, a, seq!['>']) {
        Some((BinOp::Gt, skip(cs, a + 1)))
    } else if stands(cs, a, seq!['=', '=']) {
        Some((BinOp::Eq, skip(cs, a + 2)))
    } else if stands(cs, a, seq!['!', '=']) {
        Some((BinOp::Ne, skip(cs, a + 2)))
    } else {
        None
    }
}

/// A binary operator ends behind its sign, in the text, and starts with
/// none of the characters that end a list.
pub proof fn lemma_binop(cs: Seq<char>, a: int)
    requires
        0 <= a <= cs.len(),
    ensures
        binop_at(cs, a) matches Some((_, e)) ==> a < e <= cs.len(),
        sign_end(cs, a, seq![',']) is Some || sign_end(cs, a, seq![']']) is Some || sign_end(
            cs,
            a,
            seq![')'],
        ) is Some ==> binop_at(cs, a) is None,
{
    if a < cs.len() {
        lemma_skip(cs, a + 1);
        assert(cs.subrange(a, a + 1)[0] == cs[a]);
    }
    if a + 1 < cs.len() {
        lemma_skip(cs, a + 2);
        assert(cs.subrange(a, a + 2)[0] == cs[a]);
    }
}

impl Expression {
    /// The end of the text of the expression, if its text starts at `a`
    /// and no binary operator follows it.
    pub open spec fn reads(&self, cs: Seq<char>, a: int) -> Option<int>
        decreases self, 2int,
    {
        match self.reads_chain(cs, a) {
            Some(b) => if binop_at(cs, b) is None {
                Some(b)
            } else {
                None
            },
            None => None,
        }
    }

    /// The end of the text of the expression, if its text starts at `a`.
    ///
    /// The text of a binary expression is the text of its left operand, the
    /// sign of its operator, and the text of its right operand. There are
    /// no brackets: how a chain of operators is grouped is a matter of
    /// their precedence.
    pub open spec fn reads_chain(&self, cs: Seq<char>, a: int) -> Option<int>
        decreases self, 1int,
    {
        match self {
            Expression::Binary(l, op, r) => match l.reads_chain(cs, a) {
                Some(m) => match binop_at(cs, m) {
                    Some((o, m2)) => if o == *op {
                        r.reads_chain(cs, m2)
                    } else {
                        None
                    },
                    None => None,
                },
                None => None,
            },
            _ => self.reads_leaf(cs, a),
        }
    }

    /// The end of the text of the operand, if its text starts at `a`.
    ///
    /// A number is written in decimal and a variable with an `@` before its
    /// name. A vector is `v[`, its parts with commas between them, and `]`;
    /// a set is the same with `s[`. A compound is a colon and its tag,
    /// followed by its parts in round brackets if it has any. A call is
    /// the word `call` and an operand, or, for the call of a compound, the
    /// compound without its colon.
    pub open spec fn reads_leaf(&self, cs: Seq<char>, a: int) -> Option<int>
        decreases self, 0int,
    {
        match self {
            Expression::IntLiteral(i) => match number_at(cs, a) {
                Some((v, e)) => if v == *i {
                    Some(e)
                } else {
                    None
                },
                None => None,
            },
            Expression::Variable(n) => match var_at(cs, a) {
                Some((name, e)) => if name == n@ {
                    Some(e)
                } else {
                    None
                },
                None => None,
            },
            Expression::Call(inner) => match keyword_end(cs, a, seq!['c', 'a', 'l', 'l']) {
                Some(m) => inner.reads_leaf(cs, m),
                None => if sign_end(cs, a, seq!['v', '[']) is Some || sign_end(
                    cs,
                    a,
                    seq!['s', '['],
                ) is Some {
                    None
                } else {
                    match **inner {
                        Expression::Compound(name, es) => Self::reads_applied(cs, a, name@, es@),
                        _ => None,
                    }
                },
            },
            Expression::Vector(es) => match sign_end(cs, a, seq!['v', '[']) {
                Some(m) => match Self::reads_list(cs, m, es@, es@.len() as int) {
                    Some(m2) => sign_end(cs, m2, seq![']']),
                    None => None,
                },
                None => None,
            },
            Expression::SetOf(es) => match sign_end(cs, a, seq!['s', '[']) {
                Some(m) => match Self::reads_list(cs, m, es@, es@.len() as int) {
                    Some(m2) => sign_end(cs, m2, seq![']']),
                    None => None,
                },
                None => None,
            },
            Expression::Compound(name, es) => if 0 <= a < cs.len() && cs[a] == ':' {
                Self::reads_applied(cs, a + 1, name@, es@)
            } else {
                None
            },
            Expression::NoOp => None,
            Expression::Binary(_, _, _) => None,
        }
    }

    /// The end of the text of the tag `name` and of the parts `es` in round
    /// brackets behind it, if there are parts, if that text starts at `a`.
    pub open spec fn reads_applied(cs: Seq<char>, a: int, name: Seq<char>, es: Seq<Expression>)
        -> Option<int>
        decreases es, es.len() + 1,
    {
        match identifier_at(cs, a) {
            Some((tag, m)) => if tag != name {
                None
            } else {
                match sign_end(cs, m, seq!['(']) {
                    None => if es.len() == 0 {
                        Some(m)
                    } else {
                        None
                    },
                    Some(m1) => if es.len() == 0 {
                        None
                    } else {
                        match Self::reads_list(cs, m1, es, es.len() as int) {
                            Some(m2) => sign_end(cs, m2, seq![')']),
                            None => None,
                        }
                    },
                }
            },
            None => None,
        }
    }

    /// The end of the text of the first `n` of the expressions `es`, with
    /// commas between them, if that text starts at `a`.
    pub open spec fn reads_list(cs: Seq<char>, a: int, es: Seq<Expression>, n: int) -> Option<int>
        decreases es, n,
    {
        if n <= 0 {
            Some(a)
        } else if n > es.len() {
            None
        } else if n == 1 {
            es[0].reads(cs, a)
        } else {
            match Self::reads_list(cs, a, es, n - 1) {
                Some(m) => match sign_end(cs, m, seq![',']) {
                    Some(m2) => es[n - 1].reads(cs, m2),
                    None => None,
                },
                None => None,
            }
        }
    }
}

/// Where the parts in round brackets that start at `a` end; at `a`, if no
/// bracket opens there.
pub open spec fn arguments_end(cs: Seq<char>, a: int) -> Extent
    decreases cs.len() - a, 0int,
{
    match sign_end(cs, a, seq!['(']) {
        None => Extent::Ends(a),
        Some(m1) => if a < m1 <= cs.len() {
            match expressions_end(cs, m1) {
                Extent::Ends(m2) => if m2 == m1 {
                    Extent::Broken
                } else {
                    Extent::sign(sign_end(cs, m2, seq![')']))
                },
                _ => Extent::Broken,
            }
        } else {
            Extent::Broken
        },
    }
}

/// Where the call of a compound without the word `call` ends.
pub open spec fn implicit_call_end(cs: Seq<char>, a: int) -> Extent
    decreases cs.len() - a, 1int,
{
    match identifier_at(cs, a) {
        None => Extent::Absent,
        Some((_, m)) => if a < m <= cs.len() {
            arguments_end(cs, m)
        } else {
            Extent::Broken
        },
    }
}

/// Where the list in square brackets ends whose parts start at `m`.
pub open spec fn bracketed_end(cs: Seq<char>, m: int) -> Extent
    decreases cs.len() - m, 5int,
{
    match expressions_end(cs, m) {
        Extent::Ends(m2) => Extent::sign(sign_end(cs, m2, seq![']'])),
        _ => Extent::Broken,
    }
}

/// Where the operand at `a` ends.
pub open spec fn leaf_end(cs: Seq<char>, a: int) -> Extent
    decreases cs.len() - a, 2int,
{
    if a < 0 || a > cs.len() {
        Extent::Absent
    } else if number_at(cs, a) is Some {
        if number_at(cs, a)->Some_0.0 <= i64::MAX {
            Extent::Ends(number_at(cs, a)->Some_0.1)
        } else {
            Extent::Broken
        }
    } else if var_at(cs, a) is Some {
        Extent::Ends(var_at(cs, a)->Some_0.1)
    } else if keyword_end(cs, a, seq!['c', 'a', 'l', 'l']) is Some {
        let m = keyword_end(cs, a, seq!['c', 'a', 'l', 'l'])->Some_0;
        if a < m <= cs.len() {
            leaf_end(cs, m).owed()
        } else {
            Extent::Broken
        }
    } else if sign_end(cs, a, seq!['v', '[']) is Some {
        let m = sign_end(cs, a, seq!['v', '['])->Some_0;
        if a < m <= cs.len() {
            bracketed_end(cs, m)
        } else {
            Extent::Broken
        }
    } else if sign_end(cs, a, seq!['s', '[']) is Some {
        let m = sign_end(cs, a, seq!['s', '['])->Some_0;
        if a < m <= cs.len() {
            bracketed_end(cs, m)
        } else {
            Extent::Broken
        }
    } else if a < cs.len() && cs[a] == ':' {
        match identifier_at(cs, a + 1) {
            None => Extent::Broken,
            Some((_, m)) => if a < m <= cs.len() {
                arguments_end(cs, m)
            } else {
                Extent::Broken
            },
        }
    } else {
        implicit_call_end(cs, a)
    }
}

/// Where the expression ends of which an operand ends at `m`: at `m`,
/// unless a binary operator and more operands follow.
pub open spec fn chain_rest(cs: Seq<char>, m: int) -> Extent
    decreases cs.len() - m, 0int,
{
    match binop_at(cs, m) {
        None => Extent::Ends(m),
        Some((_, m2)) => if m < m2 <= cs.len() {
            match leaf_end(cs, m2) {
                Extent::Ends(e) => if m2 < e <= cs.len() {
                    chain_rest(cs, e)
                } else {
                    Extent::Broken
                },
                _ => Extent::Broken,
            }
        } else {
            Extent::Broken
        },
    }
}

/// Where the expression at `a` ends.
pub open spec fn chain_end(cs: Seq<char>, a: int) -> Extent
    decreases cs.len() - a, 3int,
{
    match leaf_end(cs, a) {
        Extent::Ends(m) => if a < m <= cs.len() {
            chain_rest(cs, m)
        } else {
            Extent::Broken
        },
        other => other,
    }
}

/// Where the expressions at `a`, with commas between them, end. There may
/// be none.
pub open spec fn expressions_end(cs: Seq<char>, a: int) -> Extent
    decreases cs.len() - a, 4int,
{
    match chain_end(cs, a) {
        Extent::Absent => Extent::Ends(a),
        Extent::Broken => Extent::Broken,
        Extent::Ends(e) => if a < e <= cs.len() {
            more_expressions_end(cs, e)
        } else {
            Extent::Broken
        },
    }
}

/// Where the expressions end of which one ends at `a`: at `a`, unless a
/// comma and more expressions follow.
pub open spec fn more_expressions_end(cs: Seq<char>, a: int) -> Extent
    decreases cs.len() - a, 0int,
{
    match sign_end(cs, a, seq![',']) {
        None => Extent::Ends(a),
        Some(m) => if a < m <= cs.len() {
            match chain_end(cs, m) {
                Extent::Ends(e) => if m < e <= cs.len() {
                    more_expressions_end(cs, e)
                } else {
                    Extent::Broken
                },
                _ => Extent::Broken,
            }
        } else {
            Extent::Broken
        },
    }
}

/// Where the condition in the form of a pattern ends, if the condition at
/// `a` has that form.
pub open spec fn let_condition_end(cs: Seq<char>, a: int) -> Extent {
    match keyword_end(cs, a, seq!['l', 'e', 't']) {
        None => Extent::Absent,
        Some(m) => match pattern_end(cs, m) {
            Extent::Ends(m1) => match sign_end(cs, m1, seq!['=']) {
                None => Extent::Absent,
                Some(m2) => chain_end(cs, m2),
            },
            other => other,
        },
    }
}

/// Where the condition at `a` ends.
pub open spec fn condition_end(cs: Seq<char>, a: int) -> Extent {
    match let_condition_end(cs, a) {
        Extent::Absent => chain_end(cs, a),
        other => other,
    }
}

impl Condition {
    /// The end of the text of the condition, if its text starts at `a`: the
    /// word `let`, a pattern, `=` and an expression, or, where that form is
    /// not there, an expression alone.
    pub open spec fn reads(&self, cs: Seq<char>, a: int) -> Option<int> {
        match self {
            Condition::Let(p, e) => match keyword_end(cs, a, seq!['l', 'e', 't']) {
                Some(m) => match p.reads(cs, m) {
                    Some(m1) => match sign_end(cs, m1, seq!['=']) {
                        Some(m2) => e.reads(cs, m2),
                        None => None,
                    },
                    None => None,
                },
                None => None,
            },
            Condition::Bare(e) => if let_condition_end(cs, a) == Extent::Absent {
                e.reads(cs, a)
            } else {
                None
            },
        }
    }
}

/// What a list reads does not depend on what follows in the list.
pub proof fn lemma_expressions_kept(
    cs: Seq<char>,
    a: int,
    short: Seq<Expression>,
    long: Seq<Expression>,
    n: int,
)
    requires
        0 <= n <= short.len() <= long.len(),
        forall|i: int| 0 <= i < short.len() ==> short[i] == long[i],
    ensures
        Expression::reads_list(cs, a, long, n) == Expression::reads_list(cs, a, short, n),
        Expression::all_supported(long, n) == Expression::all_supported(short, n),
        Expression::all_grouped(long, n) == Expression::all_grouped(short, n),
    decreases n,
{
    if n > 0 {
        lemma_expressions_kept(cs, a, short, long, n - 1);
    }
}

/// Where a closing bracket stands, no expression starts.
pub proof fn lemma_closing(cs: Seq<char>, a: int)
    requires
        0 <= a <= cs.len(),
    ensures
        sign_end(cs, a, seq![']']) is Some || sign_end(cs, a, seq![')']) is Some ==> sign_end(
            cs,
            a,
            seq![','],
        ) is None && chain_end(cs, a) == Extent::Absent,
{
    lemma_signs(cs, a);
    lemma_words(cs, a);
    if sign_end(cs, a, seq![']']) is Some {
        assert(cs.subrange(a, a + 1)[0] == ']');
    }
    if sign_end(cs, a, seq![')']) is Some {
        assert(cs.subrange(a, a + 1)[0] == ')');
    }
    if sign_end(cs, a, seq![',']) is Some {
        assert(cs.subrange(a, a + 1)[0] == ',');
    }
    if keyword_end(cs, a, seq!['c', 'a', 'l', 'l']) is Some {
        assert(cs.subrange(a, a + 4)[0] == 'c');
    }
}

/// An operand that the text reads as ends where the operand of the text
/// ends.
pub proof fn lemma_leaf_extent(x: Expression, cs: Seq<char>, a: int)
    requires
        0 <= a <= cs.len(),
        x.reads_leaf(cs, a) is Some,
    ensures
        leaf_end(cs, a) == Extent::Ends(x.reads_leaf(cs, a)->Some_0),
        a < x.reads_leaf(cs, a)->Some_0 <= cs.len(),
    decreases x, 0int,
{
    lemma_words(cs, a);
    lemma_signs(cs, a);
    lemma_sign(cs, a, seq!['c', 'a', 'l', 'l']);
    lemma_sign(cs, a, seq!['v', '[']);
    lemma_sign(cs, a, seq!['s', '[']);
    if keyword_end(cs, a, seq!['c', 'a', 'l', 'l']) is Some {
        assert(cs.subrange(a, a + 4)[0] == 'c');
    }
    match x {
        Expression::Call(inner) => {
            match keyword_end(cs, a, seq!['c', 'a', 'l', 'l']) {
                Some(m) => {
                    lemma_leaf_extent(*inner, cs, m);
                },
                None => {
                    match *inner {
                        Expression::Compound(name, es) => {
                            lemma_applied_extent(name@, es@, cs, a);
                        },
                        _ => {},
                    }
                },
            }
        },
        Expression::Vector(es) => {
            let m = sign_end(cs, a, seq!['v', '['])->Some_0;
            lemma_bracketed_extent(es@, cs, m);
        },
        Expression::SetOf(es) => {
            let m = sign_end(cs, a, seq!['s', '['])->Some_0;
            lemma_bracketed_extent(es@, cs, m);
        },
        Expression::Compound(name, es) => {
            lemma_applied_extent(name@, es@, cs, a + 1);
        },
        _ => {},
    }
}

/// A list in square brackets that the text reads as ends where the list of
/// the text ends.
pub proof fn lemma_bracketed_extent(es: Seq<Expression>, cs: Seq<char>, m: int)
    requires
        0 <= m <= cs.len(),
        Expression::reads_list(cs, m, es, es.len() as int) matches Some(m2) && sign_end(
            cs,
            m2,
            seq![']'],
        ) is Some,
    ensures
        bracketed_end(cs, m) == Extent::Ends(
            sign_end(
                cs,
                Expression::reads_list(cs, m, es, es.len() as int)->Some_0,
                seq![']'],
            )->Some_0,
        ),
        m < sign_end(
            cs,
            Expression::reads_list(cs, m, es, es.len() as int)->Some_0,
            seq![']'],
        )->Some_0 <= cs.len(),
    decreases es, es.len() + 1,
{
    lemma_expressions_extent(es, es.len() as int, cs, m);
    let m2 = Expression::reads_list(cs, m, es, es.len() as int)->Some_0;
    lemma_sign(cs, m2, seq![']']);
    lemma_closing(cs, m2);
    assert(expressions_end(cs, m) == Extent::Ends(m2));
}

/// A tag with its parts that the text reads as ends where the tag and the
/// parts of the text end.
pub proof fn lemma_applied_extent(name: Seq<char>, es: Seq<Expression>, cs: Seq<char>, a: int)
    requires
        0 <= a <= cs.len(),
        Expression::reads_applied(cs, a, name, es) is Some,
    ensures
        implicit_call_end(cs, a) == Extent::Ends(
            Expression::reads_applied(cs, a, name, es)->Some_0,
        ),
        identifier_at(cs, a) is Some,
        a < Expression::reads_applied(cs, a, name, es)->Some_0 <= cs.len(),
    decreases es, es.len() + 2,
{
    lemma_words(cs, a);
    let m = identifier_at(cs, a)->Some_0.1;
    if es.len() > 0 {
        lemma_sign(cs, m, seq!['(']);
        let m1 = sign_end(cs, m, seq!['('])->Some_0;
        lemma_expressions_extent(es, es.len() as int, cs, m1);
        let m2 = Expression::reads_list(cs, m1, es, es.len() as int)->Some_0;
        lemma_sign(cs, m2, seq![')']);
        lemma_closing(cs, m2);
        assert(expressions_end(cs, m1) == Extent::Ends(m2));
    }
}

/// A chain that the text reads as leads to where the chain of the text
/// goes on.
pub proof fn lemma_chain_extent(x: Expression, cs: Seq<char>, a: int)
    requires
        0 <= a <= cs.len(),
        x.reads_chain(cs, a) is Some,
    ensures
        chain_end(cs, a) == chain_rest(cs, x.reads_chain(cs, a)->Some_0),
        a < x.reads_chain(cs, a)->Some_0 <= cs.len(),
    decreases x, 1int,
{
    match x {
        Expression::Binary(l, op, r) => {
            lemma_chain_extent(*l, cs, a);
            let m = l.reads_chain(cs, a)->Some_0;
            lemma_binop(cs, m);
            let m2 = binop_at(cs, m)->Some_0.1;
            lemma_chain_extent(*r, cs, m2);
            lemma_rest(cs, r.reads_chain(cs, m2)->Some_0);
        },
        _ => {
            lemma_leaf_extent(x, cs, a);
        },
    }
}

/// What follows an operand is never absent.
pub proof fn lemma_rest(cs: Seq<char>, m: int)
    ensures
        chain_rest(cs, m) != Extent::Absent,
        more_expressions_end(cs, m) != Extent::Absent,
    decreases cs.len() - m,
{
    match binop_at(cs, m) {
        Some((_, m2)) => {
            if m < m2 <= cs.len() {
                match leaf_end(cs, m2) {
                    Extent::Ends(e) => {
                        if m2 < e <= cs.len() {
                            lemma_rest(cs, e);
                        }
                    },
                    _ => {},
                }
            }
        },
        None => {},
    }
    match sign_end(cs, m, seq![',']) {
        Some(m2) => {
            if m < m2 <= cs.len() {
                match chain_end(cs, m2) {
                    Extent::Ends(e) => {
                        if m2 < e <= cs.len() {
                            lemma_rest(cs, e);
                        }
                    },
                    _ => {},
                }
            }
        },
        None => {},
    }
}

/// An expression that the text reads as ends where the expression of the
/// text ends.
pub proof fn lemma_expression_extent(x: Expression, cs: Seq<char>, a: int)
    requires
        0 <= a <= cs.len(),
        x.reads(cs, a) is Some,
    ensures
        chain_end(cs, a) == Extent::Ends(x.reads(cs, a)->Some_0),
        a < x.reads(cs, a)->Some_0 <= cs.len(),
    decreases x, 2int,
{
    lemma_chain_extent(x, cs, a);
}

/// Expressions that the text reads as, with commas between them, lead to
/// where the expressions of the text go on.
pub proof fn lemma_expressions_extent(es: Seq<Expression>, n: int, cs: Seq<char>, a: int)
    requires
        0 <= a <= cs.len(),
        0 <= n <= es.len(),
        Expression::reads_list(cs, a, es, n) is Some,
    ensures
        a <= Expression::reads_list(cs, a, es, n)->Some_0 <= cs.len(),
        n > 0 ==> a < Expression::reads_list(cs, a, es, n)->Some_0,
        n > 0 ==> expressions_end(cs, a) == more_expressions_end(
            cs,
            Expression::reads_list(cs, a, es, n)->Some_0,
        ),
    decreases es, n,
{
    if n == 1 {
        lemma_expression_extent(es[0], cs, a);
    } else if n > 1 {
        lemma_expressions_extent(es, n - 1, cs, a);
        let m = Expression::reads_list(cs, a, es, n - 1)->Some_0;
        lemma_sign(cs, m, seq![',']);
        let m2 = sign_end(cs, m, seq![','])->Some_0;
        lemma_expression_extent(es[n - 1], cs, m2);
    }
}

/// A condition that the text reads as ends where the condition of the text
/// ends.
pub proof fn lemma_condition_extent(c: Condition, cs: Seq<char>, a: int)
    requires
        0 <= a <= cs.len(),
        c.reads(cs, a) is Some,
    ensures
        condition_end(cs, a) == Extent::Ends(c.reads(cs, a)->Some_0),
        a < c.reads(cs, a)->Some_0 <= cs.len(),
{
    match c {
        Condition::Let(p, e) => {
            lemma_sign(cs, a, seq!['l', 'e', 't']);
            let m = keyword_end(cs, a, seq!['l', 'e', 't'])->Some_0;
            lemma_pattern_extent(p, cs, m);
            let m1 = p.reads(cs, m)->Some_0;
            lemma_sign(cs, m1, seq!['=']);
            let m2 = sign_end(cs, m1, seq!['='])->Some_0;
            lemma_expression_extent(e, cs, m2);
        },
        Condition::Bare(e) => {
            lemma_expression_extent(e, cs, a);
        },
    }
}

/// Appending an operator and an operand to the tree of a chain appends
/// their text to the text of the chain.
pub proof fn lemma_integrated_reads(
    cs: Seq<char>,
    a: int,
    lhs: Expression,
    m: int,
    op: BinOp,
    m2: int,
    rhs: Expression,
    e: int,
)
    requires
        lhs.reads_chain(cs, a) == Some(m),
        binop_at(cs, m) == Some((op, m2)),
        rhs.reads_chain(cs, m2) == Some(e),
    ensures
        lhs.integrated(op, rhs).reads_chain(cs, a) == Some(e),
    decreases lhs,
{
    match lhs {
        Expression::Binary(l1, o1, r1) => {
            if !o1.spec_tighter(op) {
                let m1 = l1.reads_chain(cs, a)->Some_0;
                let m11 = binop_at(cs, m1)->Some_0.1;
                lemma_integrated_reads(cs, m11, *r1, m, op, m2, rhs, e);
            }
        },
        _ => {},
    }
}

/// Reads a binary operator and the blank space behind it.
fn expression_binop(inp: &Vec<char>, pos: usize) -> (r: Option<(BinOp, usize)>)
    requires
        pos <= inp@.len(),
    ensures
        match r {
            Some((op, e)) => binop_at(inp@, pos as int) == Some((op, e as int)) && pos < e
                <= inp@.len() && op != BinOp::And && op != BinOp::Or,
            None => binop_at(inp@, pos as int) is None,
        },
{
    let star = ['*'];
    let slash = ['/'];
    let plus = ['+'];
    let minus = ['-'];
    let le = ['<', '='];
    let ge = ['>', '='];
    let lt = ['<'];
    let gt = ['>'];
    let eq = ['=', '='];
    let ne = ['!', '='];
    proof {
        assert(star@ =~= seq!['*']);
        assert(slash@ =~= seq!['/']);
        assert(plus@ =~= seq!['+']);
        assert(minus@ =~= seq!['-']);
        assert(le@ =~= seq!['<', '=']);
        assert(ge@ =~= seq!['>', '=']);
        assert(lt@ =~= seq!['<']);
        assert(gt@ =~= seq!['>']);
        assert(eq@ =~= seq!['=', '=']);
        assert(ne@ =~= seq!['!', '=']);
    }
    let n = inp.len();
    let (op, width): (BinOp, usize) = if tag(inp, pos, &star) {
        (BinOp::Multiply, 1)
    } else if tag(inp, pos, &slash) {
        (BinOp::Divide, 1)
    } else if tag(inp, pos, &plus) {
        (BinOp::Add, 1)
    } else if tag(inp, pos, &minus) {
        (BinOp::Subtract, 1)
    } else if tag(inp, pos, &le) {
        (BinOp::Le, 2)
    } else if tag(inp, pos, &ge) {
        (BinOp::Ge, 2)
    } else if tag(inp, pos, &lt) {
        (BinOp::Lt, 1)
    } else if tag(inp, pos, &gt) {
        (BinOp::Gt, 1)
    } else if tag(inp, pos, &eq) {
        (BinOp::Eq, 2)
    } else if tag(inp, pos, &ne) {
        (BinOp::Ne, 2)
    } else {
        return None;
    };
    Some((op, any_whitespace(inp, pos + width)))
}

/// Reads expressions with commas between them, as many as there are.
pub fn expressions(inp: &Vec<char>, pos: usize) -> (r: Parse<Vec<Expression>>)
    requires
        pos <= inp@.len(),
    ensures
        r.extent() == expressions_end(inp@, pos as int),
        r matches Parse::Done(es, e) ==> {
            &&& Expression::reads_list(inp@, pos as int, es@, es@.len() as int) == Some(e as int)
            &&& Expression::all_supported(es@, es@.len() as int)
            &&& Expression::all_grouped(es@, es@.len() as int)
            &&& pos <= e <= inp@.len()
            &&& (es@.len() > 0 <==> pos < e)
        },
    decreases inp@.len() - pos, 4int,
{
    let mut items: Vec<Expression> = Vec::new();
    let mut at = match expression(inp, pos) {
        Parse::Miss => {
            return Parse::Done(items, pos);
        },
        Parse::Fail(x) => {
            return Parse::Fail(x);
        },
        Parse::Done(x, e) => {
            items.push(x);
            proof {
                assert(items@[0] == x);
                assert(Expression::all_supported(items@, 0));
                assert(Expression::all_supported(items@, 1));
                assert(Expression::all_grouped(items@, 0));
                assert(Expression::all_grouped(items@, 1));
            }
            e
        },
    };
    loop
        invariant
            pos < at <= inp@.len(),
            items@.len() > 0,
            Expression::reads_list(inp@, pos as int, items@, items@.len() as int) == Some(
                at as int,
            ),
            Expression::all_supported(items@, items@.len() as int),
            Expression::all_grouped(items@, items@.len() as int),
            expressions_end(inp@, pos as int) == more_expressions_end(inp@, at as int),
        decreases inp@.len() - at,
    {
        let comma = [','];
        assert(comma@ =~= seq![',']);
        let m = match lexeme(inp, at, &comma) {
            None => {
                return Parse::Done(items, at);
            },
            Some(m) => m,
        };
        match expression(inp, m) {
            Parse::Done(x, e) => {
                let ghost before = items@;
                items.push(x);
                proof {
                    let n = before.len() as int;
                    lemma_expressions_kept(inp@, pos as int, before, items@, n);
                    assert(items@[n] == x);
                    assert(Expression::reads_list(inp@, pos as int, items@, n) == Some(at as int));
                    assert(sign_end(inp@, at as int, seq![',']) == Some(m as int));
                    assert(Expression::reads_list(inp@, pos as int, items@, n + 1) == Some(
                        e as int,
                    ));
                    assert(Expression::all_supported(items@, n + 1));
                    assert(Expression::all_grouped(items@, n + 1));
                }
                at = e;
            },
            Parse::Miss => {
                return Parse::Fail(m);
            },
            Parse::Fail(x) => {
                return Parse::Fail(x);
            },
        }
    }
}

/// Reads the parts of a compound in round brackets, if a bracket opens at
/// `pos`; no parts, if none does.
fn arguments(inp: &Vec<char>, pos: usize) -> (r: Parse<Vec<Expression>>)
    requires
        pos <= inp@.len(),
    ensures
        r.extent() == arguments_end(inp@, pos as int),
        r matches Parse::Done(es, e) ==> {
            &&& Expression::all_supported(es@, es@.len() as int)
            &&& Expression::all_grouped(es@, es@.len() as int)
            &&& pos <= e <= inp@.len()
            &&& match sign_end(inp@, pos as int, seq!['(']) {
                None => es@.len() == 0 && e == pos,
                Some(m1) => es@.len() > 0 && (Expression::reads_list(
                    inp@,
                    m1,
                    es@,
                    es@.len() as int,
                ) matches Some(m2) && sign_end(inp@, m2, seq![')']) == Some(e as int)),
            }
        },
    decreases inp@.len() - pos, 0int,
{
    let round = ['('];
    let closing = [')'];
    proof {
        assert(round@ =~= seq!['(']);
        assert(closing@ =~= seq![')']);
    }
    match lexeme(inp, pos, &round) {
        None => Parse::Done(Vec::new(), pos),
        Some(m1) => {
            let (es, m2) = match expressions(inp, m1) {
                Parse::Done(es, e) => (es, e),
                Parse::Miss => {
                    return Parse::Fail(m1);
                },
                Parse::Fail(at) => {
                    return Parse::Fail(at);
                },
            };
            if es.len() == 0 {
                return Parse::Fail(m1);
            }
            match lexeme(inp, m2, &closing) {
                Some(e) => Parse::Done(es, e),
                None => Parse::Fail(m2),
            }
        },
    }
}

/// Reads the call of a compound that is written without the word `call`:
/// a tag, followed by the parts in round brackets if there are any.
pub fn expression_implicit_call(inp: &Vec<char>, pos: usize) -> (r: Parse<Expression>)
    requires
        pos <= inp@.len(),
    ensures
        r.extent() == implicit_call_end(inp@, pos as int),
        r matches Parse::Done(x, e) ==> {
            &&& x matches Expression::Call(inner)
            &&& *inner matches Expression::Compound(name, es)
            &&& Expression::reads_applied(inp@, pos as int, name@, es@) == Some(e as int)
            &&& x.supported()
            &&& x.grouped()
            &&& pos < e <= inp@.len()
        },
    decreases inp@.len() - pos, 1int,
{
    let (head, m) = match identifier(inp, pos) {
        Parse::Done(head, m) => (head, m),
        _ => {
            return Parse::Miss;
        },
    };
    match arguments(inp, m) {
        Parse::Done(args, e) => {
            let inner = Expression::Compound(head, args);
            assert(inner.supported());
            assert(inner.grouped());
            assert(Expression::reads_applied(inp@, pos as int, head@, args@) == Some(e as int));
            let x = Expression::Call(Box::new(inner));
            assert(x.supported());
            assert(x.grouped());
            Parse::Done(x, e)
        },
        Parse::Miss => Parse::Fail(m),
        Parse::Fail(at) => Parse::Fail(at),
    }
}

/// Reads a list in square brackets whose opening bracket is read.
fn bracketed(inp: &Vec<char>, m: usize) -> (r: Parse<Vec<Expression>>)
    requires
        m <= inp@.len(),
    ensures
        r.extent() == bracketed_end(inp@, m as int),
        r matches Parse::Done(es, e) ==> {
            &&& Expression::reads_list(inp@, m as int, es@, es@.len() as int) matches Some(m2)
                && sign_end(inp@, m2, seq![']']) == Some(e as int)
            &&& Expression::all_supported(es@, es@.len() as int)
            &&& Expression::all_grouped(es@, es@.len() as int)
            &&& m < e <= inp@.len()
        },
    decreases inp@.len() - m, 5int,
{
    let close = [']'];
    assert(close@ =~= seq![']']);
    let (es, m2) = match expressions(inp, m) {
        Parse::Done(es, e) => (es, e),
        Parse::Miss => {
            return Parse::Fail(m);
        },
        Parse::Fail(at) => {
            return Parse::Fail(at);
        },
    };
    match lexeme(inp, m2, &close) {
        Some(e) => Parse::Done(es, e),
        None => Parse::Fail(m2),
    }
}

/// Reads an operand.
fn expression_leaf(inp: &Vec<char>, pos: usize) -> (r: Parse<Expression>)
    requires
        pos <= inp@.len(),
    ensures
        r.extent() == leaf_end(inp@, pos as int),
        r matches Parse::Done(x, e) ==> x.reads_leaf(inp@, pos as int) == Some(e as int)
            && x.supported() && x.grouped() && !(x is Binary) && pos < e <= inp@.len(),
    decreases inp@.len() - pos, 2int,
{
    match number(inp, pos) {
        Parse::Done(i, e) => {
            return Parse::Done(Expression::IntLiteral(i), e);
        },
        Parse::Fail(at) => {
            return Parse::Fail(at);
        },
        Parse::Miss => {},
    }
    match var(inp, pos) {
        Parse::Done(n, e) => {
            return Parse::Done(Expression::Variable(n), e);
        },
        Parse::Fail(at) => {
            return Parse::Fail(at);
        },
        Parse::Miss => {},
    }
    let word = ['c', 'a', 'l', 'l'];
    let vector = ['v', '['];
    let set = ['s', '['];
    proof {
        assert(word@ =~= seq!['c', 'a', 'l', 'l']);
        assert(vector@ =~= seq!['v', '[']);
        assert(set@ =~= seq!['s', '[']);
    }
    match lexeme_ws(inp, pos, &word) {
        Some(m) => {
            return match expression_leaf(inp, m) {
                Parse::Done(term, e) => Parse::Done(Expression::Call(Box::new(term)), e),
                Parse::Miss => Parse::Fail(m),
                Parse::Fail(at) => Parse::Fail(at),
            };
        },
        None => {},
    }
    match lexeme(inp, pos, &vector) {
        Some(m) => {
            return match bracketed(inp, m) {
                Parse::Done(es, e) => Parse::Done(Expression::Vector(es), e),
                Parse::Miss => Parse::Fail(m),
                Parse::Fail(at) => Parse::Fail(at),
            };
        },
        None => {},
    }
    match lexeme(inp, pos, &set) {
        Some(m) => {
            return match bracketed(inp, m) {
                Parse::Done(es, e) => Parse::Done(Expression::SetOf(es), e),
                Parse::Miss => Parse::Fail(m),
                Parse::Fail(at) => Parse::Fail(at),
            };
        },
        None => {},
    }
    if pos < inp.len() && inp[pos] == ':' {
        let (head, m) = match identifier(inp, pos + 1) {
            Parse::Done(head, m) => (head, m),
            _ => {
                return Parse::Fail(pos + 1);
            },
        };
        return match arguments(inp, m) {
            Parse::Done(args, e) => {
                assert(Expression::reads_applied(inp@, pos + 1, head@, args@) == Some(e as int));
                let x = Expression::Compound(head, args);
                assert(x.supported());
                assert(x.grouped());
                assert(x.reads_leaf(inp@, pos as int) == Some(e as int));
                Parse::Done(x, e)
            },
            Parse::Miss => Parse::Fail(m),
            Parse::Fail(at) => Parse::Fail(at),
        };
    }
    expression_implicit_call(inp, pos)
}

/// Reads an expression: operands with binary operators between them. The
/// operators are grouped by their precedence, and to the left among equals.
pub fn expression(inp: &Vec<char>, pos: usize) -> (r: Parse<Expression>)
    requires
        pos <= inp@.len(),
    ensures
        r.extent() == chain_end(inp@, pos as int),
        r matches Parse::Done(x, e) ==> x.reads(inp@, pos as int) == Some(e as int)
            && x.supported() && x.grouped() && pos < e <= inp@.len(),
    decreases inp@.len() - pos, 3int,
{
    let (mut lhs, mut at) = match expression_leaf(inp, pos) {
        Parse::Done(lhs, m) => (lhs, m),
        Parse::Miss => {
            return Parse::Miss;
        },
        Parse::Fail(at) => {
            return Parse::Fail(at);
        },
    };
    loop
        invariant
            pos < at <= inp@.len(),
            lhs.reads_chain(inp@, pos as int) == Some(at as int),
            lhs.supported(),
            lhs.grouped(),
            chain_end(inp@, pos as int) == chain_rest(inp@, at as int),
        decreases inp@.len() - at,
    {
        let (op, m2) = match expression_binop(inp, at) {
            None => {
                return Parse::Done(lhs, at);
            },
            Some(found) => found,
        };
        match expression_leaf(inp, m2) {
            Parse::Done(rhs, e) => {
                proof {
                    lemma_integrated_reads(
                        inp@,
                        pos as int,
                        lhs,
                        at as int,
                        op,
                        m2 as int,
                        rhs,
                        e as int,
                    );
                    lhs.lemma_integrated_supported(op, rhs);
                    lhs.law_integrated_grouped(op, rhs);
                }
                lhs = lhs.integrate(op, rhs);
                at = e;
            },
            Parse::Miss => {
                return Parse::Fail(m2);
            },
            Parse::Fail(x) => {
                return Parse::Fail(x);
            },
        }
    }
}

/// Reads a condition.
pub fn condition(inp: &Vec<char>, pos: usize) -> (r: Parse<Condition>)
    requires
        pos <= inp@.len(),
    ensures
        r.extent() == condition_end(inp@, pos as int),
        r matches Parse::Done(c, e) ==> c.reads(inp@, pos as int) == Some(e as int)
            && c.supported() && c.grouped() && pos < e <= inp@.len(),
{
    let word = ['l', 'e', 't'];
    let equals = ['='];
    proof {
        assert(word@ =~= seq!['l', 'e', 't']);
        assert(equals@ =~= seq!['=']);
    }
    match lexeme_ws(inp, pos, &word) {
        Some(m) => {
            match pattern(inp, m) {
                Parse::Done(pat, m1) => {
                    match lexeme(inp, m1, &equals) {
                        Some(m2) => {
                            match expression(inp, m2) {
                                Parse::Done(expr, e) => {
                                    return Parse::Done(Condition::Let(pat, expr), e);
                                },
                                Parse::Fail(at) => {
                                    return Parse::Fail(at);
                                },
                                Parse::Miss => {},
                            }
                        },
                        None => {},
                    }
                },
                Parse::Fail(at) => {
                    return Parse::Fail(at);
                },
                Parse::Miss => {},
            }
        },
        None => {},
    }
    match expression(inp, pos) {
        Parse::Done(x, e) => Parse::Done(Condition::Bare(x), e),
        Parse::Miss => Parse::Miss,
        Parse::Fail(at) => Parse::Fail(at),
    }
}

} // verus!
