//! Statements and blocks.

use vstd::prelude::*;
use crate::irs::ast1::types::{Block, Expression, Statement};
use crate::parser::combinator::{keyword_end, lemma_sign, lemma_signs, lexeme, lexeme_ws, sign_end};
use crate::parser::expression::{
    chain_end, condition, condition_end, expression, expression_implicit_call, implicit_call_end,
    lemma_applied_extent, lemma_condition_extent, lemma_expression_extent,
};
use crate::parser::pattern::{lemma_pattern_extent, pattern, pattern_end};
use crate::parser::word::{lemma_words, var, var_at};
use crate::parser::{Extent, Parse};

verus! {

/// Where the expression at `a` and the full stop behind it end. Both must
/// be there.
pub open spec fn value_and_stop_end(cs: Seq<char>, a: int) -> Extent {
    match chain_end(cs, a) {
        Extent::Ends(m) => Extent::sign(sign_end(cs, m, seq!['.'])),
        _ => Extent::Broken,
    }
}

/// Where the statements at `a` end, one behind the other. There may be none.
pub open spec fn statements_end(cs: Seq<char>, a: int) -> Extent
    decreases cs.len() - a, 3int,
{
    match statement_end(cs, a) {
        Extent::Ends(e) => if a < e <= cs.len() {
            statements_end(cs, e)
        } else {
            Extent::Broken
        },
        Extent::Absent => Extent::Ends(a),
        Extent::Broken => Extent::Broken,
    }
}

/// Where the block at `a` ends.
pub open spec fn braces_end(cs: Seq<char>, a: int) -> Extent
    decreases cs.len() - a, 1int,
{
    match sign_end(cs, a, seq!['{']) {
        None => Extent::Absent,
        Some(m) => if a < m <= cs.len() {
            match statements_end(cs, m) {
                Extent::Ends(m1) => Extent::sign(sign_end(cs, m1, seq!['}'])),
                _ => Extent::Broken,
            }
        } else {
            Extent::Broken
        },
    }
}

/// Where what follows an `else` ends: a conditional or a block.
pub open spec fn else_end(cs: Seq<char>, a: int) -> Extent
    decreases cs.len() - a, 2int,
{
    match if_end(cs, a) {
        Extent::Absent => braces_end(cs, a),
        other => other,
    }
}

/// Where the conditional at `a` ends. An `else` that neither a
/// conditional nor a block follows is no part of it.
pub open spec fn if_end(cs: Seq<char>, a: int) -> Extent
    decreases cs.len() - a, 1int,
{
    match keyword_end(cs, a, seq!['i', 'f']) {
        None => Extent::Absent,
        Some(m) => match condition_end(cs, m) {
            Extent::Ends(m1) => if a < m1 <= cs.len() {
                match braces_end(cs, m1) {
                    Extent::Ends(m2) => match keyword_end(cs, m2, seq!['e', 'l', 's', 'e']) {
                        None => Extent::Ends(m2),
                        Some(m3) => if a < m3 <= cs.len() {
                            match else_end(cs, m3) {
                                Extent::Absent => Extent::Ends(m2),
                                other => other,
                            }
                        } else {
                            Extent::Broken
                        },
                    },
                    _ => Extent::Broken,
                }
            } else {
                Extent::Broken
            },
            _ => Extent::Broken,
        },
    }
}

/// Where the statement at `a` ends.
pub open spec fn statement_end(cs: Seq<char>, a: int) -> Extent
    decreases cs.len() - a, 2int,
{
    if keyword_end(cs, a, seq!['l', 'e', 't']) is Some {
        match pattern_end(cs, keyword_end(cs, a, seq!['l', 'e', 't'])->Some_0) {
            Extent::Ends(m1) => match sign_end(cs, m1, seq!['=']) {
                Some(m2) => value_and_stop_end(cs, m2),
                None => Extent::Broken,
            },
            _ => Extent::Broken,
        }
    } else if keyword_end(cs, a, seq!['n', 'o', 'w']) is Some {
        match var_at(cs, keyword_end(cs, a, seq!['n', 'o', 'w'])->Some_0) {
            Some((_, m1)) => match sign_end(cs, m1, seq!['=']) {
                Some(m2) => value_and_stop_end(cs, m2),
                None => Extent::Broken,
            },
            None => Extent::Broken,
        }
    } else if keyword_end(cs, a, seq!['e', 'v', 'a', 'l']) is Some {
        value_and_stop_end(cs, keyword_end(cs, a, seq!['e', 'v', 'a', 'l'])->Some_0)
    } else {
        match if_end(cs, a) {
            Extent::Absent => if keyword_end(cs, a, seq!['r', 'e', 't']) is Some {
                value_and_stop_end(cs, keyword_end(cs, a, seq!['r', 'e', 't'])->Some_0)
            } else {
                match implicit_call_end(cs, a) {
                    Extent::Ends(m) => match sign_end(cs, m, seq!['.']) {
                        Some(e) => Extent::Ends(e),
                        None => Extent::Absent,
                    },
                    other => other,
                }
            },
            other => other,
        }
    }
}

impl Statement {
    /// The end of the text of the statement, if its text starts at `a`.
    ///
    /// A binding is `let`, a pattern, `=`, an expression and a full stop.
    /// An assignment is `now`, a variable, `=`, an expression and a full
    /// stop. An evaluation is `eval`, an expression and a full stop, or the
    /// call of a compound and a full stop. A return is `ret`, an expression
    /// and a full stop. A conditional is `if`, a condition and a block; it
    /// may go on with `else` and a block or another conditional.
    pub open spec fn reads(&self, cs: Seq<char>, a: int) -> Option<int>
        decreases self, 0int,
    {
        match self {
            Statement::Destructure(p, e) => match keyword_end(cs, a, seq!['l', 'e', 't']) {
                Some(m) => match p.reads(cs, m) {
                    Some(m1) => match sign_end(cs, m1, seq!['=']) {
                        Some(m2) => match e.reads(cs, m2) {
                            Some(m3) => sign_end(cs, m3, seq!['.']),
                            None => None,
                        },
                        None => None,
                    },
                    None => None,
                },
                None => None,
            },
            Statement::Assign(name, e) => match keyword_end(cs, a, seq!['n', 'o', 'w']) {
                Some(m) => match var_at(cs, m) {
                    Some((n, m1)) => if n != name@ {
                        None
                    } else {
                        match sign_end(cs, m1, seq!['=']) {
                            Some(m2) => match e.reads(cs, m2) {
                                Some(m3) => sign_end(cs, m3, seq!['.']),
                                None => None,
                            },
                            None => None,
                        }
                    },
                    None => None,
                },
                None => None,
            },
            Statement::Eval(e) => match keyword_end(cs, a, seq!['e', 'v', 'a', 'l']) {
                Some(m) => match e.reads(cs, m) {
                    Some(m1) => sign_end(cs, m1, seq!['.']),
                    None => None,
                },
                None => if keyword_end(cs, a, seq!['l', 'e', 't']) is Some || keyword_end(
                    cs,
                    a,
                    seq!['n', 'o', 'w'],
                ) is Some || keyword_end(cs, a, seq!['i', 'f']) is Some || keyword_end(
                    cs,
                    a,
                    seq!['r', 'e', 't'],
                ) is Some {
                    None
                } else {
                    match e {
                        Expression::Call(inner) => match **inner {
                            Expression::Compound(name, es) => match Expression::reads_applied(
                                cs,
                                a,
                                name@,
                                es@,
                            ) {
                                Some(m1) => sign_end(cs, m1, seq!['.']),
                                None => None,
                            },
                            _ => None,
                        },
                        _ => None,
                    }
                },
            },
            Statement::Ret(e) => match keyword_end(cs, a, seq!['r', 'e', 't']) {
                Some(m) => match e.reads(cs, m) {
                    Some(m1) => sign_end(cs, m1, seq!['.']),
                    None => None,
                },
                None => None,
            },
            Statement::If(c, t, els) => match keyword_end(cs, a, seq!['i', 'f']) {
                Some(m) => match c.reads(cs, m) {
                    Some(m1) => match Self::reads_block(cs, m1, t.0@) {
                        Some(m2) => match keyword_end(cs, m2, seq!['e', 'l', 's', 'e']) {
                            None => if els is None {
                                Some(m2)
                            } else {
                                None
                            },
                            Some(m3) => match els {
                                None => if else_end(cs, m3) == Extent::Absent {
                                    Some(m2)
                                } else {
                                    None
                                },
                                Some(b) => match keyword_end(cs, m3, seq!['i', 'f']) {
                                    Some(_) => if b.0@.len() == 1 {
                                        b.0@[0].reads(cs, m3)
                                    } else {
                                        None
                                    },
                                    None => Self::reads_block(cs, m3, b.0@),
                                },
                            },
                        },
                        None => None,
                    },
                    None => None,
                },
                None => None,
            },
        }
    }

    /// The end of the text of the first `n` of the statements `ss`, one
    /// behind the other, if that text starts at `a`.
    pub open spec fn reads_list(cs: Seq<char>, a: int, ss: Seq<Statement>, n: int) -> Option<int>
        decreases ss, n,
    {
        if n <= 0 {
            Some(a)
        } else if n > ss.len() {
            None
        } else {
            match Self::reads_list(cs, a, ss, n - 1) {
                Some(m) => ss[n - 1].reads(cs, m),
                None => None,
            }
        }
    }

    /// The end of the text of the statements `ss` in curly brackets, if
    /// that text starts at `a`.
    pub open spec fn reads_block(cs: Seq<char>, a: int, ss: Seq<Statement>) -> Option<int>
        decreases ss, ss.len() + 1,
    {
        match sign_end(cs, a, seq!['{']) {
            Some(m) => match Self::reads_list(cs, m, ss, ss.len() as int) {
                Some(m1) => sign_end(cs, m1, seq!['}']),
                None => None,
            },
            None => None,
        }
    }
}

impl Block {
    /// The end of the text of the block, if its text starts at `a`: its
    /// statements in curly brackets.
    pub open spec fn reads(&self, cs: Seq<char>, a: int) -> Option<int> {
        Statement::reads_block(cs, a, self.0@)
    }
}

/// What a list reads does not depend on what follows in the list.
pub proof fn lemma_statements_kept(
    cs: Seq<char>,
    a: int,
    short: Seq<Statement>,
    long: Seq<Statement>,
    n: int,
)
    requires
        0 <= n <= short.len() <= long.len(),
        forall|i: int| 0 <= i < short.len() ==> short[i] == long[i],
    ensures
        Statement::reads_list(cs, a, long, n) == Statement::reads_list(cs, a, short, n),
        Statement::all_supported(long, n) == Statement::all_supported(short, n),
        Statement::all_grouped(long, n) == Statement::all_grouped(short, n),
    decreases n,
{
    if n > 0 {
        lemma_statements_kept(cs, a, short, long, n - 1);
    }
}

/// The words that open the statements exclude each other, and none of
/// them stands where a bracket or a full stop stands.
pub proof fn lemma_keywords(cs: Seq<char>, a: int)
    requires
        0 <= a <= cs.len(),
    ensures
        keyword_end(cs, a, seq!['l', 'e', 't']) matches Some(e) ==> a < e <= cs.len() && cs[a]
            == 'l',
        keyword_end(cs, a, seq!['n', 'o', 'w']) matches Some(e) ==> a < e <= cs.len() && cs[a]
            == 'n',
        keyword_end(cs, a, seq!['e', 'v', 'a', 'l']) matches Some(e) ==> a < e <= cs.len()
            && cs[a] == 'e' && cs[a + 1] == 'v',
        keyword_end(cs, a, seq!['e', 'l', 's', 'e']) matches Some(e) ==> a < e <= cs.len()
            && cs[a] == 'e' && cs[a + 1] == 'l',
        keyword_end(cs, a, seq!['i', 'f']) matches Some(e) ==> a < e <= cs.len() && cs[a] == 'i',
        keyword_end(cs, a, seq!['r', 'e', 't']) matches Some(e) ==> a < e <= cs.len() && cs[a]
            == 'r',
        keyword_end(cs, a, seq!['f', 'n']) matches Some(e) ==> a < e <= cs.len() && cs[a] == 'f',
        sign_end(cs, a, seq!['}']) is Some ==> a < cs.len() && cs[a] == '}',
        sign_end(cs, a, seq!['.']) is Some ==> a < cs.len() && cs[a] == '.',
        sign_end(cs, a, seq!['=']) is Some ==> a < cs.len() && cs[a] == '=',
{
    lemma_sign(cs, a, seq!['l', 'e', 't']);
    lemma_sign(cs, a, seq!['n', 'o', 'w']);
    lemma_sign(cs, a, seq!['e', 'v', 'a', 'l']);
    lemma_sign(cs, a, seq!['e', 'l', 's', 'e']);
    lemma_sign(cs, a, seq!['i', 'f']);
    lemma_sign(cs, a, seq!['r', 'e', 't']);
    lemma_sign(cs, a, seq!['f', 'n']);
    if keyword_end(cs, a, seq!['l', 'e', 't']) is Some {
        assert(cs.subrange(a, a + 3)[0] == 'l');
    }
    if keyword_end(cs, a, seq!['n', 'o', 'w']) is Some {
        assert(cs.subrange(a, a + 3)[0] == 'n');
    }
    if keyword_end(cs, a, seq!['e', 'v', 'a', 'l']) is Some {
        assert(cs.subrange(a, a + 4)[0] == 'e');
        assert(cs.subrange(a, a + 4)[1] == 'v');
    }
    if keyword_end(cs, a, seq!['e', 'l', 's', 'e']) is Some {
        assert(cs.subrange(a, a + 4)[0] == 'e');
        assert(cs.subrange(a, a + 4)[1] == 'l');
    }
    if keyword_end(cs, a, seq!['i', 'f']) is Some {
        assert(cs.subrange(a, a + 2)[0] == 'i');
    }
    if keyword_end(cs, a, seq!['r', 'e', 't']) is Some {
        assert(cs.subrange(a, a + 3)[0] == 'r');
    }
    if keyword_end(cs, a, seq!['f', 'n']) is Some {
        assert(cs.subrange(a, a + 2)[0] == 'f');
    }
    if sign_end(cs, a, seq!['}']) is Some {
        assert(cs.subrange(a, a + 1)[0] == '}');
    }
    if sign_end(cs, a, seq!['.']) is Some {
        assert(cs.subrange(a, a + 1)[0] == '.');
    }
    if sign_end(cs, a, seq!['=']) is Some {
        assert(cs.subrange(a, a + 1)[0] == '=');
    }
}

/// Where a closing curly bracket stands, no statement starts.
pub proof fn lemma_closing_brace(cs: Seq<char>, a: int)
    requires
        0 <= a <= cs.len(),
        sign_end(cs, a, seq!['}']) is Some,
    ensures
        statement_end(cs, a) == Extent::Absent,
{
    lemma_keywords(cs, a);
    lemma_words(cs, a);
}

/// An expression and a full stop that the text reads as end where those of
/// the text end.
pub proof fn lemma_value_extent(e: Expression, cs: Seq<char>, a: int)
    requires
        0 <= a <= cs.len(),
        e.reads(cs, a) matches Some(m) && sign_end(cs, m, seq!['.']) is Some,
    ensures
        value_and_stop_end(cs, a) == Extent::Ends(
            sign_end(cs, e.reads(cs, a)->Some_0, seq!['.'])->Some_0,
        ),
        a < sign_end(cs, e.reads(cs, a)->Some_0, seq!['.'])->Some_0 <= cs.len(),
{
    lemma_expression_extent(e, cs, a);
    lemma_sign(cs, e.reads(cs, a)->Some_0, seq!['.']);
}

/// A binding that the text reads as ends where the statement of the text
/// ends.
pub proof fn lemma_binding_extent(st: Statement, cs: Seq<char>, a: int)
    requires
        0 <= a <= cs.len(),
        st is Destructure,
        st.reads(cs, a) is Some,
    ensures
        statement_end(cs, a) == Extent::Ends(st.reads(cs, a)->Some_0),
        a < st.reads(cs, a)->Some_0 <= cs.len(),
{
    lemma_keywords(cs, a);
    match st {
        Statement::Destructure(p, e) => {
            let m = keyword_end(cs, a, seq!['l', 'e', 't'])->Some_0;
            lemma_pattern_extent(p, cs, m);
            let m1 = p.reads(cs, m)->Some_0;
            lemma_sign(cs, m1, seq!['=']);
            let m2 = sign_end(cs, m1, seq!['='])->Some_0;
            lemma_value_extent(e, cs, m2);
        },
        _ => {},
    }
}

/// An assignment that the text reads as ends where the statement of the
/// text ends.
pub proof fn lemma_assignment_extent(st: Statement, cs: Seq<char>, a: int)
    requires
        0 <= a <= cs.len(),
        st is Assign,
        st.reads(cs, a) is Some,
    ensures
        statement_end(cs, a) == Extent::Ends(st.reads(cs, a)->Some_0),
        a < st.reads(cs, a)->Some_0 <= cs.len(),
{
    lemma_keywords(cs, a);
    match st {
        Statement::Assign(name, e) => {
            let m = keyword_end(cs, a, seq!['n', 'o', 'w'])->Some_0;
            lemma_words(cs, m);
            let m1 = var_at(cs, m)->Some_0.1;
            lemma_sign(cs, m1, seq!['=']);
            let m2 = sign_end(cs, m1, seq!['='])->Some_0;
            lemma_value_extent(e, cs, m2);
        },
        _ => {},
    }
}

/// An evaluation that the text reads as ends where the statement of the
/// text ends.
pub proof fn lemma_evaluation_extent(st: Statement, cs: Seq<char>, a: int)
    requires
        0 <= a <= cs.len(),
        st is Eval,
        st.reads(cs, a) is Some,
    ensures
        statement_end(cs, a) == Extent::Ends(st.reads(cs, a)->Some_0),
        a < st.reads(cs, a)->Some_0 <= cs.len(),
{
    lemma_keywords(cs, a);
    match st {
        Statement::Eval(e) => {
            match keyword_end(cs, a, seq!['e', 'v', 'a', 'l']) {
                Some(m) => {
                    lemma_value_extent(e, cs, m);
                },
                None => {
                    assert(if_end(cs, a) == Extent::Absent);
                    match e {
                        Expression::Call(inner) => {
                            match *inner {
                                Expression::Compound(name, es) => {
                                    lemma_applied_extent(name@, es@, cs, a);
                                    let m1 = Expression::reads_applied(cs, a, name@, es@)->Some_0;
                                    lemma_sign(cs, m1, seq!['.']);
                                },
                                _ => {},
                            }
                        },
                        _ => {},
                    }
                },
            }
        },
        _ => {},
    }
}

/// A return that the text reads as ends where the statement of the text
/// ends.
pub proof fn lemma_return_extent(st: Statement, cs: Seq<char>, a: int)
    requires
        0 <= a <= cs.len(),
        st is Ret,
        st.reads(cs, a) is Some,
    ensures
        statement_end(cs, a) == Extent::Ends(st.reads(cs, a)->Some_0),
        a < st.reads(cs, a)->Some_0 <= cs.len(),
{
    lemma_keywords(cs, a);
    match st {
        Statement::Ret(e) => {
            let m = keyword_end(cs, a, seq!['r', 'e', 't'])->Some_0;
            lemma_value_extent(e, cs, m);
            assert(if_end(cs, a) == Extent::Absent);
        },
        _ => {},
    }
}

/// A conditional that the text reads as ends where the conditional of the
/// text ends.
#[verifier::rlimit(60)]
pub proof fn lemma_conditional_extent(st: Statement, cs: Seq<char>, a: int)
    requires
        0 <= a <= cs.len(),
        st is If,
        st.reads(cs, a) is Some,
    ensures
        if_end(cs, a) == Extent::Ends(st.reads(cs, a)->Some_0),
        a < st.reads(cs, a)->Some_0 <= cs.len(),
    decreases st, 0int,
{
    match st {
        Statement::If(c, t, els) => {
            lemma_sign(cs, a, seq!['i', 'f']);
            let m = keyword_end(cs, a, seq!['i', 'f'])->Some_0;
            lemma_condition_extent(c, cs, m);
            let m1 = c.reads(cs, m)->Some_0;
            lemma_block_extent(t.0@, cs, m1);
            let m2 = Statement::reads_block(cs, m1, t.0@)->Some_0;
            lemma_sign(cs, m2, seq!['e', 'l', 's', 'e']);
            match keyword_end(cs, m2, seq!['e', 'l', 's', 'e']) {
                None => {},
                Some(m3) => {
                    match els {
                        None => {},
                        Some(b) => {
                            match keyword_end(cs, m3, seq!['i', 'f']) {
                                Some(_) => {
                                    lemma_statement_extent(b.0@[0], cs, m3);
                                    lemma_keywords(cs, m3);
                                    assert(b.0@[0] is If);
                                    assert(else_end(cs, m3) == if_end(cs, m3));
                                },
                                None => {
                                    lemma_block_extent(b.0@, cs, m3);
                                    assert(if_end(cs, m3) == Extent::Absent);
                                },
                            }
                        },
                    }
                },
            }
        },
        _ => {},
    }
}

/// A statement that the text reads as ends where the statement of the text
/// ends.
pub proof fn lemma_statement_extent(st: Statement, cs: Seq<char>, a: int)
    requires
        0 <= a <= cs.len(),
        st.reads(cs, a) is Some,
    ensures
        statement_end(cs, a) == Extent::Ends(st.reads(cs, a)->Some_0),
        a < st.reads(cs, a)->Some_0 <= cs.len(),
        st is If ==> if_end(cs, a) == Extent::Ends(st.reads(cs, a)->Some_0),
    decreases st, 1int,
{
    match st {
        Statement::Destructure(_, _) => {
            lemma_binding_extent(st, cs, a);
        },
        Statement::Assign(_, _) => {
            lemma_assignment_extent(st, cs, a);
        },
        Statement::Eval(_) => {
            lemma_evaluation_extent(st, cs, a);
        },
        Statement::Ret(_) => {
            lemma_return_extent(st, cs, a);
        },
        Statement::If(_, _, _) => {
            lemma_conditional_extent(st, cs, a);
            lemma_keywords(cs, a);
        },
    }
}

/// Statements that the text reads as lead to where the statements of the
/// text go on.
pub proof fn lemma_statements_extent(ss: Seq<Statement>, n: int, cs: Seq<char>, a: int)
    requires
        0 <= a <= cs.len(),
        0 <= n <= ss.len(),
        Statement::reads_list(cs, a, ss, n) is Some,
    ensures
        a <= Statement::reads_list(cs, a, ss, n)->Some_0 <= cs.len(),
        statements_end(cs, a) == statements_end(cs, Statement::reads_list(cs, a, ss, n)->Some_0),
    decreases ss, n,
{
    if n > 0 {
        lemma_statements_extent(ss, n - 1, cs, a);
        let m = Statement::reads_list(cs, a, ss, n - 1)->Some_0;
        lemma_statement_extent(ss[n - 1], cs, m);
    }
}

/// A block that the text reads as ends where the block of the text ends.
pub proof fn lemma_block_extent(ss: Seq<Statement>, cs: Seq<char>, a: int)
    requires
        0 <= a <= cs.len(),
        Statement::reads_block(cs, a, ss) is Some,
    ensures
        braces_end(cs, a) == Extent::Ends(Statement::reads_block(cs, a, ss)->Some_0),
        a < Statement::reads_block(cs, a, ss)->Some_0 <= cs.len(),
    decreases ss, ss.len() + 1,
{
    lemma_signs(cs, a);
    lemma_sign(cs, a, seq!['{']);
    let m = sign_end(cs, a, seq!['{'])->Some_0;
    lemma_statements_extent(ss, ss.len() as int, cs, m);
    let m1 = Statement::reads_list(cs, m, ss, ss.len() as int)->Some_0;
    lemma_sign(cs, m1, seq!['}']);
    lemma_closing_brace(cs, m1);
}

/// Reads the end of a statement: an expression and a full stop.
fn value_and_stop(inp: &Vec<char>, pos: usize) -> (r: Parse<Expression>)
    requires
        pos <= inp@.len(),
    ensures
        r.extent() == value_and_stop_end(inp@, pos as int),
        r matches Parse::Done(x, e) ==> {
            &&& x.reads(inp@, pos as int) matches Some(m) && sign_end(inp@, m, seq!['.']) == Some(
                e as int,
            )
            &&& x.supported()
            &&& x.grouped()
            &&& pos < e <= inp@.len()
        },
{
    let stop = ['.'];
    assert(stop@ =~= seq!['.']);
    match expression(inp, pos) {
        Parse::Done(x, m) => match lexeme(inp, m, &stop) {
            Some(e) => Parse::Done(x, e),
            None => Parse::Fail(m),
        },
        Parse::Miss => Parse::Fail(pos),
        Parse::Fail(at) => Parse::Fail(at),
    }
}

/// Reads a block: statements in curly brackets.
pub fn block(inp: &Vec<char>, pos: usize) -> (r: Parse<Block>)
    requires
        pos <= inp@.len(),
    ensures
        r.extent() == braces_end(inp@, pos as int),
        r matches Parse::Done(b, e) ==> b.reads(inp@, pos as int) == Some(e as int)
            && b.supported() && b.grouped() && pos < e <= inp@.len(),
    decreases inp@.len() - pos, 1int,
{
    let open = ['{'];
    let close = ['}'];
    proof {
        assert(open@ =~= seq!['{']);
        assert(close@ =~= seq!['}']);
    }
    let start = match lexeme(inp, pos, &open) {
        None => {
            return Parse::Miss;
        },
        Some(m) => m,
    };
    let mut items: Vec<Statement> = Vec::new();
    let mut at = start;
    loop
        invariant
            pos < start <= at <= inp@.len(),
            sign_end(inp@, pos as int, seq!['{']) == Some(start as int),
            close@ == seq!['}'],
            Statement::reads_list(inp@, start as int, items@, items@.len() as int) == Some(
                at as int,
            ),
            Statement::all_supported(items@, items@.len() as int),
            Statement::all_grouped(items@, items@.len() as int),
            statements_end(inp@, start as int) == statements_end(inp@, at as int),
        decreases inp@.len() - at,
    {
        match statement(inp, at) {
            Parse::Done(st, e) => {
                let ghost before = items@;
                items.push(st);
                proof {
                    let n = before.len() as int;
                    lemma_statements_kept(inp@, start as int, before, items@, n);
                    assert(items@[n] == st);
                    assert(Statement::reads_list(inp@, start as int, items@, n + 1) == Some(
                        e as int,
                    ));
                    assert(Statement::all_supported(items@, n + 1));
                    assert(Statement::all_grouped(items@, n + 1));
                }
                at = e;
            },
            Parse::Miss => {
                return match lexeme(inp, at, &close) {
                    Some(e) => Parse::Done(Block(items), e),
                    None => Parse::Fail(at),
                };
            },
            Parse::Fail(x) => {
                return Parse::Fail(x);
            },
        }
    }
}

/// Reads what may follow `else`: another conditional, which makes a block
/// of one statement, or a block.
fn block_or_if(inp: &Vec<char>, pos: usize) -> (r: Parse<Block>)
    requires
        pos <= inp@.len(),
    ensures
        r.extent() == else_end(inp@, pos as int),
        r matches Parse::Done(b, e) ==> {
            &&& match keyword_end(inp@, pos as int, seq!['i', 'f']) {
                Some(_) => b.0@.len() == 1 && b.0@[0].reads(inp@, pos as int) == Some(e as int),
                None => b.reads(inp@, pos as int) == Some(e as int),
            }
            &&& b.supported()
            &&& b.grouped()
            &&& pos < e <= inp@.len()
        },
    decreases inp@.len() - pos, 2int,
{
    match statement_if(inp, pos) {
        Parse::Done(st, e) => {
            let mut items: Vec<Statement> = Vec::new();
            items.push(st);
            proof {
                assert(items@[0] == st);
                assert(Statement::all_supported(items@, 0));
                assert(Statement::all_supported(items@, 1));
                assert(Statement::all_grouped(items@, 0));
                assert(Statement::all_grouped(items@, 1));
            }
            Parse::Done(Block(items), e)
        },
        Parse::Fail(at) => Parse::Fail(at),
        Parse::Miss => block(inp, pos),
    }
}

/// Reads a conditional.
fn statement_if(inp: &Vec<char>, pos: usize) -> (r: Parse<Statement>)
    requires
        pos <= inp@.len(),
    ensures
        r.extent() == if_end(inp@, pos as int),
        r matches Parse::Done(st, e) ==> st.reads(inp@, pos as int) == Some(e as int)
            && st.supported() && st.grouped() && st is If && pos < e <= inp@.len(),
        r is Miss <==> keyword_end(inp@, pos as int, seq!['i', 'f']) is None,
    decreases inp@.len() - pos, 1int,
{
    let word = ['i', 'f'];
    let otherwise = ['e', 'l', 's', 'e'];
    proof {
        assert(word@ =~= seq!['i', 'f']);
        assert(otherwise@ =~= seq!['e', 'l', 's', 'e']);
    }
    let m = match lexeme_ws(inp, pos, &word) {
        None => {
            return Parse::Miss;
        },
        Some(m) => m,
    };
    let (g, m1) = match condition(inp, m) {
        Parse::Done(g, m1) => (g, m1),
        Parse::Miss => {
            return Parse::Fail(m);
        },
        Parse::Fail(at) => {
            return Parse::Fail(at);
        },
    };
    let (then, m2) = match block(inp, m1) {
        Parse::Done(then, m2) => (then, m2),
        Parse::Miss => {
            return Parse::Fail(m1);
        },
        Parse::Fail(at) => {
            return Parse::Fail(at);
        },
    };
    match lexeme_ws(inp, m2, &otherwise) {
        None => Parse::Done(Statement::If(g, then, None), m2),
        Some(m3) => match block_or_if(inp, m3) {
            Parse::Done(elsepart, e) => Parse::Done(Statement::If(g, then, Some(elsepart)), e),
            Parse::Miss => Parse::Done(Statement::If(g, then, None), m2),
            Parse::Fail(at) => Parse::Fail(at),
        },
    }
}

/// Reads a statement.
pub fn statement(inp: &Vec<char>, pos: usize) -> (r: Parse<Statement>)
    requires
        pos <= inp@.len(),
    ensures
        r.extent() == statement_end(inp@, pos as int),
        r matches Parse::Done(st, e) ==> st.reads(inp@, pos as int) == Some(e as int)
            && st.supported() && st.grouped() && pos < e <= inp@.len(),
    decreases inp@.len() - pos, 2int,
{
    let binding = ['l', 'e', 't'];
    let assignment = ['n', 'o', 'w'];
    let evaluation = ['e', 'v', 'a', 'l'];
    let returning = ['r', 'e', 't'];
    let equals = ['='];
    let stop = ['.'];
    proof {
        assert(binding@ =~= seq!['l', 'e', 't']);
        assert(assignment@ =~= seq!['n', 'o', 'w']);
        assert(evaluation@ =~= seq!['e', 'v', 'a', 'l']);
        assert(returning@ =~= seq!['r', 'e', 't']);
        assert(equals@ =~= seq!['=']);
        assert(stop@ =~= seq!['.']);
        lemma_keywords(inp@, pos as int);
    }
    match lexeme_ws(inp, pos, &binding) {
        Some(m) => {
            let (pat, m1) = match pattern(inp, m) {
                Parse::Done(pat, m1) => (pat, m1),
                Parse::Miss => {
                    return Parse::Fail(m);
                },
                Parse::Fail(at) => {
                    return Parse::Fail(at);
                },
            };
            let m2 = match lexeme(inp, m1, &equals) {
                Some(m2) => m2,
                None => {
                    return Parse::Fail(m1);
                },
            };
            return match value_and_stop(inp, m2) {
                Parse::Done(expr, e) => Parse::Done(Statement::Destructure(pat, expr), e),
                Parse::Miss => Parse::Fail(m2),
                Parse::Fail(at) => Parse::Fail(at),
            };
        },
        None => {},
    }
    match lexeme_ws(inp, pos, &assignment) {
        Some(m) => {
            let (name, m1) = match var(inp, m) {
                Parse::Done(name, m1) => (name, m1),
                _ => {
                    return Parse::Fail(m);
                },
            };
            let m2 = match lexeme(inp, m1, &equals) {
                Some(m2) => m2,
                None => {
                    return Parse::Fail(m1);
                },
            };
            return match value_and_stop(inp, m2) {
                Parse::Done(expr, e) => Parse::Done(Statement::Assign(name, expr), e),
                Parse::Miss => Parse::Fail(m2),
                Parse::Fail(at) => Parse::Fail(at),
            };
        },
        None => {},
    }
    match lexeme_ws(inp, pos, &evaluation) {
        Some(m) => {
            return match value_and_stop(inp, m) {
                Parse::Done(expr, e) => Parse::Done(Statement::Eval(expr), e),
                Parse::Miss => Parse::Fail(m),
                Parse::Fail(at) => Parse::Fail(at),
            };
        },
        None => {},
    }
    match statement_if(inp, pos) {
        Parse::Done(st, e) => {
            return Parse::Done(st, e);
        },
        Parse::Fail(at) => {
            return Parse::Fail(at);
        },
        Parse::Miss => {},
    }
    match lexeme_ws(inp, pos, &returning) {
        Some(m) => {
            return match value_and_stop(inp, m) {
                Parse::Done(expr, e) => Parse::Done(Statement::Ret(expr), e),
                Parse::Miss => Parse::Fail(m),
                Parse::Fail(at) => Parse::Fail(at),
            };
        },
        None => {},
    }
    match expression_implicit_call(inp, pos) {
        Parse::Done(expr, m) => match lexeme(inp, m, &stop) {
            Some(e) => Parse::Done(Statement::Eval(expr), e),
            None => Parse::Miss,
        },
        Parse::Miss => Parse::Miss,
        Parse::Fail(at) => Parse::Fail(at),
    }
}

} // verus!
