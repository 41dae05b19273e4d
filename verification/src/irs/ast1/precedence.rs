//! How binary operators bind, and how a chain of them becomes a tree.

use vstd::prelude::*;
use crate::irs::ast1::types::{BinOp, Expression};

verus! {

/// The side to which operators of one precedence group.
#[derive(Clone, Copy, Debug, PartialEq, Eq, Structural)]
pub enum Associativity {
    Lhs,
    Rhs,
}

impl BinOp {
    /// The precedence and the associativity of the operator. A smaller
    /// number binds tighter.
    pub open spec fn spec_precedence(self) -> (u8, Associativity) {
        match self {
            BinOp::Multiply => (10u8, Associativity::Lhs),
            BinOp::Divide => (10u8, Associativity::Lhs),
            BinOp::Add => (15u8, Associativity::Lhs),
            BinOp::Subtract => (15u8, Associativity::Lhs),
            BinOp::Le => (20u8, Associativity::Lhs),
            BinOp::Ge => (20u8, Associativity::Lhs),
            BinOp::Lt => (20u8, Associativity::Lhs),
            BinOp::Gt => (20u8, Associativity::Lhs),
            BinOp::Eq => (20u8, Associativity::Lhs),
            BinOp::Ne => (20u8, Associativity::Lhs),
            BinOp::And => (25u8, Associativity::Lhs),
            BinOp::Or => (25u8, Associativity::Lhs),
        }
    }

    /// Whether `self`, standing to the left of `other`, takes the operand
    /// between them: it binds tighter, or as tight and to the left.
    pub open spec fn spec_tighter(self, other: BinOp) -> bool {
        self.spec_precedence().0 < other.spec_precedence().0 || (self.spec_precedence().0
            == other.spec_precedence().0 && self.spec_precedence().1 == Associativity::Lhs)
    }

    /// The precedence and the associativity of the operator. A smaller
    /// number binds tighter.
    #[verifier::when_used_as_spec(spec_precedence)]
    pub fn precedence(self) -> (r: (u8, Associativity))
        ensures
            r == self.spec_precedence(),
    {
        match self {
            BinOp::Multiply => (10, Associativity::Lhs),
            BinOp::Divide => (10, Associativity::Lhs),
            BinOp::Add => (15, Associativity::Lhs),
            BinOp::Subtract => (15, Associativity::Lhs),
            BinOp::Le => (20, Associativity::Lhs),
            BinOp::Ge => (20, Associativity::Lhs),
            BinOp::Lt => (20, Associativity::Lhs),
            BinOp::Gt => (20, Associativity::Lhs),
            BinOp::Eq => (20, Associativity::Lhs),
            BinOp::Ne => (20, Associativity::Lhs),
            BinOp::And => (25, Associativity::Lhs),
            BinOp::Or => (25, Associativity::Lhs),
        }
    }

    /// Whether `self`, standing to the left of `other`, takes the operand
    /// between them.
    #[verifier::when_used_as_spec(spec_tighter)]
    pub fn tighter(self, other: BinOp) -> (r: bool)
        ensures
            r == self.spec_tighter(other),
    {
        let (prec_1, assoc_1) = self.precedence();
        let (prec_2, _assoc_2) = other.precedence();
        if prec_1 < prec_2 {
            return true;
        }
        if prec_1 == prec_2 && assoc_1 == Associativity::Lhs {
            return true;
        }
        return false;
    }
}

/// One item of an expression read from left to right: an operand that is no
/// binary expression, or an operator.
pub enum Item {
    Operand(Expression),
    Operator(BinOp),
}

impl Expression {
    /// The expression read from left to right.
    pub open spec fn infix(self) -> Seq<Item>
        decreases self,
    {
        match self {
            Expression::Binary(l, op, r) => l.infix() + seq![Item::Operator(op)] + r.infix(),
            other => seq![Item::Operand(other)],
        }
    }

    /// The tree of `self`, the operator `bop2` and the operand `rhs2`: the
    /// new operator goes down the right spine of `self` as far as the
    /// operators there do not take the operand before it.
    pub open spec fn integrated(self, bop2: BinOp, rhs2: Expression) -> Expression
        decreases self,
    {
        match self {
            Expression::Binary(lhs1, bop1, rhs1) => if !bop1.spec_tighter(bop2) {
                Expression::Binary(lhs1, bop1, Box::new(rhs1.integrated(bop2, rhs2)))
            } else {
                Expression::Binary(Box::new(self), bop2, Box::new(rhs2))
            },
            _ => Expression::Binary(Box::new(self), bop2, Box::new(rhs2)),
        }
    }

    /// Appends the operator `bop2` and the operand `rhs2` to the chain that
    /// `self` is the tree of, and gives the tree of the longer chain.
    pub fn integrate(self, bop2: BinOp, rhs2: Expression) -> (r: Expression)
        ensures
            r == self.integrated(bop2, rhs2),
            r.infix() == self.infix() + seq![Item::Operator(bop2)] + rhs2.infix(),
        decreases self,
    {
        proof {
            self.lemma_integrated(bop2, rhs2);
        }
        match self {
            Expression::Binary(lhs1, bop1, rhs1) => {
                if !bop1.tighter(bop2) {
                    let inner = (*rhs1).integrate(bop2, rhs2);
                    Expression::Binary(lhs1, bop1, Box::new(inner))
                } else {
                    Expression::Binary(
                        Box::new(Expression::Binary(lhs1, bop1, rhs1)),
                        bop2,
                        Box::new(rhs2),
                    )
                }
            },
            other => Expression::Binary(Box::new(other), bop2, Box::new(rhs2)),
        }
    }

    /// Integrating keeps the reading from left to right: the result reads
    /// as `self`, then the operator, then the new operand.
    pub proof fn lemma_integrated(self, bop2: BinOp, rhs2: Expression)
        ensures
            self.integrated(bop2, rhs2).infix() == self.infix() + seq![Item::Operator(bop2)]
                + rhs2.infix(),
        decreases self,
    {
        match self {
            Expression::Binary(lhs1, bop1, rhs1) => {
                if !bop1.spec_tighter(bop2) {
                    rhs1.lemma_integrated(bop2, rhs2);
                    assert(self.integrated(bop2, rhs2).infix() =~= self.infix() + seq![
                        Item::Operator(bop2),
                    ] + rhs2.infix());
                }
            },
            _ => {},
        }
    }
}

impl Expression {
    /// The operator at the root, if the expression is a binary one.
    pub open spec fn root(self) -> Option<BinOp> {
        match self {
            Expression::Binary(_, op, _) => Some(op),
            _ => None,
        }
    }

    /// The operators of the expression and of its parts are grouped by
    /// their precedence: the right operand of an operator is an operand or
    /// has a root that binds tighter, and the left operand is an operand or
    /// has a root that takes the operand between the two operators.
    pub open spec fn grouped(self) -> bool
        decreases self, 0int,
    {
        match self {
            Expression::Binary(l, op, r) => {
                &&& l.grouped()
                &&& r.grouped()
                &&& match l.root() {
                    Some(o) => o.spec_tighter(op),
                    None => true,
                }
                &&& match r.root() {
                    Some(o) => !op.spec_tighter(o),
                    None => true,
                }
            },
            Expression::Call(e) => e.grouped(),
            Expression::Compound(_, es) => Self::all_grouped(es@, es@.len() as int),
            Expression::Vector(es) => Self::all_grouped(es@, es@.len() as int),
            Expression::SetOf(es) => Self::all_grouped(es@, es@.len() as int),
            _ => true,
        }
    }

    /// The first `n` of the expressions `es` are grouped.
    pub open spec fn all_grouped(es: Seq<Expression>, n: int) -> bool
        decreases es, n,
    {
        if n <= 0 || n > es.len() {
            true
        } else {
            Self::all_grouped(es, n - 1) && es[n - 1].grouped()
        }
    }

    /// Integrating a grouped operand into a grouped tree leaves the tree
    /// grouped.
    pub proof fn law_integrated_grouped(self, bop2: BinOp, rhs2: Expression)
        requires
            self.grouped(),
            rhs2.grouped(),
            rhs2.root() is None,
        ensures
            self.integrated(bop2, rhs2).grouped(),
            self.integrated(bop2, rhs2).root() == if self.root() is Some
                && !self.root()->Some_0.spec_tighter(bop2) {
                self.root()
            } else {
                Some(bop2)
            },
        decreases self,
    {
        match self {
            Expression::Binary(lhs1, bop1, rhs1) => {
                if !bop1.spec_tighter(bop2) {
                    rhs1.law_integrated_grouped(bop2, rhs2);
                    let inner = rhs1.integrated(bop2, rhs2);
                    let whole = Expression::Binary(lhs1, bop1, Box::new(inner));
                    assert(self.integrated(bop2, rhs2) == whole);
                    assert(lhs1.grouped());
                    assert(inner.grouped());
                    assert(inner.root() is Some);
                    assert(!bop1.spec_tighter(inner.root()->Some_0));
                    assert(whole.grouped());
                } else {
                    let whole = Expression::Binary(Box::new(self), bop2, Box::new(rhs2));
                    assert(self.integrated(bop2, rhs2) == whole);
                    assert(whole.grouped());
                }
            },
            _ => {
                let whole = Expression::Binary(Box::new(self), bop2, Box::new(rhs2));
                assert(self.integrated(bop2, rhs2) == whole);
                assert(self.grouped());
                assert(whole.grouped());
            },
        }
    }

    /// Integrating into what can be compiled what can be compiled gives
    /// what can be compiled.
    pub proof fn lemma_integrated_supported(self, bop2: BinOp, rhs2: Expression)
        requires
            self.supported(),
            rhs2.supported(),
            bop2 != BinOp::And,
            bop2 != BinOp::Or,
        ensures
            self.integrated(bop2, rhs2).supported(),
        decreases self,
    {
        match self {
            Expression::Binary(lhs1, bop1, rhs1) => {
                if !bop1.spec_tighter(bop2) {
                    rhs1.lemma_integrated_supported(bop2, rhs2);
                }
            },
            _ => {},
        }
    }
}

} // verus!
