//! Lowering of expressions: code that leaves the value on the stack.

use vstd::prelude::*;
use crate::compiler::{grown, Lowering};
use crate::interns::Interns;
use crate::irs::ast1::types::{BinOp, Expression};
use crate::irs::instruction1::Instruction1;
use crate::irs::procedure1::Procedure1;
use crate::primitive::{Functor, Operand};

verus! {

impl BinOp {
    /// The instruction of the operator. The logical operators have none.
    pub open spec fn instruction(self) -> Instruction1 {
        match self {
            BinOp::Multiply => Instruction1::Mul,
            BinOp::Divide => Instruction1::Div,
            BinOp::Add => Instruction1::Add,
            BinOp::Subtract => Instruction1::Subtract,
            BinOp::Le => Instruction1::Le,
            BinOp::Ge => Instruction1::Ge,
            BinOp::Lt => Instruction1::Lt,
            BinOp::Gt => Instruction1::Gt,
            BinOp::Eq => Instruction1::Eq,
            _ => Instruction1::Ne,
        }
    }
}

impl Expression {
    /// The state after the expression was lowered: a literal pushes a
    /// constant, a variable reads its slot, a call lowers the callee and
    /// calls, a compound, vector or set lowers its parts from left to right
    /// and constructs, and an operator lowers the left operand, then the
    /// right one, and applies.
    pub open spec fn lowered(&self, s: Lowering) -> Lowering
        decreases self, 0int,
    {
        match self {
            Expression::NoOp => s,
            Expression::IntLiteral(i) => s.emit(Instruction1::Push(Operand::Integer(*i))),
            Expression::Variable(n) => s.local(n@).emit(Instruction1::Get(s.script.slot_of(n@))),
            Expression::Call(e) => e.lowered(s).emit(Instruction1::Call),
            Expression::Compound(name, es) => {
                let t = Self::lowered_all(es@, es@.len() as int, s);
                t.intern(name@).emit(
                    Instruction1::ConstructCompound(
                        Functor(t.table.id_of(name@), es@.len() as usize),
                    ),
                )
            },
            Expression::Vector(es) => Self::lowered_all(es@, es@.len() as int, s).emit(
                Instruction1::ConstructVector(es@.len() as usize),
            ),
            Expression::SetOf(es) => Self::lowered_all(es@, es@.len() as int, s).emit(
                Instruction1::ConstructSet(es@.len() as usize),
            ),
            Expression::Binary(l, op, r) => r.lowered(l.lowered(s)).emit(op.instruction()),
        }
    }

    /// The state after the first `n` of the expressions `es` were lowered,
    /// one after the other.
    pub open spec fn lowered_all(es: Seq<Expression>, n: int, s: Lowering) -> Lowering
        decreases es, n,
    {
        if n <= 0 || n > es.len() {
            s
        } else {
            es[n - 1].lowered(Self::lowered_all(es, n - 1, s))
        }
    }

    /// The nodes of the parts are among the nodes of the whole, and parts of
    /// what can be compiled can be compiled.
    pub proof fn lemma_parts(es: Seq<Expression>, k: int, n: int)
        requires
            0 <= k < n <= es.len(),
        ensures
            Self::sizes(es, k) + es[k].size() <= Self::sizes(es, n),
            Self::all_supported(es, n) ==> es[k].supported(),
        decreases n,
    {
        if k < n - 1 {
            Self::lemma_parts(es, k, n - 1);
        }
    }

    /// Emits the code of the parts `es`, from left to right.
    pub fn compile_all(es: &Vec<Expression>, it: &mut Interns, pp: &mut Procedure1)
        requires
            Self::all_supported(es@, es@.len() as int),
            old(it).wf(),
            old(pp).wf(),
            old(it).has_room_for(Self::sizes(es@, es@.len() as int)),
        ensures
            final(pp).wf(),
            grown(old(it), final(it), Self::sizes(es@, es@.len() as int)),
            Lowering::of(final(it), final(pp)) == Self::lowered_all(
                es@,
                es@.len() as int,
                Lowering::of(old(it), old(pp)),
            ),
        decreases es, 0int,
    {
        let ghost s0 = Lowering::of(it, pp);
        let ghost total = Self::sizes(es@, es@.len() as int);
        let mut k: usize = 0;
        while k < es.len()
            invariant
                k <= es@.len(),
                Self::all_supported(es@, es@.len() as int),
                total == Self::sizes(es@, es@.len() as int),
                old(it).has_room_for(total),
                pp.wf(),
                grown(old(it), it, Self::sizes(es@, k as int)),
                Lowering::of(it, pp) == Self::lowered_all(es@, k as int, s0),
            decreases es@.len() - k,
        {
            proof {
                Self::lemma_parts(es@, k as int, es@.len() as int);
            }
            es[k].compile(it, pp);
            k += 1;
        }
    }

    /// Emits the code of the expression.
    ///
    /// The logical operators cannot be compiled: an expression that holds
    /// one is not `supported`.
    pub fn compile(&self, it: &mut Interns, pp: &mut Procedure1)
        requires
            self.supported(),
            old(it).wf(),
            old(pp).wf(),
            old(it).has_room_for(self.size()),
        ensures
            final(pp).wf(),
            grown(old(it), final(it), self.size()),
            Lowering::of(final(it), final(pp)) == self.lowered(Lowering::of(old(it), old(pp))),
        decreases self, 1int,
    {
        match self {
            Expression::NoOp => {},
            Expression::IntLiteral(i) => {
                pp.push(Instruction1::Push(Operand::Integer(*i)));
            },
            Expression::Variable(n) => {
                let loc = pp.local(n.as_str());
                pp.push(Instruction1::Get(loc));
            },
            Expression::Call(e) => {
                e.compile(it, pp);
                pp.push(Instruction1::Call);
            },
            Expression::Compound(s, ve) => {
                let n = ve.len();
                Self::compile_all(ve, it, pp);
                let tag = it.intern(s.as_str());
                pp.push(Instruction1::ConstructCompound(Functor(tag, n)));
            },
            Expression::Vector(ve) => {
                let n = ve.len();
                Self::compile_all(ve, it, pp);
                pp.push(Instruction1::ConstructVector(n));
            },
            Expression::SetOf(ve) => {
                let n = ve.len();
                Self::compile_all(ve, it, pp);
                pp.push(Instruction1::ConstructSet(n));
            },
            Expression::Binary(lhs, op, rhs) => {
                lhs.compile(it, pp);
                rhs.compile(it, pp);
                pp.push(
                    match op {
                        BinOp::Multiply => Instruction1::Mul,
                        BinOp::Divide => Instruction1::Div,
                        BinOp::Add => Instruction1::Add,
                        BinOp::Subtract => Instruction1::Subtract,
                        BinOp::Le => Instruction1::Le,
                        BinOp::Ge => Instruction1::Ge,
                        BinOp::Lt => Instruction1::Lt,
                        BinOp::Gt => Instruction1::Gt,
                        BinOp::Eq => Instruction1::Eq,
                        _ => Instruction1::Ne,
                    },
                );
            },
        }
    }
}

} // verus!
