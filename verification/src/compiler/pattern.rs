//! Lowering of patterns: code that takes the value on top of the stack
//! apart, binds variables, and fails where the value does not fit.

use vstd::prelude::*;
use crate::compiler::{grown, Lowering};
use crate::interns::Interns;
use crate::irs::ast1::types::Pattern;
use crate::irs::instruction1::Instruction1;
use crate::irs::procedure1::Procedure1;
use crate::primitive::{Functor, Operand};

verus! {

impl Pattern {
    /// The state after the pattern was lowered: a literal checks for its
    /// constant, a variable binds or checks its slot, and a compound or a
    /// vector asks for its shape and then lowers the patterns of its parts
    /// from left to right.
    pub open spec fn lowered(&self, s: Lowering) -> Lowering
        decreases self, 0int,
    {
        match self {
            Pattern::IntLiteral(i) => s.emit(
                Instruction1::EqualsOperandAssert(Operand::Integer(*i)),
            ),
            Pattern::Variable(n) => s.local(n@).emit(
                Instruction1::SetAssert(s.script.slot_of(n@)),
            ),
            Pattern::Compound(name, ps) => Self::lowered_all(
                ps@,
                ps@.len() as int,
                s.intern(name@).emit(
                    Instruction1::DestructCompound(
                        Functor(s.table.id_of(name@), ps@.len() as usize),
                    ),
                ),
            ),
            Pattern::WcCompound(ps) => Self::lowered_all(
                ps@,
                ps@.len() as int,
                s.emit(Instruction1::Destruct(ps@.len() as usize)),
            ),
            Pattern::Vector(ps) => Self::lowered_all(
                ps@,
                ps@.len() as int,
                s.emit(Instruction1::DestructVector(ps@.len() as usize)),
            ),
        }
    }

    /// The state after the first `n` of the patterns `ps` were lowered, one
    /// after the other.
    pub open spec fn lowered_all(ps: Seq<Pattern>, n: int, s: Lowering) -> Lowering
        decreases ps, n,
    {
        if n <= 0 || n > ps.len() {
            s
        } else {
            ps[n - 1].lowered(Self::lowered_all(ps, n - 1, s))
        }
    }

    /// The nodes of the parts are among the nodes of the whole.
    pub proof fn lemma_parts(ps: Seq<Pattern>, k: int, n: int)
        requires
            0 <= k < n <= ps.len(),
        ensures
            Self::sizes(ps, k) + ps[k].size() <= Self::sizes(ps, n),
        decreases n,
    {
        if k < n - 1 {
            Self::lemma_parts(ps, k, n - 1);
        }
    }

    /// Emits the code of the patterns `ps`, from left to right.
    pub fn compile_all(ps: &Vec<Pattern>, it: &mut Interns, pp: &mut Procedure1)
        requires
            old(it).wf(),
            old(pp).wf(),
            old(it).has_room_for(Self::sizes(ps@, ps@.len() as int)),
        ensures
            final(pp).wf(),
            grown(old(it), final(it), Self::sizes(ps@, ps@.len() as int)),
            Lowering::of(final(it), final(pp)) == Self::lowered_all(
                ps@,
                ps@.len() as int,
                Lowering::of(old(it), old(pp)),
            ),
        decreases ps, 0int,
    {
        let ghost s0 = Lowering::of(it, pp);
        let ghost total = Self::sizes(ps@, ps@.len() as int);
        let mut k: usize = 0;
        while k < ps.len()
            invariant
                k <= ps@.len(),
                total == Self::sizes(ps@, ps@.len() as int),
                old(it).has_room_for(total),
                pp.wf(),
                grown(old(it), it, Self::sizes(ps@, k as int)),
                Lowering::of(it, pp) == Self::lowered_all(ps@, k as int, s0),
            decreases ps@.len() - k,
        {
            proof {
                Self::lemma_parts(ps@, k as int, ps@.len() as int);
            }
            ps[k].compile_destructure(it, pp);
            k += 1;
        }
    }

    /// Emits the code that matches the value on top of the stack against
    /// the pattern.
    pub fn compile_destructure(&self, it: &mut Interns, pp: &mut Procedure1)
        requires
            old(it).wf(),
            old(pp).wf(),
            old(it).has_room_for(self.size()),
        ensures
            final(pp).wf(),
            grown(old(it), final(it), self.size()),
            Lowering::of(final(it), final(pp)) == self.lowered(Lowering::of(old(it), old(pp))),
        decreases self, 1int,
    {
        match self {
            Pattern::IntLiteral(i) => {
                pp.push(Instruction1::EqualsOperandAssert(Operand::Integer(*i)));
            },
            Pattern::Variable(n) => {
                let loc = pp.local(n.as_str());
                pp.push(Instruction1::SetAssert(loc));
            },
            Pattern::Compound(s, v) => {
                let tag = it.intern(s.as_str());
                pp.push(Instruction1::DestructCompound(Functor(tag, v.len())));
                Self::compile_all(v, it, pp);
            },
            Pattern::WcCompound(v) => {
                pp.push(Instruction1::Destruct(v.len()));
                Self::compile_all(v, it, pp);
            },
            Pattern::Vector(v) => {
                pp.push(Instruction1::DestructVector(v.len()));
                Self::compile_all(v, it, pp);
            },
        }
    }
}

} // verus!
