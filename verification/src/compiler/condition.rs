//! Lowering of conditions: code that falls through if the condition holds
//! and continues at the else label if it does not.

use vstd::prelude::*;
use crate::compiler::{grown, Lowering};
use crate::interns::Interns;
use crate::irs::ast1::types::Condition;
use crate::irs::instruction1::{Instruction1, Label};
use crate::irs::procedure1::Procedure1;

verus! {

impl Condition {
    /// The state after the condition was lowered. A pattern condition is a
    /// marked region: a `Mark` with the else label, the pattern, an
    /// `Unmark`. A bare condition is the expression and a jump on `false`.
    pub open spec fn lowered(&self, s: Lowering, lb_else: Label) -> Lowering {
        match self {
            Condition::Let(lhs, rhs) => lhs.lowered(
                rhs.lowered(s).emit(Instruction1::Mark(lb_else, false)),
            ).emit(Instruction1::Unmark),
            Condition::Bare(xp) => xp.lowered(s).emit(Instruction1::JumpNo(lb_else)),
        }
    }

    /// Emits the code of the condition.
    pub fn compile(&self, it: &mut Interns, pp: &mut Procedure1, lb_else: Label)
        requires
            self.supported(),
            old(it).wf(),
            old(pp).wf(),
            old(it).has_room_for(self.size()),
        ensures
            final(pp).wf(),
            grown(old(it), final(it), self.size()),
            Lowering::of(final(it), final(pp)) == self.lowered(
                Lowering::of(old(it), old(pp)),
                lb_else,
            ),
    {
        match self {
            Condition::Let(lhs, rhs) => {
                rhs.compile(it, pp);
                pp.push(Instruction1::Mark(lb_else, false));
                lhs.compile_destructure(it, pp);
                pp.push(Instruction1::Unmark);
            },
            Condition::Bare(xp) => {
                xp.compile(it, pp);
                pp.push(Instruction1::JumpNo(lb_else));
            },
        }
    }
}

} // verus!
