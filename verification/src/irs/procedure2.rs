//! A compiled procedure, ready to run.

use vstd::prelude::*;
use crate::interns::Intern;
use crate::irs::instruction2::Instruction2;
use crate::primitive::Functor;

verus! {

/// A procedure: its name and arity, its instructions, and the number of
/// local slots that a frame of it needs.
#[derive(Debug)]
pub struct Procedure2 {
    pub functor: Functor<Intern>,
    pub instructions: Vec<Instruction2>,
    pub vars: usize,
}

impl Procedure2 {
    /// Every slot that an instruction names is one of the `vars` slots.
    pub open spec fn wf(&self) -> bool {
        forall|i: int|
            0 <= i < self.instructions@.len() ==> match (#[trigger] self.instructions@[i]).slot() {
                Some(l) => l < self.vars,
                None => true,
            }
    }

    /// Every address that an instruction names is the address of an
    /// instruction, or the one behind the last.
    pub open spec fn addressed(&self) -> bool {
        forall|i: int|
            0 <= i < self.instructions@.len() ==> match (
            #[trigger] self.instructions@[i]).address() {
                Some(a) => a <= self.instructions@.len(),
                None => true,
            }
    }

    /// Whether every slot that an instruction names is one of the `vars` slots.
    pub fn check(&self) -> (r: bool)
        ensures
            r == self.wf(),
    {
        let mut i: usize = 0;
        while i < self.instructions.len()
            invariant
                i <= self.instructions@.len(),
                forall|j: int|
                    0 <= j < i ==> match (#[trigger] self.instructions@[j]).slot() {
                        Some(l) => l < self.vars,
                        None => true,
                    },
            decreases self.instructions@.len() - i,
        {
            let ok = match self.instructions[i] {
                Instruction2::SetVar(l) => l.0 < self.vars,
                Instruction2::SetAssert(l) => l.0 < self.vars,
                Instruction2::Get(l) => l.0 < self.vars,
                _ => true,
            };
            if !ok {
                return false;
            }
            i += 1;
        }
        true
    }
}

} // verus!
