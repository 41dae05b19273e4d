//! Lowering of blocks.

use vstd::prelude::*;
use crate::compiler::{grown, Lowering};
use crate::errors::compiler::Compiler;
use crate::interns::Interns;
use crate::irs::ast1::types::{Block, Statement};
use crate::irs::procedure1::Procedure1;

verus! {

impl Block {
    /// Emits the code of the statements of the block, one after the other.
    /// Stops at the first statement that fails.
    pub fn compile(&self, it: &mut Interns, pp: &mut Procedure1) -> (r: Compiler<()>)
        requires
            self.supported(),
            old(it).wf(),
            old(pp).wf(),
            old(it).has_room_for(self.size()),
        ensures
            final(pp).wf(),
            grown(old(it), final(it), self.size()),
            Lowering::of(final(it), final(pp)) == Statement::lowered_all(
                self.0@,
                self.0@.len() as int,
                Lowering::of(old(it), old(pp)),
            ).state,
            Statement::lowered_all(
                self.0@,
                self.0@.len() as int,
                Lowering::of(old(it), old(pp)),
            ).error == match r {
                Ok(_) => None,
                Err(e) => Some(e),
            },
    {
        Statement::compile_all(&self.0, it, pp)
    }
}

} // verus!
