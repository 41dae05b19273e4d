//! The compiler back-end: from the syntax tree to procedures that the
//! machine can run.
//!
//! Lowering a procedure threads two things through the tree: the interning
//! table, which gives tags their identifiers, and the script of the
//! procedure, which collects instructions, labels and local slots.

pub mod block;
pub mod checks;
pub mod condition;
pub mod executable;
pub mod expression;
pub mod laws;
pub mod pattern;
pub mod procedure;
pub mod statement;

use vstd::prelude::*;
use crate::errors::compiler::Error;
use crate::interns::{InternTable, Interns};
use crate::irs::instruction1::Instruction1;
use crate::irs::procedure1::{Procedure1, Script};

verus! {

/// The state of lowering: the interning table and the script.
pub struct Lowering {
    pub table: InternTable,
    pub script: Script,
}

/// The state of lowering after a step that can fail: the state that was
/// reached, and the error that stopped the step there, if one did.
pub struct Lowered {
    pub state: Lowering,
    pub error: Option<Error>,
}

impl Lowering {
    /// The state that a table and a procedure under construction are in.
    pub open spec fn of(it: &Interns, pp: &Procedure1) -> Lowering {
        Lowering { table: it@, script: pp@ }
    }

    /// The state with one more instruction.
    pub open spec fn emit(self, i: Instruction1) -> Lowering {
        Lowering { script: self.script.push(i), ..self }
    }

    /// The state in which `name` is a local.
    pub open spec fn local(self, name: Seq<char>) -> Lowering {
        Lowering { script: self.script.with_local(name), ..self }
    }

    /// The state in which `name` is interned.
    pub open spec fn intern(self, name: Seq<char>) -> Lowering {
        Lowering { table: self.table.intern(name), ..self }
    }

    /// The state after a label was created.
    pub open spec fn label(self) -> Lowering {
        Lowering { script: self.script.with_label(), ..self }
    }

    /// The state after the label `l` was anchored, or the failure to anchor
    /// it a second time.
    pub open spec fn anchor(self, l: usize) -> Lowered {
        if self.script.anchors.contains_key(l) {
            Lowered { state: self, error: Some(Error::AlreadyAnchored(l)) }
        } else {
            Lowered {
                state: Lowering { script: self.script.anchored(l), ..self },
                error: None,
            }
        }
    }

    /// The state, reached without an error.
    pub open spec fn fine(self) -> Lowered {
        Lowered { state: self, error: None }
    }
}

/// The table `after` is `before` with at most `n` more names: it stands on
/// the same parent, and it holds the names of `before` under the
/// identifiers that they had.
pub open spec fn grown(before: &Interns, after: &Interns, n: nat) -> bool {
    &&& after.wf()
    &&& after.0 == before.0
    &&& after.1.base_address == before.1.base_address
    &&& after@.extends(before@)
    &&& after@.next_id() <= before@.next_id() + n
}

} // verus!
