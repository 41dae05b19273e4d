//! Instructions as the compiler emits them: jumps name a label.

use vstd::prelude::*;
use crate::interns::Intern;
use crate::primitive::{Functor, Local, Operand};

verus! {

/// A jump target that has no address yet.
#[derive(Clone, Copy, Debug, PartialEq, Eq, Structural, Hash)]
pub struct Label(pub usize);

/// One instruction of the stack machine, with symbolic jump targets.
#[derive(Clone, Copy, Debug, PartialEq, Eq, Structural)]
pub enum Instruction1 {
    /// Push a constant.
    Push(Operand),
    /// Pop a value and store it in the slot, whatever the slot held.
    SetVar(Local),
    /// Pop a value; bind the slot to it if the slot is unbound, else require
    /// that the slot holds an equal value.
    SetAssert(Local),
    /// Push the value of the slot.
    Get(Local),
    /// Pop a boolean and fail unless it is `true`.
    Assert,
    /// Continue at the label.
    Jump(Label),
    /// Pop a boolean and continue at the label if it is `false`.
    JumpNo(Label),
    /// Pop a value and drop it.
    Pop,
    /// Pop a value and return it to the caller.
    Ret,
    /// Pop a compound and call the procedure it names.
    Call,
    /// Pop a value and match it against the pattern instructions up to the
    /// next `Unmark`; on a mismatch continue at the label, with the value
    /// back on the stack if the flag is set.
    Mark(Label, bool),
    /// The end of a marked region.
    Unmark,
    /// Pop a compound of this tag and arity and push its arguments, the last first.
    DestructCompound(Functor<Intern>),
    /// Pop a vector of this length and push its elements, the last first.
    DestructVector(usize),
    /// Pop a compound or a vector of this arity and push its parts, the last first.
    Destruct(usize),
    /// Pop as many values as the arity and push the compound of them.
    ConstructCompound(Functor<Intern>),
    /// Pop this many values and push the vector of them.
    ConstructVector(usize),
    /// Pop this many values and push the set of them.
    ConstructSet(usize),
    /// Pop two values and push whether they are equal.
    Equals,
    /// Pop a value and fail unless it is this constant.
    EqualsOperandAssert(Operand),
    Mul,
    Div,
    Add,
    Subtract,
    Le,
    Ge,
    Lt,
    Gt,
    Eq,
    Ne,
}

} // verus!
