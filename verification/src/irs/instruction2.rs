//! Instructions as the machine runs them: jumps name an address.

use vstd::prelude::*;
use crate::interns::Intern;
use crate::primitive::{Functor, Local, Operand};

verus! {

/// The address of an instruction in its procedure.
#[derive(Clone, Copy, Debug, PartialEq, Eq, Structural, Hash)]
pub struct Ip(pub usize);

/// One instruction of the stack machine, with resolved jump targets.
#[derive(Clone, Copy, Debug, PartialEq, Eq, Structural)]
pub enum Instruction2 {
    /// Push a constant.
    Push(Operand),
    /// Pop a value and store it in the slot, whatever the slot held.
    SetVar(Local),
    /// Pop a value; bind the slot to it if the slot is unbound, else require
    /// that the slot holds an equal value.
    SetAssert(Local),
    /// Push the value of the slot.
    Get(Local),
    /// Pop a boolean and fail unless it is `true`.
    Assert,
    /// Continue at the address.
    Jump(Ip),
    /// Pop a boolean and continue at the address if it is `false`.
    JumpNo(Ip),
    /// Pop a value and drop it.
    Pop,
    /// Pop a value and return it to the caller.
    Ret,
    /// Pop a compound and call the procedure it names.
    Call,
    /// Pop a value and match it against the pattern instructions up to the
    /// next `Unmark`; on a mismatch continue at the address, with the value
    /// back on the stack if the flag is set.
    Mark(Ip, bool),
    /// The end of a marked region.
    Unmark,
    /// Pop a compound of this tag and arity and push its arguments, the last first.
    DestructCompound(Functor<Intern>),
    /// Pop a vector of this length and push its elements, the last first.
    DestructVector(usize),
    /// Pop a compound or a vector of this arity and push its parts, the last first.
    Destruct(usize),
    /// Pop as many values as the arity and push the compound of them.
    ConstructCompound(Functor<Intern>),
    /// Pop this many values and push the vector of them.
    ConstructVector(usize),
    /// Pop this many values and push the set of them.
    ConstructSet(usize),
    /// Pop two values and push whether they are equal.
    Equals,
    /// Pop a value and fail unless it is this constant.
    EqualsOperandAssert(Operand),
    Mul,
    Div,
    Add,
    Subtract,
    Le,
    Ge,
    Lt,
    Gt,
    Eq,
    Ne,
}

impl Instruction2 {
    /// The slot that the instruction reads or writes, if it names one.
    pub open spec fn slot(self) -> Option<usize> {
        match self {
            Instruction2::SetVar(l) => Some(l.0),
            Instruction2::SetAssert(l) => Some(l.0),
            Instruction2::Get(l) => Some(l.0),
            _ => None,
        }
    }

    /// The address that the instruction may continue at, if it names one.
    pub open spec fn address(self) -> Option<usize> {
        match self {
            Instruction2::Jump(ip) => Some(ip.0),
            Instruction2::JumpNo(ip) => Some(ip.0),
            Instruction2::Mark(ip, _) => Some(ip.0),
            _ => None,
        }
    }

    /// Whether the instruction may stand between a `Mark` and its `Unmark`.
    pub open spec fn is_pattern(self) -> bool {
        match self {
            Instruction2::SetAssert(_) => true,
            Instruction2::DestructCompound(_) => true,
            Instruction2::DestructVector(_) => true,
            Instruction2::Destruct(_) => true,
            Instruction2::EqualsOperandAssert(_) => true,
            _ => false,
        }
    }
}

} // verus!
