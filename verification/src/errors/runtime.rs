use vstd::prelude::*;

verus! {

/// The result of a step of the machine.
pub type Runtime<T> = Result<T, Error>;

/// What can go wrong while the machine runs. Every one of these ends the run.
#[derive(Clone, Copy, Debug, PartialEq, Eq, Structural)]
pub enum Error {
    /// The machine was stepped while a step was in progress.
    UpdatedWhileUpdating,
    /// The instruction pointer ran past the end of the procedure.
    OutOfCode,
    /// A frame was needed and the frame stack was empty.
    NoMoreFrames,
    /// A value was needed and the operand stack was empty.
    NoMoreValues,
    /// A bind-or-check found the variable bound to a different value.
    SetAssertFailed,
    /// An assertion saw `false`, or a literal check saw another value.
    AssertionFailed,
    /// A variable was read before it was bound.
    GetUnset,
    /// A condition was not a boolean.
    ConditionalWrongType,
    /// A destructure met a value of the wrong shape.
    DestructWrongType,
    /// An arithmetic or ordering instruction met an operand that is no integer.
    NotNumbers,
    /// A division had the divisor zero.
    DivisionByZero,
    /// No procedure of that name and arity exists.
    NoSuchProcedure,
    /// The value to call is not a compound.
    CallNotCompound,
    /// A mark was set in a marked region.
    CantMarkTwice,
    /// An unmark was executed outside a marked region.
    UnmarkMustBeMarked,
    /// A marked region took more values than the marked value has parts,
    /// or fewer.
    UnmarkWrongStackSize,
    /// A marked region holds an instruction that is no part of a pattern.
    MarkInvalidInstruction,
}

} // verus!
