use vstd::prelude::*;

verus! {

/// The result of a compilation step.
pub type Compiler<T> = Result<T, Error>;

/// What can go wrong while a procedure is lowered. All of these are reported
/// before anything runs.
#[derive(Debug)]
pub enum Error {
    /// A label was anchored a second time.
    AlreadyAnchored(usize),
    /// A jump refers to a label that was never anchored.
    NotAnchored(usize),
    /// An argument name was declared twice.
    DuplicatedArg(String),
}

/// A failure of compilation over mathematical values: the same kinds, with
/// the name as a sequence of characters.
pub enum Problem {
    AlreadyAnchored(usize),
    NotAnchored(usize),
    DuplicatedArg(Seq<char>),
}

impl View for Error {
    type V = Problem;

    open spec fn view(&self) -> Problem {
        match self {
            Error::AlreadyAnchored(l) => Problem::AlreadyAnchored(*l),
            Error::NotAnchored(l) => Problem::NotAnchored(*l),
            Error::DuplicatedArg(name) => Problem::DuplicatedArg(name@),
        }
    }
}

} // verus!
