use vstd::prelude::*;

verus! {

/// Why a text is no program.
#[derive(Clone, Copy, Debug, PartialEq, Eq, Structural)]
pub enum Error {
    /// Nothing that the grammar knows starts at this position.
    Unexpected(usize),
    /// What started before is malformed at this position.
    Malformed(usize),
}

} // verus!
