//! What a type must offer to live in the arena.

use vstd::prelude::*;
use crate::bump::Bump;

verus! {

/// A value that can be copied out of the arena: the copy stands for the same
/// mathematical value and shares no part with the value it was made from.
pub trait BumpClone: View + Sized {
    fn bclone(&self, bump: &Bump) -> (r: Self)
        ensures
            r@ == self@,
    ;
}

} // verus!
