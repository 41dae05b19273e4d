//! The arena: the region in which the values of one evaluation are shared.
//!
//! A cell is allocated and never changed or freed on its own. Everything in
//! the arena goes at once, when the arena is reset or dropped.

pub mod traits;

use vstd::prelude::*;
use crate::primitive::Term;
use crate::vm::bvalue::BValue;

verus! {

/// An arena of values. A handle to a cell is the index of the cell.
pub struct Bump {
    cells: Vec<BValue>,
}

impl View for Bump {
    type V = Seq<Term>;

    /// The values of the cells, in the order of their allocation.
    closed spec fn view(&self) -> Seq<Term> {
        Seq::new(self.cells@.len(), |i: int| self.cells@[i]@)
    }
}

impl Bump {
    /// Every cell of `before` is a cell of `self`, with the same value.
    pub open spec fn extends(&self, before: &Bump) -> bool {
        &&& before@.len() <= self@.len()
        &&& forall|i: int| 0 <= i < before@.len() ==> self@[i] == before@[i]
    }

    /// An empty arena.
    pub fn new() -> (r: Bump)
        ensures
            r@.len() == 0,
    {
        Bump { cells: Vec::new() }
    }

    /// The number of cells.
    pub fn len(&self) -> (r: usize)
        ensures
            r == self@.len(),
    {
        self.cells.len()
    }

    /// Puts `value` into a new cell and returns the index of the cell.
    pub fn allocate(&mut self, value: BValue) -> (ix: usize)
        ensures
            ix == old(self)@.len(),
            final(self)@ == old(self)@.push(value@),
            final(self).extends(old(self)),
    {
        let ix = self.cells.len();
        self.cells.push(value);
        assert(self@ =~= old(self)@.push(value@));
        ix
    }

    /// The value in the cell `ix`.
    pub fn get(&self, ix: usize) -> (r: &BValue)
        requires
            ix < self@.len(),
        ensures
            r@ == self@[ix as int],
    {
        &self.cells[ix]
    }

    /// Frees every cell. No handle into the arena may be used after this.
    pub fn reset(&mut self)
        ensures
            final(self)@.len() == 0,
    {
        self.cells.clear();
    }
}

} // verus!
