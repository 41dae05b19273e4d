//! Copy-on-write handles.
//!
//! A handle is in one of two states. An exclusive handle owns its value and
//! may change it in place. A shared handle points at a cell of the arena and
//! only reads it; to change the value it first copies the cell and becomes
//! exclusive. No count is kept: all that matters is whether the value was
//! ever handed to a second place.

use vstd::prelude::*;
use crate::bump::Bump;
use crate::bump::traits::BumpClone;
use crate::primitive::Term;
use crate::vm::bvalue::BValue;

verus! {

/// A handle to a value: exclusive, or shared through the arena.
#[derive(Debug)]
pub enum Satc {
    Unique(BValue),
    Borrowed(usize),
}

impl Satc {
    /// A shared handle points at a cell that the arena has.
    pub open spec fn wf(&self, bump: &Bump) -> bool {
        match self {
            Satc::Unique(_) => true,
            Satc::Borrowed(ix) => *ix < bump@.len(),
        }
    }

    /// The value that the handle stands for.
    pub open spec fn term(&self, bump: &Bump) -> Term {
        match self {
            Satc::Unique(v) => v@,
            Satc::Borrowed(ix) => bump@[*ix as int],
        }
    }

    /// A handle keeps its value while the arena grows.
    pub proof fn lemma_stable(&self, before: &Bump, after: &Bump)
        requires
            self.wf(before),
            after.extends(before),
        ensures
            self.wf(after),
            self.term(after) == self.term(before),
    {
    }

    /// An exclusive handle to `value`.
    pub fn new(value: BValue) -> (r: Satc)
        ensures
            r == Satc::Unique(value),
    {
        Satc::Unique(value)
    }

    /// A shared handle to `value`, which moves into the arena.
    pub fn new_borrowed(bump: &mut Bump, value: BValue) -> (r: Satc)
        ensures
            r == Satc::Borrowed(old(bump)@.len() as usize),
            final(bump)@ == old(bump)@.push(value@),
            final(bump).extends(old(bump)),
            r.wf(final(bump)),
            r.term(final(bump)) == value@,
    {
        let ix = bump.allocate(value);
        Satc::Borrowed(ix)
    }

    /// The value, to read.
    pub fn as_immut<'a>(&'a self, bump: &'a Bump) -> (r: &'a BValue)
        requires
            self.wf(bump),
        ensures
            r@ == self.term(bump),
    {
        match self {
            Satc::Unique(v) => v,
            Satc::Borrowed(ix) => bump.get(*ix),
        }
    }

    /// The value, to own: an exclusive handle gives what it holds, a shared
    /// one gives a copy of its cell.
    pub fn into_owned(self, bump: &Bump) -> (r: BValue)
        requires
            self.wf(bump),
        ensures
            r@ == self.term(bump),
            self is Unique ==> r == self->Unique_0,
    {
        match self {
            Satc::Unique(v) => v,
            Satc::Borrowed(ix) => bump.get(ix).bclone(bump),
        }
    }

    /// Makes the handle exclusive, by a copy of its cell if it was shared.
    /// The value stays what it was.
    pub fn make_unique(&mut self, bump: &Bump)
        requires
            old(self).wf(bump),
        ensures
            *final(self) is Unique,
            final(self).term(bump) == old(self).term(bump),
            *old(self) is Unique ==> *final(self) == *old(self),
    {
        if let Satc::Borrowed(ix) = self {
            let owned = bump.get(*ix).bclone(bump);
            *self = Satc::Unique(owned);
        }
    }

    /// The value, to change in place. A shared handle becomes exclusive
    /// first, by a copy of its cell, so that no other handle sees the change.
    pub fn as_mut<'a>(&'a mut self, bump: &Bump) -> (r: &'a mut BValue)
        requires
            old(self).wf(bump),
        ensures
            r@ == old(self).term(bump),
            *final(self) == Satc::Unique(*final(r)),
    {
        self.make_unique(bump);
        match self {
            Satc::Unique(value) => value,
            Satc::Borrowed(_) => vstd::pervasive::unreached(),
        }
    }

    /// Two shared handles to the value of `self`, which moves into the arena
    /// if it was not there.
    pub fn safe_split(self, bump: &mut Bump) -> (r: (Satc, Satc))
        requires
            self.wf(old(bump)),
        ensures
            final(bump).extends(old(bump)),
            self is Borrowed ==> final(bump)@ == old(bump)@,
            self is Unique ==> final(bump)@ == old(bump)@.push(self.term(old(bump))),
            self is Borrowed ==> r.0 == self,
            self is Unique ==> r.0 == Satc::Borrowed(old(bump)@.len() as usize),
            r.0 is Borrowed,
            r.0 == r.1,
            r.0.wf(final(bump)),
            r.0.term(final(bump)) == self.term(old(bump)),
    {
        match self {
            Satc::Unique(v) => {
                let ix = bump.allocate(v);
                (Satc::Borrowed(ix), Satc::Borrowed(ix))
            },
            Satc::Borrowed(ix) => (Satc::Borrowed(ix), Satc::Borrowed(ix)),
        }
    }

    /// Makes `self` shared and returns a second handle to the same cell.
    pub fn split(&mut self, bump: &mut Bump) -> (r: Satc)
        requires
            old(self).wf(old(bump)),
        ensures
            final(bump).extends(old(bump)),
            *old(self) is Borrowed ==> final(bump)@ == old(bump)@,
            *old(self) is Unique ==> final(bump)@ == old(bump)@.push(old(self).term(old(bump))),
            *old(self) is Borrowed ==> r == *old(self),
            *old(self) is Unique ==> r == Satc::Borrowed(old(bump)@.len() as usize),
            r is Borrowed,
            r == *final(self),
            r.wf(final(bump)),
            r.term(final(bump)) == old(self).term(old(bump)),
    {
        let mut taken = Satc::Borrowed(0);
        std::mem::swap(self, &mut taken);
        let (s1, s2) = taken.safe_split(bump);
        *self = s1;
        s2
    }
}

} // verus!
