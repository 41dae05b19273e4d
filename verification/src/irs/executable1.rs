//! An executable module: the procedures that a program can call.

use vstd::prelude::*;
use std::collections::HashMap;
use crate::bump::Bump;
use crate::interns::{Intern, Interns};
use crate::irs::procedure2::Procedure2;
use crate::primitive::{Functor, Term};
use crate::vm::bvalue::SBV;
use crate::vm::semantics::{ModuleView, ProcView};

verus! {

/// A procedure that the host provides. It gets the arena, the interning
/// table and the whole compound that was called, and returns a value.
///
/// It may add to the arena and must not reset it: the handles of the machine
/// that called it stay in use.
pub trait NativeProcedure {
    fn invoke(&self, bump: &mut Bump, interns: &Interns, value: SBV) -> (r: SBV)
        requires
            value.wf(old(bump)),
            interns.wf(),
        ensures
            final(bump).extends(old(bump)),
            r.wf(final(bump)),
    ;
}

/// A procedure of a module: provided by the host, or compiled.
pub enum FFIProcedure {
    Native(Box<dyn NativeProcedure>),
    Dynamic(Procedure2),
}

/// The procedures of a program, each under the key of its functor.
pub struct Executable1 {
    pub procedures: HashMap<u128, FFIProcedure>,
}

impl FFIProcedure {
    /// The procedure as a call sees it.
    pub open spec fn view(&self) -> ProcView {
        match self {
            FFIProcedure::Native(_) => ProcView::Native,
            FFIProcedure::Dynamic(p) => ProcView::Dynamic {
                functor: p.functor,
                code: p.instructions@,
                vars: p.vars,
            },
        }
    }

    /// A compiled procedure names only slots that it has.
    pub open spec fn wf(&self) -> bool {
        match self {
            FFIProcedure::Native(_) => true,
            FFIProcedure::Dynamic(p) => p.wf(),
        }
    }

    /// A compiled procedure continues at addresses of its own code only.
    pub open spec fn addressed(&self) -> bool {
        match self {
            FFIProcedure::Native(_) => true,
            FFIProcedure::Dynamic(p) => p.addressed(),
        }
    }
}

impl Executable1 {
    /// The key of a functor: the tag in the high half, the arity in the low.
    pub open spec fn key(f: Functor<Intern>) -> u128 {
        (f.0.0 as u128 * 0x1_0000_0000_0000_0000u128 + f.1 as u128) as u128
    }

    /// Different functors have different keys.
    pub proof fn lemma_key(f: Functor<Intern>, g: Functor<Intern>)
        ensures
            Self::key(f) == Self::key(g) <==> f == g,
            Self::key(f) == f.0.0 as int * 0x1_0000_0000_0000_0000 + f.1 as int,
    {
    }

    /// What stands under `f`, where something does.
    pub open spec fn stored(&self, f: Functor<Intern>) -> FFIProcedure {
        self.procedures@[Self::key(f)]
    }

    /// The compiled procedure that a call of `callee` enters, if it enters one.
    pub open spec fn entered_by(&self, callee: Term) -> Option<Procedure2> {
        match callee {
            Term::Compound(tag, args) => {
                let f = Functor(tag, args.len() as usize);
                if self@.contains_key(f) {
                    match self.stored(f) {
                        FFIProcedure::Dynamic(p) => Some(p),
                        FFIProcedure::Native(_) => None,
                    }
                } else {
                    None
                }
            },
            _ => None,
        }
    }

    /// Every compiled procedure is well formed.
    pub open spec fn wf(&self) -> bool {
        forall|k: u128| #[trigger] self.procedures@.contains_key(k) ==> self.procedures@[k].wf()
    }

    /// Every compiled procedure continues at addresses of its own code only.
    pub open spec fn addressed(&self) -> bool {
        forall|k: u128| #[trigger]
            self.procedures@.contains_key(k) ==> self.procedures@[k].addressed()
    }

    /// A module without procedures.
    pub fn new() -> (r: Executable1)
        ensures
            r.wf(),
            r.addressed(),
            r@ == Map::<Functor<Intern>, ProcView>::empty(),
    {
        let r = Executable1 { procedures: HashMap::new() };
        assert(r@ =~= Map::<Functor<Intern>, ProcView>::empty());
        r
    }

    /// The key of a functor.
    pub fn key_of(f: Functor<Intern>) -> (k: u128)
        ensures
            k == Self::key(f),
    {
        (f.0.0 as u128) * 0x1_0000_0000_0000_0000u128 + (f.1 as u128)
    }

    /// Puts `procedure` under `functor`, in place of what was there.
    pub fn insert(&mut self, functor: Functor<Intern>, procedure: FFIProcedure)
        requires
            old(self).wf(),
            procedure.wf(),
        ensures
            final(self).wf(),
            final(self)@ == old(self)@.insert(functor, procedure.view()),
            final(self).stored(functor) == procedure,
            old(self).addressed() && procedure.addressed() ==> final(self).addressed(),
            forall|g: Functor<Intern>|
                g != functor ==> #[trigger] final(self).stored(g) == old(self).stored(g),
    {
        let k = Self::key_of(functor);
        self.procedures.insert(k, procedure);
        proof {
            assert forall|g: Functor<Intern>| Self::key(g) == Self::key(functor) implies g
                == functor by {
                Self::lemma_key(g, functor);
            }
            assert(self@ =~= old(self)@.insert(functor, procedure.view()));
            assert forall|g: Functor<Intern>| g != functor implies #[trigger] self.stored(g)
                == old(self).stored(g) by {
                Self::lemma_key(g, functor);
            }
        }
    }

    /// The procedure under `functor`, if there is one.
    pub fn get(&self, functor: Functor<Intern>) -> (r: Option<&FFIProcedure>)
        requires
            self.wf(),
        ensures
            match r {
                Some(p) => self@.contains_key(functor) && self@[functor] == p.view() && p.wf()
                    && *p == self.stored(functor),
                None => !self@.contains_key(functor),
            },
    {
        let k = Self::key_of(functor);
        self.procedures.get(&k)
    }
}

impl View for Executable1 {
    type V = ModuleView;

    open spec fn view(&self) -> ModuleView {
        Map::new(
            |f: Functor<Intern>| self.procedures@.contains_key(Self::key(f)),
            |f: Functor<Intern>| self.procedures@[Self::key(f)].view(),
        )
    }
}

} // verus!
