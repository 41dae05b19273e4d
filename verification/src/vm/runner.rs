//! The running machine: a module and a stack of frames.

use vstd::prelude::*;
use crate::bump::Bump;
use crate::errors::runtime::{Error, Runtime};
use crate::interns::Interns;
use crate::irs::executable1::{Executable1, FFIProcedure};
use crate::irs::instruction2::Instruction2;
use crate::primitive::{Functor, Term};
use crate::vm::bvalue::{BValue, SBV};
use crate::vm::semantics::{pushed, step, FrameView};
use crate::vm::stackframe::StackFrame;
use crate::vm::VM;

verus! {

/// A machine that runs: the code it runs in, and its frames, the current one last.
pub struct Runner<'code> {
    /// The module.
    pub c: &'code Executable1,
    /// The frames.
    pub f: Vec<StackFrame<'code>>,
}

/// The frames over mathematical values.
pub open spec fn frame_views(fs: Seq<StackFrame>, bump: &Bump) -> Seq<FrameView> {
    Seq::new(fs.len(), |i: int| fs[i].view(bump))
}

/// Every frame is well formed in `bump`.
pub open spec fn frames_wf(fs: Seq<StackFrame>, bump: &Bump) -> bool {
    forall|i: int| 0 <= i < fs.len() ==> (#[trigger] fs[i]).wf(bump)
}

/// Frames stay what they are while the arena grows.
pub proof fn lemma_frames_stable(fs: Seq<StackFrame>, before: &Bump, after: &Bump)
    requires
        frames_wf(fs, before),
        after.extends(before),
    ensures
        frames_wf(fs, after),
        frame_views(fs, after) == frame_views(fs, before),
{
    assert forall|i: int| 0 <= i < fs.len() implies (#[trigger] fs[i]).wf(after) && fs[i].view(
        after,
    ) == fs[i].view(before) by {
        fs[i].lemma_stable(before, after);
    }
    assert(frame_views(fs, after) =~= frame_views(fs, before));
}

impl<'code> Runner<'code> {
    /// The frames over mathematical values.
    pub open spec fn frames(&self, bump: &Bump) -> Seq<FrameView> {
        frame_views(self.f@, bump)
    }

    /// The module and every frame are well formed.
    pub open spec fn wf(&self, bump: &Bump) -> bool {
        &&& self.c.wf()
        &&& frames_wf(self.f@, bump)
    }

    /// The instruction that the next step runs, if there is one.
    pub open spec fn fetched(&self) -> Option<Instruction2> {
        if self.f@.len() > 0 && self.f@.last().ip < self.f@.last().c.instructions@.len() {
            Some(self.f@.last().c.instructions@[self.f@.last().ip as int])
        } else {
            None
        }
    }

    /// The current frame runs the very procedure that the module holds
    /// for a call of `callee`, where that is a compiled one.
    pub open spec fn runs(&self, module: &Executable1, callee: Term) -> bool {
        module.entered_by(callee) matches Some(p) ==> self.f@.len() > 0 && *self.f@.last().c
            == p
    }

    /// A machine on the module `c`, with no frame yet.
    pub fn new(c: &'code Executable1) -> (r: Runner<'code>)
        requires
            c.wf(),
        ensures
            r.c == c,
            r.f@.len() == 0,
            forall|bump: &Bump| #[trigger] r.wf(bump),
    {
        Runner { c, f: Vec::new() }
    }

    /// Puts a frame on top.
    fn enter(&mut self, bump: &Bump, frame: StackFrame<'code>)
        requires
            old(self).wf(bump),
            frame.wf(bump),
        ensures
            final(self).wf(bump),
            final(self).c == old(self).c,
            final(self).frames(bump) == old(self).frames(bump).push(frame.view(bump)),
            final(self).f@ == old(self).f@.push(frame),
    {
        self.f.push(frame);
        proof {
            assert(self.frames(bump) =~= old(self).frames(bump).push(frame.view(bump)));
            assert forall|i: int| 0 <= i < self.f@.len() implies (#[trigger] self.f@[i]).wf(
                bump,
            ) by {
                if i < old(self).f@.len() {
                    assert(self.f@[i] == old(self).f@[i]);
                }
            }
        }
    }

    /// Takes the top frame, if there is one.
    fn leave(&mut self, bump: &Bump) -> (r: Option<StackFrame<'code>>)
        requires
            old(self).wf(bump),
        ensures
            final(self).wf(bump),
            final(self).c == old(self).c,
            match r {
                Some(frame) => {
                    &&& old(self).frames(bump).len() > 0
                    &&& frame.wf(bump)
                    &&& frame.view(bump) == old(self).frames(bump).last()
                    &&& final(self).frames(bump) == old(self).frames(bump).drop_last()
                },
                None => old(self).frames(bump).len() == 0 && final(self).frames(bump) == old(
                    self,
                ).frames(bump),
            },
    {
        let r = self.f.pop();
        proof {
            if r is Some {
                assert(self.frames(bump) =~= old(self).frames(bump).drop_last());
                assert forall|i: int| 0 <= i < self.f@.len() implies (#[trigger] self.f@[i]).wf(
                    bump,
                ) by {
                    assert(self.f@[i] == old(self).f@[i]);
                }
            }
        }
        r
    }

    /// Calls the procedure that the compound `call` names. A compiled
    /// procedure gets a new frame whose one operand is `call`, and the frame
    /// runs the very procedure that the module holds under the functor. A
    /// native procedure runs at once, and its result goes on the current
    /// frame. A call that fails is an error, never a machine.
    pub fn call(self, bump: &mut Bump, interns: &Interns, call: SBV) -> (r: Runtime<VM<'code>>)
        requires
            self.wf(old(bump)),
            call.wf(old(bump)),
            interns.wf(),
        ensures
            final(bump).extends(old(bump)),
            r matches Ok(vm) ==> vm.wf(final(bump)) && vm is Running && vm->Running_0.c == self.c,
            r matches Ok(vm) ==> vm->Running_0.runs(self.c, call.term(old(bump))),
            r is Err <==> crate::vm::semantics::call(
                self.frames(old(bump)),
                self.c@,
                call.term(old(bump)),
                pushed(VM::outcome(r, final(bump))),
            ) is Failed,
            VM::outcome(r, final(bump)) == crate::vm::semantics::call(
                self.frames(old(bump)),
                self.c@,
                call.term(old(bump)),
                pushed(VM::outcome(r, final(bump))),
            ),
    {
        let mut this = self;
        let ghost before = *bump;
        let ghost frames0 = self.frames(bump);
        let callee = call.as_immut(bump);
        proof {
            callee.lemma_view();
        }
        let functor = match callee {
            BValue::Compound(intern, args) => Functor(*intern, args.len()),
            _ => {
                return Err(Error::CallNotCompound);
            },
        };
        match this.c.get(functor) {
            None => Err(Error::NoSuchProcedure),
            Some(FFIProcedure::Dynamic(c)) => {
                let mut f = StackFrame::new_on(c);
                assert(f.wf(bump));
                f.push_value(bump, call);
                proof {
                    let fresh = FrameView::enter(c.instructions@, c.vars, call.term(bump));
                    assert(f.view(bump).vars =~= fresh.vars);
                    assert(f.view(bump).stack =~= fresh.stack);
                    assert(f.view(bump) == fresh);
                }
                this.enter(bump, f);
                Ok(VM::Running(this))
            },
            Some(FFIProcedure::Native(native)) => {
                let mut frame = match this.leave(bump) {
                    None => {
                        return Err(Error::NoMoreFrames);
                    },
                    Some(f) => f,
                };
                let ret = native.invoke(bump, interns, call);
                proof {
                    lemma_frames_stable(this.f@, &before, bump);
                    frame.lemma_stable(&before, bump);
                }
                frame.push_value(bump, ret);
                this.enter(bump, frame);
                Ok(VM::Running(this))
            },
        }
    }

    /// One step: runs the instruction at the instruction pointer of the
    /// current frame, and gives the machine that follows: one that runs or
    /// one that has succeeded. A step that fails is an error, never a
    /// machine. After the read of a slot, the slot and the top operand
    /// share one cell of the arena.
    pub fn update(self, bump: &mut Bump, interns: &Interns) -> (r: Runtime<VM<'code>>)
        requires
            self.wf(old(bump)),
            interns.wf(),
        ensures
            final(bump).extends(old(bump)),
            r matches Ok(vm) ==> vm.wf(final(bump)) && (vm is Running ==> vm->Running_0.c
                == self.c),
            r matches Ok(vm) ==> vm is Running || vm is Succeeded,
            match (self.fetched(), r) {
                (Some(Instruction2::Get(l)), Ok(VM::Running(next))) => next.f@.len() > 0
                    && next.f@.last().shares(l.0 as int),
                (Some(Instruction2::Call), Ok(VM::Running(next))) => next.runs(
                    self.c,
                    self.frames(old(bump)).last().stack.last(),
                ),
                _ => true,
            },
            r is Err <==> step(
                self.frames(old(bump)),
                self.c@,
                pushed(VM::outcome(r, final(bump))),
            ) is Failed,
            VM::outcome(r, final(bump)) == step(
                self.frames(old(bump)),
                self.c@,
                pushed(VM::outcome(r, final(bump))),
            ),
    {
        let mut this = self;
        let ghost before = *bump;
        let ghost frames0 = self.frames(bump);
        let mut frame = match this.leave(bump) {
            None => {
                return Err(Error::NoMoreFrames);
            },
            Some(f) => f,
        };
        let ghost below = this.frames(bump);
        let ip = frame.ip;
        if ip >= frame.c.instructions.len() {
            return Err(Error::OutOfCode);
        }
        let i = frame.c.instructions[ip];
        frame.ip = ip + 1;
        assert(frame.view(bump) == frames0.last().jump((ip + 1) as usize));
        assert(frame.wf(bump));
        assert(i.slot() matches Some(l) ==> l < frame.v@.len());
        match i {
            Instruction2::Ret => {
                let s1 = match frame.pop_value(bump) {
                    Err(e) => {
                        return Err(e);
                    },
                    Ok(h) => h,
                };
                match this.leave(bump) {
                    None => {
                        let value = BValue::raise(s1.as_immut(bump));
                        let vars = frame.raise_vars(bump);
                        Ok(VM::Succeeded(value, vars))
                    },
                    Some(mut caller) => {
                        caller.push_value(bump, s1);
                        this.enter(bump, caller);
                        Ok(VM::Running(this))
                    },
                }
            },
            Instruction2::Call => {
                let callee = match frame.pop_value(bump) {
                    Err(e) => {
                        return Err(e);
                    },
                    Ok(h) => h,
                };
                this.enter(bump, frame);
                this.call(bump, interns, callee)
            },
            _ => {
                match frame.execute(bump, i) {
                    Err(e) => Err(e),
                    Ok(_) => {
                        proof {
                            lemma_frames_stable(this.f@, &before, bump);
                        }
                        this.enter(bump, frame);
                        Ok(VM::Running(this))
                    },
                }
            },
        }
    }
}

} // verus!
