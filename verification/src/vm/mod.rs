//! The virtual machine.
//!
//! The machine is a small state machine: it runs, or it has ended with a
//! value, or it has failed. A driver steps it as long as it runs.

pub mod bvalue;
pub mod order;
pub mod runner;
pub mod semantics;
pub mod stackframe;

use vstd::prelude::*;
use crate::bump::Bump;
use crate::errors::runtime::{Error, Runtime};
use crate::interns::Interns;
use crate::irs::executable1::Executable1;
use crate::irs::instruction2::Instruction2;
use crate::irs::procedure2::Procedure2;
use crate::primitive::{Term, Value};
use crate::repl::Scope;
use crate::satc::Satc;
use crate::vm::bvalue::BValue;
use crate::vm::order::normal;
use crate::vm::runner::Runner;
use crate::vm::semantics::{pushed, FrameView, State};
use crate::vm::stackframe::StackFrame;

verus! {

/// The values of a sequence of host values that may be missing.
pub open spec fn value_terms(vs: Seq<Option<Value>>) -> Seq<Option<Term>> {
    Seq::new(
        vs.len(),
        |i: int|
            match vs[i] {
                Some(v) => Some(v@),
                None => None,
            },
    )
}

/// The state after one update for each of the values `natives`, which are
/// what the native procedures return, should the updates call any.
pub open spec fn run_with(s: State, m: crate::vm::semantics::ModuleView, natives: Seq<Term>)
    -> State
    decreases natives.len(),
{
    if natives.len() == 0 {
        s
    } else {
        crate::vm::semantics::update(run_with(s, m, natives.drop_last()), m, natives.last())
    }
}

/// One more update goes behind the updates before it.
pub proof fn lemma_run_with_push(
    s: State,
    m: crate::vm::semantics::ModuleView,
    natives: Seq<Term>,
    t: Term,
)
    ensures
        run_with(s, m, natives.push(t)) == crate::vm::semantics::update(
            run_with(s, m, natives),
            m,
            t,
        ),
{
    assert(natives.push(t).drop_last() =~= natives);
}

/// The machine.
pub enum VM<'code> {
    /// A step is in progress.
    Updating,
    /// The machine runs.
    Running(Runner<'code>),
    /// The machine has ended with a value; the slots of the last frame come
    /// with it.
    Succeeded(Value, Vec<Option<Value>>),
    /// The machine has failed.
    Failed(Error),
}

impl<'code> VM<'code> {
    /// The machine over mathematical values.
    pub open spec fn state(&self, bump: &Bump) -> State {
        match self {
            VM::Updating => State::Updating,
            VM::Running(runner) => State::Running(runner.frames(bump)),
            VM::Succeeded(value, vars) => State::Succeeded(value@, value_terms(vars@)),
            VM::Failed(e) => State::Failed(*e),
        }
    }

    /// A running machine is well formed in `bump`.
    pub open spec fn wf(&self, bump: &Bump) -> bool {
        match self {
            VM::Running(runner) => runner.wf(bump),
            _ => true,
        }
    }

    /// The state that a step has led to: that of the machine, or the failure.
    pub open spec fn outcome(r: Runtime<VM<'code>>, bump: &Bump) -> State {
        match r {
            Ok(vm) => vm.state(bump),
            Err(e) => State::Failed(e),
        }
    }

    /// The slots of a session statement at its start: a slot whose name has
    /// a value in the scope is bound to that value, its sets in order.
    pub open spec fn session_vars(
        vars: usize,
        names: Seq<Seq<char>>,
        scope: Map<Seq<char>, Term>,
    ) -> Seq<Option<Term>> {
        Seq::new(
            vars as nat,
            |i: int|
                if i < names.len() && scope.contains_key(names[i]) {
                    Some(normal(scope[names[i]]))
                } else {
                    None
                },
        )
    }

    /// A machine that is about to run the procedure `repl_proc` of a session
    /// statement. `var_alloc` names the slots of the procedure, and the
    /// slots start with the values that `var_value` has for their names.
    pub fn start_repl(
        bump: &Bump,
        repl_proc: &'code Procedure2,
        executable: &'code Executable1,
        var_alloc: &Vec<String>,
        var_value: &Scope,
    ) -> (r: Self)
        requires
            repl_proc.wf(),
            executable.wf(),
            var_alloc@.len() <= repl_proc.vars,
        ensures
            r.wf(bump),
            r is Running,
            r->Running_0.c == executable,
            r.state(bump) == State::Running(
                seq![
                    FrameView {
                        code: repl_proc.instructions@,
                        ip: 0,
                        vars: Self::session_vars(
                            repl_proc.vars,
                            crate::repl::name_views(var_alloc@),
                            var_value@,
                        ),
                        stack: Seq::empty(),
                    },
                ],
            ),
    {
        let mut frame = StackFrame::new_on(repl_proc);
        let ghost names = crate::repl::name_views(var_alloc@);
        let ghost goal = Self::session_vars(repl_proc.vars, names, var_value@);
        let mut k: usize = 0;
        assert(frame.wf(bump));
        while k < var_alloc.len()
            invariant
                k <= var_alloc@.len(),
                var_alloc@.len() <= repl_proc.vars,
                names == crate::repl::name_views(var_alloc@),
                goal == Self::session_vars(repl_proc.vars, names, var_value@),
                frame.wf(bump),
                frame.c == repl_proc,
                frame.ip == 0,
                frame.stack(bump).len() == 0,
                forall|i: int| 0 <= i < k ==> frame.vars(bump)[i] == goal[i],
                forall|i: int| k <= i < repl_proc.vars ==> frame.vars(bump)[i] is None,
            decreases var_alloc@.len() - k,
        {
            match var_value.get(var_alloc[k].as_str()) {
                Some(val) => {
                    let ghost fb = frame;
                    let lowered = BValue::lower(bump, val);
                    frame.bind(bump, k, Satc::new(lowered));
                    proof {
                        assert(frame.view(bump) == fb.view(bump).bind(k, lowered@));
                        assert(names[k as int] == var_alloc@[k as int]@);
                    }
                },
                None => {
                    assert(names[k as int] == var_alloc@[k as int]@);
                },
            }
            k += 1;
        }
        proof {
            assert(frame.vars(bump) =~= goal);
            assert(frame.stack(bump) =~= Seq::<Term>::empty());
        }
        let mut frames: Vec<StackFrame<'code>> = Vec::new();
        frames.push(frame);
        let runner = Runner { c: executable, f: frames };
        proof {
            assert(runner.frames(bump) =~= seq![frame.view(bump)]);
        }
        VM::Running(runner)
    }

    /// A machine that is about to run the procedure that `call` names in
    /// `code`. The machine gets `call` with its sets in order.
    pub fn go(bump: &mut Bump, interns: &Interns, code: &'code Executable1, call: &Value) -> (r:
        Runtime<VM<'code>>)
        requires
            code.wf(),
            interns.wf(),
        ensures
            final(bump).extends(old(bump)),
            r matches Ok(vm) ==> vm.wf(final(bump)) && vm is Running && vm->Running_0.c == code,
            r matches Ok(vm) ==> vm->Running_0.runs(code, normal(call@)),
            r is Err <==> crate::vm::semantics::call(
                Seq::empty(),
                code@,
                normal(call@),
                pushed(Self::outcome(r, final(bump))),
            ) is Failed,
            Self::outcome(r, final(bump)) == crate::vm::semantics::call(
                Seq::empty(),
                code@,
                normal(call@),
                pushed(Self::outcome(r, final(bump))),
            ),
    {
        let runner = Runner::new(code);
        let callv = BValue::lower(bump, call);
        let ghost before = *bump;
        let handle = Satc::new_borrowed(bump, callv);
        assert(runner.wf(bump));
        assert(runner.frames(bump) =~= Seq::empty());
        let ghost mid = *bump;
        let r = runner.call(bump, interns, handle);
        proof {
            assert forall|i: int| 0 <= i < before@.len() implies bump@[i] == before@[i] by {
                assert(mid@[i] == before@[i]);
            }
        }
        r
    }

    /// One step of the machine. A machine that has ended stays as it is.
    /// After the read of a slot, the slot and the top operand share one
    /// cell of the arena; after a call of a compiled procedure, the top
    /// frame runs the procedure that the module holds.
    pub fn update(&mut self, bump: &mut Bump, interns: &Interns)
        requires
            old(self).wf(old(bump)),
            interns.wf(),
        ensures
            final(bump).extends(old(bump)),
            final(self).wf(final(bump)),
            final(self).state(final(bump)) == crate::vm::semantics::update(
                old(self).state(old(bump)),
                old(self).module(),
                pushed(final(self).state(final(bump))),
            ),
            *final(self) is Running ==> *old(self) is Running && final(self)->Running_0.c == old(
                self,
            )->Running_0.c,
            match (*old(self), *final(self)) {
                (VM::Running(before), VM::Running(after)) => match before.fetched() {
                    Some(Instruction2::Get(l)) => after.f@.len() > 0 && after.f@.last().shares(
                        l.0 as int,
                    ),
                    Some(Instruction2::Call) => after.runs(
                        before.c,
                        before.frames(old(bump)).last().stack.last(),
                    ),
                    _ => true,
                },
                _ => true,
            },
    {
        let mut tar = VM::Updating;
        std::mem::swap(self, &mut tar);
        *self = match tar {
            VM::Updating => VM::Failed(Error::UpdatedWhileUpdating),
            VM::Running(running) => {
                match running.update(bump, interns) {
                    Err(e) => VM::Failed(e),
                    Ok(v) => v,
                }
            },
            VM::Succeeded(succeeded, vars) => VM::Succeeded(succeeded, vars),
            VM::Failed(failed) => VM::Failed(failed),
        }
    }

    /// Steps the machine until it has ended, at most `fuel` times, and
    /// returns the number of steps it took. What the native procedures
    /// returned on the way decides the states with them.
    pub fn run(&mut self, bump: &mut Bump, interns: &Interns, fuel: usize) -> (steps: usize)
        requires
            old(self).wf(old(bump)),
            interns.wf(),
        ensures
            final(bump).extends(old(bump)),
            final(self).wf(final(bump)),
            steps <= fuel,
            steps < fuel ==> !(*final(self) is Running),
            exists|natives: Seq<Term>|
                natives.len() == steps && final(self).state(final(bump)) == #[trigger] run_with(
                    old(self).state(old(bump)),
                    old(self).module(),
                    natives,
                ),
    {
        let ghost start = self.state(bump);
        let ghost module = self.module();
        let ghost first = *bump;
        let ghost mut natives: Seq<Term> = Seq::empty();
        let mut steps: usize = 0;
        while steps < fuel && self.is_running()
            invariant
                steps <= fuel,
                interns.wf(),
                self.wf(bump),
                bump.extends(&first),
                natives.len() == steps,
                *self is Running ==> self.module() == module,
                self.state(bump) == run_with(start, module, natives),
            decreases fuel - steps,
        {
            let ghost before = self.state(bump);
            let ghost mid = *bump;
            self.update(bump, interns);
            proof {
                let t = pushed(self.state(bump));
                lemma_run_with_push(start, module, natives, t);
                natives = natives.push(t);
                assert forall|i: int| 0 <= i < first@.len() implies bump@[i] == first@[i] by {
                    assert(mid@[i] == first@[i]);
                }
            }
            steps += 1;
        }
        steps
    }

    /// The module that a running machine runs in.
    pub open spec fn module(&self) -> crate::vm::semantics::ModuleView {
        match self {
            VM::Running(runner) => runner.c@,
            _ => Map::empty(),
        }
    }

    /// Whether the machine runs.
    pub fn is_running(&self) -> (r: bool)
        ensures
            r == (self is Running),
    {
        match self {
            VM::Running(_) => true,
            _ => false,
        }
    }
}

} // verus!
