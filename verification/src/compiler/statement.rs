//! Lowering of statements.

use vstd::prelude::*;
use crate::compiler::{grown, Lowered, Lowering};
use crate::errors::compiler::{Compiler, Error};
use crate::interns::Interns;
use crate::irs::ast1::types::Statement;
use crate::irs::instruction1::{Instruction1, Label};
use crate::irs::procedure1::Procedure1;
use crate::irs::procedure2::Procedure2;
use crate::primitive::{Functor, Operand};

verus! {

impl Statement {
    /// The state after the statement was lowered.
    ///
    /// A conditional creates three labels: then, else and done. The
    /// condition is lowered against the else label, the then label is
    /// anchored, and the then block follows. With an else block, the then
    /// block ends with a jump to done, the else label is anchored, and the
    /// else block follows; without one, the else label is anchored behind
    /// the then block. The done label is anchored at the end.
    pub open spec fn lowered(&self, s: Lowering) -> Lowered
        decreases self, 0int,
    {
        match self {
            Statement::If(cond, bl_then, obl_else) => {
                let lb_then = s.script.next_label;
                let lb_else = s.label().script.next_label;
                let lb_done = s.label().label().script.next_label;
                let c = cond.lowered(s.label().label().label(), Label(lb_else));
                let a = c.anchor(lb_then);
                if a.error is Some {
                    a
                } else {
                    let t = Self::lowered_all(bl_then.0@, bl_then.0@.len() as int, a.state);
                    if t.error is Some {
                        t
                    } else {
                        match obl_else {
                            Some(bl_else) => {
                                let j = t.state.emit(Instruction1::Jump(Label(lb_done))).anchor(
                                    lb_else,
                                );
                                if j.error is Some {
                                    j
                                } else {
                                    let e = Self::lowered_all(
                                        bl_else.0@,
                                        bl_else.0@.len() as int,
                                        j.state,
                                    );
                                    if e.error is Some {
                                        e
                                    } else {
                                        e.state.anchor(lb_done)
                                    }
                                }
                            },
                            None => {
                                let j = t.state.anchor(lb_else);
                                if j.error is Some {
                                    j
                                } else {
                                    j.state.anchor(lb_done)
                                }
                            },
                        }
                    }
                }
            },
            Statement::Assign(lhs, rhs) => {
                let r = rhs.lowered(s);
                r.local(lhs@).emit(Instruction1::SetVar(r.script.slot_of(lhs@))).fine()
            },
            Statement::Destructure(lhs, rhs) => lhs.lowered(rhs.lowered(s)).fine(),
            Statement::Eval(expression) => expression.lowered(s).emit(Instruction1::Pop).fine(),
            Statement::Ret(expression) => expression.lowered(s).emit(Instruction1::Ret).fine(),
        }
    }

    /// The state after the first `n` of the statements `ss` were lowered,
    /// one after the other, up to the first that fails.
    pub open spec fn lowered_all(ss: Seq<Statement>, n: int, s: Lowering) -> Lowered
        decreases ss, n,
    {
        if n <= 0 || n > ss.len() {
            s.fine()
        } else {
            let before = Self::lowered_all(ss, n - 1, s);
            if before.error is Some {
                before
            } else {
                ss[n - 1].lowered(before.state)
            }
        }
    }

    /// The nodes of the parts are among the nodes of the whole, and parts of
    /// what can be compiled can be compiled.
    pub proof fn lemma_parts(ss: Seq<Statement>, k: int, n: int)
        requires
            0 <= k < n <= ss.len(),
        ensures
            Self::sizes(ss, k) + ss[k].size() <= Self::sizes(ss, n),
            Self::all_supported(ss, n) ==> ss[k].supported(),
        decreases n,
    {
        if k < n - 1 {
            Self::lemma_parts(ss, k, n - 1);
        }
    }

    /// A failure stops the lowering of a sequence where it occurs.
    pub proof fn lemma_stopped(ss: Seq<Statement>, k: int, n: int, s: Lowering)
        requires
            1 <= k <= n <= ss.len(),
            Self::lowered_all(ss, k, s).error is Some,
        ensures
            Self::lowered_all(ss, n, s) == Self::lowered_all(ss, k, s),
        decreases n - k,
    {
        if k < n {
            Self::lemma_stopped(ss, k, n - 1, s);
        }
    }

    /// The state after the statement was lowered as a procedure of its own,
    /// for a session: the procedure is called `repl`, takes no argument, and
    /// returns `1` unless the statement returns before.
    pub open spec fn lowered_repl(&self, t: crate::interns::InternTable) -> Lowered {
        let s0 = Lowering {
            table: t.intern("repl"@),
            script: crate::irs::procedure1::Script::empty(Functor(t.id_of("repl"@), 0)),
        };
        let l = self.lowered(s0);
        if l.error is Some {
            l
        } else {
            l.state.emit(Instruction1::Push(Operand::Integer(1))).emit(Instruction1::Ret).fine()
        }
    }

    /// Compiles the statement as a procedure of its own, for a session.
    /// Returns the names of the local slots with the procedure: the slot of
    /// a name is its position.
    pub fn compile_repl(&self, it: &mut Interns) -> (r: Compiler<(Vec<String>, Procedure2)>)
        requires
            self.supported(),
            old(it).wf(),
            old(it).has_room_for(1 + self.size()),
        ensures
            grown(old(it), final(it), 1 + self.size()),
            final(it)@ == self.lowered_repl(old(it)@).state.table,
            match r {
                Ok((names, p)) => {
                    let l = self.lowered_repl(old(it)@);
                    &&& l.error is None
                    &&& l.state.script.finished() == Ok::<
                        crate::compiler::procedure::Compiled,
                        Error,
                    >(p.compiled())
                    &&& p.wf()
                    &&& p.addressed()
                    &&& crate::repl::name_views(names@) == l.state.script.locals
                    &&& names@.len() == p.vars
                },
                Err(e) => {
                    let l = self.lowered_repl(old(it)@);
                    if l.error is Some {
                        l.error == Some(e)
                    } else {
                        l.state.script.finished() == Err::<
                            crate::compiler::procedure::Compiled,
                            Error,
                        >(e)
                    }
                },
            },
            3 * self.size() <= usize::MAX ==> r is Ok,
    {
        proof {
            if 3 * self.size() <= usize::MAX {
                self.law_compiles_repl(it@);
            }
        }
        let tag = it.intern("repl");
        let mut preprocedure = Procedure1::new(Functor(tag, 0));
        match self.compile(it, &mut preprocedure) {
            Ok(_) => {},
            Err(e) => {
                return Err(e);
            },
        }
        preprocedure.push(Instruction1::Push(Operand::Integer(1)));
        preprocedure.push(Instruction1::Ret);
        let mut names: Vec<String> = Vec::new();
        let locals = preprocedure.local_name_to_ix();
        let mut k: usize = 0;
        while k < locals.len()
            invariant
                k <= locals@.len(),
                names@.len() == k,
                forall|i: int| 0 <= i < k ==> (#[trigger] names@[i])@ == locals@[i]@,
            decreases locals@.len() - k,
        {
            names.push(locals[k].clone());
            k += 1;
        }
        proof {
            assert(crate::repl::name_views(names@) =~= preprocedure@.locals);
        }
        match preprocedure.compile() {
            Ok(p) => Ok((names, p)),
            Err(e) => Err(e),
        }
    }

    /// Emits the code of the statements `ss`, one after the other.
    pub fn compile_all(ss: &Vec<Statement>, it: &mut Interns, pp: &mut Procedure1) -> (r: Compiler<
        (),
    >)
        requires
            Self::all_supported(ss@, ss@.len() as int),
            old(it).wf(),
            old(pp).wf(),
            old(it).has_room_for(Self::sizes(ss@, ss@.len() as int)),
        ensures
            final(pp).wf(),
            grown(old(it), final(it), Self::sizes(ss@, ss@.len() as int)),
            Lowering::of(final(it), final(pp)) == Self::lowered_all(
                ss@,
                ss@.len() as int,
                Lowering::of(old(it), old(pp)),
            ).state,
            Self::lowered_all(ss@, ss@.len() as int, Lowering::of(old(it), old(pp))).error
                == match r {
                Ok(_) => None,
                Err(e) => Some(e),
            },
        decreases ss, 0int,
    {
        let ghost s0 = Lowering::of(it, pp);
        let ghost total = Self::sizes(ss@, ss@.len() as int);
        let mut k: usize = 0;
        while k < ss.len()
            invariant
                k <= ss@.len(),
                s0 == Lowering::of(old(it), old(pp)),
                Self::all_supported(ss@, ss@.len() as int),
                total == Self::sizes(ss@, ss@.len() as int),
                old(it).has_room_for(total),
                pp.wf(),
                grown(old(it), it, Self::sizes(ss@, k as int)),
                Lowering::of(it, pp) == Self::lowered_all(ss@, k as int, s0).state,
                Self::lowered_all(ss@, k as int, s0).error is None,
            decreases ss@.len() - k,
        {
            proof {
                Self::lemma_parts(ss@, k as int, ss@.len() as int);
            }
            match ss[k].compile(it, pp) {
                Ok(_) => {},
                Err(e) => {
                    proof {
                        Self::lemma_stopped(ss@, k as int + 1, ss@.len() as int, s0);
                    }
                    return Err(e);
                },
            }
            k += 1;
        }
        Ok(())
    }

    /// Emits the code of the statement. Fails where a label would be
    /// anchored a second time.
    pub fn compile(&self, it: &mut Interns, pp: &mut Procedure1) -> (r: Compiler<()>)
        requires
            self.supported(),
            old(it).wf(),
            old(pp).wf(),
            old(it).has_room_for(self.size()),
        ensures
            final(pp).wf(),
            grown(old(it), final(it), self.size()),
            Lowering::of(final(it), final(pp)) == self.lowered(
                Lowering::of(old(it), old(pp)),
            ).state,
            self.lowered(Lowering::of(old(it), old(pp))).error == match r {
                Ok(_) => None,
                Err(e) => Some(e),
            },
        decreases self, 1int,
    {
        match self {
            Statement::If(cond, bl_then, obl_else) => {
                let lb_then = pp.create_label();
                let lb_else = pp.create_label();
                let lb_done = pp.create_label();
                cond.compile(it, pp, lb_else);
                match pp.anchor_label(lb_then) {
                    Ok(_) => {},
                    Err(e) => {
                        return Err(e);
                    },
                }
                match Self::compile_all(&bl_then.0, it, pp) {
                    Ok(_) => {},
                    Err(e) => {
                        return Err(e);
                    },
                }
                match obl_else {
                    Some(bl_else) => {
                        pp.push(Instruction1::Jump(lb_done));
                        match pp.anchor_label(lb_else) {
                            Ok(_) => {},
                            Err(e) => {
                                return Err(e);
                            },
                        }
                        match Self::compile_all(&bl_else.0, it, pp) {
                            Ok(_) => {},
                            Err(e) => {
                                return Err(e);
                            },
                        }
                    },
                    None => {
                        match pp.anchor_label(lb_else) {
                            Ok(_) => {},
                            Err(e) => {
                                return Err(e);
                            },
                        }
                    },
                }
                pp.anchor_label(lb_done)
            },
            Statement::Assign(lhs, rhs) => {
                rhs.compile(it, pp);
                let ix = pp.local(lhs.as_str());
                pp.push(Instruction1::SetVar(ix));
                Ok(())
            },
            Statement::Destructure(lhs, rhs) => {
                rhs.compile(it, pp);
                lhs.compile_destructure(it, pp);
                Ok(())
            },
            Statement::Eval(expression) => {
                expression.compile(it, pp);
                pp.push(Instruction1::Pop);
                Ok(())
            },
            Statement::Ret(expression) => {
                expression.compile(it, pp);
                pp.push(Instruction1::Ret);
                Ok(())
            },
        }
    }
}

} // verus!
