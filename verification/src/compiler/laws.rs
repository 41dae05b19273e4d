//! What holds of every lowering: labels are created before they are used
//! and anchored once, so that a procedure lowered into an empty script
//! compiles.

use vstd::prelude::*;
use crate::compiler::Lowering;
use crate::irs::ast1::types::{Condition, Expression, Module, Pattern, Procedure, Statement};
use crate::primitive::{Functor, Operand};
use crate::vm::semantics::{ModuleView, ProcView};
use crate::irs::instruction1::{Instruction1, Label};
use crate::irs::procedure1::Script;
use crate::interns::{Intern, InternTable};

verus! {

impl Script {
    /// Every label that is anchored or jumped to was created.
    pub open spec fn tidy(self) -> bool {
        &&& forall|l: usize| #[trigger] self.anchors.contains_key(l) ==> l < self.next_label
        &&& forall|i: int|
            0 <= i < self.code.len() ==> match (#[trigger] self.code[i]).target() {
                Some(l) => l < self.next_label,
                None => true,
            }
    }

    /// `self` continues `before`: it has the code of `before` and more, at
    /// least as many labels, and for the labels of `before` the same anchors.
    pub open spec fn continues(self, before: Script) -> bool {
        &&& self.functor == before.functor
        &&& before.code.len() <= self.code.len()
        &&& forall|i: int| 0 <= i < before.code.len() ==> self.code[i] == before.code[i]
        &&& before.next_label <= self.next_label
        &&& forall|l: usize|
            l < before.next_label ==> (#[trigger] self.anchors.contains_key(l)
                <==> before.anchors.contains_key(l))
    }

    /// Every jump from the address `from` on goes to an anchored label.
    pub open spec fn closed_from(self, from: int) -> bool {
        forall|i: int|
            from <= i < self.code.len() ==> match (#[trigger] self.code[i]).target() {
                Some(l) => self.anchors.contains_key(l),
                None => true,
            }
    }

    /// The script has the labels and anchors of `before`, and the code of
    /// `before` followed by instructions that jump nowhere.
    pub open spec fn straight_from(self, before: Script) -> bool {
        &&& self.functor == before.functor
        &&& self.next_label == before.next_label
        &&& self.anchors == before.anchors
        &&& before.code.len() <= self.code.len()
        &&& forall|i: int| 0 <= i < before.code.len() ==> self.code[i] == before.code[i]
        &&& forall|i: int|
            before.code.len() <= i < self.code.len() ==> (#[trigger] self.code[i]).target() is None
    }

    /// A script whose jumps all go to anchored labels can be finished.
    pub proof fn lemma_closed_resolves(self, n: int)
        requires
            self.closed_from(0),
            0 <= n <= self.code.len(),
        ensures
            self.resolved(n) is Ok,
        decreases n,
    {
        if n > 0 {
            self.lemma_closed_resolves(n - 1);
            assert(self.code[n - 1].target() matches Some(l) ==> self.anchors.contains_key(l));
        }
    }
}

impl Expression {
    /// The code of an expression jumps nowhere and touches no label.
    pub proof fn lemma_straight(&self, s: Lowering)
        ensures
            self.lowered(s).script.straight_from(s.script),
            self.lowered(s).table.keeps(s.table),
        decreases self, 0int,
    {
        match self {
            Expression::Call(e) => {
                e.lemma_straight(s);
            },
            Expression::Compound(name, es) => {
                Self::lemma_straight_all(es@, es@.len() as int, s);
                Self::lowered_all(es@, es@.len() as int, s).table.lemma_intern_keeps(name@);
            },
            Expression::Vector(es) => {
                Self::lemma_straight_all(es@, es@.len() as int, s);
            },
            Expression::SetOf(es) => {
                Self::lemma_straight_all(es@, es@.len() as int, s);
            },
            Expression::Binary(l, _, r) => {
                l.lemma_straight(s);
                r.lemma_straight(l.lowered(s));
            },
            _ => {},
        }
    }

    /// The code of a sequence of expressions jumps nowhere and touches no label.
    pub proof fn lemma_straight_all(es: Seq<Expression>, n: int, s: Lowering)
        ensures
            Self::lowered_all(es, n, s).script.straight_from(s.script),
            Self::lowered_all(es, n, s).table.keeps(s.table),
        decreases es, n,
    {
        if 0 < n <= es.len() {
            Self::lemma_straight_all(es, n - 1, s);
            es[n - 1].lemma_straight(Self::lowered_all(es, n - 1, s));
        }
    }
}

impl Pattern {
    /// The code of a pattern jumps nowhere and touches no label.
    pub proof fn lemma_straight(&self, s: Lowering)
        ensures
            self.lowered(s).script.straight_from(s.script),
            self.lowered(s).table.keeps(s.table),
        decreases self, 0int,
    {
        match self {
            Pattern::Compound(name, ps) => {
                s.table.lemma_intern_keeps(name@);
                Self::lemma_straight_all(
                    ps@,
                    ps@.len() as int,
                    s.intern(name@).emit(
                        Instruction1::DestructCompound(
                            crate::primitive::Functor(s.table.id_of(name@), ps@.len() as usize),
                        ),
                    ),
                );
            },
            Pattern::WcCompound(ps) => {
                Self::lemma_straight_all(
                    ps@,
                    ps@.len() as int,
                    s.emit(Instruction1::Destruct(ps@.len() as usize)),
                );
            },
            Pattern::Vector(ps) => {
                Self::lemma_straight_all(
                    ps@,
                    ps@.len() as int,
                    s.emit(Instruction1::DestructVector(ps@.len() as usize)),
                );
            },
            _ => {},
        }
    }

    /// The code of a sequence of patterns jumps nowhere and touches no label.
    pub proof fn lemma_straight_all(ps: Seq<Pattern>, n: int, s: Lowering)
        ensures
            Self::lowered_all(ps, n, s).script.straight_from(s.script),
            Self::lowered_all(ps, n, s).table.keeps(s.table),
        decreases ps, n,
    {
        if 0 < n <= ps.len() {
            Self::lemma_straight_all(ps, n - 1, s);
            ps[n - 1].lemma_straight(Self::lowered_all(ps, n - 1, s));
        }
    }
}

impl Condition {
    /// The code of a condition touches no label, and jumps to the else
    /// label only.
    pub proof fn lemma_jumps(&self, s: Lowering, lb_else: Label)
        ensures
            ({
                let after = self.lowered(s, lb_else).script;
                &&& after.functor == s.script.functor
                &&& after.next_label == s.script.next_label
                &&& after.anchors == s.script.anchors
                &&& s.script.code.len() <= after.code.len()
                &&& forall|i: int| 0 <= i < s.script.code.len() ==> after.code[i] == s.script.code[i]
                &&& forall|i: int|
                    s.script.code.len() <= i < after.code.len() ==> match (
                    #[trigger] after.code[i]).target() {
                        Some(l) => l == lb_else.0,
                        None => true,
                    }
            }),
            self.lowered(s, lb_else).table.keeps(s.table),
    {
        match self {
            Condition::Let(lhs, rhs) => {
                rhs.lemma_straight(s);
                lhs.lemma_straight(rhs.lowered(s).emit(Instruction1::Mark(lb_else, false)));
            },
            Condition::Bare(xp) => {
                xp.lemma_straight(s);
            },
        }
    }
}

impl Statement {
    /// Lowering a statement into a tidy script does not fail, leaves the
    /// script tidy, keeps what was there, and anchors every label that the
    /// new code jumps to.
    pub proof fn lemma_lowers(&self, s: Lowering)
        requires
            s.script.tidy(),
            s.script.next_label + 3 * self.size() <= usize::MAX,
        ensures
            self.lowered(s).error is None,
            self.lowered(s).state.script.tidy(),
            self.lowered(s).state.script.continues(s.script),
            self.lowered(s).state.script.closed_from(s.script.code.len() as int),
            self.lowered(s).state.script.next_label <= s.script.next_label + 3 * self.size(),
        decreases self, 0int,
    {
        match self {
            Statement::If(cond, bl_then, obl_else) => {
                let lb_then = s.script.next_label;
                let lb_else = s.label().script.next_label;
                let lb_done = s.label().label().script.next_label;
                let s3 = s.label().label().label();
                let c = cond.lowered(s3, Label(lb_else));
                cond.lemma_jumps(s3, Label(lb_else));
                let a = c.anchor(lb_then);
                assert(a.error is None);
                assert(a.state.script.tidy());
                let tn = bl_then.0@.len() as int;
                Self::lemma_lowers_all(bl_then.0@, tn, a.state);
                let t = Self::lowered_all(bl_then.0@, tn, a.state);
                assert(!t.state.script.anchors.contains_key(lb_else));
                assert(!t.state.script.anchors.contains_key(lb_done));
                match obl_else {
                    Some(bl_else) => {
                        let j = t.state.emit(Instruction1::Jump(Label(lb_done))).anchor(lb_else);
                        assert(j.error is None);
                        assert(j.state.script.tidy());
                        let en = bl_else.0@.len() as int;
                        Self::lemma_lowers_all(bl_else.0@, en, j.state);
                        let e = Self::lowered_all(bl_else.0@, en, j.state);
                        assert(!e.state.script.anchors.contains_key(lb_done));
                        let d = e.state.anchor(lb_done);
                        assert(d == self.lowered(s));
                        assert(d.state.script.continues(s.script));
                        assert(d.state.script.closed_from(s.script.code.len() as int)) by {
                            assert forall|i: int|
                                s.script.code.len() <= i < d.state.script.code.len()
                                implies match (#[trigger] d.state.script.code[i]).target() {
                                Some(l) => d.state.script.anchors.contains_key(l),
                                None => true,
                            } by {
                                if i < c.script.code.len() {
                                    assert(d.state.script.code[i] == c.script.code[i]);
                                } else if i < t.state.script.code.len() {
                                    assert(d.state.script.code[i] == t.state.script.code[i]);
                                    assert(t.state.script.code[i].target() matches Some(l)
                                        ==> t.state.script.anchors.contains_key(l));
                                } else if i == t.state.script.code.len() {
                                    assert(d.state.script.code[i] == Instruction1::Jump(
                                        Label(lb_done),
                                    ));
                                } else {
                                    assert(d.state.script.code[i] == e.state.script.code[i]);
                                }
                            }
                        }
                    },
                    None => {
                        let j = t.state.anchor(lb_else);
                        assert(j.error is None);
                        let d = j.state.anchor(lb_done);
                        assert(d == self.lowered(s));
                        assert(d.state.script.closed_from(s.script.code.len() as int)) by {
                            assert forall|i: int|
                                s.script.code.len() <= i < d.state.script.code.len()
                                implies match (#[trigger] d.state.script.code[i]).target() {
                                Some(l) => d.state.script.anchors.contains_key(l),
                                None => true,
                            } by {
                                if i < c.script.code.len() {
                                    assert(d.state.script.code[i] == c.script.code[i]);
                                } else {
                                    assert(d.state.script.code[i] == t.state.script.code[i]);
                                    assert(t.state.script.code[i].target() matches Some(l)
                                        ==> t.state.script.anchors.contains_key(l));
                                }
                            }
                        }
                    },
                }
            },
            Statement::Assign(lhs, rhs) => {
                rhs.lemma_straight(s);
            },
            Statement::Destructure(lhs, rhs) => {
                rhs.lemma_straight(s);
                lhs.lemma_straight(rhs.lowered(s));
            },
            Statement::Eval(expression) => {
                expression.lemma_straight(s);
            },
            Statement::Ret(expression) => {
                expression.lemma_straight(s);
            },
        }
    }

    /// Lowering a sequence of statements into a tidy script does not fail,
    /// leaves the script tidy, keeps what was there, and anchors every label
    /// that the new code jumps to.
    pub proof fn lemma_lowers_all(ss: Seq<Statement>, n: int, s: Lowering)
        requires
            s.script.tidy(),
            0 <= n <= ss.len(),
            s.script.next_label + 3 * Self::sizes(ss, n) <= usize::MAX,
        ensures
            Self::lowered_all(ss, n, s).error is None,
            Self::lowered_all(ss, n, s).state.script.tidy(),
            Self::lowered_all(ss, n, s).state.script.continues(s.script),
            Self::lowered_all(ss, n, s).state.script.closed_from(s.script.code.len() as int),
            Self::lowered_all(ss, n, s).state.script.next_label <= s.script.next_label + 3
                * Self::sizes(ss, n),
        decreases ss, n,
    {
        if n > 0 {
            Self::lemma_lowers_all(ss, n - 1, s);
            let before = Self::lowered_all(ss, n - 1, s);
            ss[n - 1].lemma_lowers(before.state);
            let after = ss[n - 1].lowered(before.state);
            assert(after.state.script.closed_from(s.script.code.len() as int)) by {
                assert forall|i: int|
                    s.script.code.len() <= i < after.state.script.code.len() implies match (
                #[trigger] after.state.script.code[i]).target() {
                    Some(l) => after.state.script.anchors.contains_key(l),
                    None => true,
                } by {
                    if i < before.state.script.code.len() {
                        assert(after.state.script.code[i] == before.state.script.code[i]);
                        assert(before.state.script.code[i].target() matches Some(l)
                            ==> before.state.script.anchors.contains_key(l));
                    }
                }
            }
        }
    }
}

impl Statement {
    /// Lowering a statement, to the end or to a failure, leaves the functor
    /// of the script alone and keeps what the table held.
    pub proof fn lemma_keeps(&self, s: Lowering)
        ensures
            self.lowered(s).state.script.functor == s.script.functor,
            self.lowered(s).state.table.keeps(s.table),
        decreases self, 0int,
    {
        match self {
            Statement::If(cond, bl_then, obl_else) => {
                let lb_then = s.script.next_label;
                let lb_else = s.label().script.next_label;
                let lb_done = s.label().label().script.next_label;
                let s3 = s.label().label().label();
                cond.lemma_jumps(s3, Label(lb_else));
                let a = cond.lowered(s3, Label(lb_else)).anchor(lb_then);
                if a.error is None {
                    Self::lemma_keeps_all(bl_then.0@, bl_then.0@.len() as int, a.state);
                    let t = Self::lowered_all(bl_then.0@, bl_then.0@.len() as int, a.state);
                    if t.error is None {
                        match obl_else {
                            Some(bl_else) => {
                                let j = t.state.emit(Instruction1::Jump(Label(lb_done))).anchor(
                                    lb_else,
                                );
                                if j.error is None {
                                    Self::lemma_keeps_all(
                                        bl_else.0@,
                                        bl_else.0@.len() as int,
                                        j.state,
                                    );
                                }
                            },
                            None => {},
                        }
                    }
                }
            },
            Statement::Assign(lhs, rhs) => {
                rhs.lemma_straight(s);
            },
            Statement::Destructure(lhs, rhs) => {
                rhs.lemma_straight(s);
                lhs.lemma_straight(rhs.lowered(s));
            },
            Statement::Eval(expression) => {
                expression.lemma_straight(s);
            },
            Statement::Ret(expression) => {
                expression.lemma_straight(s);
            },
        }
    }

    /// Lowering a sequence of statements, to the end or to a failure, leaves
    /// the functor of the script alone and keeps what the table held.
    pub proof fn lemma_keeps_all(ss: Seq<Statement>, n: int, s: Lowering)
        ensures
            Self::lowered_all(ss, n, s).state.script.functor == s.script.functor,
            Self::lowered_all(ss, n, s).state.table.keeps(s.table),
        decreases ss, n,
    {
        if 0 < n <= ss.len() {
            Self::lemma_keeps_all(ss, n - 1, s);
            let before = Self::lowered_all(ss, n - 1, s);
            if before.error is None {
                ss[n - 1].lemma_keeps(before.state);
            }
        }
    }
}

impl Procedure {
    /// Compiling a procedure keeps what the table held and leaves the name
    /// of the procedure in it, under the tag of its functor. What is
    /// compiled has that functor.
    pub proof fn lemma_keeps(&self, t: InternTable)
        ensures
            self.table_after(t).keeps(t),
            self.outcome(t) matches Ok(c) ==> c.functor == self.functor(t) && (
            t.names.no_duplicates() ==> self.table_after(t).lookup(self.name@) == Some(
                c.functor.0,
            )),
    {
        t.lemma_intern_keeps(self.name@);
        let s0 = Lowering { table: t.intern(self.name@), script: Script::empty(self.functor(t)) };
        let s0e = s0.emit(Instruction1::Destruct(self.args@.len() as usize));
        let s1 = Pattern::lowered_all(self.args@, self.args@.len() as int, s0e);
        Pattern::lemma_straight_all(self.args@, self.args@.len() as int, s0e);
        Statement::lemma_keeps_all(self.body.0@, self.body.0@.len() as int, s1);
        let l = self.lowered(t);
        assert(l.state.table.keeps(s0.table));
        if t.names.no_duplicates() {
            l.state.table.lemma_kept(s0.table, self.name@);
        }
    }

    /// A procedure compiles: lowering it anchors no label twice and leaves
    /// no label without an anchor. The one condition is that its labels,
    /// three for each conditional, can be counted in a machine word.
    pub proof fn law_compiles(&self, t: InternTable)
        requires
            3 * self.size() <= usize::MAX,
        ensures
            self.compiled(t) is Ok,
    {
        let s0 = Lowering { table: t.intern(self.name@), script: Script::empty(self.functor(t)) };
        let s0e = s0.emit(Instruction1::Destruct(self.args@.len() as usize));
        let s1 = Pattern::lowered_all(self.args@, self.args@.len() as int, s0e);
        Pattern::lemma_straight_all(self.args@, self.args@.len() as int, s0e);
        assert(s1.script.tidy());
        assert(s1.script.closed_from(0));
        Statement::lemma_lowers_all(self.body.0@, self.body.0@.len() as int, s1);
        let l = self.lowered(t);
        assert(l.state.script.closed_from(0)) by {
            assert forall|i: int| 0 <= i < l.state.script.code.len() implies match (
            #[trigger] l.state.script.code[i]).target() {
                Some(x) => l.state.script.anchors.contains_key(x),
                None => true,
            } by {
                if i < s1.script.code.len() {
                    assert(l.state.script.code[i] == s1.script.code[i]);
                }
            }
        }
        l.state.script.lemma_closed_resolves(l.state.script.code.len() as int);
    }
}

impl Statement {
    /// A statement compiles as a procedure of its own: lowering it anchors
    /// no label twice and leaves no label without an anchor. The one
    /// condition is that its labels can be counted in a machine word.
    pub proof fn law_compiles_repl(&self, t: InternTable)
        requires
            3 * self.size() <= usize::MAX,
        ensures
            self.lowered_repl(t).error is None,
            self.lowered_repl(t).state.script.finished() is Ok,
    {
        let s0 = Lowering {
            table: t.intern("repl"@),
            script: Script::empty(Functor(t.id_of("repl"@), 0)),
        };
        self.lemma_lowers(s0);
        let l = self.lowered(s0);
        let done = self.lowered_repl(t).state.script;
        assert(done == l.state.script.push(Instruction1::Push(Operand::Integer(1))).push(
            Instruction1::Ret,
        ));
        assert(done.closed_from(0)) by {
            assert forall|i: int| 0 <= i < done.code.len() implies match (
            #[trigger] done.code[i]).target() {
                Some(x) => done.anchors.contains_key(x),
                None => true,
            } by {
                if i < l.state.script.code.len() {
                    assert(done.code[i] == l.state.script.code[i]);
                }
            }
        }
        done.lemma_closed_resolves(done.code.len() as int);
    }
}

impl Module {
    /// The functor under which the procedure `k` of a program is put: the
    /// number of its arguments, and its name as the table knows it once the
    /// procedures before it are compiled.
    pub open spec fn functor_at(ps: Seq<Procedure>, k: int, t: InternTable, m: ModuleView) -> Functor<
        Intern,
    > {
        ps[k].functor(Self::linked(ps, k, t, m).table)
    }

    /// What the table holds while a program is compiled, it holds from then
    /// on, where it held it.
    pub proof fn lemma_linked_keeps(
        ps: Seq<Procedure>,
        k: int,
        n: int,
        t: InternTable,
        m: ModuleView,
    )
        requires
            0 <= k <= n <= ps.len(),
        ensures
            Self::linked(ps, n, t, m).table.keeps(Self::linked(ps, k, t, m).table),
        decreases n - k,
    {
        if k < n {
            Self::lemma_linked_keeps(ps, k, n - 1, t, m);
            ps[n - 1].lemma_keeps(Self::linked(ps, n - 1, t, m).table);
        }
    }

    /// Every procedure of a program that compiles stands in the module
    /// under its functor, as a compiled procedure that has this functor,
    /// and the table that the compilation leaves knows its name by the tag
    /// of the functor. So two procedures of one name and different numbers
    /// of arguments stand under two keys, and both are there.
    pub proof fn law_links_each(ps: Seq<Procedure>, n: int, t: InternTable, m: ModuleView, k: int)
        requires
            0 <= k < n <= ps.len(),
            t.wf(),
            Self::linked(ps, n, t, m).error is None,
        ensures
            ({
                let f = Self::functor_at(ps, k, t, m);
                let l = Self::linked(ps, n, t, m);
                &&& f.1 == ps[k].args@.len() as usize
                &&& l.table.lookup(ps[k].name@) == Some(f.0)
                &&& l.module.contains_key(f)
                &&& l.module[f] is Dynamic
                &&& l.module[f]->functor == f
            }),
        decreases n - k,
    {
        let before = Self::linked(ps, n - 1, t, m);
        Self::lemma_linked_keeps(ps, 0, n - 1, t, m);
        Self::lemma_linked_keeps(ps, n - 1, n, t, m);
        ps[n - 1].lemma_keeps(before.table);
        if k < n - 1 {
            Self::law_links_each(ps, n - 1, t, m, k);
            Self::linked(ps, n, t, m).table.lemma_kept(before.table, ps[k].name@);
        }
    }

    /// Two procedures of one name and different numbers of arguments are
    /// both in the module of a program that compiles: under one tag and two
    /// functors, each as a compiled procedure that has its functor. Neither
    /// stands in the place of the other.
    pub proof fn law_links_by_arity(
        ps: Seq<Procedure>,
        n: int,
        t: InternTable,
        m: ModuleView,
        i: int,
        j: int,
    )
        requires
            0 <= i < n,
            0 <= j < n,
            n <= ps.len(),
            t.wf(),
            Self::linked(ps, n, t, m).error is None,
            ps[i].name@ == ps[j].name@,
            ps[i].args.len() != ps[j].args.len(),
        ensures
            ({
                let f = Self::functor_at(ps, i, t, m);
                let g = Self::functor_at(ps, j, t, m);
                let l = Self::linked(ps, n, t, m);
                &&& f.0 == g.0
                &&& f.1 != g.1
                &&& l.module.contains_key(f) && l.module[f] is Dynamic && l.module[f]->functor == f
                &&& l.module.contains_key(g) && l.module[g] is Dynamic && l.module[g]->functor == g
            }),
    {
        Self::law_links_each(ps, n, t, m, i);
        Self::law_links_each(ps, n, t, m, j);
    }

    /// A procedure stays in the module as it was compiled unless a later
    /// procedure of the program has its functor.
    pub proof fn law_links_last(ps: Seq<Procedure>, n: int, t: InternTable, m: ModuleView, k: int)
        requires
            0 <= k < n <= ps.len(),
            Self::linked(ps, n, t, m).error is None,
            forall|j: int|
                k < j < n ==> #[trigger] Self::functor_at(ps, j, t, m) != Self::functor_at(
                    ps,
                    k,
                    t,
                    m,
                ),
        ensures
            ({
                let f = Self::functor_at(ps, k, t, m);
                let c = ps[k].compiled(Self::linked(ps, k, t, m).table);
                &&& c is Ok
                &&& Self::linked(ps, n, t, m).module[f] == (ProcView::Dynamic {
                    functor: f,
                    code: c->Ok_0.code,
                    vars: c->Ok_0.vars,
                })
            }),
        decreases n - k,
    {
        let before = Self::linked(ps, n - 1, t, m);
        ps[n - 1].lemma_keeps(before.table);
        if k < n - 1 {
            Self::law_links_last(ps, n - 1, t, m, k);
            assert(Self::functor_at(ps, n - 1, t, m) != Self::functor_at(ps, k, t, m));
        }
    }

    /// A program compiles if none of its procedures has two arguments that
    /// are the same variable: each of its procedures compiles. The one
    /// further condition is that the labels of each can be counted in a
    /// machine word.
    pub proof fn law_links(ps: Seq<Procedure>, n: int, t: InternTable, m: ModuleView)
        requires
            0 <= n <= ps.len(),
            3 * Self::sizes(ps, n) <= usize::MAX,
            forall|i: int|
                0 <= i < n ==> Procedure::duplicated(
                    (#[trigger] ps[i]).args@,
                    ps[i].args@.len() as int,
                ) is None,
        ensures
            Self::linked(ps, n, t, m).error is None,
        decreases n,
    {
        if n > 0 {
            Self::law_links(ps, n - 1, t, m);
            ps[n - 1].law_compiles(Self::linked(ps, n - 1, t, m).table);
        }
    }
}

} // verus!
