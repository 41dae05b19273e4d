//! What holds of every program, from the syntax tree to the result.

use vstd::prelude::*;
use crate::errors::runtime::Error;
use crate::interns::{Intern, InternTable};
use crate::irs::ast1::types::{BinOp, Expression, Pattern, Procedure, Statement};
use crate::irs::instruction1::Instruction1;
use crate::irs::instruction2::Instruction2;
use crate::irs::procedure1::Script;
use crate::compiler::Lowering;
use crate::primitive::{Functor, Local, Operand, Term};
use crate::vm::semantics::{
    call, destructure, exec_local, quotient, region_end, unify, update, FrameView, Match,
    ModuleView, ProcView, State,
};

verus! {

/// The state after `n` updates of a machine that calls no native procedure.
pub open spec fn run(s: State, m: ModuleView, n: nat) -> State
    decreases n,
{
    if n == 0 {
        s
    } else {
        run(update(s, m, Term::Bool(false)), m, (n - 1) as nat)
    }
}

/// What the host makes of `a op b`, in arithmetic that wraps around.
pub open spec fn host(op: BinOp, a: i64, b: i64) -> Term {
    match op {
        BinOp::Multiply => Term::Integer(a.wrapping_mul(b)),
        BinOp::Divide => Term::Integer(quotient(a, b)),
        BinOp::Add => Term::Integer(a.wrapping_add(b)),
        BinOp::Subtract => Term::Integer(a.wrapping_sub(b)),
        BinOp::Le => Term::Bool(a <= b),
        BinOp::Ge => Term::Bool(a >= b),
        BinOp::Lt => Term::Bool(a < b),
        BinOp::Gt => Term::Bool(a > b),
        BinOp::Eq => Term::Bool(a == b),
        _ => Term::Bool(a != b),
    }
}

/// The code of a procedure without arguments whose body returns `a op b`.
pub open spec fn arithmetic_code(op: BinOp, a: i64, b: i64) -> Seq<Instruction2> {
    seq![
        Instruction2::Destruct(0),
        Instruction2::Push(Operand::Integer(a)),
        Instruction2::Push(Operand::Integer(b)),
        op.instruction().at(0),
        Instruction2::Ret,
    ]
}

/// A procedure without arguments whose body is `ret a op b.` compiles to
/// five instructions: the prologue, the left operand, the right operand,
/// the operator, the return.
pub proof fn law_arithmetic_code(p: Procedure, t: InternTable, op: BinOp, a: i64, b: i64)
    requires
        p.args@.len() == 0,
        p.body.0@.len() == 1,
        p.body.0@[0] == Statement::Ret(
            Expression::Binary(
                Box::new(Expression::IntLiteral(a)),
                op,
                Box::new(Expression::IntLiteral(b)),
            ),
        ),
    ensures
        p.compiled(t) matches Ok(c) && c.code == arithmetic_code(op, a, b) && c.functor
            == p.functor(t) && c.vars == 0,
{
    let s0 = Lowering { table: t.intern(p.name@), script: Script::empty(p.functor(t)) };
    let s1 = s0.emit(Instruction1::Destruct(0));
    assert(Pattern::lowered_all(p.args@, 0, s1) == s1);
    let e = Expression::Binary(
        Box::new(Expression::IntLiteral(a)),
        op,
        Box::new(Expression::IntLiteral(b)),
    );
    let s2 = s1.emit(Instruction1::Push(Operand::Integer(a)));
    let s3 = s2.emit(Instruction1::Push(Operand::Integer(b)));
    let s4 = s3.emit(op.instruction());
    let s5 = s4.emit(Instruction1::Ret);
    assert(Expression::IntLiteral(a).lowered(s1) == s2);
    assert(Expression::IntLiteral(b).lowered(s2) == s3);
    assert(e.lowered(s1) == s4);
    assert(Statement::lowered_all(p.body.0@, 0, s1) == s1.fine());
    assert(p.body.0@[0].lowered(s1) == s5.fine());
    assert(Statement::lowered_all(p.body.0@, 1, s1) == s5.fine());
    assert(p.lowered(t) == s5.fine());
    let sc = s5.script;
    assert(sc.code.len() == 5);
    assert(sc.code[0] == Instruction1::Destruct(0));
    assert(sc.code[1] == Instruction1::Push(Operand::Integer(a)));
    assert(sc.code[2] == Instruction1::Push(Operand::Integer(b)));
    assert(sc.code[3] == op.instruction());
    assert(sc.code[4] == Instruction1::Ret);
    assert(op.instruction().target() is None);
    assert(sc.resolved(0) == Ok::<Seq<Instruction2>, crate::errors::compiler::Error>(Seq::empty()));
    let r1 = seq![Instruction2::Destruct(0)];
    assert(sc.resolved(1) matches Ok(c) && c =~= r1);
    let r2 = r1.push(Instruction2::Push(Operand::Integer(a)));
    assert(sc.resolved(2) matches Ok(c) && c =~= r2);
    let r3 = r2.push(Instruction2::Push(Operand::Integer(b)));
    assert(sc.resolved(3) matches Ok(c) && c =~= r3);
    let r4 = r3.push(op.instruction().at(0));
    assert(sc.resolved(4) matches Ok(c) && c =~= r4);
    let r5 = r4.push(Instruction2::Ret);
    assert(sc.resolved(5) matches Ok(c) && c =~= r5);
    assert(r5 =~= arithmetic_code(op, a, b));
}

/// Arithmetic makes the round trip: a procedure whose body is `ret a op b.`,
/// compiled and called, ends with what the host makes of `a op b`, the left
/// operand on the left. The divisor of a division must not be zero.
pub proof fn law_round_trip(
    p: Procedure,
    t: InternTable,
    m: ModuleView,
    op: BinOp,
    a: i64,
    b: i64,
)
    requires
        p.args@.len() == 0,
        p.body.0@.len() == 1,
        p.body.0@[0] == Statement::Ret(
            Expression::Binary(
                Box::new(Expression::IntLiteral(a)),
                op,
                Box::new(Expression::IntLiteral(b)),
            ),
        ),
        op != BinOp::And,
        op != BinOp::Or,
        op == BinOp::Divide ==> b != 0,
        p.compiled(t) matches Ok(c) && m.contains_key(c.functor) && m[c.functor]
            == (ProcView::Dynamic { functor: c.functor, code: c.code, vars: c.vars }),
    ensures
        run(
            call(
                Seq::empty(),
                m,
                Term::Compound(p.functor(t).0, Seq::empty()),
                Term::Bool(false),
            ),
            m,
            5,
        ) == State::Succeeded(host(op, a, b), Seq::empty()),
{
    law_arithmetic_code(p, t, op, a, b);
    let code = arithmetic_code(op, a, b);
    let callee = Term::Compound(p.functor(t).0, Seq::empty());
    let none = Term::Bool(false);
    let f0 = FrameView::enter(code, 0, callee);
    let st0 = call(Seq::empty(), m, callee, none);
    assert(st0 == State::Running(seq![f0]));
    assert(f0.vars =~= Seq::<Option<Term>>::empty());

    let f1 = FrameView { ip: 1, stack: Seq::empty(), ..f0 };
    assert(f0.pop().stack =~= Seq::<Term>::empty());
    assert(Seq::<Term>::empty().reverse() =~= Seq::<Term>::empty());
    assert(seq![f0].last() == f0);
    assert(exec_local(f0.jump(1), code[0]) == Ok::<FrameView, Error>(f1)) by {
        assert(f0.jump(1).pop().stack + Seq::<Term>::empty().reverse() =~= Seq::<Term>::empty());
    }
    let st1 = update(st0, m, none);
    assert(seq![f0].drop_last() =~= Seq::<FrameView>::empty());
    assert(Seq::<FrameView>::empty().push(f1) =~= seq![f1]);
    assert(st1 == State::Running(seq![f1]));

    let f2 = FrameView { ip: 2, stack: seq![Term::Integer(a)], ..f0 };
    assert(f1.jump(2).push(Term::Integer(a)).stack =~= seq![Term::Integer(a)]);
    let st2 = update(st1, m, none);
    assert(seq![f1].last() == f1);
    assert(seq![f1].drop_last() =~= Seq::<FrameView>::empty());
    assert(Seq::<FrameView>::empty().push(f2) =~= seq![f2]);
    assert(st2 == State::Running(seq![f2]));

    let f3 = FrameView { ip: 3, stack: seq![Term::Integer(a), Term::Integer(b)], ..f0 };
    assert(f2.jump(3).push(Term::Integer(b)).stack =~= seq![Term::Integer(a), Term::Integer(b)]);
    let st3 = update(st2, m, none);
    assert(seq![f2].last() == f2);
    assert(seq![f2].drop_last() =~= Seq::<FrameView>::empty());
    assert(Seq::<FrameView>::empty().push(f3) =~= seq![f3]);
    assert(st3 == State::Running(seq![f3]));

    let f4 = FrameView { ip: 4, stack: seq![host(op, a, b)], ..f0 };
    assert(f3.jump(4).pop().pop().push(host(op, a, b)).stack =~= seq![host(op, a, b)]);
    let st4 = update(st3, m, none);
    assert(seq![f3].last() == f3);
    assert(seq![f3].drop_last() =~= Seq::<FrameView>::empty());
    assert(Seq::<FrameView>::empty().push(f4) =~= seq![f4]);
    assert(st4 == State::Running(seq![f4]));

    let st5 = update(st4, m, none);
    assert(seq![f4].last() == f4);
    assert(seq![f4].drop_last() =~= Seq::<FrameView>::empty());
    assert(st5 == State::Succeeded(host(op, a, b), Seq::empty()));

    assert(run(st5, m, 0) == st5);
    assert(run(st4, m, 1) == st5);
    assert(run(st3, m, 2) == st5);
    assert(run(st2, m, 3) == st5);
    assert(run(st1, m, 4) == st5);
    assert(run(st0, m, 5) == st5);
}

/// A variable that occurs twice in a pattern must stand for equal values:
/// two bind-or-checks of an unbound slot bind it if the two values are
/// equal, and do not match if they differ.
pub proof fn law_repeated_variable(
    code: Seq<Instruction2>,
    ip: int,
    l: Local,
    first: Term,
    second: Term,
    vars: Seq<Option<Term>>,
)
    requires
        0 <= ip,
        ip + 1 < code.len(),
        code[ip] == Instruction2::SetAssert(l),
        code[ip + 1] == Instruction2::SetAssert(l),
        0 <= l.0 < vars.len(),
        vars[l.0 as int] is None,
    ensures
        unify(code, ip, ip + 2, seq![second, first], vars) == if first == second {
            Match::Bound(vars.update(l.0 as int, Some(first)))
        } else {
            Match::Mismatch
        },
{
    let stack = seq![second, first];
    let bound = vars.update(l.0 as int, Some(first));
    assert(stack.last() == first);
    assert(stack.drop_last() =~= seq![second]);
    assert(unify(code, ip, ip + 2, stack, vars) == unify(code, ip + 1, ip + 2, seq![second], bound));
    assert(seq![second].last() == second);
    assert(seq![second].drop_last() =~= Seq::<Term>::empty());
    if first == second {
        assert(unify(code, ip + 2, ip + 2, Seq::<Term>::empty(), bound) == Match::Bound(bound));
    }
}

/// A match that fails commits nothing: the frame keeps its slots and its
/// code, continues at the else address, and has the value back on its stack
/// if and only if the mark asked for that.
pub proof fn law_failed_match_commits_nothing(
    f: FrameView,
    else_ip: usize,
    keep: bool,
    value: Term,
)
    requires
        region_end(f.code, f.ip as int) matches Ok(end) && unify(
            f.code,
            f.ip as int,
            end,
            seq![value],
            f.vars,
        ) == Match::Mismatch,
    ensures
        destructure(f, else_ip, keep, value) matches Ok(g) && g.vars == f.vars && g.code == f.code
            && g.ip == else_ip && g.stack == if keep {
            f.stack.push(value)
        } else {
            f.stack
        },
{
}

/// The end of a marked region lies in the code, at or behind its start.
pub proof fn lemma_region_bounds(code: Seq<Instruction2>, ip: int)
    ensures
        region_end(code, ip) matches Ok(end) ==> ip <= end < code.len() && code[end]
            == Instruction2::Unmark,
    decreases code.len() - ip,
{
    if 0 <= ip < code.len() && code[ip] != Instruction2::Unmark && code[ip].is_pattern() {
        lemma_region_bounds(code, ip + 1);
    }
}

/// A match is all or nothing: it ends with every slot of the pattern bound
/// and the frame behind the region, or with the slots as they were.
pub proof fn law_match_is_atomic(f: FrameView, else_ip: usize, keep: bool, value: Term)
    requires
        f.code.len() <= usize::MAX,
    ensures
        match destructure(f, else_ip, keep, value) {
            Ok(g) => {
                ||| g.vars == f.vars && g.ip == else_ip
                ||| region_end(f.code, f.ip as int) matches Ok(end) && g.ip == end + 1 && unify(
                    f.code,
                    f.ip as int,
                    end,
                    seq![value],
                    f.vars,
                ) == Match::Bound(g.vars) && g.stack == f.stack
            },
            Err(_) => true,
        },
{
    lemma_region_bounds(f.code, f.ip as int);
}

/// A call is dispatched by tag and arity together: it goes to the procedure
/// under that functor, and fails if there is none, whatever procedures of
/// the same tag and other arities the module holds.
pub proof fn law_dispatch_by_arity(
    frames: Seq<FrameView>,
    m: ModuleView,
    tag: Intern,
    args: Seq<Term>,
    native: Term,
)
    requires
        args.len() <= usize::MAX,
    ensures
        !m.contains_key(Functor(tag, args.len() as usize)) ==> call(
            frames,
            m,
            Term::Compound(tag, args),
            native,
        ) == State::Failed(Error::NoSuchProcedure),
        m.contains_key(Functor(tag, args.len() as usize)) ==> match m[Functor(
            tag,
            args.len() as usize,
        )] {
            ProcView::Dynamic { functor: _, code, vars } => call(
                frames,
                m,
                Term::Compound(tag, args),
                native,
            ) == State::Running(
                frames.push(FrameView::enter(code, vars, Term::Compound(tag, args))),
            ),
            ProcView::Native => frames.len() > 0 ==> call(
                frames,
                m,
                Term::Compound(tag, args),
                native,
            ) == State::Running(frames.drop_last().push(frames.last().push(native))),
        },
{
}

} // verus!
