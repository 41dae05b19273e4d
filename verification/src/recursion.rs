//! Recursion: calls compose, and a procedure that calls itself on smaller
//! values comes to an end.

use vstd::prelude::*;
use crate::compiler::Lowering;
use crate::errors::runtime::Error;
use crate::interns::{Intern, InternTable};
use crate::irs::ast1::types::{BinOp, Condition, Expression, Pattern, Procedure, Statement};
use crate::irs::instruction1::{Instruction1, Label};
use crate::irs::instruction2::{Instruction2, Ip};
use crate::irs::procedure1::Script;
use crate::laws::run;
use crate::primitive::{Functor, Local, Operand, Term};
use crate::vm::semantics::{
    call, exec_local, step, update, FrameView, ModuleView, ProcView, State,
};

verus! {

/// The state `s` of a procedure that was called, as the machine has it
/// while the frames `base` of its callers lie below: the frames of `s` on
/// top of `base`; once the procedure has returned, its value on the stack
/// of the caller; the failure, if it has failed.
pub open spec fn on_top(base: Seq<FrameView>, s: State) -> State {
    match s {
        State::Running(fs) => State::Running(base + fs),
        State::Succeeded(v, _) => State::Running(base.drop_last().push(base.last().push(v))),
        other => other,
    }
}

/// A call does on top of other frames what it does without them.
pub proof fn lemma_call_on_top(
    base: Seq<FrameView>,
    fs: Seq<FrameView>,
    m: ModuleView,
    callee: Term,
    native: Term,
)
    requires
        fs.len() > 0,
    ensures
        call(base + fs, m, callee, native) == on_top(base, call(fs, m, callee, native)),
        call(fs, m, callee, native) matches State::Running(gs) ==> gs.len() > 0,
{
    match callee {
        Term::Compound(tag, args) => {
            let functor = Functor(tag, args.len() as usize);
            if m.contains_key(functor) {
                match m[functor] {
                    ProcView::Dynamic { functor: _, code, vars } => {
                        let e = FrameView::enter(code, vars, callee);
                        assert((base + fs).push(e) =~= base + fs.push(e));
                    },
                    ProcView::Native => {
                        let g = fs.last().push(native);
                        assert((base + fs).last() == fs.last());
                        assert((base + fs).drop_last().push(g) =~= base + fs.drop_last().push(g));
                    },
                }
            }
        },
        _ => {},
    }
}

/// A step does on top of other frames what it does without them, but for
/// the last return, which hands the value to the frame below.
pub proof fn lemma_step_on_top(
    base: Seq<FrameView>,
    fs: Seq<FrameView>,
    m: ModuleView,
    native: Term,
)
    requires
        base.len() > 0,
        fs.len() > 0,
    ensures
        step(base + fs, m, native) == on_top(base, step(fs, m, native)),
        step(fs, m, native) matches State::Running(gs) ==> gs.len() > 0,
{
    let top = fs.last();
    let below = fs.drop_last();
    assert((base + fs).last() == top);
    assert((base + fs).drop_last() =~= base + below);
    if top.ip < top.code.len() {
        let f = top.jump((top.ip + 1) as usize);
        match top.code[top.ip as int] {
            Instruction2::Ret => {
                if f.stack.len() > 0 {
                    if below.len() == 0 {
                        assert(base + below =~= base);
                    } else {
                        let g = below.last().push(f.stack.last());
                        assert((base + below).last() == below.last());
                        assert((base + below).drop_last().push(g) =~= base
                            + below.drop_last().push(g));
                    }
                }
            },
            Instruction2::Call => {
                if f.stack.len() > 0 {
                    assert((base + below).push(f.pop()) =~= base + below.push(f.pop()));
                    lemma_call_on_top(base, below.push(f.pop()), m, f.stack.last(), native);
                }
            },
            i => {
                match exec_local(f, i) {
                    Ok(g) => {
                        assert((base + below).push(g) =~= base + below.push(g));
                    },
                    Err(_) => {},
                }
            },
        }
    }
}

/// Calls compose. What a called procedure does in `n` steps on frames of
/// its own, it does in `n` steps on top of the frames of its callers; and
/// if it returns a value at the last of these steps, the caller has that
/// value on its stack and runs on. The procedure may call others, itself
/// too, to any depth.
pub proof fn law_calls_compose(base: Seq<FrameView>, s: State, m: ModuleView, n: nat)
    requires
        base.len() > 0,
        s matches State::Running(fs) ==> fs.len() > 0,
        forall|k: nat| k < n ==> #[trigger] run(s, m, k) is Running,
    ensures
        run(on_top(base, s), m, n) == on_top(base, run(s, m, n)),
    decreases n,
{
    if n > 0 {
        assert(run(s, m, 0) is Running);
        let fs = s->Running_0;
        let next = update(s, m, Term::Bool(false));
        lemma_step_on_top(base, fs, m, Term::Bool(false));
        assert(update(on_top(base, s), m, Term::Bool(false)) == on_top(base, next));
        assert forall|k: nat| k < n - 1 implies #[trigger] run(next, m, k) is Running by {
            assert(run(s, m, k + 1) is Running);
            assert(run(s, m, k + 1) == run(next, m, k));
        }
        law_calls_compose(base, next, m, (n - 1) as nat);
    }
}

/// The machine runs from `s` for `n` steps without coming to an end before,
/// on `d` frames at most, and is in the state `end` then.
pub open spec fn leads(s: State, m: ModuleView, n: nat, end: State, d: nat) -> bool {
    &&& run(s, m, n) == end
    &&& forall|k: nat| k < n ==> deep(#[trigger] run(s, m, k), d)
}

/// The machine runs, on `d` frames at most.
pub open spec fn deep(s: State, d: nat) -> bool {
    s is Running && s->Running_0.len() <= d
}

/// One step more at the start.
pub proof fn lemma_leads_step(s: State, m: ModuleView, n: nat, end: State, d: nat)
    requires
        deep(s, d),
        leads(update(s, m, Term::Bool(false)), m, n, end, d),
    ensures
        leads(s, m, n + 1, end, d),
{
    let next = update(s, m, Term::Bool(false));
    assert(run(s, m, n + 1) == run(next, m, n));
    assert forall|k: nat| k < n + 1 implies deep(#[trigger] run(s, m, k), d) by {
        if k > 0 {
            assert(run(s, m, k) == run(next, m, (k - 1) as nat));
            assert(deep(run(next, m, (k - 1) as nat), d));
        }
    }
}

/// Two runs, one after the other, are one run.
pub proof fn lemma_leads_on(
    s: State,
    m: ModuleView,
    a: nat,
    mid: State,
    b: nat,
    end: State,
    d: nat,
)
    requires
        leads(s, m, a, mid, d),
        leads(mid, m, b, end, d),
    ensures
        leads(s, m, a + b, end, d),
    decreases a,
{
    if a > 0 {
        assert(deep(run(s, m, 0), d));
        let next = update(s, m, Term::Bool(false));
        assert(run(s, m, a) == run(next, m, (a - 1) as nat));
        assert forall|k: nat| k < a - 1 implies deep(#[trigger] run(next, m, k), d) by {
            assert(deep(run(s, m, k + 1), d));
            assert(run(s, m, k + 1) == run(next, m, k));
        }
        lemma_leads_on(next, m, (a - 1) as nat, mid, b, end, d);
        lemma_leads_step(s, m, (a - 1 + b) as nat, end, d);
    }
}

/// A run on few frames is a run on no more than many.
pub proof fn lemma_leads_deeper(s: State, m: ModuleView, n: nat, end: State, d: nat, e: nat)
    requires
        leads(s, m, n, end, d),
        d <= e,
    ensures
        leads(s, m, n, end, e),
{
    assert forall|k: nat| k < n implies deep(#[trigger] run(s, m, k), e) by {
        assert(deep(run(s, m, k), d));
    }
}

/// A call returns to its caller. If the frames `fs` of a procedure, run on
/// their own, end after `n` steps with the value `v` and grow to `d`
/// frames at most, then on top of the frames `base` they leave after `n`
/// steps, the top frame of `base` has `v` on its stack, and the machine
/// had no more frames than those of `base` and `d` more.
pub proof fn law_call_returns(
    base: Seq<FrameView>,
    fs: Seq<FrameView>,
    m: ModuleView,
    n: nat,
    v: Term,
    vars: Seq<Option<Term>>,
    d: nat,
)
    requires
        base.len() > 0,
        fs.len() > 0,
        leads(State::Running(fs), m, n, State::Succeeded(v, vars), d),
    ensures
        leads(
            State::Running(base + fs),
            m,
            n,
            State::Running(base.drop_last().push(base.last().push(v))),
            base.len() + d,
        ),
{
    let s = State::Running(fs);
    assert forall|j: nat| j < n implies #[trigger] run(s, m, j) is Running by {
        assert(deep(run(s, m, j), d));
    }
    law_calls_compose(base, s, m, n);
    assert forall|k: nat| k < n implies deep(
        #[trigger] run(State::Running(base + fs), m, k),
        base.len() + d,
    ) by {
        assert forall|j: nat| j < k implies #[trigger] run(s, m, j) is Running by {}
        law_calls_compose(base, s, m, k);
        assert(deep(run(s, m, k), d));
    }
}

/// The code of the procedure
/// `fn fib(@n) { if @n < 2 { ret 1. } ret fib(@n - 1) + fib(@n - 2). }`,
/// where `tag` is the identifier of `fib`.
pub open spec fn fib_code(tag: Intern) -> Seq<Instruction2> {
    seq![
        Instruction2::Destruct(1),
        Instruction2::SetAssert(Local(0)),
        Instruction2::Get(Local(0)),
        Instruction2::Push(Operand::Integer(2)),
        Instruction2::Lt,
        Instruction2::JumpNo(Ip(8)),
        Instruction2::Push(Operand::Integer(1)),
        Instruction2::Ret,
        Instruction2::Get(Local(0)),
        Instruction2::Push(Operand::Integer(1)),
        Instruction2::Subtract,
        Instruction2::ConstructCompound(Functor(tag, 1)),
        Instruction2::Call,
        Instruction2::Get(Local(0)),
        Instruction2::Push(Operand::Integer(2)),
        Instruction2::Subtract,
        Instruction2::ConstructCompound(Functor(tag, 1)),
        Instruction2::Call,
        Instruction2::Add,
        Instruction2::Ret,
    ]
}

/// The call `fib(n)`.
pub open spec fn fib_call(tag: Intern, n: i64) -> Term {
    Term::Compound(tag, seq![Term::Integer(n)])
}

/// The value of `fib(n)`: one below two, else the sum of the two values
/// before, in arithmetic that wraps around.
pub open spec fn fib_value(n: int) -> i64
    decreases n,
{
    if n < 2 {
        1i64
    } else {
        fib_value(n - 1).wrapping_add(fib_value(n - 2))
    }
}

/// The number of steps that `fib(n)` takes.
pub open spec fn fib_steps(n: int) -> nat
    decreases n,
{
    if n < 2 {
        8
    } else {
        18 + fib_steps(n - 1) + fib_steps(n - 2)
    }
}

/// The module holds the procedure `fib` under `tag` and one argument.
pub open spec fn holds_fib(m: ModuleView, tag: Intern) -> bool {
    &&& m.contains_key(Functor(tag, 1))
    &&& m[Functor(tag, 1)] is Dynamic
    &&& m[Functor(tag, 1)]->code == fib_code(tag)
    &&& m[Functor(tag, 1)]->vars == 1
}

/// A frame of `fib(n)` at the address `ip`, with the operands `stack`.
pub open spec fn fib_frame(tag: Intern, n: i64, ip: usize, stack: Seq<Term>) -> FrameView {
    FrameView { code: fib_code(tag), ip, vars: seq![Some(Term::Integer(n))], stack }
}

/// A step of a machine with one frame, on an instruction that stays in
/// the frame.
proof fn lemma_local(f: FrameView, g: FrameView, m: ModuleView)
    requires
        f.ip < f.code.len(),
        f.ip < usize::MAX,
        !(f.code[f.ip as int] is Ret),
        !(f.code[f.ip as int] is Call),
        exec_local(f.jump((f.ip + 1) as usize), f.code[f.ip as int]) == Ok::<FrameView, Error>(g),
    ensures
        update(State::Running(seq![f]), m, Term::Bool(false)) == State::Running(seq![g]),
{
    assert(seq![f].last() == f);
    assert(seq![f].drop_last().push(g) =~= seq![g]);
}

/// The first six steps of `fib(n)`: the argument is taken out of the call
/// and compared with two.
proof fn lemma_fib_head(m: ModuleView, tag: Intern, n: i64)
    ensures
        leads(
            State::Running(seq![FrameView::enter(fib_code(tag), 1, fib_call(tag, n))]),
            m,
            6,
            State::Running(
                seq![fib_frame(tag, n, if n < 2 { 6usize } else { 8usize }, Seq::empty())],
            ),
            1,
        ),
{
    let code = fib_code(tag);
    let x = Term::Integer(n);
    let none = Seq::new(1, |i: int| None::<Term>);
    let f0 = FrameView::enter(code, 1, fib_call(tag, n));
    let f1 = FrameView { code, ip: 1, vars: none, stack: seq![x] };
    let f2 = fib_frame(tag, n, 2, Seq::empty());
    let f3 = fib_frame(tag, n, 3, seq![x]);
    let f4 = fib_frame(tag, n, 4, seq![x, Term::Integer(2)]);
    let f5 = fib_frame(tag, n, 5, seq![Term::Bool(n < 2)]);
    let f6 = fib_frame(tag, n, if n < 2 { 6usize } else { 8usize }, Seq::empty());
    assert(exec_local(f0.jump(1), code[0]) == Ok::<FrameView, Error>(f1)) by {
        assert(seq![x].reverse() =~= seq![x]);
        assert(f0.jump(1).pop().stack + seq![x].reverse() =~= seq![x]);
    }
    lemma_local(f0, f1, m);
    assert(exec_local(f1.jump(2), code[1]) == Ok::<FrameView, Error>(f2)) by {
        assert(f1.jump(2).pop().stack =~= Seq::<Term>::empty());
        assert(none.update(0, Some(x)) =~= seq![Some(x)]);
    }
    lemma_local(f1, f2, m);
    assert(exec_local(f2.jump(3), code[2]) == Ok::<FrameView, Error>(f3)) by {
        assert(f2.jump(3).push(x).stack =~= seq![x]);
    }
    lemma_local(f2, f3, m);
    assert(exec_local(f3.jump(4), code[3]) == Ok::<FrameView, Error>(f4)) by {
        assert(f3.jump(4).push(Term::Integer(2)).stack =~= seq![x, Term::Integer(2)]);
    }
    lemma_local(f3, f4, m);
    assert(exec_local(f4.jump(5), code[4]) == Ok::<FrameView, Error>(f5)) by {
        assert(f4.jump(5).pop().pop().push(Term::Bool(n < 2)).stack =~= seq![Term::Bool(n < 2)]);
    }
    lemma_local(f4, f5, m);
    assert(exec_local(f5.jump(6), code[5]) == Ok::<FrameView, Error>(f6)) by {
        assert(f5.jump(6).pop().stack =~= Seq::<Term>::empty());
    }
    lemma_local(f5, f6, m);
    let end = State::Running(seq![f6]);
    assert(leads(end, m, 0, end, 1));
    lemma_leads_step(State::Running(seq![f5]), m, 0, end, 1);
    lemma_leads_step(State::Running(seq![f4]), m, 1, end, 1);
    lemma_leads_step(State::Running(seq![f3]), m, 2, end, 1);
    lemma_leads_step(State::Running(seq![f2]), m, 3, end, 1);
    lemma_leads_step(State::Running(seq![f1]), m, 4, end, 1);
    lemma_leads_step(State::Running(seq![f0]), m, 5, end, 1);
}

/// Five steps of `fib(n)` from the address `ip`, where the code builds the
/// call `fib(n - d)` and makes it: a second frame stands on the first.
proof fn lemma_fib_calls(m: ModuleView, tag: Intern, n: i64, ip: usize, d: i64, stack: Seq<Term>)
    requires
        holds_fib(m, tag),
        n >= 2,
        ip == 8 && d == 1 || ip == 13 && d == 2,
    ensures
        leads(
            State::Running(seq![fib_frame(tag, n, ip, stack)]),
            m,
            5,
            State::Running(
                seq![
                    fib_frame(tag, n, (ip + 5) as usize, stack),
                    FrameView::enter(fib_code(tag), 1, fib_call(tag, (n - d) as i64)),
                ],
            ),
            1,
        ),
{
    let code = fib_code(tag);
    let x = Term::Integer(n);
    let y = Term::Integer((n - d) as i64);
    let callee = fib_call(tag, (n - d) as i64);
    let f0 = fib_frame(tag, n, ip, stack);
    let f1 = fib_frame(tag, n, (ip + 1) as usize, stack.push(x));
    let f2 = fib_frame(tag, n, (ip + 2) as usize, stack.push(x).push(Term::Integer(d)));
    let f3 = fib_frame(tag, n, (ip + 3) as usize, stack.push(y));
    let f4 = fib_frame(tag, n, (ip + 4) as usize, stack.push(callee));
    let f5 = fib_frame(tag, n, (ip + 5) as usize, stack);
    let entered = FrameView::enter(code, 1, callee);
    assert(code[ip as int] == Instruction2::Get(Local(0)));
    assert(code[ip + 1] == Instruction2::Push(Operand::Integer(d)));
    assert(code[ip + 2] == Instruction2::Subtract);
    assert(code[ip + 3] == Instruction2::ConstructCompound(Functor(tag, 1)));
    assert(code[ip + 4] == Instruction2::Call);
    assert(exec_local(f0.jump((ip + 1) as usize), code[ip as int]) == Ok::<FrameView, Error>(f1));
    lemma_local(f0, f1, m);
    assert(exec_local(f1.jump((ip + 2) as usize), code[ip + 1]) == Ok::<FrameView, Error>(f2));
    lemma_local(f1, f2, m);
    assert(exec_local(f2.jump((ip + 3) as usize), code[ip + 2]) == Ok::<FrameView, Error>(f3)) by {
        assert(n.wrapping_sub(d) == n - d);
        assert(f2.jump((ip + 3) as usize).pop().pop().push(y).stack =~= stack.push(y));
    }
    lemma_local(f2, f3, m);
    assert(exec_local(f3.jump((ip + 4) as usize), code[ip + 3]) == Ok::<FrameView, Error>(f4)) by {
        let full = stack.push(y);
        assert(full.subrange(full.len() - 1, full.len() as int) =~= seq![y]);
        assert(full.subrange(0, full.len() - 1) =~= stack);
    }
    lemma_local(f3, f4, m);
    let after = State::Running(seq![f5, entered]);
    assert(update(State::Running(seq![f4]), m, Term::Bool(false)) == after) by {
        assert(seq![f4].last() == f4);
        let f = f4.jump((ip + 5) as usize);
        assert(f.pop().stack =~= stack);
        assert(f.stack.last() == callee);
        assert(seq![Term::Integer((n - d) as i64)].len() == 1);
        assert(seq![f4].drop_last().push(f.pop()).push(entered) =~= seq![f5, entered]);
    }
    assert(leads(after, m, 0, after, 1));
    lemma_leads_step(State::Running(seq![f4]), m, 0, after, 1);
    lemma_leads_step(State::Running(seq![f3]), m, 1, after, 1);
    lemma_leads_step(State::Running(seq![f2]), m, 2, after, 1);
    lemma_leads_step(State::Running(seq![f1]), m, 3, after, 1);
    lemma_leads_step(State::Running(seq![f0]), m, 4, after, 1);
}

/// The number of frames that `fib(n)` grows to.
pub open spec fn fib_depth(n: int) -> nat {
    if n < 2 {
        1
    } else {
        n as nat
    }
}

/// The procedure `fib` comes to an end on every argument: a call of
/// `fib(n)` runs for `fib_steps(n)` steps and ends with `fib_value(n)`,
/// the one slot of its frame holding `n`. It calls itself on smaller
/// arguments only, every such call returns to it, and the machine never
/// has more than `fib_depth(n)` frames.
pub proof fn law_fib_ends(m: ModuleView, tag: Intern, n: i64)
    requires
        holds_fib(m, tag),
    ensures
        leads(
            call(Seq::empty(), m, fib_call(tag, n), Term::Bool(false)),
            m,
            fib_steps(n as int),
            State::Succeeded(Term::Integer(fib_value(n as int)), seq![Some(Term::Integer(n))]),
            fib_depth(n as int),
        ),
    decreases n,
{
    let code = fib_code(tag);
    let vars = seq![Some(Term::Integer(n))];
    let start = State::Running(seq![FrameView::enter(code, 1, fib_call(tag, n))]);
    assert(seq![Term::Integer(n)].len() == 1);
    assert(call(Seq::empty(), m, fib_call(tag, n), Term::Bool(false)) == start) by {
        assert(Seq::<FrameView>::empty().push(FrameView::enter(code, 1, fib_call(tag, n)))
            =~= seq![FrameView::enter(code, 1, fib_call(tag, n))]);
    }
    lemma_fib_head(m, tag, n);
    if n < 2 {
        let f6 = fib_frame(tag, n, 6, Seq::empty());
        let f7 = fib_frame(tag, n, 7, seq![Term::Integer(1)]);
        let end = State::Succeeded(Term::Integer(1), vars);
        assert(exec_local(f6.jump(7), code[6]) == Ok::<FrameView, Error>(f7)) by {
            assert(f6.jump(7).push(Term::Integer(1)).stack =~= seq![Term::Integer(1)]);
        }
        lemma_local(f6, f7, m);
        assert(update(State::Running(seq![f7]), m, Term::Bool(false)) == end) by {
            assert(seq![f7].last() == f7);
            assert(seq![f7].drop_last() =~= Seq::<FrameView>::empty());
        }
        assert(leads(end, m, 0, end, 1));
        lemma_leads_step(State::Running(seq![f7]), m, 0, end, 1);
        lemma_leads_step(State::Running(seq![f6]), m, 1, end, 1);
        lemma_leads_on(start, m, 6, State::Running(seq![f6]), 2, end, 1);
    } else {
        let a = (n - 1) as i64;
        let b = (n - 2) as i64;
        let va = Term::Integer(fib_value(a as int));
        let vb = Term::Integer(fib_value(b as int));
        let sum = Term::Integer(fib_value(n as int));
        let f8 = fib_frame(tag, n, 8, Seq::empty());
        let f13 = fib_frame(tag, n, 13, Seq::empty());
        let f13v = fib_frame(tag, n, 13, seq![va]);
        let f18 = fib_frame(tag, n, 18, seq![va]);
        let f18v = fib_frame(tag, n, 18, seq![va, vb]);
        let f19 = fib_frame(tag, n, 19, seq![sum]);
        let end = State::Succeeded(sum, vars);
        let ea = FrameView::enter(code, 1, fib_call(tag, a));
        let eb = FrameView::enter(code, 1, fib_call(tag, b));

        lemma_fib_calls(m, tag, n, 8, 1, Seq::empty());
        law_fib_ends(m, tag, a);
        assert(call(Seq::empty(), m, fib_call(tag, a), Term::Bool(false)) == State::Running(
            seq![ea],
        )) by {
            assert(seq![Term::Integer(a)].len() == 1);
            assert(Seq::<FrameView>::empty().push(ea) =~= seq![ea]);
        }
        law_call_returns(
            seq![f13],
            seq![ea],
            m,
            fib_steps(a as int),
            va,
            seq![Some(Term::Integer(a))],
            fib_depth(a as int),
        );
        assert(seq![f13] + seq![ea] =~= seq![f13, ea]);
        assert(seq![f13].drop_last().push(seq![f13].last().push(va)) =~= seq![f13v]) by {
            assert(f13.push(va).stack =~= seq![va]);
        }

        lemma_fib_calls(m, tag, n, 13, 2, seq![va]);
        law_fib_ends(m, tag, b);
        assert(call(Seq::empty(), m, fib_call(tag, b), Term::Bool(false)) == State::Running(
            seq![eb],
        )) by {
            assert(seq![Term::Integer(b)].len() == 1);
            assert(Seq::<FrameView>::empty().push(eb) =~= seq![eb]);
        }
        law_call_returns(
            seq![f18],
            seq![eb],
            m,
            fib_steps(b as int),
            vb,
            seq![Some(Term::Integer(b))],
            fib_depth(b as int),
        );
        assert(seq![f18] + seq![eb] =~= seq![f18, eb]);
        assert(seq![f18].drop_last().push(seq![f18].last().push(vb)) =~= seq![f18v]) by {
            assert(f18.push(vb).stack =~= seq![va, vb]);
        }

        assert(exec_local(f18v.jump(19), code[18]) == Ok::<FrameView, Error>(f19)) by {
            assert(f18v.jump(19).pop().pop().push(sum).stack =~= seq![sum]);
        }
        lemma_local(f18v, f19, m);
        assert(update(State::Running(seq![f19]), m, Term::Bool(false)) == end) by {
            assert(seq![f19].last() == f19);
            assert(seq![f19].drop_last() =~= Seq::<FrameView>::empty());
        }
        let d = fib_depth(n as int);
        let ta = fib_steps(a as int);
        let tb = fib_steps(b as int);
        let s8 = State::Running(seq![f8]);
        let sa = State::Running(seq![f13, ea]);
        let s13 = State::Running(seq![f13v]);
        let sb = State::Running(seq![f18, eb]);
        let s18 = State::Running(seq![f18v]);
        assert(leads(end, m, 0, end, d));
        lemma_leads_step(State::Running(seq![f19]), m, 0, end, d);
        lemma_leads_step(s18, m, 1, end, d);
        lemma_leads_deeper(sb, m, tb, s18, 1 + fib_depth(b as int), d);
        lemma_leads_on(sb, m, tb, s18, 2, end, d);
        lemma_leads_deeper(s13, m, 5, sb, 1, d);
        lemma_leads_on(s13, m, 5, sb, tb + 2, end, d);
        lemma_leads_deeper(sa, m, ta, s13, 1 + fib_depth(a as int), d);
        lemma_leads_on(sa, m, ta, s13, 5 + tb + 2, end, d);
        lemma_leads_deeper(s8, m, 5, sa, 1, d);
        lemma_leads_on(s8, m, 5, sa, ta + 5 + tb + 2, end, d);
        lemma_leads_deeper(start, m, 6, s8, 1, d);
        lemma_leads_on(start, m, 6, s8, 5 + ta + 5 + tb + 2, end, d);
    }
}

/// The expression is the variable `name`.
pub open spec fn is_var(e: Expression, name: Seq<char>) -> bool {
    e matches Expression::Variable(v) && v@ == name
}

/// The expression is `@name op k`.
pub open spec fn is_step(e: Expression, name: Seq<char>, op: BinOp, k: i64) -> bool {
    e matches Expression::Binary(l, o, r) && o == op && is_var(*l, name) && *r
        == Expression::IntLiteral(k)
}

/// The expression is the call `f(@name - k)`.
pub open spec fn is_call_below(e: Expression, f: Seq<char>, name: Seq<char>, k: i64) -> bool {
    e matches Expression::Call(c) && *c matches Expression::Compound(g, es) && g@ == f
        && es@.len() == 1 && is_step(es@[0], name, BinOp::Subtract, k)
}

/// The procedure is
/// `fn f(@n) { if @n < 2 { ret 1. } ret f(@n - 1) + f(@n - 2). }`,
/// whatever it and its variable are called.
pub open spec fn is_fib(p: Procedure) -> bool {
    &&& p.args@.len() == 1
    &&& p.args@[0] matches Pattern::Variable(v)
    &&& p.body.0@.len() == 2
    &&& p.body.0@[0] matches Statement::If(Condition::Bare(c), then, None)
    &&& is_step(c, v@, BinOp::Lt, 2)
    &&& then.0@.len() == 1
    &&& then.0@[0] == Statement::Ret(Expression::IntLiteral(1))
    &&& p.body.0@[1] matches Statement::Ret(Expression::Binary(l, BinOp::Add, r))
    &&& is_call_below(*l, p.name@, v@, 1)
    &&& is_call_below(*r, p.name@, v@, 2)
}

/// A variable that has the first slot is read from it.
proof fn lemma_lower_var(e: Expression, s: Lowering, name: Seq<char>)
    requires
        is_var(e, name),
        s.script.locals == seq![name],
    ensures
        e.lowered(s) == s.emit(Instruction1::Get(Local(0))),
{
    let table = s.script.table();
    assert(table.names[0] == name);
    table.lemma_lookup_at(0);
    assert(s.script.with_local(name) == s.script);
}

/// `@name op k` reads the slot, pushes `k`, and applies the operator.
proof fn lemma_lower_step(e: Expression, s: Lowering, name: Seq<char>, op: BinOp, k: i64)
    requires
        is_step(e, name, op, k),
        s.script.locals == seq![name],
    ensures
        e.lowered(s) == s.emit(Instruction1::Get(Local(0))).emit(
            Instruction1::Push(Operand::Integer(k)),
        ).emit(op.instruction()),
{
    let l = *e->Binary_0;
    let r = *e->Binary_2;
    lemma_lower_var(l, s, name);
    let s1 = s.emit(Instruction1::Get(Local(0)));
    assert(r.lowered(s1) == s1.emit(Instruction1::Push(Operand::Integer(k))));
}

/// The call `f(@name - k)` builds the compound of one argument and calls it.
proof fn lemma_lower_call(e: Expression, s: Lowering, f: Seq<char>, name: Seq<char>, k: i64)
    requires
        is_call_below(e, f, name, k),
        s.script.locals == seq![name],
        s.table.names.contains(f),
    ensures
        e.lowered(s) == s.emit(Instruction1::Get(Local(0))).emit(
            Instruction1::Push(Operand::Integer(k)),
        ).emit(Instruction1::Subtract).emit(
            Instruction1::ConstructCompound(Functor(s.table.id_of(f), 1)),
        ).emit(Instruction1::Call),
{
    let c = *e->Call_0;
    let es = c->Compound_1@;
    lemma_lower_step(es[0], s, name, BinOp::Subtract, k);
    let s3 = es[0].lowered(s);
    assert(Expression::lowered_all(es, 0, s) == s);
    assert(Expression::lowered_all(es, 1, s) == s3);
    assert(s3.table == s.table);
    assert(s3.intern(f) == s3);
    assert(c.lowered(s) == s3.emit(
        Instruction1::ConstructCompound(Functor(s.table.id_of(f), 1)),
    ));
    assert(e.lowered(s) == c.lowered(s).emit(Instruction1::Call));
}

/// A script whose instructions resolve to those of `code`, one for one,
/// resolves to `code`.
proof fn lemma_resolves_to(sc: Script, n: int, code: Seq<Instruction2>)
    requires
        0 <= n <= sc.code.len(),
        n <= code.len(),
        forall|i: int|
            0 <= i < n ==> (#[trigger] sc.code[i]).resolved(sc.anchors) == Ok::<
                Instruction2,
                crate::errors::compiler::Error,
            >(code[i]),
    ensures
        sc.resolved(n) == Ok::<Seq<Instruction2>, crate::errors::compiler::Error>(
            code.subrange(0, n),
        ),
    decreases n,
{
    if n > 0 {
        lemma_resolves_to(sc, n - 1, code);
        assert(code.subrange(0, n - 1).push(code[n - 1]) =~= code.subrange(0, n));
    } else {
        assert(code.subrange(0, 0) =~= Seq::<Instruction2>::empty());
    }
}

/// The procedure `fib` compiles to `fib_code`, with one slot, under the
/// functor that its name and its one argument make.
pub proof fn law_fib_code(p: Procedure, t: InternTable)
    requires
        is_fib(p),
        t.wf(),
    ensures
        p.compiled(t) matches Ok(c) && c.code == fib_code(p.functor(t).0) && c.vars == 1
            && c.functor == p.functor(t),
{
    let name = p.name@;
    let v = p.args@[0]->Variable_0@;
    let tag = t.id_of(name);
    let f = Functor(tag, 1);
    assert(p.functor(t) == f);
    t.lemma_intern_keeps(name);
    let t0 = t.intern(name);
    assert(t0.id_of(name) == tag);

    let s0 = Lowering { table: t0, script: Script::empty(f) };
    let s1 = s0.emit(Instruction1::Destruct(1));
    assert(Pattern::lowered_all(p.args@, 0, s1) == s1);
    let s2 = s1.local(v).emit(Instruction1::SetAssert(Local(0)));
    assert(p.args@[0].lowered(s1) == s2);
    assert(Pattern::lowered_all(p.args@, 1, s1) == s2);
    assert(s2.script.locals =~= seq![v]);

    let first = p.body.0@[0];
    let cond = first->If_0->Bare_0;
    let then = first->If_1.0@;
    let s3 = s2.label().label().label();
    lemma_lower_step(cond, s3, v, BinOp::Lt, 2);
    let s4 = s3.emit(Instruction1::Get(Local(0))).emit(
        Instruction1::Push(Operand::Integer(2)),
    ).emit(Instruction1::Lt).emit(Instruction1::JumpNo(Label(1)));
    assert(first->If_0.lowered(s3, Label(1)) == s4);
    let a = s4.anchor(0);
    assert(a.error is None);
    let s5 = a.state;
    let s6 = s5.emit(Instruction1::Push(Operand::Integer(1))).emit(Instruction1::Ret);
    assert(Statement::lowered_all(then, 0, s5) == s5.fine());
    assert(then[0].lowered(s5) == s6.fine());
    assert(Statement::lowered_all(then, 1, s5) == s6.fine());
    let j = s6.anchor(1);
    assert(j.error is None);
    let d = j.state.anchor(2);
    assert(d.error is None);
    let s8 = d.state;
    assert(first.lowered(s2) == s8.fine());
    assert(Statement::lowered_all(p.body.0@, 0, s2) == s2.fine());
    assert(Statement::lowered_all(p.body.0@, 1, s2) == s8.fine());

    let second = p.body.0@[1];
    let sum = second->Ret_0;
    let l = *sum->Binary_0;
    let r = *sum->Binary_2;
    assert(s8.script.locals == seq![v]);
    assert(s8.table == t0);
    lemma_lower_call(l, s8, name, v, 1);
    let s9 = l.lowered(s8);
    assert(s9.script.locals == seq![v]);
    assert(s9.table == t0);
    lemma_lower_call(r, s9, name, v, 2);
    let s10 = r.lowered(s9);
    let s11 = s10.emit(Instruction1::Add);
    assert(sum.lowered(s8) == s11);
    let s12 = s11.emit(Instruction1::Ret);
    assert(second.lowered(s8) == s12.fine());
    assert(Statement::lowered_all(p.body.0@, 2, s2) == s12.fine());
    assert(p.lowered(t) == s12.fine());

    let sc = s12.script;
    let code = fib_code(tag);
    assert(sc.code.len() == 20);
    assert(sc.anchors.contains_key(1) && sc.anchors[1] == 8);
    assert(sc.code[0] == Instruction1::Destruct(1));
    assert(sc.code[1] == Instruction1::SetAssert(Local(0)));
    assert(sc.code[2] == Instruction1::Get(Local(0)));
    assert(sc.code[3] == Instruction1::Push(Operand::Integer(2)));
    assert(sc.code[4] == Instruction1::Lt);
    assert(sc.code[5] == Instruction1::JumpNo(Label(1)));
    assert(sc.code[6] == Instruction1::Push(Operand::Integer(1)));
    assert(sc.code[7] == Instruction1::Ret);
    assert(sc.code[8] == Instruction1::Get(Local(0)));
    assert(sc.code[9] == Instruction1::Push(Operand::Integer(1)));
    assert(sc.code[10] == Instruction1::Subtract);
    assert(sc.code[11] == Instruction1::ConstructCompound(f));
    assert(sc.code[12] == Instruction1::Call);
    assert(sc.code[13] == Instruction1::Get(Local(0)));
    assert(sc.code[14] == Instruction1::Push(Operand::Integer(2)));
    assert(sc.code[15] == Instruction1::Subtract);
    assert(sc.code[16] == Instruction1::ConstructCompound(f));
    assert(sc.code[17] == Instruction1::Call);
    assert(sc.code[18] == Instruction1::Add);
    assert(sc.code[19] == Instruction1::Ret);
    lemma_resolves_to(sc, 20, code);
    assert(code.subrange(0, 20) =~= code);
    assert(sc.locals.len() == 1);
}

/// Recursion ends: the procedure `fib`, compiled and called with any
/// integer `n`, runs for `fib_steps(n)` steps on `fib_depth(n)` frames at
/// most, and ends with `fib_value(n)`.
pub proof fn law_recursion_ends(p: Procedure, t: InternTable, m: ModuleView, n: i64)
    requires
        is_fib(p),
        t.wf(),
        p.compiled(t) matches Ok(c) && m.contains_key(c.functor) && m[c.functor]
            == (ProcView::Dynamic { functor: c.functor, code: c.code, vars: c.vars }),
    ensures
        leads(
            call(Seq::empty(), m, fib_call(p.functor(t).0, n), Term::Bool(false)),
            m,
            fib_steps(n as int),
            State::Succeeded(Term::Integer(fib_value(n as int)), seq![Some(Term::Integer(n))]),
            fib_depth(n as int),
        ),
{
    law_fib_code(p, t);
    law_fib_ends(m, p.functor(t).0, n);
}

} // verus!
