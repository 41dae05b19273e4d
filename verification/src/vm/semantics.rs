//! What a step of the machine means, over mathematical values.
//!
//! The machine is a stack of frames. A step reads the instruction at the top
//! frame's instruction pointer and yields the next state: running on, ended
//! with a value, or failed with one kind of error.

use vstd::prelude::*;
use crate::errors::runtime::Error;
use crate::interns::Intern;
use crate::irs::instruction2::Instruction2;
use crate::primitive::{Functor, Term};
use crate::vm::order::set_of;

verus! {

/// A frame: the code it runs, where it stands, its slots and its operands.
pub struct FrameView {
    pub code: Seq<Instruction2>,
    pub ip: usize,
    pub vars: Seq<Option<Term>>,
    pub stack: Seq<Term>,
}

/// A procedure of a module, as a call sees it.
pub enum ProcView {
    Native,
    Dynamic { functor: Functor<Intern>, code: Seq<Instruction2>, vars: usize },
}

/// A module: the procedures by their functors.
pub type ModuleView = Map<Functor<Intern>, ProcView>;

/// A state of the machine.
pub enum State {
    Updating,
    Running(Seq<FrameView>),
    Succeeded(Term, Seq<Option<Term>>),
    Failed(Error),
}

/// How a match of a value against a marked region ends.
pub enum Match {
    /// The value matches; these are the slots afterwards.
    Bound(Seq<Option<Term>>),
    /// The value does not match.
    Mismatch,
    /// The region takes more values than the value has parts, or fewer.
    Unbalanced,
}

impl FrameView {
    /// The frame with `t` on top of its operands.
    pub open spec fn push(self, t: Term) -> FrameView {
        FrameView { stack: self.stack.push(t), ..self }
    }

    /// The frame without its top operand.
    pub open spec fn pop(self) -> FrameView {
        FrameView { stack: self.stack.drop_last(), ..self }
    }

    /// The frame with slot `l` bound to `t`.
    pub open spec fn bind(self, l: usize, t: Term) -> FrameView {
        FrameView { vars: self.vars.update(l as int, Some(t)), ..self }
    }

    /// The frame continuing at `ip`.
    pub open spec fn jump(self, ip: usize) -> FrameView {
        FrameView { ip, ..self }
    }

    /// A fresh frame for `code` with `vars` unbound slots and one operand.
    pub open spec fn enter(code: Seq<Instruction2>, vars: usize, argument: Term) -> FrameView {
        FrameView {
            code,
            ip: 0,
            vars: Seq::new(vars as nat, |i: int| None::<Term>),
            stack: seq![argument],
        }
    }
}

/// The quotient of two integers, rounded towards zero; the one quotient that
/// does not fit wraps around.
pub open spec fn quotient(l: i64, r: i64) -> i64 {
    match l.checked_div(r) {
        Some(q) => q,
        None => i64::MIN,
    }
}

/// The parts that a destructure instruction takes `t` apart into, if `t` has
/// the shape that the instruction asks for.
pub open spec fn parts_for(i: Instruction2, t: Term) -> Option<Seq<Term>> {
    match i {
        Instruction2::DestructCompound(f) => match t {
            Term::Compound(tag, args) => if tag == f.0 && args.len() == f.1 {
                Some(args)
            } else {
                None
            },
            _ => None,
        },
        Instruction2::DestructVector(n) => match t {
            Term::Vector(args) => if args.len() == n {
                Some(args)
            } else {
                None
            },
            _ => None,
        },
        Instruction2::Destruct(n) => match t {
            Term::Compound(_, args) => if args.len() == n {
                Some(args)
            } else {
                None
            },
            Term::Vector(args) => if args.len() == n {
                Some(args)
            } else {
                None
            },
            _ => None,
        },
        _ => None,
    }
}

/// The value that a construct instruction makes of `parts`.
pub open spec fn built(i: Instruction2, parts: Seq<Term>) -> Term {
    match i {
        Instruction2::ConstructCompound(f) => Term::Compound(f.0, parts),
        Instruction2::ConstructVector(_) => Term::Vector(parts),
        _ => Term::SetOf(set_of(parts)),
    }
}

/// The number of operands that a construct instruction takes.
pub open spec fn arity(i: Instruction2) -> usize {
    match i {
        Instruction2::ConstructCompound(f) => f.1,
        Instruction2::ConstructVector(n) => n,
        Instruction2::ConstructSet(n) => n,
        _ => 0,
    }
}

/// The result of an arithmetic or ordering instruction on the left operand
/// `l` and the right operand `r`.
pub open spec fn binary(i: Instruction2, l: i64, r: i64) -> Result<Term, Error> {
    match i {
        Instruction2::Mul => Ok(Term::Integer(l.wrapping_mul(r))),
        Instruction2::Div => if r == 0 {
            Err(Error::DivisionByZero)
        } else {
            Ok(Term::Integer(quotient(l, r)))
        },
        Instruction2::Add => Ok(Term::Integer(l.wrapping_add(r))),
        Instruction2::Subtract => Ok(Term::Integer(l.wrapping_sub(r))),
        Instruction2::Le => Ok(Term::Bool(l <= r)),
        Instruction2::Ge => Ok(Term::Bool(l >= r)),
        Instruction2::Lt => Ok(Term::Bool(l < r)),
        Instruction2::Gt => Ok(Term::Bool(l > r)),
        Instruction2::Eq => Ok(Term::Bool(l == r)),
        _ => Ok(Term::Bool(l != r)),
    }
}

/// An arithmetic or ordering instruction on a frame: the right operand is on
/// top, the left one below it, and both must be integers.
pub open spec fn exec_binary(f: FrameView, i: Instruction2) -> Result<FrameView, Error> {
    let n = f.stack.len() as int;
    if n < 2 {
        Err(Error::NoMoreValues)
    } else {
        match (f.stack[n - 2], f.stack[n - 1]) {
            (Term::Integer(l), Term::Integer(r)) => match binary(i, l, r) {
                Ok(t) => Ok(f.pop().pop().push(t)),
                Err(e) => Err(e),
            },
            _ => Err(Error::NotNumbers),
        }
    }
}

/// The address of the `Unmark` that ends the region starting at `ip`, if
/// only pattern instructions stand before it. A second `Mark` before the
/// `Unmark` is one kind of error, any other instruction another.
pub open spec fn region_end(code: Seq<Instruction2>, ip: int) -> Result<int, Error>
    decreases code.len() - ip,
{
    if ip < 0 || ip >= code.len() {
        Err(Error::OutOfCode)
    } else if code[ip] == Instruction2::Unmark {
        Ok(ip)
    } else if code[ip].is_pattern() {
        region_end(code, ip + 1)
    } else if code[ip] is Mark {
        Err(Error::CantMarkTwice)
    } else {
        Err(Error::MarkInvalidInstruction)
    }
}

/// The match of the values `stack`, the top one first, against the pattern
/// instructions from `ip` up to `end`, with the slots `vars`.
///
/// A bind-or-check binds an unbound slot and compares a bound one, whether
/// it was bound before the region or by an earlier instruction of it. At
/// the end of the region no value may be left.
pub open spec fn unify(
    code: Seq<Instruction2>,
    ip: int,
    end: int,
    stack: Seq<Term>,
    vars: Seq<Option<Term>>,
) -> Match
    decreases end - ip,
{
    if ip >= end {
        if stack.len() == 0 {
            Match::Bound(vars)
        } else {
            Match::Unbalanced
        }
    } else if stack.len() == 0 {
        Match::Unbalanced
    } else {
        let top = stack.last();
        let rest = stack.drop_last();
        match code[ip] {
            Instruction2::SetAssert(l) => match vars[l.0 as int] {
                None => unify(code, ip + 1, end, rest, vars.update(l.0 as int, Some(top))),
                Some(x) => if x == top {
                    unify(code, ip + 1, end, rest, vars)
                } else {
                    Match::Mismatch
                },
            },
            Instruction2::EqualsOperandAssert(op) => if top == op.term() {
                unify(code, ip + 1, end, rest, vars)
            } else {
                Match::Mismatch
            },
            i => match parts_for(i, top) {
                Some(parts) => unify(code, ip + 1, end, rest + parts.reverse(), vars),
                None => Match::Mismatch,
            },
        }
    }
}

/// A marked match on a frame that stands behind the `Mark` and has given up
/// the value: on a match the slots are bound and the frame continues behind
/// the `Unmark`; on a mismatch nothing is bound, the frame continues at
/// `else_ip`, and the value is back on the stack if `keep` is set.
pub open spec fn destructure(f: FrameView, else_ip: usize, keep: bool, value: Term) -> Result<
    FrameView,
    Error,
> {
    match region_end(f.code, f.ip as int) {
        Err(e) => Err(e),
        Ok(end) => match unify(f.code, f.ip as int, end, seq![value], f.vars) {
            Match::Bound(vars) => Ok(FrameView { ip: (end + 1) as usize, vars, ..f }),
            Match::Mismatch => Ok(
                if keep {
                    f.jump(else_ip).push(value)
                } else {
                    f.jump(else_ip)
                },
            ),
            Match::Unbalanced => Err(Error::UnmarkWrongStackSize),
        },
    }
}

/// An instruction that needs the top operand: what it makes of the frame `f`
/// without that operand, and of the operand `top`.
pub open spec fn exec_unary(f: FrameView, i: Instruction2, top: Term) -> Result<FrameView, Error> {
    match i {
        Instruction2::SetVar(l) => Ok(f.bind(l.0, top)),
        Instruction2::SetAssert(l) => match f.vars[l.0 as int] {
            None => Ok(f.bind(l.0, top)),
            Some(x) => if x == top {
                Ok(f)
            } else {
                Err(Error::SetAssertFailed)
            },
        },
        Instruction2::Assert => match top {
            Term::Bool(true) => Ok(f),
            Term::Bool(false) => Err(Error::AssertionFailed),
            _ => Err(Error::ConditionalWrongType),
        },
        Instruction2::JumpNo(ip) => match top {
            Term::Bool(true) => Ok(f),
            Term::Bool(false) => Ok(f.jump(ip.0)),
            _ => Err(Error::ConditionalWrongType),
        },
        Instruction2::Pop => Ok(f),
        Instruction2::Mark(ip, keep) => destructure(f, ip.0, keep, top),
        Instruction2::EqualsOperandAssert(op) => if top == op.term() {
            Ok(f)
        } else {
            Err(Error::AssertionFailed)
        },
        i => match parts_for(i, top) {
            Some(parts) => Ok(FrameView { stack: f.stack + parts.reverse(), ..f }),
            None => Err(Error::DestructWrongType),
        },
    }
}

/// Whether the instruction starts by popping one operand.
pub open spec fn is_unary(i: Instruction2) -> bool {
    match i {
        Instruction2::SetVar(_) => true,
        Instruction2::SetAssert(_) => true,
        Instruction2::Assert => true,
        Instruction2::JumpNo(_) => true,
        Instruction2::Pop => true,
        Instruction2::Mark(_, _) => true,
        Instruction2::EqualsOperandAssert(_) => true,
        Instruction2::DestructCompound(_) => true,
        Instruction2::DestructVector(_) => true,
        Instruction2::Destruct(_) => true,
        _ => false,
    }
}

/// Whether the instruction is an arithmetic or ordering instruction.
pub open spec fn is_binary(i: Instruction2) -> bool {
    match i {
        Instruction2::Mul => true,
        Instruction2::Div => true,
        Instruction2::Add => true,
        Instruction2::Subtract => true,
        Instruction2::Le => true,
        Instruction2::Ge => true,
        Instruction2::Lt => true,
        Instruction2::Gt => true,
        Instruction2::Eq => true,
        Instruction2::Ne => true,
        _ => false,
    }
}

/// What an instruction other than `Ret` and `Call` makes of the frame that
/// has fetched it.
pub open spec fn exec_local(f: FrameView, i: Instruction2) -> Result<FrameView, Error> {
    if is_unary(i) {
        if f.stack.len() == 0 {
            Err(Error::NoMoreValues)
        } else {
            exec_unary(f.pop(), i, f.stack.last())
        }
    } else if is_binary(i) {
        exec_binary(f, i)
    } else {
        match i {
            Instruction2::Push(op) => Ok(f.push(op.term())),
            Instruction2::Get(l) => match f.vars[l.0 as int] {
                None => Err(Error::GetUnset),
                Some(x) => Ok(f.push(x)),
            },
            Instruction2::Jump(ip) => Ok(f.jump(ip.0)),
            Instruction2::Unmark => Err(Error::UnmarkMustBeMarked),
            Instruction2::Equals => if f.stack.len() < 2 {
                Err(Error::NoMoreValues)
            } else {
                Ok(
                    f.pop().pop().push(
                        Term::Bool(f.stack[f.stack.len() - 1] == f.stack[f.stack.len() - 2]),
                    ),
                )
            },
            i => if f.stack.len() < arity(i) {
                Err(Error::NoMoreValues)
            } else {
                let keep = f.stack.len() - arity(i);
                Ok(
                    FrameView {
                        stack: f.stack.subrange(0, keep).push(
                            built(i, f.stack.subrange(keep, f.stack.len() as int)),
                        ),
                        ..f
                    },
                )
            },
        }
    }
}

/// A call of `callee` on the frames `frames`: a dynamic procedure gets a new
/// frame with the callee as its one operand; a native procedure runs at once,
/// and its result `native` goes on top of the calling frame.
pub open spec fn call(frames: Seq<FrameView>, module: ModuleView, callee: Term, native: Term) -> State {
    match callee {
        Term::Compound(tag, args) => {
            let functor = Functor(tag, args.len() as usize);
            if !module.contains_key(functor) {
                State::Failed(Error::NoSuchProcedure)
            } else {
                match module[functor] {
                    ProcView::Dynamic { functor: _, code, vars } => State::Running(
                        frames.push(FrameView::enter(code, vars, callee)),
                    ),
                    ProcView::Native => if frames.len() == 0 {
                        State::Failed(Error::NoMoreFrames)
                    } else {
                        State::Running(frames.drop_last().push(frames.last().push(native)))
                    },
                }
            }
        },
        _ => State::Failed(Error::CallNotCompound),
    }
}

/// One step of a running machine. `native` is what a native procedure
/// returns, should the step call one.
pub open spec fn step(frames: Seq<FrameView>, module: ModuleView, native: Term) -> State {
    if frames.len() == 0 {
        State::Failed(Error::NoMoreFrames)
    } else {
        let top = frames.last();
        let below = frames.drop_last();
        if top.ip >= top.code.len() {
            State::Failed(Error::OutOfCode)
        } else {
            let f = top.jump((top.ip + 1) as usize);
            match top.code[top.ip as int] {
                Instruction2::Ret => if f.stack.len() == 0 {
                    State::Failed(Error::NoMoreValues)
                } else if below.len() == 0 {
                    State::Succeeded(f.stack.last(), f.vars)
                } else {
                    State::Running(below.drop_last().push(below.last().push(f.stack.last())))
                },
                Instruction2::Call => if f.stack.len() == 0 {
                    State::Failed(Error::NoMoreValues)
                } else {
                    call(below.push(f.pop()), module, f.stack.last(), native)
                },
                i => match exec_local(f, i) {
                    Ok(g) => State::Running(below.push(g)),
                    Err(e) => State::Failed(e),
                },
            }
        }
    }
}

/// The operand on top of the top frame of a running machine: the place where
/// the result of a native procedure goes.
pub open spec fn pushed(s: State) -> Term {
    match s {
        State::Running(frames) => if frames.len() > 0 && frames.last().stack.len() > 0 {
            frames.last().stack.last()
        } else {
            Term::Bool(false)
        },
        _ => Term::Bool(false),
    }
}

/// The state that an update makes of a state: a running machine takes a
/// step, an ended one stays as it is.
pub open spec fn update(s: State, module: ModuleView, native: Term) -> State {
    match s {
        State::Updating => State::Failed(Error::UpdatedWhileUpdating),
        State::Running(frames) => step(frames, module, native),
        other => other,
    }
}

} // verus!
