//! One frame of the machine: an activation of a procedure.

use vstd::prelude::*;
use crate::bump::Bump;
use crate::errors::runtime::{Error, Runtime};
use crate::irs::instruction2::Instruction2;
use crate::irs::procedure2::Procedure2;
use crate::primitive::{Operand, Term, Value};
use crate::satc::Satc;
use crate::vm::bvalue::{BValue, SBV};
use crate::vm::order::make_set;
use crate::vm::semantics::{
    binary, built, destructure, exec_binary, exec_local, exec_unary, is_binary, is_unary,
    parts_for, region_end, unify, FrameView, Match,
};

verus! {

/// A frame: the procedure it runs, the instruction pointer, the local slots
/// and the operand stack.
pub struct StackFrame<'code> {
    /// The code.
    pub c: &'code Procedure2,
    pub ip: usize,
    /// The local slots, bound or not.
    pub v: Vec<Option<SBV>>,
    /// The operand stack.
    pub s: Vec<SBV>,
}

/// Two integer operands, the left one first.
pub enum Num2 {
    Integer(i64, i64),
}

impl<'code> StackFrame<'code> {
    /// The values of the slots.
    pub open spec fn vars(&self, bump: &Bump) -> Seq<Option<Term>> {
        Seq::new(
            self.v@.len(),
            |i: int|
                match self.v@[i] {
                    Some(h) => Some(h.term(bump)),
                    None => None,
                },
        )
    }

    /// The values of the operands, the top one last.
    pub open spec fn stack(&self, bump: &Bump) -> Seq<Term> {
        Seq::new(self.s@.len(), |i: int| self.s@[i].term(bump))
    }

    /// The frame over mathematical values.
    pub open spec fn view(&self, bump: &Bump) -> FrameView {
        FrameView {
            code: self.c.instructions@,
            ip: self.ip,
            vars: self.vars(bump),
            stack: self.stack(bump),
        }
    }

    /// The slot `l` and the top operand hold one handle, and that handle
    /// points into the arena: neither owns the value.
    pub open spec fn shares(&self, l: int) -> bool {
        &&& 0 <= l < self.v@.len()
        &&& self.s@.len() > 0
        &&& self.v@[l] == Some(self.s@.last())
        &&& self.s@.last() is Borrowed
    }

    /// The procedure is well formed, the frame has its slots, and every
    /// handle of the frame is good in `bump`.
    pub open spec fn wf(&self, bump: &Bump) -> bool {
        &&& self.c.wf()
        &&& self.v@.len() == self.c.vars
        &&& forall|i: int|
            0 <= i < self.v@.len() ==> match #[trigger] self.v@[i] {
                Some(h) => h.wf(bump),
                None => true,
            }
        &&& forall|i: int| 0 <= i < self.s@.len() ==> (#[trigger] self.s@[i]).wf(bump)
    }

    /// A frame stays what it is while the arena grows.
    pub proof fn lemma_stable(&self, before: &Bump, after: &Bump)
        requires
            self.wf(before),
            after.extends(before),
        ensures
            self.wf(after),
            self.view(after) == self.view(before),
    {
        assert forall|i: int| 0 <= i < self.s@.len() implies (#[trigger] self.s@[i]).wf(after)
            && self.s@[i].term(after) == self.s@[i].term(before) by {
            self.s@[i].lemma_stable(before, after);
        }
        assert forall|i: int| 0 <= i < self.v@.len() implies match #[trigger] self.v@[i] {
            Some(h) => h.wf(after) && h.term(after) == h.term(before),
            None => true,
        } by {
            match self.v@[i] {
                Some(h) => {
                    h.lemma_stable(before, after);
                },
                None => {},
            }
        }
        assert(self.vars(after) =~= self.vars(before));
        assert(self.stack(after) =~= self.stack(before));
    }

    /// A frame at the start of `c`, with every slot unbound and no operand.
    pub fn new_on(c: &'code Procedure2) -> (frame: StackFrame<'code>)
        requires
            c.wf(),
        ensures
            frame.c == c,
            frame.ip == 0,
            frame.s@.len() == 0,
            frame.v@.len() == c.vars,
            forall|i: int| 0 <= i < c.vars ==> frame.v@[i] is None,
            forall|bump: &Bump| #[trigger] frame.wf(bump),
    {
        let mut frame = StackFrame { c, ip: 0, v: Vec::with_capacity(c.vars), s: Vec::new() };
        let mut k: usize = 0;
        while k < c.vars
            invariant
                k <= c.vars,
                frame.c == c,
                frame.ip == 0,
                frame.s@.len() == 0,
                frame.v@.len() == k,
                forall|i: int| 0 <= i < k ==> frame.v@[i] is None,
            decreases c.vars - k,
        {
            frame.v.push(None);
            k += 1;
        }
        frame
    }

    /// Puts `v` on top of the operands.
    pub fn push(&mut self, v: SBV)
        ensures
            final(self).c == old(self).c,
            final(self).ip == old(self).ip,
            final(self).v == old(self).v,
            final(self).s@ == old(self).s@.push(v),
    {
        self.s.push(v)
    }

    /// Takes the top operand.
    pub fn pop(&mut self) -> (r: Runtime<SBV>)
        ensures
            final(self).c == old(self).c,
            final(self).ip == old(self).ip,
            final(self).v == old(self).v,
            match r {
                Ok(x) => old(self).s@.len() > 0 && x == old(self).s@.last() && final(self).s@
                    == old(self).s@.drop_last(),
                Err(e) => old(self).s@.len() == 0 && e == Error::NoMoreValues && final(self).s@
                    == old(self).s@,
            },
    {
        match self.s.pop() {
            None => Err(Error::NoMoreValues),
            Some(x) => Ok(x),
        }
    }

    /// Takes the two top operands as integers: the top one is the right
    /// operand, the one below it the left.
    pub fn pop_num2(&mut self, bump: &Bump) -> (r: Runtime<Num2>)
        requires
            old(self).wf(bump),
        ensures
            final(self).c == old(self).c,
            final(self).ip == old(self).ip,
            final(self).v == old(self).v,
            final(self).wf(bump),
            match r {
                Ok(Num2::Integer(l, r)) => {
                    let n = old(self).s@.len() as int;
                    &&& n >= 2
                    &&& old(self).s@[n - 2].term(bump) == Term::Integer(l)
                    &&& old(self).s@[n - 1].term(bump) == Term::Integer(r)
                    &&& final(self).s@ == old(self).s@.subrange(0, n - 2)
                },
                Err(e) => {
                    let n = old(self).s@.len() as int;
                    if n < 2 {
                        e == Error::NoMoreValues
                    } else {
                        &&& e == Error::NotNumbers
                        &&& !(old(self).s@[n - 2].term(bump) is Integer && old(self).s@[n
                            - 1].term(bump) is Integer)
                    }
                },
            },
    {
        match self.s.pop() {
            None => Err(Error::NoMoreValues),
            Some(n1) => match self.s.pop() {
                None => Err(Error::NoMoreValues),
                Some(n2) => {
                    assert(self.s@ =~= old(self).s@.subrange(0, old(self).s@.len() - 2));
                    match (n1.as_immut(bump), n2.as_immut(bump)) {
                        (BValue::Integer(i1), BValue::Integer(i2)) => Ok(
                            Num2::Integer(*i2, *i1),
                        ),
                        _ => Err(Error::NotNumbers),
                    }
                },
            },
        }
    }

    /// The top operand, left where it is.
    pub fn peek(&self) -> (r: Runtime<&SBV>)
        ensures
            match r {
                Ok(x) => self.s@.len() > 0 && *x == self.s@.last(),
                Err(e) => self.s@.len() == 0 && e == Error::NoMoreValues,
            },
    {
        match self.s.len() {
            0 => Err(Error::NoMoreValues),
            _ => Ok(&self.s[self.s.len() - 1]),
        }
    }
}

/// The values of a sequence of handles.
pub open spec fn handle_terms(hs: Seq<SBV>, bump: &Bump) -> Seq<Term> {
    Seq::new(hs.len(), |i: int| hs[i].term(bump))
}

/// Every handle of a sequence is good in `bump`.
pub open spec fn handles_wf(hs: Seq<SBV>, bump: &Bump) -> bool {
    forall|i: int| 0 <= i < hs.len() ==> (#[trigger] hs[i]).wf(bump)
}

/// The values behind a sequence of references.
pub open spec fn ref_terms(rs: Seq<&BValue>) -> Seq<Term> {
    Seq::new(rs.len(), |i: int| rs[i]@)
}

/// The values behind a sequence of references that may be missing.
pub open spec fn opt_ref_terms(rs: Seq<Option<&BValue>>) -> Seq<Option<Term>> {
    Seq::new(
        rs.len(),
        |i: int|
            match rs[i] {
                Some(r) => Some(r@),
                None => None,
            },
    )
}

/// The value of a constant.
pub fn constant(op: Operand) -> (r: BValue)
    ensures
        r@ == op.term(),
{
    match op {
        Operand::Integer(i) => BValue::Integer(i),
        Operand::Bool(b) => BValue::Bool(b),
    }
}

/// Whether `v` is the constant `op`.
pub fn is_constant(v: &BValue, op: Operand) -> (r: bool)
    ensures
        r == (v@ == op.term()),
{
    match (op, v) {
        (Operand::Integer(i), BValue::Integer(j)) => i == *j,
        (Operand::Bool(a), BValue::Bool(b)) => a == *b,
        _ => false,
    }
}

/// The parts that the destructure instruction `i` takes `v` apart into, if
/// `v` has the shape that `i` asks for.
pub fn parts_of<'a>(i: Instruction2, v: &'a BValue) -> (r: Option<&'a Vec<BValue>>)
    ensures
        match r {
            Some(ps) => parts_for(i, v@) == Some(BValue::terms(ps@)) && ps@ == v.parts(),
            None => parts_for(i, v@) is None,
        },
{
    proof {
        v.lemma_view();
    }
    match i {
        Instruction2::DestructCompound(f) => match v {
            BValue::Compound(tag, args) => if tag.0 == f.0.0 && args.len() == f.1 {
                Some(args)
            } else {
                None
            },
            _ => None,
        },
        Instruction2::DestructVector(n) => match v {
            BValue::Vector(args) => if args.len() == n {
                Some(args)
            } else {
                None
            },
            _ => None,
        },
        Instruction2::Destruct(n) => match v {
            BValue::Compound(_, args) => if args.len() == n {
                Some(args)
            } else {
                None
            },
            BValue::Vector(args) => if args.len() == n {
                Some(args)
            } else {
                None
            },
            _ => None,
        },
        _ => None,
    }
}

/// The parts of the value of `h`, owned, if the value has the shape that the
/// destructure instruction `i` asks for. A shared value is copied first.
pub fn take_parts(i: Instruction2, h: SBV, bump: &Bump) -> (r: Option<Vec<BValue>>)
    requires
        h.wf(bump),
    ensures
        match r {
            Some(ps) => parts_for(i, h.term(bump)) == Some(BValue::terms(ps@)),
            None => parts_for(i, h.term(bump)) is None,
        },
{
    if parts_of(i, h.as_immut(bump)).is_none() {
        return None;
    }
    let owned = h.into_owned(bump);
    proof {
        owned.lemma_view();
    }
    match owned {
        BValue::Compound(_, args) => Some(args),
        BValue::Vector(args) => Some(args),
        _ => None,
    }
}

/// Puts the parts on the stack as exclusive handles, the last part first, so
/// that the first part ends on top.
pub fn push_parts(stack: &mut Vec<SBV>, parts: Vec<BValue>, bump: &Bump)
    requires
        handles_wf(old(stack)@, bump),
    ensures
        handles_wf(final(stack)@, bump),
        handle_terms(final(stack)@, bump) == handle_terms(old(stack)@, bump) + BValue::terms(
            parts@,
        ).reverse(),
{
    let ghost all = BValue::terms(parts@);
    let ghost n = parts@.len() as int;
    let mut parts = parts;
    assert(handle_terms(stack@, bump) =~= handle_terms(old(stack)@, bump) + all.reverse().subrange(
        0,
        0,
    ));
    while parts.len() > 0
        invariant
            parts@.len() <= n,
            n == all.len(),
            BValue::terms(parts@) == all.subrange(0, parts@.len() as int),
            handles_wf(stack@, bump),
            handle_terms(stack@, bump) == handle_terms(old(stack)@, bump) + all.reverse().subrange(
                0,
                n - parts@.len(),
            ),
        decreases parts@.len(),
    {
        let ghost before = parts@;
        let ghost sb = stack@;
        let part = parts.pop().unwrap();
        stack.push(Satc::new(part));
        proof {
            let m = before.len() as int;
            assert(part@ == BValue::terms(before)[m - 1]);
            assert(part@ == all[m - 1]);
            assert(BValue::terms(parts@) =~= all.subrange(0, m - 1));
            assert(all.reverse()[n - m] == all[m - 1]);
            assert(handle_terms(stack@, bump) =~= handle_terms(sb, bump).push(part@));
            assert(all.reverse().subrange(0, n - m).push(part@) =~= all.reverse().subrange(
                0,
                n - m + 1,
            ));
            assert forall|i: int| 0 <= i < stack@.len() implies (#[trigger] stack@[i]).wf(
                bump,
            ) by {
                if i < sb.len() {
                    assert(stack@[i] == sb[i]);
                }
            }
        }
    }
    assert(all.reverse().subrange(0, n) =~= all.reverse());
}

/// Puts references to the parts on the scratch stack, the last part first.
pub fn push_refs<'a>(scratch: &mut Vec<&'a BValue>, parts: &'a Vec<BValue>)
    ensures
        ref_terms(final(scratch)@) == ref_terms(old(scratch)@) + BValue::terms(parts@).reverse(),
{
    let ghost all = BValue::terms(parts@);
    let ghost n = parts@.len() as int;
    let mut k: usize = parts.len();
    assert(ref_terms(scratch@) =~= ref_terms(old(scratch)@) + all.reverse().subrange(0, 0));
    while k > 0
        invariant
            k <= parts@.len(),
            n == parts@.len(),
            all == BValue::terms(parts@),
            ref_terms(scratch@) == ref_terms(old(scratch)@) + all.reverse().subrange(0, n - k),
        decreases k,
    {
        let ghost sb = scratch@;
        k -= 1;
        scratch.push(&parts[k]);
        proof {
            assert(all.reverse()[n - k - 1] == all[k as int]);
            assert(ref_terms(scratch@) =~= ref_terms(sb).push(all[k as int]));
            assert(all.reverse().subrange(0, n - k - 1).push(all[k as int]) =~= all.reverse().subrange(
                0,
                n - k,
            ));
        }
    }
    assert(all.reverse().subrange(0, n) =~= all.reverse());
}

impl<'code> StackFrame<'code> {
    /// The frame sees its operands as the values of its handles.
    pub proof fn lemma_stack(&self, bump: &Bump)
        ensures
            self.stack(bump) == handle_terms(self.s@, bump),
            self.view(bump).stack == handle_terms(self.s@, bump),
    {
        assert(self.stack(bump) =~= handle_terms(self.s@, bump));
    }

    /// Puts `h` on top of the operands.
    pub fn push_value(&mut self, bump: &Bump, h: SBV)
        requires
            old(self).wf(bump),
            h.wf(bump),
        ensures
            final(self).wf(bump),
            final(self).c == old(self).c,
            final(self).view(bump) == old(self).view(bump).push(h.term(bump)),
            final(self).s@ == old(self).s@.push(h),
            final(self).v == old(self).v,
            final(self).ip == old(self).ip,
    {
        self.s.push(h);
        proof {
            assert(self.stack(bump) =~= old(self).stack(bump).push(h.term(bump)));
            assert forall|i: int| 0 <= i < self.s@.len() implies (#[trigger] self.s@[i]).wf(
                bump,
            ) by {
                if i < old(self).s@.len() {
                    assert(self.s@[i] == old(self).s@[i]);
                }
            }
        }
    }

    /// Takes the top operand.
    pub fn pop_value(&mut self, bump: &Bump) -> (r: Runtime<SBV>)
        requires
            old(self).wf(bump),
        ensures
            final(self).wf(bump),
            final(self).c == old(self).c,
            match r {
                Ok(h) => {
                    &&& h.wf(bump)
                    &&& old(self).view(bump).stack.len() > 0
                    &&& h.term(bump) == old(self).view(bump).stack.last()
                    &&& final(self).view(bump) == old(self).view(bump).pop()
                    &&& h == old(self).s@.last()
                    &&& final(self).s@ == old(self).s@.drop_last()
                    &&& final(self).v == old(self).v
                },
                Err(e) => {
                    &&& e == Error::NoMoreValues
                    &&& old(self).view(bump).stack.len() == 0
                    &&& final(self).view(bump) == old(self).view(bump)
                },
            },
    {
        let r = self.pop();
        proof {
            if r is Ok {
                assert(self.stack(bump) =~= old(self).stack(bump).drop_last());
                assert forall|i: int| 0 <= i < self.s@.len() implies (#[trigger] self.s@[i]).wf(
                    bump,
                ) by {
                    assert(self.s@[i] == old(self).s@[i]);
                }
            }
        }
        r
    }

    /// Binds the slot `l` to `h`, whatever it held.
    pub fn bind(&mut self, bump: &Bump, l: usize, h: SBV)
        requires
            old(self).wf(bump),
            h.wf(bump),
            l < old(self).v@.len(),
        ensures
            final(self).wf(bump),
            final(self).c == old(self).c,
            final(self).view(bump) == old(self).view(bump).bind(l, h.term(bump)),
            final(self).v@ == old(self).v@.update(l as int, Some(h)),
            final(self).s == old(self).s,
    {
        let mut slot = Some(h);
        std::mem::swap(&mut self.v[l], &mut slot);
        proof {
            assert(self.vars(bump) =~= old(self).vars(bump).update(l as int, Some(h.term(bump))));
            assert(self.v@ =~= old(self).v@.update(l as int, Some(h)));
            assert forall|i: int| 0 <= i < self.v@.len() implies match #[trigger] self.v@[i] {
                Some(x) => x.wf(bump),
                None => true,
            } by {
                if i != l {
                    assert(self.v@[i] == old(self).v@[i]);
                }
            }
        }
    }

    /// Pushes the value of the slot `l`. The slot and the new operand share
    /// the value from now on: a value that the slot owned moves into the
    /// arena, one that lay there stays where it is, and nothing is copied.
    pub fn get(&mut self, bump: &mut Bump, l: usize) -> (r: Runtime<()>)
        requires
            old(self).wf(old(bump)),
            l < old(self).v@.len(),
        ensures
            final(bump).extends(old(bump)),
            final(self).c == old(self).c,
            match r {
                Ok(_) => {
                    &&& final(self).wf(final(bump))
                    &&& old(self).view(old(bump)).vars[l as int] matches Some(x)
                    &&& final(self).view(final(bump)) == old(self).view(old(bump)).push(x)
                    &&& final(self).shares(l as int)
                    &&& match old(self).v@[l as int] {
                        Some(Satc::Borrowed(_)) => final(bump)@ == old(bump)@ && final(self).v@[l as int]
                            == old(self).v@[l as int],
                        _ => final(bump)@ == old(bump)@.push(x),
                    }
                    &&& final(self).s@.drop_last() == old(self).s@
                    &&& forall|i: int|
                        0 <= i < old(self).v@.len() && i != l ==> #[trigger] final(self).v@[i]
                            == old(self).v@[i]
                },
                Err(e) => e == Error::GetUnset && old(self).view(old(bump)).vars[l as int] is None,
            },
    {
        let ghost before = *bump;
        let mut slot: Option<SBV> = None;
        std::mem::swap(&mut self.v[l], &mut slot);
        match slot {
            None => Err(Error::GetUnset),
            Some(mut x) => {
                let ghost hollow = *self;
                assert(hollow.wf(&before)) by {
                    assert forall|i: int| 0 <= i < hollow.v@.len() implies match #[trigger] hollow.v@[i] {
                        Some(h) => h.wf(&before),
                        None => true,
                    } by {
                        if i != l {
                            assert(hollow.v@[i] == old(self).v@[i]);
                        }
                    }
                }
                let h = x.split(bump);
                proof {
                    hollow.lemma_stable(&before, bump);
                }
                let mut back = Some(x);
                std::mem::swap(&mut self.v[l], &mut back);
                proof {
                    assert(self.vars(bump) =~= old(self).vars(&before)) by {
                        assert forall|i: int| 0 <= i < self.v@.len() implies self.vars(bump)[i]
                            == old(self).vars(&before)[i] by {
                            if i != l {
                                assert(self.v@[i] == hollow.v@[i]);
                                assert(hollow.vars(bump)[i] == hollow.vars(&before)[i]);
                                assert(hollow.v@[i] == old(self).v@[i]);
                            }
                        }
                    }
                    assert(self.stack(bump) =~= hollow.stack(bump));
                    assert(hollow.stack(&before) =~= old(self).stack(&before));
                    assert forall|i: int| 0 <= i < self.v@.len() implies match #[trigger] self.v@[i] {
                        Some(h) => h.wf(bump),
                        None => true,
                    } by {
                        if i != l {
                            assert(self.v@[i] == hollow.v@[i]);
                        }
                    }
                    assert(self.wf(bump));
                }
                let ghost full = *self;
                self.push_value(bump, h);
                proof {
                    assert(self.s@.drop_last() =~= old(self).s@);
                    assert forall|i: int| 0 <= i < old(self).v@.len() && i != l implies
                        #[trigger] self.v@[i] == old(self).v@[i] by {
                        assert(self.v@[i] == full.v@[i]);
                        assert(full.v@[i] == hollow.v@[i]);
                        assert(hollow.v@[i] == old(self).v@[i]);
                    }
                }
                Ok(())
            },
        }
    }

    /// The values of the slots, in host form.
    pub fn raise_vars(&self, bump: &Bump) -> (r: Vec<Option<Value>>)
        requires
            self.wf(bump),
        ensures
            crate::vm::value_terms(r@) == self.vars(bump),
    {
        let mut out: Vec<Option<Value>> = Vec::with_capacity(self.v.len());
        let mut k: usize = 0;
        while k < self.v.len()
            invariant
                k <= self.v@.len(),
                self.wf(bump),
                out@.len() == k,
                forall|i: int|
                    0 <= i < k ==> crate::vm::value_terms(out@)[i] == self.vars(bump)[i],
            decreases self.v@.len() - k,
        {
            let x = match &self.v[k] {
                Some(h) => Some(BValue::raise(h.as_immut(bump))),
                None => None,
            };
            let ghost ob = out@;
            out.push(x);
            proof {
                assert forall|i: int| 0 <= i <= k implies crate::vm::value_terms(out@)[i]
                    == self.vars(bump)[i] by {
                    if i < k {
                        assert(out@[i] == ob[i]);
                        assert(crate::vm::value_terms(ob)[i] == self.vars(bump)[i]);
                    }
                }
            }
            k += 1;
        }
        assert(crate::vm::value_terms(out@) =~= self.vars(bump));
        out
    }

    /// An arithmetic or ordering instruction.
    pub fn execute_binary(&mut self, bump: &Bump, i: Instruction2) -> (r: Runtime<()>)
        requires
            old(self).wf(bump),
            is_binary(i),
        ensures
            final(self).c == old(self).c,
            match r {
                Ok(_) => final(self).wf(bump) && exec_binary(old(self).view(bump), i) == Ok::<
                    FrameView,
                    Error,
                >(final(self).view(bump)),
                Err(e) => exec_binary(old(self).view(bump), i) == Err::<FrameView, Error>(e),
            },
    {
        let ghost f0 = old(self).view(bump);
        let (l, r) = match self.pop_num2(bump) {
            Err(e) => {
                return Err(e);
            },
            Ok(Num2::Integer(l, r)) => (l, r),
        };
        proof {
            let n = f0.stack.len() as int;
            assert(self.stack(bump) =~= f0.stack.subrange(0, n - 2));
            assert(f0.pop().pop().stack =~= f0.stack.subrange(0, n - 2));
            assert(self.view(bump) == f0.pop().pop());
        }
        let t = match i {
            Instruction2::Mul => BValue::Integer(l.wrapping_mul(r)),
            Instruction2::Div => {
                if r == 0 {
                    return Err(Error::DivisionByZero);
                }
                match l.checked_div(r) {
                    Some(q) => BValue::Integer(q),
                    None => BValue::Integer(i64::MIN),
                }
            },
            Instruction2::Add => BValue::Integer(l.wrapping_add(r)),
            Instruction2::Subtract => BValue::Integer(l.wrapping_sub(r)),
            Instruction2::Le => BValue::Bool(l <= r),
            Instruction2::Ge => BValue::Bool(l >= r),
            Instruction2::Lt => BValue::Bool(l < r),
            Instruction2::Gt => BValue::Bool(l > r),
            Instruction2::Eq => BValue::Bool(l == r),
            _ => BValue::Bool(l != r),
        };
        assert(binary(i, l, r) == Ok::<Term, Error>(t@));
        self.push_value(bump, Satc::new(t));
        Ok(())
    }

    /// A construct instruction: takes as many operands as the instruction
    /// says, in the order in which they were pushed, and pushes what they make.
    pub fn construct(&mut self, bump: &Bump, i: Instruction2) -> (r: Runtime<()>)
        requires
            old(self).wf(bump),
            i is ConstructCompound || i is ConstructVector || i is ConstructSet,
        ensures
            final(self).c == old(self).c,
            match r {
                Ok(_) => final(self).wf(bump) && exec_local(old(self).view(bump), i) == Ok::<
                    FrameView,
                    Error,
                >(final(self).view(bump)),
                Err(e) => exec_local(old(self).view(bump), i) == Err::<FrameView, Error>(e),
            },
    {
        let ghost f0 = old(self).view(bump);
        let n = match i {
            Instruction2::ConstructCompound(f) => f.1,
            Instruction2::ConstructVector(n) => n,
            Instruction2::ConstructSet(n) => n,
            _ => 0,
        };
        let len = self.s.len();
        if len < n {
            return Err(Error::NoMoreValues);
        }
        let tail = self.s.split_off(len - n);
        let ghost keep = (len - n) as int;
        proof {
            assert(self.stack(bump) =~= f0.stack.subrange(0, keep));
            assert forall|k: int| 0 <= k < self.s@.len() implies (#[trigger] self.s@[k]).wf(
                bump,
            ) by {
                assert(self.s@[k] == old(self).s@[k]);
            }
            assert forall|k: int| 0 <= k < tail@.len() implies (#[trigger] tail@[k]).wf(bump) by {
                assert(tail@[k] == old(self).s@[keep + k]);
            }
        }
        let mut values: Vec<BValue> = Vec::with_capacity(n);
        for h in it: tail
            invariant
                it.seq() == tail@,
                handles_wf(tail@, bump),
                values@.len() == it.index(),
                forall|k: int| 0 <= k < values@.len() ==> values@[k]@ == tail@[k].term(bump),
        {
            assert(h.wf(bump));
            values.push(h.into_owned(bump));
        }
        proof {
            assert(BValue::terms(values@) =~= f0.stack.subrange(keep, len as int)) by {
                assert forall|k: int| 0 <= k < n implies BValue::terms(values@)[k]
                    == f0.stack.subrange(keep, len as int)[k] by {
                    assert(tail@[k] == old(self).s@[keep + k]);
                }
            }
        }
        let made = match i {
            Instruction2::ConstructCompound(f) => BValue::Compound(f.0, values),
            Instruction2::ConstructVector(_) => BValue::Vector(values),
            _ => BValue::SetOf(make_set(values)),
        };
        proof {
            made.lemma_view();
            assert(made@ == built(i, f0.stack.subrange(keep, len as int)));
        }
        self.push_value(bump, Satc::new(made));
        Ok(())
    }
}

/// The instructions from `start` up to `end` are pattern instructions, and
/// an `Unmark` stands at `end`.
pub open spec fn region_ok(code: Seq<Instruction2>, start: int, end: int) -> bool {
    &&& 0 <= start <= end < code.len()
    &&& code[end] == Instruction2::Unmark
    &&& forall|k: int| start <= k < end ==> (#[trigger] code[k]).is_pattern()
}

/// A scan that has passed pattern instructions only ends where the rest of
/// the scan ends.
pub proof fn lemma_region(code: Seq<Instruction2>, start: int, j: int)
    requires
        0 <= start <= j,
        forall|k: int| start <= k < j ==> (#[trigger] code[k]).is_pattern(),
    ensures
        region_end(code, start) == region_end(code, j),
    decreases j - start,
{
    if start < j {
        if start < code.len() {
            assert(code[start].is_pattern());
            lemma_region(code, start + 1, j);
        } else {
            assert(region_end(code, start) == Err::<int, Error>(Error::OutOfCode));
            assert(region_end(code, j) == Err::<int, Error>(Error::OutOfCode));
        }
    }
}

impl<'code> StackFrame<'code> {
    /// What the machine does when a marked match fails: continue at
    /// `else_ip`, with the value back on the stack if `keep_on_failure` is set.
    pub fn destructure_fail(
        &mut self,
        bump: &Bump,
        else_ip: usize,
        keep_on_failure: bool,
        value: SBV,
    )
        requires
            old(self).wf(bump),
            value.wf(bump),
        ensures
            final(self).wf(bump),
            final(self).c == old(self).c,
            final(self).view(bump) == if keep_on_failure {
                old(self).view(bump).jump(else_ip).push(value.term(bump))
            } else {
                old(self).view(bump).jump(else_ip)
            },
    {
        self.ip = else_ip;
        if keep_on_failure {
            self.push_value(bump, value);
        }
    }

    /// The first pass of a marked match: finds the end of the region, and
    /// notes for every bind-or-check of the region what its slot holds now.
    pub fn seek<'a>(&'a self, bump: &'a Bump) -> (r: Runtime<(usize, Vec<Option<&'a BValue>>)>)
        requires
            self.wf(bump),
        ensures
            match r {
                Ok((end, temps)) => {
                    &&& region_end(self.c.instructions@, self.ip as int) == Ok::<int, Error>(
                        end as int,
                    )
                    &&& region_ok(self.c.instructions@, self.ip as int, end as int)
                    &&& temps@.len() == self.v@.len()
                    &&& forall|k: int|
                        self.ip <= k < end ==> (#[trigger] self.c.instructions@[k]
                            matches Instruction2::SetAssert(l) ==> opt_ref_terms(temps@)[l.0 as int]
                            == self.vars(bump)[l.0 as int])
                },
                Err(e) => region_end(self.c.instructions@, self.ip as int) == Err::<int, Error>(e),
            },
    {
        let code = &self.c.instructions;
        let mut temps: Vec<Option<&'a BValue>> = Vec::with_capacity(self.v.len());
        let mut n: usize = 0;
        while n < self.v.len()
            invariant
                n <= self.v@.len(),
                temps@.len() == n,
            decreases self.v@.len() - n,
        {
            temps.push(None);
            n += 1;
        }
        let mut seek_ip = self.ip;
        loop
            invariant
                self.wf(bump),
                code == &self.c.instructions,
                self.ip <= seek_ip,
                temps@.len() == self.v@.len(),
                forall|k: int| self.ip <= k < seek_ip ==> (#[trigger] code@[k]).is_pattern(),
                forall|k: int|
                    self.ip <= k < seek_ip ==> (#[trigger] code@[k] matches Instruction2::SetAssert(
                        l,
                    ) ==> opt_ref_terms(temps@)[l.0 as int] == self.vars(bump)[l.0 as int]),
            decreases code@.len() - seek_ip,
        {
            proof {
                lemma_region(code@, self.ip as int, seek_ip as int);
            }
            if seek_ip >= code.len() {
                return Err(Error::OutOfCode);
            }
            match code[seek_ip] {
                Instruction2::Unmark => {
                    return Ok((seek_ip, temps));
                },
                Instruction2::SetAssert(l) => {
                    assert(code@[seek_ip as int].slot() == Some(l.0));
                    let ghost tb = temps@;
                    let noted: Option<&'a BValue> = match &self.v[l.0] {
                        None => None,
                        Some(x) => Some(x.as_immut(bump)),
                    };
                    temps[l.0] = noted;
                    proof {
                        assert(opt_ref_terms(temps@)[l.0 as int] == self.vars(bump)[l.0 as int]);
                        assert forall|k: int| self.ip <= k < seek_ip + 1 implies (
                        #[trigger] code@[k] matches Instruction2::SetAssert(m) ==> opt_ref_terms(
                            temps@,
                        )[m.0 as int] == self.vars(bump)[m.0 as int]) by {
                            if let Instruction2::SetAssert(m) = code@[k] {
                                if k < seek_ip && m.0 != l.0 {
                                    assert(temps@[m.0 as int] == tb[m.0 as int]);
                                    assert(opt_ref_terms(tb)[m.0 as int] == self.vars(bump)[m.0 as int]);
                                }
                            }
                        }
                    }
                },
                Instruction2::DestructCompound(_) => {},
                Instruction2::DestructVector(_) => {},
                Instruction2::Destruct(_) => {},
                Instruction2::EqualsOperandAssert(_) => {},
                Instruction2::Mark(_, _) => {
                    return Err(Error::CantMarkTwice);
                },
                _ => {
                    return Err(Error::MarkInvalidInstruction);
                },
            }
            seek_ip += 1;
        }
    }

    /// The second pass of a marked match: decides on references alone
    /// whether the value matches. Nothing is allocated and nothing changed.
    pub fn check<'a>(
        &'a self,
        bump: &'a Bump,
        end: usize,
        temps: Vec<Option<&'a BValue>>,
        value: &'a BValue,
    ) -> (r: Runtime<bool>)
        requires
            self.wf(bump),
            region_ok(self.c.instructions@, self.ip as int, end as int),
            temps@.len() == self.v@.len(),
            forall|k: int|
                self.ip <= k < end ==> (#[trigger] self.c.instructions@[k] matches Instruction2::SetAssert(
                    l,
                ) ==> opt_ref_terms(temps@)[l.0 as int] == self.vars(bump)[l.0 as int]),
        ensures
            match r {
                Ok(true) => unify(
                    self.c.instructions@,
                    self.ip as int,
                    end as int,
                    seq![value@],
                    self.vars(bump),
                ) is Bound,
                Ok(false) => unify(
                    self.c.instructions@,
                    self.ip as int,
                    end as int,
                    seq![value@],
                    self.vars(bump),
                ) == Match::Mismatch,
                Err(e) => e == Error::UnmarkWrongStackSize && unify(
                    self.c.instructions@,
                    self.ip as int,
                    end as int,
                    seq![value@],
                    self.vars(bump),
                ) == Match::Unbalanced,
            },
    {
        let code = &self.c.instructions;
        let ghost goal = unify(code@, self.ip as int, end as int, seq![value@], self.vars(bump));
        let mut temps = temps;
        let mut scratch: Vec<&'a BValue> = Vec::new();
        scratch.push(value);
        assert(ref_terms(scratch@) =~= seq![value@]);
        let ghost mut gv = self.vars(bump);
        let mut cur = self.ip;
        let mut matched = true;
        while cur < end && matched
            invariant
                self.wf(bump),
                code == &self.c.instructions,
                region_ok(code@, self.ip as int, end as int),
                self.ip <= cur <= end,
                temps@.len() == self.v@.len(),
                gv.len() == self.v@.len(),
                goal == unify(code@, self.ip as int, end as int, seq![value@], self.vars(bump)),
                matched ==> goal == unify(code@, cur as int, end as int, ref_terms(scratch@), gv),
                !matched ==> goal == Match::Mismatch,
                forall|k: int|
                    self.ip <= k < end ==> (#[trigger] code@[k] matches Instruction2::SetAssert(l)
                        ==> opt_ref_terms(temps@)[l.0 as int] == gv[l.0 as int]),
            decreases end - cur + (if matched { 1int } else { 0int }),
        {
            let ghost sb = ref_terms(scratch@);
            let top = match scratch.pop() {
                None => {
                    assert(sb.len() == 0);
                    return Err(Error::UnmarkWrongStackSize);
                },
                Some(t) => t,
            };
            assert(top@ == sb.last());
            assert(ref_terms(scratch@) =~= sb.drop_last());
            let i = code[cur];
            assert(i.is_pattern());
            match i {
                Instruction2::SetAssert(l) => {
                    assert(code@[cur as int].slot() == Some(l.0));
                    assert(opt_ref_terms(temps@)[l.0 as int] == gv[l.0 as int]);
                    match temps[l.0] {
                        None => {
                            let ghost tb = temps@;
                            let ghost gb = gv;
                            temps[l.0] = Some(top);
                            proof {
                                gv = gv.update(l.0 as int, Some(top@));
                                assert forall|k: int| self.ip <= k < end implies (
                                #[trigger] code@[k] matches Instruction2::SetAssert(m)
                                    ==> opt_ref_terms(temps@)[m.0 as int] == gv[m.0 as int]) by {
                                    if let Instruction2::SetAssert(m) = code@[k] {
                                        assert(code@[k].slot() == Some(m.0));
                                        if m.0 != l.0 {
                                            assert(temps@[m.0 as int] == tb[m.0 as int]);
                                            assert(opt_ref_terms(tb)[m.0 as int] == gb[m.0 as int]);
                                        }
                                    }
                                }
                            }
                        },
                        Some(x) => {
                            if !x.equals(top) {
                                matched = false;
                            }
                        },
                    }
                },
                Instruction2::EqualsOperandAssert(op) => {
                    if !is_constant(top, op) {
                        matched = false;
                    }
                },
                _ => {
                    match parts_of(i, top) {
                        Some(parts) => {
                            push_refs(&mut scratch, parts);
                        },
                        None => {
                            matched = false;
                        },
                    }
                },
            }
            if matched {
                cur += 1;
            }
        }
        if matched && scratch.len() > 0 {
            proof {
                assert(ref_terms(scratch@).len() > 0);
            }
            return Err(Error::UnmarkWrongStackSize);
        }
        proof {
            if matched {
                assert(ref_terms(scratch@).len() == 0);
            }
        }
        Ok(matched)
    }

    /// The third pass of a marked match, for a value that is known to match:
    /// takes the value apart for good and binds the slots.
    pub fn commit(&mut self, bump: &Bump, end: usize, value: SBV)
        requires
            old(self).wf(bump),
            value.wf(bump),
            region_ok(old(self).c.instructions@, old(self).ip as int, end as int),
            unify(
                old(self).c.instructions@,
                old(self).ip as int,
                end as int,
                seq![value.term(bump)],
                old(self).vars(bump),
            ) is Bound,
        ensures
            final(self).wf(bump),
            final(self).c == old(self).c,
            final(self).view(bump) == (FrameView {
                ip: (end + 1) as usize,
                vars: unify(
                    old(self).c.instructions@,
                    old(self).ip as int,
                    end as int,
                    seq![value.term(bump)],
                    old(self).vars(bump),
                )->Bound_0,
                ..old(self).view(bump)
            }),
    {
        let code = &self.c.instructions;
        let ghost start = self.ip as int;
        let ghost goal = unify(code@, start, end as int, seq![value.term(bump)], self.vars(bump));
        let mut write_stack: Vec<SBV> = Vec::new();
        write_stack.push(value);
        assert(handle_terms(write_stack@, bump) =~= seq![value.term(bump)]);
        let mut cur = self.ip;
        let limit = code.len();
        while cur < end
            invariant
                self.wf(bump),
                limit == code@.len(),
                self.c == old(self).c,
                self.stack(bump) == old(self).stack(bump),
                self.ip == old(self).ip,
                code == &self.c.instructions,
                region_ok(code@, start, end as int),
                start <= cur <= end,
                goal is Bound,
                handles_wf(write_stack@, bump),
                goal == unify(
                    code@,
                    cur as int,
                    end as int,
                    handle_terms(write_stack@, bump),
                    self.vars(bump),
                ),
            decreases end - cur,
        {
            let ghost wb = write_stack@;
            let ghost tb = handle_terms(write_stack@, bump);
            let ghost vb = self.vars(bump);
            let i = code[cur];
            assert(i.is_pattern());
            let top = match write_stack.pop() {
                None => {
                    return ;
                },
                Some(t) => t,
            };
            proof {
                assert(top == wb.last());
                assert(top.term(bump) == tb.last());
                assert(handle_terms(write_stack@, bump) =~= tb.drop_last());
                assert forall|k: int| 0 <= k < write_stack@.len() implies (
                #[trigger] write_stack@[k]).wf(bump) by {
                    assert(write_stack@[k] == wb[k]);
                }
            }
            match i {
                Instruction2::SetAssert(l) => {
                    assert(code@[cur as int].slot() == Some(l.0));
                    self.bind(bump, l.0, top);
                    proof {
                        assert(self.vars(bump) == vb.update(l.0 as int, Some(top.term(bump))));
                        if vb[l.0 as int] is Some {
                            assert(vb.update(l.0 as int, Some(top.term(bump))) =~= vb);
                        }
                    }
                },
                Instruction2::EqualsOperandAssert(_) => {},
                _ => {
                    match take_parts(i, top, bump) {
                        Some(parts) => {
                            push_parts(&mut write_stack, parts, bump);
                        },
                        None => {
                            return ;
                        },
                    }
                },
            }
            cur += 1;
        }
        self.ip = end + 1;
    }

    /// A marked match of `value`, on a frame that stands behind the `Mark`:
    /// three passes over the region, of which only the last changes anything,
    /// and the last runs only if the value matches.
    pub fn destructure(
        &mut self,
        bump: &Bump,
        else_ip: usize,
        keep_on_failure: bool,
        value: SBV,
    ) -> (r: Runtime<()>)
        requires
            old(self).wf(bump),
            value.wf(bump),
        ensures
            final(self).c == old(self).c,
            match r {
                Ok(_) => final(self).wf(bump) && destructure(
                    old(self).view(bump),
                    else_ip,
                    keep_on_failure,
                    value.term(bump),
                ) == Ok::<FrameView, Error>(final(self).view(bump)),
                Err(e) => destructure(
                    old(self).view(bump),
                    else_ip,
                    keep_on_failure,
                    value.term(bump),
                ) == Err::<FrameView, Error>(e),
            },
    {
        let (end, temps) = match self.seek(bump) {
            Err(e) => {
                return Err(e);
            },
            Ok(found) => found,
        };
        let matched = match self.check(bump, end, temps, value.as_immut(bump)) {
            Err(e) => {
                return Err(e);
            },
            Ok(m) => m,
        };
        if matched {
            self.commit(bump, end, value);
        } else {
            self.destructure_fail(bump, else_ip, keep_on_failure, value);
        }
        Ok(())
    }

    /// An instruction that starts by popping one operand, on a frame that
    /// has given up that operand.
    pub fn execute_unary(&mut self, bump: &Bump, i: Instruction2, top: SBV) -> (r: Runtime<()>)
        requires
            old(self).wf(bump),
            top.wf(bump),
            is_unary(i),
            i.slot() matches Some(l) ==> l < old(self).v@.len(),
        ensures
            final(self).c == old(self).c,
            match r {
                Ok(_) => final(self).wf(bump) && exec_unary(
                    old(self).view(bump),
                    i,
                    top.term(bump),
                ) == Ok::<FrameView, Error>(final(self).view(bump)),
                Err(e) => exec_unary(old(self).view(bump), i, top.term(bump)) == Err::<
                    FrameView,
                    Error,
                >(e),
            },
    {
        let ghost f0 = old(self).view(bump);
        match i {
            Instruction2::SetVar(l) => {
                self.bind(bump, l.0, top);
                Ok(())
            },
            Instruction2::SetAssert(l) => {
                let same = match &self.v[l.0] {
                    None => None,
                    Some(x) => Some(x.as_immut(bump).equals(top.as_immut(bump))),
                };
                match same {
                    None => {
                        self.bind(bump, l.0, top);
                        Ok(())
                    },
                    Some(true) => Ok(()),
                    Some(false) => Err(Error::SetAssertFailed),
                }
            },
            Instruction2::Assert => match top.as_immut(bump) {
                BValue::Bool(true) => Ok(()),
                BValue::Bool(false) => Err(Error::AssertionFailed),
                _ => Err(Error::ConditionalWrongType),
            },
            Instruction2::JumpNo(new_ip) => match top.as_immut(bump) {
                BValue::Bool(true) => Ok(()),
                BValue::Bool(false) => {
                    self.ip = new_ip.0;
                    Ok(())
                },
                _ => Err(Error::ConditionalWrongType),
            },
            Instruction2::Pop => Ok(()),
            Instruction2::Mark(mark_ip, keep_on_failure) => self.destructure(
                bump,
                mark_ip.0,
                keep_on_failure,
                top,
            ),
            Instruction2::EqualsOperandAssert(op) => {
                if is_constant(top.as_immut(bump), op) {
                    Ok(())
                } else {
                    Err(Error::AssertionFailed)
                }
            },
            _ => match take_parts(i, top, bump) {
                Some(parts) => {
                    proof {
                        self.lemma_stack(bump);
                    }
                    push_parts(&mut self.s, parts, bump);
                    proof {
                        self.lemma_stack(bump);
                    }
                    Ok(())
                },
                None => Err(Error::DestructWrongType),
            },
        }
    }

    /// Any instruction but `Ret` and `Call`, on the frame that has fetched it.
    pub fn execute(&mut self, bump: &mut Bump, i: Instruction2) -> (r: Runtime<()>)
        requires
            old(self).wf(old(bump)),
            !(i is Ret),
            !(i is Call),
            i.slot() matches Some(l) ==> l < old(self).v@.len(),
        ensures
            final(bump).extends(old(bump)),
            final(self).c == old(self).c,
            match r {
                Ok(_) => final(self).wf(final(bump)) && exec_local(old(self).view(old(bump)), i)
                    == Ok::<FrameView, Error>(final(self).view(final(bump))),
                Err(e) => exec_local(old(self).view(old(bump)), i) == Err::<FrameView, Error>(e),
            },
            match (i, r) {
                (Instruction2::Get(l), Ok(_)) => final(self).shares(l.0 as int),
                _ => true,
            },
    {
        match i {
            Instruction2::Push(op) => {
                self.push_value(bump, Satc::new(constant(op)));
                Ok(())
            },
            Instruction2::Get(l) => self.get(bump, l.0),
            Instruction2::Jump(new_ip) => {
                self.ip = new_ip.0;
                Ok(())
            },
            Instruction2::Unmark => Err(Error::UnmarkMustBeMarked),
            Instruction2::Equals => {
                let s1 = match self.pop_value(bump) {
                    Err(e) => {
                        return Err(e);
                    },
                    Ok(h) => h,
                };
                let s2 = match self.pop_value(bump) {
                    Err(e) => {
                        return Err(e);
                    },
                    Ok(h) => h,
                };
                let same = s1.as_immut(bump).equals(s2.as_immut(bump));
                self.push_value(bump, Satc::new(BValue::Bool(same)));
                Ok(())
            },
            Instruction2::ConstructCompound(_) => self.construct(bump, i),
            Instruction2::ConstructVector(_) => self.construct(bump, i),
            Instruction2::ConstructSet(_) => self.construct(bump, i),
            Instruction2::Mul => self.execute_binary(bump, i),
            Instruction2::Div => self.execute_binary(bump, i),
            Instruction2::Add => self.execute_binary(bump, i),
            Instruction2::Subtract => self.execute_binary(bump, i),
            Instruction2::Le => self.execute_binary(bump, i),
            Instruction2::Ge => self.execute_binary(bump, i),
            Instruction2::Lt => self.execute_binary(bump, i),
            Instruction2::Gt => self.execute_binary(bump, i),
            Instruction2::Eq => self.execute_binary(bump, i),
            Instruction2::Ne => self.execute_binary(bump, i),
            _ => {
                let top = match self.pop_value(bump) {
                    Err(e) => {
                        return Err(e);
                    },
                    Ok(h) => h,
                };
                self.execute_unary(bump, i, top)
            },
        }
    }
}

} // verus!
