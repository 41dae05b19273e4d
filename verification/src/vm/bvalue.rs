//! The values of the language as the machine holds them.

use vstd::prelude::*;
use crate::bump::Bump;
use crate::bump::traits::BumpClone;
use crate::interns::Intern;
use crate::primitive::{Term, Value};
use crate::satc::Satc;
use crate::vm::order::{lemma_normal_all, make_set, normal, normal_all};

verus! {

/// A value in its runtime form. It owns its parts; what is shared between
/// two places of the machine is shared through a handle.
#[derive(Debug)]
pub enum BValue {
    Integer(i64),
    Bool(bool),
    Compound(Intern, Vec<BValue>),
    Vector(Vec<BValue>),
    SetOf(Vec<BValue>),
}

/// A handle to a runtime value.
pub type SBV = Satc;

impl View for BValue {
    type V = Term;

    open spec fn view(&self) -> Term
        decreases self,
    {
        match self {
            BValue::Integer(i) => Term::Integer(*i),
            BValue::Bool(b) => Term::Bool(*b),
            BValue::Compound(tag, vs) => Term::Compound(
                *tag,
                Seq::new(
                    vs@.len(),
                    |i: int| if 0 <= i < vs@.len() { vs@[i]@ } else { Term::Bool(false) },
                ),
            ),
            BValue::Vector(vs) => Term::Vector(
                Seq::new(
                    vs@.len(),
                    |i: int| if 0 <= i < vs@.len() { vs@[i]@ } else { Term::Bool(false) },
                ),
            ),
            BValue::SetOf(vs) => Term::SetOf(
                Seq::new(
                    vs@.len(),
                    |i: int| if 0 <= i < vs@.len() { vs@[i]@ } else { Term::Bool(false) },
                ),
            ),
        }
    }
}

impl BValue {
    /// The terms of a sequence of runtime values, one for one.
    pub open spec fn terms(vs: Seq<BValue>) -> Seq<Term> {
        Seq::new(vs.len(), |i: int| vs[i]@)
    }

    /// The parts of a compound, a vector or a set; none for a scalar.
    pub open spec fn parts(&self) -> Seq<BValue> {
        match self {
            BValue::Integer(_) => Seq::empty(),
            BValue::Bool(_) => Seq::empty(),
            BValue::Compound(_, vs) => vs@,
            BValue::Vector(vs) => vs@,
            BValue::SetOf(vs) => vs@,
        }
    }

    /// The view of a value is its head over the views of its parts.
    pub proof fn lemma_view(&self)
        ensures
            self is Integer ==> self@ == Term::Integer(self->Integer_0),
            self is Bool ==> self@ == Term::Bool(self->Bool_0),
            self is Compound ==> self@ == Term::Compound(
                self->Compound_0,
                Self::terms(self.parts()),
            ),
            self is Vector ==> self@ == Term::Vector(Self::terms(self.parts())),
            self is SetOf ==> self@ == Term::SetOf(Self::terms(self.parts())),
    {
        reveal_with_fuel(<BValue as View>::view, 2);
        if self is Compound {
            assert(self@->Compound_1 =~= Self::terms(self->Compound_1@));
        } else if self is Vector {
            assert(self@->Vector_0 =~= Self::terms(self->Vector_0@));
        } else if self is SetOf {
            assert(self@->SetOf_0 =~= Self::terms(self->SetOf_0@));
        }
    }

    /// The runtime form of a host value. The members of a set may come in
    /// any order, and more than once: the set is put in order here.
    pub fn lower(bump: &Bump, v: &Value) -> (r: BValue)
        ensures
            r@ == normal(v@),
        decreases v,
    {
        proof {
            v.law_view();
            lemma_normal_all(Value::terms(v.parts()), v.parts().len() as int);
        }
        match v {
            Value::Integer(i) => BValue::Integer(*i),
            Value::Bool(b) => BValue::Bool(*b),
            Value::Compound(tag, vs) => {
                let mut vs2: Vec<BValue> = Vec::with_capacity(vs.len());
                let mut k: usize = 0;
                while k < vs.len()
                    invariant
                        k <= vs@.len(),
                        vs2@.len() == k,
                        v is Compound && v->Compound_1 == *vs,
                        forall|j: int| 0 <= j < k ==> vs2@[j]@ == normal(vs@[j]@),
                    decreases vs@.len() - k,
                {
                    vs2.push(BValue::lower(bump, &vs[k]));
                    k += 1;
                }
                let r = BValue::Compound(*tag, vs2);
                proof {
                    r.lemma_view();
                    assert(Self::terms(vs2@) =~= normal_all(
                        Value::terms(vs@),
                        vs@.len() as int,
                    ));
                }
                r
            },
            Value::Vector(vs) => {
                let mut vs2: Vec<BValue> = Vec::with_capacity(vs.len());
                let mut k: usize = 0;
                while k < vs.len()
                    invariant
                        k <= vs@.len(),
                        vs2@.len() == k,
                        v is Vector && v->Vector_0 == *vs,
                        forall|j: int| 0 <= j < k ==> vs2@[j]@ == normal(vs@[j]@),
                    decreases vs@.len() - k,
                {
                    vs2.push(BValue::lower(bump, &vs[k]));
                    k += 1;
                }
                let r = BValue::Vector(vs2);
                proof {
                    r.lemma_view();
                    assert(Self::terms(vs2@) =~= normal_all(
                        Value::terms(vs@),
                        vs@.len() as int,
                    ));
                }
                r
            },
            Value::SetOf(vs) => {
                let mut vs2: Vec<BValue> = Vec::with_capacity(vs.len());
                let mut k: usize = 0;
                while k < vs.len()
                    invariant
                        k <= vs@.len(),
                        vs2@.len() == k,
                        v is SetOf && v->SetOf_0 == *vs,
                        forall|j: int| 0 <= j < k ==> vs2@[j]@ == normal(vs@[j]@),
                    decreases vs@.len() - k,
                {
                    vs2.push(BValue::lower(bump, &vs[k]));
                    k += 1;
                }
                proof {
                    assert(Self::terms(vs2@) =~= normal_all(
                        Value::terms(vs@),
                        vs@.len() as int,
                    ));
                }
                let r = BValue::SetOf(make_set(vs2));
                proof {
                    r.lemma_view();
                }
                r
            },
        }
    }

    /// The host form of a runtime value.
    pub fn raise(v: &BValue) -> (r: Value)
        ensures
            r@ == v@,
        decreases v,
    {
        match v {
            BValue::Integer(i) => Value::Integer(*i),
            BValue::Bool(b) => Value::Bool(*b),
            BValue::Compound(tag, vs) => {
                let mut vs2: Vec<Value> = Vec::new();
                let mut k: usize = 0;
                while k < vs.len()
                    invariant
                        k <= vs@.len(),
                        vs2@.len() == k,
                        v is Compound && v->Compound_1 == *vs,
                        forall|j: int| 0 <= j < k ==> vs2@[j]@ == vs@[j]@,
                    decreases vs@.len() - k,
                {
                    vs2.push(BValue::raise(&vs[k]));
                    k += 1;
                }
                let r = Value::Compound(*tag, vs2);
                assert(r@->Compound_1 =~= v@->Compound_1);
                r
            },
            BValue::Vector(vs) => {
                let mut vs2: Vec<Value> = Vec::new();
                let mut k: usize = 0;
                while k < vs.len()
                    invariant
                        k <= vs@.len(),
                        vs2@.len() == k,
                        v is Vector && v->Vector_0 == *vs,
                        forall|j: int| 0 <= j < k ==> vs2@[j]@ == vs@[j]@,
                    decreases vs@.len() - k,
                {
                    vs2.push(BValue::raise(&vs[k]));
                    k += 1;
                }
                let r = Value::Vector(vs2);
                assert(r@->Vector_0 =~= v@->Vector_0);
                r
            },
            BValue::SetOf(vs) => {
                let mut vs2: Vec<Value> = Vec::new();
                let mut k: usize = 0;
                while k < vs.len()
                    invariant
                        k <= vs@.len(),
                        vs2@.len() == k,
                        v is SetOf && v->SetOf_0 == *vs,
                        forall|j: int| 0 <= j < k ==> vs2@[j]@ == vs@[j]@,
                    decreases vs@.len() - k,
                {
                    vs2.push(BValue::raise(&vs[k]));
                    k += 1;
                }
                let r = Value::SetOf(vs2);
                assert(r@->SetOf_0 =~= v@->SetOf_0);
                r
            },
        }
    }

    /// Moves the value out and leaves its head behind: the result is what
    /// `self` was, and `self` keeps the kind and the tag, with no parts.
    pub fn clonesume(&mut self, bump: &Bump) -> (r: BValue)
        ensures
            r@ == old(self)@,
            final(self)@ == Self::hollow(old(self)@),
    {
        proof {
            old(self).lemma_view();
        }
        let r = match self {
            BValue::Integer(i) => BValue::Integer(*i),
            BValue::Bool(b) => BValue::Bool(*b),
            BValue::Compound(tag, vs) => {
                let mut tmp: Vec<BValue> = Vec::new();
                std::mem::swap(vs, &mut tmp);
                BValue::Compound(*tag, tmp)
            },
            BValue::Vector(vs) => {
                let mut tmp: Vec<BValue> = Vec::new();
                std::mem::swap(vs, &mut tmp);
                BValue::Vector(tmp)
            },
            BValue::SetOf(vs) => {
                let mut tmp: Vec<BValue> = Vec::new();
                std::mem::swap(vs, &mut tmp);
                BValue::SetOf(tmp)
            },
        };
        proof {
            r.lemma_view();
            self.lemma_view();
            assert(Self::terms(self.parts()) =~= Seq::<Term>::empty());
        }
        r
    }

    /// A term of the same kind and tag, with no parts.
    pub open spec fn hollow(t: Term) -> Term {
        match t {
            Term::Integer(i) => t,
            Term::Bool(b) => t,
            Term::Compound(tag, _) => Term::Compound(tag, Seq::empty()),
            Term::Vector(_) => Term::Vector(Seq::empty()),
            Term::SetOf(_) => Term::SetOf(Seq::empty()),
        }
    }

    /// Whether two values are the same value.
    pub fn equals(&self, other: &BValue) -> (r: bool)
        ensures
            r == (self@ == other@),
        decreases self, 1int,
    {
        proof {
            self.lemma_view();
            other.lemma_view();
        }
        match (self, other) {
            (BValue::Integer(a), BValue::Integer(b)) => *a == *b,
            (BValue::Bool(a), BValue::Bool(b)) => *a == *b,
            (BValue::Compound(t1, xs), BValue::Compound(t2, ys)) => {
                if t1.0 != t2.0 {
                    return false;
                }
                Self::all_equal(self, xs, ys)
            },
            (BValue::Vector(xs), BValue::Vector(ys)) => Self::all_equal(self, xs, ys),
            (BValue::SetOf(xs), BValue::SetOf(ys)) => Self::all_equal(self, xs, ys),
            _ => false,
        }
    }

    /// Whether two sequences of values are the same, part for part.
    fn all_equal(whole: &BValue, xs: &Vec<BValue>, ys: &Vec<BValue>) -> (r: bool)
        requires
            whole.parts() == xs@,
        ensures
            r == (Self::terms(xs@) == Self::terms(ys@)),
        decreases whole, 0int,
    {
        if xs.len() != ys.len() {
            assert(Self::terms(xs@).len() != Self::terms(ys@).len());
            return false;
        }
        let mut k: usize = 0;
        while k < xs.len()
            invariant
                k <= xs@.len(),
                xs@.len() == ys@.len(),
                whole.parts() == xs@,
                forall|j: int| 0 <= j < k ==> xs@[j]@ == ys@[j]@,
            decreases xs@.len() - k,
        {
            proof {
                match whole {
                    BValue::Compound(_, vs) => {
                        assert(vs@[k as int] == xs@[k as int]);
                        assert(decreases_to!(whole => vs[k as int]));
                    },
                    BValue::Vector(vs) => {
                        assert(vs@[k as int] == xs@[k as int]);
                        assert(decreases_to!(whole => vs[k as int]));
                    },
                    BValue::SetOf(vs) => {
                        assert(vs@[k as int] == xs@[k as int]);
                        assert(decreases_to!(whole => vs[k as int]));
                    },
                    _ => {},
                }
            }
            if !xs[k].equals(&ys[k]) {
                assert(Self::terms(xs@)[k as int] != Self::terms(ys@)[k as int]);
                return false;
            }
            k += 1;
        }
        assert(Self::terms(xs@) =~= Self::terms(ys@));
        true
    }
}

impl BumpClone for BValue {
    /// A copy of the value that shares nothing with it.
    fn bclone(&self, bump: &Bump) -> (r: BValue)
        decreases self,
    {
        match self {
            BValue::Integer(i) => BValue::Integer(*i),
            BValue::Bool(b) => BValue::Bool(*b),
            BValue::Compound(tag, vs) => {
                let mut vs2: Vec<BValue> = Vec::with_capacity(vs.len());
                let mut k: usize = 0;
                while k < vs.len()
                    invariant
                        k <= vs@.len(),
                        vs2@.len() == k,
                        self is Compound && self->Compound_1 == *vs,
                        forall|j: int| 0 <= j < k ==> vs2@[j]@ == vs@[j]@,
                    decreases vs@.len() - k,
                {
                    vs2.push(vs[k].bclone(bump));
                    k += 1;
                }
                let r = BValue::Compound(*tag, vs2);
                assert(r@->Compound_1 =~= self@->Compound_1);
                r
            },
            BValue::Vector(vs) => {
                let mut vs2: Vec<BValue> = Vec::with_capacity(vs.len());
                let mut k: usize = 0;
                while k < vs.len()
                    invariant
                        k <= vs@.len(),
                        vs2@.len() == k,
                        self is Vector && self->Vector_0 == *vs,
                        forall|j: int| 0 <= j < k ==> vs2@[j]@ == vs@[j]@,
                    decreases vs@.len() - k,
                {
                    vs2.push(vs[k].bclone(bump));
                    k += 1;
                }
                let r = BValue::Vector(vs2);
                assert(r@->Vector_0 =~= self@->Vector_0);
                r
            },
            BValue::SetOf(vs) => {
                let mut vs2: Vec<BValue> = Vec::with_capacity(vs.len());
                let mut k: usize = 0;
                while k < vs.len()
                    invariant
                        k <= vs@.len(),
                        vs2@.len() == k,
                        self is SetOf && self->SetOf_0 == *vs,
                        forall|j: int| 0 <= j < k ==> vs2@[j]@ == vs@[j]@,
                    decreases vs@.len() - k,
                {
                    vs2.push(vs[k].bclone(bump));
                    k += 1;
                }
                let r = BValue::SetOf(vs2);
                assert(r@->SetOf_0 =~= self@->SetOf_0);
                r
            },
        }
    }
}

} // verus!
