//! The values of the language as a host sees them, and the small types that
//! instructions carry.

use vstd::prelude::*;
use crate::interns::Intern;

verus! {

/// The identity of a compound term or of a procedure: its tag and its arity.
#[derive(Copy, Clone, Debug, PartialEq, Eq, Structural)]
pub struct Functor<TInt>(pub TInt, pub usize);

/// The index of a local variable slot in a frame.
#[derive(Clone, Copy, Debug, PartialEq, Eq, Structural)]
pub struct Local(pub usize);

/// A constant that an instruction carries.
#[derive(Clone, Copy, Debug, PartialEq, Eq, Structural)]
pub enum Operand {
    Integer(i64),
    Bool(bool),
}

/// The mathematical value that both representations of a value stand for.
///
/// A set is held as the sequence of its members in ascending order.
pub enum Term {
    Integer(i64),
    Bool(bool),
    Compound(Intern, Seq<Term>),
    Vector(Seq<Term>),
    SetOf(Seq<Term>),
}

/// A value of the language, owned by the host.
///
/// Two compounds with the same tag and different argument counts are
/// different values. The members of a set are kept in a vector, in any
/// order and any number of times: the machine puts a set in order when it
/// takes a value in, and hands its sets out in ascending order.
#[derive(Debug, PartialEq, Eq)]
pub enum Value {
    Integer(i64),
    Bool(bool),
    Compound(Intern, Vec<Value>),
    Vector(Vec<Value>),
    SetOf(Vec<Value>),
}

impl Operand {
    /// The value that the constant denotes.
    pub open spec fn term(self) -> Term {
        match self {
            Operand::Integer(i) => Term::Integer(i),
            Operand::Bool(b) => Term::Bool(b),
        }
    }
}

impl Value {
    /// The terms of a sequence of values, one for one.
    pub open spec fn terms(vs: Seq<Value>) -> Seq<Term> {
        Seq::new(vs.len(), |i: int| vs[i]@)
    }

    /// The parts of a compound, a vector or a set; none for a scalar.
    pub open spec fn parts(&self) -> Seq<Value> {
        match self {
            Value::Integer(_) => Seq::empty(),
            Value::Bool(_) => Seq::empty(),
            Value::Compound(_, vs) => vs@,
            Value::Vector(vs) => vs@,
            Value::SetOf(vs) => vs@,
        }
    }

    /// The view of a value is its head over the views of its parts. A
    /// caller that builds a value learns from this what the value stands for.
    pub proof fn law_view(&self)
        ensures
            self is Integer ==> self@ == Term::Integer(self->Integer_0),
            self is Bool ==> self@ == Term::Bool(self->Bool_0),
            self is Compound ==> self@ == Term::Compound(
                self->Compound_0,
                Self::terms(self.parts()),
            ),
            self is Vector ==> self@ == Term::Vector(Self::terms(self.parts())),
            self is SetOf ==> self@ == Term::SetOf(Self::terms(self.parts())),
    {
        reveal_with_fuel(<Value as View>::view, 2);
        if self is Compound {
            assert(self@->Compound_1 =~= Self::terms(self->Compound_1@));
        } else if self is Vector {
            assert(self@->Vector_0 =~= Self::terms(self->Vector_0@));
        } else if self is SetOf {
            assert(self@->SetOf_0 =~= Self::terms(self->SetOf_0@));
        }
    }

    /// A copy of the value.
    pub fn duplicate(&self) -> (r: Value)
        ensures
            r@ == self@,
        decreases self,
    {
        match self {
            Value::Integer(i) => Value::Integer(*i),
            Value::Bool(b) => Value::Bool(*b),
            Value::Compound(tag, vs) => {
                let mut vs2: Vec<Value> = Vec::with_capacity(vs.len());
                let mut k: usize = 0;
                while k < vs.len()
                    invariant
                        k <= vs@.len(),
                        vs2@.len() == k,
                        self is Compound && self->Compound_1 == *vs,
                        forall|j: int| 0 <= j < k ==> vs2@[j]@ == vs@[j]@,
                    decreases vs@.len() - k,
                {
                    vs2.push(vs[k].duplicate());
                    k += 1;
                }
                let r = Value::Compound(*tag, vs2);
                assert(r@->Compound_1 =~= self@->Compound_1);
                r
            },
            Value::Vector(vs) => {
                let mut vs2: Vec<Value> = Vec::with_capacity(vs.len());
                let mut k: usize = 0;
                while k < vs.len()
                    invariant
                        k <= vs@.len(),
                        vs2@.len() == k,
                        self is Vector && self->Vector_0 == *vs,
                        forall|j: int| 0 <= j < k ==> vs2@[j]@ == vs@[j]@,
                    decreases vs@.len() - k,
                {
                    vs2.push(vs[k].duplicate());
                    k += 1;
                }
                let r = Value::Vector(vs2);
                assert(r@->Vector_0 =~= self@->Vector_0);
                r
            },
            Value::SetOf(vs) => {
                let mut vs2: Vec<Value> = Vec::with_capacity(vs.len());
                let mut k: usize = 0;
                while k < vs.len()
                    invariant
                        k <= vs@.len(),
                        vs2@.len() == k,
                        self is SetOf && self->SetOf_0 == *vs,
                        forall|j: int| 0 <= j < k ==> vs2@[j]@ == vs@[j]@,
                    decreases vs@.len() - k,
                {
                    vs2.push(vs[k].duplicate());
                    k += 1;
                }
                let r = Value::SetOf(vs2);
                assert(r@->SetOf_0 =~= self@->SetOf_0);
                r
            },
        }
    }
}

impl Clone for Value {
    /// A copy of the value.
    fn clone(&self) -> (r: Value)
        ensures
            r@ == self@,
    {
        self.duplicate()
    }
}

impl View for Value {
    type V = Term;

    open spec fn view(&self) -> Term
        decreases self,
    {
        match self {
            Value::Integer(i) => Term::Integer(*i),
            Value::Bool(b) => Term::Bool(*b),
            Value::Compound(tag, vs) => Term::Compound(
                *tag,
                Seq::new(
                    vs@.len(),
                    |i: int| if 0 <= i < vs@.len() { vs@[i]@ } else { Term::Bool(false) },
                ),
            ),
            Value::Vector(vs) => Term::Vector(
                Seq::new(
                    vs@.len(),
                    |i: int| if 0 <= i < vs@.len() { vs@[i]@ } else { Term::Bool(false) },
                ),
            ),
            Value::SetOf(vs) => Term::SetOf(
                Seq::new(
                    vs@.len(),
                    |i: int| if 0 <= i < vs@.len() { vs@[i]@ } else { Term::Bool(false) },
                ),
            ),
        }
    }
}

} // verus!
