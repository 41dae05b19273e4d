//! What a read-eval-print loop keeps between two statements: the variables
//! that earlier statements have bound.

use vstd::prelude::*;
use vstd::hash_map::StringHashMap;
use crate::primitive::{Term, Value};

verus! {

/// The variables of a session, by name.
pub struct Scope {
    values: StringHashMap<Value>,
}

impl View for Scope {
    type V = Map<Seq<char>, Term>;

    closed spec fn view(&self) -> Map<Seq<char>, Term> {
        Map::new(
            |s: Seq<char>| self.values@.contains_key(s),
            |s: Seq<char>| self.values@[s]@,
        )
    }
}

/// The scope after the variables of one statement were taken in: of the
/// first `n` names, each that has a value is bound to that value.
pub open spec fn absorbed(
    scope: Map<Seq<char>, Term>,
    names: Seq<Seq<char>>,
    vars: Seq<Option<Term>>,
    n: int,
) -> Map<Seq<char>, Term>
    decreases n,
{
    if n <= 0 || n > names.len() {
        scope
    } else {
        let before = absorbed(scope, names, vars, n - 1);
        if n - 1 < vars.len() {
            match vars[n - 1] {
                Some(v) => before.insert(names[n - 1], v),
                None => before,
            }
        } else {
            before
        }
    }
}

/// The views of a sequence of strings.
pub open spec fn name_views(names: Seq<String>) -> Seq<Seq<char>> {
    Seq::new(names.len(), |i: int| names[i]@)
}

impl Scope {
    /// A scope without variables.
    pub fn new() -> (r: Scope)
        ensures
            r@ == Map::<Seq<char>, Term>::empty(),
    {
        let r = Scope { values: StringHashMap::new() };
        assert(r@ =~= Map::<Seq<char>, Term>::empty());
        r
    }

    /// The value of the variable `name`, if it has one.
    pub fn get(&self, name: &str) -> (r: Option<&Value>)
        ensures
            match r {
                Some(v) => self@.contains_key(name@) && self@[name@] == v@,
                None => !self@.contains_key(name@),
            },
    {
        self.values.get(name)
    }

    /// Binds the variable `name` to `value`, whatever it was bound to.
    pub fn insert(&mut self, name: String, value: Value)
        ensures
            final(self)@ == old(self)@.insert(name@, value@),
    {
        self.values.insert(name, value);
        assert(self@ =~= old(self)@.insert(name@, value@));
    }

    /// Takes in the variables of a statement that has run: `names` are the
    /// names of its slots and `vars` what the slots held at the end. A slot
    /// that is bound gives its variable a new value; a slot that is not
    /// leaves its variable as it was.
    pub fn absorb(&mut self, names: &Vec<String>, vars: Vec<Option<Value>>)
        ensures
            final(self)@ == absorbed(
                old(self)@,
                name_views(names@),
                crate::vm::value_terms(vars@),
                names@.len() as int,
            ),
    {
        let ghost ns = name_views(names@);
        let ghost vs = crate::vm::value_terms(vars@);
        let mut vars = vars;
        let mut k: usize = 0;
        while k < names.len()
            invariant
                k <= names@.len(),
                ns == name_views(names@),
                vars@.len() == vs.len(),
                forall|j: int| k <= j < vars@.len() ==> crate::vm::value_terms(vars@)[j] == vs[j],
                self@ == absorbed(old(self)@, ns, vs, k as int),
            decreases names@.len() - k,
        {
            if k < vars.len() {
                let mut extracted: Option<Value> = None;
                let ghost vb = vars@;
                std::mem::swap(&mut extracted, &mut vars[k]);
                proof {
                    assert(crate::vm::value_terms(vb)[k as int] == vs[k as int]);
                    assert forall|j: int| k + 1 <= j < vars@.len() implies crate::vm::value_terms(
                        vars@,
                    )[j] == vs[j] by {
                        assert(vars@[j] == vb[j]);
                        assert(crate::vm::value_terms(vb)[j] == vs[j]);
                    }
                }
                if let Some(value) = extracted {
                    self.insert(names[k].clone(), value);
                }
            }
            k += 1;
        }
    }
}

} // verus!
