//! Lowering of procedures.

use vstd::prelude::*;
use crate::compiler::{grown, Lowered, Lowering};
use crate::errors::compiler::{Compiler, Error, Problem};
use crate::interns::{Intern, InternTable, Interns};
use crate::irs::ast1::types::{Pattern, Procedure, Statement};
use crate::irs::instruction1::Instruction1;
use crate::irs::instruction2::Instruction2;
use crate::irs::procedure1::{Procedure1, Script};
use crate::irs::procedure2::Procedure2;
use crate::primitive::Functor;

verus! {

/// What a compiled procedure is made of.
pub struct Compiled {
    pub functor: Functor<Intern>,
    pub code: Seq<Instruction2>,
    pub vars: usize,
}

impl Procedure2 {
    /// What the procedure is made of.
    pub open spec fn compiled(&self) -> Compiled {
        Compiled { functor: self.functor, code: self.instructions@, vars: self.vars }
    }
}

impl Script {
    /// The finished procedure of a script, or the first label without an
    /// anchor.
    pub open spec fn finished(self) -> Result<Compiled, Error> {
        match self.resolved(self.code.len() as int) {
            Ok(code) => Ok(
                Compiled { functor: self.functor, code, vars: self.locals.len() as usize },
            ),
            Err(e) => Err(e),
        }
    }
}

impl Procedure {
    /// The functor of the procedure: its name in the table `t`, and the
    /// number of its arguments.
    pub open spec fn functor(&self, t: InternTable) -> Functor<Intern> {
        Functor(t.id_of(self.name@), self.args@.len() as usize)
    }

    /// The state after the procedure was lowered into an empty script. The
    /// code starts with the prologue, which takes the one operand of the
    /// frame apart into the arguments, whatever its tag; the body follows.
    pub open spec fn lowered(&self, t: InternTable) -> Lowered {
        let s0 = Lowering { table: t.intern(self.name@), script: Script::empty(self.functor(t)) };
        let s1 = Pattern::lowered_all(
            self.args@,
            self.args@.len() as int,
            s0.emit(Instruction1::Destruct(self.args@.len() as usize)),
        );
        Statement::lowered_all(self.body.0@, self.body.0@.len() as int, s1)
    }

    /// The compiled procedure, or the error that lowering or the resolution
    /// of the labels ends with.
    pub open spec fn compiled(&self, t: InternTable) -> Result<Compiled, Error> {
        let l = self.lowered(t);
        match l.error {
            Some(e) => Err(e),
            None => l.state.script.finished(),
        }
    }

    /// The name of the argument `i`, if that argument is a variable.
    pub open spec fn arg_name(args: Seq<Pattern>, i: int) -> Option<Seq<char>> {
        match args[i] {
            Pattern::Variable(n) => Some(n@),
            _ => None,
        }
    }

    /// Whether the argument `j` is a variable that an earlier argument is too.
    pub open spec fn repeats(args: Seq<Pattern>, j: int) -> bool {
        Self::arg_name(args, j) is Some && exists|i: int|
            0 <= i < j && Self::arg_name(args, i) == Self::arg_name(args, j)
    }

    /// The name of the first among the first `n` arguments that is a
    /// variable for the second time, if there is one.
    pub open spec fn duplicated(args: Seq<Pattern>, n: int) -> Option<Seq<char>>
        decreases n,
    {
        if n <= 0 || n > args.len() {
            None
        } else {
            match Self::duplicated(args, n - 1) {
                Some(name) => Some(name),
                None => if Self::repeats(args, n - 1) {
                    Self::arg_name(args, n - 1)
                } else {
                    None
                },
            }
        }
    }

    /// What compiling the procedure comes to: the failure for an argument
    /// name that occurs twice, else what lowering and resolution come to.
    pub open spec fn outcome(&self, t: InternTable) -> Result<Compiled, Problem> {
        match Self::duplicated(self.args@, self.args@.len() as int) {
            Some(name) => Err(Problem::DuplicatedArg(name)),
            None => match self.compiled(t) {
                Ok(c) => Ok(c),
                Err(e) => Err(e@),
            },
        }
    }

    /// The interning table after the procedure was compiled: untouched if
    /// an argument name occurs twice.
    pub open spec fn table_after(&self, t: InternTable) -> InternTable {
        if Self::duplicated(self.args@, self.args@.len() as int) is Some {
            t
        } else {
            self.lowered(t).state.table
        }
    }

    /// Whether the argument `j` is a variable that an earlier argument is too.
    fn is_repeated(args: &Vec<Pattern>, j: usize) -> (r: bool)
        requires
            j < args@.len(),
        ensures
            r == Self::repeats(args@, j as int),
    {
        let name = match &args[j] {
            Pattern::Variable(n) => n,
            _ => {
                return false;
            },
        };
        let mut i: usize = 0;
        while i < j
            invariant
                i <= j < args@.len(),
                args@[j as int] == Pattern::Variable(*name),
                forall|k: int| 0 <= k < i ==> Self::arg_name(args@, k) != Some(name@),
            decreases j - i,
        {
            match &args[i] {
                Pattern::Variable(n) => {
                    if *n == *name {
                        assert(Self::arg_name(args@, i as int) == Self::arg_name(args@, j as int));
                        return true;
                    }
                },
                _ => {},
            }
            i += 1;
        }
        false
    }

    /// The name of the first argument that is a variable for the second
    /// time, if there is one.
    pub fn duplicated_arg(&self) -> (r: Option<String>)
        ensures
            match r {
                Some(name) => Self::duplicated(self.args@, self.args@.len() as int) == Some(name@),
                None => Self::duplicated(self.args@, self.args@.len() as int) is None,
            },
    {
        let mut j: usize = 0;
        while j < self.args.len()
            invariant
                j <= self.args@.len(),
                Self::duplicated(self.args@, j as int) is None,
            decreases self.args@.len() - j,
        {
            if Self::is_repeated(&self.args, j) {
                let name = match &self.args[j] {
                    Pattern::Variable(n) => n.clone(),
                    _ => String::new(),
                };
                proof {
                    assert(Self::duplicated(self.args@, j + 1) == Some(name@));
                    Self::lemma_duplicated(self.args@, j + 1, self.args@.len() as int);
                }
                return Some(name);
            }
            j += 1;
        }
        None
    }

    /// Once an argument name is found twice, it stays the first that is.
    pub proof fn lemma_duplicated(args: Seq<Pattern>, k: int, n: int)
        requires
            1 <= k <= n <= args.len(),
            Self::duplicated(args, k) is Some,
        ensures
            Self::duplicated(args, n) == Self::duplicated(args, k),
        decreases n - k,
    {
        if k < n {
            Self::lemma_duplicated(args, k, n - 1);
        }
    }

    /// Compiles the procedure: lowers the prologue and the body into a new
    /// script and resolves the labels. Two arguments that are the same
    /// variable are an error.
    pub fn compile(&self, it: &mut Interns) -> (r: Compiler<Procedure2>)
        requires
            self.supported(),
            old(it).wf(),
            old(it).has_room_for(self.size()),
        ensures
            grown(old(it), final(it), self.size()),
            final(it)@ == self.table_after(old(it)@),
            match r {
                Ok(p) => self.outcome(old(it)@) == Ok::<Compiled, Problem>(p.compiled()) && p.wf()
                    && p.addressed(),
                Err(e) => self.outcome(old(it)@) == Err::<Compiled, Problem>(e@),
            },
            3 * self.size() <= usize::MAX && Self::duplicated(
                self.args@,
                self.args@.len() as int,
            ) is None ==> r is Ok,
    {
        proof {
            if 3 * self.size() <= usize::MAX {
                self.law_compiles(it@);
            }
        }
        match self.duplicated_arg() {
            Some(name) => {
                return Err(Error::DuplicatedArg(name));
            },
            None => {},
        }
        let tag = it.intern(self.name.as_str());
        let mut pp = Procedure1::new(Functor(tag, self.args.len()));
        pp.push(Instruction1::Destruct(self.args.len()));
        Pattern::compile_all(&self.args, it, &mut pp);
        match self.body.compile(it, &mut pp) {
            Ok(_) => {},
            Err(e) => {
                return Err(e);
            },
        }
        pp.compile()
    }
}

} // verus!
