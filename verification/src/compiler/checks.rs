//! What a caller can test before it compiles: that the tree holds nothing
//! that cannot be compiled, and that the interning table has room for it.

use vstd::prelude::*;
use crate::interns::Interns;
use crate::irs::ast1::types::{
    BinOp, Block, Condition, Expression, Module, Pattern, Procedure, Statement,
};

verus! {

impl Interns<'_> {
    /// Whether the chain stands on nothing and starts at zero.
    pub fn plain(&self) -> (r: bool)
        ensures
            r == self.is_plain(),
    {
        self.0.is_none() && self.1.base_address == 0
    }

    /// The number of names that the chain can take for certain.
    pub fn room(&self) -> (r: usize)
        requires
            self.wf(),
        ensures
            r == usize::MAX - self@.next_id(),
            forall|n: nat| n <= r ==> #[trigger] self.has_room_for(n),
    {
        proof {
            self.lemma_base();
        }
        usize::MAX - self.1.base_address - self.1.to_string.len()
    }
}

impl Expression {
    /// What is left of `budget` after the nodes of the expression are taken
    /// from it, if it is enough for them.
    pub fn weigh(&self, budget: usize) -> (r: Option<usize>)
        ensures
            match r {
                Some(rest) => rest + self.size() == budget,
                None => self.size() > budget,
            },
        decreases self, 1int,
    {
        if budget == 0 {
            return None;
        }
        let budget = budget - 1;
        match self {
            Expression::NoOp => Some(budget),
            Expression::IntLiteral(_) => Some(budget),
            Expression::Variable(_) => Some(budget),
            Expression::Call(e) => e.weigh(budget),
            Expression::Compound(_, es) => Self::weigh_all(es, budget),
            Expression::Vector(es) => Self::weigh_all(es, budget),
            Expression::SetOf(es) => Self::weigh_all(es, budget),
            Expression::Binary(l, _, r) => match l.weigh(budget) {
                Some(rest) => r.weigh(rest),
                None => None,
            },
        }
    }

    /// What is left of `budget` after the nodes of the expressions `es` are
    /// taken from it, if it is enough for them.
    pub fn weigh_all(es: &Vec<Expression>, budget: usize) -> (r: Option<usize>)
        ensures
            match r {
                Some(rest) => rest + Self::sizes(es@, es@.len() as int) == budget,
                None => Self::sizes(es@, es@.len() as int) > budget,
            },
        decreases es, 0int,
    {
        let mut rest = budget;
        let mut k: usize = 0;
        while k < es.len()
            invariant
                k <= es@.len(),
                rest + Self::sizes(es@, k as int) == budget,
            decreases es@.len() - k,
        {
            proof {
                Self::lemma_parts(es@, k as int, es@.len() as int);
            }
            match es[k].weigh(rest) {
                Some(left) => {
                    rest = left;
                },
                None => {
                    return None;
                },
            }
            k += 1;
        }
        Some(rest)
    }

    /// Whether the expression can be compiled: whether it holds no `and`
    /// and no `or`.
    pub fn is_supported(&self) -> (r: bool)
        ensures
            r == self.supported(),
        decreases self, 1int,
    {
        match self {
            Expression::NoOp => true,
            Expression::IntLiteral(_) => true,
            Expression::Variable(_) => true,
            Expression::Call(e) => e.is_supported(),
            Expression::Compound(_, es) => Self::are_supported(es),
            Expression::Vector(es) => Self::are_supported(es),
            Expression::SetOf(es) => Self::are_supported(es),
            Expression::Binary(l, op, r) => {
                let logical = match op {
                    BinOp::And => true,
                    BinOp::Or => true,
                    _ => false,
                };
                !logical && l.is_supported() && r.is_supported()
            },
        }
    }

    /// Whether the expressions `es` can be compiled.
    pub fn are_supported(es: &Vec<Expression>) -> (r: bool)
        ensures
            r == Self::all_supported(es@, es@.len() as int),
        decreases es, 0int,
    {
        let mut k: usize = 0;
        while k < es.len()
            invariant
                k <= es@.len(),
                Self::all_supported(es@, k as int),
            decreases es@.len() - k,
        {
            if !es[k].is_supported() {
                proof {
                    Self::lemma_unsupported(es@, k as int + 1, es@.len() as int);
                }
                return false;
            }
            k += 1;
        }
        true
    }

    /// What cannot be compiled among the first of a sequence cannot be
    /// compiled among more of it.
    pub proof fn lemma_unsupported(es: Seq<Expression>, k: int, n: int)
        requires
            1 <= k <= n <= es.len(),
            !Self::all_supported(es, k),
        ensures
            !Self::all_supported(es, n),
        decreases n - k,
    {
        if k < n {
            Self::lemma_unsupported(es, k, n - 1);
        }
    }
}

impl Pattern {
    /// What is left of `budget` after the nodes of the pattern are taken
    /// from it, if it is enough for them.
    pub fn weigh(&self, budget: usize) -> (r: Option<usize>)
        ensures
            match r {
                Some(rest) => rest + self.size() == budget,
                None => self.size() > budget,
            },
        decreases self, 1int,
    {
        if budget == 0 {
            return None;
        }
        let budget = budget - 1;
        match self {
            Pattern::IntLiteral(_) => Some(budget),
            Pattern::Variable(_) => Some(budget),
            Pattern::Compound(_, ps) => Self::weigh_all(ps, budget),
            Pattern::WcCompound(ps) => Self::weigh_all(ps, budget),
            Pattern::Vector(ps) => Self::weigh_all(ps, budget),
        }
    }

    /// What is left of `budget` after the nodes of the patterns `ps` are
    /// taken from it, if it is enough for them.
    pub fn weigh_all(ps: &Vec<Pattern>, budget: usize) -> (r: Option<usize>)
        ensures
            match r {
                Some(rest) => rest + Self::sizes(ps@, ps@.len() as int) == budget,
                None => Self::sizes(ps@, ps@.len() as int) > budget,
            },
        decreases ps, 0int,
    {
        let mut rest = budget;
        let mut k: usize = 0;
        while k < ps.len()
            invariant
                k <= ps@.len(),
                rest + Self::sizes(ps@, k as int) == budget,
            decreases ps@.len() - k,
        {
            proof {
                Self::lemma_parts(ps@, k as int, ps@.len() as int);
            }
            match ps[k].weigh(rest) {
                Some(left) => {
                    rest = left;
                },
                None => {
                    return None;
                },
            }
            k += 1;
        }
        Some(rest)
    }
}

impl Condition {
    /// What is left of `budget` after the nodes of the condition are taken
    /// from it, if it is enough for them.
    pub fn weigh(&self, budget: usize) -> (r: Option<usize>)
        ensures
            match r {
                Some(rest) => rest + self.size() == budget,
                None => self.size() > budget,
            },
    {
        if budget == 0 {
            return None;
        }
        let budget = budget - 1;
        match self {
            Condition::Let(p, e) => match p.weigh(budget) {
                Some(rest) => e.weigh(rest),
                None => None,
            },
            Condition::Bare(e) => e.weigh(budget),
        }
    }

    /// Whether the condition can be compiled.
    pub fn is_supported(&self) -> (r: bool)
        ensures
            r == self.supported(),
    {
        match self {
            Condition::Let(_, e) => e.is_supported(),
            Condition::Bare(e) => e.is_supported(),
        }
    }
}

impl Statement {
    /// What is left of `budget` after the nodes of the statement are taken
    /// from it, if it is enough for them.
    pub fn weigh(&self, budget: usize) -> (r: Option<usize>)
        ensures
            match r {
                Some(rest) => rest + self.size() == budget,
                None => self.size() > budget,
            },
        decreases self, 1int,
    {
        if budget == 0 {
            return None;
        }
        let budget = budget - 1;
        match self {
            Statement::If(c, t, e) => {
                let rest = match c.weigh(budget) {
                    Some(rest) => rest,
                    None => {
                        return None;
                    },
                };
                let rest = match Self::weigh_all(&t.0, rest) {
                    Some(rest) => rest,
                    None => {
                        return None;
                    },
                };
                match e {
                    Some(b) => Self::weigh_all(&b.0, rest),
                    None => Some(rest),
                }
            },
            Statement::Assign(_, e) => e.weigh(budget),
            Statement::Destructure(p, e) => match p.weigh(budget) {
                Some(rest) => e.weigh(rest),
                None => None,
            },
            Statement::Eval(e) => e.weigh(budget),
            Statement::Ret(e) => e.weigh(budget),
        }
    }

    /// What is left of `budget` after the nodes of the statements `ss` are
    /// taken from it, if it is enough for them.
    pub fn weigh_all(ss: &Vec<Statement>, budget: usize) -> (r: Option<usize>)
        ensures
            match r {
                Some(rest) => rest + Self::sizes(ss@, ss@.len() as int) == budget,
                None => Self::sizes(ss@, ss@.len() as int) > budget,
            },
        decreases ss, 0int,
    {
        let mut rest = budget;
        let mut k: usize = 0;
        while k < ss.len()
            invariant
                k <= ss@.len(),
                rest + Self::sizes(ss@, k as int) == budget,
            decreases ss@.len() - k,
        {
            proof {
                Self::lemma_parts(ss@, k as int, ss@.len() as int);
            }
            match ss[k].weigh(rest) {
                Some(left) => {
                    rest = left;
                },
                None => {
                    return None;
                },
            }
            k += 1;
        }
        Some(rest)
    }

    /// Whether the statement can be compiled.
    pub fn is_supported(&self) -> (r: bool)
        ensures
            r == self.supported(),
        decreases self, 1int,
    {
        match self {
            Statement::If(c, t, e) => c.is_supported() && Self::are_supported(&t.0) && match e {
                Some(b) => Self::are_supported(&b.0),
                None => true,
            },
            Statement::Assign(_, e) => e.is_supported(),
            Statement::Destructure(_, e) => e.is_supported(),
            Statement::Eval(e) => e.is_supported(),
            Statement::Ret(e) => e.is_supported(),
        }
    }

    /// Whether the statements `ss` can be compiled.
    pub fn are_supported(ss: &Vec<Statement>) -> (r: bool)
        ensures
            r == Self::all_supported(ss@, ss@.len() as int),
        decreases ss, 0int,
    {
        let mut k: usize = 0;
        while k < ss.len()
            invariant
                k <= ss@.len(),
                Self::all_supported(ss@, k as int),
            decreases ss@.len() - k,
        {
            if !ss[k].is_supported() {
                proof {
                    Self::lemma_unsupported(ss@, k as int + 1, ss@.len() as int);
                }
                return false;
            }
            k += 1;
        }
        true
    }

    /// What cannot be compiled among the first of a sequence cannot be
    /// compiled among more of it.
    pub proof fn lemma_unsupported(ss: Seq<Statement>, k: int, n: int)
        requires
            1 <= k <= n <= ss.len(),
            !Self::all_supported(ss, k),
        ensures
            !Self::all_supported(ss, n),
        decreases n - k,
    {
        if k < n {
            Self::lemma_unsupported(ss, k, n - 1);
        }
    }

    /// Whether `compile_repl` accepts the statement with the table `it`: it
    /// can be compiled, and the table has room for its names.
    pub fn fits_repl(&self, it: &Interns) -> (r: bool)
        requires
            it.wf(),
        ensures
            r ==> self.supported() && it.has_room_for(1 + self.size()),
            r == (self.supported() && (it.is_plain() || 1 + self.size() <= usize::MAX
                - it@.next_id())),
    {
        if !self.is_supported() {
            return false;
        }
        if it.plain() {
            return true;
        }
        let room = it.room();
        if room == 0 {
            return false;
        }
        self.weigh(room - 1).is_some()
    }
}

impl Block {
    /// Whether the block can be compiled.
    pub fn is_supported(&self) -> (r: bool)
        ensures
            r == self.supported(),
    {
        Statement::are_supported(&self.0)
    }
}

impl Procedure {
    /// What is left of `budget` after the nodes of the procedure are taken
    /// from it, if it is enough for them.
    pub fn weigh(&self, budget: usize) -> (r: Option<usize>)
        ensures
            match r {
                Some(rest) => rest + self.size() == budget,
                None => self.size() > budget,
            },
    {
        if budget < 2 {
            return None;
        }
        match Pattern::weigh_all(&self.args, budget - 2) {
            Some(rest) => Statement::weigh_all(&self.body.0, rest),
            None => None,
        }
    }

    /// Whether the procedure can be compiled.
    pub fn is_supported(&self) -> (r: bool)
        ensures
            r == self.supported(),
    {
        self.body.is_supported()
    }

    /// Whether `compile` accepts the procedure with the table `it`.
    pub fn fits(&self, it: &Interns) -> (r: bool)
        requires
            it.wf(),
        ensures
            r == (self.supported() && it.has_room_for(self.size())),
    {
        if !self.is_supported() {
            return false;
        }
        if it.plain() {
            return true;
        }
        self.weigh(it.room()).is_some()
    }
}

impl Module {
    /// What is left of `budget` after the nodes of the module are taken
    /// from it, if it is enough for them.
    pub fn weigh(&self, budget: usize) -> (r: Option<usize>)
        ensures
            match r {
                Some(rest) => rest + self.size() == budget,
                None => self.size() > budget,
            },
    {
        let mut rest = budget;
        let mut k: usize = 0;
        while k < self.procedures.len()
            invariant
                k <= self.procedures@.len(),
                rest + Self::sizes(self.procedures@, k as int) == budget,
            decreases self.procedures@.len() - k,
        {
            proof {
                Self::lemma_parts(self.procedures@, k as int, self.procedures@.len() as int);
            }
            match self.procedures[k].weigh(rest) {
                Some(left) => {
                    rest = left;
                },
                None => {
                    return None;
                },
            }
            k += 1;
        }
        Some(rest)
    }

    /// Whether the module can be compiled.
    pub fn is_supported(&self) -> (r: bool)
        ensures
            r == self.supported(),
    {
        let mut k: usize = 0;
        while k < self.procedures.len()
            invariant
                k <= self.procedures@.len(),
                Self::all_supported(self.procedures@, k as int),
            decreases self.procedures@.len() - k,
        {
            if !self.procedures[k].is_supported() {
                proof {
                    Self::lemma_unsupported(
                        self.procedures@,
                        k as int + 1,
                        self.procedures@.len() as int,
                    );
                }
                return false;
            }
            k += 1;
        }
        true
    }

    /// What cannot be compiled among the first of a sequence cannot be
    /// compiled among more of it.
    pub proof fn lemma_unsupported(ps: Seq<Procedure>, k: int, n: int)
        requires
            1 <= k <= n <= ps.len(),
            !Self::all_supported(ps, k),
        ensures
            !Self::all_supported(ps, n),
        decreases n - k,
    {
        if k < n {
            Self::lemma_unsupported(ps, k, n - 1);
        }
    }

    /// Whether `compile_into` accepts the module with the table `it`, and
    /// `compile` with a library that adds `names` names.
    pub fn fits(&self, it: &Interns, names: usize) -> (r: bool)
        requires
            it.wf(),
        ensures
            r == (self.supported() && it.has_room_for(names as nat + self.size())),
    {
        if !self.is_supported() {
            return false;
        }
        if it.plain() {
            return true;
        }
        let room = it.room();
        if room < names {
            proof {
                assert(self.size() >= 0);
            }
            return false;
        }
        self.weigh(room - names).is_some()
    }
}

} // verus!
