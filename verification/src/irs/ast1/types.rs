use vstd::prelude::*;

verus! {

/// A program: a list of procedures.
#[derive(Debug)]
pub struct Module {
    pub procedures: Vec<Procedure>,
}

/// A procedure: a name, the patterns of its arguments, and a body.
#[derive(Debug)]
pub struct Procedure {
    pub name: String,
    pub args: Vec<Pattern>,
    pub body: Block,
}

/// A sequence of statements.
#[derive(Debug)]
pub struct Block(pub Vec<Statement>);

#[derive(Debug)]
pub enum Statement {
    /// A conditional, with or without an else branch.
    If(Condition, Block, Option<Block>),
    /// An assignment to a variable, whatever it held.
    Assign(String, Expression),
    /// A binding of a pattern to a value; it must match.
    Destructure(Pattern, Expression),
    /// An expression evaluated for its effect.
    Eval(Expression),
    /// A return from the procedure.
    Ret(Expression),
}

#[derive(Debug)]
pub enum Pattern {
    IntLiteral(i64),
    Variable(String),
    /// A compound of this tag, with a pattern for each argument.
    Compound(String, Vec<Pattern>),
    /// A compound of any tag, or a vector, with a pattern for each part.
    WcCompound(Vec<Pattern>),
    Vector(Vec<Pattern>),
}

#[derive(Debug)]
pub enum Condition {
    /// The condition holds if the value matches the pattern.
    Let(Pattern, Expression),
    /// The condition holds if the value is `true`.
    Bare(Expression),
}

#[derive(Debug)]
pub enum Expression {
    /// The value that is on top of the stack already.
    NoOp,
    IntLiteral(i64),
    Variable(String),
    /// A call of the procedure that the compound names.
    Call(Box<Expression>),
    Compound(String, Vec<Expression>),
    Vector(Vec<Expression>),
    SetOf(Vec<Expression>),
    Binary(Box<Expression>, BinOp, Box<Expression>),
}

#[derive(Clone, Copy, Debug, PartialEq, Eq, Structural)]
pub enum BinOp {
    And,
    Or,
    Multiply,
    Divide,
    Add,
    Subtract,
    Le,
    Ge,
    Lt,
    Gt,
    Eq,
    Ne,
}

impl Expression {
    /// The number of nodes of the expression.
    pub open spec fn size(&self) -> nat
        decreases self, 0int,
    {
        match self {
            Expression::NoOp => 1,
            Expression::IntLiteral(_) => 1,
            Expression::Variable(_) => 1,
            Expression::Call(e) => 1 + e.size(),
            Expression::Compound(_, es) => 1 + Self::sizes(es@, es@.len() as int),
            Expression::Vector(es) => 1 + Self::sizes(es@, es@.len() as int),
            Expression::SetOf(es) => 1 + Self::sizes(es@, es@.len() as int),
            Expression::Binary(l, _, r) => 1 + l.size() + r.size(),
        }
    }

    /// The number of nodes of the first `n` of the expressions `es`.
    pub open spec fn sizes(es: Seq<Expression>, n: int) -> nat
        decreases es, n,
    {
        if n <= 0 || n > es.len() {
            0
        } else {
            Self::sizes(es, n - 1) + es[n - 1].size()
        }
    }

    /// The expression can be compiled: it holds no `and` and no `or`.
    pub open spec fn supported(&self) -> bool
        decreases self, 0int,
    {
        match self {
            Expression::NoOp => true,
            Expression::IntLiteral(_) => true,
            Expression::Variable(_) => true,
            Expression::Call(e) => e.supported(),
            Expression::Compound(_, es) => Self::all_supported(es@, es@.len() as int),
            Expression::Vector(es) => Self::all_supported(es@, es@.len() as int),
            Expression::SetOf(es) => Self::all_supported(es@, es@.len() as int),
            Expression::Binary(l, op, r) => *op != BinOp::And && *op != BinOp::Or && l.supported()
                && r.supported(),
        }
    }

    /// The first `n` of the expressions `es` can be compiled.
    pub open spec fn all_supported(es: Seq<Expression>, n: int) -> bool
        decreases es, n,
    {
        if n <= 0 || n > es.len() {
            true
        } else {
            Self::all_supported(es, n - 1) && es[n - 1].supported()
        }
    }
}

impl Pattern {
    /// The number of nodes of the pattern.
    pub open spec fn size(&self) -> nat
        decreases self, 0int,
    {
        match self {
            Pattern::IntLiteral(_) => 1,
            Pattern::Variable(_) => 1,
            Pattern::Compound(_, ps) => 1 + Self::sizes(ps@, ps@.len() as int),
            Pattern::WcCompound(ps) => 1 + Self::sizes(ps@, ps@.len() as int),
            Pattern::Vector(ps) => 1 + Self::sizes(ps@, ps@.len() as int),
        }
    }

    /// The number of nodes of the first `n` of the patterns `ps`.
    pub open spec fn sizes(ps: Seq<Pattern>, n: int) -> nat
        decreases ps, n,
    {
        if n <= 0 || n > ps.len() {
            0
        } else {
            Self::sizes(ps, n - 1) + ps[n - 1].size()
        }
    }
}

impl Condition {
    /// The number of nodes of the condition.
    pub open spec fn size(&self) -> nat {
        match self {
            Condition::Let(p, e) => 1 + p.size() + e.size(),
            Condition::Bare(e) => 1 + e.size(),
        }
    }

    /// The condition can be compiled.
    pub open spec fn supported(&self) -> bool {
        match self {
            Condition::Let(_, e) => e.supported(),
            Condition::Bare(e) => e.supported(),
        }
    }
}

impl Statement {
    /// The number of nodes of the statement.
    pub open spec fn size(&self) -> nat
        decreases self, 0int,
    {
        match self {
            Statement::If(c, t, e) => 1 + c.size() + Self::sizes(t.0@, t.0@.len() as int)
                + match e {
                Some(b) => Self::sizes(b.0@, b.0@.len() as int),
                None => 0,
            },
            Statement::Assign(_, e) => 1 + e.size(),
            Statement::Destructure(p, e) => 1 + p.size() + e.size(),
            Statement::Eval(e) => 1 + e.size(),
            Statement::Ret(e) => 1 + e.size(),
        }
    }

    /// The number of nodes of the first `n` of the statements `ss`.
    pub open spec fn sizes(ss: Seq<Statement>, n: int) -> nat
        decreases ss, n,
    {
        if n <= 0 || n > ss.len() {
            0
        } else {
            Self::sizes(ss, n - 1) + ss[n - 1].size()
        }
    }

    /// The statement can be compiled.
    pub open spec fn supported(&self) -> bool
        decreases self, 0int,
    {
        match self {
            Statement::If(c, t, e) => c.supported() && Self::all_supported(
                t.0@,
                t.0@.len() as int,
            ) && match e {
                Some(b) => Self::all_supported(b.0@, b.0@.len() as int),
                None => true,
            },
            Statement::Assign(_, e) => e.supported(),
            Statement::Destructure(_, e) => e.supported(),
            Statement::Eval(e) => e.supported(),
            Statement::Ret(e) => e.supported(),
        }
    }

    /// The first `n` of the statements `ss` can be compiled.
    pub open spec fn all_supported(ss: Seq<Statement>, n: int) -> bool
        decreases ss, n,
    {
        if n <= 0 || n > ss.len() {
            true
        } else {
            Self::all_supported(ss, n - 1) && ss[n - 1].supported()
        }
    }
}

impl Condition {
    /// The operators of the expression of the condition are grouped by
    /// their precedence.
    pub open spec fn grouped(&self) -> bool {
        match self {
            Condition::Let(_, e) => e.grouped(),
            Condition::Bare(e) => e.grouped(),
        }
    }
}

impl Statement {
    /// The operators of every expression of the statement are grouped by
    /// their precedence.
    pub open spec fn grouped(&self) -> bool
        decreases self, 0int,
    {
        match self {
            Statement::If(c, t, e) => c.grouped() && Self::all_grouped(t.0@, t.0@.len() as int)
                && match e {
                Some(b) => Self::all_grouped(b.0@, b.0@.len() as int),
                None => true,
            },
            Statement::Assign(_, e) => e.grouped(),
            Statement::Destructure(_, e) => e.grouped(),
            Statement::Eval(e) => e.grouped(),
            Statement::Ret(e) => e.grouped(),
        }
    }

    /// The first `n` of the statements `ss` are grouped.
    pub open spec fn all_grouped(ss: Seq<Statement>, n: int) -> bool
        decreases ss, n,
    {
        if n <= 0 || n > ss.len() {
            true
        } else {
            Self::all_grouped(ss, n - 1) && ss[n - 1].grouped()
        }
    }
}

impl Block {
    /// The operators of every expression of the block are grouped by their
    /// precedence.
    pub open spec fn grouped(&self) -> bool {
        Statement::all_grouped(self.0@, self.0@.len() as int)
    }

    /// The number of nodes of the block.
    pub open spec fn size(&self) -> nat {
        Statement::sizes(self.0@, self.0@.len() as int)
    }

    /// The block can be compiled.
    pub open spec fn supported(&self) -> bool {
        Statement::all_supported(self.0@, self.0@.len() as int)
    }
}

impl Procedure {
    /// The number of nodes of the procedure.
    pub open spec fn size(&self) -> nat {
        2 + Pattern::sizes(self.args@, self.args@.len() as int) + self.body.size()
    }

    /// The procedure can be compiled.
    pub open spec fn supported(&self) -> bool {
        self.body.supported()
    }
}

impl Module {
    /// The first `n` of the procedures `ps` are grouped.
    pub open spec fn all_grouped(ps: Seq<Procedure>, n: int) -> bool
        decreases n,
    {
        if n <= 0 || n > ps.len() {
            true
        } else {
            Self::all_grouped(ps, n - 1) && ps[n - 1].body.grouped()
        }
    }

    /// The operators of every expression of the program are grouped by
    /// their precedence.
    pub open spec fn grouped(&self) -> bool {
        Self::all_grouped(self.procedures@, self.procedures@.len() as int)
    }

    /// The number of nodes of the first `n` procedures.
    pub open spec fn sizes(ps: Seq<Procedure>, n: int) -> nat
        decreases n,
    {
        if n <= 0 || n > ps.len() {
            0
        } else {
            Self::sizes(ps, n - 1) + ps[n - 1].size()
        }
    }

    /// The first `n` procedures can be compiled.
    pub open spec fn all_supported(ps: Seq<Procedure>, n: int) -> bool
        decreases n,
    {
        if n <= 0 || n > ps.len() {
            true
        } else {
            Self::all_supported(ps, n - 1) && ps[n - 1].supported()
        }
    }

    /// The number of nodes of the module.
    pub open spec fn size(&self) -> nat {
        Self::sizes(self.procedures@, self.procedures@.len() as int)
    }

    /// The module can be compiled.
    pub open spec fn supported(&self) -> bool {
        Self::all_supported(self.procedures@, self.procedures@.len() as int)
    }
}

} // verus!
