use std::cell::RefCell;
use termlang::bump::Bump;
use termlang::errors::runtime::Error;
use termlang::interns::Interns;
use termlang::irs::ast1::precedence::Associativity;
use termlang::irs::ast1::types::{
    BinOp, Block, Condition, Expression, Module, Pattern, Procedure, Statement,
};
use termlang::irs::executable1::{Executable1, FFIProcedure, NativeProcedure};
use termlang::irs::instruction2::Instruction2;
use termlang::library::{Library, Output, Standard};
use termlang::primitive::{Functor, Operand, Value};
use termlang::repl::Scope;
use termlang::satc::Satc;
use termlang::vm::bvalue::{BValue, SBV};
use termlang::vm::VM;

fn lit(i: i64) -> Expression {
    Expression::IntLiteral(i)
}

fn var(name: &str) -> Expression {
    Expression::Variable(name.to_string())
}

fn term(name: &str, args: Vec<Expression>) -> Expression {
    Expression::Compound(name.to_string(), args)
}

fn atom(name: &str) -> Expression {
    term(name, vec![])
}

fn binary(l: Expression, op: BinOp, r: Expression) -> Expression {
    Expression::Binary(Box::new(l), op, Box::new(r))
}

fn pvar(name: &str) -> Pattern {
    Pattern::Variable(name.to_string())
}

fn pterm(name: &str, args: Vec<Pattern>) -> Pattern {
    Pattern::Compound(name.to_string(), args)
}

fn patom(name: &str) -> Pattern {
    pterm(name, vec![])
}

/// Runs one statement of a session and takes its variables into the scope.
fn evaluate(
    statement: Statement,
    interns: &mut Interns,
    loaded: &Executable1,
    scope: &mut Scope,
) -> Result<Value, Error> {
    assert!(statement.fits_repl(interns));
    let (names, code) = statement.compile_repl(interns).unwrap();
    let mut bump = Bump::new();
    let mut vm = VM::start_repl(&bump, &code, loaded, &names, scope);
    while vm.is_running() {
        vm.update(&mut bump, interns);
    }
    match vm {
        VM::Succeeded(value, vars) => {
            scope.absorb(&names, vars);
            Ok(value)
        }
        VM::Failed(e) => Err(e),
        _ => unreachable!(),
    }
}

#[test]
fn session_keeps_variables_between_statements() {
    let base = Interns::new(0);
    let loaded = Executable1::new();
    let mut interns = base.extend();
    let mut scope = Scope::new();
    let bind = Statement::Destructure(pvar("x"), lit(5));
    assert_eq!(evaluate(bind, &mut interns, &loaded, &mut scope), Ok(Value::Integer(1)));
    assert_eq!(scope.get("x"), Some(&Value::Integer(5)));
    let read = Statement::Ret(binary(var("x"), BinOp::Add, lit(1)));
    assert_eq!(evaluate(read, &mut interns, &loaded, &mut scope), Ok(Value::Integer(6)));
    let check = Statement::Destructure(pvar("x"), lit(6));
    assert_eq!(evaluate(check, &mut interns, &loaded, &mut scope), Err(Error::SetAssertFailed));
    assert_eq!(scope.get("x"), Some(&Value::Integer(5)));
    let assign = Statement::Assign("x".to_string(), lit(7));
    assert_eq!(evaluate(assign, &mut interns, &loaded, &mut scope), Ok(Value::Integer(1)));
    assert_eq!(scope.get("x"), Some(&Value::Integer(7)));
    assert_eq!(scope.get("y"), None);
    let unbound = Statement::Ret(var("y"));
    assert_eq!(evaluate(unbound, &mut interns, &loaded, &mut scope), Err(Error::GetUnset));
}

#[test]
fn session_statement_is_the_procedure_repl() {
    let mut interns = Interns::new(0);
    let statement = Statement::Eval(lit(9));
    let (names, code) = statement.compile_repl(&mut interns).unwrap();
    assert!(names.is_empty());
    assert_eq!(code.functor, Functor(interns.to_intern("repl").unwrap(), 0));
    assert_eq!(code.vars, 0);
    assert_eq!(
        code.instructions,
        vec![
            Instruction2::Push(Operand::Integer(9)),
            Instruction2::Pop,
            Instruction2::Push(Operand::Integer(1)),
            Instruction2::Ret,
        ]
    );
}

#[test]
fn session_extends_the_names_of_the_program_without_changing_them() {
    let mut base = Interns::new(0);
    let main = Procedure {
        name: "main".to_string(),
        args: vec![],
        body: Block(vec![Statement::Ret(atom("done"))]),
    };
    let module = Module { procedures: vec![main] };
    let loaded = module.compile_into(&mut base, Executable1::new()).unwrap();
    let done = base.to_intern("done").unwrap();
    let mut scope = Scope::new();
    {
        let mut interns = base.extend();
        let call = Statement::Ret(Expression::Call(Box::new(atom("main"))));
        assert_eq!(
            evaluate(call, &mut interns, &loaded, &mut scope),
            Ok(Value::Compound(done, vec![]))
        );
        let fresh = Statement::Ret(atom("fresh"));
        let value = evaluate(fresh, &mut interns, &loaded, &mut scope).unwrap();
        assert_eq!(value, Value::Compound(interns.to_intern("fresh").unwrap(), vec![]));
    }
    assert_eq!(base.to_intern("fresh"), None);
    assert_eq!(base.to_intern("repl"), None);
}

#[test]
fn scope_takes_bound_slots_only() {
    let mut scope = Scope::new();
    scope.insert("a".to_string(), Value::Integer(1));
    scope.insert("b".to_string(), Value::Integer(2));
    let names = vec!["a".to_string(), "b".to_string(), "c".to_string(), "d".to_string()];
    scope.absorb(&names, vec![None, Some(Value::Integer(20)), Some(Value::Integer(30))]);
    assert_eq!(scope.get("a"), Some(&Value::Integer(1)));
    assert_eq!(scope.get("b"), Some(&Value::Integer(20)));
    assert_eq!(scope.get("c"), Some(&Value::Integer(30)));
    assert_eq!(scope.get("d"), None);
}

#[derive(Clone, Copy)]
struct Lines(&'static RefCell<Vec<String>>);

impl Lines {
    fn new() -> Lines {
        Lines(Box::leak(Box::new(RefCell::new(Vec::new()))))
    }
}

impl Output for Lines {
    fn line(&self, text: &str) {
        self.0.borrow_mut().push(text.to_string());
    }
}

fn if_let(pattern: Pattern, value: Expression, then: Vec<Statement>, otherwise: Option<Vec<Statement>>) -> Statement {
    Statement::If(Condition::Let(pattern, value), Block(then), otherwise.map(Block))
}

fn print(value: Expression) -> Statement {
    Statement::Eval(Expression::Call(Box::new(term("print", vec![value]))))
}

/// The program
///
///     fn main {
///         if let scott(@alpha, beta) = scott(alpha, delta) { }
///         eval call print(got(past, first, conditional)).
///         let @alpha = beta.
///         let @no = no.
///         if let yes = @no { ret 0. }
///         else if let yes(bro) = yes(brah) { ret 1. }
///         else if let yes(@dude) = yes(dude) {
///             if let @dude = bro { ret 2. }
///             else if let @dude = dude {
///                 eval call print(got(right, answer)).
///                 ret r(3, @dude).
///             }
///             ret 4.
///         }
///         else { ret 5. }
///     }
fn sample_program() -> Module {
    let innermost = if_let(
        pvar("dude"),
        atom("bro"),
        vec![Statement::Ret(lit(2))],
        Some(vec![if_let(
            pvar("dude"),
            atom("dude"),
            vec![
                print(term("got", vec![atom("right"), atom("answer")])),
                Statement::Ret(term("r", vec![lit(3), var("dude")])),
            ],
            None,
        )]),
    );
    let chain = if_let(
        patom("yes"),
        var("no"),
        vec![Statement::Ret(lit(0))],
        Some(vec![if_let(
            pterm("yes", vec![patom("bro")]),
            term("yes", vec![atom("brah")]),
            vec![Statement::Ret(lit(1))],
            Some(vec![if_let(
                pterm("yes", vec![pvar("dude")]),
                term("yes", vec![atom("dude")]),
                vec![innermost, Statement::Ret(lit(4))],
                Some(vec![Statement::Ret(lit(5))]),
            )]),
        )]),
    );
    let body = vec![
        if_let(
            pterm("scott", vec![pvar("alpha"), patom("beta")]),
            term("scott", vec![atom("alpha"), atom("delta")]),
            vec![],
            None,
        ),
        print(term("got", vec![atom("past"), atom("first"), atom("conditional")])),
        Statement::Destructure(pvar("alpha"), atom("beta")),
        Statement::Destructure(pvar("no"), atom("no")),
        chain,
    ];
    Module { procedures: vec![Procedure { name: "main".to_string(), args: vec![], body: Block(body) }] }
}

#[test]
fn sample_program_returns_r_3_dude_and_prints_twice() {
    let lines = Lines::new();
    let module = sample_program();
    let mut interns = Interns::new(0);
    assert!(module.fits(&interns, 2));
    let executable = module.compile(&mut interns, Standard(lines)).unwrap();
    let start = Value::Compound(interns.intern("main"), vec![]);
    let mut bump = Bump::new();
    let mut vm = VM::go(&mut bump, &interns, &executable, &start).ok().unwrap();
    while vm.is_running() {
        vm.update(&mut bump, &interns);
    }
    let r = interns.to_intern("r").unwrap();
    let dude = interns.to_intern("dude").unwrap();
    match vm {
        VM::Succeeded(value, _) => {
            let expected = Value::Compound(r, vec![Value::Integer(3), Value::Compound(dude, vec![])]);
            assert_eq!(value, expected);
        }
        VM::Failed(e) => panic!("failed: {:?}", e),
        _ => unreachable!(),
    }
    assert_eq!(*lines.0.borrow(), vec!["got(past, first, conditional)", "got(right, answer)"]);
}

#[test]
fn print_returns_ok() {
    let lines = Lines::new();
    let main = Procedure {
        name: "main".to_string(),
        args: vec![],
        body: Block(vec![Statement::Ret(Expression::Call(Box::new(term(
            "print",
            vec![Expression::Vector(vec![lit(1), binary(lit(1), BinOp::Lt, lit(2))])],
        ))))]),
    };
    let module = Module { procedures: vec![main] };
    let mut interns = Interns::new(0);
    let executable = module.compile(&mut interns, Standard(lines)).unwrap();
    let start = Value::Compound(interns.intern("main"), vec![]);
    let mut bump = Bump::new();
    let mut vm = VM::go(&mut bump, &interns, &executable, &start).ok().unwrap();
    while vm.is_running() {
        vm.update(&mut bump, &interns);
    }
    match vm {
        VM::Succeeded(value, _) => {
            assert_eq!(value, Value::Compound(interns.to_intern("ok").unwrap(), vec![]));
        }
        _ => panic!("did not succeed"),
    }
    assert_eq!(*lines.0.borrow(), vec!["v[1, true]"]);
}

struct Echo;

impl NativeProcedure for Echo {
    fn invoke(&self, bump: &mut Bump, _interns: &Interns, value: SBV) -> SBV {
        let mut copy = value.into_owned(bump);
        Satc::new_borrowed(bump, copy.clonesume(bump))
    }
}

struct Host;

impl Library for Host {
    fn add_functions(&self, interns: &mut Interns, procedures: &mut Executable1) {
        let tag = interns.intern("echo");
        procedures.insert(Functor(tag, 2), FFIProcedure::Native(Box::new(Echo)));
    }
}

#[test]
fn native_gets_the_whole_compound_and_its_result_is_a_value_like_any_other() {
    let main = Procedure {
        name: "main".to_string(),
        args: vec![],
        body: Block(vec![
            Statement::Destructure(
                pterm("echo", vec![pvar("a"), pvar("b")]),
                Expression::Call(Box::new(term("echo", vec![lit(1), lit(2)]))),
            ),
            Statement::Ret(binary(var("a"), BinOp::Subtract, var("b"))),
        ]),
    };
    let module = Module { procedures: vec![main] };
    let mut interns = Interns::new(0);
    let executable = module.compile(&mut interns, Host).unwrap();
    let start = Value::Compound(interns.intern("main"), vec![]);
    let mut bump = Bump::new();
    let mut vm = VM::go(&mut bump, &interns, &executable, &start).ok().unwrap();
    while vm.is_running() {
        vm.update(&mut bump, &interns);
    }
    assert!(matches!(vm, VM::Succeeded(Value::Integer(-1), _)));
}

#[test]
fn native_cannot_be_the_first_call() {
    let module = Module { procedures: vec![] };
    let mut interns = Interns::new(0);
    let executable = module.compile(&mut interns, Host).unwrap();
    let echo = interns.to_intern("echo").unwrap();
    let start = Value::Compound(echo, vec![Value::Integer(1), Value::Integer(2)]);
    let mut bump = Bump::new();
    assert!(matches!(VM::go(&mut bump, &interns, &executable, &start), Err(Error::NoMoreFrames)));
}

#[test]
fn program_replaces_a_native_of_the_same_functor() {
    let echo = Procedure {
        name: "echo".to_string(),
        args: vec![pvar("a"), pvar("b")],
        body: Block(vec![Statement::Ret(lit(0))]),
    };
    let module = Module { procedures: vec![echo] };
    let mut interns = Interns::new(0);
    let executable = module.compile(&mut interns, Host).unwrap();
    let start = Value::Compound(
        interns.to_intern("echo").unwrap(),
        vec![Value::Integer(1), Value::Integer(2)],
    );
    let mut bump = Bump::new();
    let mut vm = VM::go(&mut bump, &interns, &executable, &start).ok().unwrap();
    while vm.is_running() {
        vm.update(&mut bump, &interns);
    }
    assert!(matches!(vm, VM::Succeeded(Value::Integer(0), _)));
}

#[test]
fn precedence_groups_operators() {
    assert_eq!(BinOp::Multiply.precedence().0, 10);
    assert_eq!(BinOp::Divide.precedence().0, 10);
    assert_eq!(BinOp::Add.precedence().0, 15);
    assert_eq!(BinOp::Subtract.precedence().0, 15);
    for op in vec![BinOp::Le, BinOp::Ge, BinOp::Lt, BinOp::Gt, BinOp::Eq, BinOp::Ne] {
        assert_eq!(op.precedence().0, 20);
    }
    assert_eq!(BinOp::And.precedence().0, 25);
    assert_eq!(BinOp::Or.precedence().0, 25);
    assert!(BinOp::Add.precedence().1 == Associativity::Lhs);
    assert!(BinOp::Multiply.tighter(BinOp::Add));
    assert!(!BinOp::Add.tighter(BinOp::Multiply));
    assert!(BinOp::Add.tighter(BinOp::Subtract));
    assert!(BinOp::Subtract.tighter(BinOp::Add));
    assert!(BinOp::Add.tighter(BinOp::Lt));
    assert!(!BinOp::Or.tighter(BinOp::Eq));
}

fn shape(e: &Expression) -> String {
    match e {
        Expression::IntLiteral(i) => format!("{}", i),
        Expression::Binary(l, op, r) => format!("({} {:?} {})", shape(l), op, shape(r)),
        _ => "?".to_string(),
    }
}

#[test]
fn integrate_builds_the_tree_that_precedence_asks_for() {
    let sum = binary(lit(1), BinOp::Add, lit(2)).integrate(BinOp::Multiply, lit(3));
    assert_eq!(shape(&sum), "(1 Add (2 Multiply 3))");
    let product = binary(lit(1), BinOp::Multiply, lit(2)).integrate(BinOp::Add, lit(3));
    assert_eq!(shape(&product), "((1 Multiply 2) Add 3)");
    let left = binary(lit(10), BinOp::Subtract, lit(3)).integrate(BinOp::Subtract, lit(2));
    assert_eq!(shape(&left), "((10 Subtract 3) Subtract 2)");
    let leaf = lit(1).integrate(BinOp::Lt, lit(2));
    assert_eq!(shape(&leaf), "(1 Lt 2)");
    let deep = binary(lit(1), BinOp::Lt, binary(lit(2), BinOp::Add, lit(3)))
        .integrate(BinOp::Multiply, lit(4));
    assert_eq!(shape(&deep), "(1 Lt (2 Add (3 Multiply 4)))");
    let back = binary(lit(1), BinOp::Lt, binary(lit(2), BinOp::Multiply, lit(3)))
        .integrate(BinOp::Add, lit(4));
    assert_eq!(shape(&back), "(1 Lt ((2 Multiply 3) Add 4))");
}

#[test]
fn logical_operators_cannot_be_compiled() {
    let and = binary(lit(1), BinOp::And, lit(2));
    assert!(!and.is_supported());
    assert!(!binary(lit(1), BinOp::Or, lit(2)).is_supported());
    assert!(binary(lit(1), BinOp::Add, lit(2)).is_supported());
    let nested = Statement::If(
        Condition::Bare(lit(1)),
        Block(vec![Statement::Ret(Expression::Vector(vec![and]))]),
        None,
    );
    assert!(!nested.is_supported());
    let interns = Interns::new(0);
    assert!(!nested.fits_repl(&interns));
    let module = Module {
        procedures: vec![Procedure { name: "f".to_string(), args: vec![], body: Block(vec![nested]) }],
    };
    assert!(!module.is_supported());
    assert!(!module.fits(&interns, 0));
}

#[test]
fn trees_are_weighed_by_their_nodes() {
    let e = binary(lit(1), BinOp::Add, Expression::Vector(vec![lit(2), var("x")]));
    assert_eq!(e.weigh(5), Some(0));
    assert_eq!(e.weigh(7), Some(2));
    assert_eq!(e.weigh(4), None);
    let p = pterm("pair", vec![pvar("a"), Pattern::IntLiteral(1)]);
    assert_eq!(p.weigh(3), Some(0));
    assert_eq!(p.weigh(2), None);
    let s = Statement::Destructure(pvar("a"), lit(1));
    assert_eq!(s.weigh(10), Some(7));
    let full = Interns::new(usize::MAX - 3);
    assert!(!s.fits_repl(&full));
    assert!(Statement::Ret(lit(1)).fits_repl(&full));
}

#[test]
fn sample_program_runs_from_its_text() {
    let source = "
        fn main {
            if let :scott(@alpha, :beta) = :scott(:alpha, :delta) {

            }
            eval call :print(:got(:past, :first, :conditional)).

            let @alpha = :beta.
            let @no = :no.
            if let :yes = @no {
                ret 0.
            }
            else if let :yes(:bro) = :yes(:brah) {
                ret 1.
            }
            else if let :yes(@dude) = :yes(:dude) {
                if let @dude = :bro {
                    ret 2.
                }
                else if let @dude = :dude {
                    eval call :print(:got(:right, :answer)).
                    ret :r(3, @dude).
                }
                ret 4.
            }
            else {
                ret 5.
            }
        }
    ";
    let lines = Lines::new();
    let module = termlang::parser::parse_module(source).unwrap();
    let mut interns = Interns::new(0);
    let executable = module.compile(&mut interns, Standard(lines)).unwrap();
    let start = Value::Compound(interns.intern("main"), vec![]);
    let mut bump = Bump::new();
    let mut vm = VM::go(&mut bump, &interns, &executable, &start).ok().unwrap();
    while vm.is_running() {
        vm.update(&mut bump, &interns);
    }
    let r = interns.to_intern("r").unwrap();
    let dude = interns.to_intern("dude").unwrap();
    match vm {
        VM::Succeeded(value, _) => {
            let expected = Value::Compound(r, vec![Value::Integer(3), Value::Compound(dude, vec![])]);
            assert_eq!(value, expected);
        }
        VM::Failed(e) => panic!("failed: {:?}", e),
        _ => unreachable!(),
    }
    assert_eq!(*lines.0.borrow(), vec!["got(past, first, conditional)", "got(right, answer)"]);
}

#[test]
fn session_reads_its_statements_from_text() {
    let base = Interns::new(0);
    let loaded = Executable1::new();
    let mut interns = base.extend();
    let mut scope = Scope::new();
    let first = termlang::parser::parse_repl_statement("let :pair(@a, @b) = :pair(4, 5).\n").unwrap();
    assert_eq!(evaluate(first, &mut interns, &loaded, &mut scope), Ok(Value::Integer(1)));
    let second = termlang::parser::parse_repl_statement("ret @a * @b.\n").unwrap();
    assert_eq!(evaluate(second, &mut interns, &loaded, &mut scope), Ok(Value::Integer(20)));
}

#[test]
fn standard_library_interns_ok_then_print_and_registers_print() {
    let mut interns = Interns::new(0);
    interns.intern("first");
    let mut procedures = Executable1::new();
    Standard(Lines::new()).add_functions(&mut interns, &mut procedures);
    assert_eq!(interns.to_intern("first").map(|i| i.raw()), Some(0));
    assert_eq!(interns.to_intern("ok").map(|i| i.raw()), Some(1));
    assert_eq!(interns.to_intern("print").map(|i| i.raw()), Some(2));
    let print = interns.to_intern("print").unwrap();
    assert!(matches!(procedures.get(Functor(print, 1)), Some(FFIProcedure::Native(_))));
    assert!(procedures.get(Functor(print, 0)).is_none());
    assert!(procedures.get(Functor(print, 2)).is_none());
}

#[test]
fn print_leaves_the_arena_as_it_is() {
    let lines = Lines::new();
    let mut interns = Interns::new(0);
    let ok = interns.intern("ok");
    let print = termlang::library::Print { ok, out: lines };
    let mut bump = Bump::new();
    let argument = BValue::Compound(interns.intern("print"), vec![BValue::Integer(7)]);
    let result = print.invoke(&mut bump, &interns, Satc::new(argument));
    assert_eq!(bump.len(), 0);
    assert!(matches!(result, Satc::Unique(_)));
    assert_eq!(BValue::raise(result.as_immut(&bump)), Value::Compound(ok, vec![]));
    assert_eq!(*lines.0.borrow(), vec!["7"]);
}

#[test]
fn program_is_compiled_on_top_of_what_the_library_registers() {
    let main = Procedure {
        name: "main".to_string(),
        args: vec![],
        body: Block(vec![Statement::Ret(lit(1))]),
    };
    let module = Module { procedures: vec![main] };
    let mut interns = Interns::new(0);
    let executable = module.compile(&mut interns, Standard(Lines::new())).unwrap();
    let print = interns.to_intern("print").unwrap();
    let main = interns.to_intern("main").unwrap();
    assert_eq!((interns.to_intern("ok").unwrap().raw(), print.raw(), main.raw()), (0, 1, 2));
    assert!(matches!(executable.get(Functor(print, 1)), Some(FFIProcedure::Native(_))));
    assert!(matches!(executable.get(Functor(main, 0)), Some(FFIProcedure::Dynamic(_))));
}
