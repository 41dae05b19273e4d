use termlang::bump::Bump;
use termlang::errors::compiler::Error as CompileError;
use termlang::errors::runtime::Error;
use termlang::interns::Interns;
use termlang::irs::ast1::types::{
    BinOp, Block, Condition, Expression, Module, Pattern, Procedure, Statement,
};
use termlang::irs::executable1::{Executable1, FFIProcedure};
use termlang::irs::instruction2::{Instruction2, Ip};
use termlang::primitive::{Functor, Local, Operand, Value};
use termlang::vm::VM;

fn lit(i: i64) -> Expression {
    Expression::IntLiteral(i)
}

fn var(name: &str) -> Expression {
    Expression::Variable(name.to_string())
}

fn term(name: &str, args: Vec<Expression>) -> Expression {
    Expression::Compound(name.to_string(), args)
}

fn call(name: &str, args: Vec<Expression>) -> Expression {
    Expression::Call(Box::new(term(name, args)))
}

fn binary(l: Expression, op: BinOp, r: Expression) -> Expression {
    Expression::Binary(Box::new(l), op, Box::new(r))
}

fn pvar(name: &str) -> Pattern {
    Pattern::Variable(name.to_string())
}

fn pterm(name: &str, args: Vec<Pattern>) -> Pattern {
    Pattern::Compound(name.to_string(), args)
}

fn procedure(name: &str, args: Vec<Pattern>, body: Vec<Statement>) -> Procedure {
    Procedure { name: name.to_string(), args, body: Block(body) }
}

enum Outcome {
    Value(Value, Vec<Option<Value>>),
    Failure(Error),
}

fn drive(procedures: Vec<Procedure>, name: &str, args: Vec<Value>) -> Outcome {
    let mut interns = Interns::new(0);
    let module = Module { procedures };
    assert!(module.fits(&interns, 0));
    let executable = match module.compile_into(&mut interns, Executable1::new()) {
        Ok(executable) => executable,
        Err(e) => panic!("does not compile: {:?}", e),
    };
    let start = Value::Compound(interns.intern(name), args);
    let mut bump = Bump::new();
    let mut vm = match VM::go(&mut bump, &interns, &executable, &start) {
        Ok(vm) => vm,
        Err(e) => return Outcome::Failure(e),
    };
    let mut steps = 0;
    while vm.is_running() {
        vm.update(&mut bump, &interns);
        steps += 1;
        assert!(steps < 1_000_000);
    }
    match vm {
        VM::Succeeded(value, vars) => Outcome::Value(value, vars),
        VM::Failed(e) => Outcome::Failure(e),
        _ => unreachable!(),
    }
}

fn value_of(outcome: Outcome) -> Value {
    match outcome {
        Outcome::Value(value, _) => value,
        Outcome::Failure(e) => panic!("failed: {:?}", e),
    }
}

fn failure_of(outcome: Outcome) -> Error {
    match outcome {
        Outcome::Value(value, _) => panic!("succeeded: {:?}", value),
        Outcome::Failure(e) => e,
    }
}

fn arithmetic(a: i64, op: BinOp, b: i64) -> Outcome {
    let main = procedure("main", vec![], vec![Statement::Ret(binary(lit(a), op, lit(b)))]);
    drive(vec![main], "main", vec![])
}

#[test]
fn subtraction_keeps_the_left_operand_left() {
    assert_eq!(value_of(arithmetic(10, BinOp::Subtract, 3)), Value::Integer(7));
}

#[test]
fn arithmetic_agrees_with_the_host() {
    let samples: Vec<(i64, i64)> = vec![
        (0, 1),
        (7, 2),
        (-7, 2),
        (7, -2),
        (-7, -2),
        (1, 7),
        (i64::MAX, 1),
        (i64::MIN, -1),
        (i64::MIN, 1),
        (123456789, 987654321),
        (5, 5),
    ];
    for (a, b) in samples {
        assert_eq!(value_of(arithmetic(a, BinOp::Add, b)), Value::Integer(a.wrapping_add(b)));
        assert_eq!(value_of(arithmetic(a, BinOp::Subtract, b)), Value::Integer(a.wrapping_sub(b)));
        assert_eq!(value_of(arithmetic(a, BinOp::Multiply, b)), Value::Integer(a.wrapping_mul(b)));
        assert_eq!(value_of(arithmetic(a, BinOp::Divide, b)), Value::Integer(a.wrapping_div(b)));
        assert_eq!(value_of(arithmetic(a, BinOp::Le, b)), Value::Bool(a <= b));
        assert_eq!(value_of(arithmetic(a, BinOp::Ge, b)), Value::Bool(a >= b));
        assert_eq!(value_of(arithmetic(a, BinOp::Lt, b)), Value::Bool(a < b));
        assert_eq!(value_of(arithmetic(a, BinOp::Gt, b)), Value::Bool(a > b));
        assert_eq!(value_of(arithmetic(a, BinOp::Eq, b)), Value::Bool(a == b));
        assert_eq!(value_of(arithmetic(a, BinOp::Ne, b)), Value::Bool(a != b));
    }
}

#[test]
fn division_rounds_towards_zero() {
    assert_eq!(value_of(arithmetic(-7, BinOp::Divide, 2)), Value::Integer(-3));
    assert_eq!(value_of(arithmetic(7, BinOp::Divide, -2)), Value::Integer(-3));
    assert_eq!(value_of(arithmetic(i64::MIN, BinOp::Divide, -1)), Value::Integer(i64::MIN));
}

#[test]
fn division_by_zero_fails() {
    assert_eq!(failure_of(arithmetic(1, BinOp::Divide, 0)), Error::DivisionByZero);
}

#[test]
fn booleans_are_no_numbers() {
    let main = procedure(
        "main",
        vec![],
        vec![Statement::Ret(binary(binary(lit(1), BinOp::Lt, lit(2)), BinOp::Add, lit(1)))],
    );
    assert_eq!(failure_of(drive(vec![main], "main", vec![])), Error::NotNumbers);
}

#[test]
fn repeated_variable_binds_equal_values() {
    let main = procedure(
        "main",
        vec![],
        vec![
            Statement::Destructure(
                pterm("pair", vec![pvar("x"), pvar("x")]),
                term("pair", vec![lit(5), lit(5)]),
            ),
            Statement::Ret(var("x")),
        ],
    );
    assert_eq!(value_of(drive(vec![main], "main", vec![])), Value::Integer(5));
}

#[test]
fn repeated_variable_rejects_different_values() {
    let main = procedure(
        "main",
        vec![],
        vec![
            Statement::Destructure(
                pterm("pair", vec![pvar("x"), pvar("x")]),
                term("pair", vec![lit(5), lit(6)]),
            ),
            Statement::Ret(var("x")),
        ],
    );
    assert_eq!(failure_of(drive(vec![main], "main", vec![])), Error::SetAssertFailed);
}

#[test]
fn failed_conditional_pattern_takes_the_else_branch_and_binds_nothing() {
    let main = procedure(
        "main",
        vec![],
        vec![Statement::If(
            Condition::Let(pterm("yes", vec![pvar("v")]), term("no", vec![])),
            Block(vec![Statement::Ret(lit(1))]),
            Some(Block(vec![Statement::Ret(lit(2))])),
        )],
    );
    match drive(vec![main], "main", vec![]) {
        Outcome::Value(value, vars) => {
            assert_eq!(value, Value::Integer(2));
            assert_eq!(vars, vec![None]);
        }
        Outcome::Failure(e) => panic!("failed: {:?}", e),
    }
}

fn match_pair(first: i64, second: i64) -> Outcome {
    let main = procedure(
        "main",
        vec![],
        vec![
            Statement::If(
                Condition::Let(
                    pterm("pair", vec![pvar("y"), Pattern::IntLiteral(1), pvar("x")]),
                    term("pair", vec![lit(9), lit(first), lit(second)]),
                ),
                Block(vec![Statement::Ret(lit(1))]),
                None,
            ),
            Statement::Ret(lit(0)),
        ],
    );
    drive(vec![main], "main", vec![])
}

#[test]
fn destructure_of_several_fields_binds_all() {
    match match_pair(1, 2) {
        Outcome::Value(value, vars) => {
            assert_eq!(value, Value::Integer(1));
            assert_eq!(vars, vec![Some(Value::Integer(9)), Some(Value::Integer(2))]);
        }
        Outcome::Failure(e) => panic!("failed: {:?}", e),
    }
}

#[test]
fn destructure_of_several_fields_binds_none_on_failure() {
    match match_pair(2, 2) {
        Outcome::Value(value, vars) => {
            assert_eq!(value, Value::Integer(0));
            assert_eq!(vars, vec![None, None]);
        }
        Outcome::Failure(e) => panic!("failed: {:?}", e),
    }
}

#[test]
fn pattern_of_two_fields_binds_the_second() {
    let main = procedure(
        "main",
        vec![],
        vec![
            Statement::Destructure(
                pterm("pair", vec![Pattern::IntLiteral(1), pvar("x")]),
                term("pair", vec![lit(1), lit(2)]),
            ),
            Statement::Ret(var("x")),
        ],
    );
    assert_eq!(value_of(drive(vec![main], "main", vec![])), Value::Integer(2));
}

#[test]
fn unconditional_pattern_aborts_on_a_wrong_literal() {
    let main = procedure(
        "main",
        vec![],
        vec![
            Statement::Destructure(
                pterm("pair", vec![Pattern::IntLiteral(1), pvar("x")]),
                term("pair", vec![lit(2), lit(2)]),
            ),
            Statement::Ret(var("x")),
        ],
    );
    assert_eq!(failure_of(drive(vec![main], "main", vec![])), Error::AssertionFailed);
}

fn two_arities() -> Vec<Procedure> {
    vec![
        procedure("f", vec![], vec![Statement::Ret(lit(100))]),
        procedure("f", vec![pvar("x")], vec![Statement::Ret(binary(var("x"), BinOp::Add, lit(1)))]),
    ]
}

#[test]
fn call_goes_to_the_procedure_of_its_arity() {
    assert_eq!(value_of(drive(two_arities(), "f", vec![])), Value::Integer(100));
    assert_eq!(value_of(drive(two_arities(), "f", vec![Value::Integer(4)])), Value::Integer(5));
}

#[test]
fn call_with_an_arity_that_is_not_defined_fails() {
    let args = vec![Value::Integer(1), Value::Integer(2)];
    assert_eq!(failure_of(drive(two_arities(), "f", args)), Error::NoSuchProcedure);
}

#[test]
fn call_from_a_procedure_goes_by_arity_too() {
    let mut procedures = two_arities();
    procedures.push(procedure(
        "main",
        vec![],
        vec![Statement::Ret(binary(call("f", vec![]), BinOp::Add, call("f", vec![lit(1)])))],
    ));
    assert_eq!(value_of(drive(procedures, "main", vec![])), Value::Integer(102));
    let mut procedures = two_arities();
    procedures.push(procedure("main", vec![], vec![Statement::Ret(call("f", vec![lit(1), lit(2)]))]));
    assert_eq!(failure_of(drive(procedures, "main", vec![])), Error::NoSuchProcedure);
}

#[test]
fn later_procedure_replaces_an_earlier_one_of_the_same_functor() {
    let procedures = vec![
        procedure("f", vec![], vec![Statement::Ret(lit(1))]),
        procedure("f", vec![], vec![Statement::Ret(lit(2))]),
    ];
    assert_eq!(value_of(drive(procedures, "f", vec![])), Value::Integer(2));
}

#[test]
fn recursive_procedures_compose() {
    let fib = procedure(
        "fib",
        vec![pvar("n")],
        vec![
            Statement::If(
                Condition::Bare(binary(var("n"), BinOp::Lt, lit(2))),
                Block(vec![Statement::Ret(lit(1))]),
                None,
            ),
            Statement::Ret(binary(
                call("fib", vec![binary(var("n"), BinOp::Subtract, lit(1))]),
                BinOp::Add,
                call("fib", vec![binary(var("n"), BinOp::Subtract, lit(2))]),
            )),
        ],
    );
    let main = procedure(
        "main",
        vec![],
        vec![Statement::Ret(Expression::Vector(
            (0..8).map(|i| call("fib", vec![lit(i)])).collect(),
        ))],
    );
    let expected = vec![1, 1, 2, 3, 5, 8, 13, 21].into_iter().map(Value::Integer).collect();
    assert_eq!(value_of(drive(vec![fib, main], "main", vec![])), Value::Vector(expected));
}

#[test]
fn assignment_overwrites_and_binding_checks() {
    let main = procedure(
        "main",
        vec![],
        vec![
            Statement::Destructure(pvar("x"), lit(1)),
            Statement::Assign("x".to_string(), lit(2)),
            Statement::Destructure(pvar("x"), lit(2)),
            Statement::Ret(var("x")),
        ],
    );
    assert_eq!(value_of(drive(vec![main], "main", vec![])), Value::Integer(2));
    let main = procedure(
        "main",
        vec![],
        vec![
            Statement::Destructure(pvar("x"), lit(1)),
            Statement::Destructure(pvar("x"), lit(2)),
            Statement::Ret(var("x")),
        ],
    );
    assert_eq!(failure_of(drive(vec![main], "main", vec![])), Error::SetAssertFailed);
}

#[test]
fn variable_read_before_it_is_bound_fails() {
    let main = procedure("main", vec![], vec![Statement::Ret(var("x"))]);
    assert_eq!(failure_of(drive(vec![main], "main", vec![])), Error::GetUnset);
}

#[test]
fn variable_read_twice_keeps_its_value() {
    let main = procedure(
        "main",
        vec![],
        vec![
            Statement::Destructure(pvar("p"), term("pair", vec![lit(1), lit(2)])),
            Statement::Destructure(pterm("pair", vec![pvar("a"), pvar("b")]), var("p")),
            Statement::Ret(Expression::Vector(vec![var("p"), var("a"), var("b"), var("p")])),
        ],
    );
    let pair = |interns: &mut Interns| {
        Value::Compound(interns.intern("pair"), vec![Value::Integer(1), Value::Integer(2)])
    };
    let mut names = Interns::new(0);
    names.intern("main");
    let expected = Value::Vector(vec![
        pair(&mut names),
        Value::Integer(1),
        Value::Integer(2),
        pair(&mut names),
    ]);
    assert_eq!(value_of(drive(vec![main], "main", vec![])), expected);
}

#[test]
fn condition_that_is_no_boolean_fails() {
    let main = procedure(
        "main",
        vec![],
        vec![Statement::If(Condition::Bare(lit(1)), Block(vec![Statement::Ret(lit(1))]), None)],
    );
    assert_eq!(failure_of(drive(vec![main], "main", vec![])), Error::ConditionalWrongType);
}

#[test]
fn else_if_chain_takes_the_first_branch_that_matches() {
    let chain = |scrutinee: Expression| {
        procedure(
            "main",
            vec![],
            vec![Statement::If(
                Condition::Let(pterm("a", vec![]), scrutinee),
                Block(vec![Statement::Ret(lit(1))]),
                Some(Block(vec![Statement::If(
                    Condition::Bare(binary(lit(1), BinOp::Eq, lit(1))),
                    Block(vec![Statement::Ret(lit(2))]),
                    Some(Block(vec![Statement::Ret(lit(3))])),
                )])),
            )],
        )
    };
    assert_eq!(value_of(drive(vec![chain(term("a", vec![]))], "main", vec![])), Value::Integer(1));
    assert_eq!(value_of(drive(vec![chain(term("b", vec![]))], "main", vec![])), Value::Integer(2));
}

#[test]
fn procedure_without_a_return_runs_out_of_code() {
    let main = procedure("main", vec![], vec![Statement::Eval(lit(1))]);
    assert_eq!(failure_of(drive(vec![main], "main", vec![])), Error::OutOfCode);
}

#[test]
fn arguments_are_matched_whatever_the_tag_of_the_call() {
    let second = procedure("second", vec![pvar("a"), pvar("b")], vec![Statement::Ret(var("b"))]);
    let args = vec![Value::Integer(1), Value::Integer(2)];
    assert_eq!(value_of(drive(vec![second], "second", args)), Value::Integer(2));
}

#[test]
fn argument_pattern_that_does_not_match_aborts() {
    let only_one = procedure("f", vec![Pattern::IntLiteral(1)], vec![Statement::Ret(lit(0))]);
    assert_eq!(
        failure_of(drive(vec![only_one], "f", vec![Value::Integer(2)])),
        Error::AssertionFailed
    );
}

#[test]
fn vector_pattern_asks_for_a_vector_of_its_length() {
    let take = |value: Expression| {
        procedure(
            "main",
            vec![],
            vec![
                Statement::Destructure(Pattern::Vector(vec![pvar("a"), pvar("b")]), value),
                Statement::Ret(var("b")),
            ],
        )
    };
    let two = Expression::Vector(vec![lit(1), lit(2)]);
    assert_eq!(value_of(drive(vec![take(two)], "main", vec![])), Value::Integer(2));
    let three = Expression::Vector(vec![lit(1), lit(2), lit(3)]);
    assert_eq!(failure_of(drive(vec![take(three)], "main", vec![])), Error::DestructWrongType);
    let pair = term("pair", vec![lit(1), lit(2)]);
    assert_eq!(failure_of(drive(vec![take(pair)], "main", vec![])), Error::DestructWrongType);
}

#[test]
fn set_holds_each_member_once_in_ascending_order() {
    let main = procedure(
        "main",
        vec![],
        vec![Statement::Ret(Expression::SetOf(vec![lit(3), lit(1), lit(3), lit(2), lit(1)]))],
    );
    let expected = Value::SetOf(vec![Value::Integer(1), Value::Integer(2), Value::Integer(3)]);
    assert_eq!(value_of(drive(vec![main], "main", vec![])), expected);
}

#[test]
fn sets_of_the_same_members_are_equal() {
    let main = procedure(
        "main",
        vec![],
        vec![
            Statement::Destructure(pvar("s"), Expression::SetOf(vec![lit(2), lit(1)])),
            Statement::Destructure(pvar("s"), Expression::SetOf(vec![lit(1), lit(2), lit(1)])),
            Statement::Ret(lit(1)),
        ],
    );
    assert_eq!(value_of(drive(vec![main], "main", vec![])), Value::Integer(1));
}

#[test]
fn argument_name_that_occurs_twice_is_a_compile_error() {
    let twice = procedure("f", vec![pvar("x"), lit_pattern(1), pvar("y"), pvar("x"), pvar("y")], vec![]);
    assert_eq!(twice.duplicated_arg(), Some("x".to_string()));
    let mut interns = Interns::new(0);
    match twice.compile(&mut interns) {
        Err(CompileError::DuplicatedArg(name)) => assert_eq!(name, "x"),
        other => panic!("{:?}", other),
    }
    assert_eq!(interns.to_intern("f"), None);
    let module = Module { procedures: vec![procedure("main", vec![], vec![]), twice_again()] };
    let outcome = module.compile_into(&mut interns, Executable1::new());
    assert!(matches!(outcome, Err(CompileError::DuplicatedArg(_))));
}

fn lit_pattern(i: i64) -> Pattern {
    Pattern::IntLiteral(i)
}

fn twice_again() -> Procedure {
    procedure("g", vec![pvar("a"), pvar("a")], vec![Statement::Ret(var("a"))])
}

#[test]
fn variable_may_occur_twice_inside_one_argument() {
    let same = procedure(
        "same",
        vec![pterm("pair", vec![pvar("x"), pvar("x")])],
        vec![Statement::Ret(var("x"))],
    );
    assert_eq!(same.duplicated_arg(), None);
    let pair = |a: i64, b: i64| {
        let mut interns = Interns::new(0);
        interns.intern("same");
        Value::Compound(interns.intern("pair"), vec![Value::Integer(a), Value::Integer(b)])
    };
    let same_again = procedure(
        "same",
        vec![pterm("pair", vec![pvar("x"), pvar("x")])],
        vec![Statement::Ret(var("x"))],
    );
    assert_eq!(value_of(drive(vec![same], "same", vec![pair(3, 3)])), Value::Integer(3));
    assert_eq!(
        failure_of(drive(vec![same_again], "same", vec![pair(3, 4)])),
        Error::SetAssertFailed
    );
}

#[test]
fn set_that_the_host_hands_in_is_put_in_order() {
    let same = procedure("same", vec![pvar("s")], vec![Statement::Ret(var("s"))]);
    let loose = Value::SetOf(vec![Value::Integer(2), Value::Integer(1), Value::Integer(2)]);
    assert_eq!(
        value_of(drive(vec![same], "same", vec![loose])),
        Value::SetOf(vec![Value::Integer(1), Value::Integer(2)])
    );
    let check = procedure(
        "check",
        vec![pvar("s")],
        vec![
            Statement::Destructure(pvar("s"), Expression::SetOf(vec![lit(1), lit(2)])),
            Statement::Ret(lit(1)),
        ],
    );
    let loose = Value::SetOf(vec![Value::Integer(2), Value::Integer(1), Value::Integer(2)]);
    assert_eq!(value_of(drive(vec![check], "check", vec![loose])), Value::Integer(1));
}

#[test]
fn procedures_of_one_name_stand_under_their_own_functors() {
    let mut interns = Interns::new(0);
    let module = Module { procedures: two_arities() };
    assert!(module.fits(&interns, 0));
    let executable = module.compile_into(&mut interns, Executable1::new()).unwrap();
    let f = interns.to_intern("f").unwrap();
    for arity in 0..2 {
        match executable.get(Functor(f, arity)) {
            Some(FFIProcedure::Dynamic(p)) => {
                assert_eq!(p.functor.0, f);
                assert_eq!(p.functor.1, arity);
            }
            _ => panic!("no compiled procedure of {} arguments", arity),
        }
    }
    assert!(executable.get(Functor(f, 2)).is_none());
    assert_eq!(executable.procedures.len(), 2);
}

fn fib_procedure() -> Procedure {
    procedure(
        "fib",
        vec![pvar("n")],
        vec![
            Statement::If(
                Condition::Bare(binary(var("n"), BinOp::Lt, lit(2))),
                Block(vec![Statement::Ret(lit(1))]),
                None,
            ),
            Statement::Ret(binary(
                call("fib", vec![binary(var("n"), BinOp::Subtract, lit(1))]),
                BinOp::Add,
                call("fib", vec![binary(var("n"), BinOp::Subtract, lit(2))]),
            )),
        ],
    )
}

#[test]
fn recursive_procedure_compiles_to_twenty_instructions() {
    let mut interns = Interns::new(0);
    let module = Module { procedures: vec![fib_procedure()] };
    assert!(module.fits(&interns, 0));
    let executable = module.compile_into(&mut interns, Executable1::new()).unwrap();
    let tag = interns.to_intern("fib").unwrap();
    let compiled = match executable.get(Functor(tag, 1)) {
        Some(FFIProcedure::Dynamic(p)) => p,
        _ => panic!("no compiled procedure"),
    };
    assert_eq!(compiled.vars, 1);
    assert_eq!(
        compiled.instructions,
        vec![
            Instruction2::Destruct(1),
            Instruction2::SetAssert(Local(0)),
            Instruction2::Get(Local(0)),
            Instruction2::Push(Operand::Integer(2)),
            Instruction2::Lt,
            Instruction2::JumpNo(Ip(8)),
            Instruction2::Push(Operand::Integer(1)),
            Instruction2::Ret,
            Instruction2::Get(Local(0)),
            Instruction2::Push(Operand::Integer(1)),
            Instruction2::Subtract,
            Instruction2::ConstructCompound(Functor(tag, 1)),
            Instruction2::Call,
            Instruction2::Get(Local(0)),
            Instruction2::Push(Operand::Integer(2)),
            Instruction2::Subtract,
            Instruction2::ConstructCompound(Functor(tag, 1)),
            Instruction2::Call,
            Instruction2::Add,
            Instruction2::Ret,
        ]
    );
}

fn fib_steps(n: i64) -> u64 {
    if n < 2 {
        8
    } else {
        18 + fib_steps(n - 1) + fib_steps(n - 2)
    }
}

fn fib_value(n: i64) -> i64 {
    if n < 2 {
        1
    } else {
        fib_value(n - 1).wrapping_add(fib_value(n - 2))
    }
}

#[test]
fn recursive_procedure_ends_after_the_steps_that_its_calls_add_up_to() {
    for n in [-3, 0, 1, 2, 3, 7, 12] {
        let mut interns = Interns::new(0);
        let module = Module { procedures: vec![fib_procedure()] };
        let executable = module.compile_into(&mut interns, Executable1::new()).unwrap();
        let start = Value::Compound(interns.intern("fib"), vec![Value::Integer(n)]);
        let mut bump = Bump::new();
        let mut vm = VM::go(&mut bump, &interns, &executable, &start).unwrap();
        let mut steps = 0;
        let mut deepest = 0;
        while vm.is_running() {
            if let VM::Running(runner) = &vm {
                deepest = deepest.max(runner.f.len());
            }
            vm.update(&mut bump, &interns);
            steps += 1;
        }
        assert_eq!(steps, fib_steps(n));
        assert_eq!(deepest as i64, n.max(1));
        match vm {
            VM::Succeeded(value, vars) => {
                assert_eq!(value, Value::Integer(fib_value(n)));
                assert_eq!(vars, vec![Some(Value::Integer(n))]);
            }
            _ => panic!("did not succeed"),
        }
    }
}
