use termlang::bump::Bump;
use termlang::errors::parser::Error as ParseError;
use termlang::errors::runtime::Error;
use termlang::interns::Interns;
use termlang::irs::ast1::types::{BinOp, Condition, Expression, Pattern, Statement};
use termlang::irs::executable1::Executable1;
use termlang::parser::combinator::{lexeme, lexeme_ws, tag};
use termlang::parser::expression::{condition, expression, expression_implicit_call};
use termlang::parser::pattern::pattern;
use termlang::parser::statement::{block, statement};
use termlang::parser::structural::{module, procedure};
use termlang::parser::whitespace::{any_whitespace, some_whitespace};
use termlang::parser::word::{identifier, number, var};
use termlang::parser::{characters, parse_module, parse_procedure, parse_repl_statement, Parse};
use termlang::primitive::Value;
use termlang::vm::VM;

fn show_pattern(p: &Pattern) -> String {
    match p {
        Pattern::IntLiteral(i) => format!("{}", i),
        Pattern::Variable(n) => format!("@{}", n),
        Pattern::Compound(n, ps) => format!("{}({})", n, show_patterns(ps)),
        Pattern::WcCompound(ps) => format!("_({})", show_patterns(ps)),
        Pattern::Vector(ps) => format!("[{}]", show_patterns(ps)),
    }
}

fn show_patterns(ps: &Vec<Pattern>) -> String {
    ps.iter().map(show_pattern).collect::<Vec<String>>().join(",")
}

fn show(e: &Expression) -> String {
    match e {
        Expression::NoOp => "noop".to_string(),
        Expression::IntLiteral(i) => format!("{}", i),
        Expression::Variable(n) => format!("@{}", n),
        Expression::Call(inner) => format!("call {}", show(inner)),
        Expression::Compound(n, es) => format!("{}({})", n, show_all(es)),
        Expression::Vector(es) => format!("[{}]", show_all(es)),
        Expression::SetOf(es) => format!("{{{}}}", show_all(es)),
        Expression::Binary(l, op, r) => format!("({} {:?} {})", show(l), op, show(r)),
    }
}

fn show_all(es: &Vec<Expression>) -> String {
    es.iter().map(show).collect::<Vec<String>>().join(",")
}

fn show_statement(s: &Statement) -> String {
    match s {
        Statement::If(c, t, e) => {
            let condition = match c {
                Condition::Let(p, x) => format!("let {} = {}", show_pattern(p), show(x)),
                Condition::Bare(x) => show(x),
            };
            let otherwise = match e {
                Some(b) => format!(" else {}", show_block(&b.0)),
                None => String::new(),
            };
            format!("if {} {}{}", condition, show_block(&t.0), otherwise)
        }
        Statement::Assign(n, x) => format!("now @{} = {}.", n, show(x)),
        Statement::Destructure(p, x) => format!("let {} = {}.", show_pattern(p), show(x)),
        Statement::Eval(x) => format!("eval {}.", show(x)),
        Statement::Ret(x) => format!("ret {}.", show(x)),
    }
}

fn show_block(ss: &Vec<Statement>) -> String {
    format!("{{{}}}", ss.iter().map(show_statement).collect::<Vec<String>>().join(" "))
}

fn read_expression(text: &str) -> String {
    let inp = characters(text);
    match expression(&inp, 0) {
        Parse::Done(e, end) => {
            assert_eq!(end, inp.len());
            assert!(e.is_supported());
            show(&e)
        }
        Parse::Miss => "miss".to_string(),
        Parse::Fail(at) => format!("fail {}", at),
    }
}

fn read_pattern(text: &str) -> String {
    let inp = characters(text);
    match pattern(&inp, 0) {
        Parse::Done(p, end) => {
            assert_eq!(end, inp.len());
            show_pattern(&p)
        }
        Parse::Miss => "miss".to_string(),
        Parse::Fail(at) => format!("fail {}", at),
    }
}

fn read_statement(text: &str) -> String {
    match parse_repl_statement(text) {
        Ok(s) => show_statement(&s),
        Err(e) => format!("{:?}", e),
    }
}

#[test]
fn text_becomes_characters() {
    assert_eq!(characters("a b"), vec!['a', ' ', 'b']);
    assert_eq!(characters(""), Vec::<char>::new());
    assert_eq!(characters("é@"), vec!['é', '@']);
}

#[test]
fn blank_space_is_spaces_and_comments() {
    let skipped = |text: &str| any_whitespace(&characters(text), 0);
    assert_eq!(skipped(""), 0);
    assert_eq!(skipped("x"), 0);
    assert_eq!(skipped("  \t\r\n x"), 6);
    assert_eq!(skipped("// note\nx"), 8);
    assert_eq!(skipped("// note"), 7);
    assert_eq!(skipped("//\n//\n x"), 7);
    assert_eq!(skipped("/* a */x"), 7);
    assert_eq!(skipped("/**/x"), 4);
    assert_eq!(skipped("/* a * / b */ /* c */  x"), 23);
    assert_eq!(skipped("/* never closed"), 0);
    assert_eq!(skipped("/*/ x"), 0);
    assert_eq!(skipped(" /* never closed"), 1);
    assert_eq!(skipped("/ x"), 0);
    assert_eq!(any_whitespace(&characters("ab  c"), 2), 4);
}

#[test]
fn some_blank_space_is_asked_for_unless_the_text_ends() {
    let inp = characters("a b");
    assert!(matches!(some_whitespace(&inp, 1), Parse::Done((), 2)));
    assert!(matches!(some_whitespace(&inp, 0), Parse::Miss));
    assert!(matches!(some_whitespace(&inp, 3), Parse::Done((), 3)));
}

#[test]
fn signs_and_keywords_take_the_blank_space_behind_them() {
    let inp = characters("fn  main fnx fn");
    assert!(tag(&inp, 0, &['f', 'n']));
    assert!(!tag(&inp, 1, &['f', 'n']));
    assert!(!tag(&inp, 14, &['f', 'n', 'x']));
    assert_eq!(lexeme(&inp, 0, &['f', 'n']), Some(4));
    assert_eq!(lexeme(&inp, 9, &['f', 'n']), Some(11));
    assert_eq!(lexeme_ws(&inp, 0, &['f', 'n']), Some(4));
    assert_eq!(lexeme_ws(&inp, 9, &['f', 'n']), None);
    assert_eq!(lexeme_ws(&inp, 13, &['f', 'n']), Some(15));
    assert_eq!(lexeme_ws(&inp, 4, &['f', 'n']), None);
}

#[test]
fn identifiers_are_runs_of_letters() {
    let read = |text: &str| match identifier(&characters(text), 0) {
        Parse::Done(name, end) => Some((name, end)),
        _ => None,
    };
    assert_eq!(read("main {"), Some(("main".to_string(), 5)));
    assert_eq!(read("a_B("), Some(("a_B".to_string(), 3)));
    assert_eq!(read("_"), Some(("_".to_string(), 1)));
    assert_eq!(read("x1"), Some(("x".to_string(), 1)));
    assert_eq!(read("x // c\n y"), Some(("x".to_string(), 8)));
    assert_eq!(read("1x"), None);
    assert_eq!(read(""), None);
    assert_eq!(read(" x"), None);
}

#[test]
fn variables_have_an_at_sign_right_before_the_name() {
    let read = |text: &str| match var(&characters(text), 0) {
        Parse::Done(name, end) => Some((name, end)),
        _ => None,
    };
    assert_eq!(read("@x "), Some(("x".to_string(), 3)));
    assert_eq!(read("@ x"), None);
    assert_eq!(read("x"), None);
    assert_eq!(read("@1"), None);
}

#[test]
fn numbers_are_decimal_and_must_fit() {
    let read = |text: &str| number(&characters(text), 0);
    assert!(matches!(read("0"), Parse::Done(0, 1)));
    assert!(matches!(read("007 "), Parse::Done(7, 4)));
    assert!(matches!(read("1234567890x"), Parse::Done(1234567890, 10)));
    assert!(matches!(read("9223372036854775807"), Parse::Done(i64::MAX, 19)));
    assert!(matches!(read("9223372036854775808"), Parse::Fail(0)));
    assert!(matches!(read("99999999999999999999999"), Parse::Fail(0)));
    assert!(matches!(read("-1"), Parse::Miss));
    assert!(matches!(read("x"), Parse::Miss));
    assert!(matches!(read(""), Parse::Miss));
}

#[test]
fn operands_are_read_as_written() {
    assert_eq!(read_expression("12"), "12");
    assert_eq!(read_expression("@x"), "@x");
    assert_eq!(read_expression(":pair(1, @x)"), "pair(1,@x)");
    assert_eq!(read_expression(":ok"), "ok()");
    assert_eq!(read_expression(": ok"), "fail 1");
    assert_eq!(read_expression("v[1, 2 ,3 ]"), "[1,2,3]");
    assert_eq!(read_expression("v[]"), "[]");
    assert_eq!(read_expression("s[ :a, :a ]"), "{a(),a()}");
    assert_eq!(read_expression("v[v[1], s[]]"), "[[1],{}]");
    assert_eq!(read_expression("f(1, 2)"), "call f(1,2)");
    assert_eq!(read_expression("f"), "call f()");
    assert_eq!(read_expression("call :f(1)"), "call f(1)");
    assert_eq!(read_expression("call f"), "call call f()");
    assert_eq!(read_expression("call @x"), "call @x");
    assert_eq!(read_expression("call(1)"), "call call(1)");
    assert_eq!(read_expression("v"), "call v()");
    assert_eq!(read_expression("vv(1)"), "call vv(1)");
}

#[test]
fn operators_group_by_precedence_and_to_the_left() {
    assert_eq!(read_expression("10 - 3"), "(10 Subtract 3)");
    assert_eq!(read_expression("1 + 2 * 3"), "(1 Add (2 Multiply 3))");
    assert_eq!(read_expression("1 * 2 + 3"), "((1 Multiply 2) Add 3)");
    assert_eq!(read_expression("10 - 3 - 2"), "((10 Subtract 3) Subtract 2)");
    assert_eq!(read_expression("8 / 4 / 2"), "((8 Divide 4) Divide 2)");
    assert_eq!(read_expression("1 + 2 < 3 * 4 - 5"), "((1 Add 2) Lt ((3 Multiply 4) Subtract 5))");
    assert_eq!(read_expression("1 < 2 == 3 + 4 * 5"), "((1 Lt 2) Eq (3 Add (4 Multiply 5)))");
    assert_eq!(read_expression("@a<=@b"), "(@a Le @b)");
    assert_eq!(read_expression("@a >= @b"), "(@a Ge @b)");
    assert_eq!(read_expression("@a < @b"), "(@a Lt @b)");
    assert_eq!(read_expression("@a > @b"), "(@a Gt @b)");
    assert_eq!(read_expression("@a == @b"), "(@a Eq @b)");
    assert_eq!(read_expression("@a != @b"), "(@a Ne @b)");
    assert_eq!(read_expression("@a / @b"), "(@a Divide @b)");
    assert_eq!(read_expression("@a /* over */ / // by\n @b"), "(@a Divide @b)");
    assert_eq!(read_expression("f(1) + g"), "(call f(1) Add call g())");
}

#[test]
fn malformed_operands_fail_where_they_break() {
    assert_eq!(read_expression("v[1, ]"), "fail 5");
    assert_eq!(read_expression("v[1"), "fail 3");
    assert_eq!(read_expression("v[1 2]"), "fail 4");
    assert_eq!(read_expression(":f()"), "fail 3");
    assert_eq!(read_expression(":f(1"), "fail 4");
    assert_eq!(read_expression("f(,)"), "fail 2");
    assert_eq!(read_expression("1 +"), "fail 3");
    assert_eq!(read_expression("1 + +"), "fail 4");
    assert_eq!(read_expression("call "), "fail 5");
    assert_eq!(read_expression(":1"), "fail 1");
    assert_eq!(read_expression("99999999999999999999"), "fail 0");
    assert_eq!(read_expression("+"), "miss");
    assert_eq!(read_expression(""), "miss");
    assert_eq!(read_expression("("), "miss");
}

#[test]
fn patterns_are_read_as_written() {
    assert_eq!(read_pattern("5"), "5");
    assert_eq!(read_pattern("@x"), "@x");
    assert_eq!(read_pattern(":pair(@x, 1)"), "pair(@x,1)");
    assert_eq!(read_pattern(":no"), "no()");
    assert_eq!(read_pattern("v[@a, :b(@c), v[]]"), "[@a,b(@c),[]]");
    assert_eq!(read_pattern("pair(@x)"), "miss");
    assert_eq!(read_pattern(":"), "miss");
    assert_eq!(read_pattern("s[1]"), "miss");
    assert_eq!(read_pattern(":pair()"), "fail 6");
    assert_eq!(read_pattern(":pair(1"), "fail 7");
    assert_eq!(read_pattern("v[1,"), "fail 4");
}

#[test]
fn conditions_are_patterns_or_expressions() {
    let read = |text: &str| match condition(&characters(text), 0) {
        Parse::Done(Condition::Let(p, e), _) => format!("let {} = {}", show_pattern(&p), show(&e)),
        Parse::Done(Condition::Bare(e), _) => show(&e),
        Parse::Miss => "miss".to_string(),
        Parse::Fail(at) => format!("fail {}", at),
    };
    assert_eq!(read("let :yes(@v) = @x "), "let yes(@v) = @x");
    assert_eq!(read("@n < 2 "), "(@n Lt 2)");
    assert_eq!(read("let "), "call let()");
    assert_eq!(read("let @x "), "call let()");
    assert_eq!(read("letter "), "call letter()");
}

#[test]
fn statements_are_read_as_written() {
    assert_eq!(read_statement("let @x = 5."), "let @x = 5.");
    assert_eq!(read_statement("  let :pair(@x, @x) = :pair(5, 5) . "), "let pair(@x,@x) = pair(5,5).");
    assert_eq!(read_statement("now @x = @x + 1."), "now @x = (@x Add 1).");
    assert_eq!(read_statement("eval print(:got(1))."), "eval call print(got(1)).");
    assert_eq!(read_statement("print(:got(1))."), "eval call print(got(1)).");
    assert_eq!(read_statement("ret :r(3, @dude)."), "ret r(3,@dude).");
    assert_eq!(read_statement("ret 10 - 3."), "ret (10 Subtract 3).");
    assert_eq!(read_statement("letter."), "eval call letter().");
    assert_eq!(read_statement("if @a { ret 1. }"), "if @a {ret 1.}");
    assert_eq!(
        read_statement("if let :yes(@v) = :no { ret 1. } else { ret 2. }"),
        "if let yes(@v) = no() {ret 1.} else {ret 2.}"
    );
    assert_eq!(
        read_statement("if @a { } else if @b { ret 1. } else { ret 2. }"),
        "if @a {} else {if @b {ret 1.} else {ret 2.}}"
    );
    assert_eq!(read_statement("if @a {} else {if @b {}}"), "if @a {} else {if @b {}}");
}

#[test]
fn malformed_statements_are_errors() {
    assert_eq!(read_statement("let @x = 5"), "Malformed(10)");
    assert_eq!(read_statement("let = 5."), "Malformed(4)");
    assert_eq!(read_statement("let @x 5."), "Malformed(7)");
    assert_eq!(read_statement("now x = 5."), "Malformed(4)");
    assert_eq!(read_statement("ret ."), "Malformed(4)");
    assert_eq!(read_statement("eval"), "Malformed(4)");
    assert_eq!(read_statement("if { }"), "Malformed(3)");
    assert_eq!(read_statement("if @a ret 1."), "Malformed(6)");
    assert_eq!(read_statement("if @a { ret 1. "), "Malformed(15)");
    assert_eq!(read_statement("ret 1. ret 2."), "Unexpected(7)");
    assert_eq!(read_statement("5."), "Unexpected(0)");
    assert_eq!(read_statement(""), "Unexpected(0)");
    assert_eq!(read_statement("f(1)"), "Unexpected(0)");
    assert_eq!(read_statement("ret 1. /* open"), "Unexpected(7)");
    assert_eq!(read_statement("if @a {} else 5"), "Unexpected(9)");
}

#[test]
fn blocks_hold_statements() {
    let read = |text: &str| match block(&characters(text), 0) {
        Parse::Done(b, _) => show_block(&b.0),
        Parse::Miss => "miss".to_string(),
        Parse::Fail(at) => format!("fail {}", at),
    };
    assert_eq!(read("{}"), "{}");
    assert_eq!(read("{ ret 1. f. }"), "{ret 1. eval call f().}");
    assert_eq!(read("{ ret 1. "), "fail 9");
    assert_eq!(read("ret 1."), "miss");
    assert!(matches!(statement(&characters("}"), 0), Parse::Miss));
}

#[test]
fn procedures_have_a_name_arguments_and_a_body() {
    let p = parse_procedure("fn fib(@n, 1) { ret @n. }").unwrap();
    assert_eq!(p.name, "fib");
    assert_eq!(show_patterns(&p.args), "@n,1");
    assert_eq!(show_block(&p.body.0), "{ret @n.}");
    let p = parse_procedure(" fn main{}").unwrap();
    assert_eq!(p.name, "main");
    assert!(p.args.is_empty());
    assert!(p.body.0.is_empty());
    assert_eq!(parse_procedure("fn main() {}").err(), Some(ParseError::Malformed(8)));
    assert_eq!(parse_procedure("fn (x) {}").err(), Some(ParseError::Malformed(3)));
    assert_eq!(parse_procedure("fn main").err(), Some(ParseError::Malformed(7)));
    assert_eq!(parse_procedure("fnmain {}").err(), Some(ParseError::Unexpected(0)));
    assert_eq!(parse_procedure("fn a {} fn b {}").err(), Some(ParseError::Unexpected(8)));
    assert!(matches!(procedure(&characters("main {}"), 0), Parse::Miss));
}

#[test]
fn programs_are_procedures_one_after_the_other() {
    let m = parse_module("// two procedures\nfn a { } /* and */ fn b(@x) { ret @x. }\n").unwrap();
    assert_eq!(m.procedures.len(), 2);
    assert_eq!(m.procedures[0].name, "a");
    assert_eq!(m.procedures[1].name, "b");
    assert!(m.is_supported());
    assert_eq!(parse_module("").unwrap().procedures.len(), 0);
    assert_eq!(parse_module("  \n").unwrap().procedures.len(), 0);
    assert_eq!(parse_module("fn a { } x").err(), Some(ParseError::Unexpected(9)));
    assert_eq!(parse_module("fn a { ret 1 }").err(), Some(ParseError::Malformed(13)));
    assert!(matches!(module(&characters("x"), 0), Parse::Done(_, 0)));
    assert!(matches!(expression_implicit_call(&characters("5"), 0), Parse::Miss));
}

fn run(source: &str) -> Result<Value, Error> {
    let module = parse_module(source).unwrap();
    let mut interns = Interns::new(0);
    let executable = module.compile_into(&mut interns, Executable1::new()).unwrap();
    let start = Value::Compound(interns.intern("main"), vec![]);
    let mut bump = Bump::new();
    let mut vm = VM::go(&mut bump, &interns, &executable, &start)?;
    let mut steps = 0;
    while vm.is_running() {
        vm.update(&mut bump, &interns);
        steps += 1;
        assert!(steps < 1_000_000);
    }
    match vm {
        VM::Succeeded(value, _) => Ok(value),
        VM::Failed(e) => Err(e),
        _ => unreachable!(),
    }
}

#[test]
fn source_runs_from_text_to_value() {
    assert_eq!(run("fn main { ret 10 - 3. }"), Ok(Value::Integer(7)));
    assert_eq!(run("fn main { let :pair(@x, @x) = :pair(5, 5). ret @x. }"), Ok(Value::Integer(5)));
    assert_eq!(
        run("fn main { let :pair(@x, @x) = :pair(5, 6). ret @x. }"),
        Err(Error::SetAssertFailed)
    );
    assert_eq!(
        run("fn main { if let :yes(@v) = :no { ret 1. } else { ret 2. } }"),
        Ok(Value::Integer(2))
    );
    assert_eq!(
        run("fn f { ret 100. } fn f(@x) { ret @x + 1. } fn main { ret f + f(1). }"),
        Ok(Value::Integer(102))
    );
    assert_eq!(
        run("fn f { ret 100. } fn f(@x) { ret @x. } fn main { ret f(1, 2). }"),
        Err(Error::NoSuchProcedure)
    );
    assert_eq!(run("fn main { ret 2 * 3 + 4. }"), Ok(Value::Integer(10)));
    assert_eq!(run("fn main { ret 2 + 3 * 4. }"), Ok(Value::Integer(14)));
    assert_eq!(run("fn main { ret 10 - 3 - 2. }"), Ok(Value::Integer(5)));
    assert_eq!(run("fn main { ret 1 + 1 == 2. }"), Ok(Value::Bool(true)));
}

#[test]
fn recursive_source_composes() {
    let source = "
        fn fib(@n) {
            if @n < 2 { ret 1. }
            ret fib(@n - 1) + fib(@n - 2).
        }
        fn main {
            ret v[fib(0), fib(1), fib(2), fib(3), fib(4), fib(5), fib(6), fib(7)].
        }
    ";
    let expected = vec![1, 1, 2, 3, 5, 8, 13, 21].into_iter().map(Value::Integer).collect();
    assert_eq!(run(source), Ok(Value::Vector(expected)));
}

#[test]
fn logical_operators_have_no_sign() {
    let inp = characters("1 and 2");
    assert!(matches!(expression(&inp, 0), Parse::Done(Expression::IntLiteral(1), 2)));
    let inp = characters("1 or 2");
    assert!(matches!(expression(&inp, 0), Parse::Done(Expression::IntLiteral(1), 2)));
    assert_eq!(read_statement("ret 1 and 2."), "Malformed(6)");
}

#[test]
fn recursive_source_ends_after_the_steps_of_its_calls() {
    let source = "fn fib(@n) { if @n < 2 { ret 1. } ret fib(@n - 1) + fib(@n - 2). }";
    let module = parse_module(source).unwrap();
    let mut interns = Interns::new(0);
    let executable = module.compile_into(&mut interns, Executable1::new()).unwrap();
    let start = Value::Compound(interns.intern("fib"), vec![Value::Integer(4)]);
    let mut bump = Bump::new();
    let mut vm = VM::go(&mut bump, &interns, &executable, &start).unwrap();
    let mut steps = 0;
    while vm.is_running() {
        vm.update(&mut bump, &interns);
        steps += 1;
    }
    // fib(4): 18 + fib(3) + fib(2), fib(3): 18 + fib(2) + 8, fib(2): 18 + 8 + 8.
    assert_eq!(steps, 18 + (18 + 34 + 8) + 34);
    assert!(matches!(vm, VM::Succeeded(Value::Integer(5), _)));
}
