use termlang::bump::Bump;
use termlang::errors::runtime::Error;
use termlang::interns::{Intern, Interns};
use termlang::irs::executable1::{Executable1, FFIProcedure};
use termlang::irs::instruction2::{Instruction2, Ip};
use termlang::irs::procedure2::Procedure2;
use termlang::primitive::{Functor, Local, Operand, Value};
use termlang::satc::Satc;
use termlang::vm::bvalue::BValue;
use termlang::vm::runner::Runner;
use termlang::vm::VM;

use Instruction2::{
    Add, Assert, Call, ConstructCompound, ConstructSet, ConstructVector, Destruct,
    DestructCompound, DestructVector, Div, Equals, EqualsOperandAssert, Get, Jump, JumpNo, Mark,
    Pop, Push, Ret, SetAssert, SetVar, Subtract, Unmark,
};

enum Outcome {
    Value(Value, Vec<Option<Value>>),
    Failure(Error),
}

fn number(i: i64) -> Instruction2 {
    Push(Operand::Integer(i))
}

fn truth(b: bool) -> Instruction2 {
    Push(Operand::Bool(b))
}

fn tag(n: usize, arity: usize) -> Functor<Intern> {
    Functor(Intern(n), arity)
}

/// Runs `code` as the procedure 0/0. The frame starts with the callee on
/// its stack, which the first instruction drops.
fn run(code: Vec<Instruction2>, vars: usize) -> Outcome {
    let mut instructions = vec![Pop];
    instructions.extend(code);
    run_raw(instructions, vars)
}

fn run_raw(instructions: Vec<Instruction2>, vars: usize) -> Outcome {
    let procedure = Procedure2 { functor: tag(0, 0), instructions, vars };
    assert!(procedure.check());
    let mut executable = Executable1::new();
    executable.insert(tag(0, 0), FFIProcedure::Dynamic(procedure));
    let interns = Interns::new(0);
    let mut bump = Bump::new();
    let start = Value::Compound(Intern(0), vec![]);
    let mut vm = match VM::go(&mut bump, &interns, &executable, &start) {
        Ok(vm) => vm,
        Err(e) => return Outcome::Failure(e),
    };
    let mut steps = 0;
    while vm.is_running() {
        vm.update(&mut bump, &interns);
        steps += 1;
        assert!(steps < 10_000);
    }
    match vm {
        VM::Succeeded(value, vars) => Outcome::Value(value, vars),
        VM::Failed(e) => Outcome::Failure(e),
        _ => unreachable!(),
    }
}

fn value_of(outcome: Outcome) -> Value {
    match outcome {
        Outcome::Value(value, _) => value,
        Outcome::Failure(e) => panic!("failed: {:?}", e),
    }
}

fn failure_of(outcome: Outcome) -> Error {
    match outcome {
        Outcome::Value(value, _) => panic!("succeeded: {:?}", value),
        Outcome::Failure(e) => e,
    }
}

fn pair(a: i64, b: i64) -> Value {
    Value::Compound(Intern(7), vec![Value::Integer(a), Value::Integer(b)])
}

#[test]
fn right_operand_is_on_top() {
    assert_eq!(value_of(run(vec![number(10), number(3), Subtract, Ret], 0)), Value::Integer(7));
    assert_eq!(value_of(run(vec![number(7), number(2), Div, Ret], 0)), Value::Integer(3));
}

#[test]
fn construction_takes_operands_in_the_order_of_pushing() {
    let code = vec![number(1), number(2), ConstructCompound(tag(7, 2)), Ret];
    assert_eq!(value_of(run(code, 0)), pair(1, 2));
    let code = vec![number(1), number(2), number(3), ConstructVector(2), Ret];
    assert_eq!(value_of(run(code, 0)), Value::Vector(vec![Value::Integer(2), Value::Integer(3)]));
    let code = vec![ConstructVector(0), Ret];
    assert_eq!(value_of(run(code, 0)), Value::Vector(vec![]));
}

#[test]
fn construction_needs_its_operands() {
    let code = vec![number(1), ConstructVector(2), Ret];
    assert_eq!(failure_of(run(code, 0)), Error::NoMoreValues);
    let code = vec![ConstructCompound(tag(7, 1)), Ret];
    assert_eq!(failure_of(run(code, 0)), Error::NoMoreValues);
    let code = vec![ConstructSet(1), Ret];
    assert_eq!(failure_of(run(code, 0)), Error::NoMoreValues);
}

#[test]
fn set_construction_orders_by_kind_then_value() {
    let code = vec![
        ConstructVector(0),
        truth(true),
        number(5),
        truth(false),
        number(-5),
        ConstructCompound(tag(1, 0)),
        number(5),
        ConstructSet(7),
        Ret,
    ];
    let expected = Value::SetOf(vec![
        Value::Integer(-5),
        Value::Integer(5),
        Value::Bool(false),
        Value::Bool(true),
        Value::Compound(Intern(1), vec![]),
        Value::Vector(vec![]),
    ]);
    assert_eq!(value_of(run(code, 0)), expected);
}

#[test]
fn set_construction_orders_compounds_by_tag_then_parts() {
    let code = vec![
        number(2),
        ConstructCompound(tag(1, 1)),
        number(1),
        number(0),
        ConstructCompound(tag(1, 2)),
        number(1),
        ConstructCompound(tag(1, 1)),
        number(9),
        ConstructCompound(tag(0, 1)),
        ConstructSet(4),
        Ret,
    ];
    let expected = Value::SetOf(vec![
        Value::Compound(Intern(0), vec![Value::Integer(9)]),
        Value::Compound(Intern(1), vec![Value::Integer(1)]),
        Value::Compound(Intern(1), vec![Value::Integer(1), Value::Integer(0)]),
        Value::Compound(Intern(1), vec![Value::Integer(2)]),
    ]);
    assert_eq!(value_of(run(code, 0)), expected);
}

#[test]
fn destructure_pushes_parts_so_that_the_first_ends_on_top() {
    let code = vec![number(1), number(2), ConstructCompound(tag(7, 2)), Destruct(2), Ret];
    assert_eq!(value_of(run(code, 0)), Value::Integer(1));
    let code = vec![number(1), number(2), ConstructCompound(tag(7, 2)), Destruct(2), Pop, Ret];
    assert_eq!(value_of(run(code, 0)), Value::Integer(2));
    let code = vec![number(1), number(2), ConstructVector(2), DestructVector(2), Ret];
    assert_eq!(value_of(run(code, 0)), Value::Integer(1));
    let code = vec![number(1), number(2), ConstructVector(2), Destruct(2), Pop, Ret];
    assert_eq!(value_of(run(code, 0)), Value::Integer(2));
}

#[test]
fn destructure_of_a_wrong_shape_fails() {
    let code = vec![number(1), ConstructCompound(tag(7, 1)), DestructCompound(tag(8, 1)), Ret];
    assert_eq!(failure_of(run(code, 0)), Error::DestructWrongType);
    let code = vec![number(1), ConstructCompound(tag(7, 1)), DestructCompound(tag(7, 2)), Ret];
    assert_eq!(failure_of(run(code, 0)), Error::DestructWrongType);
    let code = vec![number(1), ConstructCompound(tag(7, 1)), DestructVector(1), Ret];
    assert_eq!(failure_of(run(code, 0)), Error::DestructWrongType);
    let code = vec![number(1), Destruct(0), Ret];
    assert_eq!(failure_of(run(code, 0)), Error::DestructWrongType);
    let code = vec![number(1), ConstructSet(1), Destruct(1), Ret];
    assert_eq!(failure_of(run(code, 0)), Error::DestructWrongType);
    let code = vec![Destruct(1), Ret];
    assert_eq!(failure_of(run(code, 0)), Error::NoMoreValues);
}

#[test]
fn stack_that_is_empty_gives_no_value() {
    assert_eq!(failure_of(run(vec![Ret], 0)), Error::NoMoreValues);
    assert_eq!(failure_of(run(vec![Pop], 0)), Error::NoMoreValues);
    assert_eq!(failure_of(run(vec![Call], 0)), Error::NoMoreValues);
    assert_eq!(failure_of(run(vec![Assert], 0)), Error::NoMoreValues);
    assert_eq!(failure_of(run(vec![Equals], 0)), Error::NoMoreValues);
    assert_eq!(failure_of(run(vec![number(1), Equals], 0)), Error::NoMoreValues);
    assert_eq!(failure_of(run(vec![Add], 0)), Error::NoMoreValues);
    assert_eq!(failure_of(run(vec![number(1), Add], 0)), Error::NoMoreValues);
    assert_eq!(failure_of(run(vec![SetVar(Local(0))], 1)), Error::NoMoreValues);
    assert_eq!(failure_of(run(vec![SetAssert(Local(0))], 1)), Error::NoMoreValues);
    assert_eq!(failure_of(run(vec![JumpNo(Ip(0))], 0)), Error::NoMoreValues);
    assert_eq!(failure_of(run(vec![Mark(Ip(0), false)], 0)), Error::NoMoreValues);
    assert_eq!(failure_of(run(vec![EqualsOperandAssert(Operand::Integer(1))], 0)), Error::NoMoreValues);
}

#[test]
fn code_that_ends_without_a_return_runs_out() {
    assert_eq!(failure_of(run(vec![number(1)], 0)), Error::OutOfCode);
    assert_eq!(failure_of(run_raw(vec![], 0)), Error::OutOfCode);
    assert_eq!(failure_of(run(vec![Jump(Ip(100))], 0)), Error::OutOfCode);
}

#[test]
fn arithmetic_needs_two_integers() {
    assert_eq!(failure_of(run(vec![number(1), truth(true), Add], 0)), Error::NotNumbers);
    assert_eq!(failure_of(run(vec![truth(true), number(1), Add], 0)), Error::NotNumbers);
    assert_eq!(failure_of(run(vec![number(1), number(0), Div], 0)), Error::DivisionByZero);
}

#[test]
fn assert_passes_on_true_only() {
    assert_eq!(value_of(run(vec![truth(true), Assert, number(1), Ret], 0)), Value::Integer(1));
    assert_eq!(failure_of(run(vec![truth(false), Assert], 0)), Error::AssertionFailed);
    assert_eq!(failure_of(run(vec![number(1), Assert], 0)), Error::ConditionalWrongType);
}

#[test]
fn literal_check_passes_on_its_constant_only() {
    let check = |push: Instruction2, constant: Operand| {
        run(vec![push, EqualsOperandAssert(constant), number(1), Ret], 0)
    };
    assert_eq!(value_of(check(number(4), Operand::Integer(4))), Value::Integer(1));
    assert_eq!(value_of(check(truth(false), Operand::Bool(false))), Value::Integer(1));
    assert_eq!(failure_of(check(number(5), Operand::Integer(4))), Error::AssertionFailed);
    assert_eq!(failure_of(check(truth(true), Operand::Bool(false))), Error::AssertionFailed);
    assert_eq!(failure_of(check(truth(true), Operand::Integer(1))), Error::AssertionFailed);
}

#[test]
fn equals_compares_whole_values() {
    let same = vec![number(1), ConstructVector(1), number(1), ConstructVector(1), Equals, Ret];
    assert_eq!(value_of(run(same, 0)), Value::Bool(true));
    let other = vec![number(1), ConstructVector(1), number(2), ConstructVector(1), Equals, Ret];
    assert_eq!(value_of(run(other, 0)), Value::Bool(false));
    let kinds = vec![number(1), truth(true), Equals, Ret];
    assert_eq!(value_of(run(kinds, 0)), Value::Bool(false));
    let arities = vec![
        ConstructCompound(tag(7, 0)),
        number(1),
        ConstructCompound(tag(7, 1)),
        Equals,
        Ret,
    ];
    assert_eq!(value_of(run(arities, 0)), Value::Bool(false));
}

#[test]
fn jumps_go_where_they_say() {
    // 0: Pop, 1: Jump 3, 2: Push 1, 3: Push 2, 4: Ret
    let code = vec![Jump(Ip(3)), number(1), number(2), Ret];
    assert_eq!(value_of(run(code, 0)), Value::Integer(2));
    // 0: Pop, 1: Push false, 2: JumpNo 5, 3: Push 1, 4: Ret, 5: Push 2, 6: Ret
    let code = vec![truth(false), JumpNo(Ip(5)), number(1), Ret, number(2), Ret];
    assert_eq!(value_of(run(code, 0)), Value::Integer(2));
    let code = vec![truth(true), JumpNo(Ip(5)), number(1), Ret, number(2), Ret];
    assert_eq!(value_of(run(code, 0)), Value::Integer(1));
    let code = vec![number(0), JumpNo(Ip(5)), number(1), Ret, number(2), Ret];
    assert_eq!(failure_of(run(code, 0)), Error::ConditionalWrongType);
}

#[test]
fn slots_bind_check_and_overwrite() {
    let code = vec![number(1), SetAssert(Local(0)), number(1), SetAssert(Local(0)), Get(Local(0)), Ret];
    assert_eq!(value_of(run(code, 1)), Value::Integer(1));
    let code = vec![number(1), SetAssert(Local(0)), number(2), SetAssert(Local(0)), Get(Local(0)), Ret];
    assert_eq!(failure_of(run(code, 1)), Error::SetAssertFailed);
    let code = vec![number(1), SetVar(Local(0)), number(2), SetVar(Local(0)), Get(Local(0)), Ret];
    assert_eq!(value_of(run(code, 1)), Value::Integer(2));
    assert_eq!(failure_of(run(vec![Get(Local(0)), Ret], 1)), Error::GetUnset);
}

#[test]
fn success_shows_the_slots_of_the_last_frame() {
    let code = vec![number(1), SetVar(Local(1)), number(2), Ret];
    match run(code, 3) {
        Outcome::Value(value, vars) => {
            assert_eq!(value, Value::Integer(2));
            assert_eq!(vars, vec![None, Some(Value::Integer(1)), None]);
        }
        Outcome::Failure(e) => panic!("failed: {:?}", e),
    }
}

#[test]
fn value_read_from_a_slot_can_be_taken_apart_twice() {
    let code = vec![
        number(1),
        number(2),
        ConstructCompound(tag(7, 2)),
        SetVar(Local(0)),
        Get(Local(0)),
        Destruct(2),
        Pop,
        Pop,
        Get(Local(0)),
        Destruct(2),
        Pop,
        SetVar(Local(1)),
        Get(Local(0)),
        Get(Local(1)),
        ConstructVector(2),
        Ret,
    ];
    let expected = Value::Vector(vec![pair(1, 2), Value::Integer(2)]);
    assert_eq!(value_of(run(code, 2)), expected);
}

#[test]
fn unmark_outside_a_region_fails() {
    assert_eq!(failure_of(run(vec![Unmark], 0)), Error::UnmarkMustBeMarked);
}

fn marked(value: Vec<Instruction2>, region: Vec<Instruction2>, keep: bool, vars: usize) -> Outcome {
    // 0: Pop, value.., Mark, region.., Unmark, Push 1, Ret, else: Push 0, Ret
    let else_ip = 1 + value.len() + 1 + region.len() + 1 + 2;
    let mut code = value;
    code.push(Mark(Ip(else_ip), keep));
    code.extend(region);
    code.extend(vec![Unmark, number(1), Ret, number(0), Ret]);
    run(code, vars)
}

fn a_pair(a: i64, b: i64) -> Vec<Instruction2> {
    vec![number(a), number(b), ConstructCompound(tag(7, 2))]
}

#[test]
fn marked_match_binds_and_continues_behind_the_region() {
    let region = vec![DestructCompound(tag(7, 2)), SetAssert(Local(0)), SetAssert(Local(1))];
    match marked(a_pair(1, 2), region, false, 2) {
        Outcome::Value(value, vars) => {
            assert_eq!(value, Value::Integer(1));
            assert_eq!(vars, vec![Some(Value::Integer(1)), Some(Value::Integer(2))]);
        }
        Outcome::Failure(e) => panic!("failed: {:?}", e),
    }
}

#[test]
fn marked_mismatch_binds_nothing_and_continues_at_the_else_address() {
    let region = vec![
        DestructCompound(tag(7, 2)),
        SetAssert(Local(0)),
        EqualsOperandAssert(Operand::Integer(3)),
    ];
    match marked(a_pair(1, 2), region, false, 1) {
        Outcome::Value(value, vars) => {
            assert_eq!(value, Value::Integer(0));
            assert_eq!(vars, vec![None]);
        }
        Outcome::Failure(e) => panic!("failed: {:?}", e),
    }
}

#[test]
fn marked_match_joins_repeated_slots() {
    let region = vec![DestructCompound(tag(7, 2)), SetAssert(Local(0)), SetAssert(Local(0))];
    assert_eq!(value_of(marked(a_pair(5, 5), region.clone(), false, 1)), Value::Integer(1));
    match marked(a_pair(5, 6), region, false, 1) {
        Outcome::Value(value, vars) => {
            assert_eq!(value, Value::Integer(0));
            assert_eq!(vars, vec![None]);
        }
        Outcome::Failure(e) => panic!("failed: {:?}", e),
    }
}

#[test]
fn marked_match_checks_a_slot_that_is_bound_already() {
    let region = vec![DestructCompound(tag(7, 2)), SetAssert(Local(0)), SetAssert(Local(1))];
    let bound = |first: i64| {
        let mut value = vec![number(first), SetVar(Local(0))];
        value.extend(a_pair(1, 2));
        value
    };
    assert_eq!(value_of(marked(bound(1), region.clone(), false, 2)), Value::Integer(1));
    match marked(bound(9), region, false, 2) {
        Outcome::Value(value, vars) => {
            assert_eq!(value, Value::Integer(0));
            assert_eq!(vars, vec![Some(Value::Integer(9)), None]);
        }
        Outcome::Failure(e) => panic!("failed: {:?}", e),
    }
}

#[test]
fn marked_mismatch_gives_the_value_back_if_asked() {
    // 0: Pop, 1..3: pair, 4: Mark(7, keep), 5: DestructVector, 6: Unmark, 7: Ret
    let code = |keep: bool| {
        let mut code = a_pair(1, 2);
        code.extend(vec![Mark(Ip(7), keep), DestructVector(2), Unmark, Ret]);
        code
    };
    assert_eq!(value_of(run(code(true), 0)), pair(1, 2));
    assert_eq!(failure_of(run(code(false), 0)), Error::NoMoreValues);
}

#[test]
fn marked_region_holds_pattern_instructions_only() {
    for bad in vec![Pop, number(1), Get(Local(0)), SetVar(Local(0)), Ret, Jump(Ip(0)), Equals] {
        let outcome = marked(a_pair(1, 2), vec![DestructCompound(tag(7, 2)), bad], false, 1);
        assert_eq!(failure_of(outcome), Error::MarkInvalidInstruction);
    }
}

#[test]
fn mark_in_a_marked_region_is_a_second_mark() {
    let nested = vec![Mark(Ip(0), false)];
    assert_eq!(failure_of(marked(a_pair(1, 2), nested, false, 0)), Error::CantMarkTwice);
    let later = vec![DestructCompound(tag(7, 2)), Mark(Ip(0), true), Pop];
    assert_eq!(failure_of(marked(a_pair(1, 2), later, false, 0)), Error::CantMarkTwice);
    let earlier = vec![Pop, Mark(Ip(0), true)];
    assert_eq!(failure_of(marked(a_pair(1, 2), earlier, false, 0)), Error::MarkInvalidInstruction);
}

#[test]
fn marked_region_is_checked_before_the_value_is() {
    let region = vec![DestructVector(2), Pop];
    assert_eq!(failure_of(marked(a_pair(1, 2), region, false, 0)), Error::MarkInvalidInstruction);
}

#[test]
fn marked_region_without_an_end_runs_out_of_code() {
    let mut code = a_pair(1, 2);
    code.extend(vec![Mark(Ip(0), false), DestructCompound(tag(7, 2))]);
    assert_eq!(failure_of(run(code, 0)), Error::OutOfCode);
}

#[test]
fn marked_region_that_takes_too_many_values_fails() {
    let region = vec![SetAssert(Local(0)), SetAssert(Local(1))];
    assert_eq!(failure_of(marked(a_pair(1, 2), region, false, 2)), Error::UnmarkWrongStackSize);
}

#[test]
fn marked_region_that_takes_too_few_values_fails() {
    let region = vec![DestructCompound(tag(7, 2)), SetAssert(Local(0))];
    assert_eq!(failure_of(marked(a_pair(1, 2), region, false, 1)), Error::UnmarkWrongStackSize);
    assert_eq!(failure_of(marked(a_pair(1, 2), vec![], false, 0)), Error::UnmarkWrongStackSize);
}

#[test]
fn marked_mismatch_comes_before_a_count_of_values() {
    let region = vec![DestructCompound(tag(7, 2)), EqualsOperandAssert(Operand::Integer(9))];
    assert_eq!(value_of(marked(a_pair(1, 2), region, false, 0)), Value::Integer(0));
}

#[test]
fn call_needs_a_compound_that_names_a_procedure() {
    assert_eq!(failure_of(run(vec![number(1), Call], 0)), Error::CallNotCompound);
    assert_eq!(failure_of(run(vec![ConstructVector(0), Call], 0)), Error::CallNotCompound);
    assert_eq!(failure_of(run(vec![ConstructCompound(tag(3, 0)), Call], 0)), Error::NoSuchProcedure);
    assert_eq!(
        failure_of(run(vec![number(1), ConstructCompound(tag(0, 1)), Call], 0)),
        Error::NoSuchProcedure
    );
}

#[test]
fn machine_does_not_start_on_what_is_no_procedure() {
    let executable = Executable1::new();
    let interns = Interns::new(0);
    let mut bump = Bump::new();
    let outcome = VM::go(&mut bump, &interns, &executable, &Value::Integer(1));
    assert!(matches!(outcome, Err(Error::CallNotCompound)));
    let outcome = VM::go(&mut bump, &interns, &executable, &Value::Compound(Intern(0), vec![]));
    assert!(matches!(outcome, Err(Error::NoSuchProcedure)));
}

#[test]
fn machine_without_frames_fails_on_update() {
    let executable = Executable1::new();
    let interns = Interns::new(0);
    let mut bump = Bump::new();
    let runner = Runner::new(&executable);
    assert!(matches!(runner.update(&mut bump, &interns), Err(Error::NoMoreFrames)));
}

#[test]
fn machine_that_has_ended_stays_as_it_is() {
    let interns = Interns::new(0);
    let mut bump = Bump::new();
    let mut vm = VM::Failed(Error::GetUnset);
    vm.update(&mut bump, &interns);
    assert!(matches!(vm, VM::Failed(Error::GetUnset)));
    assert!(!vm.is_running());
    let mut vm = VM::Succeeded(Value::Integer(1), vec![None]);
    vm.update(&mut bump, &interns);
    match vm {
        VM::Succeeded(value, vars) => {
            assert_eq!(value, Value::Integer(1));
            assert_eq!(vars, vec![None]);
        }
        _ => panic!("changed"),
    }
    let mut vm = VM::Updating;
    vm.update(&mut bump, &interns);
    assert!(matches!(vm, VM::Failed(Error::UpdatedWhileUpdating)));
}

#[test]
fn return_hands_the_value_to_the_caller() {
    let callee = Procedure2 { functor: tag(1, 1), instructions: vec![Destruct(1), Ret], vars: 0 };
    let caller = Procedure2 {
        functor: tag(0, 0),
        instructions: vec![
            Pop,
            number(40),
            number(2),
            ConstructCompound(tag(1, 1)),
            Call,
            Add,
            Ret,
        ],
        vars: 0,
    };
    let mut executable = Executable1::new();
    executable.insert(tag(1, 1), FFIProcedure::Dynamic(callee));
    executable.insert(tag(0, 0), FFIProcedure::Dynamic(caller));
    let interns = Interns::new(0);
    let mut bump = Bump::new();
    let start = Value::Compound(Intern(0), vec![]);
    let mut vm = match VM::go(&mut bump, &interns, &executable, &start) {
        Ok(vm) => vm,
        Err(e) => panic!("does not start: {:?}", e),
    };
    while vm.is_running() {
        vm.update(&mut bump, &interns);
    }
    match vm {
        VM::Succeeded(value, _) => assert_eq!(value, Value::Integer(42)),
        _ => panic!("did not succeed"),
    }
}

#[test]
fn procedure_that_names_a_slot_it_lacks_is_not_well_formed() {
    let procedure = Procedure2 { functor: tag(0, 0), instructions: vec![Get(Local(1))], vars: 1 };
    assert!(!procedure.check());
    let procedure = Procedure2 { functor: tag(0, 0), instructions: vec![Get(Local(0))], vars: 1 };
    assert!(procedure.check());
}

#[test]
fn run_stops_at_the_end_or_when_the_fuel_is_spent() {
    let procedure = Procedure2 {
        functor: tag(0, 0),
        instructions: vec![Pop, number(1), number(2), Add, Ret],
        vars: 0,
    };
    let mut executable = Executable1::new();
    executable.insert(tag(0, 0), FFIProcedure::Dynamic(procedure));
    let interns = Interns::new(0);
    let start = Value::Compound(Intern(0), vec![]);

    let mut bump = Bump::new();
    let mut vm = VM::go(&mut bump, &interns, &executable, &start).ok().unwrap();
    assert_eq!(vm.run(&mut bump, &interns, 3), 3);
    assert!(vm.is_running());
    assert_eq!(vm.run(&mut bump, &interns, 0), 0);
    assert!(vm.is_running());
    assert_eq!(vm.run(&mut bump, &interns, 100), 2);
    assert!(matches!(vm, VM::Succeeded(Value::Integer(3), _)));
    assert_eq!(vm.run(&mut bump, &interns, 100), 0);

    let mut bump = Bump::new();
    let mut vm = VM::go(&mut bump, &interns, &executable, &start).ok().unwrap();
    assert_eq!(vm.run(&mut bump, &interns, 5), 5);
    assert!(matches!(vm, VM::Succeeded(Value::Integer(3), _)));
}

#[test]
fn run_does_not_end_a_program_that_loops() {
    let procedure = Procedure2 { functor: tag(0, 0), instructions: vec![Jump(Ip(0))], vars: 0 };
    let mut executable = Executable1::new();
    executable.insert(tag(0, 0), FFIProcedure::Dynamic(procedure));
    let interns = Interns::new(0);
    let start = Value::Compound(Intern(0), vec![]);
    let mut bump = Bump::new();
    let mut vm = VM::go(&mut bump, &interns, &executable, &start).ok().unwrap();
    assert_eq!(vm.run(&mut bump, &interns, 1000), 1000);
    assert!(vm.is_running());
}

#[test]
fn read_of_a_slot_leaves_slot_and_operand_on_one_cell() {
    let procedure = Procedure2 {
        functor: tag(0, 0),
        instructions: vec![Pop, number(5), SetVar(Local(0)), Get(Local(0)), Ret],
        vars: 1,
    };
    let mut executable = Executable1::new();
    executable.insert(tag(0, 0), FFIProcedure::Dynamic(procedure));
    let interns = Interns::new(0);
    let mut bump = Bump::new();
    let start = Value::Compound(Intern(0), vec![]);
    let mut vm = VM::go(&mut bump, &interns, &executable, &start).unwrap();
    for _ in 0..3 {
        vm.update(&mut bump, &interns);
    }
    match &vm {
        VM::Running(runner) => {
            let frame = runner.f.last().unwrap();
            assert!(matches!(frame.v[0], Some(Satc::Unique(BValue::Integer(5)))));
            assert!(frame.s.is_empty());
        }
        _ => panic!("does not run"),
    }
    vm.update(&mut bump, &interns);
    match &vm {
        VM::Running(runner) => {
            let frame = runner.f.last().unwrap();
            let cell = match frame.v[0] {
                Some(Satc::Borrowed(ix)) => ix,
                _ => panic!("the slot owns its value"),
            };
            assert_eq!(frame.s.len(), 1);
            assert!(matches!(frame.s[0], Satc::Borrowed(ix) if ix == cell));
            assert!(matches!(bump.get(cell), BValue::Integer(5)));
        }
        _ => panic!("does not run"),
    }
    vm.update(&mut bump, &interns);
    match vm {
        VM::Succeeded(value, vars) => {
            assert_eq!(value, Value::Integer(5));
            assert_eq!(vars, vec![Some(Value::Integer(5))]);
        }
        _ => panic!("did not succeed"),
    }
}

#[test]
fn call_enters_the_procedure_that_stands_under_the_functor() {
    let stored = Procedure2 { functor: tag(9, 3), instructions: vec![Pop, number(1), Ret], vars: 0 };
    let other = Procedure2 { functor: tag(0, 0), instructions: vec![Pop, number(2), Ret], vars: 0 };
    let mut executable = Executable1::new();
    executable.insert(tag(0, 0), FFIProcedure::Dynamic(stored));
    executable.insert(tag(9, 3), FFIProcedure::Dynamic(other));
    let interns = Interns::new(0);
    let mut bump = Bump::new();
    let start = Value::Compound(Intern(0), vec![]);
    let mut vm = VM::go(&mut bump, &interns, &executable, &start).unwrap();
    match &vm {
        VM::Running(runner) => {
            let frame = runner.f.last().unwrap();
            assert_eq!(frame.c.functor.0, Intern(9));
            assert_eq!(frame.c.functor.1, 3);
            assert_eq!(frame.c.instructions, vec![Pop, number(1), Ret]);
        }
        _ => panic!("does not run"),
    }
    while vm.is_running() {
        vm.update(&mut bump, &interns);
    }
    assert!(matches!(vm, VM::Succeeded(Value::Integer(1), _)));
}

#[test]
fn step_that_fails_is_an_error_of_the_runner() {
    let fails = |instructions: Vec<Instruction2>, steps: usize| -> Error {
        let procedure = Procedure2 { functor: tag(0, 0), instructions, vars: 1 };
        let mut executable = Executable1::new();
        executable.insert(tag(0, 0), FFIProcedure::Dynamic(procedure));
        let interns = Interns::new(0);
        let mut bump = Bump::new();
        let start = Value::Compound(Intern(0), vec![]);
        let mut vm = VM::go(&mut bump, &interns, &executable, &start).unwrap();
        for _ in 0..steps {
            vm.update(&mut bump, &interns);
        }
        match vm {
            VM::Running(runner) => match runner.update(&mut bump, &interns) {
                Err(e) => e,
                Ok(_) => panic!("the step went through"),
            },
            _ => panic!("does not run"),
        }
    };
    assert_eq!(fails(vec![Pop], 1), Error::OutOfCode);
    assert_eq!(fails(vec![Pop, Get(Local(0))], 1), Error::GetUnset);
    assert_eq!(fails(vec![Pop, number(1), truth(true), Add], 3), Error::NotNumbers);
    assert_eq!(
        fails(vec![Pop, number(1), SetVar(Local(0)), number(2), SetAssert(Local(0))], 4),
        Error::SetAssertFailed
    );
    assert_eq!(fails(vec![Pop, number(1), DestructVector(1)], 2), Error::DestructWrongType);
    assert_eq!(fails(vec![Pop, Pop], 1), Error::NoMoreValues);
}
