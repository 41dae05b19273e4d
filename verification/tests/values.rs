use termlang::bump::traits::BumpClone;
use termlang::bump::Bump;
use termlang::errors::runtime::Error;
use termlang::interns::{Intern, Interns};
use termlang::irs::procedure2::Procedure2;
use termlang::library::{print_line, render};
use termlang::primitive::{Functor, Value};
use termlang::satc::Satc;
use termlang::vm::bvalue::BValue;
use termlang::vm::order::{compare_values, insert_value, make_set, Order};
use termlang::vm::stackframe::{Num2, StackFrame};

fn sample() -> Value {
    Value::Compound(
        Intern(3),
        vec![
            Value::Integer(-4),
            Value::Bool(true),
            Value::Vector(vec![Value::Integer(1), Value::Compound(Intern(0), vec![])]),
            Value::SetOf(vec![Value::Integer(1), Value::Integer(2)]),
        ],
    )
}

#[test]
fn lower_and_raise_are_inverse() {
    let bump = Bump::new();
    let value = sample();
    let lowered = BValue::lower(&bump, &value);
    assert_eq!(BValue::raise(&lowered), value);
    assert_eq!(value.duplicate(), value);
}

#[test]
fn equality_is_structural() {
    let bump = Bump::new();
    let a = BValue::lower(&bump, &sample());
    let b = a.bclone(&bump);
    assert!(a.equals(&b));
    assert!(!a.equals(&BValue::Integer(1)));
    assert!(!BValue::Integer(1).equals(&BValue::Bool(true)));
    assert!(!BValue::Vector(vec![]).equals(&BValue::SetOf(vec![])));
    assert!(!BValue::Compound(Intern(1), vec![]).equals(&BValue::Compound(Intern(2), vec![])));
    let shorter = BValue::Vector(vec![BValue::Integer(1)]);
    let longer = BValue::Vector(vec![BValue::Integer(1), BValue::Integer(2)]);
    assert!(!shorter.equals(&longer));
}

#[test]
fn clonesume_moves_the_parts_out() {
    let bump = Bump::new();
    let mut value = BValue::lower(&bump, &sample());
    let taken = value.clonesume(&bump);
    assert_eq!(BValue::raise(&taken), sample());
    assert_eq!(BValue::raise(&value), Value::Compound(Intern(3), vec![]));
    let mut number = BValue::Integer(5);
    assert_eq!(BValue::raise(&number.clonesume(&bump)), Value::Integer(5));
    assert_eq!(BValue::raise(&number), Value::Integer(5));
}

#[test]
fn arena_cells_keep_their_values() {
    let mut bump = Bump::new();
    assert_eq!(bump.len(), 0);
    assert_eq!(bump.allocate(BValue::Integer(1)), 0);
    assert_eq!(bump.allocate(BValue::Bool(true)), 1);
    assert_eq!(bump.len(), 2);
    assert_eq!(BValue::raise(bump.get(0)), Value::Integer(1));
    assert_eq!(BValue::raise(bump.get(1)), Value::Bool(true));
    bump.reset();
    assert_eq!(bump.len(), 0);
}

#[test]
fn split_shares_the_value() {
    let mut bump = Bump::new();
    let mut first = Satc::new(BValue::Integer(7));
    assert!(matches!(first, Satc::Unique(_)));
    let second = first.split(&mut bump);
    assert!(matches!(first, Satc::Borrowed(0)));
    assert!(matches!(second, Satc::Borrowed(0)));
    assert_eq!(bump.len(), 1);
    let third = first.split(&mut bump);
    assert!(matches!(third, Satc::Borrowed(0)));
    assert_eq!(bump.len(), 1);
    assert_eq!(BValue::raise(second.as_immut(&bump)), Value::Integer(7));
    let (a, b) = third.safe_split(&mut bump);
    assert!(matches!(a, Satc::Borrowed(0)));
    assert!(matches!(b, Satc::Borrowed(0)));
}

#[test]
fn shared_value_is_copied_before_it_is_changed() {
    let mut bump = Bump::new();
    let whole = BValue::Vector(vec![BValue::Integer(1), BValue::Integer(2)]);
    let mut first = Satc::new_borrowed(&mut bump, whole);
    let second = Satc::Borrowed(0);
    first.make_unique(&bump);
    match &mut first {
        Satc::Unique(value) => {
            let taken = value.clonesume(&bump);
            assert_eq!(
                BValue::raise(&taken),
                Value::Vector(vec![Value::Integer(1), Value::Integer(2)])
            );
        }
        Satc::Borrowed(_) => panic!("still shared"),
    }
    assert_eq!(
        BValue::raise(second.as_immut(&bump)),
        Value::Vector(vec![Value::Integer(1), Value::Integer(2)])
    );
    let owned = second.into_owned(&bump);
    assert_eq!(BValue::raise(&owned), Value::Vector(vec![Value::Integer(1), Value::Integer(2)]));
    assert_eq!(bump.len(), 1);
}

fn empty_procedure() -> Procedure2 {
    Procedure2 { functor: Functor(Intern(0), 0), instructions: vec![], vars: 2 }
}

#[test]
fn frame_starts_with_unbound_slots() {
    let procedure = empty_procedure();
    let frame = StackFrame::new_on(&procedure);
    assert_eq!(frame.ip, 0);
    assert_eq!(frame.v.len(), 2);
    assert!(frame.v.iter().all(|slot| slot.is_none()));
    assert!(frame.s.is_empty());
    assert!(matches!(frame.peek(), Err(Error::NoMoreValues)));
}

#[test]
fn frame_stack_is_last_in_first_out() {
    let bump = Bump::new();
    let procedure = empty_procedure();
    let mut frame = StackFrame::new_on(&procedure);
    frame.push(Satc::new(BValue::Integer(1)));
    frame.push(Satc::new(BValue::Integer(2)));
    match frame.peek() {
        Ok(top) => assert_eq!(BValue::raise(top.as_immut(&bump)), Value::Integer(2)),
        Err(e) => panic!("{:?}", e),
    }
    match frame.pop() {
        Ok(top) => assert_eq!(BValue::raise(top.as_immut(&bump)), Value::Integer(2)),
        Err(e) => panic!("{:?}", e),
    }
    match frame.pop() {
        Ok(top) => assert_eq!(BValue::raise(top.as_immut(&bump)), Value::Integer(1)),
        Err(e) => panic!("{:?}", e),
    }
    assert!(matches!(frame.pop(), Err(Error::NoMoreValues)));
}

#[test]
fn two_numbers_come_off_the_stack_left_first() {
    let bump = Bump::new();
    let procedure = empty_procedure();
    let mut frame = StackFrame::new_on(&procedure);
    frame.push(Satc::new(BValue::Integer(10)));
    frame.push(Satc::new(BValue::Integer(3)));
    match frame.pop_num2(&bump) {
        Ok(Num2::Integer(l, r)) => assert_eq!((l, r), (10, 3)),
        Err(e) => panic!("{:?}", e),
    }
    assert!(matches!(frame.pop_num2(&bump), Err(Error::NoMoreValues)));
    frame.push(Satc::new(BValue::Integer(10)));
    assert!(matches!(frame.pop_num2(&bump), Err(Error::NoMoreValues)));
    frame.push(Satc::new(BValue::Bool(true)));
    frame.push(Satc::new(BValue::Integer(3)));
    assert!(matches!(frame.pop_num2(&bump), Err(Error::NotNumbers)));
}

#[test]
fn values_are_ordered_by_kind_first() {
    let ascending = vec![
        BValue::Integer(i64::MIN),
        BValue::Integer(0),
        BValue::Integer(i64::MAX),
        BValue::Bool(false),
        BValue::Bool(true),
        BValue::Compound(Intern(0), vec![]),
        BValue::Compound(Intern(0), vec![BValue::Integer(1)]),
        BValue::Compound(Intern(0), vec![BValue::Integer(1), BValue::Integer(0)]),
        BValue::Compound(Intern(0), vec![BValue::Integer(2)]),
        BValue::Compound(Intern(1), vec![]),
        BValue::Vector(vec![]),
        BValue::Vector(vec![BValue::Vector(vec![])]),
        BValue::SetOf(vec![]),
        BValue::SetOf(vec![BValue::Integer(9)]),
    ];
    for (i, a) in ascending.iter().enumerate() {
        for (j, b) in ascending.iter().enumerate() {
            let expected = if i < j {
                Order::Less
            } else if i == j {
                Order::Equal
            } else {
                Order::Greater
            };
            assert_eq!(compare_values(a, b), expected);
        }
    }
}

#[test]
fn set_insertion_keeps_the_order_and_drops_what_is_there() {
    let mut set = vec![];
    for i in vec![5, 1, 3, 1, 5, 4, 2, 3] {
        insert_value(&mut set, BValue::Integer(i));
    }
    let members: Vec<Value> = set.iter().map(BValue::raise).collect();
    assert_eq!(members, (1..6).map(Value::Integer).collect::<Vec<Value>>());
    let made = make_set(vec![BValue::Bool(true), BValue::Integer(2), BValue::Bool(true)]);
    let members: Vec<Value> = made.iter().map(BValue::raise).collect();
    assert_eq!(members, vec![Value::Integer(2), Value::Bool(true)]);
    assert!(make_set(vec![]).is_empty());
}

fn rendering(interns: &Interns, value: &Value) -> String {
    let bump = Bump::new();
    render(interns, &BValue::lower(&bump, value))
}

#[test]
fn values_render_as_the_language_writes_them() {
    let mut interns = Interns::new(0);
    let pair = interns.intern("pair");
    let ok = interns.intern("ok");
    assert_eq!(rendering(&interns, &Value::Bool(true)), "true");
    assert_eq!(rendering(&interns, &Value::Bool(false)), "false");
    assert_eq!(rendering(&interns, &Value::Integer(0)), "0");
    assert_eq!(rendering(&interns, &Value::Integer(7)), "7");
    assert_eq!(rendering(&interns, &Value::Integer(10)), "10");
    assert_eq!(rendering(&interns, &Value::Integer(-12)), "-12");
    assert_eq!(rendering(&interns, &Value::Integer(1234567890)), "1234567890");
    assert_eq!(rendering(&interns, &Value::Integer(i64::MAX)), "9223372036854775807");
    assert_eq!(rendering(&interns, &Value::Integer(i64::MIN)), "-9223372036854775808");
    assert_eq!(rendering(&interns, &Value::Compound(ok, vec![])), "ok");
    let one_two = Value::Compound(pair, vec![Value::Integer(1), Value::Integer(2)]);
    assert_eq!(rendering(&interns, &one_two), "pair(1, 2)");
    assert_eq!(rendering(&interns, &Value::Compound(pair, vec![Value::Bool(true)])), "pair(true)");
    assert_eq!(rendering(&interns, &Value::Vector(vec![])), "v[]");
    let numbers = vec![Value::Integer(1), Value::Integer(2), Value::Integer(3)];
    assert_eq!(rendering(&interns, &Value::Vector(numbers.clone())), "v[1, 2, 3]");
    assert_eq!(rendering(&interns, &Value::SetOf(numbers)), "s[1, 2, 3]");
    assert_eq!(rendering(&interns, &Value::SetOf(vec![])), "s[]");
    assert_eq!(rendering(&interns, &Value::Compound(Intern(17), vec![])), "#17");
    let unknown = Value::Compound(Intern(205), vec![Value::Compound(ok, vec![])]);
    assert_eq!(rendering(&interns, &unknown), "#205(ok)");
    let nested = Value::Compound(
        pair,
        vec![
            Value::Vector(vec![Value::Compound(ok, vec![]), Value::Integer(-1)]),
            Value::SetOf(vec![Value::Compound(pair, vec![Value::Integer(0)])]),
        ],
    );
    assert_eq!(rendering(&interns, &nested), "pair(v[ok, -1], s[pair(0)])");
}

#[test]
fn print_writes_its_one_argument() {
    let bump = Bump::new();
    let mut interns = Interns::new(0);
    let print = interns.intern("print");
    let got = interns.intern("got");
    let call = Value::Compound(print, vec![Value::Compound(got, vec![Value::Integer(3)])]);
    assert_eq!(print_line(&interns, &BValue::lower(&bump, &call)), Some("got(3)".to_string()));
    let none = Value::Compound(print, vec![]);
    assert_eq!(print_line(&interns, &BValue::lower(&bump, &none)), None);
    let two = Value::Compound(print, vec![Value::Integer(1), Value::Integer(2)]);
    assert_eq!(print_line(&interns, &BValue::lower(&bump, &two)), None);
    assert_eq!(print_line(&interns, &BValue::Integer(1)), None);
}

#[test]
fn lowering_puts_sets_in_order() {
    let bump = Bump::new();
    let loose = Value::SetOf(vec![
        Value::Integer(3),
        Value::Bool(false),
        Value::Integer(1),
        Value::Integer(3),
        Value::Integer(2),
        Value::Bool(false),
    ]);
    let lowered = BValue::lower(&bump, &loose);
    assert_eq!(
        BValue::raise(&lowered),
        Value::SetOf(vec![
            Value::Integer(1),
            Value::Integer(2),
            Value::Integer(3),
            Value::Bool(false),
        ])
    );
}

#[test]
fn lowering_puts_sets_inside_other_values_in_order() {
    let bump = Bump::new();
    let inner = |a: i64, b: i64| Value::SetOf(vec![Value::Integer(a), Value::Integer(b)]);
    let loose = Value::Compound(
        Intern(1),
        vec![
            Value::Vector(vec![inner(2, 1)]),
            Value::SetOf(vec![inner(5, 4), inner(4, 5), inner(1, 9)]),
        ],
    );
    let lowered = BValue::lower(&bump, &loose);
    assert_eq!(
        BValue::raise(&lowered),
        Value::Compound(
            Intern(1),
            vec![
                Value::Vector(vec![inner(1, 2)]),
                Value::SetOf(vec![inner(1, 9), inner(4, 5)]),
            ],
        )
    );
}

#[test]
fn lowering_keeps_the_order_of_a_vector() {
    let bump = Bump::new();
    let vector = Value::Vector(vec![Value::Integer(3), Value::Integer(1), Value::Integer(3)]);
    assert_eq!(BValue::raise(&BValue::lower(&bump, &vector)), vector);
}
