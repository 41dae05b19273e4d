use termlang::errors::compiler::Error;
use termlang::interns::{Intern, Interns};
use termlang::irs::instruction1::{Instruction1, Label};
use termlang::irs::instruction2::{Instruction2, Ip};
use termlang::irs::procedure1::Procedure1;
use termlang::primitive::{Functor, Local, Operand};

#[test]
fn interning_is_idempotent() {
    let mut interns = Interns::new(0);
    let a = interns.intern("alpha");
    let b = interns.intern("beta");
    assert_ne!(a, b);
    assert_eq!(interns.intern("alpha"), a);
    assert_eq!(interns.intern("beta"), b);
    assert_eq!(interns.to_intern("alpha"), Some(a));
    assert_eq!(interns.to_intern("gamma"), None);
}

#[test]
fn identifiers_are_dense_from_the_base_address() {
    let mut interns = Interns::new(10);
    assert_eq!(interns.intern("a").raw(), 10);
    assert_eq!(interns.intern("b").raw(), 11);
    assert_eq!(interns.intern("a").raw(), 10);
    assert_eq!(interns.intern("c").raw(), 12);
    assert_eq!(interns.room(), usize::MAX - 13);
    assert!(!interns.plain());
    assert!(Interns::new(0).plain());
}

#[test]
fn resolve_is_the_inverse_of_intern() {
    let mut interns = Interns::new(3);
    let a = interns.intern("alpha");
    let b = interns.intern("beta");
    assert_eq!(interns.to_string(a), Some("alpha"));
    assert_eq!(interns.to_string(b), Some("beta"));
    assert_eq!(interns.to_string(Intern(2)), None);
    assert_eq!(interns.to_string(Intern(5)), None);
    assert_eq!(interns.to_string(Intern(0)), None);
}

#[test]
fn child_table_sees_the_parent_and_extends_it() {
    let mut base = Interns::new(0);
    let a = base.intern("alpha");
    let b = base.intern("beta");
    {
        let mut child = base.extend();
        assert!(!child.plain());
        assert_eq!(child.to_intern("alpha"), Some(a));
        assert_eq!(child.intern("beta"), b);
        let c = child.intern("gamma");
        assert_eq!(c.raw(), 2);
        assert_eq!(child.intern("gamma"), c);
        assert_eq!(child.to_string(c), Some("gamma"));
        assert_eq!(child.to_string(a), Some("alpha"));
        assert_eq!(child.to_string(Intern(3)), None);
        {
            let mut grandchild = child.extend();
            assert_eq!(grandchild.intern("alpha"), a);
            assert_eq!(grandchild.intern("gamma"), c);
            let d = grandchild.intern("delta");
            assert_eq!(d.raw(), 3);
            assert_eq!(grandchild.to_string(d), Some("delta"));
        }
        assert_eq!(child.to_intern("delta"), None);
    }
    assert_eq!(base.to_intern("gamma"), None);
    assert_eq!(base.to_string(Intern(2)), None);
    assert_eq!(base.intern("other").raw(), 2);
}

fn fresh() -> Procedure1 {
    Procedure1::new(Functor(Intern(0), 0))
}

#[test]
fn locals_get_slots_in_the_order_of_first_sight() {
    let mut pp = fresh();
    assert_eq!(pp.local("x"), Local(0));
    assert_eq!(pp.local("y"), Local(1));
    assert_eq!(pp.local("x"), Local(0));
    assert_eq!(pp.local("z"), Local(2));
    let names: Vec<&str> = pp.local_name_to_ix().iter().map(|s| s.as_str()).collect();
    assert_eq!(names, vec!["x", "y", "z"]);
    let compiled = pp.compile().unwrap();
    assert_eq!(compiled.vars, 3);
    assert_eq!(compiled.functor, Functor(Intern(0), 0));
}

#[test]
fn labels_are_fresh() {
    let mut pp = fresh();
    assert_eq!(pp.create_label(), Label(0));
    assert_eq!(pp.create_label(), Label(1));
    assert_eq!(pp.create_label(), Label(2));
}

#[test]
fn labels_resolve_to_the_address_of_their_anchor() {
    let mut pp = fresh();
    let start = pp.create_label();
    let end = pp.create_label();
    let other = pp.create_label();
    assert!(pp.anchor_label(start).is_ok());
    pp.push(Instruction1::Push(Operand::Bool(false)));
    pp.push(Instruction1::JumpNo(end));
    pp.push(Instruction1::Mark(other, true));
    pp.push(Instruction1::Jump(start));
    assert!(pp.anchor_label(end).is_ok());
    pp.push(Instruction1::Ret);
    assert!(pp.anchor_label(other).is_ok());
    let compiled = pp.compile().unwrap();
    assert_eq!(
        compiled.instructions,
        vec![
            Instruction2::Push(Operand::Bool(false)),
            Instruction2::JumpNo(Ip(4)),
            Instruction2::Mark(Ip(5), true),
            Instruction2::Jump(Ip(0)),
            Instruction2::Ret,
        ]
    );
}

#[test]
fn label_anchored_twice_is_an_error() {
    let mut pp = fresh();
    let l = pp.create_label();
    assert!(pp.anchor_label(l).is_ok());
    pp.push(Instruction1::Pop);
    assert!(matches!(pp.anchor_label(l), Err(Error::AlreadyAnchored(0))));
    pp.push(Instruction1::Jump(l));
    let compiled = pp.compile().unwrap();
    assert_eq!(compiled.instructions, vec![Instruction2::Pop, Instruction2::Jump(Ip(0))]);
}

#[test]
fn label_without_an_anchor_is_an_error() {
    let mut pp = fresh();
    let a = pp.create_label();
    let b = pp.create_label();
    pp.push(Instruction1::Pop);
    pp.push(Instruction1::Jump(b));
    pp.push(Instruction1::Jump(a));
    assert!(matches!(pp.compile(), Err(Error::NotAnchored(1))));
    let mut pp = fresh();
    pp.push(Instruction1::Mark(Label(9), false));
    assert!(matches!(pp.compile(), Err(Error::NotAnchored(9))));
}

#[test]
fn label_that_was_anchored_before_it_was_created_counts_as_anchored() {
    let mut pp = fresh();
    assert!(pp.anchor_label(Label(1)).is_ok());
    assert!(matches!(pp.anchor_label(Label(1)), Err(Error::AlreadyAnchored(1))));
    pp.push(Instruction1::Pop);
    assert_eq!(pp.create_label(), Label(0));
    assert_eq!(pp.create_label(), Label(1));
    assert!(matches!(pp.anchor_label(Label(1)), Err(Error::AlreadyAnchored(1))));
    assert!(pp.anchor_label(Label(0)).is_ok());
    pp.push(Instruction1::Jump(Label(1)));
    pp.push(Instruction1::Jump(Label(0)));
    let compiled = pp.compile().unwrap();
    assert_eq!(
        compiled.instructions,
        vec![Instruction2::Pop, Instruction2::Jump(Ip(0)), Instruction2::Jump(Ip(1))]
    );
}

#[test]
fn instructions_without_labels_pass_through() {
    let f = Functor(Intern(4), 2);
    let pairs = vec![
        (Instruction1::Push(Operand::Integer(3)), Instruction2::Push(Operand::Integer(3))),
        (Instruction1::Assert, Instruction2::Assert),
        (Instruction1::Pop, Instruction2::Pop),
        (Instruction1::Ret, Instruction2::Ret),
        (Instruction1::Call, Instruction2::Call),
        (Instruction1::Unmark, Instruction2::Unmark),
        (Instruction1::DestructCompound(f), Instruction2::DestructCompound(f)),
        (Instruction1::DestructVector(2), Instruction2::DestructVector(2)),
        (Instruction1::Destruct(3), Instruction2::Destruct(3)),
        (Instruction1::ConstructCompound(f), Instruction2::ConstructCompound(f)),
        (Instruction1::ConstructVector(4), Instruction2::ConstructVector(4)),
        (Instruction1::ConstructSet(5), Instruction2::ConstructSet(5)),
        (Instruction1::Equals, Instruction2::Equals),
        (
            Instruction1::EqualsOperandAssert(Operand::Bool(true)),
            Instruction2::EqualsOperandAssert(Operand::Bool(true)),
        ),
        (Instruction1::Mul, Instruction2::Mul),
        (Instruction1::Div, Instruction2::Div),
        (Instruction1::Add, Instruction2::Add),
        (Instruction1::Subtract, Instruction2::Subtract),
        (Instruction1::Le, Instruction2::Le),
        (Instruction1::Ge, Instruction2::Ge),
        (Instruction1::Lt, Instruction2::Lt),
        (Instruction1::Gt, Instruction2::Gt),
        (Instruction1::Eq, Instruction2::Eq),
        (Instruction1::Ne, Instruction2::Ne),
    ];
    let mut pp = fresh();
    let slot = pp.local("x");
    pp.push(Instruction1::SetVar(slot));
    pp.push(Instruction1::SetAssert(slot));
    pp.push(Instruction1::Get(slot));
    let mut expected = vec![
        Instruction2::SetVar(Local(0)),
        Instruction2::SetAssert(Local(0)),
        Instruction2::Get(Local(0)),
    ];
    for (before, after) in pairs {
        pp.push(before);
        expected.push(after);
    }
    assert_eq!(pp.compile().unwrap().instructions, expected);
}

#[test]
fn name_that_is_known_needs_no_room() {
    let mut interns = Interns::new(usize::MAX - 1);
    let a = interns.intern("alpha");
    assert_eq!(a.raw(), usize::MAX - 1);
    assert_eq!(interns.room(), 0);
    assert_eq!(interns.intern("alpha"), a);
    assert_eq!(interns.to_intern("alpha"), Some(a));
    assert_eq!(interns.to_string(a), Some("alpha"));
    assert_eq!(interns.room(), 0);
}

#[test]
fn resolved_addresses_stay_within_the_code() {
    let mut pp = fresh();
    let first = pp.create_label();
    let last = pp.create_label();
    assert!(pp.anchor_label(first).is_ok());
    pp.push(Instruction1::Mark(last, false));
    pp.push(Instruction1::JumpNo(last));
    pp.push(Instruction1::Jump(first));
    assert!(pp.anchor_label(last).is_ok());
    let compiled = pp.compile().unwrap();
    assert_eq!(
        compiled.instructions,
        vec![
            Instruction2::Mark(Ip(3), false),
            Instruction2::JumpNo(Ip(3)),
            Instruction2::Jump(Ip(0)),
        ]
    );
    for i in &compiled.instructions {
        match i {
            Instruction2::Mark(ip, _) | Instruction2::JumpNo(ip) | Instruction2::Jump(ip) => {
                assert!(ip.0 <= compiled.instructions.len())
            }
            _ => {}
        }
    }
}
