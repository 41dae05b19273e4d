//! The order of values, and sets as ascending sequences.

use vstd::prelude::*;
use crate::primitive::Term;
use crate::vm::bvalue::BValue;

verus! {

/// How one value stands to another.
#[derive(Clone, Copy, Debug, PartialEq, Eq, Structural)]
pub enum Order {
    Less,
    Equal,
    Greater,
}

/// The place of a kind of value among the kinds: integers come first, then
/// booleans, compounds, vectors and sets.
pub open spec fn rank(t: Term) -> int {
    match t {
        Term::Integer(_) => 0,
        Term::Bool(_) => 1,
        Term::Compound(_, _) => 2,
        Term::Vector(_) => 3,
        Term::SetOf(_) => 4,
    }
}

/// How two integers stand to each other.
pub open spec fn compare_int(a: int, b: int) -> Order {
    if a < b {
        Order::Less
    } else if a == b {
        Order::Equal
    } else {
        Order::Greater
    }
}

/// How `a` stands to `b`: by kind; within a kind by the number, by `false`
/// before `true`, by the tag and then the parts, or by the parts alone.
pub open spec fn compare(a: Term, b: Term) -> Order
    decreases a, 0int,
{
    if rank(a) != rank(b) {
        compare_int(rank(a), rank(b))
    } else {
        match a {
            Term::Integer(x) => compare_int(x as int, b->Integer_0 as int),
            Term::Bool(x) => compare_int(if x { 1 } else { 0 }, if b->Bool_0 { 1 } else { 0 }),
            Term::Compound(tag, xs) => if tag.0 != b->Compound_0.0 {
                compare_int(tag.0 as int, b->Compound_0.0 as int)
            } else {
                compare_from(xs, b->Compound_1, 0)
            },
            Term::Vector(xs) => compare_from(xs, b->Vector_0, 0),
            Term::SetOf(xs) => compare_from(xs, b->SetOf_0, 0),
        }
    }
}

/// How the sequence `xs` stands to `ys`, both read from position `i` on: by
/// the first position at which they differ, a proper prefix coming first.
pub open spec fn compare_from(xs: Seq<Term>, ys: Seq<Term>, i: int) -> Order
    decreases xs, xs.len() - i,
{
    if i < 0 {
        Order::Equal
    } else if i >= xs.len() {
        if i >= ys.len() {
            Order::Equal
        } else {
            Order::Less
        }
    } else if i >= ys.len() {
        Order::Greater
    } else {
        match compare(xs[i], ys[i]) {
            Order::Equal => compare_from(xs, ys, i + 1),
            other => other,
        }
    }
}

/// The first position from `i` on whose member is not below `x`.
pub open spec fn slot(s: Seq<Term>, x: Term, i: int) -> int
    decreases s.len() - i,
{
    if i < 0 || i >= s.len() || compare(s[i], x) != Order::Less {
        i
    } else {
        slot(s, x, i + 1)
    }
}

/// The ascending sequence `s` with `x` among its members: `s` itself if it
/// holds `x` where `x` belongs, else `s` with `x` put there.
pub open spec fn insert(s: Seq<Term>, x: Term) -> Seq<Term> {
    let p = slot(s, x, 0);
    if p < s.len() && compare(s[p], x) == Order::Equal {
        s
    } else {
        s.insert(p, x)
    }
}

/// The set of the values `vs`: each put in its place in turn, the first first.
pub open spec fn set_of(vs: Seq<Term>) -> Seq<Term>
    decreases vs.len(),
{
    if vs.len() == 0 {
        Seq::empty()
    } else {
        insert(set_of(vs.drop_last()), vs.last())
    }
}

/// The value `t` with every set in it in order: the members of a set are
/// made normal first, then each is put in its place, so that none stays
/// twice and every member stands below the next.
pub open spec fn normal(t: Term) -> Term
    decreases t, 0int,
{
    match t {
        Term::Integer(_) => t,
        Term::Bool(_) => t,
        Term::Compound(tag, ts) => Term::Compound(tag, normal_all(ts, ts.len() as int)),
        Term::Vector(ts) => Term::Vector(normal_all(ts, ts.len() as int)),
        Term::SetOf(ts) => Term::SetOf(set_of(normal_all(ts, ts.len() as int))),
    }
}

/// The first `n` of the values `ts`, each made normal.
pub open spec fn normal_all(ts: Seq<Term>, n: int) -> Seq<Term>
    decreases ts, n,
{
    if n <= 0 || n > ts.len() {
        Seq::empty()
    } else {
        normal_all(ts, n - 1).push(normal(ts[n - 1]))
    }
}

/// Every member stands below the next one.
pub open spec fn ascending(s: Seq<Term>) -> bool {
    forall|i: int| 0 <= i < s.len() - 1 ==> #[trigger] compare(s[i], s[i + 1]) == Order::Less
}

/// `normal_all` makes each value normal, one for one.
pub proof fn lemma_normal_all(ts: Seq<Term>, n: int)
    requires
        0 <= n <= ts.len(),
    ensures
        normal_all(ts, n).len() == n,
        forall|i: int| 0 <= i < n ==> #[trigger] normal_all(ts, n)[i] == normal(ts[i]),
    decreases n,
{
    if n > 0 {
        lemma_normal_all(ts, n - 1);
    }
}

/// Equal values compare equal, and only equal values do.
pub proof fn lemma_compare_equal(a: Term, b: Term)
    ensures
        compare(a, b) == Order::Equal <==> a == b,
    decreases a, 0int,
{
    if rank(a) == rank(b) {
        match a {
            Term::Compound(tag, xs) => {
                lemma_compare_from_equal(xs, b->Compound_1, 0);
                if compare(a, b) == Order::Equal {
                    assert(xs =~= b->Compound_1);
                }
            },
            Term::Vector(xs) => {
                lemma_compare_from_equal(xs, b->Vector_0, 0);
                if compare(a, b) == Order::Equal {
                    assert(xs =~= b->Vector_0);
                }
            },
            Term::SetOf(xs) => {
                lemma_compare_from_equal(xs, b->SetOf_0, 0);
                if compare(a, b) == Order::Equal {
                    assert(xs =~= b->SetOf_0);
                }
            },
            _ => {},
        }
    }
}

/// Two sequences compare equal from a position on if and only if they are
/// of one length and agree from that position on.
pub proof fn lemma_compare_from_equal(xs: Seq<Term>, ys: Seq<Term>, i: int)
    requires
        0 <= i,
    ensures
        compare_from(xs, ys, i) == Order::Equal <==> (i >= xs.len() && i >= ys.len()) || (
        xs.len() == ys.len() && forall|k: int| i <= k < xs.len() ==> xs[k] == ys[k]),
    decreases xs, xs.len() - i,
{
    if i < xs.len() && i < ys.len() {
        lemma_compare_equal(xs[i], ys[i]);
        lemma_compare_from_equal(xs, ys, i + 1);
        if compare_from(xs, ys, i) == Order::Equal {
            assert forall|k: int| i <= k < xs.len() implies xs[k] == ys[k] by {
                if k > i {
                }
            }
        }
    }
}

/// If `a` stands below `b`, then `b` stands above `a`, and the other way round.
pub proof fn lemma_compare_flip(a: Term, b: Term)
    ensures
        compare(a, b) == Order::Less <==> compare(b, a) == Order::Greater,
        compare(a, b) == Order::Greater <==> compare(b, a) == Order::Less,
    decreases a, 0int,
{
    lemma_compare_equal(a, b);
    lemma_compare_equal(b, a);
    if rank(a) == rank(b) {
        match a {
            Term::Compound(tag, xs) => {
                lemma_compare_from_flip(xs, b->Compound_1, 0);
            },
            Term::Vector(xs) => {
                lemma_compare_from_flip(xs, b->Vector_0, 0);
            },
            Term::SetOf(xs) => {
                lemma_compare_from_flip(xs, b->SetOf_0, 0);
            },
            _ => {},
        }
    }
}

/// The order of two sequences turns round with the sequences.
pub proof fn lemma_compare_from_flip(xs: Seq<Term>, ys: Seq<Term>, i: int)
    requires
        0 <= i,
    ensures
        compare_from(xs, ys, i) == Order::Less <==> compare_from(ys, xs, i) == Order::Greater,
        compare_from(xs, ys, i) == Order::Greater <==> compare_from(ys, xs, i) == Order::Less,
        compare_from(xs, ys, i) == Order::Equal <==> compare_from(ys, xs, i) == Order::Equal,
    decreases xs, xs.len() - i,
{
    if i < xs.len() && i < ys.len() {
        lemma_compare_flip(xs[i], ys[i]);
        lemma_compare_equal(xs[i], ys[i]);
        lemma_compare_equal(ys[i], xs[i]);
        lemma_compare_from_flip(xs, ys, i + 1);
    }
}

/// The slot of a value lies in the sequence or at its end, every member
/// before it stands below the value, and the member at it does not.
pub proof fn lemma_slot(s: Seq<Term>, x: Term, i: int)
    requires
        0 <= i <= s.len(),
    ensures
        i <= slot(s, x, i) <= s.len(),
        forall|k: int| i <= k < slot(s, x, i) ==> compare(#[trigger] s[k], x) == Order::Less,
        slot(s, x, i) < s.len() ==> compare(s[slot(s, x, i)], x) != Order::Less,
    decreases s.len() - i,
{
    if i < s.len() && compare(s[i], x) == Order::Less {
        lemma_slot(s, x, i + 1);
    }
}

/// Putting a value into an ascending sequence leaves it ascending.
pub proof fn lemma_insert_ascending(s: Seq<Term>, x: Term)
    requires
        ascending(s),
    ensures
        ascending(insert(s, x)),
{
    let p = slot(s, x, 0);
    lemma_slot(s, x, 0);
    if !(p < s.len() && compare(s[p], x) == Order::Equal) {
        let r = s.insert(p, x);
        assert forall|i: int| 0 <= i < r.len() - 1 implies #[trigger] compare(r[i], r[i + 1])
            == Order::Less by {
            if i + 1 < p {
                assert(r[i] == s[i] && r[i + 1] == s[i + 1]);
                assert(compare(s[i], s[i + 1]) == Order::Less);
            } else if i + 1 == p {
                assert(r[i] == s[i]);
                assert(r[i + 1] == x);
                assert(compare(s[i], x) == Order::Less);
            } else if i == p {
                assert(r[i] == x);
                assert(r[i + 1] == s[p]);
                lemma_compare_flip(s[p], x);
                lemma_compare_equal(s[p], x);
            } else {
                assert(r[i] == s[i - 1] && r[i + 1] == s[i]);
                assert(compare(s[i - 1], s[i - 1 + 1]) == Order::Less);
            }
        }
    }
}

/// A sequence with one value put in at a position has the members that it
/// had, and that value.
pub proof fn lemma_members_of_insert(s: Seq<Term>, p: int, x: Term, y: Term)
    requires
        0 <= p <= s.len(),
    ensures
        s.insert(p, x).contains(y) <==> s.contains(y) || y == x,
{
    let r = s.insert(p, x);
    assert(r[p] == x);
    if r.contains(y) {
        let k = choose|k: int| 0 <= k < r.len() && r[k] == y;
        if k < p {
            assert(s[k] == y);
        } else if k > p {
            assert(s[k - 1] == y);
        }
    }
    if s.contains(y) {
        let k = choose|k: int| 0 <= k < s.len() && s[k] == y;
        if k < p {
            assert(r[k] == y);
        } else {
            assert(r[k + 1] == y);
        }
    }
}

/// Putting a value into an ascending sequence adds the value to its
/// members, and neither adds nor drops another one.
pub proof fn lemma_insert_members(s: Seq<Term>, x: Term, y: Term)
    ensures
        insert(s, x).contains(y) <==> s.contains(y) || y == x,
{
    let p = slot(s, x, 0);
    lemma_slot(s, x, 0);
    if p < s.len() && compare(s[p], x) == Order::Equal {
        lemma_compare_equal(s[p], x);
        assert(s[p] == x);
    } else {
        lemma_members_of_insert(s, p, x, y);
    }
}

/// Putting a value into an ascending sequence leaves it ascending, adds the
/// value to its members, and neither adds nor drops another one.
pub proof fn law_insert(s: Seq<Term>, x: Term)
    requires
        ascending(s),
    ensures
        ascending(insert(s, x)),
        forall|y: Term| #[trigger] insert(s, x).contains(y) <==> s.contains(y) || y == x,
{
    lemma_insert_ascending(s, x);
    assert forall|y: Term| #[trigger] insert(s, x).contains(y) <==> s.contains(y) || y == x by {
        lemma_insert_members(s, x, y);
    }
}

/// The members of a set are the values it was made of.
pub proof fn lemma_set_members(vs: Seq<Term>, y: Term)
    ensures
        set_of(vs).contains(y) <==> vs.contains(y),
    decreases vs.len(),
{
    if vs.len() > 0 {
        let front = vs.drop_last();
        lemma_set_members(front, y);
        lemma_insert_members(set_of(front), vs.last(), y);
        if vs.contains(y) {
            let k = choose|k: int| 0 <= k < vs.len() && vs[k] == y;
            if k < vs.len() - 1 {
                assert(front[k] == y);
            }
        }
        if front.contains(y) {
            let k = choose|k: int| 0 <= k < front.len() && front[k] == y;
            assert(vs[k] == y);
        }
        assert(vs[vs.len() - 1] == vs.last());
    } else {
        assert(!set_of(vs).contains(y));
        assert(!vs.contains(y));
    }
}

/// A set is ascending.
pub proof fn lemma_set_ascending(vs: Seq<Term>)
    ensures
        ascending(set_of(vs)),
    decreases vs.len(),
{
    if vs.len() > 0 {
        lemma_set_ascending(vs.drop_last());
        lemma_insert_ascending(set_of(vs.drop_last()), vs.last());
    }
}

/// A set is ascending, so that no member stands next to itself, and its
/// members are the values it was made of.
pub proof fn law_set_of(vs: Seq<Term>)
    ensures
        ascending(set_of(vs)),
        forall|y: Term| #[trigger] set_of(vs).contains(y) <==> vs.contains(y),
{
    lemma_set_ascending(vs);
    assert forall|y: Term| #[trigger] set_of(vs).contains(y) <==> vs.contains(y) by {
        lemma_set_members(vs, y);
    }
}

/// What stands below a value that stands below a third, stands below the
/// third.
pub proof fn lemma_compare_chain(a: Term, b: Term, c: Term)
    requires
        compare(a, b) == Order::Less,
        compare(b, c) == Order::Less,
    ensures
        compare(a, c) == Order::Less,
    decreases a, 0int,
{
    if rank(a) == rank(b) && rank(b) == rank(c) {
        match a {
            Term::Compound(tag, xs) => {
                if tag.0 == b->Compound_0.0 && tag.0 == c->Compound_0.0 {
                    lemma_compare_from_chain(xs, b->Compound_1, c->Compound_1, 0);
                }
            },
            Term::Vector(xs) => {
                lemma_compare_from_chain(xs, b->Vector_0, c->Vector_0, 0);
            },
            Term::SetOf(xs) => {
                lemma_compare_from_chain(xs, b->SetOf_0, c->SetOf_0, 0);
            },
            _ => {},
        }
    }
}

/// The same of sequences, read from position `i` on.
pub proof fn lemma_compare_from_chain(xs: Seq<Term>, ys: Seq<Term>, zs: Seq<Term>, i: int)
    requires
        0 <= i,
        compare_from(xs, ys, i) == Order::Less,
        compare_from(ys, zs, i) == Order::Less,
    ensures
        compare_from(xs, zs, i) == Order::Less,
    decreases xs, xs.len() - i,
{
    if i < xs.len() {
        lemma_compare_equal(xs[i], ys[i]);
        lemma_compare_equal(ys[i], zs[i]);
        lemma_compare_equal(xs[i], zs[i]);
        if compare(xs[i], ys[i]) == Order::Equal {
            if compare(ys[i], zs[i]) == Order::Equal {
                lemma_compare_from_chain(xs, ys, zs, i + 1);
            }
        } else if compare(ys[i], zs[i]) != Order::Equal {
            lemma_compare_chain(xs[i], ys[i], zs[i]);
        }
    }
}

/// In an ascending sequence every member stands below every later one.
pub proof fn lemma_ascending_apart(s: Seq<Term>, i: int, j: int)
    requires
        ascending(s),
        0 <= i < j < s.len(),
    ensures
        compare(s[i], s[j]) == Order::Less,
    decreases j - i,
{
    assert(compare(s[j - 1], s[j - 1 + 1]) == Order::Less);
    if i < j - 1 {
        lemma_ascending_apart(s, i, j - 1);
        lemma_compare_chain(s[i], s[j - 1], s[j]);
    }
}

/// A value that every member from `i` on stands below has its slot at the
/// end.
pub proof fn lemma_slot_at_end(s: Seq<Term>, x: Term, i: int)
    requires
        0 <= i <= s.len(),
        forall|k: int| i <= k < s.len() ==> compare(#[trigger] s[k], x) == Order::Less,
    ensures
        slot(s, x, i) == s.len(),
    decreases s.len() - i,
{
    if i < s.len() {
        lemma_slot_at_end(s, x, i + 1);
    }
}

/// The set of the members of an ascending sequence is that sequence.
pub proof fn law_set_of_ascending(s: Seq<Term>)
    requires
        ascending(s),
    ensures
        set_of(s) == s,
    decreases s.len(),
{
    if s.len() > 0 {
        let front = s.drop_last();
        assert(ascending(front)) by {
            assert forall|i: int| 0 <= i < front.len() - 1 implies #[trigger] compare(
                front[i],
                front[i + 1],
            ) == Order::Less by {
                assert(compare(s[i], s[i + 1]) == Order::Less);
            }
        }
        law_set_of_ascending(front);
        assert forall|k: int| 0 <= k < front.len() implies compare(#[trigger] front[k], s.last())
            == Order::Less by {
            lemma_ascending_apart(s, k, s.len() - 1);
        }
        lemma_slot_at_end(front, s.last(), 0);
        assert(front.insert(front.len() as int, s.last()) =~= s);
    } else {
        assert(set_of(s) =~= s);
    }
}

/// Every set in the value `t` is in order: its members ascend.
pub open spec fn ordered(t: Term) -> bool
    decreases t, 0int,
{
    match t {
        Term::Integer(_) => true,
        Term::Bool(_) => true,
        Term::Compound(_, ts) => ordered_all(ts, ts.len() as int),
        Term::Vector(ts) => ordered_all(ts, ts.len() as int),
        Term::SetOf(ts) => ordered_all(ts, ts.len() as int) && ascending(ts),
    }
}

/// Every set in the first `n` of the values `ts` is in order.
pub open spec fn ordered_all(ts: Seq<Term>, n: int) -> bool
    decreases ts, n,
{
    if n <= 0 || n > ts.len() {
        true
    } else {
        ordered_all(ts, n - 1) && ordered(ts[n - 1])
    }
}

/// `ordered_all` speaks of each value.
pub proof fn lemma_ordered_all(ts: Seq<Term>, n: int)
    requires
        0 <= n <= ts.len(),
    ensures
        ordered_all(ts, n) <==> forall|i: int| 0 <= i < n ==> ordered(#[trigger] ts[i]),
    decreases n,
{
    if n > 0 {
        lemma_ordered_all(ts, n - 1);
    }
}

/// A value whose sets are in order is its own normal form: the machine
/// takes it in as it is.
pub proof fn law_normal_of_ordered(t: Term)
    requires
        ordered(t),
    ensures
        normal(t) == t,
    decreases t, 0int,
{
    match t {
        Term::Compound(_, ts) => {
            lemma_normal_of_ordered_all(ts, ts.len() as int);
            assert(normal_all(ts, ts.len() as int) =~= ts);
        },
        Term::Vector(ts) => {
            lemma_normal_of_ordered_all(ts, ts.len() as int);
            assert(normal_all(ts, ts.len() as int) =~= ts);
        },
        Term::SetOf(ts) => {
            lemma_normal_of_ordered_all(ts, ts.len() as int);
            assert(normal_all(ts, ts.len() as int) =~= ts);
            law_set_of_ascending(ts);
        },
        _ => {},
    }
}

/// The same of the first `n` of the values `ts`.
pub proof fn lemma_normal_of_ordered_all(ts: Seq<Term>, n: int)
    requires
        0 <= n <= ts.len(),
        ordered_all(ts, n),
    ensures
        normal_all(ts, n) == ts.subrange(0, n),
    decreases ts, n,
{
    if n > 0 {
        lemma_normal_of_ordered_all(ts, n - 1);
        law_normal_of_ordered(ts[n - 1]);
        assert(normal_all(ts, n) =~= ts.subrange(0, n));
    } else {
        assert(normal_all(ts, n) =~= ts.subrange(0, n));
    }
}

/// In a normal form every set is in order.
pub proof fn law_normal_is_ordered(t: Term)
    ensures
        ordered(normal(t)),
    decreases t, 0int,
{
    match t {
        Term::Compound(_, ts) => {
            lemma_normal_all_ordered(ts, ts.len() as int);
        },
        Term::Vector(ts) => {
            lemma_normal_all_ordered(ts, ts.len() as int);
        },
        Term::SetOf(ts) => {
            lemma_normal_all_ordered(ts, ts.len() as int);
            let made = normal_all(ts, ts.len() as int);
            let set = set_of(made);
            lemma_set_ascending(made);
            lemma_ordered_all(made, made.len() as int);
            assert forall|i: int| 0 <= i < set.len() implies ordered(#[trigger] set[i]) by {
                assert(set.contains(set[i]));
                lemma_set_members(made, set[i]);
                let k = choose|k: int| 0 <= k < made.len() && made[k] == set[i];
                assert(ordered(made[k]));
            }
            lemma_ordered_all(set, set.len() as int);
        },
        _ => {},
    }
}

/// The same of the first `n` of the values `ts`.
pub proof fn lemma_normal_all_ordered(ts: Seq<Term>, n: int)
    requires
        0 <= n <= ts.len(),
    ensures
        normal_all(ts, n).len() == n,
        ordered_all(normal_all(ts, n), n),
    decreases ts, n,
{
    if n > 0 {
        lemma_normal_all_ordered(ts, n - 1);
        law_normal_is_ordered(ts[n - 1]);
        let before = normal_all(ts, n - 1);
        let after = normal_all(ts, n);
        lemma_ordered_all(before, n - 1);
        assert forall|i: int| 0 <= i < n implies ordered(#[trigger] after[i]) by {
            if i < n - 1 {
                assert(after[i] == before[i]);
            }
        }
        lemma_ordered_all(after, n);
    }
}

/// How two machine integers stand to each other.
fn order_of(a: i128, b: i128) -> (r: Order)
    ensures
        r == compare_int(a as int, b as int),
{
    if a < b {
        Order::Less
    } else if a == b {
        Order::Equal
    } else {
        Order::Greater
    }
}

/// The place of the kind of `v` among the kinds.
fn rank_of(v: &BValue) -> (r: i128)
    ensures
        r == rank(v@),
{
    match v {
        BValue::Integer(_) => 0,
        BValue::Bool(_) => 1,
        BValue::Compound(_, _) => 2,
        BValue::Vector(_) => 3,
        BValue::SetOf(_) => 4,
    }
}

/// How `a` stands to `b`.
pub fn compare_values(a: &BValue, b: &BValue) -> (r: Order)
    ensures
        r == compare(a@, b@),
    decreases a, 1int,
{
    proof {
        a.lemma_view();
        b.lemma_view();
    }
    let ra = rank_of(a);
    let rb = rank_of(b);
    if ra != rb {
        return order_of(ra, rb);
    }
    match (a, b) {
        (BValue::Integer(x), BValue::Integer(y)) => order_of(*x as i128, *y as i128),
        (BValue::Bool(x), BValue::Bool(y)) => order_of(
            if *x {
                1
            } else {
                0
            },
            if *y {
                1
            } else {
                0
            },
        ),
        (BValue::Compound(t1, xs), BValue::Compound(t2, ys)) => {
            if t1.0 != t2.0 {
                order_of(t1.0 as i128, t2.0 as i128)
            } else {
                compare_parts(a, xs, ys)
            }
        },
        (BValue::Vector(xs), BValue::Vector(ys)) => compare_parts(a, xs, ys),
        (BValue::SetOf(xs), BValue::SetOf(ys)) => compare_parts(a, xs, ys),
        _ => Order::Equal,
    }
}

/// How the parts `xs` of `whole` stand to `ys`.
fn compare_parts(whole: &BValue, xs: &Vec<BValue>, ys: &Vec<BValue>) -> (r: Order)
    requires
        whole.parts() == xs@,
    ensures
        r == compare_from(BValue::terms(xs@), BValue::terms(ys@), 0),
    decreases whole, 0int,
{
    let ghost tx = BValue::terms(xs@);
    let ghost ty = BValue::terms(ys@);
    let mut k: usize = 0;
    while k < xs.len() && k < ys.len()
        invariant
            k <= xs@.len(),
            k <= ys@.len(),
            whole.parts() == xs@,
            tx == BValue::terms(xs@),
            ty == BValue::terms(ys@),
            compare_from(tx, ty, 0) == compare_from(tx, ty, k as int),
        decreases xs@.len() - k,
    {
        proof {
            if whole is Compound {
                assert(whole->Compound_1@[k as int] == xs@[k as int]);
                assert(decreases_to!(whole => whole->Compound_1[k as int]));
            } else if whole is Vector {
                assert(whole->Vector_0@[k as int] == xs@[k as int]);
                assert(decreases_to!(whole => whole->Vector_0[k as int]));
            } else if whole is SetOf {
                assert(whole->SetOf_0@[k as int] == xs@[k as int]);
                assert(decreases_to!(whole => whole->SetOf_0[k as int]));
            }
        }
        let o = compare_values(&xs[k], &ys[k]);
        assert(o == compare(tx[k as int], ty[k as int]));
        match o {
            Order::Equal => {},
            _ => {
                return o;
            },
        }
        k += 1;
    }
    if k < ys.len() {
        Order::Less
    } else if k < xs.len() {
        Order::Greater
    } else {
        Order::Equal
    }
}

/// Puts `x` in its place in the ascending vector `set`, unless it is there.
pub fn insert_value(set: &mut Vec<BValue>, x: BValue)
    ensures
        BValue::terms(final(set)@) == insert(BValue::terms(old(set)@), x@),
{
    let ghost s = BValue::terms(set@);
    let mut p: usize = 0;
    let mut found = false;
    let mut stop = false;
    while p < set.len() && !stop
        invariant
            p <= set@.len(),
            set@ == old(set)@,
            s == BValue::terms(set@),
            slot(s, x@, 0) == slot(s, x@, p as int),
            stop ==> p < set@.len() && compare(s[p as int], x@) != Order::Less && found == (compare(
                s[p as int],
                x@,
            ) == Order::Equal),
            !stop ==> !found,
        decreases set@.len() - p + (if stop { 0int } else { 1int }),
    {
        let o = compare_values(&set[p], &x);
        assert(o == compare(s[p as int], x@));
        match o {
            Order::Less => {
                p += 1;
            },
            Order::Equal => {
                found = true;
                stop = true;
            },
            Order::Greater => {
                stop = true;
            },
        }
    }
    assert(p as int == slot(s, x@, 0));
    if !found {
        set.insert(p, x);
        assert(BValue::terms(set@) =~= s.insert(p as int, x@));
    }
}

/// The set of the values `values`, as an ascending vector.
pub fn make_set(values: Vec<BValue>) -> (r: Vec<BValue>)
    ensures
        BValue::terms(r@) == set_of(BValue::terms(values@)),
{
    let ghost all = BValue::terms(values@);
    let mut out: Vec<BValue> = Vec::new();
    assert(BValue::terms(out@) =~= set_of(all.subrange(0, 0)));
    for x in it: values
        invariant
            it.seq() == values@,
            all == BValue::terms(values@),
            BValue::terms(out@) == set_of(all.subrange(0, it.index() as int)),
    {
        proof {
            let k = it.index() as int;
            assert(all.subrange(0, k + 1).drop_last() =~= all.subrange(0, k));
            assert(all.subrange(0, k + 1).last() == x@);
        }
        insert_value(&mut out, x);
    }
    assert(all.subrange(0, values@.len() as int) =~= all);
    out
}

} // verus!
