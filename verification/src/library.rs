//! What a host adds to a module before the program is compiled, and the
//! standard library.

use vstd::prelude::*;
use vstd::string::StringExecFns;
use crate::bump::Bump;
use crate::compiler::grown;
use crate::interns::{Intern, InternTable, Interns};
use crate::irs::executable1::{Executable1, FFIProcedure, NativeProcedure};
use crate::primitive::{Functor, Term};
use crate::satc::Satc;
use crate::vm::bvalue::{BValue, SBV};
use crate::vm::semantics::ProcView;

verus! {

/// A library of native procedures. The compiler asks it to register its
/// procedures before it compiles the procedures of the program, so that the
/// program can replace one of them by defining a procedure of the same
/// functor.
pub trait Library {
    /// The number of names that the library may add to the table: none,
    /// unless the library says otherwise.
    open spec fn names(&self) -> nat {
        0
    }

    /// Registers the procedures of the library in `procedures`, under
    /// functors whose tags it interns in `interns`.
    fn add_functions(&self, interns: &mut Interns, procedures: &mut Executable1)
        requires
            old(interns).wf(),
            old(interns).has_room_for(self.names()),
            old(procedures).wf(),
        ensures
            grown(old(interns), final(interns), self.names()),
            final(procedures).wf(),
    ;
}

/// Where the standard library writes. The host decides what that means.
pub trait Output {
    /// Writes `text` and ends the line.
    fn line(&self, text: &str);
}

/// The standard library: `print` with one argument, which writes a
/// rendering of its argument and returns the compound `ok`.
pub struct Standard<O: Output + Copy + 'static>(pub O);

/// The native procedure `print`.
pub struct Print<O: Output + Copy + 'static> {
    /// The tag of the compound that `print` returns.
    pub ok: Intern,
    pub out: O,
}

/// The character of a decimal digit.
pub open spec fn digit(d: int) -> char {
    if d == 0 {
        '0'
    } else if d == 1 {
        '1'
    } else if d == 2 {
        '2'
    } else if d == 3 {
        '3'
    } else if d == 4 {
        '4'
    } else if d == 5 {
        '5'
    } else if d == 6 {
        '6'
    } else if d == 7 {
        '7'
    } else if d == 8 {
        '8'
    } else {
        '9'
    }
}

/// The decimal digits of a natural number, without leading zeros.
pub open spec fn digits(n: nat) -> Seq<char>
    decreases n,
{
    if n < 10 {
        seq![digit(n as int)]
    } else {
        digits(n / 10).push(digit((n % 10) as int))
    }
}

/// An integer in decimal, with a minus sign if it is negative.
pub open spec fn decimal(i: int) -> Seq<char> {
    if i < 0 {
        seq!['-'] + digits((-i) as nat)
    } else {
        digits(i as nat)
    }
}

/// The separator between the parts of a compound, a vector or a set.
pub open spec fn separator() -> Seq<char> {
    seq![',', ' ']
}

/// The name of a tag: the string it stands for, or `#` and its number if
/// the table does not hold it.
pub open spec fn tag_name(t: InternTable, tag: Intern) -> Seq<char> {
    match t.resolve(tag) {
        Some(s) => s,
        None => seq!['#'] + digits(tag.0 as nat),
    }
}

/// The rendering of a value: booleans as `true` and `false`, integers in
/// decimal, a compound as its tag, followed by its arguments in round
/// brackets if it has any, a vector as `v[...]`, a set as `s[...]`.
pub open spec fn rendered(t: InternTable, v: Term) -> Seq<char>
    decreases v, 0int,
{
    match v {
        Term::Bool(b) => if b {
            seq!['t', 'r', 'u', 'e']
        } else {
            seq!['f', 'a', 'l', 's', 'e']
        },
        Term::Integer(i) => decimal(i as int),
        Term::Compound(tag, xs) => if xs.len() > 0 {
            tag_name(t, tag) + seq!['('] + rendered_list(t, xs, xs.len() as int) + seq![')']
        } else {
            tag_name(t, tag)
        },
        Term::Vector(xs) => seq!['v', '['] + rendered_list(t, xs, xs.len() as int) + seq![']'],
        Term::SetOf(xs) => seq!['s', '['] + rendered_list(t, xs, xs.len() as int) + seq![']'],
    }
}

/// The renderings of the first `n` of the values `vs`, with a separator
/// between each two.
pub open spec fn rendered_list(t: InternTable, vs: Seq<Term>, n: int) -> Seq<char>
    decreases vs, n,
{
    if n <= 0 || n > vs.len() {
        Seq::empty()
    } else if n == 1 {
        rendered(t, vs[0])
    } else {
        rendered_list(t, vs, n - 1) + separator() + rendered(t, vs[n - 1])
    }
}

/// The string of one decimal digit.
fn digit_str(d: u64) -> (r: &'static str)
    requires
        d < 10,
    ensures
        r@ == seq![digit(d as int)],
{
    proof {
        reveal_strlit("0");
        reveal_strlit("1");
        reveal_strlit("2");
        reveal_strlit("3");
        reveal_strlit("4");
        reveal_strlit("5");
        reveal_strlit("6");
        reveal_strlit("7");
        reveal_strlit("8");
        reveal_strlit("9");
    }
    let r = if d == 0 {
        "0"
    } else if d == 1 {
        "1"
    } else if d == 2 {
        "2"
    } else if d == 3 {
        "3"
    } else if d == 4 {
        "4"
    } else if d == 5 {
        "5"
    } else if d == 6 {
        "6"
    } else if d == 7 {
        "7"
    } else if d == 8 {
        "8"
    } else {
        "9"
    };
    assert(r@ =~= seq![digit(d as int)]);
    r
}

/// Appends the decimal digits of `n` to `out`.
fn write_digits(out: &mut String, n: u64)
    ensures
        final(out)@ == old(out)@ + digits(n as nat),
{
    let mut low: Vec<u64> = Vec::new();
    let mut m = n;
    let ghost mut tail: Seq<char> = Seq::empty();
    while m >= 10
        invariant
            digits(n as nat) == digits(m as nat) + tail,
            tail.len() == low@.len(),
            forall|k: int|
                0 <= k < low@.len() ==> low@[k] < 10 && tail[tail.len() - 1 - k] == digit(
                    low@[k] as int,
                ),
        decreases m,
    {
        let d = m % 10;
        proof {
            let newtail = seq![digit(d as int)] + tail;
            assert(digits(m as nat) == digits((m / 10) as nat).push(digit(d as int)));
            assert(digits((m / 10) as nat).push(digit(d as int)) + tail =~= digits(
                (m / 10) as nat,
            ) + newtail);
            tail = newtail;
        }
        low.push(d);
        m = m / 10;
    }
    out.append(digit_str(m));
    let ghost start = old(out)@ + digits(m as nat);
    assert(out@ =~= start);
    let mut k: usize = low.len();
    while k > 0
        invariant
            k <= low@.len(),
            tail.len() == low@.len(),
            forall|j: int|
                0 <= j < low@.len() ==> low@[j] < 10 && tail[tail.len() - 1 - j] == digit(
                    low@[j] as int,
                ),
            out@ == start + tail.subrange(0, low@.len() - k),
        decreases k,
    {
        k -= 1;
        let ghost ob = out@;
        out.append(digit_str(low[k]));
        proof {
            let p = low@.len() - 1 - k;
            assert(tail[p] == digit(low@[k as int] as int));
            assert(tail.subrange(0, p).push(tail[p]) =~= tail.subrange(0, p + 1));
            assert(out@ =~= start + tail.subrange(0, p + 1));
        }
    }
    assert(tail.subrange(0, low@.len() as int) =~= tail);
    assert(start + tail =~= old(out)@ + (digits(m as nat) + tail));
}

/// Appends `i` in decimal to `out`.
fn write_decimal(out: &mut String, i: i64)
    ensures
        final(out)@ == old(out)@ + decimal(i as int),
{
    if i < 0 {
        proof {
            reveal_strlit("-");
        }
        out.append("-");
        let magnitude: u64 = (-(i as i128)) as u64;
        write_digits(out, magnitude);
        assert(out@ =~= old(out)@ + decimal(i as int));
    } else {
        write_digits(out, i as u64);
    }
}

/// Appends the name of `tag` to `out`.
fn write_tag(out: &mut String, interns: &Interns, tag: Intern)
    requires
        interns.wf(),
    ensures
        final(out)@ == old(out)@ + tag_name(interns@, tag),
{
    match interns.to_string(tag) {
        None => {
            proof {
                reveal_strlit("#");
            }
            out.append("#");
            write_digits(out, tag.raw() as u64);
            assert(out@ =~= old(out)@ + tag_name(interns@, tag));
        },
        Some(s) => {
            out.append(s);
        },
    }
}

/// Appends the renderings of the parts `xs` of `whole` to `out`, with a
/// separator between each two.
fn write_list(out: &mut String, interns: &Interns, whole: &BValue, xs: &Vec<BValue>)
    requires
        interns.wf(),
        whole.parts() == xs@,
    ensures
        final(out)@ == old(out)@ + rendered_list(
            interns@,
            BValue::terms(xs@),
            xs@.len() as int,
        ),
    decreases whole, 0int,
{
    let ghost ts = BValue::terms(xs@);
    let mut k: usize = 0;
    assert(out@ =~= old(out)@ + rendered_list(interns@, ts, 0));
    while k < xs.len()
        invariant
            k <= xs@.len(),
            interns.wf(),
            whole.parts() == xs@,
            ts == BValue::terms(xs@),
            out@ == old(out)@ + rendered_list(interns@, ts, k as int),
        decreases xs@.len() - k,
    {
        let ghost ob = out@;
        if k > 0 {
            proof {
                reveal_strlit(", ");
            }
            out.append(", ");
            assert(", "@ =~= separator());
        }
        proof {
            if whole is Compound {
                assert(whole->Compound_1@[k as int] == xs@[k as int]);
                assert(decreases_to!(whole => whole->Compound_1[k as int]));
            } else if whole is Vector {
                assert(whole->Vector_0@[k as int] == xs@[k as int]);
                assert(decreases_to!(whole => whole->Vector_0[k as int]));
            } else if whole is SetOf {
                assert(whole->SetOf_0@[k as int] == xs@[k as int]);
                assert(decreases_to!(whole => whole->SetOf_0[k as int]));
            }
        }
        write_value(out, interns, &xs[k]);
        proof {
            let prev = rendered_list(interns@, ts, k as int);
            let this = rendered(interns@, ts[k as int]);
            if k == 0 {
                assert(prev =~= Seq::<char>::empty());
                assert(out@ =~= old(out)@ + this);
            } else {
                assert(out@ =~= old(out)@ + (prev + separator() + this));
            }
        }
        k += 1;
    }
}

/// Appends the rendering of `value` to `out`.
pub fn write_value(out: &mut String, interns: &Interns, value: &BValue)
    requires
        interns.wf(),
    ensures
        final(out)@ == old(out)@ + rendered(interns@, value@),
    decreases value, 1int,
{
    proof {
        value.lemma_view();
    }
    match value {
        BValue::Bool(tf) => {
            proof {
                reveal_strlit("true");
                reveal_strlit("false");
            }
            if *tf {
                out.append("true");
            } else {
                out.append("false");
            }
            assert(out@ =~= old(out)@ + rendered(interns@, value@));
        },
        BValue::Compound(x, xs) => {
            write_tag(out, interns, *x);
            if xs.len() > 0 {
                proof {
                    reveal_strlit("(");
                    reveal_strlit(")");
                }
                out.append("(");
                write_list(out, interns, value, xs);
                out.append(")");
            }
            assert(out@ =~= old(out)@ + rendered(interns@, value@));
        },
        BValue::Integer(i) => {
            write_decimal(out, *i);
        },
        BValue::SetOf(xs) => {
            proof {
                reveal_strlit("s[");
                reveal_strlit("]");
            }
            out.append("s[");
            write_list(out, interns, value, xs);
            out.append("]");
            assert(out@ =~= old(out)@ + rendered(interns@, value@));
        },
        BValue::Vector(xs) => {
            proof {
                reveal_strlit("v[");
                reveal_strlit("]");
            }
            out.append("v[");
            write_list(out, interns, value, xs);
            out.append("]");
            assert(out@ =~= old(out)@ + rendered(interns@, value@));
        },
    }
}

/// The rendering of `value`.
pub fn render(interns: &Interns, value: &BValue) -> (r: String)
    requires
        interns.wf(),
    ensures
        r@ == rendered(interns@, value@),
{
    let mut out = String::new();
    write_value(&mut out, interns, value);
    assert(out@ =~= rendered(interns@, value@));
    out
}

/// The line that `print` writes for the compound `value` that it was called
/// with: the rendering of the one argument, or nothing if `value` is no
/// compound with one argument.
pub open spec fn printed(t: InternTable, value: Term) -> Option<Seq<char>> {
    match value {
        Term::Compound(_, xs) => if xs.len() == 1 {
            Some(rendered(t, xs[0]))
        } else {
            None
        },
        _ => None,
    }
}

/// The line that `print` writes for `value`, if it writes one.
pub fn print_line(interns: &Interns, value: &BValue) -> (r: Option<String>)
    requires
        interns.wf(),
    ensures
        match r {
            Some(text) => printed(interns@, value@) == Some(text@),
            None => printed(interns@, value@) is None,
        },
{
    proof {
        value.lemma_view();
    }
    match value {
        BValue::Compound(_, v) => {
            if v.len() == 1 {
                Some(render(interns, &v[0]))
            } else {
                None
            }
        },
        _ => None,
    }
}

impl<O: Output + Copy + 'static> Print<O> {
    /// Writes the rendering of the one argument of `value` to the output,
    /// and returns the compound `ok` without arguments.
    pub fn run(&self, bump: &Bump, interns: &Interns, value: SBV) -> (r: SBV)
        requires
            value.wf(bump),
            interns.wf(),
        ensures
            r is Unique,
            r.wf(bump),
            r.term(bump) == Term::Compound(self.ok, Seq::empty()),
    {
        match print_line(interns, value.as_immut(bump)) {
            Some(text) => {
                self.out.line(text.as_str());
            },
            None => {},
        }
        let ok = BValue::Compound(self.ok, Vec::new());
        proof {
            ok.lemma_view();
            assert(BValue::terms(ok.parts()) =~= Seq::<Term>::empty());
        }
        Satc::new(ok)
    }
}

impl<O: Output + Copy + 'static> NativeProcedure for Print<O> {
    /// Writes the rendering of the one argument of `value` to the output,
    /// and returns the compound `ok` without arguments, as a handle of its
    /// own. The arena stays as it is.
    fn invoke(&self, bump: &mut Bump, interns: &Interns, value: SBV) -> (r: SBV)
        ensures
            final(bump)@ == old(bump)@,
            r is Unique,
            r.term(final(bump)) == Term::Compound(self.ok, Seq::empty()),
    {
        self.run(bump, interns, value)
    }
}

impl<O: Output + Copy + 'static> Standard<O> {
    /// Interns `ok` and `print`, in this order, and registers the native
    /// procedure `print` with one argument.
    pub fn install(&self, interns: &mut Interns, procedures: &mut Executable1)
        requires
            old(interns).wf(),
            old(interns).has_room_for(2),
            old(procedures).wf(),
        ensures
            grown(old(interns), final(interns), 2),
            final(interns)@ == old(interns)@.intern("ok"@).intern("print"@),
            final(procedures).wf(),
            final(procedures)@ == old(procedures)@.insert(
                Functor(old(interns)@.intern("ok"@).id_of("print"@), 1),
                ProcView::Native,
            ),
    {
        let ok = interns.intern("ok");
        let print = interns.intern("print");
        procedures.insert(
            Functor(print, 1),
            FFIProcedure::Native(Box::new(Print { ok, out: self.0 })),
        );
    }
}

impl<O: Output + Copy + 'static> Library for Standard<O> {
    /// The standard library adds two names: `ok` and `print`.
    open spec fn names(&self) -> nat {
        2
    }

    /// Interns `ok` and `print`, in this order, and registers the native
    /// procedure `print` with one argument, in place of what stood under
    /// that functor.
    fn add_functions(&self, interns: &mut Interns, procedures: &mut Executable1)
        ensures
            final(interns)@ == old(interns)@.intern("ok"@).intern("print"@),
            final(procedures)@ == old(procedures)@.insert(
                Functor(old(interns)@.intern("ok"@).id_of("print"@), 1),
                ProcView::Native,
            ),
    {
        self.install(interns, procedures)
    }
}

} // verus!
