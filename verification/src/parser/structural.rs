//! Procedures and programs.

use vstd::prelude::*;
use crate::irs::ast1::types::{Module, Pattern, Procedure};
use crate::parser::combinator::{keyword_end, lemma_sign, lemma_signs, lexeme, lexeme_ws, sign_end};
use crate::parser::pattern::{lemma_no_comma, lemma_patterns_extent, patterns, patterns_end};
use crate::parser::statement::{block, braces_end, lemma_block_extent, lemma_keywords};
use crate::parser::word::{identifier, identifier_at, lemma_words};
use crate::parser::{Extent, Parse};

verus! {

/// Where the procedure at `a` ends.
pub open spec fn procedure_end(cs: Seq<char>, a: int) -> Extent {
    match keyword_end(cs, a, seq!['f', 'n']) {
        None => Extent::Absent,
        Some(m) => match identifier_at(cs, m) {
            None => Extent::Broken,
            Some((_, m1)) => match sign_end(cs, m1, seq!['(']) {
                None => braces_end(cs, m1).owed(),
                Some(m2) => match patterns_end(cs, m2) {
                    Extent::Ends(m3) => if m3 == m2 {
                        Extent::Broken
                    } else {
                        match sign_end(cs, m3, seq![')']) {
                            Some(m4) => braces_end(cs, m4).owed(),
                            None => Extent::Broken,
                        }
                    },
                    _ => Extent::Broken,
                },
            },
        },
    }
}

/// Where the procedures at `a` end, one behind the other. There may be
/// none.
pub open spec fn module_end(cs: Seq<char>, a: int) -> Extent
    decreases cs.len() - a,
{
    match procedure_end(cs, a) {
        Extent::Ends(e) => if a < e <= cs.len() {
            module_end(cs, e)
        } else {
            Extent::Broken
        },
        Extent::Absent => Extent::Ends(a),
        Extent::Broken => Extent::Broken,
    }
}

impl Procedure {
    /// The end of the text of the procedure, if its text starts at `a`:
    /// the word `fn`, the name, the patterns of the arguments in round
    /// brackets if there are any, and the body.
    pub open spec fn reads(&self, cs: Seq<char>, a: int) -> Option<int> {
        match keyword_end(cs, a, seq!['f', 'n']) {
            Some(m) => match identifier_at(cs, m) {
                Some((name, m1)) => if name != self.name@ {
                    None
                } else {
                    match sign_end(cs, m1, seq!['(']) {
                        None => if self.args@.len() == 0 {
                            self.body.reads(cs, m1)
                        } else {
                            None
                        },
                        Some(m2) => if self.args@.len() == 0 {
                            None
                        } else {
                            match Pattern::reads_list(
                                cs,
                                m2,
                                self.args@,
                                self.args@.len() as int,
                            ) {
                                Some(m3) => match sign_end(cs, m3, seq![')']) {
                                    Some(m4) => self.body.reads(cs, m4),
                                    None => None,
                                },
                                None => None,
                            }
                        },
                    }
                },
                None => None,
            },
            None => None,
        }
    }
}

impl Module {
    /// The end of the text of the first `n` of the procedures `ps`, one
    /// behind the other, if that text starts at `a`.
    pub open spec fn reads_list(cs: Seq<char>, a: int, ps: Seq<Procedure>, n: int) -> Option<int>
        decreases n,
    {
        if n <= 0 {
            Some(a)
        } else if n > ps.len() {
            None
        } else {
            match Self::reads_list(cs, a, ps, n - 1) {
                Some(m) => ps[n - 1].reads(cs, m),
                None => None,
            }
        }
    }

    /// The end of the text of the program, if its text starts at `a`: its
    /// procedures, one behind the other.
    pub open spec fn reads(&self, cs: Seq<char>, a: int) -> Option<int> {
        Self::reads_list(cs, a, self.procedures@, self.procedures@.len() as int)
    }
}

/// What a list reads does not depend on what follows in the list.
pub proof fn lemma_procedures_kept(
    cs: Seq<char>,
    a: int,
    short: Seq<Procedure>,
    long: Seq<Procedure>,
    n: int,
)
    requires
        0 <= n <= short.len() <= long.len(),
        forall|i: int| 0 <= i < short.len() ==> short[i] == long[i],
    ensures
        Module::reads_list(cs, a, long, n) == Module::reads_list(cs, a, short, n),
        Module::all_supported(long, n) == Module::all_supported(short, n),
        Module::all_grouped(long, n) == Module::all_grouped(short, n),
    decreases n,
{
    if n > 0 {
        lemma_procedures_kept(cs, a, short, long, n - 1);
    }
}

/// A procedure that the text reads as ends where the procedure of the text
/// ends.
pub proof fn lemma_procedure_extent(p: Procedure, cs: Seq<char>, a: int)
    requires
        0 <= a <= cs.len(),
        p.reads(cs, a) is Some,
    ensures
        procedure_end(cs, a) == Extent::Ends(p.reads(cs, a)->Some_0),
        a < p.reads(cs, a)->Some_0 <= cs.len(),
{
    lemma_keywords(cs, a);
    let m = keyword_end(cs, a, seq!['f', 'n'])->Some_0;
    lemma_words(cs, m);
    let m1 = identifier_at(cs, m)->Some_0.1;
    lemma_sign(cs, m1, seq!['(']);
    match sign_end(cs, m1, seq!['(']) {
        None => {
            lemma_block_extent(p.body.0@, cs, m1);
        },
        Some(m2) => {
            lemma_patterns_extent(p.args@, p.args@.len() as int, cs, m2);
            let m3 = Pattern::reads_list(cs, m2, p.args@, p.args@.len() as int)->Some_0;
            lemma_sign(cs, m3, seq![')']);
            lemma_no_comma(cs, m3);
            let m4 = sign_end(cs, m3, seq![')'])->Some_0;
            lemma_block_extent(p.body.0@, cs, m4);
        },
    }
}

/// Procedures that the text reads as lead to where the procedures of the
/// text go on.
pub proof fn lemma_procedures_extent(ps: Seq<Procedure>, n: int, cs: Seq<char>, a: int)
    requires
        0 <= a <= cs.len(),
        0 <= n <= ps.len(),
        Module::reads_list(cs, a, ps, n) is Some,
    ensures
        a <= Module::reads_list(cs, a, ps, n)->Some_0 <= cs.len(),
        module_end(cs, a) == module_end(cs, Module::reads_list(cs, a, ps, n)->Some_0),
    decreases n,
{
    if n > 0 {
        lemma_procedures_extent(ps, n - 1, cs, a);
        let m = Module::reads_list(cs, a, ps, n - 1)->Some_0;
        lemma_procedure_extent(ps[n - 1], cs, m);
    }
}

/// A text that reads as a program to its end is a program: if any program
/// reads as the whole text, the procedures of the text end where the text
/// ends.
pub proof fn law_module_extent(m: Module, cs: Seq<char>, a: int)
    requires
        0 <= a <= cs.len(),
        m.reads(cs, a) == Some(cs.len() as int),
    ensures
        module_end(cs, a) == Extent::Ends(cs.len() as int),
{
    lemma_procedures_extent(m.procedures@, m.procedures@.len() as int, cs, a);
    lemma_keywords(cs, cs.len() as int);
}

/// Reads a procedure.
pub fn procedure(inp: &Vec<char>, pos: usize) -> (r: Parse<Procedure>)
    requires
        pos <= inp@.len(),
    ensures
        r.extent() == procedure_end(inp@, pos as int),
        r matches Parse::Done(p, e) ==> p.reads(inp@, pos as int) == Some(e as int)
            && p.supported() && p.body.grouped() && pos < e <= inp@.len(),
{
    let word = ['f', 'n'];
    let round = ['('];
    let closing = [')'];
    proof {
        assert(word@ =~= seq!['f', 'n']);
        assert(round@ =~= seq!['(']);
        assert(closing@ =~= seq![')']);
    }
    let m = match lexeme_ws(inp, pos, &word) {
        None => {
            return Parse::Miss;
        },
        Some(m) => m,
    };
    let (name, m1) = match identifier(inp, m) {
        Parse::Done(name, m1) => (name, m1),
        _ => {
            return Parse::Fail(m);
        },
    };
    let (args, m4) = match lexeme(inp, m1, &round) {
        None => (Vec::new(), m1),
        Some(m2) => {
            let (args, m3) = match patterns(inp, m2) {
                Parse::Done(args, m3) => (args, m3),
                Parse::Miss => {
                    return Parse::Fail(m2);
                },
                Parse::Fail(at) => {
                    return Parse::Fail(at);
                },
            };
            if args.len() == 0 {
                return Parse::Fail(m2);
            }
            match lexeme(inp, m3, &closing) {
                Some(m4) => (args, m4),
                None => {
                    return Parse::Fail(m3);
                },
            }
        },
    };
    match block(inp, m4) {
        Parse::Done(body, e) => Parse::Done(Procedure { name, args, body }, e),
        Parse::Miss => Parse::Fail(m4),
        Parse::Fail(at) => Parse::Fail(at),
    }
}

/// Reads a program: procedures, as many as there are.
pub fn module(inp: &Vec<char>, pos: usize) -> (r: Parse<Module>)
    requires
        pos <= inp@.len(),
    ensures
        r.extent() == module_end(inp@, pos as int),
        r matches Parse::Done(m, e) ==> m.reads(inp@, pos as int) == Some(e as int)
            && m.supported() && m.grouped() && pos <= e <= inp@.len(),
{
    let mut items: Vec<Procedure> = Vec::new();
    let mut at = pos;
    loop
        invariant
            pos <= at <= inp@.len(),
            Module::reads_list(inp@, pos as int, items@, items@.len() as int) == Some(at as int),
            Module::all_supported(items@, items@.len() as int),
            Module::all_grouped(items@, items@.len() as int),
            module_end(inp@, pos as int) == module_end(inp@, at as int),
        decreases inp@.len() - at,
    {
        match procedure(inp, at) {
            Parse::Done(p, e) => {
                let ghost before = items@;
                items.push(p);
                proof {
                    let n = before.len() as int;
                    lemma_procedures_kept(inp@, pos as int, before, items@, n);
                    assert(items@[n] == p);
                    assert(Module::reads_list(inp@, pos as int, items@, n + 1) == Some(e as int));
                    assert(Module::all_supported(items@, n + 1));
                    assert(Module::all_grouped(items@, n + 1));
                }
                at = e;
            },
            Parse::Miss => {
                return Parse::Done(Module { procedures: items }, at);
            },
            Parse::Fail(x) => {
                return Parse::Fail(x);
            },
        }
    }
}

} // verus!
