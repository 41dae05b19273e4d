//! The entry points: a whole text as a program, a procedure or a statement.

use vstd::prelude::*;
use crate::errors::parser::Error;
use crate::irs::ast1::types::{Module, Procedure, Statement};
use crate::parser::characters;
use crate::parser::statement::{lemma_statement_extent, statement, statement_end};
use crate::parser::structural::{
    law_module_extent, lemma_procedure_extent, module, module_end, procedure, procedure_end,
};
use crate::parser::whitespace::{any_whitespace, lemma_skip, skip};
use crate::parser::{Extent, Parse};

verus! {

/// What reading a whole text comes to, given where the part that starts
/// behind the blank space at its start ends: the text is read if the part
/// ends where the text ends, something unexpected stands where the part
/// ends or should start, or the part is malformed.
pub open spec fn verdict<T>(r: Result<T, Error>, cs: Seq<char>, extent: Extent) -> bool {
    match extent {
        Extent::Ends(e) => if e == cs.len() {
            r is Ok
        } else {
            r matches Err(Error::Unexpected(at)) && at == e
        },
        Extent::Absent => r matches Err(Error::Unexpected(at)) && at == skip(cs, 0),
        Extent::Broken => r matches Err(Error::Malformed(_)),
    }
}

/// Reads the text `s` as a program. The whole text must be the program,
/// but for blank space before it.
pub fn parse_module(s: &str) -> (r: Result<Module, Error>)
    ensures
        verdict(r, s@, module_end(s@, skip(s@, 0))),
        r matches Ok(m) ==> m.reads(s@, skip(s@, 0)) == Some(s@.len() as int) && m.supported()
            && m.grouped(),
{
    let inp = characters(s);
    let start = any_whitespace(&inp, 0);
    match module(&inp, start) {
        Parse::Done(m, e) => {
            if e == inp.len() {
                Ok(m)
            } else {
                Err(Error::Unexpected(e))
            }
        },
        Parse::Miss => Err(Error::Unexpected(start)),
        Parse::Fail(at) => Err(Error::Malformed(at)),
    }
}

/// Reads the text `s` as one procedure. The whole text must be the
/// procedure, but for blank space before it.
pub fn parse_procedure(s: &str) -> (r: Result<Procedure, Error>)
    ensures
        verdict(r, s@, procedure_end(s@, skip(s@, 0))),
        r matches Ok(p) ==> p.reads(s@, skip(s@, 0)) == Some(s@.len() as int) && p.supported()
            && p.body.grouped(),
{
    let inp = characters(s);
    let start = any_whitespace(&inp, 0);
    match procedure(&inp, start) {
        Parse::Done(p, e) => {
            if e == inp.len() {
                Ok(p)
            } else {
                Err(Error::Unexpected(e))
            }
        },
        Parse::Miss => Err(Error::Unexpected(start)),
        Parse::Fail(at) => Err(Error::Malformed(at)),
    }
}

/// Reads the text `s` as one statement, as a session takes it. The whole
/// text must be the statement, but for blank space before it.
pub fn parse_repl_statement(s: &str) -> (r: Result<Statement, Error>)
    ensures
        verdict(r, s@, statement_end(s@, skip(s@, 0))),
        r matches Ok(st) ==> st.reads(s@, skip(s@, 0)) == Some(s@.len() as int) && st.supported()
            && st.grouped(),
{
    let inp = characters(s);
    let start = any_whitespace(&inp, 0);
    match statement(&inp, start) {
        Parse::Done(st, e) => {
            if e == inp.len() {
                Ok(st)
            } else {
                Err(Error::Unexpected(e))
            }
        },
        Parse::Miss => Err(Error::Unexpected(start)),
        Parse::Fail(at) => Err(Error::Malformed(at)),
    }
}

/// A text is read as a program if any program reads as the text: where
/// `parse_module` fails, no program has that text.
pub proof fn law_parse_module(m: Module, cs: Seq<char>)
    requires
        m.reads(cs, skip(cs, 0)) == Some(cs.len() as int),
    ensures
        module_end(cs, skip(cs, 0)) == Extent::Ends(cs.len() as int),
{
    lemma_skip(cs, 0);
    law_module_extent(m, cs, skip(cs, 0));
}

/// A text is read as a procedure if any procedure reads as the text.
pub proof fn law_parse_procedure(p: Procedure, cs: Seq<char>)
    requires
        p.reads(cs, skip(cs, 0)) == Some(cs.len() as int),
    ensures
        procedure_end(cs, skip(cs, 0)) == Extent::Ends(cs.len() as int),
{
    lemma_skip(cs, 0);
    lemma_procedure_extent(p, cs, skip(cs, 0));
}

/// A text is read as a statement if any statement reads as the text.
pub proof fn law_parse_statement(st: Statement, cs: Seq<char>)
    requires
        st.reads(cs, skip(cs, 0)) == Some(cs.len() as int),
    ensures
        statement_end(cs, skip(cs, 0)) == Extent::Ends(cs.len() as int),
{
    lemma_skip(cs, 0);
    lemma_statement_extent(st, cs, skip(cs, 0));
}

} // verus!
