//! The parser: from the text of a program to its syntax tree.
//!
//! The grammar is read without a separate pass for tokens. Every part of
//! it takes the text and a position and says where the part ends; a part
//! that ends a word or a sign also takes the blank space behind it.

pub mod combinator;
pub mod entry_point;
pub mod expression;
pub mod pattern;
pub mod statement;
pub mod structural;
pub mod whitespace;
pub mod word;

use vstd::prelude::*;

verus! {

/// What reading one part of the grammar at a position comes to.
pub enum Parse<T> {
    /// The part is there; this is what it is, and where it ends.
    Done(T, usize),
    /// The part is not there. Another part may be.
    Miss,
    /// The part has started and is malformed at this position. No other
    /// part is tried.
    Fail(usize),
}

/// Where one part of the grammar ends, if the text is read from a position.
pub enum Extent {
    /// The part is there and ends here.
    Ends(int),
    /// The part is not there.
    Absent,
    /// The part has started and is malformed.
    Broken,
}

impl<T> Parse<T> {
    /// Where the part that was read ends.
    pub open spec fn extent(self) -> Extent {
        match self {
            Parse::Done(_, e) => Extent::Ends(e as int),
            Parse::Miss => Extent::Absent,
            Parse::Fail(_) => Extent::Broken,
        }
    }
}

impl Extent {
    /// What a part that must be there comes to: if it is absent, what has
    /// started before is malformed.
    pub open spec fn owed(self) -> Extent {
        match self {
            Extent::Absent => Extent::Broken,
            other => other,
        }
    }

    /// The extent of a sign that must be there.
    pub open spec fn sign(end: Option<int>) -> Extent {
        match end {
            Some(e) => Extent::Ends(e),
            None => Extent::Broken,
        }
    }
}

/// The characters of a text.
pub fn characters(s: &str) -> (r: Vec<char>)
    ensures
        r@ == s@,
{
    let mut out: Vec<char> = Vec::new();
    for c in it: s.chars()
        invariant
            it.seq() == s@,
            out@ == s@.subrange(0, it.index() as int),
    {
        out.push(c);
        assert(out@ =~= s@.subrange(0, it.index() + 1));
    }
    assert(out@ =~= s@);
    out
}

} // verus!


pub use crate::parser::entry_point::{parse_module, parse_procedure, parse_repl_statement};
