//! The intermediate forms: instructions with labels, instructions with
//! addresses, and the procedures made of them.

pub mod ast1;
pub mod executable1;
pub mod instruction1;
pub mod instruction2;
pub mod procedure1;
pub mod procedure2;
