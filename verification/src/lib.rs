//! Parsing, evaluation and printing of the combinator terms of the galaxy pad.

pub mod number;
pub mod term;
pub mod simplify;
pub mod store;
pub mod eval;
pub mod parse;
pub mod gravity;
pub mod laws;
pub mod protocol;
pub mod session;
