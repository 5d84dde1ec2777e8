//! Lexical front end of a small tree-walking language: turns source text
//! into classified tokens plus a list of diagnostics. The expression tree
//! shapes that a parser will build from those tokens, and a printer for
//! them, come with it.

pub mod diagnostic;
pub mod expression;
pub mod keywords;
pub mod laws;
pub mod lexical;
pub mod scanner;
pub mod token;
pub mod tolerance;
pub mod visitors;
