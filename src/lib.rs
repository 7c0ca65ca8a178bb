//! Front end of a small expression-oriented scripting language: a lexer that
//! turns source text into tokens and a Pratt parser that builds the syntax tree.
use vstd::prelude::*;

pub mod ast;
pub mod chars;
pub mod grammar;
pub mod lexer;
pub mod parser;
pub mod token;

verus! {

} // verus!
