//! Front end of the Zinc language.
//!
//! Source text goes through the lexer ([tokenizer]) into tokens ([token]);
//! a cursor ([cursor]) walks them; the parser ([wayfarer]) drops comments and
//! whitespace and builds the syntax tree ([ast]) of the program, or reports
//! why it cannot.
use vstd::prelude::*;

pub mod ast;
pub mod cursor;
pub mod keyword;
pub mod operator;
pub mod token;
pub mod tokenizer;
pub mod wayfarer;

verus! {

} // verus!
