use vstd::prelude::*;

pub mod ast;
pub mod cli;
pub mod lexer;
pub mod parser;
pub mod runtime;
pub mod text;
pub mod value;

verus! {

} // verus!
