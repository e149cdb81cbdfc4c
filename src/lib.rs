//! A small scripting language: a lexer, a single-pass compiler that emits
//! bytecode, and a stack machine that runs it.
use vstd::prelude::*;

pub mod text;
pub mod tokenizer;
pub mod value;
pub mod chunk;
pub mod compiler;
pub mod vm;

verus! {

} // verus!
