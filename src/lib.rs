//! Front end of a small scripting language: source units, a located
//! tokenizer, an error-tolerant syntax tree and its lowering to a flat
//! program representation.
use vstd::prelude::*;

pub mod text;
pub mod parser;
pub mod program;
pub mod ast;

verus! {

} // verus!
