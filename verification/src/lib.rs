use vstd::prelude::*;

pub mod strutil;
pub mod lexer;
pub mod token;
pub mod grammar;
pub mod ast;
pub mod parser;
pub mod ast_dump;
pub mod error;
pub mod prompts;
pub mod typecheck;
pub mod acp;
pub mod codegen;
pub mod driver;
pub mod paths;
pub mod module;
pub mod lsp;
pub mod eval;
pub mod runtime;

verus! {

} // verus!
