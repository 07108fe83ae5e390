//! A small compiler tool-chain: the `tp0` front end (lexer, parser and an
//! LLVM IR generator with strong type checking) and a tiny LLVM IR to
//! ARM64 assembly back end.
use vstd::prelude::*;

pub mod text;
pub mod lexer;
pub mod ast;
pub mod parser;
pub mod codegen;
pub mod llvm_ir;
pub mod arm64;
pub mod typing;
pub mod output;
pub mod pipeline;

verus! {
} // verus!
