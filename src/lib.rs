//! A small compiler for a C-like language: it turns the source of one
//! `int name() { return <expression>; }` function into 32-bit x86 assembly.
//!
//! The pipeline runs left to right: [`lexxer`] turns text into tokens,
//! [`ast`] parses tokens into a syntax tree by recursive descent, and
//! [`asm_generator`] renders the tree as assembly text; [`compiler`] chains
//! the three. [`machine`] says what the emitted instructions compute, and
//! [`theorems`] states and proves facts about the whole pipeline.
pub mod asm_generator;
pub mod ast;
pub mod compiler;
pub mod error;
pub mod lexxer;
pub mod machine;
pub mod theorems;
