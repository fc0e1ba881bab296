//! Translation core for a small imperative language: a lexical scanner
//! that turns source text into tokens, and a code generator that lowers
//! a statement/expression tree to textual assembly while managing a
//! symbol table and a fixed register pool.

pub mod compiler;
pub mod encode;
pub mod errors;
pub mod lexer;
pub mod regalloc;
pub mod statement;
pub mod symtab;
pub mod text;
pub mod token;
