//! A small ahead-of-time compiler for a minimal imperative language with
//! integers, strings, functions and conditionals.
//!
//! Source text is cut into tokens ([`lexer`]), the tokens are parsed into a
//! syntax tree while a scope stack checks every name ([`parser`], [`sema`]),
//! and the tree is lowered into the text of a register/memory intermediate
//! representation ([`codegen`], [`ir`]).
//!
//! What each stage computes is defined once, as a function of its input:
//! [`lexer::next_lexeme`] for tokens, [`grammar`] for trees, [`lower`] for
//! instructions. The executable code is proved to compute exactly that, and
//! [`laws`], [`blocks`] and [`precedence`] prove what follows from the
//! definitions.

use vstd::prelude::*;

pub mod blocks;
pub mod codegen;
pub mod codegen_lib;
pub mod grammar;
pub mod ir;
pub mod laws;
pub mod lexer;
pub mod lower;
pub mod parser;
pub mod precedence;
pub mod sema;
pub mod table;
pub mod text;

verus! {

/// What the generator needs to know about the compilation target.
pub struct SrcInfo {
    /// The platform descriptor (CPU, OS, ABI) written into the module header.
    pub target_triple: String,
}

} // verus!
