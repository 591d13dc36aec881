//! Typed declarations inferred from known-answer-test vector files.
//!
//! A vector file is free text interleaved with blocks of `key = value`
//! lines. The library segments such a file into items, classifies every raw
//! literal, unifies the per-field types of all records into one schema and
//! renders that schema, with the records, as Rust source text.

use vstd::prelude::*;

pub mod analysis;
pub mod bindings;
pub mod chars;
pub mod diagnostics;
pub mod fields;
pub mod kinds;
pub mod laws;
pub mod numerals;
pub mod rust;
pub mod segment;
pub mod value;

verus! {

/// The language that the declarations are written in.
#[derive(Clone, Copy, Debug, PartialEq, Eq, Structural)]
pub enum CodeGen {
    Rust,
    Haskell,
    C,
}

/// Writes the declarations for a file and its schema in the given
/// language. Rust is the one language that has a backend; for the others
/// there is no text.
pub fn generate_code(kat: &analysis::Kat<'_>, codegen: CodeGen) -> (out: Option<String>)
    ensures
        codegen == CodeGen::Rust ==> out is Some && out->0@ == rust::generated(kat@),
        codegen != CodeGen::Rust ==> out is None,
{
    match codegen {
        CodeGen::Rust => Some(rust::generate(kat)),
        _ => None,
    }
}

} // verus!
