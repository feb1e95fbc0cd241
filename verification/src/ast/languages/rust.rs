//! The Rust grammar.
use vstd::prelude::*;
use tree_sitter::Language as TsLanguage;

verus! {

/// The Rust grammar of the `tree_sitter_rust` crate (`tree_sitter_rust::LANGUAGE` converted into a
/// `tree_sitter::Language`); nothing is stated of it.
#[verifier::external_body]
pub fn language() -> TsLanguage {
    tree_sitter_rust::LANGUAGE.into()
}

} // verus!
