//! The Go grammar.
use vstd::prelude::*;
use tree_sitter::Language as TsLanguage;

verus! {

/// The Go grammar of the `tree_sitter_go` crate (`tree_sitter_go::LANGUAGE` converted into a
/// `tree_sitter::Language`); nothing is stated of it.
#[verifier::external_body]
pub fn language() -> TsLanguage {
    tree_sitter_go::LANGUAGE.into()
}

} // verus!
