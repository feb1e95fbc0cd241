//! The Python grammar.
use vstd::prelude::*;
use tree_sitter::Language as TsLanguage;

verus! {

/// The Python grammar of the `tree_sitter_python` crate (`tree_sitter_python::LANGUAGE` converted into a
/// `tree_sitter::Language`); nothing is stated of it.
#[verifier::external_body]
pub fn language() -> TsLanguage {
    tree_sitter_python::LANGUAGE.into()
}

} // verus!
