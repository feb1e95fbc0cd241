//! The tree-sitter grammars of the analysed languages.
use vstd::prelude::*;

use crate::git::diff_parser::Language;
use tree_sitter::Language as TsLanguage;

pub mod go;
pub mod python;
pub mod rust;
pub mod typescript;

verus! {

/// `tree_sitter::Language`, a compiled grammar.
#[verifier::external_type_specification]
#[verifier::external_body]
pub struct ExTreeSitterLanguage(TsLanguage);

/// A grammar together with the language it is the grammar of; only
/// `Grammar::for_language` builds one.
pub struct Grammar {
    language: Language,
    grammar: TsLanguage,
}

impl Grammar {
    /// The language this grammar parses.
    pub closed spec fn lang(&self) -> Language {
        self.language
    }

    /// The grammar of a language that has one (all but `Unknown`).
    pub fn for_language(language: Language) -> (g: Option<Grammar>)
        ensures
            g matches Some(gr) ==> gr.lang() == language,
            g is None <==> language == Language::Unknown,
    {
        match language {
            Language::TypeScript => Some(Grammar { language, grammar: typescript::language() }),
            Language::Rust => Some(Grammar { language, grammar: rust::language() }),
            Language::Python => Some(Grammar { language, grammar: python::language() }),
            Language::Go => Some(Grammar { language, grammar: go::language() }),
            Language::Unknown => None,
        }
    }

    /// The compiled grammar.
    pub(crate) fn ts_language(&self) -> &TsLanguage {
        &self.grammar
    }

    /// The language this grammar parses.
    pub fn language(&self) -> (l: Language)
        ensures
            l == self.lang(),
    {
        self.language
    }
}

} // verus!
