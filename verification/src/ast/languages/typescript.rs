//! The TypeScript grammar, and the syntax nodes that name TypeScript entities.
use vstd::prelude::*;
use tree_sitter::Language as TsLanguage;

verus! {

broadcast use vstd::string::group_string_axioms;

/// The TypeScript grammar of the `tree_sitter_typescript` crate
/// (`LANGUAGE_TYPESCRIPT` converted into a `tree_sitter::Language`); nothing is
/// stated of it.
#[verifier::external_body]
pub fn language() -> TsLanguage {
    tree_sitter_typescript::LANGUAGE_TYPESCRIPT.into()
}

/// The TypeScript syntax node kinds that name an entity.
pub open spec fn typescript_anchor_kinds() -> Seq<Seq<char>> {
    seq![
        "function_declaration"@,
        "function_expression"@,
        "arrow_function"@,
        "method_definition"@,
        "class_declaration"@,
        "interface_declaration"@,
        "type_alias_declaration"@,
    ]
}

/// The TypeScript syntax node kinds that name an entity.
pub fn anchor_kinds() -> (r: Vec<&'static str>)
    ensures
        r@.map_values(|s: &str| s@) == typescript_anchor_kinds(),
{
    let r = vec![
        "function_declaration",
        "function_expression",
        "arrow_function",
        "method_definition",
        "class_declaration",
        "interface_declaration",
        "type_alias_declaration",
    ];
    assert(r@.map_values(|s: &str| s@) =~= typescript_anchor_kinds());
    r
}

} // verus!
