use vibediff_core::ast::engine::{
    detect_change_kind, detect_side_effects, entities_from_ancestries, extract_symbol_name,
    map_node_kind_to_entity_type,
    AstEngine,
};
use vibediff_core::ast::entity_mapper::{ChangeKind, EntityType, SideEffect};
use vibediff_core::ast::languages::typescript::anchor_kinds;
use vibediff_core::ast::upwalker::find_enclosing_anchor;
use vibediff_core::git::diff_parser::{DiffHunk, Language};

fn hunk(path: &str, added: Vec<(u32, &str)>, removed: Vec<(u32, &str)>) -> DiffHunk {
    DiffHunk {
        file_path: path.to_string(),
        language: Language::TypeScript,
        changed_lines: 1..=1,
        added_lines: added.into_iter().map(|(n, s)| (n, s.to_string())).collect(),
        removed_lines: removed.into_iter().map(|(n, s)| (n, s.to_string())).collect(),
        raw_hunk: "@@".to_string(),
    }
}

#[test]
fn typescript_ast_analysis_returns_entities() {
    let src = "function hello(){ return fetch('/x') }\n";
    let h = DiffHunk {
        file_path: "example.ts".into(),
        language: Language::TypeScript,
        changed_lines: 1..=1,
        added_lines: vec![(1, "+function hello(){ return fetch('/x') }".to_string())],
        removed_lines: vec![],
        raw_hunk: "@@".to_string(),
    };
    let entities = AstEngine::analyze_typescript_file("example.ts", src, &vec![h]).unwrap();
    assert!(!entities.is_empty());
}

#[test]
fn typescript_entity_fields() {
    let src = "function hello(){ return fetch('/x') }\n";
    let h = hunk("example.ts", vec![(1, "+function hello(){ return fetch('/x') }")], vec![]);
    let entities = AstEngine::analyze_typescript_file("example.ts", src, &vec![h]).unwrap();
    assert_eq!(entities.len(), 1);
    let e = &entities[0];
    assert_eq!(e.entity_name, "hello");
    assert_eq!(e.fully_qualified_name, "example.ts::hello");
    assert_eq!(e.entity_type, EntityType::Function);
    assert_eq!(e.change_kind, ChangeKind::Added);
    assert_eq!(e.changed_lines, 1..=1);
    assert_eq!(e.side_effects, vec![SideEffect::ExternalApiCall]);
    assert_eq!(e.language, Language::TypeScript);
}

#[test]
fn typescript_line_outside_any_anchor_is_a_module() {
    let src = "const x = 1;\n";
    let h = hunk("a.ts", vec![(1, "+const x = 1;")], vec![]);
    let entities = AstEngine::analyze_typescript_file("a.ts", src, &vec![h]).unwrap();
    assert_eq!(entities.len(), 1);
    assert_eq!(entities[0].entity_name, "module");
    assert_eq!(entities[0].entity_type, EntityType::Module);
    assert_eq!(entities[0].fully_qualified_name, "a.ts::module");
}

#[test]
fn rust_entity_uses_anchor_kind_in_qualified_name() {
    let src = "fn main() {\n    let x = 1;\n}\n";
    let mut h = hunk("src/main.rs", vec![(2, "+    let x = 1;")], vec![]);
    h.language = Language::Rust;
    let entities = AstEngine::analyze_file("src/main.rs", src, &vec![h], Language::Rust).unwrap();
    assert_eq!(entities.len(), 1);
    assert_eq!(entities[0].entity_name, "function_item");
    assert_eq!(entities[0].fully_qualified_name, "src/main.rs::function_item");
    assert_eq!(entities[0].entity_type, EntityType::Function);
}

#[test]
fn python_declared_name_wins_over_anchor() {
    let src = "def greet():\n    return 1\n";
    let mut h = hunk("m.py", vec![(1, "+def greet():")], vec![]);
    h.language = Language::Python;
    let entities = AstEngine::analyze_file("m.py", src, &vec![h], Language::Python).unwrap();
    assert_eq!(entities.len(), 1);
    assert_eq!(entities[0].entity_name, "greet");
    assert_eq!(entities[0].fully_qualified_name, "m.py::function_definition");
}

#[test]
fn unknown_language_has_no_entities() {
    let h = hunk("notes.txt", vec![(1, "+hello")], vec![]);
    let entities = AstEngine::analyze_file("notes.txt", "hello\n", &vec![h], Language::Unknown).unwrap();
    assert!(entities.is_empty());
}

#[test]
fn symbol_names() {
    assert_eq!(extract_symbol_name("+function hello() {"), Some("hello".to_string()));
    assert_eq!(extract_symbol_name("++  class Widget extends X"), Some("Widget".to_string()));
    assert_eq!(extract_symbol_name("-fn parse_it(x: u8)"), Some("parse_it".to_string()));
    assert_eq!(extract_symbol_name("+def run_all():"), Some("run_all".to_string()));
    assert_eq!(extract_symbol_name("+func (s *S) M()"), None);
    assert_eq!(extract_symbol_name("+let x = 1;"), None);
    assert_eq!(extract_symbol_name("+function (a) {}"), None);
    assert_eq!(extract_symbol_name("+type Alias = string"), Some("Alias".to_string()));
}

#[test]
fn side_effects_in_order() {
    assert_eq!(
        detect_side_effects("+x = axios.get(window.location + process.env.X)"),
        vec![SideEffect::ExternalApiCall, SideEffect::GlobalStateRead, SideEffect::EnvVarAccess]
    );
    assert_eq!(detect_side_effects("+globalThis.foo = 1"), vec![SideEffect::GlobalStateRead]);
    assert!(detect_side_effects("+let a = b;").is_empty());
}

#[test]
fn change_kinds() {
    let h = hunk("a.ts", vec![(3, "+a"), (5, "+b")], vec![(5, "-c"), (7, "-d")]);
    assert_eq!(detect_change_kind(&h, 3), ChangeKind::Added);
    assert_eq!(detect_change_kind(&h, 5), ChangeKind::Modified);
    assert_eq!(detect_change_kind(&h, 7), ChangeKind::Removed);
    assert_eq!(detect_change_kind(&h, 9), ChangeKind::Modified);
}

#[test]
fn node_kinds_map_to_entity_types() {
    assert_eq!(map_node_kind_to_entity_type("arrow_function"), EntityType::Function);
    assert_eq!(map_node_kind_to_entity_type("method_definition"), EntityType::Method);
    assert_eq!(map_node_kind_to_entity_type("class_declaration"), EntityType::Class);
    assert_eq!(map_node_kind_to_entity_type("interface_declaration"), EntityType::Interface);
    assert_eq!(map_node_kind_to_entity_type("type_alias_declaration"), EntityType::Type);
    assert_eq!(map_node_kind_to_entity_type("program"), EntityType::Module);
}

#[test]
fn enclosing_anchor_is_the_innermost() {
    let anchors = anchor_kinds();
    let chain: Vec<String> = ["identifier", "method_definition", "class_declaration", "program"]
        .iter()
        .map(|s| s.to_string())
        .collect();
    assert_eq!(find_enclosing_anchor(&chain, &anchors), Some("method_definition".to_string()));
    let none: Vec<String> = ["identifier", "program"].iter().map(|s| s.to_string()).collect();
    assert_eq!(find_enclosing_anchor(&none, &anchors), None);
    assert_eq!(anchors.len(), 7);
}

#[test]
fn one_entity_per_added_line_across_hunks() {
    let src = "class A {\n  m() {\n    return 1;\n  }\n}\nconst z = window.x;\n";
    let h1 = hunk("a.ts", vec![(2, "+  m() {"), (3, "+    return 1;")], vec![(3, "-    return 0;")]);
    let h2 = hunk("a.ts", vec![(6, "+const z = window.x;")], vec![]);
    let entities = AstEngine::analyze_file("a.ts", src, &vec![h1, h2], Language::TypeScript).unwrap();
    assert_eq!(entities.len(), 3);
    let lines: Vec<_> = entities.iter().map(|e| e.changed_lines.clone()).collect();
    assert_eq!(lines, vec![2..=2, 3..=3, 6..=6]);
    assert_eq!(entities[0].change_kind, ChangeKind::Added);
    assert_eq!(entities[1].change_kind, ChangeKind::Modified);
    assert_eq!(entities[2].side_effects, vec![SideEffect::GlobalStateRead]);
    assert_eq!(entities[1].entity_type, EntityType::Method);
    assert_eq!(entities[1].entity_name, "method_definition");
    assert_eq!(entities[2].entity_type, EntityType::Module);
    for e in &entities {
        assert_eq!(e.file_path, "a.ts");
        assert_ne!(e.change_kind, ChangeKind::Removed);
    }
    assert_ne!(entities[0].entity_id, entities[1].entity_id);
}

#[test]
fn go_entities_use_go_anchors() {
    let src = "package main\n\nfunc main() {\n\tx := 1\n}\n";
    let mut h = hunk("main.go", vec![(4, "+\tx := 1"), (3, "+func main() {")], vec![]);
    h.language = Language::Go;
    let entities = AstEngine::analyze_file("main.go", src, &vec![h], Language::Go).unwrap();
    assert_eq!(entities.len(), 2);
    assert_eq!(entities[0].entity_name, "function_declaration");
    assert_eq!(entities[0].fully_qualified_name, "main.go::function_declaration");
    assert_eq!(entities[0].language, Language::Go);
    assert_eq!(entities[1].entity_name, "main");
    assert_eq!(entities[1].fully_qualified_name, "main.go::function_declaration");
    assert_eq!(entities[1].entity_type, EntityType::Function);
}

#[test]
fn line_zero_is_read_as_the_first_row() {
    let src = "function f() {}\n";
    let h = hunk("z.ts", vec![(0, "+x")], vec![]);
    let entities = AstEngine::analyze_typescript_file("z.ts", src, &vec![h]).unwrap();
    assert_eq!(entities.len(), 1);
    assert_eq!(entities[0].changed_lines, 0..=0);
}

#[test]
fn entities_from_given_syntax_nesting() {
    let h = hunk("k.ts", vec![(1, "+let a = 1;"), (2, "+interface Shape {")], vec![]);
    let anc = vec![
        vec!["identifier".to_string(), "arrow_function".to_string(), "program".to_string()],
        vec!["program".to_string()],
    ];
    let anchors = anchor_kinds();
    let es = entities_from_ancestries("k.ts", &vec![h], Language::TypeScript, &anc, &anchors);
    assert_eq!(es.len(), 2);
    assert_eq!(es[0].entity_name, "arrow_function");
    assert_eq!(es[0].entity_type, EntityType::Function);
    assert_eq!(es[0].fully_qualified_name, "k.ts::arrow_function");
    assert_eq!(es[1].entity_name, "Shape");
    assert_eq!(es[1].entity_type, EntityType::Module);
    assert_eq!(es[1].fully_qualified_name, "k.ts::Shape");
}
