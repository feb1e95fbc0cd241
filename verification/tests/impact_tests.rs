use vibediff_core::ast::css_impact::{css_classes_in, extract_css_class, CssImpactAnalyzer};
use vibediff_core::ast::dependency_graph::{imported_symbols_in, DependencyGraph};
use vibediff_core::ast::engine::AstEngine;
use vibediff_core::ast::entity_mapper::EntityChange;
use vibediff_core::ast::key_index::add_keys;
use vibediff_core::ast::symbol_index::SymbolIndex;
use vibediff_core::git::diff_parser::{DiffHunk, DiffParser, Language};

fn strings(v: Vec<Vec<char>>) -> Vec<String> {
    v.into_iter().map(|c| c.into_iter().collect()).collect()
}

fn removal_hunk(removed: &[&str]) -> DiffHunk {
    DiffHunk {
        file_path: "styles/site.css".to_string(),
        language: Language::Unknown,
        changed_lines: 1..=1,
        added_lines: vec![],
        removed_lines: removed.iter().enumerate().map(|(i, s)| (i as u32 + 1, s.to_string())).collect(),
        raw_hunk: "@@".to_string(),
    }
}

fn entity_in(path: &str, name_line: &str) -> EntityChange {
    let h = DiffHunk {
        file_path: path.to_string(),
        language: Language::TypeScript,
        changed_lines: 1..=1,
        added_lines: vec![(1, name_line.to_string())],
        removed_lines: vec![],
        raw_hunk: "@@".to_string(),
    };
    let src = format!("{}\n", name_line.trim_start_matches('+'));
    let mut v = AstEngine::analyze_typescript_file(path, &src, &vec![h]).unwrap();
    assert_eq!(v.len(), 1);
    v.remove(0)
}

#[test]
fn css_class_of_a_line() {
    assert_eq!(extract_css_class(".btn-primary {"), Some("btn-primary".to_string()));
    assert_eq!(extract_css_class("  .a_b:hover {"), Some("a_b".to_string()));
    assert_eq!(extract_css_class(".x1.y2"), Some("x1".to_string()));
    assert_eq!(extract_css_class("div {"), None);
    assert_eq!(extract_css_class(". x"), None);
    assert_eq!(extract_css_class("."), None);
    assert_eq!(extract_css_class("-.btn {"), None);
}

#[test]
fn classes_used_by_a_source() {
    assert_eq!(
        strings(css_classes_in("<div class=\"card\" id=\"x\"><p className=\"lead\" >")),
        vec!["card".to_string(), "lead".to_string()]
    );
    // only the first class of a list shares its token with `class="`
    assert_eq!(strings(css_classes_in("<div class=\"btn big\">")), vec!["btn".to_string()]);
    // one-character classes are not recorded
    assert!(css_classes_in("<i class=\"a\" >").is_empty());
    assert_eq!(strings(css_classes_in("class='x1'")), Vec::<String>::new());
    assert_eq!(strings(css_classes_in("class=\"'q1'\"")), vec!["q1".to_string()]);
    assert!(css_classes_in("").is_empty());
}

#[test]
fn css_impacts_of_removed_classes() {
    let mut a = CssImpactAnalyzer::empty();
    a.index_file("web/index.html", "<button class=\"btn\" >ok</button>");
    a.index_file("web/app.tsx", "<b className=\"btn\" />");
    a.index_file("web/other.html", "<i class=\"icon\" />");
    let impacts = a.analyze_css_hunk(&removal_hunk(&["-.btn {", "-color: red;", "-.none {"]));
    let pairs: Vec<(String, String)> =
        impacts.iter().map(|i| (i.css_entity.clone(), i.impacted_file.clone())).collect();
    assert_eq!(
        pairs,
        vec![
            ("btn".to_string(), "web/index.html".to_string()),
            ("btn".to_string(), "web/app.tsx".to_string())
        ]
    );
    // only the one `-` marker is dropped: a removed line `--.btn` has the text
    // `-.btn`, which defines no class
    assert!(a.analyze_css_hunk(&removal_hunk(&["--.btn {"])).is_empty());
    assert!(a.analyze_css_hunk(&removal_hunk(&[])).is_empty());
}

#[test]
fn css_impacts_of_a_parsed_stylesheet_diff() {
    let mut a = CssImpactAnalyzer::empty();
    a.index_file("a.html", "<p class=\"btn\" >");
    a.index_file("b.tsx", "<p className=\"btn\" />");
    let hunks = DiffParser::new(".".to_string())
        .parse_unified_diff("+++ b/site.css\n@@ -3 +3 @@\n-.btn {\n+.button {\n");
    assert_eq!(hunks.len(), 1);
    let pairs: Vec<(String, String)> = a
        .analyze_css_hunk(&hunks[0])
        .iter()
        .map(|i| (i.css_entity.clone(), i.impacted_file.clone()))
        .collect();
    assert_eq!(pairs, vec![("btn".to_string(), "a.html".to_string()), ("btn".to_string(), "b.tsx".to_string())]);
}

#[test]
fn css_indexed_file_kinds() {
    for p in ["a.ts", "a.tsx", "a.js", "a.jsx", "a.html", "a.css", "a.scss"] {
        assert!(CssImpactAnalyzer::indexes_file(p), "{p}");
    }
    for p in ["a.rs", "a.py", "a.htm", "css", "a.SCSS"] {
        assert!(!CssImpactAnalyzer::indexes_file(p), "{p}");
    }
}

#[test]
fn imported_names_of_a_source() {
    assert_eq!(
        strings(imported_symbols_in("import { foo } from './a';\nconst x = 1;\n")),
        vec!["import".to_string(), "foo".to_string(), "from".to_string()]
    );
    assert_eq!(
        strings(imported_symbols_in("  use crate::ab::Widget;\nfrom pkg import x9y\n")),
        vec!["use".to_string(), "crate".to_string(), "Widget".to_string(), "from".to_string(), "pkg".to_string(), "import".to_string(), "x9y".to_string()]
    );
    assert!(imported_symbols_in("let a = b;\nimporting things\n").is_empty());
    assert_eq!(strings(imported_symbols_in("import _private, 9lives, ok\n")), vec!["import".to_string()]);
}

#[test]
fn downstream_impacts_skip_the_entity_file() {
    let mut g = DependencyGraph::empty();
    g.index_file("src/b.ts", "import { hello } from './a';\n");
    g.index_file("src/a.ts", "import { hello } from './c';\n");
    let e_a = entity_in("src/a.ts", "+function hello() {}");
    assert_eq!(e_a.entity_name, "hello");
    let impacts = g.find_downstream_impact(&vec![e_a]);
    let pairs: Vec<(String, String)> =
        impacts.iter().map(|i| (i.changed_entity.clone(), i.impacted_file.clone())).collect();
    assert_eq!(pairs, vec![("hello".to_string(), "src/b.ts".to_string())]);
    let e_z = entity_in("src/z.ts", "+function nobody() {}");
    assert!(g.find_downstream_impact(&vec![e_z]).is_empty());
    assert!(DependencyGraph::empty().find_downstream_impact(&vec![]).is_empty());
}

#[test]
fn dependency_indexed_file_kinds() {
    for p in ["a.ts", "a.tsx", "a.js", "a.jsx", "a.rs", "a.py", "a.go"] {
        assert!(DependencyGraph::indexes_file(p), "{p}");
    }
    for p in ["a.css", "a.html", "a.md", "Makefile"] {
        assert!(!DependencyGraph::indexes_file(p), "{p}");
    }
}

#[test]
fn symbol_index_reads_what_was_written() {
    let mut idx = SymbolIndex::new();
    assert!(idx.get("foo").is_none());
    idx.add("foo".to_string(), "a.ts".to_string());
    idx.add("bar".to_string(), "b.ts".to_string());
    idx.add("foo".to_string(), "c.ts".to_string());
    assert_eq!(idx.get("foo").unwrap(), &vec!["a.ts".to_string(), "c.ts".to_string()]);
    assert_eq!(idx.get("bar").unwrap(), &vec!["b.ts".to_string()]);
    assert!(idx.get("baz").is_none());
}

#[test]
fn many_keys_for_one_file() {
    let mut idx = SymbolIndex::new();
    let keys: Vec<Vec<char>> = vec!["k1".chars().collect(), "k2".chars().collect(), "k1".chars().collect()];
    add_keys(&mut idx, &keys, "f.rs");
    assert_eq!(idx.get("k1").unwrap(), &vec!["f.rs".to_string(), "f.rs".to_string()]);
    assert_eq!(idx.get("k2").unwrap(), &vec!["f.rs".to_string()]);
}

#[test]
fn own_file_is_recognised_whatever_its_spelling() {
    let mut g = DependencyGraph::empty();
    g.index_file("src//a.ts", "import { hello } from './c';\n");
    g.index_file("src/./a.ts", "import { hello } from './c';\n");
    g.index_file("./src/a.ts", "import { hello } from './c';\n");
    let e = entity_in("src/a.ts", "+function hello() {}");
    let impacts = g.find_downstream_impact(&vec![e]);
    let files: Vec<String> = impacts.iter().map(|i| i.impacted_file.clone()).collect();
    // a leading `.` is a component of its own, as `Path` sees it
    assert_eq!(files, vec!["./src/a.ts".to_string()]);
}

#[test]
fn indexed_names_can_be_looked_up() {
    let mut g = DependencyGraph::empty();
    g.index_file("m.rs", "use crate::widget;\n");
    assert!(g.symbol_references.get("widget").is_some());
    assert!(g.symbol_references.get("crate").is_some());
    assert!(g.symbol_references.get("nothing").is_none());
    let mut a = CssImpactAnalyzer::empty();
    a.index_file("p.html", "<p class=\"lead\" >");
    assert_eq!(a.class_usage_index.get("lead").unwrap(), &vec!["p.html".to_string()]);
}
