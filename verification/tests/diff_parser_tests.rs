use vibediff_core::git::diff_parser::{infer_language, line_numbers_fit, DiffHunk, DiffParser, Language};
use vibediff_core::git::paths::same_path_as;

fn chars(s: &str) -> Vec<char> {
    s.chars().collect()
}

fn numbered(v: &[(u32, &str)]) -> Vec<(u32, String)> {
    v.iter().map(|(n, s)| (*n, s.to_string())).collect()
}

fn parse(raw: &str) -> Vec<DiffHunk> {
    assert!(line_numbers_fit(raw));
    DiffParser::new(".".to_string()).parse_unified_diff(raw)
}

const ONE_FILE: &str = "diff --git a/src/app.ts b/src/app.ts\nindex 1234567..89abcde 100644\n--- a/src/app.ts\n+++ b/src/app.ts\n@@ -1,3 +1,4 @@\n const a = 1;\n-const b = 2;\n+const b = 3;\n+const c = 4;\n export {};\n";

#[test]
fn single_hunk_is_parsed_with_line_numbers() {
    let hunks = parse(ONE_FILE);
    assert_eq!(hunks.len(), 1);
    let h = &hunks[0];
    assert_eq!(h.file_path, "src/app.ts");
    assert_eq!(h.language, Language::TypeScript);
    assert_eq!(h.changed_lines, 2..=3);
    assert_eq!(h.added_lines, numbered(&[(2, "+const b = 3;"), (3, "+const c = 4;")]));
    assert_eq!(h.removed_lines, numbered(&[(2, "-const b = 2;")]));
    assert_eq!(
        h.raw_hunk,
        "@@ -1,3 +1,4 @@\n const a = 1;\n-const b = 2;\n+const b = 3;\n+const c = 4;\n export {};\n"
    );
}

#[test]
fn staged_and_rev_extraction_parse_the_given_text() {
    let parser = DiffParser::new("/repo".to_string());
    assert_eq!(parser.git().repo_root, "/repo");
    let staged = parser.extract_staged_diff_hunks(Ok::<String, String>(ONE_FILE.to_string())).unwrap();
    let rev = parser.extract_rev_diff_hunks(Ok::<String, String>(ONE_FILE.to_string())).unwrap();
    assert_eq!(staged.len(), 1);
    assert_eq!(rev.len(), 1);
    assert_eq!(staged[0].raw_hunk, rev[0].raw_hunk);
    assert_eq!(staged[0].added_lines, rev[0].added_lines);
}

#[test]
fn reading_errors_are_passed_on() {
    let parser = DiffParser::new(".".to_string());
    let e = parser.extract_staged_diff_hunks(Err::<String, String>("no HEAD".to_string()));
    assert_eq!(e.err(), Some("no HEAD".to_string()));
    let e = parser.extract_rev_diff_hunks(Err::<String, String>("no-such-rev".to_string()));
    assert_eq!(e.err(), Some("no-such-rev".to_string()));
}

#[test]
fn empty_diff_has_no_hunks() {
    assert!(parse("").is_empty());
    assert!(parse("diff --git a/x b/x\nindex 1..2\n--- a/x\n+++ b/x\n").is_empty());
}

#[test]
fn two_hunks_in_one_file() {
    let raw = "+++ b/lib.rs\n@@ -1,2 +1,2 @@\n-a\n+b\n@@ -10,1 +10,2 @@\n x\n+y\n";
    let hunks = parse(raw);
    assert_eq!(hunks.len(), 2);
    assert_eq!(hunks[0].file_path, "lib.rs");
    assert_eq!(hunks[0].language, Language::Rust);
    assert_eq!(hunks[0].changed_lines, 1..=1);
    assert_eq!(hunks[0].added_lines, numbered(&[(1, "+b")]));
    assert_eq!(hunks[0].removed_lines, numbered(&[(1, "-a")]));
    assert_eq!(hunks[0].raw_hunk, "@@ -1,2 +1,2 @@\n-a\n+b\n");
    assert_eq!(hunks[1].changed_lines, 11..=11);
    assert_eq!(hunks[1].added_lines, numbered(&[(11, "+y")]));
    assert_eq!(hunks[1].raw_hunk, "@@ -10,1 +10,2 @@\n x\n+y\n");
}

#[test]
fn each_hunk_belongs_to_the_file_in_effect_when_it_opened() {
    // Header lines of the next file are context of the open hunk, which
    // still belongs to the file named before its `@@` line.
    let raw = "+++ b/a.py\n@@ -1 +1 @@\n+x\ndiff --git a/b.go b/b.go\n--- a/b.go\n+++ b/b.go\n@@ -5 +5 @@\n+y\n";
    let hunks = parse(raw);
    assert_eq!(hunks.len(), 2);
    assert_eq!(hunks[0].file_path, "a.py");
    assert_eq!(hunks[0].language, Language::Python);
    assert_eq!(hunks[0].added_lines, numbered(&[(1, "+x")]));
    assert_eq!(hunks[0].raw_hunk, "@@ -1 +1 @@\n+x\ndiff --git a/b.go b/b.go\n--- a/b.go\n");
    assert_eq!(hunks[1].file_path, "b.go");
    assert_eq!(hunks[1].language, Language::Go);
    assert_eq!(hunks[1].added_lines, numbered(&[(5, "+y")]));
    assert_eq!(hunks[1].raw_hunk, "@@ -5 +5 @@\n+y\n");
}

#[test]
fn a_new_file_header_does_not_take_the_open_hunk() {
    let hunks = parse("+++ b/a.ts\n@@ -1 +1 @@\n+x\n+++ b/b.rs\n@@ -1 +1 @@\n+y\n");
    assert_eq!(hunks.len(), 2);
    assert_eq!(hunks[0].file_path, "a.ts");
    assert_eq!(hunks[0].language, Language::TypeScript);
    assert_eq!(hunks[0].added_lines, numbered(&[(1, "+x")]));
    assert_eq!(hunks[1].file_path, "b.rs");
    assert_eq!(hunks[1].language, Language::Rust);
    assert_eq!(hunks[1].added_lines, numbered(&[(1, "+y")]));
}

#[test]
fn one_hunk_per_header_line() {
    let hunks = parse("@@ -1 +1 @@\n+a\ndiff --git x\n+b\n");
    assert_eq!(hunks.len(), 1);
    assert_eq!(hunks[0].added_lines, numbered(&[(1, "+a"), (3, "+b")]));
    assert_eq!(hunks[0].raw_hunk, "@@ -1 +1 @@\n+a\ndiff --git x\n+b\n");
}

#[test]
fn hunk_without_added_lines_spans_line_one() {
    let hunks = parse("+++ b/m.py\n@@ -3,2 +3,1 @@\n-gone\n kept\n");
    assert_eq!(hunks.len(), 1);
    assert_eq!(hunks[0].changed_lines, 1..=1);
    assert!(hunks[0].added_lines.is_empty());
    assert_eq!(hunks[0].removed_lines, numbered(&[(3, "-gone")]));
    assert_eq!(hunks[0].language, Language::Python);
}

#[test]
fn hunk_start_without_count_or_number() {
    let hunks = parse("+++ b/x.rs\n@@ -0,0 +7 @@\n+a\n@@ -1 +zz @@\n+b\n@@ nothing\n+c\n");
    assert_eq!(hunks.len(), 3);
    assert_eq!(hunks[0].added_lines, numbered(&[(7, "+a")]));
    // an unreadable start number counts from 1
    assert_eq!(hunks[1].added_lines, numbered(&[(1, "+b")]));
    // a header without '+' keeps counting from where the last hunk stopped
    assert_eq!(hunks[2].added_lines, numbered(&[(2, "+c")]));
}

#[test]
fn lines_end_with_crlf_or_no_newline() {
    let hunks = parse("+++ b/w.ts\r\n@@ -1 +1 @@\r\n+a\r\n+b");
    assert_eq!(hunks.len(), 1);
    assert_eq!(hunks[0].file_path, "w.ts");
    assert_eq!(hunks[0].added_lines, numbered(&[(1, "+a"), (2, "+b")]));
    assert_eq!(hunks[0].raw_hunk, "@@ -1 +1 @@\n+a\n+b\n");
}

#[test]
fn changed_lines_before_any_hunk_header_open_a_hunk() {
    // An added or removed line opens a hunk even before any `@@` header; it
    // counts from line 0.
    let hunks = parse("+only\n-lines\n+++ b/q.ts\n@@ -1 +1 @@\n+z\n");
    assert_eq!(hunks.len(), 2);
    // no file was named before it
    assert_eq!(hunks[0].file_path, "");
    assert_eq!(hunks[0].language, Language::Unknown);
    assert_eq!(hunks[1].file_path, "q.ts");
    assert_eq!(hunks[0].added_lines, numbered(&[(0, "+only")]));
    assert_eq!(hunks[0].removed_lines, numbered(&[(1, "-lines")]));
    assert_eq!(hunks[0].changed_lines, 0..=0);
    assert_eq!(hunks[0].raw_hunk, "+only\n-lines\n");
    assert_eq!(hunks[1].added_lines, numbered(&[(1, "+z")]));
    assert_eq!(hunks[1].raw_hunk, "@@ -1 +1 @@\n+z\n");
}

#[test]
fn context_lines_before_any_hunk_are_ignored() {
    let hunks = parse("plain\n+++ b/q.ts\n@@ -4 +4 @@\n+z\n");
    assert_eq!(hunks.len(), 1);
    assert_eq!(hunks[0].added_lines, numbered(&[(4, "+z")]));
    assert_eq!(hunks[0].raw_hunk, "@@ -4 +4 @@\n+z\n");
}

#[test]
fn path_without_b_prefix_keeps_previous_path() {
    let hunks = parse("+++ /dev/null\n@@ -1 +0,0 @@\n-x\n");
    assert_eq!(hunks.len(), 1);
    assert_eq!(hunks[0].file_path, "");
    assert_eq!(hunks[0].language, Language::Unknown);
}

#[test]
fn line_numbers_must_fit_in_32_bits() {
    assert!(line_numbers_fit("@@ -1 +4294967294 @@\n+a\n"));
    assert!(!line_numbers_fit("@@ -1 +4294967295 @@\n+a\n"));
    assert!(!line_numbers_fit("@@ -1 +4294967295 @@\n ctx\n"));
    assert!(line_numbers_fit("@@ -1 +4294967295 @@\n-a\n"));
    assert!(line_numbers_fit(ONE_FILE));
}

#[test]
fn language_is_inferred_from_the_extension() {
    assert_eq!(infer_language(&chars("src/a.ts")), Language::TypeScript);
    assert_eq!(infer_language(&chars("src/a.tsx")), Language::TypeScript);
    assert_eq!(infer_language(&chars("a.js")), Language::TypeScript);
    assert_eq!(infer_language(&chars("a.jsx")), Language::TypeScript);
    assert_eq!(infer_language(&chars("lib/x.rs")), Language::Rust);
    assert_eq!(infer_language(&chars("x.py")), Language::Python);
    assert_eq!(infer_language(&chars("cmd/main.go")), Language::Go);
    assert_eq!(infer_language(&chars("README.md")), Language::Unknown);
    assert_eq!(infer_language(&chars("Makefile")), Language::Unknown);
}

#[test]
fn language_edge_cases_follow_path_rules() {
    // a leading dot starts a hidden name, not an extension
    assert_eq!(infer_language(&chars(".rs")), Language::Unknown);
    // trailing slashes are not part of the file name
    assert_eq!(infer_language(&chars("dir.ts/")), Language::TypeScript);
    // the extension is that of the last component only
    assert_eq!(infer_language(&chars("pkg.py/readme")), Language::Unknown);
    assert_eq!(infer_language(&chars("a.tar.go")), Language::Go);
    assert_eq!(infer_language(&chars("a.")), Language::Unknown);
    assert_eq!(infer_language(&chars("a/..")), Language::Unknown);
    assert_eq!(infer_language(&chars("")), Language::Unknown);
    assert_eq!(infer_language(&chars("A.RS")), Language::Unknown);
}

#[test]
fn parsed_hunks_are_well_formed_on_an_example() {
    let raw = "+++ b/k.rs\n@@ -1,4 +1,5 @@\n c\n+a\n-r\n+b\n c\n+d\n";
    let hunks = parse(raw);
    assert_eq!(hunks.len(), 1);
    let h = &hunks[0];
    for (_, l) in &h.added_lines {
        assert!(l.starts_with('+') && !l.starts_with("+++"));
    }
    for (_, l) in &h.removed_lines {
        assert!(l.starts_with('-') && !l.starts_with("---"));
    }
    let nums: Vec<u32> = h.added_lines.iter().map(|(n, _)| *n).collect();
    assert_eq!(nums, vec![2, 3, 5]);
    assert_eq!(h.changed_lines, 2..=5);
    assert!(h.raw_hunk.ends_with('\n'));
}

#[test]
fn paths_compare_by_components() {
    assert!(same_path_as("src//a.ts", "src/a.ts"));
    assert!(same_path_as("src/./a.ts", "src/a.ts"));
    assert!(same_path_as("src/a.ts/", "src/a.ts"));
    assert!(same_path_as(".", "./"));
    assert!(same_path_as("//x", "/x"));
    assert!(!same_path_as("./a.ts", "a.ts"));
    assert!(!same_path_as("/a", "a"));
    assert!(!same_path_as("a/../b", "b"));
    assert!(!same_path_as("a.ts", "A.ts"));
}
