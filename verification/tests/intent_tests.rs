use vibediff_core::git::intent::{
    commit_type_from_kind, parse_commit_type_and_scope, scope_parens_in_order, CommitType,
    IntentExtractor,
};

fn extract_ticket_ref(message: &str) -> Option<String> {
    IntentExtractor::new(".".to_string()).extract(String::new(), message, None, 0, None).ticket_ref
}

fn parse(message: &str) -> (CommitType, Option<String>) {
    assert!(scope_parens_in_order(message));
    parse_commit_type_and_scope(message)
}

#[test]
fn type_and_scope_of_a_conventional_header() {
    assert_eq!(parse("feat(auth): add login"), (CommitType::Feature, Some("auth".to_string())));
    assert_eq!(parse("fix: prevent null pointer"), (CommitType::Fix, None));
    assert_eq!(parse("refactor(core): tidy\n\nbody (x)"), (CommitType::Refactor, Some("core".to_string())));
    assert_eq!(parse("chore: bump"), (CommitType::Chore, None));
    assert_eq!(parse("docs(readme): typo"), (CommitType::Docs, Some("readme".to_string())));
    assert_eq!(parse("test: more"), (CommitType::Test, None));
    assert_eq!(parse("perf(db): index"), (CommitType::Perf, Some("db".to_string())));
    assert_eq!(parse("style: fmt"), (CommitType::Style, None));
}

#[test]
fn unknown_and_unusual_headers() {
    assert_eq!(parse("random message"), (CommitType::Unknown, None));
    assert_eq!(parse(""), (CommitType::Unknown, None));
    assert_eq!(parse("Feat: capitalised"), (CommitType::Unknown, None));
    assert_eq!(parse("feat (x): space before scope"), (CommitType::Unknown, Some("x".to_string())));
    // no colon: the whole first line is the header
    assert_eq!(parse("docs(readme)"), (CommitType::Docs, Some("readme".to_string())));
    // no closing parenthesis: the scope runs to the end of the header
    assert_eq!(parse("feat(ui: x"), (CommitType::Feature, Some("ui".to_string())));
    // an empty scope is still a scope
    assert_eq!(parse("fix(): x"), (CommitType::Fix, Some(String::new())));
    // parentheses after the colon are not a scope
    assert_eq!(parse("fix: a (b)"), (CommitType::Fix, None));
}

#[test]
fn scope_parentheses_out_of_order_are_detected() {
    assert!(!scope_parens_in_order("chore)(x): y"));
    assert!(scope_parens_in_order("chore(x): y)"));
    assert!(scope_parens_in_order("no parens"));
    assert!(!scope_parens_in_order("fix)(: after colon"));
    assert!(scope_parens_in_order("fix: )("));
    assert!(!scope_parens_in_order("x)y(z"));
}

#[test]
fn commit_type_words() {
    let w = |s: &str| s.chars().collect::<Vec<char>>();
    assert_eq!(commit_type_from_kind(&w("feat")), CommitType::Feature);
    assert_eq!(commit_type_from_kind(&w("fix")), CommitType::Fix);
    assert_eq!(commit_type_from_kind(&w("feature")), CommitType::Unknown);
    assert_eq!(commit_type_from_kind(&w("")), CommitType::Unknown);
}

#[test]
fn ticket_references() {
    assert_eq!(extract_ticket_ref("fix: ABC-123 crash"), Some("ABC-123".to_string()));
    assert_eq!(extract_ticket_ref("see GH-42"), Some("GH-42".to_string()));
    assert_eq!(extract_ticket_ref("no ticket here"), None);
    assert_eq!(extract_ticket_ref("A-1 is too short"), None);
    assert_eq!(extract_ticket_ref("first JIRA-7 then GH-8"), Some("JIRA-7".to_string()));
    // at most ten capitals before the dash
    assert_eq!(extract_ticket_ref("ABCDEFGHIJK-1"), Some("BCDEFGHIJK-1".to_string()));
    assert_eq!(extract_ticket_ref("abc-12"), None);
}

#[test]
fn intent_record_of_a_commit() {
    let ex = IntentExtractor::new("/repo".to_string());
    assert_eq!(ex.git().repo_root, "/repo");
    let r = ex.extract(
        "0123abcd".to_string(),
        "  feat(api): add endpoint for PROJ-77\n\nlonger body\n",
        Some("Jane Dev".to_string()),
        1_700_000_000,
        Some("PR text".to_string()),
    );
    assert_eq!(r.commit_hash, "0123abcd");
    assert_eq!(r.commit_message, "feat(api): add endpoint for PROJ-77\n\nlonger body");
    assert_eq!(r.commit_type, CommitType::Feature);
    assert_eq!(r.scope, Some("api".to_string()));
    assert_eq!(r.ticket_ref, Some("PROJ-77".to_string()));
    assert_eq!(r.author, "Jane Dev");
    assert_eq!(r.timestamp, 1_700_000_000);
    assert_eq!(r.pr_body, Some("PR text".to_string()));
}

#[test]
fn intent_record_without_author_or_ticket() {
    let ex = IntentExtractor::new(".".to_string());
    let r = ex.extract("h".to_string(), "\tquick fix\n", None, -5, None);
    assert_eq!(r.commit_message, "quick fix");
    assert_eq!(r.commit_type, CommitType::Unknown);
    assert_eq!(r.scope, None);
    assert_eq!(r.ticket_ref, None);
    assert_eq!(r.author, "unknown");
    assert_eq!(r.timestamp, -5);
    assert_eq!(r.pr_body, None);
}

#[test]
fn header_roundtrip_on_an_example() {
    for (kind, t) in [("feat", CommitType::Feature), ("perf", CommitType::Perf), ("misc", CommitType::Unknown)] {
        let msg = format!("{kind}(scope-1): rest of line\nbody");
        assert_eq!(parse(&msg), (t, Some("scope-1".to_string())));
    }
}
