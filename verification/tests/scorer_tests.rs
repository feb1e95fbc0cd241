use vibediff_core::ast::css_impact::{CssImpact, CssImpactAnalyzer};
use vibediff_core::ast::dependency_graph::DownstreamImpact;
use vibediff_core::cache::ast_cache::{prune_count, CacheKey};
use vibediff_core::config::vibediff_config::VibeDiffConfig;
use vibediff_core::git::diff_parser::{DiffHunk, Language};
use vibediff_core::git::intent::{CommitType, IntentRecord};
use vibediff_core::report::sarif_reporter::sarif_level;
use vibediff_core::scorer::assertion_record::{ConcernType, VibeLabel};
use vibediff_core::scorer::llm_bridge::MockProvider;
use vibediff_core::scorer::prompt_builder::{
    build_user_prompt, commit_type_debug_name, VIBE_SCORER_SYSTEM_PROMPT,
};
use vibediff_core::scorer::vibe_scorer::{
    audit_prompt, clean_llm_response, detected_impacts_section, heuristic_flags,
    heuristic_reasoning, is_excluded_path, is_stylesheet, select_hunks, stylesheet_impacts,
    warm_cache_hunk, next_scoring_step, ModelReply, ScoringStep,
};

fn hunk(path: &str, language: Language) -> DiffHunk {
    DiffHunk {
        file_path: path.to_string(),
        language,
        changed_lines: 1..=1,
        added_lines: vec![],
        removed_lines: vec![],
        raw_hunk: "@@ -1 +1 @@\n".to_string(),
    }
}

fn intent(message: &str, t: CommitType, scope: Option<&str>) -> IntentRecord {
    IntentRecord {
        commit_hash: "abc".to_string(),
        commit_message: message.to_string(),
        commit_type: t,
        scope: scope.map(|s| s.to_string()),
        pr_body: None,
        ticket_ref: None,
        author: "a".to_string(),
        timestamp: 0,
    }
}

#[test]
fn excluded_paths() {
    assert!(is_excluded_path("README.md"));
    assert!(is_excluded_path("docs/guide.md"));
    assert!(is_excluded_path("web/node_modules/x/index.js"));
    assert!(is_excluded_path("vendor/lib.go"));
    assert!(is_excluded_path("src/__tests__/a.ts"));
    assert!(is_excluded_path("api/client.generated.ts"));
    assert!(is_excluded_path("proto/msg.pb.go"));
    assert!(!is_excluded_path("src/main.rs"));
    assert!(!is_excluded_path("README.mdx"));
    assert!(!is_excluded_path("node_modules"));
}

#[test]
fn all_analysable_hunks_are_selected_up_to_a_hundred() {
    let hs = vec![
        hunk("a.ts", Language::TypeScript),
        hunk("b.md", Language::Unknown),
        hunk("vendor/c.go", Language::Go),
        hunk("d.txt", Language::Unknown),
        hunk("e.py", Language::Python),
        hunk("f.rs", Language::Rust),
    ];
    assert_eq!(select_hunks(&hs), vec![0, 4, 5]);
    assert!(select_hunks(&vec![]).is_empty());
}

#[test]
fn every_third_hunk_is_selected_beyond_a_hundred() {
    let hs: Vec<DiffHunk> = (0..101).map(|i| hunk(&format!("f{i}.rs"), Language::Rust)).collect();
    let sel = select_hunks(&hs);
    assert_eq!(sel.len(), 34);
    assert_eq!(sel, (0..34).map(|k| 3 * k).collect::<Vec<usize>>());
    let hs100: Vec<DiffHunk> = (0..100).map(|i| hunk(&format!("f{i}.rs"), Language::Rust)).collect();
    assert_eq!(select_hunks(&hs100).len(), 100);
    let mut mixed: Vec<DiffHunk> = (0..102).map(|i| hunk(&format!("f{i}.go"), Language::Go)).collect();
    mixed[3] = hunk("x.md", Language::Unknown);
    let sel = select_hunks(&mixed);
    assert_eq!(sel.len(), 33);
    assert_eq!(sel[0], 0);
    assert_eq!(sel[1], 6);
    assert_eq!(*sel.last().unwrap(), 99);
}

#[test]
fn no_impacts_give_an_empty_section() {
    assert_eq!(detected_impacts_section(&vec![], &vec![]), "");
}

#[test]
fn impacts_section_lists_both_kinds() {
    let d = vec![DownstreamImpact { changed_entity: "foo".to_string(), impacted_file: "b.ts".to_string() }];
    let c = vec![CssImpact { css_entity: "btn".to_string(), impacted_file: "x.html".to_string() }];
    assert_eq!(
        detected_impacts_section(&d, &c),
        "\n## DETECTED IMPACTS\nDownstream impacts: 1 | CSS impacts: 1\n- downstream: 'foo' may impact 'b.ts'\n- css: 'btn' referenced by 'x.html'\n"
    );
    assert_eq!(
        detected_impacts_section(&vec![], &c),
        "\n## DETECTED IMPACTS\nDownstream impacts: 0 | CSS impacts: 1\n- css: 'btn' referenced by 'x.html'\n"
    );
}

#[test]
fn impacts_section_lists_at_most_twenty_of_each() {
    let d: Vec<DownstreamImpact> = (0..25)
        .map(|i| DownstreamImpact { changed_entity: format!("e{i}"), impacted_file: "f".to_string() })
        .collect();
    let s = detected_impacts_section(&d, &vec![]);
    assert!(s.starts_with("\n## DETECTED IMPACTS\nDownstream impacts: 25 | CSS impacts: 0\n"));
    assert_eq!(s.matches("- downstream:").count(), 20);
    assert!(s.contains("'e19'"));
    assert!(!s.contains("'e20'"));
}

#[test]
fn stylesheets() {
    assert!(is_stylesheet("a/b.css"));
    assert!(is_stylesheet("theme.scss"));
    assert!(!is_stylesheet("theme.sass"));
    assert!(!is_stylesheet("css"));
    assert!(!is_stylesheet(".css"));
}

#[test]
fn fallback_flags_and_reasoning() {
    assert!(heuristic_flags(0).is_empty());
    assert!(heuristic_flags(30).is_empty());
    let f = heuristic_flags(31);
    assert_eq!(f.len(), 1);
    assert_eq!(f[0].entity_name, "bulk_change");
    assert_eq!(f[0].concern, ConcernType::DisproportionateChange);
    assert_eq!(f[0].detail, "High entity count for single intent boundary.");
    let r = heuristic_reasoning();
    assert_eq!(r.logic_match, "Heuristic score from entity/intent alignment.");
    assert_eq!(r.scope_adherence, "Scope based on changed file spread.");
    assert_eq!(r.side_effect_detection, "Side-effect penalty from detected patterns.");
    assert_eq!(r.structural_proportionality, "Entity count proportionality heuristic.");
}

#[test]
fn warm_cache_hunks() {
    let h = warm_cache_hunk("src/lib.rs").unwrap();
    assert_eq!(h.file_path, "src/lib.rs");
    assert_eq!(h.language, Language::Rust);
    assert_eq!(h.changed_lines, 1..=1);
    assert_eq!(h.added_lines, vec![(1, "+warm_cache".to_string())]);
    assert!(h.removed_lines.is_empty());
    assert_eq!(h.raw_hunk, "warm");
    assert_eq!(warm_cache_hunk("app.jsx").unwrap().language, Language::TypeScript);
    assert_eq!(warm_cache_hunk("m.py").unwrap().language, Language::Python);
    assert_eq!(warm_cache_hunk("m.go").unwrap().language, Language::Go);
    assert!(warm_cache_hunk("README.md").is_none());
    assert!(warm_cache_hunk("notes.txt").is_none());
    assert!(warm_cache_hunk("node_modules/a.ts").is_none());
    assert!(warm_cache_hunk("gen/x.pb.go").is_none());
}

#[test]
fn model_answers_lose_their_code_fence() {
    assert_eq!(clean_llm_response("  ```json\n{\"a\":1}\n```  "), "{\"a\":1}");
    assert_eq!(clean_llm_response("```{}```"), "{}");
    assert_eq!(clean_llm_response("{\"x\": 2}"), "{\"x\": 2}");
    assert_eq!(clean_llm_response("```json```json {} ``````"), "{}");
    assert_eq!(clean_llm_response("   "), "");
}

#[test]
fn user_prompt_text() {
    let p = build_user_prompt(&intent("fix: x", CommitType::Fix, Some("auth")), "[]");
    assert_eq!(
        p,
        "## DEVELOPER INTENT\nCommit Message: fix: x\nCommit Type: Fix\nScope: auth\n\n## CODE CHANGES\n[]\n"
    );
    let q = build_user_prompt(&intent("misc", CommitType::Unknown, None), "[{\"a\":1}]");
    assert_eq!(
        q,
        "## DEVELOPER INTENT\nCommit Message: misc\nCommit Type: Unknown\nScope: (none)\n\n## CODE CHANGES\n[{\"a\":1}]\n"
    );
    assert_eq!(commit_type_debug_name(CommitType::Feature), "Feature");
    assert_eq!(commit_type_debug_name(CommitType::Style), "Style");
    assert_eq!(
        VIBE_SCORER_SYSTEM_PROMPT,
        "You are VibeDiff, a strict semantic code auditor. Return valid JSON only."
    );
}

#[test]
fn concern_labels() {
    assert_eq!(ConcernType::from_label("SCOPE_VIOLATION"), ConcernType::ScopeViolation);
    assert_eq!(ConcernType::from_label("UNDOCUMENTED_SIDE_EFFECT"), ConcernType::UndocumentedSideEffect);
    assert_eq!(ConcernType::from_label("DISPROPORTIONATE_CHANGE"), ConcernType::DisproportionateChange);
    assert_eq!(ConcernType::from_label("LOGIC_MISMATCH"), ConcernType::LogicMismatch);
    assert_eq!(ConcernType::from_label("scope_violation"), ConcernType::LogicMismatch);
    assert_eq!(ConcernType::from_label(""), ConcernType::LogicMismatch);
}

#[test]
fn sarif_levels() {
    assert_eq!(sarif_level(VibeLabel::Misaligned), "error");
    assert_eq!(sarif_level(VibeLabel::Suspect), "warning");
    assert_eq!(sarif_level(VibeLabel::Drifting), "note");
    assert_eq!(sarif_level(VibeLabel::Aligned), "note");
}

#[test]
fn mock_model_answer() {
    let a = MockProvider.canned_answer();
    assert!(a.starts_with("{\"scores\":{\"logic_match\":0.8,"));
    assert!(a.ends_with("\"flagged_entities\":[],\"suggested_commit_message\":null}"));
    assert_eq!(clean_llm_response(&a), a);
}

#[test]
fn cache_keys_and_prune_counts() {
    let mut h = hunk("src/a.ts", Language::TypeScript);
    h.raw_hunk = "@@ -1 +1 @@\n+x\n".to_string();
    assert_eq!(CacheKey::of_hunk(&h), CacheKey("src/a.ts:@@ -1 +1 @@\n+x\n".to_string()));
    assert_eq!(prune_count(10, 5), 5);
    assert_eq!(prune_count(5, 5), 0);
    assert_eq!(prune_count(3, 10000), 0);
    assert_eq!(prune_count(7, 0), 7);
}

#[test]
fn default_configuration() {
    let c = VibeDiffConfig::default();
    assert_eq!(c.local_model, "llama3.2:3b");
    assert_eq!(c.ollama_url, "http://localhost:11434");
    assert!(!c.use_mock_llm);
    assert_eq!(c.timeout_secs, 30);
}

#[test]
fn audit_prompt_is_the_user_prompt_then_the_impacts() {
    let i = intent("feat(ui): button", CommitType::Feature, Some("ui"));
    let d = vec![DownstreamImpact { changed_entity: "Btn".to_string(), impacted_file: "page.tsx".to_string() }];
    let p = audit_prompt(&i, "[]", &d, &vec![]);
    assert_eq!(
        p,
        "## DEVELOPER INTENT\nCommit Message: feat(ui): button\nCommit Type: Feature\nScope: ui\n\n## CODE CHANGES\n[]\n\n## DETECTED IMPACTS\nDownstream impacts: 1 | CSS impacts: 0\n- downstream: 'Btn' may impact 'page.tsx'\n"
    );
    assert_eq!(audit_prompt(&i, "[]", &vec![], &vec![]), build_user_prompt(&i, "[]"));
}

#[test]
fn only_stylesheet_hunks_have_css_impacts() {
    let mut a = CssImpactAnalyzer::empty();
    a.index_file("index.html", "<a class=\"nav\" >");
    let mut css = hunk("site.css", Language::Unknown);
    css.removed_lines = vec![(4, "-.nav {".to_string())];
    let mut scss = hunk("theme.scss", Language::Unknown);
    scss.removed_lines = vec![(1, "-.nav".to_string()), (2, "-.gone".to_string())];
    let mut ts = hunk("a.ts", Language::TypeScript);
    ts.removed_lines = vec![(1, "-.nav {".to_string())];
    let impacts = stylesheet_impacts(&a, &vec![css, ts, scss]);
    let pairs: Vec<(String, String)> =
        impacts.iter().map(|i| (i.css_entity.clone(), i.impacted_file.clone())).collect();
    assert_eq!(
        pairs,
        vec![("nav".to_string(), "index.html".to_string()), ("nav".to_string(), "index.html".to_string())]
    );
    assert!(stylesheet_impacts(&a, &vec![]).is_empty());
}

#[test]
fn warm_hunks_are_selected_for_analysis() {
    for p in ["src/lib.rs", "web/app.tsx", "tool.py", "cmd/x.go"] {
        let h = warm_cache_hunk(p).unwrap();
        assert_eq!(select_hunks(&vec![h]), vec![0], "{p}");
    }
}

#[test]
fn scoring_steps_after_each_reply() {
    for a in 1..=3u32 {
        assert_eq!(next_scoring_step(a, ModelReply::Parsed), ScoringStep::UseModelVerdict);
        assert_eq!(next_scoring_step(a, ModelReply::Failed), ScoringStep::UseHeuristic);
    }
    assert_eq!(next_scoring_step(1, ModelReply::Unparsable), ScoringStep::AskAgain);
    assert_eq!(next_scoring_step(2, ModelReply::Unparsable), ScoringStep::AskAgain);
    assert_eq!(next_scoring_step(3, ModelReply::Unparsable), ScoringStep::UseHeuristic);
}

#[test]
fn model_is_asked_at_most_three_times() {
    let run = |replies: &[ModelReply]| {
        let mut attempts = 1u32;
        loop {
            match next_scoring_step(attempts, replies[attempts as usize - 1]) {
                ScoringStep::AskAgain => attempts += 1,
                s => return (attempts, s),
            }
        }
    };
    assert_eq!(run(&[ModelReply::Unparsable, ModelReply::Unparsable, ModelReply::Unparsable]), (3, ScoringStep::UseHeuristic));
    assert_eq!(run(&[ModelReply::Unparsable, ModelReply::Parsed, ModelReply::Unparsable]), (2, ScoringStep::UseModelVerdict));
    assert_eq!(run(&[ModelReply::Unparsable, ModelReply::Failed, ModelReply::Parsed]), (2, ScoringStep::UseHeuristic));
    assert_eq!(run(&[ModelReply::Parsed, ModelReply::Failed, ModelReply::Failed]), (1, ScoringStep::UseModelVerdict));
}
