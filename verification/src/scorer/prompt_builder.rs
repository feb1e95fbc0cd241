//! The prompt the model is given.
use vstd::prelude::*;

use crate::git::intent::{CommitType, IntentRecord};
use crate::text::{append_chars, contains_seq, from_chars, to_chars};

verus! {

broadcast use vstd::string::group_string_axioms;

/// The system prompt of every audit.
pub const VIBE_SCORER_SYSTEM_PROMPT: &'static str =
    "You are VibeDiff, a strict semantic code auditor. Return valid JSON only.";

/// The name of a commit type, as `Debug` prints it.
pub open spec fn commit_type_name(t: CommitType) -> Seq<char> {
    match t {
        CommitType::Feature => "Feature"@,
        CommitType::Fix => "Fix"@,
        CommitType::Refactor => "Refactor"@,
        CommitType::Chore => "Chore"@,
        CommitType::Docs => "Docs"@,
        CommitType::Test => "Test"@,
        CommitType::Perf => "Perf"@,
        CommitType::Style => "Style"@,
        CommitType::Unknown => "Unknown"@,
    }
}

/// The name of a commit type, as `Debug` prints it.
pub fn commit_type_debug_name(t: CommitType) -> (r: &'static str)
    ensures
        r@ == commit_type_name(t),
{
    match t {
        CommitType::Feature => "Feature",
        CommitType::Fix => "Fix",
        CommitType::Refactor => "Refactor",
        CommitType::Chore => "Chore",
        CommitType::Docs => "Docs",
        CommitType::Test => "Test",
        CommitType::Perf => "Perf",
        CommitType::Style => "Style",
        CommitType::Unknown => "Unknown",
    }
}

/// The user prompt for an intent and the changed entities (given as the JSON
/// text that serialises them).
pub open spec fn user_prompt(intent: IntentRecord, entities_json: Seq<char>) -> Seq<char> {
    "## DEVELOPER INTENT\nCommit Message: "@ + intent.commit_message@ + "\nCommit Type: "@
        + commit_type_name(intent.commit_type) + "\nScope: "@ + (match intent.scope {
        Some(s) => s@,
        None => "(none)"@,
    }) + "\n\n## CODE CHANGES\n"@ + entities_json + "\n"@
}

/// The user prompt: the commit's message, type and scope, then the changed
/// entities as JSON.
pub fn build_user_prompt(intent: &IntentRecord, entities_json: &str) -> (r: String)
    ensures
        r@ == user_prompt(*intent, entities_json@),
{
    let mut p = to_chars("## DEVELOPER INTENT\nCommit Message: ");
    append_chars(&mut p, &to_chars(intent.commit_message.as_str()));
    append_chars(&mut p, &to_chars("\nCommit Type: "));
    append_chars(&mut p, &to_chars(commit_type_debug_name(intent.commit_type)));
    append_chars(&mut p, &to_chars("\nScope: "));
    match &intent.scope {
        Some(s) => append_chars(&mut p, &to_chars(s.as_str())),
        None => append_chars(&mut p, &to_chars("(none)")),
    }
    append_chars(&mut p, &to_chars("\n\n## CODE CHANGES\n"));
    append_chars(&mut p, &to_chars(entities_json));
    append_chars(&mut p, &to_chars("\n"));
    let r = from_chars(&p);
    assert(r@ =~= user_prompt(*intent, entities_json@));
    r
}

/// Law: the prompt names each commit type by its own variant identifier, as
/// `Debug` prints it, so no two types read alike.
pub proof fn law_commit_type_names(a: CommitType, b: CommitType)
    ensures
        commit_type_name(a) == commit_type_name(b) ==> a == b,
        commit_type_name(CommitType::Feature) == "Feature"@,
        commit_type_name(CommitType::Fix) == "Fix"@,
        commit_type_name(CommitType::Refactor) == "Refactor"@,
        commit_type_name(CommitType::Chore) == "Chore"@,
        commit_type_name(CommitType::Docs) == "Docs"@,
        commit_type_name(CommitType::Test) == "Test"@,
        commit_type_name(CommitType::Perf) == "Perf"@,
        commit_type_name(CommitType::Style) == "Style"@,
        commit_type_name(CommitType::Unknown) == "Unknown"@,
{
    reveal_strlit("Feature");
    reveal_strlit("Fix");
    reveal_strlit("Refactor");
    reveal_strlit("Chore");
    reveal_strlit("Docs");
    reveal_strlit("Test");
    reveal_strlit("Perf");
    reveal_strlit("Style");
    reveal_strlit("Unknown");
    if commit_type_name(a) == commit_type_name(b) && a != b {
        let x = commit_type_name(a);
        assert(x.len() > 0);
        match a {
            CommitType::Feature => assert(x[0] == 'F' && x.len() == 7),
            CommitType::Fix => assert(x[0] == 'F' && x.len() == 3),
            CommitType::Refactor => assert(x[0] == 'R'),
            CommitType::Chore => assert(x[0] == 'C'),
            CommitType::Docs => assert(x[0] == 'D'),
            CommitType::Test => assert(x[0] == 'T'),
            CommitType::Perf => assert(x[0] == 'P'),
            CommitType::Style => assert(x[0] == 'S'),
            CommitType::Unknown => assert(x[0] == 'U'),
        }
    }
}

/// Law: the prompt opens with the commit message, names the intent's commit
/// type on its own line, names the scope (or `(none)`), and ends with the
/// changed entities' JSON.
pub proof fn law_prompt_names_the_commit_type(intent: IntentRecord, entities_json: Seq<char>)
    ensures
        contains_seq(
            user_prompt(intent, entities_json),
            "\nCommit Type: "@ + commit_type_name(intent.commit_type) + "\nScope: "@,
        ),
        ("## DEVELOPER INTENT\nCommit Message: "@ + intent.commit_message@).is_prefix_of(
            user_prompt(intent, entities_json),
        ),
        ("\nScope: "@ + (match intent.scope {
            Some(sc) => sc@,
            None => "(none)"@,
        }) + "\n\n## CODE CHANGES\n"@ + entities_json + "\n"@).is_suffix_of(
            user_prompt(intent, entities_json),
        ),
{
    let p = user_prompt(intent, entities_json);
    let head = "## DEVELOPER INTENT\nCommit Message: "@ + intent.commit_message@;
    let needle = "\nCommit Type: "@ + commit_type_name(intent.commit_type) + "\nScope: "@;
    assert(p.subrange(head.len() as int, (head.len() + needle.len()) as int) =~= needle);
    assert(p.subrange(0, head.len() as int) =~= head);
    let tail = "\nScope: "@ + (match intent.scope {
        Some(sc) => sc@,
        None => "(none)"@,
    }) + "\n\n## CODE CHANGES\n"@ + entities_json + "\n"@;
    assert(p.subrange(p.len() - tail.len(), p.len() as int) =~= tail);
}

} // verus!
