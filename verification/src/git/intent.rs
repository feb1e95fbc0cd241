//! What a commit says it does: its conventional-commit type and scope, the
//! ticket it names, and who made it when.
use vstd::prelude::*;

use crate::git::diff_parser::find_first_char;
use crate::git::facade::GitFacade;
use crate::text::{
    chars_eq, lemma_find_char, strip_line_ending, contains_seq, find_char, from_chars, lemma_find_char_found, line_views, lines,
    split_lines, sub_chars, to_chars, trim, trim_chars,
};

verus! {

broadcast use vstd::string::group_string_axioms;

/// What the developer said the commit record is.
pub struct IntentRecord {
    pub commit_hash: String,
    pub commit_message: String,
    pub commit_type: CommitType,
    pub scope: Option<String>,
    pub pr_body: Option<String>,
    pub ticket_ref: Option<String>,
    pub author: String,
    /// Commit time, in seconds since the Unix epoch (UTC).
    pub timestamp: i64,
}

/// Conventional-commit type.
#[derive(Debug, Clone, Copy, PartialEq, Eq, Structural)]
pub enum CommitType {
    Feature,
    Fix,
    Refactor,
    Chore,
    Docs,
    Test,
    Perf,
    Style,
    Unknown,
}

/// Builds intent records for the commits of a repository.
pub struct IntentExtractor {
    git: GitFacade,
}

// ---------------------------------------------------------------------------
// Specification of the commit header
// ---------------------------------------------------------------------------

/// The first line of a message (empty for an empty message).
pub open spec fn first_line(m: Seq<char>) -> Seq<char> {
    if lines(m).len() > 0 {
        lines(m)[0]
    } else {
        seq![]
    }
}

/// The header of a message: its first line up to the first `:`.
pub open spec fn commit_header(m: Seq<char>) -> Seq<char> {
    let f = first_line(m);
    match find_char(f, ':') {
        Some(i) => f.take(i),
        None => f,
    }
}

/// The type word of a header: all of it before a `(`.
pub open spec fn header_kind(h: Seq<char>) -> Seq<char> {
    match find_char(h, '(') {
        Some(o) => h.take(o),
        None => h,
    }
}

/// Where the scope of a header ends: at its first `)`, or at its end.
pub open spec fn scope_end(h: Seq<char>) -> int {
    match find_char(h, ')') {
        Some(c) => c,
        None => h.len() as int,
    }
}

/// The scope of a header: what follows its first `(` up to its first `)`.
pub open spec fn header_scope(h: Seq<char>) -> Option<Seq<char>> {
    match find_char(h, '(') {
        Some(o) => Some(h.subrange(o + 1, scope_end(h))),
        None => None,
    }
}

/// Whether the header's first `)` (if any) comes after its first `(` (if any);
/// the other way round the scope cannot be cut out.
pub open spec fn scope_parens_ordered(m: Seq<char>) -> bool {
    let h = commit_header(m);
    find_char(h, '(') matches Some(o) ==> scope_end(h) > o
}

/// The commit type a type word names.
pub open spec fn commit_type_for(kind: Seq<char>) -> CommitType {
    if kind == "feat"@ {
        CommitType::Feature
    } else if kind == "fix"@ {
        CommitType::Fix
    } else if kind == "refactor"@ {
        CommitType::Refactor
    } else if kind == "chore"@ {
        CommitType::Chore
    } else if kind == "docs"@ {
        CommitType::Docs
    } else if kind == "test"@ {
        CommitType::Test
    } else if kind == "perf"@ {
        CommitType::Perf
    } else if kind == "style"@ {
        CommitType::Style
    } else {
        CommitType::Unknown
    }
}

/// The commit type a message states.
pub open spec fn commit_type_of(m: Seq<char>) -> CommitType {
    commit_type_for(header_kind(commit_header(m)))
}

/// The scope a message states.
pub open spec fn commit_scope_of(m: Seq<char>) -> Option<Seq<char>> {
    header_scope(commit_header(m))
}

/// The view of an optional string.
pub open spec fn opt_view(o: Option<String>) -> Option<Seq<char>> {
    match o {
        Some(s) => Some(s@),
        None => None,
    }
}

/// The pattern of a ticket reference: two to ten capitals, a dash and digits
/// (`ABC-123`), or `GH-` and digits (`GH-42`).
pub const TICKET_PATTERN: &'static str = "([A-Z]{2,10}-\\d+|GH-\\d+)";

/// The text of capture group 1 of the first match of `pattern` in `text`, as
/// the `regex` crate finds it; none when the pattern does not compile, nothing
/// matches, or the group takes no part in the match.
pub uninterp spec fn first_group_match(pattern: Seq<char>, text: Seq<char>) -> Option<Seq<char>>;

/// The ticket reference a message names.
pub open spec fn ticket_reference(message: Seq<char>) -> Option<Seq<char>> {
    first_group_match(TICKET_PATTERN@, message)
}

// ---------------------------------------------------------------------------
// Executable functions
// ---------------------------------------------------------------------------

/// Capture group 1 of the first match of `pattern` in `text`
/// (`regex::Regex::new`, then `Regex::captures` and `Captures::get`).
/// Trusted: the result is the one `first_group_match` names, and it is a piece
/// of the text; which piece the `regex` crate picks is not stated here.
#[verifier::external_body]
fn regex_first_group(pattern: &str, text: &str) -> (r: Option<String>)
    ensures
        opt_view(r) == first_group_match(pattern@, text@),
        r matches Some(t) ==> contains_seq(text@, t@),
{
    let re = regex::Regex::new(pattern).ok()?;
    re.captures(text).and_then(|c| c.get(1).map(|m| m.as_str().to_string()))
}

/// The ticket a message names, such as `ABC-123` or `GH-42`: the first match of
/// `TICKET_PATTERN`.
fn extract_ticket_ref(message: &str) -> (r: Option<String>)
    ensures
        opt_view(r) == ticket_reference(message@),
        r matches Some(t) ==> contains_seq(message@, t@),
{
    regex_first_group(TICKET_PATTERN, message)
}

/// The commit type a type word names.
pub fn commit_type_from_kind(kind: &[char]) -> (t: CommitType)
    ensures
        t == commit_type_for(kind@),
{
    if chars_eq(kind, &to_chars("feat")) {
        CommitType::Feature
    } else if chars_eq(kind, &to_chars("fix")) {
        CommitType::Fix
    } else if chars_eq(kind, &to_chars("refactor")) {
        CommitType::Refactor
    } else if chars_eq(kind, &to_chars("chore")) {
        CommitType::Chore
    } else if chars_eq(kind, &to_chars("docs")) {
        CommitType::Docs
    } else if chars_eq(kind, &to_chars("test")) {
        CommitType::Test
    } else if chars_eq(kind, &to_chars("perf")) {
        CommitType::Perf
    } else if chars_eq(kind, &to_chars("style")) {
        CommitType::Style
    } else {
        CommitType::Unknown
    }
}

/// The header of a message: its first line up to the first `:`.
fn header_chars(message: &str) -> (h: Vec<char>)
    ensures
        h@ == commit_header(message@),
{
    let chars = to_chars(message);
    let ls = split_lines(&chars);
    let first: Vec<char> = if ls.len() > 0 {
        let mut f: Vec<char> = Vec::new();
        crate::text::append_chars(&mut f, &ls[0]);
        assert(f@ =~= ls@[0]@);
        assert(line_views(ls@)[0] == ls@[0]@);
        f
    } else {
        Vec::new()
    };
    assert(first@ =~= first_line(message@));
    match find_first_char(&first, ':') {
        Some(i) => sub_chars(&first, 0, i),
        None => first,
    }
}

/// Whether the scope parentheses of a message's header come in order, which
/// `parse_commit_type_and_scope` needs.
pub fn scope_parens_in_order(message: &str) -> (r: bool)
    ensures
        r == scope_parens_ordered(message@),
{
    let h = header_chars(message);
    match find_first_char(&h, '(') {
        Some(o) => match find_first_char(&h, ')') {
            Some(c) => c > o,
            None => {
                proof {
                    lemma_find_char_found(h@, '(');
                }
                true
            },
        },
        None => true,
    }
}

/// The conventional-commit type and scope of a message: `type(scope): ...`
/// on its first line.
pub fn parse_commit_type_and_scope(message: &str) -> (r: (CommitType, Option<String>))
    requires
        scope_parens_ordered(message@),
    ensures
        r.0 == commit_type_of(message@),
        opt_view(r.1) == commit_scope_of(message@),
{
    let prefix = header_chars(message);
    match find_first_char(&prefix, '(') {
        Some(open) => {
            let close = match find_first_char(&prefix, ')') {
                Some(c) => c,
                None => prefix.len(),
            };
            let kind = sub_chars(&prefix, 0, open);
            assert(kind@ =~= header_kind(prefix@));
            let scope = sub_chars(&prefix, open + 1, close);
            (commit_type_from_kind(&kind), Some(from_chars(&scope)))
        },
        None => (commit_type_from_kind(&prefix), None),
    }
}

impl IntentExtractor {
    /// An extractor for the repository at `repo_root`.
    pub fn new(repo_root: String) -> (e: Self)
        ensures
            e.repo_root()@ == repo_root@,
    {
        IntentExtractor { git: GitFacade::new(repo_root) }
    }

    /// The repository this extractor reads.
    pub closed spec fn repo_root(&self) -> String {
        self.git.repo_root
    }

    /// The repository facade.
    pub fn git(&self) -> (g: &GitFacade)
        ensures
            g.repo_root@ == self.repo_root()@,
    {
        &self.git
    }

    /// The intent record of a commit, from what the repository holds of it:
    /// its id, its raw message, its author's name (when the repository has
    /// one), its time, and the pull-request text that came with it.
    pub fn extract(
        &self,
        commit_hash: String,
        raw_message: &str,
        author_name: Option<String>,
        timestamp: i64,
        pr_body: Option<String>,
    ) -> (r: IntentRecord)
        requires
            scope_parens_ordered(trim(raw_message@)),
        ensures
            r.commit_hash@ == commit_hash@,
            r.commit_message@ == trim(raw_message@),
            r.commit_type == commit_type_of(trim(raw_message@)),
            opt_view(r.scope) == commit_scope_of(trim(raw_message@)),
            opt_view(r.pr_body) == opt_view(pr_body),
            opt_view(r.ticket_ref) == ticket_reference(trim(raw_message@)),
            r.author@ == (match author_name {
                Some(a) => a@,
                None => "unknown"@,
            }),
            r.timestamp == timestamp,
    {
        let chars = to_chars(raw_message);
        let trimmed = from_chars(&trim_chars(&chars));
        let (commit_type, scope) = parse_commit_type_and_scope(trimmed.as_str());
        let ticket_ref = extract_ticket_ref(trimmed.as_str());
        let author = match author_name {
            Some(a) => a,
            None => String::from_str("unknown"),
        };
        IntentRecord {
            commit_hash,
            commit_message: trimmed,
            commit_type,
            scope,
            pr_body,
            ticket_ref,
            author,
            timestamp,
        }
    }
}

// ---------------------------------------------------------------------------
// Laws
// ---------------------------------------------------------------------------

/// Whether text can stand in a header's type word or scope.
pub open spec fn plain_header_text(t: Seq<char>) -> bool {
    forall|i: int|
        0 <= i < t.len() ==> #[trigger] t[i] != '(' && t[i] != ')' && t[i] != ':' && t[i] != '\n'
}

/// The first line of `m` reaches past position `p` when no line ends before it.
proof fn lemma_first_line_covers(m: Seq<char>, p: int)
    requires
        0 <= p < m.len(),
        forall|j: int| 0 <= j <= p ==> #[trigger] m[j] != '\n',
        m[p] != '\r',
    ensures
        p < first_line(m).len() <= m.len(),
        first_line(m) == m.take(first_line(m).len() as int),
{
    lemma_find_char_found(m, '\n');
    match find_char(m, '\n') {
        Some(i) => {
            assert(i > p);
            let seg = m.take(i);
            assert(lines(m)[0] == strip_line_ending(seg));
            if seg.len() > 0 && seg.last() == '\r' {
                assert(seg.drop_last() =~= m.take(i - 1));
            }
        },
        None => {
            assert(lines(m)[0] == m);
            assert(m.take(m.len() as int) =~= m);
        },
    }
}

/// The header of `m` is what comes before the `:` at `p`.
proof fn lemma_header_at(m: Seq<char>, p: int)
    requires
        0 <= p < m.len(),
        m[p] == ':',
        forall|j: int| 0 <= j < p ==> #[trigger] m[j] != '\n' && m[j] != ':',
    ensures
        commit_header(m) == m.take(p),
{
    lemma_first_line_covers(m, p);
    let f = first_line(m);
    let len = f.len() as int;
    assert(f == m.take(len));
    assert forall|j: int| 0 <= j < p implies #[trigger] f[j] != ':' by {
        assert(m.take(len)[j] == m[j]);
    }
    assert(m.take(len)[p] == m[p]);
    lemma_find_char(f, ':', p);
    assert(f.take(p) =~= m.take(p));
}

/// Law: a message whose first line starts `kind(scope):` states the commit type
/// that `kind` names and the scope `scope`, whatever follows; one that starts
/// `kind:` states that type and no scope.
pub proof fn law_commit_header_roundtrip(kind: Seq<char>, scope: Seq<char>, rest: Seq<char>)
    requires
        plain_header_text(kind),
        plain_header_text(scope),
    ensures
        ({
            let m = kind + seq!['('] + scope + seq![')', ':'] + rest;
            &&& scope_parens_ordered(m)
            &&& commit_type_of(m) == commit_type_for(kind)
            &&& commit_scope_of(m) == Some(scope)
        }),
        ({
            let m = kind + seq![':'] + rest;
            &&& scope_parens_ordered(m)
            &&& commit_type_of(m) == commit_type_for(kind)
            &&& commit_scope_of(m) is None
        }),
{
    let m = kind + seq!['('] + scope + seq![')', ':'] + rest;
    let k = kind.len() as int;
    let p = k + 1 + scope.len() + 1;
    assert forall|j: int| 0 <= j < p implies #[trigger] m[j] != '\n' && m[j] != ':' by {
        if j < k {
            assert(m[j] == kind[j]);
        } else if j > k && j < k + 1 + scope.len() {
            assert(m[j] == scope[j - k - 1]);
        }
    }
    assert(m[p] == ':');
    lemma_header_at(m, p);
    let h = m.take(p);
    assert forall|j: int| 0 <= j < k implies #[trigger] h[j] != '(' && h[j] != ')' by {
        assert(h[j] == kind[j]);
    }
    assert(h[k] == '(');
    lemma_find_char(h, '(', k);
    assert forall|j: int| 0 <= j < p - 1 implies #[trigger] h[j] != ')' by {
        if j < k {
            assert(h[j] == kind[j]);
        } else if j > k {
            assert(h[j] == scope[j - k - 1]);
        }
    }
    assert(h[p - 1] == ')');
    lemma_find_char(h, ')', p - 1);
    assert(h.take(k) =~= kind);
    assert(h.subrange(k + 1, p - 1) =~= scope);

    let m2 = kind + seq![':'] + rest;
    assert forall|j: int| 0 <= j < k implies #[trigger] m2[j] != '\n' && m2[j] != ':' by {
        assert(m2[j] == kind[j]);
    }
    lemma_header_at(m2, k);
    let h2 = m2.take(k);
    assert(h2 =~= kind);
    assert forall|j: int| 0 <= j < h2.len() implies #[trigger] h2[j] != '(' by {
        assert(h2[j] == kind[j]);
    }
    lemma_find_char(h2, '(', k);
}

/// Law: each conventional type word names its own commit type — `feat` a
/// feature, `fix` a fix, `refactor`, `chore`, `docs`, `test`, `perf` and
/// `style` their namesakes — and any other word names none.
pub proof fn law_commit_type_words(w: Seq<char>)
    ensures
        commit_type_for(w) == CommitType::Feature <==> w == "feat"@,
        commit_type_for(w) == CommitType::Fix <==> w == "fix"@,
        commit_type_for(w) == CommitType::Refactor <==> w == "refactor"@,
        commit_type_for(w) == CommitType::Chore <==> w == "chore"@,
        commit_type_for(w) == CommitType::Docs <==> w == "docs"@,
        commit_type_for(w) == CommitType::Test <==> w == "test"@,
        commit_type_for(w) == CommitType::Perf <==> w == "perf"@,
        commit_type_for(w) == CommitType::Style <==> w == "style"@,
{
    reveal_strlit("feat");
    reveal_strlit("fix");
    reveal_strlit("refactor");
    reveal_strlit("chore");
    reveal_strlit("docs");
    reveal_strlit("test");
    reveal_strlit("perf");
    reveal_strlit("style");
    // The words differ in their first letter, or (`feat`, `fix`) in their second.
    assert("feat"@[1] != "fix"@[1]);
    assert("feat"@[0] != "refactor"@[0] && "feat"@[0] != "chore"@[0] && "feat"@[0] != "docs"@[0]
        && "feat"@[0] != "test"@[0] && "feat"@[0] != "perf"@[0] && "feat"@[0] != "style"@[0]);
    assert("refactor"@[0] != "chore"@[0] && "refactor"@[0] != "docs"@[0] && "refactor"@[0]
        != "test"@[0] && "refactor"@[0] != "perf"@[0] && "refactor"@[0] != "style"@[0]);
    assert("chore"@[0] != "docs"@[0] && "chore"@[0] != "test"@[0] && "chore"@[0] != "perf"@[0]
        && "chore"@[0] != "style"@[0]);
    assert("docs"@[0] != "test"@[0] && "docs"@[0] != "perf"@[0] && "docs"@[0] != "style"@[0]);
    assert("test"@[0] != "perf"@[0] && "test"@[0] != "style"@[0] && "perf"@[0] != "style"@[0]);
}

} // verus!
