//! The deterministic decisions of an audit: which hunks are analysed, what the
//! model is told of detected impacts, the fallback verdict's flags and
//! reasoning, and how a model's answer is unwrapped.
use vstd::prelude::*;

use std::ops::RangeInclusive;

use crate::ast::css_impact::{css_impacts, impact_views, CssImpact, CssImpactAnalyzer};
use crate::ast::symbol_index::SymbolIndex;
use crate::git::intent::IntentRecord;
use crate::scorer::prompt_builder::{build_user_prompt, user_prompt};
use crate::ast::dependency_graph::{downstream_views, DownstreamImpact};
use crate::git::diff_parser::{hunk_views, DiffHunk, HunkView, Language};
use crate::git::paths::{extension_chars, extension_or_empty, language_for_extension, language_from_extension};
use crate::scorer::assertion_record::{ConcernType, DimensionReasoning, FlaggedEntity};
use crate::text::{
    append_chars, chars_eq, contains_chars, contains_seq, decimal, decimal_string, from_chars,
    has_suffix, strip_all_prefix, strip_all_suffix, strip_prefix_repeated, strip_suffix_repeated,
    to_chars, trim, trim_chars, is_white_space, lemma_trim_start_skip, lemma_trim_end_take,
};

verus! {

broadcast use vstd::string::group_string_axioms;

/// Whether a path is left out of the analysis: Markdown files, generated
/// TypeScript and protobuf Go files, and anything under `node_modules/`,
/// `vendor/` or `__tests__/`.
pub open spec fn excluded_path(p: Seq<char>) -> bool {
    ||| ".md"@.is_suffix_of(p)
    ||| contains_seq(p, "node_modules/"@)
    ||| contains_seq(p, "vendor/"@)
    ||| contains_seq(p, "__tests__/"@)
    ||| ".generated.ts"@.is_suffix_of(p)
    ||| ".pb.go"@.is_suffix_of(p)
}

/// Whether a path is left out of the analysis.
pub fn is_excluded_path(path: &str) -> (r: bool)
    ensures
        r == excluded_path(path@),
{
    let p = to_chars(path);
    has_suffix(&p, &to_chars(".md")) || contains_chars(&p, &to_chars("node_modules/"))
        || contains_chars(&p, &to_chars("vendor/")) || contains_chars(
        &p,
        &to_chars("__tests__/"),
    ) || has_suffix(&p, &to_chars(".generated.ts")) || has_suffix(&p, &to_chars(".pb.go"))
}

/// The hunks looked at: all of them, or every third from the first when there
/// are more than a hundred.
pub open spec fn sampled_indices(n: int) -> Seq<int> {
    if n > 100 {
        Seq::new(((n + 2) / 3) as nat, |i: int| 3 * i)
    } else {
        Seq::new(n as nat, |i: int| i)
    }
}

/// Whether a hunk is analysed: its path is not excluded and its language is
/// known.
pub open spec fn analysable(h: HunkView) -> bool {
    !excluded_path(h.file_path) && h.language != Language::Unknown
}

/// The analysable hunks among `idxs`, in order.
pub open spec fn analysable_among(hs: Seq<HunkView>, idxs: Seq<int>) -> Seq<int>
    decreases idxs.len(),
{
    if idxs.len() == 0 {
        seq![]
    } else {
        analysable_among(hs, idxs.drop_last()) + if analysable(hs[idxs.last()]) {
            seq![idxs.last()]
        } else {
            seq![]
        }
    }
}

/// The hunks an entity extraction analyses (when their file exists), by index.
pub open spec fn hunks_to_analyse(hs: Seq<HunkView>) -> Seq<int> {
    analysable_among(hs, sampled_indices(hs.len() as int))
}

/// The indices of the hunks whose entities are extracted (the file must also
/// exist on disk, which the caller checks).
pub fn select_hunks(hunks: &Vec<DiffHunk>) -> (r: Vec<usize>)
    ensures
        r@.map_values(|i: usize| i as int) == hunks_to_analyse(hunk_views(hunks@)),
{
    let ghost hs = hunk_views(hunks@);
    let n = hunks.len();
    let step: usize = if n > 100 { 3 } else { 1 };
    let ghost idxs = sampled_indices(n as int);
    let mut r: Vec<usize> = Vec::new();
    let mut i: usize = 0;
    let mut k: usize = 0;
    assert(idxs.take(0) =~= Seq::<int>::empty());
    while i < n
        invariant
            n == hunks@.len(),
            hs == hunk_views(hunks@),
            idxs == sampled_indices(n as int),
            step == if n > 100 { 3usize } else { 1usize },
            i <= n,
            i < n ==> i == step * k,
            k <= idxs.len(),
            i < n ==> k < idxs.len(),
            i >= n ==> k == idxs.len(),
            r@.map_values(|j: usize| j as int) == analysable_among(hs, idxs.take(k as int)),
        decreases idxs.len() - k,
    {
        let ghost before = r@.map_values(|j: usize| j as int);
        proof {
            let t = idxs.take(k + 1);
            assert(t.drop_last() =~= idxs.take(k as int));
            assert(idxs[k as int] == i as int);
            assert(t.last() == i as int);
            assert(hs[i as int] == hunks@[i as int]@);
        }
        let h = &hunks[i];
        if !is_excluded_path(h.file_path.as_str()) && h.language != Language::Unknown {
            r.push(i);
            assert(r@.map_values(|j: usize| j as int) =~= before.push(i as int));
        } else {
            assert(before + Seq::<int>::empty() =~= before);
        }
        if n - i > step {
            i = i + step;
        } else {
            i = n;
        }
        k = k + 1;
    }
    assert(idxs.take(k as int) =~= idxs);
    r
}

/// One line of the detected-impacts section for a downstream impact.
pub open spec fn downstream_line(d: (Seq<char>, Seq<char>)) -> Seq<char> {
    "- downstream: '"@ + d.0 + "' may impact '"@ + d.1 + "'\n"@
}

/// One line of the detected-impacts section for a CSS impact.
pub open spec fn css_line(c: (Seq<char>, Seq<char>)) -> Seq<char> {
    "- css: '"@ + c.0 + "' referenced by '"@ + c.1 + "'\n"@
}

/// Lines joined.
pub open spec fn joined(ls: Seq<Seq<char>>) -> Seq<char>
    decreases ls.len(),
{
    if ls.len() == 0 {
        seq![]
    } else {
        joined(ls.drop_last()) + ls.last()
    }
}

/// At most the first twenty of a sequence.
pub open spec fn first_twenty<A>(s: Seq<A>) -> Seq<A> {
    if s.len() <= 20 {
        s
    } else {
        s.take(20)
    }
}

/// The section on detected impacts that is added to the prompt: empty when
/// there are none; else both counts, then at most twenty of each kind.
pub open spec fn impacts_section(
    downstream: Seq<(Seq<char>, Seq<char>)>,
    css: Seq<(Seq<char>, Seq<char>)>,
) -> Seq<char> {
    if downstream.len() == 0 && css.len() == 0 {
        seq![]
    } else {
        "\n## DETECTED IMPACTS\n"@ + "Downstream impacts: "@ + decimal(downstream.len())
            + " | CSS impacts: "@ + decimal(css.len()) + "\n"@ + joined(
            first_twenty(downstream).map_values(|d: (Seq<char>, Seq<char>)| downstream_line(d)),
        ) + joined(first_twenty(css).map_values(|c: (Seq<char>, Seq<char>)| css_line(c)))
    }
}

/// The section on detected impacts that is added to the prompt.
pub fn detected_impacts_section(downstream: &Vec<DownstreamImpact>, css: &Vec<CssImpact>) -> (r:
    String)
    ensures
        r@ == impacts_section(downstream_views(downstream@), impact_views(css@)),
{
    let ghost ds = downstream_views(downstream@);
    let ghost cs = impact_views(css@);
    if downstream.len() == 0 && css.len() == 0 {
        let r = String::new();
        assert(r@ =~= impacts_section(ds, cs));
        return r;
    }
    let mut p = to_chars("\n## DETECTED IMPACTS\n");
    append_chars(&mut p, &to_chars("Downstream impacts: "));
    append_chars(&mut p, &decimal_string(downstream.len()));
    append_chars(&mut p, &to_chars(" | CSS impacts: "));
    append_chars(&mut p, &decimal_string(css.len()));
    append_chars(&mut p, &to_chars("\n"));
    let ghost head = p@;
    let dn: usize = if downstream.len() <= 20 { downstream.len() } else { 20 };
    let ghost dlines = first_twenty(ds).map_values(|d: (Seq<char>, Seq<char>)| downstream_line(d));
    let mut i: usize = 0;
    assert(dlines.take(0) =~= Seq::<Seq<char>>::empty());
    assert(head + joined(dlines.take(0)) =~= head);
    while i < dn
        invariant
            dn <= downstream@.len(),
            dn == first_twenty(ds).len(),
            ds == downstream_views(downstream@),
            dlines == first_twenty(ds).map_values(|d: (Seq<char>, Seq<char>)| downstream_line(d)),
            i <= dn,
            p@ == head + joined(dlines.take(i as int)),
        decreases dn - i,
    {
        let d = &downstream[i];
        let mut line = to_chars("- downstream: '");
        append_chars(&mut line, &to_chars(d.changed_entity.as_str()));
        append_chars(&mut line, &to_chars("' may impact '"));
        append_chars(&mut line, &to_chars(d.impacted_file.as_str()));
        append_chars(&mut line, &to_chars("'\n"));
        proof {
            assert(first_twenty(ds)[i as int] == ds[i as int]);
            assert(line@ =~= dlines[i as int]);
            let t = dlines.take(i + 1);
            assert(t.drop_last() =~= dlines.take(i as int));
        }
        append_chars(&mut p, &line);
        assert(p@ =~= head + joined(dlines.take(i + 1)));
        i = i + 1;
    }
    assert(dlines.take(i as int) =~= dlines);
    let ghost mid = p@;
    let cn: usize = if css.len() <= 20 { css.len() } else { 20 };
    let ghost clines = first_twenty(cs).map_values(|c: (Seq<char>, Seq<char>)| css_line(c));
    let mut j: usize = 0;
    assert(clines.take(0) =~= Seq::<Seq<char>>::empty());
    assert(mid + joined(clines.take(0)) =~= mid);
    while j < cn
        invariant
            cn <= css@.len(),
            cn == first_twenty(cs).len(),
            cs == impact_views(css@),
            clines == first_twenty(cs).map_values(|c: (Seq<char>, Seq<char>)| css_line(c)),
            j <= cn,
            p@ == mid + joined(clines.take(j as int)),
        decreases cn - j,
    {
        let c = &css[j];
        let mut line = to_chars("- css: '");
        append_chars(&mut line, &to_chars(c.css_entity.as_str()));
        append_chars(&mut line, &to_chars("' referenced by '"));
        append_chars(&mut line, &to_chars(c.impacted_file.as_str()));
        append_chars(&mut line, &to_chars("'\n"));
        proof {
            assert(first_twenty(cs)[j as int] == cs[j as int]);
            assert(line@ =~= clines[j as int]);
            let t = clines.take(j + 1);
            assert(t.drop_last() =~= clines.take(j as int));
        }
        append_chars(&mut p, &line);
        assert(p@ =~= mid + joined(clines.take(j + 1)));
        j = j + 1;
    }
    assert(clines.take(j as int) =~= clines);
    let r = from_chars(&p);
    assert(r@ =~= impacts_section(ds, cs));
    r
}

/// Whether a hunk's file is a stylesheet (extension `css` or `scss`), whose
/// removed classes are checked for users.
pub open spec fn is_stylesheet_path(p: Seq<char>) -> bool {
    extension_or_empty(p) == "css"@ || extension_or_empty(p) == "scss"@
}

/// Whether a file is a stylesheet.
pub fn is_stylesheet(path: &str) -> (r: bool)
    ensures
        r == is_stylesheet_path(path@),
{
    let ext = extension_chars(&to_chars(path));
    chars_eq(&ext, &to_chars("css")) || chars_eq(&ext, &to_chars("scss"))
}

/// The CSS impacts of the stylesheet hunks among `hs`, hunk by hunk: for
/// each, the files that use a class one of its removed lines defines.
pub open spec fn stylesheet_impacts_of(index: SymbolIndex, hs: Seq<HunkView>) -> Seq<
    (Seq<char>, Seq<char>),
>
    decreases hs.len(),
{
    if hs.len() == 0 {
        seq![]
    } else {
        stylesheet_impacts_of(index, hs.drop_last()) + if is_stylesheet_path(hs.last().file_path) {
            css_impacts(index, hs.last().removed_lines)
        } else {
            seq![]
        }
    }
}

/// The CSS impacts of the stylesheet hunks among `hunks`, in order.
pub fn stylesheet_impacts(analyzer: &CssImpactAnalyzer, hunks: &Vec<DiffHunk>) -> (r: Vec<
    CssImpact,
>)
    ensures
        impact_views(r@) == stylesheet_impacts_of(analyzer.class_usage_index, hunk_views(hunks@)),
{
    let ghost hs = hunk_views(hunks@);
    let ghost index = analyzer.class_usage_index;
    let mut r: Vec<CssImpact> = Vec::new();
    let mut i: usize = 0;
    assert(hs.take(0) =~= Seq::<HunkView>::empty());
    while i < hunks.len()
        invariant
            i <= hunks@.len(),
            hs == hunk_views(hunks@),
            index == analyzer.class_usage_index,
            impact_views(r@) == stylesheet_impacts_of(index, hs.take(i as int)),
        decreases hunks@.len() - i,
    {
        let h = &hunks[i];
        let ghost before = impact_views(r@);
        proof {
            let t = hs.take(i + 1);
            assert(t.drop_last() =~= hs.take(i as int));
            assert(t.last() == h@);
        }
        if is_stylesheet(h.file_path.as_str()) {
            let mut found = analyzer.analyze_css_hunk(h);
            let ghost more = found@;
            r.append(&mut found);
            assert(impact_views(r@) =~= before + impact_views(more));
        } else {
            assert(before + Seq::<(Seq<char>, Seq<char>)>::empty() =~= before);
        }
        i = i + 1;
    }
    assert(hs.take(i as int) =~= hs);
    r
}

/// The prompt of an audit: the user prompt, then the section on detected
/// impacts.
pub open spec fn audit_prompt_text(
    intent: IntentRecord,
    entities_json: Seq<char>,
    downstream: Seq<(Seq<char>, Seq<char>)>,
    css: Seq<(Seq<char>, Seq<char>)>,
) -> Seq<char> {
    user_prompt(intent, entities_json) + impacts_section(downstream, css)
}

/// The prompt of an audit, from the intent, the changed entities as JSON, and
/// the detected downstream and CSS impacts.
pub fn audit_prompt(
    intent: &IntentRecord,
    entities_json: &str,
    downstream: &Vec<DownstreamImpact>,
    css: &Vec<CssImpact>,
) -> (r: String)
    ensures
        r@ == audit_prompt_text(*intent, entities_json@, downstream_views(downstream@), impact_views(css@)),
{
    let head = build_user_prompt(intent, entities_json);
    let tail = detected_impacts_section(downstream, css);
    let mut p = to_chars(head.as_str());
    append_chars(&mut p, &to_chars(tail.as_str()));
    from_chars(&p)
}

/// What came of one request to the model.
#[derive(Debug, Clone, Copy, PartialEq, Eq, Structural)]
pub enum ModelReply {
    /// An answer that parses into a verdict.
    Parsed,
    /// An answer that does not parse.
    Unparsable,
    /// No answer: the request itself failed.
    Failed,
}

/// What an audit does after a reply of the model.
#[derive(Debug, Clone, Copy, PartialEq, Eq, Structural)]
pub enum ScoringStep {
    /// Take the parsed verdict.
    UseModelVerdict,
    /// Ask the model once more.
    AskAgain,
    /// Give up on the model and use the heuristic verdict.
    UseHeuristic,
}

/// How many times the model is asked at most.
pub open spec fn max_model_attempts() -> int {
    3
}

/// The step after the reply to the `attempts`-th request.
pub open spec fn scoring_step(attempts: int, reply: ModelReply) -> ScoringStep {
    match reply {
        ModelReply::Parsed => ScoringStep::UseModelVerdict,
        ModelReply::Failed => ScoringStep::UseHeuristic,
        ModelReply::Unparsable => if attempts < max_model_attempts() {
            ScoringStep::AskAgain
        } else {
            ScoringStep::UseHeuristic
        },
    }
}

/// What an audit does after the reply to its `attempts`-th request to the
/// model: a parsed answer is taken; a failed request ends the asking; an
/// answer that does not parse is asked again, three times in all, after which
/// the heuristic verdict is used.
pub fn next_scoring_step(attempts: u32, reply: ModelReply) -> (s: ScoringStep)
    requires
        1 <= attempts <= 3,
    ensures
        s == scoring_step(attempts as int, reply),
        reply == ModelReply::Parsed ==> s == ScoringStep::UseModelVerdict,
        reply == ModelReply::Failed ==> s == ScoringStep::UseHeuristic,
        reply == ModelReply::Unparsable ==> s == (if attempts < 3 {
            ScoringStep::AskAgain
        } else {
            ScoringStep::UseHeuristic
        }),
{
    match reply {
        ModelReply::Parsed => ScoringStep::UseModelVerdict,
        ModelReply::Failed => ScoringStep::UseHeuristic,
        ModelReply::Unparsable => if attempts < 3 {
            ScoringStep::AskAgain
        } else {
            ScoringStep::UseHeuristic
        },
    }
}

/// How a run of requests ends, given the replies the model gives from the
/// `attempts`-th request on: how many requests are made, and the final step.
pub open spec fn scoring_run(attempts: int, replies: Seq<ModelReply>) -> (int, ScoringStep)
    decreases replies.len(),
{
    if replies.len() == 0 {
        (0, ScoringStep::AskAgain)
    } else if scoring_step(attempts, replies[0]) == ScoringStep::AskAgain {
        let rest = scoring_run(attempts + 1, replies.drop_first());
        (rest.0 + 1, rest.1)
    } else {
        (1, scoring_step(attempts, replies[0]))
    }
}

/// A run from the `attempts`-th request.
proof fn lemma_scoring_run(attempts: int, replies: Seq<ModelReply>)
    requires
        1 <= attempts <= max_model_attempts(),
        replies.len() >= max_model_attempts() - attempts + 1,
    ensures
        1 <= scoring_run(attempts, replies).0 <= max_model_attempts() - attempts + 1,
        scoring_run(attempts, replies).1 != ScoringStep::AskAgain,
        scoring_run(attempts, replies).1 == ScoringStep::UseModelVerdict <==> replies[
            scoring_run(attempts, replies).0 - 1] == ModelReply::Parsed,
        forall|i: int|
            0 <= i < scoring_run(attempts, replies).0 - 1 ==> #[trigger] replies[i]
                == ModelReply::Unparsable,
    decreases max_model_attempts() - attempts,
{
    if scoring_step(attempts, replies[0]) == ScoringStep::AskAgain {
        let rest = replies.drop_first();
        lemma_scoring_run(attempts + 1, rest);
        let n = scoring_run(attempts + 1, rest).0;
        assert(replies[n] == rest[n - 1]);
        assert forall|i: int| 0 <= i < n implies #[trigger] replies[i] == ModelReply::Unparsable by {
            if i > 0 {
                assert(replies[i] == rest[i - 1]);
            }
        }
    }
}

/// Law: given the replies the model would give to the first three requests,
/// it is asked at most three times; every reply before the last one made
/// failed to parse; the verdict of the model is used exactly when some reply
/// parsed (the last one asked for), and the heuristic exactly when none did.
pub proof fn law_model_asked_at_most_three_times(replies: Seq<ModelReply>)
    requires
        replies.len() >= 3,
    ensures
        1 <= scoring_run(1, replies).0 <= 3,
        forall|i: int| 0 <= i < scoring_run(1, replies).0 - 1 ==> #[trigger] replies[i]
            == ModelReply::Unparsable,
        scoring_run(1, replies).1 == ScoringStep::UseModelVerdict <==> exists|i: int|
            0 <= i < scoring_run(1, replies).0 && #[trigger] replies[i] == ModelReply::Parsed,
        scoring_run(1, replies).1 == ScoringStep::UseHeuristic <==> forall|i: int|
            0 <= i < scoring_run(1, replies).0 ==> #[trigger] replies[i] != ModelReply::Parsed,
{
    lemma_scoring_run(1, replies);
    let n = scoring_run(1, replies).0;
    if scoring_run(1, replies).1 == ScoringStep::UseModelVerdict {
        assert(replies[n - 1] == ModelReply::Parsed);
    }
}

/// The views of flagged entities.
pub open spec fn flag_views(v: Seq<FlaggedEntity>) -> Seq<(Seq<char>, ConcernType, Seq<char>)> {
    v.map_values(|f: FlaggedEntity| (f.entity_name@, f.concern, f.detail@))
}

/// The entities the fallback verdict flags: one `bulk_change` when more than
/// thirty entities changed, else none.
pub open spec fn heuristic_flag_views(entity_count: int) -> Seq<(Seq<char>, ConcernType, Seq<char>)> {
    if entity_count > 30 {
        seq![
            ("bulk_change"@, ConcernType::DisproportionateChange, "High entity count for single intent boundary."@),
        ]
    } else {
        seq![]
    }
}

/// The entities the fallback verdict flags.
pub fn heuristic_flags(entity_count: usize) -> (r: Vec<FlaggedEntity>)
    ensures
        flag_views(r@) == heuristic_flag_views(entity_count as int),
{
    let r = if entity_count > 30 {
        vec![
            FlaggedEntity {
                entity_name: String::from_str("bulk_change"),
                concern: ConcernType::DisproportionateChange,
                detail: String::from_str("High entity count for single intent boundary."),
            },
        ]
    } else {
        Vec::new()
    };
    assert(flag_views(r@) =~= heuristic_flag_views(entity_count as int));
    r
}

/// The reasoning of the fallback verdict.
pub fn heuristic_reasoning() -> (r: DimensionReasoning)
    ensures
        r.logic_match@ == "Heuristic score from entity/intent alignment."@,
        r.scope_adherence@ == "Scope based on changed file spread."@,
        r.side_effect_detection@ == "Side-effect penalty from detected patterns."@,
        r.structural_proportionality@ == "Entity count proportionality heuristic."@,
{
    DimensionReasoning {
        logic_match: String::from_str("Heuristic score from entity/intent alignment."),
        scope_adherence: String::from_str("Scope based on changed file spread."),
        side_effect_detection: String::from_str("Side-effect penalty from detected patterns."),
        structural_proportionality: String::from_str("Entity count proportionality heuristic."),
    }
}

/// The hunk that stands for a whole file when the cache is warmed: line 1
/// added as `+warm_cache`, nothing removed, text `warm`; none for an excluded
/// path or a file of unknown language.
pub fn warm_cache_hunk(path: &str) -> (r: Option<DiffHunk>)
    ensures
        r is Some <==> !excluded_path(path@) && language_for_extension(extension_or_empty(path@))
            != Language::Unknown,
        r matches Some(h) ==> h@ == warm_hunk_view(path@),
{
    if is_excluded_path(path) {
        return None;
    }
    let language = language_from_extension(&extension_chars(&to_chars(path)));
    if language == Language::Unknown {
        return None;
    }
    let added: Vec<(u32, String)> = vec![(1u32, String::from_str("+warm_cache"))];
    let h = DiffHunk {
        file_path: String::from_str(path),
        language,
        changed_lines: RangeInclusive::new(1u32, 1u32),
        added_lines: added,
        removed_lines: Vec::new(),
        raw_hunk: String::from_str("warm"),
    };
    assert(h@.added_lines =~= seq![(1int, "+warm_cache"@)]);
    assert(h@.removed_lines =~= Seq::<(int, Seq<char>)>::empty());
    Some(h)
}

/// A model's answer without the code fence it may come in: trimmed, without
/// leading `` ```json `` and `` ``` `` and trailing `` ``` ``, trimmed again.
pub open spec fn unfenced(raw: Seq<char>) -> Seq<char> {
    trim(
        strip_all_suffix(
            strip_all_prefix(strip_all_prefix(trim(raw), "```json"@), "```"@),
            "```"@,
        ),
    )
}

/// A model's answer without the code fence it may come in.
pub fn clean_llm_response(raw: &str) -> (r: String)
    ensures
        r@ == unfenced(raw@),
{
    let t = trim_chars(&to_chars(raw));
    let a = strip_prefix_repeated(&t, &to_chars("```json"));
    let b = strip_prefix_repeated(&a, &to_chars("```"));
    let c = strip_suffix_repeated(&b, &to_chars("```"));
    from_chars(&trim_chars(&c))
}

// ---------------------------------------------------------------------------
// Laws
// ---------------------------------------------------------------------------

/// What the analysable subsequence of `idxs` holds.
proof fn lemma_analysable_among(hs: Seq<HunkView>, idxs: Seq<int>)
    ensures
        forall|k: int|
            0 <= k < analysable_among(hs, idxs).len() ==> idxs.contains(
                #[trigger] analysable_among(hs, idxs)[k],
            ) && analysable(hs[analysable_among(hs, idxs)[k]]),
        (forall|a: int, b: int| 0 <= a < b < idxs.len() ==> idxs[a] < idxs[b]) ==> forall|
            k: int,
            l: int,
        |
            0 <= k < l < analysable_among(hs, idxs).len() ==> #[trigger] analysable_among(
                hs,
                idxs,
            )[k] < #[trigger] analysable_among(hs, idxs)[l],
        forall|j: int|
            0 <= j < idxs.len() && analysable(hs[#[trigger] idxs[j]]) ==> analysable_among(
                hs,
                idxs,
            ).contains(idxs[j]),
    decreases idxs.len(),
{
    if idxs.len() > 0 {
        let t = idxs.drop_last();
        lemma_analysable_among(hs, t);
        let front = analysable_among(hs, t);
        let r = analysable_among(hs, idxs);
        let last = idxs.last();
        assert forall|k: int| 0 <= k < r.len() implies idxs.contains(#[trigger] r[k]) && analysable(
            hs[r[k]],
        ) by {
            if k < front.len() {
                assert(r[k] == front[k]);
                let a = choose|a: int| 0 <= a < t.len() && t[a] == front[k];
                assert(idxs[a] == t[a]);
            } else {
                assert(r[k] == last);
                assert(idxs[idxs.len() - 1] == last);
            }
        }
        if forall|a: int, b: int| 0 <= a < b < idxs.len() ==> idxs[a] < idxs[b] {
            assert forall|a: int, b: int| 0 <= a < b < t.len() implies t[a] < t[b] by {
                assert(t[a] == idxs[a] && t[b] == idxs[b]);
            }
            assert forall|k: int, l: int| 0 <= k < l < r.len() implies #[trigger] r[k] < #[trigger] r[l] by {
                if l < front.len() {
                    assert(r[k] == front[k] && r[l] == front[l]);
                } else {
                    assert(r[k] == front[k]);
                    assert(r[l] == last);
                    let a = choose|a: int| 0 <= a < t.len() && t[a] == front[k];
                    assert(idxs[a] == t[a]);
                    assert(idxs[idxs.len() - 1] == last);
                }
            }
        }
        assert forall|j: int| 0 <= j < idxs.len() && analysable(hs[#[trigger] idxs[j]]) implies r.contains(
            idxs[j],
        ) by {
            if j < t.len() {
                assert(t[j] == idxs[j]);
                assert(front.contains(t[j]));
                let k = choose|k: int| 0 <= k < front.len() && front[k] == t[j];
                assert(r[k] == front[k]);
            } else {
                assert(idxs[j] == last);
                assert(r[r.len() - 1] == last);
            }
        }
    }
}

/// The sampled indices are increasing and each names a hunk.
proof fn lemma_sampled_indices(n: int)
    requires
        n >= 0,
    ensures
        forall|a: int, b: int|
            0 <= a < b < sampled_indices(n).len() ==> #[trigger] sampled_indices(n)[a]
                < #[trigger] sampled_indices(n)[b],
        forall|k: int|
            0 <= k < sampled_indices(n).len() ==> 0 <= #[trigger] sampled_indices(n)[k] < n,
        n <= 100 ==> forall|i: int| 0 <= i < n ==> #[trigger] sampled_indices(n)[i] == i,
        n > 100 ==> forall|k: int|
            0 <= k < sampled_indices(n).len() ==> #[trigger] sampled_indices(n)[k] % 3 == 0,
{
    if n > 100 {
        assert forall|k: int| 0 <= k < sampled_indices(n).len() implies 0 <= #[trigger] sampled_indices(
            n,
        )[k] < n by {
            assert(0 <= k < (n + 2) / 3);
            assert(3 * k < n) by (nonlinear_arith)
                requires
                    0 <= k < (n + 2) / 3,
                    n > 100,
            ;
        }
    }
}

/// The hunks an extraction analyses: each is a hunk of the diff whose path is
/// not excluded and whose language is known, in the diff's order, none twice;
/// up to a hundred hunks every such hunk is analysed, beyond that only every
/// third (counted from the first) is looked at.
pub proof fn law_selected_hunks(hs: Seq<HunkView>)
    ensures
        forall|k: int|
            0 <= k < hunks_to_analyse(hs).len() ==> 0 <= #[trigger] hunks_to_analyse(hs)[k]
                < hs.len() && analysable(hs[hunks_to_analyse(hs)[k]]),
        forall|k: int, l: int|
            0 <= k < l < hunks_to_analyse(hs).len() ==> #[trigger] hunks_to_analyse(hs)[k]
                < #[trigger] hunks_to_analyse(hs)[l],
        hs.len() <= 100 ==> forall|i: int|
            0 <= i < hs.len() && analysable(#[trigger] hs[i]) ==> hunks_to_analyse(hs).contains(i),
        hs.len() > 100 ==> forall|k: int|
            0 <= k < hunks_to_analyse(hs).len() ==> #[trigger] hunks_to_analyse(hs)[k] % 3 == 0,
        hs.len() > 100 ==> forall|i: int|
            0 <= i < hs.len() && i % 3 == 0 && analysable(#[trigger] hs[i])
                ==> hunks_to_analyse(hs).contains(i),
{
    let n = hs.len() as int;
    let idxs = sampled_indices(n);
    lemma_sampled_indices(n);
    lemma_analysable_among(hs, idxs);
    let r = hunks_to_analyse(hs);
    assert forall|k: int| 0 <= k < r.len() implies 0 <= #[trigger] r[k] < hs.len() && analysable(
        hs[r[k]],
    ) by {
        let a = choose|a: int| 0 <= a < idxs.len() && idxs[a] == r[k];
    }
    if n <= 100 {
        assert forall|i: int| 0 <= i < hs.len() && analysable(#[trigger] hs[i]) implies r.contains(i) by {
            assert(idxs[i] == i);
        }
    } else {
        assert forall|k: int| 0 <= k < r.len() implies #[trigger] r[k] % 3 == 0 by {
            let a = choose|a: int| 0 <= a < idxs.len() && idxs[a] == r[k];
        }
        assert forall|i: int| 0 <= i < hs.len() && i % 3 == 0 && analysable(#[trigger] hs[i]) implies r.contains(
            i,
        ) by {
            let q = i / 3;
            assert(3 * q == i && 0 <= q < (n + 2) / 3) by (nonlinear_arith)
                requires
                    0 <= i < n,
                    i % 3 == 0,
                    q == i / 3,
            ;
            assert(idxs[q] == i);
        }
    }
}

/// The hunk that warms the cache for a file.
pub open spec fn warm_hunk_view(path: Seq<char>) -> HunkView {
    HunkView {
        file_path: path,
        language: language_for_extension(extension_or_empty(path)),
        changed_start: 1,
        changed_end: 1,
        added_lines: seq![(1int, "+warm_cache"@)],
        removed_lines: seq![],
        raw_hunk: "warm"@,
    }
}

/// Warming never wastes a file: the hunk built for a file that is warmed is
/// itself selected for analysis, so its single added line is analysed.
pub proof fn law_warm_hunks_are_analysed(path: Seq<char>)
    requires
        !excluded_path(path),
        language_for_extension(extension_or_empty(path)) != Language::Unknown,
    ensures
        analysable(warm_hunk_view(path)),
        hunks_to_analyse(seq![warm_hunk_view(path)]) == seq![0int],
{
    let hs = seq![warm_hunk_view(path)];
    let idxs = sampled_indices(1);
    assert(idxs =~= seq![0int]);
    assert(idxs.drop_last() =~= Seq::<int>::empty());
    assert(analysable_among(hs, idxs.drop_last()) =~= Seq::<int>::empty());
    assert(idxs.last() == 0);
    assert(hs[0] == warm_hunk_view(path));
    assert(analysable_among(hs, idxs) =~= seq![0int]);
}

/// Law: the fallback verdict flags a change as disproportionate exactly when it
/// touches more than thirty entities, whatever larger: one `bulk_change` entity
/// with that concern above thirty, none up to thirty, and a larger change is
/// never flagged less than a smaller one.
pub proof fn law_bulk_flag_above_thirty(n: int, m: int)
    requires
        0 <= n <= m,
    ensures
        heuristic_flag_views(n).len() == (if n > 30 { 1int } else { 0int }),
        n > 30 ==> heuristic_flag_views(n)[0].0 == "bulk_change"@ && heuristic_flag_views(n)[0].1
            == ConcernType::DisproportionateChange,
        heuristic_flag_views(n).len() <= heuristic_flag_views(m).len(),
        n > 30 ==> heuristic_flag_views(n) == heuristic_flag_views(m),
{
}

/// A suffix of `p` stays a suffix of `d + p`.
proof fn lemma_suffix_under_prefix(x: Seq<char>, p: Seq<char>, d: Seq<char>)
    requires
        x.is_suffix_of(p),
    ensures
        x.is_suffix_of(d + p),
{
    let q = d + p;
    assert(q.subrange(q.len() - x.len(), q.len() as int) =~= p.subrange(
        p.len() - x.len(),
        p.len() as int,
    ));
}

/// A piece of `p` stays a piece of `d + p`.
proof fn lemma_contains_under_prefix(p: Seq<char>, needle: Seq<char>, d: Seq<char>)
    requires
        contains_seq(p, needle),
    ensures
        contains_seq(d + p, needle),
{
    let i = choose|i: int|
        0 <= i <= p.len() - needle.len() && #[trigger] p.subrange(i, i + needle.len()) == needle;
    let q = d + p;
    assert(q.subrange(d.len() + i, d.len() + i + needle.len()) =~= p.subrange(
        i,
        i + needle.len(),
    ));
}

/// Law: moving a path under another directory never brings it back into the
/// analysis: what is excluded stays excluded whatever is put in front of it.
pub proof fn law_exclusion_survives_a_prefix(p: Seq<char>, d: Seq<char>)
    requires
        excluded_path(p),
    ensures
        excluded_path(d + p),
{
    if ".md"@.is_suffix_of(p) {
        lemma_suffix_under_prefix(".md"@, p, d);
    } else if contains_seq(p, "node_modules/"@) {
        lemma_contains_under_prefix(p, "node_modules/"@, d);
    } else if contains_seq(p, "vendor/"@) {
        lemma_contains_under_prefix(p, "vendor/"@, d);
    } else if contains_seq(p, "__tests__/"@) {
        lemma_contains_under_prefix(p, "__tests__/"@, d);
    } else if ".generated.ts"@.is_suffix_of(p) {
        lemma_suffix_under_prefix(".generated.ts"@, p, d);
    } else {
        lemma_suffix_under_prefix(".pb.go"@, p, d);
    }
}

/// Text with no whitespace at either end is its own trim.
proof fn lemma_trim_identity(s: Seq<char>)
    requires
        s.len() == 0 || (!is_white_space(s[0]) && !is_white_space(s.last())),
    ensures
        trim(s) == s,
{
    lemma_trim_start_skip(s, 0);
    assert(s.skip(0) =~= s);
    if s.len() > 0 {
        assert(forall|i: int| s.len() <= i < s.len() ==> is_white_space(#[trigger] s[i]));
    }
    lemma_trim_end_take(s, s.len() as int);
    assert(s.take(s.len() as int) =~= s);
}

/// Law: a model's answer comes out of its code fence whole: an answer with no
/// whitespace or backtick at either end is kept as it is, and the same answer
/// inside a `` ```json `` fence, or inside a `` ``` `` fence when it does not
/// start with `j`, comes out unchanged.
pub proof fn law_fences_are_removed(x: Seq<char>)
    requires
        x.len() == 0 || (!is_white_space(x[0]) && !is_white_space(x.last()) && x[0] != '`'
            && x.last() != '`'),
    ensures
        unfenced(x) == x,
        unfenced("```json"@ + x + "```"@) == x,
        x.len() == 0 || x[0] != 'j' ==> unfenced("```"@ + x + "```"@) == x,
{
    reveal_strlit("```json");
    reveal_strlit("```");
    let j = "```json"@;
    let f = "```"@;
    // A bare answer: nothing to strip.
    lemma_trim_identity(x);
    if x.len() > 0 {
        assert(!j.is_prefix_of(x)) by {
            if j.is_prefix_of(x) {
                assert(x[0] == x.subrange(0, 7)[0]);
            }
        }
        assert(!f.is_prefix_of(x)) by {
            if f.is_prefix_of(x) {
                assert(x[0] == x.subrange(0, 3)[0]);
            }
        }
        assert(!f.is_suffix_of(x)) by {
            if f.is_suffix_of(x) {
                assert(x.last() == x.subrange(x.len() - 3, x.len() as int)[2]);
            }
        }
    }
    assert(strip_all_prefix(x, j) == x);
    assert(strip_all_prefix(x, f) == x);
    assert(strip_all_suffix(x, f) == x);
    // The tail of a fenced answer: the answer and the closing fence.
    let xf = x + f;
    assert(!j.is_prefix_of(xf)) by {
        if j.is_prefix_of(xf) {
            if x.len() > 0 {
                assert(xf[0] == x[0]);
                assert(xf[0] == xf.subrange(0, 7)[0]);
            }
        }
    }
    assert(strip_all_prefix(xf, j) == xf);
    if x.len() > 0 {
        assert(!f.is_prefix_of(xf)) by {
            if f.is_prefix_of(xf) {
                assert(xf[0] == x[0]);
                assert(xf[0] == xf.subrange(0, 3)[0]);
            }
        }
        assert(strip_all_prefix(xf, f) == xf);
        assert(f.is_suffix_of(xf)) by {
            assert(xf.subrange(xf.len() - 3, xf.len() as int) =~= f);
        }
        assert(xf.take(xf.len() - 3) =~= x);
        assert(strip_all_suffix(xf, f) == x);
    } else {
        assert(xf =~= f);
        assert(f.is_prefix_of(xf)) by {
            assert(xf.subrange(0, 3) =~= f);
        }
        assert(xf.skip(3).len() == 0);
        assert(strip_all_prefix(xf.skip(3), f) == xf.skip(3));
        assert(strip_all_prefix(xf, f) =~= x);
        assert(strip_all_suffix(x, f) == x);
    }
    // Fenced with `json`.
    let a = j + x + f;
    lemma_trim_identity(a);
    assert(j.is_prefix_of(a)) by {
        assert(a.subrange(0, 7) =~= j);
    }
    assert(a.skip(7) =~= xf);
    assert(strip_all_prefix(a, j) == strip_all_prefix(xf, j));
    // Fenced without `json` (an answer starting with `j` could read as a
    // `json` fence).
    if x.len() == 0 || x[0] != 'j' {
        let b = f + x + f;
        lemma_trim_identity(b);
        assert(!j.is_prefix_of(b)) by {
            if j.is_prefix_of(b) {
                assert(b.subrange(0, 7)[3] == j[3]);
                if x.len() > 0 {
                    assert(b[3] == x[0]);
                } else {
                    assert(b.len() == 6);
                }
            }
        }
        assert(strip_all_prefix(b, j) == b);
        assert(f.is_prefix_of(b)) by {
            assert(b.subrange(0, 3) =~= f);
        }
        assert(b.skip(3) =~= xf);
        assert(strip_all_prefix(b, f) == strip_all_prefix(xf, f));
    }
}

/// A piece of `p` stays a piece of `p + e`.
proof fn lemma_contains_under_suffix(p: Seq<char>, needle: Seq<char>, e: Seq<char>)
    requires
        contains_seq(p, needle),
    ensures
        contains_seq(p + e, needle),
{
    let i = choose|i: int|
        0 <= i <= p.len() - needle.len() && #[trigger] p.subrange(i, i + needle.len()) == needle;
    assert((p + e).subrange(i, i + needle.len()) =~= p.subrange(i, i + needle.len()));
}

/// Each of the joined lines is a piece of the joined text.
proof fn lemma_joined_contains(ls: Seq<Seq<char>>)
    ensures
        forall|i: int| 0 <= i < ls.len() ==> contains_seq(joined(ls), #[trigger] ls[i]),
    decreases ls.len(),
{
    if ls.len() > 0 {
        let t = ls.drop_last();
        lemma_joined_contains(t);
        let a = joined(t);
        assert forall|i: int| 0 <= i < ls.len() implies contains_seq(joined(ls), #[trigger] ls[i]) by {
            if i < t.len() {
                assert(ls[i] == t[i]);
                lemma_contains_under_suffix(a, t[i], ls.last());
            } else {
                let j = joined(ls);
                assert(j.subrange(a.len() as int, (a.len() + ls.last().len()) as int) =~= ls.last());
            }
        }
    }
}

/// Law: the detected-impacts section is empty exactly when nothing was
/// detected; otherwise it states both counts and lists each of the first
/// twenty downstream impacts and each of the first twenty CSS impacts.
pub proof fn law_impacts_section_lists_impacts(
    downstream: Seq<(Seq<char>, Seq<char>)>,
    css: Seq<(Seq<char>, Seq<char>)>,
)
    ensures
        impacts_section(downstream, css).len() == 0 <==> downstream.len() == 0 && css.len() == 0,
        downstream.len() + css.len() > 0 ==> contains_seq(
            impacts_section(downstream, css),
            "Downstream impacts: "@ + decimal(downstream.len()) + " | CSS impacts: "@ + decimal(
                css.len(),
            ),
        ),
        forall|i: int|
            0 <= i < downstream.len() && i < 20 ==> contains_seq(
                impacts_section(downstream, css),
                downstream_line(#[trigger] downstream[i]),
            ),
        forall|i: int|
            0 <= i < css.len() && i < 20 ==> contains_seq(
                impacts_section(downstream, css),
                css_line(#[trigger] css[i]),
            ),
{
    reveal_strlit("\n## DETECTED IMPACTS\n");
    if downstream.len() + css.len() > 0 {
        let title = "\n## DETECTED IMPACTS\n"@;
        let counts = "Downstream impacts: "@ + decimal(downstream.len()) + " | CSS impacts: "@
            + decimal(css.len());
        let dl = first_twenty(downstream).map_values(|d: (Seq<char>, Seq<char>)| downstream_line(d));
        let cl = first_twenty(css).map_values(|c: (Seq<char>, Seq<char>)| css_line(c));
        let head = title + counts + "\n"@;
        let sec = impacts_section(downstream, css);
        assert(sec =~= head + joined(dl) + joined(cl));
        assert(sec.subrange(title.len() as int, (title.len() + counts.len()) as int) =~= counts);
        lemma_joined_contains(dl);
        lemma_joined_contains(cl);
        assert forall|i: int| 0 <= i < downstream.len() && i < 20 implies contains_seq(
            sec,
            downstream_line(#[trigger] downstream[i]),
        ) by {
            assert(first_twenty(downstream)[i] == downstream[i]);
            assert(dl[i] == downstream_line(downstream[i]));
            lemma_contains_under_prefix(joined(dl), dl[i], head);
            lemma_contains_under_suffix(head + joined(dl), dl[i], joined(cl));
        }
        assert forall|i: int| 0 <= i < css.len() && i < 20 implies contains_seq(
            sec,
            css_line(#[trigger] css[i]),
        ) by {
            assert(first_twenty(css)[i] == css[i]);
            assert(cl[i] == css_line(css[i]));
            lemma_contains_under_prefix(joined(cl), cl[i], head + joined(dl));
        }
    }
}

/// Law: Markdown files, generated TypeScript and protobuf Go files, and
/// anything inside a `node_modules/`, `vendor/` or `__tests__/` directory are
/// left out, wherever they stand.
pub proof fn law_excluded_paths(a: Seq<char>, b: Seq<char>)
    ensures
        excluded_path(a + ".md"@),
        excluded_path(a + ".generated.ts"@),
        excluded_path(a + ".pb.go"@),
        excluded_path(a + "node_modules/"@ + b),
        excluded_path(a + "vendor/"@ + b),
        excluded_path(a + "__tests__/"@ + b),
{
    assert forall|x: Seq<char>| #![trigger a + x] x.is_suffix_of(a + x) by {
        assert((a + x).subrange(a.len() as int, (a + x).len() as int) =~= x);
    }
    assert(".md"@.is_suffix_of(a + ".md"@));
    assert(".generated.ts"@.is_suffix_of(a + ".generated.ts"@));
    assert(".pb.go"@.is_suffix_of(a + ".pb.go"@));
    assert forall|x: Seq<char>| #![trigger a + x + b] contains_seq(a + x + b, x) by {
        assert((a + x + b).subrange(a.len() as int, (a.len() + x.len()) as int) =~= x);
    }
    assert(contains_seq(a + "node_modules/"@ + b, "node_modules/"@));
    assert(contains_seq(a + "vendor/"@ + b, "vendor/"@));
    assert(contains_seq(a + "__tests__/"@ + b, "__tests__/"@));
}

} // verus!
