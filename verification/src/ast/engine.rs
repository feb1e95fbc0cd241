//! From the added lines of a diff to the code entities they change.
use vstd::prelude::*;

use std::ops::RangeInclusive;

use crate::ast::entity_mapper::{
    entity_views, new_entity_id, ChangeKind, EntityChange, EntityType, EntityView, SideEffect,
};
use crate::ast::languages::{typescript, Grammar};
use crate::ast::upwalker::{find_enclosing_anchor, first_anchor, is_anchor, str_views, string_views};
use crate::git::diff_parser::{hunk_views, DiffHunk, HunkView, Language};
use crate::text::{
    append_chars, contains_chars, contains_seq, from_chars, is_ascii_alnum, is_ascii_alnum_char,
    has_prefix, strip_all_prefix, to_chars, trim, trim_chars,
};

verus! {

broadcast use vstd::string::group_string_axioms;

/// Runs the entity analysis of changed files.
pub struct AstEngine;

// ---------------------------------------------------------------------------
// Line-level rules
// ---------------------------------------------------------------------------

/// The entity type a TypeScript syntax node kind stands for.
pub open spec fn entity_type_for_kind(kind: Seq<char>) -> EntityType {
    if kind == "function_declaration"@ || kind == "function_expression"@ || kind == "arrow_function"@ {
        EntityType::Function
    } else if kind == "method_definition"@ {
        EntityType::Method
    } else if kind == "class_declaration"@ {
        EntityType::Class
    } else if kind == "interface_declaration"@ {
        EntityType::Interface
    } else if kind == "type_alias_declaration"@ {
        EntityType::Type
    } else {
        EntityType::Module
    }
}

/// The side effects a changed line shows, in this order: a network call
/// (`fetch(` or `axios.`), a read of global state (`globalThis.` or `window.`),
/// an environment read (`process.env`).
pub open spec fn side_effects_of(line: Seq<char>) -> Seq<SideEffect> {
    let a: Seq<SideEffect> = if contains_seq(line, "fetch("@) || contains_seq(line, "axios."@) {
        seq![SideEffect::ExternalApiCall]
    } else {
        seq![]
    };
    let b: Seq<SideEffect> = if contains_seq(line, "globalThis."@) || contains_seq(line, "window."@) {
        a.push(SideEffect::GlobalStateRead)
    } else {
        a
    };
    if contains_seq(line, "process.env"@) {
        b.push(SideEffect::EnvVarAccess)
    } else {
        b
    }
}

/// How line `line` of a hunk changed: added when only an added line carries
/// that number, removed when only a removed line does, modified otherwise.
pub open spec fn change_kind_of(h: HunkView, line: int) -> ChangeKind {
    let has_add = exists|i: int| 0 <= i < h.added_lines.len() && h.added_lines[i].0 == line;
    let has_remove = exists|i: int| 0 <= i < h.removed_lines.len() && h.removed_lines[i].0 == line;
    if has_add && !has_remove {
        ChangeKind::Added
    } else if !has_add && has_remove {
        ChangeKind::Removed
    } else {
        ChangeKind::Modified
    }
}

/// The keywords that introduce a named entity, in the order they are tried.
pub open spec fn symbol_keywords() -> Seq<Seq<char>> {
    seq!["function "@, "class "@, "interface "@, "type "@, "fn "@, "def "@, "func "@]
}

/// A changed line without its diff markers (`+`s, then `-`s) and surrounding
/// whitespace.
pub open spec fn symbol_source(line: Seq<char>) -> Seq<char> {
    trim(strip_all_prefix(strip_all_prefix(line, seq!['+']), seq!['-']))
}

/// Whether a character can be part of an entity name.
pub open spec fn is_name_char(c: char) -> bool {
    is_ascii_alnum(c) || c == '_'
}

/// How many characters at the front of `s` can be part of a name.
pub open spec fn name_len(s: Seq<char>) -> int
    decreases s.len(),
{
    if s.len() > 0 && is_name_char(s[0]) {
        1 + name_len(s.drop_first())
    } else {
        0
    }
}

/// The name after the first of `keywords` that starts `s` and is followed by
/// at least one name character.
pub open spec fn symbol_after(s: Seq<char>, keywords: Seq<Seq<char>>) -> Option<Seq<char>>
    decreases keywords.len(),
{
    if keywords.len() == 0 {
        None
    } else {
        let kw = keywords[0];
        let rest = s.skip(kw.len() as int);
        if kw.is_prefix_of(s) && name_len(rest) > 0 {
            Some(rest.take(name_len(rest)))
        } else {
            symbol_after(s, keywords.drop_first())
        }
    }
}

/// The entity name a changed line declares, such as `hello` in
/// `+function hello() {`.
pub open spec fn symbol_name(line: Seq<char>) -> Option<Seq<char>> {
    symbol_after(symbol_source(line), symbol_keywords())
}

/// The entity type a TypeScript syntax node kind stands for.
pub fn map_node_kind_to_entity_type(kind: &str) -> (t: EntityType)
    ensures
        t == entity_type_for_kind(kind@),
{
    let k = to_chars(kind);
    if chars_eq_str(&k, "function_declaration") || chars_eq_str(&k, "function_expression")
        || chars_eq_str(&k, "arrow_function") {
        EntityType::Function
    } else if chars_eq_str(&k, "method_definition") {
        EntityType::Method
    } else if chars_eq_str(&k, "class_declaration") {
        EntityType::Class
    } else if chars_eq_str(&k, "interface_declaration") {
        EntityType::Interface
    } else if chars_eq_str(&k, "type_alias_declaration") {
        EntityType::Type
    } else {
        EntityType::Module
    }
}

/// Whether `k` holds the characters of `s`.
fn chars_eq_str(k: &[char], s: &str) -> (r: bool)
    ensures
        r == (k@ == s@),
{
    crate::text::chars_eq(k, &to_chars(s))
}

/// Whether `line` contains `s`.
fn contains_str(line: &[char], s: &str) -> (r: bool)
    ensures
        r == contains_seq(line@, s@),
{
    contains_chars(line, &to_chars(s))
}

/// The side effects a changed line shows.
pub fn detect_side_effects(line: &str) -> (v: Vec<SideEffect>)
    ensures
        v@ == side_effects_of(line@),
{
    let l = to_chars(line);
    let mut v: Vec<SideEffect> = Vec::new();
    if contains_str(&l, "fetch(") || contains_str(&l, "axios.") {
        v.push(SideEffect::ExternalApiCall);
    }
    if contains_str(&l, "globalThis.") || contains_str(&l, "window.") {
        v.push(SideEffect::GlobalStateRead);
    }
    if contains_str(&l, "process.env") {
        v.push(SideEffect::EnvVarAccess);
    }
    assert(v@ =~= side_effects_of(line@));
    v
}

/// How line `line` of `hunk` changed.
pub fn detect_change_kind(hunk: &DiffHunk, line: u32) -> (k: ChangeKind)
    ensures
        k == change_kind_of(hunk@, line as int),
{
    let mut has_add = false;
    let mut i: usize = 0;
    while i < hunk.added_lines.len()
        invariant
            i <= hunk.added_lines@.len(),
            has_add == exists|j: int| 0 <= j < i && hunk@.added_lines[j].0 == line as int,
        decreases hunk.added_lines@.len() - i,
    {
        assert(hunk@.added_lines[i as int].0 == hunk.added_lines@[i as int].0 as int);
        if hunk.added_lines[i].0 == line {
            has_add = true;
        }
        i = i + 1;
    }
    let mut has_remove = false;
    let mut i: usize = 0;
    while i < hunk.removed_lines.len()
        invariant
            i <= hunk.removed_lines@.len(),
            has_remove == exists|j: int|
                0 <= j < i && hunk@.removed_lines[j].0 == line as int,
        decreases hunk.removed_lines@.len() - i,
    {
        assert(hunk@.removed_lines[i as int].0 == hunk.removed_lines@[i as int].0 as int);
        if hunk.removed_lines[i].0 == line {
            has_remove = true;
        }
        i = i + 1;
    }
    if has_add && !has_remove {
        ChangeKind::Added
    } else if !has_add && has_remove {
        ChangeKind::Removed
    } else {
        ChangeKind::Modified
    }
}

/// The view of an optional string.
pub open spec fn opt_str_view(o: Option<String>) -> Option<Seq<char>> {
    match o {
        Some(s) => Some(s@),
        None => None,
    }
}

/// `name_len` counts the leading name characters.
proof fn lemma_name_len(s: Seq<char>, k: int)
    requires
        0 <= k <= s.len(),
        forall|i: int| 0 <= i < k ==> is_name_char(#[trigger] s[i]),
        k == s.len() || !is_name_char(s[k]),
    ensures
        name_len(s) == k,
    decreases k,
{
    if k > 0 {
        let t = s.drop_first();
        assert forall|i: int| 0 <= i < k - 1 implies is_name_char(#[trigger] t[i]) by {
            assert(t[i] == s[i + 1]);
        }
        if k < s.len() {
            assert(t[k - 1] == s[k]);
        }
        lemma_name_len(t, k - 1);
    }
}

/// The entity name a changed line declares: after its diff markers and
/// whitespace, one of `function `, `class `, `interface `, `type `, `fn `,
/// `def `, `func ` (tried in that order), then letters, digits and `_`.
pub fn extract_symbol_name(line: &str) -> (r: Option<String>)
    ensures
        opt_str_view(r) == symbol_name(line@),
{
    let chars = to_chars(line);
    let no_plus = crate::text::strip_char_prefix_run(&chars, '+');
    let no_minus = crate::text::strip_char_prefix_run(&no_plus, '-');
    let stripped = trim_chars(&no_minus);
    let keywords = vec!["function ", "class ", "interface ", "type ", "fn ", "def ", "func "];
    let ghost kws = keywords@.map_values(|k: &str| k@);
    assert(kws =~= symbol_keywords());
    let mut i: usize = 0;
    assert(kws.skip(0) =~= kws);
    while i < keywords.len()
        invariant
            i <= keywords@.len(),
            kws == keywords@.map_values(|k: &str| k@),
            stripped@ == symbol_source(line@),
            symbol_name(line@) == symbol_after(stripped@, kws.skip(i as int)),
        decreases keywords@.len() - i,
    {
        let kw = to_chars(keywords[i]);
        assert(kws.skip(i as int)[0] == kw@);
        assert(kws.skip(i as int).drop_first() =~= kws.skip(i + 1));
        if has_prefix(&stripped, &kw) {
            let rest = crate::text::sub_chars(&stripped, kw.len(), stripped.len());
            assert(rest@ =~= stripped@.skip(kw@.len() as int));
            let mut n: usize = 0;
            while n < rest.len() && (is_ascii_alnum_char(rest[n]) || rest[n] == '_')
                invariant
                    n <= rest@.len(),
                    forall|j: int| 0 <= j < n ==> is_name_char(#[trigger] rest@[j]),
                decreases rest@.len() - n,
            {
                n = n + 1;
            }
            proof {
                lemma_name_len(rest@, n as int);
            }
            if n > 0 {
                let name = crate::text::sub_chars(&rest, 0, n);
                assert(name@ =~= rest@.take(n as int));
                return Some(from_chars(&name));
            }
        }
        i = i + 1;
    }
    None
}

// ---------------------------------------------------------------------------
// Entities of a file
// ---------------------------------------------------------------------------

/// `tree_sitter::LanguageError`: a grammar built for another version of the
/// parser library.
#[verifier::external_type_specification]
#[verifier::external_body]
pub struct ExLanguageError(tree_sitter::LanguageError);

/// Why a file could not be analysed.
#[derive(Debug, Clone, Copy, PartialEq, Eq, Structural)]
pub enum AstError {
    /// The parser library refused the grammar.
    IncompatibleGrammar,
}

/// The kinds of the syntax nodes that hold the start of row `row` (counted from
/// 0) of `source` parsed in `language`: the smallest such node first, then each
/// parent up to the root; as `tree-sitter` parses it.
pub uninterp spec fn syntax_ancestry(language: Language, source: Seq<char>, row: int) -> Seq<
    Seq<char>,
>;

/// The nesting of syntax nodes at each of `rows` of `source`
/// (`Parser::parse`, then `Node::descendant_for_point_range` at column 0 and
/// `Node::parent` up to the root, keeping each `Node::kind`).
/// Trusted: the grammar is accepted, so the call succeeds (a `Grammar` is only
/// built by `Grammar::for_language`, from one of the four grammar crates, whose
/// `src/parser.c` each declare ABI version 14, and `Parser::set_language`
/// accepts versions 13 to 14); a parse with a grammar gives a tree (no timeout
/// or cancellation is set); and each result is the one `syntax_ancestry` names.
#[verifier::external_body]
fn syntax_ancestries(grammar: &Grammar, source: &str, rows: &Vec<usize>) -> (r: Result<
    Option<Vec<Vec<String>>>,
    tree_sitter::LanguageError,
>)
    ensures
        r matches Ok(Some(_)),
        r matches Ok(Some(a)) ==> a@.len() == rows@.len() && forall|i: int|
            0 <= i < rows@.len() ==> string_views(#[trigger] a@[i]@) == syntax_ancestry(
                grammar.lang(),
                source@,
                rows@[i] as int,
            ),
{
    let mut parser = tree_sitter::Parser::new();
    parser.set_language(&grammar.ts_language())?;
    let tree = match parser.parse(source, None) { Some(t) => t, None => return Ok(None) };
    let mut out = Vec::new();
    for row in rows.iter() {
        let point = tree_sitter::Point { row: *row, column: 0 };
        let mut node = tree.root_node().descendant_for_point_range(point, point);
        let mut kinds = Vec::new();
        while let Some(n) = node { kinds.push(n.kind().to_string()); node = n.parent(); }
        out.push(kinds);
    }
    Ok(Some(out))
}

/// The row (from 0) of line number `n` (from 1; 0 stays row 0).
pub open spec fn row_of_line(n: int) -> int {
    if n >= 1 {
        n - 1
    } else {
        0
    }
}

/// Each added line of the hunks, with its hunk, in order.
pub open spec fn flat_lines(hs: Seq<HunkView>) -> Seq<(HunkView, (int, Seq<char>))>
    decreases hs.len(),
{
    if hs.len() == 0 {
        seq![]
    } else {
        flat_lines(hs.drop_last()) + hs.last().added_lines.map_values(
            |l: (int, Seq<char>)| (hs.last(), l),
        )
    }
}

/// The rows the analysis of the hunks asks about.
pub open spec fn analysis_rows(hs: Seq<HunkView>) -> Seq<int> {
    flat_lines(hs).map_values(|e: (HunkView, (int, Seq<char>))| row_of_line(e.1.0))
}

/// The entity an added line changes.  For TypeScript the line's declared name
/// is used, else the enclosing anchor's kind (else `module`), and the anchor's
/// kind gives the entity type; for the other languages every entity is a
/// function named by the declared name, else by the anchor's kind (else
/// `module`), and its qualified name uses the anchor's kind.
pub open spec fn entity_for(
    path: Seq<char>,
    language: Language,
    h: HunkView,
    line: (int, Seq<char>),
    anchor: Option<Seq<char>>,
) -> EntityView {
    let declared = symbol_name(line.1);
    let anchor_name = match anchor {
        Some(k) => k,
        None => "module"@,
    };
    let name = match declared {
        Some(d) => d,
        None => anchor_name,
    };
    EntityView {
        file_path: path,
        language,
        entity_type: if language == Language::TypeScript {
            match anchor {
                Some(k) => entity_type_for_kind(k),
                None => EntityType::Module,
            }
        } else {
            EntityType::Function
        },
        entity_name: name,
        fully_qualified_name: path + "::"@ + (if language == Language::TypeScript {
            name
        } else {
            anchor_name
        }),
        change_kind: change_kind_of(h, line.0),
        changed_start: line.0,
        changed_end: line.0,
        side_effects: side_effects_of(line.1),
    }
}

/// The entities the added lines of the hunks change, given the syntax-node
/// nesting at each line (in the order of `analysis_rows`).
pub open spec fn entities_for(
    path: Seq<char>,
    language: Language,
    hs: Seq<HunkView>,
    anchors: Seq<Seq<char>>,
    ancestries: Seq<Seq<Seq<char>>>,
) -> Seq<EntityView> {
    let fl = flat_lines(hs);
    Seq::new(
        fl.len(),
        |i: int| entity_for(path, language, fl[i].0, fl[i].1, first_anchor(ancestries[i], anchors)),
    )
}

/// The entities of a file as `tree-sitter` sees it.
pub open spec fn parsed_entities(
    path: Seq<char>,
    language: Language,
    source: Seq<char>,
    hs: Seq<HunkView>,
    anchors: Seq<Seq<char>>,
) -> Seq<EntityView> {
    let rows = analysis_rows(hs);
    entities_for(
        path,
        language,
        hs,
        anchors,
        Seq::new(rows.len(), |i: int| syntax_ancestry(language, source, rows[i])),
    )
}

/// A prefix of the hunks flattens to a prefix of the flattening.
proof fn lemma_flat_prefix(hs: Seq<HunkView>, h: int)
    requires
        0 <= h <= hs.len(),
    ensures
        flat_lines(hs.take(h)).len() <= flat_lines(hs).len(),
        forall|k: int|
            0 <= k < flat_lines(hs.take(h)).len() ==> #[trigger] flat_lines(hs.take(h))[k]
                == flat_lines(hs)[k],
    decreases hs.len() - h,
{
    if h < hs.len() {
        let t = hs.drop_last();
        lemma_flat_prefix(t, h);
        assert(t.take(h) =~= hs.take(h));
        assert(hs.take(hs.len() as int) =~= hs);
    } else {
        assert(hs.take(h) =~= hs);
    }
}

/// The flattening of one more hunk.
proof fn lemma_flat_step(hs: Seq<HunkView>, h: int)
    requires
        0 <= h < hs.len(),
    ensures
        flat_lines(hs.take(h + 1)) == flat_lines(hs.take(h)) + hs[h].added_lines.map_values(
            |l: (int, Seq<char>)| (hs[h], l),
        ),
{
    let t = hs.take(h + 1);
    assert(t.drop_last() =~= hs.take(h));
    assert(t.last() == hs[h]);
}

/// The rows to analyse: for each added line, its line number less one.
fn rows_for(hunks: &Vec<DiffHunk>) -> (rows: Vec<usize>)
    ensures
        rows@.len() == analysis_rows(hunk_views(hunks@)).len(),
        forall|i: int| 0 <= i < rows@.len() ==> rows@[i] as int == #[trigger] analysis_rows(hunk_views(hunks@))[i],
{
    let ghost hs = hunk_views(hunks@);
    let mut rows: Vec<usize> = Vec::new();
    let mut h: usize = 0;
    assert(hs.take(0) =~= Seq::<HunkView>::empty());
    while h < hunks.len()
        invariant
            h <= hunks@.len(),
            hs == hunk_views(hunks@),
            rows@.len() == flat_lines(hs.take(h as int)).len(),
            forall|k: int| 0 <= k < rows@.len() ==> rows@[k] as int == row_of_line(
                #[trigger] flat_lines(hs.take(h as int))[k].1.0,
            ),
        decreases hunks@.len() - h,
    {
        let hunk = &hunks[h];
        proof {
            lemma_flat_step(hs, h as int);
        }
        let ghost before = flat_lines(hs.take(h as int));
        let ghost after = flat_lines(hs.take(h + 1));
        let mut j: usize = 0;
        while j < hunk.added_lines.len()
            invariant
                h < hunks@.len(),
                hs == hunk_views(hunks@),
                hunk == hunks@[h as int],
                j <= hunk.added_lines@.len(),
                after == before + hs[h as int].added_lines.map_values(
                    |l: (int, Seq<char>)| (hs[h as int], l),
                ),
                rows@.len() == before.len() + j,
                forall|k: int| 0 <= k < rows@.len() ==> rows@[k] as int == row_of_line(
                    #[trigger] after[k].1.0,
                ),
            decreases hunk.added_lines@.len() - j,
        {
            let n = hunk.added_lines[j].0;
            let row: usize = if n >= 1 { (n - 1) as usize } else { 0 };
            proof {
                assert(hs[h as int] == hunk@);
                assert(after[before.len() + j].1.0 == n as int);
            }
            rows.push(row);
            j = j + 1;
        }
        assert(rows@.len() == after.len());
        h = h + 1;
    }
    assert(hs.take(h as int) =~= hs);
    rows
}

/// The entities the added lines of `hunks` change, given the syntax-node
/// nesting at each added line (in the order of `analysis_rows`).
pub fn entities_from_ancestries(
    file_path: &str,
    hunks: &Vec<DiffHunk>,
    language: Language,
    ancestries: &Vec<Vec<String>>,
    anchor_kinds: &Vec<&str>,
) -> (r: Vec<EntityChange>)
    requires
        ancestries@.len() == analysis_rows(hunk_views(hunks@)).len(),
    ensures
        entity_views(r@) == entities_for(
            file_path@,
            language,
            hunk_views(hunks@),
            str_views(anchor_kinds@),
            ancestries@.map_values(|a: Vec<String>| string_views(a@)),
        ),
{
    let ghost hs = hunk_views(hunks@);
    let ghost anc = ancestries@.map_values(|a: Vec<String>| string_views(a@));
    let ghost target = entities_for(file_path@, language, hs, str_views(anchor_kinds@), anc);
    proof {
        lemma_flat_prefix(hs, hs.len() as int);
        assert(hs.take(hs.len() as int) =~= hs);
    }
    let mut out: Vec<EntityChange> = Vec::new();
    let mut idx: usize = 0;
    let mut h: usize = 0;
    assert(hs.take(0) =~= Seq::<HunkView>::empty());
    while h < hunks.len()
        invariant
            h <= hunks@.len(),
            hs == hunk_views(hunks@),
            anc == ancestries@.map_values(|a: Vec<String>| string_views(a@)),
            ancestries@.len() == flat_lines(hs).len(),
            target == entities_for(file_path@, language, hs, str_views(anchor_kinds@), anc),
            idx == flat_lines(hs.take(h as int)).len(),
            idx <= flat_lines(hs).len(),
            entity_views(out@) == target.take(idx as int),
        decreases hunks@.len() - h,
    {
        let hunk = &hunks[h];
        proof {
            lemma_flat_step(hs, h as int);
            lemma_flat_prefix(hs, h + 1);
        }
        let ghost before = flat_lines(hs.take(h as int));
        let ghost after = flat_lines(hs.take(h + 1));
        let mut j: usize = 0;
        while j < hunk.added_lines.len()
            invariant
                h < hunks@.len(),
                hs == hunk_views(hunks@),
                hunk == hunks@[h as int],
                anc == ancestries@.map_values(|a: Vec<String>| string_views(a@)),
                ancestries@.len() == flat_lines(hs).len(),
                target == entities_for(file_path@, language, hs, str_views(anchor_kinds@), anc),
                j <= hunk.added_lines@.len(),
                after == before + hs[h as int].added_lines.map_values(
                    |l: (int, Seq<char>)| (hs[h as int], l),
                ),
                after.len() <= flat_lines(hs).len(),
                forall|k: int| 0 <= k < after.len() ==> #[trigger] after[k] == flat_lines(hs)[k],
                idx == before.len() + j,
                entity_views(out@) == target.take(idx as int),
            decreases hunk.added_lines@.len() - j,
        {
            let (line, text) = (hunk.added_lines[j].0, &hunk.added_lines[j].1);
            let anchor = find_enclosing_anchor(&ancestries[idx], anchor_kinds);
            let entity = entity_of_line(file_path, hunk, language, line, text.as_str(), anchor);
            proof {
                assert(hs[h as int] == hunk@);
                assert(after[idx as int] == (hunk@, (line as int, text@)));
                assert(flat_lines(hs)[idx as int] == (hunk@, (line as int, text@)));
                assert(anc[idx as int] == string_views(ancestries@[idx as int]@));
                assert(target[idx as int] == entity@);
            }
            let ghost prev = out@;
            out.push(entity);
            proof {
                assert(entity_views(out@) =~= entity_views(prev).push(entity@));
                assert(target.take(idx + 1) =~= target.take(idx as int).push(target[idx as int]));
            }
            assert(idx < ancestries.len());
            idx = idx + 1;
            j = j + 1;
        }
        h = h + 1;
    }
    assert(hs.take(h as int) =~= hs);
    assert(target.take(idx as int) =~= target);
    out
}

/// The entity one added line changes.
fn entity_of_line(
    file_path: &str,
    hunk: &DiffHunk,
    language: Language,
    line: u32,
    text: &str,
    anchor: Option<String>,
) -> (e: EntityChange)
    ensures
        e@ == entity_for(file_path@, language, hunk@, (line as int, text@), opt_str_view(anchor)),
{
    let anchor_name = match &anchor {
        Some(k) => k.clone(),
        None => String::from_str("module"),
    };
    let entity_type = if language == Language::TypeScript {
        match &anchor {
            Some(k) => map_node_kind_to_entity_type(k.as_str()),
            None => EntityType::Module,
        }
    } else {
        EntityType::Function
    };
    let entity_name = match extract_symbol_name(text) {
        Some(d) => d,
        None => anchor_name.clone(),
    };
    let mut fq = to_chars(file_path);
    append_chars(&mut fq, &to_chars("::"));
    if language == Language::TypeScript {
        append_chars(&mut fq, &to_chars(entity_name.as_str()));
    } else {
        append_chars(&mut fq, &to_chars(anchor_name.as_str()));
    }
    let e = EntityChange {
        entity_id: new_entity_id(),
        file_path: String::from_str(file_path),
        language,
        entity_type,
        entity_name,
        fully_qualified_name: from_chars(&fq),
        change_kind: detect_change_kind(hunk, line),
        changed_lines: RangeInclusive::new(line, line),
        side_effects: detect_side_effects(text),
    };
    assert(e@.fully_qualified_name =~= entity_for(
        file_path@,
        language,
        hunk@,
        (line as int, text@),
        opt_str_view(anchor),
    ).fully_qualified_name);
    e
}

/// Analyses a file with a grammar: the entity each added line changes.
fn analyze_with_grammar(
    file_path: &str,
    source: &str,
    hunks: &Vec<DiffHunk>,
    grammar: &Grammar,
    anchor_kinds: &Vec<&str>,
) -> (r: Result<Vec<EntityChange>, AstError>)
    ensures
        r matches Ok(v) && entity_views(v@) == parsed_entities(
            file_path@,
            grammar.lang(),
            source@,
            hunk_views(hunks@),
            str_views(anchor_kinds@),
        ),
{
    let rows = rows_for(hunks);
    let ancestries = match syntax_ancestries(grammar, source, &rows) {
        Ok(Some(a)) => a,
        Ok(None) => return Ok(Vec::new()),
        Err(_) => return Err(AstError::IncompatibleGrammar),
    };
    let ghost hs = hunk_views(hunks@);
    let ghost rws = analysis_rows(hs);
    proof {
        lemma_flat_prefix(hs, hs.len() as int);
        assert(hs.take(hs.len() as int) =~= hs);
        assert(ancestries@.map_values(|a: Vec<String>| string_views(a@)) =~= Seq::new(
            rws.len(),
            |i: int| syntax_ancestry(grammar.lang(), source@, rws[i]),
        ));
    }
    Ok(entities_from_ancestries(file_path, hunks, grammar.language(), &ancestries, anchor_kinds))
}

/// The syntax node kinds that name an entity, by language.
pub open spec fn anchor_kinds_of(language: Language) -> Seq<Seq<char>> {
    match language {
        Language::TypeScript => typescript::typescript_anchor_kinds(),
        Language::Rust => seq![
            "function_item"@,
            "impl_item"@,
            "struct_item"@,
            "trait_item"@,
            "mod_item"@,
        ],
        Language::Python => seq![
            "function_definition"@,
            "class_definition"@,
            "async_function_definition"@,
        ],
        Language::Go => seq!["function_declaration"@, "method_declaration"@, "type_declaration"@],
        Language::Unknown => seq![],
    }
}

/// The syntax node kinds that name an entity, by language.
fn anchor_kinds_for(language: Language) -> (r: Vec<&'static str>)
    ensures
        str_views(r@) == anchor_kinds_of(language),
{
    let r = match language {
        Language::TypeScript => typescript::anchor_kinds(),
        Language::Rust => vec!["function_item", "impl_item", "struct_item", "trait_item", "mod_item"],
        Language::Python => vec!["function_definition", "class_definition", "async_function_definition"],
        Language::Go => vec!["function_declaration", "method_declaration", "type_declaration"],
        Language::Unknown => Vec::new(),
    };
    assert(str_views(r@) =~= anchor_kinds_of(language));
    r
}

impl AstEngine {
    /// The entities the added lines of `hunks` change in `source`, the text of
    /// the file at `file_path`; a file of unknown language has none.
    pub fn analyze_file(
        file_path: &str,
        source: &str,
        hunks: &Vec<DiffHunk>,
        language: Language,
    ) -> (r: Result<Vec<EntityChange>, AstError>)
        ensures
            language == Language::Unknown ==> (r matches Ok(v) && v@.len() == 0),
            language != Language::Unknown ==> (r matches Ok(v) && entity_views(v@)
                == parsed_entities(
                file_path@,
                language,
                source@,
                hunk_views(hunks@),
                anchor_kinds_of(language),
            )),
    {
        match language {
            Language::TypeScript => Self::analyze_typescript_file(file_path, source, hunks),
            Language::Unknown => Ok(Vec::new()),
            _ => Self::analyze_with_language(file_path, source, hunks, language),
        }
    }

    /// The entities the added lines of `hunks` change in a TypeScript file.
    pub fn analyze_typescript_file(file_path: &str, source: &str, hunks: &Vec<DiffHunk>) -> (r:
        Result<Vec<EntityChange>, AstError>)
        ensures
            r matches Ok(v) && entity_views(v@) == parsed_entities(
                file_path@,
                Language::TypeScript,
                source@,
                hunk_views(hunks@),
                anchor_kinds_of(Language::TypeScript),
            ),
    {
        let grammar = Grammar::for_language(Language::TypeScript).unwrap();
        let anchors = anchor_kinds_for(Language::TypeScript);
        analyze_with_grammar(file_path, source, hunks, &grammar, &anchors)
    }

    /// The entities the added lines of `hunks` change in a file of another
    /// language.
    fn analyze_with_language(
        file_path: &str,
        source: &str,
        hunks: &Vec<DiffHunk>,
        language: Language,
    ) -> (r: Result<Vec<EntityChange>, AstError>)
        requires
            language != Language::Unknown,
        ensures
            r matches Ok(v) && entity_views(v@) == parsed_entities(
                file_path@,
                language,
                source@,
                hunk_views(hunks@),
                anchor_kinds_of(language),
            ),
    {
        let grammar = Grammar::for_language(language).unwrap();
        let anchors = anchor_kinds_for(language);
        analyze_with_grammar(file_path, source, hunks, &grammar, &anchors)
    }
}

// ---------------------------------------------------------------------------
// Laws
// ---------------------------------------------------------------------------

/// Each flattened line is an added line of the hunk it is paired with.
proof fn lemma_flat_line_in_hunk(hs: Seq<HunkView>, k: int)
    requires
        0 <= k < flat_lines(hs).len(),
    ensures
        exists|i: int|
            0 <= i < flat_lines(hs)[k].0.added_lines.len() && flat_lines(hs)[k].0.added_lines[i]
                == flat_lines(hs)[k].1,
    decreases hs.len(),
{
    let t = hs.drop_last();
    let front = flat_lines(t);
    if k < front.len() {
        lemma_flat_line_in_hunk(t, k);
    } else {
        let i = k - front.len();
        assert(flat_lines(hs)[k] == (hs.last(), hs.last().added_lines[i]));
    }
}

/// One entity per added line: the analysis of a file yields, for the `k`-th
/// added line of its hunks (in order), an entity in that file, located on
/// exactly that line, with the side effects the line shows, and whose change
/// kind is never `Removed`, since an added line carries its number.
pub proof fn law_one_entity_per_added_line(
    path: Seq<char>,
    language: Language,
    hs: Seq<HunkView>,
    anchors: Seq<Seq<char>>,
    ancestries: Seq<Seq<Seq<char>>>,
)
    ensures
        entities_for(path, language, hs, anchors, ancestries).len() == flat_lines(hs).len(),
        forall|k: int|
            0 <= k < flat_lines(hs).len() ==> {
                let e = #[trigger] entities_for(path, language, hs, anchors, ancestries)[k];
                let l = flat_lines(hs)[k].1;
                &&& e.file_path == path
                &&& e.language == language
                &&& e.changed_start == l.0
                &&& e.changed_end == l.0
                &&& e.side_effects == side_effects_of(l.1)
                &&& e.change_kind != ChangeKind::Removed
            },
{
    assert forall|k: int| 0 <= k < flat_lines(hs).len() implies #[trigger] entities_for(
        path,
        language,
        hs,
        anchors,
        ancestries,
    )[k].change_kind != ChangeKind::Removed by {
        lemma_flat_line_in_hunk(hs, k);
    }
}

/// Law: the syntax nodes that name an entity are, for Rust, functions, impl
/// blocks, structs, traits and modules; for Python, functions, classes and
/// async functions; for Go, functions, methods and type declarations; for
/// TypeScript, function declarations and expressions, arrow functions,
/// methods, classes, interfaces and type aliases; and none for an unknown
/// language.
pub proof fn law_anchor_kinds(k: Seq<char>)
    ensures
        is_anchor(k, anchor_kinds_of(Language::Rust)) <==> (k == "function_item"@ || k
            == "impl_item"@ || k == "struct_item"@ || k == "trait_item"@ || k == "mod_item"@),
        is_anchor(k, anchor_kinds_of(Language::Python)) <==> (k == "function_definition"@ || k
            == "class_definition"@ || k == "async_function_definition"@),
        is_anchor(k, anchor_kinds_of(Language::Go)) <==> (k == "function_declaration"@ || k
            == "method_declaration"@ || k == "type_declaration"@),
        is_anchor(k, anchor_kinds_of(Language::TypeScript)) <==> (k == "function_declaration"@
            || k == "function_expression"@ || k == "arrow_function"@ || k == "method_definition"@
            || k == "class_declaration"@ || k == "interface_declaration"@ || k
            == "type_alias_declaration"@),
        !is_anchor(k, anchor_kinds_of(Language::Unknown)),
{
    let r = anchor_kinds_of(Language::Rust);
    let p = anchor_kinds_of(Language::Python);
    let g = anchor_kinds_of(Language::Go);
    let t = anchor_kinds_of(Language::TypeScript);
    assert(r[0] == "function_item"@ && r[1] == "impl_item"@ && r[2] == "struct_item"@ && r[3]
        == "trait_item"@ && r[4] == "mod_item"@ && r.len() == 5);
    assert(p[0] == "function_definition"@ && p[1] == "class_definition"@ && p[2]
        == "async_function_definition"@ && p.len() == 3);
    assert(g[0] == "function_declaration"@ && g[1] == "method_declaration"@ && g[2]
        == "type_declaration"@ && g.len() == 3);
    assert(t[0] == "function_declaration"@ && t[1] == "function_expression"@ && t[2]
        == "arrow_function"@ && t[3] == "method_definition"@ && t[4] == "class_declaration"@
        && t[5] == "interface_declaration"@ && t[6] == "type_alias_declaration"@ && t.len() == 7);
}

/// Law: the anchor of a line is its nearest enclosing node that names an
/// entity: when `ancestry[k]` is an anchor kind and no node below it is, that
/// node is the anchor.
pub proof fn law_nearest_anchor(ancestry: Seq<Seq<char>>, anchors: Seq<Seq<char>>, k: int)
    requires
        0 <= k < ancestry.len(),
        is_anchor(ancestry[k], anchors),
        forall|j: int| 0 <= j < k ==> !is_anchor(#[trigger] ancestry[j], anchors),
    ensures
        first_anchor(ancestry, anchors) == Some(ancestry[k]),
    decreases k,
{
    if k > 0 {
        let rest = ancestry.drop_first();
        assert(!is_anchor(ancestry[0], anchors));
        assert forall|j: int| 0 <= j < k - 1 implies !is_anchor(#[trigger] rest[j], anchors) by {
            assert(rest[j] == ancestry[j + 1]);
        }
        assert(rest[k - 1] == ancestry[k]);
        law_nearest_anchor(rest, anchors, k - 1);
    }
}

/// Law: outside TypeScript, a changed line that declares no name is attributed
/// to its nearest enclosing anchor: the entity is a function named by that
/// node's kind, and its qualified name is the file's path, `::` and that kind.
pub proof fn law_undeclared_line_takes_its_anchor(
    path: Seq<char>,
    language: Language,
    h: HunkView,
    line: (int, Seq<char>),
    ancestry: Seq<Seq<char>>,
    k: int,
)
    requires
        language != Language::TypeScript,
        symbol_name(line.1) is None,
        0 <= k < ancestry.len(),
        is_anchor(ancestry[k], anchor_kinds_of(language)),
        forall|j: int| 0 <= j < k ==> !is_anchor(#[trigger] ancestry[j], anchor_kinds_of(language)),
    ensures
        ({
            let e = entity_for(
                path,
                language,
                h,
                line,
                first_anchor(ancestry, anchor_kinds_of(language)),
            );
            &&& e.entity_name == ancestry[k]
            &&& e.fully_qualified_name == path + "::"@ + ancestry[k]
            &&& e.entity_type == EntityType::Function
        }),
{
    law_nearest_anchor(ancestry, anchor_kinds_of(language), k);
}

/// Law: a changed line shows a network call exactly when it holds `fetch(` or
/// `axios.`, a read of global state exactly when it holds `globalThis.` or
/// `window.`, and an environment read exactly when it holds `process.env`;
/// each effect is reported once, network call first and environment read last.
pub proof fn law_side_effects(line: Seq<char>)
    ensures
        side_effects_of(line).contains(SideEffect::ExternalApiCall) <==> (contains_seq(
            line,
            "fetch("@,
        ) || contains_seq(line, "axios."@)),
        side_effects_of(line).contains(SideEffect::GlobalStateRead) <==> (contains_seq(
            line,
            "globalThis."@,
        ) || contains_seq(line, "window."@)),
        side_effects_of(line).contains(SideEffect::EnvVarAccess) <==> contains_seq(
            line,
            "process.env"@,
        ),
        forall|i: int, j: int|
            0 <= i < j < side_effects_of(line).len() ==> side_effects_of(line)[i]
                != side_effects_of(line)[j],
        side_effects_of(line).len() > 0 && side_effects_of(line)[0] != SideEffect::ExternalApiCall
            ==> !side_effects_of(line).contains(SideEffect::ExternalApiCall),
        side_effects_of(line).len() > 0 && side_effects_of(line).last() != SideEffect::EnvVarAccess
            ==> !side_effects_of(line).contains(SideEffect::EnvVarAccess),
{
    let s = side_effects_of(line);
    if s.contains(SideEffect::ExternalApiCall) {
        let i = choose|i: int| 0 <= i < s.len() && s[i] == SideEffect::ExternalApiCall;
    }
    if s.contains(SideEffect::GlobalStateRead) {
        let i = choose|i: int| 0 <= i < s.len() && s[i] == SideEffect::GlobalStateRead;
    }
    if s.contains(SideEffect::EnvVarAccess) {
        let i = choose|i: int| 0 <= i < s.len() && s[i] == SideEffect::EnvVarAccess;
    }
    if contains_seq(line, "fetch("@) || contains_seq(line, "axios."@) {
        assert(s[0] == SideEffect::ExternalApiCall);
    }
    if contains_seq(line, "globalThis."@) || contains_seq(line, "window."@) {
        let a: Seq<SideEffect> = if contains_seq(line, "fetch("@) || contains_seq(line, "axios."@) {
            seq![SideEffect::ExternalApiCall]
        } else {
            seq![]
        };
        assert(s[a.len() as int] == SideEffect::GlobalStateRead);
    }
    if contains_seq(line, "process.env"@) {
        assert(s[s.len() - 1] == SideEffect::EnvVarAccess);
    }
}

/// What `name_len` counts: the leading name characters, and no more.
proof fn lemma_name_len_props(s: Seq<char>)
    ensures
        0 <= name_len(s) <= s.len(),
        forall|j: int| 0 <= j < name_len(s) ==> is_name_char(#[trigger] s[j]),
        name_len(s) < s.len() ==> !is_name_char(s[name_len(s)]),
    decreases s.len(),
{
    if s.len() > 0 && is_name_char(s[0]) {
        let t = s.drop_first();
        lemma_name_len_props(t);
        assert forall|j: int| 0 <= j < name_len(s) implies is_name_char(#[trigger] s[j]) by {
            if j > 0 {
                assert(s[j] == t[j - 1]);
            }
        }
        if name_len(s) < s.len() {
            assert(s[name_len(s)] == t[name_len(t)]);
        }
    }
}

/// Whether `n` is a whole name: non-empty, of name characters, and not
/// followed by one in `s` after `at`.
pub open spec fn whole_name_at(s: Seq<char>, at: int, n: Seq<char>) -> bool {
    &&& n.len() > 0
    &&& forall|j: int| 0 <= j < n.len() ==> is_name_char(#[trigger] n[j])
    &&& at + n.len() <= s.len()
    &&& s.subrange(at, at + n.len()) == n
    &&& (at + n.len() == s.len() || !is_name_char(s[at + n.len()]))
}

/// What `symbol_after` finds: a keyword of the list at the front, then a whole
/// name.
proof fn lemma_symbol_after_sound(s: Seq<char>, kws: Seq<Seq<char>>)
    ensures
        symbol_after(s, kws) matches Some(n) ==> exists|i: int|
            0 <= i < kws.len() && #[trigger] kws[i].is_prefix_of(s) && whole_name_at(
                s,
                kws[i].len() as int,
                n,
            ),
    decreases kws.len(),
{
    if kws.len() > 0 {
        let kw = kws[0];
        let rest = s.skip(kw.len() as int);
        if kw.is_prefix_of(s) && name_len(rest) > 0 {
            lemma_name_len_props(rest);
            let n = rest.take(name_len(rest));
            assert(s.subrange(kw.len() as int, (kw.len() + n.len()) as int) =~= n);
            if kw.len() + n.len() < s.len() {
                assert(s[(kw.len() + n.len()) as int] == rest[name_len(rest)]);
            }
            assert(whole_name_at(s, kw.len() as int, n));
        } else {
            lemma_symbol_after_sound(s, kws.drop_first());
            if let Some(n) = symbol_after(s, kws) {
                let i = choose|i: int|
                    0 <= i < kws.drop_first().len() && #[trigger] kws.drop_first()[i].is_prefix_of(
                        s,
                    ) && whole_name_at(s, kws.drop_first()[i].len() as int, n);
                assert(kws[i + 1] == kws.drop_first()[i]);
            }
        }
    }
}

/// `symbol_after` takes the first keyword at the front of `s` that a whole
/// name follows.
proof fn lemma_symbol_after_first(s: Seq<char>, kws: Seq<Seq<char>>, i: int, n: Seq<char>)
    requires
        0 <= i < kws.len(),
        kws[i].is_prefix_of(s),
        whole_name_at(s, kws[i].len() as int, n),
        forall|j: int| 0 <= j < i ==> !(#[trigger] kws[j]).is_prefix_of(s),
    ensures
        symbol_after(s, kws) == Some(n),
    decreases i,
{
    if i == 0 {
        let rest = s.skip(kws[0].len() as int);
        assert forall|j: int| 0 <= j < n.len() implies is_name_char(#[trigger] rest[j]) by {
            assert(rest[j] == s.subrange(kws[0].len() as int, (kws[0].len() + n.len()) as int)[j]);
        }
        if n.len() < rest.len() {
            assert(rest[n.len() as int] == s[(kws[0].len() + n.len()) as int]);
        }
        lemma_name_len(rest, n.len() as int);
        assert(rest.take(n.len() as int) =~= n);
    } else {
        let t = kws.drop_first();
        assert forall|j: int| 0 <= j < i - 1 implies !(#[trigger] t[j]).is_prefix_of(s) by {
            assert(t[j] == kws[j + 1]);
        }
        assert(!kws[0].is_prefix_of(s));
        lemma_symbol_after_first(s, t, i - 1, n);
    }
}

/// Law: the name a changed line declares is a whole name that directly
/// follows one of the entity keywords at the front of the line's text.
pub proof fn law_declared_name_follows_a_keyword(line: Seq<char>)
    ensures
        symbol_name(line) matches Some(n) ==> exists|i: int|
            0 <= i < symbol_keywords().len() && #[trigger] symbol_keywords()[i].is_prefix_of(
                symbol_source(line),
            ) && whole_name_at(symbol_source(line), symbol_keywords()[i].len() as int, n),
{
    lemma_symbol_after_sound(symbol_source(line), symbol_keywords());
}

/// Law: each of `function `, `class `, `interface `, `type `, `fn `, `def `
/// and `func ` declares the whole name that follows it.
pub proof fn law_each_keyword_declares_a_name(kw: Seq<char>, n: Seq<char>, rest: Seq<char>)
    requires
        kw == "function "@ || kw == "class "@ || kw == "interface "@ || kw == "type "@ || kw
            == "fn "@ || kw == "def "@ || kw == "func "@,
        n.len() > 0,
        forall|j: int| 0 <= j < n.len() ==> is_name_char(#[trigger] n[j]),
        rest.len() == 0 || !is_name_char(rest[0]),
    ensures
        symbol_after(kw + n + rest, symbol_keywords()) == Some(n),
{
    reveal_strlit("function ");
    reveal_strlit("class ");
    reveal_strlit("interface ");
    reveal_strlit("type ");
    reveal_strlit("fn ");
    reveal_strlit("def ");
    reveal_strlit("func ");
    let s = kw + n + rest;
    let kws = symbol_keywords();
    assert(kw.is_prefix_of(s)) by {
        assert(s.subrange(0, kw.len() as int) =~= kw);
    }
    assert(whole_name_at(s, kw.len() as int, n)) by {
        assert(s.subrange(kw.len() as int, (kw.len() + n.len()) as int) =~= n);
        if rest.len() > 0 {
            assert(s[(kw.len() + n.len()) as int] == rest[0]);
        }
    }
    // Two different keywords differ at a position inside both, so no other
    // keyword is at the front of `s`.
    assert(s[0] == kw[0]);
    assert(kw.len() >= 3 ==> s[1] == kw[1]);
    assert(kw.len() >= 5 ==> s[4] == kw[4]);
    let i: int = if kw == "function "@ {
        0
    } else if kw == "class "@ {
        1
    } else if kw == "interface "@ {
        2
    } else if kw == "type "@ {
        3
    } else if kw == "fn "@ {
        4
    } else if kw == "def "@ {
        5
    } else {
        6
    };
    assert(kws[i] == kw);
    assert forall|j: int| 0 <= j < i implies !(#[trigger] kws[j]).is_prefix_of(s) by {
        if kws[j].is_prefix_of(s) {
            assert(kws[j][0] == s.subrange(0, kws[j].len() as int)[0]);
            assert(kws[j][1] == s.subrange(0, kws[j].len() as int)[1]);
            if kws[j].len() >= 5 {
                assert(kws[j][4] == s.subrange(0, kws[j].len() as int)[4]);
            }
        }
    }
    lemma_symbol_after_first(s, kws, i, n);
}

} // verus!
