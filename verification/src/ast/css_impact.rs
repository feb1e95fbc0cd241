//! Which files use the CSS classes that a change removes.
use vstd::prelude::*;

use crate::ast::key_index::{add_keys, copies, occurrences};
use crate::ast::symbol_index::SymbolIndex;
use crate::ast::upwalker::string_views;
use crate::git::diff_parser::DiffHunk;
use crate::git::paths::{extension_or_empty, extension_is_one_of};
use crate::text::{
    from_chars, has_prefix, line_views, run_len, run_length, runs, split_runs, strip_all_prefix,
    in_run, is_white_space, lemma_run_len, lemma_trim_start_skip, lemma_trim_end_take,
    strip_all_suffix, sub_chars, to_chars, trim, trim_char_runs, trim_chars, RunKind,
};

verus! {

broadcast use vstd::string::group_string_axioms;

/// A file that uses a removed CSS class.
#[derive(Debug, Clone)]
pub struct CssImpact {
    pub css_entity: String,
    pub impacted_file: String,
}

/// Maps each CSS class to the files that use it.
pub struct CssImpactAnalyzer {
    pub class_usage_index: SymbolIndex,
}

/// The class a CSS line defines: after surrounding whitespace, a `.` and then
/// ASCII letters, digits, `-` and `_` (at least one).
pub open spec fn css_class_of(line: Seq<char>) -> Option<Seq<char>> {
    let t = trim(line);
    if t.len() > 0 && t[0] == '.' && run_len(t.drop_first(), RunKind::CssName) > 0 {
        Some(t.drop_first().take(run_len(t.drop_first(), RunKind::CssName)))
    } else {
        None
    }
}

/// A removed line without its diff marker: one leading `-` is dropped.
pub open spec fn without_marker(line: Seq<char>) -> Seq<char> {
    if line.len() > 0 && line[0] == '-' {
        line.drop_first()
    } else {
        line
    }
}

/// The class a removed line of a hunk defines: the class of its text once the
/// `-` that marks it as removed is dropped.
pub open spec fn removed_class(line: Seq<char>) -> Option<Seq<char>> {
    css_class_of(without_marker(line))
}

/// The impacts of the removed lines: for each removed line that defines a
/// class, every file that uses the class, in the index's order.
pub open spec fn css_impacts(index: SymbolIndex, removed: Seq<(int, Seq<char>)>) -> Seq<
    (Seq<char>, Seq<char>),
>
    decreases removed.len(),
{
    if removed.len() == 0 {
        seq![]
    } else {
        css_impacts(index, removed.drop_last()) + match removed_class(removed.last().1) {
            Some(c) => index.files(c).map_values(|f: Seq<char>| (c, f)),
            None => seq![],
        }
    }
}

/// Whether a class name is at least two bytes long in UTF-8 (`str::len() >= 2`).
pub open spec fn at_least_two_bytes(c: Seq<char>) -> bool {
    c.len() >= 2 || (c.len() == 1 && c[0] as u32 >= 0x80)
}

/// The class list of a `class="..."` or `className="..."` token, without
/// quotes at either end.
pub open spec fn class_list_of(token: Seq<char>) -> Option<Seq<char>> {
    let cls = if "class=\""@.is_prefix_of(token) {
        Some(token.skip("class=\""@.len() as int))
    } else if "className=\""@.is_prefix_of(token) {
        Some(token.skip("className=\""@.len() as int))
    } else {
        None
    };
    match cls {
        Some(c) => Some(
            strip_all_suffix(
                strip_all_prefix(
                    strip_all_suffix(strip_all_prefix(c, seq!['"']), seq!['"']),
                    seq!['\''],
                ),
                seq!['\''],
            ),
        ),
        None => None,
    }
}

/// The classes of a list that are recorded: those of at least two bytes.
pub open spec fn long_classes(words: Seq<Seq<char>>) -> Seq<Seq<char>>
    decreases words.len(),
{
    if words.len() == 0 {
        seq![]
    } else {
        long_classes(words.drop_last()) + if at_least_two_bytes(words.last()) {
            seq![words.last()]
        } else {
            seq![]
        }
    }
}

/// The classes the tokens of a source name, in order.
pub open spec fn classes_of_tokens(tokens: Seq<Seq<char>>) -> Seq<Seq<char>>
    decreases tokens.len(),
{
    if tokens.len() == 0 {
        seq![]
    } else {
        classes_of_tokens(tokens.drop_last()) + match class_list_of(tokens.last()) {
            Some(l) => long_classes(runs(l, RunKind::NonWhitespace)),
            None => seq![],
        }
    }
}

/// The classes a source file uses, in order: from each whitespace-separated
/// `class="..."` or `className="..."` token.
pub open spec fn css_classes_used(source: Seq<char>) -> Seq<Seq<char>> {
    classes_of_tokens(runs(source, RunKind::NonWhitespace))
}

/// The file kinds whose class usage is indexed.
pub open spec fn css_index_extensions() -> Seq<Seq<char>> {
    seq!["ts"@, "tsx"@, "js"@, "jsx"@, "html"@, "css"@, "scss"@]
}

/// The class a CSS line defines, such as `btn-primary` in `.btn-primary {`.
pub fn extract_css_class(line: &str) -> (r: Option<String>)
    ensures
        match r {
            Some(c) => css_class_of(line@) == Some(c@),
            None => css_class_of(line@) is None,
        },
{
    let t = trim_chars(&to_chars(line));
    if t.len() > 0 && t[0] == '.' {
        let rest = sub_chars(&t, 1, t.len());
        assert(rest@ =~= t@.drop_first());
        let n = run_length(&rest, RunKind::CssName);
        if n > 0 {
            let name = sub_chars(&rest, 0, n);
            assert(name@ =~= rest@.take(n as int));
            return Some(from_chars(&name));
        }
    }
    None
}

/// The classes recorded from a class list.
fn long_class_list(list: &[char]) -> (r: Vec<Vec<char>>)
    ensures
        line_views(r@) == long_classes(runs(list@, RunKind::NonWhitespace)),
{
    let words = split_runs(list, RunKind::NonWhitespace);
    let ghost ws = line_views(words@);
    let mut r: Vec<Vec<char>> = Vec::new();
    let mut i: usize = 0;
    assert(ws.take(0) =~= Seq::<Seq<char>>::empty());
    while i < words.len()
        invariant
            i <= words@.len(),
            ws == line_views(words@),
            line_views(r@) == long_classes(ws.take(i as int)),
        decreases words@.len() - i,
    {
        let w = &words[i];
        let keep = w.len() >= 2 || (w.len() == 1 && w[0] as u32 >= 0x80);
        let ghost before = line_views(r@);
        proof {
            let t = ws.take(i + 1);
            assert(t.drop_last() =~= ws.take(i as int));
            assert(t.last() == w@);
        }
        if keep {
            r.push(crate::text::copy_chars(w));
            assert(line_views(r@) =~= before.push(w@));
        } else {
            assert(before + Seq::<Seq<char>>::empty() =~= before);
        }
        i = i + 1;
    }
    assert(ws.take(i as int) =~= ws);
    r
}

/// The classes a source file uses, in order.
pub fn css_classes_in(source: &str) -> (r: Vec<Vec<char>>)
    ensures
        line_views(r@) == css_classes_used(source@),
{
    let tokens = split_runs(&to_chars(source), RunKind::NonWhitespace);
    let ghost ts = line_views(tokens@);
    let mut r: Vec<Vec<char>> = Vec::new();
    let mut i: usize = 0;
    let class_eq = to_chars("class=\"");
    let class_name_eq = to_chars("className=\"");
    assert(ts.take(0) =~= Seq::<Seq<char>>::empty());
    while i < tokens.len()
        invariant
            i <= tokens@.len(),
            ts == line_views(tokens@),
            ts == runs(source@, RunKind::NonWhitespace),
            class_eq@ == "class=\""@,
            class_name_eq@ == "className=\""@,
            line_views(r@) == classes_of_tokens(ts.take(i as int)),
        decreases tokens@.len() - i,
    {
        let token = &tokens[i];
        let ghost before = line_views(r@);
        proof {
            let t = ts.take(i + 1);
            assert(t.drop_last() =~= ts.take(i as int));
            assert(t.last() == token@);
        }
        let cls: Option<Vec<char>> = if has_prefix(token, &class_eq) {
            Some(sub_chars(token, class_eq.len(), token.len()))
        } else if has_prefix(token, &class_name_eq) {
            Some(sub_chars(token, class_name_eq.len(), token.len()))
        } else {
            None
        };
        match cls {
            Some(c) => {
                let unquoted = trim_char_runs(&c, '"');
                let cleaned = trim_char_runs(&unquoted, '\'');
                proof {
                    if "class=\""@.is_prefix_of(token@) {
                        assert(c@ =~= token@.skip("class=\""@.len() as int));
                    } else {
                        assert(c@ =~= token@.skip("className=\""@.len() as int));
                    }
                    assert(class_list_of(token@) == Some(cleaned@));
                }
                let found = long_class_list(&cleaned);
                let mut j: usize = 0;
                while j < found.len()
                    invariant
                        j <= found@.len(),
                        line_views(r@) == before + line_views(found@).take(j as int),
                    decreases found@.len() - j,
                {
                    let ghost prev = r@;
                    r.push(crate::text::copy_chars(&found[j]));
                    assert(line_views(r@) =~= line_views(prev).push(found@[j as int]@));
                    assert(line_views(found@).take(j + 1) =~= line_views(found@).take(
                        j as int,
                    ).push(found@[j as int]@));
                    assert(line_views(r@) =~= before + line_views(found@).take(j + 1));
                    j = j + 1;
                }
                assert(line_views(found@).take(j as int) =~= line_views(found@));
            },
            None => {
                assert(class_list_of(token@) is None);
                assert(before + Seq::<Seq<char>>::empty() =~= before);
            },
        }
        i = i + 1;
    }
    assert(ts.take(i as int) =~= ts);
    r
}

/// The impacts of the removed lines of a hunk, up to `k` of them.
proof fn lemma_css_impacts_step(index: SymbolIndex, removed: Seq<(int, Seq<char>)>, k: int)
    requires
        0 <= k < removed.len(),
    ensures
        css_impacts(index, removed.take(k + 1)) == css_impacts(index, removed.take(k)) + match removed_class(
            removed[k].1,
        ) {
            Some(c) => index.files(c).map_values(|f: Seq<char>| (c, f)),
            None => seq![],
        },
{
    let t = removed.take(k + 1);
    assert(t.drop_last() =~= removed.take(k));
    assert(t.last() == removed[k]);
}

/// The text of a removed line without its diff marker.
fn removal_text(line: &str) -> (r: String)
    ensures
        r@ == without_marker(line@),
{
    let chars = to_chars(line);
    if chars.len() > 0 && chars[0] == '-' {
        from_chars(&sub_chars(&chars, 1, chars.len()))
    } else {
        from_chars(&chars)
    }
}

/// The views of impacts.
pub open spec fn impact_views(v: Seq<CssImpact>) -> Seq<(Seq<char>, Seq<char>)> {
    v.map_values(|i: CssImpact| (i.css_entity@, i.impacted_file@))
}

impl CssImpactAnalyzer {
    /// An analyzer that knows no class usage.
    pub fn empty() -> (a: Self)
        ensures
            forall|k: Seq<char>| !#[trigger] a.class_usage_index.has(k),
    {
        CssImpactAnalyzer { class_usage_index: SymbolIndex::new() }
    }

    /// For each class a removed line of `hunk` defines, every file that uses it.
    pub fn analyze_css_hunk(&self, hunk: &DiffHunk) -> (r: Vec<CssImpact>)
        ensures
            impact_views(r@) == css_impacts(self.class_usage_index, hunk@.removed_lines),
    {
        let ghost removed = hunk@.removed_lines;
        let mut impacts: Vec<CssImpact> = Vec::new();
        let mut i: usize = 0;
        assert(removed.take(0) =~= Seq::<(int, Seq<char>)>::empty());
        while i < hunk.removed_lines.len()
            invariant
                i <= hunk.removed_lines@.len(),
                removed == hunk@.removed_lines,
                impact_views(impacts@) == css_impacts(self.class_usage_index, removed.take(i as int)),
            decreases hunk.removed_lines@.len() - i,
        {
            let line = &hunk.removed_lines[i].1;
            proof {
                lemma_css_impacts_step(self.class_usage_index, removed, i as int);
                assert(removed[i as int].1 == line@);
            }
            let ghost before = impact_views(impacts@);
            let text = removal_text(line.as_str());
            match extract_css_class(text.as_str()) {
                Some(class_name) => match self.class_usage_index.get(class_name.as_str()) {
                    Some(files) => {
                        let ghost fs = string_views(files@);
                        let mut j: usize = 0;
                        while j < files.len()
                            invariant
                                j <= files@.len(),
                                fs == string_views(files@),
                                impact_views(impacts@) == before + fs.take(j as int).map_values(
                                    |f: Seq<char>| (class_name@, f),
                                ),
                            decreases files@.len() - j,
                        {
                            let ghost prev = impacts@;
                            let imp = CssImpact {
                                css_entity: class_name.clone(),
                                impacted_file: files[j].clone(),
                            };
                            assert(imp.impacted_file@ == fs[j as int]);
                            impacts.push(imp);
                            assert(impact_views(impacts@) =~= impact_views(prev).push(
                                (class_name@, fs[j as int]),
                            ));
                            assert(fs.take(j + 1).map_values(|f: Seq<char>| (class_name@, f))
                                =~= fs.take(j as int).map_values(
                                |f: Seq<char>| (class_name@, f),
                            ).push((class_name@, files@[j as int]@)));
                            assert(impact_views(impacts@) =~= before + fs.take(j + 1).map_values(
                                |f: Seq<char>| (class_name@, f),
                            ));
                            j = j + 1;
                        }
                        assert(fs.take(j as int) =~= fs);
                    },
                    None => {
                        assert(self.class_usage_index.files(class_name@) =~= Seq::<
                            Seq<char>,
                        >::empty());
                        assert(before + Seq::<(Seq<char>, Seq<char>)>::empty() =~= before);
                    },
                },
                None => {
                    assert(before + Seq::<(Seq<char>, Seq<char>)>::empty() =~= before);
                },
            }
            i = i + 1;
        }
        assert(removed.take(i as int) =~= removed);
        impacts
    }

    /// Whether a file's class usage is indexed: its extension is one of `ts`,
    /// `tsx`, `js`, `jsx`, `html`, `css`, `scss`.
    pub fn indexes_file(path: &str) -> (r: bool)
        ensures
            r == css_index_extensions().contains(extension_or_empty(path@)),
    {
        let exts = vec!["ts", "tsx", "js", "jsx", "html", "css", "scss"];
        let r = extension_is_one_of(&to_chars(path), &exts);
        proof {
            assert(exts@.map_values(|e: &str| e@) =~= css_index_extensions());
            if r {
                let i = choose|i: int|
                    0 <= i < exts@.len() && extension_or_empty(path@) == exts@[i]@;
                assert(css_index_extensions()[i] == exts@[i]@);
            }
            if css_index_extensions().contains(extension_or_empty(path@)) {
                let i = choose|i: int|
                    0 <= i < css_index_extensions().len() && css_index_extensions()[i]
                        == extension_or_empty(path@);
                assert(css_index_extensions()[i] == exts@[i]@);
            }
        }
        r
    }

    /// Records the classes that the file at `path`, with text `source`, uses
    /// (one file of `build_from_repo`).
    pub fn index_file(&mut self, path: &str, source: &str)
        ensures
            forall|k: Seq<char>|
                #[trigger] final(self).class_usage_index.files(k) == old(
                    self,
                ).class_usage_index.files(k) + copies(path@, occurrences(css_classes_used(source@), k)),
            forall|k: Seq<char>|
                #[trigger] final(self).class_usage_index.has(k) == (old(self).class_usage_index.has(k)
                    || css_classes_used(source@).contains(k)),
    {
        let classes = css_classes_in(source);
        add_keys(&mut self.class_usage_index, &classes, path);
    }
}

// ---------------------------------------------------------------------------
// Laws
// ---------------------------------------------------------------------------

/// Whether impact `c` comes from removed line `l`: the line, without its `-`
/// marker, defines the class,
/// and the index records the file as using it.
pub open spec fn impact_from_line(index: SymbolIndex, c: (Seq<char>, Seq<char>), l: (int, Seq<char>)) -> bool {
    &&& removed_class(l.1) == Some(c.0)
    &&& index.files(c.0).contains(c.1)
}

/// Only removals have CSS impacts: every impact names a class that a removed
/// line defines and a file the index records as using that class (so a hunk
/// that removes nothing has none).
pub proof fn law_css_impacts_come_from_removed_classes(
    index: SymbolIndex,
    removed: Seq<(int, Seq<char>)>,
)
    ensures
        removed.len() == 0 ==> css_impacts(index, removed).len() == 0,
        forall|i: int|
            #![trigger css_impacts(index, removed)[i]]
            0 <= i < css_impacts(index, removed).len() ==> exists|j: int|
                0 <= j < removed.len() && impact_from_line(
                    index,
                    css_impacts(index, removed)[i],
                    #[trigger] removed[j],
                ),
    decreases removed.len(),
{
    if removed.len() > 0 {
        let t = removed.drop_last();
        law_css_impacts_come_from_removed_classes(index, t);
        let front = css_impacts(index, t);
        assert forall|i: int| 0 <= i < css_impacts(index, removed).len() implies exists|j: int|
            0 <= j < removed.len() && impact_from_line(
                index,
                #[trigger] css_impacts(index, removed)[i],
                removed[j],
            ) by {
            let c = css_impacts(index, removed)[i];
            if i < front.len() {
                assert(c == front[i]);
                let j = choose|j: int|
                    0 <= j < t.len() && impact_from_line(index, front[i], #[trigger] t[j]);
                assert(removed[j] == t[j]);
                assert(impact_from_line(index, c, removed[j]));
            } else {
                let k = removed.len() - 1;
                assert(removed[k] == removed.last());
                let cls = removed_class(removed.last().1)->Some_0;
                let fs = index.files(cls);
                assert(removed_class(removed.last().1) is Some);
                assert(c == (cls, fs[i - front.len()]));
                assert(fs.contains(c.1));
                assert(impact_from_line(index, c, removed[k]));
            }
        }
    }
}

/// Law: a class line reads as its class: `.` then a name of ASCII letters,
/// digits, `-` and `_`, then anything that does not continue the name, gives
/// that name; the same line removed by a diff (`-` in front) gives it too.
pub proof fn law_class_lines(n: Seq<char>, rest: Seq<char>)
    requires
        n.len() > 0,
        forall|j: int| 0 <= j < n.len() ==> in_run(RunKind::CssName, #[trigger] n[j]),
        rest.len() == 0 || (!in_run(RunKind::CssName, rest[0]) && !is_white_space(rest.last())),
    ensures
        css_class_of(seq!['.'] + n + rest) == Some(n),
        removed_class(seq!['-', '.'] + n + rest) == Some(n),
{
    let line = seq!['.'] + n + rest;
    assert(!is_white_space(line[0]));
    if rest.len() > 0 {
        assert(line.last() == rest.last());
    } else {
        assert(line.last() == n.last());
        assert(in_run(RunKind::CssName, n[n.len() - 1]));
    }
    lemma_trim_start_skip(line, 0);
    assert(line.skip(0) =~= line);
    lemma_trim_end_take(line, line.len() as int);
    assert(line.take(line.len() as int) =~= line);
    assert(trim(line) == line);
    let t = line.drop_first();
    assert(t =~= n + rest);
    assert forall|j: int| 0 <= j < n.len() implies in_run(RunKind::CssName, #[trigger] t[j]) by {
        assert(t[j] == n[j]);
    }
    if rest.len() > 0 {
        assert(t[n.len() as int] == rest[0]);
    }
    lemma_run_len(t, RunKind::CssName, n.len() as int);
    assert(t.take(n.len() as int) =~= n);
    let marked = seq!['-', '.'] + n + rest;
    assert(without_marker(marked) =~= line);
}

/// Law: the class usage of TypeScript, JavaScript, HTML, CSS and SCSS files is
/// indexed, and of no other kind of file.
pub proof fn law_css_index_extensions(e: Seq<char>)
    ensures
        css_index_extensions().contains(e) <==> (e == "ts"@ || e == "tsx"@ || e == "js"@ || e
            == "jsx"@ || e == "html"@ || e == "css"@ || e == "scss"@),
{
    let x = css_index_extensions();
    assert(x[0] == "ts"@ && x[1] == "tsx"@ && x[2] == "js"@ && x[3] == "jsx"@ && x[4] == "html"@
        && x[5] == "css"@ && x[6] == "scss"@ && x.len() == 7);
}

} // verus!
