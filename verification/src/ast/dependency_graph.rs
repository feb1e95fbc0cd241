//! Which files import the names of changed entities.
use vstd::prelude::*;

use crate::ast::entity_mapper::EntityChange;
use crate::ast::key_index::{add_keys, copies, occurrences};
use crate::ast::symbol_index::SymbolIndex;
use crate::ast::upwalker::string_views;
use crate::git::paths::{extension_is_one_of, extension_or_empty, same_path, same_path_as};
use crate::text::{
    has_prefix, is_ascii_alpha, is_ascii_alpha_char, line_views, lines, runs,
    split_lines, split_runs, to_chars, trim, trim_chars, RunKind,
};

verus! {

broadcast use vstd::string::group_string_axioms;

/// A file that may be affected by a changed entity.
#[derive(Debug, Clone)]
pub struct DownstreamImpact {
    pub changed_entity: String,
    pub impacted_file: String,
}

/// Maps each imported name to the files whose import lines mention it.
pub struct DependencyGraph {
    pub symbol_references: SymbolIndex,
}

/// Whether a (trimmed) line is an import line: it starts with `import `,
/// `use ` or `from `.
pub open spec fn is_import_line(t: Seq<char>) -> bool {
    "import "@.is_prefix_of(t) || "use "@.is_prefix_of(t) || "from "@.is_prefix_of(t)
}

/// The names an import line mentions: its runs of ASCII letters, digits and
/// `_` that are at least three long and start with a letter.
pub open spec fn symbols_of_words(words: Seq<Seq<char>>) -> Seq<Seq<char>>
    decreases words.len(),
{
    if words.len() == 0 {
        seq![]
    } else {
        symbols_of_words(words.drop_last()) + if words.last().len() >= 3 && is_ascii_alpha(
            words.last()[0],
        ) {
            seq![words.last()]
        } else {
            seq![]
        }
    }
}

/// The names the import lines among `ls` mention, in order.
pub open spec fn symbols_of_lines(ls: Seq<Seq<char>>) -> Seq<Seq<char>>
    decreases ls.len(),
{
    if ls.len() == 0 {
        seq![]
    } else {
        symbols_of_lines(ls.drop_last()) + if is_import_line(trim(ls.last())) {
            symbols_of_words(runs(trim(ls.last()), RunKind::Word))
        } else {
            seq![]
        }
    }
}

/// The names a source file imports, in order.
pub open spec fn imported_symbols(source: Seq<char>) -> Seq<Seq<char>> {
    symbols_of_lines(lines(source))
}

/// The files other than `own` among `files` (compared as paths, component by
/// component), as impacts of `name`.
pub open spec fn impacts_on_others(name: Seq<char>, own: Seq<char>, files: Seq<Seq<char>>) -> Seq<
    (Seq<char>, Seq<char>),
>
    decreases files.len(),
{
    if files.len() == 0 {
        seq![]
    } else {
        impacts_on_others(name, own, files.drop_last()) + if !same_path(files.last(), own) {
            seq![(name, files.last())]
        } else {
            seq![]
        }
    }
}

/// The downstream impacts of changed entities: for each, every other file
/// that imports its name.
pub open spec fn downstream_impacts(index: SymbolIndex, es: Seq<EntityChange>) -> Seq<
    (Seq<char>, Seq<char>),
>
    decreases es.len(),
{
    if es.len() == 0 {
        seq![]
    } else {
        downstream_impacts(index, es.drop_last()) + impacts_on_others(
            es.last().entity_name@,
            es.last().file_path@,
            index.files(es.last().entity_name@),
        )
    }
}

/// The views of impacts.
pub open spec fn downstream_views(v: Seq<DownstreamImpact>) -> Seq<(Seq<char>, Seq<char>)> {
    v.map_values(|i: DownstreamImpact| (i.changed_entity@, i.impacted_file@))
}

/// The file kinds whose imports are indexed.
pub open spec fn dependency_index_extensions() -> Seq<Seq<char>> {
    seq!["ts"@, "tsx"@, "js"@, "jsx"@, "rs"@, "py"@, "go"@]
}

/// The names an import line's words hold.
fn symbols_in_words(words: &Vec<Vec<char>>, out: &mut Vec<Vec<char>>)
    ensures
        line_views(final(out)@) == line_views(old(out)@) + symbols_of_words(line_views(words@)),
{
    let ghost ws = line_views(words@);
    let ghost start = line_views(out@);
    let mut i: usize = 0;
    assert(ws.take(0) =~= Seq::<Seq<char>>::empty());
    assert(start + symbols_of_words(ws.take(0)) =~= start);
    while i < words.len()
        invariant
            i <= words@.len(),
            ws == line_views(words@),
            line_views(out@) == start + symbols_of_words(ws.take(i as int)),
        decreases words@.len() - i,
    {
        let w = &words[i];
        let ghost before = line_views(out@);
        proof {
            let t = ws.take(i + 1);
            assert(t.drop_last() =~= ws.take(i as int));
            assert(t.last() == w@);
        }
        if w.len() >= 3 && is_ascii_alpha_char(w[0]) {
            out.push(crate::text::copy_chars(w));
            assert(line_views(out@) =~= before.push(w@));
        } else {
            assert(before + Seq::<Seq<char>>::empty() =~= before);
        }
        i = i + 1;
    }
    assert(ws.take(i as int) =~= ws);
}

/// The names a source file imports, in order.
pub fn imported_symbols_in(source: &str) -> (r: Vec<Vec<char>>)
    ensures
        line_views(r@) == imported_symbols(source@),
{
    let ls = split_lines(&to_chars(source));
    let ghost lv = line_views(ls@);
    let import_kw = to_chars("import ");
    let use_kw = to_chars("use ");
    let from_kw = to_chars("from ");
    let mut r: Vec<Vec<char>> = Vec::new();
    let mut i: usize = 0;
    assert(lv.take(0) =~= Seq::<Seq<char>>::empty());
    while i < ls.len()
        invariant
            i <= ls@.len(),
            lv == line_views(ls@),
            lv == lines(source@),
            import_kw@ == "import "@,
            use_kw@ == "use "@,
            from_kw@ == "from "@,
            line_views(r@) == symbols_of_lines(lv.take(i as int)),
        decreases ls@.len() - i,
    {
        let t = trim_chars(&ls[i]);
        let ghost before = line_views(r@);
        proof {
            let p = lv.take(i + 1);
            assert(p.drop_last() =~= lv.take(i as int));
            assert(p.last() == ls@[i as int]@);
        }
        if has_prefix(&t, &import_kw) || has_prefix(&t, &use_kw) || has_prefix(&t, &from_kw) {
            let words = split_runs(&t, RunKind::Word);
            symbols_in_words(&words, &mut r);
        } else {
            assert(before + Seq::<Seq<char>>::empty() =~= before);
        }
        i = i + 1;
    }
    assert(lv.take(i as int) =~= lv);
    r
}

/// The impacts of one entity, appended to `out`.
fn push_impacts_of(name: &String, own: &String, files: &Vec<String>, out: &mut Vec<DownstreamImpact>)
    ensures
        downstream_views(final(out)@) == downstream_views(old(out)@) + impacts_on_others(
            name@,
            own@,
            string_views(files@),
        ),
{
    let ghost fs = string_views(files@);
    let ghost start = downstream_views(out@);
    let mut j: usize = 0;
    assert(fs.take(0) =~= Seq::<Seq<char>>::empty());
    assert(start + impacts_on_others(name@, own@, fs.take(0)) =~= start);
    while j < files.len()
        invariant
            j <= files@.len(),
            fs == string_views(files@),
            downstream_views(out@) == start + impacts_on_others(name@, own@, fs.take(j as int)),
        decreases files@.len() - j,
    {
        let ghost before = downstream_views(out@);
        proof {
            let t = fs.take(j + 1);
            assert(t.drop_last() =~= fs.take(j as int));
            assert(t.last() == files@[j as int]@);
        }
        if !same_path_as(files[j].as_str(), own.as_str()) {
            let imp = DownstreamImpact { changed_entity: name.clone(), impacted_file: files[j].clone() };
            out.push(imp);
            assert(downstream_views(out@) =~= before.push((name@, files@[j as int]@)));
        } else {
            assert(before + Seq::<(Seq<char>, Seq<char>)>::empty() =~= before);
        }
        j = j + 1;
    }
    assert(fs.take(j as int) =~= fs);
}

impl DependencyGraph {
    /// A graph that knows no imports.
    pub fn empty() -> (g: Self)
        ensures
            forall|k: Seq<char>| !#[trigger] g.symbol_references.has(k),
    {
        DependencyGraph { symbol_references: SymbolIndex::new() }
    }

    /// For each changed entity, every file other than the entity's own that
    /// imports its name.
    pub fn find_downstream_impact(&self, changed_entities: &Vec<EntityChange>) -> (r: Vec<
        DownstreamImpact,
    >)
        ensures
            downstream_views(r@) == downstream_impacts(self.symbol_references, changed_entities@),
    {
        let ghost es = changed_entities@;
        let mut out: Vec<DownstreamImpact> = Vec::new();
        let mut i: usize = 0;
        assert(es.take(0) =~= Seq::<EntityChange>::empty());
        while i < changed_entities.len()
            invariant
                i <= changed_entities@.len(),
                es == changed_entities@,
                downstream_views(out@) == downstream_impacts(self.symbol_references, es.take(i as int)),
            decreases changed_entities@.len() - i,
        {
            let e = &changed_entities[i];
            let ghost before = downstream_views(out@);
            proof {
                let t = es.take(i + 1);
                assert(t.drop_last() =~= es.take(i as int));
                assert(t.last() == e);
            }
            match self.symbol_references.get(e.entity_name.as_str()) {
                Some(files) => {
                    push_impacts_of(&e.entity_name, &e.file_path, files, &mut out);
                },
                None => {
                    assert(self.symbol_references.files(e.entity_name@) =~= Seq::<
                        Seq<char>,
                    >::empty());
                    assert(before + Seq::<(Seq<char>, Seq<char>)>::empty() =~= before);
                },
            }
            i = i + 1;
        }
        assert(es.take(i as int) =~= es);
        out
    }

    /// Whether a file's imports are indexed: its extension is one of `ts`,
    /// `tsx`, `js`, `jsx`, `rs`, `py`, `go`.
    pub fn indexes_file(path: &str) -> (r: bool)
        ensures
            r == dependency_index_extensions().contains(extension_or_empty(path@)),
    {
        let exts = vec!["ts", "tsx", "js", "jsx", "rs", "py", "go"];
        let r = extension_is_one_of(&to_chars(path), &exts);
        proof {
            assert(exts@.map_values(|e: &str| e@) =~= dependency_index_extensions());
            if r {
                let i = choose|i: int|
                    0 <= i < exts@.len() && extension_or_empty(path@) == exts@[i]@;
                assert(dependency_index_extensions()[i] == exts@[i]@);
            }
            if dependency_index_extensions().contains(extension_or_empty(path@)) {
                let i = choose|i: int|
                    0 <= i < dependency_index_extensions().len()
                        && dependency_index_extensions()[i] == extension_or_empty(path@);
                assert(dependency_index_extensions()[i] == exts@[i]@);
            }
        }
        r
    }

    /// Records the names that the file at `path`, with text `source`, imports
    /// (one file of `build_from_repo`).
    pub fn index_file(&mut self, path: &str, source: &str)
        ensures
            forall|k: Seq<char>|
                #[trigger] final(self).symbol_references.files(k) == old(
                    self,
                ).symbol_references.files(k) + copies(path@, occurrences(imported_symbols(source@), k)),
            forall|k: Seq<char>|
                #[trigger] final(self).symbol_references.has(k) == (old(self).symbol_references.has(k)
                    || imported_symbols(source@).contains(k)),
    {
        let symbols = imported_symbols_in(source);
        add_keys(&mut self.symbol_references, &symbols, path);
    }
}

// ---------------------------------------------------------------------------
// Laws
// ---------------------------------------------------------------------------

/// Each impact on others names `name` and a file of `files` that is not the
/// path `own`.
proof fn lemma_impacts_on_others(name: Seq<char>, own: Seq<char>, files: Seq<Seq<char>>)
    ensures
        forall|i: int|
            0 <= i < impacts_on_others(name, own, files).len() ==> {
                let d = #[trigger] impacts_on_others(name, own, files)[i];
                d.0 == name && !same_path(d.1, own) && files.contains(d.1)
            },
    decreases files.len(),
{
    if files.len() > 0 {
        let t = files.drop_last();
        lemma_impacts_on_others(name, own, t);
        let front = impacts_on_others(name, own, t);
        assert forall|i: int| 0 <= i < impacts_on_others(name, own, files).len() implies {
            let d = #[trigger] impacts_on_others(name, own, files)[i];
            d.0 == name && !same_path(d.1, own) && files.contains(d.1)
        } by {
            if i < front.len() {
                let f = front[i].1;
                let j = choose|j: int| 0 <= j < t.len() && t[j] == f;
                assert(files[j] == f);
            } else {
                assert(files[files.len() - 1] == files.last());
            }
        }
    }
}

/// Whether impact `d` is one of entity `e`'s on another file.
pub open spec fn impact_elsewhere(index: SymbolIndex, d: (Seq<char>, Seq<char>), e: EntityChange) -> bool {
    &&& d.0 == e.entity_name@
    &&& !same_path(d.1, e.file_path@)
    &&& index.files(e.entity_name@).contains(d.1)
}

/// A change never impacts its own file: every downstream impact names a
/// changed entity and a file, not the same path as that entity's own, that the index
/// records as importing the entity's name.
pub proof fn law_downstream_impacts_are_elsewhere(index: SymbolIndex, es: Seq<EntityChange>)
    ensures
        forall|i: int|
            #![trigger downstream_impacts(index, es)[i]]
            0 <= i < downstream_impacts(index, es).len() ==> exists|j: int|
                0 <= j < es.len() && impact_elsewhere(index, downstream_impacts(index, es)[i], #[trigger] es[j]),
    decreases es.len(),
{
    if es.len() > 0 {
        let t = es.drop_last();
        let e = es.last();
        law_downstream_impacts_are_elsewhere(index, t);
        lemma_impacts_on_others(e.entity_name@, e.file_path@, index.files(e.entity_name@));
        let front = downstream_impacts(index, t);
        let back = impacts_on_others(e.entity_name@, e.file_path@, index.files(e.entity_name@));
        assert forall|i: int| 0 <= i < downstream_impacts(index, es).len() implies exists|j: int|
            0 <= j < es.len() && impact_elsewhere(index, #[trigger] downstream_impacts(index, es)[i], es[j]) by {
            let d = downstream_impacts(index, es)[i];
            if i < front.len() {
                assert(d == front[i]);
                let j = choose|j: int| 0 <= j < t.len() && impact_elsewhere(index, front[i], #[trigger] t[j]);
                assert(es[j] == t[j]);
                assert(impact_elsewhere(index, d, es[j]));
            } else {
                assert(d == back[i - front.len()]);
                assert(es[es.len() - 1] == e);
                assert(impact_elsewhere(index, d, es[es.len() - 1]));
            }
        }
    }
}

/// Every file of `files` that is not the path `own` is an impact on others.
proof fn lemma_impacts_on_others_complete(name: Seq<char>, own: Seq<char>, files: Seq<Seq<char>>)
    ensures
        forall|f: Seq<char>|
            files.contains(f) && !same_path(f, own) ==> #[trigger] impacts_on_others(
                name,
                own,
                files,
            ).contains((name, f)),
    decreases files.len(),
{
    if files.len() > 0 {
        let t = files.drop_last();
        lemma_impacts_on_others_complete(name, own, t);
        let front = impacts_on_others(name, own, t);
        let all = impacts_on_others(name, own, files);
        assert forall|f: Seq<char>| files.contains(f) && !same_path(f, own) implies #[trigger] all.contains(
            (name, f),
        ) by {
            let k = choose|k: int| 0 <= k < files.len() && files[k] == f;
            let tail: Seq<(Seq<char>, Seq<char>)> = if !same_path(files.last(), own) {
                seq![(name, files.last())]
            } else {
                seq![]
            };
            assert(all == front + tail);
            if k < t.len() {
                assert(t[k] == f);
                assert(t.contains(f));
                assert(front.contains((name, f)));
                let m = choose|m: int| 0 <= m < front.len() && front[m] == (name, f);
                assert(all[m] == front[m]);
            } else {
                assert(files.last() == f);
                assert(all[all.len() - 1] == (name, f));
            }
        }
    }
}

/// Law: no impact is lost: for every changed entity and every file the index
/// records as importing its name, other than the entity's own file, the
/// downstream impacts name that entity and that file.
pub proof fn law_downstream_impacts_are_complete(index: SymbolIndex, es: Seq<EntityChange>)
    ensures
        forall|j: int, f: Seq<char>|
            0 <= j < es.len() && index.files(es[j].entity_name@).contains(f) && !same_path(
                f,
                es[j].file_path@,
            ) ==> #[trigger] downstream_impacts(index, es).contains((#[trigger] es[j].entity_name@, f)),
    decreases es.len(),
{
    if es.len() > 0 {
        let t = es.drop_last();
        let e = es.last();
        law_downstream_impacts_are_complete(index, t);
        let front = downstream_impacts(index, t);
        let back = impacts_on_others(e.entity_name@, e.file_path@, index.files(e.entity_name@));
        let all = downstream_impacts(index, es);
        lemma_impacts_on_others_complete(e.entity_name@, e.file_path@, index.files(e.entity_name@));
        assert(all == front + back);
        assert forall|j: int, f: Seq<char>|
            0 <= j < es.len() && index.files(es[j].entity_name@).contains(f) && !same_path(
                f,
                es[j].file_path@,
            ) implies #[trigger] all.contains((es[j].entity_name@, f)) by {
            if j < t.len() {
                assert(es[j] == t[j]);
                assert(front.contains((t[j].entity_name@, f)));
                let m = choose|m: int| 0 <= m < front.len() && front[m] == (t[j].entity_name@, f);
                assert(all[m] == front[m]);
            } else {
                assert(es[j] == e);
                assert(back.contains((e.entity_name@, f)));
                let m = choose|m: int| 0 <= m < back.len() && back[m] == (e.entity_name@, f);
                assert(all[front.len() + m] == back[m]);
            }
        }
    }
}

/// Law: the names an import line's words hold are exactly its words of at
/// least three characters that start with an ASCII letter, in order.
pub proof fn law_imported_names(words: Seq<Seq<char>>)
    ensures
        forall|i: int|
            0 <= i < symbols_of_words(words).len() ==> (#[trigger] symbols_of_words(words)[i]).len()
                >= 3 && is_ascii_alpha(symbols_of_words(words)[i][0]),
        forall|i: int|
            0 <= i < words.len() && (#[trigger] words[i]).len() >= 3 && is_ascii_alpha(words[i][0])
                ==> symbols_of_words(words).contains(words[i]),
        symbols_of_words(words).len() <= words.len(),
    decreases words.len(),
{
    if words.len() > 0 {
        let t = words.drop_last();
        law_imported_names(t);
        let front = symbols_of_words(t);
        let all = symbols_of_words(words);
        assert forall|i: int| 0 <= i < all.len() implies (#[trigger] all[i]).len() >= 3 && is_ascii_alpha(
            all[i][0],
        ) by {
            if i < front.len() {
                assert(all[i] == front[i]);
            }
        }
        assert forall|i: int|
            0 <= i < words.len() && (#[trigger] words[i]).len() >= 3 && is_ascii_alpha(words[i][0])
                implies all.contains(words[i]) by {
            if i < t.len() {
                assert(t[i] == words[i]);
                let k = choose|k: int| 0 <= k < front.len() && front[k] == t[i];
                assert(all[k] == front[k]);
            } else {
                assert(all[all.len() - 1] == words.last());
            }
        }
    }
}

/// Law: the imports of TypeScript, JavaScript, Rust, Python and Go files are
/// indexed, and of no other kind of file.
pub proof fn law_dependency_index_extensions(e: Seq<char>)
    ensures
        dependency_index_extensions().contains(e) <==> (e == "ts"@ || e == "tsx"@ || e == "js"@
            || e == "jsx"@ || e == "rs"@ || e == "py"@ || e == "go"@),
{
    let x = dependency_index_extensions();
    assert(x[0] == "ts"@ && x[1] == "tsx"@ && x[2] == "js"@ && x[3] == "jsx"@ && x[4] == "rs"@
        && x[5] == "py"@ && x[6] == "go"@ && x.len() == 7);
}

} // verus!
