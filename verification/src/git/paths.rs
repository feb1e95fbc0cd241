//! File names and extensions of `/`-separated paths, as `std::path::Path`
//! computes them, and the source language a path's extension names.
use vstd::prelude::*;

use crate::git::diff_parser::Language;
use crate::text::{
    append_chars, chars_eq, has_prefix, line_views, runs, split_runs, sub_chars, to_chars, RunKind,
};

verus! {

broadcast use vstd::string::group_string_axioms;

/// Index of the last `c` in `s`, if any.
pub open spec fn rfind_char(s: Seq<char>, c: char) -> Option<int>
    decreases s.len(),
{
    if s.len() == 0 {
        None
    } else if s.last() == c {
        Some(s.len() - 1)
    } else {
        rfind_char(s.drop_last(), c)
    }
}

/// `p` without its trailing `/` characters.
pub open spec fn trim_trailing_slashes(p: Seq<char>) -> Seq<char>
    decreases p.len(),
{
    if p.len() > 0 && p.last() == '/' {
        trim_trailing_slashes(p.drop_last())
    } else {
        p
    }
}

/// The start of the last component of `q` (just after its last `/`).
pub open spec fn last_component_start(q: Seq<char>) -> int {
    match rfind_char(q, '/') {
        Some(i) => i + 1,
        None => 0,
    }
}

/// The final component of a path, if it is a normal one (`Path::file_name`):
/// separators are `/`, empty and `.` components are skipped, and a final `..`
/// or an empty path or a bare root has no file name.
pub open spec fn file_name(p: Seq<char>) -> Option<Seq<char>>
    decreases p.len(),
{
    let q = trim_trailing_slashes(p);
    if q.len() == 0 {
        None
    } else {
        proof {
            lemma_rfind_char(q, '/');
            lemma_trim_trailing_slashes(p);
        }
        let start = last_component_start(q);
        let seg = q.skip(start);
        if seg == seq!['.'] {
            file_name(q.take(start))
        } else if seg == seq!['.', '.'] {
            None
        } else {
            Some(seg)
        }
    }
}

/// The extension of a file name: the part after its last `.`, unless there is
/// no `.` or the only `.` starts the name.
pub open spec fn name_extension(name: Seq<char>) -> Option<Seq<char>> {
    match rfind_char(name, '.') {
        Some(i) => if i == 0 {
            None
        } else {
            Some(name.skip(i + 1))
        },
        None => None,
    }
}

/// `Path::extension`.
pub open spec fn path_extension(p: Seq<char>) -> Option<Seq<char>> {
    match file_name(p) {
        Some(name) => name_extension(name),
        None => None,
    }
}

/// The extension of `p`, or the empty text when it has none.
pub open spec fn extension_or_empty(p: Seq<char>) -> Seq<char> {
    match path_extension(p) {
        Some(e) => e,
        None => seq![],
    }
}

/// The source language an extension names.
pub open spec fn language_for_extension(ext: Seq<char>) -> Language {
    if ext == "ts"@ || ext == "tsx"@ || ext == "js"@ || ext == "jsx"@ {
        Language::TypeScript
    } else if ext == "rs"@ {
        Language::Rust
    } else if ext == "py"@ {
        Language::Python
    } else if ext == "go"@ {
        Language::Go
    } else {
        Language::Unknown
    }
}

/// The source language of a path, by its extension.
pub open spec fn language_of_path(p: Seq<char>) -> Language {
    language_for_extension(extension_or_empty(p))
}

/// `rfind_char` finds the last occurrence.
pub proof fn lemma_rfind_char(s: Seq<char>, c: char)
    ensures
        rfind_char(s, c) matches Some(i) ==> 0 <= i < s.len() && s[i] == c && (forall|j: int|
            i < j < s.len() ==> s[j] != c),
        rfind_char(s, c) is None ==> forall|j: int| 0 <= j < s.len() ==> s[j] != c,
    decreases s.len(),
{
    if s.len() > 0 {
        let t = s.drop_last();
        lemma_rfind_char(t, c);
        if s.last() != c {
            assert(rfind_char(s, c) == rfind_char(t, c));
            match rfind_char(t, c) {
                Some(i) => {
                    assert(s[i] == t[i]);
                    assert forall|j: int| i < j < s.len() implies s[j] != c by {
                        if j < s.len() - 1 {
                            assert(s[j] == t[j]);
                        }
                    }
                },
                None => {
                    assert forall|j: int| 0 <= j < s.len() implies s[j] != c by {
                        if j < s.len() - 1 {
                            assert(s[j] == t[j]);
                        }
                    }
                },
            }
        }
    }
}

/// One unfolding of `file_name`.
pub proof fn lemma_file_name_unfold(x: Seq<char>, q: Seq<char>)
    requires
        trim_trailing_slashes(x) == q,
        q.len() > 0,
    ensures
        file_name(x) == (if q.skip(last_component_start(q)) == seq!['.'] {
            file_name(q.take(last_component_start(q)))
        } else if q.skip(last_component_start(q)) == seq!['.', '.'] {
            None
        } else {
            Some(q.skip(last_component_start(q)))
        }),
{
}

/// `rfind_char` from an index found by scanning backwards.
pub proof fn lemma_rfind_char_at(s: Seq<char>, c: char, k: int)
    requires
        0 <= k <= s.len(),
        forall|j: int| k <= j < s.len() ==> #[trigger] s[j] != c,
    ensures
        k > 0 && s[k - 1] == c ==> rfind_char(s, c) == Some(k - 1),
        k == 0 ==> rfind_char(s, c) is None,
    decreases s.len() - k,
{
    if k < s.len() {
        let t = s.drop_last();
        assert forall|j: int| k <= j < t.len() implies #[trigger] t[j] != c by {
            assert(t[j] == s[j]);
        }
        lemma_rfind_char_at(t, c, k);
        if k > 0 {
            assert(t[k - 1] == s[k - 1]);
        }
    }
}

/// Trailing slashes are removed exactly.
pub proof fn lemma_trim_trailing_slashes(p: Seq<char>)
    ensures
        trim_trailing_slashes(p).len() <= p.len(),
        trim_trailing_slashes(p) == p.take(trim_trailing_slashes(p).len() as int),
        trim_trailing_slashes(p).len() == 0 || trim_trailing_slashes(p).last() != '/',
    decreases p.len(),
{
    if p.len() > 0 && p.last() == '/' {
        lemma_trim_trailing_slashes(p.drop_last());
        let t = trim_trailing_slashes(p.drop_last());
        assert(p.drop_last().take(t.len() as int) =~= p.take(t.len() as int));
    } else {
        assert(p.take(p.len() as int) =~= p);
    }
}

/// `trim_trailing_slashes` of a prefix found by scanning backwards.
pub proof fn lemma_trim_trailing_slashes_at(p: Seq<char>, k: int)
    requires
        0 <= k <= p.len(),
        forall|j: int| k <= j < p.len() ==> #[trigger] p[j] == '/',
        k == 0 || p[k - 1] != '/',
    ensures
        trim_trailing_slashes(p) == p.take(k),
    decreases p.len() - k,
{
    if k < p.len() {
        let t = p.drop_last();
        assert forall|j: int| k <= j < t.len() implies #[trigger] t[j] == '/' by {
            assert(t[j] == p[j]);
        }
        if k > 0 {
            assert(t[k - 1] == p[k - 1]);
        }
        lemma_trim_trailing_slashes_at(t, k);
        assert(t.take(k) =~= p.take(k));
    } else {
        assert(p.take(k) =~= p);
    }
}

/// Index of the last `c` in `s[..end]`.
pub fn rfind_char_in(s: &[char], end: usize, c: char) -> (r: Option<usize>)
    requires
        end <= s@.len(),
    ensures
        r matches Some(i) ==> i < end && rfind_char(s@.take(end as int), c) == Some(i as int),
        r is None ==> rfind_char(s@.take(end as int), c) is None,
{
    let mut k: usize = end;
    while k > 0 && s[k - 1] != c
        invariant
            k <= end <= s@.len(),
            forall|j: int| k <= j < end ==> #[trigger] s@[j] != c,
        decreases k,
    {
        k = k - 1;
    }
    proof {
        let t = s@.take(end as int);
        assert forall|j: int| k <= j < t.len() implies #[trigger] t[j] != c by {
            assert(t[j] == s@[j]);
        }
        if k > 0 {
            assert(t[k - 1] == s@[k - 1]);
        }
        lemma_rfind_char_at(t, c, k as int);
    }
    if k > 0 {
        Some(k - 1)
    } else {
        None
    }
}

/// Bounds of the file name of `p` (`Path::file_name`): `p[start..end]`.
pub fn file_name_bounds(p: &[char]) -> (r: Option<(usize, usize)>)
    ensures
        r matches Some(b) ==> b.0 <= b.1 <= p@.len() && file_name(p@) == Some(
            p@.subrange(b.0 as int, b.1 as int),
        ),
        r is None ==> file_name(p@) is None,
{
    let mut end: usize = p.len();
    assert(p@.take(end as int) =~= p@);
    loop
        invariant
            end <= p@.len(),
            file_name(p@) == file_name(p@.take(end as int)),
        decreases end,
    {
        let e = trailing_slashes_start(p, end);
        if e == 0 {
            return None;
        }
        let ghost q = p@.take(e as int);
        let start: usize = match rfind_char_in(p, e, '/') {
            Some(i) => i + 1,
            None => 0,
        };
        proof {
            lemma_rfind_char(q, '/');
            lemma_file_name_unfold(p@.take(end as int), q);
            assert(q.skip(start as int) =~= p@.subrange(start as int, e as int));
        }
        let len = e - start;
        if len == 1 && p[start] == '.' {
            assert(q.skip(start as int) =~= seq!['.']);
            assert(q.take(start as int) =~= p@.take(start as int));
            end = start;
        } else if len == 2 && p[start] == '.' && p[start + 1] == '.' {
            assert(q.skip(start as int) =~= seq!['.', '.']);
            return None;
        } else {
            proof {
                let seg = q.skip(start as int);
                if seg =~= seq!['.'] {
                    assert(seg[0] == '.');
                }
                if seg =~= seq!['.', '.'] {
                    assert(seg[0] == '.' && seg[1] == '.');
                }
            }
            return Some((start, e));
        }
    }
}

/// Where the trailing slashes of `p[..end]` begin; `p[..e]` is
/// `trim_trailing_slashes(p[..end])`.
fn trailing_slashes_start(p: &[char], end: usize) -> (e: usize)
    requires
        end <= p@.len(),
    ensures
        e <= end,
        trim_trailing_slashes(p@.take(end as int)) == p@.take(e as int),
{
    let ghost pe = p@.take(end as int);
    let mut e: usize = end;
    while e > 0 && p[e - 1] == '/'
        invariant
            e <= end <= p@.len(),
            forall|j: int| e <= j < end ==> #[trigger] p@[j] == '/',
        decreases e,
    {
        e = e - 1;
    }
    proof {
        assert forall|j: int| e <= j < pe.len() implies #[trigger] pe[j] == '/' by {
            assert(pe[j] == p@[j]);
        }
        if e > 0 {
            assert(pe[e - 1] == p@[e - 1]);
        }
        lemma_trim_trailing_slashes_at(pe, e as int);
        assert(pe.take(e as int) =~= p@.take(e as int));
    }
    e
}

/// The extension of `p` (`Path::extension`), or the empty text.
pub fn extension_chars(p: &[char]) -> (r: Vec<char>)
    ensures
        r@ == extension_or_empty(p@),
{
    match file_name_bounds(p) {
        None => Vec::new(),
        Some((start, end)) => {
            let name = sub_chars(p, start, end);
            match rfind_char_in(&name, name.len(), '.') {
                None => {
                    assert(name@.take(name@.len() as int) =~= name@);
                    Vec::new()
                },
                Some(i) => {
                    assert(name@.take(name@.len() as int) =~= name@);
                    if i == 0 {
                        Vec::new()
                    } else {
                        proof {
                            lemma_rfind_char(name@, '.');
                        }
                        let r = sub_chars(&name, i + 1, name.len());
                        assert(r@ =~= name@.skip(i + 1));
                        r
                    }
                },
            }
        },
    }
}

/// The source language an extension names.
pub fn language_from_extension(ext: &[char]) -> (r: Language)
    ensures
        r == language_for_extension(ext@),
{
    if chars_eq(ext, &to_chars("ts")) || chars_eq(ext, &to_chars("tsx")) || chars_eq(
        ext,
        &to_chars("js"),
    ) || chars_eq(ext, &to_chars("jsx")) {
        Language::TypeScript
    } else if chars_eq(ext, &to_chars("rs")) {
        Language::Rust
    } else if chars_eq(ext, &to_chars("py")) {
        Language::Python
    } else if chars_eq(ext, &to_chars("go")) {
        Language::Go
    } else {
        Language::Unknown
    }
}

/// Whether a path's extension is one of the given ones.
pub fn extension_is_one_of(p: &[char], exts: &Vec<&str>) -> (r: bool)
    ensures
        r == (exists|i: int| 0 <= i < exts@.len() && extension_or_empty(p@) == exts@[i]@),
{
    let ext = extension_chars(p);
    let mut i: usize = 0;
    while i < exts.len()
        invariant
            ext@ == extension_or_empty(p@),
            i <= exts@.len(),
            forall|j: int| 0 <= j < i ==> ext@ != exts@[j]@,
        decreases exts@.len() - i,
    {
        if chars_eq(&ext, &to_chars(exts[i])) {
            return true;
        }
        i = i + 1;
    }
    false
}

// ---------------------------------------------------------------------------
// Path equality
// ---------------------------------------------------------------------------

/// The pieces of a path that are components: all but the `.` pieces.
pub open spec fn normal_components(parts: Seq<Seq<char>>) -> Seq<Seq<char>>
    decreases parts.len(),
{
    if parts.len() == 0 {
        seq![]
    } else {
        normal_components(parts.drop_last()) + if parts.last() == "."@ {
            seq![]
        } else {
            seq![parts.last()]
        }
    }
}

/// The components of a path as `Path::components` yields them on Unix: the
/// root (written `/`) when the path starts with `/`, else a leading `.` when
/// the path is `.` or starts with `./`; then its non-empty pieces between
/// `/`s other than `.`.
pub open spec fn path_components(p: Seq<char>) -> Seq<Seq<char>> {
    let head: Seq<Seq<char>> = if p.len() > 0 && p[0] == '/' {
        seq!["/"@]
    } else if p == "."@ || "./"@.is_prefix_of(p) {
        seq!["."@]
    } else {
        seq![]
    };
    head + normal_components(runs(p, RunKind::PathPart))
}

/// Whether two paths name the same file as `Path`'s `==` sees it: they have
/// the same components (so `src//a.ts`, `src/./a.ts` and `src/a.ts/` are
/// `src/a.ts`).
pub open spec fn same_path(a: Seq<char>, b: Seq<char>) -> bool {
    path_components(a) == path_components(b)
}

/// The components of a path.
pub fn path_components_of(p: &[char]) -> (r: Vec<Vec<char>>)
    ensures
        line_views(r@) == path_components(p@),
{
    let mut r: Vec<Vec<char>> = Vec::new();
    if p.len() > 0 && p[0] == '/' {
        r.push(to_chars("/"));
    } else if chars_eq(p, &to_chars(".")) || has_prefix(p, &to_chars("./")) {
        r.push(to_chars("."));
    }
    let ghost head = line_views(r@);
    assert(head =~= (if p@.len() > 0 && p@[0] == '/' {
        seq!["/"@]
    } else if p@ == "."@ || "./"@.is_prefix_of(p@) {
        seq!["."@]
    } else {
        Seq::<Seq<char>>::empty()
    }));
    let parts = split_runs(p, RunKind::PathPart);
    let ghost ps = line_views(parts@);
    let dot = to_chars(".");
    let mut i: usize = 0;
    assert(ps.take(0) =~= Seq::<Seq<char>>::empty());
    assert(head + normal_components(ps.take(0)) =~= head);
    while i < parts.len()
        invariant
            i <= parts@.len(),
            ps == line_views(parts@),
            ps == runs(p@, RunKind::PathPart),
            dot@ == "."@,
            line_views(r@) == head + normal_components(ps.take(i as int)),
        decreases parts@.len() - i,
    {
        let ghost before = line_views(r@);
        proof {
            let t = ps.take(i + 1);
            assert(t.drop_last() =~= ps.take(i as int));
            assert(t.last() == parts@[i as int]@);
        }
        if !chars_eq(&parts[i], &dot) {
            let mut part: Vec<char> = Vec::new();
            append_chars(&mut part, &parts[i]);
            assert(part@ =~= parts@[i as int]@);
            r.push(part);
            assert(line_views(r@) =~= before.push(part@));
            assert(line_views(r@) =~= head + normal_components(ps.take(i + 1)));
        } else {
            assert(before + Seq::<Seq<char>>::empty() =~= before);
            assert(line_views(r@) =~= head + normal_components(ps.take(i + 1)));
        }
        i = i + 1;
    }
    assert(ps.take(i as int) =~= ps);
    r
}

/// Whether two paths name the same file, component by component.
pub fn same_path_as(a: &str, b: &str) -> (r: bool)
    ensures
        r == same_path(a@, b@),
{
    let ca = path_components_of(&to_chars(a));
    let cb = path_components_of(&to_chars(b));
    let ghost va = line_views(ca@);
    let ghost vb = line_views(cb@);
    if ca.len() != cb.len() {
        assert(va.len() != vb.len());
        return false;
    }
    let mut i: usize = 0;
    while i < ca.len()
        invariant
            ca@.len() == cb@.len(),
            i <= ca@.len(),
            va == line_views(ca@),
            vb == line_views(cb@),
            va == path_components(a@),
            vb == path_components(b@),
            forall|j: int| 0 <= j < i ==> va[j] == vb[j],
        decreases ca@.len() - i,
    {
        if !chars_eq(&ca[i], &cb[i]) {
            assert(va[i as int] != vb[i as int]);
            return false;
        }
        i = i + 1;
    }
    assert(va =~= vb);
    true
}

/// Law: the language of a file is given by its extension alone: `ts`, `tsx`,
/// `js` and `jsx` are TypeScript, `rs` is Rust, `py` is Python, `go` is Go,
/// and every other extension (or none) is unknown.
pub proof fn law_languages_by_extension(ext: Seq<char>)
    ensures
        language_for_extension(ext) == Language::TypeScript <==> (ext == "ts"@ || ext == "tsx"@
            || ext == "js"@ || ext == "jsx"@),
        language_for_extension(ext) == Language::Rust <==> ext == "rs"@,
        language_for_extension(ext) == Language::Python <==> ext == "py"@,
        language_for_extension(ext) == Language::Go <==> ext == "go"@,
        language_for_extension(ext) == Language::Unknown <==> !(ext == "ts"@ || ext == "tsx"@
            || ext == "js"@ || ext == "jsx"@ || ext == "rs"@ || ext == "py"@ || ext == "go"@),
{
    reveal_strlit("ts");
    reveal_strlit("tsx");
    reveal_strlit("js");
    reveal_strlit("jsx");
    reveal_strlit("rs");
    reveal_strlit("py");
    reveal_strlit("go");
    // The two-letter extensions differ in their first or second letter.
    assert("rs"@[0] != "ts"@[0] && "rs"@[0] != "js"@[0]);
    assert("py"@[0] != "ts"@[0] && "py"@[0] != "js"@[0] && "py"@[0] != "rs"@[0]);
    assert("go"@[0] != "ts"@[0] && "go"@[0] != "js"@[0] && "go"@[0] != "rs"@[0] && "go"@[0]
        != "py"@[0]);
}

} // verus!
