//! Unified-diff parsing: the hunks of a diff, with the added and removed lines
//! of each, the line numbers they land on, and the language of the file.
use vstd::prelude::*;

use std::ops::RangeInclusive;

use crate::git::facade::GitFacade;
use crate::git::paths::{extension_chars, language_from_extension, language_of_path};
use crate::text::{
    append_chars, copy_chars, find_char, from_chars, has_prefix, lemma_find_char, line_views, lines,
    parse_u32, parse_u32_spec, split_lines, sub_chars, to_chars, decimal, law_decimal_reads_back,
    is_ascii_digit,
};

verus! {

broadcast use vstd::string::group_string_axioms;

/// `RangeInclusive::clone`, which a derived `Clone` of a hunk calls; nothing is
/// promised of the copy.
pub assume_specification<Idx: Clone>[ <RangeInclusive<Idx> as Clone>::clone ](
    r: &RangeInclusive<Idx>,
) -> RangeInclusive<Idx>;

/// Source language of a changed file.
#[derive(Debug, Clone, Copy, PartialEq, Eq, Structural)]
pub enum Language {
    TypeScript,
    Rust,
    Python,
    Go,
    Unknown,
}

/// One hunk of a unified diff.
#[derive(Debug, Clone)]
pub struct DiffHunk {
    pub file_path: String,
    pub language: Language,
    pub changed_lines: RangeInclusive<u32>,
    /// `(line number in the new file, the line with its leading '+')`
    pub added_lines: Vec<(u32, String)>,
    /// `(line number in the new file, the line with its leading '-')`
    pub removed_lines: Vec<(u32, String)>,
    pub raw_hunk: String,
}

/// What a hunk holds, as mathematical values.
pub struct HunkView {
    pub file_path: Seq<char>,
    pub language: Language,
    pub changed_start: int,
    pub changed_end: int,
    pub added_lines: Seq<(int, Seq<char>)>,
    pub removed_lines: Seq<(int, Seq<char>)>,
    pub raw_hunk: Seq<char>,
}

/// The views of numbered lines.
pub open spec fn numbered_views(v: Seq<(u32, String)>) -> Seq<(int, Seq<char>)> {
    v.map_values(|p: (u32, String)| (p.0 as int, p.1@))
}

impl View for DiffHunk {
    type V = HunkView;

    open spec fn view(&self) -> HunkView {
        HunkView {
            file_path: self.file_path@,
            language: self.language,
            changed_start: self.changed_lines@.start as int,
            changed_end: self.changed_lines@.end as int,
            added_lines: numbered_views(self.added_lines@),
            removed_lines: numbered_views(self.removed_lines@),
            raw_hunk: self.raw_hunk@,
        }
    }
}

/// The views of a sequence of hunks.
pub open spec fn hunk_views(v: Seq<DiffHunk>) -> Seq<HunkView> {
    v.map_values(|h: DiffHunk| h@)
}

/// Reads unified diffs.
pub struct DiffParser {
    git: GitFacade,
}

// ---------------------------------------------------------------------------
// The diff format, line by line
// ---------------------------------------------------------------------------

/// The state of a scan through a diff, between two lines.
pub struct DiffScan {
    /// Hunks completed so far.
    pub hunks: Seq<HunkView>,
    /// Path named by the last `+++ b/` line.
    pub file: Seq<char>,
    /// Path in effect when the open hunk was opened.
    pub hunk_file: Seq<char>,
    pub added: Seq<(int, Seq<char>)>,
    pub removed: Seq<(int, Seq<char>)>,
    /// Text of the open hunk, each line followed by `'\n'`.
    pub raw: Seq<char>,
    /// Line number in the new file of the next added or context line.
    pub new_line: int,
    /// Smallest and largest line number of an added line of the open hunk
    /// (`u32::MAX` and 0 when there is none).
    pub min_line: int,
    pub max_line: int,
}

/// The scan before the first line.
pub open spec fn scan_start() -> DiffScan {
    DiffScan {
        hunks: seq![],
        file: seq![],
        hunk_file: seq![],
        added: seq![],
        removed: seq![],
        raw: seq![],
        new_line: 0,
        min_line: u32::MAX as int,
        max_line: 0,
    }
}

/// A completed hunk: its changed range spans its added lines, or is line 1
/// when it added none.
pub open spec fn hunk_of(
    file: Seq<char>,
    added: Seq<(int, Seq<char>)>,
    removed: Seq<(int, Seq<char>)>,
    raw: Seq<char>,
    min_line: int,
    max_line: int,
) -> HunkView {
    HunkView {
        file_path: file,
        language: language_of_path(file),
        changed_start: if min_line == u32::MAX { 1 } else { min_line },
        changed_end: if min_line == u32::MAX { 1 } else { max_line },
        added_lines: added,
        removed_lines: removed,
        raw_hunk: raw,
    }
}

/// Close the open hunk.
pub open spec fn flush(st: DiffScan) -> DiffScan {
    DiffScan {
        hunks: st.hunks.push(
            hunk_of(st.hunk_file, st.added, st.removed, st.raw, st.min_line, st.max_line),
        ),
        added: seq![],
        removed: seq![],
        raw: seq![],
        min_line: u32::MAX as int,
        max_line: 0,
        ..st
    }
}

/// Where the first field of `s` ends: at its first `,` or space.
pub open spec fn field_end(s: Seq<char>) -> int
    decreases s.len(),
{
    if s.len() == 0 {
        0
    } else if s[0] == ',' || s[0] == ' ' {
        0
    } else {
        1 + field_end(s.drop_first())
    }
}

/// The start line of a hunk header's new-file range: the number after the
/// header's first `+`, up to a `,` or a space; 1 when it does not parse.
pub open spec fn hunk_start_line(rhs: Seq<char>) -> int {
    match parse_u32_spec(rhs.take(field_end(rhs))) {
        Some(n) => n as int,
        None => 1,
    }
}

/// Whether a line adds a line (`+`, but not a `+++` file header).
pub open spec fn is_added_line(line: Seq<char>) -> bool {
    line.len() > 0 && line[0] == '+' && !"+++"@.is_prefix_of(line)
}

/// Whether a line removes a line (`-`, but not a `---` file header).
pub open spec fn is_removed_line(line: Seq<char>) -> bool {
    line.len() > 0 && line[0] == '-' && !"---"@.is_prefix_of(line)
}

/// The file of the hunk that a line opens or continues: the current file when
/// no hunk is open, else the open hunk's.
pub open spec fn opening_file(st: DiffScan) -> Seq<char> {
    if st.raw.len() == 0 {
        st.file
    } else {
        st.hunk_file
    }
}

/// One line of the diff.  A `+++ b/` line names the current file; a hunk
/// takes the file in effect when it opens and keeps it until it is closed (by
/// the next `@@` line or the end of the diff).
pub open spec fn scan_step(st: DiffScan, line: Seq<char>) -> DiffScan {
    let text = line.push('\n');
    if "+++ b/"@.is_prefix_of(line) {
        DiffScan { file: line.skip("+++ b/"@.len() as int), ..st }
    } else if "@@"@.is_prefix_of(line) {
        let closed = if st.raw.len() > 0 { flush(st) } else { st };
        let started = match find_char(line, '+') {
            Some(idx) => DiffScan { new_line: hunk_start_line(line.skip(idx + 1)), ..closed },
            None => closed,
        };
        DiffScan { raw: started.raw + text, hunk_file: st.file, ..started }
    } else if is_added_line(line) {
        DiffScan {
            added: st.added.push((st.new_line, line)),
            min_line: if st.new_line < st.min_line { st.new_line } else { st.min_line },
            max_line: if st.new_line > st.max_line { st.new_line } else { st.max_line },
            new_line: st.new_line + 1,
            raw: st.raw + text,
            hunk_file: opening_file(st),
            ..st
        }
    } else if is_removed_line(line) {
        DiffScan {
            removed: st.removed.push((st.new_line, line)),
            raw: st.raw + text,
            hunk_file: opening_file(st),
            ..st
        }
    } else if st.raw.len() > 0 {
        DiffScan { new_line: st.new_line + 1, raw: st.raw + text, ..st }
    } else {
        st
    }
}

/// The scan after the given lines.
pub open spec fn scan_lines(ls: Seq<Seq<char>>) -> DiffScan
    decreases ls.len(),
{
    if ls.len() == 0 {
        scan_start()
    } else {
        scan_step(scan_lines(ls.drop_last()), ls.last())
    }
}

/// The hunks of a diff.
pub open spec fn diff_hunks(raw: Seq<char>) -> Seq<HunkView> {
    let st = scan_lines(lines(raw));
    if st.raw.len() > 0 {
        flush(st).hunks
    } else {
        st.hunks
    }
}

/// Whether every line number the scan of `raw` reaches fits in 32 bits.
pub open spec fn diff_line_numbers_fit(raw: Seq<char>) -> bool {
    forall|k: int|
        0 <= k <= lines(raw).len() ==> #[trigger] scan_lines(lines(raw).take(k)).new_line
            <= u32::MAX
}

// ---------------------------------------------------------------------------
// The scanner
// ---------------------------------------------------------------------------

/// The executable state of a scan.
struct DiffScanner {
    hunks: Vec<DiffHunk>,
    current_file: Vec<char>,
    hunk_file: Vec<char>,
    added: Vec<(u32, String)>,
    removed: Vec<(u32, String)>,
    raw_hunk: Vec<char>,
    new_line: u32,
    min_line: u32,
    max_line: u32,
}

impl View for DiffScanner {
    type V = DiffScan;

    closed spec fn view(&self) -> DiffScan {
        DiffScan {
            hunks: hunk_views(self.hunks@),
            file: self.current_file@,
            hunk_file: self.hunk_file@,
            added: numbered_views(self.added@),
            removed: numbered_views(self.removed@),
            raw: self.raw_hunk@,
            new_line: self.new_line as int,
            min_line: self.min_line as int,
            max_line: self.max_line as int,
        }
    }
}

/// Where the first field of `s[from..]` ends, as an index into `s`.
fn field_end_from(s: &[char], from: usize) -> (r: usize)
    requires
        from <= s@.len(),
    ensures
        from <= r <= s@.len(),
        r - from == field_end(s@.skip(from as int)),
{
    let mut i: usize = from;
    while i < s.len() && s[i] != ',' && s[i] != ' '
        invariant
            from <= i <= s@.len(),
            forall|j: int| from <= j < i ==> #[trigger] s@[j] != ',' && s@[j] != ' ',
        decreases s@.len() - i,
    {
        i = i + 1;
    }
    proof {
        lemma_field_end(s@.skip(from as int), i - from);
    }
    i
}

/// `field_end` stops at the first separator.
proof fn lemma_field_end(s: Seq<char>, k: int)
    requires
        0 <= k <= s.len(),
        forall|j: int| 0 <= j < k ==> #[trigger] s[j] != ',' && s[j] != ' ',
        k == s.len() || s[k] == ',' || s[k] == ' ',
    ensures
        field_end(s) == k,
    decreases k,
{
    if k > 0 {
        let t = s.drop_first();
        assert forall|j: int| 0 <= j < k - 1 implies #[trigger] t[j] != ',' && t[j] != ' ' by {
            assert(t[j] == s[j + 1]);
        }
        if k < s.len() {
            assert(t[k - 1] == s[k]);
        }
        lemma_field_end(t, k - 1);
    }
}

/// Completes one hunk (its language comes from the file's extension).
fn finish_hunk(
    file_path: String,
    added_lines: Vec<(u32, String)>,
    removed_lines: Vec<(u32, String)>,
    raw_hunk: String,
    min_line: u32,
    max_line: u32,
) -> (h: DiffHunk)
    ensures
        h@ == hunk_of(
            file_path@,
            numbered_views(added_lines@),
            numbered_views(removed_lines@),
            raw_hunk@,
            min_line as int,
            max_line as int,
        ),
{
    let path_chars = to_chars(file_path.as_str());
    let language = infer_language(&path_chars);
    let changed_lines = if min_line == u32::MAX {
        RangeInclusive::new(1u32, 1u32)
    } else {
        RangeInclusive::new(min_line, max_line)
    };
    DiffHunk { language, file_path, changed_lines, added_lines, removed_lines, raw_hunk }
}

/// The language of a file path, by its extension.
pub fn infer_language(path: &[char]) -> (r: Language)
    ensures
        r == language_of_path(path@),
{
    let ext = extension_chars(path);
    language_from_extension(&ext)
}

impl DiffScanner {
    fn new() -> (s: Self)
        ensures
            s@ == scan_start(),
    {
        let s = DiffScanner {
            hunks: Vec::new(),
            current_file: Vec::new(),
            hunk_file: Vec::new(),
            added: Vec::new(),
            removed: Vec::new(),
            raw_hunk: Vec::new(),
            new_line: 0,
            min_line: u32::MAX,
            max_line: 0,
        };
        assert(s@.hunks =~= seq![]);
        assert(s@.added =~= seq![]);
        assert(s@.removed =~= seq![]);
        s
    }

    /// Close the open hunk.
    fn flush(&mut self)
        ensures
            final(self)@ == flush(old(self)@),
    {
        let mut added: Vec<(u32, String)> = Vec::new();
        std::mem::swap(&mut added, &mut self.added);
        let mut removed: Vec<(u32, String)> = Vec::new();
        std::mem::swap(&mut removed, &mut self.removed);
        let mut raw: Vec<char> = Vec::new();
        std::mem::swap(&mut raw, &mut self.raw_hunk);
        let hunk = finish_hunk(
            from_chars(&self.hunk_file),
            added,
            removed,
            from_chars(&raw),
            self.min_line,
            self.max_line,
        );
        let ghost before = self.hunks@;
        self.hunks.push(hunk);
        self.min_line = u32::MAX;
        self.max_line = 0;
        assert(hunk_views(self.hunks@) =~= hunk_views(before).push(hunk@));
        assert(numbered_views(self.added@) =~= seq![]);
        assert(numbered_views(self.removed@) =~= seq![]);
    }

    /// Take one line; `false` when a line number would leave 32 bits.
    fn step(&mut self, line: &Vec<char>) -> (ok: bool)
        ensures
            ok == (scan_step(old(self)@, line@).new_line <= u32::MAX),
            ok ==> final(self)@ == scan_step(old(self)@, line@),
    {
        let ghost st = self@;
        let mut text = line.clone();
        text.push('\n');
        assert(text@ =~= line@.push('\n'));
        if has_prefix(line, &to_chars("+++ b/")) {
            let skip = to_chars("+++ b/").len();
            self.current_file = sub_chars(line, skip, line.len());
            assert(self.current_file@ =~= line@.skip("+++ b/"@.len() as int));
            true
        } else if has_prefix(line, &to_chars("@@")) {
            if self.raw_hunk.len() > 0 {
                self.flush();
            }
            let ghost closed = self@;
            match find_first_char(line, '+') {
                Some(idx) => {
                    let end = field_end_from(line, idx + 1);
                    let field = sub_chars(line, idx + 1, end);
                    assert(field@ =~= line@.skip(idx + 1).take(field_end(line@.skip(idx + 1))));
                    self.new_line = match parse_u32(&field) {
                        Some(n) => n,
                        None => 1,
                    };
                },
                None => {},
            }
            self.hunk_file = copy_chars(&self.current_file);
            append_chars(&mut self.raw_hunk, &text);
            true
        } else if line.len() > 0 && line[0] == '+' && !has_prefix(line, &to_chars("+++")) {
            if self.new_line == u32::MAX {
                return false;
            }
            let n = self.new_line;
            let ghost before = self.added@;
            self.added.push((n, from_chars(line)));
            assert(numbered_views(self.added@) =~= numbered_views(before).push((n as int, line@)));
            if n < self.min_line {
                self.min_line = n;
            }
            if n > self.max_line {
                self.max_line = n;
            }
            self.new_line = n + 1;
            if self.raw_hunk.len() == 0 {
                self.hunk_file = copy_chars(&self.current_file);
            }
            append_chars(&mut self.raw_hunk, &text);
            true
        } else if line.len() > 0 && line[0] == '-' && !has_prefix(line, &to_chars("---")) {
            let n = self.new_line;
            let ghost before = self.removed@;
            self.removed.push((n, from_chars(line)));
            assert(numbered_views(self.removed@) =~= numbered_views(before).push((n as int, line@)));
            if self.raw_hunk.len() == 0 {
                self.hunk_file = copy_chars(&self.current_file);
            }
            append_chars(&mut self.raw_hunk, &text);
            true
        } else if self.raw_hunk.len() > 0 {
            if self.new_line == u32::MAX {
                return false;
            }
            self.new_line = self.new_line + 1;
            append_chars(&mut self.raw_hunk, &text);
            true
        } else {
            true
        }
    }
}

/// Index of the first `c` in `s`.
pub fn find_first_char(s: &[char], c: char) -> (r: Option<usize>)
    ensures
        r matches Some(i) ==> find_char(s@, c) == Some(i as int) && i < s@.len(),
        r is None ==> find_char(s@, c) is None,
{
    let mut i: usize = 0;
    while i < s.len() && s[i] != c
        invariant
            i <= s@.len(),
            forall|j: int| 0 <= j < i ==> #[trigger] s@[j] != c,
        decreases s@.len() - i,
    {
        i = i + 1;
    }
    proof {
        lemma_find_char(s@, c, i as int);
    }
    if i < s.len() {
        Some(i)
    } else {
        None
    }
}

/// Parses a unified diff; `None` when a line number would not fit in 32 bits.
fn scan_diff(raw: &str) -> (r: Option<Vec<DiffHunk>>)
    ensures
        r is Some <==> diff_line_numbers_fit(raw@),
        r matches Some(v) ==> hunk_views(v@) == diff_hunks(raw@),
{
    let chars = to_chars(raw);
    let ls = split_lines(&chars);
    let ghost all = lines(raw@);
    let mut scanner = DiffScanner::new();
    let mut i: usize = 0;
    assert(all.take(0) =~= Seq::<Seq<char>>::empty());
    while i < ls.len()
        invariant
            i <= ls@.len(),
            line_views(ls@) == all,
            all == lines(raw@),
            scanner@ == scan_lines(all.take(i as int)),
            forall|k: int| 0 <= k <= i ==> #[trigger] scan_lines(all.take(k)).new_line <= u32::MAX,
        decreases ls@.len() - i,
    {
        assert(all.take(i + 1).drop_last() =~= all.take(i as int));
        assert(all[i as int] == ls@[i as int]@);
        let ok = scanner.step(&ls[i]);
        if !ok {
            assert(scan_lines(all.take(i + 1)).new_line > u32::MAX);
            return None;
        }
        i = i + 1;
    }
    assert(all.take(i as int) =~= all);
    if scanner.raw_hunk.len() > 0 {
        scanner.flush();
    }
    Some(scanner.hunks)
}

/// Whether every line number of a diff fits in 32 bits, as parsing needs.
pub fn line_numbers_fit(raw: &str) -> (r: bool)
    ensures
        r == diff_line_numbers_fit(raw@),
{
    scan_diff(raw).is_some()
}

impl DiffParser {
    /// A parser for the repository at `repo_root`.
    pub fn new(repo_root: String) -> (p: Self)
        ensures
            p.repo_root()@ == repo_root@,
    {
        DiffParser { git: GitFacade::new(repo_root) }
    }

    /// The repository this parser reads.
    pub closed spec fn repo_root(&self) -> String {
        self.git.repo_root
    }

    /// The repository facade.
    pub fn git(&self) -> (g: &GitFacade)
        ensures
            g.repo_root@ == self.repo_root()@,
    {
        &self.git
    }

    /// The hunks of the staged changes, given what reading the staged diff
    /// gave: its text, or the error that reading met, which is passed on.
    pub fn extract_staged_diff_hunks<E>(&self, staged_diff: Result<String, E>) -> (r: Result<
        Vec<DiffHunk>,
        E,
    >)
        requires
            staged_diff matches Ok(s) ==> diff_line_numbers_fit(s@),
        ensures
            match staged_diff {
                Ok(s) => r matches Ok(v) && hunk_views(v@) == diff_hunks(s@),
                Err(e) => r == Err::<Vec<DiffHunk>, E>(e),
            },
    {
        match staged_diff {
            Ok(s) => Ok(self.parse_unified_diff(s.as_str())),
            Err(e) => Err(e),
        }
    }

    /// The hunks of a revision, given what reading its diff against its parent
    /// gave: the diff text, or the error that reading met, which is passed on.
    pub fn extract_rev_diff_hunks<E>(&self, rev_diff: Result<String, E>) -> (r: Result<
        Vec<DiffHunk>,
        E,
    >)
        requires
            rev_diff matches Ok(s) ==> diff_line_numbers_fit(s@),
        ensures
            match rev_diff {
                Ok(s) => r matches Ok(v) && hunk_views(v@) == diff_hunks(s@),
                Err(e) => r == Err::<Vec<DiffHunk>, E>(e),
            },
    {
        match rev_diff {
            Ok(s) => Ok(self.parse_unified_diff(s.as_str())),
            Err(e) => Err(e),
        }
    }

    /// Parses a unified diff into its hunks.
    pub fn parse_unified_diff(&self, raw: &str) -> (r: Vec<DiffHunk>)
        requires
            diff_line_numbers_fit(raw@),
        ensures
            hunk_views(r@) == diff_hunks(raw@),
    {
        match scan_diff(raw) {
            Some(v) => v,
            None => Vec::new(),
        }
    }
}

// ---------------------------------------------------------------------------
// Laws
// ---------------------------------------------------------------------------

/// Line numbers of added lines strictly increase.
pub open spec fn numbers_increase(a: Seq<(int, Seq<char>)>) -> bool {
    forall|i: int, j: int| 0 <= i < j < a.len() ==> a[i].0 < a[j].0
}

/// The shape every hunk of a parsed diff has.
pub open spec fn hunk_well_formed(h: HunkView) -> bool {
    &&& forall|i: int| 0 <= i < h.added_lines.len() ==> is_added_line(#[trigger] h.added_lines[i].1)
    &&& forall|i: int|
        0 <= i < h.removed_lines.len() ==> is_removed_line(#[trigger] h.removed_lines[i].1)
    &&& numbers_increase(h.added_lines)
    &&& h.added_lines.len() == 0 ==> h.changed_start == 1 && h.changed_end == 1
    &&& h.added_lines.len() > 0 ==> h.changed_start == h.added_lines[0].0 && h.changed_end
        == h.added_lines.last().0
    &&& h.language == language_of_path(h.file_path)
    &&& h.raw_hunk.len() > 0 && h.raw_hunk.last() == '\n'
}

/// What holds of a scan between two lines.
pub open spec fn scan_consistent(st: DiffScan) -> bool {
    &&& forall|i: int| 0 <= i < st.hunks.len() ==> hunk_well_formed(#[trigger] st.hunks[i])
    &&& forall|i: int| 0 <= i < st.added.len() ==> is_added_line(#[trigger] st.added[i].1)
    &&& forall|i: int| 0 <= i < st.removed.len() ==> is_removed_line(#[trigger] st.removed[i].1)
    &&& numbers_increase(st.added)
    &&& forall|i: int| 0 <= i < st.added.len() ==> #[trigger] st.added[i].0 < st.new_line
    &&& st.added.len() == 0 ==> st.min_line == u32::MAX && st.max_line == 0
    &&& st.added.len() > 0 ==> st.min_line == st.added[0].0 && st.max_line == st.added.last().0
    &&& st.added.len() > 0 || st.removed.len() > 0 ==> st.raw.len() > 0
    &&& st.raw.len() > 0 ==> st.raw.last() == '\n'
    &&& 0 <= st.new_line <= u32::MAX
}

/// Closing a consistent hunk yields a well-formed one.
proof fn lemma_flush_consistent(st: DiffScan)
    requires
        scan_consistent(st),
        st.raw.len() > 0,
    ensures
        scan_consistent(flush(st)),
        hunk_well_formed(flush(st).hunks.last()),
{
    let h = hunk_of(st.hunk_file, st.added, st.removed, st.raw, st.min_line, st.max_line);
    if st.added.len() > 0 {
        assert(st.added[0].0 < st.new_line);
    }
    assert(hunk_well_formed(h));
    let f = flush(st);
    assert forall|i: int| 0 <= i < f.hunks.len() implies hunk_well_formed(#[trigger] f.hunks[i]) by {
        if i < st.hunks.len() {
            assert(f.hunks[i] == st.hunks[i]);
        }
    }
}

/// One line keeps a scan consistent, while its line numbers fit.
proof fn lemma_step_consistent(st: DiffScan, line: Seq<char>)
    requires
        scan_consistent(st),
        scan_step(st, line).new_line <= u32::MAX,
    ensures
        scan_consistent(scan_step(st, line)),
{
    let text = line.push('\n');
    let next = scan_step(st, line);
    if "+++ b/"@.is_prefix_of(line) {
        assert(scan_consistent(next));
    } else if "@@"@.is_prefix_of(line) {
        let closed = if st.raw.len() > 0 { flush(st) } else { st };
        if st.raw.len() > 0 {
            lemma_flush_consistent(st);
        }
        assert(scan_consistent(closed));
        assert(closed.added.len() == 0);
        assert(closed.removed.len() == 0);
        assert(next.raw.last() == '\n');
        assert(next.hunks == closed.hunks);
        assert(next.added.len() == 0);
        assert(scan_consistent(next));
    } else if is_added_line(line) {
        let n = st.new_line;
        assert(n < u32::MAX);
        assert forall|i: int| 0 <= i < next.added.len() implies is_added_line(
            #[trigger] next.added[i].1,
        ) by {
            if i < st.added.len() {
                assert(next.added[i] == st.added[i]);
            }
        }
        assert forall|i: int, j: int| 0 <= i < j < next.added.len() implies next.added[i].0
            < next.added[j].0 by {
            assert(next.added[i] == st.added[i]);
            if j < st.added.len() {
                assert(next.added[j] == st.added[j]);
            }
        }
        assert forall|i: int| 0 <= i < next.added.len() implies #[trigger] next.added[i].0
            < next.new_line by {
            if i < st.added.len() {
                assert(next.added[i] == st.added[i]);
            }
        }
        if st.added.len() > 0 {
            assert(next.added[0] == st.added[0]);
            assert(st.added.last().0 < n);
        }
        assert(next.raw.last() == '\n');
        assert(next.hunks == st.hunks);
        assert(next.removed == st.removed);
        assert(next.added.len() > 0);
        assert(next.added.last().0 == n);
        if st.added.len() == 0 {
            assert(st.max_line == 0);
            assert(n >= 0);
        } else {
            assert(st.max_line < n);
        }
        assert(next.max_line == next.added.last().0);
        assert(next.min_line == next.added[0].0);
        assert(numbers_increase(next.added));
        assert(scan_consistent(next));
    } else if is_removed_line(line) {
        assert forall|i: int| 0 <= i < next.removed.len() implies is_removed_line(
            #[trigger] next.removed[i].1,
        ) by {
            if i < st.removed.len() {
                assert(next.removed[i] == st.removed[i]);
            }
        }
        assert(next.raw.last() == '\n');
    } else if st.raw.len() > 0 {
        assert forall|i: int| 0 <= i < next.added.len() implies #[trigger] next.added[i].0
            < next.new_line by {
            assert(next.added[i] == st.added[i]);
        }
        assert(next.raw.last() == '\n');
    }
}

/// Every scan of a diff whose line numbers fit is consistent.
proof fn lemma_scan_consistent(ls: Seq<Seq<char>>)
    requires
        forall|k: int| 0 <= k <= ls.len() ==> #[trigger] scan_lines(ls.take(k)).new_line <= u32::MAX,
    ensures
        scan_consistent(scan_lines(ls)),
    decreases ls.len(),
{
    if ls.len() == 0 {
    } else {
        let prev = ls.drop_last();
        assert forall|k: int| 0 <= k <= prev.len() implies #[trigger] scan_lines(prev.take(k)).new_line
            <= u32::MAX by {
            assert(prev.take(k) =~= ls.take(k));
        }
        lemma_scan_consistent(prev);
        assert(ls.take(ls.len() as int) =~= ls);
        assert(scan_lines(ls.take(ls.len() as int)).new_line <= u32::MAX);
        lemma_step_consistent(scan_lines(prev), ls.last());
    }
}

/// Law: in every hunk of a parsed diff, each added line starts with `+` (and is
/// no `+++` header) and each removed line with `-` (and is no `---` header);
/// added lines carry strictly increasing line numbers; the changed range runs
/// from the first to the last added line, or is line 1 when nothing was added;
/// the language is the one the file's extension names; and the hunk text is
/// non-empty and ends with a newline.
pub proof fn law_parsed_hunks_well_formed(raw: Seq<char>)
    requires
        diff_line_numbers_fit(raw),
    ensures
        forall|i: int| 0 <= i < diff_hunks(raw).len() ==> hunk_well_formed(#[trigger] diff_hunks(raw)[i]),
{
    let ls = lines(raw);
    lemma_scan_consistent(ls);
    let st = scan_lines(ls);
    if st.raw.len() > 0 {
        lemma_flush_consistent(st);
    }
}

/// Law: a hunk belongs to the file in effect when it opened.  A line that
/// opens a hunk (an `@@` header, or a first changed line) gives it the current
/// file; a line that leaves an open hunk open keeps its file, whatever file a
/// `+++ b/` header names meanwhile; and a hunk is closed under that file.
pub proof fn law_hunk_keeps_its_file(st: DiffScan, line: Seq<char>)
    ensures
        scan_step(st, line).raw.len() > 0 ==> scan_step(st, line).hunk_file == if st.raw.len() > 0
            && scan_step(st, line).hunks.len() == st.hunks.len() {
            st.hunk_file
        } else {
            st.file
        },
        scan_step(st, line).hunks.len() > st.hunks.len() ==> scan_step(st, line).hunks
            == st.hunks.push(
            hunk_of(st.hunk_file, st.added, st.removed, st.raw, st.min_line, st.max_line),
        ),
        scan_step(st, line).hunks.len() >= st.hunks.len(),
{
}

/// Whether a line opens a hunk.
pub open spec fn is_hunk_header(line: Seq<char>) -> bool {
    "@@"@.is_prefix_of(line)
}

/// How many lines open a hunk.
pub open spec fn header_count(ls: Seq<Seq<char>>) -> nat
    decreases ls.len(),
{
    if ls.len() == 0 {
        0
    } else {
        header_count(ls.drop_last()) + if is_hunk_header(ls.last()) {
            1nat
        } else {
            0nat
        }
    }
}

/// Whether no added or removed line comes before the first hunk header.
pub open spec fn no_changes_before_first_header(ls: Seq<Seq<char>>) -> bool
    decreases ls.len(),
{
    if ls.len() == 0 {
        true
    } else {
        &&& no_changes_before_first_header(ls.drop_last())
        &&& (header_count(ls.drop_last()) == 0 && !is_hunk_header(ls.last())) ==> !is_added_line(
            ls.last(),
        ) && !is_removed_line(ls.last())
    }
}

/// Appending to a text that starts with `@@` keeps that start.
proof fn lemma_header_prefix_kept(a: Seq<char>, b: Seq<char>)
    requires
        "@@"@.is_prefix_of(a),
    ensures
        "@@"@.is_prefix_of(a + b),
{
    reveal_strlit("@@");
    assert((a + b).subrange(0, 2) =~= a.subrange(0, 2));
}

/// The scan opens exactly one hunk per header line, and each hunk's text
/// starts with its header.
proof fn lemma_hunks_per_header(ls: Seq<Seq<char>>)
    requires
        no_changes_before_first_header(ls),
    ensures
        header_count(ls) == 0 ==> scan_lines(ls).raw.len() == 0 && scan_lines(ls).hunks.len() == 0,
        header_count(ls) > 0 ==> scan_lines(ls).raw.len() > 0 && scan_lines(ls).hunks.len() + 1
            == header_count(ls) && "@@"@.is_prefix_of(scan_lines(ls).raw),
        forall|i: int|
            0 <= i < scan_lines(ls).hunks.len() ==> "@@"@.is_prefix_of(
                #[trigger] scan_lines(ls).hunks[i].raw_hunk,
            ),
    decreases ls.len(),
{
    reveal_strlit("@@");
    reveal_strlit("+++ b/");
    if ls.len() > 0 {
        let prev = ls.drop_last();
        let line = ls.last();
        lemma_hunks_per_header(prev);
        let st = scan_lines(prev);
        let next = scan_lines(ls);
        assert(next == scan_step(st, line));
        let text = line.push('\n');
        if "+++ b/"@.is_prefix_of(line) {
            assert(line[0] == line.subrange(0, 6)[0]);
            if is_hunk_header(line) {
                assert(line[0] == line.subrange(0, 2)[0]);
            }
            assert(!is_hunk_header(line));
        } else if is_hunk_header(line) {
            assert(text.subrange(0, 2) =~= line.subrange(0, 2));
            if st.raw.len() > 0 {
                assert forall|i: int| 0 <= i < next.hunks.len() implies "@@"@.is_prefix_of(
                    #[trigger] next.hunks[i].raw_hunk,
                ) by {
                    if i < st.hunks.len() {
                        assert(next.hunks[i] == st.hunks[i]);
                    }
                }
            }
            assert(next.raw == text);
        } else if is_added_line(line) || is_removed_line(line) {
            assert(header_count(prev) > 0);
            lemma_header_prefix_kept(st.raw, text);
        } else if st.raw.len() > 0 {
            lemma_header_prefix_kept(st.raw, text);
        }
    }
}

/// Law: when no added or removed line comes before the first hunk header,
/// a diff has exactly one hunk per `@@` line, and the text of each hunk starts
/// with its header.
pub proof fn law_one_hunk_per_header(raw: Seq<char>)
    requires
        no_changes_before_first_header(lines(raw)),
    ensures
        diff_hunks(raw).len() == header_count(lines(raw)),
        forall|i: int|
            0 <= i < diff_hunks(raw).len() ==> "@@"@.is_prefix_of(#[trigger] diff_hunks(raw)[i].raw_hunk),
{
    let ls = lines(raw);
    lemma_hunks_per_header(ls);
    let st = scan_lines(ls);
    if st.raw.len() > 0 {
        let f = flush(st);
        assert forall|i: int| 0 <= i < f.hunks.len() implies "@@"@.is_prefix_of(
            #[trigger] f.hunks[i].raw_hunk,
        ) by {
            if i < st.hunks.len() {
                assert(f.hunks[i] == st.hunks[i]);
            }
        }
    }
}

/// Law: a hunk header's new-file range starts at the number written after its
/// `+`, whether or not a count follows it.
pub proof fn law_hunk_start_is_the_written_number(n: nat, rest: Seq<char>)
    requires
        n <= u32::MAX,
        rest.len() == 0 || rest[0] == ',' || rest[0] == ' ',
    ensures
        hunk_start_line(decimal(n) + rest) == n,
{
    law_decimal_reads_back(n);
    let d = decimal(n);
    let s = d + rest;
    assert forall|j: int| 0 <= j < d.len() implies #[trigger] s[j] != ',' && s[j] != ' ' by {
        assert(s[j] == d[j]);
        assert(is_ascii_digit(d[j]));
    }
    if rest.len() > 0 {
        assert(s[d.len() as int] == rest[0]);
    }
    lemma_field_end(s, d.len() as int);
    assert(s.take(d.len() as int) =~= d);
}

} // verus!
