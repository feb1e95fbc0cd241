//! An index from names (symbols, CSS classes) to the files that use them.
use vstd::prelude::*;

use crate::ast::upwalker::string_views;
use crate::text::{chars_eq, to_chars};

verus! {

broadcast use vstd::string::group_string_axioms;

/// Maps each name to the files that use it, in the order they were recorded.
pub struct SymbolIndex {
    entries: Vec<(String, Vec<String>)>,
}

/// The entries of an index, as mathematical values.
pub open spec fn entry_views(v: Seq<(String, Vec<String>)>) -> Seq<(Seq<char>, Seq<Seq<char>>)> {
    v.map_values(|e: (String, Vec<String>)| (e.0@, string_views(e.1@)))
}

/// The files recorded for `key` (the first entry with that name).
pub open spec fn lookup(entries: Seq<(Seq<char>, Seq<Seq<char>>)>, key: Seq<char>) -> Option<
    Seq<Seq<char>>,
>
    decreases entries.len(),
{
    if entries.len() == 0 {
        None
    } else if entries[0].0 == key {
        Some(entries[0].1)
    } else {
        lookup(entries.drop_first(), key)
    }
}

/// The files recorded for `key`, or none.
pub open spec fn files_of(entries: Seq<(Seq<char>, Seq<Seq<char>>)>, key: Seq<char>) -> Seq<
    Seq<char>,
> {
    match lookup(entries, key) {
        Some(f) => f,
        None => seq![],
    }
}

/// The first entry for `key`.
pub open spec fn first_index(entries: Seq<(Seq<char>, Seq<Seq<char>>)>, key: Seq<char>) -> Option<
    int,
>
    decreases entries.len(),
{
    if entries.len() == 0 {
        None
    } else if entries[0].0 == key {
        Some(0)
    } else {
        match first_index(entries.drop_first(), key) {
            Some(i) => Some(i + 1),
            None => None,
        }
    }
}

/// `first_index` and `lookup` agree.
proof fn lemma_first_index(entries: Seq<(Seq<char>, Seq<Seq<char>>)>, key: Seq<char>, k: int)
    requires
        0 <= k <= entries.len(),
        forall|i: int| 0 <= i < k ==> #[trigger] entries[i].0 != key,
    ensures
        k < entries.len() && entries[k].0 == key ==> first_index(entries, key) == Some(k) && lookup(
            entries,
            key,
        ) == Some(entries[k].1),
        k == entries.len() ==> first_index(entries, key) is None && lookup(entries, key) is None,
    decreases k,
{
    if k > 0 {
        let t = entries.drop_first();
        assert forall|i: int| 0 <= i < k - 1 implies #[trigger] t[i].0 != key by {
            assert(t[i] == entries[i + 1]);
        }
        if k < entries.len() {
            assert(t[k - 1] == entries[k]);
        }
        lemma_first_index(t, key, k - 1);
    }
}

/// Updating the entry at `i` changes only the lookups of its name.
proof fn lemma_lookup_update(
    entries: Seq<(Seq<char>, Seq<Seq<char>>)>,
    i: int,
    files: Seq<Seq<char>>,
    key: Seq<char>,
)
    requires
        0 <= i < entries.len(),
        first_index(entries, entries[i].0) == Some(i),
    ensures
        lookup(entries.update(i, (entries[i].0, files)), key) == if key == entries[i].0 {
            Some(files)
        } else {
            lookup(entries, key)
        },
    decreases entries.len(),
{
    let n = entries.update(i, (entries[i].0, files));
    if i == 0 {
        if key != entries[0].0 {
            assert(n.drop_first() =~= entries.drop_first());
        }
    } else {
        assert(entries[0].0 != entries[i].0);
        let t = entries.drop_first();
        assert(t[i - 1] == entries[i]);
        assert(first_index(t, t[i - 1].0) == Some(i - 1));
        lemma_lookup_update(t, i - 1, files, key);
        assert(n.drop_first() =~= t.update(i - 1, (t[i - 1].0, files)));
    }
}

/// Appending an entry for a name with no entry leaves the other lookups.
proof fn lemma_lookup_push(
    entries: Seq<(Seq<char>, Seq<Seq<char>>)>,
    e: (Seq<char>, Seq<Seq<char>>),
    key: Seq<char>,
)
    requires
        lookup(entries, e.0) is None,
    ensures
        lookup(entries.push(e), key) == if key == e.0 {
            Some(e.1)
        } else {
            lookup(entries, key)
        },
    decreases entries.len(),
{
    if entries.len() == 0 {
        assert(entries.push(e).drop_first() =~= Seq::<(Seq<char>, Seq<Seq<char>>)>::empty());
    } else {
        assert(entries.push(e).drop_first() =~= entries.drop_first().push(e));
        lemma_lookup_push(entries.drop_first(), e, key);
    }
}

impl SymbolIndex {
    /// The entries, as mathematical values.
    pub closed spec fn entries(&self) -> Seq<(Seq<char>, Seq<Seq<char>>)> {
        entry_views(self.entries@)
    }

    /// The files recorded for `key`.
    pub open spec fn files(&self, key: Seq<char>) -> Seq<Seq<char>> {
        files_of(self.entries(), key)
    }

    /// Whether anything is recorded for `key`.
    pub open spec fn has(&self, key: Seq<char>) -> bool {
        lookup(self.entries(), key) is Some
    }

    /// An empty index.
    pub fn new() -> (r: Self)
        ensures
            forall|k: Seq<char>| !#[trigger] r.has(k),
    {
        let r = SymbolIndex { entries: Vec::new() };
        assert(r.entries() =~= Seq::<(Seq<char>, Seq<Seq<char>>)>::empty());
        r
    }

    /// Where the entry for `key` is, if there is one.
    fn position(&self, key: &[char]) -> (r: Option<usize>)
        ensures
            r matches Some(i) ==> i < self.entries@.len() && first_index(self.entries(), key@)
                == Some(i as int) && self.entries()[i as int].0 == key@,
            r is None ==> first_index(self.entries(), key@) is None,
            r is None <==> lookup(self.entries(), key@) is None,
            r matches Some(i) ==> lookup(self.entries(), key@) == Some(
                self.entries()[i as int].1,
            ),
    {
        let ghost es = self.entries();
        let mut i: usize = 0;
        while i < self.entries.len()
            invariant
                i <= self.entries@.len(),
                es == self.entries(),
                es.len() == self.entries@.len(),
                forall|j: int| 0 <= j < i ==> #[trigger] es[j].0 != key@,
            decreases self.entries@.len() - i,
        {
            assert(es[i as int].0 == self.entries@[i as int].0@);
            if chars_eq(&to_chars(self.entries[i].0.as_str()), key) {
                proof {
                    lemma_first_index(es, key@, i as int);
                }
                return Some(i);
            }
            i = i + 1;
        }
        proof {
            lemma_first_index(es, key@, i as int);
        }
        None
    }

    /// The files recorded for `key` (`HashMap::get`).
    pub fn get(&self, key: &str) -> (r: Option<&Vec<String>>)
        ensures
            match r {
                Some(v) => self.has(key@) && string_views(v@) == self.files(key@),
                None => !self.has(key@),
            },
    {
        let k = to_chars(key);
        match self.position(&k) {
            Some(i) => Some(&self.entries[i].1),
            None => None,
        }
    }

    /// Records that `path` uses `key`
    /// (`HashMap::entry(key).or_default().push(path)`).
    pub fn add(&mut self, key: String, path: String)
        ensures
            forall|k: Seq<char>|
                #[trigger] final(self).files(k) == if k == key@ {
                    old(self).files(k).push(path@)
                } else {
                    old(self).files(k)
                },
            forall|k: Seq<char>|
                #[trigger] final(self).has(k) == (k == key@ || old(self).has(k)),
    {
        let ghost es = self.entries();
        let k = to_chars(key.as_str());
        match self.position(&k) {
            Some(i) => {
                let ghost orig = self.entries@[i as int].1@;
                assert(es[i as int].1 == string_views(orig));
                let mut files: Vec<String> = Vec::new();
                std::mem::swap(&mut files, &mut self.entries[i].1);
                let ghost old_files = files@;
                assert(old_files == orig);
                files.push(path);
                let name = self.entries[i].0.clone();
                self.entries.set(i, (name, files));
                proof {
                    assert(string_views(files@) =~= string_views(old_files).push(path@));
                    assert(self.entries() =~= es.update(i as int, (es[i as int].0, string_views(files@))));
                    assert forall|q: Seq<char>| #[trigger] lookup(self.entries(), q) == if q == es[i as int].0 {
                        Some(string_views(files@))
                    } else {
                        lookup(es, q)
                    } by {
                        lemma_lookup_update(es, i as int, string_views(files@), q);
                    }
                }
            },
            None => {
                let mut files: Vec<String> = Vec::new();
                files.push(path);
                self.entries.push((key, files));
                proof {
                    assert(string_views(files@) =~= seq![path@]);
                    assert(self.entries() =~= es.push((k@, string_views(files@))));
                    assert forall|q: Seq<char>| #[trigger] lookup(self.entries(), q) == if q == k@ {
                        Some(string_views(files@))
                    } else {
                        lookup(es, q)
                    } by {
                        lemma_lookup_push(es, (k@, string_views(files@)), q);
                    }
                    assert(seq![path@] =~= Seq::<Seq<char>>::empty().push(path@));
                }
            },
        }
    }
}

} // verus!
