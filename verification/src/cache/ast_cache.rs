//! Keys of the entity cache, and how much a prune removes.
use vstd::prelude::*;

use crate::git::diff_parser::DiffHunk;
use crate::text::{append_chars, from_chars, to_chars};

verus! {

broadcast use vstd::string::group_string_axioms;

/// Identifies the analysis of one hunk of one file.
#[derive(Debug, Clone, Hash, PartialEq, Eq)]
pub struct CacheKey(pub String);

impl CacheKey {
    /// The key of a hunk: its file path, `:`, and its text.
    pub fn of_hunk(hunk: &DiffHunk) -> (k: CacheKey)
        ensures
            k.0@ == hunk.file_path@ + ":"@ + hunk.raw_hunk@,
    {
        let mut key = to_chars(hunk.file_path.as_str());
        append_chars(&mut key, &to_chars(":"));
        append_chars(&mut key, &to_chars(hunk.raw_hunk.as_str()));
        CacheKey(from_chars(&key))
    }
}

/// How many of `stored` entries a prune to at most `max_entries` removes
/// (the store removes the oldest).
pub fn prune_count(stored: usize, max_entries: usize) -> (r: usize)
    ensures
        r == if stored <= max_entries {
            0
        } else {
            stored - max_entries
        },
        stored - r <= max_entries,
{
    if stored <= max_entries {
        0
    } else {
        stored - max_entries
    }
}

} // verus!
