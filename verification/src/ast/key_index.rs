//! Recording many names for one file.
use vstd::prelude::*;

use crate::ast::symbol_index::SymbolIndex;
use crate::text::{from_chars, line_views};

verus! {

/// How often `k` occurs in `keys`.
pub open spec fn occurrences(keys: Seq<Seq<char>>, k: Seq<char>) -> nat
    decreases keys.len(),
{
    if keys.len() == 0 {
        0
    } else {
        occurrences(keys.drop_last(), k) + if keys.last() == k {
            1nat
        } else {
            0nat
        }
    }
}

/// `n` copies of `p`.
pub open spec fn copies(p: Seq<char>, n: nat) -> Seq<Seq<char>> {
    Seq::new(n, |i: int| p)
}

/// Records `path` under each of `keys`, in order.
pub fn add_keys(index: &mut SymbolIndex, keys: &Vec<Vec<char>>, path: &str)
    ensures
        forall|k: Seq<char>|
            #[trigger] final(index).files(k) == old(index).files(k) + copies(
                path@,
                occurrences(line_views(keys@), k),
            ),
        forall|k: Seq<char>|
            #[trigger] final(index).has(k) == (old(index).has(k) || line_views(keys@).contains(k)),
{
    let ghost ks = line_views(keys@);
    let mut i: usize = 0;
    while i < keys.len()
        invariant
            i <= keys@.len(),
            ks == line_views(keys@),
            forall|k: Seq<char>|
                #[trigger] index.files(k) == old(index).files(k) + copies(
                    path@,
                    occurrences(ks.take(i as int), k),
                ),
            forall|k: Seq<char>|
                #[trigger] index.has(k) == (old(index).has(k) || ks.take(i as int).contains(k)),
        decreases keys@.len() - i,
    {
        let key = from_chars(&keys[i]);
        let ghost before = *index;
        index.add(key, String::from_str(path));
        proof {
            let t = ks.take(i + 1);
            assert(t.drop_last() =~= ks.take(i as int));
            assert(t.last() == ks[i as int]);
            assert forall|k: Seq<char>| #[trigger] index.files(k) == old(index).files(k) + copies(
                path@,
                occurrences(t, k),
            ) by {
                if k == ks[i as int] {
                    assert(copies(path@, occurrences(t, k)) =~= copies(
                        path@,
                        occurrences(ks.take(i as int), k),
                    ).push(path@));
                } else {
                    assert(copies(path@, occurrences(t, k)) =~= copies(
                        path@,
                        occurrences(ks.take(i as int), k),
                    ));
                }
            }
            assert forall|k: Seq<char>| #[trigger] index.has(k) == (old(index).has(k) || t.contains(k)) by {
                if t.contains(k) && !ks.take(i as int).contains(k) {
                    let j = choose|j: int| 0 <= j < t.len() && t[j] == k;
                    if j < i {
                        assert(ks.take(i as int)[j] == k);
                    }
                }
                if ks.take(i as int).contains(k) {
                    let j = choose|j: int| 0 <= j < i && ks.take(i as int)[j] == k;
                    assert(t[j] == k);
                }
                if k == ks[i as int] {
                    assert(t[i as int] == k);
                }
            }
        }
        i = i + 1;
    }
    assert(ks.take(i as int) =~= ks);
}

} // verus!
