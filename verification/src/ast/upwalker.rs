//! The entity-naming syntax node that encloses a line.
use vstd::prelude::*;

verus! {

/// Whether `kind` is one of `anchors`.
pub open spec fn is_anchor(kind: Seq<char>, anchors: Seq<Seq<char>>) -> bool {
    exists|i: int| 0 <= i < anchors.len() && anchors[i] == kind
}

/// The first of `ancestry` (a node's kind, then its parent's, up to the root)
/// that is one of `anchors`.
pub open spec fn first_anchor(ancestry: Seq<Seq<char>>, anchors: Seq<Seq<char>>) -> Option<
    Seq<char>,
>
    decreases ancestry.len(),
{
    if ancestry.len() == 0 {
        None
    } else if is_anchor(ancestry[0], anchors) {
        Some(ancestry[0])
    } else {
        first_anchor(ancestry.drop_first(), anchors)
    }
}

/// The views of string slices.
pub open spec fn str_views(v: Seq<&str>) -> Seq<Seq<char>> {
    v.map_values(|s: &str| s@)
}

/// The views of strings.
pub open spec fn string_views(v: Seq<String>) -> Seq<Seq<char>> {
    v.map_values(|s: String| s@)
}

/// The kind of the nearest enclosing node that is an anchor: walks from the
/// node at a point (the first kind of `ancestry`) up through its parents.
pub fn find_enclosing_anchor(ancestry: &Vec<String>, anchor_kinds: &Vec<&str>) -> (r: Option<String>)
    ensures
        match r {
            Some(k) => first_anchor(string_views(ancestry@), str_views(anchor_kinds@)) == Some(k@),
            None => first_anchor(string_views(ancestry@), str_views(anchor_kinds@)) is None,
        },
{
    let ghost anc = string_views(ancestry@);
    let ghost anchors = str_views(anchor_kinds@);
    let mut i: usize = 0;
    assert(anc.skip(0) =~= anc);
    while i < ancestry.len()
        invariant
            i <= ancestry@.len(),
            anc == string_views(ancestry@),
            anchors == str_views(anchor_kinds@),
            first_anchor(anc, anchors) == first_anchor(anc.skip(i as int), anchors),
        decreases ancestry@.len() - i,
    {
        let kind = ancestry[i].as_str();
        let mut j: usize = 0;
        let mut found = false;
        while j < anchor_kinds.len() && !found
            invariant
                j <= anchor_kinds@.len(),
                i < ancestry@.len(),
                anc == string_views(ancestry@),
                anchors == str_views(anchor_kinds@),
                kind@ == anc[i as int],
                found ==> is_anchor(kind@, anchors),
                !found ==> forall|m: int| 0 <= m < j ==> anchors[m] != kind@,
            decreases anchor_kinds@.len() - j + (if found { 0int } else { 1int }),
        {
            if crate::text::chars_eq(
                &crate::text::to_chars(anchor_kinds[j]),
                &crate::text::to_chars(kind),
            ) {
                assert(anchors[j as int] == kind@);
                found = true;
            } else {
                j = j + 1;
            }
        }
        assert(anc.skip(i as int)[0] == anc[i as int]);
        if found {
            return Some(ancestry[i].clone());
        }
        assert(anc.skip(i as int).drop_first() =~= anc.skip(i + 1));
        i = i + 1;
    }
    None
}

} // verus!
