//! Severity levels of labels in a SARIF report.
use vstd::prelude::*;

use crate::scorer::assertion_record::VibeLabel;

verus! {

broadcast use vstd::string::group_string_axioms;

/// The SARIF level of a label.
pub open spec fn sarif_level_of(label: VibeLabel) -> Seq<char> {
    match label {
        VibeLabel::Misaligned => "error"@,
        VibeLabel::Suspect => "warning"@,
        _ => "note"@,
    }
}

/// Law: only a misaligned change is an error and only a suspect one a
/// warning; aligned and drifting changes are notes.
pub proof fn law_sarif_levels(label: VibeLabel)
    ensures
        sarif_level_of(label) == "error"@ <==> label == VibeLabel::Misaligned,
        sarif_level_of(label) == "warning"@ <==> label == VibeLabel::Suspect,
        sarif_level_of(label) == "note"@ <==> (label == VibeLabel::Aligned || label
            == VibeLabel::Drifting),
{
    reveal_strlit("error");
    reveal_strlit("warning");
    reveal_strlit("note");
    assert("error"@[0] != "warning"@[0] && "error"@[0] != "note"@[0] && "warning"@[0]
        != "note"@[0]);
}

/// The SARIF level for a label: `Misaligned` maps to `error`, `Suspect` to
/// `warning`, and every other label to `note`.
pub fn sarif_level(label: VibeLabel) -> (r: &'static str)
    ensures
        r@ == sarif_level_of(label),
{
    match label {
        VibeLabel::Misaligned => "error",
        VibeLabel::Suspect => "warning",
        _ => "note",
    }
}

} // verus!
