//! The parts of an audit result that are not scores: reasoning, flagged
//! entities, concerns and labels.
use vstd::prelude::*;

use crate::text::{chars_eq, to_chars};

verus! {

broadcast use vstd::string::group_string_axioms;

/// Why each dimension scored as it did.
#[derive(Debug, Clone)]
pub struct DimensionReasoning {
    pub logic_match: String,
    pub scope_adherence: String,
    pub side_effect_detection: String,
    pub structural_proportionality: String,
}

/// An entity the audit flags, and why.
#[derive(Debug, Clone)]
pub struct FlaggedEntity {
    pub entity_name: String,
    pub concern: ConcernType,
    pub detail: String,
}

/// What is wrong with a flagged entity.
#[derive(Debug, Clone, Copy, PartialEq, Eq, Structural)]
pub enum ConcernType {
    ScopeViolation,
    UndocumentedSideEffect,
    DisproportionateChange,
    LogicMismatch,
}

/// How well a change matches its stated intent.
#[derive(Debug, Clone, Copy, PartialEq, Eq, Structural)]
pub enum VibeLabel {
    Aligned,
    Drifting,
    Suspect,
    Misaligned,
}

/// The concern a model's answer names; anything unrecognised is a logic
/// mismatch.
pub open spec fn concern_named(label: Seq<char>) -> ConcernType {
    if label == "SCOPE_VIOLATION"@ {
        ConcernType::ScopeViolation
    } else if label == "UNDOCUMENTED_SIDE_EFFECT"@ {
        ConcernType::UndocumentedSideEffect
    } else if label == "DISPROPORTIONATE_CHANGE"@ {
        ConcernType::DisproportionateChange
    } else {
        ConcernType::LogicMismatch
    }
}

impl ConcernType {
    /// The concern a model's answer names (`SCOPE_VIOLATION`,
    /// `UNDOCUMENTED_SIDE_EFFECT`, `DISPROPORTIONATE_CHANGE`); anything else is
    /// a logic mismatch.
    pub fn from_label(label: &str) -> (c: ConcernType)
        ensures
            c == concern_named(label@),
    {
        let l = to_chars(label);
        if chars_eq(&l, &to_chars("SCOPE_VIOLATION")) {
            ConcernType::ScopeViolation
        } else if chars_eq(&l, &to_chars("UNDOCUMENTED_SIDE_EFFECT")) {
            ConcernType::UndocumentedSideEffect
        } else if chars_eq(&l, &to_chars("DISPROPORTIONATE_CHANGE")) {
            ConcernType::DisproportionateChange
        } else {
            ConcernType::LogicMismatch
        }
    }
}

/// Law: each of the three concern labels a model may give names its own
/// concern, and any other text is a logic mismatch.
pub proof fn law_concern_labels(label: Seq<char>)
    ensures
        concern_named(label) == ConcernType::ScopeViolation <==> label == "SCOPE_VIOLATION"@,
        concern_named(label) == ConcernType::UndocumentedSideEffect <==> label
            == "UNDOCUMENTED_SIDE_EFFECT"@,
        concern_named(label) == ConcernType::DisproportionateChange <==> label
            == "DISPROPORTIONATE_CHANGE"@,
        concern_named(label) == ConcernType::LogicMismatch <==> !(label == "SCOPE_VIOLATION"@
            || label == "UNDOCUMENTED_SIDE_EFFECT"@ || label == "DISPROPORTIONATE_CHANGE"@),
{
    reveal_strlit("SCOPE_VIOLATION");
    reveal_strlit("UNDOCUMENTED_SIDE_EFFECT");
    reveal_strlit("DISPROPORTIONATE_CHANGE");
    assert("SCOPE_VIOLATION"@[0] != "UNDOCUMENTED_SIDE_EFFECT"@[0]);
    assert("SCOPE_VIOLATION"@[0] != "DISPROPORTIONATE_CHANGE"@[0]);
    assert("UNDOCUMENTED_SIDE_EFFECT"@[0] != "DISPROPORTIONATE_CHANGE"@[0]);
}

} // verus!
