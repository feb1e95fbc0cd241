//! The stand-in model used when no real model is asked.
use vstd::prelude::*;

verus! {

/// A model that always gives the same well-formed answer.
pub struct MockProvider;

impl MockProvider {
    /// The answer the stand-in model gives to every prompt: every score 0.8,
    /// every reasoning `ok`, nothing flagged, no suggested message.
    pub fn canned_answer(&self) -> (r: String)
        ensures
            r@ == "{\"scores\":{\"logic_match\":0.8,\"scope_adherence\":0.8,\"side_effect_detection\":0.8,\"structural_proportionality\":0.8},\"reasoning\":{\"logic_match\":\"ok\",\"scope_adherence\":\"ok\",\"side_effect_detection\":\"ok\",\"structural_proportionality\":\"ok\"},\"flagged_entities\":[],\"suggested_commit_message\":null}"@,
    {
        String::from_str(
            "{\"scores\":{\"logic_match\":0.8,\"scope_adherence\":0.8,\"side_effect_detection\":0.8,\"structural_proportionality\":0.8},\"reasoning\":{\"logic_match\":\"ok\",\"scope_adherence\":\"ok\",\"side_effect_detection\":\"ok\",\"structural_proportionality\":\"ok\"},\"flagged_entities\":[],\"suggested_commit_message\":null}",
        )
    }
}

} // verus!
