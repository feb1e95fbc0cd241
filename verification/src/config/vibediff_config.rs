//! Settings of the auditor.
use vstd::prelude::*;

verus! {

broadcast use vstd::string::group_string_axioms;

/// Which model to ask, where, and how long to wait.
#[derive(Debug, Clone)]
pub struct VibeDiffConfig {
    pub local_model: String,
    pub ollama_url: String,
    pub use_mock_llm: bool,
    pub timeout_secs: u64,
}

impl Default for VibeDiffConfig {
    /// A local `llama3.2:3b` model served by Ollama on its default port,
    /// with a 30-second timeout.
    fn default() -> (c: Self)
        ensures
            c.local_model@ == "llama3.2:3b"@,
            c.ollama_url@ == "http://localhost:11434"@,
            !c.use_mock_llm,
            c.timeout_secs == 30,
    {
        VibeDiffConfig {
            local_model: String::from_str("llama3.2:3b"),
            ollama_url: String::from_str("http://localhost:11434"),
            use_mock_llm: false,
            timeout_secs: 30,
        }
    }
}

} // verus!
