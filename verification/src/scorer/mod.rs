pub mod assertion_record;
pub mod llm_bridge;
pub mod prompt_builder;
pub mod vibe_scorer;
