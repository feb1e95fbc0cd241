pub mod engine;
pub mod entity_mapper;
pub mod languages;
pub mod upwalker;
pub mod symbol_index;
pub mod key_index;
pub mod css_impact;
pub mod dependency_graph;
