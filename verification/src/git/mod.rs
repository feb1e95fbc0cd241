pub mod diff_parser;
pub mod facade;
pub mod paths;
pub mod intent;
