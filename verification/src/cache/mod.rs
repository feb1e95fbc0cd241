pub mod ast_cache;
