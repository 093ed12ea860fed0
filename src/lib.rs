//! Source positions, source files and diagnostics for a compiler front end.
pub mod ast;
pub mod decimal;
pub mod diagnostic;
pub mod diagnostic_builder;
pub mod diagnostic_engine;
pub mod path_helper;
pub mod pos;
pub mod pos_info;
pub mod render;
pub mod source_file;
pub mod source_line;
pub mod source_map;
pub mod source_path;
pub mod span;
pub mod symbol;
pub mod text;
pub mod typed_arena;
pub mod width;
