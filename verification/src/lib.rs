//! Template metadata, source loading and dependency resolution for a
//! template-to-code compiler.

pub mod args;
pub mod cache;
pub mod error;
pub mod graph;
pub mod map;
pub mod media;
pub mod node;
pub mod path;
pub mod run;
pub mod template;
pub mod text;
pub mod walker;
