//! The in-memory filesystem: a fixed-capacity arena of directories, each
//! with its own files and child directories. Nothing is ever deleted.

pub mod arena;
pub mod directory;
pub mod file;
pub mod laws;
pub mod model;
pub mod path;
pub mod slots;
