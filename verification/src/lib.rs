//! Splitting compiler pass-pipeline logs into per-dump artifacts and
//! reconstructing the nesting of passes from the artifact names alone.

pub mod marker;
pub mod namer;
pub mod splitter;
pub mod infer;
pub mod nesting;
pub mod render;
pub mod file_name;
