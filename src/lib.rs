//! Isolates the source regions that changed between two versions of a
//! code-metrics report, and renders them line-anchored.
pub mod noise;
pub mod render;
pub mod report;
pub mod snippets;
pub mod source;
pub mod space_path;
pub mod text;
pub mod tree;
pub mod walk;
