//! Diffing, alignment, rendering and merging.
pub mod merge;
pub mod twoway;
pub mod unified_parser;
pub mod render;
