//! The core of a diff tool for Git, Perforce, patch files and two-file
//! comparisons: reading diffs, computing and aligning line diffs, merging
//! hunks, and deciding how source-control imports are stored.
pub mod content_source;
pub mod debugging;
pub mod diff_engine;
pub mod io;
pub mod json;
pub mod open_request;
pub mod paths;
pub mod providers;
pub mod scm;
pub mod services;
pub mod store;
pub mod text;
pub mod workspace_controller;
