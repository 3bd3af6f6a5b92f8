//! The records that the application stores: workspaces, diff sets, file
//! diffs, snapshots and merge buffers.
use vstd::prelude::*;

verus! {

/// A workspace and its settings (as JSON).
#[derive(Debug, Clone)]
pub struct Workspace {
    pub workspace_id: String,
    pub name: String,
    pub created_at: i64,
    pub last_opened_at: i64,
    pub settings_json: String,
}

/// One import: a set of file diffs and where they came from.
#[derive(Debug, Clone)]
pub struct DiffSet {
    pub diffset_id: String,
    pub workspace_id: String,
    pub title: String,
    pub source_type: String,
    pub provider: String,
    pub kind: String,
    pub source_meta_json: String,
    pub created_at: i64,
}

/// One file's diff within a diff set.
#[derive(Debug, Clone)]
pub struct FileDiff {
    pub filediff_id: String,
    pub diffset_id: String,
    pub display_path: String,
    pub status: String,
    pub left_label: String,
    pub right_label: String,
    pub content_left_json: String,
    pub content_right_json: String,
    pub hunks_json: String,
    pub write_target_json: String,
    pub created_at: i64,
}

/// A copy of a file taken when it was compared.
#[derive(Debug, Clone)]
pub struct Snapshot {
    pub snapshot_id: String,
    pub sha256: String,
    pub size_bytes: i64,
    pub cache_path: String,
    pub created_at: i64,
}

/// The merge result being edited for a file diff.
#[derive(Debug, Clone)]
pub struct MergeBuffer {
    pub filediff_id: String,
    pub merged_content_json: String,
    pub dirty: bool,
    pub updated_at: i64,
}

} // verus!
