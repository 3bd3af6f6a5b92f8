//! The diff sets made by importing a patch file and by comparing two files:
//! their titles, metadata and file diff records. Their JSON is written as
//! `serde_json::json!` writes it: compact, keys in sorted order.
use vstd::prelude::*;
use crate::diff_engine::unified_parser::PatchFileDiff;
use crate::json::{json_object, object_json, JsonScalar, ScalarV};
use crate::scm::{new_text_spec, old_text_spec, reconstruct_new_text, reconstruct_old_text};
use crate::text::owned;

verus! {

/// The stored fields of a file diff made from a patch file.
pub struct PatchRecord {
    pub display_path: String,
    pub status: String,
    pub left_label: String,
    pub right_label: String,
    pub content_left_json: String,
    pub content_right_json: String,
    pub write_target_json: String,
}

/// A virtual content source holding `text`.
pub open spec fn virtual_json(text: Seq<char>) -> Seq<char> {
    object_json(seq![("text"@, ScalarV::Str(text)), ("type"@, ScalarV::Str("virtual"@))])
}

/// The file diff record for one file of an imported patch: shown under its
/// new path, with its status, labelled by its old and new paths, both sides
/// holding the texts that the patch shows, and written wherever the user
/// chooses.
pub fn patch_filediff_record(pf: &PatchFileDiff) -> (r: PatchRecord)
    ensures
        r.display_path@ == pf@.new_path,
        r.status@ == pf@.status,
        r.left_label@ == pf@.old_path,
        r.right_label@ == pf@.new_path,
        r.content_left_json@ == virtual_json(old_text_spec(pf@)),
        r.content_right_json@ == virtual_json(new_text_spec(pf@)),
        r.write_target_json@ == object_json(seq![("type"@, ScalarV::Str("save_as_required"@))]),
{
    let left = vec![
        ("text", JsonScalar::Str(reconstruct_old_text(pf))),
        ("type", JsonScalar::Str(owned("virtual"))),
    ];
    let right = vec![
        ("text", JsonScalar::Str(reconstruct_new_text(pf))),
        ("type", JsonScalar::Str(owned("virtual"))),
    ];
    let target = vec![("type", JsonScalar::Str(owned("save_as_required")))];
    let l = json_object(&left);
    let r = json_object(&right);
    let t = json_object(&target);
    proof {
        assert(crate::json::field_views(left@) =~= seq![
            ("text"@, ScalarV::Str(old_text_spec(pf@))),
            ("type"@, ScalarV::Str("virtual"@)),
        ]);
        assert(crate::json::field_views(right@) =~= seq![
            ("text"@, ScalarV::Str(new_text_spec(pf@))),
            ("type"@, ScalarV::Str("virtual"@)),
        ]);
        assert(crate::json::field_views(target@) =~= seq![
            ("type"@, ScalarV::Str("save_as_required"@)),
        ]);
    }
    PatchRecord {
        display_path: pf.new_path.clone(),
        status: pf.status.clone(),
        left_label: pf.old_path.clone(),
        right_label: pf.new_path.clone(),
        content_left_json: l,
        content_right_json: r,
        write_target_json: t,
    }
}

/// The metadata of a patch import: the patch file's path.
pub fn patch_source_meta(patch_path: &str) -> (r: String)
    ensures
        r@ == object_json(seq![("path"@, ScalarV::Str(patch_path@))]),
{
    let f = vec![("path", JsonScalar::Str(owned(patch_path)))];
    let r = json_object(&f);
    assert(crate::json::field_views(f@) =~= seq![("path"@, ScalarV::Str(patch_path@))]);
    r
}

/// The title of a patch import: the patch file's name, or `Imported Patch`.
pub fn patch_title(file_name: Option<String>) -> (r: String)
    ensures
        r@ == match file_name {
            Some(n) => n@,
            None => "Imported Patch"@,
        },
{
    match file_name {
        Some(n) => n,
        None => owned("Imported Patch"),
    }
}

/// The title of a two-way compare: the given one, or `Two-way compare`.
pub fn compare_title(title: Option<&str>) -> (r: String)
    ensures
        r@ == match title {
            Some(t) => t@,
            None => "Two-way compare"@,
        },
{
    match title {
        Some(t) => owned(t),
        None => owned("Two-way compare"),
    }
}

/// The stored JSON of a two-way compare: its metadata (both paths), the
/// snapshot sources of both sides, and the write target: read-only for a
/// compare opened through an open request, else the right file.
pub struct CompareJson {
    pub source_meta_json: String,
    pub content_left_json: String,
    pub content_right_json: String,
    pub write_target_json: String,
}

pub open spec fn snapshot_json(id: Seq<char>) -> Seq<char> {
    object_json(seq![("snapshot_id"@, ScalarV::Str(id)), ("type"@, ScalarV::Str("snapshot"@))])
}

/// See `CompareJson`.
pub fn compare_json(
    left_path: &str,
    right_path: &str,
    left_snapshot: &str,
    right_snapshot: &str,
    read_only: bool,
) -> (r: CompareJson)
    ensures
        r.source_meta_json@ == object_json(
            seq![("left"@, ScalarV::Str(left_path@)), ("right"@, ScalarV::Str(right_path@))],
        ),
        r.content_left_json@ == snapshot_json(left_snapshot@),
        r.content_right_json@ == snapshot_json(right_snapshot@),
        read_only ==> r.write_target_json@ == object_json(
            seq![("type"@, ScalarV::Str("read_only"@))],
        ),
        !read_only ==> r.write_target_json@ == object_json(
            seq![("path"@, ScalarV::Str(right_path@)), ("type"@, ScalarV::Str("path"@))],
        ),
{
    let meta = vec![("left", JsonScalar::Str(owned(left_path))), ("right", JsonScalar::Str(owned(right_path)))];
    let l = vec![
        ("snapshot_id", JsonScalar::Str(owned(left_snapshot))),
        ("type", JsonScalar::Str(owned("snapshot"))),
    ];
    let r = vec![
        ("snapshot_id", JsonScalar::Str(owned(right_snapshot))),
        ("type", JsonScalar::Str(owned("snapshot"))),
    ];
    let t = if read_only {
        vec![("type", JsonScalar::Str(owned("read_only")))]
    } else {
        vec![("path", JsonScalar::Str(owned(right_path))), ("type", JsonScalar::Str(owned("path")))]
    };
    proof {
        assert(crate::json::field_views(meta@) =~= seq![
            ("left"@, ScalarV::Str(left_path@)),
            ("right"@, ScalarV::Str(right_path@)),
        ]);
        assert(crate::json::field_views(l@) =~= seq![
            ("snapshot_id"@, ScalarV::Str(left_snapshot@)),
            ("type"@, ScalarV::Str("snapshot"@)),
        ]);
        assert(crate::json::field_views(r@) =~= seq![
            ("snapshot_id"@, ScalarV::Str(right_snapshot@)),
            ("type"@, ScalarV::Str("snapshot"@)),
        ]);
        if read_only {
            assert(crate::json::field_views(t@) =~= seq![("type"@, ScalarV::Str("read_only"@))]);
        } else {
            assert(crate::json::field_views(t@) =~= seq![
                ("path"@, ScalarV::Str(right_path@)),
                ("type"@, ScalarV::Str("path"@)),
            ]);
        }
    }
    CompareJson {
        source_meta_json: json_object(&meta),
        content_left_json: json_object(&l),
        content_right_json: json_object(&r),
        write_target_json: json_object(&t),
    }
}

} // verus!
