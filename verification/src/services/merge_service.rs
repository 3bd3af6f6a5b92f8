//! Editing and saving the merge buffer of a file diff: the stored buffer,
//! which hunk is applied, where a save goes and what text it writes.
use vstd::prelude::*;
use crate::content_source::{source_json, target_from_json, ContentSource, SourceV, TargetV, WriteTarget};
use crate::diff_engine::unified_parser::Hunk;
use crate::io::{detect_eol, normalize_eol, with_eol};
use crate::json::{json_str_field, json_string_field};
use crate::store::MergeBuffer;
use crate::text::{concat, contains, owned, str_eq};

verus! {

/// The stored merge buffer of a file diff holding `merged` as virtual text.
pub fn merge_buffer(filediff_id: &str, merged: String, dirty: bool, updated_at: i64) -> (r: MergeBuffer)
    ensures
        r.filediff_id@ == filediff_id@,
        r.merged_content_json@ == source_json(SourceV::Virtual(merged@)),
        r.dirty == dirty,
        r.updated_at == updated_at,
{
    MergeBuffer {
        filediff_id: owned(filediff_id),
        merged_content_json: ContentSource::virtual_text(merged).to_json_string(),
        dirty,
        updated_at,
    }
}

/// The index of the first hunk with id `hunk_id`, or -1.
pub open spec fn hunk_index(ids: Seq<Seq<char>>, id: Seq<char>) -> int
    decreases ids.len(),
{
    if ids.len() == 0 {
        -1
    } else if ids[0] == id {
        0
    } else {
        let r = hunk_index(ids.drop_first(), id);
        if r < 0 {
            -1
        } else {
            r + 1
        }
    }
}

pub open spec fn hunk_ids(hs: Seq<Hunk>) -> Seq<Seq<char>> {
    hs.map_values(|h: Hunk| h.id@)
}

proof fn lemma_hunk_index(ids: Seq<Seq<char>>, id: Seq<char>)
    ensures
        -1 <= hunk_index(ids, id) < ids.len(),
        hunk_index(ids, id) >= 0 ==> ids[hunk_index(ids, id)] == id,
        forall|j: int| 0 <= j < ids.len() && (hunk_index(ids, id) < 0 || j < hunk_index(ids, id))
            ==> #[trigger] ids[j] != id,
    decreases ids.len(),
{
    if ids.len() > 0 {
        lemma_hunk_index(ids.drop_first(), id);
        assert forall|j: int| 0 <= j < ids.len() && (hunk_index(ids, id) < 0 || j < hunk_index(ids, id))
            implies #[trigger] ids[j] != id by {
            if j > 0 {
                assert(ids[j] == ids.drop_first()[j - 1]);
            }
        }
    }
}

/// The position of the hunk with id `hunk_id` (the first, should two share
/// it); `Hunk <id> not found` where none has it.
pub fn find_hunk(hunks: &Vec<Hunk>, hunk_id: &str) -> (r: Result<usize, String>)
    ensures
        match r {
            Ok(i) => i < hunks.len() && i == hunk_index(hunk_ids(hunks@), hunk_id@),
            Err(e) => hunk_index(hunk_ids(hunks@), hunk_id@) < 0 && e@ == "Hunk "@ + hunk_id@
                + " not found"@,
        },
{
    let ghost ids = hunk_ids(hunks@);
    proof {
        lemma_hunk_index(ids, hunk_id@);
    }
    let mut i: usize = 0;
    while i < hunks.len()
        invariant
            i <= hunks.len(),
            ids == hunk_ids(hunks@),
            -1 <= hunk_index(ids, hunk_id@) < ids.len(),
            hunk_index(ids, hunk_id@) >= 0 ==> ids[hunk_index(ids, hunk_id@)] == hunk_id@,
            forall|j: int| 0 <= j < ids.len() && (hunk_index(ids, hunk_id@) < 0 || j < hunk_index(ids, hunk_id@))
                ==> #[trigger] ids[j] != hunk_id@,
            forall|j: int| 0 <= j < i ==> #[trigger] ids[j] != hunk_id@,
        decreases hunks.len() - i,
    {
        if str_eq(hunks[i].id.as_str(), hunk_id) {
            assert(ids[i as int] == hunk_id@);
            return Ok(i);
        }
        i = i + 1;
    }
    let a = concat("Hunk ", hunk_id);
    Err(concat(a.as_str(), " not found"))
}

/// Where a save writes a merge result: the file of a path target; a target
/// that asks for a path, or forbids writing, is refused with its own message.
pub open spec fn save_target_spec(json: Seq<char>) -> Result<Seq<char>, Seq<char>> {
    match target_from_json(json) {
        Err(e) => Err(e),
        Ok(TargetV::Path(p)) => Ok(p),
        Ok(TargetV::SaveAsRequired) => Err("Save As required - use save_mergebuffer_as with a target path"@),
        Ok(TargetV::ReadOnly) => Err("This diff is read-only"@),
    }
}

/// The file a save writes to (see `save_target_spec`).
pub fn save_target_path(write_target_json: &str) -> (r: Result<String, String>)
    ensures
        match (r, save_target_spec(write_target_json@)) {
            (Ok(x), Ok(y)) => x@ == y,
            (Err(x), Err(y)) => x@ == y,
            _ => false,
        },
{
    match WriteTarget::from_json(write_target_json) {
        Err(e) => Err(e),
        Ok(WriteTarget::Path { path }) => Ok(path),
        Ok(WriteTarget::SaveAsRequired) => Err(
            owned("Save As required - use save_mergebuffer_as with a target path"),
        ),
        Ok(WriteTarget::ReadOnly) => Err(owned("This diff is read-only")),
    }
}

/// The text a save writes: where the target file exists (its text given),
/// the merge result with its line endings made those of the file; else the
/// merge result as it is.
pub fn saved_text(merged: &str, existing: Option<&str>) -> (r: String)
    ensures
        r@ == match existing {
            Some(e) => with_eol(
                merged@,
                if contains(e@, "\r\n"@) {
                    "\r\n"@
                } else {
                    "\n"@
                },
            ),
            None => merged@,
        },
{
    match existing {
        Some(e) => {
            let eol = detect_eol(e);
            normalize_eol(merged, eol)
        },
        None => owned(merged),
    }
}

/// Whether a backup written beside a file of this kind of diff set is added
/// to its pending changelist.
pub fn tracks_pending_p4_backup(kind: &str) -> (r: bool)
    ensures
        r == (kind@ == "p4Pending"@ || kind@ == "p4PendingDefault"@),
{
    str_eq(kind, "p4Pending") || str_eq(kind, "p4PendingDefault")
}

/// The working directory recorded in a diff set's metadata, where the
/// metadata is JSON with a string `cwd`.
pub fn parse_diffset_cwd(source_meta_json: &str) -> (r: Option<String>)
    ensures
        match json_str_field(source_meta_json@, "cwd"@) {
            Ok(Some(c)) => r matches Some(x) && x@ == c,
            _ => r is None,
        },
{
    match json_string_field(source_meta_json, "cwd") {
        Ok(Some(c)) => Some(c),
        _ => None,
    }
}

} // verus!
