//! What an open request from the command line or a second instance does.
use vstd::prelude::*;
use crate::open_request::OpenRequest;
use crate::text::{chars_of, concat, decimal, ends_with, has_suffix, numbered, owned};

verus! {

/// Whether a path names a patch file (`.diff` or `.patch`).
pub open spec fn patch_path_spec(p: Seq<char>) -> bool {
    has_suffix(p, ".diff"@) || has_suffix(p, ".patch"@)
}

/// See `patch_path_spec`.
pub fn is_patch_path(path: &str) -> (r: bool)
    ensures
        r == patch_path_spec(path@),
{
    let v = chars_of(path);
    ends_with(&v, ".diff") || ends_with(&v, ".patch")
}

/// How many seconds after a two-way compare opened by request another one
/// joins its diff set.
pub const TWO_WAY_GROUP_SECONDS: i64 = 5;

/// The earliest creation time (in seconds) of a two-way compare diff set that
/// a compare opened by request at `now` joins.
pub fn two_way_group_since(now: i64) -> (r: i64)
    requires
        now >= i64::MIN + TWO_WAY_GROUP_SECONDS,
    ensures
        r == now - TWO_WAY_GROUP_SECONDS,
{
    now - TWO_WAY_GROUP_SECONDS
}

/// What handling an open request does.
#[derive(Debug, Clone)]
pub enum OpenAction {
    /// Import the patch file at this path.
    ImportPatch(String),
    /// Compare two files, under a title where one is given.
    CompareTwo { left: String, right: String, title: Option<String> },
    /// Refuse the request with this message.
    Refuse(String),
}

pub open spec fn opt_view(o: Option<String>) -> Option<Seq<char>> {
    match o {
        Some(s) => Some(s@),
        None => None,
    }
}

/// What an open request does: a patch is imported; a two-way request
/// compares its files; one patch file among the files is imported, two files
/// are compared, other numbers are refused; a merge is refused.
pub fn plan_open_request(request: OpenRequest) -> (r: OpenAction)
    ensures
        match request {
            OpenRequest::OpenPatch { path } => r matches OpenAction::ImportPatch(p) && p@ == path@,
            OpenRequest::OpenTwoWay { left_path, right_path, title, .. } => r matches OpenAction::CompareTwo {
                left,
                right,
                title: t,
            } && left@ == left_path@ && right@ == right_path@ && opt_view(t) == opt_view(title),
            OpenRequest::OpenFiles { paths } => if paths.len() == 1 && patch_path_spec(paths@[0]@) {
                r matches OpenAction::ImportPatch(p) && p@ == paths@[0]@
            } else if paths.len() == 2 {
                r matches OpenAction::CompareTwo { left, right, title: t } && left@ == paths@[0]@
                    && right@ == paths@[1]@ && t is None
            } else {
                r matches OpenAction::Refuse(e) && e@ == "Unsupported number of files"@
            },
            OpenRequest::OpenMerge { .. } => r matches OpenAction::Refuse(e) && e@
                == "Merge mode not yet implemented in V1"@,
        },
{
    match request {
        OpenRequest::OpenPatch { path } => OpenAction::ImportPatch(path),
        OpenRequest::OpenTwoWay { left_path, right_path, title, .. } => OpenAction::CompareTwo {
            left: left_path,
            right: right_path,
            title,
        },
        OpenRequest::OpenFiles { paths } => {
            if paths.len() == 1 && is_patch_path(paths[0].as_str()) {
                OpenAction::ImportPatch(paths[0].clone())
            } else if paths.len() == 2 {
                OpenAction::CompareTwo { left: paths[0].clone(), right: paths[1].clone(), title: None }
            } else {
                OpenAction::Refuse(owned("Unsupported number of files"))
            }
        },
        OpenRequest::OpenMerge { .. } => OpenAction::Refuse(owned("Merge mode not yet implemented in V1")),
    }
}

/// How an open request is named in diagnostics.
pub fn describe_request(request: &OpenRequest) -> (r: String)
    ensures
        r@ == match request {
            OpenRequest::OpenPatch { path } => "patch path="@ + path@,
            OpenRequest::OpenTwoWay { left_path, right_path, .. } => "two_way left="@ + left_path@
                + " right="@ + right_path@,
            OpenRequest::OpenFiles { paths } => "files count="@ + decimal(paths.len() as nat),
            OpenRequest::OpenMerge { .. } => "merge"@,
        },
{
    match request {
        OpenRequest::OpenPatch { path } => concat("patch path=", path.as_str()),
        OpenRequest::OpenTwoWay { left_path, right_path, .. } => {
            let a = concat("two_way left=", left_path.as_str());
            let b = concat(a.as_str(), " right=");
            concat(b.as_str(), right_path.as_str())
        },
        OpenRequest::OpenFiles { paths } => numbered("files count=", paths.len() as u64),
        OpenRequest::OpenMerge { .. } => owned("merge"),
    }
}

} // verus!
