//! Diagnostic output: whether it is on, and the lines it writes.
//!
//! Whether diagnostics are on is decided once at start-up from the command
//! line; the application keeps that decision and writes the lines that these
//! functions make.
use vstd::prelude::*;
use crate::content_source::TextLocation;
use crate::json::json_string_field;
use crate::text::{
    chars_of, concat, decimal, lower, lower_of, numbered, owned, split, split_lit, str_eq,
    string_from, trim, trim_of, views,
};

verus! {

/// Whether the arguments ask for diagnostics (`--debug`).
pub open spec fn debug_flag(args: Seq<Seq<char>>) -> bool {
    exists|i: int| 0 <= i < args.len() && args[i] == "--debug"@
}

/// Whether diagnostics are asked for by the command line (see `debug_flag`).
/// The caller keeps the answer for the rest of the run.
pub fn configure_from_args(args: &[String]) -> (r: bool)
    ensures
        r == debug_flag(views(args@)),
{
    let mut i: usize = 0;
    while i < args.len()
        invariant
            i <= args.len(),
            forall|k: int| 0 <= k < i ==> views(args@)[k] != "--debug"@,
        decreases args.len() - i,
    {
        if str_eq(args[i].as_str(), "--debug") {
            assert(views(args@)[i as int] == "--debug"@);
            return true;
        }
        i = i + 1;
    }
    false
}

/// Whether an environment flag's value turns it on: after trimming and
/// lowering, it is neither empty nor `0`, `false` or `no`.
pub open spec fn flag_value_on(v: Seq<char>) -> bool {
    let x = lower(trim(v));
    x.len() > 0 && x != "0"@ && x != "false"@ && x != "no"@
}

/// Whether the flag with value `value` (absent: off) is on (see
/// `flag_value_on`).
pub fn env_flag_enabled(value: Option<String>) -> (r: bool)
    ensures
        r == match value {
            Some(v) => flag_value_on(v@),
            None => false,
        },
{
    match value {
        Some(v) => {
            let x = string_from(&lower_of(&trim_of(&chars_of(v.as_str()))));
            proof {
                reveal_strlit("0");
                reveal_strlit("false");
                reveal_strlit("no");
            }
            chars_of(x.as_str()).len() > 0 && !str_eq(x.as_str(), "0") && !str_eq(x.as_str(), "false")
                && !str_eq(x.as_str(), "no")
        },
        None => false,
    }
}

/// Whether diagnostics are on: `--debug` among the arguments, or the
/// `npm_config_debug` environment variable (its value given here) on.
pub fn debug_enabled_from(args: &[String], npm_config_debug: Option<String>) -> (r: bool)
    ensures
        r == (debug_flag(views(args@)) || match npm_config_debug {
            Some(v) => flag_value_on(v@),
            None => false,
        }),
{
    configure_from_args(args) || env_flag_enabled(npm_config_debug)
}

/// The number of lines an editor shows for `text`: one more than its
/// newlines (`split('\n').count()`).
pub fn count_lines(text: &str) -> (r: usize)
    ensures
        r == split(text@, "\n"@).len(),
{
    proof {
        reveal_strlit("\n");
    }
    let v = chars_of(text);
    let parts = split_lit(&v, "\n");
    parts.len()
}

/// Writes diagnostic lines under a scope name.
pub struct DebugLogger {
    scope: &'static str,
}

/// The diagnostic line for `message` in `scope`.
pub open spec fn line_spec(scope: Seq<char>, message: Seq<char>) -> Seq<char> {
    "[diffviewer-debug]["@ + scope + "] "@ + message
}

impl DebugLogger {
    pub closed spec fn scope(&self) -> Seq<char> {
        self.scope@
    }

    pub fn new(scope: &'static str) -> (r: Self)
        ensures
            r.scope() == scope@,
    {
        DebugLogger { scope }
    }

    fn line(&self, message: &str) -> (r: String)
        ensures
            r@ == line_spec(self.scope(), message@),
    {
        let a = concat("[diffviewer-debug][", self.scope);
        let b = concat(a.as_str(), "] ");
        concat(b.as_str(), message)
    }

    /// The line to write for `message`, where diagnostics are on.
    pub fn log(&self, enabled: bool, message: &str) -> (r: Option<String>)
        ensures
            match r {
                Some(l) => enabled && l@ == line_spec(self.scope(), message@),
                None => !enabled,
            },
    {
        if !enabled {
            return None;
        }
        Some(self.line(message))
    }

    /// The lines to write for a labelled block of text, where diagnostics are
    /// on and the text is not blank.
    pub fn log_multiline(&self, enabled: bool, label: &str, text: &str) -> (r: Option<String>)
        ensures
            match r {
                Some(l) => enabled && trim(text@).len() > 0 && l@ == line_spec(
                    self.scope(),
                    label@ + ":\n"@ + text@,
                ),
                None => !enabled || trim(text@).len() == 0,
            },
    {
        if !enabled || trim_of(&chars_of(text)).len() == 0 {
            return None;
        }
        let a = concat(label, ":\n");
        let b = concat(a.as_str(), text);
        Some(self.line(b.as_str()))
    }

    /// The line that reports the line counts of both sides of a file diff
    /// (each as `describe_line_count` gives it), where diagnostics are on.
    pub fn log_diff_line_counts(
        &self,
        enabled: bool,
        display_path: &str,
        prev_count: &str,
        new_count: &str,
    ) -> (r: Option<String>)
        ensures
            match r {
                Some(l) => enabled && l@ == line_spec(
                    self.scope(),
                    "diff_line_counts path="@ + display_path@ + " prev="@ + prev_count@
                        + " new="@ + new_count@,
                ),
                None => !enabled,
            },
    {
        if !enabled {
            return None;
        }
        let a = concat("diff_line_counts path=", display_path);
        let b = concat(a.as_str(), " prev=");
        let c = concat(b.as_str(), prev_count);
        let d = concat(c.as_str(), " new=");
        let e = concat(d.as_str(), new_count);
        Some(self.line(e.as_str()))
    }

    /// The line that reports the line count of a merge buffer, where
    /// diagnostics are on.
    pub fn log_merge_line_count(
        &self,
        enabled: bool,
        display_path: &str,
        merged_text: &str,
        context: &str,
    ) -> (r: Option<String>)
        ensures
            match r {
                Some(l) => enabled && l@ == line_spec(
                    self.scope(),
                    "merge_line_count path="@ + display_path@ + " context="@ + context@
                        + " merge="@ + decimal(split(merged_text@, "\n"@).len()),
                ),
                None => !enabled,
            },
    {
        if !enabled {
            return None;
        }
        let n = count_lines(merged_text);
        let a = concat("merge_line_count path=", display_path);
        let b = concat(a.as_str(), " context=");
        let c = concat(b.as_str(), context);
        let d = concat(c.as_str(), " merge=");
        let e = numbered(d.as_str(), n as u64);
        Some(self.line(e.as_str()))
    }
}

/// How a line count is reported: the number, or `error(<message>)`.
pub fn describe_line_count(count: Result<usize, String>) -> (r: String)
    ensures
        r@ == match count {
            Ok(n) => decimal(n as nat),
            Err(e) => "error("@ + e@ + ")"@,
        },
{
    match count {
        Ok(n) => {
            proof {
                reveal_strlit("");
                assert(""@ + decimal(n as nat) =~= decimal(n as nat));
            }
            numbered("", n as u64)
        },
        Err(e) => {
            let a = concat("error(", e.as_str());
            concat(a.as_str(), ")")
        },
    }
}

/// Where the text of a content source given as JSON is, for counting its
/// lines: its `text` (empty where absent) for a virtual source, its `path`
/// or `snapshot_id` (required) for the others. A type that is missing or
/// unknown is an error.
pub open spec fn count_source_spec(json: Seq<char>) -> Result<TextLocationV, Seq<char>> {
    match crate::json::json_str_field(json, "type"@) {
        Err(e) => Err(e),
        Ok(None) => Err("Missing content source type"@),
        Ok(Some(t)) => if t == "virtual"@ {
            match crate::json::json_str_field(json, "text"@) {
                Err(e) => Err(e),
                Ok(Some(x)) => Ok(TextLocationV::Inline(x)),
                Ok(None) => Ok(TextLocationV::Inline(seq![])),
            }
        } else if t == "path"@ {
            match crate::json::json_str_field(json, "path"@) {
                Err(e) => Err(e),
                Ok(Some(x)) => Ok(TextLocationV::File(x)),
                Ok(None) => Err("Missing path"@),
            }
        } else if t == "snapshot"@ {
            match crate::json::json_str_field(json, "snapshot_id"@) {
                Err(e) => Err(e),
                Ok(Some(x)) => Ok(TextLocationV::Snapshot(x)),
                Ok(None) => Err("Missing snapshot_id"@),
            }
        } else {
            Err("Unsupported content source type "@ + t)
        },
    }
}

pub enum TextLocationV {
    Inline(Seq<char>),
    File(Seq<char>),
    Snapshot(Seq<char>),
}

pub open spec fn location_view(l: TextLocation) -> TextLocationV {
    match l {
        TextLocation::Inline(x) => TextLocationV::Inline(x@),
        TextLocation::File(x) => TextLocationV::File(x@),
        TextLocation::Snapshot(x) => TextLocationV::Snapshot(x@),
    }
}

/// Where the text is whose lines a diagnostic line counts (see
/// `count_source_spec`); the caller reads it where it is a file or snapshot.
pub fn content_source_line_count(content_json: &str) -> (r: Result<TextLocation, String>)
    ensures
        match (r, count_source_spec(content_json@)) {
            (Ok(x), Ok(y)) => location_view(x) == y,
            (Err(x), Err(y)) => x@ == y,
            _ => false,
        },
{
    proof {
        reveal_strlit("");
        assert(""@ =~= Seq::<char>::empty());
    }
    let t = match json_string_field(content_json, "type") {
        Err(e) => return Err(e),
        Ok(None) => return Err(owned("Missing content source type")),
        Ok(Some(t)) => t,
    };
    if str_eq(t.as_str(), "virtual") {
        match json_string_field(content_json, "text") {
            Err(e) => Err(e),
            Ok(Some(x)) => Ok(TextLocation::Inline(x)),
            Ok(None) => Ok(TextLocation::Inline(owned(""))),
        }
    } else if str_eq(t.as_str(), "path") {
        match json_string_field(content_json, "path") {
            Err(e) => Err(e),
            Ok(Some(x)) => Ok(TextLocation::File(x)),
            Ok(None) => Err(owned("Missing path")),
        }
    } else if str_eq(t.as_str(), "snapshot") {
        match json_string_field(content_json, "snapshot_id") {
            Err(e) => Err(e),
            Ok(Some(x)) => Ok(TextLocation::Snapshot(x)),
            Ok(None) => Err(owned("Missing snapshot_id")),
        }
    } else {
        Err(concat("Unsupported content source type ", t.as_str()))
    }
}

} // verus!
