//! Where the text of one side of a diff comes from, and where a merge result
//! may be written; both are stored as small JSON objects.
use vstd::prelude::*;
use crate::json::{json_str_field, json_string_field, tagged_read, well_keyed};
use crate::paths::{path_is_absolute, path_join, path_parent, plain_relative};
use crate::text::{chars_of, concat, owned, str_eq, string_from};

verus! {

/// Where the text of one side comes from.
#[derive(Debug, Clone, PartialEq, Eq)]
pub enum ContentSource {
    Virtual { text: String },
    Path { path: String },
    Snapshot { snapshot_id: String },
}

/// Where a merge result may be written.
#[derive(Debug, Clone, PartialEq, Eq)]
pub enum WriteTarget {
    Path { path: String },
    SaveAsRequired,
    ReadOnly,
}

pub enum SourceV {
    Virtual(Seq<char>),
    Path(Seq<char>),
    Snapshot(Seq<char>),
}

pub enum TargetV {
    Path(Seq<char>),
    SaveAsRequired,
    ReadOnly,
}

impl View for ContentSource {
    type V = SourceV;

    open spec fn view(&self) -> SourceV {
        match self {
            ContentSource::Virtual { text } => SourceV::Virtual(text@),
            ContentSource::Path { path } => SourceV::Path(path@),
            ContentSource::Snapshot { snapshot_id } => SourceV::Snapshot(snapshot_id@),
        }
    }
}

impl View for WriteTarget {
    type V = TargetV;

    open spec fn view(&self) -> TargetV {
        match self {
            WriteTarget::Path { path } => TargetV::Path(path@),
            WriteTarget::SaveAsRequired => TargetV::SaveAsRequired,
            WriteTarget::ReadOnly => TargetV::ReadOnly,
        }
    }
}

pub open spec fn hex_digit(d: nat) -> char {
    if d < 10 {
        crate::text::digit_char(d)
    } else if d == 10 {
        'a'
    } else if d == 11 {
        'b'
    } else if d == 12 {
        'c'
    } else if d == 13 {
        'd'
    } else if d == 14 {
        'e'
    } else {
        'f'
    }
}

/// How a character is written inside a JSON string: quote and backslash
/// escaped, the control characters with a short escape where JSON has one and
/// as `\u00XX` (lower-case hex) otherwise, everything else as it is.
pub open spec fn json_escape_char(c: char) -> Seq<char> {
    let u = c as u32;
    if c == '"' {
        seq!['\\', '"']
    } else if c == '\\' {
        seq!['\\', '\\']
    } else if u == 8 {
        seq!['\\', 'b']
    } else if u == 9 {
        seq!['\\', 't']
    } else if u == 10 {
        seq!['\\', 'n']
    } else if u == 12 {
        seq!['\\', 'f']
    } else if u == 13 {
        seq!['\\', 'r']
    } else if u < 0x20 {
        seq!['\\', 'u', '0', '0', hex_digit((u / 16) as nat), hex_digit((u % 16) as nat)]
    } else {
        seq![c]
    }
}

pub open spec fn json_escape(s: Seq<char>) -> Seq<char>
    decreases s.len(),
{
    if s.len() == 0 {
        seq![]
    } else {
        json_escape(s.drop_last()) + json_escape_char(s.last())
    }
}

/// A JSON string literal holding `s`.
pub open spec fn json_string(s: Seq<char>) -> Seq<char> {
    seq!['"'] + json_escape(s) + seq!['"']
}

/// `{"type":"<tag>"}`, or with one more field `{"type":"<tag>","<key>":<value>}`.
pub open spec fn json_tagged(tag: Seq<char>, field: Option<(Seq<char>, Seq<char>)>) -> Seq<char> {
    match field {
        None => "{\"type\":"@ + json_string(tag) + "}"@,
        Some((k, v)) => "{\"type\":"@ + json_string(tag) + ","@ + json_string(k) + ":"@ + json_string(v)
            + "}"@,
    }
}

/// The JSON form of a content source.
pub open spec fn source_json(s: SourceV) -> Seq<char> {
    match s {
        SourceV::Virtual(t) => json_tagged("virtual"@, Some(("text"@, t))),
        SourceV::Path(p) => json_tagged("path"@, Some(("path"@, p))),
        SourceV::Snapshot(i) => json_tagged("snapshot"@, Some(("snapshot_id"@, i))),
    }
}

/// The JSON form of a write target.
pub open spec fn target_json(t: TargetV) -> Seq<char> {
    match t {
        TargetV::Path(p) => json_tagged("path"@, Some(("path"@, p))),
        TargetV::SaveAsRequired => json_tagged("save_as_required"@, None),
        TargetV::ReadOnly => json_tagged("read_only"@, None),
    }
}

fn hex_of(d: u32) -> (c: char)
    requires
        d < 16,
    ensures
        c == hex_digit(d as nat),
{
    if d == 0 { '0' } else if d == 1 { '1' } else if d == 2 { '2' } else if d == 3 { '3' }
    else if d == 4 { '4' } else if d == 5 { '5' } else if d == 6 { '6' } else if d == 7 { '7' }
    else if d == 8 { '8' } else if d == 9 { '9' } else if d == 10 { 'a' } else if d == 11 { 'b' }
    else if d == 12 { 'c' } else if d == 13 { 'd' } else if d == 14 { 'e' } else { 'f' }
}

pub fn push_all(out: &mut Vec<char>, s: &str)
    ensures
        final(out)@ == old(out)@ + s@,
{
    let w = chars_of(s);
    let mut k: usize = 0;
    while k < w.len()
        invariant
            k <= w.len(),
            out@ == old(out)@ + w@.take(k as int),
        decreases w.len() - k,
    {
        out.push(w[k]);
        assert(w@.take(k + 1) == w@.take(k as int).push(w[k as int]));
        k = k + 1;
    }
    assert(w@.take(w.len() as int) == w@);
}

pub fn push_json_string(out: &mut Vec<char>, s: &str)
    ensures
        final(out)@ == old(out)@ + json_string(s@),
{
    let v = chars_of(s);
    out.push('"');
    let ghost base = out@;
    let mut i: usize = 0;
    assert(v@.take(0) =~= Seq::<char>::empty());
    while i < v.len()
        invariant
            i <= v.len(),
            out@ == base + json_escape(v@.take(i as int)),
        decreases v.len() - i,
    {
        let c = v[i];
        let u = c as u32;
        let ghost before = out@;
        if c == '"' {
            out.push('\\');
            out.push('"');
        } else if c == '\\' {
            out.push('\\');
            out.push('\\');
        } else if u == 8 {
            out.push('\\');
            out.push('b');
        } else if u == 9 {
            out.push('\\');
            out.push('t');
        } else if u == 10 {
            out.push('\\');
            out.push('n');
        } else if u == 12 {
            out.push('\\');
            out.push('f');
        } else if u == 13 {
            out.push('\\');
            out.push('r');
        } else if u < 0x20 {
            out.push('\\');
            out.push('u');
            out.push('0');
            out.push('0');
            out.push(hex_of(u / 16));
            out.push(hex_of(u % 16));
        } else {
            out.push(c);
        }
        proof {
            assert(v@.take(i + 1).drop_last() == v@.take(i as int));
            assert(v@.take(i + 1).last() == c);
            assert(out@ =~= before + json_escape_char(c));
        }
        i = i + 1;
    }
    assert(v@.take(v.len() as int) == v@);
    out.push('"');
    assert(out@ =~= old(out)@ + json_string(s@));
}

fn tagged_json(tag: &str, field: Option<(&str, &str)>) -> (r: String)
    ensures
        r@ == json_tagged(
            tag@,
            match field {
                Some((k, v)) => Some((k@, v@)),
                None => None,
            },
        ),
{
    let mut out: Vec<char> = Vec::new();
    push_all(&mut out, "{\"type\":");
    push_json_string(&mut out, tag);
    match field {
        Some((k, v)) => {
            push_all(&mut out, ",");
            push_json_string(&mut out, k);
            push_all(&mut out, ":");
            push_json_string(&mut out, v);
        },
        None => {},
    }
    push_all(&mut out, "}");
    proof {
        assert(out@ =~= json_tagged(
            tag@,
            match field {
                Some((k, v)) => Some((k@, v@)),
                None => None,
            },
        ));
    }
    string_from(&out)
}


/// The string field `key` of `json`, or the error `missing`: the parser's
/// message where `json` is not JSON, `missing` where the field is absent or
/// not a string.
pub open spec fn required_field(json: Seq<char>, key: Seq<char>, missing: Seq<char>) -> Result<
    Seq<char>,
    Seq<char>,
> {
    match json_str_field(json, key) {
        Ok(Some(v)) => Ok(v),
        Ok(None) => Err(missing),
        Err(e) => Err(e),
    }
}

pub open spec fn missing_field(key: Seq<char>) -> Seq<char> {
    "missing field `"@ + key + "`"@
}

/// A content source read from its JSON form (see `ContentSource::to_json_string`).
pub open spec fn source_from_json(json: Seq<char>) -> Result<SourceV, Seq<char>> {
    match required_field(json, "type"@, missing_field("type"@)) {
        Err(e) => Err(e),
        Ok(t) => if t == "virtual"@ {
            match required_field(json, "text"@, missing_field("text"@)) {
                Ok(x) => Ok(SourceV::Virtual(x)),
                Err(e) => Err(e),
            }
        } else if t == "path"@ {
            match required_field(json, "path"@, missing_field("path"@)) {
                Ok(x) => Ok(SourceV::Path(x)),
                Err(e) => Err(e),
            }
        } else if t == "snapshot"@ {
            match required_field(json, "snapshot_id"@, missing_field("snapshot_id"@)) {
                Ok(x) => Ok(SourceV::Snapshot(x)),
                Err(e) => Err(e),
            }
        } else {
            Err("unknown variant `"@ + t + "`, expected one of `virtual`, `path`, `snapshot`"@)
        },
    }
}

/// A write target read from its JSON form (see `WriteTarget::to_json_string`).
pub open spec fn target_from_json(json: Seq<char>) -> Result<TargetV, Seq<char>> {
    match required_field(json, "type"@, missing_field("type"@)) {
        Err(e) => Err(e),
        Ok(t) => if t == "path"@ {
            match required_field(json, "path"@, missing_field("path"@)) {
                Ok(x) => Ok(TargetV::Path(x)),
                Err(e) => Err(e),
            }
        } else if t == "save_as_required"@ {
            Ok(TargetV::SaveAsRequired)
        } else if t == "read_only"@ {
            Ok(TargetV::ReadOnly)
        } else {
            Err("unknown variant `"@ + t + "`, expected one of `path`, `save_as_required`, `read_only`"@)
        },
    }
}

/// The string field `key` of `json`, or the error `missing` (see
/// `required_field`).
pub fn required_field_of(json: &str, key: &str, missing: String) -> (r: Result<String, String>)
    ensures
        match (r, required_field(json@, key@, missing@)) {
            (Ok(x), Ok(y)) => x@ == y,
            (Err(x), Err(y)) => x@ == y,
            _ => false,
        },
        forall|tag: Seq<char>, field: Option<(Seq<char>, Seq<char>)>|
            #[trigger] json_tagged(tag, field) == json@ && well_keyed(field) ==> match tagged_read(
                tag,
                field,
                key@,
            ) {
                Some(v) => r matches Ok(x) && x@ == v,
                None => r matches Err(e) && e@ == missing@,
            },
{
    match json_string_field(json, key) {
        Ok(Some(v)) => Ok(v),
        Ok(None) => Err(missing),
        Err(e) => Err(e),
    }
}

fn missing_field_of(key: &str) -> (r: String)
    ensures
        r@ == missing_field(key@),
{
    let a = concat("missing field `", key);
    concat(a.as_str(), "`")
}

/// Where `resolve_text` finds the text of a content source: the text itself,
/// a file to read, or a snapshot (by its id) in the snapshot directory.
#[derive(Debug, Clone, PartialEq, Eq)]
pub enum TextLocation {
    Inline(String),
    File(String),
    Snapshot(String),
}

/// `loc` is where the text of `src` is.
pub open spec fn location_of(src: SourceV, loc: TextLocation) -> bool {
    match (src, loc) {
        (SourceV::Virtual(t), TextLocation::Inline(x)) => x@ == t,
        (SourceV::Path(p), TextLocation::File(x)) => x@ == p,
        (SourceV::Snapshot(i), TextLocation::Snapshot(x)) => x@ == i,
        _ => false,
    }
}

proof fn lemma_source_tags()
    ensures
        "virtual"@ != "path"@,
        "virtual"@ != "snapshot"@,
        "path"@ != "snapshot"@,
        "text"@ != "type"@,
        "path"@ != "type"@,
        "snapshot_id"@ != "type"@,
{
    reveal_strlit("virtual");
    reveal_strlit("path");
    reveal_strlit("snapshot");
    reveal_strlit("text");
    reveal_strlit("type");
    reveal_strlit("snapshot_id");
    assert("virtual"@.len() != "path"@.len());
    assert("virtual"@.len() != "snapshot"@.len());
    assert("path"@.len() != "snapshot"@.len());
    assert("text"@[1] != "type"@[1]);
    assert("path"@[0] != "type"@[0]);
    assert("snapshot_id"@.len() != "type"@.len());
}

proof fn lemma_target_tags()
    ensures
        "path"@ != "save_as_required"@,
        "path"@ != "read_only"@,
        "save_as_required"@ != "read_only"@,
        "path"@ != "type"@,
{
    reveal_strlit("path");
    reveal_strlit("save_as_required");
    reveal_strlit("read_only");
    reveal_strlit("type");
    assert("path"@.len() != "save_as_required"@.len());
    assert("path"@.len() != "read_only"@.len());
    assert("save_as_required"@.len() != "read_only"@.len());
    assert("path"@[0] != "type"@[0]);
}

impl ContentSource {

    /// Reads a content source from its JSON form (see `source_from_json`): the
    /// `type` member picks the variant and its one string member is read by
    /// name through `serde_json::Value`. It reads the objects that
    /// `to_json_string` writes; it does not take serde's array form of a
    /// tagged enum, a repeated member reads as its last value, and errors
    /// carry no line and column.
    pub fn from_json(json: &str) -> (r: Result<Self, String>)
        ensures
            match (r, source_from_json(json@)) {
                (Ok(x), Ok(y)) => x@ == y,
                (Err(x), Err(y)) => x@ == y,
                _ => false,
            },
            forall|s: SourceV| #[trigger] source_json(s) == json@ ==> (r matches Ok(x) && x@ == s),
    {
        proof {
            lemma_source_tags();
        }
        let t = match required_field_of(json, "type", missing_field_of("type")) {
            Ok(t) => t,
            Err(e) => return Err(e),
        };
        if str_eq(t.as_str(), "virtual") {
            match required_field_of(json, "text", missing_field_of("text")) {
                Ok(x) => Ok(ContentSource::Virtual { text: x }),
                Err(e) => Err(e),
            }
        } else if str_eq(t.as_str(), "path") {
            match required_field_of(json, "path", missing_field_of("path")) {
                Ok(x) => Ok(ContentSource::Path { path: x }),
                Err(e) => Err(e),
            }
        } else if str_eq(t.as_str(), "snapshot") {
            match required_field_of(json, "snapshot_id", missing_field_of("snapshot_id")) {
                Ok(x) => Ok(ContentSource::Snapshot { snapshot_id: x }),
                Err(e) => Err(e),
            }
        } else {
            let a = concat("unknown variant `", t.as_str());
            Err(concat(a.as_str(), "`, expected one of `virtual`, `path`, `snapshot`"))
        }
    }

    pub fn virtual_text(text: String) -> (r: Self)
        ensures
            r@ == SourceV::Virtual(text@),
    {
        ContentSource::Virtual { text }
    }

    pub fn path(path: String) -> (r: Self)
        ensures
            r@ == SourceV::Path(path@),
    {
        ContentSource::Path { path }
    }

    pub fn snapshot(snapshot_id: String) -> (r: Self)
        ensures
            r@ == SourceV::Snapshot(snapshot_id@),
    {
        ContentSource::Snapshot { snapshot_id }
    }

    /// The JSON form: `{"type":"virtual","text":..}`, `{"type":"path","path":..}`
    /// or `{"type":"snapshot","snapshot_id":..}`.
    pub fn to_json_string(&self) -> (r: String)
        ensures
            r@ == source_json(self@),
    {
        match self {
            ContentSource::Virtual { text } => tagged_json("virtual", Some(("text", text.as_str()))),
            ContentSource::Path { path } => tagged_json("path", Some(("path", path.as_str()))),
            ContentSource::Snapshot { snapshot_id } => tagged_json(
                "snapshot",
                Some(("snapshot_id", snapshot_id.as_str())),
            ),
        }
    }

    /// Where the text of this source is: a virtual source holds it, a path
    /// source names the file to read, a snapshot source the snapshot.
    pub fn resolve_text(&self) -> (r: TextLocation)
        ensures
            location_of(self@, r),
    {
        match self {
            ContentSource::Virtual { text } => TextLocation::Inline(text.clone()),
            ContentSource::Path { path } => TextLocation::File(path.clone()),
            ContentSource::Snapshot { snapshot_id } => TextLocation::Snapshot(snapshot_id.clone()),
        }
    }

    /// Where the text of the content source written as `json` is (see
    /// `source_from_json` and `resolve_text`).
    pub fn resolve_json_text(json: &str) -> (r: Result<TextLocation, String>)
        ensures
            match (r, source_from_json(json@)) {
                (Ok(loc), Ok(src)) => location_of(src, loc),
                (Err(x), Err(y)) => x@ == y,
                _ => false,
            },
    {
        match ContentSource::from_json(json) {
            Ok(src) => Ok(src.resolve_text()),
            Err(e) => Err(e),
        }
    }
}

impl WriteTarget {

    /// Reads a write target from its JSON form (see `target_from_json`), as
    /// `ContentSource::from_json` reads a content source.
    pub fn from_json(json: &str) -> (r: Result<Self, String>)
        ensures
            match (r, target_from_json(json@)) {
                (Ok(x), Ok(y)) => x@ == y,
                (Err(x), Err(y)) => x@ == y,
                _ => false,
            },
            forall|t: TargetV| #[trigger] target_json(t) == json@ ==> (r matches Ok(x) && x@ == t),
    {
        proof {
            lemma_target_tags();
        }
        let t = match required_field_of(json, "type", missing_field_of("type")) {
            Ok(t) => t,
            Err(e) => return Err(e),
        };
        if str_eq(t.as_str(), "path") {
            match required_field_of(json, "path", missing_field_of("path")) {
                Ok(x) => Ok(WriteTarget::Path { path: x }),
                Err(e) => Err(e),
            }
        } else if str_eq(t.as_str(), "save_as_required") {
            Ok(WriteTarget::SaveAsRequired)
        } else if str_eq(t.as_str(), "read_only") {
            Ok(WriteTarget::ReadOnly)
        } else {
            let a = concat("unknown variant `", t.as_str());
            Err(concat(a.as_str(), "`, expected one of `path`, `save_as_required`, `read_only`"))
        }
    }

    pub fn path(path: String) -> (r: Self)
        ensures
            r@ == TargetV::Path(path@),
    {
        WriteTarget::Path { path }
    }

    /// The JSON form: `{"type":"path","path":..}`, `{"type":"save_as_required"}`
    /// or `{"type":"read_only"}`.
    pub fn to_json_string(&self) -> (r: String)
        ensures
            r@ == target_json(self@),
    {
        match self {
            WriteTarget::Path { path } => tagged_json("path", Some(("path", path.as_str()))),
            WriteTarget::SaveAsRequired => tagged_json("save_as_required", None),
            WriteTarget::ReadOnly => tagged_json("read_only", None),
        }
    }
}


/// Where a "save as" writes: a path resolved here, or a relative path that
/// the caller resolves against its working directory.
#[derive(Debug, Clone, PartialEq, Eq)]
pub enum SaveAsTarget {
    Resolved(String),
    InWorkingDirectory(String),
}

impl WriteTarget {
    /// Where "save as" with `requested_path` writes, for a file diff whose
    /// write target is `write_target_json`: an absolute path as it is; a
    /// relative one next to the target file where the target is a path with
    /// a parent directory; else relative to the working directory. What is
    /// absolute, what a parent is and how paths join are the platform's.
    pub fn resolve_save_as_target_json(write_target_json: &str, requested_path: &str) -> (r: SaveAsTarget)
        ensures
            r matches SaveAsTarget::InWorkingDirectory(p) ==> p@ == requested_path@,
            !(target_from_json(write_target_json@) matches Ok(TargetV::Path(_))) ==> (match r {
                SaveAsTarget::InWorkingDirectory(p) => p@ == requested_path@,
                SaveAsTarget::Resolved(p) => p@ == requested_path@,
            }),
            !(target_from_json(write_target_json@) matches Ok(TargetV::Path(_))) && plain_relative(
                requested_path@,
            ) ==> r is InWorkingDirectory,
    {
        if path_is_absolute(requested_path) {
            return SaveAsTarget::Resolved(owned(requested_path));
        }
        if let Ok(WriteTarget::Path { path }) = WriteTarget::from_json(write_target_json) {
            if let Some(parent) = path_parent(path.as_str()) {
                return SaveAsTarget::Resolved(path_join(parent.as_str(), requested_path));
            }
        }
        SaveAsTarget::InWorkingDirectory(owned(requested_path))
    }
}

} // verus!
