//! Reading one string field of a stored JSON object, and writing the small
//! JSON objects that describe where a diff set came from.
use vstd::prelude::*;
use crate::content_source::{json_string, json_tagged, push_all, push_json_string};
use crate::text::{decimal, push_decimal, string_from};

verus! {

/// What `serde_json` makes of the text `json` as a JSON value, asked for its
/// field `key` as a string: `Err` with the parser's message where `json` is
/// not JSON, `Ok(None)` where it is not an object, has no such field, or the
/// field is not a string, and `Ok(Some(text))` otherwise.
pub uninterp spec fn json_str_field(json: Seq<char>, key: Seq<char>) -> Result<Option<Seq<char>>, Seq<char>>;

pub open spec fn field_view(r: Result<Option<String>, String>) -> Result<Option<Seq<char>>, Seq<char>> {
    match r {
        Ok(Some(s)) => Ok(Some(s@)),
        Ok(None) => Ok(None),
        Err(e) => Err(e@),
    }
}

/// The string that the object `json_tagged(tag, field)` holds under `key`:
/// the tag under `type`, the field's value under its key, none otherwise.
pub open spec fn tagged_read(tag: Seq<char>, field: Option<(Seq<char>, Seq<char>)>, key: Seq<char>) -> Option<
    Seq<char>,
> {
    if key == "type"@ {
        Some(tag)
    } else {
        match field {
            Some((k, v)) => if key == k {
                Some(v)
            } else {
                None
            },
            None => None,
        }
    }
}

/// The extra member of a tagged object is not a second `type`.
pub open spec fn well_keyed(field: Option<(Seq<char>, Seq<char>)>) -> bool {
    match field {
        Some((k, _)) => k != "type"@,
        None => true,
    }
}

/// `res` is what a tagged object written as `json` holds under `key`, where
/// `json` is one (see `tagged_read`).
pub open spec fn reads_tagged(json: Seq<char>, key: Seq<char>, res: Result<Option<Seq<char>>, Seq<char>>) -> bool {
    forall|tag: Seq<char>, field: Option<(Seq<char>, Seq<char>)>|
        #[trigger] json_tagged(tag, field) == json && well_keyed(field) ==> res == Ok::<
            Option<Seq<char>>,
            Seq<char>,
        >(tagged_read(tag, field, key))
}

/// `serde_json::from_str::<serde_json::Value>` on `json`, then `Value::get`
/// with `key` and `Value::as_str`; a parse error is handed back as its
/// message. The result is `json_str_field(json, key)`. Where `json` is an
/// object of string members written as `json_tagged` writes it (valid JSON:
/// quote, backslash and control characters escaped), `serde_json` reads each
/// member back as the string written, and any other key as absent.
#[verifier::external_body]
pub(crate) fn json_string_field(json: &str, key: &str) -> (r: Result<Option<String>, String>)
    ensures
        field_view(r) == json_str_field(json@, key@),
        reads_tagged(json@, key@, field_view(r)),
{
    match serde_json::from_str::<serde_json::Value>(json) {
        Ok(value) => Ok(value.get(key).and_then(|v| v.as_str()).map(|v| v.to_string())),
        Err(err) => Err(err.to_string()),
    }
}


/// A JSON value that a metadata object holds: a string, a count, or null.
#[derive(Debug)]
pub enum JsonScalar {
    Str(String),
    Num(u64),
    Null,
}

pub enum ScalarV {
    Str(Seq<char>),
    Num(nat),
    Null,
}

impl View for JsonScalar {
    type V = ScalarV;

    open spec fn view(&self) -> ScalarV {
        match self {
            JsonScalar::Str(s) => ScalarV::Str(s@),
            JsonScalar::Num(n) => ScalarV::Num(*n as nat),
            JsonScalar::Null => ScalarV::Null,
        }
    }
}

pub open spec fn scalar_json(v: ScalarV) -> Seq<char> {
    match v {
        ScalarV::Str(s) => json_string(s),
        ScalarV::Num(n) => decimal(n),
        ScalarV::Null => "null"@,
    }
}

pub open spec fn field_views(fields: Seq<(&str, JsonScalar)>) -> Seq<(Seq<char>, ScalarV)> {
    fields.map_values(|f: (&str, JsonScalar)| (f.0@, f.1@))
}

/// The members `"key":value` of `fields`, separated by commas.
pub open spec fn members_json(fields: Seq<(Seq<char>, ScalarV)>) -> Seq<char>
    decreases fields.len(),
{
    if fields.len() == 0 {
        seq![]
    } else if fields.len() == 1 {
        json_string(fields[0].0) + ":"@ + scalar_json(fields[0].1)
    } else {
        members_json(fields.drop_last()) + ","@ + json_string(fields.last().0) + ":"@ + scalar_json(
            fields.last().1,
        )
    }
}

/// The compact JSON object with `fields`, in the order given.
pub open spec fn object_json(fields: Seq<(Seq<char>, ScalarV)>) -> Seq<char> {
    "{"@ + members_json(fields) + "}"@
}

/// Writes the compact JSON object with `fields` in the order given (see
/// `object_json`); callers give the keys in sorted order, as `serde_json`
/// writes the objects of its `json!` values.
pub fn json_object(fields: &Vec<(&str, JsonScalar)>) -> (r: String)
    ensures
        r@ == object_json(field_views(fields@)),
{
    proof {
        reveal_strlit("{");
        reveal_strlit("}");
        reveal_strlit(",");
        reveal_strlit(":");
        reveal_strlit("null");
    }
    let ghost fv = field_views(fields@);
    let mut out: Vec<char> = Vec::new();
    out.push('{');
    let mut i: usize = 0;
    assert(fv.take(0) =~= Seq::<(Seq<char>, ScalarV)>::empty());
    assert(out@ =~= "{"@ + members_json(fv.take(0)));
    while i < fields.len()
        invariant
            i <= fields.len(),
            fv == field_views(fields@),
            out@ == "{"@ + members_json(fv.take(i as int)),
            "{"@ == seq!['{'],
            ","@ == seq![','],
            ":"@ == seq![':'],
        decreases fields.len() - i,
    {
        let ghost before = out@;
        if i > 0 {
            out.push(',');
        }
        let ghost mid = out@;
        push_json_string(&mut out, fields[i].0);
        out.push(':');
        let ghost mid2 = out@;
        match &fields[i].1 {
            JsonScalar::Str(s) => push_json_string(&mut out, s.as_str()),
            JsonScalar::Num(n) => push_decimal(&mut out, *n),
            JsonScalar::Null => push_all(&mut out, "null"),
        }
        proof {
            let t = fv.take(i + 1);
            assert(t.drop_last() =~= fv.take(i as int));
            assert(t.last() == fv[i as int]);
            assert(fv[i as int] == (fields@[i as int].0@, fields@[i as int].1@));
            assert(out@ =~= mid2 + scalar_json(fv[i as int].1));
            assert(mid2 =~= mid + json_string(fv[i as int].0) + ":"@);
            if i == 0 {
                assert(before =~= "{"@);
                assert(t.len() == 1);
                assert(out@ =~= "{"@ + members_json(t));
            } else {
                assert(mid =~= before + ","@);
                assert(out@ =~= "{"@ + members_json(t));
            }
        }
        i = i + 1;
    }
    out.push('}');
    assert(fv.take(fields.len() as int) =~= fv);
    assert(out@ =~= object_json(fv));
    string_from(&out)
}

} // verus!
