//! The folder picker: the AppleScript that asks for a folder, and what the
//! picker's output selects.
use vstd::prelude::*;
use crate::text::{chars_of, concat, owned, string_from, trim, trim_of};

verus! {

/// `s` with each `"` written as `\"`.
pub open spec fn escape_quotes(s: Seq<char>) -> Seq<char>
    decreases s.len(),
{
    if s.len() == 0 {
        seq![]
    } else {
        escape_quotes(s.drop_last()) + if s.last() == '"' {
            seq!['\\', '"']
        } else {
            seq![s.last()]
        }
    }
}

/// The AppleScript that asks for a folder, starting at `initial_path` where
/// one is given and not blank.
pub open spec fn choose_folder_spec(initial_path: Option<Seq<char>>) -> Seq<char> {
    "POSIX path of (choose folder"@ + match initial_path {
        Some(p) => if trim(p).len() > 0 {
            " default location POSIX file \""@ + escape_quotes(p) + "\""@
        } else {
            Seq::<char>::empty()
        },
        None => Seq::<char>::empty(),
    } + ")"@
}

fn escape_quotes_of(s: &str) -> (r: String)
    ensures
        r@ == escape_quotes(s@),
{
    let v = chars_of(s);
    let mut out: Vec<char> = Vec::new();
    let mut i: usize = 0;
    assert(v@.take(0) =~= Seq::<char>::empty());
    while i < v.len()
        invariant
            i <= v.len(),
            out@ == escape_quotes(v@.take(i as int)),
        decreases v.len() - i,
    {
        let ghost before = out@;
        let c = v[i];
        if c == '"' {
            out.push('\\');
            out.push('"');
        } else {
            out.push(c);
        }
        assert(v@.take(i + 1).drop_last() =~= v@.take(i as int));
        assert(v@.take(i + 1).last() == c);
        assert(out@ =~= escape_quotes(v@.take(i + 1)));
        i = i + 1;
    }
    assert(v@.take(v.len() as int) =~= v@);
    string_from(&out)
}

/// See `choose_folder_spec`.
pub fn choose_folder_script(initial_path: Option<&str>) -> (r: String)
    ensures
        r@ == choose_folder_spec(
            match initial_path {
                Some(p) => Some(p@),
                None => None,
            },
        ),
{
    let mut script = owned("POSIX path of (choose folder");
    let ghost base = script@;
    match initial_path {
        Some(p) => {
            if trim_of(&chars_of(p)).len() > 0 {
                let a = concat(script.as_str(), " default location POSIX file \"");
                let e = escape_quotes_of(p);
                let b = concat(a.as_str(), e.as_str());
                script = concat(b.as_str(), "\"");
            } else {
                assert(script@ =~= base + Seq::<char>::empty());
            }
        },
        None => {
            assert(script@ =~= base + Seq::<char>::empty());
        },
    }
    concat(script.as_str(), ")")
}

/// The folder a picker's output selects: its trimmed text, or none where that
/// is empty.
pub fn picked_directory(stdout: &str) -> (r: Option<String>)
    ensures
        match r {
            Some(d) => trim(stdout@).len() > 0 && d@ == trim(stdout@),
            None => trim(stdout@).len() == 0,
        },
{
    let t = trim_of(&chars_of(stdout));
    if t.len() == 0 {
        None
    } else {
        Some(string_from(&t))
    }
}

} // verus!
