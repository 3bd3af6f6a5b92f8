//! Running `git` and `p4`: where they run and how a failure reads.
use vstd::prelude::*;
use crate::diff_engine::merge::join;
use crate::text::{chars_of, concat, owned, string_from, trim, trim_of, views};

verus! {

/// The directory a command runs in: the given one where it is not blank.
pub fn effective_cwd(cwd: Option<&str>) -> (r: Option<String>)
    ensures
        match cwd {
            Some(c) => if trim(c@).len() > 0 {
                r matches Some(x) && x@ == c@
            } else {
                r is None
            },
            None => r is None,
        },
{
    match cwd {
        Some(c) => {
            let t = trim_of(&chars_of(c));
            if t.len() > 0 {
                Some(owned(c))
            } else {
                None
            }
        },
        None => None,
    }
}

fn join_spaces(args: &Vec<String>) -> (r: String)
    ensures
        r@ == join(views(args@), " "@),
{
    proof {
        reveal_strlit(" ");
        reveal_strlit("");
    }
    let mut out: String = owned("");
    let mut i: usize = 0;
    let ghost vs = views(args@);
    assert(vs.take(0) =~= Seq::<Seq<char>>::empty());
    while i < args.len()
        invariant
            i <= args.len(),
            vs == views(args@),
            out@ == join(vs.take(i as int), " "@),
        decreases args.len() - i,
    {
        let ghost t = vs.take(i + 1);
        assert(t.drop_last() == vs.take(i as int));
        assert(t.last() == args@[i as int]@);
        if i == 0 {
            out = args[i].clone();
            assert(t.len() == 1);
        } else {
            let a = concat(out.as_str(), " ");
            out = concat(a.as_str(), args[i].as_str());
        }
        i = i + 1;
    }
    assert(vs.take(args.len() as int) == vs);
    out
}

/// The error of a command that exited unsuccessfully: the program, its
/// arguments joined by spaces, and its trimmed error output.
pub fn command_failure_message(program: &str, args: &Vec<String>, stderr: &str) -> (r: String)
    ensures
        r@ == program@ + " "@ + join(views(args@), " "@) + " failed: "@ + trim(stderr@),
{
    let joined = join_spaces(args);
    let a = concat(program, " ");
    let b = concat(a.as_str(), joined.as_str());
    let c = concat(b.as_str(), " failed: ");
    let t = string_from(&trim_of(&chars_of(stderr)));
    concat(c.as_str(), t.as_str())
}

} // verus!
