//! What the command line asks the application to open.
use vstd::prelude::*;
use crate::text::{chars_of, ends_with, has_suffix, str_eq};

verus! {

/// A request to open a patch, a two-way compare, a merge or a set of files.
#[derive(Debug, Clone)]
pub enum OpenRequest {
    OpenPatch { path: String },
    OpenTwoWay {
        left_path: String,
        right_path: String,
        title: Option<String>,
        left_label: Option<String>,
        right_label: Option<String>,
    },
    OpenMerge {
        base_path: String,
        local_path: String,
        remote_path: String,
        merged_path: String,
        title: Option<String>,
    },
    OpenFiles { paths: Vec<String> },
}

/// Model of a request: its paths, and its optional title and labels.
pub enum RequestV {
    Patch(Seq<char>),
    TwoWay {
        left: Seq<char>,
        right: Seq<char>,
        title: Option<Seq<char>>,
        left_label: Option<Seq<char>>,
        right_label: Option<Seq<char>>,
    },
    Merge {
        base: Seq<char>,
        local: Seq<char>,
        remote: Seq<char>,
        merged: Seq<char>,
        title: Option<Seq<char>>,
    },
    Files(Seq<Seq<char>>),
}

pub open spec fn opt_text(o: Option<String>) -> Option<Seq<char>> {
    match o {
        Some(s) => Some(s@),
        None => None,
    }
}

/// A two-way request between two paths, with no title or labels.
pub open spec fn plain_two_way(left: Seq<char>, right: Seq<char>) -> RequestV {
    RequestV::TwoWay { left, right, title: None, left_label: None, right_label: None }
}

pub open spec fn arg_views(v: Seq<String>) -> Seq<Seq<char>> {
    v.map_values(|x: String| x@)
}

impl OpenRequest {
    /// The request as a model.
    pub open spec fn model(&self) -> RequestV {
        match self {
            OpenRequest::OpenPatch { path } => RequestV::Patch(path@),
            OpenRequest::OpenTwoWay { left_path, right_path, title, left_label, right_label } => {
                RequestV::TwoWay {
                    left: left_path@,
                    right: right_path@,
                    title: opt_text(*title),
                    left_label: opt_text(*left_label),
                    right_label: opt_text(*right_label),
                }
            },
            OpenRequest::OpenMerge { base_path, local_path, remote_path, merged_path, title } => {
                RequestV::Merge {
                    base: base_path@,
                    local: local_path@,
                    remote: remote_path@,
                    merged: merged_path@,
                    title: opt_text(*title),
                }
            },
            OpenRequest::OpenFiles { paths } => RequestV::Files(arg_views(paths@)),
        }
    }
}

/// Arguments that cargo or tauri pass through and that name nothing to open.
pub open spec fn is_passthrough(a: Seq<char>) -> bool {
    a == "--"@ || a == "--debug"@ || a == "--no-default-features"@ || a == "--release"@
}

/// The arguments without pass-through flags; `--color` takes its value along.
pub open spec fn clean(raw: Seq<Seq<char>>) -> Seq<Seq<char>>
    decreases raw.len(),
{
    if raw.len() == 0 {
        seq![]
    } else if is_passthrough(raw[0]) {
        clean(raw.drop_first())
    } else if raw[0] == "--color"@ {
        if raw.len() >= 2 {
            clean(raw.skip(2))
        } else {
            seq![]
        }
    } else {
        seq![raw[0]] + clean(raw.drop_first())
    }
}

/// Index of the first argument equal to `flag`, or -1.
pub open spec fn position(args: Seq<Seq<char>>, flag: Seq<char>) -> int
    decreases args.len(),
{
    if args.len() == 0 {
        -1
    } else if args[0] == flag {
        0
    } else {
        let p = position(args.drop_first(), flag);
        if p < 0 {
            -1
        } else {
            p + 1
        }
    }
}

/// The argument after the first `flag`.
pub open spec fn value_of(args: Seq<Seq<char>>, flag: Seq<char>) -> Option<Seq<char>> {
    let p = position(args, flag);
    if p >= 0 && p + 1 < args.len() {
        Some(args[p + 1])
    } else {
        None
    }
}

pub open spec fn is_patch_name(p: Seq<char>) -> bool {
    has_suffix(p, ".diff"@) || has_suffix(p, ".patch"@)
}

/// What the arguments (program name first) ask to open.
pub open spec fn parse_argv_spec(args: Seq<Seq<char>>) -> Option<RequestV> {
    if args.len() < 2 {
        None
    } else {
        let c = clean(args.drop_first());
        if c.len() >= 3 && c[0] == "--diff"@ {
            Some(plain_two_way(c[1], c[2]))
        } else if position(c, "--merge"@) >= 0 && value_of(c, "--base"@) is Some && value_of(
            c,
            "--local"@,
        ) is Some && value_of(c, "--remote"@) is Some && value_of(c, "--merged"@) is Some {
            Some(
                RequestV::Merge {
                    base: value_of(c, "--base"@)->0,
                    local: value_of(c, "--local"@)->0,
                    remote: value_of(c, "--remote"@)->0,
                    merged: value_of(c, "--merged"@)->0,
                    title: None,
                },
            )
        } else if c.len() >= 2 && c[0] == "--open"@ {
            Some(RequestV::Patch(c[1]))
        } else if c.len() == 1 && is_patch_name(c[0]) {
            Some(RequestV::Patch(c[0]))
        } else if c.len() == 2 {
            Some(plain_two_way(c[0], c[1]))
        } else if c.len() > 0 {
            Some(RequestV::Files(c))
        } else {
            None
        }
    }
}

proof fn lemma_position(args: Seq<Seq<char>>, flag: Seq<char>, k: int)
    requires
        -1 <= k < args.len(),
        k >= 0 ==> args[k] == flag,
        forall|i: int| 0 <= i < args.len() && (k < 0 || i < k) ==> args[i] != flag,
    ensures
        position(args, flag) == k,
    decreases args.len(),
{
    if args.len() > 0 && args[0] != flag {
        let d = args.drop_first();
        assert forall|i: int| 0 <= i < d.len() && (k - 1 < 0 || i < k - 1) implies d[i] != flag by {
            assert(d[i] == args[i + 1]);
        }
        if k >= 0 {
            assert(d[k - 1] == args[k]);
            lemma_position(d, flag, k - 1);
        } else {
            lemma_position(d, flag, -1);
        }
    }
}

fn position_exec(args: &Vec<String>, flag: &str) -> (r: Option<usize>)
    ensures
        match r {
            Some(k) => position(arg_views(args@), flag@) == k as int && k < args.len(),
            None => position(arg_views(args@), flag@) == -1,
        },
{
    let ghost av = arg_views(args@);
    let mut i: usize = 0;
    while i < args.len()
        invariant
            i <= args.len(),
            av == arg_views(args@),
            forall|k: int| 0 <= k < i ==> av[k] != flag@,
        decreases args.len() - i,
    {
        if str_eq(args[i].as_str(), flag) {
            proof {
                lemma_position(av, flag@, i as int);
            }
            return Some(i);
        }
        i = i + 1;
    }
    proof {
        lemma_position(av, flag@, -1);
    }
    None
}

fn value_exec(args: &Vec<String>, flag: &str) -> (r: Option<String>)
    ensures
        match r {
            Some(v) => value_of(arg_views(args@), flag@) == Some(v@),
            None => value_of(arg_views(args@), flag@) is None,
        },
{
    match position_exec(args, flag) {
        Some(k) => {
            if k + 1 < args.len() {
                Some(args[k + 1].clone())
            } else {
                None
            }
        },
        None => None,
    }
}

fn is_passthrough_exec(a: &String) -> (b: bool)
    ensures
        b == is_passthrough(a@),
{
    let s = a.as_str();
    str_eq(s, "--") || str_eq(s, "--debug") || str_eq(s, "--no-default-features") || str_eq(
        s,
        "--release",
    )
}

fn clean_exec(args: &[String]) -> (c: Vec<String>)
    requires
        args@.len() >= 1,
    ensures
        arg_views(c@) == clean(arg_views(args@).drop_first()),
{
    let ghost raw = arg_views(args@).drop_first();
    let mut cleaned: Vec<String> = Vec::new();
    let mut i: usize = 1;
    assert(raw.skip(0) == raw);
    assert(arg_views(cleaned@) =~= Seq::<Seq<char>>::empty());
    while i < args.len()
        invariant
            1 <= i <= args@.len() + 1,
            raw == arg_views(args@).drop_first(),
            i <= args@.len() || i == args@.len() + 1,
            arg_views(cleaned@) + clean(if i <= args@.len() {
                raw.skip(i - 1)
            } else {
                Seq::<Seq<char>>::empty()
            }) == clean(raw),
        decreases args@.len() + 1 - i,
    {
        let ghost t = raw.skip(i - 1);
        assert(t[0] == args@[i as int]@);
        let a = &args[i];
        if is_passthrough_exec(a) {
            assert(t.drop_first() == raw.skip(i as int));
            i = i + 1;
        } else if str_eq(a.as_str(), "--color") {
            proof {
                reveal_strlit("--color");
                reveal_strlit("--");
                reveal_strlit("--debug");
                reveal_strlit("--no-default-features");
                reveal_strlit("--release");
                assert(!is_passthrough(t[0]));
            }
            if i + 1 < args.len() {
                assert(t.skip(2) == raw.skip(i + 1));
                i = i + 2;
            } else {
                assert(clean(t) == Seq::<Seq<char>>::empty());
                assert(arg_views(cleaned@) + Seq::<Seq<char>>::empty() == arg_views(cleaned@));
                return cleaned;
            }
        } else {
            let ghost prev = cleaned@;
            cleaned.push(a.clone());
            assert(t.drop_first() == raw.skip(i as int));
            assert(arg_views(cleaned@) =~= arg_views(prev).push(a@));
            assert(arg_views(cleaned@) + clean(raw.skip(i as int)) =~= arg_views(prev) + (seq![a@]
                + clean(t.drop_first())));
            i = i + 1;
        }
    }
    assert(raw.skip(raw.len() as int) =~= Seq::<Seq<char>>::empty());
    assert(arg_views(cleaned@) + Seq::<Seq<char>>::empty() == arg_views(cleaned@));
    cleaned
}

fn two_way(left: String, right: String) -> (r: OpenRequest)
    ensures
        r.model() == plain_two_way(left@, right@),
{
    OpenRequest::OpenTwoWay { left_path: left, right_path: right, title: None, left_label: None, right_label: None }
}


/// A pass-through flag (`--`, `--debug`, `--no-default-features`,
/// `--release`) right after the program name changes nothing that the
/// arguments ask to open.
pub proof fn law_passthrough_flag_ignored(program: Seq<char>, flag: Seq<char>, rest: Seq<Seq<char>>)
    requires
        is_passthrough(flag),
    ensures
        parse_argv_spec(seq![program, flag] + rest) == parse_argv_spec(seq![program] + rest),
{
    let with = seq![program, flag] + rest;
    let without = seq![program] + rest;
    assert(with.drop_first() =~= seq![flag] + rest);
    assert((seq![flag] + rest).drop_first() =~= rest);
    assert(without.drop_first() =~= rest);
    assert(clean(with.drop_first()) == clean(rest));
    if rest.len() == 0 {
        assert(clean(rest) =~= Seq::<Seq<char>>::empty());
    }
}

/// Read command-line arguments (the program name first) into a request.
pub fn parse_argv(args: &[String]) -> (r: Option<OpenRequest>)
    ensures
        match r {
            Some(req) => parse_argv_spec(arg_views(args@)) == Some(req.model()),
            None => parse_argv_spec(arg_views(args@)) is None,
        },
{
    if args.len() < 2 {
        return None;
    }
    let c = clean_exec(args);
    let ghost cv = arg_views(c@);
    if c.len() >= 3 && str_eq(c[0].as_str(), "--diff") {
        return Some(two_way(c[1].clone(), c[2].clone()));
    }
    if position_exec(&c, "--merge").is_some() {
        let base = value_exec(&c, "--base");
        let local = value_exec(&c, "--local");
        let remote = value_exec(&c, "--remote");
        let merged = value_exec(&c, "--merged");
        match (base, local, remote, merged) {
            (Some(b), Some(l), Some(r), Some(m)) => {
                return Some(
                    OpenRequest::OpenMerge {
                        base_path: b,
                        local_path: l,
                        remote_path: r,
                        merged_path: m,
                        title: None,
                    },
                );
            },
            _ => {},
        }
    }
    if c.len() >= 2 && str_eq(c[0].as_str(), "--open") {
        return Some(OpenRequest::OpenPatch { path: c[1].clone() });
    }
    if c.len() == 1 {
        let p = chars_of(c[0].as_str());
        if ends_with(&p, ".diff") || ends_with(&p, ".patch") {
            return Some(OpenRequest::OpenPatch { path: c[0].clone() });
        }
    }
    if c.len() == 2 {
        return Some(two_way(c[0].clone(), c[1].clone()));
    }
    if c.len() > 0 {
        return Some(OpenRequest::OpenFiles { paths: c });
    }
    None
}

} // verus!
