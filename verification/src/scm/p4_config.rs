//! Perforce connection settings: reading a `.p4config` file and the
//! environment that `p4` is run with.
use vstd::prelude::*;
use crate::text::{
    chars_of, find, is_ws, lead, lemma_find, lemma_lead, lemma_lines_push, lemma_trail, lines, lines_of, matches_at, owned,
    split_once, split_once_lit, str_eq, string_from, trail, trim, trim_of, views, ws,
};

verus! {

/// The settings of a `.p4config` file and where it was found.
#[derive(Debug, Clone)]
pub struct P4Config {
    pub client: Option<String>,
    pub port: Option<String>,
    pub user: Option<String>,
    pub charset: Option<String>,
    pub source_path: Option<String>,
}

pub struct ConfigV {
    pub client: Option<Seq<char>>,
    pub port: Option<Seq<char>>,
    pub user: Option<Seq<char>>,
    pub charset: Option<Seq<char>>,
    pub source_path: Option<Seq<char>>,
}

pub open spec fn opt_view(o: Option<String>) -> Option<Seq<char>> {
    match o {
        Some(s) => Some(s@),
        None => None,
    }
}

impl View for P4Config {
    type V = ConfigV;

    open spec fn view(&self) -> ConfigV {
        ConfigV {
            client: opt_view(self.client),
            port: opt_view(self.port),
            user: opt_view(self.user),
            charset: opt_view(self.charset),
            source_path: opt_view(self.source_path),
        }
    }
}

impl Default for P4Config {
    fn default() -> (r: Self)
        ensures
            r@ == (ConfigV { client: None, port: None, user: None, charset: None, source_path: None }),
    {
        P4Config { client: None, port: None, user: None, charset: None, source_path: None }
    }
}

/// The settings after one line of a `.p4config` file: blank lines, comments
/// (`#`) and lines without `=` change nothing; `P4CLIENT`, `P4PORT`, `P4USER`
/// and `P4CHARSET` set their value (key and value trimmed); other keys are
/// ignored.
pub open spec fn config_line(c: ConfigV, raw: Seq<char>) -> ConfigV {
    let line = trim(raw);
    if line.len() == 0 || line[0] == '#' {
        c
    } else {
        match split_once(line, "="@) {
            None => c,
            Some((k, v)) => {
                let key = trim(k);
                let value = trim(v);
                if key == "P4CLIENT"@ {
                    ConfigV { client: Some(value), ..c }
                } else if key == "P4PORT"@ {
                    ConfigV { port: Some(value), ..c }
                } else if key == "P4USER"@ {
                    ConfigV { user: Some(value), ..c }
                } else if key == "P4CHARSET"@ {
                    ConfigV { charset: Some(value), ..c }
                } else {
                    c
                }
            },
        }
    }
}

/// The settings after the lines `ls`, in order.
pub open spec fn config_lines(c: ConfigV, ls: Seq<Seq<char>>) -> ConfigV
    decreases ls.len(),
{
    if ls.len() == 0 {
        c
    } else {
        config_line(config_lines(c, ls.drop_last()), ls.last())
    }
}

/// The settings of a `.p4config` file with the text `contents`, found at
/// `source_path`.
pub open spec fn config_spec(contents: Seq<char>, source_path: Option<Seq<char>>) -> ConfigV {
    config_lines(
        ConfigV { client: None, port: None, user: None, charset: None, source_path },
        lines(contents),
    )
}

/// Reads the settings of a `.p4config` file (see `config_spec`).
pub fn parse_p4_config(contents: &str, source_path: Option<String>) -> (r: P4Config)
    ensures
        r@ == config_spec(contents@, opt_view(source_path)),
{
    proof {
        reveal_strlit("=");
    }
    let ls = lines_of(contents);
    let ghost lv = views(ls@);
    let mut c = P4Config { client: None, port: None, user: None, charset: None, source_path };
    let mut i: usize = 0;
    assert(lv.take(0) =~= Seq::<Seq<char>>::empty());
    while i < ls.len()
        invariant
            i <= ls.len(),
            lv == views(ls@),
            lv == lines(contents@),
            "="@ == seq!['='],
            c@ == config_lines(
                ConfigV { client: None, port: None, user: None, charset: None, source_path: opt_view(source_path) },
                lv.take(i as int),
            ),
        decreases ls.len() - i,
    {
        let raw = chars_of(ls[i].as_str());
        let line = trim_of(&raw);
        let ghost before = c@;
        if line.len() > 0 && line[0] != '#' {
            if let Some((k, v)) = split_once_lit(&line, "=") {
                let key = trim_of(&k);
                let value = string_from(&trim_of(&v));
                let ks = string_from(&key);
                if str_eq(ks.as_str(), "P4CLIENT") {
                    c.client = Some(value);
                } else if str_eq(ks.as_str(), "P4PORT") {
                    c.port = Some(value);
                } else if str_eq(ks.as_str(), "P4USER") {
                    c.user = Some(value);
                } else if str_eq(ks.as_str(), "P4CHARSET") {
                    c.charset = Some(value);
                }
            }
        }
        proof {
            let t = lv.take(i + 1);
            assert(t.drop_last() == lv.take(i as int));
            assert(t.last() == ls@[i as int]@);
            assert(c@ == config_line(before, ls@[i as int]@));
        }
        i = i + 1;
    }
    assert(lv.take(ls.len() as int) == lv);
    c
}

/// A value is set when it is present and not blank.
pub open spec fn set_value(o: Option<Seq<char>>) -> Option<Seq<char>> {
    match o {
        Some(v) => if trim(v).len() > 0 {
            Some(v)
        } else {
            None
        },
        None => None,
    }
}

pub open spec fn env_entry(name: Seq<char>, o: Option<Seq<char>>) -> Seq<(Seq<char>, Seq<char>)> {
    match set_value(o) {
        Some(v) => seq![(name, v)],
        None => seq![],
    }
}

/// The environment `p4` runs with: `P4CLIENT`, `P4PORT` and `P4USER` where
/// they are set, and `P4CHARSET`, `utf8` where it is not set.
pub open spec fn env_spec(c: ConfigV) -> Seq<(Seq<char>, Seq<char>)> {
    env_entry("P4CLIENT"@, c.client) + env_entry("P4PORT"@, c.port) + env_entry("P4USER"@, c.user)
        + seq![
        (
            "P4CHARSET"@,
            match set_value(c.charset) {
                Some(v) => v,
                None => "utf8"@,
            },
        ),
    ]
}

pub open spec fn pair_views(v: Seq<(String, String)>) -> Seq<(Seq<char>, Seq<char>)> {
    v.map_values(|p: (String, String)| (p.0@, p.1@))
}

fn set_value_of(o: &Option<String>) -> (r: Option<String>)
    ensures
        opt_view(r) == set_value(opt_view(*o)),
{
    match o {
        Some(v) => {
            let t = trim_of(&chars_of(v.as_str()));
            if t.len() > 0 {
                Some(v.clone())
            } else {
                None
            }
        },
        None => None,
    }
}

fn push_entry(out: &mut Vec<(String, String)>, name: &str, o: &Option<String>)
    ensures
        pair_views(final(out)@) == pair_views(old(out)@) + env_entry(name@, opt_view(*o)),
{
    let ghost before = out@;
    match set_value_of(o) {
        Some(v) => {
            out.push((owned(name), v));
            assert(pair_views(out@) =~= pair_views(before) + env_entry(name@, opt_view(*o)));
        },
        None => {
            assert(pair_views(out@) =~= pair_views(before) + env_entry(name@, opt_view(*o)));
        },
    }
}

/// The environment variables to set when running `p4` (see `env_spec`).
pub fn p4_config_env(config: &P4Config) -> (r: Vec<(String, String)>)
    ensures
        pair_views(r@) == env_spec(config@),
{
    let mut out: Vec<(String, String)> = Vec::new();
    assert(pair_views(out@) =~= seq![]);
    push_entry(&mut out, "P4CLIENT", &config.client);
    push_entry(&mut out, "P4PORT", &config.port);
    push_entry(&mut out, "P4USER", &config.user);
    let charset = match set_value_of(&config.charset) {
        Some(v) => v,
        None => owned("utf8"),
    };
    let ghost before = out@;
    out.push((owned("P4CHARSET"), charset));
    assert(pair_views(out@) =~= pair_views(before) + seq![(("P4CHARSET"@), charset@)]);
    out
}

/// A value with no white space at either end (as `trim` leaves it).
pub open spec fn bare(v: Seq<char>) -> bool {
    v.len() == 0 || (!is_ws(v[0]) && !is_ws(v.last()))
}

proof fn lemma_trim_bare(v: Seq<char>)
    requires
        bare(v),
    ensures
        trim(v) == v,
{
    lemma_lead(v, ws(), 0);
    assert(v.skip(0) =~= v);
    lemma_trail(v, ws(), 0);
    assert(v.take(v.len() as int) =~= v);
}

/// What a `KEY=value` line with a bare key (no `=`, no white space) and a
/// bare value splits into.
proof fn lemma_setting_line(key: Seq<char>, v: Seq<char>)
    requires
        key.len() > 0,
        forall|i: int| 0 <= i < key.len() ==> key[i] != '=' && !is_ws(#[trigger] key[i]),
        key[0] != '#',
        bare(v),
    ensures
        trim(key + "="@ + v) == key + "="@ + v,
        (key + "="@ + v)[0] != '#',
        split_once(key + "="@ + v, "="@) == Some((key, v)),
        trim(key) == key,
        trim(v) == v,
{
    reveal_strlit("=");
    let l = key + "="@ + v;
    assert(l[0] == key[0]);
    assert(!is_ws(key[0]));
    assert(l.last() == if v.len() > 0 { v.last() } else { '=' });
    assert(!is_ws('='));
    assert(bare(l));
    lemma_trim_bare(l);
    assert(bare(key));
    lemma_trim_bare(key);
    lemma_trim_bare(v);
    let k = key.len() as int;
    assert(l.subrange(k, k + 1) =~= "="@);
    assert forall|i: int| 0 <= i && i < k implies !matches_at(l, "="@, i) by {
        assert(l[i] == key[i]);
        if matches_at(l, "="@, i) {
            assert(l.subrange(i, i + 1)[0] == l[i]);
        }
    }
    lemma_find(l, "="@, k);
    assert(l.take(k) =~= key);
    assert(l.skip(k + 1) =~= v);
}

proof fn lemma_keys()
    ensures
        "P4CLIENT"@ != "P4PORT"@,
        "P4CLIENT"@ != "P4USER"@,
        "P4CLIENT"@ != "P4CHARSET"@,
        "P4PORT"@ != "P4USER"@,
        "P4PORT"@ != "P4CHARSET"@,
        "P4USER"@ != "P4CHARSET"@,
        forall|i: int| 0 <= i < "P4CLIENT"@.len() ==> "P4CLIENT"@[i] != '=' && !is_ws(#[trigger] "P4CLIENT"@[i]),
        forall|i: int| 0 <= i < "P4PORT"@.len() ==> "P4PORT"@[i] != '=' && !is_ws(#[trigger] "P4PORT"@[i]),
        forall|i: int| 0 <= i < "P4USER"@.len() ==> "P4USER"@[i] != '=' && !is_ws(#[trigger] "P4USER"@[i]),
        forall|i: int| 0 <= i < "P4CHARSET"@.len() ==> "P4CHARSET"@[i] != '=' && !is_ws(#[trigger] "P4CHARSET"@[i]),
{
    reveal_strlit("P4CLIENT");
    reveal_strlit("P4PORT");
    reveal_strlit("P4USER");
    reveal_strlit("P4CHARSET");
    assert("P4PORT"@[2] != "P4USER"@[2]);
    assert("P4CLIENT"@.len() == 8 && "P4PORT"@.len() == 6 && "P4USER"@.len() == 6 && "P4CHARSET"@.len()
        == 9);
    assert("P4CLIENT"@[2] != "P4PORT"@[2]);
    assert("P4CLIENT"@[2] != "P4USER"@[2]);
}

/// What appending one `KEY=value` line does to the settings of `contents`.
proof fn lemma_append_setting(contents: Seq<char>, key: Seq<char>, v: Seq<char>, sp: Option<Seq<char>>)
    requires
        contents.len() == 0 || contents.last() == '\n',
        key.len() > 0,
        forall|i: int| 0 <= i < key.len() ==> key[i] != '=' && !is_ws(#[trigger] key[i]),
        bare(v),
        forall|i: int| 0 <= i < v.len() ==> v[i] != '\n',
    ensures
        config_spec(contents + (key + "="@ + v), sp) == config_line(config_spec(contents, sp), key + "="@ + v),
{
    reveal_strlit("=");
    let l = key + "="@ + v;
    assert forall|i: int| 0 <= i < l.len() implies l[i] != '\n' by {
        if i < key.len() {
            assert(l[i] == key[i]);
            assert(!is_ws(key[i]));
        } else if i > key.len() {
            assert(l[i] == v[i - key.len() - 1]);
        }
    }
    assert(l.last() != '\r') by {
        if v.len() > 0 {
            assert(l.last() == v.last());
        } else {
            assert(l.last() == '=');
        }
    }
    lemma_lines_push(contents, l);
    let init = ConfigV { client: None, port: None, user: None, charset: None, source_path: sp };
    assert(lines(contents + l).drop_last() =~= lines(contents));
    assert(lines(contents + l).last() == l);
}

/// A `.p4config` line `P4CLIENT=`, `P4PORT=`, `P4USER=` or `P4CHARSET=` with a
/// value, after everything else in the file, sets that key's setting to the
/// value and leaves the other settings as the rest of the file has them.
pub proof fn law_last_setting_line_wins(contents: Seq<char>, v: Seq<char>, sp: Option<Seq<char>>)
    requires
        contents.len() == 0 || contents.last() == '\n',
        bare(v),
        forall|i: int| 0 <= i < v.len() ==> v[i] != '\n',
    ensures
        config_spec(contents + ("P4CLIENT"@ + "="@ + v), sp) == (ConfigV {
            client: Some(v),
            ..config_spec(contents, sp)
        }),
        config_spec(contents + ("P4PORT"@ + "="@ + v), sp) == (ConfigV {
            port: Some(v),
            ..config_spec(contents, sp)
        }),
        config_spec(contents + ("P4USER"@ + "="@ + v), sp) == (ConfigV {
            user: Some(v),
            ..config_spec(contents, sp)
        }),
        config_spec(contents + ("P4CHARSET"@ + "="@ + v), sp) == (ConfigV {
            charset: Some(v),
            ..config_spec(contents, sp)
        }),
{
    lemma_keys();
    reveal_strlit("P4CLIENT");
    reveal_strlit("P4PORT");
    reveal_strlit("P4USER");
    reveal_strlit("P4CHARSET");
    assert("P4CLIENT"@[0] == 'P' && "P4PORT"@[0] == 'P' && "P4USER"@[0] == 'P' && "P4CHARSET"@[0] == 'P');
    lemma_setting_line("P4CLIENT"@, v);
    lemma_setting_line("P4PORT"@, v);
    lemma_setting_line("P4USER"@, v);
    lemma_setting_line("P4CHARSET"@, v);
    lemma_append_setting(contents, "P4CLIENT"@, v, sp);
    lemma_append_setting(contents, "P4PORT"@, v, sp);
    lemma_append_setting(contents, "P4USER"@, v, sp);
    lemma_append_setting(contents, "P4CHARSET"@, v, sp);
}

} // verus!
