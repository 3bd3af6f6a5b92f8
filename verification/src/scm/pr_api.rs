//! Pull requests of GitHub and merge requests of GitLab: which host a remote
//! URL names, the request that lists them, and the summaries made of the
//! hosts' answers.
use vstd::prelude::*;
use crate::diff_engine::merge::join;
use crate::text::{chars_of, concat, contains, find_in, has_prefix, has_suffix, numbered, owned, slice_of, split, split_lit, starts_with, str_eq, string_from, trim_end_char, trim_end_char_of, trim_start_char, trim_start_char_of, views, vviews, decimal};

verus! {

/// A pull request (GitHub) or merge request (GitLab).
#[derive(Debug, Clone)]
pub struct PullRequestSummary {
    pub id: String,
    pub title: String,
    pub state: String,
    pub source_branch: String,
    pub target_branch: String,
    pub author: String,
}

pub struct SummaryV {
    pub id: Seq<char>,
    pub title: Seq<char>,
    pub state: Seq<char>,
    pub source_branch: Seq<char>,
    pub target_branch: Seq<char>,
    pub author: Seq<char>,
}

impl View for PullRequestSummary {
    type V = SummaryV;

    open spec fn view(&self) -> SummaryV {
        SummaryV {
            id: self.id@,
            title: self.title@,
            state: self.state@,
            source_branch: self.source_branch@,
            target_branch: self.target_branch@,
            author: self.author@,
        }
    }
}

/// The host of a repository: GitHub, or a GitLab instance at a URL.
#[derive(Debug, Clone)]
pub enum RepoHost {
    GitHub,
    GitLab(String),
}

/// A repository on a host.
#[derive(Debug, Clone)]
pub struct RepoInfo {
    pub host: RepoHost,
    pub owner: String,
    pub repo: String,
}

pub enum HostV {
    GitHub,
    GitLab(Seq<char>),
}

pub struct RepoV {
    pub host: HostV,
    pub owner: Seq<char>,
    pub repo: Seq<char>,
}

impl View for RepoHost {
    type V = HostV;

    open spec fn view(&self) -> HostV {
        match self {
            RepoHost::GitHub => HostV::GitHub,
            RepoHost::GitLab(u) => HostV::GitLab(u@),
        }
    }
}

impl View for RepoInfo {
    type V = RepoV;

    open spec fn view(&self) -> RepoV {
        RepoV { host: self.host@, owner: self.owner@, repo: self.repo@ }
    }
}

pub open spec fn opt_repo_view(o: Option<RepoInfo>) -> Option<RepoV> {
    match o {
        Some(r) => Some(r@),
        None => None,
    }
}

/// The host and path that the `url` crate reads from `url`: `None` where
/// `Url::parse` refuses it; else `Url::host_str` and `Url::path`.
pub uninterp spec fn url_host_path(url: Seq<char>) -> Option<(Option<Seq<char>>, Seq<char>)>;

/// `url::Url::parse`, then `host_str` and `path` of the parsed URL; the
/// result is `url_host_path(url)`.
#[verifier::external_body]
fn parse_url_host_path(url: &str) -> (r: Option<(Option<String>, String)>)
    ensures
        match r {
            Some((h, p)) => url_host_path(url@) == Some(
                (
                    match h {
                        Some(x) => Some(x@),
                        None => None,
                    },
                    p@,
                ),
            ),
            None => url_host_path(url@) is None,
        },
{
    match url::Url::parse(url) {
        Ok(u) => Some((u.host_str().map(|h| h.to_string()), u.path().to_string())),
        Err(_) => None,
    }
}

/// The host named `host`: GitHub and gitlab.com by name, a self-hosted GitLab
/// where its configured URL contains the name; otherwise none.
pub open spec fn host_spec(host: Seq<char>, gitlab_host_url: Option<Seq<char>>) -> Option<HostV> {
    if host == "github.com"@ {
        Some(HostV::GitHub)
    } else if host == "gitlab.com"@ {
        Some(HostV::GitLab("https://gitlab.com"@))
    } else {
        match gitlab_host_url {
            Some(c) => if contains(c, host) {
                Some(HostV::GitLab(c))
            } else {
                None
            },
            None => None,
        }
    }
}

/// The repository at `path` (`owner/.../repo`) on `host`: the last segment is
/// the repository, the ones before it (joined by `/`) the owner; a path of
/// one segment names none.
pub open spec fn repo_spec(host: Seq<char>, path: Seq<char>, gitlab_host_url: Option<Seq<char>>) -> Option<
    RepoV,
> {
    let segs = split(path, "/"@);
    if segs.len() < 2 {
        None
    } else {
        match host_spec(host, gitlab_host_url) {
            Some(h) => Some(
                RepoV { host: h, owner: join(segs.drop_last(), "/"@), repo: segs.last() },
            ),
            None => None,
        }
    }
}

/// `url` without a final `.git`.
pub open spec fn without_git(url: Seq<char>) -> Seq<char> {
    if has_suffix(url, ".git"@) {
        url.take(url.len() - 4)
    } else {
        url
    }
}

/// The repository a git remote URL names: `git@host:owner/repo` (one colon),
/// or an `http://` / `https://` URL whose path is `/owner/repo`; a final
/// `.git` is ignored.
pub open spec fn remote_spec(url: Seq<char>, gitlab_host_url: Option<Seq<char>>) -> Option<RepoV> {
    let u = without_git(url);
    if has_prefix(u, "git@"@) {
        let parts = split(u, ":"@);
        if parts.len() != 2 || parts[0].len() < 4 {
            None
        } else {
            repo_spec(parts[0].skip(4), parts[1], gitlab_host_url)
        }
    } else if has_prefix(u, "http://"@) || has_prefix(u, "https://"@) {
        match url_host_path(u) {
            Some((Some(h), p)) => repo_spec(h, trim_start_char(p, '/'), gitlab_host_url),
            _ => None,
        }
    } else {
        None
    }
}

/// A final `.git` never reaches the repository a remote names: a remote URL
/// with `.git` appended names the same repository, on the same host, as the
/// URL without it (for `git@` and for `http(s)://` remotes alike).
pub proof fn law_git_suffix_ignored(url: Seq<char>, gitlab_host_url: Option<Seq<char>>)
    requires
        !has_suffix(url, ".git"@),
    ensures
        remote_spec(url + ".git"@, gitlab_host_url) == remote_spec(url, gitlab_host_url),
{
    reveal_strlit(".git");
    let u = url + ".git"@;
    assert(u.skip(u.len() - 4) =~= ".git"@);
    assert(has_suffix(u, ".git"@));
    assert(u.take(u.len() - 4) =~= url);
    assert(without_git(u) == url);
    assert(without_git(url) == url);
}

fn contains_exec(s: &str, p: &str) -> (r: bool)
    ensures
        r == contains(s@, p@),
{
    let sv = chars_of(s);
    let pv = chars_of(p);
    if pv.len() == 0 {
        assert(sv@.subrange(0, 0) =~= pv@);
        assert(crate::text::matches_at(sv@, pv@, 0));
        return true;
    }
    find_in(&sv, &pv).is_some()
}

fn host_of(host: &str, gitlab_host_url: Option<&str>) -> (r: Option<RepoHost>)
    ensures
        match r {
            Some(h) => host_spec(host@, opt_str(gitlab_host_url)) == Some(h@),
            None => host_spec(host@, opt_str(gitlab_host_url)) is None,
        },
{
    if str_eq(host, "github.com") {
        Some(RepoHost::GitHub)
    } else if str_eq(host, "gitlab.com") {
        Some(RepoHost::GitLab(owned("https://gitlab.com")))
    } else {
        match gitlab_host_url {
            Some(c) => if contains_exec(c, host) {
                Some(RepoHost::GitLab(owned(c)))
            } else {
                None
            },
            None => None,
        }
    }
}

pub open spec fn opt_str(o: Option<&str>) -> Option<Seq<char>> {
    match o {
        Some(s) => Some(s@),
        None => None,
    }
}

/// The repository at `path` on `host` (see `repo_spec`).
pub fn repo_info_from(host: &str, path: &str, gitlab_host_url: Option<&str>) -> (r: Option<RepoInfo>)
    ensures
        opt_repo_view(r) == repo_spec(host@, path@, opt_str(gitlab_host_url)),
{
    proof {
        reveal_strlit("/");
    }
    let pv = chars_of(path);
    let segs = split_lit(&pv, "/");
    if segs.len() < 2 {
        return None;
    }
    match host_of(host, gitlab_host_url) {
        Some(h) => {
            let mut owners: Vec<String> = Vec::new();
            let mut i: usize = 0;
            let n = segs.len() - 1;
            while i < n
                invariant
                    i <= n,
                    n == segs.len() - 1,
                    views(owners@) == vviews(segs@).take(i as int),
                decreases n - i,
            {
                owners.push(string_from(&segs[i]));
                assert(vviews(segs@).take(i + 1) =~= vviews(segs@).take(i as int).push(
                    segs@[i as int]@,
                ));
                assert(views(owners@) =~= vviews(segs@).take(i + 1));
                i = i + 1;
            }
            let owner = join_slash(&owners);
            assert(vviews(segs@).take(n as int) =~= vviews(segs@).drop_last());
            Some(RepoInfo { host: h, owner, repo: string_from(&segs[n]) })
        },
        None => None,
    }
}

fn join_slash(ls: &Vec<String>) -> (r: String)
    ensures
        r@ == join(views(ls@), "/"@),
{
    proof {
        reveal_strlit("/");
        reveal_strlit("");
    }
    let mut out: String = owned("");
    let mut i: usize = 0;
    let ghost vs = views(ls@);
    assert(vs.take(0) =~= Seq::<Seq<char>>::empty());
    while i < ls.len()
        invariant
            i <= ls.len(),
            vs == views(ls@),
            out@ == join(vs.take(i as int), "/"@),
            "/"@ == seq!['/'],
        decreases ls.len() - i,
    {
        let ghost t = vs.take(i + 1);
        assert(t.drop_last() == vs.take(i as int));
        assert(t.last() == ls@[i as int]@);
        if i == 0 {
            out = ls[i].clone();
            assert(t.len() == 1);
        } else {
            let a = concat(out.as_str(), "/");
            out = concat(a.as_str(), ls[i].as_str());
        }
        i = i + 1;
    }
    assert(vs.take(ls.len() as int) == vs);
    out
}

/// The repository that a git remote URL names (see `remote_spec`).
pub fn parse_remote_url(url: &str, gitlab_host_url: Option<&str>) -> (r: Option<RepoInfo>)
    ensures
        opt_repo_view(r) == remote_spec(url@, opt_str(gitlab_host_url)),
{
    proof {
        reveal_strlit(".git");
        reveal_strlit("git@");
        reveal_strlit(":");
        reveal_strlit("http://");
        reveal_strlit("https://");
    }
    let v = chars_of(url);
    let u = if crate::text::ends_with(&v, ".git") {
        slice_of(&v, 0, v.len() - 4)
    } else {
        slice_of(&v, 0, v.len())
    };
    assert(u@ == without_git(url@));
    let us = string_from(&u);
    if starts_with(&u, "git@") {
        let parts = split_lit(&u, ":");
        if parts.len() != 2 {
            return None;
        }
        if parts[0].len() < 4 {
            return None;
        }
        let host = slice_of(&parts[0], 4, parts[0].len());
        let hs = string_from(&host);
        let ps = string_from(&parts[1]);
        return repo_info_from(hs.as_str(), ps.as_str(), gitlab_host_url);
    }
    if starts_with(&u, "http://") || starts_with(&u, "https://") {
        match parse_url_host_path(us.as_str()) {
            Some((Some(h), p)) => {
                let pv = chars_of(p.as_str());
                let t = trim_start_char_of(&pv, '/');
                let ts = string_from(&t);
                return repo_info_from(h.as_str(), ts.as_str(), gitlab_host_url);
            },
            _ => {
                return None;
            },
        }
    }
    None
}


// ---------------------------------------------------------------------------
// Listing pull requests
// ---------------------------------------------------------------------------

/// The HTTP request that lists a repository's pull or merge requests.
#[derive(Debug, Clone)]
pub struct PullRequestQuery {
    /// `GitHub` or `GitLab`, the host named in error messages.
    pub host_label: String,
    pub url: String,
    pub headers: Vec<(String, String)>,
}

pub open spec fn header_views(v: Seq<(String, String)>) -> Seq<(Seq<char>, Seq<char>)> {
    v.map_values(|p: (String, String)| (p.0@, p.1@))
}

/// A token is sent where one is given and it is not empty.
pub open spec fn token_header(name: Seq<char>, prefix: Seq<char>, pat: Option<Seq<char>>) -> Seq<
    (Seq<char>, Seq<char>),
> {
    match pat {
        Some(t) => if t.len() > 0 {
            seq![(name, prefix + t)]
        } else {
            seq![]
        },
        None => seq![],
    }
}

/// The request for the pull requests of a GitHub repository, or the merge
/// requests of a GitLab project (owner and name joined by `%2F`, under the
/// instance's URL without trailing slashes): all states, 50 per page, with
/// the token of that host where one is given.
pub open spec fn query_spec(r: RepoV, github_pat: Option<Seq<char>>, gitlab_pat: Option<Seq<char>>) -> (
    Seq<char>,
    Seq<char>,
    Seq<(Seq<char>, Seq<char>)>,
) {
    match r.host {
        HostV::GitHub => (
            "GitHub"@,
            "https://api.github.com/repos/"@ + r.owner + "/"@ + r.repo
                + "/pulls?state=all&per_page=50"@,
            seq![("Accept"@, "application/vnd.github.v3+json"@), ("User-Agent"@, "DiffViewer"@)]
                + token_header("Authorization"@, "Bearer "@, github_pat),
        ),
        HostV::GitLab(host_url) => (
            "GitLab"@,
            trim_end_char(host_url, '/') + "/api/v4/projects/"@ + r.owner + "%2F"@ + r.repo
                + "/merge_requests?state=all&per_page=50"@,
            seq![("User-Agent"@, "DiffViewer"@)] + token_header("PRIVATE-TOKEN"@, ""@, gitlab_pat),
        ),
    }
}

fn push_token(headers: &mut Vec<(String, String)>, name: &str, prefix: &str, pat: Option<&str>)
    ensures
        header_views(final(headers)@) == header_views(old(headers)@) + token_header(
            name@,
            prefix@,
            opt_str(pat),
        ),
{
    let ghost before = headers@;
    match pat {
        Some(t) => {
            if chars_of(t).len() > 0 {
                headers.push((owned(name), concat(prefix, t)));
            }
        },
        None => {},
    }
    assert(header_views(headers@) =~= header_views(before) + token_header(
        name@,
        prefix@,
        opt_str(pat),
    ));
}

/// The request that lists the pull or merge requests of `repo_info` (see
/// `query_spec`); the caller sends it and reads the answer.
pub fn get_pull_requests(repo_info: &RepoInfo, github_pat: Option<&str>, gitlab_pat: Option<&str>) -> (r:
    PullRequestQuery)
    ensures
        (r.host_label@, r.url@, header_views(r.headers@)) == query_spec(
            repo_info@,
            opt_str(github_pat),
            opt_str(gitlab_pat),
        ),
{
    match &repo_info.host {
        RepoHost::GitHub => {
            let a = concat("https://api.github.com/repos/", repo_info.owner.as_str());
            let b = concat(a.as_str(), "/");
            let c = concat(b.as_str(), repo_info.repo.as_str());
            let url = concat(c.as_str(), "/pulls?state=all&per_page=50");
            let mut headers: Vec<(String, String)> = Vec::new();
            headers.push((owned("Accept"), owned("application/vnd.github.v3+json")));
            headers.push((owned("User-Agent"), owned("DiffViewer")));
            let ghost before = headers@;
            assert(header_views(before) =~= seq![
                ("Accept"@, "application/vnd.github.v3+json"@),
                ("User-Agent"@, "DiffViewer"@),
            ]);
            push_token(&mut headers, "Authorization", "Bearer ", github_pat);
            PullRequestQuery { host_label: owned("GitHub"), url, headers }
        },
        RepoHost::GitLab(host_url) => {
            let base = string_from(&trim_end_char_of(&chars_of(host_url.as_str()), '/'));
            let a = concat(base.as_str(), "/api/v4/projects/");
            let b = concat(a.as_str(), repo_info.owner.as_str());
            let c = concat(b.as_str(), "%2F");
            let d = concat(c.as_str(), repo_info.repo.as_str());
            let url = concat(d.as_str(), "/merge_requests?state=all&per_page=50");
            let mut headers: Vec<(String, String)> = Vec::new();
            headers.push((owned("User-Agent"), owned("DiffViewer")));
            assert(header_views(headers@) =~= seq![("User-Agent"@, "DiffViewer"@)]);
            push_token(&mut headers, "PRIVATE-TOKEN", "", gitlab_pat);
            PullRequestQuery { host_label: owned("GitLab"), url, headers }
        },
    }
}

/// A pull request as GitHub lists it: its number, title and state, the
/// branch names of its head and base (`ref_name`, else `ref`, else empty),
/// and its author's login.
pub fn github_pr_summary(
    number: u64,
    title: String,
    state: String,
    head_ref_name: Option<String>,
    head_ref: Option<String>,
    base_ref_name: Option<String>,
    base_ref: Option<String>,
    login: String,
) -> (r: PullRequestSummary)
    ensures
        r@ == (SummaryV {
            id: decimal(number as nat),
            title: title@,
            state: state@,
            source_branch: branch_spec(opt_string(head_ref_name), opt_string(head_ref)),
            target_branch: branch_spec(opt_string(base_ref_name), opt_string(base_ref)),
            author: login@,
        }),
{
    proof {
        reveal_strlit("");
        assert(""@ =~= Seq::<char>::empty());
        assert(""@ + decimal(number as nat) =~= decimal(number as nat));
    }
    PullRequestSummary {
        id: numbered("", number),
        title,
        state,
        source_branch: branch_of(head_ref_name, head_ref),
        target_branch: branch_of(base_ref_name, base_ref),
        author: login,
    }
}

pub open spec fn opt_string(o: Option<String>) -> Option<Seq<char>> {
    match o {
        Some(s) => Some(s@),
        None => None,
    }
}

/// The first of two names that is given, else the empty name.
pub open spec fn branch_spec(a: Option<Seq<char>>, b: Option<Seq<char>>) -> Seq<char> {
    match a {
        Some(x) => x,
        None => match b {
            Some(y) => y,
            None => seq![],
        },
    }
}

fn branch_of(a: Option<String>, b: Option<String>) -> (r: String)
    ensures
        r@ == branch_spec(opt_string(a), opt_string(b)),
{
    proof {
        reveal_strlit("");
        assert(""@ =~= Seq::<char>::empty());
    }
    match a {
        Some(x) => x,
        None => match b {
            Some(y) => y,
            None => owned(""),
        },
    }
}

/// A merge request as GitLab lists it: its project-local number (`iid`),
/// title, state, source and target branch, and its author's user name.
pub fn gitlab_mr_summary(
    iid: u64,
    title: String,
    state: String,
    source_branch: String,
    target_branch: String,
    username: String,
) -> (r: PullRequestSummary)
    ensures
        r@ == (SummaryV {
            id: decimal(iid as nat),
            title: title@,
            state: state@,
            source_branch: source_branch@,
            target_branch: target_branch@,
            author: username@,
        }),
{
    proof {
        reveal_strlit("");
        assert(""@ =~= Seq::<char>::empty());
        assert(""@ + decimal(iid as nat) =~= decimal(iid as nat));
    }
    PullRequestSummary {
        id: numbered("", iid),
        title,
        state,
        source_branch,
        target_branch,
        author: username,
    }
}

/// The ref that a fetch of a pull request (GitHub) or merge request (GitLab)
/// asks for.
pub fn fetch_ref(host: &RepoHost, pr_id: &str) -> (r: String)
    ensures
        r@ == match host@ {
            HostV::GitHub => "pull/"@ + pr_id@ + "/head"@,
            HostV::GitLab(_) => "merge-requests/"@ + pr_id@ + "/head"@,
        },
{
    let prefix = match host {
        RepoHost::GitHub => "pull/",
        RepoHost::GitLab(_) => "merge-requests/",
    };
    let a = concat(prefix, pr_id);
    concat(a.as_str(), "/head")
}

/// The kind of request a host calls it: `PR` (GitHub) or `MR` (GitLab).
pub fn pull_request_type(host: &RepoHost) -> (r: &'static str)
    ensures
        r@ == match host@ {
            HostV::GitHub => "PR"@,
            HostV::GitLab(_) => "MR"@,
        },
{
    match host {
        RepoHost::GitHub => "PR",
        RepoHost::GitLab(_) => "MR",
    }
}

/// The revision range that the diff of a fetched pull request covers: from
/// where it leaves `target_branch` to the fetched head.
pub fn pull_request_range(target_branch: &str) -> (r: String)
    ensures
        r@ == target_branch@ + "...FETCH_HEAD"@,
{
    concat(target_branch, "...FETCH_HEAD")
}

/// The label of the new side of a pull request's file diffs.
pub fn pull_request_right_label(pr_id: &str) -> (r: String)
    ensures
        r@ == "PR #"@ + pr_id@,
{
    concat("PR #", pr_id)
}

/// The title of an imported pull request: `PR #<id>` (GitHub) or `MR #<id>`
/// (GitLab), then `: <title>` where one is given.
pub fn pull_request_title(host: &RepoHost, pr_id: &str, pr_title: Option<&str>) -> (r: String)
    ensures
        r@ == (match host@ {
            HostV::GitHub => "PR"@,
            HostV::GitLab(_) => "MR"@,
        }) + " #"@ + pr_id@ + match pr_title {
            Some(t) => ": "@ + t@,
            None => Seq::<char>::empty(),
        },
{
    let prefix = match host {
        RepoHost::GitHub => "PR",
        RepoHost::GitLab(_) => "MR",
    };
    let a = concat(prefix, " #");
    let b = concat(a.as_str(), pr_id);
    match pr_title {
        Some(t) => {
            let c = concat(b.as_str(), ": ");
            concat(c.as_str(), t)
        },
        None => {
            assert(b@ =~= b@ + Seq::<char>::empty());
            b
        },
    }
}

} // verus!
