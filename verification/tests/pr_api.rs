use diffviewer::scm::pr_api::{
    fetch_ref, get_pull_requests, github_pr_summary, gitlab_mr_summary, parse_remote_url,
    pull_request_range, pull_request_right_label, pull_request_title, pull_request_type, RepoHost, RepoInfo,
};

#[test]
fn parses_ssh_and_https_remotes() {
    let r = parse_remote_url("git@github.com:owner/repo.git", None).unwrap();
    assert!(matches!(r.host, RepoHost::GitHub));
    assert_eq!((r.owner.as_str(), r.repo.as_str()), ("owner", "repo"));
    let r = parse_remote_url("https://gitlab.com/group/sub/proj", None).unwrap();
    assert!(matches!(&r.host, RepoHost::GitLab(u) if u == "https://gitlab.com"));
    assert_eq!((r.owner.as_str(), r.repo.as_str()), ("group/sub", "proj"));
    let r = parse_remote_url("git@git.corp.local:team/app.git", Some("https://git.corp.local/")).unwrap();
    assert!(matches!(&r.host, RepoHost::GitLab(u) if u == "https://git.corp.local/"));
    assert!(parse_remote_url("git@git.corp.local:team/app.git", None).is_none());
    assert!(parse_remote_url("git@github.com:repo", None).is_none());
    assert!(parse_remote_url("ftp://github.com/a/b", None).is_none());
    assert!(parse_remote_url("https://github.com/onlyone", None).is_none());
}

#[test]
fn builds_list_requests() {
    let gh = RepoInfo { host: RepoHost::GitHub, owner: "o".to_string(), repo: "r".to_string() };
    let q = get_pull_requests(&gh, Some("tok"), None);
    assert_eq!(q.host_label, "GitHub");
    assert_eq!(q.url, "https://api.github.com/repos/o/r/pulls?state=all&per_page=50");
    assert_eq!(q.headers.len(), 3);
    assert_eq!(q.headers[2], ("Authorization".to_string(), "Bearer tok".to_string()));
    let q = get_pull_requests(&gh, Some(""), None);
    assert_eq!(q.headers.len(), 2);
    let gl = RepoInfo { host: RepoHost::GitLab("https://gl.io//".to_string()), owner: "g".to_string(), repo: "p".to_string() };
    let q = get_pull_requests(&gl, None, Some("pat"));
    assert_eq!(q.url, "https://gl.io/api/v4/projects/g%2Fp/merge_requests?state=all&per_page=50");
    assert_eq!(q.headers, vec![
        ("User-Agent".to_string(), "DiffViewer".to_string()),
        ("PRIVATE-TOKEN".to_string(), "pat".to_string()),
    ]);
}

#[test]
fn summaries_and_titles() {
    let s = github_pr_summary(42, "T".to_string(), "open".to_string(), None, Some("feat".to_string()), Some("main".to_string()), None, "me".to_string());
    assert_eq!(s.id, "42");
    assert_eq!(s.source_branch, "feat");
    assert_eq!(s.target_branch, "main");
    let s = github_pr_summary(7, "T".to_string(), "open".to_string(), None, None, None, None, "me".to_string());
    assert_eq!(s.source_branch, "");
    let m = gitlab_mr_summary(3, "M".to_string(), "merged".to_string(), "a".to_string(), "b".to_string(), "u".to_string());
    assert_eq!((m.id.as_str(), m.author.as_str()), ("3", "u"));
    assert_eq!(fetch_ref(&RepoHost::GitHub, "5"), "pull/5/head");
    assert_eq!(fetch_ref(&RepoHost::GitLab("x".to_string()), "5"), "merge-requests/5/head");
    assert_eq!(pull_request_title(&RepoHost::GitHub, "5", Some("Fix")), "PR #5: Fix");
    assert_eq!(pull_request_title(&RepoHost::GitLab("x".to_string()), "5", None), "MR #5");
}

#[test]
fn pull_request_import_labels() {
    assert_eq!(pull_request_type(&RepoHost::GitHub), "PR");
    assert_eq!(pull_request_type(&RepoHost::GitLab("gitlab.example.com".to_string())), "MR");
    assert_eq!(pull_request_range("main"), "main...FETCH_HEAD");
    assert_eq!(pull_request_right_label("42"), "PR #42");
}
