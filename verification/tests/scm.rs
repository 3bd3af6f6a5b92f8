use diffviewer::content_source::WriteTarget;
use diffviewer::diff_engine::unified_parser::{parse_unified_diff, Hunk, HunkLine, PatchFileDiff};
use diffviewer::providers::ImportTarget;
use diffviewer::providers::p4::display_path_for_patch;
use diffviewer::scm::p4_config::{p4_config_env, parse_p4_config, P4Config};
use diffviewer::scm::process::{command_failure_message, effective_cwd};
use diffviewer::scm::{
    content_plan, derive_write_target, filediff_fields, git_commit_meta, git_working_tree_meta,
    p4_change_meta, prefetch_p4_paths, reconstruct_new_text, reconstruct_old_text, refresh_diffset,
    SidePlan, WriteTargetMode,
};

fn line(kind: &str, text: &str) -> HunkLine {
    HunkLine { kind: kind.to_string(), text: text.to_string() }
}

fn file(old: &str, new: &str) -> PatchFileDiff {
    PatchFileDiff {
        old_path: old.to_string(),
        new_path: new.to_string(),
        hunks: vec![Hunk {
            id: "hunk-1".to_string(),
            old_start: 1,
            old_count: 3,
            new_start: 1,
            new_count: 3,
            lines: vec![line("context", "a"), line("del", "b"), line("add", "B"), line("context", "c")],
        }],
        status: "modified".to_string(),
    }
}

#[test]
fn prefers_depot_display_path_for_pending_p4_diffs() {
    let pf = PatchFileDiff {
        old_path: "//depot/main/a.cpp".to_string(),
        new_path: "C:\\work\\a.cpp".to_string(),
        hunks: Vec::new(),
        status: "renamed".to_string(),
    };
    assert_eq!(display_path_for_patch(&pf), "//depot/main/a.cpp");
}

#[test]
fn reconstructs_both_sides_of_a_diff() {
    let pf = file("x", "x");
    assert_eq!(reconstruct_old_text(&pf), "a\nb\nc");
    assert_eq!(reconstruct_new_text(&pf), "a\nB\nc");
    let parsed = parse_unified_diff("--- a/f\n+++ b/f\n@@ -1,2 +1,2 @@\n one\n-two\n+2\n@@ -9 +9 @@\n-x\n+y\n");
    assert_eq!(reconstruct_old_text(&parsed[0]), "one\ntwo\nx");
    assert_eq!(reconstruct_new_text(&parsed[0]), "one\n2\ny");
}

#[test]
fn write_targets_by_mode() {
    let pf = file("a.txt", "a.txt");
    let commit = WriteTargetMode::GitCommit { repo_path: "/r".to_string(), rev: "abc".to_string() };
    assert_eq!(derive_write_target(&commit, &pf, "a.txt"), WriteTarget::ReadOnly);
    let ro = WriteTargetMode::P4ReadOnly { cwd: None, config: P4Config::default() };
    assert_eq!(derive_write_target(&ro, &pf, "a.txt"), WriteTarget::ReadOnly);
    let wt = WriteTargetMode::GitWorkingTree { repo_path: "/repo".to_string() };
    assert_eq!(derive_write_target(&wt, &pf, "a.txt"), WriteTarget::Path { path: "/repo/a.txt".to_string() });
    let pending = WriteTargetMode::P4Pending { cwd: Some("/ws".to_string()), config: P4Config::default() };
    assert_eq!(derive_write_target(&pending, &pf, "a.txt"), WriteTarget::Path { path: "/ws/a.txt".to_string() });
    let pending_none = WriteTargetMode::P4Pending { cwd: None, config: P4Config::default() };
    let gone = file("/dev/null", "/dev/null");
    assert_eq!(derive_write_target(&pending_none, &gone, "x"), WriteTarget::SaveAsRequired);
}

#[test]
fn content_plans_by_mode() {
    let pf = file("//depot/a.cpp#3", "/ws/a.cpp");
    let ro = WriteTargetMode::P4ReadOnly { cwd: None, config: P4Config::default() };
    let (l, r) = content_plan(&ro, &pf, "//depot/a.cpp");
    assert_eq!(l, SidePlan::P4Print("//depot/a.cpp#3".to_string()));
    assert_eq!(r, SidePlan::Text("a\nB\nc".to_string()));
    let commit = WriteTargetMode::GitCommit { repo_path: "/r".to_string(), rev: "abc".to_string() };
    let g = file("a.txt", "a.txt");
    let (l, r) = content_plan(&commit, &g, "a.txt");
    assert_eq!(l, SidePlan::GitShow { rev: "abc^".to_string(), path: "a.txt".to_string() });
    assert_eq!(r, SidePlan::GitShow { rev: "abc".to_string(), path: "a.txt".to_string() });
    let added = file("/dev/null", "n.txt");
    let wt = WriteTargetMode::GitWorkingTree { repo_path: "/repo".to_string() };
    let (l, r) = content_plan(&wt, &added, "n.txt");
    assert_eq!(l, SidePlan::Text(String::new()));
    assert_eq!(r, SidePlan::FileOr { path: "/repo/n.txt".to_string(), fallback: "a\nB\nc".to_string() });
}

#[test]
fn pending_changelist_reads_the_local_file() {
    let pf = file("//depot/a.cpp#3", "src/a.cpp");
    let pending = WriteTargetMode::P4Pending { cwd: Some("/ws".to_string()), config: P4Config::default() };
    let (l, r) = content_plan(&pending, &pf, "//depot/a.cpp");
    assert_eq!(l, SidePlan::P4Print("//depot/a.cpp#3".to_string()));
    assert_eq!(r, SidePlan::FileOr { path: "/ws/src/a.cpp".to_string(), fallback: "a\nB\nc".to_string() });
    let no_cwd = WriteTargetMode::P4Pending { cwd: None, config: P4Config::default() };
    let added = file("/dev/null", "src/a.cpp");
    let (_, r) = content_plan(&no_cwd, &added, "src/a.cpp");
    assert_eq!(r, SidePlan::Text("a\nB\nc".to_string()));
    let abs = file("//depot/a.cpp#3", "/abs/a.cpp");
    let (_, r) = content_plan(&no_cwd, &abs, "//depot/a.cpp");
    assert_eq!(r, SidePlan::FileOr { path: "/abs/a.cpp".to_string(), fallback: "a\nB\nc".to_string() });
}

#[test]
fn prefetches_depot_paths() {
    let files = vec![file("//depot/a#1", "/ws/a"), file("/dev/null", "//depot/b#2")];
    let pending = WriteTargetMode::P4Pending { cwd: None, config: P4Config::default() };
    assert_eq!(prefetch_p4_paths(&pending, &files), vec!["//depot/a#1".to_string()]);
    let ro = WriteTargetMode::P4ReadOnly { cwd: None, config: P4Config::default() };
    assert_eq!(
        prefetch_p4_paths(&ro, &files),
        vec!["//depot/a#1".to_string(), "//depot/b#2".to_string()]
    );
    let wt = WriteTargetMode::GitWorkingTree { repo_path: "/r".to_string() };
    assert!(prefetch_p4_paths(&wt, &files).is_empty());
}

#[test]
fn filediff_fields_use_actions_and_labels() {
    let pf = file("//depot/a.cpp#3", "/ws/a.cpp");
    let actions = vec![("//depot/a.cpp".to_string(), "integrate".to_string())];
    let (status, left, right) = filediff_fields(&pf, "//depot/a.cpp", "have revision", "", Some(&actions));
    assert_eq!(status, "integrate");
    assert_eq!(left, "have revision");
    assert_eq!(right, "/ws/a.cpp");
    let (status, _, _) = filediff_fields(&pf, "//depot/other.cpp", "", "", Some(&actions));
    assert_eq!(status, "modified");
}

#[test]
fn refresh_plans() {
    assert!(matches!(
        refresh_diffset("gitWorkingTree", r#"{"file_count":2,"repo_path":"/r"}"#),
        Ok(Some(ImportTarget::GitWorkingTree { repo_path })) if repo_path == "/r"
    ));
    assert!(matches!(
        refresh_diffset("p4PendingDefault", r#"{"change":"default","cwd":null}"#),
        Ok(Some(ImportTarget::P4Pending { change, cwd: None })) if change == "default"
    ));
    assert!(matches!(
        refresh_diffset("p4Pending", r#"{"change":"42","cwd":"/ws"}"#),
        Ok(Some(ImportTarget::P4Pending { change, cwd: Some(c) })) if change == "42" && c == "/ws"
    ));
    assert!(matches!(refresh_diffset("gitCommit", r#"{"rev":"x"}"#), Ok(None)));
    assert_eq!(
        refresh_diffset("gitWorkingTree", "{}").err(),
        Some("Missing repo_path for git working tree diffset".to_string())
    );
    assert_eq!(refresh_diffset("p4Pending", "{}").err(), Some("Missing change for p4 pending diffset".to_string()));
    assert!(refresh_diffset("gitCommit", "nope").is_err());
}

#[test]
fn source_metadata_json() {
    assert_eq!(git_working_tree_meta("/r", 2), r#"{"file_count":2,"repo_path":"/r"}"#);
    assert_eq!(git_commit_meta("/r", "abc", 1), r#"{"file_count":1,"repo_path":"/r","rev":"abc"}"#);
    assert_eq!(
        p4_change_meta("default", "Default", 3, None),
        r#"{"change":"default","cwd":null,"file_count":3,"status":"Default"}"#
    );
    assert_eq!(
        p4_change_meta("7", "Pending", 0, Some("C:\\ws")),
        r#"{"change":"7","cwd":"C:\\ws","file_count":0,"status":"Pending"}"#
    );
}

#[test]
fn p4_config_parsing_and_env() {
    let c = parse_p4_config(
        "# comment\nP4CLIENT = my-ws\nP4PORT=ssl:host:1666\n\nbogus line\nP4USER= dev \nOTHER=1\n",
        Some("/ws/.p4config".to_string()),
    );
    assert_eq!(c.client.as_deref(), Some("my-ws"));
    assert_eq!(c.port.as_deref(), Some("ssl:host:1666"));
    assert_eq!(c.user.as_deref(), Some("dev"));
    assert_eq!(c.charset, None);
    assert_eq!(c.source_path.as_deref(), Some("/ws/.p4config"));
    let env = p4_config_env(&c);
    assert_eq!(
        env,
        vec![
            ("P4CLIENT".to_string(), "my-ws".to_string()),
            ("P4PORT".to_string(), "ssl:host:1666".to_string()),
            ("P4USER".to_string(), "dev".to_string()),
            ("P4CHARSET".to_string(), "utf8".to_string()),
        ]
    );
    let blank = P4Config { charset: Some("  ".to_string()), client: Some(" ".to_string()), ..P4Config::default() };
    assert_eq!(p4_config_env(&blank), vec![("P4CHARSET".to_string(), "utf8".to_string())]);
}

#[test]
fn process_helpers() {
    assert_eq!(effective_cwd(Some("  ")), None);
    assert_eq!(effective_cwd(Some("/w")), Some("/w".to_string()));
    assert_eq!(effective_cwd(None), None);
    assert_eq!(
        command_failure_message("p4", &vec!["print".to_string(), "-q".to_string()], "  no such file\n"),
        "p4 print -q failed: no such file"
    );
}
