use diffviewer::providers::git::{display_repo_name, working_tree_title};
use diffviewer::providers::p4::backup_working_cwd;
use diffviewer::services::system_service::{choose_folder_script, picked_directory};
use diffviewer::diff_engine::unified_parser::{parse_unified_diff, PatchFileDiff};
use diffviewer::providers::git::{
    git_commit_title, list_git_commits_args, parse_git_branches, parse_git_log, short_rev,
    show_spec_arg, synthetic_git_added_file_diff, untracked_to_add, GitProvider,
};
use diffviewer::providers::p4::{
    backup_add_outcome, describe_action_map, describe_title, first_p4_description_line,
    join_diff_sections, normalize_p4_describe_files, opened_args, opened_files_without_diffs,
    parse_p4_describe_files, parse_p4_opened, parse_p4_pending_change_line, parse_p4_where,
    pending_changes_args, pending_changes_from_output, pending_kind, pending_local_path,
    describe_labels, diff_batches, pending_status, where_batches, DIFF_BATCH, WHERE_BATCH,
    pending_no_diff_filediff_payload, pending_title, strip_p4_rev, with_local_paths, P4OpenedFile,
    P4Provider,
};
use diffviewer::scm::p4_config::P4Config;

#[test]
fn provider_names() {
    assert_eq!(GitProvider.name(), "git");
    assert_eq!(P4Provider.name(), "p4");
}

#[test]
fn parses_p4_opened_lines() {
    let out = "//depot/a.cpp#3 - edit change 123 (text)\n//depot/b.h#1 - add default change (text)\nnoise\n";
    let files = parse_p4_opened(out);
    assert_eq!(files.len(), 2);
    assert_eq!(files[0].depot_path, "//depot/a.cpp");
    assert_eq!(files[0].action, "edit");
    assert_eq!(files[0].change, "123");
    assert_eq!(files[1].change, "default");
    assert_eq!(files[1].action, "add");
    assert_eq!(files[1].local_path, None);
}

#[test]
fn strips_p4_revisions() {
    assert_eq!(strip_p4_rev("//depot/a.cpp#12"), "//depot/a.cpp");
    assert_eq!(strip_p4_rev(" //depot/a.cpp#head "), "//depot/a.cpp#head");
    assert_eq!(strip_p4_rev("C:\\w\\a.cpp#1"), "C:\\w\\a.cpp#1");
}

#[test]
fn parses_describe_and_normalizes() {
    let out = "Change 5 by u@c on 2026/01/01\n\n\tFix things\n\nAffected files ...\n\n... //depot/a.cpp#4 edit\n... //depot/new.h#1 add\n\nDifferences ...\n\n==== //depot/a.cpp#4 (text) ====\n\n--- //depot/a.cpp#3\n+++ //depot/a.cpp#4\n@@ -1 +1 @@\n-x\n+y\n";
    let described = parse_p4_describe_files(out);
    assert_eq!(described.len(), 2);
    assert_eq!(described[0].depot_path, "//depot/a.cpp");
    assert_eq!(described[0].rev, Some(4));
    let parsed = parse_unified_diff(out);
    let normalized = normalize_p4_describe_files(parsed, &described, "p4Submitted", "5");
    assert_eq!(normalized.len(), 2);
    assert_eq!(normalized[0].old_path, "//depot/a.cpp#3");
    assert_eq!(normalized[0].new_path, "//depot/a.cpp#4");
    assert_eq!(normalized[0].status, "modified");
    assert_eq!(normalized[1].old_path, "/dev/null");
    assert_eq!(normalized[1].new_path, "//depot/new.h#1");
    assert_eq!(normalized[1].status, "added");
    let shelved = normalize_p4_describe_files(Vec::new(), &described, "p4Shelved", "5");
    assert_eq!(shelved[0].new_path, "//depot/a.cpp@=5");
    let map = describe_action_map(&described);
    assert_eq!(map[1], ("//depot/new.h".to_string(), "add".to_string()));
}

#[test]
fn description_lines() {
    assert_eq!(
        first_p4_description_line("Change: 1\n\nDescription:\n\n\tFirst line\n\tsecond\n"),
        Some("First line".to_string())
    );
    assert_eq!(first_p4_description_line("Description:\n\nFiles:\n"), None);
}

#[test]
fn pending_change_lines_and_list() {
    let s = parse_p4_pending_change_line("Change 77 on 2026/01/02 by dev@ws *pending* 'Fix it '").unwrap();
    assert_eq!(s.change, "77");
    assert_eq!(s.user.as_deref(), Some("dev"));
    assert_eq!(s.client.as_deref(), Some("ws *pending* 'Fix it '"));
    assert_eq!(s.description, "Fix it");
    assert!(!s.is_default);
    assert!(parse_p4_pending_change_line("nothing").is_none());
    let cfg = P4Config { client: Some("ws".to_string()), user: Some("dev".to_string()), ..P4Config::default() };
    let list = pending_changes_from_output(&cfg, "Change 1 by a@b 'x'\njunk\n");
    assert_eq!(list.len(), 2);
    assert!(list[0].is_default);
    assert_eq!(list[0].change, "default");
    assert_eq!(list[0].description, "Default pending changelist");
    assert_eq!(list[0].client.as_deref(), Some("ws"));
    assert_eq!(list[1].change, "1");
    assert_eq!(pending_changes_args(&cfg), vec!["changes", "-s", "pending", "-c", "ws"]);
    assert_eq!(pending_changes_args(&P4Config::default()), vec!["changes", "-s", "pending"]);
}

#[test]
fn opened_arguments() {
    assert_eq!(opened_args("12", &P4Config::default()), vec!["opened", "-a", "-c", "12"]);
    assert_eq!(opened_args("default", &P4Config::default()), vec!["opened", "-c", "default"]);
    let cfg = P4Config { client: Some("ws".to_string()), ..P4Config::default() };
    assert_eq!(opened_args("12", &cfg), vec!["opened", "-c", "12"]);
}

#[test]
fn where_output_gives_local_paths() {
    let map = parse_p4_where("//depot/a.cpp //ws/a.cpp /home/u/ws/a.cpp\n-//depot/b.cpp //ws/b.cpp /x\n\n");
    assert_eq!(map, vec![("//depot/a.cpp".to_string(), "/home/u/ws/a.cpp".to_string())]);
    let files = parse_p4_opened("//depot/a.cpp#1 - edit change 3 (text)\n//depot/b.cpp#2 - edit change 3 (text)\n");
    let with = with_local_paths(files, &map);
    assert_eq!(with[0].local_path.as_deref(), Some("/home/u/ws/a.cpp"));
    assert_eq!(with[1].local_path, None);
}

#[test]
fn opened_files_without_diffs_and_payloads() {
    let files = vec![
        P4OpenedFile { depot_path: "//d/a#1".to_string(), action: "edit".to_string(), change: "1".to_string(), local_path: None },
        P4OpenedFile { depot_path: "//d/b".to_string(), action: "add".to_string(), change: "1".to_string(), local_path: Some("/w/b".to_string()) },
    ];
    let missing = opened_files_without_diffs(&files, &vec!["//d/a#7".to_string()]);
    assert_eq!(missing.len(), 1);
    assert_eq!(missing[0].depot_path, "//d/b");
    let (status, left, right) = pending_no_diff_filediff_payload(&files[1]);
    assert_eq!(status, "added");
    assert_eq!(left, r#"{"type":"virtual","text":""}"#);
    assert_eq!(right, r#"{"type":"path","path":"/w/b"}"#);
    let (status, _, right) = pending_no_diff_filediff_payload(&files[0]);
    assert_eq!(status, "edit no-diff");
    assert_eq!(right, r#"{"type":"virtual","text":""}"#);
}

#[test]
fn pending_titles_and_sections() {
    assert_eq!(pending_title("default", None), "default - 'Default pending changelist'");
    assert_eq!(pending_title("9", None), "9 - 'Pending changelist'");
    assert_eq!(pending_title("9", Some("Fix".to_string())), "9 - 'Fix'");
    assert_eq!(pending_kind("default"), "p4PendingDefault");
    assert_eq!(pending_kind("9"), "p4Pending");
    assert_eq!(describe_title("5", None, "Submitted changelist"), "5 - 'Submitted changelist'");
    assert_eq!(
        join_diff_sections(&vec!["a".to_string(), "  \n".to_string(), "b".to_string()]),
        "a\nb"
    );
}

#[test]
fn pending_local_paths() {
    let pf = |old: &str, new: &str| PatchFileDiff {
        old_path: old.to_string(),
        new_path: new.to_string(),
        hunks: Vec::new(),
        status: "modified".to_string(),
    };
    assert_eq!(pending_local_path(&pf("//d/a#1", "/ws/a"), None), Some("/ws/a".to_string()));
    assert_eq!(pending_local_path(&pf("//d/a#1", "a"), Some("/ws")), Some("/ws/a".to_string()));
    assert_eq!(pending_local_path(&pf("/ws/old", "/dev/null"), None), Some("/ws/old".to_string()));
    assert_eq!(pending_local_path(&pf("d/a", "a"), None), None);
}

#[test]
fn backup_add_tolerates_tracked_files() {
    assert_eq!(backup_add_outcome(Ok("ok".to_string())), Ok(()));
    assert_eq!(backup_add_outcome(Err("x - can't add existing file".to_string())), Ok(()));
    assert_eq!(backup_add_outcome(Err("denied".to_string())), Err("denied".to_string()));
}

#[test]
fn git_log_and_branches() {
    let log = "abc\u{1f}ab\u{1f}Subject one\u{1f}2 days ago\n\u{1f}x\u{1f}y\u{1f}z\nshort\u{1f}only\n";
    let commits = parse_git_log(log);
    assert_eq!(commits.len(), 1);
    assert_eq!(commits[0].rev, "abc");
    assert_eq!(commits[0].subject, "Subject one");
    assert_eq!(commits[0].relative_time, "2 days ago");
    let branches = parse_git_branches("main\n origin/main \nfeature\nmain\n\n");
    assert_eq!(branches, vec!["feature".to_string(), "main".to_string(), "origin/main".to_string()]);
}

#[test]
fn git_names_and_args() {
    assert_eq!(short_rev("0123456789abcdef"), "0123456789ab");
    assert_eq!(short_rev("abc"), "abc");
    assert_eq!(show_spec_arg("HEAD", "src/a.rs"), "HEAD:src/a.rs");
    assert_eq!(
        git_commit_title("commit 1234567\nAuthor: x\n\n    Add feature \n\ndiff", "1234567890"),
        "12345 - 'Add feature'"
    );
    assert_eq!(git_commit_title("no subject", "abc"), "abc - 'abc'");
    assert_eq!(
        list_git_commits_args("/r", 500, Some("dev")),
        vec!["-C", "/r", "log", "--max-count", "100", "--pretty=format:%H%x1f%h%x1f%s%x1f%cr", "dev"]
    );
    assert_eq!(list_git_commits_args("/r", 0, None)[4], "1");
    assert_eq!(
        untracked_to_add(&vec!["a".to_string()], &vec!["a".to_string(), "b".to_string()]),
        vec!["b".to_string()]
    );
}

#[test]
fn synthetic_added_file_holds_whole_text() {
    let pf = synthetic_git_added_file_diff("n.txt", "x\ny\n");
    assert_eq!(pf.old_path, "/dev/null");
    assert_eq!(pf.status, "added");
    assert_eq!(pf.hunks.len(), 1);
    assert!(pf.hunks[0].lines.iter().all(|l| l.kind == "add"));
    assert_eq!(pf.hunks[0].lines.len(), 2);
}

#[test]
fn path_based_names() {
    assert_eq!(display_repo_name("/home/u/proj"), "proj");
    assert_eq!(display_repo_name("/"), "/");
    assert_eq!(working_tree_title("/home/u/proj"), "Git working tree: proj");
    assert_eq!(backup_working_cwd("/w/a.diffedit.bak", None), Some("/w".to_string()));
    assert_eq!(backup_working_cwd("/w/a.diffedit.bak", Some("/c")), Some("/c".to_string()));
    assert_eq!(backup_working_cwd("/w/a.diffedit.bak", Some("  ")), Some("/w".to_string()));
}

#[test]
fn folder_picker_script() {
    assert_eq!(choose_folder_script(None), "POSIX path of (choose folder)");
    assert_eq!(
        choose_folder_script(Some("/a \"b\"")),
        "POSIX path of (choose folder default location POSIX file \"/a \\\"b\\\"\")"
    );
    assert_eq!(picked_directory("  /x/y \n"), Some("/x/y".to_string()));
    assert_eq!(picked_directory(" \n"), None);
}

#[test]
fn p4_runs_are_batched_in_order() {
    let paths: Vec<String> = (0..70).map(|i| format!("//d/f{}", i)).collect();
    let w = where_batches(&paths);
    assert_eq!(w.len(), 3);
    assert_eq!(w.iter().map(|a| a.len() - 1).collect::<Vec<_>>(), vec![WHERE_BATCH, WHERE_BATCH, 6]);
    assert!(w.iter().all(|a| a[0] == "where"));
    let flat: Vec<String> = w.iter().flat_map(|a| a[1..].to_vec()).collect();
    assert_eq!(flat, paths);
    let d = diff_batches(&paths);
    assert_eq!(d.iter().map(|a| a.len() - 2).collect::<Vec<_>>(), vec![DIFF_BATCH, DIFF_BATCH, 22]);
    assert_eq!(d[2][..2].to_vec(), vec!["diff".to_string(), "-du".to_string()]);
    assert_eq!(d[2][2], "//d/f48");
    assert!(where_batches(&Vec::new()).is_empty());
}

#[test]
fn changelist_labels_and_statuses() {
    assert_eq!(pending_status("default"), "Default");
    assert_eq!(pending_status("123"), "Pending");
    let s = describe_labels("77", true);
    assert_eq!((s.kind, s.status, s.fallback), ("p4Shelved", "Shelved", "Shelved changelist"));
    assert_eq!((s.left_label.as_str(), s.right_label.as_str()), ("depot previous/have", "shelf @=77"));
    let t = describe_labels("78", false);
    assert_eq!((t.kind, t.status, t.fallback), ("p4Submitted", "Submitted", "Submitted changelist"));
    assert_eq!((t.left_label.as_str(), t.right_label.as_str()), ("#rev-1", "#rev @78"));
}

#[test]
fn relative_paths_without_a_directory_have_no_local_file() {
    let p = |o: &str, n: &str| PatchFileDiff { old_path: o.to_string(), new_path: n.to_string(), hunks: vec![], status: "modified".to_string() };
    assert_eq!(pending_local_path(&p("/dev/null", "/w/a.c"), None), Some("/w/a.c".to_string()));
    assert_eq!(pending_local_path(&p("x", "s/a.c"), Some("/w")), Some("/w/s/a.c".to_string()));
    assert_eq!(pending_local_path(&p("x", "s/a.c"), None), None);
    assert_eq!(pending_local_path(&p("/w/o.c", "/dev/null"), Some("/w")), Some("/w/o.c".to_string()));
    assert_eq!(pending_local_path(&p("o.c", "/dev/null"), Some("/w")), None);
    assert_eq!(pending_local_path(&p("/dev/null", "/dev/null"), Some("/w")), None);
}
