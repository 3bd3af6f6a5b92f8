use diffviewer::open_request::{parse_argv, OpenRequest};
use diffviewer::services::open_service::{describe_request, is_patch_path, plan_open_request, two_way_group_since, OpenAction};

fn argv(v: &[&str]) -> Vec<String> {
    v.iter().map(|s| s.to_string()).collect()
}

#[test]
fn ignores_debug_flag_when_parsing_argv() {
    let args = vec![
        "diffviewer.exe".to_string(),
        "--debug".to_string(),
        "--diff".to_string(),
        "left.txt".to_string(),
        "right.txt".to_string(),
    ];

    let request = parse_argv(&args);
    assert!(matches!(
        request,
        Some(OpenRequest::OpenTwoWay { left_path, right_path, .. })
        if left_path == "left.txt" && right_path == "right.txt"
    ));
}

#[test]
fn parses_other_requests() {
    assert!(parse_argv(&argv(&["x"])).is_none());
    assert!(matches!(parse_argv(&argv(&["x", "a.patch"])), Some(OpenRequest::OpenPatch { path }) if path == "a.patch"));
    assert!(matches!(parse_argv(&argv(&["x", "--open", "p"])), Some(OpenRequest::OpenPatch { path }) if path == "p"));
    assert!(matches!(parse_argv(&argv(&["x", "--", "a", "b"])), Some(OpenRequest::OpenTwoWay { left_path, right_path, .. }) if left_path == "a" && right_path == "b"));
    assert!(matches!(
        parse_argv(&argv(&["x", "--merge", "--base", "B", "--local", "L", "--remote", "R", "--merged", "M"])),
        Some(OpenRequest::OpenMerge { base_path, local_path, remote_path, merged_path, .. })
        if base_path == "B" && local_path == "L" && remote_path == "R" && merged_path == "M"
    ));
    assert!(matches!(parse_argv(&argv(&["x", "a", "b", "c"])), Some(OpenRequest::OpenFiles { paths }) if paths.len() == 3));
    assert!(matches!(parse_argv(&argv(&["x", "--color", "always", "one"])), Some(OpenRequest::OpenFiles { paths }) if paths == vec!["one".to_string()]));
}

#[test]
fn plans_open_requests() {
    assert!(matches!(plan_open_request(OpenRequest::OpenPatch { path: "p".to_string() }), OpenAction::ImportPatch(p) if p == "p"));
    assert!(matches!(
        plan_open_request(OpenRequest::OpenFiles { paths: argv(&["fix.diff"]) }),
        OpenAction::ImportPatch(p) if p == "fix.diff"
    ));
    assert!(matches!(
        plan_open_request(OpenRequest::OpenFiles { paths: argv(&["a", "b"]) }),
        OpenAction::CompareTwo { left, right, title: None } if left == "a" && right == "b"
    ));
    assert!(matches!(
        plan_open_request(OpenRequest::OpenFiles { paths: argv(&["a"]) }),
        OpenAction::Refuse(e) if e == "Unsupported number of files"
    ));
    assert!(matches!(
        plan_open_request(OpenRequest::OpenMerge {
            base_path: "b".to_string(),
            local_path: "l".to_string(),
            remote_path: "r".to_string(),
            merged_path: "m".to_string(),
            title: None
        }),
        OpenAction::Refuse(e) if e == "Merge mode not yet implemented in V1"
    ));
    assert!(is_patch_path("x.patch") && is_patch_path("x.diff") && !is_patch_path("x.txt"));
    assert_eq!(describe_request(&OpenRequest::OpenFiles { paths: argv(&["a", "b", "c"]) }), "files count=3");
    assert_eq!(describe_request(&OpenRequest::OpenPatch { path: "p".to_string() }), "patch path=p");
}

#[test]
fn passthrough_flags_after_program_name_change_nothing() {
    for flag in ["--", "--debug", "--no-default-features", "--release"] {
        for rest in [vec!["a", "b"], vec!["x.patch"], vec!["--diff", "l", "r"], vec![]] {
            let mut with = vec!["prog".to_string(), flag.to_string()];
            with.extend(rest.iter().map(|s| s.to_string()));
            let mut without = vec!["prog".to_string()];
            without.extend(rest.iter().map(|s| s.to_string()));
            assert_eq!(format!("{:?}", parse_argv(&with)), format!("{:?}", parse_argv(&without)));
        }
    }
}

#[test]
fn two_way_compares_group_within_five_seconds() {
    assert_eq!(two_way_group_since(1_700_000_000), 1_699_999_995);
    assert_eq!(two_way_group_since(5), 0);
}
