use diffviewer::services::workspace_service::{
    remove_location, same_path, save_location, save_location_with_label, select_location,
    update_scm_settings, SavedWorkspaceLocation, WorkspaceLocationProvider, WorkspaceSettings,
};

fn loc(id: &str, path: &str, used: i64) -> SavedWorkspaceLocation {
    SavedWorkspaceLocation {
        id: id.to_string(),
        path: path.to_string(),
        label: path.to_string(),
        created_at: 1,
        last_used_at: used,
    }
}

#[test]
fn parses_providers() {
    assert!(matches!(WorkspaceLocationProvider::parse(" Git "), Ok(WorkspaceLocationProvider::Git)));
    assert!(matches!(WorkspaceLocationProvider::parse("PERFORCE"), Ok(WorkspaceLocationProvider::P4)));
    assert!(matches!(WorkspaceLocationProvider::parse("p4"), Ok(WorkspaceLocationProvider::P4)));
    assert_eq!(
        WorkspaceLocationProvider::parse(" SVN ").err(),
        Some("Unsupported workspace provider: svn".to_string())
    );
}

#[test]
fn saving_adds_and_selects() {
    let s = WorkspaceSettings::default();
    let s = save_location(s, WorkspaceLocationProvider::Git, "  /home/u/repo  ", 100, "id-1".to_string()).unwrap();
    assert_eq!(s.saved_git_directories.len(), 1);
    assert_eq!(s.saved_git_directories[0].path, "/home/u/repo");
    assert_eq!(s.saved_git_directories[0].label, "repo");
    assert_eq!(s.saved_git_directories[0].id, "id-1");
    assert_eq!(s.selected_git_directory_id.as_deref(), Some("id-1"));
    assert!(s.saved_p4_directories.is_empty());
    assert_eq!(
        save_location(WorkspaceSettings::default(), WorkspaceLocationProvider::P4, "   ", 1, "x".to_string()).err(),
        Some("Workspace path is required".to_string())
    );
}

#[test]
fn saving_same_path_refreshes_entry_and_orders_by_recency() {
    let mut s = WorkspaceSettings::default();
    s.saved_p4_directories = vec![loc("a", "/A", 50), loc("b", "/b", 40)];
    let s = save_location_with_label(s, WorkspaceLocationProvider::P4, "/B", "B".to_string(), 60, "new".to_string());
    let ids: Vec<&str> = s.saved_p4_directories.iter().map(|l| l.id.as_str()).collect();
    assert_eq!(ids, vec!["b", "a"]);
    assert_eq!(s.saved_p4_directories[0].path, "/B");
    assert_eq!(s.saved_p4_directories[0].last_used_at, 60);
    assert_eq!(s.saved_p4_directories[0].created_at, 1);
    assert_eq!(s.selected_p4_directory_id.as_deref(), Some("b"));
}

#[test]
fn ordering_is_stable_for_equal_times() {
    let mut s = WorkspaceSettings::default();
    s.saved_git_directories = vec![loc("x", "/x", 5), loc("y", "/y", 9), loc("z", "/z", 5)];
    let s = select_location(s, WorkspaceLocationProvider::Git, Some(" y ".to_string()), 7).unwrap();
    let ids: Vec<&str> = s.saved_git_directories.iter().map(|l| l.id.as_str()).collect();
    assert_eq!(ids, vec!["y", "x", "z"]);
    assert_eq!(s.selected_git_directory_id.as_deref(), Some("y"));
}

#[test]
fn selecting_unknown_or_blank_ids() {
    let mut s = WorkspaceSettings::default();
    s.saved_git_directories = vec![loc("x", "/x", 5)];
    s.selected_git_directory_id = Some("x".to_string());
    assert_eq!(
        select_location(s, WorkspaceLocationProvider::Git, Some("nope".to_string()), 1).err(),
        Some("Saved workspace location not found".to_string())
    );
    let mut s = WorkspaceSettings::default();
    s.selected_git_directory_id = Some("x".to_string());
    let s = select_location(s, WorkspaceLocationProvider::Git, Some("  ".to_string()), 1).unwrap();
    assert_eq!(s.selected_git_directory_id, None);
}

#[test]
fn removing_locations() {
    let mut s = WorkspaceSettings::default();
    s.saved_git_directories = vec![loc("x", "/x", 5), loc("y", "/y", 4)];
    s.selected_git_directory_id = Some("x".to_string());
    s.selected_p4_directory_id = Some("x".to_string());
    let s = remove_location(s, WorkspaceLocationProvider::Git, " x ").unwrap();
    assert_eq!(s.saved_git_directories.len(), 1);
    assert_eq!(s.saved_git_directories[0].id, "y");
    assert_eq!(s.selected_git_directory_id, None);
    assert_eq!(s.selected_p4_directory_id.as_deref(), Some("x"));
    let s2 = WorkspaceSettings::default();
    assert_eq!(
        remove_location(s2, WorkspaceLocationProvider::P4, "q").err(),
        Some("Saved workspace location not found".to_string())
    );
    assert_eq!(
        remove_location(s, WorkspaceLocationProvider::Git, " ").err(),
        Some("Saved workspace id is required".to_string())
    );
}

#[test]
fn paths_compare_ignoring_ascii_case() {
    assert!(same_path("C:\\Work\\Repo", "c:\\work\\repo"));
    assert!(!same_path("/a/b", "/a/c"));
    assert!(!same_path("É", "é"));
}

#[test]
fn updates_tokens() {
    let s = update_scm_settings(
        WorkspaceSettings::default(),
        Some("gh".to_string()),
        None,
        Some("https://gl.example".to_string()),
    );
    assert_eq!(s.github_pat.as_deref(), Some("gh"));
    assert_eq!(s.gitlab_pat, None);
    assert_eq!(s.gitlab_host_url.as_deref(), Some("https://gl.example"));
}
