use diffviewer::content_source::{ContentSource, SaveAsTarget, TextLocation, WriteTarget};

#[test]
fn parses_snake_case_write_targets() {
    assert_eq!(
        WriteTarget::from_json(r#"{"type":"save_as_required"}"#).unwrap(),
        WriteTarget::SaveAsRequired
    );
    assert_eq!(WriteTarget::from_json(r#"{"type":"read_only"}"#).unwrap(), WriteTarget::ReadOnly);
}

#[test]
fn virtual_content_resolves_without_io() {
    let source = ContentSource::from_json(r#"{"type":"virtual","text":"hello"}"#).unwrap();
    assert_eq!(source.resolve_text(), TextLocation::Inline("hello".to_string()));
}

#[test]
fn content_source_json_round_trip() {
    let sources = vec![
        ContentSource::virtual_text("a \"quoted\"\nline\t\u{1}".to_string()),
        ContentSource::path("C:\\work\\a.cpp".to_string()),
        ContentSource::snapshot("abc-123".to_string()),
    ];
    for s in sources {
        let json = s.to_json_string();
        assert_eq!(ContentSource::from_json(&json).unwrap(), s);
    }
}

#[test]
fn json_forms_match_serde_layout() {
    assert_eq!(ContentSource::virtual_text("hi".to_string()).to_json_string(), r#"{"type":"virtual","text":"hi"}"#);
    assert_eq!(ContentSource::path("/p".to_string()).to_json_string(), r#"{"type":"path","path":"/p"}"#);
    assert_eq!(
        ContentSource::snapshot("s".to_string()).to_json_string(),
        r#"{"type":"snapshot","snapshot_id":"s"}"#
    );
    assert_eq!(WriteTarget::ReadOnly.to_json_string(), r#"{"type":"read_only"}"#);
    assert_eq!(WriteTarget::SaveAsRequired.to_json_string(), r#"{"type":"save_as_required"}"#);
    assert_eq!(WriteTarget::path("/x".to_string()).to_json_string(), r#"{"type":"path","path":"/x"}"#);
    assert_eq!(ContentSource::virtual_text("\u{7f}é".to_string()).to_json_string(), "{\"type\":\"virtual\",\"text\":\"\u{7f}é\"}");
}

#[test]
fn from_json_errors() {
    assert_eq!(ContentSource::from_json(r#"{"type":"path"}"#), Err("missing field `path`".to_string()));
    assert_eq!(ContentSource::from_json(r#"{"text":"x"}"#), Err("missing field `type`".to_string()));
    assert_eq!(
        ContentSource::from_json(r#"{"type":"blob"}"#),
        Err("unknown variant `blob`, expected one of `virtual`, `path`, `snapshot`".to_string())
    );
    assert!(ContentSource::from_json("{").is_err());
    assert_eq!(
        WriteTarget::from_json(r#"{"type":"path","path":"/a/b"}"#),
        Ok(WriteTarget::Path { path: "/a/b".to_string() })
    );
}

#[test]
fn resolve_json_text_locations() {
    assert_eq!(
        ContentSource::resolve_json_text(r#"{"type":"path","path":"/tmp/x"}"#),
        Ok(TextLocation::File("/tmp/x".to_string()))
    );
    assert_eq!(
        ContentSource::resolve_json_text(r#"{"type":"snapshot","snapshot_id":"id"}"#),
        Ok(TextLocation::Snapshot("id".to_string()))
    );
    assert!(ContentSource::resolve_json_text("[]").is_err());
}

#[test]
fn save_as_targets() {
    assert_eq!(
        WriteTarget::resolve_save_as_target_json(r#"{"type":"read_only"}"#, "/abs/x.txt"),
        SaveAsTarget::Resolved("/abs/x.txt".to_string())
    );
    assert_eq!(
        WriteTarget::resolve_save_as_target_json(r#"{"type":"path","path":"/w/a.txt"}"#, "b.txt"),
        SaveAsTarget::Resolved("/w/b.txt".to_string())
    );
    assert_eq!(
        WriteTarget::resolve_save_as_target_json(r#"{"type":"save_as_required"}"#, "b.txt"),
        SaveAsTarget::InWorkingDirectory("b.txt".to_string())
    );
}

#[test]
fn write_target_json_round_trip() {
    let targets = vec![
        WriteTarget::path("/tmp/x \"y\"\u{7f}\u{1f}é😀.txt".to_string()),
        WriteTarget::SaveAsRequired,
        WriteTarget::ReadOnly,
    ];
    for t in targets {
        let json = t.to_json_string();
        assert_eq!(WriteTarget::from_json(&json).unwrap(), t);
    }
    let s = ContentSource::virtual_text("\u{8}\u{c}\r\\😀".to_string());
    assert_eq!(ContentSource::from_json(&s.to_json_string()).unwrap(), s);
}
