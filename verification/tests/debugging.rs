use diffviewer::content_source::TextLocation;
use diffviewer::debugging::content_source_line_count;
use diffviewer::debugging::{
    configure_from_args, count_lines, debug_enabled_from, describe_line_count, env_flag_enabled,
    DebugLogger,
};

#[test]
fn counts_empty_text_as_single_editor_line() {
    assert_eq!(count_lines(""), 1);
}

#[test]
fn counts_trailing_newline_as_extra_line() {
    assert_eq!(count_lines("one\ntwo\n"), 3);
}

#[test]
fn enables_debug_from_args() {
    let args = vec!["diffviewer.exe".to_string(), "--debug".to_string()];
    assert!(debug_enabled_from(&args, None));
}

#[test]
fn enables_debug_from_npm_config_env() {
    let args = vec!["diffviewer.exe".to_string()];
    assert!(debug_enabled_from(&args, Some("true".to_string())));
}

#[test]
fn ignores_falsey_npm_config_env() {
    let args = vec!["diffviewer.exe".to_string()];
    assert!(!debug_enabled_from(&args, Some("false".to_string())));
}

#[test]
fn env_flag_values() {
    assert!(env_flag_enabled(Some(" YES ".to_string())));
    assert!(env_flag_enabled(Some("1".to_string())));
    assert!(!env_flag_enabled(Some("0".to_string())));
    assert!(!env_flag_enabled(Some(" No ".to_string())));
    assert!(!env_flag_enabled(Some("FALSE".to_string())));
    assert!(!env_flag_enabled(Some("   ".to_string())));
    assert!(!env_flag_enabled(None));
}

#[test]
fn configure_from_args_reads_debug_flag() {
    assert!(configure_from_args(&["x".to_string(), "--debug".to_string()]));
    assert!(!configure_from_args(&["x".to_string(), "--debugger".to_string()]));
    assert!(!configure_from_args(&[]));
}

#[test]
fn logger_lines() {
    let d = DebugLogger::new("scm");
    assert_eq!(d.log(true, "hello"), Some("[diffviewer-debug][scm] hello".to_string()));
    assert_eq!(d.log(false, "hello"), None);
    assert_eq!(d.log_multiline(true, "stdout", "a\nb"), Some("[diffviewer-debug][scm] stdout:\na\nb".to_string()));
    assert_eq!(d.log_multiline(true, "stdout", "  \n "), None);
    assert_eq!(
        d.log_diff_line_counts(true, "a.txt", "3", "error(boom)"),
        Some("[diffviewer-debug][scm] diff_line_counts path=a.txt prev=3 new=error(boom)".to_string())
    );
    assert_eq!(
        d.log_merge_line_count(true, "a.txt", "x\ny\n", "save"),
        Some("[diffviewer-debug][scm] merge_line_count path=a.txt context=save merge=3".to_string())
    );
}

#[test]
fn describes_line_counts() {
    assert_eq!(describe_line_count(Ok(12)), "12");
    assert_eq!(describe_line_count(Err("Missing path".to_string())), "error(Missing path)");
}

#[test]
fn content_source_line_count_locations() {
    assert_eq!(
        content_source_line_count(r#"{"type":"virtual","text":"a\nb"}"#),
        Ok(TextLocation::Inline("a\nb".to_string()))
    );
    assert_eq!(content_source_line_count(r#"{"type":"virtual"}"#), Ok(TextLocation::Inline(String::new())));
    assert_eq!(content_source_line_count(r#"{"type":"path"}"#), Err("Missing path".to_string()));
    assert_eq!(
        content_source_line_count(r#"{"type":"snapshot","snapshot_id":"s1"}"#),
        Ok(TextLocation::Snapshot("s1".to_string()))
    );
    assert_eq!(
        content_source_line_count(r#"{"type":"other"}"#),
        Err("Unsupported content source type other".to_string())
    );
    assert_eq!(content_source_line_count(r#"{"text":"x"}"#), Err("Missing content source type".to_string()));
    assert!(content_source_line_count("not json").is_err());
}
