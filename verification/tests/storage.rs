use diffviewer::diff_engine::unified_parser::parse_unified_diff;
use diffviewer::io::{decode_text_bytes, detect_eol, hex_sha256, normalize_eol};
use diffviewer::json::{json_object, JsonScalar};
use diffviewer::services::merge_service::{
    find_hunk, merge_buffer, parse_diffset_cwd, save_target_path, saved_text, tracks_pending_p4_backup,
};
use diffviewer::workspace_controller::{compare_json, compare_title, patch_filediff_record, patch_source_meta, patch_title};

#[test]
fn decodes_text_bytes() {
    assert_eq!(decode_text_bytes(b"plain \xff text"), "plain \u{fffd} text");
    assert_eq!(decode_text_bytes(&[0xFF, 0xFE, b'h', 0, b'i', 0]), "hi");
    assert_eq!(decode_text_bytes(&[0xFE, 0xFF, 0, b'h', 0, b'i', 0]), "hi");
    assert_eq!(decode_text_bytes(&[]), "");
}

#[test]
fn line_endings() {
    assert_eq!(detect_eol("a\r\nb"), "\r\n");
    assert_eq!(detect_eol("a\nb"), "\n");
    assert_eq!(normalize_eol("a\r\nb\nc", "\r\n"), "a\r\nb\r\nc");
    assert_eq!(normalize_eol("a\r\nb\n", "\n"), "a\nb\n");
    assert_eq!(saved_text("x\ny", Some("old\r\n")), "x\r\ny");
    assert_eq!(saved_text("x\r\ny", None), "x\r\ny");
}

#[test]
fn hashes_content() {
    assert_eq!(hex_sha256(b"abc"), "ba7816bf8f01cfea414140de5dae2223b00361a396177a9cb410ff61f20015ad");
    assert_eq!(hex_sha256(b""), "e3b0c44298fc1c149afbf4c8996fb92427ae41e4649b934ca495991b7852b855");
}

#[test]
fn writes_json_objects() {
    let f = vec![("a", JsonScalar::Num(1)), ("b", JsonScalar::Null), ("c", JsonScalar::Str("x\"y".to_string()))];
    assert_eq!(json_object(&f), r#"{"a":1,"b":null,"c":"x\"y"}"#);
    assert_eq!(json_object(&Vec::new()), "{}");
}

#[test]
fn merge_service_decisions() {
    let mb = merge_buffer("fd", "text".to_string(), true, 9);
    assert_eq!(mb.merged_content_json, r#"{"type":"virtual","text":"text"}"#);
    assert!(mb.dirty);
    let files = parse_unified_diff("--- a/x\n+++ b/x\n@@ -1 +1 @@\n-a\n+b\n@@ -5 +5 @@\n-c\n+d\n");
    assert_eq!(find_hunk(&files[0].hunks, "hunk-2"), Ok(1));
    assert_eq!(find_hunk(&files[0].hunks, "hunk-9"), Err("Hunk hunk-9 not found".to_string()));
    assert_eq!(save_target_path(r#"{"type":"path","path":"/w/a"}"#), Ok("/w/a".to_string()));
    assert_eq!(
        save_target_path(r#"{"type":"save_as_required"}"#),
        Err("Save As required - use save_mergebuffer_as with a target path".to_string())
    );
    assert_eq!(save_target_path(r#"{"type":"read_only"}"#), Err("This diff is read-only".to_string()));
    assert!(tracks_pending_p4_backup("p4PendingDefault"));
    assert!(!tracks_pending_p4_backup("p4Shelved"));
    assert_eq!(parse_diffset_cwd(r#"{"cwd":"/ws"}"#), Some("/ws".to_string()));
    assert_eq!(parse_diffset_cwd(r#"{"cwd":null}"#), None);
    assert_eq!(parse_diffset_cwd("bad"), None);
}

#[test]
fn patch_and_compare_records() {
    let files = parse_unified_diff("--- a/x.txt\n+++ b/x.txt\n@@ -1,2 +1,2 @@\n k\n-a\n+b\n");
    let r = patch_filediff_record(&files[0]);
    assert_eq!(r.display_path, "x.txt");
    assert_eq!(r.content_left_json, r#"{"text":"k\na","type":"virtual"}"#);
    assert_eq!(r.content_right_json, r#"{"text":"k\nb","type":"virtual"}"#);
    assert_eq!(r.write_target_json, r#"{"type":"save_as_required"}"#);
    assert_eq!(patch_source_meta("/p/x.diff"), r#"{"path":"/p/x.diff"}"#);
    assert_eq!(patch_title(None), "Imported Patch");
    assert_eq!(compare_title(None), "Two-way compare");
    let c = compare_json("/l", "/r", "s1", "s2", false);
    assert_eq!(c.source_meta_json, r#"{"left":"/l","right":"/r"}"#);
    assert_eq!(c.content_right_json, r#"{"snapshot_id":"s2","type":"snapshot"}"#);
    assert_eq!(c.write_target_json, r#"{"path":"/r","type":"path"}"#);
}

#[test]
fn compare_opened_by_request_is_read_only() {
    let c = compare_json("/l/a.txt", "/l/b.txt", "s1", "s2", true);
    assert_eq!(c.write_target_json, r#"{"type":"read_only"}"#);
    assert_eq!(c.content_left_json, r#"{"snapshot_id":"s1","type":"snapshot"}"#);
    assert_eq!(c.source_meta_json, r#"{"left":"/l/a.txt","right":"/l/b.txt"}"#);
}

#[test]
fn crlf_normalization_pairs_every_line_feed() {
    let out = normalize_eol("a\nb\r\nc\r\r\n\n", "\r\n");
    let bytes = out.as_bytes();
    for (i, b) in bytes.iter().enumerate() {
        if *b == b'\n' {
            assert!(i > 0 && bytes[i - 1] == b'\r');
        }
    }
    assert_eq!(out, "a\r\nb\r\nc\r\r\n\r\n");
}

#[test]
fn utf16_surrogates_pair_up_or_become_replacement_characters() {
    // U+1F600 as a little-endian surrogate pair, then a lone lead surrogate
    // followed by 'a', then a lone trail surrogate.
    let bytes = [0xFF, 0xFE, 0x3D, 0xD8, 0x00, 0xDE, 0x3D, 0xD8, b'a', 0, 0x00, 0xDE];
    assert_eq!(decode_text_bytes(&bytes), "\u{1F600}\u{FFFD}a\u{FFFD}");
    let be = [0xFE, 0xFF, 0xD8, 0x3D, 0xDE, 0x00, 0x00, b'z'];
    assert_eq!(decode_text_bytes(&be), "\u{1F600}z");
}
