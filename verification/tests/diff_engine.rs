use diffviewer::diff_engine::merge::{apply_hunk_to_buffer, init_merge_buffer};
use diffviewer::diff_engine::render::build_rendered_model;
use diffviewer::diff_engine::twoway::{build_alignment_rows, compute_hunks, AlignmentCell, AlignmentRow};
use diffviewer::diff_engine::unified_parser::parse_unified_diff;

fn cell(line_no: usize, text: &str, kind: &str) -> AlignmentCell {
    AlignmentCell { line_no, text: text.to_string(), kind: kind.to_string() }
}

#[test]
fn test_init_merge() {
    let right = "line1\nline2\nline3";
    let merged = init_merge_buffer(right);
    assert_eq!(merged, right);
}

#[test]
fn splits_navigation_hunks_across_context_inside_same_patch_hunk() {
    let rows = vec![
        AlignmentRow {
            row_id: "row-1".to_string(),
            left: Some(cell(1, "old one", "del")),
            right: Some(cell(1, "new one", "add")),
            hunk_id: Some("hunk-1".to_string()),
        },
        AlignmentRow {
            row_id: "row-2".to_string(),
            left: Some(cell(2, "context", "context")),
            right: Some(cell(2, "context", "context")),
            hunk_id: Some("hunk-1".to_string()),
        },
        AlignmentRow {
            row_id: "row-3".to_string(),
            left: Some(cell(3, "old two", "del")),
            right: Some(cell(3, "new two", "add")),
            hunk_id: Some("hunk-1".to_string()),
        },
    ];

    let model = build_rendered_model("fd-1", &rows);
    assert_eq!(model.hunks.len(), 2);
    assert_eq!(model.hunks[0].start_row, 0);
    assert_eq!(model.hunks[0].end_row, 0);
    assert_eq!(model.hunks[1].start_row, 2);
    assert_eq!(model.hunks[1].end_row, 2);
}

#[test]
fn test_compute_hunks_simple() {
    let left = "line1\nline2\nline3\n";
    let right = "line1\nline2_mod\nline3\n";
    let hunks = compute_hunks(left, right);
    assert!(!hunks.is_empty());
    assert!(hunks[0].lines.iter().any(|l| l.kind == "del"));
    assert!(hunks[0].lines.iter().any(|l| l.kind == "add"));
}

#[test]
fn test_alignment_rows() {
    let left = "a\nb\nc\n";
    let right = "a\nB\nc\n";
    let hunks = compute_hunks(left, right);
    let rows = build_alignment_rows(left, right, &hunks);
    assert!(rows.len() >= 3);
}

#[test]
fn test_parse_simple_patch() {
    let patch = "\
--- a/hello.txt
+++ b/hello.txt
@@ -1,3 +1,4 @@
 line1
-line2
+line2_modified
+line2b
 line3
";
    let files = parse_unified_diff(patch);
    assert_eq!(files.len(), 1);
    assert_eq!(files[0].old_path, "hello.txt");
    assert_eq!(files[0].new_path, "hello.txt");
    assert_eq!(files[0].hunks.len(), 1);
    assert_eq!(files[0].hunks[0].lines.len(), 5);
}

#[test]
fn test_parse_added_file() {
    let patch = "\
--- /dev/null
+++ b/new_file.txt
@@ -0,0 +1,2 @@
+hello
+world
";
    let files = parse_unified_diff(patch);
    assert_eq!(files.len(), 1);
    assert_eq!(files[0].status, "added");
}

#[test]
fn test_parse_git_unified_diff() {
    let patch = "\
commit abc123
Author: Dev <dev@example.com>

    touch git path

diff --git a/src/lib.rs b/src/lib.rs
index e69de29..4b825dc 100644
--- a/src/lib.rs
+++ b/src/lib.rs
@@ -0,0 +1,2 @@
+pub fn answer() -> i32 {
+    42
+}
";
    let files = parse_unified_diff(patch);
    assert_eq!(files.len(), 1);
    assert_eq!(files[0].new_path, "src/lib.rs");
    assert_eq!(files[0].status, "modified");
}

#[test]
fn test_parse_p4_unified_diff() {
    let patch = "\
Change 12345 by dev@workspace on 2026/05/15 pending

Affected files ...

... //depot/main/foo.cpp#7 edit

Differences ...

==== //depot/main/foo.cpp#7 - C:\\work\\foo.cpp ====
--- //depot/main/foo.cpp#7
+++ C:\\work\\foo.cpp
@@ -1,2 +1,2 @@
 old
-line
+line changed
";
    let files = parse_unified_diff(patch);
    assert_eq!(files.len(), 1);
    assert_eq!(files[0].old_path, "//depot/main/foo.cpp#7");
    assert_eq!(files[0].new_path, "C:\\work\\foo.cpp");
    assert_eq!(files[0].hunks.len(), 1);
}

#[test]
fn compute_hunks_has_exact_ranges_and_ids() {
    let hunks = compute_hunks("a\nb\nc\n", "a\nB\nc\n");
    assert_eq!(hunks.len(), 1);
    let h = &hunks[0];
    assert_eq!(h.id, "hunk-1");
    assert_eq!((h.old_start, h.old_count, h.new_start, h.new_count), (1, 3, 1, 3));
    let kinds: Vec<&str> = h.lines.iter().map(|l| l.kind.as_str()).collect();
    assert_eq!(kinds, vec!["context", "del", "add", "context"]);
    let texts: Vec<&str> = h.lines.iter().map(|l| l.text.as_str()).collect();
    assert_eq!(texts, vec!["a", "b", "B", "c"]);
}

#[test]
fn identical_texts_have_no_hunks() {
    assert!(compute_hunks("x\ny\n", "x\ny\n").is_empty());
    assert!(compute_hunks("", "").is_empty());
}

#[test]
fn far_apart_changes_make_two_hunks() {
    let left = "1\n2\n3\n4\n5\n6\n7\n8\n9\n10\n11\n12\n";
    let right = "one\n2\n3\n4\n5\n6\n7\n8\n9\n10\n11\ntwelve\n";
    let hunks = compute_hunks(left, right);
    assert_eq!(hunks.len(), 2);
    assert_eq!(hunks[0].id, "hunk-1");
    assert_eq!(hunks[1].id, "hunk-2");
    assert_eq!(hunks[1].old_start, 9);
}

#[test]
fn hunks_come_in_order_with_equal_gaps_on_both_sides() {
    let left = "a\n1\n2\n3\n4\n5\n6\n7\nb\n8\n9\n10\n11\n12\n13\n14\nc\n";
    let right = "A\n1\n2\n3\n4\n5\n6\n7\n8\n9\n10\n11\n12\n13\n14\nc\nC\n";
    let hunks = compute_hunks(left, right);
    assert!(hunks.len() >= 2);
    for (k, h) in hunks.iter().enumerate() {
        assert_eq!(h.id, format!("hunk-{}", k + 1));
    }
    for pair in hunks.windows(2) {
        let (h, n) = (&pair[0], &pair[1]);
        assert!(h.old_start + h.old_count < n.old_start);
        assert!(h.new_start + h.new_count < n.new_start);
        assert_eq!(
            n.old_start - (h.old_start + h.old_count),
            n.new_start - (h.new_start + h.new_count)
        );
    }
}

#[test]
fn alignment_rows_pair_deletions_with_additions() {
    let left = "a\nb\nc\n";
    let right = "a\nB\nc\n";
    let hunks = compute_hunks(left, right);
    let rows = build_alignment_rows(left, right, &hunks);
    assert_eq!(rows.len(), 3);
    let ids: Vec<&str> = rows.iter().map(|r| r.row_id.as_str()).collect();
    assert_eq!(ids, vec!["row-1", "row-2", "row-3"]);
    let l = rows[1].left.as_ref().unwrap();
    let r = rows[1].right.as_ref().unwrap();
    assert_eq!((l.kind.as_str(), l.text.as_str(), l.line_no), ("del", "b", 2));
    assert_eq!((r.kind.as_str(), r.text.as_str(), r.line_no), ("add", "B", 2));
    assert_eq!(rows[1].hunk_id.as_deref(), Some("hunk-1"));
}

#[test]
fn alignment_rows_mark_unpaired_side_empty() {
    let left = "a\nc\n";
    let right = "a\nb\nc\n";
    let hunks = compute_hunks(left, right);
    let rows = build_alignment_rows(left, right, &hunks);
    let added = rows.iter().find(|r| r.right.as_ref().map(|c| c.kind == "add").unwrap_or(false)).unwrap();
    let empty = added.left.as_ref().unwrap();
    assert_eq!((empty.kind.as_str(), empty.line_no, empty.text.as_str()), ("empty", 0, ""));
}

#[test]
fn applying_hunk_from_left_restores_left_lines() {
    let left = "a\nb\nc";
    let right = "a\nB\nc";
    let hunks = compute_hunks(left, right);
    let merged = init_merge_buffer(right);
    let from_left = apply_hunk_to_buffer(&merged, &hunks[0], "left").unwrap();
    assert_eq!(from_left, "a\nb\nc");
    let from_right = apply_hunk_to_buffer(&merged, &hunks[0], "right").unwrap();
    assert_eq!(from_right, "a\nB\nc");
}

#[test]
fn parser_numbers_hunks_across_files() {
    let patch = "--- a/x\n+++ b/x\n@@ -1 +1 @@\n-a\n+b\n--- a/y\n+++ b/z\n@@ -2,0 +3,1 @@\n+c\n";
    let files = parse_unified_diff(patch);
    assert_eq!(files.len(), 2);
    assert_eq!(files[0].hunks[0].id, "hunk-1");
    assert_eq!(files[1].hunks[0].id, "hunk-2");
    assert_eq!(files[1].status, "renamed");
    assert_eq!((files[0].hunks[0].old_start, files[0].hunks[0].old_count), (1, 1));
    assert_eq!((files[1].hunks[0].new_start, files[1].hunks[0].new_count), (3, 1));
}

#[test]
fn rendered_model_closes_block_at_end_of_rows() {
    let rows = vec![AlignmentRow {
        row_id: "row-1".to_string(),
        left: Some(cell(1, "x", "del")),
        right: Some(cell(0, "", "empty")),
        hunk_id: Some("hunk-4".to_string()),
    }];
    let model = build_rendered_model("fd", &rows);
    assert_eq!(model.hunks.len(), 1);
    assert_eq!(model.hunks[0].hunk_id, "hunk-4-block-1");
    assert_eq!((model.hunks[0].start_row, model.hunks[0].end_row), (0, 0));
}

fn shown_texts(cells: Vec<Option<&AlignmentCell>>) -> Vec<String> {
    cells.into_iter().flatten().filter(|c| c.kind != "empty").map(|c| c.text.clone()).collect()
}

#[test]
fn alignment_rows_show_both_texts_in_order() {
    let left = "a\nb\nc\nd\ne\nf\ng\nh\ni\nj\nk\n";
    let right = "a\nB\nc\nd\ne\nf\ng\nh\ni\nJ\nJ2\nk\n";
    let hunks = compute_hunks(left, right);
    assert_eq!(hunks.len(), 2);
    let rows = build_alignment_rows(left, right, &hunks);
    let l = shown_texts(rows.iter().map(|r| r.left.as_ref()).collect());
    let r = shown_texts(rows.iter().map(|r| r.right.as_ref()).collect());
    assert_eq!(l, left.lines().map(|s| s.to_string()).collect::<Vec<_>>());
    assert_eq!(r, right.lines().map(|s| s.to_string()).collect::<Vec<_>>());
    for (k, row) in rows.iter().enumerate() {
        assert_eq!(row.row_id, format!("row-{}", k + 1));
    }
}

#[test]
fn navigation_blocks_cover_exactly_changed_rows() {
    let left = "a\nb\nc\nd\n";
    let right = "a\nx\nc\ny\n";
    let hunks = compute_hunks(left, right);
    let rows = build_alignment_rows(left, right, &hunks);
    let model = build_rendered_model("fd", &rows);
    let changed = |row: &AlignmentRow| {
        let is = |c: &Option<AlignmentCell>| c.as_ref().map(|c| c.kind == "add" || c.kind == "del" || c.kind == "empty").unwrap_or(false);
        is(&row.left) || is(&row.right)
    };
    for (i, row) in rows.iter().enumerate() {
        let inside = model.hunks.iter().any(|b| b.start_row <= i && i <= b.end_row);
        assert_eq!(inside, changed(row) && row.hunk_id.is_some());
    }
    assert_eq!(model.hunks.len(), 2);
    assert_eq!(model.hunks[0].hunk_id, "hunk-1-block-1");
    assert_eq!(model.hunks[1].hunk_id, "hunk-1-block-2");
}

#[test]
fn shown_cells_carry_their_line_numbers() {
    let left = "a\nb\nc\nd\ne\nf\ng\nh\ni\nj\nk\n";
    let right = "a\nB\nB2\nc\nd\ne\nf\ng\nh\ni\nk\n";
    let hunks = compute_hunks(left, right);
    let rows = build_alignment_rows(left, right, &hunks);
    let numbered = |cells: Vec<Option<&AlignmentCell>>| -> Vec<(usize, String)> {
        cells.into_iter().flatten().filter(|c| c.kind != "empty").map(|c| (c.line_no, c.text.clone())).collect()
    };
    let l = numbered(rows.iter().map(|r| r.left.as_ref()).collect());
    let r = numbered(rows.iter().map(|r| r.right.as_ref()).collect());
    let expect = |t: &str| -> Vec<(usize, String)> {
        t.lines().enumerate().map(|(i, s)| (i + 1, s.to_string())).collect()
    };
    assert_eq!(l, expect(left));
    assert_eq!(r, expect(right));
}
