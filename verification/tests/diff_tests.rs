use g3_core::diff::{apply_unified_diff_to_string, parse_unified_diff_hunks, DiffError};

#[test]
fn parses_minimal_unified_diff_without_hunk_header() {
    let diff = "--- old\n-old text\n+++ new\n+new text\n";
    let hunks = parse_unified_diff_hunks(diff);
    assert_eq!(hunks.len(), 1);
    assert_eq!(hunks[0].0, "old text");
    assert_eq!(hunks[0].1, "new text");
}

#[test]
fn parses_diff_with_context_and_hunk_headers() {
    let diff = "@@ -1,3 +1,3 @@\n common\n-old\n+new\n common2\n";
    let hunks = parse_unified_diff_hunks(diff);
    assert_eq!(hunks.len(), 1);
    assert_eq!(hunks[0].0, "common\nold\ncommon2");
    assert_eq!(hunks[0].1, "common\nnew\ncommon2");
}

#[test]
fn apply_multi_hunk_unified_diff_to_string() {
    let original = "line 1\nkeep\nold A\nkeep 2\nold B\nkeep 3\n";
    let diff =
        "@@ -1,6 +1,6 @@\n line 1\n keep\n-old A\n+new A\n keep 2\n-old B\n+new B\n keep 3\n";
    let result = apply_unified_diff_to_string(original, diff, None, None).unwrap();
    let expected = "line 1\nkeep\nnew A\nkeep 2\nnew B\nkeep 3\n";
    assert_eq!(result, expected);
}

#[test]
fn apply_diff_within_range_only() {
    let original = "A\nold\nB\nold\nC\n";
    // Only the first 'old' should be replaced due to range
    let diff = "@@ -1,3 +1,3 @@\n A\n-old\n+NEW\n B\n";
    let start = 0usize; // Start of file
    let end = original.find("B\n").unwrap() + 2; // up to end of line 'B\n'
    let result = apply_unified_diff_to_string(original, diff, Some(start), Some(end)).unwrap();
    let expected = "A\nNEW\nB\nold\nC\n";
    assert_eq!(result, expected);
}

#[test]
fn parses_two_hunks_in_order() {
    let diff = "diff --git a/x b/x\nindex 1..2 100644\n--- a/x\n+++ b/x\n@@ -1,2 +1,2 @@\n-a\n+b\n@@ -9,2 +9,2 @@\n c\n-d\n+e\n\\ No newline at end of file\n";
    let hunks = parse_unified_diff_hunks(diff);
    assert_eq!(hunks.len(), 2);
    assert_eq!(hunks[0], ("a".to_string(), "b".to_string()));
    assert_eq!(hunks[1], ("c\nd".to_string(), "c\ne".to_string()));
}

#[test]
fn parse_ignores_text_before_the_first_marker() {
    let hunks = parse_unified_diff_hunks("Here is the patch:\n\n-x\n+y\nunmarked\n");
    assert_eq!(hunks, vec![("x".to_string(), "y".to_string())]);
}

#[test]
fn parse_keeps_carriage_return_only_inside_a_line() {
    let hunks = parse_unified_diff_hunks("@@\n-a\rb\r\n+c\r\n");
    assert_eq!(hunks, vec![("a\rb".to_string(), "c".to_string())]);
}

#[test]
fn apply_rejects_diff_without_hunks() {
    let result = apply_unified_diff_to_string("abc\n", "nothing to see\n", None, None);
    assert!(matches!(result, Err(DiffError::InvalidDiff)));
    let result = apply_unified_diff_to_string("abc\n", "", Some(99), None);
    assert!(matches!(result, Err(DiffError::InvalidDiff)));
}

#[test]
fn apply_rejects_range_out_of_bounds() {
    let diff = "@@\n-a\n+b\n";
    let result = apply_unified_diff_to_string("a\r\n", diff, Some(3), None);
    assert!(matches!(
        result,
        Err(DiffError::RangeOutOfBounds { start: 3, end: 2, len: 2 })
    ));
    let result = apply_unified_diff_to_string("a\n", diff, None, Some(3));
    assert!(matches!(
        result,
        Err(DiffError::RangeOutOfBounds { start: 0, end: 3, len: 2 })
    ));
    let result = apply_unified_diff_to_string("a\n", diff, Some(2), Some(1));
    assert!(matches!(
        result,
        Err(DiffError::RangeOutOfBounds { start: 2, end: 1, len: 2 })
    ));
}

#[test]
fn apply_reports_the_hunk_that_was_not_found() {
    let diff = "@@\n-a\n+b\n@@\n-zzz\n+y\n";
    match apply_unified_diff_to_string("a\nc\n", diff, None, None) {
        Err(DiffError::PatternNotFound { hunk_index, preview, range }) => {
            assert_eq!(hunk_index, 1);
            assert_eq!(preview, "zzz");
            assert_eq!(range, None);
        }
        other => panic!("unexpected: {:?}", other),
    }
    match apply_unified_diff_to_string("a\nc\n", "@@\n-c\n+d\n", Some(0), Some(2)) {
        Err(DiffError::PatternNotFound { hunk_index, preview, range }) => {
            assert_eq!(hunk_index, 0);
            assert_eq!(preview, "c");
            assert_eq!(range, Some((0, 2)));
        }
        other => panic!("unexpected: {:?}", other),
    }
}

#[test]
fn apply_truncates_the_preview_to_200_characters() {
    let long_line = "é".repeat(201);
    let diff = format!("@@\n-{}\n+x\n", long_line);
    match apply_unified_diff_to_string("abc", &diff, None, None) {
        Err(DiffError::PatternNotFound { preview, .. }) => {
            assert_eq!(preview, format!("{}...", "é".repeat(200)));
        }
        other => panic!("unexpected: {:?}", other),
    }
    let exact = "é".repeat(200);
    let diff = format!("@@\n-{}\n+x\n", exact);
    match apply_unified_diff_to_string("abc", &diff, None, None) {
        Err(DiffError::PatternNotFound { preview, .. }) => assert_eq!(preview, exact),
        other => panic!("unexpected: {:?}", other),
    }
}

#[test]
fn apply_normalizes_line_endings() {
    let result = apply_unified_diff_to_string("a\r\nb\rc\r\n", "@@\n-b\n+B\n", None, None).unwrap();
    assert_eq!(result, "a\nB\nc\n");
}

#[test]
fn apply_replaces_only_the_first_occurrence() {
    let result = apply_unified_diff_to_string("x\nx\nx\n", "@@\n-x\n+y\n", None, None).unwrap();
    assert_eq!(result, "y\nx\nx\n");
}

#[test]
fn apply_hunks_see_what_earlier_hunks_wrote() {
    let diff = "@@\n-a\n+b\n@@\n-b\n+c\n";
    let result = apply_unified_diff_to_string("a\n", diff, None, None).unwrap();
    assert_eq!(result, "c\n");
}

#[test]
fn apply_snaps_offsets_forward_to_character_boundaries() {
    // "é" takes the bytes 1 and 2, "ü" the bytes 4 and 5.
    let content = "aébüc";
    // Both offsets fall inside a character: the region becomes "bü".
    let result = apply_unified_diff_to_string(content, "@@\n-b\n+B\n", Some(2), Some(5)).unwrap();
    assert_eq!(result, "aéBüc");
    match apply_unified_diff_to_string(content, "@@\n-é\n+E\n", Some(2), Some(5)) {
        Err(DiffError::PatternNotFound { range, .. }) => assert_eq!(range, Some((3, 6))),
        other => panic!("unexpected: {:?}", other),
    }
    // An offset inside the last character snaps to the end of the text.
    let result = apply_unified_diff_to_string("aé", "@@\n+X\n", Some(2), None).unwrap();
    assert_eq!(result, "aéX");
}

#[test]
fn apply_keeps_text_outside_the_range() {
    let content = "old\nmiddle old\nold\n";
    let result =
        apply_unified_diff_to_string(content, "@@\n-old\n+new\n", Some(4), Some(14)).unwrap();
    assert_eq!(result, "old\nmiddle new\nold\n");
    assert_eq!(&result.as_bytes()[..4], &content.as_bytes()[..4]);
    assert_eq!(&result.as_bytes()[result.len() - 5..], &content.as_bytes()[14..]);
}
