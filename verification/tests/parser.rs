use rust_diff_analyzer::git::diff_parser::{diff_error, parse_hunk_header, DiffFault, HunkHeader};
use rust_diff_analyzer::git::{parse_diff, LineType};

fn chars(s: &str) -> Vec<char> {
    s.chars().collect()
}

#[test]
fn empty_text_has_no_sections() {
    assert_eq!(parse_diff("").ok(), Some(vec![]));
}

#[test]
fn text_without_a_section_has_no_sections() {
    assert_eq!(parse_diff("commit 1234\nAuthor: someone\n").ok(), Some(vec![]));
}

#[test]
fn one_hunk_is_numbered_from_its_header() {
    let diff = "diff --git a/src/lib.rs b/src/lib.rs\nindex 1..2 100644\n--- a/src/lib.rs\n+++ b/src/lib.rs\n@@ -10,3 +20,4 @@ fn context()\n one\n-two\n+three\n+four\n five\n";
    let files = parse_diff(diff).unwrap();
    assert_eq!(files.len(), 1);
    let file = &files[0];
    assert_eq!(file.old_path, "src/lib.rs");
    assert_eq!(file.new_path, "src/lib.rs");
    assert!(!file.is_rename);
    assert!(!file.is_binary);
    assert_eq!(file.hunks.len(), 1);
    let hunk = &file.hunks[0];
    assert_eq!((hunk.old_start, hunk.old_count, hunk.new_start, hunk.new_count), (10, 3, 20, 4));
    let seen: Vec<(LineType, &str, usize, usize)> = hunk
        .lines
        .iter()
        .map(|l| (l.line_type, l.content.as_str(), l.old_line, l.new_line))
        .collect();
    assert_eq!(
        seen,
        vec![
            (LineType::Context, "one", 10, 20),
            (LineType::Removed, "two", 11, 21),
            (LineType::Added, "three", 12, 21),
            (LineType::Added, "four", 12, 22),
            (LineType::Context, "five", 12, 23),
        ]
    );
    assert_eq!(hunk.added_count(), 2);
    assert_eq!(hunk.removed_count(), 1);
    assert_eq!(hunk.count(LineType::Context), 2);
    assert_eq!(hunk.lines[1].old_number(), Some(11));
    assert_eq!(hunk.lines[1].new_number(), None);
    assert_eq!(hunk.lines[2].old_number(), None);
    assert_eq!(hunk.lines[2].new_number(), Some(21));
}

#[test]
fn no_newline_marker_is_not_counted() {
    let with = "diff --git a/a.rs b/a.rs\n--- a/a.rs\n+++ b/a.rs\n@@ -1,1 +1,2 @@\n fn main() {}\n+fn test() {}\n\\ No newline at end of file\n";
    let without = "diff --git a/a.rs b/a.rs\n--- a/a.rs\n+++ b/a.rs\n@@ -1,1 +1,2 @@\n fn main() {}\n+fn test() {}\n";
    let a = parse_diff(with).unwrap();
    let b = parse_diff(without).unwrap();
    assert_eq!(a, b);
    assert_eq!(a[0].hunks[0].lines.len(), 2);
    assert_eq!(a[0].hunks[0].added_count(), 1);
}

#[test]
fn binary_section_has_no_hunks() {
    let files = parse_diff("diff --git a/image.png b/image.png\nBinary files differ\n").unwrap();
    assert_eq!(files.len(), 1);
    assert!(files[0].is_binary);
    assert!(files[0].hunks.is_empty());
    assert_eq!(files[0].new_path, "image.png");
    let long = parse_diff(
        "diff --git a/i.png b/i.png\nindex 1..2\nBinary files a/i.png and b/i.png differ\n",
    )
    .unwrap();
    assert!(long[0].is_binary);
}

#[test]
fn rename_keeps_both_paths() {
    let diff = "diff --git a/old.rs b/new.rs\nsimilarity index 90%\nrename from old.rs\nrename to new.rs\n--- a/old.rs\n+++ b/new.rs\n@@ -1,1 +1,2 @@\n fn main() {}\n+fn added() {}\n";
    let files = parse_diff(diff).unwrap();
    assert_eq!(files.len(), 1);
    assert!(files[0].is_rename);
    assert_eq!(files[0].old_path, "old.rs");
    assert_eq!(files[0].new_path, "new.rs");
    assert_eq!(files[0].hunks.len(), 1);
    assert_eq!(files[0].hunks[0].added_count(), 1);
}

#[test]
fn two_sections_and_two_hunks() {
    let diff = "diff --git a/a.rs b/a.rs\n--- a/a.rs\n+++ b/a.rs\n@@ -1 +1 @@\n-x\n+y\n@@ -10,2 +10,1 @@\n a\n-b\ndiff --git a/b.bin b/b.bin\nBinary files a/b.bin and b/b.bin differ\ndiff --git a/c.rs b/c.rs\n--- a/c.rs\n+++ b/c.rs\n@@ -0,0 +1,1 @@\n+new\n";
    let files = parse_diff(diff).unwrap();
    assert_eq!(files.len(), 3);
    assert_eq!(files[0].hunks.len(), 2);
    assert_eq!(files[0].hunks[0].old_count, 1);
    assert_eq!(files[0].hunks[0].new_count, 1);
    assert_eq!(files[0].hunks[1].lines[1].old_line, 11);
    assert!(files[1].is_binary);
    assert_eq!(files[2].hunks[0].lines[0].new_line, 1);
    assert_eq!(files[2].hunks[0].lines[0].old_line, 0);
}

#[test]
fn carriage_returns_are_dropped() {
    let diff = "diff --git a/a.rs b/a.rs\r\n--- a/a.rs\r\n+++ b/a.rs\r\n@@ -1 +1 @@\r\n-x\r\n+y\r\n";
    let files = parse_diff(diff).unwrap();
    assert_eq!(files[0].hunks[0].lines[0].content, "x");
    assert_eq!(files[0].hunks[0].lines[1].content, "y");
}

#[test]
fn faults_name_their_line() {
    let message = |text: &str| parse_diff(text).unwrap_err().message;
    assert_eq!(message("diff --git"), "line 1: section header lacks its two paths");
    assert_eq!(message("diff --git a/x"), "line 1: section header lacks its two paths");
    assert_eq!(
        message("diff --git a/x b/x\n--- a/x\n+++ b/x\n@@ invalid @@\n"),
        "line 4: malformed hunk header"
    );
    assert_eq!(
        message("diff --git a/x b/x\n--- a/x\n+++ b/x\n"),
        "line 3: file section has no hunk"
    );
    assert_eq!(message("diff --git a/x b/x\n"), "line 1: file section has no hunk");
    assert_eq!(
        message("diff --git a/x b/x\ndiff --git a/y b/y\nBinary files differ\n"),
        "line 2: file section has no hunk"
    );
    assert_eq!(
        message("diff --git a/x b/x\n@@ -1 +1 @@\n"),
        "line 2: old-path and new-path lines are missing"
    );
    assert_eq!(
        message("diff --git a/x b/x\n--- a/x\n@@ -1 +1 @@\n"),
        "line 3: old-path and new-path lines are missing"
    );
    assert_eq!(
        message("diff --git a/x b/x\n--- a/x\n+++ b/x\n x\n"),
        "line 4: file section has no hunk"
    );
    assert_eq!(
        message("diff --git a/x b/x\n--- a/x\n+++ b/x\n@@ -1 +1 @@\n x\nwhat\n"),
        "line 6: unexpected line in hunk body"
    );
    assert_eq!(
        message("diff --git a/x b/x\n--- a/x\n+++ b/x\n@@ -1 +1 @@\n x\n\n"),
        "line 6: unexpected line in hunk body"
    );
    assert_eq!(
        message("diff --git a/x b/x\n--- a/x\n+++ b/x\n@@ -18446744073709551615 +1 @@\n x\n"),
        "line 5: line number out of range"
    );
    assert_eq!(
        message("diff --git a/x b/x\n--- a/x\n+++ b/x\n@@ -1 +99999999999999999999999 @@\n"),
        "line 4: malformed hunk header"
    );
}

#[test]
fn error_for_a_fault() {
    assert_eq!(diff_error(DiffFault::MissingHunk, 1204).message, "line 1204: file section has no hunk");
    assert_eq!(diff_error(DiffFault::UnexpectedLine, 0).message, "line 0: unexpected line in hunk body");
}

#[test]
fn hunk_headers() {
    let h = |a, b, c, d| Some(HunkHeader { old_start: a, old_count: b, new_start: c, new_count: d });
    assert_eq!(parse_hunk_header(&chars("@@ -1,2 +3,4 @@")), h(1, 2, 3, 4));
    assert_eq!(parse_hunk_header(&chars("@@ -1 +3 @@")), h(1, 1, 3, 1));
    assert_eq!(parse_hunk_header(&chars("@@ -12,0 +13,7 @@ fn f() {")), h(12, 0, 13, 7));
    assert_eq!(parse_hunk_header(&chars("@@ -007 +3,4 @@")), h(7, 1, 3, 4));
    assert_eq!(parse_hunk_header(&chars("@@ invalid @@")), None);
    assert_eq!(parse_hunk_header(&chars("@@ -1,2 +3,4")), None);
    assert_eq!(parse_hunk_header(&chars("@@ -1, +3,4 @@")), None);
    assert_eq!(parse_hunk_header(&chars("@@ -1,2 3,4 @@")), None);
    assert_eq!(parse_hunk_header(&chars("@@ -a +3 @@")), None);
    assert_eq!(parse_hunk_header(&chars("@@-1 +3 @@")), None);
}

#[test]
fn header_word_alone_is_no_prefix() {
    assert_eq!(parse_diff("diff --gitx a b\n").ok(), Some(vec![]));
}
