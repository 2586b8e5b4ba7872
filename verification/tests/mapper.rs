use rust_diff_analyzer::analysis::{analyze_file, gives_no_changes, map_changes};
use rust_diff_analyzer::git::{parse_diff, FileDiff};
use rust_diff_analyzer::types::{
    Change, ChangeKind, CodeType, LineSpan, SemanticUnit, SemanticUnitKind, Visibility,
};

fn unit(name: &str, start: usize, end: usize) -> SemanticUnit {
    SemanticUnit {
        kind: Some(SemanticUnitKind::Function),
        name: name.to_string(),
        visibility: Visibility::Private,
        span: LineSpan { start, end },
        code_type: CodeType::Production,
    }
}

fn one_file(body: &str) -> FileDiff {
    let text = format!("diff --git a/src/lib.rs b/src/lib.rs\n--- a/src/lib.rs\n+++ b/src/lib.rs\n{}", body);
    let mut files = parse_diff(&text).unwrap();
    assert_eq!(files.len(), 1);
    files.remove(0)
}

fn seen(changes: &[Change]) -> Vec<(&str, ChangeKind, usize, usize)> {
    changes.iter().map(|c| (c.unit.name.as_str(), c.kind, c.lines_added, c.lines_removed)).collect()
}

#[test]
fn binary_and_hunkless_entries_give_no_changes() {
    let files = parse_diff("diff --git a/i.png b/i.png\nBinary files differ\n").unwrap();
    assert!(map_changes(&files[0], &vec![unit("a", 1, 100)]).is_empty());
    let bare = FileDiff {
        old_path: "a.rs".to_string(),
        new_path: "a.rs".to_string(),
        is_rename: false,
        is_binary: false,
        hunks: vec![],
    };
    assert!(map_changes(&bare, &vec![unit("a", 1, 100)]).is_empty());
    assert!(gives_no_changes(&files[0]));
    assert!(gives_no_changes(&bare));
    assert!(!gives_no_changes(&one_file("@@ -1 +1 @@\n-x\n+y\n")));
}

#[test]
fn a_unit_made_of_added_lines_is_added() {
    let diff = one_file("@@ -1,6 +1,10 @@\n fn a() {\n }\n \n+\n+fn new() {\n+    body\n+}\n \n fn c() {\n }\n");
    let units = vec![unit("a", 1, 2), unit("new", 5, 7), unit("c", 9, 10)];
    let changes = map_changes(&diff, &units);
    assert_eq!(seen(&changes), vec![("new", ChangeKind::Added, 3, 0)]);
    assert_eq!(changes[0].unit, units[1]);
}

#[test]
fn a_unit_with_a_replaced_line_is_modified() {
    let diff = one_file("@@ -1,3 +1,3 @@\n fn a() {\n-    old\n+    new\n }\n");
    let changes = map_changes(&diff, &vec![unit("a", 1, 3)]);
    assert_eq!(seen(&changes), vec![("a", ChangeKind::Modified, 1, 1)]);
}

#[test]
fn added_lines_over_a_removal_make_a_modified_unit() {
    let diff = one_file("@@ -1,1 +1,2 @@\n-fn a() {}\n+fn a() {\n+}\n");
    let changes = map_changes(&diff, &vec![unit("a", 1, 2)]);
    assert_eq!(seen(&changes), vec![("a", ChangeKind::Modified, 2, 1)]);
}

#[test]
fn a_partly_added_unit_is_modified() {
    let diff = one_file("@@ -1,2 +1,3 @@\n fn a() {\n+    more\n }\n");
    let changes = map_changes(&diff, &vec![unit("a", 1, 3)]);
    assert_eq!(seen(&changes), vec![("a", ChangeKind::Modified, 1, 0)]);
}

#[test]
fn removed_lines_without_a_unit_give_a_nameless_change() {
    let diff = one_file("@@ -1,6 +1,4 @@\n fn a() {\n }\n-fn gone() {\n-}\n \n fn c() {}\n");
    let changes = map_changes(&diff, &vec![unit("a", 1, 2), unit("c", 4, 4)]);
    assert_eq!(changes.len(), 1);
    let change = &changes[0];
    assert_eq!(change.kind, ChangeKind::Removed);
    assert_eq!(change.unit.kind, None);
    assert_eq!(change.unit.name, "");
    assert_eq!(change.unit.visibility, Visibility::Private);
    assert_eq!(change.unit.span, LineSpan { start: 3, end: 4 });
    assert_eq!(change.unit.code_type, CodeType::Production);
    assert_eq!((change.lines_added, change.lines_removed), (0, 2));
}

#[test]
fn removed_lines_count_for_the_unit_at_their_place() {
    let diff = one_file("@@ -1,5 +1,3 @@\n fn a() {\n }\n-fn gone() {\n-}\n fn c() {}\n");
    let changes = map_changes(&diff, &vec![unit("a", 1, 2), unit("c", 3, 3)]);
    assert_eq!(seen(&changes), vec![("c", ChangeKind::Modified, 0, 2)]);
}

#[test]
fn replaced_lines_without_a_unit_give_nothing() {
    let diff = one_file("@@ -1,3 +1,3 @@\n-use a;\n+use b;\n \n fn f() {}\n");
    assert!(map_changes(&diff, &vec![unit("f", 3, 3)]).is_empty());
}

#[test]
fn nameless_change_takes_its_purpose_from_the_path() {
    let text = "diff --git a/benches/b.rs b/benches/b.rs\n--- a/benches/b.rs\n+++ b/benches/b.rs\n@@ -1,2 +1,1 @@\n-gone\n x\n";
    let files = parse_diff(text).unwrap();
    let changes = map_changes(&files[0], &vec![]);
    assert_eq!(changes.len(), 1);
    assert_eq!(changes[0].unit.code_type, CodeType::Benchmark);
    assert_eq!(changes[0].unit.span, LineSpan { start: 1, end: 1 });
}

#[test]
fn one_hunk_over_two_units_is_apportioned() {
    let diff = one_file("@@ -1,4 +1,7 @@\n fn a() {\n+    x\n+    y\n }\n fn b() {\n+    z\n }\n");
    let units = vec![unit("a", 1, 4), unit("b", 5, 7)];
    let changes = map_changes(&diff, &units);
    assert_eq!(
        seen(&changes),
        vec![("a", ChangeKind::Modified, 2, 0), ("b", ChangeKind::Modified, 1, 0)]
    );
    let total: usize = changes.iter().map(|c| c.lines_added).sum();
    assert_eq!(total, diff.hunks[0].added_count());
    let removed: usize = changes.iter().map(|c| c.lines_removed).sum();
    assert_eq!(removed, diff.hunks[0].removed_count());
}

#[test]
fn lines_of_two_hunks_count_for_one_unit() {
    let diff = one_file("@@ -1,2 +1,3 @@\n fn a() {\n+    x\n     mid\n@@ -10,2 +11,3 @@\n     far\n+    y\n }\n");
    let changes = map_changes(&diff, &vec![unit("a", 1, 13)]);
    assert_eq!(seen(&changes), vec![("a", ChangeKind::Modified, 2, 0)]);
}

#[test]
fn changes_come_ordered_by_first_line() {
    let diff = one_file("@@ -1,3 +1,6 @@\n a\n+x\n b\n+y\n c\n+z\n");
    let units = vec![unit("third", 6, 6), unit("outer", 1, 6), unit("first", 2, 2), unit("second", 4, 4)];
    let changes = map_changes(&diff, &units);
    assert_eq!(
        seen(&changes),
        vec![
            ("outer", ChangeKind::Modified, 3, 0),
            ("first", ChangeKind::Added, 1, 0),
            ("second", ChangeKind::Added, 1, 0),
            ("third", ChangeKind::Added, 1, 0),
        ]
    );
}

#[test]
fn a_file_is_analyzed_from_its_text() {
    let diff = one_file("@@ -1,3 +1,7 @@\n pub fn old() {\n }\n \n+#[test]\n+fn fresh() {\n+    old();\n+}\n");
    let code = "pub fn old() {\n}\n\n#[test]\nfn fresh() {\n    old();\n}\n";
    let changes = analyze_file(&diff, code).unwrap();
    assert_eq!(seen(&changes), vec![("fresh", ChangeKind::Added, 4, 0)]);
    assert_eq!(changes[0].unit.code_type, CodeType::Test);
    assert_eq!(changes[0].unit.span, LineSpan { start: 4, end: 7 });
    let error = analyze_file(&diff, "fn broken( {").unwrap_err();
    assert_eq!(error.path, "src/lib.rs");
}
