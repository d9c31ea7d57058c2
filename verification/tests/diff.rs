use gitgui::git::diff::{parse, range, synth_new_file, LineKind};

const SAMPLE: &str = "\
diff --git a/src/app.rs b/src/app.rs
index 1111111..2222222 100644
--- a/src/app.rs
+++ b/src/app.rs
@@ -10,3 +10,4 @@ fn main() {
 let a = 1;
-let b = 2;
+let b = 3;
+let c = 4;
 let d = 5;
@@ -40,2 +41,2 @@ fn other() {
 keep
-drop me
+add me
";

#[test]
fn parses_two_hunks_with_line_numbers() {
    let fd = parse(SAMPLE);
    assert_eq!(fd.hunks.len(), 2);
    assert!(!fd.is_new && !fd.is_delete && !fd.binary);
    assert_eq!(fd.old_path().as_deref(), Some("src/app.rs"));
    assert_eq!(fd.new_path().as_deref(), Some("src/app.rs"));

    let h = &fd.hunks[0];
    assert_eq!((h.old_start, h.old_count), (10, 3));
    assert_eq!((h.new_start, h.new_count), (10, 4));
    assert_eq!(h.section, " fn main() {");
    assert_eq!(h.lines.len(), 5);
    assert_eq!(h.lines[0].kind, LineKind::Context);
    assert_eq!(h.lines[0].old_no, Some(10));
    assert_eq!(h.lines[0].new_no, Some(10));
    assert_eq!(h.lines[1].kind, LineKind::Deletion);
    assert_eq!(h.lines[1].text, "let b = 2;");
    assert_eq!(h.lines[1].old_no, Some(11));
    assert_eq!(h.lines[1].new_no, None);
    assert_eq!(h.lines[2].kind, LineKind::Addition);
    assert_eq!(h.lines[2].new_no, Some(11));
    assert_eq!(h.lines[3].new_no, Some(12));
    assert_eq!(h.lines[4].old_no, Some(12));
    assert_eq!(h.lines[4].new_no, Some(13));
    assert_eq!(fd.total_changes(), 5);
}

#[test]
fn round_trips_hunk_headers() {
    let fd = parse(SAMPLE);
    assert_eq!(fd.hunks[0].header(), "@@ -10,3 +10,4 @@ fn main() {");
    assert_eq!(fd.hunks[1].header(), "@@ -40,2 +41,2 @@ fn other() {");
}

#[test]
fn single_line_range_omits_count() {
    assert_eq!(range(5, 1), "5");
    assert_eq!(range(5, 2), "5,2");
    assert_eq!(range(0, 0), "0,0");
}

#[test]
fn detects_new_and_deleted_and_binary() {
    let new = parse("diff --git a/x b/x\nnew file mode 100644\n--- /dev/null\n+++ b/x\n@@ -0,0 +1 @@\n+hi\n");
    assert!(new.is_new);
    assert_eq!(new.old_path(), None);
    assert_eq!(new.hunks[0].old_count, 0);

    let del = parse("diff --git a/x b/x\ndeleted file mode 100644\n--- a/x\n+++ /dev/null\n@@ -1 +0,0 @@\n-bye\n");
    assert!(del.is_delete);
    assert_eq!(del.new_path(), None);

    let bin = parse("diff --git a/x.png b/x.png\nindex 1..2 100644\nBinary files a/x.png and b/x.png differ\n");
    assert!(bin.binary);
    assert!(bin.hunks.is_empty());
}

#[test]
fn no_newline_marker_attaches_to_hunk() {
    let fd = parse("diff --git a/x b/x\n--- a/x\n+++ b/x\n@@ -1 +1 @@\n-a\n\\ No newline at end of file\n+b\n");
    let l = &fd.hunks[0].lines;
    assert_eq!(l[0].kind, LineKind::Deletion);
    assert_eq!(l[1].kind, LineKind::NoNewline);
    assert_eq!(l[1].text, "\\ No newline at end of file");
    assert_eq!(l[2].kind, LineKind::Addition);
}

#[test]
fn empty_context_line_is_context_not_skipped() {
    let fd = parse("diff --git a/x b/x\n--- a/x\n+++ b/x\n@@ -1,3 +1,3 @@\n a\n\n-b\n+c\n");
    let kinds: Vec<LineKind> = fd.hunks[0].lines.iter().map(|l| l.kind).collect();
    assert_eq!(
        kinds,
        vec![
            LineKind::Context,
            LineKind::Context,
            LineKind::Deletion,
            LineKind::Addition
        ]
    );
}

#[test]
fn synthesised_untracked_diff() {
    let fd = synth_new_file("notes.txt", "one\ntwo\n", false);
    assert!(fd.is_new);
    assert_eq!(fd.hunks.len(), 1);
    assert_eq!(fd.hunks[0].lines.len(), 2);
    assert_eq!(fd.hunks[0].header(), "@@ -0,0 +1,2 @@");
    assert!(fd.hunks[0].lines.iter().all(|l| l.kind == LineKind::Addition));

    let no_nl = synth_new_file("a", "solo", false);
    assert_eq!(no_nl.hunks[0].lines.len(), 2);
    assert_eq!(no_nl.hunks[0].lines[1].kind, LineKind::NoNewline);
    assert_eq!(no_nl.hunks[0].header(), "@@ -0,0 +1 @@");

    let empty = synth_new_file("a", "", false);
    assert!(empty.hunks.is_empty());
    assert!(empty.header_only);
}

// ---------------------------------------------------------------------------
// Further cases
// ---------------------------------------------------------------------------

#[test]
fn hunk_change_count_counts_additions_and_deletions() {
    let fd = parse(SAMPLE);
    assert_eq!(fd.hunks[0].change_count(), 3);
    assert_eq!(fd.hunks[1].change_count(), 2);
    assert!(!fd.is_empty());
    assert!(parse("").is_empty());
}

#[test]
fn executable_untracked_file_gets_its_mode() {
    let fd = synth_new_file("run.sh", "echo hi\n", true);
    assert!(fd.header.iter().any(|h| h == "new file mode 100755"));
    assert_eq!(fd.hunks[0].lines[0].text, "echo hi");
    assert_eq!(fd.hunks[0].lines[0].new_no, Some(1));
}

#[test]
fn malformed_range_reads_as_zero() {
    let fd = parse("diff --git a/x b/x\n--- a/x\n+++ b/x\n@@ -x +1,2 @@\n+a\n+b\n");
    assert_eq!(fd.hunks[0].old_start, 0);
    assert_eq!(fd.hunks[0].new_count, 2);
}

#[test]
fn new_file_diff_spells_out_its_content() {
    let fd = synth_new_file("a", "x\ny", false);
    let added: Vec<&str> = fd.hunks[0]
        .lines
        .iter()
        .filter(|l| l.kind == LineKind::Addition)
        .map(|l| l.text.as_str())
        .collect();
    assert_eq!(added.join("\n"), "x\ny");
    assert_eq!(fd.hunks[0].lines.last().unwrap().kind, LineKind::NoNewline);
    let numbers: Vec<Option<u32>> = fd.hunks[0].lines.iter().map(|l| l.new_no).collect();
    assert_eq!(numbers, vec![Some(1), Some(2), None]);
}

#[test]
fn a_line_is_shown_with_its_marker() {
    let fd = parse("diff --git a/f b/f\n--- a/f\n+++ b/f\n@@ -1,2 +1,2 @@\n ctx\n-old\n+new\n\\ No newline at end of file\n");
    let shown: Vec<String> = fd.hunks[0].lines.iter().map(|l| l.display_text()).collect();
    assert_eq!(shown, vec![" ctx", "-old", "+new", "\\ No newline at end of file"]);
}
