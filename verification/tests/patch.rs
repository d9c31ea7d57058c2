use gitgui::git::diff::parse;
use gitgui::git::patch::{build_full_patch, build_hunk_patch, build_patch, hunk_change_lines, ApplyMode};

const TWO_HUNKS: &str = "\
diff --git a/f b/f
index 1111111..2222222 100644
--- a/f
+++ b/f
@@ -10,3 +10,4 @@ ctx heading
 keep1
-old2
+new2
+new3
 keep4
@@ -40,2 +41,2 @@
 keep5
-old6
+new6
";

fn only(hunk: usize, lines: &[usize]) -> impl Fn(usize, usize) -> bool + '_ {
    move |h, l| h == hunk && lines.contains(&l)
}

#[test]
fn full_forward_patch_reproduces_original() {
    let fd = parse(TWO_HUNKS);
    let p = build_full_patch(&fd, ApplyMode::Forward).unwrap();
    assert_eq!(p, TWO_HUNKS);
}

#[test]
fn full_reverse_patch_is_also_the_original() {
    // Everything is selected, so no line needs converting either way.
    let fd = parse(TWO_HUNKS);
    let p = build_full_patch(&fd, ApplyMode::Reverse).unwrap();
    assert_eq!(p, TWO_HUNKS);
}

#[test]
fn forward_drops_unselected_additions_and_keeps_deletions_as_context() {
    let fd = parse(TWO_HUNKS);
    // hunk 0 lines: 0=keep1 1=-old2 2=+new2 3=+new3 4=keep4
    // Select only the deletion.
    let p = build_patch(&fd, ApplyMode::Forward, &only(0, &[1])).unwrap();
    assert_eq!(
        p,
        "\
diff --git a/f b/f
index 1111111..2222222 100644
--- a/f
+++ b/f
@@ -10,3 +10,2 @@ ctx heading
 keep1
-old2
 keep4
"
    );
}

#[test]
fn forward_selecting_one_addition_converts_the_deletion_to_context() {
    let fd = parse(TWO_HUNKS);
    let p = build_patch(&fd, ApplyMode::Forward, &only(0, &[2])).unwrap();
    assert_eq!(
        p,
        "\
diff --git a/f b/f
index 1111111..2222222 100644
--- a/f
+++ b/f
@@ -10,3 +10,4 @@ ctx heading
 keep1
 old2
+new2
 keep4
"
    );
}

#[test]
fn reverse_selecting_one_addition_converts_the_other_addition_to_context() {
    let fd = parse(TWO_HUNKS);
    // Unstage just "+new2": "+new3" must stay in the index, and "-old2"
    // must not come back.
    let p = build_patch(&fd, ApplyMode::Reverse, &only(0, &[2])).unwrap();
    assert_eq!(
        p,
        "\
diff --git a/f b/f
index 1111111..2222222 100644
--- a/f
+++ b/f
@@ -10,3 +10,4 @@ ctx heading
 keep1
+new2
 new3
 keep4
"
    );
}

#[test]
fn second_hunk_new_start_accounts_for_the_first() {
    let fd = parse(TWO_HUNKS);

    // Only hunk 1 staged: hunk 0's +1 line never happens, so the new-side
    // start falls back to the old-side start.
    let p = build_patch(&fd, ApplyMode::Forward, &|h, _| h == 1).unwrap();
    assert!(p.contains("@@ -40,2 +40,2 @@"), "got: {p}");

    // Both hunks staged: hunk 0 nets +1, so hunk 1 shifts to 41 as in the
    // original diff.
    let p = build_full_patch(&fd, ApplyMode::Forward).unwrap();
    assert!(p.contains("@@ -40,2 +41,2 @@"), "got: {p}");
}

#[test]
fn empty_selection_yields_nothing() {
    let fd = parse(TWO_HUNKS);
    assert!(build_patch(&fd, ApplyMode::Forward, &|_, _| false).is_none());
    // Selecting a context line is not a change either.
    assert!(build_patch(&fd, ApplyMode::Forward, &only(0, &[0])).is_none());
}

#[test]
fn hunk_with_no_selected_change_is_omitted_entirely() {
    let fd = parse(TWO_HUNKS);
    let p = build_patch(&fd, ApplyMode::Forward, &only(1, &[1])).unwrap();
    assert_eq!(p.matches("@@ ").count(), 1);
    assert!(!p.contains("new2"));
}

const NEW_FILE: &str = "\
diff --git a/n b/n
new file mode 100644
index 0000000..3333333
--- /dev/null
+++ b/n
@@ -0,0 +1,3 @@
+one
+two
+three
";

#[test]
fn partial_forward_stage_of_new_file_keeps_the_create_header() {
    let fd = parse(NEW_FILE);
    // Old side stays empty, so this is still a legitimate new-file patch.
    let p = build_patch(&fd, ApplyMode::Forward, &only(0, &[0, 2])).unwrap();
    assert!(p.contains("new file mode 100644"), "got: {p}");
    assert!(p.contains("--- /dev/null"));
    assert!(p.contains("@@ -0,0 +1,2 @@"), "got: {p}");
    assert!(p.contains("+one") && p.contains("+three") && !p.contains("+two"));
}

#[test]
fn partial_reverse_unstage_of_new_file_rewrites_the_create_header() {
    let fd = parse(NEW_FILE);
    // Keeping "two" and "three" in the index means the old side is no
    // longer empty, so this cannot claim to create the file.
    let p = build_patch(&fd, ApplyMode::Reverse, &only(0, &[0])).unwrap();
    assert!(!p.contains("new file mode"), "got: {p}");
    assert!(!p.contains("/dev/null"), "got: {p}");
    assert!(!p.contains("index 0000000"), "got: {p}");
    assert!(p.contains("--- a/n") && p.contains("+++ b/n"), "got: {p}");
    assert!(p.contains("@@ -1,2 +1,3 @@"), "got: {p}");
    assert!(p.contains("+one") && p.contains(" two") && p.contains(" three"));
}

#[test]
fn fully_reversed_new_file_keeps_the_create_header() {
    let fd = parse(NEW_FILE);
    let p = build_full_patch(&fd, ApplyMode::Reverse).unwrap();
    assert!(p.contains("new file mode 100644"));
    assert!(p.contains("--- /dev/null"));
}

const DELETED_FILE: &str = "\
diff --git a/d b/d
deleted file mode 100644
index 4444444..0000000
--- a/d
+++ /dev/null
@@ -1,3 +0,0 @@
-one
-two
-three
";

#[test]
fn partial_forward_stage_of_deletion_rewrites_the_delete_header() {
    let fd = parse(DELETED_FILE);
    let p = build_patch(&fd, ApplyMode::Forward, &only(0, &[0])).unwrap();
    assert!(!p.contains("deleted file mode"), "got: {p}");
    assert!(!p.contains("/dev/null"), "got: {p}");
    assert!(p.contains("+++ b/d"), "got: {p}");
    assert!(p.contains("@@ -1,3 +1,2 @@"), "got: {p}");
    assert!(p.contains("-one") && p.contains(" two") && p.contains(" three"));
}

#[test]
fn partial_reverse_of_deletion_stays_a_delete_patch() {
    let fd = parse(DELETED_FILE);
    // New side is still empty, so the create-on-reverse header holds.
    let p = build_patch(&fd, ApplyMode::Reverse, &only(0, &[0])).unwrap();
    assert!(p.contains("deleted file mode"), "got: {p}");
    assert!(p.contains("+++ /dev/null"));
    assert!(p.contains("@@ -1 +0,0 @@"), "got: {p}");
}

#[test]
fn fully_staged_deletion_keeps_the_delete_header() {
    let fd = parse(DELETED_FILE);
    let p = build_full_patch(&fd, ApplyMode::Forward).unwrap();
    assert!(p.contains("deleted file mode 100644"));
    assert!(p.contains("+++ /dev/null"));
    assert!(p.contains("@@ -1,3 +0,0 @@"), "got: {p}");
}

#[test]
fn crlf_content_is_preserved_byte_for_byte() {
    let src = "diff --git a/f b/f\n--- a/f\n+++ b/f\n@@ -1,2 +1,2 @@\n ctx\r\n-old\r\n+new\r\n";
    let fd = parse(src);
    assert_eq!(fd.hunks[0].lines[0].text, "ctx\r");
    let p = build_full_patch(&fd, ApplyMode::Forward).unwrap();
    assert!(p.contains("-old\r\n"), "CR must survive: {p:?}");
    assert_eq!(p, src);
}

#[test]
fn no_newline_marker_is_dropped_with_its_line() {
    let src = "diff --git a/f b/f\n--- a/f\n+++ b/f\n@@ -1,2 +1,2 @@\n a\n-b\n\\ No newline at end of file\n+c\n\\ No newline at end of file\n";
    let fd = parse(src);
    // Take only the addition: the deletion becomes context and keeps its
    // marker; selecting the "+c" keeps the second marker too.
    let p = build_patch(&fd, ApplyMode::Forward, &|_, l| l == 3).unwrap();
    assert_eq!(p.matches("No newline").count(), 2, "got: {p}");

    // Take only the deletion: the dropped addition must not leave its
    // marker behind.
    let p = build_patch(&fd, ApplyMode::Forward, &|_, l| l == 1).unwrap();
    assert_eq!(p.matches("No newline").count(), 1, "got: {p}");
}

#[test]
fn mid_file_pure_insertion_positions_correctly() {
    let src = "diff --git a/f b/f\n--- a/f\n+++ b/f\n@@ -10,0 +11,2 @@\n+x\n+y\n";
    let fd = parse(src);
    let p = build_patch(&fd, ApplyMode::Forward, &|_, l| l == 0).unwrap();
    assert!(p.contains("@@ -10,0 +11 @@"), "got: {p}");
}

// ---------------------------------------------------------------------------
// Further cases
// ---------------------------------------------------------------------------

#[test]
fn hunk_patch_takes_every_change_of_one_hunk() {
    let fd = parse(TWO_HUNKS);
    let p = build_hunk_patch(&fd, ApplyMode::Forward, 1).unwrap();
    assert!(p.contains("@@ -40,2 +40,2 @@"), "got: {p}");
    assert!(p.contains("-old6") && p.contains("+new6"));
    assert!(!p.contains("new2"));
    assert!(build_hunk_patch(&fd, ApplyMode::Forward, 7).is_none());
}

#[test]
fn hunk_change_lines_lists_the_changes() {
    let fd = parse(TWO_HUNKS);
    assert_eq!(hunk_change_lines(&fd.hunks[0].lines), vec![1, 2, 3]);
    assert_eq!(hunk_change_lines(&fd.hunks[1].lines), vec![1, 2]);
}

#[test]
fn full_patch_of_a_diff_without_changes_is_none() {
    let fd = parse("diff --git a/x b/x\nold mode 100644\nnew mode 100755\n");
    assert!(build_full_patch(&fd, ApplyMode::Forward).is_none());
}

#[test]
fn forward_partial_patch_keeps_the_old_side_line_for_line() {
    let fd = parse(TWO_HUNKS);
    let p = build_patch(&fd, ApplyMode::Forward, &only(0, &[3])).unwrap();
    let body: Vec<&str> = p.lines().skip_while(|l| !l.starts_with("@@ ")).skip(1).collect();
    let old_side: Vec<&str> = body
        .iter()
        .filter(|l| l.starts_with(' ') || l.starts_with('-'))
        .map(|l| &l[1..])
        .collect();
    assert_eq!(old_side, vec!["keep1", "old2", "keep4"]);
    let changes: Vec<&str> = body.iter().copied().filter(|l| l.starts_with('+') || l.starts_with('-')).collect();
    assert_eq!(changes, vec!["+new3"]);
    assert!(p.contains("@@ -10,3 +10,4 @@"));
}

#[test]
fn reverse_partial_patch_keeps_the_new_side_line_for_line() {
    let fd = parse(TWO_HUNKS);
    let p = build_patch(&fd, ApplyMode::Reverse, &only(0, &[1])).unwrap();
    let body: Vec<&str> = p.lines().skip_while(|l| !l.starts_with("@@ ")).skip(1).collect();
    let new_side: Vec<&str> = body
        .iter()
        .filter(|l| l.starts_with(' ') || l.starts_with('+'))
        .map(|l| &l[1..])
        .collect();
    assert_eq!(new_side, vec!["keep1", "new2", "new3", "keep4"]);
}

#[test]
fn one_header_per_hunk_with_a_selected_change() {
    let fd = parse(TWO_HUNKS);
    let both = |h: usize, l: usize| (h == 0 && l == 1) || (h == 1 && l == 2);
    let p = build_patch(&fd, ApplyMode::Forward, &both).unwrap();
    assert_eq!(p.lines().filter(|l| l.starts_with("@@ ")).count(), 2);
    let one = build_hunk_patch(&fd, ApplyMode::Forward, 1).unwrap();
    assert_eq!(one.lines().filter(|l| l.starts_with("@@ ")).count(), 1);
}
