//! Diff search, history filtering and mode changes, on states built in
//! memory: the same scenarios the window runs against a repository.

use gitgui::app::{App, Loaded, Mode, Pane, Row};
use gitgui::git::diff::parse;
use gitgui::git::log::CommitInfo;

const SEARCH_DIFF: &str = "\
diff --git a/f.txt b/f.txt
index 1111111..2222222 100644
--- a/f.txt
+++ b/f.txt
@@ -1,5 +1,7 @@
 one
+alpha Beta gamma
 two
+beta again beta
 three
 four
 five
";

fn diff(text: &str) -> Loaded {
    Loaded::build(parse(text), false, None)
}

/// An app showing the unstaged diff of f.txt, as selecting it would.
fn search_app() -> App {
    let mut app = App::default();
    app.select_file(Pane::Unstaged, "f.txt");
    app.diff = Some(diff(SEARCH_DIFF));
    app.find_recompute();
    app
}

fn row_of(app: &App, needle: &str) -> usize {
    let d = app.diff.as_ref().expect("a diff is loaded");
    for (i, r) in d.rows.iter().enumerate() {
        if let Row::Line { hunk, line } = r {
            if d.fd.hunks[*hunk].lines[*line].text == needle {
                return i;
            }
        }
    }
    panic!("no row {needle:?}");
}

#[test]
fn search_finds_matches_case_insensitively_by_default() {
    let mut app = search_app();
    app.find.query = "beta".into();
    app.find_recompute();
    assert_eq!(app.find.matches.len(), 3, "got: {:?}", app.find.matches);
    assert_eq!(app.find_status(), "1 of 3");
}

#[test]
fn match_case_toggle_restricts_results() {
    let mut app = search_app();
    app.find.query = "Beta".into();
    app.find.case_sensitive = true;
    app.find_recompute();
    assert_eq!(app.find.matches.len(), 1, "only the capitalised one");
}

#[test]
fn match_columns_line_up_with_the_rendered_row() {
    let mut app = search_app();
    app.find.query = "Beta".into();
    app.find.case_sensitive = true;
    app.find_recompute();
    let m = app.find.matches[0];
    let expected_row = row_of(&app, "alpha Beta gamma");
    assert_eq!(m.row, expected_row);
    // "alpha Beta" -> B is at char 6 of the text, +1 for the +/- marker column.
    assert_eq!(m.start, 7);
    assert_eq!(m.end, 11);
}

#[test]
fn repeated_matches_on_one_line_do_not_overlap() {
    let mut app = search_app();
    app.find.query = "aa".into();
    app.find_recompute();
    let before = app.find.matches.len();

    // "aaaa" holds two non-overlapping "aa".
    app.select_file(Pane::Unstaged, "g.txt");
    app.diff = Some(diff(
        "diff --git a/g.txt b/g.txt\nnew file mode 100644\n--- /dev/null\n+++ b/g.txt\n@@ -0,0 +1 @@\n+aaaa\n",
    ));
    app.find.query = "aa".into();
    app.find_recompute();
    assert_eq!(app.find.matches.len(), 2, "non-overlapping, got {before} before");
}

#[test]
fn next_and_prev_wrap_around() {
    let mut app = search_app();
    app.find.query = "beta".into();
    app.find_recompute();
    assert_eq!(app.find.current, 0);

    app.find_next();
    assert_eq!(app.find.current, 1);
    app.find_next();
    assert_eq!(app.find.current, 2);
    app.find_next();
    assert_eq!(app.find.current, 0, "wraps forward");
    app.find_prev();
    assert_eq!(app.find.current, 2, "wraps backward");
}

#[test]
fn search_moves_the_cursor_without_disturbing_the_selection() {
    let mut app = search_app();
    let target = row_of(&app, "alpha Beta gamma");
    app.diff.as_mut().unwrap().select_only(target);
    let sel_before = app.diff.as_ref().unwrap().sel.clone();

    app.find.query = "beta again".into();
    app.find_recompute();

    let d = app.diff.as_ref().unwrap();
    assert_eq!(d.sel, sel_before, "searching must not restage anything");
    assert_ne!(d.cursor, target, "but the cursor should have moved");
    assert!(d.scroll_to_cursor, "and the view should follow");
}

#[test]
fn empty_and_missing_queries_report_cleanly() {
    let mut app = search_app();
    app.find.query = String::new();
    app.find_recompute();
    assert!(app.find.matches.is_empty());
    assert_eq!(app.find_status(), "");

    app.find.query = "zzzznotthere".into();
    app.find_recompute();
    assert!(app.find.matches.is_empty());
    assert_eq!(app.find_status(), "no matches");
    // Navigation on an empty set must not panic or wrap into nothing.
    app.find_next();
    app.find_prev();
}

#[test]
fn search_covers_context_lines_too() {
    let mut app = search_app();
    // "three" is unchanged context in this diff.
    app.find.query = "three".into();
    app.find_recompute();
    assert_eq!(app.find.matches.len(), 1, "context should be searchable");
}

#[test]
fn switching_files_drops_stale_matches() {
    let mut app = search_app();
    app.find.query = "beta".into();
    app.find_recompute();
    assert_eq!(app.find.matches.len(), 3);

    // Selecting another file recomputes against the new row list.
    app.select_file(Pane::Unstaged, "g.txt");
    app.diff = Some(diff(
        "diff --git a/g.txt b/g.txt\nnew file mode 100644\n--- /dev/null\n+++ b/g.txt\n@@ -0,0 +1 @@\n+beta elsewhere\n",
    ));
    app.find_recompute();
    assert_eq!(app.find.matches.len(), 1, "recomputed for the new diff");
    for m in &app.find.matches {
        let n = app.diff.as_ref().unwrap().rows.len();
        assert!(m.row < n, "match row {} out of range {n}", m.row);
    }
}

#[test]
fn opening_and_closing_the_find_bar() {
    let mut app = search_app();
    app.find.query = "beta".into();
    app.find_open();
    assert!(app.find.open);
    assert!(app.find.request_focus);
    assert_eq!(app.find.matches.len(), 3);

    app.find_close();
    assert!(!app.find.open);
    assert!(app.find.matches.is_empty(), "no stale highlights");
}

fn commit(sha: &str, subject: &str, refs: &str) -> CommitInfo {
    CommitInfo {
        sha: sha.into(),
        short: sha[..7].into(),
        author: "Test User".into(),
        date: "2024-01-01".into(),
        refs: refs.into(),
        subject: subject.into(),
    }
}

#[test]
fn commit_filter_narrows_the_list() {
    let mut app = App::default();
    app.commits_loaded(vec![
        commit("5555555aaaa", "merge side", "HEAD -> main"),
        commit("4444444bbbb", "side branch work", "side"),
        commit("3333333cccc", "rename and edit", ""),
        commit("2222222dddd", "modify a", ""),
        commit("1111111eeee", "root commit", ""),
    ]);
    assert_eq!(app.filtered_commits().len(), 5);

    app.commit_filter = "rename".into();
    assert_eq!(app.filtered_commits().len(), 1);

    app.commit_filter = "TEST".into(); // author, case-insensitive
    assert_eq!(app.filtered_commits().len(), 5);

    app.commit_filter = "nothing matches this".into();
    assert!(app.filtered_commits().is_empty());
}

#[test]
fn switching_modes_clears_the_open_diff() {
    let mut app = search_app();
    assert!(app.diff.is_some());

    app.set_mode(Mode::History);
    assert!(app.diff.is_none(), "stale working-tree diff must go");
    assert!(app.sel_file.is_none());

    app.set_mode(Mode::WorkingTree);
    assert!(app.diff.is_none());
}

#[test]
fn stepping_through_hits_moves_the_cursor_and_keeps_the_selection() {
    let mut app = search_app();
    let picked = row_of(&app, "alpha Beta gamma");
    app.diff.as_mut().unwrap().select_only(picked);
    app.find.query = "beta".into();
    app.find_recompute();
    let sel = app.diff.as_ref().unwrap().sel.clone();
    app.find_next();
    let m = app.find.matches[app.find.current];
    let d = app.diff.as_ref().unwrap();
    assert_eq!(d.cursor, m.row);
    assert_eq!(d.sel, sel);
    app.find_prev();
    assert_eq!(app.diff.as_ref().unwrap().cursor, app.find.matches[0].row);

    let mut none = search_app();
    none.find.query = "zzz".into();
    none.find_recompute();
    let cursor = none.diff.as_ref().unwrap().cursor;
    none.find_next();
    none.find_prev();
    assert_eq!(none.diff.as_ref().unwrap().cursor, cursor, "no hits, nothing moves");
}

#[test]
fn overlapping_occurrences_are_taken_leftmost_first() {
    let mut app = search_app();
    app.select_file(Pane::Unstaged, "g.txt");
    app.diff = Some(diff(
        "diff --git a/g.txt b/g.txt\nnew file mode 100644\n--- /dev/null\n+++ b/g.txt\n@@ -0,0 +1 @@\n+ababa\n",
    ));
    app.find.query = "aba".into();
    app.find_recompute();
    assert_eq!(app.find.matches.len(), 1);
    assert_eq!(app.find.matches[0].start, 1, "the leftmost occurrence, after the marker column");
}
