use gitgui::app::{App, Confirm, FileSel, Loaded, Pane, Row, TextPos, NOTHING_TO_AMEND};
use gitgui::git::diff::parse;
use gitgui::git::log::CommitFile;
use gitgui::git::status::{parse as parse_status, Change, Status};
use gitgui::git::{GitCommand, Repo};
use gitgui::panes::startup_candidates;

fn diff_of(body: &str) -> Loaded {
    let text = format!(
        "diff --git a/f.txt b/f.txt\nindex 1111111..2222222 100644\n--- a/f.txt\n+++ b/f.txt\n{body}"
    );
    Loaded::build(parse(&text), false, None)
}

/// The row showing the line whose code is `needle`.
fn row_of(d: &Loaded, needle: &str) -> usize {
    d.rows
        .iter()
        .position(|r| match r {
            Row::Line { hunk, line } => d.fd.hunks[*hunk].lines[*line].text == needle,
            _ => false,
        })
        .unwrap_or_else(|| panic!("no row shows {needle:?}"))
}

const HELLO: &str = "@@ -1,4 +1,5 @@\n one\n+HELLO WORLD\n two\n three\n four\n";
const TWO_ADDED: &str = "@@ -1,4 +1,6 @@\n one\n+AAA\n+BBB\n two\n three\n four\n";
const ONE_ADDED: &str = "@@ -1,4 +1,5 @@\n one\n+AAA\n two\n three\n four\n";
const APART: &str = "@@ -1,5 +1,7 @@\n one\n+AAA\n two\n+BBB\n three\n four\n five\n";
const DELETED: &str = "@@ -1,5 +1,4 @@\n one\n-two\n three\n four\n five\n";
const INSERTED: &str = "@@ -1,5 +1,6 @@\n one\n two\n three\n+INSERTED\n four\n five\n";
const DELETED_THREE: &str = "@@ -1,5 +1,4 @@\n one\n two\n-three\n four\n five\n";

#[test]
fn dragging_over_the_text_selects_characters_not_lines() {
    let mut d = diff_of(HELLO);
    let row = row_of(&d, "HELLO WORLD");
    d.begin_text_sel(TextPos { row, col: 6 });
    d.set_text_head(TextPos { row, col: 11 });
    assert_eq!(d.clipboard_text().as_deref(), Some("WORLD"));
    assert!(d.sel.is_empty(), "a text selection must not stage anything by itself");
}

#[test]
fn a_text_selection_spanning_rows_yields_clean_code() {
    let mut d = diff_of(TWO_ADDED);
    let first = row_of(&d, "AAA");
    let last = row_of(&d, "BBB");
    d.begin_text_sel(TextPos { row: first, col: 0 });
    d.set_text_head(TextPos { row: last, col: 3 });
    let got = d.clipboard_text().expect("something is selected");
    assert_eq!(got, "AAA\nBBB", "no line numbers and no + markers, got {got:?}");
}

#[test]
fn a_backwards_drag_selects_the_same_text() {
    let mut d = diff_of(TWO_ADDED);
    let first = row_of(&d, "AAA");
    let last = row_of(&d, "BBB");
    d.begin_text_sel(TextPos { row: last, col: 3 });
    d.set_text_head(TextPos { row: first, col: 0 });
    assert_eq!(d.clipboard_text().as_deref(), Some("AAA\nBBB"));
}

#[test]
fn an_empty_text_selection_copies_nothing() {
    let mut d = diff_of(ONE_ADDED);
    let row = row_of(&d, "AAA");
    d.begin_text_sel(TextPos { row, col: 2 });
    assert!(d.clipboard_text().is_none(), "a click without a drag has nothing highlighted");
}

#[test]
fn with_no_text_selection_copy_falls_back_to_the_selected_lines() {
    let mut d = diff_of(APART);
    let a = row_of(&d, "AAA");
    let b = row_of(&d, "BBB");
    d.select_only(a);
    d.toggle(b);
    let got = d.clipboard_text().expect("two lines are selected");
    assert_eq!(got, "AAA\nBBB\n", "selected lines copy as bare code, got {got:?}");
}

#[test]
fn a_text_selection_wins_over_the_line_selection() {
    let mut d = diff_of(ONE_ADDED);
    let row = row_of(&d, "AAA");
    d.select_only(row);
    d.begin_text_sel(TextPos { row, col: 0 });
    d.set_text_head(TextPos { row, col: 1 });
    assert_eq!(d.clipboard_text().as_deref(), Some("A"));
}

#[test]
fn deleted_lines_copy_without_their_marker() {
    let mut d = diff_of(DELETED);
    let row = row_of(&d, "two");
    d.select_only(row);
    assert_eq!(d.clipboard_text().as_deref(), Some("two\n"));
}

#[test]
fn the_highlight_span_is_clamped_to_each_row() {
    let mut d = diff_of(TWO_ADDED);
    let first = row_of(&d, "AAA");
    let last = row_of(&d, "BBB");
    d.begin_text_sel(TextPos { row: first, col: 1 });
    d.set_text_head(TextPos { row: last, col: 999 });
    assert_eq!(d.text_sel_span(first), Some((1, 3)), "runs to end of row");
    assert_eq!(d.text_sel_span(last), Some((0, 3)), "clamped to row length");
    assert_eq!(d.text_sel_span(first - 1), None, "rows outside are untouched");
}

#[test]
fn clearing_the_selection_clears_the_text_highlight_too() {
    let mut d = diff_of(ONE_ADDED);
    let row = row_of(&d, "AAA");
    d.begin_text_sel(TextPos { row, col: 0 });
    d.set_text_head(TextPos { row, col: 3 });
    assert!(d.clipboard_text().is_some());
    d.clear_text_sel();
    assert!(d.clipboard_text().is_none());
    assert!(!d.text_dragging);
}

#[test]
fn a_hunk_header_in_the_drag_is_copied_as_shown() {
    let text = "@@ -1,2 +1,3 @@\n a\n+b\n c\n@@ -20,2 +21,2 @@\n-x\n+y\n z\n";
    let mut d = diff_of(text);
    let first = row_of(&d, "b");
    let last = row_of(&d, "y");
    d.begin_text_sel(TextPos { row: first, col: 0 });
    d.set_text_head(TextPos { row: last, col: 1 });
    d.end_text_drag();
    assert!(!d.text_dragging);
    assert_eq!(d.clipboard_text().as_deref(), Some("b\nc\n@@ -20,2 +21,2 @@\nx\ny"));
}

fn app_with(d: Loaded, cursor: usize) -> App {
    let mut app = App::default();
    let mut d = d;
    d.cursor = cursor;
    app.diff = Some(d);
    app
}

#[test]
fn the_cursor_line_is_the_working_tree_line_number() {
    let d = diff_of(INSERTED);
    let row = row_of(&d, "INSERTED");
    let app = app_with(d, row);
    assert_eq!(app.cursor_line(), 4, "INSERTED is the fourth line of the new file");
}

#[test]
fn a_deleted_line_falls_back_to_the_nearest_new_side_line() {
    let d = diff_of(DELETED_THREE);
    let row = row_of(&d, "three");
    let app = app_with(d, row);
    assert_eq!(app.cursor_line(), 2, "the nearest new-side line above is `two`");
}

#[test]
fn the_cursor_line_is_sane_with_no_diff_open() {
    let app = App::default();
    assert_eq!(app.cursor_line(), 1, "no diff means line one, never zero");
}

#[test]
fn the_cursor_on_a_hunk_header_names_the_hunk_start() {
    let d = diff_of("@@ -40,2 +41,2 @@\n keep\n-old\n+new\n");
    let app = app_with(d, 0);
    assert_eq!(app.cursor_line(), 41);
}

#[test]
fn an_explicit_path_is_tried_before_the_working_directory() {
    let got = startup_candidates(
        Some("/explicit/repo".to_string()),
        Some("/some/where".to_string()),
        Some("/opt/app".to_string()),
    );
    assert_eq!(got, vec!["/explicit/repo".to_string(), "/some/where".to_string()]);
}

#[test]
fn the_working_directory_counts_when_it_is_not_the_program_folder() {
    let got = startup_candidates(None, Some("/home/me/project".to_string()), Some("/opt/app".to_string()));
    assert_eq!(got, vec!["/home/me/project".to_string()]);
}

#[test]
fn launching_from_the_program_folder_offers_no_repository() {
    let dir = "/home/me/gitgui/target/release".to_string();
    let got = startup_candidates(None, Some(dir.clone()), Some(dir));
    assert!(got.is_empty(), "the binary's own folder is not a repository choice, got {got:?}");
}

#[test]
fn the_program_folder_check_survives_separator_differences() {
    let got = startup_candidates(
        None,
        Some("C:/work/gitgui/target/release".to_string()),
        Some("C:\\work\\gitgui\\target\\release".to_string()),
    );
    assert!(got.is_empty(), "the same folder written differently is still the same folder: {got:?}");
}

#[test]
fn an_explicit_path_still_wins_from_the_program_folder() {
    let dir = "/home/me/gitgui/target/release".to_string();
    let got = startup_candidates(Some("/chosen/repo".to_string()), Some(dir.clone()), Some(dir));
    assert_eq!(got, vec!["/chosen/repo".to_string()]);
}

fn status(lines: &[&str]) -> Status {
    let mut raw = Vec::new();
    for l in lines {
        raw.extend_from_slice(l.as_bytes());
        raw.push(0);
    }
    parse_status(&raw)
}

fn merging_app() -> App {
    let mut app = App::default();
    app.status = status(&[
        "# branch.head main",
        "u UU N... 100644 100644 100644 100644 a b c shared.txt",
        "1 A. N... 000000 100644 100644 0 d only-theirs.txt",
    ]);
    app.merge_loaded(Some("side".to_string()), Some("Merge branch 'side'\n".to_string()));
    app
}

#[test]
fn a_merge_underway_names_its_branch_and_conflicts() {
    let app = merging_app();
    assert_eq!(app.merging.as_deref(), Some("side"));
    assert_eq!(app.unresolved(), vec!["shared.txt".to_string()]);
    assert_eq!(app.commit_msg, "Merge branch 'side'\n", "git's message is offered");
}

#[test]
fn a_typed_message_is_not_replaced_by_the_merge_message() {
    let mut app = App::default();
    app.commit_msg = "mine".into();
    app.merge_loaded(Some("side".to_string()), Some("Merge branch 'side'".to_string()));
    assert_eq!(app.commit_msg, "mine");
}

#[test]
fn conflicts_block_the_commit_and_are_named() {
    let app = merging_app();
    assert!(!app.can_commit());
    let err = app.commit_problem().expect("it should say why");
    assert!(err.contains("shared.txt") && err.contains("unresolved"), "unhelpful message: {err:?}");
}

#[test]
fn a_resolved_merge_commits_with_nothing_staged() {
    let mut app = merging_app();
    app.status = status(&["# branch.head main"]);
    assert!(app.unresolved().is_empty());
    assert!(app.staged().is_empty());
    assert!(app.can_commit(), "a merge still has to be committable with an empty index delta");
}

#[test]
fn aborting_asks_first_only_while_merging() {
    let mut app = merging_app();
    app.ask_abort_merge();
    assert!(matches!(app.confirm, Some(Confirm::AbortMerge)));
    assert!(matches!(app.confirm_yes(), Some(Confirm::AbortMerge)));
    app.merge_aborted(Ok(()));
    assert!(app.merging.is_none());
    assert!(app.commit_msg.is_empty(), "the prepared message is dropped");
    assert_eq!(app.info.as_deref(), Some("Merge aborted."));

    let mut idle = App::default();
    idle.ask_abort_merge();
    assert!(idle.confirm.is_none(), "nothing to abort, nothing to ask");
}

#[test]
fn a_failed_abort_is_reported() {
    let mut app = merging_app();
    app.merge_aborted(Err("fatal: no merge".to_string()));
    assert_eq!(app.error.as_deref(), Some("fatal: no merge"));
    assert!(app.merging.is_some());
}

#[test]
fn taking_a_side_reports_the_outcome() {
    let mut app = merging_app();
    app.side_taken("shared.txt", true, Ok(()));
    assert_eq!(app.info.as_deref(), Some("Took ours for shared.txt."));
    app.side_taken("new.txt", false, Err("does not have their version".to_string()));
    let err = app.error.clone().unwrap();
    assert!(err.contains("theirs") && err.contains("new.txt") && err.contains("stage or remove it"));
}

fn untracked_and_tracked() -> App {
    let mut app = App::default();
    app.status = status(&[
        "# branch.head main",
        "? brand-new.txt",
        "1 .M N... 100644 100644 100644 a b tracked.txt",
        "1 .D N... 100644 100644 000000 a b gone.txt",
    ]);
    app
}

fn paths(v: Vec<&gitgui::git::status::Entry>) -> Vec<String> {
    v.iter().map(|e| e.path.clone()).collect()
}

#[test]
fn hiding_untracked_removes_only_the_new_files() {
    let mut app = untracked_and_tracked();
    assert_eq!(paths(app.unstaged()), vec!["brand-new.txt", "gone.txt", "tracked.txt"]);
    app.set_hide_untracked(true);
    assert_eq!(paths(app.unstaged()), vec!["gone.txt", "tracked.txt"]);
    app.set_hide_untracked(false);
    assert_eq!(app.unstaged().len(), 3);
}

#[test]
fn hiding_untracked_drops_a_selected_untracked_file() {
    let mut app = untracked_and_tracked();
    app.select_file(Pane::Unstaged, "brand-new.txt");
    app.set_hide_untracked(true);
    assert!(app.sel_file.is_none());
}

#[test]
fn hiding_untracked_leaves_a_selected_tracked_file_alone() {
    let mut app = untracked_and_tracked();
    app.select_file(Pane::Unstaged, "tracked.txt");
    app.set_hide_untracked(true);
    assert_eq!(
        app.sel_file,
        Some(FileSel { pane: Pane::Unstaged, path: "tracked.txt".to_string() })
    );
    assert!(app.still_there(&FileSel { pane: Pane::Unstaged, path: "tracked.txt".to_string() }));
    assert!(!app.still_there(&FileSel { pane: Pane::Unstaged, path: "brand-new.txt".to_string() }));
}

#[test]
fn amend_is_refused_before_the_first_commit() {
    let mut app = App::default();
    app.status = status(&["# branch.oid (initial)", "# branch.head main"]);
    assert!(app.status.unborn);
    assert!(!app.set_amend(true));
    assert!(!app.amend, "there is nothing to amend on an unborn branch");
    assert_eq!(app.error.as_deref(), Some(NOTHING_TO_AMEND));
    assert!(app.staged_paths().is_empty());
}

#[test]
fn amending_lists_the_commit_against_its_parent() {
    let mut app = App::default();
    app.status = status(&["# branch.head main", "1 M. N... 100644 100644 100644 a b new.txt"]);
    assert!(app.set_amend(true), "an empty message box asks for the last message");
    app.amend_loaded(
        "abc123".to_string(),
        vec![
            CommitFile { status: Change::Modified, path: "f.txt".into(), orig_path: None },
            CommitFile { status: Change::Renamed, path: "new.txt".into(), orig_path: Some("old.txt".into()) },
        ],
    );
    let staged: Vec<String> = app.staged().iter().map(|e| e.path.clone()).collect();
    assert_eq!(staged, vec!["f.txt", "new.txt"]);
    assert_eq!(app.staged_paths(), vec!["f.txt".to_string(), "new.txt".to_string()]);
    assert_eq!(app.unstage_base().as_deref(), Some("abc123"));
    assert_eq!(app.unstage_paths_for("new.txt"), vec!["new.txt".to_string(), "old.txt".to_string()]);

    app.select_file(Pane::Staged, "new.txt");
    let (req, _, _) = app.diff_request().unwrap();
    match req {
        gitgui::app::DiffRequest::Git(GitCommand::DiffStaged { path, orig, base }) => {
            assert_eq!(path, "new.txt");
            assert_eq!(orig.as_deref(), Some("old.txt"));
            assert_eq!(base.as_deref(), Some("abc123"));
        }
        other => panic!("unexpected request {other:?}"),
    }

    app.set_amend(false);
    assert!(!app.amend);
    assert_eq!(app.staged_paths(), vec!["new.txt".to_string()], "back to the index");
    assert!(app.unstage_base().is_none());
}

#[test]
fn committing_an_amend_ends_amend_mode() {
    let mut app = App::default();
    app.set_amend(true);
    app.amend_loaded("base".into(), vec![]);
    app.committed("[main 123] msg\n");
    assert!(!app.amend && app.amend_base.is_none() && app.amend_files.is_empty());
}

#[test]
fn the_open_target_joins_root_and_path() {
    let mut app = App::default();
    assert!(app.open_target_text().is_none(), "nothing selected yet");
    app.opened(Repo { root: "/work/repo".to_string() });
    app.select_file(Pane::Unstaged, "dir with spaces/f.txt");
    assert_eq!(app.open_target_text().as_deref(), Some("/work/repo/dir with spaces/f.txt"));
}

#[test]
fn a_file_missing_from_disk_is_refused_with_an_explanation() {
    let mut app = App::default();
    app.info = Some("old news".into());
    app.not_on_disk("gone.txt", false);
    let err = app.error.clone().unwrap();
    assert!(err.contains("gone.txt") && err.contains("not in the working tree"));
    assert!(app.info.is_none());
    app.not_on_disk("gone.txt", true);
    assert!(app.error.clone().unwrap().contains("nothing to edit"));
}

#[test]
fn a_reload_keeps_the_cursor_within_the_rows() {
    let mut d = diff_of(ONE_ADDED);
    let n = d.rows.len();
    d.keep_cursor(2);
    assert_eq!(d.cursor, 2);
    d.keep_cursor(999);
    assert_eq!(d.cursor, n - 1);
}

#[test]
fn clearing_drops_lines_and_highlight_together() {
    let mut d = diff_of(ONE_ADDED);
    let row = row_of(&d, "AAA");
    d.select_only(row);
    d.begin_text_sel(TextPos { row, col: 0 });
    d.clear_selection();
    assert!(d.sel.is_empty() && d.text_anchor.is_none() && !d.text_dragging);
}

#[test]
fn move_cursor_with_shift_grows_the_selection() {
    let mut d = diff_of("@@ -1,4 +1,7 @@\n one\n+AAA\n+BBB\n+CCC\n two\n three\n four\n");
    let start = row_of(&d, "AAA");
    d.select_only(start);
    assert_eq!(d.selected_change_count(), 1);
    d.move_cursor(1, true);
    assert_eq!(d.selected_change_count(), 2);
    d.move_cursor(1, true);
    assert_eq!(d.selected_change_count(), 3);
    // Without shift the selection collapses to the new row.
    d.move_cursor(1, false);
    assert!(d.selected_change_count() <= 1);
}

#[test]
fn select_all_covers_every_change_but_no_context() {
    let mut d = diff_of(APART);
    let total = d.fd.total_changes();
    d.select_all();
    assert_eq!(d.selected_change_count(), total);
    assert_eq!(d.sel.len(), total, "context rows must not be selected");
}

fn modified_file() -> App {
    let mut app = App::default();
    app.status = status(&["# branch.head main", "1 .M N... 100644 100644 100644 a b f.txt"]);
    app
}

#[test]
fn discarding_a_whole_file_still_asks_first() {
    let mut app = modified_file();
    app.ask_discard_file("f.txt");
    assert!(
        matches!(app.confirm, Some(Confirm::DiscardFile { .. })),
        "whole-file discard is coarse enough to keep a prompt"
    );
    match app.confirm_yes() {
        Some(Confirm::DiscardFile { path, untracked }) => {
            assert_eq!(path, "f.txt");
            assert!(!untracked);
        }
        other => panic!("unexpected confirmation {other:?}"),
    }
    assert!(app.confirm.is_none());
}

#[test]
fn cancelling_a_file_discard_changes_nothing() {
    let mut app = modified_file();
    app.ask_discard_file("f.txt");
    app.confirm = None; // user hit Cancel
    assert!(app.confirm_yes().is_none(), "nothing left to carry out");
    assert!(app.undo.is_empty());
}

#[test]
fn staging_and_unstaging_do_not_create_undo_entries() {
    let mut app = modified_file();
    app.patch_applied(gitgui::app::Op::Stage, "patch".into());
    app.patch_applied(gitgui::app::Op::Unstage, "patch".into());
    assert!(app.undo.is_empty(), "these are not destructive, so nothing to take back");
}

#[test]
fn commit_is_refused_with_nothing_staged() {
    let mut app = modified_file();
    app.commit_msg = "nope".into();
    assert!(!app.can_commit());
    assert!(app.commit_problem().is_some(), "should complain about an empty index");
}

#[test]
fn a_gutter_press_picks_lines_and_starts_a_sweep() {
    let mut d = diff_of(TWO_ADDED);
    let a = row_of(&d, "AAA");
    let b = row_of(&d, "BBB");
    d.begin_text_sel(TextPos { row: a, col: 0 });
    d.gutter_press(a, false, false);
    assert!(d.dragging, "a plain press sweeps lines with the pointer");
    assert!(d.text_anchor.is_none(), "the highlight goes");
    assert_eq!(d.sel.len(), 1);
    d.gutter_press(b, true, false);
    assert_eq!(d.sel.len(), 2, "shift extends from the anchor");
    d.gutter_press(a, false, true);
    assert!(!d.sel.contains(&a) && d.sel.contains(&b), "⌘ toggles");
}

#[test]
fn a_click_on_a_header_selects_its_hunk() {
    let mut d = diff_of(APART);
    d.text_click(0, false, false);
    let mut rows: Vec<usize> = d.sel.iter().copied().collect();
    rows.sort();
    assert_eq!(rows, vec![row_of(&d, "AAA"), row_of(&d, "BBB")]);
    assert_eq!((d.anchor, d.cursor), (Some(0), 0));
    let a = row_of(&d, "AAA");
    d.text_click(a, false, false);
    assert_eq!(d.sel.len(), 1);
    assert!(!d.dragging, "a click over the text never sweeps lines");
}

#[test]
fn taking_an_undo_entry_hands_back_the_newest() {
    let mut app = App::default();
    assert!(app.take_undo().is_none());
    app.push_undo(gitgui::app::UndoAction::ApplyPatch("one".into()), "first".into());
    app.push_undo(gitgui::app::UndoAction::ApplyPatch("two".into()), "second".into());
    let e = app.take_undo().unwrap();
    assert_eq!(e.label, "second");
    assert_eq!(app.undo.len(), 1);
    app.undo_finished(e, Err("conflict".into()));
    assert_eq!(app.undo.len(), 2, "a failed undo keeps the entry");
    assert_eq!(app.undo_label().as_deref(), Some("second"));
}
