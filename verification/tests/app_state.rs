use gitgui::app::{
    diff_note, find_sub, fold, hint_text, line_no_digits, pane_op, patch_change_count,
    read_stash_blob, truncate, untracked_view, App, BlobView, Confirm, DiffRequest, FileSel, Find,
    Load, Loaded, Mode, Op, Pane, PatchPlan, Row, UndoAction, UNDO_LIMIT,
};
use gitgui::git::diff::{parse, FileDiff};
use gitgui::git::patch::ApplyMode;
use gitgui::git::stash::StashEntry;
use gitgui::git::status::parse as parse_status;
use gitgui::git::GitCommand;

const TWO_HUNKS: &str = "\
diff --git a/f b/f
index 1111111..2222222 100644
--- a/f
+++ b/f
@@ -10,3 +10,4 @@ ctx heading
 keep1
-old2
+new2
+new3
 keep4
@@ -40,2 +41,2 @@
 keep5
-old6
+new6
";

fn loaded() -> Loaded {
    Loaded::build(parse(TWO_HUNKS), false, None)
}

fn sorted(d: &Loaded) -> Vec<usize> {
    let mut v: Vec<usize> = d.sel.iter().copied().collect();
    v.sort();
    v
}

#[test]
fn rows_are_headers_then_lines() {
    let d = Loaded::build(parse(TWO_HUNKS), true, Some("a note".into()));
    assert_eq!(d.rows.len(), 1 + 1 + 5 + 1 + 3);
    assert!(matches!(d.rows[0], Row::Note(_)));
    assert!(matches!(d.rows[1], Row::Hunk(0)));
    assert!(matches!(d.rows[2], Row::Line { hunk: 0, line: 0 }));
    assert!(matches!(d.rows[7], Row::Hunk(1)));
    assert_eq!(d.max_chars, "@@ -10,3 +10,4 @@ ctx heading".chars().count());
    assert!(d.untracked);
    assert_eq!(d.pair_at(3), Some((0, 1)));
    assert_eq!(d.pair_at(1), None);
    assert_eq!(d.hunk_of_row(1), Some(0));
    assert_eq!(d.hunk_of_row(9), Some(1));
    assert_eq!(d.hunk_of_row(0), None);
}

#[test]
fn only_change_rows_can_be_selected() {
    let mut d = loaded();
    // rows: 0=hunk0 1=keep1 2=-old2 3=+new2 4=+new3 5=keep4 6=hunk1 7=keep5 8=-old6 9=+new6
    assert!(d.is_change_row(2));
    assert!(!d.is_change_row(1));
    assert!(!d.is_change_row(0));
    assert!(!d.is_change_row(99));
    d.select_only(1);
    assert!(d.sel.is_empty());
    assert_eq!((d.anchor, d.cursor), (Some(1), 1));
    d.select_only(3);
    assert_eq!(sorted(&d), vec![3]);
}

#[test]
fn toggling_twice_restores_the_selection() {
    let mut d = loaded();
    d.select_only(2);
    d.toggle(4);
    assert_eq!(sorted(&d), vec![2, 4]);
    d.toggle(4);
    assert_eq!(sorted(&d), vec![2]);
    d.toggle(5);
    assert_eq!(sorted(&d), vec![2], "context rows do not toggle");
}

#[test]
fn extending_selects_change_rows_between_anchor_and_row() {
    let mut d = loaded();
    d.select_only(8);
    d.extend_to(1);
    assert_eq!(sorted(&d), vec![2, 3, 4, 8]);
    assert_eq!(d.anchor, Some(8));
    assert_eq!(d.cursor, 1);
    d.extend_to(500);
    assert_eq!(sorted(&d), vec![8, 9]);
}

#[test]
fn selecting_a_hunk_takes_its_changes_and_moves_to_its_header() {
    let mut d = loaded();
    d.select_hunk(1);
    assert_eq!(sorted(&d), vec![8, 9]);
    assert_eq!((d.anchor, d.cursor), (Some(6), 6));
    d.select_all();
    assert_eq!(sorted(&d), vec![2, 3, 4, 8, 9]);
    assert_eq!(d.selected_change_count(), 5);
    assert_eq!(d.selected_pairs(), vec![(0, 1), (0, 2), (0, 3), (1, 1), (1, 2)]);
}

#[test]
fn moving_the_cursor_clamps_and_extends() {
    let mut d = loaded();
    d.select_only(2);
    d.move_cursor(1, true);
    assert_eq!(sorted(&d), vec![2, 3]);
    d.move_cursor(-100, false);
    assert_eq!(d.cursor, 0);
    assert!(d.sel.is_empty());
    d.move_cursor(100, false);
    assert_eq!(d.cursor, 9);
    assert_eq!(sorted(&d), vec![9]);
    let mut empty = Loaded::build(FileDiff::default(), false, None);
    empty.move_cursor(3, false);
    assert_eq!(empty.cursor, 0);
}

#[test]
fn folding_keeps_one_char_per_char() {
    assert_eq!(fold("AbC", false), vec!['a', 'b', 'c']);
    assert_eq!(fold("AbC", true), vec!['A', 'b', 'C']);
    assert_eq!(fold("İx", false).len(), 2);
}

#[test]
fn find_sub_finds_the_first_occurrence() {
    let hay: Vec<char> = "abcabc".chars().collect();
    let n: Vec<char> = "ca".chars().collect();
    assert_eq!(find_sub(&hay, &n), Some(2));
    assert_eq!(find_sub(&hay, &[]), None);
    assert_eq!(find_sub(&['a'], &['a', 'b']), None);
}

#[test]
fn search_finds_non_overlapping_hits_with_the_marker_column() {
    let d = Loaded::build(parse("diff --git a/f b/f\n--- a/f\n+++ b/f\n@@ -1,2 +1,2 @@\n aaaa\n-xAAx\n"), false, None);
    let mut f = Find::default();
    f.query = "aa".into();
    f.recompute(Some(&d));
    let hits: Vec<(usize, usize, usize)> = f.matches.iter().map(|m| (m.row, m.start, m.end)).collect();
    assert_eq!(hits, vec![(1, 1, 3), (1, 3, 5), (2, 2, 4)]);
    assert_eq!(f.status(), "1 of 3");
    f.case_sensitive = true;
    f.recompute(Some(&d));
    assert_eq!(f.matches.len(), 2);
    f.query = "zz".into();
    f.recompute(Some(&d));
    assert_eq!(f.status(), "no matches");
    f.query = String::new();
    f.recompute(Some(&d));
    assert_eq!(f.status(), "");
}

#[test]
fn find_wraps_both_ways_and_jumps_the_cursor() {
    let d = loaded();
    let mut f = Find::default();
    f.query = "new".into();
    f.recompute(Some(&d));
    assert_eq!(f.matches.len(), 3);
    f.prev();
    assert_eq!(f.current, 2);
    f.next();
    assert_eq!(f.current, 0);
    f.next();
    f.prev();
    assert_eq!(f.current, 0);
    let mut d2 = loaded();
    f.next();
    f.jump(&mut d2);
    assert_eq!(d2.cursor, 4);
    assert!(d2.scroll_to_cursor);
}

#[test]
fn app_search_moves_the_cursor_to_the_first_hit() {
    let mut app = App::default();
    app.diff = Some(loaded());
    app.find.query = "old6".into();
    app.find_open();
    assert!(app.find.open);
    assert_eq!(app.find.matches.len(), 1);
    assert_eq!(app.diff.as_ref().unwrap().cursor, 8);
    assert_eq!(app.find_status(), "1 of 1");
    app.find_close();
    assert!(app.find.matches.is_empty());
}

#[test]
fn panes_and_operations() {
    assert!(Pane::Commit.read_only() && Pane::Stash.read_only());
    assert!(!Pane::Unstaged.read_only());
    assert_eq!(pane_op(Pane::Unstaged), Some(Op::Stage));
    assert_eq!(pane_op(Pane::Staged), Some(Op::Unstage));
    assert_eq!(pane_op(Pane::Stash), None);
    assert_eq!(Op::Discard.verb(), "Discard");
    assert_eq!(hint_text(None), "");
    assert!(hint_text(Some(Pane::Unstaged)).ends_with("⌫ discards"));
    assert!(hint_text(Some(Pane::Commit)).starts_with("read-only"));
}

#[test]
fn patch_change_count_skips_file_headers() {
    assert_eq!(patch_change_count(TWO_HUNKS), 5);
    assert_eq!(patch_change_count("--- a/x\n+++ b/x\n+a\r\n-b\n c\n"), 2);
}

#[test]
fn truncation_is_one_line_with_an_ellipsis() {
    assert_eq!(truncate("short", 10), "short");
    assert_eq!(truncate("two\nlines", 20), "two lines");
    assert_eq!(truncate("abcdef", 3), "abc…");
}

#[test]
fn gutter_fits_the_largest_line_number() {
    assert_eq!(line_no_digits(&loaded()), 3);
    let big = Loaded::build(parse("diff --git a/f b/f\n--- a/f\n+++ b/f\n@@ -9990,2 +9999,3 @@\n a\n"), false, None);
    assert_eq!(line_no_digits(&big), 5);
}

#[test]
fn undo_history_keeps_the_newest_discards() {
    let mut app = App::default();
    for i in 0..(UNDO_LIMIT + 5) {
        app.push_undo(UndoAction::ApplyPatch(format!("p{i}")), format!("l{i}"));
    }
    assert_eq!(app.undo.len(), UNDO_LIMIT);
    assert_eq!(app.undo_label().as_deref(), Some("l54"));
    assert_eq!(app.undo[0].label, "l5");
    assert_eq!(App::default().undo_label(), None);
}

#[test]
fn line_plans_follow_the_selection_or_the_cursor_hunk() {
    let mut app = App::default();
    app.sel_file = Some(FileSel { pane: Pane::Unstaged, path: "f".into() });
    let mut d = loaded();
    d.cursor = 7;
    app.diff = Some(d);
    match app.lines_patch(Op::Stage) {
        PatchPlan::Apply { patch, mode, cached } => {
            assert_eq!(mode, ApplyMode::Forward);
            assert!(cached);
            assert!(patch.contains("@@ -40,2 +40,2 @@"), "got: {patch}");
        }
        _ => panic!("expected a patch"),
    }
    app.diff.as_mut().unwrap().select_only(3);
    match app.lines_patch(Op::Discard) {
        PatchPlan::Apply { patch, mode, cached } => {
            assert_eq!(mode, ApplyMode::Reverse);
            assert!(!cached);
            assert!(patch.contains("+new2") && patch.contains(" new3"), "got: {patch}");
        }
        _ => panic!("expected a patch"),
    }
    app.diff.as_mut().unwrap().cursor = 0;
    app.diff.as_mut().unwrap().sel.clear();
    assert!(matches!(app.hunk_patch(Op::Stage, 5), PatchPlan::Refused(_)));
    app.sel_file = Some(FileSel { pane: Pane::Commit, path: "f".into() });
    assert!(matches!(app.lines_patch(Op::Stage), PatchPlan::Nothing));
    app.sel_file = Some(FileSel { pane: Pane::Staged, path: "f".into() });
    app.diff = Some(Loaded::build(parse("diff --git a/x b/x\nold mode 100644\nnew mode 100755\n"), false, None));
    match app.hunk_patch(Op::Unstage, 0) {
        PatchPlan::Refused(m) => assert_eq!(m, "This file has no line-level changes; use the whole-file action."),
        _ => panic!("expected a refusal"),
    }
}

#[test]
fn a_discard_records_its_patch_for_undo() {
    let mut app = App::default();
    app.sel_file = Some(FileSel { pane: Pane::Unstaged, path: "f".into() });
    app.patch_applied(Op::Discard, TWO_HUNKS.to_string());
    assert_eq!(app.info.as_deref(), Some("Discarded 5 line(s). ⌘Z to undo."));
    assert_eq!(app.undo_label().as_deref(), Some("5 line(s) in f"));
    app.patch_applied(Op::Stage, String::new());
    assert_eq!(app.info.as_deref(), Some("Staged selected lines."));
    assert_eq!(app.undo.len(), 1);
}

fn status(lines: &[&str]) -> gitgui::git::status::Status {
    let mut raw = Vec::new();
    for l in lines {
        raw.extend_from_slice(l.as_bytes());
        raw.push(0);
    }
    parse_status(&raw)
}

#[test]
fn commit_needs_a_message_and_something_staged() {
    let mut app = App::default();
    app.status = status(&["# branch.head main", "1 M. N... 100644 100644 100644 a b x.rs"]);
    assert!(!app.can_commit());
    assert_eq!(app.commit_problem().as_deref(), Some("Enter a commit message first."));
    app.commit_msg = "msg".into();
    assert!(app.can_commit());
    app.status = status(&["# branch.head main", "1 .M N... 100644 100644 100644 a b x.rs"]);
    assert!(!app.can_commit());
    assert_eq!(app.commit_problem().as_deref(), Some("Nothing staged to commit."));
    app.amend = true;
    assert!(app.can_commit());
    app.committed("[main abc] msg\n 1 file changed\n");
    assert_eq!(app.info.as_deref(), Some("[main abc] msg"));
    assert!(app.commit_msg.is_empty() && !app.amend);
}

#[test]
fn branch_label_shows_state_and_divergence() {
    let mut app = App::default();
    app.status = status(&["# branch.head main", "# branch.ab +2 -1"]);
    assert_eq!(app.branch_label(), "main  ↑2 ↓1");
    app.status = status(&["# branch.oid (initial)", "# branch.head main"]);
    assert_eq!(app.branch_label(), "main (unborn)");
    app.status = status(&["# branch.head (detached)"]);
    assert_eq!(app.branch_label(), "detached HEAD");
    app.status = status(&[]);
    assert_eq!(app.branch_label(), "(no branch)");
}

#[test]
fn selection_summary_counts_additions_and_deletions() {
    let mut app = App::default();
    assert_eq!(app.selection_summary(), None);
    let mut d = loaded();
    d.select_all();
    app.diff = Some(d);
    assert_eq!(app.selection_summary().as_deref(), Some("5 line(s) selected  +3 −2"));
}

#[test]
fn sign_off_adds_a_trailer_once() {
    let mut app = App::default();
    app.commit_msg = "Subject".into();
    app.sign_off("Signed-off-by: A <a@e>");
    assert_eq!(app.commit_msg, "Subject\n\nSigned-off-by: A <a@e>\n");
    app.sign_off("Signed-off-by: A <a@e>");
    assert_eq!(app.commit_msg, "Subject\n\nSigned-off-by: A <a@e>\n");
    let mut empty = App::default();
    empty.sign_off("S");
    assert_eq!(empty.commit_msg, "S\n");
}

#[test]
fn push_dialog_prefers_upstream_then_origin() {
    let mut app = App::default();
    app.status = status(&["# branch.head main", "# branch.upstream fork/main"]);
    app.remotes = vec!["origin".into(), "fork".into()];
    app.open_push_dialog();
    assert!(app.show_push);
    assert_eq!(app.push_remote, "fork");
    assert!(!app.push_set_upstream);
    app.status = status(&["# branch.head main"]);
    app.remotes = vec!["backup".into(), "origin".into()];
    app.open_push_dialog();
    assert_eq!(app.push_remote, "origin");
    assert!(app.push_set_upstream);
    app.remotes.clear();
    app.show_push = false;
    app.open_push_dialog();
    assert!(!app.show_push);
    assert_eq!(app.error.as_deref(), Some("This repository has no remotes. Add one with `git remote add`."));
    app.status = status(&["# branch.head (detached)"]);
    app.open_push_dialog();
    assert_eq!(app.error.as_deref(), Some("Cannot push a detached HEAD. Check out a branch first."));
}

#[test]
fn push_outcomes_are_recorded() {
    let mut app = App::default();
    assert!(app.push_finished("Pushing main to origin…", Some(Ok("  \n".into()))));
    let o = app.outcome.as_ref().unwrap();
    assert!(o.ok && o.output == "Done." && o.title == "Push complete");
    assert!(!app.push_finished("Pushing main to origin…", Some(Err("rejected".into()))));
    assert_eq!(app.error.as_deref(), Some("Pushing main to origin… failed."));
    assert!(!app.push_finished("x", None));
    assert_eq!(app.error.as_deref(), Some("The push task ended unexpectedly."));
}

#[test]
fn mode_changes_say_what_to_load() {
    let mut app = App::default();
    assert_eq!(app.set_mode(Mode::WorkingTree), Load::Nothing);
    assert_eq!(app.set_mode(Mode::History), Load::Log);
    assert_eq!(app.set_mode(Mode::Stashes), Load::Stashes);
    app.sel_file = Some(FileSel { pane: Pane::Stash, path: "x".into() });
    assert_eq!(app.set_mode(Mode::WorkingTree), Load::Nothing);
    assert!(app.sel_file.is_none());
}

fn stash(index: usize, subject: &str, parents: &[&str]) -> StashEntry {
    StashEntry {
        index,
        sha: format!("s{index}"),
        subject: subject.into(),
        date: "d".into(),
        parents: parents.iter().map(|p| p.to_string()).collect(),
    }
}

#[test]
fn stash_confirmations_and_drops() {
    let mut app = App::default();
    app.stashes = vec![stash(0, "On main: first", &["p1", "p2"]), stash(1, "WIP on x: second", &["p1", "p2", "p3"])];
    app.ask_drop_stash(1);
    match app.confirm_yes() {
        Some(Confirm::DropStash { refname, label }) => {
            assert_eq!(refname, "stash@{1}");
            assert_eq!(label, "stash@{1} — second");
        }
        _ => panic!("expected a drop confirmation"),
    }
    assert!(app.confirm.is_none());
    app.sel_stash = Some(1);
    app.stash_dropped("stash@{1}");
    assert_eq!(app.info.as_deref(), Some("Dropped stash@{1}. ⌘Z to undo."));
    assert_eq!(app.undo_label().as_deref(), Some("stash@{1} — second"));
    assert!(app.sel_stash.is_none());
    app.stash_dropped("stash@{9}");
    assert_eq!(app.info.as_deref(), Some("Dropped stash@{9}."));
}

#[test]
fn stash_selection_is_dropped_when_the_list_shrinks() {
    let mut app = App::default();
    app.stashes = vec![stash(0, "a", &[]), stash(1, "b", &[])];
    assert!(app.select_stash(1));
    assert!(!app.select_stash(5));
    app.stashes_loaded(vec![stash(0, "a", &[])]);
    assert!(app.sel_stash.is_none());
    app.stash_filter = " B ".into();
    app.stashes = vec![stash(0, "a", &[]), stash(1, "b", &[])];
    assert_eq!(app.filtered_stashes().len(), 1);
}

#[test]
fn diff_requests_follow_the_pane() {
    let mut app = App::default();
    app.status = status(&["? new.txt", "2 R. N... 100644 100644 100644 a b R100 b.rs", "a.rs"]);
    app.sel_file = Some(FileSel { pane: Pane::Unstaged, path: "new.txt".into() });
    let (req, untracked, _) = app.diff_request().unwrap();
    assert!(untracked);
    assert!(matches!(req, DiffRequest::Untracked { .. }));
    app.sel_file = Some(FileSel { pane: Pane::Staged, path: "b.rs".into() });
    match app.diff_request().unwrap().0 {
        DiffRequest::Git(c) => assert_eq!(&c.args()[9..], &["--", "b.rs", "a.rs"]),
        _ => panic!("expected a git diff"),
    }
    app.sel_file = Some(FileSel { pane: Pane::Commit, path: "x".into() });
    assert!(matches!(app.diff_request().unwrap().0, DiffRequest::Empty));
    app.sel_commit = Some("abc".into());
    assert!(matches!(app.diff_request().unwrap().0, DiffRequest::Git(GitCommand::DiffCommit { .. })));
    app.sel_file = None;
    assert!(app.diff_request().is_none());
}

#[test]
fn notes_explain_diffs_without_lines() {
    assert_eq!(diff_note(&parse(TWO_HUNKS), false), None);
    assert_eq!(diff_note(&parse(TWO_HUNKS), true).as_deref(), Some("Conflicted file. Resolve the markers, then stage the whole file."));
    let bin = parse("diff --git a/x.png b/x.png\nBinary files a/x.png and b/x.png differ\n");
    assert_eq!(diff_note(&bin, false).as_deref(), Some("Binary file — stage or unstage the whole file."));
    assert_eq!(diff_note(&FileDiff::default(), false).as_deref(), Some("No changes to show."));
}

#[test]
fn whole_files_are_shown_as_additions_or_explained() {
    match read_stash_blob(b"one\ntwo\n".to_vec(), "n.txt") {
        BlobView::Shown(fd, note) => {
            assert_eq!(fd.hunks[0].lines.len(), 2);
            assert_eq!(note, None);
        }
        _ => panic!("expected a view"),
    }
    match read_stash_blob(vec![0, 1, 2], "b.bin") {
        BlobView::Shown(_, note) => assert_eq!(note.as_deref(), Some("Binary file — stored in the stash but not shown.")),
        _ => panic!("expected a note"),
    }
    match read_stash_blob(vec![b'x'; 4 * 1024 * 1024 + 1], "big") {
        BlobView::TooLarge(n) => assert_eq!(n, 4 * 1024 * 1024 + 1),
        _ => panic!("expected too large"),
    }
    let (_, note) = untracked_view(vec![0xff, 0xfe], "x", false);
    assert_eq!(note.as_deref(), Some("Not valid UTF-8 — stage the whole file."));
    let (fd, note) = untracked_view(Vec::new(), "empty", false);
    assert!(fd.hunks.is_empty());
    assert_eq!(note.as_deref(), Some("Empty file."));
}

#[test]
fn files_past_the_display_limit_are_summarised() {
    assert!(!gitgui::app::too_large_to_show(4 * 1024 * 1024));
    assert!(gitgui::app::too_large_to_show(4 * 1024 * 1024 + 1));
    assert!(!gitgui::app::too_large_to_show(0));
}
