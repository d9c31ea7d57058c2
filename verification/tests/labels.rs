use gitgui::app::{Confirm, Op, Pane};
use gitgui::labels::{
    confirm_text, count_text, key_plan, merge_status_text, pane_subtitle, pane_title, push_label,
    staged_count_text, stashes_tab, Keys, Pending, entry_letter, stash_file_note, stash_untracked_marker,
};
use gitgui::git::status::Change;

#[test]
fn confirmations_say_what_is_lost() {
    let t = confirm_text(&Confirm::DiscardFile { path: "a.txt".into(), untracked: true });
    assert_eq!(t.title, "Discard file?");
    assert_eq!(t.body, "Delete the untracked file a.txt.\nThis cannot be undone.");
    assert_eq!(t.action, "Discard");
    let t = confirm_text(&Confirm::DiscardFile { path: "a.txt".into(), untracked: false });
    assert_eq!(t.body, "Revert all changes in a.txt.\nThis cannot be undone.");
    let t = confirm_text(&Confirm::DropStash { refname: "stash@{0}".into(), label: "stash@{0} — wip".into() });
    assert_eq!(t.title, "Drop stash?");
    assert_eq!(t.body, "Delete stash@{0} — wip.\n\nThis can be undone with ⌘Z straight afterwards.");
    assert_eq!(t.action, "Drop");
    let t = confirm_text(&Confirm::AbortMerge);
    assert_eq!((t.title, t.action), ("Abort merge?", "Abort Merge"));
    assert!(t.body.contains("resolutions made so far are lost"));
}

#[test]
fn pane_titles_follow_amend_and_hiding() {
    assert_eq!(pane_title(true, false, false), "Staged Changes (Will Commit)");
    assert_eq!(pane_title(true, true, true), "Staged Changes (Will Amend)");
    assert_eq!(pane_title(false, true, false), "Unstaged Changes");
    assert_eq!(pane_title(false, false, true), "Unstaged Changes (Tracked Only)");
    assert_eq!(pane_subtitle(Pane::Unstaged), "unstaged changes");
    assert_eq!(pane_subtitle(Pane::Staged), "staged changes");
    assert_eq!(pane_subtitle(Pane::Commit), "in this commit");
    assert_eq!(pane_subtitle(Pane::Stash), "in this stash");
}

#[test]
fn counters_and_buttons() {
    assert_eq!(count_text(7, 7), "7");
    assert_eq!(count_text(3, 12), "3/12");
    assert_eq!(stashes_tab(0), "Stashes");
    assert_eq!(stashes_tab(4), "Stashes (4)");
    assert_eq!(push_label(0), "Push…");
    assert_eq!(push_label(-2), "Push…");
    assert_eq!(push_label(3), "Push ↑3");
    assert_eq!(staged_count_text(2, false), "2 file(s) staged");
    assert_eq!(staged_count_text(5, true), "5 file(s) in commit");
    assert_eq!(merge_status_text("side", 0), "merging side — all resolved, commit to finish");
    assert_eq!(merge_status_text("side", 2), "merging side — 2 conflict(s) left");
}

#[test]
fn keys_ask_for_the_panes_operation() {
    let none = Keys::default();
    assert_eq!(key_plan(&none, Pane::Unstaged, Some(0)), None);
    let space = Keys { primary: true, ..Keys::default() };
    assert_eq!(key_plan(&space, Pane::Unstaged, None), Some(Pending::Lines(Op::Stage)));
    assert_eq!(key_plan(&space, Pane::Staged, None), Some(Pending::Lines(Op::Unstage)));
    assert_eq!(key_plan(&space, Pane::Commit, None), None, "read-only");
    let h = Keys { hunk: true, ..Keys::default() };
    assert_eq!(key_plan(&h, Pane::Staged, Some(2)), Some(Pending::Hunk(Op::Unstage, 2)));
    assert_eq!(key_plan(&h, Pane::Staged, None), None, "no hunk under the cursor");
    let all = Keys { hunk: true, primary: true, discard: true, ..Keys::default() };
    assert_eq!(key_plan(&all, Pane::Unstaged, Some(1)), Some(Pending::Lines(Op::Discard)));
    assert_eq!(key_plan(&all, Pane::Stash, Some(1)), None);
}

#[test]
fn list_codes_and_stash_notes() {
    assert_eq!(entry_letter(Change::Modified, false), "M");
    assert_eq!(entry_letter(Change::Modified, true), "U");
    assert_eq!(stash_untracked_marker(true), "+untracked");
    assert_eq!(stash_untracked_marker(false), "");
    assert_eq!(stash_file_note(true), "untracked");
    assert_eq!(stash_file_note(false), "");
}
