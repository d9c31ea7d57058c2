//! Refusals and dialogs around pushing and stashing, on states built in
//! memory.

use gitgui::app::{App, Mode, Op, Pane, PatchPlan};
use gitgui::git::stash::StashEntry;
use gitgui::git::status::{parse as parse_status, Status};
use gitgui::git::Repo;

fn status(lines: &[&str]) -> Status {
    let mut raw = Vec::new();
    for l in lines {
        raw.extend_from_slice(l.as_bytes());
        raw.push(0);
    }
    parse_status(&raw)
}

fn committed() -> App {
    let mut app = App::default();
    app.opened(Repo { root: "/work/repo".into() });
    app.status = status(&["# branch.oid abc", "# branch.head main"]);
    app
}

#[test]
fn push_dialog_defaults_to_the_remote_the_branch_tracks() {
    let mut app = committed();
    app.status = status(&["# branch.oid abc", "# branch.head main", "# branch.upstream backup/main"]);
    app.remotes = vec!["backup".into(), "origin".into()];
    app.open_push_dialog();
    assert!(app.show_push);
    assert_eq!(app.push_remote, "backup");
    assert!(!app.push_set_upstream, "upstream already set, so do not offer it again");
}

#[test]
fn push_is_refused_without_a_remote() {
    let mut app = committed();
    assert!(app.remotes.is_empty());
    app.open_push_dialog();
    assert!(!app.show_push, "no dialog without somewhere to push");
    let e = app.error.clone().unwrap_or_default();
    assert!(e.contains("remote"), "got: {e}");
}

#[test]
fn push_is_refused_on_a_detached_head() {
    let mut app = committed();
    app.status = status(&["# branch.oid abc", "# branch.head (detached)"]);
    app.remotes = vec!["origin".into()];
    assert!(app.status.detached);
    app.open_push_dialog();
    assert!(!app.show_push);
    let e = app.error.clone().unwrap_or_default();
    assert!(e.to_lowercase().contains("detached"), "got: {e}");
}

#[test]
fn push_is_refused_before_the_first_commit() {
    let mut app = committed();
    app.status = status(&["# branch.oid (initial)", "# branch.head main", "? f.txt"]);
    app.remotes = vec!["origin".into()];
    assert!(app.status.unborn || app.status.branch.is_none());
    app.open_push_dialog();
    assert!(!app.show_push);
    assert!(app.error.is_some());
}

#[test]
fn opening_a_repo_records_it_in_the_recent_list() {
    let mut app = App::default();
    assert!(app.repo.is_none());
    app.opened(Repo { root: "/work/repo".into() });
    let root = app.repo.as_ref().unwrap().root.clone();
    assert_eq!(app.recent.first(), Some(&root), "the just-opened repo should head the list");

    app.opened(Repo { root: "/work/repo".into() });
    assert_eq!(app.recent.iter().filter(|p| **p == root).count(), 1);
}

fn stash(index: usize, subject: &str, parents: &[&str]) -> StashEntry {
    StashEntry {
        index,
        sha: format!("{index}aaaaaaaaaaaaaaa"),
        subject: subject.into(),
        date: "2024-01-01".into(),
        parents: parents.iter().map(|p| p.to_string()).collect(),
    }
}

fn seeded() -> App {
    let mut app = committed();
    app.set_mode(Mode::Stashes);
    app.stashes_loaded(vec![
        stash(0, "On main: index and worktree", &["p1", "p2"]),
        stash(1, "On main: with untracked", &["p1", "p2", "p3"]),
        stash(2, "On main: tracked only", &["p1", "p2"]),
    ]);
    app
}

#[test]
fn stash_filter_narrows_the_list() {
    let mut app = seeded();
    assert_eq!(app.filtered_stashes().len(), 3);
    app.stash_filter = "untracked".into();
    assert_eq!(app.filtered_stashes().len(), 1);
    app.stash_filter = "nothing here".into();
    assert!(app.filtered_stashes().is_empty());
}

#[test]
fn cancelling_a_drop_changes_nothing() {
    let mut app = seeded();
    app.ask_drop_stash(0);
    assert!(app.confirm.is_some());
    app.confirm = None;
    assert_eq!(app.stashes.len(), 3);
    assert!(app.undo.is_empty());
}

#[test]
fn stash_contents_are_read_only() {
    let mut app = seeded();
    assert!(app.select_stash(2));
    app.select_file(Pane::Stash, "a.txt");
    assert!(app.read_only());
    assert_eq!(app.primary_op(), None);
    assert!(matches!(app.lines_patch(Op::Stage), PatchPlan::Nothing));
    assert!(matches!(app.hunk_patch(Op::Stage, 0), PatchPlan::Nothing));
    assert!(matches!(app.lines_patch(Op::Discard), PatchPlan::Nothing));
}

#[test]
fn stashing_is_refused_when_there_is_nothing_to_stash() {
    let mut app = committed();
    app.open_stash_dialog();
    assert!(!app.show_stash_dialog);
    let e = app.error.clone().unwrap_or_default();
    assert!(e.to_lowercase().contains("clean"), "got: {e}");
}

#[test]
fn switching_away_from_stashes_clears_the_diff() {
    let mut app = seeded();
    assert!(app.select_stash(2));
    app.select_file(Pane::Stash, "a.txt");
    app.diff = Some(gitgui::app::Loaded::build(
        gitgui::git::diff::parse("diff --git a/a.txt b/a.txt\n--- a/a.txt\n+++ b/a.txt\n@@ -1,3 +1,3 @@\n a1\n-a2\n+CHANGED\n a3\n"),
        false,
        None,
    ));
    assert!(app.diff.is_some());
    app.set_mode(Mode::WorkingTree);
    assert!(app.diff.is_none());
    assert!(app.sel_file.is_none());
}
