use gitgui::git::status::{parse, Change, Entry, Status};

fn z(parts: &[&str]) -> Vec<u8> {
    let mut v = Vec::new();
    for p in parts {
        v.extend_from_slice(p.as_bytes());
        v.push(0);
    }
    v
}

#[test]
fn parses_branch_and_ordinary_entries() {
    let raw = z(&[
        "# branch.oid abc123",
        "# branch.head main",
        "# branch.upstream origin/main",
        "# branch.ab +2 -1",
        "1 MM N... 100644 100644 100644 aaa bbb src/app.rs",
        "1 .M N... 100644 100644 100644 aaa bbb src/ui.rs",
        "? notes.txt",
    ]);
    let st = parse(&raw);
    assert_eq!(st.branch.as_deref(), Some("main"));
    assert_eq!(st.upstream.as_deref(), Some("origin/main"));
    assert_eq!((st.ahead, st.behind), (2, 1));
    assert_eq!(st.entries.len(), 3);

    let app = st.entries.iter().find(|e| e.path == "src/app.rs").unwrap();
    assert_eq!(app.index, Change::Modified);
    assert_eq!(app.worktree, Change::Modified);
    // "MM" means it belongs in both panes.
    assert!(st.unstaged().iter().any(|e| e.path == "src/app.rs"));
    assert!(st.staged().iter().any(|e| e.path == "src/app.rs"));

    let ui = st.entries.iter().find(|e| e.path == "src/ui.rs").unwrap();
    assert_eq!(ui.index, Change::Unchanged);
    assert!(!st.staged().iter().any(|e| e.path == "src/ui.rs"));
}

#[test]
fn rename_record_consumes_original_path() {
    let raw = z(&[
        "# branch.head main",
        "2 R. N... 100644 100644 100644 aaa bbb R100 new/name.rs",
        "old/name.rs",
        "1 .M N... 100644 100644 100644 aaa bbb after.rs",
    ]);
    let st = parse(&raw);
    assert_eq!(st.entries.len(), 2, "orig path must not become its own entry");
    let r = st.entries.iter().find(|e| e.path == "new/name.rs").unwrap();
    assert_eq!(r.orig_path.as_deref(), Some("old/name.rs"));
    assert_eq!(r.index, Change::Renamed);
    assert!(st.entries.iter().any(|e| e.path == "after.rs"));
}

#[test]
fn paths_with_spaces_survive() {
    let raw = z(&["1 .M N... 100644 100644 100644 aaa bbb dir with spaces/a b.txt"]);
    let st = parse(&raw);
    assert_eq!(st.entries[0].path, "dir with spaces/a b.txt");
}

#[test]
fn unmerged_entries_go_to_unstaged_only() {
    let raw = z(&["u UU N... 100644 100644 100644 100644 a b c d conflict.rs"]);
    let st = parse(&raw);
    assert!(st.entries[0].unmerged);
    assert_eq!(st.unstaged().len(), 1);
    assert_eq!(st.staged().len(), 0);
}

// ---------------------------------------------------------------------------
// Further cases
// ---------------------------------------------------------------------------

#[test]
fn entries_come_out_sorted_by_path() {
    let raw = z(&["? zeta.txt", "? alpha.txt", "1 .M N... 100644 100644 100644 aaa bbb mid.rs"]);
    let st = parse(&raw);
    let paths: Vec<&str> = st.entries.iter().map(|e| e.path.as_str()).collect();
    assert_eq!(paths, vec!["alpha.txt", "mid.rs", "zeta.txt"]);
}

#[test]
fn detached_and_unborn_heads_are_reported() {
    let st = parse(&z(&["# branch.oid (initial)", "# branch.head (detached)"]));
    assert!(st.detached);
    assert!(st.unborn);
    assert_eq!(st.branch, None);
    assert_eq!(Status::default(), parse(b""));
}

#[test]
fn change_codes_letters_and_labels() {
    assert_eq!(Change::from_code('M'), Change::Modified);
    assert_eq!(Change::from_code('?'), Change::Untracked);
    assert_eq!(Change::from_code('x'), Change::Unchanged);
    assert_eq!(Change::Renamed.letter(), "R");
    assert_eq!(Change::Added.label(), "new file");
    assert_eq!(Change::Unmerged.label(), "conflicted");
    assert!(!Change::Unchanged.is_some());
    assert!(Change::Deleted.is_some());
}

#[test]
fn display_path_shows_renames() {
    let e = Entry {
        path: "new.rs".into(),
        orig_path: Some("old.rs".into()),
        index: Change::Renamed,
        worktree: Change::Unchanged,
        unmerged: false,
        untracked: false,
    };
    assert_eq!(e.display_path(), "old.rs → new.rs");
}
