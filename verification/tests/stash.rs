use gitgui::git::stash::{parse_list, parse_paths, StashEntry};

fn z(parts: &[&str]) -> Vec<u8> {
    parts.join("\0").into_bytes()
}

#[test]
fn parses_list_and_numbers_entries_by_position() {
    let raw = z(&[
        "aaa\u{1f}On main: newest\u{1f}2026-08-07\u{1f}p1 p2",
        "bbb\u{1f}On main: with untracked\u{1f}2026-08-06\u{1f}p1 p2 p3",
        "ccc\u{1f}WIP on side: oldest\u{1f}2026-08-05\u{1f}p1 p2",
    ]);
    let v = parse_list(&raw);
    assert_eq!(v.len(), 3);

    assert_eq!(v[0].index, 0);
    assert_eq!(v[0].refname(), "stash@{0}");
    assert_eq!(v[0].sha, "aaa");
    assert!(!v[0].has_untracked());
    assert_eq!(v[0].untracked_parent(), None);

    assert_eq!(v[1].refname(), "stash@{1}");
    assert!(v[1].has_untracked(), "three parents means -u was used");
    assert_eq!(v[1].untracked_parent(), Some("p3"));

    assert_eq!(v[2].refname(), "stash@{2}");
}

#[test]
fn strips_the_on_branch_prefix_for_display() {
    let e = StashEntry {
        index: 0,
        sha: "a".into(),
        subject: "On main: fixing the widget".into(),
        date: "2026-08-07".into(),
        parents: vec!["p1".into(), "p2".into()],
    };
    assert_eq!(e.message(), "fixing the widget");
    assert_eq!(e.branch().as_deref(), Some("main"));

    let wip = StashEntry {
        subject: "WIP on feature/x: 1234567 some commit".into(),
        ..e.clone()
    };
    assert_eq!(wip.message(), "1234567 some commit");
    assert_eq!(wip.branch().as_deref(), Some("feature/x"));

    // A message with no recognisable prefix is left alone.
    let bare = StashEntry {
        subject: "just a message".into(),
        ..e.clone()
    };
    assert_eq!(bare.message(), "just a message");
    assert_eq!(bare.branch(), None);
}

#[test]
fn message_keeps_later_colons() {
    let e = StashEntry {
        index: 0,
        sha: "a".into(),
        subject: "On main: fix: the thing".into(),
        date: "d".into(),
        parents: vec![],
    };
    assert_eq!(e.message(), "fix: the thing");
}

#[test]
fn filter_matches_subject_and_sha() {
    let e = StashEntry {
        index: 0,
        sha: "abc123".into(),
        subject: "On main: widget work".into(),
        date: "d".into(),
        parents: vec![],
    };
    assert!(e.matches(""));
    assert!(e.matches("widget"));
    assert!(e.matches("abc"));
    assert!(!e.matches("nothing"));
}

#[test]
fn empty_list_parses_to_nothing() {
    assert!(parse_list(b"").is_empty());
    assert!(parse_list(b"\0").is_empty());
}

#[test]
fn parses_nul_separated_paths() {
    assert_eq!(
        parse_paths(b"one.txt\0dir/two.txt\0"),
        vec!["one.txt", "dir/two.txt"]
    );
    assert!(parse_paths(b"").is_empty());
}

// ---------------------------------------------------------------------------
// Further cases
// ---------------------------------------------------------------------------

#[test]
fn malformed_records_do_not_take_a_position() {
    let raw = z(&[
        "broken record",
        "aaa\u{1f}On main: kept\u{1f}2026-08-07\u{1f}p1 p2",
    ]);
    let v = parse_list(&raw);
    assert_eq!(v.len(), 1);
    assert_eq!(v[0].index, 0);
    assert_eq!(v[0].refname(), "stash@{0}");
}

#[test]
fn a_colon_without_a_known_prefix_names_no_branch() {
    let e = StashEntry {
        index: 12,
        sha: "a".into(),
        subject: "note: keep this".into(),
        date: "d".into(),
        parents: vec![],
    };
    assert_eq!(e.message(), "note: keep this");
    assert_eq!(e.branch(), None);
    assert_eq!(e.refname(), "stash@{12}");
}

#[test]
fn paths_lose_stray_line_breaks() {
    assert_eq!(parse_paths(b"\r\na.txt\n\0\n\0b"), vec!["a.txt", "b"]);
}
