use gitgui::git::log::{parse_log, parse_meta, parse_name_status, CommitInfo, CommitMeta};
use gitgui::git::status::Change;

fn z(parts: &[&str]) -> Vec<u8> {
    parts.join("\0").into_bytes()
}

#[test]
fn parses_log_records() {
    let raw = z(&[
        "abc123\u{1f}abc\u{1f}Alice\u{1f}2026-08-07\u{1f}HEAD -> main\u{1f}merge side",
        "def456\u{1f}def\u{1f}Bob\u{1f}2026-08-06\u{1f}\u{1f}fix: a thing",
    ]);
    let v = parse_log(&raw);
    assert_eq!(v.len(), 2);
    assert_eq!(v[0].sha, "abc123");
    assert_eq!(v[0].short, "abc");
    assert_eq!(v[0].author, "Alice");
    assert_eq!(v[0].refs, "HEAD -> main");
    assert_eq!(v[0].subject, "merge side");
    assert_eq!(v[1].refs, "");
    assert_eq!(v[1].subject, "fix: a thing");
}

#[test]
fn subject_may_contain_separators_and_colons() {
    let raw = z(&["s\u{1f}s\u{1f}A\u{1f}d\u{1f}\u{1f}weird\u{1f}subject"]);
    let v = parse_log(&raw);
    assert_eq!(v[0].subject, "weird\u{1f}subject");
}

#[test]
fn parses_name_status_with_rename() {
    // Exactly what `git show --name-status -z --find-renames` emits.
    let raw = z(&["R073", "a.txt", "renamed.txt", "M", "other.rs", ""]);
    let v = parse_name_status(&raw);
    assert_eq!(v.len(), 2);
    assert_eq!(v[0].status, Change::Renamed);
    assert_eq!(v[0].orig_path.as_deref(), Some("a.txt"));
    assert_eq!(v[0].path, "renamed.txt");
    assert_eq!(v[1].status, Change::Modified);
    assert_eq!(v[1].path, "other.rs");
    assert_eq!(v[1].orig_path, None);
}

#[test]
fn parses_added_and_deleted() {
    let raw = z(&["A", "new.rs", "D", "gone.rs"]);
    let v = parse_name_status(&raw);
    assert_eq!(v[0].status, Change::Added);
    assert_eq!(v[1].status, Change::Deleted);
}

#[test]
fn empty_name_status_yields_nothing() {
    assert!(parse_name_status(b"").is_empty());
    assert!(parse_name_status(b"\0").is_empty());
}

#[test]
fn parses_meta_with_parents() {
    let raw = "Alice\u{1f}a@e.com\u{1f}2026-08-07 10:00:00 +0200\u{1f}HEAD -> main\u{1f}p1 p2\u{1f}subject\n\nbody text\n";
    let m = parse_meta(raw);
    assert_eq!(m.author, "Alice");
    assert_eq!(m.email, "a@e.com");
    assert_eq!(m.parents, vec!["p1", "p2"]);
    assert!(m.is_merge());
    assert_eq!(m.body, "subject\n\nbody text");
}

#[test]
fn single_parent_is_not_a_merge() {
    let raw = "A\u{1f}a@e\u{1f}d\u{1f}\u{1f}p1\u{1f}s";
    assert!(!parse_meta(raw).is_merge());
}

#[test]
fn commit_filter_matches_subject_author_sha_and_refs() {
    let c = CommitInfo {
        sha: "abc123def".into(),
        short: "abc123d".into(),
        author: "Alice Smith".into(),
        date: "2026-08-07".into(),
        refs: "origin/main".into(),
        subject: "Fix the Widget".into(),
    };
    assert!(c.matches(""));
    assert!(c.matches("widget"));
    assert!(c.matches("alice"));
    assert!(c.matches("abc12"));
    assert!(c.matches("origin/"));
    assert!(!c.matches("nonexistent"));
}

// ---------------------------------------------------------------------------
// Further cases
// ---------------------------------------------------------------------------

#[test]
fn short_meta_reads_as_empty_details() {
    let m = parse_meta("only\u{1f}three\u{1f}fields");
    assert_eq!(m, CommitMeta::default());
    assert!(!m.is_merge());
}

#[test]
fn record_with_too_few_fields_is_skipped() {
    let raw = z(&["a\u{1f}b\u{1f}c", "s\u{1f}s\u{1f}A\u{1f}d\u{1f}r\u{1f}subj"]);
    let v = parse_log(&raw);
    assert_eq!(v.len(), 1);
    assert_eq!(v[0].subject, "subj");
}

#[test]
fn rename_missing_its_target_stops_the_list() {
    let raw = z(&["M", "kept.rs", "R100", "only-one"]);
    let v = parse_name_status(&raw);
    assert_eq!(v.len(), 1);
    assert_eq!(v[0].path, "kept.rs");
}
