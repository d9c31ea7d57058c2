use gitgui::git::log::CommitFile;
use gitgui::git::patch::ApplyMode;
use gitgui::git::status::Change;
use gitgui::git::{
    combine_output, explain_push_failure, merge_head_from, merge_message_body, parse_branches,
    parse_remotes, push_result, run_result, signature_line, stash_file_list, version_text,
    GitCommand, PushOptions, Repo, EMPTY_TREE,
};

fn args(c: GitCommand) -> Vec<String> {
    c.args()
}

#[test]
fn status_is_asked_for_in_porcelain_v2_with_nul_separators() {
    assert_eq!(
        args(GitCommand::Status),
        vec!["status", "--porcelain=v2", "--branch", "-z", "--untracked-files=all"]
    );
}

#[test]
fn unstaged_diff_is_machine_readable_and_paths_follow_the_separator() {
    assert_eq!(
        args(GitCommand::DiffUnstaged { path: "-odd name".into() }),
        vec![
            "diff",
            "--no-color",
            "--no-ext-diff",
            "--no-textconv",
            "--src-prefix=a/",
            "--dst-prefix=b/",
            "-U3",
            "--",
            "-odd name"
        ]
    );
}

#[test]
fn staged_diff_names_the_rename_source_and_base() {
    let a = args(GitCommand::DiffStaged {
        path: "new.rs".into(),
        orig: Some("old.rs".into()),
        base: Some("HEAD^".into()),
    });
    assert_eq!(&a[7..], &["--cached", "--find-renames", "HEAD^", "--", "new.rs", "old.rs"]);
}

#[test]
fn log_asks_for_the_limit_and_optionally_all_refs() {
    let a = args(GitCommand::Log { limit: 200, all_refs: false });
    assert_eq!(a[5], "--pretty=format:%H%x1f%h%x1f%an%x1f%ad%x1f%D%x1f%s");
    assert_eq!(a[6], "-n200");
    assert_eq!(a.len(), 7);
    let b = args(GitCommand::Log { limit: 3, all_refs: true });
    assert_eq!(b.last().unwrap(), "--all");
}

#[test]
fn stash_commands_name_the_ref_and_the_first_parent() {
    assert_eq!(args(GitCommand::StashApply { refname: "stash@{1}".into() }), vec!["stash", "apply", "stash@{1}"]);
    assert_eq!(args(GitCommand::StashPop { refname: "stash@{0}".into() }), vec!["stash", "pop", "stash@{0}"]);
    assert_eq!(args(GitCommand::StashDrop { refname: "stash@{2}".into() }), vec!["stash", "drop", "stash@{2}"]);
    assert_eq!(
        args(GitCommand::StashFiles { sha: "abc".into() }),
        vec!["diff", "--name-status", "-z", "--find-renames", "abc^1", "abc"]
    );
    assert_eq!(
        args(GitCommand::StashUntrackedBlob { parent: "p3".into(), path: "a b.txt".into() }),
        vec!["show", "p3:a b.txt"]
    );
    assert_eq!(
        args(GitCommand::StashStore { sha: "abc".into(), message: "On main: x".into() }),
        vec!["stash", "store", "-m", "On main: x", "abc"]
    );
}

#[test]
fn stash_push_trims_its_message_and_drops_an_empty_one() {
    assert_eq!(
        args(GitCommand::StashPush { message: "  wip  ".into(), include_untracked: true }),
        vec!["stash", "push", "--include-untracked", "-m", "wip"]
    );
    assert_eq!(
        args(GitCommand::StashPush { message: "   ".into(), include_untracked: false }),
        vec!["stash", "push"]
    );
}

#[test]
fn push_uses_force_with_lease_never_plain_force() {
    let o = PushOptions {
        remote: "origin".into(),
        branch: "main".into(),
        set_upstream: true,
        force_with_lease: true,
        tags: true,
    };
    let a = args(GitCommand::Push { options: o });
    assert_eq!(
        a,
        vec!["push", "--verbose", "--set-upstream", "--force-with-lease", "--tags", "origin", "main"]
    );
    assert!(!a.iter().any(|x| x == "--force"));
}

#[test]
fn apply_reverses_and_caches_as_asked() {
    assert_eq!(
        args(GitCommand::Apply { mode: ApplyMode::Reverse, cached: true }),
        vec!["apply", "--whitespace=nowarn", "--recount", "--cached", "--reverse", "-"]
    );
    assert_eq!(
        args(GitCommand::Apply { mode: ApplyMode::Forward, cached: false }),
        vec!["apply", "--whitespace=nowarn", "--recount", "-"]
    );
}

#[test]
fn unstaging_without_a_head_removes_from_the_index() {
    let paths = vec!["a".to_string(), "b".to_string()];
    assert_eq!(
        args(GitCommand::Unstage { paths: paths.clone(), has_head: true }),
        vec!["restore", "--staged", "--", "a", "b"]
    );
    assert_eq!(
        args(GitCommand::Unstage { paths, has_head: false }),
        vec!["rm", "--cached", "--force", "--quiet", "--", "a", "b"]
    );
    assert_eq!(
        args(GitCommand::Commit { amend: true }),
        vec!["commit", "--cleanup=strip", "-F", "-", "--amend"]
    );
    assert_eq!(
        args(GitCommand::TakeSide { path: "c.rs".into(), ours: false }),
        vec!["checkout", "--theirs", "--", "c.rs"]
    );
}

#[test]
fn diff_args_put_extra_flags_before_the_separator() {
    let extra = vec!["--cached".to_string()];
    let paths = vec!["x".to_string()];
    let a = Repo::diff_args(&extra, &paths);
    assert_eq!(a.len(), 10);
    assert_eq!(a[7], "--cached");
    assert_eq!(a[8], "--");
    assert_eq!(a[9], "x");
}

#[test]
fn failed_runs_report_stderr_or_the_command() {
    let cmd = vec!["stash".to_string(), "pop".to_string()];
    let ok = run_result(true, b"out".to_vec(), b"ignored", &cmd).unwrap();
    assert_eq!(ok, b"out".to_vec());
    let e = run_result(false, Vec::new(), b"  error: conflict\n", &cmd).unwrap_err();
    assert_eq!(e.0, "error: conflict");
    let e = run_result(false, Vec::new(), b" \n", &cmd).unwrap_err();
    assert_eq!(e.0, "git stash pop failed");
}

#[test]
fn discovery_needs_success_and_a_root() {
    let r = Repo::discovered(true, b"/home/me/proj\n", "/home/me/proj/src").unwrap();
    assert_eq!(r.root, "/home/me/proj");
    assert_eq!(r.name(), "proj");
    let e = Repo::discovered(false, b"", "/tmp").unwrap_err();
    assert_eq!(e.0, "/tmp is not inside a git repository");
    let e = Repo::discovered(true, b"  \n", "/tmp").unwrap_err();
    assert_eq!(e.0, "git returned an empty repository root");
    assert_eq!(version_text(b"git version 2.45.0\n"), "git version 2.45.0");
}

#[test]
fn remotes_and_branches_are_one_per_line() {
    assert_eq!(parse_remotes("origin\n\n  upstream \r\n"), vec!["origin", "upstream"]);
    assert_eq!(parse_branches("main\nfeature/x\n"), vec!["main", "feature/x"]);
    assert!(parse_branches("").is_empty());
}

#[test]
fn signature_line_trims_name_and_email() {
    assert_eq!(
        signature_line(" Alice Smith\n", "a@e.com\n"),
        "Signed-off-by: Alice Smith <a@e.com>"
    );
}

#[test]
fn amend_base_falls_back_to_the_empty_tree() {
    assert_eq!(Repo::amend_base_for(true), "HEAD^");
    assert_eq!(Repo::amend_base_for(false), EMPTY_TREE);
}

#[test]
fn merge_head_prefers_a_name_then_the_short_id() {
    assert_eq!(merge_head_from(false, &Some("x".into()), &None), None);
    assert_eq!(
        merge_head_from(true, &Some("feature\n".into()), &Some("abc1234\n".into())).as_deref(),
        Some("feature")
    );
    assert_eq!(
        merge_head_from(true, &Some("undefined\n".into()), &Some("abc1234\n".into())).as_deref(),
        Some("abc1234")
    );
    assert_eq!(merge_head_from(true, &None, &Some("  ".into())), None);
}

#[test]
fn merge_message_drops_comment_lines() {
    let text = "Merge branch 'x'\n\n# Conflicts:\n#\tsrc/a.rs\n   # indented comment\nreal line\n";
    assert_eq!(
        merge_message_body(text).as_deref(),
        Some("Merge branch 'x'\n\nreal line")
    );
    assert_eq!(merge_message_body("# only\n#comments\n"), None);
}

#[test]
fn push_output_joins_streams_with_a_line_break() {
    assert_eq!(combine_output("a", "b"), "a\nb");
    assert_eq!(combine_output("a\n", "b"), "a\nb");
    assert_eq!(combine_output("a", "  \n"), "a");
    assert_eq!(combine_output("", "err"), "err");
}

#[test]
fn push_failures_get_advice_for_this_environment() {
    let out = explain_push_failure("fatal: could not read Username for 'https://x': terminal prompts disabled\n");
    assert!(out.starts_with("fatal: could not read Username"));
    assert!(out.contains("\n\ngit needed credentials"));
    let out = explain_push_failure("git@host: Permission denied (publickey).\n");
    assert!(out.contains("SSH could not authenticate"));
    let out = explain_push_failure(" ! [rejected] main -> main (fetch first)\n");
    assert!(out.ends_with("Fetch and merge or rebase first."));
    assert_eq!(explain_push_failure("something else\n\n"), "something else");
    assert_eq!(push_result(true, "done\n").unwrap(), "done\n");
    assert_eq!(push_result(false, "boom\n").unwrap_err(), "boom");
}

#[test]
fn stash_files_merge_both_sources_sorted_by_path() {
    let changed = vec![
        CommitFile { status: Change::Modified, path: "src/z.rs".into(), orig_path: None },
        CommitFile { status: Change::Renamed, path: "b.rs".into(), orig_path: Some("a.rs".into()) },
    ];
    let untracked = vec!["notes.txt".to_string(), "b.rs".to_string()];
    let v = stash_file_list(changed, untracked);
    let paths: Vec<&str> = v.iter().map(|f| f.path.as_str()).collect();
    assert_eq!(paths, vec!["b.rs", "b.rs", "notes.txt", "src/z.rs"]);
    assert!(!v[0].untracked && v[0].orig_path.as_deref() == Some("a.rs"));
    assert!(v[1].untracked && v[1].status == Change::Untracked);
}

#[test]
fn the_configured_editor_is_read_from_git_config() {
    assert_eq!(GitCommand::CoreEditor.args(), vec!["config".to_string(), "core.editor".to_string()]);
}

#[test]
fn amend_unstaging_restores_or_removes_by_presence_in_the_base() {
    let r = Repo::unstage_from_step("HEAD^", "f.txt", true);
    assert!(matches!(r, GitCommand::RestoreFrom { ref base, ref path } if base == "HEAD^" && path == "f.txt"));
    let r = Repo::unstage_from_step("HEAD^", "new.txt", false);
    assert!(matches!(r, GitCommand::RemoveCached { ref path } if path == "new.txt"));
}

#[test]
fn a_branch_without_commits_lists_no_history_or_stashes() {
    assert!(Repo::log_command(false, 200, false).is_none());
    assert!(matches!(Repo::log_command(true, 200, true), Some(GitCommand::Log { limit: 200, all_refs: true })));
    assert!(Repo::stash_list_command(false).is_none());
    assert!(matches!(Repo::stash_list_command(true), Some(GitCommand::StashList)));
}
