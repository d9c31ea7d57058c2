//! The git layer: parsers for what git prints, the patches fed back to it,
//! and the exact command lines the application runs.

pub mod diff;
pub mod patch;
pub mod status;
pub mod log;
pub mod stash;

use vstd::prelude::*;
use crate::text::{
    append_chars, append_str, chars_of, join, contains, contains_str, cviews, decimal, decode_lossy,
    is_ws, lines, lines_exec, lowercase, push_decimal, skip_ws, slice_of, starts_with_str,
    trim_start_by, split_once, split_once_exec, starts_with,
    key_insert_pos, keys_sorted, lemma_key_insert_sorted, string_of, text_lt_exec, to_lowercase, trim, trim_end, trim_end_exec, trim_exec, utf8_lossy, views,
};
use self::log::{CommitFile, CommitFileV, LOG_FORMAT};
use self::status::Change;
use self::patch::ApplyMode;
use self::stash::{StashFile, StashFileV, STASH_FORMAT};

verus! {

pub const DIFF_CONTEXT: u32 = 3;

/// The id of the empty tree, the base an amend compares against when HEAD
/// has no parent.
pub const EMPTY_TREE: &'static str = "4b825dc642cb6eb9a060e54bf8d69288fbee4904";

/// A failed git invocation, with the message to show.
#[derive(Debug, Clone)]
pub struct GitError(pub String);

#[derive(Clone, Debug, PartialEq, Eq)]
pub struct PushOptions {
    pub remote: String,
    pub branch: String,
    pub set_upstream: bool,
    pub force_with_lease: bool,
    pub tags: bool,
}

#[derive(Clone, Debug, PartialEq, Eq)]
pub struct Repo {
    /// The top-level directory of the work tree.
    pub root: String,
}

/// Every git invocation the application makes.
#[derive(Clone, Debug)]
pub enum GitCommand {
    Version,
    TopLevel,
    Status,
    HasHead,
    HasParent,
    DiffUnstaged { path: String },
    DiffStaged { path: String, orig: Option<String>, base: Option<String> },
    StagedFiles { base: String },
    Log { limit: usize, all_refs: bool },
    CommitFiles { sha: String },
    CommitMeta { sha: String },
    DiffCommit { sha: String, path: String, orig: Option<String> },
    StashList,
    StashFiles { sha: String },
    StashUntrackedPaths { parent: String },
    DiffStash { sha: String, path: String, orig: Option<String> },
    StashUntrackedBlob { parent: String, path: String },
    StashPush { message: String, include_untracked: bool },
    StashApply { refname: String },
    StashPop { refname: String },
    StashDrop { refname: String },
    StashStore { sha: String, message: String },
    LastCommitMessage,
    UserName,
    UserEmail,
    /// git's configured editor, `core.editor`.
    CoreEditor,
    Remotes,
    Push { options: PushOptions },
    MergeHeadExists,
    MergeHeadName,
    MergeHeadShort,
    GitDir,
    AbortMerge,
    TakeSide { path: String, ours: bool },
    Branches,
    Stage { paths: Vec<String> },
    StageChanged,
    Unstage { paths: Vec<String>, has_head: bool },
    ExistsAt { base: String, path: String },
    RestoreFrom { base: String, path: String },
    RemoveCached { path: String },
    Checkout { paths: Vec<String> },
    Apply { mode: ApplyMode, cached: bool },
    Commit { amend: bool },
    CheckoutBranch { name: String },
    CreateBranch { name: String },
}

/// The flags that keep a diff machine-readable whatever the user's
/// configuration says.
pub open spec fn diff_flags() -> Seq<Seq<char>> {
    seq![
        "--no-color"@,
        "--no-ext-diff"@,
        "--no-textconv"@,
        "--src-prefix=a/"@,
        "--dst-prefix=b/"@,
        "-U3"@,
    ]
}

/// An optional argument: present or absent.
pub open spec fn opt_arg(o: Option<String>) -> Seq<Seq<char>> {
    match o {
        Some(s) => seq![s@],
        None => seq![],
    }
}

/// A flag that is passed only when `on`.
pub open spec fn flag_if(on: bool, flag: Seq<char>) -> Seq<Seq<char>> {
    if on {
        seq![flag]
    } else {
        seq![]
    }
}

/// `git diff` with the machine-readable flags, `extra`, then the paths
/// after `--`.
pub open spec fn diff_args_spec(extra: Seq<Seq<char>>, paths: Seq<Seq<char>>) -> Seq<Seq<char>> {
    seq!["diff"@] + diff_flags() + extra + seq!["--"@] + paths
}

/// The message `git stash push -m` is given: the text trimmed, and none when
/// that leaves nothing.
pub open spec fn stash_message_args(message: Seq<char>) -> Seq<Seq<char>> {
    if trim(message).len() == 0 {
        seq![]
    } else {
        seq!["-m"@, trim(message)]
    }
}

/// The command line of each invocation, after `git` and the options that
/// every run shares.
pub open spec fn command_args(c: GitCommand) -> Seq<Seq<char>> {
    match c {
        GitCommand::Version => seq!["--version"@],
        GitCommand::TopLevel => seq!["rev-parse"@, "--show-toplevel"@],
        GitCommand::Status => seq![
            "status"@,
            "--porcelain=v2"@,
            "--branch"@,
            "-z"@,
            "--untracked-files=all"@,
        ],
        GitCommand::HasHead => seq!["rev-parse"@, "--verify"@, "--quiet"@, "HEAD"@],
        GitCommand::HasParent => seq!["rev-parse"@, "--verify"@, "--quiet"@, "HEAD^"@],
        GitCommand::DiffUnstaged { path } => diff_args_spec(seq![], seq![path@]),
        GitCommand::DiffStaged { path, orig, base } => diff_args_spec(
            seq!["--cached"@, "--find-renames"@] + opt_arg(base),
            seq![path@] + opt_arg(orig),
        ),
        GitCommand::StagedFiles { base } => seq![
            "diff"@,
            "--cached"@,
            "--name-status"@,
            "-z"@,
            "--find-renames"@,
            base@,
        ],
        GitCommand::Log { limit, all_refs } => seq![
            "log"@,
            "--no-color"@,
            "-z"@,
            "--date=short"@,
            "--topo-order"@,
            "--pretty=format:"@ + LOG_FORMAT@,
            "-n"@ + decimal(limit as nat),
        ] + flag_if(all_refs, "--all"@),
        GitCommand::CommitFiles { sha } => seq![
            "show"@,
            sha@,
            "--format="@,
            "--name-status"@,
            "-z"@,
            "-m"@,
            "--first-parent"@,
            "--find-renames"@,
        ],
        GitCommand::CommitMeta { sha } => seq![
            "show"@,
            "-s"@,
            "--date=iso"@,
            "--format=%an%x1f%ae%x1f%ad%x1f%D%x1f%P%x1f%B"@,
            sha@,
        ],
        GitCommand::DiffCommit { sha, path, orig } => seq!["show"@, sha@, "--format="@] + diff_flags()
            + seq!["-m"@, "--first-parent"@, "--find-renames"@, "--"@, path@] + opt_arg(orig),
        GitCommand::StashList => seq!["stash"@, "list"@, "-z"@, "--format="@ + STASH_FORMAT@],
        GitCommand::StashFiles { sha } => seq![
            "diff"@,
            "--name-status"@,
            "-z"@,
            "--find-renames"@,
            sha@ + "^1"@,
            sha@,
        ],
        GitCommand::StashUntrackedPaths { parent } => seq![
            "ls-tree"@,
            "-r"@,
            "--name-only"@,
            "-z"@,
            parent@,
        ],
        GitCommand::DiffStash { sha, path, orig } => diff_args_spec(
            seq!["--find-renames"@, sha@ + "^1"@, sha@],
            seq![path@] + opt_arg(orig),
        ),
        GitCommand::StashUntrackedBlob { parent, path } => seq!["show"@, parent@ + ":"@ + path@],
        GitCommand::StashPush { message, include_untracked } => seq!["stash"@, "push"@] + flag_if(
            include_untracked,
            "--include-untracked"@,
        ) + stash_message_args(message@),
        GitCommand::StashApply { refname } => seq!["stash"@, "apply"@, refname@],
        GitCommand::StashPop { refname } => seq!["stash"@, "pop"@, refname@],
        GitCommand::StashDrop { refname } => seq!["stash"@, "drop"@, refname@],
        GitCommand::StashStore { sha, message } => seq!["stash"@, "store"@, "-m"@, message@, sha@],
        GitCommand::LastCommitMessage => seq!["log"@, "-1"@, "--pretty=%B"@],
        GitCommand::UserName => seq!["config"@, "user.name"@],
        GitCommand::UserEmail => seq!["config"@, "user.email"@],
        GitCommand::CoreEditor => seq!["config"@, "core.editor"@],
        GitCommand::Remotes => seq!["remote"@],
        GitCommand::Push { options } => seq!["push"@, "--verbose"@] + flag_if(
            options.set_upstream,
            "--set-upstream"@,
        ) + flag_if(options.force_with_lease, "--force-with-lease"@) + flag_if(
            options.tags,
            "--tags"@,
        ) + seq![options.remote@, options.branch@],
        GitCommand::MergeHeadExists => seq!["rev-parse"@, "--verify"@, "--quiet"@, "MERGE_HEAD"@],
        GitCommand::MergeHeadName => seq!["name-rev"@, "--name-only"@, "MERGE_HEAD"@],
        GitCommand::MergeHeadShort => seq!["rev-parse"@, "--short"@, "MERGE_HEAD"@],
        GitCommand::GitDir => seq!["rev-parse"@, "--absolute-git-dir"@],
        GitCommand::AbortMerge => seq!["merge"@, "--abort"@],
        GitCommand::TakeSide { path, ours } => seq![
            "checkout"@,
            if ours {
                "--ours"@
            } else {
                "--theirs"@
            },
            "--"@,
            path@,
        ],
        GitCommand::Branches => seq!["for-each-ref"@, "--format=%(refname:short)"@, "refs/heads"@],
        GitCommand::Stage { paths } => seq!["add"@, "--"@] + views(paths@),
        GitCommand::StageChanged => seq!["add"@, "--update"@],
        GitCommand::Unstage { paths, has_head } => if has_head {
            seq!["restore"@, "--staged"@, "--"@] + views(paths@)
        } else {
            seq!["rm"@, "--cached"@, "--force"@, "--quiet"@, "--"@] + views(paths@)
        },
        GitCommand::ExistsAt { base, path } => seq!["cat-file"@, "-e"@, base@ + ":"@ + path@],
        GitCommand::RestoreFrom { base, path } => seq![
            "restore"@,
            "--source"@,
            base@,
            "--staged"@,
            "--"@,
            path@,
        ],
        GitCommand::RemoveCached { path } => seq![
            "rm"@,
            "--cached"@,
            "--force"@,
            "--quiet"@,
            "--ignore-unmatch"@,
            "--"@,
            path@,
        ],
        GitCommand::Checkout { paths } => seq!["checkout"@, "--"@] + views(paths@),
        GitCommand::Apply { mode, cached } => seq!["apply"@, "--whitespace=nowarn"@, "--recount"@]
            + flag_if(cached, "--cached"@) + flag_if(mode == ApplyMode::Reverse, "--reverse"@)
            + seq!["-"@],
        GitCommand::Commit { amend } => seq!["commit"@, "--cleanup=strip"@, "-F"@, "-"@] + flag_if(
            amend,
            "--amend"@,
        ),
        GitCommand::CheckoutBranch { name } => seq!["checkout"@, name@],
        GitCommand::CreateBranch { name } => seq!["checkout"@, "-b"@, name@],
    }
}

fn lit(v: &mut Vec<String>, s: &str)
    ensures
        views(final(v)@) == views(old(v)@).push(s@),
{
    let ghost before = v@;
    v.push(s.to_owned());
    assert(views(v@) =~= views(before).push(s@));
}

fn own(v: &mut Vec<String>, s: &String)
    ensures
        views(final(v)@) == views(old(v)@).push(s@),
{
    let ghost before = v@;
    v.push(s.clone());
    assert(views(v@) =~= views(before).push(s@));
}

fn opt(v: &mut Vec<String>, o: &Option<String>)
    ensures
        views(final(v)@) == views(old(v)@) + opt_arg(*o),
{
    match o {
        Some(s) => {
            own(v, s);
        },
        None => {},
    }
    assert(views(v@) =~= views(old(v)@) + opt_arg(*o));
}

fn flag(v: &mut Vec<String>, on: bool, s: &str)
    ensures
        views(final(v)@) == views(old(v)@) + flag_if(on, s@),
{
    if on {
        lit(v, s);
    }
    assert(views(v@) =~= views(old(v)@) + flag_if(on, s@));
}

fn all(v: &mut Vec<String>, xs: &Vec<String>)
    ensures
        views(final(v)@) == views(old(v)@) + views(xs@),
{
    let mut i: usize = 0;
    while i < xs.len()
        invariant
            i <= xs@.len(),
            views(v@) == views(old(v)@) + views(xs@).subrange(0, i as int),
        decreases xs@.len() - i,
    {
        own(v, &xs[i]);
        i += 1;
        assert(views(v@) =~= views(old(v)@) + views(xs@).subrange(0, i as int));
    }
    assert(views(xs@).subrange(0, i as int) =~= views(xs@));
}

fn joined(a: &str, b: &str) -> (r: String)
    ensures
        r@ == a@ + b@,
{
    let mut s = String::new();
    append_str(&mut s, a);
    append_str(&mut s, b);
    s
}

fn diff_flags_into(v: &mut Vec<String>)
    ensures
        views(final(v)@) == views(old(v)@) + diff_flags(),
{
    lit(v, "--no-color");
    lit(v, "--no-ext-diff");
    lit(v, "--no-textconv");
    lit(v, "--src-prefix=a/");
    lit(v, "--dst-prefix=b/");
    lit(v, "-U3");
    assert(views(v@) =~= views(old(v)@) + diff_flags());
}

impl Repo {
    /// The repository's name as the title bar shows it: the last component
    /// of its root, or the whole root when it has none.
    pub fn name(&self) -> (r: String)
        ensures
            contains(self.root@, r@),
            self.root@.len() > 0 ==> r@.len() > 0,
            crate::desktop::plain_name(self.root@) ==> r@ == self.root@,
    {
        crate::desktop::folder_name(self.root.as_str())
    }

    /// `git diff` with the machine-readable flags, the extra arguments, and
    /// the paths after `--`.
    pub fn diff_args(extra: &Vec<String>, paths: &Vec<String>) -> (r: Vec<String>)
        ensures
            views(r@) == diff_args_spec(views(extra@), views(paths@)),
    {
        let mut v: Vec<String> = Vec::new();
        lit(&mut v, "diff");
        diff_flags_into(&mut v);
        all(&mut v, extra);
        lit(&mut v, "--");
        all(&mut v, paths);
        assert(views(v@) =~= diff_args_spec(views(extra@), views(paths@)));
        v
    }
}

impl GitCommand {
    /// The command line, after `git` and the options every run shares.
    pub fn args(&self) -> (r: Vec<String>)
        ensures
            views(r@) == command_args(*self),
    {
        let mut v: Vec<String> = Vec::new();
        match self {
            GitCommand::Version => {
                lit(&mut v, "--version");
            },
            GitCommand::TopLevel => {
                lit(&mut v, "rev-parse");
                lit(&mut v, "--show-toplevel");
            },
            GitCommand::Status => {
                lit(&mut v, "status");
                lit(&mut v, "--porcelain=v2");
                lit(&mut v, "--branch");
                lit(&mut v, "-z");
                lit(&mut v, "--untracked-files=all");
            },
            GitCommand::HasHead => {
                lit(&mut v, "rev-parse");
                lit(&mut v, "--verify");
                lit(&mut v, "--quiet");
                lit(&mut v, "HEAD");
            },
            GitCommand::HasParent => {
                lit(&mut v, "rev-parse");
                lit(&mut v, "--verify");
                lit(&mut v, "--quiet");
                lit(&mut v, "HEAD^");
            },
            GitCommand::DiffUnstaged { path } => {
                let extra: Vec<String> = Vec::new();
                let mut paths: Vec<String> = Vec::new();
                own(&mut paths, path);
                proof {
                    assert(views(extra@) =~= Seq::<Seq<char>>::empty());
                    assert(views(paths@) =~= seq![path@]);
                }
                v = Repo::diff_args(&extra, &paths);
            },
            GitCommand::DiffStaged { path, orig, base } => {
                let mut extra: Vec<String> = Vec::new();
                lit(&mut extra, "--cached");
                lit(&mut extra, "--find-renames");
                opt(&mut extra, base);
                let mut paths: Vec<String> = Vec::new();
                own(&mut paths, path);
                opt(&mut paths, orig);
                proof {
                    assert(views(extra@) =~= seq!["--cached"@, "--find-renames"@] + opt_arg(*base));
                    assert(views(paths@) =~= seq![path@] + opt_arg(*orig));
                }
                v = Repo::diff_args(&extra, &paths);
            },
            GitCommand::StagedFiles { base } => {
                lit(&mut v, "diff");
                lit(&mut v, "--cached");
                lit(&mut v, "--name-status");
                lit(&mut v, "-z");
                lit(&mut v, "--find-renames");
                own(&mut v, base);
            },
            GitCommand::Log { limit, all_refs } => {
                lit(&mut v, "log");
                lit(&mut v, "--no-color");
                lit(&mut v, "-z");
                lit(&mut v, "--date=short");
                lit(&mut v, "--topo-order");
                let pretty = joined("--pretty=format:", LOG_FORMAT);
                own(&mut v, &pretty);
                let mut n = String::new();
                append_str(&mut n, "-n");
                push_decimal(&mut n, *limit as u64);
                own(&mut v, &n);
                flag(&mut v, *all_refs, "--all");
            },
            GitCommand::CommitFiles { sha } => {
                lit(&mut v, "show");
                own(&mut v, sha);
                lit(&mut v, "--format=");
                lit(&mut v, "--name-status");
                lit(&mut v, "-z");
                lit(&mut v, "-m");
                lit(&mut v, "--first-parent");
                lit(&mut v, "--find-renames");
            },
            GitCommand::CommitMeta { sha } => {
                lit(&mut v, "show");
                lit(&mut v, "-s");
                lit(&mut v, "--date=iso");
                lit(&mut v, "--format=%an%x1f%ae%x1f%ad%x1f%D%x1f%P%x1f%B");
                own(&mut v, sha);
            },
            GitCommand::DiffCommit { sha, path, orig } => {
                lit(&mut v, "show");
                own(&mut v, sha);
                lit(&mut v, "--format=");
                diff_flags_into(&mut v);
                lit(&mut v, "-m");
                lit(&mut v, "--first-parent");
                lit(&mut v, "--find-renames");
                lit(&mut v, "--");
                own(&mut v, path);
                opt(&mut v, orig);
            },
            GitCommand::StashList => {
                lit(&mut v, "stash");
                lit(&mut v, "list");
                lit(&mut v, "-z");
                let f = joined("--format=", STASH_FORMAT);
                own(&mut v, &f);
            },
            GitCommand::StashFiles { sha } => {
                lit(&mut v, "diff");
                lit(&mut v, "--name-status");
                lit(&mut v, "-z");
                lit(&mut v, "--find-renames");
                let b = joined(sha.as_str(), "^1");
                own(&mut v, &b);
                own(&mut v, sha);
            },
            GitCommand::StashUntrackedPaths { parent } => {
                lit(&mut v, "ls-tree");
                lit(&mut v, "-r");
                lit(&mut v, "--name-only");
                lit(&mut v, "-z");
                own(&mut v, parent);
            },
            GitCommand::DiffStash { sha, path, orig } => {
                let mut extra: Vec<String> = Vec::new();
                lit(&mut extra, "--find-renames");
                let b = joined(sha.as_str(), "^1");
                own(&mut extra, &b);
                own(&mut extra, sha);
                let mut paths: Vec<String> = Vec::new();
                own(&mut paths, path);
                opt(&mut paths, orig);
                proof {
                    assert(views(extra@) =~= seq!["--find-renames"@, sha@ + "^1"@, sha@]);
                    assert(views(paths@) =~= seq![path@] + opt_arg(*orig));
                }
                v = Repo::diff_args(&extra, &paths);
            },
            GitCommand::StashUntrackedBlob { parent, path } => {
                lit(&mut v, "show");
                let mut spec = joined(parent.as_str(), ":");
                append_str(&mut spec, path.as_str());
                own(&mut v, &spec);
            },
            GitCommand::StashPush { message, include_untracked } => {
                lit(&mut v, "stash");
                lit(&mut v, "push");
                flag(&mut v, *include_untracked, "--include-untracked");
                let msg = trim_exec(&chars_of(message.as_str()));
                if msg.len() > 0 {
                    lit(&mut v, "-m");
                    let m = string_of(&msg);
                    own(&mut v, &m);
                }
            },
            GitCommand::StashApply { refname } => {
                lit(&mut v, "stash");
                lit(&mut v, "apply");
                own(&mut v, refname);
            },
            GitCommand::StashPop { refname } => {
                lit(&mut v, "stash");
                lit(&mut v, "pop");
                own(&mut v, refname);
            },
            GitCommand::StashDrop { refname } => {
                lit(&mut v, "stash");
                lit(&mut v, "drop");
                own(&mut v, refname);
            },
            GitCommand::StashStore { sha, message } => {
                lit(&mut v, "stash");
                lit(&mut v, "store");
                lit(&mut v, "-m");
                own(&mut v, message);
                own(&mut v, sha);
            },
            GitCommand::LastCommitMessage => {
                lit(&mut v, "log");
                lit(&mut v, "-1");
                lit(&mut v, "--pretty=%B");
            },
            GitCommand::UserName => {
                lit(&mut v, "config");
                lit(&mut v, "user.name");
            },
            GitCommand::UserEmail => {
                lit(&mut v, "config");
                lit(&mut v, "user.email");
            },
            GitCommand::CoreEditor => {
                lit(&mut v, "config");
                lit(&mut v, "core.editor");
            },
            GitCommand::Remotes => {
                lit(&mut v, "remote");
            },
            GitCommand::Push { options } => {
                lit(&mut v, "push");
                lit(&mut v, "--verbose");
                flag(&mut v, options.set_upstream, "--set-upstream");
                flag(&mut v, options.force_with_lease, "--force-with-lease");
                flag(&mut v, options.tags, "--tags");
                own(&mut v, &options.remote);
                own(&mut v, &options.branch);
            },
            GitCommand::MergeHeadExists => {
                lit(&mut v, "rev-parse");
                lit(&mut v, "--verify");
                lit(&mut v, "--quiet");
                lit(&mut v, "MERGE_HEAD");
            },
            GitCommand::MergeHeadName => {
                lit(&mut v, "name-rev");
                lit(&mut v, "--name-only");
                lit(&mut v, "MERGE_HEAD");
            },
            GitCommand::MergeHeadShort => {
                lit(&mut v, "rev-parse");
                lit(&mut v, "--short");
                lit(&mut v, "MERGE_HEAD");
            },
            GitCommand::GitDir => {
                lit(&mut v, "rev-parse");
                lit(&mut v, "--absolute-git-dir");
            },
            GitCommand::AbortMerge => {
                lit(&mut v, "merge");
                lit(&mut v, "--abort");
            },
            GitCommand::TakeSide { path, ours } => {
                lit(&mut v, "checkout");
                if *ours {
                    lit(&mut v, "--ours");
                } else {
                    lit(&mut v, "--theirs");
                }
                lit(&mut v, "--");
                own(&mut v, path);
            },
            GitCommand::Branches => {
                lit(&mut v, "for-each-ref");
                lit(&mut v, "--format=%(refname:short)");
                lit(&mut v, "refs/heads");
            },
            GitCommand::Stage { paths } => {
                lit(&mut v, "add");
                lit(&mut v, "--");
                all(&mut v, paths);
            },
            GitCommand::StageChanged => {
                lit(&mut v, "add");
                lit(&mut v, "--update");
            },
            GitCommand::Unstage { paths, has_head } => {
                if *has_head {
                    lit(&mut v, "restore");
                    lit(&mut v, "--staged");
                    lit(&mut v, "--");
                } else {
                    lit(&mut v, "rm");
                    lit(&mut v, "--cached");
                    lit(&mut v, "--force");
                    lit(&mut v, "--quiet");
                    lit(&mut v, "--");
                }
                all(&mut v, paths);
            },
            GitCommand::ExistsAt { base, path } => {
                lit(&mut v, "cat-file");
                lit(&mut v, "-e");
                let mut spec = joined(base.as_str(), ":");
                append_str(&mut spec, path.as_str());
                own(&mut v, &spec);
            },
            GitCommand::RestoreFrom { base, path } => {
                lit(&mut v, "restore");
                lit(&mut v, "--source");
                own(&mut v, base);
                lit(&mut v, "--staged");
                lit(&mut v, "--");
                own(&mut v, path);
            },
            GitCommand::RemoveCached { path } => {
                lit(&mut v, "rm");
                lit(&mut v, "--cached");
                lit(&mut v, "--force");
                lit(&mut v, "--quiet");
                lit(&mut v, "--ignore-unmatch");
                lit(&mut v, "--");
                own(&mut v, path);
            },
            GitCommand::Checkout { paths } => {
                lit(&mut v, "checkout");
                lit(&mut v, "--");
                all(&mut v, paths);
            },
            GitCommand::Apply { mode, cached } => {
                lit(&mut v, "apply");
                lit(&mut v, "--whitespace=nowarn");
                lit(&mut v, "--recount");
                flag(&mut v, *cached, "--cached");
                flag(&mut v, *mode == ApplyMode::Reverse, "--reverse");
                lit(&mut v, "-");
            },
            GitCommand::Commit { amend } => {
                lit(&mut v, "commit");
                lit(&mut v, "--cleanup=strip");
                lit(&mut v, "-F");
                lit(&mut v, "-");
                flag(&mut v, *amend, "--amend");
            },
            GitCommand::CheckoutBranch { name } => {
                lit(&mut v, "checkout");
                own(&mut v, name);
            },
            GitCommand::CreateBranch { name } => {
                lit(&mut v, "checkout");
                lit(&mut v, "-b");
                own(&mut v, name);
            },
        }
        assert(views(v@) =~= command_args(*self));
        v
    }
}

// ---------------------------------------------------------------------------
// Reading what git answered
// ---------------------------------------------------------------------------

/// `parts` joined with single spaces.
pub open spec fn spaced(parts: Seq<Seq<char>>) -> Seq<char> {
    join(parts, " "@)
}

fn join_spaced(parts: &Vec<String>) -> (r: String)
    ensures
        r@ == spaced(views(parts@)),
{
    let mut s = String::new();
    let mut i: usize = 0;
    let ghost pv = views(parts@);
    while i < parts.len()
        invariant
            i <= parts@.len(),
            pv == views(parts@),
            s@ == join(pv.subrange(0, i as int), " "@),
        decreases parts@.len() - i,
    {
        proof {
            let sub = pv.subrange(0, i + 1);
            assert(sub.drop_last() =~= pv.subrange(0, i as int));
            assert(sub.last() == parts@[i as int]@);
            if i == 0 {
                assert(sub.len() == 1);
            }
        }
        if i > 0 {
            append_str(&mut s, " ");
        }
        append_str(&mut s, parts[i].as_str());
        i += 1;
    }
    proof {
        assert(pv.subrange(0, i as int) =~= pv);
    }
    s
}

/// The message a failed run reports: git's own error output trimmed, or a
/// line naming the command when git printed nothing.
pub open spec fn failure_message(stderr: Seq<u8>, args: Seq<Seq<char>>) -> Seq<char> {
    let err = trim(utf8_lossy(stderr));
    if err.len() == 0 {
        "git "@ + spaced(args) + " failed"@
    } else {
        err
    }
}

/// What a finished run yields: its output when git succeeded, otherwise the
/// failure message.
pub fn run_result(success: bool, stdout: Vec<u8>, stderr: &[u8], args: &Vec<String>) -> (r: Result<
    Vec<u8>,
    GitError,
>)
    ensures
        match r {
            Ok(out) => success && out@ == stdout@,
            Err(e) => !success && e.0@ == failure_message(stderr@, views(args@)),
        },
{
    if success {
        return Ok(stdout);
    }
    let err = trim_exec(&chars_of(decode_lossy(stderr).as_str()));
    if err.len() == 0 {
        let mut m = String::new();
        append_str(&mut m, "git ");
        let joined = join_spaced(args);
        append_str(&mut m, joined.as_str());
        append_str(&mut m, " failed");
        Err(GitError(m))
    } else {
        Err(GitError(string_of(&err)))
    }
}

/// The `git --version` line, trimmed.
pub fn version_text(stdout: &[u8]) -> (r: String)
    ensures
        r@ == trim(utf8_lossy(stdout@)),
{
    let t = trim_exec(&chars_of(decode_lossy(stdout).as_str()));
    string_of(&t)
}

impl Repo {
    /// The repository whose top level `git rev-parse --show-toplevel` printed
    /// when run from `start`.
    pub fn discovered(success: bool, stdout: &[u8], start: &str) -> (r: Result<Repo, GitError>)
        ensures
            match r {
                Ok(repo) => success && repo.root@ == trim(utf8_lossy(stdout@)) && repo.root@.len()
                    > 0,
                Err(e) => if !success {
                    e.0@ == start@ + " is not inside a git repository"@
                } else {
                    trim(utf8_lossy(stdout@)).len() == 0 && e.0@
                        == "git returned an empty repository root"@
                },
            },
    {
        if !success {
            let mut m = String::new();
            append_str(&mut m, start);
            append_str(&mut m, " is not inside a git repository");
            return Err(GitError(m));
        }
        let root = version_text(stdout);
        if root.as_str().is_empty() {
            let m = String::from_str("git returned an empty repository root");
            return Err(GitError(m));
        }
        Ok(Repo { root })
    }
}

/// The configured remotes: one per line, trimmed, blank lines dropped.
pub open spec fn remote_names(ls: Seq<Seq<char>>) -> Seq<Seq<char>>
    decreases ls.len(),
{
    if ls.len() == 0 {
        seq![]
    } else {
        let t = trim(ls.last());
        if t.len() == 0 {
            remote_names(ls.drop_last())
        } else {
            remote_names(ls.drop_last()).push(t)
        }
    }
}

/// Parses `git remote`.
pub fn parse_remotes(out: &str) -> (r: Vec<String>)
    ensures
        views(r@) == remote_names(lines(out@)),
{
    let ls = lines_exec(&chars_of(out));
    let ghost lv = cviews(ls@);
    let mut v: Vec<String> = Vec::new();
    let mut i: usize = 0;
    while i < ls.len()
        invariant
            i <= ls@.len(),
            lv == cviews(ls@),
            views(v@) == remote_names(lv.subrange(0, i as int)),
        decreases ls@.len() - i,
    {
        proof {
            assert(lv.subrange(0, i + 1).drop_last() =~= lv.subrange(0, i as int));
            assert(lv.subrange(0, i + 1).last() == ls@[i as int]@);
        }
        let t = trim_exec(&ls[i]);
        if t.len() > 0 {
            let ghost before = v@;
            let ts = string_of(&t);
            v.push(ts);
            assert(views(v@) =~= views(before).push(ts@));
        }
        i += 1;
    }
    assert(lv.subrange(0, i as int) =~= lv);
    v
}

/// Parses `git for-each-ref --format=%(refname:short) refs/heads`: one
/// branch per line.
pub fn parse_branches(out: &str) -> (r: Vec<String>)
    ensures
        views(r@) == lines(out@),
{
    let ls = lines_exec(&chars_of(out));
    let mut v: Vec<String> = Vec::new();
    let mut i: usize = 0;
    while i < ls.len()
        invariant
            i <= ls@.len(),
            views(v@) == cviews(ls@).subrange(0, i as int),
        decreases ls@.len() - i,
    {
        let ghost before = v@;
        let b = string_of(&ls[i]);
        v.push(b);
        i += 1;
        assert(views(v@) =~= views(before).push(b@));
        assert(views(v@) =~= cviews(ls@).subrange(0, i as int));
    }
    assert(cviews(ls@).subrange(0, i as int) =~= cviews(ls@));
    v
}

/// The `Signed-off-by:` trailer for a configured name and email.
pub open spec fn signature_text(name: Seq<char>, email: Seq<char>) -> Seq<char> {
    "Signed-off-by: "@ + trim(name) + " <"@ + trim(email) + ">"@
}

/// The `Signed-off-by:` trailer built from `git config user.name` and
/// `git config user.email`, each trimmed.
pub fn signature_line(name: &str, email: &str) -> (r: String)
    ensures
        r@ == signature_text(name@, email@),
{
    let mut s = String::new();
    append_str(&mut s, "Signed-off-by: ");
    append_chars(&mut s, &trim_exec(&chars_of(name)));
    append_str(&mut s, " <");
    append_chars(&mut s, &trim_exec(&chars_of(email)));
    append_str(&mut s, ">");
    s
}

impl Repo {
    /// What an amend diffs the index against: the parent of HEAD, or the
    /// empty tree when HEAD has none.
    pub fn amend_base_for(has_parent: bool) -> (r: &'static str)
        ensures
            r@ == (if has_parent {
                "HEAD^"@
            } else {
                EMPTY_TREE@
            }),
    {
        if has_parent {
            "HEAD^"
        } else {
            EMPTY_TREE
        }
    }

    /// The log to read: none on a branch with no commits yet, where `git log`
    /// would fail rather than list nothing, so the history is empty.
    pub fn log_command(has_head: bool, limit: usize, all_refs: bool) -> (r: Option<GitCommand>)
        ensures
            r == (if has_head {
                Some(GitCommand::Log { limit, all_refs })
            } else {
                None
            }),
    {
        if has_head {
            Some(GitCommand::Log { limit, all_refs })
        } else {
            None
        }
    }

    /// The stash listing to read: none on a branch with no commits yet,
    /// which can hold no stash, so the list is empty.
    pub fn stash_list_command(has_head: bool) -> (r: Option<GitCommand>)
        ensures
            r == (if has_head {
                Some(GitCommand::StashList)
            } else {
                None
            }),
    {
        if has_head {
            Some(GitCommand::StashList)
        } else {
            None
        }
    }

    /// How one path leaves the staged pane while amending: a path the base
    /// holds gets the base's version back in the index; one it does not
    /// hold (added by the amended commit) is removed from the index. The
    /// working tree is never touched.
    pub fn unstage_from_step(base: &str, path: &str, in_base: bool) -> (r: GitCommand)
        ensures
            in_base ==> (r matches GitCommand::RestoreFrom { base: b, path: p } && b@ == base@ && p@
                == path@),
            !in_base ==> (r matches GitCommand::RemoveCached { path: p } && p@ == path@),
    {
        if in_base {
            GitCommand::RestoreFrom { base: string_of(&chars_of(base)), path: string_of(&chars_of(path)) }
        } else {
            GitCommand::RemoveCached { path: string_of(&chars_of(path)) }
        }
    }
}

/// Where a merge's other side is named: `name-rev`'s answer when it found a
/// name, else the short id, else nothing; and nothing at all when no merge
/// is underway.
pub open spec fn merge_head_spec(
    underway: bool,
    name_rev: Option<Seq<char>>,
    short: Option<Seq<char>>,
) -> Option<Seq<char>> {
    if !underway {
        None
    } else {
        let named = match name_rev {
            Some(n) => {
                let t = trim(n);
                if t.len() > 0 && t != "undefined"@ {
                    Some(t)
                } else {
                    None
                }
            },
            None => None,
        };
        match named {
            Some(t) => Some(t),
            None => match short {
                Some(s) => if trim(s).len() > 0 {
                    Some(trim(s))
                } else {
                    None
                },
                None => None,
            },
        }
    }
}

/// Names the branch being merged in from the answers of the three queries
/// `merge_head` runs: whether `MERGE_HEAD` exists, what `name-rev` printed
/// and what `rev-parse --short` printed (each `None` when that run failed).
pub fn merge_head_from(underway: bool, name_rev: &Option<String>, short: &Option<String>) -> (r:
    Option<String>)
    ensures
        match (r, merge_head_spec(underway, opt_arg_view(*name_rev), opt_arg_view(*short))) {
            (Some(a), Some(b)) => a@ == b,
            (None, None) => true,
            _ => false,
        },
{
    if !underway {
        return None;
    }
    match name_rev {
        Some(n) => {
            let t = trim_exec(&chars_of(n.as_str()));
            let undefined = chars_of("undefined");
            proof {
                reveal_strlit("undefined");
            }
            if t.len() > 0 && !crate::text::chars_eq(&t, &undefined) {
                return Some(string_of(&t));
            }
        },
        None => {},
    }
    match short {
        Some(sh) => {
            let t = trim_exec(&chars_of(sh.as_str()));
            if t.len() > 0 {
                Some(string_of(&t))
            } else {
                None
            }
        },
        None => None,
    }
}

/// The view of an optional string.
pub open spec fn opt_arg_view(o: Option<String>) -> Option<Seq<char>> {
    match o {
        Some(s) => Some(s@),
        None => None,
    }
}

/// The lines of a prepared merge message that are not comments: those whose
/// first non-blank character is not `#`.
pub open spec fn uncommented(ls: Seq<Seq<char>>) -> Seq<Seq<char>>
    decreases ls.len(),
{
    if ls.len() == 0 {
        seq![]
    } else if starts_with(trim_start_by(ls.last(), |c: char| is_ws(c)), "#"@) {
        uncommented(ls.drop_last())
    } else {
        uncommented(ls.drop_last()).push(ls.last())
    }
}

/// The message git prepared for the merge commit, comments stripped and the
/// rest trimmed; nothing when that leaves nothing.
pub open spec fn merge_body_spec(text: Seq<char>) -> Option<Seq<char>> {
    let body = trim(join(uncommented(lines(text)), "\n"@));
    if body.len() == 0 {
        None
    } else {
        Some(body)
    }
}

/// The body of `MERGE_MSG` without its comment lines.
pub fn merge_message_body(text: &str) -> (r: Option<String>)
    ensures
        match (r, merge_body_spec(text@)) {
            (Some(a), Some(b)) => a@ == b,
            (None, None) => true,
            _ => false,
        },
{
    let ls = lines_exec(&chars_of(text));
    let ghost lv = cviews(ls@);
    let mut kept: Vec<Vec<char>> = Vec::new();
    let mut i: usize = 0;
    while i < ls.len()
        invariant
            i <= ls@.len(),
            lv == cviews(ls@),
            cviews(kept@) == uncommented(lv.subrange(0, i as int)),
        decreases ls@.len() - i,
    {
        proof {
            assert(lv.subrange(0, i + 1).drop_last() =~= lv.subrange(0, i as int));
            assert(lv.subrange(0, i + 1).last() == ls@[i as int]@);
        }
        let l = &ls[i];
        let k = skip_ws(l, 0, l.len());
        let rest = slice_of(l, k, l.len());
        proof {
            assert(l@.subrange(0, l@.len() as int) =~= l@);
            assert(rest@ =~= trim_start_by(l@, |c: char| is_ws(c)));
            reveal_strlit("#");
        }
        if !starts_with_str(&rest, "#") {
            let ghost before = kept@;
            kept.push(slice_of(l, 0, l.len()));
            assert(cviews(kept@) =~= cviews(before).push(l@));
        }
        i += 1;
    }
    assert(lv.subrange(0, i as int) =~= lv);
    let mut joined: Vec<char> = Vec::new();
    let mut j: usize = 0;
    let ghost kv = cviews(kept@);
    while j < kept.len()
        invariant
            j <= kept@.len(),
            kv == cviews(kept@),
            joined@ == join(kv.subrange(0, j as int), "\n"@),
        decreases kept@.len() - j,
    {
        proof {
            let sub = kv.subrange(0, j + 1);
            assert(sub.drop_last() =~= kv.subrange(0, j as int));
            assert(sub.last() == kept@[j as int]@);
            reveal_strlit("\n");
        }
        if j > 0 {
            joined.push('\n');
        }
        crate::text::extend_chars(&mut joined, &kept[j]);
        proof {
            let sub = kv.subrange(0, j + 1);
            if j > 0 {
                assert(joined@ =~= join(sub.drop_last(), "\n"@) + "\n"@ + sub.last());
            } else {
                assert(joined@ =~= sub[0]);
            }
        }
        j += 1;
    }
    assert(kv.subrange(0, j as int) =~= kv);
    let body = trim_exec(&joined);
    if body.len() == 0 {
        None
    } else {
        Some(string_of(&body))
    }
}

/// git's standard output followed by its error output, with a line break
/// between them when needed; error output that is only white space is left
/// out.
pub open spec fn combined_output(stdout: Seq<char>, stderr: Seq<char>) -> Seq<char> {
    if trim(stderr).len() == 0 {
        stdout
    } else if stdout.len() > 0 && stdout.last() != '\n' {
        stdout + "\n"@ + stderr
    } else {
        stdout + stderr
    }
}

/// Joins what `git push` printed on its two streams, since git reports
/// useful detail on stderr even when it succeeds.
pub fn combine_output(stdout: &str, stderr: &str) -> (r: String)
    ensures
        r@ == combined_output(stdout@, stderr@),
{
    let out = chars_of(stdout);
    let mut combined = string_of(&out);
    let err = chars_of(stderr);
    if trim_exec(&err).len() > 0 {
        if out.len() > 0 && out[out.len() - 1] != '\n' {
            crate::text::push_char(&mut combined, '\n');
            proof {
                reveal_strlit("\n");
            }
        }
        append_chars(&mut combined, &err);
    }
    combined
}

/// The advice for a credentials prompt this app cannot answer.
pub open spec fn credentials_hint() -> Seq<char> {
    "git needed credentials but this app cannot prompt for them. Configure a credential helper (`git config --global credential.helper osxkeychain` on macOS, `manager` on Windows) or use an SSH remote with your key in ssh-agent."@
}

/// The advice for SSH that wanted to ask something.
pub open spec fn ssh_hint() -> Seq<char> {
    "SSH could not authenticate without prompting. Add your key to ssh-agent (`ssh-add`), and make sure the host is already in known_hosts."@
}

/// The advice for a rejected, out-of-date push.
pub open spec fn fetch_hint() -> Seq<char> {
    "The remote has commits you do not have. Fetch and merge or rebase first."@
}

/// Which advice fits a push failure, judged on its lowercased output.
pub open spec fn push_hint(lower: Seq<char>) -> Option<Seq<char>> {
    if contains(lower, "could not read username"@) || contains(lower, "could not read password"@)
        || contains(lower, "terminal prompts disabled"@) {
        Some(credentials_hint())
    } else if contains(lower, "permission denied (publickey"@) || contains(
        lower,
        "host key verification failed"@,
    ) {
        Some(ssh_hint())
    } else if contains(lower, "stale info"@) || contains(lower, "fetch first"@) || contains(
        lower,
        "non-fast-forward"@,
    ) {
        Some(fetch_hint())
    } else {
        None
    }
}

/// A push failure's output, trimmed at the end, with advice appended after a
/// blank line when the failure is one this app's environment causes.
pub open spec fn explained(output: Seq<char>) -> Seq<char> {
    match push_hint(lowercase(output)) {
        Some(h) => trim_end(output) + "\n\n"@ + h,
        None => trim_end(output),
    }
}

/// Turns the failures that are about this app's environment into advice,
/// and passes everything else through untouched.
pub fn explain_push_failure(output: &str) -> (r: String)
    ensures
        r@ == explained(output@),
{
    let lower = chars_of(to_lowercase(output).as_str());
    let hint: Option<&str> = if crate::text::contains_str(&lower, "could not read username")
        || crate::text::contains_str(&lower, "could not read password")
        || crate::text::contains_str(&lower, "terminal prompts disabled") {
        Some(
            "git needed credentials but this app cannot prompt for them. Configure a credential helper (`git config --global credential.helper osxkeychain` on macOS, `manager` on Windows) or use an SSH remote with your key in ssh-agent.",
        )
    } else if crate::text::contains_str(&lower, "permission denied (publickey")
        || crate::text::contains_str(&lower, "host key verification failed") {
        Some(
            "SSH could not authenticate without prompting. Add your key to ssh-agent (`ssh-add`), and make sure the host is already in known_hosts.",
        )
    } else if crate::text::contains_str(&lower, "stale info") || crate::text::contains_str(
        &lower,
        "fetch first",
    ) || crate::text::contains_str(&lower, "non-fast-forward") {
        Some("The remote has commits you do not have. Fetch and merge or rebase first.")
    } else {
        None
    };
    let mut s = string_of(&trim_end_exec(&chars_of(output)));
    match hint {
        Some(h) => {
            append_str(&mut s, "\n\n");
            append_str(&mut s, h);
        },
        None => {},
    }
    s
}

/// What a finished push reports: the combined output on success, the
/// explained output on failure.
pub fn push_result(success: bool, combined: &str) -> (r: Result<String, String>)
    ensures
        match r {
            Ok(out) => success && out@ == combined@,
            Err(out) => !success && out@ == explained(combined@),
        },
{
    if success {
        Ok(string_of(&chars_of(combined)))
    } else {
        Err(explain_push_failure(combined))
    }
}

/// The paths of a list of stash files.
pub open spec fn stash_paths(s: Seq<StashFileV>) -> Seq<Seq<char>> {
    s.map_values(|f: StashFileV| f.path)
}

/// A stable insertion sort of stash files by path.
pub open spec fn sort_stash_files(s: Seq<StashFileV>) -> Seq<StashFileV>
    decreases s.len(),
{
    if s.len() == 0 {
        seq![]
    } else {
        let t = sort_stash_files(s.drop_last());
        t.insert(key_insert_pos(stash_paths(t), s.last().path) as int, s.last())
    }
}

/// A file of the stash's own tree, as the name-status diff listed it.
pub open spec fn diffed_file(f: CommitFileV) -> StashFileV {
    StashFileV { status: f.status, path: f.path, orig_path: f.orig_path, untracked: false }
}

/// A file of the stash's third parent, which holds only untracked files.
pub open spec fn untracked_file(p: Seq<char>) -> StashFileV {
    StashFileV { status: Change::Untracked, path: p, orig_path: None, untracked: true }
}

/// The files a stash would restore: the changed ones, then the untracked
/// ones flagged as such, all sorted by path.
pub open spec fn stash_files_spec(changed: Seq<CommitFileV>, untracked: Seq<Seq<char>>) -> Seq<
    StashFileV,
> {
    sort_stash_files(
        changed.map_values(|f: CommitFileV| diffed_file(f)) + untracked.map_values(
            |p: Seq<char>| untracked_file(p),
        ),
    )
}

/// The models of a list of stash files.
pub open spec fn stash_file_views(v: Seq<StashFile>) -> Seq<StashFileV> {
    v.map_values(|f: StashFile| f@)
}

fn insert_by_path(v: &mut Vec<StashFile>, f: StashFile)
    ensures
        stash_file_views(final(v)@) == stash_file_views(old(v)@).insert(
            key_insert_pos(stash_paths(stash_file_views(old(v)@)), f@.path) as int,
            f@,
        ),
{
    let ghost t = stash_file_views(v@);
    let ghost keys = stash_paths(t);
    let key = chars_of(f.path.as_str());
    let mut k = v.len();
    assert(keys.subrange(0, keys.len() as int) =~= keys);
    while k > 0 && text_lt_exec(&key, &chars_of(v[k - 1].path.as_str()))
        invariant
            k <= v@.len(),
            t == stash_file_views(v@),
            keys == stash_paths(t),
            key@ == f@.path,
            key_insert_pos(keys, f@.path) == key_insert_pos(keys.subrange(0, k as int), f@.path),
        decreases k,
    {
        proof {
            let u = keys.subrange(0, k as int);
            assert(u.drop_last() =~= keys.subrange(0, k - 1));
            assert(u.last() == v@[k - 1]@.path);
        }
        k -= 1;
    }
    proof {
        let u = keys.subrange(0, k as int);
        if k > 0 {
            assert(u.last() == v@[k - 1]@.path);
        }
    }
    v.insert(k, f);
    proof {
        assert(stash_file_views(v@) =~= t.insert(k as int, f@));
    }
}

/// Builds the list of files a stash would restore from the name-status diff
/// of its changed changes and the paths of its untracked parent.
pub fn stash_file_list(changed: Vec<CommitFile>, untracked: Vec<String>) -> (r: Vec<StashFile>)
    ensures
        stash_file_views(r@) == stash_files_spec(
            changed@.map_values(|f: CommitFile| f@),
            views(untracked@),
        ),
{
    let ghost all = changed@.map_values(|f: CommitFile| f@).map_values(
        |f: CommitFileV| diffed_file(f),
    ) + views(untracked@).map_values(|p: Seq<char>| untracked_file(p));
    let mut out: Vec<StashFile> = Vec::new();
    let mut i: usize = 0;
    while i < changed.len()
        invariant
            i <= changed@.len(),
            stash_file_views(out@) == sort_stash_files(all.subrange(0, i as int)),
            all == changed@.map_values(|f: CommitFile| f@).map_values(
                |f: CommitFileV| diffed_file(f),
            ) + views(untracked@).map_values(|p: Seq<char>| untracked_file(p)),
        decreases changed@.len() - i,
    {
        let c = &changed[i];
        let f = StashFile {
            status: c.status,
            path: c.path.clone(),
            orig_path: c.orig_path.clone(),
            untracked: false,
        };
        proof {
            assert(all.subrange(0, i + 1).drop_last() =~= all.subrange(0, i as int));
            assert(all[i as int] == diffed_file(c@));
            assert(f@ == diffed_file(c@));
        }
        insert_by_path(&mut out, f);
        i += 1;
    }
    let n = changed.len();
    let mut j: usize = 0;
    while j < untracked.len()
        invariant
            j <= untracked@.len(),
            n == changed@.len(),
            stash_file_views(out@) == sort_stash_files(all.subrange(0, n + j)),
            all == changed@.map_values(|f: CommitFile| f@).map_values(
                |f: CommitFileV| diffed_file(f),
            ) + views(untracked@).map_values(|p: Seq<char>| untracked_file(p)),
        decreases untracked@.len() - j,
    {
        let f = StashFile {
            status: Change::Untracked,
            path: untracked[j].clone(),
            orig_path: None,
            untracked: true,
        };
        proof {
            assert(all.subrange(0, n + j + 1).drop_last() =~= all.subrange(0, n + j));
            assert(all[n + j] == untracked_file(untracked@[j as int]@));
        }
        insert_by_path(&mut out, f);
        j += 1;
    }
    proof {
        assert(all.subrange(0, n + j) =~= all);
        assert(changed@.map_values(|f: CommitFile| f@).map_values(|f: CommitFileV| diffed_file(f))
            =~= changed@.map_values(|f: CommitFile| f@).map_values(|f: CommitFileV| diffed_file(f)));
    }
    out
}

proof fn lemma_sort_stash_files(s: Seq<StashFileV>)
    ensures
        keys_sorted(stash_paths(sort_stash_files(s))),
        sort_stash_files(s).len() == s.len(),
    decreases s.len(),
{
    if s.len() > 0 {
        lemma_sort_stash_files(s.drop_last());
        let t = sort_stash_files(s.drop_last());
        let k = key_insert_pos(stash_paths(t), s.last().path);
        lemma_key_insert_sorted(stash_paths(t), s.last().path);
        crate::text::lemma_key_insert_pos_bound(stash_paths(t), s.last().path);
        assert(stash_paths(t.insert(k as int, s.last())) =~= stash_paths(t).insert(
            k as int,
            s.last().path,
        ));
    }
}

/// The files a stash would restore are listed in path order, one for each
/// changed file and each untracked one.
pub proof fn law_stash_files_sorted(changed: Seq<CommitFileV>, untracked: Seq<Seq<char>>)
    ensures
        keys_sorted(stash_paths(stash_files_spec(changed, untracked))),
        stash_files_spec(changed, untracked).len() == changed.len() + untracked.len(),
{
    lemma_sort_stash_files(
        changed.map_values(|f: CommitFileV| diffed_file(f)) + untracked.map_values(
            |p: Seq<char>| untracked_file(p),
        ),
    );
}

// ---------------------------------------------------------------------------
// Laws of the command lines
// ---------------------------------------------------------------------------

/// The paths a command names, for commands that take paths.
pub open spec fn command_paths(c: GitCommand) -> Option<Seq<Seq<char>>> {
    match c {
        GitCommand::DiffUnstaged { path } => Some(seq![path@]),
        GitCommand::DiffStaged { path, orig, .. } => Some(seq![path@] + opt_arg(orig)),
        GitCommand::DiffCommit { path, orig, .. } => Some(seq![path@] + opt_arg(orig)),
        GitCommand::DiffStash { path, orig, .. } => Some(seq![path@] + opt_arg(orig)),
        GitCommand::TakeSide { path, .. } => Some(seq![path@]),
        GitCommand::Stage { paths } => Some(views(paths@)),
        GitCommand::Unstage { paths, .. } => Some(views(paths@)),
        GitCommand::Checkout { paths } => Some(views(paths@)),
        GitCommand::RestoreFrom { path, .. } => Some(seq![path@]),
        GitCommand::RemoveCached { path } => Some(seq![path@]),
        _ => None,
    }
}

/// Every path a command names comes last, after a `--`, so git never reads a
/// path that starts with a dash as an option.
pub proof fn law_paths_follow_separator(c: GitCommand)
    ensures
        match command_paths(c) {
            Some(ps) => {
                let a = command_args(c);
                &&& a.len() >= ps.len() + 1
                &&& a.subrange(a.len() - ps.len() - 1, a.len() as int) == seq!["--"@] + ps
            },
            None => true,
        },
{
    match command_paths(c) {
        Some(ps) => {
            let a = command_args(c);
            let pre = a.subrange(0, a.len() - ps.len() - 1);
            match c {
                GitCommand::DiffUnstaged { .. } | GitCommand::DiffStaged { .. }
                | GitCommand::DiffStash { .. } => {
                    assert(a.subrange(a.len() - ps.len() - 1, a.len() as int) =~= seq!["--"@] + ps);
                },
                GitCommand::DiffCommit { .. } => {
                    assert(a.subrange(a.len() - ps.len() - 1, a.len() as int) =~= seq!["--"@] + ps);
                },
                _ => {
                    assert(a.subrange(a.len() - ps.len() - 1, a.len() as int) =~= seq!["--"@] + ps);
                },
            }
        },
        None => {},
    }
}

/// Whether a command prints a diff this application parses.
pub open spec fn is_diff_command(c: GitCommand) -> bool {
    ||| c is DiffUnstaged
    ||| c is DiffStaged
    ||| c is DiffCommit
    ||| c is DiffStash
}

/// Every diff the application reads is asked for with the flags that keep it
/// machine-readable whatever the user's configuration says: no colour, no
/// external diff tool, no text conversion, standard prefixes and three
/// lines of context.
pub proof fn law_diffs_are_machine_readable(c: GitCommand)
    requires
        is_diff_command(c),
    ensures
        forall|i: int| 0 <= i < diff_flags().len() ==> command_args(c).contains(#[trigger] diff_flags()[i]),
{
    let a = command_args(c);
    let k: int = if c is DiffCommit {
        3
    } else {
        1
    };
    assert(a.subrange(k, k + 6) =~= diff_flags());
    assert forall|i: int| 0 <= i < diff_flags().len() implies a.contains(#[trigger] diff_flags()[i]) by {
        assert(a[k + i] == diff_flags()[i]);
    }
}

/// `git apply` runs the patch backwards exactly when the mode is Reverse.
pub proof fn law_apply_reverses_only_in_reverse(mode: ApplyMode, cached: bool)
    ensures
        command_args(GitCommand::Apply { mode, cached }).contains("--reverse"@) <==> mode
            == ApplyMode::Reverse,
{
    reveal_strlit("--reverse");
    reveal_strlit("apply");
    reveal_strlit("--whitespace=nowarn");
    reveal_strlit("--recount");
    reveal_strlit("--cached");
    reveal_strlit("-");
    let a = command_args(GitCommand::Apply { mode, cached });
    assert("--reverse"@[4] != "--recount"@[4]);
    if mode == ApplyMode::Reverse {
        assert(a[a.len() - 2] == "--reverse"@);
    } else {
        assert forall|i: int| 0 <= i < a.len() implies a[i] != "--reverse"@ by {
            assert(a[i] == "apply"@ || a[i] == "--whitespace=nowarn"@ || a[i] == "--recount"@ || a[i]
                == "--cached"@ || a[i] == "-"@);
            if a[i] == "--recount"@ {
                assert(a[i][4] != "--reverse"@[4]);
            }
        }
    }
}

/// A push never adds plain `--force`: the only forcing flag the application
/// passes is `--force-with-lease`, which refuses when the remote moved.
pub proof fn law_push_never_plain_force(options: PushOptions)
    ensures
        ({
            let a = command_args(GitCommand::Push { options });
            forall|i: int| 0 <= i < a.len() - 2 ==> a[i] != "--force"@
        }),
{
    reveal_strlit("--force");
    reveal_strlit("push");
    reveal_strlit("--verbose");
    reveal_strlit("--set-upstream");
    reveal_strlit("--force-with-lease");
    reveal_strlit("--tags");
    let a = command_args(GitCommand::Push { options });
    assert forall|i: int| 0 <= i < a.len() - 2 implies a[i] != "--force"@ by {
        assert(a[i] == "push"@ || a[i] == "--verbose"@ || a[i] == "--set-upstream"@ || a[i]
            == "--force-with-lease"@ || a[i] == "--tags"@);
    }
}

/// A commit rewrites the previous one exactly when asked to: `--amend` is on
/// its command line if and only if `amend` is set, and a new commit is just
/// `commit --cleanup=strip -F -`, the message read from standard input.
pub proof fn law_commit_amends_only_when_asked(amend: bool)
    ensures
        command_args(GitCommand::Commit { amend }).contains("--amend"@) <==> amend,
        !amend ==> command_args(GitCommand::Commit { amend }) == seq![
            "commit"@,
            "--cleanup=strip"@,
            "-F"@,
            "-"@,
        ],
        amend ==> command_args(GitCommand::Commit { amend }) == seq![
            "commit"@,
            "--cleanup=strip"@,
            "-F"@,
            "-"@,
            "--amend"@,
        ],
{
    reveal_strlit("--amend");
    reveal_strlit("commit");
    reveal_strlit("--cleanup=strip");
    reveal_strlit("-F");
    reveal_strlit("-");
    let args = command_args(GitCommand::Commit { amend });
    if amend {
        assert(args =~= seq!["commit"@, "--cleanup=strip"@, "-F"@, "-"@, "--amend"@]);
        assert(args[4] == "--amend"@);
    } else {
        assert(args =~= seq!["commit"@, "--cleanup=strip"@, "-F"@, "-"@]);
        assert forall|i: int| 0 <= i < args.len() implies args[i] != "--amend"@ by {
            assert(args[i].len() != "--amend"@.len() || args[i][2] != "--amend"@[2]);
        }
    }
}

} // verus!
