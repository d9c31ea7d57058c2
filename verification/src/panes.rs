//! What the two working-tree panes list, and the states that change it: new
//! files can be hidden, amending measures the staged pane against the
//! amended commit's parent, and a merge stopped on conflicts has files that
//! must be resolved before it can be committed.

use vstd::prelude::*;
use crate::app::{clone_opt, copy_entry, opt_text, App, Confirm, Pane};
use crate::git::log::{CommitFile, CommitFileV};
use crate::git::status::{
    entry_views, filter_entries, is_staged, is_unstaged, Change, Entry, EntryV,
};
use crate::text::{append_str, chars_of, string_of, views};

verus! {

/// Shown in the unstaged pane: something to stage, and not a new file while
/// new files are hidden.
pub open spec fn shown_unstaged(e: EntryV, hide: bool) -> bool {
    is_unstaged(e) && !(hide && e.untracked)
}

/// A file of the commit being amended, as a staged entry.
pub open spec fn file_entry(f: CommitFileV) -> EntryV {
    EntryV {
        path: f.path,
        orig_path: f.orig_path,
        index: f.status,
        worktree: Change::Unchanged,
        unmerged: false,
        untracked: false,
    }
}

/// The unstaged pane.
pub open spec fn unstaged_view(a: App) -> Seq<EntryV> {
    filter_entries(a.status@.entries, |e: EntryV| shown_unstaged(e, a.hide_untracked))
}

/// The staged pane: while amending, everything the rewritten commit will
/// change; otherwise what the index holds beyond `HEAD`.
pub open spec fn staged_view(a: App) -> Seq<EntryV> {
    if a.amend {
        a.amend_files@.map_values(|f: CommitFile| file_entry(f@))
    } else {
        filter_entries(a.status@.entries, |e: EntryV| is_staged(e))
    }
}

/// The conflicted files, in status order.
pub open spec fn unresolved_view(a: App) -> Seq<Seq<char>> {
    filter_entries(a.status@.entries, |e: EntryV| e.unmerged).map_values(|e: EntryV| e.path)
}

/// Why a commit is refused while `path` is conflicted.
pub open spec fn unresolved_message(path: Seq<char>) -> Seq<char> {
    path + " is still unresolved: fix the conflict and stage it before committing."@
}

/// Why a commit cannot be made now, if it cannot: no message; a conflict
/// left, naming the first; or nothing staged, a guard that amending and
/// finishing a merge lift (a merge resolved wholly to our side stages
/// nothing, yet its commit is what records the second parent).
pub open spec fn commit_problem_spec(a: App) -> Option<Seq<char>> {
    if trim_len(a.commit_msg@) == 0 {
        Some("Enter a commit message first."@)
    } else if unresolved_view(a).len() > 0 {
        Some(unresolved_message(unresolved_view(a)[0]))
    } else if !a.amend && a.merging is None && filter_entries(
        a.status@.entries,
        |e: EntryV| is_staged(e),
    ).len() == 0 {
        Some("Nothing staged to commit."@)
    } else {
        None
    }
}

/// The length of `s` with surrounding white space removed.
pub open spec fn trim_len(s: Seq<char>) -> nat {
    crate::text::trim(s).len()
}

/// What taking a side of a conflict reports.
pub open spec fn side_name(ours: bool) -> Seq<char> {
    if ours {
        "ours"@
    } else {
        "theirs"@
    }
}

/// The message when taking a side failed with `err`; a file added on one
/// side only has no version on the other.
pub open spec fn side_failed_message(path: Seq<char>, ours: bool, err: Seq<char>) -> Seq<char> {
    "Could not take "@ + side_name(ours) + " for "@ + path + ": "@ + err
        + ". A file added on only one side has no such version; stage or remove it instead."@
}

/// The message when a selected file cannot be handed out because it is not
/// on disk.
pub open spec fn not_on_disk_message(path: Seq<char>, editing: bool) -> Seq<char> {
    path + " is not in the working tree, so there is "@ + (if editing {
        "nothing to edit."@
    } else {
        "nothing to open."@
    })
}

/// `a` and `b` name the same folder once back-slashes are read as slashes.
pub open spec fn same_folder(a: Seq<char>, b: Seq<char>) -> bool {
    a.len() == b.len() && forall|i: int|
        0 <= i < a.len() ==> #[trigger] slash_form(a[i]) == slash_form(b[i])
}

/// A back-slash read as a slash.
pub open spec fn slash_form(c: char) -> char {
    if c == '\\' {
        '/'
    } else {
        c
    }
}

/// The folders to look for a repository in at start-up, in order: the one
/// named on the command line, then the working directory unless it is the
/// program's own folder (which is what launchers hand over, and means no
/// choice was made).
pub open spec fn startup_spec(
    arg: Option<Seq<char>>,
    cwd: Option<Seq<char>>,
    exe_dir: Option<Seq<char>>,
) -> Seq<Seq<char>> {
    let first = match arg {
        Some(a) => seq![a],
        None => seq![],
    };
    let second = match cwd {
        Some(c) => match exe_dir {
            Some(x) => if same_folder(c, x) {
                seq![]
            } else {
                seq![c]
            },
            None => seq![c],
        },
        None => seq![],
    };
    first + second
}

fn slash_form_exec(c: char) -> (r: char)
    ensures
        r == slash_form(c),
{
    if c == '\\' {
        '/'
    } else {
        c
    }
}

fn same_folder_exec(a: &str, b: &str) -> (r: bool)
    ensures
        r == same_folder(a@, b@),
{
    let x = chars_of(a);
    let y = chars_of(b);
    if x.len() != y.len() {
        return false;
    }
    let mut i: usize = 0;
    while i < x.len()
        invariant
            x@ == a@,
            y@ == b@,
            x@.len() == y@.len(),
            i <= x@.len(),
            forall|k: int| 0 <= k < i ==> #[trigger] slash_form(x@[k]) == slash_form(y@[k]),
        decreases x@.len() - i,
    {
        if slash_form_exec(x[i]) != slash_form_exec(y[i]) {
            return false;
        }
        i += 1;
    }
    true
}

/// The folders to look for a repository in at start-up: the command-line
/// argument first, then the working directory unless it is the program's
/// own folder, written with either kind of slash.
pub fn startup_candidates(
    arg: Option<String>,
    cwd: Option<String>,
    exe_dir: Option<String>,
) -> (r: Vec<String>)
    ensures
        views(r@) == startup_spec(opt_text(arg), opt_text(cwd), opt_text(exe_dir)),
{
    let mut out: Vec<String> = Vec::new();
    let ghost first = match opt_text(arg) {
        Some(a) => seq![a],
        None => Seq::<Seq<char>>::empty(),
    };
    match arg {
        Some(a) => {
            out.push(a);
        },
        None => {},
    }
    assert(views(out@) =~= first);
    match cwd {
        Some(c) => {
            let keep = match &exe_dir {
                Some(x) => !same_folder_exec(c.as_str(), x.as_str()),
                None => true,
            };
            if keep {
                let ghost before = out@;
                out.push(c);
                assert(views(out@) =~= views(before).push(c@));
            }
        },
        None => {},
    }
    assert(views(out@) =~= startup_spec(opt_text(arg), opt_text(cwd), opt_text(exe_dir)));
    out
}

impl App {
    /// The unstaged pane: files with something to stage, new files left out
    /// while they are hidden.
    pub fn unstaged(&self) -> (r: Vec<&Entry>)
        ensures
            r@.map_values(|e: &Entry| e@) == unstaged_view(*self),
    {
        let mut out: Vec<&Entry> = Vec::new();
        let mut i: usize = 0;
        let ghost ev = self.status@.entries;
        let hide = self.hide_untracked;
        while i < self.status.entries.len()
            invariant
                i <= self.status.entries@.len(),
                hide == self.hide_untracked,
                ev == entry_views(self.status.entries@),
                ev == self.status@.entries,
                out@.map_values(|e: &Entry| e@) == filter_entries(
                    ev.subrange(0, i as int),
                    |e: EntryV| shown_unstaged(e, hide),
                ),
            decreases self.status.entries@.len() - i,
        {
            let e = &self.status.entries[i];
            let ghost before = out@;
            proof {
                assert(ev.subrange(0, i + 1).drop_last() =~= ev.subrange(0, i as int));
                assert(ev.subrange(0, i + 1).last() == e@);
            }
            if (e.unmerged || e.untracked || e.worktree.is_some()) && !(hide && e.untracked) {
                out.push(e);
                proof {
                    assert(out@.map_values(|e: &Entry| e@) =~= before.map_values(|e: &Entry| e@).push(
                        e@,
                    ));
                }
            }
            i += 1;
        }
        proof {
            assert(ev.subrange(0, i as int) =~= ev);
        }
        out
    }

    /// The staged pane: while amending, every file the rewritten commit
    /// will change; otherwise the files staged beyond `HEAD`.
    pub fn staged(&self) -> (r: Vec<Entry>)
        ensures
            entry_views(r@) == staged_view(*self),
    {
        let mut out: Vec<Entry> = Vec::new();
        if self.amend {
            let mut i: usize = 0;
            while i < self.amend_files.len()
                invariant
                    self.amend,
                    i <= self.amend_files@.len(),
                    entry_views(out@) == self.amend_files@.subrange(0, i as int).map_values(
                        |f: CommitFile| file_entry(f@),
                    ),
                decreases self.amend_files@.len() - i,
            {
                let f = &self.amend_files[i];
                let e = Entry {
                    path: f.path.clone(),
                    orig_path: clone_opt(&f.orig_path),
                    index: f.status,
                    worktree: Change::Unchanged,
                    unmerged: false,
                    untracked: false,
                };
                let ghost before = out@;
                out.push(e);
                i += 1;
                proof {
                    assert(e@ == file_entry(f@));
                    assert(entry_views(out@) =~= entry_views(before).push(e@));
                    assert(self.amend_files@.subrange(0, i as int).map_values(
                        |f: CommitFile| file_entry(f@),
                    ) =~= self.amend_files@.subrange(0, i - 1).map_values(
                        |f: CommitFile| file_entry(f@),
                    ).push(file_entry(f@)));
                }
            }
            assert(self.amend_files@.subrange(0, i as int) =~= self.amend_files@);
        } else {
            let staged = self.status.staged();
            let ghost sv = staged@.map_values(|e: &Entry| e@);
            let mut i: usize = 0;
            while i < staged.len()
                invariant
                    i <= staged@.len(),
                    sv == staged@.map_values(|e: &Entry| e@),
                    entry_views(out@) == sv.subrange(0, i as int),
                decreases staged@.len() - i,
            {
                let e = copy_entry(staged[i]);
                let ghost before = out@;
                out.push(e);
                proof {
                    assert(sv[i as int] == staged@[i as int]@);
                    assert(e@ == sv[i as int]);
                    assert(entry_views(out@) =~= entry_views(before).push(e@));
                    assert(sv.subrange(0, i + 1) =~= sv.subrange(0, i as int).push(sv[i as int]));
                }
                i += 1;
                assert(entry_views(out@) =~= sv.subrange(0, i as int));
            }
            assert(sv.subrange(0, i as int) =~= sv);
        }
        out
    }

    /// The conflicted files, in status order.
    pub fn unresolved(&self) -> (r: Vec<String>)
        ensures
            views(r@) == unresolved_view(*self),
    {
        let mut out: Vec<String> = Vec::new();
        let mut i: usize = 0;
        let ghost ev = self.status@.entries;
        while i < self.status.entries.len()
            invariant
                i <= self.status.entries@.len(),
                ev == entry_views(self.status.entries@),
                ev == self.status@.entries,
                views(out@) == filter_entries(ev.subrange(0, i as int), |e: EntryV| e.unmerged).map_values(
                    |e: EntryV| e.path,
                ),
            decreases self.status.entries@.len() - i,
        {
            let e = &self.status.entries[i];
            let ghost before = out@;
            proof {
                assert(ev.subrange(0, i + 1).drop_last() =~= ev.subrange(0, i as int));
                assert(ev.subrange(0, i + 1).last() == e@);
            }
            if e.unmerged {
                out.push(e.path.clone());
                proof {
                    assert(views(out@) =~= views(before).push(e@.path));
                    assert(filter_entries(ev.subrange(0, i + 1), |e: EntryV| e.unmerged).map_values(
                        |e: EntryV| e.path,
                    ) =~= filter_entries(ev.subrange(0, i as int), |e: EntryV| e.unmerged).map_values(
                        |e: EntryV| e.path,
                    ).push(e@.path));
                }
            }
            i += 1;
        }
        proof {
            assert(ev.subrange(0, i as int) =~= ev);
        }
        out
    }

    /// Hides or shows never-committed files in the unstaged pane; a hidden
    /// file that was selected is no longer.
    pub fn set_hide_untracked(&mut self, hide: bool)
        ensures
            final(self).hide_untracked == hide,
            ({
                let drop = hide && match old(self).sel_file {
                    Some(s) => s.pane == Pane::Unstaged && filter_entries(
                        old(self).status@.entries,
                        |e: EntryV| e.untracked,
                    ).map_values(|e: EntryV| e.path).contains(s.path@),
                    None => false,
                };
                if drop {
                    *final(self) == (App {
                        hide_untracked: hide,
                        sel_file: None,
                        diff: None,
                        ..*old(self)
                    })
                } else {
                    *final(self) == (App { hide_untracked: hide, ..*old(self) })
                }
            }),
    {
        self.hide_untracked = hide;
        if !hide {
            return;
        }
        let drop = match &self.sel_file {
            Some(s) => s.pane == Pane::Unstaged && self.is_untracked(s.path.as_str()),
            None => false,
        };
        if drop {
            self.sel_file = None;
            self.diff = None;
        }
    }

    /// Some status entry at `path` is a never-committed file.
    fn is_untracked(&self, path: &str) -> (r: bool)
        ensures
            r == filter_entries(self.status@.entries, |e: EntryV| e.untracked).map_values(
                |e: EntryV| e.path,
            ).contains(path@),
    {
        let p = chars_of(path);
        let mut i: usize = 0;
        let ghost ev = self.status@.entries;
        let mut found = false;
        while i < self.status.entries.len()
            invariant
                i <= self.status.entries@.len(),
                p@ == path@,
                ev == entry_views(self.status.entries@),
                ev == self.status@.entries,
                found == filter_entries(ev.subrange(0, i as int), |e: EntryV| e.untracked).map_values(
                    |e: EntryV| e.path,
                ).contains(path@),
            decreases self.status.entries@.len() - i,
        {
            let e = &self.status.entries[i];
            let ghost prev = filter_entries(ev.subrange(0, i as int), |e: EntryV| e.untracked).map_values(
                |e: EntryV| e.path,
            );
            proof {
                assert(ev.subrange(0, i + 1).drop_last() =~= ev.subrange(0, i as int));
                assert(ev.subrange(0, i + 1).last() == e@);
                if !e.untracked {
                    assert(filter_entries(ev.subrange(0, i + 1), |e: EntryV| e.untracked).map_values(
                        |e: EntryV| e.path,
                    ) =~= prev);
                }
            }
            if e.untracked {
                let same = crate::text::chars_eq(&chars_of(e.path.as_str()), &p);
                proof {
                    let next = filter_entries(ev.subrange(0, i + 1), |e: EntryV| e.untracked).map_values(
                        |e: EntryV| e.path,
                    );
                    assert(next =~= prev.push(e@.path));
                    if same {
                        assert(next[next.len() - 1] == path@);
                        assert(next.contains(path@));
                    }
                    if prev.contains(path@) {
                        let k = choose|k: int| 0 <= k < prev.len() && prev[k] == path@;
                        assert(next[k] == path@);
                        assert(next.contains(path@));
                    }
                    if next.contains(path@) {
                        let k = choose|k: int| 0 <= k < next.len() && next[k] == path@;
                        if k < prev.len() {
                            assert(prev[k] == path@);
                            assert(prev.contains(path@));
                        } else {
                            assert(e@.path == path@);
                        }
                    }
                    assert(next.contains(path@) == (prev.contains(path@) || same));
                }
                found = found || same;
            }
            i += 1;
        }
        proof {
            assert(ev.subrange(0, i as int) =~= ev);
        }
        found
    }

    /// Records what amending measures against: `base`, and the files the
    /// rewritten commit will change. Ignored once amending was turned off.
    pub fn amend_loaded(&mut self, base: String, files: Vec<CommitFile>)
        ensures
            old(self).amend ==> *final(self) == (App {
                amend_base: Some(base),
                amend_files: files,
                ..*old(self)
            }),
            !old(self).amend ==> *final(self) == *old(self),
    {
        if self.amend {
            self.amend_base = Some(base);
            self.amend_files = files;
        }
    }

    /// The commit an unstage restores from: the amend base while amending,
    /// otherwise `HEAD`'s own (none).
    pub fn unstage_base(&self) -> (r: Option<String>)
        ensures
            r == (if self.amend {
                self.amend_base
            } else {
                None
            }),
    {
        if self.amend {
            clone_opt(&self.amend_base)
        } else {
            None
        }
    }

    /// Records whether a merge is underway (the incoming branch's name) and
    /// offers git's prepared message when the message box is empty.
    pub fn merge_loaded(&mut self, head: Option<String>, message: Option<String>)
        ensures
            final(self).merging == head,
            ({
                let fill = head is Some && message is Some && trim_len(old(self).commit_msg@) == 0;
                &&& fill ==> final(self).commit_msg == message->0
                &&& !fill ==> final(self).commit_msg == old(self).commit_msg
            }),
            *final(self) == (App {
                merging: head,
                commit_msg: final(self).commit_msg,
                ..*old(self)
            }),
    {
        let underway = head.is_some();
        self.merging = head;
        if underway {
            match message {
                Some(m) => {
                    if crate::text::trim_exec(&chars_of(self.commit_msg.as_str())).len() == 0 {
                        self.commit_msg = m;
                    }
                },
                None => {},
            }
        }
    }

    /// Asks before throwing a merge away; with no merge underway there is
    /// nothing to ask.
    pub fn ask_abort_merge(&mut self)
        ensures
            old(self).merging is Some ==> *final(self) == (App {
                confirm: Some(Confirm::AbortMerge),
                ..*old(self)
            }),
            old(self).merging is None ==> *final(self) == *old(self),
    {
        if self.merging.is_some() {
            self.confirm = Some(Confirm::AbortMerge);
        }
    }

    /// Records how `git merge --abort` went: on success the merge and its
    /// prepared message are gone.
    pub fn merge_aborted(&mut self, result: Result<(), String>)
        ensures
            match result {
                Ok(()) => {
                    &&& final(self).info matches Some(i) && i@ == "Merge aborted."@
                    &&& final(self).commit_msg@.len() == 0
                    &&& *final(self) == (App {
                        merging: None,
                        commit_msg: final(self).commit_msg,
                        info: final(self).info,
                        error: None,
                        ..*old(self)
                    })
                },
                Err(e) => *final(self) == (App { error: Some(e), ..*old(self) }),
            },
    {
        match result {
            Ok(()) => {
                self.merging = None;
                self.commit_msg = String::new();
                self.info = Some(String::from_str("Merge aborted."));
                self.error = None;
            },
            Err(e) => {
                self.error = Some(e);
            },
        }
    }

    /// Records how taking one side of a conflicted file went.
    pub fn side_taken(&mut self, path: &str, ours: bool, result: Result<(), String>)
        ensures
            match result {
                Ok(()) => {
                    &&& final(self).info matches Some(i) && i@ == "Took "@ + side_name(ours) + " for "@
                        + path@ + "."@
                    &&& *final(self) == (App { info: final(self).info, error: None, ..*old(self) })
                },
                Err(e) => {
                    &&& final(self).error matches Some(m) && m@ == side_failed_message(path@, ours, e@)
                    &&& *final(self) == (App { error: final(self).error, ..*old(self) })
                },
            },
    {
        let side = if ours {
            "ours"
        } else {
            "theirs"
        };
        match result {
            Ok(()) => {
                let mut s = String::new();
                append_str(&mut s, "Took ");
                append_str(&mut s, side);
                append_str(&mut s, " for ");
                append_str(&mut s, path);
                append_str(&mut s, ".");
                self.info = Some(s);
                self.error = None;
            },
            Err(e) => {
                let mut s = String::new();
                append_str(&mut s, "Could not take ");
                append_str(&mut s, side);
                append_str(&mut s, " for ");
                append_str(&mut s, path);
                append_str(&mut s, ": ");
                append_str(&mut s, e.as_str());
                append_str(
                    &mut s,
                    ". A file added on only one side has no such version; stage or remove it instead.",
                );
                self.error = Some(s);
            },
        }
    }

    /// The selected file's place in the working tree: the repository root
    /// and the file's path joined by a slash. Whether it is on disk is for
    /// the caller to find out.
    pub fn open_target_text(&self) -> (r: Option<String>)
        ensures
            match (self.repo, self.sel_file) {
                (Some(repo), Some(sel)) => r matches Some(t) && t@ == repo.root@ + "/"@ + sel.path@,
                _ => r is None,
            },
    {
        match (&self.repo, &self.sel_file) {
            (Some(repo), Some(sel)) => {
                let mut s = string_of(&chars_of(repo.root.as_str()));
                append_str(&mut s, "/");
                append_str(&mut s, sel.path.as_str());
                Some(s)
            },
            _ => None,
        }
    }

    /// Reports that the selected `path` is not on disk to be opened or
    /// edited.
    pub fn not_on_disk(&mut self, path: &str, editing: bool)
        ensures
            final(self).error matches Some(e) && e@ == not_on_disk_message(path@, editing),
            *final(self) == (App { error: final(self).error, info: None, ..*old(self) }),
    {
        let mut s = String::new();
        append_str(&mut s, path);
        append_str(&mut s, " is not in the working tree, so there is ");
        if editing {
            append_str(&mut s, "nothing to edit.");
        } else {
            append_str(&mut s, "nothing to open.");
        }
        self.error = Some(s);
        self.info = None;
    }
}

/// Every entry a filter keeps satisfies its predicate.
proof fn lemma_filter_keeps(s: Seq<EntryV>, p: spec_fn(EntryV) -> bool)
    ensures
        forall|i: int| 0 <= i < filter_entries(s, p).len() ==> #[trigger] p(filter_entries(s, p)[i]),
    decreases s.len(),
{
    if s.len() > 0 {
        lemma_filter_keeps(s.drop_last(), p);
        let prev = filter_entries(s.drop_last(), p);
        if p(s.last()) {
            assert forall|i: int| 0 <= i < filter_entries(s, p).len() implies #[trigger] p(
                filter_entries(s, p)[i],
            ) by {
                if i < prev.len() {
                    assert(filter_entries(s, p)[i] == prev[i]);
                }
            }
        }
    }
}

/// While new files are hidden the unstaged pane lists none, and hiding
/// them changes nothing about any other file.
pub proof fn law_hiding_removes_only_new_files(a: App)
    requires
        a.hide_untracked,
    ensures
        forall|i: int| 0 <= i < unstaged_view(a).len() ==> !(#[trigger] unstaged_view(a)[i]).untracked,
        forall|e: EntryV| !e.untracked ==> #[trigger] shown_unstaged(e, true) == shown_unstaged(e, false),
{
    lemma_filter_keeps(a.status@.entries, |e: EntryV| shown_unstaged(e, a.hide_untracked));
    assert forall|i: int| 0 <= i < unstaged_view(a).len() implies !(#[trigger] unstaged_view(a)[i]).untracked by {
        let f = |e: EntryV| shown_unstaged(e, a.hide_untracked);
        assert(f(unstaged_view(a)[i]));
    }
}

/// No commit is made while a conflict is left; the refusal names the first
/// conflicted file.
pub proof fn law_conflicts_block_commit(a: App)
    requires
        trim_len(a.commit_msg@) > 0,
        unresolved_view(a).len() > 0,
    ensures
        commit_problem_spec(a) == Some(unresolved_message(unresolved_view(a)[0])),
{
}

/// A merge with every conflict resolved and a message can be committed even
/// when nothing differs from `HEAD`: its commit records the second parent.
pub proof fn law_resolved_merge_is_committable(a: App)
    requires
        a.merging is Some,
        trim_len(a.commit_msg@) > 0,
        unresolved_view(a).len() == 0,
    ensures
        commit_problem_spec(a) is None,
{
}

/// The folder named on the command line is always tried first.
pub proof fn law_explicit_path_first(arg: Seq<char>, cwd: Option<Seq<char>>, exe_dir: Option<Seq<char>>)
    ensures
        startup_spec(Some(arg), cwd, exe_dir).len() >= 1,
        startup_spec(Some(arg), cwd, exe_dir)[0] == arg,
{
}

/// The program's own folder is never offered as the working directory's
/// choice, however its slashes are written.
pub proof fn law_program_folder_is_no_choice(arg: Option<Seq<char>>, cwd: Seq<char>, exe_dir: Seq<char>)
    requires
        same_folder(cwd, exe_dir),
    ensures
        startup_spec(arg, Some(cwd), Some(exe_dir)) == (match arg {
            Some(x) => seq![x],
            None => Seq::<Seq<char>>::empty(),
        }),
{
    assert(startup_spec(arg, Some(cwd), Some(exe_dir)) =~= (match arg {
        Some(x) => seq![x],
        None => Seq::<Seq<char>>::empty(),
    }));
}

} // verus!
