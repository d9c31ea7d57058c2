//! The words the window shows for a state: dialog texts, pane titles,
//! counters, and what each key asks for in the diff.

use vstd::prelude::*;
use crate::app::{pane_op, pane_op_spec, pane_read_only, Confirm, Op, Pane};
use crate::git::status::{letter_text, Change};
use crate::text::{append_str, decimal, push_decimal, signed_decimal, push_signed_decimal};

verus! {

/// What a confirmation dialog says: its title, its text, and its button.
pub struct ConfirmText {
    pub title: &'static str,
    pub body: String,
    pub action: &'static str,
}

/// The text of the confirmation for `c`.
pub open spec fn confirm_spec(c: Confirm) -> (Seq<char>, Seq<char>, Seq<char>) {
    match c {
        Confirm::DropStash { label, .. } => (
            "Drop stash?"@,
            "Delete "@ + label@ + ".\n\nThis can be undone with ⌘Z straight afterwards."@,
            "Drop"@,
        ),
        Confirm::DiscardFile { path, untracked } => (
            "Discard file?"@,
            if untracked {
                "Delete the untracked file "@ + path@ + ".\nThis cannot be undone."@
            } else {
                "Revert all changes in "@ + path@ + ".\nThis cannot be undone."@
            },
            "Discard"@,
        ),
        Confirm::AbortMerge => (
            "Abort merge?"@,
            "Throw the merge away and put the working tree back where it was before it started. Any conflict resolutions made so far are lost."@,
            "Abort Merge"@,
        ),
    }
}

/// What the confirmation dialog for `c` says.
pub fn confirm_text(c: &Confirm) -> (r: ConfirmText)
    ensures
        (r.title@, r.body@, r.action@) == confirm_spec(*c),
{
    match c {
        Confirm::DropStash { label, .. } => {
            let mut body = String::new();
            append_str(&mut body, "Delete ");
            append_str(&mut body, label.as_str());
            append_str(&mut body, ".\n\nThis can be undone with ⌘Z straight afterwards.");
            ConfirmText { title: "Drop stash?", body, action: "Drop" }
        },
        Confirm::DiscardFile { path, untracked } => {
            let mut body = String::new();
            if *untracked {
                append_str(&mut body, "Delete the untracked file ");
                append_str(&mut body, path.as_str());
                append_str(&mut body, ".\nThis cannot be undone.");
            } else {
                append_str(&mut body, "Revert all changes in ");
                append_str(&mut body, path.as_str());
                append_str(&mut body, ".\nThis cannot be undone.");
            }
            ConfirmText { title: "Discard file?", body, action: "Discard" }
        },
        Confirm::AbortMerge => ConfirmText {
            title: "Abort merge?",
            body: String::from_str(
                "Throw the merge away and put the working tree back where it was before it started. Any conflict resolutions made so far are lost.",
            ),
            action: "Abort Merge",
        },
    }
}

/// The title of a working-tree pane.
pub open spec fn pane_title_spec(staged: bool, amend: bool, hide_untracked: bool) -> Seq<char> {
    if staged {
        if amend {
            "Staged Changes (Will Amend)"@
        } else {
            "Staged Changes (Will Commit)"@
        }
    } else if hide_untracked {
        "Unstaged Changes (Tracked Only)"@
    } else {
        "Unstaged Changes"@
    }
}

/// The title of a working-tree pane: the staged one says what the commit
/// will do, the unstaged one whether new files are hidden.
pub fn pane_title(staged: bool, amend: bool, hide_untracked: bool) -> (r: &'static str)
    ensures
        r@ == pane_title_spec(staged, amend, hide_untracked),
{
    if staged {
        if amend {
            "Staged Changes (Will Amend)"
        } else {
            "Staged Changes (Will Commit)"
        }
    } else if hide_untracked {
        "Unstaged Changes (Tracked Only)"
    } else {
        "Unstaged Changes"
    }
}

/// The code a file list shows for an entry: `U` for a conflict, else the
/// change's own letter.
pub fn entry_letter(change: Change, unmerged: bool) -> (r: &'static str)
    ensures
        r@ == if unmerged {
            "U"@
        } else {
            letter_text(change)
        },
{
    if unmerged {
        "U"
    } else {
        change.letter()
    }
}

/// The note a stash row carries when the stash also holds untracked files;
/// empty otherwise.
pub fn stash_untracked_marker(untracked: bool) -> (r: &'static str)
    ensures
        r@ == if untracked {
            "+untracked"@
        } else {
            ""@
        },
{
    if untracked {
        "+untracked"
    } else {
        ""
    }
}

/// The note on a file of a stash that was untracked when it was stashed;
/// empty otherwise.
pub fn stash_file_note(untracked: bool) -> (r: &'static str)
    ensures
        r@ == if untracked {
            "untracked"@
        } else {
            ""@
        },
{
    if untracked {
        "untracked"
    } else {
        ""
    }
}

/// What the diff header says the shown changes are.
pub open spec fn pane_subtitle_spec(pane: Pane) -> Seq<char> {
    match pane {
        Pane::Unstaged => "unstaged changes"@,
        Pane::Staged => "staged changes"@,
        Pane::Commit => "in this commit"@,
        Pane::Stash => "in this stash"@,
    }
}

/// What the diff header says the shown changes are.
pub fn pane_subtitle(pane: Pane) -> (r: &'static str)
    ensures
        r@ == pane_subtitle_spec(pane),
{
    match pane {
        Pane::Unstaged => "unstaged changes",
        Pane::Staged => "staged changes",
        Pane::Commit => "in this commit",
        Pane::Stash => "in this stash",
    }
}

/// A list's counter: the total, or `shown/total` while a filter hides some.
pub open spec fn count_spec(shown: nat, total: nat) -> Seq<char> {
    if shown == total {
        decimal(total)
    } else {
        decimal(shown) + "/"@ + decimal(total)
    }
}

/// A list's counter: the total, or `shown/total` while a filter hides some.
pub fn count_text(shown: usize, total: usize) -> (r: String)
    ensures
        r@ == count_spec(shown as nat, total as nat),
{
    let mut s = String::new();
    if shown == total {
        push_decimal(&mut s, total as u64);
    } else {
        push_decimal(&mut s, shown as u64);
        append_str(&mut s, "/");
        push_decimal(&mut s, total as u64);
    }
    s
}

/// The Stashes tab, with the number of entries once there are any.
pub open spec fn stashes_tab_spec(n: nat) -> Seq<char> {
    if n == 0 {
        "Stashes"@
    } else {
        "Stashes ("@ + decimal(n) + ")"@
    }
}

/// The Stashes tab, with the number of entries once there are any.
pub fn stashes_tab(n: usize) -> (r: String)
    ensures
        r@ == stashes_tab_spec(n as nat),
{
    let mut s = String::new();
    if n == 0 {
        append_str(&mut s, "Stashes");
    } else {
        append_str(&mut s, "Stashes (");
        push_decimal(&mut s, n as u64);
        append_str(&mut s, ")");
    }
    s
}

/// The push button, showing how far the branch is ahead.
pub open spec fn push_label_spec(ahead: i64) -> Seq<char> {
    if ahead > 0 {
        "Push ↑"@ + signed_decimal(ahead as int)
    } else {
        "Push…"@
    }
}

/// The push button, showing how far the branch is ahead.
pub fn push_label(ahead: i64) -> (r: String)
    ensures
        r@ == push_label_spec(ahead),
{
    let mut s = String::new();
    if ahead > 0 {
        append_str(&mut s, "Push ↑");
        push_signed_decimal(&mut s, ahead);
    } else {
        append_str(&mut s, "Push…");
    }
    s
}

/// How many files the commit box's pane holds.
pub open spec fn staged_count_spec(n: nat, amend: bool) -> Seq<char> {
    decimal(n) + if amend {
        " file(s) in commit"@
    } else {
        " file(s) staged"@
    }
}

/// How many files the commit box's pane holds.
pub fn staged_count_text(n: usize, amend: bool) -> (r: String)
    ensures
        r@ == staged_count_spec(n as nat, amend),
{
    let mut s = String::new();
    push_decimal(&mut s, n as u64);
    if amend {
        append_str(&mut s, " file(s) in commit");
    } else {
        append_str(&mut s, " file(s) staged");
    }
    s
}

/// The status bar's word on a merge underway.
pub open spec fn merge_status_spec(name: Seq<char>, unresolved: nat) -> Seq<char> {
    if unresolved == 0 {
        "merging "@ + name + " — all resolved, commit to finish"@
    } else {
        "merging "@ + name + " — "@ + decimal(unresolved) + " conflict(s) left"@
    }
}

/// The status bar's word on a merge underway.
pub fn merge_status_text(name: &str, unresolved: usize) -> (r: String)
    ensures
        r@ == merge_status_spec(name@, unresolved as nat),
{
    let mut s = String::new();
    append_str(&mut s, "merging ");
    append_str(&mut s, name);
    if unresolved == 0 {
        append_str(&mut s, " — all resolved, commit to finish");
    } else {
        append_str(&mut s, " — ");
        push_decimal(&mut s, unresolved as u64);
        append_str(&mut s, " conflict(s) left");
    }
    s
}

/// The keys pressed over the diff in one frame.
#[derive(Clone, Copy, Debug, PartialEq, Eq, Structural)]
pub struct Keys {
    pub up: bool,
    pub down: bool,
    pub page_up: bool,
    pub page_down: bool,
    pub extend: bool,
    pub select_all: bool,
    pub clear: bool,
    pub primary: bool,
    pub discard: bool,
    pub hunk: bool,
    pub copy: bool,
    pub edit: bool,
}

impl Default for Keys {
    fn default() -> (k: Keys)
        ensures
            !k.up && !k.down && !k.page_up && !k.page_down && !k.extend && !k.select_all && !k.clear
                && !k.primary && !k.discard && !k.hunk && !k.copy && !k.edit,
    {
        Keys {
            up: false,
            down: false,
            page_up: false,
            page_down: false,
            extend: false,
            select_all: false,
            clear: false,
            primary: false,
            discard: false,
            hunk: false,
            copy: false,
            edit: false,
        }
    }
}

/// An action the diff asks the window to carry out.
#[derive(Clone, Copy, Debug, PartialEq, Eq, Structural)]
pub enum Pending {
    /// Run `op` over the selected lines.
    Lines(Op),
    /// Run `op` over a whole hunk.
    Hunk(Op, usize),
    Copy,
    Edit,
}

/// What the keys ask for, the last that applies winning: in a read-only pane
/// nothing; otherwise the hunk key runs the pane's operation on the hunk at
/// the cursor, Space or Enter runs it on the selection, and Backspace
/// discards the selection.
pub open spec fn key_plan_spec(k: Keys, pane: Pane, cursor_hunk: Option<usize>) -> Option<Pending> {
    match pane_op_spec(pane) {
        None => None,
        Some(op) => if k.discard {
            Some(Pending::Lines(Op::Discard))
        } else if k.primary {
            Some(Pending::Lines(op))
        } else if k.hunk && cursor_hunk is Some {
            Some(Pending::Hunk(op, cursor_hunk->0))
        } else {
            None
        },
    }
}

/// What the keys ask the window to run; see `key_plan_spec`.
pub fn key_plan(k: &Keys, pane: Pane, cursor_hunk: Option<usize>) -> (r: Option<Pending>)
    ensures
        r == key_plan_spec(*k, pane, cursor_hunk),
{
    let op = match pane_op(pane) {
        Some(op) => op,
        None => {
            return None;
        },
    };
    let mut pending: Option<Pending> = None;
    if k.hunk {
        match cursor_hunk {
            Some(h) => {
                pending = Some(Pending::Hunk(op, h));
            },
            None => {},
        }
    }
    if k.primary {
        pending = Some(Pending::Lines(op));
    }
    if k.discard {
        pending = Some(Pending::Lines(Op::Discard));
    }
    pending
}

/// In a commit or a stash nothing can be staged, unstaged or discarded:
/// no key there runs an operation.
pub proof fn law_read_only_panes_run_nothing(k: Keys, pane: Pane, cursor_hunk: Option<usize>)
    requires
        pane_read_only(pane),
    ensures
        key_plan_spec(k, pane, cursor_hunk) is None,
{
}

/// Outside the read-only panes the discard key always means discarding the
/// selected lines, whatever else was pressed in the same frame.
pub proof fn law_discard_key_takes_lines(k: Keys, pane: Pane, cursor_hunk: Option<usize>)
    requires
        !pane_read_only(pane),
        k.discard,
    ensures
        key_plan_spec(k, pane, cursor_hunk) == Some(Pending::Lines(Op::Discard)),
{
}

} // verus!
