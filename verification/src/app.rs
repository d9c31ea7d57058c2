//! The application's state and the rules that change it: which pane is
//! shown, what is selected in the diff, what a search found, what a discard
//! can be undone with. Everything that talks to git or draws on screen lives
//! outside the library and feeds these functions plain values.

use vstd::prelude::*;
use std::collections::HashSet;
use crate::git::patch::{
    build_patch_masked, fill_mask, hunk_sel, lemma_patch_acc_congruent, line_total, mask_sel,
    mask_shaped, mask_view, patch_spec, sel_agree, ApplyMode,
};
use vstd::utf8::{decode_utf8, length_of_first_scalar, pop_first_scalar, valid_utf8};
use crate::git::diff::{
    empty_diff, hunk_views, synth_new_file, synth_spec,
    hunk_header_text, is_change_kind, DiffLine, FileDiff, FileDiffV, Hunk, HunkV, LineKind, LineV,
};
use crate::git::{GitCommand, PushOptions, Repo};
use crate::git::log::{commit_matches, CommitFile, CommitInfo, CommitMeta};
use crate::git::stash::{stash_matches, stash_message, stash_ref, StashEntry, StashEntryV, StashFile};
use crate::git::status::{
    empty_status, entry_views, filter_entries, is_staged, is_unstaged, Entry, EntryV, Status, StatusV,
};
use crate::panes::{commit_problem_spec, staged_view, unstaged_view};
use crate::text::{
    append_str, char_lower, contains, contains_exec, cviews, ends_with, ends_with_exec, lowercase,
    extend_chars, push_char, slice_of, split_once, split_once_exec, views, push_signed_decimal, signed_decimal, string_of,
    to_lowercase, trim, trim_end, trim_end_exec, trim_exec, chars_of, decimal, find, lemma_find_from_some, lines, lines_exec,
    lower_char, occurs_at, push_decimal, starts_with, starts_with_str,
};

verus! {

broadcast use vstd::std_specs::hash::group_hash_axioms;

/// Files larger than this are summarised rather than rendered, so opening a
/// giant blob never wedges the UI.
pub const MAX_DISPLAY_BYTES: usize = 4194304;

/// Bounds how much discarded content is held in memory.
pub const UNDO_LIMIT: usize = 50;

/// Why amending is refused on a branch with no commits.
pub const NOTHING_TO_AMEND: &'static str = "Nothing to amend yet: this branch has no commits.";

#[derive(Clone, Copy, PartialEq, Eq, Debug, Structural)]
pub enum Mode {
    WorkingTree,
    History,
    Stashes,
}

#[derive(Clone, Copy, PartialEq, Eq, Debug, Structural)]
pub enum Pane {
    Unstaged,
    Staged,
    /// A file inside a historical commit. Read-only.
    Commit,
    /// A file inside a stash. Read-only.
    Stash,
}

/// Commit and stash contents cannot be changed from the diff view.
pub open spec fn pane_read_only(p: Pane) -> bool {
    p == Pane::Commit || p == Pane::Stash
}

impl Pane {
    pub fn read_only(self) -> (r: bool)
        ensures
            r == pane_read_only(self),
    {
        match self {
            Pane::Commit | Pane::Stash => true,
            _ => false,
        }
    }
}

#[derive(Clone, Copy, PartialEq, Eq, Debug, Structural)]
pub enum Op {
    Stage,
    Unstage,
    Discard,
}

/// The word naming an operation in buttons and messages.
pub open spec fn op_verb(op: Op) -> Seq<char> {
    match op {
        Op::Stage => "Stage"@,
        Op::Unstage => "Unstage"@,
        Op::Discard => "Discard"@,
    }
}

impl Op {
    pub fn verb(self) -> (r: &'static str)
        ensures
            r@ == op_verb(self),
    {
        match self {
            Op::Stage => "Stage",
            Op::Unstage => "Unstage",
            Op::Discard => "Discard",
        }
    }
}

/// The stage/unstage action a pane offers, or none when it is read-only.
pub open spec fn pane_op_spec(pane: Pane) -> Option<Op> {
    match pane {
        Pane::Unstaged => Some(Op::Stage),
        Pane::Staged => Some(Op::Unstage),
        Pane::Commit | Pane::Stash => None,
    }
}

/// The stage/unstage action a pane offers, or `None` when it is read-only.
pub fn pane_op(pane: Pane) -> (r: Option<Op>)
    ensures
        r == pane_op_spec(pane),
{
    match pane {
        Pane::Unstaged => Some(Op::Stage),
        Pane::Staged => Some(Op::Unstage),
        Pane::Commit | Pane::Stash => None,
    }
}

/// The legend shown under the diff for each pane.
pub open spec fn hint_spec(pane: Option<Pane>) -> Seq<char> {
    match pane {
        Some(Pane::Unstaged) => "click a line · shift-click or gutter-drag for a range · ⌘-click to toggle · drag the text to select it · Space stages · H stages the hunk · E edits · ⌫ discards"@,
        Some(Pane::Staged) => "click a line · shift-click or gutter-drag for a range · ⌘-click to toggle · drag the text to select it · Space unstages · H unstages the hunk · E edits"@,
        Some(Pane::Commit) | Some(Pane::Stash) => "read-only · E opens your editor · drag the text to select it · ⌘C copies · ⌘F to search this diff"@,
        None => ""@,
    }
}

/// Legend shown under the diff so the interaction model is discoverable.
pub fn hint_text(pane: Option<Pane>) -> (r: &'static str)
    ensures
        r@ == hint_spec(pane),
{
    match pane {
        Some(Pane::Unstaged) => {
            "click a line · shift-click or gutter-drag for a range · ⌘-click to toggle · drag the text to select it · Space stages · H stages the hunk · E edits · ⌫ discards"
        },
        Some(Pane::Staged) => {
            "click a line · shift-click or gutter-drag for a range · ⌘-click to toggle · drag the text to select it · Space unstages · H unstages the hunk · E edits"
        },
        Some(Pane::Commit) | Some(Pane::Stash) => {
            "read-only · E opens your editor · drag the text to select it · ⌘C copies · ⌘F to search this diff"
        },
        None => "",
    }
}

/// A hit, in character columns of the rendered row (marker column included).
#[derive(Clone, Copy, PartialEq, Eq, Debug, Structural)]
pub struct FindMatch {
    pub row: usize,
    pub start: usize,
    pub end: usize,
}

#[derive(Clone, PartialEq, Debug)]
pub struct FileSel {
    pub pane: Pane,
    pub path: String,
}

/// What a row in the diff view represents.
#[derive(Clone, Debug)]
pub enum Row {
    Hunk(usize),
    Line { hunk: usize, line: usize },
    Note(String),
}

/// The (hunk, line) a row shows, for line rows.
pub open spec fn row_pair(r: Row) -> Option<(usize, usize)> {
    match r {
        Row::Line { hunk, line } => Some((hunk, line)),
        _ => None,
    }
}

/// The hunk a row belongs to: its own for header and line rows.
pub open spec fn row_hunk(r: Row) -> Option<usize> {
    match r {
        Row::Hunk(h) => Some(h),
        Row::Line { hunk, .. } => Some(hunk),
        Row::Note(_) => None,
    }
}

/// The rows of one hunk's lines.
pub open spec fn line_rows(h: usize, n: nat) -> Seq<Row> {
    Seq::new(n, |l: int| Row::Line { hunk: h, line: l as usize })
}

/// A header row followed by one row per line, for every hunk in order.
pub open spec fn hunk_rows(hunks: Seq<HunkV>) -> Seq<Row>
    decreases hunks.len(),
{
    if hunks.len() == 0 {
        seq![]
    } else {
        hunk_rows(hunks.drop_last()) + seq![Row::Hunk((hunks.len() - 1) as usize)] + line_rows(
            (hunks.len() - 1) as usize,
            hunks.last().lines.len(),
        )
    }
}

/// The note row, when there is a note.
pub open spec fn note_rows(note: Option<String>) -> Seq<Row> {
    match note {
        Some(n) => seq![Row::Note(n)],
        None => seq![],
    }
}

/// The width of the note, in characters.
pub open spec fn note_width(note: Option<String>) -> nat {
    match note {
        Some(n) => n@.len(),
        None => 0,
    }
}

/// The rows of a loaded diff: the note first when there is one.
pub open spec fn rows_for(fd: FileDiffV, note: Option<String>) -> Seq<Row> {
    note_rows(note) + hunk_rows(fd.hunks)
}

/// The width of the widest row of one hunk, in characters.
pub open spec fn hunk_width(h: HunkV) -> nat
    decreases h.lines.len(),
{
    if h.lines.len() == 0 {
        hunk_header_text(h.old_start, h.old_count, h.new_start, h.new_count, h.section).len()
    } else {
        let rest = hunk_width(HunkV { lines: h.lines.drop_last(), ..h });
        let w = h.lines.last().text.len() + 1;
        if rest >= w {
            rest
        } else {
            w as nat
        }
    }
}

/// The widest row over all hunks, in characters.
pub open spec fn hunks_width(hunks: Seq<HunkV>) -> nat
    decreases hunks.len(),
{
    if hunks.len() == 0 {
        0
    } else {
        let a = hunks_width(hunks.drop_last());
        let b = hunk_width(hunks.last());
        if a >= b {
            a
        } else {
            b
        }
    }
}

/// The widest row of a loaded diff, the note included.
pub open spec fn width_for(fd: FileDiffV, note: Option<String>) -> nat {
    let w = hunks_width(fd.hunks);
    if note_width(note) >= w {
        note_width(note)
    } else {
        w
    }
}

/// The first row at or after `i` that is the header of `hunk`.
pub open spec fn header_from(rows: Seq<Row>, hunk: usize, i: nat) -> Option<usize>
    decreases rows.len() - i,
{
    if i >= rows.len() {
        None
    } else if rows[i as int] == Row::Hunk(hunk) {
        Some(i as usize)
    } else {
        header_from(rows, hunk, i + 1)
    }
}

/// Every line's text is shorter than the largest `usize`, so a rendered
/// column (one past the text) can be counted.
pub open spec fn texts_fit(fd: FileDiffV) -> bool {
    forall|h: int, l: int|
        0 <= h < fd.hunks.len() && 0 <= l < fd.hunks[h].lines.len() ==> #[trigger] fd.hunks[h].lines[l].text.len()
            < usize::MAX
}

/// The currently displayed diff plus its selection state.
pub struct Loaded {
    pub fd: FileDiff,
    pub rows: Vec<Row>,
    /// Row indices the user has selected. Only change rows are ever inserted.
    pub sel: HashSet<usize>,
    pub anchor: Option<usize>,
    pub cursor: usize,
    pub dragging: bool,
    /// Widest row in characters, for horizontal scroll extent.
    pub max_chars: usize,
    pub untracked: bool,
    /// Set when the view should scroll the cursor into sight.
    pub scroll_to_cursor: bool,
    /// Where a drag over the code began, for a character selection.
    pub text_anchor: Option<TextPos>,
    /// Where that drag is now.
    pub text_head: Option<TextPos>,
    /// A drag over the code is under way.
    pub text_dragging: bool,
}

/// A caret position in the code of the diff: a row, and a character column
/// of that row's code (the marker column is not part of it).
#[derive(Clone, Copy, PartialEq, Eq, Debug, Structural)]
pub struct TextPos {
    pub row: usize,
    pub col: usize,
}

/// Two loaded diffs show the same content; only selection state may differ.
pub open spec fn same_content(a: Loaded, b: Loaded) -> bool {
    &&& a.fd == b.fd
    &&& a.rows == b.rows
    &&& a.max_chars == b.max_chars
    &&& a.untracked == b.untracked
    &&& a.dragging == b.dragging
    &&& a.scroll_to_cursor == b.scroll_to_cursor
    &&& a.text_anchor == b.text_anchor
    &&& a.text_head == b.text_head
    &&& a.text_dragging == b.text_dragging
}

impl Loaded {
    /// The (hunk, line) pair shown on `row`, for line rows.
    pub open spec fn pair_spec(&self, row: int) -> Option<(usize, usize)> {
        if 0 <= row < self.rows@.len() {
            row_pair(self.rows@[row])
        } else {
            None
        }
    }

    /// The hunk `row` belongs to.
    pub open spec fn hunk_spec(&self, row: int) -> Option<usize> {
        if 0 <= row < self.rows@.len() {
            row_hunk(self.rows@[row])
        } else {
            None
        }
    }

    /// `row` shows an addition or a deletion.
    pub open spec fn change_row(&self, row: int) -> bool {
        match self.pair_spec(row) {
            Some((h, l)) => {
                &&& h < self.fd@.hunks.len()
                &&& l < self.fd@.hunks[h as int].lines.len()
                &&& is_change_kind(self.fd@.hunks[h as int].lines[l as int].kind)
            },
            None => false,
        }
    }

    /// Every row that can be selected.
    pub open spec fn change_rows(&self) -> Set<usize> {
        Set::new(|r: usize| self.change_row(r as int))
    }

    /// The selection holds change rows only.
    pub open spec fn sel_valid(&self) -> bool {
        forall|r: usize| #[trigger] self.sel@.contains(r) ==> self.change_row(r as int)
    }

    /// The rows of the change rows in `[lo, hi]`.
    pub open spec fn change_range(&self, lo: int, hi: int) -> Set<usize> {
        Set::new(|r: usize| lo <= r <= hi && self.change_row(r as int))
    }

    /// The change rows of one hunk.
    pub open spec fn hunk_change_rows(&self, hunk: usize) -> Set<usize> {
        Set::new(|r: usize| self.change_row(r as int) && self.hunk_spec(r as int) == Some(hunk))
    }

    /// The well-formed shape `build` gives: the rows are exactly those of the
    /// diff and its note, every text fits, and the selection holds change
    /// rows only.
    pub open spec fn wf(&self) -> bool {
        &&& texts_fit(self.fd@)
        &&& self.sel_valid()
        &&& exists|note: Option<String>| self.rows@ == rows_for(self.fd@, note)
    }
}

/// The widest row of one hunk, in characters.
fn hunk_width_exec(h: &Hunk) -> (w: usize)
    requires
        forall|l: int| 0 <= l < h@.lines.len() ==> #[trigger] h@.lines[l].text.len() < usize::MAX,
    ensures
        w == hunk_width(h@),
{
    let mut w: usize = chars_of(h.header().as_str()).len();
    let mut li: usize = 0;
    let ghost hv = h@;
    proof {
        assert(HunkV { lines: hv.lines.subrange(0, 0), ..hv }.lines.len() == 0);
    }
    while li < h.lines.len()
        invariant
            li <= h.lines@.len(),
            hv == h@,
            forall|l: int| 0 <= l < hv.lines.len() ==> #[trigger] hv.lines[l].text.len() < usize::MAX,
            w == hunk_width(HunkV { lines: hv.lines.subrange(0, li as int), ..hv }),
        decreases h.lines@.len() - li,
    {
        let n = chars_of(h.lines[li].text.as_str()).len();
        proof {
            assert(hv.lines[li as int] == h.lines@[li as int]@);
            assert(hv.lines[li as int].text.len() < usize::MAX);
            let next = HunkV { lines: hv.lines.subrange(0, li + 1), ..hv };
            assert(next.lines.drop_last() =~= hv.lines.subrange(0, li as int));
            assert(HunkV { lines: next.lines.drop_last(), ..next } == HunkV {
                lines: hv.lines.subrange(0, li as int),
                ..hv
            });
        }
        if n + 1 > w {
            w = n + 1;
        }
        li += 1;
    }
    proof {
        assert(hv.lines.subrange(0, li as int) =~= hv.lines);
        assert(HunkV { lines: hv.lines.subrange(0, li as int), ..hv } == hv);
    }
    w
}

impl Loaded {
    /// Lays a diff out as rows, with an optional note on top.
    pub fn build(fd: FileDiff, untracked: bool, note: Option<String>) -> (r: Loaded)
        requires
            texts_fit(fd@),
        ensures
            r.fd == fd,
            r.rows@ == rows_for(fd@, note),
            r.sel@ == Set::<usize>::empty(),
            r.anchor is None,
            r.cursor == 0,
            !r.dragging,
            r.max_chars == width_for(fd@, note),
            r.untracked == untracked,
            !r.scroll_to_cursor,
            r.text_anchor is None,
            r.text_head is None,
            !r.text_dragging,
            r.wf(),
    {
        let mut rows: Vec<Row> = Vec::new();
        let mut max_chars: usize = 0;
        let ghost hv = fd@.hunks;
        let ghost prefix = note_rows(note);
        let ghost note_w = note_width(note);
        match note {
            Some(n) => {
                max_chars = chars_of(n.as_str()).len();
                rows.push(Row::Note(n));
            },
            None => {},
        }
        proof {
            assert(rows@ =~= prefix + hunk_rows(hv.subrange(0, 0)));
        }
        let mut hi: usize = 0;
        while hi < fd.hunks.len()
            invariant
                hi <= fd.hunks@.len(),
                hv == fd@.hunks,
                texts_fit(fd@),
                rows@ == prefix + hunk_rows(hv.subrange(0, hi as int)),
                max_chars == (if note_w >= hunks_width(hv.subrange(0, hi as int)) {
                    note_w
                } else {
                    hunks_width(hv.subrange(0, hi as int))
                }),
            decreases fd.hunks@.len() - hi,
        {
            let h = &fd.hunks[hi];
            proof {
                assert(hv[hi as int] == h@);
                assert forall|l: int| 0 <= l < h@.lines.len() implies #[trigger] h@.lines[l].text.len()
                    < usize::MAX by {
                    assert(fd@.hunks[hi as int].lines[l].text.len() < usize::MAX);
                }
            }
            let w = hunk_width_exec(h);
            if w > max_chars {
                max_chars = w;
            }
            rows.push(Row::Hunk(hi));
            let mut li: usize = 0;
            assert(rows@ =~= prefix + hunk_rows(hv.subrange(0, hi as int)) + seq![Row::Hunk(hi)]
                + line_rows(hi, 0));
            while li < h.lines.len()
                invariant
                    li <= h.lines@.len(),
                    rows@ == prefix + hunk_rows(hv.subrange(0, hi as int)) + seq![Row::Hunk(hi)]
                        + line_rows(hi, li as nat),
                decreases h.lines@.len() - li,
            {
                rows.push(Row::Line { hunk: hi, line: li });
                li += 1;
                assert(rows@ =~= prefix + hunk_rows(hv.subrange(0, hi as int)) + seq![Row::Hunk(hi)]
                    + line_rows(hi, li as nat));
            }
            proof {
                let sub = hv.subrange(0, hi + 1);
                assert(sub.drop_last() =~= hv.subrange(0, hi as int));
                assert(sub.last() == h@);
                assert(h@.lines.len() == li);
                assert(rows@ =~= prefix + hunk_rows(sub));
            }
            hi += 1;
        }
        proof {
            assert(hv.subrange(0, hi as int) =~= hv);
        }
        let r = Loaded {
            fd,
            rows,
            sel: HashSet::new(),
            anchor: None,
            cursor: 0,
            dragging: false,
            max_chars,
            untracked,
            scroll_to_cursor: false,
            text_anchor: None,
            text_head: None,
            text_dragging: false,
        };
        assert(r.rows@ == rows_for(r.fd@, note));
        assert(r.sel_valid());
        r
    }
}

/// The selection `extend_to(row)` leaves, anchored at `a`.
pub open spec fn range_between(d: Loaded, a: int, row: int) -> Set<usize> {
    if a <= row {
        d.change_range(a, row)
    } else {
        d.change_range(row, a)
    }
}

/// A diff with the same content as a well-formed one, and a valid
/// selection, is well formed.
pub proof fn lemma_wf_kept(a: Loaded, b: Loaded)
    requires
        a.wf(),
        same_content(a, b),
        b.sel_valid(),
    ensures
        b.wf(),
{
    let note = choose|note: Option<String>| a.rows@ == rows_for(a.fd@, note);
    assert(b.rows@ == rows_for(b.fd@, note));
}

/// The selection after toggling `row`: only a change row flips.
pub open spec fn toggle_sel(sel: Set<usize>, is_change: bool, row: usize) -> Set<usize> {
    if is_change {
        if sel.contains(row) {
            sel.remove(row)
        } else {
            sel.insert(row)
        }
    } else {
        sel
    }
}

/// The (hunk, line) pairs of the selected rows among the first `n`, in row
/// order.
pub open spec fn sel_pairs(d: Loaded, n: int) -> Seq<(usize, usize)>
    decreases n,
{
    if n <= 0 {
        seq![]
    } else {
        let prev = sel_pairs(d, n - 1);
        if d.sel@.contains((n - 1) as usize) {
            match d.pair_spec(n - 1) {
                Some(p) => prev.push(p),
                None => prev,
            }
        } else {
            prev
        }
    }
}

/// How many of the first `n` rows are selected change rows.
pub open spec fn sel_count(d: Loaded, n: int) -> nat
    decreases n,
{
    if n <= 0 {
        0
    } else if d.sel@.contains((n - 1) as usize) && d.change_row(n - 1) {
        sel_count(d, n - 1) + 1
    } else {
        sel_count(d, n - 1)
    }
}

/// The clamped cursor `move_cursor` aims for.
pub open spec fn clamp_row(cursor: int, delta: int, last: int) -> int {
    let t = cursor + delta;
    if t < 0 {
        0
    } else if t > last {
        last
    } else {
        t
    }
}

impl Loaded {
    pub fn pair_at(&self, row: usize) -> (r: Option<(usize, usize)>)
        ensures
            r == self.pair_spec(row as int),
    {
        if row < self.rows.len() {
            match &self.rows[row] {
                Row::Line { hunk, line } => Some((*hunk, *line)),
                _ => None,
            }
        } else {
            None
        }
    }

    /// True when this row is a selectable change (not context, not a header).
    pub fn is_change_row(&self, row: usize) -> (r: bool)
        ensures
            r == self.change_row(row as int),
    {
        match self.pair_at(row) {
            Some((h, l)) => {
                if h < self.fd.hunks.len() && l < self.fd.hunks[h].lines.len() {
                    proof {
                        assert(self.fd@.hunks[h as int] == self.fd.hunks@[h as int]@);
                        assert(self.fd@.hunks[h as int].lines[l as int]
                            == self.fd.hunks@[h as int].lines@[l as int]@);
                    }
                    self.fd.hunks[h].lines[l].is_change()
                } else {
                    false
                }
            },
            None => false,
        }
    }

    fn is_header_of(&self, row: usize, hunk: usize) -> (r: bool)
        requires
            row < self.rows@.len(),
        ensures
            r == (self.rows@[row as int] == Row::Hunk(hunk)),
    {
        match &self.rows[row] {
            Row::Hunk(h) => *h == hunk,
            _ => false,
        }
    }

    pub fn hunk_of_row(&self, row: usize) -> (r: Option<usize>)
        ensures
            r == self.hunk_spec(row as int),
    {
        if row < self.rows.len() {
            match &self.rows[row] {
                Row::Hunk(h) => Some(*h),
                Row::Line { hunk, .. } => Some(*hunk),
                Row::Note(_) => None,
            }
        } else {
            None
        }
    }

    /// Selects `row` alone (when it is a change) and moves the anchor and
    /// cursor there.
    pub fn select_only(&mut self, row: usize)
        ensures
            same_content(*final(self), *old(self)),
            final(self).sel@ == (if old(self).change_row(row as int) {
                set![row]
            } else {
                Set::<usize>::empty()
            }),
            final(self).anchor == Some(row),
            final(self).cursor == row,
            final(self).sel_valid(),
            old(self).wf() ==> final(self).wf(),
    {
        self.sel.clear();
        if self.is_change_row(row) {
            self.sel.insert(row);
            assert(self.sel@ =~= set![row]);
        }
        self.anchor = Some(row);
        self.cursor = row;
    }

    /// Flips `row` in or out of the selection (when it is a change) and
    /// moves the anchor and cursor there.
    pub fn toggle(&mut self, row: usize)
        ensures
            same_content(*final(self), *old(self)),
            final(self).sel@ == toggle_sel(old(self).sel@, old(self).change_row(row as int), row),
            final(self).anchor == Some(row),
            final(self).cursor == row,
            old(self).sel_valid() ==> final(self).sel_valid(),
            old(self).wf() ==> final(self).wf(),
    {
        if self.is_change_row(row) {
            if !self.sel.remove(&row) {
                self.sel.insert(row);
            }
        }
        self.anchor = Some(row);
        self.cursor = row;
    }

    /// Replaces the selection with every change row between the anchor and
    /// `row`, inclusive.
    pub fn extend_to(&mut self, row: usize)
        ensures
            same_content(*final(self), *old(self)),
            final(self).sel@ == range_between(
                *old(self),
                match old(self).anchor {
                    Some(a) => a as int,
                    None => row as int,
                },
                row as int,
            ),
            final(self).anchor == old(self).anchor,
            final(self).cursor == row,
            final(self).sel_valid(),
            old(self).wf() ==> final(self).wf(),
    {
        let a = match self.anchor {
            Some(a) => a,
            None => row,
        };
        let (lo, hi) = if a <= row {
            (a, row)
        } else {
            (row, a)
        };
        self.sel.clear();
        let n = self.rows.len();
        let top = if n == 0 {
            0
        } else if hi < n - 1 {
            hi
        } else {
            n - 1
        };
        let mut r = lo;
        while r <= top
            invariant
                lo <= r,
                r <= top + 1 || r == lo,
                top < usize::MAX,
                same_content(*self, *old(self)),
                self.anchor == old(self).anchor,
                self.cursor == old(self).cursor,
                self.sel@ == Set::new(|x: usize| lo <= x < r && old(self).change_row(x as int)),
            decreases top + 1 - r,
        {
            if self.is_change_row(r) {
                self.sel.insert(r);
            }
            r += 1;
            assert(self.sel@ =~= Set::new(|x: usize| lo <= x < r && old(self).change_row(x as int)));
        }
        proof {
            assert(self.sel@ =~= old(self).change_range(lo as int, hi as int)) by {
                assert forall|x: usize| old(self).change_row(x as int) implies x < n by {}
            }
        }
        self.cursor = row;
        proof {
            if old(self).wf() {
                lemma_wf_kept(*old(self), *self);
            }
        }
    }

    /// Selects every change line of `hunk` and puts the anchor and cursor on
    /// its header.
    pub fn select_hunk(&mut self, hunk: usize)
        ensures
            same_content(*final(self), *old(self)),
            final(self).sel@ == old(self).hunk_change_rows(hunk),
            match header_from(old(self).rows@, hunk, 0) {
                Some(f) => final(self).anchor == Some(f) && final(self).cursor == f,
                None => final(self).anchor == old(self).anchor && final(self).cursor == old(
                    self,
                ).cursor,
            },
            final(self).sel_valid(),
            old(self).wf() ==> final(self).wf(),
    {
        self.sel.clear();
        let mut i: usize = 0;
        while i < self.rows.len()
            invariant
                i <= self.rows@.len(),
                same_content(*self, *old(self)),
                self.anchor == old(self).anchor,
                self.cursor == old(self).cursor,
                self.sel@ == Set::new(
                    |x: usize|
                        x < i && old(self).change_row(x as int) && old(self).hunk_spec(x as int)
                            == Some(hunk),
                ),
            decreases self.rows@.len() - i,
        {
            if self.hunk_of_row(i) == Some(hunk) && self.is_change_row(i) {
                self.sel.insert(i);
            }
            i += 1;
            assert(self.sel@ =~= Set::new(
                |x: usize|
                    x < i && old(self).change_row(x as int) && old(self).hunk_spec(x as int) == Some(
                        hunk,
                    ),
            ));
        }
        proof {
            assert(self.sel@ =~= old(self).hunk_change_rows(hunk));
        }
        let mut j: usize = 0;
        while j < self.rows.len() && !self.is_header_of(j, hunk)
            invariant
                j <= self.rows@.len(),
                same_content(*self, *old(self)),
                header_from(self.rows@, hunk, 0) == header_from(self.rows@, hunk, j as nat),
            decreases self.rows@.len() - j,
        {
            j += 1;
        }
        if j < self.rows.len() {
            self.anchor = Some(j);
            self.cursor = j;
        }
        proof {
            if old(self).wf() {
                lemma_wf_kept(*old(self), *self);
            }
        }
    }

    pub fn select_all(&mut self)
        ensures
            same_content(*final(self), *old(self)),
            final(self).sel@ == old(self).change_rows(),
            final(self).anchor == old(self).anchor,
            final(self).cursor == old(self).cursor,
            final(self).sel_valid(),
            old(self).wf() ==> final(self).wf(),
    {
        self.sel.clear();
        let mut i: usize = 0;
        while i < self.rows.len()
            invariant
                i <= self.rows@.len(),
                same_content(*self, *old(self)),
                self.anchor == old(self).anchor,
                self.cursor == old(self).cursor,
                self.sel@ == Set::new(|x: usize| x < i && old(self).change_row(x as int)),
            decreases self.rows@.len() - i,
        {
            if self.is_change_row(i) {
                self.sel.insert(i);
            }
            i += 1;
            assert(self.sel@ =~= Set::new(|x: usize| x < i && old(self).change_row(x as int)));
        }
        assert(self.sel@ =~= old(self).change_rows());
    }
}

impl Loaded {
    /// The (hunk, line) pairs the current selection covers, in row order.
    pub fn selected_pairs(&self) -> (r: Vec<(usize, usize)>)
        ensures
            r@ == sel_pairs(*self, self.rows@.len() as int),
    {
        let mut out: Vec<(usize, usize)> = Vec::new();
        let mut i: usize = 0;
        while i < self.rows.len()
            invariant
                i <= self.rows@.len(),
                out@ == sel_pairs(*self, i as int),
            decreases self.rows@.len() - i,
        {
            if self.sel.contains(&i) {
                match self.pair_at(i) {
                    Some(p) => {
                        out.push(p);
                    },
                    None => {},
                }
            }
            i += 1;
        }
        out
    }

    pub fn selected_change_count(&self) -> (r: usize)
        ensures
            r == sel_count(*self, self.rows@.len() as int),
    {
        let mut n: usize = 0;
        let mut i: usize = 0;
        while i < self.rows.len()
            invariant
                i <= self.rows@.len(),
                n <= i,
                n == sel_count(*self, i as int),
            decreases self.rows@.len() - i,
        {
            if self.sel.contains(&i) && self.is_change_row(i) {
                n += 1;
            }
            i += 1;
        }
        n
    }

    /// Moves the cursor to the next/previous row, optionally extending.
    pub fn move_cursor(&mut self, delta: i64, extend: bool)
        ensures
            same_content(*final(self), *old(self)),
            old(self).rows@.len() == 0 ==> *final(self) == *old(self),
            old(self).rows@.len() > 0 ==> {
                let next = clamp_row(
                    old(self).cursor as int,
                    delta as int,
                    old(self).rows@.len() - 1,
                );
                &&& final(self).cursor == next
                &&& if extend {
                    let a = match old(self).anchor {
                        Some(a) => a,
                        None => old(self).cursor,
                    };
                    &&& final(self).anchor == Some(a)
                    &&& final(self).sel@ == range_between(*old(self), a as int, next)
                } else {
                    &&& final(self).anchor == Some(next as usize)
                    &&& final(self).sel@ == (if old(self).change_row(next) {
                        set![next as usize]
                    } else {
                        Set::<usize>::empty()
                    })
                }
            },
            old(self).wf() ==> final(self).wf(),
    {
        if self.rows.len() == 0 {
            return;
        }
        let last = self.rows.len() - 1;
        let t: i128 = self.cursor as i128 + delta as i128;
        let next: usize = if t < 0 {
            0
        } else if t > last as i128 {
            last
        } else {
            t as usize
        };
        if extend {
            if self.anchor.is_none() {
                self.anchor = Some(self.cursor);
            }
            self.extend_to(next);
        } else {
            self.select_only(next);
        }
    }
}

/// Toggling a row twice leaves the selection as it was.
pub proof fn law_toggle_twice_restores(sel: Set<usize>, is_change: bool, row: usize)
    ensures
        toggle_sel(toggle_sel(sel, is_change, row), is_change, row) == sel,
{
    if is_change {
        if sel.contains(row) {
            assert(sel.remove(row).insert(row) =~= sel);
        } else {
            assert(sel.insert(row).remove(row) =~= sel);
        }
    }
}

/// The count of selected changes is zero exactly when no selected row is a
/// change.
pub proof fn law_selected_count_zero(d: Loaded, n: int)
    ensures
        sel_count(d, n) == 0 <==> forall|i: int|
            0 <= i < n ==> !(#[trigger] d.sel@.contains(i as usize) && d.change_row(i)),
    decreases n,
{
    if n > 0 {
        law_selected_count_zero(d, n - 1);
    }
}

// ---------------------------------------------------------------------------
// Search
// ---------------------------------------------------------------------------

/// Case folding that keeps one output char per input char, so match offsets
/// stay aligned with the rendered text.
pub open spec fn fold_spec(s: Seq<char>, case_sensitive: bool) -> Seq<char> {
    if case_sensitive {
        s
    } else {
        s.map_values(|c: char| char_lower(c))
    }
}

/// Case folding that keeps one output char per input char, so match offsets
/// stay aligned with the rendered text. Full Unicode lowercasing can change
/// length and would desync the highlight rectangles.
pub fn fold(s: &str, case_sensitive: bool) -> (r: Vec<char>)
    ensures
        r@ == fold_spec(s@, case_sensitive),
{
    let v = chars_of(s);
    if case_sensitive {
        return v;
    }
    let mut out: Vec<char> = Vec::new();
    let mut i: usize = 0;
    while i < v.len()
        invariant
            i <= v@.len(),
            out@ == v@.subrange(0, i as int).map_values(|c: char| char_lower(c)),
        decreases v@.len() - i,
    {
        out.push(lower_char(v[i]));
        i += 1;
        assert(out@ =~= v@.subrange(0, i as int).map_values(|c: char| char_lower(c)));
    }
    assert(v@.subrange(0, i as int) =~= v@);
    out
}

/// Where `needle` first occurs in `hay`; an empty needle finds nothing.
pub open spec fn find_sub_spec(hay: Seq<char>, needle: Seq<char>) -> Option<nat> {
    if needle.len() == 0 {
        None
    } else {
        find(hay, needle)
    }
}

/// The first position of `needle` in `hay`.
pub fn find_sub(hay: &[char], needle: &[char]) -> (r: Option<usize>)
    ensures
        match (r, find_sub_spec(hay@, needle@)) {
            (Some(i), Some(k)) => i == k,
            (None, None) => true,
            _ => false,
        },
{
    proof {
        lemma_find_from_some(hay@, needle@, 0);
    }
    if needle.len() == 0 || hay.len() < needle.len() {
        return None;
    }
    let n = needle.len();
    let hl = hay.len();
    let mut i: usize = 0;
    while i <= hl - n
        invariant
            hl == hay@.len(),
            n == needle@.len(),
            n >= 1,
            n <= hay@.len(),
            i <= hay@.len() - n + 1,
            forall|j: int| 0 <= j < i ==> !occurs_at(hay@, needle@, j),
        decreases hay@.len() - n + 1 - i,
    {
        let mut k: usize = 0;
        let mut same = true;
        while k < n
            invariant
                hl == hay@.len(),
                n == needle@.len(),
                i + n <= hl,
                k <= n,
                same ==> forall|j: int| 0 <= j < k ==> hay@[i + j] == needle@[j],
                !same ==> !occurs_at(hay@, needle@, i as int),
            decreases n - k,
        {
            assert(i + k < hay@.len());
            if same && hay[i + k] != needle[k] {
                same = false;
                assert(hay@.subrange(i as int, i + n)[k as int] != needle@[k as int]);
            }
            k += 1;
        }
        if same {
            assert(hay@.subrange(i as int, i + n) =~= needle@);
            proof {
                assert(occurs_at(hay@, needle@, i as int));
                lemma_find_from_some(hay@, needle@, 0);
            }
            return Some(i);
        }
        i += 1;
    }
    proof {
        lemma_find_from_some(hay@, needle@, 0);
    }
    None
}

/// The start of every non-overlapping occurrence of `needle` in `hay` at or
/// after `from`, scanning left to right.
pub open spec fn occurrences(hay: Seq<char>, needle: Seq<char>, from: nat) -> Seq<nat>
    decreases hay.len() + 1 - from,
{
    if needle.len() == 0 || from > hay.len() {
        seq![]
    } else {
        let rest = hay.subrange(from as int, hay.len() as int);
        proof {
            lemma_find_from_some(rest, needle, 0);
        }
        match find(rest, needle) {
            Some(pos) => seq![from + pos] + occurrences(hay, needle, from + pos + needle.len()),
            None => seq![],
        }
    }
}

/// The hits of one row: columns shifted right by one for the marker column.
pub open spec fn row_matches(row: usize, hay: Seq<char>, needle: Seq<char>) -> Seq<FindMatch> {
    occurrences(hay, needle, 0).map_values(
        |k: nat|
            FindMatch {
                row,
                start: (k + 1) as usize,
                end: (k + needle.len() + 1) as usize,
            },
    )
}

/// The hits on row `i`: only line rows with text are searched (a text too
/// long for its columns to be counted holds none).
pub open spec fn row_hits(d: Loaded, i: int, needle: Seq<char>, cs: bool) -> Seq<FindMatch> {
    match d.pair_spec(i) {
        Some((h, l)) => if h < d.fd@.hunks.len() && l < d.fd@.hunks[h as int].lines.len()
            && d.fd@.hunks[h as int].lines[l as int].kind != LineKind::NoNewline
            && d.fd@.hunks[h as int].lines[l as int].text.len() < usize::MAX {
            row_matches(i as usize, fold_spec(d.fd@.hunks[h as int].lines[l as int].text, cs), needle)
        } else {
            seq![]
        },
        None => seq![],
    }
}

/// The hits on the first `n` rows, in row order.
pub open spec fn hits_upto(d: Loaded, n: int, needle: Seq<char>, cs: bool) -> Seq<FindMatch>
    decreases n,
{
    if n <= 0 {
        seq![]
    } else {
        hits_upto(d, n - 1, needle, cs) + row_hits(d, n - 1, needle, cs)
    }
}

/// Incremental search over the visible diff.
pub struct Find {
    pub open: bool,
    pub query: String,
    pub case_sensitive: bool,
    pub matches: Vec<FindMatch>,
    pub current: usize,
    /// Set to pull keyboard focus into the field on the next frame.
    pub request_focus: bool,
}

impl Default for Find {
    fn default() -> (r: Find)
        ensures
            !r.open,
            r.query@.len() == 0,
            !r.case_sensitive,
            r.matches@.len() == 0,
            r.current == 0,
            !r.request_focus,
    {
        Find {
            open: false,
            query: String::new(),
            case_sensitive: false,
            matches: Vec::new(),
            current: 0,
            request_focus: false,
        }
    }
}

/// `row`, or the last row when it lies past the end.
/// The diff after its cursor is moved onto the current hit of `f`, with
/// scrolling requested; everything else of it, the line selection included,
/// stays.
pub open spec fn jumped(d: Option<Loaded>, f: Find) -> Option<Loaded> {
    match d {
        Some(a) => if f.current < f.matches@.len() {
            Some(
                Loaded {
                    cursor: clamp_to_rows(f.matches@[f.current as int].row, a.rows@.len()),
                    scroll_to_cursor: true,
                    ..a
                },
            )
        } else {
            Some(a)
        },
        None => None,
    }
}

/// The hits a search with `f`'s query finds in `d`.
pub open spec fn hits_for(d: Option<Loaded>, f: Find) -> Seq<FindMatch> {
    match d {
        Some(x) => if f.query@.len() == 0 {
            Seq::<FindMatch>::empty()
        } else {
            hits_upto(x, x.rows@.len() as int, fold_spec(f.query@, f.case_sensitive), f.case_sensitive)
        },
        None => Seq::<FindMatch>::empty(),
    }
}

pub open spec fn clamp_to_rows(row: usize, n: nat) -> usize {
    if n == 0 {
        0
    } else if row < n - 1 {
        row
    } else {
        (n - 1) as usize
    }
}

/// The hit after the current one, wrapping around.
pub open spec fn next_index(current: int, len: int) -> int {
    (current + 1) % len
}

/// The hit before the current one, wrapping around.
pub open spec fn prev_index(current: int, len: int) -> int {
    if current == 0 {
        len - 1
    } else {
        current - 1
    }
}

/// The status text beside the search box.
pub open spec fn find_status_spec(query: Seq<char>, n: nat, current: nat) -> Seq<char> {
    if query.len() == 0 {
        seq![]
    } else if n == 0 {
        "no matches"@
    } else {
        decimal(current + 1) + " of "@ + decimal(n)
    }
}

impl Find {
    /// Collects the hits of `needle` on one line of text into `hits`.
    fn scan_row(hits: &mut Vec<FindMatch>, row: usize, hay: &Vec<char>, needle: &Vec<char>)
        requires
            needle@.len() >= 1,
            hay@.len() < usize::MAX,
        ensures
            final(hits)@ == old(hits)@ + row_matches(row, hay@, needle@),
    {
        let n = needle.len();
        let mut from: usize = 0;
        let ghost start_hits = hits@;
        let mut done = false;
        while !done && from <= hay.len()
            invariant
                n == needle@.len(),
                n >= 1,
                hay@.len() < usize::MAX,
                from <= hay@.len() + 1,
                !done ==> start_hits + row_matches(row, hay@, needle@) == hits@ + occurrences(
                    hay@,
                    needle@,
                    from as nat,
                ).map_values(
                    |k: nat|
                        FindMatch {
                            row,
                            start: (k + 1) as usize,
                            end: (k + needle@.len() + 1) as usize,
                        },
                ),
                done ==> start_hits + row_matches(row, hay@, needle@) == hits@,
            decreases hay@.len() + 2 - from - (if done { 1int } else { 0int }),
        {
            let ghost f = |k: nat|
                FindMatch { row, start: (k + 1) as usize, end: (k + needle@.len() + 1) as usize };
            let rest = &hay.as_slice()[from..hay.len()];
            proof {
                lemma_find_from_some(rest@, needle@, 0);
            }
            match find_sub(rest, needle.as_slice()) {
                Some(pos) => {
                    let start = from + pos;
                    let m = FindMatch { row, start: start + 1, end: start + n + 1 };
                    let ghost before = hits@;
                    hits.push(m);
                    proof {
                        let occ = occurrences(hay@, needle@, from as nat);
                        assert(occ == seq![(from + pos) as nat] + occurrences(
                            hay@,
                            needle@,
                            (start + n) as nat,
                        ));
                        assert(occ.map_values(f) =~= seq![m] + occurrences(
                            hay@,
                            needle@,
                            (start + n) as nat,
                        ).map_values(f));
                        assert(hits@ + occurrences(hay@, needle@, (start + n) as nat).map_values(f)
                            =~= before + occ.map_values(f));
                    }
                    from = start + n;
                },
                None => {
                    proof {
                        assert(occurrences(hay@, needle@, from as nat) =~= Seq::<nat>::empty());
                        assert(hits@ + occurrences(hay@, needle@, from as nat).map_values(f)
                            =~= hits@);
                    }
                    done = true;
                },
            }
        }
        proof {
            if !done {
                assert(occurrences(hay@, needle@, from as nat) =~= Seq::<nat>::empty());
                assert(hits@ + Seq::<FindMatch>::empty() =~= hits@);
            }
        }
    }

    /// Recomputes the hit list over `d`, starting again from the first hit.
    pub fn recompute(&mut self, d: Option<&Loaded>)
        ensures
            *final(self) == (Find { matches: final(self).matches, current: 0, ..*old(self) }),
            final(self).matches@ == (match d {
                Some(x) => if old(self).query@.len() == 0 {
                    Seq::<FindMatch>::empty()
                } else {
                    hits_upto(
                        *x,
                        x.rows@.len() as int,
                        fold_spec(old(self).query@, old(self).case_sensitive),
                        old(self).case_sensitive,
                    )
                },
                None => Seq::<FindMatch>::empty(),
            }),
    {
        self.matches = Vec::new();
        self.current = 0;
        if self.query.as_str().is_empty() {
            return;
        }
        let d = match d {
            Some(x) => x,
            None => {
                return;
            },
        };
        let cs = self.case_sensitive;
        let needle = fold(self.query.as_str(), cs);
        let mut hits: Vec<FindMatch> = Vec::new();
        let mut i: usize = 0;
        while i < d.rows.len()
            invariant
                i <= d.rows@.len(),
                needle@ == fold_spec(self.query@, cs),
                needle@.len() >= 1,
                hits@ == hits_upto(*d, i as int, needle@, cs),
            decreases d.rows@.len() - i,
        {
            let ghost before = hits@;
            match d.pair_at(i) {
                Some((h, l)) => {
                    if h < d.fd.hunks.len() && l < d.fd.hunks[h].lines.len() {
                        let line = &d.fd.hunks[h].lines[l];
                        proof {
                            assert(d.fd@.hunks[h as int] == d.fd.hunks@[h as int]@);
                            assert(d.fd@.hunks[h as int].lines[l as int] == line@);
                        }
                        if line.kind != LineKind::NoNewline {
                            let hay = fold(line.text.as_str(), cs);
                            if hay.len() < usize::MAX {
                                Find::scan_row(&mut hits, i, &hay, &needle);
                            }
                        }
                    }
                },
                None => {},
            }
            assert(hits@ =~= before + row_hits(*d, i as int, needle@, cs));
            i += 1;
        }
        self.matches = hits;
    }

    /// Moves the diff's cursor onto the current hit without touching the
    /// line selection, so searching never disturbs what is staged next.
    pub fn jump(&self, d: &mut Loaded)
        ensures
            self.current < self.matches@.len() ==> {
                &&& *final(d) == Loaded {
                    cursor: clamp_to_rows(
                        self.matches@[self.current as int].row,
                        old(d).rows@.len(),
                    ),
                    scroll_to_cursor: true,
                    ..*old(d)
                }
            },
            self.current >= self.matches@.len() ==> *final(d) == *old(d),
    {
        if self.current < self.matches.len() {
            let m = self.matches[self.current];
            let n = d.rows.len();
            let top = if n == 0 {
                0
            } else {
                n - 1
            };
            d.cursor = if m.row < top {
                m.row
            } else {
                top
            };
            d.scroll_to_cursor = true;
        }
    }

    /// Steps to the next hit, wrapping around.
    pub fn next(&mut self)
        ensures
            final(self).current == (if old(self).matches@.len() == 0 {
                old(self).current as int
            } else {
                next_index(old(self).current as int, old(self).matches@.len() as int)
            }),
            *final(self) == (Find { current: final(self).current, ..*old(self) }),
    {
        if self.matches.len() == 0 {
            return;
        }
        self.current = ((self.current as u128 + 1) % (self.matches.len() as u128)) as usize;
    }

    /// Steps to the previous hit, wrapping around.
    pub fn prev(&mut self)
        ensures
            final(self).current == (if old(self).matches@.len() == 0 {
                old(self).current as int
            } else {
                prev_index(old(self).current as int, old(self).matches@.len() as int)
            }),
            *final(self) == (Find { current: final(self).current, ..*old(self) }),
    {
        if self.matches.len() == 0 {
            return;
        }
        self.current = if self.current == 0 {
            self.matches.len() - 1
        } else {
            self.current - 1
        };
    }

    /// "k of n", "no matches", or nothing while the query is empty.
    pub fn status(&self) -> (r: String)
        requires
            self.matches@.len() > 0 ==> self.current < usize::MAX,
        ensures
            r@ == find_status_spec(self.query@, self.matches@.len(), self.current as nat),
    {
        if self.query.as_str().is_empty() {
            String::new()
        } else if self.matches.len() == 0 {
            let r = String::from_str("no matches");
            r
        } else {
            let mut s = String::new();
            push_decimal(&mut s, (self.current + 1) as u64);
            append_str(&mut s, " of ");
            push_decimal(&mut s, self.matches.len() as u64);
            proof {
                reveal_strlit(" of ");
            }
            s
        }
    }
}

/// Stepping forward then back from a hit returns to it, and so does
/// stepping back then forward.
pub proof fn law_find_next_prev_inverse(current: int, len: int)
    requires
        0 <= current < len,
    ensures
        prev_index(next_index(current, len), len) == current,
        next_index(prev_index(current, len), len) == current,
{
    if current + 1 < len {
        assert((current + 1) % len == current + 1) by (nonlinear_arith)
            requires
                0 <= current + 1 < len,
        ;
    } else {
        assert((current + 1) % len == 0) by (nonlinear_arith)
            requires
                current + 1 == len,
                len > 0,
        ;
    }
    if current == 0 {
        assert((len - 1 + 1) % len == 0) by (nonlinear_arith)
            requires
                len > 0,
        ;
    } else {
        assert((current - 1 + 1) % len == current) by (nonlinear_arith)
            requires
                0 < current < len,
        ;
    }
}

/// Every hit lies on the row it names and covers exactly the needle's
/// length, shifted one column right for the marker.
pub proof fn law_hits_cover_needle(hay: Seq<char>, needle: Seq<char>, from: nat)
    ensures
        forall|i: int|
            0 <= i < occurrences(hay, needle, from).len() ==> {
                let k = #[trigger] occurrences(hay, needle, from)[i];
                &&& from <= k
                &&& k + needle.len() <= hay.len()
                &&& hay.subrange(k as int, (k + needle.len()) as int) == needle
            },
    decreases hay.len() + 1 - from,
{
    if needle.len() == 0 || from > hay.len() {
    } else {
        let rest = hay.subrange(from as int, hay.len() as int);
        lemma_find_from_some(rest, needle, 0);
        match find(rest, needle) {
            Some(pos) => {
                law_hits_cover_needle(hay, needle, from + pos + needle.len());
                assert(rest.subrange(pos as int, (pos + needle.len()) as int) =~= hay.subrange(
                    (from + pos) as int,
                    (from + pos + needle.len()) as int,
                ));
                let occ = occurrences(hay, needle, from);
                assert forall|i: int| 0 <= i < occ.len() implies {
                    let k = #[trigger] occ[i];
                    &&& from <= k
                    &&& k + needle.len() <= hay.len()
                    &&& hay.subrange(k as int, (k + needle.len()) as int) == needle
                } by {
                    if i > 0 {
                        assert(occ[i] == occurrences(hay, needle, from + pos + needle.len())[i - 1]);
                    }
                }
            },
            None => {},
        }
    }
}

/// Search hits are the leftmost non-overlapping occurrences: each hit ends
/// before the next one starts, and no occurrence at or after `from` is
/// passed over, since every one of them starts inside some hit.
pub proof fn law_hits_leftmost_non_overlapping(hay: Seq<char>, needle: Seq<char>, from: nat)
    requires
        needle.len() > 0,
    ensures
        forall|i: int, j: int|
            0 <= i < j < occurrences(hay, needle, from).len() ==> #[trigger] occurrences(hay, needle, from)[i]
                + needle.len() <= #[trigger] occurrences(hay, needle, from)[j],
        forall|k: int|
            from <= k && #[trigger] occurs_at(hay, needle, k) ==> exists|i: int|
                0 <= i < occurrences(hay, needle, from).len() && #[trigger] occurrences(hay, needle, from)[i]
                    <= k < occurrences(hay, needle, from)[i] + needle.len(),
    decreases hay.len() + 1 - from,
{
    let occ = occurrences(hay, needle, from);
    if from > hay.len() {
        assert forall|k: int| from <= k && #[trigger] occurs_at(hay, needle, k) implies exists|i: int|
            0 <= i < occ.len() && #[trigger] occ[i] <= k < occ[i] + needle.len() by {
        }
    } else {
        let rest = hay.subrange(from as int, hay.len() as int);
        lemma_find_from_some(rest, needle, 0);
        match find(rest, needle) {
            Some(pos) => {
                let next = from + pos + needle.len();
                let tail = occurrences(hay, needle, next);
                law_hits_leftmost_non_overlapping(hay, needle, next);
                law_hits_cover_needle(hay, needle, next);
                assert(occ == seq![from + pos] + tail);
                assert forall|i: int, j: int| 0 <= i < j < occ.len() implies #[trigger] occ[i] + needle.len()
                    <= #[trigger] occ[j] by {
                    assert(occ[j] == tail[j - 1]);
                    if i > 0 {
                        assert(occ[i] == tail[i - 1]);
                    }
                }
                assert forall|k: int| from <= k && #[trigger] occurs_at(hay, needle, k) implies exists|i: int|
                    0 <= i < occ.len() && #[trigger] occ[i] <= k < occ[i] + needle.len() by {
                    let j = k - from;
                    assert(rest.subrange(j, j + needle.len()) =~= hay.subrange(k, k + needle.len()));
                    assert(occurs_at(rest, needle, j));
                    if k < next {
                        assert(occ[0] == from + pos);
                    } else {
                        let i2 = choose|i2: int|
                            0 <= i2 < tail.len() && #[trigger] tail[i2] <= k < tail[i2] + needle.len();
                        assert(occ[i2 + 1] == tail[i2]);
                    }
                }
            },
            None => {
                assert forall|k: int| from <= k && #[trigger] occurs_at(hay, needle, k) implies exists|i: int|
                    0 <= i < occ.len() && #[trigger] occ[i] <= k < occ[i] + needle.len() by {
                    let j = k - from;
                    assert(rest.subrange(j, j + needle.len()) =~= hay.subrange(k, k + needle.len()));
                    assert(occurs_at(rest, needle, j));
                }
            },
        }
    }
}

// ---------------------------------------------------------------------------
// Application state
// ---------------------------------------------------------------------------

/// Line and hunk discards apply immediately; only whole-file discards ask,
/// since those throw away every change at once and can delete an untracked
/// file outright.
#[derive(Clone, Debug)]
pub enum Confirm {
    DiscardFile { path: String, untracked: bool },
    DropStash { refname: String, label: String },
    /// Throw away a merge underway, resolutions included.
    AbortMerge,
}

/// Outcome of the last push, kept so its output can be shown in full.
#[derive(Clone, Debug)]
pub struct TaskOutcome {
    pub ok: bool,
    pub title: String,
    pub output: String,
}

/// How to put back what a discard threw away.
#[derive(Clone, Debug)]
pub enum UndoAction {
    /// Re-apply the discarded patch forwards onto the working tree.
    ApplyPatch(String),
    /// Rewrite a file that was deleted wholesale. Raw bytes rather than a patch
    /// so untracked binaries survive too.
    RestoreFile { path: String, bytes: Vec<u8> },
    /// Put a dropped stash entry back; its commit outlives the entry.
    RestoreStash { sha: String, message: String },
}

#[derive(Clone, Debug)]
pub struct UndoEntry {
    pub action: UndoAction,
    pub label: String,
}

/// What a change of mode asks to be loaded.
#[derive(Clone, Copy, PartialEq, Eq, Debug, Structural)]
pub enum Load {
    Nothing,
    Log,
    Stashes,
}

/// Everything the window shows and the user has chosen.
pub struct App {
    pub repo: Option<Repo>,
    pub status: Status,
    pub sel_file: Option<FileSel>,
    pub diff: Option<Loaded>,
    pub commit_msg: String,
    pub amend: bool,
    /// While amending: the commit the staged pane is measured against (the
    /// amended commit's parent, or the empty tree for a root commit).
    pub amend_base: Option<String>,
    /// While amending: what the rewritten commit will change relative to
    /// `amend_base`.
    pub amend_files: Vec<CommitFile>,
    /// The incoming branch while a merge stopped on conflicts is underway.
    pub merging: Option<String>,
    /// Leave never-committed files out of the unstaged pane.
    pub hide_untracked: bool,
    pub error: Option<String>,
    pub info: Option<String>,
    pub git_version: String,
    pub recent: Vec<String>,
    pub open_input: String,
    pub confirm: Option<Confirm>,
    pub branches: Vec<String>,
    pub new_branch: String,
    pub show_new_branch: bool,
    /// Set when the diff should regain keyboard focus next frame.
    pub focus_diff: bool,
    /// Most recent discards, newest last. Discards are the only destructive
    /// operation, so they are the only thing worth being able to take back.
    pub undo: Vec<UndoEntry>,
    pub mode: Mode,
    pub find: Find,
    // History mode.
    pub commits: Vec<CommitInfo>,
    pub commit_filter: String,
    pub sel_commit: Option<String>,
    pub commit_files: Vec<CommitFile>,
    pub commit_meta: Option<CommitMeta>,
    pub log_limit: usize,
    pub log_all_refs: bool,
    // Push.
    pub remotes: Vec<String>,
    pub show_push: bool,
    pub push_remote: String,
    pub push_set_upstream: bool,
    pub push_force_lease: bool,
    pub push_tags: bool,
    pub outcome: Option<TaskOutcome>,
    // Stashes.
    pub stashes: Vec<StashEntry>,
    pub stash_filter: String,
    pub sel_stash: Option<usize>,
    pub stash_files: Vec<StashFile>,
    pub show_stash_dialog: bool,
    pub stash_message: String,
    pub stash_untracked: bool,
}

impl Default for App {
    fn default() -> (a: App)
        ensures
            a.repo is None,
            a.status@ == empty_status(),
            a.sel_file is None,
            a.diff is None,
            a.commit_msg@.len() == 0,
            !a.amend,
            a.amend_base is None,
            a.amend_files@.len() == 0,
            a.merging is None,
            !a.hide_untracked,
            a.error is None,
            a.info is None,
            a.undo@.len() == 0,
            a.mode == Mode::WorkingTree,
            a.commits@.len() == 0,
            a.log_limit == 200,
            !a.log_all_refs,
            a.stashes@.len() == 0,
            a.sel_stash is None,
            a.stash_untracked,
    {
        App {
            repo: None,
            status: Status::default(),
            sel_file: None,
            diff: None,
            commit_msg: String::new(),
            amend: false,
            amend_base: None,
            amend_files: Vec::new(),
            merging: None,
            hide_untracked: false,
            error: None,
            info: None,
            git_version: String::new(),
            recent: Vec::new(),
            open_input: String::new(),
            confirm: None,
            branches: Vec::new(),
            new_branch: String::new(),
            show_new_branch: false,
            focus_diff: false,
            undo: Vec::new(),
            mode: Mode::WorkingTree,
            find: Find::default(),
            commits: Vec::new(),
            commit_filter: String::new(),
            sel_commit: None,
            commit_files: Vec::new(),
            commit_meta: None,
            log_limit: 200,
            log_all_refs: false,
            remotes: Vec::new(),
            show_push: false,
            push_remote: String::new(),
            push_set_upstream: false,
            push_force_lease: false,
            push_tags: false,
            outcome: None,
            stashes: Vec::new(),
            stash_filter: String::new(),
            sel_stash: None,
            stash_files: Vec::new(),
            show_stash_dialog: false,
            stash_message: String::new(),
            stash_untracked: true,
        }
    }
}

/// The text of the branch indicator.
pub open spec fn branch_label_spec(st: StatusV) -> Seq<char> {
    if st.detached {
        "detached HEAD"@
    } else {
        let base = match st.branch {
            Some(b) => b,
            None => "(no branch)"@,
        };
        let with_unborn = if st.unborn {
            base + " (unborn)"@
        } else {
            base
        };
        if st.ahead > 0 || st.behind > 0 {
            with_unborn + "  ↑"@ + signed_decimal(st.ahead as int) + " ↓"@ + signed_decimal(
                st.behind as int,
            )
        } else {
            with_unborn
        }
    }
}

/// Of the selected pairs, how many show a line of kind `k`.
pub open spec fn kind_count(d: Loaded, pairs: Seq<(usize, usize)>, k: LineKind) -> nat
    decreases pairs.len(),
{
    if pairs.len() == 0 {
        0
    } else {
        let (h, l) = pairs.last();
        let here: nat = if h < d.fd@.hunks.len() && l < d.fd@.hunks[h as int].lines.len()
            && d.fd@.hunks[h as int].lines[l as int].kind == k {
            1
        } else {
            0
        };
        kind_count(d, pairs.drop_last(), k) + here
    }
}

/// The summary of a line selection: how many lines, additions and deletions.
pub open spec fn summary_text(n: nat, adds: nat, dels: nat) -> Seq<char> {
    decimal(n) + " line(s) selected  +"@ + decimal(adds) + " −"@ + decimal(dels)
}

/// The entries of the commit list the filter box lets through.
pub open spec fn commits_matching(cs: Seq<CommitInfo>, needle: Seq<char>) -> Seq<CommitInfo>
    decreases cs.len(),
{
    if cs.len() == 0 {
        seq![]
    } else if commit_matches(cs.last()@, needle) {
        commits_matching(cs.drop_last(), needle).push(cs.last())
    } else {
        commits_matching(cs.drop_last(), needle)
    }
}

/// The entries of the stash list the filter box lets through.
pub open spec fn stashes_matching(ss: Seq<StashEntry>, needle: Seq<char>) -> Seq<StashEntry>
    decreases ss.len(),
{
    if ss.len() == 0 {
        seq![]
    } else if stash_matches(ss.last()@, needle) {
        stashes_matching(ss.drop_last(), needle).push(ss.last())
    } else {
        stashes_matching(ss.drop_last(), needle)
    }
}

/// The undo history after recording one more discard: the oldest entry is
/// dropped once the limit is passed.
pub open spec fn undo_after(undo: Seq<UndoEntry>, e: UndoEntry) -> Seq<UndoEntry> {
    if undo.len() + 1 > UNDO_LIMIT {
        undo.push(e).drop_first()
    } else {
        undo.push(e)
    }
}

impl App {
    /// Which operation the primary action performs, given the visible pane.
    pub fn primary_op(&self) -> (r: Option<Op>)
        ensures
            r == (match self.sel_file {
                Some(s) => pane_op_spec(s.pane),
                None => None,
            }),
    {
        match &self.sel_file {
            Some(s) => pane_op(s.pane),
            None => None,
        }
    }

    pub fn read_only(&self) -> (r: bool)
        ensures
            r == (match self.sel_file {
                Some(s) => pane_read_only(s.pane),
                None => false,
            }),
    {
        match &self.sel_file {
            Some(s) => s.pane.read_only(),
            None => false,
        }
    }

    /// A commit can be made now: see `commit_problem`.
    pub fn can_commit(&self) -> (r: bool)
        ensures
            r == (commit_problem_spec(*self) is None),
    {
        self.commit_problem().is_none()
    }

    pub fn branch_label(&self) -> (r: String)
        ensures
            r@ == branch_label_spec(self.status@),
    {
        if self.status.detached {
            return String::from_str("detached HEAD");
        }
        let mut s = match &self.status.branch {
            Some(b) => b.clone(),
            None => String::from_str("(no branch)"),
        };
        if self.status.unborn {
            append_str(&mut s, " (unborn)");
        }
        if self.status.ahead > 0 || self.status.behind > 0 {
            append_str(&mut s, "  ↑");
            push_signed_decimal(&mut s, self.status.ahead);
            append_str(&mut s, " ↓");
            push_signed_decimal(&mut s, self.status.behind);
        }
        s
    }

    /// Summary of what the current line selection would affect.
    pub fn selection_summary(&self) -> (r: Option<String>)
        ensures
            match self.diff {
                None => r is None,
                Some(d) => {
                    let n = sel_count(d, d.rows@.len() as int);
                    let pairs = sel_pairs(d, d.rows@.len() as int);
                    if n == 0 {
                        r is None
                    } else {
                        r matches Some(t) && t@ == summary_text(
                            n,
                            kind_count(d, pairs, LineKind::Addition),
                            kind_count(d, pairs, LineKind::Deletion),
                        )
                    }
                },
            },
    {
        let d = match &self.diff {
            Some(d) => d,
            None => {
                return None;
            },
        };
        let n = d.selected_change_count();
        if n == 0 {
            return None;
        }
        let pairs = d.selected_pairs();
        let mut adds: usize = 0;
        let mut dels: usize = 0;
        let mut i: usize = 0;
        while i < pairs.len()
            invariant
                i <= pairs@.len(),
                adds == kind_count(*d, pairs@.subrange(0, i as int), LineKind::Addition),
                dels == kind_count(*d, pairs@.subrange(0, i as int), LineKind::Deletion),
                adds <= i,
                dels <= i,
            decreases pairs@.len() - i,
        {
            let (h, l) = pairs[i];
            proof {
                assert(pairs@.subrange(0, i + 1).drop_last() =~= pairs@.subrange(0, i as int));
                assert(pairs@.subrange(0, i + 1).last() == pairs@[i as int]);
            }
            if h < d.fd.hunks.len() && l < d.fd.hunks[h].lines.len() {
                proof {
                    assert(d.fd@.hunks[h as int] == d.fd.hunks@[h as int]@);
                    assert(d.fd@.hunks[h as int].lines[l as int] == d.fd.hunks@[h as int].lines@[
                        l as int
                    ]@);
                }
                let k = d.fd.hunks[h].lines[l].kind;
                if k == LineKind::Addition {
                    adds += 1;
                } else if k == LineKind::Deletion {
                    dels += 1;
                }
            }
            i += 1;
        }
        proof {
            assert(pairs@.subrange(0, i as int) =~= pairs@);
        }
        let mut t = String::new();
        push_decimal(&mut t, n as u64);
        append_str(&mut t, " line(s) selected  +");
        push_decimal(&mut t, adds as u64);
        append_str(&mut t, " −");
        push_decimal(&mut t, dels as u64);
        Some(t)
    }

    /// The commits the filter box lets through.
    pub fn filtered_commits(&self) -> (r: Vec<&CommitInfo>)
        ensures
            r@.map_values(|c: &CommitInfo| *c) == commits_matching(
                self.commits@,
                lowercase(trim(self.commit_filter@)),
            ),
    {
        let needle = to_lowercase(string_of(&trim_exec(&chars_of(self.commit_filter.as_str()))).as_str());
        let mut out: Vec<&CommitInfo> = Vec::new();
        let mut i: usize = 0;
        while i < self.commits.len()
            invariant
                i <= self.commits@.len(),
                needle@ == lowercase(trim(self.commit_filter@)),
                out@.map_values(|c: &CommitInfo| *c) == commits_matching(
                    self.commits@.subrange(0, i as int),
                    needle@,
                ),
            decreases self.commits@.len() - i,
        {
            proof {
                assert(self.commits@.subrange(0, i + 1).drop_last() =~= self.commits@.subrange(
                    0,
                    i as int,
                ));
            }
            let ghost before = out@;
            let c = &self.commits[i];
            if c.matches(needle.as_str()) {
                out.push(c);
                assert(out@.map_values(|c: &CommitInfo| *c) =~= before.map_values(
                    |c: &CommitInfo| *c,
                ).push(*c));
            }
            i += 1;
        }
        assert(self.commits@.subrange(0, i as int) =~= self.commits@);
        out
    }

    /// The stashes the filter box lets through.
    pub fn filtered_stashes(&self) -> (r: Vec<&StashEntry>)
        ensures
            r@.map_values(|s: &StashEntry| *s) == stashes_matching(
                self.stashes@,
                lowercase(trim(self.stash_filter@)),
            ),
    {
        let needle = to_lowercase(string_of(&trim_exec(&chars_of(self.stash_filter.as_str()))).as_str());
        let mut out: Vec<&StashEntry> = Vec::new();
        let mut i: usize = 0;
        while i < self.stashes.len()
            invariant
                i <= self.stashes@.len(),
                needle@ == lowercase(trim(self.stash_filter@)),
                out@.map_values(|s: &StashEntry| *s) == stashes_matching(
                    self.stashes@.subrange(0, i as int),
                    needle@,
                ),
            decreases self.stashes@.len() - i,
        {
            proof {
                assert(self.stashes@.subrange(0, i + 1).drop_last() =~= self.stashes@.subrange(
                    0,
                    i as int,
                ));
            }
            let ghost before = out@;
            let e = &self.stashes[i];
            if e.matches(needle.as_str()) {
                out.push(e);
                assert(out@.map_values(|s: &StashEntry| *s) =~= before.map_values(
                    |s: &StashEntry| *s,
                ).push(*e));
            }
            i += 1;
        }
        assert(self.stashes@.subrange(0, i as int) =~= self.stashes@);
        out
    }

    pub fn selected_stash(&self) -> (r: Option<&StashEntry>)
        ensures
            match self.sel_stash {
                Some(i) => if i < self.stashes@.len() {
                    r == Some(&self.stashes@[i as int])
                } else {
                    r is None
                },
                None => r is None,
            },
    {
        match self.sel_stash {
            Some(i) => if i < self.stashes.len() {
                Some(&self.stashes[i])
            } else {
                None
            },
            None => None,
        }
    }

    /// Records a discard that can be taken back, forgetting the oldest once
    /// the history is full.
    pub fn push_undo(&mut self, action: UndoAction, label: String)
        ensures
            final(self).undo@ == undo_after(old(self).undo@, UndoEntry { action, label }),
            *final(self) == (App { undo: final(self).undo, ..*old(self) }),
    {
        self.undo.push(UndoEntry { action, label });
        if self.undo.len() > UNDO_LIMIT {
            self.undo.remove(0);
        }
    }

    /// Takes the newest discard off the history, to be put back; a failed
    /// attempt hands it to `undo_finished`, which keeps it.
    pub fn take_undo(&mut self) -> (r: Option<UndoEntry>)
        ensures
            old(self).undo@.len() == 0 ==> r is None && *final(self) == *old(self),
            old(self).undo@.len() > 0 ==> {
                &&& r == Some(old(self).undo@.last())
                &&& final(self).undo@ == old(self).undo@.drop_last()
                &&& *final(self) == (App { undo: final(self).undo, ..*old(self) })
            },
    {
        if self.undo.len() == 0 {
            return None;
        }
        self.undo.pop()
    }

    pub fn undo_label(&self) -> (r: Option<String>)
        ensures
            match r {
                Some(l) => self.undo@.len() > 0 && l@ == self.undo@.last().label@,
                None => self.undo@.len() == 0,
            },
    {
        let n = self.undo.len();
        if n == 0 {
            None
        } else {
            Some(self.undo[n - 1].label.clone())
        }
    }
}

/// The undo history never holds more than its limit, and the discard just
/// recorded is the one an undo takes back first.
pub proof fn law_undo_bounded_newest_last(undo: Seq<UndoEntry>, e: UndoEntry)
    requires
        undo.len() <= UNDO_LIMIT,
    ensures
        undo_after(undo, e).len() <= UNDO_LIMIT,
        undo_after(undo, e).last() == e,
        undo.len() < UNDO_LIMIT ==> undo_after(undo, e).drop_last() == undo,
{
    if undo.len() < UNDO_LIMIT {
        assert(undo.push(e).drop_last() =~= undo);
    }
}

/// The first status entry for `path`, if any.
pub open spec fn entry_for(entries: Seq<Entry>, path: Seq<char>) -> Option<Entry>
    decreases entries.len(),
{
    if entries.len() == 0 {
        None
    } else if entries[0].path@ == path {
        Some(entries[0])
    } else {
        entry_for(entries.drop_first(), path)
    }
}

/// Some status entry is an untracked file.
pub open spec fn any_untracked(entries: Seq<EntryV>) -> bool {
    exists|i: int| 0 <= i < entries.len() && entries[i].untracked
}

/// The remote the branch's upstream names, e.g. "origin" for "origin/main".
pub open spec fn upstream_remote_spec(upstream: Option<Seq<char>>) -> Option<Seq<char>> {
    match upstream {
        Some(u) => match split_once(u, "/"@) {
            Some((r, _)) => Some(r),
            None => None,
        },
        None => None,
    }
}

/// The remote a push is offered to: the branch's own upstream when it is
/// configured, then `origin`, then whichever remote comes first.
pub open spec fn push_remote_choice(upstream: Option<Seq<char>>, remotes: Seq<Seq<char>>) -> Seq<
    char,
> {
    match upstream_remote_spec(upstream) {
        Some(r) if remotes.contains(r) => r,
        _ => if remotes.contains("origin"@) {
            "origin"@
        } else if remotes.len() > 0 {
            remotes[0]
        } else {
            seq![]
        },
    }
}

/// Why the push dialog cannot open, if it cannot.
pub open spec fn push_refusal(st: StatusV, remotes: Seq<Seq<char>>) -> Option<Seq<char>> {
    if st.detached {
        Some("Cannot push a detached HEAD. Check out a branch first."@)
    } else if st.branch is None || st.unborn {
        Some("Nothing to push yet — make a commit first."@)
    } else if remotes.len() == 0 {
        Some("This repository has no remotes. Add one with `git remote add`."@)
    } else {
        None
    }
}

/// The commit message after adding a sign-off line: nothing changes when the
/// line is already there; otherwise the line goes after a blank line.
pub open spec fn signed_off(msg: Seq<char>, line: Seq<char>) -> Seq<char> {
    if contains(msg, line) {
        msg
    } else {
        let a = if msg.len() > 0 && msg.last() != '\n' {
            msg.push('\n')
        } else {
            msg
        };
        let b = if a.len() > 0 && !ends_with(a, "\n\n"@) {
            a.push('\n')
        } else {
            a
        };
        b + line + "\n"@
    }
}

/// What a finished push leaves behind: its outcome, the status line, and
/// whether the repository should be rescanned.
pub open spec fn push_outcome_spec(label: Seq<char>, result: Option<Result<Seq<char>, Seq<char>>>) -> (
    Option<(bool, Seq<char>, Seq<char>)>,
    Option<Seq<char>>,
    Option<Seq<char>>,
    bool,
) {
    match result {
        Some(Ok(out)) => (
            Some(
                (
                    true,
                    "Push complete"@,
                    if trim(out).len() == 0 {
                        "Done."@
                    } else {
                        trim(out)
                    },
                ),
            ),
            Some("Push complete."@),
            None,
            true,
        ),
        Some(Err(out)) => (Some((false, "Push failed"@, out)), None, Some(label + " failed."@), false),
        None => (None, None, Some("The push task ended unexpectedly."@), false),
    }
}

/// The first line of what `git commit` printed, or "committed".
pub open spec fn commit_summary(out: Seq<char>) -> Seq<char> {
    if lines(out).len() > 0 {
        lines(out)[0]
    } else {
        "committed"@
    }
}

/// The view of an optional string.
pub open spec fn opt_text(o: Option<String>) -> Option<Seq<char>> {
    match o {
        Some(s) => Some(s@),
        None => None,
    }
}

/// The outcome of a finished task, as plain values.
pub open spec fn outcome_view(o: Option<TaskOutcome>) -> Option<(bool, Seq<char>, Seq<char>)> {
    match o {
        Some(t) => Some((t.ok, t.title@, t.output@)),
        None => None,
    }
}

/// The view of an optional result of text.
pub open spec fn result_text(r: Option<Result<String, String>>) -> Option<Result<Seq<char>, Seq<char>>> {
    match r {
        Some(Ok(a)) => Some(Ok(a@)),
        Some(Err(e)) => Some(Err(e@)),
        None => None,
    }
}

impl App {
    fn clear_view(&mut self)
        ensures
            *final(self) == (App { sel_file: None, diff: None, ..*old(self) }),
    {
        self.sel_file = None;
        self.diff = None;
    }

    pub fn clear_commit_selection(&mut self)
        ensures
            final(self).commit_files@.len() == 0,
            *final(self) == (App {
                sel_commit: None,
                commit_files: final(self).commit_files,
                commit_meta: None,
                sel_file: None,
                diff: None,
                ..*old(self)
            }),
    {
        self.sel_commit = None;
        self.commit_files.clear();
        self.commit_meta = None;
        self.sel_file = None;
        self.diff = None;
    }

    pub fn clear_stash_selection(&mut self)
        ensures
            final(self).stash_files@.len() == 0,
            *final(self) == (if (match old(self).sel_file {
                Some(s) => s.pane == Pane::Stash,
                None => false,
            }) {
                App {
                    sel_stash: None,
                    stash_files: final(self).stash_files,
                    sel_file: None,
                    diff: None,
                    ..*old(self)
                }
            } else {
                App { sel_stash: None, stash_files: final(self).stash_files, ..*old(self) }
            }),
    {
        self.sel_stash = None;
        self.stash_files.clear();
        let on_stash = match &self.sel_file {
            Some(s) => s.pane == Pane::Stash,
            None => false,
        };
        if on_stash {
            self.sel_file = None;
            self.diff = None;
        }
    }

    /// Switches mode, dropping the file selection, and says what the new mode
    /// needs loaded: the log the first time history is shown, the stash list
    /// every time.
    pub fn set_mode(&mut self, mode: Mode) -> (r: Load)
        ensures
            old(self).mode == mode ==> *final(self) == *old(self) && r == Load::Nothing,
            old(self).mode != mode ==> {
                &&& final(self).find.matches@.len() == 0
                &&& *final(self) == (App {
                    mode,
                    sel_file: None,
                    diff: None,
                    find: Find { matches: final(self).find.matches, ..old(self).find },
                    ..*old(self)
                })
                &&& r == (if mode == Mode::History && old(self).commits@.len() == 0 {
                    Load::Log
                } else if mode == Mode::Stashes {
                    Load::Stashes
                } else {
                    Load::Nothing
                })
            },
    {
        if self.mode == mode {
            return Load::Nothing;
        }
        self.mode = mode;
        self.sel_file = None;
        self.diff = None;
        self.find.matches.clear();
        if mode == Mode::History && self.commits.len() == 0 {
            Load::Log
        } else if mode == Mode::Stashes {
            Load::Stashes
        } else {
            Load::Nothing
        }
    }

    /// Recomputes the search over the shown diff and moves its cursor onto
    /// the first hit.
    pub fn find_recompute(&mut self)
        ensures
            final(self).find == (Find { matches: final(self).find.matches, current: 0, ..old(self).find }),
            final(self).find.matches@ == hits_for(old(self).diff, old(self).find),
            final(self).diff == jumped(old(self).diff, final(self).find),
            *final(self) == (App { find: final(self).find, diff: final(self).diff, ..*old(self) }),
    {
        self.find.recompute(self.diff.as_ref());
        self.jump_to_match();
    }

    /// Moves the diff's cursor onto the current hit.
    fn jump_to_match(&mut self)
        ensures
            final(self).find == old(self).find,
            match (old(self).diff, final(self).diff) {
                (Some(a), Some(b)) => if old(self).find.current < old(self).find.matches@.len() {
                    b == Loaded {
                        cursor: clamp_to_rows(
                            old(self).find.matches@[old(self).find.current as int].row,
                            a.rows@.len(),
                        ),
                        scroll_to_cursor: true,
                        ..a
                    }
                } else {
                    b == a
                },
                (None, None) => true,
                _ => false,
            },
            *final(self) == (App { diff: final(self).diff, ..*old(self) }),
    {
        let taken = self.diff.take();
        match taken {
            Some(mut d) => {
                self.find.jump(&mut d);
                self.diff = Some(d);
            },
            None => {},
        }
    }

    /// Opens the search bar, asks for keyboard focus, and searches again.
    pub fn find_open(&mut self)
        ensures
            final(self).find == (Find {
                open: true,
                request_focus: true,
                matches: final(self).find.matches,
                current: 0,
                ..old(self).find
            }),
            final(self).find.matches@ == hits_for(old(self).diff, old(self).find),
            final(self).diff == jumped(old(self).diff, final(self).find),
            *final(self) == (App { find: final(self).find, diff: final(self).diff, ..*old(self) }),
    {
        self.find.open = true;
        self.find.request_focus = true;
        self.find_recompute();
    }

    /// Closes the search bar and drops its hits; the query stays.
    pub fn find_close(&mut self)
        ensures
            final(self).find.matches@.len() == 0,
            final(self).find == (Find { open: false, matches: final(self).find.matches, ..old(self).find }),
            *final(self) == (App { find: final(self).find, ..*old(self) }),
    {
        self.find.open = false;
        self.find.matches.clear();
    }

    /// Steps to the next hit, wrapping around, and moves the diff's cursor
    /// onto it; the line selection stays. With no hits nothing changes.
    pub fn find_next(&mut self)
        ensures
            old(self).find.matches@.len() == 0 ==> *final(self) == *old(self),
            old(self).find.matches@.len() > 0 ==> {
                &&& final(self).find == (Find {
                    current: next_index(
                        old(self).find.current as int,
                        old(self).find.matches@.len() as int,
                    ) as usize,
                    ..old(self).find
                })
                &&& final(self).diff == jumped(old(self).diff, final(self).find)
                &&& *final(self) == (App { find: final(self).find, diff: final(self).diff, ..*old(self) })
            },
    {
        if self.find.matches.len() == 0 {
            return;
        }
        self.find.next();
        self.jump_to_match();
    }

    /// Steps to the previous hit, wrapping around, and moves the diff's
    /// cursor onto it; the line selection stays. With no hits nothing
    /// changes.
    pub fn find_prev(&mut self)
        ensures
            old(self).find.matches@.len() == 0 ==> *final(self) == *old(self),
            old(self).find.matches@.len() > 0 ==> {
                &&& final(self).find == (Find {
                    current: prev_index(
                        old(self).find.current as int,
                        old(self).find.matches@.len() as int,
                    ) as usize,
                    ..old(self).find
                })
                &&& final(self).diff == jumped(old(self).diff, final(self).find)
                &&& *final(self) == (App { find: final(self).find, diff: final(self).diff, ..*old(self) })
            },
    {
        if self.find.matches.len() == 0 {
            return;
        }
        self.find.prev();
        self.jump_to_match();
    }

    pub fn find_status(&self) -> (r: String)
        requires
            self.find.matches@.len() > 0 ==> self.find.current < usize::MAX,
        ensures
            r@ == find_status_spec(
                self.find.query@,
                self.find.matches@.len(),
                self.find.current as nat,
            ),
    {
        self.find.status()
    }

    /// Opens the stash dialog, or explains that there is nothing to stash.
    pub fn open_stash_dialog(&mut self)
        ensures
            filter_entries(old(self).status@.entries, |e: EntryV| is_unstaged(e)).len() == 0
                && filter_entries(old(self).status@.entries, |e: EntryV| is_staged(e)).len() == 0
                ==> (final(self).error matches Some(e) && e@
                == "Nothing to stash — the working tree is clean."@ && *final(self) == (App {
                error: final(self).error,
                ..*old(self)
            })),
            !(filter_entries(old(self).status@.entries, |e: EntryV| is_unstaged(e)).len() == 0
                && filter_entries(old(self).status@.entries, |e: EntryV| is_staged(e)).len() == 0)
                ==> {
                &&& final(self).stash_message@.len() == 0
                &&& *final(self) == (App {
                    stash_message: final(self).stash_message,
                    stash_untracked: any_untracked(old(self).status@.entries),
                    show_stash_dialog: true,
                    ..*old(self)
                })
            },
    {
        let unstaged = self.status.unstaged();
        let staged = self.status.staged();
        proof {
            assert(unstaged@.map_values(|e: &Entry| e@).len() == unstaged@.len());
            assert(staged@.map_values(|e: &Entry| e@).len() == staged@.len());
        }
        if unstaged.len() == 0 && staged.len() == 0 {
            self.error = Some(String::from_str("Nothing to stash — the working tree is clean."));
            return;
        }
        self.stash_message = String::new();
        let mut any = false;
        let mut i: usize = 0;
        while i < self.status.entries.len()
            invariant
                i <= self.status.entries@.len(),
                any == exists|j: int| 0 <= j < i && self.status@.entries[j].untracked,
            decreases self.status.entries@.len() - i,
        {
            proof {
                assert(self.status@.entries[i as int] == self.status.entries@[i as int]@);
            }
            if self.status.entries[i].untracked {
                any = true;
            }
            i += 1;
        }
        self.stash_untracked = any;
        self.show_stash_dialog = true;
    }
}

/// A status entry copied field by field.
pub(crate) fn copy_entry(e: &Entry) -> (r: Entry)
    ensures
        r@ == e@,
{
    Entry {
        path: e.path.clone(),
        orig_path: clone_opt(&e.orig_path),
        index: e.index,
        worktree: e.worktree,
        unmerged: e.unmerged,
        untracked: e.untracked,
    }
}

/// Some entry of `list` is at `path`.
fn lists_path(list: &Vec<Entry>, path: &str) -> (r: bool)
    ensures
        r == entry_views(list@).map_values(|e: EntryV| e.path).contains(path@),
{
    let ghost lv = entry_views(list@).map_values(|e: EntryV| e.path);
    let p = chars_of(path);
    let mut i: usize = 0;
    while i < list.len()
        invariant
            i <= list@.len(),
            lv == entry_views(list@).map_values(|e: EntryV| e.path),
            p@ == path@,
            forall|j: int| 0 <= j < i ==> lv[j] != path@,
        decreases list@.len() - i,
    {
        proof {
            assert(lv[i as int] == list@[i as int].path@);
        }
        if crate::text::chars_eq(&chars_of(list[i].path.as_str()), &p) {
            assert(lv[i as int] == path@);
            assert(lv.contains(path@));
            return true;
        }
        i += 1;
    }
    proof {
        if lv.contains(path@) {
            let j = choose|j: int| 0 <= j < lv.len() && lv[j] == path@;
            assert(lv[j] != path@);
        }
    }
    false
}

fn first_entry(entries: &Vec<Entry>, path: &str) -> (r: Option<usize>)
    ensures
        match (r, entry_for(entries@, path@)) {
            (Some(i), Some(e)) => i < entries@.len() && entries@[i as int] == e,
            (None, None) => true,
            _ => false,
        },
{
    let p = chars_of(path);
    let mut i: usize = 0;
    assert(entries@.subrange(0, entries@.len() as int) =~= entries@);
    while i < entries.len()
        invariant
            i <= entries@.len(),
            p@ == path@,
            entry_for(entries@, path@) == entry_for(
                entries@.subrange(i as int, entries@.len() as int),
                path@,
            ),
        decreases entries@.len() - i,
    {
        let ghost rest = entries@.subrange(i as int, entries@.len() as int);
        proof {
            assert(rest[0] == entries@[i as int]);
            assert(rest.drop_first() =~= entries@.subrange(i + 1, entries@.len() as int));
        }
        if crate::text::chars_eq(&chars_of(entries[i].path.as_str()), &p) {
            return Some(i);
        }
        i += 1;
    }
    None
}

fn sign_off_text(msg: &Vec<char>, l: &Vec<char>) -> (r: Vec<char>)
    requires
        !contains(msg@, l@),
    ensures
        r@ == signed_off(msg@, l@),
{
    let mut a = slice_of(msg, 0, msg.len());
    assert(a@ =~= msg@);
    if a.len() > 0 && a[a.len() - 1] != '\n' {
        a.push('\n');
    }
    let ghost a1 = a@;
    let nn = chars_of("\n\n");
    proof {
        reveal_strlit("\n\n");
        reveal_strlit("\n");
    }
    if a.len() > 0 && !ends_with_exec(&a, &nn) {
        a.push('\n');
    }
    let ghost b = a@;
    extend_chars(&mut a, l);
    a.push('\n');
    assert(a@ =~= b + l@ + "\n"@);
    a
}

/// The label a stash is confirmed with before dropping it.
pub open spec fn drop_label(e: StashEntryV) -> Seq<char> {
    stash_ref(e.index) + " — "@ + stash_message(e.subject)
}

impl App {
    /// Asks for confirmation before dropping the stash at `index`.
    pub fn ask_drop_stash(&mut self, index: usize)
        ensures
            index >= old(self).stashes@.len() ==> *final(self) == *old(self),
            index < old(self).stashes@.len() ==> {
                let e = old(self).stashes@[index as int]@;
                &&& final(self).confirm matches Some(Confirm::DropStash { refname, label }) && refname@
                    == stash_ref(e.index) && label@ == drop_label(e)
                &&& *final(self) == (App { confirm: final(self).confirm, ..*old(self) })
            },
    {
        if index >= self.stashes.len() {
            return;
        }
        let e = &self.stashes[index];
        let refname = e.refname();
        let mut label = e.refname();
        append_str(&mut label, " — ");
        let m = e.message();
        append_str(&mut label, m.as_str());
        self.confirm = Some(Confirm::DropStash { refname, label });
    }

    /// Asks for confirmation before discarding every change to `path`.
    pub fn ask_discard_file(&mut self, path: &str)
        ensures
            final(self).confirm matches Some(Confirm::DiscardFile { path: p, untracked }) && p@ == path@
                && untracked == (match entry_for(old(self).status.entries@, path@) {
                Some(e) => e.untracked,
                None => false,
            }),
            *final(self) == (App { confirm: final(self).confirm, ..*old(self) }),
    {
        let untracked = match first_entry(&self.status.entries, path) {
            Some(i) => self.status.entries[i].untracked,
            None => false,
        };
        let p = string_of(&chars_of(path));
        self.confirm = Some(Confirm::DiscardFile { path: p, untracked });
    }

    /// Takes the pending confirmation, which the caller then carries out.
    pub fn confirm_yes(&mut self) -> (r: Option<Confirm>)
        ensures
            r == old(self).confirm,
            *final(self) == (App { confirm: None, ..*old(self) }),
    {
        self.confirm.take()
    }

    /// The remote the current branch already tracks, e.g. "origin/main" -> "origin".
    pub fn upstream_remote(&self) -> (r: Option<String>)
        ensures
            opt_text(r) == upstream_remote_spec(opt_text(self.status.upstream)),
    {
        match &self.status.upstream {
            Some(u) => {
                let slash = chars_of("/");
                proof {
                    reveal_strlit("/");
                }
                match split_once_exec(&chars_of(u.as_str()), &slash) {
                    Some((r, _)) => Some(string_of(&r)),
                    None => None,
                }
            },
            None => None,
        }
    }

    /// Opens the push dialog with the remote preselected, or explains why a
    /// push is not possible.
    #[verifier::rlimit(50)]
    pub fn open_push_dialog(&mut self)
        ensures
            match push_refusal(old(self).status@, views(old(self).remotes@)) {
                Some(msg) => final(self).error matches Some(e) && e@ == msg && *final(self) == (App {
                    error: final(self).error,
                    ..*old(self)
                }),
                None => {
                    &&& final(self).push_remote@ == push_remote_choice(
                        opt_text(old(self).status.upstream),
                        views(old(self).remotes@),
                    )
                    &&& *final(self) == (App {
                        push_remote: final(self).push_remote,
                        push_set_upstream: old(self).status.upstream is None,
                        push_force_lease: false,
                        push_tags: false,
                        show_push: true,
                        ..*old(self)
                    })
                },
            },
    {
        if self.status.detached {
            self.error = Some(
                String::from_str("Cannot push a detached HEAD. Check out a branch first."),
            );
            return;
        }
        if self.status.branch.is_none() || self.status.unborn {
            self.error = Some(String::from_str("Nothing to push yet — make a commit first."));
            return;
        }
        if self.remotes.len() == 0 {
            self.error = Some(
                String::from_str("This repository has no remotes. Add one with `git remote add`."),
            );
            return;
        }
        let remote = self.choose_push_remote();
        self.push_remote = remote;
        self.push_set_upstream = self.status.upstream.is_none();
        self.push_force_lease = false;
        self.push_tags = false;
        self.show_push = true;
    }

    /// Prefer the branch's own upstream, then origin, then whatever exists.
    fn choose_push_remote(&self) -> (r: String)
        requires
            self.remotes@.len() > 0,
        ensures
            r@ == push_remote_choice(opt_text(self.status.upstream), views(self.remotes@)),
    {
        let up = self.upstream_remote();
        match up {
            Some(r) => {
                if self.has_remote(r.as_str()) {
                    return r;
                }
            },
            None => {},
        }
        proof {
            reveal_strlit("origin");
        }
        if self.has_remote("origin") {
            String::from_str("origin")
        } else {
            proof {
                assert(views(self.remotes@)[0] == self.remotes@[0]@);
            }
            self.remotes[0].clone()
        }
    }

    fn has_remote(&self, name: &str) -> (r: bool)
        ensures
            r == views(self.remotes@).contains(name@),
    {
        let n = chars_of(name);
        let ghost rv = views(self.remotes@);
        let mut i: usize = 0;
        while i < self.remotes.len()
            invariant
                i <= self.remotes@.len(),
                rv == views(self.remotes@),
                n@ == name@,
                forall|j: int| 0 <= j < i ==> rv[j] != name@,
            decreases self.remotes@.len() - i,
        {
            if crate::text::chars_eq(&chars_of(self.remotes[i].as_str()), &n) {
                assert(rv[i as int] == name@);
                return true;
            }
            i += 1;
        }
        proof {
            if rv.contains(name@) {
                let j = choose|j: int| 0 <= j < rv.len() && rv[j] == name@;
                assert(rv[j] != name@);
            }
        }
        false
    }

    /// The options of the push the dialog describes, or why there is none.
    pub fn push_options(&self) -> (r: Result<PushOptions, String>)
        ensures
            match (r, self.status.branch) {
                (Ok(o), Some(b)) => o == (PushOptions {
                    remote: self.push_remote,
                    branch: b,
                    set_upstream: self.push_set_upstream,
                    force_with_lease: self.push_force_lease,
                    tags: self.push_tags,
                }),
                (Err(e), None) => e@ == "No current branch to push."@,
                _ => false,
            },
    {
        match &self.status.branch {
            Some(b) => Ok(
                PushOptions {
                    remote: self.push_remote.clone(),
                    branch: b.clone(),
                    set_upstream: self.push_set_upstream,
                    force_with_lease: self.push_force_lease,
                    tags: self.push_tags,
                },
            ),
            None => Err(String::from_str("No current branch to push.")),
        }
    }

    /// Records that a push has started under `label`.
    pub fn push_started(&mut self, label: &str)
        ensures
            final(self).info matches Some(i) && i@ == label@,
            *final(self) == (App {
                show_push: false,
                outcome: None,
                error: None,
                info: final(self).info,
                ..*old(self)
            }),
    {
        self.show_push = false;
        self.outcome = None;
        self.error = None;
        self.info = Some(string_of(&chars_of(label)));
    }

    /// Records how a push ended (`None` when its task vanished); returns
    /// whether the repository should be rescanned.
    pub fn push_finished(&mut self, label: &str, result: Option<Result<String, String>>) -> (rescan:
        bool)
        ensures
            ({
                let (outcome, info, error, rs) = push_outcome_spec(label@, result_text(result));
                &&& rescan == rs
                &&& outcome_view(final(self).outcome) == (match result {
                    None => outcome_view(old(self).outcome),
                    _ => outcome,
                })
                &&& opt_text(final(self).info) == info
                &&& opt_text(final(self).error) == (match result {
                    Some(Ok(_)) => opt_text(old(self).error),
                    _ => error,
                })
                &&& *final(self) == (App {
                    outcome: final(self).outcome,
                    info: final(self).info,
                    error: final(self).error,
                    ..*old(self)
                })
            }),
    {
        match result {
            Some(Ok(out)) => {
                let t = trim_exec(&chars_of(out.as_str()));
                let body = if t.len() == 0 {
                    String::from_str("Done.")
                } else {
                    string_of(&t)
                };
                self.outcome = Some(
                    TaskOutcome { ok: true, title: String::from_str("Push complete"), output: body },
                );
                self.info = Some(String::from_str("Push complete."));
                true
            },
            Some(Err(out)) => {
                self.outcome = Some(
                    TaskOutcome { ok: false, title: String::from_str("Push failed"), output: out },
                );
                self.info = None;
                let mut e = string_of(&chars_of(label));
                append_str(&mut e, " failed.");
                self.error = Some(e);
                false
            },
            None => {
                self.info = None;
                self.error = Some(String::from_str("The push task ended unexpectedly."));
                false
            },
        }
    }

    /// Appends a `Signed-off-by:` line to the commit message, after a blank
    /// line, unless it is already there.
    pub fn sign_off(&mut self, line: &str)
        ensures
            final(self).commit_msg@ == signed_off(old(self).commit_msg@, line@),
            *final(self) == (App { commit_msg: final(self).commit_msg, ..*old(self) }),
    {
        let msg = chars_of(self.commit_msg.as_str());
        let l = chars_of(line);
        if contains_exec(&msg, &l) {
            return;
        }
        let text = sign_off_text(&msg, &l);
        self.commit_msg = string_of(&text);
    }

    /// Why a commit cannot be made now, if it cannot: no message, a
    /// conflict left unresolved (the first is named), or nothing staged
    /// outside an amend or a merge.
    pub fn commit_problem(&self) -> (r: Option<String>)
        ensures
            opt_text(r) == commit_problem_spec(*self),
    {
        if trim_exec(&chars_of(self.commit_msg.as_str())).len() == 0 {
            return Some(String::from_str("Enter a commit message first."));
        }
        let unresolved = self.unresolved();
        if unresolved.len() > 0 {
            let mut s = unresolved[0].clone();
            append_str(&mut s, " is still unresolved: fix the conflict and stage it before committing.");
            proof {
                assert(views(unresolved@)[0] == unresolved@[0]@);
            }
            return Some(s);
        }
        let staged = self.status.staged();
        proof {
            assert(staged@.map_values(|e: &Entry| e@).len() == staged@.len());
        }
        if !self.amend && self.merging.is_none() && staged.len() == 0 {
            return Some(String::from_str("Nothing staged to commit."));
        }
        None
    }

    /// Records a successful commit from what git printed.
    pub fn committed(&mut self, out: &str)
        ensures
            final(self).info matches Some(i) && i@ == commit_summary(out@),
            final(self).commit_msg@.len() == 0,
            final(self).amend_files@.len() == 0,
            *final(self) == (App {
                info: final(self).info,
                commit_msg: final(self).commit_msg,
                amend: false,
                amend_base: None,
                amend_files: final(self).amend_files,
                ..*old(self)
            }),
    {
        let ls = lines_exec(&chars_of(out));
        let summary = if ls.len() > 0 {
            proof {
                assert(cviews(ls@)[0] == ls@[0]@);
            }
            string_of(&ls[0])
        } else {
            String::from_str("committed")
        };
        self.info = Some(summary);
        self.commit_msg = String::new();
        self.amend = false;
        self.amend_base = None;
        self.amend_files = Vec::new();
    }

    /// The name typed for a new branch, trimmed; none when blank.
    pub fn new_branch_name(&self) -> (r: Option<String>)
        ensures
            opt_text(r) == (if trim(self.new_branch@).len() == 0 {
                None
            } else {
                Some(trim(self.new_branch@))
            }),
    {
        let t = trim_exec(&chars_of(self.new_branch.as_str()));
        if t.len() == 0 {
            None
        } else {
            Some(string_of(&t))
        }
    }

    /// The paths unstaging `path` releases: a staged rename has to release
    /// both names or the old path stays gone. While amending, the rename is
    /// the one the amended commit records.
    pub fn unstage_paths_for(&self, path: &str) -> (r: Vec<String>)
        ensures
            views(r@) == seq![path@] + (if self.amend {
                match commit_file_for(self.amend_files@, path@) {
                    Some(f) => match f.orig_path {
                        Some(o) => seq![o@],
                        None => seq![],
                    },
                    None => seq![],
                }
            } else {
                match entry_for(self.status.entries@, path@) {
                    Some(e) => match e.orig_path {
                        Some(o) => seq![o@],
                        None => seq![],
                    },
                    None => seq![],
                }
            }),
    {
        let mut paths: Vec<String> = Vec::new();
        paths.push(string_of(&chars_of(path)));
        let orig = if self.amend {
            match commit_file_index(&self.amend_files, path) {
                Some(i) => clone_opt(&self.amend_files[i].orig_path),
                None => None,
            }
        } else {
            match first_entry(&self.status.entries, path) {
                Some(i) => clone_opt(&self.status.entries[i].orig_path),
                None => None,
            }
        };
        let ghost before = paths@;
        match orig {
            Some(o) => {
                paths.push(o);
            },
            None => {},
        }
        assert(views(paths@) =~= seq![path@] + (if self.amend {
            match commit_file_for(self.amend_files@, path@) {
                Some(f) => match f.orig_path {
                    Some(o) => seq![o@],
                    None => seq![],
                },
                None => seq![],
            }
        } else {
            match entry_for(self.status.entries@, path@) {
                Some(e) => match e.orig_path {
                    Some(o) => seq![o@],
                    None => seq![],
                },
                None => seq![],
            }
        }));
        paths
    }

    /// The paths the staged pane lists, in order.
    pub fn staged_paths(&self) -> (r: Vec<String>)
        ensures
            views(r@) == staged_view(*self).map_values(|e: EntryV| e.path),
    {
        let staged = self.staged();
        let ghost sv = entry_views(staged@);
        let mut out: Vec<String> = Vec::new();
        let mut i: usize = 0;
        while i < staged.len()
            invariant
                i <= staged@.len(),
                sv == entry_views(staged@),
                views(out@) == sv.subrange(0, i as int).map_values(|e: EntryV| e.path),
            decreases staged@.len() - i,
        {
            let ghost before = out@;
            let p = staged[i].path.clone();
            proof {
                assert(sv[i as int] == staged@[i as int]@);
                assert(p@ == sv[i as int].path);
            }
            out.push(p);
            i += 1;
            assert(views(out@) =~= views(before).push(p@));
            assert(views(out@) =~= sv.subrange(0, i as int).map_values(|e: EntryV| e.path));
        }
        assert(sv.subrange(0, i as int) =~= sv);
        out
    }

    /// Whether the selected file is still listed on its side after a
    /// rescan; commit and stash contents never change.
    pub fn still_there(&self, sel: &FileSel) -> (r: bool)
        ensures
            r == (match sel.pane {
                Pane::Unstaged => unstaged_view(*self).map_values(|e: EntryV| e.path).contains(
                    sel.path@,
                ),
                Pane::Staged => staged_view(*self).map_values(|e: EntryV| e.path).contains(sel.path@),
                Pane::Commit | Pane::Stash => true,
            }),
    {
        match sel.pane {
            Pane::Unstaged => {
                let list = self.unstaged();
                let mut owned: Vec<Entry> = Vec::new();
                let mut i: usize = 0;
                while i < list.len()
                    invariant
                        i <= list@.len(),
                        entry_views(owned@) == list@.subrange(0, i as int).map_values(|e: &Entry| e@),
                    decreases list@.len() - i,
                {
                    let e = copy_entry(list[i]);
                    let ghost before = owned@;
                    owned.push(e);
                    proof {
                        assert(e@ == list@[i as int]@);
                        assert(entry_views(owned@) =~= entry_views(before).push(e@));
                        assert(list@.subrange(0, i + 1).map_values(|e: &Entry| e@) =~= list@.subrange(
                            0,
                            i as int,
                        ).map_values(|e: &Entry| e@).push(list@[i as int]@));
                    }
                    i += 1;
                }
                assert(list@.subrange(0, i as int) =~= list@);
                lists_path(&owned, sel.path.as_str())
            },
            Pane::Staged => {
                let list = self.staged();
                lists_path(&list, sel.path.as_str())
            },
            Pane::Commit | Pane::Stash => true,
        }
    }

    /// Takes a freshly read stash list; a held selection past its end can no
    /// longer be trusted and is dropped.
    pub fn stashes_loaded(&mut self, list: Vec<StashEntry>)
        ensures
            final(self).stashes == list,
            (match old(self).sel_stash {
                Some(i) => i >= list@.len(),
                None => false,
            }) ==> final(self).sel_stash is None && final(self).stash_files@.len() == 0,
            !(match old(self).sel_stash {
                Some(i) => i >= list@.len(),
                None => false,
            }) ==> *final(self) == (App { stashes: list, ..*old(self) }),
    {
        self.stashes = list;
        let stale = match self.sel_stash {
            Some(i) => i >= self.stashes.len(),
            None => false,
        };
        if stale {
            self.clear_stash_selection();
        }
    }

    /// Takes a freshly read commit list; a selected commit the new list no
    /// longer holds is dropped.
    pub fn commits_loaded(&mut self, list: Vec<CommitInfo>)
        ensures
            final(self).commits == list,
            (match old(self).sel_commit {
                Some(sha) => !list@.map_values(|c: CommitInfo| c.sha@).contains(sha@),
                None => false,
            }) ==> final(self).sel_commit is None && final(self).commit_files@.len() == 0
                && final(self).commit_meta is None && final(self).sel_file is None
                && final(self).diff is None,
            !(match old(self).sel_commit {
                Some(sha) => !list@.map_values(|c: CommitInfo| c.sha@).contains(sha@),
                None => false,
            }) ==> *final(self) == (App { commits: list, ..*old(self) }),
    {
        self.commits = list;
        let stale = match &self.sel_commit {
            Some(sha) => {
                let s = chars_of(sha.as_str());
                let ghost shas = self.commits@.map_values(|c: CommitInfo| c.sha@);
                let mut found = false;
                let mut i: usize = 0;
                while i < self.commits.len()
                    invariant
                        i <= self.commits@.len(),
                        shas == self.commits@.map_values(|c: CommitInfo| c.sha@),
                        s@ == sha@,
                        found == exists|j: int| 0 <= j < i && shas[j] == sha@,
                    decreases self.commits@.len() - i,
                {
                    proof {
                        assert(shas[i as int] == self.commits@[i as int].sha@);
                    }
                    if crate::text::chars_eq(&chars_of(self.commits[i].sha.as_str()), &s) {
                        found = true;
                    }
                    i += 1;
                }
                proof {
                    if shas.contains(sha@) {
                        let j = choose|j: int| 0 <= j < shas.len() && shas[j] == sha@;
                        assert(0 <= j < i && shas[j] == sha@);
                    }
                }
                !found
            },
            None => false,
        };
        if stale {
            self.clear_commit_selection();
        }
    }

    /// Asks for twice as many commits, up to twenty thousand.
    pub fn load_more_commits(&mut self)
        ensures
            final(self).log_limit == (if 2 * old(self).log_limit > 20000 {
                20000
            } else {
                2 * old(self).log_limit
            }),
            *final(self) == (App { log_limit: final(self).log_limit, ..*old(self) }),
    {
        if self.log_limit > 10000 {
            self.log_limit = 20000;
        } else {
            self.log_limit = self.log_limit * 2;
        }
    }
}

// ---------------------------------------------------------------------------
// Line-level operations
// ---------------------------------------------------------------------------

/// What applying a line or hunk selection comes to.
#[derive(Clone, Debug)]
pub enum PatchPlan {
    /// Nothing to do: a read-only pane, no diff, or nothing under the cursor.
    Nothing,
    /// The operation cannot run; the message says why.
    Refused(String),
    /// Hand `patch` to `git apply`, in `mode`, against the index when
    /// `cached`.
    Apply { patch: String, mode: ApplyMode, cached: bool },
}

/// Forward moves the patch's old side toward its new side; that is what
/// staging does. Unstaging and discarding both run a patch backwards.
pub open spec fn op_mode(op: Op) -> ApplyMode {
    if op == Op::Stage {
        ApplyMode::Forward
    } else {
        ApplyMode::Reverse
    }
}

/// The lines a set of selected (hunk, line) pairs picks.
pub open spec fn pairs_sel(pairs: Seq<(usize, usize)>) -> spec_fn(int, int) -> bool {
    |h: int, l: int| 0 <= h && 0 <= l && pairs.contains((h as usize, l as usize))
}

/// `p` is what running `op` over the lines `sel` picks in `fd` comes to.
pub open spec fn plan_for(p: PatchPlan, fd: FileDiffV, op: Op, sel: spec_fn(int, int) -> bool) -> bool {
    if fd.hunks.len() == 0 {
        p matches PatchPlan::Refused(m) && m@
            == "This file has no line-level changes; use the whole-file action."@
    } else {
        match patch_spec(fd, op_mode(op), sel) {
            Some(q) => p matches PatchPlan::Apply { patch, mode, cached } && patch@ == q && mode
                == op_mode(op) && cached == (op != Op::Discard),
            None => p matches PatchPlan::Refused(m) && m@ == "Nothing selected to apply."@,
        }
    }
}

/// Which way a plan runs `git apply`: staging applies the selection forward
/// to the index; unstaging applies it in reverse to the index; discarding
/// applies it in reverse to the working tree.
pub proof fn law_plan_direction(p: PatchPlan, fd: FileDiffV, op: Op, sel: spec_fn(int, int) -> bool)
    requires
        plan_for(p, fd, op, sel),
    ensures
        p matches PatchPlan::Apply { mode, cached, .. } ==> {
            &&& op == Op::Stage ==> mode == ApplyMode::Forward && cached
            &&& op == Op::Unstage ==> mode == ApplyMode::Reverse && cached
            &&& op == Op::Discard ==> mode == ApplyMode::Reverse && !cached
        },
{
}

/// The shown diff is small enough for the line counters of a patch.
pub open spec fn patch_fits(d: Option<Loaded>) -> bool {
    match d {
        Some(x) => line_total(x.fd@.hunks) <= u32::MAX,
        None => true,
    }
}

fn selection_mask(fd: &FileDiff, pairs: &Vec<(usize, usize)>) -> (mask: Vec<Vec<bool>>)
    ensures
        mask_shaped(mask_view(mask@), fd@.hunks),
        forall|h: int, l: int|
            0 <= h < fd@.hunks.len() && 0 <= l < fd@.hunks[h].lines.len() ==> mask_view(mask@)[h][l]
                == pairs@.contains((h as usize, l as usize)),
{
    let mut mask = fill_mask(fd, Some(fd.hunks.len()));
    let mut k: usize = 0;
    while k < pairs.len()
        invariant
            k <= pairs@.len(),
            mask_shaped(mask_view(mask@), fd@.hunks),
            forall|h: int, l: int|
                0 <= h < fd@.hunks.len() && 0 <= l < fd@.hunks[h].lines.len() ==> mask_view(mask@)[h][l]
                    == pairs@.subrange(0, k as int).contains((h as usize, l as usize)),
        decreases pairs@.len() - k,
    {
        let (h, l) = pairs[k];
        let ghost before = mask_view(mask@);
        if h < mask.len() && l < mask[h].len() {
            let mut row: Vec<bool> = Vec::new();
            mask.set_and_swap(h, &mut row);
            row.set(l, true);
            mask.set_and_swap(h, &mut row);
        }
        proof {
            assert forall|hh: int| 0 <= hh < fd@.hunks.len() implies #[trigger] mask_view(mask@)[hh].len()
                == fd@.hunks[hh].lines.len() by {
                assert(before[hh].len() == fd@.hunks[hh].lines.len());
            }
            let now = pairs@.subrange(0, k + 1);
            assert(now =~= pairs@.subrange(0, k as int).push((h, l)));
            assert forall|hh: int, ll: int|
                0 <= hh < fd@.hunks.len() && 0 <= ll < fd@.hunks[hh].lines.len() implies mask_view(mask@)[hh][ll]
                    == now.contains((hh as usize, ll as usize)) by {
                assert(now.contains((hh as usize, ll as usize)) == (pairs@.subrange(
                    0,
                    k as int,
                ).contains((hh as usize, ll as usize)) || (hh as usize, ll as usize) == (h, l))) by {
                    if now.contains((hh as usize, ll as usize)) {
                        let j = choose|j: int| 0 <= j < now.len() && now[j] == (hh as usize, ll as usize);
                        if j < k {
                            assert(pairs@.subrange(0, k as int)[j] == now[j]);
                        }
                    }
                    if pairs@.subrange(0, k as int).contains((hh as usize, ll as usize)) {
                        let j = choose|j: int| 0 <= j < k && pairs@.subrange(0, k as int)[j] == (
                            hh as usize,
                            ll as usize,
                        );
                        assert(now[j] == pairs@.subrange(0, k as int)[j]);
                    }
                    if (hh as usize, ll as usize) == (h, l) {
                        assert(now[k as int] == (h, l));
                    }
                }
                if hh == h && ll == l {
                } else {
                    assert(mask_view(mask@)[hh][ll] == before[hh][ll]);
                }
            }
        }
        k += 1;
    }
    proof {
        assert(pairs@.subrange(0, k as int) =~= pairs@);
    }
    mask
}

fn plan(fd: &FileDiff, op: Op, mask: &Vec<Vec<bool>>) -> (r: PatchPlan)
    requires
        line_total(fd@.hunks) <= u32::MAX,
    ensures
        plan_for(r, fd@, op, mask_sel(mask_view(mask@))),
{
    if fd.hunks.len() == 0 {
        return PatchPlan::Refused(
            String::from_str("This file has no line-level changes; use the whole-file action."),
        );
    }
    let mode = if op == Op::Stage {
        ApplyMode::Forward
    } else {
        ApplyMode::Reverse
    };
    let cached = op != Op::Discard;
    match build_patch_masked(fd, mode, mask) {
        Some(patch) => PatchPlan::Apply { patch, mode, cached },
        None => PatchPlan::Refused(String::from_str("Nothing selected to apply.")),
    }
}

impl App {
    /// What applying `op` to every change of hunk `hunk` comes to.
    pub fn hunk_patch(&self, op: Op, hunk: usize) -> (r: PatchPlan)
        requires
            patch_fits(self.diff),
        ensures
            (match self.sel_file {
                Some(s) => pane_read_only(s.pane),
                None => false,
            }) ==> r is Nothing,
            !(match self.sel_file {
                Some(s) => pane_read_only(s.pane),
                None => false,
            }) ==> match self.diff {
                Some(d) => plan_for(r, d.fd@, op, hunk_sel(hunk as int)),
                None => r is Nothing,
            },
    {
        if self.read_only() {
            return PatchPlan::Nothing;
        }
        match &self.diff {
            Some(d) => {
                let mask = fill_mask(&d.fd, Some(hunk));
                proof {
                    lemma_patch_acc_congruent(
                        d.fd@.hunks,
                        mask_sel(mask_view(mask@)),
                        hunk_sel(hunk as int),
                        op_mode(op),
                    );
                }
                plan(&d.fd, op, &mask)
            },
            None => PatchPlan::Nothing,
        }
    }

    /// What applying `op` to the selected lines comes to; with nothing
    /// selected, the hunk under the cursor is taken instead, which is what
    /// makes single-click-then-stage feel natural.
    pub fn lines_patch(&self, op: Op) -> (r: PatchPlan)
        requires
            patch_fits(self.diff),
        ensures
            (match self.sel_file {
                Some(s) => pane_read_only(s.pane),
                None => false,
            }) ==> r is Nothing,
            !(match self.sel_file {
                Some(s) => pane_read_only(s.pane),
                None => false,
            }) ==> match self.diff {
                Some(d) => {
                    let pairs = sel_pairs(d, d.rows@.len() as int);
                    if pairs.len() == 0 {
                        match d.hunk_spec(d.cursor as int) {
                            Some(h) => plan_for(r, d.fd@, op, hunk_sel(h as int)),
                            None => r is Nothing,
                        }
                    } else {
                        plan_for(r, d.fd@, op, pairs_sel(pairs))
                    }
                },
                None => r is Nothing,
            },
    {
        if self.read_only() {
            return PatchPlan::Nothing;
        }
        match &self.diff {
            Some(d) => {
                let pairs = d.selected_pairs();
                if pairs.len() == 0 {
                    match d.hunk_of_row(d.cursor) {
                        Some(h) => self.hunk_patch(op, h),
                        None => PatchPlan::Nothing,
                    }
                } else {
                    let mask = selection_mask(&d.fd, &pairs);
                    proof {
                        assert(sel_agree(d.fd@.hunks, mask_sel(mask_view(mask@)), pairs_sel(pairs@)));
                        lemma_patch_acc_congruent(
                            d.fd@.hunks,
                            mask_sel(mask_view(mask@)),
                            pairs_sel(pairs@),
                            op_mode(op),
                        );
                    }
                    plan(&d.fd, op, &mask)
                }
            },
            None => PatchPlan::Nothing,
        }
    }

    /// Records a patch that git applied: the status line, and for a discard
    /// an undo entry holding the patch.
    pub fn patch_applied(&mut self, op: Op, patch: String)
        ensures
            op == Op::Discard ==> final(self).undo@ == undo_after(
                old(self).undo@,
                UndoEntry {
                    action: UndoAction::ApplyPatch(patch),
                    label: final(self).undo@.last().label,
                },
            ) && final(self).undo@.last().label@ == decimal(patch_changes(patch@))
                + " line(s) in "@ + (match old(self).sel_file {
                Some(s) => s.path@,
                None => seq![],
            }),
            op != Op::Discard ==> final(self).undo == old(self).undo,
            final(self).info matches Some(i) && i@ == (match op {
                Op::Stage => "Staged selected lines."@,
                Op::Unstage => "Unstaged selected lines."@,
                Op::Discard => "Discarded "@ + decimal(patch_changes(patch@))
                    + " line(s). ⌘Z to undo."@,
            }),
            *final(self) == (App { info: final(self).info, undo: final(self).undo, ..*old(self) }),
    {
        let info = match op {
            Op::Stage => String::from_str("Staged selected lines."),
            Op::Unstage => String::from_str("Unstaged selected lines."),
            Op::Discard => {
                let n = patch_change_count(patch.as_str());
                let mut label = String::new();
                push_decimal(&mut label, n as u64);
                append_str(&mut label, " line(s) in ");
                match &self.sel_file {
                    Some(s) => append_str(&mut label, s.path.as_str()),
                    None => {},
                }
                let ghost lv = label@;
                self.push_undo(UndoAction::ApplyPatch(patch), label);
                proof {
                    assert(self.undo@.last().label@ == lv);
                }
                let mut msg = String::new();
                append_str(&mut msg, "Discarded ");
                push_decimal(&mut msg, n as u64);
                append_str(&mut msg, " line(s). ⌘Z to undo.");
                msg
            },
        };
        self.info = Some(info);
    }
}

/// A line of a patch counts as a change when it adds or removes a line,
/// which the `+++` and `---` file headers do not.
pub open spec fn is_patch_change(l: Seq<char>) -> bool {
    (starts_with(l, "+"@) && !starts_with(l, "+++"@)) || (starts_with(l, "-"@) && !starts_with(
        l,
        "---"@,
    ))
}

/// How many lines of a patch are changes.
pub open spec fn count_patch_changes(ls: Seq<Seq<char>>) -> nat
    decreases ls.len(),
{
    if ls.len() == 0 {
        0
    } else {
        count_patch_changes(ls.drop_last()) + if is_patch_change(ls.last()) {
            1nat
        } else {
            0nat
        }
    }
}

/// The number of changed lines a patch carries.
pub open spec fn patch_changes(patch: Seq<char>) -> nat {
    count_patch_changes(lines(patch))
}

/// Counts real changed lines in a patch, skipping the `---`/`+++` headers.
pub fn patch_change_count(patch: &str) -> (r: usize)
    ensures
        r == patch_changes(patch@),
{
    let ls = lines_exec(&chars_of(patch));
    let ghost lv = cviews(ls@);
    let mut n: usize = 0;
    let mut i: usize = 0;
    while i < ls.len()
        invariant
            i <= ls@.len(),
            lv == cviews(ls@),
            n <= i,
            n == count_patch_changes(lv.subrange(0, i as int)),
        decreases ls@.len() - i,
    {
        proof {
            assert(lv.subrange(0, i + 1).drop_last() =~= lv.subrange(0, i as int));
            assert(lv.subrange(0, i + 1).last() == ls@[i as int]@);
        }
        let l = &ls[i];
        if (starts_with_str(l, "+") && !starts_with_str(l, "+++")) || (starts_with_str(l, "-")
            && !starts_with_str(l, "---")) {
            n += 1;
        }
        i += 1;
    }
    assert(lv.subrange(0, i as int) =~= lv);
    n
}

// ---------------------------------------------------------------------------
// What the diff view shows
// ---------------------------------------------------------------------------

/// Where the content of the selected file comes from.
#[derive(Clone, Debug)]
pub enum DiffRequest {
    /// An untracked working-tree file, read from disk.
    Untracked { path: String },
    /// An untracked file held in a stash's third parent.
    StashBlob { parent: String, path: String },
    /// A stash file flagged untracked in a stash with no third parent.
    NoStashParent,
    /// A diff git prints.
    Git(GitCommand),
    /// Nothing to diff against: no commit or stash is selected.
    Empty,
}

/// The first stash file at `path`, if any.
pub open spec fn stash_file_for(files: Seq<StashFile>, path: Seq<char>) -> Option<StashFile>
    decreases files.len(),
{
    if files.len() == 0 {
        None
    } else if files[0].path@ == path {
        Some(files[0])
    } else {
        stash_file_for(files.drop_first(), path)
    }
}

/// Some stash file at `path` is flagged untracked.
pub open spec fn stash_untracked_at(files: Seq<StashFile>, path: Seq<char>) -> bool {
    exists|i: int| 0 <= i < files.len() && files[i].path@ == path && files[i].untracked
}

/// The first commit file at `path`, if any.
pub open spec fn commit_file_for(files: Seq<CommitFile>, path: Seq<char>) -> Option<CommitFile>
    decreases files.len(),
{
    if files.len() == 0 {
        None
    } else if files[0].path@ == path {
        Some(files[0])
    } else {
        commit_file_for(files.drop_first(), path)
    }
}

/// The note shown above a diff that has no lines to offer, or explains
/// why its lines cannot be picked.
pub open spec fn diff_note_spec(fd: FileDiffV, unmerged: bool) -> Option<Seq<char>> {
    if fd.binary {
        Some("Binary file — stage or unstage the whole file."@)
    } else if unmerged {
        Some("Conflicted file. Resolve the markers, then stage the whole file."@)
    } else if fd.hunks.len() == 0 {
        Some(
            if fd.rename {
                "Rename only — no content change."@
            } else if fd.header_only {
                "No content change (mode change only)."@
            } else {
                "No changes to show."@
            },
        )
    } else {
        None
    }
}

/// The note shown above a parsed diff.
pub fn diff_note(fd: &FileDiff, unmerged: bool) -> (r: Option<String>)
    ensures
        opt_text(r) == diff_note_spec(fd@, unmerged),
{
    if fd.binary {
        Some(String::from_str("Binary file — stage or unstage the whole file."))
    } else if unmerged {
        Some(String::from_str("Conflicted file. Resolve the markers, then stage the whole file."))
    } else if fd.hunks.len() == 0 {
        Some(
            if fd.rename {
                String::from_str("Rename only — no content change.")
            } else if fd.header_only {
                String::from_str("No content change (mode change only).")
            } else {
                String::from_str("No changes to show.")
            },
        )
    } else {
        None
    }
}

pub(crate) fn clone_opt(o: &Option<String>) -> (r: Option<String>)
    ensures
        r == *o,
{
    match o {
        Some(s) => Some(s.clone()),
        None => None,
    }
}

fn stash_file_index(files: &Vec<StashFile>, path: &str) -> (r: Option<usize>)
    ensures
        match (r, stash_file_for(files@, path@)) {
            (Some(i), Some(f)) => i < files@.len() && files@[i as int] == f,
            (None, None) => true,
            _ => false,
        },
{
    let p = chars_of(path);
    let mut i: usize = 0;
    assert(files@.subrange(0, files@.len() as int) =~= files@);
    while i < files.len()
        invariant
            i <= files@.len(),
            p@ == path@,
            stash_file_for(files@, path@) == stash_file_for(
                files@.subrange(i as int, files@.len() as int),
                path@,
            ),
        decreases files@.len() - i,
    {
        let ghost rest = files@.subrange(i as int, files@.len() as int);
        proof {
            assert(rest[0] == files@[i as int]);
            assert(rest.drop_first() =~= files@.subrange(i + 1, files@.len() as int));
        }
        if crate::text::chars_eq(&chars_of(files[i].path.as_str()), &p) {
            return Some(i);
        }
        i += 1;
    }
    None
}

fn commit_file_index(files: &Vec<CommitFile>, path: &str) -> (r: Option<usize>)
    ensures
        match (r, commit_file_for(files@, path@)) {
            (Some(i), Some(f)) => i < files@.len() && files@[i as int] == f,
            (None, None) => true,
            _ => false,
        },
{
    let p = chars_of(path);
    let mut i: usize = 0;
    assert(files@.subrange(0, files@.len() as int) =~= files@);
    while i < files.len()
        invariant
            i <= files@.len(),
            p@ == path@,
            commit_file_for(files@, path@) == commit_file_for(
                files@.subrange(i as int, files@.len() as int),
                path@,
            ),
        decreases files@.len() - i,
    {
        let ghost rest = files@.subrange(i as int, files@.len() as int);
        proof {
            assert(rest[0] == files@[i as int]);
            assert(rest.drop_first() =~= files@.subrange(i + 1, files@.len() as int));
        }
        if crate::text::chars_eq(&chars_of(files[i].path.as_str()), &p) {
            return Some(i);
        }
        i += 1;
    }
    None
}

fn stash_untracked_exec(files: &Vec<StashFile>, path: &str) -> (r: bool)
    ensures
        r == stash_untracked_at(files@, path@),
{
    let p = chars_of(path);
    let mut i: usize = 0;
    while i < files.len()
        invariant
            i <= files@.len(),
            p@ == path@,
            forall|j: int| 0 <= j < i ==> !(files@[j].path@ == path@ && files@[j].untracked),
        decreases files@.len() - i,
    {
        if files[i].untracked && crate::text::chars_eq(&chars_of(files[i].path.as_str()), &p) {
            return true;
        }
        i += 1;
    }
    false
}

/// The request `load_diff` makes for the file selected in `pane` at `path`.
pub open spec fn diff_request_spec(a: App, pane: Pane, path: String) -> DiffRequest {
    let entry = entry_for(a.status.entries@, path@);
    let untracked = match entry {
        Some(e) => e.untracked,
        None => false,
    };
    let stash = if match a.sel_stash {
        Some(i) => i < a.stashes@.len(),
        None => false,
    } {
        Some(a.stashes@[a.sel_stash.unwrap() as int])
    } else {
        None
    };
    if pane == Pane::Unstaged && untracked {
        DiffRequest::Untracked { path }
    } else if pane == Pane::Stash && stash_untracked_at(a.stash_files@, path@) {
        match stash {
            Some(e) => if e.parents@.len() >= 3 {
                DiffRequest::StashBlob { parent: e.parents@[2], path }
            } else {
                DiffRequest::NoStashParent
            },
            None => DiffRequest::NoStashParent,
        }
    } else {
        match pane {
            Pane::Unstaged => DiffRequest::Git(GitCommand::DiffUnstaged { path }),
            Pane::Staged => if a.amend {
                DiffRequest::Git(
                    GitCommand::DiffStaged {
                        path,
                        orig: match commit_file_for(a.amend_files@, path@) {
                            Some(f) => f.orig_path,
                            None => None,
                        },
                        base: a.amend_base,
                    },
                )
            } else {
                DiffRequest::Git(
                    GitCommand::DiffStaged {
                        path,
                        orig: match entry {
                            Some(e) => e.orig_path,
                            None => None,
                        },
                        base: None,
                    },
                )
            },
            Pane::Commit => match a.sel_commit {
                Some(sha) => DiffRequest::Git(
                    GitCommand::DiffCommit {
                        sha,
                        path,
                        orig: match commit_file_for(a.commit_files@, path@) {
                            Some(f) => f.orig_path,
                            None => None,
                        },
                    },
                ),
                None => DiffRequest::Empty,
            },
            Pane::Stash => match stash {
                Some(e) => DiffRequest::Git(
                    GitCommand::DiffStash {
                        sha: e.sha,
                        path,
                        orig: match stash_file_for(a.stash_files@, path@) {
                            Some(f) => f.orig_path,
                            None => None,
                        },
                    },
                ),
                None => DiffRequest::Empty,
            },
        }
    }
}

impl App {
    /// Decides where the selected file's content comes from, and whether the
    /// status lists it as untracked and as conflicted.
    pub fn diff_request(&self) -> (r: Option<(DiffRequest, bool, bool)>)
        ensures
            match (r, self.sel_file) {
                (None, None) => true,
                (Some((req, untracked, unmerged)), Some(sel)) => {
                    let entry = entry_for(self.status.entries@, sel.path@);
                    &&& untracked == (match entry {
                        Some(e) => e.untracked,
                        None => false,
                    })
                    &&& unmerged == (match entry {
                        Some(e) => e.unmerged,
                        None => false,
                    })
                    &&& diff_request_views(req, diff_request_spec(*self, sel.pane, sel.path))
                },
                _ => false,
            },
    {
        let sel = match &self.sel_file {
            Some(s) => s,
            None => {
                return None;
            },
        };
        let path = sel.path.as_str();
        let ei = first_entry(&self.status.entries, path);
        let (untracked, unmerged, orig) = match ei {
            Some(i) => (
                self.status.entries[i].untracked,
                self.status.entries[i].unmerged,
                clone_opt(&self.status.entries[i].orig_path),
            ),
            None => (false, false, None),
        };
        let stash: Option<&StashEntry> = self.selected_stash();
        let req = if sel.pane == Pane::Unstaged && untracked {
            DiffRequest::Untracked { path: sel.path.clone() }
        } else if sel.pane == Pane::Stash && stash_untracked_exec(&self.stash_files, path) {
            match stash {
                Some(e) => if e.parents.len() >= 3 {
                    DiffRequest::StashBlob { parent: e.parents[2].clone(), path: sel.path.clone() }
                } else {
                    DiffRequest::NoStashParent
                },
                None => DiffRequest::NoStashParent,
            }
        } else {
            match sel.pane {
                Pane::Unstaged => DiffRequest::Git(GitCommand::DiffUnstaged { path: sel.path.clone() }),
                Pane::Staged => if self.amend {
                    let orig = match commit_file_index(&self.amend_files, path) {
                        Some(i) => clone_opt(&self.amend_files[i].orig_path),
                        None => None,
                    };
                    DiffRequest::Git(
                        GitCommand::DiffStaged {
                            path: sel.path.clone(),
                            orig,
                            base: clone_opt(&self.amend_base),
                        },
                    )
                } else {
                    DiffRequest::Git(GitCommand::DiffStaged { path: sel.path.clone(), orig, base: None })
                },
                Pane::Commit => match &self.sel_commit {
                    Some(sha) => {
                        let orig = match commit_file_index(&self.commit_files, path) {
                            Some(i) => clone_opt(&self.commit_files[i].orig_path),
                            None => None,
                        };
                        DiffRequest::Git(
                            GitCommand::DiffCommit { sha: sha.clone(), path: sel.path.clone(), orig },
                        )
                    },
                    None => DiffRequest::Empty,
                },
                Pane::Stash => match stash {
                    Some(e) => {
                        let orig = match stash_file_index(&self.stash_files, path) {
                            Some(i) => clone_opt(&self.stash_files[i].orig_path),
                            None => None,
                        };
                        DiffRequest::Git(
                            GitCommand::DiffStash { sha: e.sha.clone(), path: sel.path.clone(), orig },
                        )
                    },
                    None => DiffRequest::Empty,
                },
            }
        };
        Some((req, untracked, unmerged))
    }
}

/// Two requests name the same content: equal as values, strings compared by
/// their text.
pub open spec fn diff_request_views(a: DiffRequest, b: DiffRequest) -> bool {
    a == b
}

// ---------------------------------------------------------------------------
// Files shown whole
// ---------------------------------------------------------------------------

/// `String::from_utf8`: the text the bytes encode when they are valid
/// UTF-8, and none otherwise.
#[verifier::external_body]
fn utf8_text(bytes: Vec<u8>) -> (r: Option<String>)
    ensures
        match r {
            Some(s) => valid_utf8(bytes@) && s@ == decode_utf8(bytes@),
            None => !valid_utf8(bytes@),
        },
{
    match String::from_utf8(bytes) {
        Ok(s) => Some(s),
        Err(_) => None,
    }
}

/// Decoding never yields more characters than there were bytes.
pub proof fn lemma_decode_len(b: Seq<u8>)
    requires
        valid_utf8(b),
    ensures
        decode_utf8(b).len() <= b.len(),
    decreases b.len(),
{
    if b.len() > 0 {
        let p = pop_first_scalar(b);
        assert(1 <= length_of_first_scalar(b) <= b.len());
        assert(p.len() < b.len());
        lemma_decode_len(p);
    }
}

/// How a file that is shown whole (not diffed) is presented.
#[derive(Clone, Debug)]
pub enum BlobView {
    /// Too large to display; the byte count is given for the message.
    TooLarge(usize),
    /// The add-everything diff to show, and the note above it.
    Shown(FileDiff, Option<String>),
}

/// The add-everything view of a text file, or the note saying why there is
/// none.
pub open spec fn text_view_spec(
    bytes: Seq<u8>,
    path: Seq<char>,
    executable: bool,
    binary_note: Seq<char>,
    utf8_note: Seq<char>,
) -> (FileDiffV, Option<Seq<char>>) {
    if bytes.contains(0u8) {
        (empty_diff(), Some(binary_note))
    } else if !valid_utf8(bytes) {
        (empty_diff(), Some(utf8_note))
    } else {
        let fd = synth_spec(path, decode_utf8(bytes), executable);
        (
            fd,
            if fd.hunks.len() == 0 {
                Some("Empty file."@)
            } else {
                None
            },
        )
    }
}

fn has_nul(bytes: &Vec<u8>) -> (r: bool)
    ensures
        r == bytes@.contains(0u8),
{
    let mut i: usize = 0;
    while i < bytes.len()
        invariant
            i <= bytes@.len(),
            forall|j: int| 0 <= j < i ==> bytes@[j] != 0u8,
        decreases bytes@.len() - i,
    {
        if bytes[i] == 0 {
            return true;
        }
        i += 1;
    }
    false
}

fn text_view(bytes: Vec<u8>, path: &str, executable: bool, binary_note: &str, utf8_note: &str) -> (r: (
    FileDiff,
    Option<String>,
))
    requires
        bytes@.len() < u32::MAX,
    ensures
        ({
            let (fd, note) = text_view_spec(bytes@, path@, executable, binary_note@, utf8_note@);
            r.0@ == fd && opt_text(r.1) == note
        }),
{
    if has_nul(&bytes) {
        return (FileDiff::default(), Some(string_of(&chars_of(binary_note))));
    }
    let ghost b = bytes@;
    match utf8_text(bytes) {
        None => (FileDiff::default(), Some(string_of(&chars_of(utf8_note)))),
        Some(text) => {
            proof {
                lemma_decode_len(b);
            }
            let fd = synth_new_file(path, text.as_str(), executable);
            let note = if fd.hunks.len() == 0 {
                Some(String::from_str("Empty file."))
            } else {
                None
            };
            proof {
                assert(hunk_views(fd.hunks@).len() == fd.hunks@.len());
            }
            (fd, note)
        },
    }
}

/// A file of `len` bytes is summarised rather than shown.
pub fn too_large_to_show(len: u64) -> (r: bool)
    ensures
        r == (len > MAX_DISPLAY_BYTES),
{
    len > MAX_DISPLAY_BYTES as u64
}

/// Presents an untracked file stored in a stash as an add-everything diff, the
/// same way an untracked file in the working tree is shown.
pub fn read_stash_blob(bytes: Vec<u8>, path: &str) -> (r: BlobView)
    ensures
        bytes@.len() > MAX_DISPLAY_BYTES ==> (r matches BlobView::TooLarge(n) && n == bytes@.len()),
        bytes@.len() <= MAX_DISPLAY_BYTES ==> (r matches BlobView::Shown(fd, note) && ({
            let (f, m) = text_view_spec(
                bytes@,
                path@,
                false,
                "Binary file — stored in the stash but not shown."@,
                "Not valid UTF-8 — not shown."@,
            );
            fd@ == f && opt_text(note) == m
        })),
{
    if bytes.len() > MAX_DISPLAY_BYTES {
        return BlobView::TooLarge(bytes.len());
    }
    let (fd, note) = text_view(
        bytes,
        path,
        false,
        "Binary file — stored in the stash but not shown.",
        "Not valid UTF-8 — not shown.",
    );
    BlobView::Shown(fd, note)
}

/// Presents an untracked working-tree file, already read, as an
/// add-everything diff.
pub fn untracked_view(bytes: Vec<u8>, rel: &str, executable: bool) -> (r: (FileDiff, Option<String>))
    requires
        bytes@.len() < u32::MAX,
    ensures
        ({
            let (fd, note) = text_view_spec(
                bytes@,
                rel@,
                executable,
                "Binary file — stage the whole file."@,
                "Not valid UTF-8 — stage the whole file."@,
            );
            r.0@ == fd && opt_text(r.1) == note
        }),
{
    text_view(
        bytes,
        rel,
        executable,
        "Binary file — stage the whole file.",
        "Not valid UTF-8 — stage the whole file.",
    )
}

// ---------------------------------------------------------------------------
// Display helpers
// ---------------------------------------------------------------------------

/// `s` on one line: every line break becomes a space.
pub open spec fn one_line(s: Seq<char>) -> Seq<char> {
    s.map_values(|c: char| if c == '\n' { ' ' } else { c })
}

/// At most `n` characters of `s` on one line, with an ellipsis when cut.
pub open spec fn truncate_spec(s: Seq<char>, n: nat) -> Seq<char> {
    let o = one_line(s);
    if o.len() <= n {
        o
    } else {
        o.subrange(0, n as int) + "…"@
    }
}

/// Shortens `s` to one line of at most `n` characters, marking a cut with an
/// ellipsis.
pub fn truncate(s: &str, n: usize) -> (r: String)
    ensures
        r@ == truncate_spec(s@, n as nat),
{
    let cs = chars_of(s);
    let mut o: Vec<char> = Vec::new();
    let mut i: usize = 0;
    while i < cs.len()
        invariant
            i <= cs@.len(),
            o@ == one_line(cs@.subrange(0, i as int)),
        decreases cs@.len() - i,
    {
        o.push(if cs[i] == '\n' { ' ' } else { cs[i] });
        i += 1;
        assert(o@ =~= one_line(cs@.subrange(0, i as int)));
    }
    assert(cs@.subrange(0, i as int) =~= cs@);
    if o.len() <= n {
        string_of(&o)
    } else {
        let mut r = string_of(&slice_of(&o, 0, n));
        append_str(&mut r, "…");
        r
    }
}

/// How many decimal digits `n` has.
pub open spec fn digit_count(n: nat) -> nat
    decreases n,
{
    if n < 10 {
        1
    } else {
        1 + digit_count(n / 10)
    }
}

/// The largest line number any hunk reaches on either side.
pub open spec fn max_line(hunks: Seq<HunkV>) -> nat
    decreases hunks.len(),
{
    if hunks.len() == 0 {
        0
    } else {
        let h = hunks.last();
        let a = (h.old_start + h.old_count) as nat;
        let b = (h.new_start + h.new_count) as nat;
        let m = if a >= b {
            a
        } else {
            b
        };
        let rest = max_line(hunks.drop_last());
        if rest >= m {
            rest
        } else {
            m
        }
    }
}

/// Every hunk's last line number fits the counters it is kept in.
pub open spec fn line_numbers_fit(hunks: Seq<HunkV>) -> bool {
    forall|i: int|
        0 <= i < hunks.len() ==> #[trigger] hunks[i].old_start + hunks[i].old_count <= u32::MAX
            && hunks[i].new_start + hunks[i].new_count <= u32::MAX
}

/// Width of the line-number gutter: the digits of the largest line number,
/// and never fewer than three.
pub fn line_no_digits(loaded: &Loaded) -> (r: usize)
    requires
        line_numbers_fit(loaded.fd@.hunks),
    ensures
        r == (if digit_count(max_line(loaded.fd@.hunks)) >= 3 {
            digit_count(max_line(loaded.fd@.hunks))
        } else {
            3
        }),
{
    let ghost hv = loaded.fd@.hunks;
    let mut max: u32 = 0;
    let mut i: usize = 0;
    while i < loaded.fd.hunks.len()
        invariant
            i <= loaded.fd.hunks@.len(),
            hv == loaded.fd@.hunks,
            line_numbers_fit(hv),
            max == max_line(hv.subrange(0, i as int)),
        decreases loaded.fd.hunks@.len() - i,
    {
        let h = &loaded.fd.hunks[i];
        proof {
            assert(hv[i as int] == h@);
            assert(hv.subrange(0, i + 1).drop_last() =~= hv.subrange(0, i as int));
            assert(hv.subrange(0, i + 1).last() == h@);
            assert(hv[i as int].old_start + hv[i as int].old_count <= u32::MAX);
            assert(hv[i as int].new_start + hv[i as int].new_count <= u32::MAX);
        }
        let a = h.old_start + h.old_count;
        let b = h.new_start + h.new_count;
        let m = if a >= b {
            a
        } else {
            b
        };
        if m > max {
            max = m;
        }
        i += 1;
    }
    proof {
        assert(hv.subrange(0, i as int) =~= hv);
    }
    let mut d: usize = 1;
    let mut v: u32 = max;
    proof {
        lemma_digit_count_u32(max as nat);
    }
    while v >= 10
        invariant
            d >= 1,
            d + digit_count(v as nat) == digit_count(max as nat) + 1,
            digit_count(max as nat) <= 10,
        decreases v,
    {
        proof {
            assert(digit_count((v / 10) as nat) >= 1);
        }
        v = v / 10;
        d += 1;
    }
    if d >= 3 {
        d
    } else {
        3
    }
}

proof fn lemma_digit_count_u32(n: nat)
    requires
        n <= u32::MAX,
    ensures
        digit_count(n) <= 10,
{
    assert(pow10(10) == 10000000000) by {
        reveal_with_fuel(pow10, 11);
    }
    lemma_digit_count_bound(n, 10);
}

proof fn lemma_digit_count_bound(n: nat, k: nat)
    requires
        n < pow10(k),
        k >= 1,
    ensures
        digit_count(n) <= k,
    decreases k,
{
    if n >= 10 {
        assert(k >= 2) by {
            if k == 1 {
                assert(pow10(1) == 10 * pow10(0));
            }
        }
        assert(n / 10 < pow10((k - 1) as nat)) by (nonlinear_arith)
            requires
                n < pow10(k),
                pow10(k) == 10 * pow10((k - 1) as nat),
        ;
        lemma_digit_count_bound(n / 10, (k - 1) as nat);
    }
}

/// Ten to the power `k`.
pub open spec fn pow10(k: nat) -> nat
    decreases k,
{
    if k == 0 {
        1
    } else {
        10 * pow10((k - 1) as nat)
    }
}

// ---------------------------------------------------------------------------
// Recording what git did
// ---------------------------------------------------------------------------

/// The first stash in `ss` whose ref is `refname`.
pub open spec fn stash_by_ref(ss: Seq<StashEntry>, refname: Seq<char>) -> Option<StashEntry>
    decreases ss.len(),
{
    if ss.len() == 0 {
        None
    } else if stash_ref(ss[0].index as nat) == refname {
        Some(ss[0])
    } else {
        stash_by_ref(ss.drop_first(), refname)
    }
}

fn stash_index_by_ref(ss: &Vec<StashEntry>, refname: &str) -> (r: Option<usize>)
    ensures
        match (r, stash_by_ref(ss@, refname@)) {
            (Some(i), Some(e)) => i < ss@.len() && ss@[i as int] == e,
            (None, None) => true,
            _ => false,
        },
{
    let want = chars_of(refname);
    let mut i: usize = 0;
    assert(ss@.subrange(0, ss@.len() as int) =~= ss@);
    while i < ss.len()
        invariant
            i <= ss@.len(),
            want@ == refname@,
            stash_by_ref(ss@, refname@) == stash_by_ref(ss@.subrange(i as int, ss@.len() as int), refname@),
        decreases ss@.len() - i,
    {
        let ghost rest = ss@.subrange(i as int, ss@.len() as int);
        proof {
            assert(rest[0] == ss@[i as int]);
            assert(rest.drop_first() =~= ss@.subrange(i + 1, ss@.len() as int));
        }
        let r = ss[i].refname();
        if crate::text::chars_eq(&chars_of(r.as_str()), &want) {
            return Some(i);
        }
        i += 1;
    }
    None
}

impl App {
    /// Opens `repo`: the file selection, message and amend flag start fresh
    /// and the repository goes to the front of the recent list.
    pub fn opened(&mut self, repo: Repo)
        ensures
            final(self).repo == Some(repo),
            final(self).commit_msg@.len() == 0,
            views(final(self).recent@) == crate::config::recent_after(
                views(old(self).recent@),
                repo.root@,
            ),
            final(self).amend_files@.len() == 0,
            *final(self) == (App {
                repo: Some(repo),
                sel_file: None,
                diff: None,
                commit_msg: final(self).commit_msg,
                amend: false,
                amend_base: None,
                amend_files: final(self).amend_files,
                merging: None,
                error: None,
                recent: final(self).recent,
                ..*old(self)
            }),
    {
        crate::config::push_recent(&mut self.recent, repo.root.as_str());
        self.repo = Some(repo);
        self.sel_file = None;
        self.diff = None;
        self.commit_msg = String::new();
        self.amend = false;
        self.amend_base = None;
        self.amend_files = Vec::new();
        self.merging = None;
        self.error = None;
    }

    /// Selects a file; its diff is loaded next and takes keyboard focus.
    pub fn select_file(&mut self, pane: Pane, path: &str)
        ensures
            final(self).sel_file matches Some(s) && s.pane == pane && s.path@ == path@,
            *final(self) == (App { sel_file: final(self).sel_file, focus_diff: true, ..*old(self) }),
    {
        self.sel_file = Some(FileSel { pane, path: string_of(&chars_of(path)) });
        self.focus_diff = true;
    }

    /// Selects a commit of the history; its files and details are loaded next.
    pub fn select_commit(&mut self, sha: &str)
        ensures
            final(self).sel_commit matches Some(s) && s@ == sha@,
            final(self).find.matches@.len() == 0,
            *final(self) == (App {
                sel_commit: final(self).sel_commit,
                sel_file: None,
                diff: None,
                find: Find { matches: final(self).find.matches, ..old(self).find },
                ..*old(self)
            }),
    {
        self.sel_commit = Some(string_of(&chars_of(sha)));
        self.sel_file = None;
        self.diff = None;
        self.find.matches.clear();
    }

    /// Selects the stash at `index`, whose files are loaded next, and says
    /// whether there was one; an index past the list changes nothing.
    pub fn select_stash(&mut self, index: usize) -> (r: bool)
        ensures
            r == (index < old(self).stashes@.len()),
            !r ==> *final(self) == *old(self),
            r ==> {
                &&& final(self).find.matches@.len() == 0
                &&& *final(self) == (App {
                    sel_stash: Some(index),
                    sel_file: None,
                    diff: None,
                    find: Find { matches: final(self).find.matches, ..old(self).find },
                    ..*old(self)
                })
            },
    {
        if index >= self.stashes.len() {
            return false;
        }
        self.sel_stash = Some(index);
        self.sel_file = None;
        self.diff = None;
        self.find.matches.clear();
        true
    }
}

impl App {
    /// Records a stash that was just created.
    pub fn stash_created(&mut self)
        ensures
            final(self).stash_message@.len() == 0,
            final(self).info matches Some(i) && i@ == "Stashed the working tree."@,
            *final(self) == (App {
                show_stash_dialog: false,
                stash_message: final(self).stash_message,
                info: final(self).info,
                sel_file: None,
                diff: None,
                ..*old(self)
            }),
    {
        self.show_stash_dialog = false;
        self.stash_message = String::new();
        self.info = Some(String::from_str("Stashed the working tree."));
        self.sel_file = None;
        self.diff = None;
    }

    /// Records how applying (or popping) a stash went. Conflicts land in the
    /// error case; git's message explains what to do.
    pub fn stash_applied(&mut self, refname: &str, pop: bool, result: Result<String, String>)
        ensures
            match result {
                Ok(out) => {
                    let verb = if pop {
                        "Popped"@
                    } else {
                        "Applied"@
                    };
                    &&& final(self).info matches Some(i) && i@ == verb + " "@ + refname@ + "."@
                    &&& outcome_view(final(self).outcome) == (if trim(out@).len() > 0 {
                        Some((true, verb + " "@ + refname@, trim(out@)))
                    } else {
                        outcome_view(old(self).outcome)
                    })
                    &&& final(self).sel_stash is None
                    &&& final(self).stash_files@.len() == 0
                },
                Err(e) => {
                    &&& outcome_view(final(self).outcome) == Some(
                        (
                            false,
                            "Could not "@ + (if pop {
                                "pop"@
                            } else {
                                "apply"@
                            }) + " "@ + refname@,
                            e@,
                        ),
                    )
                    &&& final(self).error matches Some(m) && m@ == refname@
                        + " did not apply cleanly."@
                    &&& *final(self) == (App {
                        outcome: final(self).outcome,
                        error: final(self).error,
                        ..*old(self)
                    })
                },
            },
    {
        let verb = if pop {
            "Popped"
        } else {
            "Applied"
        };
        match result {
            Ok(out) => {
                let mut info = String::new();
                append_str(&mut info, verb);
                append_str(&mut info, " ");
                append_str(&mut info, refname);
                append_str(&mut info, ".");
                self.info = Some(info);
                let t = trim_exec(&chars_of(out.as_str()));
                if t.len() > 0 {
                    let mut title = String::new();
                    append_str(&mut title, verb);
                    append_str(&mut title, " ");
                    append_str(&mut title, refname);
                    self.outcome = Some(TaskOutcome { ok: true, title, output: string_of(&t) });
                }
                self.clear_stash_selection();
            },
            Err(e) => {
                let mut title = String::new();
                append_str(&mut title, "Could not ");
                append_str(
                    &mut title,
                    if pop {
                        "pop"
                    } else {
                        "apply"
                    },
                );
                append_str(&mut title, " ");
                append_str(&mut title, refname);
                self.outcome = Some(TaskOutcome { ok: false, title, output: e });
                let mut m = string_of(&chars_of(refname));
                append_str(&mut m, " did not apply cleanly.");
                self.error = Some(m);
            },
        }
    }

    /// Records a dropped stash. Its commit outlives the entry, so the drop
    /// can be undone when the entry was known.
    pub fn stash_dropped(&mut self, refname: &str)
        ensures
            match stash_by_ref(old(self).stashes@, refname@) {
                Some(e) => {
                    &&& final(self).undo@.len() > 0
                    &&& final(self).undo@.last().action == UndoAction::RestoreStash {
                        sha: e.sha,
                        message: e.subject,
                    }
                    &&& final(self).undo@.last().label@ == refname@ + " — "@ + stash_message(
                        e.subject@,
                    )
                    &&& final(self).undo@ == undo_after(old(self).undo@, final(self).undo@.last())
                    &&& final(self).info matches Some(i) && i@ == "Dropped "@ + refname@
                        + ". ⌘Z to undo."@
                },
                None => {
                    &&& final(self).undo == old(self).undo
                    &&& final(self).info matches Some(i) && i@ == "Dropped "@ + refname@ + "."@
                },
            },
            final(self).sel_stash is None,
            final(self).stash_files@.len() == 0,
    {
        match stash_index_by_ref(&self.stashes, refname) {
            Some(i) => {
                let sha = self.stashes[i].sha.clone();
                let message = self.stashes[i].subject.clone();
                let mut label = string_of(&chars_of(refname));
                append_str(&mut label, " — ");
                let m = self.stashes[i].message();
                append_str(&mut label, m.as_str());
                self.push_undo(UndoAction::RestoreStash { sha, message }, label);
                let mut info = String::new();
                append_str(&mut info, "Dropped ");
                append_str(&mut info, refname);
                append_str(&mut info, ". ⌘Z to undo.");
                self.info = Some(info);
            },
            None => {
                let mut info = String::new();
                append_str(&mut info, "Dropped ");
                append_str(&mut info, refname);
                append_str(&mut info, ".");
                self.info = Some(info);
            },
        }
        self.clear_stash_selection();
    }

    /// Records a discarded file, with what can bring it back when that was
    /// captured first.
    pub fn file_discarded(&mut self, path: &str, undo: Option<UndoAction>)
        ensures
            match undo {
                Some(a) => final(self).undo@.len() > 0 && final(self).undo@.last().action == a
                    && final(self).undo@.last().label@ == path@ && final(self).undo@ == undo_after(
                    old(self).undo@,
                    final(self).undo@.last(),
                ) && (final(self).info matches Some(i) && i@ == "Discarded changes in "@ + path@
                    + ". ⌘Z to undo."@),
                None => final(self).undo == old(self).undo && (final(self).info matches Some(i)
                    && i@ == "Discarded changes in "@ + path@ + "."@),
            },
            *final(self) == (App { undo: final(self).undo, info: final(self).info, ..*old(self) }),
    {
        let mut info = String::new();
        append_str(&mut info, "Discarded changes in ");
        append_str(&mut info, path);
        match undo {
            Some(a) => {
                self.push_undo(a, string_of(&chars_of(path)));
                append_str(&mut info, ". ⌘Z to undo.");
            },
            None => {
                append_str(&mut info, ".");
            },
        }
        self.info = Some(info);
    }

    /// Records how taking back a discard went; a failed attempt keeps the
    /// entry available rather than silently dropping the content.
    pub fn undo_finished(&mut self, entry: UndoEntry, result: Result<(), String>)
        ensures
            match result {
                Ok(_) => final(self).info matches Some(i) && i@ == "Restored "@ + entry.label@ + "."@
                    && *final(self) == (App { info: final(self).info, ..*old(self) }),
                Err(e) => final(self).error matches Some(m) && m@ == "Could not undo: "@ + e@
                    + ". The file may have changed since."@ && final(self).undo@ == old(
                    self,
                ).undo@.push(entry) && *final(self) == (App {
                    error: final(self).error,
                    undo: final(self).undo,
                    ..*old(self)
                }),
            },
    {
        match result {
            Ok(_) => {
                let mut info = String::new();
                append_str(&mut info, "Restored ");
                append_str(&mut info, entry.label.as_str());
                append_str(&mut info, ".");
                self.info = Some(info);
            },
            Err(e) => {
                let mut m = String::new();
                append_str(&mut m, "Could not undo: ");
                append_str(&mut m, e.as_str());
                append_str(&mut m, ". The file may have changed since.");
                self.error = Some(m);
                self.undo.push(entry);
            },
        }
    }

    /// Records a switch to branch `name`.
    pub fn branch_switched(&mut self, name: &str)
        ensures
            final(self).info matches Some(i) && i@ == "Switched to "@ + name@ + "."@,
            *final(self) == (App { info: final(self).info, sel_file: None, diff: None, ..*old(self) }),
    {
        let mut info = String::new();
        append_str(&mut info, "Switched to ");
        append_str(&mut info, name);
        append_str(&mut info, ".");
        self.info = Some(info);
        self.sel_file = None;
        self.diff = None;
    }

    /// Records a new branch `name` that is now checked out.
    pub fn branch_created(&mut self, name: &str)
        ensures
            final(self).info matches Some(i) && i@ == "Created and switched to "@ + name@ + "."@,
            final(self).new_branch@.len() == 0,
            *final(self) == (App {
                info: final(self).info,
                new_branch: final(self).new_branch,
                show_new_branch: false,
                ..*old(self)
            }),
    {
        let mut info = String::new();
        append_str(&mut info, "Created and switched to ");
        append_str(&mut info, name);
        append_str(&mut info, ".");
        self.info = Some(info);
        self.new_branch = String::new();
        self.show_new_branch = false;
    }

    /// Turns amending on or off; says whether the last commit's message
    /// should be fetched to fill the empty message box. An unborn branch
    /// has no commit to amend, and says so. The staged pane's base starts
    /// unknown until `amend_loaded` supplies it.
    #[verifier::rlimit(40)]
    pub fn set_amend(&mut self, on: bool) -> (fetch: bool)
        ensures
            on && old(self).status.unborn ==> {
                &&& !fetch
                &&& final(self).error matches Some(e) && e@ == NOTHING_TO_AMEND@
                &&& *final(self) == (App { amend: false, error: final(self).error, ..*old(self) })
            },
            !(on && old(self).status.unborn) ==> {
                &&& fetch == (on && trim(old(self).commit_msg@).len() == 0)
                &&& final(self).amend_files@.len() == 0
                &&& *final(self) == (App {
                    amend: on,
                    amend_base: None,
                    amend_files: final(self).amend_files,
                    ..*old(self)
                })
            },
    {
        if on && self.status.unborn {
            self.amend = false;
            self.error = Some(String::from_str(NOTHING_TO_AMEND));
            return false;
        }
        self.amend = on;
        self.amend_base = None;
        self.amend_files = Vec::new();
        on && trim_exec(&chars_of(self.commit_msg.as_str())).len() == 0
    }

    /// Fills the message box with the last commit's message, trailing
    /// white space removed.
    pub fn fill_amend_message(&mut self, message: &str)
        ensures
            final(self).commit_msg@ == trim_end(message@),
            *final(self) == (App { commit_msg: final(self).commit_msg, ..*old(self) }),
    {
        self.commit_msg = string_of(&trim_end_exec(&chars_of(message)));
    }
}

/// Folding keeps one character per character, so a hit's columns in the
/// folded text are its columns on screen.
pub proof fn law_fold_keeps_columns(s: Seq<char>, case_sensitive: bool)
    ensures
        fold_spec(s, case_sensitive).len() == s.len(),
        forall|i: int|
            0 <= i < s.len() ==> #[trigger] fold_spec(s, case_sensitive)[i] == (if case_sensitive {
                s[i]
            } else {
                char_lower(s[i])
            }),
{
}

} // verus!
