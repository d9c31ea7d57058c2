//! Picking characters out of the diff. A drag over the code selects text,
//! apart from the line selection used for staging, and copying hands out the
//! code alone: no line numbers and no `+`/`-` markers to strip afterwards.
//! Also here: which working-tree line the cursor stands on, for the editor.

use vstd::prelude::*;
use crate::app::{clamp_to_rows, opt_text, App, Loaded, Row, TextPos};
use crate::git::diff::{hunk_header_text, LineKind};
use crate::text::{append_chars, chars_of, join, join_terminated, slice_of};

verus! {

/// `a` comes no later than `b`, rows first, then columns.
pub open spec fn pos_le(a: TextPos, b: TextPos) -> bool {
    a.row < b.row || (a.row == b.row && a.col <= b.col)
}

/// The smaller of two integers.
pub open spec fn min_int(a: int, b: int) -> int {
    if a <= b {
        a
    } else {
        b
    }
}

impl Loaded {
    /// The selectable text of `row`: a diff line's code (the no-newline
    /// marker is not code), or a hunk header as shown; a note has none.
    pub open spec fn code_spec(&self, row: int) -> Option<Seq<char>> {
        if 0 <= row < self.rows@.len() {
            match self.rows@[row] {
                Row::Line { hunk, line } => if hunk < self.fd@.hunks.len() && line
                    < self.fd@.hunks[hunk as int].lines.len()
                    && self.fd@.hunks[hunk as int].lines[line as int].kind != LineKind::NoNewline {
                    Some(self.fd@.hunks[hunk as int].lines[line as int].text)
                } else {
                    None
                },
                Row::Hunk(h) => if h < self.fd@.hunks.len() {
                    let k = self.fd@.hunks[h as int];
                    Some(hunk_header_text(k.old_start, k.old_count, k.new_start, k.new_count, k.section))
                } else {
                    None
                },
                Row::Note(_) => None,
            }
        } else {
            None
        }
    }

    /// The dragged range, earlier end first.
    pub open spec fn text_range(&self) -> Option<(TextPos, TextPos)> {
        match (self.text_anchor, self.text_head) {
            (Some(a), Some(b)) => if pos_le(a, b) {
                Some((a, b))
            } else {
                Some((b, a))
            },
            _ => None,
        }
    }

    /// The highlighted columns of `row`: from the start column on the first
    /// row, to the end column on the last, the whole code in between, each
    /// end clamped to the row's length.
    pub open spec fn span_spec(&self, row: int) -> Option<(int, int)> {
        match self.text_range() {
            Some((s, e)) => match self.code_spec(row) {
                Some(t) => if s.row <= row <= e.row {
                    Some(
                        (
                            if row == s.row {
                                min_int(s.col as int, t.len() as int)
                            } else {
                                0
                            },
                            if row == e.row {
                                min_int(e.col as int, t.len() as int)
                            } else {
                                t.len() as int
                            },
                        ),
                    )
                } else {
                    None
                },
                None => None,
            },
            None => None,
        }
    }

    /// The highlighted pieces of the rows before `n`, in row order.
    pub open spec fn pieces(&self, n: int) -> Seq<Seq<char>>
        decreases n,
    {
        if n <= 0 {
            seq![]
        } else {
            let prev = self.pieces(n - 1);
            match (self.span_spec(n - 1), self.code_spec(n - 1)) {
                (Some((lo, hi)), Some(t)) => prev.push(t.subrange(lo, hi)),
                _ => prev,
            }
        }
    }

    /// The code of the selected rows before `n`, in row order.
    pub open spec fn sel_code(&self, n: int) -> Seq<Seq<char>>
        decreases n,
    {
        if n <= 0 {
            seq![]
        } else {
            let prev = self.sel_code(n - 1);
            if self.sel@.contains((n - 1) as usize) {
                match self.code_spec(n - 1) {
                    Some(t) => prev.push(t),
                    None => prev,
                }
            } else {
                prev
            }
        }
    }

    /// What copying hands out: the highlighted text, its rows joined by
    /// newlines, when any is highlighted; otherwise each selected line's code
    /// followed by a newline; otherwise nothing.
    pub open spec fn clipboard_spec(&self) -> Option<Seq<char>> {
        let n = self.rows@.len() as int;
        let highlighted = join(self.pieces(n), seq!['\n']);
        if highlighted.len() > 0 {
            Some(highlighted)
        } else if self.sel_code(n).len() > 0 {
            Some(join_terminated(self.sel_code(n), seq!['\n']))
        } else {
            None
        }
    }
}

/// The line number to hand an editor for `row`: a line's new-side number;
/// for a line with none (a deletion), the nearest one above it; a hunk
/// header's new-side start; and never less than one.
pub open spec fn line_for_row(d: Loaded, r: int) -> int
    decreases r + 1,
{
    if r < 0 || r >= d.rows@.len() {
        1
    } else {
        match d.rows@[r] {
            Row::Line { hunk, line } => if hunk < d.fd@.hunks.len() && line
                < d.fd@.hunks[hunk as int].lines.len() {
                match d.fd@.hunks[hunk as int].lines[line as int].new_no {
                    Some(n) => if n == 0 {
                        1
                    } else {
                        n as int
                    },
                    None => line_for_row(d, r - 1),
                }
            } else {
                line_for_row(d, r - 1)
            },
            Row::Hunk(h) => if h < d.fd@.hunks.len() && d.fd@.hunks[h as int].new_start > 0 {
                d.fd@.hunks[h as int].new_start as int
            } else {
                1
            },
            Row::Note(_) => line_for_row(d, r - 1),
        }
    }
}

/// A newline-joined text grows by one piece.
proof fn lemma_join_push(p: Seq<Seq<char>>, x: Seq<char>)
    ensures
        join(p.push(x), seq!['\n']) == (if p.len() == 0 {
            x
        } else {
            join(p, seq!['\n']) + seq!['\n'] + x
        }),
{
    assert(p.push(x).drop_last() =~= p);
    if p.len() == 0 {
        assert(p.push(x)[0] == x);
    }
}

/// A newline-terminated text grows by one piece.
proof fn lemma_join_terminated_push(p: Seq<Seq<char>>, x: Seq<char>)
    ensures
        join_terminated(p.push(x), seq!['\n']) == join_terminated(p, seq!['\n']) + x + seq!['\n'],
{
    assert(p.push(x).drop_last() =~= p);
}

impl Loaded {
    /// The selectable text of `row`, as characters.
    pub fn row_text(&self, row: usize) -> (r: Option<Vec<char>>)
        ensures
            match (r, self.code_spec(row as int)) {
                (Some(v), Some(t)) => v@ == t,
                (None, None) => true,
                _ => false,
            },
    {
        if row >= self.rows.len() {
            return None;
        }
        match &self.rows[row] {
            Row::Line { hunk, line } => {
                let h = *hunk;
                let l = *line;
                if h < self.fd.hunks.len() && l < self.fd.hunks[h].lines.len() {
                    proof {
                        assert(self.fd@.hunks[h as int] == self.fd.hunks@[h as int]@);
                        assert(self.fd@.hunks[h as int].lines[l as int]
                            == self.fd.hunks@[h as int].lines@[l as int]@);
                    }
                    match self.fd.hunks[h].lines[l].kind {
                        LineKind::NoNewline => None,
                        _ => Some(chars_of(self.fd.hunks[h].lines[l].text.as_str())),
                    }
                } else {
                    None
                }
            },
            Row::Hunk(h) => {
                let h = *h;
                if h < self.fd.hunks.len() {
                    proof {
                        assert(self.fd@.hunks[h as int] == self.fd.hunks@[h as int]@);
                    }
                    Some(chars_of(self.fd.hunks[h].header().as_str()))
                } else {
                    None
                }
            },
            Row::Note(_) => None,
        }
    }

    /// The dragged range, earlier end first.
    fn text_range_exec(&self) -> (r: Option<(TextPos, TextPos)>)
        ensures
            r == self.text_range(),
    {
        match (self.text_anchor, self.text_head) {
            (Some(a), Some(b)) => {
                if a.row < b.row || (a.row == b.row && a.col <= b.col) {
                    Some((a, b))
                } else {
                    Some((b, a))
                }
            },
            _ => None,
        }
    }

    /// The highlighted columns of a row whose code is `len` characters long.
    fn span_in(&self, row: usize, len: usize) -> (r: Option<(usize, usize)>)
        requires
            self.code_spec(row as int) is Some,
            self.code_spec(row as int)->0.len() == len,
        ensures
            match (r, self.span_spec(row as int)) {
                (Some((a, b)), Some((x, y))) => a == x && b == y && a <= b <= len,
                (None, None) => true,
                _ => false,
            },
    {
        match self.text_range_exec() {
            Some((s, e)) => {
                if s.row <= row && row <= e.row {
                    let lo = if row == s.row {
                        if s.col <= len {
                            s.col
                        } else {
                            len
                        }
                    } else {
                        0
                    };
                    let hi = if row == e.row {
                        if e.col <= len {
                            e.col
                        } else {
                            len
                        }
                    } else {
                        len
                    };
                    Some((lo, hi))
                } else {
                    None
                }
            },
            None => None,
        }
    }

    /// Starts a drag over the code at `p`; nothing is highlighted until it
    /// moves.
    pub fn begin_text_sel(&mut self, p: TextPos)
        ensures
            *final(self) == (Loaded {
                text_anchor: Some(p),
                text_head: Some(p),
                text_dragging: true,
                ..*old(self)
            }),
    {
        self.text_anchor = Some(p);
        self.text_head = Some(p);
        self.text_dragging = true;
    }

    /// Moves the dragged end of the text selection to `p`.
    pub fn set_text_head(&mut self, p: TextPos)
        ensures
            *final(self) == (Loaded { text_head: Some(p), ..*old(self) }),
    {
        self.text_head = Some(p);
    }

    /// Ends the drag, keeping what it highlighted.
    pub fn end_text_drag(&mut self)
        ensures
            *final(self) == (Loaded { text_dragging: false, ..*old(self) }),
    {
        self.text_dragging = false;
    }

    /// Drops the text selection.
    pub fn clear_text_sel(&mut self)
        ensures
            *final(self) == (Loaded {
                text_anchor: None,
                text_head: None,
                text_dragging: false,
                ..*old(self)
            }),
    {
        self.text_anchor = None;
        self.text_head = None;
        self.text_dragging = false;
    }

    /// Puts the cursor back where it was before a reload, as near as the
    /// reloaded rows allow.
    pub fn keep_cursor(&mut self, cursor: usize)
        ensures
            *final(self) == (Loaded { cursor: clamp_to_rows(cursor, old(self).rows@.len()), ..*old(self) }),
    {
        let n = self.rows.len();
        self.cursor = if n == 0 {
            0
        } else if cursor < n - 1 {
            cursor
        } else {
            n - 1
        };
    }

    /// Drops both selections: the picked lines and the highlighted text.
    pub fn clear_selection(&mut self)
        ensures
            final(self).sel@ == Set::<usize>::empty(),
            *final(self) == (Loaded {
                sel: final(self).sel,
                text_anchor: None,
                text_head: None,
                text_dragging: false,
                ..*old(self)
            }),
            old(self).wf() ==> final(self).wf(),
    {
        self.sel.clear();
        self.clear_text_sel();
    }

    /// The highlighted columns of `row`, if any of it lies in the dragged
    /// range.
    pub fn text_sel_span(&self, row: usize) -> (r: Option<(usize, usize)>)
        ensures
            match (r, self.span_spec(row as int)) {
                (Some((a, b)), Some((x, y))) => a == x && b == y,
                (None, None) => true,
                _ => false,
            },
    {
        match self.row_text(row) {
            Some(code) => self.span_in(row, code.len()),
            None => None,
        }
    }

    /// What copying hands out: the highlighted code when there is any, else
    /// the code of the selected lines, each ending in a newline.
    pub fn clipboard_text(&self) -> (r: Option<String>)
        ensures
            opt_text(r) == self.clipboard_spec(),
    {
        let n = self.rows.len();
        let mut hl: Vec<char> = Vec::new();
        let mut hl_count: usize = 0;
        let mut lines: Vec<char> = Vec::new();
        let mut lines_count: usize = 0;
        let mut i: usize = 0;
        while i < n
            invariant
                n == self.rows@.len(),
                i <= n,
                hl@ == join(self.pieces(i as int), seq!['\n']),
                hl_count == self.pieces(i as int).len(),
                hl_count <= i,
                lines@ == join_terminated(self.sel_code(i as int), seq!['\n']),
                lines_count == self.sel_code(i as int).len(),
                lines_count <= i,
            decreases n - i,
        {
            match self.row_text(i) {
                Some(code) => {
                    let ghost t = code@;
                    match self.span_in(i, code.len()) {
                        Some((lo, hi)) => {
                            let piece = slice_of(&code, lo, hi);
                            proof {
                                lemma_join_push(self.pieces(i as int), piece@);
                            }
                            if hl_count > 0 {
                                hl.push('\n');
                            }
                            let ghost before = hl@;
                            let mut k: usize = 0;
                            while k < piece.len()
                                invariant
                                    k <= piece@.len(),
                                    hl@ == before + piece@.subrange(0, k as int),
                                decreases piece@.len() - k,
                            {
                                hl.push(piece[k]);
                                k += 1;
                                assert(hl@ =~= before + piece@.subrange(0, k as int));
                            }
                            assert(piece@.subrange(0, k as int) =~= piece@);
                            assert(hl@ =~= join(self.pieces(i as int + 1), seq!['\n']));
                            hl_count += 1;
                        },
                        None => {},
                    }
                    if self.sel.contains(&i) {
                        proof {
                            lemma_join_terminated_push(self.sel_code(i as int), t);
                        }
                        let ghost before = lines@;
                        let mut k: usize = 0;
                        while k < code.len()
                            invariant
                                k <= code@.len(),
                                lines@ == before + code@.subrange(0, k as int),
                            decreases code@.len() - k,
                        {
                            lines.push(code[k]);
                            k += 1;
                            assert(lines@ =~= before + code@.subrange(0, k as int));
                        }
                        assert(code@.subrange(0, k as int) =~= code@);
                        lines.push('\n');
                        assert(lines@ =~= join_terminated(self.sel_code(i as int + 1), seq!['\n']));
                        lines_count += 1;
                    }
                },
                None => {},
            }
            i += 1;
        }
        if hl.len() > 0 {
            let mut s = String::new();
            append_chars(&mut s, &hl);
            Some(s)
        } else if lines_count > 0 {
            let mut s = String::new();
            append_chars(&mut s, &lines);
            Some(s)
        } else {
            None
        }
    }
}

impl App {
    /// The working-tree line the diff's cursor stands on, for handing the
    /// file to an editor; line one when no diff is open.
    pub fn cursor_line(&self) -> (r: u32)
        ensures
            r == (match self.diff {
                Some(d) => line_for_row(d, d.cursor as int),
                None => 1,
            }),
    {
        match &self.diff {
            Some(d) => {
                if d.cursor >= d.rows.len() {
                    return 1;
                }
                let mut k: usize = d.cursor + 1;
                while k > 0
                    invariant
                        self.diff == Some(*d),
                        k <= d.cursor + 1,
                        d.cursor < d.rows@.len(),
                        line_for_row(*d, d.cursor as int) == line_for_row(*d, k - 1),
                    decreases k,
                {
                    let r = k - 1;
                    let row = &d.rows[r];
                    proof {
                        assert(*row == d.rows@[r as int]);
                    }
                    match row {
                        Row::Line { hunk, line } => {
                            let h = *hunk;
                            let l = *line;
                            if h < d.fd.hunks.len() && l < d.fd.hunks[h].lines.len() {
                                proof {
                                    assert(d.fd@.hunks[h as int] == d.fd.hunks@[h as int]@);
                                    assert(d.fd@.hunks[h as int].lines[l as int]
                                        == d.fd.hunks@[h as int].lines@[l as int]@);
                                }
                                match d.fd.hunks[h].lines[l].new_no {
                                    Some(n) => {
                                        assert(line_for_row(*d, r as int) == (if n == 0 {
                                            1
                                        } else {
                                            n as int
                                        }));
                                        return if n == 0 {
                                            1
                                        } else {
                                            n
                                        };
                                    },
                                    None => {},
                                }
                            }
                        },
                        Row::Hunk(h) => {
                            let h = *h;
                            if h < d.fd.hunks.len() {
                                proof {
                                    assert(d.fd@.hunks[h as int] == d.fd.hunks@[h as int]@);
                                }
                                if d.fd.hunks[h].new_start > 0 {
                                    assert(line_for_row(*d, r as int) == d.fd.hunks[h as int].new_start);
                                    return d.fd.hunks[h].new_start;
                                }
                            }
                            return 1;
                        },
                        Row::Note(_) => {},
                    }
                    k -= 1;
                }
                1
            },
            None => 1,
        }
    }
}

/// Pieces depend on the dragged range only through where it starts and
/// ends, not on which end the drag began at.
proof fn lemma_pieces_same(a: Loaded, b: Loaded, n: int)
    requires
        a.text_range() == b.text_range(),
        a.rows == b.rows,
        a.fd == b.fd,
    ensures
        a.pieces(n) == b.pieces(n),
    decreases n,
{
    if n > 0 {
        lemma_pieces_same(a, b, n - 1);
        assert(a.span_spec(n - 1) == b.span_spec(n - 1));
        assert(a.code_spec(n - 1) == b.code_spec(n - 1));
    }
}

/// Dragging backwards copies the same text as dragging forwards between
/// the same two places.
pub proof fn law_backwards_drag_copies_the_same(d: Loaded, p: TextPos, q: TextPos)
    ensures
        (Loaded { text_anchor: Some(p), text_head: Some(q), ..d }).clipboard_spec() == (Loaded {
            text_anchor: Some(q),
            text_head: Some(p),
            ..d
        }).clipboard_spec(),
{
    let a = Loaded { text_anchor: Some(p), text_head: Some(q), ..d };
    let b = Loaded { text_anchor: Some(q), text_head: Some(p), ..d };
    if pos_le(p, q) && pos_le(q, p) {
        assert(p == q);
    }
    assert(a.text_range() == b.text_range());
    lemma_pieces_same(a, b, a.rows@.len() as int);
    lemma_sel_code_same(a, b, a.rows@.len() as int);
}

/// The selected lines' code does not depend on the dragged range.
proof fn lemma_sel_code_same(a: Loaded, b: Loaded, n: int)
    requires
        a.rows == b.rows,
        a.fd == b.fd,
        a.sel == b.sel,
    ensures
        a.sel_code(n) == b.sel_code(n),
    decreases n,
{
    if n > 0 {
        lemma_sel_code_same(a, b, n - 1);
        assert(a.code_spec(n - 1) == b.code_spec(n - 1));
    }
}

/// A line handed to an editor is never line zero.
pub proof fn law_cursor_line_is_positive(d: Loaded, r: int)
    ensures
        line_for_row(d, r) >= 1,
    decreases r + 1,
{
    if 0 <= r < d.rows@.len() {
        law_cursor_line_is_positive(d, r - 1);
    }
}

/// A highlighted span lies within its row's code, start before end.
pub proof fn law_span_within_row(d: Loaded, row: int)
    ensures
        match (d.span_spec(row), d.code_spec(row)) {
            (Some((lo, hi)), Some(t)) => 0 <= lo <= hi <= t.len(),
            (Some(_), None) => false,
            _ => true,
        },
{
}

} // verus!
