//! What a press or a click on a diff row does to the selection. A press in
//! the line-number gutter picks lines for staging; a click over the text
//! picks the line too, or the whole hunk on a header; shift extends from the
//! anchor and ⌘ toggles. Either drops a character highlight.

use vstd::prelude::*;
use crate::app::{header_from, range_between, same_content, toggle_sel, Loaded, Row};

verus! {

/// The line selection after a pick of `row`: shift extends from the anchor,
/// ⌘ toggles the row, a plain pick selects the row alone.
pub open spec fn picked(d: Loaded, row: usize, shift: bool, cmd: bool) -> Set<usize> {
    if shift {
        range_between(
            d,
            match d.anchor {
                Some(a) => a as int,
                None => row as int,
            },
            row as int,
        )
    } else if cmd {
        toggle_sel(d.sel@, d.change_row(row as int), row)
    } else if d.change_row(row as int) {
        set![row]
    } else {
        Set::<usize>::empty()
    }
}

/// The anchor after a pick of `row`: shift keeps it, anything else moves it
/// to the row.
pub open spec fn picked_anchor(d: Loaded, row: usize, shift: bool) -> Option<usize> {
    if shift {
        d.anchor
    } else {
        Some(row)
    }
}

impl Loaded {
    /// Picks `row` the way a click does; the highlight is already gone.
    fn pick(&mut self, row: usize, shift: bool, cmd: bool)
        ensures
            same_content(*final(self), *old(self)),
            final(self).sel@ == picked(*old(self), row, shift, cmd),
            final(self).anchor == picked_anchor(*old(self), row, shift),
            final(self).cursor == row,
            old(self).wf() ==> final(self).wf(),
    {
        if shift {
            self.extend_to(row);
        } else if cmd {
            self.toggle(row);
        } else {
            self.select_only(row);
        }
    }

    /// A press in the line-number gutter: picks `row` (a plain press also
    /// starts sweeping lines with the pointer) and drops any highlight.
    pub fn gutter_press(&mut self, row: usize, shift: bool, cmd: bool)
        ensures
            final(self).text_anchor is None,
            final(self).text_head is None,
            !final(self).text_dragging,
            final(self).sel@ == picked(*old(self), row, shift, cmd),
            final(self).anchor == picked_anchor(*old(self), row, shift),
            final(self).cursor == row,
            final(self).dragging == (old(self).dragging || (!shift && !cmd)),
            final(self).fd == old(self).fd,
            final(self).rows == old(self).rows,
            final(self).max_chars == old(self).max_chars,
            final(self).untracked == old(self).untracked,
            final(self).scroll_to_cursor == old(self).scroll_to_cursor,
            old(self).wf() ==> final(self).wf(),
    {
        self.clear_text_sel();
        self.pick(row, shift, cmd);
        if !shift && !cmd {
            self.dragging = true;
        }
    }

    /// A click over a row's text: on a hunk header it selects that hunk's
    /// changes; elsewhere it picks the row. Any highlight is dropped.
    pub fn text_click(&mut self, row: usize, shift: bool, cmd: bool)
        ensures
            final(self).text_anchor is None,
            final(self).text_head is None,
            !final(self).text_dragging,
            final(self).fd == old(self).fd,
            final(self).rows == old(self).rows,
            final(self).max_chars == old(self).max_chars,
            final(self).untracked == old(self).untracked,
            final(self).scroll_to_cursor == old(self).scroll_to_cursor,
            final(self).dragging == old(self).dragging,
            match (if row < old(self).rows@.len() {
                Some(old(self).rows@[row as int])
            } else {
                None
            }) {
                Some(Row::Hunk(h)) => {
                    &&& final(self).sel@ == old(self).hunk_change_rows(h)
                    &&& match header_from(old(self).rows@, h, 0) {
                        Some(f) => final(self).anchor == Some(f) && final(self).cursor == f,
                        None => final(self).anchor == old(self).anchor && final(self).cursor == old(
                            self,
                        ).cursor,
                    }
                },
                _ => {
                    &&& final(self).sel@ == picked(*old(self), row, shift, cmd)
                    &&& final(self).anchor == picked_anchor(*old(self), row, shift)
                    &&& final(self).cursor == row
                },
            },
            old(self).wf() ==> final(self).wf(),
    {
        self.clear_text_sel();
        let header = if row < self.rows.len() {
            match &self.rows[row] {
                Row::Hunk(h) => Some(*h),
                _ => None,
            }
        } else {
            None
        };
        match header {
            Some(h) => self.select_hunk(h),
            None => self.pick(row, shift, cmd),
        }
    }
}

} // verus!
