//! Builds a patch containing only a chosen subset of a diff's changed lines,
//! suitable for `git apply` (optionally `--cached` and/or `--reverse`).
//!
//! The transformation for lines the user did *not* select depends on which
//! direction the patch will be applied, because the side that must match the
//! target flips:
//!
//! * Forward (stage: index -> worktree patch applied to the index). The target
//!   is the patch's *old* side, which is the index. Unselected deletions still
//!   exist there and must survive, so they become context. Unselected additions
//!   do not exist there at all, so they are dropped.
//! * Reverse (unstage, or discard from the worktree). The target is the patch's
//!   *new* side. Unselected additions exist there and must survive, so they
//!   become context; unselected deletions are dropped.

use vstd::prelude::*;
use crate::text::{append_chars, append_str, chars_eq, chars_of, join_terminated, push_char, starts_with, starts_with_str, string_of, views};
use super::diff::{
    law_hunk_header_round_trip, parse_hunk_header_spec, hunk_header_text, hunk_views, is_change_kind, count_changes, line_text, line_views, markers_marked, push_hunk_header, side_path, DiffLine,
    FileDiff, FileDiffV, HunkV, LineKind, LineV,
};

verus! {

#[derive(Clone, Copy, PartialEq, Eq, Debug, Structural)]
pub enum ApplyMode {
    Forward,
    Reverse,
}

// ---------------------------------------------------------------------------
// Specification
// ---------------------------------------------------------------------------

/// The marker a non-marker line is emitted with, or `None` when it is dropped.
///
/// | | unselected `+` | unselected `-` |
/// | --- | --- | --- |
/// | Forward | dropped | becomes context |
/// | Reverse | becomes context | dropped |
///
/// Context always survives, and a selected change keeps its own marker.
pub open spec fn line_fate(kind: LineKind, selected: bool, mode: ApplyMode) -> Option<char> {
    match kind {
        LineKind::Context => Some(' '),
        LineKind::Addition => if selected {
            Some('+')
        } else if mode == ApplyMode::Reverse {
            Some(' ')
        } else {
            None
        },
        LineKind::Deletion => if selected {
            Some('-')
        } else if mode == ApplyMode::Forward {
            Some(' ')
        } else {
            None
        },
        LineKind::NoNewline => None,
    }
}

/// One hunk's output so far.
pub struct HunkAcc {
    pub out: Seq<Seq<char>>,
    pub old_count: nat,
    pub new_count: nat,
    pub changes: nat,
    /// Whether the last non-marker line was emitted; a `\ No newline` marker
    /// only survives together with the line it describes.
    pub kept_previous: bool,
}

/// Hunk `hi`'s output after its lines `lines`.
pub open spec fn hunk_acc(
    lines: Seq<LineV>,
    hi: int,
    sel: spec_fn(int, int) -> bool,
    mode: ApplyMode,
) -> HunkAcc
    decreases lines.len(),
{
    if lines.len() == 0 {
        HunkAcc { out: seq![], old_count: 0, new_count: 0, changes: 0, kept_previous: false }
    } else {
        let a = hunk_acc(lines.drop_last(), hi, sel, mode);
        let li = lines.len() - 1;
        let l = lines.last();
        if l.kind == LineKind::NoNewline {
            if a.kept_previous {
                HunkAcc { out: a.out.push(l.text), ..a }
            } else {
                a
            }
        } else {
            match line_fate(l.kind, sel(hi, li), mode) {
                Some(m) => HunkAcc {
                    out: a.out.push(seq![m] + l.text),
                    old_count: a.old_count + if m == '+' {
                        0nat
                    } else {
                        1nat
                    },
                    new_count: a.new_count + if m == '-' {
                        0nat
                    } else {
                        1nat
                    },
                    changes: a.changes + if m == ' ' {
                        0nat
                    } else {
                        1nat
                    },
                    kept_previous: true,
                },
                None => HunkAcc { kept_previous: false, ..a },
            }
        }
    }
}

/// A hunk position for the header: negative values print as 0.
pub open spec fn clamp_u32(x: int) -> u32 {
    if x < 0 {
        0
    } else {
        x as u32
    }
}

/// The patch body so far.
pub struct PatchAcc {
    pub body: Seq<Seq<char>>,
    /// Net lines added by the hunks already emitted.
    pub delta: int,
    pub total_old: nat,
    pub total_new: nat,
}

/// The header line of an emitted hunk. `@@ -S,0` means "after line S", so a
/// zero count shifts the stated start by one: positions are normalised to
/// real 1-based lines, the new side is offset by `delta`, and the result is
/// converted back.
pub open spec fn emitted_header(h: HunkV, a: HunkAcc, delta: int) -> Seq<char> {
    let old_pos: int = if h.old_count == 0 {
        h.old_start + 1
    } else {
        h.old_start as int
    };
    let new_pos = old_pos + delta;
    let old_field = if a.old_count == 0 {
        old_pos - 1
    } else {
        old_pos
    };
    let new_field = if a.new_count == 0 {
        new_pos - 1
    } else {
        new_pos
    };
    hunk_header_text(
        clamp_u32(old_field),
        a.old_count as u32,
        clamp_u32(new_field),
        a.new_count as u32,
        h.section,
    )
}

/// The body after the hunks `hunks`: a hunk with no selected change is left
/// out entirely.
pub open spec fn patch_acc(hunks: Seq<HunkV>, sel: spec_fn(int, int) -> bool, mode: ApplyMode) -> PatchAcc
    decreases hunks.len(),
{
    if hunks.len() == 0 {
        PatchAcc { body: seq![], delta: 0, total_old: 0, total_new: 0 }
    } else {
        let p = patch_acc(hunks.drop_last(), sel, mode);
        let hi = hunks.len() - 1;
        let h = hunks.last();
        let a = hunk_acc(h.lines, hi, sel, mode);
        if a.changes == 0 {
            p
        } else {
            PatchAcc {
                body: p.body.push(emitted_header(h, a, p.delta)) + a.out,
                delta: p.delta + a.new_count - a.old_count,
                total_old: p.total_old + a.old_count,
                total_new: p.total_new + a.new_count,
            }
        }
    }
}

/// One header line of a partial patch: create/delete modes and blob hashes
/// go, and `/dev/null` on a side that is no longer empty names the file.
pub open spec fn rewrite_line(
    line: Seq<char>,
    partial_new: bool,
    partial_delete: bool,
    path: Seq<char>,
) -> Option<Seq<char>> {
    if starts_with(line, "new file mode "@) || starts_with(line, "deleted file mode "@)
        || starts_with(line, "index "@) {
        None
    } else if partial_new && line == "--- /dev/null"@ {
        Some("--- a/"@ + path)
    } else if partial_delete && line == "+++ /dev/null"@ {
        Some("+++ b/"@ + path)
    } else {
        Some(line)
    }
}

/// `rewrite_line` over every header line, dropped lines left out.
pub open spec fn rewrite_lines(
    header: Seq<Seq<char>>,
    partial_new: bool,
    partial_delete: bool,
    path: Seq<char>,
) -> Seq<Seq<char>>
    decreases header.len(),
{
    if header.len() == 0 {
        seq![]
    } else {
        let rest = rewrite_lines(header.drop_last(), partial_new, partial_delete, path);
        match rewrite_line(header.last(), partial_new, partial_delete, path) {
            Some(l) => rest.push(l),
            None => rest,
        }
    }
}

/// The path a rewritten header names: the new side's, else the old side's.
pub open spec fn header_path(fd: FileDiffV) -> Seq<char> {
    match side_path(fd.header, "+++ "@, "b/"@) {
        Some(p) => p,
        None => match side_path(fd.header, "--- "@, "a/"@) {
            Some(p) => p,
            None => "unknown"@,
        },
    }
}

/// A create/delete header stops being true once only part of the change is
/// taken: a partly-unstaged new file still has content on the old side, and a
/// partly-staged deletion still has content on the new side.
pub open spec fn header_out(fd: FileDiffV, total_old: nat, total_new: nat) -> Seq<Seq<char>> {
    let partial_new = fd.is_new && total_old > 0;
    let partial_delete = fd.is_delete && total_new > 0;
    if !partial_new && !partial_delete {
        fd.header
    } else {
        rewrite_lines(fd.header, partial_new, partial_delete, header_path(fd))
    }
}

/// The patch for the lines `sel` accepts, or `None` when the selection holds
/// no change.
pub open spec fn patch_spec(fd: FileDiffV, mode: ApplyMode, sel: spec_fn(int, int) -> bool) -> Option<
    Seq<char>,
> {
    let p = patch_acc(fd.hunks, sel, mode);
    if p.body.len() == 0 {
        None
    } else {
        Some(join_terminated(header_out(fd, p.total_old, p.total_new) + p.body, "\n"@))
    }
}

/// Total number of diff lines over `hunks`.
pub open spec fn line_total(hunks: Seq<HunkV>) -> nat
    decreases hunks.len(),
{
    if hunks.len() == 0 {
        0
    } else {
        line_total(hunks.drop_last()) + hunks.last().lines.len()
    }
}

/// The selection a mask describes: `mask[h][l]`, false outside it.
pub open spec fn mask_sel(mask: Seq<Seq<bool>>) -> spec_fn(int, int) -> bool {
    |h: int, l: int| 0 <= h < mask.len() && 0 <= l < mask[h].len() && mask[h][l]
}

/// The boolean views of a mask.
pub open spec fn mask_view(mask: Seq<Vec<bool>>) -> Seq<Seq<bool>> {
    mask.map_values(|v: Vec<bool>| v@)
}

/// Every line of hunk `hi`, and nothing else.
pub open spec fn hunk_sel(hunk: int) -> spec_fn(int, int) -> bool {
    |h: int, l: int| h == hunk
}

/// Every line.
pub open spec fn all_sel() -> spec_fn(int, int) -> bool {
    |h: int, l: int| true
}

// ---------------------------------------------------------------------------
// Lemmas
// ---------------------------------------------------------------------------

pub proof fn lemma_hunk_acc_bounds(lines: Seq<LineV>, hi: int, sel: spec_fn(int, int) -> bool, mode: ApplyMode)
    ensures
        hunk_acc(lines, hi, sel, mode).old_count <= lines.len(),
        hunk_acc(lines, hi, sel, mode).new_count <= lines.len(),
        hunk_acc(lines, hi, sel, mode).changes <= lines.len(),
    decreases lines.len(),
{
    if lines.len() > 0 {
        lemma_hunk_acc_bounds(lines.drop_last(), hi, sel, mode);
    }
}

pub proof fn lemma_patch_acc_bounds(hunks: Seq<HunkV>, sel: spec_fn(int, int) -> bool, mode: ApplyMode)
    ensures
        patch_acc(hunks, sel, mode).total_old <= line_total(hunks),
        patch_acc(hunks, sel, mode).total_new <= line_total(hunks),
        -(line_total(hunks) as int) <= patch_acc(hunks, sel, mode).delta <= line_total(hunks),
    decreases hunks.len(),
{
    if hunks.len() > 0 {
        lemma_patch_acc_bounds(hunks.drop_last(), sel, mode);
        lemma_hunk_acc_bounds(hunks.last().lines, hunks.len() - 1, sel, mode);
    }
}

pub proof fn lemma_line_total_prefix(hunks: Seq<HunkV>, k: int)
    requires
        0 <= k <= hunks.len(),
    ensures
        line_total(hunks.subrange(0, k)) <= line_total(hunks),
        k < hunks.len() ==> line_total(hunks.subrange(0, k)) + hunks[k].lines.len() <= line_total(
            hunks,
        ),
    decreases hunks.len(),
{
    if k < hunks.len() {
        let t = hunks.drop_last();
        assert(t.subrange(0, k) =~= hunks.subrange(0, k));
        lemma_line_total_prefix(t, k);
        if k < t.len() {
            assert(t[k] == hunks[k]);
        } else {
            assert(t =~= hunks.subrange(0, k));
        }
    } else {
        assert(hunks.subrange(0, k) =~= hunks);
    }
}

/// The lines of a hunk's output that one side of the patch consists of:
/// those marked with a space or with `marker`, marker dropped. With `-` this
/// is the old side, with `+` the new side.
pub open spec fn out_side(out: Seq<Seq<char>>, marker: char) -> Seq<Seq<char>>
    decreases out.len(),
{
    if out.len() == 0 {
        seq![]
    } else {
        let rest = out_side(out.drop_last(), marker);
        let l = out.last();
        if l.len() > 0 && (l[0] == ' ' || l[0] == marker) {
            rest.push(l.drop_first())
        } else {
            rest
        }
    }
}

/// The texts of a source hunk's context lines and of its lines of `kind`:
/// with `Deletion` the hunk's old side, with `Addition` its new side.
pub open spec fn src_side(lines: Seq<LineV>, kind: LineKind) -> Seq<Seq<char>>
    decreases lines.len(),
{
    if lines.len() == 0 {
        seq![]
    } else {
        let rest = src_side(lines.drop_last(), kind);
        let l = lines.last();
        if l.kind == LineKind::Context || l.kind == kind {
            rest.push(l.text)
        } else {
            rest
        }
    }
}

/// The output lines marked `+` or `-`.
pub open spec fn out_changes(out: Seq<Seq<char>>) -> Seq<Seq<char>>
    decreases out.len(),
{
    if out.len() == 0 {
        seq![]
    } else {
        let rest = out_changes(out.drop_last());
        let l = out.last();
        if l.len() > 0 && (l[0] == '+' || l[0] == '-') {
            rest.push(l)
        } else {
            rest
        }
    }
}

/// The changes of hunk `hi` that `sel` accepts, each with its marker.
pub open spec fn selected_changes(lines: Seq<LineV>, hi: int, sel: spec_fn(int, int) -> bool) -> Seq<
    Seq<char>,
>
    decreases lines.len(),
{
    if lines.len() == 0 {
        seq![]
    } else {
        let rest = selected_changes(lines.drop_last(), hi, sel);
        let l = lines.last();
        if l.kind == LineKind::Addition && sel(hi, lines.len() - 1) {
            rest.push(seq!['+'] + l.text)
        } else if l.kind == LineKind::Deletion && sel(hi, lines.len() - 1) {
            rest.push(seq!['-'] + l.text)
        } else {
            rest
        }
    }
}

proof fn lemma_push_marked(m: char, text: Seq<char>)
    ensures
        ({
            let x = seq![m] + text;
            &&& x.len() > 0
            &&& x[0] == m
            &&& x.drop_first() == text
        }),
{
    assert((seq![m] + text).drop_first() =~= text);
}

/// What partial staging promises of each hunk it emits: the side the patch
/// is applied to is the source hunk's side line for line (its old side going
/// forward, its new side going backward), the header counts are the lengths
/// of the emitted sides, and the emitted `+`/`-` lines are exactly the
/// selected changes, in order.
pub proof fn law_emitted_hunk_matches_target(
    lines: Seq<LineV>,
    hi: int,
    sel: spec_fn(int, int) -> bool,
    mode: ApplyMode,
)
    requires
        markers_marked(lines),
    ensures
        ({
            let a = hunk_acc(lines, hi, sel, mode);
            &&& a.old_count == out_side(a.out, '-').len()
            &&& a.new_count == out_side(a.out, '+').len()
            &&& mode == ApplyMode::Forward ==> out_side(a.out, '-') == src_side(lines, LineKind::Deletion)
            &&& mode == ApplyMode::Reverse ==> out_side(a.out, '+') == src_side(lines, LineKind::Addition)
            &&& out_changes(a.out) == selected_changes(lines, hi, sel)
        }),
    decreases lines.len(),
{
    if lines.len() > 0 {
        let t = lines.drop_last();
        assert forall|i: int| 0 <= i < t.len() && #[trigger] t[i].kind == LineKind::NoNewline implies t[i].text.len()
            > 0 && t[i].text[0] == '\\' by {
            assert(t[i] == lines[i]);
        }
        law_emitted_hunk_matches_target(t, hi, sel, mode);
        let a = hunk_acc(t, hi, sel, mode);
        let l = lines.last();
        assert(l == lines[lines.len() - 1]);
        if l.kind == LineKind::NoNewline {
            if a.kept_previous {
                let after = a.out.push(l.text);
                assert(after.drop_last() =~= a.out);
            }
        } else {
            match line_fate(l.kind, sel(hi, lines.len() - 1), mode) {
                Some(m) => {
                    lemma_push_marked(m, l.text);
                    let after = a.out.push(seq![m] + l.text);
                    assert(after.drop_last() =~= a.out);
                    assert(after.last() == seq![m] + l.text);
                },
                None => {},
            }
        }
    }
}

// ---------------------------------------------------------------------------
// Construction
// ---------------------------------------------------------------------------

/// Appends `marker` followed by `text` as one line.
fn marked_line(marker: char, text: &String) -> (r: Vec<char>)
    ensures
        r@ == seq![marker] + text@,
{
    let mut v: Vec<char> = Vec::new();
    v.push(marker);
    let t = chars_of(text.as_str());
    let mut i: usize = 0;
    while i < t.len()
        invariant
            i <= t@.len(),
            v@ == seq![marker] + t@.subrange(0, i as int),
        decreases t@.len() - i,
    {
        v.push(t[i]);
        i += 1;
        assert(v@ =~= seq![marker] + t@.subrange(0, i as int));
    }
    assert(t@.subrange(0, t@.len() as int) =~= t@);
    v
}

/// One hunk's lines, counts and number of selected changes.
fn build_hunk(
    lines: &Vec<DiffLine>,
    hi: usize,
    mask: &Vec<Vec<bool>>,
    mode: ApplyMode,
) -> (r: (Vec<Vec<char>>, u32, u32, usize))
    requires
        lines@.len() <= u32::MAX,
    ensures
        ({
            let a = hunk_acc(line_views(lines@), hi as int, mask_sel(mask_view(mask@)), mode);
            &&& r.0@.map_values(|v: Vec<char>| v@) == a.out
            &&& r.1 == a.old_count
            &&& r.2 == a.new_count
            &&& r.3 == a.changes
        }),
{
    let ghost sel = mask_sel(mask_view(mask@));
    let ghost lv = line_views(lines@);
    let mut out: Vec<Vec<char>> = Vec::new();
    let mut old_count: u32 = 0;
    let mut new_count: u32 = 0;
    let mut changes: usize = 0;
    let mut kept_previous = false;
    let mut li: usize = 0;
    while li < lines.len()
        invariant
            li <= lines@.len() <= u32::MAX,
            lv == line_views(lines@),
            sel == mask_sel(mask_view(mask@)),
            ({
                let a = hunk_acc(lv.subrange(0, li as int), hi as int, sel, mode);
                &&& out@.map_values(|v: Vec<char>| v@) == a.out
                &&& old_count == a.old_count
                &&& new_count == a.new_count
                &&& changes == a.changes
                &&& kept_previous == a.kept_previous
            }),
        decreases lines@.len() - li,
    {
        proof {
            lemma_hunk_acc_bounds(lv.subrange(0, li as int), hi as int, sel, mode);
            assert(lv.subrange(0, li + 1).drop_last() =~= lv.subrange(0, li as int));
            assert(lv.subrange(0, li + 1).last() == lines@[li as int]@);
        }
        let line = &lines[li];
        let selected = hi < mask.len() && li < mask[hi].len() && mask[hi][li];
        proof {
            assert(selected == sel(hi as int, li as int));
        }
        let ghost before = out@;
        match line.kind {
            LineKind::NoNewline => {
                if kept_previous {
                    out.push(chars_of(line.text.as_str()));
                    proof {
                        assert(out@.map_values(|v: Vec<char>| v@) =~= before.map_values(
                            |v: Vec<char>| v@,
                        ).push(line.text@));
                    }
                }
            },
            LineKind::Context => {
                out.push(marked_line(' ', &line.text));
                old_count += 1;
                new_count += 1;
                kept_previous = true;
                proof {
                    assert(out@.map_values(|v: Vec<char>| v@) =~= before.map_values(
                        |v: Vec<char>| v@,
                    ).push(seq![' '] + line.text@));
                }
            },
            LineKind::Addition => {
                if selected {
                    out.push(marked_line('+', &line.text));
                    new_count += 1;
                    changes += 1;
                    kept_previous = true;
                    proof {
                        assert(out@.map_values(|v: Vec<char>| v@) =~= before.map_values(
                            |v: Vec<char>| v@,
                        ).push(seq!['+'] + line.text@));
                    }
                } else if mode == ApplyMode::Reverse {
                    out.push(marked_line(' ', &line.text));
                    old_count += 1;
                    new_count += 1;
                    kept_previous = true;
                    proof {
                        assert(out@.map_values(|v: Vec<char>| v@) =~= before.map_values(
                            |v: Vec<char>| v@,
                        ).push(seq![' '] + line.text@));
                    }
                } else {
                    kept_previous = false;
                }
            },
            LineKind::Deletion => {
                if selected {
                    out.push(marked_line('-', &line.text));
                    old_count += 1;
                    changes += 1;
                    kept_previous = true;
                    proof {
                        assert(out@.map_values(|v: Vec<char>| v@) =~= before.map_values(
                            |v: Vec<char>| v@,
                        ).push(seq!['-'] + line.text@));
                    }
                } else if mode == ApplyMode::Forward {
                    out.push(marked_line(' ', &line.text));
                    old_count += 1;
                    new_count += 1;
                    kept_previous = true;
                    proof {
                        assert(out@.map_values(|v: Vec<char>| v@) =~= before.map_values(
                            |v: Vec<char>| v@,
                        ).push(seq![' '] + line.text@));
                    }
                } else {
                    kept_previous = false;
                }
            },
        }
        li += 1;
    }
    proof {
        assert(lv.subrange(0, li as int) =~= lv);
    }
    (out, old_count, new_count, changes)
}

/// Whether `fd` is small enough for the line counters of a patch.
pub fn within_patch_limits(fd: &FileDiff) -> (r: bool)
    ensures
        r == (line_total(fd@.hunks) <= u32::MAX),
{
    let mut total: u64 = 0;
    let mut i: usize = 0;
    while i < fd.hunks.len()
        invariant
            i <= fd.hunks@.len(),
            total <= u32::MAX,
            total == line_total(fd@.hunks.subrange(0, i as int)),
            forall|k: int| 0 <= k <= i ==> line_total(#[trigger] fd@.hunks.subrange(0, k)) <= u32::MAX,
        decreases fd.hunks@.len() - i,
    {
        let n = fd.hunks[i].lines.len() as u64;
        proof {
            let hv = fd@.hunks;
            assert(hv.subrange(0, i + 1).drop_last() =~= hv.subrange(0, i as int));
            assert(hv.subrange(0, i + 1).last() == hv[i as int]);
        }
        if n > 0xffff_ffff - total {
            proof {
                lemma_line_total_prefix(fd@.hunks, i + 1);
            }
            return false;
        }
        total = total + n;
        i += 1;
    }
    proof {
        assert(fd@.hunks.subrange(0, i as int) =~= fd@.hunks);
    }
    true
}

/// The header of a partial patch.
fn rewrite_header(fd: &FileDiff, total_old: u32, total_new: u32) -> (r: Vec<Vec<char>>)
    ensures
        r@.map_values(|v: Vec<char>| v@) == header_out(fd@, total_old as nat, total_new as nat),
{
    let partial_new = fd.is_new && total_old > 0;
    let partial_delete = fd.is_delete && total_new > 0;
    let mut out: Vec<Vec<char>> = Vec::new();
    if !partial_new && !partial_delete {
        let mut i: usize = 0;
        while i < fd.header.len()
            invariant
                i <= fd.header@.len(),
                out@.map_values(|v: Vec<char>| v@) == views(fd.header@).subrange(0, i as int),
            decreases fd.header@.len() - i,
        {
            let ghost before = out@;
            let c = chars_of(fd.header[i].as_str());
            out.push(c);
            proof {
                assert(out@.map_values(|v: Vec<char>| v@) =~= before.map_values(
                    |v: Vec<char>| v@,
                ).push(c@));
                assert(views(fd.header@).subrange(0, i + 1) =~= views(fd.header@).subrange(
                    0,
                    i as int,
                ).push(fd.header@[i as int]@));
            }
            i += 1;
        }
        proof {
            assert(views(fd.header@).subrange(0, i as int) =~= views(fd.header@));
        }
        return out;
    }
    // Both sides name the same path in this situation, so whichever line is
    // not /dev/null supplies it.

    let path: Vec<char> = match fd.new_path() {
        Some(p) => chars_of(p.as_str()),
        None => match fd.old_path() {
            Some(p) => chars_of(p.as_str()),
            None => chars_of("unknown"),
        },
    };
    let ghost hp = header_path(fd@);
    assert(path@ == hp);
    let dev_old = chars_of("--- /dev/null");
    let dev_new = chars_of("+++ /dev/null");
    let mut i: usize = 0;
    while i < fd.header.len()
        invariant
            i <= fd.header@.len(),
            path@ == hp,
            dev_old@ == "--- /dev/null"@,
            dev_new@ == "+++ /dev/null"@,
            out@.map_values(|v: Vec<char>| v@) == rewrite_lines(
                views(fd.header@).subrange(0, i as int),
                partial_new,
                partial_delete,
                hp,
            ),
        decreases fd.header@.len() - i,
    {
        let line = chars_of(fd.header[i].as_str());
        let ghost before = out@;
        proof {
            let hs = views(fd.header@).subrange(0, i + 1);
            assert(hs.drop_last() =~= views(fd.header@).subrange(0, i as int));
            assert(hs.last() == line@);
        }
        if starts_with_str(&line, "new file mode ") || starts_with_str(&line, "deleted file mode ")
            // Blob hashes no longer describe either side of a partial patch.
            || starts_with_str(&line, "index ") {
        } else if partial_new && chars_eq(&line, &dev_old) {
            let mut l = chars_of("--- a/");
            let mut k: usize = 0;
            let ghost l0 = l@;
            while k < path.len()
                invariant
                    k <= path@.len(),
                    l@ == l0 + path@.subrange(0, k as int),
                decreases path@.len() - k,
            {
                l.push(path[k]);
                k += 1;
                assert(l@ =~= l0 + path@.subrange(0, k as int));
            }
            assert(path@.subrange(0, path@.len() as int) =~= path@);
            out.push(l);
            proof {
                assert(out@.map_values(|v: Vec<char>| v@) =~= before.map_values(
                    |v: Vec<char>| v@,
                ).push("--- a/"@ + hp));
            }
        } else if partial_delete && chars_eq(&line, &dev_new) {
            let mut l = chars_of("+++ b/");
            let mut k: usize = 0;
            let ghost l0 = l@;
            while k < path.len()
                invariant
                    k <= path@.len(),
                    l@ == l0 + path@.subrange(0, k as int),
                decreases path@.len() - k,
            {
                l.push(path[k]);
                k += 1;
                assert(l@ =~= l0 + path@.subrange(0, k as int));
            }
            assert(path@.subrange(0, path@.len() as int) =~= path@);
            out.push(l);
            proof {
                assert(out@.map_values(|v: Vec<char>| v@) =~= before.map_values(
                    |v: Vec<char>| v@,
                ).push("+++ b/"@ + hp));
            }
        } else {
            out.push(line);
            proof {
                assert(out@.map_values(|v: Vec<char>| v@) =~= before.map_values(
                    |v: Vec<char>| v@,
                ).push(line@));
            }
        }
        i += 1;
    }
    proof {
        assert(views(fd.header@).subrange(0, i as int) =~= views(fd.header@));
    }
    out
}

/// Builds the patch for the lines `mask` selects: `mask[h][l]` selects line
/// `l` of hunk `h`, and anything outside the mask is unselected. Returns
/// `None` when the selection contains no actual changes.
pub fn build_patch_masked(fd: &FileDiff, mode: ApplyMode, mask: &Vec<Vec<bool>>) -> (r: Option<String>)
    requires
        line_total(fd@.hunks) <= u32::MAX,
    ensures
        match (r, patch_spec(fd@, mode, mask_sel(mask_view(mask@)))) {
            (Some(p), Some(q)) => p@ == q,
            (None, None) => true,
            _ => false,
        },
{
    let ghost sel = mask_sel(mask_view(mask@));
    let ghost hv = fd@.hunks;
    let mut body: Vec<Vec<char>> = Vec::new();
    let mut delta: i64 = 0;
    let mut total_old: u32 = 0;
    let mut total_new: u32 = 0;
    let mut hi: usize = 0;
    while hi < fd.hunks.len()
        invariant
            hi <= fd.hunks@.len(),
            hv == fd@.hunks,
            sel == mask_sel(mask_view(mask@)),
            line_total(hv) <= u32::MAX,
            ({
                let p = patch_acc(hv.subrange(0, hi as int), sel, mode);
                &&& body@.map_values(|v: Vec<char>| v@) == p.body
                &&& delta == p.delta
                &&& total_old == p.total_old
                &&& total_new == p.total_new
            }),
        decreases fd.hunks@.len() - hi,
    {
        let hunk = &fd.hunks[hi];
        proof {
            let pre = hv.subrange(0, hi as int);
            assert(hv.subrange(0, hi + 1).drop_last() =~= pre);
            assert(hv.subrange(0, hi + 1).last() == hunk@);
            lemma_line_total_prefix(hv, hi as int);
            lemma_line_total_prefix(hv, hi + 1);
            lemma_patch_acc_bounds(pre, sel, mode);
            assert(hv.subrange(0, hi + 1) =~= pre.push(hunk@));
            assert(pre.push(hunk@).drop_last() =~= pre);
            assert(line_total(hv.subrange(0, hi + 1)) == line_total(pre) + hunk.lines@.len());
        }
        let (out, old_count, new_count, changes) = build_hunk(&hunk.lines, hi, mask, mode);
        proof {
            lemma_hunk_acc_bounds(line_views(hunk.lines@), hi as int, sel, mode);
        }
        if changes > 0 {
            // `@@ -S,0 ... @@` means "after line S", so a zero count shifts the
            // stated start by one. Normalise to a real 1-based position, do the
            // arithmetic, then convert back.
            let old_pos: i64 = if hunk.old_count == 0 {
                hunk.old_start as i64 + 1
            } else {
                hunk.old_start as i64
            };
            let new_pos: i64 = old_pos + delta;
            let old_field: i64 = if old_count == 0 { old_pos - 1 } else { old_pos };
            let new_field: i64 = if new_count == 0 { new_pos - 1 } else { new_pos };
            let of: u32 = if old_field < 0 { 0 } else { old_field as u32 };
            let nf: u32 = if new_field < 0 { 0 } else { new_field as u32 };
            let mut hl = String::new();
            push_hunk_header(&mut hl, of, old_count, nf, new_count, hunk.section.as_str());
            let ghost before = body@;
            body.push(chars_of(hl.as_str()));
            let ghost mid = body@;
            let ghost outv = out@;
            let mut out = out;
            body.append(&mut out);
            proof {
                assert(body@ == mid + outv);
                let a = hunk_acc(hunk@.lines, hi as int, sel, mode);
                assert(body@.map_values(|v: Vec<char>| v@) =~= before.map_values(
                    |v: Vec<char>| v@,
                ).push(emitted_header(hunk@, a, delta as int)) + a.out);
            }
            delta = delta + new_count as i64 - old_count as i64;
            total_old = total_old + old_count;
            total_new = total_new + new_count;
        }
        hi += 1;
    }
    proof {
        assert(hv.subrange(0, hi as int) =~= hv);
    }
    if body.len() == 0 {
        return None;
    }
    let mut lines = rewrite_header(fd, total_old, total_new);
    let ghost all = lines@.map_values(|v: Vec<char>| v@) + body@.map_values(|v: Vec<char>| v@);
    let ghost l0 = lines@;
    let ghost b0 = body@;
    lines.append(&mut body);
    proof {
        assert(lines@.map_values(|v: Vec<char>| v@) =~= all);
    }
    let mut patch = String::new();
    let mut i: usize = 0;
    while i < lines.len()
        invariant
            i <= lines@.len(),
            all == lines@.map_values(|v: Vec<char>| v@),
            patch@ == join_terminated(all.subrange(0, i as int), "\n"@),
        decreases lines@.len() - i,
    {
        let line = &lines[i];
        proof {
            assert(all[i as int] == line@);
            assert(all.subrange(0, i + 1).drop_last() =~= all.subrange(0, i as int));
        }
        append_chars(&mut patch, line);
        append_str(&mut patch, "\n");
        i += 1;
    }
    proof {
        assert(all.subrange(0, i as int) =~= all);
    }
    Some(patch)
}


// ---------------------------------------------------------------------------
// Selections
// ---------------------------------------------------------------------------

/// `mask` has one row per hunk and one entry per line.
pub open spec fn mask_shaped(mask: Seq<Seq<bool>>, hunks: Seq<HunkV>) -> bool {
    &&& mask.len() == hunks.len()
    &&& forall|h: int| 0 <= h < hunks.len() ==> #[trigger] mask[h].len() == hunks[h].lines.len()
}

/// Two selections agree on every line of `hunks`.
pub open spec fn sel_agree(hunks: Seq<HunkV>, s1: spec_fn(int, int) -> bool, s2: spec_fn(int, int) -> bool) -> bool {
    forall|h: int, l: int|
        0 <= h < hunks.len() && 0 <= l < hunks[h].lines.len() ==> #[trigger] s1(h, l) == #[trigger] s2(h, l)
}

pub proof fn lemma_hunk_acc_congruent(
    lines: Seq<LineV>,
    hi: int,
    s1: spec_fn(int, int) -> bool,
    s2: spec_fn(int, int) -> bool,
    mode: ApplyMode,
)
    requires
        forall|l: int| 0 <= l < lines.len() ==> #[trigger] s1(hi, l) == s2(hi, l),
    ensures
        hunk_acc(lines, hi, s1, mode) == hunk_acc(lines, hi, s2, mode),
    decreases lines.len(),
{
    if lines.len() > 0 {
        lemma_hunk_acc_congruent(lines.drop_last(), hi, s1, s2, mode);
        assert(s1(hi, lines.len() - 1) == s2(hi, lines.len() - 1));
    }
}

/// A patch depends on the selection only over the diff's own lines.
pub proof fn lemma_patch_acc_congruent(
    hunks: Seq<HunkV>,
    s1: spec_fn(int, int) -> bool,
    s2: spec_fn(int, int) -> bool,
    mode: ApplyMode,
)
    requires
        sel_agree(hunks, s1, s2),
    ensures
        patch_acc(hunks, s1, mode) == patch_acc(hunks, s2, mode),
    decreases hunks.len(),
{
    if hunks.len() > 0 {
        let t = hunks.drop_last();
        assert forall|h: int, l: int| 0 <= h < t.len() && 0 <= l < t[h].lines.len() implies #[trigger] s1(h, l)
            == #[trigger] s2(h, l) by {
            assert(t[h] == hunks[h]);
        }
        lemma_patch_acc_congruent(t, s1, s2, mode);
        let hi = hunks.len() - 1;
        assert forall|l: int| 0 <= l < hunks.last().lines.len() implies #[trigger] s1(hi, l) == s2(hi, l) by {
            assert(hunks[hi] == hunks.last());
        }
        lemma_hunk_acc_congruent(hunks.last().lines, hi, s1, s2, mode);
    }
}

/// A mask with every line of `fd` set to `value`, or only those of hunk `only`.
pub(crate) fn fill_mask(fd: &FileDiff, only: Option<usize>) -> (mask: Vec<Vec<bool>>)
    ensures
        mask_shaped(mask_view(mask@), fd@.hunks),
        forall|h: int, l: int|
            0 <= h < fd@.hunks.len() && 0 <= l < fd@.hunks[h].lines.len() ==> mask_view(mask@)[h][l]
                == match only {
                Some(k) => h == k,
                None => true,
            },
{
    let mut mask: Vec<Vec<bool>> = Vec::new();
    let mut h: usize = 0;
    while h < fd.hunks.len()
        invariant
            h <= fd.hunks@.len(),
            mask@.len() == h,
            forall|j: int| 0 <= j < h ==> #[trigger] mask@[j]@.len() == fd@.hunks[j].lines.len(),
            forall|j: int, l: int|
                0 <= j < h && 0 <= l < fd@.hunks[j].lines.len() ==> mask@[j]@[l] == match only {
                    Some(k) => j == k,
                    None => true,
                },
        decreases fd.hunks@.len() - h,
    {
        let value = match only {
            Some(k) => h == k,
            None => true,
        };
        let mut row: Vec<bool> = Vec::new();
        let n = fd.hunks[h].lines.len();
        while row.len() < n
            invariant
                row@.len() <= n,
                forall|l: int| 0 <= l < row@.len() ==> row@[l] == value,
            decreases n - row@.len(),
        {
            row.push(value);
        }
        mask.push(row);
        h += 1;
    }
    mask
}

/// Whole-file patch, used for staging a file that has no diff subtleties.
pub fn build_full_patch(fd: &FileDiff, mode: ApplyMode) -> (r: Option<String>)
    requires
        line_total(fd@.hunks) <= u32::MAX,
    ensures
        match (r, patch_spec(fd@, mode, all_sel())) {
            (Some(p), Some(q)) => p@ == q,
            (None, None) => true,
            _ => false,
        },
{
    let mask = fill_mask(fd, None);
    proof {
        lemma_patch_acc_congruent(fd@.hunks, mask_sel(mask_view(mask@)), all_sel(), mode);
    }
    build_patch_masked(fd, mode, &mask)
}

/// The patch for every change of hunk `hunk`.
pub fn build_hunk_patch(fd: &FileDiff, mode: ApplyMode, hunk: usize) -> (r: Option<String>)
    requires
        line_total(fd@.hunks) <= u32::MAX,
    ensures
        match (r, patch_spec(fd@, mode, hunk_sel(hunk as int))) {
            (Some(p), Some(q)) => p@ == q,
            (None, None) => true,
            _ => false,
        },
{
    let mask = fill_mask(fd, Some(hunk));
    proof {
        lemma_patch_acc_congruent(fd@.hunks, mask_sel(mask_view(mask@)), hunk_sel(hunk as int), mode);
    }
    build_patch_masked(fd, mode, &mask)
}

/// `m` records what `selected` answered for every change line of `hunks`,
/// and is false on every other line.
pub open spec fn mask_answers<F: Fn(usize, usize) -> bool>(
    selected: F,
    hunks: Seq<HunkV>,
    m: Seq<Seq<bool>>,
) -> bool {
    &&& mask_shaped(m, hunks)
    &&& forall|h: int, l: int|
        0 <= h < hunks.len() && 0 <= l < hunks[h].lines.len() ==> if is_change_kind(
            #[trigger] hunks[h].lines[l].kind,
        ) {
            call_ensures(selected, (h as usize, l as usize), m[h][l])
        } else {
            !m[h][l]
        }
}

/// Builds a patch for the lines `selected(hunk_index, line_index)` accepts.
/// Returns `None` when the selection contains no actual changes. `selected`
/// is asked about change lines only.
pub fn build_patch<F: Fn(usize, usize) -> bool>(fd: &FileDiff, mode: ApplyMode, selected: &F) -> (r:
    Option<String>)
    requires
        line_total(fd@.hunks) <= u32::MAX,
        forall|h: usize, l: usize| call_requires(*selected, (h, l)),
    ensures
        exists|m: Seq<Seq<bool>>|
            mask_answers(*selected, fd@.hunks, m) && match (r, patch_spec(fd@, mode, mask_sel(m))) {
                (Some(p), Some(q)) => p@ == q,
                (None, None) => true,
                _ => false,
            },
{
    let mut mask: Vec<Vec<bool>> = Vec::new();
    let mut h: usize = 0;
    while h < fd.hunks.len()
        invariant
            h <= fd.hunks@.len(),
            mask@.len() == h,
            forall|hh: usize, l: usize| call_requires(*selected, (hh, l)),
            forall|j: int| 0 <= j < h ==> #[trigger] mask@[j]@.len() == fd@.hunks[j].lines.len(),
            forall|j: int, l: int|
                0 <= j < h && 0 <= l < fd@.hunks[j].lines.len() ==> if is_change_kind(
                    #[trigger] fd@.hunks[j].lines[l].kind,
                ) {
                    call_ensures(*selected, (j as usize, l as usize), mask@[j]@[l])
                } else {
                    !mask@[j]@[l]
                },
        decreases fd.hunks@.len() - h,
    {
        let lines = &fd.hunks[h].lines;
        let mut row: Vec<bool> = Vec::new();
        while row.len() < lines.len()
            invariant
                row@.len() <= lines@.len(),
                lines@ == fd.hunks@[h as int].lines@,
                forall|hh: usize, l: usize| call_requires(*selected, (hh, l)),
                forall|l: int|
                    0 <= l < row@.len() ==> if is_change_kind(#[trigger] lines@[l].kind) {
                        call_ensures(*selected, (h, l as usize), row@[l])
                    } else {
                        !row@[l]
                    },
            decreases lines@.len() - row@.len(),
        {
            let l = row.len();
            let v = if lines[l].is_change() {
                selected(h, l)
            } else {
                false
            };
            row.push(v);
        }
        proof {
            assert forall|l: int| 0 <= l < fd@.hunks[h as int].lines.len() implies
                #[trigger] fd@.hunks[h as int].lines[l].kind == lines@[l].kind by {}
        }
        mask.push(row);
        h += 1;
    }
    let r = build_patch_masked(fd, mode, &mask);
    proof {
        assert(mask_answers(*selected, fd@.hunks, mask_view(mask@)));
    }
    r
}

/// The indices of the changes among `lines`.
pub open spec fn change_indices(lines: Seq<LineV>) -> Seq<nat>
    decreases lines.len(),
{
    if lines.len() == 0 {
        seq![]
    } else if is_change_kind(lines.last().kind) {
        change_indices(lines.drop_last()).push((lines.len() - 1) as nat)
    } else {
        change_indices(lines.drop_last())
    }
}

/// Line indices of every change in a hunk, for "select whole hunk".
pub fn hunk_change_lines(lines: &[DiffLine]) -> (r: Vec<usize>)
    ensures
        r@.map_values(|i: usize| i as nat) == change_indices(lines@.map_values(|l: DiffLine| l@)),
{
    let ghost lv = lines@.map_values(|l: DiffLine| l@);
    let mut out: Vec<usize> = Vec::new();
    let mut i: usize = 0;
    while i < lines.len()
        invariant
            i <= lines@.len(),
            lv == lines@.map_values(|l: DiffLine| l@),
            out@.map_values(|k: usize| k as nat) == change_indices(lv.subrange(0, i as int)),
        decreases lines@.len() - i,
    {
        let ghost before = out@;
        proof {
            assert(lv.subrange(0, i + 1).drop_last() =~= lv.subrange(0, i as int));
            assert(lv.subrange(0, i + 1).last() == lines@[i as int]@);
        }
        if lines[i].is_change() {
            out.push(i);
            proof {
                assert(out@.map_values(|k: usize| k as nat) =~= before.map_values(
                    |k: usize| k as nat,
                ).push(i as nat));
            }
        }
        i += 1;
    }
    proof {
        assert(lv.subrange(0, i as int) =~= lv);
    }
    out
}


// ---------------------------------------------------------------------------
// Laws
// ---------------------------------------------------------------------------

/// Line `l` of hunk `h` is a change that `sel` selects.
pub open spec fn selects_change(hunks: Seq<HunkV>, sel: spec_fn(int, int) -> bool, h: int, l: int) -> bool {
    0 <= h < hunks.len() && 0 <= l < hunks[h].lines.len() && is_change_kind(hunks[h].lines[l].kind)
        && sel(h, l)
}

proof fn lemma_hunk_changes(lines: Seq<LineV>, hi: int, sel: spec_fn(int, int) -> bool, mode: ApplyMode)
    ensures
        hunk_acc(lines, hi, sel, mode).changes > 0 <==> exists|l: int|
            0 <= l < lines.len() && is_change_kind(#[trigger] lines[l].kind) && sel(hi, l),
    decreases lines.len(),
{
    if lines.len() > 0 {
        let t = lines.drop_last();
        lemma_hunk_changes(t, hi, sel, mode);
        let n = lines.len() - 1;
        if exists|l: int| 0 <= l < t.len() && is_change_kind(#[trigger] t[l].kind) && sel(hi, l) {
            let l = choose|l: int| 0 <= l < t.len() && is_change_kind(#[trigger] t[l].kind) && sel(hi, l);
            assert(lines[l] == t[l]);
        }
        if exists|l: int| 0 <= l < lines.len() && is_change_kind(#[trigger] lines[l].kind) && sel(hi, l) {
            let l = choose|l: int| 0 <= l < lines.len() && is_change_kind(#[trigger] lines[l].kind) && sel(hi, l);
            if l < n {
                assert(lines[l] == t[l]);
            } else {
                assert(lines[l] == lines.last());
            }
        }
    }
}

proof fn lemma_patch_body(hunks: Seq<HunkV>, sel: spec_fn(int, int) -> bool, mode: ApplyMode)
    ensures
        patch_acc(hunks, sel, mode).body.len() > 0 <==> exists|h: int|
            0 <= h < hunks.len() && #[trigger] hunk_acc(hunks[h].lines, h, sel, mode).changes > 0,
    decreases hunks.len(),
{
    if hunks.len() > 0 {
        let t = hunks.drop_last();
        lemma_patch_body(t, sel, mode);
        if exists|h: int| 0 <= h < t.len() && #[trigger] hunk_acc(t[h].lines, h, sel, mode).changes > 0 {
            let h = choose|h: int| 0 <= h < t.len() && #[trigger] hunk_acc(t[h].lines, h, sel, mode).changes > 0;
            assert(hunks[h] == t[h]);
        }
        if exists|h: int| 0 <= h < hunks.len() && #[trigger] hunk_acc(hunks[h].lines, h, sel, mode).changes > 0 {
            let h = choose|h: int| 0 <= h < hunks.len() && #[trigger] hunk_acc(hunks[h].lines, h, sel, mode).changes > 0;
            if h < t.len() {
                assert(hunks[h] == t[h]);
            } else {
                assert(hunks[h] == hunks.last());
            }
        }
    }
}

/// A patch comes out exactly when the selection holds at least one change:
/// selecting nothing, or only context, yields nothing.
pub proof fn law_patch_iff_selected_change(fd: FileDiffV, mode: ApplyMode, sel: spec_fn(int, int) -> bool)
    ensures
        patch_spec(fd, mode, sel) is Some <==> exists|h: int, l: int|
            #[trigger] selects_change(fd.hunks, sel, h, l),
{
    let hunks = fd.hunks;
    lemma_patch_body(hunks, sel, mode);
    if exists|h: int, l: int| #[trigger] selects_change(hunks, sel, h, l) {
        let (h, l) = choose|h: int, l: int| #[trigger] selects_change(hunks, sel, h, l);
        lemma_hunk_changes(hunks[h].lines, h, sel, mode);
        assert(hunk_acc(hunks[h].lines, h, sel, mode).changes > 0);
    }
    if patch_acc(hunks, sel, mode).body.len() > 0 {
        let h = choose|h: int| 0 <= h < hunks.len() && #[trigger] hunk_acc(hunks[h].lines, h, sel, mode).changes > 0;
        lemma_hunk_changes(hunks[h].lines, h, sel, mode);
        let l = choose|l: int| 0 <= l < hunks[h].lines.len() && is_change_kind(#[trigger] hunks[h].lines[l].kind) && sel(h, l);
        assert(selects_change(hunks, sel, h, l));
    }
}

proof fn lemma_hunk_acc_all_modes(lines: Seq<LineV>, hi: int)
    ensures
        hunk_acc(lines, hi, all_sel(), ApplyMode::Forward) == hunk_acc(lines, hi, all_sel(), ApplyMode::Reverse),
    decreases lines.len(),
{
    if lines.len() > 0 {
        lemma_hunk_acc_all_modes(lines.drop_last(), hi);
    }
}

proof fn lemma_patch_acc_all_modes(hunks: Seq<HunkV>)
    ensures
        patch_acc(hunks, all_sel(), ApplyMode::Forward) == patch_acc(hunks, all_sel(), ApplyMode::Reverse),
    decreases hunks.len(),
{
    if hunks.len() > 0 {
        lemma_patch_acc_all_modes(hunks.drop_last());
        lemma_hunk_acc_all_modes(hunks.last().lines, hunks.len() - 1);
    }
}

/// With everything selected no line needs converting, so the whole-file patch
/// is the same whichever way it is going to be applied.
pub proof fn law_full_patch_ignores_direction(fd: FileDiffV)
    ensures
        patch_spec(fd, ApplyMode::Forward, all_sel()) == patch_spec(fd, ApplyMode::Reverse, all_sel()),
{
    lemma_patch_acc_all_modes(fd.hunks);
}

/// A whole-hunk patch exists exactly when that hunk holds a change.
pub proof fn law_hunk_patch_exists_iff_hunk_has_changes(fd: FileDiffV, mode: ApplyMode, hunk: int)
    ensures
        patch_spec(fd, mode, hunk_sel(hunk)) is Some <==> (0 <= hunk < fd.hunks.len() && exists|l: int|
            0 <= l < fd.hunks[hunk].lines.len() && is_change_kind(#[trigger] fd.hunks[hunk].lines[l].kind)),
{
    law_patch_iff_selected_change(fd, mode, hunk_sel(hunk));
    if 0 <= hunk < fd.hunks.len() && exists|l: int|
        0 <= l < fd.hunks[hunk].lines.len() && is_change_kind(#[trigger] fd.hunks[hunk].lines[l].kind) {
        let l = choose|l: int| 0 <= l < fd.hunks[hunk].lines.len() && is_change_kind(#[trigger] fd.hunks[hunk].lines[l].kind);
        assert(selects_change(fd.hunks, hunk_sel(hunk), hunk, l));
    }
}


/// The rule partial staging rests on: a selected change keeps its marker and
/// context always stays; an unselected addition is dropped going forward and
/// becomes context going backward, and an unselected deletion the other way
/// round, because the side that must match the target flips with the
/// direction.
pub proof fn law_unselected_lines_follow_direction(kind: LineKind, mode: ApplyMode)
    ensures
        line_fate(LineKind::Context, false, mode) == Some(' '),
        line_fate(LineKind::Addition, true, mode) == Some('+'),
        line_fate(LineKind::Deletion, true, mode) == Some('-'),
        line_fate(LineKind::Addition, false, ApplyMode::Forward) is None,
        line_fate(LineKind::Deletion, false, ApplyMode::Forward) == Some(' '),
        line_fate(LineKind::Addition, false, ApplyMode::Reverse) == Some(' '),
        line_fate(LineKind::Deletion, false, ApplyMode::Reverse) is None,
{
}

/// A `\ No newline at end of file` marker is emitted exactly when the line
/// it describes survived.
pub proof fn law_no_newline_marker_follows_its_line(
    lines: Seq<LineV>,
    hi: int,
    sel: spec_fn(int, int) -> bool,
    mode: ApplyMode,
)
    requires
        lines.len() > 0,
        lines.last().kind == LineKind::NoNewline,
    ensures
        ({
            let before = hunk_acc(lines.drop_last(), hi, sel, mode);
            let after = hunk_acc(lines, hi, sel, mode);
            &&& before.kept_previous ==> after.out == before.out.push(lines.last().text)
            &&& !before.kept_previous ==> after.out == before.out
        }),
{
}

/// A hunk taken into a partial patch lands where it belongs: git reads its
/// header back with the old side's start unmoved and the new side's start
/// shifted by the lines the hunks already emitted added or removed, so
/// staging only a later hunk still applies in the right place.
pub proof fn law_emitted_hunk_keeps_its_place(h: HunkV, a: HunkAcc, delta: int)
    requires
        h.old_count > 0,
        a.old_count > 0,
        a.new_count > 0,
        a.old_count <= u32::MAX,
        a.new_count <= u32::MAX,
        0 <= h.old_start + delta <= u32::MAX,
    ensures
        parse_hunk_header_spec(emitted_header(h, a, delta)) == Some(
            HunkV {
                old_start: h.old_start,
                old_count: a.old_count as u32,
                new_start: (h.old_start + delta) as u32,
                new_count: a.new_count as u32,
                section: h.section,
                lines: seq![],
            },
        ),
{
    law_hunk_header_round_trip(
        h.old_start,
        a.old_count as u32,
        (h.old_start + delta) as u32,
        a.new_count as u32,
        h.section,
    );
}

/// Number of lines of `body` that open a hunk.
pub open spec fn header_count(body: Seq<Seq<char>>) -> nat
    decreases body.len(),
{
    if body.len() == 0 {
        0
    } else {
        header_count(body.drop_last()) + if starts_with(body.last(), "@@ "@) {
            1nat
        } else {
            0nat
        }
    }
}

/// Hunk `h` holds a change that `sel` selects.
pub open spec fn hunk_selected(hunks: Seq<HunkV>, sel: spec_fn(int, int) -> bool, h: int) -> bool {
    exists|l: int| #[trigger] selects_change(hunks, sel, h, l)
}

/// Number of hunks holding a change that `sel` selects.
pub open spec fn selected_hunk_count(hunks: Seq<HunkV>, sel: spec_fn(int, int) -> bool) -> nat
    decreases hunks.len(),
{
    if hunks.len() == 0 {
        0
    } else {
        selected_hunk_count(hunks.drop_last(), sel) + if hunk_selected(hunks, sel, hunks.len() - 1) {
            1nat
        } else {
            0nat
        }
    }
}

proof fn lemma_header_count_concat(a: Seq<Seq<char>>, b: Seq<Seq<char>>)
    ensures
        header_count(a + b) == header_count(a) + header_count(b),
    decreases b.len(),
{
    if b.len() > 0 {
        lemma_header_count_concat(a, b.drop_last());
        assert((a + b).drop_last() =~= a + b.drop_last());
        assert((a + b).last() == b.last());
    } else {
        assert(a + b =~= a);
    }
}

proof fn lemma_out_opens_no_hunk(lines: Seq<LineV>, hi: int, sel: spec_fn(int, int) -> bool, mode: ApplyMode)
    requires
        markers_marked(lines),
    ensures
        header_count(hunk_acc(lines, hi, sel, mode).out) == 0,
    decreases lines.len(),
{
    reveal_strlit("@@ ");
    if lines.len() > 0 {
        let t = lines.drop_last();
        assert forall|i: int| 0 <= i < t.len() && #[trigger] t[i].kind == LineKind::NoNewline implies t[i].text.len()
            > 0 && t[i].text[0] == '\\' by {
            assert(t[i] == lines[i]);
        }
        lemma_out_opens_no_hunk(t, hi, sel, mode);
        let a = hunk_acc(t, hi, sel, mode);
        let l = lines.last();
        assert(l == lines[lines.len() - 1]);
        if l.kind == LineKind::NoNewline {
            if a.kept_previous {
                let after = a.out.push(l.text);
                assert(after.drop_last() =~= a.out);
                assert(l.text[0] != "@@ "@[0]);
            }
        } else {
            match line_fate(l.kind, sel(hi, lines.len() - 1), mode) {
                Some(m) => {
                    lemma_push_marked(m, l.text);
                    let after = a.out.push(seq![m] + l.text);
                    assert(after.drop_last() =~= a.out);
                    assert((seq![m] + l.text)[0] != "@@ "@[0]);
                },
                None => {},
            }
        }
    }
}

proof fn lemma_emitted_header_opens_hunk(h: HunkV, a: HunkAcc, delta: int)
    ensures
        starts_with(emitted_header(h, a, delta), "@@ "@),
{
    reveal_strlit("@@ ");
    reveal_strlit("@@ -");
    let t = emitted_header(h, a, delta);
    assert(t.subrange(0, 3) =~= "@@ "@);
}

/// A partial patch holds one hunk header for each source hunk with a
/// selected change, and none for the others.
pub proof fn law_one_header_per_selected_hunk(hunks: Seq<HunkV>, sel: spec_fn(int, int) -> bool, mode: ApplyMode)
    requires
        forall|h: int| 0 <= h < hunks.len() ==> markers_marked(#[trigger] hunks[h].lines),
    ensures
        header_count(patch_acc(hunks, sel, mode).body) == selected_hunk_count(hunks, sel),
    decreases hunks.len(),
{
    if hunks.len() > 0 {
        let t = hunks.drop_last();
        let hi = hunks.len() - 1;
        assert forall|h: int| 0 <= h < t.len() implies markers_marked(#[trigger] t[h].lines) by {
            assert(t[h] == hunks[h]);
        }
        law_one_header_per_selected_hunk(t, sel, mode);
        let p = patch_acc(t, sel, mode);
        let h = hunks.last();
        assert(h == hunks[hi]);
        let a = hunk_acc(h.lines, hi, sel, mode);
        lemma_hunk_changes(h.lines, hi, sel, mode);
        if hunk_selected(hunks, sel, hi) {
            let l = choose|l: int| #[trigger] selects_change(hunks, sel, hi, l);
            assert(is_change_kind(h.lines[l].kind) && sel(hi, l));
        }
        if a.changes > 0 {
            let l = choose|l: int| 0 <= l < h.lines.len() && is_change_kind(#[trigger] h.lines[l].kind) && sel(hi, l);
            assert(selects_change(hunks, sel, hi, l));
            lemma_out_opens_no_hunk(h.lines, hi, sel, mode);
            lemma_emitted_header_opens_hunk(h, a, p.delta);
            let hdr = emitted_header(h, a, p.delta);
            lemma_header_count_concat(p.body.push(hdr), a.out);
            assert(p.body.push(hdr).drop_last() =~= p.body);
        }
        assert forall|k: int| 0 <= k < t.len() implies hunk_selected(hunks, sel, k) == hunk_selected(t, sel, k) by {
            assert(t[k] == hunks[k]);
            if hunk_selected(hunks, sel, k) {
                let l = choose|l: int| #[trigger] selects_change(hunks, sel, k, l);
                assert(selects_change(t, sel, k, l));
            }
            if hunk_selected(t, sel, k) {
                let l = choose|l: int| #[trigger] selects_change(t, sel, k, l);
                assert(selects_change(hunks, sel, k, l));
            }
        }
    }
}

proof fn lemma_one_hunk_count(hunks: Seq<HunkV>, hunk: int)
    ensures
        selected_hunk_count(hunks, hunk_sel(hunk)) == if 0 <= hunk < hunks.len() && hunk_selected(
            hunks,
            hunk_sel(hunk),
            hunk,
        ) {
            1nat
        } else {
            0nat
        },
    decreases hunks.len(),
{
    if hunks.len() > 0 {
        let t = hunks.drop_last();
        lemma_one_hunk_count(t, hunk);
        let hi = hunks.len() - 1;
        if hunk_selected(hunks, hunk_sel(hunk), hi) {
            let l = choose|l: int| #[trigger] selects_change(hunks, hunk_sel(hunk), hi, l);
            assert(hunk_sel(hunk)(hi, l));
        }
        if 0 <= hunk < t.len() {
            assert(t[hunk] == hunks[hunk]);
            if hunk_selected(hunks, hunk_sel(hunk), hunk) {
                let l = choose|l: int| #[trigger] selects_change(hunks, hunk_sel(hunk), hunk, l);
                assert(selects_change(t, hunk_sel(hunk), hunk, l));
            }
            if hunk_selected(t, hunk_sel(hunk), hunk) {
                let l = choose|l: int| #[trigger] selects_change(t, hunk_sel(hunk), hunk, l);
                assert(selects_change(hunks, hunk_sel(hunk), hunk, l));
            }
        }
    }
}

/// A whole-hunk patch has exactly one hunk header when that hunk holds a
/// change.
pub proof fn law_hunk_patch_has_one_header(fd: FileDiffV, mode: ApplyMode, hunk: int)
    requires
        forall|h: int| 0 <= h < fd.hunks.len() ==> markers_marked(#[trigger] fd.hunks[h].lines),
        0 <= hunk < fd.hunks.len(),
        exists|l: int|
            0 <= l < fd.hunks[hunk].lines.len() && is_change_kind(#[trigger] fd.hunks[hunk].lines[l].kind),
    ensures
        header_count(patch_acc(fd.hunks, hunk_sel(hunk), mode).body) == 1,
{
    law_one_header_per_selected_hunk(fd.hunks, hunk_sel(hunk), mode);
    lemma_one_hunk_count(fd.hunks, hunk);
    let l = choose|l: int|
        0 <= l < fd.hunks[hunk].lines.len() && is_change_kind(#[trigger] fd.hunks[hunk].lines[l].kind);
    assert(selects_change(fd.hunks, hunk_sel(hunk), hunk, l));
}

/// A header line that only a whole-file create or delete may carry.
pub open spec fn create_delete_line(line: Seq<char>) -> bool {
    starts_with(line, "new file mode "@) || starts_with(line, "deleted file mode "@) || starts_with(
        line,
        "index "@,
    )
}

proof fn lemma_rewrite_lines(header: Seq<Seq<char>>, partial_new: bool, partial_delete: bool, path: Seq<char>)
    ensures
        ({
            let out = rewrite_lines(header, partial_new, partial_delete, path);
            &&& out.len() <= header.len()
            &&& forall|i: int| 0 <= i < out.len() ==> !create_delete_line(#[trigger] out[i])
            &&& partial_new ==> forall|i: int| 0 <= i < out.len() ==> #[trigger] out[i] != "--- /dev/null"@
            &&& partial_delete ==> forall|i: int| 0 <= i < out.len() ==> #[trigger] out[i] != "+++ /dev/null"@
        }),
    decreases header.len(),
{
    reveal_strlit("new file mode ");
    reveal_strlit("deleted file mode ");
    reveal_strlit("index ");
    reveal_strlit("--- /dev/null");
    reveal_strlit("+++ /dev/null");
    reveal_strlit("--- a/");
    reveal_strlit("+++ b/");
    if header.len() > 0 {
        let rest = rewrite_lines(header.drop_last(), partial_new, partial_delete, path);
        lemma_rewrite_lines(header.drop_last(), partial_new, partial_delete, path);
        match rewrite_line(header.last(), partial_new, partial_delete, path) {
            Some(l) => {
                let out = rest.push(l);
                assert(out.last() == l);
                if partial_new && header.last() == "--- /dev/null"@ {
                    let x = "--- a/"@ + path;
                    assert(x[4] == 'a');
                    assert(x.subrange(0, 1) =~= seq!['-']);
                    assert("--- /dev/null"@[4] == '/');
                    assert("new file mode "@[0] == 'n');
                    assert("deleted file mode "@[0] == 'd');
                    assert("index "@[0] == 'i');
                    assert("+++ /dev/null"@[0] == '+');
                } else if partial_delete && header.last() == "+++ /dev/null"@ {
                    let x = "+++ b/"@ + path;
                    assert(x[4] == 'b');
                    assert(x[0] == '+');
                    assert("+++ /dev/null"@[4] == '/');
                    assert("--- /dev/null"@[0] == '-');
                    assert("new file mode "@[0] == 'n');
                    assert("deleted file mode "@[0] == 'd');
                    assert("index "@[0] == 'i');
                } else {
                    if partial_new {
                        assert(l != "--- /dev/null"@);
                    }
                    if partial_delete {
                        assert(l != "+++ /dev/null"@);
                    }
                }
                assert forall|i: int| 0 <= i < out.len() implies !create_delete_line(#[trigger] out[i]) by {
                    if i < rest.len() {
                        assert(out[i] == rest[i]);
                    }
                }
            },
            None => {},
        }
    }
}

/// What partial staging does to a file header: left as it is when the
/// create or delete it describes is taken whole; otherwise no mode or blob
/// line survives, no header line is added, and the side that now has content
/// no longer reads `/dev/null`.
pub proof fn law_partial_header_drops_create_delete(fd: FileDiffV, total_old: nat, total_new: nat)
    ensures
        ({
            let out = header_out(fd, total_old, total_new);
            let partial_new = fd.is_new && total_old > 0;
            let partial_delete = fd.is_delete && total_new > 0;
            &&& !partial_new && !partial_delete ==> out == fd.header
            &&& partial_new || partial_delete ==> out.len() <= fd.header.len() && forall|i: int|
                0 <= i < out.len() ==> !create_delete_line(#[trigger] out[i])
            &&& partial_new ==> forall|i: int| 0 <= i < out.len() ==> #[trigger] out[i] != "--- /dev/null"@
            &&& partial_delete ==> forall|i: int| 0 <= i < out.len() ==> #[trigger] out[i] != "+++ /dev/null"@
        }),
{
    lemma_rewrite_lines(fd.header, fd.is_new && total_old > 0, fd.is_delete && total_new > 0, header_path(fd));
}

/// A hunk as a unified diff prints it: its header, then its lines.
pub open spec fn hunk_text(h: HunkV) -> Seq<Seq<char>> {
    seq![hunk_header_text(h.old_start, h.old_count, h.new_start, h.new_count, h.section)] + h.lines.map_values(
        |l: LineV| line_text(l),
    )
}

/// The printed hunks, one after the other.
pub open spec fn hunks_text(hunks: Seq<HunkV>) -> Seq<Seq<char>>
    decreases hunks.len(),
{
    if hunks.len() == 0 {
        seq![]
    } else {
        hunks_text(hunks.drop_last()) + hunk_text(hunks.last())
    }
}

/// A whole diff as a unified diff prints it, every line ending in `\n`.
pub open spec fn diff_text(fd: FileDiffV) -> Seq<char> {
    join_terminated(fd.header + hunks_text(fd.hunks), "\n"@)
}

/// Lines added minus lines removed over `hunks`, by their headers.
pub open spec fn header_delta(hunks: Seq<HunkV>) -> int
    decreases hunks.len(),
{
    if hunks.len() == 0 {
        0
    } else {
        header_delta(hunks.drop_last()) + hunks.last().new_count - hunks.last().old_count
    }
}

/// A hunk git would print: it holds a change, does not open with a
/// no-newline marker, and its counts are the sizes of its two sides.
pub open spec fn hunk_well_formed(h: HunkV) -> bool {
    &&& h.lines.len() > 0
    &&& h.lines[0].kind != LineKind::NoNewline
    &&& count_changes(h.lines) > 0
    &&& h.old_count == src_side(h.lines, LineKind::Deletion).len()
    &&& h.new_count == src_side(h.lines, LineKind::Addition).len()
}

/// Hunk `k`'s new start is where its old start lands once the hunks before
/// it have added and removed their lines (an empty side names the line
/// before it, as git prints it).
pub open spec fn hunk_placed(hunks: Seq<HunkV>, k: int) -> bool {
    let h = hunks[k];
    let old_pos: int = if h.old_count == 0 {
        h.old_start + 1
    } else {
        h.old_start as int
    };
    let new_pos = old_pos + header_delta(hunks.subrange(0, k));
    h.new_start == if h.new_count == 0 {
        new_pos - 1
    } else {
        new_pos
    }
}

/// A diff as git prints it for one file: well-formed hunks in place, and a
/// create or delete header only over hunks that add or remove everything.
pub open spec fn diff_well_formed(fd: FileDiffV) -> bool {
    &&& forall|k: int| 0 <= k < fd.hunks.len() ==> hunk_well_formed(#[trigger] fd.hunks[k])
    &&& forall|k: int| 0 <= k < fd.hunks.len() ==> #[trigger] hunk_placed(fd.hunks, k)
    &&& fd.is_new ==> forall|k: int| 0 <= k < fd.hunks.len() ==> (#[trigger] fd.hunks[k]).old_count == 0
    &&& fd.is_delete ==> forall|k: int| 0 <= k < fd.hunks.len() ==> (#[trigger] fd.hunks[k]).new_count == 0
}

proof fn lemma_full_hunk(lines: Seq<LineV>, hi: int, mode: ApplyMode)
    requires
        lines.len() > 0 ==> lines[0].kind != LineKind::NoNewline,
    ensures
        ({
            let a = hunk_acc(lines, hi, all_sel(), mode);
            &&& a.out == lines.map_values(|l: LineV| line_text(l))
            &&& a.old_count == src_side(lines, LineKind::Deletion).len()
            &&& a.new_count == src_side(lines, LineKind::Addition).len()
            &&& a.changes == count_changes(lines)
            &&& lines.len() > 0 ==> a.kept_previous
        }),
    decreases lines.len(),
{
    if lines.len() > 0 {
        let t = lines.drop_last();
        if t.len() > 0 {
            assert(t[0] == lines[0]);
        }
        lemma_full_hunk(t, hi, mode);
        assert(lines.map_values(|l: LineV| line_text(l)) =~= t.map_values(|l: LineV| line_text(l)).push(
            line_text(lines.last()),
        ));
        if lines.len() == 1 {
            assert(lines.last() == lines[0]);
        }
    }
}

proof fn lemma_full_body(hunks: Seq<HunkV>, mode: ApplyMode)
    requires
        forall|k: int| 0 <= k < hunks.len() ==> hunk_well_formed(#[trigger] hunks[k]),
        forall|k: int| 0 <= k < hunks.len() ==> #[trigger] hunk_placed(hunks, k),
    ensures
        ({
            let p = patch_acc(hunks, all_sel(), mode);
            &&& p.body == hunks_text(hunks)
            &&& p.delta == header_delta(hunks)
            &&& (forall|k: int| 0 <= k < hunks.len() ==> (#[trigger] hunks[k]).old_count == 0) ==> p.total_old == 0
            &&& (forall|k: int| 0 <= k < hunks.len() ==> (#[trigger] hunks[k]).new_count == 0) ==> p.total_new == 0
        }),
    decreases hunks.len(),
{
    if hunks.len() > 0 {
        let t = hunks.drop_last();
        let hi = hunks.len() - 1;
        assert forall|k: int| 0 <= k < t.len() implies hunk_well_formed(#[trigger] t[k]) by {
            assert(t[k] == hunks[k]);
        }
        assert forall|k: int| 0 <= k < t.len() implies #[trigger] hunk_placed(t, k) by {
            assert(t[k] == hunks[k]);
            assert(t.subrange(0, k) =~= hunks.subrange(0, k));
            assert(hunk_placed(hunks, k));
        }
        lemma_full_body(t, mode);
        let h = hunks.last();
        assert(h == hunks[hi]);
        assert(hunk_well_formed(h));
        assert(hunk_placed(hunks, hi));
        assert(hunks.subrange(0, hi) =~= t);
        lemma_full_hunk(h.lines, hi, mode);
        let p = patch_acc(t, all_sel(), mode);
        let a = hunk_acc(h.lines, hi, all_sel(), mode);
        assert(emitted_header(h, a, p.delta) == hunk_header_text(
            h.old_start,
            h.old_count,
            h.new_start,
            h.new_count,
            h.section,
        ));
        assert(p.body.push(emitted_header(h, a, p.delta)) + a.out =~= p.body + hunk_text(h));
        if forall|k: int| 0 <= k < hunks.len() ==> (#[trigger] hunks[k]).old_count == 0 {
            assert forall|k: int| 0 <= k < t.len() implies (#[trigger] t[k]).old_count == 0 by {
                assert(t[k] == hunks[k]);
            }
        }
        if forall|k: int| 0 <= k < hunks.len() ==> (#[trigger] hunks[k]).new_count == 0 {
            assert forall|k: int| 0 <= k < t.len() implies (#[trigger] t[k]).new_count == 0 by {
                assert(t[k] == hunks[k]);
            }
        }
    }
}

/// With every line selected, the patch is the diff itself, line for line
/// and byte for byte (a carriage return at a line's end included): a diff as
/// git prints it can be applied or reversed as it stands.
pub proof fn law_full_patch_gives_back_the_diff(fd: FileDiffV, mode: ApplyMode)
    requires
        fd.hunks.len() > 0,
        diff_well_formed(fd),
    ensures
        patch_spec(fd, mode, all_sel()) == Some(diff_text(fd)),
{
    lemma_full_body(fd.hunks, mode);
    let p = patch_acc(fd.hunks, all_sel(), mode);
    let last = fd.hunks.last();
    assert(hunks_text(fd.hunks) == hunks_text(fd.hunks.drop_last()) + hunk_text(last));
    assert(p.body.len() > 0);
    assert(header_out(fd, p.total_old, p.total_new) == fd.header);
}

/// The change indices of a hunk rise strictly, each naming a change line,
/// so "select whole hunk" lists every change once, in order.
pub proof fn law_change_indices_rise(lines: Seq<LineV>)
    ensures
        forall|i: int, j: int|
            0 <= i < j < change_indices(lines).len() ==> #[trigger] change_indices(lines)[i]
                < #[trigger] change_indices(lines)[j],
        forall|i: int|
            0 <= i < change_indices(lines).len() ==> #[trigger] change_indices(lines)[i] < lines.len()
                && is_change_kind(lines[change_indices(lines)[i] as int].kind),
    decreases lines.len(),
{
    if lines.len() > 0 {
        let t = lines.drop_last();
        law_change_indices_rise(t);
        let c = change_indices(t);
        assert forall|i: int| 0 <= i < c.len() implies #[trigger] c[i] < t.len() && lines[c[i] as int] == t[c[i] as int] by {
        }
    }
}

/// Selected additions minus selected deletions among hunk `hi`'s `lines`.
pub open spec fn selected_net(lines: Seq<LineV>, hi: int, sel: spec_fn(int, int) -> bool) -> int
    decreases lines.len(),
{
    if lines.len() == 0 {
        0
    } else {
        let li = lines.len() - 1;
        selected_net(lines.drop_last(), hi, sel) + if lines.last().kind == LineKind::Addition && sel(hi, li) {
            1int
        } else if lines.last().kind == LineKind::Deletion && sel(hi, li) {
            -1int
        } else {
            0int
        }
    }
}

/// Selected additions minus selected deletions over every hunk.
pub open spec fn selected_net_all(hunks: Seq<HunkV>, sel: spec_fn(int, int) -> bool) -> int
    decreases hunks.len(),
{
    if hunks.len() == 0 {
        0
    } else {
        selected_net_all(hunks.drop_last(), sel) + selected_net(hunks.last().lines, hunks.len() - 1, sel)
    }
}

proof fn lemma_hunk_net(lines: Seq<LineV>, hi: int, sel: spec_fn(int, int) -> bool, mode: ApplyMode)
    ensures
        ({
            let a = hunk_acc(lines, hi, sel, mode);
            &&& a.new_count - a.old_count == selected_net(lines, hi, sel)
            &&& -(a.changes as int) <= selected_net(lines, hi, sel) <= a.changes
        }),
    decreases lines.len(),
{
    if lines.len() > 0 {
        lemma_hunk_net(lines.drop_last(), hi, sel, mode);
    }
}

/// How far a partial patch shifts the new side is decided by what it takes,
/// not by the source hunks' headers: after any run of hunks, the shift is the
/// selected additions minus the selected deletions in them, whichever way
/// the patch goes. So each emitted hunk's new start is its old start plus
/// that count over the hunks before it.
pub proof fn law_shift_counts_selected_changes(hunks: Seq<HunkV>, sel: spec_fn(int, int) -> bool, mode: ApplyMode)
    ensures
        patch_acc(hunks, sel, mode).delta == selected_net_all(hunks, sel),
    decreases hunks.len(),
{
    if hunks.len() > 0 {
        law_shift_counts_selected_changes(hunks.drop_last(), sel, mode);
        lemma_hunk_net(hunks.last().lines, hunks.len() - 1, sel, mode);
    }
}

} // verus!
