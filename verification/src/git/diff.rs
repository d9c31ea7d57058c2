//! Unified-diff parser.
//!
//! Diffs are always requested one path at a time, so this never has to
//! disambiguate the `diff --git a/x b/y` line for paths containing spaces.
//! Header lines are kept verbatim so they can be replayed into `git apply`
//! without re-quoting anything.

use vstd::prelude::*;
use crate::text::{
    all_digits, digit_char, digits_value, is_digit, unsigned_body, append_str, chars_eq, chars_of, lemma_find_from_some, find, occurs_at, cviews, decimal, occurs_at_exec, parse_u32, parse_u32_exec, push_char, push_decimal, slice_of, split_char, split_char_exec, split_once, split_once_exec, starts_with, starts_with_str, string_of, strip_prefix, strip_prefix_str, views, join, join_terminated,
};

verus! {

#[derive(Clone, Copy, PartialEq, Eq, Debug, Structural)]
pub enum LineKind {
    Context,
    Addition,
    Deletion,
    /// The `\ No newline at end of file` marker; belongs to the line above it.
    NoNewline,
}

#[derive(Clone, Debug, PartialEq, Eq)]
pub struct DiffLine {
    pub kind: LineKind,
    /// Content without the leading +/-/space marker. For `NoNewline`, the
    /// whole marker line verbatim.
    pub text: String,
    pub old_no: Option<u32>,
    pub new_no: Option<u32>,
}

/// The mathematical model of a diff line.
pub struct LineV {
    pub kind: LineKind,
    pub text: Seq<char>,
    pub old_no: Option<u32>,
    pub new_no: Option<u32>,
}

impl View for DiffLine {
    type V = LineV;

    open spec fn view(&self) -> LineV {
        LineV { kind: self.kind, text: self.text@, old_no: self.old_no, new_no: self.new_no }
    }
}

/// An addition or a deletion.
pub open spec fn is_change_kind(k: LineKind) -> bool {
    k == LineKind::Addition || k == LineKind::Deletion
}

impl DiffLine {
    pub fn is_change(&self) -> (r: bool)
        ensures
            r == is_change_kind(self.kind),
    {
        self.kind == LineKind::Addition || self.kind == LineKind::Deletion
    }
}

/// A diff line as a unified diff prints it.
pub open spec fn line_text(l: LineV) -> Seq<char> {
    match l.kind {
        LineKind::Context => seq![' '] + l.text,
        LineKind::Addition => seq!['+'] + l.text,
        LineKind::Deletion => seq!['-'] + l.text,
        LineKind::NoNewline => l.text,
    }
}

impl DiffLine {
    /// The line as the diff view shows it: its marker, then its text; a
    /// no-newline marker line as it is.
    pub fn display_text(&self) -> (r: String)
        ensures
            r@ == line_text(self@),
    {
        let mut s = String::new();
        match self.kind {
            LineKind::Context => push_char(&mut s, ' '),
            LineKind::Addition => push_char(&mut s, '+'),
            LineKind::Deletion => push_char(&mut s, '-'),
            LineKind::NoNewline => {},
        }
        append_str(&mut s, self.text.as_str());
        s
    }
}

#[derive(Clone, Debug, PartialEq, Eq)]
pub struct Hunk {
    pub old_start: u32,
    pub old_count: u32,
    pub new_start: u32,
    pub new_count: u32,
    /// Everything after the closing `@@`, including its leading space.
    pub section: String,
    pub lines: Vec<DiffLine>,
}

/// The mathematical model of a hunk.
pub struct HunkV {
    pub old_start: u32,
    pub old_count: u32,
    pub new_start: u32,
    pub new_count: u32,
    pub section: Seq<char>,
    pub lines: Seq<LineV>,
}

/// The models of a sequence of diff lines.
pub open spec fn line_views(v: Seq<DiffLine>) -> Seq<LineV> {
    v.map_values(|l: DiffLine| l@)
}

impl View for Hunk {
    type V = HunkV;

    open spec fn view(&self) -> HunkV {
        HunkV {
            old_start: self.old_start,
            old_count: self.old_count,
            new_start: self.new_start,
            new_count: self.new_count,
            section: self.section@,
            lines: line_views(self.lines@),
        }
    }
}

/// A `start,count` range as git prints it: the count is left out when it is 1.
pub open spec fn range_text(start: u32, count: u32) -> Seq<char> {
    if count == 1 {
        decimal(start as nat)
    } else {
        decimal(start as nat) + ","@ + decimal(count as nat)
    }
}

/// The `@@ -a,b +c,d @@section` line for the given fields.
pub open spec fn hunk_header_text(
    old_start: u32,
    old_count: u32,
    new_start: u32,
    new_count: u32,
    section: Seq<char>,
) -> Seq<char> {
    "@@ -"@ + range_text(old_start, old_count) + " +"@ + range_text(new_start, new_count) + " @@"@
        + section
}

/// Number of additions and deletions among `lines`.
pub open spec fn count_changes(lines: Seq<LineV>) -> nat
    decreases lines.len(),
{
    if lines.len() == 0 {
        0
    } else {
        count_changes(lines.drop_last()) + if is_change_kind(lines.last().kind) {
            1nat
        } else {
            0nat
        }
    }
}

/// Appends the text of `range(start, count)`.
fn push_range(s: &mut String, start: u32, count: u32)
    ensures
        final(s)@ == old(s)@ + range_text(start, count),
{
    push_decimal(s, start as u64);
    if count != 1 {
        append_str(s, ",");
        push_decimal(s, count as u64);
    }
    assert(s@ =~= old(s)@ + range_text(start, count));
}

/// `start,count`, with the count left out when it is 1.
pub fn range(start: u32, count: u32) -> (r: String)
    ensures
        r@ == range_text(start, count),
{
    let mut s = String::new();
    push_range(&mut s, start, count);
    s
}

/// Appends a hunk header line built from its fields.
pub fn push_hunk_header(
    s: &mut String,
    old_start: u32,
    old_count: u32,
    new_start: u32,
    new_count: u32,
    section: &str,
)
    ensures
        final(s)@ == old(s)@ + hunk_header_text(
            old_start,
            old_count,
            new_start,
            new_count,
            section@,
        ),
{
    append_str(s, "@@ -");
    push_range(s, old_start, old_count);
    append_str(s, " +");
    push_range(s, new_start, new_count);
    append_str(s, " @@");
    append_str(s, section);
    assert(s@ =~= old(s)@ + hunk_header_text(old_start, old_count, new_start, new_count, section@));
}

impl Hunk {
    pub fn header(&self) -> (r: String)
        ensures
            r@ == hunk_header_text(
                self.old_start,
                self.old_count,
                self.new_start,
                self.new_count,
                self.section@,
            ),
    {
        let mut s = String::new();
        push_hunk_header(
            &mut s,
            self.old_start,
            self.old_count,
            self.new_start,
            self.new_count,
            self.section.as_str(),
        );
        s
    }

    pub fn change_count(&self) -> (r: usize)
        ensures
            r == count_changes(line_views(self.lines@)),
    {
        let mut n: usize = 0;
        let mut i: usize = 0;
        while i < self.lines.len()
            invariant
                i <= self.lines@.len(),
                n <= i,
                n == count_changes(line_views(self.lines@).subrange(0, i as int)),
            decreases self.lines@.len() - i,
        {
            let ghost lv = line_views(self.lines@);
            proof {
                assert(lv.subrange(0, i + 1).drop_last() =~= lv.subrange(0, i as int));
            }
            if self.lines[i].is_change() {
                n += 1;
            }
            i += 1;
        }
        proof {
            assert(line_views(self.lines@).subrange(0, i as int) =~= line_views(self.lines@));
        }
        n
    }
}

#[derive(Clone, Debug, PartialEq, Eq)]
pub struct FileDiff {
    /// Verbatim lines preceding the first `@@` hunk header.
    pub header: Vec<String>,
    pub hunks: Vec<Hunk>,
    pub binary: bool,
    pub is_new: bool,
    pub is_delete: bool,
    /// Present when the diff carried `rename from`/`rename to`.
    pub rename: bool,
    /// Set when the diff had a header but no hunks (pure mode/rename change).
    pub header_only: bool,
}

/// The mathematical model of a file diff.
pub struct FileDiffV {
    pub header: Seq<Seq<char>>,
    pub hunks: Seq<HunkV>,
    pub binary: bool,
    pub is_new: bool,
    pub is_delete: bool,
    pub rename: bool,
    pub header_only: bool,
}

/// The models of a sequence of hunks.
pub open spec fn hunk_views(v: Seq<Hunk>) -> Seq<HunkV> {
    v.map_values(|h: Hunk| h@)
}

impl View for FileDiff {
    type V = FileDiffV;

    open spec fn view(&self) -> FileDiffV {
        FileDiffV {
            header: views(self.header@),
            hunks: hunk_views(self.hunks@),
            binary: self.binary,
            is_new: self.is_new,
            is_delete: self.is_delete,
            rename: self.rename,
            header_only: self.header_only,
        }
    }
}

/// A diff with nothing in it.
pub open spec fn empty_diff() -> FileDiffV {
    FileDiffV {
        header: seq![],
        hunks: seq![],
        binary: false,
        is_new: false,
        is_delete: false,
        rename: false,
        header_only: false,
    }
}

impl Default for FileDiff {
    fn default() -> (fd: FileDiff)
        ensures
            fd@ == empty_diff(),
    {
        let fd = FileDiff {
            header: Vec::new(),
            hunks: Vec::new(),
            binary: false,
            is_new: false,
            is_delete: false,
            rename: false,
            header_only: false,
        };
        assert(views(fd.header@) =~= Seq::<Seq<char>>::empty());
        assert(hunk_views(fd.hunks@) =~= Seq::<HunkV>::empty());
        fd
    }
}

/// Total number of additions and deletions over `hunks`.
pub open spec fn total_changes_of(hunks: Seq<HunkV>) -> nat
    decreases hunks.len(),
{
    if hunks.len() == 0 {
        0
    } else {
        total_changes_of(hunks.drop_last()) + count_changes(hunks.last().lines)
    }
}

/// The first header line carrying `marker`, with the marker removed.
pub open spec fn first_stripped(header: Seq<Seq<char>>, marker: Seq<char>) -> Option<Seq<char>>
    decreases header.len(),
{
    if header.len() == 0 {
        None
    } else {
        match strip_prefix(header[0], marker) {
            Some(rest) => Some(rest),
            None => first_stripped(header.drop_first(), marker),
        }
    }
}

/// `str::trim_start_matches(p)`: every leading repetition of `p` removed.
pub open spec fn trim_start_matches(s: Seq<char>, p: Seq<char>) -> Seq<char>
    decreases s.len(),
{
    if p.len() > 0 && starts_with(s, p) {
        trim_start_matches(s.subrange(p.len() as int, s.len() as int), p)
    } else {
        s
    }
}

/// The path on one side of the diff, from the first `marker` line, unless
/// that side is `/dev/null`.
pub open spec fn side_path(header: Seq<Seq<char>>, marker: Seq<char>, prefix: Seq<char>) -> Option<
    Seq<char>,
> {
    match first_stripped(header, marker) {
        Some(p) => if p == "/dev/null"@ {
            None
        } else {
            Some(trim_start_matches(p, prefix))
        },
        None => None,
    }
}

/// `str::trim_start_matches` with a literal pattern.
fn trim_start_matches_exec(s: &Vec<char>, p: &str) -> (r: Vec<char>)
    ensures
        r@ == trim_start_matches(s@, p@),
{
    let pc = chars_of(p);
    let mut i: usize = 0;
    assert(s@.subrange(0, s@.len() as int) =~= s@);
    while pc.len() > 0 && i <= s.len() && occurs_at_exec(s, &pc, i)
        invariant
            i <= s@.len(),
            pc@ == p@,
            trim_start_matches(s@, p@) == trim_start_matches(
                s@.subrange(i as int, s@.len() as int),
                p@,
            ),
        decreases s@.len() - i,
    {
        proof {
            let t = s@.subrange(i as int, s@.len() as int);
            assert(t.subrange(0, pc@.len() as int) =~= s@.subrange(i as int, i + pc@.len()));
            assert(t.subrange(pc@.len() as int, t.len() as int) =~= s@.subrange(
                i + pc@.len(),
                s@.len() as int,
            ));
        }
        i = i + pc.len();
    }
    proof {
        let t = s@.subrange(i as int, s@.len() as int);
        if pc@.len() > 0 && starts_with(t, p@) {
            assert(t.subrange(0, pc@.len() as int) =~= s@.subrange(i as int, i + pc@.len()));
        }
    }
    slice_of(s, i, s.len())
}

/// The path from the first `marker` header line, `None` for `/dev/null`.
fn side_path_exec(header: &Vec<String>, marker: &str, prefix: &str) -> (r: Option<String>)
    ensures
        match (r, side_path(views(header@), marker@, prefix@)) {
            (Some(a), Some(b)) => a@ == b,
            (None, None) => true,
            _ => false,
        },
{
    let mut i: usize = 0;
    let mut found: Option<Vec<char>> = None;
    assert(views(header@).subrange(0, header@.len() as int) =~= views(header@));
    while i < header.len() && found.is_none()
        invariant
            i <= header@.len(),
            found is None ==> first_stripped(views(header@), marker@) == first_stripped(
                views(header@).subrange(i as int, header@.len() as int),
                marker@,
            ),
            found is Some ==> first_stripped(views(header@), marker@) == Some(found->0@),
        decreases header@.len() - i + (if found is None { 1int } else { 0int }),
    {
        let line = chars_of(header[i].as_str());
        let ghost rest = views(header@).subrange(i as int, header@.len() as int);
        proof {
            assert(rest[0] == line@);
            assert(rest.drop_first() =~= views(header@).subrange(i + 1, header@.len() as int));
        }
        match strip_prefix_str(&line, marker) {
            Some(r) => {
                found = Some(r);
            },
            None => {
                i += 1;
            },
        }
    }
    proof {
        if found is None {
            assert(views(header@).subrange(i as int, header@.len() as int).len() == 0);
        }
    }
    match found {
        Some(p) => {
            let dn = chars_of("/dev/null");
            if chars_eq(&p, &dn) {
                None
            } else {
                let t = trim_start_matches_exec(&p, prefix);
                Some(string_of(&t))
            }
        },
        None => None,
    }
}

impl FileDiff {
    pub fn total_changes(&self) -> (r: usize)
        requires
            total_changes_of(self@.hunks) <= usize::MAX,
        ensures
            r == total_changes_of(self@.hunks),
    {
        let mut n: usize = 0;
        let mut i: usize = 0;
        while i < self.hunks.len()
            invariant
                i <= self.hunks@.len(),
                total_changes_of(self@.hunks) <= usize::MAX,
                n == total_changes_of(self@.hunks.subrange(0, i as int)),
            decreases self.hunks@.len() - i,
        {
            proof {
                let hv = self@.hunks;
                assert(hv.subrange(0, i + 1).drop_last() =~= hv.subrange(0, i as int));
                lemma_total_changes_prefix(hv, i + 1);
            }
            let c = self.hunks[i].change_count();
            n = n + c;
            i += 1;
        }
        proof {
            assert(self@.hunks.subrange(0, i as int) =~= self@.hunks);
        }
        n
    }

    pub fn is_empty(&self) -> (r: bool)
        ensures
            r == (self@.hunks.len() == 0 && self@.header.len() == 0),
    {
        self.hunks.len() == 0 && self.header.len() == 0
    }

    /// The `a/` side path, taken from the `--- ` line.
    pub fn old_path(&self) -> (r: Option<String>)
        ensures
            match (r, side_path(self@.header, "--- "@, "a/"@)) {
                (Some(a), Some(b)) => a@ == b,
                (None, None) => true,
                _ => false,
            },
    {
        side_path_exec(&self.header, "--- ", "a/")
    }

    /// The `b/` side path, taken from the `+++ ` line.
    pub fn new_path(&self) -> (r: Option<String>)
        ensures
            match (r, side_path(self@.header, "+++ "@, "b/"@)) {
                (Some(a), Some(b)) => a@ == b,
                (None, None) => true,
                _ => false,
            },
    {
        side_path_exec(&self.header, "+++ ", "b/")
    }
}

pub proof fn lemma_total_changes_prefix(hv: Seq<HunkV>, k: int)
    requires
        0 <= k <= hv.len(),
    ensures
        total_changes_of(hv.subrange(0, k)) <= total_changes_of(hv),
    decreases hv.len(),
{
    if k < hv.len() {
        assert(hv.drop_last().subrange(0, k) =~= hv.subrange(0, k));
        lemma_total_changes_prefix(hv.drop_last(), k);
    } else {
        assert(hv.subrange(0, k) =~= hv);
    }
}

// ---------------------------------------------------------------------------
// Parsing
// ---------------------------------------------------------------------------

/// `text.split('\n')`, without the empty piece after a final newline.
/// Only `\n` separates lines: a `\r` before it stays part of the line.
pub open spec fn split_lines(text: Seq<char>) -> Seq<Seq<char>> {
    if text.len() == 0 {
        seq![]
    } else {
        let v = split_char(text, '\n');
        if v.len() > 0 && v.last().len() == 0 {
            v.drop_last()
        } else {
            v
        }
    }
}

/// `start` or `start,count`; a missing count means 1 and anything that does
/// not parse reads as 0.
pub open spec fn parse_range_spec(spec: Seq<char>) -> (u32, u32) {
    match split_once(spec, ","@) {
        Some((s, c)) => (
            match parse_u32(s) {
                Some(v) => v,
                None => 0,
            },
            match parse_u32(c) {
                Some(v) => v,
                None => 0,
            },
        ),
        None => (
            match parse_u32(spec) {
                Some(v) => v,
                None => 0,
            },
            1,
        ),
    }
}

/// The hunk a `@@ -12,7 +12,9 @@ optional section` line announces, with no
/// lines yet.
pub open spec fn parse_hunk_header_spec(line: Seq<char>) -> Option<HunkV> {
    match strip_prefix(line, "@@ -"@) {
        Some(rest) => match split_once(rest, " +"@) {
            Some((old_spec, rest2)) => {
                let (new_spec, section) = match split_once(rest2, " @@"@) {
                    Some((a, b)) => (a, b),
                    None => (rest2, Seq::<char>::empty()),
                };
                let (os, oc) = parse_range_spec(old_spec);
                let (ns, nc) = parse_range_spec(new_spec);
                Some(
                    HunkV {
                        old_start: os,
                        old_count: oc,
                        new_start: ns,
                        new_count: nc,
                        section,
                        lines: seq![],
                    },
                )
            },
            None => None,
        },
        None => None,
    }
}

/// The kind and content of a line inside a hunk, or `None` for a line the
/// parser skips.
pub open spec fn classify(line: Seq<char>) -> Option<(LineKind, Seq<char>)> {
    if line.len() == 0 {
        Some((LineKind::Context, line))
    } else if line[0] == ' ' {
        Some((LineKind::Context, line.drop_first()))
    } else if line[0] == '+' {
        Some((LineKind::Addition, line.drop_first()))
    } else if line[0] == '-' {
        Some((LineKind::Deletion, line.drop_first()))
    } else if line[0] == '\\' {
        Some((LineKind::NoNewline, line))
    } else {
        None
    }
}

/// Line numbers advance with wrap-around, as unchecked `u32` arithmetic does
/// in release builds.
pub open spec fn wrap_inc(x: u32) -> u32 {
    if x == u32::MAX {
        0
    } else {
        (x + 1) as u32
    }
}

/// The parser's state after some of the hunk section.
pub struct BodyState {
    pub hunks: Seq<HunkV>,
    pub old_no: u32,
    pub new_no: u32,
    pub stopped: bool,
}

/// The numbered line for `kind`/`text` and the counters after it.
pub open spec fn number_line(kind: LineKind, text: Seq<char>, old_no: u32, new_no: u32) -> (
    LineV,
    u32,
    u32,
) {
    match kind {
        LineKind::Context => (
            LineV { kind, text, old_no: Some(old_no), new_no: Some(new_no) },
            wrap_inc(old_no),
            wrap_inc(new_no),
        ),
        LineKind::Addition => (
            LineV { kind, text, old_no: None, new_no: Some(new_no) },
            old_no,
            wrap_inc(new_no),
        ),
        LineKind::Deletion => (
            LineV { kind, text, old_no: Some(old_no), new_no: None },
            wrap_inc(old_no),
            new_no,
        ),
        LineKind::NoNewline => (LineV { kind, text, old_no: None, new_no: None }, old_no, new_no),
    }
}

/// One line of the hunk section: a hunk header opens a hunk, a second
/// `diff --git` ends the section, and anything else joins the current hunk.
pub open spec fn body_step(st: BodyState, line: Seq<char>) -> BodyState {
    if st.stopped {
        st
    } else if starts_with(line, "@@ "@) {
        match parse_hunk_header_spec(line) {
            Some(h) => BodyState {
                hunks: st.hunks.push(h),
                old_no: h.old_start,
                new_no: h.new_start,
                stopped: false,
            },
            None => st,
        }
    } else if starts_with(line, "diff --git "@) {
        BodyState { stopped: true, ..st }
    } else if st.hunks.len() == 0 {
        st
    } else {
        match classify(line) {
            Some((kind, text)) => {
                let (lv, o, n) = number_line(kind, text, st.old_no, st.new_no);
                let last = st.hunks.last();
                BodyState {
                    hunks: st.hunks.update(
                        st.hunks.len() - 1,
                        HunkV { lines: last.lines.push(lv), ..last },
                    ),
                    old_no: o,
                    new_no: n,
                    stopped: false,
                }
            },
            None => st,
        }
    }
}

/// The parser's state after the lines `body`.
pub open spec fn body_fold(body: Seq<Seq<char>>) -> BodyState
    decreases body.len(),
{
    if body.len() == 0 {
        BodyState { hunks: seq![], old_no: 0, new_no: 0, stopped: false }
    } else {
        body_step(body_fold(body.drop_last()), body.last())
    }
}

/// Index of the first line at or after `i` that opens a hunk.
pub open spec fn first_hunk_line(lines: Seq<Seq<char>>, i: nat) -> nat
    decreases lines.len() - i,
{
    if i >= lines.len() {
        lines.len()
    } else if starts_with(lines[i as int], "@@ "@) {
        i
    } else {
        first_hunk_line(lines, i + 1)
    }
}

pub open spec fn is_binary_marker(l: Seq<char>) -> bool {
    starts_with(l, "Binary files "@) || starts_with(l, "GIT binary patch"@)
}

pub open spec fn is_new_marker(l: Seq<char>) -> bool {
    starts_with(l, "new file mode "@)
}

pub open spec fn is_delete_marker(l: Seq<char>) -> bool {
    starts_with(l, "deleted file mode "@)
}

pub open spec fn is_rename_marker(l: Seq<char>) -> bool {
    starts_with(l, "rename from "@) || starts_with(l, "rename to "@)
}

/// Some header line satisfies `f`.
pub open spec fn any_line(header: Seq<Seq<char>>, f: spec_fn(Seq<char>) -> bool) -> bool {
    exists|i: int| 0 <= i < header.len() && f(#[trigger] header[i])
}

/// What `parse` makes of `text`.
pub open spec fn parse_spec(text: Seq<char>) -> FileDiffV {
    let lines = split_lines(text);
    let he = first_hunk_line(lines, 0);
    let header = lines.subrange(0, he as int);
    let body = body_fold(lines.subrange(he as int, lines.len() as int));
    let binary = any_line(header, |l: Seq<char>| is_binary_marker(l));
    FileDiffV {
        header,
        hunks: body.hunks,
        binary,
        is_new: any_line(header, |l: Seq<char>| is_new_marker(l)),
        is_delete: any_line(header, |l: Seq<char>| is_delete_marker(l)),
        rename: any_line(header, |l: Seq<char>| is_rename_marker(l)),
        header_only: body.hunks.len() == 0 && header.len() > 0 && !binary,
    }
}

fn parse_range(spec: &Vec<char>) -> (r: (u32, u32))
    ensures
        r == parse_range_spec(spec@),
{
    let comma = chars_of(",");
    match split_once_exec(spec, &comma) {
        Some((s, c)) => {
            let a = match parse_u32_exec(&s) {
                Some(v) => v,
                None => 0,
            };
            let b = match parse_u32_exec(&c) {
                Some(v) => v,
                None => 0,
            };
            (a, b)
        },
        None => {
            let a = match parse_u32_exec(spec) {
                Some(v) => v,
                None => 0,
            };
            (a, 1)
        },
    }
}

/// `@@ -12,7 +12,9 @@ optional section heading`
fn parse_hunk_header(line: &Vec<char>) -> (r: Option<Hunk>)
    ensures
        match (r, parse_hunk_header_spec(line@)) {
            (Some(h), Some(hv)) => h@ == hv,
            (None, None) => true,
            _ => false,
        },
{
    let rest = match strip_prefix_str(line, "@@ -") {
        Some(r) => r,
        None => return None,
    };
    let plus = chars_of(" +");
    let (old_spec, rest2) = match split_once_exec(&rest, &plus) {
        Some(p) => p,
        None => return None,
    };
    let close = chars_of(" @@");
    let (new_spec, section) = match split_once_exec(&rest2, &close) {
        Some(p) => p,
        None => (rest2, Vec::new()),
    };
    let (os, oc) = parse_range(&old_spec);
    let (ns, nc) = parse_range(&new_spec);
    let h = Hunk {
        old_start: os,
        old_count: oc,
        new_start: ns,
        new_count: nc,
        section: string_of(&section),
        lines: Vec::new(),
    };
    assert(line_views(h.lines@) =~= Seq::<LineV>::empty());
    Some(h)
}

/// Splits on `\n` only. `str::lines()` also strips a trailing `\r`, which would
/// drop the CR from every line of a CRLF-checked-out file and make the
/// reconstructed patch fail to apply.
fn split_lines_exec(text: &Vec<char>) -> (r: Vec<Vec<char>>)
    ensures
        cviews(r@) == split_lines(text@),
{
    if text.len() == 0 {
        return Vec::new();
    }
    let mut v = split_char_exec(text, '\n');
    let n = v.len();
    if n > 0 && v[n - 1].len() == 0 {
        let ghost before = v@;
        v.pop();
        proof {
            assert(cviews(v@) =~= cviews(before).drop_last());
        }
    }
    v
}

/// The classification of one hunk-section line.
fn classify_exec(line: &Vec<char>) -> (r: Option<(LineKind, Vec<char>)>)
    ensures
        match (r, classify(line@)) {
            (Some((k, t)), Some((k2, t2))) => k == k2 && t@ == t2,
            (None, None) => true,
            _ => false,
        },
{
    if line.len() == 0 {
        return Some((LineKind::Context, Vec::new()));
    }
    let c = line[0];
    proof {
        assert(line@.drop_first() =~= line@.subrange(1, line@.len() as int));
    }
    if c == ' ' {
        Some((LineKind::Context, slice_of(line, 1, line.len())))
    } else if c == '+' {
        Some((LineKind::Addition, slice_of(line, 1, line.len())))
    } else if c == '-' {
        Some((LineKind::Deletion, slice_of(line, 1, line.len())))
    } else if c == '\\' {
        Some((LineKind::NoNewline, slice_of(line, 0, line.len())))
    } else {
        None
    }
}

fn wrap_inc_exec(x: u32) -> (r: u32)
    ensures
        r == wrap_inc(x),
{
    x.wrapping_add(1)
}

pub fn parse(text: &str) -> (fd: FileDiff)
    ensures
        fd@ == parse_spec(text@),
{
    let cs = chars_of(text);
    let lines = split_lines_exec(&cs);
    let ghost lv = cviews(lines@);

    // Header: everything up to the first hunk.
    let mut header: Vec<String> = Vec::new();
    let mut binary = false;
    let mut is_new = false;
    let mut is_delete = false;
    let mut rename = false;
    let mut i: usize = 0;
    while i < lines.len() && !starts_with_str(&lines[i], "@@ ")
        invariant
            i <= lines@.len(),
            lv == cviews(lines@),
            first_hunk_line(lv, 0) == first_hunk_line(lv, i as nat),
            views(header@) == lv.subrange(0, i as int),
            binary == any_line(lv.subrange(0, i as int), |l: Seq<char>| is_binary_marker(l)),
            is_new == any_line(lv.subrange(0, i as int), |l: Seq<char>| is_new_marker(l)),
            is_delete == any_line(lv.subrange(0, i as int), |l: Seq<char>| is_delete_marker(l)),
            rename == any_line(lv.subrange(0, i as int), |l: Seq<char>| is_rename_marker(l)),
        decreases lines@.len() - i,
    {
        let line = &lines[i];
        let ghost pre = lv.subrange(0, i as int);
        let ghost next = lv.subrange(0, i + 1);
        proof {
            assert(next =~= pre.push(line@));
            assert(lv[i as int] == line@);
        }
        if starts_with_str(line, "Binary files ") || starts_with_str(line, "GIT binary patch") {
            binary = true;
        }
        if starts_with_str(line, "new file mode ") {
            is_new = true;
        }
        if starts_with_str(line, "deleted file mode ") {
            is_delete = true;
        }
        if starts_with_str(line, "rename from ") || starts_with_str(line, "rename to ") {
            rename = true;
        }
        proof {
            lemma_any_line_push(pre, line@, |l: Seq<char>| is_binary_marker(l));
            lemma_any_line_push(pre, line@, |l: Seq<char>| is_new_marker(l));
            lemma_any_line_push(pre, line@, |l: Seq<char>| is_delete_marker(l));
            lemma_any_line_push(pre, line@, |l: Seq<char>| is_rename_marker(l));
        }
        let ghost hv = header@;
        header.push(string_of(line));
        proof {
            assert(views(header@) =~= views(hv).push(line@));
        }
        i += 1;
    }
    let he = i;
    proof {
        assert(first_hunk_line(lv, i as nat) == i);
    }

    // Hunks.
    let mut hunks: Vec<Hunk> = Vec::new();
    let mut old_no: u32 = 0;
    let mut new_no: u32 = 0;
    let mut stopped = false;
    assert(lv.subrange(he as int, he as int) =~= Seq::<Seq<char>>::empty());
    assert(hunk_views(hunks@) =~= Seq::<HunkV>::empty());
    while i < lines.len()
        invariant
            he <= i <= lines@.len(),
            lv == cviews(lines@),
            body_fold(lv.subrange(he as int, i as int)) == (BodyState {
                hunks: hunk_views(hunks@),
                old_no,
                new_no,
                stopped,
            }),
        decreases lines@.len() - i,
    {
        let line = &lines[i];
        let ghost st = BodyState { hunks: hunk_views(hunks@), old_no, new_no, stopped };
        proof {
            let b = lv.subrange(he as int, i + 1);
            assert(b.drop_last() =~= lv.subrange(he as int, i as int));
            assert(b.last() == line@);
        }
        if stopped {
        } else if starts_with_str(line, "@@ ") {
            match parse_hunk_header(line) {
                Some(h) => {
                    old_no = h.old_start;
                    new_no = h.new_start;
                    let ghost hv = hunks@;
                    hunks.push(h);
                    proof {
                        assert(hunk_views(hunks@) =~= hunk_views(hv).push(h@));
                    }
                },
                None => {},
            }
        } else if starts_with_str(line, "diff --git ") {
            // A second file in the stream, which is never asked for; stop
            // rather than mis-attribute its lines.
            stopped = true;
        } else if hunks.len() == 0 {
        } else {
            match classify_exec(line) {
                Some((kind, text)) => {
                    let (l_old, l_new) = match kind {
                        LineKind::Context => {
                            let v = (Some(old_no), Some(new_no));
                            old_no = wrap_inc_exec(old_no);
                            new_no = wrap_inc_exec(new_no);
                            v
                        },
                        LineKind::Addition => {
                            let v = (None, Some(new_no));
                            new_no = wrap_inc_exec(new_no);
                            v
                        },
                        LineKind::Deletion => {
                            let v = (Some(old_no), None);
                            old_no = wrap_inc_exec(old_no);
                            v
                        },
                        LineKind::NoNewline => (None, None),
                    };
                    let dl = DiffLine { kind, text: string_of(&text), old_no: l_old, new_no: l_new };
                    let ghost hv = hunks@;
                    let mut last = hunks.pop().unwrap();
                    let ghost last_before = last;
                    last.lines.push(dl);
                    hunks.push(last);
                    proof {
                        assert(line_views(last.lines@) =~= line_views(last_before.lines@).push(
                            dl@,
                        ));
                        assert(hunk_views(hunks@) =~= hunk_views(hv).update(
                            hv.len() - 1,
                            last@,
                        ));
                    }
                },
                None => {},
            }
        }
        i += 1;
    }
    proof {
        assert(lv.subrange(0, he as int) == lv.subrange(0, first_hunk_line(lv, 0) as int));
    }
    let header_only = hunks.len() == 0 && header.len() > 0 && !binary;
    FileDiff { header, hunks, binary, is_new, is_delete, rename, header_only }
}

pub proof fn lemma_any_line_push(pre: Seq<Seq<char>>, l: Seq<char>, f: spec_fn(Seq<char>) -> bool)
    ensures
        any_line(pre.push(l), f) == (any_line(pre, f) || f(l)),
{
    let n = pre.push(l);
    if any_line(pre, f) {
        let i = choose|i: int| 0 <= i < pre.len() && f(#[trigger] pre[i]);
        assert(n[i] == pre[i]);
    }
    if f(l) {
        assert(n[pre.len() as int] == l);
    }
    if any_line(n, f) {
        let i = choose|i: int| 0 <= i < n.len() && f(#[trigger] n[i]);
        if i < pre.len() {
            assert(n[i] == pre[i]);
        }
    }
}


// ---------------------------------------------------------------------------
// Untracked files
// ---------------------------------------------------------------------------

/// The marker git prints under a last line that lacks its newline.
pub open spec fn no_newline_text() -> Seq<char> {
    "\\ No newline at end of file"@
}

/// The lines of an untracked file's content: split on `\n`, without the
/// empty piece after a final newline.
pub open spec fn content_lines(content: Seq<char>) -> Seq<Seq<char>> {
    if content.len() == 0 {
        seq![]
    } else {
        let v = split_char(content, '\n');
        if content.last() == '\n' {
            v.drop_last()
        } else {
            v
        }
    }
}

/// The add-everything diff presented for an untracked file.
pub open spec fn synth_spec(path: Seq<char>, content: Seq<char>, executable: bool) -> FileDiffV {
    let mode = if executable {
        "100755"@
    } else {
        "100644"@
    };
    let header = seq![
        "diff --git a/"@ + path + " b/"@ + path,
        "new file mode "@ + mode,
        "--- /dev/null"@,
        "+++ b/"@ + path,
    ];
    let ends_with_newline = content.len() > 0 && content.last() == '\n';
    let body = content_lines(content);
    let adds = Seq::new(
        body.len(),
        |i: int|
            LineV {
                kind: LineKind::Addition,
                text: body[i],
                old_no: None,
                new_no: Some((i + 1) as u32),
            },
    );
    let lines = if body.len() > 0 && !ends_with_newline {
        adds.push(LineV { kind: LineKind::NoNewline, text: no_newline_text(), old_no: None, new_no: None })
    } else {
        adds
    };
    let n = body.len() as u32;
    FileDiffV {
        header,
        hunks: if n == 0 {
            seq![]
        } else {
            seq![
                HunkV {
                    old_start: 0,
                    old_count: 0,
                    new_start: 1,
                    new_count: n,
                    section: Seq::<char>::empty(),
                    lines,
                },
            ]
        },
        binary: false,
        is_new: true,
        is_delete: false,
        rename: false,
        header_only: n == 0,
    }
}

pub proof fn lemma_split_char_len(s: Seq<char>, c: char)
    ensures
        split_char(s, c).len() >= 1,
        split_char(s, c).len() <= s.len() + 1,
        s.len() > 0 && s.last() != c ==> split_char(s, c).len() <= s.len(),
        s.len() > 0 && s.last() == c ==> split_char(s, c).last().len() == 0,
    decreases s.len(),
{
    lemma_find_from_some(s, seq![c], 0);
    match find(s, seq![c]) {
        Some(i) => {
            let rest = s.subrange((i + 1) as int, s.len() as int);
            lemma_split_char_len(rest, c);
            assert(s.subrange(i as int, (i + 1) as int)[0] == c);
            if rest.len() > 0 {
                assert(rest.last() == s.last());
            }
            if s.last() != c {
                assert(i + 1 < s.len());
            }
        },
        None => {
            if s.len() > 0 && s.last() == c {
                assert(s.subrange(s.len() - 1, s.len() as int) =~= seq![c]);
                assert(occurs_at(s, seq![c], s.len() - 1));
                assert(false);
            }
        },
    }
}

/// Untracked files have no diff against the index, so present the whole file
/// as one add-everything hunk. Built by hand rather than via
/// `git diff --no-index /dev/null <path>` because `/dev/null` has no portable
/// equivalent on Windows.
pub fn synth_new_file(path: &str, content: &str, executable: bool) -> (fd: FileDiff)
    requires
        content@.len() < u32::MAX,
    ensures
        fd@ == synth_spec(path@, content@, executable),
{
    let mode = if executable { "100755" } else { "100644" };
    let mut h0 = String::new();
    append_str(&mut h0, "diff --git a/");
    append_str(&mut h0, path);
    append_str(&mut h0, " b/");
    append_str(&mut h0, path);
    let mut h1 = String::new();
    append_str(&mut h1, "new file mode ");
    append_str(&mut h1, mode);
    let mut h2 = String::new();
    append_str(&mut h2, "--- /dev/null");
    let mut h3 = String::new();
    append_str(&mut h3, "+++ b/");
    append_str(&mut h3, path);
    let header = vec![h0, h1, h2, h3];

    let cs = chars_of(content);
    let ends_with_newline = cs.len() > 0 && cs[cs.len() - 1] == '\n';
    let mut body: Vec<Vec<char>> = if cs.len() == 0 {
        Vec::new()
    } else {
        split_char_exec(&cs, '\n')
    };
    proof {
        if cs@.len() > 0 {
            lemma_split_char_len(cs@, '\n');
        }
    }
    if ends_with_newline {
        let ghost before = body@;
        body.pop();
        proof {
            assert(cviews(body@) =~= cviews(before).drop_last());
        }
    }
    let ghost bv = content_lines(content@);
    assert(cviews(body@) == bv);
    assert(bv.len() < u32::MAX);

    let mut lines: Vec<DiffLine> = Vec::new();
    let mut i: usize = 0;
    while i < body.len()
        invariant
            i <= body@.len() == bv.len() < u32::MAX,
            cviews(body@) == bv,
            line_views(lines@) =~= Seq::new(
                i as nat,
                |k: int|
                    LineV {
                        kind: LineKind::Addition,
                        text: bv[k],
                        old_no: None,
                        new_no: Some((k + 1) as u32),
                    },
            ),
        decreases body@.len() - i,
    {
        let dl = DiffLine {
            kind: LineKind::Addition,
            text: string_of(&body[i]),
            old_no: None,
            new_no: Some(i as u32 + 1),
        };
        let ghost before = lines@;
        proof {
            assert(cviews(body@)[i as int] == body@[i as int]@);
        }
        lines.push(dl);
        proof {
            assert(line_views(lines@) =~= line_views(before).push(dl@));
        }
        i += 1;
    }
    let ghost adds = Seq::new(
        bv.len(),
        |k: int|
            LineV {
                kind: LineKind::Addition,
                text: bv[k],
                old_no: None,
                new_no: Some((k + 1) as u32),
            },
    );
    assert(line_views(lines@) =~= adds);
    if body.len() > 0 && !ends_with_newline {
        let mut t = String::new();
        append_str(&mut t, "\\ No newline at end of file");
        let ghost before = lines@;
        let m = DiffLine { kind: LineKind::NoNewline, text: t, old_no: None, new_no: None };
        lines.push(m);
        proof {
            assert(line_views(lines@) =~= line_views(before).push(m@));
        }
    }
    let n = body.len() as u32;
    let hunks = if n == 0 {
        Vec::new()
    } else {
        vec![
            Hunk {
                old_start: 0,
                old_count: 0,
                new_start: 1,
                new_count: n,
                section: String::new(),
                lines,
            },
        ]
    };
    let fd = FileDiff {
        header,
        hunks,
        binary: false,
        is_new: true,
        is_delete: false,
        rename: false,
        header_only: n == 0,
    };
    proof {
        let spec = synth_spec(path@, content@, executable);
        assert(fd@.header =~= spec.header);
        assert(fd@.hunks =~= spec.hunks);
    }
    fd
}

// ---------------------------------------------------------------------------
// Reading back a written header
// ---------------------------------------------------------------------------

/// The decimal rendering of `n` is a non-empty run of digits worth `n`.
proof fn lemma_decimal_reads_back(n: nat)
    ensures
        decimal(n).len() >= 1,
        all_digits(decimal(n)),
        digits_value(decimal(n)) == n,
    decreases n,
{
    if n < 10 {
        let c = digit_char(n);
        assert(decimal(n) == seq![c]);
        assert(seq![c].drop_last() =~= Seq::<char>::empty());
        assert(is_digit(c) && (c as nat) - ('0' as nat) == n) by {
            if n == 0 {} else if n == 1 {} else if n == 2 {} else if n == 3 {} else if n == 4 {}
            else if n == 5 {} else if n == 6 {} else if n == 7 {} else if n == 8 {} else {}
        }
        assert(seq![c].last() == c);
        assert(digits_value(seq![c]) == digits_value(Seq::<char>::empty()) * 10 + ((c as nat) - ('0' as nat)) as nat);
    } else {
        lemma_decimal_reads_back(n / 10);
        let d = decimal(n / 10);
        let c = digit_char(n % 10);
        assert(decimal(n) == d.push(c));
        assert(d.push(c).drop_last() =~= d);
        let m = n % 10;
        assert(is_digit(c) && (c as nat) - ('0' as nat) == m) by {
            if m == 0 {} else if m == 1 {} else if m == 2 {} else if m == 3 {} else if m == 4 {}
            else if m == 5 {} else if m == 6 {} else if m == 7 {} else if m == 8 {} else {}
        }
        assert((n / 10) * 10 + n % 10 == n);
        assert(d.push(c).last() == c);
        assert(digits_value(d.push(c)) == digits_value(d) * 10 + ((c as nat) - ('0' as nat)) as nat);
        assert forall|i: int| 0 <= i < d.push(c).len() implies is_digit(#[trigger] d.push(c)[i]) by {
            if i < d.len() {
                assert(d.push(c)[i] == d[i]);
            }
        }
    }
}

/// A number reads back from its decimal rendering.
proof fn lemma_parse_decimal(n: u32)
    ensures
        parse_u32(decimal(n as nat)) == Some(n),
{
    lemma_decimal_reads_back(n as nat);
    assert(is_digit(decimal(n as nat)[0]));
    assert(unsigned_body(decimal(n as nat)) == decimal(n as nat));
}

/// `p` splits `a + p + b` into `a` and `b` when `a` holds no character that
/// starts `p`.
proof fn lemma_split_at_first(a: Seq<char>, p: Seq<char>, b: Seq<char>)
    requires
        p.len() > 0,
        forall|i: int| 0 <= i < a.len() ==> a[i] != p[0],
    ensures
        split_once(a + p + b, p) == Some((a, b)),
{
    let s = a + p + b;
    assert(s.subrange(a.len() as int, (a.len() + p.len()) as int) =~= p);
    assert(occurs_at(s, p, a.len() as int));
    lemma_find_from_some(s, p, 0);
    assert forall|j: int| 0 <= j < a.len() implies !occurs_at(s, p, j) by {
        if occurs_at(s, p, j) {
            assert(s.subrange(j, j + p.len())[0] == s[j]);
            assert(s[j] == a[j]);
        }
    }
    assert(find(s, p) == Some(a.len()));
    assert(s.subrange(0, a.len() as int) =~= a);
    assert(s.subrange((a.len() + p.len()) as int, s.len() as int) =~= b);
}

/// A run of digits holds no occurrence of a text starting with a
/// non-digit.
proof fn lemma_no_split(d: Seq<char>, p: Seq<char>)
    requires
        all_digits(d),
        p.len() > 0,
        !is_digit(p[0]),
    ensures
        split_once(d, p) is None,
{
    lemma_find_from_some(d, p, 0);
    assert forall|j: int| 0 <= j implies !occurs_at(d, p, j) by {
        if occurs_at(d, p, j) {
            assert(d.subrange(j, j + p.len())[0] == d[j]);
        }
    }
}

/// A written range reads back as the same start and count.
proof fn lemma_range_reads_back(start: u32, count: u32)
    ensures
        parse_range_spec(range_text(start, count)) == (start, count),
        forall|i: int|
            0 <= i < range_text(start, count).len() ==> is_digit(#[trigger] range_text(start, count)[i])
                || range_text(start, count)[i] == ',',
{
    reveal_strlit(",");
    lemma_decimal_reads_back(start as nat);
    lemma_decimal_reads_back(count as nat);
    lemma_parse_decimal(start);
    lemma_parse_decimal(count);
    if count == 1 {
        lemma_no_split(decimal(start as nat), ","@);
    } else {
        let a = decimal(start as nat);
        lemma_split_at_first(a, ","@, decimal(count as nat));
        let r = range_text(start, count);
        assert forall|i: int| 0 <= i < r.len() implies is_digit(#[trigger] r[i]) || r[i] == ',' by {
            if i < a.len() {
                assert(r[i] == a[i]);
            } else if i == a.len() {
                assert(r[i] == ',');
            } else {
                assert(r[i] == decimal(count as nat)[i - a.len() - 1]);
            }
        }
    }
}

/// A hunk header as written reads back as the same hunk, whatever its
/// section text holds: the headers shown and put in patches agree with
/// what the parser takes from them.
pub proof fn law_hunk_header_round_trip(
    old_start: u32,
    old_count: u32,
    new_start: u32,
    new_count: u32,
    section: Seq<char>,
)
    ensures
        parse_hunk_header_spec(hunk_header_text(old_start, old_count, new_start, new_count, section))
            == Some(HunkV { old_start, old_count, new_start, new_count, section, lines: seq![] }),
{
    reveal_strlit("@@ -");
    reveal_strlit(" +");
    reveal_strlit(" @@");
    let r1 = range_text(old_start, old_count);
    let r2 = range_text(new_start, new_count);
    lemma_range_reads_back(old_start, old_count);
    lemma_range_reads_back(new_start, new_count);
    let h = hunk_header_text(old_start, old_count, new_start, new_count, section);
    let rest = r1 + " +"@ + (r2 + " @@"@ + section);
    assert(h =~= "@@ -"@ + rest);
    assert(h.subrange(0, 4) =~= "@@ -"@);
    assert(strip_prefix(h, "@@ -"@) == Some(rest)) by {
        assert(h.subrange(4, h.len() as int) =~= rest);
    }
    assert forall|i: int| 0 <= i < r1.len() implies r1[i] != " +"@[0] by {
        assert(is_digit(r1[i]) || r1[i] == ',');
    }
    lemma_split_at_first(r1, " +"@, r2 + " @@"@ + section);
    assert forall|i: int| 0 <= i < r2.len() implies r2[i] != " @@"@[0] by {
        assert(is_digit(r2[i]) || r2[i] == ',');
    }
    lemma_split_at_first(r2, " @@"@, section);
}

/// A range as written reads back as the same start and count.
pub proof fn law_range_round_trip(start: u32, count: u32)
    ensures
        parse_range_spec(range_text(start, count)) == (start, count),
{
    lemma_range_reads_back(start, count);
}

/// Every line of every hunk, in order.
pub open spec fn all_lines(hunks: Seq<HunkV>) -> Seq<LineV>
    decreases hunks.len(),
{
    if hunks.len() == 0 {
        seq![]
    } else {
        all_lines(hunks.drop_last()) + hunks.last().lines
    }
}

/// Counting changes over two runs of lines adds up.
proof fn lemma_count_changes_concat(a: Seq<LineV>, b: Seq<LineV>)
    ensures
        count_changes(a + b) == count_changes(a) + count_changes(b),
    decreases b.len(),
{
    if b.len() > 0 {
        lemma_count_changes_concat(a, b.drop_last());
        assert((a + b).drop_last() =~= a + b.drop_last());
        assert((a + b).last() == b.last());
    } else {
        assert(a + b =~= a);
    }
}

/// A diff's total of changes is the number of its lines that are additions
/// or deletions; context and no-newline markers never count.
pub proof fn law_total_changes_counts_change_lines(hunks: Seq<HunkV>)
    ensures
        total_changes_of(hunks) == count_changes(all_lines(hunks)),
    decreases hunks.len(),
{
    if hunks.len() > 0 {
        law_total_changes_counts_change_lines(hunks.drop_last());
        lemma_count_changes_concat(all_lines(hunks.drop_last()), hunks.last().lines);
    }
}

/// Walks a hunk's lines from the numbers `old_no`/`new_no` its header
/// announces: a context line carries both and advances both, a deletion
/// carries and advances the old one, an addition the new one, and a
/// no-newline marker carries neither. Says whether every line carries the
/// numbers the walk gives it, and returns the numbers after the last line.
pub open spec fn walk_numbers(lines: Seq<LineV>, old_no: u32, new_no: u32) -> (bool, u32, u32)
    decreases lines.len(),
{
    if lines.len() == 0 {
        (true, old_no, new_no)
    } else {
        let (ok, o, n) = walk_numbers(lines.drop_last(), old_no, new_no);
        let l = lines.last();
        match l.kind {
            LineKind::Context => (ok && l.old_no == Some(o) && l.new_no == Some(n), wrap_inc(o), wrap_inc(n)),
            LineKind::Deletion => (ok && l.old_no == Some(o) && l.new_no is None, wrap_inc(o), n),
            LineKind::Addition => (ok && l.old_no is None && l.new_no == Some(n), o, wrap_inc(n)),
            LineKind::NoNewline => (ok && l.old_no is None && l.new_no is None, o, n),
        }
    }
}

proof fn lemma_body_fold_numbers(body: Seq<Seq<char>>)
    ensures
        ({
            let st = body_fold(body);
            &&& forall|i: int|
                0 <= i < st.hunks.len() - 1 ==> (#[trigger] walk_numbers(
                    st.hunks[i].lines,
                    st.hunks[i].old_start,
                    st.hunks[i].new_start,
                )).0
            &&& st.hunks.len() > 0 ==> walk_numbers(
                st.hunks.last().lines,
                st.hunks.last().old_start,
                st.hunks.last().new_start,
            ) == (true, st.old_no, st.new_no)
        }),
    decreases body.len(),
{
    if body.len() > 0 {
        lemma_body_fold_numbers(body.drop_last());
        let st = body_fold(body.drop_last());
        let line = body.last();
        let st2 = body_step(st, line);
        if !st.stopped && starts_with(line, "@@ "@) {
            match parse_hunk_header_spec(line) {
                Some(h) => {
                    assert forall|i: int| 0 <= i < st2.hunks.len() - 1 implies (#[trigger] walk_numbers(
                        st2.hunks[i].lines,
                        st2.hunks[i].old_start,
                        st2.hunks[i].new_start,
                    )).0 by {
                        assert(st2.hunks[i] == st.hunks[i]);
                    }
                    assert(st2.hunks.last() == h);
                },
                None => {},
            }
        } else if !st.stopped && !starts_with(line, "diff --git "@) && st.hunks.len() > 0 {
            match classify(line) {
                Some((kind, text)) => {
                    let (lv, o, n) = number_line(kind, text, st.old_no, st.new_no);
                    let last = st.hunks.last();
                    let nl = last.lines.push(lv);
                    assert(nl.drop_last() =~= last.lines);
                    assert(nl.last() == lv);
                    assert forall|i: int| 0 <= i < st2.hunks.len() - 1 implies (#[trigger] walk_numbers(
                        st2.hunks[i].lines,
                        st2.hunks[i].old_start,
                        st2.hunks[i].new_start,
                    )).0 by {
                        assert(st2.hunks[i] == st.hunks[i]);
                    }
                },
                None => {},
            }
        }
    }
}

/// Every hunk `parse` returns is numbered as git means it: walking its lines
/// from the starts in its header, each line carries the old and new line
/// numbers the walk gives it.
pub proof fn law_parsed_lines_are_numbered_from_header(text: Seq<char>)
    ensures
        forall|i: int|
            0 <= i < parse_spec(text).hunks.len() ==> (#[trigger] walk_numbers(
                parse_spec(text).hunks[i].lines,
                parse_spec(text).hunks[i].old_start,
                parse_spec(text).hunks[i].new_start,
            )).0,
{
    let lines = split_lines(text);
    let he = first_hunk_line(lines, 0);
    lemma_body_fold_numbers(lines.subrange(he as int, lines.len() as int));
}

/// Every `\ No newline` line starts with its backslash, as the parser
/// produces them.
pub open spec fn markers_marked(lines: Seq<LineV>) -> bool {
    forall|i: int|
        0 <= i < lines.len() && #[trigger] lines[i].kind == LineKind::NoNewline ==> lines[i].text.len()
            > 0 && lines[i].text[0] == '\\'
}

proof fn lemma_body_fold_markers(body: Seq<Seq<char>>)
    ensures
        forall|i: int|
            0 <= i < body_fold(body).hunks.len() ==> markers_marked(#[trigger] body_fold(body).hunks[i].lines),
    decreases body.len(),
{
    if body.len() > 0 {
        lemma_body_fold_markers(body.drop_last());
        let st = body_fold(body.drop_last());
        let line = body.last();
        let st2 = body_step(st, line);
        if !st.stopped && starts_with(line, "@@ "@) {
            match parse_hunk_header_spec(line) {
                Some(h) => {
                    assert forall|i: int| 0 <= i < st2.hunks.len() implies markers_marked(
                        #[trigger] st2.hunks[i].lines,
                    ) by {
                        if i < st.hunks.len() {
                            assert(st2.hunks[i] == st.hunks[i]);
                        }
                    }
                },
                None => {},
            }
        } else if !st.stopped && !starts_with(line, "diff --git "@) && st.hunks.len() > 0 {
            match classify(line) {
                Some((kind, text)) => {
                    let (lv, o, n) = number_line(kind, text, st.old_no, st.new_no);
                    let last = st.hunks.last();
                    let nl = last.lines.push(lv);
                    assert(markers_marked(last.lines));
                    assert forall|j: int| 0 <= j < nl.len() && #[trigger] nl[j].kind == LineKind::NoNewline implies nl[j].text.len()
                        > 0 && nl[j].text[0] == '\\' by {
                        if j < last.lines.len() {
                            assert(nl[j] == last.lines[j]);
                        }
                    }
                    assert forall|i: int| 0 <= i < st2.hunks.len() implies markers_marked(
                        #[trigger] st2.hunks[i].lines,
                    ) by {
                        if i < st.hunks.len() - 1 {
                            assert(st2.hunks[i] == st.hunks[i]);
                        }
                    }
                },
                None => {},
            }
        }
    }
}

/// Every `\ No newline` line `parse` returns keeps its backslash.
pub proof fn law_parsed_markers_keep_backslash(text: Seq<char>)
    ensures
        forall|i: int|
            0 <= i < parse_spec(text).hunks.len() ==> markers_marked(#[trigger] parse_spec(text).hunks[i].lines),
{
    let lines = split_lines(text);
    let he = first_hunk_line(lines, 0);
    lemma_body_fold_markers(lines.subrange(he as int, lines.len() as int));
}

proof fn lemma_join_front(a: Seq<char>, rest: Seq<Seq<char>>, sep: Seq<char>)
    requires
        rest.len() > 0,
    ensures
        join(seq![a] + rest, sep) == a + sep + join(rest, sep),
    decreases rest.len(),
{
    let all = seq![a] + rest;
    if rest.len() == 1 {
        assert(all.drop_last() =~= seq![a]);
        assert(all.last() == rest[0]);
        assert(join(seq![a], sep) == a);
        assert(join(rest, sep) == rest[0]);
        assert(join(all, sep) == join(all.drop_last(), sep) + sep + all.last());
    } else {
        lemma_join_front(a, rest.drop_last(), sep);
        assert(all.drop_last() =~= seq![a] + rest.drop_last());
        assert(all.last() == rest.last());
        assert(join(all, sep) == join(all.drop_last(), sep) + sep + all.last());
        assert(join(rest, sep) == join(rest.drop_last(), sep) + sep + rest.last());
        assert(a + sep + join(rest.drop_last(), sep) + sep + rest.last() =~= a + sep + (join(
            rest.drop_last(),
            sep,
        ) + sep + rest.last()));
    }
}

/// Splitting on a character and joining the pieces with it gives the text
/// back.
proof fn lemma_join_split(s: Seq<char>, c: char)
    ensures
        join(split_char(s, c), seq![c]) == s,
    decreases s.len(),
{
    lemma_find_from_some(s, seq![c], 0);
    match find(s, seq![c]) {
        Some(i) => {
            let rest = s.subrange((i + 1) as int, s.len() as int);
            lemma_join_split(rest, c);
            lemma_split_char_len(rest, c);
            lemma_join_front(s.subrange(0, i as int), split_char(rest, c), seq![c]);
            assert(s.subrange(i as int, (i + 1) as int) =~= seq![c]);
            assert(s.subrange(0, i as int) + seq![c] + rest =~= s);
        },
        None => {},
    }
}

proof fn lemma_join_terminated_is_join(parts: Seq<Seq<char>>, sep: Seq<char>)
    requires
        parts.len() > 0,
    ensures
        join_terminated(parts, sep) == join(parts, sep) + sep,
    decreases parts.len(),
{
    if parts.len() == 1 {
        assert(parts.drop_last() =~= Seq::<Seq<char>>::empty());
        assert(join_terminated(parts.drop_last(), sep) =~= Seq::<char>::empty());
        assert(Seq::<char>::empty() + parts.last() + sep =~= parts[0] + sep);
    } else {
        lemma_join_terminated_is_join(parts.drop_last(), sep);
    }
}

/// The texts of the additions among `lines`.
pub open spec fn added_texts(lines: Seq<LineV>) -> Seq<Seq<char>>
    decreases lines.len(),
{
    if lines.len() == 0 {
        seq![]
    } else if lines.last().kind == LineKind::Addition {
        added_texts(lines.drop_last()).push(lines.last().text)
    } else {
        added_texts(lines.drop_last())
    }
}

proof fn lemma_added_texts_all(lines: Seq<LineV>, texts: Seq<Seq<char>>)
    requires
        lines.len() == texts.len(),
        forall|i: int|
            0 <= i < lines.len() ==> #[trigger] lines[i].kind == LineKind::Addition && lines[i].text == texts[i],
    ensures
        added_texts(lines) == texts,
    decreases lines.len(),
{
    if lines.len() > 0 {
        lemma_added_texts_all(lines.drop_last(), texts.drop_last());
        assert(lines.last() == lines[lines.len() - 1]);
        assert(texts.drop_last().push(texts.last()) =~= texts);
    } else {
        assert(texts =~= Seq::<Seq<char>>::empty());
    }
}

/// The diff shown for an untracked file gives its content back: it has one
/// hunk whose additions, each followed by a newline, spell out the file,
/// and when the file does not end in a newline the hunk ends with the
/// no-newline marker and only the final newline is not the file's.
pub proof fn law_new_file_diff_gives_back_content(path: Seq<char>, content: Seq<char>, executable: bool)
    requires
        0 < content.len() < u32::MAX,
    ensures
        ({
            let fd = synth_spec(path, content, executable);
            let ends_with_newline = content.last() == '\n';
            &&& fd.hunks.len() == 1
            &&& join_terminated(added_texts(fd.hunks[0].lines), "\n"@) == if ends_with_newline {
                content
            } else {
                content + "\n"@
            }
            &&& !ends_with_newline ==> fd.hunks[0].lines.last().kind == LineKind::NoNewline
        }),
{
    reveal_strlit("\n");
    let v = split_char(content, '\n');
    let body = content_lines(content);
    lemma_split_char_len(content, '\n');
    lemma_join_split(content, '\n');
    assert("\n"@ =~= seq!['\n']);
    let ends_with_newline = content.last() == '\n';
    if ends_with_newline {
        if v.len() == 1 {
            lemma_find_from_some(content, seq!['\n'], 0);
            assert(content.subrange(content.len() - 1, content.len() as int) =~= seq!['\n']);
            assert(occurs_at(content, seq!['\n'], content.len() - 1));
        }
        assert(v.len() >= 2);
        assert(body == v.drop_last());
        assert(v.drop_last().push(v.last()) =~= v);
        assert(join(v, seq!['\n']) == join(body, seq!['\n']) + seq!['\n'] + v.last());
        assert(v.last() =~= Seq::<char>::empty());
        assert(join(body, seq!['\n']) + seq!['\n'] + Seq::<char>::empty() =~= join(body, seq!['\n'])
            + seq!['\n']);
        lemma_join_terminated_is_join(body, seq!['\n']);
    } else {
        assert(body == v);
        lemma_join_terminated_is_join(body, seq!['\n']);
    }
    let fd = synth_spec(path, content, executable);
    assert(body.len() >= 1);
    assert(body.len() as u32 != 0);
    let adds = Seq::new(
        body.len(),
        |i: int|
            LineV {
                kind: LineKind::Addition,
                text: body[i],
                old_no: None,
                new_no: Some((i + 1) as u32),
            },
    );
    lemma_added_texts_all(adds, body);
    if !ends_with_newline {
        let lines = adds.push(LineV { kind: LineKind::NoNewline, text: no_newline_text(), old_no: None, new_no: None });
        assert(lines.drop_last() =~= adds);
        assert(fd.hunks[0].lines == lines);
    } else {
        assert(fd.hunks[0].lines == adds);
    }
}

} // verus!
