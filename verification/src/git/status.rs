//! Parser for `git status --porcelain=v2 --branch -z --untracked-files=all`.
//!
//! Using `-z` matters: it makes git emit paths verbatim instead of applying
//! `core.quotepath` escaping, so the strings here can be handed straight back
//! to git as pathspec arguments.

use vstd::prelude::*;
use crate::text::{
    append_str, chars_eq, chars_of, cviews, decode_lossy, parse_i64, parse_i64_exec, split_bytes,
    split_bytes_exec, split_ws, split_ws_exec, splitn_char, splitn_char_exec, starts_with,
    starts_with_str, string_of, strip_prefix, strip_prefix_str, text_lt, text_lt_exec, trim,
    trim_exec, utf8_lossy, bviews, slice_of, lemma_text_lt_total, lemma_text_lt_transitive,
    lemma_text_lt_irreflexive,
};

verus! {

#[derive(Clone, Copy, PartialEq, Eq, Debug, Structural)]
pub enum Change {
    Unchanged,
    Modified,
    Added,
    Deleted,
    Renamed,
    Copied,
    TypeChanged,
    Unmerged,
    Untracked,
    Ignored,
}

/// The change a porcelain status letter stands for.
pub open spec fn change_of(c: char) -> Change {
    if c == 'M' {
        Change::Modified
    } else if c == 'A' {
        Change::Added
    } else if c == 'D' {
        Change::Deleted
    } else if c == 'R' {
        Change::Renamed
    } else if c == 'C' {
        Change::Copied
    } else if c == 'T' {
        Change::TypeChanged
    } else if c == 'U' {
        Change::Unmerged
    } else if c == '?' {
        Change::Untracked
    } else if c == '!' {
        Change::Ignored
    } else {
        Change::Unchanged
    }
}

/// The one-letter code shown in the file lists.
pub open spec fn letter_text(c: Change) -> Seq<char> {
    match c {
        Change::Unchanged => " "@,
        Change::Modified => "M"@,
        Change::Added => "A"@,
        Change::Deleted => "D"@,
        Change::Renamed => "R"@,
        Change::Copied => "C"@,
        Change::TypeChanged => "T"@,
        Change::Unmerged => "U"@,
        Change::Untracked => "?"@,
        Change::Ignored => "!"@,
    }
}

/// The word shown for a change.
pub open spec fn label_text(c: Change) -> Seq<char> {
    match c {
        Change::Unchanged => "unchanged"@,
        Change::Modified => "modified"@,
        Change::Added => "new file"@,
        Change::Deleted => "deleted"@,
        Change::Renamed => "renamed"@,
        Change::Copied => "copied"@,
        Change::TypeChanged => "type changed"@,
        Change::Unmerged => "conflicted"@,
        Change::Untracked => "untracked"@,
        Change::Ignored => "ignored"@,
    }
}

impl Change {
    pub fn from_code(c: char) -> (r: Change)
        ensures
            r == change_of(c),
    {
        if c == 'M' {
            Change::Modified
        } else if c == 'A' {
            Change::Added
        } else if c == 'D' {
            Change::Deleted
        } else if c == 'R' {
            Change::Renamed
        } else if c == 'C' {
            Change::Copied
        } else if c == 'T' {
            Change::TypeChanged
        } else if c == 'U' {
            Change::Unmerged
        } else if c == '?' {
            Change::Untracked
        } else if c == '!' {
            Change::Ignored
        } else {
            Change::Unchanged
        }
    }

    pub fn letter(self) -> (r: &'static str)
        ensures
            r@ == letter_text(self),
    {
        match self {
            Change::Unchanged => " ",
            Change::Modified => "M",
            Change::Added => "A",
            Change::Deleted => "D",
            Change::Renamed => "R",
            Change::Copied => "C",
            Change::TypeChanged => "T",
            Change::Unmerged => "U",
            Change::Untracked => "?",
            Change::Ignored => "!",
        }
    }

    pub fn label(self) -> (r: &'static str)
        ensures
            r@ == label_text(self),
    {
        match self {
            Change::Unchanged => "unchanged",
            Change::Modified => "modified",
            Change::Added => "new file",
            Change::Deleted => "deleted",
            Change::Renamed => "renamed",
            Change::Copied => "copied",
            Change::TypeChanged => "type changed",
            Change::Unmerged => "conflicted",
            Change::Untracked => "untracked",
            Change::Ignored => "ignored",
        }
    }

    pub fn is_some(self) -> (r: bool)
        ensures
            r == (self != Change::Unchanged),
    {
        self != Change::Unchanged
    }
}

#[derive(Clone, Debug, PartialEq, Eq)]
pub struct Entry {
    pub path: String,
    /// Set for renames and copies: where the content came from.
    pub orig_path: Option<String>,
    /// Staged side (HEAD -> index).
    pub index: Change,
    /// Unstaged side (index -> worktree).
    pub worktree: Change,
    pub unmerged: bool,
    pub untracked: bool,
}

/// The mathematical model of a status entry.
pub struct EntryV {
    pub path: Seq<char>,
    pub orig_path: Option<Seq<char>>,
    pub index: Change,
    pub worktree: Change,
    pub unmerged: bool,
    pub untracked: bool,
}

impl View for Entry {
    type V = EntryV;

    open spec fn view(&self) -> EntryV {
        EntryV {
            path: self.path@,
            orig_path: match self.orig_path {
                Some(o) => Some(o@),
                None => None,
            },
            index: self.index,
            worktree: self.worktree,
            unmerged: self.unmerged,
            untracked: self.untracked,
        }
    }
}

/// `orig → path` for a rename or copy, else just the path.
pub open spec fn display_path_text(e: EntryV) -> Seq<char> {
    match e.orig_path {
        Some(o) => o + " → "@ + e.path,
        None => e.path,
    }
}

impl Entry {
    pub fn display_path(&self) -> (r: String)
        ensures
            r@ == display_path_text(self@),
    {
        match &self.orig_path {
            Some(o) => {
                let mut s = String::new();
                append_str(&mut s, o.as_str());
                append_str(&mut s, " → ");
                append_str(&mut s, self.path.as_str());
                s
            },
            None => self.path.clone(),
        }
    }
}

#[derive(Clone, Debug, PartialEq, Eq)]
pub struct Status {
    pub entries: Vec<Entry>,
    pub branch: Option<String>,
    pub upstream: Option<String>,
    pub ahead: i64,
    pub behind: i64,
    pub detached: bool,
    pub unborn: bool,
}

/// The mathematical model of a status report.
pub struct StatusV {
    pub entries: Seq<EntryV>,
    pub branch: Option<Seq<char>>,
    pub upstream: Option<Seq<char>>,
    pub ahead: i64,
    pub behind: i64,
    pub detached: bool,
    pub unborn: bool,
}

/// The models of a sequence of entries.
pub open spec fn entry_views(v: Seq<Entry>) -> Seq<EntryV> {
    v.map_values(|e: Entry| e@)
}

/// The view of an optional string.
pub open spec fn opt_view(o: Option<String>) -> Option<Seq<char>> {
    match o {
        Some(s) => Some(s@),
        None => None,
    }
}

impl View for Status {
    type V = StatusV;

    open spec fn view(&self) -> StatusV {
        StatusV {
            entries: entry_views(self.entries@),
            branch: opt_view(self.branch),
            upstream: opt_view(self.upstream),
            ahead: self.ahead,
            behind: self.behind,
            detached: self.detached,
            unborn: self.unborn,
        }
    }
}

/// Has something to stage: a conflict, an untracked file, or a worktree change.
pub open spec fn is_unstaged(e: EntryV) -> bool {
    e.unmerged || e.untracked || e.worktree != Change::Unchanged
}

/// Has something staged: an index change of a tracked, unconflicted file.
pub open spec fn is_staged(e: EntryV) -> bool {
    !e.untracked && !e.unmerged && e.index != Change::Unchanged
}

/// The entries satisfying `p`, in order.
pub open spec fn filter_entries(s: Seq<EntryV>, p: spec_fn(EntryV) -> bool) -> Seq<EntryV>
    decreases s.len(),
{
    if s.len() == 0 {
        seq![]
    } else if p(s.last()) {
        filter_entries(s.drop_last(), p).push(s.last())
    } else {
        filter_entries(s.drop_last(), p)
    }
}

impl Status {
    /// Files with something to stage. A file can legitimately appear in both
    /// lists (e.g. XY = "MM"), which is exactly what git-gui shows.
    pub fn unstaged(&self) -> (r: Vec<&Entry>)
        ensures
            r@.map_values(|e: &Entry| e@) == filter_entries(self@.entries, |e: EntryV| is_unstaged(e)),
    {
        let mut out: Vec<&Entry> = Vec::new();
        let mut i: usize = 0;
        let ghost ev = self@.entries;
        while i < self.entries.len()
            invariant
                i <= self.entries@.len(),
                ev == entry_views(self.entries@),
                out@.map_values(|e: &Entry| e@) == filter_entries(ev.subrange(0, i as int), |e: EntryV| is_unstaged(e)),
            decreases self.entries@.len() - i,
        {
            let e = &self.entries[i];
            let ghost before = out@;
            proof {
                assert(ev.subrange(0, i + 1).drop_last() =~= ev.subrange(0, i as int));
                assert(ev.subrange(0, i + 1).last() == e@);
            }
            if e.unmerged || e.untracked || e.worktree.is_some() {
                out.push(e);
                proof {
                    assert(out@.map_values(|e: &Entry| e@) =~= before.map_values(|e: &Entry| e@).push(e@));
                }
            }
            i += 1;
        }
        proof {
            assert(ev.subrange(0, i as int) =~= ev);
        }
        out
    }

    pub fn staged(&self) -> (r: Vec<&Entry>)
        ensures
            r@.map_values(|e: &Entry| e@) == filter_entries(self@.entries, |e: EntryV| is_staged(e)),
    {
        let mut out: Vec<&Entry> = Vec::new();
        let mut i: usize = 0;
        let ghost ev = self@.entries;
        while i < self.entries.len()
            invariant
                i <= self.entries@.len(),
                ev == entry_views(self.entries@),
                out@.map_values(|e: &Entry| e@) == filter_entries(ev.subrange(0, i as int), |e: EntryV| is_staged(e)),
            decreases self.entries@.len() - i,
        {
            let e = &self.entries[i];
            let ghost before = out@;
            proof {
                assert(ev.subrange(0, i + 1).drop_last() =~= ev.subrange(0, i as int));
                assert(ev.subrange(0, i + 1).last() == e@);
            }
            if !e.untracked && !e.unmerged && e.index.is_some() {
                out.push(e);
                proof {
                    assert(out@.map_values(|e: &Entry| e@) =~= before.map_values(|e: &Entry| e@).push(e@));
                }
            }
            i += 1;
        }
        proof {
            assert(ev.subrange(0, i as int) =~= ev);
        }
        out
    }
}

// ---------------------------------------------------------------------------
// Parsing
// ---------------------------------------------------------------------------

/// The empty report parsing starts from.
pub open spec fn empty_status() -> StatusV {
    StatusV {
        entries: seq![],
        branch: None,
        upstream: None,
        ahead: 0,
        behind: 0,
        detached: false,
        unborn: false,
    }
}

impl Default for Status {
    fn default() -> (st: Status)
        ensures
            st@ == empty_status(),
    {
        let st = Status {
            entries: Vec::new(),
            branch: None,
            upstream: None,
            ahead: 0,
            behind: 0,
            detached: false,
            unborn: false,
        };
        assert(entry_views(st.entries@) =~= Seq::<EntryV>::empty());
        st
    }
}

/// `+N` sets how far ahead and `-N` how far behind; a number that does not
/// parse reads as 0.
pub open spec fn ab_fold(tokens: Seq<Seq<char>>, st: StatusV) -> StatusV
    decreases tokens.len(),
{
    if tokens.len() == 0 {
        st
    } else {
        let st2 = ab_fold(tokens.drop_last(), st);
        let tok = tokens.last();
        match strip_prefix(tok, "+"@) {
            Some(n) => StatusV {
                ahead: match parse_i64(n) {
                    Some(v) => v,
                    None => 0,
                },
                ..st2
            },
            None => match strip_prefix(tok, "-"@) {
                Some(n) => StatusV {
                    behind: match parse_i64(n) {
                        Some(v) => v,
                        None => 0,
                    },
                    ..st2
                },
                None => st2,
            },
        }
    }
}

/// A `# key value` header line, already without its `# `.
pub open spec fn apply_header(st: StatusV, hdr: Seq<char>) -> StatusV {
    let parts = splitn_char(hdr, 2, ' ');
    let key = if parts.len() > 0 {
        parts[0]
    } else {
        Seq::<char>::empty()
    };
    let val = trim(
        if parts.len() > 1 {
            parts[1]
        } else {
            Seq::<char>::empty()
        },
    );
    if key == "branch.oid"@ {
        StatusV { unborn: val == "(initial)"@, ..st }
    } else if key == "branch.head"@ {
        if val == "(detached)"@ {
            StatusV { detached: true, ..st }
        } else {
            StatusV { branch: Some(val), ..st }
        }
    } else if key == "branch.upstream"@ {
        StatusV { upstream: Some(val), ..st }
    } else if key == "branch.ab"@ {
        ab_fold(split_ws(val), st)
    } else {
        st
    }
}

/// The staged and unstaged change codes of an `XY` field.
pub open spec fn xy(field: Seq<char>) -> (Change, Change) {
    (
        if field.len() > 0 {
            change_of(field[0])
        } else {
            Change::Unchanged
        },
        if field.len() > 1 {
            change_of(field[1])
        } else {
            Change::Unchanged
        },
    )
}

/// A record of `n` space-separated fields, the last being the path (which
/// may itself hold spaces).
pub open spec fn entry_fields(line: Seq<char>, n: nat, unmerged: bool) -> Option<EntryV> {
    let f = splitn_char(line, n, ' ');
    if f.len() < n || n < 2 {
        None
    } else {
        let (x, y) = xy(f[1]);
        Some(
            EntryV {
                path: f[n - 1],
                orig_path: None,
                index: x,
                worktree: y,
                unmerged,
                untracked: false,
            },
        )
    }
}

/// `line.get(2..)` for a `? path` record: the path after the two-byte prefix.
pub open spec fn untracked_path(line: Seq<char>) -> Option<Seq<char>> {
    if line.len() >= 2 && '\u{7f}' >= line[1] {
        Some(line.subrange(2, line.len() as int))
    } else {
        None
    }
}

/// `st` with `e` added when there is one.
pub open spec fn add_entry(st: StatusV, e: Option<EntryV>) -> StatusV {
    match e {
        Some(x) => StatusV { entries: st.entries.push(x), ..st },
        None => st,
    }
}

/// The report after the NUL-separated records `recs`. A rename or copy
/// record carries its original path in the *next* record, which it consumes.
pub open spec fn parse_records(recs: Seq<Seq<u8>>, st: StatusV) -> StatusV
    decreases recs.len(), 1int,
{
    if recs.len() == 0 {
        st
    } else {
        let rec = recs[0];
        let rest = recs.drop_first();
        let line = utf8_lossy(rec);
        if rec.len() == 0 || line.len() == 0 {
            parse_records(rest, st)
        } else {
            match strip_prefix(line, "# "@) {
                Some(hdr) => parse_records(rest, apply_header(st, hdr)),
                None => parse_record_line(line, rest, st),
            }
        }
    }
}

/// A record that is not a header: `1` ordinary, `2` rename or copy, `u`
/// unmerged, `?` untracked; anything else is skipped.
pub open spec fn parse_record_line(line: Seq<char>, rest: Seq<Seq<u8>>, st: StatusV) -> StatusV
    decreases rest.len() + 1, 0int,
{
    if line.len() == 0 {
        parse_records(rest, st)
    } else if line[0] == '1' {
        parse_records(rest, add_entry(st, entry_fields(line, 9, false)))
    } else if line[0] == '2' {
        let orig = if rest.len() > 0 {
            Some(utf8_lossy(rest[0]))
        } else {
            None
        };
        let orig = match orig {
            Some(o) => if o.len() > 0 {
                Some(o)
            } else {
                None
            },
            None => None,
        };
        let e = match entry_fields(line, 10, false) {
            Some(x) => Some(EntryV { orig_path: orig, ..x }),
            None => None,
        };
        let rest2 = if rest.len() > 0 {
            rest.drop_first()
        } else {
            rest
        };
        parse_records(rest2, add_entry(st, e))
    } else if line[0] == 'u' {
        parse_records(rest, add_entry(st, entry_fields(line, 11, true)))
    } else if line[0] == '?' {
        match untracked_path(line) {
            Some(p) => parse_records(
                rest,
                add_entry(
                    st,
                    Some(
                        EntryV {
                            path: p,
                            orig_path: None,
                            index: Change::Unchanged,
                            worktree: Change::Untracked,
                            unmerged: false,
                            untracked: true,
                        },
                    ),
                ),
            ),
            None => parse_records(rest, st),
        }
    } else {
        parse_records(rest, st)
    }
}

/// Where insertion sort puts `e` into the sorted `t`: after every entry whose
/// path does not sort after `e`'s, so equal paths keep their order.
pub open spec fn insert_pos(t: Seq<EntryV>, e: EntryV) -> nat
    decreases t.len(),
{
    if t.len() == 0 {
        0
    } else if text_lt(e.path, t.last().path) {
        insert_pos(t.drop_last(), e)
    } else {
        t.len()
    }
}

/// A stable sort by path.
pub open spec fn sort_by_path(s: Seq<EntryV>) -> Seq<EntryV>
    decreases s.len(),
{
    if s.len() == 0 {
        seq![]
    } else {
        let t = sort_by_path(s.drop_last());
        t.insert(insert_pos(t, s.last()) as int, s.last())
    }
}

/// What `parse` makes of the raw `-z` output.
pub open spec fn parse_spec(raw: Seq<u8>) -> StatusV {
    let st = parse_records(split_bytes(raw, 0), empty_status());
    StatusV { entries: sort_by_path(st.entries), ..st }
}

fn xy_exec(field: &Vec<char>) -> (r: (Change, Change))
    ensures
        r == xy(field@),
{
    let x = if field.len() > 0 { Change::from_code(field[0]) } else { Change::Unchanged };
    let y = if field.len() > 1 { Change::from_code(field[1]) } else { Change::Unchanged };
    (x, y)
}

/// `1 <XY> <sub> <mH> <mI> <mW> <hH> <hI> <path>` and its longer cousins.
fn parse_fields(line: &Vec<char>, n: usize, unmerged: bool) -> (r: Option<Entry>)
    requires
        n >= 2,
    ensures
        match (r, entry_fields(line@, n as nat, unmerged)) {
            (Some(e), Some(ev)) => e@ == ev,
            (None, None) => true,
            _ => false,
        },
{
    let f = splitn_char_exec(line, n, ' ');
    if f.len() < n {
        return None;
    }
    proof {
        assert(cviews(f@)[1] == f@[1]@);
        assert(cviews(f@)[n - 1] == f@[n - 1]@);
    }
    let (index, worktree) = xy_exec(&f[1]);
    Some(
        Entry {
            path: string_of(&f[n - 1]),
            orig_path: None,
            index,
            worktree,
            unmerged,
            untracked: false,
        },
    )
}

/// `# key value`, already without its `# `.
fn parse_header(hdr: &Vec<char>, st: &mut Status)
    ensures
        final(st)@ == apply_header(old(st)@, hdr@),
{
    let parts = splitn_char_exec(hdr, 2, ' ');
    let key: Vec<char> = if parts.len() > 0 { slice_of(&parts[0], 0, parts[0].len()) } else { Vec::new() };
    let raw_val: Vec<char> = if parts.len() > 1 { slice_of(&parts[1], 0, parts[1].len()) } else { Vec::new() };
    proof {
        if parts@.len() > 0 {
            assert(cviews(parts@)[0] == parts@[0]@);
            assert(parts@[0]@.subrange(0, parts@[0]@.len() as int) =~= parts@[0]@);
        }
        if parts@.len() > 1 {
            assert(cviews(parts@)[1] == parts@[1]@);
            assert(parts@[1]@.subrange(0, parts@[1]@.len() as int) =~= parts@[1]@);
        }
    }
    let val = trim_exec(&raw_val);
    if chars_eq(&key, &chars_of("branch.oid")) {
        st.unborn = chars_eq(&val, &chars_of("(initial)"));
    } else if chars_eq(&key, &chars_of("branch.head")) {
        if chars_eq(&val, &chars_of("(detached)")) {
            st.detached = true;
        } else {
            st.branch = Some(string_of(&val));
        }
    } else if chars_eq(&key, &chars_of("branch.upstream")) {
        st.upstream = Some(string_of(&val));
    } else if chars_eq(&key, &chars_of("branch.ab")) {
        let toks = split_ws_exec(&val);
        let mut i: usize = 0;
        let ghost st0 = st@;
        assert(cviews(toks@).subrange(0, 0) =~= Seq::<Seq<char>>::empty());
        while i < toks.len()
            invariant
                i <= toks@.len(),
                st@ == ab_fold(cviews(toks@).subrange(0, i as int), st0),
            decreases toks@.len() - i,
        {
            let tok = &toks[i];
            proof {
                let tv = cviews(toks@).subrange(0, i + 1);
                assert(tv.drop_last() =~= cviews(toks@).subrange(0, i as int));
                assert(tv.last() == tok@);
            }
            match strip_prefix_str(tok, "+") {
                Some(n) => {
                    st.ahead = match parse_i64_exec(&n) {
                        Some(v) => v,
                        None => 0,
                    };
                },
                None => match strip_prefix_str(tok, "-") {
                    Some(n) => {
                        st.behind = match parse_i64_exec(&n) {
                            Some(v) => v,
                            None => 0,
                        };
                    },
                    None => {},
                },
            }
            i += 1;
        }
        proof {
            assert(cviews(toks@).subrange(0, i as int) =~= cviews(toks@));
        }
    }
}

/// Inserts `e` into the path-sorted `v` the way insertion sort does.
fn insert_sorted(v: &mut Vec<Entry>, e: Entry)
    ensures
        entry_views(final(v)@) == entry_views(old(v)@).insert(
            insert_pos(entry_views(old(v)@), e@) as int,
            e@,
        ),
{
    let ghost t = entry_views(v@);
    let key = chars_of(e.path.as_str());
    let mut k = v.len();
    assert(t.subrange(0, t.len() as int) =~= t);
    while k > 0 && text_lt_exec(&key, &chars_of(v[k - 1].path.as_str()))
        invariant
            k <= v@.len(),
            t == entry_views(v@),
            key@ == e@.path,
            insert_pos(t, e@) == insert_pos(t.subrange(0, k as int), e@),
        decreases k,
    {
        proof {
            let u = t.subrange(0, k as int);
            assert(u.drop_last() =~= t.subrange(0, k - 1));
            assert(u.last() == v@[k - 1]@);
        }
        k -= 1;
    }
    proof {
        let u = t.subrange(0, k as int);
        if k > 0 {
            assert(u.last() == v@[k - 1]@);
        }
    }
    v.insert(k, e);
    proof {
        assert(entry_views(v@) =~= t.insert(k as int, e@));
    }
}

/// Parses the raw bytes of `git status --porcelain=v2 --branch -z`.
pub fn parse(raw: &[u8]) -> (st: Status)
    ensures
        st@ == parse_spec(raw@),
{
    let mut st = Status {
        entries: Vec::new(),
        branch: None,
        upstream: None,
        ahead: 0,
        behind: 0,
        detached: false,
        unborn: false,
    };
    assert(entry_views(st.entries@) =~= Seq::<EntryV>::empty());
    let records = split_bytes_exec(raw, 0);
    let ghost recs = bviews(records@);
    let ghost target = parse_records(recs, empty_status());
    assert(st@ =~= empty_status());
    assert(recs.subrange(0, recs.len() as int) =~= recs);
    let mut i: usize = 0;
    while i < records.len()
        invariant
            i <= records@.len(),
            recs == bviews(records@),
            target == parse_records(recs.subrange(i as int, recs.len() as int), st@),
        decreases records@.len() - i,
    {
        let ghost rs = recs.subrange(i as int, recs.len() as int);
        let ghost old_st = st@;
        let rec = &records[i];
        proof {
            assert(rs[0] == rec@);
            assert(rs.drop_first() =~= recs.subrange(i + 1, recs.len() as int));
        }
        i += 1;
        if rec.len() == 0 {
            continue;
        }
        let line_s = decode_lossy(rec.as_slice());
        let line = chars_of(line_s.as_str());
        if line.len() == 0 {
            continue;
        }
        if let Some(hdr) = strip_prefix_str(&line, "# ") {
            parse_header(&hdr, &mut st);
            continue;
        }
        let c = line[0];
        proof {
            assert(parse_records(rs, old_st) == parse_record_line(line@, rs.drop_first(), old_st));
        }
        if c == '1' {
            if let Some(e) = parse_fields(&line, 9, false) {
                let ghost before = st.entries@;
                st.entries.push(e);
                proof {
                    assert(entry_views(st.entries@) =~= entry_views(before).push(e@));
                }
            }
        } else if c == '2' {
            // A rename/copy record carries the original path in the *next*
            // NUL-separated field, so consume one extra record.
            let orig: Option<String> = if i < records.len() {
                let o = decode_lossy(records[i].as_slice());
                proof {
                    assert(rs[1] == records@[i as int]@);
                }
                if o.as_str().is_empty() { None } else { Some(o) }
            } else {
                None
            };
            proof {
                if i < records@.len() {
                    assert(rs.drop_first().drop_first() =~= recs.subrange(i + 1, recs.len() as int));
                } else {
                    assert(rs.drop_first() =~= recs.subrange(i as int, recs.len() as int));
                }
            }
            if i < records.len() {
                i += 1;
            }
            if let Some(mut e) = parse_fields(&line, 10, false) {
                e.orig_path = orig;
                let ghost before = st.entries@;
                st.entries.push(e);
                proof {
                    assert(entry_views(st.entries@) =~= entry_views(before).push(e@));
                }
            }
        } else if c == 'u' {
            if let Some(e) = parse_fields(&line, 11, true) {
                let ghost before = st.entries@;
                st.entries.push(e);
                proof {
                    assert(entry_views(st.entries@) =~= entry_views(before).push(e@));
                }
            }
        } else if c == '?' {
            if line.len() >= 2 && '\u{7f}' >= line[1] {
                let p = string_of(&slice_of(&line, 2, line.len()));
                let e = Entry {
                    path: p,
                    orig_path: None,
                    index: Change::Unchanged,
                    worktree: Change::Untracked,
                    unmerged: false,
                    untracked: true,
                };
                let ghost before = st.entries@;
                st.entries.push(e);
                proof {
                    assert(entry_views(st.entries@) =~= entry_views(before).push(e@));
                }
            }
        }
    }
    // Sort by path, keeping records with equal paths in order.
    let mut sorted: Vec<Entry> = Vec::new();
    let Status { entries, branch, upstream, ahead, behind, detached, unborn } = st;
    let ghost ev = entry_views(entries@);
    for e in it: entries
        invariant
            ev == entry_views(it.seq()),
            entry_views(sorted@) == sort_by_path(ev.subrange(0, it.index() as int)),
    {
        proof {
            let j = it.index();
            let pre = ev.subrange(0, j + 1);
            assert(pre.drop_last() =~= ev.subrange(0, j as int));
            assert(pre.last() == e@);
        }
        insert_sorted(&mut sorted, e);
    }
    proof {
        assert(ev.subrange(0, ev.len() as int) =~= ev);
    }
    Status { entries: sorted, branch, upstream, ahead, behind, detached, unborn }
}


// ---------------------------------------------------------------------------
// Laws
// ---------------------------------------------------------------------------

/// No entry's path sorts before an earlier one's.
pub open spec fn sorted_by_path(s: Seq<EntryV>) -> bool {
    forall|i: int, j: int| 0 <= i < j < s.len() ==> !text_lt(#[trigger] s[j].path, #[trigger] s[i].path)
}

proof fn lemma_insert_pos(t: Seq<EntryV>, e: EntryV)
    ensures
        insert_pos(t, e) <= t.len(),
        forall|i: int| insert_pos(t, e) <= i < t.len() ==> text_lt(e.path, #[trigger] t[i].path),
        insert_pos(t, e) > 0 ==> !text_lt(e.path, t[insert_pos(t, e) - 1].path),
    decreases t.len(),
{
    if t.len() > 0 && text_lt(e.path, t.last().path) {
        let u = t.drop_last();
        lemma_insert_pos(u, e);
        assert forall|i: int| insert_pos(t, e) <= i < t.len() implies text_lt(e.path, #[trigger] t[i].path) by {
            if i < u.len() {
                assert(t[i] == u[i]);
            }
        }
        if insert_pos(t, e) > 0 {
            assert(t[insert_pos(t, e) - 1] == u[insert_pos(u, e) - 1]);
        }
    }
}

/// `a` does not sort after `b`.
pub open spec fn path_le(a: Seq<char>, b: Seq<char>) -> bool {
    !text_lt(b, a)
}

proof fn lemma_path_le_transitive(a: Seq<char>, b: Seq<char>, c: Seq<char>)
    requires
        path_le(a, b),
        path_le(b, c),
    ensures
        path_le(a, c),
{
    lemma_text_lt_total(a, b);
    lemma_text_lt_total(b, c);
    if text_lt(c, a) {
        if a == b {
            assert(text_lt(c, b));
        } else if b == c {
            assert(text_lt(b, a));
        } else {
            lemma_text_lt_transitive(a, b, c);
            lemma_text_lt_transitive(c, a, b);
        }
    }
}

proof fn lemma_insert_sorted(t: Seq<EntryV>, e: EntryV)
    requires
        sorted_by_path(t),
    ensures
        sorted_by_path(t.insert(insert_pos(t, e) as int, e)),
{
    lemma_insert_pos(t, e);
    let k = insert_pos(t, e) as int;
    let r = t.insert(k, e);
    assert forall|i: int, j: int| 0 <= i < j < r.len() implies !text_lt(#[trigger] r[j].path, #[trigger] r[i].path) by {
        if j < k {
            assert(r[i] == t[i] && r[j] == t[j]);
        } else if j == k {
            // r[i] = t[i] <= t[k-1] <= e
            assert(r[i] == t[i]);
            if i < k - 1 {
                assert(path_le(t[i].path, t[k - 1].path));
                lemma_path_le_transitive(t[i].path, t[k - 1].path, e.path);
            }
        } else if i == k {
            assert(r[j] == t[j - 1]);
            if text_lt(t[j - 1].path, e.path) {
                lemma_text_lt_transitive(e.path, t[j - 1].path, e.path);
                lemma_text_lt_irreflexive(e.path);
            }
        } else if i < k {
            assert(r[i] == t[i] && r[j] == t[j - 1]);
        } else {
            assert(r[i] == t[i - 1] && r[j] == t[j - 1]);
        }
    }
}

proof fn lemma_sort_sorted(s: Seq<EntryV>)
    ensures
        sorted_by_path(sort_by_path(s)),
    decreases s.len(),
{
    if s.len() > 0 {
        lemma_sort_sorted(s.drop_last());
        lemma_insert_sorted(sort_by_path(s.drop_last()), s.last());
    }
}

/// The status report lists its entries ordered by path.
pub proof fn law_status_entries_sorted(raw: Seq<u8>)
    ensures
        sorted_by_path(parse_spec(raw).entries),
{
    lemma_sort_sorted(parse_records(split_bytes(raw, 0), empty_status()).entries);
}

/// A conflicted file is only ever offered for staging, and an untracked one
/// is never listed as staged.
pub proof fn law_conflicts_and_untracked_are_unstaged(e: EntryV)
    ensures
        e.unmerged ==> is_unstaged(e) && !is_staged(e),
        e.untracked ==> is_unstaged(e) && !is_staged(e),
{
}

proof fn lemma_sort_keeps_entries(s: Seq<EntryV>)
    ensures
        sort_by_path(s).to_multiset() == s.to_multiset(),
        sort_by_path(s).len() == s.len(),
    decreases s.len(),
{
    if s.len() > 0 {
        let t = sort_by_path(s.drop_last());
        lemma_sort_keeps_entries(s.drop_last());
        lemma_insert_pos(t, s.last());
        let k = insert_pos(t, s.last()) as int;
        assert(sort_by_path(s) == t.insert(k, s.last()));
        vstd::seq_lib::to_multiset_insert(t, k, s.last());
        vstd::seq_lib::to_multiset_build(s.drop_last(), s.last());
        assert(s.drop_last().push(s.last()) =~= s);
        assert(sort_by_path(s).to_multiset() == s.drop_last().push(s.last()).to_multiset());
    } else {
        assert(s =~= Seq::<EntryV>::empty());
        assert(sort_by_path(s) =~= Seq::<EntryV>::empty());
    }
}

/// `pre`'s entries begin `post`'s, and `post` has at most `extra` more.
pub open spec fn entries_extend(pre: StatusV, post: StatusV, extra: nat) -> bool {
    &&& pre.entries.len() <= post.entries.len() <= pre.entries.len() + extra
    &&& forall|i: int| 0 <= i < pre.entries.len() ==> #[trigger] post.entries[i] == pre.entries[i]
}

proof fn lemma_records_add_at_most_one_each(recs: Seq<Seq<u8>>, st: StatusV)
    ensures
        entries_extend(st, parse_records(recs, st), recs.len()),
    decreases recs.len(),
{
    if recs.len() > 0 {
        let rec = recs[0];
        let rest = recs.drop_first();
        let line = utf8_lossy(rec);
        let r = parse_records(recs, st);
        if rec.len() == 0 || line.len() == 0 {
            lemma_records_add_at_most_one_each(rest, st);
        } else {
            match strip_prefix(line, "# "@) {
                Some(hdr) => {
                    let st2 = apply_header(st, hdr);
                    lemma_records_add_at_most_one_each(rest, st2);
                    let parts = splitn_char(hdr, 2, ' ');
                    lemma_ab_fold_keeps_entries(split_ws(trim(
                        if parts.len() > 1 {
                            parts[1]
                        } else {
                            Seq::<char>::empty()
                        },
                    )), st);
                    assert(st2.entries == st.entries);
                },
                None => {
                    assert(r == parse_record_line(line, rest, st));
                    let (rest2, e) = if line[0] == '2' {
                        let orig = if rest.len() > 0 {
                            Some(utf8_lossy(rest[0]))
                        } else {
                            None
                        };
                        let orig = match orig {
                            Some(o) => if o.len() > 0 {
                                Some(o)
                            } else {
                                None
                            },
                            None => None,
                        };
                        (if rest.len() > 0 {
                            rest.drop_first()
                        } else {
                            rest
                        }, match entry_fields(line, 10, false) {
                            Some(x) => Some(EntryV { orig_path: orig, ..x }),
                            None => None,
                        })
                    } else if line[0] == '1' {
                        (rest, entry_fields(line, 9, false))
                    } else if line[0] == 'u' {
                        (rest, entry_fields(line, 11, true))
                    } else if line[0] == '?' {
                        (rest, match untracked_path(line) {
                            Some(p) => Some(
                                EntryV {
                                    path: p,
                                    orig_path: None,
                                    index: Change::Unchanged,
                                    worktree: Change::Untracked,
                                    unmerged: false,
                                    untracked: true,
                                },
                            ),
                            None => None,
                        })
                    } else {
                        (rest, None)
                    };
                    let st2 = add_entry(st, e);
                    assert(r == parse_records(rest2, st2));
                    lemma_records_add_at_most_one_each(rest2, st2);
                    assert(entries_extend(st, st2, 1));
                    assert forall|i: int| 0 <= i < st.entries.len() implies #[trigger] r.entries[i] == st.entries[i] by {
                        assert(r.entries[i] == st2.entries[i]);
                    }
                },
            }
        }
    }
}

proof fn lemma_ab_fold_keeps_entries(tokens: Seq<Seq<char>>, st: StatusV)
    ensures
        ab_fold(tokens, st).entries == st.entries,
    decreases tokens.len(),
{
    if tokens.len() > 0 {
        lemma_ab_fold_keeps_entries(tokens.drop_last(), st);
    }
}

/// Each record of the report yields at most one entry (a rename's second
/// record only carries the first one's original path), and ordering the
/// entries by path neither drops nor repeats any of them.
pub proof fn law_one_entry_per_record(raw: Seq<u8>)
    ensures
        ({
            let st = parse_records(split_bytes(raw, 0), empty_status());
            &&& parse_spec(raw).entries.to_multiset() == st.entries.to_multiset()
            &&& parse_spec(raw).entries.len() <= split_bytes(raw, 0).len()
        }),
{
    let st = parse_records(split_bytes(raw, 0), empty_status());
    lemma_sort_keeps_entries(st.entries);
    lemma_records_add_at_most_one_each(split_bytes(raw, 0), empty_status());
}

}
