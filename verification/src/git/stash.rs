//! Stash entries.
//!
//! A stash is a real commit with two or three parents: the HEAD it was taken
//! from, the index state, and (only when created with `-u`) a third holding
//! the untracked files. Those untracked files are not in the stash commit's
//! own tree, so a plain diff against the first parent never shows them; they
//! are read out of the third parent separately.

use vstd::prelude::*;
use crate::text::{
    append_chars, bviews, chars_of, contains, contains_exec, cviews, decimal, decode_lossy,
    find, is_cr_lf, lowercase, push_char, push_decimal, split_bytes, split_bytes_exec, split_once,
    split_once_exec, split_ws, split_ws_exec, splitn_char, splitn_char_exec, starts_with,
    starts_with_exec, starts_with_str, strip_prefix, strip_prefix_str, string_of, to_lowercase,
    trim_crlf, trim_end_by, trim_start_by, trim_start_crlf, utf8_lossy, views,
};
use super::status::Change;

verus! {

/// Deliberately avoids `%gd`: that field is rendered through `--date`, so
/// asking for a short date turns `stash@{0}` into `stash@{2026-08-07}`, which
/// is not a usable ref. The index comes from list position instead.
pub const STASH_FORMAT: &'static str = "%H%x1f%s%x1f%as%x1f%P";

#[derive(Clone, Debug, PartialEq, Eq)]
pub struct StashEntry {
    /// Position in the list; the ref is `stash@{index}`.
    pub index: usize,
    pub sha: String,
    /// e.g. "On main: fixing the widget".
    pub subject: String,
    pub date: String,
    pub parents: Vec<String>,
}

/// The mathematical model of a stash entry.
pub struct StashEntryV {
    pub index: nat,
    pub sha: Seq<char>,
    pub subject: Seq<char>,
    pub date: Seq<char>,
    pub parents: Seq<Seq<char>>,
}

impl View for StashEntry {
    type V = StashEntryV;

    open spec fn view(&self) -> StashEntryV {
        StashEntryV {
            index: self.index as nat,
            sha: self.sha@,
            subject: self.subject@,
            date: self.date@,
            parents: views(self.parents@),
        }
    }
}

/// The ref naming the stash at position `i`: `stash@{i}`.
pub open spec fn stash_ref(i: nat) -> Seq<char> {
    seq!['s', 't', 'a', 's', 'h', '@', '{'] + decimal(i) + seq!['}']
}

/// The separator git puts after the branch part of a stash subject.
pub open spec fn colon_space() -> Seq<char> {
    seq![':', ' ']
}

/// The prefix of a subject made by `git stash push -m`.
pub open spec fn on_prefix() -> Seq<char> {
    seq!['O', 'n', ' ']
}

/// The prefix of a subject made by a plain `git stash`.
pub open spec fn wip_prefix() -> Seq<char> {
    seq!['W', 'I', 'P', ' ', 'o', 'n', ' ']
}

/// The subject without git's "On <branch>: " or "WIP on <branch>: " prefix;
/// any other subject is left whole.
pub open spec fn stash_message(subject: Seq<char>) -> Seq<char> {
    match split_once(subject, colon_space()) {
        Some((head, rest)) => if starts_with(head, on_prefix()) || starts_with(head, wip_prefix()) {
            rest
        } else {
            subject
        },
        None => subject,
    }
}

/// The branch named by the subject's prefix, "WIP on " tried first.
pub open spec fn stash_branch(subject: Seq<char>) -> Option<Seq<char>> {
    match split_once(subject, colon_space()) {
        Some((head, _)) => match strip_prefix(head, wip_prefix()) {
            Some(b) => Some(b),
            None => strip_prefix(head, on_prefix()),
        },
        None => None,
    }
}

/// The stash filter: an empty needle matches everything; otherwise the
/// lowercased subject contains it or the sha starts with it.
pub open spec fn stash_matches(e: StashEntryV, needle_lower: Seq<char>) -> bool {
    ||| needle_lower.len() == 0
    ||| contains(lowercase(e.subject), needle_lower)
    ||| starts_with(e.sha, needle_lower)
}

impl StashEntry {
    /// The ref that names this stash.
    pub fn refname(&self) -> (r: String)
        ensures
            r@ == stash_ref(self.index as nat),
    {
        let mut s = String::new();
        append_chars(&mut s, &chars_of("stash@{"));
        push_decimal(&mut s, self.index as u64);
        push_char(&mut s, '}');
        proof {
            reveal_strlit("stash@{");
            assert(s@ =~= stash_ref(self.index as nat));
        }
        s
    }

    /// True when the stash was taken with `--include-untracked`.
    pub fn has_untracked(&self) -> (r: bool)
        ensures
            r == (self@.parents.len() >= 3),
    {
        self.parents.len() >= 3
    }

    /// The commit holding untracked files, if any.
    pub fn untracked_parent(&self) -> (r: Option<&str>)
        ensures
            match r {
                Some(p) => self@.parents.len() >= 3 && p@ == self@.parents[2],
                None => self@.parents.len() < 3,
            },
    {
        if self.parents.len() >= 3 {
            Some(self.parents[2].as_str())
        } else {
            None
        }
    }

    /// Strips git's "On <branch>: " prefix for a tidier display.
    pub fn message(&self) -> (r: String)
        ensures
            r@ == stash_message(self@.subject),
    {
        let s = chars_of(self.subject.as_str());
        let sep = chars_of(": ");
        proof {
            reveal_strlit(": ");
            assert(sep@ =~= colon_space());
        }
        match split_once_exec(&s, &sep) {
            Some((head, rest)) => {
                let on = starts_with_str(&head, "On ");
                let wip = starts_with_str(&head, "WIP on ");
                proof {
                    reveal_strlit("On ");
                    reveal_strlit("WIP on ");
                    assert("On "@ =~= on_prefix());
                    assert("WIP on "@ =~= wip_prefix());
                }
                if on || wip {
                    string_of(&rest)
                } else {
                    self.subject.clone()
                }
            },
            None => self.subject.clone(),
        }
    }

    /// The branch the stash was taken on, read from the subject's prefix.
    pub fn branch(&self) -> (r: Option<String>)
        ensures
            match (r, stash_branch(self@.subject)) {
                (Some(a), Some(b)) => a@ == b,
                (None, None) => true,
                _ => false,
            },
    {
        let s = chars_of(self.subject.as_str());
        let sep = chars_of(": ");
        proof {
            reveal_strlit(": ");
            reveal_strlit("On ");
            reveal_strlit("WIP on ");
            assert(sep@ =~= colon_space());
            assert("On "@ =~= on_prefix());
            assert("WIP on "@ =~= wip_prefix());
        }
        match split_once_exec(&s, &sep) {
            Some((head, _)) => match strip_prefix_str(&head, "WIP on ") {
                Some(b) => Some(string_of(&b)),
                None => match strip_prefix_str(&head, "On ") {
                    Some(b) => Some(string_of(&b)),
                    None => None,
                },
            },
            None => None,
        }
    }

    /// Case-insensitive match used by the stash filter box.
    pub fn matches(&self, needle_lower: &str) -> (r: bool)
        ensures
            r == stash_matches(self@, needle_lower@),
    {
        let needle = chars_of(needle_lower);
        if needle.len() == 0 {
            return true;
        }
        contains_exec(&chars_of(to_lowercase(self.subject.as_str()).as_str()), &needle)
            || starts_with_exec(&chars_of(self.sha.as_str()), &needle)
    }
}

#[derive(Clone, Debug, PartialEq, Eq)]
pub struct StashFile {
    pub status: Change,
    pub path: String,
    pub orig_path: Option<String>,
    /// Came from the third parent, so it needs reading rather than diffing.
    pub untracked: bool,
}

/// The mathematical model of a file in a stash.
pub struct StashFileV {
    pub status: Change,
    pub path: Seq<char>,
    pub orig_path: Option<Seq<char>>,
    pub untracked: bool,
}

impl View for StashFile {
    type V = StashFileV;

    open spec fn view(&self) -> StashFileV {
        StashFileV {
            status: self.status,
            path: self.path@,
            orig_path: match self.orig_path {
                Some(o) => Some(o@),
                None => None,
            },
            untracked: self.untracked,
        }
    }
}

/// The unit separator between fields.
pub open spec fn us() -> char {
    '\u{1f}'
}

/// One NUL-separated record of `git stash list`: leading line breaks
/// dropped, then four US-separated fields, parents space-separated last.
/// The index is filled in by position.
pub open spec fn stash_record(rec: Seq<u8>, index: nat) -> Option<StashEntryV> {
    let s = trim_start_by(utf8_lossy(rec), |c: char| is_cr_lf(c));
    let f = splitn_char(s, 4, us());
    if s.len() == 0 || f.len() < 4 {
        None
    } else {
        Some(
            StashEntryV {
                index,
                sha: f[0],
                subject: f[1],
                date: f[2],
                parents: split_ws(f[3]),
            },
        )
    }
}

/// The entries of every well-formed record, each numbered by its position
/// among them.
pub open spec fn stash_records(recs: Seq<Seq<u8>>) -> Seq<StashEntryV>
    decreases recs.len(),
{
    if recs.len() == 0 {
        seq![]
    } else {
        let prev = stash_records(recs.drop_last());
        match stash_record(recs.last(), prev.len()) {
            Some(e) => prev.push(e),
            None => prev,
        }
    }
}

/// What `parse_list` makes of the raw `-z` output.
pub open spec fn parse_list_spec(raw: Seq<u8>) -> Seq<StashEntryV> {
    stash_records(split_bytes(raw, 0))
}

/// The models of a sequence of stash entries.
pub open spec fn entry_views(v: Seq<StashEntry>) -> Seq<StashEntryV> {
    v.map_values(|e: StashEntry| e@)
}

fn stash_record_exec(rec: &Vec<u8>, index: usize) -> (r: Option<StashEntry>)
    ensures
        match (r, stash_record(rec@, index as nat)) {
            (Some(e), Some(ev)) => e@ == ev,
            (None, None) => true,
            _ => false,
        },
{
    let raw = decode_lossy(rec.as_slice());
    let s = trim_start_crlf(&chars_of(raw.as_str()));
    if s.len() == 0 {
        return None;
    }
    let f = splitn_char_exec(&s, 4, '\u{1f}');
    if f.len() < 4 {
        return None;
    }
    let ps = split_ws_exec(&f[3]);
    let mut parents: Vec<String> = Vec::new();
    let mut k: usize = 0;
    while k < ps.len()
        invariant
            k <= ps@.len(),
            views(parents@) == cviews(ps@).subrange(0, k as int),
        decreases ps@.len() - k,
    {
        let ghost before = parents@;
        let p = string_of(&ps[k]);
        parents.push(p);
        k += 1;
        proof {
            assert(views(parents@) =~= views(before).push(p@));
            assert(views(parents@) =~= cviews(ps@).subrange(0, k as int));
        }
    }
    proof {
        assert(cviews(ps@).subrange(0, k as int) =~= cviews(ps@));
        assert(cviews(f@)[0] == f@[0]@);
        assert(cviews(f@)[1] == f@[1]@);
        assert(cviews(f@)[2] == f@[2]@);
        assert(cviews(f@)[3] == f@[3]@);
    }
    Some(
        StashEntry {
            index,
            sha: string_of(&f[0]),
            subject: string_of(&f[1]),
            date: string_of(&f[2]),
            parents,
        },
    )
}

/// Parses `git stash list -z --format=STASH_FORMAT`, numbering the entries
/// by their position in the list.
pub fn parse_list(raw: &[u8]) -> (r: Vec<StashEntry>)
    ensures
        entry_views(r@) == parse_list_spec(raw@),
{
    let recs = split_bytes_exec(raw, 0);
    let ghost rv = bviews(recs@);
    let mut out: Vec<StashEntry> = Vec::new();
    let mut i: usize = 0;
    while i < recs.len()
        invariant
            i <= recs@.len(),
            rv == bviews(recs@),
            entry_views(out@) == stash_records(rv.subrange(0, i as int)),
            out@.len() <= i,
        decreases recs@.len() - i,
    {
        proof {
            assert(rv.subrange(0, i + 1).drop_last() =~= rv.subrange(0, i as int));
            assert(rv.subrange(0, i + 1).last() == recs@[i as int]@);
        }
        let ghost before = out@;
        match stash_record_exec(&recs[i], out.len()) {
            Some(e) => {
                out.push(e);
                proof {
                    assert(entry_views(out@) =~= entry_views(before).push(e@));
                }
            },
            None => {},
        }
        i += 1;
    }
    proof {
        assert(rv.subrange(0, i as int) =~= rv);
    }
    out
}

/// The paths of a NUL-separated list, each with line breaks trimmed from
/// both ends; empty ones are dropped.
pub open spec fn path_list(recs: Seq<Seq<u8>>) -> Seq<Seq<char>>
    decreases recs.len(),
{
    if recs.len() == 0 {
        seq![]
    } else {
        let p = trim_end_by(
            trim_start_by(utf8_lossy(recs.last()), |c: char| is_cr_lf(c)),
            |c: char| is_cr_lf(c),
        );
        if p.len() == 0 {
            path_list(recs.drop_last())
        } else {
            path_list(recs.drop_last()).push(p)
        }
    }
}

/// Splits a NUL-separated path list, as produced by `ls-tree -z`.
pub fn parse_paths(raw: &[u8]) -> (r: Vec<String>)
    ensures
        views(r@) == path_list(split_bytes(raw@, 0)),
{
    let recs = split_bytes_exec(raw, 0);
    let ghost rv = bviews(recs@);
    let mut out: Vec<String> = Vec::new();
    let mut i: usize = 0;
    while i < recs.len()
        invariant
            i <= recs@.len(),
            rv == bviews(recs@),
            views(out@) == path_list(rv.subrange(0, i as int)),
        decreases recs@.len() - i,
    {
        proof {
            assert(rv.subrange(0, i + 1).drop_last() =~= rv.subrange(0, i as int));
            assert(rv.subrange(0, i + 1).last() == recs@[i as int]@);
        }
        let ghost before = out@;
        let s = decode_lossy(recs[i].as_slice());
        let p = trim_crlf(&chars_of(s.as_str()));
        if p.len() > 0 {
            let ps = string_of(&p);
            out.push(ps);
            proof {
                assert(views(out@) =~= views(before).push(ps@));
            }
        }
        i += 1;
    }
    proof {
        assert(rv.subrange(0, i as int) =~= rv);
    }
    out
}

// ---------------------------------------------------------------------------
// Laws
// ---------------------------------------------------------------------------

proof fn lemma_stash_records_indexed(recs: Seq<Seq<u8>>)
    ensures
        forall|i: int| 0 <= i < stash_records(recs).len() ==> #[trigger] stash_records(recs)[i].index == i,
    decreases recs.len(),
{
    if recs.len() > 0 {
        let prev = stash_records(recs.drop_last());
        lemma_stash_records_indexed(recs.drop_last());
        match stash_record(recs.last(), prev.len()) {
            Some(e) => {
                assert(e.index == prev.len());
                assert forall|i: int| 0 <= i < stash_records(recs).len() implies #[trigger] stash_records(recs)[i].index == i by {
                    if i < prev.len() {
                        assert(stash_records(recs)[i] == prev[i]);
                    }
                }
            },
            None => {},
        }
    }
}

/// Every parsed stash is numbered by its position in the list, so its ref
/// is `stash@{position}`.
pub proof fn law_stash_list_numbered_by_position(raw: Seq<u8>)
    ensures
        forall|i: int|
            0 <= i < parse_list_spec(raw).len() ==> {
                &&& #[trigger] parse_list_spec(raw)[i].index == i
                &&& stash_ref(parse_list_spec(raw)[i].index) == stash_ref(i as nat)
            },
{
    lemma_stash_records_indexed(split_bytes(raw, 0));
}

/// The display message and the branch split the subject: where a branch is
/// read, the subject is its prefix, the branch, ": " and the message; where
/// none is, the message is the whole subject.
pub proof fn law_stash_subject_splits(subject: Seq<char>)
    ensures
        match stash_branch(subject) {
            Some(b) => subject == wip_prefix() + b + colon_space() + stash_message(subject)
                || subject == on_prefix() + b + colon_space() + stash_message(subject),
            None => stash_message(subject) == subject,
        },
{
    crate::text::lemma_find_from_some(subject, colon_space(), 0);
    match split_once(subject, colon_space()) {
        Some((head, rest)) => {
            let i = find(subject, colon_space()).unwrap();
            assert(subject =~= head + colon_space() + rest);
            match strip_prefix(head, wip_prefix()) {
                Some(b) => {
                    assert(head =~= wip_prefix() + b);
                },
                None => match strip_prefix(head, on_prefix()) {
                    Some(b) => {
                        assert(head =~= on_prefix() + b);
                    },
                    None => {},
                },
            }
        },
        None => {},
    }
}

/// The stash filter ignores the case of the subject: two stashes whose
/// subjects lowercase alike match the same needles, and a stash matches
/// every needle its lowercased subject contains or its hash starts with,
/// and no other (an empty needle matches everything).
pub proof fn law_stash_filter_ignores_case(a: StashEntryV, b: StashEntryV, needle_lower: Seq<char>)
    ensures
        lowercase(a.subject) == lowercase(b.subject) && a.sha == b.sha ==> stash_matches(a, needle_lower)
            == stash_matches(b, needle_lower),
        contains(lowercase(a.subject), needle_lower) ==> stash_matches(a, needle_lower),
        starts_with(a.sha, needle_lower) ==> stash_matches(a, needle_lower),
        needle_lower.len() == 0 ==> stash_matches(a, needle_lower),
        stash_matches(a, needle_lower) ==> needle_lower.len() == 0 || contains(lowercase(a.subject), needle_lower)
            || starts_with(a.sha, needle_lower),
{
}

}
