//! Commit history: parsing `git log` and per-commit file lists.

use vstd::prelude::*;
use crate::text::{
    bviews, chars_of, contains, contains_exec, cviews, decode_lossy, lowercase, split_bytes,
    split_bytes_exec, split_ws, split_ws_exec, splitn_char, splitn_char_exec, starts_with,
    starts_with_exec, string_of, to_lowercase, trim, trim_end, trim_end_exec, trim_exec,
    trim_start_by, trim_start_crlf, is_cr_lf, utf8_lossy, views,
};
use super::status::{change_of, Change};

verus! {

/// Fields are separated by US (0x1f) and records by NUL, so neither a subject
/// containing newlines nor a path containing spaces can confuse the split.
pub const LOG_FORMAT: &'static str = "%H%x1f%h%x1f%an%x1f%ad%x1f%D%x1f%s";

/// The unit separator between fields.
pub open spec fn us() -> char {
    '\u{1f}'
}

#[derive(Clone, Debug, PartialEq, Eq)]
pub struct CommitInfo {
    pub sha: String,
    pub short: String,
    pub author: String,
    pub date: String,
    /// Decorations from %D, e.g. "HEAD -> main, origin/main".
    pub refs: String,
    pub subject: String,
}

/// The mathematical model of a log record.
pub struct CommitInfoV {
    pub sha: Seq<char>,
    pub short: Seq<char>,
    pub author: Seq<char>,
    pub date: Seq<char>,
    pub refs: Seq<char>,
    pub subject: Seq<char>,
}

impl View for CommitInfo {
    type V = CommitInfoV;

    open spec fn view(&self) -> CommitInfoV {
        CommitInfoV {
            sha: self.sha@,
            short: self.short@,
            author: self.author@,
            date: self.date@,
            refs: self.refs@,
            subject: self.subject@,
        }
    }
}

/// The commit filter: an empty needle matches everything; otherwise the
/// lowercased subject, author or refs contain it, or the sha starts with it.
pub open spec fn commit_matches(c: CommitInfoV, needle_lower: Seq<char>) -> bool {
    ||| needle_lower.len() == 0
    ||| contains(lowercase(c.subject), needle_lower)
    ||| contains(lowercase(c.author), needle_lower)
    ||| starts_with(c.sha, needle_lower)
    ||| contains(lowercase(c.refs), needle_lower)
}

impl CommitInfo {
    /// Case-insensitive match used by the commit filter box.
    pub fn matches(&self, needle_lower: &str) -> (r: bool)
        ensures
            r == commit_matches(self@, needle_lower@),
    {
        let needle = chars_of(needle_lower);
        if needle.len() == 0 {
            return true;
        }
        contains_exec(&chars_of(to_lowercase(self.subject.as_str()).as_str()), &needle)
            || contains_exec(&chars_of(to_lowercase(self.author.as_str()).as_str()), &needle)
            || starts_with_exec(&chars_of(self.sha.as_str()), &needle)
            || contains_exec(&chars_of(to_lowercase(self.refs.as_str()).as_str()), &needle)
    }
}

#[derive(Clone, Debug, PartialEq, Eq)]
pub struct CommitMeta {
    pub author: String,
    pub email: String,
    pub date: String,
    pub refs: String,
    pub parents: Vec<String>,
    pub body: String,
}

/// The mathematical model of a commit's details.
pub struct CommitMetaV {
    pub author: Seq<char>,
    pub email: Seq<char>,
    pub date: Seq<char>,
    pub refs: Seq<char>,
    pub parents: Seq<Seq<char>>,
    pub body: Seq<char>,
}

impl View for CommitMeta {
    type V = CommitMetaV;

    open spec fn view(&self) -> CommitMetaV {
        CommitMetaV {
            author: self.author@,
            email: self.email@,
            date: self.date@,
            refs: self.refs@,
            parents: views(self.parents@),
            body: self.body@,
        }
    }
}

impl Default for CommitMeta {
    fn default() -> (r: CommitMeta)
        ensures
            r@ == parse_meta_spec(seq![]),
    {
        let r = CommitMeta {
            author: String::new(),
            email: String::new(),
            date: String::new(),
            refs: String::new(),
            parents: Vec::new(),
            body: String::new(),
        };
        proof {
            assert(splitn_char(seq![], 6, us()) =~= seq![Seq::<char>::empty()]);
        }
        assert(r@.parents =~= Seq::<Seq<char>>::empty());
        r
    }
}

impl CommitMeta {
    pub fn is_merge(&self) -> (r: bool)
        ensures
            r == (self@.parents.len() > 1),
    {
        self.parents.len() > 1
    }
}

#[derive(Clone, Debug, PartialEq, Eq)]
pub struct CommitFile {
    pub status: Change,
    pub path: String,
    pub orig_path: Option<String>,
}

/// The mathematical model of a file in a commit.
pub struct CommitFileV {
    pub status: Change,
    pub path: Seq<char>,
    pub orig_path: Option<Seq<char>>,
}

impl View for CommitFile {
    type V = CommitFileV;

    open spec fn view(&self) -> CommitFileV {
        CommitFileV {
            status: self.status,
            path: self.path@,
            orig_path: match self.orig_path {
                Some(o) => Some(o@),
                None => None,
            },
        }
    }
}

/// The models of a sequence of commit files.
pub open spec fn file_views(v: Seq<CommitFile>) -> Seq<CommitFileV> {
    v.map_values(|f: CommitFile| f@)
}

/// The models of a sequence of log records.
pub open spec fn info_views(v: Seq<CommitInfo>) -> Seq<CommitInfoV> {
    v.map_values(|c: CommitInfo| c@)
}

/// One NUL-separated log record: leading line breaks dropped, then six
/// US-separated fields with the subject last, so a stray separator in it
/// stays attached.
pub open spec fn log_record(rec: Seq<u8>) -> Option<CommitInfoV> {
    let s = trim_start_by(utf8_lossy(rec), |c: char| is_cr_lf(c));
    let f = splitn_char(s, 6, us());
    if s.len() == 0 || f.len() < 6 {
        None
    } else {
        Some(CommitInfoV { sha: f[0], short: f[1], author: f[2], date: f[3], refs: f[4], subject: f[5] })
    }
}

/// The commits of every well-formed record, in order.
pub open spec fn log_records(recs: Seq<Seq<u8>>) -> Seq<CommitInfoV>
    decreases recs.len(),
{
    if recs.len() == 0 {
        seq![]
    } else {
        match log_record(recs.last()) {
            Some(c) => log_records(recs.drop_last()).push(c),
            None => log_records(recs.drop_last()),
        }
    }
}

/// What `parse_log` makes of the raw `-z` output.
pub open spec fn parse_log_spec(raw: Seq<u8>) -> Seq<CommitInfoV> {
    log_records(split_bytes(raw, 0))
}

fn log_record_exec(rec: &Vec<u8>) -> (r: Option<CommitInfo>)
    ensures
        match (r, log_record(rec@)) {
            (Some(c), Some(cv)) => c@ == cv,
            (None, None) => true,
            _ => false,
        },
{
    let raw = decode_lossy(rec.as_slice());
    let s = trim_start_crlf(&chars_of(raw.as_str()));
    if s.len() == 0 {
        return None;
    }
    let f = splitn_char_exec(&s, 6, '\u{1f}');
    if f.len() < 6 {
        return None;
    }
    proof {
        assert(cviews(f@)[0] == f@[0]@);
        assert(cviews(f@)[1] == f@[1]@);
        assert(cviews(f@)[2] == f@[2]@);
        assert(cviews(f@)[3] == f@[3]@);
        assert(cviews(f@)[4] == f@[4]@);
        assert(cviews(f@)[5] == f@[5]@);
    }
    Some(
        CommitInfo {
            sha: string_of(&f[0]),
            short: string_of(&f[1]),
            author: string_of(&f[2]),
            date: string_of(&f[3]),
            refs: string_of(&f[4]),
            subject: string_of(&f[5]),
        },
    )
}

/// Parses `git log -z --pretty=format:LOG_FORMAT`.
pub fn parse_log(raw: &[u8]) -> (r: Vec<CommitInfo>)
    ensures
        info_views(r@) == parse_log_spec(raw@),
{
    let recs = split_bytes_exec(raw, 0);
    let ghost rv = bviews(recs@);
    let mut out: Vec<CommitInfo> = Vec::new();
    let mut i: usize = 0;
    while i < recs.len()
        invariant
            i <= recs@.len(),
            rv == bviews(recs@),
            info_views(out@) == log_records(rv.subrange(0, i as int)),
        decreases recs@.len() - i,
    {
        proof {
            assert(rv.subrange(0, i + 1).drop_last() =~= rv.subrange(0, i as int));
            assert(rv.subrange(0, i + 1).last() == recs@[i as int]@);
        }
        let ghost before = out@;
        match log_record_exec(&recs[i]) {
            Some(c) => {
                out.push(c);
                proof {
                    assert(info_views(out@) =~= info_views(before).push(c@));
                }
            },
            None => {},
        }
        i += 1;
    }
    proof {
        assert(rv.subrange(0, i as int) =~= rv);
    }
    out
}

/// `%an%x1f%ae%x1f%ad%x1f%D%x1f%P%x1f%B`: parents are space-separated and the
/// body loses its trailing white space. Anything with fewer fields reads as
/// empty details.
pub open spec fn parse_meta_spec(raw: Seq<char>) -> CommitMetaV {
    let f = splitn_char(raw, 6, us());
    if f.len() < 6 {
        CommitMetaV {
            author: seq![],
            email: seq![],
            date: seq![],
            refs: seq![],
            parents: seq![],
            body: seq![],
        }
    } else {
        CommitMetaV {
            author: f[0],
            email: f[1],
            date: f[2],
            refs: f[3],
            parents: split_ws(f[4]),
            body: trim_end(f[5]),
        }
    }
}

pub fn parse_meta(raw: &str) -> (r: CommitMeta)
    ensures
        r@ == parse_meta_spec(raw@),
{
    let cs = chars_of(raw);
    let f = splitn_char_exec(&cs, 6, '\u{1f}');
    if f.len() < 6 {
        let r = CommitMeta {
            author: String::new(),
            email: String::new(),
            date: String::new(),
            refs: String::new(),
            parents: Vec::new(),
            body: String::new(),
        };
        assert(r@.parents =~= Seq::<Seq<char>>::empty());
        return r;
    }
    proof {
        assert(cviews(f@)[0] == f@[0]@);
        assert(cviews(f@)[1] == f@[1]@);
        assert(cviews(f@)[2] == f@[2]@);
        assert(cviews(f@)[3] == f@[3]@);
        assert(cviews(f@)[4] == f@[4]@);
        assert(cviews(f@)[5] == f@[5]@);
    }
    let toks = split_ws_exec(&f[4]);
    let mut parents: Vec<String> = Vec::new();
    let mut i: usize = 0;
    while i < toks.len()
        invariant
            i <= toks@.len(),
            views(parents@) == cviews(toks@).subrange(0, i as int),
        decreases toks@.len() - i,
    {
        let ghost before = parents@;
        let p = string_of(&toks[i]);
        parents.push(p);
        proof {
            assert(views(parents@) =~= views(before).push(p@));
            assert(cviews(toks@).subrange(0, i + 1) =~= cviews(toks@).subrange(0, i as int).push(
                toks@[i as int]@,
            ));
        }
        i += 1;
    }
    proof {
        assert(cviews(toks@).subrange(0, i as int) =~= cviews(toks@));
    }
    CommitMeta {
        author: string_of(&f[0]),
        email: string_of(&f[1]),
        date: string_of(&f[2]),
        refs: string_of(&f[3]),
        parents,
        body: string_of(&trim_end_exec(&f[5])),
    }
}

/// The files of `--name-status -z` output. Renames and copies carry two
/// paths, so the token stream is walked rather than chunked in pairs; a
/// record cut short ends the list.
pub open spec fn name_status(toks: Seq<Seq<u8>>) -> Seq<CommitFileV>
    decreases toks.len(),
{
    if toks.len() == 0 {
        seq![]
    } else {
        let status = trim(trim_start_by(utf8_lossy(toks[0]), |c: char| is_cr_lf(c)));
        let rest = toks.drop_first();
        if status.len() == 0 {
            name_status(rest)
        } else {
            let code = status[0];
            let change = change_of(code);
            if code == 'R' || code == 'C' {
                if rest.len() < 2 {
                    seq![]
                } else {
                    seq![
                        CommitFileV {
                            status: change,
                            path: utf8_lossy(rest[1]),
                            orig_path: Some(utf8_lossy(rest[0])),
                        },
                    ] + name_status(rest.subrange(2, rest.len() as int))
                }
            } else if rest.len() < 1 {
                seq![]
            } else {
                let p = utf8_lossy(rest[0]);
                if p.len() == 0 {
                    name_status(rest.drop_first())
                } else {
                    seq![CommitFileV { status: change, path: p, orig_path: None }] + name_status(
                        rest.drop_first(),
                    )
                }
            }
        }
    }
}

/// What `parse_name_status` makes of the raw output.
pub open spec fn parse_name_status_spec(raw: Seq<u8>) -> Seq<CommitFileV> {
    name_status(split_bytes(raw, 0))
}

/// Parses `--name-status -z` output.
pub fn parse_name_status(raw: &[u8]) -> (r: Vec<CommitFile>)
    ensures
        file_views(r@) == parse_name_status_spec(raw@),
{
    let toks = split_bytes_exec(raw, 0);
    let ghost tv = bviews(toks@);
    let mut out: Vec<CommitFile> = Vec::new();
    let mut i: usize = 0;
    let mut done = false;
    assert(tv.subrange(0, tv.len() as int) =~= tv);
    while !done && i < toks.len()
        invariant
            i <= toks@.len(),
            tv == bviews(toks@),
            !done ==> name_status(tv) == file_views(out@) + name_status(
                tv.subrange(i as int, tv.len() as int),
            ),
            done ==> name_status(tv) == file_views(out@),
        decreases toks@.len() - i + (if done { 0int } else { 1int }),
    {
        let ghost ts = tv.subrange(i as int, tv.len() as int);
        let ghost before = out@;
        proof {
            assert(ts[0] == toks@[i as int]@);
            assert(ts.drop_first() =~= tv.subrange(i + 1, tv.len() as int));
        }
        let raw_status = decode_lossy(toks[i].as_slice());
        let status = trim_exec(&trim_start_crlf(&chars_of(raw_status.as_str())));
        i += 1;
        if status.len() == 0 {
            continue;
        }
        let code = status[0];
        let change = Change::from_code(code);
        if code == 'R' || code == 'C' {
            if toks.len() - i < 2 {
                done = true;
                proof {
                    assert(file_views(out@) + Seq::<CommitFileV>::empty() =~= file_views(out@));
                }
            } else {
                proof {
                    assert(ts.drop_first()[0] == toks@[i as int]@);
                    assert(ts.drop_first()[1] == toks@[i + 1]@);
                    assert(ts.drop_first().subrange(2, ts.drop_first().len() as int) =~= tv.subrange(
                        i + 2,
                        tv.len() as int,
                    ));
                }
                let orig = decode_lossy(toks[i].as_slice());
                let path = decode_lossy(toks[i + 1].as_slice());
                i += 2;
                let f = CommitFile { status: change, path, orig_path: Some(orig) };
                out.push(f);
                proof {
                    assert(file_views(out@) =~= file_views(before).push(f@));
                    assert(file_views(out@) + name_status(tv.subrange(i as int, tv.len() as int))
                        =~= file_views(before) + name_status(ts));
                }
            }
        } else if i >= toks.len() {
            done = true;
            proof {
                assert(file_views(out@) + Seq::<CommitFileV>::empty() =~= file_views(out@));
            }
        } else {
            proof {
                assert(ts.drop_first()[0] == toks@[i as int]@);
                assert(ts.drop_first().drop_first() =~= tv.subrange(i + 1, tv.len() as int));
            }
            let p = decode_lossy(toks[i].as_slice());
            i += 1;
            if p.as_str().is_empty() {
                continue;
            }
            let f = CommitFile { status: change, path: p, orig_path: None };
            out.push(f);
            proof {
                assert(file_views(out@) =~= file_views(before).push(f@));
                assert(file_views(out@) + name_status(tv.subrange(i as int, tv.len() as int))
                    =~= file_views(before) + name_status(ts));
            }
        }
    }
    proof {
        if !done {
            assert(tv.subrange(i as int, tv.len() as int) =~= Seq::<Seq<u8>>::empty());
            assert(file_views(out@) + Seq::<CommitFileV>::empty() =~= file_views(out@));
        }
    }
    out
}

proof fn lemma_splitn_front(a: Seq<char>, rest: Seq<char>, n: nat, c: char)
    requires
        n >= 2,
        !a.contains(c),
    ensures
        splitn_char(a + seq![c] + rest, n, c) == seq![a] + splitn_char(rest, (n - 1) as nat, c),
{
    let s = a + seq![c] + rest;
    crate::text::lemma_find_from_some(s, seq![c], 0);
    assert(s.subrange(a.len() as int, (a.len() + 1) as int) =~= seq![c]);
    assert(crate::text::occurs_at(s, seq![c], a.len() as int));
    match crate::text::find(s, seq![c]) {
        Some(k) => {
            if k < a.len() {
                assert(s.subrange(k as int, (k + 1) as int)[0] == s[k as int]);
                assert(s[k as int] == a[k as int]);
                assert(a.contains(c));
            }
            assert(k == a.len());
            assert(s.subrange(0, k as int) =~= a);
            assert(s.subrange((k + 1) as int, s.len() as int) =~= rest);
        },
        None => {},
    }
}

/// Commit details are read field by field in the order the format asks for
/// them (`%an %ae %ad %D %P %B`, separated by the unit separator): author,
/// email, date, refs, parents, then the message, which may itself hold the
/// separator.
pub proof fn law_meta_fields_in_format_order(
    author: Seq<char>,
    email: Seq<char>,
    date: Seq<char>,
    refs: Seq<char>,
    parents: Seq<char>,
    body: Seq<char>,
)
    requires
        !author.contains(us()),
        !email.contains(us()),
        !date.contains(us()),
        !refs.contains(us()),
        !parents.contains(us()),
    ensures
        ({
            let u = seq![us()];
            let m = parse_meta_spec(author + u + email + u + date + u + refs + u + parents + u + body);
            &&& m.author == author
            &&& m.email == email
            &&& m.date == date
            &&& m.refs == refs
            &&& m.parents == split_ws(parents)
            &&& m.body == trim_end(body)
        }),
{
    let c = us();
    let u = seq![c];
    let r4 = parents + u + body;
    let r3 = refs + u + r4;
    let r2 = date + u + r3;
    let r1 = email + u + r2;
    let s = author + u + r1;
    assert(author + u + email + u + date + u + refs + u + parents + u + body =~= s);
    lemma_splitn_front(author, r1, 6, c);
    lemma_splitn_front(email, r2, 5, c);
    lemma_splitn_front(date, r3, 4, c);
    lemma_splitn_front(refs, r4, 3, c);
    lemma_splitn_front(parents, body, 2, c);
    assert(splitn_char(body, 1, c) == seq![body]);
    let f = splitn_char(s, 6, c);
    assert(f =~= seq![author, email, date, refs, parents, body]);
}

}
