//! The recently opened repositories, kept as one path per line in a small
//! plain-text settings file. Reading and writing that file is left to the
//! caller; this module decides what the list holds.

use vstd::prelude::*;
use crate::text::{
    append_str, chars_eq, chars_of, cviews, join_terminated, lines, lines_exec, slice_of, split_char,
    split_char_exec, string_of, trim, trim_exec, views,
};

verus! {

/// How many recent repositories are remembered.
pub const MAX_RECENT: usize = 12;

/// The named components of a path's pieces: empty pieces (from repeated or
/// trailing slashes) and `.` pieces name nothing and are dropped.
pub open spec fn named_parts(pieces: Seq<Seq<char>>) -> Seq<Seq<char>>
    decreases pieces.len(),
{
    if pieces.len() == 0 {
        seq![]
    } else if pieces.last().len() == 0 || pieces.last() == "."@ {
        named_parts(pieces.drop_last())
    } else {
        named_parts(pieces.drop_last()).push(pieces.last())
    }
}

/// What path comparison looks at, for a path separated by `/` (a separator
/// on every platform): whether it starts at the root, whether it starts with
/// a `.` component, and its named components. So `/repo/`, `/repo` and
/// `/repo/.` are one path, and `/repo//x` is `/repo/x`.
pub open spec fn path_key(p: Seq<char>) -> (bool, bool, Seq<Seq<char>>) {
    let pieces = split_char(p, '/');
    (
        p.len() > 0 && p[0] == '/',
        pieces.len() > 0 && pieces[0] == "."@,
        named_parts(pieces),
    )
}

/// `a` and `b` name the same path.
pub open spec fn same_path(a: Seq<char>, b: Seq<char>) -> bool {
    path_key(a) == path_key(b)
}

/// The entries of `list` that are not the path `root`, in order.
pub open spec fn without(list: Seq<Seq<char>>, root: Seq<char>) -> Seq<Seq<char>>
    decreases list.len(),
{
    if list.len() == 0 {
        seq![]
    } else if same_path(list.last(), root) {
        without(list.drop_last(), root)
    } else {
        without(list.drop_last(), root).push(list.last())
    }
}

fn is_dot(v: &Vec<char>) -> (r: bool)
    ensures
        r == (v@ == "."@),
{
    proof {
        reveal_strlit(".");
    }
    if v.len() == 1 && v[0] == '.' {
        assert(v@ =~= "."@);
        true
    } else {
        false
    }
}

/// The named components of a path, as characters.
fn named_parts_exec(pieces: &Vec<Vec<char>>) -> (r: Vec<Vec<char>>)
    ensures
        cviews(r@) == named_parts(cviews(pieces@)),
{
    let ghost pv = cviews(pieces@);
    let mut out: Vec<Vec<char>> = Vec::new();
    let mut i: usize = 0;
    while i < pieces.len()
        invariant
            i <= pieces@.len(),
            pv == cviews(pieces@),
            cviews(out@) == named_parts(pv.subrange(0, i as int)),
        decreases pieces@.len() - i,
    {
        proof {
            assert(pv.subrange(0, i + 1).drop_last() =~= pv.subrange(0, i as int));
            assert(pv.subrange(0, i + 1).last() == pieces@[i as int]@);
        }
        if pieces[i].len() > 0 && !is_dot(&pieces[i]) {
            let ghost before = out@;
            let c = slice_of(&pieces[i], 0, pieces[i].len());
            assert(pieces@[i as int]@.subrange(0, pieces@[i as int]@.len() as int) =~= pieces@[i as int]@);
            out.push(c);
            assert(cviews(out@) =~= cviews(before).push(c@));
        }
        i += 1;
    }
    assert(pv.subrange(0, i as int) =~= pv);
    out
}

/// Two lists of components are equal.
fn parts_eq(a: &Vec<Vec<char>>, b: &Vec<Vec<char>>) -> (r: bool)
    ensures
        r == (cviews(a@) == cviews(b@)),
{
    if a.len() != b.len() {
        assert(cviews(a@).len() != cviews(b@).len());
        return false;
    }
    let mut i: usize = 0;
    while i < a.len()
        invariant
            a@.len() == b@.len(),
            i <= a@.len(),
            forall|k: int| 0 <= k < i ==> a@[k]@ == b@[k]@,
        decreases a@.len() - i,
    {
        if !chars_eq(&a[i], &b[i]) {
            assert(cviews(a@)[i as int] != cviews(b@)[i as int]);
            return false;
        }
        i += 1;
    }
    assert(cviews(a@) =~= cviews(b@));
    true
}

/// The path key of a path's text.
fn path_key_exec(p: &str) -> (r: (bool, bool, Vec<Vec<char>>))
    ensures
        path_key(p@) == (r.0, r.1, cviews(r.2@)),
{
    let v = chars_of(p);
    let pieces = split_char_exec(&v, '/');
    let rooted = v.len() > 0 && v[0] == '/';
    let cur = pieces.len() > 0 && is_dot(&pieces[0]);
    proof {
        if pieces.len() > 0 {
            assert(cviews(pieces@)[0] == pieces@[0]@);
        }
    }
    (rooted, cur, named_parts_exec(&pieces))
}

/// `a` and `b` name the same path; see `path_key`.
pub fn same_path_exec(a: &str, b: &str) -> (r: bool)
    ensures
        r == same_path(a@, b@),
{
    let ka = path_key_exec(a);
    let kb = path_key_exec(b);
    ka.0 == kb.0 && ka.1 == kb.1 && parts_eq(&ka.2, &kb.2)
}

/// The list after opening `root`: it moves to the front, any older mention
/// of it goes, and only the newest twelve are kept.
pub open spec fn recent_after(list: Seq<Seq<char>>, root: Seq<char>) -> Seq<Seq<char>> {
    let l = seq![root] + without(list, root);
    if l.len() > MAX_RECENT {
        l.subrange(0, MAX_RECENT as int)
    } else {
        l
    }
}

/// Puts `root` at the front of the recent list.
pub fn push_recent(list: &mut Vec<String>, root: &str)
    ensures
        views(final(list)@) == recent_after(views(old(list)@), root@),
{
    let r = chars_of(root);
    let mut kept: Vec<String> = Vec::new();
    kept.push(string_of(&r));
    let ghost lv = views(list@);
    let mut i: usize = 0;
    assert(views(kept@) =~= seq![root@] + without(lv.subrange(0, 0), root@));
    while i < list.len()
        invariant
            i <= list@.len(),
            lv == views(list@),
            r@ == root@,
            views(kept@) == seq![root@] + without(lv.subrange(0, i as int), root@),
        decreases list@.len() - i,
    {
        proof {
            assert(lv.subrange(0, i + 1).drop_last() =~= lv.subrange(0, i as int));
            assert(lv.subrange(0, i + 1).last() == list@[i as int]@);
        }
        if !same_path_exec(list[i].as_str(), root) {
            let ghost before = kept@;
            let s = list[i].clone();
            kept.push(s);
            assert(views(kept@) =~= views(before).push(list@[i as int]@));
        }
        i += 1;
    }
    assert(lv.subrange(0, i as int) =~= lv);
    if kept.len() > MAX_RECENT {
        kept.truncate(MAX_RECENT);
        assert(views(kept@) =~= (seq![root@] + without(lv, root@)).subrange(0, MAX_RECENT as int));
    }
    *list = kept;
}

/// The settings file's text for a recent list: each path on a line of its
/// own.
pub fn recent_text(list: &Vec<String>) -> (r: String)
    ensures
        r@ == join_terminated(views(list@), "\n"@),
{
    let mut s = String::new();
    let mut i: usize = 0;
    let ghost lv = views(list@);
    while i < list.len()
        invariant
            i <= list@.len(),
            lv == views(list@),
            s@ == join_terminated(lv.subrange(0, i as int), "\n"@),
        decreases list@.len() - i,
    {
        proof {
            assert(lv.subrange(0, i + 1).drop_last() =~= lv.subrange(0, i as int));
            assert(lv.subrange(0, i + 1).last() == list@[i as int]@);
        }
        append_str(&mut s, list[i].as_str());
        append_str(&mut s, "\n");
        i += 1;
    }
    assert(lv.subrange(0, i as int) =~= lv);
    s
}

/// The non-blank lines of the settings file, trimmed.
pub open spec fn recent_lines(ls: Seq<Seq<char>>) -> Seq<Seq<char>>
    decreases ls.len(),
{
    if ls.len() == 0 {
        seq![]
    } else if trim(ls.last()).len() == 0 {
        recent_lines(ls.drop_last())
    } else {
        recent_lines(ls.drop_last()).push(trim(ls.last()))
    }
}

/// The paths the settings file names, before checking which of them still
/// hold a repository.
pub fn recent_candidates(text: &str) -> (r: Vec<String>)
    ensures
        views(r@) == recent_lines(lines(text@)),
{
    let ls = lines_exec(&chars_of(text));
    let ghost lv = cviews(ls@);
    let mut v: Vec<String> = Vec::new();
    let mut i: usize = 0;
    while i < ls.len()
        invariant
            i <= ls@.len(),
            lv == cviews(ls@),
            views(v@) == recent_lines(lv.subrange(0, i as int)),
        decreases ls@.len() - i,
    {
        proof {
            assert(lv.subrange(0, i + 1).drop_last() =~= lv.subrange(0, i as int));
            assert(lv.subrange(0, i + 1).last() == ls@[i as int]@);
        }
        let t = trim_exec(&ls[i]);
        if t.len() > 0 {
            let ghost before = v@;
            let ts = string_of(&t);
            v.push(ts);
            assert(views(v@) =~= views(before).push(ts@));
        }
        i += 1;
    }
    assert(lv.subrange(0, i as int) =~= lv);
    v
}

proof fn lemma_without(list: Seq<Seq<char>>, root: Seq<char>)
    ensures
        forall|i: int| 0 <= i < without(list, root).len() ==> !same_path(#[trigger] without(list, root)[i], root),
        without(list, root).len() <= list.len(),
        forall|i: int| 0 <= i < without(list, root).len() ==> list.contains(#[trigger] without(list, root)[i]),
        forall|p: Seq<char>| list.contains(p) && !same_path(p, root) ==> without(list, root).contains(p),
    decreases list.len(),
{
    if list.len() > 0 {
        let u = list.drop_last();
        lemma_without(u, root);
        let w = without(list, root);
        let wu = without(u, root);
        assert forall|i: int| 0 <= i < w.len() implies list.contains(#[trigger] w[i]) by {
            if i < wu.len() {
                assert(w[i] == wu[i]);
                let j = choose|j: int| 0 <= j < u.len() && u[j] == wu[i];
                assert(list[j] == u[j]);
            } else {
                assert(list[list.len() - 1] == list.last());
            }
        }
        assert forall|p: Seq<char>| list.contains(p) && !same_path(p, root) implies w.contains(p) by {
            let j = choose|j: int| 0 <= j < list.len() && list[j] == p;
            if j < list.len() - 1 {
                assert(u[j] == p);
                assert(u.contains(p));
                let k = choose|k: int| 0 <= k < wu.len() && wu[k] == p;
                assert(w[k] == p);
            } else {
                assert(w[w.len() - 1] == p);
            }
        }
    }
}

/// Opening a repository puts it first in the recent list, names its path
/// only once (however its slashes were written), keeps at most twelve
/// entries, and drops none of the newer ones.
pub proof fn law_recent_front_unique_bounded(list: Seq<Seq<char>>, root: Seq<char>)
    ensures
        recent_after(list, root).len() >= 1,
        recent_after(list, root)[0] == root,
        recent_after(list, root).len() <= MAX_RECENT,
        forall|i: int| 1 <= i < recent_after(list, root).len() ==> !same_path(#[trigger] recent_after(list, root)[i], root),
        forall|i: int| 1 <= i < recent_after(list, root).len() ==> list.contains(#[trigger] recent_after(list, root)[i]),
        list.len() < MAX_RECENT ==> forall|p: Seq<char>| list.contains(p) && !same_path(p, root) ==> recent_after(list, root).contains(p),
{
    lemma_without(list, root);
    let w = without(list, root);
    let l = seq![root] + w;
    assert forall|i: int| 1 <= i < recent_after(list, root).len() implies !same_path(#[trigger] recent_after(list, root)[i], root)
        && list.contains(recent_after(list, root)[i]) by {
        assert(recent_after(list, root)[i] == l[i]);
        assert(l[i] == w[i - 1]);
    }
    if list.len() < MAX_RECENT {
        assert(l.len() <= MAX_RECENT);
        assert forall|p: Seq<char>| list.contains(p) && !same_path(p, root) implies recent_after(list, root).contains(p) by {
            let k = choose|k: int| 0 <= k < w.len() && w[k] == p;
            assert(l[k + 1] == p);
        }
    }
}

} // verus!
