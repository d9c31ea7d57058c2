//! Character-level text helpers shared by the parsers.
//!
//! Text is modelled as `Seq<char>`, the view vstd gives `String` and `&str`.
//! Every helper here states its result over that model.

use vstd::prelude::*;

verus! {

// ---------------------------------------------------------------------------
// Specifications
// ---------------------------------------------------------------------------

/// `p` is a prefix of `s`.
pub open spec fn starts_with(s: Seq<char>, p: Seq<char>) -> bool {
    p.len() <= s.len() && s.subrange(0, p.len() as int) == p
}

/// `p` is a suffix of `s`.
pub open spec fn ends_with(s: Seq<char>, p: Seq<char>) -> bool {
    p.len() <= s.len() && s.subrange(s.len() - p.len(), s.len() as int) == p
}

/// `p` occurs in `s` starting at index `i`.
pub open spec fn occurs_at(s: Seq<char>, p: Seq<char>, i: int) -> bool {
    0 <= i && i + p.len() <= s.len() && s.subrange(i, i + p.len()) == p
}

/// The first index at or after `i` where `p` occurs in `s`.
pub open spec fn find_from(s: Seq<char>, p: Seq<char>, i: nat) -> Option<nat>
    decreases s.len() + 1 - i,
{
    if i + p.len() > s.len() {
        None
    } else if occurs_at(s, p, i as int) {
        Some(i)
    } else {
        find_from(s, p, i + 1)
    }
}

/// The first index where `p` occurs in `s`.
pub open spec fn find(s: Seq<char>, p: Seq<char>) -> Option<nat> {
    find_from(s, p, 0)
}

/// `p` occurs somewhere in `s`.
pub open spec fn contains(s: Seq<char>, p: Seq<char>) -> bool {
    exists|i: int| occurs_at(s, p, i)
}

/// Splits at the first occurrence of `p`, as `str::split_once` does.
pub open spec fn split_once(s: Seq<char>, p: Seq<char>) -> Option<(Seq<char>, Seq<char>)> {
    match find(s, p) {
        Some(i) => Some((s.subrange(0, i as int), s.subrange((i + p.len()) as int, s.len() as int))),
        None => None,
    }
}

/// `s` with prefix `p` removed, as `str::strip_prefix` does.
pub open spec fn strip_prefix(s: Seq<char>, p: Seq<char>) -> Option<Seq<char>> {
    if starts_with(s, p) {
        Some(s.subrange(p.len() as int, s.len() as int))
    } else {
        None
    }
}

/// All pieces of `s` separated by `c`, as `str::split(c)` yields them.
pub open spec fn split_char(s: Seq<char>, c: char) -> Seq<Seq<char>>
    decreases s.len(),
{
    proof {
        lemma_find_from_some(s, seq![c], 0);
    }
    match find(s, seq![c]) {
        Some(i) => seq![s.subrange(0, i as int)] + split_char(
            s.subrange((i + 1) as int, s.len() as int),
            c,
        ),
        None => seq![s],
    }
}

/// At most `n` pieces of `s` separated by `c`, the last holding the rest, as
/// `str::splitn(n, c)` yields them.
pub open spec fn splitn_char(s: Seq<char>, n: nat, c: char) -> Seq<Seq<char>>
    decreases n,
{
    if n == 0 {
        seq![]
    } else if n == 1 {
        seq![s]
    } else {
        match find(s, seq![c]) {
            Some(i) => seq![s.subrange(0, i as int)] + splitn_char(
                s.subrange((i + 1) as int, s.len() as int),
                (n - 1) as nat,
                c,
            ),
            None => seq![s],
        }
    }
}

/// Unicode `White_Space`, the property `char::is_whitespace` tests.
pub open spec fn is_ws(c: char) -> bool {
    ||| ('\t' <= c && c <= '\r')
    ||| c == ' '
    ||| c == '\u{85}'
    ||| c == '\u{a0}'
    ||| c == '\u{1680}'
    ||| ('\u{2000}' <= c && c <= '\u{200a}')
    ||| c == '\u{2028}'
    ||| c == '\u{2029}'
    ||| c == '\u{202f}'
    ||| c == '\u{205f}'
    ||| c == '\u{3000}'
}

/// Number of leading characters of `s` satisfying `f`.
pub open spec fn lead_count(s: Seq<char>, f: spec_fn(char) -> bool) -> nat
    decreases s.len(),
{
    if s.len() > 0 && f(s[0]) {
        1 + lead_count(s.drop_first(), f)
    } else {
        0
    }
}

/// Number of trailing characters of `s` satisfying `f`.
pub open spec fn trail_count(s: Seq<char>, f: spec_fn(char) -> bool) -> nat
    decreases s.len(),
{
    if s.len() > 0 && f(s.last()) {
        1 + trail_count(s.drop_last(), f)
    } else {
        0
    }
}

/// `s` without leading characters satisfying `f`.
pub open spec fn trim_start_by(s: Seq<char>, f: spec_fn(char) -> bool) -> Seq<char> {
    s.subrange(lead_count(s, f) as int, s.len() as int)
}

/// `s` without trailing characters satisfying `f`.
pub open spec fn trim_end_by(s: Seq<char>, f: spec_fn(char) -> bool) -> Seq<char> {
    s.subrange(0, s.len() - trail_count(s, f))
}

/// `str::trim`: no leading or trailing whitespace.
pub open spec fn trim(s: Seq<char>) -> Seq<char> {
    trim_end_by(trim_start_by(s, |c: char| is_ws(c)), |c: char| is_ws(c))
}

/// `str::trim_end`.
pub open spec fn trim_end(s: Seq<char>) -> Seq<char> {
    trim_end_by(s, |c: char| is_ws(c))
}

/// Line-break characters, trimmed off record boundaries.
pub open spec fn is_cr_lf(c: char) -> bool {
    c == '\n' || c == '\r'
}

/// A decimal digit.
pub open spec fn is_digit(c: char) -> bool {
    '0' <= c && c <= '9'
}

/// The value of a string of decimal digits.
pub open spec fn digits_value(s: Seq<char>) -> nat
    decreases s.len(),
{
    if s.len() == 0 {
        0
    } else {
        digits_value(s.drop_last()) * 10 + ((s.last() as nat) - ('0' as nat)) as nat
    }
}

/// Every character is a decimal digit.
pub open spec fn all_digits(s: Seq<char>) -> bool {
    forall|i: int| 0 <= i < s.len() ==> is_digit(#[trigger] s[i])
}

/// `s` without one leading `+`, as integer parsing accepts it.
pub open spec fn unsigned_body(s: Seq<char>) -> Seq<char> {
    if s.len() > 0 && s[0] == '+' {
        s.drop_first()
    } else {
        s
    }
}

/// What `str::parse::<u32>` returns, `None` standing for its error.
pub open spec fn parse_u32(s: Seq<char>) -> Option<u32> {
    let t = unsigned_body(s);
    if t.len() > 0 && all_digits(t) && digits_value(t) <= u32::MAX {
        Some(digits_value(t) as u32)
    } else {
        None
    }
}

/// What `str::parse::<i64>` returns, `None` standing for its error.
pub open spec fn parse_i64(s: Seq<char>) -> Option<i64> {
    if s.len() > 0 && s[0] == '-' {
        let t = s.drop_first();
        if t.len() > 0 && all_digits(t) && digits_value(t) <= 0x8000_0000_0000_0000 {
            Some((0 - digits_value(t)) as i64)
        } else {
            None
        }
    } else {
        let t = unsigned_body(s);
        if t.len() > 0 && all_digits(t) && digits_value(t) <= i64::MAX {
            Some(digits_value(t) as i64)
        } else {
            None
        }
    }
}

/// The decimal rendering of `n`, as `format!("{n}")` gives it.
pub open spec fn decimal(n: nat) -> Seq<char>
    decreases n,
{
    if n < 10 {
        seq![digit_char(n)]
    } else {
        decimal(n / 10).push(digit_char(n % 10))
    }
}

/// The digit character for `d < 10`.
pub open spec fn digit_char(d: nat) -> char {
    if d == 0 { '0' }
    else if d == 1 { '1' }
    else if d == 2 { '2' }
    else if d == 3 { '3' }
    else if d == 4 { '4' }
    else if d == 5 { '5' }
    else if d == 6 { '6' }
    else if d == 7 { '7' }
    else if d == 8 { '8' }
    else { '9' }
}

/// The signed decimal rendering of `n`.
pub open spec fn signed_decimal(n: int) -> Seq<char> {
    if n < 0 {
        seq!['-'] + decimal((-n) as nat)
    } else {
        decimal(n as nat)
    }
}

/// Concatenation of `parts`, each followed by `sep`.
pub open spec fn join_terminated(parts: Seq<Seq<char>>, sep: Seq<char>) -> Seq<char>
    decreases parts.len(),
{
    if parts.len() == 0 {
        seq![]
    } else {
        join_terminated(parts.drop_last(), sep) + parts.last() + sep
    }
}

/// Concatenation of `parts` with `sep` between neighbours.
pub open spec fn join(parts: Seq<Seq<char>>, sep: Seq<char>) -> Seq<char>
    decreases parts.len(),
{
    if parts.len() == 0 {
        seq![]
    } else if parts.len() == 1 {
        parts[0]
    } else {
        join(parts.drop_last(), sep) + sep + parts.last()
    }
}

/// The text views of a sequence of strings.
pub open spec fn views(v: Seq<String>) -> Seq<Seq<char>> {
    v.map_values(|s: String| s@)
}

// ---------------------------------------------------------------------------
// Lemmas
// ---------------------------------------------------------------------------

pub proof fn lemma_find_from_some(s: Seq<char>, p: Seq<char>, i: nat)
    ensures
        match find_from(s, p, i) {
            Some(k) => i <= k && occurs_at(s, p, k as int) && forall|j: int|
                i <= j < k ==> !occurs_at(s, p, j),
            None => forall|j: int| i <= j ==> !occurs_at(s, p, j),
        },
    decreases s.len() + 1 - i,
{
    if i + p.len() > s.len() {
    } else if occurs_at(s, p, i as int) {
    } else {
        lemma_find_from_some(s, p, i + 1);
    }
}

pub proof fn lemma_find_contains(s: Seq<char>, p: Seq<char>)
    ensures
        find(s, p) is Some <==> contains(s, p),
{
    lemma_find_from_some(s, p, 0);
    if contains(s, p) {
        let j = choose|j: int| occurs_at(s, p, j);
        assert(0 <= j);
    }
}

pub proof fn lemma_decimal_nonempty(n: nat)
    ensures
        decimal(n).len() >= 1,
    decreases n,
{
    if n >= 10 {
        lemma_decimal_nonempty(n / 10);
    }
}

// ---------------------------------------------------------------------------
// Executable helpers
// ---------------------------------------------------------------------------

/// Appends one character to a string (std `String::push`).
#[verifier::external_body]
pub(crate) fn push_char(s: &mut String, c: char)
    ensures
        final(s)@ == old(s)@.push(c),
{
    s.push(c);
}

/// The characters of a string slice, in order.
pub fn chars_of(s: &str) -> (v: Vec<char>)
    ensures
        v@ == s@,
{
    let mut v: Vec<char> = Vec::new();
    for c in it: s.chars()
        invariant
            v@ == it.seq().take(it.index() as int),
            it.seq() == s@,
    {
        v.push(c);
    }
    v
}

/// The string made of `v[lo..hi]`.
pub fn string_of_range(v: &Vec<char>, lo: usize, hi: usize) -> (s: String)
    requires
        lo <= hi <= v@.len(),
    ensures
        s@ == v@.subrange(lo as int, hi as int),
{
    let mut s = String::new();
    let mut i = lo;
    while i < hi
        invariant
            lo <= i <= hi <= v@.len(),
            s@ == v@.subrange(lo as int, i as int),
        decreases hi - i,
    {
        push_char(&mut s, v[i]);
        i += 1;
        assert(s@ =~= v@.subrange(lo as int, i as int));
    }
    s
}

/// The string made of all of `v`.
pub fn string_of(v: &Vec<char>) -> (s: String)
    ensures
        s@ == v@,
{
    let s = string_of_range(v, 0, v.len());
    assert(v@.subrange(0, v@.len() as int) =~= v@);
    s
}

/// `v[lo..hi]` as a new vector.
pub fn slice_of(v: &Vec<char>, lo: usize, hi: usize) -> (r: Vec<char>)
    requires
        lo <= hi <= v@.len(),
    ensures
        r@ == v@.subrange(lo as int, hi as int),
{
    let mut r: Vec<char> = Vec::new();
    let mut i = lo;
    while i < hi
        invariant
            lo <= i <= hi <= v@.len(),
            r@ == v@.subrange(lo as int, i as int),
        decreases hi - i,
    {
        r.push(v[i]);
        i += 1;
        assert(r@ =~= v@.subrange(lo as int, i as int));
    }
    r
}

/// Appends all of `w` to `s`.
pub fn append_chars(s: &mut String, w: &Vec<char>)
    ensures
        final(s)@ == old(s)@ + w@,
{
    let mut i: usize = 0;
    while i < w.len()
        invariant
            i <= w@.len(),
            s@ == old(s)@ + w@.subrange(0, i as int),
        decreases w@.len() - i,
    {
        push_char(s, w[i]);
        i += 1;
        assert(s@ =~= old(s)@ + w@.subrange(0, i as int));
    }
    assert(w@.subrange(0, w@.len() as int) =~= w@);
}

/// Appends all of `w` to `s`.
pub fn append_str(s: &mut String, w: &str)
    ensures
        final(s)@ == old(s)@ + w@,
{
    let cs = chars_of(w);
    append_chars(s, &cs);
}

/// Appends all of `w` to `v`.
pub fn extend_chars(v: &mut Vec<char>, w: &Vec<char>)
    ensures
        final(v)@ == old(v)@ + w@,
{
    let mut i: usize = 0;
    while i < w.len()
        invariant
            i <= w@.len(),
            v@ == old(v)@ + w@.subrange(0, i as int),
        decreases w@.len() - i,
    {
        v.push(w[i]);
        i += 1;
        assert(v@ =~= old(v)@ + w@.subrange(0, i as int));
    }
    assert(w@.subrange(0, w@.len() as int) =~= w@);
}

/// Whether two character vectors are equal.
pub fn chars_eq(a: &Vec<char>, b: &Vec<char>) -> (r: bool)
    ensures
        r == (a@ == b@),
{
    if a.len() != b.len() {
        return false;
    }
    let mut i: usize = 0;
    while i < a.len()
        invariant
            i <= a@.len() == b@.len(),
            a@.subrange(0, i as int) == b@.subrange(0, i as int),
        decreases a@.len() - i,
    {
        if a[i] != b[i] {
            assert(a@[i as int] != b@[i as int]);
            return false;
        }
        i += 1;
        assert(a@.subrange(0, i as int) =~= a@.subrange(0, i - 1 as int).push(a@[i - 1]));
        assert(b@.subrange(0, i as int) =~= b@.subrange(0, i - 1 as int).push(b@[i - 1]));
    }
    assert(a@ =~= a@.subrange(0, i as int));
    assert(b@ =~= b@.subrange(0, i as int));
    true
}

/// Whether `p` occurs in `s` at index `i`.
pub fn occurs_at_exec(s: &Vec<char>, p: &Vec<char>, i: usize) -> (r: bool)
    ensures
        r == occurs_at(s@, p@, i as int),
{
    if i > s.len() || p.len() > s.len() - i {
        return false;
    }
    let mut k: usize = 0;
    while k < p.len()
        invariant
            i + p@.len() <= s@.len(),
            k <= p@.len(),
            forall|j: int| 0 <= j < k ==> s@[i + j] == p@[j],
        decreases p@.len() - k,
    {
        assert(i + k < s.len());
        if s[i + k] != p[k] {
            assert(s@.subrange(i as int, i + p@.len())[k as int] != p@[k as int]);
            return false;
        }
        k += 1;
    }
    assert(s@.subrange(i as int, i + p@.len()) =~= p@);
    true
}

/// Whether `s` starts with `p`.
pub fn starts_with_exec(s: &Vec<char>, p: &Vec<char>) -> (r: bool)
    ensures
        r == starts_with(s@, p@),
{
    occurs_at_exec(s, p, 0)
}

/// Whether `s` starts with the literal `p`.
pub fn starts_with_str(s: &Vec<char>, p: &str) -> (r: bool)
    ensures
        r == starts_with(s@, p@),
{
    let pc = chars_of(p);
    starts_with_exec(s, &pc)
}

/// Whether `s` ends with `p`.
pub fn ends_with_exec(s: &Vec<char>, p: &Vec<char>) -> (r: bool)
    ensures
        r == ends_with(s@, p@),
{
    if p.len() > s.len() {
        return false;
    }
    occurs_at_exec(s, p, s.len() - p.len())
}

/// The first index at or after `from` where `p` occurs in `s`.
pub fn find_from_exec(s: &Vec<char>, p: &Vec<char>, from: usize) -> (r: Option<usize>)
    ensures
        match r {
            Some(k) => find_from(s@, p@, from as nat) == Some(k as nat),
            None => find_from(s@, p@, from as nat) is None,
        },
{
    if p.len() == 0 {
        if from <= s.len() {
            assert(s@.subrange(from as int, from as int) =~= p@);
            return Some(from);
        }
        return None;
    }
    let mut i = from;
    while p.len() <= s.len() && i <= s.len() - p.len()
        invariant
            from <= i,
            p@.len() >= 1,
            find_from(s@, p@, from as nat) == find_from(s@, p@, i as nat),
        decreases s@.len() + 1 - i,
    {
        if occurs_at_exec(s, p, i) {
            return Some(i);
        }
        i += 1;
    }
    None
}

/// The first index where `p` occurs in `s`.
pub fn find_exec(s: &Vec<char>, p: &Vec<char>) -> (r: Option<usize>)
    ensures
        match r {
            Some(k) => find(s@, p@) == Some(k as nat),
            None => find(s@, p@) is None,
        },
{
    find_from_exec(s, p, 0)
}

/// Whether `p` occurs in `s`.
pub fn contains_exec(s: &Vec<char>, p: &Vec<char>) -> (r: bool)
    ensures
        r == contains(s@, p@),
{
    proof {
        lemma_find_contains(s@, p@);
    }
    find_exec(s, p).is_some()
}

/// Whether the literal `p` occurs in `s`.
pub fn contains_str(s: &Vec<char>, p: &str) -> (r: bool)
    ensures
        r == contains(s@, p@),
{
    let pc = chars_of(p);
    contains_exec(s, &pc)
}

/// `str::split_once`.
pub fn split_once_exec(s: &Vec<char>, p: &Vec<char>) -> (r: Option<(Vec<char>, Vec<char>)>)
    ensures
        match (r, split_once(s@, p@)) {
            (Some((a, b)), Some((x, y))) => a@ == x && b@ == y,
            (None, None) => true,
            _ => false,
        },
{
    match find_exec(s, p) {
        Some(i) => {
            proof {
                lemma_find_from_some(s@, p@, 0);
                assert(occurs_at(s@, p@, i as int));
                assert(i + p.len() <= s.len());
            }
            let a = slice_of(s, 0, i);
            let b = slice_of(s, i + p.len(), s.len());
            Some((a, b))
        },
        None => None,
    }
}

/// `str::strip_prefix`.
pub fn strip_prefix_exec(s: &Vec<char>, p: &Vec<char>) -> (r: Option<Vec<char>>)
    ensures
        match (r, strip_prefix(s@, p@)) {
            (Some(a), Some(x)) => a@ == x,
            (None, None) => true,
            _ => false,
        },
{
    if starts_with_exec(s, p) {
        Some(slice_of(s, p.len(), s.len()))
    } else {
        None
    }
}

/// `str::strip_prefix` with a literal.
pub fn strip_prefix_str(s: &Vec<char>, p: &str) -> (r: Option<Vec<char>>)
    ensures
        match (r, strip_prefix(s@, p@)) {
            (Some(a), Some(x)) => a@ == x,
            (None, None) => true,
            _ => false,
        },
{
    let pc = chars_of(p);
    strip_prefix_exec(s, &pc)
}

/// Whether `c` is Unicode white space.
pub fn is_ws_exec(c: char) -> (r: bool)
    ensures
        r == is_ws(c),
{
    ('\t' <= c && c <= '\r') || c == ' ' || c == '\u{85}' || c == '\u{a0}' || c == '\u{1680}'
        || ('\u{2000}' <= c && c <= '\u{200a}') || c == '\u{2028}' || c == '\u{2029}' || c
        == '\u{202f}' || c == '\u{205f}' || c == '\u{3000}'
}

proof fn lemma_lead_count_ws(s: Seq<char>, i: int)
    requires
        0 <= i <= s.len(),
        forall|j: int| 0 <= j < i ==> is_ws(#[trigger] s[j]),
        i == s.len() || !is_ws(s[i]),
    ensures
        lead_count(s, |c: char| is_ws(c)) == i,
    decreases i,
{
    if i > 0 {
        assert forall|j: int| 0 <= j < i - 1 implies is_ws(#[trigger] s.drop_first()[j]) by {
            assert(s.drop_first()[j] == s[j + 1]);
        }
        if i - 1 < s.drop_first().len() {
            assert(s.drop_first()[i - 1] == s[i]);
        }
        lemma_lead_count_ws(s.drop_first(), i - 1);
    }
}

proof fn lemma_trail_count_ws(s: Seq<char>, i: int)
    requires
        0 <= i <= s.len(),
        forall|j: int| s.len() - i <= j < s.len() ==> is_ws(#[trigger] s[j]),
        i == s.len() || !is_ws(s[s.len() - i - 1]),
    ensures
        trail_count(s, |c: char| is_ws(c)) == i,
    decreases i,
{
    if i > 0 {
        let t = s.drop_last();
        assert forall|j: int| t.len() - (i - 1) <= j < t.len() implies is_ws(#[trigger] t[j]) by {
            assert(t[j] == s[j]);
        }
        if i - 1 < t.len() {
            assert(t[t.len() - (i - 1) - 1] == s[s.len() - i - 1]);
        }
        assert(is_ws(s[s.len() - 1]));
        lemma_trail_count_ws(t, i - 1);
    }
}

/// `str::trim_start` on `v[lo..hi]`: the first index that is not white space.
pub fn skip_ws(v: &Vec<char>, lo: usize, hi: usize) -> (r: usize)
    requires
        lo <= hi <= v@.len(),
    ensures
        lo <= r <= hi,
        r - lo == lead_count(v@.subrange(lo as int, hi as int), |c: char| is_ws(c)),
{
    let mut i = lo;
    while i < hi && is_ws_exec(v[i])
        invariant
            lo <= i <= hi <= v@.len(),
            forall|j: int| lo <= j < i ==> is_ws(#[trigger] v@[j]),
        decreases hi - i,
    {
        i += 1;
    }
    proof {
        let s = v@.subrange(lo as int, hi as int);
        assert forall|j: int| 0 <= j < i - lo implies is_ws(#[trigger] s[j]) by {
            assert(s[j] == v@[lo + j]);
        }
        if i < hi {
            assert(s[i - lo] == v@[i as int]);
        }
        lemma_lead_count_ws(s, i - lo);
    }
    i
}

/// `str::trim_end` on `v[lo..hi]`: one past the last index that is not white space.
pub fn skip_ws_back(v: &Vec<char>, lo: usize, hi: usize) -> (r: usize)
    requires
        lo <= hi <= v@.len(),
    ensures
        lo <= r <= hi,
        hi - r == trail_count(v@.subrange(lo as int, hi as int), |c: char| is_ws(c)),
{
    let mut i = hi;
    while i > lo && is_ws_exec(v[i - 1])
        invariant
            lo <= i <= hi <= v@.len(),
            forall|j: int| i <= j < hi ==> is_ws(#[trigger] v@[j]),
        decreases i - lo,
    {
        i -= 1;
    }
    proof {
        let s = v@.subrange(lo as int, hi as int);
        assert forall|j: int| s.len() - (hi - i) <= j < s.len() implies is_ws(#[trigger] s[j]) by {
            assert(s[j] == v@[lo + j]);
        }
        if i > lo {
            assert(s[s.len() - (hi - i) - 1] == v@[i - 1]);
        }
        lemma_trail_count_ws(s, hi - i);
    }
    i
}

/// `str::trim`.
pub fn trim_exec(v: &Vec<char>) -> (r: Vec<char>)
    ensures
        r@ == trim(v@),
{
    let a = skip_ws(v, 0, v.len());
    let b = skip_ws_back(v, a, v.len());
    proof {
        let s = v@;
        assert(s.subrange(0, s.len() as int) =~= s);
        let t = trim_start_by(s, |c: char| is_ws(c));
        assert(t =~= v@.subrange(a as int, v@.len() as int));
        assert(trim_end_by(t, |c: char| is_ws(c)) =~= v@.subrange(a as int, b as int));
    }
    slice_of(v, a, b)
}

/// `str::trim_end`.
pub fn trim_end_exec(v: &Vec<char>) -> (r: Vec<char>)
    ensures
        r@ == trim_end(v@),
{
    let b = skip_ws_back(v, 0, v.len());
    proof {
        assert(v@.subrange(0, v@.len() as int) =~= v@);
    }
    slice_of(v, 0, b)
}

/// Whether `c` is a line-break character.
pub fn is_cr_lf_exec(c: char) -> (r: bool)
    ensures
        r == is_cr_lf(c),
{
    c == '\n' || c == '\r'
}

proof fn lemma_lead_count_crlf(s: Seq<char>, i: int)
    requires
        0 <= i <= s.len(),
        forall|j: int| 0 <= j < i ==> is_cr_lf(#[trigger] s[j]),
        i == s.len() || !is_cr_lf(s[i]),
    ensures
        lead_count(s, |c: char| is_cr_lf(c)) == i,
    decreases i,
{
    if i > 0 {
        assert forall|j: int| 0 <= j < i - 1 implies is_cr_lf(#[trigger] s.drop_first()[j]) by {
            assert(s.drop_first()[j] == s[j + 1]);
        }
        if i - 1 < s.drop_first().len() {
            assert(s.drop_first()[i - 1] == s[i]);
        }
        lemma_lead_count_crlf(s.drop_first(), i - 1);
    }
}

proof fn lemma_trail_count_crlf(s: Seq<char>, i: int)
    requires
        0 <= i <= s.len(),
        forall|j: int| s.len() - i <= j < s.len() ==> is_cr_lf(#[trigger] s[j]),
        i == s.len() || !is_cr_lf(s[s.len() - i - 1]),
    ensures
        trail_count(s, |c: char| is_cr_lf(c)) == i,
    decreases i,
{
    if i > 0 {
        let t = s.drop_last();
        assert forall|j: int| t.len() - (i - 1) <= j < t.len() implies is_cr_lf(#[trigger] t[j]) by {
            assert(t[j] == s[j]);
        }
        if i - 1 < t.len() {
            assert(t[t.len() - (i - 1) - 1] == s[s.len() - i - 1]);
        }
        assert(is_cr_lf(s[s.len() - 1]));
        lemma_trail_count_crlf(t, i - 1);
    }
}

/// `trim_start_matches(['\n', '\r'])`.
pub fn trim_start_crlf(v: &Vec<char>) -> (r: Vec<char>)
    ensures
        r@ == trim_start_by(v@, |c: char| is_cr_lf(c)),
{
    let mut i: usize = 0;
    while i < v.len() && is_cr_lf_exec(v[i])
        invariant
            i <= v@.len(),
            forall|j: int| 0 <= j < i ==> is_cr_lf(#[trigger] v@[j]),
        decreases v@.len() - i,
    {
        i += 1;
    }
    proof {
        lemma_lead_count_crlf(v@, i as int);
    }
    slice_of(v, i, v.len())
}

/// `trim_matches(['\n', '\r'])`.
pub fn trim_crlf(v: &Vec<char>) -> (r: Vec<char>)
    ensures
        r@ == trim_end_by(trim_start_by(v@, |c: char| is_cr_lf(c)), |c: char| is_cr_lf(c)),
{
    let t = trim_start_crlf(v);
    let mut i: usize = t.len();
    while i > 0 && is_cr_lf_exec(t[i - 1])
        invariant
            i <= t@.len(),
            forall|j: int| i <= j < t@.len() ==> is_cr_lf(#[trigger] t@[j]),
        decreases i,
    {
        i -= 1;
    }
    proof {
        lemma_trail_count_crlf(t@, t@.len() - i);
    }
    slice_of(&t, 0, i)
}

/// The text views of a sequence of character vectors.
pub open spec fn cviews(v: Seq<Vec<char>>) -> Seq<Seq<char>> {
    v.map_values(|x: Vec<char>| x@)
}

/// Where `c` first occurs in `t`, given the first index `k` holding it (or
/// the length when none does).
pub proof fn lemma_find_first_char(t: Seq<char>, c: char, k: int)
    requires
        0 <= k <= t.len(),
        forall|j: int| 0 <= j < k ==> t[j] != c,
        k < t.len() ==> t[k] == c,
    ensures
        find(t, seq![c]) == (if k < t.len() { Some(k as nat) } else { None::<nat> }),
{
    lemma_find_from_some(t, seq![c], 0);
    assert forall|i: int| #[trigger] occurs_at(t, seq![c], i) <==> (0 <= i < t.len() && t[i] == c) by {
        if 0 <= i < t.len() {
            assert(t.subrange(i, i + 1) =~= seq![t[i]]);
            assert(seq![t[i]][0] == t[i]);
            assert(seq![c][0] == c);
            if t[i] == c {
                assert(seq![t[i]] =~= seq![c]);
            }
        }
    }
    match find(t, seq![c]) {
        Some(m) => {
            assert(occurs_at(t, seq![c], m as int));
            if k < t.len() {
                assert(occurs_at(t, seq![c], k));
            }
        },
        None => {
            if k < t.len() {
                assert(occurs_at(t, seq![c], k));
            }
        },
    }
}

/// `str::split(c)`, every piece.
pub fn split_char_exec(s: &Vec<char>, c: char) -> (r: Vec<Vec<char>>)
    ensures
        cviews(r@) == split_char(s@, c),
{
    let mut out: Vec<Vec<char>> = Vec::new();
    let mut cur: Vec<char> = Vec::new();
    let mut start: usize = 0;
    let mut i: usize = 0;
    assert(s@.subrange(0, s@.len() as int) =~= s@);
    while i < s.len()
        invariant
            start <= i <= s@.len(),
            cur@ == s@.subrange(start as int, i as int),
            forall|j: int| start <= j < i ==> s@[j] != c,
            split_char(s@, c) == cviews(out@) + split_char(s@.subrange(start as int, s@.len() as int), c),
        decreases s@.len() - i,
    {
        let ghost t = s@.subrange(start as int, s@.len() as int);
        if s[i] == c {
            proof {
                assert forall|j: int| 0 <= j < i - start implies t[j] != c by {
                    assert(t[j] == s@[start + j]);
                }
                lemma_find_first_char(t, c, i - start);
                assert(t.subrange(0, i - start) =~= cur@);
                assert(t.subrange(i - start + 1, t.len() as int) =~= s@.subrange(i + 1, s@.len() as int));
            }
            let ghost before = out@;
            out.push(cur);
            proof {
                assert(cviews(out@) =~= cviews(before).push(cur@));
            }
            cur = Vec::new();
            i += 1;
            start = i;
            assert(cur@ =~= s@.subrange(start as int, i as int));
        } else {
            cur.push(s[i]);
            i += 1;
            assert(cur@ =~= s@.subrange(start as int, i as int));
        }
    }
    proof {
        let t = s@.subrange(start as int, s@.len() as int);
        assert forall|j: int| 0 <= j < t.len() implies t[j] != c by {
            assert(t[j] == s@[start + j]);
        }
        lemma_find_first_char(t, c, t.len() as int);
        assert(t =~= cur@);
    }
    let ghost before = out@;
    out.push(cur);
    proof {
        assert(cviews(out@) =~= cviews(before).push(cur@));
    }
    out
}

/// `t` without one trailing carriage return.
pub open spec fn strip_cr(t: Seq<char>) -> Seq<char> {
    if t.len() > 0 && t.last() == '\r' {
        t.drop_last()
    } else {
        t
    }
}

/// The lines `str::lines` yields: the text is cut after each `\n`, which is
/// removed together with a `\r` just before it; a final newline starts no
/// further line, and an empty text has none.
pub open spec fn lines(s: Seq<char>) -> Seq<Seq<char>>
    decreases s.len(),
{
    if s.len() == 0 {
        seq![]
    } else {
        proof {
            lemma_find_from_some(s, seq!['\n'], 0);
        }
        match find(s, seq!['\n']) {
            Some(i) => seq![strip_cr(s.subrange(0, i as int))] + lines(
                s.subrange((i + 1) as int, s.len() as int),
            ),
            None => seq![s],
        }
    }
}

/// `str::lines`.
pub fn lines_exec(s: &Vec<char>) -> (r: Vec<Vec<char>>)
    ensures
        cviews(r@) == lines(s@),
{
    let mut out: Vec<Vec<char>> = Vec::new();
    let mut cur: Vec<char> = Vec::new();
    let mut start: usize = 0;
    let mut i: usize = 0;
    assert(s@.subrange(0, s@.len() as int) =~= s@);
    while i < s.len()
        invariant
            start <= i <= s@.len(),
            cur@ == s@.subrange(start as int, i as int),
            forall|j: int| start <= j < i ==> s@[j] != '\n',
            lines(s@) == cviews(out@) + lines(s@.subrange(start as int, s@.len() as int)),
        decreases s@.len() - i,
    {
        let ghost t = s@.subrange(start as int, s@.len() as int);
        if s[i] == '\n' {
            proof {
                assert forall|j: int| 0 <= j < i - start implies t[j] != '\n' by {
                    assert(t[j] == s@[start + j]);
                }
                lemma_find_first_char(t, '\n', i - start);
                assert(t.subrange(0, i - start) =~= cur@);
                assert(t.subrange(i - start + 1, t.len() as int) =~= s@.subrange(i + 1, s@.len() as int));
            }
            let ghost raw = cur@;
            let n = cur.len();
            if n > 0 && cur[n - 1] == '\r' {
                cur.pop();
                assert(cur@ =~= raw.drop_last());
            }
            let ghost before = out@;
            out.push(cur);
            proof {
                assert(cviews(out@) =~= cviews(before).push(strip_cr(raw)));
            }
            cur = Vec::new();
            i += 1;
            start = i;
            assert(cur@ =~= s@.subrange(start as int, i as int));
        } else {
            cur.push(s[i]);
            i += 1;
            assert(cur@ =~= s@.subrange(start as int, i as int));
        }
    }
    proof {
        let t = s@.subrange(start as int, s@.len() as int);
        assert forall|j: int| 0 <= j < t.len() implies t[j] != '\n' by {
            assert(t[j] == s@[start + j]);
        }
        lemma_find_first_char(t, '\n', t.len() as int);
        assert(t =~= cur@);
    }
    if start < s.len() {
        let ghost before = out@;
        out.push(cur);
        proof {
            assert(cviews(out@) =~= cviews(before).push(cur@));
        }
    } else {
        assert(cviews(out@) + Seq::<Seq<char>>::empty() =~= cviews(out@));
    }
    out
}

/// `str::splitn(n, c)`.
pub fn splitn_char_exec(s: &Vec<char>, n: usize, c: char) -> (r: Vec<Vec<char>>)
    requires
        n >= 1,
    ensures
        cviews(r@) == splitn_char(s@, n as nat, c),
{
    let sep = vec![c];
    let mut out: Vec<Vec<char>> = Vec::new();
    let mut start: usize = 0;
    let mut done = false;
    let mut rem: usize = n;
    assert(s@.subrange(0, s@.len() as int) =~= s@);
    while !done
        invariant
            start <= s@.len(),
            sep@ == seq![c],
            !done ==> rem >= 1,
            !done ==> splitn_char(s@, n as nat, c) == cviews(out@) + splitn_char(
                s@.subrange(start as int, s@.len() as int),
                rem as nat,
                c,
            ),
            done ==> splitn_char(s@, n as nat, c) == cviews(out@),
        decreases (s@.len() - start) * 2 + (if done { 0int } else { 1int }),
    {
        let rest = slice_of(s, start, s.len());
        let ghost prev = out@;
        if rem == 1 {
            out.push(rest);
            proof {
                assert(cviews(out@) =~= cviews(prev) + splitn_char(rest@, 1, c));
            }
            done = true;
        } else {
            match find_exec(&rest, &sep) {
                Some(i) => {
                    proof {
                        lemma_find_from_some(rest@, sep@, 0);
                    }
                    let piece = slice_of(&rest, 0, i);
                    out.push(piece);
                    proof {
                        assert(cviews(out@) =~= cviews(prev).push(piece@));
                        assert(rest@.subrange(i + 1, rest@.len() as int) =~= s@.subrange(
                            start + i + 1,
                            s@.len() as int,
                        ));
                        assert(cviews(out@) + splitn_char(
                            s@.subrange(start + i + 1, s@.len() as int),
                            (rem - 1) as nat,
                            c,
                        ) =~= cviews(prev) + splitn_char(rest@, rem as nat, c));
                    }
                    start = start + i + 1;
                    rem = rem - 1;
                },
                None => {
                    out.push(rest);
                    proof {
                        assert(cviews(out@) =~= cviews(prev) + splitn_char(rest@, rem as nat, c));
                    }
                    done = true;
                },
            }
        }
    }
    out
}


// ---------------------------------------------------------------------------
// Numbers
// ---------------------------------------------------------------------------

proof fn lemma_digits_push(x: Seq<char>, d: char)
    ensures
        digits_value(x.push(d)) == digits_value(x) * 10 + ((d as nat) - ('0' as nat)) as nat,
{
    assert(x.push(d).drop_last() =~= x);
}

/// Whether `c` is a decimal digit.
pub fn is_digit_exec(c: char) -> (r: bool)
    ensures
        r == is_digit(c),
{
    '0' <= c && c <= '9'
}

/// The value of the digits `v[lo..hi]` when they are all digits and the
/// value is at most `bound`.
fn digits_upto(v: &Vec<char>, lo: usize, hi: usize, bound: u64) -> (r: Option<u64>)
    requires
        lo <= hi <= v@.len(),
        bound >= 9,
    ensures
        ({
            let t = v@.subrange(lo as int, hi as int);
            r == if all_digits(t) && digits_value(t) <= bound {
                Some(digits_value(t) as u64)
            } else {
                None::<u64>
            }
        }),
{
    let mut acc: Option<u64> = Some(0);
    let mut i = lo;
    assert(v@.subrange(lo as int, lo as int) =~= Seq::<char>::empty());
    while i < hi
        invariant
            lo <= i <= hi <= v@.len(),
            bound >= 9,
            all_digits(v@.subrange(lo as int, i as int)),
            match acc {
                Some(a) => a == digits_value(v@.subrange(lo as int, i as int)) && a <= bound,
                None => digits_value(v@.subrange(lo as int, i as int)) > bound,
            },
        decreases hi - i,
    {
        let c = v[i];
        let ghost prev = v@.subrange(lo as int, i as int);
        if !is_digit_exec(c) {
            proof {
                let t = v@.subrange(lo as int, hi as int);
                assert(t[i - lo] == c);
            }
            return None;
        }
        let d: u64 = if c == '0' { 0 }
            else if c == '1' { 1 }
            else if c == '2' { 2 }
            else if c == '3' { 3 }
            else if c == '4' { 4 }
            else if c == '5' { 5 }
            else if c == '6' { 6 }
            else if c == '7' { 7 }
            else if c == '8' { 8 }
            else { 9 };
        assert(d == (c as nat) - ('0' as nat));
        proof {
            assert(v@.subrange(lo as int, i + 1) =~= prev.push(c));
            lemma_digits_push(prev, c);
        }
        acc = match acc {
            Some(a) => {
                if a <= (bound - d) / 10 {
                    assert(a * 10 + d <= bound) by (nonlinear_arith)
                        requires a <= (bound - d) / 10, d <= 9, d <= bound;
                    Some(a * 10 + d)
                } else {
                    assert(a * 10 + d > bound) by (nonlinear_arith)
                        requires a > (bound - d) / 10, d <= 9, d <= bound;
                    None
                }
            },
            None => {
                assert(digits_value(prev) * 10 + d > bound) by (nonlinear_arith)
                    requires digits_value(prev) > bound;
                None
            },
        };
        i += 1;
        proof {
            assert forall|j: int| 0 <= j < (i - lo) implies is_digit(
                #[trigger] v@.subrange(lo as int, i as int)[j],
            ) by {
                if j < i - 1 - lo {
                    assert(v@.subrange(lo as int, i as int)[j] == prev[j]);
                }
            }
        }
    }
    acc
}

/// `str::parse::<u32>` on a character vector.
pub fn parse_u32_exec(v: &Vec<char>) -> (r: Option<u32>)
    ensures
        r == parse_u32(v@),
{
    let lo: usize = if v.len() > 0 && v[0] == '+' { 1 } else { 0 };
    proof {
        if lo == 1 {
            assert(v@.drop_first() =~= v@.subrange(1, v@.len() as int));
        } else {
            assert(v@ =~= v@.subrange(0, v@.len() as int));
        }
    }
    if lo >= v.len() {
        return None;
    }
    match digits_upto(v, lo, v.len(), 0xffff_ffff) {
        Some(x) => Some(x as u32),
        None => None,
    }
}

/// `str::parse::<i64>` on a character vector.
pub fn parse_i64_exec(v: &Vec<char>) -> (r: Option<i64>)
    ensures
        r == parse_i64(v@),
{
    if v.len() > 0 && v[0] == '-' {
        assert(v@.drop_first() =~= v@.subrange(1, v@.len() as int));
        if v.len() == 1 {
            return None;
        }
        match digits_upto(v, 1, v.len(), 0x8000_0000_0000_0000) {
            Some(x) => {
                if x == 0x8000_0000_0000_0000 {
                    Some(i64::MIN)
                } else {
                    Some(-(x as i64))
                }
            },
            None => None,
        }
    } else {
        let lo: usize = if v.len() > 0 && v[0] == '+' { 1 } else { 0 };
        proof {
            if lo == 1 {
                assert(v@.drop_first() =~= v@.subrange(1, v@.len() as int));
            } else {
                assert(v@ =~= v@.subrange(0, v@.len() as int));
            }
        }
        if lo >= v.len() {
            return None;
        }
        match digits_upto(v, lo, v.len(), 0x7fff_ffff_ffff_ffff) {
            Some(x) => Some(x as i64),
            None => None,
        }
    }
}

/// The character for a decimal digit.
pub fn digit_char_exec(d: u64) -> (c: char)
    requires
        d < 10,
    ensures
        c == digit_char(d as nat),
{
    if d == 0 { '0' }
    else if d == 1 { '1' }
    else if d == 2 { '2' }
    else if d == 3 { '3' }
    else if d == 4 { '4' }
    else if d == 5 { '5' }
    else if d == 6 { '6' }
    else if d == 7 { '7' }
    else if d == 8 { '8' }
    else { '9' }
}

/// Appends the decimal rendering of `n`.
pub fn push_decimal(s: &mut String, n: u64)
    ensures
        final(s)@ == old(s)@ + decimal(n as nat),
    decreases n,
{
    if n < 10 {
        push_char(s, digit_char_exec(n));
        assert(s@ =~= old(s)@ + decimal(n as nat));
    } else {
        push_decimal(s, n / 10);
        push_char(s, digit_char_exec(n % 10));
        assert(s@ =~= old(s)@ + decimal(n as nat));
    }
}

/// Appends the signed decimal rendering of `n`.
pub fn push_signed_decimal(s: &mut String, n: i64)
    ensures
        final(s)@ == old(s)@ + signed_decimal(n as int),
{
    if n < 0 {
        push_char(s, '-');
        let m: u64 = if n == i64::MIN { 0x8000_0000_0000_0000 } else { (-n) as u64 };
        push_decimal(s, m);
        assert(s@ =~= old(s)@ + signed_decimal(n as int));
    } else {
        push_decimal(s, n as u64);
    }
}


// ---------------------------------------------------------------------------
// Byte records
// ---------------------------------------------------------------------------

/// The first index at or after `i` holding `x`.
pub open spec fn byte_index_from(s: Seq<u8>, x: u8, i: nat) -> Option<nat>
    decreases s.len() + 1 - i,
{
    if i >= s.len() {
        None
    } else if s[i as int] == x {
        Some(i)
    } else {
        byte_index_from(s, x, i + 1)
    }
}

/// All pieces of `s` separated by `x`, as `<[u8]>::split` yields them.
pub open spec fn split_bytes(s: Seq<u8>, x: u8) -> Seq<Seq<u8>>
    decreases s.len(),
{
    proof {
        lemma_byte_index_from(s, x, 0);
    }
    match byte_index_from(s, x, 0) {
        Some(i) => seq![s.subrange(0, i as int)] + split_bytes(s.subrange((i + 1) as int, s.len() as int), x),
        None => seq![s],
    }
}

pub proof fn lemma_byte_index_from(s: Seq<u8>, x: u8, i: nat)
    ensures
        match byte_index_from(s, x, i) {
            Some(k) => i <= k < s.len() && s[k as int] == x && forall|j: int| i <= j < k ==> s[j] != x,
            None => forall|j: int| i <= j < s.len() ==> s[j] != x,
        },
    decreases s.len() + 1 - i,
{
    if i < s.len() && s[i as int] != x {
        lemma_byte_index_from(s, x, i + 1);
    }
}

/// The byte views of a sequence of byte vectors.
pub open spec fn bviews(v: Seq<Vec<u8>>) -> Seq<Seq<u8>> {
    v.map_values(|x: Vec<u8>| x@)
}

/// `<[u8]>::split(|b| *b == x)`.
pub fn split_bytes_exec(s: &[u8], x: u8) -> (r: Vec<Vec<u8>>)
    ensures
        bviews(r@) == split_bytes(s@, x),
{
    let mut out: Vec<Vec<u8>> = Vec::new();
    let mut cur: Vec<u8> = Vec::new();
    let mut start: usize = 0;
    let mut i: usize = 0;
    assert(s@.subrange(0, s@.len() as int) =~= s@);
    while i < s.len()
        invariant
            start <= i <= s@.len(),
            cur@ == s@.subrange(start as int, i as int),
            forall|j: int| start <= j < i ==> s@[j] != x,
            split_bytes(s@, x) == bviews(out@) + split_bytes(s@.subrange(start as int, s@.len() as int), x),
        decreases s@.len() - i,
    {
        let ghost t = s@.subrange(start as int, s@.len() as int);
        if s[i] == x {
            proof {
                lemma_byte_index_from(t, x, 0);
                assert(t[i - start] == x);
                assert forall|j: int| 0 <= j < i - start implies t[j] != x by {
                    assert(t[j] == s@[start + j]);
                }
                assert(byte_index_from(t, x, 0) == Some((i - start) as nat)) by {
                    match byte_index_from(t, x, 0) {
                        Some(k) => {
                            if k < i - start {
                                assert(t[k as int] != x);
                            }
                            if k > i - start {
                                assert(t[i - start] != x);
                            }
                        },
                        None => {
                            assert(t[i - start] != x);
                        },
                    }
                }
                assert(t.subrange(0, i - start) =~= cur@);
                assert(t.subrange(i - start + 1, t.len() as int) =~= s@.subrange(i + 1, s@.len() as int));
            }
            let ghost before = out@;
            out.push(cur);
            proof {
                assert(bviews(out@) =~= bviews(before).push(cur@));
            }
            cur = Vec::new();
            i += 1;
            start = i;
            assert(cur@ =~= s@.subrange(start as int, i as int));
        } else {
            cur.push(s[i]);
            i += 1;
            assert(cur@ =~= s@.subrange(start as int, i as int));
        }
    }
    proof {
        let t = s@.subrange(start as int, s@.len() as int);
        lemma_byte_index_from(t, x, 0);
        assert forall|j: int| 0 <= j < t.len() implies t[j] != x by {
            assert(t[j] == s@[start + j]);
        }
        assert(byte_index_from(t, x, 0) is None) by {
            match byte_index_from(t, x, 0) {
                Some(k) => {
                    assert(t[k as int] != x);
                },
                None => {},
            }
        }
    }
    let ghost before = out@;
    out.push(cur);
    proof {
        assert(bviews(out@) =~= bviews(before).push(cur@));
    }
    out
}

/// The text `String::from_utf8_lossy` makes of some bytes: their UTF-8
/// decoding, with U+FFFD standing in for every invalid sequence.
pub uninterp spec fn utf8_lossy(b: Seq<u8>) -> Seq<char>;

/// `String::from_utf8_lossy`. Stated: the result is `utf8_lossy` of the
/// bytes, and valid UTF-8 decodes to the characters it encodes. Not stated:
/// where replacement characters go in invalid input.
#[verifier::external_body]
pub(crate) fn decode_lossy(b: &[u8]) -> (s: String)
    ensures
        s@ == utf8_lossy(b@),
        vstd::utf8::valid_utf8(b@) ==> s@ == vstd::utf8::decode_utf8(b@),
{
    String::from_utf8_lossy(b).into_owned()
}


// ---------------------------------------------------------------------------
// Whitespace-separated tokens and ordering
// ---------------------------------------------------------------------------

pub proof fn lemma_lead_count_bounds(s: Seq<char>, f: spec_fn(char) -> bool)
    ensures
        lead_count(s, f) <= s.len(),
        s.len() > 0 && f(s[0]) ==> lead_count(s, f) >= 1,
        forall|j: int| 0 <= j < lead_count(s, f) ==> f(#[trigger] s[j]),
        lead_count(s, f) < s.len() ==> !f(s[lead_count(s, f) as int]),
    decreases s.len(),
{
    if s.len() > 0 && f(s[0]) {
        lemma_lead_count_bounds(s.drop_first(), f);
        assert forall|j: int| 0 <= j < lead_count(s, f) implies f(#[trigger] s[j]) by {
            if j > 0 {
                assert(s[j] == s.drop_first()[j - 1]);
            }
        }
        if lead_count(s, f) < s.len() {
            assert(s[lead_count(s, f) as int] == s.drop_first()[lead_count(s.drop_first(), f) as int]);
        }
    }
}

/// The whitespace-separated tokens of `s`, as `str::split_whitespace` yields them.
pub open spec fn split_ws(s: Seq<char>) -> Seq<Seq<char>>
    decreases s.len(),
{
    let t = trim_start_by(s, |c: char| is_ws(c));
    proof {
        lemma_lead_count_bounds(s, |c: char| is_ws(c));
        lemma_lead_count_bounds(t, |c: char| !is_ws(c));
    }
    if t.len() == 0 {
        seq![]
    } else {
        let n = lead_count(t, |c: char| !is_ws(c));
        seq![t.subrange(0, n as int)] + split_ws(t.subrange(n as int, t.len() as int))
    }
}

proof fn lemma_lead_count_exact(s: Seq<char>, f: spec_fn(char) -> bool, i: int)
    requires
        0 <= i <= s.len(),
        forall|j: int| 0 <= j < i ==> f(#[trigger] s[j]),
        i == s.len() || !f(s[i]),
    ensures
        lead_count(s, f) == i,
{
    lemma_lead_count_bounds(s, f);
    if lead_count(s, f) < i {
        assert(f(s[lead_count(s, f) as int]));
    }
    if lead_count(s, f) > i {
        assert(f(s[i]));
    }
}

/// Leading white space of `s` followed by one more character.
proof fn lemma_trim_ws_push(s: Seq<char>, c: char)
    ensures
        ({
            let t = trim_start_by(s, |x: char| is_ws(x));
            let u = trim_start_by(s.push(c), |x: char| is_ws(x));
            &&& t.len() > 0 ==> u == t.push(c)
            &&& t.len() == 0 && is_ws(c) ==> u.len() == 0
            &&& t.len() == 0 && !is_ws(c) ==> u == seq![c]
            &&& t.len() > 0 ==> t.last() == s.last()
        }),
{
    let f = |x: char| is_ws(x);
    let sc = s.push(c);
    lemma_lead_count_bounds(s, f);
    let k = lead_count(s, f);
    if k < s.len() {
        assert forall|j: int| 0 <= j < k implies f(#[trigger] sc[j]) by {
            assert(sc[j] == s[j]);
        }
        assert(sc[k as int] == s[k as int]);
        lemma_lead_count_exact(sc, f, k as int);
        assert(sc.subrange(k as int, sc.len() as int) =~= s.subrange(k as int, s.len() as int).push(c));
    } else if is_ws(c) {
        assert forall|j: int| 0 <= j < sc.len() implies f(#[trigger] sc[j]) by {
            if j < s.len() {
                assert(sc[j] == s[j]);
            }
        }
        lemma_lead_count_exact(sc, f, sc.len() as int);
    } else {
        assert forall|j: int| 0 <= j < s.len() implies f(#[trigger] sc[j]) by {
            assert(sc[j] == s[j]);
        }
        lemma_lead_count_exact(sc, f, s.len() as int);
        assert(sc.subrange(s.len() as int, sc.len() as int) =~= seq![c]);
    }
}

/// The words of `s` followed by white space are the words of `s`.
pub proof fn lemma_split_ws_push_ws(s: Seq<char>, c: char)
    requires
        is_ws(c),
    ensures
        split_ws(s.push(c)) == split_ws(s),
    decreases s.len(),
{
    let f = |x: char| is_ws(x);
    let g = |x: char| !is_ws(x);
    let t = trim_start_by(s, f);
    lemma_trim_ws_push(s, c);
    lemma_lead_count_bounds(s, f);
    if t.len() > 0 {
        let u = t.push(c);
        lemma_lead_count_bounds(t, g);
        let n = lead_count(t, g);
        assert(n >= 1);
        if n < t.len() {
            assert forall|j: int| 0 <= j < n implies g(#[trigger] u[j]) by {
                assert(u[j] == t[j]);
            }
            assert(u[n as int] == t[n as int]);
            lemma_lead_count_exact(u, g, n as int);
        } else {
            assert forall|j: int| 0 <= j < n implies g(#[trigger] u[j]) by {
                assert(u[j] == t[j]);
            }
            lemma_lead_count_exact(u, g, n as int);
        }
        let r = t.subrange(n as int, t.len() as int);
        assert(u.subrange(0, n as int) =~= t.subrange(0, n as int));
        assert(u.subrange(n as int, u.len() as int) =~= r.push(c));
        lemma_split_ws_push_ws(r, c);
    }
}

/// A non-white character after `s` starts a new word when `s` ends in white
/// space (or is empty), and otherwise extends the last word.
pub proof fn lemma_split_ws_push_word(s: Seq<char>, c: char)
    requires
        !is_ws(c),
    ensures
        s.len() == 0 || is_ws(s.last()) ==> split_ws(s.push(c)) == split_ws(s).push(seq![c]),
        s.len() > 0 && !is_ws(s.last()) ==> {
            &&& split_ws(s).len() > 0
            &&& split_ws(s.push(c)) == split_ws(s).drop_last().push(split_ws(s).last().push(c))
        },
    decreases s.len(),
{
    let f = |x: char| is_ws(x);
    let g = |x: char| !is_ws(x);
    let t = trim_start_by(s, f);
    lemma_trim_ws_push(s, c);
    lemma_lead_count_bounds(s, f);
    if t.len() == 0 {
        let u = seq![c];
        lemma_lead_count_exact(u, g, 1);
        assert(u.subrange(0, 1) =~= u);
        assert(u.subrange(1, 1) =~= Seq::<char>::empty());
        assert(split_ws(Seq::<char>::empty()) =~= Seq::<Seq<char>>::empty());
        assert(split_ws(s.push(c)) =~= seq![seq![c]]);
        if s.len() > 0 {
            assert(s.subrange(lead_count(s, f) as int, s.len() as int).len() == 0);
            assert(is_ws(s.last()));
        }
        assert(split_ws(s) =~= Seq::<Seq<char>>::empty());
    } else {
        let u = t.push(c);
        lemma_lead_count_bounds(t, g);
        let n = lead_count(t, g);
        let w = t.subrange(0, n as int);
        let r = t.subrange(n as int, t.len() as int);
        if n < t.len() {
            assert forall|j: int| 0 <= j < n implies g(#[trigger] u[j]) by {
                assert(u[j] == t[j]);
            }
            assert(u[n as int] == t[n as int]);
            lemma_lead_count_exact(u, g, n as int);
            assert(u.subrange(0, n as int) =~= w);
            assert(u.subrange(n as int, u.len() as int) =~= r.push(c));
            assert(r.last() == s.last());
            lemma_split_ws_push_word(r, c);
            let x = split_ws(r);
            assert(split_ws(s) == seq![w] + x);
            assert(split_ws(s.push(c)) == seq![w] + split_ws(r.push(c)));
            if is_ws(s.last()) {
                assert(seq![w] + x.push(seq![c]) =~= (seq![w] + x).push(seq![c]));
            } else {
                assert(seq![w] + x.drop_last().push(x.last().push(c)) =~= (seq![w] + x).drop_last().push(
                    (seq![w] + x).last().push(c),
                ));
            }
        } else {
            assert forall|j: int| 0 <= j < u.len() implies g(#[trigger] u[j]) by {
                if j < t.len() {
                    assert(u[j] == t[j]);
                }
            }
            lemma_lead_count_exact(u, g, u.len() as int);
            assert(u.subrange(0, u.len() as int) =~= u);
            assert(u.subrange(u.len() as int, u.len() as int) =~= Seq::<char>::empty());
            assert(w =~= t);
            assert(r =~= Seq::<char>::empty());
            assert(split_ws(Seq::<char>::empty()) =~= Seq::<Seq<char>>::empty());
            assert(split_ws(s) =~= seq![t]);
            assert(split_ws(s.push(c)) =~= seq![u]);
            assert(t.last() == s.last());
            assert(!is_ws(t.last()));
        }
    }
}

/// `str::split_whitespace`.
pub fn split_ws_exec(v: &Vec<char>) -> (r: Vec<Vec<char>>)
    ensures
        cviews(r@) == split_ws(v@),
{
    let mut out: Vec<Vec<char>> = Vec::new();
    let mut i: usize = 0;
    let n = v.len();
    assert(v@.subrange(0, v@.len() as int) =~= v@);
    while i < n
        invariant
            i <= n == v@.len(),
            split_ws(v@) == cviews(out@) + split_ws(v@.subrange(i as int, n as int)),
        decreases n - i,
    {
        let ghost s = v@.subrange(i as int, n as int);
        let a = skip_ws(v, i, n);
        proof {
            assert(v@.subrange(a as int, n as int) =~= trim_start_by(s, |c: char| is_ws(c)));
        }
        if a == n {
            proof {
                assert(split_ws(s) =~= Seq::<Seq<char>>::empty());
                assert(cviews(out@) + split_ws(s) =~= cviews(out@));
                assert(v@.subrange(n as int, n as int) =~= Seq::<char>::empty());
                assert(split_ws(v@.subrange(n as int, n as int)) =~= Seq::<Seq<char>>::empty());
            }
            i = n;
        } else {
            let mut b = a;
            while b < n && !is_ws_exec(v[b])
                invariant
                    a <= b <= n == v@.len(),
                    forall|j: int| a <= j < b ==> !is_ws(#[trigger] v@[j]),
                decreases n - b,
            {
                b += 1;
            }
            proof {
                let t = v@.subrange(a as int, n as int);
                assert forall|j: int| 0 <= j < b - a implies !is_ws(#[trigger] t[j]) by {
                    assert(t[j] == v@[a + j]);
                }
                if b < n {
                    assert(t[b - a] == v@[b as int]);
                }
                lemma_lead_count_exact(t, |c: char| !is_ws(c), b - a);
                assert(t.subrange(0, b - a) =~= v@.subrange(a as int, b as int));
                assert(t.subrange(b - a, t.len() as int) =~= v@.subrange(b as int, n as int));
            }
            let tok = slice_of(v, a, b);
            let ghost before = out@;
            out.push(tok);
            proof {
                assert(cviews(out@) =~= cviews(before).push(tok@));
                assert(cviews(out@) + split_ws(v@.subrange(b as int, n as int)) =~= cviews(before)
                    + split_ws(s));
            }
            i = b;
        }
    }
    proof {
        assert(v@.subrange(n as int, n as int) =~= Seq::<char>::empty());
        assert(split_ws(v@.subrange(n as int, n as int)) =~= Seq::<Seq<char>>::empty());
        assert(split_ws(v@) =~= cviews(out@));
    }
    out
}

/// Lexicographic order by code point, which is the order `String`'s `cmp`
/// gives: UTF-8 byte order agrees with code-point order.
pub open spec fn text_lt(a: Seq<char>, b: Seq<char>) -> bool
    decreases a.len(),
{
    if a.len() == 0 {
        b.len() > 0
    } else if b.len() == 0 {
        false
    } else if a[0] != b[0] {
        a[0] < b[0]
    } else {
        text_lt(a.drop_first(), b.drop_first())
    }
}

pub proof fn lemma_text_lt_irreflexive(a: Seq<char>)
    ensures
        !text_lt(a, a),
    decreases a.len(),
{
    if a.len() > 0 {
        lemma_text_lt_irreflexive(a.drop_first());
    }
}

pub proof fn lemma_text_lt_total(a: Seq<char>, b: Seq<char>)
    ensures
        text_lt(a, b) || text_lt(b, a) || a == b,
    decreases a.len(),
{
    if a.len() > 0 && b.len() > 0 {
        if a[0] == b[0] {
            lemma_text_lt_total(a.drop_first(), b.drop_first());
            if a.drop_first() == b.drop_first() {
                assert(a =~= seq![a[0]] + a.drop_first());
                assert(b =~= seq![b[0]] + b.drop_first());
            }
        }
    } else if a.len() == 0 && b.len() == 0 {
        assert(a =~= b);
    }
}

pub proof fn lemma_text_lt_transitive(a: Seq<char>, b: Seq<char>, c: Seq<char>)
    requires
        text_lt(a, b),
        text_lt(b, c),
    ensures
        text_lt(a, c),
    decreases a.len(),
{
    if a.len() > 0 && b.len() > 0 && c.len() > 0 && a[0] == b[0] && b[0] == c[0] {
        lemma_text_lt_transitive(a.drop_first(), b.drop_first(), c.drop_first());
    }
}

/// Whether `a` sorts before `b`.
pub fn text_lt_exec(a: &Vec<char>, b: &Vec<char>) -> (r: bool)
    ensures
        r == text_lt(a@, b@),
{
    let mut i: usize = 0;
    assert(a@.subrange(0, a@.len() as int) =~= a@);
    assert(b@.subrange(0, b@.len() as int) =~= b@);
    while i < a.len() && i < b.len() && a[i] == b[i]
        invariant
            i <= a@.len(),
            i <= b@.len(),
            text_lt(a@, b@) == text_lt(a@.subrange(i as int, a@.len() as int), b@.subrange(i as int, b@.len() as int)),
        decreases a@.len() - i,
    {
        proof {
            let x = a@.subrange(i as int, a@.len() as int);
            let y = b@.subrange(i as int, b@.len() as int);
            assert(x.drop_first() =~= a@.subrange(i + 1, a@.len() as int));
            assert(y.drop_first() =~= b@.subrange(i + 1, b@.len() as int));
        }
        i += 1;
    }
    proof {
        let x = a@.subrange(i as int, a@.len() as int);
        let y = b@.subrange(i as int, b@.len() as int);
        if i < a@.len() && i < b@.len() {
            assert(x[0] == a@[i as int]);
            assert(y[0] == b@[i as int]);
        }
    }
    if i == a.len() {
        i < b.len()
    } else if i == b.len() {
        false
    } else {
        a[i] < b[i]
    }
}


/// Where insertion sort puts key `k` into the sorted `t`: after every key
/// that does not sort after it, so equal keys keep their order.
pub open spec fn key_insert_pos(t: Seq<Seq<char>>, k: Seq<char>) -> nat
    decreases t.len(),
{
    if t.len() == 0 {
        0
    } else if text_lt(k, t.last()) {
        key_insert_pos(t.drop_last(), k)
    } else {
        t.len()
    }
}

/// The insertion point lies within the keys.
pub proof fn lemma_key_insert_pos_bound(t: Seq<Seq<char>>, k: Seq<char>)
    ensures
        key_insert_pos(t, k) <= t.len(),
{
    lemma_key_insert_pos(t, k);
}

/// No key sorts before one that comes earlier.
pub open spec fn keys_sorted(t: Seq<Seq<char>>) -> bool {
    forall|i: int, j: int| 0 <= i < j < t.len() ==> !text_lt(#[trigger] t[j], #[trigger] t[i])
}

proof fn lemma_key_insert_pos(t: Seq<Seq<char>>, k: Seq<char>)
    ensures
        key_insert_pos(t, k) <= t.len(),
        forall|i: int| key_insert_pos(t, k) <= i < t.len() ==> text_lt(k, #[trigger] t[i]),
        key_insert_pos(t, k) > 0 ==> !text_lt(k, t[key_insert_pos(t, k) - 1]),
    decreases t.len(),
{
    if t.len() > 0 && text_lt(k, t.last()) {
        let u = t.drop_last();
        lemma_key_insert_pos(u, k);
        assert forall|i: int| key_insert_pos(t, k) <= i < t.len() implies text_lt(k, #[trigger] t[i]) by {
            if i < u.len() {
                assert(t[i] == u[i]);
            }
        }
        if key_insert_pos(t, k) > 0 {
            assert(t[key_insert_pos(t, k) - 1] == u[key_insert_pos(u, k) - 1]);
        }
    }
}

proof fn lemma_key_le_transitive(a: Seq<char>, b: Seq<char>, c: Seq<char>)
    requires
        !text_lt(b, a),
        !text_lt(c, b),
    ensures
        !text_lt(c, a),
{
    lemma_text_lt_total(a, b);
    lemma_text_lt_total(b, c);
    if text_lt(c, a) {
        if a == b {
            assert(text_lt(c, b));
        } else if b == c {
            assert(text_lt(b, a));
        } else {
            lemma_text_lt_transitive(a, b, c);
            lemma_text_lt_transitive(c, a, b);
        }
    }
}

/// Inserting a key where insertion sort puts it keeps the keys sorted.
pub proof fn lemma_key_insert_sorted(t: Seq<Seq<char>>, k: Seq<char>)
    requires
        keys_sorted(t),
    ensures
        keys_sorted(t.insert(key_insert_pos(t, k) as int, k)),
{
    lemma_key_insert_pos(t, k);
    let p = key_insert_pos(t, k) as int;
    let r = t.insert(p, k);
    assert forall|i: int, j: int| 0 <= i < j < r.len() implies !text_lt(#[trigger] r[j], #[trigger] r[i]) by {
        if j < p {
            assert(r[i] == t[i] && r[j] == t[j]);
        } else if j == p {
            assert(r[i] == t[i]);
            if i < p - 1 {
                assert(!text_lt(t[p - 1], t[i]));
                lemma_key_le_transitive(t[i], t[p - 1], k);
            }
        } else if i == p {
            assert(r[j] == t[j - 1]);
            if text_lt(t[j - 1], k) {
                lemma_text_lt_transitive(k, t[j - 1], k);
                lemma_text_lt_irreflexive(k);
            }
        } else if i < p {
            assert(r[i] == t[i] && r[j] == t[j - 1]);
        } else {
            assert(r[i] == t[i - 1] && r[j] == t[j - 1]);
        }
    }
}

// ---------------------------------------------------------------------------
// Case folding
// ---------------------------------------------------------------------------

/// What `str::to_lowercase` makes of a text: the Unicode lowercase mapping,
/// which may change its length.
pub uninterp spec fn lowercase(s: Seq<char>) -> Seq<char>;

/// `str::to_lowercase`. Stated: the result is `lowercase` of the text. Not
/// stated: the Unicode case tables themselves.
#[verifier::external_body]
pub(crate) fn to_lowercase(s: &str) -> (r: String)
    ensures
        r@ == lowercase(s@),
{
    s.to_lowercase()
}

/// What `char::to_lowercase` yields for a character: its Unicode lowercase
/// mapping, one or more characters.
pub uninterp spec fn lower_chars(c: char) -> Seq<char>;

/// `char::to_lowercase`, every character it yields. Stated: the result is
/// `lower_chars` of the character and, as std documents, holds one or more
/// characters. Not stated: the Unicode case tables themselves.
#[verifier::external_body]
pub(crate) fn lower_all(c: char) -> (r: Vec<char>)
    ensures
        r@ == lower_chars(c),
        r@.len() >= 1,
{
    c.to_lowercase().collect()
}

/// A character folded for a search that ignores case: the first character
/// of its lowercase mapping, so that a text folds one character per
/// character and columns stay where they are.
pub open spec fn char_lower(c: char) -> char {
    lower_chars(c)[0]
}

/// Folds one character; see `char_lower`.
pub fn lower_char(c: char) -> (r: char)
    ensures
        r == char_lower(c),
{
    let all = lower_all(c);
    all[0]
}

}
