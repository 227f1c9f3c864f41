//! Character-level text utilities shared by every parser in the crate.
//!
//! All executable text processing works over `Vec<char>` so that contracts can
//! speak about `Seq<char>` views directly.  Unicode character classes and case
//! folding come from the standard library through named, trusted
//! specifications; everything else is verified.

use vstd::prelude::*;
use vstd::string::*;

verus! {

/// What `char::is_whitespace` returns: a property of the character alone.
pub uninterp spec fn white_char(c: char) -> bool;

/// What `char::is_alphanumeric` returns: a property of the character alone.
pub uninterp spec fn alnum_char(c: char) -> bool;

/// What `str::to_lowercase` returns: Unicode lowercasing, a function of the
/// characters alone.
pub uninterp spec fn lower_of(s: Seq<char>) -> Seq<char>;

/// Relies on char::is_whitespace: true exactly for characters with the
/// Unicode White_Space property.
pub assume_specification[ char::is_whitespace ](c: char) -> (r: bool)
    ensures
        r == white_char(c),
;

/// Relies on char::is_alphanumeric: true exactly for characters in the
/// Unicode Alphabetic, Nd, Nl or No classes.
pub assume_specification[ char::is_alphanumeric ](c: char) -> (r: bool)
    ensures
        r == alnum_char(c),
;

/// Relies on String::from_iter over str::chars: collecting characters into a
/// string whose view is exactly the collected sequence.
#[verifier::external_body]
pub fn string_from_chars(v: &Vec<char>) -> (r: String)
    ensures
        r@ == v@,
{
    v.iter().collect()
}

/// Relies on str::to_lowercase: the lowercased text depends on the input
/// characters alone.
#[verifier::external_body]
pub fn lower_chars(v: &Vec<char>) -> (r: Vec<char>)
    ensures
        r@ == lower_of(v@),
{
    let s: String = v.iter().collect();
    s.to_lowercase().chars().collect()
}

/// The characters of a string slice, in order.
pub fn to_chars(s: &str) -> (r: Vec<char>)
    ensures
        r@ == s@,
{
    let n = s.unicode_len();
    let mut r: Vec<char> = Vec::new();
    let mut i: usize = 0;
    while i < n
        invariant
            n == s@.len(),
            i <= n,
            r@ == s@.subrange(0, i as int),
        decreases n - i,
    {
        r.push(s.get_char(i));
        i = i + 1;
        proof {
            assert(r@ =~= s@.subrange(0, i as int));
        }
    }
    proof {
        assert(r@ =~= s@);
    }
    r
}

/// A copy of `s[a..b]`.
pub fn seg(s: &Vec<char>, a: usize, b: usize) -> (r: Vec<char>)
    requires
        a <= b <= s@.len(),
    ensures
        r@ == s@.subrange(a as int, b as int),
{
    let mut r: Vec<char> = Vec::new();
    let mut i: usize = a;
    while i < b
        invariant
            a <= i <= b <= s@.len(),
            r@ == s@.subrange(a as int, i as int),
        decreases b - i,
    {
        r.push(s[i]);
        i = i + 1;
        proof {
            assert(r@ =~= s@.subrange(a as int, i as int));
        }
    }
    r
}

/// First index `j` in `[i, s.len()]` with `s[j] == c`, or `s.len()` if none.
pub open spec fn find_from(s: Seq<char>, i: int, c: char) -> int
    decreases s.len() - i,
{
    if i < 0 {
        0
    } else if i >= s.len() {
        s.len() as int
    } else if s[i] == c {
        i
    } else {
        find_from(s, i + 1, c)
    }
}

pub proof fn lemma_find_from(s: Seq<char>, i: int, c: char)
    requires
        0 <= i <= s.len(),
    ensures
        i <= find_from(s, i, c) <= s.len(),
        find_from(s, i, c) < s.len() ==> s[find_from(s, i, c)] == c,
        forall|k: int| i <= k < find_from(s, i, c) ==> s[k] != c,
    decreases s.len() - i,
{
    if i < s.len() && s[i] != c {
        lemma_find_from(s, i + 1, c);
    }
}

pub fn find_char(s: &Vec<char>, i: usize, c: char) -> (r: usize)
    requires
        i <= s@.len(),
    ensures
        r == find_from(s@, i as int, c),
        i <= r <= s@.len(),
{
    let n = s.len();
    let mut j = i;
    while j < n
        invariant
            i <= j <= n == s@.len(),
            find_from(s@, i as int, c) == find_from(s@, j as int, c),
            forall|k: int| i <= k < j ==> s@[k] != c,
        decreases n - j,
    {
        if s[j] == c {
            return j;
        }
        j = j + 1;
    }
    j
}

/// First index `j` in `[i, s.len()]` that is not whitespace, or `s.len()`.
pub open spec fn skip_white_from(s: Seq<char>, i: int) -> int
    decreases s.len() - i,
{
    if i < 0 {
        0
    } else if i >= s.len() {
        s.len() as int
    } else if white_char(s[i]) {
        skip_white_from(s, i + 1)
    } else {
        i
    }
}

pub proof fn lemma_skip_white_from(s: Seq<char>, i: int)
    requires
        0 <= i <= s.len(),
    ensures
        i <= skip_white_from(s, i) <= s.len(),
    decreases s.len() - i,
{
    if i < s.len() && white_char(s[i]) {
        lemma_skip_white_from(s, i + 1);
    }
}

pub fn skip_white(s: &Vec<char>, i: usize) -> (r: usize)
    requires
        i <= s@.len(),
    ensures
        r == skip_white_from(s@, i as int),
        i <= r <= s@.len(),
{
    let n = s.len();
    let mut j = i;
    while j < n
        invariant
            i <= j <= n == s@.len(),
            skip_white_from(s@, i as int) == skip_white_from(s@, j as int),
        decreases n - j,
    {
        if !s[j].is_whitespace() {
            return j;
        }
        j = j + 1;
    }
    j
}

/// First index `j` in `[i, s.len()]` with `s[j] != c`, or `s.len()`.
pub open spec fn skip_run_from(s: Seq<char>, i: int, c: char) -> int
    decreases s.len() - i,
{
    if i < 0 {
        0
    } else if i >= s.len() {
        s.len() as int
    } else if s[i] == c {
        skip_run_from(s, i + 1, c)
    } else {
        i
    }
}

pub proof fn lemma_skip_run_from(s: Seq<char>, i: int, c: char)
    requires
        0 <= i <= s.len(),
    ensures
        i <= skip_run_from(s, i, c) <= s.len(),
    decreases s.len() - i,
{
    if i < s.len() && s[i] == c {
        lemma_skip_run_from(s, i + 1, c);
    }
}

pub fn skip_run(s: &Vec<char>, i: usize, c: char) -> (r: usize)
    requires
        i <= s@.len(),
    ensures
        r == skip_run_from(s@, i as int, c),
        i <= r <= s@.len(),
{
    let n = s.len();
    let mut j = i;
    while j < n
        invariant
            i <= j <= n == s@.len(),
            skip_run_from(s@, i as int, c) == skip_run_from(s@, j as int, c),
        decreases n - j,
    {
        if s[j] != c {
            return j;
        }
        j = j + 1;
    }
    j
}

/// `pat` occurs in `s` starting at index `i`.
pub open spec fn match_at(s: Seq<char>, i: int, pat: Seq<char>) -> bool {
    0 <= i && i + pat.len() <= s.len() && s.subrange(i, i + pat.len() as int) == pat
}

/// `pat` occurs somewhere in `s`.
pub open spec fn has_sub(s: Seq<char>, pat: Seq<char>) -> bool {
    exists|i: int| match_at(s, i, pat)
}

pub fn matches_at(s: &Vec<char>, i: usize, pat: &Vec<char>) -> (r: bool)
    requires
        i <= s@.len(),
    ensures
        r == match_at(s@, i as int, pat@),
{
    let n = s.len();
    let m = pat.len();
    if n - i < m {
        proof {
            assert(!match_at(s@, i as int, pat@));
        }
        return false;
    }
    let mut k: usize = 0;
    while k < m
        invariant
            k <= m,
            m == pat@.len(),
            n == s@.len(),
            i + m <= n,
            forall|t: int| 0 <= t < k ==> s@[i + t] == pat@[t],
        decreases m - k,
    {
        if s[i + k] != pat[k] {
            proof {
                assert(s@.subrange(i as int, i + pat@.len() as int)[k as int] != pat@[k as int]);
            }
            return false;
        }
        k = k + 1;
    }
    proof {
        assert(s@.subrange(i as int, i + pat@.len() as int) =~= pat@);
    }
    true
}

/// Naive substring search.
pub fn contains_sub(s: &Vec<char>, pat: &Vec<char>) -> (r: bool)
    ensures
        r == has_sub(s@, pat@),
{
    let n = s.len();
    let m = pat.len();
    if m == 0 {
        proof {
            assert(s@.subrange(0, 0) =~= pat@);
            assert(match_at(s@, 0, pat@));
        }
        return true;
    }
    if m > n {
        proof {
            assert(forall|j: int| match_at(s@, j, pat@) ==> j + pat@.len() <= s@.len());
        }
        return false;
    }
    let mut i: usize = 0;
    while i <= n - m
        invariant
            1 <= m <= n,
            n == s@.len(),
            m == pat@.len(),
            i <= n - m + 1,
            forall|j: int| 0 <= j < i ==> !match_at(s@, j, pat@),
        decreases n - m + 1 - i,
    {
        if matches_at(s, i, pat) {
            return true;
        }
        i = i + 1;
    }
    proof {
        assert(forall|j: int| match_at(s@, j, pat@) ==> 0 <= j && j + pat@.len() <= s@.len());
    }
    false
}

pub fn chars_eq(a: &Vec<char>, b: &Vec<char>) -> (r: bool)
    ensures
        r == (a@ == b@),
{
    if a.len() != b.len() {
        return false;
    }
    let n = a.len();
    let mut i: usize = 0;
    while i < n
        invariant
            i <= n == a@.len() == b@.len(),
            forall|k: int| 0 <= k < i ==> a@[k] == b@[k],
        decreases n - i,
    {
        if a[i] != b[i] {
            return false;
        }
        i = i + 1;
    }
    proof {
        assert(a@ =~= b@);
    }
    true
}

/// The sequence without trailing `c` characters.
pub open spec fn trim_end_ch(s: Seq<char>, c: char) -> Seq<char>
    decreases s.len(),
{
    if s.len() == 0 {
        s
    } else if s.last() == c {
        trim_end_ch(s.drop_last(), c)
    } else {
        s
    }
}

/// The sequence without leading `c` characters.
pub open spec fn trim_start_ch(s: Seq<char>, c: char) -> Seq<char>
    decreases s.len(),
{
    if s.len() == 0 {
        s
    } else if s.first() == c {
        trim_start_ch(s.drop_first(), c)
    } else {
        s
    }
}

/// The sequence without trailing whitespace.
pub open spec fn trim_end_white(s: Seq<char>) -> Seq<char>
    decreases s.len(),
{
    if s.len() == 0 {
        s
    } else if white_char(s.last()) {
        trim_end_white(s.drop_last())
    } else {
        s
    }
}

/// The sequence without leading whitespace.
pub open spec fn trim_start_white(s: Seq<char>) -> Seq<char>
    decreases s.len(),
{
    if s.len() == 0 {
        s
    } else if white_char(s.first()) {
        trim_start_white(s.drop_first())
    } else {
        s
    }
}

/// The sequence without leading and trailing whitespace.
pub open spec fn trim_white(s: Seq<char>) -> Seq<char> {
    trim_start_white(trim_end_white(s))
}

pub fn trim_end_run(s: &Vec<char>, c: char) -> (r: Vec<char>)
    ensures
        r@ == trim_end_ch(s@, c),
{
    let mut r = seg(s, 0, s.len());
    proof {
        assert(r@ =~= s@);
    }
    while r.len() > 0 && r[r.len() - 1] == c
        invariant
            trim_end_ch(r@, c) == trim_end_ch(s@, c),
        decreases r@.len(),
    {
        r.pop();
    }
    r
}

pub fn trim_start_run(s: &Vec<char>, c: char) -> (r: Vec<char>)
    ensures
        r@ == trim_start_ch(s@, c),
{
    let mut r = seg(s, 0, s.len());
    proof {
        assert(r@ =~= s@);
    }
    while r.len() > 0 && r[0] == c
        invariant
            trim_start_ch(r@, c) == trim_start_ch(s@, c),
        decreases r@.len(),
    {
        let ghost prev = r@;
        r.remove(0);
        proof {
            assert(r@ =~= prev.drop_first());
        }
    }
    r
}

pub fn trim(s: &Vec<char>) -> (r: Vec<char>)
    ensures
        r@ == trim_white(s@),
{
    let mut r = seg(s, 0, s.len());
    proof {
        assert(r@ =~= s@);
    }
    while r.len() > 0 && r[r.len() - 1].is_whitespace()
        invariant
            trim_end_white(r@) == trim_end_white(s@),
        decreases r@.len(),
    {
        r.pop();
    }
    proof {
        assert(trim_end_white(r@) == r@);
    }
    while r.len() > 0 && r[0].is_whitespace()
        invariant
            trim_start_white(r@) == trim_white(s@),
        decreases r@.len(),
    {
        let ghost prev = r@;
        r.remove(0);
        proof {
            assert(r@ =~= prev.drop_first());
        }
    }
    r
}

/// Number of whitespace-separated tokens in `s`; `prev_white` says whether the
/// position just before `s` was a token boundary.
pub open spec fn token_count(s: Seq<char>, prev_white: bool) -> int
    decreases s.len(),
{
    if s.len() == 0 {
        0
    } else {
        (if prev_white && !white_char(s.first()) {
            1int
        } else {
            0int
        }) + token_count(s.drop_first(), white_char(s.first()))
    }
}

/// True when `s` holds at least two whitespace-separated tokens.
pub fn two_tokens(s: &Vec<char>) -> (r: bool)
    ensures
        r == (token_count(s@, true) >= 2),
{
    let n = s.len();
    let mut cnt: usize = 0;
    let mut pw = true;
    let mut i: usize = 0;
    proof {
        assert(s@.skip(0) =~= s@);
    }
    while i < n
        invariant
            i <= n == s@.len(),
            cnt <= i,
            cnt + token_count(s@.skip(i as int), pw) == token_count(s@, true),
        decreases n - i,
    {
        proof {
            assert(s@.skip(i as int).drop_first() =~= s@.skip(i + 1));
            assert(s@.skip(i as int).first() == s@[i as int]);
        }
        let w = s[i].is_whitespace();
        if pw && !w {
            cnt = cnt + 1;
        }
        pw = w;
        i = i + 1;
    }
    proof {
        assert(s@.skip(n as int) =~= Seq::<char>::empty());
    }
    cnt >= 2
}

/// The line without one trailing carriage return.
pub open spec fn strip_cr(l: Seq<char>) -> Seq<char> {
    if l.len() > 0 && l.last() == '\r' {
        l.drop_last()
    } else {
        l
    }
}

/// The newline-separated segments of `s` from position `p` on, each with one
/// trailing carriage return removed.
pub open spec fn raw_lines_from(s: Seq<char>, p: int) -> Seq<Seq<char>>
    decreases s.len() - p,
        via raw_lines_from_dec
{
    if p < 0 || p > s.len() {
        Seq::empty()
    } else {
        let j = find_from(s, p, '\n');
        if j == s.len() {
            seq![strip_cr(s.subrange(p, s.len() as int))]
        } else {
            seq![strip_cr(s.subrange(p, j))] + raw_lines_from(s, j + 1)
        }
    }
}

#[via_fn]
proof fn raw_lines_from_dec(s: Seq<char>, p: int) {
    if 0 <= p <= s.len() {
        lemma_find_from(s, p, '\n');
    }
}

/// The lines of `s`: newline-separated segments, a trailing `\r` stripped from
/// each, and a final empty segment (from a trailing newline) dropped.
pub open spec fn lines_spec(s: Seq<char>) -> Seq<Seq<char>> {
    let parts = raw_lines_from(s, 0);
    if parts.len() > 0 && parts.last().len() == 0 {
        parts.drop_last()
    } else {
        parts
    }
}

/// Split text into lines.
pub fn split_lines(s: &Vec<char>) -> (r: Vec<Vec<char>>)
    ensures
        r@.len() == lines_spec(s@).len(),
        forall|i: int| 0 <= i < r@.len() ==> r@[i]@ == lines_spec(s@)[i],
{
    let n = s.len();
    let mut r: Vec<Vec<char>> = Vec::new();
    let mut p: usize = 0;
    let mut done = false;
    while !done
        invariant
            p <= n == s@.len(),
            forall|i: int| 0 <= i < r@.len() ==> r@[i]@ == raw_lines_from(s@, 0)[i],
            !done ==> raw_lines_from(s@, 0).len() == r@.len() + raw_lines_from(
                s@,
                p as int,
            ).len(),
            !done ==> forall|i: int|
                0 <= i < raw_lines_from(s@, p as int).len() ==> raw_lines_from(s@, p as int)[i]
                    == raw_lines_from(s@, 0)[r@.len() + i],
            done ==> r@.len() == raw_lines_from(s@, 0).len(),
        decreases n - p + (if done {
            0int
        } else {
            1int
        }),
    {
        let ghost parts = raw_lines_from(s@, p as int);
        proof {
            lemma_find_from(s@, p as int, '\n');
        }
        let j = find_char(s, p, '\n');
        let mut line = seg(s, p, j);
        if line.len() > 0 && line[line.len() - 1] == '\r' {
            line.pop();
        }
        proof {
            assert(line@ == strip_cr(s@.subrange(p as int, j as int)));
            if j < n {
                assert(parts == seq![strip_cr(s@.subrange(p as int, j as int))]
                    + raw_lines_from(s@, j + 1));
            } else {
                assert(parts =~= seq![strip_cr(s@.subrange(p as int, n as int))]);
            }
            assert(parts[0] == line@);
        }
        let ghost before = r@.len() as int;
        r.push(line);
        proof {
            assert(parts[0] == raw_lines_from(s@, 0)[before]);
        }
        if j == n {
            done = true;
        } else {
            proof {
                let tail = raw_lines_from(s@, j + 1);
                assert forall|i: int| 0 <= i < tail.len() implies tail[i] == raw_lines_from(
                    s@,
                    0,
                )[r@.len() + i] by {
                    assert(parts[i + 1] == tail[i]);
                    assert(parts[i + 1] == raw_lines_from(s@, 0)[before + (i + 1)]);
                }
            }
            p = j + 1;
        }
    }
    if r.len() > 0 {
        if r[r.len() - 1].len() == 0 {
            r.pop();
        }
    }
    r
}

/// Increment that stops at the top of `usize`.
pub open spec fn spec_sat_inc(n: int) -> int {
    if n < usize::MAX {
        n + 1
    } else {
        n
    }
}

pub fn sat_inc(n: usize) -> (r: usize)
    ensures
        r as int == spec_sat_inc(n as int),
{
    if n < usize::MAX {
        n + 1
    } else {
        n
    }
}

/// ASCII-case-insensitive equality of two characters.
pub open spec fn ascii_ieq_char(a: char, b: char) -> bool {
    a == b || (65 <= a as u32 <= 90 && b as u32 == a as u32 + 32) || (65 <= b as u32 <= 90
        && a as u32 == b as u32 + 32)
}

/// ASCII-case-insensitive equality of two texts.
pub open spec fn ascii_ieq(a: Seq<char>, b: Seq<char>) -> bool {
    a.len() == b.len() && (forall|i: int| 0 <= i < a.len() ==> ascii_ieq_char(a[i], b[i]))
}

pub fn eq_ignore_ascii_case_chars(a: &Vec<char>, b: &str) -> (r: bool)
    ensures
        r == ascii_ieq(a@, b@),
{
    let n = b.unicode_len();
    if a.len() != n {
        return false;
    }
    let mut i: usize = 0;
    while i < n
        invariant
            i <= n == a@.len() == b@.len(),
            forall|k: int| 0 <= k < i ==> ascii_ieq_char(a@[k], b@[k]),
        decreases n - i,
    {
        let ca = a[i];
        let cb = b.get_char(i);
        let x = ca as u32;
        let y = cb as u32;
        let ok = ca == cb || (65 <= x && x <= 90 && y == x + 32) || (65 <= y && y <= 90 && x == y
            + 32);
        if !ok {
            return false;
        }
        i = i + 1;
    }
    true
}

/// Compare a character vector against a string slice.
pub fn eq_str(v: &Vec<char>, s: &str) -> (r: bool)
    ensures
        r == (v@ == s@),
{
    let n = s.unicode_len();
    if v.len() != n {
        return false;
    }
    let mut i: usize = 0;
    while i < n
        invariant
            i <= n == s@.len() == v@.len(),
            forall|k: int| 0 <= k < i ==> v@[k] == s@[k],
        decreases n - i,
    {
        if v[i] != s.get_char(i) {
            return false;
        }
        i = i + 1;
    }
    proof {
        assert(v@ =~= s@);
    }
    true
}

} // verus!
