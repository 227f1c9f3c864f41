//! Marker scanning in assistant text.
//!
//! A marker is a configured literal (the primary "insight" marker, the "skip"
//! marker, the "captured" marker) that opens a line: optionally preceded by
//! whitespace and a run of backtick fences, optionally followed by a colon,
//! and then by a same-line topic candidate.  Because the whitespace around the
//! optional colon may span line breaks, a bare marker line takes the next
//! line's text as its candidate.  A candidate that is empty, purely
//! decorative, or shorter than two tokens is not a topic; the primary marker
//! then falls back to scanning the remaining lines for the first one that
//! still has two or more tokens after cleaning.

use vstd::prelude::*;
use crate::text::{
    lower_of, trim_white, trim_end_ch, trim_start_ch, token_count, find_from,
    skip_white_from, skip_run_from, match_at, lemma_find_from, lemma_skip_white_from,
    lemma_skip_run_from, seg, trim, trim_end_run, trim_start_run, two_tokens, find_char,
    skip_white, skip_run, matches_at, lower_chars,
};

verus! {

/// A border or fence character; a candidate made only of these is decorative.
pub open spec fn border_char(c: char) -> bool {
    c == '\u{2500}' || c == '\u{2501}' || c == '\u{2550}' || c == '\u{254c}' || c == '\u{254d}'
        || c == '-' || c == '_' || c == '`'
}

/// A non-empty text made purely of border characters.
pub open spec fn decorative(s: Seq<char>) -> bool {
    s.len() > 0 && (forall|i: int| 0 <= i < s.len() ==> border_char(s[i]))
}

pub fn decorative_chars(s: &Vec<char>) -> (r: bool)
    ensures
        r == decorative(s@),
{
    let n = s.len();
    if n == 0 {
        return false;
    }
    let mut i: usize = 0;
    while i < n
        invariant
            i <= n == s@.len(),
            forall|k: int| 0 <= k < i ==> border_char(s@[k]),
        decreases n - i,
    {
        let c = s[i];
        let b = c == '\u{2500}' || c == '\u{2501}' || c == '\u{2550}' || c == '\u{254c}' || c
            == '\u{254d}' || c == '-' || c == '_' || c == '`';
        if !b {
            return false;
        }
        i = i + 1;
    }
    true
}

/// An index clipped to the end of the text.
pub open spec fn clip(s: Seq<char>, q: int) -> int {
    if q > s.len() {
        s.len() as int
    } else {
        q
    }
}

/// Where a marker match that begins at line start `p` ends: the index just
/// after the marker literal, provided the line opens with optional
/// whitespace, an optional backtick run, optional whitespace, and the marker.
pub open spec fn marker_match_end(s: Seq<char>, p: int, marker: Seq<char>) -> Option<int> {
    let i = skip_white_from(s, p);
    let j = skip_run_from(s, i, '`');
    let k = skip_white_from(s, j);
    if match_at(s, k, marker) {
        Some(k + marker.len() as int)
    } else {
        None
    }
}

/// Start of the topic candidate after a marker: whitespace, at most one
/// colon, and more whitespace are skipped.
pub open spec fn cand_start_from(s: Seq<char>, m: int) -> int {
    let a = skip_white_from(s, m);
    if a < s.len() && s[a] == ':' {
        skip_white_from(s, a + 1)
    } else {
        a
    }
}

/// One marker occurrence: the raw same-line topic candidate and the position
/// where scanning resumes (the start of the line after the candidate).
pub ghost struct MarkerOcc {
    pub cand: Seq<char>,
    pub after: int,
}

/// Every occurrence of `marker` at or after position `p`, in text order.
/// Each occurrence consumes through the end of its candidate line, so a line
/// swallowed as a bare marker's candidate is not scanned again.
pub open spec fn scan_occs(s: Seq<char>, p: int, marker: Seq<char>) -> Seq<MarkerOcc>
    decreases s.len() - p,
        via scan_occs_dec
{
    if p < 0 || p >= s.len() {
        Seq::empty()
    } else {
        match marker_match_end(s, p, marker) {
            None => scan_occs(s, clip(s, find_from(s, p, '\n') + 1), marker),
            Some(m) => {
                let b = cand_start_from(s, m);
                let e = find_from(s, b, '\n');
                seq![MarkerOcc { cand: s.subrange(b, e), after: clip(s, e + 1) }] + scan_occs(
                    s,
                    clip(s, e + 1),
                    marker,
                )
            },
        }
    }
}

#[via_fn]
proof fn scan_occs_dec(s: Seq<char>, p: int, marker: Seq<char>) {
    if 0 <= p < s.len() {
        lemma_find_from(s, p, '\n');
        lemma_skip_white_from(s, p);
        let i = skip_white_from(s, p);
        lemma_skip_run_from(s, i, '`');
        let j = skip_run_from(s, i, '`');
        lemma_skip_white_from(s, j);
        let k = skip_white_from(s, j);
        if match_at(s, k, marker) {
            let m = k + marker.len();
            lemma_skip_white_from(s, m);
            let a = skip_white_from(s, m);
            if a < s.len() && s[a] == ':' {
                lemma_skip_white_from(s, a + 1);
            }
            let b = cand_start_from(s, m);
            lemma_find_from(s, b, '\n');
        }
    }
}

/// A candidate normalised: trimmed, trailing backticks removed, trimmed again.
pub open spec fn normalize_cand(c: Seq<char>) -> Seq<char> {
    trim_white(trim_end_ch(trim_white(c), '`'))
}

/// A normalised candidate that counts as a topic: non-empty, not decorative,
/// at least two tokens.
pub open spec fn good_topic(c: Seq<char>) -> bool {
    c.len() > 0 && !decorative(c) && token_count(c, true) >= 2
}

/// The topic taken from the first qualifying line at or after position `q`:
/// each line is trimmed, stripped of emphasis asterisks and a trailing colon
/// run, and accepted once it has two or more tokens; blank, decorative and
/// still-too-short lines are passed over, and the occurrence has no topic
/// only when no qualifying line remains.
pub open spec fn next_line_topic_spec(s: Seq<char>, q: int) -> Option<Seq<char>>
    decreases s.len() - q,
        via next_line_topic_dec
{
    if q < 0 || q >= s.len() {
        None
    } else {
        let e = find_from(s, q, '\n');
        let t = trim_white(s.subrange(q, e));
        if t.len() == 0 || decorative(t) {
            next_line_topic_spec(s, clip(s, e + 1))
        } else {
            let cleaned = trim_white(trim_end_ch(trim_end_ch(trim_start_ch(t, '*'), '*'), ':'));
            if token_count(cleaned, true) >= 2 {
                Some(cleaned)
            } else {
                next_line_topic_spec(s, clip(s, e + 1))
            }
        }
    }
}

#[via_fn]
proof fn next_line_topic_dec(s: Seq<char>, q: int) {
    if 0 <= q < s.len() {
        lemma_find_from(s, q, '\n');
    }
}

/// The topic of a primary-marker occurrence: the normalised candidate when it
/// qualifies, and otherwise the next-line fallback.
pub open spec fn occ_topic(s: Seq<char>, occ: MarkerOcc) -> Option<Seq<char>> {
    let c = normalize_cand(occ.cand);
    if good_topic(c) {
        Some(c)
    } else {
        next_line_topic_spec(s, occ.after)
    }
}

/// The topic of a skip-marker occurrence: the normalised candidate when it
/// qualifies, lowercased; there is no fallback.
pub open spec fn skip_topic(occ: MarkerOcc) -> Option<Seq<char>> {
    let c = normalize_cand(occ.cand);
    if good_topic(c) {
        Some(lower_of(c))
    } else {
        None
    }
}

/// The topic of a captured-marker occurrence: the candidate up to an arrow
/// separator, normalised and lowercased when it qualifies; no fallback.
pub open spec fn captured_topic(occ: MarkerOcc) -> Option<Seq<char>> {
    let pre = occ.cand.subrange(0, find_from(occ.cand, 0, '\u{2192}'));
    let c = normalize_cand(pre);
    if good_topic(c) {
        Some(lower_of(c))
    } else {
        None
    }
}

/// One marker occurrence found by the executable scanner.
pub struct MarkerHit {
    pub cand: Vec<char>,
    pub after: usize,
}

impl MarkerHit {
    /// The occurrence this hit stands for.
    pub open spec fn occ(&self) -> MarkerOcc {
        MarkerOcc { cand: self.cand@, after: self.after as int }
    }
}

/// Find every occurrence of `marker` in `s`, in text order.
pub fn scan_marker(s: &Vec<char>, marker: &Vec<char>) -> (r: Vec<MarkerHit>)
    ensures
        r@.len() == scan_occs(s@, 0, marker@).len(),
        forall|i: int| 0 <= i < r@.len() ==> (#[trigger] r@[i]).occ() == scan_occs(
            s@,
            0,
            marker@,
        )[i],
        forall|i: int| 0 <= i < r@.len() ==> (#[trigger] r@[i]).after <= s@.len(),
{
    let n = s.len();
    let mut r: Vec<MarkerHit> = Vec::new();
    let mut p: usize = 0;
    while p < n
        invariant
            p <= n == s@.len(),
            scan_occs(s@, 0, marker@).len() == r@.len() + scan_occs(s@, p as int, marker@).len(),
            forall|i: int| 0 <= i < r@.len() ==> (#[trigger] r@[i]).occ() == scan_occs(
                s@,
                0,
                marker@,
            )[i],
            forall|i: int| 0 <= i < r@.len() ==> (#[trigger] r@[i]).after <= s@.len(),
            forall|i: int|
                0 <= i < scan_occs(s@, p as int, marker@).len() ==> scan_occs(
                    s@,
                    p as int,
                    marker@,
                )[i] == scan_occs(s@, 0, marker@)[r@.len() + i],
        decreases n - p,
    {
        let ghost rest = scan_occs(s@, p as int, marker@);
        let i = skip_white(s, p);
        let j = skip_run(s, i, '`');
        let k = skip_white(s, j);
        if matches_at(s, k, marker) {
            let m = k + marker.len();
            let a = skip_white(s, m);
            let b = if a < n && s[a] == ':' {
                skip_white(s, a + 1)
            } else {
                a
            };
            proof {
                assert(b == cand_start_from(s@, m as int));
            }
            let e = find_char(s, b, '\n');
            let cand = seg(s, b, e);
            let after = if e < n {
                e + 1
            } else {
                n
            };
            let hit = MarkerHit { cand, after };
            proof {
                assert(rest == seq![hit.occ()] + scan_occs(s@, after as int, marker@));
                assert(rest[0] == hit.occ());
            }
            let ghost before = r@.len() as int;
            r.push(hit);
            proof {
                let tail = scan_occs(s@, after as int, marker@);
                assert forall|t: int| 0 <= t < tail.len() implies tail[t] == scan_occs(
                    s@,
                    0,
                    marker@,
                )[r@.len() + t] by {
                    assert(rest[t + 1] == tail[t]);
                    assert(rest[t + 1] == scan_occs(s@, 0, marker@)[before + (t + 1)]);
                }
            }
            p = after;
        } else {
            proof {
                lemma_find_from(s@, p as int, '\n');
                assert(rest == scan_occs(s@, clip(s@, find_from(s@, p as int, '\n') + 1), marker@));
            }
            let q = find_char(s, p, '\n');
            if q < n {
                p = q + 1;
            } else {
                p = n;
            }
        }
    }
    r
}

/// The topic attached to a primary-marker hit, if any.
pub fn hit_topic(s: &Vec<char>, hit: &MarkerHit) -> (r: Option<Vec<char>>)
    requires
        hit.after <= s@.len(),
    ensures
        match r {
            Some(t) => occ_topic(s@, hit.occ()) == Some(t@),
            None => occ_topic(s@, hit.occ()) is None,
        },
{
    let c = normalize_hit_cand(&hit.cand);
    if good_topic_chars(&c) {
        Some(c)
    } else {
        next_line_topic_from(s, hit.after)
    }
}

/// The topic attached to a skip-marker hit, if any.
pub fn hit_skip_topic(hit: &MarkerHit) -> (r: Option<Vec<char>>)
    ensures
        match r {
            Some(t) => skip_topic(hit.occ()) == Some(t@),
            None => skip_topic(hit.occ()) is None,
        },
{
    let c = normalize_hit_cand(&hit.cand);
    if good_topic_chars(&c) {
        Some(lower_chars(&c))
    } else {
        None
    }
}

/// The topic attached to a captured-marker hit, if any.
pub fn hit_captured_topic(hit: &MarkerHit) -> (r: Option<Vec<char>>)
    ensures
        match r {
            Some(t) => captured_topic(hit.occ()) == Some(t@),
            None => captured_topic(hit.occ()) is None,
        },
{
    let arrow = find_char(&hit.cand, 0, '\u{2192}');
    let pre = seg(&hit.cand, 0, arrow);
    let c = normalize_hit_cand(&pre);
    if good_topic_chars(&c) {
        Some(lower_chars(&c))
    } else {
        None
    }
}

fn normalize_hit_cand(cand: &Vec<char>) -> (r: Vec<char>)
    ensures
        r@ == normalize_cand(cand@),
{
    let t1 = trim(cand);
    let t2 = trim_end_run(&t1, '`');
    trim(&t2)
}

fn good_topic_chars(c: &Vec<char>) -> (r: bool)
    ensures
        r == good_topic(c@),
{
    if c.len() == 0 {
        return false;
    }
    if decorative_chars(c) {
        return false;
    }
    two_tokens(c)
}

/// Walk the lines at or after `q` for a fallback topic.
pub fn next_line_topic_from(s: &Vec<char>, q0: usize) -> (r: Option<Vec<char>>)
    requires
        q0 <= s@.len(),
    ensures
        match r {
            Some(t) => next_line_topic_spec(s@, q0 as int) == Some(t@),
            None => next_line_topic_spec(s@, q0 as int) is None,
        },
{
    let n = s.len();
    let mut q = q0;
    while q < n
        invariant
            q0 <= q <= n == s@.len(),
            next_line_topic_spec(s@, q0 as int) == next_line_topic_spec(s@, q as int),
        decreases n - q,
    {
        proof {
            lemma_find_from(s@, q as int, '\n');
        }
        let e = find_char(s, q, '\n');
        let line = seg(s, q, e);
        let t = trim(&line);
        if t.len() == 0 || decorative_chars(&t) {
            if e < n {
                q = e + 1;
            } else {
                q = n;
            }
        } else {
            let c1 = trim_start_run(&t, '*');
            let c2 = trim_end_run(&c1, '*');
            let c3 = trim_end_run(&c2, ':');
            let cleaned = trim(&c3);
            if two_tokens(&cleaned) {
                return Some(cleaned);
            }
            if e < n {
                q = e + 1;
            } else {
                q = n;
            }
        }
    }
    None
}

} // verus!
