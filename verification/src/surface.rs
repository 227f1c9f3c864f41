//! Text parsers behind the session-start digest.
//!
//! Every function here takes already-loaded text and returns the formatted
//! section to show, or `None` when there is nothing to say; reading files and
//! running helper commands stays with the caller.

use vstd::prelude::*;
use vstd::string::{StrSliceExecFns, StringExecFns};
use crate::config::{Config, spec_join};
use crate::prompt::r_fence;
use crate::text::lower_of;
use crate::text::{
    alnum_char, trim_white, trim_start_ch, trim_end_ch, find_from, skip_white_from,
    match_at, lemma_find_from, lemma_skip_white_from, to_chars, split_lines, lines_spec, seg,
    trim, trim_start_run, trim_end_run, matches_at, find_char, skip_white, string_from_chars,
    chars_eq,
};

verus! {

// ---------- rotating selections ----------

/// One bulleted output line.
pub open spec fn bullet_line(item: Seq<char>) -> Seq<char> {
    "  \u{2022} "@ + item + "\n"@
}

/// `cnt` bulleted lines taken from `items` starting at `start`, wrapping
/// around the end of the pool.
pub open spec fn rotation_lines(items: Seq<Seq<char>>, start: int, cnt: int) -> Seq<char>
    decreases cnt,
{
    if cnt <= 0 || items.len() == 0 || start < 0 || start >= items.len() {
        Seq::empty()
    } else {
        let nxt = if start + 1 == items.len() {
            0
        } else {
            start + 1
        };
        bullet_line(items[start]) + rotation_lines(items, nxt, cnt - 1)
    }
}

/// A header plus a rotating selection of at most `max` items, starting at
/// `offset` modulo the pool size.
pub open spec fn rotation_block(
    header: Seq<char>,
    items: Seq<Seq<char>>,
    max: int,
    offset: int,
) -> Seq<char> {
    let cnt = if max < items.len() {
        max
    } else {
        items.len() as int
    };
    header + rotation_lines(items, offset % (items.len() as int), cnt)
}

fn rotation_block_x(header: &str, items: &Vec<String>, max: usize, offset: usize) -> (r: String)
    requires
        items@.len() > 0,
    ensures
        r@ == rotation_block(
            header@,
            items@.map_values(|s: String| s@),
            max as int,
            offset as int,
        ),
{
    let ghost iv = items@.map_values(|s: String| s@);
    let count = items.len();
    let total = if max < count {
        max
    } else {
        count
    };
    let start = offset % count;
    let mut out = String::from_str(header);
    let mut cur = start;
    let mut i: usize = 0;
    while i < total
        invariant
            i <= total,
            total <= count == items@.len(),
            iv == items@.map_values(|s: String| s@),
            cur < count,
            out@ + rotation_lines(iv, cur as int, (total - i) as int) == rotation_block(
                header@,
                iv,
                max as int,
                offset as int,
            ),
        decreases total - i,
    {
        out.append("  \u{2022} ");
        out.append(items[cur].as_str());
        out.append("\n");
        cur = if cur + 1 == count {
            0
        } else {
            cur + 1
        };
        i = i + 1;
    }
    out
}

/// Format a rotating selection from a pool of items; `None` when the pool is
/// empty.  The rotation starts at `offset` modulo the pool size and wraps.
pub fn format_rotating_pool(items: &Vec<String>, max: usize, offset: usize) -> (r: Option<String>)
    ensures
        match r {
            Some(s) => items@.len() > 0 && s@ == rotation_block(
                "Rediscovery:\n"@,
                items@.map_values(|t: String| t@),
                max as int,
                offset as int,
            ),
            None => items@.len() == 0,
        },
{
    if items.len() == 0 {
        return None;
    }
    Some(rotation_block_x("Rediscovery:\n", items, max, offset))
}

// ---------- captured-tab archives ----------

/// The title of one archived markdown link line: `- [Title](...)` with a
/// non-empty title.
pub open spec fn tab_title_of(line: Seq<char>) -> Option<Seq<char>> {
    if !match_at(line, 0, "- ["@) {
        None
    } else {
        let start = "- ["@.len() as int;
        let e = find_from(line, start, ']');
        if e > start && e < line.len() && e + 1 < line.len() && line[e + 1] == '(' {
            Some(line.subrange(start, e))
        } else {
            None
        }
    }
}

/// The titles of every link line, in order.
pub open spec fn spec_tab_titles(lines: Seq<Seq<char>>) -> Seq<Seq<char>>
    decreases lines.len(),
{
    if lines.len() == 0 {
        Seq::empty()
    } else {
        let rest = spec_tab_titles(lines.drop_first());
        match tab_title_of(lines.first()) {
            Some(t) => seq![t] + rest,
            None => rest,
        }
    }
}

fn tab_title_x(line: &Vec<char>) -> (r: Option<Vec<char>>)
    ensures
        match r {
            Some(t) => tab_title_of(line@) == Some(t@),
            None => tab_title_of(line@) is None,
        },
{
    let pre = to_chars("- [");
    if !matches_at(line, 0, &pre) {
        return None;
    }
    let start = pre.len();
    proof {
        lemma_find_from(line@, start as int, ']');
    }
    let e = find_char(line, start, ']');
    let n = line.len();
    if e > start && e < n && e + 1 < n && line[e + 1] == '(' {
        Some(seg(line, start, e))
    } else {
        None
    }
}

/// Extract titles from a captured-tabs archive: every `- [Title](URL)` line.
pub fn extract_tab_titles(content: &str) -> (r: Vec<String>)
    ensures
        r@.map_values(|s: String| s@) == spec_tab_titles(lines_spec(content@)),
{
    let chars = to_chars(content);
    let lines = split_lines(&chars);
    let ghost lv = lines_spec(content@);
    let n = lines.len();
    let mut r: Vec<String> = Vec::new();
    let mut i: usize = 0;
    proof {
        assert(lv.skip(0) =~= lv);
        assert(Seq::<String>::empty().map_values(|s: String| s@) =~= Seq::<Seq<char>>::empty());
    }
    while i < n
        invariant
            i <= n == lines@.len(),
            n == lv.len(),
            forall|t: int| 0 <= t < n ==> lines@[t]@ == lv[t],
            r@.map_values(|s: String| s@) + spec_tab_titles(lv.skip(i as int)) == spec_tab_titles(
                lv,
            ),
        decreases n - i,
    {
        proof {
            assert(lv.skip(i as int).first() == lv[i as int]);
            assert(lv.skip(i as int).drop_first() =~= lv.skip(i + 1));
        }
        let ghost prev = r@.map_values(|s: String| s@);
        match tab_title_x(&lines[i]) {
            Some(t) => {
                let ghost tv = tab_title_of(lv[i as int])->Some_0;
                r.push(string_from_chars(&t));
                proof {
                    assert(r@.map_values(|s: String| s@) =~= prev.push(tv));
                    assert(prev.push(tv) =~= prev + seq![tv]);
                    assert((prev + seq![tv]) + spec_tab_titles(lv.skip(i + 1)) =~= prev + (seq![tv]
                        + spec_tab_titles(lv.skip(i + 1))));
                }
            },
            None => {},
        }
        i = i + 1;
    }
    proof {
        assert(lv.skip(n as int) =~= Seq::<Seq<char>>::empty());
        assert(r@.map_values(|s: String| s@) + Seq::<Seq<char>>::empty() =~= r@.map_values(
            |s: String| s@,
        ));
    }
    r
}

/// Parse a captured-tabs archive and format a rotating selection of its link
/// titles; `None` when no link line exists.
pub fn parse_captured_tabs(content: &str, max: usize, offset: usize) -> (r: Option<String>)
    ensures
        match r {
            Some(s) => spec_tab_titles(lines_spec(content@)).len() > 0 && s@ == rotation_block(
                "Captured tabs:\n"@,
                spec_tab_titles(lines_spec(content@)),
                max as int,
                offset as int,
            ),
            None => spec_tab_titles(lines_spec(content@)).len() == 0,
        },
{
    let titles = extract_tab_titles(content);
    if titles.len() == 0 {
        return None;
    }
    Some(rotation_block_x("Captured tabs:\n", &titles, max, offset))
}

// ---------- journal gaps ----------

/// Repeatedly strip a prefix, the way a string's matched prefixes trim away.
pub open spec fn strip_prefix_rep(s: Seq<char>, p: Seq<char>) -> Seq<char>
    decreases s.len(),
{
    if p.len() > 0 && match_at(s, 0, p) {
        strip_prefix_rep(s.skip(p.len() as int), p)
    } else {
        s
    }
}

fn strip_prefix_rep_x(s: &Vec<char>, p: &Vec<char>) -> (r: Vec<char>)
    ensures
        r@ == strip_prefix_rep(s@, p@),
{
    let mut cur = seg(s, 0, s.len());
    proof {
        assert(cur@ =~= s@);
    }
    while p.len() > 0 && matches_at(&cur, 0, p)
        invariant
            strip_prefix_rep(cur@, p@) == strip_prefix_rep(s@, p@),
        decreases cur@.len(),
    {
        let next = seg(&cur, p.len(), cur.len());
        proof {
            assert(next@ =~= cur@.skip(p@.len() as int));
        }
        cur = next;
    }
    cur
}

/// One journal line folded into the section-tracking state: which section is
/// open, and which unchecked items have been collected.
pub open spec fn journal_step(st: (bool, bool, Seq<Seq<char>>), line: Seq<char>) -> (
    bool,
    bool,
    Seq<Seq<char>>,
) {
    let (in_plan, in_review, items) = st;
    if match_at(line, 0, "## Daily plan"@) {
        (true, false, items)
    } else if match_at(line, 0, "## Daily review"@) {
        (false, true, items)
    } else if match_at(line, 0, "## "@) || match_at(line, 0, "![["@) {
        (false, false, items)
    } else if (in_plan || in_review) && match_at(line, 0, "- [ ] "@) {
        let item = trim_white(strip_prefix_rep(line, "- [ ] "@));
        if match_at(item, 0, "#log/daily/"@) {
            (in_plan, in_review, items)
        } else {
            (in_plan, in_review, items.push(item))
        }
    } else {
        (in_plan, in_review, items)
    }
}

pub open spec fn journal_fold(st: (bool, bool, Seq<Seq<char>>), lines: Seq<Seq<char>>) -> (
    bool,
    bool,
    Seq<Seq<char>>,
)
    decreases lines.len(),
{
    if lines.len() == 0 {
        st
    } else {
        journal_fold(journal_step(st, lines.first()), lines.drop_first())
    }
}

/// The unchecked plan and review items of a journal file.
pub open spec fn spec_journal_items(content: Seq<char>) -> Seq<Seq<char>> {
    journal_fold((false, false, Seq::empty()), lines_spec(content)).2
}

/// All collected items as one bulleted block.
pub open spec fn bullets_of(items: Seq<Seq<char>>) -> Seq<char>
    decreases items.len(),
{
    if items.len() == 0 {
        Seq::empty()
    } else {
        bullet_line(items.first()) + bullets_of(items.drop_first())
    }
}

/// Parse a journal for unchecked items in its daily plan and daily review
/// sections; `None` when everything is checked off.
pub fn parse_journal_gaps(content: &str) -> (r: Option<String>)
    ensures
        match r {
            Some(s) => spec_journal_items(content@).len() > 0 && s@ == "Yesterday:\n"@ + bullets_of(
                spec_journal_items(content@),
            ),
            None => spec_journal_items(content@).len() == 0,
        },
{
    let chars = to_chars(content);
    let lines = split_lines(&chars);
    let ghost lv = lines_spec(content@);
    let plan_hdr = to_chars("## Daily plan");
    let review_hdr = to_chars("## Daily review");
    let any_hdr = to_chars("## ");
    let embed = to_chars("![[");
    let task = to_chars("- [ ] ");
    let log_marker = to_chars("#log/daily/");
    let n = lines.len();
    let mut in_plan = false;
    let mut in_review = false;
    let mut items: Vec<Vec<char>> = Vec::new();
    let ghost st0: (bool, bool, Seq<Seq<char>>) = (false, false, Seq::empty());
    let mut i: usize = 0;
    proof {
        assert(lv.skip(0) =~= lv);
        assert(Seq::<Vec<char>>::empty().map_values(|v: Vec<char>| v@) =~= Seq::<
            Seq<char>,
        >::empty());
    }
    while i < n
        invariant
            i <= n == lines@.len(),
            n == lv.len(),
            forall|t: int| 0 <= t < n ==> lines@[t]@ == lv[t],
            plan_hdr@ == "## Daily plan"@,
            review_hdr@ == "## Daily review"@,
            any_hdr@ == "## "@,
            embed@ == "![["@,
            task@ == "- [ ] "@,
            log_marker@ == "#log/daily/"@,
            journal_fold(
                (in_plan, in_review, items@.map_values(|v: Vec<char>| v@)),
                lv.skip(i as int),
            ) == journal_fold(st0, lv),
        decreases n - i,
    {
        proof {
            assert(lv.skip(i as int).first() == lv[i as int]);
            assert(lv.skip(i as int).drop_first() =~= lv.skip(i + 1));
        }
        let ghost before = items@.map_values(|v: Vec<char>| v@);
        let line = &lines[i];
        if matches_at(line, 0, &plan_hdr) {
            in_plan = true;
            in_review = false;
        } else if matches_at(line, 0, &review_hdr) {
            in_review = true;
            in_plan = false;
        } else if matches_at(line, 0, &any_hdr) || matches_at(line, 0, &embed) {
            in_plan = false;
            in_review = false;
        } else if (in_plan || in_review) && matches_at(line, 0, &task) {
            let stripped = strip_prefix_rep_x(line, &task);
            let item = trim(&stripped);
            if !matches_at(&item, 0, &log_marker) {
                items.push(item);
                proof {
                    assert(items@.map_values(|v: Vec<char>| v@) =~= before.push(
                        trim_white(strip_prefix_rep(lv[i as int], "- [ ] "@)),
                    ));
                }
            }
        }
        i = i + 1;
    }
    proof {
        assert(lv.skip(n as int) =~= Seq::<Seq<char>>::empty());
    }
    if items.len() == 0 {
        return None;
    }
    let ghost final_items = journal_fold(st0, lv).2;
    let m = items.len();
    let mut out = String::from_str("Yesterday:\n");
    let mut k: usize = 0;
    proof {
        assert(final_items.skip(0) =~= final_items);
    }
    while k < m
        invariant
            k <= m == items@.len(),
            m == final_items.len(),
            forall|t: int| 0 <= t < m ==> items@[t]@ == final_items[t],
            out@ + bullets_of(final_items.skip(k as int)) == "Yesterday:\n"@ + bullets_of(
                final_items,
            ),
        decreases m - k,
    {
        proof {
            assert(final_items.skip(k as int).first() == final_items[k as int]);
            assert(final_items.skip(k as int).drop_first() =~= final_items.skip(k + 1));
        }
        out.append("  \u{2022} ");
        let piece = string_from_chars(&items[k]);
        out.append(piece.as_str());
        out.append("\n");
        k = k + 1;
    }
    proof {
        assert(bullets_of(final_items.skip(m as int)) =~= Seq::<char>::empty());
    }
    Some(out)
}

// ---------- backlog tasks ----------

/// A decimal digit.
pub open spec fn digit_char(c: char) -> bool {
    48 <= c as u32 <= 57
}

/// A word character, as task metadata values use them: alphanumeric or an
/// underscore.
pub open spec fn word_char(c: char) -> bool {
    alnum_char(c) || c == '_'
}

/// The text matched by a due-date tag starting at `i`:
/// `[due:: YYYY-MM-DD]` with any amount of whitespace after the separator.
pub open spec fn due_tag_at(s: Seq<char>, i: int) -> Option<Seq<char>> {
    if !match_at(s, i, "[due::"@) {
        None
    } else {
        let a = skip_white_from(s, i + "[due::"@.len());
        if a + 10 < s.len() && (forall|k: int| a <= k < a + 4 ==> digit_char(s[k])) && s[a + 4]
            == '-' && digit_char(s[a + 5]) && digit_char(s[a + 6]) && s[a + 7] == '-' && digit_char(
            s[a + 8],
        ) && digit_char(s[a + 9]) && s[a + 10] == ']' {
            Some(s.subrange(i, a + 11))
        } else {
            None
        }
    }
}

/// The first due-date tag at or after `i`.
pub open spec fn find_due_tag(s: Seq<char>, i: int) -> Option<Seq<char>>
    decreases s.len() - i,
{
    if i < 0 || i >= s.len() {
        None
    } else {
        match due_tag_at(s, i) {
            Some(m) => Some(m),
            None => find_due_tag(s, i + 1),
        }
    }
}

/// The text matched by a priority tag starting at `i`:
/// `[priority:: word]` with a non-empty run of word characters.
pub open spec fn pri_tag_at(s: Seq<char>, i: int) -> Option<Seq<char>> {
    if !match_at(s, i, "[priority::"@) {
        None
    } else {
        let a = skip_white_from(s, i + "[priority::"@.len());
        let b = word_run_from(s, a);
        if b > a && b < s.len() && s[b] == ']' {
            Some(s.subrange(i, b + 1))
        } else {
            None
        }
    }
}

/// First index at or after `i` whose character is not a word character.
pub open spec fn word_run_from(s: Seq<char>, i: int) -> int
    decreases s.len() - i,
{
    if i < 0 {
        0
    } else if i >= s.len() {
        s.len() as int
    } else if word_char(s[i]) {
        word_run_from(s, i + 1)
    } else {
        i
    }
}

pub proof fn lemma_word_run_from(s: Seq<char>, i: int)
    requires
        0 <= i <= s.len(),
    ensures
        i <= word_run_from(s, i) <= s.len(),
    decreases s.len() - i,
{
    if i < s.len() && word_char(s[i]) {
        lemma_word_run_from(s, i + 1);
    }
}

/// The first priority tag at or after `i`.
pub open spec fn find_pri_tag(s: Seq<char>, i: int) -> Option<Seq<char>>
    decreases s.len() - i,
{
    if i < 0 || i >= s.len() {
        None
    } else {
        match pri_tag_at(s, i) {
            Some(m) => Some(m),
            None => find_pri_tag(s, i + 1),
        }
    }
}

/// Every non-overlapping occurrence of `pat` removed, scanning left to right.
pub open spec fn remove_all(s: Seq<char>, pat: Seq<char>) -> Seq<char>
    decreases s.len(),
{
    if s.len() == 0 || pat.len() == 0 {
        s
    } else if match_at(s, 0, pat) {
        remove_all(s.skip(pat.len() as int), pat)
    } else {
        seq![s.first()] + remove_all(s.drop_first(), pat)
    }
}

fn word_run_x(s: &Vec<char>, i: usize) -> (r: usize)
    requires
        i <= s@.len(),
    ensures
        r == word_run_from(s@, i as int),
        i <= r <= s@.len(),
{
    let n = s.len();
    let mut j = i;
    while j < n
        invariant
            i <= j <= n == s@.len(),
            word_run_from(s@, i as int) == word_run_from(s@, j as int),
        decreases n - j,
    {
        let c = s[j];
        if !(c.is_alphanumeric() || c == '_') {
            return j;
        }
        j = j + 1;
    }
    j
}

pub(crate) fn is_digit_x(c: char) -> (r: bool)
    ensures
        r == digit_char(c),
{
    '0' <= c && c <= '9'
}

fn due_tag_x(s: &Vec<char>, i: usize, tag: &Vec<char>) -> (r: Option<Vec<char>>)
    requires
        i <= s@.len(),
        tag@ == "[due::"@,
    ensures
        match r {
            Some(m) => due_tag_at(s@, i as int) == Some(m@),
            None => due_tag_at(s@, i as int) is None,
        },
{
    if !matches_at(s, i, tag) {
        return None;
    }
    let n = s.len();
    proof {
        assert(i + tag@.len() <= n);
    }
    let a = skip_white(s, i + tag.len());
    if n > 10 && a < n - 10 && is_digit_x(s[a]) && is_digit_x(s[a + 1]) && is_digit_x(s[a + 2])
        && is_digit_x(s[a + 3]) && s[a + 4] == '-' && is_digit_x(s[a + 5]) && is_digit_x(s[a + 6])
        && s[a + 7] == '-' && is_digit_x(s[a + 8]) && is_digit_x(s[a + 9]) && s[a + 10] == ']' {
        proof {
            assert(forall|k: int| a <= k < a + 4 ==> digit_char(s@[k]));
        }
        Some(seg(s, i, a + 11))
    } else {
        proof {
            assert(due_tag_at(s@, i as int) is None);
        }
        None
    }
}

fn pri_tag_x(s: &Vec<char>, i: usize, tag: &Vec<char>) -> (r: Option<Vec<char>>)
    requires
        i <= s@.len(),
        tag@ == "[priority::"@,
    ensures
        match r {
            Some(m) => pri_tag_at(s@, i as int) == Some(m@),
            None => pri_tag_at(s@, i as int) is None,
        },
{
    if !matches_at(s, i, tag) {
        return None;
    }
    let n = s.len();
    proof {
        assert(i + tag@.len() <= n);
    }
    let a = skip_white(s, i + tag.len());
    let b = word_run_x(s, a);
    if b > a && b < n && s[b] == ']' {
        Some(seg(s, i, b + 1))
    } else {
        None
    }
}

fn find_due_x(s: &Vec<char>, tag: &Vec<char>) -> (r: Option<Vec<char>>)
    requires
        tag@ == "[due::"@,
    ensures
        match r {
            Some(m) => find_due_tag(s@, 0) == Some(m@),
            None => find_due_tag(s@, 0) is None,
        },
{
    let n = s.len();
    let mut i: usize = 0;
    while i < n
        invariant
            i <= n == s@.len(),
            tag@ == "[due::"@,
            find_due_tag(s@, 0) == find_due_tag(s@, i as int),
        decreases n - i,
    {
        match due_tag_x(s, i, tag) {
            Some(m) => {
                return Some(m);
            },
            None => {},
        }
        i = i + 1;
    }
    None
}

fn find_pri_x(s: &Vec<char>, tag: &Vec<char>) -> (r: Option<Vec<char>>)
    requires
        tag@ == "[priority::"@,
    ensures
        match r {
            Some(m) => find_pri_tag(s@, 0) == Some(m@),
            None => find_pri_tag(s@, 0) is None,
        },
{
    let n = s.len();
    let mut i: usize = 0;
    while i < n
        invariant
            i <= n == s@.len(),
            tag@ == "[priority::"@,
            find_pri_tag(s@, 0) == find_pri_tag(s@, i as int),
        decreases n - i,
    {
        match pri_tag_x(s, i, tag) {
            Some(m) => {
                return Some(m);
            },
            None => {},
        }
        i = i + 1;
    }
    None
}

fn remove_all_x(s: &Vec<char>, pat: &Vec<char>) -> (r: Vec<char>)
    ensures
        r@ == remove_all(s@, pat@),
{
    let n = s.len();
    let m = pat.len();
    if m == 0 {
        let r = seg(s, 0, n);
        proof {
            assert(r@ =~= s@);
        }
        return r;
    }
    let mut out: Vec<char> = Vec::new();
    let mut i: usize = 0;
    proof {
        assert(s@.skip(0) =~= s@);
    }
    while i < n
        invariant
            i <= n == s@.len(),
            m == pat@.len(),
            m > 0,
            out@ + remove_all(s@.skip(i as int), pat@) == remove_all(s@, pat@),
        decreases n - i,
    {
        proof {
            assert(s@.skip(i as int).first() == s@[i as int]);
            assert(s@.skip(i as int).drop_first() =~= s@.skip(i + 1));
        }
        if matches_at(s, i, pat) {
            proof {
                assert(match_at(s@.skip(i as int), 0, pat@)) by {
                    assert(s@.skip(i as int).subrange(0, pat@.len() as int) =~= s@.subrange(
                        i as int,
                        i + pat@.len(),
                    ));
                }
                assert(s@.skip(i as int).skip(m as int) =~= s@.skip(i + m));
            }
            i = i + m;
        } else {
            proof {
                assert(!match_at(s@.skip(i as int), 0, pat@)) by {
                    if match_at(s@.skip(i as int), 0, pat@) {
                        assert(s@.subrange(i as int, i + pat@.len()) =~= s@.skip(
                            i as int,
                        ).subrange(0, pat@.len() as int));
                    }
                }
            }
            out.push(s[i]);
            i = i + 1;
        }
    }
    proof {
        assert(remove_all(s@.skip(n as int), pat@) =~= Seq::<char>::empty());
        assert(out@ + Seq::<char>::empty() =~= out@);
    }
    out
}

/// The description of one open backlog task line, its metadata tags removed.
pub open spec fn backlog_title_of(line: Seq<char>) -> Option<Seq<char>> {
    if !match_at(line, 0, "- [ ] "@) {
        None
    } else {
        let d0 = strip_prefix_rep(line, "- [ ] "@);
        let d1 = match find_due_tag(line, 0) {
            Some(m) => remove_all(d0, m),
            None => d0,
        };
        let d2 = match find_pri_tag(line, 0) {
            Some(m) => remove_all(d1, m),
            None => d1,
        };
        let d = trim_white(d2);
        if d.len() > 0 {
            Some(d)
        } else {
            None
        }
    }
}

/// The descriptions of every open task line, in order.
pub open spec fn spec_backlog_titles(lines: Seq<Seq<char>>) -> Seq<Seq<char>>
    decreases lines.len(),
{
    if lines.len() == 0 {
        Seq::empty()
    } else {
        let rest = spec_backlog_titles(lines.drop_first());
        match backlog_title_of(lines.first()) {
            Some(t) => seq![t] + rest,
            None => rest,
        }
    }
}

fn backlog_title_x(line: &Vec<char>, task: &Vec<char>, due: &Vec<char>, pri: &Vec<char>) -> (r:
    Option<Vec<char>>)
    requires
        task@ == "- [ ] "@,
        due@ == "[due::"@,
        pri@ == "[priority::"@,
    ensures
        match r {
            Some(t) => backlog_title_of(line@) == Some(t@),
            None => backlog_title_of(line@) is None,
        },
{
    if !matches_at(line, 0, task) {
        return None;
    }
    let d0 = strip_prefix_rep_x(line, task);
    let d1 = match find_due_x(line, due) {
        Some(m) => remove_all_x(&d0, &m),
        None => d0,
    };
    let d2 = match find_pri_x(line, pri) {
        Some(m) => remove_all_x(&d1, &m),
        None => d1,
    };
    let d = trim(&d2);
    if d.len() > 0 {
        Some(d)
    } else {
        None
    }
}

/// Extract descriptions from open backlog tasks: `- [ ] description` lines,
/// with `[due:: ...]` and `[priority:: ...]` tags stripped.
pub fn extract_backlog_titles(content: &str) -> (r: Vec<String>)
    ensures
        r@.map_values(|s: String| s@) == spec_backlog_titles(lines_spec(content@)),
{
    let chars = to_chars(content);
    let lines = split_lines(&chars);
    let ghost lv = lines_spec(content@);
    let task = to_chars("- [ ] ");
    let due = to_chars("[due::");
    let pri = to_chars("[priority::");
    let n = lines.len();
    let mut r: Vec<String> = Vec::new();
    let mut i: usize = 0;
    proof {
        assert(lv.skip(0) =~= lv);
        assert(Seq::<String>::empty().map_values(|s: String| s@) =~= Seq::<Seq<char>>::empty());
    }
    while i < n
        invariant
            i <= n == lines@.len(),
            n == lv.len(),
            forall|t: int| 0 <= t < n ==> lines@[t]@ == lv[t],
            task@ == "- [ ] "@,
            due@ == "[due::"@,
            pri@ == "[priority::"@,
            r@.map_values(|s: String| s@) + spec_backlog_titles(lv.skip(i as int))
                == spec_backlog_titles(lv),
        decreases n - i,
    {
        proof {
            assert(lv.skip(i as int).first() == lv[i as int]);
            assert(lv.skip(i as int).drop_first() =~= lv.skip(i + 1));
        }
        let ghost prev = r@.map_values(|s: String| s@);
        match backlog_title_x(&lines[i], &task, &due, &pri) {
            Some(t) => {
                let ghost tv = backlog_title_of(lv[i as int])->Some_0;
                r.push(string_from_chars(&t));
                proof {
                    assert(r@.map_values(|s: String| s@) =~= prev.push(tv));
                    assert(prev.push(tv) =~= prev + seq![tv]);
                    assert((prev + seq![tv]) + spec_backlog_titles(lv.skip(i + 1)) =~= prev + (
                    seq![tv] + spec_backlog_titles(lv.skip(i + 1))));
                }
            },
            None => {},
        }
        i = i + 1;
    }
    proof {
        assert(lv.skip(n as int) =~= Seq::<Seq<char>>::empty());
        assert(r@.map_values(|s: String| s@) + Seq::<Seq<char>>::empty() =~= r@.map_values(
            |s: String| s@,
        ));
    }
    r
}

// ---------- the backlog digest ----------

/// The date inside a matched due tag, which ends `YYYY-MM-DD]`.
pub open spec fn due_date_of(m: Seq<char>) -> Option<crate::date::Date> {
    if m.len() >= 12 {
        crate::date::spec_parse_ymd(m.subrange(m.len() - 11, m.len() - 1))
    } else {
        None
    }
}

/// The word inside a matched priority tag.
pub open spec fn pri_word_of(m: Seq<char>) -> Seq<char> {
    if "[priority::"@.len() <= m.len() {
        let a = skip_white_from(m, "[priority::"@.len() as int);
        if a < m.len() {
            m.subrange(a, m.len() - 1)
        } else {
            Seq::empty()
        }
    } else {
        Seq::empty()
    }
}

/// One open backlog task: description with tags stripped, priority word (or
/// the default), and the due date when the line carries a valid one.
pub open spec fn backlog_task_of(line: Seq<char>) -> Option<
    (Seq<char>, Seq<char>, Option<crate::date::Date>),
> {
    if !match_at(line, 0, "- [ ] "@) {
        None
    } else {
        let d0 = strip_prefix_rep(line, "- [ ] "@);
        let d1 = match find_due_tag(line, 0) {
            Some(m) => remove_all(d0, m),
            None => d0,
        };
        let d2 = match find_pri_tag(line, 0) {
            Some(m) => remove_all(d1, m),
            None => d1,
        };
        let desc = trim_white(d2);
        let pri = match find_pri_tag(line, 0) {
            Some(m) => pri_word_of(m),
            None => "medium"@,
        };
        let due = match find_due_tag(line, 0) {
            Some(m) => due_date_of(m),
            None => None,
        };
        Some((desc, pri, due))
    }
}

/// The tasks due before `today`, in line order.
pub open spec fn spec_overdue(
    lines: Seq<Seq<char>>,
    today_idx: int,
) -> Seq<(Seq<char>, Seq<char>, crate::date::Date)>
    decreases lines.len(),
{
    if lines.len() == 0 {
        Seq::empty()
    } else {
        let rest = spec_overdue(lines.drop_first(), today_idx);
        match backlog_task_of(lines.first()) {
            Some(t) => match t.2 {
                Some(d) => if crate::date::spec_day_index(d) < today_idx {
                    seq![(t.0, t.1, d)] + rest
                } else {
                    rest
                },
                None => rest,
            },
            None => rest,
        }
    }
}

/// The tasks due between `today` and the horizon, in line order.
pub open spec fn spec_due_soon(
    lines: Seq<Seq<char>>,
    today_idx: int,
    soon_idx: int,
) -> Seq<(Seq<char>, Seq<char>, crate::date::Date)>
    decreases lines.len(),
{
    if lines.len() == 0 {
        Seq::empty()
    } else {
        let rest = spec_due_soon(lines.drop_first(), today_idx, soon_idx);
        match backlog_task_of(lines.first()) {
            Some(t) => match t.2 {
                Some(d) => if today_idx <= crate::date::spec_day_index(d) && crate::date::spec_day_index(d)
                    <= soon_idx {
                    seq![(t.0, t.1, d)] + rest
                } else {
                    rest
                },
                None => rest,
            },
            None => rest,
        }
    }
}

/// One overdue line: description, priority, due date.
pub open spec fn overdue_line(t: (Seq<char>, Seq<char>, crate::date::Date)) -> Seq<char> {
    "  \u{2022} "@ + t.0 + " ["@ + t.1 + ", due "@ + crate::date::spec_iso(t.2) + "]\n"@
}

/// One due-soon line: description and due date.
pub open spec fn due_soon_line(t: (Seq<char>, Seq<char>, crate::date::Date)) -> Seq<char> {
    "  \u{2022} "@ + t.0 + " [due "@ + crate::date::spec_iso(t.2) + "]\n"@
}

pub open spec fn overdue_lines(ts: Seq<(Seq<char>, Seq<char>, crate::date::Date)>) -> Seq<char>
    decreases ts.len(),
{
    if ts.len() == 0 {
        Seq::empty()
    } else {
        overdue_line(ts.first()) + overdue_lines(ts.drop_first())
    }
}

pub open spec fn due_soon_lines(ts: Seq<(Seq<char>, Seq<char>, crate::date::Date)>) -> Seq<char>
    decreases ts.len(),
{
    if ts.len() == 0 {
        Seq::empty()
    } else {
        due_soon_line(ts.first()) + due_soon_lines(ts.drop_first())
    }
}

/// What the backlog digest says for a given day and horizon.
pub open spec fn spec_backlog(content: Seq<char>, today_idx: int, soon_idx: int) -> Option<
    Seq<char>,
> {
    let lv = lines_spec(content);
    let over = spec_overdue(lv, today_idx);
    let soon = spec_due_soon(lv, today_idx, soon_idx);
    if over.len() == 0 && soon.len() == 0 {
        None
    } else {
        let part1 = if over.len() > 0 {
            "Overdue:\n"@ + overdue_lines(over)
        } else {
            Seq::empty()
        };
        let part2 = if soon.len() > 0 {
            "Due soon:\n"@ + due_soon_lines(soon)
        } else {
            Seq::empty()
        };
        Some(part1 + part2)
    }
}

struct TaskLine {
    desc: Vec<char>,
    pri: Vec<char>,
    due: crate::date::Date,
}

fn backlog_task_x(
    line: &Vec<char>,
    task: &Vec<char>,
    due: &Vec<char>,
    pri: &Vec<char>,
    medium: &Vec<char>,
) -> (r: Option<(Vec<char>, Vec<char>, Option<crate::date::Date>)>)
    requires
        task@ == "- [ ] "@,
        due@ == "[due::"@,
        pri@ == "[priority::"@,
        medium@ == "medium"@,
    ensures
        match r {
            Some(t) => backlog_task_of(line@) == Some((t.0@, t.1@, t.2)),
            None => backlog_task_of(line@) is None,
        },
{
    if !matches_at(line, 0, task) {
        return None;
    }
    let d0 = strip_prefix_rep_x(line, task);
    let due_m = find_due_x(line, due);
    let pri_m = find_pri_x(line, pri);
    let d1 = match &due_m {
        Some(m) => remove_all_x(&d0, m),
        None => d0,
    };
    let d2 = match &pri_m {
        Some(m) => remove_all_x(&d1, m),
        None => d1,
    };
    let desc = trim(&d2);
    let pri_word: Vec<char> = match &pri_m {
        Some(m) => {
            if pri.len() <= m.len() {
                proof {
                    lemma_skip_white_from(m@, "[priority::"@.len() as int);
                }
                let a = skip_white(m, pri.len());
                if a < m.len() {
                    seg(m, a, m.len() - 1)
                } else {
                    Vec::new()
                }
            } else {
                Vec::new()
            }
        },
        None => seg(medium, 0, medium.len()),
    };
    proof {
        match pri_m {
            Some(m) => {
                assert(pri_word@ =~= pri_word_of(m@));
            },
            None => {
                assert(pri_word@ =~= "medium"@);
            },
        }
    }
    let due_date: Option<crate::date::Date> = match &due_m {
        Some(m) => {
            if m.len() >= 12 {
                let ds = seg(m, m.len() - 11, m.len() - 1);
                crate::date::parse_ymd(&ds)
            } else {
                None
            }
        },
        None => None,
    };
    Some((desc, pri_word, due_date))
}

/// Parse backlog content into an overdue section and a due-soon section;
/// `None` when no open task falls in either window.  Open tasks are
/// `- [ ] description` lines; a task counts when its `[due:: ...]` tag names
/// a day before `today` (overdue) or within `horizon_days` after it.
pub fn parse_backlog(content: &str, today: &crate::date::Date, horizon_days: u32) -> (r: Option<
    String,
>)
    requires
        crate::date::date_valid(*today),
    ensures
        ({
            let soon_idx = crate::date::spec_day_index(*today) + horizon_days;
            match r {
                Some(s) => spec_backlog(
                    content@,
                    crate::date::spec_day_index(*today),
                    soon_idx,
                ) == Some(s@),
                None => spec_backlog(
                    content@,
                    crate::date::spec_day_index(*today),
                    soon_idx,
                ) is None,
            }
        }),
{
    let chars = to_chars(content);
    let lines = split_lines(&chars);
    let ghost lv = lines_spec(content@);
    let task = to_chars("- [ ] ");
    let due = to_chars("[due::");
    let pri = to_chars("[priority::");
    let medium = to_chars("medium");
    let today_idx: u64 = today.day_index() as u64;
    let soon_idx: u64 = today_idx + (horizon_days as u64);
    let ghost ti = crate::date::spec_day_index(*today);
    let ghost si = ti + horizon_days;
    let n = lines.len();
    let mut over: Vec<TaskLine> = Vec::new();
    let mut soon: Vec<TaskLine> = Vec::new();
    let mut i: usize = 0;
    proof {
        assert(lv.skip(0) =~= lv);
    }
    while i < n
        invariant
            i <= n == lines@.len(),
            n == lv.len(),
            forall|t: int| 0 <= t < n ==> lines@[t]@ == lv[t],
            task@ == "- [ ] "@,
            due@ == "[due::"@,
            pri@ == "[priority::"@,
            medium@ == "medium"@,
            today_idx == ti,
            soon_idx == si,
            over@.map_values(|t: TaskLine| (t.desc@, t.pri@, t.due)) + spec_overdue(
                lv.skip(i as int),
                ti,
            ) == spec_overdue(lv, ti),
            soon@.map_values(|t: TaskLine| (t.desc@, t.pri@, t.due)) + spec_due_soon(
                lv.skip(i as int),
                ti,
                si,
            ) == spec_due_soon(lv, ti, si),
            forall|t: int|
                0 <= t < over@.len() ==> crate::date::date_valid((#[trigger] over@[t]).due),
            forall|t: int|
                0 <= t < soon@.len() ==> crate::date::date_valid((#[trigger] soon@[t]).due),
        decreases n - i,
    {
        proof {
            assert(lv.skip(i as int).first() == lv[i as int]);
            assert(lv.skip(i as int).drop_first() =~= lv.skip(i + 1));
            assert(over@.map_values(|t: TaskLine| (t.desc@, t.pri@, t.due)).len() == over@.len());
            assert(soon@.map_values(|t: TaskLine| (t.desc@, t.pri@, t.due)).len() == soon@.len());
        }
        let ghost over_prev = over@.map_values(|t: TaskLine| (t.desc@, t.pri@, t.due));
        let ghost soon_prev = soon@.map_values(|t: TaskLine| (t.desc@, t.pri@, t.due));
        match backlog_task_x(&lines[i], &task, &due, &pri, &medium) {
            Some(t) => {
                let (desc, pri_word, due_date) = t;
                match due_date {
                    Some(d) => {
                        let d_idx = d.day_index() as u64;
                        if d_idx < today_idx {
                            let ghost entry = (desc@, pri_word@, d);
                            over.push(TaskLine { desc, pri: pri_word, due: d });
                            proof {
                                assert(over@.map_values(|t: TaskLine| (t.desc@, t.pri@, t.due))
                                    =~= over_prev.push(entry));
                                assert(over_prev.push(entry) =~= over_prev + seq![entry]);
                                assert((over_prev + seq![entry]) + spec_overdue(lv.skip(i + 1), ti)
                                    =~= over_prev + (seq![entry] + spec_overdue(
                                    lv.skip(i + 1),
                                    ti,
                                )));
                            }
                        } else if d_idx <= soon_idx {
                            let ghost entry = (desc@, pri_word@, d);
                            soon.push(TaskLine { desc, pri: pri_word, due: d });
                            proof {
                                assert(soon@.map_values(|t: TaskLine| (t.desc@, t.pri@, t.due))
                                    =~= soon_prev.push(entry));
                                assert(soon_prev.push(entry) =~= soon_prev + seq![entry]);
                                assert((soon_prev + seq![entry]) + spec_due_soon(
                                    lv.skip(i + 1),
                                    ti,
                                    si,
                                ) =~= soon_prev + (seq![entry] + spec_due_soon(
                                    lv.skip(i + 1),
                                    ti,
                                    si,
                                )));
                            }
                        }
                    },
                    None => {},
                }
            },
            None => {},
        }
        i = i + 1;
    }
    proof {
        assert(lv.skip(n as int) =~= Seq::<Seq<char>>::empty());
        assert(over@.map_values(|t: TaskLine| (t.desc@, t.pri@, t.due)) + Seq::<
            (Seq<char>, Seq<char>, crate::date::Date),
        >::empty() =~= over@.map_values(|t: TaskLine| (t.desc@, t.pri@, t.due)));
        assert(soon@.map_values(|t: TaskLine| (t.desc@, t.pri@, t.due)) + Seq::<
            (Seq<char>, Seq<char>, crate::date::Date),
        >::empty() =~= soon@.map_values(|t: TaskLine| (t.desc@, t.pri@, t.due)));
    }
    if over.len() == 0 && soon.len() == 0 {
        return None;
    }
    let ghost over_v = spec_overdue(lv, ti);
    let ghost soon_v = spec_due_soon(lv, ti, si);
    let mut out = String::new();
    if over.len() > 0 {
        out.append("Overdue:\n");
        let m = over.len();
        let mut k: usize = 0;
        proof {
            assert(over_v.skip(0) =~= over_v);
        }
        while k < m
            invariant
                k <= m == over@.len(),
                m == over_v.len(),
                forall|t: int|
                    0 <= t < m ==> ((#[trigger] over@[t]).desc@, over@[t].pri@, over@[t].due)
                        == over_v[t],
                out@ + overdue_lines(over_v.skip(k as int)) == "Overdue:\n"@ + overdue_lines(
                    over_v,
                ),
            decreases m - k,
        {
            proof {
                assert(over_v.skip(k as int).first() == over_v[k as int]);
                assert(over_v.skip(k as int).drop_first() =~= over_v.skip(k + 1));
            }
            out.append("  \u{2022} ");
            let dpiece = string_from_chars(&over[k].desc);
            out.append(dpiece.as_str());
            out.append(" [");
            let ppiece = string_from_chars(&over[k].pri);
            out.append(ppiece.as_str());
            out.append(", due ");
            let ipiece = string_from_chars(&over[k].due.iso());
            out.append(ipiece.as_str());
            out.append("]\n");
            k = k + 1;
        }
        proof {
            assert(overdue_lines(over_v.skip(m as int)) =~= Seq::<char>::empty());
        }
    }
    let ghost mid = out@;
    if soon.len() > 0 {
        out.append("Due soon:\n");
        let m = soon.len();
        let mut k: usize = 0;
        proof {
            assert(soon_v.skip(0) =~= soon_v);
        }
        while k < m
            invariant
                k <= m == soon@.len(),
                m == soon_v.len(),
                forall|t: int|
                    0 <= t < m ==> ((#[trigger] soon@[t]).desc@, soon@[t].pri@, soon@[t].due)
                        == soon_v[t],
                out@ + due_soon_lines(soon_v.skip(k as int)) == mid + "Due soon:\n"@
                    + due_soon_lines(soon_v),
            decreases m - k,
        {
            proof {
                assert(soon_v.skip(k as int).first() == soon_v[k as int]);
                assert(soon_v.skip(k as int).drop_first() =~= soon_v.skip(k + 1));
            }
            out.append("  \u{2022} ");
            let dpiece = string_from_chars(&soon[k].desc);
            out.append(dpiece.as_str());
            out.append(" [due ");
            let ipiece = string_from_chars(&soon[k].due.iso());
            out.append(ipiece.as_str());
            out.append("]\n");
            k = k + 1;
        }
        proof {
            assert(due_soon_lines(soon_v.skip(m as int)) =~= Seq::<char>::empty());
        }
    }
    Some(out)
}

// ---------- the reminders digest ----------

/// A number written in decimal.
pub fn format_u64(n: u64) -> (r: Vec<char>)
    ensures
        r@ == dec_digits(n as int),
    decreases n,
{
    if n < 10 {
        let mut r: Vec<char> = Vec::new();
        r.push(dec_char_x((n % 10) as u32));
        proof {
            assert(r@ =~= seq![dec_char(n as int)]);
        }
        r
    } else {
        let mut r = format_u64(n / 10);
        r.push(dec_char_x((n % 10) as u32));
        proof {
            assert(r@ =~= dec_digits(n as int / 10) + seq![dec_char(n as int % 10)]);
        }
        r
    }
}

/// Three-letter month name.
pub open spec fn month_abbrev(m: int) -> Seq<char> {
    if m == 1 {
        "Jan"@
    } else if m == 2 {
        "Feb"@
    } else if m == 3 {
        "Mar"@
    } else if m == 4 {
        "Apr"@
    } else if m == 5 {
        "May"@
    } else if m == 6 {
        "Jun"@
    } else if m == 7 {
        "Jul"@
    } else if m == 8 {
        "Aug"@
    } else if m == 9 {
        "Sep"@
    } else if m == 10 {
        "Oct"@
    } else if m == 11 {
        "Nov"@
    } else {
        "Dec"@
    }
}

/// Three-letter weekday name, Monday through Sunday as 0 through 6.
pub open spec fn weekday_abbrev(w: int) -> Seq<char> {
    if w == 0 {
        "Mon"@
    } else if w == 1 {
        "Tue"@
    } else if w == 2 {
        "Wed"@
    } else if w == 3 {
        "Thu"@
    } else if w == 4 {
        "Fri"@
    } else if w == 5 {
        "Sat"@
    } else {
        "Sun"@
    }
}

/// The relative label for a due date: today, tomorrow, days overdue, or the
/// weekday-day-month form for later dates.
pub open spec fn due_label(d: crate::date::Date, today_idx: int) -> Seq<char> {
    let diff = crate::date::spec_day_index(d) - today_idx;
    if diff == 0 {
        "today"@
    } else if diff == 1 {
        "tomorrow"@
    } else if diff < 0 {
        dec_digits(-diff) + "d overdue"@
    } else {
        weekday_abbrev(crate::date::spec_weekday(d)) + " "@ + dec_padded(d.day as int, 2) + " "@
            + month_abbrev(d.month as int)
    }
}

/// One reminder rendered: its title, and when a strict date opens its
/// `dueDate` field, the relative label.
pub open spec fn reminder_line(item: crate::json::Json, today_idx: int) -> Seq<char> {
    let title = match crate::json::jget_str(item, "title"@) {
        Some(t) => t,
        None => "Untitled"@,
    };
    let label = match crate::json::jget_str(item, "dueDate"@) {
        Some(ds) => if ds.len() >= 10 {
            match crate::date::spec_parse_ymd(ds.take(10)) {
                Some(d) => Some(due_label(d, today_idx)),
                None => None,
            }
        } else {
            None
        },
        None => None,
    };
    match label {
        Some(w) => "  \u{2022} "@ + title + " ("@ + w + ")\n"@,
        None => "  \u{2022} "@ + title + "\n"@,
    }
}

/// The first `k` reminders rendered.
pub open spec fn reminder_lines(items: Seq<crate::json::Json>, today_idx: int, k: int) -> Seq<char>
    decreases k,
{
    if k <= 0 || items.len() == 0 {
        Seq::empty()
    } else {
        reminder_line(items.first(), today_idx) + reminder_lines(
            items.drop_first(),
            today_idx,
            k - 1,
        )
    }
}

/// What the reminders digest says: `None` unless the JSON decodes, carries a
/// positive unsigned `count` and a `reminders` array; otherwise a header with
/// the count and the first five reminders.
pub open spec fn spec_reminders(text: Seq<char>, today_idx: int) -> Option<Seq<char>> {
    match crate::json::json_of(text) {
        None => None,
        Some(j) => match crate::json::jget_u64(j, "count"@) {
            None => None,
            Some(c) => if c == 0 {
                None
            } else {
                match crate::json::jget_arr(j, "reminders"@) {
                    None => None,
                    Some(items) => Some(
                        "Reminders ("@ + dec_digits(c as int) + "):\n"@ + reminder_lines(
                            items,
                            today_idx,
                            5,
                        ),
                    ),
                }
            },
        },
    }
}

fn reminder_line_x(item: &crate::json::Json, today_idx: u32, Ghost(ti): Ghost<int>) -> (r: String)
    requires
        today_idx as int == ti,
    ensures
        r@ == reminder_line(*item, ti),
{
    let mut out = String::from_str("  \u{2022} ");
    match item.get_str("title") {
        Some(t) => {
            let piece = string_from_chars(t);
            out.append(piece.as_str());
        },
        None => {
            out.append("Untitled");
        },
    }
    let label: Option<String> = match item.get_str("dueDate") {
        Some(ds) => {
            if ds.len() >= 10 {
                let d10 = seg(ds, 0, 10);
                proof {
                    assert(d10@ =~= ds@.take(10));
                }
                match crate::date::parse_ymd(&d10) {
                    Some(d) => Some(due_label_x(&d, today_idx, Ghost(ti))),
                    None => None,
                }
            } else {
                None
            }
        },
        None => None,
    };
    match label {
        Some(w) => {
            out.append(" (");
            out.append(w.as_str());
            out.append(")\n");
        },
        None => {
            out.append("\n");
        },
    }
    out
}

fn due_label_x(d: &crate::date::Date, today_idx: u32, Ghost(ti): Ghost<int>) -> (r: String)
    requires
        crate::date::date_valid(*d),
        today_idx as int == ti,
    ensures
        r@ == due_label(*d, ti),
{
    let d_idx = d.day_index();
    if d_idx == today_idx {
        return String::from_str("today");
    }
    if today_idx < u32::MAX && d_idx == today_idx + 1 {
        return String::from_str("tomorrow");
    }
    if d_idx < today_idx {
        let n = format_u32(today_idx - d_idx);
        let mut out = string_from_chars(&n);
        out.append("d overdue");
        return out;
    }
    let w = d.weekday();
    let mut out = String::from_str(
        if w == 0 {
            "Mon"
        } else if w == 1 {
            "Tue"
        } else if w == 2 {
            "Wed"
        } else if w == 3 {
            "Thu"
        } else if w == 4 {
            "Fri"
        } else if w == 5 {
            "Sat"
        } else {
            "Sun"
        },
    );
    out.append(" ");
    let day = format_u32_padded(d.day, 2);
    let dpiece = string_from_chars(&day);
    out.append(dpiece.as_str());
    out.append(" ");
    let m = d.month;
    out.append(
        if m == 1 {
            "Jan"
        } else if m == 2 {
            "Feb"
        } else if m == 3 {
            "Mar"
        } else if m == 4 {
            "Apr"
        } else if m == 5 {
            "May"
        } else if m == 6 {
            "Jun"
        } else if m == 7 {
            "Jul"
        } else if m == 8 {
            "Aug"
        } else if m == 9 {
            "Sep"
        } else if m == 10 {
            "Oct"
        } else if m == 11 {
            "Nov"
        } else {
            "Dec"
        },
    );
    out
}

/// Format the reminders-listing JSON: a count header and the first five
/// entries, each with its title and a relative due label; `None` when the
/// JSON does not decode, has no positive `count`, or has no array.
pub fn format_reminders(json: &str, today: &crate::date::Date) -> (r: Option<String>)
    requires
        crate::date::date_valid(*today),
    ensures
        match r {
            Some(s) => spec_reminders(json@, crate::date::spec_day_index(*today)) == Some(s@),
            None => spec_reminders(json@, crate::date::spec_day_index(*today)) is None,
        },
{
    let ghost ti = crate::date::spec_day_index(*today);
    let chars = to_chars(json);
    let parsed = match crate::json::parse_json_line(&chars) {
        Some(j) => j,
        None => {
            return None;
        },
    };
    let count = match parsed.get_u64("count") {
        Some(c) => c,
        None => {
            return None;
        },
    };
    if count == 0 {
        return None;
    }
    let items = match parsed.get_arr("reminders") {
        Some(a) => a,
        None => {
            return None;
        },
    };
    let today_idx = today.day_index();
    let mut out = String::from_str("Reminders (");
    let cdec = format_u64(count);
    let cpiece = string_from_chars(&cdec);
    out.append(cpiece.as_str());
    out.append("):\n");
    let ghost items_v = items@;
    let n = items.len();
    let limit: usize = if n < 5 {
        n
    } else {
        5
    };
    let mut k: usize = 0;
    proof {
        assert(items_v.skip(0) =~= items_v);
    }
    while k < limit
        invariant
            k <= limit <= n == items@.len(),
            limit <= 5,
            limit == if n < 5 {
                n as int
            } else {
                5int
            },
            items@ == items_v,
            today_idx as int == ti,
            out@ + reminder_lines(items_v.skip(k as int), ti, 5 - k) == "Reminders ("@
                + dec_digits(count as int) + "):\n"@ + reminder_lines(items_v, ti, 5),
        decreases limit - k,
    {
        proof {
            assert(items_v.skip(k as int).first() == items_v[k as int]);
            assert(items_v.skip(k as int).drop_first() =~= items_v.skip(k + 1));
        }
        let line = reminder_line_x(&items[k], today_idx, Ghost(ti));
        out.append(line.as_str());
        k = k + 1;
    }
    proof {
        assert(reminder_lines(items_v.skip(limit as int), ti, 5 - limit) =~= Seq::<char>::empty());
    }
    Some(out)
}

// ---------- the stale-ideas digest ----------

/// Lexicographic order on character sequences, matching byte order on their
/// UTF-8 encodings.
pub open spec fn seq_le(a: Seq<char>, b: Seq<char>) -> bool
    decreases a.len(),
{
    if a.len() == 0 {
        true
    } else if b.len() == 0 {
        false
    } else if a.first() != b.first() {
        (a.first() as u32) < (b.first() as u32)
    } else {
        seq_le(a.drop_first(), b.drop_first())
    }
}

fn lex_le_chars(a: &Vec<char>, b: &Vec<char>) -> (r: bool)
    ensures
        r == seq_le(a@, b@),
{
    let an = a.len();
    let bn = b.len();
    let mut i: usize = 0;
    proof {
        assert(a@.skip(0) =~= a@);
        assert(b@.skip(0) =~= b@);
    }
    while i < an && i < bn
        invariant
            i <= an == a@.len(),
            i <= bn == b@.len(),
            seq_le(a@, b@) == seq_le(a@.skip(i as int), b@.skip(i as int)),
        decreases an - i,
    {
        proof {
            assert(a@.skip(i as int).first() == a@[i as int]);
            assert(b@.skip(i as int).first() == b@[i as int]);
            assert(a@.skip(i as int).drop_first() =~= a@.skip(i + 1));
            assert(b@.skip(i as int).drop_first() =~= b@.skip(i + 1));
        }
        let ca = a[i];
        let cb = b[i];
        if ca != cb {
            return (ca as u32) < (cb as u32);
        }
        i = i + 1;
    }
    proof {
        if i >= an {
            assert(a@.skip(i as int).len() == 0);
        } else {
            assert(b@.skip(i as int).len() == 0);
            assert(a@.skip(i as int).len() > 0);
        }
    }
    an <= bn
}

/// One stale idea: title and creation date, sorted under this key.
pub ghost struct IdeaRow {
    pub title: Seq<char>,
    pub created: Seq<char>,
}

pub open spec fn idea_key(t: IdeaRow) -> Seq<char> {
    lower_of(t.title)
}

/// The open entries created strictly before the cutoff, in input order.
pub open spec fn stale_of(entries: Seq<(String, String, String)>, cutoff_idx: int) -> Seq<IdeaRow>
    decreases entries.len(),
{
    if entries.len() == 0 {
        Seq::empty()
    } else {
        let rest = stale_of(entries.drop_first(), cutoff_idx);
        let e = entries.first();
        if e.1@ == "Open"@ && (match crate::date::spec_parse_ymd(e.2@) {
            Some(d) => crate::date::spec_day_index(d) < cutoff_idx,
            None => false,
        }) {
            seq![IdeaRow { title: e.0@, created: e.2@ }] + rest
        } else {
            rest
        }
    }
}

/// An element placed after every element whose key is at or below its own:
/// the stable insertion step.
pub open spec fn insert_one(s: Seq<IdeaRow>, x: IdeaRow) -> Seq<IdeaRow>
    decreases s.len(),
{
    if s.len() == 0 {
        seq![x]
    } else if seq_le(idea_key(s.last()), idea_key(x)) {
        s.push(x)
    } else {
        insert_one(s.drop_last(), x).push(s.last())
    }
}

/// Stable insertion sort by key.
pub open spec fn ins_sort(s: Seq<IdeaRow>) -> Seq<IdeaRow>
    decreases s.len(),
{
    if s.len() == 0 {
        Seq::empty()
    } else {
        insert_one(ins_sort(s.drop_last()), s.last())
    }
}

proof fn lemma_insert_at(s: Seq<IdeaRow>, x: IdeaRow, p: int)
    requires
        0 <= p <= s.len(),
        forall|t: int| p <= t < s.len() ==> !seq_le(idea_key(s[t]), idea_key(x)),
        p > 0 ==> seq_le(idea_key(s[p - 1]), idea_key(x)),
    ensures
        insert_one(s, x) == s.insert(p, x),
    decreases s.len(),
{
    if s.len() == 0 {
        assert(insert_one(s, x) =~= s.insert(0, x));
    } else if p == s.len() {
        assert(insert_one(s, x) =~= s.insert(p, x));
    } else {
        assert(!seq_le(idea_key(s[s.len() - 1]), idea_key(x)));
        lemma_insert_at(s.drop_last(), x, p);
        assert(insert_one(s, x) == insert_one(s.drop_last(), x).push(s.last()));
        assert(insert_one(s.drop_last(), x).push(s.last()) =~= s.insert(p, x));
    }
}

struct IdeaEntry {
    title: Vec<char>,
    created: Vec<char>,
    key: Vec<char>,
}

/// One stale-idea output line.
pub open spec fn idea_line(t: IdeaRow) -> Seq<char> {
    "  \u{2022} "@ + t.title + " (since "@ + t.created + ")\n"@
}

/// `cnt` idea lines starting at `start`, wrapping around the pool.
pub open spec fn idea_lines(s: Seq<IdeaRow>, start: int, cnt: int) -> Seq<char>
    decreases cnt,
{
    if cnt <= 0 || s.len() == 0 || start < 0 || start >= s.len() {
        Seq::empty()
    } else {
        let nxt = if start + 1 == s.len() {
            0
        } else {
            start + 1
        };
        idea_line(s[start]) + idea_lines(s, nxt, cnt - 1)
    }
}

/// What the stale-ideas digest says: the open entries older than the cutoff,
/// sorted by lowercased title, a count header, and a rotating window of at
/// most `max` of them starting at `day_of_year` modulo their number.
pub open spec fn spec_ideas(
    entries: Seq<(String, String, String)>,
    cutoff_idx: int,
    day_of_year: int,
    max: int,
) -> Option<Seq<char>> {
    let st = ins_sort(stale_of(entries, cutoff_idx));
    if st.len() == 0 {
        None
    } else {
        let cnt = if max < st.len() {
            max
        } else {
            st.len() as int
        };
        Some(
            "Stale ideas ("@ + dec_digits(st.len() as int) + "):\n"@ + idea_lines(
                st,
                day_of_year % (st.len() as int),
                cnt,
            ),
        )
    }
}

/// Parse the ideas inventory — `(title, status, created)` per entry — into a
/// rotating list of stale open ideas; `None` when nothing is stale.
pub fn parse_ideas(
    entries: &Vec<(String, String, String)>,
    cutoff: &crate::date::Date,
    day_of_year: u32,
    max: usize,
) -> (r: Option<String>)
    requires
        crate::date::date_valid(*cutoff),
    ensures
        ({
            let ci = crate::date::spec_day_index(*cutoff);
            match r {
                Some(s) => spec_ideas(entries@, ci, day_of_year as int, max as int) == Some(s@),
                None => spec_ideas(entries@, ci, day_of_year as int, max as int) is None,
            }
        }),
{
    let ghost ci = crate::date::spec_day_index(*cutoff);
    let cutoff_idx = cutoff.day_index();
    let n = entries.len();
    let mut stale: Vec<IdeaEntry> = Vec::new();
    let mut i: usize = 0;
    proof {
        assert(entries@.skip(0) =~= entries@);
    }
    while i < n
        invariant
            i <= n == entries@.len(),
            cutoff_idx as int == ci,
            stale@.map_values(|t: IdeaEntry| IdeaRow { title: t.title@, created: t.created@ })
                + stale_of(entries@.skip(i as int), ci) == stale_of(entries@, ci),
            forall|t: int|
                0 <= t < stale@.len() ==> (#[trigger] stale@[t]).key@ == lower_of(
                    stale@[t].title@,
                ),
        decreases n - i,
    {
        proof {
            assert(entries@.skip(i as int).first() == entries@[i as int]);
            assert(entries@.skip(i as int).drop_first() =~= entries@.skip(i + 1));
        }
        let ghost prev = stale@.map_values(
            |t: IdeaEntry| IdeaRow { title: t.title@, created: t.created@ },
        );
        let e = &entries[i];
        let status = to_chars(e.1.as_str());
        let open_lit = to_chars("Open");
        if chars_eq(&status, &open_lit) {
            let created = to_chars(e.2.as_str());
            match crate::date::parse_ymd(&created) {
                Some(d) => {
                    if d.day_index() < cutoff_idx {
                        let title = to_chars(e.0.as_str());
                        let key = crate::text::lower_chars(&title);
                        let ghost row = IdeaRow { title: title@, created: created@ };
                        stale.push(IdeaEntry { title, created, key });
                        proof {
                            assert(stale@.map_values(
                                |t: IdeaEntry| IdeaRow { title: t.title@, created: t.created@ },
                            ) =~= prev.push(row));
                            assert(prev.push(row) =~= prev + seq![row]);
                            assert((prev + seq![row]) + stale_of(entries@.skip(i + 1), ci) =~= prev
                                + (seq![row] + stale_of(entries@.skip(i + 1), ci)));
                        }
                    }
                },
                None => {},
            }
        }
        i = i + 1;
    }
    proof {
        assert(entries@.skip(n as int) =~= Seq::<(String, String, String)>::empty());
        assert(stale_of(entries@.skip(n as int), ci) =~= Seq::<IdeaRow>::empty());
        assert(stale@.map_values(|t: IdeaEntry| IdeaRow { title: t.title@, created: t.created@ })
            + Seq::<IdeaRow>::empty() =~= stale@.map_values(
            |t: IdeaEntry| IdeaRow { title: t.title@, created: t.created@ },
        ));
    }
    if stale.len() == 0 {
        return None;
    }
    let ghost stale_v = stale_of(entries@, ci);
    // stable insertion sort by lowercased title
    let mut sorted: Vec<IdeaEntry> = Vec::new();
    let m = stale.len();
    let mut k: usize = 0;
    proof {
        assert(stale_v.subrange(0, 0) =~= Seq::<IdeaRow>::empty());
        assert(Seq::<IdeaEntry>::empty().map_values(
            |t: IdeaEntry| IdeaRow { title: t.title@, created: t.created@ },
        ) =~= Seq::<IdeaRow>::empty());
    }
    while k < m
        invariant
            k <= m == stale@.len(),
            m == stale_v.len(),
            forall|t: int|
                0 <= t < m ==> (IdeaRow {
                    title: (#[trigger] stale@[t]).title@,
                    created: stale@[t].created@,
                }) == stale_v[t],
            forall|t: int|
                0 <= t < stale@.len() ==> (#[trigger] stale@[t]).key@ == lower_of(
                    stale@[t].title@,
                ),
            forall|t: int|
                0 <= t < sorted@.len() ==> (#[trigger] sorted@[t]).key@ == lower_of(
                    sorted@[t].title@,
                ),
            sorted@.map_values(|t: IdeaEntry| IdeaRow { title: t.title@, created: t.created@ })
                == ins_sort(stale_v.subrange(0, k as int)),
        decreases m - k,
    {
        let ghost sv = sorted@.map_values(
            |t: IdeaEntry| IdeaRow { title: t.title@, created: t.created@ },
        );
        let ghost row = stale_v[k as int];
        let x_title = seg(&stale[k].title, 0, stale[k].title.len());
        let x_created = seg(&stale[k].created, 0, stale[k].created.len());
        let x_key = seg(&stale[k].key, 0, stale[k].key.len());
        proof {
            assert(x_title@ =~= stale@[k as int].title@);
            assert(x_created@ =~= stale@[k as int].created@);
            assert(x_key@ =~= stale@[k as int].key@);
        }
        let mut p = sorted.len();
        while p > 0 && !lex_le_chars(&sorted[p - 1].key, &x_key)
            invariant
                p <= sorted@.len(),
                forall|t: int|
                    0 <= t < sorted@.len() ==> (#[trigger] sorted@[t]).key@ == lower_of(
                        sorted@[t].title@,
                    ),
                x_key@ == lower_of(x_title@),
                forall|t: int|
                    p <= t < sorted@.len() ==> !seq_le(
                        lower_of((#[trigger] sorted@[t]).title@),
                        lower_of(x_title@),
                    ),
            decreases p,
        {
            p = p - 1;
        }
        let ghost pos = p as int;
        sorted.insert(p, IdeaEntry { title: x_title, created: x_created, key: x_key });
        proof {
            lemma_insert_at(sv, row, pos);
            assert(sorted@.map_values(
                |t: IdeaEntry| IdeaRow { title: t.title@, created: t.created@ },
            ) =~= sv.insert(pos, row));
            assert(stale_v.subrange(0, k + 1).drop_last() =~= stale_v.subrange(0, k as int));
            assert(stale_v.subrange(0, k + 1).last() == stale_v[k as int]);
        }
        k = k + 1;
    }
    proof {
        assert(stale_v.subrange(0, m as int) =~= stale_v);
    }
    let ghost st = ins_sort(stale_v);
    let count = sorted.len();
    let mut out = String::from_str("Stale ideas (");
    let cdec = format_u64(count as u64);
    let cpiece = string_from_chars(&cdec);
    out.append(cpiece.as_str());
    out.append("):\n");
    let total = if max < count {
        max
    } else {
        count
    };
    let start = (day_of_year as usize) % count;
    let mut cur = start;
    let mut w: usize = 0;
    while w < total
        invariant
            w <= total,
            total <= count == sorted@.len(),
            count == st.len(),
            forall|t: int|
                0 <= t < count ==> (IdeaRow {
                    title: (#[trigger] sorted@[t]).title@,
                    created: sorted@[t].created@,
                }) == st[t],
            cur < count,
            out@ + idea_lines(st, cur as int, (total - w) as int) == "Stale ideas ("@ + dec_digits(
                count as int,
            ) + "):\n"@ + idea_lines(st, (day_of_year as int) % (count as int), (if max < count {
                max as int
            } else {
                count as int
            }),),
        decreases total - w,
    {
        out.append("  \u{2022} ");
        let tpiece = string_from_chars(&sorted[cur].title);
        out.append(tpiece.as_str());
        out.append(" (since ");
        let cpiece2 = string_from_chars(&sorted[cur].created);
        out.append(cpiece2.as_str());
        out.append(")\n");
        cur = if cur + 1 == count {
            0
        } else {
            cur + 1
        };
        w = w + 1;
    }
    Some(out)
}

// ---------- helpers for the surfacing binary ----------

/// Where the safe-read helper lives: under the project root when one is
/// known, and otherwise the configured path as it stands.  An absolute
/// configured path passes through either way.
pub open spec fn spec_resolve_safe_read(c: &Config, forge_root: Seq<char>) -> Seq<char> {
    let rel = c.commands.safe_read@;
    if forge_root.len() == 0 {
        rel
    } else if rel.len() > 0 && rel.first() == '/' {
        rel
    } else {
        spec_join(forge_root, rel)
    }
}

/// Resolve the safe-read helper's path against the project root.
pub fn resolve_safe_read(config: &Config, forge_root: &str) -> (r: String)
    ensures
        r@ == spec_resolve_safe_read(config, forge_root@),
{
    let rel = config.commands.safe_read.as_str();
    if forge_root.unicode_len() == 0 {
        return String::from_str(rel);
    }
    if rel.unicode_len() > 0 && rel.get_char(0) == '/' {
        return String::from_str(rel);
    }
    crate::config::join_path(forge_root, rel)
}

/// A frontmatter value cleaned: trimmed, then double quotes stripped from
/// both ends, then single quotes.
pub open spec fn clean_fm_value(v: Seq<char>) -> Seq<char> {
    trim_start_ch(
        trim_end_ch(trim_start_ch(trim_end_ch(trim_white(v), '"'), '"'), '\''),
        '\'',
    )
}

/// The value under `key:` inside the leading frontmatter block, walking the
/// lines with `in_fm` saying whether the opening fence has passed.
pub open spec fn fm_value_from(lines: Seq<Seq<char>>, key: Seq<char>, in_fm: bool) -> Option<
    Seq<char>,
>
    decreases lines.len(),
{
    if lines.len() == 0 {
        None
    } else {
        let l = lines.first();
        if trim_white(l) == seq!['-', '-', '-'] {
            if in_fm {
                None
            } else {
                fm_value_from(lines.drop_first(), key, true)
            }
        } else if in_fm && match_at(l, 0, key + seq![':']) {
            Some(clean_fm_value(l.skip(key.len() as int + 1)))
        } else {
            fm_value_from(lines.drop_first(), key, in_fm)
        }
    }
}

/// Extract a single-line YAML frontmatter value: the text after `key:` on
/// the first matching line between the `---` fences, trimmed and unquoted.
pub fn extract_frontmatter_value(content: &str, key: &str) -> (r: Option<String>)
    ensures
        match r {
            Some(v) => fm_value_from(lines_spec(content@), key@, false) == Some(v@),
            None => fm_value_from(lines_spec(content@), key@, false) is None,
        },
{
    let chars = to_chars(content);
    let lines = split_lines(&chars);
    let ghost lv = lines_spec(content@);
    let mut prefix = to_chars(key);
    prefix.push(':');
    proof {
        assert(prefix@ =~= key@ + seq![':']);
    }
    let n = lines.len();
    let mut in_fm = false;
    let mut i: usize = 0;
    proof {
        assert(lv.skip(0) =~= lv);
    }
    while i < n
        invariant
            i <= n == lines@.len(),
            lv == lines_spec(content@),
            n == lv.len(),
            forall|t: int| 0 <= t < n ==> lines@[t]@ == lv[t],
            prefix@ == key@ + seq![':'],
            fm_value_from(lv.skip(i as int), key@, in_fm) == fm_value_from(lv, key@, false),
        decreases n - i,
    {
        proof {
            assert(lv.skip(i as int).first() == lv[i as int]);
            assert(lv.skip(i as int).drop_first() =~= lv.skip(i + 1));
        }
        let line = &lines[i];
        let t = trim(line);
        let fence = r_fence(&t);
        if fence {
            if in_fm {
                proof {
                    assert(fm_value_from(lv.skip(i as int), key@, true) is None);
                }
                return None;
            }
            in_fm = true;
        } else if in_fm && matches_at(line, 0, &prefix) {
            proof {
                assert(prefix@.len() == key@.len() + 1);
                assert(prefix@.len() <= line@.len());
            }
            let tail = seg(line, prefix.len(), line.len());
            proof {
                assert(tail@ =~= lv[i as int].skip(key@.len() as int + 1));
            }
            let v1 = trim(&tail);
            let v2 = trim_end_run(&v1, '"');
            let v3 = trim_start_run(&v2, '"');
            let v4 = trim_end_run(&v3, '\'');
            let v5 = trim_start_run(&v4, '\'');
            return Some(string_from_chars(&v5));
        }
        i = i + 1;
    }
    None
}

/// A non-negative number in decimal.
pub open spec fn dec_digits(n: int) -> Seq<char>
    decreases n,
{
    if n < 10 {
        seq![dec_char(n)]
    } else {
        dec_digits(n / 10) + seq![dec_char(n % 10)]
    }
}

/// One decimal digit as a character.
pub open spec fn dec_char(d: int) -> char {
    if d == 0 {
        '0'
    } else if d == 1 {
        '1'
    } else if d == 2 {
        '2'
    } else if d == 3 {
        '3'
    } else if d == 4 {
        '4'
    } else if d == 5 {
        '5'
    } else if d == 6 {
        '6'
    } else if d == 7 {
        '7'
    } else if d == 8 {
        '8'
    } else {
        '9'
    }
}

fn dec_char_x(d: u32) -> (r: char)
    requires
        d < 10,
    ensures
        r == dec_char(d as int),
{
    if d == 0 {
        '0'
    } else if d == 1 {
        '1'
    } else if d == 2 {
        '2'
    } else if d == 3 {
        '3'
    } else if d == 4 {
        '4'
    } else if d == 5 {
        '5'
    } else if d == 6 {
        '6'
    } else if d == 7 {
        '7'
    } else if d == 8 {
        '8'
    } else {
        '9'
    }
}

/// A number written in decimal.
pub fn format_u32(n: u32) -> (r: Vec<char>)
    ensures
        r@ == dec_digits(n as int),
    decreases n,
{
    if n < 10 {
        let mut r: Vec<char> = Vec::new();
        r.push(dec_char_x(n));
        proof {
            assert(r@ =~= seq![dec_char(n as int)]);
        }
        r
    } else {
        let mut r = format_u32(n / 10);
        r.push(dec_char_x(n % 10));
        proof {
            assert(r@ =~= dec_digits(n as int / 10) + seq![dec_char(n as int % 10)]);
        }
        r
    }
}

/// A number in decimal, left-padded with zeros to at least `w` digits.
pub open spec fn dec_padded(n: int, w: int) -> Seq<char>
    decreases w,
{
    let d = dec_digits(n);
    if d.len() >= w {
        d
    } else {
        zeros(w - d.len()) + d
    }
}

pub open spec fn zeros(k: int) -> Seq<char>
    decreases k,
{
    if k <= 0 {
        Seq::empty()
    } else {
        seq!['0'] + zeros(k - 1)
    }
}

/// A number written in decimal with at least `w` digits.
pub fn format_u32_padded(n: u32, w: usize) -> (r: Vec<char>)
    ensures
        r@ == dec_padded(n as int, w as int),
{
    let d = format_u32(n);
    if d.len() >= w {
        proof {
            assert(dec_padded(n as int, w as int) == dec_digits(n as int));
        }
        return d;
    }
    let k = w - d.len();
    let mut r: Vec<char> = Vec::new();
    let mut i: usize = 0;
    while i < k
        invariant
            i <= k,
            r@.len() == i,
            forall|t: int| 0 <= t < i ==> r@[t] == '0',
        decreases k - i,
    {
        r.push('0');
        i = i + 1;
    }
    proof {
        lemma_zeros(k as int);
        assert(r@ =~= zeros(k as int));
    }
    let mut tail = seg(&d, 0, d.len());
    proof {
        assert(tail@ =~= d@);
    }
    r.append(&mut tail);
    r
}

proof fn lemma_zeros(k: int)
    ensures
        zeros(k).len() == if k <= 0 {
            0
        } else {
            k
        },
        forall|t: int| 0 <= t < zeros(k).len() ==> zeros(k)[t] == '0',
    decreases k,
{
    if k > 0 {
        lemma_zeros(k - 1);
    }
}

/// A date pattern with its placeholders substituted: `YYYY-MM-DD` first,
/// then `YYYY`, `MM` and `DD` separately, each against the given calendar
/// day (the year to four digits, month and day to two).
pub open spec fn spec_date_pattern(pattern: Seq<char>, y: int, m: int, d: int) -> Seq<char> {
    let iso = dec_padded(y, 4) + seq!['-'] + dec_padded(m, 2) + seq!['-'] + dec_padded(d, 2);
    replace_all_with(
        replace_all_with(
            replace_all_with(
                replace_all_with(pattern, "YYYY-MM-DD"@, iso),
                "YYYY"@,
                dec_padded(y, 4),
            ),
            "MM"@,
            dec_padded(m, 2),
        ),
        "DD"@,
        dec_padded(d, 2),
    )
}

/// Every non-overlapping occurrence of `pat` replaced by `with`, scanning
/// left to right.
pub open spec fn replace_all_with(s: Seq<char>, pat: Seq<char>, with: Seq<char>) -> Seq<char>
    decreases s.len(),
{
    if s.len() == 0 || pat.len() == 0 {
        s
    } else if match_at(s, 0, pat) {
        with + replace_all_with(s.skip(pat.len() as int), pat, with)
    } else {
        seq![s.first()] + replace_all_with(s.drop_first(), pat, with)
    }
}

fn replace_all_with_x(s: &Vec<char>, pat: &Vec<char>, with_v: &Vec<char>) -> (r: Vec<char>)
    ensures
        r@ == replace_all_with(s@, pat@, with_v@),
{
    let n = s.len();
    let m = pat.len();
    if m == 0 {
        let r = seg(s, 0, n);
        proof {
            assert(r@ =~= s@);
        }
        return r;
    }
    let mut out: Vec<char> = Vec::new();
    let mut i: usize = 0;
    proof {
        assert(s@.skip(0) =~= s@);
    }
    while i < n
        invariant
            i <= n == s@.len(),
            m == pat@.len(),
            m > 0,
            out@ + replace_all_with(s@.skip(i as int), pat@, with_v@) == replace_all_with(
                s@,
                pat@,
                with_v@,
            ),
        decreases n - i,
    {
        proof {
            assert(s@.skip(i as int).first() == s@[i as int]);
            assert(s@.skip(i as int).drop_first() =~= s@.skip(i + 1));
        }
        if matches_at(s, i, pat) {
            proof {
                assert(match_at(s@.skip(i as int), 0, pat@)) by {
                    assert(s@.skip(i as int).subrange(0, pat@.len() as int) =~= s@.subrange(
                        i as int,
                        i + pat@.len(),
                    ));
                }
                assert(s@.skip(i as int).skip(m as int) =~= s@.skip(i + m));
            }
            let mut piece = seg(with_v, 0, with_v.len());
            proof {
                assert(piece@ =~= with_v@);
            }
            out.append(&mut piece);
            i = i + m;
        } else {
            proof {
                assert(!match_at(s@.skip(i as int), 0, pat@)) by {
                    if match_at(s@.skip(i as int), 0, pat@) {
                        assert(s@.subrange(i as int, i + pat@.len()) =~= s@.skip(
                            i as int,
                        ).subrange(0, pat@.len() as int));
                    }
                }
            }
            out.push(s[i]);
            i = i + 1;
        }
    }
    proof {
        assert(replace_all_with(s@.skip(n as int), pat@, with_v@) =~= Seq::<char>::empty());
        assert(out@ + Seq::<char>::empty() =~= out@);
    }
    out
}

/// Substitute `YYYY`, `MM` and `DD` placeholders in a path pattern with the
/// given calendar day; the combined `YYYY-MM-DD` form is replaced first so
/// its pieces are not substituted separately.
pub fn resolve_date_pattern(pattern: &str, year: u32, month: u32, day: u32) -> (r: String)
    ensures
        r@ == spec_date_pattern(pattern@, year as int, month as int, day as int),
{
    let p = to_chars(pattern);
    let yv = format_u32_padded(year, 4);
    let mv = format_u32_padded(month, 2);
    let dv = format_u32_padded(day, 2);
    let mut iso: Vec<char> = seg(&yv, 0, yv.len());
    iso.push('-');
    let mut mm = seg(&mv, 0, mv.len());
    iso.append(&mut mm);
    iso.push('-');
    let mut dd = seg(&dv, 0, dv.len());
    iso.append(&mut dd);
    proof {
        assert(iso@ =~= dec_padded(year as int, 4) + seq!['-'] + dec_padded(month as int, 2)
            + seq!['-'] + dec_padded(day as int, 2));
    }
    let t1 = replace_all_with_x(&p, &to_chars("YYYY-MM-DD"), &iso);
    let t2 = replace_all_with_x(&t1, &to_chars("YYYY"), &yv);
    let t3 = replace_all_with_x(&t2, &to_chars("MM"), &mv);
    let t4 = replace_all_with_x(&t3, &to_chars("DD"), &dv);
    string_from_chars(&t4)
}

} // verus!
