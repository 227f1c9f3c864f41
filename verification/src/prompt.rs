//! Prompt-file trimming.
//!
//! Skill and pattern files open with optional YAML frontmatter between `---`
//! fences and a markdown H1 title; what the hooks inject is the body below
//! both.  Reading the file is the caller's job; the trimming itself is
//! verified here.

use vstd::prelude::*;
use crate::text::{
    to_chars, split_lines, lines_spec, trim, trim_white, match_at, seg, string_from_chars,
};

verus! {

/// A frontmatter fence: the line holds `---` alone, up to surrounding
/// whitespace.
pub open spec fn is_fence(line: Seq<char>) -> bool {
    trim_white(line) == seq!['-', '-', '-']
}

/// An H1 heading line.
pub open spec fn is_h1(line: Seq<char>) -> bool {
    match_at(line, 0, seq!['#', ' '])
}

/// The line-filter state while walking a prompt file.
pub ghost struct TrimState {
    pub kept: Seq<Seq<char>>,
    pub in_fm: bool,
    pub fm_done: bool,
    pub h1_removed: bool,
}

/// The first line decides whether a frontmatter block opens; otherwise it is
/// itself the H1 or the first body line.
pub open spec fn trim_first(line: Seq<char>) -> TrimState {
    if is_fence(line) {
        TrimState { kept: Seq::empty(), in_fm: true, fm_done: false, h1_removed: false }
    } else if is_h1(line) {
        TrimState { kept: Seq::empty(), in_fm: false, fm_done: true, h1_removed: true }
    } else {
        TrimState { kept: seq![line], in_fm: false, fm_done: true, h1_removed: false }
    }
}

/// Every later line: frontmatter lines vanish up to the closing fence, the
/// first H1 after the frontmatter vanishes, everything else is kept.
pub open spec fn trim_step(st: TrimState, line: Seq<char>) -> TrimState {
    if st.in_fm {
        if is_fence(line) {
            TrimState { in_fm: false, fm_done: true, ..st }
        } else {
            st
        }
    } else if st.fm_done && !st.h1_removed && is_h1(line) {
        TrimState { h1_removed: true, ..st }
    } else {
        TrimState { kept: st.kept.push(line), ..st }
    }
}

pub open spec fn trim_fold(st: TrimState, lines: Seq<Seq<char>>) -> TrimState
    decreases lines.len(),
{
    if lines.len() == 0 {
        st
    } else {
        trim_fold(trim_step(st, lines.first()), lines.drop_first())
    }
}

/// Lines joined back with newlines.
pub open spec fn join_nl(parts: Seq<Seq<char>>) -> Seq<char>
    decreases parts.len(),
{
    if parts.len() == 0 {
        Seq::empty()
    } else if parts.len() == 1 {
        parts.first()
    } else {
        parts.first() + seq!['\n'] + join_nl(parts.drop_first())
    }
}

proof fn lemma_join_push(s: Seq<Seq<char>>, x: Seq<char>)
    ensures
        join_nl(s.push(x)) == if s.len() == 0 {
            x
        } else {
            join_nl(s) + seq!['\n'] + x
        },
    decreases s.len(),
{
    if s.len() == 0 {
        assert(s.push(x).first() == x);
    } else {
        assert(s.push(x).drop_first() =~= s.drop_first().push(x));
        lemma_join_push(s.drop_first(), x);
        if s.len() == 1 {
            assert(s.push(x).len() == 2);
            assert(join_nl(s.push(x)) == s[0] + seq!['\n'] + x);
        }
    }
}

/// What [`strip_frontmatter_and_h1`] returns: the file's lines with the
/// frontmatter block and the first following H1 removed, joined again.
pub open spec fn strip_spec(content: Seq<char>) -> Seq<char> {
    let ls = lines_spec(content);
    if ls.len() == 0 {
        Seq::empty()
    } else {
        join_nl(trim_fold(trim_first(ls.first()), ls.drop_first()).kept)
    }
}

fn is_fence_x(line: &Vec<char>) -> (r: bool)
    ensures
        r == is_fence(line@),
{
    let t = trim(line);
    r_fence(&t)
}

pub(crate) fn r_fence(t: &Vec<char>) -> (r: bool)
    ensures
        r == (t@ == seq!['-', '-', '-']),
{
    if t.len() == 3 && t[0] == '-' && t[1] == '-' && t[2] == '-' {
        proof {
            assert(t@ =~= seq!['-', '-', '-']);
        }
        true
    } else {
        proof {
            if t@ == seq!['-', '-', '-'] {
                assert(t@[0] == '-' && t@[1] == '-' && t@[2] == '-');
            }
        }
        false
    }
}

fn is_h1_x(line: &Vec<char>) -> (r: bool)
    ensures
        r == is_h1(line@),
{
    let n = line.len();
    if n >= 2 && line[0] == '#' && line[1] == ' ' {
        proof {
            assert(line@.subrange(0, 2) =~= seq!['#', ' ']);
        }
        true
    } else {
        proof {
            if match_at(line@, 0, seq!['#', ' ']) {
                assert(line@.subrange(0, 2)[0] == '#');
                assert(line@.subrange(0, 2)[1] == ' ');
            }
        }
        false
    }
}

/// Remove YAML frontmatter (between the first pair of `---` fences) and the
/// first H1 line, and hand the remaining lines back joined by newlines.
pub fn strip_frontmatter_and_h1(content: &str) -> (r: String)
    ensures
        r@ == strip_spec(content@),
{
    let chars = to_chars(content);
    let lines = split_lines(&chars);
    let ghost lv = lines_spec(content@);
    let n = lines.len();
    let mut out: Vec<char> = Vec::new();
    if n == 0 {
        return string_from_chars(&out);
    }
    let mut kept_any = false;
    let mut in_fm = false;
    let mut fm_done = false;
    let mut h1_removed = false;
    let ghost st0 = trim_first(lv.first());
    {
        let first = &lines[0];
        if is_fence_x(first) {
            in_fm = true;
        } else if is_h1_x(first) {
            fm_done = true;
            h1_removed = true;
        } else {
            let mut piece = seg(first, 0, first.len());
            proof {
                assert(piece@ =~= lv.first());
            }
            out.append(&mut piece);
            kept_any = true;
            fm_done = true;
            proof {
                assert(out@ =~= join_nl(st0.kept));
            }
        }
    }
    let ghost mut stv = st0;
    let mut i: usize = 1;
    proof {
        assert(lv.skip(1).skip(0) =~= lv.skip(1));
    }
    while i < n
        invariant
            1 <= i <= n == lines@.len(),
            n == lv.len(),
            forall|t: int| 0 <= t < n ==> lines@[t]@ == lv[t],
            trim_fold(stv, lv.skip(i as int)) == trim_fold(trim_first(lv.first()), lv.skip(1)),
            in_fm == stv.in_fm,
            fm_done == stv.fm_done,
            h1_removed == stv.h1_removed,
            kept_any == (stv.kept.len() > 0),
            out@ == join_nl(stv.kept),
        decreases n - i,
    {
        proof {
            assert(lv.skip(i as int).first() == lv[i as int]);
            assert(lv.skip(i as int).drop_first() =~= lv.skip(i + 1));
        }
        let line = &lines[i];
        if in_fm {
            if is_fence_x(line) {
                in_fm = false;
                fm_done = true;
            }
        } else if fm_done && !h1_removed && is_h1_x(line) {
            h1_removed = true;
        } else {
            let ghost kept_before = stv.kept;
            if kept_any {
                out.push('\n');
            }
            let mut piece = seg(line, 0, line.len());
            proof {
                assert(piece@ =~= lv[i as int]);
            }
            out.append(&mut piece);
            kept_any = true;
            proof {
                lemma_join_push(kept_before, lv[i as int]);
                assert(out@ =~= join_nl(kept_before.push(lv[i as int])));
            }
        }
        proof {
            stv = trim_step(stv, lv[i as int]);
        }
        i = i + 1;
    }
    proof {
        assert(lv.skip(n as int) =~= Seq::<Seq<char>>::empty());
    }
    string_from_chars(&out)
}

} // verus!
