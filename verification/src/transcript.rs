//! The transcript analysis engine.
//!
//! A transcript is a line-delimited log of JSON records in two coexisting
//! shapes: records carrying a `type` discriminant with content nested under
//! `message.content`, and records carrying a `role` discriminant with
//! top-level `content`.  One forward pass normalizes each record, scans
//! assistant text for the three configured markers, extracts file-write
//! targets from tool invocations (directly, or out of an embedded
//! `safe-write` shell command), honours the two boundary-reset triggers, and
//! tracks the timestamp span.  [`analyze_transcript`] is the entry point; the
//! spec functions in this module are its complete model.

use vstd::prelude::*;
use vstd::string::{StrSliceExecFns, StringExecFns};
use crate::config::{Config, spec_insights_path};
use crate::json::{Json, json_of, jget, jget_str, jget_arr, parse_json_line};
use crate::markers::{
    MarkerOcc, scan_occs, occ_topic, skip_topic, captured_topic, scan_marker, hit_topic,
    hit_skip_topic, hit_captured_topic, decorative, decorative_chars, next_line_topic_spec,
    next_line_topic_from,
};
use crate::text::{
    alnum_char, lower_of, has_sub, match_at, find_from, skip_white_from, trim_end_ch,
    spec_sat_inc, lines_spec, to_chars, split_lines, seg, contains_sub, eq_str, chars_eq,
    matches_at, skip_white, find_char, sat_inc, string_from_chars, lower_chars, trim_end_run,
    eq_ignore_ascii_case_chars, ascii_ieq,
};

verus! {

/// What one engine invocation reports about a transcript.
pub struct TranscriptAnalysis {
    pub user_messages: usize,
    pub tool_using_turns: usize,
    pub has_memory_write: bool,
    pub insight_count: usize,
    pub insights_write_count: usize,
    /// Topics extracted from primary insight markers, case preserved.
    pub insight_topics: Vec<String>,
    /// Filenames written into the insights directory.
    pub insights_written: Vec<String>,
    /// Whole minutes between the earliest and latest parseable timestamps.
    pub session_duration_minutes: u64,
    /// Topics marked reviewed-but-not-captured, lowercased.
    pub skipped_topics: Vec<String>,
    /// Topics marked explicitly captured, lowercased.
    pub captured_topics: Vec<String>,
}

/// The mathematical shadow of [`TranscriptAnalysis`].
pub ghost struct AnalysisModel {
    pub user_messages: int,
    pub tool_using_turns: int,
    pub has_memory_write: bool,
    pub insight_count: int,
    pub insights_write_count: int,
    pub insight_topics: Seq<Seq<char>>,
    pub insights_written: Seq<Seq<char>>,
    pub session_duration_minutes: int,
    pub skipped_topics: Seq<Seq<char>>,
    pub captured_topics: Seq<Seq<char>>,
}

impl View for TranscriptAnalysis {
    type V = AnalysisModel;

    open spec fn view(&self) -> AnalysisModel {
        AnalysisModel {
            user_messages: self.user_messages as int,
            tool_using_turns: self.tool_using_turns as int,
            has_memory_write: self.has_memory_write,
            insight_count: self.insight_count as int,
            insights_write_count: self.insights_write_count as int,
            insight_topics: self.insight_topics@.map_values(|s: String| s@),
            insights_written: self.insights_written@.map_values(|s: String| s@),
            session_duration_minutes: self.session_duration_minutes as int,
            skipped_topics: self.skipped_topics@.map_values(|s: String| s@),
            captured_topics: self.captured_topics@.map_values(|s: String| s@),
        }
    }
}

/// The configuration values the scanner reads, as plain sequences.
pub ghost struct ScanConfig {
    pub insight_marker: Seq<char>,
    pub skip_marker: Seq<char>,
    pub captured_marker: Seq<char>,
    pub memory_paths: Seq<Seq<char>>,
    pub write_tools: Seq<Seq<char>>,
    pub insights_path: Seq<char>,
    pub compaction_phrase: Seq<char>,
    pub reflection_skill: Seq<char>,
}

pub open spec fn scan_config_of(c: &Config) -> ScanConfig {
    ScanConfig {
        insight_marker: c.insight_marker@,
        skip_marker: c.insight_skip_marker@,
        captured_marker: c.insight_captured_marker@,
        memory_paths: c.memory_paths@.map_values(|s: String| s@),
        write_tools: c.write_tool_names@.map_values(|s: String| s@),
        insights_path: spec_insights_path(c),
        compaction_phrase: c.compaction_phrase@,
        reflection_skill: c.reflection_skill@,
    }
}

/// The running fold state: the aggregate plus the timestamp span.
pub ghost struct ScanState {
    pub a: AnalysisModel,
    pub lo_ts: Option<int>,
    pub hi_ts: Option<int>,
}

pub open spec fn init_model() -> AnalysisModel {
    AnalysisModel {
        user_messages: 0,
        tool_using_turns: 0,
        has_memory_write: false,
        insight_count: 0,
        insights_write_count: 0,
        insight_topics: Seq::empty(),
        insights_written: Seq::empty(),
        session_duration_minutes: 0,
        skipped_topics: Seq::empty(),
        captured_topics: Seq::empty(),
    }
}

pub open spec fn init_state() -> ScanState {
    ScanState { a: init_model(), lo_ts: None, hi_ts: None }
}

/// A boundary reset: the six insight-scoped fields clear together; the
/// session-wide counters, the memory-write flag and the timestamp span stay.
pub open spec fn reset_insights(a: AnalysisModel) -> AnalysisModel {
    AnalysisModel {
        insight_count: 0,
        insight_topics: Seq::empty(),
        insights_write_count: 0,
        insights_written: Seq::empty(),
        skipped_topics: Seq::empty(),
        captured_topics: Seq::empty(),
        ..a
    }
}

// ---------- record classification ----------

/// A user record under either naming scheme.
pub open spec fn rec_is_user(j: Json) -> bool {
    jget_str(j, "type"@) == Some("human"@) || jget_str(j, "type"@) == Some("user"@) || jget_str(
        j,
        "role"@,
    ) == Some("user"@)
}

/// An assistant record under either naming scheme.
pub open spec fn rec_is_assistant(j: Json) -> bool {
    jget_str(j, "type"@) == Some("assistant"@) || jget_str(j, "role"@) == Some("assistant"@)
}

/// The record's content items: `message.content` with a fallback to a
/// top-level `content` array.
pub open spec fn rec_content(j: Json) -> Option<Seq<Json>> {
    match jget(j, "message"@) {
        Some(m) => match jget_arr(m, "content"@) {
            Some(a) => Some(a),
            None => jget_arr(j, "content"@),
        },
        None => jget_arr(j, "content"@),
    }
}

/// A content item's text: a `text` field, or a string `content` field.
pub open spec fn item_text(it: Json) -> Option<Seq<char>> {
    match jget_str(it, "text"@) {
        Some(t) => Some(t),
        None => jget_str(it, "content"@),
    }
}

/// A tool invocation: an explicit type tag, or — for the producer that omits
/// the tag — a name together with one of the known input containers.
pub open spec fn is_tool_item(it: Json) -> bool {
    jget_str(it, "type"@) == Some("tool_use"@) || jget_str(it, "type"@) == Some("tool_call"@)
        || jget_str(it, "type"@) == Some("function_call"@) || (jget(it, "name"@) is Some && (jget(
        it,
        "input"@,
    ) is Some || jget(it, "tool_input"@) is Some || jget(it, "arguments"@) is Some))
}

/// The invocation's tool name, under the three producer spellings.
pub open spec fn tool_name_of(it: Json) -> Option<Seq<char>> {
    match jget_str(it, "name"@) {
        Some(n) => Some(n),
        None => match jget_str(it, "tool_name"@) {
            Some(n) => Some(n),
            None => jget_str(it, "tool"@),
        },
    }
}

// ---------- write-target extraction ----------

/// A target path read from the four candidate fields on one object.
pub open spec fn own_file_path(o: Json) -> Option<Seq<char>> {
    if jget_str(o, "file_path"@) is Some {
        jget_str(o, "file_path"@)
    } else if jget_str(o, "path"@) is Some {
        jget_str(o, "path"@)
    } else if jget_str(o, "target_file"@) is Some {
        jget_str(o, "target_file"@)
    } else {
        jget_str(o, "target_path"@)
    }
}

/// A target path read from the candidate fields inside one input container.
pub open spec fn container_path(it: Json, cname: Seq<char>) -> Option<Seq<char>> {
    match jget(it, cname) {
        Some(o) => own_file_path(o),
        None => None,
    }
}

/// The invocation's target path: flat fields first, then the same fields
/// nested inside each known input container.
pub open spec fn extract_path(it: Json) -> Option<Seq<char>> {
    if own_file_path(it) is Some {
        own_file_path(it)
    } else if container_path(it, "input"@) is Some {
        container_path(it, "input"@)
    } else if container_path(it, "tool_input"@) is Some {
        container_path(it, "tool_input"@)
    } else if container_path(it, "arguments"@) is Some {
        container_path(it, "arguments"@)
    } else {
        container_path(it, "params"@)
    }
}

/// The command string of a shell invocation.
pub open spec fn bash_command_of(it: Json) -> Option<Seq<char>> {
    match jget(it, "input"@) {
        Some(o) => jget_str(o, "command"@),
        None => None,
    }
}

/// Length of the `safe-write` verb found at position `k`, if any.
pub open spec fn sw_verb_len(cmd: Seq<char>, k: int) -> Option<int> {
    if match_at(cmd, k, "write"@) {
        Some("write"@.len() as int)
    } else if match_at(cmd, k, "edit"@) {
        Some("edit"@.len() as int)
    } else if match_at(cmd, k, "insert"@) {
        Some("insert"@.len() as int)
    } else {
        None
    }
}

/// The path captured by a `safe-write <verb> "<path>"` invocation starting at
/// position `i`: the utility name, whitespace, a verb, whitespace, an
/// optional opening quote, then at least one character up to a quote, line
/// break or the end.
pub open spec fn sw_path_at(cmd: Seq<char>, i: int) -> Option<Seq<char>> {
    if !match_at(cmd, i, "safe-write"@) {
        None
    } else {
        let j = i + "safe-write"@.len();
        let k = skip_white_from(cmd, j);
        if k == j {
            None
        } else {
            match sw_verb_len(cmd, k) {
                None => None,
                Some(vl) => {
                    let v = k + vl;
                    let m = skip_white_from(cmd, v);
                    if m == v {
                        None
                    } else {
                        let q = if m < cmd.len() && cmd[m] == '"' {
                            m + 1
                        } else {
                            m
                        };
                        let e1 = find_from(cmd, q, '"');
                        let e2 = find_from(cmd, q, '\n');
                        let e = if e1 < e2 {
                            e1
                        } else {
                            e2
                        };
                        if e == q {
                            None
                        } else {
                            Some(cmd.subrange(q, e))
                        }
                    }
                },
            }
        }
    }
}

/// The first embedded `safe-write` target at or after position `i`.
pub open spec fn sw_first_from(cmd: Seq<char>, i: int) -> Option<Seq<char>>
    decreases cmd.len() - i,
{
    if i < 0 || i >= cmd.len() {
        None
    } else {
        match sw_path_at(cmd, i) {
            Some(p) => Some(p),
            None => sw_first_from(cmd, i + 1),
        }
    }
}

/// The skill identifier of a skill invocation, from any input container.
pub open spec fn container_skill(it: Json, cname: Seq<char>) -> Option<Seq<char>> {
    match jget(it, cname) {
        Some(o) => jget_str(o, "skill"@),
        None => None,
    }
}

pub open spec fn skill_of(it: Json) -> Option<Seq<char>> {
    if container_skill(it, "input"@) is Some {
        container_skill(it, "input"@)
    } else if container_skill(it, "tool_input"@) is Some {
        container_skill(it, "tool_input"@)
    } else {
        container_skill(it, "arguments"@)
    }
}

/// The tool name matches a configured write tool, ASCII case ignored.
pub open spec fn is_write_tool(name: Seq<char>, cfg: ScanConfig) -> bool {
    exists|k: int| 0 <= k < cfg.write_tools.len() && ascii_ieq(name, cfg.write_tools[k])
}

// ---------- compaction boundary ----------

/// A content item whose `text` holds the configured continuation phrase.
pub open spec fn item_has_phrase(it: Json, phrase: Seq<char>) -> bool {
    match jget_str(it, "text"@) {
        Some(t) => has_sub(t, phrase),
        None => false,
    }
}

pub open spec fn arr_has_phrase(items: Seq<Json>, phrase: Seq<char>) -> bool {
    exists|k: int| 0 <= k < items.len() && item_has_phrase(items[k], phrase)
}

/// A user record that continues a compacted session: the configured phrase
/// occurs in a text item under `message.content` or under a top-level
/// `content` array.
pub open spec fn compaction_boundary(j: Json, phrase: Seq<char>) -> bool {
    (match jget(j, "message"@) {
        Some(m) => match jget_arr(m, "content"@) {
            Some(a) => arr_has_phrase(a, phrase),
            None => false,
        },
        None => false,
    }) || (match jget_arr(j, "content"@) {
        Some(a) => arr_has_phrase(a, phrase),
        None => false,
    })
}

// ---------- the aggregate fold ----------

/// The path's final component: the last non-empty `/`-separated segment.
pub open spec fn seg_from_end(s: Seq<char>) -> Seq<char>
    decreases s.len(),
{
    if s.len() == 0 {
        s
    } else if s.last() == '/' {
        Seq::empty()
    } else {
        seg_from_end(s.drop_last()).push(s.last())
    }
}

pub open spec fn final_component(p: Seq<char>) -> Option<Seq<char>> {
    let t = trim_end_ch(p, '/');
    if t.len() == 0 {
        None
    } else {
        Some(seg_from_end(t))
    }
}

/// One write event folded in: a path containing the insights fragment bumps
/// the insight-write count and records the path's filename, the two always
/// together, so every counted insight write names exactly one file; a path
/// containing any memory fragment sets the sticky memory-write flag.  A path
/// with no final component (one made only of separators) counts for the
/// memory flag alone.
pub open spec fn apply_write(a: AnalysisModel, path: Seq<char>, cfg: ScanConfig) -> AnalysisModel {
    let a1 = if has_sub(path, cfg.insights_path) && a.insights_write_count < usize::MAX {
        match final_component(path) {
            Some(f) => AnalysisModel {
                insights_write_count: a.insights_write_count + 1,
                insights_written: a.insights_written.push(f),
                ..a
            },
            None => a,
        }
    } else {
        a
    };
    if exists|k: int| 0 <= k < cfg.memory_paths.len() && has_sub(path, cfg.memory_paths[k]) {
        AnalysisModel { has_memory_write: true, ..a1 }
    } else {
        a1
    }
}

/// One primary-marker occurrence folded in: the insight count bumps and the
/// topic, when one was extracted, is recorded.
pub open spec fn insight_occ_step(a: AnalysisModel, text: Seq<char>, occ: MarkerOcc) -> AnalysisModel {
    if a.insight_count < usize::MAX {
        AnalysisModel {
            insight_count: a.insight_count + 1,
            insight_topics: match occ_topic(text, occ) {
                Some(t) => a.insight_topics.push(t),
                None => a.insight_topics,
            },
            ..a
        }
    } else {
        a
    }
}

/// Primary-marker occurrences folded in.
pub open spec fn apply_insights(a: AnalysisModel, text: Seq<char>, occs: Seq<MarkerOcc>) -> AnalysisModel
    decreases occs.len(),
{
    if occs.len() == 0 {
        a
    } else {
        apply_insights(insight_occ_step(a, text, occs.first()), text, occs.drop_first())
    }
}

/// One skip-marker occurrence folded in: well-formed topics only, lowercased.
pub open spec fn skip_occ_step(a: AnalysisModel, occ: MarkerOcc) -> AnalysisModel {
    match skip_topic(occ) {
        Some(t) => AnalysisModel { skipped_topics: a.skipped_topics.push(t), ..a },
        None => a,
    }
}

/// Skip-marker occurrences folded in.
pub open spec fn apply_skips(a: AnalysisModel, occs: Seq<MarkerOcc>) -> AnalysisModel
    decreases occs.len(),
{
    if occs.len() == 0 {
        a
    } else {
        apply_skips(skip_occ_step(a, occs.first()), occs.drop_first())
    }
}

/// One captured-marker occurrence folded in: the part before an arrow
/// separator, lowercased.
pub open spec fn captured_occ_step(a: AnalysisModel, occ: MarkerOcc) -> AnalysisModel {
    match captured_topic(occ) {
        Some(t) => AnalysisModel { captured_topics: a.captured_topics.push(t), ..a },
        None => a,
    }
}

/// Captured-marker occurrences folded in.
pub open spec fn apply_captured(a: AnalysisModel, occs: Seq<MarkerOcc>) -> AnalysisModel
    decreases occs.len(),
{
    if occs.len() == 0 {
        a
    } else {
        apply_captured(captured_occ_step(a, occs.first()), occs.drop_first())
    }
}

/// One text item scanned for all three markers: the primary pass, then the
/// skip pass, then the captured pass.
pub open spec fn scan_text(a: AnalysisModel, text: Seq<char>, cfg: ScanConfig) -> AnalysisModel {
    apply_captured(
        apply_skips(
            apply_insights(a, text, scan_occs(text, 0, cfg.insight_marker)),
            scan_occs(text, 0, cfg.skip_marker),
        ),
        scan_occs(text, 0, cfg.captured_marker),
    )
}

/// One content item folded in: text is scanned for markers; a tool
/// invocation may trigger the reflection reset and may yield a write event.
pub open spec fn item_step(st: ScanState, it: Json, cfg: ScanConfig) -> ScanState {
    let st1 = match item_text(it) {
        Some(t) => ScanState { a: scan_text(st.a, t, cfg), ..st },
        None => st,
    };
    if is_tool_item(it) {
        match tool_name_of(it) {
            None => st1,
            Some(name) => {
                let st2 = if name == "Skill"@ && skill_of(it) == Some(cfg.reflection_skill) {
                    ScanState { a: reset_insights(st1.a), ..st1 }
                } else {
                    st1
                };
                let path = if is_write_tool(name, cfg) {
                    extract_path(it)
                } else if name == "Bash"@ {
                    match bash_command_of(it) {
                        Some(cmd) => sw_first_from(cmd, 0),
                        None => None,
                    }
                } else {
                    None
                };
                match path {
                    Some(p) => ScanState { a: apply_write(st2.a, p, cfg), ..st2 },
                    None => st2,
                }
            },
        }
    } else {
        st1
    }
}

pub open spec fn items_fold(st: ScanState, items: Seq<Json>, cfg: ScanConfig) -> ScanState
    decreases items.len(),
{
    if items.len() == 0 {
        st
    } else {
        items_fold(item_step(st, items.first(), cfg), items.drop_first(), cfg)
    }
}

pub open spec fn any_tool(items: Seq<Json>) -> bool {
    exists|k: int| 0 <= k < items.len() && is_tool_item(items[k])
}

/// What `chrono` reads out of an RFC 3339 timestamp: seconds since the Unix
/// epoch, a function of the text alone; `None` when it does not parse.
pub uninterp spec fn rfc3339_secs_of(s: Seq<char>) -> Option<i64>;

/// Relies on chrono::DateTime::parse_from_rfc3339 and DateTime::timestamp.
/// chrono's calendar spans roughly the years -262144 to 262142, so the
/// seconds value always lies well inside ten trillion either way.
#[verifier::external_body]
fn parse_rfc3339_secs(s: &Vec<char>) -> (r: Option<i64>)
    ensures
        r == rfc3339_secs_of(s@),
        match r {
            Some(v) => -10_000_000_000_000 < v < 10_000_000_000_000,
            None => true,
        },
{
    let text: String = s.iter().collect();
    match chrono::DateTime::parse_from_rfc3339(&text) {
        Ok(dt) => Some(dt.timestamp()),
        Err(_) => None,
    }
}

/// Every parsed timestamp lies inside chrono's calendar range.
pub open spec fn ts_in_range(v: int) -> bool {
    -10_000_000_000_000 < v < 10_000_000_000_000
}

/// The timestamp span widened by one record's timestamp, if it parses.
pub open spec fn ts_step(st: ScanState, j: Json) -> ScanState {
    match jget_str(j, "timestamp"@) {
        Some(s) => match rfc3339_secs_of(s) {
            Some(v) => ScanState {
                lo_ts: match st.lo_ts {
                    Some(lo) => if v < lo {
                        Some(v as int)
                    } else {
                        Some(lo)
                    },
                    None => Some(v as int),
                },
                hi_ts: match st.hi_ts {
                    Some(hi) => if v > hi {
                        Some(v as int)
                    } else {
                        Some(hi)
                    },
                    None => Some(v as int),
                },
                ..st
            },
            None => st,
        },
        None => st,
    }
}

/// One record folded in.  Timestamps count for every record; a user record
/// bumps the user count and may trigger the compaction reset; an assistant
/// record has its items folded and counts as one tool-using turn when any
/// item is a tool invocation; anything else is dropped.
pub open spec fn record_step(st: ScanState, j: Json, cfg: ScanConfig) -> ScanState {
    let st1 = ts_step(st, j);
    if rec_is_user(j) {
        let a1 = AnalysisModel { user_messages: spec_sat_inc(st1.a.user_messages), ..st1.a };
        let a2 = if compaction_boundary(j, cfg.compaction_phrase) {
            reset_insights(a1)
        } else {
            a1
        };
        ScanState { a: a2, ..st1 }
    } else if rec_is_assistant(j) {
        match rec_content(j) {
            None => st1,
            Some(items) => {
                let st2 = items_fold(st1, items, cfg);
                if any_tool(items) {
                    ScanState {
                        a: AnalysisModel {
                            tool_using_turns: spec_sat_inc(st2.a.tool_using_turns),
                            ..st2.a
                        },
                        ..st2
                    }
                } else {
                    st2
                }
            },
        }
    } else {
        st1
    }
}

/// One transcript line folded in: a line that is not valid JSON is dropped.
pub open spec fn line_step(st: ScanState, line: Seq<char>, cfg: ScanConfig) -> ScanState {
    match json_of(line) {
        None => st,
        Some(j) => record_step(st, j, cfg),
    }
}

pub open spec fn lines_fold(st: ScanState, lines: Seq<Seq<char>>, cfg: ScanConfig) -> ScanState
    decreases lines.len(),
{
    if lines.len() == 0 {
        st
    } else {
        lines_fold(line_step(st, lines.first(), cfg), lines.drop_first(), cfg)
    }
}

/// Whole minutes between the span's ends; zero without two parsed
/// timestamps, and floored at zero against clock skew.
pub open spec fn duration_of(lo: Option<int>, hi: Option<int>) -> int {
    match (lo, hi) {
        (Some(l), Some(h)) => if h > l {
            (h - l) / 60
        } else {
            0
        },
        _ => 0,
    }
}

/// The complete model of [`analyze_transcript`].
pub open spec fn spec_analyze(t: Seq<char>, cfg: ScanConfig) -> AnalysisModel {
    let st = lines_fold(init_state(), lines_spec(t), cfg);
    AnalysisModel { session_duration_minutes: duration_of(st.lo_ts, st.hi_ts), ..st.a }
}

// ---------- the counting laws ----------

/// The counting invariant: every recorded topic was counted as a marker
/// occurrence, and the recorded filenames and the insight-write count agree
/// exactly — every counted insight write names one file.
pub open spec fn counts_ok(a: AnalysisModel) -> bool {
    &&& a.insight_topics.len() <= a.insight_count
    &&& a.insights_written.len() == a.insights_write_count
}

proof fn lemma_counts_insights(a: AnalysisModel, text: Seq<char>, occs: Seq<MarkerOcc>)
    requires
        counts_ok(a),
    ensures
        counts_ok(apply_insights(a, text, occs)),
    decreases occs.len(),
{
    if occs.len() > 0 {
        lemma_counts_insights(insight_occ_step(a, text, occs.first()), text, occs.drop_first());
    }
}

proof fn lemma_counts_skips(a: AnalysisModel, occs: Seq<MarkerOcc>)
    requires
        counts_ok(a),
    ensures
        counts_ok(apply_skips(a, occs)),
    decreases occs.len(),
{
    if occs.len() > 0 {
        lemma_counts_skips(skip_occ_step(a, occs.first()), occs.drop_first());
    }
}

proof fn lemma_counts_captured(a: AnalysisModel, occs: Seq<MarkerOcc>)
    requires
        counts_ok(a),
    ensures
        counts_ok(apply_captured(a, occs)),
    decreases occs.len(),
{
    if occs.len() > 0 {
        lemma_counts_captured(captured_occ_step(a, occs.first()), occs.drop_first());
    }
}

proof fn lemma_counts_item(st: ScanState, it: Json, cfg: ScanConfig)
    requires
        counts_ok(st.a),
    ensures
        counts_ok(item_step(st, it, cfg).a),
{
    let a0 = st.a;
    match item_text(it) {
        Some(t) => {
            lemma_counts_insights(a0, t, scan_occs(t, 0, cfg.insight_marker));
            lemma_counts_skips(
                apply_insights(a0, t, scan_occs(t, 0, cfg.insight_marker)),
                scan_occs(t, 0, cfg.skip_marker),
            );
            lemma_counts_captured(
                apply_skips(
                    apply_insights(a0, t, scan_occs(t, 0, cfg.insight_marker)),
                    scan_occs(t, 0, cfg.skip_marker),
                ),
                scan_occs(t, 0, cfg.captured_marker),
            );
        },
        None => {},
    }
}

proof fn lemma_counts_items(st: ScanState, items: Seq<Json>, cfg: ScanConfig)
    requires
        counts_ok(st.a),
    ensures
        counts_ok(items_fold(st, items, cfg).a),
    decreases items.len(),
{
    if items.len() > 0 {
        lemma_counts_item(st, items.first(), cfg);
        lemma_counts_items(item_step(st, items.first(), cfg), items.drop_first(), cfg);
    }
}

proof fn lemma_counts_record(st: ScanState, j: Json, cfg: ScanConfig)
    requires
        counts_ok(st.a),
    ensures
        counts_ok(record_step(st, j, cfg).a),
{
    let st1 = ts_step(st, j);
    if rec_is_assistant(j) && !rec_is_user(j) {
        match rec_content(j) {
            None => {},
            Some(items) => {
                lemma_counts_items(st1, items, cfg);
            },
        }
    }
}

proof fn lemma_counts_lines(st: ScanState, lines: Seq<Seq<char>>, cfg: ScanConfig)
    requires
        counts_ok(st.a),
    ensures
        counts_ok(lines_fold(st, lines, cfg).a),
    decreases lines.len(),
{
    if lines.len() > 0 {
        match json_of(lines.first()) {
            None => {},
            Some(j) => {
                lemma_counts_record(st, j, cfg);
            },
        }
        lemma_counts_lines(line_step(st, lines.first(), cfg), lines.drop_first(), cfg);
    }
}

/// The counting laws, stated of every analysis result: recorded topics never
/// outnumber marker occurrences, and recorded filenames agree exactly with
/// the insight-write count.
pub proof fn lemma_analysis_counts(t: Seq<char>, cfg: ScanConfig)
    ensures
        counts_ok(spec_analyze(t, cfg)),
{
    lemma_counts_lines(init_state(), lines_spec(t), cfg);
}

// ---------- topic/filename matching ----------

/// `s[i..j)` is one token: a maximal non-empty run of alphanumerics.
pub open spec fn is_token_at(s: Seq<char>, i: int, j: int) -> bool {
    &&& 0 <= i < j <= s.len()
    &&& (forall|k: int| i <= k < j ==> alnum_char(s[k]))
    &&& (i == 0 || !alnum_char(s[i - 1]))
    &&& (j == s.len() || !alnum_char(s[j]))
}

/// The two texts share a token of at least four characters.
pub open spec fn shares_long_token(a: Seq<char>, b: Seq<char>) -> bool {
    exists|i: int, j: int, u: int, v: int|
        is_token_at(a, i, j) && is_token_at(b, u, v) && j - i >= 4 && a.subrange(i, j)
            == b.subrange(u, v)
}

proof fn lemma_token_end(s: Seq<char>, i: int, j: int, y: int)
    requires
        0 <= i <= j <= s.len(),
        forall|k: int| i <= k < j ==> alnum_char(s[k]),
        j < s.len() ==> !alnum_char(s[j]),
        is_token_at(s, i, y),
    ensures
        y == j,
{
    if y < j {
        assert(alnum_char(s[y]));
    }
    if y > j {
        assert(alnum_char(s[j]));
    }
}

/// First index at or after `i` whose character is not alphanumeric.
fn alnum_run_end(s: &Vec<char>, i: usize) -> (j: usize)
    requires
        i <= s@.len(),
    ensures
        i <= j <= s@.len(),
        forall|k: int| i <= k < j ==> alnum_char(s@[k]),
        j < s@.len() ==> !alnum_char(s@[j as int]),
{
    let n = s.len();
    let mut j = i;
    while j < n
        invariant
            i <= j <= n == s@.len(),
            forall|k: int| i <= k < j ==> alnum_char(s@[k]),
        decreases n - j,
    {
        if !s[j].is_alphanumeric() {
            return j;
        }
        j = j + 1;
    }
    j
}

/// Whether some token of `b` equals `tok`.
fn has_equal_token(b: &Vec<char>, tok: &Vec<char>) -> (r: bool)
    ensures
        r == exists|u: int, v: int| is_token_at(b@, u, v) && b@.subrange(u, v) == tok@,
{
    let m = b.len();
    let mut u: usize = 0;
    while u < m
        invariant
            u <= m == b@.len(),
            u > 0 ==> !alnum_char(b@[u - 1]),
            forall|x: int, y: int|
                is_token_at(b@, x, y) && x < u ==> b@.subrange(x, y) != tok@,
        decreases m - u,
    {
        if !b[u].is_alphanumeric() {
            u = u + 1;
        } else {
            let v = alnum_run_end(b, u);
            let cand = seg(b, u, v);
            if chars_eq(&cand, tok) {
                proof {
                    assert(is_token_at(b@, u as int, v as int));
                }
                return true;
            }
            proof {
                assert forall|x: int, y: int|
                    is_token_at(b@, x, y) && x < v + 1 implies b@.subrange(x, y) != tok@ by {
                    if u <= x {
                        if x == u {
                            lemma_token_end(b@, u as int, v as int, y);
                        } else {
                            assert(alnum_char(b@[x - 1]));
                        }
                    }
                }
            }
            if v < m {
                u = v + 1;
            } else {
                proof {
                    assert forall|x: int, y: int|
                        is_token_at(b@, x, y) implies b@.subrange(x, y) != tok@ by {
                        assert(x < v + 1);
                    }
                }
                return false;
            }
        }
    }
    proof {
        assert forall|x: int, y: int| is_token_at(b@, x, y) implies b@.subrange(x, y) != tok@ by {
            assert(x < y <= b@.len());
        }
    }
    false
}

fn shares_long_token_x(a: &Vec<char>, b: &Vec<char>) -> (r: bool)
    ensures
        r == shares_long_token(a@, b@),
{
    let n = a.len();
    let mut i: usize = 0;
    while i < n
        invariant
            i <= n == a@.len(),
            i > 0 ==> !alnum_char(a@[i - 1]),
            forall|x: int, y: int|
                is_token_at(a@, x, y) && y - x >= 4 && x < i ==> !(exists|u: int, v: int|
                    is_token_at(b@, u, v) && a@.subrange(x, y) == b@.subrange(u, v)),
        decreases n - i,
    {
        if !a[i].is_alphanumeric() {
            i = i + 1;
        } else {
            let j = alnum_run_end(a, i);
            if j - i >= 4 {
                let tok = seg(a, i, j);
                if has_equal_token(b, &tok) {
                    proof {
                        assert(is_token_at(a@, i as int, j as int));
                    }
                    return true;
                }
            }
            proof {
                assert forall|x: int, y: int|
                    is_token_at(a@, x, y) && y - x >= 4 && x < j + 1 implies !(exists|
                    u: int,
                    v: int,
                |
                    is_token_at(b@, u, v) && a@.subrange(x, y) == b@.subrange(u, v)) by {
                    if i <= x {
                        if x == i {
                            lemma_token_end(a@, i as int, j as int, y);
                        } else {
                            assert(alnum_char(a@[x - 1]));
                        }
                    }
                }
            }
            if j < n {
                i = j + 1;
            } else {
                proof {
                    assert forall|x: int, y: int|
                        is_token_at(a@, x, y) && y - x >= 4 implies !(exists|u: int, v: int|
                        is_token_at(b@, u, v) && a@.subrange(x, y) == b@.subrange(u, v)) by {
                        assert(x < j + 1);
                    }
                }
                return false;
            }
        }
    }
    proof {
        assert forall|x: int, y: int|
            is_token_at(a@, x, y) && y - x >= 4 implies !(exists|u: int, v: int|
            is_token_at(b@, u, v) && a@.subrange(x, y) == b@.subrange(u, v)) by {
            assert(x < y <= a@.len());
        }
    }
    false
}

/// Match an insight topic to a written filename by word-token overlap: both
/// split on non-alphanumeric boundaries, and some shared token has at least
/// four characters.  Callers pass both inputs already lowercased.
pub fn topic_matches_filename(topic: &str, filename: &str) -> (r: bool)
    ensures
        r == shares_long_token(topic@, filename@),
{
    let a = to_chars(topic);
    let b = to_chars(filename);
    shares_long_token_x(&a, &b)
}

// ---------- uncaptured-topic computation ----------

pub open spec fn md_suffix() -> Seq<char> {
    seq!['.', 'm', 'd']
}

/// A written filename prepared for matching: one `.md` suffix stripped, then
/// lowercased.
pub open spec fn written_base(w: Seq<char>) -> Seq<char> {
    if w.len() >= 3 && w.subrange(w.len() - 3, w.len() as int) == md_suffix() {
        lower_of(w.take(w.len() - 3))
    } else {
        lower_of(w)
    }
}

fn written_base_x(w: &Vec<char>) -> (r: Vec<char>)
    ensures
        r@ == written_base(w@),
{
    let n = w.len();
    if n >= 3 && w[n - 3] == '.' && w[n - 2] == 'm' && w[n - 1] == 'd' {
        proof {
            assert(w@.subrange(n - 3, n as int) =~= md_suffix());
        }
        let stem = seg(w, 0, n - 3);
        proof {
            assert(stem@ =~= w@.take(n - 3));
        }
        lower_chars(&stem)
    } else {
        proof {
            if w@.len() >= 3 && w@.subrange(n - 3, n as int) == md_suffix() {
                assert(w@[n - 3] == md_suffix()[0]);
                assert(w@[n - 2] == md_suffix()[1]);
                assert(w@[n - 1] == md_suffix()[2]);
            }
        }
        lower_chars(w)
    }
}

/// The topic matches no recorded insight filename.
pub open spec fn topic_unwritten(topic: Seq<char>, written: Seq<Seq<char>>) -> bool {
    forall|k: int|
        0 <= k < written.len() ==> !shares_long_token(lower_of(topic), written_base(written[k]))
}

/// Topics that match no recorded filename, in order, case preserved.
pub open spec fn spec_uncaptured(topics: Seq<Seq<char>>, written: Seq<Seq<char>>) -> Seq<Seq<char>>
    decreases topics.len(),
{
    if topics.len() == 0 {
        Seq::empty()
    } else {
        let rest = spec_uncaptured(topics.drop_first(), written);
        if topic_unwritten(topics.first(), written) {
            seq![topics.first()] + rest
        } else {
            rest
        }
    }
}

fn topic_unwritten_x(topic_lower: &Vec<char>, written: &Vec<String>, Ghost(topic): Ghost<
    Seq<char>,
>) -> (r: bool)
    requires
        topic_lower@ == lower_of(topic),
    ensures
        r == topic_unwritten(topic, written@.map_values(|s: String| s@)),
{
    let ghost wv = written@.map_values(|s: String| s@);
    let n = written.len();
    let mut k: usize = 0;
    while k < n
        invariant
            k <= n == written@.len(),
            topic_lower@ == lower_of(topic),
            wv == written@.map_values(|s: String| s@),
            forall|t: int|
                0 <= t < k ==> !shares_long_token(lower_of(topic), written_base(wv[t])),
        decreases n - k,
    {
        let w = to_chars(written[k].as_str());
        let base = written_base_x(&w);
        if shares_long_token_x(topic_lower, &base) {
            proof {
                assert(shares_long_token(lower_of(topic), written_base(wv[k as int])));
            }
            return false;
        }
        k = k + 1;
    }
    true
}

/// Insight topics that were never written to the insights directory:
/// each topic is lowercased and held against every recorded filename with
/// its `.md` suffix stripped and lowercased, by token overlap.
pub fn compute_uncaptured_topics(analysis: &TranscriptAnalysis) -> (r: Vec<String>)
    ensures
        r@.map_values(|s: String| s@) == spec_uncaptured(
            analysis@.insight_topics,
            analysis@.insights_written,
        ),
        r@.len() <= analysis@.insight_topics.len(),
{
    let ghost tv = analysis@.insight_topics;
    let ghost wv = analysis@.insights_written;
    let n = analysis.insight_topics.len();
    let mut r: Vec<String> = Vec::new();
    let mut i: usize = 0;
    proof {
        assert(tv.skip(0) =~= tv);
        assert(Seq::<String>::empty().map_values(|s: String| s@) =~= Seq::<Seq<char>>::empty());
    }
    while i < n
        invariant
            i <= n == analysis.insight_topics@.len(),
            tv == analysis@.insight_topics,
            wv == analysis@.insights_written,
            r@.len() <= i,
            r@.map_values(|s: String| s@) + spec_uncaptured(tv.skip(i as int), wv)
                == spec_uncaptured(tv, wv),
        decreases n - i,
    {
        proof {
            assert(tv.skip(i as int).first() == tv[i as int]);
            assert(tv.skip(i as int).drop_first() =~= tv.skip(i + 1));
        }
        let topic = &analysis.insight_topics[i];
        let tc = to_chars(topic.as_str());
        let tl = lower_chars(&tc);
        let ghost prev = r@.map_values(|s: String| s@);
        if topic_unwritten_x(&tl, &analysis.insights_written, Ghost(tv[i as int])) {
            r.push(String::from_str(topic.as_str()));
            proof {
                assert(r@.map_values(|s: String| s@) =~= prev.push(tv[i as int]));
                assert(prev.push(tv[i as int]) =~= prev + seq![tv[i as int]]);
                assert((prev + seq![tv[i as int]]) + spec_uncaptured(tv.skip(i + 1), wv) =~= prev
                    + (seq![tv[i as int]] + spec_uncaptured(tv.skip(i + 1), wv)));
            }
        }
        i = i + 1;
    }
    proof {
        assert(tv.skip(n as int) =~= Seq::<Seq<char>>::empty());
        assert(r@.map_values(|s: String| s@) + Seq::<Seq<char>>::empty() =~= r@.map_values(
            |s: String| s@,
        ));
    }
    r
}

/// The topic matches no recorded filename, no skipped topic and no
/// explicitly captured topic.
pub open spec fn topic_unaccounted(
    topic: Seq<char>,
    written: Seq<Seq<char>>,
    skipped: Seq<Seq<char>>,
    captured: Seq<Seq<char>>,
) -> bool {
    &&& topic_unwritten(topic, written)
    &&& forall|k: int| 0 <= k < skipped.len() ==> !shares_long_token(lower_of(topic), skipped[k])
    &&& forall|k: int| 0 <= k < captured.len() ==> !shares_long_token(lower_of(topic), captured[k])
}

/// Topics with no matching filename, skip marker or captured marker.
pub open spec fn spec_unaccounted(
    topics: Seq<Seq<char>>,
    written: Seq<Seq<char>>,
    skipped: Seq<Seq<char>>,
    captured: Seq<Seq<char>>,
) -> Seq<Seq<char>>
    decreases topics.len(),
{
    if topics.len() == 0 {
        Seq::empty()
    } else {
        let rest = spec_unaccounted(topics.drop_first(), written, skipped, captured);
        if topic_unaccounted(topics.first(), written, skipped, captured) {
            seq![topics.first()] + rest
        } else {
            rest
        }
    }
}

/// Subtraction floored at zero.
pub open spec fn sat_sub(x: int, y: int) -> int {
    if x > y {
        x - y
    } else {
        0
    }
}

/// How many uncounted, unnamed insight occurrences remain after generously
/// crediting surplus insight writes against them.
pub open spec fn spec_unnamed_uncaptured(a: AnalysisModel) -> int {
    let unc = spec_unaccounted(a.insight_topics, a.insights_written, a.skipped_topics, a.captured_topics);
    let unnamed = sat_sub(a.insight_count, a.insight_topics.len() as int);
    let named_matched = sat_sub(a.insight_topics.len() as int, unc.len() as int);
    let surplus = sat_sub(a.insights_write_count, named_matched);
    sat_sub(unnamed, surplus)
}

/// What the insight gate reports: the named topics that are neither written,
/// skipped nor marked captured, plus the unnamed remainder.
pub struct UncapturedReport {
    pub topics: Vec<String>,
    pub unnamed: usize,
    pub total: usize,
}

fn matches_any(topic_lower: &Vec<char>, entries: &Vec<String>, Ghost(topic): Ghost<Seq<char>>) -> (r:
    bool)
    requires
        topic_lower@ == lower_of(topic),
    ensures
        r == exists|k: int|
            0 <= k < entries@.len() && #[trigger] shares_long_token(lower_of(topic), entries@[k]@),
{
    let n = entries.len();
    let mut k: usize = 0;
    while k < n
        invariant
            k <= n == entries@.len(),
            topic_lower@ == lower_of(topic),
            forall|t: int|
                0 <= t < k ==> !(#[trigger] shares_long_token(lower_of(topic), entries@[t]@)),
        decreases n - k,
    {
        let e = to_chars(entries[k].as_str());
        if shares_long_token_x(topic_lower, &e) {
            proof {
                assert(shares_long_token(lower_of(topic), entries@[k as int]@));
            }
            return true;
        }
        k = k + 1;
    }
    false
}

/// Compute the insight gate's uncaptured summary: which named topics have no
/// matching write, skip marker or captured marker, and how many unnamed
/// occurrences remain uncovered by surplus writes.
pub fn uncaptured_report(analysis: &TranscriptAnalysis) -> (r: UncapturedReport)
    ensures
        r.topics@.map_values(|s: String| s@) == spec_unaccounted(
            analysis@.insight_topics,
            analysis@.insights_written,
            analysis@.skipped_topics,
            analysis@.captured_topics,
        ),
        r.unnamed as int == spec_unnamed_uncaptured(analysis@),
        r.total as int == spec_unaccounted(
            analysis@.insight_topics,
            analysis@.insights_written,
            analysis@.skipped_topics,
            analysis@.captured_topics,
        ).len() + spec_unnamed_uncaptured(analysis@),
{
    let ghost tv = analysis@.insight_topics;
    let ghost wv = analysis@.insights_written;
    let ghost sv = analysis@.skipped_topics;
    let ghost cv = analysis@.captured_topics;
    let n = analysis.insight_topics.len();
    let mut topics: Vec<String> = Vec::new();
    let mut i: usize = 0;
    proof {
        assert(tv.skip(0) =~= tv);
        assert(Seq::<String>::empty().map_values(|s: String| s@) =~= Seq::<Seq<char>>::empty());
    }
    while i < n
        invariant
            i <= n == analysis.insight_topics@.len(),
            tv == analysis@.insight_topics,
            wv == analysis@.insights_written,
            sv == analysis@.skipped_topics,
            cv == analysis@.captured_topics,
            topics@.len() <= i,
            topics@.map_values(|s: String| s@) + spec_unaccounted(tv.skip(i as int), wv, sv, cv)
                == spec_unaccounted(tv, wv, sv, cv),
        decreases n - i,
    {
        proof {
            assert(tv.skip(i as int).first() == tv[i as int]);
            assert(tv.skip(i as int).drop_first() =~= tv.skip(i + 1));
        }
        let topic = &analysis.insight_topics[i];
        let tc = to_chars(topic.as_str());
        let tl = lower_chars(&tc);
        let unwritten = topic_unwritten_x(&tl, &analysis.insights_written, Ghost(tv[i as int]));
        let unskipped = !matches_any(&tl, &analysis.skipped_topics, Ghost(tv[i as int]));
        let uncaptured = !matches_any(&tl, &analysis.captured_topics, Ghost(tv[i as int]));
        proof {
            let tpc = tv[i as int];
            if unskipped {
                assert forall|k: int|
                    0 <= k < sv.len() implies !shares_long_token(lower_of(tpc), sv[k]) by {
                    assert(!shares_long_token(lower_of(tpc), analysis.skipped_topics@[k]@));
                }
            } else {
                let k = choose|k: int|
                    0 <= k < analysis.skipped_topics@.len() && shares_long_token(
                        lower_of(tpc),
                        analysis.skipped_topics@[k]@,
                    );
                assert(shares_long_token(lower_of(tpc), sv[k]));
            }
            if uncaptured {
                assert forall|k: int|
                    0 <= k < cv.len() implies !shares_long_token(lower_of(tpc), cv[k]) by {
                    assert(!shares_long_token(lower_of(tpc), analysis.captured_topics@[k]@));
                }
            } else {
                let k = choose|k: int|
                    0 <= k < analysis.captured_topics@.len() && shares_long_token(
                        lower_of(tpc),
                        analysis.captured_topics@[k]@,
                    );
                assert(shares_long_token(lower_of(tpc), cv[k]));
            }
            assert((unwritten && unskipped && uncaptured) == topic_unaccounted(tpc, wv, sv, cv));
        }
        let ghost prev = topics@.map_values(|s: String| s@);
        if unwritten && unskipped && uncaptured {
            topics.push(String::from_str(topic.as_str()));
            proof {
                assert(topics@.map_values(|s: String| s@) =~= prev.push(tv[i as int]));
                assert(prev.push(tv[i as int]) =~= prev + seq![tv[i as int]]);
                assert((prev + seq![tv[i as int]]) + spec_unaccounted(tv.skip(i + 1), wv, sv, cv)
                    =~= prev + (seq![tv[i as int]] + spec_unaccounted(tv.skip(i + 1), wv, sv, cv)));
            }
        }
        i = i + 1;
    }
    proof {
        assert(tv.skip(n as int) =~= Seq::<Seq<char>>::empty());
        assert(topics@.map_values(|s: String| s@) + Seq::<Seq<char>>::empty() =~= topics@
            .map_values(|s: String| s@));
    }
    let unc_len = topics.len();
    let unnamed_insights = if analysis.insight_count > n {
        analysis.insight_count - n
    } else {
        0
    };
    let named_matched = if n > unc_len {
        n - unc_len
    } else {
        0
    };
    let surplus = if analysis.insights_write_count > named_matched {
        analysis.insights_write_count - named_matched
    } else {
        0
    };
    let unnamed = if unnamed_insights > surplus {
        unnamed_insights - surplus
    } else {
        0
    };
    let total = unc_len + unnamed;
    UncapturedReport { topics, unnamed, total }
}

/// Whether a candidate string is purely decorative border text.
pub fn is_decorative(s: &str) -> (r: bool)
    ensures
        r == decorative(s@),
{
    let v = to_chars(s);
    decorative_chars(&v)
}

/// The next-line fallback topic for a marker whose same-line candidate was
/// empty, decorative or too short.
pub fn extract_next_line_topic(remaining: &str) -> (r: Option<String>)
    ensures
        match r {
            Some(t) => next_line_topic_spec(remaining@, 0) == Some(t@),
            None => next_line_topic_spec(remaining@, 0) is None,
        },
{
    let v = to_chars(remaining);
    match next_line_topic_from(&v, 0) {
        Some(t) => Some(string_from_chars(&t)),
        None => None,
    }
}

// ---------- executable mirrors of the per-record readers ----------

fn rec_is_user_x(j: &Json) -> (r: bool)
    ensures
        r == rec_is_user(*j),
{
    let by_type = match j.get_str("type") {
        Some(v) => eq_str(v, "human") || eq_str(v, "user"),
        None => false,
    };
    if by_type {
        return true;
    }
    match j.get_str("role") {
        Some(v) => eq_str(v, "user"),
        None => false,
    }
}

fn rec_is_assistant_x(j: &Json) -> (r: bool)
    ensures
        r == rec_is_assistant(*j),
{
    let by_type = match j.get_str("type") {
        Some(v) => eq_str(v, "assistant"),
        None => false,
    };
    if by_type {
        return true;
    }
    match j.get_str("role") {
        Some(v) => eq_str(v, "assistant"),
        None => false,
    }
}

fn content_of<'a>(j: &'a Json) -> (r: Option<&'a Vec<Json>>)
    ensures
        match r {
            Some(v) => rec_content(*j) == Some(v@),
            None => rec_content(*j) is None,
        },
{
    match j.get("message") {
        Some(m) => match m.get_arr("content") {
            Some(a) => Some(a),
            None => j.get_arr("content"),
        },
        None => j.get_arr("content"),
    }
}

fn item_text_x<'a>(it: &'a Json) -> (r: Option<&'a Vec<char>>)
    ensures
        match r {
            Some(v) => item_text(*it) == Some(v@),
            None => item_text(*it) is None,
        },
{
    match it.get_str("text") {
        Some(t) => Some(t),
        None => it.get_str("content"),
    }
}

fn is_tool_item_x(it: &Json) -> (r: bool)
    ensures
        r == is_tool_item(*it),
{
    let tagged = match it.get_str("type") {
        Some(v) => eq_str(v, "tool_use") || eq_str(v, "tool_call") || eq_str(v, "function_call"),
        None => false,
    };
    if tagged {
        return true;
    }
    it.has("name") && (it.has("input") || it.has("tool_input") || it.has("arguments"))
}

fn tool_name_x<'a>(it: &'a Json) -> (r: Option<&'a Vec<char>>)
    ensures
        match r {
            Some(v) => tool_name_of(*it) == Some(v@),
            None => tool_name_of(*it) is None,
        },
{
    if let Some(n) = it.get_str("name") {
        return Some(n);
    }
    if let Some(n) = it.get_str("tool_name") {
        return Some(n);
    }
    it.get_str("tool")
}

fn own_path_x<'a>(o: &'a Json) -> (r: Option<&'a Vec<char>>)
    ensures
        match r {
            Some(v) => own_file_path(*o) == Some(v@),
            None => own_file_path(*o) is None,
        },
{
    if let Some(p) = o.get_str("file_path") {
        return Some(p);
    }
    if let Some(p) = o.get_str("path") {
        return Some(p);
    }
    if let Some(p) = o.get_str("target_file") {
        return Some(p);
    }
    o.get_str("target_path")
}

fn extract_path_x<'a>(it: &'a Json) -> (r: Option<&'a Vec<char>>)
    ensures
        match r {
            Some(v) => extract_path(*it) == Some(v@),
            None => extract_path(*it) is None,
        },
{
    if let Some(p) = own_path_x(it) {
        return Some(p);
    }
    if let Some(c) = it.get("input") {
        if let Some(p) = own_path_x(c) {
            return Some(p);
        }
    }
    if let Some(c) = it.get("tool_input") {
        if let Some(p) = own_path_x(c) {
            return Some(p);
        }
    }
    if let Some(c) = it.get("arguments") {
        if let Some(p) = own_path_x(c) {
            return Some(p);
        }
    }
    if let Some(c) = it.get("params") {
        if let Some(p) = own_path_x(c) {
            return Some(p);
        }
    }
    None
}

fn bash_command_x<'a>(it: &'a Json) -> (r: Option<&'a Vec<char>>)
    ensures
        match r {
            Some(v) => bash_command_of(*it) == Some(v@),
            None => bash_command_of(*it) is None,
        },
{
    match it.get("input") {
        Some(o) => o.get_str("command"),
        None => None,
    }
}

fn skill_x<'a>(it: &'a Json) -> (r: Option<&'a Vec<char>>)
    ensures
        match r {
            Some(v) => skill_of(*it) == Some(v@),
            None => skill_of(*it) is None,
        },
{
    if let Some(c) = it.get("input") {
        if let Some(s) = c.get_str("skill") {
            return Some(s);
        }
    }
    if let Some(c) = it.get("tool_input") {
        if let Some(s) = c.get_str("skill") {
            return Some(s);
        }
    }
    if let Some(c) = it.get("arguments") {
        if let Some(s) = c.get_str("skill") {
            return Some(s);
        }
    }
    None
}

fn is_write_tool_x(name: &Vec<char>, config: &Config) -> (r: bool)
    ensures
        r == is_write_tool(name@, scan_config_of(config)),
{
    let n = config.write_tool_names.len();
    let mut k: usize = 0;
    while k < n
        invariant
            k <= n == config.write_tool_names@.len(),
            forall|t: int|
                0 <= t < k ==> !ascii_ieq(name@, scan_config_of(config).write_tools[t]),
        decreases n - k,
    {
        if eq_ignore_ascii_case_chars(name, config.write_tool_names[k].as_str()) {
            proof {
                assert(ascii_ieq(name@, scan_config_of(config).write_tools[k as int]));
            }
            return true;
        }
        k = k + 1;
    }
    false
}

fn item_has_phrase_x(it: &Json, phrase: &Vec<char>) -> (r: bool)
    ensures
        r == item_has_phrase(*it, phrase@),
{
    match it.get_str("text") {
        Some(t) => contains_sub(t, phrase),
        None => false,
    }
}

fn arr_has_phrase_x(items: &Vec<Json>, phrase: &Vec<char>) -> (r: bool)
    ensures
        r == arr_has_phrase(items@, phrase@),
{
    let n = items.len();
    let mut k: usize = 0;
    while k < n
        invariant
            k <= n == items@.len(),
            forall|t: int| 0 <= t < k ==> !item_has_phrase(items@[t], phrase@),
        decreases n - k,
    {
        if item_has_phrase_x(&items[k], phrase) {
            return true;
        }
        k = k + 1;
    }
    false
}

fn compaction_x(j: &Json, phrase: &Vec<char>) -> (r: bool)
    ensures
        r == compaction_boundary(*j, phrase@),
{
    let in_message = match j.get("message") {
        Some(m) => match m.get_arr("content") {
            Some(a) => arr_has_phrase_x(a, phrase),
            None => false,
        },
        None => false,
    };
    if in_message {
        return true;
    }
    match j.get_arr("content") {
        Some(a) => arr_has_phrase_x(a, phrase),
        None => false,
    }
}

/// Find the target of an embedded `safe-write` invocation in a shell
/// command, mirroring [`sw_first_from`].
fn extract_safe_write_path(cmd: &Vec<char>) -> (r: Option<Vec<char>>)
    ensures
        match r {
            Some(p) => sw_first_from(cmd@, 0) == Some(p@),
            None => sw_first_from(cmd@, 0) is None,
        },
{
    let sw = to_chars("safe-write");
    let vw = to_chars("write");
    let ve = to_chars("edit");
    let vi = to_chars("insert");
    let n = cmd.len();
    let mut i: usize = 0;
    while i < n
        invariant
            i <= n == cmd@.len(),
            sw@ == "safe-write"@,
            vw@ == "write"@,
            ve@ == "edit"@,
            vi@ == "insert"@,
            sw_first_from(cmd@, 0) == sw_first_from(cmd@, i as int),
        decreases n - i,
    {
        if matches_at(cmd, i, &sw) {
            let j = i + sw.len();
            let k = skip_white(cmd, j);
            if k > j {
                let vlo: Option<usize> = if matches_at(cmd, k, &vw) {
                    Some(vw.len())
                } else if matches_at(cmd, k, &ve) {
                    Some(ve.len())
                } else if matches_at(cmd, k, &vi) {
                    Some(vi.len())
                } else {
                    None
                };
                if let Some(vl) = vlo {
                    let v = k + vl;
                    let m = skip_white(cmd, v);
                    if m > v {
                        let q = if m < n && cmd[m] == '"' {
                            m + 1
                        } else {
                            m
                        };
                        let e1 = find_char(cmd, q, '"');
                        let e2 = find_char(cmd, q, '\n');
                        let e = if e1 < e2 {
                            e1
                        } else {
                            e2
                        };
                        if e > q {
                            let p = seg(cmd, q, e);
                            proof {
                                assert(sw_path_at(cmd@, i as int) == Some(p@));
                            }
                            return Some(p);
                        }
                    }
                }
            }
        }
        proof {
            assert(sw_path_at(cmd@, i as int) is None);
        }
        i = i + 1;
    }
    None
}

proof fn lemma_seg_from_end(t: Seq<char>, i: int)
    requires
        0 <= i <= t.len(),
        forall|k: int| i <= k < t.len() ==> t[k] != '/',
        i > 0 ==> t[i - 1] == '/',
    ensures
        seg_from_end(t) == t.subrange(i, t.len() as int),
    decreases t.len(),
{
    if t.len() == 0 {
        assert(t.subrange(0, 0) =~= t);
    } else if t.last() == '/' {
        assert(i == t.len());
        assert(Seq::<char>::empty() =~= t.subrange(i, t.len() as int));
    } else {
        assert(i < t.len());
        lemma_seg_from_end(t.drop_last(), i);
        assert(t.drop_last().subrange(i, t.len() - 1) =~= t.subrange(i, t.len() - 1));
        assert(t.subrange(i, t.len() - 1).push(t.last()) =~= t.subrange(i, t.len() as int));
    }
}

/// The filename at the end of a path, if the path has one.
fn final_component_x(p: &Vec<char>) -> (r: Option<Vec<char>>)
    ensures
        match r {
            Some(f) => final_component(p@) == Some(f@),
            None => final_component(p@) is None,
        },
{
    let t = trim_end_run(p, '/');
    if t.len() == 0 {
        return None;
    }
    let mut i = t.len();
    while i > 0 && t[i - 1] != '/'
        invariant
            i <= t@.len(),
            forall|k: int| i <= k < t@.len() ==> t@[k] != '/',
        decreases i,
    {
        i = i - 1;
    }
    proof {
        lemma_seg_from_end(t@, i as int);
    }
    Some(seg(&t, i, t.len()))
}

fn apply_write_x(
    analysis: &mut TranscriptAnalysis,
    path: &Vec<char>,
    insights_frag: &Vec<char>,
    memory_frags: &Vec<Vec<char>>,
    Ghost(cfg): Ghost<ScanConfig>,
)
    requires
        insights_frag@ == cfg.insights_path,
        memory_frags@.len() == cfg.memory_paths.len(),
        forall|k: int| 0 <= k < memory_frags@.len() ==> memory_frags@[k]@ == cfg.memory_paths[k],
    ensures
        final(analysis)@ == apply_write(old(analysis)@, path@, cfg),
{
    let ghost a0 = analysis@;
    if contains_sub(path, insights_frag) {
        if analysis.insights_write_count < usize::MAX {
            match final_component_x(path) {
                Some(f) => {
                    analysis.insights_write_count = analysis.insights_write_count + 1;
                    let ghost prev = analysis.insights_written@.map_values(|s: String| s@);
                    let fs = string_from_chars(&f);
                    analysis.insights_written.push(fs);
                    proof {
                        assert(analysis.insights_written@.map_values(|s: String| s@) =~= prev.push(
                            f@,
                        ));
                    }
                },
                None => {},
            }
        }
    }
    let n = memory_frags.len();
    let mut k: usize = 0;
    let mut found = false;
    while k < n
        invariant
            k <= n == memory_frags@.len() == cfg.memory_paths.len(),
            forall|t: int| 0 <= t < n ==> memory_frags@[t]@ == cfg.memory_paths[t],
            found ==> exists|t: int| 0 <= t < cfg.memory_paths.len() && has_sub(
                path@,
                cfg.memory_paths[t],
            ),
            !found ==> forall|t: int| 0 <= t < k ==> !has_sub(path@, cfg.memory_paths[t]),
        decreases n - k,
    {
        if contains_sub(path, &memory_frags[k]) {
            proof {
                assert(has_sub(path@, cfg.memory_paths[k as int]));
            }
            found = true;
        }
        k = k + 1;
    }
    if found {
        analysis.has_memory_write = true;
    }
}

/// Fold one write event into the analysis: bump the insight-write counters
/// when the path belongs to the insights directory, and set the sticky
/// memory-write flag when it belongs to any memory directory.
pub fn check_memory_paths(analysis: &mut TranscriptAnalysis, file_path: &str, config: &Config)
    ensures
        final(analysis)@ == apply_write(old(analysis)@, file_path@, scan_config_of(config)),
{
    let path = to_chars(file_path);
    let frag = to_chars(config.insights_path());
    let mut frags: Vec<Vec<char>> = Vec::new();
    let n = config.memory_paths.len();
    let mut k: usize = 0;
    while k < n
        invariant
            k <= n == config.memory_paths@.len(),
            frags@.len() == k,
            forall|t: int|
                0 <= t < k ==> frags@[t]@ == scan_config_of(config).memory_paths[t],
        decreases n - k,
    {
        frags.push(to_chars(config.memory_paths[k].as_str()));
        k = k + 1;
    }
    apply_write_x(analysis, &path, &frag, &frags, Ghost(scan_config_of(config)));
}

fn scan_text_x(
    analysis: &mut TranscriptAnalysis,
    text: &Vec<char>,
    im: &Vec<char>,
    sm: &Vec<char>,
    cm: &Vec<char>,
    Ghost(cfg): Ghost<ScanConfig>,
)
    requires
        im@ == cfg.insight_marker,
        sm@ == cfg.skip_marker,
        cm@ == cfg.captured_marker,
    ensures
        final(analysis)@ == scan_text(old(analysis)@, text@, cfg),
{
    let ghost a0 = analysis@;
    let hits = scan_marker(text, im);
    let ghost occs = scan_occs(text@, 0, cfg.insight_marker);
    let n = hits.len();
    let mut k: usize = 0;
    proof {
        assert(occs.skip(0) =~= occs);
    }
    while k < n
        invariant
            k <= n == hits@.len(),
            n == occs.len(),
            forall|t: int| 0 <= t < n ==> (#[trigger] hits@[t]).occ() == occs[t],
            forall|t: int| 0 <= t < n ==> (#[trigger] hits@[t]).after <= text@.len(),
            apply_insights(analysis@, text@, occs.skip(k as int)) == apply_insights(
                a0,
                text@,
                occs,
            ),
        decreases n - k,
    {
        proof {
            assert(occs.skip(k as int).first() == occs[k as int]);
            assert(occs.skip(k as int).drop_first() =~= occs.skip(k + 1));
        }
        let ghost acur = analysis@;
        if analysis.insight_count < usize::MAX {
            analysis.insight_count = analysis.insight_count + 1;
            match hit_topic(text, &hits[k]) {
                Some(t) => {
                    let ghost prev = analysis.insight_topics@.map_values(|s: String| s@);
                    let ts = string_from_chars(&t);
                    analysis.insight_topics.push(ts);
                    proof {
                        assert(analysis.insight_topics@.map_values(|s: String| s@) =~= prev.push(
                            t@,
                        ));
                    }
                },
                None => {},
            }
        }
        proof {
            assert(apply_insights(acur, text@, occs.skip(k as int)) == apply_insights(
                analysis@,
                text@,
                occs.skip(k + 1),
            ));
        }
        k = k + 1;
    }
    proof {
        assert(occs.skip(n as int) =~= Seq::<MarkerOcc>::empty());
    }
    let ghost a1 = analysis@;
    let skip_hits = scan_marker(text, sm);
    let ghost skip_occs = scan_occs(text@, 0, cfg.skip_marker);
    let sn = skip_hits.len();
    let mut k2: usize = 0;
    proof {
        assert(skip_occs.skip(0) =~= skip_occs);
    }
    while k2 < sn
        invariant
            k2 <= sn == skip_hits@.len(),
            sn == skip_occs.len(),
            forall|t: int| 0 <= t < sn ==> (#[trigger] skip_hits@[t]).occ() == skip_occs[t],
            apply_skips(analysis@, skip_occs.skip(k2 as int)) == apply_skips(a1, skip_occs),
        decreases sn - k2,
    {
        proof {
            assert(skip_occs.skip(k2 as int).first() == skip_occs[k2 as int]);
            assert(skip_occs.skip(k2 as int).drop_first() =~= skip_occs.skip(k2 + 1));
        }
        let ghost acur = analysis@;
        match hit_skip_topic(&skip_hits[k2]) {
            Some(t) => {
                let ghost prev = analysis.skipped_topics@.map_values(|s: String| s@);
                let ts = string_from_chars(&t);
                analysis.skipped_topics.push(ts);
                proof {
                    assert(analysis.skipped_topics@.map_values(|s: String| s@) =~= prev.push(t@));
                }
            },
            None => {},
        }
        proof {
            assert(apply_skips(acur, skip_occs.skip(k2 as int)) == apply_skips(
                analysis@,
                skip_occs.skip(k2 + 1),
            ));
        }
        k2 = k2 + 1;
    }
    proof {
        assert(skip_occs.skip(sn as int) =~= Seq::<MarkerOcc>::empty());
    }
    let ghost a2 = analysis@;
    let cap_hits = scan_marker(text, cm);
    let ghost cap_occs = scan_occs(text@, 0, cfg.captured_marker);
    let cn = cap_hits.len();
    let mut k3: usize = 0;
    proof {
        assert(cap_occs.skip(0) =~= cap_occs);
    }
    while k3 < cn
        invariant
            k3 <= cn == cap_hits@.len(),
            cn == cap_occs.len(),
            forall|t: int| 0 <= t < cn ==> (#[trigger] cap_hits@[t]).occ() == cap_occs[t],
            apply_captured(analysis@, cap_occs.skip(k3 as int)) == apply_captured(a2, cap_occs),
        decreases cn - k3,
    {
        proof {
            assert(cap_occs.skip(k3 as int).first() == cap_occs[k3 as int]);
            assert(cap_occs.skip(k3 as int).drop_first() =~= cap_occs.skip(k3 + 1));
        }
        let ghost acur = analysis@;
        match hit_captured_topic(&cap_hits[k3]) {
            Some(t) => {
                let ghost prev = analysis.captured_topics@.map_values(|s: String| s@);
                let ts = string_from_chars(&t);
                analysis.captured_topics.push(ts);
                proof {
                    assert(analysis.captured_topics@.map_values(|s: String| s@) =~= prev.push(t@));
                }
            },
            None => {},
        }
        proof {
            assert(apply_captured(acur, cap_occs.skip(k3 as int)) == apply_captured(
                analysis@,
                cap_occs.skip(k3 + 1),
            ));
        }
        k3 = k3 + 1;
    }
    proof {
        assert(cap_occs.skip(cn as int) =~= Seq::<MarkerOcc>::empty());
    }
}

fn reset_insights_x(analysis: &mut TranscriptAnalysis)
    ensures
        final(analysis)@ == reset_insights(old(analysis)@),
{
    analysis.insight_count = 0;
    analysis.insight_topics = Vec::new();
    analysis.insights_write_count = 0;
    analysis.insights_written = Vec::new();
    analysis.skipped_topics = Vec::new();
    analysis.captured_topics = Vec::new();
    proof {
        assert(Seq::<String>::empty().map_values(|s: String| s@) =~= Seq::<Seq<char>>::empty());
    }
}

pub open spec fn opt_ts(o: Option<i64>) -> Option<int> {
    match o {
        Some(v) => Some(v as int),
        None => None,
    }
}

pub open spec fn state_of(a: AnalysisModel, lo: Option<i64>, hi: Option<i64>) -> ScanState {
    ScanState { a, lo_ts: opt_ts(lo), hi_ts: opt_ts(hi) }
}

pub open spec fn opt_in_range(o: Option<i64>) -> bool {
    match o {
        Some(v) => ts_in_range(v as int),
        None => true,
    }
}

fn process_record(
    analysis: &mut TranscriptAnalysis,
    lo: &mut Option<i64>,
    hi: &mut Option<i64>,
    entry: &Json,
    im: &Vec<char>,
    sm: &Vec<char>,
    cm: &Vec<char>,
    insights_frag: &Vec<char>,
    memory_frags: &Vec<Vec<char>>,
    phrase: &Vec<char>,
    skill: &Vec<char>,
    config: &Config,
    Ghost(cfg): Ghost<ScanConfig>,
)
    requires
        cfg == scan_config_of(config),
        im@ == cfg.insight_marker,
        sm@ == cfg.skip_marker,
        cm@ == cfg.captured_marker,
        insights_frag@ == cfg.insights_path,
        memory_frags@.len() == cfg.memory_paths.len(),
        forall|k: int| 0 <= k < memory_frags@.len() ==> memory_frags@[k]@ == cfg.memory_paths[k],
        phrase@ == cfg.compaction_phrase,
        skill@ == cfg.reflection_skill,
        opt_in_range(*old(lo)),
        opt_in_range(*old(hi)),
    ensures
        state_of(final(analysis)@, *final(lo), *final(hi)) == record_step(
            state_of(old(analysis)@, *old(lo), *old(hi)),
            *entry,
            cfg,
        ),
        opt_in_range(*final(lo)),
        opt_in_range(*final(hi)),
{
    let ghost st0 = state_of(analysis@, *lo, *hi);
    if let Some(ts) = entry.get_str("timestamp") {
        if let Some(v) = parse_rfc3339_secs(ts) {
            *lo = match *lo {
                Some(l) => if v < l {
                    Some(v)
                } else {
                    Some(l)
                },
                None => Some(v),
            };
            *hi = match *hi {
                Some(h) => if v > h {
                    Some(v)
                } else {
                    Some(h)
                },
                None => Some(v),
            };
        }
    }
    proof {
        assert(state_of(analysis@, *lo, *hi) == ts_step(st0, *entry));
    }
    let ghost st1 = ts_step(st0, *entry);
    if rec_is_user_x(entry) {
        analysis.user_messages = sat_inc(analysis.user_messages);
        if compaction_x(entry, phrase) {
            reset_insights_x(analysis);
        }
        proof {
            assert(state_of(analysis@, *lo, *hi) == record_step(st0, *entry, cfg));
        }
    } else if rec_is_assistant_x(entry) {
        if let Some(items) = content_of(entry) {
            let ghost items_v = items@;
            let n = items.len();
            let mut has_tool = false;
            let mut i: usize = 0;
            proof {
                assert(items_v.skip(0) =~= items_v);
            }
            while i < n
                invariant
                    i <= n == items_v.len(),
                    items@ == items_v,
                    cfg == scan_config_of(config),
                    im@ == cfg.insight_marker,
                    sm@ == cfg.skip_marker,
                    cm@ == cfg.captured_marker,
                    insights_frag@ == cfg.insights_path,
                    memory_frags@.len() == cfg.memory_paths.len(),
                    forall|k: int|
                        0 <= k < memory_frags@.len() ==> memory_frags@[k]@ == cfg.memory_paths[k],
                    skill@ == cfg.reflection_skill,
                    items_fold(state_of(analysis@, *lo, *hi), items_v.skip(i as int), cfg)
                        == items_fold(st1, items_v, cfg),
                    has_tool == exists|t: int| 0 <= t < i && is_tool_item(items_v[t]),
                decreases n - i,
            {
                proof {
                    assert(items_v.skip(i as int).first() == items_v[i as int]);
                    assert(items_v.skip(i as int).drop_first() =~= items_v.skip(i + 1));
                }
                let ghost stc = state_of(analysis@, *lo, *hi);
                let item = &items[i];
                if let Some(t) = item_text_x(item) {
                    scan_text_x(analysis, t, im, sm, cm, Ghost(cfg));
                }
                if is_tool_item_x(item) {
                    has_tool = true;
                    if let Some(name) = tool_name_x(item) {
                        if eq_str(name, "Skill") {
                            let mut is_reflect = false;
                            if let Some(sk) = skill_x(item) {
                                if chars_eq(sk, skill) {
                                    is_reflect = true;
                                }
                            }
                            if is_reflect {
                                reset_insights_x(analysis);
                            }
                        }
                        let path_opt: Option<Vec<char>> = if is_write_tool_x(name, config) {
                            match extract_path_x(item) {
                                Some(p) => {
                                    let q = seg(p, 0, p.len());
                                    proof {
                                        assert(q@ =~= p@);
                                    }
                                    Some(q)
                                },
                                None => None,
                            }
                        } else if eq_str(name, "Bash") {
                            match bash_command_x(item) {
                                Some(cmd) => extract_safe_write_path(cmd),
                                None => None,
                            }
                        } else {
                            None
                        };
                        if let Some(p) = path_opt {
                            apply_write_x(analysis, &p, insights_frag, memory_frags, Ghost(cfg));
                        }
                    }
                }
                proof {
                    assert(state_of(analysis@, *lo, *hi) == item_step(stc, items_v[i as int], cfg));
                }
                i = i + 1;
            }
            proof {
                assert(items_v.skip(n as int) =~= Seq::<Json>::empty());
            }
            if has_tool {
                analysis.tool_using_turns = sat_inc(analysis.tool_using_turns);
            }
            proof {
                assert(state_of(analysis@, *lo, *hi) == record_step(st0, *entry, cfg));
            }
        }
    }
}

/// Analyze a transcript: one forward pass over its lines, folding every
/// record into the aggregate exactly as [`spec_analyze`] describes.
pub fn analyze_transcript(transcript: &str, config: &Config) -> (r: TranscriptAnalysis)
    ensures
        r@ == spec_analyze(transcript@, scan_config_of(config)),
        r@.insight_topics.len() <= r@.insight_count,
        r@.insights_written.len() == r@.insights_write_count,
{
    let ghost cfg = scan_config_of(config);
    let chars = to_chars(transcript);
    let lines = split_lines(&chars);
    let im = to_chars(config.insight_marker.as_str());
    let sm = to_chars(config.insight_skip_marker.as_str());
    let cm = to_chars(config.insight_captured_marker.as_str());
    let insights_frag = to_chars(config.insights_path());
    let phrase = to_chars(config.compaction_phrase.as_str());
    let skill = to_chars(config.reflection_skill.as_str());
    let mut memory_frags: Vec<Vec<char>> = Vec::new();
    let nf = config.memory_paths.len();
    let mut kf: usize = 0;
    while kf < nf
        invariant
            kf <= nf == config.memory_paths@.len(),
            memory_frags@.len() == kf,
            forall|t: int|
                0 <= t < kf ==> memory_frags@[t]@ == scan_config_of(config).memory_paths[t],
        decreases nf - kf,
    {
        memory_frags.push(to_chars(config.memory_paths[kf].as_str()));
        kf = kf + 1;
    }
    let mut analysis = TranscriptAnalysis {
        user_messages: 0,
        tool_using_turns: 0,
        has_memory_write: false,
        insight_count: 0,
        insights_write_count: 0,
        insight_topics: Vec::new(),
        insights_written: Vec::new(),
        session_duration_minutes: 0,
        skipped_topics: Vec::new(),
        captured_topics: Vec::new(),
    };
    let mut lo: Option<i64> = None;
    let mut hi: Option<i64> = None;
    proof {
        assert(Seq::<String>::empty().map_values(|s: String| s@) =~= Seq::<Seq<char>>::empty());
        assert(state_of(analysis@, lo, hi) == init_state());
    }
    let ghost lv = lines_spec(transcript@);
    let n = lines.len();
    let mut idx: usize = 0;
    proof {
        assert(lv.skip(0) =~= lv);
    }
    while idx < n
        invariant
            idx <= n == lines@.len(),
            n == lv.len(),
            forall|t: int| 0 <= t < n ==> lines@[t]@ == lv[t],
            cfg == scan_config_of(config),
            im@ == cfg.insight_marker,
            sm@ == cfg.skip_marker,
            cm@ == cfg.captured_marker,
            insights_frag@ == cfg.insights_path,
            memory_frags@.len() == cfg.memory_paths.len(),
            forall|k: int|
                0 <= k < memory_frags@.len() ==> memory_frags@[k]@ == cfg.memory_paths[k],
            phrase@ == cfg.compaction_phrase,
            skill@ == cfg.reflection_skill,
            lines_fold(state_of(analysis@, lo, hi), lv.skip(idx as int), cfg) == lines_fold(
                init_state(),
                lv,
                cfg,
            ),
            opt_in_range(lo),
            opt_in_range(hi),
        decreases n - idx,
    {
        proof {
            assert(lv.skip(idx as int).first() == lv[idx as int]);
            assert(lv.skip(idx as int).drop_first() =~= lv.skip(idx + 1));
        }
        let ghost stc = state_of(analysis@, lo, hi);
        match parse_json_line(&lines[idx]) {
            Some(j) => {
                process_record(
                    &mut analysis,
                    &mut lo,
                    &mut hi,
                    &j,
                    &im,
                    &sm,
                    &cm,
                    &insights_frag,
                    &memory_frags,
                    &phrase,
                    &skill,
                    config,
                    Ghost(cfg),
                );
            },
            None => {},
        }
        proof {
            assert(state_of(analysis@, lo, hi) == line_step(stc, lv[idx as int], cfg));
        }
        idx = idx + 1;
    }
    proof {
        assert(lv.skip(n as int) =~= Seq::<Seq<char>>::empty());
    }
    let ghost st_end = lines_fold(init_state(), lv, cfg);
    let mut mins: u64 = 0;
    match lo {
        Some(l) => match hi {
            Some(h) => {
                if h > l {
                    let diff = (h - l) as u64;
                    mins = diff / 60;
                }
            },
            None => {},
        },
        None => {},
    }
    analysis.session_duration_minutes = mins;
    proof {
        assert(analysis@.session_duration_minutes == duration_of(st_end.lo_ts, st_end.hi_ts));
        assert(analysis@ == spec_analyze(transcript@, cfg));
        lemma_analysis_counts(transcript@, cfg);
    }
    analysis
}

} // verus!
