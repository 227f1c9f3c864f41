//! Session-transcript analysis for reflection hooks.
//!
//! The heart of the crate is [`transcript::analyze_transcript`]: a single-pass,
//! schema-tolerant scanner over a line-delimited JSON log of a coding session.
//! It counts user turns and tool-using turns, finds marker annotations in
//! assistant text, detects file-write side effects (direct or embedded in
//! shell commands), and reports how long the session ran.  Supporting modules
//! hold the configuration model, prompt-file trimming, and the text parsers
//! behind the daily-digest surfacing binary.

pub mod config;
pub mod date;
pub mod json;
pub mod markers;
pub mod prompt;
pub mod surface;
pub mod text;
pub mod transcript;

use vstd::prelude::*;
use vstd::string::{StrSliceExecFns, StringExecFns};
use crate::config::Config;
use crate::text::{to_chars, matches_at, chars_eq, match_at};

verus! {

/// The payload a hook event hands the tools, already decoded.
pub struct HookInput {
    /// True when a stop hook already blocked in this cycle.
    pub stop_hook_active: bool,
    /// Current working directory.
    pub cwd: String,
    /// Path to the session transcript, for stop hooks.
    pub transcript_path: String,
    /// Present in pre-compaction hooks: how compaction was triggered.
    pub trigger: Option<String>,
}

impl Default for HookInput {
    fn default() -> (r: HookInput)
        ensures
            !r.stop_hook_active,
            r.cwd@ == Seq::<char>::empty(),
            r.transcript_path@ == Seq::<char>::empty(),
            r.trigger is None,
    {
        HookInput {
            stop_hook_active: false,
            cwd: String::new(),
            transcript_path: String::new(),
            trigger: None,
        }
    }
}

/// The working directory lies at or under `<home>/<suffix>`.  The trailing
/// separator in the comparison keeps a sibling whose name merely extends the
/// suffix from matching.
pub open spec fn spec_in_data_dir(cwd: Seq<char>, home: Seq<char>, suffix: Seq<char>) -> bool {
    let prefix = home + "/"@ + suffix;
    home.len() > 0 && (cwd == prefix || match_at(cwd, 0, prefix + "/"@))
}

/// Decide whether `cwd` is inside the data directory under `home`; an empty
/// home never matches.  The caller reads the home directory from the
/// environment and hands it in.
pub fn in_data_dir(cwd: &str, home: &str, config: &Config) -> (r: bool)
    ensures
        r == spec_in_data_dir(cwd@, home@, config.data_dir_suffix@),
{
    if home.unicode_len() == 0 {
        return false;
    }
    let cwd_v = to_chars(cwd);
    let mut prefix = to_chars(home);
    let mut rest = to_chars("/");
    prefix.append(&mut rest);
    let mut suffix = to_chars(config.data_dir_suffix.as_str());
    prefix.append(&mut suffix);
    if chars_eq(&cwd_v, &prefix) {
        return true;
    }
    let mut slash = to_chars("/");
    prefix.append(&mut slash);
    matches_at(&cwd_v, 0, &prefix)
}

} // verus!
