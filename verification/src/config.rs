//! Configuration for transcript analysis, enforcement and surfacing.
//!
//! The values live here as plain data with compiled-in defaults; reading and
//! merging the YAML files that override them is I/O and happens outside the
//! library, which only ever sees a finished `Config` value.

use vstd::prelude::*;
use vstd::string::{StrSliceExecFns, StringExecFns};

verus! {

/// All configurable values.
pub struct Config {
    pub insight_marker: String,
    pub insight_skip_marker: String,
    pub insight_captured_marker: String,
    /// Path fragments for substring matching against write targets.
    /// The first element is the insights path, used for insight counting.
    pub memory_paths: Vec<String>,
    /// Tool names treated as file-writing operations in transcripts.
    pub write_tool_names: Vec<String>,
    /// The user-turn phrase that marks a session continued after compaction.
    pub compaction_phrase: String,
    /// The skill identifier whose invocation marks a reflection pass.
    pub reflection_skill: String,
    pub tool_turn_threshold: usize,
    pub user_msg_threshold: usize,
    pub duration_threshold_minutes: u32,
    pub user_msg_floor: usize,
    pub reflection: String,
    pub insight_check: String,
    pub data_dir_suffix: String,
    pub insight_blocking: Option<bool>,
    pub reflect_blocking: Option<bool>,
    pub precompact_agent: Option<bool>,
    pub fallback_reason: String,
    pub precompact_prefix: String,
    pub uncaptured_insight_reason: String,
    pub insight_advisory_prompt: String,
    pub memory: MemoryConfig,
    pub journal: JournalConfig,
    pub commands: CommandsConfig,
    pub backlog: String,
    pub surface: SurfaceConfig,
    pub user: UserConfig,
}

/// User content root.
pub struct UserConfig {
    pub root: String,
}

/// Memory directory locations, relative to the user root.
pub struct MemoryConfig {
    pub imperatives: String,
    pub insights: String,
    pub ideas: String,
}

/// Journal file locations.
pub struct JournalConfig {
    pub daily: String,
}

/// Helper command locations.
pub struct CommandsConfig {
    pub safe_read: String,
}

/// Daily-digest surfacing knobs.
pub struct SurfaceConfig {
    pub archive_dir: String,
    pub archive_prefix: String,
    pub reminders_list: String,
    pub ideas_cutoff_days: u32,
    pub due_soon_days: u32,
    pub max_items: usize,
}

impl Default for UserConfig {
    fn default() -> (r: UserConfig)
        ensures
            r.root@ == Seq::<char>::empty(),
    {
        UserConfig { root: String::new() }
    }
}

impl Default for MemoryConfig {
    fn default() -> (r: MemoryConfig)
        ensures
            r.imperatives@ == "Orchestration/Memory/Imperatives"@,
            r.insights@ == "Orchestration/Memory/Insights"@,
            r.ideas@ == "Orchestration/Memory/Ideas"@,
    {
        MemoryConfig {
            imperatives: String::from_str("Orchestration/Memory/Imperatives"),
            insights: String::from_str("Orchestration/Memory/Insights"),
            ideas: String::from_str("Orchestration/Memory/Ideas"),
        }
    }
}

impl Default for JournalConfig {
    fn default() -> (r: JournalConfig)
        ensures
            r.daily@ == "Resources/Journals/Daily/YYYY/MM/YYYY-MM-DD.md"@,
    {
        JournalConfig { daily: String::from_str("Resources/Journals/Daily/YYYY/MM/YYYY-MM-DD.md") }
    }
}

impl Default for CommandsConfig {
    fn default() -> (r: CommandsConfig)
        ensures
            r.safe_read@ == "Modules/forge-tlp/bin/safe-read"@,
    {
        CommandsConfig { safe_read: String::from_str("Modules/forge-tlp/bin/safe-read") }
    }
}

impl Default for SurfaceConfig {
    fn default() -> (r: SurfaceConfig)
        ensures
            r.archive_dir@ == "Resources/Archives"@,
            r.archive_prefix@ == "Safari Tab Snapshot"@,
            r.reminders_list@ == "work"@,
            r.ideas_cutoff_days == 14u32,
            r.due_soon_days == 3u32,
            r.max_items == 5usize,
    {
        SurfaceConfig {
            archive_dir: String::from_str("Resources/Archives"),
            archive_prefix: String::from_str("Safari Tab Snapshot"),
            reminders_list: String::from_str("work"),
            ideas_cutoff_days: 14,
            due_soon_days: 3,
            max_items: 5,
        }
    }
}

impl Default for Config {
    fn default() -> (r: Config)
        ensures
            r.insight_marker@ == "\u{2605} Insight"@,
            r.insight_skip_marker@ == "\u{2606} Insight"@,
            r.insight_captured_marker@ == "\u{2713} Insight"@,
            r.memory_paths@.len() == 2,
            r.memory_paths@[0]@ == "Memory/Insights/"@,
            r.memory_paths@[1]@ == "Memory/Imperatives/"@,
            r.write_tool_names@.len() == 5,
            r.write_tool_names@[0]@ == "Edit"@,
            r.write_tool_names@[1]@ == "Write"@,
            r.write_tool_names@[2]@ == "edit"@,
            r.write_tool_names@[3]@ == "write"@,
            r.write_tool_names@[4]@ == "safe-write"@,
            r.compaction_phrase@ == "continued from a previous conversation"@,
            r.reflection_skill@ == "SessionReflect"@,
            r.tool_turn_threshold == 10usize,
            r.user_msg_threshold == 4usize,
            r.duration_threshold_minutes == 15u32,
            r.user_msg_floor == 2usize,
            r.insight_blocking == Some(true),
            r.reflect_blocking == Some(true),
            r.precompact_agent == Some(false),
            r.reflection@ == "Orchestration/Skills/SessionReflect/SKILL.md"@,
            r.insight_check@ == "Orchestration/Skills/InsightCheck/SKILL.md"@,
            r.data_dir_suffix@ == "Data"@,
            r.backlog@ == "Orchestration/Backlog.md"@,
            r.memory.imperatives@ == "Orchestration/Memory/Imperatives"@,
            r.memory.insights@ == "Orchestration/Memory/Insights"@,
            r.memory.ideas@ == "Orchestration/Memory/Ideas"@,
            r.journal.daily@ == "Resources/Journals/Daily/YYYY/MM/YYYY-MM-DD.md"@,
            r.commands.safe_read@ == "Modules/forge-tlp/bin/safe-read"@,
            r.surface.ideas_cutoff_days == 14u32,
            r.surface.due_soon_days == 3u32,
            r.surface.max_items == 5usize,
            r.user.root@ == Seq::<char>::empty(),
    {
        let mut memory_paths: Vec<String> = Vec::new();
        memory_paths.push(String::from_str("Memory/Insights/"));
        memory_paths.push(String::from_str("Memory/Imperatives/"));
        let mut write_tool_names: Vec<String> = Vec::new();
        write_tool_names.push(String::from_str("Edit"));
        write_tool_names.push(String::from_str("Write"));
        write_tool_names.push(String::from_str("edit"));
        write_tool_names.push(String::from_str("write"));
        write_tool_names.push(String::from_str("safe-write"));
        Config {
            insight_marker: String::from_str("\u{2605} Insight"),
            insight_skip_marker: String::from_str("\u{2606} Insight"),
            insight_captured_marker: String::from_str("\u{2713} Insight"),
            memory_paths,
            write_tool_names,
            compaction_phrase: String::from_str("continued from a previous conversation"),
            reflection_skill: String::from_str("SessionReflect"),
            tool_turn_threshold: 10,
            user_msg_threshold: 4,
            duration_threshold_minutes: 15,
            user_msg_floor: 2,
            insight_blocking: Some(true),
            reflect_blocking: Some(true),
            precompact_agent: Some(false),
            reflection: String::from_str("Orchestration/Skills/SessionReflect/SKILL.md"),
            insight_check: String::from_str("Orchestration/Skills/InsightCheck/SKILL.md"),
            data_dir_suffix: String::from_str("Data"),
            fallback_reason: String::from_str(
                "Substantial session with no insights captured. Create a file in Memory/Insights/ or Memory/Imperatives/ before ending.",
            ),
            precompact_prefix: String::from_str(
                "STOP \u{2014} BEFORE COMPACTING, check for uncaptured insights. Any \u{2605} Insight block in this session that does NOT have a corresponding Memory/Insights/ file MUST be persisted NOW using the Write tool. Do not compact until all insights are captured. Apply the reusability filter below: capture reusable patterns, let one-off traces compact away.",
            ),
            uncaptured_insight_reason: String::from_str(
                "Uncaptured insights detected. Rule 12: every \u{2605} Insight block MUST be persisted as a Memory/Insights/ file before ending.",
            ),
            insight_advisory_prompt: String::from_str(
                "STOP current work. This session has {count} uncaptured \u{2605} Insight(s): {topics}. These MUST be persisted as Memory/Insights/ files NOW using the Write tool. Create the insight files, then resume your previous task.",
            ),
            memory: MemoryConfig::default(),
            journal: JournalConfig::default(),
            commands: CommandsConfig::default(),
            backlog: String::from_str("Orchestration/Backlog.md"),
            surface: SurfaceConfig::default(),
            user: UserConfig::default(),
        }
    }
}

/// The insights path fragment: the first memory path, with the compiled
/// default as fallback.
pub open spec fn spec_insights_path(c: &Config) -> Seq<char> {
    if c.memory_paths@.len() > 0 {
        c.memory_paths@[0]@
    } else {
        "Memory/Insights/"@
    }
}

/// A path joined onto a base directory, the way path pushing joins them.
pub open spec fn spec_join(base: Seq<char>, rel: Seq<char>) -> Seq<char> {
    if base.len() == 0 {
        rel
    } else if base.last() == '/' {
        base + rel
    } else {
        base + "/"@ + rel
    }
}

/// Where a relative user-content path resolves to: an absolute path passes
/// through; otherwise it is joined onto `user.root`, or onto `cwd` when no
/// root is configured.
pub open spec fn spec_resolve_user_path(c: &Config, cwd: Seq<char>, rel: Seq<char>) -> Seq<char> {
    if rel.len() > 0 && rel.first() == '/' {
        rel
    } else if c.user.root@.len() == 0 {
        spec_join(cwd, rel)
    } else {
        spec_join(c.user.root@, rel)
    }
}

impl Config {
    /// Insights path fragment, derived from the first element of
    /// `memory_paths`; used for counting insight file writes.
    pub fn insights_path(&self) -> (r: &str)
        ensures
            r@ == spec_insights_path(self),
    {
        if self.memory_paths.len() > 0 {
            self.memory_paths[0].as_str()
        } else {
            "Memory/Insights/"
        }
    }

    /// Resolve a user-content path against `user.root`, or against `cwd`
    /// when no root is configured.
    pub fn resolve_user_path(&self, cwd: &str, relative: &str) -> (r: String)
        ensures
            r@ == spec_resolve_user_path(self, cwd@, relative@),
    {
        if relative.unicode_len() > 0 && relative.get_char(0) == '/' {
            return String::from_str(relative);
        }
        if self.user.root.unicode_len() == 0 {
            join_path(cwd, relative)
        } else {
            join_path(self.user.root.as_str(), relative)
        }
    }
}

/// Join a relative path onto a base directory.
pub fn join_path(base: &str, rel: &str) -> (r: String)
    ensures
        r@ == spec_join(base@, rel@),
{
    let n = base.unicode_len();
    if n == 0 {
        return String::from_str(rel);
    }
    let mut out = String::from_str(base);
    if base.get_char(n - 1) != '/' {
        out.append("/");
    }
    out.append(rel);
    out
}

} // verus!
