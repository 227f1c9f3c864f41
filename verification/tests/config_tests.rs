use forge_reflect::config::Config;

#[test]
fn test_default_values() {
    let config = Config::default();
    assert_eq!(config.insight_marker, "\u{2605} Insight");
    assert_eq!(config.memory_paths.len(), 2);
    assert_eq!(config.write_tool_names.len(), 5);
    assert!(config.write_tool_names.iter().any(|name| name == "Write"));
    assert!(config
        .write_tool_names
        .iter()
        .any(|name| name == "safe-write"));
    assert_eq!(config.tool_turn_threshold, 10);
    assert_eq!(config.user_msg_threshold, 4);
    assert_eq!(config.duration_threshold_minutes, 15);
    assert_eq!(config.user_msg_floor, 2);
    assert_eq!(
        config.reflection,
        "Orchestration/Skills/SessionReflect/SKILL.md"
    );
    assert_eq!(
        config.insight_check,
        "Orchestration/Skills/InsightCheck/SKILL.md"
    );
    assert_eq!(
        config.memory.imperatives,
        "Orchestration/Memory/Imperatives"
    );
    assert_eq!(config.memory.insights, "Orchestration/Memory/Insights");
    assert_eq!(config.memory.ideas, "Orchestration/Memory/Ideas");
    assert_eq!(
        config.journal.daily,
        "Resources/Journals/Daily/YYYY/MM/YYYY-MM-DD.md"
    );
    assert_eq!(config.backlog, "Orchestration/Backlog.md");
    assert_eq!(config.commands.safe_read, "Modules/forge-tlp/bin/safe-read");
}

#[test]
fn test_reset_trigger_defaults() {
    let config = Config::default();
    assert_eq!(
        config.compaction_phrase,
        "continued from a previous conversation"
    );
    assert_eq!(config.reflection_skill, "SessionReflect");
}

#[test]
fn test_precompact_agent_default() {
    let config = Config::default();
    assert_eq!(config.precompact_agent, Some(false));
}

#[test]
fn test_resolve_user_path() {
    let mut config = Config::default();
    config.user.root = "/home/user/vault".to_string();

    let result = config.resolve_user_path("/home/user/data", "Orchestration/Backlog.md");
    assert_eq!(result, "/home/user/vault/Orchestration/Backlog.md");
}

#[test]
fn test_resolve_user_path_falls_back_to_cwd() {
    let config = Config::default(); // user.root is empty

    let result = config.resolve_user_path("/home/user/data", "Orchestration/Backlog.md");
    assert_eq!(result, "/home/user/data/Orchestration/Backlog.md");
}

#[test]
fn test_resolve_user_path_absolute_passes_through() {
    let mut config = Config::default();
    config.user.root = "/home/user/vault".to_string();

    let result = config.resolve_user_path("/home/user/data", "/absolute/path");
    assert_eq!(result, "/absolute/path");
}

#[test]
fn test_insights_path_default() {
    let config = Config::default();
    assert_eq!(config.insights_path(), "Memory/Insights/");
}

#[test]
fn test_insights_path_empty_list_falls_back() {
    let mut config = Config::default();
    config.memory_paths.clear();
    assert_eq!(config.insights_path(), "Memory/Insights/");
}
