use forge_reflect::config::Config;
use forge_reflect::in_data_dir;
use forge_reflect::transcript::{
    analyze_transcript, check_memory_paths, compute_uncaptured_topics, uncaptured_report,
    TranscriptAnalysis,
};

fn empty_analysis() -> TranscriptAnalysis {
    TranscriptAnalysis {
        user_messages: 0,
        tool_using_turns: 0,
        has_memory_write: false,
        insight_count: 0,
        insights_write_count: 0,
        insight_topics: Vec::new(),
        insights_written: Vec::new(),
        session_duration_minutes: 0,
        skipped_topics: Vec::new(),
        captured_topics: Vec::new(),
    }
}

#[test]
fn check_memory_paths_counts_insights_write() {
    let config = Config::default();
    let mut analysis = empty_analysis();
    check_memory_paths(&mut analysis, "/v/Memory/Insights/Foo.md", &config);
    assert_eq!(analysis.insights_write_count, 1);
    assert_eq!(analysis.insights_written, vec!["Foo.md"]);
    assert!(analysis.has_memory_write);
}

#[test]
fn check_memory_paths_ignores_unrelated_path() {
    let config = Config::default();
    let mut analysis = empty_analysis();
    check_memory_paths(&mut analysis, "/tmp/scratch.txt", &config);
    assert_eq!(analysis.insights_write_count, 0);
    assert!(analysis.insights_written.is_empty());
    assert!(!analysis.has_memory_write);
}

fn cfg_with_suffix(suffix: &str) -> Config {
    let mut c = Config::default();
    c.data_dir_suffix = suffix.to_string();
    c
}

#[test]
fn test_exact_match() {
    assert!(in_data_dir(
        "/Users/test/Data",
        "/Users/test",
        &cfg_with_suffix("Data")
    ));
}

#[test]
fn test_subdirectory() {
    assert!(in_data_dir(
        "/Users/test/Data/Plugins",
        "/Users/test",
        &cfg_with_suffix("Data")
    ));
}

#[test]
fn test_prefix_collision_rejected() {
    assert!(!in_data_dir(
        "/Users/test/DataBackup",
        "/Users/test",
        &cfg_with_suffix("Data")
    ));
}

#[test]
fn test_different_path() {
    assert!(!in_data_dir(
        "/Users/test/Projects",
        "/Users/test",
        &cfg_with_suffix("Data")
    ));
}

#[test]
fn test_empty_home_returns_false() {
    assert!(!in_data_dir("/Data", "", &cfg_with_suffix("Data")));
}

fn make_human() -> String {
    "{\"type\":\"human\"}".to_string()
}

fn make_assistant_text(text: &str) -> String {
    format!(
        "{{\"type\":\"assistant\",\"message\":{{\"content\":[{{\"type\":\"text\",\"text\":\"{}\"}}]}}}}",
        text
    )
}

fn make_assistant_write(file_path: &str) -> String {
    format!(
        "{{\"type\":\"assistant\",\"message\":{{\"content\":[{{\"type\":\"tool_use\",\"name\":\"Write\",\"input\":{{\"file_path\":\"{}\"}}}}]}}}}",
        file_path
    )
}

#[test]
fn uncaptured_topics_exclude_written() {
    let transcript = [
        make_human(),
        make_assistant_text("\u{2605} Insight: yaml deep merge"),
        make_assistant_text("\u{2605} Insight: rust compiler performance"),
        make_assistant_write("Memory/Insights/Yaml-Deep-Merge.md"),
    ]
    .join("\n");
    let analysis = analyze_transcript(&transcript, &Config::default());
    let uncaptured = compute_uncaptured_topics(&analysis);
    assert_eq!(uncaptured, vec!["rust compiler performance"]);
}

#[test]
fn uncaptured_report_counts_unnamed() {
    // One named uncaptured topic plus one unnamed occurrence, no writes.
    let transcript = [
        make_human(),
        make_assistant_text("\u{2605} Insight: forge module alignment"),
        make_assistant_text("\u{2605} Insight: refactor"),
    ]
    .join("\n");
    let analysis = analyze_transcript(&transcript, &Config::default());
    let report = uncaptured_report(&analysis);
    assert_eq!(report.topics, vec!["forge module alignment"]);
    assert_eq!(report.unnamed, 1);
    assert_eq!(report.total, 2);
}

#[test]
fn uncaptured_report_honours_skip_and_captured_markers() {
    let transcript = [
        make_human(),
        make_assistant_text("\u{2605} Insight: yaml deep merge"),
        make_assistant_text("\u{2606} Insight: yaml deep merge"),
        make_assistant_text("\u{2605} Insight: forge module alignment"),
        make_assistant_text("\u{2713} Insight: forge module alignment"),
        make_assistant_text("\u{2605} Insight: rust compiler performance"),
    ]
    .join("\n");
    let analysis = analyze_transcript(&transcript, &Config::default());
    let report = uncaptured_report(&analysis);
    assert_eq!(report.topics, vec!["rust compiler performance"]);
    assert_eq!(report.total, 1);
}

#[test]
fn uncaptured_report_surplus_writes_cover_unnamed() {
    // An unnamed insight occurrence with a surplus insight write: the write
    // is credited against the unnamed occurrence.
    let transcript = [
        make_human(),
        make_assistant_text("\u{2605} Insight: refactor"),
        make_assistant_write("Memory/Insights/Some Note.md"),
    ]
    .join("\n");
    let analysis = analyze_transcript(&transcript, &Config::default());
    let report = uncaptured_report(&analysis);
    assert!(report.topics.is_empty());
    assert_eq!(report.unnamed, 0);
    assert_eq!(report.total, 0);
}
