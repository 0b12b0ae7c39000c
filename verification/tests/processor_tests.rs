use logcheck_fluent_bit_filter::cli::analyzer::UnmatchedCollector;
use logcheck_fluent_bit_filter::cli::args::ShowMode;
use logcheck_fluent_bit_filter::cli::output::json::JsonOutput;
use logcheck_fluent_bit_filter::cli::processor::{LogProcessor, ProcessingStats};
use logcheck_fluent_bit_filter::rules::{LogcheckDatabase, RuleCategory};

fn test_processor() -> LogProcessor {
    let mut db = LogcheckDatabase::new();
    db.violations_rules.add_pattern(".*failed.*".to_string()).unwrap();
    db.server.add_pattern(".*session started.*".to_string()).unwrap();
    db.compile_all().unwrap();
    LogProcessor::new(db)
}

#[test]
fn test_processor_with_mock_data() {
    let processor = test_processor();
    let messages = vec![
        "authentication failed for user alice".to_string(),
        "session started for user bob".to_string(),
        "some random message".to_string(),
    ];
    let mut output = JsonOutput::new(ShowMode::All);
    let mut stats = ProcessingStats::new();
    for message in messages {
        let entry = processor.process_entry(message, &mut stats);
        output.write_entry(&entry).unwrap();
    }

    assert_eq!(stats.total, 3);
    assert_eq!(stats.matched, 2);
    assert_eq!(stats.unmatched, 1);
    assert_eq!(stats.by_category.len(), 2);
    assert_eq!(output.take_lines().len(), 3);
}

#[test]
fn test_processing_stats() {
    let stats = ProcessingStats::new();
    assert_eq!(stats.total, 0);
    assert_eq!(stats.matched, 0);
    assert_eq!(stats.unmatched, 0);
    assert!(stats.by_category.is_empty());

    let lines = stats.summary_lines("test");
    assert_eq!(lines[1], "📊 Processing Summary for test");
    assert_eq!(lines.len(), 6);
}

#[test]
fn collector_gets_exactly_the_unmatched_entries() {
    let processor = test_processor();
    let mut stats = ProcessingStats::new();
    let mut collector = UnmatchedCollector::new();
    for m in ["x failed", "odd one", "session started now", "another odd"] {
        let entry = processor.process_entry_collecting(m.to_string(), &mut stats, &mut collector);
        assert_eq!(entry.matched, entry.category.is_some());
    }
    assert_eq!(collector.entries(), &["odd one".to_string(), "another odd".to_string()]);
    assert_eq!(stats.total, stats.matched + stats.unmatched);
}

#[test]
fn summary_lists_categories_largest_first() {
    let mut stats = ProcessingStats::new();
    stats.record(Some(RuleCategory::SystemEvents));
    stats.record(Some(RuleCategory::Violations));
    stats.record(Some(RuleCategory::Violations));
    stats.record(None);
    assert_eq!(stats.by_category, vec![(RuleCategory::SystemEvents, 1), (RuleCategory::Violations, 2)]);
    let lines = stats.summary_lines("stdin");
    assert_eq!(
        lines,
        vec![
            "",
            "📊 Processing Summary for stdin",
            "━━━━━━━━━━━━━━━━━━━━━━━━━━━━━━━━━━━━━━━━",
            "Total entries processed: 4",
            "Matched entries: 3",
            "Unmatched entries: 1",
            "",
            "Breakdown by category:",
            "  🟡 Security violations: 2",
            "  🟢 System events: 1",
        ]
    );
}
