use logcheck_fluent_bit_filter::cli::args::ShowMode;
use logcheck_fluent_bit_filter::cli::output::json::{rule_type_name, JsonOutput};
use logcheck_fluent_bit_filter::cli::output::text::{TextOutput, TextStyle};
use logcheck_fluent_bit_filter::cli::output::FilteredEntry;
use logcheck_fluent_bit_filter::rules::RuleCategory;

#[test]
fn test_json_output_creation() {
    let output = JsonOutput::new(ShowMode::All);
    assert!(matches!(output.show_mode, ShowMode::All));

    let violations_output = JsonOutput::new(ShowMode::Violations);
    assert!(matches!(violations_output.show_mode, ShowMode::Violations));
}

#[test]
fn test_json_formatting() {
    let mut output = JsonOutput::new(ShowMode::All);

    let entry = FilteredEntry::new("test message".to_string(), Some(RuleCategory::Violations));
    output.write_entry(&entry).unwrap();

    let unmatched = FilteredEntry::new("unmatched".to_string(), None);
    output.write_entry(&unmatched).unwrap();

    let lines = output.take_lines();
    assert_eq!(
        lines,
        vec![
            "{\"message\":\"test message\",\"matched\":true,\"category\":\"Violations\",\"rule_type\":\"violations\"}",
            "{\"message\":\"unmatched\",\"matched\":false,\"category\":null,\"rule_type\":\"unmatched\"}",
        ]
    );
    assert!(output.take_lines().is_empty());
}

#[test]
fn json_output_skips_entries_the_mode_hides() {
    let mut output = JsonOutput::new(ShowMode::Unmatched);
    output.write_entry(&FilteredEntry::new("v".to_string(), Some(RuleCategory::Violations))).unwrap();
    output.write_entry(&FilteredEntry::new("u".to_string(), None)).unwrap();
    assert_eq!(output.take_lines().len(), 1);
    assert_eq!(rule_type_name(&Some(RuleCategory::Server)), "ignore");
    assert_eq!(rule_type_name(&Some(RuleCategory::ViolationsIgnore)), "violations_ignore");
}

#[test]
fn test_filtered_entry_creation() {
    let entry1 = FilteredEntry::new("test message".to_string(), Some(RuleCategory::Violations));
    assert_eq!(entry1.message, "test message");
    assert_eq!(entry1.category, Some(RuleCategory::Violations));
    assert!(entry1.matched);

    let entry2 = FilteredEntry::new("unmatched".to_string(), None);
    assert_eq!(entry2.message, "unmatched");
    assert_eq!(entry2.category, None);
    assert!(!entry2.matched);
}

#[test]
fn test_should_show() {
    let violation = FilteredEntry::new("violation".to_string(), Some(RuleCategory::Violations));
    let system_event = FilteredEntry::new("system".to_string(), Some(RuleCategory::SystemEvents));
    let unmatched = FilteredEntry::new("unmatched".to_string(), None);

    assert!(violation.should_show(&ShowMode::All));
    assert!(system_event.should_show(&ShowMode::All));
    assert!(unmatched.should_show(&ShowMode::All));

    assert!(violation.should_show(&ShowMode::Violations));
    assert!(!system_event.should_show(&ShowMode::Violations));
    assert!(!unmatched.should_show(&ShowMode::Violations));

    assert!(!violation.should_show(&ShowMode::Unmatched));
    assert!(!system_event.should_show(&ShowMode::Unmatched));
    assert!(unmatched.should_show(&ShowMode::Unmatched));

    let cracking = FilteredEntry::new("c".to_string(), Some(RuleCategory::Cracking));
    assert!(cracking.should_show(&ShowMode::Violations));
}

#[test]
fn test_text_output_creation() {
    let output = TextOutput::new(ShowMode::All, false);
    assert!(!output.use_color);
    assert!(matches!(output.show_mode, ShowMode::All));

    let colored_output = TextOutput::new(ShowMode::Violations, true);
    assert!(colored_output.use_color);
    assert!(matches!(colored_output.show_mode, ShowMode::Violations));
}

#[test]
fn test_category_formatting() {
    let output = TextOutput::new(ShowMode::All, false);

    let cracking_format = output.format_category(&RuleCategory::Cracking);
    assert_eq!(cracking_format.to_string(), "[CRACKING]");

    let violation_format = output.format_category(&RuleCategory::Violations);
    assert_eq!(violation_format.to_string(), "[VIOLATION]");

    let system_format = output.format_category(&RuleCategory::SystemEvents);
    assert_eq!(system_format.to_string(), "[SYSTEM]");
}

#[test]
fn colors_follow_the_category() {
    let output = TextOutput::new(ShowMode::All, true);
    assert_eq!(output.format_category(&RuleCategory::Cracking).style, TextStyle::RedBold);
    assert_eq!(output.format_category(&RuleCategory::Violations).style, TextStyle::YellowBold);
    assert_eq!(output.format_category(&RuleCategory::Server).style, TextStyle::Green);
    assert_eq!(output.format_category(&RuleCategory::Local).style, TextStyle::Blue);
    assert_eq!(output.format_category(&RuleCategory::CrackingIgnore).style, TextStyle::Normal);
    assert_eq!(output.format_message("m", &None).style, TextStyle::Cyan);
    assert_eq!(output.format_message("m", &Some(RuleCategory::Cracking)).style, TextStyle::Red);
    let plain = TextOutput::new(ShowMode::All, false);
    assert_eq!(plain.format_category(&RuleCategory::Cracking).style, TextStyle::Normal);
}

#[test]
fn text_lines_for_matched_and_unmatched_entries() {
    let mut output = TextOutput::new(ShowMode::All, true);
    output.write_entry(&FilteredEntry::new("bad".to_string(), Some(RuleCategory::Violations)));
    output.write_entry(&FilteredEntry::new("new".to_string(), None));
    let lines = output.take_lines();
    assert_eq!(lines.len(), 2);
    assert_eq!(lines[0].tag.to_string(), "[VIOLATION]");
    assert_eq!(lines[0].message.text, "bad");
    assert_eq!(lines[0].message.style, TextStyle::Yellow);
    assert_eq!(lines[1].tag.to_string(), "[UNMATCHED]");
    assert_eq!(lines[1].tag.style, TextStyle::CyanBold);
    let mut hidden = TextOutput::new(ShowMode::Violations, false);
    hidden.write_entry(&FilteredEntry::new("new".to_string(), None));
    assert!(hidden.take_lines().is_empty());
}

#[test]
fn json_messages_are_escaped() {
    let entry = FilteredEntry::new("say \"hi\"\\\n\t\u{1}/é".to_string(), None);
    let line = JsonOutput::render_entry(&entry).unwrap();
    assert_eq!(
        line,
        "{\"message\":\"say \\\"hi\\\"\\\\\\n\\t\\u0001/é\",\"matched\":false,\"category\":null,\"rule_type\":\"unmatched\"}"
    );
}
