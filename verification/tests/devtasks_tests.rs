use logcheck_fluent_bit_filter::devtasks::{
    generated_rule, is_valid_semver, rule_text, sample_lines, PatternGenError,
};

#[test]
fn release_versions() {
    assert!(is_valid_semver("1.0.0"));
    assert!(is_valid_semver("10.20.30"));
    assert!(is_valid_semver("+1.02.4294967295"));
    assert!(!is_valid_semver("1.2"));
    assert!(!is_valid_semver("1.2.3.4"));
    assert!(!is_valid_semver("1.2.x"));
    assert!(!is_valid_semver("1..3"));
    assert!(!is_valid_semver("1.2.4294967296"));
    assert!(!is_valid_semver("1.2.-3"));
    assert!(!is_valid_semver(""));
    assert!(!is_valid_semver("v1.2.3"));
}

#[test]
fn rules_generated_from_sample_lines() {
    assert_eq!(generated_rule("empty.log", "\n\n"), Err(PatternGenError::NoLines));
    let rule = generated_rule("sample.log", "abc\n\nabc\n").unwrap();
    assert!(rule.starts_with("# Generated from sample.log\n^"));
    assert!(rule.ends_with("$\n"));
    assert!(rule.starts_with("# Generated from sample.log\n^^") && rule.ends_with("$$\n"));
    assert!(rule.contains("\\w"));
}

#[test]
fn rule_text_and_sample_lines() {
    assert_eq!(rule_text("a.log", "x\\d+"), "# Generated from a.log\n^x\\d+$\n");
    assert_eq!(sample_lines("one\n\ntwo\n"), vec!["one".to_string(), "two".to_string()]);
    assert!(sample_lines("\n\n").is_empty());
}
