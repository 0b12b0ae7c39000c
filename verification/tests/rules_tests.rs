use logcheck_fluent_bit_filter::rules::{LogcheckDatabase, RuleCategory, RuleError, RuleSet};

/// The rule files of the test tree: violations and server rules.
fn load_test_rules() -> LogcheckDatabase {
    let mut database = LogcheckDatabase::new();
    let violations = "# Security violation rules\n^.*authentication failure.*$\n^.*failed password.*$\n";
    let server = "# SystemD ignore rules\n^.*systemd.*: Started Session.*$\n^.*systemd.*: Stopped Session.*$\n";
    let skipped = database.load_rule_content(RuleCategory::Violations, "violations.d/security".to_string(), violations);
    assert!(skipped.is_empty());
    let skipped = database.load_rule_content(RuleCategory::Server, "ignore.d.server/systemd".to_string(), server);
    assert!(skipped.is_empty());
    database.compile_all().unwrap();
    database
}

#[test]
fn test_load_from_directory() {
    let database = load_test_rules();

    assert_eq!(database.violations_rules.patterns.len(), 2);
    assert_eq!(database.server.patterns.len(), 2);

    let stats = database.get_stats();
    assert_eq!(stats.get("violations_rules"), Some(2));
    assert_eq!(stats.get("server"), Some(2));
    assert_eq!(stats.get("total_rules"), Some(4));
}

#[test]
fn test_rule_matching() {
    let database = load_test_rules();

    let violation_msg = "Jan 01 12:00:00 host sshd[1234]: authentication failure for user";
    assert_eq!(database.match_message(violation_msg), Some(RuleCategory::Violations));

    let system_msg = "Jan 01 12:00:00 host systemd[1]: Started Session 123 of user alice";
    assert_eq!(database.match_message(system_msg), Some(RuleCategory::SystemEvents));

    let unknown_msg = "Jan 01 12:00:00 host myapp[999]: Some custom message";
    assert_eq!(database.match_message(unknown_msg), None);
}

#[test]
fn test_rule_validation() {
    let mut rule_set = RuleSet::new(RuleCategory::Local);
    assert!(rule_set.add_pattern("^.*valid.*$".to_string()).is_ok());
    assert!(rule_set.add_pattern("[invalid regex(".to_string()).is_err());
    assert_eq!(rule_set.patterns.len(), 1);
}

#[test]
fn cracking_wins_over_violations_and_ignores() {
    let mut db = LogcheckDatabase::new();
    db.cracking_rules.add_pattern("attack".to_string()).unwrap();
    db.violations_rules.add_pattern("attack|failure".to_string()).unwrap();
    db.server.add_pattern(".*".to_string()).unwrap();
    db.compile_all().unwrap();
    assert_eq!(db.match_message("attack from 10.0.0.1"), Some(RuleCategory::Cracking));
    assert_eq!(db.match_message("auth failure"), Some(RuleCategory::Violations));
    assert_eq!(db.match_message("anything else"), Some(RuleCategory::SystemEvents));
}

#[test]
fn ignore_rules_cancel_a_match() {
    let mut db = LogcheckDatabase::new();
    db.cracking_rules.add_pattern("attack".to_string()).unwrap();
    db.cracking_ignore.add_pattern("harmless attack".to_string()).unwrap();
    db.violations_rules.add_pattern("failure".to_string()).unwrap();
    db.violations_ignore.add_pattern("expected failure".to_string()).unwrap();
    db.compile_all().unwrap();
    assert_eq!(db.match_message("harmless attack"), None);
    assert_eq!(db.match_message("expected failure"), None);
    assert_eq!(db.match_message("real failure"), Some(RuleCategory::Violations));
}

#[test]
fn uncompiled_database_matches_nothing() {
    let mut db = LogcheckDatabase::new();
    db.violations_rules.add_pattern(".*".to_string()).unwrap();
    assert_eq!(db.match_message("anything"), None);
}

#[test]
fn rule_files_skip_comments_backreferences_and_invalid_lines() {
    let mut db = LogcheckDatabase::new();
    let content = "# comment\n\n  ^foo [[:digit:]]+$  \n^(a)\\1$\n[broken(\nbar\n";
    let skipped = db.load_rule_content(RuleCategory::Local, "local.d/test".to_string(), content);
    assert_eq!(db.local.patterns, vec!["^foo [0-9]+$".to_string(), "bar".to_string()]);
    assert_eq!(skipped.len(), 2);
    assert_eq!(skipped[0].line_number, 4);
    assert_eq!(skipped[0].line, "^(a)\\1$");
    assert!(skipped[0].error.is_none());
    assert_eq!(skipped[1].line_number, 5);
    assert!(skipped[1].error.is_some());
    assert_eq!(db.local.source_files, vec!["local.d/test".to_string()]);
    db.compile_all().unwrap();
    assert_eq!(db.match_message("foo 99"), Some(RuleCategory::SystemEvents));
    assert_eq!(db.match_message("bar"), Some(RuleCategory::SystemEvents));
}

#[test]
fn posix_classes_are_converted() {
    assert_eq!(LogcheckDatabase::convert_posix_classes("[[:alnum:]]+"), "[a-zA-Z0-9]+");
    assert_eq!(LogcheckDatabase::convert_posix_classes("x[[:digit:]][[:space:]]"), "x[0-9][\\s]");
    assert_eq!(LogcheckDatabase::convert_posix_classes("[._[:alnum:]-]"), "[._a-zA-Z0-9-]");
    assert_eq!(LogcheckDatabase::convert_posix_classes("[[:xdigit:]][[:upper:]]"), "[0-9a-fA-F][A-Z]");
    assert_eq!(LogcheckDatabase::convert_posix_classes("x { y }"), "x \\{ y }");
    assert_eq!(LogcheckDatabase::convert_posix_classes("a { b } c"), "a \\{ b \\} c");
}

#[test]
fn rule_directories_in_loading_order() {
    let dirs = LogcheckDatabase::rule_directories();
    assert_eq!(dirs.len(), 8);
    assert_eq!(dirs[0], ("cracking.d", RuleCategory::Cracking));
    assert_eq!(dirs[4], ("ignore.d.paranoid", RuleCategory::SystemEvents));
    assert_eq!(dirs[7], ("local.d", RuleCategory::Local));
}

#[test]
fn stats_list_every_rule_set_and_the_total() {
    let mut db = LogcheckDatabase::new();
    db.local.add_pattern("a".to_string()).unwrap();
    db.cracking_rules.add_pattern("b".to_string()).unwrap();
    let stats = db.get_stats();
    assert_eq!(stats.len(), 9);
    assert_eq!(stats.get("local"), Some(1));
    assert_eq!(stats.get("cracking_rules"), Some(1));
    assert_eq!(stats.get("workstation"), Some(0));
    assert_eq!(stats.get("total_rules"), Some(2));
    assert_eq!(stats.get("nope"), None);
}

#[test]
fn large_rule_sets_compile_and_match() {
    let mut set = RuleSet::new(RuleCategory::Server);
    for i in 0..120 {
        set.add_pattern(format!("^message number {} of [a-z]+ \\w+ \\d+$", i)).unwrap();
    }
    set.compile().unwrap();
    assert!(set.matches("message number 119 of abc def 7"));
    assert!(!set.matches("message number 120 of abc def 7"));
}

#[test]
fn category_names() {
    assert_eq!(RuleCategory::Cracking.name(), "Cracking");
    assert_eq!(RuleCategory::ViolationsIgnore.name(), "ViolationsIgnore");
    assert_eq!(RuleCategory::SystemEvents.name(), "SystemEvents");
}

#[test]
fn compile_outcomes() {
    let mut empty = RuleSet::new(RuleCategory::Local);
    assert!(empty.compile().is_ok());
    assert!(empty.compiled.is_none());

    let mut valid = RuleSet::new(RuleCategory::Local);
    valid.add_pattern("^kernel: .*$".to_string()).unwrap();
    assert!(valid.compile().is_ok());
    assert!(valid.matches("kernel: boot"));

    let mut invalid = RuleSet::new(RuleCategory::Local);
    invalid.patterns.push("([unclosed".to_string());
    let result = invalid.compile();
    assert!(matches!(result, Err(RuleError::RegexError(_))));
    assert!(invalid.compiled.is_none());
    assert!(!invalid.matches("([unclosed"));
}

#[test]
fn converted_posix_classes_keep_their_meaning() {
    let converted = LogcheckDatabase::convert_posix_classes("id=[[:digit:]]+");
    assert_eq!(converted, "id=[0-9]+");
    let re = regex::Regex::new(&converted).unwrap();
    assert!(re.is_match("id=42"));
    assert!(!re.is_match("id=x"));
}

#[test]
fn compile_all_stops_at_the_first_failing_rule_set() {
    let mut db = LogcheckDatabase::new();
    db.violations_rules.add_pattern("attack".to_string()).unwrap();
    db.server.patterns.push("([broken".to_string());
    db.local.add_pattern("local".to_string()).unwrap();
    let result = db.compile_all();
    assert!(matches!(result, Err(RuleError::RegexError(_))));
    assert!(db.violations_rules.compiled.is_some());
    assert!(db.server.compiled.is_none());
    assert!(db.local.compiled.is_none());
    assert_eq!(db.match_message("an attack"), Some(RuleCategory::Violations));
}
