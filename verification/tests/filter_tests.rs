use logcheck_fluent_bit_filter::filter::{
    apply_logcheck_rules, apply_rules_with, create_filtered_entry, demo_json, embedded_database,
    LogEntry,
};
use logcheck_fluent_bit_filter::rules::RuleCategory;

fn entry(message: &str, priority: &str, unit: &str, pid: &str, ident: &str) -> LogEntry {
    LogEntry {
        timestamp: "2024-01-01T12:00:00Z".to_string(),
        message: message.to_string(),
        priority: Some(priority.to_string()),
        systemd_unit: Some(unit.to_string()),
        pid: Some(pid.to_string()),
        hostname: Some("testhost".to_string()),
        syslog_identifier: Some(ident.to_string()),
    }
}

#[test]
fn test_security_violation_matching() {
    let log_entry = entry(
        "sshd[1234]: Failed password for root from 192.168.1.1 port 22",
        "4",
        "ssh.service",
        "1234",
        "sshd",
    );
    let matched_category = apply_logcheck_rules(&log_entry);
    assert_eq!(matched_category, Some(RuleCategory::Violations));
}

#[test]
fn test_system_event_matching() {
    let log_entry = entry(
        "Started Session 123 of user alice.",
        "6",
        "systemd-logind.service",
        "1",
        "systemd-logind",
    );
    let matched_category = apply_logcheck_rules(&log_entry);
    assert_eq!(matched_category, Some(RuleCategory::SystemEvents));
}

#[test]
fn test_no_match() {
    let log_entry = entry("Some random application message", "6", "myapp.service", "9999", "myapp");
    let matched_category = apply_logcheck_rules(&log_entry);
    assert_eq!(matched_category, None);
}

#[test]
fn test_rule_database_stats() {
    let stats = embedded_database().get_stats();
    assert!(stats.get("violations_rules").unwrap() > 0);
    assert!(stats.get("server").unwrap() > 0);
    assert!(stats.get("total_rules").unwrap() > 0);
    assert_eq!(stats.get("violations_rules"), Some(5));
    assert_eq!(stats.get("server"), Some(6));
    assert_eq!(stats.get("total_rules"), Some(11));
}

#[test]
fn embedded_rules_classify_with_one_database() {
    let db = embedded_database();
    let oom = entry("kernel: Out of memory: Killed process 42", "3", "kernel", "0", "kernel");
    assert_eq!(apply_rules_with(&db, &oom), Some(RuleCategory::Violations));
    let ssh = entry("sshd[7]: Accepted publickey for bob from 10.0.0.2", "6", "ssh.service", "7", "sshd");
    assert_eq!(apply_rules_with(&db, &ssh), Some(RuleCategory::SystemEvents));
}

#[test]
fn filtered_entry_for_a_violation() {
    let e = entry("Failed password", "4", "ssh.service", "1234", "sshd");
    assert_eq!(
        create_filtered_entry(&e, Some(RuleCategory::Violations)),
        "{\"@timestamp\":\"2024-01-01T12:00:00Z\",\"HOSTNAME\":\"testhost\",\"MESSAGE\":\"Failed password\",\
\"PID\":\"1234\",\"PRIORITY\":\"4\",\"SYSLOG_IDENTIFIER\":\"sshd\",\"SYSTEMD_UNIT\":\"ssh.service\",\
\"logcheck_category\":\"Violations\",\"logcheck_description\":\"Security violation or critical system event\",\
\"logcheck_matched\":true,\"logcheck_rule_type\":\"violations\"}"
    );
}

#[test]
fn filtered_entry_without_a_match_and_with_missing_fields() {
    let e = LogEntry {
        timestamp: "t".to_string(),
        message: "say \"hi\"\n".to_string(),
        priority: None,
        systemd_unit: None,
        pid: None,
        hostname: None,
        syslog_identifier: None,
    };
    assert_eq!(
        create_filtered_entry(&e, None),
        "{\"@timestamp\":\"t\",\"HOSTNAME\":null,\"MESSAGE\":\"say \\\"hi\\\"\\n\",\"PID\":null,\
\"PRIORITY\":null,\"SYSLOG_IDENTIFIER\":null,\"SYSTEMD_UNIT\":null,\
\"logcheck_description\":\"No matching logcheck rule found\",\"logcheck_matched\":false,\
\"logcheck_rule_type\":\"unclassified\"}"
    );
}

#[test]
fn filtered_entry_rule_types_of_ignore_categories() {
    let e = entry("m", "6", "u", "1", "i");
    let out = create_filtered_entry(&e, Some(RuleCategory::Workstation));
    assert!(out.ends_with(
        "\"logcheck_category\":\"Workstation\",\"logcheck_description\":\"Normal workstation event\",\
\"logcheck_matched\":true,\"logcheck_rule_type\":\"ignore\"}"
    ));
    let out = create_filtered_entry(&e, Some(RuleCategory::CrackingIgnore));
    assert!(out.contains("\"logcheck_rule_type\":\"cracking_ignore\""));
}

#[test]
fn demo_record_carries_the_time() {
    assert_eq!(
        demo_json(1721826775),
        "{\"logcheck_demo\":\"Hello from Rust WASM logcheck filter!\",\"timestamp\":1721826775,\"processed\":true}"
    );
    assert_eq!(
        demo_json(0),
        "{\"logcheck_demo\":\"Hello from Rust WASM logcheck filter!\",\"timestamp\":0,\"processed\":true}"
    );
}

#[test]
fn filtered_entry_keys_come_in_serde_json_order() {
    let e = entry("Failed password", "4", "ssh.service", "1234", "sshd");
    let mut object = serde_json::Map::new();
    object.insert("@timestamp".to_string(), serde_json::Value::String(e.timestamp.clone()));
    object.insert("MESSAGE".to_string(), serde_json::Value::String(e.message.clone()));
    object.insert("PRIORITY".to_string(), serde_json::Value::String("4".to_string()));
    object.insert("SYSTEMD_UNIT".to_string(), serde_json::Value::String("ssh.service".to_string()));
    object.insert("PID".to_string(), serde_json::Value::String("1234".to_string()));
    object.insert("HOSTNAME".to_string(), serde_json::Value::String("testhost".to_string()));
    object.insert("SYSLOG_IDENTIFIER".to_string(), serde_json::Value::String("sshd".to_string()));
    object.insert("logcheck_rule_type".to_string(), serde_json::Value::String("violations".to_string()));
    object.insert(
        "logcheck_description".to_string(),
        serde_json::Value::String("Security violation or critical system event".to_string()),
    );
    object.insert("logcheck_matched".to_string(), serde_json::Value::Bool(true));
    object.insert("logcheck_category".to_string(), serde_json::Value::String("Violations".to_string()));
    let expected = serde_json::to_string(&serde_json::Value::Object(object)).unwrap();
    assert_eq!(create_filtered_entry(&e, Some(RuleCategory::Violations)), expected);
}
