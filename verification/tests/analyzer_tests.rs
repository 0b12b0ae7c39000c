use logcheck_fluent_bit_filter::cli::analyzer::pattern_grouper::{
    can_extract_prefix, extract_prefix, group_and_generate, group_from_regex, group_messages,
    PatternGroup,
};
use logcheck_fluent_bit_filter::cli::analyzer::UnmatchedCollector;

#[test]
fn test_collector() {
    let mut collector = UnmatchedCollector::new();
    assert!(collector.is_empty());
    assert_eq!(collector.len(), 0);

    collector.add_entry("test entry 1".to_string());
    collector.add_entry("test entry 2".to_string());

    assert!(!collector.is_empty());
    assert_eq!(collector.len(), 2);
    assert_eq!(collector.entries()[0], "test entry 1");
    assert_eq!(collector.entries()[1], "test entry 2");
}

#[test]
fn test_extract_prefix() {
    assert_eq!(
        extract_prefix("pam_unix(sudo:session): session opened"),
        "pam_unix(sudo:session):"
    );
    assert_eq!(extract_prefix("systemd[1]: Started service"), "systemd[1]:");
    assert_eq!(extract_prefix("short message"), "short message");
}

#[test]
fn prefix_limits_and_boundaries() {
    let long = "a".repeat(60);
    assert_eq!(extract_prefix(&long), "a".repeat(50));
    let colon_late = format!("{}:tail", "b".repeat(85));
    assert_eq!(extract_prefix(&colon_late), "b".repeat(50));
    assert!(can_extract_prefix("plain"));
    assert!(can_extract_prefix(&format!("{}é", "x".repeat(48))));
    assert!(!can_extract_prefix(&format!("{}é{}", "x".repeat(49), "y".repeat(10))));
}

#[test]
fn test_group_and_generate() {
    let entries = vec![
        "pam_unix(sudo:session): session opened for user root".to_string(),
        "pam_unix(sudo:session): session closed for user root".to_string(),
        "pam_unix(sudo:session): session opened for user alice".to_string(),
        "systemd[1]: Started service foo".to_string(),
        "systemd[1]: Started service bar".to_string(),
    ];

    let groups = group_and_generate(&entries, 2).unwrap();
    assert_eq!(groups.len(), 2, "Expected 2 groups, got {}", groups.len());

    assert_eq!(groups[0].match_count, 3);
    assert!(
        groups[0].regex.contains("[[:alnum:]_]"),
        "Expected POSIX word character class in: {}",
        groups[0].regex
    );

    assert_eq!(groups[1].match_count, 2);
    assert!(
        groups[1].regex.contains("[[:alnum:]_]") || groups[1].regex.contains("[[:digit:]]"),
        "Expected character classes in: {}",
        groups[1].regex
    );

    let compiled1 = groups[0].compile().unwrap();
    assert!(compiled1.is_match(&entries[0]));
    assert!(compiled1.is_match(&entries[1]));
    assert!(compiled1.is_match(&entries[2]));

    let compiled2 = groups[1].compile().unwrap();
    assert!(compiled2.is_match(&entries[3]));
    assert!(compiled2.is_match(&entries[4]));
}

#[test]
fn test_pattern_group_compile() {
    let group = PatternGroup {
        regex: "test [[:digit:]]+".to_string(),
        matching_indices: vec![0, 1],
        match_count: 2,
    };

    let compiled = group.compile().unwrap();
    assert!(compiled.is_match("test 123"));
    assert!(!compiled.is_match("test abc"));
}

#[test]
fn test_group_generation_anchors_and_matches() {
    let entries = vec![
        "app: User alice logged in id=123".to_string(),
        "app: User bob logged in id=456".to_string(),
        "app: User charlie logged in id=789".to_string(),
    ];

    let groups = group_and_generate(&entries, 2).unwrap();
    assert_eq!(groups.len(), 1);

    let group = &groups[0];
    assert!(group.regex.contains("[[:digit:]]"));
    assert!(group.regex.contains("[[:alnum:]_]"));

    let compiled = group.compile().unwrap();
    for entry in entries {
        assert!(compiled.is_match(&entry));
    }
}

#[test]
fn test_modern_format_conversion() {
    let group = PatternGroup {
        regex: "^pam_unix\\(sudo:session\\): session [[:alnum:]_]+ for user [[:alnum:]_]+$".to_string(),
        matching_indices: vec![0, 1, 2],
        match_count: 3,
    };

    let modern = group.modern_format();
    assert!(modern.contains(r"\w+"));
    assert!(!modern.contains("[[:alnum:]_]"));
}

#[test]
fn test_grex_output_for_sample_lines() {
    let entries = vec![
        "pam_unix(sudo:session): session opened for user root(uid=0) by root(uid=1000)".to_string(),
        "pam_unix(sudo:session): session closed for user root".to_string(),
    ];

    let groups = group_and_generate(&entries, 2).unwrap();
    assert_eq!(groups.len(), 1);
    assert_eq!(groups[0].match_count, 2);
    assert_eq!(groups[0].matching_indices, vec![0, 1]);
}

#[test]
fn groups_below_the_minimum_are_dropped_and_sorted_by_count() {
    let entries = vec![
        "a: one 1".to_string(),
        "b: two 2".to_string(),
        "b: two 3".to_string(),
        "c: x".to_string(),
        "c: y".to_string(),
        "c: z".to_string(),
    ];
    let groups = group_and_generate(&entries, 2).unwrap();
    assert_eq!(groups.len(), 2);
    assert_eq!(groups[0].match_count, 3);
    assert_eq!(groups[0].matching_indices, vec![3, 4, 5]);
    assert_eq!(groups[1].match_count, 2);
    assert_eq!(groups[1].matching_indices, vec![1, 2]);
    for g in &groups {
        assert!(g.match_count >= 2);
        assert_eq!(g.match_count, g.matching_indices.len());
        let re = g.compile().unwrap();
        for &i in &g.matching_indices {
            assert!(re.is_match(&entries[i]));
        }
    }
    assert!(group_and_generate(&entries, 4).unwrap().is_empty());
}

#[test]
fn display_shows_count_and_regex() {
    let group = PatternGroup {
        regex: "^x [[:digit:]]+$".to_string(),
        matching_indices: vec![0, 1, 2, 3, 4, 5, 6, 7, 8, 9, 10, 11],
        match_count: 12,
    };
    assert_eq!(group.display(), "[12 matches] ^x [[:digit:]]+$");
    assert_eq!(group.modern_format(), "^x \\d+$");
}

#[test]
fn groups_follow_the_generated_regex() {
    let entries = vec![
        "app: user 12 logged in".to_string(),
        "other line".to_string(),
        "app: user 7 logged in".to_string(),
        "app: user x logged in".to_string(),
    ];
    let idx = vec![0usize, 2, 3];
    let group = group_from_regex(&entries, &idx, 2, "^app: user \\d+ logged in$").unwrap();
    assert_eq!(group.regex, "^app: user [[:digit:]]+ logged in$");
    assert_eq!(group.matching_indices, vec![0, 2]);
    assert_eq!(group.match_count, 2);
    assert!(group_from_regex(&entries, &idx, 3, "^app: user \\d+ logged in$").is_none());
    assert!(group_from_regex(&entries, &idx, 1, "(unclosed").is_none());
    assert!(group_from_regex(&entries, &idx, 4, "^app").is_none());
}

#[test]
fn generated_groups_are_disjoint_and_ordered() {
    let entries: Vec<String> = vec![
        "sshd: accepted key for alice",
        "cron: job 1 started",
        "sshd: accepted key for bob",
        "cron: job 2 started",
        "cron: job 3 started",
        "lonely line without a prefix",
    ]
    .into_iter()
    .map(|s| s.to_string())
    .collect();
    let groups = group_and_generate(&entries, 2).unwrap();
    assert_eq!(groups.len(), 2);
    assert!(groups[0].match_count >= groups[1].match_count);
    let mut seen = Vec::new();
    for g in &groups {
        assert!(g.matching_indices.windows(2).all(|w| w[0] < w[1]));
        for &i in &g.matching_indices {
            assert!(i < entries.len());
            assert!(!seen.contains(&i));
            seen.push(i);
        }
    }
}

#[test]
fn group_messages_in_index_order() {
    let entries: Vec<String> = vec!["a", "b", "c", "d"].into_iter().map(|s| s.to_string()).collect();
    assert_eq!(group_messages(&entries, &vec![3, 0, 2]), vec!["d".to_string(), "a".to_string(), "c".to_string()]);
    assert!(group_messages(&entries, &vec![]).is_empty());
}
