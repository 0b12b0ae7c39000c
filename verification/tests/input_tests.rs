use logcheck_fluent_bit_filter::cli::args::{analysis_group_size, InputSource, JournaldMode};
use logcheck_fluent_bit_filter::cli::input::{
    create_input, strip_line_ending, JournaldInput, LogSource, StdinInput,
};

#[test]
fn test_create_stdin_input() {
    let source = InputSource::Stdin;
    let input = create_input(&source).unwrap();
    assert_eq!(input.source_name(), "stdin");
}

#[test]
fn test_create_journald_input() {
    let source = InputSource::Journald {
        unit: Some("sshd".to_string()),
        follow: false,
        lines: Some(10),
        mode: None,
    };
    let input = create_input(&source).unwrap();
    assert!(input.source_name().contains("journald"));
}

#[test]
fn test_stdin_source_name() {
    let input = StdinInput::new();
    assert_eq!(input.source_name(), "stdin");
}

#[test]
fn test_journald_source_description() {
    let input1 = JournaldInput::new(None, false, None).unwrap();
    assert_eq!(input1.source_name(), "journald");

    let input2 = JournaldInput::new(Some("sshd".to_string()), false, None).unwrap();
    assert_eq!(input2.source_name(), "journald(unit=sshd)");

    let input3 = JournaldInput::new(None, true, None).unwrap();
    assert_eq!(input3.source_name(), "journald(follow)");

    let input4 = JournaldInput::new(Some("sshd".to_string()), true, None).unwrap();
    assert_eq!(input4.source_name(), "journald(unit=sshd,follow)");

    let input5 = JournaldInput::new(None, false, Some(50)).unwrap();
    assert_eq!(input5.source_name(), "journald(lines=50)");

    let input6 = JournaldInput::new(Some("cron".to_string()), false, Some(7)).unwrap();
    assert_eq!(input6.source_name(), "journald(unit=cron,lines=7)");
}

#[test]
fn file_source_is_named_by_its_path() {
    let input = create_input(&InputSource::File { path: "/var/log/syslog".to_string() }).unwrap();
    assert_eq!(input.source_name(), "/var/log/syslog");
    assert_eq!(input, LogSource::File { path: "/var/log/syslog".to_string() });
}

#[test]
fn journalctl_arguments() {
    let j = JournaldInput::new(Some("sshd".to_string()), true, Some(100)).unwrap();
    assert_eq!(
        j.journalctl_args(),
        vec!["--output=json", "--unit", "sshd", "--follow", "--lines", "100", "--no-pager"]
    );
    let j = JournaldInput::new(None, false, None).unwrap();
    assert_eq!(j.journalctl_args(), vec!["--output=json", "--no-pager"]);
}

#[test]
fn journal_lines_give_their_message() {
    let j = JournaldInput::new(None, false, None).unwrap();
    assert_eq!(j.entry_from_line("{\"MESSAGE\":\"hello\",\"PID\":\"1\"}\n".to_string()), "hello");
    assert_eq!(j.entry_from_line("{\"PID\":\"1\"}\r\n".to_string()), "{\"PID\":\"1\"}");
    assert_eq!(j.entry_from_line("{\"MESSAGE\":[1,2]}".to_string()), "{\"MESSAGE\":[1,2]}");
    assert_eq!(j.entry_from_line("not json\n".to_string()), "not json");
}

#[test]
fn line_endings_are_stripped() {
    assert_eq!(strip_line_ending("abc\r\n".to_string()), "abc");
    assert_eq!(strip_line_ending("abc\n".to_string()), "abc");
    assert_eq!(strip_line_ending("abc\r".to_string()), "abc\r");
    assert_eq!(strip_line_ending("abc".to_string()), "abc");
    assert_eq!(strip_line_ending("\n".to_string()), "");
    let s = StdinInput::new();
    assert_eq!(s.entry_from_line("x y\n".to_string()), "x y");
}

#[test]
fn analysis_mode_is_asked_for_by_the_journal_source() {
    let source = InputSource::Journald {
        unit: None,
        follow: false,
        lines: None,
        mode: Some(JournaldMode::Analyze { min_group_size: 3 }),
    };
    assert_eq!(analysis_group_size(&source), Some(3));
    assert_eq!(analysis_group_size(&InputSource::Stdin), None);
}
