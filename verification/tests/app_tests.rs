use logcheck_fluent_bit_filter::cli::analyzer::pattern_grouper::PatternGroup;
use logcheck_fluent_bit_filter::cli::analyzer::rule_writer::RuleCategory;
use logcheck_fluent_bit_filter::cli::analyzer::tui::app::{
    build_alternation, build_regex_from_spans, find_word_span, inject_cursor, is_word_char,
    replacement_for_span, App, AppState, EditMode, EditSpan, FocusBox, ReplacementType,
};
use logcheck_fluent_bit_filter::cli::analyzer::tui::keys::{AppAction, Command, KeyInput};
use logcheck_fluent_bit_filter::cli::analyzer::tui::pattern_list::PatternList;
use logcheck_fluent_bit_filter::cli::analyzer::tui::preview::preview_line;

fn sample_app() -> App {
    let entries = vec![
        "app: User alice logged in id=123".to_string(),
        "app: User bob logged in id=456".to_string(),
        "other line".to_string(),
    ];
    let groups = vec![
        PatternGroup {
            regex: "^app: User [[:alnum:]_]+ logged in id=[[:digit:]]+$".to_string(),
            matching_indices: vec![0, 1],
            match_count: 2,
        },
        PatternGroup { regex: "^other line$".to_string(), matching_indices: vec![2], match_count: 1 },
    ];
    App::new(groups, &entries)
}

#[test]
fn word_characters_and_spans() {
    assert!(is_word_char('a') && is_word_char('7') && is_word_char('=') && is_word_char('@'));
    assert!(!is_word_char(' ') && !is_word_char(',') && !is_word_char('é'));
    let line = "User alice logged in";
    assert_eq!(find_word_span(line, 6), Some((5, 10)));
    assert_eq!(find_word_span(line, 4), None);
    assert_eq!(find_word_span(line, 0), Some((0, 4)));
    assert_eq!(find_word_span(line, 100), None);
    assert_eq!(inject_cursor("abc", 1), "a│bc");
    assert_eq!(inject_cursor("abc", 9), "abc│");
}

#[test]
fn regex_from_marked_spans() {
    let line = "User alice id=123";
    let spans = vec![
        EditSpan { start: 5, end: 10, replacement: ReplacementType::Word },
        EditSpan { start: 14, end: 17, replacement: ReplacementType::Digit },
    ];
    assert_eq!(build_regex_from_spans(line, &spans, &vec![]), "^User \\w+ id=\\d+$");
    assert_eq!(build_regex_from_spans("a.b", &vec![], &vec![]), "^a\\.b$");
    let alt = EditSpan { start: 5, end: 8, replacement: ReplacementType::Alternation };
    let samples = vec!["User bob x".to_string(), "User amy y".to_string(), "User bob z".to_string(), "no".to_string()];
    assert_eq!(build_alternation(&alt, &samples), "(?:amy|bob)");
    assert_eq!(build_alternation(&alt, &vec![]), ".*");
    assert_eq!(replacement_for_span(&EditSpan { start: 0, end: 1, replacement: ReplacementType::NonSpace }, &samples), "\\S+");
}

#[test]
fn navigation_keys() {
    let mut app = sample_app();
    assert_eq!(app.state, AppState::Browsing);
    assert_eq!(app.handle_key(KeyInput::Down, false), AppAction::Continue);
    assert_eq!(app.selected_pattern, 1);
    app.handle_key(KeyInput::Char('j'), false);
    assert_eq!(app.selected_pattern, 1);
    app.handle_key(KeyInput::Up, false);
    assert_eq!(app.selected_pattern, 0);
    app.handle_key(KeyInput::Tab, false);
    assert_eq!(app.focused, FocusBox::Preview);
    app.handle_key(KeyInput::Down, false);
    assert_eq!(app.preview_scroll, 1);
    app.handle_key(KeyInput::Char('w'), false);
    assert!(app.preview_wrap);
    assert_eq!(app.handle_key(KeyInput::Char('q'), false), AppAction::Quit);
    assert_eq!(app.command_for(KeyInput::Char('c'), true), Command::Quit);
    assert_eq!(app.command_for(KeyInput::Char('c'), false), Command::Nothing);
}

#[test]
fn preview_shows_the_group_members() {
    let app = sample_app();
    assert_eq!(app.get_matching_entries(), vec!["app: User alice logged in id=123", "app: User bob logged in id=456"]);
    assert_eq!(app.current_match_count(), 2);
    assert_eq!(
        app.header_text(),
        "Logcheck Analyzer - 3 unmatched entries, 2 proposed patterns | Focus: patterns | w wrap | h/l scroll | space full | tab switch | e edit | m mark | r cycle | 1-5 set | t alt-src | x finish"
    );
    assert_eq!(app.pattern_items()[0], "[2 matches] ^app: User [[:alnum:]_]+ logged in id=[[:digit:]]+$");
}

#[test]
fn edit_mode_marks_spans_and_rebuilds_the_regex() {
    let mut app = sample_app();
    app.handle_key(KeyInput::Char('e'), false);
    assert_eq!(app.edit_mode, EditMode::Editing);
    assert_eq!(app.edit_regex.as_deref(), Some("app: User alice logged in id=123"));
    for _ in 0..10 {
        app.handle_key(KeyInput::Right, false);
    }
    assert_eq!(app.edit_cursor, 10);
    app.handle_key(KeyInput::Char('m'), false);
    assert_eq!(app.edit_spans.len(), 1);
    assert_eq!(app.edit_regex.as_deref(), Some("^app: User .* logged in id=123$"));
    app.handle_key(KeyInput::Char('2'), false);
    assert_eq!(app.edit_spans[0].replacement, ReplacementType::Word);
    assert_eq!(app.edit_regex.as_deref(), Some("^app: User \\w+ logged in id=123$"));
    assert_eq!(app.get_matching_entries(), vec!["app: User alice logged in id=123"]);
    app.handle_key(KeyInput::Char('r'), false);
    assert_eq!(app.edit_spans[0].replacement, ReplacementType::Digit);
    app.handle_key(KeyInput::Char('m'), false);
    assert!(app.edit_spans.is_empty());
    assert_eq!(app.edit_regex.as_deref(), Some("^app: User alice logged in id=123$"));
    app.handle_key(KeyInput::Char('x'), false);
    assert_eq!(app.edit_mode, EditMode::Select);
    assert_eq!(app.edit_regex, None);
}

#[test]
fn save_dialog_flow() {
    let mut app = sample_app();
    app.handle_key(KeyInput::Enter, false);
    assert_eq!(app.state, AppState::Saving);
    app.handle_key(KeyInput::Left, false);
    app.handle_key(KeyInput::Char('e'), false);
    app.handle_key(KeyInput::Char('!'), false);
    assert!(!app.command_breaks_text(Command::AddChar('x')));
    app.handle_key(KeyInput::Esc, false);
    match app.handle_key(KeyInput::Enter, false) {
        AppAction::SaveRule { category, pattern, match_count } => {
            assert_eq!(category, RuleCategory::Violations);
            assert_eq!(pattern, "^app: User [[:alnum:]_]+ logged in id=[[:digit:]]+$!");
            assert_eq!(match_count, 2);
        },
        other => panic!("unexpected action {:?}", other),
    }
    app.handle_key(KeyInput::Esc, false);
    assert_eq!(app.state, AppState::Browsing);
    assert!(app.save_dialog.is_none());
}

#[test]
fn modal_opens_and_closes() {
    let mut app = sample_app();
    app.handle_key(KeyInput::Char(' '), false);
    assert_eq!(app.state, AppState::Modal);
    assert_eq!(app.modal_line.as_deref(), Some("[2 matches] ^app: User [[:alnum:]_]+ logged in id=[[:digit:]]+$"));
    assert_eq!(app.modal_title(), "Pattern details");
    app.handle_key(KeyInput::Char('q'), false);
    assert_eq!(app.state, AppState::Modal);
    app.handle_key(KeyInput::Esc, false);
    assert_eq!(app.state, AppState::Browsing);
    assert_eq!(app.modal_line, None);
}

#[test]
fn pattern_list_lines() {
    let items = vec!["a".to_string(), "b".to_string()];
    let list = PatternList::new(&items, 1, true, false, 0);
    assert_eq!(list.build_items(), vec![("  a".to_string(), false), ("> b".to_string(), true)]);
    let empty: Vec<String> = vec![];
    let list = PatternList::new(&empty, 0, false, false, 0);
    assert_eq!(list.build_items(), vec![("No patterns available".to_string(), false)]);
    assert!(!list.is_focused());
}

#[test]
fn preview_lines_highlight_the_matches() {
    let re = regex::Regex::new(r"\d+").unwrap();
    assert_eq!(
        preview_line("id=12 and 345", Some(&re)),
        vec![
            ("id=".to_string(), false),
            ("12".to_string(), true),
            (" and ".to_string(), false),
            ("345".to_string(), true),
        ]
    );
    assert_eq!(preview_line("no digits", Some(&re)), vec![("no digits".to_string(), false)]);
    assert_eq!(preview_line("plain", None), vec![("plain".to_string(), false)]);
    let word = regex::Regex::new("é+").unwrap();
    assert_eq!(
        preview_line("aéé b", Some(&word)),
        vec![("a".to_string(), false), ("éé".to_string(), true), (" b".to_string(), false)]
    );
}
