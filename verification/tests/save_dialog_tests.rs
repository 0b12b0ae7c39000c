use logcheck_fluent_bit_filter::cli::analyzer::rule_writer::RuleCategory;
use logcheck_fluent_bit_filter::cli::analyzer::tui::save_dialog::SaveDialog;
use logcheck_fluent_bit_filter::cli::analyzer::tui::screen::matches_text;

#[test]
fn test_save_dialog_creation() {
    let dialog = SaveDialog::new("^test pattern$".to_string());
    assert_eq!(dialog.pattern(), "^test pattern$");
    assert_eq!(dialog.selected_category(), RuleCategory::Server);
    assert!(!dialog.is_editing());
}

#[test]
fn test_category_navigation() {
    let mut dialog = SaveDialog::new("pattern".to_string());

    assert_eq!(dialog.selected_category(), RuleCategory::Server);

    dialog.category_left();
    assert_eq!(dialog.selected_category(), RuleCategory::Violations);

    dialog.category_left();
    assert_eq!(dialog.selected_category(), RuleCategory::Violations);

    dialog.category_right();
    assert_eq!(dialog.selected_category(), RuleCategory::Server);

    dialog.category_right();
    assert_eq!(dialog.selected_category(), RuleCategory::Workstation);

    dialog.category_right();
    assert_eq!(dialog.selected_category(), RuleCategory::Local);

    dialog.category_right();
    assert_eq!(dialog.selected_category(), RuleCategory::Local);
}

#[test]
fn test_pattern_editing() {
    let mut dialog = SaveDialog::new("test".to_string());

    assert!(!dialog.is_editing());

    dialog.start_edit();
    assert!(dialog.is_editing());
    assert_eq!(dialog.cursor_position(), 4);

    dialog.add_char('!');
    assert_eq!(dialog.pattern(), "test!");

    dialog.backspace();
    assert_eq!(dialog.pattern(), "test");

    dialog.stop_edit();
    assert!(!dialog.is_editing());
}

#[test]
fn test_cursor_movement() {
    let mut dialog = SaveDialog::new("abc".to_string());
    dialog.start_edit();

    assert_eq!(dialog.cursor_position(), 3);

    dialog.cursor_left();
    assert_eq!(dialog.cursor_position(), 2);

    dialog.cursor_left();
    assert_eq!(dialog.cursor_position(), 1);

    dialog.cursor_left();
    assert_eq!(dialog.cursor_position(), 0);

    dialog.cursor_left();
    assert_eq!(dialog.cursor_position(), 0);

    dialog.cursor_right();
    assert_eq!(dialog.cursor_position(), 1);

    dialog.cursor_right();
    dialog.cursor_right();
    assert_eq!(dialog.cursor_position(), 3);

    dialog.cursor_right();
    assert_eq!(dialog.cursor_position(), 3);
}

#[test]
fn test_insert_at_cursor() {
    let mut dialog = SaveDialog::new("ac".to_string());
    dialog.start_edit();

    dialog.cursor_left();
    dialog.add_char('b');

    assert_eq!(dialog.pattern(), "abc");
    assert_eq!(dialog.cursor_position(), 2);
}

#[test]
fn test_delete_operations() {
    let mut dialog = SaveDialog::new("abcd".to_string());
    dialog.start_edit();

    dialog.backspace();
    assert_eq!(dialog.pattern(), "abc");
    assert_eq!(dialog.cursor_position(), 3);

    dialog.cursor_left();
    dialog.cursor_left();
    assert_eq!(dialog.cursor_position(), 1);

    dialog.delete();
    assert_eq!(dialog.pattern(), "ac");
    assert_eq!(dialog.cursor_position(), 1);
}

#[test]
fn editing_keys_do_nothing_outside_edit_mode() {
    let mut dialog = SaveDialog::new("ab".to_string());
    dialog.add_char('x');
    dialog.backspace();
    dialog.delete();
    dialog.cursor_left();
    assert_eq!(dialog.pattern(), "ab");
    assert_eq!(dialog.cursor_position(), 2);
}

#[test]
fn dialog_texts() {
    let mut dialog = SaveDialog::new("ab".to_string());
    assert_eq!(dialog.display_pattern(), "ab");
    assert_eq!(dialog.pattern_title(), "Regex Pattern (e to edit):");
    let items = dialog.category_items();
    assert_eq!(items.len(), 4);
    assert_eq!(items[1], (" ● ", "Server", true));
    assert_eq!(items[0], (" ○ ", "Violations", false));
    dialog.start_edit();
    assert_eq!(dialog.display_pattern(), "ab│");
    dialog.cursor_left();
    assert_eq!(dialog.display_pattern(), "a│b");
    assert_eq!(dialog.help_text(), "←/→ to move cursor, Esc when done editing");
    assert_eq!(matches_text(7), "Matches: 7 entries");
    assert_eq!(RuleCategory::all().len(), 4);
    assert_eq!(RuleCategory::Workstation.display_name(), "Workstation");
}

#[test]
fn backspace_undoes_a_typed_character() {
    let mut dialog = SaveDialog::new("tést".to_string());
    dialog.start_edit();
    let end = dialog.cursor_position();
    dialog.add_char('!');
    assert_eq!(dialog.pattern(), "tést!");
    dialog.backspace();
    assert_eq!(dialog.pattern(), "tést");
    assert_eq!(dialog.cursor_position(), end);
    dialog.cursor_left();
    dialog.cursor_left();
    dialog.add_char('x');
    assert_eq!(dialog.pattern(), "téxst");
    dialog.backspace();
    assert_eq!(dialog.pattern(), "tést");
    assert_eq!(dialog.cursor_position(), end - 2);
}
