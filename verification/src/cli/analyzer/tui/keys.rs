//! What a key press does in the analyzer: the command it stands for in the
//! current state, and the effect of that command.
use vstd::prelude::*;

use crate::cli::analyzer::rule_writer::{category_order, RuleCategory};
use crate::cli::analyzer::tui::app::{App, AppState, EditMode, FocusBox, ReplacementType};
use crate::cli::analyzer::tui::save_dialog::SaveDialog;
use crate::text::{byte_len, insert_at_byte, is_boundary, is_char_boundary, owned, remove_at_byte, str_byte_len};

verus! {

/// A key press, as the terminal reports it.
#[derive(Debug, Clone, Copy, PartialEq, Eq, Structural)]
pub enum KeyInput {
    Char(char),
    Esc,
    Tab,
    BackTab,
    Left,
    Right,
    Up,
    Down,
    PageUp,
    PageDown,
    Enter,
    Backspace,
    Delete,
    /// Any other key.
    Other,
}

/// What a key press asks for.
#[derive(Debug, Clone, Copy, PartialEq, Eq, Structural)]
pub enum Command {
    Quit,
    EnterEditMode,
    ExitEditMode,
    FocusNext,
    FocusPrev,
    ToggleWrap,
    MoveEditCursorLeft,
    MoveEditCursorRight,
    ScrollLeft,
    ScrollRight,
    NextPattern,
    PreviousPattern,
    ScrollPreviewDown,
    ScrollPreviewUp,
    OpenSaveDialog,
    ToggleSpan,
    CycleSpan,
    SetSpan(ReplacementType),
    ToggleAlternationSource,
    OpenModal,
    CloseModal,
    /// Save dialog: stop editing the pattern.
    StopEdit,
    /// Save dialog: close it without saving.
    CancelSave,
    /// Save dialog: start editing the pattern.
    StartEdit,
    CategoryLeft,
    CategoryRight,
    CursorLeft,
    CursorRight,
    AddChar(char),
    Backspace,
    Delete,
    /// Save dialog: save the pattern.
    Save,
    /// Nothing to do.
    Nothing,
}

/// What the program around the analyzer has to do after a key press.
#[derive(Debug, Clone, PartialEq, Eq)]
pub enum AppAction {
    /// Keep going.
    Continue,
    /// Leave the analyzer.
    Quit,
    /// Save the pattern as a rule of the category; on failure the dialog is cancelled.
    SaveRule { category: RuleCategory, pattern: String, match_count: usize },
}

/// The command of a key in the browsing state.
pub open spec fn browsing_command(app: App, key: KeyInput, ctrl: bool) -> Command {
    let editing = app.edit_mode == EditMode::Editing;
    let on_patterns = app.focused == FocusBox::Patterns;
    let edit_on_patterns = editing && on_patterns;
    match key {
        KeyInput::Char('q') | KeyInput::Esc => Command::Quit,
        KeyInput::Char('c') if ctrl => Command::Quit,
        KeyInput::Char('e') => if on_patterns { Command::EnterEditMode } else { Command::Nothing },
        KeyInput::Char('x') => if editing { Command::ExitEditMode } else { Command::Nothing },
        KeyInput::Tab => Command::FocusNext,
        KeyInput::BackTab => Command::FocusPrev,
        KeyInput::Char('w') => Command::ToggleWrap,
        KeyInput::Left | KeyInput::Char('h') => if editing {
            Command::MoveEditCursorLeft
        } else {
            Command::ScrollLeft
        },
        KeyInput::Right | KeyInput::Char('l') => if editing {
            Command::MoveEditCursorRight
        } else {
            Command::ScrollRight
        },
        KeyInput::Down | KeyInput::Char('j') => if on_patterns {
            Command::NextPattern
        } else {
            Command::ScrollPreviewDown
        },
        KeyInput::Up | KeyInput::Char('k') => if on_patterns {
            Command::PreviousPattern
        } else {
            Command::ScrollPreviewUp
        },
        KeyInput::PageDown => if !on_patterns { Command::ScrollPreviewDown } else { Command::Nothing },
        KeyInput::PageUp => if !on_patterns { Command::ScrollPreviewUp } else { Command::Nothing },
        KeyInput::Enter => if on_patterns { Command::OpenSaveDialog } else { Command::Nothing },
        KeyInput::Char('m') => if edit_on_patterns { Command::ToggleSpan } else { Command::Nothing },
        KeyInput::Char('r') => if edit_on_patterns { Command::CycleSpan } else { Command::Nothing },
        KeyInput::Char('1') => if edit_on_patterns {
            Command::SetSpan(ReplacementType::Wildcard)
        } else {
            Command::Nothing
        },
        KeyInput::Char('2') => if edit_on_patterns {
            Command::SetSpan(ReplacementType::Word)
        } else {
            Command::Nothing
        },
        KeyInput::Char('3') => if edit_on_patterns {
            Command::SetSpan(ReplacementType::Digit)
        } else {
            Command::Nothing
        },
        KeyInput::Char('4') => if edit_on_patterns {
            Command::SetSpan(ReplacementType::NonSpace)
        } else {
            Command::Nothing
        },
        KeyInput::Char('5') => if edit_on_patterns {
            Command::SetSpan(ReplacementType::Alternation)
        } else {
            Command::Nothing
        },
        KeyInput::Char('t') => if edit_on_patterns {
            Command::ToggleAlternationSource
        } else {
            Command::Nothing
        },
        KeyInput::Char(' ') => Command::OpenModal,
        _ => Command::Nothing,
    }
}

/// The command of a key while the save dialog is open.
pub open spec fn saving_command(d: SaveDialog, key: KeyInput) -> Command {
    let editing = d.editing();
    match key {
        KeyInput::Esc => if editing { Command::StopEdit } else { Command::CancelSave },
        KeyInput::Char('e') => if !editing { Command::StartEdit } else { Command::Nothing },
        KeyInput::Left => if editing { Command::CursorLeft } else { Command::CategoryLeft },
        KeyInput::Right => if editing { Command::CursorRight } else { Command::CategoryRight },
        KeyInput::Char(c) => if editing { Command::AddChar(c) } else { Command::Nothing },
        KeyInput::Backspace => if editing { Command::Backspace } else { Command::Nothing },
        KeyInput::Delete => if editing { Command::Delete } else { Command::Nothing },
        KeyInput::Enter => if !editing { Command::Save } else { Command::Nothing },
        _ => Command::Nothing,
    }
}

/// The command a key press stands for in the current state (`ctrl`: the
/// control key is held).
pub open spec fn key_command(app: App, key: KeyInput, ctrl: bool) -> Command {
    match app.state {
        AppState::Browsing => browsing_command(app, key, ctrl),
        AppState::Modal => match key {
            KeyInput::Esc | KeyInput::Char(' ') => Command::CloseModal,
            _ => Command::Nothing,
        },
        AppState::Saving => match app.save_dialog {
            Some(d) => saving_command(d, key),
            None => Command::Nothing,
        },
    }
}

/// The dialog commands that would edit the pattern at a byte position that is
/// not a character boundary (inserting or removing a character there panics).
pub open spec fn command_breaks_text(app: App, c: Command) -> bool {
    match app.save_dialog {
        Some(d) => match c {
            Command::AddChar(_) => d.editing() && !is_boundary(d.pattern_view(), d.cursor()),
            Command::Backspace => d.editing() && d.cursor() > 0 && !(is_boundary(
                d.pattern_view(),
                d.cursor() - 1,
            ) && d.cursor() - 1 < byte_len(d.pattern_view())),
            Command::Delete => d.editing() && d.cursor() < byte_len(d.pattern_view()) && !is_boundary(
                d.pattern_view(),
                d.cursor(),
            ),
            _ => false,
        },
        None => false,
    }
}

/// The effect of a save dialog command on the dialog.
pub open spec fn dialog_step(d: SaveDialog, c: Command, e: SaveDialog) -> bool {
    let same_text = e.pattern_view() == d.pattern_view() && e.cursor() == d.cursor();
    match c {
        Command::StopEdit => !e.editing() && same_text && e.selected_index() == d.selected_index(),
        Command::StartEdit => e.editing() && e.cursor() == byte_len(d.pattern_view())
            && e.pattern_view() == d.pattern_view() && e.selected_index() == d.selected_index(),
        Command::CategoryLeft => e.selected_index() == (if d.selected_index() > 0 {
            d.selected_index() - 1
        } else {
            0
        }) && e.editing() == d.editing() && same_text,
        Command::CategoryRight => e.selected_index() == (if d.selected_index() < category_order().len()
            - 1 {
            d.selected_index() + 1
        } else {
            d.selected_index()
        }) && e.editing() == d.editing() && same_text,
        Command::CursorLeft => e.cursor() == (if d.editing() && d.cursor() > 0 {
            d.cursor() - 1
        } else {
            d.cursor()
        }) && e.pattern_view() == d.pattern_view() && e.editing() == d.editing()
            && e.selected_index() == d.selected_index(),
        Command::CursorRight => e.cursor() == (if d.editing() && d.cursor() < byte_len(
            d.pattern_view(),
        ) {
            d.cursor() + 1
        } else {
            d.cursor()
        }) && e.pattern_view() == d.pattern_view() && e.editing() == d.editing()
            && e.selected_index() == d.selected_index(),
        Command::AddChar(ch) => (if d.editing() {
            e.pattern_view() == insert_at_byte(d.pattern_view(), d.cursor(), ch) && e.cursor()
                == d.cursor() + 1
        } else {
            same_text
        }) && e.editing() == d.editing() && e.selected_index() == d.selected_index(),
        Command::Backspace => (if d.editing() && d.cursor() > 0 {
            e.pattern_view() == remove_at_byte(d.pattern_view(), d.cursor() - 1) && e.cursor()
                == d.cursor() - 1
        } else {
            same_text
        }) && e.editing() == d.editing() && e.selected_index() == d.selected_index(),
        Command::Delete => (if d.editing() && d.cursor() < byte_len(d.pattern_view()) {
            e.pattern_view() == remove_at_byte(d.pattern_view(), d.cursor())
        } else {
            e.pattern_view() == d.pattern_view()
        }) && e.cursor() == d.cursor() && e.editing() == d.editing() && e.selected_index()
            == d.selected_index(),
        _ => e == d,
    }
}

/// A command that works on the save dialog.
pub open spec fn is_dialog_command(c: Command) -> bool {
    match c {
        Command::StopEdit | Command::StartEdit | Command::CategoryLeft | Command::CategoryRight
        | Command::CursorLeft | Command::CursorRight | Command::AddChar(_) | Command::Backspace
        | Command::Delete => true,
        _ => false,
    }
}

/// The effect of a command on the state (for the commands other than saving and quitting).
pub open spec fn command_step(a: App, c: Command, b: App) -> bool {
    match c {
        Command::EnterEditMode => a.edit_mode_entered(b),
        Command::ExitEditMode => a.exited_edit_mode(b),
        Command::FocusNext | Command::FocusPrev => b == a.after_focus_next(),
        Command::ToggleWrap => b == a.after_toggle_wrap(),
        Command::MoveEditCursorLeft => b == a.after_move_edit_cursor_left(),
        Command::MoveEditCursorRight => b == a.after_move_edit_cursor_right(),
        Command::ScrollLeft => b == a.after_scroll_left(),
        Command::ScrollRight => b == a.after_scroll_right(),
        Command::NextPattern => b == a.after_next_pattern(),
        Command::PreviousPattern => b == a.after_previous_pattern(),
        Command::ScrollPreviewDown => b == a.after_scroll_preview_down(),
        Command::ScrollPreviewUp => b == a.after_scroll_preview_up(),
        Command::OpenSaveDialog => a.save_dialog_opened(b),
        Command::ToggleSpan => a.span_toggled(b),
        Command::CycleSpan => a.span_cycled(b),
        Command::SetSpan(r) => a.span_set(b, r),
        Command::ToggleAlternationSource => a.alternation_toggled(b),
        Command::OpenModal => a.modal_opened(b),
        Command::CloseModal => b == a.after_close_modal(),
        Command::CancelSave => b == a.after_cancel_save(),
        Command::Quit | Command::Save | Command::Nothing => b == a,
        _ => match a.save_dialog {
            Some(d) => b.save_dialog matches Some(e) && dialog_step(d, c, e) && b == (App {
                save_dialog: b.save_dialog,
                ..a
            }),
            None => b == a,
        },
    }
}

/// The match count of the selected pattern (0 when none is selected).
pub open spec fn selected_match_count(app: App) -> usize {
    if app.selected_pattern < app.patterns@.len() {
        app.patterns@[app.selected_pattern as int].match_count
    } else {
        0
    }
}

impl App {
    /// The command a key press stands for in the current state.
    pub fn command_for(&self, key: KeyInput, ctrl: bool) -> (c: Command)
        ensures
            c == key_command(*self, key, ctrl),
    {
        match self.state {
            AppState::Browsing => {
                let editing = self.edit_mode == EditMode::Editing;
                let on_patterns = self.focused == FocusBox::Patterns;
                let edit_on_patterns = editing && on_patterns;
                match key {
                    KeyInput::Char('q') | KeyInput::Esc => Command::Quit,
                    KeyInput::Char('c') if ctrl => Command::Quit,
                    KeyInput::Char('e') => if on_patterns {
                        Command::EnterEditMode
                    } else {
                        Command::Nothing
                    },
                    KeyInput::Char('x') => if editing {
                        Command::ExitEditMode
                    } else {
                        Command::Nothing
                    },
                    KeyInput::Tab => Command::FocusNext,
                    KeyInput::BackTab => Command::FocusPrev,
                    KeyInput::Char('w') => Command::ToggleWrap,
                    KeyInput::Left | KeyInput::Char('h') => if editing {
                        Command::MoveEditCursorLeft
                    } else {
                        Command::ScrollLeft
                    },
                    KeyInput::Right | KeyInput::Char('l') => if editing {
                        Command::MoveEditCursorRight
                    } else {
                        Command::ScrollRight
                    },
                    KeyInput::Down | KeyInput::Char('j') => if on_patterns {
                        Command::NextPattern
                    } else {
                        Command::ScrollPreviewDown
                    },
                    KeyInput::Up | KeyInput::Char('k') => if on_patterns {
                        Command::PreviousPattern
                    } else {
                        Command::ScrollPreviewUp
                    },
                    KeyInput::PageDown => if !on_patterns {
                        Command::ScrollPreviewDown
                    } else {
                        Command::Nothing
                    },
                    KeyInput::PageUp => if !on_patterns {
                        Command::ScrollPreviewUp
                    } else {
                        Command::Nothing
                    },
                    KeyInput::Enter => if on_patterns {
                        Command::OpenSaveDialog
                    } else {
                        Command::Nothing
                    },
                    KeyInput::Char('m') => if edit_on_patterns {
                        Command::ToggleSpan
                    } else {
                        Command::Nothing
                    },
                    KeyInput::Char('r') => if edit_on_patterns {
                        Command::CycleSpan
                    } else {
                        Command::Nothing
                    },
                    KeyInput::Char('1') => if edit_on_patterns {
                        Command::SetSpan(ReplacementType::Wildcard)
                    } else {
                        Command::Nothing
                    },
                    KeyInput::Char('2') => if edit_on_patterns {
                        Command::SetSpan(ReplacementType::Word)
                    } else {
                        Command::Nothing
                    },
                    KeyInput::Char('3') => if edit_on_patterns {
                        Command::SetSpan(ReplacementType::Digit)
                    } else {
                        Command::Nothing
                    },
                    KeyInput::Char('4') => if edit_on_patterns {
                        Command::SetSpan(ReplacementType::NonSpace)
                    } else {
                        Command::Nothing
                    },
                    KeyInput::Char('5') => if edit_on_patterns {
                        Command::SetSpan(ReplacementType::Alternation)
                    } else {
                        Command::Nothing
                    },
                    KeyInput::Char('t') => if edit_on_patterns {
                        Command::ToggleAlternationSource
                    } else {
                        Command::Nothing
                    },
                    KeyInput::Char(' ') => Command::OpenModal,
                    _ => Command::Nothing,
                }
            },
            AppState::Modal => match key {
                KeyInput::Esc | KeyInput::Char(' ') => Command::CloseModal,
                _ => Command::Nothing,
            },
            AppState::Saving => match &self.save_dialog {
                Some(d) => {
                    let editing = d.is_editing();
                    match key {
                        KeyInput::Esc => if editing {
                            Command::StopEdit
                        } else {
                            Command::CancelSave
                        },
                        KeyInput::Char('e') => if !editing {
                            Command::StartEdit
                        } else {
                            Command::Nothing
                        },
                        KeyInput::Left => if editing {
                            Command::CursorLeft
                        } else {
                            Command::CategoryLeft
                        },
                        KeyInput::Right => if editing {
                            Command::CursorRight
                        } else {
                            Command::CategoryRight
                        },
                        KeyInput::Char(c) => if editing {
                            Command::AddChar(c)
                        } else {
                            Command::Nothing
                        },
                        KeyInput::Backspace => if editing {
                            Command::Backspace
                        } else {
                            Command::Nothing
                        },
                        KeyInput::Delete => if editing {
                            Command::Delete
                        } else {
                            Command::Nothing
                        },
                        KeyInput::Enter => if !editing {
                            Command::Save
                        } else {
                            Command::Nothing
                        },
                        _ => Command::Nothing,
                    }
                },
                None => Command::Nothing,
            },
        }
    }

    /// Whether carrying out the command would insert or remove a character of
    /// the dialog's pattern at a byte position that is not a character boundary.
    pub fn command_breaks_text(&self, c: Command) -> (r: bool)
        ensures
            r == command_breaks_text(*self, c),
    {
        match &self.save_dialog {
            Some(d) => {
                let text = d.pattern();
                let cur = d.cursor_position();
                let editing = d.is_editing();
                match c {
                    Command::AddChar(_) => editing && !is_char_boundary(text, cur),
                    Command::Backspace => editing && cur > 0 && !(is_char_boundary(text, cur - 1)
                        && cur - 1 < str_byte_len(text)),
                    Command::Delete => editing && cur < str_byte_len(text) && !is_char_boundary(
                        text,
                        cur,
                    ),
                    _ => false,
                }
            },
            None => false,
        }
    }

    /// Carry out a save dialog command on the open dialog.
    fn apply_dialog_command(&mut self, c: Command)
        requires
            is_dialog_command(c),
            !command_breaks_text(*old(self), c),
        ensures
            command_step(*old(self), c, *final(self)),
    {
        match self.save_dialog.take() {
            Some(mut d) => {
                let ghost d0 = d;
                match c {
                    Command::StopEdit => d.stop_edit(),
                    Command::StartEdit => d.start_edit(),
                    Command::CategoryLeft => d.category_left(),
                    Command::CategoryRight => d.category_right(),
                    Command::CursorLeft => d.cursor_left(),
                    Command::CursorRight => d.cursor_right(),
                    Command::AddChar(ch) => d.add_char(ch),
                    Command::Backspace => d.backspace(),
                    Command::Delete => d.delete(),
                    _ => {},
                }
                self.save_dialog = Some(d);
                assert(dialog_step(d0, c, d));
            },
            None => {},
        }
    }

    /// Carry out a command; says what the program around has to do next.
    pub fn apply_command(&mut self, c: Command) -> (r: AppAction)
        requires
            old(self).wf(),
            !command_breaks_text(*old(self), c),
        ensures
            final(self).wf(),
            command_step(*old(self), c, *final(self)),
            c == Command::Quit ==> r == AppAction::Quit,
            c == Command::Save ==> match old(self).save_dialog {
                Some(d) => r matches AppAction::SaveRule { category, pattern, match_count } && category
                    == category_order()[d.selected_index()] && pattern@ == d.pattern_view()
                    && match_count == selected_match_count(*old(self)),
                None => r == AppAction::Continue,
            },
            c != Command::Quit && c != Command::Save ==> r == AppAction::Continue,
    {
        match c {
            Command::Quit => {
                return AppAction::Quit;
            },
            Command::Save => {
                return match &self.save_dialog {
                    Some(d) => {
                        let match_count = if self.selected_pattern < self.patterns.len() {
                            self.patterns[self.selected_pattern].match_count
                        } else {
                            0
                        };
                        AppAction::SaveRule {
                            category: d.selected_category(),
                            pattern: owned(d.pattern()),
                            match_count,
                        }
                    },
                    None => AppAction::Continue,
                };
            },
            Command::EnterEditMode => self.enter_edit_mode(),
            Command::ExitEditMode => self.exit_edit_mode(),
            Command::FocusNext => self.focus_next(),
            Command::FocusPrev => self.focus_prev(),
            Command::ToggleWrap => self.toggle_wrap(),
            Command::MoveEditCursorLeft => self.move_edit_cursor_left(),
            Command::MoveEditCursorRight => self.move_edit_cursor_right(),
            Command::ScrollLeft => self.scroll_left(),
            Command::ScrollRight => self.scroll_right(),
            Command::NextPattern => self.next_pattern(),
            Command::PreviousPattern => self.previous_pattern(),
            Command::ScrollPreviewDown => self.scroll_preview_down(),
            Command::ScrollPreviewUp => self.scroll_preview_up(),
            Command::OpenSaveDialog => self.open_save_dialog(),
            Command::ToggleSpan => self.toggle_span_at_cursor(),
            Command::CycleSpan => self.cycle_span_replacement(),
            Command::SetSpan(r) => self.set_span_replacement(r),
            Command::ToggleAlternationSource => self.toggle_alternation_source(),
            Command::OpenModal => self.open_modal_for_selected(),
            Command::CloseModal => self.close_modal(),
            Command::CancelSave => self.cancel_save(),
            Command::Nothing => {},
            _ => self.apply_dialog_command(c),
        }
        AppAction::Continue
    }

    /// Handle a key press (`ctrl`: the control key is held): carry out the
    /// command it stands for in the current state.
    pub fn handle_key(&mut self, key: KeyInput, ctrl: bool) -> (r: AppAction)
        requires
            old(self).wf(),
            !command_breaks_text(*old(self), key_command(*old(self), key, ctrl)),
        ensures
            final(self).wf(),
            command_step(*old(self), key_command(*old(self), key, ctrl), *final(self)),
            key_command(*old(self), key, ctrl) == Command::Quit ==> r == AppAction::Quit,
            key_command(*old(self), key, ctrl) == Command::Save ==> match old(self).save_dialog {
                Some(d) => r matches AppAction::SaveRule { category, pattern, match_count } && category
                    == category_order()[d.selected_index()] && pattern@ == d.pattern_view()
                    && match_count == selected_match_count(*old(self)),
                None => r == AppAction::Continue,
            },
            key_command(*old(self), key, ctrl) != Command::Quit && key_command(*old(self), key, ctrl)
                != Command::Save ==> r == AppAction::Continue,
    {
        let c = self.command_for(key, ctrl);
        self.apply_command(c)
    }
}

} // verus!
