//! The texts the analyzer's screen shows for a state.
use vstd::prelude::*;

use crate::cli::analyzer::pattern_grouper::{spec_display, PatternGroup};
use crate::cli::analyzer::rule_writer::{category_order, RuleCategory};
use crate::cli::analyzer::tui::app::{
    cursor_mark, string_views, AlternationSource, App, EditMode, FocusBox, ModalSource,
};
use crate::cli::analyzer::tui::save_dialog::SaveDialog;
use crate::text::{
    byte_len, decimal, decimal_chars, insert_at_byte, insert_char_at_byte, is_boundary, owned,
    push_all, push_str, str_byte_len, string_from_chars,
};

verus! {

/// The header: how many entries and patterns there are, which box has the
/// focus, and the keys.
pub open spec fn spec_header_text(entries: nat, patterns: nat, focused: FocusBox) -> Seq<char> {
    "Logcheck Analyzer - "@ + decimal(entries) + " unmatched entries, "@ + decimal(patterns)
        + " proposed patterns | Focus: "@ + match focused {
        FocusBox::Patterns => "patterns"@,
        FocusBox::Preview => "preview"@,
    }
        + " | w wrap | h/l scroll | space full | tab switch | e edit | m mark | r cycle | 1-5 set | t alt-src | x finish"@
}

/// The lines of the pattern box: the edited regex (or `<no regex>`) in edit
/// mode, else each pattern as displayed.
pub open spec fn spec_pattern_items(app: App) -> Seq<Seq<char>> {
    if app.edit_mode == EditMode::Editing {
        seq![
            match app.edit_regex {
                Some(r) => r@,
                None => "<no regex>"@,
            },
        ]
    } else {
        pattern_displays(app.patterns@)
    }
}

/// The patterns as displayed.
pub open spec fn pattern_displays(ps: Seq<PatternGroup>) -> Seq<Seq<char>> {
    ps.map_values(|p: PatternGroup| spec_display(p.match_count, p.regex@))
}

/// The title of the edit box, naming where alternations come from.
pub open spec fn spec_edit_title(source: AlternationSource) -> Seq<char> {
    "Mark parts (m) | r cycle | 1-5 set | t alt-src ("@ + match source {
        AlternationSource::Group => "group"@,
        AlternationSource::PreviewMatches => "preview"@,
    } + ") | x finish"@
}

/// The title of the modal.
pub open spec fn spec_modal_title(source: Option<ModalSource>) -> Seq<char> {
    match source {
        Some(ModalSource::Patterns) => "Pattern details"@,
        Some(ModalSource::Preview) => "Preview line"@,
        None => "Details"@,
    }
}

impl App {
    /// The header text.
    pub fn header_text(&self) -> (r: String)
        ensures
            r@ == spec_header_text(self.log_entries@.len(), self.patterns@.len(), self.focused),
    {
        let mut out: Vec<char> = Vec::new();
        push_str(&mut out, "Logcheck Analyzer - ");
        let n = decimal_chars(self.log_entries.len());
        push_all(&mut out, &n);
        push_str(&mut out, " unmatched entries, ");
        let m = decimal_chars(self.patterns.len());
        push_all(&mut out, &m);
        push_str(&mut out, " proposed patterns | Focus: ");
        match self.focused {
            FocusBox::Patterns => push_str(&mut out, "patterns"),
            FocusBox::Preview => push_str(&mut out, "preview"),
        }
        push_str(
            &mut out,
            " | w wrap | h/l scroll | space full | tab switch | e edit | m mark | r cycle | 1-5 set | t alt-src | x finish",
        );
        let r = string_from_chars(&out);
        assert(r@ =~= spec_header_text(self.log_entries@.len(), self.patterns@.len(), self.focused));
        r
    }

    /// The lines of the pattern box.
    pub fn pattern_items(&self) -> (r: Vec<String>)
        ensures
            string_views(r@) == spec_pattern_items(*self),
    {
        let mut r: Vec<String> = Vec::new();
        if self.edit_mode == EditMode::Editing {
            match &self.edit_regex {
                Some(regex) => r.push(regex.clone()),
                None => r.push(owned("<no regex>")),
            }
            assert(string_views(r@) =~= spec_pattern_items(*self));
            return r;
        }
        let mut i: usize = 0;
        while i < self.patterns.len()
            invariant
                i <= self.patterns@.len(),
                self.edit_mode != EditMode::Editing,
                string_views(r@) == pattern_displays(self.patterns@.take(i as int)),
            decreases self.patterns.len() - i,
        {
            let line = self.patterns[i].display();
            let ghost before = r@;
            r.push(line);
            assert(self.patterns@.take(i + 1) =~= self.patterns@.take(i as int).push(self.patterns@[i as int]));
            assert(r@ =~= before.push(line));
            assert(line@ == spec_display(self.patterns@[i as int].match_count, self.patterns@[i as int].regex@));
            assert(string_views(r@) =~= string_views(before).push(line@));
            assert(pattern_displays(self.patterns@.take(i + 1)) =~= pattern_displays(self.patterns@.take(i as int)).push(line@));
            assert(string_views(r@) =~= pattern_displays(self.patterns@.take(i + 1)));
            i = i + 1;
        }
        assert(self.patterns@.take(self.patterns@.len() as int) =~= self.patterns@);
        r
    }

    /// The line highlighted in the pattern box: the only one in edit mode, else the selected pattern.
    pub fn list_selection(&self) -> (r: usize)
        ensures
            r == if self.edit_mode == EditMode::Editing {
                0
            } else {
                self.selected_pattern
            },
    {
        if self.edit_mode == EditMode::Editing {
            0
        } else {
            self.selected_pattern
        }
    }

    /// The match count the save dialog reports: the edited regex's matches in
    /// edit mode, else the selected pattern's count.
    pub fn dialog_match_count(&self) -> (r: usize)
        ensures
            r == if self.edit_mode == EditMode::Editing {
                self.spec_matching_entries().len() as usize
            } else if self.selected_pattern < self.patterns@.len() {
                self.patterns@[self.selected_pattern as int].match_count
            } else {
                0
            },
    {
        if self.edit_mode == EditMode::Editing {
            self.current_match_count()
        } else if self.selected_pattern < self.patterns.len() {
            self.patterns[self.selected_pattern].match_count
        } else {
            0
        }
    }

    /// The title of the modal.
    pub fn modal_title(&self) -> (r: &'static str)
        ensures
            r@ == spec_modal_title(self.modal_source),
    {
        match self.modal_source {
            Some(ModalSource::Patterns) => "Pattern details",
            Some(ModalSource::Preview) => "Preview line",
            None => "Details",
        }
    }

    /// The title of the edit box.
    pub fn edit_title(&self) -> (r: String)
        ensures
            r@ == spec_edit_title(self.alternation_source),
    {
        let mut out: Vec<char> = Vec::new();
        push_str(&mut out, "Mark parts (m) | r cycle | 1-5 set | t alt-src (");
        match self.alternation_source {
            AlternationSource::Group => push_str(&mut out, "group"),
            AlternationSource::PreviewMatches => push_str(&mut out, "preview"),
        }
        push_str(&mut out, ") | x finish");
        let r = string_from_chars(&out);
        assert(r@ =~= spec_edit_title(self.alternation_source));
        r
    }
}

/// The pattern as the dialog shows it: with the cursor mark at the cursor while
/// editing (at the end when the cursor is past it).
pub open spec fn spec_display_pattern(d: SaveDialog) -> Seq<char> {
    if d.editing() {
        if d.cursor() < byte_len(d.pattern_view()) {
            insert_at_byte(d.pattern_view(), d.cursor(), cursor_mark())
        } else {
            d.pattern_view().push(cursor_mark())
        }
    } else {
        d.pattern_view()
    }
}

/// The category choices: a filled or empty radio mark, the name, and whether it is selected.
pub open spec fn spec_category_items(selected: int) -> Seq<(Seq<char>, Seq<char>, bool)> {
    Seq::new(
        4,
        |i: int|
            (
                if i == selected {
                    " ● "@
                } else {
                    " ○ "@
                },
                match category_order()[i] {
                    RuleCategory::Violations => "Violations"@,
                    RuleCategory::Server => "Server"@,
                    RuleCategory::Workstation => "Workstation"@,
                    RuleCategory::Local => "Local"@,
                },
                i == selected,
            ),
    )
}

impl SaveDialog {
    /// The pattern as shown, with the cursor mark while editing.
    pub fn display_pattern(&self) -> (r: String)
        requires
            self.editing() && self.cursor() < byte_len(self.pattern_view()) ==> is_boundary(
                self.pattern_view(),
                self.cursor(),
            ),
        ensures
            r@ == spec_display_pattern(*self),
    {
        let text = self.pattern();
        if self.is_editing() {
            let cur = self.cursor_position();
            if cur < str_byte_len(text) {
                insert_char_at_byte(text, cur, '\u{2502}')
            } else {
                let mut out: Vec<char> = Vec::new();
                push_str(&mut out, text);
                out.push('\u{2502}');
                string_from_chars(&out)
            }
        } else {
            owned(text)
        }
    }

    /// The title above the pattern.
    pub fn pattern_title(&self) -> (r: &'static str)
        ensures
            r@ == if self.editing() {
                "Regex Pattern (editing, Esc to finish):"@
            } else {
                "Regex Pattern (e to edit):"@
            },
    {
        if self.is_editing() {
            "Regex Pattern (editing, Esc to finish):"
        } else {
            "Regex Pattern (e to edit):"
        }
    }

    /// The help line.
    pub fn help_text(&self) -> (r: &'static str)
        ensures
            r@ == if self.editing() {
                "←/→ to move cursor, Esc when done editing"@
            } else {
                "[Enter] Save   [e] Edit pattern   [←/→] Change category   [Esc] Cancel"@
            },
    {
        if self.is_editing() {
            "←/→ to move cursor, Esc when done editing"
        } else {
            "[Enter] Save   [e] Edit pattern   [←/→] Change category   [Esc] Cancel"
        }
    }

    /// The category choices.
    pub fn category_items(&self) -> (r: Vec<(&'static str, &'static str, bool)>)
        ensures
            r@.map_values(|t: (&'static str, &'static str, bool)| (t.0@, t.1@, t.2))
                == spec_category_items(self.selected_index()),
    {
        let all = RuleCategory::all();
        let sel = self.selected_category();
        let ghost idx = self.selected_index();
        let mut r: Vec<(&'static str, &'static str, bool)> = Vec::new();
        let mut i: usize = 0;
        while i < all.len()
            invariant
                all@ == category_order(),
                0 <= idx < 4,
                sel == category_order()[idx],
                i <= 4,
                r@.len() == i,
                forall|k: int|
                    0 <= k < i ==> (#[trigger] r@[k]).0@ == (if k == idx {
                        " ● "@
                    } else {
                        " ○ "@
                    }) && r@[k].1@ == match category_order()[k] {
                        RuleCategory::Violations => "Violations"@,
                        RuleCategory::Server => "Server"@,
                        RuleCategory::Workstation => "Workstation"@,
                        RuleCategory::Local => "Local"@,
                    } && r@[k].2 == (k == idx),
            decreases all.len() - i,
        {
            let selected = all[i] == sel;
            proof {
                assert(selected == (i == idx)) by {
                    if i != idx {
                        assert(category_order()[i as int] != category_order()[idx]);
                    }
                }
            }
            let radio = if selected {
                " ● "
            } else {
                " ○ "
            };
            r.push((radio, all[i].display_name(), selected));
            i = i + 1;
        }
        assert(r@.map_values(|t: (&'static str, &'static str, bool)| (t.0@, t.1@, t.2))
            =~= spec_category_items(idx));
        r
    }
}

/// The line that reports the number of matches.
pub open spec fn spec_matches_text(n: usize) -> Seq<char> {
    "Matches: "@ + decimal(n as nat) + " entries"@
}

/// The line that reports the number of matches.
pub fn matches_text(match_count: usize) -> (r: String)
    ensures
        r@ == spec_matches_text(match_count),
{
    let mut out: Vec<char> = Vec::new();
    push_str(&mut out, "Matches: ");
    let d = decimal_chars(match_count);
    push_all(&mut out, &d);
    push_str(&mut out, " entries");
    string_from_chars(&out)
}

} // verus!
