//! State of the dialog that saves a pattern as a rule.
use vstd::prelude::*;

use crate::cli::analyzer::rule_writer::{category_order, RuleCategory};
use crate::text::{
    byte_len, insert_at_byte, insert_char_at_byte, is_boundary, lemma_byte_len_concat,
    lemma_byte_len_single, lemma_char_width_bounds, lemma_take_bytes_at_prefix,
    lemma_take_bytes_is_prefix,
    remove_at_byte, remove_char_at_byte, str_byte_len, take_bytes,
};

verus! {

/// State for the save dialog.
pub struct SaveDialog {
    /// Pattern being saved
    pattern: String,
    /// Currently selected category (an index into `RuleCategory::all()`)
    selected_category: usize,
    /// Whether pattern is being edited
    editing_pattern: bool,
    /// Current cursor position in pattern, in bytes (if editing)
    cursor_position: usize,
}

impl SaveDialog {
    #[verifier::type_invariant]
    spec fn selection_in_range(self) -> bool {
        self.selected_category < category_order().len()
    }

    /// The pattern's characters.
    pub closed spec fn pattern_view(self) -> Seq<char> {
        self.pattern@
    }

    /// The index of the selected category.
    pub closed spec fn selected_index(self) -> int {
        self.selected_category as int
    }

    /// Whether the pattern is being edited.
    pub closed spec fn editing(self) -> bool {
        self.editing_pattern
    }

    /// The cursor's byte position in the pattern.
    pub closed spec fn cursor(self) -> int {
        self.cursor_position as int
    }

    /// Create new save dialog with pattern: the cursor at its end, `Server` selected.
    pub fn new(pattern: String) -> (r: Self)
        ensures
            r.pattern_view() == pattern@,
            r.selected_index() == 1,
            !r.editing(),
            r.cursor() == byte_len(pattern@),
    {
        let n = str_byte_len(pattern.as_str());
        SaveDialog {
            cursor_position: n,
            pattern,
            selected_category: 1,  // Default to Server
            editing_pattern: false,
        }
    }

    /// The cursor's byte position in the pattern.
    pub fn cursor_position(&self) -> (r: usize)
        ensures
            r == self.cursor(),
    {
        self.cursor_position
    }

    /// Get currently selected category.
    pub fn selected_category(&self) -> (r: RuleCategory)
        ensures
            0 <= self.selected_index() < category_order().len(),
            r == category_order()[self.selected_index()],
    {
        proof {
            use_type_invariant(self);
        }
        let all = RuleCategory::all();
        all[self.selected_category]
    }

    /// Get the pattern to save.
    pub fn pattern(&self) -> (r: &str)
        ensures
            r@ == self.pattern_view(),
    {
        self.pattern.as_str()
    }

    /// Start editing the pattern, with the cursor at its end.
    pub fn start_edit(&mut self)
        ensures
            final(self).editing(),
            final(self).cursor() == byte_len(old(self).pattern_view()),
            final(self).pattern_view() == old(self).pattern_view(),
            final(self).selected_index() == old(self).selected_index(),
    {
        proof {
            use_type_invariant(&*self);
        }
        self.editing_pattern = true;
        self.cursor_position = str_byte_len(self.pattern.as_str());
    }

    /// Stop editing the pattern.
    pub fn stop_edit(&mut self)
        ensures
            !final(self).editing(),
            final(self).cursor() == old(self).cursor(),
            final(self).pattern_view() == old(self).pattern_view(),
            final(self).selected_index() == old(self).selected_index(),
    {
        proof {
            use_type_invariant(&*self);
        }
        self.editing_pattern = false;
    }

    /// Check if currently editing.
    pub fn is_editing(&self) -> (r: bool)
        ensures
            r == self.editing(),
    {
        self.editing_pattern
    }

    /// Move category selection left (stops at the first).
    pub fn category_left(&mut self)
        ensures
            final(self).selected_index() == if old(self).selected_index() > 0 {
                old(self).selected_index() - 1
            } else {
                0
            },
            final(self).editing() == old(self).editing(),
            final(self).cursor() == old(self).cursor(),
            final(self).pattern_view() == old(self).pattern_view(),
    {
        proof {
            use_type_invariant(&*self);
        }
        if self.selected_category > 0 {
            self.selected_category = self.selected_category - 1;
        }
    }

    /// Move category selection right (stops at the last).
    pub fn category_right(&mut self)
        ensures
            final(self).selected_index() == if old(self).selected_index() < category_order().len()
                - 1 {
                old(self).selected_index() + 1
            } else {
                old(self).selected_index()
            },
            final(self).editing() == old(self).editing(),
            final(self).cursor() == old(self).cursor(),
            final(self).pattern_view() == old(self).pattern_view(),
    {
        proof {
            use_type_invariant(&*self);
        }
        let max = RuleCategory::all().len() - 1;
        if self.selected_category < max {
            self.selected_category = self.selected_category + 1;
        }
    }

    /// The state after `add_char(c)`: when editing, `c` inserted at the cursor and
    /// the cursor one byte on; otherwise nothing changed.
    pub open spec fn added_char(self, c: char, new: SaveDialog) -> bool {
        &&& self.editing() ==> {
            &&& new.pattern_view() == insert_at_byte(self.pattern_view(), self.cursor(), c)
            &&& new.cursor() == self.cursor() + 1
        }
        &&& !self.editing() ==> new.pattern_view() == self.pattern_view() && new.cursor()
            == self.cursor()
        &&& new.editing() == self.editing()
        &&& new.selected_index() == self.selected_index()
    }

    /// The state after `backspace`: when editing with the cursor past the start,
    /// the character before the cursor removed and the cursor one byte back;
    /// otherwise nothing changed.
    pub open spec fn backspaced(self, new: SaveDialog) -> bool {
        &&& self.editing() && self.cursor() > 0 ==> {
            &&& new.pattern_view() == remove_at_byte(self.pattern_view(), self.cursor() - 1)
            &&& new.cursor() == self.cursor() - 1
        }
        &&& !(self.editing() && self.cursor() > 0) ==> new.pattern_view() == self.pattern_view()
            && new.cursor() == self.cursor()
        &&& new.editing() == self.editing()
        &&& new.selected_index() == self.selected_index()
    }

    /// Add a character to the pattern at the cursor (when editing), and move the
    /// cursor one byte on.
    pub fn add_char(&mut self, c: char)
        requires
            old(self).editing() ==> is_boundary(old(self).pattern_view(), old(self).cursor()),
        ensures
            old(self).added_char(c, *final(self)),
    {
        proof {
            use_type_invariant(&*self);
        }
        if self.editing_pattern {
            let s = self.pattern.as_str();
            let ghost t = take_bytes(s@, self.cursor_position as int);
            let inserted = insert_char_at_byte(s, self.cursor_position, c);
            let n = str_byte_len(inserted.as_str());
            proof {
                lemma_byte_len_concat(t + seq![c], s@.skip(t.len() as int));
                lemma_byte_len_concat(t, seq![c]);
                lemma_byte_len_single(c);
                lemma_char_width_bounds(c);
            }
            self.pattern = inserted;
            self.cursor_position = self.cursor_position + 1;
        }
    }

    /// Delete the character before the cursor (backspace).
    pub fn backspace(&mut self)
        requires
            old(self).editing() && old(self).cursor() > 0 ==> is_boundary(
                old(self).pattern_view(),
                old(self).cursor() - 1,
            ) && old(self).cursor() - 1 < byte_len(old(self).pattern_view()),
        ensures
            old(self).backspaced(*final(self)),
    {
        proof {
            use_type_invariant(&*self);
        }
        if self.editing_pattern && self.cursor_position > 0 {
            self.cursor_position = self.cursor_position - 1;
            let removed = remove_char_at_byte(self.pattern.as_str(), self.cursor_position);
            self.pattern = removed;
        }
    }

    /// Delete the character at the cursor (delete key).
    pub fn delete(&mut self)
        requires
            old(self).editing() && old(self).cursor() < byte_len(old(self).pattern_view())
                ==> is_boundary(old(self).pattern_view(), old(self).cursor()),
        ensures
            old(self).editing() && old(self).cursor() < byte_len(old(self).pattern_view())
                ==> final(self).pattern_view() == remove_at_byte(
                old(self).pattern_view(),
                old(self).cursor(),
            ),
            !(old(self).editing() && old(self).cursor() < byte_len(old(self).pattern_view()))
                ==> final(self).pattern_view() == old(self).pattern_view(),
            final(self).cursor() == old(self).cursor(),
            final(self).editing() == old(self).editing(),
            final(self).selected_index() == old(self).selected_index(),
    {
        proof {
            use_type_invariant(&*self);
        }
        if self.editing_pattern && self.cursor_position < str_byte_len(self.pattern.as_str()) {
            let removed = remove_char_at_byte(self.pattern.as_str(), self.cursor_position);
            self.pattern = removed;
        }
    }

    /// Move the cursor one byte left (when editing).
    pub fn cursor_left(&mut self)
        ensures
            final(self).cursor() == if old(self).editing() && old(self).cursor() > 0 {
                old(self).cursor() - 1
            } else {
                old(self).cursor()
            },
            final(self).pattern_view() == old(self).pattern_view(),
            final(self).editing() == old(self).editing(),
            final(self).selected_index() == old(self).selected_index(),
    {
        proof {
            use_type_invariant(&*self);
        }
        if self.editing_pattern && self.cursor_position > 0 {
            self.cursor_position = self.cursor_position - 1;
        }
    }

    /// Move the cursor one byte right (when editing), up to the pattern's end.
    pub fn cursor_right(&mut self)
        ensures
            final(self).cursor() == if old(self).editing() && old(self).cursor() < byte_len(
                old(self).pattern_view(),
            ) {
                old(self).cursor() + 1
            } else {
                old(self).cursor()
            },
            final(self).pattern_view() == old(self).pattern_view(),
            final(self).editing() == old(self).editing(),
            final(self).selected_index() == old(self).selected_index(),
    {
        proof {
            use_type_invariant(&*self);
        }
        if self.editing_pattern && self.cursor_position < str_byte_len(self.pattern.as_str()) {
            self.cursor_position = self.cursor_position + 1;
        }
    }
}

/// Deleting the character just inserted at a character boundary gives the text back.
pub proof fn lemma_remove_undoes_insert(s: Seq<char>, b: int, c: char)
    requires
        is_boundary(s, b),
    ensures
        is_boundary(insert_at_byte(s, b, c), b),
        b < byte_len(insert_at_byte(s, b, c)),
        remove_at_byte(insert_at_byte(s, b, c), b) == s,
{
    let t = take_bytes(s, b);
    lemma_take_bytes_is_prefix(s, b);
    let q = insert_at_byte(s, b, c);
    let rest = s.skip(t.len() as int);
    assert(q == t + seq![c] + rest);
    assert(q.take(t.len() as int) =~= t);
    lemma_take_bytes_at_prefix(q, t.len() as int);
    assert(take_bytes(q, b) == t);
    lemma_byte_len_concat(t + seq![c], rest);
    lemma_byte_len_concat(t, seq![c]);
    lemma_byte_len_single(c);
    lemma_char_width_bounds(c);
    assert(q.skip(t.len() as int + 1) =~= rest);
    assert(t + rest =~= s);
}

/// Backspace right after typing a character while editing undoes it: the
/// pattern and the cursor are as they were (and the backspace is allowed there).
pub proof fn lemma_backspace_undoes_add_char(d0: SaveDialog, c: char, d1: SaveDialog, d2: SaveDialog)
    requires
        d0.editing(),
        is_boundary(d0.pattern_view(), d0.cursor()),
        d0.added_char(c, d1),
        d1.backspaced(d2),
    ensures
        d1.cursor() > 0,
        is_boundary(d1.pattern_view(), d1.cursor() - 1),
        d1.cursor() - 1 < byte_len(d1.pattern_view()),
        d2.pattern_view() == d0.pattern_view(),
        d2.cursor() == d0.cursor(),
        d2.editing() && d2.selected_index() == d0.selected_index(),
{
    lemma_remove_undoes_insert(d0.pattern_view(), d0.cursor(), c);
}

} // verus!
