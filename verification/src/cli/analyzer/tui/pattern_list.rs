//! The lines of the pattern list box.
use vstd::prelude::*;

use crate::text::{owned, push_str, string_from_chars};

verus! {

/// The pattern list box: the patterns, which one is selected, and how the box is shown.
pub struct PatternList<'a> {
    items: &'a [String],
    selected: usize,
    focused: bool,
    wrap: bool,
    h_scroll: usize,
}

/// The lines of the list: each pattern behind `> ` when selected (and
/// highlighted) or two spaces; a single dimmed notice when there are none.
pub open spec fn list_lines(items: Seq<Seq<char>>, selected: usize) -> Seq<(Seq<char>, bool)> {
    if items.len() == 0 {
        seq![("No patterns available"@, false)]
    } else {
        Seq::new(
            items.len(),
            |i: int|
                if i == selected {
                    ("> "@ + items[i], true)
                } else {
                    ("  "@ + items[i], false)
                },
        )
    }
}

impl<'a> PatternList<'a> {
    /// The patterns shown.
    pub closed spec fn item_views(self) -> Seq<Seq<char>> {
        self.items@.map_values(|s: String| s@)
    }

    /// The index of the selected pattern.
    pub closed spec fn selected_index(self) -> usize {
        self.selected
    }

    /// Whether the box has the focus.
    pub closed spec fn has_focus(self) -> bool {
        self.focused
    }

    /// Whether long lines wrap.
    pub closed spec fn wraps(self) -> bool {
        self.wrap
    }

    /// Horizontal scroll, in columns, when not wrapping.
    pub closed spec fn scroll(self) -> usize {
        self.h_scroll
    }

    /// Whether the box has the focus.
    pub fn is_focused(&self) -> (r: bool)
        ensures
            r == self.has_focus(),
    {
        self.focused
    }

    /// Whether long lines wrap.
    pub fn is_wrapping(&self) -> (r: bool)
        ensures
            r == self.wraps(),
    {
        self.wrap
    }

    /// Horizontal scroll, in columns, when not wrapping.
    pub fn horizontal_scroll(&self) -> (r: usize)
        ensures
            r == self.scroll(),
    {
        self.h_scroll
    }

    /// Create the list box.
    pub fn new(items: &'a [String], selected: usize, focused: bool, wrap: bool, h_scroll: usize) -> (r: Self)
        ensures
            r.item_views() == items@.map_values(|s: String| s@),
            r.selected_index() == selected,
            r.has_focus() == focused,
            r.wraps() == wrap,
            r.scroll() == h_scroll,
    {
        PatternList { items, selected, focused, wrap, h_scroll }
    }

    /// The lines of the list, each with whether it is highlighted.
    pub fn build_items(&self) -> (r: Vec<(String, bool)>)
        ensures
            r@.map_values(|l: (String, bool)| (l.0@, l.1)) == list_lines(
                self.item_views(),
                self.selected_index(),
            ),
    {
        let ghost items = self.item_views();
        let mut r: Vec<(String, bool)> = Vec::new();
        if self.items.len() == 0 {
            r.push((owned("No patterns available"), false));
            assert(r@.map_values(|l: (String, bool)| (l.0@, l.1)) =~= list_lines(items, self.selected));
            return r;
        }
        let mut i: usize = 0;
        while i < self.items.len()
            invariant
                i <= self.items@.len(),
                items == self.items@.map_values(|s: String| s@),
                r@.len() == i,
                forall|k: int|
                    0 <= k < i ==> (#[trigger] r@[k]).0@ == (if k == self.selected {
                        "> "@ + items[k]
                    } else {
                        "  "@ + items[k]
                    }) && r@[k].1 == (k == self.selected),
            decreases self.items.len() - i,
        {
            let mut line: Vec<char> = Vec::new();
            let selected = i == self.selected;
            if selected {
                push_str(&mut line, "> ");
            } else {
                push_str(&mut line, "  ");
            }
            push_str(&mut line, self.items[i].as_str());
            r.push((string_from_chars(&line), selected));
            i = i + 1;
        }
        assert(r@.map_values(|l: (String, bool)| (l.0@, l.1)) =~= list_lines(items, self.selected));
        r
    }
}

} // verus!
