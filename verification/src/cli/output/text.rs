//! The text output format: a category tag, then the message, each with the
//! color that the category calls for when colors are on.
use vstd::prelude::*;

use crate::cli::args::ShowMode;
use crate::cli::output::FilteredEntry;
use crate::rules::RuleCategory;
use crate::text::owned;

verus! {

/// The terminal style of a piece of text.
#[derive(Debug, Clone, Copy, PartialEq, Eq, Structural)]
pub enum TextStyle {
    Normal,
    Red,
    RedBold,
    Yellow,
    YellowBold,
    Green,
    Blue,
    Cyan,
    CyanBold,
}

/// Text with the style it is shown in.
#[derive(Debug, Clone)]
pub struct StyledText {
    pub text: String,
    pub style: TextStyle,
}

impl StyledText {
    /// The text without its style.
    pub fn to_string(&self) -> (r: String)
        ensures
            r@ == self.text@,
    {
        self.text.clone()
    }
}

/// One output line: the tag, a space, then the message.
#[derive(Debug, Clone)]
pub struct StyledLine {
    pub tag: StyledText,
    pub message: StyledText,
}

/// The tag written before a message of the category.
pub open spec fn category_tag(c: RuleCategory) -> Seq<char> {
    match c {
        RuleCategory::Cracking => "[CRACKING]"@,
        RuleCategory::CrackingIgnore => "[CRACKING-IGNORE]"@,
        RuleCategory::Violations => "[VIOLATION]"@,
        RuleCategory::ViolationsIgnore => "[VIOLATION-IGNORE]"@,
        RuleCategory::SystemEvents => "[SYSTEM]"@,
        RuleCategory::Workstation => "[WORKSTATION]"@,
        RuleCategory::Server => "[SERVER]"@,
        RuleCategory::Local => "[LOCAL]"@,
    }
}

/// The style of a category's tag: red and bold for cracking attempts, yellow and
/// bold for violations, green for the system, server and workstation events, blue
/// for local rules, plain otherwise or without colors.
pub open spec fn tag_style(c: RuleCategory, use_color: bool) -> TextStyle {
    if !use_color {
        TextStyle::Normal
    } else {
        match c {
            RuleCategory::Cracking => TextStyle::RedBold,
            RuleCategory::Violations => TextStyle::YellowBold,
            RuleCategory::SystemEvents | RuleCategory::Server | RuleCategory::Workstation => TextStyle::Green,
            RuleCategory::Local => TextStyle::Blue,
            _ => TextStyle::Normal,
        }
    }
}

/// The style of a message: red for cracking attempts, yellow for violations,
/// cyan when unmatched, plain otherwise or without colors.
pub open spec fn message_style(c: Option<RuleCategory>, use_color: bool) -> TextStyle {
    if !use_color {
        TextStyle::Normal
    } else {
        match c {
            Some(RuleCategory::Cracking) => TextStyle::Red,
            Some(RuleCategory::Violations) => TextStyle::Yellow,
            Some(_) => TextStyle::Normal,
            None => TextStyle::Cyan,
        }
    }
}

/// The tag of an unmatched entry.
pub open spec fn unmatched_tag() -> Seq<char> {
    "[UNMATCHED]"@
}

/// The line written for an entry: the category's tag (or the unmatched tag,
/// cyan and bold with colors), then the message.
pub open spec fn entry_line(e: FilteredEntry, use_color: bool) -> (Seq<char>, TextStyle, Seq<char>, TextStyle) {
    match e.category {
        Some(c) => (category_tag(c), tag_style(c, use_color), e.message@, message_style(e.category, use_color)),
        None => (unmatched_tag(), if use_color { TextStyle::CyanBold } else { TextStyle::Normal }, e.message@, message_style(e.category, use_color)),
    }
}

/// The parts of a styled line.
pub open spec fn line_view(l: StyledLine) -> (Seq<char>, TextStyle, Seq<char>, TextStyle) {
    (l.tag.text@, l.tag.style, l.message.text@, l.message.style)
}

/// Text-based output formatter; the lines it produced wait in it until taken.
pub struct TextOutput {
    /// Which entries are written.
    pub show_mode: ShowMode,
    /// Whether colors are used.
    pub use_color: bool,
    /// The lines written and not yet taken.
    lines: Vec<StyledLine>,
}

impl TextOutput {
    /// The lines written and not yet taken.
    pub closed spec fn pending(self) -> Seq<(Seq<char>, TextStyle, Seq<char>, TextStyle)> {
        self.lines@.map_values(|l: StyledLine| line_view(l))
    }

    /// Which entries are written.
    pub closed spec fn mode(self) -> ShowMode {
        self.show_mode
    }

    /// Whether colors are used.
    pub closed spec fn colored(self) -> bool {
        self.use_color
    }

    /// Create a new text output formatter.
    pub fn new(show_mode: ShowMode, use_color: bool) -> (r: Self)
        ensures
            r.mode() == show_mode,
            r.colored() == use_color,
            r.pending().len() == 0,
    {
        TextOutput { show_mode, use_color, lines: Vec::new() }
    }

    /// Format a rule category with appropriate color.
    pub fn format_category(&self, category: &RuleCategory) -> (r: StyledText)
        ensures
            r.text@ == category_tag(*category),
            r.style == tag_style(*category, self.colored()),
    {
        let tag = match category {
            RuleCategory::Cracking => "[CRACKING]",
            RuleCategory::CrackingIgnore => "[CRACKING-IGNORE]",
            RuleCategory::Violations => "[VIOLATION]",
            RuleCategory::ViolationsIgnore => "[VIOLATION-IGNORE]",
            RuleCategory::SystemEvents => "[SYSTEM]",
            RuleCategory::Workstation => "[WORKSTATION]",
            RuleCategory::Server => "[SERVER]",
            RuleCategory::Local => "[LOCAL]",
        };
        let style = if self.use_color {
            match category {
                RuleCategory::Cracking => TextStyle::RedBold,
                RuleCategory::Violations => TextStyle::YellowBold,
                RuleCategory::SystemEvents | RuleCategory::Server | RuleCategory::Workstation => TextStyle::Green,
                RuleCategory::Local => TextStyle::Blue,
                _ => TextStyle::Normal,
            }
        } else {
            TextStyle::Normal
        };
        StyledText { text: owned(tag), style }
    }

    /// Format a message with appropriate color.
    pub fn format_message(&self, message: &str, category: &Option<RuleCategory>) -> (r: StyledText)
        ensures
            r.text@ == message@,
            r.style == message_style(*category, self.colored()),
    {
        let style = if self.use_color {
            match category {
                Some(RuleCategory::Cracking) => TextStyle::Red,
                Some(RuleCategory::Violations) => TextStyle::Yellow,
                Some(_) => TextStyle::Normal,
                None => TextStyle::Cyan,
            }
        } else {
            TextStyle::Normal
        };
        StyledText { text: owned(message), style }
    }

    /// Write an entry if the show mode shows it.
    pub fn write_entry(&mut self, entry: &FilteredEntry)
        ensures
            final(self).mode() == old(self).mode(),
            final(self).colored() == old(self).colored(),
            !entry.spec_should_show(old(self).mode()) ==> final(self).pending() == old(
                self,
            ).pending(),
            entry.spec_should_show(old(self).mode()) ==> final(self).pending() == old(
                self,
            ).pending().push(entry_line(*entry, old(self).colored())),
    {
        if !entry.should_show(&self.show_mode) {
            return;
        }
        let tag = match &entry.category {
            Some(category) => self.format_category(category),
            None => {
                let style = if self.use_color {
                    TextStyle::CyanBold
                } else {
                    TextStyle::Normal
                };
                StyledText { text: owned("[UNMATCHED]"), style }
            },
        };
        let message = self.format_message(entry.message.as_str(), &entry.category);
        let line = StyledLine { tag, message };
        self.lines.push(line);
        assert(self.lines@.map_values(|l: StyledLine| line_view(l)) =~= old(self).pending().push(
            line_view(line),
        ));
    }

    /// Hand out the lines written so far, oldest first.
    pub fn take_lines(&mut self) -> (r: Vec<StyledLine>)
        ensures
            r@.map_values(|l: StyledLine| line_view(l)) == old(self).pending(),
            final(self).pending().len() == 0,
            final(self).mode() == old(self).mode(),
            final(self).colored() == old(self).colored(),
    {
        let mut taken: Vec<StyledLine> = Vec::new();
        std::mem::swap(&mut taken, &mut self.lines);
        assert(self.lines@.map_values(|l: StyledLine| line_view(l)) =~= Seq::<
            (Seq<char>, TextStyle, Seq<char>, TextStyle),
        >::empty());
        taken
    }
}

} // verus!
