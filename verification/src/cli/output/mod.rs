//! Filtered entries and the formats they are written in.
pub mod json;
pub mod text;

use vstd::prelude::*;

use crate::cli::args::ShowMode;
use crate::rules::RuleCategory;

verus! {

/// A log entry after filtering.
#[derive(Debug, Clone)]
pub struct FilteredEntry {
    /// The log message as it was read.
    pub message: String,
    /// The matched rule category, if any.
    pub category: Option<RuleCategory>,
    /// Whether the entry matched any rule.
    pub matched: bool,
}

impl FilteredEntry {
    /// An entry is matched exactly when it has a category.
    pub open spec fn wf(self) -> bool {
        self.matched == self.category is Some
    }

    /// Whether the entry is shown in the given mode: all of them, only the
    /// cracking attempts and violations, or only the unmatched ones.
    pub open spec fn spec_should_show(self, mode: ShowMode) -> bool {
        match mode {
            ShowMode::All => true,
            ShowMode::Violations => self.category == Some(RuleCategory::Cracking) || self.category
                == Some(RuleCategory::Violations),
            ShowMode::Unmatched => !self.matched,
        }
    }

    /// Create a new filtered entry; it is matched exactly when it has a category.
    pub fn new(message: String, category: Option<RuleCategory>) -> (r: Self)
        ensures
            r.message == message,
            r.category == category,
            r.matched == category is Some,
            r.wf(),
    {
        let matched = match category {
            Some(_) => true,
            None => false,
        };
        FilteredEntry { message, category, matched }
    }

    /// Check if this entry should be shown based on the show mode.
    pub fn should_show(&self, show_mode: &ShowMode) -> (b: bool)
        ensures
            b == self.spec_should_show(*show_mode),
    {
        match show_mode {
            ShowMode::All => true,
            ShowMode::Violations => match self.category {
                Some(RuleCategory::Cracking) | Some(RuleCategory::Violations) => true,
                _ => false,
            },
            ShowMode::Unmatched => !self.matched,
        }
    }
}

/// Every entry is shown in the `All` mode; an entry that a rule matched is never
/// shown in the `Unmatched` mode, and one that no rule matched never in the
/// `Violations` mode.
pub proof fn lemma_show_modes(e: FilteredEntry)
    requires
        e.wf(),
    ensures
        e.spec_should_show(ShowMode::All),
        e.spec_should_show(ShowMode::Unmatched) <==> e.category is None,
        e.spec_should_show(ShowMode::Violations) ==> e.category is Some,
        !(e.spec_should_show(ShowMode::Violations) && e.spec_should_show(ShowMode::Unmatched)),
{
}

} // verus!
