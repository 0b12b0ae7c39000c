//! The JSON output format: one compact JSON object per shown entry.
use vstd::prelude::*;

use crate::cli::args::ShowMode;
use crate::cli::output::FilteredEntry;
use crate::json_api::{json_quoted, opt_view};
use crate::json_text::{bool_text, json_object, member_views, null_text, object_text, JsonScalar};
use crate::rules::{category_name, RuleCategory};
use crate::filter::{annotation, is_ignore_category, lemma_annotation_kinds};
use crate::text::{owned, views};

verus! {

/// Writing an entry failed.
#[derive(Debug, Clone, Copy, PartialEq, Eq, Structural)]
pub enum OutputError {
    /// A string of the entry could not be serialized.
    Serialization,
}

/// The rule type reported for a category: the cracking and violation kinds by
/// name, every ignore category as `ignore`, and `unmatched` without one.
pub open spec fn json_rule_type(c: Option<RuleCategory>) -> Seq<char> {
    match c {
        Some(RuleCategory::Cracking) => "cracking"@,
        Some(RuleCategory::CrackingIgnore) => "cracking_ignore"@,
        Some(RuleCategory::Violations) => "violations"@,
        Some(RuleCategory::ViolationsIgnore) => "violations_ignore"@,
        Some(_) => "ignore"@,
        None => "unmatched"@,
    }
}

/// The rule type written for an entry is `violations` exactly for a violation,
/// `ignore` exactly for the four ignore categories (paranoid, workstation,
/// server, local), and `unmatched` exactly without a category; for every
/// category it is the rule type the filter's annotated record gives.
pub proof fn lemma_json_rule_types(c: Option<RuleCategory>)
    ensures
        json_rule_type(c) == "violations"@ <==> c == Some(RuleCategory::Violations),
        json_rule_type(c) == "ignore"@ <==> (c matches Some(k) && is_ignore_category(k)),
        json_rule_type(c) == "unmatched"@ <==> c is None,
        c is Some ==> json_rule_type(c) == annotation(c).0,
{
    reveal_strlit("cracking");
    reveal_strlit("cracking_ignore");
    reveal_strlit("violations");
    reveal_strlit("violations_ignore");
    reveal_strlit("ignore");
    reveal_strlit("unmatched");
    lemma_annotation_kinds(c);
    assert("violations_ignore"@.len() != "violations"@.len());
    assert("cracking"@[0] != "violations"@[0]);
    assert("cracking_ignore"@[0] != "violations"@[0]);
    assert("ignore"@[0] != "violations"@[0]);
    assert("unmatched"@[0] != "violations"@[0]);
    assert("cracking"@[0] != "ignore"@[0]);
    assert("cracking_ignore"@[0] != "ignore"@[0]);
    assert("violations_ignore"@[0] != "ignore"@[0]);
    assert("unmatched"@[0] != "ignore"@[0]);
    assert("cracking"@[0] != "unmatched"@[0]);
    assert("cracking_ignore"@[0] != "unmatched"@[0]);
    assert("violations_ignore"@[0] != "unmatched"@[0]);
}

/// The members of an entry's JSON object, in the order they are written: the
/// message, whether it matched, the category name (or null) and the rule type,
/// the order in which the README shows the JSON output lines.
pub open spec fn json_entry_members(e: FilteredEntry) -> Seq<(Seq<char>, Option<Seq<char>>)> {
    seq![
        ("message"@, json_quoted(e.message@)),
        ("matched"@, Some(bool_text(e.matched))),
        ("category"@, match e.category {
            Some(c) => json_quoted(category_name(c)),
            None => Some(null_text()),
        }),
        ("rule_type"@, json_quoted(json_rule_type(e.category))),
    ]
}

/// The rule type reported for a category.
pub fn rule_type_name(c: &Option<RuleCategory>) -> (r: &'static str)
    ensures
        r@ == json_rule_type(*c),
{
    match c {
        Some(RuleCategory::Cracking) => "cracking",
        Some(RuleCategory::CrackingIgnore) => "cracking_ignore",
        Some(RuleCategory::Violations) => "violations",
        Some(RuleCategory::ViolationsIgnore) => "violations_ignore",
        Some(_) => "ignore",
        None => "unmatched",
    }
}

/// JSON-based output formatter; the lines it produced wait in it until taken.
pub struct JsonOutput {
    /// Which entries are written.
    pub show_mode: ShowMode,
    /// The lines written and not yet taken.
    lines: Vec<String>,
}

impl JsonOutput {
    /// The lines written and not yet taken.
    pub closed spec fn pending(self) -> Seq<Seq<char>> {
        views(self.lines@)
    }

    /// Which entries are written.
    pub closed spec fn mode(self) -> ShowMode {
        self.show_mode
    }

    /// Create a new JSON output formatter.
    pub fn new(show_mode: ShowMode) -> (r: Self)
        ensures
            r.mode() == show_mode,
            r.pending().len() == 0,
    {
        JsonOutput { show_mode, lines: Vec::new() }
    }

    /// The JSON line of an entry; `None` when a string cannot be serialized.
    pub fn render_entry(entry: &FilteredEntry) -> (r: Option<String>)
        ensures
            opt_view(r) == object_text(json_entry_members(*entry)),
    {
        let mut members: Vec<(String, JsonScalar)> = Vec::new();
        let category = match &entry.category {
            Some(c) => JsonScalar::Str(owned(c.name())),
            None => JsonScalar::Null,
        };
        members.push((owned("message"), JsonScalar::Str(entry.message.clone())));
        members.push((owned("matched"), JsonScalar::Bool(entry.matched)));
        members.push((owned("category"), category));
        members.push((owned("rule_type"), JsonScalar::Str(owned(rule_type_name(&entry.category)))));
        assert(member_views(members@) =~= json_entry_members(*entry));
        json_object(&members)
    }

    /// Write an entry if the show mode shows it.
    pub fn write_entry(&mut self, entry: &FilteredEntry) -> (r: Result<(), OutputError>)
        ensures
            final(self).mode() == old(self).mode(),
            !entry.spec_should_show(old(self).mode()) ==> r is Ok && final(self).pending() == old(
                self,
            ).pending(),
            entry.spec_should_show(old(self).mode()) ==> match object_text(
                json_entry_members(*entry),
            ) {
                Some(t) => r is Ok && final(self).pending() == old(self).pending().push(t),
                None => r is Err && final(self).pending() == old(self).pending(),
            },
    {
        if !entry.should_show(&self.show_mode) {
            return Ok(());
        }
        match Self::render_entry(entry) {
            Some(line) => {
                self.lines.push(line);
                assert(views(self.lines@) =~= old(self).pending().push(line@));
                Ok(())
            },
            None => Err(OutputError::Serialization),
        }
    }

    /// Hand out the lines written so far, oldest first.
    pub fn take_lines(&mut self) -> (r: Vec<String>)
        ensures
            views(r@) == old(self).pending(),
            final(self).pending().len() == 0,
            final(self).mode() == old(self).mode(),
    {
        let mut taken: Vec<String> = Vec::new();
        std::mem::swap(&mut taken, &mut self.lines);
        assert(views(self.lines@) =~= Seq::<Seq<char>>::empty());
        taken
    }
}

} // verus!
