//! The categories under which the analyzer saves a new rule.
use vstd::prelude::*;

verus! {

/// The rule categories a saved rule can go to, in the order the save dialog offers them.
#[derive(Debug, Clone, Copy, PartialEq, Eq, Structural)]
pub enum RuleCategory {
    Violations,
    Server,
    Workstation,
    Local,
}

/// The categories in the order the save dialog offers them.
pub open spec fn category_order() -> Seq<RuleCategory> {
    seq![RuleCategory::Violations, RuleCategory::Server, RuleCategory::Workstation, RuleCategory::Local]
}

impl RuleCategory {
    /// All categories, in the order the save dialog offers them.
    pub fn all() -> (r: Vec<RuleCategory>)
        ensures
            r@ == category_order(),
    {
        let mut r: Vec<RuleCategory> = Vec::new();
        r.push(RuleCategory::Violations);
        r.push(RuleCategory::Server);
        r.push(RuleCategory::Workstation);
        r.push(RuleCategory::Local);
        assert(r@ =~= category_order());
        r
    }

    /// The name shown for the category.
    pub fn display_name(&self) -> (r: &'static str)
        ensures
            r@ == match *self {
                RuleCategory::Violations => "Violations"@,
                RuleCategory::Server => "Server"@,
                RuleCategory::Workstation => "Workstation"@,
                RuleCategory::Local => "Local"@,
            },
    {
        match self {
            RuleCategory::Violations => "Violations",
            RuleCategory::Server => "Server",
            RuleCategory::Workstation => "Workstation",
            RuleCategory::Local => "Local",
        }
    }
}

} // verus!
