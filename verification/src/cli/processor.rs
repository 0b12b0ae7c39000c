//! Filtering entries one at a time against the rule database, with the running
//! statistics of a processing run.
use vstd::prelude::*;

use crate::cli::analyzer::UnmatchedCollector;
use crate::cli::output::FilteredEntry;
use crate::rules::{LogcheckDatabase, RuleCategory};
use crate::text::{decimal, decimal_chars, owned, push_all, push_str, string_from_chars, views};

verus! {

/// The sum of the counts.
pub open spec fn count_sum(s: Seq<(RuleCategory, usize)>) -> int
    decreases s.len(),
{
    if s.len() == 0 {
        0
    } else {
        count_sum(s.drop_last()) + s.last().1
    }
}

/// The count recorded for a category (0 when it has none).
pub open spec fn count_of(s: Seq<(RuleCategory, usize)>, c: RuleCategory) -> int
    decreases s.len(),
{
    if s.len() == 0 {
        0
    } else if s.last().0 == c {
        s.last().1 as int
    } else {
        count_of(s.drop_last(), c)
    }
}

/// The breakdown after one more entry of category `c`: its count goes up by one
/// where it is listed, or it is appended with a count of one.
pub open spec fn counted(old: Seq<(RuleCategory, usize)>, c: RuleCategory, new: Seq<(RuleCategory, usize)>) -> bool {
    ||| exists|i: int|
        0 <= i < old.len() && (#[trigger] old[i]).0 == c && new == old.update(
            i,
            (c, (old[i].1 + 1) as usize),
        )
    ||| (forall|k: int| 0 <= k < old.len() ==> (#[trigger] old[k]).0 != c) && new == old.push(
        (c, 1usize),
    )
}

/// Statistics about the processing run.
#[derive(Debug, Clone)]
pub struct ProcessingStats {
    /// Total number of entries processed.
    pub total: usize,
    /// Number of entries that matched rules.
    pub matched: usize,
    /// Number of entries that didn't match any rules.
    pub unmatched: usize,
    /// Breakdown by rule category, each category at most once, in the order first seen.
    pub by_category: Vec<(RuleCategory, usize)>,
}

impl ProcessingStats {
    /// The counts add up: every processed entry is matched or unmatched, the
    /// categories' counts add up to the matched ones, no category appears twice
    /// and each listed one was seen.
    pub open spec fn wf(self) -> bool {
        &&& self.total == self.matched + self.unmatched
        &&& count_sum(self.by_category@) == self.matched
        &&& forall|i: int, j: int|
            0 <= i < j < self.by_category@.len() ==> self.by_category@[i].0 != self.by_category@[j].0
        &&& forall|i: int| 0 <= i < self.by_category@.len() ==> self.by_category@[i].1 > 0
    }

    /// Create a new empty statistics struct.
    pub fn new() -> (r: Self)
        ensures
            r.wf(),
            r.total == 0 && r.matched == 0 && r.unmatched == 0,
            r.by_category@.len() == 0,
    {
        ProcessingStats { total: 0, matched: 0, unmatched: 0, by_category: Vec::new() }
    }

    /// Count one processed entry with its classification.
    pub fn record(&mut self, category: Option<RuleCategory>)
        requires
            old(self).wf(),
            old(self).total < usize::MAX,
        ensures
            final(self).wf(),
            final(self).total == old(self).total + 1,
            category is Some ==> final(self).matched == old(self).matched + 1
                && final(self).unmatched == old(self).unmatched,
            category is None ==> final(self).matched == old(self).matched && final(self).unmatched
                == old(self).unmatched + 1 && final(self).by_category@ == old(self).by_category@,
            category matches Some(c) ==> counted(old(self).by_category@, c, final(self).by_category@),
            forall|c: RuleCategory|
                #[trigger] count_of(final(self).by_category@, c) == count_of(old(self).by_category@, c)
                    + if category == Some(c) {
                    1int
                } else {
                    0int
                },
    {
        self.total = self.total + 1;
        match category {
            None => {
                self.unmatched = self.unmatched + 1;
            },
            Some(c) => {
                self.matched = self.matched + 1;
                self.bump(c);
            },
        }
    }

    /// Add one to the count of a category, appending it when it is new.
    fn bump(&mut self, c: RuleCategory)
        requires
            count_sum(old(self).by_category@) < usize::MAX,
            forall|i: int, j: int|
                0 <= i < j < old(self).by_category@.len()
                    ==> old(self).by_category@[i].0 != old(self).by_category@[j].0,
            forall|i: int| 0 <= i < old(self).by_category@.len() ==> old(self).by_category@[i].1 > 0,
        ensures
            count_sum(final(self).by_category@) == count_sum(old(self).by_category@) + 1,
            forall|i: int, j: int|
                0 <= i < j < final(self).by_category@.len() ==> final(self).by_category@[i].0
                    != final(self).by_category@[j].0,
            forall|i: int| 0 <= i < final(self).by_category@.len() ==> final(self).by_category@[i].1 > 0,
            forall|d: RuleCategory|
                #[trigger] count_of(final(self).by_category@, d) == count_of(old(self).by_category@, d)
                    + if d == c {
                    1int
                } else {
                    0int
                },
            final(self).total == old(self).total,
            final(self).matched == old(self).matched,
            final(self).unmatched == old(self).unmatched,
            counted(old(self).by_category@, c, final(self).by_category@),
    {
        let mut i: usize = 0;
        while i < self.by_category.len()
            invariant
                i <= self.by_category@.len(),
                self.by_category@ == old(self).by_category@,
                forall|k: int| 0 <= k < i ==> self.by_category@[k].0 != c,
                self.total == old(self).total,
                self.matched == old(self).matched,
                self.unmatched == old(self).unmatched,
                count_sum(old(self).by_category@) < usize::MAX,
                forall|a: int, b: int|
                    0 <= a < b < old(self).by_category@.len()
                        ==> old(self).by_category@[a].0 != old(self).by_category@[b].0,
                forall|a: int| 0 <= a < old(self).by_category@.len() ==> old(self).by_category@[a].1 > 0,
            decreases self.by_category.len() - i,
        {
            if self.by_category[i].0 == c {
                let n = self.by_category[i].1;
                proof {
                    lemma_count_bounds(old(self).by_category@, i as int);
                }
                self.by_category.set(i, (c, n + 1));
                proof {
                    lemma_count_update(old(self).by_category@, i as int, c);
                    assert(old(self).by_category@[i as int].0 == c);
                }
                return;
            }
            i = i + 1;
        }
        self.by_category.push((c, 1));
        proof {
            let s = old(self).by_category@;
            assert(self.by_category@.drop_last() =~= s);
            assert forall|d: RuleCategory| #[trigger] count_of(self.by_category@, d) == count_of(s, d)
                + if d == c { 1int } else { 0int } by {
                if d == c {
                    lemma_count_absent(s, c);
                }
            }
        }
    }

    /// The text of one category's line in the summary.
    pub fn category_label(category: RuleCategory) -> (r: &'static str)
        ensures
            r@ == category_label_text(category),
    {
        match category {
            RuleCategory::Cracking => "🔴 Cracking attempts",
            RuleCategory::CrackingIgnore => "🟠 Cracking (ignored)",
            RuleCategory::Violations => "🟡 Security violations",
            RuleCategory::ViolationsIgnore => "🟠 Violations (ignored)",
            RuleCategory::SystemEvents => "🟢 System events",
            RuleCategory::Workstation => "🔵 Workstation events",
            RuleCategory::Server => "🟣 Server events",
            RuleCategory::Local => "⚪ Local rules",
        }
    }
}

/// The label of a category in the summary.
pub open spec fn category_label_text(c: RuleCategory) -> Seq<char> {
    match c {
        RuleCategory::Cracking => "🔴 Cracking attempts"@,
        RuleCategory::CrackingIgnore => "🟠 Cracking (ignored)"@,
        RuleCategory::Violations => "🟡 Security violations"@,
        RuleCategory::ViolationsIgnore => "🟠 Violations (ignored)"@,
        RuleCategory::SystemEvents => "🟢 System events"@,
        RuleCategory::Workstation => "🔵 Workstation events"@,
        RuleCategory::Server => "🟣 Server events"@,
        RuleCategory::Local => "⚪ Local rules"@,
    }
}

proof fn lemma_count_bounds(s: Seq<(RuleCategory, usize)>, i: int)
    requires
        0 <= i < s.len(),
    ensures
        s[i].1 <= count_sum(s),
    decreases s.len(),
{
    if i < s.len() - 1 {
        lemma_count_bounds(s.drop_last(), i);
    }
    lemma_count_nonneg(s.drop_last());
}

proof fn lemma_count_nonneg(s: Seq<(RuleCategory, usize)>)
    ensures
        count_sum(s) >= 0,
    decreases s.len(),
{
    if s.len() > 0 {
        lemma_count_nonneg(s.drop_last());
    }
}

proof fn lemma_count_absent(s: Seq<(RuleCategory, usize)>, c: RuleCategory)
    requires
        forall|k: int| 0 <= k < s.len() ==> s[k].0 != c,
    ensures
        count_of(s, c) == 0,
    decreases s.len(),
{
    if s.len() > 0 {
        lemma_count_absent(s.drop_last(), c);
    }
}

/// Adding one to the count at `i` (whose category is `c`, listed once) adds one
/// to the sum and to the count of `c` only.
proof fn lemma_count_update(s: Seq<(RuleCategory, usize)>, i: int, c: RuleCategory)
    requires
        0 <= i < s.len(),
        s[i].0 == c,
        s[i].1 + 1 <= usize::MAX,
        forall|a: int, b: int| 0 <= a < b < s.len() ==> s[a].0 != s[b].0,
    ensures
        count_sum(s.update(i, (c, (s[i].1 + 1) as usize))) == count_sum(s) + 1,
        forall|d: RuleCategory|
            #[trigger] count_of(s.update(i, (c, (s[i].1 + 1) as usize)), d) == count_of(s, d) + if d
                == c {
                1int
            } else {
                0int
            },
    decreases s.len(),
{
    let t = s.update(i, (c, (s[i].1 + 1) as usize));
    if i == s.len() - 1 {
        assert(t.drop_last() =~= s.drop_last());
        assert forall|d: RuleCategory| #[trigger] count_of(t, d) == count_of(s, d) + if d == c {
            1int
        } else {
            0int
        } by {}
    } else {
        let d0 = s.drop_last();
        assert forall|a: int, b: int| 0 <= a < b < d0.len() implies d0[a].0 != d0[b].0 by {
            assert(d0[a] == s[a] && d0[b] == s[b]);
        }
        lemma_count_update(d0, i, c);
        assert(t.drop_last() =~= d0.update(i, (c, (s[i].1 + 1) as usize)));
        assert(s[s.len() - 1].0 != s[i].0);
        assert(t.last() == s.last());
        let u = d0.update(i, (c, (s[i].1 + 1) as usize));
        assert forall|d: RuleCategory| #[trigger] count_of(t, d) == count_of(s, d) + if d == c {
            1int
        } else {
            0int
        } by {
            assert(count_of(u, d) == count_of(d0, d) + if d == c {
                1int
            } else {
                0int
            });
        }
    }
}

/// How many leading entries have a count of at least `n`.
pub open spec fn count_position(sorted: Seq<(RuleCategory, usize)>, n: usize) -> int
    decreases sorted.len(),
{
    if sorted.len() == 0 {
        0
    } else if sorted[0].1 >= n {
        1 + count_position(sorted.drop_first(), n)
    } else {
        0
    }
}

/// Stable sort by decreasing count.
pub open spec fn sort_by_count_desc(s: Seq<(RuleCategory, usize)>) -> Seq<(RuleCategory, usize)>
    decreases s.len(),
{
    if s.len() == 0 {
        seq![]
    } else {
        let t = sort_by_count_desc(s.drop_last());
        t.insert(count_position(t, s.last().1), s.last())
    }
}

/// The line of one category in the summary.
pub open spec fn breakdown_line(e: (RuleCategory, usize)) -> Seq<char> {
    "  "@ + category_label_text(e.0) + ": "@ + decimal(e.1 as nat)
}

/// The rule under the summary's title.
pub open spec fn summary_rule() -> Seq<char> {
    "━━━━━━━━━━━━━━━━━━━━━━━━━━━━━━━━━━━━━━━━"@
}

/// The summary of a run: a blank line and the title naming the source, a rule,
/// the totals, and, when anything matched, a blank line and the count of each
/// category, largest first.
pub open spec fn spec_summary_lines(stats: ProcessingStats, source: Seq<char>) -> Seq<Seq<char>> {
    seq![
        seq![],
        "📊 Processing Summary for "@ + source,
        summary_rule(),
        "Total entries processed: "@ + decimal(stats.total as nat),
        "Matched entries: "@ + decimal(stats.matched as nat),
        "Unmatched entries: "@ + decimal(stats.unmatched as nat),
    ] + if stats.by_category@.len() == 0 {
        seq![]
    } else {
        seq![seq![], "Breakdown by category:"@] + sort_by_count_desc(stats.by_category@).map_values(
            |e: (RuleCategory, usize)| breakdown_line(e),
        )
    }
}

proof fn lemma_count_position(s: Seq<(RuleCategory, usize)>, n: usize, j: int)
    requires
        0 <= j <= s.len(),
        forall|i: int| 0 <= i < j ==> s[i].1 >= n,
        j == s.len() || s[j].1 < n,
    ensures
        count_position(s, n) == j,
    decreases j,
{
    if j > 0 {
        let t = s.drop_first();
        assert forall|i: int| 0 <= i < j - 1 implies t[i].1 >= n by {
            assert(t[i] == s[i + 1]);
        }
        lemma_count_position(t, n, j - 1);
    }
}

/// The entries sorted by decreasing count, ties in their order.
fn sorted_by_count(v: &Vec<(RuleCategory, usize)>) -> (r: Vec<(RuleCategory, usize)>)
    ensures
        r@ == sort_by_count_desc(v@),
{
    let mut sorted: Vec<(RuleCategory, usize)> = Vec::new();
    let mut k: usize = 0;
    assert(v@.take(0) =~= Seq::<(RuleCategory, usize)>::empty());
    while k < v.len()
        invariant
            k <= v@.len(),
            sorted@ == sort_by_count_desc(v@.take(k as int)),
        decreases v.len() - k,
    {
        let x = v[k];
        assert(v@.take(k + 1).drop_last() =~= v@.take(k as int));
        assert(v@.take(k + 1).last() == x);
        let mut pos: usize = 0;
        while pos < sorted.len() && sorted[pos].1 >= x.1
            invariant
                pos <= sorted@.len(),
                forall|i: int| 0 <= i < pos ==> sorted@[i].1 >= x.1,
            decreases sorted.len() - pos,
        {
            pos = pos + 1;
        }
        proof {
            lemma_count_position(sorted@, x.1, pos as int);
        }
        sorted.insert(pos, x);
        k = k + 1;
    }
    assert(v@.take(v@.len() as int) =~= v@);
    sorted
}

/// `prefix` followed by the decimal form of `n`, as a `String`.
fn labeled_number(prefix: &str, n: usize) -> (r: String)
    ensures
        r@ == prefix@ + decimal(n as nat),
{
    let mut out: Vec<char> = Vec::new();
    push_str(&mut out, prefix);
    let digits = decimal_chars(n);
    push_all(&mut out, &digits);
    string_from_chars(&out)
}

impl ProcessingStats {
    /// The lines of the run's summary (all but the match rate).
    pub fn summary_lines(&self, source_name: &str) -> (r: Vec<String>)
        ensures
            views(r@) == spec_summary_lines(*self, source_name@),
    {
        let mut r: Vec<String> = Vec::new();
        r.push(String::new());
        let mut title: Vec<char> = Vec::new();
        push_str(&mut title, "📊 Processing Summary for ");
        push_str(&mut title, source_name);
        r.push(string_from_chars(&title));
        r.push(owned("━━━━━━━━━━━━━━━━━━━━━━━━━━━━━━━━━━━━━━━━"));
        r.push(labeled_number("Total entries processed: ", self.total));
        r.push(labeled_number("Matched entries: ", self.matched));
        r.push(labeled_number("Unmatched entries: ", self.unmatched));
        let ghost head = views(r@);
        if self.by_category.len() > 0 {
            r.push(String::new());
            r.push(owned("Breakdown by category:"));
            let sorted = sorted_by_count(&self.by_category);
            let ghost mid = views(r@);
            let mut i: usize = 0;
            while i < sorted.len()
                invariant
                    i <= sorted@.len(),
                    sorted@ == sort_by_count_desc(self.by_category@),
                    views(r@) == mid + sorted@.take(i as int).map_values(
                        |e: (RuleCategory, usize)| breakdown_line(e),
                    ),
                decreases sorted.len() - i,
            {
                let (c, n) = sorted[i];
                let mut line: Vec<char> = Vec::new();
                push_str(&mut line, "  ");
                push_str(&mut line, Self::category_label(c));
                push_str(&mut line, ": ");
                let digits = decimal_chars(n);
                push_all(&mut line, &digits);
                let s = string_from_chars(&line);
                let ghost before = views(r@);
                r.push(s);
                proof {
                    assert(views(r@) =~= before.push(s@));
                    assert(sorted@.take(i + 1).map_values(|e: (RuleCategory, usize)| breakdown_line(e))
                        =~= sorted@.take(i as int).map_values(|e: (RuleCategory, usize)| breakdown_line(e)).push(
                        breakdown_line(sorted@[i as int]),
                    ));
                }
                i = i + 1;
            }
            assert(sorted@.take(sorted@.len() as int) =~= sorted@);
        }
        proof {
            let expected = spec_summary_lines(*self, source_name@);
            assert(views(r@) =~= expected);
        }
        r
    }
}

/// Main log processor that classifies entries with the rule database.
pub struct LogProcessor {
    database: LogcheckDatabase,
}

impl LogProcessor {
    /// The database entries are classified with.
    pub closed spec fn db(self) -> LogcheckDatabase {
        self.database
    }

    /// Create a new log processor with the given database.
    pub fn new(database: LogcheckDatabase) -> (r: Self)
        ensures
            r.db() == database,
    {
        LogProcessor { database }
    }

    /// Process one log entry: classify it, count it, and give the filtered entry
    /// to write.
    pub fn process_entry(&self, message: String, stats: &mut ProcessingStats) -> (r: FilteredEntry)
        requires
            old(stats).wf(),
            old(stats).total < usize::MAX,
        ensures
            r.message == message,
            r.category == self.db().spec_match_message(message@),
            r.wf(),
            final(stats).wf(),
            final(stats).total == old(stats).total + 1,
            r.matched ==> final(stats).matched == old(stats).matched + 1 && final(stats).unmatched
                == old(stats).unmatched,
            !r.matched ==> final(stats).matched == old(stats).matched && final(stats).unmatched
                == old(stats).unmatched + 1 && final(stats).by_category@ == old(stats).by_category@,
            r.category matches Some(c) ==> counted(old(stats).by_category@, c, final(stats).by_category@),
            forall|c: RuleCategory|
                #[trigger] count_of(final(stats).by_category@, c) == count_of(old(stats).by_category@, c)
                    + if r.category == Some(c) {
                    1int
                } else {
                    0int
                },
    {
        let category = self.database.match_message(message.as_str());
        stats.record(category);
        FilteredEntry::new(message, category)
    }

    /// Process one log entry as `process_entry` does, and keep it in the
    /// collector when no rule matched it.
    pub fn process_entry_collecting(
        &self,
        message: String,
        stats: &mut ProcessingStats,
        collector: &mut UnmatchedCollector,
    ) -> (r: FilteredEntry)
        requires
            old(stats).wf(),
            old(stats).total < usize::MAX,
        ensures
            r.message == message,
            r.category == self.db().spec_match_message(message@),
            r.wf(),
            final(stats).wf(),
            final(stats).total == old(stats).total + 1,
            r.matched ==> final(stats).matched == old(stats).matched + 1 && final(stats).unmatched
                == old(stats).unmatched,
            !r.matched ==> final(stats).matched == old(stats).matched && final(stats).unmatched
                == old(stats).unmatched + 1 && final(stats).by_category@ == old(stats).by_category@,
            r.category matches Some(c) ==> counted(old(stats).by_category@, c, final(stats).by_category@),
            forall|c: RuleCategory|
                #[trigger] count_of(final(stats).by_category@, c) == count_of(old(stats).by_category@, c)
                    + if r.category == Some(c) {
                    1int
                } else {
                    0int
                },
            r.matched ==> final(collector)@ == old(collector)@,
            !r.matched ==> final(collector)@ == old(collector)@.push(message),
    {
        let category = self.database.match_message(message.as_str());
        stats.record(category);
        match category {
            Some(_) => {},
            None => {
                collector.add_entry(message.clone());
            },
        }
        FilteredEntry::new(message, category)
    }
}

} // verus!
