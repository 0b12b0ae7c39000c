//! Interactive analysis of unmatched log entries: grouping them, proposing
//! patterns, and the state of the terminal interface that refines them.
pub mod pattern_grouper;
pub mod rule_writer;
pub mod tui;

use vstd::prelude::*;

verus! {

/// Collector for unmatched log entries during processing.
#[derive(Debug, Default)]
pub struct UnmatchedCollector {
    /// Unmatched log messages, in the order they were added.
    entries: Vec<String>,
}

impl View for UnmatchedCollector {
    type V = Seq<String>;

    closed spec fn view(&self) -> Seq<String> {
        self.entries@
    }
}

impl UnmatchedCollector {
    /// Create a new empty collector.
    pub fn new() -> (r: Self)
        ensures
            r@.len() == 0,
    {
        UnmatchedCollector { entries: Vec::new() }
    }

    /// Add an unmatched entry at the end.
    pub fn add_entry(&mut self, message: String)
        ensures
            final(self)@ == old(self)@.push(message),
    {
        self.entries.push(message);
    }

    /// All collected entries, in the order they were added.
    pub fn entries(&self) -> (r: &[String])
        ensures
            r@ == self@,
    {
        self.entries.as_slice()
    }

    /// The number of collected entries.
    pub fn len(&self) -> (r: usize)
        ensures
            r == self@.len(),
    {
        self.entries.len()
    }

    /// Whether nothing was collected.
    pub fn is_empty(&self) -> (r: bool)
        ensures
            r == (self@.len() == 0),
    {
        self.entries.len() == 0
    }
}

/// A collector reached from `new` by adding the messages of `added`, one after
/// the other (`states[i + 1]` after adding `added[i]` to `states[i]`), holds
/// exactly those messages in order: its `len` and the length of its `entries`
/// are the number of additions, and it `is_empty` exactly when there were none.
pub proof fn lemma_collector_additions(states: Seq<UnmatchedCollector>, added: Seq<String>)
    requires
        states.len() == added.len() + 1,
        states[0]@.len() == 0,
        forall|i: int| 0 <= i < added.len() ==> #[trigger] states[i + 1]@ == states[i]@.push(added[i]),
    ensures
        forall|i: int| 0 <= i < states.len() ==> (#[trigger] states[i])@ == added.take(i),
        states.last()@ == added,
        states.last()@.len() == added.len(),
        (states.last()@.len() == 0) == (added.len() == 0),
    decreases added.len(),
{
    if added.len() > 0 {
        let n = added.len() - 1;
        lemma_collector_additions(states.drop_last(), added.drop_last());
        assert forall|i: int| 0 <= i < states.len() implies (#[trigger] states[i])@ == added.take(i) by {
            if i < states.len() - 1 {
                assert(states.drop_last()[i] == states[i]);
                assert(added.drop_last().take(i) =~= added.take(i));
            } else {
                assert(states.drop_last()[n] == states[n]);
                assert(added.drop_last().take(n) =~= added.take(n));
                assert(states[n + 1]@ == states[n]@.push(added[n]));
                assert(added.take(n).push(added[n]) =~= added.take(i));
            }
        }
        assert(added.take(added.len() as int) =~= added);
    } else {
        assert(added.take(0) =~= Seq::<String>::empty());
        assert(states[0]@ =~= Seq::<String>::empty());
    }
}

} // verus!
