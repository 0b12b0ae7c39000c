//! The choices the command line offers: where log entries come from, how the
//! results are written, and which entries are shown.
use vstd::prelude::*;

verus! {

/// What to do with the journal besides filtering it.
#[derive(Debug, Clone, PartialEq, Eq)]
pub enum JournaldMode {
    /// Collect the unmatched entries and open the interactive analyzer on them.
    Analyze {
        /// The fewest entries a proposed pattern must cover.
        min_group_size: usize,
    },
}

/// Input source.
#[derive(Debug, Clone, PartialEq, Eq)]
pub enum InputSource {
    /// Read from a file.
    File {
        /// Path to log file.
        path: String,
    },
    /// Read from standard input.
    Stdin,
    /// Read from the systemd journal.
    Journald {
        /// Systemd unit to filter.
        unit: Option<String>,
        /// Follow mode (like tail -f).
        follow: bool,
        /// Number of lines to show from the end.
        lines: Option<usize>,
        /// Analysis of the unmatched entries, if asked for.
        mode: Option<JournaldMode>,
    },
}

/// Output format.
#[derive(Debug, Clone, Copy, PartialEq, Eq, Structural)]
pub enum OutputFormat {
    /// Human-readable text format.
    Text,
    /// JSON format.
    Json,
}

/// Which entries are shown.
#[derive(Debug, Clone, Copy, PartialEq, Eq, Structural)]
pub enum ShowMode {
    /// Show all log entries.
    All,
    /// Show only violations (cracking/violations).
    Violations,
    /// Show only unmatched entries.
    Unmatched,
}

/// The smallest group size for the analyzer when the input asks for analysis
/// (journal input in analyze mode), or `None` for plain filtering.
pub open spec fn spec_analysis_group_size(source: InputSource) -> Option<usize> {
    match source {
        InputSource::Journald { mode: Some(JournaldMode::Analyze { min_group_size }), .. } => Some(
            min_group_size,
        ),
        _ => None,
    }
}

/// The smallest group size for the analyzer, when the input asks for analysis.
pub fn analysis_group_size(source: &InputSource) -> (r: Option<usize>)
    ensures
        r == spec_analysis_group_size(*source),
{
    match source {
        InputSource::Journald { mode: Some(JournaldMode::Analyze { min_group_size }), .. } => Some(
            *min_group_size,
        ),
        _ => None,
    }
}

} // verus!
