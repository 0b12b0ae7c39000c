//! Where log entries come from: a file, standard input or the systemd journal.
//!
//! The sources here describe what to read and how a raw line becomes an entry;
//! the reading itself is done by the program around the library.
use vstd::prelude::*;

use crate::cli::args::InputSource;
use crate::json_api::{json_string_field, json_string_member};
use crate::text::{chars_of, decimal, decimal_chars, owned, push_all, push_str, string_from_chars, strip_line_end, views};

verus! {

/// Reading a log source failed.
#[derive(Debug, Clone, PartialEq, Eq)]
pub enum InputError {
    /// The source could not be read; the text says why.
    Io(String),
}

/// A raw line without its line ending: a final `\n`, and then a `\r` before it.
pub fn strip_line_ending(line: String) -> (r: String)
    ensures
        r@ == strip_line_end(line@),
{
    let cs = chars_of(line.as_str());
    let n = cs.len();
    if n > 0 && cs[n - 1] == '\n' {
        let mut m = n - 1;
        if m > 0 && cs[m - 1] == '\r' {
            m = m - 1;
        }
        let mut out: Vec<char> = Vec::new();
        let mut i: usize = 0;
        while i < m
            invariant
                i <= m <= n,
                n == cs@.len(),
                out@ == cs@.take(i as int),
            decreases m - i,
        {
            out.push(cs[i]);
            assert(out@ =~= cs@.take(i + 1));
            i = i + 1;
        }
        proof {
            let l = line@;
            assert(l.drop_last() =~= cs@.take(n - 1));
            if n - 1 > 0 && cs@[n - 2] == '\r' {
                assert(l.drop_last().drop_last() =~= cs@.take(n - 2));
            }
        }
        string_from_chars(&out)
    } else {
        line
    }
}

/// Standard input log reader.
#[derive(Debug, Clone, PartialEq, Eq)]
pub struct StdinInput {}

impl StdinInput {
    /// Create a new stdin input reader.
    pub fn new() -> (r: Self)
        ensures
            r == (StdinInput {  }),
    {
        StdinInput {  }
    }

    /// The name of this input source.
    pub fn source_name(&self) -> (r: &'static str)
        ensures
            r@ == "stdin"@,
    {
        "stdin"
    }

    /// The entry a line read from standard input gives: the line without its ending.
    pub fn entry_from_line(&self, line: String) -> (r: String)
        ensures
            r@ == strip_line_end(line@),
    {
        strip_line_ending(line)
    }
}

impl Default for StdinInput {
    fn default() -> (r: Self)
        ensures
            r == (StdinInput {  }),
    {
        Self::new()
    }
}

/// The description of a journal source: the unit, then follow mode or else the
/// number of lines, in parentheses when there is any.
pub open spec fn journald_description(unit: Option<Seq<char>>, follow: bool, lines: Option<usize>) -> Seq<char> {
    match (unit, follow, lines) {
        (Some(u), true, _) => "journald(unit="@ + u + ",follow)"@,
        (Some(u), false, Some(n)) => "journald(unit="@ + u + ",lines="@ + decimal(n as nat) + ")"@,
        (Some(u), false, None) => "journald(unit="@ + u + ")"@,
        (None, true, _) => "journald(follow)"@,
        (None, false, Some(n)) => "journald(lines="@ + decimal(n as nat) + ")"@,
        (None, false, None) => "journald"@,
    }
}

/// The arguments given to `journalctl`: JSON output, the unit filter, follow
/// mode, the number of lines, and no pager.
pub open spec fn journalctl_arguments(unit: Option<Seq<char>>, follow: bool, lines: Option<usize>) -> Seq<Seq<char>> {
    seq!["--output=json"@] + match unit {
        Some(u) => seq!["--unit"@, u],
        None => seq![],
    } + if follow {
        seq!["--follow"@]
    } else {
        seq![]
    } + match lines {
        Some(n) => seq!["--lines"@, decimal(n as nat)],
        None => seq![],
    } + seq!["--no-pager"@]
}

/// The entry a line of `journalctl --output=json` gives: without its line
/// ending, the string in its `MESSAGE` member, or the line itself when it has none.
pub open spec fn journal_entry(line: Seq<char>) -> Seq<char> {
    let l = strip_line_end(line);
    match json_string_member(l, "MESSAGE"@) {
        Some(m) => m,
        None => l,
    }
}

/// The character view of an optional string.
pub open spec fn opt_str_view(o: Option<String>) -> Option<Seq<char>> {
    match o {
        Some(s) => Some(s@),
        None => None,
    }
}

/// Journald log input using journalctl.
#[derive(Debug, Clone, PartialEq, Eq)]
pub struct JournaldInput {
    source_desc: String,
    unit_filter: Option<String>,
    follow: bool,
    lines: Option<usize>,
}

impl JournaldInput {
    /// The unit filter.
    pub closed spec fn unit(self) -> Option<Seq<char>> {
        opt_str_view(self.unit_filter)
    }

    /// Whether new entries are followed.
    pub closed spec fn follows(self) -> bool {
        self.follow
    }

    /// The number of lines asked for.
    pub closed spec fn line_count(self) -> Option<usize> {
        self.lines
    }

    /// The description of the source.
    pub closed spec fn description(self) -> Seq<char> {
        self.source_desc@
    }

    /// Create a new journald input reader.
    pub fn new(unit: Option<String>, follow: bool, lines: Option<usize>) -> (r: Result<Self, InputError>)
        ensures
            r matches Ok(j) && j.unit() == opt_str_view(unit) && j.follows() == follow
                && j.line_count() == lines && j.description() == journald_description(
                opt_str_view(unit),
                follow,
                lines,
            ),
    {
        let mut d: Vec<char> = Vec::new();
        match &unit {
            Some(u) => {
                push_str(&mut d, "journald(unit=");
                push_str(&mut d, u.as_str());
                if follow {
                    push_str(&mut d, ",follow)");
                } else {
                    match lines {
                        Some(n) => {
                            push_str(&mut d, ",lines=");
                            let digits = decimal_chars(n);
                            push_all(&mut d, &digits);
                            push_str(&mut d, ")");
                        },
                        None => {
                            push_str(&mut d, ")");
                        },
                    }
                }
            },
            None => {
                if follow {
                    push_str(&mut d, "journald(follow)");
                } else {
                    match lines {
                        Some(n) => {
                            push_str(&mut d, "journald(lines=");
                            let digits = decimal_chars(n);
                            push_all(&mut d, &digits);
                            push_str(&mut d, ")");
                        },
                        None => {
                            push_str(&mut d, "journald");
                        },
                    }
                }
            },
        }
        let source_desc = string_from_chars(&d);
        assert(source_desc@ =~= journald_description(opt_str_view(unit), follow, lines));
        Ok(JournaldInput { source_desc, unit_filter: unit, follow, lines })
    }

    /// The name of this input source.
    pub fn source_name(&self) -> (r: &str)
        ensures
            r@ == self.description(),
    {
        self.source_desc.as_str()
    }

    /// The arguments for `journalctl`.
    pub fn journalctl_args(&self) -> (r: Vec<String>)
        ensures
            views(r@) == journalctl_arguments(self.unit(), self.follows(), self.line_count()),
    {
        let mut r: Vec<String> = Vec::new();
        r.push(owned("--output=json"));
        match &self.unit_filter {
            Some(u) => {
                r.push(owned("--unit"));
                r.push(u.clone());
            },
            None => {},
        }
        if self.follow {
            r.push(owned("--follow"));
        }
        match self.lines {
            Some(n) => {
                r.push(owned("--lines"));
                let digits = decimal_chars(n);
                r.push(string_from_chars(&digits));
            },
            None => {},
        }
        r.push(owned("--no-pager"));
        assert(views(r@) =~= journalctl_arguments(self.unit(), self.follows(), self.line_count()));
        r
    }

    /// The entry a line of `journalctl` output gives.
    pub fn entry_from_line(&self, line: String) -> (r: String)
        ensures
            r@ == journal_entry(line@),
    {
        let l = strip_line_ending(line);
        match json_string_field(l.as_str(), "MESSAGE") {
            Some(m) => m,
            None => l,
        }
    }
}

/// A log source, ready to be read.
#[derive(Debug, Clone, PartialEq, Eq)]
pub enum LogSource {
    /// Lines of a file, opened when reading starts.
    File { path: String },
    /// Lines of standard input.
    Stdin(StdinInput),
    /// Entries of the systemd journal.
    Journald(JournaldInput),
}

impl LogSource {
    /// The name of the source: the file's path, `stdin`, or the journal's description.
    pub open spec fn spec_source_name(self) -> Seq<char> {
        match self {
            LogSource::File { path } => path@,
            LogSource::Stdin(_) => "stdin"@,
            LogSource::Journald(j) => j.description(),
        }
    }

    /// The name of the source.
    pub fn source_name(&self) -> (r: &str)
        ensures
            r@ == self.spec_source_name(),
    {
        match self {
            LogSource::File { path } => path.as_str(),
            LogSource::Stdin(s) => s.source_name(),
            LogSource::Journald(j) => j.source_name(),
        }
    }
}

/// The log source for an input choice. Opening a file happens when it is read.
pub fn create_input(source: &InputSource) -> (r: Result<LogSource, InputError>)
    ensures
        r is Ok,
        r matches Ok(s) && match *source {
            InputSource::File { path } => s == LogSource::File { path },
            InputSource::Stdin => s is Stdin,
            InputSource::Journald { unit, follow, lines, .. } => s matches LogSource::Journald(j)
                && j.unit() == opt_str_view(unit) && j.follows() == follow && j.line_count() == lines
                && j.description() == journald_description(opt_str_view(unit), follow, lines),
        },
{
    match source {
        InputSource::File { path } => Ok(LogSource::File { path: path.clone() }),
        InputSource::Stdin => Ok(LogSource::Stdin(StdinInput::new())),
        InputSource::Journald { unit, follow, lines, .. } => {
            match JournaldInput::new(unit.clone(), *follow, *lines) {
                Ok(j) => Ok(LogSource::Journald(j)),
                Err(e) => Err(e),
            }
        },
    }
}

} // verus!
