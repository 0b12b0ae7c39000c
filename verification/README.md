# logcheck_fluent_bit_filter

Log filtering with [logcheck](https://packages.debian.org/sid/logcheck) rules,
as a library verified with Verus and a command line program around it.

## Layout

- `src/` — the verified library.
  - `rules.rs`: rule sets, loading rule file contents, compiling them into regex
    sets (chunked when a set is too large), and classifying messages by logcheck
    precedence (cracking, then violations, then the ignore rules).
  - `regex_conversion.rs`: conversion between regex shorthand (`\d`, `\w`, `\s`)
    and POSIX classes (`[[:digit:]]`, ...), and anchors.
  - `filter.rs`: the Fluent-Bit filter's logic: the built-in rules and the
    annotated JSON record.
  - `cli/`: input sources, output formats, the per-entry processing step with its
    statistics, and the interactive analyzer (grouping unmatched entries, proposing
    patterns, the state machine of the terminal interface and its key handling).
  - `text.rs`, `json_text.rs`: character-level text and compact JSON helpers.
  - `regex_api.rs`, `json_api.rs`: the calls into `regex`, `grex` and
    `serde_json`, with the contracts the library relies on (trusted, not proved).
  - `devtasks.rs`: release version check and rule generation from sample lines.
- `app/` — the `logcheck-filter` program: argument parsing, reading files, standard
  input and the journal, writing output, the terminal interface, and the filter
  plugin entry points.
- `tests/` — tests of the library.
