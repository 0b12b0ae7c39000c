//! The logcheck rule engine: rule sets compiled into regex sets, and the
//! database that classifies log messages by logcheck precedence.
use vstd::prelude::*;

use crate::regex_api::{
    any_matches, regex_compiles, regex_error_message, regex_error_text, regex_new,
    regex_set_compiles, regex_set_error,
    regex_set_is_match, regex_set_new, regex_set_patterns,
};
use crate::regex_conversion::{apply_table, escape_spaced_braces, replace_each, ReplacementTable};
use crate::text::{
    chars_of, contains_exec, contains_seq, owned, replace_str, split_lines, str_eq,
    string_from_chars, trim, trim_chars, lines_of, char_vec_views, views,
};

verus! {

/// The logcheck rule categories.
#[derive(Debug, Clone, Copy, PartialEq, Eq, Hash, Structural)]
pub enum RuleCategory {
    Cracking,
    CrackingIgnore,
    Violations,
    ViolationsIgnore,
    SystemEvents,
    Workstation,
    Server,
    Local,
}

/// The name of a category as written in reports (its variant name).
pub open spec fn category_name(c: RuleCategory) -> Seq<char> {
    match c {
        RuleCategory::Cracking => "Cracking"@,
        RuleCategory::CrackingIgnore => "CrackingIgnore"@,
        RuleCategory::Violations => "Violations"@,
        RuleCategory::ViolationsIgnore => "ViolationsIgnore"@,
        RuleCategory::SystemEvents => "SystemEvents"@,
        RuleCategory::Workstation => "Workstation"@,
        RuleCategory::Server => "Server"@,
        RuleCategory::Local => "Local"@,
    }
}

impl RuleCategory {
    /// The category's name as written in reports (its variant name).
    pub fn name(&self) -> (r: &'static str)
        ensures
            r@ == category_name(*self),
    {
        match self {
            RuleCategory::Cracking => "Cracking",
            RuleCategory::CrackingIgnore => "CrackingIgnore",
            RuleCategory::Violations => "Violations",
            RuleCategory::ViolationsIgnore => "ViolationsIgnore",
            RuleCategory::SystemEvents => "SystemEvents",
            RuleCategory::Workstation => "Workstation",
            RuleCategory::Server => "Server",
            RuleCategory::Local => "Local",
        }
    }
}

/// The position of a category in the order rule sets are loaded and compiled.
pub open spec fn category_rank(c: RuleCategory) -> int {
    match c {
        RuleCategory::Cracking => 0,
        RuleCategory::CrackingIgnore => 1,
        RuleCategory::Violations => 2,
        RuleCategory::ViolationsIgnore => 3,
        RuleCategory::SystemEvents => 4,
        RuleCategory::Workstation => 5,
        RuleCategory::Server => 6,
        RuleCategory::Local => 7,
    }
}

/// Compiled regex rules that may be split into multiple chunks.
#[derive(Debug)]
pub enum CompiledRules {
    /// Single RegexSet (optimized, when all patterns fit)
    Single(regex::RegexSet),
    /// Multiple RegexSets (used when patterns exceed size limit)
    Chunked(Vec<regex::RegexSet>),
}

impl CompiledRules {
    /// The patterns of each compiled set, in order.
    pub open spec fn chunk_patterns(self) -> Seq<Seq<Seq<char>>> {
        match self {
            CompiledRules::Single(set) => seq![regex_set_patterns(set)],
            CompiledRules::Chunked(sets) => sets@.map_values(
                |set: regex::RegexSet| regex_set_patterns(set),
            ),
        }
    }

    /// All compiled patterns, in order.
    pub open spec fn patterns(self) -> Seq<Seq<char>> {
        self.chunk_patterns().flatten()
    }
}

/// Errors of the rule engine.
#[derive(Debug)]
pub enum RuleError {
    /// A pattern did not compile.
    RegexError(regex::Error),
    /// A rule line could not be understood.
    InvalidRuleFormat(String),
    /// The rules directory does not exist.
    DirectoryNotFound(String),
}

/// A rule set that can be split into multiple chunks to avoid regex size limits.
#[derive(Debug)]
pub struct RuleSet {
    pub category: RuleCategory,
    pub patterns: Vec<String>,
    pub compiled: Option<CompiledRules>,
    pub source_files: Vec<String>,
}

/// Some pattern of one of the chunks matches `msg`.
pub open spec fn any_chunk_matches(chunks: Seq<Seq<Seq<char>>>, msg: Seq<char>) -> bool {
    exists|j: int| 0 <= j < chunks.len() && any_matches(#[trigger] chunks[j], msg)
}

proof fn lemma_any_matches_concat(a: Seq<Seq<char>>, b: Seq<Seq<char>>, msg: Seq<char>)
    ensures
        any_matches(a + b, msg) == (any_matches(a, msg) || any_matches(b, msg)),
{
    if any_matches(a + b, msg) {
        let i = choose|i: int| 0 <= i < (a + b).len() && crate::regex_api::regex_matches(
            #[trigger] (a + b)[i],
            msg,
        );
        if i < a.len() {
            assert(a[i] == (a + b)[i]);
        } else {
            assert(b[i - a.len()] == (a + b)[i]);
        }
    }
    if any_matches(a, msg) {
        let i = choose|i: int| 0 <= i < a.len() && crate::regex_api::regex_matches(
            #[trigger] a[i],
            msg,
        );
        assert((a + b)[i] == a[i]);
    }
    if any_matches(b, msg) {
        let i = choose|i: int| 0 <= i < b.len() && crate::regex_api::regex_matches(
            #[trigger] b[i],
            msg,
        );
        assert((a + b)[a.len() + i] == b[i]);
    }
}

/// Matching against the flattened patterns is matching against some chunk.
pub proof fn lemma_any_matches_flatten(chunks: Seq<Seq<Seq<char>>>, msg: Seq<char>)
    ensures
        any_matches(chunks.flatten(), msg) == any_chunk_matches(chunks, msg),
    decreases chunks.len(),
{
    if chunks.len() == 0 {
        assert(chunks.flatten() =~= Seq::<Seq<char>>::empty());
    } else {
        let rest = chunks.drop_first();
        lemma_any_matches_flatten(rest, msg);
        lemma_any_matches_concat(chunks[0], rest.flatten(), msg);
        if any_chunk_matches(rest, msg) {
            let j = choose|j: int| 0 <= j < rest.len() && any_matches(#[trigger] rest[j], msg);
            assert(chunks[j + 1] == rest[j]);
        }
        if any_chunk_matches(chunks, msg) {
            let j = choose|j: int| 0 <= j < chunks.len() && any_matches(#[trigger] chunks[j], msg);
            if j > 0 {
                assert(rest[j - 1] == chunks[j]);
            }
        }
    }
}

/// The largest number of patterns that one chunk of a chunked rule set holds.
pub open spec fn max_chunk_len() -> int {
    200
}

/// The patterns from `start` to `end` form a chunk that regex refuses to compile
/// as one set: a non-empty run of at most `max_chunk_len()` patterns.
pub open spec fn chunk_refused(patterns: Seq<Seq<char>>, start: int, end: int) -> bool {
    &&& 0 <= start < end <= patterns.len()
    &&& end - start <= max_chunk_len()
    &&& !regex_set_compiles(patterns.subrange(start, end))
}

/// The patterns cut into chunks of `k` patterns each, in order; the last chunk
/// holds what is left.
pub open spec fn chunks_of(patterns: Seq<Seq<char>>, k: int) -> Seq<Seq<Seq<char>>>
    decreases patterns.len(),
{
    if patterns.len() == 0 || k <= 0 {
        seq![]
    } else if patterns.len() <= k {
        seq![patterns]
    } else {
        seq![patterns.take(k)] + chunks_of(patterns.skip(k), k)
    }
}

/// The chunk size after a retry: three quarters of it, at least 5.
pub open spec fn shrink_chunk_size(k: int) -> int {
    if k * 3 / 4 < 5 {
        5
    } else {
        k * 3 / 4
    }
}

/// The chunk size after `retries` retries starting from `k`.
pub open spec fn shrunk_chunk_size(k: int, retries: nat) -> int
    decreases retries,
{
    if retries == 0 {
        k
    } else {
        shrink_chunk_size(shrunk_chunk_size(k, (retries - 1) as nat))
    }
}

/// A chunk size that chunked compilation can end with: a starting size from 10
/// to 200, shrunk by at most three retries.
pub open spec fn reachable_chunk_size(k: int) -> bool {
    exists|start: int, retries: nat|
        10 <= start <= 200 && retries <= 3 && #[trigger] shrunk_chunk_size(start, retries) == k
}

/// The compiled form of chunked compilation: one set for each chunk of the
/// patterns, for one chunk size of at least 5 that the retries can reach.
pub open spec fn chunked_compilation(c: Option<CompiledRules>, patterns: Seq<Seq<char>>) -> bool {
    &&& c matches Some(CompiledRules::Chunked(_))
    &&& exists|k: int|
        5 <= k <= 200 && reachable_chunk_size(k) && c.unwrap().chunk_patterns() == #[trigger] chunks_of(
            patterns,
            k,
        )
}

/// The size `find_optimal_chunk_size` picks for `patterns`: with fewer than 10
/// patterns, 10; otherwise a size `n` from 10 to the cap (the number of patterns,
/// at most 200) whose leading chunk compiles while the chunk one longer does not
/// (or `n` is the cap), or 10 when the leading 10 patterns do not compile.
pub open spec fn optimal_chunk_size(patterns: Seq<Seq<char>>, n: int) -> bool {
    let cap = if patterns.len() < 200 {
        patterns.len() as int
    } else {
        200
    };
    if cap < 10 {
        n == 10
    } else {
        &&& 10 <= n <= cap
        &&& {
            ||| n == 10 && !regex_set_compiles(patterns.take(10))
            ||| regex_set_compiles(patterns.take(n)) && (n == cap || !regex_set_compiles(
                patterns.take(n + 1),
            ))
        }
    }
}

/// The text of the error regex gives when it refuses `patterns` as one set.
pub open spec fn set_error_text(patterns: Seq<Seq<char>>) -> Seq<char> {
    regex_error_message(regex_set_error(patterns))
}

/// The error text speaks of the size limit.
pub open spec fn mentions_size_limit(text: Seq<char>) -> bool {
    contains_seq(text, "size limit"@)
}

/// Regex refused the patterns for their compiled size, as `compile` tells it
/// from the error text: it speaks of the size limit or of `CompiledTooBig`.
pub open spec fn refused_for_size(patterns: Seq<Seq<char>>) -> bool {
    mentions_size_limit(set_error_text(patterns)) || contains_seq(
        set_error_text(patterns),
        "CompiledTooBig"@,
    )
}

/// Where the chunk starting at `start` ends, for chunks of `k` patterns.
pub open spec fn chunk_end(len: int, start: int, k: int) -> int {
    if len - start < k {
        len
    } else {
        start + k
    }
}

/// The first chunk, from `start` on, that regex refuses when the patterns are
/// cut into chunks of `k`; none when all of them compile.
pub open spec fn first_refused_chunk(patterns: Seq<Seq<char>>, k: int, start: int) -> Option<
    Seq<Seq<char>>,
>
    decreases patterns.len() - start,
{
    if start >= patterns.len() || k <= 0 || start < 0 {
        None
    } else {
        let end = chunk_end(patterns.len() as int, start, k);
        let chunk = patterns.subrange(start, end);
        if regex_set_compiles(chunk) {
            first_refused_chunk(patterns, k, end)
        } else {
            Some(chunk)
        }
    }
}

/// Whether chunked compilation succeeds from chunk size `k` after `retries`
/// retries: every chunk compiles, or the first refused chunk was refused for
/// the size limit and, with fewer than three retries made, the chunks of three
/// quarters of the size (at least 5) succeed.
pub open spec fn chunk_schedule_succeeds(patterns: Seq<Seq<char>>, k: int, retries: int) -> bool
    decreases 3 - retries,
{
    match first_refused_chunk(patterns, k, 0) {
        None => true,
        Some(chunk) => if mentions_size_limit(set_error_text(chunk)) && 0 <= retries < 3 {
            chunk_schedule_succeeds(patterns, shrink_chunk_size(k), retries + 1)
        } else {
            false
        },
    }
}

/// The binary search for the chunk size: between `low` and `high`, the size
/// found so far being `best`.
pub open spec fn chunk_size_search(patterns: Seq<Seq<char>>, low: int, high: int, best: int) -> int
    decreases high + 1 - low,
{
    if low > high {
        best
    } else {
        let mid = (low + high) / 2;
        if regex_set_compiles(patterns.take(mid)) {
            chunk_size_search(patterns, mid + 1, high, mid)
        } else {
            chunk_size_search(patterns, low, mid - 1, best)
        }
    }
}

/// The chunk size chunked compilation starts from.
pub open spec fn initial_chunk_size(patterns: Seq<Seq<char>>) -> int {
    let cap = if patterns.len() < 200 {
        patterns.len() as int
    } else {
        200
    };
    let b = chunk_size_search(patterns, 10, cap, 10);
    if b < 5 {
        5
    } else {
        b
    }
}

/// Whether compiling a rule set with these patterns succeeds: there are none,
/// regex compiles them as one set, or it refused them for their size and the
/// chunked compilation succeeds.
pub open spec fn compile_succeeds(patterns: Seq<Seq<char>>) -> bool {
    ||| patterns.len() == 0
    ||| regex_set_compiles(patterns)
    ||| refused_for_size(patterns) && chunk_schedule_succeeds(patterns, initial_chunk_size(patterns), 0)
}

/// Some chunk of the patterns is refused by regex.
pub open spec fn some_chunk_refused(patterns: Seq<Seq<char>>) -> bool {
    exists|start: int, end: int| #[trigger] chunk_refused(patterns, start, end)
}

impl RuleSet {
    /// The patterns the rule set currently matches with: those of its compiled
    /// sets, or none before it is compiled.
    pub open spec fn active_patterns(&self) -> Seq<Seq<char>> {
        match self.compiled {
            Some(c) => c.patterns(),
            None => seq![],
        }
    }

    /// Whether the rule set matches `msg`.
    pub open spec fn spec_matches(&self, msg: Seq<char>) -> bool {
        any_matches(self.active_patterns(), msg)
    }

    /// The effect of a successful `compile`: the compiled patterns are the rule set's
    /// patterns (an empty rule set keeps whatever it had compiled before).
    pub open spec fn compiled_from(self, old: RuleSet) -> bool {
        &&& self.category == old.category
        &&& self.patterns@ == old.patterns@
        &&& self.source_files@ == old.source_files@
        &&& old.patterns@.len() == 0 ==> self.compiled == old.compiled
        &&& old.patterns@.len() > 0 ==> {
            &&& self.compiled is Some
            &&& self.active_patterns() == views(old.patterns@)
        }
    }

    /// The state after a failed `compile`: nothing changed.
    pub open spec fn unchanged_from(self, old: RuleSet) -> bool {
        &&& self.category == old.category
        &&& self.patterns@ == old.patterns@
        &&& self.source_files@ == old.source_files@
        &&& self.compiled == old.compiled
    }

    /// Create an empty rule set of the given category.
    pub fn new(category: RuleCategory) -> (r: Self)
        ensures
            r.category == category,
            r.patterns@.len() == 0,
            r.compiled is None,
            r.source_files@.len() == 0,
    {
        RuleSet { category, patterns: Vec::new(), compiled: None, source_files: Vec::new() }
    }

    /// Check if message matches any pattern in this rule set.
    pub fn matches(&self, message: &str) -> (b: bool)
        ensures
            b == self.spec_matches(message@),
    {
        match &self.compiled {
            Some(CompiledRules::Single(regex_set)) => {
                proof {
                    let c = self.compiled.unwrap();
                    lemma_any_matches_flatten(c.chunk_patterns(), message@);
                    assert(c.chunk_patterns()[0] == regex_set_patterns(*regex_set));
                    assert(any_matches(regex_set_patterns(*regex_set), message@)
                        == any_chunk_matches(c.chunk_patterns(), message@)) by {
                        if any_chunk_matches(c.chunk_patterns(), message@) {
                            let j = choose|j: int|
                                0 <= j < c.chunk_patterns().len() && any_matches(
                                    #[trigger] c.chunk_patterns()[j],
                                    message@,
                                );
                            assert(j == 0);
                        }
                    }
                }
                regex_set_is_match(regex_set, message)
            },
            Some(CompiledRules::Chunked(chunks)) => {
                let ghost cps = self.compiled.unwrap().chunk_patterns();
                proof {
                    lemma_any_matches_flatten(cps, message@);
                }
                let mut i: usize = 0;
                while i < chunks.len()
                    invariant
                        i <= chunks.len(),
                        cps == chunks@.map_values(
                            |set: regex::RegexSet| regex_set_patterns(set),
                        ),
                        forall|j: int| 0 <= j < i ==> !any_matches(#[trigger] cps[j], message@),
                        self.spec_matches(message@) == any_chunk_matches(cps, message@),
                    decreases chunks.len() - i,
                {
                    if regex_set_is_match(&chunks[i], message) {
                        assert(any_matches(cps[i as int], message@));
                        return true;
                    }
                    i = i + 1;
                }
                false
            },
            None => false,
        }
    }

    /// Compile patterns into RegexSet(s), automatically chunking if size limit is exceeded.
    ///
    /// An empty rule set compiles to nothing new, and one whose patterns regex
    /// compiles as one set always succeeds. Otherwise, when regex refused the set
    /// for its size (`refused_for_size`), the patterns are compiled in chunks
    /// (`chunk_schedule_succeeds` says when that succeeds), and the regex error of
    /// a refused chunk is returned if it fails; any other refusal returns its
    /// regex error. On failure nothing changes.
    pub fn compile(&mut self) -> (r: Result<(), RuleError>)
        ensures
            r.is_ok() ==> final(self).compiled_from(*old(self)),
            r.is_err() ==> final(self).unchanged_from(*old(self)),
            old(self).patterns@.len() == 0 ==> r.is_ok(),
            regex_set_compiles(views(old(self).patterns@)) ==> r.is_ok(),
            old(self).patterns@.len() > 0 && regex_set_compiles(views(old(self).patterns@))
                ==> final(self).compiled matches Some(CompiledRules::Single(_)),
            old(self).patterns@.len() > 0 && !regex_set_compiles(views(old(self).patterns@))
                && r.is_ok() ==> chunked_compilation(final(self).compiled, views(old(self).patterns@)),
            old(self).patterns@.len() > 0 && !regex_set_compiles(views(old(self).patterns@))
                && !refused_for_size(views(old(self).patterns@)) ==> (r matches Err(
                RuleError::RegexError(e),
            ) && e == regex_set_error(views(old(self).patterns@))),
            old(self).patterns@.len() > 0 && !regex_set_compiles(views(old(self).patterns@))
                && refused_for_size(views(old(self).patterns@)) ==> (r.is_ok()
                <==> chunk_schedule_succeeds(
                views(old(self).patterns@),
                initial_chunk_size(views(old(self).patterns@)),
                0,
            )),
            r.is_ok() <==> compile_succeeds(views(old(self).patterns@)),
            r matches Err(e) ==> e is RegexError,
    {
        if self.patterns.len() == 0 {
            return Ok(());
        }
        // First, try to compile all patterns in a single RegexSet
        match regex_set_new(&self.patterns) {
            Ok(regex_set) => {
                let ghost set = regex_set;
                self.compiled = Some(CompiledRules::Single(regex_set));
                proof {
                    let c = self.compiled.unwrap();
                    assert(c.chunk_patterns() =~= seq![regex_set_patterns(set)]);
                    c.chunk_patterns().lemma_flatten_one_element();
                }
                Ok(())
            },
            Err(e) => {
                // Check if error is due to compiled size limit
                let error_msg = regex_error_text(&e);
                if text_contains(&error_msg, "size limit") || text_contains(
                    &error_msg,
                    "CompiledTooBig",
                ) {
                    self.compile_chunked()
                } else {
                    Err(RuleError::RegexError(e))
                }
            },
        }
    }

    /// Compile patterns into multiple chunks using adaptive sizing.
    ///
    /// It fails only with the regex error of a chunk of at most `max_chunk_len()`
    /// patterns that regex refuses: where regex accepts every such chunk, it succeeds.
    fn compile_chunked(&mut self) -> (r: Result<(), RuleError>)
        requires
            old(self).patterns@.len() > 0,
        ensures
            r.is_ok() ==> final(self).compiled_from(*old(self)),
            r.is_err() ==> final(self).unchanged_from(*old(self)),
            r.is_ok() ==> chunked_compilation(final(self).compiled, views(old(self).patterns@)),
            r.is_err() ==> some_chunk_refused(views(old(self).patterns@)),
            r.is_ok() <==> chunk_schedule_succeeds(
                views(old(self).patterns@),
                initial_chunk_size(views(old(self).patterns@)),
                0,
            ),
            r matches Err(e) ==> e is RegexError,
    {
        let total = self.patterns.len();
        let mut chunk_size = match self.find_optimal_chunk_size() {
            Ok(n) => n,
            Err(e) => return Err(e),
        };
        let ghost start_size = chunk_size as int;
        let mut chunks: Vec<regex::RegexSet> = Vec::new();
        let mut retry_count: usize = 0;
        let max_retries: usize = 3;
        let ghost pats = views(self.patterns@);

        loop
            invariant_except_break
                5 <= chunk_size <= 200,
                10 <= start_size <= 200,
                start_size == initial_chunk_size(pats),
                chunk_size == shrunk_chunk_size(start_size, retry_count as nat),
                chunk_schedule_succeeds(pats, start_size, 0) == chunk_schedule_succeeds(
                    pats,
                    chunk_size as int,
                    retry_count as int,
                ),
                retry_count <= max_retries,
                max_retries == 3,
                total == self.patterns@.len(),
                pats == views(self.patterns@),
                self.unchanged_from(*old(self)),
            ensures
                chunks@.map_values(|set: regex::RegexSet| regex_set_patterns(set)).flatten()
                    == pats,
                chunks@.map_values(|set: regex::RegexSet| regex_set_patterns(set)) == chunks_of(
                    pats,
                    chunk_size as int,
                ),
                5 <= chunk_size <= 200,
                reachable_chunk_size(chunk_size as int),
                chunk_schedule_succeeds(pats, initial_chunk_size(pats), 0),
                self.unchanged_from(*old(self)),
            decreases max_retries - retry_count,
        {
            chunks.clear();
            let mut failed = false;
            let mut start: usize = 0;
            let ghost rc0 = retry_count;
            let ghost cs0 = chunk_size as int;
            assert(pats.take(0) =~= Seq::<Seq<char>>::empty());
            assert(pats.skip(0) =~= pats);
            assert(chunks@.map_values(|set: regex::RegexSet| regex_set_patterns(set))
                =~= Seq::<Seq<Seq<char>>>::empty());
            while start < total
                invariant_except_break
                    !failed,
                    retry_count == rc0,
                    chunk_size == cs0,
                    chunks@.map_values(|set: regex::RegexSet| regex_set_patterns(set)).flatten()
                        == pats.take(start as int),
                    chunks@.map_values(|set: regex::RegexSet| regex_set_patterns(set)) + chunks_of(
                        pats.skip(start as int),
                        cs0,
                    ) == chunks_of(pats, cs0),
                    first_refused_chunk(pats, cs0, 0) == first_refused_chunk(pats, cs0, start as int),
                invariant
                    5 <= cs0 <= 200,
                    10 <= start_size <= 200,
                    start_size == initial_chunk_size(pats),
                    cs0 == shrunk_chunk_size(start_size, rc0 as nat),
                    chunk_schedule_succeeds(pats, start_size, 0) == chunk_schedule_succeeds(
                        pats,
                        cs0,
                        rc0 as int,
                    ),
                    5 <= chunk_size <= 200,
                    retry_count <= max_retries,
                    max_retries == 3,
                    total == self.patterns@.len(),
                    pats == views(self.patterns@),
                    self.unchanged_from(*old(self)),
                    start <= total,
                    pats.len() == total,
                ensures
                    failed ==> retry_count == rc0 + 1 && chunk_size == shrink_chunk_size(cs0)
                        && chunk_schedule_succeeds(pats, cs0, rc0 as int)
                        == chunk_schedule_succeeds(pats, chunk_size as int, retry_count as int),
                    !failed ==> first_refused_chunk(pats, cs0, 0) is None,
                    !failed ==> retry_count == rc0 && chunk_size == cs0 && chunks@.map_values(
                        |set: regex::RegexSet| regex_set_patterns(set),
                    ).flatten() == pats.take(total as int) && chunks@.map_values(
                        |set: regex::RegexSet| regex_set_patterns(set),
                    ) == chunks_of(pats, cs0),
                decreases total - start,
            {
                let end = if total - start < chunk_size {
                    total
                } else {
                    start + chunk_size
                };
                let pattern_chunk = clone_range(&self.patterns, start, end);
                match regex_set_new(&pattern_chunk) {
                    Ok(regex_set) => {
                        let ghost before = chunks@;
                        chunks.push(regex_set);
                        proof {
                            let f = |set: regex::RegexSet| regex_set_patterns(set);
                            assert(chunks@.map_values(f) =~= before.map_values(f).push(
                                regex_set_patterns(regex_set),
                            ));
                            before.map_values(f).lemma_flatten_push(regex_set_patterns(regex_set));
                            assert(views(pattern_chunk@) =~= pats.subrange(
                                start as int,
                                end as int,
                            ));
                            assert(pats.take(end as int) =~= pats.take(start as int)
                                + pats.subrange(start as int, end as int));
                            let rest = pats.skip(start as int);
                            let chunk = pats.subrange(start as int, end as int);
                            if rest.len() <= cs0 {
                                assert(chunk =~= rest);
                                assert(chunks_of(rest, cs0) == seq![rest]);
                                assert(pats.skip(end as int).len() == 0);
                                assert(chunks_of(pats.skip(end as int), cs0) =~= Seq::<
                                    Seq<Seq<char>>,
                                >::empty());
                            } else {
                                assert(rest.take(cs0) =~= chunk);
                                assert(rest.skip(cs0) =~= pats.skip(end as int));
                                assert(chunks_of(rest, cs0) == seq![chunk] + chunks_of(
                                    pats.skip(end as int),
                                    cs0,
                                ));
                            }
                            assert(before.map_values(f).push(chunk) + chunks_of(
                                pats.skip(end as int),
                                cs0,
                            ) =~= before.map_values(f) + (seq![chunk] + chunks_of(
                                pats.skip(end as int),
                                cs0,
                            )));
                        }
                        proof {
                            assert(end == chunk_end(pats.len() as int, start as int, cs0));
                            assert(first_refused_chunk(pats, cs0, start as int)
                                == first_refused_chunk(pats, cs0, end as int));
                        }
                        start = end;
                    },
                    Err(e) => {
                        proof {
                            assert(views(pattern_chunk@) =~= pats.subrange(
                                start as int,
                                end as int,
                            ));
                            assert(chunk_refused(pats, start as int, end as int));
                            assert(end == chunk_end(pats.len() as int, start as int, cs0));
                            assert(first_refused_chunk(pats, cs0, start as int) == Some(
                                pats.subrange(start as int, end as int),
                            ));
                        }
                        let error_msg = regex_error_text(&e);
                        if text_contains(&error_msg, "size limit") && retry_count < max_retries {
                            // Some chunks are more complex than others:
                            // reduce the chunk size by a quarter and retry
                            chunk_size = (chunk_size * 3) / 4;
                            if chunk_size < 5 {
                                chunk_size = 5;
                            }
                            retry_count = retry_count + 1;
                            failed = true;
                            break ;
                        } else {
                            return Err(RuleError::RegexError(e));
                        }
                    },
                }
            }
            if !failed {
                assert(pats.take(total as int) =~= pats);
                assert(shrunk_chunk_size(start_size, retry_count as nat) == chunk_size);
                break ;
            }
        }
        self.compiled = Some(CompiledRules::Chunked(chunks));
        Ok(())
    }

    /// Find the chunk size by binary search over the leading patterns: a size
    /// (from 10 up to 200) whose leading chunk compiles while the one a pattern
    /// longer does not, which is the largest such size where refusal grows with
    /// the chunk; or 10 (see `optimal_chunk_size`).
    fn find_optimal_chunk_size(&self) -> (r: Result<usize, RuleError>)
        ensures
            r matches Ok(n) && 10 <= n <= 200 && optimal_chunk_size(views(self.patterns@), n as int)
                && n == initial_chunk_size(views(self.patterns@)),
    {
        let total = self.patterns.len();
        let ghost pats = views(self.patterns@);
        let mut low: usize = 10;
        let mut high: usize = if total < 200 {
            total
        } else {
            200
        };
        let ghost cap = high as int;
        let mut best_size: usize = low;
        while low <= high
            invariant
                10 <= low <= 201,
                high <= cap,
                cap <= 200,
                cap <= total,
                cap == (if total < 200 { total as int } else { 200 }),
                total == self.patterns@.len(),
                pats == views(self.patterns@),
                cap >= 10 ==> low <= high + 1,
                cap < 10 ==> low == 10,
                low == 10 ==> best_size == 10,
                low > 10 ==> best_size == low - 1 && regex_set_compiles(pats.take(best_size as int)),
                high < cap ==> high + 1 >= 10 && !regex_set_compiles(pats.take(high + 1)),
                10 <= best_size <= 200,
                chunk_size_search(pats, low as int, high as int, best_size as int)
                    == chunk_size_search(pats, 10, cap, 10),
            decreases high + 1 - low,
        {
            let mid = (low + high) / 2;
            let test_len = if mid < total {
                mid
            } else {
                total
            };
            let test_chunk = clone_range(&self.patterns, 0, test_len);
            proof {
                assert(views(test_chunk@) =~= pats.take(mid as int));
            }
            match regex_set_new(&test_chunk) {
                Ok(_) => {
                    // This size works, try larger
                    best_size = mid;
                    low = mid + 1;
                },
                Err(_) => {
                    // Too large (or not compilable): try smaller
                    high = mid - 1;
                },
            }
        }
        if best_size < 5 {
            best_size = 5;
        }
        Ok(best_size)
    }

    /// Validates the pattern and adds it (without recompiling).
    pub fn add_pattern(&mut self, pattern: String) -> (r: Result<(), RuleError>)
        ensures
            r.is_ok() == regex_compiles(pattern@),
            r matches Err(e) ==> e is RegexError,
            final(self).category == old(self).category,
            final(self).compiled == old(self).compiled,
            final(self).source_files@ == old(self).source_files@,
            r.is_ok() ==> final(self).patterns@ == old(self).patterns@.push(pattern),
            r.is_err() ==> final(self).patterns@ == old(self).patterns@,
    {
        match regex_new(pattern.as_str()) {
            Ok(_) => {
                self.patterns.push(pattern);
                Ok(())
            },
            Err(e) => Err(RuleError::RegexError(e)),
        }
    }
}

/// A rule line that was left out when a rule file was loaded.
#[derive(Debug)]
pub struct SkippedRule {
    /// The line's number in its file, from 1.
    pub line_number: usize,
    /// The line, trimmed.
    pub line: String,
    /// Why: the compile error of an invalid regex, or `None` for a backreference.
    pub error: Option<regex::Error>,
}

/// POSIX classes and the bracket contents the rule engine puts in their place.
pub open spec fn posix_class_table() -> ReplacementTable {
    seq![
        ("[:alnum:]"@, "a-zA-Z0-9"@),
        ("[:alpha:]"@, "a-zA-Z"@),
        ("[:digit:]"@, "0-9"@),
        ("[:xdigit:]"@, "0-9a-fA-F"@),
        ("[:lower:]"@, "a-z"@),
        ("[:upper:]"@, "A-Z"@),
        ("[:space:]"@, "\\s"@),
        ("[:blank:]"@, " \\t"@),
        ("[:punct:]"@, "!\"#$%&'()*+,\\-./:;<=>?@\\[\\\\\\]^_`{|}~"@),
        ("[:print:]"@, "\\x20-\\x7E"@),
        ("[:graph:]"@, "!-~"@),
        ("[:cntrl:]"@, "\\x00-\\x1F\\x7F"@),
    ]
}

/// What `convert_posix_classes` returns.
pub open spec fn spec_convert_posix_classes(s: Seq<char>) -> Seq<char> {
    escape_spaced_braces(replace_each(s, posix_class_table()))
}

/// A trimmed line that holds a rule: not empty and not a `#` comment.
pub open spec fn is_rule_line(l: Seq<char>) -> bool {
    l.len() > 0 && l[0] != '#'
}

/// The line refers to a group by number (`\1`, `\2`, `\3`), which Rust regexes lack.
pub open spec fn has_backreference(l: Seq<char>) -> bool {
    contains_seq(l, "\\1"@) || contains_seq(l, "\\2"@) || contains_seq(l, "\\3"@)
}

/// The patterns a rule file with these lines contributes, in order.
pub open spec fn accepted_rules(lines: Seq<Seq<char>>) -> Seq<Seq<char>>
    decreases lines.len(),
{
    if lines.len() == 0 {
        seq![]
    } else {
        let rest = accepted_rules(lines.drop_last());
        let l = trim(lines.last());
        if is_rule_line(l) && !has_backreference(l) && regex_compiles(
            spec_convert_posix_classes(l),
        ) {
            rest.push(spec_convert_posix_classes(l))
        } else {
            rest
        }
    }
}

/// The rule lines a rule file with these lines leaves out, in order:
/// (line number, trimmed line, whether the regex was invalid).
pub open spec fn skipped_rules(lines: Seq<Seq<char>>) -> Seq<(int, Seq<char>, bool)>
    decreases lines.len(),
{
    if lines.len() == 0 {
        seq![]
    } else {
        let rest = skipped_rules(lines.drop_last());
        let l = trim(lines.last());
        if is_rule_line(l) && has_backreference(l) {
            rest.push((lines.len() as int, l, false))
        } else if is_rule_line(l) && !regex_compiles(spec_convert_posix_classes(l)) {
            rest.push((lines.len() as int, l, true))
        } else {
            rest
        }
    }
}

/// The view of a list of skipped rules.
pub open spec fn skipped_views(s: Seq<SkippedRule>) -> Seq<(int, Seq<char>, bool)> {
    s.map_values(|r: SkippedRule| (r.line_number as int, r.line@, r.error is Some))
}

impl RuleSet {
    /// Adds the rules of one rule file, given its path and content: each line is
    /// trimmed; empty lines and `#` comments are passed over; lines with a
    /// backreference and lines whose converted regex does not compile are left out
    /// and reported; the others are added after POSIX class conversion.
    pub fn load_rule_content(&mut self, source: String, content: &str) -> (skipped: Vec<
        SkippedRule,
    >)
        ensures
            final(self).category == old(self).category,
            final(self).compiled == old(self).compiled,
            views(final(self).patterns@) == views(old(self).patterns@) + accepted_rules(
                lines_of(content@),
            ),
            final(self).source_files@ == old(self).source_files@.push(source),
            skipped_views(skipped@) == skipped_rules(lines_of(content@)),
    {
        let text = chars_of(content);
        let lines = split_lines(&text);
        let ghost ls = lines_of(content@);
        let ghost start = views(self.patterns@);
        let mut skipped: Vec<SkippedRule> = Vec::new();
        let mut k: usize = 0;
        proof {
            reveal_strlit("\\1");
            reveal_strlit("\\2");
            reveal_strlit("\\3");
            assert(ls.take(0) =~= Seq::<Seq<char>>::empty());
            assert(views(self.patterns@) =~= start + Seq::<Seq<char>>::empty());
        }
        while k < lines.len()
            invariant
                k <= lines.len(),
                char_vec_views(lines@) == ls,
                self.category == old(self).category,
                self.compiled == old(self).compiled,
                self.source_files@ == old(self).source_files@,
                start == views(old(self).patterns@),
                views(self.patterns@) == start + accepted_rules(ls.take(k as int)),
                skipped_views(skipped@) == skipped_rules(ls.take(k as int)),
            decreases lines.len() - k,
        {
            let line = trim_chars(&lines[k]);
            let ghost l = line@;
            proof {
                assert(ls.take(k + 1).drop_last() =~= ls.take(k as int));
                assert(ls.take(k + 1).last() == ls[k as int]);
                assert(ls[k as int] == lines@[k as int]@);
            }
            let ghost before_p = views(self.patterns@);
            let ghost before_s = skipped_views(skipped@);
            if line.len() == 0 || line[0] == '#' {
                // Skip empty lines and comments
            } else if contains_exec(&line, &chars_of("\\1")) || contains_exec(
                &line,
                &chars_of("\\2"),
            ) || contains_exec(&line, &chars_of("\\3")) {
                // Backreferences are not supported by Rust regexes
                skipped.push(
                    SkippedRule { line_number: k + 1, line: string_from_chars(&line), error: None },
                );
                assert(skipped_views(skipped@) =~= before_s.push(((k + 1) as int, l, false)));
            } else {
                let line_str = string_from_chars(&line);
                let converted = LogcheckDatabase::convert_posix_classes(line_str.as_str());
                match crate::regex_api::regex_new(converted.as_str()) {
                    Ok(_) => {
                        self.patterns.push(converted);
                        assert(views(self.patterns@) =~= before_p.push(
                            spec_convert_posix_classes(l),
                        ));
                    },
                    Err(e) => {
                        skipped.push(
                            SkippedRule { line_number: k + 1, line: line_str, error: Some(e) },
                        );
                        assert(skipped_views(skipped@) =~= before_s.push(
                            ((k + 1) as int, l, true),
                        ));
                    },
                }
            }
            k = k + 1;
        }
        assert(ls.take(lines.len() as int) =~= ls);
        self.source_files.push(source);
        skipped
    }
}

/// The lookup of `key` among statistics entries: the value of the first entry with that name.
pub open spec fn stat_lookup(entries: Seq<(Seq<char>, usize)>, key: Seq<char>) -> Option<usize>
    decreases entries.len(),
{
    if entries.len() == 0 {
        None
    } else if entries[0].0 == key {
        Some(entries[0].1)
    } else {
        stat_lookup(entries.drop_first(), key)
    }
}

/// Statistics about loaded rules: the number of patterns of each rule set by name,
/// then their total under `total_rules`.
#[derive(Debug)]
pub struct RuleStats {
    pub entries: Vec<(String, usize)>,
}

impl RuleStats {
    /// The entries, by their names' characters.
    pub open spec fn entry_views(self) -> Seq<(Seq<char>, usize)> {
        self.entries@.map_values(|e: (String, usize)| (e.0@, e.1))
    }

    /// The count recorded under `key`.
    pub fn get(&self, key: &str) -> (r: Option<usize>)
        ensures
            r == stat_lookup(self.entry_views(), key@),
    {
        let mut i: usize = 0;
        assert(self.entry_views().skip(0) =~= self.entry_views());
        while i < self.entries.len()
            invariant
                i <= self.entries@.len(),
                stat_lookup(self.entry_views(), key@) == stat_lookup(
                    self.entry_views().skip(i as int),
                    key@,
                ),
            decreases self.entries.len() - i,
        {
            let ghost rest = self.entry_views().skip(i as int);
            assert(rest[0] == (self.entries@[i as int].0@, self.entries@[i as int].1));
            if str_eq(self.entries[i].0.as_str(), key) {
                return Some(self.entries[i].1);
            }
            assert(rest.drop_first() =~= self.entry_views().skip(i + 1));
            i = i + 1;
        }
        None
    }

    /// The number of entries.
    pub fn len(&self) -> (r: usize)
        ensures
            r == self.entries@.len(),
    {
        self.entries.len()
    }
}

/// The logcheck rule database: one rule set per category.
#[derive(Debug)]
pub struct LogcheckDatabase {
    pub cracking_rules: RuleSet,
    pub cracking_ignore: RuleSet,
    pub violations_rules: RuleSet,
    pub violations_ignore: RuleSet,
    pub system_events: RuleSet,
    pub workstation: RuleSet,
    pub server: RuleSet,
    pub local: RuleSet,
}

impl LogcheckDatabase {
    /// The rule set that holds the rules of a category.
    pub open spec fn rule_set(self, c: RuleCategory) -> RuleSet {
        match c {
            RuleCategory::Cracking => self.cracking_rules,
            RuleCategory::CrackingIgnore => self.cracking_ignore,
            RuleCategory::Violations => self.violations_rules,
            RuleCategory::ViolationsIgnore => self.violations_ignore,
            RuleCategory::SystemEvents => self.system_events,
            RuleCategory::Workstation => self.workstation,
            RuleCategory::Server => self.server,
            RuleCategory::Local => self.local,
        }
    }

    /// The classification of a message by logcheck precedence: cracking attempts
    /// (unless ignored), then violations (unless ignored), then the ignore rules
    /// (system events, server, workstation, local), which all report `SystemEvents`.
    pub open spec fn spec_match_message(self, msg: Seq<char>) -> Option<RuleCategory> {
        if self.cracking_rules.spec_matches(msg) && !self.cracking_ignore.spec_matches(msg) {
            Some(RuleCategory::Cracking)
        } else if self.violations_rules.spec_matches(msg) && !self.violations_ignore.spec_matches(
            msg,
        ) {
            Some(RuleCategory::Violations)
        } else if self.system_events.spec_matches(msg) || self.server.spec_matches(msg)
            || self.workstation.spec_matches(msg) || self.local.spec_matches(msg) {
            Some(RuleCategory::SystemEvents)
        } else {
            None
        }
    }

    /// The state after compiling stopped at category `f`: the rule sets before it
    /// (in category order) are compiled, it and the later ones are unchanged.
    pub open spec fn failed_at(self, old: LogcheckDatabase, f: RuleCategory) -> bool {
        &&& forall|c: RuleCategory|
            category_rank(c) < category_rank(f) ==> #[trigger] self.rule_set(c).compiled_from(
                old.rule_set(c),
            )
        &&& forall|c: RuleCategory|
            category_rank(c) >= category_rank(f) ==> #[trigger] self.rule_set(c).unchanged_from(
                old.rule_set(c),
            )
    }

    /// Every rule set holds the rules of its own category.
    pub open spec fn well_formed(self) -> bool {
        forall|c: RuleCategory| #[trigger] self.rule_set(c).category == c
    }

    /// The total number of patterns over all rule sets.
    pub open spec fn total_rules(self) -> nat {
        self.cracking_rules.patterns@.len() + self.cracking_ignore.patterns@.len()
            + self.violations_rules.patterns@.len() + self.violations_ignore.patterns@.len()
            + self.system_events.patterns@.len() + self.workstation.patterns@.len()
            + self.server.patterns@.len() + self.local.patterns@.len()
    }

    /// Create a new empty logcheck database.
    pub fn new() -> (r: Self)
        ensures
            r.well_formed(),
            forall|c: RuleCategory|
                {
                    &&& (#[trigger] r.rule_set(c)).patterns@.len() == 0
                    &&& r.rule_set(c).compiled is None
                    &&& r.rule_set(c).source_files@.len() == 0
                },
    {
        LogcheckDatabase {
            cracking_rules: RuleSet::new(RuleCategory::Cracking),
            cracking_ignore: RuleSet::new(RuleCategory::CrackingIgnore),
            violations_rules: RuleSet::new(RuleCategory::Violations),
            violations_ignore: RuleSet::new(RuleCategory::ViolationsIgnore),
            system_events: RuleSet::new(RuleCategory::SystemEvents),
            workstation: RuleSet::new(RuleCategory::Workstation),
            server: RuleSet::new(RuleCategory::Server),
            local: RuleSet::new(RuleCategory::Local),
        }
    }

    /// Convert POSIX character classes to Rust regex equivalents.
    ///
    /// A POSIX class such as `[:alnum:]` or `[:digit:]` stands inside a bracket
    /// expression; each occurrence is replaced by the class's contents
    /// (`a-zA-Z0-9`, `0-9`), one class after the other, so that the bracket
    /// expression around it stays: `[[:digit:]]+` becomes `[0-9]+` and
    /// `[._[:alnum:]-]` becomes `[._a-zA-Z0-9-]`. Then curly braces standing
    /// alone between spaces are escaped.
    pub fn convert_posix_classes(pattern: &str) -> (r: String)
        ensures
            r@ == spec_convert_posix_classes(pattern@),
    {
        let mut classes: Vec<&'static str> = Vec::new();
        let mut equivs: Vec<&'static str> = Vec::new();
        classes.push("[:alnum:]");
        equivs.push("a-zA-Z0-9");
        classes.push("[:alpha:]");
        equivs.push("a-zA-Z");
        classes.push("[:digit:]");
        equivs.push("0-9");
        classes.push("[:xdigit:]");
        equivs.push("0-9a-fA-F");
        classes.push("[:lower:]");
        equivs.push("a-z");
        classes.push("[:upper:]");
        equivs.push("A-Z");
        classes.push("[:space:]");
        equivs.push("\\s");
        classes.push("[:blank:]");
        equivs.push(" \\t");
        classes.push("[:punct:]");
        equivs.push("!\"#$%&'()*+,\\-./:;<=>?@\\[\\\\\\]^_`{|}~");
        classes.push("[:print:]");
        equivs.push("\\x20-\\x7E");
        classes.push("[:graph:]");
        equivs.push("!-~");
        classes.push("[:cntrl:]");
        equivs.push("\\x00-\\x1F\\x7F");
        proof {
            reveal_strlit("[:alnum:]");
            reveal_strlit("[:alpha:]");
            reveal_strlit("[:digit:]");
            reveal_strlit("[:xdigit:]");
            reveal_strlit("[:lower:]");
            reveal_strlit("[:upper:]");
            reveal_strlit("[:space:]");
            reveal_strlit("[:blank:]");
            reveal_strlit("[:punct:]");
            reveal_strlit("[:print:]");
            reveal_strlit("[:graph:]");
            reveal_strlit("[:cntrl:]");
            reveal_strlit(" { ");
            reveal_strlit(" } ");
            assert(classes@.len() == 12);
        }
        let s = chars_of(pattern);
        let r = apply_table(s, &classes, &equivs, Ghost(posix_class_table()));
        let r = replace_str(&r, " { ", " \\{ ");
        let r = replace_str(&r, " } ", " \\} ");
        string_from_chars(&r)
    }

    /// The rule directories of a logcheck tree, in loading order, with the
    /// category whose rule set each one fills.
    pub fn rule_directories() -> (r: Vec<(&'static str, RuleCategory)>)
        ensures
            r@.len() == 8,
            r@[0].1 == RuleCategory::Cracking,
            r@[1].1 == RuleCategory::CrackingIgnore,
            r@[2].1 == RuleCategory::Violations,
            r@[3].1 == RuleCategory::ViolationsIgnore,
            r@[4].1 == RuleCategory::SystemEvents,
            r@[5].1 == RuleCategory::Workstation,
            r@[6].1 == RuleCategory::Server,
            r@[7].1 == RuleCategory::Local,
            r@[0].0@ == "cracking.d"@,
            r@[1].0@ == "cracking.ignore.d"@,
            r@[2].0@ == "violations.d"@,
            r@[3].0@ == "violations.ignore.d"@,
            r@[4].0@ == "ignore.d.paranoid"@,
            r@[5].0@ == "ignore.d.workstation"@,
            r@[6].0@ == "ignore.d.server"@,
            r@[7].0@ == "local.d"@,
    {
        let mut r: Vec<(&'static str, RuleCategory)> = Vec::new();
        r.push(("cracking.d", RuleCategory::Cracking));
        r.push(("cracking.ignore.d", RuleCategory::CrackingIgnore));
        r.push(("violations.d", RuleCategory::Violations));
        r.push(("violations.ignore.d", RuleCategory::ViolationsIgnore));
        r.push(("ignore.d.paranoid", RuleCategory::SystemEvents));
        r.push(("ignore.d.workstation", RuleCategory::Workstation));
        r.push(("ignore.d.server", RuleCategory::Server));
        r.push(("local.d", RuleCategory::Local));
        r
    }

    /// Adds the rules of one rule file to the rule set of `category`
    /// (see `RuleSet::load_rule_content`); the other rule sets stay as they were.
    pub fn load_rule_content(&mut self, category: RuleCategory, source: String, content: &str) -> (skipped: Vec<SkippedRule>)
        ensures
            forall|c: RuleCategory| c != category ==> #[trigger] final(self).rule_set(c) == old(self).rule_set(c),
            final(self).rule_set(category).category == old(self).rule_set(category).category,
            final(self).rule_set(category).compiled == old(self).rule_set(category).compiled,
            views(final(self).rule_set(category).patterns@) == views(old(self).rule_set(category).patterns@) + accepted_rules(
                lines_of(content@),
            ),
            final(self).rule_set(category).source_files@ == old(self).rule_set(category).source_files@.push(source),
            skipped_views(skipped@) == skipped_rules(lines_of(content@)),
    {
        match category {
            RuleCategory::Cracking => self.cracking_rules.load_rule_content(source, content),
            RuleCategory::CrackingIgnore => self.cracking_ignore.load_rule_content(source, content),
            RuleCategory::Violations => self.violations_rules.load_rule_content(source, content),
            RuleCategory::ViolationsIgnore => self.violations_ignore.load_rule_content(source, content),
            RuleCategory::SystemEvents => self.system_events.load_rule_content(source, content),
            RuleCategory::Workstation => self.workstation.load_rule_content(source, content),
            RuleCategory::Server => self.server.load_rule_content(source, content),
            RuleCategory::Local => self.local.load_rule_content(source, content),
        }
    }

    /// Compile all rule sets for efficient matching, in category order; stops at
    /// the first rule set that fails to compile: those before it are compiled, it
    /// and those after it are left as they were, and its regex error is returned.
    /// It succeeds exactly when every rule set compiles.
    pub fn compile_all(&mut self) -> (r: Result<(), RuleError>)
        ensures
            r.is_ok() ==> forall|c: RuleCategory| #[trigger] final(self).rule_set(c).compiled_from(
                old(self).rule_set(c),
            ),
            r.is_err() ==> exists|f: RuleCategory| #[trigger] final(self).failed_at(*old(self), f),
            r.is_ok() <==> forall|c: RuleCategory|
                compile_succeeds(views(#[trigger] old(self).rule_set(c).patterns@)),
            r matches Err(e) ==> e is RegexError,
            r.is_err() ==> exists|f: RuleCategory|
                #[trigger] final(self).failed_at(*old(self), f) && !compile_succeeds(
                    views(old(self).rule_set(f).patterns@),
                ) && forall|c: RuleCategory|
                    category_rank(c) < category_rank(f) ==> compile_succeeds(
                        views(#[trigger] old(self).rule_set(c).patterns@),
                    ),
    {
        let ghost start = *self;
        if let Err(e) = self.cracking_rules.compile() {
            assert(self.failed_at(start, RuleCategory::Cracking));
            assert(!compile_succeeds(views(start.rule_set(RuleCategory::Cracking).patterns@)));
            return Err(e);
        }
        if let Err(e) = self.cracking_ignore.compile() {
            assert(self.failed_at(start, RuleCategory::CrackingIgnore));
            assert(!compile_succeeds(views(start.rule_set(RuleCategory::CrackingIgnore).patterns@)));
            return Err(e);
        }
        if let Err(e) = self.violations_rules.compile() {
            assert(self.failed_at(start, RuleCategory::Violations));
            assert(!compile_succeeds(views(start.rule_set(RuleCategory::Violations).patterns@)));
            return Err(e);
        }
        if let Err(e) = self.violations_ignore.compile() {
            assert(self.failed_at(start, RuleCategory::ViolationsIgnore));
            assert(!compile_succeeds(views(start.rule_set(RuleCategory::ViolationsIgnore).patterns@)));
            return Err(e);
        }
        if let Err(e) = self.system_events.compile() {
            assert(self.failed_at(start, RuleCategory::SystemEvents));
            assert(!compile_succeeds(views(start.rule_set(RuleCategory::SystemEvents).patterns@)));
            return Err(e);
        }
        if let Err(e) = self.workstation.compile() {
            assert(self.failed_at(start, RuleCategory::Workstation));
            assert(!compile_succeeds(views(start.rule_set(RuleCategory::Workstation).patterns@)));
            return Err(e);
        }
        if let Err(e) = self.server.compile() {
            assert(self.failed_at(start, RuleCategory::Server));
            assert(!compile_succeeds(views(start.rule_set(RuleCategory::Server).patterns@)));
            return Err(e);
        }
        if let Err(e) = self.local.compile() {
            assert(self.failed_at(start, RuleCategory::Local));
            assert(!compile_succeeds(views(start.rule_set(RuleCategory::Local).patterns@)));
            return Err(e);
        }
        Ok(())
    }

    /// Match a log message against logcheck rules; returns the rule category if
    /// matched, following logcheck precedence.
    pub fn match_message(&self, message: &str) -> (r: Option<RuleCategory>)
        ensures
            r == self.spec_match_message(message@),
    {
        // 1. Cracking attempts (highest priority)
        if self.cracking_rules.matches(message) && !self.cracking_ignore.matches(message) {
            return Some(RuleCategory::Cracking);
        }
        // 2. Violations (security events)
        if self.violations_rules.matches(message) && !self.violations_ignore.matches(message) {
            return Some(RuleCategory::Violations);
        }
        // 3. Ignore rules: normal events
        if self.system_events.matches(message) || self.server.matches(message)
            || self.workstation.matches(message) || self.local.matches(message) {
            return Some(RuleCategory::SystemEvents);
        }
        // No match found: an unclassified, new event
        None
    }

    /// Statistics about loaded rules: the pattern count of each rule set, then the total.
    pub fn get_stats(&self) -> (r: RuleStats)
        requires
            self.total_rules() <= usize::MAX,
        ensures
            r.entry_views() == seq![
                ("cracking_rules"@, self.cracking_rules.patterns@.len() as usize),
                ("cracking_ignore"@, self.cracking_ignore.patterns@.len() as usize),
                ("violations_rules"@, self.violations_rules.patterns@.len() as usize),
                ("violations_ignore"@, self.violations_ignore.patterns@.len() as usize),
                ("system_events"@, self.system_events.patterns@.len() as usize),
                ("workstation"@, self.workstation.patterns@.len() as usize),
                ("server"@, self.server.patterns@.len() as usize),
                ("local"@, self.local.patterns@.len() as usize),
                ("total_rules"@, self.total_rules() as usize),
            ],
    {
        let mut entries: Vec<(String, usize)> = Vec::new();
        entries.push((owned("cracking_rules"), self.cracking_rules.patterns.len()));
        entries.push((owned("cracking_ignore"), self.cracking_ignore.patterns.len()));
        entries.push((owned("violations_rules"), self.violations_rules.patterns.len()));
        entries.push((owned("violations_ignore"), self.violations_ignore.patterns.len()));
        entries.push((owned("system_events"), self.system_events.patterns.len()));
        entries.push((owned("workstation"), self.workstation.patterns.len()));
        entries.push((owned("server"), self.server.patterns.len()));
        entries.push((owned("local"), self.local.patterns.len()));
        let total = self.cracking_rules.patterns.len() + self.cracking_ignore.patterns.len()
            + self.violations_rules.patterns.len() + self.violations_ignore.patterns.len()
            + self.system_events.patterns.len() + self.workstation.patterns.len()
            + self.server.patterns.len() + self.local.patterns.len();
        entries.push((owned("total_rules"), total));
        let r = RuleStats { entries };
        assert(r.entry_views() =~= seq![
            ("cracking_rules"@, self.cracking_rules.patterns@.len() as usize),
            ("cracking_ignore"@, self.cracking_ignore.patterns@.len() as usize),
            ("violations_rules"@, self.violations_rules.patterns@.len() as usize),
            ("violations_ignore"@, self.violations_ignore.patterns@.len() as usize),
            ("system_events"@, self.system_events.patterns@.len() as usize),
            ("workstation"@, self.workstation.patterns@.len() as usize),
            ("server"@, self.server.patterns@.len() as usize),
            ("local"@, self.local.patterns@.len() as usize),
            ("total_rules"@, self.total_rules() as usize),
        ]);
        r
    }
}

impl Default for LogcheckDatabase {
    fn default() -> (r: Self)
        ensures
            r.well_formed(),
            forall|c: RuleCategory|
                {
                    &&& (#[trigger] r.rule_set(c)).patterns@.len() == 0
                    &&& r.rule_set(c).compiled is None
                    &&& r.rule_set(c).source_files@.len() == 0
                },
    {
        Self::new()
    }
}

/// Logcheck precedence: an unignored cracking match wins over everything; an
/// unignored violation wins over the ignore rules; any of the four ignore rule
/// sets classifies the message as a system event; and the classification is
/// never one of the ignore categories themselves.
pub proof fn lemma_classification_precedence(db: LogcheckDatabase, msg: Seq<char>)
    ensures
        db.cracking_rules.spec_matches(msg) && !db.cracking_ignore.spec_matches(msg)
            ==> db.spec_match_message(msg) == Some(RuleCategory::Cracking),
        !(db.cracking_rules.spec_matches(msg) && !db.cracking_ignore.spec_matches(msg))
            && db.violations_rules.spec_matches(msg) && !db.violations_ignore.spec_matches(msg)
            ==> db.spec_match_message(msg) == Some(RuleCategory::Violations),
        db.spec_match_message(msg) is None <==> {
            &&& !(db.cracking_rules.spec_matches(msg) && !db.cracking_ignore.spec_matches(msg))
            &&& !(db.violations_rules.spec_matches(msg) && !db.violations_ignore.spec_matches(
                msg,
            ))
            &&& !db.system_events.spec_matches(msg)
            &&& !db.server.spec_matches(msg)
            &&& !db.workstation.spec_matches(msg)
            &&& !db.local.spec_matches(msg)
        },
        db.spec_match_message(msg) matches Some(c) ==> (c == RuleCategory::Cracking || c
            == RuleCategory::Violations || c == RuleCategory::SystemEvents),
{
}

/// How a message is classified, read from the result: it is a cracking attempt
/// only when a cracking rule matches and no cracking-ignore rule does; a
/// violation only when, besides, a violation rule matches and no
/// violation-ignore rule does; a system event exactly when neither holds and
/// one of the four ignore rule sets (paranoid, server, workstation, local)
/// matches; and unmatched otherwise. No other category is ever reported.
pub proof fn lemma_classification_by_rule_sets(db: LogcheckDatabase, msg: Seq<char>)
    ensures
        db.spec_match_message(msg) == Some(RuleCategory::Cracking) <==> (db.cracking_rules.spec_matches(msg)
            && !db.cracking_ignore.spec_matches(msg)),
        db.spec_match_message(msg) == Some(RuleCategory::Violations) <==> {
            &&& !(db.cracking_rules.spec_matches(msg) && !db.cracking_ignore.spec_matches(msg))
            &&& db.violations_rules.spec_matches(msg)
            &&& !db.violations_ignore.spec_matches(msg)
        },
        db.spec_match_message(msg) == Some(RuleCategory::SystemEvents) <==> {
            &&& !(db.cracking_rules.spec_matches(msg) && !db.cracking_ignore.spec_matches(msg))
            &&& !(db.violations_rules.spec_matches(msg) && !db.violations_ignore.spec_matches(msg))
            &&& (db.system_events.spec_matches(msg) || db.server.spec_matches(msg)
                || db.workstation.spec_matches(msg) || db.local.spec_matches(msg))
        },
        forall|c: RuleCategory|
            db.spec_match_message(msg) == Some(c) ==> c == RuleCategory::Cracking || c
                == RuleCategory::Violations || c == RuleCategory::SystemEvents,
{
}

/// A workstation ignore rule counts like the other ignore rule sets: a message
/// it matches, with no unignored cracking or violation match, is a system event.
pub proof fn lemma_workstation_rules_are_ignore_rules(db: LogcheckDatabase, msg: Seq<char>)
    requires
        db.workstation.spec_matches(msg),
        !(db.cracking_rules.spec_matches(msg) && !db.cracking_ignore.spec_matches(msg)),
        !(db.violations_rules.spec_matches(msg) && !db.violations_ignore.spec_matches(msg)),
    ensures
        db.spec_match_message(msg) == Some(RuleCategory::SystemEvents),
{
    lemma_classification_by_rule_sets(db, msg);
}

/// A rule file read line by line: the rules of two parts of a file, one after
/// the other, are those of the whole, and so are the lines it leaves out, the
/// second part's line numbers counted on from the first part's lines.
pub proof fn lemma_rule_lines_compose(a: Seq<Seq<char>>, b: Seq<Seq<char>>)
    ensures
        accepted_rules(a + b) == accepted_rules(a) + accepted_rules(b),
        skipped_rules(a + b) == skipped_rules(a) + skipped_rules(b).map_values(
            |r: (int, Seq<char>, bool)| (r.0 + a.len(), r.1, r.2),
        ),
    decreases b.len(),
{
    let f = |r: (int, Seq<char>, bool)| (r.0 + a.len(), r.1, r.2);
    if b.len() == 0 {
        assert(a + b =~= a);
        assert(accepted_rules(b) =~= Seq::<Seq<char>>::empty());
        assert(skipped_rules(b).map_values(f) =~= Seq::<(int, Seq<char>, bool)>::empty());
        assert(accepted_rules(a) + accepted_rules(b) =~= accepted_rules(a));
        assert(skipped_rules(a) + skipped_rules(b).map_values(f) =~= skipped_rules(a));
    } else {
        let bd = b.drop_last();
        lemma_rule_lines_compose(a, bd);
        assert((a + b).drop_last() =~= a + bd);
        assert((a + b).last() == b.last());
        assert((a + b).len() == a.len() + b.len());
        let l = trim(b.last());
        let sb = skipped_rules(bd);
        assert(sb.map_values(f).push(f((b.len() as int, l, false))) =~= sb.push(
            (b.len() as int, l, false),
        ).map_values(f));
        assert(sb.map_values(f).push(f((b.len() as int, l, true))) =~= sb.push(
            (b.len() as int, l, true),
        ).map_values(f));
        assert(accepted_rules(a) + accepted_rules(bd).push(spec_convert_posix_classes(l)) =~= (
        accepted_rules(a) + accepted_rules(bd)).push(spec_convert_posix_classes(l)));
        assert(skipped_rules(a) + sb.map_values(f).push(f((b.len() as int, l, false))) =~= (
        skipped_rules(a) + sb.map_values(f)).push(f((b.len() as int, l, false))));
        assert(skipped_rules(a) + sb.map_values(f).push(f((b.len() as int, l, true))) =~= (
        skipped_rules(a) + sb.map_values(f)).push(f((b.len() as int, l, true))));
    }
}

/// What one line of a rule file gives, wherever it stands: trimmed, an empty
/// line or a `#` comment gives nothing; a line with a backreference is left out
/// and reported without an error; a line whose converted regex does not compile
/// is left out and reported with its error; any other line is a rule, added
/// with its POSIX classes converted. Every rule line is either added or
/// reported, never both.
pub proof fn lemma_rule_line(l: Seq<char>)
    ensures
        trim(l).len() == 0 || trim(l)[0] == '#' ==> accepted_rules(seq![l]).len() == 0
            && skipped_rules(seq![l]).len() == 0,
        trim(l).len() > 0 && trim(l)[0] != '#' && has_backreference(trim(l)) ==> accepted_rules(
            seq![l],
        ).len() == 0 && skipped_rules(seq![l]) == seq![(1int, trim(l), false)],
        trim(l).len() > 0 && trim(l)[0] != '#' && !has_backreference(trim(l)) && !regex_compiles(
            spec_convert_posix_classes(trim(l)),
        ) ==> accepted_rules(seq![l]).len() == 0 && skipped_rules(seq![l]) == seq![
            (1int, trim(l), true),
        ],
        trim(l).len() > 0 && trim(l)[0] != '#' && !has_backreference(trim(l)) && regex_compiles(
            spec_convert_posix_classes(trim(l)),
        ) ==> accepted_rules(seq![l]) == seq![spec_convert_posix_classes(trim(l))]
            && skipped_rules(seq![l]).len() == 0,
{
    let one = seq![l];
    assert(one.drop_last() =~= Seq::<Seq<char>>::empty());
    assert(one.last() == l);
    assert(accepted_rules(one.drop_last()) == Seq::<Seq<char>>::empty());
    assert(skipped_rules(one.drop_last()) == Seq::<(int, Seq<char>, bool)>::empty());
    assert(seq![spec_convert_posix_classes(trim(l))] =~= Seq::<Seq<char>>::empty().push(
        spec_convert_posix_classes(trim(l)),
    ));
    assert(seq![(1int, trim(l), false)] =~= Seq::<(int, Seq<char>, bool)>::empty().push(
        (1int, trim(l), false),
    ));
    assert(seq![(1int, trim(l), true)] =~= Seq::<(int, Seq<char>, bool)>::empty().push(
        (1int, trim(l), true),
    ));
}

/// Once a non-empty rule set has been compiled, it matches a message exactly
/// when one of its patterns does.
pub proof fn lemma_compiled_rule_set_matches(old: RuleSet, new: RuleSet, msg: Seq<char>)
    requires
        new.compiled_from(old),
        old.patterns@.len() > 0,
    ensures
        new.spec_matches(msg) == any_matches(views(old.patterns@), msg),
{
}

/// A rule set that has never been compiled matches nothing, so a database whose
/// rule sets are all uncompiled (such as a new one) classifies no message.
pub proof fn lemma_uncompiled_database_matches_nothing(db: LogcheckDatabase, msg: Seq<char>)
    requires
        forall|c: RuleCategory| (#[trigger] db.rule_set(c)).compiled is None,
    ensures
        db.spec_match_message(msg) is None,
{
    assert(db.rule_set(RuleCategory::Cracking).compiled is None);
    assert(db.rule_set(RuleCategory::Violations).compiled is None);
    assert(db.rule_set(RuleCategory::SystemEvents).compiled is None);
    assert(db.rule_set(RuleCategory::Server).compiled is None);
    assert(db.rule_set(RuleCategory::Workstation).compiled is None);
    assert(db.rule_set(RuleCategory::Local).compiled is None);
}

/// After loading and compiling: a message matched by one of the violation rules,
/// with no unignored cracking match and no violation-ignore match, is reported
/// as a violation.
pub proof fn lemma_violation_rule_reported(
    loaded: LogcheckDatabase,
    compiled: LogcheckDatabase,
    msg: Seq<char>,
    i: int,
)
    requires
        forall|c: RuleCategory| #[trigger] compiled.rule_set(c).compiled_from(loaded.rule_set(c)),
        0 <= i < loaded.violations_rules.patterns@.len(),
        crate::regex_api::regex_matches(loaded.violations_rules.patterns@[i]@, msg),
        !compiled.cracking_rules.spec_matches(msg),
        !compiled.violations_ignore.spec_matches(msg),
    ensures
        compiled.spec_match_message(msg) == Some(RuleCategory::Violations),
{
    assert(compiled.rule_set(RuleCategory::Violations).compiled_from(
        loaded.rule_set(RuleCategory::Violations),
    ));
    assert(views(loaded.violations_rules.patterns@)[i] == loaded.violations_rules.patterns@[i]@);
}

/// Copies of `v[start..end]`.
fn clone_range(v: &Vec<String>, start: usize, end: usize) -> (r: Vec<String>)
    requires
        start <= end <= v@.len(),
    ensures
        r@ == v@.subrange(start as int, end as int),
{
    let mut r: Vec<String> = Vec::new();
    let mut i = start;
    while i < end
        invariant
            start <= i <= end,
            end <= v@.len(),
            r@ == v@.subrange(start as int, i as int),
        decreases end - i,
    {
        r.push(v[i].clone());
        assert(r@ =~= v@.subrange(start as int, i + 1));
        i = i + 1;
    }
    r
}

/// Whether `pat` occurs in `hay`.
pub fn text_contains(hay: &String, pat: &str) -> (b: bool)
    ensures
        b == contains_seq(hay@, pat@),
{
    let h = chars_of(hay.as_str());
    let p = chars_of(pat);
    contains_exec(&h, &p)
}

} // verus!
