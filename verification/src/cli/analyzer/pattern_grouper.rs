//! Pattern grouping and regex generation using grex.
//!
//! Groups similar log messages and generates regular expressions that match each group.
use vstd::prelude::*;

use crate::regex_api::{
    grex_build, regex_compiles, regex_is_match, regex_matches, regex_new,
    regex_pattern,
};
use crate::regex_conversion::{
    modern_to_posix, posix_to_modern, posix_to_rust, spec_modern_to_posix, spec_posix_to_modern,
    spec_posix_to_rust,
};
use crate::text::{
    byte_len, char_offsets, chars_eq, chars_of, decimal, decimal_chars, index_at_boundary,
    is_boundary, is_char_boundary, push_all, push_str, str_byte_len, string_from_chars, subrange_chars, take_bytes,
    views,
};

verus! {

/// Errors of the analyzer.
#[derive(Debug)]
pub enum AnalyzerError {
    /// A generated pattern did not compile.
    InvalidRegex { pattern: String, error: regex::Error },
}

/// A group of similar log messages with a generated regex.
#[derive(Debug, Clone)]
pub struct PatternGroup {
    /// The generated regex pattern in POSIX format (for logcheck)
    pub regex: String,
    /// Indices of messages that match this pattern
    pub matching_indices: Vec<usize>,
    /// Number of matches
    pub match_count: usize,
}

/// A pattern group as plain values: (regex, matching indices, match count).
pub open spec fn group_view(g: PatternGroup) -> (Seq<char>, Seq<usize>, usize) {
    (g.regex@, g.matching_indices@, g.match_count)
}

/// The views of a list of pattern groups.
pub open spec fn group_views(gs: Seq<PatternGroup>) -> Seq<(Seq<char>, Seq<usize>, usize)> {
    gs.map_values(|g: PatternGroup| group_view(g))
}

/// The text `display` returns: `[<count> matches] <regex>`.
pub open spec fn spec_display(count: usize, regex: Seq<char>) -> Seq<char> {
    "["@ + decimal(count as nat) + " matches] "@ + regex
}

impl PatternGroup {
    /// Create a compiled regex from this pattern (converted from POSIX to Rust syntax).
    pub fn compile(&self) -> (r: Result<regex::Regex, AnalyzerError>)
        ensures
            r.is_ok() == regex_compiles(spec_posix_to_rust(self.regex@)),
            r matches Ok(re) ==> regex_pattern(re) == spec_posix_to_rust(self.regex@),
            r matches Err(AnalyzerError::InvalidRegex { pattern, error }) ==> pattern@
                == self.regex@,
    {
        let rust_pattern = posix_to_rust(self.regex.as_str());
        match regex_new(rust_pattern.as_str()) {
            Ok(re) => Ok(re),
            Err(error) => Err(AnalyzerError::InvalidRegex { pattern: self.regex.clone(), error }),
        }
    }

    /// A display string showing the pattern and match count.
    pub fn display(&self) -> (r: String)
        ensures
            r@ == spec_display(self.match_count, self.regex@),
    {
        let mut out: Vec<char> = Vec::new();
        push_str(&mut out, "[");
        let digits = decimal_chars(self.match_count);
        push_all(&mut out, &digits);
        push_str(&mut out, " matches] ");
        push_str(&mut out, self.regex.as_str());
        string_from_chars(&out)
    }

    /// The regex in modern format (for display purposes).
    pub fn modern_format(&self) -> (r: String)
        ensures
            r@ == spec_posix_to_modern(self.regex@),
    {
        posix_to_modern(self.regex.as_str())
    }
}

/// The smaller of two integers.
pub open spec fn min_of(a: int, b: int) -> int {
    if a <= b {
        a
    } else {
        b
    }
}

/// The index of the last `c` in `s`, or -1.
pub open spec fn last_index_of(s: Seq<char>, c: char) -> int
    decreases s.len(),
{
    if s.len() == 0 {
        -1
    } else if s.last() == c {
        s.len() - 1
    } else {
        last_index_of(s.drop_last(), c)
    }
}

/// The message's first 80 bytes, within which the prefix ends at the last colon.
pub open spec fn prefix_search_area(s: Seq<char>) -> Seq<char> {
    take_bytes(s, min_of(byte_len(s) as int, 80))
}

/// `extract_prefix` slices the message at byte 80 and, without a colon there, at
/// byte 50: those positions (when inside the message) must be character boundaries.
pub open spec fn prefix_extractable(s: Seq<char>) -> bool {
    &&& is_boundary(s, min_of(byte_len(s) as int, 80))
    &&& last_index_of(prefix_search_area(s), ':') < 0 ==> is_boundary(
        s,
        min_of(byte_len(s) as int, 50),
    )
}

/// The grouping key of a message: up to and including the last colon within its
/// first 80 bytes; without such a colon, its first 50 bytes.
pub open spec fn spec_extract_prefix(s: Seq<char>) -> Seq<char> {
    let j = last_index_of(prefix_search_area(s), ':');
    if j >= 0 {
        s.take(j + 1)
    } else {
        take_bytes(s, min_of(byte_len(s) as int, 50))
    }
}

/// Whether `extract_prefix` can slice the message (see `prefix_extractable`).
pub fn can_extract_prefix(entry: &str) -> (r: bool)
    ensures
        r == prefix_extractable(entry@),
{
    let total = str_byte_len(entry);
    let search_limit: usize = if total < 80 {
        total
    } else {
        80
    };
    if !is_char_boundary(entry, search_limit) {
        return false;
    }
    let chars = chars_of(entry);
    let offs = char_offsets(&chars);
    let k = index_at_boundary(&chars, &offs, search_limit);
    let ghost area = chars@.take(k as int);
    let mut j: usize = k;
    while j > 0 && chars[j - 1] != ':'
        invariant
            j <= k,
            k <= chars@.len(),
            area == chars@.take(k as int),
            last_index_of(area, ':') == last_index_of(chars@.take(j as int), ':'),
        decreases j,
    {
        assert(chars@.take(j as int).drop_last() =~= chars@.take(j - 1));
        j = j - 1;
    }
    if j > 0 {
        assert(chars@.take(j as int).last() == ':');
        return true;
    }
    assert(chars@.take(0) =~= Seq::<char>::empty());
    let prefix_len: usize = if total < 50 {
        total
    } else {
        50
    };
    is_char_boundary(entry, prefix_len)
}

/// Extract a representative prefix from a log message for grouping.
pub fn extract_prefix(entry: &str) -> (r: String)
    requires
        prefix_extractable(entry@),
    ensures
        r@ == spec_extract_prefix(entry@),
{
    let chars = chars_of(entry);
    let total = str_byte_len(entry);
    let offs = char_offsets(&chars);
    // The last colon in the first 80 bytes (likely the service/program separator)
    let search_limit: usize = if total < 80 {
        total
    } else {
        80
    };
    let k = index_at_boundary(&chars, &offs, search_limit);
    let ghost area = chars@.take(k as int);
    let mut j: usize = k;
    assert(chars@.take(j as int) == area);
    while j > 0 && chars[j - 1] != ':'
        invariant
            j <= k,
            k <= chars@.len(),
            area == chars@.take(k as int),
            last_index_of(area, ':') == last_index_of(chars@.take(j as int), ':'),
        decreases j,
    {
        assert(chars@.take(j as int).drop_last() =~= chars@.take(j - 1));
        j = j - 1;
    }
    if j > 0 {
        assert(chars@.take(j as int).last() == ':');
        return string_from_chars(&subrange_chars(&chars, 0, j));
    }
    assert(chars@.take(0) =~= Seq::<char>::empty());
    // Otherwise the first 50 bytes
    let prefix_len: usize = if total < 50 {
        total
    } else {
        50
    };
    let m = index_at_boundary(&chars, &offs, prefix_len);
    string_from_chars(&subrange_chars(&chars, 0, m))
}

/// The position of the group keyed `p`, or -1.
pub open spec fn group_position(groups: Seq<(Seq<char>, Seq<usize>)>, p: Seq<char>) -> int
    decreases groups.len(),
{
    if groups.len() == 0 {
        -1
    } else if groups.last().0 == p {
        let k = group_position(groups.drop_last(), p);
        if k >= 0 {
            k
        } else {
            groups.len() - 1
        }
    } else {
        group_position(groups.drop_last(), p)
    }
}

/// The messages grouped by key, groups in order of first appearance, each with the
/// indices of its messages in order.
pub open spec fn prefix_groups(keys: Seq<Seq<char>>) -> Seq<(Seq<char>, Seq<usize>)>
    decreases keys.len(),
{
    if keys.len() == 0 {
        seq![]
    } else {
        let g = prefix_groups(keys.drop_last());
        let p = keys.last();
        let i = (keys.len() - 1) as usize;
        let k = group_position(g, p);
        if k >= 0 {
            g.update(k, (p, g[k].1.push(i)))
        } else {
            g.push((p, seq![i]))
        }
    }
}

/// The indices among `idx` whose message the regex `pattern` matches, in order.
pub open spec fn matching_members(entries: Seq<Seq<char>>, idx: Seq<usize>, pattern: Seq<char>) -> Seq<usize>
    decreases idx.len(),
{
    if idx.len() == 0 {
        seq![]
    } else {
        let rest = matching_members(entries, idx.drop_last(), pattern);
        if regex_matches(pattern, entries[idx.last() as int]) {
            rest.push(idx.last())
        } else {
            rest
        }
    }
}

/// The pattern group proposed for the messages at `idx` when the regex generated
/// for them is `modern` (in modern syntax): the regex in POSIX format, with the
/// members it matches; none when the group is smaller than `min_group_size`, when
/// the regex does not compile, or when it matches fewer than `min_group_size`
/// members.
pub open spec fn group_candidate(
    entries: Seq<Seq<char>>,
    idx: Seq<usize>,
    min_group_size: usize,
    modern: Seq<char>,
) -> Option<(Seq<char>, Seq<usize>, usize)> {
    if idx.len() < min_group_size {
        None
    } else {
        let posix = spec_modern_to_posix(modern);
        let rust = spec_posix_to_rust(posix);
        if !regex_compiles(rust) {
            None
        } else {
            let valid = matching_members(entries, idx, rust);
            if valid.len() >= min_group_size {
                Some((posix, valid, valid.len() as usize))
            } else {
                None
            }
        }
    }
}

/// The regex `modern` matches every message at `idx`: what grex guarantees of
/// the regex it generates for them.
pub open spec fn generated_for(entries: Seq<Seq<char>>, idx: Seq<usize>, modern: Seq<char>) -> bool {
    forall|j: int| 0 <= j < idx.len() ==> regex_matches(modern, entries[#[trigger] idx[j] as int])
}

/// The regexes can be those generated for the message groups of `entries`: one
/// for each message group, matching all its messages where the group is large
/// enough for a regex to be generated.
pub open spec fn generated_for_groups(
    entries: Seq<Seq<char>>,
    min_group_size: usize,
    regexes: Seq<Seq<char>>,
) -> bool {
    let groups = message_groups(entries);
    &&& regexes.len() == groups.len()
    &&& forall|k: int|
        0 <= k < groups.len() && groups[k].1.len() >= min_group_size ==> generated_for(
            entries,
            #[trigger] groups[k].1,
            regexes[k],
        )
}

/// A pattern group, if any, as plain values.
pub open spec fn opt_group_view(g: Option<PatternGroup>) -> Option<(Seq<char>, Seq<usize>, usize)> {
    match g {
        Some(g) => Some(group_view(g)),
        None => None,
    }
}

/// The candidate groups of the message groups, in order, when the regex generated
/// for the message group at position `k` is `regexes[k]`.
pub open spec fn candidates_with(
    entries: Seq<Seq<char>>,
    groups: Seq<(Seq<char>, Seq<usize>)>,
    regexes: Seq<Seq<char>>,
    min_group_size: usize,
) -> Seq<(Seq<char>, Seq<usize>, usize)>
    decreases groups.len(),
{
    if groups.len() == 0 {
        seq![]
    } else {
        let rest = candidates_with(entries, groups.drop_last(), regexes, min_group_size);
        match group_candidate(entries, groups.last().1, min_group_size, regexes[groups.len() - 1]) {
            Some(c) => rest.push(c),
            None => rest,
        }
    }
}

/// The position of the message group each candidate of `candidates_with` comes from.
pub open spec fn candidate_sources(
    entries: Seq<Seq<char>>,
    groups: Seq<(Seq<char>, Seq<usize>)>,
    regexes: Seq<Seq<char>>,
    min_group_size: usize,
) -> Seq<int>
    decreases groups.len(),
{
    if groups.len() == 0 {
        seq![]
    } else {
        let rest = candidate_sources(entries, groups.drop_last(), regexes, min_group_size);
        match group_candidate(entries, groups.last().1, min_group_size, regexes[groups.len() - 1]) {
            Some(c) => rest.push(groups.len() - 1),
            None => rest,
        }
    }
}

/// The position at which a group of `count` matches goes in a list sorted by
/// decreasing match count: after every group with at least as many.
pub open spec fn insert_position(sorted: Seq<(Seq<char>, Seq<usize>, usize)>, count: usize) -> int
    decreases sorted.len(),
{
    if sorted.len() == 0 {
        0
    } else if sorted[0].2 >= count {
        1 + insert_position(sorted.drop_first(), count)
    } else {
        0
    }
}

/// Stable sort by decreasing match count.
pub open spec fn sort_by_count(gs: Seq<(Seq<char>, Seq<usize>, usize)>) -> Seq<(Seq<char>, Seq<usize>, usize)>
    decreases gs.len(),
{
    if gs.len() == 0 {
        seq![]
    } else {
        let s = sort_by_count(gs.drop_last());
        s.insert(insert_position(s, gs.last().2), gs.last())
    }
}

/// The message groups of `entries`, keyed by `extract_prefix`.
pub open spec fn message_groups(entries: Seq<Seq<char>>) -> Seq<(Seq<char>, Seq<usize>)> {
    prefix_groups(entries.map_values(|e: Seq<char>| spec_extract_prefix(e)))
}

/// What `group_and_generate` returns when the regex generated for the message
/// group at position `k` is `regexes[k]`: the candidate groups of the message
/// groups (keyed by `extract_prefix`), sorted by decreasing match count.
pub open spec fn spec_group_and_generate(
    entries: Seq<Seq<char>>,
    min_group_size: usize,
    regexes: Seq<Seq<char>>,
) -> Seq<(Seq<char>, Seq<usize>, usize)> {
    sort_by_count(candidates_with(entries, message_groups(entries), regexes, min_group_size))
}

proof fn lemma_group_position(g: Seq<(Seq<char>, Seq<usize>)>, p: Seq<char>)
    ensures
        group_position(g, p) >= 0 ==> {
            &&& group_position(g, p) < g.len()
            &&& g[group_position(g, p)].0 == p
            &&& forall|j: int| 0 <= j < group_position(g, p) ==> g[j].0 != p
        },
        group_position(g, p) < 0 ==> forall|j: int| 0 <= j < g.len() ==> g[j].0 != p,
    decreases g.len(),
{
    if g.len() > 0 {
        let d = g.drop_last();
        lemma_group_position(d, p);
        assert forall|j: int| 0 <= j < d.len() implies d[j] == g[j] by {}
    }
}

proof fn lemma_insert_position(s: Seq<(Seq<char>, Seq<usize>, usize)>, count: usize, j: int)
    requires
        0 <= j <= s.len(),
        forall|i: int| 0 <= i < j ==> s[i].2 >= count,
        j == s.len() || s[j].2 < count,
    ensures
        insert_position(s, count) == j,
    decreases j,
{
    if j > 0 {
        let t = s.drop_first();
        assert forall|i: int| 0 <= i < j - 1 implies t[i].2 >= count by {
            assert(t[i] == s[i + 1]);
        }
        lemma_insert_position(t, count, j - 1);
    }
}

/// The members of `idx` whose message the compiled regex matches.
fn filter_members(entries: &[String], idx: &Vec<usize>, compiled: &regex::Regex) -> (r: Vec<usize>)
    requires
        forall|k: int| 0 <= k < idx@.len() ==> (#[trigger] idx@[k]) < entries@.len(),
    ensures
        r@ == matching_members(views(entries@), idx@, regex_pattern(*compiled)),
{
    let ghost ev = views(entries@);
    let mut valid: Vec<usize> = Vec::new();
    let mut k: usize = 0;
    assert(idx@.take(0) =~= Seq::<usize>::empty());
    while k < idx.len()
        invariant
            k <= idx@.len(),
            ev == views(entries@),
            forall|m: int| 0 <= m < idx@.len() ==> (#[trigger] idx@[m]) < entries@.len(),
            valid@ == matching_members(ev, idx@.take(k as int), regex_pattern(*compiled)),
        decreases idx.len() - k,
    {
        let i = idx[k];
        assert(idx@.take(k + 1).drop_last() =~= idx@.take(k as int));
        assert(idx@.take(k + 1).last() == i);
        assert(ev[i as int] == entries@[i as int]@);
        if regex_is_match(compiled, entries[i].as_str()) {
            valid.push(i);
        }
        k = k + 1;
    }
    assert(idx@.take(idx@.len() as int) =~= idx@);
    valid
}

/// The pattern group for the messages at `idx` when `modern_regex` (in modern
/// syntax) was generated for them: the regex converted to POSIX format, then to
/// Rust syntax and compiled, kept with the members it matches when they number
/// at least `min_group_size`.
pub fn group_from_regex(
    entries: &[String],
    idx: &Vec<usize>,
    min_group_size: usize,
    modern_regex: &str,
) -> (r: Option<PatternGroup>)
    requires
        forall|k: int| 0 <= k < idx@.len() ==> (#[trigger] idx@[k]) < entries@.len(),
    ensures
        opt_group_view(r) == group_candidate(views(entries@), idx@, min_group_size, modern_regex@),
{
    if idx.len() < min_group_size {
        return None;
    }
    // Convert to POSIX format for logcheck compatibility
    let posix_regex = modern_to_posix(modern_regex);
    // Verify the regex matches all group members, in Rust format
    let rust_regex = posix_to_rust(posix_regex.as_str());
    match regex_new(rust_regex.as_str()) {
        Ok(compiled) => {
            let valid_indices = filter_members(entries, idx, &compiled);
            if valid_indices.len() >= min_group_size {
                let match_count = valid_indices.len();
                Some(PatternGroup { regex: posix_regex, matching_indices: valid_indices, match_count })
            } else {
                None
            }
        },
        Err(_) => None,
    }
}

/// The messages at `idx`, in that order: the lines grex generates a group's regex from.
pub fn group_messages(entries: &[String], idx: &Vec<usize>) -> (r: Vec<String>)
    requires
        forall|k: int| 0 <= k < idx@.len() ==> (#[trigger] idx@[k]) < entries@.len(),
    ensures
        views(r@) == idx@.map_values(|i: usize| entries@[i as int]@),
{
    let mut out: Vec<String> = Vec::new();
    let mut k: usize = 0;
    while k < idx.len()
        invariant
            k <= idx@.len(),
            forall|m: int| 0 <= m < idx@.len() ==> (#[trigger] idx@[m]) < entries@.len(),
            views(out@) == idx@.take(k as int).map_values(|i: usize| entries@[i as int]@),
        decreases idx.len() - k,
    {
        let ghost before = views(out@);
        let msg = entries[idx[k]].clone();
        out.push(msg);
        assert(views(out@) =~= before.push(msg@));
        assert(idx@.take(k + 1).map_values(|i: usize| entries@[i as int]@) =~= idx@.take(
            k as int,
        ).map_values(|i: usize| entries@[i as int]@).push(entries@[idx@[k as int] as int]@));
        k = k + 1;
    }
    assert(idx@.take(idx@.len() as int) =~= idx@);
    out
}

/// The candidate pattern group for the messages at `idx`: grex generates a regex
/// for them (when there are at least `min_group_size`), and `group_from_regex`
/// does the rest, whatever regex grex returned.
fn make_candidate(entries: &[String], idx: &Vec<usize>, min_group_size: usize) -> (r: Option<
    PatternGroup,
>)
    requires
        idx@.len() > 0,
        forall|k: int| 0 <= k < idx@.len() ==> (#[trigger] idx@[k]) < entries@.len(),
    ensures
        exists|modern: Seq<char>|
            (idx@.len() >= min_group_size ==> generated_for(views(entries@), idx@, modern))
                && opt_group_view(r) == #[trigger] group_candidate(
                views(entries@),
                idx@,
                min_group_size,
                modern,
            ),
{
    if idx.len() < min_group_size {
        assert(opt_group_view(None) == group_candidate(views(entries@), idx@, min_group_size, seq![]));
        return None;
    }
    let ghost ev = views(entries@);
    // The messages of this group
    let group_messages = group_messages(entries, idx);
    assert(views(group_messages@).len() == group_messages@.len());
    // Generate regex using grex (modern format with \d, \w, etc.)
    let modern_regex = grex_build(&group_messages);
    let r = group_from_regex(entries, idx, min_group_size, modern_regex.as_str());
    assert(generated_for(ev, idx@, modern_regex@)) by {
        assert forall|j: int| 0 <= j < idx@.len() implies regex_matches(
            modern_regex@,
            ev[#[trigger] idx@[j] as int],
        ) by {
            assert(views(group_messages@)[j] == idx@.map_values(|i: usize| entries@[i as int]@)[j]);
            assert(views(group_messages@)[j] == group_messages@[j]@);
        }
    }
    assert(opt_group_view(r) == group_candidate(ev, idx@, min_group_size, modern_regex@));
    r
}

/// Group similar log messages and generate regex patterns.
///
/// Messages are grouped by `extract_prefix`; for each group of at least
/// `min_group_size` messages grex proposes a regex, kept (in POSIX format) when
/// it compiles and matches at least `min_group_size` of the group. The groups are
/// returned sorted by match count, descending.
pub fn group_and_generate(entries: &[String], min_group_size: usize) -> (r: Result<
    Vec<PatternGroup>,
    AnalyzerError,
>)
    requires
        forall|i: int| 0 <= i < entries@.len() ==> prefix_extractable(#[trigger] entries@[i]@),
    ensures
        r matches Ok(gs) && exists|regexes: Seq<Seq<char>>|
            generated_for_groups(views(entries@), min_group_size, regexes) && group_views(gs@)
                == #[trigger] spec_group_and_generate(views(entries@), min_group_size, regexes),
        r matches Ok(gs) && group_facts(views(entries@), min_group_size, group_views(gs@)),
{
    let ghost ev = views(entries@);
    let ghost keys = ev.map_values(|e: Seq<char>| spec_extract_prefix(e));
    // First pass: group by prefix
    let mut group_keys: Vec<Vec<char>> = Vec::new();
    let mut group_members: Vec<Vec<usize>> = Vec::new();
    let mut i: usize = 0;
    assert(keys.take(0) =~= Seq::<Seq<char>>::empty());
    while i < entries.len()
        invariant
            i <= entries@.len(),
            ev == views(entries@),
            keys == ev.map_values(|e: Seq<char>| spec_extract_prefix(e)),
            forall|m: int| 0 <= m < entries@.len() ==> prefix_extractable(#[trigger] entries@[m]@),
            group_keys@.len() == prefix_groups(keys.take(i as int)).len(),
            group_members@.len() == group_keys@.len(),
            forall|k: int|
                0 <= k < group_keys@.len() ==> (#[trigger] group_keys@[k])@ == prefix_groups(
                    keys.take(i as int),
                )[k].0,
            forall|k: int|
                0 <= k < group_members@.len() ==> (#[trigger] group_members@[k])@
                    == prefix_groups(keys.take(i as int))[k].1,
            forall|k: int| 0 <= k < group_members@.len() ==> (#[trigger] group_members@[k])@.len() > 0,
            forall|k: int, m: int|
                0 <= k < group_members@.len() && 0 <= m < group_members@[k]@.len() ==> (
                #[trigger] group_members@[k]@[m]) < i,
        decreases entries.len() - i,
    {
        let ghost g = prefix_groups(keys.take(i as int));
        assert(keys.take(i + 1).drop_last() =~= keys.take(i as int));
        assert(keys.take(i + 1).last() == keys[i as int]);
        assert(ev[i as int] == entries@[i as int]@);
        let ghost old_members = group_members@;
        let prefix = extract_prefix(entries[i].as_str());
        let key = chars_of(prefix.as_str());
        assert(key@ == keys.take(i + 1).last());
        proof {
            lemma_group_position(g, key@);
        }
        let mut k: usize = 0;
        let mut found = false;
        while k < group_keys.len()
            invariant_except_break
                !found,
            invariant
                k <= group_keys@.len(),
                group_keys@.len() == g.len(),
                forall|j: int| 0 <= j < group_keys@.len() ==> (#[trigger] group_keys@[j])@ == g[j].0,
                forall|j: int| 0 <= j < k ==> g[j].0 != key@,
            ensures
                found ==> k < g.len() && g[k as int].0 == key@,
                !found ==> k == g.len(),
            decreases group_keys.len() - k,
        {
            if chars_eq(&group_keys[k], &key) {
                found = true;
                break;
            }
            k = k + 1;
        }
        let ghost g2 = prefix_groups(keys.take(i + 1));
        if found {
            assert(group_position(g, key@) == k);
            assert(g2 == g.update(k as int, (key@, g[k as int].1.push(i))));
            let mut members = group_members[k].clone();
            members.push(i);
            group_members.set(k, members);
            assert forall|j: int| 0 <= j < group_members@.len() implies (
            #[trigger] group_members@[j])@ == g2[j].1 by {
                if j != k {
                    assert(group_members@[j] == old_members[j]);
                }
            }
        } else {
            assert(group_position(g, key@) < 0);
            assert(g2 == g.push((key@, seq![i])));
            group_keys.push(key);
            let mut members: Vec<usize> = Vec::new();
            members.push(i);
            assert(members@ =~= seq![i]);
            group_members.push(members);
            assert forall|j: int| 0 <= j < group_members@.len() implies (
            #[trigger] group_members@[j])@ == g2[j].1 by {
                if j < g.len() {
                    assert(group_members@[j] == old_members[j]);
                }
            }
        }
        i = i + 1;
    }
    assert(keys.take(entries@.len() as int) =~= keys);
    assert(keys.take(i as int) == keys);
    let ghost groups = prefix_groups(keys);
    // Second pass: generate a regex for each group
    let mut candidates: Vec<PatternGroup> = Vec::new();
    let ghost mut regexes: Seq<Seq<char>> = seq![];
    let mut k: usize = 0;
    assert(groups.take(0) =~= Seq::<(Seq<char>, Seq<usize>)>::empty());
    assert(group_views(candidates@) =~= Seq::<(Seq<char>, Seq<usize>, usize)>::empty());
    while k < group_members.len()
        invariant
            k <= group_members@.len(),
            ev == views(entries@),
            group_members@.len() == groups.len(),
            forall|j: int| 0 <= j < group_members@.len() ==> (#[trigger] group_members@[j])@ == groups[j].1,
            forall|j: int| 0 <= j < group_members@.len() ==> (#[trigger] group_members@[j])@.len() > 0,
            forall|j: int, m: int|
                0 <= j < group_members@.len() && 0 <= m < group_members@[j]@.len() ==> (
                #[trigger] group_members@[j]@[m]) < entries@.len(),
            regexes.len() == k,
            forall|j: int|
                0 <= j < k && groups[j].1.len() >= min_group_size ==> generated_for(
                    ev,
                    #[trigger] groups[j].1,
                    regexes[j],
                ),
            group_views(candidates@) == candidates_with(
                ev,
                groups.take(k as int),
                regexes,
                min_group_size,
            ),
        decreases group_members.len() - k,
    {
        let ghost before = group_views(candidates@);
        let ghost before_regexes = regexes;
        let res = make_candidate(entries, &group_members[k], min_group_size);
        let ghost modern = choose|modern: Seq<char>|
            (group_members@[k as int]@.len() >= min_group_size ==> generated_for(
                ev,
                group_members@[k as int]@,
                modern,
            )) && opt_group_view(res) == #[trigger] group_candidate(
                ev,
                group_members@[k as int]@,
                min_group_size,
                modern,
            );
        proof {
            regexes = regexes.push(modern);
            assert(groups.take(k + 1).drop_last() =~= groups.take(k as int));
            assert(groups.take(k + 1).last() == groups[k as int]);
            lemma_candidates_with_regexes(ev, groups.take(k as int), before_regexes, regexes, min_group_size);
        }
        match res {
            Some(g) => {
                candidates.push(g);
                assert(group_views(candidates@) =~= before.push(group_view(g)));
            },
            None => {},
        }
        k = k + 1;
    }
    assert(groups.take(groups.len() as int) =~= groups);
    // Sort by match count (descending)
    let ghost cands = group_views(candidates@);
    let mut sorted: Vec<PatternGroup> = Vec::new();
    let n: usize = candidates.len();
    let mut taken: Vec<PatternGroup> = Vec::new();
    // Take the candidates out in order (reversing twice keeps the order)
    while candidates.len() > 0
        invariant
            group_views(candidates@) + group_views(taken@).reverse() == cands,
        decreases candidates.len(),
    {
        let ghost before_c = candidates@;
        let ghost before_t = taken@;
        let g = candidates.pop().unwrap();
        taken.push(g);
        assert(group_views(candidates@) =~= group_views(before_c).drop_last());
        assert(group_views(taken@).reverse() =~= seq![group_view(g)] + group_views(before_t).reverse());
        assert(group_views(before_c) =~= group_views(candidates@) + seq![group_view(g)]);
    }
    assert(group_views(candidates@) =~= Seq::<(Seq<char>, Seq<usize>, usize)>::empty());
    assert(group_views(taken@).reverse() =~= cands);
    let mut done: usize = 0;
    assert(cands.take(0) =~= Seq::<(Seq<char>, Seq<usize>, usize)>::empty());
    while taken.len() > 0
        invariant
            done + taken@.len() == cands.len(),
            cands.len() == n,
            group_views(taken@).reverse() == cands.skip(done as int),
            group_views(sorted@) == sort_by_count(cands.take(done as int)),
        decreases taken.len(),
    {
        let ghost before_t = taken@;
        let g = taken.pop().unwrap();
        proof {
            assert(group_views(before_t).reverse()[0] == group_view(g));
            assert(cands.skip(done as int)[0] == cands[done as int]);
            assert(group_views(taken@) =~= group_views(before_t).drop_last());
            assert(group_views(before_t).drop_last().reverse() =~= group_views(before_t).reverse().drop_first());
            assert(group_views(taken@).reverse() =~= cands.skip(done + 1));
            assert(cands.take(done + 1).drop_last() =~= cands.take(done as int));
            assert(cands.take(done + 1).last() == group_view(g));
        }
        let ghost s = group_views(sorted@);
        let mut pos: usize = 0;
        while pos < sorted.len() && sorted[pos].match_count >= g.match_count
            invariant
                pos <= sorted@.len(),
                s == group_views(sorted@),
                forall|m: int| 0 <= m < pos ==> s[m].2 >= g.match_count,
            decreases sorted.len() - pos,
        {
            pos = pos + 1;
        }
        proof {
            lemma_insert_position(s, g.match_count, pos as int);
        }
        let ghost gv = group_view(g);
        sorted.insert(pos, g);
        assert(group_views(sorted@) =~= s.insert(pos as int, gv));
        done = done + 1;
    }
    assert(cands.take(cands.len() as int) =~= cands);
    proof {
        assert(group_views(sorted@) == spec_group_and_generate(ev, min_group_size, regexes));
        assert(groups == message_groups(ev));
        assert(generated_for_groups(ev, min_group_size, regexes));
        lemma_groups_sorted_by_count(ev, min_group_size, regexes);
        lemma_groups_match_their_members(ev, min_group_size, regexes);
        lemma_groups_disjoint(ev, min_group_size, regexes);
    }
    Ok(sorted)
}

/// The groups are ordered by match count, largest first.
pub open spec fn sorted_by_count(s: Seq<(Seq<char>, Seq<usize>, usize)>) -> bool {
    forall|i: int, j: int| 0 <= i < j < s.len() ==> s[i].2 >= s[j].2
}

proof fn lemma_insert_position_props(s: Seq<(Seq<char>, Seq<usize>, usize)>, count: usize)
    ensures
        0 <= insert_position(s, count) <= s.len(),
        forall|i: int| 0 <= i < insert_position(s, count) ==> s[i].2 >= count,
        insert_position(s, count) < s.len() ==> s[insert_position(s, count)].2 < count,
    decreases s.len(),
{
    if s.len() > 0 && s[0].2 >= count {
        let t = s.drop_first();
        lemma_insert_position_props(t, count);
        assert forall|i: int| 0 <= i < insert_position(s, count) implies s[i].2 >= count by {
            if i > 0 {
                assert(s[i] == t[i - 1]);
            }
        }
        if insert_position(s, count) < s.len() {
            assert(s[insert_position(s, count)] == t[insert_position(t, count)]);
        }
    }
}

proof fn lemma_sort_by_count(gs: Seq<(Seq<char>, Seq<usize>, usize)>)
    ensures
        sorted_by_count(sort_by_count(gs)),
        sort_by_count(gs).len() == gs.len(),
        forall|x: (Seq<char>, Seq<usize>, usize)| #[trigger] sort_by_count(gs).contains(x) ==> gs.contains(x),
    decreases gs.len(),
{
    if gs.len() > 0 {
        let d = gs.drop_last();
        lemma_sort_by_count(d);
        let t = sort_by_count(d);
        let x = gs.last();
        let pos = insert_position(t, x.2);
        lemma_insert_position_props(t, x.2);
        let u = t.insert(pos, x);
        assert(u == sort_by_count(gs));
        assert forall|i: int, j: int| 0 <= i < j < u.len() implies u[i].2 >= u[j].2 by {
            if j < pos {
                assert(u[i] == t[i] && u[j] == t[j]);
            } else if j == pos {
                assert(u[i] == t[i]);
            } else if i < pos {
                assert(u[i] == t[i] && u[j] == t[j - 1]);
            } else if i == pos {
                assert(u[j] == t[j - 1]);
                assert(t[pos].2 >= t[j - 1].2);
            } else {
                assert(u[i] == t[i - 1] && u[j] == t[j - 1]);
            }
        }
        assert forall|y: (Seq<char>, Seq<usize>, usize)| #[trigger] u.contains(y) implies gs.contains(y) by {
            let k = choose|k: int| 0 <= k < u.len() && u[k] == y;
            if k == pos {
                assert(gs[gs.len() - 1] == y);
            } else {
                let m = if k < pos { k } else { k - 1 };
                assert(u[k] == t[m]);
                assert(t.contains(y));
                assert(d.contains(y));
                let n = choose|n: int| 0 <= n < d.len() && d[n] == y;
                assert(gs[n] == y);
            }
        }
    }
}

/// The indices are strictly increasing.
pub open spec fn increasing(s: Seq<usize>) -> bool {
    forall|m: int, n: int| 0 <= m < n < s.len() ==> s[m] < s[n]
}

/// No index occurs in both lists.
pub open spec fn disjoint_members(a: Seq<usize>, b: Seq<usize>) -> bool {
    forall|m: int, n: int| 0 <= m < a.len() && 0 <= n < b.len() ==> a[m] != b[n]
}

/// No message belongs to two of the groups.
pub open spec fn pairwise_disjoint(gs: Seq<(Seq<char>, Seq<usize>, usize)>) -> bool {
    forall|p: int, q: int| 0 <= p < q < gs.len() ==> disjoint_members(#[trigger] gs[p].1, #[trigger] gs[q].1)
}

/// A proposed group of `entries`: at least `min_group_size` members, given in
/// increasing order and within bounds, counted by its match count, each matched
/// by its regex (in Rust syntax).
pub open spec fn well_formed_group(
    entries: Seq<Seq<char>>,
    min_group_size: usize,
    g: (Seq<char>, Seq<usize>, usize),
) -> bool {
    &&& g.1.len() >= min_group_size
    &&& g.2 == g.1.len() as usize
    &&& increasing(g.1)
    &&& forall|k: int| 0 <= k < g.1.len() ==> #[trigger] g.1[k] < entries.len()
    &&& forall|k: int|
        0 <= k < g.1.len() ==> regex_matches(spec_posix_to_rust(g.0), entries[#[trigger] g.1[k] as int])
}

/// What holds of the groups `group_and_generate` returns, whatever regexes grex
/// generated: sorted by match count, largest first; each well formed; no
/// message in two groups.
pub open spec fn group_facts(
    entries: Seq<Seq<char>>,
    min_group_size: usize,
    gs: Seq<(Seq<char>, Seq<usize>, usize)>,
) -> bool {
    &&& sorted_by_count(gs)
    &&& forall|p: int| 0 <= p < gs.len() ==> well_formed_group(entries, min_group_size, #[trigger] gs[p])
    &&& pairwise_disjoint(gs)
}

proof fn lemma_matching_members(entries: Seq<Seq<char>>, idx: Seq<usize>, pattern: Seq<char>)
    ensures
        forall|k: int|
            0 <= k < matching_members(entries, idx, pattern).len() ==> regex_matches(
                pattern,
                entries[#[trigger] matching_members(entries, idx, pattern)[k] as int],
            ),
        forall|k: int|
            0 <= k < matching_members(entries, idx, pattern).len() ==> idx.contains(
                #[trigger] matching_members(entries, idx, pattern)[k],
            ),
        matching_members(entries, idx, pattern).len() <= idx.len(),
        increasing(idx) ==> increasing(matching_members(entries, idx, pattern)),
    decreases idx.len(),
{
    if idx.len() > 0 {
        let d = idx.drop_last();
        let rest = matching_members(entries, d, pattern);
        lemma_matching_members(entries, d, pattern);
        let m = matching_members(entries, idx, pattern);
        assert forall|k: int| 0 <= k < m.len() implies regex_matches(pattern, entries[#[trigger] m[k] as int]) by {
            if k < rest.len() {
                assert(m[k] == rest[k]);
            }
        }
        assert forall|k: int| 0 <= k < m.len() implies idx.contains(#[trigger] m[k]) by {
            if k < rest.len() {
                assert(m[k] == rest[k]);
                assert(d.contains(rest[k]));
                let j = choose|j: int| 0 <= j < d.len() && d[j] == rest[k];
                assert(idx[j] == d[j]);
            } else {
                assert(idx[idx.len() - 1] == m[k]);
            }
        }
        if increasing(idx) {
            assert(increasing(d)) by {
                assert forall|a: int, b: int| 0 <= a < b < d.len() implies d[a] < d[b] by {
                    assert(d[a] == idx[a] && d[b] == idx[b]);
                }
            }
            assert forall|a: int, b: int| 0 <= a < b < m.len() implies m[a] < m[b] by {
                if b < rest.len() {
                    assert(m[a] == rest[a] && m[b] == rest[b]);
                } else {
                    assert(m[a] == rest[a]);
                    assert(d.contains(rest[a]));
                    let j = choose|j: int| 0 <= j < d.len() && d[j] == rest[a];
                    assert(idx[j] == d[j]);
                    assert(m[b] == idx[idx.len() - 1]);
                }
            }
        }
    }
}

/// The message groups: members in increasing order, below the number of
/// messages, and no message in two groups.
proof fn lemma_prefix_groups(keys: Seq<Seq<char>>)
    requires
        keys.len() <= usize::MAX,
    ensures
        forall|k: int| 0 <= k < prefix_groups(keys).len() ==> increasing(#[trigger] prefix_groups(keys)[k].1),
        forall|k: int, m: int|
            0 <= k < prefix_groups(keys).len() && 0 <= m < prefix_groups(keys)[k].1.len() ==> (
            #[trigger] prefix_groups(keys)[k].1[m]) < keys.len(),
        forall|k: int, l: int|
            0 <= k < l < prefix_groups(keys).len() ==> disjoint_members(
                #[trigger] prefix_groups(keys)[k].1,
                #[trigger] prefix_groups(keys)[l].1,
            ),
    decreases keys.len(),
{
    if keys.len() > 0 {
        let d = keys.drop_last();
        lemma_prefix_groups(d);
        let g0 = prefix_groups(d);
        let g = prefix_groups(keys);
        let p = keys.last();
        let i = (keys.len() - 1) as usize;
        let pos = group_position(g0, p);
        lemma_group_position(g0, p);
        if pos >= 0 {
            assert(g == g0.update(pos, (p, g0[pos].1.push(i))));
            assert forall|k: int| 0 <= k < g.len() implies increasing(#[trigger] g[k].1) by {
                if k == pos {
                    let s = g[k].1;
                    assert forall|a: int, b: int| 0 <= a < b < s.len() implies s[a] < s[b] by {
                        if b < s.len() - 1 {
                            assert(s[a] == g0[k].1[a] && s[b] == g0[k].1[b]);
                        } else {
                            assert(s[a] == g0[k].1[a]);
                            assert(g0[k].1[a] < d.len());
                            assert(s[b] == i);
                        }
                    }
                }
            }
            assert forall|k: int, m: int| 0 <= k < g.len() && 0 <= m < g[k].1.len() implies (
            #[trigger] g[k].1[m]) < keys.len() by {
                if k == pos && m < g0[k].1.len() {
                    assert(g[k].1[m] == g0[k].1[m]);
                }
            }
            assert forall|k: int, l: int| 0 <= k < l < g.len() implies disjoint_members(
                #[trigger] g[k].1,
                #[trigger] g[l].1,
            ) by {
                assert(disjoint_members(g0[k].1, g0[l].1));
                assert forall|m: int, n: int| 0 <= m < g[k].1.len() && 0 <= n < g[l].1.len() implies g[k].1[m]
                    != g[l].1[n] by {
                    if k == pos && m < g0[k].1.len() {
                        assert(g[k].1[m] == g0[k].1[m]);
                    }
                    if l == pos && n < g0[l].1.len() {
                        assert(g[l].1[n] == g0[l].1[n]);
                    }
                    if k != pos {
                        assert(g[k] == g0[k]);
                    }
                    if l != pos {
                        assert(g[l] == g0[l]);
                    }
                    if k == pos && m == g0[k].1.len() {
                        assert(g[k].1[m] == i);
                        assert(g0[l].1[n] < d.len());
                    }
                    if l == pos && n == g0[l].1.len() {
                        assert(g[l].1[n] == i);
                        assert(g0[k].1[m] < d.len());
                    }
                }
            }
        } else {
            assert(g == g0.push((p, seq![i])));
            assert forall|k: int| 0 <= k < g.len() implies increasing(#[trigger] g[k].1) by {
                if k < g0.len() {
                    assert(g[k] == g0[k]);
                }
            }
            assert forall|k: int, m: int| 0 <= k < g.len() && 0 <= m < g[k].1.len() implies (
            #[trigger] g[k].1[m]) < keys.len() by {
                if k < g0.len() {
                    assert(g[k] == g0[k]);
                }
            }
            assert forall|k: int, l: int| 0 <= k < l < g.len() implies disjoint_members(
                #[trigger] g[k].1,
                #[trigger] g[l].1,
            ) by {
                assert(g[k] == g0[k]);
                if l < g0.len() {
                    assert(g[l] == g0[l]);
                    assert(disjoint_members(g0[k].1, g0[l].1));
                } else {
                    assert forall|m: int, n: int| 0 <= m < g[k].1.len() && 0 <= n < g[l].1.len() implies g[k].1[m]
                        != g[l].1[n] by {
                        assert(g0[k].1[m] < d.len());
                    }
                }
            }
        }
    }
}

/// `candidates_with` reads only the regexes of the message groups it is given.
proof fn lemma_candidates_with_regexes(
    entries: Seq<Seq<char>>,
    groups: Seq<(Seq<char>, Seq<usize>)>,
    r1: Seq<Seq<char>>,
    r2: Seq<Seq<char>>,
    min_group_size: usize,
)
    requires
        groups.len() <= r1.len(),
        forall|i: int| 0 <= i < r1.len() ==> r1[i] == r2[i],
        r1.len() <= r2.len(),
    ensures
        candidates_with(entries, groups, r1, min_group_size) == candidates_with(entries, groups, r2, min_group_size),
        candidate_sources(entries, groups, r1, min_group_size) == candidate_sources(entries, groups, r2, min_group_size),
    decreases groups.len(),
{
    if groups.len() > 0 {
        lemma_candidates_with_regexes(entries, groups.drop_last(), r1, r2, min_group_size);
    }
}

/// Each candidate comes from its own message group, in order.
proof fn lemma_candidates_with(
    entries: Seq<Seq<char>>,
    groups: Seq<(Seq<char>, Seq<usize>)>,
    regexes: Seq<Seq<char>>,
    min_group_size: usize,
)
    ensures
        candidate_sources(entries, groups, regexes, min_group_size).len() == candidates_with(
            entries,
            groups,
            regexes,
            min_group_size,
        ).len(),
        forall|p: int|
            0 <= p < candidate_sources(entries, groups, regexes, min_group_size).len() ==> 0
                <= #[trigger] candidate_sources(entries, groups, regexes, min_group_size)[p]
                < groups.len(),
        forall|p: int|
            0 <= p < candidates_with(entries, groups, regexes, min_group_size).len() ==> group_candidate(
                entries,
                groups[candidate_sources(entries, groups, regexes, min_group_size)[p]].1,
                min_group_size,
                regexes[candidate_sources(entries, groups, regexes, min_group_size)[p]],
            ) == Some(#[trigger] candidates_with(entries, groups, regexes, min_group_size)[p]),
        forall|p: int, q: int|
            0 <= p < q < candidate_sources(entries, groups, regexes, min_group_size).len() ==> (
            #[trigger] candidate_sources(entries, groups, regexes, min_group_size)[p])
                < #[trigger] candidate_sources(entries, groups, regexes, min_group_size)[q],
    decreases groups.len(),
{
    if groups.len() > 0 {
        let d = groups.drop_last();
        lemma_candidates_with(entries, d, regexes, min_group_size);
        let l0 = candidates_with(entries, d, regexes, min_group_size);
        let s0 = candidate_sources(entries, d, regexes, min_group_size);
        let l = candidates_with(entries, groups, regexes, min_group_size);
        let s = candidate_sources(entries, groups, regexes, min_group_size);
        let n = groups.len() - 1;
        match group_candidate(entries, groups.last().1, min_group_size, regexes[n]) {
            Some(c) => {
                assert(l == l0.push(c));
                assert(s == s0.push(n));
            },
            None => {
                assert(l == l0);
                assert(s == s0);
            },
        }
        assert forall|p: int| 0 <= p < s.len() implies 0 <= #[trigger] s[p] < groups.len() by {
            if p < s0.len() {
                assert(s[p] == s0[p]);
            }
        }
        assert forall|p: int| 0 <= p < l.len() implies group_candidate(
            entries,
            groups[s[p]].1,
            min_group_size,
            regexes[s[p]],
        ) == Some(#[trigger] l[p]) by {
            if p < l0.len() {
                assert(l[p] == l0[p] && s[p] == s0[p]);
                assert(0 <= s0[p] < d.len());
                assert(groups[s0[p]] == d[s0[p]]);
            }
        }
        assert forall|p: int, q: int| 0 <= p < q < s.len() implies (#[trigger] s[p]) < #[trigger] s[q] by {
            if q < s0.len() {
                assert(s[p] == s0[p] && s[q] == s0[q]);
            } else {
                assert(s[p] == s0[p]);
                assert(0 <= s0[p] < d.len());
            }
        }
    }
}

/// Sorting by match count keeps groups disjoint.
proof fn lemma_sort_keeps_disjoint(gs: Seq<(Seq<char>, Seq<usize>, usize)>)
    requires
        pairwise_disjoint(gs),
    ensures
        pairwise_disjoint(sort_by_count(gs)),
    decreases gs.len(),
{
    if gs.len() > 0 {
        let d = gs.drop_last();
        assert(pairwise_disjoint(d)) by {
            assert forall|p: int, q: int| 0 <= p < q < d.len() implies disjoint_members(
                #[trigger] d[p].1,
                #[trigger] d[q].1,
            ) by {
                assert(d[p] == gs[p] && d[q] == gs[q]);
            }
        }
        lemma_sort_keeps_disjoint(d);
        lemma_sort_by_count(d);
        let t = sort_by_count(d);
        let x = gs.last();
        let pos = insert_position(t, x.2);
        lemma_insert_position_props(t, x.2);
        let u = t.insert(pos, x);
        assert(u == sort_by_count(gs));
        assert forall|y: (Seq<char>, Seq<usize>, usize)| #[trigger] t.contains(y) implies disjoint_members(
            y.1,
            x.1,
        ) by {
            assert(d.contains(y));
            let j = choose|j: int| 0 <= j < d.len() && d[j] == y;
            assert(gs[j] == y);
            assert(disjoint_members(gs[j].1, gs[gs.len() - 1].1));
        }
        assert forall|p: int, q: int| 0 <= p < q < u.len() implies disjoint_members(
            #[trigger] u[p].1,
            #[trigger] u[q].1,
        ) by {
            if q < pos {
                assert(u[p] == t[p] && u[q] == t[q]);
            } else if q == pos {
                assert(u[p] == t[p]);
                assert(t.contains(t[p]));
            } else if p < pos {
                assert(u[p] == t[p] && u[q] == t[q - 1]);
            } else if p == pos {
                assert(u[q] == t[q - 1]);
                assert(t.contains(t[q - 1]));
                assert(disjoint_members(t[q - 1].1, x.1));
            } else {
                assert(u[p] == t[p - 1] && u[q] == t[q - 1]);
            }
        }
    }
}

/// The candidates of the message groups of `entries` are well formed and disjoint.
proof fn lemma_candidates_facts(entries: Seq<Seq<char>>, min_group_size: usize, regexes: Seq<Seq<char>>)
    requires
        entries.len() <= usize::MAX,
    ensures
        forall|p: int|
            0 <= p < candidates_with(entries, message_groups(entries), regexes, min_group_size).len()
                ==> well_formed_group(
                entries,
                min_group_size,
                #[trigger] candidates_with(entries, message_groups(entries), regexes, min_group_size)[p],
            ),
        pairwise_disjoint(candidates_with(entries, message_groups(entries), regexes, min_group_size)),
{
    let keys = entries.map_values(|e: Seq<char>| spec_extract_prefix(e));
    let groups = message_groups(entries);
    assert(groups == prefix_groups(keys));
    lemma_prefix_groups(keys);
    lemma_candidates_with(entries, groups, regexes, min_group_size);
    let l = candidates_with(entries, groups, regexes, min_group_size);
    let s = candidate_sources(entries, groups, regexes, min_group_size);
    assert forall|p: int| 0 <= p < l.len() implies well_formed_group(entries, min_group_size, #[trigger] l[p]) by {
        let src = s[p];
        let idx = groups[src].1;
        let rust = spec_posix_to_rust(spec_modern_to_posix(regexes[src]));
        assert(group_candidate(entries, idx, min_group_size, regexes[src]) == Some(l[p]));
        assert(increasing(idx));
        lemma_matching_members(entries, idx, rust);
        assert(l[p].1 == matching_members(entries, idx, rust));
        assert forall|k: int| 0 <= k < l[p].1.len() implies #[trigger] l[p].1[k] < entries.len() by {
            assert(idx.contains(l[p].1[k]));
            let j = choose|j: int| 0 <= j < idx.len() && idx[j] == l[p].1[k];
            assert(groups[src].1[j] < keys.len());
        }
    }
    assert forall|p: int, q: int| 0 <= p < q < l.len() implies disjoint_members(
        #[trigger] l[p].1,
        #[trigger] l[q].1,
    ) by {
        let sp = s[p];
        let sq = s[q];
        assert(sp < sq);
        assert(group_candidate(entries, groups[sp].1, min_group_size, regexes[sp]) == Some(l[p]));
        assert(group_candidate(entries, groups[sq].1, min_group_size, regexes[sq]) == Some(l[q]));
        let rp = spec_posix_to_rust(spec_modern_to_posix(regexes[sp]));
        let rq = spec_posix_to_rust(spec_modern_to_posix(regexes[sq]));
        lemma_matching_members(entries, groups[sp].1, rp);
        lemma_matching_members(entries, groups[sq].1, rq);
        assert(disjoint_members(groups[sp].1, groups[sq].1));
        assert forall|m: int, n: int| 0 <= m < l[p].1.len() && 0 <= n < l[q].1.len() implies l[p].1[m] != l[q].1[n] by {
            assert(groups[sp].1.contains(l[p].1[m]));
            assert(groups[sq].1.contains(l[q].1[n]));
            let a = choose|a: int| 0 <= a < groups[sp].1.len() && groups[sp].1[a] == l[p].1[m];
            let b = choose|b: int| 0 <= b < groups[sq].1.len() && groups[sq].1[b] == l[q].1[n];
            assert(groups[sp].1[a] != groups[sq].1[b]);
        }
    }
}

/// `group_and_generate` lists its groups by match count, largest first, whatever
/// regexes grex generated.
pub proof fn lemma_groups_sorted_by_count(entries: Seq<Seq<char>>, min_group_size: usize, regexes: Seq<Seq<char>>)
    ensures
        sorted_by_count(spec_group_and_generate(entries, min_group_size, regexes)),
{
    lemma_sort_by_count(candidates_with(entries, message_groups(entries), regexes, min_group_size));
}

/// Every group `group_and_generate` proposes, whatever regexes grex generated,
/// has at least `min_group_size` members, given in increasing order and within
/// bounds; its match count is its number of members, and its regex (in Rust
/// syntax) matches each member.
pub proof fn lemma_groups_match_their_members(
    entries: Seq<Seq<char>>,
    min_group_size: usize,
    regexes: Seq<Seq<char>>,
)
    requires
        entries.len() <= usize::MAX,
    ensures
        forall|i: int|
            0 <= i < spec_group_and_generate(entries, min_group_size, regexes).len() ==> well_formed_group(
                entries,
                min_group_size,
                #[trigger] spec_group_and_generate(entries, min_group_size, regexes)[i],
            ),
{
    let cands = candidates_with(entries, message_groups(entries), regexes, min_group_size);
    lemma_candidates_facts(entries, min_group_size, regexes);
    lemma_sort_by_count(cands);
    let r = spec_group_and_generate(entries, min_group_size, regexes);
    assert forall|i: int| 0 <= i < r.len() implies well_formed_group(entries, min_group_size, #[trigger] r[i]) by {
        assert(r.contains(r[i]));
        assert(cands.contains(r[i]));
        let j = choose|j: int| 0 <= j < cands.len() && cands[j] == r[i];
        assert(well_formed_group(entries, min_group_size, cands[j]));
    }
}

/// No message belongs to two of the groups `group_and_generate` proposes,
/// whatever regexes grex generated.
pub proof fn lemma_groups_disjoint(entries: Seq<Seq<char>>, min_group_size: usize, regexes: Seq<Seq<char>>)
    requires
        entries.len() <= usize::MAX,
    ensures
        pairwise_disjoint(spec_group_and_generate(entries, min_group_size, regexes)),
{
    lemma_candidates_facts(entries, min_group_size, regexes);
    lemma_sort_keeps_disjoint(candidates_with(entries, message_groups(entries), regexes, min_group_size));
}

} // verus!
