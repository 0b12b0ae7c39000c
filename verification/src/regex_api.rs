//! The calls this library makes into the `regex` and `grex` crates.
//!
//! Each item here is trusted: its contract restates what the outside crate's
//! documentation and source say, and is not proved.
use vstd::prelude::*;

use crate::text::{byte_len, is_boundary, views};

verus! {

/// `regex::Regex`, a compiled regular expression (opaque).
#[verifier::external_type_specification]
#[verifier::external_body]
pub struct ExRegex(regex::Regex);

/// `regex::RegexSet`, a set of compiled regular expressions (opaque).
#[verifier::external_type_specification]
#[verifier::external_body]
pub struct ExRegexSet(regex::RegexSet);

/// `regex::Error`, the error of a failed compilation (opaque).
#[verifier::external_type_specification]
#[verifier::external_body]
pub struct ExRegexError(regex::Error);

/// Whether `Regex::new` accepts the pattern (valid syntax, within the default size limit).
pub uninterp spec fn regex_compiles(pattern: Seq<char>) -> bool;

/// The pattern a `Regex` was built from (what `Regex::as_str` returns).
pub uninterp spec fn regex_pattern(re: regex::Regex) -> Seq<char>;

/// Whether the regex written `pattern` matches somewhere in `haystack`
/// (what `Regex::is_match` returns; unanchored search).
pub uninterp spec fn regex_matches(pattern: Seq<char>, haystack: Seq<char>) -> bool;

/// Whether `RegexSet::new` accepts the patterns (each of valid syntax, the whole
/// within the default size limits).
pub uninterp spec fn regex_set_compiles(patterns: Seq<Seq<char>>) -> bool;

/// The error `RegexSet::new` returns for the patterns when it refuses them
/// (a syntax error, or `CompiledTooBig` with the default size limit).
pub uninterp spec fn regex_set_error(patterns: Seq<Seq<char>>) -> regex::Error;

/// The text of a `regex::Error` (its `Display`: the syntax error's message, or
/// the size-limit message).
pub uninterp spec fn regex_error_message(e: regex::Error) -> Seq<char>;

/// The patterns a `RegexSet` was built from, in order (what `RegexSet::patterns` returns).
pub uninterp spec fn regex_set_patterns(set: regex::RegexSet) -> Seq<Seq<char>>;

/// The byte ranges of the successive non-overlapping matches of the regex
/// written `pattern` in `haystack` (what `Regex::find_iter` yields).
pub uninterp spec fn regex_match_ranges(pattern: Seq<char>, haystack: Seq<char>) -> Seq<(usize, usize)>;

/// Some pattern of `patterns` matches `haystack`.
pub open spec fn any_matches(patterns: Seq<Seq<char>>, haystack: Seq<char>) -> bool {
    exists|i: int| 0 <= i < patterns.len() && regex_matches(#[trigger] patterns[i], haystack)
}

/// `regex::Regex::new`: succeeds exactly when the pattern compiles, and the
/// regex it returns is the regex of that pattern.
#[verifier::external_body]
pub(crate) fn regex_new(pattern: &str) -> (r: Result<regex::Regex, regex::Error>)
    ensures
        r.is_ok() == regex_compiles(pattern@),
        r matches Ok(re) ==> regex_pattern(re) == pattern@,
{
    regex::Regex::new(pattern)
}

/// `regex::Regex::is_match`: whether the regex matches anywhere in the haystack.
#[verifier::external_body]
pub(crate) fn regex_is_match(re: &regex::Regex, haystack: &str) -> (b: bool)
    ensures
        b == regex_matches(regex_pattern(*re), haystack@),
{
    re.is_match(haystack)
}

/// `regex::Regex::find_iter`, each match as its byte range (`Match::start`,
/// `Match::end`). The matches come in order without overlapping; each starts
/// no later than it ends, and both ends are character boundaries of the
/// haystack (it is always safe to slice the haystack with them).
#[verifier::external_body]
pub(crate) fn regex_find_ranges(re: &regex::Regex, haystack: &str) -> (r: Vec<(usize, usize)>)
    ensures
        r@ == regex_match_ranges(regex_pattern(*re), haystack@),
        forall|i: int|
            0 <= i < r@.len() ==> {
                &&& (#[trigger] r@[i]).0 <= r@[i].1 <= byte_len(haystack@)
                &&& is_boundary(haystack@, r@[i].0 as int)
                &&& is_boundary(haystack@, r@[i].1 as int)
            },
        forall|i: int| 0 <= i < r@.len() - 1 ==> (#[trigger] r@[i]).1 <= r@[i + 1].0,
{
    re.find_iter(haystack).map(|m| (m.start(), m.end())).collect()
}

/// `regex::RegexSet::new`: succeeds exactly when the patterns compile together
/// (a syntax error or the size limit, both decided inside regex, make it fail);
/// on success, the set holds the given patterns in order.
#[verifier::external_body]
pub(crate) fn regex_set_new(patterns: &Vec<String>) -> (r: Result<regex::RegexSet, regex::Error>)
    ensures
        r.is_ok() == regex_set_compiles(views(patterns@)),
        r matches Ok(set) ==> regex_set_patterns(set) == views(patterns@),
        r matches Err(e) ==> e == regex_set_error(views(patterns@)),
{
    regex::RegexSet::new(patterns)
}

/// `regex::RegexSet::is_match`: true if and only if one of the regexes in the set matches.
#[verifier::external_body]
pub(crate) fn regex_set_is_match(set: &regex::RegexSet, haystack: &str) -> (b: bool)
    ensures
        b == any_matches(regex_set_patterns(*set), haystack@),
{
    set.is_match(haystack)
}

/// The `Display` text of a `regex::Error` (`ToString::to_string`).
#[verifier::external_body]
pub(crate) fn regex_error_text(e: &regex::Error) -> (r: String)
    ensures
        r@ == regex_error_message(*e),
{
    e.to_string()
}

/// `grex::RegExpBuilder::from(lines)` with the conversion of digits, words and
/// repetitions, then `build`. grex panics on an empty list of lines.
///
/// grex guarantees that the regex it generates matches each of the lines it
/// was generated from (and it is written for the `regex` crate). Nothing more is
/// stated of the regex: grex picks representatives of merged automaton states
/// from a `HashSet` seeded per process, so the same lines may give differently
/// written regexes from one run to the next.
#[verifier::external_body]
pub(crate) fn grex_build(lines: &Vec<String>) -> (r: String)
    requires
        lines@.len() > 0,
    ensures
        forall|i: int| 0 <= i < lines@.len() ==> regex_matches(r@, #[trigger] lines@[i]@),
{
    grex::RegExpBuilder::from(lines)
        .with_conversion_of_digits()
        .with_conversion_of_words()
        .with_conversion_of_repetitions()
        .build()
}

} // verus!
