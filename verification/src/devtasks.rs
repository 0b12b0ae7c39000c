//! Checks and texts of the project's development tasks: release version
//! numbers and logcheck rules generated from sample log lines.
use vstd::prelude::*;

use crate::regex_api::{grex_build, regex_matches};
use crate::text::{char_vec_views, chars_of, lines_of, push_str, split_lines, string_from_chars, views};

verus! {

/// The pieces of `s` between dots (`str::split('.')`): one more than the dots.
pub open spec fn dot_pieces(s: Seq<char>) -> Seq<Seq<char>>
    decreases s.len(),
{
    if s.len() == 0 {
        seq![seq![]]
    } else {
        let p = dot_pieces(s.drop_last());
        if s.last() == '.' {
            p.push(seq![])
        } else {
            p.drop_last().push(p.last().push(s.last()))
        }
    }
}

/// `c` is one of the ASCII digits.
pub open spec fn is_ascii_digit(c: char) -> bool {
    '0' <= c && c <= '9'
}

/// The number the decimal digits `d` write.
pub open spec fn digits_value(d: Seq<char>) -> int
    decreases d.len(),
{
    if d.len() == 0 {
        0
    } else {
        digits_value(d.drop_last()) * 10 + (d.last() as int - '0' as int)
    }
}

/// The digits of a number written with an optional leading `+`.
pub open spec fn unsigned_digits(s: Seq<char>) -> Seq<char> {
    if s.len() > 0 && s[0] == '+' {
        s.drop_first()
    } else {
        s
    }
}

/// Every character is an ASCII digit.
pub open spec fn all_digits(d: Seq<char>) -> bool {
    forall|i: int| 0 <= i < d.len() ==> is_ascii_digit(#[trigger] d[i])
}

/// `s` parses as a `u32` (`str::parse::<u32>`): an optional `+`, then one or
/// more ASCII digits whose value fits in 32 bits.
pub open spec fn parses_as_u32(s: Seq<char>) -> bool {
    let d = unsigned_digits(s);
    d.len() > 0 && all_digits(d) && digits_value(d) <= u32::MAX
}

/// A release version is three dot-separated numbers, each a `u32`.
pub open spec fn spec_is_valid_semver(version: Seq<char>) -> bool {
    let p = dot_pieces(version);
    p.len() == 3 && forall|i: int| 0 <= i < 3 ==> parses_as_u32(#[trigger] p[i])
}

proof fn lemma_digits_value_nonneg(d: Seq<char>)
    requires
        forall|i: int| 0 <= i < d.len() ==> is_ascii_digit(#[trigger] d[i]),
    ensures
        digits_value(d) >= 0,
    decreases d.len(),
{
    if d.len() > 0 {
        let e = d.drop_last();
        assert forall|i: int| 0 <= i < e.len() implies is_ascii_digit(#[trigger] e[i]) by {
            assert(e[i] == d[i]);
        }
        lemma_digits_value_nonneg(e);
        assert(is_ascii_digit(d[d.len() - 1]));
    }
}

/// Whether the characters parse as a `u32`.
fn parses_u32(s: &Vec<char>) -> (r: bool)
    ensures
        r == parses_as_u32(s@),
{
    let start: usize = if s.len() > 0 && s[0] == '+' {
        1
    } else {
        0
    };
    let ghost d = unsigned_digits(s@);
    assert(d =~= s@.skip(start as int));
    if start >= s.len() {
        return false;
    }
    let limit: u64 = 0x1_0000_0000;
    let mut acc: u64 = 0;
    let mut i: usize = start;
    assert(d.take(0) =~= Seq::<char>::empty());
    while i < s.len()
        invariant
            start <= i <= s@.len(),
            d == s@.skip(start as int),
            d == unsigned_digits(s@),
            limit == 0x1_0000_0000,
            forall|k: int| 0 <= k < i - start ==> is_ascii_digit(#[trigger] d[k]),
            acc == if digits_value(d.take(i - start)) < limit {
                digits_value(d.take(i - start))
            } else {
                limit as int
            },
        decreases s.len() - i,
    {
        let c = s[i];
        let ghost t = d.take(i - start);
        let ghost t1 = d.take(i - start + 1);
        assert(d[i - start] == c);
        if !('0' <= c && c <= '9') {
            proof {
                let j = i - start;
                assert(!is_ascii_digit(d[j]));
                assert(!all_digits(d));
            }
            return false;
        }
        proof {
            assert(t1.drop_last() =~= t);
            assert(t1.last() == c);
            assert forall|k: int| 0 <= k < t.len() implies is_ascii_digit(#[trigger] t[k]) by {
                assert(t[k] == d[k]);
            }
            lemma_digits_value_nonneg(t);
        }
        let digit: u64 = (c as u32 - '0' as u32) as u64;
        let next = acc * 10 + digit;
        acc = if next < limit {
            next
        } else {
            limit
        };
        i = i + 1;
    }
    assert(d.take(s@.len() - start) =~= d);
    acc < limit
}

/// Whether a release version is valid: three dot-separated numbers.
pub fn is_valid_semver(version: &str) -> (r: bool)
    ensures
        r == spec_is_valid_semver(version@),
{
    let cs = chars_of(version);
    let mut parts: Vec<Vec<char>> = Vec::new();
    parts.push(Vec::new());
    let mut i: usize = 0;
    assert(cs@.take(0) =~= Seq::<char>::empty());
    assert(char_vec_views(parts@) =~= dot_pieces(cs@.take(0)));
    while i < cs.len()
        invariant
            i <= cs@.len(),
            cs@ == version@,
            char_vec_views(parts@) == dot_pieces(cs@.take(i as int)),
            parts@.len() >= 1,
        decreases cs.len() - i,
    {
        let c = cs[i];
        let ghost p = dot_pieces(cs@.take(i as int));
        assert(cs@.take(i + 1).drop_last() =~= cs@.take(i as int));
        assert(cs@.take(i + 1).last() == c);
        proof {
            lemma_dot_pieces_nonempty(cs@.take(i as int));
        }
        if c == '.' {
            parts.push(Vec::new());
            assert(char_vec_views(parts@) =~= p.push(seq![]));
        } else {
            let mut last = parts.pop().unwrap();
            let ghost before = parts@;
            last.push(c);
            parts.push(last);
            assert(char_vec_views(before) =~= p.drop_last());
            assert(char_vec_views(parts@) =~= p.drop_last().push(p.last().push(c)));
        }
        i = i + 1;
    }
    assert(cs@.take(cs@.len() as int) =~= cs@);
    if parts.len() != 3 {
        return false;
    }
    let a = parses_u32(&parts[0]);
    let b = parses_u32(&parts[1]);
    let c = parses_u32(&parts[2]);
    proof {
        let p = dot_pieces(version@);
        assert(p[0] == parts@[0]@ && p[1] == parts@[1]@ && p[2] == parts@[2]@);
        if a && b && c {
            assert forall|k: int| 0 <= k < 3 implies parses_as_u32(#[trigger] p[k]) by {
                if k == 0 {
                } else if k == 1 {
                } else {
                }
            }
        }
    }
    a && b && c
}

proof fn lemma_dot_pieces_nonempty(s: Seq<char>)
    ensures
        dot_pieces(s).len() >= 1,
    decreases s.len(),
{
    if s.len() > 0 {
        lemma_dot_pieces_nonempty(s.drop_last());
    }
}

/// Generating a rule failed.
#[derive(Debug, Clone, Copy, PartialEq, Eq, Structural)]
pub enum PatternGenError {
    /// The log held no non-empty line.
    NoLines,
}

/// The non-empty lines of a log.
pub open spec fn nonempty_lines(content: Seq<char>) -> Seq<Seq<char>> {
    lines_of(content).filter(|l: Seq<char>| l.len() > 0)
}

/// The rule text for a regex generated from a log's sample lines: a comment
/// naming the log, then the regex anchored at both ends.
pub open spec fn spec_rule_text(source: Seq<char>, regex: Seq<char>) -> Seq<char> {
    "# Generated from "@ + source + "\n^"@ + regex + "$\n"@
}

/// The rule text for `regex`, generated from the log named `source`.
pub fn rule_text(source: &str, regex: &str) -> (r: String)
    ensures
        r@ == spec_rule_text(source@, regex@),
{
    let mut out: Vec<char> = Vec::new();
    push_str(&mut out, "# Generated from ");
    push_str(&mut out, source);
    push_str(&mut out, "\n^");
    push_str(&mut out, regex);
    push_str(&mut out, "$\n");
    let r = string_from_chars(&out);
    assert(r@ =~= spec_rule_text(source@, regex@));
    r
}

/// The sample lines of a log: its non-empty lines, in order.
pub fn sample_lines(content: &str) -> (r: Vec<String>)
    ensures
        views(r@) == nonempty_lines(content@),
{
    let cs = chars_of(content);
    let lines = split_lines(&cs);
    let ghost all = char_vec_views(lines@);
    let mut kept: Vec<String> = Vec::new();
    let mut k: usize = 0;
    assert(all.take(0) =~= Seq::<Seq<char>>::empty());
    while k < lines.len()
        invariant
            k <= lines@.len(),
            all == char_vec_views(lines@),
            views(kept@) == all.take(k as int).filter(|l: Seq<char>| l.len() > 0),
        decreases lines.len() - k,
    {
        assert(all.take(k + 1).drop_last() =~= all.take(k as int));
        assert(all.take(k + 1).last() == lines@[k as int]@);
        reveal(Seq::filter);
        if lines[k].len() > 0 {
            let ghost before = views(kept@);
            kept.push(string_from_chars(&lines[k]));
            assert(views(kept@) =~= before.push(lines@[k as int]@));
        }
        k = k + 1;
    }
    assert(all.take(lines@.len() as int) =~= all);
    kept
}

/// Generate a logcheck rule from the sample lines of a log (`source` names it):
/// grex builds a regex for the log's non-empty lines. Without such a line there
/// is no rule; otherwise the rule is the text `rule_text` gives for grex's regex,
/// which matches every sample line.
pub fn generated_rule(source: &str, content: &str) -> (r: Result<String, PatternGenError>)
    ensures
        nonempty_lines(content@).len() == 0 <==> r == Err::<String, PatternGenError>(
            PatternGenError::NoLines,
        ),
        r matches Ok(s) ==> exists|regex: Seq<char>|
            s@ == #[trigger] spec_rule_text(source@, regex) && forall|i: int|
                0 <= i < nonempty_lines(content@).len() ==> regex_matches(
                    regex,
                    #[trigger] nonempty_lines(content@)[i],
                ),
{
    let kept = sample_lines(content);
    if kept.len() == 0 {
        return Err(PatternGenError::NoLines);
    }
    let regex = grex_build(&kept);
    let r = rule_text(source, regex.as_str());
    assert(r@ == spec_rule_text(source@, regex@));
    assert forall|i: int| 0 <= i < nonempty_lines(content@).len() implies regex_matches(
        regex@,
        #[trigger] nonempty_lines(content@)[i],
    ) by {
        assert(kept@[i]@ == views(kept@)[i]);
    }
    Ok(r)
}

} // verus!
