//! The state of the interactive analyzer and the regex editing it offers.
use vstd::prelude::*;

use crate::cli::analyzer::pattern_grouper::{spec_display, PatternGroup};
use crate::cli::analyzer::tui::save_dialog::SaveDialog;
use crate::regex_api::{regex_compiles, regex_is_match, regex_matches, regex_new, regex_pattern};
use crate::regex_conversion::{escaped, regex_escape};
use crate::text::{
    byte_len, byte_slice, char_offsets, char_width, chars_of, insert_at_byte, insert_char_at_byte,
    is_boundary, lemma_byte_len_take_monotonic, lemma_take_bytes_is_prefix, lemma_byte_len_take_step,
    lemma_char_width_bounds, lemma_take_bytes_at_prefix, push_all, push_str, str_byte_len,
    string_from_chars, subrange_chars, take_bytes,
};

verus! {

/// How a marked span of the sample line is generalized.
#[derive(Debug, Clone, Copy, PartialEq, Eq, Structural)]
pub enum ReplacementType {
    Wildcard,
    Word,
    Digit,
    NonSpace,
    Alternation,
}

/// A marked span of the sample line: byte positions `start..end`.
#[derive(Debug, Clone, Copy, PartialEq, Eq, Structural)]
pub struct EditSpan {
    pub start: usize,
    pub end: usize,
    pub replacement: ReplacementType,
}

/// Characters that belong to a word when marking a span.
pub open spec fn spec_is_word_char(c: char) -> bool {
    ('0' <= c <= '9') || ('a' <= c <= 'z') || ('A' <= c <= 'Z') || c == '_' || c == '-' || c
        == ':' || c == '(' || c == ')' || c == '=' || c == '.' || c == '/' || c == '[' || c
        == ']' || c == '@'
}

/// Whether `c` belongs to a word when marking a span.
pub fn is_word_char(c: char) -> (b: bool)
    ensures
        b == spec_is_word_char(c),
{
    ('0' <= c && c <= '9') || ('a' <= c && c <= 'z') || ('A' <= c && c <= 'Z') || c == '_' || c
        == '-' || c == ':' || c == '(' || c == ')' || c == '=' || c == '.' || c == '/' || c
        == '[' || c == ']' || c == '@'
}

/// The index of the first character of `s` that starts at byte position `b` or later
/// (`s.len()` when there is none).
pub open spec fn first_char_at_or_after(s: Seq<char>, b: int) -> int
    decreases s.len(),
{
    if s.len() == 0 || b <= 0 {
        0
    } else {
        1 + first_char_at_or_after(s.drop_first(), b - char_width(s[0]))
    }
}

/// The start of the run of word characters that ends just before index `i`.
pub open spec fn word_start(s: Seq<char>, i: int) -> int
    decreases i,
{
    if i > 0 && i <= s.len() && spec_is_word_char(s[i - 1]) {
        word_start(s, i - 1)
    } else {
        i
    }
}

/// The last index of the run of word characters that starts at index `i`.
pub open spec fn word_end(s: Seq<char>, i: int) -> int
    decreases s.len() - i,
{
    if 0 <= i && i + 1 < s.len() && spec_is_word_char(s[i + 1]) {
        word_end(s, i + 1)
    } else {
        i
    }
}

/// The byte position at which character `i` of `s` starts.
pub open spec fn char_start(s: Seq<char>, i: int) -> int {
    byte_len(s.take(i)) as int
}

/// The word under the cursor, as byte positions: the word character at (or just
/// after) byte position `cursor`, extended over the neighbouring word characters.
pub open spec fn spec_find_word_span(s: Seq<char>, cursor: int) -> Option<(usize, usize)> {
    let pos = first_char_at_or_after(s, cursor);
    if pos >= s.len() || !spec_is_word_char(s[pos]) {
        None
    } else {
        Some(
            (
                char_start(s, word_start(s, pos)) as usize,
                char_start(s, word_end(s, pos) + 1) as usize,
            ),
        )
    }
}

proof fn lemma_first_char_split(s: Seq<char>, b: int, i: int)
    requires
        0 <= i <= s.len(),
        forall|k: int| 0 <= k < i ==> char_start(s, k) < b,
    ensures
        first_char_at_or_after(s, b) == i + first_char_at_or_after(
            s.skip(i),
            b - char_start(s, i),
        ),
    decreases i,
{
    if i == 0 {
        assert(s.skip(0) =~= s);
        assert(s.take(0) =~= Seq::<char>::empty());
        assert(vstd::utf8::encode_utf8(s.take(0)) =~= Seq::<u8>::empty());
    } else {
        let t = s.drop_first();
        assert(char_start(s, 0) < b);
        assert(s.take(0) =~= Seq::<char>::empty());
        assert(vstd::utf8::encode_utf8(s.take(0)) =~= Seq::<u8>::empty());
        assert forall|k: int| 0 <= k < i - 1 implies char_start(t, k) < b - char_width(s[0]) by {
            lemma_byte_len_take_step(s, 0);
            assert(s.take(1) =~= seq![s[0]]);
            assert(s.take(k + 1) =~= seq![s[0]] + t.take(k));
            crate::text::lemma_byte_len_concat(seq![s[0]], t.take(k));
            assert(char_start(s, k + 1) < b);
        }
        lemma_first_char_split(t, b - char_width(s[0]), i - 1);
        assert(t.skip(i - 1) =~= s.skip(i));
        assert(s.take(i) =~= seq![s[0]] + t.take(i - 1));
        crate::text::lemma_byte_len_concat(seq![s[0]], t.take(i - 1));
        crate::text::lemma_byte_len_single(s[0]);
    }
}

/// Find the span of the word under the cursor, as byte positions.
pub fn find_word_span(line: &str, cursor: usize) -> (r: Option<(usize, usize)>)
    ensures
        r == spec_find_word_span(line@, cursor as int),
        r matches Some((a, b)) ==> a < b <= byte_len(line@) && is_boundary(line@, a as int)
            && is_boundary(line@, b as int),
{
    let chars = chars_of(line);
    let total = str_byte_len(line);
    let offs = char_offsets(&chars);
    let ghost s = chars@;
    let mut pos: usize = 0;
    while pos < chars.len() && offs[pos] < cursor
        invariant
            pos <= s.len(),
            s == chars@,
            offs@.len() == s.len() + 1,
            forall|k: int| 0 <= k <= s.len() ==> #[trigger] offs@[k] == byte_len(s.take(k)),
            forall|k: int| 0 <= k < pos ==> char_start(s, k) < cursor,
        decreases chars.len() - pos,
    {
        pos = pos + 1;
    }
    proof {
        lemma_first_char_split(s, cursor as int, pos as int);
        let t = s.skip(pos as int);
        if pos < s.len() {
            assert(t.len() > 0);
            assert(char_start(s, pos as int) >= cursor);
        } else {
            assert(t.len() == 0);
        }
    }
    if pos >= chars.len() || !is_word_char(chars[pos]) {
        return None;
    }
    let mut start = pos;
    while start > 0 && is_word_char(chars[start - 1])
        invariant
            start <= pos < s.len(),
            s == chars@,
            word_start(s, pos as int) == word_start(s, start as int),
        decreases start,
    {
        start = start - 1;
    }
    let mut end = pos;
    while end + 1 < chars.len() && is_word_char(chars[end + 1])
        invariant
            pos <= end < s.len(),
            s == chars@,
            word_end(s, pos as int) == word_end(s, end as int),
        decreases chars.len() - end,
    {
        end = end + 1;
    }
    proof {
        lemma_take_bytes_at_prefix(s, start as int);
        lemma_take_bytes_at_prefix(s, end + 1);
        lemma_byte_len_take_monotonic(s, start as int, end + 1);
        lemma_byte_len_take_monotonic(s, end + 1, s.len() as int);
        assert(s.take(s.len() as int) =~= s);
    }
    Some((offs[start], offs[end + 1]))
}

/// `&s[a..b]` when that slice exists (`str::get`): `a <= b <= len`, both boundaries.
pub open spec fn byte_get(s: Seq<char>, a: int, b: int) -> Option<Seq<char>> {
    if a <= b && b <= byte_len(s) && is_boundary(s, a) && is_boundary(s, b) {
        Some(byte_slice(s, a, b))
    } else {
        None
    }
}

/// The slice `&line[a..b]` if it exists.
pub fn str_get(line: &str, a: usize, b: usize) -> (r: Option<String>)
    ensures
        r matches Some(t) ==> byte_get(line@, a as int, b as int) == Some(t@),
        r is None ==> byte_get(line@, a as int, b as int) is None,
{
    let chars = chars_of(line);
    let total = str_byte_len(line);
    let offs = char_offsets(&chars);
    if a > b || b > total {
        return None;
    }
    let ia = index_of_offset(&chars, &offs, a);
    let ib = index_of_offset(&chars, &offs, b);
    match (ia, ib) {
        (Some(i), Some(j)) => {
            proof {
                lemma_take_bytes_at_prefix(chars@, i as int);
                lemma_take_bytes_at_prefix(chars@, j as int);
                if j < i {
                    lemma_byte_len_take_monotonic(chars@, j as int, i as int);
                }
                assert(chars@.take(j as int).skip(i as int) =~= chars@.subrange(
                    i as int,
                    j as int,
                ));
            }
            Some(string_from_chars(&subrange_chars(&chars, i, j)))
        },
        _ => None,
    }
}

/// The index of the character prefix that ends at byte position `b`, if any
/// (so whether `b` is a boundary).
fn index_of_offset(s: &Vec<char>, offs: &Vec<usize>, b: usize) -> (r: Option<usize>)
    requires
        offs@.len() == s@.len() + 1,
        forall|k: int| 0 <= k <= s@.len() ==> #[trigger] offs@[k] == byte_len(s@.take(k)),
    ensures
        r matches Some(i) ==> i <= s@.len() && offs@[i as int] == b,
        r is None <==> !is_boundary(s@, b as int),
{
    let mut i: usize = 0;
    while i < offs.len() && offs[i] < b
        invariant
            i <= s@.len() + 1,
            offs@.len() == s@.len() + 1,
            forall|k: int| 0 <= k <= s@.len() ==> #[trigger] offs@[k] == byte_len(s@.take(k)),
            forall|k: int| 0 <= k < i ==> offs@[k] < b,
        decreases offs.len() - i,
    {
        i = i + 1;
    }
    if i < offs.len() && offs[i] == b {
        proof {
            lemma_take_bytes_at_prefix(s@, i as int);
        }
        return Some(i);
    }
    proof {
        if is_boundary(s@, b as int) {
            let t = take_bytes(s@, b as int);
            lemma_take_bytes_is_prefix(s@, b as int);
            let m = t.len() as int;
            assert(offs@[m] == b);
            if m < i {
                assert(offs@[m] < b);
            } else if m > i {
                lemma_byte_len_take_monotonic(s@, i as int, m);
            }
        }
    }
    None
}

/// The cursor marker drawn into the edit line.
pub open spec fn cursor_mark() -> char {
    '\u{2502}'
}

/// The line with the cursor mark at byte position `cursor` (appended when past the end).
pub open spec fn spec_inject_cursor(s: Seq<char>, cursor: int) -> Seq<char> {
    if cursor <= byte_len(s) {
        insert_at_byte(s, cursor, cursor_mark())
    } else {
        s.push(cursor_mark())
    }
}

/// Draw the cursor into the line.
pub fn inject_cursor(line: &str, cursor: usize) -> (r: String)
    requires
        cursor <= byte_len(line@) ==> is_boundary(line@, cursor as int),
    ensures
        r@ == spec_inject_cursor(line@, cursor as int),
{
    let total = str_byte_len(line);
    if cursor <= total {
        insert_char_at_byte(line, cursor, '\u{2502}')
    } else {
        let mut v = chars_of(line);
        v.push('\u{2502}');
        string_from_chars(&v)
    }
}

/// The slice `&line[a..b]`, whose bounds are character boundaries.
pub fn str_slice(line: &str, a: usize, b: usize) -> (r: String)
    requires
        a <= b <= byte_len(line@),
        is_boundary(line@, a as int),
        is_boundary(line@, b as int),
    ensures
        r@ == byte_slice(line@, a as int, b as int),
{
    match str_get(line, a, b) {
        Some(t) => t,
        None => {
            assert(false);
            String::new()
        },
    }
}

/// Lexicographic order on character sequences by code point (the order of `String`).
pub open spec fn lex_lt(a: Seq<char>, b: Seq<char>) -> bool
    decreases a.len(),
{
    if a.len() == 0 {
        b.len() > 0
    } else if b.len() == 0 {
        false
    } else if a[0] != b[0] {
        (a[0] as u32) < (b[0] as u32)
    } else {
        lex_lt(a.drop_first(), b.drop_first())
    }
}

/// Whether `a` comes before `b`.
fn lex_less(a: &Vec<char>, b: &Vec<char>) -> (r: bool)
    ensures
        r == lex_lt(a@, b@),
{
    let mut i: usize = 0;
    assert(a@.skip(0) =~= a@);
    assert(b@.skip(0) =~= b@);
    while i < a.len() && i < b.len() && a[i] == b[i]
        invariant
            i <= a@.len(),
            i <= b@.len(),
            lex_lt(a@, b@) == lex_lt(a@.skip(i as int), b@.skip(i as int)),
        decreases a.len() - i,
    {
        proof {
            let x = a@.skip(i as int);
            let y = b@.skip(i as int);
            assert(x.drop_first() =~= a@.skip(i + 1));
            assert(y.drop_first() =~= b@.skip(i + 1));
        }
        i = i + 1;
    }
    let ghost x = a@.skip(i as int);
    let ghost y = b@.skip(i as int);
    if i == a.len() {
        i < b.len()
    } else if i == b.len() {
        false
    } else {
        assert(x[0] == a@[i as int] && y[0] == b@[i as int]);
        (a[i] as u32) < (b[i] as u32)
    }
}

/// `sorted` with `x` added in order, unless already present.
pub open spec fn insert_unique(sorted: Seq<Seq<char>>, x: Seq<char>) -> Seq<Seq<char>>
    decreases sorted.len(),
{
    if sorted.len() == 0 {
        seq![x]
    } else if sorted[0] == x {
        sorted
    } else if lex_lt(x, sorted[0]) {
        seq![x] + sorted
    } else {
        seq![sorted[0]] + insert_unique(sorted.drop_first(), x)
    }
}

/// The distinct values, sorted (what `sort` then `dedup` leave).
pub open spec fn sort_unique(vals: Seq<Seq<char>>) -> Seq<Seq<char>>
    decreases vals.len(),
{
    if vals.len() == 0 {
        seq![]
    } else {
        insert_unique(sort_unique(vals.drop_last()), vals.last())
    }
}

/// The values joined with `sep` between them.
pub open spec fn join_with(vals: Seq<Seq<char>>, sep: Seq<char>) -> Seq<char>
    decreases vals.len(),
{
    if vals.len() == 0 {
        seq![]
    } else if vals.len() == 1 {
        vals[0]
    } else {
        join_with(vals.drop_last(), sep) + sep + vals.last()
    }
}

/// The escaped text of the span in each sample that has it, in order.
pub open spec fn alternation_values(span: EditSpan, samples: Seq<Seq<char>>) -> Seq<Seq<char>> {
    samples.filter_map(
        |l: Seq<char>|
            match byte_get(l, span.start as int, span.end as int) {
                Some(t) => Some(escaped(t)),
                None => None,
            },
    )
}

/// What `build_alternation` returns: a non-capturing alternation of the distinct
/// sorted values, or `.*` when there are none.
pub open spec fn spec_build_alternation(span: EditSpan, samples: Seq<Seq<char>>) -> Seq<char> {
    let values = sort_unique(alternation_values(span, samples));
    if values.len() == 0 {
        ".*"@
    } else {
        "(?:"@ + join_with(values, "|"@) + ")"@
    }
}

/// The character views of a list of strings.
pub open spec fn string_views(v: Seq<String>) -> Seq<Seq<char>> {
    v.map_values(|s: String| s@)
}

/// Adds `x` to the sorted list of distinct values.
fn insert_unique_exec(sorted: &mut Vec<Vec<char>>, x: Vec<char>)
    ensures
        crate::text::char_vec_views(final(sorted)@) == insert_unique(
            crate::text::char_vec_views(old(sorted)@),
            x@,
        ),
{
    let ghost s = crate::text::char_vec_views(sorted@);
    let mut pos: usize = 0;
    assert(s.skip(0) =~= s);
    assert(s.take(0) + insert_unique(s, x@) =~= insert_unique(s, x@));
    while pos < sorted.len() && !crate::text::chars_eq(&sorted[pos], &x) && !lex_less(
        &x,
        &sorted[pos],
    )
        invariant
            pos <= sorted@.len(),
            s == crate::text::char_vec_views(sorted@),
            insert_unique(s, x@) == s.take(pos as int) + insert_unique(s.skip(pos as int), x@),
        decreases sorted.len() - pos,
    {
        proof {
            let r = s.skip(pos as int);
            assert(r[0] == s[pos as int]);
            assert(r.drop_first() =~= s.skip(pos + 1));
            assert(s.take(pos + 1) =~= s.take(pos as int) + seq![s[pos as int]]);
        }
        pos = pos + 1;
    }
    proof {
        let r = s.skip(pos as int);
        if pos < s.len() {
            assert(r[0] == s[pos as int]);
        }
    }
    if pos < sorted.len() && crate::text::chars_eq(&sorted[pos], &x) {
        assert(s.take(pos as int) + s.skip(pos as int) =~= s);
        return;
    }
    let ghost xv = x@;
    sorted.insert(pos, x);
    assert(crate::text::char_vec_views(sorted@) =~= s.take(pos as int) + (seq![xv] + s.skip(
        pos as int,
    )));
}

/// Build an alternation of the span's text over the sample lines.
pub fn build_alternation(span: &EditSpan, samples: &Vec<String>) -> (r: String)
    ensures
        r@ == spec_build_alternation(*span, string_views(samples@)),
{
    let ghost sv = string_views(samples@);
    let ghost f = |l: Seq<char>|
        match byte_get(l, span.start as int, span.end as int) {
            Some(t) => Some(escaped(t)),
            None => None,
        };
    let mut sorted: Vec<Vec<char>> = Vec::new();
    let mut k: usize = 0;
    assert(sv.take(0) =~= Seq::<Seq<char>>::empty());
    assert(crate::text::char_vec_views(sorted@) =~= Seq::<Seq<char>>::empty());
    while k < samples.len()
        invariant
            k <= samples@.len(),
            sv == string_views(samples@),
            f == (|l: Seq<char>|
                match byte_get(l, span.start as int, span.end as int) {
                    Some(t) => Some(escaped(t)),
                    None => None,
                }),
            crate::text::char_vec_views(sorted@) == sort_unique(sv.take(k as int).filter_map(f)),
        decreases samples.len() - k,
    {
        let ghost before = sv.take(k as int).filter_map(f);
        assert(sv.take(k + 1).drop_last() =~= sv.take(k as int));
        assert(sv.take(k + 1).last() == samples@[k as int]@);
        match str_get(samples[k].as_str(), span.start, span.end) {
            Some(t) => {
                let e = regex_escape(t.as_str());
                let ev = chars_of(e.as_str());
                assert(sv.take(k + 1).filter_map(f) == before + seq![ev@]);
                assert((before + seq![ev@]).drop_last() =~= before);
                insert_unique_exec(&mut sorted, ev);
            },
            None => {
                assert(sv.take(k + 1).filter_map(f) == before);
            },
        }
        k = k + 1;
    }
    assert(sv.take(samples@.len() as int) =~= sv);
    let mut out: Vec<char> = Vec::new();
    if sorted.len() == 0 {
        push_str(&mut out, ".*");
        return string_from_chars(&out);
    }
    let ghost vals = crate::text::char_vec_views(sorted@);
    push_str(&mut out, "(?:");
    let ghost head = out@;
    push_all(&mut out, &sorted[0]);
    let mut i: usize = 1;
    assert(vals.take(1).drop_last() =~= Seq::<Seq<char>>::empty());
    assert(join_with(vals.take(1), "|"@) == vals[0]);
    while i < sorted.len()
        invariant
            1 <= i <= sorted@.len(),
            vals == crate::text::char_vec_views(sorted@),
            out@ == head + join_with(vals.take(i as int), "|"@),
        decreases sorted.len() - i,
    {
        let ghost before = out@;
        push_str(&mut out, "|");
        push_all(&mut out, &sorted[i]);
        assert(vals.take(i + 1).drop_last() =~= vals.take(i as int));
        assert(vals.take(i + 1).last() == vals[i as int]);
        assert(out@ =~= head + (join_with(vals.take(i as int), "|"@) + "|"@ + vals[i as int]));
        i = i + 1;
    }
    assert(vals.take(sorted@.len() as int) =~= vals);
    push_str(&mut out, ")");
    string_from_chars(&out)
}

/// What `replacement_for_span` returns.
pub open spec fn spec_replacement(span: EditSpan, samples: Seq<Seq<char>>) -> Seq<char> {
    match span.replacement {
        ReplacementType::Wildcard => ".*"@,
        ReplacementType::Word => "\\w+"@,
        ReplacementType::Digit => "\\d+"@,
        ReplacementType::NonSpace => "\\S+"@,
        ReplacementType::Alternation => spec_build_alternation(span, samples),
    }
}

/// The regex text that replaces a marked span.
pub fn replacement_for_span(span: &EditSpan, samples: &Vec<String>) -> (r: String)
    ensures
        r@ == spec_replacement(*span, string_views(samples@)),
{
    match span.replacement {
        ReplacementType::Wildcard => crate::text::owned(".*"),
        ReplacementType::Word => crate::text::owned("\\w+"),
        ReplacementType::Digit => crate::text::owned("\\d+"),
        ReplacementType::NonSpace => crate::text::owned("\\S+"),
        ReplacementType::Alternation => build_alternation(span, samples),
    }
}

/// The byte position where the previous spans left off.
pub open spec fn spans_end(spans: Seq<EditSpan>) -> int {
    if spans.len() == 0 {
        0
    } else {
        spans.last().end as int
    }
}

/// The regex for the line up to the end of the last span: escaped literal text
/// between spans, the spans' replacements in their place.
pub open spec fn spans_body(s: Seq<char>, spans: Seq<EditSpan>, samples: Seq<Seq<char>>) -> Seq<char>
    decreases spans.len(),
{
    if spans.len() == 0 {
        seq![]
    } else {
        let prev = spans.drop_last();
        let cur = spans_end(prev);
        let sp = spans.last();
        spans_body(s, prev, samples) + (if sp.start > cur {
            escaped(byte_slice(s, cur, sp.start as int))
        } else {
            seq![]
        }) + spec_replacement(sp, samples)
    }
}

/// What `build_regex_from_spans` returns: the anchored, escaped line with each
/// marked span replaced.
pub open spec fn spec_build_regex(s: Seq<char>, spans: Seq<EditSpan>, samples: Seq<Seq<char>>) -> Seq<char> {
    if spans.len() == 0 {
        "^"@ + escaped(s) + "$"@
    } else {
        let end = spans_end(spans);
        "^"@ + spans_body(s, spans, samples) + (if end < byte_len(s) {
            escaped(byte_slice(s, end, byte_len(s) as int))
        } else {
            seq![]
        }) + "$"@
    }
}

/// `t` is the end of `r`.
pub open spec fn ends_with(r: Seq<char>, t: Seq<char>) -> bool {
    r.len() >= t.len() && r.subrange(r.len() - t.len(), r.len() as int) == t
}

/// The regex built from a sample line is anchored at both ends, and the text of
/// the line after the last marked span (all of it without spans) stands in it
/// regex-escaped (as `regex::escape` writes it), just before the closing `$`:
/// the literal rest of the line is matched literally.
pub proof fn lemma_built_regex_escapes_trailing_text(
    s: Seq<char>,
    spans: Seq<EditSpan>,
    samples: Seq<Seq<char>>,
)
    ensures
        spec_build_regex(s, spans, samples).len() >= 2,
        spec_build_regex(s, spans, samples)[0] == '^',
        spans_end(spans) < byte_len(s) ==> ends_with(
            spec_build_regex(s, spans, samples),
            escaped(byte_slice(s, spans_end(spans), byte_len(s) as int)) + seq!['$'],
        ),
        spans_end(spans) >= byte_len(s) ==> ends_with(spec_build_regex(s, spans, samples), seq!['$']),
        spans.len() == 0 ==> spec_build_regex(s, spans, samples) == seq!['^'] + escaped(s) + seq!['$'],
{
    reveal_strlit("^");
    reveal_strlit("$");
    let r = spec_build_regex(s, spans, samples);
    if spans.len() == 0 {
        lemma_take_bytes_at_prefix(s, s.len() as int);
        assert(s.take(s.len() as int) =~= s);
        assert(byte_slice(s, 0, byte_len(s) as int) =~= s);
        let t = escaped(s) + seq!['$'];
        assert(r =~= seq!['^'] + t);
        assert(r.subrange(r.len() - t.len(), r.len() as int) =~= t);
        assert(r.subrange(r.len() - 1, r.len() as int) =~= seq!['$']);
    } else {
        let end = spans_end(spans);
        let body = spans_body(s, spans, samples);
        if end < byte_len(s) {
            let t = escaped(byte_slice(s, end, byte_len(s) as int)) + seq!['$'];
            assert(r =~= seq!['^'] + body + t);
            assert(r.subrange(r.len() - t.len(), r.len() as int) =~= t);
        } else {
            assert(r =~= seq!['^'] + body + seq!['$']);
            assert(r.subrange(r.len() - 1, r.len() as int) =~= seq!['$']);
        }
    }
}

/// The slicing `build_regex_from_spans` does is on character boundaries, within the line.
#[verifier::opaque]
pub open spec fn spans_sliceable(s: Seq<char>, spans: Seq<EditSpan>) -> bool {
    &&& forall|i: int|
        0 <= i < spans.len() && (#[trigger] spans[i]).start > spans_end(spans.take(i)) ==> {
            &&& spans[i].start <= byte_len(s)
            &&& is_boundary(s, spans_end(spans.take(i)))
            &&& is_boundary(s, spans[i].start as int)
        }
    &&& spans_end(spans) < byte_len(s) ==> is_boundary(s, spans_end(spans))
}

/// Appends the escaped text from `cursor` up to the span, then the span's replacement.
fn push_span(regex: &mut Vec<char>, line: &str, cursor: usize, span: &EditSpan, samples: &Vec<String>)
    requires
        span.start > cursor ==> {
            &&& span.start <= byte_len(line@)
            &&& is_boundary(line@, cursor as int)
            &&& is_boundary(line@, span.start as int)
        },
    ensures
        final(regex)@ == old(regex)@ + (if span.start > cursor {
            escaped(byte_slice(line@, cursor as int, span.start as int))
        } else {
            seq![]
        }) + spec_replacement(*span, string_views(samples@)),
{
    let ghost start = regex@;
    if span.start > cursor {
        let piece = str_slice(line, cursor, span.start);
        let e = regex_escape(piece.as_str());
        push_str(regex, e.as_str());
    } else {
        assert(regex@ =~= start + Seq::<char>::empty());
    }
    let rep = replacement_for_span(span, samples);
    push_str(regex, rep.as_str());
}

proof fn lemma_spans_sliceable(s: Seq<char>, spans: Seq<EditSpan>, k: int)
    requires
        spans_sliceable(s, spans),
        0 <= k < spans.len(),
    ensures
        spans[k].start > spans_end(spans.take(k)) ==> {
            &&& spans[k].start <= byte_len(s)
            &&& is_boundary(s, spans_end(spans.take(k)))
            &&& is_boundary(s, spans[k].start as int)
        },
        spans_end(spans) < byte_len(s) ==> is_boundary(s, spans_end(spans)),
{
    reveal(spans_sliceable);
}

/// Build the regex for the sample line with the marked spans replaced.
pub fn build_regex_from_spans(line: &str, spans: &Vec<EditSpan>, samples: &Vec<String>) -> (r: String)
    requires
        spans_sliceable(line@, spans@),
    ensures
        r@ == spec_build_regex(line@, spans@, string_views(samples@)),
{
    let mut regex: Vec<char> = Vec::new();
    if spans.len() == 0 {
        push_str(&mut regex, "^");
        let e = regex_escape(line);
        push_str(&mut regex, e.as_str());
        push_str(&mut regex, "$");
        return string_from_chars(&regex);
    }
    let ghost sv = string_views(samples@);
    let total = str_byte_len(line);
    push_str(&mut regex, "^");
    let ghost head = regex@;
    let mut cursor: usize = 0;
    let mut k: usize = 0;
    assert(spans@.take(0) =~= Seq::<EditSpan>::empty());
    while k < spans.len()
        invariant
            k <= spans@.len(),
            sv == string_views(samples@),
            spans_sliceable(line@, spans@),
            cursor == spans_end(spans@.take(k as int)),
            total == byte_len(line@),
            regex@ == head + spans_body(line@, spans@.take(k as int), sv),
        decreases spans.len() - k,
    {
        let span = spans[k];
        assert(spans@.take(k + 1).drop_last() =~= spans@.take(k as int));
        assert(spans@.take(k + 1).last() == span);
        assert(spans@[k as int] == span);
        proof {
            lemma_spans_sliceable(line@, spans@, k as int);
        }
        let ghost before = regex@;
        push_span(&mut regex, line, cursor, &span, samples);
        assert(regex@ =~= head + spans_body(line@, spans@.take(k + 1), sv));
        cursor = span.end;
        k = k + 1;
    }
    assert(spans@.take(spans@.len() as int) =~= spans@);
    proof {
        lemma_spans_sliceable(line@, spans@, 0);
    }
    if cursor < total {
        proof {
            lemma_take_bytes_at_prefix(line@, line@.len() as int);
            assert(line@.take(line@.len() as int) =~= line@);
        }
        let piece = str_slice(line, cursor, total);
        let e = regex_escape(piece.as_str());
        push_str(&mut regex, e.as_str());
    }
    push_str(&mut regex, "$");
    string_from_chars(&regex)
}

/// Application state.
#[derive(Debug, Clone, Copy, PartialEq, Eq, Structural)]
pub enum AppState {
    /// Browsing patterns
    Browsing,
    /// Showing save dialog
    Saving,
    /// Showing full line modal
    Modal,
}

/// The box that has the focus.
#[derive(Debug, Clone, Copy, PartialEq, Eq, Structural)]
pub enum FocusBox {
    Patterns,
    Preview,
}

/// Where the line shown in the modal came from.
#[derive(Debug, Clone, Copy, PartialEq, Eq, Structural)]
pub enum ModalSource {
    Patterns,
    Preview,
}

/// Whether a pattern is being edited.
#[derive(Debug, Clone, Copy, PartialEq, Eq, Structural)]
pub enum EditMode {
    Select,
    Editing,
}

/// The lines whose span text forms an alternation.
#[derive(Debug, Clone, Copy, PartialEq, Eq, Structural)]
pub enum AlternationSource {
    Group,
    PreviewMatches,
}

/// Main TUI application state.
pub struct App {
    /// Current state
    pub state: AppState,
    /// Pattern groups to display
    pub patterns: Vec<PatternGroup>,
    /// All log entries for preview
    pub log_entries: Vec<String>,
    /// Currently selected pattern index
    pub selected_pattern: usize,
    /// Preview scroll offset
    pub preview_scroll: usize,
    /// Save dialog state
    pub save_dialog: Option<SaveDialog>,
    /// Focused box
    pub focused: FocusBox,
    /// Wrap mode for pattern list
    pub pattern_wrap: bool,
    /// Wrap mode for preview
    pub preview_wrap: bool,
    /// Horizontal scroll for pattern list
    pub pattern_h_scroll: usize,
    /// Horizontal scroll for preview
    pub preview_h_scroll: usize,
    /// Modal content
    pub modal_line: Option<String>,
    /// Modal source
    pub modal_source: Option<ModalSource>,
    /// Edit mode
    pub edit_mode: EditMode,
    /// Sample line for editing (from selected pattern)
    pub edit_line: Option<String>,
    /// Cursor position (bytes) within edit line
    pub edit_cursor: usize,
    /// Selected spans for replacement
    pub edit_spans: Vec<EditSpan>,
    /// Derived regex preview for editing mode
    pub edit_regex: Option<String>,
    /// Alternation source mode
    pub alternation_source: AlternationSource,
}

/// The lines at the given indices, skipping indices past the end.
pub open spec fn entries_at(log: Seq<Seq<char>>, idx: Seq<usize>) -> Seq<Seq<char>> {
    idx.filter_map(|i: usize| if i < log.len() { Some(log[i as int]) } else { None })
}

/// The lines the regex written `pattern` matches, in order.
pub open spec fn lines_matching(log: Seq<Seq<char>>, pattern: Seq<char>) -> Seq<Seq<char>>
    decreases log.len(),
{
    if log.len() == 0 {
        seq![]
    } else if regex_matches(pattern, log.last()) {
        lines_matching(log.drop_last(), pattern).push(log.last())
    } else {
        lines_matching(log.drop_last(), pattern)
    }
}

/// Every marked span lies on character boundaries of the line.
pub open spec fn spans_on_boundaries(s: Seq<char>, spans: Seq<EditSpan>) -> bool {
    forall|i: int|
        0 <= i < spans.len() ==> {
            &&& (#[trigger] spans[i]).start <= spans[i].end <= byte_len(s)
            &&& is_boundary(s, spans[i].start as int)
            &&& is_boundary(s, spans[i].end as int)
        }
}

/// Where a span goes in a list sorted by start: after every span that starts no later.
pub open spec fn span_position(sorted: Seq<EditSpan>, start: usize) -> int
    decreases sorted.len(),
{
    if sorted.len() == 0 {
        0
    } else if sorted[0].start <= start {
        1 + span_position(sorted.drop_first(), start)
    } else {
        0
    }
}

/// Stable sort of spans by start (`sort_by_key(|span| span.start)`).
pub open spec fn sort_spans(spans: Seq<EditSpan>) -> Seq<EditSpan>
    decreases spans.len(),
{
    if spans.len() == 0 {
        seq![]
    } else {
        let s = sort_spans(spans.drop_last());
        s.insert(span_position(s, spans.last().start), spans.last())
    }
}

/// The index of the first span covering exactly `start..end`, or -1.
pub open spec fn span_index(spans: Seq<EditSpan>, start: usize, end: usize) -> int
    decreases spans.len(),
{
    if spans.len() == 0 {
        -1
    } else {
        let k = span_index(spans.drop_last(), start, end);
        if k >= 0 {
            k
        } else if spans.last().start == start && spans.last().end == end {
            spans.len() - 1
        } else {
            -1
        }
    }
}

/// Marking the span `start..end`: unmarked when marked, else marked as a wildcard;
/// then the spans are sorted by start.
pub open spec fn toggled_spans(spans: Seq<EditSpan>, start: usize, end: usize) -> Seq<EditSpan> {
    let k = span_index(spans, start, end);
    if k >= 0 {
        sort_spans(spans.remove(k))
    } else {
        sort_spans(spans.push(EditSpan { start, end, replacement: ReplacementType::Wildcard }))
    }
}

/// The replacement that follows `r` when cycling.
pub open spec fn next_replacement(r: ReplacementType) -> ReplacementType {
    match r {
        ReplacementType::Wildcard => ReplacementType::Word,
        ReplacementType::Word => ReplacementType::Digit,
        ReplacementType::Digit => ReplacementType::NonSpace,
        ReplacementType::NonSpace => ReplacementType::Alternation,
        ReplacementType::Alternation => ReplacementType::Wildcard,
    }
}

proof fn lemma_boundary_zero(s: Seq<char>)
    ensures
        is_boundary(s, 0),
{
    if s.len() > 0 {
        lemma_char_width_bounds(s[0]);
    }
    assert(take_bytes(s, 0) =~= Seq::<char>::empty());
    assert(vstd::utf8::encode_utf8(Seq::<char>::empty()) =~= Seq::<u8>::empty());
}

proof fn lemma_boundaries_sliceable(s: Seq<char>, spans: Seq<EditSpan>)
    requires
        spans_on_boundaries(s, spans),
    ensures
        spans_sliceable(s, spans),
{
    reveal(spans_sliceable);
    lemma_boundary_zero(s);
    assert forall|i: int|
        0 <= i < spans.len() && (#[trigger] spans[i]).start > spans_end(spans.take(i)) implies {
        &&& spans[i].start <= byte_len(s)
        &&& is_boundary(s, spans_end(spans.take(i)))
        &&& is_boundary(s, spans[i].start as int)
    } by {
        if i > 0 {
            assert(spans.take(i).last() == spans[i - 1]);
        }
    }
}

proof fn lemma_sort_spans_elements(spans: Seq<EditSpan>)
    ensures
        sort_spans(spans).len() == spans.len(),
        forall|i: int|
            0 <= i < sort_spans(spans).len() ==> exists|j: int|
                0 <= j < spans.len() && #[trigger] sort_spans(spans)[i] == spans[j],
    decreases spans.len(),
{
    if spans.len() > 0 {
        let prev = spans.drop_last();
        lemma_sort_spans_elements(prev);
        let s = sort_spans(prev);
        lemma_span_position_bound(s, spans.last().start);
        let p = span_position(s, spans.last().start);
        let r = s.insert(p, spans.last());
        assert forall|i: int| 0 <= i < r.len() implies exists|j: int|
            0 <= j < spans.len() && #[trigger] r[i] == spans[j] by {
            if i < p {
                assert(r[i] == s[i]);
                let j = choose|j: int| 0 <= j < prev.len() && s[i] == prev[j];
                assert(spans[j] == prev[j]);
            } else if i == p {
                assert(r[i] == spans[spans.len() - 1]);
            } else {
                assert(r[i] == s[i - 1]);
                let j = choose|j: int| 0 <= j < prev.len() && s[i - 1] == prev[j];
                assert(spans[j] == prev[j]);
            }
        }
    }
}

proof fn lemma_span_position_bound(s: Seq<EditSpan>, start: usize)
    ensures
        0 <= span_position(s, start) <= s.len(),
    decreases s.len(),
{
    if s.len() > 0 {
        lemma_span_position_bound(s.drop_first(), start);
    }
}

proof fn lemma_toggled_on_boundaries(s: Seq<char>, spans: Seq<EditSpan>, start: usize, end: usize)
    requires
        spans_on_boundaries(s, spans),
        start <= end <= byte_len(s),
        is_boundary(s, start as int),
        is_boundary(s, end as int),
    ensures
        spans_on_boundaries(s, toggled_spans(spans, start, end)),
{
    let k = span_index(spans, start, end);
    lemma_span_index(spans, start, end);
    let base = if k >= 0 {
        spans.remove(k)
    } else {
        spans.push(EditSpan { start, end, replacement: ReplacementType::Wildcard })
    };
    assert(spans_on_boundaries(s, base)) by {
        assert forall|i: int| 0 <= i < base.len() implies {
            &&& (#[trigger] base[i]).start <= base[i].end <= byte_len(s)
            &&& is_boundary(s, base[i].start as int)
            &&& is_boundary(s, base[i].end as int)
        } by {
            if k >= 0 {
                if i < k {
                    assert(base[i] == spans[i]);
                } else {
                    assert(base[i] == spans[i + 1]);
                }
            } else if i < spans.len() {
                assert(base[i] == spans[i]);
            }
        }
    }
    lemma_sort_spans_elements(base);
    let r = sort_spans(base);
    assert forall|i: int| 0 <= i < r.len() implies {
        &&& (#[trigger] r[i]).start <= r[i].end <= byte_len(s)
        &&& is_boundary(s, r[i].start as int)
        &&& is_boundary(s, r[i].end as int)
    } by {
        let j = choose|j: int| 0 <= j < base.len() && r[i] == base[j];
        assert(base[j] == r[i]);
    }
}

proof fn lemma_span_index(spans: Seq<EditSpan>, start: usize, end: usize)
    ensures
        -1 <= span_index(spans, start, end) < spans.len(),
        span_index(spans, start, end) >= 0 ==> spans[span_index(spans, start, end)].start
            == start && spans[span_index(spans, start, end)].end == end,
        span_index(spans, start, end) >= 0 ==> forall|j: int|
            0 <= j < span_index(spans, start, end) ==> !(spans[j].start == start && spans[j].end
                == end),
        span_index(spans, start, end) < 0 ==> forall|j: int|
            0 <= j < spans.len() ==> !(spans[j].start == start && spans[j].end == end),
    decreases spans.len(),
{
    if spans.len() > 0 {
        let d = spans.drop_last();
        lemma_span_index(d, start, end);
        assert forall|j: int| 0 <= j < d.len() implies d[j] == spans[j] by {}
    }
}

/// The spans are ordered by start.
pub open spec fn spans_sorted(spans: Seq<EditSpan>) -> bool {
    forall|i: int, j: int| 0 <= i < j < spans.len() ==> spans[i].start <= spans[j].start
}

proof fn lemma_span_position_end(s: Seq<EditSpan>, start: usize)
    requires
        forall|i: int| 0 <= i < s.len() ==> s[i].start <= start,
    ensures
        span_position(s, start) == s.len(),
    decreases s.len(),
{
    if s.len() > 0 {
        let t = s.drop_first();
        assert forall|i: int| 0 <= i < t.len() implies t[i].start <= start by {
            assert(t[i] == s[i + 1]);
        }
        lemma_span_position_end(t, start);
    }
}

/// Sorting spans that are already ordered by start leaves them as they are.
proof fn lemma_sort_sorted_spans(spans: Seq<EditSpan>)
    requires
        spans_sorted(spans),
    ensures
        sort_spans(spans) == spans,
    decreases spans.len(),
{
    if spans.len() > 0 {
        let d = spans.drop_last();
        assert(spans_sorted(d)) by {
            assert forall|i: int, j: int| 0 <= i < j < d.len() implies d[i].start <= d[j].start by {
                assert(d[i] == spans[i] && d[j] == spans[j]);
            }
        }
        lemma_sort_sorted_spans(d);
        let x = spans.last();
        assert forall|i: int| 0 <= i < d.len() implies d[i].start <= x.start by {
            assert(d[i] == spans[i]);
        }
        lemma_span_position_end(d, x.start);
        assert(d.insert(d.len() as int, x) =~= spans);
    }
}

proof fn lemma_span_position_split(s: Seq<EditSpan>, start: usize)
    requires
        spans_sorted(s),
    ensures
        forall|i: int| 0 <= i < span_position(s, start) ==> s[i].start <= start,
        forall|i: int| span_position(s, start) <= i < s.len() ==> s[i].start > start,
    decreases s.len(),
{
    lemma_span_position_bound(s, start);
    if s.len() > 0 {
        let t = s.drop_first();
        assert(spans_sorted(t)) by {
            assert forall|i: int, j: int| 0 <= i < j < t.len() implies t[i].start <= t[j].start by {
                assert(t[i] == s[i + 1] && t[j] == s[j + 1]);
            }
        }
        lemma_span_position_split(t, start);
        if s[0].start <= start {
            assert forall|i: int| 0 <= i < span_position(s, start) implies s[i].start <= start by {
                if i > 0 {
                    assert(s[i] == t[i - 1]);
                }
            }
            assert forall|i: int| span_position(s, start) <= i < s.len() implies s[i].start > start by {
                assert(s[i] == t[i - 1]);
            }
        } else {
            assert forall|i: int| span_position(s, start) <= i < s.len() implies s[i].start > start by {
                if i > 0 {
                    assert(s[0].start <= s[i].start);
                }
            }
        }
    }
}

/// Marking a span that is not marked adds it as a wildcard, in its place by
/// start, keeping the spans ordered; toggling it again restores the spans:
/// toggling the same span twice is the identity on spans ordered by start.
pub proof fn lemma_toggle_twice(spans: Seq<EditSpan>, start: usize, end: usize)
    requires
        spans_sorted(spans),
        span_index(spans, start, end) < 0,
    ensures
        toggled_spans(spans, start, end) == spans.insert(
            span_position(spans, start),
            EditSpan { start, end, replacement: ReplacementType::Wildcard },
        ),
        spans_sorted(toggled_spans(spans, start, end)),
        toggled_spans(toggled_spans(spans, start, end), start, end) == spans,
        span_index(toggled_spans(spans, start, end), start, end) >= 0,
{
    let x = EditSpan { start, end, replacement: ReplacementType::Wildcard };
    lemma_span_index(spans, start, end);
    lemma_sort_sorted_spans(spans);
    assert(spans.push(x).drop_last() =~= spans);
    assert(spans.push(x).last() == x);
    let p = span_position(spans, start);
    lemma_span_position_bound(spans, start);
    let t1 = spans.insert(p, x);
    assert(toggled_spans(spans, start, end) == t1);
    lemma_span_index(t1, start, end);
    let k = span_index(t1, start, end);
    assert(t1[p] == x);
    if k < 0 {
        assert(!(t1[p].start == start && t1[p].end == end));
    }
    if k < p {
        assert(t1[k] == spans[k]);
    }
    if k > p {
        assert(!(t1[p].start == start && t1[p].end == end));
    }
    assert(k == p);
    assert(t1.remove(p) =~= spans);
    lemma_span_position_split(spans, start);
    assert forall|i: int, j: int| 0 <= i < j < t1.len() implies t1[i].start <= t1[j].start by {
        if j < p {
            assert(t1[i] == spans[i] && t1[j] == spans[j]);
        } else if j == p {
            assert(t1[i] == spans[i]);
        } else if i < p {
            assert(t1[i] == spans[i] && t1[j] == spans[j - 1]);
        } else if i == p {
            assert(t1[j] == spans[j - 1]);
        } else {
            assert(t1[i] == spans[i - 1] && t1[j] == spans[j - 1]);
        }
    }
}

impl App {
    /// The log entries' characters.
    pub open spec fn log_views(self) -> Seq<Seq<char>> {
        string_views(self.log_entries@)
    }

    /// The marked spans lie on character boundaries of the edit line.
    pub open spec fn wf(self) -> bool {
        self.edit_line matches Some(l) ==> spans_on_boundaries(l@, self.edit_spans@)
    }

    /// The entries shown in the preview: in edit mode those the edited regex
    /// matches (none while it does not compile); otherwise the selected group's members.
    pub open spec fn spec_matching_entries(self) -> Seq<Seq<char>> {
        if self.edit_mode == EditMode::Editing {
            match self.edit_regex {
                Some(r) => if regex_compiles(r@) {
                    lines_matching(self.log_views(), r@)
                } else {
                    seq![]
                },
                None => seq![],
            }
        } else if self.selected_pattern >= self.patterns@.len() {
            seq![]
        } else {
            entries_at(self.log_views(), self.patterns@[self.selected_pattern as int].matching_indices@)
        }
    }

    /// The lines whose span text forms an alternation.
    pub open spec fn spec_alternation_lines(self) -> Seq<Seq<char>> {
        if self.selected_pattern >= self.patterns@.len() {
            seq![]
        } else {
            match self.alternation_source {
                AlternationSource::Group => entries_at(
                    self.log_views(),
                    self.patterns@[self.selected_pattern as int].matching_indices@,
                ),
                AlternationSource::PreviewMatches => self.spec_matching_entries(),
            }
        }
    }

    /// The state after the edited regex is rebuilt from the spans.
    pub open spec fn regex_rebuilt(self, new: App) -> bool {
        match self.edit_line {
            Some(l) => {
                &&& new.edit_regex matches Some(r) && r@ == spec_build_regex(
                    l@,
                    self.edit_spans@,
                    self.spec_alternation_lines(),
                )
                &&& new == App { edit_regex: new.edit_regex, ..self }
            },
            None => new == self,
        }
    }

    /// The state after `next_pattern`: the next pattern, if any, with the preview scrolled back.
    pub open spec fn after_next_pattern(self) -> App {
        if self.selected_pattern + 1 < self.patterns@.len() {
            App {
                selected_pattern: (self.selected_pattern + 1) as usize,
                preview_scroll: 0,
                preview_h_scroll: 0,
                ..self
            }
        } else {
            self
        }
    }

    /// The state after `previous_pattern`: the previous pattern, if any, with the preview scrolled back.
    pub open spec fn after_previous_pattern(self) -> App {
        if self.selected_pattern > 0 {
            App {
                selected_pattern: (self.selected_pattern - 1) as usize,
                preview_scroll: 0,
                preview_h_scroll: 0,
                ..self
            }
        } else {
            self
        }
    }

    /// The state after scrolling the preview one line down (saturating).
    pub open spec fn after_scroll_preview_down(self) -> App {
        App {
            preview_scroll: if self.preview_scroll < usize::MAX {
                (self.preview_scroll + 1) as usize
            } else {
                self.preview_scroll
            },
            ..self
        }
    }

    /// The state after scrolling the preview one line up (saturating).
    pub open spec fn after_scroll_preview_up(self) -> App {
        App {
            preview_scroll: if self.preview_scroll > 0 {
                (self.preview_scroll - 1) as usize
            } else {
                0
            },
            ..self
        }
    }

    /// The state with the focus on the other box.
    pub open spec fn after_focus_next(self) -> App {
        App {
            focused: match self.focused {
                FocusBox::Patterns => FocusBox::Preview,
                FocusBox::Preview => FocusBox::Patterns,
            },
            ..self
        }
    }

    /// The state with wrapping toggled in the focused box.
    pub open spec fn after_toggle_wrap(self) -> App {
        match self.focused {
            FocusBox::Patterns => App { pattern_wrap: !self.pattern_wrap, ..self },
            FocusBox::Preview => App { preview_wrap: !self.preview_wrap, ..self },
        }
    }

    /// The state with the focused box scrolled one column left (saturating).
    pub open spec fn after_scroll_left(self) -> App {
        match self.focused {
            FocusBox::Patterns => App {
                pattern_h_scroll: if self.pattern_h_scroll > 0 {
                    (self.pattern_h_scroll - 1) as usize
                } else {
                    0
                },
                ..self
            },
            FocusBox::Preview => App {
                preview_h_scroll: if self.preview_h_scroll > 0 {
                    (self.preview_h_scroll - 1) as usize
                } else {
                    0
                },
                ..self
            },
        }
    }

    /// The state with the focused box scrolled one column right (saturating).
    pub open spec fn after_scroll_right(self) -> App {
        match self.focused {
            FocusBox::Patterns => App {
                pattern_h_scroll: if self.pattern_h_scroll < usize::MAX {
                    (self.pattern_h_scroll + 1) as usize
                } else {
                    self.pattern_h_scroll
                },
                ..self
            },
            FocusBox::Preview => App {
                preview_h_scroll: if self.preview_h_scroll < usize::MAX {
                    (self.preview_h_scroll + 1) as usize
                } else {
                    self.preview_h_scroll
                },
                ..self
            },
        }
    }

    /// The state with the modal closed, browsing again.
    pub open spec fn after_close_modal(self) -> App {
        App { modal_line: None, modal_source: None, state: AppState::Browsing, ..self }
    }

    /// The state with the edit cursor one byte left (saturating).
    pub open spec fn after_move_edit_cursor_left(self) -> App {
        App {
            edit_cursor: if self.edit_cursor > 0 {
                (self.edit_cursor - 1) as usize
            } else {
                0
            },
            ..self
        }
    }

    /// The state with the edit cursor one byte right, up to the end of the edit line.
    pub open spec fn after_move_edit_cursor_right(self) -> App {
        if self.edit_line matches Some(l) && self.edit_cursor < byte_len(l@) {
            App { edit_cursor: (self.edit_cursor + 1) as usize, ..self }
        } else {
            self
        }
    }

    /// The state with the save dialog closed, browsing again.
    pub open spec fn after_cancel_save(self) -> App {
        App { save_dialog: None, state: AppState::Browsing, ..self }
    }

    /// The state after leaving edit mode: no edit line, spans, cursor or regex.
    pub open spec fn exited_edit_mode(self, new: App) -> bool {
        &&& new.edit_spans@.len() == 0
        &&& new == (App {
            edit_mode: EditMode::Select,
            edit_line: None,
            edit_cursor: 0,
            edit_spans: new.edit_spans,
            edit_regex: None,
            ..self
        })
    }

    /// The state after opening the modal: the selected pattern (patterns focused) or the preview line under the scroll position (preview focused), when there is one.
    pub open spec fn modal_opened(self, new: App) -> bool {
        &&& self.focused == FocusBox::Patterns && self.selected_pattern < self.patterns@.len() ==> {
            &&& new.modal_line matches Some(l) && l@ == spec_display(
                self.patterns@[self.selected_pattern as int].match_count,
                self.patterns@[self.selected_pattern as int].regex@,
            )
            &&& new == (App {
                modal_line: new.modal_line,
                modal_source: Some(ModalSource::Patterns),
                state: AppState::Modal,
                ..self
            })
        }
        &&& self.focused == FocusBox::Preview && self.preview_scroll < self.spec_matching_entries().len() ==> {
            &&& new.modal_line matches Some(l) && l@ == self.spec_matching_entries()[self.preview_scroll as int]
            &&& new == (App {
                modal_line: new.modal_line,
                modal_source: Some(ModalSource::Preview),
                state: AppState::Modal,
                ..self
            })
        }
        &&& !(self.focused == FocusBox::Patterns && self.selected_pattern < self.patterns@.len()) && !(self.focused == FocusBox::Preview && self.preview_scroll < self.spec_matching_entries().len()) ==> new == self
    }

    /// The state after opening the save dialog for the edited regex (in edit mode) or the selected pattern.
    pub open spec fn save_dialog_opened(self, new: App) -> bool {
        &&& self.edit_mode == EditMode::Editing ==> match self.edit_regex {
            Some(r) => {
                &&& new.save_dialog matches Some(d) && d.pattern_view() == r@
                    && d.selected_index() == 1 && !d.editing() && d.cursor() == byte_len(r@)
                &&& new == (App {
                    save_dialog: new.save_dialog,
                    state: AppState::Saving,
                    ..self
                })
            },
            None => new == self,
        }
        &&& self.edit_mode != EditMode::Editing && self.selected_pattern < self.patterns@.len() ==> {
            &&& new.save_dialog matches Some(d) && d.pattern_view() == self.patterns@[self.selected_pattern as int].regex@ && d.selected_index() == 1
                && !d.editing() && d.cursor() == byte_len(d.pattern_view())
            &&& new == (App {
                save_dialog: new.save_dialog,
                state: AppState::Saving,
                ..self
            })
        }
        &&& self.edit_mode != EditMode::Editing && self.selected_pattern >= self.patterns@.len() ==> new == self
    }

    /// The state after starting to edit: the first member of the selected group is the edit line, with no spans, the cursor at its start and its escaped text as the regex.
    pub open spec fn edit_mode_entered(self, new: App) -> bool {
        &&& new.wf() || new == self
        &&& ({
            let ok = self.selected_pattern < self.patterns@.len() && self.patterns@[self.selected_pattern as int].matching_indices@.len() > 0 && self.patterns@[self.selected_pattern as int].matching_indices@[0] < self.log_entries@.len();
            &&& ok ==> {
                let line = self.log_entries@[self.patterns@[self.selected_pattern as int].matching_indices@[0] as int];
                &&& new.wf()
                &&& new.edit_line matches Some(l) && l@ == line@
                &&& new.edit_regex matches Some(r) && r@ == escaped(line@)
                &&& new.edit_spans@.len() == 0
                &&& new == (App {
                    edit_mode: EditMode::Editing,
                    edit_line: new.edit_line,
                    edit_cursor: 0,
                    edit_spans: new.edit_spans,
                    edit_regex: new.edit_regex,
                    alternation_source: AlternationSource::Group,
                    ..self
                })
            }
            &&& !ok ==> new == self
        })
    }

    /// The state after marking or unmarking the word under the edit cursor.
    pub open spec fn span_toggled(self, new: App) -> bool {
        &&& self.spec_current_span_range() matches Some((a, b)) ==> (App {
            edit_spans: new.edit_spans,
            ..self
        }).regex_rebuilt(new) && new.edit_spans@ == toggled_spans(
            self.edit_spans@,
            a,
            b,
        )
        &&& self.spec_current_span_range() is None ==> new == self
    }

    /// The state after cycling the replacement of the marked span under the cursor.
    pub open spec fn span_cycled(self, new: App) -> bool {
        &&& self.spec_current_span_range() matches Some((a, b)) ==> ({
            let k = span_index(self.edit_spans@, a, b);
            k >= 0 ==> self.respanned(
                new,
                a,
                b,
                next_replacement(self.edit_spans@[k].replacement),
            )
        }) && (span_index(self.edit_spans@, a, b) < 0 ==> new == self)
        &&& self.spec_current_span_range() is None ==> new == self
    }

    /// The state after switching where alternations take their values from.
    pub open spec fn alternation_toggled(self, new: App) -> bool {
        &&& (App {
            alternation_source: match self.alternation_source {
                AlternationSource::Group => AlternationSource::PreviewMatches,
                AlternationSource::PreviewMatches => AlternationSource::Group,
            },
            ..self
        }).regex_rebuilt(new)
    }

    /// The state after giving the marked span under the cursor a replacement.
    pub open spec fn span_set(self, new: App, replacement: ReplacementType) -> bool {
        &&& self.spec_current_span_range() matches Some((a, b)) ==> self.respanned(
            new,
            a,
            b,
            replacement,
        )
        &&& self.spec_current_span_range() is None ==> new == self
    }

    /// Create the application state for the proposed patterns and the entries.
    pub fn new(patterns: Vec<PatternGroup>, log_entries: &[String]) -> (r: Self)
        ensures
            r.wf(),
            r.state == AppState::Browsing,
            r.patterns == patterns,
            r.log_entries@ == log_entries@,
            r.selected_pattern == 0,
            r.preview_scroll == 0,
            r.save_dialog is None,
            r.focused == FocusBox::Patterns,
            !r.pattern_wrap && !r.preview_wrap,
            r.pattern_h_scroll == 0 && r.preview_h_scroll == 0,
            r.modal_line is None && r.modal_source is None,
            r.edit_mode == EditMode::Select,
            r.edit_line is None,
            r.edit_cursor == 0,
            r.edit_spans@.len() == 0,
            r.edit_regex is None,
            r.alternation_source == AlternationSource::Group,
    {
        let mut entries: Vec<String> = Vec::new();
        let mut i: usize = 0;
        while i < log_entries.len()
            invariant
                i <= log_entries@.len(),
                entries@ == log_entries@.take(i as int),
            decreases log_entries.len() - i,
        {
            entries.push(log_entries[i].clone());
            assert(entries@ =~= log_entries@.take(i + 1));
            i = i + 1;
        }
        assert(log_entries@.take(log_entries@.len() as int) =~= log_entries@);
        App {
            state: AppState::Browsing,
            patterns,
            log_entries: entries,
            selected_pattern: 0,
            preview_scroll: 0,
            save_dialog: None,
            focused: FocusBox::Patterns,
            pattern_wrap: false,
            preview_wrap: false,
            pattern_h_scroll: 0,
            preview_h_scroll: 0,
            modal_line: None,
            modal_source: None,
            edit_mode: EditMode::Select,
            edit_line: None,
            edit_cursor: 0,
            edit_spans: Vec::new(),
            edit_regex: None,
            alternation_source: AlternationSource::Group,
        }
    }

    /// Select the next pattern (if any), resetting the preview scroll.
    pub fn next_pattern(&mut self)
        ensures
            *final(self) == old(self).after_next_pattern(),
    {
        if self.selected_pattern < self.patterns.len().saturating_sub(1) {
            self.selected_pattern = self.selected_pattern + 1;
            self.preview_scroll = 0;
            self.preview_h_scroll = 0;
        }
    }

    /// Select the previous pattern (if any), resetting the preview scroll.
    pub fn previous_pattern(&mut self)
        ensures
            *final(self) == old(self).after_previous_pattern(),
    {
        if self.selected_pattern > 0 {
            self.selected_pattern = self.selected_pattern - 1;
            self.preview_scroll = 0;
            self.preview_h_scroll = 0;
        }
    }

    /// Scroll the preview one line down (saturating).
    pub fn scroll_preview_down(&mut self)
        ensures
            *final(self) == old(self).after_scroll_preview_down(),
    {
        self.preview_scroll = self.preview_scroll.saturating_add(1);
    }

    /// Scroll the preview one line up (saturating).
    pub fn scroll_preview_up(&mut self)
        ensures
            *final(self) == old(self).after_scroll_preview_up(),
    {
        self.preview_scroll = self.preview_scroll.saturating_sub(1);
    }

    /// Move the focus to the other box.
    pub fn focus_next(&mut self)
        ensures
            *final(self) == old(self).after_focus_next(),
    {
        self.focused = match self.focused {
            FocusBox::Patterns => FocusBox::Preview,
            FocusBox::Preview => FocusBox::Patterns,
        };
    }

    /// Move the focus to the other box (there are two).
    pub fn focus_prev(&mut self)
        ensures
            *final(self) == old(self).after_focus_next(),
    {
        self.focus_next();
    }

    /// Toggle line wrapping in the focused box.
    pub fn toggle_wrap(&mut self)
        ensures
            *final(self) == old(self).after_toggle_wrap(),
    {
        match self.focused {
            FocusBox::Patterns => self.pattern_wrap = !self.pattern_wrap,
            FocusBox::Preview => self.preview_wrap = !self.preview_wrap,
        }
    }

    /// Scroll the focused box one column left (saturating).
    pub fn scroll_left(&mut self)
        ensures
            *final(self) == old(self).after_scroll_left(),
    {
        match self.focused {
            FocusBox::Patterns => self.pattern_h_scroll = self.pattern_h_scroll.saturating_sub(1),
            FocusBox::Preview => self.preview_h_scroll = self.preview_h_scroll.saturating_sub(1),
        }
    }

    /// Scroll the focused box one column right (saturating).
    pub fn scroll_right(&mut self)
        ensures
            *final(self) == old(self).after_scroll_right(),
    {
        match self.focused {
            FocusBox::Patterns => self.pattern_h_scroll = self.pattern_h_scroll.saturating_add(1),
            FocusBox::Preview => self.preview_h_scroll = self.preview_h_scroll.saturating_add(1),
        }
    }

    /// Close the modal and return to browsing.
    pub fn close_modal(&mut self)
        ensures
            *final(self) == old(self).after_close_modal(),
    {
        self.modal_line = None;
        self.modal_source = None;
        self.state = AppState::Browsing;
    }

    /// Leave edit mode, dropping the edit line, spans and regex.
    pub fn exit_edit_mode(&mut self)
        ensures
            final(self).wf(),
            old(self).exited_edit_mode(*final(self)),
    {
        self.edit_mode = EditMode::Select;
        self.edit_line = None;
        self.edit_cursor = 0;
        self.edit_spans.clear();
        self.edit_regex = None;
    }

    /// Move the edit cursor one byte left (saturating).
    pub fn move_edit_cursor_left(&mut self)
        ensures
            *final(self) == old(self).after_move_edit_cursor_left(),
    {
        self.edit_cursor = self.edit_cursor.saturating_sub(1);
    }

    /// Move the edit cursor one byte right, up to the end of the edit line.
    pub fn move_edit_cursor_right(&mut self)
        ensures
            *final(self) == old(self).after_move_edit_cursor_right(),
    {
        if let Some(ref line) = self.edit_line {
            if self.edit_cursor < str_byte_len(line.as_str()) {
                self.edit_cursor = self.edit_cursor + 1;
            }
        }
    }

    /// Switch where alternations take their values from, and rebuild the regex.
    pub fn toggle_alternation_source(&mut self)
        requires
            old(self).wf(),
        ensures
            final(self).wf(),
            old(self).alternation_toggled(*final(self)),
    {
        self.alternation_source = match self.alternation_source {
            AlternationSource::Group => AlternationSource::PreviewMatches,
            AlternationSource::PreviewMatches => AlternationSource::Group,
        };
        self.recompute_edit_regex();
    }

    /// Close the save dialog and return to browsing.
    pub fn cancel_save(&mut self)
        ensures
            *final(self) == old(self).after_cancel_save(),
    {
        self.save_dialog = None;
        self.state = AppState::Browsing;
    }

    /// The entries shown in the preview.
    pub fn get_matching_entries(&self) -> (r: Vec<String>)
        ensures
            string_views(r@) == self.spec_matching_entries(),
    {
        if self.edit_mode == EditMode::Editing {
            if let Some(ref regex) = self.edit_regex {
                if let Ok(compiled) = regex_new(regex.as_str()) {
                    return lines_matching_exec(&self.log_entries, &compiled);
                }
            }
            return Vec::new();
        }
        if self.selected_pattern >= self.patterns.len() {
            return Vec::new();
        }
        entries_at_exec(&self.log_entries, &self.patterns[self.selected_pattern].matching_indices)
    }

    /// The number of entries shown in the preview.
    pub fn current_match_count(&self) -> (r: usize)
        ensures
            r == self.spec_matching_entries().len(),
    {
        self.get_matching_entries().len()
    }

    /// The lines whose span text forms an alternation.
    pub fn get_alternation_source_lines(&self) -> (r: Vec<String>)
        ensures
            string_views(r@) == self.spec_alternation_lines(),
    {
        if self.selected_pattern >= self.patterns.len() {
            return Vec::new();
        }
        match self.alternation_source {
            AlternationSource::Group => entries_at_exec(
                &self.log_entries,
                &self.patterns[self.selected_pattern].matching_indices,
            ),
            AlternationSource::PreviewMatches => self.get_matching_entries(),
        }
    }

    /// Rebuild the edited regex from the edit line and its spans.
    pub fn recompute_edit_regex(&mut self)
        requires
            old(self).wf(),
        ensures
            final(self).wf(),
            old(self).regex_rebuilt(*final(self)),
    {
        if self.edit_line.is_none() {
            return;
        }
        let source_lines = self.get_alternation_source_lines();
        let line = match &self.edit_line {
            Some(l) => l,
            None => {
                return;
            },
        };
        proof {
            lemma_boundaries_sliceable(line@, self.edit_spans@);
        }
        let regex = build_regex_from_spans(line.as_str(), &self.edit_spans, &source_lines);
        self.edit_regex = Some(regex);
    }
}

/// The entries at the given indices (skipping those past the end), cloned.
fn entries_at_exec(log: &Vec<String>, idx: &Vec<usize>) -> (r: Vec<String>)
    ensures
        string_views(r@) == entries_at(string_views(log@), idx@),
{
    let ghost lv = string_views(log@);
    let ghost f = |i: usize| if i < lv.len() { Some(lv[i as int]) } else { None };
    let mut r: Vec<String> = Vec::new();
    let mut k: usize = 0;
    assert(idx@.take(0) =~= Seq::<usize>::empty());
    assert(string_views(r@) =~= Seq::<Seq<char>>::empty());
    while k < idx.len()
        invariant
            k <= idx@.len(),
            lv == string_views(log@),
            f == (|i: usize| if i < lv.len() { Some(lv[i as int]) } else { None }),
            string_views(r@) == idx@.take(k as int).filter_map(f),
        decreases idx.len() - k,
    {
        assert(idx@.take(k + 1).drop_last() =~= idx@.take(k as int));
        assert(idx@.take(k + 1).last() == idx@[k as int]);
        let i = idx[k];
        let ghost before = string_views(r@);
        if i < log.len() {
            let e = log[i].clone();
            r.push(e);
            assert(string_views(r@) =~= before + seq![lv[i as int]]);
        }
        k = k + 1;
    }
    assert(idx@.take(idx@.len() as int) =~= idx@);
    r
}

/// The entries the compiled regex matches, cloned, in order.
fn lines_matching_exec(log: &Vec<String>, compiled: &regex::Regex) -> (r: Vec<String>)
    ensures
        string_views(r@) == lines_matching(string_views(log@), regex_pattern(*compiled)),
{
    let ghost lv = string_views(log@);
    let mut r: Vec<String> = Vec::new();
    let mut k: usize = 0;
    assert(lv.take(0) =~= Seq::<Seq<char>>::empty());
    assert(string_views(r@) =~= Seq::<Seq<char>>::empty());
    while k < log.len()
        invariant
            k <= log@.len(),
            lv == string_views(log@),
            string_views(r@) == lines_matching(lv.take(k as int), regex_pattern(*compiled)),
        decreases log.len() - k,
    {
        assert(lv.take(k + 1).drop_last() =~= lv.take(k as int));
        assert(lv.take(k + 1).last() == log@[k as int]@);
        let ghost before = string_views(r@);
        if regex_is_match(compiled, log[k].as_str()) {
            r.push(log[k].clone());
            assert(string_views(r@) =~= before.push(log@[k as int]@));
        }
        k = k + 1;
    }
    assert(lv.take(log@.len() as int) =~= lv);
    r
}

proof fn lemma_span_position_exec(s: Seq<EditSpan>, start: usize, j: int)
    requires
        0 <= j <= s.len(),
        forall|i: int| 0 <= i < j ==> s[i].start <= start,
        j == s.len() || s[j].start > start,
    ensures
        span_position(s, start) == j,
    decreases j,
{
    if j > 0 {
        let t = s.drop_first();
        assert forall|i: int| 0 <= i < j - 1 implies t[i].start <= start by {
            assert(t[i] == s[i + 1]);
        }
        lemma_span_position_exec(t, start, j - 1);
    }
}

/// Stable sort of the spans by start.
fn sort_spans_exec(spans: &Vec<EditSpan>) -> (r: Vec<EditSpan>)
    ensures
        r@ == sort_spans(spans@),
{
    let mut sorted: Vec<EditSpan> = Vec::new();
    let mut k: usize = 0;
    assert(spans@.take(0) =~= Seq::<EditSpan>::empty());
    while k < spans.len()
        invariant
            k <= spans@.len(),
            sorted@ == sort_spans(spans@.take(k as int)),
        decreases spans.len() - k,
    {
        let x = spans[k];
        assert(spans@.take(k + 1).drop_last() =~= spans@.take(k as int));
        assert(spans@.take(k + 1).last() == x);
        let mut pos: usize = 0;
        while pos < sorted.len() && sorted[pos].start <= x.start
            invariant
                pos <= sorted@.len(),
                forall|i: int| 0 <= i < pos ==> sorted@[i].start <= x.start,
            decreases sorted.len() - pos,
        {
            pos = pos + 1;
        }
        proof {
            lemma_span_position_exec(sorted@, x.start, pos as int);
        }
        sorted.insert(pos, x);
        k = k + 1;
    }
    assert(spans@.take(spans@.len() as int) =~= spans@);
    sorted
}

/// The index of the first span covering exactly `start..end`.
fn find_span(spans: &Vec<EditSpan>, start: usize, end: usize) -> (r: Option<usize>)
    ensures
        r matches Some(i) ==> i as int == span_index(spans@, start, end) && i < spans@.len(),
        r is None ==> span_index(spans@, start, end) < 0,
{
    proof {
        lemma_span_index(spans@, start, end);
    }
    let mut i: usize = 0;
    while i < spans.len()
        invariant
            i <= spans@.len(),
            forall|j: int| 0 <= j < i ==> !(spans@[j].start == start && spans@[j].end == end),
        decreases spans.len() - i,
    {
        if spans[i].start == start && spans[i].end == end {
            proof {
                lemma_span_index(spans@, start, end);
                let k = span_index(spans@, start, end);
                if k >= 0 && k != i {
                    assert(spans@[k].start == start && spans@[k].end == end);
                    assert(spans@[i as int].start == start);
                }
            }
            return Some(i);
        }
        i = i + 1;
    }
    None
}

impl App {
    /// The word span under the edit cursor, if the cursor is inside the edit line.
    pub open spec fn spec_current_span_range(self) -> Option<(usize, usize)> {
        match self.edit_line {
            Some(l) => if self.edit_cursor >= byte_len(l@) {
                None
            } else {
                spec_find_word_span(l@, self.edit_cursor as int)
            },
            None => None,
        }
    }

    /// The word span under the edit cursor.
    pub fn current_span_range(&self) -> (r: Option<(usize, usize)>)
        ensures
            r == self.spec_current_span_range(),
            r matches Some((a, b)) ==> self.edit_line matches Some(l) && a < b <= byte_len(l@)
                && is_boundary(l@, a as int) && is_boundary(l@, b as int),
    {
        match &self.edit_line {
            Some(line) => {
                if self.edit_cursor >= str_byte_len(line.as_str()) {
                    return None;
                }
                find_word_span(line.as_str(), self.edit_cursor)
            },
            None => None,
        }
    }

    /// Show the selected pattern (or the preview line under the scroll position)
    /// in the modal.
    pub fn open_modal_for_selected(&mut self)
        ensures
            old(self).modal_opened(*final(self)),
    {
        match self.focused {
            FocusBox::Patterns => {
                if self.selected_pattern < self.patterns.len() {
                    let line = self.patterns[self.selected_pattern].display();
                    self.modal_line = Some(line);
                    self.modal_source = Some(ModalSource::Patterns);
                    self.state = AppState::Modal;
                }
            },
            FocusBox::Preview => {
                let matching_entries = self.get_matching_entries();
                if self.preview_scroll < matching_entries.len() {
                    let entry = matching_entries[self.preview_scroll].clone();
                    self.modal_line = Some(entry);
                    self.modal_source = Some(ModalSource::Preview);
                    self.state = AppState::Modal;
                }
            },
        }
    }

    /// Open the save dialog for the edited regex (in edit mode) or the selected pattern.
    pub fn open_save_dialog(&mut self)
        ensures
            old(self).save_dialog_opened(*final(self)),
    {
        if self.edit_mode == EditMode::Editing {
            if let Some(ref regex) = self.edit_regex {
                let d = SaveDialog::new(regex.clone());
                self.save_dialog = Some(d);
                self.state = AppState::Saving;
            }
            return;
        }
        if self.selected_pattern < self.patterns.len() {
            let d = SaveDialog::new(self.patterns[self.selected_pattern].regex.clone());
            self.save_dialog = Some(d);
            self.state = AppState::Saving;
        }
    }

    /// Start editing: the first member of the selected group becomes the edit line,
    /// with no spans, the cursor at its start and its escaped text as the regex.
    pub fn enter_edit_mode(&mut self)
        ensures
            old(self).edit_mode_entered(*final(self)),
    {
        if self.selected_pattern >= self.patterns.len() {
            return;
        }
        let pattern = &self.patterns[self.selected_pattern];
        if pattern.matching_indices.len() > 0 {
            let first_idx = pattern.matching_indices[0];
            if first_idx < self.log_entries.len() {
                let line = self.log_entries[first_idx].clone();
                let escaped_line = regex_escape(line.as_str());
                self.edit_mode = EditMode::Editing;
                self.edit_line = Some(line);
                self.edit_cursor = 0;
                self.edit_spans.clear();
                self.edit_regex = Some(escaped_line);
                self.alternation_source = AlternationSource::Group;
            }
        }
    }

    /// Mark the word under the edit cursor as a wildcard span, or unmark it when
    /// it is marked; the spans are kept sorted by start and the regex is rebuilt.
    pub fn toggle_span_at_cursor(&mut self)
        requires
            old(self).wf(),
        ensures
            final(self).wf(),
            old(self).span_toggled(*final(self)),
    {
        match self.current_span_range() {
            Some((start, end)) => {
                let mut spans = self.edit_spans.clone();
                assert(spans@ =~= self.edit_spans@);
                match find_span(&spans, start, end) {
                    Some(idx) => {
                        spans.remove(idx);
                    },
                    None => {
                        spans.push(EditSpan { start, end, replacement: ReplacementType::Wildcard });
                    },
                }
                let sorted = sort_spans_exec(&spans);
                proof {
                    let l = self.edit_line.unwrap();
                    lemma_toggled_on_boundaries(l@, self.edit_spans@, start, end);
                }
                self.edit_spans = sorted;
                self.recompute_edit_regex();
            },
            None => {},
        }
    }

    /// The spans of the same range as `(a, b)` get replacement `f(old)` at the first one.
    pub open spec fn respanned(self, new: App, a: usize, b: usize, rep: ReplacementType) -> bool {
        let k = span_index(self.edit_spans@, a, b);
        &&& k >= 0 ==> (App {
            edit_spans: new.edit_spans,
            ..self
        }).regex_rebuilt(new) && new.edit_spans@ == self.edit_spans@.update(
            k,
            EditSpan { replacement: rep, ..self.edit_spans@[k] },
        )
        &&& k < 0 ==> new == self
    }

    /// Cycle the replacement of the marked span under the cursor, and rebuild the regex.
    pub fn cycle_span_replacement(&mut self)
        requires
            old(self).wf(),
        ensures
            final(self).wf(),
            old(self).span_cycled(*final(self)),
    {
        match self.current_span_range() {
            Some((start, end)) => {
                match find_span(&self.edit_spans, start, end) {
                    Some(idx) => {
                        proof {
                            lemma_span_index(self.edit_spans@, start, end);
                        }
                        let span = self.edit_spans[idx];
                        let replacement = match span.replacement {
                            ReplacementType::Wildcard => ReplacementType::Word,
                            ReplacementType::Word => ReplacementType::Digit,
                            ReplacementType::Digit => ReplacementType::NonSpace,
                            ReplacementType::NonSpace => ReplacementType::Alternation,
                            ReplacementType::Alternation => ReplacementType::Wildcard,
                        };
                        self.replace_span(idx, replacement);
                    },
                    None => {},
                }
            },
            None => {},
        }
    }

    /// Set the replacement of the marked span under the cursor, and rebuild the regex.
    pub fn set_span_replacement(&mut self, replacement: ReplacementType)
        requires
            old(self).wf(),
        ensures
            final(self).wf(),
            old(self).span_set(*final(self), replacement),
    {
        match self.current_span_range() {
            Some((start, end)) => {
                match find_span(&self.edit_spans, start, end) {
                    Some(idx) => {
                        proof {
                            lemma_span_index(self.edit_spans@, start, end);
                        }
                        self.replace_span(idx, replacement);
                    },
                    None => {},
                }
            },
            None => {},
        }
    }

    /// Give span `idx` a new replacement and rebuild the regex.
    fn replace_span(&mut self, idx: usize, replacement: ReplacementType)
        requires
            old(self).wf(),
            idx < old(self).edit_spans@.len(),
        ensures
            final(self).wf(),
            final(self).edit_spans@ == old(self).edit_spans@.update(
                idx as int,
                EditSpan { replacement, ..old(self).edit_spans@[idx as int] },
            ),
            (App { edit_spans: final(self).edit_spans, ..*old(self) }).regex_rebuilt(
                *final(self),
            ),
    {
        let mut spans = self.edit_spans.clone();
        assert(spans@ =~= self.edit_spans@);
        let span = spans[idx];
        spans.set(idx, EditSpan { start: span.start, end: span.end, replacement });
        proof {
            if self.edit_line is Some {
                let l = self.edit_line.unwrap();
                assert forall|i: int| 0 <= i < spans@.len() implies {
                    &&& (#[trigger] spans@[i]).start <= spans@[i].end <= byte_len(l@)
                    &&& is_boundary(l@, spans@[i].start as int)
                    &&& is_boundary(l@, spans@[i].end as int)
                } by {
                    assert(spans@[i].start == self.edit_spans@[i].start);
                    assert(spans@[i].end == self.edit_spans@[i].end);
                }
            }
        }
        self.edit_spans = spans;
        self.recompute_edit_regex();
    }
}

/// Toggling the word under the edit cursor, when the marked spans are ordered by
/// start and the word is not marked, marks it as a wildcard in its place by start
/// and rebuilds the regex; toggling it a second time restores the marked spans.
pub proof fn lemma_toggle_span_twice(a0: App, a1: App, a2: App)
    requires
        a0.span_toggled(a1),
        a1.span_toggled(a2),
        a0.spec_current_span_range() is Some,
        spans_sorted(a0.edit_spans@),
        span_index(
            a0.edit_spans@,
            a0.spec_current_span_range().unwrap().0,
            a0.spec_current_span_range().unwrap().1,
        ) < 0,
    ensures
        a1.edit_spans@ == a0.edit_spans@.insert(
            span_position(a0.edit_spans@, a0.spec_current_span_range().unwrap().0),
            EditSpan {
                start: a0.spec_current_span_range().unwrap().0,
                end: a0.spec_current_span_range().unwrap().1,
                replacement: ReplacementType::Wildcard,
            },
        ),
        spans_sorted(a1.edit_spans@),
        a1.edit_regex is Some,
        a2.edit_spans@ == a0.edit_spans@,
        a2.edit_line == a0.edit_line,
        a2.edit_cursor == a0.edit_cursor,
{
    let (s, e) = a0.spec_current_span_range().unwrap();
    assert(a1.edit_line == a0.edit_line && a1.edit_cursor == a0.edit_cursor);
    assert(a1.spec_current_span_range() == a0.spec_current_span_range());
    lemma_toggle_twice(a0.edit_spans@, s, e);
}

} // verus!
