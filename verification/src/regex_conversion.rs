//! Bidirectional conversion between modern regex syntax and logcheck POSIX format.
//!
//! Modern shorthand (`\d`, `\w`, `\s`, as produced by grex) and POSIX character
//! classes (`[[:digit:]]`, `[[:alnum:]_]`, `[[:space:]]`, as used by logcheck).
use vstd::prelude::*;

use crate::text::{chars_of, push_all, replace_all, replace_str, string_from_chars};

verus! {

/// The characters that `regex::escape` prefixes with a backslash
/// (`regex_syntax::is_meta_character`).
pub open spec fn is_meta_character(c: char) -> bool {
    c == '\\' || c == '.' || c == '+' || c == '*' || c == '?' || c == '(' || c == ')' || c
        == '|' || c == '[' || c == ']' || c == '{' || c == '}' || c == '^' || c == '$' || c
        == '#' || c == '&' || c == '-' || c == '~'
}

/// The text escaped as `regex::escape` does it: every meta character gets a
/// backslash in front.
pub open spec fn escaped(s: Seq<char>) -> Seq<char>
    decreases s.len(),
{
    if s.len() == 0 {
        seq![]
    } else if is_meta_character(s[0]) {
        seq!['\\', s[0]] + escaped(s.drop_first())
    } else {
        seq![s[0]] + escaped(s.drop_first())
    }
}

/// One character escaped.
pub open spec fn escaped_char(c: char) -> Seq<char> {
    if is_meta_character(c) {
        seq!['\\', c]
    } else {
        seq![c]
    }
}

proof fn lemma_escaped_push(s: Seq<char>, c: char)
    ensures
        escaped(s.push(c)) == escaped(s) + escaped_char(c),
    decreases s.len(),
{
    let t = s.push(c);
    if s.len() == 0 {
        assert(t.drop_first() =~= Seq::<char>::empty());
        assert(escaped(t.drop_first()) == Seq::<char>::empty());
        assert(t[0] == c);
        assert(escaped(t) =~= escaped(s) + escaped_char(c));
    } else {
        let d = s.drop_first();
        lemma_escaped_push(d, c);
        assert(t.drop_first() =~= d.push(c));
        assert(t[0] == s[0]);
        let h = escaped_char(s[0]);
        assert(escaped(s) == h + escaped(d));
        assert(escaped(t) == h + escaped(d.push(c)));
        assert(escaped(t) =~= escaped(s) + escaped_char(c));
    }
}

/// Whether `c` is a regex meta character.
pub fn is_meta_char(c: char) -> (b: bool)
    ensures
        b == is_meta_character(c),
{
    c == '\\' || c == '.' || c == '+' || c == '*' || c == '?' || c == '(' || c == ')' || c
        == '|' || c == '[' || c == ']' || c == '{' || c == '}' || c == '^' || c == '$' || c
        == '#' || c == '&' || c == '-' || c == '~'
}

/// Escapes all regular expression meta characters in the text, as
/// `regex::escape` does: the text then matches itself literally.
pub fn regex_escape(text: &str) -> (r: String)
    ensures
        r@ == escaped(text@),
{
    let cs = chars_of(text);
    let mut out: Vec<char> = Vec::new();
    let mut i: usize = 0;
    assert(cs@.take(0) =~= Seq::<char>::empty());
    while i < cs.len()
        invariant
            i <= cs@.len(),
            out@ == escaped(cs@.take(i as int)),
        decreases cs.len() - i,
    {
        let c = cs[i];
        let ghost before = out@;
        if is_meta_char(c) {
            out.push('\\');
        }
        out.push(c);
        proof {
            assert(cs@.take(i + 1) =~= cs@.take(i as int).push(c));
            lemma_escaped_push(cs@.take(i as int), c);
            assert(out@ =~= before + escaped_char(c));
        }
        i = i + 1;
    }
    assert(cs@.take(cs@.len() as int) =~= cs@);
    string_from_chars(&out)
}

/// Conversion mapping between modern regex and POSIX character classes.
#[derive(Debug, Clone, PartialEq, Eq)]
pub struct RegexConversion {
    /// Modern regex pattern (e.g., `\d`)
    pub modern: &'static str,
    /// POSIX character class (e.g., `[[:digit:]]`)
    pub posix: &'static str,
    /// Description of what it matches
    pub description: &'static str,
}

/// A table of textual replacements, applied in order: (pattern, replacement).
pub type ReplacementTable = Seq<(Seq<char>, Seq<char>)>;

/// The shorthand classes and their POSIX counterparts, in the order they are applied.
pub open spec fn shorthand_table() -> ReplacementTable {
    seq![
        ("\\d"@, "[[:digit:]]"@),
        ("\\D"@, "[^[:digit:]]"@),
        ("\\s"@, "[[:space:]]"@),
        ("\\S"@, "[^[:space:]]"@),
        ("\\w"@, "[[:alnum:]_]"@),
        ("\\W"@, "[^[:alnum:]_]"@),
    ]
}

/// POSIX classes without a shorthand, and the bracket contents that replace them.
pub open spec fn posix_only_table() -> ReplacementTable {
    seq![
        ("[[:alpha:]]"@, "a-zA-Z"@),
        ("[[:alnum:]]"@, "a-zA-Z0-9"@),
        ("[[:xdigit:]]"@, "0-9a-fA-F"@),
        ("[[:lower:]]"@, "a-z"@),
        ("[[:upper:]]"@, "A-Z"@),
        ("[[:blank:]]"@, " \\t"@),
        ("[[:punct:]]"@, "!\"#$%&'()*+,\\-./:;<=>?@\\[\\\\\\]^_`{|}~"@),
        ("[[:print:]]"@, "\\x20-\\x7E"@),
        ("[[:graph:]]"@, "!-~"@),
        ("[[:cntrl:]]"@, "\\x00-\\x1F\\x7F"@),
    ]
}

/// The table with each pattern and replacement swapped.
pub open spec fn swapped(t: ReplacementTable) -> ReplacementTable {
    t.map_values(|p: (Seq<char>, Seq<char>)| (p.1, p.0))
}

/// Applies every replacement of the table to `s`, first entry first.
pub open spec fn replace_each(s: Seq<char>, t: ReplacementTable) -> Seq<char>
    decreases t.len(),
{
    if t.len() == 0 {
        s
    } else {
        replace_all(replace_each(s, t.drop_last()), t.last().0, t.last().1)
    }
}

/// Escapes the curly braces that stand alone between spaces.
pub open spec fn escape_spaced_braces(s: Seq<char>) -> Seq<char> {
    replace_all(replace_all(s, " { "@, " \\{ "@), " } "@, " \\} "@)
}

/// What `modern_to_posix` returns.
pub open spec fn spec_modern_to_posix(s: Seq<char>) -> Seq<char> {
    replace_each(s, shorthand_table())
}

/// What `posix_to_modern` returns.
pub open spec fn spec_posix_to_modern(s: Seq<char>) -> Seq<char> {
    replace_each(replace_each(s, swapped(shorthand_table())), posix_only_table())
}

/// What `posix_to_rust` returns.
pub open spec fn spec_posix_to_rust(s: Seq<char>) -> Seq<char> {
    escape_spaced_braces(spec_posix_to_modern(s))
}

/// What `remove_anchors` returns: a leading `^` and a trailing `$` are dropped.
pub open spec fn spec_remove_anchors(s: Seq<char>) -> Seq<char> {
    let t = if s.len() > 0 && s[0] == '^' { s.drop_first() } else { s };
    if t.len() > 0 && t.last() == '$' { t.drop_last() } else { t }
}

/// What `ensure_anchors` returns: `^` and `$` are added where missing.
pub open spec fn spec_ensure_anchors(s: Seq<char>) -> Seq<char> {
    let t = if s.len() > 0 && s[0] == '^' { s } else { seq!['^'] + s };
    if t.len() > 0 && t.last() == '$' { t } else { t + seq!['$'] }
}

/// The complete list of shorthand conversions, in the order they are applied.
pub fn regex_conversions() -> (v: Vec<RegexConversion>)
    ensures
        v@.len() == shorthand_table().len(),
        forall|i: int|
            0 <= i < v@.len() ==> (#[trigger] v@[i].modern@, v@[i].posix@) == shorthand_table()[i],
{
    let mut v: Vec<RegexConversion> = Vec::new();
    v.push(RegexConversion { modern: "\\d", posix: "[[:digit:]]", description: "Digits 0-9" });
    v.push(RegexConversion { modern: "\\D", posix: "[^[:digit:]]", description: "Non-digits" });
    v.push(
        RegexConversion {
            modern: "\\s",
            posix: "[[:space:]]",
            description: "Whitespace characters",
        },
    );
    v.push(
        RegexConversion {
            modern: "\\S",
            posix: "[^[:space:]]",
            description: "Non-whitespace characters",
        },
    );
    // `\w` is approximately `[[:alnum:]_]` but not exact due to Unicode
    v.push(
        RegexConversion {
            modern: "\\w",
            posix: "[[:alnum:]_]",
            description: "Word characters (letters, digits, underscore)",
        },
    );
    v.push(
        RegexConversion {
            modern: "\\W",
            posix: "[^[:alnum:]_]",
            description: "Non-word characters",
        },
    );
    v
}

/// Additional POSIX classes that don't have direct modern equivalents.
pub fn posix_only_conversions() -> (v: Vec<(&'static str, &'static str)>)
    ensures
        v@.len() == posix_only_table().len(),
        forall|i: int|
            0 <= i < v@.len() ==> (#[trigger] v@[i].0@, v@[i].1@) == posix_only_table()[i],
{
    let mut v: Vec<(&'static str, &'static str)> = Vec::new();
    v.push(("[[:alpha:]]", "a-zA-Z"));
    v.push(("[[:alnum:]]", "a-zA-Z0-9"));
    v.push(("[[:xdigit:]]", "0-9a-fA-F"));
    v.push(("[[:lower:]]", "a-z"));
    v.push(("[[:upper:]]", "A-Z"));
    v.push(("[[:blank:]]", " \\t"));
    v.push(("[[:punct:]]", "!\"#$%&'()*+,\\-./:;<=>?@\\[\\\\\\]^_`{|}~"));
    v.push(("[[:print:]]", "\\x20-\\x7E"));
    v.push(("[[:graph:]]", "!-~"));
    v.push(("[[:cntrl:]]", "\\x00-\\x1F\\x7F"));
    v
}

proof fn lemma_tables_nonempty_patterns()
    ensures
        forall|i: int|
            0 <= i < shorthand_table().len() ==> (#[trigger] shorthand_table()[i]).0.len() > 0
                && shorthand_table()[i].1.len() > 0,
        forall|i: int|
            0 <= i < posix_only_table().len() ==> (#[trigger] posix_only_table()[i]).0.len() > 0,
{
    reveal_strlit("\\d");
    reveal_strlit("\\D");
    reveal_strlit("\\s");
    reveal_strlit("\\S");
    reveal_strlit("\\w");
    reveal_strlit("\\W");
    reveal_strlit("[[:digit:]]");
    reveal_strlit("[^[:digit:]]");
    reveal_strlit("[[:space:]]");
    reveal_strlit("[^[:space:]]");
    reveal_strlit("[[:alnum:]_]");
    reveal_strlit("[^[:alnum:]_]");
    reveal_strlit("[[:alpha:]]");
    reveal_strlit("[[:alnum:]]");
    reveal_strlit("[[:xdigit:]]");
    reveal_strlit("[[:lower:]]");
    reveal_strlit("[[:upper:]]");
    reveal_strlit("[[:blank:]]");
    reveal_strlit("[[:punct:]]");
    reveal_strlit("[[:print:]]");
    reveal_strlit("[[:graph:]]");
    reveal_strlit("[[:cntrl:]]");
}

/// Applies `(pats[i], reps[i])` for every `i`, in order, to `s`.
pub(crate) fn apply_table(s: Vec<char>, pats: &Vec<&'static str>, reps: &Vec<&'static str>, Ghost(t): Ghost<
    ReplacementTable,
>) -> (r: Vec<char>)
    requires
        pats@.len() == t.len(),
        reps@.len() == t.len(),
        forall|i: int| 0 <= i < t.len() ==> (#[trigger] pats@[i]@, reps@[i]@) == t[i],
        forall|i: int| 0 <= i < t.len() ==> (#[trigger] t[i]).0.len() > 0,
    ensures
        r@ == replace_each(s@, t),
{
    let mut r = s;
    let ghost s0 = r@;
    let mut k: usize = 0;
    assert(t.take(0) =~= Seq::<(Seq<char>, Seq<char>)>::empty());
    while k < pats.len()
        invariant
            pats@.len() == t.len(),
            reps@.len() == t.len(),
            forall|i: int| 0 <= i < t.len() ==> (#[trigger] pats@[i]@, reps@[i]@) == t[i],
            forall|i: int| 0 <= i < t.len() ==> (#[trigger] t[i]).0.len() > 0,
            k <= t.len(),
            r@ == replace_each(s0, t.take(k as int)),
        decreases t.len() - k,
    {
        assert(pats@[k as int]@ == t[k as int].0);
        assert(t.take(k + 1).drop_last() =~= t.take(k as int));
        assert(t.take(k + 1).last() == t[k as int]);
        r = replace_str(&r, pats[k], reps[k]);
        k = k + 1;
    }
    assert(t.take(t.len() as int) =~= t);
    r
}

/// The modern sides and the POSIX sides of the shorthand conversions.
fn shorthand_columns() -> (r: (Vec<&'static str>, Vec<&'static str>))
    ensures
        r.0@.len() == shorthand_table().len(),
        r.1@.len() == shorthand_table().len(),
        forall|i: int|
            0 <= i < shorthand_table().len() ==> (#[trigger] r.0@[i]@, r.1@[i]@)
                == shorthand_table()[i],
{
    let convs = regex_conversions();
    let mut modern: Vec<&'static str> = Vec::new();
    let mut posix: Vec<&'static str> = Vec::new();
    let mut i: usize = 0;
    while i < convs.len()
        invariant
            convs@.len() == shorthand_table().len(),
            forall|j: int|
                0 <= j < convs@.len() ==> (#[trigger] convs@[j].modern@, convs@[j].posix@)
                    == shorthand_table()[j],
            i <= convs.len(),
            modern@.len() == i,
            posix@.len() == i,
            forall|j: int|
                0 <= j < i ==> (#[trigger] modern@[j]@, posix@[j]@) == shorthand_table()[j],
        decreases convs.len() - i,
    {
        modern.push(convs[i].modern);
        posix.push(convs[i].posix);
        i = i + 1;
    }
    (modern, posix)
}

/// The POSIX-only classes and their replacements, as two columns.
fn posix_only_columns() -> (r: (Vec<&'static str>, Vec<&'static str>))
    ensures
        r.0@.len() == posix_only_table().len(),
        r.1@.len() == posix_only_table().len(),
        forall|i: int|
            0 <= i < posix_only_table().len() ==> (#[trigger] r.0@[i]@, r.1@[i]@)
                == posix_only_table()[i],
{
    let convs = posix_only_conversions();
    let mut classes: Vec<&'static str> = Vec::new();
    let mut equivs: Vec<&'static str> = Vec::new();
    let mut i: usize = 0;
    while i < convs.len()
        invariant
            convs@.len() == posix_only_table().len(),
            forall|j: int|
                0 <= j < convs@.len() ==> (#[trigger] convs@[j].0@, convs@[j].1@)
                    == posix_only_table()[j],
            i <= convs.len(),
            classes@.len() == i,
            equivs@.len() == i,
            forall|j: int|
                0 <= j < i ==> (#[trigger] classes@[j]@, equivs@[j]@) == posix_only_table()[j],
        decreases convs.len() - i,
    {
        classes.push(convs[i].0);
        equivs.push(convs[i].1);
        i = i + 1;
    }
    (classes, equivs)
}

/// Convert modern regex syntax (from grex) to POSIX format (for logcheck).
///
/// Converts shorthand like `\d`, `\w`, `\s` to POSIX classes like `[[:digit:]]`.
pub fn modern_to_posix(pattern: &str) -> (r: String)
    ensures
        r@ == spec_modern_to_posix(pattern@),
{
    proof {
        lemma_tables_nonempty_patterns();
    }
    let (modern, posix) = shorthand_columns();
    let s = chars_of(pattern);
    let r = apply_table(s, &modern, &posix, Ghost(shorthand_table()));
    string_from_chars(&r)
}

/// POSIX classes back to modern shorthand, then POSIX-only classes to bracket contents.
fn posix_to_modern_chars(pattern: &str) -> (r: Vec<char>)
    ensures
        r@ == spec_posix_to_modern(pattern@),
{
    proof {
        lemma_tables_nonempty_patterns();
    }
    let (modern, posix) = shorthand_columns();
    let (classes, equivs) = posix_only_columns();
    let s = chars_of(pattern);
    assert forall|i: int| 0 <= i < swapped(shorthand_table()).len() implies (#[trigger] posix@[i]@,
        modern@[i]@) == swapped(shorthand_table())[i] by {
        assert((modern@[i]@, posix@[i]@) == shorthand_table()[i]);
    }
    assert forall|i: int| 0 <= i < swapped(shorthand_table()).len() implies (
    #[trigger] swapped(shorthand_table())[i]).0.len() > 0 by {
        assert(shorthand_table()[i].1.len() > 0);
    }
    let r = apply_table(s, &posix, &modern, Ghost(swapped(shorthand_table())));
    apply_table(r, &classes, &equivs, Ghost(posix_only_table()))
}

/// Convert POSIX format (from logcheck) to modern regex syntax.
///
/// Converts POSIX classes like `[[:digit:]]` to shorthand like `\d`; classes
/// without a shorthand become their bracket contents.
pub fn posix_to_modern(pattern: &str) -> (r: String)
    ensures
        r@ == spec_posix_to_modern(pattern@),
{
    let r = posix_to_modern_chars(pattern);
    string_from_chars(&r)
}

/// Convert POSIX format to Rust regex syntax (for internal processing).
///
/// Like `posix_to_modern`, and escapes curly braces standing alone between spaces.
pub fn posix_to_rust(pattern: &str) -> (r: String)
    ensures
        r@ == spec_posix_to_rust(pattern@),
{
    let r = posix_to_modern_chars(pattern);
    proof {
        reveal_strlit(" { ");
        reveal_strlit(" } ");
    }
    let r = replace_str(&r, " { ", " \\{ ");
    let r = replace_str(&r, " } ", " \\} ");
    string_from_chars(&r)
}

/// Remove anchors from a regex pattern: a leading `^` and a trailing `$`.
pub fn remove_anchors(pattern: &str) -> (r: String)
    ensures
        r@ == spec_remove_anchors(pattern@),
{
    let mut v = chars_of(pattern);
    if v.len() > 0 && v[0] == '^' {
        v.remove(0);
    }
    if v.len() > 0 && v[v.len() - 1] == '$' {
        v.pop();
    }
    string_from_chars(&v)
}

/// Add anchors to a regex pattern if not present.
pub fn ensure_anchors(pattern: &str) -> (r: String)
    ensures
        r@ == spec_ensure_anchors(pattern@),
{
    let v = chars_of(pattern);
    let mut out: Vec<char> = Vec::new();
    if !(v.len() > 0 && v[0] == '^') {
        out.push('^');
    }
    push_all(&mut out, &v);
    if !(out.len() > 0 && out[out.len() - 1] == '$') {
        out.push('$');
    }
    string_from_chars(&out)
}

/// Replacing a pattern whose first character does not occur in `s` changes nothing.
proof fn lemma_replace_absent(s: Seq<char>, pat: Seq<char>, rep: Seq<char>)
    requires
        pat.len() > 0,
        !s.contains(pat[0]),
    ensures
        replace_all(s, pat, rep) == s,
    decreases s.len(),
{
    if s.len() >= pat.len() {
        assert(s.take(pat.len() as int)[0] == s[0]);
        assert(s.contains(s[0]));
        let t = s.skip(1);
        assert forall|k: int| 0 <= k < t.len() implies t[k] != pat[0] by {
            assert(t[k] == s[k + 1]);
            assert(s.contains(s[k + 1]));
        }
        lemma_replace_absent(t, pat, rep);
        assert(seq![s[0]] + t =~= s);
    }
}

/// A table whose patterns all start with a character absent from `s` changes nothing.
pub proof fn lemma_replace_each_absent(s: Seq<char>, t: ReplacementTable, c: char)
    requires
        !s.contains(c),
        forall|i: int| 0 <= i < t.len() ==> (#[trigger] t[i]).0.len() > 0 && t[i].0[0] == c,
    ensures
        replace_each(s, t) == s,
    decreases t.len(),
{
    if t.len() > 0 {
        lemma_replace_each_absent(s, t.drop_last(), c);
        assert(t[t.len() - 1] == t.last());
        lemma_replace_absent(s, t.last().0, t.last().1);
    }
}

/// Text without a backslash holds no shorthand class: `modern_to_posix` leaves it as it is.
pub proof fn lemma_modern_to_posix_keeps_plain_text(s: Seq<char>)
    requires
        !s.contains('\\'),
    ensures
        spec_modern_to_posix(s) == s,
{
    reveal_strlit("\\d");
    reveal_strlit("\\D");
    reveal_strlit("\\s");
    reveal_strlit("\\S");
    reveal_strlit("\\w");
    reveal_strlit("\\W");
    lemma_replace_each_absent(s, shorthand_table(), '\\');
}

/// Text without a `[` holds no POSIX class: `posix_to_modern` leaves it as it is.
pub proof fn lemma_posix_to_modern_keeps_plain_text(s: Seq<char>)
    requires
        !s.contains('['),
    ensures
        spec_posix_to_modern(s) == s,
{
    reveal_strlit("[[:digit:]]");
    reveal_strlit("[^[:digit:]]");
    reveal_strlit("[[:space:]]");
    reveal_strlit("[^[:space:]]");
    reveal_strlit("[[:alnum:]_]");
    reveal_strlit("[^[:alnum:]_]");
    reveal_strlit("[[:alpha:]]");
    reveal_strlit("[[:alnum:]]");
    reveal_strlit("[[:xdigit:]]");
    reveal_strlit("[[:lower:]]");
    reveal_strlit("[[:upper:]]");
    reveal_strlit("[[:blank:]]");
    reveal_strlit("[[:punct:]]");
    reveal_strlit("[[:print:]]");
    reveal_strlit("[[:graph:]]");
    reveal_strlit("[[:cntrl:]]");
    let sw = swapped(shorthand_table());
    assert forall|i: int| 0 <= i < sw.len() implies (#[trigger] sw[i]).0.len() > 0 && sw[i].0[0]
        == '[' by {
        assert(sw[i] == (shorthand_table()[i].1, shorthand_table()[i].0));
    }
    lemma_replace_each_absent(s, sw, '[');
    lemma_replace_each_absent(s, posix_only_table(), '[');
}

/// `ensure_anchors` gives a pattern that starts with `^` and ends with `$`, and
/// adding anchors twice is adding them once.
pub proof fn lemma_ensure_anchors_idempotent(s: Seq<char>)
    ensures
        spec_ensure_anchors(s).len() >= 2,
        spec_ensure_anchors(s)[0] == '^',
        spec_ensure_anchors(s).last() == '$',
        spec_ensure_anchors(spec_ensure_anchors(s)) == spec_ensure_anchors(s),
{
    let t = if s.len() > 0 && s[0] == '^' { s } else { seq!['^'] + s };
    assert(t[0] == '^');
    if !(t.len() > 0 && t.last() == '$') {
        assert((t + seq!['$'])[0] == '^');
    }
}

/// Removing the anchors that `ensure_anchors` added gives what removing them
/// from the original gives: the pattern's core is kept.
pub proof fn lemma_remove_after_ensure(s: Seq<char>)
    ensures
        spec_remove_anchors(spec_ensure_anchors(s)) == spec_remove_anchors(s),
{
    let a = if s.len() > 0 && s[0] == '^' { s.drop_first() } else { s };
    let t = seq!['^'] + a;
    if s.len() > 0 && s[0] == '^' {
        assert(s =~= t);
    }
    let e = spec_ensure_anchors(s);
    if a.len() > 0 && a.last() == '$' {
        assert(e =~= t);
        assert(e.drop_first() =~= a);
    } else {
        assert(e =~= t + seq!['$']);
        assert(e.drop_first() =~= a + seq!['$']);
        assert(e.drop_first().drop_last() =~= a);
    }
}

} // verus!
