//! The round trip of the regex conversions: turning shorthand classes into
//! POSIX classes and back gives the pattern back, for patterns without `[`.
//!
//! Both directions apply their table entry by entry; each is shown to equal
//! one left-to-right scan that converts every shorthand at once.
use vstd::prelude::*;

use crate::regex_conversion::{
    lemma_replace_each_absent, posix_only_table, replace_each, shorthand_table, spec_modern_to_posix, spec_posix_to_modern,
    swapped,
};
use crate::text::{occurs_at, replace_all};

verus! {

/// The shorthand letters, in table order.
pub open spec fn letter(k: int) -> char {
    if k == 0 {
        'd'
    } else if k == 1 {
        'D'
    } else if k == 2 {
        's'
    } else if k == 3 {
        'S'
    } else if k == 4 {
        'w'
    } else {
        'W'
    }
}

/// The table position of a shorthand letter, or -1.
pub open spec fn letter_index(c: char) -> int {
    if c == 'd' {
        0
    } else if c == 'D' {
        1
    } else if c == 's' {
        2
    } else if c == 'S' {
        3
    } else if c == 'w' {
        4
    } else if c == 'W' {
        5
    } else {
        -1
    }
}

/// The POSIX class of table entry `k`.
pub open spec fn class_text(k: int) -> Seq<char> {
    if k == 0 {
        seq!['[', '[', ':', 'd', 'i', 'g', 'i', 't', ':', ']', ']']
    } else if k == 1 {
        seq!['[', '^', '[', ':', 'd', 'i', 'g', 'i', 't', ':', ']', ']']
    } else if k == 2 {
        seq!['[', '[', ':', 's', 'p', 'a', 'c', 'e', ':', ']', ']']
    } else if k == 3 {
        seq!['[', '^', '[', ':', 's', 'p', 'a', 'c', 'e', ':', ']', ']']
    } else if k == 4 {
        seq!['[', '[', ':', 'a', 'l', 'n', 'u', 'm', ':', ']', '_', ']']
    } else {
        seq!['[', '^', '[', ':', 'a', 'l', 'n', 'u', 'm', ':', ']', '_', ']']
    }
}

/// One left-to-right scan of `s` that replaces each shorthand `\x` whose table
/// position lies in `lo..hi` by its POSIX class.
pub open spec fn convert_scan(s: Seq<char>, lo: int, hi: int) -> Seq<char>
    decreases s.len(),
{
    if s.len() < 2 {
        s
    } else if s[0] == '\\' && lo <= letter_index(s[1]) < hi {
        class_text(letter_index(s[1])) + convert_scan(s.skip(2), lo, hi)
    } else {
        seq![s[0]] + convert_scan(s.skip(1), lo, hi)
    }
}

/// Some character of `c` at or after `i + m` differs from `pat` at the same offset
/// from `i`, before either ends.
pub open spec fn mismatch_from(c: Seq<char>, pat: Seq<char>, i: int, m: int) -> bool
    decreases pat.len() - m,
{
    if m < 0 || i < 0 || m >= pat.len() || i + m >= c.len() {
        false
    } else if c[i + m] != pat[m] {
        true
    } else {
        mismatch_from(c, pat, i, m + 1)
    }
}

/// No occurrence of `pat` can start in `c` at or after `i`, whatever follows `c`.
pub open spec fn mismatch_all(c: Seq<char>, pat: Seq<char>, i: int) -> bool
    decreases c.len() - i,
{
    if i < 0 || i >= c.len() {
        true
    } else {
        mismatch_from(c, pat, i, 0) && mismatch_all(c, pat, i + 1)
    }
}

/// No character of `s` from `i` on is `c`.
pub open spec fn lacks_from(s: Seq<char>, c: char, i: int) -> bool
    decreases s.len() - i,
{
    if i < 0 || i >= s.len() {
        true
    } else {
        s[i] != c && lacks_from(s, c, i + 1)
    }
}

proof fn lemma_lacks_from(s: Seq<char>, c: char, i: int)
    requires
        0 <= i,
        lacks_from(s, c, i),
    ensures
        forall|j: int| i <= j < s.len() ==> s[j] != c,
    decreases s.len() - i,
{
    if i < s.len() {
        lemma_lacks_from(s, c, i + 1);
    }
}

proof fn lemma_mismatch_from(c: Seq<char>, pat: Seq<char>, i: int, m: int, t: Seq<char>)
    requires
        0 <= i,
        0 <= m,
        mismatch_from(c, pat, i, m),
        forall|n: int| 0 <= n < m ==> i + n < c.len() && c[i + n] == pat[n],
    ensures
        !occurs_at(c + t, i, pat),
    decreases pat.len() - m,
{
    let u = c + t;
    if c[i + m] != pat[m] {
        if occurs_at(u, i, pat) {
            assert(u.subrange(i, i + pat.len())[m] == pat[m]);
            assert(u[i + m] == c[i + m]);
        }
    } else {
        lemma_mismatch_from(c, pat, i, m + 1, t);
    }
}

proof fn lemma_mismatch_all(c: Seq<char>, pat: Seq<char>, i: int, t: Seq<char>)
    requires
        0 <= i,
        mismatch_all(c, pat, i),
    ensures
        forall|j: int| i <= j < c.len() ==> !occurs_at(c + t, j, pat),
    decreases c.len() - i,
{
    if i < c.len() {
        lemma_mismatch_from(c, pat, i, 0, t);
        lemma_mismatch_all(c, pat, i + 1, t);
    }
}

/// The facts about the table that the round trip rests on.
proof fn lemma_table_facts()
    ensures
        shorthand_table().len() == 6,
        forall|k: int| 0 <= k < 6 ==> #[trigger] shorthand_table()[k] == (seq!['\\', letter(k)], class_text(k)),
        forall|k: int| 0 <= k < 6 ==> letter_index(#[trigger] letter(k)) == k,
        forall|k: int| 0 <= k < 6 ==> (#[trigger] class_text(k)).len() >= 11 && class_text(k)[0] == '[',
        forall|k: int, j: int| 0 <= k < 6 && 0 <= j < class_text(k).len() ==> #[trigger] class_text(k)[j] != '\\',
        forall|k: int, j: int| 0 <= k < j < 6 ==> #[trigger] mismatch_all(class_text(j), class_text(k), 0),
{
    reveal_strlit("\\d");
    reveal_strlit("\\D");
    reveal_strlit("\\s");
    reveal_strlit("\\S");
    reveal_strlit("\\w");
    reveal_strlit("\\W");
    reveal_strlit("[[:digit:]]");
    reveal_strlit("[^[:digit:]]");
    reveal_strlit("[[:space:]]");
    reveal_strlit("[^[:space:]]");
    reveal_strlit("[[:alnum:]_]");
    reveal_strlit("[^[:alnum:]_]");
    assert forall|k: int| 0 <= k < 6 implies #[trigger] shorthand_table()[k] == (
        seq!['\\', letter(k)],
        class_text(k),
    ) by {
        assert(shorthand_table()[k].0 =~= seq!['\\', letter(k)]);
        assert(shorthand_table()[k].1 =~= class_text(k));
    }
    assert(lacks_from(class_text(0), '\\', 0)) by {
        reveal_with_fuel(lacks_from, 14);
    }
    assert(lacks_from(class_text(1), '\\', 0)) by {
        reveal_with_fuel(lacks_from, 14);
    }
    assert(lacks_from(class_text(2), '\\', 0)) by {
        reveal_with_fuel(lacks_from, 14);
    }
    assert(lacks_from(class_text(3), '\\', 0)) by {
        reveal_with_fuel(lacks_from, 14);
    }
    assert(lacks_from(class_text(4), '\\', 0)) by {
        reveal_with_fuel(lacks_from, 14);
    }
    assert(lacks_from(class_text(5), '\\', 0)) by {
        reveal_with_fuel(lacks_from, 14);
    }
    assert forall|k: int, j: int| 0 <= k < 6 && 0 <= j < class_text(k).len() implies #[trigger] class_text(k)[j] != '\\' by {
        lemma_lacks_from(class_text(k), '\\', 0);
    }
    assert(mismatch_all(class_text(1), class_text(0), 0)) by {
        reveal_with_fuel(mismatch_all, 14);
        reveal_with_fuel(mismatch_from, 6);
    }
    assert(mismatch_all(class_text(2), class_text(0), 0)) by {
        reveal_with_fuel(mismatch_all, 14);
        reveal_with_fuel(mismatch_from, 6);
    }
    assert(mismatch_all(class_text(3), class_text(0), 0)) by {
        reveal_with_fuel(mismatch_all, 14);
        reveal_with_fuel(mismatch_from, 6);
    }
    assert(mismatch_all(class_text(4), class_text(0), 0)) by {
        reveal_with_fuel(mismatch_all, 14);
        reveal_with_fuel(mismatch_from, 6);
    }
    assert(mismatch_all(class_text(5), class_text(0), 0)) by {
        reveal_with_fuel(mismatch_all, 14);
        reveal_with_fuel(mismatch_from, 6);
    }
    assert(mismatch_all(class_text(2), class_text(1), 0)) by {
        reveal_with_fuel(mismatch_all, 14);
        reveal_with_fuel(mismatch_from, 6);
    }
    assert(mismatch_all(class_text(3), class_text(1), 0)) by {
        reveal_with_fuel(mismatch_all, 14);
        reveal_with_fuel(mismatch_from, 6);
    }
    assert(mismatch_all(class_text(4), class_text(1), 0)) by {
        reveal_with_fuel(mismatch_all, 14);
        reveal_with_fuel(mismatch_from, 6);
    }
    assert(mismatch_all(class_text(5), class_text(1), 0)) by {
        reveal_with_fuel(mismatch_all, 14);
        reveal_with_fuel(mismatch_from, 6);
    }
    assert(mismatch_all(class_text(3), class_text(2), 0)) by {
        reveal_with_fuel(mismatch_all, 14);
        reveal_with_fuel(mismatch_from, 6);
    }
    assert(mismatch_all(class_text(4), class_text(2), 0)) by {
        reveal_with_fuel(mismatch_all, 14);
        reveal_with_fuel(mismatch_from, 6);
    }
    assert(mismatch_all(class_text(5), class_text(2), 0)) by {
        reveal_with_fuel(mismatch_all, 14);
        reveal_with_fuel(mismatch_from, 6);
    }
    assert(mismatch_all(class_text(4), class_text(3), 0)) by {
        reveal_with_fuel(mismatch_all, 14);
        reveal_with_fuel(mismatch_from, 6);
    }
    assert(mismatch_all(class_text(5), class_text(3), 0)) by {
        reveal_with_fuel(mismatch_all, 14);
        reveal_with_fuel(mismatch_from, 6);
    }
    assert(mismatch_all(class_text(5), class_text(4), 0)) by {
        reveal_with_fuel(mismatch_all, 14);
        reveal_with_fuel(mismatch_from, 6);
    }
}

/// Replacing in `c + t` when no occurrence of the pattern starts inside `c`
/// leaves `c` as it is.
proof fn lemma_replace_skip(c: Seq<char>, t: Seq<char>, pat: Seq<char>, rep: Seq<char>)
    requires
        pat.len() > 0,
        forall|i: int| 0 <= i < c.len() ==> !occurs_at(c + t, i, pat),
    ensures
        replace_all(c + t, pat, rep) == c + replace_all(t, pat, rep),
    decreases c.len(),
{
    let u = c + t;
    if c.len() == 0 {
        assert(u =~= t);
        assert(c + replace_all(t, pat, rep) =~= replace_all(t, pat, rep));
    } else if u.len() < pat.len() {
        assert(t.len() < pat.len());
    } else {
        assert(!occurs_at(u, 0, pat));
        assert(u.subrange(0, pat.len() as int) =~= u.take(pat.len() as int));
        let c1 = c.skip(1);
        assert(u.skip(1) =~= c1 + t);
        assert forall|i: int| 0 <= i < c1.len() implies !occurs_at(c1 + t, i, pat) by {
            assert(!occurs_at(u, i + 1, pat));
            if occurs_at(c1 + t, i, pat) {
                assert((c1 + t).subrange(i, i + pat.len()) =~= u.subrange(i + 1, i + 1 + pat.len()));
            }
        }
        lemma_replace_skip(c1, t, pat, rep);
        assert(seq![c[0]] + (c1 + replace_all(t, pat, rep)) =~= c + replace_all(t, pat, rep));
    }
}

/// Replacing in `pat + t` replaces the leading occurrence.
proof fn lemma_replace_match(t: Seq<char>, pat: Seq<char>, rep: Seq<char>)
    requires
        pat.len() > 0,
    ensures
        replace_all(pat + t, pat, rep) == rep + replace_all(t, pat, rep),
{
    let u = pat + t;
    assert(u.take(pat.len() as int) =~= pat);
    assert(u.skip(pat.len() as int) =~= t);
}

/// A scan of text that does not start with a backslash keeps its first character.
proof fn lemma_scan_plain_head(t: Seq<char>, lo: int, hi: int)
    requires
        t.len() > 0,
        t[0] != '\\',
    ensures
        convert_scan(t, lo, hi) == seq![t[0]] + convert_scan(t.skip(1), lo, hi),
{
    if t.len() < 2 {
        assert(t.skip(1) =~= Seq::<char>::empty());
        assert(t =~= seq![t[0]]);
    }
}

/// The scan of a non-empty text starts with its first character or with `[`.
proof fn lemma_scan_head(t: Seq<char>, lo: int, hi: int)
    requires
        t.len() > 0,
        0 <= lo,
        hi <= 6,
    ensures
        convert_scan(t, lo, hi).len() > 0,
        convert_scan(t, lo, hi)[0] == t[0] || convert_scan(t, lo, hi)[0] == '[',
{
    lemma_table_facts();
    if t.len() >= 2 && t[0] == '\\' && lo <= letter_index(t[1]) < hi {
        let k = letter_index(t[1]);
        assert(class_text(k).len() >= 11 && class_text(k)[0] == '[');
    }
}

/// One entry of the shorthand table, applied to the scan of the earlier
/// entries, gives the scan of the entries up to it.
proof fn lemma_forward_step(s: Seq<char>, k: int)
    requires
        0 <= k < 6,
    ensures
        replace_all(convert_scan(s, 0, k), seq!['\\', letter(k)], class_text(k)) == convert_scan(
            s,
            0,
            k + 1,
        ),
    decreases s.len(),
{
    lemma_table_facts();
    let pat = seq!['\\', letter(k)];
    let rep = class_text(k);
    if s.len() < 2 {
    } else if s[0] == '\\' && 0 <= letter_index(s[1]) < k {
        let j = letter_index(s[1]);
        let rest = convert_scan(s.skip(2), 0, k);
        assert forall|i: int| 0 <= i < class_text(j).len() implies !occurs_at(class_text(j) + rest, i, pat) by {
            assert((class_text(j) + rest)[i] == class_text(j)[i]);
            assert(class_text(j)[i] != '\\');
            if occurs_at(class_text(j) + rest, i, pat) {
                assert((class_text(j) + rest).subrange(i, i + 2)[0] == pat[0]);
            }
        }
        lemma_replace_skip(class_text(j), rest, pat, rep);
        lemma_forward_step(s.skip(2), k);
    } else if s[0] == '\\' && letter_index(s[1]) == k {
        lemma_scan_plain_head(s.skip(1), 0, k);
        assert(s.skip(1).skip(1) =~= s.skip(2));
        let rest = convert_scan(s.skip(2), 0, k);
        assert(convert_scan(s, 0, k) =~= pat + rest);
        lemma_replace_match(rest, pat, rep);
        lemma_forward_step(s.skip(2), k);
        assert(letter(k) == s[1]);
    } else if s[0] == '\\' {
        let v = convert_scan(s.skip(1), 0, k);
        lemma_scan_head(s.skip(1), 0, k);
        assert(letter_index(letter(k)) == k);
        assert forall|i: int| 0 <= i < 1 implies !occurs_at(seq!['\\'] + v, i, pat) by {
            if occurs_at(seq!['\\'] + v, 0, pat) {
                assert((seq!['\\'] + v).subrange(0, 2)[1] == pat[1]);
                assert((seq!['\\'] + v)[1] == v[0]);
            }
        }
        lemma_replace_skip(seq!['\\'], v, pat, rep);
        lemma_forward_step(s.skip(1), k);
    } else {
        let v = convert_scan(s.skip(1), 0, k);
        assert forall|i: int| 0 <= i < 1 implies !occurs_at(seq![s[0]] + v, i, pat) by {
            if occurs_at(seq![s[0]] + v, 0, pat) {
                assert((seq![s[0]] + v).subrange(0, 2)[0] == pat[0]);
            }
        }
        lemma_replace_skip(seq![s[0]], v, pat, rep);
        lemma_forward_step(s.skip(1), k);
    }
}

/// Undoing one entry of the table on the scan of the later entries gives the
/// scan of the entries after it (for text without `[`).
proof fn lemma_backward_step(s: Seq<char>, k: int)
    requires
        0 <= k < 6,
        forall|i: int| 0 <= i < s.len() ==> s[i] != '[',
    ensures
        replace_all(convert_scan(s, k, 6), class_text(k), seq!['\\', letter(k)]) == convert_scan(
            s,
            k + 1,
            6,
        ),
    decreases s.len(),
{
    lemma_table_facts();
    let pat = class_text(k);
    let rep = seq!['\\', letter(k)];
    if s.len() < 2 {
    } else if s[0] == '\\' && k < letter_index(s[1]) < 6 {
        let j = letter_index(s[1]);
        let rest = convert_scan(s.skip(2), k, 6);
        assert(mismatch_all(class_text(j), class_text(k), 0));
        lemma_mismatch_all(class_text(j), class_text(k), 0, rest);
        lemma_replace_skip(class_text(j), rest, pat, rep);
        lemma_backward_step(s.skip(2), k);
    } else if s[0] == '\\' && letter_index(s[1]) == k {
        let rest = convert_scan(s.skip(2), k, 6);
        lemma_replace_match(rest, pat, rep);
        lemma_backward_step(s.skip(2), k);
        lemma_scan_plain_head(s.skip(1), k + 1, 6);
        assert(s.skip(1).skip(1) =~= s.skip(2));
        assert(letter(k) == s[1]);
        assert(convert_scan(s, k + 1, 6) =~= rep + convert_scan(s.skip(2), k + 1, 6));
    } else {
        let v = convert_scan(s.skip(1), k, 6);
        assert forall|i: int| 0 <= i < 1 implies !occurs_at(seq![s[0]] + v, i, pat) by {
            if occurs_at(seq![s[0]] + v, 0, pat) {
                assert((seq![s[0]] + v).subrange(0, pat.len() as int)[0] == pat[0]);
            }
        }
        lemma_replace_skip(seq![s[0]], v, pat, rep);
        lemma_backward_step(s.skip(1), k);
    }
}

/// Applying the first `k` entries of the shorthand table is the scan for them.
proof fn lemma_forward(s: Seq<char>, k: int)
    requires
        0 <= k <= 6,
    ensures
        replace_each(s, shorthand_table().take(k)) == convert_scan(s, 0, k),
    decreases k,
{
    lemma_table_facts();
    if k == 0 {
        assert(shorthand_table().take(0) =~= Seq::<(Seq<char>, Seq<char>)>::empty());
        lemma_scan_none(s, 0);
    } else {
        let t = shorthand_table().take(k);
        assert(t.drop_last() =~= shorthand_table().take(k - 1));
        assert(t.last() == shorthand_table()[k - 1]);
        lemma_forward(s, k - 1);
        lemma_forward_step(s, k - 1);
    }
}

/// Undoing the first `k` entries of the table on the full scan is the scan of
/// the later entries (for text without `[`).
proof fn lemma_backward(s: Seq<char>, k: int)
    requires
        0 <= k <= 6,
        forall|i: int| 0 <= i < s.len() ==> s[i] != '[',
    ensures
        replace_each(convert_scan(s, 0, 6), swapped(shorthand_table()).take(k)) == convert_scan(
            s,
            k,
            6,
        ),
    decreases k,
{
    lemma_table_facts();
    let sw = swapped(shorthand_table());
    if k == 0 {
        assert(sw.take(0) =~= Seq::<(Seq<char>, Seq<char>)>::empty());
    } else {
        let t = sw.take(k);
        assert(t.drop_last() =~= sw.take(k - 1));
        assert(t.last() == sw[k - 1]);
        assert(sw[k - 1] == (class_text(k - 1), seq!['\\', letter(k - 1)]));
        lemma_backward(s, k - 1);
        lemma_backward_step(s, k - 1);
    }
}

/// A scan for an empty range of entries changes nothing.
proof fn lemma_scan_none(s: Seq<char>, k: int)
    ensures
        convert_scan(s, k, k) == s,
    decreases s.len(),
{
    if s.len() >= 2 {
        lemma_scan_none(s.skip(1), k);
        assert(seq![s[0]] + s.skip(1) =~= s);
    }
}

/// `modern_to_posix` replaces every shorthand class in one left-to-right scan.
pub proof fn lemma_modern_to_posix_scan(s: Seq<char>)
    ensures
        spec_modern_to_posix(s) == convert_scan(s, 0, 6),
{
    lemma_table_facts();
    assert(shorthand_table().take(6) =~= shorthand_table());
    lemma_forward(s, 6);
}

/// Converting a pattern without `[` to POSIX classes and back gives the pattern back.
pub proof fn lemma_posix_round_trip(s: Seq<char>)
    requires
        !s.contains('['),
    ensures
        spec_posix_to_modern(spec_modern_to_posix(s)) == s,
{
    lemma_table_facts();
    assert forall|i: int| 0 <= i < s.len() implies s[i] != '[' by {
        if s[i] == '[' {
            assert(s.contains('['));
        }
    }
    lemma_modern_to_posix_scan(s);
    let sw = swapped(shorthand_table());
    assert(sw.take(6) =~= sw);
    lemma_backward(s, 6);
    lemma_scan_none(s, 6);
    reveal_strlit("[[:alpha:]]");
    reveal_strlit("[[:alnum:]]");
    reveal_strlit("[[:xdigit:]]");
    reveal_strlit("[[:lower:]]");
    reveal_strlit("[[:upper:]]");
    reveal_strlit("[[:blank:]]");
    reveal_strlit("[[:punct:]]");
    reveal_strlit("[[:print:]]");
    reveal_strlit("[[:graph:]]");
    reveal_strlit("[[:cntrl:]]");
    lemma_replace_each_absent(s, posix_only_table(), '[');
}

} // verus!
