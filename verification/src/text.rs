//! Character-level text operations shared by the rest of the library.
//!
//! Strings are reasoned about through their character views (`Seq<char>`).
use vstd::prelude::*;
use vstd::utf8::{char_is_scalar, encode_scalar, encode_utf8};

verus! {

/// The character views of a sequence of strings.
pub open spec fn views(v: Seq<String>) -> Seq<Seq<char>> {
    v.map_values(|s: String| s@)
}

/// `p` occurs in `s` starting at position `i`.
pub open spec fn occurs_at(s: Seq<char>, i: int, p: Seq<char>) -> bool {
    &&& 0 <= i
    &&& i + p.len() <= s.len()
    &&& s.subrange(i, i + p.len()) == p
}

/// `p` occurs somewhere in `s`.
pub open spec fn contains_seq(s: Seq<char>, p: Seq<char>) -> bool {
    exists|i: int| occurs_at(s, i, p)
}

/// Replacement of every non-overlapping occurrence of `pat` in `s` by `rep`,
/// scanning from the left (the behaviour of `str::replace` for a non-empty pattern).
pub open spec fn replace_all(s: Seq<char>, pat: Seq<char>, rep: Seq<char>) -> Seq<char>
    decreases s.len(),
{
    if pat.len() == 0 || s.len() < pat.len() {
        s
    } else if s.take(pat.len() as int) == pat {
        rep + replace_all(s.skip(pat.len() as int), pat, rep)
    } else {
        seq![s[0]] + replace_all(s.skip(1), pat, rep)
    }
}

/// The ten decimal digits.
pub open spec fn digit_chars() -> Seq<char> {
    seq!['0', '1', '2', '3', '4', '5', '6', '7', '8', '9']
}

/// The decimal representation of `n`, without leading zeros.
pub open spec fn decimal(n: nat) -> Seq<char>
    decreases n,
{
    if n < 10 {
        seq![digit_chars()[n as int]]
    } else {
        decimal(n / 10) + seq![digit_chars()[(n % 10) as int]]
    }
}

/// The characters of `s`, in order.
pub fn chars_of(s: &str) -> (v: Vec<char>)
    ensures
        v@ == s@,
{
    let mut v: Vec<char> = Vec::new();
    for c in it: s.chars()
        invariant
            v@ == it.seq().take(it.index() as int),
            it.seq() == s@,
    {
        v.push(c);
    }
    v
}

/// Collects characters into a `String` (std's `FromIterator<&char> for String`):
/// the string holds exactly the given characters, in order.
#[verifier::external_body]
pub(crate) fn string_from_chars(v: &Vec<char>) -> (s: String)
    ensures
        s@ == v@,
{
    v.iter().collect()
}

/// Appends all of `other` to `out`.
pub fn push_all(out: &mut Vec<char>, other: &Vec<char>)
    ensures
        final(out)@ == old(out)@ + other@,
{
    let ghost start = out@;
    let mut i: usize = 0;
    while i < other.len()
        invariant
            i <= other.len(),
            out@ == start + other@.take(i as int),
        decreases other.len() - i,
    {
        out.push(other[i]);
        i = i + 1;
        assert(other@.take(i as int) == other@.take(i - 1) + seq![other@[i - 1]]);
    }
    assert(other@.take(other.len() as int) == other@);
}

/// Appends the characters of `other` to `out`.
pub fn push_str(out: &mut Vec<char>, other: &str)
    ensures
        final(out)@ == old(out)@ + other@,
{
    let cs = chars_of(other);
    push_all(out, &cs);
}

/// Whether `pat` occurs in `s` at position `i`.
pub fn occurs_at_exec(s: &Vec<char>, i: usize, pat: &Vec<char>) -> (b: bool)
    ensures
        b == occurs_at(s@, i as int, pat@),
{
    if i > s.len() || pat.len() > s.len() - i {
        return false;
    }
    let mut j: usize = 0;
    while j < pat.len()
        invariant
            i + pat.len() <= s.len(),
            j <= pat.len(),
            forall|k: int| 0 <= k < j ==> s@[i + k] == pat@[k],
        decreases pat.len() - j,
    {
        if s[i + j] != pat[j] {
            assert(s@.subrange(i as int, i + pat.len())[j as int] != pat@[j as int]);
            return false;
        }
        j = j + 1;
    }
    assert(s@.subrange(i as int, i + pat.len()) =~= pat@);
    true
}

/// Whether `pat` occurs anywhere in `s`.
pub fn contains_exec(s: &Vec<char>, pat: &Vec<char>) -> (b: bool)
    ensures
        b == contains_seq(s@, pat@),
{
    if pat.len() == 0 {
        assert(occurs_at(s@, 0, pat@)) by {
            assert(s@.subrange(0, 0) =~= pat@);
        }
        return true;
    }
    let mut i: usize = 0;
    while i < s.len()
        invariant
            pat.len() > 0,
            i <= s.len(),
            forall|k: int| 0 <= k < i ==> !occurs_at(s@, k, pat@),
        decreases s.len() - i,
    {
        if occurs_at_exec(s, i, pat) {
            return true;
        }
        i = i + 1;
    }
    assert forall|k: int| !occurs_at(s@, k, pat@) by {
        if 0 <= k < i {
        }
    }
    false
}

proof fn lemma_replace_all_step(s: Seq<char>, i: int, pat: Seq<char>, rep: Seq<char>)
    requires
        pat.len() > 0,
        0 <= i <= s.len(),
    ensures
        i + pat.len() <= s.len() && occurs_at(s, i, pat) ==> replace_all(s.skip(i), pat, rep)
            == rep + replace_all(s.skip(i + pat.len()), pat, rep),
        i < s.len() && !occurs_at(s, i, pat) ==> replace_all(s.skip(i), pat, rep) == seq![s[i]]
            + replace_all(s.skip(i + 1), pat, rep),
        i + pat.len() > s.len() ==> replace_all(s.skip(i), pat, rep) == s.skip(i),
{
    let t = s.skip(i);
    if t.len() >= pat.len() {
        assert(t.take(pat.len() as int) =~= s.subrange(i, i + pat.len()));
        assert(t.skip(pat.len() as int) =~= s.skip(i + pat.len()));
        assert(t.skip(1) =~= s.skip(i + 1));
    }
}

/// Replaces every non-overlapping occurrence of `pat` in `s` by `rep`, from the left.
pub fn replace_chars(s: &Vec<char>, pat: &Vec<char>, rep: &Vec<char>) -> (r: Vec<char>)
    requires
        pat.len() > 0,
    ensures
        r@ == replace_all(s@, pat@, rep@),
{
    let mut out: Vec<char> = Vec::new();
    let mut i: usize = 0;
    assert(s@.skip(0) =~= s@);
    while i < s.len()
        invariant
            pat.len() > 0,
            i <= s.len(),
            out@ + replace_all(s@.skip(i as int), pat@, rep@) == replace_all(s@, pat@, rep@),
        decreases s.len() - i,
    {
        proof {
            lemma_replace_all_step(s@, i as int, pat@, rep@);
        }
        if occurs_at_exec(s, i, pat) {
            let ghost before = out@;
            push_all(&mut out, rep);
            assert(out@ + replace_all(s@.skip(i + pat.len()), pat@, rep@) == before + (rep@
                + replace_all(s@.skip(i + pat.len()), pat@, rep@)));
            i = i + pat.len();
        } else {
            let ghost before = out@;
            out.push(s[i]);
            assert(out@ + replace_all(s@.skip(i + 1), pat@, rep@) == before + (seq![s@[i as int]]
                + replace_all(s@.skip(i + 1), pat@, rep@)));
            i = i + 1;
        }
    }
    proof {
        assert(s@.skip(i as int).len() == 0);
        assert(replace_all(s@.skip(i as int), pat@, rep@) =~= Seq::<char>::empty());
        assert(out@ + Seq::<char>::empty() =~= out@);
    }
    out
}

/// Replaces every occurrence of `pat` in the character sequence `s` by `rep`.
pub fn replace_str(s: &Vec<char>, pat: &str, rep: &str) -> (r: Vec<char>)
    requires
        pat@.len() > 0,
    ensures
        r@ == replace_all(s@, pat@, rep@),
{
    let p = chars_of(pat);
    let q = chars_of(rep);
    replace_chars(s, &p, &q)
}

/// The decimal representation of `n`.
pub fn decimal_chars(n: usize) -> (v: Vec<char>)
    ensures
        v@ == decimal(n as nat),
    decreases n,
{
    let digits: [char; 10] = ['0', '1', '2', '3', '4', '5', '6', '7', '8', '9'];
    assert(digits@ == digit_chars());
    if n < 10 {
        let mut v: Vec<char> = Vec::new();
        v.push(digits[n]);
        v
    } else {
        let mut v = decimal_chars(n / 10);
        v.push(digits[n % 10]);
        v
    }
}

/// `char::is_whitespace`: the Unicode White_Space property.
pub open spec fn is_whitespace(c: char) -> bool {
    let u = c as u32;
    (9 <= u <= 13) || u == 32 || u == 0x85 || u == 0xA0 || u == 0x1680 || (0x2000 <= u <= 0x200A)
        || u == 0x2028 || u == 0x2029 || u == 0x202F || u == 0x205F || u == 0x3000
}

/// `s` without its leading whitespace.
pub open spec fn trim_start(s: Seq<char>) -> Seq<char>
    decreases s.len(),
{
    if s.len() > 0 && is_whitespace(s[0]) {
        trim_start(s.drop_first())
    } else {
        s
    }
}

/// `s` without its trailing whitespace.
pub open spec fn trim_end(s: Seq<char>) -> Seq<char>
    decreases s.len(),
{
    if s.len() > 0 && is_whitespace(s.last()) {
        trim_end(s.drop_last())
    } else {
        s
    }
}

/// `s` without leading and trailing whitespace (`str::trim`).
pub open spec fn trim(s: Seq<char>) -> Seq<char> {
    trim_end(trim_start(s))
}

/// The pieces of `s` that `str::split_inclusive('\n')` yields: each ends at a
/// newline (kept), except possibly the last.
pub open spec fn line_pieces(s: Seq<char>) -> Seq<Seq<char>>
    decreases s.len(),
{
    if s.len() == 0 {
        seq![]
    } else {
        let p = line_pieces(s.drop_last());
        if p.len() == 0 || p.last().last() == '\n' {
            p.push(seq![s.last()])
        } else {
            p.drop_last().push(p.last().push(s.last()))
        }
    }
}

/// A piece without its line ending: a final `\n`, then a `\r` before it.
pub open spec fn strip_line_end(l: Seq<char>) -> Seq<char> {
    if l.len() > 0 && l.last() == '\n' {
        let m = l.drop_last();
        if m.len() > 0 && m.last() == '\r' {
            m.drop_last()
        } else {
            m
        }
    } else {
        l
    }
}

/// The lines of `s`, as `str::lines` yields them.
pub open spec fn lines_of(s: Seq<char>) -> Seq<Seq<char>> {
    line_pieces(s).map_values(|l: Seq<char>| strip_line_end(l))
}

/// The character views of a vector of character vectors.
pub open spec fn char_vec_views(v: Seq<Vec<char>>) -> Seq<Seq<char>> {
    v.map_values(|c: Vec<char>| c@)
}

/// `char::is_whitespace`.
pub fn is_whitespace_exec(c: char) -> (b: bool)
    ensures
        b == is_whitespace(c),
{
    let u = c as u32;
    (9 <= u && u <= 13) || u == 32 || u == 0x85 || u == 0xA0 || u == 0x1680 || (0x2000 <= u && u
        <= 0x200A) || u == 0x2028 || u == 0x2029 || u == 0x202F || u == 0x205F || u == 0x3000
}

proof fn lemma_trim_start_skip(s: Seq<char>, i: int)
    requires
        0 <= i <= s.len(),
        forall|k: int| 0 <= k < i ==> is_whitespace(#[trigger] s[k]),
        i == s.len() || !is_whitespace(s[i]),
    ensures
        trim_start(s) == s.skip(i),
    decreases i,
{
    if i == 0 {
        assert(s.skip(0) =~= s);
    } else {
        let t = s.drop_first();
        assert forall|k: int| 0 <= k < i - 1 implies is_whitespace(#[trigger] t[k]) by {
            assert(t[k] == s[k + 1]);
        }
        lemma_trim_start_skip(t, i - 1);
        assert(t.skip(i - 1) =~= s.skip(i));
    }
}

proof fn lemma_trim_end_take(s: Seq<char>, j: int)
    requires
        0 <= j <= s.len(),
        forall|k: int| j <= k < s.len() ==> is_whitespace(#[trigger] s[k]),
        j == 0 || !is_whitespace(s[j - 1]),
    ensures
        trim_end(s) == s.take(j),
    decreases s.len() - j,
{
    if j == s.len() {
        assert(s.take(j) =~= s);
    } else {
        let t = s.drop_last();
        assert forall|k: int| j <= k < t.len() implies is_whitespace(#[trigger] t[k]) by {
            assert(t[k] == s[k]);
        }
        lemma_trim_end_take(t, j);
        assert(t.take(j) =~= s.take(j));
    }
}

/// `s` without leading and trailing whitespace.
pub fn trim_chars(s: &Vec<char>) -> (r: Vec<char>)
    ensures
        r@ == trim(s@),
{
    let mut i: usize = 0;
    while i < s.len() && is_whitespace_exec(s[i])
        invariant
            i <= s.len(),
            forall|k: int| 0 <= k < i ==> is_whitespace(#[trigger] s@[k]),
        decreases s.len() - i,
    {
        i = i + 1;
    }
    proof {
        lemma_trim_start_skip(s@, i as int);
    }
    let mut j: usize = s.len();
    while j > i && is_whitespace_exec(s[j - 1])
        invariant
            i <= j <= s.len(),
            forall|k: int| j <= k < s.len() ==> is_whitespace(#[trigger] s@[k]),
        decreases j,
    {
        j = j - 1;
    }
    let ghost t = s@.skip(i as int);
    proof {
        assert forall|k: int| j - i <= k < t.len() implies is_whitespace(#[trigger] t[k]) by {
            assert(t[k] == s@[k + i]);
        }
        if j > i {
            assert(t[j - i - 1] == s@[j - 1]);
        }
        lemma_trim_end_take(t, j - i);
    }
    let mut r: Vec<char> = Vec::new();
    let mut k: usize = i;
    while k < j
        invariant
            i <= k <= j,
            j <= s.len(),
            r@ == s@.subrange(i as int, k as int),
        decreases j - k,
    {
        r.push(s[k]);
        assert(r@ =~= s@.subrange(i as int, k + 1));
        k = k + 1;
    }
    assert(t.take(j - i) =~= s@.subrange(i as int, j as int));
    r
}

/// The lines of `s` (`str::lines`): split at `\n`, with a `\r` before it dropped.
pub fn split_lines(s: &Vec<char>) -> (r: Vec<Vec<char>>)
    ensures
        char_vec_views(r@) == lines_of(s@),
{
    let mut pieces: Vec<Vec<char>> = Vec::new();
    let mut i: usize = 0;
    assert(s@.take(0) =~= Seq::<char>::empty());
    assert(char_vec_views(pieces@) =~= Seq::<Seq<char>>::empty());
    while i < s.len()
        invariant
            i <= s.len(),
            char_vec_views(pieces@) == line_pieces(s@.take(i as int)),
        decreases s.len() - i,
    {
        let c = s[i];
        let ghost p = line_pieces(s@.take(i as int));
        assert(s@.take(i + 1).drop_last() =~= s@.take(i as int));
        assert(s@.take(i + 1).last() == c);
        let n = pieces.len();
        if n == 0 || ({
            let last = &pieces[n - 1];
            last.len() > 0 && last[last.len() - 1] == '\n'
        }) {
            let mut piece: Vec<char> = Vec::new();
            piece.push(c);
            pieces.push(piece);
            assert(char_vec_views(pieces@) =~= p.push(seq![c]));
        } else {
            let mut piece = pieces.pop().unwrap();
            let ghost before = pieces@;
            piece.push(c);
            pieces.push(piece);
            assert(char_vec_views(before) =~= p.drop_last());
            assert(char_vec_views(pieces@) =~= p.drop_last().push(p.last().push(c)));
        }
        i = i + 1;
    }
    assert(s@.take(s.len() as int) =~= s@);
    let mut r: Vec<Vec<char>> = Vec::new();
    let mut k: usize = 0;
    let ghost ps = line_pieces(s@);
    while k < pieces.len()
        invariant
            k <= pieces.len(),
            char_vec_views(pieces@) == ps,
            char_vec_views(r@) == ps.take(k as int).map_values(|l: Seq<char>| strip_line_end(l)),
        decreases pieces.len() - k,
    {
        let piece = &pieces[k];
        let mut line = piece.clone();
        assert(line@ == ps[k as int]);
        if line.len() > 0 && line[line.len() - 1] == '\n' {
            line.pop();
            if line.len() > 0 && line[line.len() - 1] == '\r' {
                line.pop();
            }
        }
        let ghost before = r@;
        r.push(line);
        assert(char_vec_views(r@) =~= char_vec_views(before).push(strip_line_end(ps[k as int])));
        assert(ps.take(k + 1).map_values(|l: Seq<char>| strip_line_end(l)) =~= ps.take(
            k as int,
        ).map_values(|l: Seq<char>| strip_line_end(l)).push(strip_line_end(ps[k as int])));
        k = k + 1;
    }
    assert(ps.take(pieces.len() as int) =~= ps);
    r
}

/// The same characters, as a `String`.
pub fn owned(s: &str) -> (r: String)
    ensures
        r@ == s@,
{
    s.to_owned()
}

/// Whether two strings hold the same characters.
pub fn str_eq(a: &str, b: &str) -> (r: bool)
    ensures
        r == (a@ == b@),
{
    let x = chars_of(a);
    let y = chars_of(b);
    if x.len() != y.len() {
        return false;
    }
    let mut i: usize = 0;
    while i < x.len()
        invariant
            x@.len() == y@.len(),
            x@ == a@,
            y@ == b@,
            i <= x.len(),
            forall|k: int| 0 <= k < i ==> x@[k] == y@[k],
        decreases x.len() - i,
    {
        if x[i] != y[i] {
            assert(x@[i as int] != y@[i as int]);
            return false;
        }
        i = i + 1;
    }
    assert(x@ =~= y@);
    true
}

/* Byte positions in UTF-8 text */

/// The number of bytes in the UTF-8 encoding of `c`.
pub open spec fn char_width(c: char) -> nat {
    encode_scalar(c as u32).len()
}

/// The number of bytes in the UTF-8 encoding of `s` (what `str::len` returns).
pub open spec fn byte_len(s: Seq<char>) -> nat {
    encode_utf8(s).len()
}

/// The longest prefix of `s` whose UTF-8 encoding fits in `b` bytes.
pub open spec fn take_bytes(s: Seq<char>, b: int) -> Seq<char>
    decreases s.len(),
{
    if s.len() == 0 || char_width(s[0]) > b {
        seq![]
    } else {
        seq![s[0]] + take_bytes(s.drop_first(), b - char_width(s[0]))
    }
}

/// Byte position `b` is a character boundary of the UTF-8 encoding of `s`
/// (`str::is_char_boundary`): it is where the encoding of some prefix ends.
pub open spec fn is_boundary(s: Seq<char>, b: int) -> bool {
    0 <= b && byte_len(take_bytes(s, b)) == b
}

/// The characters of `s` between byte positions `a` and `b` (the slice `&s[a..b]`).
pub open spec fn byte_slice(s: Seq<char>, a: int, b: int) -> Seq<char> {
    take_bytes(s, b).skip(take_bytes(s, a).len() as int)
}

/// Every character is 1 to 4 bytes long.
pub proof fn lemma_char_width_bounds(c: char)
    ensures
        1 <= char_width(c) <= 4,
{
    char_is_scalar(c);
}

/// The encoding of a concatenation is the concatenation of the encodings.
pub proof fn lemma_encode_concat(a: Seq<char>, b: Seq<char>)
    ensures
        encode_utf8(a + b) == encode_utf8(a) + encode_utf8(b),
    decreases a.len(),
{
    if a.len() == 0 {
        assert(a + b =~= b);
        assert(encode_utf8(a) =~= Seq::<u8>::empty());
        assert(encode_utf8(a) + encode_utf8(b) =~= encode_utf8(b));
    } else {
        lemma_encode_concat(a.drop_first(), b);
        assert((a + b).drop_first() =~= a.drop_first() + b);
        assert((a + b)[0] == a[0]);
        assert(encode_utf8(a + b) =~= encode_scalar(a[0] as u32) + encode_utf8(a.drop_first() + b));
    }
}

/// The byte length of a concatenation.
pub proof fn lemma_byte_len_concat(a: Seq<char>, b: Seq<char>)
    ensures
        byte_len(a + b) == byte_len(a) + byte_len(b),
{
    lemma_encode_concat(a, b);
}

/// The byte length of a single character.
pub proof fn lemma_byte_len_single(c: char)
    ensures
        byte_len(seq![c]) == char_width(c),
{
    assert(seq![c].drop_first() =~= Seq::<char>::empty());
    assert(encode_utf8(seq![c]) =~= encode_scalar(c as u32) + encode_utf8(Seq::<char>::empty()));
}

/// The byte length of one more character.
pub proof fn lemma_byte_len_take_step(s: Seq<char>, i: int)
    requires
        0 <= i < s.len(),
    ensures
        byte_len(s.take(i + 1)) == byte_len(s.take(i)) + char_width(s[i]),
{
    assert(s.take(i + 1) =~= s.take(i) + seq![s[i]]);
    lemma_byte_len_concat(s.take(i), seq![s[i]]);
    lemma_byte_len_single(s[i]);
}

/// Byte lengths of prefixes grow with the prefix.
pub proof fn lemma_byte_len_take_monotonic(s: Seq<char>, i: int, j: int)
    requires
        0 <= i <= j <= s.len(),
    ensures
        byte_len(s.take(i)) + (j - i) <= byte_len(s.take(j)),
    decreases j - i,
{
    if i < j {
        lemma_byte_len_take_monotonic(s, i, j - 1);
        lemma_byte_len_take_step(s, j - 1);
        lemma_char_width_bounds(s[j - 1]);
    }
}

/// `take_bytes` after a prefix that fits.
pub proof fn lemma_take_bytes_split(s: Seq<char>, b: int, i: int)
    requires
        0 <= i <= s.len(),
        byte_len(s.take(i)) <= b,
    ensures
        take_bytes(s, b) == s.take(i) + take_bytes(s.skip(i), b - byte_len(s.take(i))),
    decreases i,
{
    if i == 0 {
        assert(s.take(0) =~= Seq::<char>::empty());
        assert(s.skip(0) =~= s);
        assert(encode_utf8(s.take(0)) =~= Seq::<u8>::empty());
        assert(Seq::<char>::empty() + take_bytes(s, b) =~= take_bytes(s, b));
    } else {
        let t = s.drop_first();
        lemma_byte_len_take_monotonic(s, 1, i);
        assert(s.take(i) =~= seq![s[0]] + t.take(i - 1));
        lemma_byte_len_concat(seq![s[0]], t.take(i - 1));
        lemma_byte_len_single(s[0]);
        assert(s.take(1) =~= seq![s[0]]);
        lemma_take_bytes_split(t, b - char_width(s[0]), i - 1);
        assert(t.skip(i - 1) =~= s.skip(i));
        assert(take_bytes(s, b) =~= s.take(i) + take_bytes(s.skip(i), b - byte_len(s.take(i))));
    }
}

/// `take_bytes` at the end of a prefix is that prefix, and the next character does not fit.
pub proof fn lemma_take_bytes_at_prefix(s: Seq<char>, i: int)
    requires
        0 <= i <= s.len(),
    ensures
        take_bytes(s, byte_len(s.take(i)) as int) == s.take(i),
        is_boundary(s, byte_len(s.take(i)) as int),
{
    let b = byte_len(s.take(i)) as int;
    lemma_take_bytes_split(s, b, i);
    let r = s.skip(i);
    if r.len() > 0 {
        lemma_char_width_bounds(r[0]);
    }
    assert(take_bytes(r, 0) =~= Seq::<char>::empty());
    assert(s.take(i) + Seq::<char>::empty() =~= s.take(i));
}

/// A byte position inside the encoding of character `i` is not a boundary,
/// and `take_bytes` stops before that character.
pub proof fn lemma_take_bytes_inside(s: Seq<char>, i: int, b: int)
    requires
        0 <= i < s.len(),
        byte_len(s.take(i)) <= b < byte_len(s.take(i + 1)),
    ensures
        take_bytes(s, b) == s.take(i),
{
    lemma_take_bytes_split(s, b, i);
    lemma_byte_len_take_step(s, i);
    let r = s.skip(i);
    assert(r[0] == s[i]);
    assert(take_bytes(r, b - byte_len(s.take(i))) =~= Seq::<char>::empty());
    assert(s.take(i) + Seq::<char>::empty() =~= s.take(i));
}

/// The width of a character in bytes.
pub fn char_width_exec(c: char) -> (w: usize)
    ensures
        w == char_width(c),
{
    proof {
        char_is_scalar(c);
    }
    let u = c as u32;
    if u <= 0x7F {
        1
    } else if u <= 0x7FF {
        2
    } else if u <= 0xFFFF {
        3
    } else {
        4
    }
}

/// The byte offsets at which the characters of `s` start (as `str::char_indices`
/// reports them), followed by the total byte length.
pub fn char_offsets(s: &Vec<char>) -> (offs: Vec<usize>)
    requires
        byte_len(s@) <= usize::MAX,
    ensures
        offs@.len() == s@.len() + 1,
        forall|i: int| 0 <= i <= s@.len() ==> #[trigger] offs@[i] == byte_len(s@.take(i)),
{
    let mut offs: Vec<usize> = Vec::new();
    let mut off: usize = 0;
    let mut i: usize = 0;
    proof {
        assert(encode_utf8(s@.take(0)) =~= Seq::<u8>::empty());
        lemma_byte_len_take_monotonic(s@, 0, s@.len() as int);
        assert(s@.take(s@.len() as int) =~= s@);
    }
    while i < s.len()
        invariant
            i <= s@.len(),
            offs@.len() == i,
            off == byte_len(s@.take(i as int)),
            byte_len(s@.take(s@.len() as int)) <= usize::MAX,
            forall|k: int| 0 <= k < i ==> #[trigger] offs@[k] == byte_len(s@.take(k)),
        decreases s.len() - i,
    {
        offs.push(off);
        proof {
            lemma_byte_len_take_step(s@, i as int);
            lemma_byte_len_take_monotonic(s@, i + 1, s@.len() as int);
        }
        off = off + char_width_exec(s[i]);
        i = i + 1;
    }
    offs.push(off);
    offs
}

/// The number of bytes of the UTF-8 encoding of `s` (`str::len`).
pub fn str_byte_len(s: &str) -> (n: usize)
    ensures
        n == byte_len(s@),
{
    broadcast use vstd::slice::group_slice_axioms;

    s.as_bytes().len()
}

/// The characters `v[a..b]`.
pub fn subrange_chars(v: &Vec<char>, a: usize, b: usize) -> (r: Vec<char>)
    requires
        a <= b <= v@.len(),
    ensures
        r@ == v@.subrange(a as int, b as int),
{
    let mut r: Vec<char> = Vec::new();
    let mut k: usize = a;
    while k < b
        invariant
            a <= k <= b,
            b <= v@.len(),
            r@ == v@.subrange(a as int, k as int),
        decreases b - k,
    {
        r.push(v[k]);
        assert(r@ =~= v@.subrange(a as int, k + 1));
        k = k + 1;
    }
    r
}

/// Whether two character sequences are equal.
pub fn chars_eq(x: &Vec<char>, y: &Vec<char>) -> (r: bool)
    ensures
        r == (x@ == y@),
{
    if x.len() != y.len() {
        return false;
    }
    let mut i: usize = 0;
    while i < x.len()
        invariant
            x@.len() == y@.len(),
            i <= x.len(),
            forall|k: int| 0 <= k < i ==> x@[k] == y@[k],
        decreases x.len() - i,
    {
        if x[i] != y[i] {
            assert(x@[i as int] != y@[i as int]);
            return false;
        }
        i = i + 1;
    }
    assert(x@ =~= y@);
    true
}

/// The character index at which byte position `b` (a boundary) falls, given the
/// character offsets of `s`.
pub fn index_at_boundary(s: &Vec<char>, offs: &Vec<usize>, b: usize) -> (i: usize)
    requires
        offs@.len() == s@.len() + 1,
        forall|k: int| 0 <= k <= s@.len() ==> #[trigger] offs@[k] == byte_len(s@.take(k)),
        is_boundary(s@, b as int),
    ensures
        i <= s@.len(),
        offs@[i as int] == b,
        take_bytes(s@, b as int) == s@.take(i as int),
{
    let mut i: usize = 0;
    proof {
        assert(offs@[0] == byte_len(s@.take(0)));
        assert(encode_utf8(s@.take(0)) =~= Seq::<u8>::empty());
    }
    while i < s.len() && offs[i + 1] <= b
        invariant
            offs@.len() == s@.len() + 1,
            forall|k: int| 0 <= k <= s@.len() ==> #[trigger] offs@[k] == byte_len(s@.take(k)),
            i <= s@.len(),
            offs@[i as int] <= b,
        decreases s.len() - i,
    {
        i = i + 1;
    }
    proof {
        if i < s@.len() {
            lemma_take_bytes_inside(s@, i as int, b as int);
        } else {
            lemma_take_bytes_split(s@, b as int, i as int);
            assert(s@.skip(i as int) =~= Seq::<char>::empty());
            assert(take_bytes(s@.skip(i as int), b - offs@[i as int]) =~= Seq::<char>::empty());
            assert(s@.take(i as int) + Seq::<char>::empty() =~= s@.take(i as int));
        }
    }
    i
}

/// `take_bytes` yields a prefix.
pub proof fn lemma_take_bytes_is_prefix(s: Seq<char>, b: int)
    ensures
        take_bytes(s, b).len() <= s.len(),
        take_bytes(s, b) == s.take(take_bytes(s, b).len() as int),
    decreases s.len(),
{
    if s.len() == 0 || char_width(s[0]) > b {
        assert(s.take(0) =~= Seq::<char>::empty());
    } else {
        lemma_take_bytes_is_prefix(s.drop_first(), b - char_width(s[0]));
        let t = take_bytes(s.drop_first(), b - char_width(s[0]));
        assert(seq![s[0]] + t =~= s.take(t.len() as int + 1));
    }
}

/// Whether byte position `b` is a character boundary of `s` (`str::is_char_boundary`).
pub fn is_char_boundary(s: &str, b: usize) -> (r: bool)
    ensures
        r == is_boundary(s@, b as int),
{
    let n = str_byte_len(s);
    let cs = chars_of(s);
    let offs = char_offsets(&cs);
    let mut i: usize = 0;
    while i < offs.len()
        invariant
            i <= offs@.len(),
            cs@ == s@,
            offs@.len() == s@.len() + 1,
            forall|k: int| 0 <= k <= s@.len() ==> #[trigger] offs@[k] == byte_len(s@.take(k)),
            forall|k: int| 0 <= k < i ==> offs@[k] != b,
        decreases offs.len() - i,
    {
        if offs[i] == b {
            proof {
                lemma_take_bytes_at_prefix(s@, i as int);
            }
            return true;
        }
        i = i + 1;
    }
    proof {
        if is_boundary(s@, b as int) {
            lemma_take_bytes_is_prefix(s@, b as int);
            let t = take_bytes(s@, b as int);
            assert(offs@[t.len() as int] == byte_len(s@.take(t.len() as int)));
        }
    }
    false
}

/// `s` with `c` inserted at byte position `b` (`String::insert`).
pub open spec fn insert_at_byte(s: Seq<char>, b: int, c: char) -> Seq<char> {
    take_bytes(s, b) + seq![c] + s.skip(take_bytes(s, b).len() as int)
}

/// `s` without the character that starts at byte position `b` (`String::remove`).
pub open spec fn remove_at_byte(s: Seq<char>, b: int) -> Seq<char> {
    take_bytes(s, b) + s.skip(take_bytes(s, b).len() as int + 1)
}

/// The string with `c` inserted at byte position `b`, a character boundary.
pub fn insert_char_at_byte(s: &str, b: usize, c: char) -> (r: String)
    requires
        is_boundary(s@, b as int),
    ensures
        r@ == insert_at_byte(s@, b as int, c),
{
    let mut v = chars_of(s);
    let n = str_byte_len(s);
    let offs = char_offsets(&v);
    let i = index_at_boundary(&v, &offs, b);
    let ghost old_v = v@;
    v.insert(i, c);
    assert(v@ =~= old_v.take(i as int) + seq![c] + old_v.skip(i as int));
    string_from_chars(&v)
}

/// The string without the character that starts at byte position `b`, a character
/// boundary inside the string.
pub fn remove_char_at_byte(s: &str, b: usize) -> (r: String)
    requires
        is_boundary(s@, b as int),
        b < byte_len(s@),
    ensures
        r@ == remove_at_byte(s@, b as int),
{
    let mut v = chars_of(s);
    let n = str_byte_len(s);
    let offs = char_offsets(&v);
    let i = index_at_boundary(&v, &offs, b);
    if i == v.len() {
        assert(v@.take(i as int) =~= v@);
        assert(false);
    }
    let ghost old_v = v@;
    v.remove(i);
    assert(v@ =~= old_v.take(i as int) + old_v.skip(i + 1));
    string_from_chars(&v)
}

} // verus!
