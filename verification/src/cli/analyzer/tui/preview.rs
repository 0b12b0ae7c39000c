//! The lines of the preview box, with the regex's matches highlighted.
use vstd::prelude::*;

use crate::cli::analyzer::tui::app::str_slice;
use crate::regex_api::{regex_find_ranges, regex_match_ranges, regex_pattern};
use crate::text::{byte_len, byte_slice, is_boundary, lemma_take_bytes_at_prefix, owned};
use vstd::utf8::encode_utf8;

verus! {

/// The pieces of `entry` from byte `last` on, around the match ranges: the text
/// before each match (when there is any), the match itself (highlighted), and
/// the text after the last match (when there is any).
pub open spec fn pieces_from(entry: Seq<char>, ranges: Seq<(usize, usize)>, last: int) -> Seq<(Seq<char>, bool)>
    decreases ranges.len(),
{
    if ranges.len() == 0 {
        if last < byte_len(entry) {
            seq![(byte_slice(entry, last, byte_len(entry) as int), false)]
        } else {
            seq![]
        }
    } else {
        let (a, b) = ranges[0];
        (if a > last {
            seq![(byte_slice(entry, last, a as int), false)]
        } else {
            seq![]
        }) + seq![(byte_slice(entry, a as int, b as int), true)] + pieces_from(entry, ranges.drop_first(), b as int)
    }
}

/// A preview line cut at the matches: the whole line, plain, without matches.
pub open spec fn preview_pieces(entry: Seq<char>, ranges: Seq<(usize, usize)>) -> Seq<(Seq<char>, bool)> {
    if ranges.len() == 0 {
        seq![(entry, false)]
    } else {
        pieces_from(entry, ranges, 0)
    }
}

/// The views of the pieces.
pub open spec fn piece_views(v: Seq<(String, bool)>) -> Seq<(Seq<char>, bool)> {
    v.map_values(|p: (String, bool)| (p.0@, p.1))
}

/// A preview line as pieces, each with whether it is a match of the regex
/// (when there is a regex).
pub fn preview_line(entry: &str, pattern: Option<&regex::Regex>) -> (r: Vec<(String, bool)>)
    ensures
        piece_views(r@) == match pattern {
            Some(re) => preview_pieces(entry@, regex_match_ranges(regex_pattern(*re), entry@)),
            None => seq![(entry@, false)],
        },
{
    let re = match pattern {
        Some(re) => re,
        None => {
            let mut r: Vec<(String, bool)> = Vec::new();
            r.push((owned(entry), false));
            assert(piece_views(r@) =~= seq![(entry@, false)]);
            return r;
        },
    };
    let ranges = regex_find_ranges(re, entry);
    let ghost rs = ranges@;
    let mut r: Vec<(String, bool)> = Vec::new();
    if ranges.len() == 0 {
        r.push((owned(entry), false));
        assert(piece_views(r@) =~= seq![(entry@, false)]);
        return r;
    }
    proof {
        lemma_take_bytes_at_prefix(entry@, 0);
        assert(entry@.take(0) =~= Seq::<char>::empty());
        assert(encode_utf8(Seq::<char>::empty()) =~= Seq::<u8>::empty());
        lemma_take_bytes_at_prefix(entry@, entry@.len() as int);
        assert(entry@.take(entry@.len() as int) =~= entry@);
        assert(rs.skip(0) =~= rs);
        assert(piece_views(r@) + pieces_from(entry@, rs, 0) =~= pieces_from(entry@, rs, 0));
    }
    let mut last: usize = 0;
    let mut i: usize = 0;
    let total = crate::text::str_byte_len(entry);
    while i < ranges.len()
        invariant
            i <= ranges@.len(),
            rs == ranges@,
            rs.len() > 0,
            total == byte_len(entry@),
            is_boundary(entry@, total as int),
            last <= total,
            is_boundary(entry@, last as int),
            i > 0 ==> last == rs[i - 1].1,
            i == 0 ==> last == 0,
            forall|k: int|
                0 <= k < rs.len() ==> {
                    &&& (#[trigger] rs[k]).0 <= rs[k].1 <= byte_len(entry@)
                    &&& is_boundary(entry@, rs[k].0 as int)
                    &&& is_boundary(entry@, rs[k].1 as int)
                },
            forall|k: int| 0 <= k < rs.len() - 1 ==> (#[trigger] rs[k]).1 <= rs[k + 1].0,
            piece_views(r@) + pieces_from(entry@, rs.skip(i as int), last as int) == pieces_from(
                entry@,
                rs,
                0,
            ),
        decreases ranges.len() - i,
    {
        let (a, b) = ranges[i];
        let ghost before = piece_views(r@);
        let ghost tail = rs.skip(i as int);
        assert(tail[0] == (a, b));
        assert(tail.drop_first() =~= rs.skip(i + 1));
        if i > 0 {
            assert(rs[i - 1].1 <= rs[i as int].0);
        }
        if a > last {
            let plain = str_slice(entry, last, a);
            r.push((plain, false));
        }
        let hit = str_slice(entry, a, b);
        r.push((hit, true));
        proof {
            let added = (if a > last {
                seq![(byte_slice(entry@, last as int, a as int), false)]
            } else {
                seq![]
            }) + seq![(byte_slice(entry@, a as int, b as int), true)];
            assert(piece_views(r@) =~= before + added);
            assert(pieces_from(entry@, tail, last as int) =~= added + pieces_from(
                entry@,
                rs.skip(i + 1),
                b as int,
            ));
            assert(before + added + pieces_from(entry@, rs.skip(i + 1), b as int) =~= before
                + pieces_from(entry@, tail, last as int));
        }
        last = b;
        i = i + 1;
    }
    let ghost before = piece_views(r@);
    assert(rs.skip(rs.len() as int) =~= Seq::<(usize, usize)>::empty());
    if last < total {
        let rest = str_slice(entry, last, total);
        r.push((rest, false));
        assert(piece_views(r@) =~= before + seq![(byte_slice(entry@, last as int, byte_len(entry@) as int), false)]);
    } else {
        assert(piece_views(r@) =~= before + Seq::<(Seq<char>, bool)>::empty());
    }
    assert(rs.skip(0) =~= rs);
    r
}

} // verus!
