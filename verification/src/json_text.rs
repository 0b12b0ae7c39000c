//! Compact JSON text for flat objects, in the form `serde_json::to_string`
//! writes them: `{"key":value,...}` with the members in the order given.
use vstd::prelude::*;

use crate::json_api::{json_quote, json_quoted, opt_view};
use crate::text::{push_str, string_from_chars};

verus! {

/// A scalar JSON value.
#[derive(Debug, Clone, PartialEq, Eq)]
pub enum JsonScalar {
    Null,
    Bool(bool),
    Str(String),
}

/// The JSON text of a scalar (as an option, like `json_quoted`, which is always `Some`).
pub open spec fn scalar_text(v: JsonScalar) -> Option<Seq<char>> {
    match v {
        JsonScalar::Null => Some(null_text()),
        JsonScalar::Bool(b) => Some(bool_text(b)),
        JsonScalar::Str(s) => json_quoted(s@),
    }
}

/// The text of `true` or `false`.
pub open spec fn bool_text(b: bool) -> Seq<char> {
    if b {
        seq!['t', 'r', 'u', 'e']
    } else {
        seq!['f', 'a', 'l', 's', 'e']
    }
}

/// The text of `null`.
pub open spec fn null_text() -> Seq<char> {
    seq!['n', 'u', 'l', 'l']
}

/// The text of one member, `"key":value`, given the text of the value.
pub open spec fn member_text(key: Seq<char>, value: Option<Seq<char>>) -> Option<Seq<char>> {
    match (json_quoted(key), value) {
        (Some(k), Some(v)) => Some(k + seq![':'] + v),
        _ => None,
    }
}

/// The members' texts joined by commas, or `None` when one of them fails.
pub open spec fn members_text(ms: Seq<(Seq<char>, Option<Seq<char>>)>) -> Option<Seq<char>>
    decreases ms.len(),
{
    if ms.len() == 0 {
        Some(seq![])
    } else {
        match (members_text(ms.drop_last()), member_text(ms.last().0, ms.last().1)) {
            (Some(front), Some(m)) => Some(
                if ms.len() == 1 {
                    m
                } else {
                    front + seq![','] + m
                },
            ),
            _ => None,
        }
    }
}

/// The text of the object with the given members, in that order.
pub open spec fn object_text(ms: Seq<(Seq<char>, Option<Seq<char>>)>) -> Option<Seq<char>> {
    match members_text(ms) {
        Some(body) => Some(seq!['{'] + body + seq!['}']),
        None => None,
    }
}

/// Once a prefix of the members fails, the whole object fails.
proof fn lemma_members_fail(ms: Seq<(Seq<char>, Option<Seq<char>>)>, k: int)
    requires
        0 <= k <= ms.len(),
        members_text(ms.take(k)) is None,
    ensures
        members_text(ms) is None,
    decreases ms.len() - k,
{
    if k == ms.len() {
        assert(ms.take(k) =~= ms);
    } else {
        assert(ms.take(k + 1).drop_last() =~= ms.take(k));
        lemma_members_fail(ms, k + 1);
    }
}

/// The keys' character views, with the texts of the values.
pub open spec fn member_views(ms: Seq<(String, JsonScalar)>) -> Seq<(Seq<char>, Option<Seq<char>>)> {
    ms.map_values(|m: (String, JsonScalar)| (m.0@, scalar_text(m.1)))
}

/// Writes the object with the given members, in that order; `None` when a
/// string cannot be quoted.
pub fn json_object(members: &Vec<(String, JsonScalar)>) -> (r: Option<String>)
    ensures
        opt_view(r) == object_text(member_views(members@)),
{
    let ghost mv = member_views(members@);
    let mut out: Vec<char> = Vec::new();
    out.push('{');
    let mut i: usize = 0;
    assert(mv.take(0) =~= Seq::<(Seq<char>, Option<Seq<char>>)>::empty());
    while i < members.len()
        invariant
            i <= members@.len(),
            mv == member_views(members@),
            mv.len() == members@.len(),
            members_text(mv.take(i as int)) == Some(out@.drop_first()),
            out@.len() >= 1,
            out@[0] == '{',
        decreases members.len() - i,
    {
        let ghost before = out@;
        assert(mv.take(i + 1).drop_last() =~= mv.take(i as int));
        assert(mv.take(i + 1).last() == (members@[i as int].0@, scalar_text(members@[i as int].1)));
        if i > 0 {
            out.push(',');
        }
        let key = match json_quote(members[i].0.as_str()) {
            Some(k) => k,
            None => {
                proof {
                    lemma_members_fail(mv, i + 1);
                }
                return None;
            },
        };
        push_str(&mut out, key.as_str());
        out.push(':');
        match &members[i].1 {
            JsonScalar::Null => {
                push_str(&mut out, "null");
                proof {
                    reveal_strlit("null");
                }
            },
            JsonScalar::Bool(b) => {
                if *b {
                    push_str(&mut out, "true");
                    proof {
                        reveal_strlit("true");
                    }
                } else {
                    push_str(&mut out, "false");
                    proof {
                        reveal_strlit("false");
                    }
                }
            },
            JsonScalar::Str(s) => {
                match json_quote(s.as_str()) {
                    Some(q) => {
                        push_str(&mut out, q.as_str());
                    },
                    None => {
                        proof {
                            lemma_members_fail(mv, i + 1);
                        }
                        return None;
                    },
                }
            },
        }
        proof {
            let front = before.drop_first();
            if i == 0 {
                assert(out@.drop_first() =~= key@ + seq![':'] + scalar_text(members@[0].1).unwrap());
            } else {
                assert(out@.drop_first() =~= front + seq![','] + key@ + seq![':'] + scalar_text(
                    members@[i as int].1,
                ).unwrap());
            }
        }
        i = i + 1;
    }
    out.push('}');
    assert(mv.take(members@.len() as int) =~= mv);
    assert(out@ =~= seq!['{'] + out@.drop_last().drop_first() + seq!['}']);
    Some(string_from_chars(&out))
}

} // verus!
