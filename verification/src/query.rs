//! Topic property bags.
//!
//! The platform appends a query string to several MQTT topics:
//! `key=value` pairs joined by `&`, with percent-encoded values.  A key
//! without `=` carries no value.  Later occurrences of a key shadow earlier
//! ones when looked up.

use vstd::prelude::*;

use crate::bytes::{find_byte, lemma_find_byte_at, lemma_find_byte_bounds, lemma_find_byte_none};
use crate::json::{bytes_cmp, copy_bytes};
use crate::url::{url_decode, url_decoded};

verus! {

/// One `key=value` pair of a topic query string.
pub struct QueryParam {
    pub key: Vec<u8>,
    pub value: Option<Vec<u8>>,
}

/// The mathematical view of a parameter list.
pub open spec fn param_views(s: Seq<QueryParam>) -> Seq<(Seq<u8>, Option<Seq<u8>>)>
    decreases s,
{
    if s.len() == 0 {
        Seq::empty()
    } else {
        let v = match s[0].value {
            Option::None => Option::<Seq<u8>>::None,
            Option::Some(b) => Option::Some(b@),
        };
        seq![(s[0].key@, v)] + param_views(s.drop_first())
    }
}

pub proof fn lemma_param_views_index(s: Seq<QueryParam>)
    ensures
        param_views(s).len() == s.len(),
        forall|i: int|
            0 <= i < s.len() ==> #[trigger] param_views(s)[i] == (
            s[i].key@,
            match s[i].value {
                Option::None => Option::<Seq<u8>>::None,
                Option::Some(b) => Option::Some(b@),
            },
            ),
    decreases s.len(),
{
    if s.len() > 0 {
        lemma_param_views_index(s.drop_first());
    }
}

/// One query segment, split at its first `=` and percent-decoded.
pub open spec fn param_parsed(p: Seq<u8>) -> (Seq<u8>, Option<Seq<u8>>) {
    match find_byte(p, 61) {
        Option::None => (url_decoded(p), Option::None),
        Option::Some(i) => (url_decoded(p.take(i)), Option::Some(url_decoded(p.skip(i + 1)))),
    }
}

/// The whole query string, split at `&`.
pub open spec fn query_parsed(s: Seq<u8>) -> Seq<(Seq<u8>, Option<Seq<u8>>)>
    decreases s.len(),
    via query_parsed_dec
{
    match find_byte(s, 38) {
        Option::None => seq![param_parsed(s)],
        Option::Some(i) => seq![param_parsed(s.take(i))] + query_parsed(s.skip(i + 1)),
    }
}

#[via_fn]
proof fn query_parsed_dec(s: Seq<u8>) {
    lemma_find_byte_bounds(s, 38);
}

/// Copies the byte range `s[from..to]`.
pub fn copy_range(s: &[u8], from: usize, to: usize) -> (r: Vec<u8>)
    requires
        from <= to <= s@.len(),
    ensures
        r@ == s@.subrange(from as int, to as int),
{
    let mut out: Vec<u8> = Vec::new();
    let mut k = from;
    while k < to
        invariant
            from <= k <= to <= s@.len(),
            out@ =~= s@.subrange(from as int, k as int),
        decreases to - k,
    {
        out.push(s[k]);
        proof {
            assert(out@ =~= s@.subrange(from as int, k as int + 1));
        }
        k = k + 1;
    }
    out
}

/// Finds the first occurrence of `b` inside `s[from..to]`.
pub fn find_byte_in_range(s: &[u8], b: u8, from: usize, to: usize) -> (r: Option<usize>)
    requires
        from <= to <= s@.len(),
    ensures
        match find_byte(s@.subrange(from as int, to as int), b) {
            Option::None => r is None,
            Option::Some(i) => r matches Some(u) && u == from + i,
        },
{
    let ghost part = s@.subrange(from as int, to as int);
    let mut k = from;
    while k < to
        invariant
            from <= k <= to <= s@.len(),
            forall|j: int| from <= j < k ==> s@[j] != b,
            part == s@.subrange(from as int, to as int),
        decreases to - k,
    {
        if s[k] == b {
            proof {
                assert forall|j: int| 0 <= j < k - from implies part[j] != b by {
                    assert(part[j] == s@[from + j]);
                }
                assert(part[k - from] == s@[k as int]);
                lemma_find_byte_at(part, b, k - from);
            }
            return Option::Some(k);
        }
        k = k + 1;
    }
    proof {
        assert forall|j: int| 0 <= j < part.len() implies part[j] != b by {
            assert(part[j] == s@[from + j]);
        }
        lemma_find_byte_none(part, b);
    }
    Option::None
}

/// Parses one query segment `q[from..to]`.
fn parse_param(q: &[u8], from: usize, to: usize) -> (r: QueryParam)
    requires
        from <= to <= q@.len(),
    ensures
        ({
            let p = param_parsed(q@.subrange(from as int, to as int));
            r.key@ == p.0 && (match (r.value, p.1) {
                (Option::None, Option::None) => true,
                (Option::Some(a), Option::Some(b)) => a@ == b,
                _ => false,
            })
        }),
{
    let ghost part = q@.subrange(from as int, to as int);
    match find_byte_in_range(q, 61, from, to) {
        Option::None => {
            let raw = copy_range(q, from, to);
            let key = url_decode(raw.as_slice());
            QueryParam { key, value: Option::None }
        },
        Option::Some(eq) => {
            proof {
                lemma_find_byte_bounds(part, 61);
                assert(part.take(eq - from) =~= q@.subrange(from as int, eq as int));
                assert(part.skip(eq - from + 1) =~= q@.subrange(eq as int + 1, to as int));
            }
            let raw_key = copy_range(q, from, eq);
            let raw_value = copy_range(q, eq + 1, to);
            let key = url_decode(raw_key.as_slice());
            let value = url_decode(raw_value.as_slice());
            QueryParam { key, value: Option::Some(value) }
        },
    }
}

/// Parses the query string `q` into its parameters, in order.
pub fn parse_query(q: &[u8]) -> (r: Vec<QueryParam>)
    ensures
        param_views(r@) == query_parsed(q@),
{
    proof {
        assert(q@.subrange(0, q@.len() as int) =~= q@);
    }
    parse_query_from(q, 0)
}

fn parse_query_from(q: &[u8], from: usize) -> (r: Vec<QueryParam>)
    requires
        from <= q@.len(),
    ensures
        param_views(r@) == query_parsed(q@.skip(from as int)),
    decreases q@.len() - from,
{
    let ghost rest = q@.skip(from as int);
    let q_len = q.len();
    match find_byte_from_full(q, 38, from) {
        Option::None => {
            proof {
                assert(rest =~= q@.subrange(from as int, q@.len() as int));
            }
            let head = parse_param(q, from, q_len);
            let out = vec![head];
            proof {
                lemma_param_views_index(out@);
                assert(param_views(out@) =~= query_parsed(rest));
            }
            out
        },
        Option::Some(amp) => {
            proof {
                lemma_find_byte_bounds(rest, 38);
                assert(rest.take(amp - from) =~= q@.subrange(from as int, amp as int));
                assert(rest.skip(amp - from + 1) =~= q@.skip(amp as int + 1));
            }
            let head = parse_param(q, from, amp);
            let mut tail = parse_query_from(q, amp + 1);
            let ghost tail0 = tail@;
            let mut out = vec![head];
            out.append(&mut tail);
            proof {
                lemma_param_views_index(out@);
                lemma_param_views_index(tail0);
                lemma_param_views_index(seq![head]);
                assert(param_views(out@) =~= query_parsed(rest));
            }
            out
        },
    }
}

/// Finds `b` in `q` at or after `from`, reported against `q@.skip(from)`.
fn find_byte_from_full(q: &[u8], b: u8, from: usize) -> (r: Option<usize>)
    requires
        from <= q@.len(),
    ensures
        match find_byte(q@.skip(from as int), b) {
            Option::None => r is None,
            Option::Some(i) => r matches Some(u) && u == from + i,
        },
{
    let r = find_byte_in_range(q, b, from, q.len());
    proof {
        assert(q@.subrange(from as int, q@.len() as int) =~= q@.skip(from as int));
    }
    r
}

/// The value of the last parameter named `k`, if any: `None` when the key
/// does not occur, and the key's (possibly absent) value otherwise.
pub open spec fn query_lookup_spec(s: Seq<(Seq<u8>, Option<Seq<u8>>)>, k: Seq<u8>) -> Option<
    Option<Seq<u8>>,
>
    decreases s.len(),
{
    if s.len() == 0 {
        Option::None
    } else if s.last().0 == k {
        Option::Some(s.last().1)
    } else {
        query_lookup_spec(s.drop_last(), k)
    }
}

/// Looks a key up among parsed parameters; the last occurrence wins.
pub fn query_lookup(params: &Vec<QueryParam>, k: &[u8]) -> (r: Option<Option<Vec<u8>>>)
    ensures
        match query_lookup_spec(param_views(params@), k@) {
            Option::None => r is None,
            Option::Some(v) => r matches Some(rv) && (match (v, rv) {
                (Option::None, Option::None) => true,
                (Option::Some(b), Option::Some(rb)) => rb@ == b,
                _ => false,
            }),
        },
{
    proof {
        lemma_param_views_index(params@);
    }
    let ghost all = param_views(params@);
    proof {
        assert(all.take(params@.len() as int) =~= all);
    }
    let mut k_idx: usize = params.len();
    loop
        invariant
            k_idx <= params@.len(),
            all == param_views(params@),
            all.len() == params@.len(),
            forall|i: int|
                0 <= i < params@.len() ==> #[trigger] all[i] == (
                params@[i].key@,
                match params@[i].value {
                    Option::None => Option::<Seq<u8>>::None,
                    Option::Some(b) => Option::Some(b@),
                },
                ),
            query_lookup_spec(all, k@) == query_lookup_spec(all.take(k_idx as int), k@),
        ensures
            query_lookup_spec(all, k@) == query_lookup_spec(all.take(k_idx as int), k@),
            k_idx == 0 || all[k_idx - 1].0 == k@,
            k_idx > 0 ==> query_lookup_spec(all, k@) == Option::Some(all[k_idx - 1].1),
        decreases k_idx,
    {
        proof {
            if k_idx > 0 {
                assert(all.take(k_idx as int).last() == all[k_idx - 1]);
                assert(all.take(k_idx as int).drop_last() =~= all.take(k_idx as int - 1));
            }
        }
        if k_idx == 0 {
            break;
        }
        if bytes_cmp(params[k_idx - 1].key.as_slice(), k) == 0 {
            break;
        }
        k_idx = k_idx - 1;
    }
    if k_idx == 0 {
        proof {
            assert(all.take(0) =~= Seq::<(Seq<u8>, Option<Seq<u8>>)>::empty());
        }
        Option::None
    } else {
        match &params[k_idx - 1].value {
            Option::None => Option::Some(Option::None),
            Option::Some(v) => Option::Some(Option::Some(copy_bytes(v))),
        }
    }
}

} // verus!
