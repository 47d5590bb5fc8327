//! JSON text.
//!
//! Inbound payloads are parsed by the JSON codec behind one trusted wrapper;
//! everything after the parse is verified.  Outbound documents are written by
//! a verified serializer whose output is pinned down byte for byte.

use vstd::prelude::*;

use serde_json::Value;

use crate::json::{
    fields_view, items_view, jv, lemma_fields_view_index, lemma_items_view_index, scrubbed_v,
    wf_v, FieldV, Json, JsonField, JsonV,
};
use crate::topics::int_dec_digits;
use crate::url::hex_upper;

verus! {

/// What the JSON codec yields for the given bytes, as a document of this
/// library: `None` for text that is not JSON or that uses numbers outside
/// the signed 64-bit integers.  The twin protocol uses integers only, so a
/// document carrying a fractional number is refused rather than distorted;
/// an inbound patch with such a value is therefore ignored.
pub uninterp spec fn parsed_json(text: Seq<u8>) -> Option<Json>;

/// Relies on serde_json::from_slice: the result is a function of the bytes
/// alone, and object members come out of serde_json's map (a B-tree map) in
/// strictly ascending key order, so a parsed document is canonical.
#[verifier::external_body]
pub fn parse_json(text: &[u8]) -> (r: Option<Json>)
    ensures
        r == parsed_json(text@),
        r matches Some(j) ==> wf_v(jv(j)),
{
    serde_json::from_slice::<Value>(text).ok().and_then(|v| from_value(&v))
}

/// The JSON codec's document type, declared so that the conversion below can
/// take it; the library never reads inside a value of it.
#[verifier::external_type_specification]
#[verifier::external_body]
pub struct ExValue(serde_json::Value);

/// Relies on serde_json::Value: each variant is carried over one to one;
/// a number that is not a signed 64-bit integer refuses the document.
#[verifier::external_body]
fn from_value(v: &Value) -> Option<Json> {
    match v {
        Value::Null => Some(Json::Null),
        Value::Bool(b) => Some(Json::Bool(*b)),
        Value::Number(n) => n.as_i64().map(Json::Int),
        Value::String(s) => Some(Json::Str(s.as_bytes().to_vec())),
        Value::Array(a) => a.iter().map(from_value).collect::<Option<Vec<Json>>>().map(Json::Arr),
        Value::Object(m) => m.iter().map(
            |(k, w)| from_value(w).map(|value| JsonField { key: k.as_bytes().to_vec(), value }),
        ).collect::<Option<Vec<JsonField>>>().map(Json::Obj),
    }
}

/// The bytes of one string body, escaped: `"` and `\` take a backslash, a
/// control byte becomes `\u00XX`, everything else stands for itself.
pub open spec fn escaped_bytes(s: Seq<u8>) -> Seq<u8>
    decreases s.len(),
{
    if s.len() == 0 {
        Seq::empty()
    } else {
        let b = s[0];
        let head: Seq<u8> = if b == 34 {
            seq![92u8, 34u8]
        } else if b == 92 {
            seq![92u8, 92u8]
        } else if b < 32 {
            seq![92u8, 117u8, 48u8, 48u8, hex_upper(b / 16), hex_upper(b % 16)]
        } else {
            seq![b]
        };
        head + escaped_bytes(s.drop_first())
    }
}

/// The canonical text of a document.
pub open spec fn json_text(j: JsonV) -> Seq<u8>
    decreases j,
{
    match j {
        JsonV::Null => seq![110u8, 117u8, 108u8, 108u8],
        JsonV::Bool(b) => if b {
            seq![116u8, 114u8, 117u8, 101u8]
        } else {
            seq![102u8, 97u8, 108u8, 115u8, 101u8]
        },
        JsonV::Int(n) => int_dec_digits(n),
        JsonV::Str(s) => seq![34u8] + escaped_bytes(s) + seq![34u8],
        JsonV::Arr(items) => seq![91u8] + items_text(items) + seq![93u8],
        JsonV::Obj(fields) => seq![123u8] + fields_text(fields) + seq![125u8],
    }
}

pub open spec fn items_text(items: Seq<JsonV>) -> Seq<u8>
    decreases items,
{
    if items.len() == 0 {
        Seq::empty()
    } else if items.len() == 1 {
        json_text(items[0])
    } else {
        json_text(items[0]) + seq![44u8] + items_text(items.drop_first())
    }
}

pub open spec fn fields_text(fields: Seq<FieldV>) -> Seq<u8>
    decreases fields,
{
    if fields.len() == 0 {
        Seq::empty()
    } else {
        let head = seq![34u8] + escaped_bytes(fields[0].key) + seq![34u8, 58u8] + json_text(
            fields[0].value,
        );
        if fields.len() == 1 {
            head
        } else {
            head + seq![44u8] + fields_text(fields.drop_first())
        }
    }
}

fn push_escaped(out: &mut Vec<u8>, s: &Vec<u8>)
    ensures
        final(out)@ == old(out)@ + escaped_bytes(s@),
{
    let ghost base = out@;
    let mut k: usize = 0;
    proof {
        assert(s@.skip(0) =~= s@);
        assert(base + Seq::<u8>::empty() =~= base);
    }
    while k < s.len()
        invariant
            k <= s@.len(),
            base + escaped_bytes(s@) == out@ + escaped_bytes(s@.skip(k as int)),
        decreases s@.len() - k,
    {
        proof {
            assert(s@.skip(k as int)[0] == s@[k as int]);
            assert(s@.skip(k as int).drop_first() =~= s@.skip(k as int + 1));
        }
        let ghost out0 = out@;
        let b = s[k];
        if b == 34 {
            out.push(92);
            out.push(34);
        } else if b == 92 {
            out.push(92);
            out.push(92);
        } else if b < 32 {
            out.push(92);
            out.push(117);
            out.push(48);
            out.push(48);
            if b / 16 < 10 {
                out.push(48 + b / 16);
            } else {
                out.push(55 + b / 16);
            }
            if b % 16 < 10 {
                out.push(48 + b % 16);
            } else {
                out.push(55 + b % 16);
            }
        } else {
            out.push(b);
        }
        proof {
            assert(out@ + escaped_bytes(s@.skip(k as int + 1)) =~= out0 + escaped_bytes(
                s@.skip(k as int),
            ));
        }
        k = k + 1;
    }
    proof {
        assert(s@.skip(k as int) =~= Seq::<u8>::empty());
        assert(out@ =~= out@ + escaped_bytes(s@.skip(k as int)));
        assert(out@ =~= base + escaped_bytes(s@));
    }
}

/// Writes the canonical text of a document.
pub fn json_to_bytes(j: &Json) -> (r: Vec<u8>)
    ensures
        r@ == json_text(jv(*j)),
{
    let mut out: Vec<u8> = Vec::new();
    write_json(&mut out, j);
    proof {
        assert(out@ =~= json_text(jv(*j)));
    }
    out
}

#[verifier::loop_isolation(false)]
#[verifier::rlimit(60)]
fn write_json(out: &mut Vec<u8>, j: &Json)
    ensures
        final(out)@ == old(out)@ + json_text(jv(*j)),
    decreases *j,
{
    let ghost base = out@;
    match j {
        Json::Null => {
            out.push(110);
            out.push(117);
            out.push(108);
            out.push(108);
            proof {
                assert(out@ =~= base + json_text(jv(*j)));
            }
        },
        Json::Bool(b) => {
            if *b {
                out.push(116);
                out.push(114);
                out.push(117);
                out.push(101);
            } else {
                out.push(102);
                out.push(97);
                out.push(108);
                out.push(115);
                out.push(101);
            }
            proof {
                assert(out@ =~= base + json_text(jv(*j)));
            }
        },
        Json::Int(n) => {
            let m = *n;
            let mut digits: Vec<u8> = if m >= 0 {
                crate::bytes::u64_dec(m as u64)
            } else {
                let mut d = vec![45u8];
                let mut rest = crate::bytes::u64_dec((-(m as i128)) as u64);
                d.append(&mut rest);
                proof {
                    assert(d@ =~= int_dec_digits(m as int));
                }
                d
            };
            out.append(&mut digits);
            proof {
                assert(out@ =~= base + json_text(jv(*j)));
            }
        },
        Json::Str(s) => {
            out.push(34);
            push_escaped(out, s);
            out.push(34);
            proof {
                assert(out@ =~= base + json_text(jv(*j)));
            }
        },
        Json::Arr(items) => {
            proof {
                lemma_items_view_index(items@);
            }
            out.push(91);
            let ghost opened = out@;
            let mut k: usize = 0;
            while k < items.len()
                invariant
                    k <= items@.len(),
                    items_view(items@).len() == items@.len(),
                    forall|t: int|
                        0 <= t < items@.len() ==> #[trigger] items_view(items@)[t] == jv(
                            items@[t],
                        ),
                    opened + items_text(items_view(items@)) == out@ + tail_items_text(
                        items_view(items@),
                        k as int,
                    ),
                decreases items@.len() - k,
            {
                proof {
                    assert(decreases_to!(*j => items@[k as int]));
                    lemma_tail_items_unfold(items_view(items@), k as int);
                }
                if k > 0 {
                    out.push(44);
                }
                write_json(out, &items[k]);
                k = k + 1;
            }
            out.push(93);
            proof {
                lemma_tail_items_empty(items_view(items@));
                assert(out@ =~= base + json_text(jv(*j)));
            }
        },
        Json::Obj(fields) => {
            proof {
                lemma_fields_view_index(fields@);
            }
            out.push(123);
            let ghost opened = out@;
            let mut k: usize = 0;
            while k < fields.len()
                invariant
                    k <= fields@.len(),
                    fields_view(fields@).len() == fields@.len(),
                    forall|t: int|
                        0 <= t < fields@.len() ==> (#[trigger] fields_view(fields@)[t]) == (FieldV {
                            key: fields@[t].key@,
                            value: jv(fields@[t].value),
                        }),
                    opened + fields_text(fields_view(fields@)) == out@ + tail_fields_text(
                        fields_view(fields@),
                        k as int,
                    ),
                decreases fields@.len() - k,
            {
                proof {
                    assert(decreases_to!(*j => fields@[k as int].value));
                    lemma_tail_fields_unfold(fields_view(fields@), k as int);
                }
                if k > 0 {
                    out.push(44);
                }
                out.push(34);
                push_escaped(out, &fields[k].key);
                out.push(34);
                out.push(58);
                write_json(out, &fields[k].value);
                k = k + 1;
            }
            out.push(125);
            proof {
                lemma_tail_fields_empty(fields_view(fields@));
                assert(out@ =~= base + json_text(jv(*j)));
            }
        },
    }
}

/// The text of the items from position `k` on, with a leading comma when
/// something came before.
pub open spec fn tail_items_text(items: Seq<JsonV>, k: int) -> Seq<u8> {
    if k == 0 {
        items_text(items)
    } else if k < items.len() {
        seq![44u8] + items_text(items.skip(k))
    } else {
        Seq::empty()
    }
}

proof fn lemma_tail_items_unfold(items: Seq<JsonV>, k: int)
    requires
        0 <= k < items.len(),
    ensures
        k == 0 ==> tail_items_text(items, k) =~= json_text(items[0]) + tail_items_text(
            items,
            1,
        ),
        k > 0 ==> tail_items_text(items, k) =~= seq![44u8] + json_text(items[k])
            + tail_items_text(items, k + 1),
    decreases items.len(),
{
    if k == 0 {
        if items.len() == 1 {
            assert(tail_items_text(items, 1) =~= Seq::<u8>::empty());
            assert(tail_items_text(items, 0) =~= json_text(items[0]));
        } else {
            assert(items.drop_first() =~= items.skip(1));
            assert(tail_items_text(items, 0) =~= json_text(items[0]) + tail_items_text(items, 1));
        }
    } else {
        let rest = items.skip(k);
        if rest.len() == 1 {
            assert(rest[0] == items[k]);
            assert(tail_items_text(items, k + 1) =~= Seq::<u8>::empty());
        } else {
            assert(rest[0] == items[k]);
            assert(rest.drop_first() =~= items.skip(k + 1));
        }
    }
}

proof fn lemma_tail_items_empty(items: Seq<JsonV>)
    ensures
        tail_items_text(items, items.len() as int) =~= Seq::<u8>::empty(),
{
    if items.len() == 0 {
        assert(items_text(items) =~= Seq::<u8>::empty());
    }
}

/// The text of the members from position `k` on, with a leading comma when
/// something came before.
pub open spec fn tail_fields_text(fields: Seq<FieldV>, k: int) -> Seq<u8> {
    if k == 0 {
        fields_text(fields)
    } else if k < fields.len() {
        seq![44u8] + fields_text(fields.skip(k))
    } else {
        Seq::empty()
    }
}

proof fn lemma_tail_fields_unfold(fields: Seq<FieldV>, k: int)
    requires
        0 <= k < fields.len(),
    ensures
        k == 0 ==> tail_fields_text(fields, k) =~= seq![34u8] + escaped_bytes(fields[0].key)
            + seq![34u8, 58u8] + json_text(fields[0].value) + tail_fields_text(fields, 1),
        k > 0 ==> tail_fields_text(fields, k) =~= seq![44u8] + (seq![34u8] + escaped_bytes(
            fields[k].key,
        ) + seq![34u8, 58u8] + json_text(fields[k].value)) + tail_fields_text(fields, k + 1),
    decreases fields.len(),
{
    if k == 0 {
        if fields.len() == 1 {
            assert(tail_fields_text(fields, 1) =~= Seq::<u8>::empty());
        } else {
            assert(fields.drop_first() =~= fields.skip(1));
        }
    } else {
        let rest = fields.skip(k);
        if rest.len() == 1 {
            assert(rest[0] == fields[k]);
            assert(tail_fields_text(fields, k + 1) =~= Seq::<u8>::empty());
        } else {
            assert(rest[0] == fields[k]);
            assert(rest.drop_first() =~= fields.skip(k + 1));
        }
    }
}

proof fn lemma_tail_fields_empty(fields: Seq<FieldV>)
    ensures
        tail_fields_text(fields, fields.len() as int) =~= Seq::<u8>::empty(),
{
    if fields.len() == 0 {
        assert(fields_text(fields) =~= Seq::<u8>::empty());
    }
}

/// Decides whether a document is scrubbed: no object member is `null`.
#[verifier::loop_isolation(false)]
pub fn is_scrubbed(j: &Json) -> (r: bool)
    ensures
        r == scrubbed_v(jv(*j)),
    decreases *j,
{
    match j {
        Json::Obj(fields) => {
            proof {
                lemma_fields_view_index(fields@);
            }
            for k in 0..fields.len()
                invariant
                    fields_view(fields@).len() == fields@.len(),
                    forall|t: int|
                        0 <= t < fields@.len() ==> (#[trigger] fields_view(fields@)[t]) == (FieldV {
                            key: fields@[t].key@,
                            value: jv(fields@[t].value),
                        }),
                    forall|t: int|
                        0 <= t < k ==> (#[trigger] fields_view(fields@)[t]).value !is Null
                            && scrubbed_v(fields_view(fields@)[t].value),
            {
                if matches!(&fields[k].value, Json::Null) {
                    proof {
                        assert(fields_view(fields@)[k as int].value is Null);
                    }
                    return false;
                }
                proof {
                    assert(decreases_to!(*j => fields@[k as int].value));
                }
                if !is_scrubbed(&fields[k].value) {
                    proof {
                        assert(fields_view(fields@)[k as int].value == jv(
                            fields@[k as int].value,
                        ));
                    }
                    return false;
                }
            }
            true
        },
        _ => true,
    }
}

} // verus!
