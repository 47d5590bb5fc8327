//! Canonical JSON documents.
//!
//! Twin snapshots and twin patches are JSON objects.  The store keeps them in
//! a canonical form: every object holds its members with strictly ascending
//! keys (byte-lexicographic order of the UTF-8 key bytes), which is also the
//! order in which the platform's JSON codec emits members.  Numbers are
//! restricted to signed 64-bit integers, the only numbers the twin protocol
//! uses.

use vstd::prelude::*;

verus! {

/// One member of a JSON object: the UTF-8 bytes of its key, and its value.
#[verifier::ext_equal]
pub struct JsonField {
    pub key: Vec<u8>,
    pub value: Json,
}

/// A JSON document. Strings are kept as their UTF-8 bytes.
#[verifier::ext_equal]
pub enum Json {
    Null,
    Bool(bool),
    Int(i64),
    Str(Vec<u8>),
    Arr(Vec<Json>),
    Obj(Vec<JsonField>),
}

/// The mathematical value of one object member.
pub struct FieldV {
    pub key: Seq<u8>,
    pub value: JsonV,
}

/// The mathematical value of a JSON document.
pub enum JsonV {
    Null,
    Bool(bool),
    Int(int),
    Str(Seq<u8>),
    Arr(Seq<JsonV>),
    Obj(Seq<FieldV>),
}

/// Byte-lexicographic strict order on key bytes.
pub open spec fn lex_lt(a: Seq<u8>, b: Seq<u8>) -> bool
    decreases a.len(),
{
    if b.len() == 0 {
        false
    } else if a.len() == 0 {
        true
    } else if a[0] < b[0] {
        true
    } else if a[0] > b[0] {
        false
    } else {
        lex_lt(a.drop_first(), b.drop_first())
    }
}

/// Exactly one of `lex_lt(a, b)`, `a == b`, `lex_lt(b, a)` holds.
pub proof fn lemma_lex_trichotomy(a: Seq<u8>, b: Seq<u8>)
    ensures
        lex_lt(a, b) ==> !lex_lt(b, a) && a != b,
        lex_lt(b, a) ==> !lex_lt(a, b) && a != b,
        !lex_lt(a, b) && !lex_lt(b, a) ==> a == b,
    decreases a.len(),
{
    if a.len() == 0 && b.len() == 0 {
        assert(a =~= b);
    } else if a.len() > 0 && b.len() > 0 && a[0] == b[0] {
        lemma_lex_trichotomy(a.drop_first(), b.drop_first());
        if !lex_lt(a, b) && !lex_lt(b, a) {
            assert(a.drop_first() == b.drop_first());
            assert forall|i: int| 0 <= i < a.len() implies a[i] == b[i] by {
                if i >= 1 {
                    assert(a.drop_first()[i - 1] == b.drop_first()[i - 1]);
                }
            }
            assert(a =~= b);
        }
        if a == b {
            assert(a.drop_first() =~= b.drop_first());
        }
    } else {
        if a == b {
            assert(a.len() == b.len());
            if a.len() > 0 {
                assert(a[0] == b[0]);
            }
        }
    }
}

/// `lex_lt` is transitive.
pub proof fn lemma_lex_transitive(a: Seq<u8>, b: Seq<u8>, c: Seq<u8>)
    requires
        lex_lt(a, b),
        lex_lt(b, c),
    ensures
        lex_lt(a, c),
    decreases a.len(),
{
    if a.len() > 0 && b.len() > 0 && c.len() > 0 && a[0] == b[0] && b[0] == c[0] {
        lemma_lex_transitive(a.drop_first(), b.drop_first(), c.drop_first());
    }
}

/// The mathematical value of a document.
pub open spec fn jv(j: Json) -> JsonV
    decreases j,
{
    match j {
        Json::Null => JsonV::Null,
        Json::Bool(b) => JsonV::Bool(b),
        Json::Int(n) => JsonV::Int(n as int),
        Json::Str(s) => JsonV::Str(s@),
        Json::Arr(items) => JsonV::Arr(items_view(items@)),
        Json::Obj(fields) => JsonV::Obj(fields_view(fields@)),
    }
}

pub open spec fn items_view(s: Seq<Json>) -> Seq<JsonV>
    decreases s,
{
    if s.len() == 0 {
        Seq::empty()
    } else {
        seq![jv(s[0])] + items_view(s.drop_first())
    }
}

pub open spec fn fields_view(s: Seq<JsonField>) -> Seq<FieldV>
    decreases s,
{
    if s.len() == 0 {
        Seq::empty()
    } else {
        seq![FieldV { key: s[0].key@, value: jv(s[0].value) }] + fields_view(s.drop_first())
    }
}

pub proof fn lemma_items_view_index(s: Seq<Json>)
    ensures
        items_view(s).len() == s.len(),
        forall|i: int| 0 <= i < s.len() ==> #[trigger] items_view(s)[i] == jv(s[i]),
    decreases s.len(),
{
    if s.len() > 0 {
        lemma_items_view_index(s.drop_first());
    }
}

pub proof fn lemma_fields_view_index(s: Seq<JsonField>)
    ensures
        fields_view(s).len() == s.len(),
        forall|i: int|
            0 <= i < s.len() ==> (#[trigger] fields_view(s)[i]) == (FieldV {
                key: s[i].key@,
                value: jv(s[i].value),
            }),
    decreases s.len(),
{
    if s.len() > 0 {
        lemma_fields_view_index(s.drop_first());
    }
}

/// Object members stand in strictly ascending key order.
pub open spec fn sorted_fields(s: Seq<FieldV>) -> bool {
    forall|i: int, j: int| 0 <= i < j < s.len() ==> lex_lt(s[i].key, s[j].key)
}

/// `k` is strictly below every key of `s`.
pub open spec fn key_below(k: Seq<u8>, s: Seq<FieldV>) -> bool {
    forall|i: int| 0 <= i < s.len() ==> lex_lt(k, (#[trigger] s[i]).key)
}

/// A canonical document: every object's members are strictly sorted by key.
pub open spec fn wf_v(j: JsonV) -> bool
    decreases j,
{
    match j {
        JsonV::Arr(items) => forall|i: int| 0 <= i < items.len() ==> wf_v(#[trigger] items[i]),
        JsonV::Obj(fields) => sorted_fields(fields) && (forall|i: int|
            0 <= i < fields.len() ==> wf_v((#[trigger] fields[i]).value)),
        _ => true,
    }
}

/// No object member holds `null` (recursively through object members).
/// A snapshot satisfies this; a patch in general does not, since `null`
/// members of a patch mean deletion.
pub open spec fn scrubbed_v(j: JsonV) -> bool
    decreases j,
{
    match j {
        JsonV::Obj(fields) => forall|i: int|
            0 <= i < fields.len() ==> ((#[trigger] fields[i]).value !is Null && scrubbed_v(
                fields[i].value,
            )),
        _ => true,
    }
}

/// Size measure used for termination of the diff and merge recursions.
pub open spec fn size_v(j: JsonV) -> nat
    decreases j,
{
    match j {
        JsonV::Arr(items) => 1 + size_items(items),
        JsonV::Obj(fields) => 1 + size_fields(fields),
        _ => 1,
    }
}

pub open spec fn size_items(s: Seq<JsonV>) -> nat
    decreases s,
{
    if s.len() == 0 {
        0
    } else {
        2 + size_v(s[0]) + size_items(s.drop_first())
    }
}

pub open spec fn size_fields(s: Seq<FieldV>) -> nat
    decreases s,
{
    if s.len() == 0 {
        0
    } else {
        2 + size_v(s[0].value) + size_fields(s.drop_first())
    }
}

/// Compares two byte strings; the result reflects the byte-lexicographic
/// order. Returns -1, 0 or 1.
pub fn bytes_cmp(a: &[u8], b: &[u8]) -> (r: i8)
    ensures
        -1 <= r <= 1,
        r == -1 <==> lex_lt(a@, b@),
        r == 1 <==> lex_lt(b@, a@),
        r == 0 <==> a@ == b@,
{
    proof {
        lemma_lex_trichotomy(a@, b@);
        assert(a@.skip(0) =~= a@);
        assert(b@.skip(0) =~= b@);
    }
    bytes_cmp_from(a, b, 0)
}

fn bytes_cmp_from(a: &[u8], b: &[u8], i: usize) -> (r: i8)
    requires
        i <= a@.len(),
        i <= b@.len(),
    ensures
        -1 <= r <= 1,
        r == -1 <==> lex_lt(a@.skip(i as int), b@.skip(i as int)),
        r == 1 <==> lex_lt(b@.skip(i as int), a@.skip(i as int)),
        r == 0 <==> a@.skip(i as int) == b@.skip(i as int),
    decreases a@.len() - i,
{
    proof {
        lemma_lex_trichotomy(a@.skip(i as int), b@.skip(i as int));
    }
    if i == a.len() && i == b.len() {
        proof {
            assert(a@.skip(i as int) =~= b@.skip(i as int));
        }
        0
    } else if i == a.len() {
        -1
    } else if i == b.len() {
        1
    } else {
        let x = a[i];
        let y = b[i];
        if x < y {
            -1
        } else if x > y {
            1
        } else {
            let r = bytes_cmp_from(a, b, i + 1);
            proof {
                assert(a@.skip(i as int).drop_first() =~= a@.skip(i + 1));
                assert(b@.skip(i as int).drop_first() =~= b@.skip(i + 1));
                if r == 0 {
                    assert(a@.skip(i as int) =~= b@.skip(i as int));
                }
            }
            r
        }
    }
}

/// Copies a byte string.
pub fn copy_bytes(v: &Vec<u8>) -> (r: Vec<u8>)
    ensures
        r@ == v@,
{
    let mut out: Vec<u8> = Vec::new();
    for i in 0..v.len()
        invariant
            out@ =~= v@.subrange(0, i as int),
    {
        out.push(v[i]);
    }
    proof {
        assert(out@ =~= v@);
    }
    out
}

impl Json {
    /// Copies a document.
    #[verifier::loop_isolation(false)]
    pub fn deep_copy(&self) -> (r: Json)
        ensures
            jv(r) == jv(*self),
        decreases *self,
    {
        match self {
            Json::Null => Json::Null,
            Json::Bool(b) => Json::Bool(*b),
            Json::Int(n) => Json::Int(*n),
            Json::Str(s) => Json::Str(copy_bytes(s)),
            Json::Arr(items) => {
                let mut out: Vec<Json> = Vec::new();
                for i in 0..items.len()
                    invariant
                        out@.len() == i,
                        forall|k: int| 0 <= k < i ==> jv(out@[k]) == jv(items@[k]),
                {
                    proof {
                        assert(decreases_to!(*self => items@[i as int]));
                    }
                    out.push(items[i].deep_copy());
                }
                proof {
                    lemma_items_view_index(out@);
                    lemma_items_view_index(items@);
                    assert(items_view(out@) =~= items_view(items@));
                }
                Json::Arr(out)
            },
            Json::Obj(fields) => {
                let mut out: Vec<JsonField> = Vec::new();
                for i in 0..fields.len()
                    invariant
                        out@.len() == i,
                        forall|k: int|
                            0 <= k < i ==> jv(out@[k].value) == jv(fields@[k].value)
                                && out@[k].key@ == fields@[k].key@,
                {
                    proof {
                        assert(decreases_to!(*self => fields@[i as int].value));
                    }
                    out.push(
                        JsonField {
                            key: copy_bytes(&fields[i].key),
                            value: fields[i].value.deep_copy(),
                        },
                    );
                }
                proof {
                    lemma_fields_view_index(out@);
                    lemma_fields_view_index(fields@);
                    assert(fields_view(out@) =~= fields_view(fields@));
                }
                Json::Obj(out)
            },
        }
    }
}

/// Decides mathematical equality of two documents.
#[verifier::loop_isolation(false)]
pub fn json_eq(a: &Json, b: &Json) -> (r: bool)
    ensures
        r <==> jv(*a) == jv(*b),
    decreases *a,
{
    match (a, b) {
        (Json::Null, Json::Null) => true,
        (Json::Bool(x), Json::Bool(y)) => x == y,
        (Json::Int(x), Json::Int(y)) => x == y,
        (Json::Str(x), Json::Str(y)) => bytes_cmp(x.as_slice(), y.as_slice()) == 0,
        (Json::Arr(xs), Json::Arr(ys)) => {
            proof {
                lemma_items_view_index(xs@);
                lemma_items_view_index(ys@);
            }
            if xs.len() != ys.len() {
                return false;
            }
            for i in 0..xs.len()
                invariant
                    forall|k: int| 0 <= k < i ==> jv(xs@[k]) == jv(ys@[k]),
            {
                proof {
                    assert(decreases_to!(*a => xs@[i as int]));
                }
                if !json_eq(&xs[i], &ys[i]) {
                    proof {
                        assert(items_view(xs@)[i as int] == jv(xs@[i as int]));
                        assert(items_view(ys@)[i as int] == jv(ys@[i as int]));
                    }
                    return false;
                }
            }
            proof {
                assert(items_view(xs@) =~= items_view(ys@));
            }
            true
        },
        (Json::Obj(xs), Json::Obj(ys)) => {
            proof {
                lemma_fields_view_index(xs@);
                lemma_fields_view_index(ys@);
            }
            if xs.len() != ys.len() {
                return false;
            }
            for i in 0..xs.len()
                invariant
                    forall|k: int|
                        0 <= k < i ==> jv(xs@[k].value) == jv(ys@[k].value) && xs@[k].key@
                            == ys@[k].key@,
            {
                if bytes_cmp(xs[i].key.as_slice(), ys[i].key.as_slice()) != 0 {
                    proof {
                        assert(fields_view(xs@)[i as int].key == xs@[i as int].key@);
                        assert(fields_view(ys@)[i as int].key == ys@[i as int].key@);
                    }
                    return false;
                }
                proof {
                    assert(decreases_to!(*a => xs@[i as int].value));
                }
                if !json_eq(&xs[i].value, &ys[i].value) {
                    proof {
                        assert(fields_view(xs@)[i as int].value == jv(xs@[i as int].value));
                        assert(fields_view(ys@)[i as int].value == jv(ys@[i as int].value));
                    }
                    return false;
                }
            }
            proof {
                assert(fields_view(xs@) =~= fields_view(ys@));
            }
            true
        },
        _ => false,
    }
}

} // verus!
