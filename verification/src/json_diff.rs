//! Diff and merge of JSON objects.
//!
//! The reconciler sends reported-property changes upstream as a *merge patch*:
//! a JSON object in which a member that is absent is kept, a member set to
//! `null` is removed, and any other member is merged recursively (objects) or
//! replaced wholesale (everything else).  `diff_fields`/`diff_ne` compute the
//! patch that turns one document into another; `merge_fields`/`merge_v` apply
//! a patch.  The central law, `lemma_diff_merge_val`, shows that applying the
//! computed patch to the original document yields the desired document.

use vstd::prelude::*;

use crate::json::{
    lex_lt, key_below, size_v, size_fields, sorted_fields, wf_v, scrubbed_v, FieldV, JsonV,
    lemma_lex_trichotomy, lemma_lex_transitive, Json, JsonField, jv, fields_view,
    lemma_fields_view_index, bytes_cmp, copy_bytes, json_eq,
};

verus! {

/// The merge patch that turns `a` into `b`, where `a != b`.
///
/// Members present in `b` but not in `a` are taken verbatim; members present
/// in both are diffed recursively; members present only in `a` become `null`.
/// When either side is not an object, the patch is `b` itself.
pub open spec fn diff_ne(a: JsonV, b: JsonV) -> JsonV
    decreases size_v(a) + size_v(b),
{
    match (a, b) {
        (JsonV::Obj(xs), JsonV::Obj(ys)) => JsonV::Obj(diff_fields(xs, ys)),
        _ => b,
    }
}

/// The member list of the patch that turns the sorted member list `xs` into
/// the sorted member list `ys`.
pub open spec fn diff_fields(xs: Seq<FieldV>, ys: Seq<FieldV>) -> Seq<FieldV>
    decreases size_fields(xs) + size_fields(ys),
{
    if xs.len() == 0 {
        ys
    } else if ys.len() == 0 {
        seq![FieldV { key: xs[0].key, value: JsonV::Null }] + diff_fields(xs.drop_first(), ys)
    } else if lex_lt(xs[0].key, ys[0].key) {
        seq![FieldV { key: xs[0].key, value: JsonV::Null }] + diff_fields(xs.drop_first(), ys)
    } else if lex_lt(ys[0].key, xs[0].key) {
        seq![ys[0]] + diff_fields(xs, ys.drop_first())
    } else if xs[0].value == ys[0].value {
        diff_fields(xs.drop_first(), ys.drop_first())
    } else {
        seq![FieldV { key: ys[0].key, value: diff_ne(xs[0].value, ys[0].value) }] + diff_fields(
            xs.drop_first(),
            ys.drop_first(),
        )
    }
}

/// Applies the merge patch `p` to the document `a`.
///
/// A patch that is not an object replaces the document wholesale.  An object
/// patch is merged member by member into the document, starting from an empty
/// object when the document is not an object itself; `null` members delete.
pub open spec fn merge_v(a: JsonV, p: JsonV) -> JsonV
    decreases size_v(a) + size_v(p),
{
    match p {
        JsonV::Obj(ps) => match a {
            JsonV::Obj(xs) => JsonV::Obj(merge_fields(xs, ps)),
            _ => JsonV::Obj(merge_fields(Seq::<FieldV>::empty(), ps)),
        },
        _ => p,
    }
}

/// Merges the sorted patch member list `ps` into the sorted member list `xs`.
pub open spec fn merge_fields(xs: Seq<FieldV>, ps: Seq<FieldV>) -> Seq<FieldV>
    decreases size_fields(xs) + size_fields(ps),
{
    if ps.len() == 0 {
        xs
    } else if xs.len() == 0 {
        if ps[0].value is Null {
            merge_fields(xs, ps.drop_first())
        } else {
            seq![FieldV { key: ps[0].key, value: merge_v(JsonV::Null, ps[0].value) }]
                + merge_fields(xs, ps.drop_first())
        }
    } else if lex_lt(xs[0].key, ps[0].key) {
        seq![xs[0]] + merge_fields(xs.drop_first(), ps)
    } else if lex_lt(ps[0].key, xs[0].key) {
        if ps[0].value is Null {
            merge_fields(xs, ps.drop_first())
        } else {
            seq![FieldV { key: ps[0].key, value: merge_v(JsonV::Null, ps[0].value) }]
                + merge_fields(xs, ps.drop_first())
        }
    } else {
        if ps[0].value is Null {
            merge_fields(xs.drop_first(), ps.drop_first())
        } else {
            seq![FieldV { key: xs[0].key, value: merge_v(xs[0].value, ps[0].value) }]
                + merge_fields(xs.drop_first(), ps.drop_first())
        }
    }
}

/// Splitting a well-formed, scrubbed object into its head member and the rest.
proof fn lemma_split_obj(xs: Seq<FieldV>)
    requires
        wf_v(JsonV::Obj(xs)),
        xs.len() > 0,
    ensures
        wf_v(JsonV::Obj(xs.drop_first())),
        key_below(xs[0].key, xs.drop_first()),
        wf_v(xs[0].value),
        scrubbed_v(JsonV::Obj(xs)) ==> scrubbed_v(JsonV::Obj(xs.drop_first())) && scrubbed_v(
            xs[0].value,
        ) && xs[0].value !is Null,
{
    let rest = xs.drop_first();
    assert forall|i: int, j: int| 0 <= i < j < rest.len() implies lex_lt(
        rest[i].key,
        rest[j].key,
    ) by {
        assert(rest[i] == xs[i + 1]);
        assert(rest[j] == xs[j + 1]);
    }
    assert forall|i: int| 0 <= i < rest.len() implies wf_v((#[trigger] rest[i]).value) by {
        assert(rest[i] == xs[i + 1]);
    }
    assert forall|i: int| 0 <= i < rest.len() implies lex_lt(xs[0].key, (#[trigger] rest[i]).key) by {
        assert(rest[i] == xs[i + 1]);
    }
    if scrubbed_v(JsonV::Obj(xs)) {
        assert forall|i: int| 0 <= i < rest.len() implies ((#[trigger] rest[i]).value !is Null
            && scrubbed_v(rest[i].value)) by {
            assert(rest[i] == xs[i + 1]);
        }
        assert(xs[0].value !is Null);
    }
    assert(wf_v(xs[0].value));
}

/// A merge patch applied to `null` (or to anything that is not an object)
/// rebuilds the patch itself, as long as the patch has no `null` members.
proof fn lemma_merge_null(v: JsonV)
    requires
        wf_v(v),
        scrubbed_v(v),
    ensures
        merge_v(JsonV::Null, v) == v,
    decreases size_v(v),
{
    match v {
        JsonV::Obj(fs) => {
            lemma_merge_empty_fields(fs);
        },
        _ => {},
    }
}

proof fn lemma_merge_empty_fields(fs: Seq<FieldV>)
    requires
        wf_v(JsonV::Obj(fs)),
        scrubbed_v(JsonV::Obj(fs)),
    ensures
        merge_fields(Seq::<FieldV>::empty(), fs) == fs,
    decreases size_fields(fs),
{
    let empty = Seq::<FieldV>::empty();
    if fs.len() == 0 {
        assert(merge_fields(empty, fs) =~= fs);
    } else {
        lemma_split_obj(fs);
        lemma_merge_null(fs[0].value);
        lemma_merge_empty_fields(fs.drop_first());
        assert(FieldV { key: fs[0].key, value: merge_v(JsonV::Null, fs[0].value) } == fs[0]);
        assert(merge_fields(empty, fs) =~= fs);
    }
}

/// A key below every key of both inputs is below every key of their diff.
proof fn lemma_diff_fields_below(k: Seq<u8>, xs: Seq<FieldV>, ys: Seq<FieldV>)
    requires
        key_below(k, xs),
        key_below(k, ys),
    ensures
        key_below(k, diff_fields(xs, ys)),
    decreases size_fields(xs) + size_fields(ys),
{
    let d = diff_fields(xs, ys);
    if xs.len() == 0 {
    } else if ys.len() == 0 || lex_lt(xs[0].key, ys[0].key) {
        lemma_key_below_drop(k, xs);
        lemma_diff_fields_below(k, xs.drop_first(), ys);
        assert forall|i: int| 0 <= i < d.len() implies lex_lt(k, (#[trigger] d[i]).key) by {
            if i > 0 {
                assert(d[i] == diff_fields(xs.drop_first(), ys)[i - 1]);
            }
        }
    } else if lex_lt(ys[0].key, xs[0].key) {
        lemma_key_below_drop(k, ys);
        lemma_diff_fields_below(k, xs, ys.drop_first());
        assert forall|i: int| 0 <= i < d.len() implies lex_lt(k, (#[trigger] d[i]).key) by {
            if i > 0 {
                assert(d[i] == diff_fields(xs, ys.drop_first())[i - 1]);
            }
        }
    } else {
        lemma_key_below_drop(k, xs);
        lemma_key_below_drop(k, ys);
        lemma_diff_fields_below(k, xs.drop_first(), ys.drop_first());
        if xs[0].value != ys[0].value {
            assert forall|i: int| 0 <= i < d.len() implies lex_lt(k, (#[trigger] d[i]).key) by {
                if i > 0 {
                    assert(d[i] == diff_fields(xs.drop_first(), ys.drop_first())[i - 1]);
                }
            }
        }
    }
}

/// Round-trip law for one value: applying the patch that `diff_ne` computes
/// for the pair `(a, b)` to `a` yields `b`.  Both documents must be canonical
/// and free of `null` object members; a document with a `null` member cannot
/// be rebuilt, because a merge patch reads `null` as deletion.
pub proof fn lemma_diff_merge_val(a: JsonV, b: JsonV)
    requires
        wf_v(a),
        wf_v(b),
        scrubbed_v(a),
        scrubbed_v(b),
        a != b,
    ensures
        merge_v(a, diff_ne(a, b)) == b,
    decreases size_v(a) + size_v(b),
{
    match (a, b) {
        (JsonV::Obj(xs), JsonV::Obj(ys)) => {
            lemma_diff_merge_fields(xs, ys);
        },
        _ => {
            if b is Obj && !(a is Obj) {
                lemma_merge_empty_fields(b->Obj_0);
            }
        },
    }
}

/// Round-trip law for sorted member lists: merging `diff_fields(xs, ys)`
/// into `xs` yields `ys`.
pub proof fn lemma_diff_merge_fields(xs: Seq<FieldV>, ys: Seq<FieldV>)
    requires
        wf_v(JsonV::Obj(xs)),
        wf_v(JsonV::Obj(ys)),
        scrubbed_v(JsonV::Obj(xs)),
        scrubbed_v(JsonV::Obj(ys)),
    ensures
        merge_fields(xs, diff_fields(xs, ys)) == ys,
    decreases size_fields(xs) + size_fields(ys),
{
    let d = diff_fields(xs, ys);
    if xs.len() == 0 {
        assert(xs =~= Seq::<FieldV>::empty());
        lemma_merge_empty_fields(ys);
    } else if ys.len() == 0 {
        lemma_split_obj(xs);
        lemma_lex_trichotomy(xs[0].key, xs[0].key);
        lemma_diff_merge_fields(xs.drop_first(), ys);
        assert(d.drop_first() =~= diff_fields(xs.drop_first(), ys));
        assert(merge_fields(xs, d) =~= ys);
    } else {
        lemma_split_obj(xs);
        lemma_split_obj(ys);
        let x0 = xs[0];
        let y0 = ys[0];
        lemma_lex_trichotomy(x0.key, y0.key);
        if lex_lt(x0.key, y0.key) {
            // `x0` is removed: the patch starts with a `null` for its key.
            lemma_lex_trichotomy(x0.key, x0.key);
            lemma_diff_merge_fields(xs.drop_first(), ys);
            assert(d.drop_first() =~= diff_fields(xs.drop_first(), ys));
            assert(merge_fields(xs, d) =~= ys);
        } else if lex_lt(y0.key, x0.key) {
            // `y0` is added: the patch carries it verbatim.
            lemma_merge_null(y0.value);
            lemma_diff_merge_fields(xs, ys.drop_first());
            assert(d.drop_first() =~= diff_fields(xs, ys.drop_first()));
            assert(FieldV { key: y0.key, value: merge_v(JsonV::Null, y0.value) } == y0);
            assert(merge_fields(xs, d) =~= ys);
        } else if x0.value == y0.value {
            // Equal members produce no patch entry; the merge keeps `x0`.
            assert(x0 == y0);
            assert(d == diff_fields(xs.drop_first(), ys.drop_first()));
            lemma_diff_merge_fields(xs.drop_first(), ys.drop_first());
            lemma_diff_fields_below(x0.key, xs.drop_first(), ys.drop_first());
            if d.len() == 0 {
                assert(merge_fields(xs.drop_first(), d) =~= xs.drop_first());
                assert(merge_fields(xs, d) == xs);
                assert(xs =~= ys) by {
                    assert(xs.drop_first() == merge_fields(xs.drop_first(), d));
                    assert(forall|i: int|
                        1 <= i < xs.len() ==> xs[i] == #[trigger] xs.drop_first()[i - 1]
                            && ys[i] == ys.drop_first()[i - 1]);
                }
            } else {
                assert(lex_lt(x0.key, d[0].key));
                assert(merge_fields(xs, d) =~= ys) by {
                    assert(merge_fields(xs, d) == seq![x0] + merge_fields(xs.drop_first(), d));
                }
            }
        } else {
            // Same key, different values: the patch entry rebuilds `y0.value`.
            let dv = diff_ne(x0.value, y0.value);
            assert(dv !is Null) by {
                if !(x0.value is Obj && y0.value is Obj) {
                    assert(dv == y0.value);
                }
            }
            lemma_diff_merge_val(x0.value, y0.value);
            lemma_diff_merge_fields(xs.drop_first(), ys.drop_first());
            assert(d.drop_first() =~= diff_fields(xs.drop_first(), ys.drop_first()));
            assert(FieldV { key: x0.key, value: merge_v(x0.value, dv) } == y0);
            assert(merge_fields(xs, d) =~= ys);
        }
    }
}

proof fn lemma_obj_cons_wf(h: FieldV, t: Seq<FieldV>)
    requires
        wf_v(h.value),
        wf_v(JsonV::Obj(t)),
        key_below(h.key, t),
    ensures
        wf_v(JsonV::Obj(seq![h] + t)),
{
    let s = seq![h] + t;
    assert forall|i: int, j: int| 0 <= i < j < s.len() implies lex_lt(s[i].key, s[j].key) by {
        assert(s[j] == t[j - 1]);
        if i > 0 {
            assert(s[i] == t[i - 1]);
        }
    }
    assert forall|i: int| 0 <= i < s.len() implies wf_v((#[trigger] s[i]).value) by {
        if i > 0 {
            assert(s[i] == t[i - 1]);
        }
    }
}

proof fn lemma_obj_cons_scrubbed(h: FieldV, t: Seq<FieldV>)
    requires
        h.value !is Null,
        scrubbed_v(h.value),
        scrubbed_v(JsonV::Obj(t)),
    ensures
        scrubbed_v(JsonV::Obj(seq![h] + t)),
{
    let s = seq![h] + t;
    assert forall|i: int| 0 <= i < s.len() implies ((#[trigger] s[i]).value !is Null && scrubbed_v(
        s[i].value,
    )) by {
        if i > 0 {
            assert(s[i] == t[i - 1]);
        }
    }
}

proof fn lemma_below_cons(k: Seq<u8>, h: FieldV, t: Seq<FieldV>)
    requires
        lex_lt(k, h.key),
        key_below(k, t),
    ensures
        key_below(k, seq![h] + t),
{
    let s = seq![h] + t;
    assert forall|i: int| 0 <= i < s.len() implies lex_lt(k, (#[trigger] s[i]).key) by {
        if i > 0 {
            assert(s[i] == t[i - 1]);
        }
    }
}

proof fn lemma_below_from_head(k: Seq<u8>, s: Seq<FieldV>)
    requires
        s.len() > 0,
        lex_lt(k, s[0].key),
        sorted_fields(s),
    ensures
        key_below(k, s),
{
    assert forall|i: int| 0 <= i < s.len() implies lex_lt(k, (#[trigger] s[i]).key) by {
        if i > 0 {
            lemma_lex_transitive(k, s[0].key, s[i].key);
        }
    }
}

/// Merging keeps the canonical form: the result of a merge of two canonical
/// documents is canonical.
pub proof fn lemma_merge_wf(a: JsonV, p: JsonV)
    requires
        wf_v(a),
        wf_v(p),
    ensures
        wf_v(merge_v(a, p)),
    decreases size_v(a) + size_v(p),
{
    if p is Obj {
        let ps = p->Obj_0;
        if a is Obj {
            lemma_merge_fields_wf(a->Obj_0, ps);
        } else {
            lemma_merge_fields_wf(Seq::<FieldV>::empty(), ps);
        }
    }
}

proof fn lemma_merge_fields_wf(xs: Seq<FieldV>, ps: Seq<FieldV>)
    requires
        wf_v(JsonV::Obj(xs)),
        wf_v(JsonV::Obj(ps)),
    ensures
        wf_v(JsonV::Obj(merge_fields(xs, ps))),
        forall|k: Seq<u8>|
            key_below(k, xs) && key_below(k, ps) ==> #[trigger] key_below(
                k,
                merge_fields(xs, ps),
            ),
    decreases size_fields(xs) + size_fields(ps),
{
    let m = merge_fields(xs, ps);
    if ps.len() == 0 {
    } else if xs.len() == 0 {
        lemma_split_obj(ps);
        let p0 = ps[0];
        lemma_merge_fields_wf(xs, ps.drop_first());
        if !(p0.value is Null) {
            lemma_merge_wf(JsonV::Null, p0.value);
            let h = FieldV { key: p0.key, value: merge_v(JsonV::Null, p0.value) };
            assert(key_below(p0.key, xs));
            assert(key_below(h.key, merge_fields(xs, ps.drop_first())));
            lemma_obj_cons_wf(h, merge_fields(xs, ps.drop_first()));
            assert forall|k: Seq<u8>|
                key_below(k, xs) && key_below(k, ps) implies #[trigger] key_below(k, m) by {
                lemma_key_below_drop(k, ps);
                lemma_below_cons(k, h, merge_fields(xs, ps.drop_first()));
            }
        } else {
            assert forall|k: Seq<u8>|
                key_below(k, xs) && key_below(k, ps) implies #[trigger] key_below(k, m) by {
                lemma_key_below_drop(k, ps);
            }
        }
    } else {
        lemma_split_obj(xs);
        lemma_split_obj(ps);
        let x0 = xs[0];
        let p0 = ps[0];
        if lex_lt(x0.key, p0.key) {
            lemma_merge_fields_wf(xs.drop_first(), ps);
            lemma_below_from_head(x0.key, ps);
            assert(key_below(x0.key, merge_fields(xs.drop_first(), ps)));
            lemma_obj_cons_wf(x0, merge_fields(xs.drop_first(), ps));
            assert forall|k: Seq<u8>|
                key_below(k, xs) && key_below(k, ps) implies #[trigger] key_below(k, m) by {
                lemma_key_below_drop(k, xs);
                lemma_below_cons(k, x0, merge_fields(xs.drop_first(), ps));
            }
        } else if lex_lt(p0.key, x0.key) {
            lemma_merge_fields_wf(xs, ps.drop_first());
            if !(p0.value is Null) {
                lemma_merge_wf(JsonV::Null, p0.value);
                let h = FieldV { key: p0.key, value: merge_v(JsonV::Null, p0.value) };
                lemma_below_from_head(p0.key, xs);
                assert(key_below(h.key, merge_fields(xs, ps.drop_first())));
                lemma_obj_cons_wf(h, merge_fields(xs, ps.drop_first()));
                assert forall|k: Seq<u8>|
                    key_below(k, xs) && key_below(k, ps) implies #[trigger] key_below(k, m) by {
                    lemma_key_below_drop(k, ps);
                    lemma_below_cons(k, h, merge_fields(xs, ps.drop_first()));
                }
            } else {
                assert forall|k: Seq<u8>|
                    key_below(k, xs) && key_below(k, ps) implies #[trigger] key_below(k, m) by {
                    lemma_key_below_drop(k, ps);
                }
            }
        } else {
            lemma_merge_fields_wf(xs.drop_first(), ps.drop_first());
            if !(p0.value is Null) {
                lemma_merge_wf(x0.value, p0.value);
                let h = FieldV { key: x0.key, value: merge_v(x0.value, p0.value) };
                assert(key_below(h.key, merge_fields(xs.drop_first(), ps.drop_first()))) by {
                    assert(key_below(x0.key, ps.drop_first())) by {
                        lemma_lex_trichotomy(x0.key, p0.key);
                    }
                }
                lemma_obj_cons_wf(h, merge_fields(xs.drop_first(), ps.drop_first()));
                assert forall|k: Seq<u8>|
                    key_below(k, xs) && key_below(k, ps) implies #[trigger] key_below(k, m) by {
                    lemma_key_below_drop(k, xs);
                    lemma_key_below_drop(k, ps);
                    lemma_below_cons(k, h, merge_fields(xs.drop_first(), ps.drop_first()));
                }
            } else {
                assert forall|k: Seq<u8>|
                    key_below(k, xs) && key_below(k, ps) implies #[trigger] key_below(k, m) by {
                    lemma_key_below_drop(k, xs);
                    lemma_key_below_drop(k, ps);
                }
            }
        }
    }
}

/// Merging keeps snapshots scrubbed: if the document has no `null` object
/// members, the merged document has none either, whatever the patch deletes
/// or inserts.
pub proof fn lemma_merge_scrubbed(a: JsonV, p: JsonV)
    requires
        scrubbed_v(a),
    ensures
        scrubbed_v(merge_v(a, p)),
        p !is Null ==> merge_v(a, p) !is Null,
    decreases size_v(a) + size_v(p),
{
    if p is Obj {
        let ps = p->Obj_0;
        if a is Obj {
            lemma_merge_fields_scrubbed(a->Obj_0, ps);
        } else {
            lemma_merge_fields_scrubbed(Seq::<FieldV>::empty(), ps);
        }
    }
}

proof fn lemma_merge_fields_scrubbed(xs: Seq<FieldV>, ps: Seq<FieldV>)
    requires
        scrubbed_v(JsonV::Obj(xs)),
    ensures
        scrubbed_v(JsonV::Obj(merge_fields(xs, ps))),
    decreases size_fields(xs) + size_fields(ps),
{
    let m = merge_fields(xs, ps);
    if ps.len() == 0 {
    } else if xs.len() == 0 || lex_lt(ps[0].key, xs[0].key) {
        let p0 = ps[0];
        if xs.len() > 0 {
            lemma_lex_trichotomy(xs[0].key, p0.key);
        }
        lemma_merge_fields_scrubbed(xs, ps.drop_first());
        if !(p0.value is Null) {
            lemma_merge_scrubbed(JsonV::Null, p0.value);
            let h = FieldV { key: p0.key, value: merge_v(JsonV::Null, p0.value) };
            lemma_obj_cons_scrubbed(h, merge_fields(xs, ps.drop_first()));
        }
    } else if lex_lt(xs[0].key, ps[0].key) {
        let x0 = xs[0];
        assert(scrubbed_v(JsonV::Obj(xs.drop_first()))) by {
            assert(forall|i: int|
                0 <= i < xs.drop_first().len() ==> #[trigger] xs.drop_first()[i] == xs[i + 1]);
        }
        lemma_merge_fields_scrubbed(xs.drop_first(), ps);
        lemma_obj_cons_scrubbed(x0, merge_fields(xs.drop_first(), ps));
    } else {
        let x0 = xs[0];
        let p0 = ps[0];
        assert(scrubbed_v(JsonV::Obj(xs.drop_first()))) by {
            assert(forall|i: int|
                0 <= i < xs.drop_first().len() ==> #[trigger] xs.drop_first()[i] == xs[i + 1]);
        }
        lemma_merge_fields_scrubbed(xs.drop_first(), ps.drop_first());
        if !(p0.value is Null) {
            lemma_merge_scrubbed(x0.value, p0.value);
            let h = FieldV { key: x0.key, value: merge_v(x0.value, p0.value) };
            lemma_obj_cons_scrubbed(h, merge_fields(xs.drop_first(), ps.drop_first()));
        }
    }
}

proof fn lemma_key_below_drop(k: Seq<u8>, s: Seq<FieldV>)
    requires
        key_below(k, s),
        s.len() > 0,
    ensures
        key_below(k, s.drop_first()),
{
    assert forall|i: int| 0 <= i < s.drop_first().len() implies lex_lt(
        k,
        (#[trigger] s.drop_first()[i]).key,
    ) by {
        assert(s.drop_first()[i] == s[i + 1]);
    }
}

/// Facts about the tail of a member list seen through `fields_view`.
proof fn lemma_view_skip(s: Seq<JsonField>, i: int)
    requires
        0 <= i <= s.len(),
    ensures
        fields_view(s).len() == s.len(),
        fields_view(s).skip(i).len() == s.len() - i,
        forall|k: int|
            0 <= k < s.len() - i ==> #[trigger] fields_view(s).skip(i)[k] == (FieldV {
                key: s[i + k].key@,
                value: jv(s[i + k].value),
            }),
        i < s.len() ==> fields_view(s).skip(i).drop_first() =~= fields_view(s).skip(i + 1),
{
    lemma_fields_view_index(s);
    assert forall|k: int| 0 <= k < s.len() - i implies #[trigger] fields_view(s).skip(i)[k]
        == (FieldV { key: s[i + k].key@, value: jv(s[i + k].value) }) by {
        assert(fields_view(s).skip(i)[k] == fields_view(s)[i + k]);
    }
}

/// The patch member list computed against an empty desired object: every
/// member of the original is marked for deletion.
proof fn lemma_diff_removals(s: Seq<FieldV>)
    ensures
        diff_fields(s, Seq::<FieldV>::empty()).len() == s.len(),
        forall|k: int|
            0 <= k < s.len() ==> #[trigger] diff_fields(s, Seq::<FieldV>::empty())[k] == (FieldV {
                key: s[k].key,
                value: JsonV::Null,
            }),
    decreases s.len(),
{
    if s.len() > 0 {
        lemma_diff_removals(s.drop_first());
        let d = diff_fields(s, Seq::<FieldV>::empty());
        assert forall|k: int| 0 <= k < s.len() implies #[trigger] d[k] == (FieldV {
            key: s[k].key,
            value: JsonV::Null,
        }) by {
            if k > 0 {
                assert(d[k] == diff_fields(s.drop_first(), Seq::<FieldV>::empty())[k - 1]);
                assert(s.drop_first()[k - 1] == s[k]);
            }
        }
    }
}

/// The merge patch that turns `original` into `desired`, or `None` when the
/// two documents are already equal.
pub fn diff_objects(original: &Json, desired: &Json) -> (r: Option<Json>)
    ensures
        r is None <==> jv(*original) == jv(*desired),
        r matches Some(d) ==> jv(d) == diff_ne(jv(*original), jv(*desired)),
{
    if json_eq(original, desired) {
        Option::None
    } else {
        Option::Some(diff_value_ne(original, desired))
    }
}

fn diff_value_ne(a: &Json, b: &Json) -> (r: Json)
    ensures
        jv(r) == diff_ne(jv(*a), jv(*b)),
    decreases size_v(jv(*a)) + size_v(jv(*b)),
{
    match (a, b) {
        (Json::Obj(xs), Json::Obj(ys)) => {
            proof {
                assert(fields_view(xs@).skip(0) =~= fields_view(xs@));
                assert(fields_view(ys@).skip(0) =~= fields_view(ys@));
            }
            Json::Obj(diff_fields_exec(xs, 0, ys, 0))
        },
        _ => b.deep_copy(),
    }
}

fn diff_fields_exec(xs: &Vec<JsonField>, i: usize, ys: &Vec<JsonField>, j: usize) -> (r: Vec<
    JsonField,
>)
    requires
        i <= xs@.len(),
        j <= ys@.len(),
    ensures
        fields_view(r@) == diff_fields(
            fields_view(xs@).skip(i as int),
            fields_view(ys@).skip(j as int),
        ),
    decreases size_fields(fields_view(xs@).skip(i as int)) + size_fields(
        fields_view(ys@).skip(j as int),
    ),
{
    proof {
        lemma_view_skip(xs@, i as int);
        lemma_view_skip(ys@, j as int);
    }
    let ghost sxs = fields_view(xs@).skip(i as int);
    let ghost sys = fields_view(ys@).skip(j as int);
    if j == ys.len() {
        proof {
            assert(sys =~= Seq::<FieldV>::empty());
            lemma_diff_removals(sxs);
        }
        let mut out: Vec<JsonField> = Vec::new();
        let mut k = i;
        while k < xs.len()
            invariant
                i <= k <= xs@.len(),
                out@.len() == k - i,
                forall|t: int|
                    0 <= t < out@.len() ==> #[trigger] out@[t].key@ == xs@[i + t].key@
                        && out@[t].value is Null,
            decreases xs@.len() - k,
        {
            out.push(JsonField { key: copy_bytes(&xs[k].key), value: Json::Null });
            k = k + 1;
        }
        proof {
            lemma_fields_view_index(out@);
            assert(fields_view(out@) =~= diff_fields(sxs, sys));
        }
        out
    } else if i == xs.len() {
        proof {
            assert(sxs =~= Seq::<FieldV>::empty());
        }
        let mut out: Vec<JsonField> = Vec::new();
        let mut k = j;
        while k < ys.len()
            invariant
                j <= k <= ys@.len(),
                out@.len() == k - j,
                forall|t: int|
                    0 <= t < out@.len() ==> #[trigger] out@[t].key@ == ys@[j + t].key@ && jv(
                        out@[t].value,
                    ) == jv(ys@[j + t].value),
            decreases ys@.len() - k,
        {
            out.push(
                JsonField { key: copy_bytes(&ys[k].key), value: ys[k].value.deep_copy() },
            );
            k = k + 1;
        }
        proof {
            lemma_fields_view_index(out@);
            assert(fields_view(out@) =~= diff_fields(sxs, sys));
        }
        out
    } else {
        proof {
            assert(sxs[0] == FieldV { key: xs@[i as int].key@, value: jv(xs@[i as int].value) });
            assert(sys[0] == FieldV { key: ys@[j as int].key@, value: jv(ys@[j as int].value) });
        }
        let c = bytes_cmp(xs[i].key.as_slice(), ys[j].key.as_slice());
        if c < 0 {
            proof {
                assert(sxs.drop_first() =~= fields_view(xs@).skip(i as int + 1));
            }
            let mut rest = diff_fields_exec(xs, i + 1, ys, j);
            let ghost rest0 = rest@;
            let mut out = vec![JsonField { key: copy_bytes(&xs[i].key), value: Json::Null }];
            out.append(&mut rest);
            proof {
                lemma_fields_view_index(rest0);
                lemma_fields_view_index(out@);
                assert(fields_view(out@) =~= diff_fields(sxs, sys));
            }
            out
        } else if c > 0 {
            proof {
                assert(sys.drop_first() =~= fields_view(ys@).skip(j as int + 1));
            }
            let mut rest = diff_fields_exec(xs, i, ys, j + 1);
            let ghost rest0 = rest@;
            let mut out = vec![
                JsonField { key: copy_bytes(&ys[j].key), value: ys[j].value.deep_copy() },
            ];
            out.append(&mut rest);
            proof {
                lemma_fields_view_index(rest0);
                lemma_fields_view_index(out@);
                assert(fields_view(out@) =~= diff_fields(sxs, sys));
            }
            out
        } else {
            proof {
                assert(sxs.drop_first() =~= fields_view(xs@).skip(i as int + 1));
                assert(sys.drop_first() =~= fields_view(ys@).skip(j as int + 1));
            }
            if json_eq(&xs[i].value, &ys[j].value) {
                let rest = diff_fields_exec(xs, i + 1, ys, j + 1);
                proof {
                    assert(fields_view(rest@) =~= diff_fields(sxs, sys));
                }
                rest
            } else {
                let dv = diff_value_ne(&xs[i].value, &ys[j].value);
                let mut rest = diff_fields_exec(xs, i + 1, ys, j + 1);
                let ghost rest0 = rest@;
                let mut out = vec![JsonField { key: copy_bytes(&ys[j].key), value: dv }];
                out.append(&mut rest);
                proof {
                    lemma_fields_view_index(rest0);
                    lemma_fields_view_index(out@);
                    assert(fields_view(out@) =~= diff_fields(sxs, sys));
                }
                out
            }
        }
    }
}

/// Applies the merge patch `p` to the document `a`.
pub fn merge_value(a: &Json, p: &Json) -> (r: Json)
    ensures
        jv(r) == merge_v(jv(*a), jv(*p)),
    decreases size_v(jv(*a)) + size_v(jv(*p)),
{
    match p {
        Json::Obj(ps) => {
            proof {
                assert(fields_view(ps@).skip(0) =~= fields_view(ps@));
            }
            match a {
                Json::Obj(xs) => {
                    proof {
                        assert(fields_view(xs@).skip(0) =~= fields_view(xs@));
                    }
                    Json::Obj(merge_fields_exec(xs, 0, ps, 0))
                },
                _ => {
                    let empty: Vec<JsonField> = Vec::new();
                    proof {
                        assert(fields_view(empty@).skip(0) =~= Seq::<FieldV>::empty());
                    }
                    Json::Obj(merge_fields_exec(&empty, 0, ps, 0))
                },
            }
        },
        _ => p.deep_copy(),
    }
}

fn merge_fields_exec(xs: &Vec<JsonField>, i: usize, ps: &Vec<JsonField>, j: usize) -> (r: Vec<
    JsonField,
>)
    requires
        i <= xs@.len(),
        j <= ps@.len(),
    ensures
        fields_view(r@) == merge_fields(
            fields_view(xs@).skip(i as int),
            fields_view(ps@).skip(j as int),
        ),
    decreases size_fields(fields_view(xs@).skip(i as int)) + size_fields(
        fields_view(ps@).skip(j as int),
    ),
{
    proof {
        lemma_view_skip(xs@, i as int);
        lemma_view_skip(ps@, j as int);
    }
    let ghost sxs = fields_view(xs@).skip(i as int);
    let ghost sps = fields_view(ps@).skip(j as int);
    if j == ps.len() {
        proof {
            assert(sps =~= Seq::<FieldV>::empty());
        }
        let mut out: Vec<JsonField> = Vec::new();
        let mut k = i;
        while k < xs.len()
            invariant
                i <= k <= xs@.len(),
                out@.len() == k - i,
                forall|t: int|
                    0 <= t < out@.len() ==> #[trigger] out@[t].key@ == xs@[i + t].key@ && jv(
                        out@[t].value,
                    ) == jv(xs@[i + t].value),
            decreases xs@.len() - k,
        {
            out.push(
                JsonField { key: copy_bytes(&xs[k].key), value: xs[k].value.deep_copy() },
            );
            k = k + 1;
        }
        proof {
            lemma_fields_view_index(out@);
            assert(fields_view(out@) =~= merge_fields(sxs, sps));
        }
        out
    } else {
        proof {
            assert(sps[0] == FieldV { key: ps@[j as int].key@, value: jv(ps@[j as int].value) });
        }
        let patch_first = if i == xs.len() {
            true
        } else {
            proof {
                assert(sxs[0] == FieldV {
                    key: xs@[i as int].key@,
                    value: jv(xs@[i as int].value),
                });
            }
            let c = bytes_cmp(ps[j].key.as_slice(), xs[i].key.as_slice());
            if c == 0 {
                proof {
                    assert(sxs.drop_first() =~= fields_view(xs@).skip(i as int + 1));
                    assert(sps.drop_first() =~= fields_view(ps@).skip(j as int + 1));
                }
                if matches!(&ps[j].value, Json::Null) {
                    let rest = merge_fields_exec(xs, i + 1, ps, j + 1);
                    proof {
                        assert(fields_view(rest@) =~= merge_fields(sxs, sps));
                    }
                    return rest;
                }
                let merged = merge_value(&xs[i].value, &ps[j].value);
                let mut rest = merge_fields_exec(xs, i + 1, ps, j + 1);
                let ghost rest0 = rest@;
                let mut out = vec![JsonField { key: copy_bytes(&xs[i].key), value: merged }];
                out.append(&mut rest);
                proof {
                    lemma_fields_view_index(rest0);
                    lemma_fields_view_index(out@);
                    assert(fields_view(out@) =~= merge_fields(sxs, sps));
                }
                return out;
            }
            c < 0
        };
        if patch_first {
            proof {
                assert(sps.drop_first() =~= fields_view(ps@).skip(j as int + 1));
            }
            if matches!(&ps[j].value, Json::Null) {
                let rest = merge_fields_exec(xs, i, ps, j + 1);
                proof {
                    assert(fields_view(rest@) =~= merge_fields(sxs, sps));
                }
                rest
            } else {
                let nul = Json::Null;
                let merged = merge_value(&nul, &ps[j].value);
                let mut rest = merge_fields_exec(xs, i, ps, j + 1);
                let ghost rest0 = rest@;
                let mut out = vec![JsonField { key: copy_bytes(&ps[j].key), value: merged }];
                out.append(&mut rest);
                proof {
                    lemma_fields_view_index(rest0);
                    lemma_fields_view_index(out@);
                    assert(fields_view(out@) =~= merge_fields(sxs, sps));
                }
                out
            }
        } else {
            proof {
                assert(sxs.drop_first() =~= fields_view(xs@).skip(i as int + 1));
            }
            let mut rest = merge_fields_exec(xs, i + 1, ps, j);
            let ghost rest0 = rest@;
            let mut out = vec![
                JsonField { key: copy_bytes(&xs[i].key), value: xs[i].value.deep_copy() },
            ];
            out.append(&mut rest);
            proof {
                lemma_fields_view_index(rest0);
                lemma_fields_view_index(out@);
                assert(fields_view(out@) =~= merge_fields(sxs, sps));
            }
            out
        }
    }
}

} // verus!
