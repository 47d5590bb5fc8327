//! The twin middleware.
//!
//! Twin traffic is request/response over MQTT topics: each outbound request
//! carries a fresh correlation identifier, and the matching response names
//! it in its topic.  The middleware keeps a table of in-flight requests,
//! parses response and patch topics, and prepares the patch a queued
//! reported-properties update publishes.

use vstd::prelude::*;
use vstd::string::StringSliceAdditionalSpecFns;

use crate::bytes::{digits_val, has_prefix, is_digits, parse_u64_digits, starts_with_bytes};
use crate::json::{bytes_cmp, jv, wf_v, Json, JsonV};
use crate::json_diff::{diff_ne, diff_objects};
use crate::messages::{ReportedPropertiesUpdate, ReportedPropertiesUpdateType};
use crate::query::{parse_query, query_lookup, query_lookup_spec, query_parsed};
use crate::twin::TwinReconciler;

verus! {

/// What an in-flight request was for: a full twin snapshot, or confirming a
/// queued reported-properties update (named by its queue identifier).
pub enum ResponseKind {
    GetTwins,
    PatchReported(u64),
}

/// The table of in-flight requests, keyed by correlation identifier.
pub struct RequestTable {
    pub entries: Vec<(Vec<u8>, ResponseKind)>,
}

impl RequestTable {
    /// An empty table.
    pub fn new() -> (r: RequestTable)
        ensures
            r.entries@.len() == 0,
    {
        RequestTable { entries: Vec::new() }
    }

    /// Records one in-flight request.
    pub fn insert(&mut self, rid: Vec<u8>, kind: ResponseKind)
        ensures
            final(self).entries@ == old(self).entries@.push((rid, kind)),
    {
        self.entries.push((rid, kind));
    }

    /// Takes the request a response answers, by its correlation identifier:
    /// the first entry under that identifier leaves the table.  An unknown
    /// identifier changes nothing, and the response is ignored.
    pub fn take(&mut self, rid: &[u8]) -> (r: Option<ResponseKind>)
        ensures
            match r {
                Option::None => *final(self) == *old(self) && (forall|i: int|
                    0 <= i < old(self).entries@.len() ==> (#[trigger] old(
                        self,
                    ).entries@[i]).0@ != rid@),
                Option::Some(kind) => exists|i: int|
                    0 <= i < old(self).entries@.len() && (#[trigger] old(self).entries@[i]).0@
                        == rid@ && old(self).entries@[i].1 == kind && final(self).entries@ == old(
                        self,
                    ).entries@.remove(i) && (forall|j: int|
                        0 <= j < i ==> (#[trigger] old(self).entries@[j]).0@ != rid@),
            },
    {
        let n = self.entries.len();
        let mut k: usize = 0;
        while k < n
            invariant
                n == self.entries@.len(),
                k <= n,
                forall|j: int| 0 <= j < k ==> (#[trigger] self.entries@[j]).0@ != rid@,
                *self == *old(self),
            decreases n - k,
        {
            if bytes_cmp(self.entries[k].0.as_slice(), rid) == 0 {
                let entry = self.entries.remove(k);
                return Option::Some(entry.1);
            }
            k = k + 1;
        }
        Option::None
    }
}

/// Relies on uuid::Uuid::new_v4: a fresh random correlation identifier,
/// written in the hyphenated form.  Nothing is promised of its value, and
/// the call aborts if the operating system's randomness source fails, an
/// environmental failure on a par with resource exhaustion.
#[verifier::external_body]
fn new_correlation_id() -> (r: String) {
    uuid::Uuid::new_v4().to_string()
}

/// Opens a snapshot request: draws a fresh correlation identifier, records
/// the request, and returns the identifier for the request topic.
pub fn open_get_twins_request(table: &mut RequestTable) -> (rid: String)
    ensures
        final(table).entries@.len() == old(table).entries@.len() + 1,
        final(table).entries@.last().1 is GetTwins,
        final(table).entries@.last().0@ == crate::bytes::string_bytes(rid),
        final(table).entries@.subrange(0, old(table).entries@.len() as int) == old(
            table,
        ).entries@,
{
    let rid = new_correlation_id();
    let key = crate::bytes::str_bytes(rid.as_str());
    table.insert(key, ResponseKind::GetTwins);
    proof {
        assert(final(table).entries@.subrange(0, old(table).entries@.len() as int) =~= old(
            table,
        ).entries@);
    }
    rid
}

/// Opens a reported-patch request for the queue record `queue_id`.
pub fn open_patch_request(table: &mut RequestTable, queue_id: u64) -> (rid: String)
    ensures
        final(table).entries@.len() == old(table).entries@.len() + 1,
        final(table).entries@.last().1 matches ResponseKind::PatchReported(q) && q == queue_id,
        final(table).entries@.last().0@ == crate::bytes::string_bytes(rid),
        final(table).entries@.subrange(0, old(table).entries@.len() as int) == old(
            table,
        ).entries@,
{
    let rid = new_correlation_id();
    let key = crate::bytes::str_bytes(rid.as_str());
    table.insert(key, ResponseKind::PatchReported(queue_id));
    proof {
        assert(final(table).entries@.subrange(0, old(table).entries@.len() as int) =~= old(
            table,
        ).entries@);
    }
    rid
}

/// A parsed twin response topic:
/// `$iothub/twin/res/{status}/?{properties}` with a `$rid` property.
pub struct TwinResponse {
    pub status: u64,
    pub request_id: Vec<u8>,
}

/// The properties part of a response topic: what follows the first `?`
/// after the response prefix and the status digits.
pub open spec fn response_parts(topic: Seq<u8>) -> Option<(Seq<u8>, Seq<u8>)> {
    let prefix = "$iothub/twin/res/".spec_bytes();
    if has_prefix(topic, prefix) {
        let rest = topic.skip(prefix.len() as int);
        match crate::bytes::find_byte(rest, 47) {
            Option::None => Option::None,
            Option::Some(i) => {
                let status = rest.take(i);
                let after = rest.skip(i + 1);
                if after.len() >= 1 && after[0] == 63 {
                    Option::Some((status, after.skip(1)))
                } else {
                    Option::None
                }
            },
        }
    } else {
        Option::None
    }
}

/// Parses a twin response topic: the numeric status and the `$rid` property.
pub fn parse_response_topic(topic: &[u8]) -> (r: Option<TwinResponse>)
    ensures
        match response_parts(topic@) {
            Option::None => r is None,
            Option::Some((status, props)) => match r {
                Option::None => !(is_digits(status) && digits_val(status) <= u64::MAX)
                    || !(query_lookup_spec(query_parsed(props), "$rid".spec_bytes()) matches
                Option::Some(Option::Some(_))),
                Option::Some(resp) => {
                    &&& is_digits(status)
                    &&& resp.status == digits_val(status)
                    &&& query_lookup_spec(query_parsed(props), "$rid".spec_bytes())
                        == Option::Some(Option::Some(resp.request_id@))
                },
            },
        },
{
    let prefix = crate::topics::twin_response_prefix();
    if !starts_with_bytes(topic, prefix.as_slice()) {
        return Option::None;
    }
    let plen = prefix.len();
    let tlen = topic.len();
    let ghost rest = topic@.skip(plen as int);
    proof {
        crate::bytes::lemma_find_byte_bounds(rest, 47);
        assert(rest =~= topic@.subrange(plen as int, tlen as int));
    }
    let slash = match crate::query::find_byte_in_range(topic, 47, plen, tlen) {
        Option::None => {
            return Option::None;
        },
        Option::Some(i) => i,
    };
    proof {
        assert(rest.take(slash - plen) =~= topic@.subrange(plen as int, slash as int));
        assert(rest.skip(slash - plen + 1) =~= topic@.skip(slash as int + 1));
    }
    if slash + 1 >= tlen || topic[slash + 1] != 63 {
        proof {
            let after = rest.skip(slash - plen + 1);
            if slash + 1 < tlen {
                assert(after[0] == topic@[slash as int + 1]);
            }
        }
        return Option::None;
    }
    proof {
        let after = rest.skip(slash - plen + 1);
        assert(after[0] == topic@[slash as int + 1]);
        assert(after.skip(1) =~= topic@.skip(slash as int + 2));
    }
    let status = match parse_u64_digits(topic, plen, slash) {
        Option::None => {
            return Option::None;
        },
        Option::Some(v) => v,
    };
    let ghost props_bytes = topic@.skip(slash as int + 2);
    let props_raw = crate::query::copy_range(topic, slash + 2, tlen);
    proof {
        assert(props_raw@ =~= props_bytes);
    }
    let params = parse_query(props_raw.as_slice());
    let rid_key = crate::bytes::str_bytes("$rid");
    match query_lookup(&params, rid_key.as_slice()) {
        Option::Some(Option::Some(rid)) => Option::Some(TwinResponse { status, request_id: rid }),
        _ => Option::None,
    }
}

/// The properties part of a desired-patch topic:
/// `$iothub/twin/PATCH/properties/desired/?{properties}`.
pub open spec fn desired_patch_parts(topic: Seq<u8>) -> Option<Seq<u8>> {
    let prefix = "$iothub/twin/PATCH/properties/desired/".spec_bytes();
    if has_prefix(topic, prefix) {
        let rest = topic.skip(prefix.len() as int);
        if rest.len() >= 1 && rest[0] == 63 {
            Option::Some(rest.skip(1))
        } else {
            Option::None
        }
    } else {
        Option::None
    }
}

/// Parses a desired-patch topic: the `$version` property as a number.
pub fn parse_desired_patch_topic(topic: &[u8]) -> (r: Option<u64>)
    ensures
        match desired_patch_parts(topic@) {
            Option::None => r is None,
            Option::Some(props) => match query_lookup_spec(
                query_parsed(props),
                "$version".spec_bytes(),
            ) {
                Option::Some(Option::Some(v)) => match r {
                    Option::Some(n) => is_digits(v) && n == digits_val(v),
                    Option::None => !(is_digits(v) && digits_val(v) <= u64::MAX),
                },
                _ => r is None,
            },
        },
{
    let prefix = crate::topics::desired_patch_prefix();
    if !starts_with_bytes(topic, prefix.as_slice()) {
        return Option::None;
    }
    let plen = prefix.len();
    let tlen = topic.len();
    let ghost rest = topic@.skip(plen as int);
    if plen >= tlen || topic[plen] != 63 {
        proof {
            if plen < tlen {
                assert(rest[0] == topic@[plen as int]);
            }
        }
        return Option::None;
    }
    proof {
        assert(rest[0] == topic@[plen as int]);
        assert(rest.skip(1) =~= topic@.skip(plen as int + 1));
    }
    let props_raw = crate::query::copy_range(topic, plen + 1, tlen);
    proof {
        assert(props_raw@ =~= topic@.skip(plen as int + 1));
    }
    let params = parse_query(props_raw.as_slice());
    let version_key = crate::bytes::str_bytes("$version");
    let v = match query_lookup(&params, version_key.as_slice()) {
        Option::Some(Option::Some(v)) => v,
        _ => {
            return Option::None;
        },
    };
    let vlen = v.len();
    proof {
        assert(v@.subrange(0, v@.len() as int) =~= v@);
    }
    parse_u64_digits(v.as_slice(), 0, vlen)
}

/// The patch a queued reported-properties update publishes: a ready-made
/// patch travels as it is; a full update is diffed against the last reported
/// snapshot (an empty object when none is loaded), so only the changes
/// travel.
pub fn reported_patch_to_send(state: &TwinReconciler, update: &ReportedPropertiesUpdate) -> (r:
    Json)
    requires
        state.inv(),
        wf_v(jv(update.patch)),
    ensures
        update.update_type is Patch ==> jv(r) == jv(update.patch),
        update.update_type is Full ==> (match state.reported {
            Option::Some(t) => {
                &&& jv(t.properties) == jv(update.patch) ==> jv(r) == JsonV::Obj(Seq::empty())
                &&& jv(t.properties) != jv(update.patch) ==> jv(r) == diff_ne(
                    jv(t.properties),
                    jv(update.patch),
                )
            },
            Option::None => {
                &&& jv(update.patch) == JsonV::Obj(Seq::empty()) ==> jv(r) == JsonV::Obj(
                    Seq::empty(),
                )
                &&& jv(update.patch) != JsonV::Obj(Seq::empty()) ==> jv(r) == diff_ne(
                    JsonV::Obj(Seq::empty()),
                    jv(update.patch),
                )
            },
        }),
{
    match update.update_type {
        ReportedPropertiesUpdateType::Patch => update.patch.deep_copy(),
        ReportedPropertiesUpdateType::Full => {
            let empty_obj = Json::Obj(Vec::new());
            proof {
                assert(crate::json::fields_view(Seq::<crate::json::JsonField>::empty())
                    =~= Seq::<crate::json::FieldV>::empty());
            }
            let current: &Json = match &state.reported {
                Option::Some(t) => &t.properties,
                Option::None => &empty_obj,
            };
            match diff_objects(current, &update.patch) {
                Option::None => {
                    proof {
                        assert(crate::json::fields_view(Seq::<crate::json::JsonField>::empty())
                            =~= Seq::<crate::json::FieldV>::empty());
                    }
                    Json::Obj(Vec::new())
                },
                Option::Some(d) => d,
            }
        },
    }
}

} // verus!
