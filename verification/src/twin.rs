//! The twin store and reconciler.
//!
//! A twin snapshot is a versioned JSON object.  Desired-property patches
//! arrive with a version number and are applied in ascending version order:
//! a stale patch is discarded, the successor version is merged, anything
//! further ahead leaves a gap that only a full snapshot can close.  Patches
//! that arrive before the first snapshot are buffered.  The desired version
//! never decreases.

use vstd::prelude::*;

use vstd::string::StringSliceAdditionalSpecFns;

use crate::json::{
    bytes_cmp, copy_bytes, fields_view, jv, key_below, lemma_fields_view_index, lex_lt,
    scrubbed_v, wf_v, FieldV, Json, JsonField, JsonV,
};
use crate::json_diff::{lemma_merge_scrubbed, lemma_merge_wf, merge_v, merge_value};

verus! {

/// One twin snapshot: its version and its properties object.
#[verifier::ext_equal]
pub struct Twin {
    pub version: u64,
    pub properties: Json,
}

impl Twin {
    /// A stored snapshot is canonical and, being a snapshot rather than a
    /// patch, holds no `null` members.
    pub open spec fn wf(self) -> bool {
        wf_v(jv(self.properties)) && scrubbed_v(jv(self.properties))
    }

    /// Copies a snapshot.
    pub fn deep_copy(&self) -> (r: Twin)
        ensures
            r.version == self.version,
            jv(r.properties) == jv(self.properties),
    {
        Twin { version: self.version, properties: self.properties.deep_copy() }
    }
}

/// One desired-property patch as it arrives from the platform: the version
/// in the patch body (absent in locally produced patches) and the merge
/// patch itself.
pub struct TwinUpdate {
    pub version: Option<u64>,
    pub patch: Json,
}

/// What became of one patch handed to `Twin::update`.
pub enum TwinUpdateOutcome {
    /// The patch was merged and the version advanced.
    Applied,
    /// The patch version is not above the current version; nothing changed.
    Ignored,
    /// The patch version would skip a version; nothing changed.
    VersionGap,
}

impl Twin {
    /// Applies one patch to this snapshot.
    ///
    /// A patch without a version is merged and the version advances by one.
    /// A versioned patch is merged only when it carries exactly the next
    /// version; an older one is ignored and a later one is refused, since
    /// applying it would skip updates.
    pub fn update(&mut self, update: &TwinUpdate) -> (r: TwinUpdateOutcome)
        requires
            old(self).wf(),
            wf_v(jv(update.patch)),
            old(self).version < u64::MAX,
        ensures
            final(self).wf(),
            final(self).version >= old(self).version,
            match update.version {
                Option::None => r is Applied && final(self).version == old(self).version + 1
                    && jv(final(self).properties) == merge_v(
                    jv(old(self).properties),
                    jv(update.patch),
                ),
                Option::Some(v) => {
                    if v <= old(self).version {
                        r is Ignored && *final(self) == *old(self)
                    } else if v == old(self).version + 1 {
                        r is Applied && final(self).version == v && jv(final(self).properties)
                            == merge_v(jv(old(self).properties), jv(update.patch))
                    } else {
                        r is VersionGap && *final(self) == *old(self)
                    }
                },
            },
    {
        match update.version {
            Option::None => {
                proof {
                    lemma_merge_wf(jv(self.properties), jv(update.patch));
                    lemma_merge_scrubbed(jv(self.properties), jv(update.patch));
                }
                self.properties = merge_value(&self.properties, &update.patch);
                self.version = self.version + 1;
                TwinUpdateOutcome::Applied
            },
            Option::Some(v) => {
                if v <= self.version {
                    TwinUpdateOutcome::Ignored
                } else if v == self.version + 1 {
                    proof {
                        lemma_merge_wf(jv(self.properties), jv(update.patch));
                        lemma_merge_scrubbed(jv(self.properties), jv(update.patch));
                    }
                    self.properties = merge_value(&self.properties, &update.patch);
                    self.version = v;
                    TwinUpdateOutcome::Applied
                } else {
                    TwinUpdateOutcome::VersionGap
                }
            },
        }
    }
}

/// A buffered desired-property patch, waiting for the snapshot it follows.
#[verifier::ext_equal]
pub struct VersionedPatch {
    pub version: u64,
    pub patch: Json,
}

/// The view of a buffered patch list.
pub open spec fn patch_views(s: Seq<VersionedPatch>) -> Seq<(int, JsonV)>
    decreases s,
{
    if s.len() == 0 {
        Seq::empty()
    } else {
        seq![(s[0].version as int, jv(s[0].patch))] + patch_views(s.drop_first())
    }
}

pub proof fn lemma_patch_views_index(s: Seq<VersionedPatch>)
    ensures
        patch_views(s).len() == s.len(),
        forall|i: int|
            0 <= i < s.len() ==> #[trigger] patch_views(s)[i] == (
            s[i].version as int,
            jv(s[i].patch),
            ),
    decreases s.len(),
{
    if s.len() > 0 {
        lemma_patch_views_index(s.drop_first());
    }
}

/// Draining buffered patches into a snapshot: stale patches are dropped,
/// each successor version is merged, and the first gap stops the drain,
/// leaving the rest buffered.
pub open spec fn drained(version: int, props: JsonV, ups: Seq<(int, JsonV)>) -> (
    int,
    JsonV,
    Seq<(int, JsonV)>,
)
    decreases ups.len(),
{
    if ups.len() == 0 {
        (version, props, ups)
    } else if ups[0].0 <= version {
        drained(version, props, ups.drop_first())
    } else if ups[0].0 == version + 1 {
        drained(ups[0].0, merge_v(props, ups[0].1), ups.drop_first())
    } else {
        (version, props, ups)
    }
}

/// The reconciler's state: the two snapshots and the buffered desired
/// patches.
#[verifier::ext_equal]
pub struct TwinReconciler {
    pub desired: Option<Twin>,
    pub reported: Option<Twin>,
    pub buffered: Vec<VersionedPatch>,
}

/// The error a rejected desired-property patch surfaces to the middleware:
/// a patch that skips versions names the versions involved, so the caller
/// can request a full snapshot.
pub enum PropertiesUpdateError {
    /// The patch version does not follow the current version.
    PatchVersionMismatch { current_version: u64, patch_version: u64 },
    /// The patch could not be read.
    Other,
}

/// The error an outcome surfaces, if any: exactly a version gap becomes a
/// `PatchVersionMismatch`, carrying the current and offered versions.
pub fn desired_update_error(
    outcome: &DesiredUpdateOutcome,
    current_version: u64,
    patch_version: u64,
) -> (r: Option<PropertiesUpdateError>)
    ensures
        outcome is VersionGap <==> (r matches Some(e)
            && e matches PropertiesUpdateError::PatchVersionMismatch {
            current_version: c,
            patch_version: p,
        } && c == current_version && p == patch_version),
        !(outcome is VersionGap) ==> r is None,
{
    match outcome {
        DesiredUpdateOutcome::VersionGap => Option::Some(
            PropertiesUpdateError::PatchVersionMismatch { current_version, patch_version },
        ),
        _ => Option::None,
    }
}

/// What the reconciler asks its caller to do after a desired patch.
pub enum DesiredUpdateOutcome {
    /// The patch was merged into the desired snapshot; notify the user.
    Applied,
    /// No snapshot exists yet; the patch is buffered.
    Buffered,
    /// The patch version is not above the current one; it was discarded.
    Stale,
    /// The patch skips versions; request a full twin snapshot.
    VersionGap,
}

impl TwinReconciler {
    /// Snapshots are canonical and scrubbed; buffered patches are canonical.
    pub open spec fn inv(self) -> bool {
        &&& (self.desired matches Option::Some(t) ==> t.wf())
        &&& (self.reported matches Option::Some(t) ==> t.wf())
        &&& (forall|i: int|
            0 <= i < self.buffered@.len() ==> wf_v(jv((#[trigger] self.buffered@[i]).patch)))
    }

    /// The desired version, or -1 before the first snapshot.
    pub open spec fn desired_version(self) -> int {
        match self.desired {
            Option::Some(t) => t.version as int,
            Option::None => -1,
        }
    }

    /// An empty reconciler: no snapshots, nothing buffered.
    pub fn new() -> (r: TwinReconciler)
        ensures
            r.inv(),
            r.desired is None,
            r.reported is None,
            r.buffered@.len() == 0,
    {
        TwinReconciler { desired: Option::None, reported: Option::None, buffered: Vec::new() }
    }

    /// Handles one inbound desired-property patch of version `version`.
    ///
    /// Before the first snapshot the patch is buffered.  Against a snapshot,
    /// a version not above the current one is discarded, the successor
    /// version is merged (and buffered patches are drained), and a later
    /// version is refused so that the caller requests a full snapshot.
    /// The desired version never decreases.
    pub fn update_desired(&mut self, version: u64, patch: &Json) -> (r: DesiredUpdateOutcome)
        requires
            old(self).inv(),
            wf_v(jv(*patch)),
        ensures
            final(self).inv(),
            final(self).desired_version() >= old(self).desired_version(),
            final(self).reported == old(self).reported,
            match old(self).desired {
                Option::None => {
                    &&& r is Buffered
                    &&& final(self).desired is None
                    &&& final(self).buffered@.len() == old(self).buffered@.len() + 1
                    &&& final(self).buffered@.last().version == version
                    &&& jv(final(self).buffered@.last().patch) == jv(*patch)
                    &&& final(self).buffered@.subrange(0, old(self).buffered@.len() as int)
                        == old(self).buffered@
                },
                Option::Some(t) => {
                    if version <= t.version {
                        r is Stale && *final(self) == *old(self)
                    } else if version == t.version + 1 {
                        r is Applied && (final(self).desired matches Option::Some(d) && {
                            let (dv, dp, rest) = drained(
                                version as int,
                                merge_v(jv(t.properties), jv(*patch)),
                                patch_views(old(self).buffered@),
                            );
                            d.version as int == dv && jv(d.properties) == dp && patch_views(
                                final(self).buffered@,
                            ) == rest
                        })
                    } else {
                        r is VersionGap && *final(self) == *old(self)
                    }
                },
            },
    {
        let desired_state = self.desired.take();
        match desired_state {
            Option::None => {
                self.desired = Option::None;
                self.buffered.push(VersionedPatch { version, patch: patch.deep_copy() });
                proof {
                    assert(final(self).buffered@.subrange(0, old(self).buffered@.len() as int)
                        =~= old(self).buffered@);
                }
                DesiredUpdateOutcome::Buffered
            },
            Option::Some(t) => {
                if version <= t.version {
                    self.desired = Option::Some(t);
                    proof {
                        assert(*self =~= *old(self));
                    }
                    DesiredUpdateOutcome::Stale
                } else if t.version < u64::MAX && version == t.version + 1 {
                    proof {
                        lemma_merge_wf(jv(t.properties), jv(*patch));
                        lemma_merge_scrubbed(jv(t.properties), jv(*patch));
                    }
                    let merged = Twin { version, properties: merge_value(&t.properties, patch) };
                    let settled = self.drain_buffered(merged);
                    self.desired = Option::Some(settled);
                    DesiredUpdateOutcome::Applied
                } else {
                    self.desired = Option::Some(t);
                    proof {
                        assert(*self =~= *old(self));
                    }
                    DesiredUpdateOutcome::VersionGap
                }
            },
        }
    }

    /// Installs a full desired snapshot from the server, if it is newer than
    /// the local one, then drains the buffered patches that follow it.
    /// The desired version never decreases.
    pub fn install_full_desired(&mut self, version: u64, properties: Json) -> (changed: bool)
        requires
            old(self).inv(),
            wf_v(jv(properties)),
            scrubbed_v(jv(properties)),
        ensures
            final(self).inv(),
            final(self).desired_version() >= old(self).desired_version(),
            final(self).reported == old(self).reported,
            changed <==> old(self).desired_version() < version as int,
            !changed ==> *final(self) == *old(self),
            changed ==> (final(self).desired matches Option::Some(d) && {
                let (dv, dp, rest) = drained(
                    version as int,
                    jv(properties),
                    patch_views(old(self).buffered@),
                );
                d.version as int == dv && jv(d.properties) == dp && patch_views(
                    final(self).buffered@,
                ) == rest
            }),
    {
        let newer = match &self.desired {
            Option::None => true,
            Option::Some(t) => t.version < version,
        };
        if newer {
            let settled = self.drain_buffered(Twin { version, properties });
            self.desired = Option::Some(settled);
            true
        } else {
            proof {
                assert(*self =~= *old(self));
            }
            false
        }
    }

    /// Installs a full reported snapshot from the server, if it is newer.
    pub fn install_full_reported(&mut self, version: u64, properties: Json) -> (changed: bool)
        requires
            old(self).inv(),
            wf_v(jv(properties)),
            scrubbed_v(jv(properties)),
        ensures
            final(self).inv(),
            final(self).desired == old(self).desired,
            final(self).buffered == old(self).buffered,
            changed <==> (match old(self).reported {
                Option::None => true,
                Option::Some(t) => t.version < version,
            }),
            !changed ==> *final(self) == *old(self),
            changed ==> (final(self).reported matches Option::Some(t) && t.version == version
                && jv(t.properties) == jv(properties)),
    {
        let newer = match &self.reported {
            Option::None => true,
            Option::Some(t) => t.version < version,
        };
        if newer {
            self.reported = Option::Some(Twin { version, properties });
            true
        } else {
            proof {
                assert(*self =~= *old(self));
            }
            false
        }
    }

    /// Merges a locally produced patch into the reported snapshot, advancing
    /// its version by one.  Fails when no reported snapshot is loaded yet.
    pub fn update_reported(&mut self, patch: &Json) -> (r: bool)
        requires
            old(self).inv(),
            wf_v(jv(*patch)),
        ensures
            final(self).inv(),
            final(self).desired == old(self).desired,
            final(self).buffered == old(self).buffered,
            r <==> (old(self).reported matches Option::Some(t) && t.version < u64::MAX),
            !r ==> *final(self) == *old(self),
            r ==> (old(self).reported matches Option::Some(t)
                && final(self).reported matches Option::Some(n) && n.version == t.version + 1
                && jv(n.properties) == merge_v(jv(t.properties), jv(*patch))),
    {
        let reported_state = self.reported.take();
        match reported_state {
            Option::Some(t) => {
                if t.version < u64::MAX {
                    proof {
                        lemma_merge_wf(jv(t.properties), jv(*patch));
                        lemma_merge_scrubbed(jv(t.properties), jv(*patch));
                    }
                    let merged = Twin {
                        version: t.version + 1,
                        properties: merge_value(&t.properties, patch),
                    };
                    self.reported = Option::Some(merged);
                    true
                } else {
                    self.reported = Option::Some(t);
                    proof {
                        assert(*self =~= *old(self));
                    }
                    false
                }
            },
            Option::None => {
                self.reported = Option::None;
                proof {
                    assert(*self =~= *old(self));
                }
                false
            },
        }
    }

    /// The desired snapshot, exactly when its version is above `version`;
    /// `None` when it is not newer or no snapshot exists yet.
    pub fn desired_if_newer(&self, version: u64) -> (r: Option<&Twin>)
        ensures
            match self.desired {
                Option::None => r is None,
                Option::Some(t) => {
                    &&& t.version > version ==> (r matches Option::Some(x) && *x == t)
                    &&& t.version <= version ==> r is None
                },
            },
    {
        match &self.desired {
            Option::Some(t) => if t.version > version {
                Option::Some(t)
            } else {
                Option::None
            },
            Option::None => Option::None,
        }
    }

    /// Applies the buffered patches that fit onto a fresh snapshot; the
    /// first gap stops the drain and the rest stay buffered.
    fn drain_buffered(&mut self, start: Twin) -> (r: Twin)
        requires
            old(self).inv(),
            start.wf(),
        ensures
            final(self).inv(),
            final(self).desired == old(self).desired,
            final(self).reported == old(self).reported,
            r.wf(),
            r.version >= start.version,
            ({
                let (dv, dp, rest) = drained(
                    start.version as int,
                    jv(start.properties),
                    patch_views(old(self).buffered@),
                );
                r.version as int == dv && jv(r.properties) == dp && patch_views(
                    final(self).buffered@,
                ) == rest
            }),
    {
        proof {
            lemma_patch_views_index(self.buffered@);
            assert(patch_views(self.buffered@).skip(0) =~= patch_views(self.buffered@));
        }
        let ghost all = patch_views(self.buffered@);
        let mut cur = start;
        let mut k: usize = 0;
        loop
            invariant
                self.inv(),
                cur.version >= start.version,
                self.desired == old(self).desired,
                self.reported == old(self).reported,
                self.buffered == old(self).buffered,
                k <= self.buffered@.len(),
                cur.wf(),
                all == patch_views(self.buffered@),
                patch_views(self.buffered@).len() == self.buffered@.len(),
                forall|i: int|
                    0 <= i < self.buffered@.len() ==> #[trigger] patch_views(self.buffered@)[i]
                        == (self.buffered@[i].version as int, jv(self.buffered@[i].patch)),
                drained(start.version as int, jv(start.properties), all) == drained(
                    cur.version as int,
                    jv(cur.properties),
                    all.skip(k as int),
                ),
            ensures
                self.buffered == old(self).buffered,
                k <= self.buffered@.len(),
                cur.wf(),
                cur.version >= start.version,
                drained(start.version as int, jv(start.properties), all) == (
                    cur.version as int,
                    jv(cur.properties),
                    all.skip(k as int),
                ),
            decreases self.buffered@.len() - k,
        {
            proof {
                assert(all.skip(k as int).len() == all.len() - k);
                if k < self.buffered@.len() {
                    assert(all.skip(k as int)[0] == all[k as int]);
                    assert(all.skip(k as int).drop_first() =~= all.skip(k as int + 1));
                }
            }
            if k == self.buffered.len() {
                proof {
                    assert(all.skip(k as int) =~= Seq::<(int, JsonV)>::empty());
                }
                break;
            }
            let v = self.buffered[k].version;
            if v <= cur.version {
                k = k + 1;
            } else if cur.version < u64::MAX && v == cur.version + 1 {
                proof {
                    lemma_merge_wf(jv(cur.properties), jv(self.buffered@[k as int].patch));
                    lemma_merge_scrubbed(jv(cur.properties), jv(self.buffered@[k as int].patch));
                }
                cur = Twin {
                    version: v,
                    properties: merge_value(&cur.properties, &self.buffered[k].patch),
                };
                k = k + 1;
            } else {
                break;
            }
        }
        let rest = self.buffered.split_off(k);
        self.buffered = rest;
        proof {
            lemma_patch_views_skip(old(self).buffered@, k as int);
        }
        cur
    }
}

/// The value of the member named `k`, scanning in order.
pub open spec fn obj_get(fs: Seq<FieldV>, k: Seq<u8>) -> Option<JsonV>
    decreases fs.len(),
{
    if fs.len() == 0 {
        Option::None
    } else if fs[0].key == k {
        Option::Some(fs[0].value)
    } else {
        obj_get(fs.drop_first(), k)
    }
}

/// The members with the member named `k` (if any) left out.
pub open spec fn obj_remove(fs: Seq<FieldV>, k: Seq<u8>) -> Seq<FieldV>
    decreases fs.len(),
{
    if fs.len() == 0 {
        fs
    } else if fs[0].key == k {
        obj_remove(fs.drop_first(), k)
    } else {
        seq![fs[0]] + obj_remove(fs.drop_first(), k)
    }
}

/// Removing a member keeps an object canonical and scrubbed.
proof fn lemma_obj_remove_facts(fs: Seq<FieldV>, k: Seq<u8>)
    requires
        wf_v(JsonV::Obj(fs)),
    ensures
        wf_v(JsonV::Obj(obj_remove(fs, k))),
        scrubbed_v(JsonV::Obj(fs)) ==> scrubbed_v(JsonV::Obj(obj_remove(fs, k))),
        forall|b: Seq<u8>| key_below(b, fs) ==> #[trigger] key_below(b, obj_remove(fs, k)),
    decreases fs.len(),
{
    if fs.len() > 0 {
        let rest = fs.drop_first();
        assert forall|i: int, j: int| 0 <= i < j < rest.len() implies lex_lt(
            rest[i].key,
            rest[j].key,
        ) by {
            assert(rest[i] == fs[i + 1]);
            assert(rest[j] == fs[j + 1]);
        }
        assert forall|i: int| 0 <= i < rest.len() implies wf_v((#[trigger] rest[i]).value) by {
            assert(rest[i] == fs[i + 1]);
        }
        if scrubbed_v(JsonV::Obj(fs)) {
            assert forall|i: int| 0 <= i < rest.len() implies ((#[trigger] rest[i]).value !is Null
                && scrubbed_v(rest[i].value)) by {
                assert(rest[i] == fs[i + 1]);
            }
        }
        lemma_obj_remove_facts(rest, k);
        let out = obj_remove(fs, k);
        if fs[0].key == k {
            assert forall|b: Seq<u8>| key_below(b, fs) implies #[trigger] key_below(b, out) by {
                assert forall|i: int| 0 <= i < rest.len() implies lex_lt(
                    b,
                    (#[trigger] rest[i]).key,
                ) by {
                    assert(rest[i] == fs[i + 1]);
                }
            }
        } else {
            let tail = obj_remove(rest, k);
            assert(key_below(fs[0].key, rest)) by {
                assert forall|i: int| 0 <= i < rest.len() implies lex_lt(
                    fs[0].key,
                    (#[trigger] rest[i]).key,
                ) by {
                    assert(rest[i] == fs[i + 1]);
                }
            }
            assert(key_below(fs[0].key, tail));
            assert forall|i: int, j: int| 0 <= i < j < out.len() implies lex_lt(
                out[i].key,
                out[j].key,
            ) by {
                assert(out[j] == tail[j - 1]);
                if i > 0 {
                    assert(out[i] == tail[i - 1]);
                }
            }
            assert forall|i: int| 0 <= i < out.len() implies wf_v((#[trigger] out[i]).value) by {
                if i > 0 {
                    assert(out[i] == tail[i - 1]);
                }
            }
            if scrubbed_v(JsonV::Obj(fs)) {
                assert forall|i: int| 0 <= i < out.len() implies ((#[trigger] out[i]).value !is Null
                    && scrubbed_v(out[i].value)) by {
                    if i > 0 {
                        assert(out[i] == tail[i - 1]);
                    }
                }
            }
            assert forall|b: Seq<u8>| key_below(b, fs) implies #[trigger] key_below(b, out) by {
                assert(lex_lt(b, fs[0].key));
                assert forall|i: int| 0 <= i < rest.len() implies lex_lt(
                    b,
                    (#[trigger] rest[i]).key,
                ) by {
                    assert(rest[i] == fs[i + 1]);
                }
                assert(key_below(b, tail));
                assert forall|i: int| 0 <= i < out.len() implies lex_lt(
                    b,
                    (#[trigger] out[i]).key,
                ) by {
                    if i > 0 {
                        assert(out[i] == tail[i - 1]);
                    }
                }
            }
        }
    }
}

/// The version and remaining members of a twin document: the document must
/// be an object whose `$version` member is a non-negative integer; the
/// version member itself leaves the properties.
pub open spec fn twin_of(j: JsonV) -> Option<(int, JsonV)> {
    match j {
        JsonV::Obj(fs) => match obj_get(fs, "$version".spec_bytes()) {
            Option::Some(JsonV::Int(n)) => if n >= 0 {
                Option::Some((n, JsonV::Obj(obj_remove(fs, "$version".spec_bytes()))))
            } else {
                Option::None
            },
            _ => Option::None,
        },
        _ => Option::None,
    }
}

impl Twin {
    /// Reads a twin document: its `$version` member becomes the version, the
    /// remaining members the properties.  The document must be canonical and
    /// the properties must be scrubbed (a snapshot never deletes).
    pub fn from_json(j: &Json) -> (r: Option<Twin>)
        requires
            wf_v(jv(*j)),
        ensures
            match twin_of(jv(*j)) {
                Option::None => r is None,
                Option::Some((v, props)) => match r {
                    Option::Some(t) => t.version == v && jv(t.properties) == props && t.wf(),
                    Option::None => !scrubbed_v(props),
                },
            },
    {
        let fields = match j {
            Json::Obj(fields) => fields,
            _ => {
                return Option::None;
            },
        };
        proof {
            lemma_fields_view_index(fields@);
        }
        let key = crate::bytes::str_bytes("$version");
        let ghost fv = fields_view(fields@);
        let mut version: Option<u64> = Option::None;
        let mut k: usize = 0;
        proof {
            assert(fv.skip(0) =~= fv);
        }
        // Find the version member; the members are in ascending key order,
        // but a plain scan keeps the proof simple.
        loop
            invariant_except_break
                version is None,
            invariant
                k <= fields@.len(),
                key@ == "$version".spec_bytes(),
                fv == fields_view(fields@),
                fv.len() == fields@.len(),
                forall|t: int|
                    0 <= t < fields@.len() ==> (#[trigger] fv[t]) == (FieldV {
                        key: fields@[t].key@,
                        value: jv(fields@[t].value),
                    }),
                obj_get(fv, key@) == obj_get(fv.skip(k as int), key@),
            ensures
                fv == fields_view(fields@),
                match version {
                    Option::None => obj_get(fv, key@) matches Option::Some(JsonV::Int(n)) ==> n
                        < 0,
                    Option::Some(v) => obj_get(fv, key@) == Option::Some(JsonV::Int(v as int)),
                },
            decreases fields@.len() - k,
        {
            proof {
                assert(fv.skip(k as int).len() == fv.len() - k);
                if k < fv.len() {
                    assert(fv.skip(k as int)[0] == fv[k as int]);
                    assert(fv.skip(k as int).drop_first() =~= fv.skip(k as int + 1));
                }
            }
            if k == fields.len() {
                proof {
                    assert(fv.skip(k as int) =~= Seq::<FieldV>::empty());
                }
                break;
            }
            if bytes_cmp(fields[k].key.as_slice(), key.as_slice()) == 0 {
                match &fields[k].value {
                    Json::Int(n) => {
                        if *n >= 0 {
                            version = Option::Some(*n as u64);
                        }
                        break;
                    },
                    _ => {
                        break;
                    },
                }
            }
            k = k + 1;
        }
        let v = match version {
            Option::None => {
                return Option::None;
            },
            Option::Some(v) => v,
        };
        // Collect the members other than the version member.
        proof {
            lemma_obj_remove_facts(fv, key@);
        }
        let mut props: Vec<JsonField> = Vec::new();
        let mut i: usize = 0;
        proof {
            assert(fv.skip(0) =~= fv);
            assert(fields_view(props@) + obj_remove(fv, key@) =~= obj_remove(fv, key@));
            assert(fields_view(props@) =~= Seq::<FieldV>::empty());
        }
        while i < fields.len()
            invariant
                i <= fields@.len(),
                key@ == "$version".spec_bytes(),
                fv == fields_view(fields@),
                fv.len() == fields@.len(),
                forall|t: int|
                    0 <= t < fields@.len() ==> (#[trigger] fv[t]) == (FieldV {
                        key: fields@[t].key@,
                        value: jv(fields@[t].value),
                    }),
                obj_remove(fv, key@) == fields_view(props@) + obj_remove(
                    fv.skip(i as int),
                    key@,
                ),
            decreases fields@.len() - i,
        {
            proof {
                assert(fv.skip(i as int)[0] == fv[i as int]);
                assert(fv.skip(i as int).drop_first() =~= fv.skip(i as int + 1));
            }
            let ghost props0 = props@;
            if bytes_cmp(fields[i].key.as_slice(), key.as_slice()) != 0 {
                props.push(
                    JsonField {
                        key: copy_bytes(&fields[i].key),
                        value: fields[i].value.deep_copy(),
                    },
                );
                proof {
                    lemma_fields_view_push(props0, props@.last());
                    assert(fields_view(props@) + obj_remove(fv.skip(i as int + 1), key@)
                        =~= fields_view(props0) + obj_remove(fv.skip(i as int), key@));
                }
            }
            i = i + 1;
        }
        proof {
            assert(fv.skip(i as int) =~= Seq::<FieldV>::empty());
            assert(fields_view(props@) =~= obj_remove(fv, key@));
        }
        let properties = Json::Obj(props);
        if crate::jsonio::is_scrubbed(&properties) {
            Option::Some(Twin { version: v, properties })
        } else {
            Option::None
        }
    }
}

/// The version and patch of a twin-update document: its optional `$version`
/// member (a non-negative integer when present) and the remaining members.
pub open spec fn twin_update_of(j: JsonV) -> Option<(Option<int>, JsonV)> {
    match j {
        JsonV::Obj(fs) => match obj_get(fs, "$version".spec_bytes()) {
            Option::Some(JsonV::Int(n)) => if n >= 0 {
                Option::Some(
                    (
                        Option::Some(n as int),
                        JsonV::Obj(obj_remove(fs, "$version".spec_bytes())),
                    ),
                )
            } else {
                Option::None
            },
            Option::Some(_) => Option::None,
            Option::None => Option::Some(
                (Option::None, JsonV::Obj(obj_remove(fs, "$version".spec_bytes()))),
            ),
        },
        _ => Option::None,
    }
}

impl TwinUpdate {
    /// Reads a twin-update document: an optional `$version` member and the
    /// patch itself.  Unlike a snapshot, a patch may hold `null` members,
    /// which mean deletion.
    pub fn from_json(j: &Json) -> (r: Option<TwinUpdate>)
        requires
            wf_v(jv(*j)),
        ensures
            match twin_update_of(jv(*j)) {
                Option::None => r is None,
                Option::Some((v, patch)) => r matches Some(u) && (match (u.version, v) {
                    (Option::None, Option::None) => true,
                    (Option::Some(a), Option::Some(b)) => a as int == b,
                    _ => false,
                }) && jv(u.patch) == patch && wf_v(jv(u.patch)),
            },
    {
        let fields = match j {
            Json::Obj(fields) => fields,
            _ => {
                return Option::None;
            },
        };
        proof {
            lemma_fields_view_index(fields@);
        }
        let key = crate::bytes::str_bytes("$version");
        let ghost fv = fields_view(fields@);
        // Missing, present and usable, or present and unusable.
        let mut version: Option<Option<u64>> = Option::None;
        let mut k: usize = 0;
        proof {
            assert(fv.skip(0) =~= fv);
        }
        loop
            invariant_except_break
                version is None,
            invariant
                k <= fields@.len(),
                key@ == "$version".spec_bytes(),
                fv == fields_view(fields@),
                fv.len() == fields@.len(),
                forall|t: int|
                    0 <= t < fields@.len() ==> (#[trigger] fv[t]) == (FieldV {
                        key: fields@[t].key@,
                        value: jv(fields@[t].value),
                    }),
                obj_get(fv, key@) == obj_get(fv.skip(k as int), key@),
            ensures
                fv == fields_view(fields@),
                match version {
                    Option::None => obj_get(fv, key@) is None,
                    Option::Some(Option::Some(v)) => obj_get(fv, key@) == Option::Some(
                        JsonV::Int(v as int),
                    ),
                    Option::Some(Option::None) => (obj_get(fv, key@) matches Option::Some(x)
                        && (x !is Int || (x matches JsonV::Int(n) && n < 0))),
                },
            decreases fields@.len() - k,
        {
            proof {
                assert(fv.skip(k as int).len() == fv.len() - k);
                if k < fv.len() {
                    assert(fv.skip(k as int)[0] == fv[k as int]);
                    assert(fv.skip(k as int).drop_first() =~= fv.skip(k as int + 1));
                }
            }
            if k == fields.len() {
                proof {
                    assert(fv.skip(k as int) =~= Seq::<FieldV>::empty());
                }
                break;
            }
            if bytes_cmp(fields[k].key.as_slice(), key.as_slice()) == 0 {
                match &fields[k].value {
                    Json::Int(n) => {
                        if *n >= 0 {
                            version = Option::Some(Option::Some(*n as u64));
                        } else {
                            version = Option::Some(Option::None);
                        }
                        break;
                    },
                    _ => {
                        version = Option::Some(Option::None);
                        break;
                    },
                }
            }
            k = k + 1;
        }
        let version = match version {
            Option::None => Option::None,
            Option::Some(Option::Some(v)) => Option::Some(v),
            Option::Some(Option::None) => {
                return Option::None;
            },
        };
        proof {
            lemma_obj_remove_facts(fv, key@);
        }
        let mut props: Vec<JsonField> = Vec::new();
        let mut i: usize = 0;
        proof {
            assert(fv.skip(0) =~= fv);
            assert(fields_view(props@) + obj_remove(fv, key@) =~= obj_remove(fv, key@));
            assert(fields_view(props@) =~= Seq::<FieldV>::empty());
        }
        while i < fields.len()
            invariant
                i <= fields@.len(),
                key@ == "$version".spec_bytes(),
                fv == fields_view(fields@),
                fv.len() == fields@.len(),
                forall|t: int|
                    0 <= t < fields@.len() ==> (#[trigger] fv[t]) == (FieldV {
                        key: fields@[t].key@,
                        value: jv(fields@[t].value),
                    }),
                obj_remove(fv, key@) == fields_view(props@) + obj_remove(
                    fv.skip(i as int),
                    key@,
                ),
            decreases fields@.len() - i,
        {
            proof {
                assert(fv.skip(i as int)[0] == fv[i as int]);
                assert(fv.skip(i as int).drop_first() =~= fv.skip(i as int + 1));
            }
            let ghost props0 = props@;
            if bytes_cmp(fields[i].key.as_slice(), key.as_slice()) != 0 {
                props.push(
                    JsonField {
                        key: copy_bytes(&fields[i].key),
                        value: fields[i].value.deep_copy(),
                    },
                );
                proof {
                    lemma_fields_view_push(props0, props@.last());
                    assert(fields_view(props@) + obj_remove(fv.skip(i as int + 1), key@)
                        =~= fields_view(props0) + obj_remove(fv.skip(i as int), key@));
                }
            }
            i = i + 1;
        }
        proof {
            assert(fv.skip(i as int) =~= Seq::<FieldV>::empty());
            assert(fields_view(props@) =~= obj_remove(fv, key@));
        }
        Option::Some(TwinUpdate { version, patch: Json::Obj(props) })
    }
}

/// Reads a twin snapshot out of an inbound payload: the bytes are parsed by
/// the JSON codec and the document is read as a twin.
pub fn twin_from_bytes(payload: &[u8]) -> (r: Option<Twin>)
    ensures
        match crate::jsonio::parsed_json(payload@) {
            Option::None => r is None,
            Option::Some(doc) => match twin_of(jv(doc)) {
                Option::None => r is None,
                Option::Some((v, props)) => match r {
                    Option::Some(t) => t.version == v && jv(t.properties) == props && t.wf(),
                    Option::None => !scrubbed_v(props),
                },
            },
        },
{
    match crate::jsonio::parse_json(payload) {
        Option::None => Option::None,
        Option::Some(doc) => Twin::from_json(&doc),
    }
}

/// Reads a twin update out of an inbound payload.
pub fn twin_update_from_bytes(payload: &[u8]) -> (r: Option<TwinUpdate>)
    ensures
        match crate::jsonio::parsed_json(payload@) {
            Option::None => r is None,
            Option::Some(doc) => match twin_update_of(jv(doc)) {
                Option::None => r is None,
                Option::Some((v, patch)) => r matches Some(u) && (match (u.version, v) {
                    (Option::None, Option::None) => true,
                    (Option::Some(a), Option::Some(b)) => a as int == b,
                    _ => false,
                }) && jv(u.patch) == patch && wf_v(jv(u.patch)),
            },
        },
{
    match crate::jsonio::parse_json(payload) {
        Option::None => Option::None,
        Option::Some(doc) => TwinUpdate::from_json(&doc),
    }
}

/// An inbound patch is applied only when the version in its body agrees with
/// the version in its topic.
pub fn update_matches_version(update: &TwinUpdate, version: u64) -> (r: bool)
    ensures
        r <==> update.version == Option::Some(version),
{
    match update.version {
        Option::Some(v) => v == version,
        Option::None => false,
    }
}

/// Appending one member appends its view.
proof fn lemma_fields_view_push(s: Seq<JsonField>, f: JsonField)
    ensures
        fields_view(s.push(f)) =~= fields_view(s) + seq![
            FieldV { key: f.key@, value: jv(f.value) },
        ],
    decreases s.len(),
{
    lemma_fields_view_index(s.push(f));
    lemma_fields_view_index(s);
}

/// Desired versions are monotone across any prefix of a run.
///
/// Every reconciler operation leaves the desired version no smaller than it
/// was, so along any run of operations the version observed at an earlier
/// point is never above the version observed later — notifications are
/// dispatched in non-decreasing version order.
pub proof fn lemma_desired_version_monotone(versions: Seq<int>)
    requires
        forall|i: int| 0 <= i < versions.len() - 1 ==> #[trigger] versions[i] <= versions[i + 1],
    ensures
        forall|i: int, j: int| 0 <= i <= j < versions.len() ==> versions[i] <= versions[j],
{
    assert forall|i: int, j: int| 0 <= i <= j < versions.len() implies versions[i] <= versions[j] by {
        lemma_chain_le(versions, i, j);
    }
}

proof fn lemma_chain_le(versions: Seq<int>, i: int, j: int)
    requires
        forall|t: int| 0 <= t < versions.len() - 1 ==> #[trigger] versions[t] <= versions[t + 1],
        0 <= i <= j < versions.len(),
    ensures
        versions[i] <= versions[j],
    decreases j - i,
{
    if i < j {
        lemma_chain_le(versions, i + 1, j);
    }
}

/// The view of a suffix of a patch list is the suffix of its view.
proof fn lemma_patch_views_skip(s: Seq<VersionedPatch>, k: int)
    requires
        0 <= k <= s.len(),
    ensures
        patch_views(s.skip(k)) == patch_views(s).skip(k),
    decreases s.len(),
{
    lemma_patch_views_index(s);
    lemma_patch_views_index(s.skip(k));
    assert forall|i: int| 0 <= i < s.len() - k implies #[trigger] patch_views(s.skip(k))[i]
        == patch_views(s).skip(k)[i] by {
        assert(s.skip(k)[i] == s[k + i]);
        assert(patch_views(s).skip(k)[i] == patch_views(s)[k + i]);
    }
    assert(patch_views(s.skip(k)) =~= patch_views(s).skip(k));
}

} // verus!
