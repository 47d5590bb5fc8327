//! The configuration row and its schema migrations.
//!
//! The store keeps one configuration row.  Its schema version gates opening:
//! an unknown version refuses to open, a legacy version is migrated forward,
//! step by step, to the current version.  The migration to the current
//! schema derives the instance host from the legacy provisioning URL and
//! splits the legacy composite `workspace:device` identifier; every other
//! field is carried over unchanged.

use vstd::prelude::*;
use vstd::string::{StrSliceExecFns, StringExecFns, StringSliceAdditionalSpecFns};

use crate::json::bytes_cmp;

verus! {

/// The schema versions a database file can be authored by.
pub enum SchemaVersion {
    V0_1_3,
    V1_0_1,
    V1_1_0,
    V1_2_0,
}

/// The version the store writes.
pub fn current_schema_version() -> (r: SchemaVersion)
    ensures
        r is V1_2_0,
{
    SchemaVersion::V1_2_0
}

/// The version string the store writes.
pub fn current_schema_version_text() -> (r: Vec<u8>)
    ensures
        r@ == "1.2.0".spec_bytes(),
{
    crate::bytes::str_bytes("1.2.0")
}

/// Reads a version string.  An unknown version yields `None`: a file
/// authored by a future version must not be opened.
pub fn parse_schema_version(text: &[u8]) -> (r: Option<SchemaVersion>)
    ensures
        match r {
            Option::Some(SchemaVersion::V0_1_3) => text@ == "0.1.3".spec_bytes(),
            Option::Some(SchemaVersion::V1_0_1) => text@ == "1.0.1".spec_bytes(),
            Option::Some(SchemaVersion::V1_1_0) => text@ == "1.1.0".spec_bytes(),
            Option::Some(SchemaVersion::V1_2_0) => text@ == "1.2.0".spec_bytes(),
            Option::None => text@ != "0.1.3".spec_bytes() && text@ != "1.0.1".spec_bytes()
                && text@ != "1.1.0".spec_bytes() && text@ != "1.2.0".spec_bytes(),
        },
{
    if bytes_cmp(text, crate::bytes::str_bytes("0.1.3").as_slice()) == 0 {
        Option::Some(SchemaVersion::V0_1_3)
    } else if bytes_cmp(text, crate::bytes::str_bytes("1.0.1").as_slice()) == 0 {
        Option::Some(SchemaVersion::V1_0_1)
    } else if bytes_cmp(text, crate::bytes::str_bytes("1.1.0").as_slice()) == 0 {
        Option::Some(SchemaVersion::V1_1_0)
    } else if bytes_cmp(text, crate::bytes::str_bytes("1.2.0").as_slice()) == 0 {
        Option::Some(SchemaVersion::V1_2_0)
    } else {
        Option::None
    }
}

/// The index of the first occurrence of `c` in `s`.
pub open spec fn find_char(s: Seq<char>, c: char) -> Option<int>
    decreases s.len(),
{
    if s.len() == 0 {
        Option::None
    } else if s[0] == c {
        Option::Some(0)
    } else {
        match find_char(s.drop_first(), c) {
            Option::None => Option::None,
            Option::Some(i) => Option::Some(i + 1),
        }
    }
}

proof fn lemma_find_char_at(s: Seq<char>, c: char, i: int)
    requires
        0 <= i < s.len(),
        s[i] == c,
        forall|j: int| 0 <= j < i ==> s[j] != c,
    ensures
        find_char(s, c) == Option::Some(i),
    decreases i,
{
    if i > 0 {
        assert forall|j: int| 0 <= j < i - 1 implies s.drop_first()[j] != c by {
            assert(s.drop_first()[j] == s[j + 1]);
        }
        assert(s.drop_first()[i - 1] == s[i]);
        lemma_find_char_at(s.drop_first(), c, i - 1);
    }
}

proof fn lemma_find_char_none(s: Seq<char>, c: char)
    requires
        forall|j: int| 0 <= j < s.len() ==> s[j] != c,
    ensures
        find_char(s, c) is None,
    decreases s.len(),
{
    if s.len() > 0 {
        assert forall|j: int| 0 <= j < s.drop_first().len() implies s.drop_first()[j] != c by {
            assert(s.drop_first()[j] == s[j + 1]);
        }
        lemma_find_char_none(s.drop_first(), c);
    }
}

/// Splits a legacy composite `workspace:device` identifier at its first
/// colon into the workspace and device identifiers.
pub fn convert_iothub_device_id_to_workspace_id_and_device_id(composite: &str) -> (r: Option<
    (String, String),
>)
    ensures
        match find_char(composite@, ':') {
            Option::None => r is None,
            Option::Some(i) => r matches Some(p) && p.0@ == composite@.take(i) && p.1@
                == composite@.skip(i + 1),
        },
{
    let n = composite.unicode_len();
    let mut k: usize = 0;
    while k < n
        invariant
            n == composite@.len(),
            k <= n,
            forall|j: int| 0 <= j < k ==> composite@[j] != ':',
        decreases n - k,
    {
        if composite.get_char(k) == ':' {
            proof {
                lemma_find_char_at(composite@, ':', k as int);
            }
            let workspace = composite.substring_char(0, k);
            let device = composite.substring_char(k + 1, n);
            return Option::Some((String::from_str(workspace), String::from_str(device)));
        }
        k = k + 1;
    }
    proof {
        lemma_find_char_none(composite@, ':');
    }
    Option::None
}

/// What the URL library reports as the host of a URL, if it has one.
pub uninterp spec fn host_of(url: Seq<char>) -> Option<Seq<char>>;

/// Relies on http::Uri: parses a URL and reports its host, a function of the
/// text alone.
#[verifier::external_body]
fn uri_host(url: &str) -> (r: Option<String>)
    ensures
        match host_of(url@) {
            Option::None => r is None,
            Option::Some(h) => r matches Some(s) && s@ == h,
        },
{
    url.parse::<http::Uri>().ok().and_then(|u| u.host().map(|h| h.to_owned()))
}

/// The string with every leading occurrence of `p` removed.
pub open spec fn trimmed_prefix(s: Seq<char>, p: Seq<char>) -> Seq<char>
    decreases s.len(),
{
    if p.len() == 0 {
        s
    } else if p.len() <= s.len() && s.take(p.len() as int) == p {
        trimmed_prefix(s.skip(p.len() as int), p)
    } else {
        s
    }
}

pub fn has_char_prefix(s: &str, s_len: usize, p: &str, p_len: usize) -> (r: bool)
    requires
        s_len == s@.len(),
        p_len == p@.len(),
    ensures
        r <==> (p@.len() <= s@.len() && s@.take(p@.len() as int) == p@),
{
    if p_len > s_len {
        return false;
    }
    for k in 0..p_len
        invariant
            s_len == s@.len(),
            p_len == p@.len(),
            p@.len() <= s@.len(),
            forall|j: int| 0 <= j < k ==> s@[j] == p@[j],
    {
        if s.get_char(k) != p.get_char(k) {
            proof {
                if s@.take(p@.len() as int) == p@ {
                    assert(s@.take(p@.len() as int)[k as int] == p@[k as int]);
                }
            }
            return false;
        }
    }
    proof {
        assert(s@.take(p@.len() as int) =~= p@);
    }
    true
}

/// Derives the platform instance URL from a legacy provisioning-service URL:
/// the host, with any leading `device-provisioning.` labels removed, under
/// `https://` and with a trailing slash.
pub fn convert_dps_url_to_instance_url(dps_url: &str) -> (r: Option<String>)
    ensures
        match host_of(dps_url@) {
            Option::None => r is None,
            Option::Some(h) => r matches Some(s) && s@ == "https://"@ + trimmed_prefix(
                h,
                "device-provisioning."@,
            ) + "/"@,
        },
{
    let host = match uri_host(dps_url) {
        Option::None => {
            return Option::None;
        },
        Option::Some(h) => h,
    };
    let prefix = "device-provisioning.";
    proof {
        reveal_strlit("device-provisioning.");
    }
    let prefix_len = prefix.unicode_len();
    let mut cur = host;
    loop
        invariant
            prefix_len == prefix@.len(),
            prefix@ == "device-provisioning."@,
            prefix@.len() > 0,
            trimmed_prefix(cur@, prefix@) == (match host_of(dps_url@) {
                Option::Some(h) => trimmed_prefix(h, prefix@),
                Option::None => Seq::<char>::empty(),
            }),
        ensures
            cur@ == (match host_of(dps_url@) {
                Option::Some(h) => trimmed_prefix(h, prefix@),
                Option::None => Seq::<char>::empty(),
            }),
        decreases cur@.len(),
    {
        let cur_len = cur.unicode_len();
        if !has_char_prefix(cur.as_str(), cur_len, prefix, prefix_len) {
            break;
        }
        if prefix_len == 0 {
            break;
        }
        let stripped = cur.as_str().substring_char(prefix_len, cur_len);
        cur = String::from_str(stripped);
    }
    let mut out = String::from_str("https://");
    out.append(cur.as_str());
    out.append("/");
    Option::Some(out)
}

/// The configuration row at the current schema: every field the store keeps
/// for one device.
pub struct ConfigRecord {
    pub instance_url: String,
    pub provisioning_token: String,
    pub registration_token: String,
    pub rt_expiration: Option<i64>,
    pub requested_device_id: Option<String>,
    pub workspace_id: String,
    pub device_id: String,
}

/// A configuration row as an older schema stored it: the instance URL may
/// still be the legacy provisioning URL, and the device identifier may still
/// be the composite `workspace:device` form.
pub struct LegacyConfigRow {
    pub version: SchemaVersion,
    pub instance_url: Option<String>,
    pub dps_url: Option<String>,
    pub provisioning_token: String,
    pub registration_token: String,
    pub rt_expiration: Option<i64>,
    pub requested_device_id: Option<String>,
    pub composite_device_id: Option<String>,
    pub workspace_id: Option<String>,
    pub device_id: Option<String>,
}

/// Why a legacy row cannot be carried to the current schema.
#[derive(Debug)]
pub enum MigrationError {
    /// A legacy row without the provisioning-service URL.
    MissingInstanceUrl,
    /// The provisioning-service URL has no host.
    InvalidInstanceUrl,
    /// A legacy row without the composite device identifier.
    MissingDeviceId,
    /// The composite identifier has no colon.
    InvalidDeviceId,
}

/// Carries a configuration row authored by any known schema version to the
/// current version.
///
/// Every field present in the old row is preserved: the secrets, the expiry
/// and the requested device identifier are carried over unchanged; in a row
/// older than the current version the instance URL is derived from the
/// legacy provisioning URL and the workspace and device identifiers are
/// split out of the composite identifier.
pub fn migrate_config(row: &LegacyConfigRow) -> (r: Result<ConfigRecord, MigrationError>)
    ensures
        match r {
            Result::Ok(c) => {
                &&& c.provisioning_token@ == row.provisioning_token@
                &&& c.registration_token@ == row.registration_token@
                &&& c.rt_expiration == row.rt_expiration
                &&& (match (c.requested_device_id, row.requested_device_id) {
                    (Option::None, Option::None) => true,
                    (Option::Some(a), Option::Some(b)) => a@ == b@,
                    _ => false,
                })
                &&& (match row.version {
                    SchemaVersion::V1_2_0 => {
                        &&& (row.instance_url matches Option::Some(u) && c.instance_url@ == u@)
                        &&& (row.workspace_id matches Option::Some(w) && c.workspace_id@ == w@)
                        &&& (row.device_id matches Option::Some(d) && c.device_id@ == d@)
                    },
                    _ => {
                        &&& (row.dps_url matches Option::Some(u) && host_of(
                            u@,
                        ) matches Option::Some(h) && c.instance_url@ == "https://"@
                            + trimmed_prefix(h, "device-provisioning."@) + "/"@)
                        &&& (row.composite_device_id matches Option::Some(
                            d,
                        ) && find_char(d@, ':') matches Option::Some(i) && c.workspace_id@
                            == d@.take(i) && c.device_id@ == d@.skip(i + 1))
                    },
                })
            },
            Result::Err(_) => match row.version {
                SchemaVersion::V1_2_0 => row.instance_url is None || row.workspace_id is None
                    || row.device_id is None,
                _ => row.dps_url is None || (row.dps_url matches Option::Some(u) && host_of(u@)
                    is None) || row.composite_device_id is None || (
                row.composite_device_id matches Option::Some(d) && find_char(d@, ':') is None),
            },
        },
        r is Ok ==> (match row.version {
            SchemaVersion::V1_2_0 => row.instance_url is Some && row.workspace_id is Some
                && row.device_id is Some,
            _ => row.dps_url is Some && row.composite_device_id is Some,
        }),
{
    match row.version {
        SchemaVersion::V1_2_0 => {
            let instance_url = match &row.instance_url {
                Option::None => {
                    return Result::Err(MigrationError::MissingInstanceUrl);
                },
                Option::Some(u) => u.clone(),
            };
            let workspace_id = match &row.workspace_id {
                Option::None => {
                    return Result::Err(MigrationError::MissingDeviceId);
                },
                Option::Some(w) => w.clone(),
            };
            let device_id = match &row.device_id {
                Option::None => {
                    return Result::Err(MigrationError::MissingDeviceId);
                },
                Option::Some(d) => d.clone(),
            };
            Result::Ok(
                ConfigRecord {
                    instance_url,
                    provisioning_token: row.provisioning_token.clone(),
                    registration_token: row.registration_token.clone(),
                    rt_expiration: row.rt_expiration,
                    requested_device_id: clone_opt_string(&row.requested_device_id),
                    workspace_id,
                    device_id,
                },
            )
        },
        _ => {
            let dps_url = match &row.dps_url {
                Option::None => {
                    return Result::Err(MigrationError::MissingInstanceUrl);
                },
                Option::Some(u) => u,
            };
            let instance_url = match convert_dps_url_to_instance_url(dps_url.as_str()) {
                Option::None => {
                    return Result::Err(MigrationError::InvalidInstanceUrl);
                },
                Option::Some(u) => u,
            };
            let composite = match &row.composite_device_id {
                Option::None => {
                    return Result::Err(MigrationError::MissingDeviceId);
                },
                Option::Some(d) => d,
            };
            let (workspace_id, device_id) =
                match convert_iothub_device_id_to_workspace_id_and_device_id(composite.as_str()) {
                Option::None => {
                    return Result::Err(MigrationError::InvalidDeviceId);
                },
                Option::Some(p) => p,
            };
            Result::Ok(
                ConfigRecord {
                    instance_url,
                    provisioning_token: row.provisioning_token.clone(),
                    registration_token: row.registration_token.clone(),
                    rt_expiration: row.rt_expiration,
                    requested_device_id: clone_opt_string(&row.requested_device_id),
                    workspace_id,
                    device_id,
                },
            )
        },
    }
}

/// Copies an optional string.
pub fn clone_opt_string(s: &Option<String>) -> (r: Option<String>)
    ensures
        match (r, s) {
            (Option::None, Option::None) => true,
            (Option::Some(a), Option::Some(b)) => a@ == b@,
            _ => false,
        },
{
    match s {
        Option::None => Option::None,
        Option::Some(v) => Option::Some(v.clone()),
    }
}

} // verus!
