//! The credential lifecycle.
//!
//! A long-lived provisioning secret is exchanged for a rolling registration
//! secret, which in turn buys short-lived session credentials.  The
//! decisions of the provisioning and refresh loops are pure functions here;
//! the loops that call the platform live outside the library.  Times are
//! unix seconds.

use vstd::prelude::*;

use vstd::string::StringSliceAdditionalSpecFns;

use crate::bytes::find_byte;
use crate::duration::DurationWrapper;
use crate::query::{copy_range, find_byte_in_range};

verus! {

/// The long-lived provisioning secret.
pub struct ProvisioningToken {
    pub token: String,
}

/// The rolling registration secret and its expiry, when one is known.
pub struct RegistrationToken {
    pub token: String,
    pub expiration: Option<i64>,
}

impl RegistrationToken {
    /// A secret without an expiry never counts as expired.
    pub fn is_expired(&self, now: i64) -> (r: bool)
        ensures
            r <==> (self.expiration matches Option::Some(e) && e < now),
    {
        match self.expiration {
            Option::None => false,
            Option::Some(e) => e < now,
        }
    }
}

/// Why starting a provisioning operation failed.
#[derive(Debug)]
pub enum InitProvisioningError {
    /// The provisioning secret was refused: terminal.
    InvalidProvisioningToken,
    /// The workspace is disabled.
    WorkspaceDisabled,
    /// Anything else: transient.
    Other,
}

/// Why completing a provisioning operation failed.
#[derive(Debug)]
pub enum CompletionError {
    /// The operation has not been approved yet.
    NotReady,
    /// The operation was closed before it was approved.
    Closed(ProvisioningOperationClosedReason),
    /// The workspace is disabled.
    WorkspaceDisabled,
    /// Anything else: transient.
    Other,
}

/// Why a registration-secret refresh failed.
#[derive(Debug)]
pub enum RefreshError {
    /// The workspace is disabled.
    WorkspaceDisabled,
    /// Anything else: transient.
    Other,
}

/// Why a closed provisioning operation was closed.
#[derive(Debug)]
pub enum ProvisioningOperationClosedReason {
    /// A technician cancelled it: provisioning must not be retried.
    Cancelled,
    /// It was closed for another reason; a fresh operation may be started.
    Other,
}

/// Why a device registration failed.
#[derive(Debug)]
pub enum RegistrationError {
    /// The registration secret was refused.
    InvalidRegistrationToken,
    /// The workspace is disabled.
    WorkspaceDisabled,
    /// Anything else: transient.
    Other,
}

/// The kind of credential a registration response carries.
#[derive(Debug)]
pub enum ConnectionStringType {
    SharedAccessKey,
    SharedAccessSignature,
    AuthorizationHeader,
}

/// A command for the credential engine, stamped with the instant (in the
/// engine's tick scale) at which the need was observed.
pub enum RegistrationCommand {
    /// Refresh the registration secret itself.
    RefreshRegistrationToken { time: i64 },
    /// Refresh the session registration (a new broker password).
    RefreshRegistration { time: i64 },
}

/// A command is acted on only when it is no older than the last attempt of
/// its kind; stale commands were already covered by that attempt.
pub fn should_process_command(command_time: i64, last_attempt: i64) -> (r: bool)
    ensures
        r <==> command_time >= last_attempt,
{
    command_time >= last_attempt
}

/// Whether a queued command still calls for work, against the last attempt
/// of its kind.
pub fn command_due(
    command: &RegistrationCommand,
    last_token_attempt: i64,
    last_registration_attempt: i64,
) -> (r: bool)
    ensures
        match command {
            RegistrationCommand::RefreshRegistrationToken { time } => r <==> time
                >= last_token_attempt,
            RegistrationCommand::RefreshRegistration { time } => r <==> time
                >= last_registration_attempt,
        },
{
    match command {
        RegistrationCommand::RefreshRegistrationToken { time } => should_process_command(
            *time,
            last_token_attempt,
        ),
        RegistrationCommand::RefreshRegistration { time } => should_process_command(
            *time,
            last_registration_attempt,
        ),
    }
}

/// The problem type the platform uses for a cancelled provisioning
/// operation.
pub fn cancelled_problem_type() -> (r: Vec<u8>)
    ensures
        r@ == "/problems/deviceProvisioning/provisioningOperationCancelled".spec_bytes(),
{
    crate::bytes::str_bytes("/problems/deviceProvisioning/provisioningOperationCancelled")
}

/// Classifies the reply to a provisioning `init` request: a 2xx status is
/// success; 401 means the provisioning secret was refused; 423 means the
/// workspace is disabled; everything else is transient.
pub fn init_outcome(status: u16) -> (r: Option<InitProvisioningError>)
    ensures
        match r {
            Option::None => 200 <= status < 300,
            Option::Some(e) => !(200 <= status < 300) && (match e {
                InitProvisioningError::InvalidProvisioningToken => status == 401,
                InitProvisioningError::WorkspaceDisabled => status == 423,
                InitProvisioningError::Other => status != 401 && status != 423,
            }),
        },
{
    if 200 <= status && status < 300 {
        Option::None
    } else if status == 401 {
        Option::Some(InitProvisioningError::InvalidProvisioningToken)
    } else if status == 423 {
        Option::Some(InitProvisioningError::WorkspaceDisabled)
    } else {
        Option::Some(InitProvisioningError::Other)
    }
}

/// Classifies the reply to a provisioning `complete` request: 202 means the
/// operation is not approved yet; 410 means it was closed, cancelled exactly
/// when the problem type says so; 423 means the workspace is disabled; any
/// other 2xx status is success; everything else is transient.
pub fn completion_outcome(status: u16, problem_type: Option<&[u8]>) -> (r: Option<
    CompletionError,
>)
    ensures
        match r {
            Option::None => 200 <= status < 300 && status != 202,
            Option::Some(e) => match e {
                CompletionError::NotReady => status == 202,
                CompletionError::Closed(reason) => status == 410 && (match reason {
                    ProvisioningOperationClosedReason::Cancelled => problem_type matches
                        Option::Some(t)
                        && t@ == "/problems/deviceProvisioning/provisioningOperationCancelled".spec_bytes(),
                    ProvisioningOperationClosedReason::Other => !(problem_type matches
                        Option::Some(t)
                        && t@ == "/problems/deviceProvisioning/provisioningOperationCancelled".spec_bytes()),
                }),
                CompletionError::WorkspaceDisabled => status == 423,
                CompletionError::Other => status != 202 && status != 410 && status != 423 && !(200
                    <= status < 300),
            },
        },
{
    if status == 202 {
        Option::Some(CompletionError::NotReady)
    } else if status == 410 {
        let cancelled = match problem_type {
            Option::Some(t) => {
                let expected = cancelled_problem_type();
                crate::json::bytes_cmp(t, expected.as_slice()) == 0
            },
            Option::None => false,
        };
        if cancelled {
            Option::Some(CompletionError::Closed(ProvisioningOperationClosedReason::Cancelled))
        } else {
            Option::Some(CompletionError::Closed(ProvisioningOperationClosedReason::Other))
        }
    } else if status == 423 {
        Option::Some(CompletionError::WorkspaceDisabled)
    } else if 200 <= status && status < 300 {
        Option::None
    } else {
        Option::Some(CompletionError::Other)
    }
}

/// Classifies the reply to a registration request: 401 means the
/// registration secret was refused; 423 means the workspace is disabled.
pub fn register_outcome(status: u16) -> (r: Option<RegistrationError>)
    ensures
        match r {
            Option::None => 200 <= status < 300,
            Option::Some(e) => !(200 <= status < 300) && (match e {
                RegistrationError::InvalidRegistrationToken => status == 401,
                RegistrationError::WorkspaceDisabled => status == 423,
                RegistrationError::Other => status != 401 && status != 423,
            }),
        },
{
    if 200 <= status && status < 300 {
        Option::None
    } else if status == 401 {
        Option::Some(RegistrationError::InvalidRegistrationToken)
    } else if status == 423 {
        Option::Some(RegistrationError::WorkspaceDisabled)
    } else {
        Option::Some(RegistrationError::Other)
    }
}

/// Classifies the reply to a registration-secret refresh: 423 means the
/// workspace is disabled; everything else that is not success is transient.
pub fn refresh_outcome(status: u16) -> (r: Option<RefreshError>)
    ensures
        match r {
            Option::None => 200 <= status < 300,
            Option::Some(e) => !(200 <= status < 300) && (match e {
                RefreshError::WorkspaceDisabled => status == 423,
                RefreshError::Other => status != 423,
            }),
        },
{
    if 200 <= status && status < 300 {
        Option::None
    } else if status == 423 {
        Option::Some(RefreshError::WorkspaceDisabled)
    } else {
        Option::Some(RefreshError::Other)
    }
}

/// What the provisioning loop does after a failed `init` call.
pub enum InitDecision {
    /// The provisioning secret is invalid: fail terminally.
    FailInvalidToken,
    /// Wait and try again.
    RetryAfterDelay,
}

pub fn init_decision(e: &InitProvisioningError) -> (r: InitDecision)
    ensures
        r is FailInvalidToken <==> e is InvalidProvisioningToken,
{
    match e {
        InitProvisioningError::InvalidProvisioningToken => InitDecision::FailInvalidToken,
        _ => InitDecision::RetryAfterDelay,
    }
}

/// What the provisioning loop does after a failed `complete` call.
pub enum CompletionDecision {
    /// The operation was cancelled: fail terminally.
    FailTerminal,
    /// The operation was closed without being cancelled: start a fresh one.
    RestartOperation,
    /// Not approved yet, or a transient failure: wait and poll again.
    RetryAfterDelay,
}

pub fn completion_decision(e: &CompletionError) -> (r: CompletionDecision)
    ensures
        r is FailTerminal <==> (e matches CompletionError::Closed(
            ProvisioningOperationClosedReason::Cancelled,
        )),
        r is RestartOperation <==> (e matches CompletionError::Closed(
            ProvisioningOperationClosedReason::Other,
        )),
        r is RetryAfterDelay <==> !(e is Closed),
{
    match e {
        CompletionError::Closed(ProvisioningOperationClosedReason::Cancelled) => {
            CompletionDecision::FailTerminal
        },
        CompletionError::Closed(ProvisioningOperationClosedReason::Other) => {
            CompletionDecision::RestartOperation
        },
        _ => CompletionDecision::RetryAfterDelay,
    }
}

/// What the provisioning loop does after a failed registration call.
pub enum RegisterDecision {
    /// The registration secret is invalid: run provisioning again.
    RestartProvisioning,
    /// Wait and try again with the same secret.
    RetryAfterDelay,
}

pub fn register_decision(e: &RegistrationError) -> (r: RegisterDecision)
    ensures
        r is RestartProvisioning <==> e is InvalidRegistrationToken,
{
    match e {
        RegistrationError::InvalidRegistrationToken => RegisterDecision::RestartProvisioning,
        _ => RegisterDecision::RetryAfterDelay,
    }
}

/// Whether a failed registration check still lets the cached secret count as
/// valid: only an explicit refusal of the secret invalidates it; a disabled
/// workspace or a transient failure falls back to the local expiry.
pub fn registration_check_still_valid(e: &RegistrationError) -> (r: bool)
    ensures
        r <==> !(e is InvalidRegistrationToken),
{
    !matches!(e, RegistrationError::InvalidRegistrationToken)
}

/// Whether the cached registration secret may be reused without
/// provisioning: the provisioning secret and the requested device identifier
/// are unchanged and the cached secret has not expired.
pub fn can_reuse_cached(
    cached_provisioning_token: &String,
    current_provisioning_token: &String,
    cached_requested_device: &Option<String>,
    current_requested_device: &Option<String>,
    registration_expired: bool,
) -> (r: bool)
    ensures
        r <==> (cached_provisioning_token@ == current_provisioning_token@ && (match (
            cached_requested_device,
            current_requested_device,
        ) {
            (Option::None, Option::None) => true,
            (Option::Some(a), Option::Some(b)) => a@ == b@,
            _ => false,
        }) && !registration_expired),
{
    if registration_expired {
        return false;
    }
    if !cached_provisioning_token.eq(current_provisioning_token) {
        return false;
    }
    match (cached_requested_device, current_requested_device) {
        (Option::None, Option::None) => true,
        (Option::Some(a), Option::Some(b)) => a.eq(b),
        _ => false,
    }
}

/// The session credential must be refreshed once its expiry has passed.
pub fn sas_needs_refresh(now: i64, sas_expiry: i64) -> (r: bool)
    ensures
        r <==> sas_expiry <= now,
{
    sas_expiry <= now
}

/// The registration secret must be refreshed once its expiry has passed; a
/// secret without an expiry never needs one.
pub fn token_needs_refresh(now: i64, expiration: &Option<i64>) -> (r: bool)
    ensures
        r <==> (expiration matches Option::Some(e) && e <= now),
{
    match expiration {
        Option::None => false,
        Option::Some(e) => *e <= now,
    }
}

/// The expiry used in place of a reported one, pre-skewed against clock
/// drift: the midpoint of the remaining lifetime, and in any case at least
/// ten minutes before the reported expiry when more than twenty-five minutes
/// remain.
/// Half of a duration, rounded toward zero.
pub open spec fn half_toward_zero(n: int) -> int {
    if n >= 0 {
        n / 2
    } else {
        -((-n) / 2)
    }
}

pub open spec fn skewed_expiry(expiration: int, now: int) -> int {
    let remaining = expiration - now;
    let midpoint = expiration - half_toward_zero(remaining);
    if remaining > 25 * 60 {
        if expiration - 10 * 60 < midpoint {
            expiration - 10 * 60
        } else {
            midpoint
        }
    } else {
        midpoint
    }
}

pub fn expect_clockskew(expiration: i64, now: i64) -> (r: i64)
    requires
        -0x2000_0000_0000_0000 < expiration < 0x2000_0000_0000_0000,
        -0x2000_0000_0000_0000 < now < 0x2000_0000_0000_0000,
    ensures
        r as int == skewed_expiry(expiration as int, now as int),
{
    let remaining = expiration - now;
    let half = if remaining >= 0 {
        ((remaining as u64) / 2) as i64
    } else {
        -((((-remaining) as u64) / 2) as i64)
    };
    let midpoint = expiration - half;
    if remaining > 25 * 60 {
        let capped = expiration - 10 * 60;
        if capped < midpoint {
            capped
        } else {
            midpoint
        }
    } else {
        midpoint
    }
}

/// A registration response: the broker credentials the platform granted.
pub struct RegistrationResponse {
    pub connection_string: String,
    pub iot_hub_host_name: String,
    pub connection_string_type: ConnectionStringType,
    pub connection_string_expiration: Option<i64>,
    pub token_remaining_lifetime: Option<DurationWrapper>,
}

/// The value of the first `key=value` field of a `;`-separated connection
/// string whose key is `key`.
pub open spec fn cs_field(s: Seq<u8>, key: Seq<u8>) -> Option<Seq<u8>>
    decreases s.len(),
    via cs_field_dec
{
    match find_byte(s, 59) {
        Option::None => cs_part(s, key),
        Option::Some(i) => match cs_part(s.take(i), key) {
            Option::Some(v) => Option::Some(v),
            Option::None => cs_field(s.skip(i + 1), key),
        },
    }
}

#[via_fn]
proof fn cs_field_dec(s: Seq<u8>, key: Seq<u8>) {
    crate::bytes::lemma_find_byte_bounds(s, 59);
}

/// One `key=value` field, split at its first `=`.
pub open spec fn cs_part(p: Seq<u8>, key: Seq<u8>) -> Option<Seq<u8>> {
    match find_byte(p, 61) {
        Option::None => Option::None,
        Option::Some(i) => if p.take(i) == key {
            Option::Some(p.skip(i + 1))
        } else {
            Option::None
        },
    }
}

/// Looks a key up in a `;`-separated connection string.
pub fn cs_lookup(s: &[u8], key: &[u8]) -> (r: Option<Vec<u8>>)
    ensures
        match cs_field(s@, key@) {
            Option::None => r is None,
            Option::Some(v) => r matches Some(b) && b@ == v,
        },
{
    proof {
        assert(s@.skip(0) =~= s@);
    }
    cs_lookup_from(s, key, 0)
}

fn cs_lookup_from(s: &[u8], key: &[u8], from: usize) -> (r: Option<Vec<u8>>)
    requires
        from <= s@.len(),
    ensures
        match cs_field(s@.skip(from as int), key@) {
            Option::None => r is None,
            Option::Some(v) => r matches Some(b) && b@ == v,
        },
    decreases s@.len() - from,
{
    let ghost rest = s@.skip(from as int);
    let s_len = s.len();
    proof {
        crate::bytes::lemma_find_byte_bounds(rest, 59);
    }
    match find_byte_in_range(s, 59, from, s_len) {
        Option::None => {
            proof {
                assert(rest =~= s@.subrange(from as int, s@.len() as int));
            }
            cs_part_exec(s, key, from, s_len)
        },
        Option::Some(semi) => {
            proof {
                assert(rest.take(semi - from) =~= s@.subrange(from as int, semi as int));
                assert(rest.skip(semi - from + 1) =~= s@.skip(semi as int + 1));
            }
            match cs_part_exec(s, key, from, semi) {
                Option::Some(v) => Option::Some(v),
                Option::None => cs_lookup_from(s, key, semi + 1),
            }
        },
    }
}

fn cs_part_exec(s: &[u8], key: &[u8], from: usize, to: usize) -> (r: Option<Vec<u8>>)
    requires
        from <= to <= s@.len(),
    ensures
        match cs_part(s@.subrange(from as int, to as int), key@) {
            Option::None => r is None,
            Option::Some(v) => r matches Some(b) && b@ == v,
        },
{
    let ghost part = s@.subrange(from as int, to as int);
    proof {
        crate::bytes::lemma_find_byte_bounds(part, 61);
    }
    match find_byte_in_range(s, 61, from, to) {
        Option::None => Option::None,
        Option::Some(eq) => {
            proof {
                assert(part.take(eq - from) =~= s@.subrange(from as int, eq as int));
                assert(part.skip(eq - from + 1) =~= s@.subrange(eq as int + 1, to as int));
            }
            let k = copy_range(s, from, eq);
            if crate::json::bytes_cmp(k.as_slice(), key) == 0 {
                Option::Some(copy_range(s, eq + 1, to))
            } else {
                Option::None
            }
        },
    }
}

/// Splits a composite `workspace:device` identifier at its first colon.
pub fn convert_iothub_device_id_to_workspace_id_and_device_id(composite: &[u8]) -> (r: Option<
    (Vec<u8>, Vec<u8>),
>)
    ensures
        match find_byte(composite@, 58) {
            Option::None => r is None,
            Option::Some(i) => r matches Some(p) && p.0@ == composite@.take(i) && p.1@
                == composite@.skip(i + 1),
        },
{
    proof {
        crate::bytes::lemma_find_byte_bounds(composite@, 58);
        assert(composite@.subrange(0, composite@.len() as int) =~= composite@);
    }
    let n = composite.len();
    match find_byte_in_range(composite, 58, 0, n) {
        Option::None => Option::None,
        Option::Some(i) => {
            proof {
                assert(composite@.take(i as int) =~= composite@.subrange(0, i as int));
                assert(composite@.skip(i as int + 1) =~= composite@.subrange(
                    i as int + 1,
                    composite@.len() as int,
                ));
            }
            Option::Some(
                (copy_range(composite, 0, i), copy_range(composite, i + 1, n)),
            )
        },
    }
}

impl RegistrationResponse {
    /// The composite device identifier carried in the connection string's
    /// `DeviceId` field; only a shared-access-signature credential carries
    /// one.
    pub fn iot_hub_device_id(&self) -> (r: Option<Vec<u8>>)
        ensures
            !(self.connection_string_type is SharedAccessSignature) ==> r is None,
            self.connection_string_type is SharedAccessSignature ==> (match cs_field(
                crate::bytes::string_bytes(self.connection_string),
                "DeviceId".spec_bytes(),
            ) {
                Option::None => r is None,
                Option::Some(v) => r matches Some(b) && b@ == v,
            }),
    {
        if !matches!(self.connection_string_type, ConnectionStringType::SharedAccessSignature) {
            return Option::None;
        }
        let raw = crate::bytes::str_bytes(self.connection_string.as_str());
        let key = crate::bytes::str_bytes("DeviceId");
        cs_lookup(raw.as_slice(), key.as_slice())
    }

    /// The broker password carried in the connection string's
    /// `SharedAccessSignature` field.
    pub fn sas(&self) -> (r: Option<Vec<u8>>)
        ensures
            !(self.connection_string_type is SharedAccessSignature) ==> r is None,
            self.connection_string_type is SharedAccessSignature ==> (match cs_field(
                crate::bytes::string_bytes(self.connection_string),
                "SharedAccessSignature".spec_bytes(),
            ) {
                Option::None => r is None,
                Option::Some(v) => r matches Some(b) && b@ == v,
            }),
    {
        if !matches!(self.connection_string_type, ConnectionStringType::SharedAccessSignature) {
            return Option::None;
        }
        let raw = crate::bytes::str_bytes(self.connection_string.as_str());
        let key = crate::bytes::str_bytes("SharedAccessSignature");
        cs_lookup(raw.as_slice(), key.as_slice())
    }

    /// The workspace and device identifiers, split out of the composite
    /// `workspace:device` identifier.
    pub fn workspace_and_device_id(&self) -> (r: Option<(Vec<u8>, Vec<u8>)>)
        ensures
            !(self.connection_string_type is SharedAccessSignature) ==> r is None,
            self.connection_string_type is SharedAccessSignature ==> (match cs_field(
                crate::bytes::string_bytes(self.connection_string),
                "DeviceId".spec_bytes(),
            ) {
                Option::None => r is None,
                Option::Some(composite) => match find_byte(composite, 58) {
                    Option::None => r is None,
                    Option::Some(i) => r matches Some(p) && p.0@ == composite.take(i) && p.1@
                        == composite.skip(i + 1),
                },
            }),
    {
        match self.iot_hub_device_id() {
            Option::None => Option::None,
            Option::Some(composite) => convert_iothub_device_id_to_workspace_id_and_device_id(
                composite.as_slice(),
            ),
        }
    }
}

} // verus!
