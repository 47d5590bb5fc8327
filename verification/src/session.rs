//! Transport session decisions.
//!
//! One MQTT session carries everything.  The session's visible state is
//! either ready or in a connection error; on an error the supervisor decides
//! whether to rotate the password, ask for a credential refresh, or simply
//! wait; and on the first return to ready after an error the twin middleware
//! requests a full snapshot, so the twin catches up with whatever the
//! session missed.

use vstd::prelude::*;
use vstd::string::StringExecFns;

verus! {

/// The class of a connection error, as far as the supervisor cares.
pub enum ErrorClass {
    /// The broker refused the credentials.
    NotAuthorized,
    /// The broker refused the user name or password.
    BadUserNamePassword,
    /// The broker reported itself unavailable.
    ServiceUnavailable,
    /// Anything else.
    OtherError,
}

/// The session state the library publishes.
pub enum SessionState {
    /// The session is up.
    Ready,
    /// The session is down with the given cause.
    ConnectionError(ErrorClass),
}

/// What the supervisor does about a connection error.
pub enum ReconnectAction {
    /// A newer registration is available: install its password and let the
    /// transport reconnect.
    UpdatePassword,
    /// The error is an authentication-class refusal: ask the credential
    /// engine for a refresh, then wait before reconnecting.
    RequestRefreshAndWait,
    /// Wait and let the transport reconnect on its own.
    Wait,
}

/// The supervisor's reconnect policy: a fresh registration wins; otherwise
/// an authentication-class refusal asks for a refresh; anything else waits.
pub fn reconnect_decision(has_new_registration: bool, cause: &ErrorClass) -> (r: ReconnectAction)
    ensures
        r is UpdatePassword <==> has_new_registration,
        r is RequestRefreshAndWait <==> (!has_new_registration && (cause is NotAuthorized
            || cause is BadUserNamePassword || cause is ServiceUnavailable)),
        r is Wait <==> (!has_new_registration && cause is OtherError),
{
    if has_new_registration {
        ReconnectAction::UpdatePassword
    } else {
        match cause {
            ErrorClass::NotAuthorized => ReconnectAction::RequestRefreshAndWait,
            ErrorClass::BadUserNamePassword => ReconnectAction::RequestRefreshAndWait,
            ErrorClass::ServiceUnavailable => ReconnectAction::RequestRefreshAndWait,
            ErrorClass::OtherError => ReconnectAction::Wait,
        }
    }
}

/// Tracks the disconnect flag across a state change and says when to request
/// a full twin snapshot: exactly on an error-to-ready edge, so the twin is
/// brought back in line with the server after every outage.
pub fn on_state_change(was_disconnected: bool, state: &SessionState) -> (r: (bool, bool))
    ensures
        r.0 <==> state is ConnectionError,
        r.1 <==> (state is Ready && was_disconnected),
{
    match state {
        SessionState::Ready => (false, was_disconnected),
        SessionState::ConnectionError(_) => (true, false),
    }
}

/// The broker user name: `{host}/{device-id}/?api-version=2018-06-30`.
pub fn mqtt_username(host: &str, device_id: &str) -> (r: String)
    ensures
        r@ == host@ + "/"@ + device_id@ + "/?api-version=2018-06-30"@,
{
    let mut out = String::from_str(host);
    out.append("/");
    out.append(device_id);
    out.append("/?api-version=2018-06-30");
    out
}

/// The broker port.
pub fn broker_port() -> (r: u16)
    ensures
        r == 8883,
{
    8883
}

/// The session keep-alive, in seconds.
pub fn keep_alive_secs() -> (r: u64)
    ensures
        r == 300,
{
    300
}

/// The maximum number of in-flight publishes.  One at a time keeps the
/// broker's acknowledgments in publish order, which the outbox depends on.
pub fn max_inflight_publishes() -> (r: u16)
    ensures
        r == 1,
{
    1
}

} // verus!
