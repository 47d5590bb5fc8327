//! MQTT topic names.
//!
//! Topics are built and routed as their UTF-8 bytes.  Outbound telemetry goes
//! to the device's event topic; twin traffic and direct methods use the
//! hub-reserved topic space.

use vstd::prelude::*;
use vstd::string::StringSliceAdditionalSpecFns;

use crate::bytes::{dec_digits, has_prefix, starts_with_bytes, str_bytes, u64_dec};

verus! {

/// The decimal digits of an integer, with a sign for a negative one.
pub open spec fn int_dec_digits(n: int) -> Seq<u8> {
    if n >= 0 {
        dec_digits(n as nat)
    } else {
        seq![45u8] + dec_digits((-n) as nat)
    }
}

/// The topic prefix under which the device publishes telemetry:
/// `devices/{device-id}/messages/events/`.
pub fn publish_topic(device_id: &str) -> (r: Vec<u8>)
    ensures
        r@ == "devices/".spec_bytes() + device_id.spec_bytes()
            + "/messages/events/".spec_bytes(),
{
    let mut out = str_bytes("devices/");
    let mut mid = str_bytes(device_id);
    let mut tail = str_bytes("/messages/events/");
    out.append(&mut mid);
    out.append(&mut tail);
    out
}

/// The topic prefix on which cloud-to-device messages arrive:
/// `devices/{device-id}/messages/devicebound/`.
pub fn c2d_topic(device_id: &str) -> (r: Vec<u8>)
    ensures
        r@ == "devices/".spec_bytes() + device_id.spec_bytes()
            + "/messages/devicebound/".spec_bytes(),
{
    let mut out = str_bytes("devices/");
    let mut mid = str_bytes(device_id);
    let mut tail = str_bytes("/messages/devicebound/");
    out.append(&mut mid);
    out.append(&mut tail);
    out
}

/// The topic on which a direct-method result is published:
/// `$iothub/methods/res/{status}/?$rid={request-id}`.
pub fn response_topic(status: i32, request_id: &str) -> (r: Vec<u8>)
    ensures
        r@ == "$iothub/methods/res/".spec_bytes() + int_dec_digits(status as int)
            + "/?$rid=".spec_bytes() + request_id.spec_bytes(),
{
    let mut out = str_bytes("$iothub/methods/res/");
    let mut digits: Vec<u8> = if status >= 0 {
        u64_dec(status as u64)
    } else {
        let mut d = vec![45u8];
        let mut rest = u64_dec((-(status as i64)) as u64);
        d.append(&mut rest);
        proof {
            assert(d@ =~= int_dec_digits(status as int));
        }
        d
    };
    let mut mid = str_bytes("/?$rid=");
    let mut tail = str_bytes(request_id);
    out.append(&mut digits);
    out.append(&mut mid);
    out.append(&mut tail);
    out
}

/// The topic on which a reported-properties patch is published:
/// `$iothub/twin/PATCH/properties/reported/?$rid={request-id}`.
pub fn patch_reported_properties(request_id: &str) -> (r: Vec<u8>)
    ensures
        r@ == "$iothub/twin/PATCH/properties/reported/?$rid=".spec_bytes()
            + request_id.spec_bytes(),
{
    let mut out = str_bytes("$iothub/twin/PATCH/properties/reported/?$rid=");
    let mut tail = str_bytes(request_id);
    out.append(&mut tail);
    out
}

/// The topic on which a full twin snapshot is requested:
/// `$iothub/twin/GET/?$rid={request-id}`.
pub fn get_twins(request_id: &str) -> (r: Vec<u8>)
    ensures
        r@ == "$iothub/twin/GET/?$rid=".spec_bytes() + request_id.spec_bytes(),
{
    let mut out = str_bytes("$iothub/twin/GET/?$rid=");
    let mut tail = str_bytes(request_id);
    out.append(&mut tail);
    out
}

/// The prefix of inbound direct-method calls.
pub fn methods_prefix() -> (r: Vec<u8>)
    ensures
        r@ == "$iothub/methods/POST/".spec_bytes(),
{
    str_bytes("$iothub/methods/POST/")
}

/// The prefix of responses to twin requests.
pub fn twin_response_prefix() -> (r: Vec<u8>)
    ensures
        r@ == "$iothub/twin/res/".spec_bytes(),
{
    str_bytes("$iothub/twin/res/")
}

/// The prefix of inbound desired-property patches.
pub fn desired_patch_prefix() -> (r: Vec<u8>)
    ensures
        r@ == "$iothub/twin/PATCH/properties/desired/".spec_bytes(),
{
    str_bytes("$iothub/twin/PATCH/properties/desired/")
}

/// Where an inbound publish is routed, by its topic prefix.
pub enum TopicRoute {
    /// A response to one of this device's twin requests.
    TwinResponse,
    /// A desired-properties patch pushed by the platform.
    DesiredPatch,
    /// A cloud-to-device message.
    CloudToDevice,
    /// A direct-method invocation.
    DirectMethod,
    /// None of the registered prefixes.
    Unknown,
}

/// Routes an inbound topic by prefix, in the order the handlers register:
/// twin responses, desired patches, cloud-to-device, direct methods.
pub fn route_topic(topic: &[u8], c2d_prefix: &[u8]) -> (r: TopicRoute)
    ensures
        r is TwinResponse <==> has_prefix(topic@, "$iothub/twin/res/".spec_bytes()),
        r is DesiredPatch <==> !has_prefix(topic@, "$iothub/twin/res/".spec_bytes())
            && has_prefix(topic@, "$iothub/twin/PATCH/properties/desired/".spec_bytes()),
        r is CloudToDevice <==> !has_prefix(topic@, "$iothub/twin/res/".spec_bytes())
            && !has_prefix(topic@, "$iothub/twin/PATCH/properties/desired/".spec_bytes())
            && has_prefix(topic@, c2d_prefix@),
        r is DirectMethod <==> !has_prefix(topic@, "$iothub/twin/res/".spec_bytes())
            && !has_prefix(topic@, "$iothub/twin/PATCH/properties/desired/".spec_bytes())
            && !has_prefix(topic@, c2d_prefix@) && has_prefix(
            topic@,
            "$iothub/methods/POST/".spec_bytes(),
        ),
{
    let twin_res = twin_response_prefix();
    let desired = desired_patch_prefix();
    let methods = methods_prefix();
    if starts_with_bytes(topic, twin_res.as_slice()) {
        TopicRoute::TwinResponse
    } else if starts_with_bytes(topic, desired.as_slice()) {
        TopicRoute::DesiredPatch
    } else if starts_with_bytes(topic, c2d_prefix) {
        TopicRoute::CloudToDevice
    } else if starts_with_bytes(topic, methods.as_slice()) {
        TopicRoute::DirectMethod
    } else {
        TopicRoute::Unknown
    }
}

} // verus!
