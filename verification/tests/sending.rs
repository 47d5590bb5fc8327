//! Outbound message formatting: compression, file upload, topics.

use spotflow::messages::{CloseOption, Compression, DeviceMessage};
use spotflow::sender::{
    compress_content, is_file_upload, join_properties, link_payload, message_properties,
    CompressionOutcome,
};
use spotflow::topics::{
    c2d_topic, get_twins, patch_reported_properties, publish_topic, response_topic, route_topic,
    TopicRoute,
};

fn sample_message() -> DeviceMessage {
    DeviceMessage {
        site_id: Some("site 1".to_string()),
        stream_group: Some("group".to_string()),
        stream: Some("stream".to_string()),
        batch_id: Some("b1".to_string()),
        message_id: Some("m1".to_string()),
        content: vec![1, 2, 3],
        close_option: CloseOption::NoClose,
        compression: Compression::Uncompressed,
        batch_slice_id: None,
        chunk_id: None,
    }
}

#[test]
fn compression_fallback() {
    // A repetitive kilobyte compresses well and must travel compressed.
    let content = vec![b'a'; 1000];
    match compress_content(&content, &Compression::BrotliFastest) {
        CompressionOutcome::Compressed(payload) => assert!(payload.len() < content.len()),
        _ => panic!("a compressible payload must travel compressed"),
    }

    // Four incompressible bytes would not shrink; the original travels.
    let content = vec![0x3a, 0x91, 0x5f, 0xe4];
    match compress_content(&content, &Compression::BrotliFastest) {
        CompressionOutcome::NotSmaller(payload) => assert_eq!(payload, content),
        _ => panic!("an incompressible payload must travel as it is"),
    }

    // Without a compression request nothing is compressed.
    let content = vec![b'a'; 1000];
    match compress_content(&content, &Compression::Uncompressed) {
        CompressionOutcome::NotRequested(payload) => assert_eq!(payload, content),
        _ => panic!("an unrequested compression must leave the payload alone"),
    }

    // An empty payload is never compressed.
    match compress_content(&Vec::new(), &Compression::BrotliSmallestSize) {
        CompressionOutcome::NotRequested(payload) => assert!(payload.is_empty()),
        _ => panic!("an empty payload must travel as it is"),
    }
}

#[test]
fn file_upload_threshold() {
    assert!(!is_file_upload(&vec![0u8; 250000]));
    assert!(is_file_upload(&vec![0u8; 250001]));
}

#[test]
fn link_payload_names_the_blob() {
    let payload = link_payload("blob-7");
    assert_eq!(payload, br#"{"link":"blob-7"}"#.to_vec());
}

#[test]
fn properties_are_ordered_and_encoded() {
    let msg = sample_message();
    let parts = message_properties(&msg, false, false);
    let joined = join_properties(&parts);
    assert_eq!(
        joined,
        b"stream-group-name=group&stream-name=stream&site-id=site%201&batch-id=b1&message-id=m1"
            .to_vec()
    );
}

#[test]
fn properties_carry_flags_and_close_semantics() {
    let mut msg = sample_message();
    msg.close_option = CloseOption::CloseBatchOnly;
    let parts = message_properties(&msg, true, true);
    let joined = join_properties(&parts);
    assert_eq!(
        joined,
        b"stream-group-name=group&stream-name=stream&site-id=site%201&batch-id=b1&message-id=m1\
&content-encoding=br&has-externalized-payload=true&complete-batch=true&ignore-payload=true"
            .to_vec()
    );
}

#[test]
fn message_completion_flags() {
    let mut msg = sample_message();
    msg.close_option = CloseOption::CloseMessageOnly;
    msg.site_id = None;
    msg.stream_group = None;
    msg.stream = None;
    msg.batch_id = None;
    msg.message_id = None;
    let parts = message_properties(&msg, false, false);
    let joined = join_properties(&parts);
    assert_eq!(joined, b"complete-message=true&ignore-payload=true".to_vec());
}

#[test]
fn topic_names() {
    assert_eq!(
        publish_topic("ws:dev"),
        b"devices/ws:dev/messages/events/".to_vec()
    );
    assert_eq!(
        c2d_topic("ws:dev"),
        b"devices/ws:dev/messages/devicebound/".to_vec()
    );
    assert_eq!(
        response_topic(200, "rid-1"),
        b"$iothub/methods/res/200/?$rid=rid-1".to_vec()
    );
    assert_eq!(
        response_topic(-3, "rid-2"),
        b"$iothub/methods/res/-3/?$rid=rid-2".to_vec()
    );
    assert_eq!(
        patch_reported_properties("abc"),
        b"$iothub/twin/PATCH/properties/reported/?$rid=abc".to_vec()
    );
    assert_eq!(get_twins("abc"), b"$iothub/twin/GET/?$rid=abc".to_vec());
}

#[test]
fn routing_by_prefix() {
    let c2d = c2d_topic("ws:dev");
    assert!(matches!(
        route_topic(b"$iothub/twin/res/204/?$rid=1", &c2d),
        TopicRoute::TwinResponse
    ));
    assert!(matches!(
        route_topic(b"$iothub/twin/PATCH/properties/desired/?$version=4", &c2d),
        TopicRoute::DesiredPatch
    ));
    assert!(matches!(
        route_topic(b"devices/ws:dev/messages/devicebound/key=value", &c2d),
        TopicRoute::CloudToDevice
    ));
    assert!(matches!(
        route_topic(b"$iothub/methods/POST/reboot/?$rid=9", &c2d),
        TopicRoute::DirectMethod
    ));
    assert!(matches!(
        route_topic(b"some/other/topic", &c2d),
        TopicRoute::Unknown
    ));
}
