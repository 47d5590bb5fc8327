//! The durable outbox and the at-least-once channel.

use spotflow::channel::DurableChannel;
use spotflow::messages::{CloseOption, Compression, DeviceMessage};
use spotflow::outbox::{drain_wait_done, Outbox};

fn message(tag: &str) -> DeviceMessage {
    DeviceMessage {
        site_id: None,
        stream_group: None,
        stream: None,
        batch_id: None,
        message_id: Some(tag.to_string()),
        content: tag.as_bytes().to_vec(),
        close_option: CloseOption::NoClose,
        compression: Compression::Uncompressed,
        batch_slice_id: None,
        chunk_id: None,
    }
}

#[test]
fn outbox_is_first_in_first_out() {
    let mut outbox = Outbox::new();
    let first = outbox.store(message("first"));
    let second = outbox.store(message("second"));
    let third = outbox.store(message("third"));
    assert!(first < second && second < third);
    assert_eq!(outbox.count(), 3);

    let (id, head) = outbox.remove_head().unwrap();
    assert_eq!(id, first);
    assert_eq!(head.content, b"first".to_vec());
    let (id, head) = outbox.remove_head().unwrap();
    assert_eq!(id, second);
    assert_eq!(head.content, b"second".to_vec());
    let (id, head) = outbox.remove_head().unwrap();
    assert_eq!(id, third);
    assert_eq!(head.content, b"third".to_vec());
    assert!(outbox.remove_head().is_none());
    assert!(drain_wait_done(outbox.count()));
}

#[test]
fn outbox_reopen_keeps_records_and_order() {
    let mut outbox = Outbox::new();
    outbox.store(message("one"));
    outbox.store(message("two"));
    // A restart rebuilds the outbox from the stored records.
    let reopened = Outbox::reopen(outbox.entries, outbox.next_id);
    assert_eq!(reopened.count(), 2);
    let mut reopened = reopened;
    let (_, head) = reopened.remove_head().unwrap();
    assert_eq!(head.content, b"one".to_vec());
}

#[test]
fn drain_wait_ends_exactly_on_empty() {
    assert!(drain_wait_done(0));
    assert!(!drain_wait_done(1));
    assert!(!drain_wait_done(25));
}

#[test]
fn channel_delivers_in_identifier_order() {
    let mut channel: DurableChannel<Vec<u8>> = DurableChannel::new();
    let a = channel.send(b"a".to_vec());
    let b = channel.send(b"b".to_vec());
    assert!(a < b);

    let (pos, id) = channel.recv().unwrap();
    assert_eq!(id, a);
    assert_eq!(channel.get(pos), &b"a".to_vec());
    let (pos, id) = channel.recv().unwrap();
    assert_eq!(id, b);
    assert_eq!(channel.get(pos), &b"b".to_vec());
    assert!(channel.recv().is_none());
}

#[test]
fn channel_ack_removes_exactly_one() {
    let mut channel: DurableChannel<Vec<u8>> = DurableChannel::new();
    let a = channel.send(b"a".to_vec());
    let b = channel.send(b"b".to_vec());
    let (_, id) = channel.recv().unwrap();
    assert_eq!(id, a);
    let removed = channel.ack(a);
    assert_eq!(removed, b"a".to_vec());
    assert_eq!(channel.count(), 1);
    // The other record is still there and is delivered next.
    let (pos, id) = channel.recv().unwrap();
    assert_eq!(id, b);
    assert_eq!(channel.get(pos), &b"b".to_vec());
}

#[test]
fn channel_reopen_redelivers_unacknowledged() {
    let mut channel: DurableChannel<Vec<u8>> = DurableChannel::new();
    channel.send(b"a".to_vec());
    let b = channel.send(b"b".to_vec());
    let (_, first) = channel.recv().unwrap();
    channel.ack(first);
    // A restart resets the cursor: the unacknowledged record comes again.
    let mut reopened = DurableChannel::reopen(channel.entries, channel.next_id);
    let (pos, id) = reopened.recv().unwrap();
    assert_eq!(id, b);
    assert_eq!(reopened.get(pos), &b"b".to_vec());
}
