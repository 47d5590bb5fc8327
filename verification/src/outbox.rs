//! The durable outbox.
//!
//! Outbound telemetry is stored first and sent later: the store assigns each
//! record a strictly increasing identifier, the sender publishes the head,
//! and a broker acknowledgment removes it.  Records therefore leave the
//! outbox in exactly the order they were stored.

use vstd::prelude::*;

use crate::messages::DeviceMessage;

verus! {

/// The in-memory model of the outbox table: the records still pending, each
/// under its identifier, and the next identifier to assign.
pub struct Outbox {
    pub next_id: u64,
    pub entries: Vec<(u64, DeviceMessage)>,
}

impl Outbox {
    /// Identifiers are strictly increasing along the queue and below
    /// `next_id`, so a record stored later always has a larger identifier,
    /// across restarts included.
    pub open spec fn inv(self) -> bool {
        &&& forall|i: int, j: int|
            0 <= i < j < self.entries@.len() ==> (#[trigger] self.entries@[i]).0 < (
            #[trigger] self.entries@[j]).0
        &&& forall|i: int|
            0 <= i < self.entries@.len() ==> (#[trigger] self.entries@[i]).0 < self.next_id
    }

    /// The pending records, oldest first.
    pub open spec fn queue(self) -> Seq<DeviceMessage> {
        self.entries@.map_values(|e: (u64, DeviceMessage)| e.1)
    }

    /// An empty outbox.
    pub fn new() -> (r: Outbox)
        ensures
            r.inv(),
            r.queue().len() == 0,
            r.next_id == 0,
    {
        Outbox { next_id: 0, entries: Vec::new() }
    }

    /// Reopens an outbox from the records found on disk.  Consumption
    /// restarts from the lowest stored identifier; nothing is lost.
    pub fn reopen(entries: Vec<(u64, DeviceMessage)>, next_id: u64) -> (r: Outbox)
        requires
            forall|i: int, j: int|
                0 <= i < j < entries@.len() ==> (#[trigger] entries@[i]).0 < (
                #[trigger] entries@[j]).0,
            forall|i: int| 0 <= i < entries@.len() ==> (#[trigger] entries@[i]).0 < next_id,
        ensures
            r.inv(),
            r.entries == entries,
            r.next_id == next_id,
    {
        Outbox { next_id, entries }
    }

    /// The number of pending records.
    pub fn count(&self) -> (r: usize)
        ensures
            r == self.queue().len(),
    {
        self.entries.len()
    }

    /// Stores one record at the tail and assigns it the next identifier.
    pub fn store(&mut self, msg: DeviceMessage) -> (id: u64)
        requires
            old(self).inv(),
            old(self).next_id < u64::MAX,
        ensures
            final(self).inv(),
            id == old(self).next_id,
            final(self).next_id == old(self).next_id + 1,
            final(self).entries@ == old(self).entries@.push((id, msg)),
            final(self).queue() == old(self).queue().push(msg),
    {
        let id = self.next_id;
        self.entries.push((id, msg));
        self.next_id = self.next_id + 1;
        proof {
            assert(final(self).queue() =~= old(self).queue().push(
                final(self).entries@.last().1,
            ));
        }
        id
    }

    /// The identifier of the head record, if any: always the lowest pending
    /// identifier, which is the oldest record.
    pub fn head_id(&self) -> (r: Option<u64>)
        requires
            self.inv(),
        ensures
            match r {
                Option::None => self.queue().len() == 0,
                Option::Some(id) => self.entries@.len() > 0 && id == self.entries@[0].0,
            },
    {
        if self.entries.len() == 0 {
            Option::None
        } else {
            Option::Some(self.entries[0].0)
        }
    }

    /// A borrow of the head record's message.
    pub fn head(&self) -> (r: Option<&DeviceMessage>)
        ensures
            match r {
                Option::None => self.queue().len() == 0,
                Option::Some(m) => self.queue().len() > 0 && *m == self.queue()[0],
            },
    {
        if self.entries.len() == 0 {
            Option::None
        } else {
            Option::Some(&self.entries[0].1)
        }
    }

    /// Removes the head record; the broker has confirmed it.  Everything
    /// else moves up unchanged, so records leave in storage order.
    pub fn remove_head(&mut self) -> (r: Option<(u64, DeviceMessage)>)
        requires
            old(self).inv(),
        ensures
            final(self).inv(),
            final(self).next_id == old(self).next_id,
            match r {
                Option::None => old(self).queue().len() == 0 && *final(self) == *old(self),
                Option::Some(e) => old(self).entries@.len() > 0 && e == old(self).entries@[0]
                    && final(self).entries@ == old(self).entries@.drop_first()
                    && final(self).queue() == old(self).queue().drop_first(),
            },
    {
        if self.entries.len() == 0 {
            proof {
                assert(*self =~= *old(self));
            }
            Option::None
        } else {
            let rest = self.entries.split_off(1);
            let head = self.entries.pop().unwrap();
            self.entries = rest;
            proof {
                assert(final(self).entries@ =~= old(self).entries@.drop_first());
                assert(final(self).queue() =~= old(self).queue().drop_first());
            }
            Option::Some(head)
        }
    }
}

/// One step of the outbox's life: a record is stored, or the broker confirms
/// the head and it is removed.
pub enum OutboxOp {
    Store(DeviceMessage),
    RemoveHead,
}

/// All records stored along a trace, in order.
pub open spec fn trace_stored(ops: Seq<OutboxOp>) -> Seq<DeviceMessage>
    decreases ops.len(),
{
    if ops.len() == 0 {
        Seq::empty()
    } else {
        match ops.last() {
            OutboxOp::Store(m) => trace_stored(ops.drop_last()).push(m),
            OutboxOp::RemoveHead => trace_stored(ops.drop_last()),
        }
    }
}

/// The queue contents after a trace, oldest first.
pub open spec fn trace_queue(ops: Seq<OutboxOp>) -> Seq<DeviceMessage>
    decreases ops.len(),
{
    if ops.len() == 0 {
        Seq::empty()
    } else {
        match ops.last() {
            OutboxOp::Store(m) => trace_queue(ops.drop_last()).push(m),
            OutboxOp::RemoveHead => {
                let q = trace_queue(ops.drop_last());
                if q.len() == 0 {
                    q
                } else {
                    q.drop_first()
                }
            },
        }
    }
}

/// All records removed along a trace, in the order they left.
pub open spec fn trace_removed(ops: Seq<OutboxOp>) -> Seq<DeviceMessage>
    decreases ops.len(),
{
    if ops.len() == 0 {
        Seq::empty()
    } else {
        match ops.last() {
            OutboxOp::Store(m) => trace_removed(ops.drop_last()),
            OutboxOp::RemoveHead => {
                let q = trace_queue(ops.drop_last());
                if q.len() == 0 {
                    trace_removed(ops.drop_last())
                } else {
                    trace_removed(ops.drop_last()).push(q[0])
                }
            },
        }
    }
}

/// For every sequence of stores and confirmations, the records that have
/// left the outbox, followed by those still pending, are exactly the records
/// stored, in storage order.  In particular the records leave the outbox in
/// the order they were stored.
pub proof fn lemma_outbox_fifo(ops: Seq<OutboxOp>)
    ensures
        trace_removed(ops) + trace_queue(ops) == trace_stored(ops),
    decreases ops.len(),
{
    if ops.len() == 0 {
        assert(trace_removed(ops) + trace_queue(ops) =~= trace_stored(ops));
    } else {
        lemma_outbox_fifo(ops.drop_last());
        match ops.last() {
            OutboxOp::Store(m) => {
                assert(trace_removed(ops) + trace_queue(ops) =~= trace_stored(ops));
            },
            OutboxOp::RemoveHead => {
                assert(trace_removed(ops) + trace_queue(ops) =~= trace_stored(ops));
            },
        }
    }
}

/// The records that have left the outbox are a prefix of the records stored:
/// the order out matches the order in.
pub proof fn lemma_outbox_removed_prefix(ops: Seq<OutboxOp>)
    ensures
        trace_removed(ops) == trace_stored(ops).take(trace_removed(ops).len() as int),
{
    lemma_outbox_fifo(ops);
    assert(trace_removed(ops) =~= trace_stored(ops).take(trace_removed(ops).len() as int));
}

/// One round of the facade's blocking wait for the outbox to drain: the wait
/// is over exactly when no records are pending.
pub fn drain_wait_done(pending: usize) -> (r: bool)
    ensures
        r <==> pending == 0,
{
    pending == 0
}

} // verus!
