//! The durable at-least-once channel.
//!
//! The cloud-to-device inbox and the reported-properties queue share one
//! shape: records are stored under strictly increasing identifiers, a single
//! consumer receives them in identifier order, and a record leaves the store
//! only when the consumer acknowledges it after observing it.  A restart
//! resets the consumer's cursor, so unacknowledged records are delivered
//! again — duplicates are possible, reordering is not.

use vstd::prelude::*;

verus! {

/// The in-memory model of one durable channel.
pub struct DurableChannel<T> {
    pub next_id: u64,
    pub entries: Vec<(u64, T)>,
    pub cursor: Option<u64>,
}

impl<T> DurableChannel<T> {
    /// Identifiers are strictly increasing along the store, below `next_id`,
    /// and the cursor is one of the identifiers already passed.
    pub open spec fn inv(self) -> bool {
        &&& forall|i: int, j: int|
            0 <= i < j < self.entries@.len() ==> (#[trigger] self.entries@[i]).0 < (
            #[trigger] self.entries@[j]).0
        &&& forall|i: int|
            0 <= i < self.entries@.len() ==> (#[trigger] self.entries@[i]).0 < self.next_id
        &&& (self.cursor matches Option::Some(c) ==> c < self.next_id)
    }

    /// The identifier `id` is still stored.
    pub open spec fn holds(self, id: u64) -> bool {
        exists|i: int| 0 <= i < self.entries@.len() && (#[trigger] self.entries@[i]).0 == id
    }

    /// The identifier `id` has been observed by the consumer: the cursor has
    /// reached or passed it.
    pub open spec fn observed(self, id: u64) -> bool {
        self.cursor matches Option::Some(c) && id <= c
    }

    /// An empty channel.
    pub fn new() -> (r: DurableChannel<T>)
        ensures
            r.inv(),
            r.entries@.len() == 0,
            r.cursor is None,
            r.next_id == 0,
    {
        DurableChannel { next_id: 0, entries: Vec::new(), cursor: Option::None }
    }

    /// Reopens a channel over the records found on disk.  The cursor starts
    /// before the lowest stored identifier, so every unacknowledged record is
    /// delivered again.
    pub fn reopen(entries: Vec<(u64, T)>, next_id: u64) -> (r: DurableChannel<T>)
        requires
            forall|i: int, j: int|
                0 <= i < j < entries@.len() ==> (#[trigger] entries@[i]).0 < (
                #[trigger] entries@[j]).0,
            forall|i: int| 0 <= i < entries@.len() ==> (#[trigger] entries@[i]).0 < next_id,
        ensures
            r.inv(),
            r.entries == entries,
            r.cursor is None,
            r.next_id == next_id,
    {
        DurableChannel { next_id, entries, cursor: Option::None }
    }

    /// The number of stored records.
    pub fn count(&self) -> (r: usize)
        ensures
            r == self.entries@.len(),
    {
        self.entries.len()
    }

    /// Stores one record under the next identifier.
    pub fn send(&mut self, item: T) -> (id: u64)
        requires
            old(self).inv(),
            old(self).next_id < u64::MAX,
        ensures
            final(self).inv(),
            id == old(self).next_id,
            final(self).next_id == old(self).next_id + 1,
            final(self).entries@ == old(self).entries@.push((id, item)),
            final(self).cursor == old(self).cursor,
    {
        let id = self.next_id;
        self.entries.push((id, item));
        self.next_id = self.next_id + 1;
        id
    }

    /// Receives the next record: the stored record with the lowest
    /// identifier above the cursor.  Returns its position and identifier and
    /// advances the cursor, so one run observes strictly increasing
    /// identifiers.
    pub fn recv(&mut self) -> (r: Option<(usize, u64)>)
        requires
            old(self).inv(),
        ensures
            final(self).inv(),
            final(self).entries == old(self).entries,
            final(self).next_id == old(self).next_id,
            match r {
                Option::None => *final(self) == *old(self) && (forall|i: int|
                    0 <= i < old(self).entries@.len() ==> old(self).observed(
                        (#[trigger] old(self).entries@[i]).0,
                    )),
                Option::Some((pos, id)) => {
                    &&& pos < old(self).entries@.len()
                    &&& old(self).entries@[pos as int].0 == id
                    &&& !old(self).observed(id)
                    &&& forall|i: int|
                        0 <= i < pos ==> old(self).observed((#[trigger] old(self).entries@[i]).0)
                    &&& final(self).cursor == Option::Some(id)
                    &&& final(self).observed(id)
                },
            },
    {
        let mut k: usize = 0;
        while k < self.entries.len()
            invariant
                k <= self.entries@.len(),
                forall|i: int| 0 <= i < k ==> self.observed((#[trigger] self.entries@[i]).0),
                self.inv(),
                *self == *old(self),
            decreases self.entries@.len() - k,
        {
            let id = self.entries[k].0;
            let seen = match self.cursor {
                Option::None => false,
                Option::Some(c) => id <= c,
            };
            if !seen {
                self.cursor = Option::Some(id);
                return Option::Some((k, id));
            }
            k = k + 1;
        }
        Option::None
    }

    /// A borrow of the record at a position.
    pub fn get(&self, pos: usize) -> (r: &T)
        requires
            pos < self.entries@.len(),
        ensures
            *r == self.entries@[pos as int].1,
    {
        &self.entries[pos].1
    }

    /// Acknowledges one observed record: it leaves the store, exactly once.
    /// The record must still be stored and must have been observed, so a
    /// record is never acknowledged without observation and never twice.
    pub fn ack(&mut self, id: u64) -> (removed: T)
        requires
            old(self).inv(),
            old(self).holds(id),
            old(self).observed(id),
        ensures
            final(self).inv(),
            !final(self).holds(id),
            final(self).next_id == old(self).next_id,
            final(self).cursor == old(self).cursor,
            exists|i: int|
                0 <= i < old(self).entries@.len() && (#[trigger] old(self).entries@[i]).0 == id
                    && removed == old(self).entries@[i].1
                    && final(self).entries@ == old(self).entries@.remove(i),
    {
        let n = self.entries.len();
        let mut k: usize = 0;
        loop
            invariant
                k < n,
                n == self.entries@.len(),
                forall|i: int| 0 <= i < k ==> (#[trigger] self.entries@[i]).0 != id,
                self.inv(),
                self.holds(id),
                *self == *old(self),
            ensures
                k < self.entries@.len(),
                self.entries@[k as int].0 == id,
                *self == *old(self),
            decreases n - k,
        {
            if self.entries[k].0 == id {
                break;
            }
            proof {
                if k + 1 == self.entries@.len() {
                    let w = choose|i: int|
                        0 <= i < self.entries@.len() && (#[trigger] self.entries@[i]).0 == id;
                    assert(self.entries@[w].0 == id);
                    assert(false);
                }
            }
            k = k + 1;
        }
        let ghost kk = k as int;
        let entry = self.entries.remove(k);
        proof {
            assert(old(self).entries@[kk].0 == id);
        }
        proof {
            assert forall|i: int|
                0 <= i < final(self).entries@.len() implies ((#[trigger] final(self).entries@[i]).0
                != id) by {
                if i < k {
                    assert(final(self).entries@[i] == old(self).entries@[i]);
                } else {
                    assert(final(self).entries@[i] == old(self).entries@[i + 1]);
                }
            }
            assert forall|i: int, j: int|
                0 <= i < j < final(self).entries@.len() implies ((#[trigger] final(self).entries@[i]).0
                < (#[trigger] final(self).entries@[j]).0) by {
                let oi = if i < k {
                    i
                } else {
                    i + 1
                };
                let oj = if j < k {
                    j
                } else {
                    j + 1
                };
                assert(final(self).entries@[i] == old(self).entries@[oi]);
                assert(final(self).entries@[j] == old(self).entries@[oj]);
            }
            assert forall|i: int| 0 <= i < final(self).entries@.len() implies ((#[trigger] final(self).entries@[i]).0
                < final(self).next_id) by {
                let oi = if i < k {
                    i
                } else {
                    i + 1
                };
                assert(final(self).entries@[i] == old(self).entries@[oi]);
            }
            assert(0 <= kk < old(self).entries@.len() && (#[trigger] old(self).entries@[kk]).0
                == id && entry.1 == old(self).entries@[kk].1 && final(self).entries@ == old(
                self,
            ).entries@.remove(kk));
        }
        entry.1
    }
}

} // verus!
