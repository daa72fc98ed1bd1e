//! Connection handles: one client's bounded outbound queue of pending
//! messages, with non-blocking enqueue and drop-on-full isolation.

use vstd::prelude::*;

use crate::errors::RelayError;

verus! {

/// The payload queue as character sequences, front first.
pub open spec fn queue_view(q: Seq<String>) -> Seq<Seq<char>> {
    q.map_values(|s: String| s@)
}

/// The drop counter after one more drop; it saturates rather than wraps.
pub open spec fn count_drop(d: u64) -> u64 {
    if d < u64::MAX {
        (d + 1) as u64
    } else {
        d
    }
}

/// One client's send capability: the identifier of the connection, the room it
/// is bound to for its lifetime, and the bounded buffer of messages waiting to
/// be written to the transport.
pub struct Connection {
    connection_id: u64,
    room_id: String,
    queue: Vec<String>,
    capacity: usize,
    dropped: u64,
}

/// Model of a [`Connection`].
pub ghost struct ConnModel {
    pub connection_id: u64,
    pub room_id: Seq<char>,
    pub queue: Seq<Seq<char>>,
    pub capacity: usize,
    pub dropped: u64,
}

impl ConnModel {
    /// The queue never exceeds its bound.
    pub open spec fn wf(&self) -> bool {
        self.queue.len() <= self.capacity
    }

    /// The model after an enqueue: appended when there is room, otherwise
    /// dropped and counted.
    pub open spec fn deliver(self, payload: Seq<char>) -> ConnModel {
        if self.queue.len() < self.capacity {
            ConnModel { queue: self.queue.push(payload), ..self }
        } else {
            ConnModel { dropped: count_drop(self.dropped), ..self }
        }
    }
}

impl View for Connection {
    type V = ConnModel;

    closed spec fn view(&self) -> ConnModel {
        ConnModel {
            connection_id: self.connection_id,
            room_id: self.room_id@,
            queue: queue_view(self.queue@),
            capacity: self.capacity,
            dropped: self.dropped,
        }
    }
}

impl Connection {
    /// A fresh handle with an empty queue bounded by `capacity`.
    pub fn new(connection_id: u64, room_id: String, capacity: usize) -> (c: Connection)
        ensures
            c@ == (ConnModel {
                connection_id: connection_id,
                room_id: room_id@,
                queue: Seq::empty(),
                capacity: capacity,
                dropped: 0,
            }),
            c@.wf(),
    {
        let c = Connection { connection_id, room_id, queue: Vec::new(), capacity, dropped: 0 };
        proof {
            assert(queue_view(c.queue@) =~= Seq::<Seq<char>>::empty());
        }
        c
    }

    /// This connection's identifier.
    pub fn id(&self) -> (r: u64)
        ensures
            r == self@.connection_id,
    {
        self.connection_id
    }

    /// Number of messages waiting to be written to the transport.
    pub fn pending(&self) -> (n: usize)
        ensures
            n == self@.queue.len(),
    {
        self.queue.len()
    }

    /// How many messages were dropped because the queue was full.
    pub fn dropped_count(&self) -> (n: u64)
        ensures
            n == self@.dropped,
    {
        self.dropped
    }

    /// Non-blocking enqueue.  When the bounded queue is full the message is
    /// dropped for this one recipient, the drop is counted, and `QueueFull`
    /// reports it; a full queue never blocks and never fails the sender.
    pub fn enqueue(&mut self, msg: String) -> (r: Result<(), RelayError>)
        requires
            old(self)@.wf(),
        ensures
            final(self)@.wf(),
            final(self)@ == old(self)@.deliver(msg@),
            (r is Ok) == (old(self)@.queue.len() < old(self)@.capacity),
            r matches Err(e) ==> e == RelayError::QueueFull,
    {
        if self.queue.len() < self.capacity {
            self.queue.push(msg);
            proof {
                assert(queue_view(self.queue@) =~= queue_view(old(self).queue@).push(msg@));
            }
            Ok(())
        } else {
            if self.dropped < u64::MAX {
                self.dropped = self.dropped + 1;
            }
            Err(RelayError::QueueFull)
        }
    }

    /// Take the next message to write to the transport, front first: messages
    /// leave in the order they were enqueued.
    pub fn next_outbound(&mut self) -> (r: Option<String>)
        requires
            old(self)@.wf(),
        ensures
            final(self)@.wf(),
            old(self)@.queue.len() == 0 ==> (r is None && final(self)@ == old(self)@),
            old(self)@.queue.len() > 0 ==> (r matches Some(msg) && msg@ == old(self)@.queue.first()
                && final(self)@ == (ConnModel {
                queue: old(self)@.queue.drop_first(),
                ..old(self)@
            })),
    {
        if self.queue.len() == 0 {
            None
        } else {
            let msg = self.queue.remove(0);
            proof {
                assert(queue_view(self.queue@) =~= queue_view(old(self).queue@).drop_first());
            }
            Some(msg)
        }
    }
}

} // verus!
