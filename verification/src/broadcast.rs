//! The broadcast engine: per-room fan-out of one message to every member
//! except the sender, over a table of connection handles.

use vstd::prelude::*;

use crate::connection::{ConnModel, Connection};
use crate::errors::RelayError;
use crate::models::Room;
use crate::registry::{has_room, room_of, Registry};

verus! {

/// The models of a sequence of connections.
pub open spec fn conns_view(v: Seq<Connection>) -> Seq<ConnModel> {
    v.map_values(|c: Connection| c@)
}

/// Whether some connection with identifier `id` is present.
pub open spec fn has_conn(cs: Seq<ConnModel>, id: u64) -> bool {
    exists|i: int| 0 <= i < cs.len() && cs[i].connection_id == id
}

/// The index of the connection with identifier `id` (meaningful when present
/// and identifiers are unique).
pub open spec fn conn_index(cs: Seq<ConnModel>, id: u64) -> int {
    choose|i: int| 0 <= i < cs.len() && cs[i].connection_id == id
}

/// No two connections share an identifier.
pub open spec fn unique_conn_ids(cs: Seq<ConnModel>) -> bool {
    forall|i: int, j: int|
        0 <= i < cs.len() && 0 <= j < cs.len() && i != j ==> cs[i].connection_id
            != cs[j].connection_id
}

/// With unique identifiers, a position holding `id` is the position
/// `conn_index` denotes.
pub proof fn lemma_conn_index_unique(cs: Seq<ConnModel>, id: u64, i: int)
    requires
        unique_conn_ids(cs),
        0 <= i < cs.len(),
        cs[i].connection_id == id,
    ensures
        has_conn(cs, id),
        conn_index(cs, id) == i,
{
    assert(has_conn(cs, id));
    let j = conn_index(cs, id);
    if i != j {
        assert(cs[i].connection_id != cs[j].connection_id);
    }
}

/// One connection's share of a fan-out: the message is enqueued exactly for
/// the members of the room other than the sender; a full queue drops it for
/// that recipient alone.
pub open spec fn deliver_to(
    c: ConnModel,
    members: Seq<u64>,
    payload: Seq<char>,
    origin: u64,
) -> ConnModel {
    if members.contains(c.connection_id) && c.connection_id != origin {
        c.deliver(payload)
    } else {
        c
    }
}

/// The whole table after one fan-out.
pub open spec fn broadcast_spec(
    cs: Seq<ConnModel>,
    members: Seq<u64>,
    payload: Seq<char>,
    origin: u64,
) -> Seq<ConnModel> {
    cs.map_values(|c: ConnModel| deliver_to(c, members, payload, origin))
}

/// The table of currently registered connection handles.
pub struct ConnectionTable {
    conns: Vec<Connection>,
}

impl View for ConnectionTable {
    type V = Seq<ConnModel>;

    closed spec fn view(&self) -> Seq<ConnModel> {
        conns_view(self.conns@)
    }
}

impl ConnectionTable {
    /// Identifiers are unique and every queue respects its bound.
    pub open spec fn wf(&self) -> bool {
        &&& unique_conn_ids(self@)
        &&& forall|i: int| 0 <= i < self@.len() ==> (#[trigger] self@[i]).wf()
    }

    /// An empty table.
    pub fn new() -> (r: ConnectionTable)
        ensures
            r@ == Seq::<ConnModel>::empty(),
            r.wf(),
    {
        let r = ConnectionTable { conns: Vec::new() };
        proof {
            assert(conns_view(r.conns@) =~= Seq::<ConnModel>::empty());
        }
        r
    }

    /// Number of registered connections.
    pub fn len(&self) -> (n: usize)
        ensures
            n == self@.len(),
    {
        self.conns.len()
    }

    /// Index of the connection with identifier `id`, if any.
    fn index_of(&self, id: u64) -> (r: Option<usize>)
        ensures
            match r {
                Some(i) => i < self@.len() && self@[i as int].connection_id == id,
                None => !has_conn(self@, id),
            },
    {
        let mut i: usize = 0;
        while i < self.conns.len()
            invariant
                i <= self.conns.len(),
                forall|j: int| 0 <= j < i ==> conns_view(self.conns@)[j].connection_id != id,
            decreases self.conns.len() - i,
        {
            if self.conns[i].id() == id {
                return Some(i);
            }
            i = i + 1;
        }
        None
    }

    /// Register a handle.  A second handle with the same identifier is
    /// rejected with `Conflict` and nothing changes.
    pub fn register(&mut self, c: Connection) -> (r: Result<(), RelayError>)
        requires
            old(self).wf(),
            c@.wf(),
        ensures
            final(self).wf(),
            has_conn(old(self)@, c@.connection_id) ==> (r == Err::<(), RelayError>(
                RelayError::Conflict,
            ) && final(self)@ == old(self)@),
            !has_conn(old(self)@, c@.connection_id) ==> (r == Ok::<(), RelayError>(())
                && final(self)@ == old(self)@.push(c@)),
    {
        if self.index_of(c.id()).is_some() {
            return Err(RelayError::Conflict);
        }
        self.conns.push(c);
        proof {
            assert(conns_view(self.conns@) =~= conns_view(old(self).conns@).push(c@));
            assert forall|a: int, b: int|
                0 <= a < self@.len() && 0 <= b < self@.len() && a != b implies self@[a].connection_id
                != self@[b].connection_id by {
                if a < self@.len() - 1 && b < self@.len() - 1 {
                    assert(old(self)@[a].connection_id != old(self)@[b].connection_id);
                }
            }
        }
        Ok(())
    }

    /// Drop the handle with identifier `id`; removing an absent handle is a
    /// no-op.  The underlying transport is owned by the connection's own
    /// lifecycle, not by this table.
    pub fn remove(&mut self, id: u64)
        requires
            old(self).wf(),
        ensures
            final(self).wf(),
            has_conn(old(self)@, id) ==> (final(self)@ == old(self)@.remove(
                conn_index(old(self)@, id),
            ) && !has_conn(final(self)@, id)),
            !has_conn(old(self)@, id) ==> final(self)@ == old(self)@,
    {
        match self.index_of(id) {
            None => {},
            Some(i) => {
                proof {
                    lemma_conn_index_unique(self@, id, i as int);
                }
                let ghost pre = self@;
                let _ = self.conns.remove(i);
                proof {
                    assert(self@ =~= pre.remove(i as int));
                    assert forall|j: int|
                        0 <= j < self@.len() implies self@[j].connection_id != id by {
                        if j < i {
                            assert(pre[j].connection_id != pre[i as int].connection_id);
                        } else {
                            assert(pre[j + 1].connection_id != pre[i as int].connection_id);
                        }
                    }
                }
            },
        }
    }

    /// Take the next message to write for connection `id`, front first;
    /// `None` when the handle is absent or its queue is empty.
    pub fn pop_outbound(&mut self, id: u64) -> (r: Option<String>)
        requires
            old(self).wf(),
        ensures
            final(self).wf(),
            !has_conn(old(self)@, id) ==> (r is None && final(self)@ == old(self)@),
            ({
                let i = conn_index(old(self)@, id);
                has_conn(old(self)@, id) ==> (if old(self)@[i].queue.len() == 0 {
                    r is None && final(self)@ == old(self)@
                } else {
                    r matches Some(msg) && msg@ == old(self)@[i].queue.first() && final(self)@
                        == old(self)@.update(
                        i,
                        (ConnModel { queue: old(self)@[i].queue.drop_first(), ..old(self)@[i] }),
                    )
                })
            }),
    {
        match self.index_of(id) {
            None => None,
            Some(i) => {
                proof {
                    lemma_conn_index_unique(self@, id, i as int);
                }
                let ghost pre = self@;
                let mut c = self.conns.remove(i);
                let r = c.next_outbound();
                let ghost cafter = c@;
                self.conns.insert(i, c);
                proof {
                    if pre[i as int].queue.len() == 0 {
                        assert(cafter == pre[i as int]);
                        assert(self@ =~= pre);
                    } else {
                        assert(self@ =~= pre.update(
                            i as int,
                            (ConnModel { queue: pre[i as int].queue.drop_first(), ..pre[i as int] }),
                        ));
                    }
                    assert forall|a: int, b: int|
                        0 <= a < self@.len() && 0 <= b < self@.len() && a
                            != b implies self@[a].connection_id != self@[b].connection_id by {
                        assert(pre[a].connection_id != pre[b].connection_id);
                    }
                }
                r
            },
        }
    }

    /// How many messages were dropped for connection `id` because its queue
    /// was full; `None` when the handle is absent.
    pub fn dropped_of(&self, id: u64) -> (r: Option<u64>)
        requires
            self.wf(),
        ensures
            !has_conn(self@, id) ==> r is None,
            has_conn(self@, id) ==> r == Some(self@[conn_index(self@, id)].dropped),
    {
        match self.index_of(id) {
            None => None,
            Some(i) => {
                proof {
                    lemma_conn_index_unique(self@, id, i as int);
                }
                Some(self.conns[i].dropped_count())
            },
        }
    }

    /// Fan a message out to the room: every member of `room` except `origin`
    /// gets `payload` appended to its queue; a recipient whose queue is full
    /// drops the message and counts the drop, without blocking anyone and
    /// without failing the broadcast.  Connections outside the room, and the
    /// sender, are untouched.
    pub fn broadcast(&mut self, room: &Room, payload: &String, origin: u64)
        requires
            old(self).wf(),
        ensures
            final(self).wf(),
            final(self)@ == broadcast_spec(old(self)@, room@.members, payload@, origin),
    {
        let ghost orig = self@;
        let mut out: Vec<Connection> = Vec::new();
        while self.conns.len() > 0
            invariant
                out@.len() + self.conns@.len() == orig.len(),
                forall|j: int|
                    0 <= j < out@.len() ==> out@[j]@ == deliver_to(
                        orig[j],
                        room@.members,
                        payload@,
                        origin,
                    ),
                forall|j: int|
                    0 <= j < self.conns@.len() ==> (#[trigger] self.conns@[j])@ == orig[out@.len()
                        + j],
                forall|j: int| 0 <= j < orig.len() ==> (#[trigger] orig[j]).wf(),
            decreases self.conns.len(),
        {
            let mut c = self.conns.remove(0);
            if room.has_member(c.id()) && c.id() != origin {
                let _ = c.enqueue(payload.clone());
            }
            out.push(c);
        }
        self.conns = out;
        proof {
            assert(self@ =~= broadcast_spec(orig, room@.members, payload@, origin));
            assert forall|a: int, b: int|
                0 <= a < self@.len() && 0 <= b < self@.len() && a != b implies self@[a].connection_id
                != self@[b].connection_id by {
                assert(orig[a].connection_id != orig[b].connection_id);
            }
        }
    }
}

/// Resolve the room and fan the message out to it, as one operation: fails
/// with `NotFound` when no such room is registered, and otherwise delivers to
/// every member except the sender.
pub fn broadcast_to_room(
    registry: &Registry,
    conns: &mut ConnectionTable,
    room_id: &String,
    payload: &String,
    origin: u64,
) -> (r: Result<(), RelayError>)
    requires
        registry.wf(),
        old(conns).wf(),
    ensures
        final(conns).wf(),
        !has_room(registry@, room_id@) ==> (r == Err::<(), RelayError>(RelayError::NotFound)
            && final(conns)@ == old(conns)@),
        has_room(registry@, room_id@) ==> (r == Ok::<(), RelayError>(()) && final(conns)@
            == broadcast_spec(old(conns)@, room_of(registry@, room_id@).members, payload@, origin)),
{
    match registry.get_room(room_id) {
        Ok(room) => {
            conns.broadcast(&room, payload, origin);
            Ok(())
        },
        Err(e) => Err(e),
    }
}

/// The exclude-sender fan-out law over two successive broadcasts: a member
/// other than the sender with room for both messages receives them in the
/// order they were issued, and the sender and non-members are never touched.
pub proof fn lemma_broadcast_order(
    cs: Seq<ConnModel>,
    members: Seq<u64>,
    m1: Seq<char>,
    m2: Seq<char>,
    origin: u64,
)
    ensures
        ({
            let once = broadcast_spec(cs, members, m1, origin);
            let twice = broadcast_spec(once, members, m2, origin);
            &&& forall|i: int|
                0 <= i < cs.len() && members.contains(#[trigger] cs[i].connection_id)
                    && cs[i].connection_id != origin && cs[i].queue.len() + 2 <= cs[i].capacity
                    ==> twice[i].queue == cs[i].queue.push(m1).push(m2)
            &&& forall|i: int|
                0 <= i < cs.len() && !(members.contains(#[trigger] cs[i].connection_id)
                    && cs[i].connection_id != origin) ==> twice[i] == cs[i]
        }),
{
    let once = broadcast_spec(cs, members, m1, origin);
    let twice = broadcast_spec(once, members, m2, origin);
    assert forall|i: int|
        0 <= i < cs.len() && members.contains(#[trigger] cs[i].connection_id)
            && cs[i].connection_id != origin && cs[i].queue.len() + 2 <= cs[i].capacity
            implies twice[i].queue == cs[i].queue.push(m1).push(m2) by {
        assert(once[i] == deliver_to(cs[i], members, m1, origin));
        assert(twice[i] == deliver_to(once[i], members, m2, origin));
    }
    assert forall|i: int|
        0 <= i < cs.len() && !(members.contains(#[trigger] cs[i].connection_id)
            && cs[i].connection_id != origin) implies twice[i] == cs[i] by {
        assert(once[i] == cs[i]);
    }
}

} // verus!
