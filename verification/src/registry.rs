//! The room registry: creation, lookup, join, leave, lifecycle end, and
//! eviction of empty rooms.
//!
//! The registry exclusively owns the set of rooms; each room exclusively owns
//! its member set.  A process embeds one registry behind its own mutual
//! exclusion (exclusive access per mutation) and passes it to every
//! connection task; no operation here blocks.  Eviction of a room whose member
//! set became empty is a separate, explicit step ([`Registry::evict_room_if_empty`]),
//! so the embedding process chooses the policy: call it right after a leave
//! for immediate eviction, or later for a grace period that absorbs reconnect
//! storms.

use vstd::prelude::*;

use crate::errors::RelayError;
use crate::models::{
    join_members, new_record_model, new_room_model, without, Room, RoomModel,
};
use crate::store::{end_records, has_record, IRoomRepository};

verus! {

/// The models of a sequence of rooms.
pub open spec fn rooms_view(v: Seq<Room>) -> Seq<RoomModel> {
    v.map_values(|r: Room| r@)
}

/// Whether some room with identifier `id` is present.
pub open spec fn has_room(rooms: Seq<RoomModel>, id: Seq<char>) -> bool {
    exists|i: int| 0 <= i < rooms.len() && rooms[i].id == id
}

/// No two rooms share an identifier.
pub open spec fn unique_ids(rooms: Seq<RoomModel>) -> bool {
    forall|i: int, j: int|
        0 <= i < rooms.len() && 0 <= j < rooms.len() && i != j ==> rooms[i].id != rooms[j].id
}

/// The index of the room with identifier `id` (meaningful when
/// `has_room(rooms, id)` holds and identifiers are unique).
pub open spec fn room_index(rooms: Seq<RoomModel>, id: Seq<char>) -> int {
    choose|i: int| 0 <= i < rooms.len() && rooms[i].id == id
}

/// The room with identifier `id`.
pub open spec fn room_of(rooms: Seq<RoomModel>, id: Seq<char>) -> RoomModel {
    rooms[room_index(rooms, id)]
}

/// With unique identifiers, a position holding `id` is the position
/// `room_index` denotes.
pub proof fn lemma_room_index_unique(rooms: Seq<RoomModel>, id: Seq<char>, i: int)
    requires
        unique_ids(rooms),
        0 <= i < rooms.len(),
        rooms[i].id == id,
    ensures
        has_room(rooms, id),
        room_index(rooms, id) == i,
        room_of(rooms, id) == rooms[i],
{
    assert(has_room(rooms, id));
    let j = room_index(rooms, id);
    assert(0 <= j < rooms.len() && rooms[j].id == id);
    if i != j {
        assert(rooms[i].id != rooms[j].id);
    }
}

/// Rooms after a successful join of connection `c` to room `id`.
pub open spec fn join_spec(rooms: Seq<RoomModel>, id: Seq<char>, c: u64) -> Seq<RoomModel> {
    let i = room_index(rooms, id);
    rooms.update(i, (RoomModel { members: join_members(rooms[i].members, c), ..rooms[i] }))
}

/// Rooms after connection `c` leaves room `id`: a no-op when the room is
/// absent or the connection is not a member.
pub open spec fn leave_spec(rooms: Seq<RoomModel>, id: Seq<char>, c: u64) -> Seq<RoomModel> {
    if has_room(rooms, id) {
        let i = room_index(rooms, id);
        rooms.update(i, (RoomModel { members: without(rooms[i].members, c), ..rooms[i] }))
    } else {
        rooms
    }
}

/// The in-memory mapping from room identifier to room.
pub struct Registry {
    rooms: Vec<Room>,
}

impl View for Registry {
    type V = Seq<RoomModel>;

    closed spec fn view(&self) -> Seq<RoomModel> {
        rooms_view(self.rooms@)
    }
}

impl Registry {
    /// Room identifiers are unique and every member set is duplicate-free.
    pub open spec fn wf(&self) -> bool {
        &&& unique_ids(self@)
        &&& forall|i: int| 0 <= i < self@.len() ==> (#[trigger] self@[i].members).no_duplicates()
    }

    /// An empty registry, constructed once at process start.
    pub fn new() -> (r: Registry)
        ensures
            r@ == Seq::<RoomModel>::empty(),
            r.wf(),
    {
        let r = Registry { rooms: Vec::new() };
        proof {
            assert(rooms_view(r.rooms@) =~= Seq::<RoomModel>::empty());
        }
        r
    }

    /// Number of rooms currently registered.
    pub fn room_count(&self) -> (n: usize)
        ensures
            n == self@.len(),
    {
        self.rooms.len()
    }

    /// Index of the room with identifier `id`, if any.
    fn index_of(&self, id: &String) -> (r: Option<usize>)
        ensures
            match r {
                Some(i) => i < self@.len() && self@[i as int].id == id@,
                None => !has_room(self@, id@),
            },
    {
        let mut i: usize = 0;
        while i < self.rooms.len()
            invariant
                i <= self.rooms.len(),
                forall|j: int| 0 <= j < i ==> rooms_view(self.rooms@)[j].id != id@,
            decreases self.rooms.len() - i,
        {
            if self.rooms[i].id == *id {
                return Some(i);
            }
            i = i + 1;
        }
        None
    }

    /// Create a room and durably record it through the metadata gateway.
    ///
    /// Fails with `Conflict` if the identifier is already registered (the
    /// existing room is untouched) or already stored.  If the durable write
    /// fails, the in-memory creation is rolled back: there is never an
    /// in-memory room without a backing record.
    pub fn create_room<R: IRoomRepository>(
        &mut self,
        store: &mut R,
        id: &String,
        name: &String,
        now: i64,
    ) -> (r: Result<Room, RelayError>)
        requires
            old(self).wf(),
        ensures
            final(self).wf(),
            has_room(old(self)@, id@) ==> (r == Err::<Room, RelayError>(RelayError::Conflict)
                && final(store).records() == old(store).records()),
            r matches Ok(room) ==> (!has_room(old(self)@, id@) && room@ == new_room_model(
                id@,
                name@,
                now,
            ) && room.wf() && final(self)@ == old(self)@.push(new_room_model(id@, name@, now))
                && final(store).records() == old(store).records().push(
                new_record_model(id@, name@, now),
            )),
            r is Err ==> final(self)@ == old(self)@,
            r matches Err(e) ==> (e == RelayError::Conflict || e == RelayError::StoreUnavailable),
            (!has_room(old(self)@, id@) && r is Err) ==> (final(store).records() == old(
                store,
            ).records() && (r == Err::<Room, RelayError>(RelayError::Conflict) ==> has_record(
                old(store).records(),
                id@,
            ))),
            (!has_room(old(self)@, id@) && old(store).infallible() && !has_record(
                old(store).records(),
                id@,
            )) ==> r is Ok,
    {
        if self.index_of(id).is_some() {
            return Err(RelayError::Conflict);
        }
        match store.create(id, name, now) {
            Ok(_rec) => {
                let room = Room::new(id.clone(), name.clone(), now);
                self.rooms.push(room);
                proof {
                    assert(rooms_view(self.rooms@) =~= old(self)@.push(
                        new_room_model(id@, name@, now),
                    ));
                    assert forall|i: int, j: int|
                        0 <= i < self@.len() && 0 <= j < self@.len() && i != j implies self@[i].id
                        != self@[j].id by {
                        if i < self@.len() - 1 && j < self@.len() - 1 {
                            assert(old(self)@[i].id != old(self)@[j].id);
                        }
                    }
                }
                Ok(Room::new(id.clone(), name.clone(), now))
            },
            Err(e) => Err(e),
        }
    }

    /// Look the room with identifier `id` up; a copy of its current state is
    /// returned.
    pub fn get_room(&self, id: &String) -> (r: Result<Room, RelayError>)
        requires
            self.wf(),
        ensures
            r matches Ok(room) ==> (has_room(self@, id@) && room@ == room_of(self@, id@)
                && room.wf()),
            r matches Err(e) ==> e == RelayError::NotFound,
            (r is Ok) == has_room(self@, id@),
    {
        match self.index_of(id) {
            Some(i) => {
                proof {
                    lemma_room_index_unique(self@, id@, i as int);
                }
                Ok(self.rooms[i].clone())
            },
            None => Err(RelayError::NotFound),
        }
    }

    /// Atomically add a connection to a room's member set.  Rejects a missing
    /// room with `NotFound` and an ended room with `RoomEnded`; in both cases
    /// nothing changes.  Joining twice is idempotent.
    pub fn join(&mut self, room_id: &String, connection_id: u64) -> (r: Result<(), RelayError>)
        requires
            old(self).wf(),
        ensures
            final(self).wf(),
            !has_room(old(self)@, room_id@) ==> (r == Err::<(), RelayError>(RelayError::NotFound)
                && final(self)@ == old(self)@),
            (has_room(old(self)@, room_id@) && room_of(old(self)@, room_id@).ended_at is Some)
                ==> (r == Err::<(), RelayError>(RelayError::RoomEnded) && final(self)@ == old(
                self,
            )@),
            (has_room(old(self)@, room_id@) && room_of(old(self)@, room_id@).ended_at is None)
                ==> (r == Ok::<(), RelayError>(()) && final(self)@ == join_spec(
                old(self)@,
                room_id@,
                connection_id,
            )),
    {
        match self.index_of(room_id) {
            None => Err(RelayError::NotFound),
            Some(i) => {
                proof {
                    lemma_room_index_unique(self@, room_id@, i as int);
                }
                if self.rooms[i].is_ended() {
                    Err(RelayError::RoomEnded)
                } else {
                    let ghost pre = self@;
                    let mut room = self.rooms.remove(i);
                    room.add_member(connection_id);
                    self.rooms.insert(i, room);
                    proof {
                        assert(self@ =~= join_spec(pre, room_id@, connection_id));
                        lemma_update_keeps_wf_full(
                            pre,
                            i as int,
                            (RoomModel {
                                members: join_members(pre[i as int].members, connection_id),
                                ..pre[i as int]
                            }),
                        );
                    }
                    Ok(())
                }
            },
        }
    }

    /// Remove a connection from a room's member set.  Idempotent: removing an
    /// absent connection, or from an absent room, is a no-op, not an error.
    /// The room is not evicted here even when its member set becomes empty;
    /// see [`Registry::evict_room_if_empty`].
    pub fn leave(&mut self, room_id: &String, connection_id: u64)
        requires
            old(self).wf(),
        ensures
            final(self).wf(),
            final(self)@ == leave_spec(old(self)@, room_id@, connection_id),
    {
        match self.index_of(room_id) {
            None => {},
            Some(i) => {
                proof {
                    lemma_room_index_unique(self@, room_id@, i as int);
                }
                let ghost pre = self@;
                let mut room = self.rooms.remove(i);
                room.remove_member(connection_id);
                self.rooms.insert(i, room);
                proof {
                    assert(self@ =~= leave_spec(pre, room_id@, connection_id));
                    lemma_update_keeps_wf_full(
                        pre,
                        i as int,
                        (RoomModel {
                            members: without(pre[i as int].members, connection_id),
                            ..pre[i as int]
                        }),
                    );
                }
            },
        }
    }

    /// Evict the room with identifier `id` if it is registered and its member
    /// set is empty.  Returns whether it was evicted.
    pub fn evict_room_if_empty(&mut self, room_id: &String) -> (evicted: bool)
        requires
            old(self).wf(),
        ensures
            final(self).wf(),
            evicted == (has_room(old(self)@, room_id@) && room_of(
                old(self)@,
                room_id@,
            ).members.len() == 0),
            evicted ==> (final(self)@ == old(self)@.remove(room_index(old(self)@, room_id@))
                && !has_room(final(self)@, room_id@)),
            !evicted ==> final(self)@ == old(self)@,
    {
        match self.index_of(room_id) {
            None => false,
            Some(i) => {
                proof {
                    lemma_room_index_unique(self@, room_id@, i as int);
                }
                if self.rooms[i].member_count() == 0 {
                    let ghost pre = self@;
                    let _ = self.rooms.remove(i);
                    proof {
                        assert(self@ =~= pre.remove(i as int));
                        assert forall|j: int|
                            0 <= j < self@.len() implies self@[j].id != room_id@ by {
                            if j < i {
                                assert(pre[j].id != pre[i as int].id);
                            } else {
                                assert(pre[j + 1].id != pre[i as int].id);
                            }
                        }
                    }
                    true
                } else {
                    false
                }
            },
        }
    }

    /// Mark a room ended: persist the end-of-life timestamp through the
    /// metadata gateway, then set it in memory.  Current members are not
    /// disconnected; they drain naturally, and new joins are rejected from now
    /// on.  The timestamp is set exactly once: ending an already ended room is
    /// a no-op that returns the room as it stands.  If the durable write
    /// fails, nothing changes in memory.
    pub fn end_room<R: IRoomRepository>(&mut self, store: &mut R, id: &String, time: i64) -> (r:
        Result<Room, RelayError>)
        requires
            old(self).wf(),
        ensures
            final(self).wf(),
            !has_room(old(self)@, id@) ==> (r == Err::<Room, RelayError>(RelayError::NotFound)
                && final(self)@ == old(self)@ && final(store).records() == old(store).records()),
            (has_room(old(self)@, id@) && room_of(old(self)@, id@).ended_at is Some) ==> (r
                matches Ok(room) && room@ == room_of(old(self)@, id@) && final(self)@ == old(self)@
                && final(store).records() == old(store).records()),
            (has_room(old(self)@, id@) && room_of(old(self)@, id@).ended_at is None && r is Ok)
                ==> (final(self)@ == old(self)@.update(
                room_index(old(self)@, id@),
                (RoomModel { ended_at: Some(time), ..room_of(old(self)@, id@) }),
            ) && final(store).records() == end_records(old(store).records(), id@, time)),
            r matches Ok(room) ==> ((has_room(old(self)@, id@) && room_of(
                old(self)@,
                id@,
            ).ended_at is None) ==> room@ == (RoomModel {
                ended_at: Some(time),
                ..room_of(old(self)@, id@)
            })),
            r matches Ok(room) ==> (has_room(old(self)@, id@) && room@.ended_at is Some),
            r is Err ==> (final(self)@ == old(self)@ && final(store).records() == old(
                store,
            ).records()),
            r matches Err(e) ==> (e == RelayError::NotFound || e == RelayError::StoreUnavailable),
            r == Err::<Room, RelayError>(RelayError::NotFound) ==> (!has_room(old(self)@, id@)
                || !has_record(old(store).records(), id@)),
            (has_room(old(self)@, id@) && old(store).infallible() && has_record(
                old(store).records(),
                id@,
            )) ==> r is Ok,
    {
        match self.index_of(id) {
            None => Err(RelayError::NotFound),
            Some(i) => {
                proof {
                    lemma_room_index_unique(self@, id@, i as int);
                }
                if self.rooms[i].is_ended() {
                    return Ok(self.rooms[i].clone());
                }
                match store.room_ended(id, time) {
                    Ok(_rec) => {
                        let ghost pre = self@;
                        let mut room = self.rooms.remove(i);
                        room.set_ended(time);
                        let ret = room.clone();
                        self.rooms.insert(i, room);
                        proof {
                            assert(self@ =~= pre.update(
                                i as int,
                                (RoomModel { ended_at: Some(time), ..pre[i as int] }),
                            ));
                            lemma_update_keeps_wf_full(
                                pre,
                                i as int,
                                (RoomModel { ended_at: Some(time), ..pre[i as int] }),
                            );
                        }
                        Ok(ret)
                    },
                    Err(e) => Err(e),
                }
            },
        }
    }
}

/// Updating one room with a room of the same identifier and a duplicate-free
/// member set keeps the registry well formed.
proof fn lemma_update_keeps_wf_full(rooms: Seq<RoomModel>, i: int, room: RoomModel)
    requires
        unique_ids(rooms),
        forall|k: int| 0 <= k < rooms.len() ==> (#[trigger] rooms[k].members).no_duplicates(),
        0 <= i < rooms.len(),
        room.id == rooms[i].id,
        room.members.no_duplicates(),
    ensures
        unique_ids(rooms.update(i, room)),
        forall|k: int|
            0 <= k < rooms.len() ==> (#[trigger] rooms.update(i, room)[k].members).no_duplicates(),
{
    let upd = rooms.update(i, room);
    assert forall|a: int, b: int|
        0 <= a < upd.len() && 0 <= b < upd.len() && a != b implies upd[a].id != upd[b].id by {
        assert(rooms[a].id != rooms[b].id);
    }
}

/// Creating a room and then looking it up yields a room with the requested
/// identifier and name, and no end-of-life marker.
pub proof fn lemma_create_then_get(
    rooms: Seq<RoomModel>,
    id: Seq<char>,
    name: Seq<char>,
    now: i64,
)
    requires
        unique_ids(rooms),
        !has_room(rooms, id),
    ensures
        ({
            let created = rooms.push(new_room_model(id, name, now));
            &&& has_room(created, id)
            &&& room_of(created, id) == new_room_model(id, name, now)
            &&& room_of(created, id).name == name
            &&& room_of(created, id).ended_at is None
            &&& room_of(created, id).members.len() == 0
        }),
{
    let created = rooms.push(new_room_model(id, name, now));
    assert(created[rooms.len() as int].id == id);
    assert forall|a: int, b: int|
        0 <= a < created.len() && 0 <= b < created.len() && a != b implies created[a].id
        != created[b].id by {
        if a < rooms.len() && b < rooms.len() {
            assert(rooms[a].id != rooms[b].id);
        }
    }
    lemma_room_index_unique(created, id, rooms.len() as int);
}

/// Leaving a room twice has the same observable effect as leaving it once.
pub proof fn lemma_leave_idempotent(rooms: Seq<RoomModel>, id: Seq<char>, c: u64)
    requires
        unique_ids(rooms),
    ensures
        leave_spec(leave_spec(rooms, id, c), id, c) == leave_spec(rooms, id, c),
{
    if has_room(rooms, id) {
        let i = room_index(rooms, id);
        assert(0 <= i < rooms.len() && rooms[i].id == id);
        let once = leave_spec(rooms, id, c);
        assert(once[i].id == id);
        assert forall|a: int, b: int|
            0 <= a < once.len() && 0 <= b < once.len() && a != b implies once[a].id
            != once[b].id by {
            assert(rooms[a].id != rooms[b].id);
        }
        lemma_room_index_unique(once, id, i);
        crate::models::lemma_without_idempotent(rooms[i].members, c);
        assert(leave_spec(once, id, c) =~= once);
    }
}

/// Any number of joins of pairwise distinct, not yet joined connections all
/// commit, and the member set grows by exactly that number: no join is lost.
pub open spec fn join_all(members: Seq<u64>, cs: Seq<u64>) -> Seq<u64>
    decreases cs.len(),
{
    if cs.len() == 0 {
        members
    } else {
        join_all(join_members(members, cs.first()), cs.drop_first())
    }
}

/// See [`join_all`]: joining `cs.len()` distinct new connections yields a
/// member set with exactly `members.len() + cs.len()` entries, still free of
/// duplicates.
pub proof fn lemma_joins_all_counted(members: Seq<u64>, cs: Seq<u64>)
    requires
        members.no_duplicates(),
        cs.no_duplicates(),
        forall|i: int| 0 <= i < cs.len() ==> !members.contains(#[trigger] cs[i]),
    ensures
        join_all(members, cs).len() == members.len() + cs.len(),
        join_all(members, cs).no_duplicates(),
        forall|x: u64|
            join_all(members, cs).contains(x) == (members.contains(x) || cs.contains(x)),
    decreases cs.len(),
{
    if cs.len() == 0 {
        assert(forall|x: u64| !cs.contains(x));
    } else {
        let c = cs.first();
        let rest = cs.drop_first();
        assert(cs[0] == c);
        assert(!members.contains(c));
        let joined = members.push(c);
        assert(join_members(members, c) == joined);
        assert forall|x: u64| joined.contains(x) implies members.contains(x) || x == c by {
            let k = choose|k: int| 0 <= k < joined.len() && joined[k] == x;
            if k < members.len() {
                assert(members[k] == x);
            }
        }
        assert(joined[members.len() as int] == c);
        assert forall|x: u64| members.contains(x) implies joined.contains(x) by {
            let k = choose|k: int| 0 <= k < members.len() && members[k] == x;
            assert(joined[k] == x);
        }
        assert(joined.no_duplicates());
        assert forall|i: int| 0 <= i < rest.len() implies !joined.contains(#[trigger] rest[i]) by {
            assert(cs[i + 1] == rest[i]);
            assert(!members.contains(rest[i]));
            assert(cs[0] != cs[i + 1]);
        }
        assert(rest.no_duplicates());
        lemma_joins_all_counted(joined, rest);
        assert forall|x: u64| cs.contains(x) implies x == c || rest.contains(x) by {
            let k = choose|k: int| 0 <= k < cs.len() && cs[k] == x;
            if k > 0 {
                assert(rest[k - 1] == x);
            }
        }
        assert forall|x: u64| rest.contains(x) implies cs.contains(x) by {
            let k = choose|k: int| 0 <= k < rest.len() && rest[k] == x;
            assert(cs[k + 1] == x);
        }
        assert(cs.contains(c));
    }
}

} // verus!
