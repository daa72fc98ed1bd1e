//! The metadata gateway: the interface the core consumes for durable room
//! records, with a verified in-memory adapter and an always-failing adapter.
//!
//! The durable store is consulted only for room-creation validation and
//! end-of-life bookkeeping; it is never on the per-message fan-out path.  A
//! process talking to a real database supplies its own adapter implementing
//! [`IRoomRepository`] outside this crate.

use vstd::prelude::*;

use crate::errors::RelayError;
use crate::models::{new_record_model, RecordModel, RoomRecord};

verus! {

/// The models of a sequence of records.
pub open spec fn records_view(v: Seq<RoomRecord>) -> Seq<RecordModel> {
    v.map_values(|x: RoomRecord| x@)
}

/// Whether some record with identifier `id` is present.
pub open spec fn has_record(records: Seq<RecordModel>, id: Seq<char>) -> bool {
    exists|i: int| 0 <= i < records.len() && records[i].id == id
}

/// No two records share an identifier.
pub open spec fn unique_record_ids(records: Seq<RecordModel>) -> bool {
    forall|i: int, j: int|
        0 <= i < records.len() && 0 <= j < records.len() && i != j ==> records[i].id
            != records[j].id
}

/// The index of the record with identifier `id` (meaningful when present and
/// identifiers are unique).
pub open spec fn record_index(records: Seq<RecordModel>, id: Seq<char>) -> int {
    choose|i: int| 0 <= i < records.len() && records[i].id == id
}

/// The record with identifier `id`.
pub open spec fn record_of(records: Seq<RecordModel>, id: Seq<char>) -> RecordModel {
    records[record_index(records, id)]
}

/// With unique identifiers, a position holding `id` is the position
/// `record_index` denotes.
pub proof fn lemma_record_index_unique(records: Seq<RecordModel>, id: Seq<char>, i: int)
    requires
        unique_record_ids(records),
        0 <= i < records.len(),
        records[i].id == id,
    ensures
        has_record(records, id),
        record_index(records, id) == i,
        record_of(records, id) == records[i],
{
    assert(has_record(records, id));
    let j = record_index(records, id);
    assert(0 <= j < records.len() && records[j].id == id);
    if i != j {
        assert(records[i].id != records[j].id);
    }
}

/// One record after a room end is persisted: a record with identifier `id`
/// and no end marker yet gets `ended_at = Some(time)`; an already set end
/// marker is kept — the end-of-life timestamp is set exactly once.
pub open spec fn end_record(rec: RecordModel, id: Seq<char>, time: i64) -> RecordModel {
    if rec.id == id && rec.ended_at is None {
        RecordModel { ended_at: Some(time), ..rec }
    } else {
        rec
    }
}

/// The whole store after a room end is persisted; records with other
/// identifiers are untouched.
pub open spec fn end_records(records: Seq<RecordModel>, id: Seq<char>, time: i64) -> Seq<
    RecordModel,
> {
    records.map_values(|rec: RecordModel| end_record(rec, id, time))
}

/// Durable storage interface for room records.
///
/// Any method may fail with `StoreUnavailable`: the interface never promises
/// that the backing store is reachable.  What it does promise is how the
/// store's contents — `records()` — relate to each outcome.  The in-memory
/// adapters below prove stronger contracts of their own: the in-memory store
/// in particular promises success wherever the data allows it.
pub trait IRoomRepository: Sized {
    /// The records the store currently holds, in storage order.  An adapter
    /// outside this crate is trusted to meet the method contracts below for
    /// its own contents; the default model is the empty store.
    open spec fn records(&self) -> Seq<RecordModel> {
        Seq::empty()
    }

    /// Whether this store can never fail with `StoreUnavailable`.  An adapter
    /// over process memory overrides this with `true` and thereby owes success
    /// wherever the data allows it; an adapter over a real database keeps the
    /// default `false` and owes no success at all.
    open spec fn infallible(&self) -> bool {
        false
    }

    /// Persist a new room record with a fresh identifier.  Fails with
    /// `Conflict` if the identifier is already present and with
    /// `StoreUnavailable` on I/O failure; on failure nothing is written.
    fn create(&mut self, id: &String, name: &String, now: i64) -> (r: Result<
        RoomRecord,
        RelayError,
    >)
        ensures
            r matches Ok(rec) ==> (!has_record(old(self).records(), id@) && rec@
                == new_record_model(id@, name@, now) && final(self).records() == old(
                self,
            ).records().push(new_record_model(id@, name@, now))),
            r matches Err(e) ==> (final(self).records() == old(self).records() && (e
                == RelayError::Conflict || e == RelayError::StoreUnavailable) && (e
                == RelayError::Conflict ==> has_record(old(self).records(), id@))),
            (old(self).infallible() && !has_record(old(self).records(), id@)) ==> r is Ok,
    ;

    /// Fetch the record with identifier `id`, if any.
    fn find_by_id(&self, id: &String) -> (r: Result<Option<RoomRecord>, RelayError>)
        ensures
            r matches Ok(Some(rec)) ==> (exists|i: int|
                0 <= i < self.records().len() && self.records()[i] == rec@ && rec@.id == id@),
            r matches Ok(None) ==> !has_record(self.records(), id@),
            r matches Err(e) ==> e == RelayError::StoreUnavailable,
            self.infallible() ==> r is Ok,
    ;

    /// Fetch every record, in storage order.
    fn find_all(&self) -> (r: Result<Vec<RoomRecord>, RelayError>)
        ensures
            r matches Ok(v) ==> records_view(v@) == self.records(),
            r matches Err(e) ==> e == RelayError::StoreUnavailable,
            self.infallible() ==> r is Ok,
    ;

    /// Persist a room's end-of-life timestamp, at most once: a record whose
    /// end marker is already set keeps it.  Fails with `NotFound` if no
    /// record has this identifier; on failure nothing is written.
    fn room_ended(&mut self, id: &String, time: i64) -> (r: Result<RoomRecord, RelayError>)
        ensures
            r matches Ok(rec) ==> (has_record(old(self).records(), id@) && final(self).records()
                == end_records(old(self).records(), id@, time) && rec@.id == id@ && rec@.ended_at
                is Some),
            r matches Err(e) ==> (final(self).records() == old(self).records() && (e
                == RelayError::NotFound || e == RelayError::StoreUnavailable) && (e
                == RelayError::NotFound ==> !has_record(old(self).records(), id@))),
            (old(self).infallible() && has_record(old(self).records(), id@)) ==> r is Ok,
    ;
}

/// A metadata gateway backed by process memory: the fake adapter for tests and
/// for running the relay without a database.  Unlike the interface, which must
/// allow an unreachable backing store, this adapter promises success wherever
/// the data allows it, and pins each error to its one cause.
pub struct InMemoryRoomRepository {
    records: Vec<RoomRecord>,
}

impl InMemoryRoomRepository {
    /// No two stored records share an identifier.
    #[verifier::type_invariant]
    spec fn inv(self) -> bool {
        unique_record_ids(records_view(self.records@))
    }

    /// An empty store.
    pub fn new() -> (r: InMemoryRoomRepository)
        ensures
            r.records() == Seq::<RecordModel>::empty(),
    {
        let r = InMemoryRoomRepository { records: Vec::new() };
        proof {
            assert(records_view(r.records@) =~= Seq::<RecordModel>::empty());
        }
        r
    }

    /// Index of the record with identifier `id`, if any.
    fn index_of(&self, id: &String) -> (r: Option<usize>)
        ensures
            match r {
                Some(i) => i < self.records@.len() && self.records()[i as int].id == id@,
                None => !has_record(self.records(), id@),
            },
    {
        let mut i: usize = 0;
        while i < self.records.len()
            invariant
                i <= self.records.len(),
                forall|j: int| 0 <= j < i ==> records_view(self.records@)[j].id != id@,
            decreases self.records.len() - i,
        {
            if self.records[i].id == *id {
                return Some(i);
            }
            i = i + 1;
        }
        None
    }
}

impl IRoomRepository for InMemoryRoomRepository {
    closed spec fn records(&self) -> Seq<RecordModel> {
        records_view(self.records@)
    }

    open spec fn infallible(&self) -> bool {
        true
    }

    /// In memory, creation succeeds exactly when the identifier is fresh, and
    /// the only error is `Conflict`.
    fn create(&mut self, id: &String, name: &String, now: i64) -> (r: Result<
        RoomRecord,
        RelayError,
    >)
        ensures
            (r is Ok) == !has_record(old(self).records(), id@),
            r matches Err(e) ==> e == RelayError::Conflict,
            unique_record_ids(final(self).records()),
    {
        proof {
            use_type_invariant(&*self);
        }
        if self.index_of(id).is_some() {
            return Err(RelayError::Conflict);
        }
        let rec = RoomRecord { id: id.clone(), name: name.clone(), created_at: now, ended_at: None };
        let ret = rec.clone();
        let mut recs: Vec<RoomRecord> = Vec::new();
        std::mem::swap(&mut recs, &mut self.records);
        recs.push(rec);
        proof {
            assert(records_view(recs@) =~= records_view(old(self).records@).push(
                new_record_model(id@, name@, now),
            ));
            let upd = records_view(recs@);
            assert forall|a: int, b: int|
                0 <= a < upd.len() && 0 <= b < upd.len() && a != b implies upd[a].id
                != upd[b].id by {
                if a < upd.len() - 1 && b < upd.len() - 1 {
                    assert(records_view(old(self).records@)[a].id != records_view(
                        old(self).records@,
                    )[b].id);
                }
            }
        }
        self.records = recs;
        Ok(ret)
    }

    /// The in-memory read always succeeds: `Some` of the stored record exactly
    /// when the identifier is present.
    fn find_by_id(&self, id: &String) -> (r: Result<Option<RoomRecord>, RelayError>)
        ensures
            r is Ok,
            unique_record_ids(self.records()),
            has_record(self.records(), id@) ==> (r matches Ok(Some(rec)) && rec@ == record_of(
                self.records(),
                id@,
            )),
            !has_record(self.records(), id@) ==> r == Ok::<Option<RoomRecord>, RelayError>(None),
    {
        proof {
            use_type_invariant(&*self);
        }
        match self.index_of(id) {
            Some(i) => {
                proof {
                    lemma_record_index_unique(self.records(), id@, i as int);
                }
                Ok(Some(self.records[i].clone()))
            },
            None => Ok(None),
        }
    }

    /// The in-memory listing always succeeds.
    fn find_all(&self) -> (r: Result<Vec<RoomRecord>, RelayError>)
        ensures
            r is Ok,
    {
        let mut out: Vec<RoomRecord> = Vec::new();
        let mut i: usize = 0;
        while i < self.records.len()
            invariant
                i <= self.records.len(),
                out@.len() == i,
                forall|j: int| 0 <= j < i ==> out@[j]@ == self.records@[j]@,
            decreases self.records.len() - i,
        {
            out.push(self.records[i].clone());
            i = i + 1;
        }
        proof {
            assert(records_view(out@) =~= records_view(self.records@));
        }
        Ok(out)
    }

    /// In memory, ending succeeds exactly when the identifier is present; the
    /// only error is `NotFound`, and the returned record is the stored record
    /// with its end marker set at most once.
    fn room_ended(&mut self, id: &String, time: i64) -> (r: Result<RoomRecord, RelayError>)
        ensures
            (r is Ok) == has_record(old(self).records(), id@),
            r matches Err(e) ==> e == RelayError::NotFound,
            r matches Ok(rec) ==> rec@ == end_record(
                record_of(old(self).records(), id@),
                id@,
                time,
            ),
            unique_record_ids(final(self).records()),
    {
        proof {
            use_type_invariant(&*self);
        }
        let ghost orig = self.records@;
        let mut recs: Vec<RoomRecord> = Vec::new();
        std::mem::swap(&mut recs, &mut self.records);
        let mut out: Vec<RoomRecord> = Vec::new();
        let mut updated: Option<RoomRecord> = None;
        let mut i: usize = 0;
        while i < recs.len()
            invariant
                i <= recs.len(),
                recs@ == orig,
                out@.len() == i,
                forall|j: int| 0 <= j < i ==> out@[j]@ == end_record(orig[j]@, id@, time),
                match updated {
                    Some(rec) => exists|j: int|
                        0 <= j < i && orig[j]@.id == id@ && rec@ == end_record(orig[j]@, id@, time),
                    None => forall|j: int| 0 <= j < i ==> orig[j]@.id != id@,
                },
            decreases recs.len() - i,
        {
            let cur = &recs[i];
            if cur.id == *id {
                let rec = if cur.ended_at.is_some() {
                    cur.clone()
                } else {
                    RoomRecord {
                        id: cur.id.clone(),
                        name: cur.name.clone(),
                        created_at: cur.created_at,
                        ended_at: Some(time),
                    }
                };
                if updated.is_none() {
                    updated = Some(rec.clone());
                }
                out.push(rec);
            } else {
                out.push(cur.clone());
            }
            i = i + 1;
        }
        match updated {
            Some(rec) => {
                proof {
                    assert(records_view(out@) =~= end_records(records_view(orig), id@, time));
                    let j = choose|j: int|
                        0 <= j < orig.len() && orig[j]@.id == id@ && rec@ == end_record(
                            orig[j]@,
                            id@,
                            time,
                        );
                    assert(records_view(orig)[j].id == id@);
                    lemma_record_index_unique(records_view(orig), id@, j);
                    let upd = records_view(out@);
                    assert forall|a: int, b: int|
                        0 <= a < upd.len() && 0 <= b < upd.len() && a != b implies upd[a].id
                        != upd[b].id by {
                        assert(records_view(orig)[a].id != records_view(orig)[b].id);
                    }
                }
                self.records = out;
                Ok(rec)
            },
            None => {
                self.records = recs;
                Err(RelayError::NotFound)
            },
        }
    }
}

/// A metadata gateway whose backing store is unreachable: every call fails
/// with `StoreUnavailable`, and with nothing else.  It exercises the
/// durability-failure paths, such as the rollback of an in-memory room
/// creation.
pub struct UnavailableRoomRepository {
    pub reason: String,
}

impl IRoomRepository for UnavailableRoomRepository {
    open spec fn records(&self) -> Seq<RecordModel> {
        Seq::empty()
    }

    fn create(&mut self, id: &String, name: &String, now: i64) -> (r: Result<
        RoomRecord,
        RelayError,
    >)
        ensures
            r == Err::<RoomRecord, RelayError>(RelayError::StoreUnavailable),
    {
        Err(RelayError::StoreUnavailable)
    }

    fn find_by_id(&self, id: &String) -> (r: Result<Option<RoomRecord>, RelayError>)
        ensures
            r == Err::<Option<RoomRecord>, RelayError>(RelayError::StoreUnavailable),
    {
        Err(RelayError::StoreUnavailable)
    }

    fn find_all(&self) -> (r: Result<Vec<RoomRecord>, RelayError>)
        ensures
            r matches Err(e) ==> e == RelayError::StoreUnavailable,
            r is Err,
    {
        Err(RelayError::StoreUnavailable)
    }

    fn room_ended(&mut self, id: &String, time: i64) -> (r: Result<RoomRecord, RelayError>)
        ensures
            r == Err::<RoomRecord, RelayError>(RelayError::StoreUnavailable),
    {
        Err(RelayError::StoreUnavailable)
    }
}

} // verus!
