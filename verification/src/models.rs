//! Rooms, durable room records, and their mathematical models.

use vstd::prelude::*;
use vstd::seq_lib::*;

verus! {

/// Durable room row, as the metadata gateway persists it.
///
/// Timestamps are seconds relative to an epoch, chosen by the caller; the core
/// never reads a clock itself.
#[derive(Debug)]
pub struct RoomRecord {
    pub id: String,
    pub name: String,
    pub created_at: i64,
    pub ended_at: Option<i64>,
}

/// Model of a [`RoomRecord`].
pub ghost struct RecordModel {
    pub id: Seq<char>,
    pub name: Seq<char>,
    pub created_at: i64,
    pub ended_at: Option<i64>,
}

impl View for RoomRecord {
    type V = RecordModel;

    open spec fn view(&self) -> RecordModel {
        RecordModel {
            id: self.id@,
            name: self.name@,
            created_at: self.created_at,
            ended_at: self.ended_at,
        }
    }
}

impl Clone for RoomRecord {
    /// A clone carries the same model.
    fn clone(&self) -> (r: Self)
        ensures
            r@ == self@,
    {
        RoomRecord {
            id: self.id.clone(),
            name: self.name.clone(),
            created_at: self.created_at,
            ended_at: self.ended_at,
        }
    }
}

/// An in-memory fan-out unit: the set of currently joined connections plus the
/// room's immutable metadata and its lifecycle end marker.
#[derive(Debug)]
pub struct Room {
    pub id: String,
    pub name: String,
    pub created_at: i64,
    pub ended_at: Option<i64>,
    pub members: Vec<u64>,
}

/// Model of a [`Room`].  `members` never holds a connection twice
/// (see [`Room::wf`]).
pub ghost struct RoomModel {
    pub id: Seq<char>,
    pub name: Seq<char>,
    pub created_at: i64,
    pub ended_at: Option<i64>,
    pub members: Seq<u64>,
}

impl View for Room {
    type V = RoomModel;

    open spec fn view(&self) -> RoomModel {
        RoomModel {
            id: self.id@,
            name: self.name@,
            created_at: self.created_at,
            ended_at: self.ended_at,
            members: self.members@,
        }
    }
}

/// The model of a freshly created room: empty member set, no end marker.
pub open spec fn new_room_model(id: Seq<char>, name: Seq<char>, now: i64) -> RoomModel {
    RoomModel { id: id, name: name, created_at: now, ended_at: None, members: Seq::empty() }
}

/// The durable image of a freshly created room.
pub open spec fn new_record_model(id: Seq<char>, name: Seq<char>, now: i64) -> RecordModel {
    RecordModel { id: id, name: name, created_at: now, ended_at: None }
}

/// Member set after a join: adding is idempotent, a present member is not
/// added twice.
pub open spec fn join_members(members: Seq<u64>, c: u64) -> Seq<u64> {
    if members.contains(c) {
        members
    } else {
        members.push(c)
    }
}

/// Member set after a leave: every occurrence of `c` is removed, everything
/// else keeps its order.
pub open spec fn without(s: Seq<u64>, c: u64) -> Seq<u64>
    decreases s.len(),
{
    if s.len() == 0 {
        s
    } else {
        let rest = without(s.drop_last(), c);
        if s.last() == c {
            rest
        } else {
            rest.push(s.last())
        }
    }
}

/// What `without` keeps: exactly the other elements, and no duplicate is
/// introduced; removing a present element of a duplicate-free set shrinks it
/// by one.
pub proof fn lemma_without_props(s: Seq<u64>, c: u64)
    ensures
        !without(s, c).contains(c),
        forall|x: u64| x != c ==> without(s, c).contains(x) == s.contains(x),
        without(s, c).len() <= s.len(),
        !s.contains(c) ==> without(s, c) == s,
        s.no_duplicates() ==> without(s, c).no_duplicates(),
        s.no_duplicates() && s.contains(c) ==> without(s, c).len() == s.len() - 1,
        !s.contains(c) ==> without(s, c).len() == s.len(),
    decreases s.len(),
{
    if s.len() == 0 {
        assert(forall|x: u64| !s.contains(x));
    } else {
        let d = s.drop_last();
        lemma_without_props(d, c);
        assert forall|x: u64| s.contains(x) implies d.contains(x) || x == s.last() by {
            let i = choose|i: int| 0 <= i < s.len() && s[i] == x;
            if i < s.len() - 1 {
                assert(d[i] == x);
            }
        }
        assert forall|x: u64| d.contains(x) implies s.contains(x) by {
            let i = choose|i: int| 0 <= i < d.len() && d[i] == x;
            assert(s[i] == x);
        }
        assert(s.contains(s.last()));
        if s.no_duplicates() {
            assert(d.no_duplicates());
            assert(!d.contains(s.last()));
        }
        let rest = without(d, c);
        if s.last() == c {
            assert(without(s, c) == rest);
        } else {
            assert(without(s, c) == rest.push(s.last()));
            assert forall|x: u64| rest.push(s.last()).contains(x) implies rest.contains(x) || x
                == s.last() by {
                let i = choose|i: int|
                    0 <= i < rest.push(s.last()).len() && rest.push(s.last())[i] == x;
                if i < rest.len() {
                    assert(rest[i] == x);
                }
            }
            assert(rest.push(s.last())[rest.len() as int] == s.last());
            assert(rest.push(s.last()).contains(s.last()));
            assert forall|x: u64| rest.contains(x) implies rest.push(s.last()).contains(x) by {
                let i = choose|i: int| 0 <= i < rest.len() && rest[i] == x;
                assert(rest.push(s.last())[i] == x);
            }
        }
        if !s.contains(c) {
            assert(!d.contains(c));
            assert(without(d, c) == d);
            assert(s.last() != c);
            assert(without(s, c) =~= s);
        }
    }
}

/// Leaving twice removes nothing more: `without` is idempotent.
pub proof fn lemma_without_idempotent(s: Seq<u64>, c: u64)
    ensures
        without(without(s, c), c) == without(s, c),
{
    lemma_without_props(s, c);
    lemma_without_props(without(s, c), c);
}

impl Room {
    /// The member set holds no connection twice.
    pub open spec fn wf(&self) -> bool {
        self@.members.no_duplicates()
    }

    /// A fresh room: empty member set, `created_at` as given, no end marker.
    pub fn new(id: String, name: String, created_at: i64) -> (r: Room)
        ensures
            r@ == new_room_model(id@, name@, created_at),
            r.wf(),
    {
        Room { id, name, created_at, ended_at: None, members: Vec::new() }
    }

    /// Whether the room's end-of-life timestamp is set.
    pub fn is_ended(&self) -> (b: bool)
        ensures
            b == (self@.ended_at is Some),
    {
        self.ended_at.is_some()
    }

    /// Whether connection `c` is currently a member.
    pub fn has_member(&self, c: u64) -> (b: bool)
        ensures
            b == self@.members.contains(c),
    {
        let mut i: usize = 0;
        while i < self.members.len()
            invariant
                i <= self.members.len(),
                forall|j: int| 0 <= j < i ==> self.members@[j] != c,
            decreases self.members.len() - i,
        {
            if self.members[i] == c {
                return true;
            }
            i = i + 1;
        }
        false
    }

    /// Add `c` to the member set; a present member is left alone, so the call
    /// is idempotent and never duplicates an entry.
    pub fn add_member(&mut self, c: u64)
        requires
            old(self).wf(),
        ensures
            final(self).wf(),
            final(self)@ == (RoomModel { members: join_members(old(self)@.members, c), ..old(self)@ }),
    {
        if !self.has_member(c) {
            self.members.push(c);
            proof {
                assert forall|i: int, j: int|
                    0 <= i < self@.members.len() && 0 <= j < self@.members.len() && i
                        != j implies self@.members[i] != self@.members[j] by {
                    if i < self@.members.len() - 1 && j < self@.members.len() - 1 {
                        assert(old(self)@.members[i] != old(self)@.members[j]);
                    } else {
                        assert(!old(self)@.members.contains(c));
                    }
                }
            }
        }
    }

    /// Remove `c` from the member set; removing an absent connection is a
    /// no-op, not an error.
    pub fn remove_member(&mut self, c: u64)
        requires
            old(self).wf(),
        ensures
            final(self).wf(),
            final(self)@ == (RoomModel { members: without(old(self)@.members, c), ..old(self)@ }),
    {
        let ghost orig = self.members@;
        let mut kept: Vec<u64> = Vec::new();
        let mut i: usize = 0;
        while i < self.members.len()
            invariant
                i <= self.members.len(),
                self.members@ == orig,
                kept@ == without(orig.subrange(0, i as int), c),
            decreases self.members.len() - i,
        {
            let m = self.members[i];
            proof {
                let pre = orig.subrange(0, i as int);
                assert(orig.subrange(0, i as int + 1).drop_last() =~= pre);
                assert(orig.subrange(0, i as int + 1).last() == orig[i as int]);
            }
            if m != c {
                kept.push(m);
            }
            i = i + 1;
        }
        proof {
            assert(orig.subrange(0, orig.len() as int) =~= orig);
            lemma_without_props(orig, c);
        }
        self.members = kept;
    }

    /// Set the end-of-life timestamp.  The caller guards the one-time
    /// transition; see the registry's end operation.
    pub fn set_ended(&mut self, time: i64)
        requires
            old(self).wf(),
        ensures
            final(self).wf(),
            final(self)@ == (RoomModel { ended_at: Some(time), ..old(self)@ }),
    {
        self.ended_at = Some(time);
    }

    /// Number of current members.
    pub fn member_count(&self) -> (n: usize)
        ensures
            n == self@.members.len(),
    {
        self.members.len()
    }

}

impl Clone for Room {
    /// A clone carries the same model.
    fn clone(&self) -> (r: Self)
        ensures
            r@ == self@,
    {
        Room {
            id: self.id.clone(),
            name: self.name.clone(),
            created_at: self.created_at,
            ended_at: self.ended_at,
            members: copy_members(&self.members),
        }
    }
}

/// An elementwise copy of a member vector.
fn copy_members(v: &Vec<u64>) -> (r: Vec<u64>)
    ensures
        r@ == v@,
{
    let mut r: Vec<u64> = Vec::new();
    let mut i: usize = 0;
    while i < v.len()
        invariant
            i <= v.len(),
            r@ == v@.subrange(0, i as int),
        decreases v.len() - i,
    {
        r.push(v[i]);
        proof {
            assert(v@.subrange(0, i as int + 1) =~= v@.subrange(0, i as int).push(v@[i as int]));
        }
        i = i + 1;
    }
    proof {
        assert(v@.subrange(0, v.len() as int) =~= v@);
    }
    r
}

} // verus!
