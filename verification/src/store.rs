//! The room store: durable, keyed-by-room-id storage of room records.
//!
//! Its view is a map from room id (as a sequence of characters) to the stored
//! [`Coinflip`] record. Every stored record satisfies [`Coinflip::wf`]; the
//! store's operations demand it on the way in and hand it back on the way
//! out.

use vstd::prelude::*;

use crate::errors::GameError;
use crate::room::Coinflip;

verus! {

/// One stored room and the id it is keyed by.
pub struct RoomEntry {
    pub room_id: String,
    pub room: Coinflip,
}

/// The room store.
pub struct RoomStore {
    entries: Vec<RoomEntry>,
}

/// The room stored under `id`, reading the entries front to back.
spec fn spec_room(s: Seq<RoomEntry>, id: Seq<char>) -> Option<Coinflip>
    decreases s.len(),
{
    if s.len() == 0 {
        None
    } else if s[0].room_id@ == id {
        Some(s[0].room)
    } else {
        spec_room(s.drop_first(), id)
    }
}

proof fn lemma_room_found(s: Seq<RoomEntry>, i: int)
    requires
        0 <= i < s.len(),
        forall|j: int| 0 <= j < i ==> s[j].room_id@ != s[i].room_id@,
    ensures
        spec_room(s, s[i].room_id@) == Some(s[i].room),
    decreases i,
{
    if i > 0 {
        assert(s.drop_first()[i - 1] == s[i]);
        lemma_room_found(s.drop_first(), i - 1);
    }
}

proof fn lemma_room_absent(s: Seq<RoomEntry>, id: Seq<char>)
    requires
        forall|j: int| 0 <= j < s.len() ==> s[j].room_id@ != id,
    ensures
        spec_room(s, id) is None,
    decreases s.len(),
{
    if s.len() > 0 {
        lemma_room_absent(s.drop_first(), id);
    }
}

proof fn lemma_room_update(s: Seq<RoomEntry>, i: int, e: RoomEntry, k: Seq<char>)
    requires
        0 <= i < s.len(),
        e.room_id@ == s[i].room_id@,
        forall|p: int, q: int| 0 <= p < q < s.len() ==> s[p].room_id@ != s[q].room_id@,
    ensures
        spec_room(s.update(i, e), k) == (if k == e.room_id@ {
            Some(e.room)
        } else {
            spec_room(s, k)
        }),
    decreases i,
{
    let t = s.update(i, e);
    if i == 0 {
        assert(t.drop_first() =~= s.drop_first());
    } else {
        assert(t[0] == s[0]);
        assert(t.drop_first() =~= s.drop_first().update(i - 1, e));
        assert(s.drop_first()[i - 1] == s[i]);
        lemma_room_update(s.drop_first(), i - 1, e, k);
        if k == e.room_id@ {
            assert(s[0].room_id@ != s[i].room_id@);
        }
    }
}

proof fn lemma_room_push(s: Seq<RoomEntry>, e: RoomEntry, k: Seq<char>)
    ensures
        spec_room(s.push(e), k) == (if spec_room(s, k) is Some {
            spec_room(s, k)
        } else if k == e.room_id@ {
            Some(e.room)
        } else {
            None
        }),
    decreases s.len(),
{
    let t = s.push(e);
    if s.len() == 0 {
        assert(t[0] == e);
        assert(t.drop_first() =~= Seq::<RoomEntry>::empty());
        if k == e.room_id@ {
            assert(spec_room(t, k) == Some(e.room));
        } else {
            assert(spec_room(t, k) == spec_room(t.drop_first(), k));
            assert(spec_room(t, k) is None);
        }
        assert(spec_room(s, k) is None);
    } else {
        assert(t[0] == s[0]);
        assert(t.drop_first() =~= s.drop_first().push(e));
        lemma_room_push(s.drop_first(), e, k);
        if s[0].room_id@ == k {
            assert(spec_room(t, k) == Some(s[0].room));
            assert(spec_room(s, k) == Some(s[0].room));
        } else {
            assert(spec_room(t, k) == spec_room(s.drop_first().push(e), k));
            assert(spec_room(s, k) == spec_room(s.drop_first(), k));
        }
    }
}

impl View for RoomStore {
    type V = Map<Seq<char>, Coinflip>;

    /// The model of the store: room id -> stored record.
    closed spec fn view(&self) -> Map<Seq<char>, Coinflip> {
        Map::new(
            |k: Seq<char>| spec_room(self.entries@, k) is Some,
            |k: Seq<char>| spec_room(self.entries@, k).unwrap(),
        )
    }
}

impl RoomStore {
    /// Distinct entries carry distinct ids, and every stored room is
    /// well-formed.
    pub closed spec fn wf(&self) -> bool {
        &&& forall|p: int, q: int|
            0 <= p < q < self.entries@.len() ==> self.entries@[p].room_id@
                != self.entries@[q].room_id@
        &&& forall|j: int| 0 <= j < self.entries@.len() ==> (#[trigger] self.entries@[j].room).wf()
    }

    /// A store with no rooms.
    pub fn new() -> (r: RoomStore)
        ensures
            r.wf(),
            r@ == Map::<Seq<char>, Coinflip>::empty(),
    {
        let r = RoomStore { entries: Vec::new() };
        proof {
            assert(r@ =~= Map::<Seq<char>, Coinflip>::empty());
        }
        r
    }

    /// The position of the entry keyed by `room_id`, if one exists.
    fn find_index(&self, room_id: &String) -> (r: Option<usize>)
        ensures
            match r {
                Some(i) => {
                    &&& i < self.entries@.len()
                    &&& self.entries@[i as int].room_id@ == room_id@
                    &&& forall|j: int| 0 <= j < i ==> self.entries@[j].room_id@ != room_id@
                },
                None => forall|j: int|
                    0 <= j < self.entries@.len() ==> self.entries@[j].room_id@ != room_id@,
            },
    {
        let mut i: usize = 0;
        while i < self.entries.len()
            invariant
                i <= self.entries@.len(),
                forall|j: int| 0 <= j < i ==> self.entries@[j].room_id@ != room_id@,
            decreases self.entries@.len() - i,
        {
            if self.entries[i].room_id == *room_id {
                return Some(i);
            }
            i = i + 1;
        }
        None
    }

    /// The room stored under `room_id`, if any; a stored room is well-formed.
    pub fn get(&self, room_id: &String) -> (r: Option<Coinflip>)
        ensures
            r == (if self@.contains_key(room_id@) {
                Some(self@[room_id@])
            } else {
                None::<Coinflip>
            }),
            self.wf() && r is Some ==> r.unwrap().wf(),
    {
        match self.find_index(room_id) {
            Some(i) => {
                proof {
                    lemma_room_found(self.entries@, i as int);
                }
                Some(self.entries[i].room)
            },
            None => {
                proof {
                    lemma_room_absent(self.entries@, room_id@);
                }
                None
            },
        }
    }

    /// Stores `room` under `room_id`; refused if the id is already taken.
    pub fn create_if_absent(&mut self, room_id: &String, room: Coinflip) -> (r: Result<
        (),
        GameError,
    >)
        requires
            old(self).wf(),
            room.wf(),
        ensures
            final(self).wf(),
            r is Ok <==> !old(self)@.contains_key(room_id@),
            r is Ok ==> final(self)@ == old(self)@.insert(room_id@, room),
            r is Err ==> r == Err::<(), GameError>(GameError::AlreadyExists) && *final(self)
                == *old(self),
    {
        match self.find_index(room_id) {
            Some(i) => {
                proof {
                    lemma_room_found(self.entries@, i as int);
                }
                Err(GameError::AlreadyExists)
            },
            None => {
                proof {
                    lemma_room_absent(self.entries@, room_id@);
                }
                let entry = RoomEntry { room_id: room_id.clone(), room };
                let ghost s = self.entries@;
                self.entries.push(entry);
                proof {
                    assert forall|k: Seq<char>| #[trigger] spec_room(s.push(entry), k) == (if k
                        == room_id@ {
                        Some(room)
                    } else {
                        spec_room(s, k)
                    }) by {
                        lemma_room_push(s, entry, k);
                        if k != room_id@ && spec_room(s, k) is None {
                            assert(spec_room(s.push(entry), k) is None);
                        }
                    };
                    assert(self@ =~= old(self)@.insert(room_id@, room));
                }
                Ok(())
            },
        }
    }

    /// Replaces the room stored under `room_id`; refused if none is stored.
    pub fn put(&mut self, room_id: &String, room: Coinflip) -> (r: Result<(), GameError>)
        requires
            old(self).wf(),
            room.wf(),
        ensures
            final(self).wf(),
            r is Ok <==> old(self)@.contains_key(room_id@),
            r is Ok ==> final(self)@ == old(self)@.insert(room_id@, room),
            r is Err ==> r == Err::<(), GameError>(GameError::RoomNotFound) && *final(self)
                == *old(self),
    {
        match self.find_index(room_id) {
            Some(i) => {
                proof {
                    lemma_room_found(self.entries@, i as int);
                }
                let entry = RoomEntry { room_id: room_id.clone(), room };
                let ghost s = self.entries@;
                self.entries.set(i, entry);
                proof {
                    assert forall|k: Seq<char>| #[trigger] spec_room(s.update(i as int, entry), k)
                        == (if k == room_id@ {
                        Some(room)
                    } else {
                        spec_room(s, k)
                    }) by {
                        lemma_room_update(s, i as int, entry, k);
                    };
                    assert(self@ =~= old(self)@.insert(room_id@, room));
                }
                Ok(())
            },
            None => {
                proof {
                    lemma_room_absent(self.entries@, room_id@);
                }
                Err(GameError::RoomNotFound)
            },
        }
    }
}

} // verus!
