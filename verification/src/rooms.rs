//! The rooms of this process, and which room each connection is in.

use crate::game::Room;
use crate::ids::Uuid;
use crate::room_model::RoomModel;
use crate::text::{opt_text, texts};
use vstd::prelude::*;

verus! {

/// How long the game loop may sleep at most, in milliseconds.
pub const BEVY_IDLE_WAKE_MS: u64 = 400;

/// The first room from `from` on with the given code.
pub open spec fn room_from(rooms: Seq<RoomModel>, code: Seq<char>, from: int) -> Option<int>
    decreases rooms.len() - from,
{
    if from >= rooms.len() {
        None
    } else if rooms[from].code == code {
        Some(from)
    } else {
        room_from(rooms, code, from + 1)
    }
}

/// Where the room with the given code stands.
pub open spec fn room_row(rooms: Seq<RoomModel>, code: Seq<char>) -> Option<int> {
    room_from(rooms, code, 0)
}

/// The room with the given code.
pub open spec fn room_named(rooms: Seq<RoomModel>, code: Seq<char>) -> Option<RoomModel> {
    match room_row(rooms, code) {
        Some(i) => Some(rooms[i]),
        None => None,
    }
}

/// The rooms with the given one in place of the one with its code, or added to them.
pub open spec fn with_upserted(rooms: Seq<RoomModel>, room: RoomModel) -> Seq<RoomModel> {
    match room_row(rooms, room.code) {
        Some(i) => rooms.update(i, room),
        None => rooms.push(room),
    }
}

/// The rooms without the one with the given code.
pub open spec fn with_dropped(rooms: Seq<RoomModel>, code: Seq<char>) -> Seq<RoomModel> {
    match room_row(rooms, code) {
        Some(i) => rooms.remove(i),
        None => rooms,
    }
}

/// No two rooms have the same code.
pub open spec fn distinct_codes(rooms: Seq<RoomModel>) -> bool {
    forall|i: int, j: int|
        0 <= i < j < rooms.len() ==> (#[trigger] rooms[i]).code != (#[trigger] rooms[j]).code
}

/// The codes of all rooms but the one to keep.
pub open spec fn codes_but(rooms: Seq<RoomModel>, keep: Option<Seq<char>>) -> Seq<Seq<char>>
    decreases rooms.len(),
{
    if rooms.len() == 0 {
        seq![]
    } else if keep == Some(rooms.last().code) {
        codes_but(rooms.drop_last(), keep)
    } else {
        codes_but(rooms.drop_last(), keep).push(rooms.last().code)
    }
}

/// Some room waits for a player whose time is up.
pub open spec fn some_deadline_passed(rooms: Seq<RoomModel>, now: u64) -> bool {
    exists|i: int|
        0 <= i < rooms.len() && ((#[trigger] rooms[i]).action_deadline_ms matches Some(d) && now
            >= d)
}

/// The earliest time that any room waits for.
pub open spec fn earliest_deadline(rooms: Seq<RoomModel>) -> Option<u64>
    decreases rooms.len(),
{
    if rooms.len() == 0 {
        None
    } else {
        match (earliest_deadline(rooms.drop_last()), rooms.last().action_deadline_ms) {
            (Some(a), Some(b)) => Some(
                if a <= b {
                    a
                } else {
                    b
                },
            ),
            (Some(a), None) => Some(a),
            (None, b) => b,
        }
    }
}

/// How long the game loop sleeps: until the earliest deadline, and never longer than its limit.
/// Where none is ahead it sleeps for the limit.
pub open spec fn idle_wait(rooms: Seq<RoomModel>, now: u64) -> u64 {
    match earliest_deadline(rooms) {
        Some(d) => if d <= now || d - now > BEVY_IDLE_WAKE_MS {
            BEVY_IDLE_WAKE_MS
        } else {
            (d - now) as u64
        },
        None => BEVY_IDLE_WAKE_MS,
    }
}

/// The first entry from `from` on of the given connection.
pub open spec fn member_from(members: Seq<(Uuid, Seq<char>)>, id: Uuid, from: int) -> Option<
    Seq<char>,
>
    decreases members.len() - from,
{
    if from >= members.len() {
        None
    } else if members[from].0 == id {
        Some(members[from].1)
    } else {
        member_from(members, id, from + 1)
    }
}

/// The room that a connection is in.
pub open spec fn member_code(members: Seq<(Uuid, Seq<char>)>, id: Uuid) -> Option<Seq<char>> {
    member_from(members, id, 0)
}

pub open spec fn is_not(id: Uuid) -> spec_fn((Uuid, Seq<char>)) -> bool {
    |m: (Uuid, Seq<char>)| m.0 != id
}

/// The connection is in no room.
pub open spec fn without_member(members: Seq<(Uuid, Seq<char>)>, id: Uuid) -> Seq<
    (Uuid, Seq<char>),
> {
    members.filter(is_not(id))
}

/// The connection is in the given room and in no other.
pub open spec fn with_member(members: Seq<(Uuid, Seq<char>)>, id: Uuid, code: Seq<char>) -> Seq<
    (Uuid, Seq<char>),
> {
    without_member(members, id).push((id, code))
}

/// No connection is entered twice.
pub open spec fn distinct_members(members: Seq<(Uuid, Seq<char>)>) -> bool {
    forall|i: int, j: int|
        0 <= i < j < members.len() ==> (#[trigger] members[i]).0 != (#[trigger] members[j]).0
}

/// Taking a connection out leaves no entry of it, and none twice.
pub proof fn lemma_without_member(members: Seq<(Uuid, Seq<char>)>, id: Uuid)
    ensures
        forall|k: int|
            0 <= k < without_member(members, id).len() ==> (#[trigger] without_member(
                members,
                id,
            )[k]).0 != id && members.contains(without_member(members, id)[k]),
        distinct_members(members) ==> distinct_members(without_member(members, id)),
    decreases members.len(),
{
    reveal(Seq::filter);
    if members.len() > 0 {
        let head = members.drop_last();
        let last = members.last();
        let kept = without_member(head, id);
        let after = without_member(members, id);
        lemma_without_member(head, id);
        assert(members[members.len() - 1] == last);
        assert forall|k: int| 0 <= k < after.len() implies (#[trigger] after[k]).0 != id
            && members.contains(after[k]) by {
            if k < kept.len() {
                assert(head.contains(kept[k]));
                let j = choose|j: int| 0 <= j < head.len() && head[j] == kept[k];
                assert(members[j] == after[k]);
            }
        }
        if distinct_members(members) {
            assert(distinct_members(head));
            assert forall|i: int, j: int| 0 <= i < j < after.len() implies (#[trigger] after[i]).0
                != (#[trigger] after[j]).0 by {
                assert(after[i] == kept[i]);
                if j < kept.len() {
                    assert(after[j] == kept[j]);
                } else {
                    assert(head.contains(kept[i]));
                    let n = choose|n: int| 0 <= n < head.len() && head[n] == kept[i];
                    assert(members[n].0 != members[members.len() - 1].0);
                }
            }
        }
    }
}

/// Putting a connection into a room enters it once.
pub proof fn lemma_with_member(members: Seq<(Uuid, Seq<char>)>, id: Uuid, code: Seq<char>)
    ensures
        distinct_members(members) ==> distinct_members(with_member(members, id, code)),
{
    lemma_without_member(members, id);
}

/// The rooms of this process.
#[derive(Clone, Debug)]
pub struct GameRooms {
    pub rooms: Vec<Room>,
}

impl View for GameRooms {
    type V = Seq<RoomModel>;

    open spec fn view(&self) -> Seq<RoomModel> {
        Seq::new(self.rooms@.len(), |i: int| self.rooms@[i]@)
    }
}

impl GameRooms {
    /// No rooms.
    pub fn new() -> (res: GameRooms)
        ensures
            res@ == Seq::<RoomModel>::empty(),
    {
        let res = GameRooms { rooms: Vec::new() };
        assert(res@ =~= Seq::<RoomModel>::empty());
        res
    }

    /// Where the room with the given code stands.
    pub fn find(&self, code: &str) -> (res: Option<usize>)
        ensures
            match res {
                Some(i) => room_row(self@, code@) == Some(i as int) && i < self.rooms@.len()
                    && self@[i as int] == self.rooms@[i as int]@,
                None => room_row(self@, code@) is None,
            },
    {
        let wanted = String::from_str(code);
        let mut i: usize = 0;
        while i < self.rooms.len()
            invariant
                i <= self.rooms@.len(),
                wanted@ == code@,
                room_row(self@, code@) == room_from(self@, code@, i as int),
            decreases self.rooms@.len() - i,
        {
            assert(self@[i as int] == self.rooms@[i as int]@);
            if self.rooms[i].code == wanted {
                return Some(i);
            }
            i += 1;
        }
        None
    }

    /// The room with the given code.
    pub fn get(&self, code: &str) -> (res: Option<&Room>)
        ensures
            match res {
                Some(room) => room_named(self@, code@) == Some(room@),
                None => room_named(self@, code@) is None,
            },
    {
        match self.find(code) {
            Some(i) => Some(&self.rooms[i]),
            None => None,
        }
    }

    /// Puts the room in place of the one with its code, or adds it.
    pub fn upsert(&mut self, room: Room)
        ensures
            final(self)@ == with_upserted(old(self)@, room@),
    {
        match self.find(room.code.as_str()) {
            Some(i) => {
                self.put(i, room);
            },
            None => {
                let ghost before = self@;
                self.rooms.push(room);
                assert(self@ =~= before.push(room@));
            },
        }
    }

    /// Puts a room in the given place.
    pub fn put(&mut self, i: usize, room: Room)
        requires
            i < old(self)@.len(),
        ensures
            final(self)@ == old(self)@.update(i as int, room@),
    {
        let ghost before = self@;
        self.rooms.set(i, room);
        assert(self@ =~= before.update(i as int, room@));
    }

    /// Takes the room with the given code away.
    pub fn drop_room(&mut self, code: &str)
        ensures
            final(self)@ == with_dropped(old(self)@, code@),
    {
        if let Some(i) = self.find(code) {
            let ghost before = self@;
            self.rooms.remove(i);
            assert(self@ =~= before.remove(i as int));
        }
    }

    /// The codes of all rooms but the one to keep.
    pub fn codes_but(&self, keep: &Option<String>) -> (res: Vec<String>)
        ensures
            texts(res@) == codes_but(self@, opt_text(*keep)),
    {
        let ghost kept = opt_text(*keep);
        let mut codes: Vec<String> = Vec::new();
        let mut i: usize = 0;
        assert(texts(codes@) =~= codes_but(self@.take(0), kept));
        while i < self.rooms.len()
            invariant
                i <= self.rooms@.len(),
                kept == opt_text(*keep),
                texts(codes@) == codes_but(self@.take(i as int), kept),
            decreases self.rooms@.len() - i,
        {
            let code = self.rooms[i].code.clone();
            proof {
                let upto = self@.take(i + 1);
                assert(upto.drop_last() =~= self@.take(i as int));
                assert(upto.last() == self.rooms@[i as int]@);
            }
            let skip = match keep {
                Some(other) => *other == code,
                None => false,
            };
            if !skip {
                let ghost before = texts(codes@);
                codes.push(code);
                assert(texts(codes@) =~= before.push(code@));
            }
            i += 1;
        }
        assert(self@.take(i as int) =~= self@);
        codes
    }

    /// Tells whether some room waits for a player whose time is up.
    pub fn timeout_due(&self, now: u64) -> (res: bool)
        ensures
            res == some_deadline_passed(self@, now),
    {
        let mut i: usize = 0;
        while i < self.rooms.len()
            invariant
                i <= self.rooms@.len(),
                forall|j: int|
                    0 <= j < i ==> !((#[trigger] self@[j]).action_deadline_ms matches Some(d) && now
                        >= d),
            decreases self.rooms@.len() - i,
        {
            assert(self@[i as int] == self.rooms@[i as int]@);
            if let Some(deadline) = self.rooms[i].action_deadline_ms {
                if now >= deadline {
                    return true;
                }
            }
            i += 1;
        }
        false
    }

    /// Tells how long the game loop sleeps.
    pub fn next_idle_wait(&self, now: u64) -> (res: u64)
        ensures
            res == idle_wait(self@, now),
    {
        let mut earliest: Option<u64> = None;
        let mut i: usize = 0;
        while i < self.rooms.len()
            invariant
                i <= self.rooms@.len(),
                earliest == earliest_deadline(self@.take(i as int)),
            decreases self.rooms@.len() - i,
        {
            proof {
                let upto = self@.take(i + 1);
                assert(upto.drop_last() =~= self@.take(i as int));
                assert(upto.last() == self.rooms@[i as int]@);
            }
            if let Some(deadline) = self.rooms[i].action_deadline_ms {
                earliest = match earliest {
                    Some(least) => if least <= deadline {
                        Some(least)
                    } else {
                        Some(deadline)
                    },
                    None => Some(deadline),
                };
            }
            i += 1;
        }
        assert(self@.take(i as int) =~= self@);
        match earliest {
            Some(deadline) => {
                let ms: u64 = deadline.saturating_sub(now);
                if ms == 0 || ms > BEVY_IDLE_WAKE_MS {
                    BEVY_IDLE_WAKE_MS
                } else {
                    ms
                }
            },
            None => BEVY_IDLE_WAKE_MS,
        }
    }
}

/// Which room each connection is in. No connection is entered twice: `distinct_members` holds of a
/// new one, and every change keeps it.
#[derive(Clone, Debug)]
pub struct PlayerRooms {
    pub entries: Vec<(Uuid, String)>,
}

impl View for PlayerRooms {
    type V = Seq<(Uuid, Seq<char>)>;

    open spec fn view(&self) -> Seq<(Uuid, Seq<char>)> {
        Seq::new(self.entries@.len(), |i: int| (self.entries@[i].0, self.entries@[i].1@))
    }
}

impl PlayerRooms {
    /// Nobody is in a room.
    pub fn new() -> (res: PlayerRooms)
        ensures
            res@ == Seq::<(Uuid, Seq<char>)>::empty(),
            distinct_members(res@),
    {
        let res = PlayerRooms { entries: Vec::new() };
        assert(res@ =~= Seq::<(Uuid, Seq<char>)>::empty());
        res
    }

    /// The room that a connection is in.
    pub fn get(&self, id: Uuid) -> (res: Option<String>)
        ensures
            match res {
                Some(code) => member_code(self@, id) == Some(code@),
                None => member_code(self@, id) is None,
            },
    {
        let mut i: usize = 0;
        while i < self.entries.len()
            invariant
                i <= self.entries@.len(),
                member_code(self@, id) == member_from(self@, id, i as int),
            decreases self.entries@.len() - i,
        {
            assert(self@[i as int].0 == self.entries@[i as int].0);
            if self.entries[i].0 == id {
                return Some(self.entries[i].1.clone());
            }
            i += 1;
        }
        None
    }

    /// Takes a connection out of its room.
    pub fn remove(&mut self, id: Uuid)
        ensures
            final(self)@ == without_member(old(self)@, id),
            distinct_members(old(self)@) ==> distinct_members(final(self)@),
    {
        let mut kept = PlayerRooms::new();
        let mut i: usize = 0;
        proof {
            reveal(Seq::filter);
            assert(self@.take(0) =~= Seq::<(Uuid, Seq<char>)>::empty());
        }
        while i < self.entries.len()
            invariant
                i <= self.entries@.len(),
                kept@ == without_member(self@.take(i as int), id),
                self@ == old(self)@,
            decreases self.entries@.len() - i,
        {
            let (other, code) = (self.entries[i].0, self.entries[i].1.clone());
            proof {
                reveal(Seq::filter);
                let upto = self@.take(i + 1);
                assert(upto.drop_last() =~= self@.take(i as int));
                assert(upto.last() == (other, code@));
            }
            if other != id {
                let ghost before = kept@;
                kept.entries.push((other, code));
                assert(kept@ =~= before.push((other, code@)));
            }
            i += 1;
        }
        assert(self@.take(i as int) =~= self@);
        self.entries = kept.entries;
        assert(self@ =~= kept@);
        proof {
            lemma_without_member(old(self)@, id);
        }
    }

    /// Puts a connection into a room.
    pub fn track(&mut self, id: Uuid, code: &str)
        ensures
            final(self)@ == with_member(old(self)@, id, code@),
            distinct_members(old(self)@) ==> distinct_members(final(self)@),
    {
        self.remove(id);
        let ghost before = self@;
        self.entries.push((id, String::from_str(code)));
        assert(self@ =~= before.push((id, code@)));
        proof {
            lemma_with_member(old(self)@, id, code@);
        }
    }
}

} // verus!
