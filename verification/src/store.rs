//! How rooms and seats are named and versioned in the shared store.

use crate::game::Room;
use crate::ids::{Uuid, hyphenated};
use crate::room_model::{PlayerModel, RoomModel};
use crate::text::{
    decimal, decimal_text, numerals_start_with_a_digit, numerals_tell_numbers_apart, texts,
};
use vstd::prelude::*;
use vstd::string::StringExecFns;

verus! {

/// Room and seat keys expire this long after the last write.
pub const ROOM_TTL_SECS: u64 = 3_600;

/// How long to wait before the second attempt to connect.
pub const FIRST_RETRY_MS: u64 = 200;

/// The longest wait between two attempts to connect.
pub const LONGEST_RETRY_MS: u64 = 5_000;

/// A change that another process has made to the store.
#[derive(Clone, Debug)]
pub enum StoreEvent {
    Upsert { room: Room },
    Delete { code: String },
}

/// A change to the store, with texts and lists as sequences.
pub enum StoreEventModel {
    Upsert { room: RoomModel },
    Delete { code: Seq<char> },
}

impl View for StoreEvent {
    type V = StoreEventModel;

    open spec fn view(&self) -> StoreEventModel {
        match *self {
            StoreEvent::Upsert { room } => StoreEventModel::Upsert { room: room@ },
            StoreEvent::Delete { code } => StoreEventModel::Delete { code: code@ },
        }
    }
}

/// The name of the channel on which changes are told.
pub open spec fn channel_name() -> Seq<char> {
    "bones:rooms"@
}

/// The key of a room.
pub open spec fn room_key_text(code: Seq<char>) -> Seq<char> {
    "bones:room:"@ + code
}

/// The key of a seat.
pub open spec fn seat_key_text(seat: Uuid) -> Seq<char> {
    "bones:seat:"@ + hyphenated(seat.0)
}

/// The keys that saving a room touches: its own, the channel, and those of its seats.
pub open spec fn save_keys_texts(room: RoomModel) -> Seq<Seq<char>> {
    seq![room_key_text(room.code), channel_name()] + room.players.map_values(
        |p: PlayerModel| seat_key_text(p.seat_key),
    )
}

/// What the store must hold for a save to go through: nothing, or the given version.
pub open spec fn expectation(version: Option<u64>) -> Seq<char> {
    match version {
        None => "new"@,
        Some(v) => decimal(v as nat),
    }
}

/// The name of the channel on which changes are told.
pub fn channel() -> (res: &'static str)
    ensures
        res@ == channel_name(),
{
    "bones:rooms"
}

/// The pattern that the keys of all rooms match.
pub fn room_key_pattern() -> (res: &'static str)
    ensures
        res@ == "bones:room:*"@,
{
    "bones:room:*"
}

/// The key of a room.
pub fn room_key(code: &str) -> (res: String)
    ensures
        res@ == room_key_text(code@),
{
    String::from_str("bones:room:").concat(code)
}

/// The key of a seat.
pub fn seat_key(seat: Uuid) -> (res: String)
    ensures
        res@ == seat_key_text(seat),
{
    String::from_str("bones:seat:").concat(seat.to_text().as_str())
}

/// The keys that saving a room touches.
pub fn save_keys(room: &Room) -> (res: Vec<String>)
    ensures
        texts(res@) == save_keys_texts(room@),
{
    let mut keys: Vec<String> = Vec::new();
    keys.push(room_key(room.code.as_str()));
    keys.push(String::from_str(channel()));
    let mut i: usize = 0;
    while i < room.players.len()
        invariant
            i <= room.players@.len(),
            keys@.len() == i + 2,
            forall|k: int|
                0 <= k < keys@.len() ==> #[trigger] keys@[k]@ == save_keys_texts(room@)[k],
        decreases room.players@.len() - i,
    {
        keys.push(seat_key(room.players[i].seat_key));
        i += 1;
    }
    assert(texts(keys@) =~= save_keys_texts(room@));
    keys
}

/// What the store must hold for a save to go through.
pub fn expected_version(version: Option<u64>) -> (res: String)
    ensures
        res@ == expectation(version),
{
    match version {
        None => String::from_str("new"),
        Some(v) => decimal_text(v),
    }
}

/// The wait after the given one: twice as long, up to the longest.
pub fn next_retry_ms(delay: u64) -> (res: u64)
    ensures
        res == if delay * 2 > LONGEST_RETRY_MS {
            LONGEST_RETRY_MS as int
        } else {
            delay * 2
        },
{
    if delay > LONGEST_RETRY_MS / 2 {
        LONGEST_RETRY_MS
    } else {
        delay * 2
    }
}

/// Rooms with different codes have different keys, and no room shares its key with a seat or
/// with the channel.
pub proof fn keys_tell_rooms_apart(code: Seq<char>, other: Seq<char>, seat: Uuid)
    ensures
        room_key_text(code) == room_key_text(other) ==> code == other,
        room_key_text(code) != seat_key_text(seat),
        room_key_text(code) != channel_name(),
        seat_key_text(seat) != channel_name(),
{
    reveal_strlit("bones:room:");
    reveal_strlit("bones:seat:");
    reveal_strlit("bones:rooms");
    if room_key_text(code) == room_key_text(other) {
        assert(room_key_text(code).skip(11) =~= code);
        assert(room_key_text(other).skip(11) =~= other);
    }
    assert(room_key_text(code)[6] == 'r' && room_key_text(code)[10] == ':');
    assert(seat_key_text(seat)[6] == 's');
    assert(channel_name()[6] == 'r' && channel_name()[10] == 's');
}

/// Every version, and the lack of one, is expected in words of its own.
pub proof fn expectations_tell_versions_apart(a: Option<u64>, b: Option<u64>)
    requires
        expectation(a) == expectation(b),
    ensures
        a == b,
{
    reveal_strlit("new");
    match (a, b) {
        (Some(v), Some(w)) => numerals_tell_numbers_apart(v as nat, w as nat),
        (Some(v), None) => numerals_start_with_a_digit(v as nat),
        (None, Some(w)) => numerals_start_with_a_digit(w as nat),
        (None, None) => {},
    }
}

} // verus!
