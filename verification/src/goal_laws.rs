//! Nobody on the board goes over the goal in the middle of a turn, whatever happens.

use crate::hub_laws::{hub_in_order, lemma_room_from};
use crate::hub_model::{
    HubModel, JobModel, StoreReplyModel, VisitModel, WaitModel, replies_to,
};
use crate::ids::Uuid;
use crate::play_laws::lemma_next_row_fits;
use crate::protocol::{ClientMessageModel, GamePhase};
use crate::requests::LuckModel;
use crate::room_laws::orderly;
use crate::room_model::{
    ForfeitCause, PlayerModel, RoomModel, has_id, has_seat, lemma_first_row,
    lemma_forfeit_keeps_seats,
};
use crate::rooms::{member_code, room_row};
use crate::store::StoreEventModel;
use vstd::prelude::*;

verus! {

/// Who is on the board and has points in the turn does not go over 10,000 with them.
pub open spec fn within_goal(room: RoomModel) -> bool {
    room.phase == GamePhase::Playing && room.turn_index < room.players.len() ==> {
        let p = room.players[room.turn_index as int];
        p.on_board && room.turn_points > 0 ==> p.score + room.turn_points <= 10_000
    }
}

/// A new room is within the goal.
pub proof fn new_rooms_are_within_the_goal(code: Seq<char>, host: PlayerModel)
    ensures
        within_goal(RoomModel::opened(code, host)),
{
}

proof fn lemma_next_turn_goal(room: RoomModel, keep_dice: bool, now: u64)
    ensures
        within_goal(room.next_turn(keep_dice, now)),
{
}

proof fn lemma_keep_goal(room: RoomModel, id: Uuid, indices: Seq<usize>, now: u64)
    requires
        within_goal(room),
        room.keep_refusal(id, indices) is None,
        room.keep_fits(id, indices),
    ensures
        within_goal(room.after_keep(id, indices, now)),
{
}

proof fn lemma_resolved_goal(
    room: RoomModel,
    id: Uuid,
    steal_from: Option<(Uuid, u32)>,
    now: u64,
)
    requires
        within_goal(room),
    ensures
        within_goal(room.resolved(id, steal_from, now)),
{
    lemma_next_turn_goal(room.with_bust(steal_from, false), true, now);
    lemma_next_turn_goal(room.with_bust(steal_from, true), true, now);
}

proof fn lemma_roll_goal(room: RoomModel, id: Uuid, indices: Seq<usize>, dice: Seq<u8>, now: u64)
    requires
        within_goal(room),
        room.roll_refusal(id, indices) is None,
        room.awaiting_keep ==> room.keep_fits(id, indices),
    ensures
        within_goal(room.after_roll(id, indices, dice, now)),
{
    if room.awaiting_keep {
        lemma_keep_goal(room, id, indices, now);
    }
    let ready = room.before_roll(id, indices, now);
    lemma_resolved_goal(ready.with_rolled(dice), id, None, now);
}

proof fn lemma_banking_goal(room: RoomModel, id: Uuid, now: u64)
    ensures
        within_goal(room.after_banking(id, now)),
{
}

proof fn lemma_bank_goal(room: RoomModel, id: Uuid, indices: Seq<usize>, now: u64)
    requires
        room.phase == GamePhase::Playing,
        room.winner_id is None,
    ensures
        within_goal(room.after_bank(id, indices, now)),
{
    lemma_banking_goal(room, id, now);
    lemma_banking_goal(room.after_keep(id, indices, now), id, now);
}

proof fn lemma_steal_goal(room: RoomModel, id: Uuid, dice: Seq<u8>, now: u64)
    requires
        room.steal_refusal(id) is None,
        room.players.len() <= usize::MAX,
    ensures
        within_goal(room.after_steal(id, dice, now)),
{
    let pending = room.pending_bank->0;
    lemma_next_row_fits(room);
    lemma_resolved_goal(
        room.with_stolen(dice),
        id,
        Some((pending.player_id, pending.points)),
        now,
    );
}

proof fn lemma_forfeit_goal(room: RoomModel, id: Uuid, cause: ForfeitCause, now: u64)
    requires
        within_goal(room),
        room.forfeit_refusal(id) is None,
    ensures
        within_goal(room.after_forfeit(id, cause, now)),
{
    lemma_first_row(room.players, has_id(id), 0);
    let out = room.row_out(room.row_of(id)->0);
    assert(within_goal(out)) by {
        if room.turn_index < room.players.len() {
            assert(out.players[room.turn_index as int].score
                == room.players[room.turn_index as int].score);
        }
    }
}

/// No request takes anyone over the goal in the middle of a turn.
pub proof fn requests_stay_within_the_goal(
    room: RoomModel,
    id: Uuid,
    msg: ClientMessageModel,
    luck: LuckModel,
)
    requires
        orderly(room),
        within_goal(room),
        room.request_fits(id, msg, luck),
        room.answer(id, msg, luck).refusal is None,
    ensures
        within_goal(room.answer(id, msg, luck).after),
{
    match msg {
        ClientMessageModel::UpdateSettings { .. } => {
            reveal(RoomModel::settings_answer);
        },
        ClientMessageModel::StartGame => {
            reveal(RoomModel::start_answer);
        },
        ClientMessageModel::Roll { indices } => {
            reveal(RoomModel::roll_answer);
            reveal(RoomModel::request_fits);
            lemma_roll_goal(room, id, indices, luck.dice, luck.now);
        },
        ClientMessageModel::Select { .. } => {
            reveal(RoomModel::select_answer);
        },
        ClientMessageModel::Keep { indices } => {
            reveal(RoomModel::keep_answer);
            reveal(RoomModel::request_fits);
            lemma_keep_goal(room, id, indices, luck.now);
        },
        ClientMessageModel::Bank { indices } => {
            reveal(RoomModel::bank_answer);
            lemma_bank_goal(room, id, indices, luck.now);
        },
        ClientMessageModel::Steal => {
            reveal(RoomModel::steal_answer);
            lemma_steal_goal(room, id, luck.dice, luck.now);
        },
        ClientMessageModel::DeclineSteal => {
            reveal(RoomModel::decline_answer);
            lemma_next_turn_goal(room.settled(), false, luck.now);
        },
        ClientMessageModel::EndGame => {
            reveal(RoomModel::end_answer);
        },
        ClientMessageModel::Forfeit => {
            reveal(RoomModel::forfeit_answer);
            lemma_forfeit_goal(room, id, ForfeitCause::Manual, luck.now);
        },
        ClientMessageModel::Rematch => {
            reveal(RoomModel::rematch_answer);
        },
        _ => {},
    }
}

/// Nor does a timeout.
pub proof fn timeouts_stay_within_the_goal(room: RoomModel, now: u64, from: u64)
    requires
        within_goal(room),
        room.times_out(now),
    ensures
        within_goal(room.after_timeout(from)),
{
    lemma_forfeit_goal(room, room.acting_id()->0, ForfeitCause::Timeout, from);
}

/// Nor does anyone who comes.
pub proof fn joins_stay_within_the_goal(room: RoomModel, id: Uuid, name: Seq<char>, seat_key: Uuid)
    requires
        within_goal(room),
        room.join_refusal(seat_key) is None,
    ensures
        within_goal(room.after_join(id, name, seat_key)),
{
    lemma_first_row(room.players, has_seat(seat_key), 0);
}

/// Nor does anyone whose connection is lost.
pub proof fn disconnects_stay_within_the_goal(room: RoomModel, id: Uuid)
    requires
        within_goal(room),
        room.is_present(id),
    ensures
        within_goal(room.after_disconnect(id)),
{
    lemma_first_row(room.players, has_id(id), 0);
}

/// Nor does anyone who leaves.
pub proof fn vacating_stays_within_the_goal(room: RoomModel, i: int, ghost: Uuid, now: u64)
    requires
        within_goal(room),
        0 <= i < room.players.len(),
    ensures
        within_goal(room.after_vacate(i, ghost, now)),
{
    let p = room.players[i];
    if room.phase != GamePhase::Lobby {
        if room.in_progress() && !p.forfeited && room.forfeit_refusal(p.id) is None {
            lemma_forfeit_goal(room, p.id, ForfeitCause::Manual, now);
            lemma_forfeit_keeps_seats(room, p.id, ForfeitCause::Manual, now);
            lemma_detach_goal(room.after_forfeit(p.id, ForfeitCause::Manual, now), i, ghost);
        } else {
            lemma_detach_goal(room, i, ghost);
        }
    }
}

proof fn lemma_detach_goal(room: RoomModel, i: int, ghost: Uuid)
    requires
        within_goal(room),
        0 <= i < room.players.len(),
    ensures
        within_goal(room.after_detach(i, ghost)),
{
}

/// The points of a turn are only ever lost or banked: by a roll that busts, by a bank, by the
/// forfeit of the player whose turn it is, or with the whole game by a rematch. No other request
/// makes them fewer.
pub proof fn points_are_lost_or_banked(
    room: RoomModel,
    id: Uuid,
    msg: ClientMessageModel,
    luck: LuckModel,
)
    requires
        orderly(room),
        room.phase == GamePhase::Playing,
        room.request_fits(id, msg, luck),
        room.answer(id, msg, luck).refusal is None,
    ensures
        ({
            let after = room.answer(id, msg, luck).after;
            ||| after.turn_points >= room.turn_points
            ||| msg is Roll && after.bust_showing && after.turn_points == 0
            ||| msg is Bank && after.turn_points == 0
            ||| msg is Forfeit && room.players[room.turn_index as int].id == id
                && after.turn_points == 0
            ||| msg is Rematch && after.turn_points == 0
        }),
{
    match msg {
        ClientMessageModel::UpdateSettings { .. } => {
            reveal(RoomModel::settings_answer);
        },
        ClientMessageModel::StartGame => {
            reveal(RoomModel::start_answer);
        },
        ClientMessageModel::Roll { indices } => {
            reveal(RoomModel::roll_answer);
            reveal(RoomModel::request_fits);
        },
        ClientMessageModel::Select { .. } => {
            reveal(RoomModel::select_answer);
        },
        ClientMessageModel::Keep { .. } => {
            reveal(RoomModel::keep_answer);
            reveal(RoomModel::request_fits);
        },
        ClientMessageModel::Bank { indices } => {
            reveal(RoomModel::bank_answer);
            reveal(RoomModel::request_fits);
            lemma_banking_clears(room, id, luck.now);
            lemma_banking_clears(room.after_keep(id, indices, luck.now), id, luck.now);
        },
        ClientMessageModel::Steal => {
            reveal(RoomModel::steal_answer);
        },
        ClientMessageModel::DeclineSteal => {
            reveal(RoomModel::decline_answer);
        },
        ClientMessageModel::EndGame => {
            reveal(RoomModel::end_answer);
        },
        ClientMessageModel::Forfeit => {
            reveal(RoomModel::forfeit_answer);
        },
        ClientMessageModel::Rematch => {
            reveal(RoomModel::rematch_answer);
        },
        _ => {},
    }
}

proof fn lemma_banking_clears(room: RoomModel, id: Uuid, now: u64)
    ensures
        room.after_banking(id, now).turn_points == 0 || room.after_banking(id, now).turn_points
            == room.turn_points,
{
}

// ---------------------------------------------------------------------------
// The hub
// ---------------------------------------------------------------------------

/// Every room that the hub holds, and every one that it has been told of, is within the goal.
pub open spec fn hub_within_goal(hub: HubModel) -> bool {
    &&& forall|i: int| 0 <= i < hub.rooms.len() ==> within_goal(#[trigger] hub.rooms[i])
    &&& forall|k: int|
        0 <= k < hub.jobs.len() ==> ((#[trigger] hub.jobs[k]) matches JobModel::Remote {
            event: StoreEventModel::Upsert { room },
        } ==> within_goal(room))
}

/// No step of a hub takes anyone over the goal in the middle of a turn.
pub proof fn steps_stay_within_the_goal(hub: HubModel, luck: LuckModel)
    requires
        hub_in_order(hub),
        hub_within_goal(hub),
        hub.next_fits(luck),
    ensures
        hub_within_goal(hub.step(luck).hub),
{
    if hub.jobs.len() > 0 {
        let job = hub.jobs.last();
        let rest = HubModel { jobs: hub.jobs.drop_last(), ..hub };
        assert(hub.jobs[hub.jobs.len() - 1] == job);
        assert(hub_within_goal(rest)) by {
            assert forall|k: int| 0 <= k < rest.jobs.len() implies (
            (#[trigger] rest.jobs[k]) matches JobModel::Remote {
                event: StoreEventModel::Upsert { room },
            } ==> within_goal(room)) by {
                assert(rest.jobs[k] == hub.jobs[k]);
            }
        }
        match job {
            JobModel::Disconnect { player } => {
                if let Some(code) = member_code(hub.members, player) {
                    lemma_room_from(hub.rooms, code, 0);
                    if let Some(i) = room_row(hub.rooms, code) {
                        if hub.rooms[i].is_present(player) {
                            disconnects_stay_within_the_goal(hub.rooms[i], player);
                        }
                    }
                }
            },
            JobModel::Remote { event } => lemma_remote_goal(rest, event),
            JobModel::ExpireNext { now, codes, at, .. } => {
                if at < codes.len() {
                    lemma_room_from(hub.rooms, codes[at as int], 0);
                    if let Some(i) = room_row(hub.rooms, codes[at as int]) {
                        reveal(RoomModel::is_overdue);
                        reveal(RoomModel::with_actor_out);
                        if hub.rooms[i].times_out(now) {
                            timeouts_stay_within_the_goal(hub.rooms[i], now, luck.now);
                        }
                    }
                }
            },
            JobModel::Create { player, .. } => {
                lemma_opens_goal(rest, player, luck.code);
            },
            JobModel::Enter { code, visit } => lemma_enter_goal(rest, code, visit, luck),
            JobModel::SweepNext { seat_key, codes, at, .. } => {
                if at < codes.len() {
                    lemma_room_from(hub.rooms, codes[at as int], 0);
                    if let Some(i) = room_row(hub.rooms, codes[at as int]) {
                        lemma_first_row(hub.rooms[i].players, has_seat(seat_key), 0);
                        if let Some(row) = hub.rooms[i].row_of_seat(seat_key) {
                            reveal(RoomModel::with_seat_free);
                            vacating_stays_within_the_goal(
                                hub.rooms[i],
                                row,
                                luck.fresh,
                                luck.now,
                            );
                        }
                    }
                }
            },
            JobModel::Purge { codes, at } => {
                if at < codes.len() {
                    lemma_room_from(hub.rooms, codes[at as int], 0);
                }
            },
            _ => {},
        }
    }
}

proof fn lemma_remote_goal(hub: HubModel, event: StoreEventModel)
    requires
        hub_within_goal(hub),
        event matches StoreEventModel::Upsert { room } ==> within_goal(room),
    ensures
        hub_within_goal(hub.remote(event)),
{
    match event {
        StoreEventModel::Upsert { room } => lemma_room_from(hub.rooms, room.code, 0),
        StoreEventModel::Delete { code } => lemma_room_from(hub.rooms, code, 0),
    }
}

proof fn lemma_opens_goal(hub: HubModel, player: PlayerModel, code: Seq<char>)
    requires
        hub_within_goal(hub),
    ensures
        hub_within_goal(hub.opens(player, code)),
{
    lemma_room_from(hub.rooms, code, 0);
    new_rooms_are_within_the_goal(code, player);
}

proof fn lemma_enter_goal(hub: HubModel, code: Seq<char>, visit: VisitModel, luck: LuckModel)
    requires
        hub_within_goal(hub),
        forall|i: int| 0 <= i < hub.rooms.len() ==> orderly(#[trigger] hub.rooms[i]),
        visit matches VisitModel::Act { player, msg } ==> hub.acting_fits(
            code,
            player,
            msg,
            luck,
        ),
    ensures
        hub_within_goal(hub.enter(code, visit, luck)),
{
    lemma_room_from(hub.rooms, code, 0);
    if let Some(i) = room_row(hub.rooms, code) {
        match visit {
            VisitModel::Act { player, msg } => {
                if hub.rooms[i].answer(player, msg, luck).refusal is None {
                    requests_stay_within_the_goal(hub.rooms[i], player, msg, luck);
                }
            },
            VisitModel::Join { player, name, seat_key } => {
                reveal(RoomModel::with_guest);
                if hub.rooms[i].join_refusal(seat_key) is None {
                    joins_stay_within_the_goal(hub.rooms[i], player, name, seat_key);
                }
            },
            _ => {},
        }
    }
}

/// Nor does a reply of the store, where the room that it brings is within the goal.
pub proof fn replies_stay_within_the_goal(hub: HubModel, reply: StoreReplyModel)
    requires
        hub_within_goal(hub),
        hub.waiting matches Some(waiting) && replies_to(waiting, reply),
        reply matches StoreReplyModel::Room(Ok(Some(room))) ==> within_goal(room),
    ensures
        hub_within_goal(hub.resumed(reply)),
{
    let rest = HubModel { waiting: None, ..hub };
    match (hub.waiting->0, reply) {
        (WaitModel::Load { code, .. }, StoreReplyModel::Room(got)) => {
            lemma_room_from(hub.rooms, code, 0);
            if let Ok(Some(room)) = got {
                lemma_room_from(hub.rooms, room.code, 0);
            }
        },
        (WaitModel::Insert { player, code, .. }, StoreReplyModel::Saved(_)) => {
            lemma_opens_goal(rest, player, code);
        },
        (WaitModel::Save { code, .. }, StoreReplyModel::Saved(_)) => {
            lemma_room_from(hub.rooms, code, 0);
        },
        _ => {},
    }
}

} // verus!
