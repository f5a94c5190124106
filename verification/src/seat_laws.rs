//! What coming, going and giving up do to a room, field by field, and what a player is shown.

use crate::bank_laws::{is_next, lemma_settled, only_one_row_comes_next};
use crate::ids::Uuid;
use crate::play_laws::{
    a_player_is_found_in_the_first_row, a_seat_is_found_in_the_first_row, has_been_paid, is_the_row,
    passing_the_turn, the_turn_goes_round, turn_has_passed,
};
use crate::protocol::{ClientMessageModel, GameMode, GamePhase, PendingBankView, PlayerViewModel};
use crate::requests::LuckModel;
use crate::room_model::{
    ForfeitCause, PlayerModel, RoomModel, active_rows, first_row, is_active, lemma_first_row,
    lemma_forfeit_keeps_seats, lemma_out_keeps_pending,
};
use vstd::prelude::*;

verus! {

// ---------------------------------------------------------------------------
// Giving up
// ---------------------------------------------------------------------------

/// Two different rows are still in the game.
pub open spec fn two_still_in(players: Seq<PlayerModel>) -> bool {
    exists|a: int, b: int|
        0 <= a < b < players.len() && !(#[trigger] players[a]).forfeited
            && !(#[trigger] players[b]).forfeited
}

/// The row is the first that is still in the game.
pub open spec fn is_first_still_in(players: Seq<PlayerModel>, j: int) -> bool {
    &&& 0 <= j < players.len()
    &&& !players[j].forfeited
    &&& forall|k: int| 0 <= k < j ==> (#[trigger] players[k]).forfeited
}

/// Nobody is still in the game.
pub open spec fn all_are_out(players: Seq<PlayerModel>) -> bool {
    forall|k: int| 0 <= k < players.len() ==> (#[trigger] players[k]).forfeited
}

proof fn lemma_first_still_in(players: Seq<PlayerModel>)
    ensures
        match first_row(players, is_active(), 0) {
            Some(j) => is_first_still_in(players, j),
            None => all_are_out(players),
        },
{
    lemma_first_row(players, is_active(), 0);
    assert forall|k: int| 0 <= k < players.len() && !is_active()(players[k]) implies (
    #[trigger] players[k]).forfeited by {}
}

proof fn lemma_some_still_in(players: Seq<PlayerModel>)
    ensures
        active_rows(players) == 0 <==> all_are_out(players),
    decreases players.len(),
{
    reveal(Seq::filter);
    if players.len() > 0 {
        let rest = players.drop_last();
        lemma_some_still_in(rest);
        if all_are_out(rest) && players.last().forfeited {
            assert forall|k: int| 0 <= k < players.len() implies (
            #[trigger] players[k]).forfeited by {
                if k < rest.len() {
                    assert(rest[k].forfeited);
                }
            }
        }
        if all_are_out(players) {
            assert forall|k: int| 0 <= k < rest.len() implies (#[trigger] rest[k]).forfeited by {
                assert(players[k].forfeited);
            }
        }
    }
}

proof fn lemma_two_still_in(players: Seq<PlayerModel>)
    ensures
        active_rows(players) >= 2 <==> two_still_in(players),
    decreases players.len(),
{
    reveal(Seq::filter);
    if players.len() > 0 {
        let rest = players.drop_last();
        let n = rest.len() as int;
        lemma_two_still_in(rest);
        lemma_some_still_in(rest);
        if active_rows(rest) >= 2 {
            let (a, b) = choose|a: int, b: int|
                0 <= a < b < rest.len() && !(#[trigger] rest[a]).forfeited
                    && !(#[trigger] rest[b]).forfeited;
            assert(!players[a].forfeited && !players[b].forfeited);
        } else if active_rows(players) >= 2 {
            assert(!all_are_out(rest));
            let a = choose|a: int| 0 <= a < rest.len() && !(#[trigger] rest[a]).forfeited;
            assert(!players[a].forfeited && !players[n].forfeited);
        }
        if two_still_in(players) {
            let (a, b) = choose|a: int, b: int|
                0 <= a < b < players.len() && !(#[trigger] players[a]).forfeited
                    && !(#[trigger] players[b]).forfeited;
            assert(!rest[a].forfeited);
            if b < n {
                assert(!rest[b].forfeited);
            } else {
                assert(!all_are_out(rest));
            }
        }
    }
}

/// The rows with the given one out.
pub open spec fn with_out(players: Seq<PlayerModel>, i: int) -> Seq<PlayerModel> {
    players.update(i, PlayerModel { forfeited: true, ..players[i] })
}

/// The host stays, unless the row that is out was the host's: then it is the first row still in.
pub open spec fn host_is_passed_on(room: RoomModel, i: int, host: Uuid) -> bool {
    let rows = with_out(room.players, i);
    if room.host_id != room.players[i].id || all_are_out(rows) {
        host == room.host_id
    } else {
        exists|j: int| #[trigger] is_first_still_in(rows, j) && rows[j].id == host
    }
}

/// What the room is once a row has given up. Where at most one row is left the game is over, what
/// waits is paid out, and that row wins. Where the row was to decide on a steal, what waits is paid
/// out and the turn passes. Where it was the row's turn, what it had is lost and the turn passes.
/// Otherwise play goes on as before.
pub open spec fn has_given_up(before: RoomModel, after: RoomModel, i: int, now: u64) -> bool {
    let id = before.players[i].id;
    let rows = with_out(before.players, i);
    let paid = match before.pending_bank {
        Some(pending) => has_been_paid(rows, after.players, pending.player_id, pending.points),
        None => after.players == rows,
    };
    &&& host_is_passed_on(before, i, after.host_id)
    &&& if !two_still_in(rows) {
        &&& paid
        &&& after == (RoomModel {
            players: after.players,
            host_id: after.host_id,
            phase: GamePhase::Finished,
            winner_id: after.winner_id,
            pending_bank: None,
            action_deadline_ms: None,
            status_message: after.status_message,
            ..before
        })
        &&& match after.winner_id {
            Some(w) => exists|j: int| #[trigger]
                is_first_still_in(rows, j) && rows[j].id == w,
            None => all_are_out(rows),
        }
    } else if before.phase == GamePhase::StealWindow && exists|row: int| #[trigger]
        is_next(before, row, id) && !before.players[row].forfeited {
        &&& paid
        &&& turn_has_passed(
            RoomModel { players: after.players, host_id: after.host_id, ..before },
            after,
            false,
            now,
        )
    } else if before.turn_index < before.players.len()
        && before.players[before.turn_index as int].id == id {
        turn_has_passed(
            RoomModel { players: rows, host_id: after.host_id, ..before },
            after,
            false,
            now,
        )
    } else {
        after == (RoomModel {
            players: rows,
            host_id: after.host_id,
            status_message: after.status_message,
            ..before
        })
    }
}

/// Who has a row that is still in may give up while the game runs, and what that does.
pub proof fn what_giving_up_does(room: RoomModel, id: Uuid, luck: LuckModel, i: int)
    requires
        room.request_fits(id, ClientMessageModel::Forfeit, luck),
        room.players.len() <= usize::MAX,
        is_the_row(room.players, i, id),
    ensures
        ({
            let answer = room.answer(id, ClientMessageModel::Forfeit, luck);
            &&& answer.refusal is None <==> !room.players[i].forfeited && (room.phase
                == GamePhase::Playing || room.phase == GamePhase::StealWindow)
            &&& answer.refusal is None ==> has_given_up(room, answer.after, i, luck.now)
        }),
{
    reveal(RoomModel::forfeit_answer);
    reveal(RoomModel::request_fits);
    lemma_row_is(room, id, i);
    if room.forfeit_refusal(id) is None {
        lemma_given_up(room, id, ForfeitCause::Manual, luck.now, i);
    }
}

pub proof fn lemma_row_is(room: RoomModel, id: Uuid, i: int)
    requires
        is_the_row(room.players, i, id),
    ensures
        room.row_of(id) == Some(i),
{
    a_player_is_found_in_the_first_row(room, id);
    let j = room.row_of(id)->0;
    if j < i {
        assert(room.players[j].id != id);
    }
}

/// Nobody who has no row gives up.
pub proof fn only_players_give_up(room: RoomModel, id: Uuid, luck: LuckModel)
    requires
        forall|j: int| 0 <= j < room.players.len() ==> (#[trigger] room.players[j]).id != id,
    ensures
        room.answer(id, ClientMessageModel::Forfeit, luck).refusal is Some,
{
    reveal(RoomModel::forfeit_answer);
    a_player_is_found_in_the_first_row(room, id);
}

proof fn lemma_acting(room: RoomModel, id: Uuid)
    requires
        room.phase == GamePhase::StealWindow,
    ensures
        room.acting_id() == Some(id) <==> exists|row: int| #[trigger]
            is_next(room, row, id) && !room.players[row].forfeited,
{
    the_turn_goes_round(room);
    assert forall|row: int| #[trigger] is_next(room, row, id) implies row == room.next_row() by {
        only_one_row_comes_next(
            room.players,
            room.turn_index as int,
            row,
            room.next_row(),
        );
    }
    if room.acting_id() == Some(id) {
        assert(is_next(room, room.next_row(), id));
    }
}

proof fn lemma_given_up(room: RoomModel, id: Uuid, cause: ForfeitCause, now: u64, i: int)
    requires
        room.forfeit_refusal(id) is None,
        room.forfeit_fits(id),
        room.players.len() <= usize::MAX,
        room.row_of(id) == Some(i),
        0 <= i < room.players.len(),
        room.players[i].id == id,
    ensures
        has_given_up(room, room.after_forfeit(id, cause, now), i, now),
{
    let rows = with_out(room.players, i);
    let out = room.row_out(i);
    let after = room.after_forfeit(id, cause, now);
    let reason = room.forfeit_reason(room.players[i].name, cause);
    assert(out.players == rows);
    lemma_first_still_in(rows);
    lemma_two_still_in(rows);
    assert(host_is_passed_on(room, i, out.host_id));
    if room.phase == GamePhase::StealWindow {
        lemma_acting(room, id);
    }
    if active_rows(rows) <= 1 {
        lemma_out_keeps_pending(room, i);
        lemma_settled(out);
        let paid = out.settled().players;
        assert forall|j: int| 0 <= j < rows.len() implies (#[trigger] paid[j]).forfeited
            == rows[j].forfeited && paid[j].id == rows[j].id by {}
        lemma_first_still_in(paid);
        if let Some(j) = first_row(paid, is_active(), 0) {
            assert(is_first_still_in(rows, j)) by {
                assert forall|k: int| 0 <= k < j implies (#[trigger] rows[k]).forfeited by {
                    assert(paid[k].forfeited);
                }
            }
        } else {
            assert forall|k: int| 0 <= k < rows.len() implies (#[trigger] rows[k]).forfeited by {
                assert(paid[k].forfeited);
            }
        }
    } else if room.phase == GamePhase::StealWindow && room.acting_id() == Some(id) {
        lemma_out_keeps_pending(room, i);
        lemma_settled(out);
        passing_the_turn(out.settled(), false, now);
    } else if room.is_current(id) {
        passing_the_turn(RoomModel { pending_bank: None, ..out }, false, now);
    }
}

/// Once the time of the player whom the room waits for is up, that player has given up.
pub proof fn what_a_timeout_does(room: RoomModel, now: u64, i: int)
    requires
        room.times_out(now),
        room.timeout_fits(now),
        room.players.len() <= usize::MAX,
        room.row_of(room.acting_id()->0) == Some(i),
    ensures
        has_given_up(room, room.after_timeout(now), i, now),
{
    a_player_is_found_in_the_first_row(room, room.acting_id()->0);
    lemma_given_up(room, room.acting_id()->0, ForfeitCause::Timeout, now, i);
}

/// A player is put out for waiting exactly when the time is up while the game runs: in a turn the
/// one whose turn it is, and while a bank can be stolen the next one, where they are still in.
pub proof fn when_time_is_up(room: RoomModel, now: u64)
    requires
        forall|a: int, b: int|
            0 <= a < b < room.players.len() ==> (#[trigger] room.players[a]).id != (
            #[trigger] room.players[b]).id,
    ensures
        room.times_out(now) <==> {
            &&& room.action_deadline_ms matches Some(end) && end <= now
            &&& match room.phase {
                GamePhase::Playing => room.turn_index < room.players.len()
                    && !room.players[room.turn_index as int].forfeited,
                GamePhase::StealWindow => exists|row: int|
                    #![trigger room.players[row]]
                    row < room.players.len() && is_next(room, row, room.players[row].id)
                        && !room.players[row].forfeited,
                _ => false,
            }
        },
{
    the_turn_goes_round(room);
    if room.acting_id() is Some {
        a_player_is_found_in_the_first_row(room, room.acting_id()->0);
    }
    if room.phase == GamePhase::StealWindow {
        assert forall|row: int|
            #![trigger room.players[row]]
            row < room.players.len() && is_next(
                room,
                row,
                room.players[row].id,
            ) implies row == room.next_row() by {
            only_one_row_comes_next(
                room.players,
                room.turn_index as int,
                row,
                room.next_row(),
            );
        }
        if room.acting_id() is Some {
            let p = room.players[room.next_row()];
            assert(is_next(room, room.next_row(), p.id));
        }
    }
}

// ---------------------------------------------------------------------------
// Coming and going
// ---------------------------------------------------------------------------

/// A seat can be taken again at any time, and a new one in a lobby with fewer than eight players.
pub proof fn when_players_join(room: RoomModel, seat_key: Uuid)
    ensures
        room.join_refusal(seat_key) is None <==> {
            ||| exists|j: int|
                0 <= j < room.players.len() && (#[trigger] room.players[j]).seat_key == seat_key
            ||| room.phase == GamePhase::Lobby && room.players.len() < 8
        },
{
    a_seat_is_found_in_the_first_row(room, seat_key);
    if let Some(i) = room.row_of_seat(seat_key) {
        assert(room.players[i].seat_key == seat_key);
    }
}

/// What names one connection names another one instead.
pub open spec fn is_renamed(before: Uuid, after: Uuid, old_id: Uuid, new_id: Uuid) -> bool {
    after == if before == old_id {
        new_id
    } else {
        before
    }
}

/// One row has changed hands: only its connection, its name and whether it is connected may
/// differ, and what named the connection before names the new one.
pub open spec fn has_changed_hands(
    before: RoomModel,
    after: RoomModel,
    i: int,
    new_id: Uuid,
    name: Seq<char>,
    connected: bool,
) -> bool {
    let old_id = before.players[i].id;
    &&& after.players.len() == before.players.len()
    &&& forall|j: int|
        0 <= j < before.players.len() ==> (#[trigger] after.players[j]) == if j == i {
            PlayerModel { id: new_id, name, connected, ..before.players[j] }
        } else {
            before.players[j]
        }
    &&& is_renamed(before.host_id, after.host_id, old_id, new_id)
    &&& match before.winner_id {
        Some(w) => after.winner_id matches Some(v) && is_renamed(w, v, old_id, new_id),
        None => after.winner_id is None,
    }
    &&& match before.pending_bank {
        Some(p) => after.pending_bank matches Some(q) && is_renamed(
            p.player_id,
            q.player_id,
            old_id,
            new_id,
        ) && q.points == p.points && q.leftover == p.leftover,
        None => after.pending_bank is None,
    }
    &&& after == (RoomModel {
        players: after.players,
        host_id: after.host_id,
        winner_id: after.winner_id,
        pending_bank: after.pending_bank,
        status_message: after.status_message,
        ..before
    })
}

/// Who names a seat of the room gets its first row back as it is, under the new name; who names
/// another one gets a new last row with nothing scored.
pub proof fn what_joining_does(room: RoomModel, id: Uuid, name: Seq<char>, seat_key: Uuid)
    ensures
        ({
            let after = room.after_join(id, name, seat_key);
            match room.row_of_seat(seat_key) {
                Some(i) => has_changed_hands(room, after, i, id, name, true),
                None => after == (RoomModel {
                    players: room.players.push(
                        PlayerModel {
                            id,
                            seat_key,
                            name,
                            score: 0,
                            on_board: false,
                            connected: true,
                            forfeited: false,
                        },
                    ),
                    status_message: after.status_message,
                    ..room
                }),
            }
        }),
{
    a_seat_is_found_in_the_first_row(room, seat_key);
}

/// A lost connection is marked as such in its row and does nothing else.
pub proof fn what_a_lost_connection_does(room: RoomModel, id: Uuid, i: int)
    requires
        is_the_row(room.players, i, id),
    ensures
        room.is_present(id) <==> room.players[i].connected,
        ({
            let after = room.after_disconnect(id);
            after == (RoomModel {
                players: room.players.update(
                    i,
                    PlayerModel { connected: false, ..room.players[i] },
                ),
                status_message: after.status_message,
                ..room
            })
        }),
{
    lemma_row_is(room, id, i);
}

/// A seat that is given up in a lobby is gone, and the host's place goes to the first row left. In
/// a game that runs a row still in gives up. The row itself stays, held by nobody.
pub proof fn what_leaving_does(room: RoomModel, i: int, ghost: Uuid, now: u64)
    requires
        0 <= i < room.players.len() <= usize::MAX,
        is_the_row(room.players, i, room.players[i].id),
        room.vacate_fits(room.players[i].seat_key),
        room.row_of_seat(room.players[i].seat_key) == Some(i),
    ensures
        ({
            let after = room.after_vacate(i, ghost, now);
            let p = room.players[i];
            if room.phase == GamePhase::Lobby {
                after == (RoomModel {
                    players: room.players.remove(i),
                    host_id: if room.host_id == p.id && room.players.len() > 1 {
                        after.players[0].id
                    } else {
                        room.host_id
                    },
                    status_message: after.status_message,
                    ..room
                })
            } else if room.phase == GamePhase::Finished || p.forfeited {
                has_changed_hands(room, after, i, ghost, p.name, false)
            } else {
                exists|between: RoomModel| #[trigger]
                    has_given_up(room, between, i, now) && has_changed_hands(
                        between,
                        after,
                        i,
                        ghost,
                        p.name,
                        false,
                    )
            }
        }),
{
    let p = room.players[i];
    if room.phase != GamePhase::Lobby && room.phase != GamePhase::Finished && !p.forfeited {
        lemma_row_is(room, p.id, i);
        let between = room.after_forfeit(p.id, ForfeitCause::Manual, now);
        lemma_given_up(room, p.id, ForfeitCause::Manual, now, i);
        lemma_forfeit_keeps_seats(room, p.id, ForfeitCause::Manual, now);
        assert(between.players[i].name == p.name);
        assert(has_changed_hands(between, between.after_detach(i, ghost), i, ghost, p.name, false));
    }
}

// ---------------------------------------------------------------------------
// What a player is shown
// ---------------------------------------------------------------------------

/// A player is shown the room as it is: every row in order without its seat, whose turn it is, and
/// what lies on the table.
pub proof fn players_see_the_room(room: RoomModel, you: Uuid)
    ensures
        ({
            let v = room.seen_by(you);
            &&& v.code == room.code
            &&& v.invite_path == "/g/"@ + room.code
            &&& v.phase == room.phase
            &&& v.mode == room.mode
            &&& v.board_threshold == room.board_threshold
            &&& v.dice_count == (match room.mode {
                GameMode::Bones => 5usize,
                GameMode::Farkle => 6usize,
            })
            &&& v.idle_timeout_secs == room.idle_timeout_secs
            &&& v.players.len() == room.players.len()
            &&& forall|j: int|
                0 <= j < room.players.len() ==> (#[trigger] v.players[j]) == (PlayerViewModel {
                    id: room.players[j].id,
                    name: room.players[j].name,
                    score: room.players[j].score,
                    on_board: room.players[j].on_board,
                    connected: room.players[j].connected,
                    forfeited: room.players[j].forfeited,
                })
            &&& v.current_player_id == if room.turn_index < room.players.len() {
                Some(room.players[room.turn_index as int].id)
            } else {
                None
            }
            &&& v.you_are == you
            &&& v.host_id == room.host_id
            &&& v.dice == room.dice
            &&& v.selected == room.selected
            &&& v.turn_points == room.turn_points
            &&& v.awaiting_keep == room.awaiting_keep
            &&& v.bust == room.bust_showing
            &&& match room.pending_bank {
                Some(p) => v.pending_bank == Some(
                    PendingBankView {
                        player_id: p.player_id,
                        points: p.points,
                        leftover: p.leftover,
                    },
                ),
                None => v.pending_bank is None,
            }
            &&& v.message == room.status_message
            &&& v.winner_id == room.winner_id
            &&& v.action_deadline_ms == room.action_deadline_ms
        }),
{
}

/// A steal is offered to the player who comes next, where that player is still in, on the board and
/// does not go over 10,000 with it.
pub proof fn who_is_offered_a_steal(room: RoomModel, you: Uuid)
    ensures
        room.seen_by(you).steal_available <==> {
            &&& room.phase == GamePhase::StealWindow
            &&& room.pending_bank matches Some(p) && p.points > 0 && p.leftover > 0 && exists|
                row: int,
            | #[trigger]
                is_next(room, row, you) && !room.players[row].forfeited
                    && room.players[row].on_board && room.players[row].score + p.points <= 10_000
        },
{
    the_turn_goes_round(room);
    assert forall|row: int| #[trigger] is_next(room, row, you) implies row == room.next_row() by {
        only_one_row_comes_next(
            room.players,
            room.turn_index as int,
            row,
            room.next_row(),
        );
    }
    if room.next_player() is Some && room.next_player()->0.id == you {
        assert(is_next(room, room.next_row(), you));
    }
}

/// Who can act: the host in a lobby with two players and once the game is over, the player whose
/// turn it is, and who is offered a steal; nobody who is out.
pub proof fn who_can_act(room: RoomModel, you: Uuid)
    ensures
        room.seen_by(you).you_can_act <==> {
            &&& forall|i: int| #[trigger]
                is_the_row(room.players, i, you) ==> !room.players[i].forfeited
            &&& match room.phase {
                GamePhase::Lobby => you == room.host_id && room.players.len() >= 2,
                GamePhase::Playing => room.winner_id is None && room.turn_index
                    < room.players.len() && room.players[room.turn_index as int].id == you,
                GamePhase::StealWindow => room.seen_by(you).steal_available,
                GamePhase::Finished => you == room.host_id,
            }
        },
{
    a_player_is_found_in_the_first_row(room, you);
    if let Some(i) = room.row_of(you) {
        assert(is_the_row(room.players, i, you));
    }
    assert forall|i: int| #[trigger] is_the_row(room.players, i, you) implies room.row_of(you)
        == Some(i) by {
        lemma_row_is(room, you, i);
    }
}

} // verus!
