//! The rules of play as laws over the moves of a room.

use crate::ids::Uuid;
use crate::protocol::{ClientMessageModel, GamePhase, WIN_SCORE};
use crate::requests::LuckModel;
use crate::room_laws::{
    lemma_active_out, lemma_active_row, lemma_active_same, marked_dice_can_be_kept, orderly,
    turn_goes_to_active_rows,
};
use crate::room_model::{
    ForfeitCause, PendingBank, PlayerModel, RoomModel, active_rows, first_row, has_id, has_seat,
    is_active, lemma_first_row, lemma_forfeit_keeps_seats, same_seating,
};
use crate::scoring::{any_score, keepable};
use vstd::prelude::*;

verus! {

/// What the turn comes to with the dice about to be kept.
pub open spec fn turn_total(room: RoomModel, indices: Seq<usize>) -> int {
    if room.awaiting_keep {
        room.turn_points + room.held(indices)->0.points
    } else {
        room.turn_points as int
    }
}

/// The dice about to be kept win at once.
pub open spec fn wins_at_once(room: RoomModel, indices: Seq<usize>) -> bool {
    room.awaiting_keep && room.held(indices)->0.auto_win
}

/// What the score of the current player comes to with a bank: the turn is added to it, or makes it
/// up where the player is not yet on the board.
pub open spec fn score_after_bank(room: RoomModel, indices: Seq<usize>) -> int {
    let p = room.current()->0;
    if p.on_board {
        p.score + turn_total(room, indices)
    } else {
        turn_total(room, indices)
    }
}

/// A bank wins if and only if it brings the player to the goal exactly, and a player on the board
/// never banks past it.
pub proof fn bank_wins_on_the_goal_alone(
    room: RoomModel,
    id: Uuid,
    indices: Seq<usize>,
    now: u64,
)
    requires
        room.bank_refusal(id, indices) is None,
        room.bank_fits(id, indices),
        room.winner_id is None,
        !wins_at_once(room, indices),
    ensures
        ({
            let score = score_after_bank(room, indices);
            let after = room.after_bank(id, indices, now);
            let row = after.players[room.turn_index as int];
            &&& room.current()->0.on_board ==> score <= WIN_SCORE
            &&& after.phase == GamePhase::Finished <==> score == WIN_SCORE
            &&& score == WIN_SCORE ==> after.winner_id == Some(id) && row.score == WIN_SCORE
                && row.on_board
            &&& score != WIN_SCORE ==> after.winner_id is None
        }),
{
}

/// A player gets on the board by banking at least the minimum in one turn, and then has just what
/// the turn came to.
pub proof fn first_bank_gets_on_the_board(
    room: RoomModel,
    id: Uuid,
    indices: Seq<usize>,
    now: u64,
)
    requires
        room.bank_refusal(id, indices) is None,
        room.bank_fits(id, indices),
        room.winner_id is None,
        !wins_at_once(room, indices),
        !room.current()->0.on_board,
    ensures
        ({
            let after = room.after_bank(id, indices, now).players[room.turn_index as int];
            &&& turn_total(room, indices) >= room.board_threshold
            &&& after.on_board
            &&& after.score == turn_total(room, indices)
        }),
{
}

/// A bank short of the goal pays at once, unless the next player may steal: then it pays nothing
/// yet and waits.
pub proof fn bank_pays_or_waits(room: RoomModel, id: Uuid, now: u64)
    requires
        room.phase == GamePhase::Playing,
        room.points_refusal(room.turn_points as int) is None,
        room.current()->0.on_board,
        room.current()->0.score + room.turn_points != WIN_SCORE,
    ensures
        ({
            let i = room.turn_index as int;
            let after = room.after_banking(id, now);
            if room.next_can_steal(room.turn_points, room.steal_leftover) {
                &&& after.players == room.players
                &&& after.phase == GamePhase::StealWindow
                &&& after.turn_index == room.turn_index
                &&& after.pending_bank == Some(
                    PendingBank {
                        player_id: id,
                        points: room.turn_points,
                        leftover: room.steal_leftover,
                    },
                )
            } else {
                &&& after.players[i].score == room.players[i].score + room.turn_points
                &&& after.phase == GamePhase::Playing
                &&& after.pending_bank is None
            }
        }),
{
}

/// Declining pays the banker what was banked and nobody anything else.
pub proof fn declining_pays_the_banker(room: RoomModel, now: u64)
    requires
        room.pending_bank is Some,
        room.pending_fits(),
    ensures
        ({
            let pending = room.pending_bank->0;
            let after = room.after_decline(now);
            &&& after.players.len() == room.players.len()
            &&& forall|j: int|
                0 <= j < room.players.len() ==> (#[trigger] after.players[j]).score
                    == room.players[j].score + (if room.row_of(pending.player_id) == Some(j) {
                    pending.points as int
                } else {
                    0
                })
            &&& after.pending_bank is None
        }),
{
    let pending = room.pending_bank->0;
    lemma_first_row(room.players, has_id(pending.player_id), 0);
}

/// Stolen points are never lost: the banker has them back where the steal busts, and else they
/// stand in the thief's turn or the thief has won.
pub proof fn stolen_points_are_not_lost(room: RoomModel, id: Uuid, dice: Seq<u8>, now: u64)
    requires
        room.steal_refusal(id) is None,
        room.pending_fits(),
    ensures
        ({
            let pending = room.pending_bank->0;
            let after = room.after_steal(id, dice, now);
            if after.bust_showing {
                &&& after.players.len() == room.players.len()
                &&& forall|j: int|
                    0 <= j < room.players.len() ==> (#[trigger] after.players[j]).score
                        == room.players[j].score + (if room.row_of(pending.player_id) == Some(
                        j,
                    ) {
                        pending.points as int
                    } else {
                        0
                    })
            } else {
                &&& after.players == room.players
                &&& after.turn_points == pending.points
                &&& after.turn_index == room.next_row() as usize
                &&& after.phase == GamePhase::Playing || after.winner_id == Some(id)
            }
        }),
{
    let pending = room.pending_bank->0;
    lemma_first_row(room.players, has_id(pending.player_id), 0);
    let taken = RoomModel {
        turn_index: room.next_row() as usize,
        turn_points: pending.points,
        pending_bank: None,
        phase: GamePhase::Playing,
        ..room
    }.with_rolled(dice);
    assert(taken.row_of(pending.player_id) == room.row_of(pending.player_id));
}

/// A bust scores nothing, leaves its dice on the table and gives the next player a full roll.
pub proof fn bust_ends_the_turn(room: RoomModel, overshoot: bool, now: u64)
    ensures
        ({
            let after = room.busted(None, overshoot, now);
            &&& after.players == room.players
            &&& after.dice == room.dice
            &&& after.turn_points == 0
            &&& after.dice_to_roll() == room.mode.full_roll()
            &&& after.turn_index == room.next_row() as usize
            &&& after.phase == GamePhase::Playing
        }),
{
    lemma_next_row_same(room, room.with_bust(None, overshoot), 1);
}

/// Who comes next depends on the rows and the turn alone.
proof fn lemma_next_row_same(a: RoomModel, b: RoomModel, step: int)
    requires
        a.players == b.players,
        a.turn_index == b.turn_index,
    ensures
        a.next_row_from(step) == b.next_row_from(step),
    decreases a.players.len() + 1 - step,
{
    if step <= a.players.len() && a.players[a.seat_after(step)].forfeited {
        lemma_next_row_same(a, b, step + 1);
    }
}

/// A roll busts if and only if nothing in it scores, or nothing that the player may keep does.
pub proof fn rolls_bust_when_nothing_can_be_kept(
    room: RoomModel,
    id: Uuid,
    steal_from: Option<(Uuid, u32)>,
    now: u64,
)
    requires
        !room.bust_showing,
    ensures
        room.resolved(id, steal_from, now).bust_showing <==> !any_score(room.mode, room.dice)
            || !room.can_play_on(),
{
}

/// Who has kept every die rolls them all again.
pub proof fn hot_dice_roll_all_again(room: RoomModel, id: Uuid, indices: Seq<usize>, now: u64)
    requires
        room.keep_refusal(id, indices) is None,
        !room.held(indices)->0.auto_win,
        room.held(indices)->0.used.len() == room.dice.len(),
    ensures
        room.after_keep(id, indices, now).dice_to_roll() == room.mode.full_roll(),
{
}

/// Who has kept some dice rolls the others.
pub proof fn kept_dice_are_not_rolled(room: RoomModel, id: Uuid, indices: Seq<usize>, now: u64)
    requires
        room.keep_refusal(id, indices) is None,
        !room.held(indices)->0.auto_win,
        !room.bust_showing,
        room.held(indices)->0.used.len() < room.dice.len() <= usize::MAX,
    ensures
        room.after_keep(id, indices, now).dice_to_roll() == room.dice.len() - room.held(
            indices,
        )->0.used.len(),
{
}

/// In a room in order whose turn it is can always roll or keep: the dice never run out.
pub proof fn there_are_always_dice_to_roll(room: RoomModel)
    requires
        orderly(room),
        room.phase == GamePhase::Playing,
        !room.awaiting_keep,
    ensures
        room.dice_to_roll() > 0,
{
}

/// The offer to steal is shown to exactly the player who is allowed to steal.
pub proof fn steal_is_shown_to_whom_it_is_granted(room: RoomModel, you: Uuid)
    requires
        orderly(room),
    ensures
        room.seen_by(you).steal_available <==> room.steal_refusal(you) is None,
{
    if room.in_progress() {
        turn_goes_to_active_rows(room);
    }
}

/// While a game runs, who is shown as able to act is the one the room waits for.
pub proof fn who_may_act_is_awaited(room: RoomModel, you: Uuid)
    requires
        orderly(room),
        room.in_progress(),
        room.may_act(you),
    ensures
        room.acting_id() == Some(you),
{
    turn_goes_to_active_rows(room);
}

/// While a game runs, the room waits for someone.
pub proof fn a_running_game_awaits_someone(room: RoomModel)
    requires
        orderly(room),
        room.in_progress(),
    ensures
        room.acting_id() is Some,
{
    turn_goes_to_active_rows(room);
}

/// A finished game turns down every request but a rematch.
pub proof fn a_finished_game_only_restarts(
    room: RoomModel,
    id: Uuid,
    msg: ClientMessageModel,
    luck: LuckModel,
)
    requires
        room.phase == GamePhase::Finished,
        room.answer(id, msg, luck).refusal is None,
    ensures
        msg is Rematch || room.answer(id, msg, luck).after == room,
{
    match msg {
        ClientMessageModel::UpdateSettings { .. } => {
            reveal(RoomModel::settings_answer);
        },
        ClientMessageModel::StartGame => {
            reveal(RoomModel::start_answer);
        },
        ClientMessageModel::Roll { .. } => {
            reveal(RoomModel::roll_answer);
        },
        ClientMessageModel::Select { .. } => {
            reveal(RoomModel::select_answer);
        },
        ClientMessageModel::Keep { .. } => {
            reveal(RoomModel::keep_answer);
        },
        ClientMessageModel::Bank { .. } => {
            reveal(RoomModel::bank_answer);
        },
        ClientMessageModel::Steal => {
            reveal(RoomModel::steal_answer);
        },
        ClientMessageModel::DeclineSteal => {
            reveal(RoomModel::decline_answer);
        },
        ClientMessageModel::EndGame => {
            reveal(RoomModel::end_answer);
        },
        ClientMessageModel::Forfeit => {
            reveal(RoomModel::forfeit_answer);
        },
        _ => {},
    }
}

/// The settings, the start, the end and a rematch are up to the host.
pub proof fn the_host_rules(room: RoomModel, id: Uuid, msg: ClientMessageModel, luck: LuckModel)
    requires
        id != room.host_id,
        msg is UpdateSettings || msg is StartGame || msg is EndGame || msg is Rematch,
    ensures
        room.answer(id, msg, luck).refusal is Some,
{
    reveal(RoomModel::settings_answer);
    reveal(RoomModel::start_answer);
    reveal(RoomModel::end_answer);
    reveal(RoomModel::rematch_answer);
}

/// Only the player whose turn it is uses the dice, and only the next one steals or declines.
pub proof fn turns_are_kept(room: RoomModel, id: Uuid, msg: ClientMessageModel, luck: LuckModel)
    requires
        room.answer(id, msg, luck).refusal is None,
    ensures
        msg is Roll || msg is Select || msg is Keep || msg is Bank ==> room.phase
            == GamePhase::Playing && room.is_current(id),
        msg is Steal || msg is DeclineSteal ==> room.phase == GamePhase::StealWindow
            && room.next_player() is Some && room.next_player()->0.id == id,
{
    match msg {
        ClientMessageModel::Roll { .. } => {
            reveal(RoomModel::roll_answer);
        },
        ClientMessageModel::Select { .. } => {
            reveal(RoomModel::select_answer);
        },
        ClientMessageModel::Keep { .. } => {
            reveal(RoomModel::keep_answer);
        },
        ClientMessageModel::Bank { .. } => {
            reveal(RoomModel::bank_answer);
        },
        ClientMessageModel::Steal => {
            reveal(RoomModel::steal_answer);
        },
        ClientMessageModel::DeclineSteal => {
            reveal(RoomModel::decline_answer);
        },
        _ => {},
    }
}

/// When the last but one player forfeits, the other one wins.
pub proof fn the_last_player_wins(room: RoomModel, id: Uuid, cause: ForfeitCause, now: u64)
    requires
        room.forfeit_refusal(id) is None,
        active_rows(room.players) == 2,
    ensures
        ({
            let after = room.after_forfeit(id, cause, now);
            &&& after.phase == GamePhase::Finished
            &&& exists|i: int|
                0 <= i < after.players.len() && !(#[trigger] after.players[i]).forfeited
                    && after.winner_id == Some(after.players[i].id)
        }),
{
    lemma_first_row(room.players, has_id(id), 0);
    let i = room.row_of(id)->0;
    let out = room.row_out(i);
    lemma_active_out(
        room.players,
        i,
        PlayerModel { forfeited: true, ..room.players[i] },
    );
    if let Some(p) = out.pending_bank {
        lemma_first_row(out.players, has_id(p.player_id), 0);
    }
    let paid = out.settled();
    assert forall|j: int| 0 <= j < out.players.len() implies (#[trigger] out.players[j]).forfeited
        == paid.players[j].forfeited by {}
    lemma_active_same(out.players, paid.players);
    let j = lemma_active_row(paid.players);
    lemma_first_row(paid.players, is_active(), 0);
    assert(is_active()(paid.players[j]));
    let k = first_row(paid.players, is_active(), 0)->0;
    let after = room.after_forfeit(id, cause, now);
    assert(after.players[k] == paid.players[k]);
}

/// A forfeit puts out the row of the player who forfeits and nobody else.
pub proof fn a_forfeit_puts_out_one_row(room: RoomModel, id: Uuid, cause: ForfeitCause, now: u64)
    requires
        room.forfeit_refusal(id) is None,
    ensures
        room.after_forfeit(id, cause, now).players.len() == room.players.len(),
        forall|j: int|
            0 <= j < room.players.len() ==> (#[trigger] room.after_forfeit(
                id,
                cause,
                now,
            ).players[j]).forfeited == (room.players[j].forfeited || Some(j) == room.row_of(id)),
{
    lemma_first_row(room.players, has_id(id), 0);
    let out = room.row_out(room.row_of(id)->0);
    if let Some(p) = out.pending_bank {
        lemma_first_row(out.players, has_id(p.player_id), 0);
    }
}

/// A host who forfeits hands the room to a player still in the game.
pub proof fn a_host_who_forfeits_hands_on(
    room: RoomModel,
    cause: ForfeitCause,
    now: u64,
)
    requires
        room.forfeit_refusal(room.host_id) is None,
        active_rows(room.players) >= 2,
    ensures
        ({
            let after = room.after_forfeit(room.host_id, cause, now);
            exists|i: int|
                0 <= i < after.players.len() && !(#[trigger] after.players[i]).forfeited
                    && after.players[i].id == after.host_id
        }),
{
    let id = room.host_id;
    lemma_first_row(room.players, has_id(id), 0);
    let i = room.row_of(id)->0;
    let out = room.row_out(i);
    lemma_active_out(
        room.players,
        i,
        PlayerModel { forfeited: true, ..room.players[i] },
    );
    let j = lemma_active_row(out.players);
    lemma_first_row(out.players, is_active(), 0);
    assert(is_active()(out.players[j]));
    let k = first_row(out.players, is_active(), 0)->0;
    a_forfeit_puts_out_one_row(room, id, cause, now);
    lemma_forfeit_keeps_seats(room, id, cause, now);
    let after = room.after_forfeit(id, cause, now);
    assert(after.host_id == out.players[k].id);
    assert(after.players[k].id == room.players[k].id);
    assert(!after.players[k].forfeited);
}

/// Nobody is put out before the deadline, nor where there is none.
pub proof fn nobody_times_out_early(room: RoomModel, now: u64)
    ensures
        room.action_deadline_ms is None ==> !room.times_out(now),
        room.action_deadline_ms matches Some(deadline) && now < deadline ==> !room.times_out(now),
{
}

/// A timeout puts out the player whom the room waits for.
pub proof fn a_timeout_puts_out_the_actor(room: RoomModel, now: u64, from: u64)
    requires
        room.times_out(now),
    ensures
        ({
            let i = room.row_of(room.acting_id()->0)->0;
            0 <= i < room.players.len() && room.after_timeout(from).players[i].forfeited
        }),
{
    lemma_first_row(room.players, has_id(room.acting_id()->0), 0);
    a_forfeit_puts_out_one_row(room, room.acting_id()->0, ForfeitCause::Timeout, from);
}

/// Nothing in the room names the connection but the rows.
pub open spec fn unnamed(room: RoomModel, id: Uuid) -> bool {
    &&& room.host_id != id
    &&& room.winner_id != Some(id)
    &&& !(room.pending_bank matches Some(p) && p.player_id == id)
}

/// Who comes back to a seat finds it as it was, host, winner and banker as before.
pub proof fn coming_back_undoes_leaving(room: RoomModel, i: int, ghost: Uuid)
    requires
        0 <= i < room.players.len(),
        room.players[i].connected,
        unnamed(room, ghost),
    ensures
        room.after_detach(i, ghost).after_reclaim(i, room.players[i].id, room.players[i].name)
            == room.with_message(room.players[i].name + " reconnected"@),
{
    let back = room.after_detach(i, ghost).after_reclaim(
        i,
        room.players[i].id,
        room.players[i].name,
    );
    assert(back =~= room.with_message(room.players[i].name + " reconnected"@));
}

/// A seat is found again in the same row after its connection has gone and another one has come.
pub proof fn seats_outlive_connections(room: RoomModel, seat_key: Uuid, ghost: Uuid, now: u64)
    requires
        room.row_of_seat(seat_key) is Some,
        room.phase != GamePhase::Lobby,
    ensures
        ({
            let i = room.row_of_seat(seat_key)->0;
            let left = room.after_vacate(i, ghost, now);
            &&& left.row_of_seat(seat_key) == Some(i)
            &&& left.join_refusal(seat_key) is None
            &&& left.players.len() == room.players.len()
            &&& !left.players[i].connected
        }),
{
    let i = room.row_of_seat(seat_key)->0;
    let p = room.players[i];
    lemma_first_row(room.players, has_seat(seat_key), 0);
    let left = room.after_vacate(i, ghost, now);
    let before = if room.in_progress() && !p.forfeited && room.forfeit_refusal(p.id) is None {
        lemma_forfeit_keeps_seats(room, p.id, ForfeitCause::Manual, now);
        room.after_forfeit(p.id, ForfeitCause::Manual, now)
    } else {
        room
    };
    assert(same_seating(room.players, before.players));
    assert(left == before.after_detach(i, ghost));
    lemma_first_row(left.players, has_seat(seat_key), 0);
    assert forall|j: int| 0 <= j < left.players.len() implies (#[trigger] left.players[j]).seat_key
        == room.players[j].seat_key by {
        assert(before.players[j].seat_key == room.players[j].seat_key);
    }
    assert(left.players[i].seat_key == seat_key);
    let k = left.row_of_seat(seat_key)->0;
    assert(room.players[k].seat_key == seat_key);
}

/// Where idle forfeit is off, nobody is ever put out for waiting.
pub proof fn idle_forfeit_can_be_off(room: RoomModel, now: u64)
    requires
        orderly(room),
        room.idle_timeout_secs is None,
    ensures
        !room.times_out(now),
{
}

/// The connection holds no row.
pub open spec fn holds_no_row(room: RoomModel, id: Uuid) -> bool {
    forall|j: int| 0 <= j < room.players.len() ==> (#[trigger] room.players[j]).id != id
}

/// A connection that has given up its only seat holds no row any more.
pub proof fn who_leaves_is_gone(room: RoomModel, seat_key: Uuid, ghost: Uuid, now: u64)
    requires
        room.row_of_seat(seat_key) is Some,
        ({
            let i = room.row_of_seat(seat_key)->0;
            &&& ghost != room.players[i].id
            &&& forall|j: int|
                0 <= j < room.players.len() && j != i ==> (#[trigger] room.players[j]).id
                    != room.players[i].id
        }),
    ensures
        ({
            let i = room.row_of_seat(seat_key)->0;
            holds_no_row(room.after_vacate(i, ghost, now), room.players[i].id)
        }),
{
    let i = room.row_of_seat(seat_key)->0;
    let id = room.players[i].id;
    lemma_first_row(room.players, has_seat(seat_key), 0);
    let left = room.after_vacate(i, ghost, now);
    if room.phase == GamePhase::Lobby {
        assert forall|j: int| 0 <= j < left.players.len() implies (#[trigger] left.players[j]).id
            != id by {
            if j < i {
                assert(left.players[j] == room.players[j]);
            } else {
                assert(left.players[j] == room.players[j + 1]);
            }
        }
    } else {
        let before = if room.in_progress() && !room.players[i].forfeited && room.forfeit_refusal(
            id,
        ) is None {
            lemma_forfeit_keeps_seats(room, id, ForfeitCause::Manual, now);
            room.after_forfeit(id, ForfeitCause::Manual, now)
        } else {
            room
        };
        assert(left == before.after_detach(i, ghost));
        assert forall|j: int| 0 <= j < left.players.len() implies (#[trigger] left.players[j]).id
            != id by {
            assert(before.players[j].id == room.players[j].id);
        }
    }
}

/// The same table: its code, its version, and the same seats in the same rows.
pub open spec fn same_table(a: RoomModel, b: RoomModel) -> bool {
    &&& b.code == a.code
    &&& b.version == a.version
    &&& b.players.len() == a.players.len()
    &&& forall|j: int|
        0 <= j < a.players.len() ==> (#[trigger] b.players[j]).seat_key == a.players[j].seat_key
            && b.players[j].id == a.players[j].id
}

proof fn lemma_next_turn_table(room: RoomModel, keep_dice: bool, now: u64)
    ensures
        same_table(room, room.next_turn(keep_dice, now)),
{
}

proof fn lemma_settled_table(room: RoomModel)
    ensures
        same_table(room, room.settled()),
{
    if let Some(p) = room.pending_bank {
        lemma_first_row(room.players, has_id(p.player_id), 0);
    }
}

proof fn lemma_resolved_table(
    room: RoomModel,
    id: Uuid,
    steal_from: Option<(Uuid, u32)>,
    now: u64,
)
    ensures
        same_table(room, room.resolved(id, steal_from, now)),
{
    if let Some((banker, points)) = steal_from {
        lemma_first_row(room.players, has_id(banker), 0);
    }
    lemma_next_turn_table(room.with_bust(steal_from, false), true, now);
    lemma_next_turn_table(room.with_bust(steal_from, true), true, now);
    assert(same_table(room, room.with_bust(steal_from, false)));
    assert(same_table(room, room.with_bust(steal_from, true)));
}

proof fn lemma_forfeit_table(room: RoomModel, id: Uuid, cause: ForfeitCause, now: u64)
    requires
        room.forfeit_refusal(id) is None,
    ensures
        same_table(room, room.after_forfeit(id, cause, now)),
{
    lemma_forfeit_keeps_seats(room, id, cause, now);
    let out = room.row_out(room.row_of(id)->0);
    lemma_settled_table(out);
}

proof fn lemma_bank_table(room: RoomModel, id: Uuid, now: u64)
    requires
        room.current() is Some,
    ensures
        same_table(room, room.after_banking(id, now)),
{
}

proof fn lemma_roll_table(room: RoomModel, id: Uuid, indices: Seq<usize>, luck: LuckModel)
    ensures
        same_table(room, room.roll_answer(id, indices, luck).after),
{
    reveal(RoomModel::roll_answer);
    let ready = room.before_roll(id, indices, luck.now);
    lemma_keep_table(room, id, indices, luck.now);
    lemma_resolved_table(ready.with_rolled(luck.dice), id, None, luck.now);
}

proof fn lemma_keep_table(room: RoomModel, id: Uuid, indices: Seq<usize>, now: u64)
    ensures
        same_table(room, room.after_keep(id, indices, now)),
{
}

proof fn lemma_bank_answer_table(room: RoomModel, id: Uuid, indices: Seq<usize>, now: u64)
    requires
        room.bank_answer(id, indices, now).refusal is None,
    ensures
        same_table(room, room.bank_answer(id, indices, now).after),
{
    reveal(RoomModel::bank_answer);
    lemma_keep_table(room, id, indices, now);
    if room.awaiting_keep {
        lemma_bank_table(room.after_keep(id, indices, now), id, now);
    } else {
        lemma_bank_table(room, id, now);
    }
}

proof fn lemma_steal_table(room: RoomModel, id: Uuid, luck: LuckModel)
    ensures
        same_table(room, room.steal_answer(id, luck).after),
{
    reveal(RoomModel::steal_answer);
    let pending = room.pending_bank->0;
    let taken = RoomModel {
        turn_index: room.next_row() as usize,
        turn_points: pending.points,
        pending_bank: None,
        phase: GamePhase::Playing,
        ..room
    }.with_rolled(luck.dice);
    lemma_resolved_table(taken, id, Some((pending.player_id, pending.points)), luck.now);
}

proof fn lemma_decline_table(room: RoomModel, id: Uuid, now: u64)
    ensures
        same_table(room, room.decline_answer(id, now).after),
{
    reveal(RoomModel::decline_answer);
    lemma_settled_table(room);
    lemma_next_turn_table(room.settled(), false, now);
}

proof fn lemma_end_table(room: RoomModel, id: Uuid)
    ensures
        same_table(room, room.end_answer(id).after),
{
    reveal(RoomModel::end_answer);
    lemma_settled_table(room);
}

/// No request moves anyone to another row, and none touches the code or the version of the room.
pub proof fn requests_keep_the_table(
    room: RoomModel,
    id: Uuid,
    msg: ClientMessageModel,
    luck: LuckModel,
)
    requires
        room.answer(id, msg, luck).refusal is None,
    ensures
        same_table(room, room.answer(id, msg, luck).after),
{
    match msg {
        ClientMessageModel::UpdateSettings { .. } => {
            reveal(RoomModel::settings_answer);
        },
        ClientMessageModel::StartGame => {
            reveal(RoomModel::start_answer);
        },
        ClientMessageModel::Roll { indices } => lemma_roll_table(room, id, indices, luck),
        ClientMessageModel::Select { .. } => {
            reveal(RoomModel::select_answer);
        },
        ClientMessageModel::Keep { indices } => {
            reveal(RoomModel::keep_answer);
            lemma_keep_table(room, id, indices, luck.now);
        },
        ClientMessageModel::Bank { indices } => {
            lemma_bank_answer_table(room, id, indices, luck.now);
        },
        ClientMessageModel::Steal => lemma_steal_table(room, id, luck),
        ClientMessageModel::DeclineSteal => lemma_decline_table(room, id, luck.now),
        ClientMessageModel::EndGame => lemma_end_table(room, id),
        ClientMessageModel::Forfeit => {
            reveal(RoomModel::forfeit_answer);
            lemma_forfeit_table(room, id, ForfeitCause::Manual, luck.now);
        },
        ClientMessageModel::Rematch => {
            reveal(RoomModel::rematch_answer);
        },
        _ => {},
    }
}

/// A timeout moves nobody to another row, and touches neither code nor version.
pub proof fn timeouts_keep_the_table(room: RoomModel, now: u64, from: u64)
    requires
        room.times_out(now),
    ensures
        same_table(room, room.after_timeout(from)),
{
    lemma_forfeit_table(room, room.acting_id()->0, ForfeitCause::Timeout, from);
}

/// Giving up a seat touches neither the code nor the version of the room.
pub proof fn vacating_keeps_the_name(room: RoomModel, i: int, ghost: Uuid, now: u64)
    ensures
        room.after_vacate(i, ghost, now).code == room.code,
        room.after_vacate(i, ghost, now).version == room.version,
{
    let id = room.players[i].id;
    if room.forfeit_refusal(id) is None {
        lemma_forfeit_table(room, id, ForfeitCause::Manual, now);
    }
}

/// Whether a request is granted, and if not with which words, is not a matter of luck.
pub proof fn refusals_are_no_matter_of_luck(
    room: RoomModel,
    id: Uuid,
    msg: ClientMessageModel,
    luck: LuckModel,
    other: LuckModel,
)
    ensures
        room.answer(id, msg, luck).refusal == room.answer(id, msg, other).refusal,
{
    match msg {
        ClientMessageModel::StartGame => {
            reveal(RoomModel::start_answer);
        },
        ClientMessageModel::Roll { .. } => {
            reveal(RoomModel::roll_answer);
        },
        ClientMessageModel::Keep { .. } => {
            reveal(RoomModel::keep_answer);
        },
        ClientMessageModel::Bank { .. } => {
            reveal(RoomModel::bank_answer);
        },
        ClientMessageModel::Steal => {
            reveal(RoomModel::steal_answer);
        },
        ClientMessageModel::DeclineSteal => {
            reveal(RoomModel::decline_answer);
        },
        ClientMessageModel::Forfeit => {
            reveal(RoomModel::forfeit_answer);
        },
        _ => {},
    }
}

/// Marking what is marked changes nothing.
pub proof fn marking_again_changes_nothing(room: RoomModel, indices: Seq<usize>)
    requires
        room.dice.len() <= usize::MAX,
    ensures
        room.marked(room.marked(indices)) == room.marked(indices),
{
    marked_dice_can_be_kept(room, indices);
    let places = Seq::new(room.dice.len(), |i: int| i as usize);
    let wanted = |i: usize| indices.contains(i) && keepable(room.mode, room.dice, i as int);
    let marked = room.marked(indices);
    let again = |i: usize| marked.contains(i) && keepable(room.mode, room.dice, i as int);
    lemma_filter_same(places, wanted, again);
    assert(room.marked(indices) == places.filter(wanted));
    assert(room.marked(marked) == places.filter(again));
}

proof fn lemma_filter_same(s: Seq<usize>, p: spec_fn(usize) -> bool, q: spec_fn(usize) -> bool)
    requires
        forall|k: int| 0 <= k < s.len() ==> p(#[trigger] s[k]) == q(s[k]),
    ensures
        s.filter(p) == s.filter(q),
    decreases s.len(),
{
    reveal(Seq::filter);
    if s.len() > 0 {
        assert(p(s[s.len() - 1]) == q(s[s.len() - 1]));
        assert forall|k: int| 0 <= k < s.drop_last().len() implies p(#[trigger] s.drop_last()[k])
            == q(s.drop_last()[k]) by {
            assert(p(s[k]) == q(s[k]));
        }
        lemma_filter_same(s.drop_last(), p, q);
    }
}

} // verus!
