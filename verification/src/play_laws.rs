//! What every move does to a room, field by field and in numbers: when it is granted, what it
//! changes, and that it leaves everything else alone.

use crate::chance::all_faces;
use crate::ids::Uuid;
use crate::protocol::{ClientMessageModel, GameMode, GamePhase, IDLE_TIMEOUT_OPTIONS_SECS};
use crate::requests::LuckModel;
use crate::room_model::{ForfeitCause, PlayerModel, RoomModel, has_id, has_seat, lemma_first_row};
use crate::scoring::{dice_score, held_score, keepable};
use crate::scoring_laws::{bust_means_nothing_scores, used_dice_are_selected};
use crate::text_laws::lemma_filter_member;
use crate::worth::{keepable_dice_earn_points, may_be_held, something_to_keep_is_a_selection};
use vstd::prelude::*;

verus! {

// ---------------------------------------------------------------------------
// Who is who
// ---------------------------------------------------------------------------

/// A connection is found in the first row that it holds.
pub proof fn a_player_is_found_in_the_first_row(room: RoomModel, id: Uuid)
    ensures
        match room.row_of(id) {
            Some(i) => {
                &&& 0 <= i < room.players.len()
                &&& room.players[i].id == id
                &&& forall|j: int| 0 <= j < i ==> (#[trigger] room.players[j]).id != id
            },
            None => forall|j: int|
                0 <= j < room.players.len() ==> (#[trigger] room.players[j]).id != id,
        },
{
    lemma_first_row(room.players, has_id(id), 0);
    if let Some(i) = room.row_of(id) {
        assert forall|j: int| 0 <= j < i implies (#[trigger] room.players[j]).id != id by {
            assert(!has_id(id)(room.players[j]));
        }
    } else {
        assert forall|j: int| 0 <= j < room.players.len() implies (
        #[trigger] room.players[j]).id != id by {
            assert(!has_id(id)(room.players[j]));
        }
    }
}

/// A seat is found in the first row that has it.
pub proof fn a_seat_is_found_in_the_first_row(room: RoomModel, seat_key: Uuid)
    ensures
        match room.row_of_seat(seat_key) {
            Some(i) => {
                &&& 0 <= i < room.players.len()
                &&& room.players[i].seat_key == seat_key
                &&& forall|j: int| 0 <= j < i ==> (#[trigger] room.players[j]).seat_key != seat_key
            },
            None => forall|j: int|
                0 <= j < room.players.len() ==> (#[trigger] room.players[j]).seat_key != seat_key,
        },
{
    lemma_first_row(room.players, has_seat(seat_key), 0);
    if let Some(i) = room.row_of_seat(seat_key) {
        assert forall|j: int| 0 <= j < i implies (#[trigger] room.players[j]).seat_key
            != seat_key by {
            assert(!has_seat(seat_key)(room.players[j]));
        }
    } else {
        assert forall|j: int| 0 <= j < room.players.len() implies (
        #[trigger] room.players[j]).seat_key != seat_key by {
            assert(!has_seat(seat_key)(room.players[j]));
        }
    }
}

/// Going round the table from `turn`, the row that comes `steps` later.
pub open spec fn around(turn: int, steps: int, n: int) -> int {
    (turn + steps) % n
}

/// `next` is the first row after `turn`, going round, that is still in the game. Where there is
/// none the turn stays.
pub open spec fn comes_next(players: Seq<PlayerModel>, turn: int, next: int) -> bool {
    let n = players.len() as int;
    if n == 0 {
        next == 0
    } else {
        ||| exists|d: int|
            {
                &&& 1 <= d <= n
                &&& next == #[trigger] around(turn, d, n)
                &&& !players[next].forfeited
                &&& forall|e: int| 1 <= e < d ==> players[#[trigger] around(turn, e, n)].forfeited
            }
        ||| next == turn && forall|e: int|
            1 <= e <= n ==> players[#[trigger] around(turn, e, n)].forfeited
    }
}

/// The next row is the first one after the current one that is still in the game.
pub proof fn the_turn_goes_round(room: RoomModel)
    ensures
        comes_next(room.players, room.turn_index as int, room.next_row()),
{
    if room.players.len() > 0 {
        lemma_round_from(room, 1);
    }
}

proof fn lemma_round_from(room: RoomModel, from: int)
    requires
        room.players.len() > 0,
        1 <= from <= room.players.len() + 1,
        forall|e: int|
            1 <= e < from ==> room.players[#[trigger] around(
                room.turn_index as int,
                e,
                room.players.len() as int,
            )].forfeited,
    ensures
        comes_next(room.players, room.turn_index as int, room.next_row_from(from)),
    decreases room.players.len() + 1 - from,
{
    let n = room.players.len() as int;
    if from <= n {
        assert(room.seat_after(from) == around(room.turn_index as int, from, n));
        if room.players[room.seat_after(from)].forfeited {
            lemma_round_from(room, from + 1);
        }
    }
}

/// The room waits for the player whose turn it is, and while a bank can be stolen for the one
/// after; a lobby and a finished game wait for nobody.
pub proof fn who_is_awaited(room: RoomModel)
    ensures
        room.phase == GamePhase::Lobby || room.phase == GamePhase::Finished ==> room.acting_id()
            is None,
        room.phase == GamePhase::Playing && room.turn_index < room.players.len()
            ==> room.acting_id() == if room.players[room.turn_index as int].forfeited {
            None
        } else {
            Some(room.players[room.turn_index as int].id)
        },
        room.phase == GamePhase::StealWindow && room.next_row() < room.players.len()
            ==> room.acting_id() == if room.players[room.next_row()].forfeited {
            None
        } else {
            Some(room.players[room.next_row()].id)
        },
{
}

/// The time to act runs out the given number of seconds from now.
pub open spec fn time_is_up_at(secs: Option<u64>, now: u64) -> Option<u64> {
    match secs {
        None => None,
        Some(s) => if now + 1000 * s > 0xffff_ffff_ffff_ffff {
            Some(0xffff_ffff_ffff_ffff)
        } else {
            Some((now + 1000 * s) as u64)
        },
    }
}

/// The three things that the host sets are as before.
pub open spec fn same_settings(a: RoomModel, b: RoomModel) -> bool {
    &&& b.mode == a.mode
    &&& b.board_threshold == a.board_threshold
    &&& b.idle_timeout_secs == a.idle_timeout_secs
}

/// It is the given player's turn to use the dice.
pub open spec fn has_the_dice(room: RoomModel, id: Uuid) -> bool {
    &&& room.phase == GamePhase::Playing
    &&& room.turn_index < room.players.len()
    &&& room.players[room.turn_index as int].id == id
}

/// The turn has passed to the row that comes next, with no points, nothing marked and the full
/// time to act. The dice stay on the table after a bust and only then.
pub open spec fn turn_has_passed(
    before: RoomModel,
    after: RoomModel,
    bust: bool,
    now: u64,
) -> bool {
    &&& comes_next(before.players, before.turn_index as int, after.turn_index as int)
    &&& after == (RoomModel {
        turn_index: after.turn_index,
        status_message: after.status_message,
        phase: GamePhase::Playing,
        pending_bank: None,
        dice: if bust {
            before.dice
        } else {
            seq![]
        },
        selected: seq![],
        turn_points: 0,
        awaiting_keep: false,
        steal_leftover: 0,
        bust_showing: bust,
        action_deadline_ms: time_is_up_at(before.idle_timeout_secs, now),
        ..before
    })
}

/// Passing the turn does just that.
pub proof fn passing_the_turn(room: RoomModel, bust: bool, now: u64)
    requires
        room.players.len() <= usize::MAX,
    ensures
        turn_has_passed(room, room.next_turn(bust, now), bust, now),
{
    the_turn_goes_round(room);
    lemma_next_row_fits(room);
    assert(room.next_turn(bust, now) =~= (RoomModel {
        turn_index: room.next_turn(bust, now).turn_index,
        status_message: room.next_turn(bust, now).status_message,
        phase: GamePhase::Playing,
        pending_bank: None,
        dice: if bust {
            room.dice
        } else {
            seq![]
        },
        selected: seq![],
        turn_points: 0,
        awaiting_keep: false,
        steal_leftover: 0,
        bust_showing: bust,
        action_deadline_ms: time_is_up_at(room.idle_timeout_secs, now),
        ..room
    }));
}

pub proof fn lemma_next_row_fits(room: RoomModel)
    requires
        room.players.len() <= usize::MAX,
    ensures
        0 <= room.next_row() <= usize::MAX,
{
    the_turn_goes_round(room);
    let n = room.players.len() as int;
    if n > 0 {
        assert forall|d: int| 0 <= #[trigger] around(room.turn_index as int, d, n) < n by {
            let x = room.turn_index + d;
            assert(0 <= x % n < n) by (nonlinear_arith)
                requires
                    n > 0,
            ;
        }
    }
}

/// The row is the first that the given connection holds.
pub open spec fn is_the_row(players: Seq<PlayerModel>, j: int, id: Uuid) -> bool {
    &&& 0 <= j < players.len()
    &&& players[j].id == id
    &&& forall|k: int| 0 <= k < j ==> (#[trigger] players[k]).id != id
}

/// The row of the given connection has the points on top, and nothing else about the rows has
/// changed.
pub open spec fn has_been_paid(
    before: Seq<PlayerModel>,
    after: Seq<PlayerModel>,
    id: Uuid,
    points: u32,
) -> bool {
    &&& after.len() == before.len()
    &&& forall|j: int|
        0 <= j < before.len() ==> (#[trigger] after[j]) == (PlayerModel {
            score: (before[j].score + if is_the_row(before, j, id) {
                points as int
            } else {
                0
            }) as u32,
            ..before[j]
        })
}

pub proof fn lemma_paid(room: RoomModel, id: Uuid, points: u32)
    requires
        room.credit_fits(id, points),
    ensures
        has_been_paid(room.players, room.credited(id, points).players, id, points),
        room.credited(id, points) == (RoomModel {
            players: room.credited(id, points).players,
            ..room
        }),
{
    a_player_is_found_in_the_first_row(room, id);
    let after = room.credited(id, points).players;
    assert forall|j: int| 0 <= j < room.players.len() implies (#[trigger] after[j]) == (
    PlayerModel {
        score: (room.players[j].score + if is_the_row(room.players, j, id) {
            points as int
        } else {
            0
        }) as u32,
        ..room.players[j]
    }) by {
        match room.row_of(id) {
            Some(i) => {
                if is_the_row(room.players, j, id) && j != i {
                    if j < i {
                        assert(room.players[j].id != id);
                    } else {
                        assert(room.players[i].id != id);
                    }
                }
                assert(is_the_row(room.players, i, id));
            },
            None => {
                assert(!is_the_row(room.players, j, id));
            },
        }
    }
}

// ---------------------------------------------------------------------------
// The lobby
// ---------------------------------------------------------------------------

/// A new room is a lobby for Bones with a minimum of 1,000, no idle forfeit, and one player, who
/// is its host.
pub proof fn what_a_new_room_is(code: Seq<char>, host: PlayerModel)
    ensures
        RoomModel::opened(code, host) == (RoomModel {
            code,
            host_id: host.id,
            players: seq![host],
            phase: GamePhase::Lobby,
            mode: GameMode::Bones,
            board_threshold: 1_000,
            idle_timeout_secs: None,
            turn_index: 0,
            dice: seq![],
            selected: seq![],
            turn_points: 0,
            awaiting_keep: false,
            steal_leftover: 0,
            bust_showing: false,
            pending_bank: None,
            winner_id: None,
            status_message: "Waiting for players… share the invite link."@,
            action_deadline_ms: None,
            version: 0,
        }),
{
}

/// Bones is played with five dice and a minimum of 1,000, Farkle with six and 500.
pub proof fn what_the_games_are(mode: GameMode)
    ensures
        mode == GameMode::Bones ==> mode.full_roll() == 5 && mode.board_default() == 1_000,
        mode == GameMode::Farkle ==> mode.full_roll() == 6 && mode.board_default() == 500,
{
}

/// Settings are changed by the host in the lobby alone, to an idle time on offer or none and to a
/// minimum of up to 10,000; another game brings its own minimum, and one that is left out is the
/// game's own. Nothing else changes.
pub proof fn what_settings_do(
    room: RoomModel,
    id: Uuid,
    mode: GameMode,
    idle: Option<u64>,
    minimum: Option<u32>,
    luck: LuckModel,
)
    ensures
        ({
            let answer = room.answer(
                id,
                ClientMessageModel::UpdateSettings {
                    mode,
                    idle_timeout_secs: idle,
                    board_threshold: minimum,
                },
                luck,
            );
            let board: u32 = if mode == room.mode && minimum is Some {
                minimum->0
            } else if mode == GameMode::Bones {
                1_000
            } else {
                500
            };
            &&& answer.refusal is None <==> {
                &&& id == room.host_id
                &&& room.phase == GamePhase::Lobby
                &&& board <= 10_000
                &&& idle matches Some(s) ==> s == 30 || s == 60 || s == 120 || s == 300 || s == 600
                    || s == 900 || s == 1_200 || s == 1_800
            }
            &&& answer.after == (RoomModel {
                mode,
                board_threshold: board,
                idle_timeout_secs: idle,
                status_message: answer.after.status_message,
                ..room
            })
        }),
{
    reveal(RoomModel::settings_answer);
    let options = IDLE_TIMEOUT_OPTIONS_SECS@;
    assert(options[0] == 30 && options[1] == 60 && options[2] == 120 && options[3] == 300
        && options[4] == 600 && options[5] == 900 && options[6] == 1_200 && options[7] == 1_800);
    assert(options.len() == 8);
    if let Some(s) = idle {
        if options.contains(s) {
            let k = choose|k: int| 0 <= k < 8 && options[k] == s;
        }
        if s == 30 || s == 60 || s == 120 || s == 300 || s == 600 || s == 900 || s == 1_200 || s
            == 1_800 {
            assert(options.contains(30) && options.contains(60) && options.contains(120)
                && options.contains(300) && options.contains(600) && options.contains(900)
                && options.contains(1_200) && options.contains(1_800)) by {
                assert(options[0] == 30);
            }
        }
    }
}

/// The host starts a game from the lobby with two players or more, with the first row's turn and
/// nothing on the table. Players, host and settings stay.
pub proof fn what_a_start_does(room: RoomModel, id: Uuid, luck: LuckModel)
    ensures
        ({
            let answer = room.answer(id, ClientMessageModel::StartGame, luck);
            &&& answer.refusal is None <==> {
                &&& id == room.host_id
                &&& room.phase == GamePhase::Lobby
                &&& room.players.len() >= 2
            }
            &&& answer.after == (RoomModel {
                phase: GamePhase::Playing,
                turn_index: 0,
                dice: seq![],
                selected: seq![],
                turn_points: 0,
                awaiting_keep: false,
                steal_leftover: 0,
                bust_showing: false,
                action_deadline_ms: time_is_up_at(room.idle_timeout_secs, luck.now),
                status_message: answer.after.status_message,
                ..room
            })
        }),
{
    reveal(RoomModel::start_answer);
}

/// Settings change through a request to change them and through nothing else.
pub proof fn only_settings_change_settings(
    room: RoomModel,
    id: Uuid,
    msg: ClientMessageModel,
    luck: LuckModel,
)
    requires
        room.answer(id, msg, luck).refusal is None,
        !(msg is UpdateSettings),
    ensures
        same_settings(room, room.answer(id, msg, luck).after),
{
    match msg {
        ClientMessageModel::StartGame => {
            reveal(RoomModel::start_answer);
        },
        ClientMessageModel::Roll { indices } => lemma_roll_settings(room, id, indices, luck),
        ClientMessageModel::Select { .. } => {
            reveal(RoomModel::select_answer);
        },
        ClientMessageModel::Keep { .. } => {
            reveal(RoomModel::keep_answer);
        },
        ClientMessageModel::Bank { indices } => lemma_bank_settings(room, id, indices, luck.now),
        ClientMessageModel::Steal => lemma_steal_settings(room, id, luck),
        ClientMessageModel::DeclineSteal => {
            reveal(RoomModel::decline_answer);
        },
        ClientMessageModel::EndGame => {
            reveal(RoomModel::end_answer);
        },
        ClientMessageModel::Forfeit => {
            reveal(RoomModel::forfeit_answer);
            lemma_forfeit_settings(room, id, ForfeitCause::Manual, luck.now);
        },
        ClientMessageModel::Rematch => {
            reveal(RoomModel::rematch_answer);
        },
        _ => {},
    }
}

proof fn lemma_resolved_settings(
    room: RoomModel,
    id: Uuid,
    steal_from: Option<(Uuid, u32)>,
    now: u64,
)
    ensures
        same_settings(room, room.resolved(id, steal_from, now)),
{
    assert(same_settings(room, room.with_bust(steal_from, false)));
    assert(same_settings(room, room.with_bust(steal_from, true)));
}

proof fn lemma_roll_settings(room: RoomModel, id: Uuid, indices: Seq<usize>, luck: LuckModel)
    ensures
        same_settings(room, room.roll_answer(id, indices, luck).after),
{
    reveal(RoomModel::roll_answer);
    let ready = room.before_roll(id, indices, luck.now);
    assert(same_settings(room, ready));
    lemma_resolved_settings(ready.with_rolled(luck.dice), id, None, luck.now);
}

proof fn lemma_banking_settings(room: RoomModel, id: Uuid, now: u64)
    ensures
        same_settings(room, room.after_banking(id, now)),
{
}

proof fn lemma_bank_settings(room: RoomModel, id: Uuid, indices: Seq<usize>, now: u64)
    ensures
        same_settings(room, room.bank_answer(id, indices, now).after),
{
    reveal(RoomModel::bank_answer);
    let kept = room.after_keep(id, indices, now);
    assert(same_settings(room, kept));
    lemma_banking_settings(kept, id, now);
    lemma_banking_settings(room, id, now);
}

proof fn lemma_steal_settings(room: RoomModel, id: Uuid, luck: LuckModel)
    ensures
        same_settings(room, room.steal_answer(id, luck).after),
{
    reveal(RoomModel::steal_answer);
    let pending = room.pending_bank->0;
    lemma_resolved_settings(
        room.with_stolen(luck.dice),
        id,
        Some((pending.player_id, pending.points)),
        luck.now,
    );
}

proof fn lemma_forfeit_settings(room: RoomModel, id: Uuid, cause: ForfeitCause, now: u64)
    ensures
        same_settings(room, room.after_forfeit(id, cause, now)),
{
    let out = room.row_out(room.row_of(id)->0);
    assert(same_settings(room, out));
    assert(same_settings(room, out.settled()));
}

/// Nor do timeouts, departures and arrivals change settings.
pub proof fn comings_and_goings_keep_settings(
    room: RoomModel,
    i: int,
    id: Uuid,
    name: Seq<char>,
    seat_key: Uuid,
    ghost: Uuid,
    now: u64,
)
    ensures
        same_settings(room, room.after_timeout(now)),
        same_settings(room, room.after_vacate(i, ghost, now)),
        same_settings(room, room.after_join(id, name, seat_key)),
        same_settings(room, room.after_disconnect(id)),
{
    lemma_forfeit_settings(room, room.acting_id()->0, ForfeitCause::Timeout, now);
    lemma_forfeit_settings(room, room.players[i].id, ForfeitCause::Manual, now);
}

// ---------------------------------------------------------------------------
// Keeping dice
// ---------------------------------------------------------------------------

/// The dice score, and a player on the board does not go over 10,000 with them, counting the score
/// and the points that the turn has brought so far.
pub open spec fn may_keep(room: RoomModel, p: PlayerModel, indices: Seq<usize>) -> bool {
    held_score(room.mode, room.dice, indices) matches Some(h) && (h.auto_win || (p.on_board
        ==> p.score + room.turn_points + h.points <= 10_000))
}

/// Dice are kept by the player whose turn it is, after a roll, where they may be.
pub proof fn when_dice_are_kept(room: RoomModel, id: Uuid, indices: Seq<usize>, luck: LuckModel)
    requires
        room.request_fits(id, ClientMessageModel::Keep { indices }, luck),
    ensures
        room.answer(id, ClientMessageModel::Keep { indices }, luck).refusal is None <==> {
            &&& has_the_dice(room, id)
            &&& room.awaiting_keep
            &&& room.dice.len() > 0
            &&& may_keep(room, room.players[room.turn_index as int], indices)
        },
{
    reveal(RoomModel::request_fits);
    reveal(RoomModel::keep_answer);
}

/// What the room is once dice have been kept. Five of a kind wins at once. Otherwise the points go
/// to the turn and nowhere else; who has used every die has a clear table, and else the dice used
/// are marked and the others are left.
pub open spec fn has_kept(
    before: RoomModel,
    after: RoomModel,
    id: Uuid,
    indices: Seq<usize>,
    now: u64,
) -> bool {
    held_score(before.mode, before.dice, indices) matches Some(h) && if h.auto_win {
        has_won_at_once(before, after, id)
    } else if h.used.len() == before.dice.len() {
        after == (RoomModel {
            turn_points: (before.turn_points + h.points) as u32,
            awaiting_keep: false,
            dice: seq![],
            selected: seq![],
            steal_leftover: 0,
            action_deadline_ms: time_is_up_at(before.idle_timeout_secs, now),
            status_message: after.status_message,
            ..before
        })
    } else {
        after == (RoomModel {
            turn_points: (before.turn_points + h.points) as u32,
            awaiting_keep: false,
            selected: h.used,
            steal_leftover: (before.dice.len() - h.used.len()) as usize,
            action_deadline_ms: time_is_up_at(before.idle_timeout_secs, now),
            status_message: after.status_message,
            ..before
        })
    }
}

/// The game is over and won by the given player, with everything else as it was.
pub open spec fn has_won_at_once(before: RoomModel, after: RoomModel, id: Uuid) -> bool {
    after == (RoomModel {
        phase: GamePhase::Finished,
        winner_id: Some(id),
        action_deadline_ms: None,
        status_message: after.status_message,
        ..before
    })
}

/// What keeping dice does.
pub proof fn what_a_keep_does(room: RoomModel, id: Uuid, indices: Seq<usize>, luck: LuckModel)
    requires
        room.answer(id, ClientMessageModel::Keep { indices }, luck).refusal is None,
        room.request_fits(id, ClientMessageModel::Keep { indices }, luck),
    ensures
        has_kept(
            room,
            room.answer(id, ClientMessageModel::Keep { indices }, luck).after,
            id,
            indices,
            luck.now,
        ),
        !held_score(room.mode, room.dice, indices)->0.auto_win ==> {
            let after = room.answer(id, ClientMessageModel::Keep { indices }, luck).after;
            after.turn_points == room.turn_points + held_score(
                room.mode,
                room.dice,
                indices,
            )->0.points
        },
{
    reveal(RoomModel::request_fits);
    reveal(RoomModel::keep_answer);
    lemma_kept(room, id, indices, luck.now);
}

proof fn lemma_kept(room: RoomModel, id: Uuid, indices: Seq<usize>, now: u64)
    requires
        room.held(indices) is Some,
    ensures
        has_kept(room, room.after_keep(id, indices, now), id, indices, now),
{
}

/// Nobody on the board keeps dice that take score and turn together over 10,000, be it to keep,
/// to roll on or to bank.
pub proof fn no_keep_goes_over_the_goal(
    room: RoomModel,
    id: Uuid,
    msg: ClientMessageModel,
    indices: Seq<usize>,
    luck: LuckModel,
)
    requires
        room.answer(id, msg, luck).refusal is None,
        room.request_fits(id, msg, luck),
        ({
            ||| msg == ClientMessageModel::Keep { indices }
            ||| msg == ClientMessageModel::Roll { indices } && room.awaiting_keep
            ||| msg == ClientMessageModel::Bank { indices } && room.awaiting_keep
        }),
        !held_score(room.mode, room.dice, indices)->0.auto_win,
        room.players[room.turn_index as int].on_board,
    ensures
        room.players[room.turn_index as int].score + room.turn_points + held_score(
            room.mode,
            room.dice,
            indices,
        )->0.points <= 10_000,
{
    match msg {
        ClientMessageModel::Keep { .. } => {
            when_dice_are_kept(room, id, indices, luck);
        },
        ClientMessageModel::Roll { .. } => {
            when_dice_are_rolled(room, id, indices, luck);
        },
        _ => {
            reveal(RoomModel::request_fits);
            reveal(RoomModel::bank_answer);
        },
    }
}

/// Dice are marked by the player whose turn it is, after a roll, and only dice that lie there.
pub proof fn when_dice_are_marked(room: RoomModel, id: Uuid, indices: Seq<usize>, luck: LuckModel)
    ensures
        room.answer(id, ClientMessageModel::Select { indices }, luck).refusal is None <==> {
            &&& has_the_dice(room, id)
            &&& room.awaiting_keep
            &&& room.dice.len() > 0
            &&& !room.bust_showing
            &&& forall|k: int| 0 <= k < indices.len() ==> #[trigger] indices[k] < room.dice.len()
        },
{
    reveal(RoomModel::select_answer);
}

/// Marking dice marks, in rising order, those named that earn points in some selection of the
/// roll, and does nothing else.
pub proof fn what_marking_does(room: RoomModel, id: Uuid, indices: Seq<usize>, luck: LuckModel)
    requires
        room.answer(id, ClientMessageModel::Select { indices }, luck).refusal is None,
        room.dice.len() <= room.mode.full_roll(),
        all_faces(room.dice),
    ensures
        ({
            let after = room.answer(id, ClientMessageModel::Select { indices }, luck).after;
            &&& after == (RoomModel { selected: after.selected, ..room })
            &&& forall|a: int, b: int|
                0 <= a < b < after.selected.len() ==> after.selected[a] < after.selected[b]
            &&& forall|i: usize| #[trigger]
                after.selected.contains(i) <==> indices.contains(i) && exists|sel: Seq<usize>|
                    (#[trigger] held_score(room.mode, room.dice, sel)) matches Some(h)
                        && h.used.contains(i)
        }),
{
    reveal(RoomModel::select_answer);
    let n = room.dice.len();
    let all = Seq::new(n, |i: int| i as usize);
    let keeps = |i: usize| indices.contains(i) && keepable(room.mode, room.dice, i as int);
    let marked = room.marked(indices);
    lemma_filter_rising(all, keeps);
    assert(marked == all.filter(keeps));
    assert forall|i: usize| #[trigger] marked.contains(i) <==> indices.contains(i)
        && exists|sel: Seq<usize>|
            (#[trigger] held_score(room.mode, room.dice, sel)) matches Some(h) && h.used.contains(
                i,
            ) by {
        lemma_filter_member(all, keeps, i);
        if indices.contains(i) {
            let k = choose|k: int| 0 <= k < indices.len() && indices[k] == i;
            assert(indices[k] < n);
            keepable_dice_earn_points(room.mode, room.dice, i);
            assert(all[i as int] == i);
        }
    }
}

proof fn lemma_filter_rising(s: Seq<usize>, keeps: spec_fn(usize) -> bool)
    requires
        forall|a: int, b: int| 0 <= a < b < s.len() ==> s[a] < s[b],
    ensures
        forall|a: int, b: int|
            0 <= a < b < s.filter(keeps).len() ==> s.filter(keeps)[a] < s.filter(keeps)[b],
    decreases s.len(),
{
    reveal(Seq::filter);
    if s.len() > 0 {
        let rest = s.drop_last();
        lemma_filter_rising(rest, keeps);
        assert forall|a: int| 0 <= a < rest.filter(keeps).len() implies #[trigger] rest.filter(
            keeps,
        )[a] < s.last() by {
            assert(rest.filter(keeps).contains(rest.filter(keeps)[a]));
            lemma_filter_member(rest, keeps, rest.filter(keeps)[a]);
        }
    }
}

// ---------------------------------------------------------------------------
// Rolling
// ---------------------------------------------------------------------------

/// How many dice the next roll takes: all of them on a clear table or after a bust, and else those
/// that are not marked.
pub proof fn how_many_dice_are_rolled(room: RoomModel)
    requires
        room.dice.len() <= usize::MAX,
    ensures
        room.bust_showing || room.dice.len() == 0 ==> room.dice_to_roll() == (match room.mode {
            GameMode::Bones => 5int,
            GameMode::Farkle => 6,
        }),
        !room.bust_showing && room.dice.len() > 0 ==> room.dice_to_roll() == (if room.selected.len()
            < room.dice.len() {
            room.dice.len() - room.selected.len()
        } else {
            0
        }),
{
}

/// The dice that a granted request calls for: those left over for a steal, for a roll those that
/// the keep before it leaves, all of them where it uses every one, and none where it wins.
pub proof fn how_many_dice_a_request_takes(
    room: RoomModel,
    id: Uuid,
    indices: Seq<usize>,
    luck: LuckModel,
)
    requires
        room.dice.len() <= usize::MAX,
        !room.bust_showing || !room.awaiting_keep,
        room.winner_id is None,
    ensures
        ({
            let roll = ClientMessageModel::Roll { indices };
            let held = held_score(room.mode, room.dice, indices)->0;
            room.answer(id, roll, luck).refusal is None && room.request_fits(id, roll, luck)
                ==> room.dice_called_for(id, roll) == if !room.awaiting_keep {
                room.dice_to_roll() as int
            } else if held.auto_win {
                0
            } else if held.used.len() < room.dice.len() {
                room.dice.len() - held.used.len()
            } else {
                match room.mode {
                    GameMode::Bones => 5,
                    GameMode::Farkle => 6,
                }
            }
        }),
        room.answer(id, ClientMessageModel::Steal, luck).refusal is None ==> room.dice_called_for(
            id,
            ClientMessageModel::Steal,
        ) == room.pending_bank->0.leftover,
{
    reveal(RoomModel::dice_called_for);
    reveal(RoomModel::request_fits);
    reveal(RoomModel::roll_answer);
    reveal(RoomModel::steal_answer);
    if held_score(room.mode, room.dice, indices) is Some {
        used_dice_are_selected(room.mode, room.dice, indices);
    }
}

/// A roll is granted to the player whose turn it is: with dice to keep first where some lie there,
/// and else where there are dice left.
pub proof fn when_dice_are_rolled(room: RoomModel, id: Uuid, indices: Seq<usize>, luck: LuckModel)
    requires
        room.request_fits(id, ClientMessageModel::Roll { indices }, luck),
    ensures
        room.answer(id, ClientMessageModel::Roll { indices }, luck).refusal is None <==> {
            &&& has_the_dice(room, id)
            &&& if room.awaiting_keep {
                &&& room.dice.len() > 0
                &&& may_keep(room, room.players[room.turn_index as int], indices)
            } else {
                room.dice_to_roll() > 0
            }
        },
{
    reveal(RoomModel::request_fits);
    reveal(RoomModel::roll_answer);
}

/// The points of the dice that are kept with a roll: none where there is nothing to keep.
pub open spec fn kept_with_it(room: RoomModel, indices: Seq<usize>) -> int {
    if room.awaiting_keep {
        held_score(room.mode, room.dice, indices)->0.points as int
    } else {
        0
    }
}

/// Some selection of the dice on the table may be kept by the given player.
pub open spec fn something_may_be_kept(
    room: RoomModel,
    p: PlayerModel,
    dice: Seq<u8>,
    turn_points: int,
) -> bool {
    exists|sel: Seq<usize>|
        may_be_held(
            room.mode,
            dice,
            sel,
            p.score as int,
            turn_points,
            p.on_board,
            10_000,
        )
}

/// The dice that lie there now wait for a keep, in the turn of the given row and with the given
/// points; rows, host and settings are as before.
pub open spec fn lies_there(
    before: RoomModel,
    after: RoomModel,
    row: int,
    dice: Seq<u8>,
    turn_points: int,
    now: u64,
) -> bool {
    after == (RoomModel {
        phase: GamePhase::Playing,
        turn_index: row as usize,
        dice,
        selected: seq![],
        turn_points: turn_points as u32,
        awaiting_keep: true,
        steal_leftover: 0,
        bust_showing: false,
        pending_bank: None,
        action_deadline_ms: time_is_up_at(before.idle_timeout_secs, now),
        status_message: after.status_message,
        ..before
    })
}

/// The dice that lie there have won the game for the given player.
pub open spec fn wins_there(
    before: RoomModel,
    after: RoomModel,
    row: int,
    dice: Seq<u8>,
    turn_points: int,
    id: Uuid,
) -> bool {
    after == (RoomModel {
        phase: GamePhase::Finished,
        winner_id: Some(id),
        turn_index: row as usize,
        dice,
        selected: seq![],
        turn_points: turn_points as u32,
        awaiting_keep: true,
        steal_leftover: 0,
        bust_showing: false,
        pending_bank: None,
        action_deadline_ms: None,
        status_message: after.status_message,
        ..before
    })
}

/// The dice that lie there are a bust: the turn has passed on with nothing gained.
pub open spec fn busts_there(
    before: RoomModel,
    after: RoomModel,
    row: int,
    dice: Seq<u8>,
    now: u64,
) -> bool {
    &&& comes_next(before.players, row, after.turn_index as int)
    &&& after == (RoomModel {
        phase: GamePhase::Playing,
        turn_index: after.turn_index,
        dice,
        selected: seq![],
        turn_points: 0,
        awaiting_keep: false,
        steal_leftover: 0,
        bust_showing: true,
        pending_bank: None,
        action_deadline_ms: time_is_up_at(before.idle_timeout_secs, now),
        status_message: after.status_message,
        ..before
    })
}

/// What a roll does: it busts where nothing may be kept, wins at once on five of a kind, and else
/// leaves the dice to be kept. A roll that does not bust adds to the turn what was kept with it and
/// takes nothing from it, however many dice were rolled.
pub proof fn what_a_roll_does(room: RoomModel, id: Uuid, indices: Seq<usize>, luck: LuckModel)
    requires
        room.answer(id, ClientMessageModel::Roll { indices }, luck).refusal is None,
        room.request_fits(id, ClientMessageModel::Roll { indices }, luck),
        room.players.len() <= usize::MAX,
        room.winner_id is None,
        room.pending_bank is None,
        luck.dice.len() <= room.mode.full_roll(),
        all_faces(luck.dice),
    ensures
        ({
            let after = room.answer(id, ClientMessageModel::Roll { indices }, luck).after;
            let row = room.turn_index as int;
            let points = room.turn_points + kept_with_it(room, indices);
            if room.awaiting_keep && held_score(room.mode, room.dice, indices)->0.auto_win {
                has_won_at_once(room, after, id)
            } else if !something_may_be_kept(room, room.players[row], luck.dice, points) {
                busts_there(room, after, row, luck.dice, luck.now)
            } else if dice_score(room.mode, luck.dice) matches Some(s) && s.auto_win {
                wins_there(room, after, row, luck.dice, points, id)
            } else {
                lies_there(room, after, row, luck.dice, points, luck.now)
            }
        }),
{
    reveal(RoomModel::request_fits);
    reveal(RoomModel::roll_answer);
    let row = room.turn_index as int;
    let points = room.turn_points + kept_with_it(room, indices);
    let ready = room.before_roll(id, indices, luck.now);
    if !(room.awaiting_keep && held_score(room.mode, room.dice, indices)->0.auto_win) {
        if room.awaiting_keep {
            lemma_kept(room, id, indices, luck.now);
        }
        lemma_lands(room, ready, luck.dice, points);
        lemma_resolved(ready.with_rolled(luck.dice), id, None, luck.now);
        lemma_same_turn(ready.with_rolled(luck.dice), room);
    }
}

pub proof fn lemma_lands(room: RoomModel, ready: RoomModel, dice: Seq<u8>, points: int)
    requires
        dice.len() <= room.mode.full_roll(),
        all_faces(dice),
        room.turn_index < room.players.len(),
        ready.mode == room.mode,
        ready.players == room.players,
        ready.turn_index == room.turn_index,
        ready.turn_points == points,
    ensures
        ready.with_rolled(dice).busts() <==> !something_may_be_kept(
            room,
            room.players[room.turn_index as int],
            dice,
            points,
        ),
{
    let p = room.players[room.turn_index as int];
    something_to_keep_is_a_selection(
        room.mode,
        dice,
        p.score,
        ready.turn_points,
        p.on_board,
        10_000,
    );
    bust_means_nothing_scores(room.mode, dice);
}

pub proof fn lemma_resolved(
    rolled: RoomModel,
    id: Uuid,
    steal_from: Option<(Uuid, u32)>,
    now: u64,
)
    requires
        rolled.players.len() <= usize::MAX,
    ensures
        ({
            let after = rolled.resolved(id, steal_from, now);
            if rolled.busts() {
                exists|m: RoomModel|
                    #[trigger] turn_has_passed(m, after, true, now) && (m == rolled.with_bust(
                        steal_from,
                        false,
                    ) || m == rolled.with_bust(steal_from, true))
            } else if dice_score(rolled.mode, rolled.dice) matches Some(s) && s.auto_win {
                after == (RoomModel {
                    phase: GamePhase::Finished,
                    winner_id: Some(id),
                    action_deadline_ms: None,
                    status_message: after.status_message,
                    ..rolled
                })
            } else {
                after == (RoomModel {
                    action_deadline_ms: time_is_up_at(rolled.idle_timeout_secs, now),
                    status_message: after.status_message,
                    ..rolled
                })
            }
        }),
{
    if let Some((banker, _)) = steal_from {
        lemma_first_row(rolled.players, has_id(banker), 0);
    }
    passing_the_turn(rolled.with_bust(steal_from, false), true, now);
    passing_the_turn(rolled.with_bust(steal_from, true), true, now);
}

/// Who comes next depends on the rows and the turn alone.
pub proof fn lemma_same_turn(a: RoomModel, b: RoomModel)
    requires
        a.players == b.players,
        a.turn_index == b.turn_index,
    ensures
        a.next_row() == b.next_row(),
{
    if a.players.len() > 0 {
        lemma_same_turn_from(a, b, 1);
    }
}

proof fn lemma_same_turn_from(a: RoomModel, b: RoomModel, step: int)
    requires
        a.players == b.players,
        a.turn_index == b.turn_index,
    ensures
        a.next_row_from(step) == b.next_row_from(step),
    decreases a.players.len() + 1 - step,
{
    if step <= a.players.len() {
        lemma_same_turn_from(a, b, step + 1);
    }
}

/// A roll that is granted and does not bust leaves the turn with the points that it had, and those
/// of the dice kept with it, whatever was rolled.
pub proof fn rolls_take_no_points(room: RoomModel, id: Uuid, indices: Seq<usize>, luck: LuckModel)
    requires
        room.answer(id, ClientMessageModel::Roll { indices }, luck).refusal is None,
        room.request_fits(id, ClientMessageModel::Roll { indices }, luck),
    ensures
        ({
            let after = room.answer(id, ClientMessageModel::Roll { indices }, luck).after;
            let kept = held_score(room.mode, room.dice, indices);
            ||| after.bust_showing
            ||| room.awaiting_keep && kept->0.auto_win && after.turn_points == room.turn_points
            ||| room.awaiting_keep && after.turn_points == room.turn_points + kept->0.points
            ||| !room.awaiting_keep && after.turn_points == room.turn_points
        }),
{
    reveal(RoomModel::request_fits);
    reveal(RoomModel::roll_answer);
}

} // verus!
