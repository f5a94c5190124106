//! What banking, stealing and the end of a game do to a room, field by field and in numbers.

use crate::chance::all_faces;
use crate::ids::Uuid;
use crate::play_laws::{
    around, busts_there, comes_next, has_been_paid, has_the_dice, has_won_at_once, lemma_lands,
    lemma_next_row_fits, lemma_paid, lemma_resolved, lies_there, passing_the_turn,
    something_may_be_kept, the_turn_goes_round, time_is_up_at, turn_has_passed, wins_there,
};
use crate::protocol::{ClientMessageModel, GamePhase};
use crate::requests::LuckModel;
use crate::room_model::{PendingBank, PlayerModel, RoomModel, contends, leads};
use crate::scoring::{dice_score, held_score};
use crate::worth::only_dice_of_the_roll_score;
use vstd::prelude::*;

verus! {

/// Only one row comes next.
pub proof fn only_one_row_comes_next(players: Seq<PlayerModel>, turn: int, a: int, b: int)
    requires
        comes_next(players, turn, a),
        comes_next(players, turn, b),
    ensures
        a == b,
{
    let n = players.len() as int;
    if n > 0 {
        let none = forall|e: int|
            1 <= e <= n ==> players[#[trigger] around(turn, e, n)].forfeited;
        if !none {
            let d = choose|d: int|
                {
                    &&& 1 <= d <= n
                    &&& a == #[trigger] around(turn, d, n)
                    &&& !players[a].forfeited
                    &&& forall|e: int|
                        1 <= e < d ==> players[#[trigger] around(turn, e, n)].forfeited
                };
            let c = choose|d: int|
                {
                    &&& 1 <= d <= n
                    &&& b == #[trigger] around(turn, d, n)
                    &&& !players[b].forfeited
                    &&& forall|e: int|
                        1 <= e < d ==> players[#[trigger] around(turn, e, n)].forfeited
                };
            if d < c {
                assert(players[around(turn, d, n)].forfeited);
            }
            if c < d {
                assert(players[around(turn, c, n)].forfeited);
            }
        }
    }
}

// ---------------------------------------------------------------------------
// Banking
// ---------------------------------------------------------------------------

/// The points can be banked: something, at least the minimum for who is not yet on the board, and
/// no more than takes who is on the board to 10,000.
pub open spec fn may_bank(room: RoomModel, p: PlayerModel, points: int) -> bool {
    &&& points > 0
    &&& if p.on_board {
        p.score + points <= 10_000
    } else {
        points >= room.board_threshold
    }
}

/// The player whose turn it is may bank what the turn comes to with the dice kept last.
pub proof fn when_points_are_banked(room: RoomModel, id: Uuid, indices: Seq<usize>, luck: LuckModel)
    requires
        room.request_fits(id, ClientMessageModel::Bank { indices }, luck),
    ensures
        room.answer(id, ClientMessageModel::Bank { indices }, luck).refusal is None <==> {
            let p = room.players[room.turn_index as int];
            &&& has_the_dice(room, id)
            &&& if room.awaiting_keep {
                held_score(room.mode, room.dice, indices) matches Some(h) && (h.auto_win
                    || may_bank(room, p, room.turn_points + h.points))
            } else {
                may_bank(room, p, room.turn_points as int)
            }
        },
{
    reveal(RoomModel::request_fits);
    reveal(RoomModel::bank_answer);
}

/// The row that comes next is free to take over the given points and dice.
pub open spec fn next_may_steal(room: RoomModel, row: int, points: int, leftover: int) -> bool {
    &&& comes_next(room.players, room.turn_index as int, row)
    &&& row < room.players.len()
    &&& points > 0
    &&& leftover > 0
    &&& !room.players[row].forfeited
    &&& room.players[row].on_board
    &&& room.players[row].score + points <= 10_000
}

/// The turn's points have been banked. Who hits 10,000 wins. Who was not on the board now is, with
/// just these points. Else the next row may steal, and the points wait; or it may not, and they
/// are added to the score.
pub open spec fn has_banked(before: RoomModel, after: RoomModel, id: Uuid, now: u64) -> bool {
    let i = before.turn_index as int;
    let p = before.players[i];
    let points = before.turn_points;
    let score = if p.on_board {
        p.score + points
    } else {
        points as int
    };
    let paid = before.players.update(
        i,
        PlayerModel { score: score as u32, on_board: true, ..p },
    );
    if score == 10_000 {
        after == (RoomModel {
            players: paid,
            phase: GamePhase::Finished,
            winner_id: Some(id),
            action_deadline_ms: None,
            status_message: after.status_message,
            ..before
        })
    } else if p.on_board && exists|row: int| #[trigger]
        next_may_steal(before, row, points as int, before.steal_leftover as int) {
        after == (RoomModel {
            phase: GamePhase::StealWindow,
            pending_bank: Some(
                PendingBank { player_id: id, points, leftover: before.steal_leftover },
            ),
            action_deadline_ms: time_is_up_at(before.idle_timeout_secs, now),
            status_message: after.status_message,
            ..before
        })
    } else {
        turn_has_passed(RoomModel { players: paid, ..before }, after, false, now)
    }
}

/// Banking first keeps dice where some lie there, as a request to keep them would, and then banks.
pub proof fn what_a_bank_does(room: RoomModel, id: Uuid, indices: Seq<usize>, luck: LuckModel)
    requires
        room.answer(id, ClientMessageModel::Bank { indices }, luck).refusal is None,
        room.request_fits(id, ClientMessageModel::Bank { indices }, luck),
        room.players.len() <= usize::MAX,
        room.winner_id is None,
    ensures
        ({
            let after = room.answer(id, ClientMessageModel::Bank { indices }, luck).after;
            let keep = room.answer(id, ClientMessageModel::Keep { indices }, luck);
            if room.awaiting_keep {
                &&& keep.refusal is None
                &&& room.request_fits(id, ClientMessageModel::Keep { indices }, luck)
                &&& if held_score(room.mode, room.dice, indices)->0.auto_win {
                    has_won_at_once(room, after, id)
                } else {
                    has_banked(keep.after, after, id, luck.now)
                }
            } else {
                has_banked(room, after, id, luck.now)
            }
        }),
{
    reveal(RoomModel::request_fits);
    reveal(RoomModel::bank_answer);
    reveal(RoomModel::keep_answer);
    if room.awaiting_keep {
        lemma_keep_before_bank(room, id, indices);
        if !held_score(room.mode, room.dice, indices)->0.auto_win {
            let kept = room.after_keep(id, indices, luck.now);
            assert(kept.players == room.players && kept.turn_index == room.turn_index);
            lemma_banked(kept, id, luck.now);
        }
    } else {
        lemma_banked(room, id, luck.now);
    }
}

proof fn lemma_keep_before_bank(room: RoomModel, id: Uuid, indices: Seq<usize>)
    requires
        room.bank_refusal(id, indices) is None,
        room.bank_fits(id, indices),
        room.awaiting_keep,
    ensures
        room.keep_refusal(id, indices) is None,
        room.keep_fits(id, indices),
        !room.held(indices)->0.auto_win ==> may_bank(
            room,
            room.players[room.turn_index as int],
            room.turn_points + room.held(indices)->0.points,
        ),
{
    only_dice_of_the_roll_score(room.mode, room.dice, indices);
}

proof fn lemma_banked(room: RoomModel, id: Uuid, now: u64)
    requires
        room.turn_index < room.players.len() <= usize::MAX,
        may_bank(room, room.players[room.turn_index as int], room.turn_points as int),
    ensures
        has_banked(room, room.after_banking(id, now), id, now),
{
    let i = room.turn_index as int;
    let p = room.players[i];
    let points = room.turn_points;
    let score = if p.on_board {
        p.score + points
    } else {
        points as int
    };
    the_turn_goes_round(room);
    let next = room.next_row();
    assert forall|row: int| #[trigger]
        next_may_steal(room, row, points as int, room.steal_leftover as int) implies row
        == next by {
        only_one_row_comes_next(room.players, i, row, next);
    }
    lemma_next_row_fits(room);
    if room.next_can_steal(points, room.steal_leftover) {
        assert(next_may_steal(room, next, points as int, room.steal_leftover as int));
    }
    let paid = room.with_row(i, PlayerModel { score: score as u32, on_board: true, ..p });
    assert(!p.on_board ==> paid == room.with_row(
        i,
        PlayerModel { score: points, on_board: true, ..p },
    ));
    assert(p.on_board ==> paid == room.with_row(i, PlayerModel { score: score as u32, ..p }));
    if score != 10_000 && !(p.on_board && room.next_can_steal(points, room.steal_leftover)) {
        let after = room.after_banking(id, now);
        let told = choose|m: RoomModel|
            after == #[trigger] m.next_turn(false, now) && m == (RoomModel {
                status_message: m.status_message,
                ..paid
            });
        passing_the_turn(told, false, now);
        assert(turn_has_passed(paid, after, false, now));
    }
}

// ---------------------------------------------------------------------------
// Stealing
// ---------------------------------------------------------------------------

/// The given player is the one who comes next.
pub open spec fn is_next(room: RoomModel, row: int, id: Uuid) -> bool {
    &&& comes_next(room.players, room.turn_index as int, row)
    &&& row < room.players.len()
    &&& room.players[row].id == id
}

proof fn lemma_is_next(room: RoomModel, id: Uuid)
    ensures
        forall|row: int| #[trigger] is_next(room, row, id) ==> row == room.next_row(),
        room.next_player() matches Some(p) && p.id == id <==> is_next(room, room.next_row(), id),
{
    the_turn_goes_round(room);
    assert forall|row: int| #[trigger] is_next(room, row, id) implies row == room.next_row() by {
        only_one_row_comes_next(
            room.players,
            room.turn_index as int,
            row,
            room.next_row(),
        );
    }
}

/// The player who comes next may steal, or let the points go, while they wait; stealing takes dice
/// left over, a place on the board and room below 10,000.
pub proof fn when_points_are_stolen(room: RoomModel, id: Uuid, luck: LuckModel)
    ensures
        room.answer(id, ClientMessageModel::Steal, luck).refusal is None <==> {
            &&& room.phase == GamePhase::StealWindow
            &&& room.pending_bank matches Some(pending) && exists|row: int|
                {
                    &&& #[trigger] is_next(room, row, id)
                    &&& room.players[row].on_board
                    &&& pending.leftover > 0
                    &&& room.players[row].score + pending.points <= 10_000
                }
        },
        room.answer(id, ClientMessageModel::DeclineSteal, luck).refusal is None <==> {
            &&& room.phase == GamePhase::StealWindow
            &&& exists|row: int| #[trigger] is_next(room, row, id)
        },
{
    reveal(RoomModel::steal_answer);
    reveal(RoomModel::decline_answer);
    lemma_is_next(room, id);
}

/// Letting the points go pays them to the player who banked them and passes the turn.
pub proof fn what_declining_does(room: RoomModel, id: Uuid, luck: LuckModel)
    requires
        room.answer(id, ClientMessageModel::DeclineSteal, luck).refusal is None,
        room.request_fits(id, ClientMessageModel::DeclineSteal, luck),
        room.players.len() <= usize::MAX,
    ensures
        ({
            let after = room.answer(id, ClientMessageModel::DeclineSteal, luck).after;
            &&& turn_has_passed(
                RoomModel { players: after.players, ..room },
                after,
                false,
                luck.now,
            )
            &&& match room.pending_bank {
                Some(pending) => has_been_paid(
                    room.players,
                    after.players,
                    pending.player_id,
                    pending.points,
                ),
                None => after.players == room.players,
            }
        }),
{
    reveal(RoomModel::decline_answer);
    reveal(RoomModel::request_fits);
    lemma_settled(room);
    passing_the_turn(room.settled(), false, luck.now);
}

/// What waits has been paid out.
pub proof fn lemma_settled(room: RoomModel)
    requires
        room.pending_fits(),
    ensures
        room.settled() == (RoomModel {
            players: room.settled().players,
            pending_bank: None,
            ..room
        }),
        room.settled().players.len() == room.players.len(),
        match room.pending_bank {
            Some(pending) => has_been_paid(
                room.players,
                room.settled().players,
                pending.player_id,
                pending.points,
            ),
            None => room.settled().players == room.players,
        },
{
    if let Some(pending) = room.pending_bank {
        lemma_paid(room, pending.player_id, pending.points);
    }
}

/// A steal takes over the turn with the points and the dice left over, which are rolled. Where
/// nothing may be kept the points go to the player who banked them after all.
pub proof fn what_a_steal_does(room: RoomModel, id: Uuid, luck: LuckModel, row: int)
    requires
        room.answer(id, ClientMessageModel::Steal, luck).refusal is None,
        room.request_fits(id, ClientMessageModel::Steal, luck),
        room.players.len() <= usize::MAX,
        luck.dice.len() <= room.mode.full_roll(),
        all_faces(luck.dice),
        is_next(room, row, id),
    ensures
        ({
            let after = room.answer(id, ClientMessageModel::Steal, luck).after;
            let pending = room.pending_bank->0;
            let points = pending.points as int;
            if !something_may_be_kept(room, room.players[row], luck.dice, points) {
                &&& has_been_paid(
                    room.players,
                    after.players,
                    pending.player_id,
                    pending.points,
                )
                &&& busts_there(
                    RoomModel { players: after.players, ..room },
                    after,
                    row,
                    luck.dice,
                    luck.now,
                )
            } else if dice_score(room.mode, luck.dice) matches Some(s) && s.auto_win {
                wins_there(room, after, row, luck.dice, points, id)
            } else {
                lies_there(room, after, row, luck.dice, points, luck.now)
            }
        }),
{
    reveal(RoomModel::steal_answer);
    reveal(RoomModel::request_fits);
    lemma_is_next(room, id);
    lemma_next_row_fits(room);
    let pending = room.pending_bank->0;
    let from = Some((pending.player_id, pending.points));
    let rolled = room.with_stolen(luck.dice);
    let taken = RoomModel {
        turn_index: room.next_row() as usize,
        turn_points: pending.points,
        pending_bank: None,
        phase: GamePhase::Playing,
        ..room
    };
    lemma_lands(taken, taken, luck.dice, pending.points as int);
    lemma_resolved(rolled, id, from, luck.now);
    if rolled.busts() {
        lemma_paid(rolled, pending.player_id, pending.points);
    }
}

// ---------------------------------------------------------------------------
// The end
// ---------------------------------------------------------------------------

/// A row that can win when the host ends the game: on the board, still in, and above every other
/// such row.
pub open spec fn is_ahead(players: Seq<PlayerModel>, i: int) -> bool {
    &&& 0 <= i < players.len()
    &&& players[i].on_board
    &&& !players[i].forfeited
    &&& forall|j: int|
        0 <= j < players.len() && j != i && (#[trigger] players[j]).on_board
            && !players[j].forfeited ==> players[j].score < players[i].score
}

/// The host ends a game that runs. What waits is paid out, and the row ahead of all others wins;
/// where none is, nobody does.
pub proof fn what_ending_does(room: RoomModel, id: Uuid, luck: LuckModel)
    requires
        room.request_fits(id, ClientMessageModel::EndGame, luck),
    ensures
        ({
            let answer = room.answer(id, ClientMessageModel::EndGame, luck);
            let after = answer.after;
            &&& answer.refusal is None <==> id == room.host_id && (room.phase == GamePhase::Playing
                || room.phase == GamePhase::StealWindow)
            &&& answer.refusal is None ==> {
                &&& after == (RoomModel {
                    players: after.players,
                    phase: GamePhase::Finished,
                    pending_bank: None,
                    winner_id: after.winner_id,
                    action_deadline_ms: None,
                    status_message: after.status_message,
                    ..room
                })
                &&& match room.pending_bank {
                    Some(pending) => has_been_paid(
                        room.players,
                        after.players,
                        pending.player_id,
                        pending.points,
                    ),
                    None => after.players == room.players,
                }
                &&& match after.winner_id {
                    Some(w) => exists|i: int| #[trigger]
                        is_ahead(after.players, i) && after.players[i].id == w,
                    None => forall|i: int| !#[trigger] is_ahead(after.players, i),
                }
            }
        }),
{
    reveal(RoomModel::end_answer);
    reveal(RoomModel::request_fits);
    if room.end_refusal(id) is None {
        lemma_settled(room);
        let players = room.settled().players;
        assert forall|i: int| #[trigger] is_ahead(players, i) implies leads(players, i) by {}
        if exists|i: int| leads(players, i) {
            let i = choose|i: int| leads(players, i);
            assert(is_ahead(players, i)) by {
                assert forall|j: int|
                    0 <= j < players.len() && j != i && (#[trigger] players[j]).on_board
                        && !players[j].forfeited implies players[j].score < players[i].score by {
                    assert(contends(players[j]));
                }
            }
            assert(room.after_end().winner_id == Some(players[i].id));
        }
    }
}

/// The host may call a rematch at any time. It brings everybody back to the lobby with nothing
/// scored, nobody out and nothing on the table; seats, names, host and settings stay.
pub proof fn what_a_rematch_does(room: RoomModel, id: Uuid, luck: LuckModel)
    ensures
        ({
            let answer = room.answer(id, ClientMessageModel::Rematch, luck);
            let after = answer.after;
            &&& answer.refusal is None <==> id == room.host_id
            &&& after.players.len() == room.players.len()
            &&& forall|j: int|
                0 <= j < room.players.len() ==> (#[trigger] after.players[j]) == (PlayerModel {
                    score: 0,
                    on_board: false,
                    forfeited: false,
                    ..room.players[j]
                })
            &&& after == (RoomModel {
                players: after.players,
                phase: GamePhase::Lobby,
                turn_index: 0,
                dice: seq![],
                selected: seq![],
                turn_points: 0,
                awaiting_keep: false,
                steal_leftover: 0,
                bust_showing: false,
                pending_bank: None,
                winner_id: None,
                action_deadline_ms: None,
                status_message: after.status_message,
                ..room
            })
        }),
{
    reveal(RoomModel::rematch_answer);
}

} // verus!
