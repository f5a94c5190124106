//! What players are told: the words of every refusal, and the words that stand on the table after
//! every move.

use crate::bank_laws::{is_next, only_one_row_comes_next};
use crate::ids::Uuid;
use crate::play_laws::{is_the_row, lemma_next_row_fits, lemma_same_turn, the_turn_goes_round};
use crate::protocol::{ClientMessageModel, GameMode, GamePhase};
use crate::requests::LuckModel;
use crate::room_model::{ForfeitCause, RoomModel};
use crate::scoring::{any_score, held_score};
use crate::seat_laws::lemma_row_is;
use crate::text::{decimal, duration_words, grouped};
use vstd::prelude::*;

verus! {

/// The words that a request is refused with, if it is.
pub open spec fn refusal_of(
    room: RoomModel,
    id: Uuid,
    msg: ClientMessageModel,
    luck: LuckModel,
) -> Option<Seq<char>> {
    room.answer(id, msg, luck).refusal
}

/// Who is not the host is told that the host decides, before anything else is looked at.
pub proof fn words_to_others_than_the_host(
    room: RoomModel,
    id: Uuid,
    msg: ClientMessageModel,
    luck: LuckModel,
)
    requires
        id != room.host_id,
    ensures
        msg is UpdateSettings ==> refusal_of(room, id, msg, luck) == Some(
            "Only the host can change settings"@,
        ),
        msg is StartGame ==> refusal_of(room, id, msg, luck) == Some("Only the host can start"@),
        msg is EndGame ==> refusal_of(room, id, msg, luck) == Some(
            "Only the host can end the game"@,
        ),
        msg is Rematch ==> refusal_of(room, id, msg, luck) == Some(
            "Only the host can start a rematch"@,
        ),
{
    reveal(RoomModel::settings_answer);
    reveal(RoomModel::start_answer);
    reveal(RoomModel::end_answer);
    reveal(RoomModel::rematch_answer);
}

/// What the host is told who asks at the wrong time, or for settings that are not on offer.
pub proof fn words_to_the_host(room: RoomModel, msg: ClientMessageModel, luck: LuckModel)
    ensures
        ({
            let words = refusal_of(room, room.host_id, msg, luck);
            &&& msg is UpdateSettings && room.phase != GamePhase::Lobby ==> words == Some(
                "Settings can only be changed in the lobby"@,
            )
            &&& msg is UpdateSettings && room.phase == GamePhase::Lobby && words is Some ==> {
                ||| words == Some("Invalid idle forfeit time"@)
                ||| words == Some("On-the-board minimum cannot exceed "@ + grouped(10_000))
            }
            &&& msg is StartGame && room.phase != GamePhase::Lobby ==> words == Some(
                "Game already started"@,
            )
            &&& msg is StartGame && room.phase == GamePhase::Lobby && room.players.len() < 2
                ==> words == Some("Need at least 2 players"@)
            &&& msg is EndGame && (room.phase == GamePhase::Lobby || room.phase
                == GamePhase::Finished) ==> words == Some("Game is not in progress"@)
        }),
{
    reveal(RoomModel::settings_answer);
    reveal(RoomModel::start_answer);
    reveal(RoomModel::end_answer);
}

/// What is said to who uses the dice while no turn is being played, or in somebody else's turn.
pub proof fn words_out_of_turn(
    room: RoomModel,
    id: Uuid,
    msg: ClientMessageModel,
    luck: LuckModel,
)
    requires
        msg is Roll || msg is Select || msg is Keep || msg is Bank,
        room.turn_index < room.players.len(),
    ensures
        room.phase != GamePhase::Playing ==> refusal_of(room, id, msg, luck) == Some(
            match msg {
                ClientMessageModel::Roll { .. } => "Not your moment to roll"@,
                ClientMessageModel::Select { .. } => "Cannot select dice now"@,
                ClientMessageModel::Keep { .. } => "Cannot keep dice now"@,
                _ => "Cannot bank now"@,
            },
        ),
        room.phase == GamePhase::Playing && room.players[room.turn_index as int].id != id
            ==> refusal_of(room, id, msg, luck) == Some("Not your turn"@),
{
    reveal(RoomModel::roll_answer);
    reveal(RoomModel::select_answer);
    reveal(RoomModel::keep_answer);
    reveal(RoomModel::bank_answer);
}

/// It is the player's own turn.
pub open spec fn in_turn(room: RoomModel, id: Uuid) -> bool {
    &&& room.phase == GamePhase::Playing
    &&& room.turn_index < room.players.len()
    &&& room.players[room.turn_index as int].id == id
}

/// What is said in a player's own turn to dice that cannot be marked or kept.
pub proof fn words_about_dice(room: RoomModel, id: Uuid, indices: Seq<usize>, luck: LuckModel)
    requires
        in_turn(room, id),
    ensures
        ({
            let select = refusal_of(room, id, ClientMessageModel::Select { indices }, luck);
            let ready = room.awaiting_keep && room.dice.len() > 0;
            &&& !ready || room.bust_showing ==> select == Some("Nothing to select"@)
            &&& ready && !room.bust_showing && select is Some ==> select == Some("Invalid die"@)
        }),
        ({
            let keep = refusal_of(room, id, ClientMessageModel::Keep { indices }, luck);
            let ready = room.awaiting_keep && room.dice.len() > 0;
            let held = held_score(room.mode, room.dice, indices);
            let made = room.players[room.turn_index as int].score + room.turn_points
                + held->0.points;
            &&& !ready ==> keep == Some("Roll first"@)
            &&& ready && held is None ==> keep == Some("Select a scoring combination first"@)
            &&& ready && held is Some && keep is Some && made <= 0xffff_ffff ==> keep == Some(
                "Must hit exactly "@ + grouped(10_000) + ". That keep would make "@ + grouped(
                    made as nat,
                ) + "."@,
            )
        }),
        room.awaiting_keep ==> refusal_of(room, id, ClientMessageModel::Roll { indices }, luck)
            == refusal_of(room, id, ClientMessageModel::Keep { indices }, luck),
        ({
            let roll = refusal_of(room, id, ClientMessageModel::Roll { indices }, luck);
            !room.awaiting_keep && roll is Some ==> roll == Some("No dice left to roll"@)
        }),
{
    reveal(RoomModel::select_answer);
    reveal(RoomModel::keep_answer);
    reveal(RoomModel::roll_answer);
}

/// What is said in a player's own turn to points that cannot be banked.
pub proof fn words_about_banking(room: RoomModel, id: Uuid, indices: Seq<usize>, luck: LuckModel)
    requires
        in_turn(room, id),
    ensures
        ({
            let bank = refusal_of(room, id, ClientMessageModel::Bank { indices }, luck);
            let held = held_score(room.mode, room.dice, indices);
            let p = room.players[room.turn_index as int];
            let points = room.turn_points + if room.awaiting_keep {
                held->0.points as int
            } else {
                0
            };
            if room.awaiting_keep && held is None {
                bank == Some("Select a scoring combination first"@)
            } else if room.awaiting_keep && held->0.auto_win {
                bank is None
            } else if points == 0 {
                bank == Some("Nothing to bank"@)
            } else if !p.on_board {
                bank is Some ==> bank == Some(
                    "Need at least "@ + grouped(room.board_threshold as nat)
                        + " in one turn to get on the board"@,
                )
            } else {
                bank is Some && p.score + points <= 0xffff_ffff ==> bank == Some(
                    "Must hit exactly "@ + grouped(10_000) + ". Banking would make "@ + grouped(
                        (p.score + points) as nat,
                    ) + "."@,
                )
            }
        }),
{
    reveal(RoomModel::bank_answer);
}

/// What is said to who cannot steal or decline.
pub proof fn words_about_stealing(room: RoomModel, id: Uuid, luck: LuckModel, row: int)
    requires
        room.phase == GamePhase::StealWindow ==> row < room.players.len() && is_next(
            room,
            row,
            room.players[row].id,
        ),
    ensures
        ({
            let steal = refusal_of(room, id, ClientMessageModel::Steal, luck);
            let decline = refusal_of(room, id, ClientMessageModel::DeclineSteal, luck);
            let next = room.players[row];
            if room.phase != GamePhase::StealWindow {
                &&& steal == Some("No steal available"@)
                &&& decline == Some("No steal to decline"@)
            } else if next.id != id {
                &&& steal == Some(
                    if room.pending_bank is None {
                        "No pending bank"@
                    } else {
                        "Only the next player can steal"@
                    },
                )
                &&& decline == Some("Only the next player can decline"@)
            } else {
                &&& decline is None
                &&& steal == match room.pending_bank {
                    None => Some("No pending bank"@),
                    Some(pending) => if !next.on_board {
                        Some("You must be on the board to steal"@)
                    } else if pending.leftover == 0 {
                        Some("No leftover dice"@)
                    } else if next.score + pending.points > 10_000 {
                        Some("Stealing would go over "@ + grouped(10_000))
                    } else {
                        None
                    },
                }
            }
        }),
{
    reveal(RoomModel::steal_answer);
    reveal(RoomModel::decline_answer);
    if room.phase == GamePhase::StealWindow {
        the_turn_goes_round(room);
        only_one_row_comes_next(room.players, room.turn_index as int, row, room.next_row());
    }
}

/// What is said to who cannot give up.
pub proof fn words_about_giving_up(room: RoomModel, id: Uuid, luck: LuckModel, i: int)
    requires
        is_the_row(room.players, i, id),
    ensures
        ({
            let words = refusal_of(room, id, ClientMessageModel::Forfeit, luck);
            &&& room.phase == GamePhase::Lobby || room.phase == GamePhase::Finished ==> words
                == Some("Game is not in progress"@)
            &&& (room.phase == GamePhase::Playing || room.phase == GamePhase::StealWindow)
                && room.players[i].forfeited ==> words == Some("Already forfeited"@)
        }),
{
    reveal(RoomModel::forfeit_answer);
    lemma_row_is(room, id, i);
}

// ---------------------------------------------------------------------------
// What stands on the table
// ---------------------------------------------------------------------------

/// The words on the table after a request.
pub open spec fn words_after(
    room: RoomModel,
    id: Uuid,
    msg: ClientMessageModel,
    luck: LuckModel,
) -> Seq<char> {
    room.answer(id, msg, luck).after.status_message
}

/// A keep tells its points and what the turn comes to, and five of a kind who has won.
pub proof fn words_after_a_keep(room: RoomModel, id: Uuid, indices: Seq<usize>, luck: LuckModel)
    requires
        in_turn(room, id),
        room.answer(id, ClientMessageModel::Keep { indices }, luck).refusal is None,
        room.request_fits(id, ClientMessageModel::Keep { indices }, luck),
    ensures
        ({
            let words = words_after(room, id, ClientMessageModel::Keep { indices }, luck);
            let h = held_score(room.mode, room.dice, indices)->0;
            let total = grouped((room.turn_points + h.points) as nat);
            if h.auto_win {
                words == room.players[room.turn_index as int].name
                    + " rolled five of a kind and wins automatically!"@
            } else if h.used.len() < room.dice.len() {
                words == "Kept for "@ + grouped(h.points as nat) + " — turn total "@ + total
                    + ". Roll remaining or bank."@
            } else {
                h.used.len() == room.dice.len() ==> words == "Hot dice! Turn total "@ + total
                    + " — roll all "@ + decimal(
                    if room.mode == GameMode::Bones {
                        5
                    } else {
                        6
                    },
                ) + " again or bank"@
            }
        }),
{
    reveal(RoomModel::keep_answer);
    reveal(RoomModel::request_fits);
}

/// The words of a turn that begins: whose it is, and what it takes to get on the board.
pub open spec fn turn_words(room: RoomModel, row: int) -> Seq<char> {
    let p = room.players[row];
    p.name + "'s turn — "@ + if p.on_board {
        "roll when ready"@
    } else {
        "need "@ + grouped(room.board_threshold as nat) + " in one turn to get on the board"@
    }
}

/// A start and a decline tell whose turn it is. Nobody is on the board when a game starts.
pub proof fn words_when_a_turn_begins(room: RoomModel, id: Uuid, luck: LuckModel)
    ensures
        room.players.len() > 0 && !room.players[0].on_board ==> words_after(
            room,
            id,
            ClientMessageModel::StartGame,
            luck,
        ) == turn_words(room, 0),
        ({
            let after = room.answer(id, ClientMessageModel::DeclineSteal, luck).after;
            after.turn_index < after.players.len() ==> after.status_message == turn_words(
                after,
                after.turn_index as int,
            )
        }),
{
    reveal(RoomModel::start_answer);
    reveal(RoomModel::decline_answer);
}

/// The end of a game tells the winner's score, or that there is none; a rematch, and settings, tell
/// what the lobby waits for.
pub proof fn words_when_games_end(room: RoomModel, id: Uuid, luck: LuckModel)
    ensures
        ({
            let after = room.answer(id, ClientMessageModel::EndGame, luck).after;
            match after.winner_id {
                None => after.status_message == "Host ended the game. No winner."@,
                Some(w) => forall|i: int| #[trigger]
                    is_the_row(after.players, i, w) ==> after.status_message
                        == "Host ended the game. "@ + (after.players[i].name + " wins with "@
                        + grouped(after.players[i].score as nat) + "."@),
            }
        }),
        words_after(room, id, ClientMessageModel::Rematch, luck)
            == "Rematch lobby — host can start when ready"@,
{
    reveal(RoomModel::end_answer);
    reveal(RoomModel::rematch_answer);
    let after = room.answer(id, ClientMessageModel::EndGame, luck).after;
    if let Some(w) = after.winner_id {
        assert forall|i: int| #[trigger] is_the_row(after.players, i, w) implies after.row_of(w)
            == Some(i) by {
            lemma_row_is(after, w, i);
        }
    }
}

/// Changed settings are told in full: the game, the minimum, and the time to act.
pub proof fn words_about_settings(
    room: RoomModel,
    id: Uuid,
    mode: GameMode,
    idle: Option<u64>,
    minimum: Option<u32>,
    luck: LuckModel,
)
    ensures
        ({
            let after = room.answer(
                id,
                ClientMessageModel::UpdateSettings {
                    mode,
                    idle_timeout_secs: idle,
                    board_threshold: minimum,
                },
                luck,
            ).after;
            let game = if mode == GameMode::Bones {
                "Bones"@
            } else {
                "Farkle"@
            };
            let board = if after.board_threshold == 0 {
                "no minimum to get on the board"@
            } else {
                "need "@ + grouped(after.board_threshold as nat) + " to get on the board"@
            };
            let time = match after.idle_timeout_secs {
                Some(secs) => "idle forfeit after "@ + duration_words(secs as nat),
                None => "idle forfeit off"@,
            };
            after.status_message == game + " — "@ + board + " · "@ + time
                + ". Waiting for players…"@
        }),
{
    reveal(RoomModel::settings_answer);
}

/// A bank tells who has won, or what can be stolen and by whom, or else whose turn it is.
pub proof fn words_after_a_bank(
    room: RoomModel,
    id: Uuid,
    indices: Seq<usize>,
    luck: LuckModel,
    row: int,
)
    requires
        in_turn(room, id),
        room.answer(id, ClientMessageModel::Bank { indices }, luck).refusal is None,
        room.request_fits(id, ClientMessageModel::Bank { indices }, luck),
        room.winner_id is None,
        room.players.len() <= usize::MAX,
    ensures
        ({
            let after = room.answer(id, ClientMessageModel::Bank { indices }, luck).after;
            let words = after.status_message;
            let name = room.players[room.turn_index as int].name;
            &&& after.phase == GamePhase::Finished ==> words == if room.awaiting_keep && held_score(
                room.mode,
                room.dice,
                indices,
            )->0.auto_win {
                name + " rolled five of a kind and wins automatically!"@
            } else {
                name + " hits exactly "@ + grouped(10_000) + " and wins!"@
            }
            &&& after.phase == GamePhase::StealWindow && is_next(room, row, room.players[row].id)
                ==> words == name + " banks "@ + grouped(after.pending_bank->0.points as nat)
                + " with "@ + decimal(after.pending_bank->0.leftover as nat) + " dice left. "@
                + room.players[row].name + " may steal!"@
            &&& after.phase == GamePhase::Playing && after.turn_index < after.players.len()
                ==> words == turn_words(after, after.turn_index as int)
        }),
{
    reveal(RoomModel::bank_answer);
    reveal(RoomModel::request_fits);
    let kept = if room.awaiting_keep {
        room.after_keep(id, indices, luck.now)
    } else {
        room
    };
    if !(room.awaiting_keep && held_score(room.mode, room.dice, indices)->0.auto_win) {
        the_turn_goes_round(room);
        lemma_same_turn(kept, room);
        if is_next(room, row, room.players[row].id) {
            only_one_row_comes_next(room.players, room.turn_index as int, row, room.next_row());
        }
        lemma_banking_words(kept, id, luck.now);
    }
}

proof fn lemma_banking_words(room: RoomModel, id: Uuid, now: u64)
    requires
        in_turn(room, id),
    ensures
        ({
            let after = room.after_banking(id, now);
            let words = after.status_message;
            let name = room.players[room.turn_index as int].name;
            &&& after.phase == GamePhase::Finished ==> words == name + " hits exactly "@ + grouped(
                10_000,
            ) + " and wins!"@
            &&& after.phase == GamePhase::StealWindow ==> words == name + " banks "@ + grouped(
                after.pending_bank->0.points as nat,
            ) + " with "@ + decimal(after.pending_bank->0.leftover as nat) + " dice left. "@
                + room.next_player()->0.name + " may steal!"@ && room.next_player() is Some
            &&& after.phase == GamePhase::Playing && after.turn_index < after.players.len()
                ==> words == turn_words(after, after.turn_index as int)
        }),
{
}

/// The words once dice have been rolled, in a turn and after a steal.
pub open spec fn roll_words(before: RoomModel, after: RoomModel, name: Seq<char>) -> Seq<char> {
    if after.bust_showing {
        if any_score(before.mode, after.dice) {
            name + " busted"@ + (" — nothing scores without going over "@ + grouped(10_000) + "."@)
        } else {
            name + " busted."@
        }
    } else if after.phase == GamePhase::Finished {
        name + " rolled five of a kind and wins automatically!"@
    } else {
        "Select scoring dice, then roll again or bank"@
    }
}

/// A roll tells who has busted and why, who has won, or that dice are to be selected.
pub proof fn words_after_a_roll(room: RoomModel, id: Uuid, indices: Seq<usize>, luck: LuckModel)
    requires
        in_turn(room, id),
        room.answer(id, ClientMessageModel::Roll { indices }, luck).refusal is None,
        room.winner_id is None,
        !(room.awaiting_keep && room.bust_showing),
    ensures
        ({
            let after = room.answer(id, ClientMessageModel::Roll { indices }, luck).after;
            let name = room.players[room.turn_index as int].name;
            after.status_message == roll_words(room, after, name)
        }),
{
    reveal(RoomModel::roll_answer);
}

/// A steal tells how it went, and what the thief has if it went well.
pub proof fn words_after_a_steal(room: RoomModel, id: Uuid, luck: LuckModel, row: int)
    requires
        room.answer(id, ClientMessageModel::Steal, luck).refusal is None,
        is_next(room, row, id),
        room.players.len() <= usize::MAX,
    ensures
        ({
            let after = room.answer(id, ClientMessageModel::Steal, luck).after;
            let name = room.players[row].name;
            after.status_message == if after.bust_showing {
                if any_score(room.mode, luck.dice) {
                    name + " busted the steal"@ + (" — nothing scores without going over "@
                        + grouped(10_000) + "."@)
                } else {
                    name + " busted the steal."@
                }
            } else if after.phase == GamePhase::Finished {
                name + " stole and rolled five of a kind — automatic win!"@
            } else {
                name + " steals with "@ + grouped(room.pending_bank->0.points as nat)
                    + " pending! Select scoring dice."@
            }
        }),
{
    reveal(RoomModel::steal_answer);
    the_turn_goes_round(room);
    lemma_next_row_fits(room);
    only_one_row_comes_next(room.players, room.turn_index as int, row, room.next_row());
}

/// The words once somebody is out: who and why, and then who has won or whose turn it is, where
/// that has changed.
pub open spec fn out_words(
    after: RoomModel,
    reason: Seq<char>,
    words: Seq<char>,
) -> bool {
    if after.phase == GamePhase::Finished {
        match after.winner_id {
            None => words == reason + " No winner."@,
            Some(w) => forall|j: int| #[trigger]
                is_the_row(after.players, j, w) ==> words == reason + " "@ + (
                after.players[j].name + " wins with "@ + grouped(after.players[j].score as nat)
                    + "."@),
        }
    } else if after.turn_index < after.players.len() {
        words == reason || words == reason + " "@ + turn_words(after, after.turn_index as int)
    } else {
        true
    }
}

/// Who gives up is named, and who runs out of time is, with the time there was.
pub proof fn words_when_somebody_is_out(room: RoomModel, id: Uuid, luck: LuckModel, i: int)
    requires
        is_the_row(room.players, i, id),
        room.answer(id, ClientMessageModel::Forfeit, luck).refusal is None,
    ensures
        ({
            let after = room.answer(id, ClientMessageModel::Forfeit, luck).after;
            out_words(
                after,
                room.players[i].name + " forfeited."@,
                after.status_message,
            )
        }),
        room.acting_id() == Some(id) && room.idle_timeout_secs is Some ==> {
            let after = room.after_timeout(luck.now);
            out_words(
                after,
                room.players[i].name + " forfeited — no play within "@ + duration_words(
                    room.idle_timeout_secs->0 as nat,
                ) + "."@,
                after.status_message,
            )
        },
{
    reveal(RoomModel::forfeit_answer);
    lemma_row_is(room, id, i);
    lemma_out_words(room, id, ForfeitCause::Manual, luck.now);
    lemma_out_words(room, id, ForfeitCause::Timeout, luck.now);
}

proof fn lemma_out_words(room: RoomModel, id: Uuid, cause: ForfeitCause, now: u64)
    requires
        room.forfeit_refusal(id) is None,
    ensures
        ({
            let after = room.after_forfeit(id, cause, now);
            out_words(
                after,
                room.forfeit_reason(room.players[room.row_of(id)->0].name, cause),
                after.status_message,
            )
        }),
{
    let after = room.after_forfeit(id, cause, now);
    if let Some(w) = after.winner_id {
        assert forall|j: int| #[trigger] is_the_row(after.players, j, w) implies after.row_of(w)
            == Some(j) by {
            lemma_row_is(after, w, j);
        }
    }
}

/// What is said of who comes, is lost and leaves the lobby, and to who is not let in.
pub proof fn words_about_coming_and_going(
    room: RoomModel,
    id: Uuid,
    name: Seq<char>,
    seat_key: Uuid,
    i: int,
)
    ensures
        room.row_of_seat(seat_key) is Some ==> room.after_join(id, name, seat_key).status_message
            == name + " reconnected"@,
        room.row_of_seat(seat_key) is None ==> {
            &&& room.after_join(id, name, seat_key).status_message == name + " joined — "@
                + decimal(room.players.len() + 1) + " player(s)."@
            &&& room.phase != GamePhase::Lobby ==> room.join_refusal(seat_key) == Some(
                "Game already in progress"@,
            )
            &&& room.phase == GamePhase::Lobby && room.players.len() >= 8 ==> room.join_refusal(
                seat_key,
            ) == Some("Game is full"@)
        },
        is_the_row(room.players, i, id) ==> room.after_disconnect(id).status_message
            == room.players[i].name + " disconnected"@,
        0 <= i < room.players.len() && room.players.len() > 1 ==> room.after_lobby_exit(
            i,
        ).status_message == room.players[i].name + " left — "@ + decimal(
            (room.players.len() - 1) as nat,
        ) + " player(s)."@,
{
    if is_the_row(room.players, i, id) {
        lemma_row_is(room, id, i);
    }
}

} // verus!
