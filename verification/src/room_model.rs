//! What a room is, and what every move makes of it.
//!
//! Each move has two parts: a refusal, which says when the move is turned down and with which
//! words, and the room that an accepted move leaves behind. Dice and clock readings enter as
//! arguments.

use crate::ids::Uuid;
use crate::protocol::{
    GameMode, GamePhase, GameViewModel, IDLE_TIMEOUT_OPTIONS_SECS, PendingBankView,
    PlayerViewModel, WIN_SCORE, invitation,
};
use crate::scoring::{
    HeldModel, any_score, capped, dice_score, held_fits, held_score, keepable, some_playable,
};
use crate::text::{decimal, duration_words, grouped};
use vstd::prelude::*;

verus! {

/// The most players that fit at a table.
pub const TABLE_SEATS: usize = 8;

/// Why a player is out of the game.
#[derive(Clone, Copy, Debug, PartialEq, Eq, Structural)]
pub enum ForfeitCause {
    Manual,
    Timeout,
}

/// Points that wait for the next player to steal or decline, and the dice that go with them.
#[derive(Clone, Copy, Debug, PartialEq, Eq, Structural)]
pub struct PendingBank {
    pub player_id: Uuid,
    pub points: u32,
    pub leftover: usize,
}

/// A player, with the name as a sequence.
#[verifier::ext_equal]
pub struct PlayerModel {
    pub id: Uuid,
    pub seat_key: Uuid,
    pub name: Seq<char>,
    pub score: u32,
    pub on_board: bool,
    pub connected: bool,
    pub forfeited: bool,
}

impl PlayerModel {
    /// A row that has just been taken.
    pub open spec fn seated(id: Uuid, seat_key: Uuid, name: Seq<char>) -> PlayerModel {
        PlayerModel {
            id,
            seat_key,
            name,
            score: 0,
            on_board: false,
            connected: true,
            forfeited: false,
        }
    }
}

/// A room, with texts and lists as sequences.
#[verifier::ext_equal]
pub struct RoomModel {
    pub code: Seq<char>,
    pub host_id: Uuid,
    pub players: Seq<PlayerModel>,
    pub phase: GamePhase,
    pub mode: GameMode,
    pub board_threshold: u32,
    pub idle_timeout_secs: Option<u64>,
    pub turn_index: usize,
    pub dice: Seq<u8>,
    pub selected: Seq<usize>,
    pub turn_points: u32,
    pub awaiting_keep: bool,
    pub steal_leftover: usize,
    pub bust_showing: bool,
    pub pending_bank: Option<PendingBank>,
    pub winner_id: Option<Uuid>,
    pub status_message: Seq<char>,
    pub action_deadline_ms: Option<u64>,
    pub version: u64,
}

/// The first row from `from` on that satisfies `pred`.
pub open spec fn first_row(
    players: Seq<PlayerModel>,
    pred: spec_fn(PlayerModel) -> bool,
    from: int,
) -> Option<int>
    decreases players.len() - from,
{
    if from >= players.len() {
        None
    } else if pred(players[from]) {
        Some(from)
    } else {
        first_row(players, pred, from + 1)
    }
}

pub proof fn lemma_first_row(
    players: Seq<PlayerModel>,
    pred: spec_fn(PlayerModel) -> bool,
    from: int,
)
    requires
        0 <= from,
    ensures
        match first_row(players, pred, from) {
            Some(i) => {
                &&& from <= i < players.len()
                &&& pred(players[i])
                &&& forall|j: int| from <= j < i ==> !pred(#[trigger] players[j])
            },
            None => forall|j: int| from <= j < players.len() ==> !pred(#[trigger] players[j]),
        },
    decreases players.len() - from,
{
    if from < players.len() && !pred(players[from]) {
        lemma_first_row(players, pred, from + 1);
    }
}

pub open spec fn has_id(id: Uuid) -> spec_fn(PlayerModel) -> bool {
    |p: PlayerModel| p.id == id
}

pub open spec fn has_seat(seat_key: Uuid) -> spec_fn(PlayerModel) -> bool {
    |p: PlayerModel| p.seat_key == seat_key
}

pub open spec fn is_active() -> spec_fn(PlayerModel) -> bool {
    |p: PlayerModel| !p.forfeited
}

/// How many rows are still in the game.
pub open spec fn active_rows(players: Seq<PlayerModel>) -> nat {
    players.filter(is_active()).len()
}

/// A row that counts for the lead.
pub open spec fn contends(p: PlayerModel) -> bool {
    p.on_board && !p.forfeited
}

/// The row is ahead of every other one that counts for the lead.
pub open spec fn leads(players: Seq<PlayerModel>, i: int) -> bool {
    &&& 0 <= i < players.len()
    &&& contends(players[i])
    &&& forall|j: int|
        0 <= j < players.len() && j != i && contends(#[trigger] players[j]) ==> players[j].score
            < players[i].score
}

/// The words of a win by points.
pub open spec fn won_with(name: Seq<char>, score: u32) -> Seq<char> {
    name + " wins with "@ + grouped(score as nat) + "."@
}

impl RoomModel {
    /// A room with one player, who is its host.
    pub open spec fn opened(code: Seq<char>, host: PlayerModel) -> RoomModel {
        RoomModel {
            code,
            host_id: host.id,
            players: seq![host],
            phase: GamePhase::Lobby,
            mode: GameMode::Bones,
            board_threshold: GameMode::Bones.board_default(),
            idle_timeout_secs: None,
            turn_index: 0,
            dice: seq![],
            selected: seq![],
            turn_points: 0,
            awaiting_keep: false,
            steal_leftover: 0,
            bust_showing: false,
            pending_bank: None,
            winner_id: None,
            status_message: "Waiting for players… share the invite link."@,
            action_deadline_ms: None,
            version: 0,
        }
    }

    // -- reading -------------------------------------------------------------

    pub open spec fn row_of(self, id: Uuid) -> Option<int> {
        first_row(self.players, has_id(id), 0)
    }

    pub open spec fn row_of_seat(self, seat_key: Uuid) -> Option<int> {
        first_row(self.players, has_seat(seat_key), 0)
    }

    pub open spec fn current(self) -> Option<PlayerModel> {
        if self.turn_index < self.players.len() {
            Some(self.players[self.turn_index as int])
        } else {
            None
        }
    }

    pub open spec fn is_current(self, id: Uuid) -> bool {
        self.current() matches Some(p) && p.id == id
    }

    pub open spec fn current_name(self) -> Seq<char> {
        match self.current() {
            Some(p) => p.name,
            None => seq![],
        }
    }

    /// The row `step` seats after the current one, going round.
    pub open spec fn seat_after(self, step: int) -> int
        recommends
            self.players.len() > 0,
    {
        (self.turn_index + step) % (self.players.len() as int)
    }

    /// The first row from `step` seats after the current one that is still in the game. Where all
    /// have forfeited the turn stays.
    pub open spec fn next_row_from(self, step: int) -> int
        decreases self.players.len() + 1 - step,
    {
        if step > self.players.len() {
            self.turn_index as int
        } else if !self.players[self.seat_after(step)].forfeited {
            self.seat_after(step)
        } else {
            self.next_row_from(step + 1)
        }
    }

    /// The row whose turn comes next.
    pub open spec fn next_row(self) -> int {
        if self.players.len() == 0 {
            0
        } else {
            self.next_row_from(1)
        }
    }

    pub open spec fn next_player(self) -> Option<PlayerModel> {
        if self.next_row() < self.players.len() {
            Some(self.players[self.next_row()])
        } else {
            None
        }
    }

    /// The player whom the room waits for.
    pub open spec fn acting_id(self) -> Option<Uuid> {
        let actor = match self.phase {
            GamePhase::Playing => self.current(),
            GamePhase::StealWindow => self.next_player(),
            GamePhase::Lobby | GamePhase::Finished => None,
        };
        match actor {
            Some(p) => if p.forfeited {
                None
            } else {
                Some(p.id)
            },
            None => None,
        }
    }

    pub open spec fn in_progress(self) -> bool {
        self.phase == GamePhase::Playing || self.phase == GamePhase::StealWindow
    }

    /// The clock reading at which the player to act has waited too long.
    pub open spec fn deadline(self, now: u64) -> Option<u64> {
        match self.idle_timeout_secs {
            Some(secs) => {
                let at = now + secs * 1000;
                Some(
                    if at > u64::MAX {
                        u64::MAX
                    } else {
                        at as u64
                    },
                )
            },
            None => None,
        }
    }

    pub open spec fn turn_hint(self, on_board: bool) -> Seq<char> {
        if on_board {
            "roll when ready"@
        } else {
            "need "@ + grouped(self.board_threshold as nat) + " in one turn to get on the board"@
        }
    }

    /// The row that has the lead to itself.
    pub open spec fn leader(self) -> Option<Uuid> {
        if exists|i: int| leads(self.players, i) {
            Some(self.players[choose|i: int| leads(self.players, i)].id)
        } else {
            None
        }
    }

    /// The next player may take over the given points and dice.
    pub open spec fn next_can_steal(self, points: u32, leftover: usize) -> bool {
        &&& leftover > 0
        &&& points > 0
        &&& self.next_player() matches Some(p) && !p.forfeited && p.on_board && p.score + points
            <= WIN_SCORE
    }

    /// How many dice the next roll takes.
    pub open spec fn dice_to_roll(self) -> usize {
        if self.bust_showing || self.dice.len() == 0 {
            self.mode.full_roll()
        } else if self.selected.len() >= self.dice.len() {
            0
        } else {
            (self.dice.len() - self.selected.len()) as usize
        }
    }

    /// The current player can keep some of the dice without going over.
    pub open spec fn can_play_on(self) -> bool {
        self.current() matches Some(p) && some_playable(
            self.mode,
            self.dice,
            p.score,
            self.turn_points,
            p.on_board,
            WIN_SCORE,
        )
    }

    // -- parts of moves ------------------------------------------------------

    pub open spec fn with_row(self, i: int, p: PlayerModel) -> RoomModel {
        RoomModel { players: self.players.update(i, p), ..self }
    }

    pub open spec fn with_message(self, text: Seq<char>) -> RoomModel {
        RoomModel { status_message: text, ..self }
    }

    pub open spec fn with_deadline(self, now: u64) -> RoomModel {
        RoomModel { action_deadline_ms: self.deadline(now), ..self }
    }

    pub open spec fn finished(self, winner: Option<Uuid>) -> RoomModel {
        RoomModel {
            phase: GamePhase::Finished,
            winner_id: winner,
            action_deadline_ms: None,
            ..self
        }
    }

    /// The turn starts over with no dice and no points.
    pub open spec fn with_fresh_turn(self) -> RoomModel {
        RoomModel {
            dice: seq![],
            selected: seq![],
            turn_points: 0,
            awaiting_keep: false,
            steal_leftover: 0,
            bust_showing: false,
            ..self
        }
    }

    /// The turn passes to the next row. After a bust the dice stay on the table.
    pub open spec fn next_turn(self, keep_dice: bool, now: u64) -> RoomModel {
        let moved = RoomModel {
            pending_bank: None,
            phase: GamePhase::Playing,
            turn_index: self.next_row() as usize,
            ..self
        };
        let cleared = moved.with_fresh_turn();
        let ready = if keep_dice {
            RoomModel { dice: self.dice, bust_showing: true, ..cleared }
        } else {
            cleared
        };
        let told = match ready.current() {
            Some(p) => if keep_dice {
                ready
            } else {
                ready.with_message(p.name + "'s turn — "@ + ready.turn_hint(p.on_board))
            },
            None => ready,
        };
        told.with_deadline(now)
    }

    /// Points go to the first row with the given id.
    pub open spec fn credited(self, id: Uuid, points: u32) -> RoomModel {
        match self.row_of(id) {
            Some(i) => self.with_row(
                i,
                PlayerModel {
                    score: (self.players[i].score + points) as u32,
                    ..self.players[i]
                },
            ),
            None => self,
        }
    }

    /// Points for the first row with the given id fit its score.
    pub open spec fn credit_fits(self, id: Uuid, points: u32) -> bool {
        self.row_of(id) matches Some(i) ==> self.players[i].score + points <= u32::MAX
    }

    /// The waiting points go to the player who banked them.
    pub open spec fn settled(self) -> RoomModel {
        match self.pending_bank {
            Some(p) => RoomModel { pending_bank: None, ..self.credited(p.player_id, p.points) },
            None => self,
        }
    }

    pub open spec fn pending_fits(self) -> bool {
        self.pending_bank matches Some(p) ==> self.credit_fits(p.player_id, p.points)
    }

    /// Everything that names the connection `old_id` names `new_id` instead, rows aside.
    pub open spec fn retargeted(self, old_id: Uuid, new_id: Uuid) -> RoomModel {
        RoomModel {
            host_id: if self.host_id == old_id {
                new_id
            } else {
                self.host_id
            },
            winner_id: if self.winner_id == Some(old_id) {
                Some(new_id)
            } else {
                self.winner_id
            },
            pending_bank: match self.pending_bank {
                Some(p) => if p.player_id == old_id {
                    Some(PendingBank { player_id: new_id, ..p })
                } else {
                    Some(p)
                },
                None => None,
            },
            ..self
        }
    }

    // -- seats ---------------------------------------------------------------

    pub open spec fn after_reclaim(self, i: int, new_id: Uuid, name: Seq<char>) -> RoomModel {
        let p = self.players[i];
        self.with_row(i, PlayerModel { id: new_id, connected: true, name, ..p }).retargeted(
            p.id,
            new_id,
        ).with_message(name + " reconnected"@)
    }

    /// The connection that holds the seat.
    pub open spec fn holder(self, seat_key: Uuid) -> Option<Uuid> {
        match self.row_of_seat(seat_key) {
            Some(i) => Some(self.players[i].id),
            None => None,
        }
    }

    pub open spec fn join_refusal(self, seat_key: Uuid) -> Option<Seq<char>> {
        if self.row_of_seat(seat_key) is Some {
            None
        } else if self.phase != GamePhase::Lobby {
            Some("Game already in progress"@)
        } else if self.players.len() >= TABLE_SEATS {
            Some("Game is full"@)
        } else {
            None
        }
    }

    /// The connection takes the seat that it names, or a new one.
    pub open spec fn after_join(self, id: Uuid, name: Seq<char>, seat_key: Uuid) -> RoomModel {
        match self.row_of_seat(seat_key) {
            Some(i) => self.after_reclaim(i, id, name),
            None => RoomModel {
                players: self.players.push(PlayerModel::seated(id, seat_key, name)),
                status_message: name + " joined — "@ + decimal(self.players.len() + 1)
                    + " player(s)."@,
                ..self
            },
        }
    }

    /// The connection holds a row that counts as connected.
    pub open spec fn is_present(self, id: Uuid) -> bool {
        self.row_of(id) matches Some(i) && self.players[i].connected
    }

    pub open spec fn after_disconnect(self, id: Uuid) -> RoomModel {
        let i = self.row_of(id)->0;
        let p = self.players[i];
        self.with_row(i, PlayerModel { connected: false, ..p }).with_message(
            p.name + " disconnected"@,
        )
    }

    /// The row stays, but its connection gives way to `ghost`, which nobody holds.
    pub open spec fn after_detach(self, i: int, ghost: Uuid) -> RoomModel {
        let p = self.players[i];
        self.with_row(i, PlayerModel { id: ghost, connected: false, ..p }).retargeted(p.id, ghost)
    }

    pub open spec fn after_lobby_exit(self, i: int) -> RoomModel {
        let gone = self.players[i];
        let rest = self.players.remove(i);
        if rest.len() == 0 {
            RoomModel { players: rest, ..self }
        } else {
            RoomModel {
                players: rest,
                host_id: if self.host_id == gone.id {
                    rest[0].id
                } else {
                    self.host_id
                },
                status_message: gone.name + " left — "@ + decimal(rest.len()) + " player(s)."@,
                ..self
            }
        }
    }

    /// The seat leaves the room: its row goes from a lobby, and forfeits and stays once the game
    /// has started.
    pub open spec fn after_vacate(self, i: int, ghost: Uuid, now: u64) -> RoomModel {
        let p = self.players[i];
        if self.phase == GamePhase::Lobby {
            self.after_lobby_exit(i)
        } else if self.in_progress() && !p.forfeited && self.forfeit_refusal(p.id) is None {
            self.after_forfeit(p.id, ForfeitCause::Manual, now).after_detach(i, ghost)
        } else {
            self.after_detach(i, ghost)
        }
    }

    /// What vacating tells: the connection that held the seat, and whether the room is now empty.
    pub open spec fn vacate_result(self, seat_key: Uuid) -> Option<(Uuid, bool)> {
        match self.row_of_seat(seat_key) {
            Some(i) => Some(
                (self.players[i].id, self.phase == GamePhase::Lobby && self.players.len() == 1),
            ),
            None => None,
        }
    }

    // -- the lobby -----------------------------------------------------------

    /// The threshold that a change of settings leads to: the default where the game changes.
    pub open spec fn settled_threshold(self, mode: GameMode, board_threshold: u32) -> u32 {
        if mode != self.mode {
            mode.board_default()
        } else {
            board_threshold
        }
    }

    pub open spec fn settings_refusal(
        self,
        mode: GameMode,
        idle_timeout_secs: Option<u64>,
        board_threshold: u32,
    ) -> Option<Seq<char>> {
        if self.phase != GamePhase::Lobby {
            Some("Settings can only be changed in the lobby"@)
        } else if idle_timeout_secs matches Some(secs) && !IDLE_TIMEOUT_OPTIONS_SECS@.contains(
            secs,
        ) {
            Some("Invalid idle forfeit time"@)
        } else if self.settled_threshold(mode, board_threshold) > WIN_SCORE {
            Some("On-the-board minimum cannot exceed "@ + grouped(WIN_SCORE as nat))
        } else {
            None
        }
    }

    pub open spec fn after_settings(
        self,
        mode: GameMode,
        idle_timeout_secs: Option<u64>,
        board_threshold: u32,
    ) -> RoomModel {
        let threshold = self.settled_threshold(mode, board_threshold);
        let idle = match idle_timeout_secs {
            Some(secs) => "idle forfeit after "@ + duration_words(secs as nat),
            None => "idle forfeit off"@,
        };
        let board = if threshold == 0 {
            "no minimum to get on the board"@
        } else {
            "need "@ + grouped(threshold as nat) + " to get on the board"@
        };
        RoomModel {
            mode,
            board_threshold: threshold,
            idle_timeout_secs,
            status_message: mode.title() + " — "@ + board + " · "@ + idle
                + ". Waiting for players…"@,
            ..self
        }
    }

    pub open spec fn start_refusal(self) -> Option<Seq<char>> {
        if self.phase != GamePhase::Lobby {
            Some("Game already started"@)
        } else if self.players.len() < 2 {
            Some("Need at least 2 players"@)
        } else {
            None
        }
    }

    pub open spec fn after_start(self, now: u64) -> RoomModel {
        let ready = RoomModel { phase: GamePhase::Playing, turn_index: 0, ..self }.with_fresh_turn(
        ).with_deadline(now);
        ready.with_message(ready.current_name() + "'s turn — "@ + ready.turn_hint(false))
    }

    // -- dice ----------------------------------------------------------------

    /// Why it is not this player's turn to use the dice, if it is not.
    pub open spec fn turn_refusal(self, id: Uuid, not_now: Seq<char>) -> Option<Seq<char>> {
        if self.phase != GamePhase::Playing {
            Some(not_now)
        } else if self.current() is None {
            Some("No current player"@)
        } else if !self.is_current(id) {
            Some("Not your turn"@)
        } else {
            None
        }
    }

    pub open spec fn select_refusal(self, id: Uuid, indices: Seq<usize>) -> Option<Seq<char>> {
        if self.turn_refusal(id, "Cannot select dice now"@) is Some {
            self.turn_refusal(id, "Cannot select dice now"@)
        } else if !self.awaiting_keep || self.dice.len() == 0 || self.bust_showing {
            Some("Nothing to select"@)
        } else if exists|k: int|
            0 <= k < indices.len() && #[trigger] indices[k] >= self.dice.len() {
            Some("Invalid die"@)
        } else {
            None
        }
    }

    /// The places that a selection marks: those named that may be kept, in rising order.
    pub open spec fn marked(self, indices: Seq<usize>) -> Seq<usize> {
        Seq::new(self.dice.len(), |i: int| i as usize).filter(
            |i: usize| indices.contains(i) && keepable(self.mode, self.dice, i as int),
        )
    }

    pub open spec fn after_select(self, indices: Seq<usize>) -> RoomModel {
        RoomModel { selected: self.marked(indices), ..self }
    }

    pub open spec fn held(self, indices: Seq<usize>) -> Option<HeldModel> {
        held_score(self.mode, self.dice, indices)
    }

    /// What the current player's score would come to with `points` more in this turn.
    pub open spec fn score_with(self, points: int) -> int {
        match self.current() {
            Some(p) => capped(p.score + points),
            None => 0,
        }
    }

    /// Why dice worth `points` cannot be kept, if so: a player on the board may not go over.
    pub open spec fn limit_refusal(self, points: u32, auto_win: bool) -> Option<Seq<char>> {
        if auto_win || points == 0 {
            None
        } else {
            let made = self.score_with(capped(self.turn_points + points));
            match self.current() {
                None => Some("No current player"@),
                Some(p) => if p.on_board && made > WIN_SCORE {
                    Some(
                        "Must hit exactly "@ + grouped(WIN_SCORE as nat)
                            + ". That keep would make "@ + grouped(made as nat) + "."@,
                    )
                } else {
                    None
                },
            }
        }
    }

    pub open spec fn keep_refusal(self, id: Uuid, indices: Seq<usize>) -> Option<Seq<char>> {
        if self.turn_refusal(id, "Cannot keep dice now"@) is Some {
            self.turn_refusal(id, "Cannot keep dice now"@)
        } else if !self.awaiting_keep || self.dice.len() == 0 {
            Some("Roll first"@)
        } else {
            match self.held(indices) {
                None => Some("Select a scoring combination first"@),
                Some(held) => self.limit_refusal(held.points, held.auto_win),
            }
        }
    }

    pub open spec fn after_keep(self, id: Uuid, indices: Seq<usize>, now: u64) -> RoomModel {
        let held = self.held(indices)->0;
        if held.auto_win {
            self.finished(Some(id)).with_message(
                self.current_name() + " rolled five of a kind and wins automatically!"@,
            )
        } else {
            let total = (self.turn_points + held.points) as u32;
            let counted = RoomModel { turn_points: total, awaiting_keep: false, ..self };
            if held.used.len() == self.dice.len() {
                RoomModel {
                    steal_leftover: 0,
                    dice: seq![],
                    selected: seq![],
                    status_message: "Hot dice! Turn total "@ + grouped(total as nat)
                        + " — roll all "@ + decimal(self.mode.full_roll() as nat)
                        + " again or bank"@,
                    ..counted
                }.with_deadline(now)
            } else {
                RoomModel {
                    steal_leftover: (self.dice.len() - held.used.len()) as usize,
                    selected: held.used,
                    status_message: "Kept for "@ + grouped(held.points as nat)
                        + " — turn total "@ + grouped(total as nat)
                        + ". Roll remaining or bank."@,
                    ..counted
                }.with_deadline(now)
            }
        }
    }

    /// A keep that comes to counting has points that fit their machine type, and an accepted one
    /// leaves a turn total that does.
    pub open spec fn keep_fits(self, id: Uuid, indices: Seq<usize>) -> bool {
        &&& self.turn_refusal(id, "Cannot keep dice now"@) is None && self.awaiting_keep
            && self.dice.len() > 0 ==> held_fits(self.mode, self.dice, indices)
        &&& self.keep_refusal(id, indices) is None ==> self.turn_points + self.held(
            indices,
        )->0.points <= u32::MAX
    }

    /// The game goes on in this turn.
    pub open spec fn still_playing(self) -> bool {
        self.phase == GamePhase::Playing && self.winner_id is None
    }

    // -- rolling -------------------------------------------------------------

    pub open spec fn roll_refusal(self, id: Uuid, indices: Seq<usize>) -> Option<Seq<char>> {
        if self.turn_refusal(id, "Not your moment to roll"@) is Some {
            self.turn_refusal(id, "Not your moment to roll"@)
        } else if self.awaiting_keep {
            self.keep_refusal(id, indices)
        } else if self.dice_to_roll() == 0 {
            Some("No dice left to roll"@)
        } else {
            None
        }
    }

    /// The room before the dice are rolled: rolling on keeps the selection first.
    pub open spec fn before_roll(self, id: Uuid, indices: Seq<usize>, now: u64) -> RoomModel {
        if self.awaiting_keep {
            self.after_keep(id, indices, now)
        } else {
            self
        }
    }

    /// How many dice a roll takes: none where the keep before it ends the game.
    pub open spec fn roll_size(self, id: Uuid, indices: Seq<usize>, now: u64) -> usize {
        let ready = self.before_roll(id, indices, now);
        if self.awaiting_keep && !ready.still_playing() {
            0
        } else {
            ready.dice_to_roll()
        }
    }

    /// The dice lie on the table and wait for a keep.
    pub open spec fn with_rolled(self, dice: Seq<u8>) -> RoomModel {
        RoomModel {
            dice,
            selected: seq![],
            awaiting_keep: true,
            steal_leftover: 0,
            bust_showing: false,
            ..self
        }
    }

    pub open spec fn after_roll(
        self,
        id: Uuid,
        indices: Seq<usize>,
        dice: Seq<u8>,
        now: u64,
    ) -> RoomModel {
        let ready = self.before_roll(id, indices, now);
        if self.awaiting_keep && !ready.still_playing() {
            ready
        } else {
            ready.with_rolled(dice).resolved(id, None, now)
        }
    }

    /// A bust before the turn passes: points that were stolen go back to the banker.
    pub open spec fn with_bust(
        self,
        steal_from: Option<(Uuid, u32)>,
        overshoot: bool,
    ) -> RoomModel {
        let name = self.current_name();
        let over = " — nothing scores without going over "@ + grouped(WIN_SCORE as nat) + "."@;
        let after = match steal_from {
            Some((banker, points)) => self.credited(banker, points).with_message(
                if overshoot {
                    name + " busted the steal"@ + over
                } else {
                    name + " busted the steal."@
                },
            ),
            None => self.with_message(
                if overshoot {
                    name + " busted"@ + over
                } else {
                    name + " busted."@
                },
            ),
        };
        RoomModel { turn_points: 0, ..after }
    }

    /// A bust: the turn is lost and passes on, and the dice stay on the table.
    pub open spec fn busted(
        self,
        steal_from: Option<(Uuid, u32)>,
        overshoot: bool,
        now: u64,
    ) -> RoomModel {
        self.with_bust(steal_from, overshoot).next_turn(true, now)
    }

    /// The dice just rolled are a bust.
    pub open spec fn busts(self) -> bool {
        !any_score(self.mode, self.dice) || !self.can_play_on()
    }

    /// Points that go back to the banker fit that player's score.
    pub open spec fn return_fits(self, steal_from: Option<(Uuid, u32)>) -> bool {
        steal_from matches Some((banker, points)) ==> self.credit_fits(banker, points)
    }

    /// What the dice just rolled lead to: a bust, an automatic win, or a choice of dice to keep.
    pub open spec fn resolved(
        self,
        id: Uuid,
        steal_from: Option<(Uuid, u32)>,
        now: u64,
    ) -> RoomModel {
        let name = self.current_name();
        if !any_score(self.mode, self.dice) {
            self.busted(steal_from, false, now)
        } else if !self.can_play_on() {
            self.busted(steal_from, true, now)
        } else if dice_score(self.mode, self.dice) matches Some(outcome) && outcome.auto_win {
            self.finished(Some(id)).with_message(
                if steal_from is Some {
                    name + " stole and rolled five of a kind — automatic win!"@
                } else {
                    name + " rolled five of a kind and wins automatically!"@
                },
            )
        } else {
            self.with_message(
                if steal_from is Some {
                    name + " steals with "@ + grouped(self.turn_points as nat)
                        + " pending! Select scoring dice."@
                } else {
                    "Select scoring dice, then roll again or bank"@
                },
            ).with_deadline(now)
        }
    }

    // -- banking and stealing ------------------------------------------------

    /// Why the current player cannot bank `points`, if so.
    pub open spec fn points_refusal(self, points: int) -> Option<Seq<char>> {
        if points == 0 {
            Some("Nothing to bank"@)
        } else {
            match self.current() {
                None => Some("No current player"@),
                Some(p) => if !p.on_board {
                    if points < self.board_threshold {
                        Some(
                            "Need at least "@ + grouped(self.board_threshold as nat)
                                + " in one turn to get on the board"@,
                        )
                    } else {
                        None
                    }
                } else if self.score_with(points) > WIN_SCORE {
                    Some(
                        "Must hit exactly "@ + grouped(WIN_SCORE as nat)
                            + ". Banking would make "@ + grouped(self.score_with(points) as nat)
                            + "."@,
                    )
                } else {
                    None
                },
            }
        }
    }

    pub open spec fn bank_refusal(self, id: Uuid, indices: Seq<usize>) -> Option<Seq<char>> {
        if self.turn_refusal(id, "Cannot bank now"@) is Some {
            self.turn_refusal(id, "Cannot bank now"@)
        } else if self.awaiting_keep {
            match self.held(indices) {
                None => Some("Select a scoring combination first"@),
                Some(held) => if held.auto_win {
                    None
                } else {
                    self.points_refusal(capped(self.turn_points + held.points))
                },
            }
        } else {
            self.points_refusal(self.turn_points as int)
        }
    }

    /// The turn's points are banked: added to the score, or, for a player not yet on the board, the
    /// score itself. A score that hits the goal wins.
    pub open spec fn after_banking(self, id: Uuid, now: u64) -> RoomModel {
        let p = self.current()->0;
        let i = self.turn_index as int;
        let points = self.turn_points;
        let leftover = self.steal_leftover;
        let made = if p.on_board {
            p.score + points
        } else {
            points as int
        };
        if made == WIN_SCORE {
            self.with_row(i, PlayerModel { score: WIN_SCORE, on_board: true, ..p }).finished(
                Some(id),
            ).with_message(
                p.name + " hits exactly "@ + grouped(WIN_SCORE as nat) + " and wins!"@,
            )
        } else if !p.on_board {
            self.with_row(i, PlayerModel { score: points, on_board: true, ..p }).with_message(
                p.name + " is on the board with "@ + grouped(points as nat) + "!"@,
            ).next_turn(false, now)
        } else if self.next_can_steal(points, leftover) {
            RoomModel {
                pending_bank: Some(PendingBank { player_id: id, points, leftover }),
                phase: GamePhase::StealWindow,
                status_message: p.name + " banks "@ + grouped(points as nat) + " with "@ + decimal(
                    leftover as nat,
                ) + " dice left. "@ + self.next_player()->0.name + " may steal!"@,
                ..self
            }.with_deadline(now)
        } else {
            let score = (p.score + points) as u32;
            self.with_row(i, PlayerModel { score, ..p }).with_message(
                p.name + " banks "@ + grouped(points as nat) + ". Score: "@ + grouped(
                    score as nat,
                ),
            ).next_turn(false, now)
        }
    }

    pub open spec fn after_bank(self, id: Uuid, indices: Seq<usize>, now: u64) -> RoomModel {
        if self.awaiting_keep {
            let kept = self.after_keep(id, indices, now);
            if self.held(indices)->0.auto_win || !kept.still_playing() {
                kept
            } else {
                kept.after_banking(id, now)
            }
        } else {
            self.after_banking(id, now)
        }
    }

    /// A bank that keeps dice first has points that fit their machine type, and an accepted one
    /// leaves a turn total that does.
    pub open spec fn bank_fits(self, id: Uuid, indices: Seq<usize>) -> bool {
        self.turn_refusal(id, "Cannot bank now"@) is None && self.awaiting_keep ==> {
            &&& held_fits(self.mode, self.dice, indices)
            &&& self.bank_refusal(id, indices) is None ==> self.turn_points + self.held(
                indices,
            )->0.points <= u32::MAX
        }
    }

    pub open spec fn decline_refusal(self, id: Uuid) -> Option<Seq<char>> {
        if self.phase != GamePhase::StealWindow {
            Some("No steal to decline"@)
        } else {
            match self.next_player() {
                None => Some("No next player"@),
                Some(p) => if p.id != id {
                    Some("Only the next player can decline"@)
                } else {
                    None
                },
            }
        }
    }

    /// Where a decline is granted, the points fit the banker's score.
    pub open spec fn decline_fits(self, id: Uuid) -> bool {
        self.decline_refusal(id) is None ==> self.pending_fits()
    }

    pub open spec fn after_decline(self, now: u64) -> RoomModel {
        self.settled().next_turn(false, now)
    }

    pub open spec fn steal_refusal(self, id: Uuid) -> Option<Seq<char>> {
        if self.phase != GamePhase::StealWindow {
            Some("No steal available"@)
        } else {
            match (self.pending_bank, self.next_player()) {
                (None, _) => Some("No pending bank"@),
                (_, None) => Some("No next player"@),
                (Some(pending), Some(p)) => if p.id != id {
                    Some("Only the next player can steal"@)
                } else if !p.on_board {
                    Some("You must be on the board to steal"@)
                } else if pending.leftover == 0 {
                    Some("No leftover dice"@)
                } else if p.score + pending.points > WIN_SCORE {
                    Some("Stealing would go over "@ + grouped(WIN_SCORE as nat))
                } else {
                    None
                },
            }
        }
    }

    /// The thief takes over the turn, the points and the leftover dice, which are rolled.
    pub open spec fn with_stolen(self, dice: Seq<u8>) -> RoomModel {
        RoomModel {
            turn_index: self.next_row() as usize,
            turn_points: self.pending_bank->0.points,
            pending_bank: None,
            phase: GamePhase::Playing,
            ..self
        }.with_rolled(dice)
    }

    pub open spec fn after_steal(self, id: Uuid, dice: Seq<u8>, now: u64) -> RoomModel {
        let pending = self.pending_bank->0;
        self.with_stolen(dice).resolved(id, Some((pending.player_id, pending.points)), now)
    }

    /// Where the steal is granted and the dice bust, the points fit the banker's score.
    pub open spec fn steal_fits(self, id: Uuid, dice: Seq<u8>) -> bool {
        self.steal_refusal(id) is None && self.with_stolen(dice).busts() ==> self.pending_fits()
    }

    // -- the end -------------------------------------------------------------

    pub open spec fn end_refusal(self, id: Uuid) -> Option<Seq<char>> {
        if id != self.host_id {
            Some("Only the host can end the game"@)
        } else if !self.in_progress() {
            Some("Game is not in progress"@)
        } else {
            None
        }
    }

    /// Where the end is granted, the points that wait fit the banker's score.
    pub open spec fn end_fits(self, id: Uuid) -> bool {
        self.end_refusal(id) is None ==> self.pending_fits()
    }

    /// Name and score of the winner, if there is one.
    pub open spec fn victor(self) -> Option<PlayerModel> {
        match self.winner_id {
            Some(id) => match self.row_of(id) {
                Some(i) => Some(self.players[i]),
                None => None,
            },
            None => None,
        }
    }

    pub open spec fn after_end(self) -> RoomModel {
        let over = self.settled().finished(self.settled().leader());
        over.with_message(
            match over.victor() {
                Some(p) => "Host ended the game. "@ + won_with(p.name, p.score),
                None => "Host ended the game. No winner."@,
            },
        )
    }

    pub open spec fn rematch_refusal(self, id: Uuid) -> Option<Seq<char>> {
        if id != self.host_id {
            Some("Only the host can start a rematch"@)
        } else {
            None
        }
    }

    pub open spec fn after_rematch(self) -> RoomModel {
        RoomModel {
            players: self.players.map_values(
                |p: PlayerModel| PlayerModel { score: 0, on_board: false, forfeited: false, ..p },
            ),
            winner_id: None,
            pending_bank: None,
            phase: GamePhase::Lobby,
            turn_index: 0,
            action_deadline_ms: None,
            status_message: "Rematch lobby — host can start when ready"@,
            ..self
        }.with_fresh_turn()
    }

    pub open spec fn forfeit_refusal(self, id: Uuid) -> Option<Seq<char>> {
        if !self.in_progress() {
            Some("Game is not in progress"@)
        } else {
            match self.row_of(id) {
                None => Some("Not in this game"@),
                Some(i) => if self.players[i].forfeited {
                    Some("Already forfeited"@)
                } else {
                    None
                },
            }
        }
    }

    /// The words that say who is out, and why.
    pub open spec fn forfeit_reason(self, name: Seq<char>, cause: ForfeitCause) -> Seq<char> {
        match cause {
            ForfeitCause::Manual => name + " forfeited."@,
            ForfeitCause::Timeout => name + " forfeited — no play within "@ + (
            match self.idle_timeout_secs {
                Some(secs) => duration_words(secs as nat),
                None => "the time limit"@,
            }) + "."@,
        }
    }

    /// The row is out, and a host hands the room on to the first row still in.
    pub open spec fn row_out(self, i: int) -> RoomModel {
        let p = self.players[i];
        let out = self.with_row(i, PlayerModel { forfeited: true, ..p });
        RoomModel {
            host_id: match first_row(out.players, is_active(), 0) {
                Some(j) => if self.host_id == p.id {
                    out.players[j].id
                } else {
                    self.host_id
                },
                None => self.host_id,
            },
            ..out
        }
    }

    /// At most one row is left: what is pending is paid out, and the row wins.
    pub open spec fn ended_by_forfeit(self, reason: Seq<char>) -> RoomModel {
        let paid = self.settled();
        let over = paid.finished(
            match first_row(paid.players, is_active(), 0) {
                Some(j) => Some(paid.players[j].id),
                None => None,
            },
        );
        over.with_message(
            match over.victor() {
                Some(p) => reason + " "@ + won_with(p.name, p.score),
                None => reason + " No winner."@,
            },
        )
    }

    /// The turn passes on, and the reason stands before the message.
    pub open spec fn turn_passed_after(self, reason: Seq<char>, now: u64) -> RoomModel {
        let moved = self.next_turn(false, now);
        moved.with_message(reason + " "@ + moved.status_message)
    }

    pub open spec fn after_forfeit(self, id: Uuid, cause: ForfeitCause, now: u64) -> RoomModel {
        let i = self.row_of(id)->0;
        let out = self.row_out(i);
        let reason = self.forfeit_reason(self.players[i].name, cause);
        if active_rows(out.players) <= 1 {
            out.ended_by_forfeit(reason)
        } else if self.phase == GamePhase::StealWindow && self.acting_id() == Some(id) {
            out.settled().turn_passed_after(reason, now)
        } else if self.is_current(id) {
            RoomModel { pending_bank: None, ..out }.turn_passed_after(reason, now)
        } else {
            out.with_message(reason)
        }
    }

    /// The forfeit pays out what waits: the game ends with it, or it declines a steal.
    pub open spec fn forfeit_settles(self, id: Uuid) -> bool {
        ||| active_rows(self.row_out(self.row_of(id)->0).players) <= 1
        ||| self.phase == GamePhase::StealWindow && self.acting_id() == Some(id)
    }

    /// Where the forfeit pays out what waits, the points fit the banker's score.
    pub open spec fn forfeit_fits(self, id: Uuid) -> bool {
        self.forfeit_refusal(id) is None && self.forfeit_settles(id) ==> self.pending_fits()
    }

    /// Where giving up the seat forfeits, the forfeit fits.
    pub open spec fn vacate_fits(self, seat_key: Uuid) -> bool {
        self.row_of_seat(seat_key) matches Some(i) ==> (self.in_progress()
            && !self.players[i].forfeited ==> self.forfeit_fits(self.players[i].id))
    }

    /// Where the player to act is put out, the forfeit fits.
    pub open spec fn timeout_fits(self, now: u64) -> bool {
        self.overdue(now) ==> self.forfeit_fits(self.acting_id()->0)
    }

    /// The player to act has waited too long.
    pub open spec fn overdue(self, now: u64) -> bool {
        self.in_progress() && (self.action_deadline_ms matches Some(deadline) && now >= deadline)
            && self.acting_id() is Some
    }

    pub open spec fn after_timeout(self, now: u64) -> RoomModel {
        self.after_forfeit(self.acting_id()->0, ForfeitCause::Timeout, now)
    }

    /// The player to act has waited too long and can be put out.
    pub open spec fn times_out(self, now: u64) -> bool {
        self.overdue(now) && self.forfeit_refusal(self.acting_id()->0) is None
    }

    // -- what a player sees --------------------------------------------------

    pub open spec fn steal_offered(self, you: Uuid) -> bool {
        &&& self.phase == GamePhase::StealWindow
        &&& self.pending_bank matches Some(p) && self.next_can_steal(p.points, p.leftover)
        &&& self.next_player() matches Some(p) && p.id == you
    }

    pub open spec fn may_act(self, you: Uuid) -> bool {
        &&& !(self.row_of(you) matches Some(i) && self.players[i].forfeited)
        &&& match self.phase {
            GamePhase::Lobby => you == self.host_id && self.players.len() >= 2,
            GamePhase::Playing => self.is_current(you) && self.winner_id is None,
            GamePhase::StealWindow => self.steal_offered(you),
            GamePhase::Finished => you == self.host_id,
        }
    }

    pub open spec fn seen_by(self, you: Uuid) -> GameViewModel {
        GameViewModel {
            code: self.code,
            invite_path: invitation(self.code),
            phase: self.phase,
            mode: self.mode,
            board_threshold: self.board_threshold,
            dice_count: self.mode.full_roll(),
            idle_timeout_secs: self.idle_timeout_secs,
            players: self.players.map_values(
                |p: PlayerModel|
                    PlayerViewModel {
                        id: p.id,
                        name: p.name,
                        score: p.score,
                        on_board: p.on_board,
                        connected: p.connected,
                        forfeited: p.forfeited,
                    },
            ),
            current_player_id: match self.current() {
                Some(p) => Some(p.id),
                None => None,
            },
            you_are: you,
            host_id: self.host_id,
            dice: self.dice,
            selected: self.selected,
            turn_points: self.turn_points,
            awaiting_keep: self.awaiting_keep,
            bust: self.bust_showing,
            pending_bank: match self.pending_bank {
                Some(p) => Some(
                    PendingBankView {
                        player_id: p.player_id,
                        points: p.points,
                        leftover: p.leftover,
                    },
                ),
                None => None,
            },
            steal_available: self.steal_offered(you),
            you_can_act: self.may_act(you),
            message: self.status_message,
            winner_id: self.winner_id,
            action_deadline_ms: self.action_deadline_ms,
        }
    }
}

/// Putting a row out leaves the waiting points payable.
pub proof fn lemma_out_keeps_pending(room: RoomModel, i: int)
    requires
        0 <= i < room.players.len(),
        room.pending_fits(),
    ensures
        room.row_out(i).pending_fits(),
{
    if let Some(p) = room.pending_bank {
        lemma_first_row(room.players, has_id(p.player_id), 0);
        lemma_first_row(room.row_out(i).players, has_id(p.player_id), 0);
        let out = room.row_out(i).players;
        assert forall|j: int| 0 <= j < out.len() implies (#[trigger] out[j]).id
            == room.players[j].id && out[j].score == room.players[j].score by {}
        if let Some(b) = room.row_out(i).row_of(p.player_id) {
            assert(room.players[b].id == p.player_id);
            let a = room.row_of(p.player_id)->0;
            assert(out[a].id == p.player_id);
        }
    }
}

/// The same seats in the same rows, held by the same connections under the same names.
pub open spec fn same_seating(a: Seq<PlayerModel>, b: Seq<PlayerModel>) -> bool {
    &&& a.len() == b.len()
    &&& forall|i: int|
        0 <= i < a.len() ==> (#[trigger] b[i]).id == a[i].id && b[i].seat_key == a[i].seat_key
            && b[i].name == a[i].name && b[i].connected == a[i].connected
}

/// A forfeit moves nobody to another seat.
pub proof fn lemma_forfeit_keeps_seats(room: RoomModel, id: Uuid, cause: ForfeitCause, now: u64)
    requires
        room.forfeit_refusal(id) is None,
    ensures
        same_seating(room.players, room.after_forfeit(id, cause, now).players),
{
    lemma_first_row(room.players, has_id(id), 0);
    let out = room.row_out(room.row_of(id)->0);
    assert(same_seating(room.players, out.players));
    if let Some(p) = out.pending_bank {
        lemma_first_row(out.players, has_id(p.player_id), 0);
    }
    assert(same_seating(room.players, out.settled().players));
}

/// Where the seating is the same, a seat is found in the same row.
pub proof fn lemma_same_seat_row(a: RoomModel, b: RoomModel, seat_key: Uuid)
    requires
        same_seating(a.players, b.players),
    ensures
        a.row_of_seat(seat_key) == b.row_of_seat(seat_key),
{
    lemma_first_row(a.players, has_seat(seat_key), 0);
    lemma_first_row(b.players, has_seat(seat_key), 0);
    if let Some(i) = a.row_of_seat(seat_key) {
        assert(b.players[i].seat_key == seat_key);
    }
    if let Some(j) = b.row_of_seat(seat_key) {
        assert(a.players[j].seat_key == seat_key);
    }
}

} // verus!
