//! Rooms: the players at a table and the game they play.

use crate::chance::{all_faces, roll_n};
use crate::clock::now_ms;
use crate::ids::{Uuid, is_random_layout};
use crate::protocol::{
    GameMode, GamePhase, GameView, PendingBankView, PlayerView, WIN_SCORE, invite_path,
    is_idle_option,
};
use crate::room_model::{
    PlayerModel, RoomModel, TABLE_SEATS, active_rows, contends, first_row, has_id,
    has_seat, is_active, leads, lemma_first_row, lemma_forfeit_keeps_seats,
    lemma_out_keeps_pending, lemma_same_seat_row, won_with,
};
pub use crate::room_model::{ForfeitCause, PendingBank};
use crate::scoring::{
    can_keep_die, has_any_score, has_playable_keep, keepable, score_held, wins_at_once,
};
use crate::scoring_laws::used_dice_are_selected;
use crate::text::{decimal_text, format_duration_secs, format_points};
use vstd::arithmetic::div_mod::{lemma_fundamental_div_mod, lemma_fundamental_div_mod_converse};
use vstd::prelude::*;
use vstd::string::StringExecFns;

verus! {

/// A row of the scoreboard. The seat outlives the connection that holds it.
#[derive(Clone, Debug)]
pub struct Player {
    pub id: Uuid,
    pub seat_key: Uuid,
    pub name: String,
    pub score: u32,
    pub on_board: bool,
    pub connected: bool,
    pub forfeited: bool,
}

/// A table: its players, its settings and the state of its game.
#[derive(Clone, Debug)]
pub struct Room {
    pub code: String,
    pub host_id: Uuid,
    pub players: Vec<Player>,
    pub phase: GamePhase,
    pub mode: GameMode,
    pub board_threshold: u32,
    /// `None` disables idle forfeit.
    pub idle_timeout_secs: Option<u64>,
    pub turn_index: usize,
    pub dice: Vec<u8>,
    pub selected: Vec<usize>,
    pub turn_points: u32,
    pub awaiting_keep: bool,
    pub steal_leftover: usize,
    /// The last roll scored nothing; its dice stay on the table until the next roll.
    pub bust_showing: bool,
    pub pending_bank: Option<PendingBank>,
    pub winner_id: Option<Uuid>,
    pub status_message: String,
    pub action_deadline_ms: Option<u64>,
    pub version: u64,
}

impl View for Player {
    type V = PlayerModel;

    open spec fn view(&self) -> PlayerModel {
        PlayerModel {
            id: self.id,
            seat_key: self.seat_key,
            name: self.name@,
            score: self.score,
            on_board: self.on_board,
            connected: self.connected,
            forfeited: self.forfeited,
        }
    }
}

/// The rows of a list of players.
pub open spec fn roster(players: Seq<Player>) -> Seq<PlayerModel> {
    Seq::new(players.len(), |i: int| players[i]@)
}

impl View for Room {
    type V = RoomModel;

    open spec fn view(&self) -> RoomModel {
        RoomModel {
            code: self.code@,
            host_id: self.host_id,
            players: roster(self.players@),
            phase: self.phase,
            mode: self.mode,
            board_threshold: self.board_threshold,
            idle_timeout_secs: self.idle_timeout_secs,
            turn_index: self.turn_index,
            dice: self.dice@,
            selected: self.selected@,
            turn_points: self.turn_points,
            awaiting_keep: self.awaiting_keep,
            steal_leftover: self.steal_leftover,
            bust_showing: self.bust_showing,
            pending_bank: self.pending_bank,
            winner_id: self.winner_id,
            status_message: self.status_message@,
            action_deadline_ms: self.action_deadline_ms,
            version: self.version,
        }
    }
}

/// A request was answered: it was granted and the room is `accepted`, or it was refused with the
/// words of `refusal` and the room is as it was.
pub open spec fn answered(
    res: Result<(), String>,
    before: RoomModel,
    after: RoomModel,
    refusal: Option<Seq<char>>,
    accepted: RoomModel,
) -> bool {
    match res {
        Ok(()) => refusal is None && after == accepted,
        Err(words) => refusal == Some(words@) && after == before,
    }
}

impl Player {
    /// A row that has just been taken.
    pub fn seated(id: Uuid, seat_key: Uuid, name: String) -> (res: Player)
        ensures
            res@ == PlayerModel::seated(id, seat_key, name@),
    {
        Player {
            id,
            seat_key,
            name,
            score: 0,
            on_board: false,
            connected: true,
            forfeited: false,
        }
    }

    /// A copy of the row.
    pub fn duplicate(&self) -> (res: Player)
        ensures
            res@ == self@,
    {
        Player {
            id: self.id,
            seat_key: self.seat_key,
            name: self.name.clone(),
            score: self.score,
            on_board: self.on_board,
            connected: self.connected,
            forfeited: self.forfeited,
        }
    }
}

fn holds(items: &Vec<usize>, item: usize) -> (res: bool)
    ensures
        res == items@.contains(item),
{
    let mut k: usize = 0;
    while k < items.len()
        invariant
            k <= items@.len(),
            forall|j: int| 0 <= j < k ==> #[trigger] items@[j] != item,
        decreases items@.len() - k,
    {
        if items[k] == item {
            assert(items@[k as int] == item);
            return true;
        }
        k += 1;
    }
    false
}

/// Going round a table of `n`, the seat after the last is the first.
proof fn lemma_next_seat(x: int, n: int)
    requires
        0 <= x,
        0 < n,
    ensures
        (x + 1) % n == if x % n + 1 == n {
            0
        } else {
            x % n + 1
        },
{
    lemma_fundamental_div_mod(x, n);
    let q = x / n;
    let r = x % n;
    assert(0 <= r < n) by (nonlinear_arith)
        requires
            0 < n,
            r == x % n,
    ;
    if r + 1 == n {
        assert(x + 1 == (q + 1) * n) by (nonlinear_arith)
            requires
                x == n * q + r,
                r + 1 == n,
        ;
        lemma_fundamental_div_mod_converse(x + 1, n, q + 1, 0);
    } else {
        assert(x + 1 == q * n + (r + 1)) by (nonlinear_arith)
            requires
                x == n * q + r,
        ;
        lemma_fundamental_div_mod_converse(x + 1, n, q, r + 1);
    }
}

/// The first row that is still in the game.
fn first_active(players: &Vec<Player>) -> (res: Option<usize>)
    ensures
        match res {
            Some(i) => first_row(roster(players@), is_active(), 0) == Some(i as int) && i
                < players@.len(),
            None => first_row(roster(players@), is_active(), 0) is None,
        },
{
    let mut i: usize = 0;
    while i < players.len()
        invariant
            i <= players@.len(),
            first_row(roster(players@), is_active(), 0) == first_row(
                roster(players@),
                is_active(),
                i as int,
            ),
        decreases players@.len() - i,
    {
        assert(roster(players@)[i as int] == players@[i as int]@);
        if !players[i].forfeited {
            return Some(i);
        }
        i += 1;
    }
    None
}

impl Room {
    // -- reading -------------------------------------------------------------

    /// A room with one player, who is its host.
    pub fn new(code: String, host: Player) -> (res: Room)
        ensures
            res@ == RoomModel::opened(code@, host@),
    {
        let mode = GameMode::Bones;
        let res = Room {
            code,
            host_id: host.id,
            players: vec![host],
            phase: GamePhase::Lobby,
            mode,
            board_threshold: mode.default_board_threshold(),
            idle_timeout_secs: None,
            turn_index: 0,
            dice: Vec::new(),
            selected: Vec::new(),
            turn_points: 0,
            awaiting_keep: false,
            steal_leftover: 0,
            bust_showing: false,
            pending_bank: None,
            winner_id: None,
            status_message: String::from_str("Waiting for players… share the invite link."),
            action_deadline_ms: None,
            version: 0,
        };
        assert(res@.players =~= seq![host@]);
        res
    }

    /// A copy of the room.
    pub fn duplicate(&self) -> (res: Room)
        ensures
            res@ == self@,
    {
        let mut players: Vec<Player> = Vec::new();
        let mut i: usize = 0;
        while i < self.players.len()
            invariant
                i <= self.players@.len(),
                players@.len() == i,
                forall|j: int| 0 <= j < i ==> #[trigger] players@[j]@ == self.players@[j]@,
            decreases self.players@.len() - i,
        {
            players.push(self.players[i].duplicate());
            i += 1;
        }
        let res = Room {
            code: self.code.clone(),
            host_id: self.host_id,
            players,
            phase: self.phase,
            mode: self.mode,
            board_threshold: self.board_threshold,
            idle_timeout_secs: self.idle_timeout_secs,
            turn_index: self.turn_index,
            dice: self.dice.clone(),
            selected: self.selected.clone(),
            turn_points: self.turn_points,
            awaiting_keep: self.awaiting_keep,
            steal_leftover: self.steal_leftover,
            bust_showing: self.bust_showing,
            pending_bank: self.pending_bank,
            winner_id: self.winner_id,
            status_message: self.status_message.clone(),
            action_deadline_ms: self.action_deadline_ms,
            version: self.version,
        };
        assert(res@ =~= self@);
        res
    }

    /// The number of dice of a full roll.
    pub fn dice_count(&self) -> (res: usize)
        ensures
            res == self@.mode.full_roll(),
    {
        self.mode.dice_count()
    }

    /// The first row that the given connection holds.
    pub fn player_index(&self, id: Uuid) -> (res: Option<usize>)
        ensures
            match res {
                Some(i) => self@.row_of(id) == Some(i as int) && i < self@.players.len(),
                None => self@.row_of(id) is None,
            },
    {
        let mut i: usize = 0;
        while i < self.players.len()
            invariant
                i <= self.players@.len(),
                self@.row_of(id) == first_row(self@.players, has_id(id), i as int),
            decreases self.players@.len() - i,
        {
            assert(self@.players[i as int] == self.players@[i as int]@);
            if self.players[i].id == id {
                return Some(i);
            }
            i += 1;
        }
        None
    }

    /// The first row with the given seat.
    pub fn seat_index(&self, seat_key: Uuid) -> (res: Option<usize>)
        ensures
            match res {
                Some(i) => self@.row_of_seat(seat_key) == Some(i as int) && i < self@.players.len(),
                None => self@.row_of_seat(seat_key) is None,
            },
    {
        let mut i: usize = 0;
        while i < self.players.len()
            invariant
                i <= self.players@.len(),
                self@.row_of_seat(seat_key) == first_row(
                    self@.players,
                    has_seat(seat_key),
                    i as int,
                ),
            decreases self.players@.len() - i,
        {
            assert(self@.players[i as int] == self.players@[i as int]@);
            if self.players[i].seat_key == seat_key {
                return Some(i);
            }
            i += 1;
        }
        None
    }

    /// The row whose turn it is.
    pub fn current_player(&self) -> (res: Option<&Player>)
        ensures
            match res {
                Some(p) => self@.current() == Some(p@) && self.turn_index < self.players@.len()
                    && *p == self.players@[self.turn_index as int],
                None => self@.current() is None,
            },
    {
        if self.turn_index < self.players.len() {
            Some(&self.players[self.turn_index])
        } else {
            None
        }
    }

    /// The row whose turn it is, to be changed in place.
    pub fn current_player_mut(&mut self) -> (res: Option<&mut Player>)
        ensures
            match res {
                Some(p) => {
                    &&& old(self)@.current() == Some((*p)@)
                    &&& final(self)@ == old(self)@.with_row(
                        old(self)@.turn_index as int,
                        (*final(p))@,
                    )
                },
                None => old(self)@.current() is None && *final(self) == *old(self),
            },
    {
        if self.turn_index < self.players.len() {
            let i: usize = self.turn_index;
            Some(&mut self.players[i])
        } else {
            None
        }
    }

    /// The row whose turn comes next.
    pub fn next_player_index(&self) -> (res: usize)
        ensures
            res == self@.next_row(),
    {
        let n: usize = self.players.len();
        if n == 0 {
            return 0;
        }
        let mut i: usize = self.turn_index % n;
        let mut passed: usize = 0;
        while passed < n
            invariant
                n == self.players@.len(),
                n > 0,
                passed <= n,
                i < n,
                i == self@.seat_after(passed as int),
                self@.next_row() == self@.next_row_from(passed + 1),
            decreases n - passed,
        {
            proof {
                lemma_next_seat(self.turn_index + passed, n as int);
            }
            i = if i + 1 == n {
                0
            } else {
                i + 1
            };
            assert(i == self@.seat_after(passed + 1));
            assert(self@.players[i as int] == self.players@[i as int]@);
            if !self.players[i].forfeited {
                return i;
            }
            passed += 1;
        }
        self.turn_index
    }

    /// The row whose turn comes next, if there is one.
    fn next_player(&self) -> (res: Option<usize>)
        ensures
            match res {
                Some(i) => i < self.players@.len() && i == self@.next_row() && self@.next_player()
                    == Some(self.players@[i as int]@),
                None => self@.next_player() is None,
            },
    {
        let i: usize = self.next_player_index();
        if i < self.players.len() {
            assert(self@.players[i as int] == self.players@[i as int]@);
            Some(i)
        } else {
            None
        }
    }

    pub(crate) fn active_count(&self) -> (res: usize)
        ensures
            res == active_rows(self@.players),
    {
        let mut count: usize = 0;
        let mut i: usize = 0;
        assert(self@.players.take(0) =~= Seq::<PlayerModel>::empty());
        proof {
            reveal(Seq::filter);
        }
        while i < self.players.len()
            invariant
                i <= self.players@.len(),
                count <= i,
                count == active_rows(self@.players.take(i as int)),
            decreases self.players@.len() - i,
        {
            proof {
                let rows = self@.players.take(i + 1);
                reveal(Seq::filter);
                assert(rows.drop_last() =~= self@.players.take(i as int));
                assert(rows.last() == self.players@[i as int]@);
            }
            if !self.players[i].forfeited {
                count += 1;
            }
            i += 1;
        }
        assert(self@.players.take(i as int) =~= self@.players);
        count
    }

    /// The player whom the room waits for.
    pub fn acting_player_id(&self) -> (res: Option<Uuid>)
        ensures
            res == self@.acting_id(),
    {
        let actor: Option<usize> = match self.phase {
            GamePhase::Playing => {
                if self.turn_index < self.players.len() {
                    Some(self.turn_index)
                } else {
                    None
                }
            },
            GamePhase::StealWindow => self.next_player(),
            GamePhase::Lobby | GamePhase::Finished => None,
        };
        match actor {
            Some(i) => {
                if self.players[i].forfeited {
                    None
                } else {
                    Some(self.players[i].id)
                }
            },
            None => None,
        }
    }

    fn turn_hint(&self, on_board: bool) -> (res: String)
        ensures
            res@ == self@.turn_hint(on_board),
    {
        if on_board {
            String::from_str("roll when ready")
        } else {
            let mut hint = String::from_str("need ");
            hint.append(format_points(self.board_threshold).as_str());
            hint.append(" in one turn to get on the board");
            hint
        }
    }

    fn current_name(&self) -> (res: String)
        ensures
            res@ == self@.current_name(),
    {
        match self.current_player() {
            Some(p) => p.name.clone(),
            None => String::new(),
        }
    }

    /// The next player may take over the given points and dice.
    fn next_can_steal_points(&self, points: u32, leftover: usize) -> (res: bool)
        ensures
            res == self@.next_can_steal(points, leftover),
    {
        if leftover == 0 || points == 0 {
            return false;
        }
        match self.next_player() {
            Some(i) => {
                let p = &self.players[i];
                !p.forfeited && p.on_board && p.score.saturating_add(points) <= WIN_SCORE
            },
            None => false,
        }
    }

    fn next_can_steal(&self) -> (res: bool)
        ensures
            res == (self@.pending_bank matches Some(p) && self@.next_can_steal(
                p.points,
                p.leftover,
            )),
    {
        match &self.pending_bank {
            Some(pending) => self.next_can_steal_points(pending.points, pending.leftover),
            None => false,
        }
    }

    /// How many dice the next roll takes.
    pub fn dice_to_roll(&self) -> (res: usize)
        ensures
            res == self@.dice_to_roll(),
    {
        if self.bust_showing || self.dice.len() == 0 {
            self.dice_count()
        } else {
            self.dice.len().saturating_sub(self.selected.len())
        }
    }

    /// The current player can keep some of the dice without going over.
    pub fn has_playable_keep_now(&self) -> (res: bool)
        ensures
            res == self@.can_play_on(),
    {
        match self.current_player() {
            Some(cur) => has_playable_keep(
                self.mode,
                self.dice.as_slice(),
                cur.score,
                self.turn_points,
                cur.on_board,
                WIN_SCORE,
            ),
            None => false,
        }
    }

    /// The room as the given connection sees it.
    pub fn view_for(&self, you: Uuid) -> (res: GameView)
        ensures
            res@ == self@.seen_by(you),
    {
        let you_forfeited = match self.player_index(you) {
            Some(i) => self.players[i].forfeited,
            None => false,
        };
        let you_are_next = match self.next_player() {
            Some(i) => self.players[i].id == you,
            None => false,
        };
        let steal_available = self.phase == GamePhase::StealWindow && self.next_can_steal()
            && you_are_next;
        let you_are_current = match self.current_player() {
            Some(p) => p.id == you,
            None => false,
        };
        let you_can_act = !you_forfeited && match self.phase {
            GamePhase::Lobby => you == self.host_id && self.players.len() >= 2,
            GamePhase::Playing => you_are_current && self.winner_id.is_none(),
            GamePhase::StealWindow => steal_available,
            GamePhase::Finished => you == self.host_id,
        };
        let mut players: Vec<PlayerView> = Vec::new();
        let mut i: usize = 0;
        while i < self.players.len()
            invariant
                i <= self.players@.len(),
                players@.len() == i,
                forall|j: int|
                    0 <= j < i ==> #[trigger] players@[j]@ == self@.seen_by(you).players[j],
            decreases self.players@.len() - i,
        {
            let p = &self.players[i];
            players.push(
                PlayerView {
                    id: p.id,
                    name: p.name.clone(),
                    score: p.score,
                    on_board: p.on_board,
                    connected: p.connected,
                    forfeited: p.forfeited,
                },
            );
            i += 1;
        }
        let res = GameView {
            code: self.code.clone(),
            invite_path: invite_path(self.code.as_str()),
            phase: self.phase,
            mode: self.mode,
            board_threshold: self.board_threshold,
            dice_count: self.dice_count(),
            idle_timeout_secs: self.idle_timeout_secs,
            players,
            current_player_id: match self.current_player() {
                Some(p) => Some(p.id),
                None => None,
            },
            you_are: you,
            host_id: self.host_id,
            dice: self.dice.clone(),
            selected: self.selected.clone(),
            turn_points: self.turn_points,
            awaiting_keep: self.awaiting_keep,
            bust: self.bust_showing,
            pending_bank: match &self.pending_bank {
                Some(p) => Some(
                    PendingBankView {
                        player_id: p.player_id,
                        points: p.points,
                        leftover: p.leftover,
                    },
                ),
                None => None,
            },
            steal_available,
            you_can_act,
            message: self.status_message.clone(),
            winner_id: self.winner_id,
            action_deadline_ms: self.action_deadline_ms,
        };
        assert(res@ =~= self@.seen_by(you));
        res
    }

    // -- parts of moves ------------------------------------------------------

    fn set_action_deadline(&mut self, now: u64)
        ensures
            final(self)@ == old(self)@.with_deadline(now),
    {
        self.action_deadline_ms = match self.idle_timeout_secs {
            Some(secs) => {
                let span: u64 = match secs.checked_mul(1000) {
                    Some(ms) => ms,
                    None => u64::MAX,
                };
                Some(now.saturating_add(span))
            },
            None => None,
        };
    }

    fn finish(&mut self, winner: Option<Uuid>)
        ensures
            final(self)@ == old(self)@.finished(winner),
    {
        self.winner_id = winner;
        self.phase = GamePhase::Finished;
        self.action_deadline_ms = None;
    }

    fn reset_turn_state(&mut self)
        ensures
            final(self)@ == old(self)@.with_fresh_turn(),
    {
        self.dice.clear();
        self.selected.clear();
        self.turn_points = 0;
        self.awaiting_keep = false;
        self.steal_leftover = 0;
        self.bust_showing = false;
    }

    /// Passes the turn to the next row. After a bust the dice stay on the table.
    pub fn begin_next_turn_at(&mut self, keep_dice: bool, now: u64)
        ensures
            final(self)@ == old(self)@.next_turn(keep_dice, now),
    {
        self.turn_index = self.next_player_index();
        self.pending_bank = None;
        self.phase = GamePhase::Playing;
        if keep_dice {
            self.selected.clear();
            self.turn_points = 0;
            self.awaiting_keep = false;
            self.steal_leftover = 0;
            self.bust_showing = true;
        } else {
            self.reset_turn_state();
            let mut message = self.current_name();
            let on_board = match self.current_player() {
                Some(p) => p.on_board,
                None => false,
            };
            if self.turn_index < self.players.len() {
                message.append("'s turn — ");
                message.append(self.turn_hint(on_board).as_str());
                self.status_message = message;
            }
        }
        self.set_action_deadline(now);
        assert(self@ =~= old(self)@.next_turn(keep_dice, now));
    }

    /// Passes the turn to the next row, with the time to act counted from now.
    pub fn begin_next_turn(&mut self, keep_dice: bool)
        ensures
            exists|now: u64| final(self)@ == #[trigger] old(self)@.next_turn(keep_dice, now),
    {
        let now: u64 = now_ms();
        self.begin_next_turn_at(keep_dice, now);
    }

    fn add_score(&mut self, i: usize, points: u32)
        requires
            i < old(self)@.players.len(),
            old(self)@.players[i as int].score + points <= u32::MAX,
        ensures
            final(self)@ == old(self)@.with_row(
                i as int,
                PlayerModel {
                    score: (old(self)@.players[i as int].score + points) as u32,
                    ..old(self)@.players[i as int]
                },
            ),
    {
        let ghost before = self@;
        assert(before.players[i as int] == self.players@[i as int]@);
        let score: u32 = self.players[i].score + points;
        self.players[i].score = score;
        assert(self@.players =~= before.players.update(
            i as int,
            PlayerModel { score, ..before.players[i as int] },
        ));
    }

    fn credit(&mut self, id: Uuid, points: u32)
        requires
            old(self)@.credit_fits(id, points),
        ensures
            final(self)@ == old(self)@.credited(id, points),
    {
        if let Some(i) = self.player_index(id) {
            self.add_score(i, points);
        }
    }

    fn apply_pending_bank(&mut self)
        requires
            old(self)@.pending_fits(),
        ensures
            final(self)@ == old(self)@.settled(),
    {
        if let Some(pending) = self.pending_bank {
            self.credit(pending.player_id, pending.points);
            self.pending_bank = None;
        }
    }

    fn retarget_player_id(&mut self, old_id: Uuid, new_id: Uuid)
        ensures
            final(self)@ == old(self)@.retargeted(old_id, new_id),
    {
        if self.host_id == old_id {
            self.host_id = new_id;
        }
        if let Some(winner) = self.winner_id {
            if winner == old_id {
                self.winner_id = Some(new_id);
            }
        }
        if let Some(pending) = &mut self.pending_bank {
            if pending.player_id == old_id {
                pending.player_id = new_id;
            }
        }
    }

    /// The row that has the lead to itself.
    pub fn leader_id(&self) -> (res: Option<Uuid>)
        ensures
            res == self@.leader(),
    {
        let ghost rows = self@.players;
        let mut best: Option<usize> = None;
        let mut shared = false;
        let mut i: usize = 0;
        while i < self.players.len()
            invariant
                i <= self.players@.len(),
                rows == self@.players,
                match best {
                    Some(b) => {
                        &&& b < i
                        &&& contends(rows[b as int])
                        &&& forall|j: int|
                            0 <= j < i && contends(#[trigger] rows[j]) ==> rows[j].score
                                <= rows[b as int].score
                        &&& shared ==> exists|j: int|
                            0 <= j < i && j != b && contends(#[trigger] rows[j]) && rows[j].score
                                == rows[b as int].score
                        &&& !shared ==> forall|j: int|
                            0 <= j < i && j != b && contends(#[trigger] rows[j]) ==> rows[j].score
                                < rows[b as int].score
                    },
                    None => forall|j: int| 0 <= j < i ==> !contends(#[trigger] rows[j]),
                },
            decreases self.players@.len() - i,
        {
            let p = &self.players[i];
            assert(rows[i as int] == p@);
            if p.on_board && !p.forfeited {
                match best {
                    None => {
                        best = Some(i);
                        shared = false;
                    },
                    Some(b) => {
                        assert(rows[b as int] == self.players@[b as int]@);
                        if p.score > self.players[b].score {
                            best = Some(i);
                            shared = false;
                        } else if p.score == self.players[b].score {
                            shared = true;
                        }
                    },
                }
            }
            i += 1;
        }
        match best {
            Some(b) => {
                assert(rows[b as int] == self.players@[b as int]@);
                if shared {
                    assert forall|k: int| !leads(rows, k) by {
                        let j = choose|j: int|
                            0 <= j < rows.len() && j != b && contends(#[trigger] rows[j])
                                && rows[j].score == rows[b as int].score;
                        if leads(rows, k) {
                            assert(contends(rows[j]) && contends(rows[b as int]));
                        }
                    }
                    None
                } else {
                    assert(leads(rows, b as int));
                    assert forall|k: int| leads(rows, k) implies k == b by {
                        assert(contends(rows[k]) && contends(rows[b as int]));
                    }
                    Some(self.players[b].id)
                }
            },
            None => {
                assert forall|k: int| !leads(rows, k) by {
                    if 0 <= k < rows.len() {
                        assert(!contends(rows[k]));
                    }
                }
                None
            },
        }
    }

    // -- dice ----------------------------------------------------------------

    /// Says why it is not this player's turn to use the dice, if it is not.
    pub(crate) fn check_turn(&self, player_id: Uuid, not_now: &str) -> (res: Result<(), String>)
        ensures
            match res {
                Ok(()) => self@.turn_refusal(player_id, not_now@) is None,
                Err(words) => self@.turn_refusal(player_id, not_now@) == Some(words@),
            },
    {
        if self.phase != GamePhase::Playing {
            return Err(String::from_str(not_now));
        }
        match self.current_player() {
            None => Err(String::from_str("No current player")),
            Some(p) => if p.id != player_id {
                Err(String::from_str("Not your turn"))
            } else {
                Ok(())
            },
        }
    }

    /// Marks the dice that the current player means to keep. Dice that cannot be kept are left
    /// out.
    pub fn select(&mut self, player_id: Uuid, indices: Vec<usize>) -> (res: Result<(), String>)
        ensures
            answered(
                res,
                old(self)@,
                final(self)@,
                old(self)@.select_refusal(player_id, indices@),
                old(self)@.after_select(indices@),
            ),
    {
        if let Err(words) = self.check_turn(player_id, "Cannot select dice now") {
            return Err(words);
        }
        if !self.awaiting_keep || self.dice.len() == 0 || self.bust_showing {
            return Err(String::from_str("Nothing to select"));
        }
        let mut k: usize = 0;
        while k < indices.len()
            invariant
                k <= indices@.len(),
                *self == *old(self),
                forall|j: int| 0 <= j < k ==> #[trigger] indices@[j] < self.dice@.len(),
                self@.turn_refusal(player_id, "Cannot select dice now"@) is None,
                self.awaiting_keep && self.dice@.len() > 0 && !self.bust_showing,
            decreases indices@.len() - k,
        {
            if indices[k] >= self.dice.len() {
                assert(indices@[k as int] >= self.dice@.len());
                return Err(String::from_str("Invalid die"));
            }
            k += 1;
        }
        let marked = self.marked_places(&indices);
        self.selected = marked;
        Ok(())
    }

    fn marked_places(&self, indices: &Vec<usize>) -> (res: Vec<usize>)
        ensures
            res@ == self@.marked(indices@),
    {
        let ghost wanted = |i: usize| indices@.contains(i) && keepable(
            self@.mode,
            self@.dice,
            i as int,
        );
        let ghost places = Seq::new(self@.dice.len(), |i: int| i as usize);
        let mut res: Vec<usize> = Vec::new();
        let mut i: usize = 0;
        proof {
            reveal(Seq::filter);
            assert(places.take(0) =~= Seq::<usize>::empty());
        }
        while i < self.dice.len()
            invariant
                i <= self.dice@.len(),
                places == Seq::new(self@.dice.len(), |i: int| i as usize),
                wanted == (|i: usize| indices@.contains(i) && keepable(
                    self@.mode,
                    self@.dice,
                    i as int,
                )),
                res@ == places.take(i as int).filter(wanted),
            decreases self.dice@.len() - i,
        {
            proof {
                reveal(Seq::filter);
                assert(places.take(i + 1).drop_last() =~= places.take(i as int));
                assert(places.take(i + 1).last() == i);
            }
            if holds(indices, i) && can_keep_die(self.mode, self.dice.as_slice(), i) {
                res.push(i);
            }
            i += 1;
        }
        assert(places.take(i as int) =~= places);
        res
    }

    pub(crate) fn check_keep_legal(&self, points: u32, auto_win: bool) -> (res: Result<(), String>)
        ensures
            match res {
                Ok(()) => self@.limit_refusal(points, auto_win) is None,
                Err(words) => self@.limit_refusal(points, auto_win) == Some(words@),
            },
    {
        if auto_win || points == 0 {
            return Ok(());
        }
        match self.current_player() {
            None => Err(String::from_str("No current player")),
            Some(cur) => {
                let made: u32 = cur.score.saturating_add(self.turn_points.saturating_add(points));
                if cur.on_board && made > WIN_SCORE {
                    let mut words = String::from_str("Must hit exactly ");
                    words.append(format_points(WIN_SCORE).as_str());
                    words.append(". That keep would make ");
                    words.append(format_points(made).as_str());
                    words.append(".");
                    Err(words)
                } else {
                    Ok(())
                }
            },
        }
    }

    /// Sets aside the scoring dice among the given ones.
    pub fn keep_at(&mut self, player_id: Uuid, indices: &[usize], now: u64) -> (res: Result<
        (),
        String,
    >)
        requires
            old(self)@.keep_fits(player_id, indices@),
        ensures
            answered(
                res,
                old(self)@,
                final(self)@,
                old(self)@.keep_refusal(player_id, indices@),
                old(self)@.after_keep(player_id, indices@, now),
            ),
    {
        if let Err(words) = self.check_turn(player_id, "Cannot keep dice now") {
            return Err(words);
        }
        if !self.awaiting_keep || self.dice.len() == 0 {
            return Err(String::from_str("Roll first"));
        }
        let outcome = match score_held(self.mode, self.dice.as_slice(), indices) {
            None => {
                return Err(String::from_str("Select a scoring combination first"));
            },
            Some(outcome) => outcome,
        };
        if let Err(words) = self.check_keep_legal(outcome.points, outcome.auto_win) {
            return Err(words);
        }
        proof {
            used_dice_are_selected(self.mode, self.dice@, indices@);
        }
        if outcome.auto_win {
            let mut message = self.current_name();
            message.append(" rolled five of a kind and wins automatically!");
            self.finish(Some(player_id));
            self.status_message = message;
            return Ok(());
        }
        self.turn_points = self.turn_points + outcome.points;
        self.awaiting_keep = false;
        if outcome.used.len() == self.dice.len() {
            self.steal_leftover = 0;
            self.dice.clear();
            self.selected.clear();
            let mut message = String::from_str("Hot dice! Turn total ");
            message.append(format_points(self.turn_points).as_str());
            message.append(" — roll all ");
            message.append(decimal_text(self.dice_count() as u64).as_str());
            message.append(" again or bank");
            self.status_message = message;
        } else {
            self.steal_leftover = self.dice.len() - outcome.used.len();
            let mut message = String::from_str("Kept for ");
            message.append(format_points(outcome.points).as_str());
            message.append(" — turn total ");
            message.append(format_points(self.turn_points).as_str());
            message.append(". Roll remaining or bank.");
            self.selected = outcome.used;
            self.status_message = message;
        }
        self.set_action_deadline(now);
        assert(self@ =~= old(self)@.after_keep(player_id, indices@, now));
        Ok(())
    }

    /// Sets aside the scoring dice among the given ones, with the time to act counted from now.
    pub fn keep(&mut self, player_id: Uuid, indices: Vec<usize>) -> (res: Result<(), String>)
        requires
            old(self)@.keep_fits(player_id, indices@),
        ensures
            exists|now: u64|
                answered(
                    res,
                    old(self)@,
                    final(self)@,
                    old(self)@.keep_refusal(player_id, indices@),
                    #[trigger] old(self)@.after_keep(player_id, indices@, now),
                ),
    {
        let now: u64 = now_ms();
        self.keep_at(player_id, indices.as_slice(), now)
    }

    // -- rolling -------------------------------------------------------------

    /// Keeps the given dice first where a keep is due, and says how many dice are to be rolled:
    /// none where the keep has ended the game.
    pub fn prepare_roll_at(&mut self, player_id: Uuid, indices: &[usize], now: u64) -> (res: Result<
        usize,
        String,
    >)
        requires
            old(self)@.awaiting_keep ==> old(self)@.keep_fits(player_id, indices@),
        ensures
            match res {
                Ok(n) => {
                    &&& old(self)@.roll_refusal(player_id, indices@) is None
                    &&& final(self)@ == old(self)@.before_roll(player_id, indices@, now)
                    &&& n == old(self)@.roll_size(player_id, indices@, now)
                    &&& n == 0 ==> old(self)@.awaiting_keep && !final(self)@.still_playing()
                },
                Err(words) => {
                    &&& old(self)@.roll_refusal(player_id, indices@) == Some(words@)
                    &&& final(self)@ == old(self)@
                },
            },
    {
        if let Err(words) = self.check_turn(player_id, "Not your moment to roll") {
            return Err(words);
        }
        if self.awaiting_keep {
            if let Err(words) = self.keep_at(player_id, indices, now) {
                return Err(words);
            }
            if self.phase != GamePhase::Playing || self.winner_id.is_some() {
                return Ok(0);
            }
            proof {
                used_dice_are_selected(old(self)@.mode, old(self)@.dice, indices@);
                assert(self.dice.len() == self.dice@.len());
            }
        }
        let count: usize = self.dice_to_roll();
        if count == 0 {
            return Err(String::from_str("No dice left to roll"));
        }
        Ok(count)
    }

    /// Puts the dice just rolled on the table and settles what they lead to.
    pub fn land_roll_at(&mut self, player_id: Uuid, dice: Vec<u8>, now: u64)
        ensures
            final(self)@ == old(self)@.with_rolled(dice@).resolved(player_id, None, now),
    {
        self.lay_dice(dice);
        self.resolve_rolled_dice_at(player_id, None, now);
    }

    /// Rolls the dice that are not kept, after keeping the given ones where a keep is due.
    pub fn roll(&mut self, player_id: Uuid, indices: Vec<usize>) -> (res: Result<(), String>)
        requires
            old(self)@.awaiting_keep ==> old(self)@.keep_fits(player_id, indices@),
        ensures
            exists|dice: Seq<u8>, now: u64|
                {
                    &&& all_faces(dice)
                    &&& dice.len() == old(self)@.roll_size(player_id, indices@, now)
                    &&& answered(
                        res,
                        old(self)@,
                        final(self)@,
                        old(self)@.roll_refusal(player_id, indices@),
                        #[trigger] old(self)@.after_roll(player_id, indices@, dice, now),
                    )
                },
    {
        let now: u64 = now_ms();
        match self.prepare_roll_at(player_id, indices.as_slice(), now) {
            Ok(count) => {
                let dice = roll_n(count);
                let ghost rolled = dice@;
                if count > 0 {
                    self.land_roll_at(player_id, dice, now);
                }
                assert(answered(
                    Ok::<(), String>(()),
                    old(self)@,
                    self@,
                    old(self)@.roll_refusal(player_id, indices@),
                    old(self)@.after_roll(player_id, indices@, rolled, now),
                ));
                Ok(())
            },
            Err(words) => {
                let ghost some_roll = Seq::new(
                    old(self)@.roll_size(player_id, indices@, now) as nat,
                    |i: int| 1u8,
                );
                assert(answered(
                    Err::<(), String>(words),
                    old(self)@,
                    self@,
                    old(self)@.roll_refusal(player_id, indices@),
                    old(self)@.after_roll(player_id, indices@, some_roll, now),
                ));
                Err(words)
            },
        }
    }

    fn lay_dice(&mut self, dice: Vec<u8>)
        ensures
            final(self)@ == old(self)@.with_rolled(dice@),
    {
        self.dice = dice;
        self.selected.clear();
        self.awaiting_keep = true;
        self.steal_leftover = 0;
        self.bust_showing = false;
    }

    fn bust(&mut self, steal_from: Option<(Uuid, u32)>, overshoot: bool, now: u64)
        requires
            old(self)@.return_fits(steal_from),
        ensures
            final(self)@ == old(self)@.busted(steal_from, overshoot, now),
    {
        let mut message = self.current_name();
        let mut over = String::from_str(" — nothing scores without going over ");
        over.append(format_points(WIN_SCORE).as_str());
        over.append(".");
        if let Some((banker, points)) = steal_from {
            proof {
                lemma_first_row(self@.players, has_id(banker), 0);
            }
            self.credit(banker, points);
            if overshoot {
                message.append(" busted the steal");
                message.append(over.as_str());
            } else {
                message.append(" busted the steal.");
            }
        } else if overshoot {
            message.append(" busted");
            message.append(over.as_str());
        } else {
            message.append(" busted.");
        }
        self.status_message = message;
        self.turn_points = 0;
        self.begin_next_turn_at(true, now);
    }

    /// Settles what the dice on the table lead to: a bust, an automatic win, or a choice of dice
    /// to keep. `steal_from` names the banker whose points a busted steal gives back.
    pub fn resolve_rolled_dice_at(
        &mut self,
        player_id: Uuid,
        steal_from: Option<(Uuid, u32)>,
        now: u64,
    )
        requires
            old(self)@.busts() ==> old(self)@.return_fits(steal_from),
        ensures
            final(self)@ == old(self)@.resolved(player_id, steal_from, now),
    {
        if !has_any_score(self.mode, self.dice.as_slice()) {
            self.bust(steal_from, false, now);
            return;
        }
        if !self.has_playable_keep_now() {
            self.bust(steal_from, true, now);
            return;
        }
        let mut message = self.current_name();
        if wins_at_once(self.mode, self.dice.as_slice()) {
            if steal_from.is_some() {
                message.append(" stole and rolled five of a kind — automatic win!");
            } else {
                message.append(" rolled five of a kind and wins automatically!");
            }
            self.finish(Some(player_id));
            self.status_message = message;
            return;
        }
        if steal_from.is_some() {
            message.append(" steals with ");
            message.append(format_points(self.turn_points).as_str());
            message.append(" pending! Select scoring dice.");
        } else {
            message = String::from_str("Select scoring dice, then roll again or bank");
        }
        self.status_message = message;
        self.set_action_deadline(now);
    }

    /// Settles what the dice on the table lead to, with the time to act counted from now.
    pub fn resolve_rolled_dice(&mut self, player_id: Uuid, steal_from: Option<(Uuid, u32)>) -> (res:
        Result<(), String>)
        requires
            old(self)@.busts() ==> old(self)@.return_fits(steal_from),
        ensures
            res is Ok,
            exists|now: u64|
                final(self)@ == #[trigger] old(self)@.resolved(player_id, steal_from, now),
    {
        let now: u64 = now_ms();
        self.resolve_rolled_dice_at(player_id, steal_from, now);
        Ok(())
    }

    // -- banking and stealing ------------------------------------------------

    pub(crate) fn check_bank_legal(&self, points: u32) -> (res: Result<(), String>)
        ensures
            match res {
                Ok(()) => self@.points_refusal(points as int) is None,
                Err(words) => self@.points_refusal(points as int) == Some(words@),
            },
    {
        if points == 0 {
            return Err(String::from_str("Nothing to bank"));
        }
        match self.current_player() {
            None => Err(String::from_str("No current player")),
            Some(cur) => {
                if !cur.on_board {
                    if points < self.board_threshold {
                        let mut words = String::from_str("Need at least ");
                        words.append(format_points(self.board_threshold).as_str());
                        words.append(" in one turn to get on the board");
                        return Err(words);
                    }
                    return Ok(());
                }
                let made: u32 = cur.score.saturating_add(points);
                if made > WIN_SCORE {
                    let mut words = String::from_str("Must hit exactly ");
                    words.append(format_points(WIN_SCORE).as_str());
                    words.append(". Banking would make ");
                    words.append(format_points(made).as_str());
                    words.append(".");
                    return Err(words);
                }
                Ok(())
            },
        }
    }

    fn set_score(&mut self, i: usize, score: u32)
        requires
            i < old(self)@.players.len(),
        ensures
            final(self)@ == old(self)@.with_row(
                i as int,
                PlayerModel { score, on_board: true, ..old(self)@.players[i as int] },
            ),
    {
        let ghost before = self@;
        assert(before.players[i as int] == self.players@[i as int]@);
        self.players[i].score = score;
        self.players[i].on_board = true;
        assert(self@.players =~= before.players.update(
            i as int,
            PlayerModel { score, on_board: true, ..before.players[i as int] },
        ));
    }

    /// Banks the points of the turn.
    fn bank_points(&mut self, player_id: Uuid, now: u64)
        requires
            old(self)@.points_refusal(old(self)@.turn_points as int) is None,
        ensures
            final(self)@ == old(self)@.after_banking(player_id, now),
    {
        let i: usize = self.turn_index;
        assert(self@.players[i as int] == self.players@[i as int]@);
        let on_board = self.players[i].on_board;
        let score: u32 = self.players[i].score;
        let mut message = self.players[i].name.clone();
        let points: u32 = self.turn_points;
        let leftover: usize = self.steal_leftover;
        let made: u32 = if on_board {
            score + points
        } else {
            points
        };
        if made == WIN_SCORE {
            self.set_score(i, WIN_SCORE);
            self.finish(Some(player_id));
            message.append(" hits exactly ");
            message.append(format_points(WIN_SCORE).as_str());
            message.append(" and wins!");
            self.status_message = message;
            return;
        }
        if !on_board {
            self.set_score(i, points);
            message.append(" is on the board with ");
            message.append(format_points(points).as_str());
            message.append("!");
            self.status_message = message;
            self.begin_next_turn_at(false, now);
            return;
        }
        message.append(" banks ");
        message.append(format_points(points).as_str());
        if self.next_can_steal_points(points, leftover) {
            let next: usize = self.next_player_index();
            assert(self@.players[next as int] == self.players@[next as int]@);
            message.append(" with ");
            message.append(decimal_text(leftover as u64).as_str());
            message.append(" dice left. ");
            message.append(self.players[next].name.as_str());
            message.append(" may steal!");
            self.pending_bank = Some(PendingBank { player_id, points, leftover });
            self.phase = GamePhase::StealWindow;
            self.status_message = message;
            self.set_action_deadline(now);
        } else {
            self.set_score(i, made);
            message.append(". Score: ");
            message.append(format_points(made).as_str());
            self.status_message = message;
            self.begin_next_turn_at(false, now);
        }
    }

    /// Banks the points of the turn, after keeping the given dice where a keep is due.
    pub fn bank_at(&mut self, player_id: Uuid, indices: &[usize], now: u64) -> (res: Result<
        (),
        String,
    >)
        requires
            old(self)@.bank_fits(player_id, indices@),
        ensures
            answered(
                res,
                old(self)@,
                final(self)@,
                old(self)@.bank_refusal(player_id, indices@),
                old(self)@.after_bank(player_id, indices@, now),
            ),
    {
        if let Err(words) = self.check_turn(player_id, "Cannot bank now") {
            return Err(words);
        }
        if self.awaiting_keep {
            let outcome = match score_held(self.mode, self.dice.as_slice(), indices) {
                None => {
                    return Err(String::from_str("Select a scoring combination first"));
                },
                Some(outcome) => outcome,
            };
            assert(self.dice@.len() > 0) by {
                assert(indices@[0] < self.dice@.len());
            }
            if !outcome.auto_win {
                if let Err(words) = self.check_bank_legal(
                    self.turn_points.saturating_add(outcome.points),
                ) {
                    return Err(words);
                }
            }
            assert(self@.keep_refusal(player_id, indices@) is None);
            let kept = self.keep_at(player_id, indices, now);
            assert(kept is Ok);
            if outcome.auto_win || self.phase != GamePhase::Playing || self.winner_id.is_some() {
                return Ok(());
            }
        } else if let Err(words) = self.check_bank_legal(self.turn_points) {
            return Err(words);
        }
        self.bank_points(player_id, now);
        Ok(())
    }

    /// Banks the points of the turn, with the time to act counted from now.
    pub fn bank(&mut self, player_id: Uuid, indices: Vec<usize>) -> (res: Result<(), String>)
        requires
            old(self)@.bank_fits(player_id, indices@),
        ensures
            exists|now: u64|
                answered(
                    res,
                    old(self)@,
                    final(self)@,
                    old(self)@.bank_refusal(player_id, indices@),
                    #[trigger] old(self)@.after_bank(player_id, indices@, now),
                ),
    {
        let now: u64 = now_ms();
        self.bank_at(player_id, indices.as_slice(), now)
    }

    /// Lets the pending bank stand and takes the turn.
    pub fn decline_steal_at(&mut self, player_id: Uuid, now: u64) -> (res: Result<(), String>)
        requires
            old(self)@.decline_fits(player_id),
        ensures
            answered(
                res,
                old(self)@,
                final(self)@,
                old(self)@.decline_refusal(player_id),
                old(self)@.after_decline(now),
            ),
    {
        if let Err(words) = self.check_decline(player_id) {
            return Err(words);
        }
        self.apply_pending_bank();
        self.begin_next_turn_at(false, now);
        Ok(())
    }

    /// Says why this player cannot decline a steal, if so.
    pub(crate) fn check_decline(&self, player_id: Uuid) -> (res: Result<(), String>)
        ensures
            match res {
                Ok(()) => self@.decline_refusal(player_id) is None,
                Err(words) => self@.decline_refusal(player_id) == Some(words@),
            },
    {
        if self.phase != GamePhase::StealWindow {
            return Err(String::from_str("No steal to decline"));
        }
        match self.next_player() {
            None => Err(String::from_str("No next player")),
            Some(next) => {
                if self.players[next].id != player_id {
                    return Err(String::from_str("Only the next player can decline"));
                }
                Ok(())
            },
        }
    }

    /// Lets the pending bank stand, with the time to act counted from now.
    pub fn decline_steal(&mut self, player_id: Uuid) -> (res: Result<(), String>)
        requires
            old(self)@.decline_fits(player_id),
        ensures
            exists|now: u64|
                answered(
                    res,
                    old(self)@,
                    final(self)@,
                    old(self)@.decline_refusal(player_id),
                    #[trigger] old(self)@.after_decline(now),
                ),
    {
        let now: u64 = now_ms();
        self.decline_steal_at(player_id, now)
    }

    /// Says why this player cannot steal, or which dice there are to roll.
    pub(crate) fn check_steal(&self, player_id: Uuid) -> (res: Result<PendingBank, String>)
        ensures
            match res {
                Ok(pending) => self@.steal_refusal(player_id) is None && self@.pending_bank == Some(
                    pending,
                ),
                Err(words) => self@.steal_refusal(player_id) == Some(words@),
            },
    {
        if self.phase != GamePhase::StealWindow {
            return Err(String::from_str("No steal available"));
        }
        let pending = match self.pending_bank {
            None => {
                return Err(String::from_str("No pending bank"));
            },
            Some(pending) => pending,
        };
        match self.next_player() {
            None => Err(String::from_str("No next player")),
            Some(next) => {
                let p = &self.players[next];
                if p.id != player_id {
                    return Err(String::from_str("Only the next player can steal"));
                }
                if !p.on_board {
                    return Err(String::from_str("You must be on the board to steal"));
                }
                if pending.leftover == 0 {
                    return Err(String::from_str("No leftover dice"));
                }
                if p.score.saturating_add(pending.points) > WIN_SCORE {
                    let mut words = String::from_str("Stealing would go over ");
                    words.append(format_points(WIN_SCORE).as_str());
                    return Err(words);
                }
                Ok(pending)
            },
        }
    }

    /// Counts the dice that a steal rolls: none where it is refused.
    pub fn dice_to_steal(&self, player_id: Uuid) -> (res: usize)
        ensures
            res == if self@.steal_refusal(player_id) is None {
                self@.pending_bank->0.leftover
            } else {
                0
            },
    {
        match self.check_steal(player_id) {
            Err(_) => 0,
            Ok(pending) => pending.leftover,
        }
    }

    /// Tells whether the given dice bust the steal of a pending bank.
    pub(crate) fn steal_busts(&self, pending: &PendingBank, dice: &Vec<u8>) -> (res: bool)
        requires
            self@.pending_bank == Some(*pending),
        ensures
            res == self@.with_stolen(dice@).busts(),
    {
        if !has_any_score(self.mode, dice.as_slice()) {
            return true;
        }
        let next: usize = self.next_player_index();
        if next >= self.players.len() {
            return true;
        }
        assert(self@.players[next as int] == self.players@[next as int]@);
        !has_playable_keep(
            self.mode,
            dice.as_slice(),
            self.players[next].score,
            pending.points,
            self.players[next].on_board,
            WIN_SCORE,
        )
    }

    /// Takes over the pending bank, with the dice that the leftover ones showed when rolled.
    pub fn steal_with(&mut self, player_id: Uuid, dice: Vec<u8>, now: u64) -> (res: Result<
        (),
        String,
    >)
        requires
            old(self)@.steal_fits(player_id, dice@),
        ensures
            answered(
                res,
                old(self)@,
                final(self)@,
                old(self)@.steal_refusal(player_id),
                old(self)@.after_steal(player_id, dice@, now),
            ),
    {
        let pending = match self.check_steal(player_id) {
            Err(words) => {
                return Err(words);
            },
            Ok(pending) => pending,
        };
        self.turn_index = self.next_player_index();
        self.turn_points = pending.points;
        self.pending_bank = None;
        self.phase = GamePhase::Playing;
        self.lay_dice(dice);
        self.resolve_rolled_dice_at(player_id, Some((pending.player_id, pending.points)), now);
        Ok(())
    }

    /// Takes over the pending bank and rolls the leftover dice.
    pub fn steal(&mut self, player_id: Uuid) -> (res: Result<(), String>)
        requires
            old(self)@.steal_refusal(player_id) is None ==> old(self)@.pending_fits(),
        ensures
            exists|dice: Seq<u8>, now: u64|
                {
                    &&& all_faces(dice)
                    &&& res is Ok ==> dice.len() == old(self)@.pending_bank->0.leftover
                    &&& answered(
                        res,
                        old(self)@,
                        final(self)@,
                        old(self)@.steal_refusal(player_id),
                        #[trigger] old(self)@.after_steal(player_id, dice, now),
                    )
                },
    {
        let dice = roll_n(self.dice_to_steal(player_id));
        let now: u64 = now_ms();
        self.steal_with(player_id, dice, now)
    }

    // -- the lobby -----------------------------------------------------------

    /// Changes the rules before the game starts. A change of game resets the minimum to its
    /// default.
    pub fn update_settings(
        &mut self,
        mode: GameMode,
        idle_timeout_secs: Option<u64>,
        board_threshold: u32,
    ) -> (res: Result<(), String>)
        ensures
            answered(
                res,
                old(self)@,
                final(self)@,
                old(self)@.settings_refusal(mode, idle_timeout_secs, board_threshold),
                old(self)@.after_settings(mode, idle_timeout_secs, board_threshold),
            ),
    {
        if self.phase != GamePhase::Lobby {
            return Err(String::from_str("Settings can only be changed in the lobby"));
        }
        if let Some(secs) = idle_timeout_secs {
            if !is_idle_option(secs) {
                return Err(String::from_str("Invalid idle forfeit time"));
            }
        }
        let threshold: u32 = if mode != self.mode {
            mode.default_board_threshold()
        } else {
            board_threshold
        };
        if threshold > WIN_SCORE {
            let mut words = String::from_str("On-the-board minimum cannot exceed ");
            words.append(format_points(WIN_SCORE).as_str());
            return Err(words);
        }
        let idle = match idle_timeout_secs {
            Some(secs) => {
                let mut idle = String::from_str("idle forfeit after ");
                idle.append(format_duration_secs(secs).as_str());
                idle
            },
            None => String::from_str("idle forfeit off"),
        };
        let board = if threshold == 0 {
            String::from_str("no minimum to get on the board")
        } else {
            let mut board = String::from_str("need ");
            board.append(format_points(threshold).as_str());
            board.append(" to get on the board");
            board
        };
        let mut message = String::from_str(mode.label());
        message.append(" — ");
        message.append(board.as_str());
        message.append(" · ");
        message.append(idle.as_str());
        message.append(". Waiting for players…");
        self.mode = mode;
        self.board_threshold = threshold;
        self.idle_timeout_secs = idle_timeout_secs;
        self.status_message = message;
        Ok(())
    }

    /// Starts the game with the first row's turn.
    pub fn start_at(&mut self, now: u64) -> (res: Result<(), String>)
        ensures
            answered(
                res,
                old(self)@,
                final(self)@,
                old(self)@.start_refusal(),
                old(self)@.after_start(now),
            ),
    {
        if self.phase != GamePhase::Lobby {
            return Err(String::from_str("Game already started"));
        }
        if self.players.len() < 2 {
            return Err(String::from_str("Need at least 2 players"));
        }
        self.phase = GamePhase::Playing;
        self.turn_index = 0;
        self.reset_turn_state();
        self.set_action_deadline(now);
        let mut message = self.current_name();
        message.append("'s turn — ");
        message.append(self.turn_hint(false).as_str());
        self.status_message = message;
        Ok(())
    }

    /// Starts the game, with the time to act counted from now.
    pub fn start(&mut self) -> (res: Result<(), String>)
        ensures
            exists|now: u64|
                answered(
                    res,
                    old(self)@,
                    final(self)@,
                    old(self)@.start_refusal(),
                    #[trigger] old(self)@.after_start(now),
                ),
    {
        let now: u64 = now_ms();
        self.start_at(now)
    }

    // -- the end -------------------------------------------------------------

    /// The row that the winner's id names first.
    fn victor_index(&self) -> (res: Option<usize>)
        ensures
            match res {
                Some(i) => i < self.players@.len() && self@.victor() == Some(
                    self.players@[i as int]@,
                ),
                None => self@.victor() is None,
            },
    {
        match self.winner_id {
            Some(id) => {
                let found = self.player_index(id);
                assert(found matches Some(i) ==> self@.players[i as int]
                    == self.players@[i as int]@);
                found
            },
            None => None,
        }
    }

    /// Appends who has won, and with what score, or that nobody has.
    fn append_victor(&self, message: &mut String)
        ensures
            final(message)@ == old(message)@ + (match self@.victor() {
                Some(p) => won_with(p.name, p.score),
                None => "No winner."@,
            }),
    {
        let ghost before = message@;
        match self.victor_index() {
            Some(i) => {
                let p = &self.players[i];
                message.append(p.name.as_str());
                message.append(" wins with ");
                message.append(format_points(p.score).as_str());
                message.append(".");
                assert(message@ =~= before + won_with(p@.name, p@.score));
            },
            None => {
                message.append("No winner.");
            },
        }
    }

    /// Ends the game at the host's wish. The row that leads alone wins.
    pub fn end_game(&mut self, player_id: Uuid) -> (res: Result<(), String>)
        requires
            old(self)@.end_fits(player_id),
        ensures
            answered(
                res,
                old(self)@,
                final(self)@,
                old(self)@.end_refusal(player_id),
                old(self)@.after_end(),
            ),
    {
        if player_id != self.host_id {
            return Err(String::from_str("Only the host can end the game"));
        }
        if self.phase != GamePhase::Playing && self.phase != GamePhase::StealWindow {
            return Err(String::from_str("Game is not in progress"));
        }
        self.apply_pending_bank();
        let leader = self.leader_id();
        self.finish(leader);
        let mut message = String::from_str("Host ended the game. ");
        self.append_victor(&mut message);
        assert(self@.victor() is None ==> message@ =~= "Host ended the game. No winner."@) by {
            reveal_strlit("Host ended the game. No winner.");
            reveal_strlit("Host ended the game. ");
            reveal_strlit("No winner.");
        }
        self.status_message = message;
        Ok(())
    }

    /// Puts everyone back into the lobby with no points.
    pub fn rematch(&mut self, player_id: Uuid) -> (res: Result<(), String>)
        ensures
            answered(
                res,
                old(self)@,
                final(self)@,
                old(self)@.rematch_refusal(player_id),
                old(self)@.after_rematch(),
            ),
    {
        if player_id != self.host_id {
            return Err(String::from_str("Only the host can start a rematch"));
        }
        let ghost fresh = old(self)@.after_rematch().players;
        let mut i: usize = 0;
        while i < self.players.len()
            invariant
                i <= self.players@.len(),
                self.players@.len() == old(self)@.players.len(),
                fresh == old(self)@.after_rematch().players,
                self@ == (RoomModel { players: self@.players, ..old(self)@ }),
                forall|j: int| 0 <= j < i ==> #[trigger] self@.players[j] == fresh[j],
                forall|j: int|
                    i <= j < self.players@.len() ==> #[trigger] self@.players[j]
                        == old(self)@.players[j],
            decreases self.players@.len() - i,
        {
            let ghost before = self@.players;
            self.players[i].score = 0;
            self.players[i].on_board = false;
            self.players[i].forfeited = false;
            assert(self@.players =~= before.update(i as int, fresh[i as int])) by {
                assert(before[i as int] == old(self)@.players[i as int]);
            }
            i += 1;
        }
        self.winner_id = None;
        self.pending_bank = None;
        self.phase = GamePhase::Lobby;
        self.turn_index = 0;
        self.reset_turn_state();
        self.action_deadline_ms = None;
        self.status_message = String::from_str("Rematch lobby — host can start when ready");
        assert(self@ =~= old(self)@.after_rematch());
        Ok(())
    }

    /// The words that say who is out, and why.
    fn forfeit_reason(&self, name: &str, cause: ForfeitCause) -> (res: String)
        ensures
            res@ == self@.forfeit_reason(name@, cause),
    {
        let mut reason = String::from_str(name);
        match cause {
            ForfeitCause::Manual => {
                reason.append(" forfeited.");
            },
            ForfeitCause::Timeout => {
                let wait = match self.idle_timeout_secs {
                    Some(secs) => format_duration_secs(secs),
                    None => String::from_str("the time limit"),
                };
                reason.append(" forfeited — no play within ");
                reason.append(wait.as_str());
                reason.append(".");
            },
        }
        reason
    }

    fn put_out(&mut self, i: usize)
        requires
            i < old(self)@.players.len(),
        ensures
            final(self)@ == old(self)@.row_out(i as int),
    {
        let ghost before = self@;
        assert(before.players[i as int] == self.players@[i as int]@);
        let id = self.players[i].id;
        self.players[i].forfeited = true;
        assert(self@.players =~= before.players.update(
            i as int,
            PlayerModel { forfeited: true, ..before.players[i as int] },
        ));
        if self.host_id == id {
            if let Some(j) = first_active(&self.players) {
                assert(self@.players[j as int] == self.players@[j as int]@);
                self.host_id = self.players[j].id;
            }
        }
    }

    /// Ends the game when at most one row is left, which then wins.
    fn end_by_forfeit(&mut self, reason: String)
        requires
            old(self)@.pending_fits(),
        ensures
            final(self)@ == old(self)@.ended_by_forfeit(reason@),
    {
        self.apply_pending_bank();
        let winner = match first_active(&self.players) {
            Some(j) => {
                assert(self@.players[j as int] == self.players@[j as int]@);
                Some(self.players[j].id)
            },
            None => None,
        };
        self.finish(winner);
        let mut message = reason;
        message.append(" ");
        self.append_victor(&mut message);
        assert(self@.victor() is None ==> message@ =~= reason@ + " No winner."@) by {
            reveal_strlit(" No winner.");
            reveal_strlit(" ");
            reveal_strlit("No winner.");
        }
        self.status_message = message;
    }

    /// Passes the turn on and puts the reason before the message.
    fn pass_turn_after(&mut self, reason: String, now: u64)
        ensures
            final(self)@ == old(self)@.turn_passed_after(reason@, now),
    {
        self.begin_next_turn_at(false, now);
        let mut message = reason;
        message.append(" ");
        message.append(self.status_message.as_str());
        self.status_message = message;
    }

    /// Puts a player out of the game. The last one left wins.
    pub fn forfeit_at(&mut self, player_id: Uuid, cause: ForfeitCause, now: u64) -> (res: Result<
        (),
        String,
    >)
        requires
            old(self)@.forfeit_fits(player_id),
        ensures
            answered(
                res,
                old(self)@,
                final(self)@,
                old(self)@.forfeit_refusal(player_id),
                old(self)@.after_forfeit(player_id, cause, now),
            ),
    {
        if self.phase != GamePhase::Playing && self.phase != GamePhase::StealWindow {
            return Err(String::from_str("Game is not in progress"));
        }
        let i: usize = match self.player_index(player_id) {
            None => {
                return Err(String::from_str("Not in this game"));
            },
            Some(i) => i,
        };
        assert(self@.players[i as int] == self.players@[i as int]@);
        if self.players[i].forfeited {
            return Err(String::from_str("Already forfeited"));
        }
        let was_actor = match self.acting_player_id() {
            Some(actor) => actor == player_id,
            None => false,
        };
        let was_current = match self.current_player() {
            Some(p) => p.id == player_id,
            None => false,
        };
        let in_steal = self.phase == GamePhase::StealWindow;
        let reason = self.forfeit_reason(self.players[i].name.as_str(), cause);
        let ghost before = self@;
        self.put_out(i);
        proof {
            if before.pending_fits() {
                lemma_out_keeps_pending(before, i as int);
            }
        }
        if self.active_count() <= 1 {
            self.end_by_forfeit(reason);
        } else if in_steal && was_actor {
            self.apply_pending_bank();
            self.pass_turn_after(reason, now);
        } else if was_current {
            self.pending_bank = None;
            self.pass_turn_after(reason, now);
        } else {
            self.status_message = reason;
        }
        Ok(())
    }

    /// Puts a player out of the game, with the time to act counted from now.
    pub fn forfeit(&mut self, player_id: Uuid, cause: ForfeitCause) -> (res: Result<(), String>)
        requires
            old(self)@.forfeit_fits(player_id),
        ensures
            exists|now: u64|
                answered(
                    res,
                    old(self)@,
                    final(self)@,
                    old(self)@.forfeit_refusal(player_id),
                    #[trigger] old(self)@.after_forfeit(player_id, cause, now),
                ),
    {
        let now: u64 = now_ms();
        self.forfeit_at(player_id, cause, now)
    }

    /// Puts out the player to act where that player has waited too long at `now`. The next wait
    /// is counted from `from`.
    pub fn check_timeout_at(&mut self, now: u64, from: u64) -> (res: bool)
        requires
            old(self)@.timeout_fits(now),
        ensures
            res == old(self)@.times_out(now),
            final(self)@ == if res {
                old(self)@.after_timeout(from)
            } else {
                old(self)@
            },
    {
        if self.phase != GamePhase::Playing && self.phase != GamePhase::StealWindow {
            return false;
        }
        match self.action_deadline_ms {
            None => {
                return false;
            },
            Some(deadline) => {
                if now < deadline {
                    return false;
                }
            },
        }
        match self.acting_player_id() {
            None => false,
            Some(actor) => self.forfeit_at(actor, ForfeitCause::Timeout, from).is_ok(),
        }
    }

    /// Puts out the player to act where that player has waited too long at `now`.
    pub fn check_timeout(&mut self, now: u64) -> (res: bool)
        requires
            old(self)@.timeout_fits(now),
        ensures
            res == old(self)@.times_out(now),
            !res ==> final(self)@ == old(self)@,
            res ==> exists|from: u64| final(self)@ == #[trigger] old(self)@.after_timeout(from),
    {
        let from: u64 = now_ms();
        self.check_timeout_at(now, from)
    }

    // -- seats ---------------------------------------------------------------

    fn set_connection(&mut self, i: usize, id: Uuid, connected: bool)
        requires
            i < old(self)@.players.len(),
        ensures
            final(self)@ == old(self)@.with_row(
                i as int,
                PlayerModel { id, connected, ..old(self)@.players[i as int] },
            ),
    {
        let ghost before = self@;
        assert(before.players[i as int] == self.players@[i as int]@);
        self.players[i].id = id;
        self.players[i].connected = connected;
        assert(self@.players =~= before.players.update(
            i as int,
            PlayerModel { id, connected, ..before.players[i as int] },
        ));
    }

    /// Gives a seat to a new connection and tells which one held it.
    pub fn reclaim_seat(&mut self, seat_key: Uuid, new_id: Uuid, name: String) -> (res: Result<
        Uuid,
        String,
    >)
        ensures
            match res {
                Ok(old_id) => {
                    &&& old(self)@.row_of_seat(seat_key) matches Some(i)
                    &&& old_id == old(self)@.players[i].id
                    &&& final(self)@ == old(self)@.after_reclaim(i, new_id, name@)
                },
                Err(words) => {
                    &&& old(self)@.row_of_seat(seat_key) is None
                    &&& words@ == "No seat to reclaim"@
                    &&& final(self)@ == old(self)@
                },
            },
    {
        match self.seat_index(seat_key) {
            None => Err(String::from_str("No seat to reclaim")),
            Some(i) => {
                let ghost before = self@;
                assert(before.players[i as int] == self.players@[i as int]@);
                let old_id = self.players[i].id;
                let mut message = name.clone();
                message.append(" reconnected");
                self.set_connection(i, new_id, true);
                assert(self@.players.len() == self.players@.len());
                assert(self@.players[i as int] == self.players@[i as int]@);
                let ghost bound = self@;
                self.players[i].name = name;
                assert forall|j: int| 0 <= j < before.players.len() && j != i implies
                    #[trigger] self@.players[j] == before.players[j] by {
                    assert(bound.players[j] == before.players[j]);
                }
                assert(self@.players =~= before.players.update(
                    i as int,
                    PlayerModel {
                        id: new_id,
                        connected: true,
                        name: name@,
                        ..before.players[i as int]
                    },
                ));
                self.retarget_player_id(old_id, new_id);
                self.status_message = message;
                Ok(old_id)
            },
        }
    }

    /// Keeps the row of a seat, but gives its connection over to `ghost`, which nobody holds.
    /// Tells which connection held the seat.
    pub fn detach_connection_to(&mut self, seat_key: Uuid, ghost: Uuid) -> (res: Option<Uuid>)
        ensures
            match res {
                Some(old_id) => {
                    &&& old(self)@.row_of_seat(seat_key) matches Some(i)
                    &&& old_id == old(self)@.players[i].id
                    &&& final(self)@ == old(self)@.after_detach(i, ghost)
                },
                None => old(self)@.row_of_seat(seat_key) is None && final(self)@ == old(self)@,
            },
    {
        match self.seat_index(seat_key) {
            None => None,
            Some(i) => {
                assert(self@.players[i as int] == self.players@[i as int]@);
                let old_id = self.players[i].id;
                self.set_connection(i, ghost, false);
                self.retarget_player_id(old_id, ghost);
                Some(old_id)
            },
        }
    }

    /// Keeps the row of a seat, but stops counting its connection as present.
    pub fn detach_connection(&mut self, seat_key: Uuid) -> (res: Option<Uuid>)
        ensures
            match res {
                Some(old_id) => {
                    &&& old(self)@.row_of_seat(seat_key) matches Some(i)
                    &&& old_id == old(self)@.players[i].id
                    &&& exists|ghost: Uuid|
                        is_random_layout(ghost.0) && final(self)@
                            == #[trigger] old(self)@.after_detach(i, ghost)
                },
                None => old(self)@.row_of_seat(seat_key) is None && final(self)@ == old(self)@,
            },
    {
        let ghost_id = Uuid::new_v4();
        self.detach_connection_to(seat_key, ghost_id)
    }

    /// Drops a seat from a lobby, or forfeits it and unbinds its connection once the game has
    /// started. Tells which connection held the seat, and whether the room is now empty.
    pub fn vacate_seat_with(&mut self, seat_key: Uuid, ghost: Uuid, now: u64) -> (res: Option<
        (Uuid, bool),
    >)
        requires
            old(self)@.vacate_fits(seat_key),
        ensures
            res == old(self)@.vacate_result(seat_key),
            final(self)@ == match old(self)@.row_of_seat(seat_key) {
                Some(i) => old(self)@.after_vacate(i, ghost, now),
                None => old(self)@,
            },
    {
        let i: usize = match self.seat_index(seat_key) {
            None => {
                return None;
            },
            Some(i) => i,
        };
        let ghost before = self@;
        assert(before.players[i as int] == self.players@[i as int]@);
        if self.phase == GamePhase::Lobby {
            let removed = self.players.remove(i);
            assert(self@.players =~= before.players.remove(i as int));
            if self.players.len() > 0 {
                if self.host_id == removed.id {
                    assert(self@.players[0] == self.players@[0]@);
                    self.host_id = self.players[0].id;
                }
                let mut message = removed.name.clone();
                message.append(" left — ");
                message.append(decimal_text(self.players.len() as u64).as_str());
                message.append(" player(s).");
                self.status_message = message;
            }
            return Some((removed.id, self.players.len() == 0));
        }
        let player_id = self.players[i].id;
        if (self.phase == GamePhase::Playing || self.phase == GamePhase::StealWindow)
            && !self.players[i].forfeited {
            let _ = self.forfeit_at(player_id, ForfeitCause::Manual, now);
            proof {
                if before.forfeit_refusal(player_id) is None {
                    lemma_forfeit_keeps_seats(before, player_id, ForfeitCause::Manual, now);
                    lemma_same_seat_row(before, self@, seat_key);
                }
            }
        }
        match self.detach_connection_to(seat_key, ghost) {
            Some(id) => {
                assert(id == player_id);
                Some((id, false))
            },
            None => None,
        }
    }

    /// Drops a seat from a lobby, or forfeits it and unbinds its connection once the game has
    /// started.
    pub fn vacate_seat(&mut self, seat_key: Uuid) -> (res: Option<(Uuid, bool)>)
        requires
            old(self)@.vacate_fits(seat_key),
        ensures
            res == old(self)@.vacate_result(seat_key),
            match old(self)@.row_of_seat(seat_key) {
                Some(i) => exists|ghost: Uuid, now: u64|
                    is_random_layout(ghost.0) && final(self)@ == #[trigger] old(
                        self,
                    )@.after_vacate(i, ghost, now),
                None => final(self)@ == old(self)@,
            },
    {
        let ghost_id = Uuid::new_v4();
        let now: u64 = now_ms();
        self.vacate_seat_with(seat_key, ghost_id, now)
    }

    /// Seats a connection: in the seat that it held before, or in a new one while the game has
    /// not started. Tells which connection held the seat before.
    pub fn join(&mut self, player_id: Uuid, name: String, seat_key: Uuid) -> (res: Result<
        Option<Uuid>,
        String,
    >)
        ensures
            match res {
                Ok(old_id) => {
                    &&& old(self)@.join_refusal(seat_key) is None
                    &&& final(self)@ == old(self)@.after_join(player_id, name@, seat_key)
                    &&& old_id == old(self)@.holder(seat_key)
                },
                Err(words) => {
                    &&& old(self)@.join_refusal(seat_key) == Some(words@)
                    &&& final(self)@ == old(self)@
                },
            },
    {
        if self.seat_index(seat_key).is_some() {
            return match self.reclaim_seat(seat_key, player_id, name) {
                Ok(old_id) => Ok(Some(old_id)),
                Err(words) => Err(words),
            };
        }
        if self.phase != GamePhase::Lobby {
            return Err(String::from_str("Game already in progress"));
        }
        if self.players.len() >= TABLE_SEATS {
            return Err(String::from_str("Game is full"));
        }
        let ghost before = self@;
        let mut message = name.clone();
        self.players.push(Player::seated(player_id, seat_key, name));
        assert(self@.players =~= before.players.push(
            PlayerModel::seated(player_id, seat_key, name@),
        ));
        message.append(" joined — ");
        message.append(decimal_text(self.players.len() as u64).as_str());
        message.append(" player(s).");
        self.status_message = message;
        Ok(None)
    }

    /// Notes that a connection is gone. Tells whether that was news.
    pub fn mark_disconnected(&mut self, player_id: Uuid) -> (res: bool)
        ensures
            res == old(self)@.is_present(player_id),
            final(self)@ == if res {
                old(self)@.after_disconnect(player_id)
            } else {
                old(self)@
            },
    {
        match self.player_index(player_id) {
            None => false,
            Some(i) => {
                let ghost before = self@;
                assert(before.players[i as int] == self.players@[i as int]@);
                if !self.players[i].connected {
                    return false;
                }
                let mut message = self.players[i].name.clone();
                message.append(" disconnected");
                self.players[i].connected = false;
                assert(self@.players =~= before.players.update(
                    i as int,
                    PlayerModel { connected: false, ..before.players[i as int] },
                ));
                self.status_message = message;
                true
            },
        }
    }
}

} // verus!
