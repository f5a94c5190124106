//! What a seated player may ask of the room, and what comes of it.

use crate::chance::{all_faces, generate_code, is_room_code, roll_n};
use crate::clock::now_ms;
use crate::game::Room;
use crate::ids::{Uuid, is_random_layout};
use crate::protocol::{ClientMessage, ClientMessageModel, GameMode, GamePhase};
use crate::room_laws::lemma_active_out;
use crate::room_model::{ForfeitCause, PlayerModel, RoomModel};
use crate::scoring::{held_points_fit, score_held};
use vstd::prelude::*;

verus! {

/// What chance and the clock bring to one step.
#[derive(Clone, Debug)]
pub struct Luck {
    /// The time.
    pub now: u64,
    /// An identifier that nobody holds.
    pub fresh: Uuid,
    /// A room code.
    pub code: String,
    /// Dice that have just been rolled.
    pub dice: Vec<u8>,
}

/// What chance and the clock bring, with texts and lists as sequences.
#[verifier::ext_equal]
pub struct LuckModel {
    pub now: u64,
    pub fresh: Uuid,
    pub code: Seq<char>,
    pub dice: Seq<u8>,
}

impl View for Luck {
    type V = LuckModel;

    open spec fn view(&self) -> LuckModel {
        LuckModel { now: self.now, fresh: self.fresh, code: self.code@, dice: self.dice@ }
    }
}

impl LuckModel {
    /// Something that a draw for the given number of dice can bring.
    pub open spec fn possible(self, dice: usize) -> bool {
        &&& is_random_layout(self.fresh.0)
        &&& is_room_code(self.code)
        &&& all_faces(self.dice)
        &&& self.dice.len() == dice
    }
}

impl Luck {
    /// Draws for the given number of dice.
    pub fn draw(dice: usize) -> (res: Luck)
        ensures
            res@.possible(dice),
    {
        Luck {
            now: now_ms(),
            fresh: Uuid::new_v4(),
            code: generate_code(),
            dice: roll_n(dice),
        }
    }
}

/// What a room says to a request: the words of a refusal, or the room after it is granted.
pub struct Answer {
    pub refusal: Option<Seq<char>>,
    pub after: RoomModel,
}

/// The room has given the answer: where it refused, it is as it was.
pub open spec fn gave(
    res: Result<(), String>,
    before: RoomModel,
    after: RoomModel,
    answer: Answer,
) -> bool {
    match res {
        Ok(()) => answer.refusal is None && after == answer.after,
        Err(words) => answer.refusal == Some(words@) && after == before,
    }
}

impl RoomModel {
    /// The host changes the settings. A minimum that is left out is the default of the game.
    #[verifier::opaque]
    pub open spec fn settings_answer(
        self,
        id: Uuid,
        mode: GameMode,
        idle_timeout_secs: Option<u64>,
        board_threshold: Option<u32>,
    ) -> Answer {
        let threshold = board_threshold.unwrap_or(mode.board_default());
        Answer {
            refusal: if id != self.host_id {
                Some("Only the host can change settings"@)
            } else {
                self.settings_refusal(mode, idle_timeout_secs, threshold)
            },
            after: self.after_settings(mode, idle_timeout_secs, threshold),
        }
    }

    /// The host starts the game.
    #[verifier::opaque]
    pub open spec fn start_answer(self, id: Uuid, now: u64) -> Answer {
        Answer {
            refusal: if id != self.host_id {
                Some("Only the host can start"@)
            } else {
                self.start_refusal()
            },
            after: self.after_start(now),
        }
    }

    #[verifier::opaque]
    pub open spec fn roll_answer(self, id: Uuid, indices: Seq<usize>, luck: LuckModel) -> Answer {
        Answer {
            refusal: self.roll_refusal(id, indices),
            after: self.after_roll(id, indices, luck.dice, luck.now),
        }
    }

    #[verifier::opaque]
    pub open spec fn select_answer(self, id: Uuid, indices: Seq<usize>) -> Answer {
        Answer {
            refusal: self.select_refusal(id, indices),
            after: self.after_select(indices),
        }
    }

    #[verifier::opaque]
    pub open spec fn keep_answer(self, id: Uuid, indices: Seq<usize>, now: u64) -> Answer {
        Answer {
            refusal: self.keep_refusal(id, indices),
            after: self.after_keep(id, indices, now),
        }
    }

    #[verifier::opaque]
    pub open spec fn bank_answer(self, id: Uuid, indices: Seq<usize>, now: u64) -> Answer {
        Answer {
            refusal: self.bank_refusal(id, indices),
            after: self.after_bank(id, indices, now),
        }
    }

    #[verifier::opaque]
    pub open spec fn steal_answer(self, id: Uuid, luck: LuckModel) -> Answer {
        Answer {
            refusal: self.steal_refusal(id),
            after: self.after_steal(id, luck.dice, luck.now),
        }
    }

    #[verifier::opaque]
    pub open spec fn decline_answer(self, id: Uuid, now: u64) -> Answer {
        Answer { refusal: self.decline_refusal(id), after: self.after_decline(now) }
    }

    #[verifier::opaque]
    pub open spec fn end_answer(self, id: Uuid) -> Answer {
        Answer { refusal: self.end_refusal(id), after: self.after_end() }
    }

    #[verifier::opaque]
    pub open spec fn forfeit_answer(self, id: Uuid, now: u64) -> Answer {
        Answer {
            refusal: self.forfeit_refusal(id),
            after: self.after_forfeit(id, ForfeitCause::Manual, now),
        }
    }

    #[verifier::opaque]
    pub open spec fn rematch_answer(self, id: Uuid) -> Answer {
        Answer { refusal: self.rematch_refusal(id), after: self.after_rematch() }
    }

    /// What comes of a request. Messages that ask nothing of the room change nothing.
    pub open spec fn answer(self, id: Uuid, msg: ClientMessageModel, luck: LuckModel) -> Answer {
        match msg {
            ClientMessageModel::UpdateSettings { mode, idle_timeout_secs, board_threshold } =>
            self.settings_answer(id, mode, idle_timeout_secs, board_threshold),
            ClientMessageModel::StartGame => self.start_answer(id, luck.now),
            ClientMessageModel::Roll { indices } => self.roll_answer(id, indices, luck),
            ClientMessageModel::Select { indices } => self.select_answer(id, indices),
            ClientMessageModel::Keep { indices } => self.keep_answer(id, indices, luck.now),
            ClientMessageModel::Bank { indices } => self.bank_answer(id, indices, luck.now),
            ClientMessageModel::Steal => self.steal_answer(id, luck),
            ClientMessageModel::DeclineSteal => self.decline_answer(id, luck.now),
            ClientMessageModel::EndGame => self.end_answer(id),
            ClientMessageModel::Forfeit => self.forfeit_answer(id, luck.now),
            ClientMessageModel::Rematch => self.rematch_answer(id),
            _ => Answer { refusal: None, after: self },
        }
    }

    /// How many dice a request calls for: none where it is refused or cannot be counted.
    #[verifier::opaque]
    pub open spec fn dice_called_for(self, id: Uuid, msg: ClientMessageModel) -> usize {
        match msg {
            ClientMessageModel::Roll { indices } => if self.roll_refusal(id, indices) is None && (
            self.awaiting_keep ==> self.keep_fits(id, indices)) {
                self.roll_size(id, indices, 0)
            } else {
                0
            },
            ClientMessageModel::Steal => if self.steal_refusal(id) is None {
                self.pending_bank->0.leftover
            } else {
                0
            },
            _ => 0,
        }
    }
}

impl RoomModel {
    /// The request takes no number of the room out of the range of its machine type.
    #[verifier::opaque]
    pub open spec fn request_fits(
        self,
        id: Uuid,
        msg: ClientMessageModel,
        luck: LuckModel,
    ) -> bool {
        match msg {
            ClientMessageModel::Roll { indices } => self.awaiting_keep ==> self.keep_fits(
                id,
                indices,
            ),
            ClientMessageModel::Keep { indices } => self.keep_fits(id, indices),
            ClientMessageModel::Bank { indices } => self.bank_fits(id, indices),
            ClientMessageModel::Steal => self.steal_fits(id, luck.dice),
            ClientMessageModel::DeclineSteal => self.decline_fits(id),
            ClientMessageModel::EndGame => self.end_fits(id),
            ClientMessageModel::Forfeit => self.forfeit_fits(id),
            _ => true,
        }
    }
}

impl Room {
    fn settings_on_request(
        &mut self,
        player_id: Uuid,
        mode: GameMode,
        idle_timeout_secs: Option<u64>,
        board_threshold: Option<u32>,
    ) -> (res: Result<(), String>)
        ensures
            gave(
                res,
                old(self)@,
                final(self)@,
                old(self)@.settings_answer(player_id, mode, idle_timeout_secs, board_threshold),
            ),
    {
        reveal(RoomModel::settings_answer);
        if player_id != self.host_id {
            return Err(String::from_str("Only the host can change settings"));
        }
        let threshold: u32 = match board_threshold {
            Some(threshold) => threshold,
            None => mode.default_board_threshold(),
        };
        self.update_settings(mode, idle_timeout_secs, threshold)
    }

    fn start_on_request(&mut self, player_id: Uuid, now: u64) -> (res: Result<(), String>)
        ensures
            gave(res, old(self)@, final(self)@, old(self)@.start_answer(player_id, now)),
    {
        reveal(RoomModel::start_answer);
        if player_id != self.host_id {
            return Err(String::from_str("Only the host can start"));
        }
        self.start_at(now)
    }

    fn roll_on_request(&mut self, player_id: Uuid, indices: &Vec<usize>, luck: &Luck) -> (res:
        Result<(), String>)
        requires
            old(self)@.awaiting_keep ==> old(self)@.keep_fits(player_id, indices@),
        ensures
            gave(
                res,
                old(self)@,
                final(self)@,
                old(self)@.roll_answer(player_id, indices@, luck@),
            ),
    {
        reveal(RoomModel::roll_answer);
        match self.prepare_roll_at(player_id, indices.as_slice(), luck.now) {
            Ok(count) => {
                if count > 0 {
                    self.land_roll_at(player_id, luck.dice.clone(), luck.now);
                }
                Ok(())
            },
            Err(words) => Err(words),
        }
    }

    fn select_on_request(&mut self, player_id: Uuid, indices: &Vec<usize>) -> (res: Result<
        (),
        String,
    >)
        ensures
            gave(res, old(self)@, final(self)@, old(self)@.select_answer(player_id, indices@)),
    {
        reveal(RoomModel::select_answer);
        self.select(player_id, indices.clone())
    }

    fn keep_on_request(&mut self, player_id: Uuid, indices: &Vec<usize>, now: u64) -> (res: Result<
        (),
        String,
    >)
        requires
            old(self)@.keep_fits(player_id, indices@),
        ensures
            gave(res, old(self)@, final(self)@, old(self)@.keep_answer(player_id, indices@, now)),
    {
        reveal(RoomModel::keep_answer);
        self.keep_at(player_id, indices.as_slice(), now)
    }

    fn bank_on_request(&mut self, player_id: Uuid, indices: &Vec<usize>, now: u64) -> (res: Result<
        (),
        String,
    >)
        requires
            old(self)@.bank_fits(player_id, indices@),
        ensures
            gave(res, old(self)@, final(self)@, old(self)@.bank_answer(player_id, indices@, now)),
    {
        reveal(RoomModel::bank_answer);
        self.bank_at(player_id, indices.as_slice(), now)
    }

    fn steal_on_request(&mut self, player_id: Uuid, luck: &Luck) -> (res: Result<(), String>)
        requires
            old(self)@.steal_fits(player_id, luck@.dice),
        ensures
            gave(res, old(self)@, final(self)@, old(self)@.steal_answer(player_id, luck@)),
    {
        reveal(RoomModel::steal_answer);
        self.steal_with(player_id, luck.dice.clone(), luck.now)
    }

    fn decline_on_request(&mut self, player_id: Uuid, now: u64) -> (res: Result<(), String>)
        requires
            old(self)@.decline_fits(player_id),
        ensures
            gave(res, old(self)@, final(self)@, old(self)@.decline_answer(player_id, now)),
    {
        reveal(RoomModel::decline_answer);
        self.decline_steal_at(player_id, now)
    }

    fn end_on_request(&mut self, player_id: Uuid) -> (res: Result<(), String>)
        requires
            old(self)@.end_fits(player_id),
        ensures
            gave(res, old(self)@, final(self)@, old(self)@.end_answer(player_id)),
    {
        reveal(RoomModel::end_answer);
        self.end_game(player_id)
    }

    fn forfeit_on_request(&mut self, player_id: Uuid, now: u64) -> (res: Result<(), String>)
        requires
            old(self)@.forfeit_fits(player_id),
        ensures
            gave(res, old(self)@, final(self)@, old(self)@.forfeit_answer(player_id, now)),
    {
        reveal(RoomModel::forfeit_answer);
        self.forfeit_at(player_id, ForfeitCause::Manual, now)
    }

    fn rematch_on_request(&mut self, player_id: Uuid) -> (res: Result<(), String>)
        ensures
            gave(res, old(self)@, final(self)@, old(self)@.rematch_answer(player_id)),
    {
        reveal(RoomModel::rematch_answer);
        self.rematch(player_id)
    }

    /// Carries out a request of a player with the given luck.
    pub fn perform(&mut self, player_id: Uuid, msg: &ClientMessage, luck: &Luck) -> (res: Result<
        (),
        String,
    >)
        requires
            old(self)@.request_fits(player_id, msg@, luck@),
        ensures
            gave(res, old(self)@, final(self)@, old(self)@.answer(player_id, msg@, luck@)),
    {
        reveal(RoomModel::request_fits);
        match msg {
            ClientMessage::UpdateSettings { mode, idle_timeout_secs, board_threshold } =>
            self.settings_on_request(player_id, *mode, *idle_timeout_secs, *board_threshold),
            ClientMessage::StartGame => self.start_on_request(player_id, luck.now),
            ClientMessage::Roll { indices } => self.roll_on_request(player_id, indices, luck),
            ClientMessage::Select { indices } => self.select_on_request(player_id, indices),
            ClientMessage::Keep { indices } => self.keep_on_request(player_id, indices, luck.now),
            ClientMessage::Bank { indices } => self.bank_on_request(player_id, indices, luck.now),
            ClientMessage::Steal => self.steal_on_request(player_id, luck),
            ClientMessage::DeclineSteal => self.decline_on_request(player_id, luck.now),
            ClientMessage::EndGame => self.end_on_request(player_id),
            ClientMessage::Forfeit => self.forfeit_on_request(player_id, luck.now),
            ClientMessage::Rematch => self.rematch_on_request(player_id),
            _ => Ok(()),
        }
    }

    /// Counts the dice that a request calls for.
    pub fn dice_called_for(&self, player_id: Uuid, msg: &ClientMessage) -> (res: usize)
        ensures
            res == self@.dice_called_for(player_id, msg@),
    {
        reveal(RoomModel::dice_called_for);
        match msg {
            ClientMessage::Roll { indices } => {
                if self.awaiting_keep && !self.keep_fits(player_id, indices) {
                    return 0;
                }
                let mut trial = self.duplicate();
                match trial.prepare_roll_at(player_id, indices.as_slice(), 0) {
                    Ok(count) => count,
                    Err(_) => 0,
                }
            },
            ClientMessage::Steal => self.dice_to_steal(player_id),
            _ => 0,
        }
    }

    fn pending_fits(&self) -> (res: bool)
        ensures
            res == self@.pending_fits(),
    {
        match &self.pending_bank {
            Some(p) => match self.player_index(p.player_id) {
                Some(i) => {
                    assert(self@.players[i as int] == self.players@[i as int]@);
                    p.points <= u32::MAX - self.players[i].score
                },
                None => true,
            },
            None => true,
        }
    }

    fn keep_fits(&self, player_id: Uuid, indices: &Vec<usize>) -> (res: bool)
        ensures
            res == self@.keep_fits(player_id, indices@),
    {
        if self.check_turn(player_id, "Cannot keep dice now").is_err() || !self.awaiting_keep
            || self.dice.len() == 0 {
            return true;
        }
        if !held_points_fit(self.mode, self.dice.as_slice(), indices.as_slice()) {
            return false;
        }
        match score_held(self.mode, self.dice.as_slice(), indices.as_slice()) {
            Some(held) => {
                if self.check_keep_legal(held.points, held.auto_win).is_err() {
                    true
                } else {
                    held.points <= u32::MAX - self.turn_points
                }
            },
            None => true,
        }
    }

    fn bank_fits(&self, player_id: Uuid, indices: &Vec<usize>) -> (res: bool)
        ensures
            res == self@.bank_fits(player_id, indices@),
    {
        if self.check_turn(player_id, "Cannot bank now").is_err() || !self.awaiting_keep {
            return true;
        }
        if !held_points_fit(self.mode, self.dice.as_slice(), indices.as_slice()) {
            return false;
        }
        match score_held(self.mode, self.dice.as_slice(), indices.as_slice()) {
            Some(held) => {
                if !held.auto_win && self.check_bank_legal(
                    self.turn_points.saturating_add(held.points),
                ).is_err() {
                    true
                } else {
                    held.points <= u32::MAX - self.turn_points
                }
            },
            None => true,
        }
    }

    fn forfeit_fits(&self, player_id: Uuid) -> (res: bool)
        ensures
            res == self@.forfeit_fits(player_id),
    {
        if self.phase != GamePhase::Playing && self.phase != GamePhase::StealWindow {
            return true;
        }
        match self.player_index(player_id) {
            None => true,
            Some(i) => {
                assert(self@.players[i as int] == self.players@[i as int]@);
                if self.players[i].forfeited {
                    return true;
                }
                proof {
                    let p = self@.players[i as int];
                    lemma_active_out(
                        self@.players,
                        i as int,
                        PlayerModel { forfeited: true, ..p },
                    );
                }
                let declines = self.phase == GamePhase::StealWindow
                    && match self.acting_player_id() {
                    Some(actor) => actor == player_id,
                    None => false,
                };
                if self.active_count() <= 2 || declines {
                    self.pending_fits()
                } else {
                    true
                }
            },
        }
    }

    /// Tells whether giving up a seat keeps the numbers of the room in range.
    pub fn vacate_fits(&self, seat_key: Uuid) -> (res: bool)
        ensures
            res == self@.vacate_fits(seat_key),
    {
        match self.seat_index(seat_key) {
            Some(i) => {
                assert(self@.players[i as int] == self.players@[i as int]@);
                let plays = self.phase == GamePhase::Playing || self.phase
                    == GamePhase::StealWindow;
                if plays && !self.players[i].forfeited {
                    self.forfeit_fits(self.players[i].id)
                } else {
                    true
                }
            },
            None => true,
        }
    }

    /// Tells whether looking for a timeout keeps the numbers of the room in range.
    pub fn timeout_fits(&self, now: u64) -> (res: bool)
        ensures
            res == self@.timeout_fits(now),
    {
        if self.phase != GamePhase::Playing && self.phase != GamePhase::StealWindow {
            return true;
        }
        match self.action_deadline_ms {
            Some(deadline) => {
                if now < deadline {
                    return true;
                }
                match self.acting_player_id() {
                    Some(actor) => self.forfeit_fits(actor),
                    None => true,
                }
            },
            None => true,
        }
    }

    /// Tells whether a request keeps the numbers of the room in range.
    pub fn request_fits(&self, player_id: Uuid, msg: &ClientMessage, luck: &Luck) -> (res: bool)
        ensures
            res == self@.request_fits(player_id, msg@, luck@),
    {
        reveal(RoomModel::request_fits);
        match msg {
            ClientMessage::Roll { indices } => {
                !self.awaiting_keep || self.keep_fits(player_id, indices)
            },
            ClientMessage::Keep { indices } => self.keep_fits(player_id, indices),
            ClientMessage::Bank { indices } => self.bank_fits(player_id, indices),
            ClientMessage::Steal => match self.check_steal(player_id) {
                Ok(pending) => self.pending_fits() || !self.steal_busts(&pending, &luck.dice),
                Err(_) => true,
            },
            ClientMessage::DeclineSteal => {
                self.check_decline(player_id).is_err() || self.pending_fits()
            },
            ClientMessage::EndGame => {
                player_id != self.host_id || (self.phase != GamePhase::Playing && self.phase
                    != GamePhase::StealWindow) || self.pending_fits()
            },
            ClientMessage::Forfeit => self.forfeit_fits(player_id),
            _ => true,
        }
    }
}

} // verus!