//! The game's constants, and the messages that clients and server exchange.

use crate::ids::Uuid;
use vstd::prelude::*;
use vstd::string::StringExecFns;

verus! {

/// The score that wins a game.
pub const WIN_SCORE: u32 = 10_000;

pub const BONES_BOARD_THRESHOLD: u32 = 1_000;

pub const FARKLE_BOARD_THRESHOLD: u32 = 500;

pub const BONES_DICE_COUNT: usize = 5;

pub const FARKLE_DICE_COUNT: usize = 6;

/// Allowed idle forfeit durations (seconds). `None` disables the timer.
pub const IDLE_TIMEOUT_OPTIONS_SECS: [u64; 8] = [30, 60, 120, 300, 600, 900, 1_200, 1_800];

/// Keepalive interval. Stays well under typical proxy idle timeouts (~100s).
pub const WS_PING_INTERVAL_MS: u64 = 20_000;

/// Tells whether an idle forfeit duration is one of the allowed ones.
pub fn is_idle_option(secs: u64) -> (res: bool)
    ensures
        res == IDLE_TIMEOUT_OPTIONS_SECS@.contains(secs),
{
    let mut i: usize = 0;
    while i < IDLE_TIMEOUT_OPTIONS_SECS.len()
        invariant
            i <= IDLE_TIMEOUT_OPTIONS_SECS@.len(),
            forall|k: int| 0 <= k < i ==> IDLE_TIMEOUT_OPTIONS_SECS@[k] != secs,
        decreases IDLE_TIMEOUT_OPTIONS_SECS@.len() - i,
    {
        if IDLE_TIMEOUT_OPTIONS_SECS[i] == secs {
            return true;
        }
        i += 1;
    }
    false
}

/// Which game a room plays.
#[derive(Clone, Copy, Debug, Default, PartialEq, Eq, Structural)]
pub enum GameMode {
    #[default]
    Bones,
    Farkle,
}

impl GameMode {
    /// The number of dice of a full roll.
    pub open spec fn full_roll(self) -> usize {
        match self {
            GameMode::Bones => BONES_DICE_COUNT,
            GameMode::Farkle => FARKLE_DICE_COUNT,
        }
    }

    /// The points that a turn needs by default to get on the board.
    pub open spec fn board_default(self) -> u32 {
        match self {
            GameMode::Bones => BONES_BOARD_THRESHOLD,
            GameMode::Farkle => FARKLE_BOARD_THRESHOLD,
        }
    }

    /// The name of the game.
    pub open spec fn title(self) -> Seq<char> {
        match self {
            GameMode::Bones => "Bones"@,
            GameMode::Farkle => "Farkle"@,
        }
    }

    pub fn dice_count(self) -> (res: usize)
        ensures
            res == self.full_roll(),
    {
        match self {
            GameMode::Bones => BONES_DICE_COUNT,
            GameMode::Farkle => FARKLE_DICE_COUNT,
        }
    }

    pub fn default_board_threshold(self) -> (res: u32)
        ensures
            res == self.board_default(),
    {
        match self {
            GameMode::Bones => BONES_BOARD_THRESHOLD,
            GameMode::Farkle => FARKLE_BOARD_THRESHOLD,
        }
    }

    pub fn label(self) -> (res: &'static str)
        ensures
            res@ == self.title(),
    {
        match self {
            GameMode::Bones => "Bones",
            GameMode::Farkle => "Farkle",
        }
    }
}

/// Where a room stands between its lobby and its result.
#[derive(Clone, Copy, Debug, PartialEq, Eq, Structural)]
pub enum GamePhase {
    Lobby,
    Playing,
    StealWindow,
    Finished,
}

/// What a client asks of the server.
#[derive(Clone, Debug)]
pub enum ClientMessage {
    CreateGame { name: String, seat_key: Uuid },
    JoinGame { code: String, name: String, seat_key: Uuid },
    UpdateSettings {
        mode: GameMode,
        /// `None` disables idle forfeit. Otherwise one of the allowed durations.
        idle_timeout_secs: Option<u64>,
        /// Omitted by older clients; the server then uses the mode default.
        board_threshold: Option<u32>,
    },
    StartGame,
    Roll { indices: Vec<usize> },
    Select { indices: Vec<usize> },
    Keep { indices: Vec<usize> },
    Bank { indices: Vec<usize> },
    Steal,
    DeclineSteal,
    EndGame,
    Forfeit,
    Rematch,
    LeaveGame,
    /// Quiet snapshot request: the same as a refresh without reclaiming the seat.
    Sync,
    Pong,
}

/// A client message, with texts and lists as sequences.
pub enum ClientMessageModel {
    CreateGame { name: Seq<char>, seat_key: Uuid },
    JoinGame { code: Seq<char>, name: Seq<char>, seat_key: Uuid },
    UpdateSettings {
        mode: GameMode,
        idle_timeout_secs: Option<u64>,
        board_threshold: Option<u32>,
    },
    StartGame,
    Roll { indices: Seq<usize> },
    Select { indices: Seq<usize> },
    Keep { indices: Seq<usize> },
    Bank { indices: Seq<usize> },
    Steal,
    DeclineSteal,
    EndGame,
    Forfeit,
    Rematch,
    LeaveGame,
    Sync,
    Pong,
}

impl View for ClientMessage {
    type V = ClientMessageModel;

    open spec fn view(&self) -> ClientMessageModel {
        match *self {
            ClientMessage::CreateGame { name, seat_key } => ClientMessageModel::CreateGame {
                name: name@,
                seat_key,
            },
            ClientMessage::JoinGame { code, name, seat_key } => ClientMessageModel::JoinGame {
                code: code@,
                name: name@,
                seat_key,
            },
            ClientMessage::UpdateSettings { mode, idle_timeout_secs, board_threshold } =>
                ClientMessageModel::UpdateSettings { mode, idle_timeout_secs, board_threshold },
            ClientMessage::StartGame => ClientMessageModel::StartGame,
            ClientMessage::Roll { indices } => ClientMessageModel::Roll { indices: indices@ },
            ClientMessage::Select { indices } => ClientMessageModel::Select { indices: indices@ },
            ClientMessage::Keep { indices } => ClientMessageModel::Keep { indices: indices@ },
            ClientMessage::Bank { indices } => ClientMessageModel::Bank { indices: indices@ },
            ClientMessage::Steal => ClientMessageModel::Steal,
            ClientMessage::DeclineSteal => ClientMessageModel::DeclineSteal,
            ClientMessage::EndGame => ClientMessageModel::EndGame,
            ClientMessage::Forfeit => ClientMessageModel::Forfeit,
            ClientMessage::Rematch => ClientMessageModel::Rematch,
            ClientMessage::LeaveGame => ClientMessageModel::LeaveGame,
            ClientMessage::Sync => ClientMessageModel::Sync,
            ClientMessage::Pong => ClientMessageModel::Pong,
        }
    }
}

/// What the server tells a client.
#[derive(Clone, Debug)]
pub enum ServerMessage {
    Welcome { player_id: Uuid },
    Error { message: String },
    GameCreated { code: String, player_id: Uuid, invite_path: String },
    Joined { code: String, player_id: Uuid, invite_path: String },
    State(GameView),
    Ping,
}

/// A server message, with texts and lists as sequences.
pub enum ServerMessageModel {
    Welcome { player_id: Uuid },
    Error { message: Seq<char> },
    GameCreated { code: Seq<char>, player_id: Uuid, invite_path: Seq<char> },
    Joined { code: Seq<char>, player_id: Uuid, invite_path: Seq<char> },
    State(GameViewModel),
    Ping,
}

impl View for ServerMessage {
    type V = ServerMessageModel;

    open spec fn view(&self) -> ServerMessageModel {
        match *self {
            ServerMessage::Welcome { player_id } => ServerMessageModel::Welcome { player_id },
            ServerMessage::Error { message } => ServerMessageModel::Error { message: message@ },
            ServerMessage::GameCreated { code, player_id, invite_path } =>
                ServerMessageModel::GameCreated {
                code: code@,
                player_id,
                invite_path: invite_path@,
            },
            ServerMessage::Joined { code, player_id, invite_path } => ServerMessageModel::Joined {
                code: code@,
                player_id,
                invite_path: invite_path@,
            },
            ServerMessage::State(view) => ServerMessageModel::State(view@),
            ServerMessage::Ping => ServerMessageModel::Ping,
        }
    }
}

/// A room as one of its players sees it.
#[derive(Clone, Debug)]
pub struct GameView {
    pub code: String,
    pub invite_path: String,
    pub phase: GamePhase,
    pub mode: GameMode,
    pub board_threshold: u32,
    pub dice_count: usize,
    pub idle_timeout_secs: Option<u64>,
    pub players: Vec<PlayerView>,
    pub current_player_id: Option<Uuid>,
    pub you_are: Uuid,
    pub host_id: Uuid,
    pub dice: Vec<u8>,
    pub selected: Vec<usize>,
    pub turn_points: u32,
    pub awaiting_keep: bool,
    pub bust: bool,
    pub pending_bank: Option<PendingBankView>,
    pub steal_available: bool,
    pub you_can_act: bool,
    pub message: String,
    pub winner_id: Option<Uuid>,
    pub action_deadline_ms: Option<u64>,
}

/// A row of the scoreboard.
#[derive(Clone, Debug)]
pub struct PlayerView {
    pub id: Uuid,
    pub name: String,
    pub score: u32,
    pub on_board: bool,
    pub connected: bool,
    pub forfeited: bool,
}

/// Points that wait for the next player to steal or decline.
#[derive(Clone, Copy, Debug)]
pub struct PendingBankView {
    pub player_id: Uuid,
    pub points: u32,
    pub leftover: usize,
}

/// A game view, with texts and lists as sequences.
#[verifier::ext_equal]
pub struct GameViewModel {
    pub code: Seq<char>,
    pub invite_path: Seq<char>,
    pub phase: GamePhase,
    pub mode: GameMode,
    pub board_threshold: u32,
    pub dice_count: usize,
    pub idle_timeout_secs: Option<u64>,
    pub players: Seq<PlayerViewModel>,
    pub current_player_id: Option<Uuid>,
    pub you_are: Uuid,
    pub host_id: Uuid,
    pub dice: Seq<u8>,
    pub selected: Seq<usize>,
    pub turn_points: u32,
    pub awaiting_keep: bool,
    pub bust: bool,
    pub pending_bank: Option<PendingBankView>,
    pub steal_available: bool,
    pub you_can_act: bool,
    pub message: Seq<char>,
    pub winner_id: Option<Uuid>,
    pub action_deadline_ms: Option<u64>,
}

/// A scoreboard row, with the name as a sequence.
#[verifier::ext_equal]
pub struct PlayerViewModel {
    pub id: Uuid,
    pub name: Seq<char>,
    pub score: u32,
    pub on_board: bool,
    pub connected: bool,
    pub forfeited: bool,
}

impl View for PlayerView {
    type V = PlayerViewModel;

    open spec fn view(&self) -> PlayerViewModel {
        PlayerViewModel {
            id: self.id,
            name: self.name@,
            score: self.score,
            on_board: self.on_board,
            connected: self.connected,
            forfeited: self.forfeited,
        }
    }
}

impl View for GameView {
    type V = GameViewModel;

    open spec fn view(&self) -> GameViewModel {
        GameViewModel {
            code: self.code@,
            invite_path: self.invite_path@,
            phase: self.phase,
            mode: self.mode,
            board_threshold: self.board_threshold,
            dice_count: self.dice_count,
            idle_timeout_secs: self.idle_timeout_secs,
            players: self.players@.map_values(|p: PlayerView| p@),
            current_player_id: self.current_player_id,
            you_are: self.you_are,
            host_id: self.host_id,
            dice: self.dice@,
            selected: self.selected@,
            turn_points: self.turn_points,
            awaiting_keep: self.awaiting_keep,
            bust: self.bust,
            pending_bank: self.pending_bank,
            steal_available: self.steal_available,
            you_can_act: self.you_can_act,
            message: self.message@,
            winner_id: self.winner_id,
            action_deadline_ms: self.action_deadline_ms,
        }
    }
}

/// The path of the page that invites to a room.
pub open spec fn invitation(code: Seq<char>) -> Seq<char> {
    "/g/"@ + code
}

/// Writes the path of the page that invites to a room.
pub fn invite_path(code: &str) -> (res: String)
    ensures
        res@ == invitation(code@),
{
    String::from_str("/g/").concat(code)
}

} // verus!
