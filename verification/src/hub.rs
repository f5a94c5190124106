//! The hub: it holds the rooms of this process and works off what players, the store and the
//! clock ask of them.

use crate::game::{Player, Room};
use crate::hub_model::{
    CODE_TRIES, HubModel, JobModel, StoreCallModel, StoreReplyModel, VisitModel, WaitModel,
    command_jobs, gone_jobs, remote_jobs, replies_to,
};
use crate::ids::Uuid;
use crate::protocol::{ClientMessage, ServerMessage, ServerMessageModel, invite_path};
use crate::requests::{Luck, LuckModel};
use crate::room_model::RoomModel;
use crate::rooms::{GameRooms, PlayerRooms};
use crate::store::StoreEvent;
use crate::text::{opt_text, sanitize_name, texts, trim};
use vstd::prelude::*;

verus! {

/// Why a room is entered.
#[derive(Clone, Debug)]
pub enum Visit {
    /// Only to have it up to date.
    Reload,
    Join { player: Uuid, name: String, seat_key: Uuid },
    Act { player: Uuid, msg: ClientMessage },
    Show { player: Uuid },
}

impl View for Visit {
    type V = VisitModel;

    open spec fn view(&self) -> VisitModel {
        match *self {
            Visit::Reload => VisitModel::Reload,
            Visit::Join { player, name, seat_key } => VisitModel::Join {
                player,
                name: name@,
                seat_key,
            },
            Visit::Act { player, msg } => VisitModel::Act { player, msg: msg@ },
            Visit::Show { player } => VisitModel::Show { player },
        }
    }
}

/// What is left to do.
#[derive(Clone, Debug)]
pub enum Job {
    /// See to what a connection has sent.
    Command { player: Uuid, msg: ClientMessage },
    /// Note that a connection is gone.
    Disconnect { player: Uuid },
    /// Take over a change that another process has made.
    Remote { event: StoreEvent },
    /// Look at every room for a player whose time is up.
    Expire,
    /// Look at the rest of the rooms.
    ExpireNext { now: u64, codes: Vec<String>, at: usize, dirty: Vec<String> },
    /// Open a room for a player.
    Create { player: Player, tries: usize },
    /// Fetch a room from the store and then enter it.
    Load { code: String, visit: Visit },
    /// Do in a room what it is entered for.
    Enter { code: String, visit: Visit },
    /// Give up a seat in every room but one, wherever it is.
    Vacate { seat_key: Uuid, keep: Option<String> },
    /// Give up a seat in every room of this process but one.
    Sweep { seat_key: Uuid, keep: Option<String> },
    /// Give up a seat in the rest of the rooms.
    SweepNext {
        seat_key: Uuid,
        codes: Vec<String>,
        at: usize,
        empty: Vec<String>,
        dirty: Vec<String>,
    },
    /// Take empty rooms away.
    Purge { codes: Vec<String>, at: usize },
    /// Show rooms to their players, and save them first where asked to.
    Refresh { codes: Vec<String>, at: usize, save: bool },
    /// Tell the store which room a seat is in.
    SetSeat { seat_key: Uuid, code: String },
    /// Save a room.
    Persist { code: String },
    /// Note that a connection is in a room, and tell it so.
    Greet { player: Uuid, code: String, created: bool },
    /// Show a room to its players.
    Broadcast { code: String },
}

impl View for Job {
    type V = JobModel;

    open spec fn view(&self) -> JobModel {
        match *self {
            Job::Command { player, msg } => JobModel::Command { player, msg: msg@ },
            Job::Disconnect { player } => JobModel::Disconnect { player },
            Job::Remote { event } => JobModel::Remote { event: event@ },
            Job::Expire => JobModel::Expire,
            Job::ExpireNext { now, codes, at, dirty } => JobModel::ExpireNext {
                now,
                codes: texts(codes@),
                at,
                dirty: texts(dirty@),
            },
            Job::Create { player, tries } => JobModel::Create { player: player@, tries },
            Job::Load { code, visit } => JobModel::Load { code: code@, visit: visit@ },
            Job::Enter { code, visit } => JobModel::Enter { code: code@, visit: visit@ },
            Job::Vacate { seat_key, keep } => JobModel::Vacate { seat_key, keep: opt_text(keep) },
            Job::Sweep { seat_key, keep } => JobModel::Sweep { seat_key, keep: opt_text(keep) },
            Job::SweepNext { seat_key, codes, at, empty, dirty } => JobModel::SweepNext {
                seat_key,
                codes: texts(codes@),
                at,
                empty: texts(empty@),
                dirty: texts(dirty@),
            },
            Job::Purge { codes, at } => JobModel::Purge { codes: texts(codes@), at },
            Job::Refresh { codes, at, save } => JobModel::Refresh {
                codes: texts(codes@),
                at,
                save,
            },
            Job::SetSeat { seat_key, code } => JobModel::SetSeat { seat_key, code: code@ },
            Job::Persist { code } => JobModel::Persist { code: code@ },
            Job::Greet { player, code, created } => JobModel::Greet {
                player,
                code: code@,
                created,
            },
            Job::Broadcast { code } => JobModel::Broadcast { code: code@ },
        }
    }
}

/// What is asked of the store.
#[derive(Clone, Debug)]
pub enum StoreCall {
    Get { code: String },
    /// Save a room whose code is not taken.
    Create { room: Room },
    /// Save a room in place of the expected version.
    Update { room: Room, expected: u64 },
    Delete { code: String },
    GetSeat { seat_key: Uuid },
    SetSeat { seat_key: Uuid, code: String },
    DelSeat { seat_key: Uuid },
}

impl View for StoreCall {
    type V = StoreCallModel;

    open spec fn view(&self) -> StoreCallModel {
        match *self {
            StoreCall::Get { code } => StoreCallModel::Get { code: code@ },
            StoreCall::Create { room } => StoreCallModel::Create { room: room@ },
            StoreCall::Update { room, expected } => StoreCallModel::Update {
                room: room@,
                expected,
            },
            StoreCall::Delete { code } => StoreCallModel::Delete { code: code@ },
            StoreCall::GetSeat { seat_key } => StoreCallModel::GetSeat { seat_key },
            StoreCall::SetSeat { seat_key, code } => StoreCallModel::SetSeat {
                seat_key,
                code: code@,
            },
            StoreCall::DelSeat { seat_key } => StoreCallModel::DelSeat { seat_key },
        }
    }
}

/// What the hub does once the store has replied.
#[derive(Clone, Debug)]
pub enum Wait {
    Load { code: String, visit: Visit },
    Insert { player: Player, code: String, tries: usize },
    Save { code: String, version: u64 },
    Seat { seat_key: Uuid, keep: Option<String> },
    Done,
}

impl View for Wait {
    type V = WaitModel;

    open spec fn view(&self) -> WaitModel {
        match *self {
            Wait::Load { code, visit } => WaitModel::Load { code: code@, visit: visit@ },
            Wait::Insert { player, code, tries } => WaitModel::Insert {
                player: player@,
                code: code@,
                tries,
            },
            Wait::Save { code, version } => WaitModel::Save { code: code@, version },
            Wait::Seat { seat_key, keep } => WaitModel::Seat { seat_key, keep: opt_text(keep) },
            Wait::Done => WaitModel::Done,
        }
    }
}

/// What the store replies.
#[derive(Debug)]
pub enum StoreReply {
    Room(Result<Option<Room>, String>),
    Saved(Result<bool, String>),
    Seat(Result<Option<String>, String>),
    Done,
}

impl View for StoreReply {
    type V = StoreReplyModel;

    open spec fn view(&self) -> StoreReplyModel {
        match *self {
            StoreReply::Room(got) => StoreReplyModel::Room(
                match got {
                    Ok(Some(room)) => Ok(Some(room@)),
                    Ok(None) => Ok(None),
                    Err(words) => Err(words@),
                },
            ),
            StoreReply::Saved(saved) => StoreReplyModel::Saved(
                match saved {
                    Ok(ok) => Ok(ok),
                    Err(words) => Err(words@),
                },
            ),
            StoreReply::Seat(got) => StoreReplyModel::Seat(
                match got {
                    Ok(code) => Ok(opt_text(code)),
                    Err(words) => Err(words@),
                },
            ),
            StoreReply::Done => StoreReplyModel::Done,
        }
    }
}

/// A message from a connection.
#[derive(Clone, Debug)]
pub struct NetCommand {
    pub player_id: Uuid,
    pub msg: ClientMessage,
}

/// The rooms of this process, and what is left to do with them.
pub struct Hub {
    pub rooms: GameRooms,
    pub members: PlayerRooms,
    /// There is a shared store.
    pub stored: bool,
    /// What is left to do, the next job last.
    pub jobs: Vec<Job>,
    /// What the hub waits for, if it waits for the store.
    pub waiting: Option<Wait>,
    /// What is to be sent, in order.
    pub outbox: Vec<(Uuid, ServerMessage)>,
}

impl View for Hub {
    type V = HubModel;

    open spec fn view(&self) -> HubModel {
        HubModel {
            rooms: self.rooms@,
            members: self.members@,
            stored: self.stored,
            jobs: Seq::new(self.jobs@.len(), |i: int| self.jobs@[i]@),
            waiting: match self.waiting {
                Some(waiting) => Some(waiting@),
                None => None,
            },
            outbox: Seq::new(
                self.outbox@.len(),
                |i: int| (self.outbox@[i].0, self.outbox@[i].1@),
            ),
        }
    }
}

/// The call that a step has handed out.
pub open spec fn opt_call(call: Option<StoreCall>) -> Option<StoreCallModel> {
    match call {
        Some(call) => Some(call@),
        None => None,
    }
}

impl Hub {
    /// A hub without rooms and with nothing to do.
    pub fn new(stored: bool) -> (res: Hub)
        ensures
            res@ == (HubModel {
                rooms: seq![],
                members: seq![],
                stored,
                jobs: seq![],
                waiting: None,
                outbox: seq![],
            }),
    {
        let res = Hub {
            rooms: GameRooms::new(),
            members: PlayerRooms::new(),
            stored,
            jobs: Vec::new(),
            waiting: None,
            outbox: Vec::new(),
        };
        assert(res@.jobs =~= seq![]);
        assert(res@.outbox =~= seq![]);
        res
    }

    // -- parts of steps ------------------------------------------------------

    /// Puts a job on top of the stack.
    pub fn schedule(&mut self, job: Job)
        ensures
            final(self)@ == old(self)@.then_do(job@),
    {
        let ghost before = self@;
        self.jobs.push(job);
        assert(self@ =~= before.then_do(job@));
    }

    fn send(&mut self, to: Uuid, msg: ServerMessage)
        ensures
            final(self)@ == old(self)@.sent(to, msg@),
            final(self).rooms == old(self).rooms,
    {
        let ghost before = self@;
        self.outbox.push((to, msg));
        assert(self@ =~= before.sent(to, msg@));
    }

    fn tell(&mut self, to: Uuid, words: String)
        ensures
            final(self)@ == old(self)@.told(to, words@),
    {
        self.send(to, ServerMessage::Error { message: words });
    }

    fn wait(&mut self, waiting: Wait)
        ensures
            final(self)@ == (HubModel { waiting: Some(waiting@), ..old(self)@ }),
    {
        self.waiting = Some(waiting);
        assert(self@ =~= (HubModel { waiting: Some(waiting@), ..old(self)@ }));
    }

    fn notify_store(&mut self, call: StoreCall) -> (res: Option<StoreCall>)
        ensures
            final(self)@ == old(self)@.notifies(call@).hub,
            opt_call(res) == old(self)@.notifies(call@).call,
    {
        if self.stored {
            self.wait(Wait::Done);
            Some(call)
        } else {
            None
        }
    }

    fn visit(&mut self, code: String, visit: Visit)
        ensures
            final(self)@ == old(self)@.visits(code@, visit@),
    {
        if self.stored {
            self.schedule(Job::Load { code, visit });
        } else {
            self.schedule(Job::Enter { code, visit });
        }
    }

    fn save_and_show(&mut self, code: String)
        ensures
            final(self)@ == old(self)@.saves_and_shows(code@),
    {
        self.schedule(Job::Broadcast { code: code.clone() });
        self.schedule(Job::Persist { code });
    }

    fn turn_away(&mut self, visit: Visit, words: String)
        ensures
            final(self)@ == old(self)@.turned_away(visit@, words@),
    {
        match visit {
            Visit::Join { player, .. } => self.tell(player, words),
            Visit::Act { player, .. } => self.tell(player, words),
            Visit::Show { .. } | Visit::Reload => {},
        }
    }

    fn put_room(&mut self, i: usize, room: Room)
        requires
            i < old(self)@.rooms.len(),
        ensures
            final(self)@ == old(self)@.with_room(i as int, room@),
    {
        self.rooms.put(i, room);
    }

    fn upsert_room(&mut self, room: Room)
        ensures
            final(self)@ == old(self)@.upserted(room@),
    {
        self.rooms.upsert(room);
    }

    fn delete_local_room(&mut self, code: &str)
        ensures
            final(self)@ == old(self)@.dropped(code@),
    {
        self.rooms.drop_room(code);
    }

    // -- jobs ----------------------------------------------------------------

    fn handle_command(&mut self, player: Uuid, msg: ClientMessage)
        ensures
            final(self)@ == old(self)@.command(player, msg@),
    {
        match msg {
            ClientMessage::CreateGame { name, seat_key } => {
                let name = sanitize_name(name.as_str());
                self.schedule(
                    Job::Create {
                        player: Player::seated(player, seat_key, name),
                        tries: CODE_TRIES,
                    },
                );
            },
            ClientMessage::JoinGame { code, name, seat_key } => {
                let code = trim(code.as_str()).as_str().to_uppercase();
                let name = sanitize_name(name.as_str());
                self.visit(code, Visit::Join { player, name, seat_key });
            },
            ClientMessage::LeaveGame => self.leave_player(player),
            ClientMessage::Pong => {},
            ClientMessage::Sync => {
                if let Some(code) = self.members.get(player) {
                    self.visit(code, Visit::Show { player });
                }
            },
            msg => {
                match self.members.get(player) {
                    Some(code) => self.visit(code, Visit::Act { player, msg }),
                    None => self.tell(player, String::from_str("You are not in a game")),
                }
            },
        }
    }

    fn leave_player(&mut self, player: Uuid)
        ensures
            final(self)@ == old(self)@.leave(player),
    {
        if let Some(code) = self.members.get(player) {
            let seat = match self.rooms.get(code.as_str()) {
                Some(room) => {
                    match room.player_index(player) {
                        Some(i) => {
                            assert(room@.players[i as int] == room.players@[i as int]@);
                            Some(room.players[i].seat_key)
                        },
                        None => None,
                    }
                },
                None => None,
            };
            if let Some(seat_key) = seat {
                self.schedule(Job::Vacate { seat_key, keep: None });
            }
        }
    }

    /// Notes that a connection is gone.
    pub fn mark_disconnected(&mut self, player: Uuid)
        ensures
            final(self)@ == old(self)@.disconnect(player),
    {
        if let Some(code) = self.members.get(player) {
            if let Some(i) = self.rooms.find(code.as_str()) {
                let mut room = self.rooms.rooms[i].duplicate();
                if room.mark_disconnected(player) {
                    self.put_room(i, room);
                    self.save_and_show(code);
                }
            }
        }
    }

    fn apply_remote_event(&mut self, event: StoreEvent)
        ensures
            final(self)@ == old(self)@.remote(event@),
    {
        match event {
            StoreEvent::Upsert { room } => {
                let code = room.code.clone();
                let stale = match self.rooms.get(code.as_str()) {
                    Some(local) => local.version >= room.version,
                    None => false,
                };
                self.upsert_room(room);
                if !stale {
                    self.schedule(Job::Broadcast { code });
                }
            },
            StoreEvent::Delete { code } => self.delete_local_room(code.as_str()),
        }
    }

    fn start_expiry(&mut self, now: u64)
        ensures
            final(self)@ == old(self)@.expire(now),
    {
        let codes = self.rooms.codes_but(&None);
        let dirty: Vec<String> = Vec::new();
        assert(texts(dirty@) =~= seq![]);
        self.schedule(Job::ExpireNext { now, codes, at: 0, dirty });
    }

    fn greet(&mut self, player: Uuid, code: String, created: bool)
        ensures
            final(self)@ == old(self)@.greet(player, code@, created),
    {
        self.members.track(player, code.as_str());
        let invite_path = invite_path(code.as_str());
        let msg = if created {
            ServerMessage::GameCreated { code: code.clone(), player_id: player, invite_path }
        } else {
            ServerMessage::Joined { code: code.clone(), player_id: player, invite_path }
        };
        self.send(player, msg);
        self.broadcast_room(code.as_str());
    }

    /// Shows a room to its players.
    pub fn broadcast_room(&mut self, code: &str)
        ensures
            final(self)@ == old(self)@.broadcast(code@),
    {
        if let Some(r) = self.rooms.find(code) {
            let ghost before = self@;
            let ghost room = self.rooms.rooms@[r as int]@;
            let mut i: usize = 0;
            assert(before.outbox + room.news().take(0) =~= before.outbox);
            while i < self.rooms.rooms[r].players.len()
                invariant
                    r < self.rooms.rooms@.len(),
                    room == self.rooms.rooms@[r as int]@,
                    i <= room.players.len(),
                    self@ == (HubModel { outbox: self@.outbox, ..before }),
                    self@.outbox == before.outbox + room.news().take(i as int),
                decreases room.players.len() - i,
            {
                let id = self.rooms.rooms[r].players[i].id;
                let view = self.rooms.rooms[r].view_for(id);
                assert(room.players[i as int].id == id);
                self.send(id, ServerMessage::State(view));
                assert(room.news().take(i + 1) =~= room.news().take(i as int).push(
                    (id, ServerMessageModel::State(room.seen_by(id))),
                ));
                i += 1;
                assert(self@.outbox =~= before.outbox + room.news().take(i as int));
            }
            assert(room.news().take(i as int) =~= room.news());
        }
    }

    fn expire_next(
        &mut self,
        now: u64,
        codes: Vec<String>,
        at: usize,
        dirty: Vec<String>,
        luck: &Luck,
    )
        requires
            at < codes@.len() ==> old(self)@.expiry_fits(codes@[at as int]@, now),
        ensures
            final(self)@ == old(self)@.expire_next(now, texts(codes@), at, texts(dirty@), luck@),
    {
        reveal(RoomModel::is_overdue);
        reveal(RoomModel::with_actor_out);
        if at >= codes.len() {
            self.schedule(Job::Refresh { codes: dirty, at: 0, save: false });
            return;
        }
        let code = codes[at].clone();
        if let Some(i) = self.rooms.find(code.as_str()) {
            let mut room = self.rooms.rooms[i].duplicate();
            if room.check_timeout_at(now, luck.now) {
                self.put_room(i, room);
                let mut dirty = dirty;
                let ghost before = texts(dirty@);
                dirty.push(code.clone());
                assert(texts(dirty@) =~= before.push(code@));
                self.schedule(Job::ExpireNext { now, codes, at: at + 1, dirty });
                self.schedule(Job::Persist { code });
                return;
            }
        }
        self.schedule(Job::ExpireNext { now, codes, at: at + 1, dirty });
    }

    fn insert_new_room(&mut self, player: Player, tries: usize, luck: &Luck) -> (res: Option<
        StoreCall,
    >)
        ensures
            final(self)@ == old(self)@.create(player@, tries, luck@).hub,
            opt_call(res) == old(self)@.create(player@, tries, luck@).call,
    {
        if tries == 0 {
            self.tell(player.id, String::from_str("Could not create a room"));
            return None;
        }
        if self.rooms.find(luck.code.as_str()).is_some() {
            self.schedule(Job::Create { player, tries: tries - 1 });
            return None;
        }
        if self.stored {
            let room = Room::new(luck.code.clone(), player.duplicate());
            self.wait(Wait::Insert { player, code: luck.code.clone(), tries });
            return Some(StoreCall::Create { room });
        }
        self.open_room(player, luck.code.clone());
        None
    }

    fn open_room(&mut self, player: Player, code: String)
        ensures
            final(self)@ == old(self)@.opens(player@, code@),
    {
        let player_id = player.id;
        let seat_key = player.seat_key;
        self.upsert_room(Room::new(code.clone(), player));
        self.schedule(Job::Greet { player: player_id, code: code.clone(), created: true });
        self.schedule(Job::Vacate { seat_key, keep: Some(code) });
    }

    fn enter(&mut self, code: String, visit: Visit, luck: &Luck)
        requires
            visit@ matches VisitModel::Act { player, msg } ==> old(self)@.acting_fits(
                code@,
                player,
                msg,
                luck@,
            ),
        ensures
            final(self)@ == old(self)@.enter(code@, visit@, luck@),
    {
        match visit {
            Visit::Reload => {},
            Visit::Show { player } => self.show(code, player),
            Visit::Act { player, msg } => self.act(code, player, msg, luck),
            Visit::Join { player, name, seat_key } => {
                self.join_or_reclaim(code, player, name, seat_key)
            },
        }
    }

    fn show(&mut self, code: String, player: Uuid)
        ensures
            final(self)@ == old(self)@.shows(code@, player),
    {
        if let Some(i) = self.rooms.find(code.as_str()) {
            let view = self.rooms.rooms[i].view_for(player);
            self.send(player, ServerMessage::State(view));
        }
    }

    fn act(&mut self, code: String, player: Uuid, msg: ClientMessage, luck: &Luck)
        requires
            old(self)@.acting_fits(code@, player, msg@, luck@),
        ensures
            final(self)@ == old(self)@.act(code@, player, msg@, luck@),
    {
        match self.rooms.find(code.as_str()) {
            None => self.tell(player, String::from_str("Game not found")),
            Some(i) => {
                let mut room = self.rooms.rooms[i].duplicate();
                match room.perform(player, &msg, luck) {
                    Ok(()) => {
                        self.put_room(i, room);
                        self.save_and_show(code);
                    },
                    Err(words) => self.tell(player, words),
                }
            },
        }
    }

    fn join_or_reclaim(&mut self, code: String, player: Uuid, name: String, seat_key: Uuid)
        ensures
            final(self)@ == old(self)@.join(code@, player, name@, seat_key),
    {
        reveal(RoomModel::with_guest);
        match self.rooms.find(code.as_str()) {
            None => self.tell(player, String::from_str("Game not found")),
            Some(i) => {
                let mut room = self.rooms.rooms[i].duplicate();
                match room.join(player, name, seat_key) {
                    Ok(holder) => {
                        self.put_room(i, room);
                        if let Some(old_id) = holder {
                            self.members.remove(old_id);
                        }
                        self.schedule(Job::Greet { player, code: code.clone(), created: false });
                        self.schedule(Job::Persist { code: code.clone() });
                        self.schedule(Job::SetSeat { seat_key, code: code.clone() });
                        self.schedule(Job::Vacate { seat_key, keep: Some(code) });
                    },
                    Err(words) => self.tell(player, words),
                }
            },
        }
    }

    fn vacate_seat(&mut self, seat_key: Uuid, keep: Option<String>) -> (res: Option<StoreCall>)
        ensures
            final(self)@ == old(self)@.vacate(seat_key, opt_text(keep)).hub,
            opt_call(res) == old(self)@.vacate(seat_key, opt_text(keep)).call,
    {
        if self.stored {
            self.wait(Wait::Seat { seat_key, keep });
            Some(StoreCall::GetSeat { seat_key })
        } else {
            self.schedule(Job::Sweep { seat_key, keep });
            None
        }
    }

    fn start_sweep(&mut self, seat_key: Uuid, keep: Option<String>)
        ensures
            final(self)@ == old(self)@.sweep(seat_key, opt_text(keep)),
    {
        let codes = self.rooms.codes_but(&keep);
        let empty: Vec<String> = Vec::new();
        let dirty: Vec<String> = Vec::new();
        assert(texts(empty@) =~= seq![]);
        assert(texts(dirty@) =~= seq![]);
        self.schedule(Job::SweepNext { seat_key, codes, at: 0, empty, dirty });
    }

    fn forget_member(&mut self, id: Uuid, code: &String)
        ensures
            final(self)@ == old(self)@.left(id, code@),
            final(self).rooms == old(self).rooms,
    {
        if let Some(current) = self.members.get(id) {
            if current == *code {
                self.members.remove(id);
            }
        }
    }

    fn sweep_next(
        &mut self,
        seat_key: Uuid,
        codes: Vec<String>,
        at: usize,
        empty: Vec<String>,
        dirty: Vec<String>,
        luck: &Luck,
    ) -> (res: Option<StoreCall>)
        requires
            at < codes@.len() ==> old(self)@.vacating_fits(codes@[at as int]@, seat_key),
        ensures
            ({
                let step = old(self)@.sweep_next(
                    seat_key,
                    texts(codes@),
                    at,
                    texts(empty@),
                    texts(dirty@),
                    luck@,
                );
                final(self)@ == step.hub && opt_call(res) == step.call
            }),
    {
        reveal(RoomModel::with_seat_free);
        if at >= codes.len() {
            self.schedule(Job::Refresh { codes: dirty, at: 0, save: true });
            self.schedule(Job::Purge { codes: empty, at: 0 });
            return None;
        }
        let code = codes[at].clone();
        if let Some(i) = self.rooms.find(code.as_str()) {
            let mut room = self.rooms.rooms[i].duplicate();
            if let Some((old_id, now_empty)) = room.vacate_seat_with(
                seat_key,
                luck.fresh,
                luck.now,
            ) {
                self.put_room(i, room);
                self.forget_member(old_id, &code);
                let mut empty = empty;
                let mut dirty = dirty;
                let ghost empty_before = texts(empty@);
                let ghost dirty_before = texts(dirty@);
                if now_empty {
                    empty.push(code);
                    assert(texts(empty@) =~= empty_before.push(code@));
                } else {
                    dirty.push(code);
                    assert(texts(dirty@) =~= dirty_before.push(code@));
                }
                self.schedule(Job::SweepNext { seat_key, codes, at: at + 1, empty, dirty });
                return self.notify_store(StoreCall::DelSeat { seat_key });
            }
        }
        self.schedule(Job::SweepNext { seat_key, codes, at: at + 1, empty, dirty });
        None
    }

    fn purge(&mut self, codes: Vec<String>, at: usize) -> (res: Option<StoreCall>)
        ensures
            final(self)@ == old(self)@.purge(texts(codes@), at).hub,
            opt_call(res) == old(self)@.purge(texts(codes@), at).call,
    {
        if at >= codes.len() {
            return None;
        }
        let code = codes[at].clone();
        self.delete_local_room(code.as_str());
        self.schedule(Job::Purge { codes, at: at + 1 });
        self.notify_store(StoreCall::Delete { code })
    }

    fn refresh(&mut self, codes: Vec<String>, at: usize, save: bool)
        ensures
            final(self)@ == old(self)@.refresh(texts(codes@), at, save),
    {
        if at < codes.len() {
            let code = codes[at].clone();
            self.schedule(Job::Refresh { codes, at: at + 1, save });
            if save {
                self.save_and_show(code);
            } else {
                self.schedule(Job::Broadcast { code });
            }
        }
    }

    fn persist_existing(&mut self, code: String) -> (res: Option<StoreCall>)
        requires
            old(self)@.saving_fits(code@),
        ensures
            final(self)@ == old(self)@.persist(code@).hub,
            opt_call(res) == old(self)@.persist(code@).call,
    {
        if !self.stored {
            return None;
        }
        match self.rooms.find(code.as_str()) {
            None => None,
            Some(i) => {
                let mut room = self.rooms.rooms[i].duplicate();
                let expected: u64 = room.version;
                room.version = expected + 1;
                self.wait(Wait::Save { code, version: expected });
                Some(StoreCall::Update { room, expected })
            },
        }
    }

    // -- steps ---------------------------------------------------------------

    fn carry_out(&mut self, job: Job, luck: &Luck) -> (res: Option<StoreCall>)
        requires
            old(self)@.job_fits(job@, luck@),
        ensures
            final(self)@ == old(self)@.carry_out(job@, luck@).hub,
            opt_call(res) == old(self)@.carry_out(job@, luck@).call,
    {
        match job {
            Job::Command { player, msg } => {
                self.handle_command(player, msg);
                None
            },
            Job::Disconnect { player } => {
                self.mark_disconnected(player);
                None
            },
            Job::Remote { event } => {
                self.apply_remote_event(event);
                None
            },
            Job::Expire => {
                self.start_expiry(luck.now);
                None
            },
            Job::ExpireNext { now, codes, at, dirty } => {
                self.expire_next(now, codes, at, dirty, luck);
                None
            },
            Job::Create { player, tries } => self.insert_new_room(player, tries, luck),
            Job::Load { code, visit } => {
                let call = StoreCall::Get { code: code.clone() };
                self.wait(Wait::Load { code, visit });
                Some(call)
            },
            Job::Enter { code, visit } => {
                self.enter(code, visit, luck);
                None
            },
            Job::Vacate { seat_key, keep } => self.vacate_seat(seat_key, keep),
            Job::Sweep { seat_key, keep } => {
                self.start_sweep(seat_key, keep);
                None
            },
            Job::SweepNext { seat_key, codes, at, empty, dirty } => {
                self.sweep_next(seat_key, codes, at, empty, dirty, luck)
            },
            Job::Purge { codes, at } => self.purge(codes, at),
            Job::Refresh { codes, at, save } => {
                self.refresh(codes, at, save);
                None
            },
            Job::SetSeat { seat_key, code } => {
                self.notify_store(StoreCall::SetSeat { seat_key, code })
            },
            Job::Persist { code } => self.persist_existing(code),
            Job::Greet { player, code, created } => {
                self.greet(player, code, created);
                None
            },
            Job::Broadcast { code } => {
                self.broadcast_room(code.as_str());
                None
            },
        }
    }

    /// Takes one step with the given luck: carries out the next job. Where the job needs the
    /// shared store, the result is the call to make; its reply goes to `resume`.
    pub fn step_with(&mut self, luck: &Luck) -> (res: Option<StoreCall>)
        requires
            old(self)@.next_fits(luck@),
            old(self)@.waiting is None,
        ensures
            final(self)@ == old(self)@.step(luck@).hub,
            opt_call(res) == old(self)@.step(luck@).call,
    {
        let ghost before = self@;
        match self.jobs.pop() {
            None => None,
            Some(job) => {
                assert(job@ == before.jobs.last());
                assert(self@ =~= (HubModel { jobs: before.jobs.drop_last(), ..before }));
                self.carry_out(job, luck)
            },
        }
    }

    /// Counts the dice that the next step calls for.
    pub fn dice_wanted(&self) -> (res: usize)
        ensures
            res == self@.dice_wanted(),
    {
        let n: usize = self.jobs.len();
        if n == 0 {
            return 0;
        }
        assert(self@.jobs.last() == self.jobs@[n - 1]@);
        match &self.jobs[n - 1] {
            Job::Enter { code, visit: Visit::Act { player, msg } } => {
                match self.rooms.find(code.as_str()) {
                    Some(i) => {
                        self.rooms.rooms[i].dice_called_for(*player, msg)
                    },
                    None => 0,
                }
            },
            _ => 0,
        }
    }

    /// Takes one step with whatever luck it has. Where that would take a number of a room out of
    /// the range of its machine type, the room is given up in place of the step, and the result
    /// is an error with its code.
    pub fn step(&mut self) -> (res: Result<Option<StoreCall>, String>)
        requires
            old(self)@.waiting is None,
        ensures
            exists|luck: LuckModel|
                {
                    &&& luck.possible(old(self)@.dice_wanted())
                    &&& match res {
                        Ok(call) => {
                            &&& old(self)@.next_fits(luck)
                            &&& final(self)@ == (#[trigger] old(self)@.step(luck)).hub
                            &&& opt_call(call) == old(self)@.step(luck).call
                        },
                        Err(code) => {
                            &&& !old(self)@.next_fits(luck)
                            &&& old(self)@.next_room() == Some(code@)
                            &&& final(self)@ == old(self)@.dropped(code@)
                        },
                    }
                },
    {
        let luck = Luck::draw(self.dice_wanted());
        let ghost drawn = old(self)@.step(luck@);
        if self.fits(&luck) {
            return Ok(self.step_with(&luck));
        }
        match self.next_room() {
            Some(code) => {
                self.delete_local_room(code.as_str());
                Err(code)
            },
            None => Ok(None),
        }
    }

    /// Tells whether a reply is one to the call that the hub waits for.
    pub fn expects(&self, reply: &StoreReply) -> (res: bool)
        ensures
            res == (self@.waiting matches Some(waiting) && replies_to(waiting, reply@)),
    {
        match (&self.waiting, reply) {
            (Some(Wait::Load { .. }), StoreReply::Room(_)) => true,
            (Some(Wait::Insert { tries, .. }), StoreReply::Saved(_)) => *tries > 0,
            (Some(Wait::Save { version, .. }), StoreReply::Saved(_)) => *version < u64::MAX,
            (Some(Wait::Seat { .. }), StoreReply::Seat(_)) => true,
            (Some(Wait::Done), StoreReply::Done) => true,
            _ => false,
        }
    }

    /// Goes on with the reply to the call that the last step has handed out.
    pub fn resume(&mut self, reply: StoreReply)
        requires
            old(self)@.waiting matches Some(waiting) && replies_to(waiting, reply@),
        ensures
            final(self)@ == old(self)@.resumed(reply@),
    {
        let ghost before = self@;
        let waiting = self.waiting.take();
        assert(self@ =~= (HubModel { waiting: None, ..before }));
        match (waiting, reply) {
            (Some(Wait::Load { code, visit }), StoreReply::Room(got)) => {
                self.loaded(code, visit, got);
            },
            (Some(Wait::Insert { player, code, tries }), StoreReply::Saved(saved)) => {
                self.inserted(player, code, tries, saved);
            },
            (Some(Wait::Save { code, version }), StoreReply::Saved(saved)) => {
                self.saved(code, version, saved);
            },
            (Some(Wait::Seat { seat_key, keep }), StoreReply::Seat(got)) => {
                self.seat_found(seat_key, keep, got);
            },
            _ => {},
        }
    }

    fn loaded(&mut self, code: String, visit: Visit, got: Result<Option<Room>, String>)
        ensures
            final(self)@ == old(self)@.after_reply(
                WaitModel::Load { code: code@, visit: visit@ },
                StoreReply::Room(got)@,
            ),
    {
        match got {
            Ok(Some(room)) => {
                self.upsert_room(room);
                self.schedule(Job::Enter { code, visit });
            },
            Ok(None) => {
                self.delete_local_room(code.as_str());
                self.turn_away(visit, String::from_str("Game not found"));
            },
            Err(words) => self.turn_away(visit, words),
        }
    }

    fn inserted(
        &mut self,
        player: Player,
        code: String,
        tries: usize,
        saved: Result<bool, String>,
    )
        requires
            tries > 0,
        ensures
            final(self)@ == old(self)@.after_reply(
                WaitModel::Insert { player: player@, code: code@, tries },
                StoreReply::Saved(saved)@,
            ),
    {
        match saved {
            Ok(true) => {
                let seat_key = player.seat_key;
                self.open_room(player, code.clone());
                self.schedule(Job::SetSeat { seat_key, code });
            },
            Ok(false) => self.schedule(Job::Create { player, tries: tries - 1 }),
            Err(_) => self.tell(player.id, String::from_str("Could not create a room")),
        }
    }

    fn saved(&mut self, code: String, version: u64, saved: Result<bool, String>)
        requires
            version < u64::MAX,
        ensures
            final(self)@ == old(self)@.after_reply(
                WaitModel::Save { code: code@, version },
                StoreReply::Saved(saved)@,
            ),
    {
        match saved {
            Ok(true) => {
                if let Some(i) = self.rooms.find(code.as_str()) {
                    let mut room = self.rooms.rooms[i].duplicate();
                    room.version = version + 1;
                    self.put_room(i, room);
                }
            },
            Ok(false) => self.schedule(Job::Load { code, visit: Visit::Reload }),
            Err(_) => {},
        }
    }

    fn seat_found(
        &mut self,
        seat_key: Uuid,
        keep: Option<String>,
        got: Result<Option<String>, String>,
    )
        ensures
            final(self)@ == old(self)@.after_reply(
                WaitModel::Seat { seat_key, keep: opt_text(keep) },
                StoreReply::Seat(got)@,
            ),
    {
        let found = match got {
            Ok(found) => found,
            Err(_) => None,
        };
        let elsewhere = match (&found, &keep) {
            (Some(code), Some(kept)) => !(*code == *kept),
            (Some(_), None) => true,
            _ => false,
        };
        self.schedule(Job::Sweep { seat_key, keep });
        if elsewhere {
            if let Some(code) = found {
                self.schedule(Job::Load { code, visit: Visit::Reload });
            }
        }
    }

    /// The room whose numbers the next job counts on with.
    fn next_room(&self) -> (res: Option<String>)
        ensures
            opt_text(res) == self@.next_room(),
    {
        let n: usize = self.jobs.len();
        if n == 0 {
            return None;
        }
        assert(self@.jobs.last() == self.jobs@[n - 1]@);
        match &self.jobs[n - 1] {
            Job::ExpireNext { codes, at, .. } => {
                if *at < codes.len() {
                    Some(codes[*at].clone())
                } else {
                    None
                }
            },
            Job::SweepNext { codes, at, .. } => {
                if *at < codes.len() {
                    Some(codes[*at].clone())
                } else {
                    None
                }
            },
            Job::Enter { code, visit: Visit::Act { .. } } => Some(code.clone()),
            Job::Persist { code } => Some(code.clone()),
            _ => None,
        }
    }

    /// Tells whether the next job, with the given luck, keeps the numbers of the room that it
    /// works on in the range of their machine types.
    pub fn fits(&self, luck: &Luck) -> (res: bool)
        ensures
            res == self@.next_fits(luck@),
    {
        let n: usize = self.jobs.len();
        if n == 0 {
            return true;
        }
        assert(self@.jobs.last() == self.jobs@[n - 1]@);
        match &self.jobs[n - 1] {
            Job::ExpireNext { now, codes, at, .. } => {
                if *at >= codes.len() {
                    return true;
                }
                match self.rooms.get(codes[*at].as_str()) {
                    Some(room) => room.timeout_fits(*now),
                    None => true,
                }
            },
            Job::SweepNext { seat_key, codes, at, .. } => {
                if *at >= codes.len() {
                    return true;
                }
                match self.rooms.get(codes[*at].as_str()) {
                    Some(room) => room.vacate_fits(*seat_key),
                    None => true,
                }
            },
            Job::Enter { code, visit: Visit::Act { player, msg } } => {
                match self.rooms.get(code.as_str()) {
                    Some(room) => room.request_fits(*player, msg, luck),
                    None => true,
                }
            },
            Job::Persist { code } => {
                if !self.stored {
                    return true;
                }
                match self.rooms.get(code.as_str()) {
                    Some(room) => room.version < u64::MAX,
                    None => true,
                }
            },
            _ => true,
        }
    }

    /// Tells whether there is nothing left to do.
    pub fn is_idle(&self) -> (res: bool)
        ensures
            res == self@.is_idle(),
    {
        self.jobs.len() == 0 && self.waiting.is_none()
    }

    /// Lines up what has come in since the last time: first what the store tells, then who has
    /// gone, then what the players ask, and last a look at whose time is up.
    pub fn line_up(
        &mut self,
        remote: Vec<StoreEvent>,
        gone: Vec<Uuid>,
        commands: Vec<NetCommand>,
    )
        ensures
            final(self)@ == old(self)@.lines_up(
                remote@.map_values(|e: StoreEvent| e@),
                gone@,
                commands@.map_values(|c: NetCommand| (c.player_id, c.msg@)),
            ),
    {
        self.schedule(Job::Expire);
        let ghost base = self@;
        let ghost asked = command_jobs(
            commands@.map_values(|c: NetCommand| (c.player_id, c.msg@)),
        ).reverse();
        let mut commands = commands;
        let ghost all = commands@;
        assert(base.jobs + asked.take(0) =~= base.jobs);
        while commands.len() > 0
            invariant
                commands@ == all.take(commands@.len() as int),
                commands@.len() <= all.len(),
                asked == command_jobs(
                    all.map_values(|c: NetCommand| (c.player_id, c.msg@)),
                ).reverse(),
                self@ == (HubModel {
                    jobs: base.jobs + asked.take(all.len() - commands@.len()),
                    ..base
                }),
            decreases commands@.len(),
        {
            let ghost n = all.len() - commands@.len();
            if let Some(command) = commands.pop() {
                assert(command == all[all.len() - 1 - n]);
                assert(asked[n] == Job::Command { player: command.player_id, msg: command.msg }@);
                assert(asked.take(n + 1) =~= asked.take(n).push(asked[n]));
                self.schedule(Job::Command { player: command.player_id, msg: command.msg });
                assert(self@.jobs =~= base.jobs + asked.take(n + 1));
            }
        }
        assert(asked.take(all.len() as int) =~= asked);
        self.line_up_gone(gone);
        self.line_up_remote(remote);
    }

    fn line_up_gone(&mut self, gone: Vec<Uuid>)
        ensures
            final(self)@ == (HubModel {
                jobs: old(self)@.jobs + gone_jobs(gone@).reverse(),
                ..old(self)@
            }),
    {
        let ghost base = self@;
        let ghost left = gone_jobs(gone@).reverse();
        let mut gone = gone;
        let ghost all = gone@;
        assert(base.jobs + left.take(0) =~= base.jobs);
        while gone.len() > 0
            invariant
                gone@ == all.take(gone@.len() as int),
                gone@.len() <= all.len(),
                left == gone_jobs(all).reverse(),
                self@ == (HubModel {
                    jobs: base.jobs + left.take(all.len() - gone@.len()),
                    ..base
                }),
            decreases gone@.len(),
        {
            let ghost n = all.len() - gone@.len();
            if let Some(player) = gone.pop() {
                assert(player == all[all.len() - 1 - n]);
                assert(left.take(n + 1) =~= left.take(n).push(left[n]));
                self.schedule(Job::Disconnect { player });
                assert(self@.jobs =~= base.jobs + left.take(n + 1));
            }
        }
        assert(left.take(all.len() as int) =~= left);
    }

    fn line_up_remote(&mut self, remote: Vec<StoreEvent>)
        ensures
            final(self)@ == (HubModel {
                jobs: old(self)@.jobs + remote_jobs(
                    remote@.map_values(|e: StoreEvent| e@),
                ).reverse(),
                ..old(self)@
            }),
    {
        let ghost base = self@;
        let ghost told = remote_jobs(remote@.map_values(|e: StoreEvent| e@)).reverse();
        let mut remote = remote;
        let ghost all = remote@;
        assert(base.jobs + told.take(0) =~= base.jobs);
        while remote.len() > 0
            invariant
                remote@ == all.take(remote@.len() as int),
                remote@.len() <= all.len(),
                told == remote_jobs(all.map_values(|e: StoreEvent| e@)).reverse(),
                self@ == (HubModel {
                    jobs: base.jobs + told.take(all.len() - remote@.len()),
                    ..base
                }),
            decreases remote@.len(),
        {
            let ghost n = all.len() - remote@.len();
            if let Some(event) = remote.pop() {
                assert(event == all[all.len() - 1 - n]);
                assert(told[n] == Job::Remote { event }@);
                assert(told.take(n + 1) =~= told.take(n).push(told[n]));
                self.schedule(Job::Remote { event });
                assert(self@.jobs =~= base.jobs + told.take(n + 1));
            }
        }
        assert(told.take(all.len() as int) =~= told);
    }

    /// Hands over what is to be sent.
    pub fn take_outbox(&mut self) -> (res: Vec<(Uuid, ServerMessage)>)
        ensures
            res@ == old(self).outbox@,
            final(self)@ == (HubModel { outbox: seq![], ..old(self)@ }),
    {
        let mut out: Vec<(Uuid, ServerMessage)> = Vec::new();
        std::mem::swap(&mut self.outbox, &mut out);
        assert(self@ =~= (HubModel { outbox: seq![], ..old(self)@ }));
        out
    }
}

} // verus!
