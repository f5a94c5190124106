//! What the hub does with requests, departures, news from the store and the passing of time.
//!
//! The hub works off a stack of jobs, one step at a time. A step that needs the shared store
//! hands out a call and waits for the reply.

use crate::ids::Uuid;
use crate::protocol::{ClientMessageModel, ServerMessageModel, invitation};
use crate::requests::LuckModel;
use crate::room_model::{PlayerModel, RoomModel};
use crate::rooms::{
    codes_but, member_code, room_named, room_row, with_dropped, with_member, with_upserted,
    without_member,
};
use crate::store::StoreEventModel;
use crate::text::{seated_name, trimmed, uppercase};
use vstd::prelude::*;

verus! {

/// How many codes are tried for a new room.
pub const CODE_TRIES: usize = 16;

/// Why a room is entered.
pub enum VisitModel {
    /// Only to have it up to date.
    Reload,
    Join { player: Uuid, name: Seq<char>, seat_key: Uuid },
    Act { player: Uuid, msg: ClientMessageModel },
    Show { player: Uuid },
}

/// What is left to do.
pub enum JobModel {
    Command { player: Uuid, msg: ClientMessageModel },
    Disconnect { player: Uuid },
    Remote { event: StoreEventModel },
    Expire,
    ExpireNext { now: u64, codes: Seq<Seq<char>>, at: usize, dirty: Seq<Seq<char>> },
    Create { player: PlayerModel, tries: usize },
    Load { code: Seq<char>, visit: VisitModel },
    Enter { code: Seq<char>, visit: VisitModel },
    Vacate { seat_key: Uuid, keep: Option<Seq<char>> },
    Sweep { seat_key: Uuid, keep: Option<Seq<char>> },
    SweepNext {
        seat_key: Uuid,
        codes: Seq<Seq<char>>,
        at: usize,
        empty: Seq<Seq<char>>,
        dirty: Seq<Seq<char>>,
    },
    Purge { codes: Seq<Seq<char>>, at: usize },
    Refresh { codes: Seq<Seq<char>>, at: usize, save: bool },
    SetSeat { seat_key: Uuid, code: Seq<char> },
    Persist { code: Seq<char> },
    Greet { player: Uuid, code: Seq<char>, created: bool },
    Broadcast { code: Seq<char> },
}

/// What is asked of the store.
pub enum StoreCallModel {
    Get { code: Seq<char> },
    Create { room: RoomModel },
    Update { room: RoomModel, expected: u64 },
    Delete { code: Seq<char> },
    GetSeat { seat_key: Uuid },
    SetSeat { seat_key: Uuid, code: Seq<char> },
    DelSeat { seat_key: Uuid },
}

/// What the store replies.
pub enum StoreReplyModel {
    Room(Result<Option<RoomModel>, Seq<char>>),
    Saved(Result<bool, Seq<char>>),
    Seat(Result<Option<Seq<char>>, Seq<char>>),
    Done,
}

/// What the hub does once the store has replied.
pub enum WaitModel {
    Load { code: Seq<char>, visit: VisitModel },
    Insert { player: PlayerModel, code: Seq<char>, tries: usize },
    Save { code: Seq<char>, version: u64 },
    Seat { seat_key: Uuid, keep: Option<Seq<char>> },
    Done,
}

/// The hub, with texts and lists as sequences.
#[verifier::ext_equal]
pub struct HubModel {
    pub rooms: Seq<RoomModel>,
    pub members: Seq<(Uuid, Seq<char>)>,
    /// There is a shared store.
    pub stored: bool,
    /// What is left to do, the next job last.
    pub jobs: Seq<JobModel>,
    /// What the hub waits for, if it waits for the store.
    pub waiting: Option<WaitModel>,
    /// What is to be sent, in order.
    pub outbox: Seq<(Uuid, ServerMessageModel)>,
}

/// The hub after a step, and what it asks of the store.
pub struct StepModel {
    pub hub: HubModel,
    pub call: Option<StoreCallModel>,
}

/// The reply is one to a call that a step can have made.
pub open spec fn replies_to(waiting: WaitModel, reply: StoreReplyModel) -> bool {
    match waiting {
        WaitModel::Load { .. } => reply is Room,
        WaitModel::Insert { tries, .. } => reply is Saved && tries > 0,
        WaitModel::Save { version, .. } => reply is Saved && version < u64::MAX,
        WaitModel::Seat { .. } => reply is Seat,
        WaitModel::Done => reply is Done,
    }
}

pub open spec fn command_jobs(commands: Seq<(Uuid, ClientMessageModel)>) -> Seq<JobModel> {
    commands.map_values(
        |c: (Uuid, ClientMessageModel)| JobModel::Command { player: c.0, msg: c.1 },
    )
}

pub open spec fn gone_jobs(gone: Seq<Uuid>) -> Seq<JobModel> {
    gone.map_values(|player: Uuid| JobModel::Disconnect { player })
}

pub open spec fn remote_jobs(remote: Seq<StoreEventModel>) -> Seq<JobModel> {
    remote.map_values(|event: StoreEventModel| JobModel::Remote { event })
}

impl HubModel {
    /// The room whose numbers a job counts on with.
    pub open spec fn room_of_job(job: JobModel) -> Option<Seq<char>> {
        match job {
            JobModel::ExpireNext { codes, at, .. } => if at < codes.len() {
                Some(codes[at as int])
            } else {
                None
            },
            JobModel::SweepNext { codes, at, .. } => if at < codes.len() {
                Some(codes[at as int])
            } else {
                None
            },
            JobModel::Enter { code, visit: VisitModel::Act { .. } } => Some(code),
            JobModel::Persist { code } => Some(code),
            _ => None,
        }
    }

    /// The room whose numbers the next job counts on with.
    pub open spec fn next_room(self) -> Option<Seq<char>> {
        if self.jobs.len() > 0 {
            Self::room_of_job(self.jobs.last())
        } else {
            None
        }
    }

    /// The job takes no number of a room out of the range of its machine type. Jobs that only read
    /// rooms always fit.
    pub open spec fn job_fits(self, job: JobModel, luck: LuckModel) -> bool {
        match job {
            JobModel::ExpireNext { now, codes, at, .. } => at < codes.len() ==> self.expiry_fits(
                codes[at as int],
                now,
            ),
            JobModel::SweepNext { seat_key, codes, at, .. } => at < codes.len()
                ==> self.vacating_fits(codes[at as int], seat_key),
            JobModel::Enter { code, visit: VisitModel::Act { player, msg } } => self.acting_fits(
                code,
                player,
                msg,
                luck,
            ),
            JobModel::Persist { code } => self.saving_fits(code),
            _ => true,
        }
    }

    pub open spec fn expiry_fits(self, code: Seq<char>, now: u64) -> bool {
        room_named(self.rooms, code) matches Some(room) ==> room.timeout_fits(now)
    }

    pub open spec fn vacating_fits(self, code: Seq<char>, seat_key: Uuid) -> bool {
        room_named(self.rooms, code) matches Some(room) ==> room.vacate_fits(seat_key)
    }

    pub open spec fn acting_fits(
        self,
        code: Seq<char>,
        player: Uuid,
        msg: ClientMessageModel,
        luck: LuckModel,
    ) -> bool {
        room_named(self.rooms, code) matches Some(room) ==> room.request_fits(player, msg, luck)
    }

    pub open spec fn saving_fits(self, code: Seq<char>) -> bool {
        self.stored ==> (room_named(self.rooms, code) matches Some(room) ==> room.version
            < u64::MAX)
    }

    /// The next job takes no number of a room out of the range of its machine type.
    pub open spec fn next_fits(self, luck: LuckModel) -> bool {
        self.jobs.len() > 0 ==> self.job_fits(self.jobs.last(), luck)
    }

    pub open spec fn is_idle(self) -> bool {
        self.jobs.len() == 0 && self.waiting is None
    }

    // -- parts of steps ------------------------------------------------------

    pub open spec fn then_do(self, job: JobModel) -> HubModel {
        HubModel { jobs: self.jobs.push(job), ..self }
    }

    pub open spec fn sent(self, to: Uuid, msg: ServerMessageModel) -> HubModel {
        HubModel { outbox: self.outbox.push((to, msg)), ..self }
    }

    pub open spec fn told(self, to: Uuid, words: Seq<char>) -> HubModel {
        self.sent(to, ServerMessageModel::Error { message: words })
    }

    pub open spec fn with_room(self, i: int, room: RoomModel) -> HubModel {
        HubModel { rooms: self.rooms.update(i, room), ..self }
    }

    pub open spec fn upserted(self, room: RoomModel) -> HubModel {
        HubModel { rooms: with_upserted(self.rooms, room), ..self }
    }

    pub open spec fn dropped(self, code: Seq<char>) -> HubModel {
        HubModel { rooms: with_dropped(self.rooms, code), ..self }
    }

    pub open spec fn without(self, id: Uuid) -> HubModel {
        HubModel { members: without_member(self.members, id), ..self }
    }

    /// The step ends here.
    pub open spec fn done(self) -> StepModel {
        StepModel { hub: self, call: None }
    }

    /// The step asks something of the store, and the hub waits.
    pub open spec fn asks(self, call: StoreCallModel, waiting: WaitModel) -> StepModel {
        StepModel { hub: HubModel { waiting: Some(waiting), ..self }, call: Some(call) }
    }

    /// Where there is a store, the step asks something of it that needs no answer.
    pub open spec fn notifies(self, call: StoreCallModel) -> StepModel {
        if self.stored {
            self.asks(call, WaitModel::Done)
        } else {
            self.done()
        }
    }

    /// The room is entered, with what the store has of it where there is a store.
    pub open spec fn visits(self, code: Seq<char>, visit: VisitModel) -> HubModel {
        self.then_do(
            if self.stored {
                JobModel::Load { code, visit }
            } else {
                JobModel::Enter { code, visit }
            },
        )
    }

    /// The room is saved and shown to its players.
    pub open spec fn saves_and_shows(self, code: Seq<char>) -> HubModel {
        self.then_do(JobModel::Broadcast { code }).then_do(JobModel::Persist { code })
    }

    /// Who came for a room that cannot be entered is told so. Quiet visits end quietly.
    pub open spec fn turned_away(self, visit: VisitModel, words: Seq<char>) -> HubModel {
        match visit {
            VisitModel::Join { player, .. } => self.told(player, words),
            VisitModel::Act { player, .. } => self.told(player, words),
            VisitModel::Show { .. } | VisitModel::Reload => self,
        }
    }

    // -- jobs ----------------------------------------------------------------

    pub open spec fn command(self, player: Uuid, msg: ClientMessageModel) -> HubModel {
        match msg {
            ClientMessageModel::CreateGame { name, seat_key } => self.then_do(
                JobModel::Create {
                    player: PlayerModel::seated(player, seat_key, seated_name(name)),
                    tries: CODE_TRIES,
                },
            ),
            ClientMessageModel::JoinGame { code, name, seat_key } => self.visits(
                uppercase(trimmed(code)),
                VisitModel::Join { player, name: seated_name(name), seat_key },
            ),
            ClientMessageModel::LeaveGame => self.leave(player),
            ClientMessageModel::Pong => self,
            ClientMessageModel::Sync => match member_code(self.members, player) {
                Some(code) => self.visits(code, VisitModel::Show { player }),
                None => self,
            },
            _ => match member_code(self.members, player) {
                Some(code) => self.visits(code, VisitModel::Act { player, msg }),
                None => self.told(player, "You are not in a game"@),
            },
        }
    }

    /// The room that a connection is in, as far as this process has it.
    pub open spec fn room_of(self, player: Uuid) -> Option<RoomModel> {
        match member_code(self.members, player) {
            Some(code) => room_named(self.rooms, code),
            None => None,
        }
    }

    pub open spec fn leave(self, player: Uuid) -> HubModel {
        match self.room_of(player) {
            Some(room) => match room.row_of(player) {
                Some(i) => self.then_do(
                    JobModel::Vacate { seat_key: room.players[i].seat_key, keep: None },
                ),
                None => self,
            },
            None => self,
        }
    }

    pub open spec fn disconnect(self, player: Uuid) -> HubModel {
        match member_code(self.members, player) {
            Some(code) => match room_row(self.rooms, code) {
                Some(i) => if self.rooms[i].is_present(player) {
                    self.with_room(i, self.rooms[i].after_disconnect(player)).saves_and_shows(code)
                } else {
                    self
                },
                None => self,
            },
            None => self,
        }
    }

    pub open spec fn remote(self, event: StoreEventModel) -> HubModel {
        match event {
            StoreEventModel::Upsert { room } => {
                let stale = room_named(self.rooms, room.code) matches Some(local) && local.version
                    >= room.version;
                if stale {
                    self.upserted(room)
                } else {
                    self.upserted(room).then_do(JobModel::Broadcast { code: room.code })
                }
            },
            StoreEventModel::Delete { code } => self.dropped(code),
        }
    }

    pub open spec fn expire(self, now: u64) -> HubModel {
        self.then_do(
            JobModel::ExpireNext { now, codes: codes_but(self.rooms, None), at: 0, dirty: seq![] },
        )
    }

    pub open spec fn expire_next(
        self,
        now: u64,
        codes: Seq<Seq<char>>,
        at: usize,
        dirty: Seq<Seq<char>>,
        luck: LuckModel,
    ) -> HubModel {
        if at >= codes.len() {
            self.then_do(JobModel::Refresh { codes: dirty, at: 0, save: false })
        } else {
            let code = codes[at as int];
            let next = (at + 1) as usize;
            match room_row(self.rooms, code) {
                Some(i) => if self.rooms[i].is_overdue(now) {
                    self.with_room(i, self.rooms[i].with_actor_out(luck)).then_do(
                        JobModel::ExpireNext { now, codes, at: next, dirty: dirty.push(code) },
                    ).then_do(JobModel::Persist { code })
                } else {
                    self.then_do(JobModel::ExpireNext { now, codes, at: next, dirty })
                },
                None => self.then_do(JobModel::ExpireNext { now, codes, at: next, dirty }),
            }
        }
    }

    pub open spec fn create(self, player: PlayerModel, tries: usize, luck: LuckModel) -> StepModel {
        if tries == 0 {
            self.told(player.id, "Could not create a room"@).done()
        } else if room_row(self.rooms, luck.code) is Some {
            self.then_do(JobModel::Create { player, tries: (tries - 1) as usize }).done()
        } else if self.stored {
            self.asks(
                StoreCallModel::Create { room: RoomModel::opened(luck.code, player) },
                WaitModel::Insert { player, code: luck.code, tries },
            )
        } else {
            self.opens(player, luck.code).done()
        }
    }

    /// The room is open. Its host leaves every other table and is greeted.
    pub open spec fn opens(self, player: PlayerModel, code: Seq<char>) -> HubModel {
        self.upserted(RoomModel::opened(code, player)).then_do(
            JobModel::Greet { player: player.id, code, created: true },
        ).then_do(JobModel::Vacate { seat_key: player.seat_key, keep: Some(code) })
    }

    pub open spec fn enter(self, code: Seq<char>, visit: VisitModel, luck: LuckModel) -> HubModel {
        match visit {
            VisitModel::Reload => self,
            VisitModel::Show { player } => self.shows(code, player),
            VisitModel::Act { player, msg } => self.act(code, player, msg, luck),
            VisitModel::Join { player, name, seat_key } => self.join(code, player, name, seat_key),
        }
    }

    pub open spec fn shows(self, code: Seq<char>, player: Uuid) -> HubModel {
        match room_named(self.rooms, code) {
            Some(room) => self.sent(player, ServerMessageModel::State(room.seen_by(player))),
            None => self,
        }
    }

    pub open spec fn act(
        self,
        code: Seq<char>,
        player: Uuid,
        msg: ClientMessageModel,
        luck: LuckModel,
    ) -> HubModel {
        match room_row(self.rooms, code) {
            Some(i) => {
                let answer = self.rooms[i].answer(player, msg, luck);
                match answer.refusal {
                    Some(words) => self.told(player, words),
                    None => self.with_room(i, answer.after).saves_and_shows(code),
                }
            },
            None => self.told(player, "Game not found"@),
        }
    }

    pub open spec fn join(
        self,
        code: Seq<char>,
        player: Uuid,
        name: Seq<char>,
        seat_key: Uuid,
    ) -> HubModel {
        match room_row(self.rooms, code) {
            Some(i) => {
                let room = self.rooms[i];
                match room.join_refusal(seat_key) {
                    Some(words) => self.told(player, words),
                    None => {
                        let seated = self.with_room(i, room.with_guest(player, name, seat_key));
                        let freed = match room.holder(seat_key) {
                            Some(old_id) => seated.without(old_id),
                            None => seated,
                        };
                        freed.then_do(JobModel::Greet { player, code, created: false }).then_do(
                            JobModel::Persist { code },
                        ).then_do(JobModel::SetSeat { seat_key, code }).then_do(
                            JobModel::Vacate { seat_key, keep: Some(code) },
                        )
                    },
                }
            },
            None => self.told(player, "Game not found"@),
        }
    }

    pub open spec fn vacate(self, seat_key: Uuid, keep: Option<Seq<char>>) -> StepModel {
        if self.stored {
            self.asks(StoreCallModel::GetSeat { seat_key }, WaitModel::Seat { seat_key, keep })
        } else {
            self.then_do(JobModel::Sweep { seat_key, keep }).done()
        }
    }

    pub open spec fn sweep(self, seat_key: Uuid, keep: Option<Seq<char>>) -> HubModel {
        self.then_do(
            JobModel::SweepNext {
                seat_key,
                codes: codes_but(self.rooms, keep),
                at: 0,
                empty: seq![],
                dirty: seq![],
            },
        )
    }

    /// A connection that has left the given room is in no room, unless it is in another one.
    pub open spec fn left(self, id: Uuid, code: Seq<char>) -> HubModel {
        if member_code(self.members, id) == Some(code) {
            self.without(id)
        } else {
            self
        }
    }

    pub open spec fn sweep_next(
        self,
        seat_key: Uuid,
        codes: Seq<Seq<char>>,
        at: usize,
        empty: Seq<Seq<char>>,
        dirty: Seq<Seq<char>>,
        luck: LuckModel,
    ) -> StepModel {
        if at >= codes.len() {
            self.then_do(JobModel::Refresh { codes: dirty, at: 0, save: true }).then_do(
                JobModel::Purge { codes: empty, at: 0 },
            ).done()
        } else {
            let code = codes[at as int];
            let next = (at + 1) as usize;
            match room_row(self.rooms, code) {
                Some(i) => match (
                    self.rooms[i].row_of_seat(seat_key),
                    self.rooms[i].vacate_result(seat_key),
                ) {
                    (Some(row), Some((old_id, now_empty))) => self.with_room(
                        i,
                        self.rooms[i].with_seat_free(row, luck),
                    ).left(old_id, code).then_do(
                        JobModel::SweepNext {
                            seat_key,
                            codes,
                            at: next,
                            empty: if now_empty {
                                empty.push(code)
                            } else {
                                empty
                            },
                            dirty: if now_empty {
                                dirty
                            } else {
                                dirty.push(code)
                            },
                        },
                    ).notifies(StoreCallModel::DelSeat { seat_key }),
                    _ => self.then_do(
                        JobModel::SweepNext { seat_key, codes, at: next, empty, dirty },
                    ).done(),
                },
                None => self.then_do(
                    JobModel::SweepNext { seat_key, codes, at: next, empty, dirty },
                ).done(),
            }
        }
    }

    pub open spec fn purge(self, codes: Seq<Seq<char>>, at: usize) -> StepModel {
        if at >= codes.len() {
            self.done()
        } else {
            self.dropped(codes[at as int]).then_do(
                JobModel::Purge { codes, at: (at + 1) as usize },
            ).notifies(StoreCallModel::Delete { code: codes[at as int] })
        }
    }

    pub open spec fn refresh(self, codes: Seq<Seq<char>>, at: usize, save: bool) -> HubModel {
        if at >= codes.len() {
            self
        } else {
            let rest = self.then_do(JobModel::Refresh { codes, at: (at + 1) as usize, save });
            if save {
                rest.saves_and_shows(codes[at as int])
            } else {
                rest.then_do(JobModel::Broadcast { code: codes[at as int] })
            }
        }
    }

    pub open spec fn persist(self, code: Seq<char>) -> StepModel {
        match room_named(self.rooms, code) {
            Some(room) => if self.stored {
                self.asks(
                    StoreCallModel::Update {
                        room: RoomModel { version: (room.version + 1) as u64, ..room },
                        expected: room.version,
                    },
                    WaitModel::Save { code, version: room.version },
                )
            } else {
                self.done()
            },
            None => self.done(),
        }
    }

    pub open spec fn greet(self, player: Uuid, code: Seq<char>, created: bool) -> HubModel {
        let invite_path = invitation(code);
        HubModel { members: with_member(self.members, player, code), ..self }.sent(
            player,
            if created {
                ServerMessageModel::GameCreated { code, player_id: player, invite_path }
            } else {
                ServerMessageModel::Joined { code, player_id: player, invite_path }
            },
        ).broadcast(code)
    }

    /// Every player of the room is shown the room as that player sees it.
    pub open spec fn broadcast(self, code: Seq<char>) -> HubModel {
        match room_named(self.rooms, code) {
            Some(room) => HubModel { outbox: self.outbox + room.news(), ..self },
            None => self,
        }
    }

    // -- steps ---------------------------------------------------------------

    /// Carries out a job that has been taken from the stack.
    pub open spec fn carry_out(self, job: JobModel, luck: LuckModel) -> StepModel {
        match job {
            JobModel::Command { player, msg } => self.command(player, msg).done(),
            JobModel::Disconnect { player } => self.disconnect(player).done(),
            JobModel::Remote { event } => self.remote(event).done(),
            JobModel::Expire => self.expire(luck.now).done(),
            JobModel::ExpireNext { now, codes, at, dirty } => self.expire_next(
                now,
                codes,
                at,
                dirty,
                luck,
            ).done(),
            JobModel::Create { player, tries } => self.create(player, tries, luck),
            JobModel::Load { code, visit } => self.asks(
                StoreCallModel::Get { code },
                WaitModel::Load { code, visit },
            ),
            JobModel::Enter { code, visit } => self.enter(code, visit, luck).done(),
            JobModel::Vacate { seat_key, keep } => self.vacate(seat_key, keep),
            JobModel::Sweep { seat_key, keep } => self.sweep(seat_key, keep).done(),
            JobModel::SweepNext { seat_key, codes, at, empty, dirty } => self.sweep_next(
                seat_key,
                codes,
                at,
                empty,
                dirty,
                luck,
            ),
            JobModel::Purge { codes, at } => self.purge(codes, at),
            JobModel::Refresh { codes, at, save } => self.refresh(codes, at, save).done(),
            JobModel::SetSeat { seat_key, code } => self.notifies(
                StoreCallModel::SetSeat { seat_key, code },
            ),
            JobModel::Persist { code } => self.persist(code),
            JobModel::Greet { player, code, created } => self.greet(player, code, created).done(),
            JobModel::Broadcast { code } => self.broadcast(code).done(),
        }
    }

    /// One step: the next job is taken from the stack and carried out.
    pub open spec fn step(self, luck: LuckModel) -> StepModel {
        if self.jobs.len() == 0 {
            self.done()
        } else {
            HubModel { jobs: self.jobs.drop_last(), ..self }.carry_out(self.jobs.last(), luck)
        }
    }

    /// What has come in is lined up, to be done in this order: what the store tells, who has gone,
    /// what the players ask, and a look at whose time is up.
    pub open spec fn lines_up(
        self,
        remote: Seq<StoreEventModel>,
        gone: Seq<Uuid>,
        commands: Seq<(Uuid, ClientMessageModel)>,
    ) -> HubModel {
        HubModel {
            jobs: self.jobs.push(JobModel::Expire) + command_jobs(commands).reverse() + gone_jobs(
                gone,
            ).reverse() + remote_jobs(remote).reverse(),
            ..self
        }
    }

    /// How many dice the next step calls for.
    pub open spec fn dice_wanted(self) -> usize {
        if self.jobs.len() == 0 {
            0
        } else {
            match self.jobs.last() {
                JobModel::Enter { code, visit: VisitModel::Act { player, msg } } => {
                    match room_named(self.rooms, code) {
                        Some(room) => room.dice_called_for(player, msg),
                        None => 0,
                    }
                },
                _ => 0,
            }
        }
    }

    /// The store has replied.
    pub open spec fn after_reply(self, waiting: WaitModel, reply: StoreReplyModel) -> HubModel {
        match (waiting, reply) {
            (WaitModel::Load { code, visit }, StoreReplyModel::Room(got)) => match got {
                Ok(Some(room)) => self.upserted(room).then_do(JobModel::Enter { code, visit }),
                Ok(None) => self.dropped(code).turned_away(visit, "Game not found"@),
                Err(words) => self.turned_away(visit, words),
            },
            (WaitModel::Insert { player, code, tries }, StoreReplyModel::Saved(saved)) =>
            match saved {
                Ok(true) => self.opens(player, code).then_do(
                    JobModel::SetSeat { seat_key: player.seat_key, code },
                ),
                Ok(false) => self.then_do(
                    JobModel::Create { player, tries: (tries - 1) as usize },
                ),
                Err(_) => self.told(player.id, "Could not create a room"@),
            },
            (WaitModel::Save { code, version }, StoreReplyModel::Saved(saved)) => match saved {
                Ok(true) => match room_row(self.rooms, code) {
                    Some(i) => self.with_room(
                        i,
                        RoomModel { version: (version + 1) as u64, ..self.rooms[i] },
                    ),
                    None => self,
                },
                Ok(false) => self.then_do(JobModel::Load { code, visit: VisitModel::Reload }),
                Err(_) => self,
            },
            (WaitModel::Seat { seat_key, keep }, StoreReplyModel::Seat(got)) => {
                let sweeping = self.then_do(JobModel::Sweep { seat_key, keep });
                match got {
                    Ok(Some(code)) => if keep == Some(code) {
                        sweeping
                    } else {
                        sweeping.then_do(JobModel::Load { code, visit: VisitModel::Reload })
                    },
                    _ => sweeping,
                }
            },
            _ => self,
        }
    }

    pub open spec fn resumed(self, reply: StoreReplyModel) -> HubModel {
        HubModel { waiting: None, ..self }.after_reply(self.waiting->0, reply)
    }
}

impl RoomModel {
    /// The room after the seat in the given row was given up.
    #[verifier::opaque]
    pub open spec fn with_seat_free(self, row: int, luck: LuckModel) -> RoomModel {
        self.after_vacate(row, luck.fresh, luck.now)
    }

    /// The player whom the room waits for has let the time run out.
    #[verifier::opaque]
    pub open spec fn is_overdue(self, now: u64) -> bool {
        self.times_out(now)
    }

    /// The room after that player was put out.
    #[verifier::opaque]
    pub open spec fn with_actor_out(self, luck: LuckModel) -> RoomModel {
        self.after_timeout(luck.now)
    }

    /// The room after a connection has taken a seat.
    #[verifier::opaque]
    pub open spec fn with_guest(self, id: Uuid, name: Seq<char>, seat_key: Uuid) -> RoomModel {
        self.after_join(id, name, seat_key)
    }

    /// What the players of a room are shown: each the room as that player sees it.
    pub open spec fn news(self) -> Seq<(Uuid, ServerMessageModel)> {
        self.players.map_values(
            |p: PlayerModel| (p.id, ServerMessageModel::State(self.seen_by(p.id))),
        )
    }
}

} // verus!
