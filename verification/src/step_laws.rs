//! What the steps of a hub do: which room they touch, what they leave to do, and what they ask of
//! the store.

use crate::game_laws::{timeouts_keep_the_table, vacating_keeps_the_name};
use crate::hub_laws::{
    dropped_rooms_are_not_found, lemma_replaced, lemma_room_from, members_are_forgotten,
};
use crate::hub_model::{
    HubModel, JobModel, StepModel, StoreCallModel, StoreReplyModel, VisitModel, WaitModel,
};
use crate::ids::Uuid;
use crate::play_laws::a_seat_is_found_in_the_first_row;
use crate::protocol::{ClientMessageModel, GamePhase, ServerMessageModel};
use crate::requests::LuckModel;
use crate::room_model::{ForfeitCause, PlayerModel, RoomModel, lemma_forfeit_keeps_seats};
use crate::rooms::{
    codes_but, distinct_codes, earliest_deadline, idle_wait, member_code, room_named, room_row,
    with_dropped, with_upserted,
};
use crate::store::StoreEventModel;
use crate::text::{seated_name, trimmed, uppercase};
use vstd::prelude::*;

verus! {

/// The next job of the hub is the given one.
pub open spec fn is_up(hub: HubModel, job: JobModel) -> bool {
    hub.jobs.len() > 0 && hub.jobs.last() == job && hub.waiting is None
}

/// The hub has done its next job and has the given ones to do instead, the last one first; rooms,
/// members and outbox may differ.
pub open spec fn goes_on_with(hub: HubModel, after: StepModel, jobs: Seq<JobModel>) -> bool {
    &&& after.call is None
    &&& after.hub.waiting is None
    &&& after.hub.stored == hub.stored
    &&& after.hub.jobs == hub.jobs.drop_last() + jobs
}

/// The hub has done its next job, which asks something of the store, and has the given ones to do
/// instead.
pub open spec fn asks_for(
    hub: HubModel,
    after: StepModel,
    call: StoreCallModel,
    waiting: WaitModel,
    jobs: Seq<JobModel>,
) -> bool {
    &&& after.call == Some(call)
    &&& after.hub.waiting == Some(waiting)
    &&& after.hub.stored == hub.stored
    &&& after.hub.jobs == hub.jobs.drop_last() + jobs
}

/// Rooms and members are as they were.
pub open spec fn nobody_moves(hub: HubModel, after: HubModel) -> bool {
    after.rooms == hub.rooms && after.members == hub.members
}

/// Nothing but the jobs has changed.
pub open spec fn quietly(hub: HubModel, after: HubModel) -> bool {
    nobody_moves(hub, after) && after.outbox == hub.outbox
}

/// The room with the given code is now the given one, and all others are as they were.
pub open spec fn one_room_is(
    before: Seq<RoomModel>,
    after: Seq<RoomModel>,
    code: Seq<char>,
    room: Option<RoomModel>,
) -> bool {
    &&& room_named(after, code) == room
    &&& forall|other: Seq<char>|
        other != code ==> #[trigger] room_named(after, other) == room_named(before, other)
}

// ---------------------------------------------------------------------------
// What players ask
// ---------------------------------------------------------------------------

/// Who asks for a new room is to get one, with sixteen tries for a code, in a row with nothing
/// scored.
pub proof fn asking_for_a_room(
    hub: HubModel,
    player: Uuid,
    name: Seq<char>,
    seat_key: Uuid,
    luck: LuckModel,
)
    requires
        is_up(
            hub,
            JobModel::Command { player, msg: ClientMessageModel::CreateGame { name, seat_key } },
        ),
    ensures
        quietly(hub, hub.step(luck).hub),
        goes_on_with(
            hub,
            hub.step(luck),
            seq![
                JobModel::Create {
                    player: PlayerModel {
                        id: player,
                        seat_key,
                        name: seated_name(name),
                        score: 0,
                        on_board: false,
                        connected: true,
                        forfeited: false,
                    },
                    tries: 16,
                },
            ],
        ),
{
    lemma_one_job(hub, hub.step(luck).hub.jobs.last());
}

proof fn lemma_one_job(hub: HubModel, job: JobModel)
    ensures
        hub.jobs.drop_last().push(job) == hub.jobs.drop_last() + seq![job],
{
    assert(hub.jobs.drop_last().push(job) =~= hub.jobs.drop_last() + seq![job]);
}

/// How a room is entered: after a look into the store, where there is one.
pub open spec fn visit_job(stored: bool, code: Seq<char>, visit: VisitModel) -> JobModel {
    if stored {
        JobModel::Load { code, visit }
    } else {
        JobModel::Enter { code, visit }
    }
}

/// Who asks to join goes to the room with the code as typed, without the blanks around it and in
/// upper case.
pub proof fn asking_to_join(
    hub: HubModel,
    player: Uuid,
    code: Seq<char>,
    name: Seq<char>,
    seat_key: Uuid,
    luck: LuckModel,
)
    requires
        is_up(
            hub,
            JobModel::Command {
                player,
                msg: ClientMessageModel::JoinGame { code, name, seat_key },
            },
        ),
    ensures
        quietly(hub, hub.step(luck).hub),
        goes_on_with(
            hub,
            hub.step(luck),
            seq![
                visit_job(
                    hub.stored,
                    uppercase(trimmed(code)),
                    VisitModel::Join { player, name: seated_name(name), seat_key },
                ),
            ],
        ),
{
    lemma_one_job(hub, hub.step(luck).hub.jobs.last());
}

/// Whoever is in a room acts in that room, or is shown it. A sign of life does nothing.
pub proof fn asking_in_a_room(
    hub: HubModel,
    player: Uuid,
    msg: ClientMessageModel,
    code: Seq<char>,
    luck: LuckModel,
)
    requires
        is_up(hub, JobModel::Command { player, msg }),
        member_code(hub.members, player) == Some(code),
        !(msg is CreateGame || msg is JoinGame || msg is LeaveGame),
    ensures
        quietly(hub, hub.step(luck).hub),
        goes_on_with(
            hub,
            hub.step(luck),
            if msg is Pong {
                seq![]
            } else if msg is Sync {
                seq![visit_job(hub.stored, code, VisitModel::Show { player })]
            } else {
                seq![visit_job(hub.stored, code, VisitModel::Act { player, msg })]
            },
        ),
{
    lemma_one_job(hub, hub.step(luck).hub.jobs.last());
    assert(hub.jobs.drop_last() + Seq::<JobModel>::empty() =~= hub.jobs.drop_last());
}

/// Who leaves gives up the seat of the row that they hold, at every table.
pub proof fn asking_to_leave(
    hub: HubModel,
    player: Uuid,
    code: Seq<char>,
    room: RoomModel,
    luck: LuckModel,
)
    requires
        is_up(hub, JobModel::Command { player, msg: ClientMessageModel::LeaveGame }),
        member_code(hub.members, player) == Some(code),
        room_named(hub.rooms, code) == Some(room),
    ensures
        quietly(hub, hub.step(luck).hub),
        goes_on_with(
            hub,
            hub.step(luck),
            match room.row_of(player) {
                Some(i) => seq![
                    JobModel::Vacate { seat_key: room.players[i].seat_key, keep: None },
                ],
                None => seq![],
            },
        ),
{
    lemma_one_job(hub, hub.step(luck).hub.jobs.last());
    assert(hub.jobs.drop_last() + Seq::<JobModel>::empty() =~= hub.jobs.drop_last());
}

/// Who is in no room, or in one that is not here, leaves nothing and is shown nothing.
pub proof fn asking_from_nowhere(
    hub: HubModel,
    player: Uuid,
    msg: ClientMessageModel,
    luck: LuckModel,
)
    requires
        is_up(hub, JobModel::Command { player, msg }),
        msg is LeaveGame && hub.room_of(player) is None || msg is Sync && member_code(
            hub.members,
            player,
        ) is None || msg is Pong,
    ensures
        quietly(hub, hub.step(luck).hub),
        goes_on_with(hub, hub.step(luck), seq![]),
{
    assert(hub.jobs.drop_last() + Seq::<JobModel>::empty() =~= hub.jobs.drop_last());
}

// ---------------------------------------------------------------------------
// Opening and joining
// ---------------------------------------------------------------------------

/// A new room gets the code that was drawn, unless a room has it: then another one is drawn, as
/// long as there are tries left. It opens at once, or when the store has taken it.
pub proof fn what_creating_does(hub: HubModel, player: PlayerModel, tries: usize, luck: LuckModel)
    requires
        is_up(hub, JobModel::Create { player, tries }),
    ensures
        ({
            let after = hub.step(luck);
            let free = forall|i: int|
                0 <= i < hub.rooms.len() ==> (#[trigger] hub.rooms[i]).code != luck.code;
            if tries == 0 {
                &&& goes_on_with(hub, after, seq![])
                &&& nobody_moves(hub, after.hub)
                &&& after.hub.outbox == hub.outbox.push(
                    (
                        player.id,
                        ServerMessageModel::Error { message: "Could not create a room"@ },
                    ),
                )
            } else if !free {
                &&& quietly(hub, after.hub)
                &&& goes_on_with(
                    hub,
                    after,
                    seq![JobModel::Create { player, tries: (tries - 1) as usize }],
                )
            } else if hub.stored {
                &&& quietly(hub, after.hub)
                &&& asks_for(
                    hub,
                    after,
                    StoreCallModel::Create { room: RoomModel::opened(luck.code, player) },
                    WaitModel::Insert { player, code: luck.code, tries },
                    seq![],
                )
            } else {
                &&& after.hub.outbox == hub.outbox
                &&& after.hub.members == hub.members
                &&& one_room_is(
                    hub.rooms,
                    after.hub.rooms,
                    luck.code,
                    Some(RoomModel::opened(luck.code, player)),
                )
                &&& goes_on_with(
                    hub,
                    after,
                    seq![
                        JobModel::Greet { player: player.id, code: luck.code, created: true },
                        JobModel::Vacate { seat_key: player.seat_key, keep: Some(luck.code) },
                    ],
                )
            }
        }),
{
    lemma_room_from(hub.rooms, luck.code, 0);
    let rest = hub.jobs.drop_last();
    assert(rest + Seq::<JobModel>::empty() =~= rest);
    lemma_one_job(hub, JobModel::Create { player, tries: (tries - 1) as usize });
    if room_row(hub.rooms, luck.code) is None {
        lemma_added(hub.rooms, RoomModel::opened(luck.code, player));
        let greet = JobModel::Greet { player: player.id, code: luck.code, created: true };
        let vacate = JobModel::Vacate { seat_key: player.seat_key, keep: Some(luck.code) };
        assert(rest.push(greet).push(vacate) =~= rest + seq![greet, vacate]);
    }
}

proof fn lemma_added(rooms: Seq<RoomModel>, room: RoomModel)
    requires
        room_row(rooms, room.code) is None,
    ensures
        one_room_is(rooms, rooms.push(room), room.code, Some(room)),
{
    let after = rooms.push(room);
    assert forall|code: Seq<char>| #[trigger] room_named(after, code) == if code == room.code {
        Some(room)
    } else {
        room_named(rooms, code)
    } by {
        lemma_room_from(rooms, code, 0);
        lemma_room_from(after, code, 0);
        lemma_room_from(rooms, room.code, 0);
        match room_row(rooms, code) {
            Some(i) => {
                assert(after[i].code == code);
                let k = room_row(after, code)->0;
                if k < i {
                    assert(after[k] == rooms[k]);
                } else if i < k {
                    assert(after[i].code != code);
                }
            },
            None => {
                let n = rooms.len() as int;
                assert(after[n] == room);
                if let Some(k) = room_row(after, code) {
                    if k < n {
                        assert(after[k] == rooms[k]);
                    }
                }
            },
        }
    }
}

/// Once the store has replied to a new room: it opens; another code is drawn; or the player is
/// told that it failed.
pub proof fn what_an_inserted_room_does(
    hub: HubModel,
    player: PlayerModel,
    code: Seq<char>,
    tries: usize,
    words: Seq<char>,
)
    requires
        hub.waiting == Some(WaitModel::Insert { player, code, tries }),
        room_named(hub.rooms, code) is None,
        tries > 0,
    ensures
        ({
            let taken = hub.resumed(StoreReplyModel::Saved(Ok(true)));
            &&& one_room_is(
                hub.rooms,
                taken.rooms,
                code,
                Some(RoomModel::opened(code, player)),
            )
            &&& taken.members == hub.members
            &&& taken.outbox == hub.outbox
            &&& taken.waiting is None
            &&& taken.jobs == hub.jobs + seq![
                JobModel::Greet { player: player.id, code, created: true },
                JobModel::Vacate { seat_key: player.seat_key, keep: Some(code) },
                JobModel::SetSeat { seat_key: player.seat_key, code },
            ]
        }),
        ({
            let refused = hub.resumed(StoreReplyModel::Saved(Ok(false)));
            &&& quietly(hub, refused)
            &&& refused.waiting is None
            &&& refused.jobs == hub.jobs + seq![
                JobModel::Create { player, tries: (tries - 1) as usize },
            ]
        }),
        ({
            let failed = hub.resumed(StoreReplyModel::Saved(Err(words)));
            &&& nobody_moves(hub, failed)
            &&& failed.waiting is None
            &&& failed.jobs == hub.jobs
            &&& failed.outbox == hub.outbox.push(
                (player.id, ServerMessageModel::Error { message: "Could not create a room"@ }),
            )
        }),
{
    lemma_added(hub.rooms, RoomModel::opened(code, player));
    let taken = hub.resumed(StoreReplyModel::Saved(Ok(true)));
    assert(taken.jobs =~= hub.jobs + seq![
        JobModel::Greet { player: player.id, code, created: true },
        JobModel::Vacate { seat_key: player.seat_key, keep: Some(code) },
        JobModel::SetSeat { seat_key: player.seat_key, code },
    ]);
    let refused = hub.resumed(StoreReplyModel::Saved(Ok(false)));
    assert(refused.jobs =~= hub.jobs + seq![
        JobModel::Create { player, tries: (tries - 1) as usize },
    ]);
}

/// Who is let in sits in that room and no other room changes. The connection that held the seat
/// before is in no room any more; the newcomer then leaves every other table, has the seat noted,
/// the room saved, and is greeted.
pub proof fn what_being_let_in_does(
    hub: HubModel,
    code: Seq<char>,
    player: Uuid,
    name: Seq<char>,
    seat_key: Uuid,
    room: RoomModel,
    luck: LuckModel,
)
    requires
        is_up(hub, JobModel::Enter { code, visit: VisitModel::Join { player, name, seat_key } }),
        room_named(hub.rooms, code) == Some(room),
        room.join_refusal(seat_key) is None,
    ensures
        ({
            let after = hub.step(luck);
            &&& one_room_is(
                hub.rooms,
                after.hub.rooms,
                code,
                Some(room.after_join(player, name, seat_key)),
            )
            &&& after.hub.outbox == hub.outbox
            &&& forall|id: Uuid| #[trigger]
                member_code(after.hub.members, id) == match room.row_of_seat(seat_key) {
                    Some(i) => if id == room.players[i].id {
                        None
                    } else {
                        member_code(hub.members, id)
                    },
                    None => member_code(hub.members, id),
                }
            &&& goes_on_with(
                hub,
                after,
                seq![
                    JobModel::Greet { player, code, created: false },
                    JobModel::Persist { code },
                    JobModel::SetSeat { seat_key, code },
                    JobModel::Vacate { seat_key, keep: Some(code) },
                ],
            )
        }),
{
    reveal(RoomModel::with_guest);
    lemma_room_from(hub.rooms, code, 0);
    let i = room_row(hub.rooms, code)->0;
    lemma_replaced(hub.rooms, i, room.after_join(player, name, seat_key));
    let after = hub.step(luck).hub;
    if let Some(old_id) = room.holder(seat_key) {
        assert forall|id: Uuid| #[trigger] member_code(after.members, id) == if id == old_id {
            None
        } else {
            member_code(hub.members, id)
        } by {
            members_are_forgotten(hub.members, old_id, id);
        }
    }
    assert(after.jobs =~= hub.jobs.drop_last() + seq![
        JobModel::Greet { player, code, created: false },
        JobModel::Persist { code },
        JobModel::SetSeat { seat_key, code },
        JobModel::Vacate { seat_key, keep: Some(code) },
    ]);
}

/// A greeting tells the newcomer the code and the way to the room.
pub proof fn what_a_greeting_says(
    hub: HubModel,
    player: Uuid,
    code: Seq<char>,
    created: bool,
    luck: LuckModel,
)
    requires
        is_up(hub, JobModel::Greet { player, code, created }),
    ensures
        ({
            let after = hub.step(luck);
            let invite_path = "/g/"@ + code;
            &&& after.hub.rooms == hub.rooms
            &&& goes_on_with(hub, after, seq![])
            &&& after.hub.outbox.len() > hub.outbox.len()
            &&& after.hub.outbox.take(hub.outbox.len() as int) == hub.outbox
            &&& after.hub.outbox[hub.outbox.len() as int] == (
                player,
                if created {
                    ServerMessageModel::GameCreated { code, player_id: player, invite_path }
                } else {
                    ServerMessageModel::Joined { code, player_id: player, invite_path }
                },
            )
        }),
{
    let after = hub.step(luck).hub;
    assert(hub.jobs.drop_last() + Seq::<JobModel>::empty() =~= hub.jobs.drop_last());
    assert(after.outbox.take(hub.outbox.len() as int) =~= hub.outbox);
}

// ---------------------------------------------------------------------------
// Leaving
// ---------------------------------------------------------------------------

/// The codes of all rooms are those of the rooms, but for the one to keep.
pub proof fn which_rooms_are_listed(rooms: Seq<RoomModel>, keep: Option<Seq<char>>, code: Seq<char>)
    ensures
        codes_but(rooms, keep).contains(code) <==> keep != Some(code) && exists|i: int|
            0 <= i < rooms.len() && (#[trigger] rooms[i]).code == code,
    decreases rooms.len(),
{
    if rooms.len() > 0 {
        let rest = rooms.drop_last();
        let n = rest.len() as int;
        which_rooms_are_listed(rest, keep, code);
        assert(rooms[n] == rooms.last());
        assert forall|i: int| 0 <= i < n implies (#[trigger] rooms[i]) == rest[i] by {}
        let before = codes_but(rest, keep);
        if keep != Some(rooms.last().code) {
            let all = before.push(rooms.last().code);
            assert(all[before.len() as int] == rooms.last().code);
            if before.contains(code) {
                let k = choose|k: int| 0 <= k < before.len() && before[k] == code;
                assert(all[k] == code);
            }
            if all.contains(code) {
                let k = choose|k: int| 0 <= k < all.len() && all[k] == code;
                if k < before.len() {
                    assert(before[k] == code);
                }
            }
        }
        if exists|i: int| 0 <= i < rest.len() && (#[trigger] rest[i]).code == code {
            let i = choose|i: int| 0 <= i < rest.len() && (#[trigger] rest[i]).code == code;
            assert(rooms[i].code == code);
        }
        if exists|i: int| 0 <= i < rooms.len() && (#[trigger] rooms[i]).code == code {
            let i = choose|i: int| 0 <= i < rooms.len() && (#[trigger] rooms[i]).code == code;
            if i < n {
                assert(rest[i].code == code);
            }
        }
    }
}

/// Giving up a seat asks the store where the seat is, where there is one, and then goes through
/// every room but the one to keep.
pub proof fn what_giving_up_a_seat_does(
    hub: HubModel,
    seat_key: Uuid,
    keep: Option<Seq<char>>,
    luck: LuckModel,
)
    ensures
        is_up(hub, JobModel::Vacate { seat_key, keep }) ==> {
            &&& quietly(hub, hub.step(luck).hub)
            &&& hub.stored ==> asks_for(
                hub,
                hub.step(luck),
                StoreCallModel::GetSeat { seat_key },
                WaitModel::Seat { seat_key, keep },
                seq![],
            )
            &&& !hub.stored ==> goes_on_with(
                hub,
                hub.step(luck),
                seq![JobModel::Sweep { seat_key, keep }],
            )
        },
        is_up(hub, JobModel::Sweep { seat_key, keep }) ==> {
            &&& quietly(hub, hub.step(luck).hub)
            &&& goes_on_with(
                hub,
                hub.step(luck),
                seq![
                    JobModel::SweepNext {
                        seat_key,
                        codes: codes_but(hub.rooms, keep),
                        at: 0,
                        empty: seq![],
                        dirty: seq![],
                    },
                ],
            )
        },
{
    lemma_one_job(hub, hub.step(luck).hub.jobs.last());
    assert(hub.jobs.drop_last() + Seq::<JobModel>::empty() =~= hub.jobs.drop_last());
}

/// Where the store knows the seat at another table, that one is fetched before the search.
pub proof fn what_a_known_seat_does(
    hub: HubModel,
    seat_key: Uuid,
    keep: Option<Seq<char>>,
    got: Result<Option<Seq<char>>, Seq<char>>,
)
    requires
        hub.waiting == Some(WaitModel::Seat { seat_key, keep }),
    ensures
        ({
            let after = hub.resumed(StoreReplyModel::Seat(got));
            let sweep = JobModel::Sweep { seat_key, keep };
            &&& quietly(hub, after)
            &&& after.waiting is None
            &&& after.jobs == hub.jobs + match got {
                Ok(Some(code)) => if keep == Some(code) {
                    seq![sweep]
                } else {
                    seq![sweep, JobModel::Load { code, visit: VisitModel::Reload }]
                },
                _ => seq![sweep],
            }
        }),
{
    let after = hub.resumed(StoreReplyModel::Seat(got));
    let sweep = JobModel::Sweep { seat_key, keep };
    assert(hub.jobs.push(sweep) =~= hub.jobs + seq![sweep]);
    if let Ok(Some(code)) = got {
        let load = JobModel::Load { code, visit: VisitModel::Reload };
        assert(hub.jobs.push(sweep).push(load) =~= hub.jobs + seq![sweep, load]);
    }
}

/// In each room of the list where the seat has a row, that row is given up, and no other room
/// changes. The connection that held it is in no room any more if it was in this one. The room
/// goes on the list of those to take away if nobody is left, and of those to show if somebody is;
/// and the store forgets the seat.
pub proof fn what_a_search_does(
    hub: HubModel,
    seat_key: Uuid,
    codes: Seq<Seq<char>>,
    at: usize,
    empty: Seq<Seq<char>>,
    dirty: Seq<Seq<char>>,
    luck: LuckModel,
)
    requires
        is_up(hub, JobModel::SweepNext { seat_key, codes, at, empty, dirty }),
        at < codes.len() <= usize::MAX,
    ensures
        ({
            let after = hub.step(luck);
            let code = codes[at as int];
            let next = (at + 1) as usize;
            match room_named(hub.rooms, code) {
                Some(room) => match room.row_of_seat(seat_key) {
                    Some(row) => {
                        let id = room.players[row].id;
                        let left = room.after_vacate(row, luck.fresh, luck.now);
                        let jobs = if left.players.len() == 0 {
                            seq![
                                JobModel::SweepNext {
                                    seat_key,
                                    codes,
                                    at: next,
                                    empty: empty.push(code),
                                    dirty,
                                },
                            ]
                        } else {
                            seq![
                                JobModel::SweepNext {
                                    seat_key,
                                    codes,
                                    at: next,
                                    empty,
                                    dirty: dirty.push(code),
                                },
                            ]
                        };
                        &&& one_room_is(hub.rooms, after.hub.rooms, code, Some(left))
                        &&& after.hub.outbox == hub.outbox
                        &&& forall|other: Uuid| #[trigger]
                            member_code(after.hub.members, other) == if other == id && member_code(
                                hub.members,
                                id,
                            ) == Some(code) {
                                None
                            } else {
                                member_code(hub.members, other)
                            }
                        &&& hub.stored ==> asks_for(
                            hub,
                            after,
                            StoreCallModel::DelSeat { seat_key },
                            WaitModel::Done,
                            jobs,
                        )
                        &&& !hub.stored ==> goes_on_with(hub, after, jobs)
                    },
                    None => {
                        &&& quietly(hub, after.hub)
                        &&& goes_on_with(
                            hub,
                            after,
                            seq![JobModel::SweepNext { seat_key, codes, at: next, empty, dirty }],
                        )
                    },
                },
                None => {
                    &&& quietly(hub, after.hub)
                    &&& goes_on_with(
                        hub,
                        after,
                        seq![JobModel::SweepNext { seat_key, codes, at: next, empty, dirty }],
                    )
                },
            }
        }),
{
    let code = codes[at as int];
    lemma_room_from(hub.rooms, code, 0);
    lemma_one_job(hub, hub.step(luck).hub.jobs.last());
    if let Some(i) = room_row(hub.rooms, code) {
        let room = hub.rooms[i];
        if let Some(row) = room.row_of_seat(seat_key) {
            reveal(RoomModel::with_seat_free);
            a_seat_is_found_in_the_first_row(room, seat_key);
            vacating_keeps_the_name(room, row, luck.fresh, luck.now);
            let left = room.after_vacate(row, luck.fresh, luck.now);
            lemma_replaced(hub.rooms, i, left);
            lemma_rows_left(room, row, luck.fresh, luck.now);
            let id = room.players[row].id;
            assert forall|other: Uuid| #[trigger]
                member_code(hub.step(luck).hub.members, other) == if other == id && member_code(
                    hub.members,
                    id,
                ) == Some(code) {
                    None
                } else {
                    member_code(hub.members, other)
                } by {
                members_are_forgotten(hub.members, id, other);
            }
        }
    }
}

/// A room is empty once its last row has left the lobby.
proof fn lemma_rows_left(room: RoomModel, row: int, ghost: Uuid, now: u64)
    requires
        0 <= row < room.players.len(),
    ensures
        room.after_vacate(row, ghost, now).players.len() == 0 <==> room.phase
            == GamePhase::Lobby && room.players.len() == 1,
{
    let p = room.players[row];
    if room.forfeit_refusal(p.id) is None {
        lemma_forfeit_keeps_seats(
            room,
            p.id,
            ForfeitCause::Manual,
            now,
        );
    }
}

/// At the end of the search the empty rooms are taken away, and the others saved and shown.
pub proof fn how_a_search_ends(
    hub: HubModel,
    seat_key: Uuid,
    codes: Seq<Seq<char>>,
    at: usize,
    empty: Seq<Seq<char>>,
    dirty: Seq<Seq<char>>,
    luck: LuckModel,
)
    requires
        is_up(hub, JobModel::SweepNext { seat_key, codes, at, empty, dirty }),
        at >= codes.len(),
    ensures
        quietly(hub, hub.step(luck).hub),
        goes_on_with(
            hub,
            hub.step(luck),
            seq![
                JobModel::Refresh { codes: dirty, at: 0, save: true },
                JobModel::Purge { codes: empty, at: 0 },
            ],
        ),
{
    assert(hub.step(luck).hub.jobs =~= hub.jobs.drop_last() + seq![
        JobModel::Refresh { codes: dirty, at: 0, save: true },
        JobModel::Purge { codes: empty, at: 0 },
    ]);
}

/// A room that is taken away is gone here and from the store, and no other one is.
pub proof fn what_taking_away_does(
    hub: HubModel,
    codes: Seq<Seq<char>>,
    at: usize,
    luck: LuckModel,
)
    requires
        is_up(hub, JobModel::Purge { codes, at }),
        distinct_codes(hub.rooms),
        codes.len() <= usize::MAX,
    ensures
        ({
            let after = hub.step(luck);
            let jobs = seq![JobModel::Purge { codes, at: (at + 1) as usize }];
            if at < codes.len() {
                &&& one_room_is(hub.rooms, after.hub.rooms, codes[at as int], None)
                &&& after.hub.members == hub.members
                &&& after.hub.outbox == hub.outbox
                &&& hub.stored ==> asks_for(
                    hub,
                    after,
                    StoreCallModel::Delete { code: codes[at as int] },
                    WaitModel::Done,
                    jobs,
                )
                &&& !hub.stored ==> goes_on_with(hub, after, jobs)
            } else {
                quietly(hub, after.hub) && goes_on_with(hub, after, seq![])
            }
        }),
{
    assert(hub.jobs.drop_last() + Seq::<JobModel>::empty() =~= hub.jobs.drop_last());
    if at < codes.len() {
        lemma_one_job(hub, hub.step(luck).hub.jobs.last());
        lemma_taken(hub.rooms, codes[at as int]);
    }
}

proof fn lemma_taken(rooms: Seq<RoomModel>, code: Seq<char>)
    requires
        distinct_codes(rooms),
    ensures
        one_room_is(rooms, with_dropped(rooms, code), code, None),
{
    let after = with_dropped(rooms, code);
    lemma_room_from(rooms, code, 0);
    dropped_rooms_are_not_found(rooms, code);
    if let Some(i) = room_row(rooms, code) {
        assert forall|other: Seq<char>| other != code implies #[trigger] room_named(after, other)
            == room_named(rooms, other) by {
            lemma_room_from(rooms, other, 0);
            lemma_room_from(after, other, 0);
            assert forall|k: int| 0 <= k < after.len() implies (#[trigger] after[k]) == rooms[if k
                < i {
                k
            } else {
                k + 1
            }] by {}
            match room_row(rooms, other) {
                Some(k) => {
                    let m = if k < i {
                        k
                    } else {
                        k - 1
                    };
                    assert(after[m].code == other);
                    let a = room_row(after, other)->0;
                    if a < m {
                        assert(rooms[if a < i {
                            a
                        } else {
                            a + 1
                        }].code == other);
                    }
                    assert(a == m);
                },
                None => {
                    if let Some(a) = room_row(after, other) {
                        assert(rooms[if a < i {
                            a
                        } else {
                            a + 1
                        }].code == other);
                    }
                },
            }
        }
    }
}

/// What the store no longer has is gone here too, and nothing else.
pub proof fn what_a_deletion_elsewhere_does(hub: HubModel, code: Seq<char>, luck: LuckModel)
    requires
        is_up(hub, JobModel::Remote { event: StoreEventModel::Delete { code } }),
        distinct_codes(hub.rooms),
    ensures
        one_room_is(hub.rooms, hub.step(luck).hub.rooms, code, None),
        hub.step(luck).hub.members == hub.members,
        hub.step(luck).hub.outbox == hub.outbox,
        goes_on_with(hub, hub.step(luck), seq![]),
{
    assert(hub.jobs.drop_last() + Seq::<JobModel>::empty() =~= hub.jobs.drop_last());
    lemma_taken(hub.rooms, code);
}

// ---------------------------------------------------------------------------
// Showing, saving and the passing of time
// ---------------------------------------------------------------------------

/// Each room of a list is shown to its players, and saved before that where that is asked for.
pub proof fn what_refreshing_does(
    hub: HubModel,
    codes: Seq<Seq<char>>,
    at: usize,
    save: bool,
    luck: LuckModel,
)
    requires
        is_up(hub, JobModel::Refresh { codes, at, save }),
        codes.len() <= usize::MAX,
    ensures
        quietly(hub, hub.step(luck).hub),
        goes_on_with(
            hub,
            hub.step(luck),
            if at >= codes.len() {
                seq![]
            } else {
                let rest = JobModel::Refresh { codes, at: (at + 1) as usize, save };
                let show = JobModel::Broadcast { code: codes[at as int] };
                if save {
                    seq![rest, show, JobModel::Persist { code: codes[at as int] }]
                } else {
                    seq![rest, show]
                }
            },
        ),
{
    let old_jobs = hub.jobs.drop_last();
    assert(old_jobs + Seq::<JobModel>::empty() =~= old_jobs);
    if at < codes.len() {
        let rest = JobModel::Refresh { codes, at: (at + 1) as usize, save };
        let show = JobModel::Broadcast { code: codes[at as int] };
        let persist = JobModel::Persist { code: codes[at as int] };
        assert(old_jobs.push(rest).push(show) =~= old_jobs + seq![rest, show]);
        assert(old_jobs.push(rest).push(show).push(persist) =~= old_jobs + seq![
            rest,
            show,
            persist,
        ]);
    }
}

/// A look at the time goes through every room.
pub proof fn what_looking_at_the_time_does(hub: HubModel, luck: LuckModel)
    requires
        is_up(hub, JobModel::Expire),
    ensures
        quietly(hub, hub.step(luck).hub),
        goes_on_with(
            hub,
            hub.step(luck),
            seq![
                JobModel::ExpireNext {
                    now: luck.now,
                    codes: codes_but(hub.rooms, None),
                    at: 0,
                    dirty: seq![],
                },
            ],
        ),
{
    lemma_one_job(hub, hub.step(luck).hub.jobs.last());
}

/// In each room whose time is up the player whom it waits for is put out, and the room is saved;
/// all those rooms are shown at the end.
pub proof fn what_time_running_out_does(
    hub: HubModel,
    now: u64,
    codes: Seq<Seq<char>>,
    at: usize,
    dirty: Seq<Seq<char>>,
    luck: LuckModel,
)
    requires
        is_up(hub, JobModel::ExpireNext { now, codes, at, dirty }),
        codes.len() <= usize::MAX,
    ensures
        ({
            let after = hub.step(luck);
            let next = (at + 1) as usize;
            if at >= codes.len() {
                &&& quietly(hub, after.hub)
                &&& goes_on_with(
                    hub,
                    after,
                    seq![JobModel::Refresh { codes: dirty, at: 0, save: false }],
                )
            } else {
                let code = codes[at as int];
                if room_named(hub.rooms, code) matches Some(room) && room.times_out(now) {
                    &&& one_room_is(
                        hub.rooms,
                        after.hub.rooms,
                        code,
                        Some(room_named(hub.rooms, code)->0.after_timeout(luck.now)),
                    )
                    &&& after.hub.members == hub.members
                    &&& after.hub.outbox == hub.outbox
                    &&& goes_on_with(
                        hub,
                        after,
                        seq![
                            JobModel::ExpireNext { now, codes, at: next, dirty: dirty.push(code) },
                            JobModel::Persist { code },
                        ],
                    )
                } else {
                    &&& quietly(hub, after.hub)
                    &&& goes_on_with(
                        hub,
                        after,
                        seq![JobModel::ExpireNext { now, codes, at: next, dirty }],
                    )
                }
            }
        }),
{
    lemma_one_job(hub, hub.step(luck).hub.jobs.last());
    if at < codes.len() {
        let code = codes[at as int];
        let next = (at + 1) as usize;
        lemma_room_from(hub.rooms, code, 0);
        if let Some(i) = room_row(hub.rooms, code) {
            reveal(RoomModel::is_overdue);
            reveal(RoomModel::with_actor_out);
            let room = hub.rooms[i];
            if room.times_out(now) {
                timeouts_keep_the_table(room, now, luck.now);
                lemma_replaced(hub.rooms, i, room.after_timeout(luck.now));
                let more = JobModel::ExpireNext { now, codes, at: next, dirty: dirty.push(code) };
                let persist = JobModel::Persist { code };
                assert(hub.jobs.drop_last().push(more).push(persist) =~= hub.jobs.drop_last()
                    + seq![more, persist]);
            }
        }
    }
}

/// A lost connection is marked in its room, where it holds a row that counts as connected, and the
/// room is saved and shown. Whose room it is stays known.
pub proof fn what_losing_a_connection_does(hub: HubModel, player: Uuid, luck: LuckModel)
    requires
        is_up(hub, JobModel::Disconnect { player }),
    ensures
        ({
            let after = hub.step(luck);
            match (member_code(hub.members, player), hub.room_of(player)) {
                (Some(code), Some(room)) => if room.is_present(player) {
                    &&& one_room_is(
                        hub.rooms,
                        after.hub.rooms,
                        code,
                        Some(room.after_disconnect(player)),
                    )
                    &&& after.hub.members == hub.members
                    &&& after.hub.outbox == hub.outbox
                    &&& goes_on_with(
                        hub,
                        after,
                        seq![JobModel::Broadcast { code }, JobModel::Persist { code }],
                    )
                } else {
                    quietly(hub, after.hub) && goes_on_with(hub, after, seq![])
                },
                _ => quietly(hub, after.hub) && goes_on_with(hub, after, seq![]),
            }
        }),
{
    let rest = hub.jobs.drop_last();
    assert(rest + Seq::<JobModel>::empty() =~= rest);
    if let Some(code) = member_code(hub.members, player) {
        lemma_room_from(hub.rooms, code, 0);
        if let Some(i) = room_row(hub.rooms, code) {
            lemma_replaced(hub.rooms, i, hub.rooms[i].after_disconnect(player));
            let show = JobModel::Broadcast { code };
            let persist = JobModel::Persist { code };
            assert(rest.push(show).push(persist) =~= rest + seq![show, persist]);
        }
    }
}

/// A room is fetched from the store before it is entered, and then taken over as it is there.
pub proof fn what_fetching_does(
    hub: HubModel,
    code: Seq<char>,
    visit: VisitModel,
    room: RoomModel,
    luck: LuckModel,
)
    ensures
        is_up(hub, JobModel::Load { code, visit }) ==> {
            &&& quietly(hub, hub.step(luck).hub)
            &&& asks_for(
                hub,
                hub.step(luck),
                StoreCallModel::Get { code },
                WaitModel::Load { code, visit },
                seq![],
            )
        },
        hub.waiting == Some(WaitModel::Load { code, visit }) ==> {
            let after = hub.resumed(StoreReplyModel::Room(Ok(Some(room))));
            &&& one_room_is(hub.rooms, after.rooms, room.code, Some(room))
            &&& after.members == hub.members
            &&& after.outbox == hub.outbox
            &&& after.waiting is None
            &&& after.jobs == hub.jobs.push(JobModel::Enter { code, visit })
        },
{
    assert(hub.jobs.drop_last() + Seq::<JobModel>::empty() =~= hub.jobs.drop_last());
    lemma_put(hub.rooms, room);
}

proof fn lemma_put(rooms: Seq<RoomModel>, room: RoomModel)
    ensures
        one_room_is(rooms, with_upserted(rooms, room), room.code, Some(room)),
{
    lemma_room_from(rooms, room.code, 0);
    match room_row(rooms, room.code) {
        Some(i) => lemma_replaced(rooms, i, room),
        None => lemma_added(rooms, room),
    }
}

/// What another process has saved takes the place of the room with its code and of no other one. It
/// is shown where it is newer.
pub proof fn what_news_from_elsewhere_does(hub: HubModel, room: RoomModel, luck: LuckModel)
    requires
        is_up(hub, JobModel::Remote { event: StoreEventModel::Upsert { room } }),
    ensures
        ({
            let after = hub.step(luck);
            let known = room_named(hub.rooms, room.code);
            &&& one_room_is(hub.rooms, after.hub.rooms, room.code, Some(room))
            &&& after.hub.members == hub.members
            &&& after.hub.outbox == hub.outbox
            &&& goes_on_with(
                hub,
                after,
                if known is Some && known->0.version >= room.version {
                    seq![]
                } else {
                    seq![JobModel::Broadcast { code: room.code }]
                },
            )
        }),
{
    lemma_put(hub.rooms, room);
    lemma_one_job(hub, JobModel::Broadcast { code: room.code });
    assert(hub.jobs.drop_last() + Seq::<JobModel>::empty() =~= hub.jobs.drop_last());
}

/// Where a room cannot be fetched, who came to join or to act is told why, and nothing else
/// happens. Who only came to look is told nothing.
pub proof fn what_failing_to_fetch_does(
    hub: HubModel,
    code: Seq<char>,
    visit: VisitModel,
    words: Seq<char>,
)
    requires
        hub.waiting == Some(WaitModel::Load { code, visit }),
    ensures
        ({
            let after = hub.resumed(StoreReplyModel::Room(Err(words)));
            let error = ServerMessageModel::Error { message: words };
            &&& nobody_moves(hub, after)
            &&& after.waiting is None
            &&& after.jobs == hub.jobs
            &&& after.outbox == match visit {
                VisitModel::Join { player, .. } => hub.outbox.push((player, error)),
                VisitModel::Act { player, .. } => hub.outbox.push((player, error)),
                _ => hub.outbox,
            }
        }),
{
}

/// Without a store there is nothing to save, and with one a room that is not there is not saved.
pub proof fn what_needs_no_saving(hub: HubModel, code: Seq<char>, luck: LuckModel)
    requires
        is_up(hub, JobModel::Persist { code }),
        !hub.stored || room_named(hub.rooms, code) is None,
    ensures
        quietly(hub, hub.step(luck).hub),
        goes_on_with(hub, hub.step(luck), seq![]),
{
    assert(hub.jobs.drop_last() + Seq::<JobModel>::empty() =~= hub.jobs.drop_last());
}

/// A seat is noted in the store, where there is one.
pub proof fn what_noting_a_seat_does(
    hub: HubModel,
    seat_key: Uuid,
    code: Seq<char>,
    luck: LuckModel,
)
    requires
        is_up(hub, JobModel::SetSeat { seat_key, code }),
    ensures
        quietly(hub, hub.step(luck).hub),
        hub.stored ==> asks_for(
            hub,
            hub.step(luck),
            StoreCallModel::SetSeat { seat_key, code },
            WaitModel::Done,
            seq![],
        ),
        !hub.stored ==> goes_on_with(hub, hub.step(luck), seq![]),
{
    assert(hub.jobs.drop_last() + Seq::<JobModel>::empty() =~= hub.jobs.drop_last());
}

/// Showing a room sends each player in it that player's view, in the order of the rows, and
/// nothing to anybody else.
pub proof fn what_showing_does(hub: HubModel, code: Seq<char>, room: RoomModel, luck: LuckModel)
    requires
        is_up(hub, JobModel::Broadcast { code }),
        room_named(hub.rooms, code) == Some(room),
    ensures
        ({
            let after = hub.step(luck);
            &&& nobody_moves(hub, after.hub)
            &&& goes_on_with(hub, after, seq![])
            &&& after.hub.outbox.len() == hub.outbox.len() + room.players.len()
            &&& forall|k: int|
                0 <= k < hub.outbox.len() ==> #[trigger] after.hub.outbox[k] == hub.outbox[k]
            &&& forall|j: int|
                0 <= j < room.players.len() ==> after.hub.outbox[hub.outbox.len() + j] == (
                    (#[trigger] room.players[j]).id,
                    ServerMessageModel::State(room.seen_by(room.players[j].id)),
                )
        }),
{
    assert(hub.jobs.drop_last() + Seq::<JobModel>::empty() =~= hub.jobs.drop_last());
}

/// What comes in is done in this order: what the store tells, in the order in which it came; who
/// has gone; what the players ask; and a look at the time. What was left to do comes after.
pub proof fn in_which_order_things_are_done(
    hub: HubModel,
    remote: Seq<StoreEventModel>,
    gone: Seq<Uuid>,
    commands: Seq<(Uuid, ClientMessageModel)>,
)
    ensures
        ({
            let after = hub.lines_up(remote, gone, commands);
            let n = after.jobs.len() as int;
            let asked = remote.len() + gone.len();
            &&& after == (HubModel { jobs: after.jobs, ..hub })
            &&& n == hub.jobs.len() + 1 + commands.len() + gone.len() + remote.len()
            &&& forall|k: int|
                0 <= k < remote.len() ==> after.jobs[n - 1 - k] == (JobModel::Remote {
                    event: #[trigger] remote[k],
                })
            &&& forall|k: int|
                0 <= k < gone.len() ==> after.jobs[n - 1 - remote.len() - k] == (
                JobModel::Disconnect { player: #[trigger] gone[k] })
            &&& forall|k: int|
                0 <= k < commands.len() ==> after.jobs[n - 1 - asked - k] == (JobModel::Command {
                    player: (#[trigger] commands[k]).0,
                    msg: commands[k].1,
                })
            &&& after.jobs[hub.jobs.len() as int] == JobModel::Expire
            &&& after.jobs.take(hub.jobs.len() as int) == hub.jobs
        }),
{
    let after = hub.lines_up(remote, gone, commands);
    assert(after.jobs.take(hub.jobs.len() as int) =~= hub.jobs);
}

/// The earliest deadline is one of a room, and none is earlier; there is none only where no room
/// has one.
pub proof fn which_deadline_is_the_earliest(rooms: Seq<RoomModel>)
    ensures
        match earliest_deadline(rooms) {
            Some(d) => {
                &&& exists|i: int|
                    0 <= i < rooms.len() && (#[trigger] rooms[i]).action_deadline_ms == Some(d)
                &&& forall|i: int|
                    0 <= i < rooms.len() ==> ((#[trigger] rooms[i]).action_deadline_ms matches Some(
                        e,
                    ) ==> d <= e)
            },
            None => forall|i: int|
                0 <= i < rooms.len() ==> (#[trigger] rooms[i]).action_deadline_ms is None,
        },
    decreases rooms.len(),
{
    if rooms.len() > 0 {
        let rest = rooms.drop_last();
        let n = rest.len() as int;
        which_deadline_is_the_earliest(rest);
        assert(rooms[n] == rooms.last());
        assert forall|i: int| 0 <= i < n implies (#[trigger] rooms[i]) == rest[i] by {}
        if let Some(d) = earliest_deadline(rest) {
            let i = choose|i: int|
                0 <= i < rest.len() && (#[trigger] rest[i]).action_deadline_ms == Some(d);
            assert(rooms[i].action_deadline_ms == Some(d));
        }
    }
}

/// The loop sleeps to the first deadline, for at least a millisecond and never longer than 400, and
/// 400 where a deadline has passed.
pub proof fn how_long_the_loop_sleeps(rooms: Seq<RoomModel>, now: u64)
    ensures
        ({
            let wait = idle_wait(rooms, now);
            let passed = exists|i: int|
                0 <= i < rooms.len() && ((#[trigger] rooms[i]).action_deadline_ms matches Some(d)
                    && d <= now);
            &&& 0 < wait <= 400
            &&& passed ==> wait == 400
            &&& !passed ==> forall|i: int|
                0 <= i < rooms.len() ==> ((#[trigger] rooms[i]).action_deadline_ms matches Some(d)
                    ==> now + wait <= d)
            &&& wait == 400 || exists|i: int|
                0 <= i < rooms.len() && ((#[trigger] rooms[i]).action_deadline_ms matches Some(d)
                    && now + wait == d)
        }),
{
    which_deadline_is_the_earliest(rooms);
    if let Some(d) = earliest_deadline(rooms) {
        let i = choose|i: int|
            0 <= i < rooms.len() && (#[trigger] rooms[i]).action_deadline_ms == Some(d);
        assert(rooms[i].action_deadline_ms == Some(d));
    }
}

} // verus!
