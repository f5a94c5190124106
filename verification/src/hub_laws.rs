//! What holds of the hub, whatever is asked of it.

use crate::game_laws::{
    holds_no_row, requests_keep_the_table, timeouts_keep_the_table, vacating_keeps_the_name,
};
use crate::hub_model::{
    HubModel, JobModel, StoreCallModel, StoreReplyModel, VisitModel, WaitModel, command_jobs,
    gone_jobs, remote_jobs, replies_to,
};
use crate::ids::Uuid;
use crate::protocol::{ClientMessageModel, GamePhase, ServerMessageModel};
use crate::requests::LuckModel;
use crate::room_laws::{
    disconnects_keep_order, is_fresh, joins_keep_order, new_rooms_are_in_order, orderly,
    requests_keep_order, timeouts_keep_order, vacating_keeps_order,
};
use crate::room_model::{
    ForfeitCause, PlayerModel, RoomModel, has_id, has_seat, lemma_first_row,
    lemma_forfeit_keeps_seats,
};
use crate::rooms::{
    codes_but, distinct_codes, distinct_members, lemma_with_member, lemma_without_member,
    member_code, member_from, room_from, room_named, room_row, with_dropped, with_member,
    with_upserted, without_member,
};
use crate::store::StoreEventModel;
use vstd::prelude::*;

verus! {

// ---------------------------------------------------------------------------
// Rooms and members
// ---------------------------------------------------------------------------

pub proof fn lemma_room_from(rooms: Seq<RoomModel>, code: Seq<char>, from: int)
    requires
        0 <= from,
    ensures
        match room_from(rooms, code, from) {
            Some(i) => {
                &&& from <= i < rooms.len()
                &&& rooms[i].code == code
                &&& forall|j: int| from <= j < i ==> (#[trigger] rooms[j]).code != code
            },
            None => forall|j: int| from <= j < rooms.len() ==> (#[trigger] rooms[j]).code != code,
        },
    decreases rooms.len() - from,
{
    if from < rooms.len() && rooms[from].code != code {
        lemma_room_from(rooms, code, from + 1);
    }
}

/// A room that was put among the others is found under its code.
pub proof fn upserted_rooms_are_found(rooms: Seq<RoomModel>, room: RoomModel)
    ensures
        room_named(with_upserted(rooms, room), room.code) == Some(room),
{
    lemma_room_from(rooms, room.code, 0);
    let after = with_upserted(rooms, room);
    lemma_room_from(after, room.code, 0);
    match room_row(rooms, room.code) {
        Some(i) => {
            assert(after[i].code == room.code);
            let k = room_row(after, room.code)->0;
            if k < i {
                assert(rooms[k].code != room.code);
            }
        },
        None => {
            assert(after[after.len() - 1] == room);
            let k = room_row(after, room.code)->0;
            if k < rooms.len() {
                assert(rooms[k].code != room.code);
            }
        },
    }
}

/// A room that was taken away is not found any more.
pub proof fn dropped_rooms_are_not_found(rooms: Seq<RoomModel>, code: Seq<char>)
    requires
        distinct_codes(rooms),
    ensures
        room_named(with_dropped(rooms, code), code) is None,
{
    lemma_room_from(rooms, code, 0);
    let after = with_dropped(rooms, code);
    lemma_room_from(after, code, 0);
    if let Some(k) = room_row(after, code) {
        let i = room_row(rooms, code)->0;
        if k < i {
            assert(after[k] == rooms[k]);
        } else {
            assert(after[k] == rooms[k + 1]);
            assert(rooms[i].code == rooms[k + 1].code);
        }
    }
}

proof fn lemma_update_distinct(rooms: Seq<RoomModel>, i: int, room: RoomModel)
    requires
        distinct_codes(rooms),
        0 <= i < rooms.len(),
        room.code == rooms[i].code,
    ensures
        distinct_codes(rooms.update(i, room)),
{
    let after = rooms.update(i, room);
    assert forall|a: int, b: int| 0 <= a < b < after.len() implies (#[trigger] after[a]).code != (
    #[trigger] after[b]).code by {
        assert(rooms[a].code != rooms[b].code);
    }
}

proof fn lemma_upsert_distinct(rooms: Seq<RoomModel>, room: RoomModel)
    requires
        distinct_codes(rooms),
    ensures
        distinct_codes(with_upserted(rooms, room)),
{
    lemma_room_from(rooms, room.code, 0);
    match room_row(rooms, room.code) {
        Some(i) => lemma_update_distinct(rooms, i, room),
        None => {
            let after = rooms.push(room);
            assert forall|a: int, b: int| 0 <= a < b < after.len() implies (
            #[trigger] after[a]).code != (#[trigger] after[b]).code by {
                if b < rooms.len() {
                    assert(rooms[a].code != rooms[b].code);
                } else {
                    assert(rooms[a].code != room.code);
                }
            }
        },
    }
}

proof fn lemma_drop_distinct(rooms: Seq<RoomModel>, code: Seq<char>)
    requires
        distinct_codes(rooms),
    ensures
        distinct_codes(with_dropped(rooms, code)),
{
    lemma_room_from(rooms, code, 0);
    if let Some(i) = room_row(rooms, code) {
        let after = rooms.remove(i);
        assert forall|a: int, b: int| 0 <= a < b < after.len() implies (#[trigger] after[a]).code
            != (#[trigger] after[b]).code by {
            let c = if a < i {
                a
            } else {
                a + 1
            };
            let d = if b < i {
                b
            } else {
                b + 1
            };
            assert(rooms[c].code != rooms[d].code);
        }
    }
}

proof fn lemma_without(members: Seq<(Uuid, Seq<char>)>, gone: Uuid, id: Uuid)
    ensures
        member_code(without_member(members, gone), id) == if id == gone {
            None
        } else {
            member_code(members, id)
        },
    decreases members.len(),
{
    reveal(Seq::filter);
    if members.len() > 0 {
        let fewer = members.drop_last();
        lemma_without(fewer, gone, id);
        lemma_member_last(members, id);
        if members.last().0 != gone {
            let kept = without_member(fewer, gone);
            assert(without_member(members, gone) =~= kept.push(members.last()));
            lemma_member_last(kept.push(members.last()), id);
            assert(kept.push(members.last()).drop_last() =~= kept);
        } else {
            assert(without_member(members, gone) =~= without_member(fewer, gone));
        }
    }
}

proof fn lemma_member_last(members: Seq<(Uuid, Seq<char>)>, id: Uuid)
    requires
        members.len() > 0,
    ensures
        member_code(members, id) == match member_code(members.drop_last(), id) {
            Some(code) => Some(code),
            None => if members.last().0 == id {
                Some(members.last().1)
            } else {
                None
            },
        },
{
    lemma_member_last_from(members, id, 0);
}

proof fn lemma_member_last_from(members: Seq<(Uuid, Seq<char>)>, id: Uuid, from: int)
    requires
        members.len() > 0,
        0 <= from < members.len(),
    ensures
        member_from(members, id, from) == match member_from(members.drop_last(), id, from) {
            Some(code) => Some(code),
            None => if members.last().0 == id {
                Some(members.last().1)
            } else {
                None
            },
        },
    decreases members.len() - from,
{
    if from < members.len() - 1 {
        assert(members.drop_last()[from] == members[from]);
        if members[from].0 != id {
            lemma_member_last_from(members, id, from + 1);
        }
    } else {
        assert(member_from(members, id, from + 1) is None);
    }
}

/// Who is put into a room is in that room, and everyone else is where they were.
pub proof fn members_are_tracked(
    members: Seq<(Uuid, Seq<char>)>,
    joined: Uuid,
    code: Seq<char>,
    id: Uuid,
)
    ensures
        member_code(with_member(members, joined, code), id) == if id == joined {
            Some(code)
        } else {
            member_code(members, id)
        },
{
    lemma_without(members, joined, id);
    let after = with_member(members, joined, code);
    assert(after.drop_last() =~= without_member(members, joined));
    lemma_member_last(after, id);
}

/// Who is taken out of a room is in none, and everyone else is where they were.
pub proof fn members_are_forgotten(members: Seq<(Uuid, Seq<char>)>, gone: Uuid, id: Uuid)
    ensures
        member_code(without_member(members, gone), id) == if id == gone {
            None
        } else {
            member_code(members, id)
        },
{
    lemma_without(members, gone, id);
}

/// No step enters a connection twice.
pub proof fn steps_keep_members_distinct(hub: HubModel, luck: LuckModel)
    requires
        distinct_members(hub.members),
    ensures
        distinct_members(hub.step(luck).hub.members),
{
    if hub.jobs.len() > 0 {
        match hub.jobs.last() {
            JobModel::Greet { player, code, .. } => lemma_with_member(hub.members, player, code),
            JobModel::Enter { code, visit: VisitModel::Join { seat_key, .. } } => {
                if let Some(room) = room_named(hub.rooms, code) {
                    if let Some(old_id) = room.holder(seat_key) {
                        lemma_without_member(hub.members, old_id);
                    }
                }
            },
            JobModel::SweepNext { seat_key, codes, at, .. } => {
                if at < codes.len() {
                    if let Some(room) = room_named(hub.rooms, codes[at as int]) {
                        if let Some((old_id, _)) = room.vacate_result(seat_key) {
                            lemma_without_member(hub.members, old_id);
                        }
                    }
                }
            },
            _ => {},
        }
    }
}

/// Nor does a reply of the store.
pub proof fn replies_keep_members(hub: HubModel, reply: StoreReplyModel)
    ensures
        hub.resumed(reply).members == hub.members,
{
}

// ---------------------------------------------------------------------------
// Requests
// ---------------------------------------------------------------------------

/// A request that the room refuses is answered to the one who made it, with the words of the
/// refusal, and has no other effect: no room changes, nothing is saved, nobody else hears of it.
pub proof fn refused_requests_change_nothing(
    hub: HubModel,
    code: Seq<char>,
    player: Uuid,
    msg: ClientMessageModel,
    luck: LuckModel,
)
    requires
        room_named(hub.rooms, code) is Some,
        room_named(hub.rooms, code)->0.answer(player, msg, luck).refusal is Some,
    ensures
        hub.enter(code, VisitModel::Act { player, msg }, luck) == hub.told(
            player,
            room_named(hub.rooms, code)->0.answer(player, msg, luck).refusal->0,
        ),
{
}

/// A request that the room grants changes that room as the rules say and no other, and the room
/// is then saved and shown to its players.
pub proof fn granted_requests_change_one_room(
    hub: HubModel,
    code: Seq<char>,
    player: Uuid,
    msg: ClientMessageModel,
    luck: LuckModel,
)
    requires
        room_named(hub.rooms, code) is Some,
        room_named(hub.rooms, code)->0.answer(player, msg, luck).refusal is None,
    ensures
        ({
            let before = room_named(hub.rooms, code)->0;
            let after = hub.enter(code, VisitModel::Act { player, msg }, luck);
            &&& room_named(after.rooms, code) == Some(before.answer(player, msg, luck).after)
            &&& forall|other: Seq<char>|
                other != code ==> #[trigger] room_named(after.rooms, other) == room_named(
                    hub.rooms,
                    other,
                )
            &&& after.outbox == hub.outbox
            &&& after.members == hub.members
            &&& after.jobs == hub.jobs + seq![
                JobModel::Broadcast { code },
                JobModel::Persist { code },
            ]
        }),
{
    lemma_room_from(hub.rooms, code, 0);
    let i = room_row(hub.rooms, code)->0;
    let room = hub.rooms[i].answer(player, msg, luck).after;
    requests_keep_the_table(hub.rooms[i], player, msg, luck);
    lemma_replaced(hub.rooms, i, room);
    let after = hub.enter(code, VisitModel::Act { player, msg }, luck);
    assert(after.jobs =~= hub.jobs + seq![
        JobModel::Broadcast { code },
        JobModel::Persist { code },
    ]);
}

pub proof fn lemma_replaced(rooms: Seq<RoomModel>, i: int, room: RoomModel)
    requires
        0 <= i < rooms.len(),
        room.code == rooms[i].code,
        room_row(rooms, room.code) == Some(i),
    ensures
        room_named(rooms.update(i, room), room.code) == Some(room),
        forall|other: Seq<char>|
            other != room.code ==> #[trigger] room_named(rooms.update(i, room), other)
                == room_named(rooms, other),
{
    let after = rooms.update(i, room);
    lemma_replaced_from(rooms, i, room, room.code, 0);
    assert forall|other: Seq<char>| other != room.code implies #[trigger] room_named(after, other)
        == room_named(rooms, other) by {
        lemma_replaced_from(rooms, i, room, other, 0);
        lemma_room_from(rooms, other, 0);
    }
}

proof fn lemma_replaced_from(
    rooms: Seq<RoomModel>,
    i: int,
    room: RoomModel,
    code: Seq<char>,
    from: int,
)
    requires
        0 <= i < rooms.len(),
        room.code == rooms[i].code,
        0 <= from,
    ensures
        room_from(rooms.update(i, room), code, from) == room_from(rooms, code, from),
    decreases rooms.len() - from,
{
    if from < rooms.len() {
        lemma_replaced_from(rooms, i, room, code, from + 1);
    }
}

/// Who is refused a seat stays where they are: the answer is the only effect.
pub proof fn refused_joins_change_nothing(
    hub: HubModel,
    code: Seq<char>,
    player: Uuid,
    name: Seq<char>,
    seat_key: Uuid,
    luck: LuckModel,
)
    requires
        match room_named(hub.rooms, code) {
            Some(room) => room.join_refusal(seat_key) is Some,
            None => true,
        },
    ensures
        ({
            let words = match room_named(hub.rooms, code) {
                Some(room) => room.join_refusal(seat_key)->0,
                None => "Game not found"@,
            };
            hub.enter(code, VisitModel::Join { player, name, seat_key }, luck) == hub.told(
                player,
                words,
            )
        }),
{
}

/// Who asks for something without being in a room is told so, and nothing else happens.
pub proof fn strangers_are_told_so(hub: HubModel, player: Uuid, msg: ClientMessageModel)
    requires
        member_code(hub.members, player) is None,
        !(msg is CreateGame || msg is JoinGame || msg is LeaveGame || msg is Sync || msg is Pong),
    ensures
        hub.command(player, msg) == hub.told(player, "You are not in a game"@),
{
}

/// A snapshot goes to the one who asked for it and changes nothing.
pub proof fn snapshots_are_quiet(hub: HubModel, code: Seq<char>, player: Uuid, luck: LuckModel)
    requires
        room_named(hub.rooms, code) is Some,
    ensures
        hub.enter(code, VisitModel::Show { player }, luck) == hub.sent(
            player,
            ServerMessageModel::State(room_named(hub.rooms, code)->0.seen_by(player)),
        ),
{
}

/// Who is greeted is in the room, is told its code, and is shown the room after that.
pub proof fn greeted_players_are_in_the_room(
    hub: HubModel,
    player: Uuid,
    code: Seq<char>,
    created: bool,
)
    ensures
        ({
            let after = hub.greet(player, code, created);
            let news = match room_named(hub.rooms, code) {
                Some(room) => room.news(),
                None => seq![],
            };
            &&& member_code(after.members, player) == Some(code)
            &&& after.outbox.len() == hub.outbox.len() + 1 + news.len()
            &&& after.outbox[hub.outbox.len() as int].0 == player
            &&& after.outbox.skip(hub.outbox.len() as int + 1) == news
        }),
{
    members_are_tracked(hub.members, player, code, player);
    let after = hub.greet(player, code, created);
    let news = match room_named(hub.rooms, code) {
        Some(room) => room.news(),
        None => seq![],
    };
    assert(after.outbox.skip(hub.outbox.len() as int + 1) =~= news);
}

/// Everyone at a table is shown the table, each as that player sees it.
pub proof fn everyone_sees_their_own_view(room: RoomModel, i: int)
    requires
        0 <= i < room.players.len(),
    ensures
        room.news().len() == room.players.len(),
        room.news()[i].0 == room.players[i].id,
        room.news()[i].1 matches ServerMessageModel::State(view) && view.you_are
            == room.players[i].id,
{
}

/// Every state that is to be sent is the view of the one whom it is sent to.
pub open spec fn own_views(outbox: Seq<(Uuid, ServerMessageModel)>) -> bool {
    forall|k: int|
        0 <= k < outbox.len() ==> ((#[trigger] outbox[k]).1 matches ServerMessageModel::State(view)
            ==> view.you_are == outbox[k].0)
}

proof fn lemma_own_push(outbox: Seq<(Uuid, ServerMessageModel)>, to: Uuid, msg: ServerMessageModel)
    requires
        own_views(outbox),
        msg matches ServerMessageModel::State(view) ==> view.you_are == to,
    ensures
        own_views(outbox.push((to, msg))),
{
}

proof fn lemma_own_news(outbox: Seq<(Uuid, ServerMessageModel)>, room: RoomModel)
    requires
        own_views(outbox),
    ensures
        own_views(outbox + room.news()),
{
    let after = outbox + room.news();
    assert forall|k: int| 0 <= k < after.len() implies ((
    #[trigger] after[k]).1 matches ServerMessageModel::State(view) ==> view.you_are
        == after[k].0) by {
        if k < outbox.len() {
            assert(after[k] == outbox[k]);
        } else {
            everyone_sees_their_own_view(room, k - outbox.len());
            assert(after[k] == room.news()[k - outbox.len()]);
        }
    }
}

/// Nobody is ever sent another player's view.
pub proof fn steps_show_everyone_their_own_view(hub: HubModel, luck: LuckModel)
    requires
        own_views(hub.outbox),
    ensures
        own_views(hub.step(luck).hub.outbox),
{
    if hub.jobs.len() > 0 {
        let rest = HubModel { jobs: hub.jobs.drop_last(), ..hub };
        match hub.jobs.last() {
            JobModel::Command { player, msg } => {
                lemma_own_push(
                    hub.outbox,
                    player,
                    ServerMessageModel::Error { message: "You are not in a game"@ },
                );
            },
            JobModel::Create { player, .. } => {
                lemma_own_push(
                    hub.outbox,
                    player.id,
                    ServerMessageModel::Error { message: "Could not create a room"@ },
                );
            },
            JobModel::Enter { code, visit } => lemma_enter_views(rest, code, visit, luck),
            JobModel::Greet { player, code, created } => {
                let greeting = rest.greet(player, code, created).outbox[hub.outbox.len() as int].1;
                lemma_own_push(hub.outbox, player, greeting);
                if let Some(room) = room_named(hub.rooms, code) {
                    lemma_own_news(hub.outbox.push((player, greeting)), room);
                }
            },
            JobModel::Broadcast { code } => {
                if let Some(room) = room_named(hub.rooms, code) {
                    lemma_own_news(hub.outbox, room);
                }
            },
            _ => {},
        }
    }
}

proof fn lemma_enter_views(hub: HubModel, code: Seq<char>, visit: VisitModel, luck: LuckModel)
    requires
        own_views(hub.outbox),
    ensures
        own_views(hub.enter(code, visit, luck).outbox),
{
    match visit {
        VisitModel::Show { player } => {
            if let Some(room) = room_named(hub.rooms, code) {
                lemma_own_push(
                    hub.outbox,
                    player,
                    ServerMessageModel::State(room.seen_by(player)),
                );
            }
        },
        _ => {},
    }
}

/// Nor does a reply of the store bring anyone another player's view.
pub proof fn replies_show_everyone_their_own_view(hub: HubModel, reply: StoreReplyModel)
    requires
        own_views(hub.outbox),
    ensures
        own_views(hub.resumed(reply).outbox),
{
}

/// Who holds no row of a room is shown nothing of it.
pub proof fn strangers_see_nothing(room: RoomModel, id: Uuid)
    requires
        holds_no_row(room, id),
    ensures
        forall|k: int| 0 <= k < room.news().len() ==> (#[trigger] room.news()[k]).0 != id,
{
    assert forall|k: int| 0 <= k < room.news().len() implies (#[trigger] room.news()[k]).0
        != id by {
        assert(room.players[k].id != id);
    }
}

// ---------------------------------------------------------------------------
// The store
// ---------------------------------------------------------------------------

/// A room is saved as the version after the one that is expected in the store.
pub proof fn saves_count_versions(hub: HubModel, code: Seq<char>)
    requires
        hub.stored,
        room_named(hub.rooms, code) is Some,
        room_named(hub.rooms, code)->0.version < u64::MAX,
    ensures
        ({
            let room = room_named(hub.rooms, code)->0;
            &&& hub.persist(code).call matches Some(StoreCallModel::Update { room: sent, expected })
            &&& expected == room.version
            &&& sent.version == expected + 1
            &&& sent == (RoomModel { version: sent.version, ..room })
            &&& hub.persist(code).hub.rooms == hub.rooms
        }),
{
}

/// A save that went through leaves the room as it was saved.
pub proof fn saved_rooms_are_as_saved(hub: HubModel, code: Seq<char>)
    requires
        hub.stored,
        room_named(hub.rooms, code) is Some,
        room_named(hub.rooms, code)->0.version < u64::MAX,
    ensures
        ({
            let step = hub.persist(code);
            let after = step.hub.resumed(StoreReplyModel::Saved(Ok(true)));
            &&& step.call matches Some(StoreCallModel::Update { room: sent, .. })
            &&& room_named(after.rooms, code) == Some(sent)
            &&& after.jobs == hub.jobs
            &&& after.waiting is None
        }),
{
    lemma_room_from(hub.rooms, code, 0);
    let i = room_row(hub.rooms, code)->0;
    let room = hub.rooms[i];
    lemma_replaced(hub.rooms, i, RoomModel { version: (room.version + 1) as u64, ..room });
}

/// A save that did not go through leaves the room and its version as they were. Where another
/// process was faster, what that one saved is fetched.
pub proof fn failed_saves_change_nothing(hub: HubModel, code: Seq<char>, words: Seq<char>)
    requires
        hub.stored,
        room_named(hub.rooms, code) is Some,
    ensures
        ({
            let waiting = hub.persist(code).hub;
            let conflict = waiting.resumed(StoreReplyModel::Saved(Ok(false)));
            let failure = waiting.resumed(StoreReplyModel::Saved(Err(words)));
            &&& conflict.rooms == hub.rooms
            &&& conflict.jobs == hub.jobs.push(JobModel::Load { code, visit: VisitModel::Reload })
            &&& failure == (HubModel { waiting: None, ..hub })
        }),
{
}

/// A room that the store no longer has is given up here too, and who came for it is told.
pub proof fn lost_rooms_are_given_up(hub: HubModel, code: Seq<char>, visit: VisitModel)
    requires
        hub.waiting == Some(WaitModel::Load { code, visit }),
        distinct_codes(hub.rooms),
    ensures
        ({
            let after = hub.resumed(StoreReplyModel::Room(Ok(None)));
            &&& room_named(after.rooms, code) is None
            &&& after.jobs == hub.jobs
            &&& visit matches VisitModel::Join { player, .. } ==> after.outbox == hub.outbox.push(
                (player, ServerMessageModel::Error { message: "Game not found"@ }),
            )
            &&& visit matches VisitModel::Act { player, .. } ==> after.outbox == hub.outbox.push(
                (player, ServerMessageModel::Error { message: "Game not found"@ }),
            )
        }),
{
    dropped_rooms_are_not_found(hub.rooms, code);
}

/// What another process has saved is taken over, and shown where it is newer.
pub proof fn news_from_the_store_is_taken_over(hub: HubModel, room: RoomModel)
    ensures
        ({
            let after = hub.remote(StoreEventModel::Upsert { room });
            let newer = match room_named(hub.rooms, room.code) {
                Some(local) => local.version < room.version,
                None => true,
            };
            &&& room_named(after.rooms, room.code) == Some(room)
            &&& newer ==> after.jobs == hub.jobs.push(JobModel::Broadcast { code: room.code })
            &&& !newer ==> after.jobs == hub.jobs
        }),
{
    upserted_rooms_are_found(hub.rooms, room);
}

/// A step that hands out a call waits for a reply of the kind that the call has.
pub proof fn calls_are_awaited(hub: HubModel, luck: LuckModel)
    requires
        hub.waiting is None,
        hub.next_fits(luck),
    ensures
        hub.step(luck).call is Some <==> hub.step(luck).hub.waiting is Some,
        hub.step(luck).call matches Some(call) ==> forall|reply: StoreReplyModel|
            answers(call, reply) ==> #[trigger] replies_to(hub.step(luck).hub.waiting->0, reply),
{
    if hub.jobs.len() > 0 {
        let rest = HubModel { jobs: hub.jobs.drop_last(), ..hub };
        match hub.jobs.last() {
            JobModel::Persist { code } => {
                lemma_room_from(rest.rooms, code, 0);
            },
            _ => {},
        }
    }
}

/// The reply is of the kind that the call has.
pub open spec fn answers(call: StoreCallModel, reply: StoreReplyModel) -> bool {
    match call {
        StoreCallModel::Get { .. } => reply is Room,
        StoreCallModel::Create { .. } | StoreCallModel::Update { .. } => reply is Saved,
        StoreCallModel::GetSeat { .. } => reply is Seat,
        _ => reply is Done,
    }
}

// ---------------------------------------------------------------------------
// Order
// ---------------------------------------------------------------------------

/// A room in order that has players.
pub open spec fn is_table(room: RoomModel) -> bool {
    orderly(room) && room.players.len() > 0
}

/// The job is one of those that take empty rooms away.
pub open spec fn is_sweeping(job: JobModel) -> bool {
    job is SweepNext || job is Purge
}

/// What a job carries is in order.
pub open spec fn job_in_order(job: JobModel) -> bool {
    match job {
        JobModel::Remote { event: StoreEventModel::Upsert { room } } => is_table(room),
        JobModel::Create { player, .. } => is_fresh(player),
        JobModel::SweepNext { codes, at, empty, .. } => empty.len() <= at <= codes.len()
            <= usize::MAX,
        JobModel::Purge { codes, at } => at <= codes.len() <= usize::MAX,
        _ => true,
    }
}

/// The codes of the rooms that the next job is about to take away.
pub open spec fn doomed(jobs: Seq<JobModel>) -> Seq<Seq<char>> {
    if jobs.len() == 0 {
        seq![]
    } else {
        match jobs.last() {
            JobModel::SweepNext { empty, .. } => empty,
            JobModel::Purge { codes, at } => codes.skip(at as int),
            _ => seq![],
        }
    }
}

pub open spec fn jobs_in_order(jobs: Seq<JobModel>) -> bool {
    &&& forall|k: int| 0 <= k < jobs.len() ==> job_in_order(#[trigger] jobs[k])
    &&& forall|k: int| 0 <= k < jobs.len() - 1 ==> !is_sweeping(#[trigger] jobs[k])
}

/// The rooms have codes of their own and are in order, and none is empty but those about to be
/// taken away.
pub open spec fn rooms_in_order(rooms: Seq<RoomModel>, doomed: Seq<Seq<char>>) -> bool {
    &&& distinct_codes(rooms)
    &&& forall|i: int| 0 <= i < rooms.len() ==> orderly(#[trigger] rooms[i])
    &&& forall|i: int|
        0 <= i < rooms.len() && (#[trigger] rooms[i]).players.len() == 0 ==> doomed.contains(
            rooms[i].code,
        )
}

pub open spec fn waiting_in_order(waiting: Option<WaitModel>, jobs: Seq<JobModel>) -> bool {
    &&& waiting matches Some(WaitModel::Insert { player, .. }) ==> is_fresh(player)
    &&& waiting is Some && !(waiting->0 is Done) ==> jobs.len() == 0 || !is_sweeping(jobs.last())
}

/// A hub in order.
pub open spec fn hub_in_order(hub: HubModel) -> bool {
    &&& rooms_in_order(hub.rooms, doomed(hub.jobs))
    &&& jobs_in_order(hub.jobs)
    &&& waiting_in_order(hub.waiting, hub.jobs)
}

/// What the store replies is in order.
pub open spec fn reply_in_order(reply: StoreReplyModel) -> bool {
    reply matches StoreReplyModel::Room(Ok(Some(room))) ==> is_table(room)
}

proof fn lemma_push_job(jobs: Seq<JobModel>, job: JobModel)
    requires
        jobs_in_order(jobs),
        jobs.len() > 0 ==> !is_sweeping(jobs.last()),
        job_in_order(job),
    ensures
        jobs_in_order(jobs.push(job)),
        doomed(jobs.push(job)) == doomed(seq![job]),
{
    let after = jobs.push(job);
    assert forall|k: int| 0 <= k < after.len() implies job_in_order(#[trigger] after[k]) by {
        if k < jobs.len() {
            assert(job_in_order(jobs[k]));
        }
    }
    assert forall|k: int| 0 <= k < after.len() - 1 implies !is_sweeping(#[trigger] after[k]) by {
        if k < jobs.len() - 1 {
            assert(!is_sweeping(jobs[k]));
        } else {
            assert(after[k] == jobs.last());
        }
    }
}

proof fn lemma_rest_jobs(jobs: Seq<JobModel>)
    requires
        jobs_in_order(jobs),
        jobs.len() > 0,
    ensures
        jobs_in_order(jobs.drop_last()),
        jobs.len() > 1 ==> !is_sweeping(jobs.drop_last().last()),
        doomed(jobs.drop_last()) =~= Seq::<Seq<char>>::empty(),
        job_in_order(jobs.last()),
{
    let rest = jobs.drop_last();
    assert forall|k: int| 0 <= k < rest.len() implies job_in_order(#[trigger] rest[k]) by {
        assert(job_in_order(jobs[k]));
    }
    assert forall|k: int| 0 <= k < rest.len() implies !is_sweeping(#[trigger] rest[k]) by {
        assert(!is_sweeping(jobs[k]));
    }
    if rest.len() > 0 {
        assert(!is_sweeping(rest[rest.len() - 1]));
    }
}

/// With no room doomed, every room is a table.
spec fn all_tables(rooms: Seq<RoomModel>) -> bool {
    &&& distinct_codes(rooms)
    &&& forall|i: int| 0 <= i < rooms.len() ==> is_table(#[trigger] rooms[i])
}

proof fn lemma_tables(rooms: Seq<RoomModel>, doomed: Seq<Seq<char>>)
    ensures
        all_tables(rooms) ==> rooms_in_order(rooms, doomed),
        rooms_in_order(rooms, doomed) && doomed.len() == 0 ==> all_tables(rooms),
{
}

proof fn lemma_update_tables(rooms: Seq<RoomModel>, i: int, room: RoomModel)
    requires
        all_tables(rooms),
        0 <= i < rooms.len(),
        room.code == rooms[i].code,
        is_table(room),
    ensures
        all_tables(rooms.update(i, room)),
{
    lemma_update_distinct(rooms, i, room);
}

proof fn lemma_upsert_tables(rooms: Seq<RoomModel>, room: RoomModel)
    requires
        all_tables(rooms),
        is_table(room),
    ensures
        all_tables(with_upserted(rooms, room)),
{
    lemma_upsert_distinct(rooms, room);
    lemma_room_from(rooms, room.code, 0);
}

proof fn lemma_drop_tables(rooms: Seq<RoomModel>, code: Seq<char>)
    requires
        all_tables(rooms),
    ensures
        all_tables(with_dropped(rooms, code)),
{
    lemma_drop_distinct(rooms, code);
    lemma_room_from(rooms, code, 0);
    if let Some(i) = room_row(rooms, code) {
        let after = rooms.remove(i);
        assert forall|k: int| 0 <= k < after.len() implies is_table(#[trigger] after[k]) by {
            assert(is_table(
                rooms[if k < i {
                    k
                } else {
                    k + 1
                }],
            ));
        }
    }
}

/// A hub between jobs: every room is a table, and nothing is being swept.
spec fn clear(hub: HubModel) -> bool {
    &&& all_tables(hub.rooms)
    &&& jobs_in_order(hub.jobs)
    &&& hub.jobs.len() > 0 ==> !is_sweeping(hub.jobs.last())
    &&& hub.waiting is None
}

proof fn lemma_clear_in_order(hub: HubModel)
    requires
        clear(hub),
    ensures
        hub_in_order(hub),
{
    lemma_tables(hub.rooms, doomed(hub.jobs));
}

proof fn lemma_clear_push(hub: HubModel, job: JobModel)
    requires
        clear(hub),
        job_in_order(job),
    ensures
        hub_in_order(hub.then_do(job)),
        !is_sweeping(job) ==> clear(hub.then_do(job)),
{
    lemma_push_job(hub.jobs, job);
    lemma_tables(hub.rooms, doomed(hub.then_do(job).jobs));
}

proof fn lemma_command_order(hub: HubModel, player: Uuid, msg: ClientMessageModel)
    requires
        clear(hub),
    ensures
        hub_in_order(hub.command(player, msg)),
{
    lemma_clear_in_order(hub);
    let after = hub.command(player, msg);
    if after.jobs.len() > hub.jobs.len() {
        lemma_clear_push(hub, after.jobs.last());
        assert(after == hub.then_do(after.jobs.last()));
    }
}

proof fn lemma_disconnect_order(hub: HubModel, player: Uuid)
    requires
        clear(hub),
    ensures
        hub_in_order(hub.disconnect(player)),
{
    lemma_clear_in_order(hub);
    if let Some(code) = member_code(hub.members, player) {
        lemma_room_from(hub.rooms, code, 0);
        if let Some(i) = room_row(hub.rooms, code) {
            if hub.rooms[i].is_present(player) {
                let room = hub.rooms[i].after_disconnect(player);
                assert(is_table(hub.rooms[i]));
                disconnects_keep_order(hub.rooms[i], player);
                lemma_first_row(hub.rooms[i].players, has_id(player), 0);
                lemma_update_tables(hub.rooms, i, room);
                lemma_save_and_show(hub.with_room(i, room), code);
            }
        }
    }
}

proof fn lemma_save_and_show(hub: HubModel, code: Seq<char>)
    requires
        clear(hub),
    ensures
        hub_in_order(hub.saves_and_shows(code)),
        clear(hub.saves_and_shows(code)),
{
    let first = JobModel::Broadcast { code };
    lemma_clear_push(hub, first);
    lemma_clear_push(hub.then_do(first), JobModel::Persist { code });
}

proof fn lemma_remote_order(hub: HubModel, event: StoreEventModel)
    requires
        clear(hub),
        job_in_order(JobModel::Remote { event }),
    ensures
        hub_in_order(hub.remote(event)),
{
    match event {
        StoreEventModel::Upsert { room } => {
            lemma_upsert_tables(hub.rooms, room);
            let taken = hub.upserted(room);
            lemma_clear_in_order(taken);
            lemma_clear_push(taken, JobModel::Broadcast { code: room.code });
        },
        StoreEventModel::Delete { code } => {
            lemma_drop_tables(hub.rooms, code);
            lemma_clear_in_order(hub.dropped(code));
        },
    }
}

proof fn lemma_expire_next_order(
    hub: HubModel,
    now: u64,
    codes: Seq<Seq<char>>,
    at: usize,
    dirty: Seq<Seq<char>>,
    luck: LuckModel,
)
    requires
        clear(hub),
    ensures
        hub_in_order(hub.expire_next(now, codes, at, dirty, luck)),
{
    if at >= codes.len() {
        lemma_clear_push(hub, JobModel::Refresh { codes: dirty, at: 0, save: false });
    } else {
        let code = codes[at as int];
        let next = (at + 1) as usize;
        lemma_clear_push(hub, JobModel::ExpireNext { now, codes, at: next, dirty });
        lemma_room_from(hub.rooms, code, 0);
        if let Some(i) = room_row(hub.rooms, code) {
            if hub.rooms[i].is_overdue(now) {
                let room = hub.rooms[i].with_actor_out(luck);
                lemma_out_is_table(hub.rooms[i], now, luck);
                lemma_update_tables(hub.rooms, i, room);
                let put = hub.with_room(i, room);
                let again = JobModel::ExpireNext { now, codes, at: next, dirty: dirty.push(code) };
                lemma_clear_push(put, again);
                lemma_clear_push(put.then_do(again), JobModel::Persist { code });
            }
        }
    }
}

proof fn lemma_out_is_table(room: RoomModel, now: u64, luck: LuckModel)
    requires
        is_table(room),
        room.is_overdue(now),
    ensures
        is_table(room.with_actor_out(luck)),
        room.with_actor_out(luck).code == room.code,
{
    reveal(RoomModel::is_overdue);
    reveal(RoomModel::with_actor_out);
    timeouts_keep_order(room, now, luck.now);
    timeouts_keep_the_table(room, now, luck.now);
}

proof fn lemma_act_order(
    hub: HubModel,
    code: Seq<char>,
    player: Uuid,
    msg: ClientMessageModel,
    luck: LuckModel,
)
    requires
        clear(hub),
        hub.acting_fits(code, player, msg, luck),
        room_named(hub.rooms, code) matches Some(room) ==> luck.possible(
            room.dice_called_for(player, msg),
        ),
    ensures
        hub_in_order(hub.act(code, player, msg, luck)),
{
    lemma_clear_in_order(hub);
    lemma_room_from(hub.rooms, code, 0);
    if let Some(i) = room_row(hub.rooms, code) {
        let room = hub.rooms[i];
        let answer = room.answer(player, msg, luck);
        if answer.refusal is None {
            assert(is_table(room));
            requests_keep_order(room, player, msg, luck);
            requests_keep_the_table(room, player, msg, luck);
            lemma_update_tables(hub.rooms, i, answer.after);
            lemma_save_and_show(hub.with_room(i, answer.after), code);
        }
    }
}

proof fn lemma_guest_is_table(room: RoomModel, id: Uuid, name: Seq<char>, seat_key: Uuid)
    requires
        is_table(room),
        room.join_refusal(seat_key) is None,
    ensures
        is_table(room.with_guest(id, name, seat_key)),
        room.with_guest(id, name, seat_key).code == room.code,
{
    reveal(RoomModel::with_guest);
    joins_keep_order(room, id, name, seat_key);
    lemma_first_row(room.players, has_seat(seat_key), 0);
}

proof fn lemma_join_order(
    hub: HubModel,
    code: Seq<char>,
    player: Uuid,
    name: Seq<char>,
    seat_key: Uuid,
)
    requires
        clear(hub),
    ensures
        hub_in_order(hub.join(code, player, name, seat_key)),
{
    lemma_clear_in_order(hub);
    lemma_room_from(hub.rooms, code, 0);
    if let Some(i) = room_row(hub.rooms, code) {
        let room = hub.rooms[i];
        if room.join_refusal(seat_key) is None {
            assert(is_table(room));
            lemma_guest_is_table(room, player, name, seat_key);
            lemma_update_tables(hub.rooms, i, room.with_guest(player, name, seat_key));
            let seated = hub.with_room(i, room.with_guest(player, name, seat_key));
            let freed = match room.holder(seat_key) {
                Some(old_id) => seated.without(old_id),
                None => seated,
            };
            let greet = JobModel::Greet { player, code, created: false };
            let persist = JobModel::Persist { code };
            let seat = JobModel::SetSeat { seat_key, code };
            lemma_clear_push(freed, greet);
            lemma_clear_push(freed.then_do(greet), persist);
            lemma_clear_push(freed.then_do(greet).then_do(persist), seat);
            lemma_clear_push(
                freed.then_do(greet).then_do(persist).then_do(seat),
                JobModel::Vacate { seat_key, keep: Some(code) },
            );
        }
    }
}

proof fn lemma_opens_order(hub: HubModel, player: PlayerModel, code: Seq<char>)
    requires
        clear(hub),
        is_fresh(player),
    ensures
        clear(hub.opens(player, code)),
        hub_in_order(hub.opens(player, code)),
{
    let room = RoomModel::opened(code, player);
    new_rooms_are_in_order(code, player);
    lemma_upsert_tables(hub.rooms, room);
    let greet = JobModel::Greet { player: player.id, code, created: true };
    lemma_clear_push(hub.upserted(room), greet);
    lemma_clear_push(
        hub.upserted(room).then_do(greet),
        JobModel::Vacate { seat_key: player.seat_key, keep: Some(code) },
    );
}

proof fn lemma_create_order(hub: HubModel, player: PlayerModel, tries: usize, luck: LuckModel)
    requires
        clear(hub),
        is_fresh(player),
    ensures
        hub_in_order(hub.create(player, tries, luck).hub),
{
    lemma_clear_in_order(hub);
    if tries > 0 {
        lemma_clear_push(hub, JobModel::Create { player, tries: (tries - 1) as usize });
        lemma_opens_order(hub, player, luck.code);
    }
}

proof fn lemma_refresh_order(hub: HubModel, codes: Seq<Seq<char>>, at: usize, save: bool)
    requires
        clear(hub),
    ensures
        hub_in_order(hub.refresh(codes, at, save)),
{
    lemma_clear_in_order(hub);
    if at < codes.len() {
        let next = JobModel::Refresh { codes, at: (at + 1) as usize, save };
        lemma_clear_push(hub, next);
        lemma_save_and_show(hub.then_do(next), codes[at as int]);
        lemma_clear_push(hub.then_do(next), JobModel::Broadcast { code: codes[at as int] });
    }
}

proof fn lemma_vacated(room: RoomModel, seat_key: Uuid, luck: LuckModel)
    requires
        orderly(room),
        room.row_of_seat(seat_key) is Some,
    ensures
        ({
            let after = room.with_seat_free(room.row_of_seat(seat_key)->0, luck);
            &&& orderly(after)
            &&& after.code == room.code
            &&& after.players.len() == 0 <==> (room.vacate_result(seat_key)->0).1
        }),
{
    reveal(RoomModel::with_seat_free);
    lemma_first_row(room.players, has_seat(seat_key), 0);
    vacating_keeps_order(room, seat_key, luck.fresh, luck.now);
    let i = room.row_of_seat(seat_key)->0;
    vacating_keeps_the_name(room, i, luck.fresh, luck.now);
    let id = room.players[i].id;
    if room.phase != GamePhase::Lobby && room.in_progress() && room.forfeit_refusal(id) is None {
        lemma_forfeit_keeps_seats(room, id, ForfeitCause::Manual, luck.now);
    }
}

/// The rest of a sweep keeps the hub in order: only the rooms that it lists can be empty.
proof fn lemma_sweep_next_order(
    hub: HubModel,
    seat_key: Uuid,
    codes: Seq<Seq<char>>,
    at: usize,
    empty: Seq<Seq<char>>,
    dirty: Seq<Seq<char>>,
    luck: LuckModel,
)
    requires
        rooms_in_order(hub.rooms, empty),
        empty.len() <= at <= codes.len() <= usize::MAX,
        jobs_in_order(hub.jobs),
        hub.jobs.len() > 0 ==> !is_sweeping(hub.jobs.last()),
        hub.waiting is None,
    ensures
        hub_in_order(hub.sweep_next(seat_key, codes, at, empty, dirty, luck).hub),
{
    if at >= codes.len() {
        let refresh = JobModel::Refresh { codes: dirty, at: 0, save: true };
        lemma_push_job(hub.jobs, refresh);
        lemma_push_job(hub.jobs.push(refresh), JobModel::Purge { codes: empty, at: 0 });
        assert(empty.skip(0) =~= empty);
    } else {
        let code = codes[at as int];
        let next = (at + 1) as usize;
        lemma_push_job(
            hub.jobs,
            JobModel::SweepNext { seat_key, codes, at: next, empty, dirty },
        );
        lemma_room_from(hub.rooms, code, 0);
        if let Some(i) = room_row(hub.rooms, code) {
            let room = hub.rooms[i];
            if room.row_of_seat(seat_key) is Some {
                let after = room.with_seat_free(room.row_of_seat(seat_key)->0, luck);
                let now_empty = (room.vacate_result(seat_key)->0).1;
                lemma_vacated(room, seat_key, luck);
                let emptied = if now_empty {
                    empty.push(code)
                } else {
                    empty
                };
                let dirtied = if now_empty {
                    dirty
                } else {
                    dirty.push(code)
                };
                lemma_push_job(
                    hub.jobs,
                    JobModel::SweepNext {
                        seat_key,
                        codes,
                        at: next,
                        empty: emptied,
                        dirty: dirtied,
                    },
                );
                lemma_update_distinct(hub.rooms, i, after);
                let rooms = hub.rooms.update(i, after);
                assert forall|k: int|
                    0 <= k < rooms.len() && (#[trigger] rooms[k]).players.len()
                        == 0 implies emptied.contains(rooms[k].code) by {
                    if k == i {
                        assert(emptied[emptied.len() - 1] == code);
                    } else {
                        assert(empty.contains(hub.rooms[k].code));
                        let n = choose|n: int|
                            0 <= n < empty.len() && empty[n] == hub.rooms[k].code;
                        assert(emptied[n] == empty[n]);
                    }
                }
                assert(rooms_in_order(rooms, emptied));
            }
        }
    }
}

/// Taking one listed room away leaves only the other listed ones empty.
proof fn lemma_purge_order(hub: HubModel, codes: Seq<Seq<char>>, at: usize)
    requires
        at <= codes.len() <= usize::MAX,
        rooms_in_order(hub.rooms, codes.skip(at as int)),
        jobs_in_order(hub.jobs),
        hub.jobs.len() > 0 ==> !is_sweeping(hub.jobs.last()),
        hub.waiting is None,
    ensures
        hub_in_order(hub.purge(codes, at).hub),
{
    if at >= codes.len() {
        assert(codes.skip(at as int) =~= Seq::<Seq<char>>::empty());
        lemma_tables(hub.rooms, codes.skip(at as int));
        lemma_clear_in_order(hub);
    } else {
        let code = codes[at as int];
        let rest = codes.skip(at + 1);
        lemma_push_job(hub.jobs, JobModel::Purge { codes, at: (at + 1) as usize });
        lemma_drop_distinct(hub.rooms, code);
        lemma_room_from(hub.rooms, code, 0);
        let rooms = with_dropped(hub.rooms, code);
        assert forall|k: int| 0 <= k < rooms.len() implies orderly(#[trigger] rooms[k]) && (
        rooms[k].players.len() == 0 ==> rest.contains(rooms[k].code)) by {
            let j = match room_row(hub.rooms, code) {
                Some(i) => if k < i {
                    k
                } else {
                    k + 1
                },
                None => k,
            };
            assert(rooms[k] == hub.rooms[j]);
            assert(orderly(hub.rooms[j]));
            assert(hub.rooms[j].code != code) by {
                if let Some(i) = room_row(hub.rooms, code) {
                    assert(hub.rooms[i].code == code);
                    if hub.rooms[j].code == code {
                        assert(i != j);
                        if i < j {
                            assert(hub.rooms[i].code != hub.rooms[j].code);
                        } else {
                            assert(hub.rooms[j].code != hub.rooms[i].code);
                        }
                    }
                }
            }
            if hub.rooms[j].players.len() == 0 {
                let listed = codes.skip(at as int);
                assert(listed.contains(hub.rooms[j].code));
                let n = choose|n: int| 0 <= n < listed.len() && listed[n] == hub.rooms[j].code;
                assert(n > 0);
                assert(rest[n - 1] == listed[n]);
            }
        }
    }
}

/// Giving up a room whose numbers a step would take out of range keeps a hub in order, and the
/// step can then be taken, whatever its luck.
pub proof fn giving_up_keeps_order(hub: HubModel, luck: LuckModel)
    requires
        hub_in_order(hub),
        hub.next_room() is Some,
    ensures
        hub_in_order(hub.dropped(hub.next_room()->0)),
        hub.dropped(hub.next_room()->0).next_fits(luck),
{
    let code = hub.next_room()->0;
    let rooms = with_dropped(hub.rooms, code);
    dropped_rooms_are_not_found(hub.rooms, code);
    lemma_drop_distinct(hub.rooms, code);
    lemma_room_from(hub.rooms, code, 0);
    assert forall|k: int| 0 <= k < rooms.len() implies orderly(#[trigger] rooms[k]) && (
    rooms[k].players.len() == 0 ==> doomed(hub.jobs).contains(rooms[k].code)) by {
        let j = match room_row(hub.rooms, code) {
            Some(i) => if k < i {
                k
            } else {
                k + 1
            },
            None => k,
        };
        assert(rooms[k] == hub.rooms[j]);
    }
}

/// Every step keeps a hub in order.
pub proof fn steps_keep_order(hub: HubModel, luck: LuckModel)
    requires
        hub_in_order(hub),
        hub.waiting is None,
        hub.next_fits(luck),
        hub.rooms.len() <= usize::MAX,
        luck.possible(hub.dice_wanted()),
    ensures
        hub_in_order(hub.step(luck).hub),
{
    if hub.jobs.len() > 0 {
        let rest = HubModel { jobs: hub.jobs.drop_last(), ..hub };
        let job = hub.jobs.last();
        lemma_rest_jobs(hub.jobs);
        assert(job == hub.jobs[hub.jobs.len() - 1]);
        match job {
            JobModel::SweepNext { seat_key, codes, at, empty, dirty } => {
                lemma_sweep_next_order(rest, seat_key, codes, at, empty, dirty, luck);
            },
            JobModel::Purge { codes, at } => {
                lemma_purge_order(rest, codes, at);
            },
            _ => {
                lemma_tables(hub.rooms, doomed(hub.jobs));
                assert(clear(rest));
                lemma_clear_job(rest, job, luck);
            },
        }
    }
}

proof fn lemma_codes_len(rooms: Seq<RoomModel>, keep: Option<Seq<char>>)
    ensures
        codes_but(rooms, keep).len() <= rooms.len(),
    decreases rooms.len(),
{
    if rooms.len() > 0 {
        lemma_codes_len(rooms.drop_last(), keep);
    }
}

proof fn lemma_clear_job(hub: HubModel, job: JobModel, luck: LuckModel)
    requires
        clear(hub),
        hub.job_fits(job, luck),
        job_in_order(job),
        !is_sweeping(job),
        hub.rooms.len() <= usize::MAX,
        luck.possible(hub.then_do(job).dice_wanted()),
    ensures
        hub_in_order(hub.carry_out(job, luck).hub),
{
    lemma_clear_in_order(hub);
    match job {
        JobModel::Command { player, msg } => lemma_command_order(hub, player, msg),
        JobModel::Disconnect { player } => lemma_disconnect_order(hub, player),
        JobModel::Remote { event } => lemma_remote_order(hub, event),
        JobModel::Expire => {
            lemma_clear_push(
                hub,
                JobModel::ExpireNext {
                    now: luck.now,
                    codes: codes_but(hub.rooms, None),
                    at: 0,
                    dirty: seq![],
                },
            );
        },
        JobModel::ExpireNext { now, codes, at, dirty } => {
            lemma_expire_next_order(hub, now, codes, at, dirty, luck);
        },
        JobModel::Create { player, tries } => lemma_create_order(hub, player, tries, luck),
        JobModel::Enter { code, visit } => {
            match visit {
                VisitModel::Act { player, msg } => lemma_act_order(hub, code, player, msg, luck),
                VisitModel::Join { player, name, seat_key } => {
                    lemma_join_order(hub, code, player, name, seat_key);
                },
                _ => {},
            }
        },
        JobModel::Vacate { seat_key, keep } => {
            lemma_clear_push(hub, JobModel::Sweep { seat_key, keep });
        },
        JobModel::Sweep { seat_key, keep } => {
            lemma_codes_len(hub.rooms, keep);
            lemma_clear_push(
                hub,
                JobModel::SweepNext {
                    seat_key,
                    codes: codes_but(hub.rooms, keep),
                    at: 0,
                    empty: seq![],
                    dirty: seq![],
                },
            );
        },
        JobModel::Refresh { codes, at, save } => lemma_refresh_order(hub, codes, at, save),
        _ => {},
    }
}

/// Every reply that is in order keeps a hub in order.
pub proof fn replies_keep_order(hub: HubModel, reply: StoreReplyModel)
    requires
        hub_in_order(hub),
        hub.waiting matches Some(waiting) && replies_to(waiting, reply),
        reply_in_order(reply),
    ensures
        hub_in_order(hub.resumed(reply)),
{
    let rest = HubModel { waiting: None, ..hub };
    if hub.waiting != Some(WaitModel::Done) {
        lemma_tables(hub.rooms, doomed(hub.jobs));
        assert(clear(rest));
        lemma_clear_in_order(rest);
        match (hub.waiting->0, reply) {
            (WaitModel::Load { code, visit }, StoreReplyModel::Room(got)) => match got {
                Ok(Some(room)) => {
                    lemma_upsert_tables(rest.rooms, room);
                    lemma_clear_push(rest.upserted(room), JobModel::Enter { code, visit });
                },
                Ok(None) => {
                    lemma_drop_tables(rest.rooms, code);
                    lemma_clear_in_order(rest.dropped(code));
                },
                Err(_) => {},
            },
            (WaitModel::Insert { player, code, tries }, StoreReplyModel::Saved(_)) => {
                lemma_opens_order(rest, player, code);
                lemma_clear_push(
                    rest.opens(player, code),
                    JobModel::SetSeat { seat_key: player.seat_key, code },
                );
                lemma_clear_push(rest, JobModel::Create { player, tries: (tries - 1) as usize });
            },
            (WaitModel::Save { code, version }, StoreReplyModel::Saved(_)) => {
                lemma_clear_push(rest, JobModel::Load { code, visit: VisitModel::Reload });
                lemma_room_from(rest.rooms, code, 0);
                if let Some(i) = room_row(rest.rooms, code) {
                    let room = RoomModel { version: (version + 1) as u64, ..rest.rooms[i] };
                    lemma_versioned(rest.rooms[i], (version + 1) as u64);
                    lemma_update_tables(rest.rooms, i, room);
                    lemma_clear_in_order(rest.with_room(i, room));
                }
            },
            (WaitModel::Seat { seat_key, keep }, StoreReplyModel::Seat(got)) => {
                let sweep = JobModel::Sweep { seat_key, keep };
                lemma_clear_push(rest, sweep);
                if let Ok(Some(code)) = got {
                    lemma_clear_push(
                        rest.then_do(sweep),
                        JobModel::Load { code, visit: VisitModel::Reload },
                    );
                }
            },
            _ => {},
        }
    }
}

proof fn lemma_versioned(room: RoomModel, version: u64)
    requires
        is_table(room),
    ensures
        is_table(RoomModel { version, ..room }),
{
    let after = RoomModel { version, ..room };
    let i = choose|i: int| 0 <= i < room.players.len() && (#[trigger] room.players[i]).id
        == room.host_id;
    assert(after.players[i].id == after.host_id);
    if room.phase == GamePhase::Lobby {
        assert(after =~= after.with_fresh_turn());
        assert forall|j: int| 0 <= j < after.players.len() implies is_fresh(
            #[trigger] after.players[j],
        ) by {
            assert(is_fresh(room.players[j]));
        }
    }
}

/// A hub at rest holds only tables with players, each under a code of its own.
pub proof fn a_hub_at_rest_holds_tables(hub: HubModel)
    requires
        hub_in_order(hub),
        hub.is_idle(),
    ensures
        distinct_codes(hub.rooms),
        forall|i: int| 0 <= i < hub.rooms.len() ==> is_table(#[trigger] hub.rooms[i]),
{
    lemma_tables(hub.rooms, doomed(hub.jobs));
}

/// Lining up what has come in keeps a hub in order.
pub proof fn lining_up_keeps_order(
    hub: HubModel,
    remote: Seq<StoreEventModel>,
    gone: Seq<Uuid>,
    commands: Seq<(Uuid, ClientMessageModel)>,
)
    requires
        hub_in_order(hub),
        hub.is_idle(),
        forall|k: int|
            0 <= k < remote.len() ==> ((#[trigger] remote[k]) matches StoreEventModel::Upsert {
                room,
            } ==> is_table(room)),
    ensures
        hub_in_order(hub.lines_up(remote, gone, commands)),
{
    let after = hub.lines_up(remote, gone, commands);
    let told = remote_jobs(remote).reverse();
    let left = gone_jobs(gone).reverse();
    let asked = command_jobs(commands).reverse();
    let before = hub.jobs.push(JobModel::Expire) + asked + left;
    assert forall|k: int| 0 <= k < after.jobs.len() implies job_in_order(#[trigger] after.jobs[k])
        && !is_sweeping(after.jobs[k]) by {
        if k >= before.len() {
            let n = k - before.len();
            assert(after.jobs[k] == told[n]);
            assert(told[n] == (JobModel::Remote { event: remote[remote.len() - 1 - n] }));
        } else if k >= 1 + asked.len() {
            assert(after.jobs[k] == left[k - 1 - asked.len()]);
        } else if k >= 1 {
            assert(after.jobs[k] == asked[k - 1]);
        } else {
            assert(after.jobs[k] == JobModel::Expire);
        }
    }
    assert(!is_sweeping(after.jobs[after.jobs.len() - 1]));
    lemma_tables(hub.rooms, doomed(hub.jobs));
    lemma_tables(after.rooms, doomed(after.jobs));
}

} // verus!
