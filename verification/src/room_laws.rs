//! What holds of every room, whatever is asked of it.

use crate::chance::all_faces;
use crate::ids::Uuid;
use crate::protocol::{ClientMessageModel, GameMode, GamePhase, WIN_SCORE};
use crate::requests::LuckModel;
use crate::room_model::{
    ForfeitCause, PlayerModel, RoomModel, active_rows, first_row, has_id, has_seat, is_active,
    lemma_first_row, lemma_forfeit_keeps_seats,
};
use crate::scoring::{any_score, distinct_places, keepable, lemma_push_distinct};
use crate::scoring_laws::used_dice_are_selected;
use crate::text::grouped;
use vstd::prelude::*;

verus! {

// ---------------------------------------------------------------------------
// Order
// ---------------------------------------------------------------------------

/// The host holds a row.
pub open spec fn hosted(room: RoomModel) -> bool {
    exists|i: int| 0 <= i < room.players.len() && (#[trigger] room.players[i]).id == room.host_id
}

/// The dice on the table are those of a roll, and what is marked of them lies on the table.
pub open spec fn dice_in_order(room: RoomModel) -> bool {
    &&& all_faces(room.dice)
    &&& room.dice.len() <= room.mode.full_roll()
    &&& distinct_places(room.dice.len(), room.selected)
    &&& room.steal_leftover <= room.dice.len()
    &&& room.bust_showing ==> !room.awaiting_keep
    &&& room.awaiting_keep ==> room.dice.len() > 0 && room.steal_leftover == 0
    &&& !room.awaiting_keep && !room.bust_showing && room.dice.len() > 0 ==> room.selected.len()
        < room.dice.len() && room.steal_leftover == room.dice.len() - room.selected.len()
    &&& room.bust_showing ==> room.turn_points == 0 && room.selected.len() == 0
        && room.steal_leftover == 0
}

/// Nothing has happened yet.
pub open spec fn is_fresh(p: PlayerModel) -> bool {
    p.score == 0 && !p.on_board && !p.forfeited
}

/// A lobby holds no trace of a game.
pub open spec fn lobby_in_order(room: RoomModel) -> bool {
    &&& room == room.with_fresh_turn()
    &&& room.turn_index == 0
    &&& room.winner_id is None
    &&& room.action_deadline_ms is None
    &&& forall|i: int| 0 <= i < room.players.len() ==> is_fresh(#[trigger] room.players[i])
}

/// A running game has a player to act, and more than one who can still win.
pub open spec fn play_in_order(room: RoomModel) -> bool {
    &&& active_rows(room.players) >= 2
    &&& room.turn_index < room.players.len()
    &&& !room.players[room.turn_index as int].forfeited
    &&& room.winner_id is None
    &&& room.idle_timeout_secs is None <==> room.action_deadline_ms is None
}

/// Points wait exactly while they can be stolen, and there are dice to steal them with.
pub open spec fn bank_in_order(room: RoomModel) -> bool {
    match room.pending_bank {
        Some(p) => {
            &&& room.phase == GamePhase::StealWindow
            &&& p.points > 0
            &&& 0 < p.leftover <= room.mode.full_roll()
            &&& !room.awaiting_keep
        },
        None => room.phase != GamePhase::StealWindow,
    }
}

/// A room in order.
pub open spec fn orderly(room: RoomModel) -> bool {
    &&& room.players.len() <= usize::MAX
    &&& room.players.len() > 0 ==> room.turn_index < room.players.len() && hosted(room)
    &&& dice_in_order(room)
    &&& bank_in_order(room)
    &&& room.phase == GamePhase::Lobby ==> lobby_in_order(room)
    &&& room.in_progress() ==> play_in_order(room)
    &&& room.phase == GamePhase::Finished ==> room.action_deadline_ms is None
}

// ---------------------------------------------------------------------------
// Counting rows
// ---------------------------------------------------------------------------

proof fn lemma_active_last(rows: Seq<PlayerModel>)
    requires
        rows.len() > 0,
    ensures
        active_rows(rows) == active_rows(rows.drop_last()) + (if rows.last().forfeited {
            0nat
        } else {
            1nat
        }),
{
    reveal(Seq::filter);
}

/// As many rows are active where the same ones are.
pub proof fn lemma_active_same(a: Seq<PlayerModel>, b: Seq<PlayerModel>)
    requires
        a.len() == b.len(),
        forall|i: int| 0 <= i < a.len() ==> (#[trigger] a[i]).forfeited == b[i].forfeited,
    ensures
        active_rows(a) == active_rows(b),
    decreases a.len(),
{
    reveal(Seq::filter);
    if a.len() > 0 {
        lemma_active_last(a);
        lemma_active_last(b);
        assert(a.last() == a[a.len() - 1]);
        assert forall|i: int| 0 <= i < a.drop_last().len() implies (
        #[trigger] a.drop_last()[i]).forfeited == b.drop_last()[i].forfeited by {
            assert(a[i].forfeited == b[i].forfeited);
        }
        lemma_active_same(a.drop_last(), b.drop_last());
    }
}

/// All rows are active where none has forfeited.
proof fn lemma_all_active(rows: Seq<PlayerModel>)
    requires
        forall|i: int| 0 <= i < rows.len() ==> !(#[trigger] rows[i]).forfeited,
    ensures
        active_rows(rows) == rows.len(),
    decreases rows.len(),
{
    reveal(Seq::filter);
    if rows.len() > 0 {
        lemma_active_last(rows);
        assert(!rows[rows.len() - 1].forfeited);
        assert forall|i: int| 0 <= i < rows.drop_last().len() implies !(
        #[trigger] rows.drop_last()[i]).forfeited by {
            assert(!rows[i].forfeited);
        }
        lemma_all_active(rows.drop_last());
    }
}

/// Where some rows are active, one is.
pub proof fn lemma_active_row(rows: Seq<PlayerModel>) -> (i: int)
    requires
        active_rows(rows) > 0,
    ensures
        0 <= i < rows.len(),
        !rows[i].forfeited,
    decreases rows.len(),
{
    reveal(Seq::filter);
    if rows.len() == 0 {
        assert(rows.filter(is_active()) =~= seq![]);
        0
    } else {
        lemma_active_last(rows);
        if !rows.last().forfeited {
            rows.len() - 1
        } else {
            let i = lemma_active_row(rows.drop_last());
            assert(rows[i] == rows.drop_last()[i]);
            i
        }
    }
}

/// Putting an active row out takes one from the count.
pub proof fn lemma_active_out(rows: Seq<PlayerModel>, i: int, p: PlayerModel)
    requires
        0 <= i < rows.len(),
        !rows[i].forfeited,
        p.forfeited,
    ensures
        active_rows(rows.update(i, p)) + 1 == active_rows(rows),
    decreases rows.len(),
{
    let after = rows.update(i, p);
    lemma_active_last(rows);
    lemma_active_last(after);
    if i == rows.len() - 1 {
        assert(after.drop_last() =~= rows.drop_last());
    } else {
        assert(after.drop_last() =~= rows.drop_last().update(i, p));
        lemma_active_out(rows.drop_last(), i, p);
    }
}

/// The turn goes to a row of the table, and to one still in the game where there is one.
pub proof fn turn_goes_to_active_rows(room: RoomModel)
    requires
        room.turn_index < room.players.len(),
        active_rows(room.players) > 0,
    ensures
        0 <= room.next_row() < room.players.len(),
        !room.players[room.next_row()].forfeited,
{
    let i = lemma_active_row(room.players);
    let n = room.players.len() as int;
    let step = if i > room.turn_index {
        i - room.turn_index
    } else {
        i - room.turn_index + n
    };
    assert(room.seat_after(step) == i) by {
        if i > room.turn_index {
            vstd::arithmetic::div_mod::lemma_small_mod(i as nat, n as nat);
        } else {
            vstd::arithmetic::div_mod::lemma_mod_add_multiples_vanish(i, n);
            vstd::arithmetic::div_mod::lemma_small_mod(i as nat, n as nat);
        }
    }
    lemma_next_from(room, 1, step);
}

proof fn lemma_next_from(room: RoomModel, from: int, step: int)
    requires
        room.players.len() > 0,
        1 <= from <= step <= room.players.len(),
        !room.players[room.seat_after(step)].forfeited,
    ensures
        0 <= room.next_row_from(from) < room.players.len(),
        !room.players[room.next_row_from(from)].forfeited,
    decreases step - from,
{
    let n = room.players.len() as int;
    let at = room.turn_index + from;
    assert(0 <= at % n < n) by (nonlinear_arith)
        requires
            n > 0,
    ;
    if room.players[room.seat_after(from)].forfeited {
        lemma_next_from(room, from + 1, step);
    }
}

// ---------------------------------------------------------------------------
// Every move keeps a room in order
// ---------------------------------------------------------------------------

/// What a game needs for the turn to pass on in order.
spec fn ready_to_pass(room: RoomModel) -> bool {
    &&& room.players.len() <= usize::MAX
    &&& room.turn_index < room.players.len()
    &&& active_rows(room.players) >= 2
    &&& hosted(room)
    &&& room.winner_id is None
    &&& all_faces(room.dice)
    &&& room.dice.len() <= room.mode.full_roll()
}

proof fn lemma_next_turn_order(room: RoomModel, keep_dice: bool, now: u64)
    requires
        ready_to_pass(room),
    ensures
        orderly(room.next_turn(keep_dice, now)),
{
    turn_goes_to_active_rows(room);
    let after = room.next_turn(keep_dice, now);
    assert(after.players == room.players && after.host_id == room.host_id);
    let i = choose|i: int| 0 <= i < room.players.len() && (#[trigger] room.players[i]).id
        == room.host_id;
    assert(after.players[i].id == after.host_id);
}

/// A change of one score changes nothing else of the rows.
proof fn lemma_score_row(room: RoomModel, i: int, p: PlayerModel)
    requires
        0 <= i < room.players.len(),
        p.id == room.players[i].id,
        p.forfeited == room.players[i].forfeited,
        hosted(room),
    ensures
        active_rows(room.with_row(i, p).players) == active_rows(room.players),
        hosted(room.with_row(i, p)),
{
    let after = room.with_row(i, p);
    assert forall|j: int| 0 <= j < room.players.len() implies (#[trigger] room.players[j]).forfeited
        == after.players[j].forfeited && room.players[j].id == after.players[j].id by {}
    lemma_active_same(room.players, after.players);
    let k = choose|k: int| 0 <= k < room.players.len() && (#[trigger] room.players[k]).id
        == room.host_id;
    assert(after.players[k].id == after.host_id);
}

proof fn lemma_credited_rows(room: RoomModel, id: Uuid, points: u32)
    requires
        hosted(room),
    ensures
        room.credited(id, points).players.len() == room.players.len(),
        active_rows(room.credited(id, points).players) == active_rows(room.players),
        hosted(room.credited(id, points)),
{
    lemma_first_row(room.players, has_id(id), 0);
    if let Some(i) = room.row_of(id) {
        lemma_score_row(
            room,
            i,
            PlayerModel { score: (room.players[i].score + points) as u32, ..room.players[i] },
        );
    }
}

proof fn lemma_settled_rows(room: RoomModel)
    requires
        hosted(room),
    ensures
        room.settled().players.len() == room.players.len(),
        active_rows(room.settled().players) == active_rows(room.players),
        hosted(room.settled()),
        room.settled().pending_bank is None,
{
    if let Some(p) = room.pending_bank {
        lemma_credited_rows(room, p.player_id, p.points);
        let paid = room.credited(p.player_id, p.points);
        let i = choose|i: int| 0 <= i < paid.players.len() && (#[trigger] paid.players[i]).id
            == paid.host_id;
        assert(room.settled().players[i].id == room.settled().host_id);
    }
}

/// The rows and the host are the same in both rooms.
proof fn lemma_same_host(a: RoomModel, b: RoomModel)
    requires
        hosted(a),
        a.players == b.players,
        a.host_id == b.host_id,
    ensures
        hosted(b),
{
    let i = choose|i: int| 0 <= i < a.players.len() && (#[trigger] a.players[i]).id == a.host_id;
    assert(b.players[i].id == b.host_id);
}

proof fn lemma_settings_order(
    room: RoomModel,
    mode: GameMode,
    idle_timeout_secs: Option<u64>,
    board_threshold: u32,
)
    requires
        orderly(room),
        room.settings_refusal(mode, idle_timeout_secs, board_threshold) is None,
    ensures
        orderly(room.after_settings(mode, idle_timeout_secs, board_threshold)),
{
    let after = room.after_settings(mode, idle_timeout_secs, board_threshold);
    if room.players.len() > 0 {
        lemma_same_host(room, after);
    }
    assert(after =~= after.with_fresh_turn());
    assert forall|i: int| 0 <= i < after.players.len() implies is_fresh(
        #[trigger] after.players[i],
    ) by {
        assert(is_fresh(room.players[i]));
    }
}

proof fn lemma_start_order(room: RoomModel, now: u64)
    requires
        orderly(room),
        room.start_refusal() is None,
    ensures
        orderly(room.after_start(now)),
{
    let after = room.after_start(now);
    lemma_same_host(room, after);
    assert forall|i: int| 0 <= i < after.players.len() implies !(
    #[trigger] after.players[i]).forfeited by {
        assert(is_fresh(room.players[i]));
    }
    lemma_all_active(after.players);
}

proof fn lemma_select_order(room: RoomModel, id: Uuid, indices: Seq<usize>)
    requires
        orderly(room),
        room.select_refusal(id, indices) is None,
    ensures
        orderly(room.after_select(indices)),
{
    let after = room.after_select(indices);
    lemma_same_host(room, after);
    marked_dice_can_be_kept(room, indices);
}

/// What a selection marks lies on the table, is marked once, was asked for and may be kept.
pub proof fn marked_dice_can_be_kept(room: RoomModel, indices: Seq<usize>)
    requires
        room.dice.len() <= usize::MAX,
    ensures
        distinct_places(room.dice.len(), room.marked(indices)),
        forall|i: usize| #[trigger] room.marked(indices).contains(i) <==> i < room.dice.len()
            && indices.contains(i) && keepable(room.mode, room.dice, i as int),
{
    let places = Seq::new(room.dice.len(), |i: int| i as usize);
    let wanted = |i: usize| indices.contains(i) && keepable(room.mode, room.dice, i as int);
    lemma_filtered_places(places.len() as int, wanted);
    assert(room.marked(indices) == places.filter(wanted));
}

proof fn lemma_filtered_places(n: int, wanted: spec_fn(usize) -> bool)
    requires
        0 <= n <= usize::MAX,
    ensures
        ({
            let marked = Seq::new(n as nat, |i: int| i as usize).filter(wanted);
            &&& distinct_places(n as nat, marked)
            &&& forall|i: usize| #[trigger] marked.contains(i) <==> i < n && wanted(i)
        }),
    decreases n,
{
    reveal(Seq::filter);
    let places = Seq::new(n as nat, |i: int| i as usize);
    if n > 0 {
        let fewer = Seq::new((n - 1) as nat, |i: int| i as usize);
        assert(places.drop_last() =~= fewer);
        lemma_filtered_places(n - 1, wanted);
        let last = (n - 1) as usize;
        if wanted(last) {
            assert(!fewer.filter(wanted).contains(last));
            lemma_push_distinct(fewer.filter(wanted), last);
        }
    }
}

proof fn lemma_keep_order(room: RoomModel, id: Uuid, indices: Seq<usize>, now: u64)
    requires
        orderly(room),
        room.keep_refusal(id, indices) is None,
    ensures
        orderly(room.after_keep(id, indices, now)),
        !room.held(indices)->0.auto_win ==> room.after_keep(id, indices, now).still_playing(),
        !room.after_keep(id, indices, now).awaiting_keep || room.held(indices)->0.auto_win,
{
    let after = room.after_keep(id, indices, now);
    lemma_same_host(room, after);
    used_dice_are_selected(room.mode, room.dice, indices);
}

/// What a running game with dice just rolled needs to settle in order.
spec fn ready_to_resolve(room: RoomModel) -> bool {
    &&& ready_to_pass(room)
    &&& room.phase == GamePhase::Playing
    &&& room.pending_bank is None
    &&& !room.players[room.turn_index as int].forfeited
    &&& room.selected.len() == 0
    &&& room.awaiting_keep
    &&& room.steal_leftover == 0
    &&& !room.bust_showing
}

#[verifier::rlimit(30)]
proof fn lemma_resolved_order(
    room: RoomModel,
    id: Uuid,
    steal_from: Option<(Uuid, u32)>,
    now: u64,
)
    requires
        ready_to_resolve(room),
    ensures
        orderly(room.resolved(id, steal_from, now)),
{
    if !any_score(room.mode, room.dice) {
        lemma_bust_order(room, steal_from, false, now);
    } else if !room.can_play_on() {
        lemma_bust_order(room, steal_from, true, now);
    } else {
        lemma_same_host(room, room.resolved(id, steal_from, now));
    }
}

proof fn lemma_bust_order(
    room: RoomModel,
    steal_from: Option<(Uuid, u32)>,
    overshoot: bool,
    now: u64,
)
    requires
        ready_to_pass(room),
    ensures
        orderly(room.busted(steal_from, overshoot, now)),
{
    let lost = room.with_bust(steal_from, overshoot);
    if let Some((banker, points)) = steal_from {
        lemma_credited_rows(room, banker, points);
        lemma_same_host(room.credited(banker, points), lost);
    } else {
        lemma_same_host(room, lost);
    }
    lemma_next_turn_order(lost, true, now);
}

proof fn lemma_roll_order(
    room: RoomModel,
    id: Uuid,
    indices: Seq<usize>,
    dice: Seq<u8>,
    now: u64,
)
    requires
        orderly(room),
        room.roll_refusal(id, indices) is None,
        all_faces(dice),
        dice.len() <= room.mode.full_roll(),
    ensures
        orderly(room.after_roll(id, indices, dice, now)),
{
    let ready = room.before_roll(id, indices, now);
    if room.awaiting_keep {
        lemma_keep_order(room, id, indices, now);
    }
    if !room.awaiting_keep || ready.still_playing() {
        lemma_same_host(ready, ready.with_rolled(dice));
        lemma_resolved_order(ready.with_rolled(dice), id, None, now);
    }
}

proof fn lemma_banking_order(room: RoomModel, id: Uuid, now: u64)
    requires
        orderly(room),
        room.phase == GamePhase::Playing,
        room.points_refusal(room.turn_points as int) is None,
        !room.awaiting_keep,
    ensures
        orderly(room.after_banking(id, now)),
{
    let p = room.current()->0;
    let i = room.turn_index as int;
    let after = room.after_banking(id, now);
    let points = room.turn_points;
    let made = if p.on_board {
        p.score + points
    } else {
        points as int
    };
    if made == WIN_SCORE {
        let row = PlayerModel { score: WIN_SCORE, on_board: true, ..p };
        lemma_score_row(room, i, row);
        lemma_same_host(room.with_row(i, row), after);
    } else if !p.on_board {
        let row = PlayerModel { score: points, on_board: true, ..p };
        lemma_score_row(room, i, row);
        let told = room.with_row(i, row).with_message(
            p.name + " is on the board with "@ + grouped(points as nat) + "!"@,
        );
        lemma_same_host(room.with_row(i, row), told);
        lemma_next_turn_order(told, false, now);
    } else if room.next_can_steal(points, room.steal_leftover) {
        lemma_same_host(room, after);
    } else {
        let score = (p.score + points) as u32;
        let row = PlayerModel { score, ..p };
        lemma_score_row(room, i, row);
        let told = room.with_row(i, row).with_message(
            p.name + " banks "@ + grouped(points as nat) + ". Score: "@ + grouped(score as nat),
        );
        lemma_same_host(room.with_row(i, row), told);
        lemma_next_turn_order(told, false, now);
    }
}

proof fn lemma_bank_order(room: RoomModel, id: Uuid, indices: Seq<usize>, now: u64)
    requires
        orderly(room),
        room.bank_refusal(id, indices) is None,
        room.bank_fits(id, indices),
    ensures
        orderly(room.after_bank(id, indices, now)),
{
    if room.awaiting_keep {
        let kept = room.after_keep(id, indices, now);
        assert(room.keep_refusal(id, indices) is None);
        lemma_keep_order(room, id, indices, now);
        if !room.held(indices)->0.auto_win && kept.still_playing() {
            lemma_banking_order(kept, id, now);
        }
    } else {
        lemma_banking_order(room, id, now);
    }
}

proof fn lemma_steal_order(room: RoomModel, id: Uuid, dice: Seq<u8>, now: u64)
    requires
        orderly(room),
        room.steal_refusal(id) is None,
        all_faces(dice),
        dice.len() <= room.mode.full_roll(),
    ensures
        orderly(room.after_steal(id, dice, now)),
{
    turn_goes_to_active_rows(room);
    let pending = room.pending_bank->0;
    let taken = RoomModel {
        turn_index: room.next_row() as usize,
        turn_points: pending.points,
        pending_bank: None,
        phase: GamePhase::Playing,
        ..room
    }.with_rolled(dice);
    lemma_same_host(room, taken);
    lemma_resolved_order(taken, id, Some((pending.player_id, pending.points)), now);
}

proof fn lemma_decline_order(room: RoomModel, id: Uuid, now: u64)
    requires
        orderly(room),
        room.decline_refusal(id) is None,
    ensures
        orderly(room.after_decline(now)),
{
    lemma_settled_rows(room);
    lemma_next_turn_order(room.settled(), false, now);
}

proof fn lemma_end_order(room: RoomModel, id: Uuid)
    requires
        orderly(room),
        room.end_refusal(id) is None,
    ensures
        orderly(room.after_end()),
{
    lemma_settled_rows(room);
    lemma_same_host(room.settled(), room.after_end());
}

proof fn lemma_rematch_order(room: RoomModel)
    requires
        orderly(room),
    ensures
        orderly(room.after_rematch()),
{
    let after = room.after_rematch();
    if room.players.len() > 0 {
        let i = choose|i: int| 0 <= i < room.players.len() && (#[trigger] room.players[i]).id
            == room.host_id;
        assert(after.players[i].id == after.host_id);
    }
    assert(after =~= after.with_fresh_turn());
}

proof fn lemma_out_order(room: RoomModel, i: int)
    requires
        0 <= i < room.players.len(),
        !room.players[i].forfeited,
        hosted(room),
        active_rows(room.players) >= 2,
    ensures
        active_rows(room.row_out(i).players) + 1 == active_rows(room.players),
        hosted(room.row_out(i)),
{
    let p = room.players[i];
    let out = room.row_out(i);
    lemma_active_out(room.players, i, PlayerModel { forfeited: true, ..p });
    lemma_first_row(out.players, is_active(), 0);
    let j = lemma_active_row(out.players);
    assert(is_active()(out.players[j]));
    if room.host_id != p.id {
        let k = choose|k: int| 0 <= k < room.players.len() && (#[trigger] room.players[k]).id
            == room.host_id;
        assert(out.players[k].id == out.host_id);
    } else {
        let k = first_row(out.players, is_active(), 0)->0;
        assert(out.players[k].id == out.host_id);
    }
}

proof fn lemma_forfeit_order(room: RoomModel, id: Uuid, cause: ForfeitCause, now: u64)
    requires
        orderly(room),
        room.forfeit_refusal(id) is None,
    ensures
        orderly(room.after_forfeit(id, cause, now)),
{
    lemma_first_row(room.players, has_id(id), 0);
    let i = room.row_of(id)->0;
    let out = room.row_out(i);
    let after = room.after_forfeit(id, cause, now);
    lemma_out_order(room, i);
    lemma_settled_rows(out);
    if active_rows(out.players) <= 1 {
        lemma_same_host(out.settled(), after);
    } else if room.phase == GamePhase::StealWindow && room.acting_id() == Some(id) {
        let moved = out.settled().next_turn(false, now);
        lemma_next_turn_order(out.settled(), false, now);
        lemma_same_host(moved, after);
    } else if room.is_current(id) {
        let loose = RoomModel { pending_bank: None, ..out };
        lemma_same_host(out, loose);
        lemma_next_turn_order(loose, false, now);
        lemma_same_host(loose.next_turn(false, now), after);
    } else {
        assert(i != room.turn_index);
        lemma_same_host(out, after);
    }
}

/// No request calls for more dice than a full roll has.
pub proof fn rolls_fit_the_table(room: RoomModel, id: Uuid, msg: ClientMessageModel)
    requires
        orderly(room),
    ensures
        room.dice_called_for(id, msg) <= room.mode.full_roll(),
{
    reveal(RoomModel::dice_called_for);
    if let ClientMessageModel::Roll { indices } = msg {
        if room.awaiting_keep && room.roll_refusal(id, indices) is None {
            used_dice_are_selected(room.mode, room.dice, indices);
        }
    }
}

/// A request that is granted leaves a room in order.
pub proof fn requests_keep_order(
    room: RoomModel,
    id: Uuid,
    msg: ClientMessageModel,
    luck: LuckModel,
)
    requires
        orderly(room),
        room.request_fits(id, msg, luck),
        luck.possible(room.dice_called_for(id, msg)),
        room.answer(id, msg, luck).refusal is None,
    ensures
        orderly(room.answer(id, msg, luck).after),
{
    rolls_fit_the_table(room, id, msg);
    match msg {
        ClientMessageModel::UpdateSettings { mode, idle_timeout_secs, board_threshold } => {
            reveal(RoomModel::settings_answer);
            lemma_settings_order(
                room,
                mode,
                idle_timeout_secs,
                board_threshold.unwrap_or(mode.board_default()),
            );
        },
        ClientMessageModel::StartGame => {
            reveal(RoomModel::start_answer);
            lemma_start_order(room, luck.now);
        },
        ClientMessageModel::Roll { indices } => {
            reveal(RoomModel::roll_answer);
            lemma_roll_order(room, id, indices, luck.dice, luck.now);
        },
        ClientMessageModel::Select { indices } => {
            reveal(RoomModel::select_answer);
            lemma_select_order(room, id, indices);
        },
        ClientMessageModel::Keep { indices } => {
            reveal(RoomModel::keep_answer);
            lemma_keep_order(room, id, indices, luck.now);
        },
        ClientMessageModel::Bank { indices } => {
            reveal(RoomModel::bank_answer);
            reveal(RoomModel::request_fits);
            lemma_bank_order(room, id, indices, luck.now);
        },
        ClientMessageModel::Steal => {
            reveal(RoomModel::steal_answer);
            lemma_steal_order(room, id, luck.dice, luck.now);
        },
        ClientMessageModel::DeclineSteal => {
            reveal(RoomModel::decline_answer);
            lemma_decline_order(room, id, luck.now);
        },
        ClientMessageModel::EndGame => {
            reveal(RoomModel::end_answer);
            lemma_end_order(room, id);
        },
        ClientMessageModel::Forfeit => {
            reveal(RoomModel::forfeit_answer);
            lemma_forfeit_order(room, id, ForfeitCause::Manual, luck.now);
        },
        ClientMessageModel::Rematch => {
            reveal(RoomModel::rematch_answer);
            lemma_rematch_order(room);
        },
        _ => {},
    }
}

/// A timeout leaves a room in order.
pub proof fn timeouts_keep_order(room: RoomModel, now: u64, from: u64)
    requires
        orderly(room),
        room.times_out(now),
    ensures
        orderly(room.after_timeout(from)),
{
    lemma_forfeit_order(room, room.acting_id()->0, ForfeitCause::Timeout, from);
}

/// A new room is in order.
pub proof fn new_rooms_are_in_order(code: Seq<char>, host: PlayerModel)
    requires
        is_fresh(host),
    ensures
        orderly(RoomModel::opened(code, host)),
{
    let room = RoomModel::opened(code, host);
    assert(room.players[0].id == room.host_id);
    assert(room =~= room.with_fresh_turn());
}

/// Another connection in a row leaves a room in order.
proof fn lemma_bound_order(room: RoomModel, i: int, p: PlayerModel, text: Seq<char>)
    requires
        orderly(room),
        0 <= i < room.players.len(),
        p.score == room.players[i].score,
        p.on_board == room.players[i].on_board,
        p.forfeited == room.players[i].forfeited,
    ensures
        orderly(room.with_row(i, p).retargeted(room.players[i].id, p.id).with_message(text)),
{
    let after = room.with_row(i, p).retargeted(room.players[i].id, p.id).with_message(text);
    if room.host_id == room.players[i].id {
        assert(after.players[i].id == after.host_id);
    } else {
        let k = choose|k: int| 0 <= k < room.players.len() && (#[trigger] room.players[k]).id
            == room.host_id;
        assert(after.players[k].id == after.host_id);
    }
    assert forall|j: int| 0 <= j < room.players.len() implies (#[trigger] room.players[j]).forfeited
        == after.players[j].forfeited by {}
    lemma_active_same(room.players, after.players);
    if room.phase == GamePhase::Lobby {
        assert(after =~= after.with_fresh_turn());
        assert forall|j: int| 0 <= j < after.players.len() implies is_fresh(
            #[trigger] after.players[j],
        ) by {
            assert(is_fresh(room.players[j]));
        }
    }
}

/// A connection that comes or comes back leaves a room in order.
pub proof fn joins_keep_order(room: RoomModel, id: Uuid, name: Seq<char>, seat_key: Uuid)
    requires
        orderly(room),
        room.join_refusal(seat_key) is None,
        room.players.len() > 0,
    ensures
        orderly(room.after_join(id, name, seat_key)),
{
    let after = room.after_join(id, name, seat_key);
    lemma_first_row(room.players, has_seat(seat_key), 0);
    match room.row_of_seat(seat_key) {
        Some(i) => {
            lemma_bound_order(
                room,
                i,
                PlayerModel { id, connected: true, name, ..room.players[i] },
                name + " reconnected"@,
            );
        },
        None => {
            let k = choose|k: int| 0 <= k < room.players.len() && (#[trigger] room.players[k]).id
                == room.host_id;
            assert(after.players[k].id == after.host_id);
            assert(after =~= after.with_fresh_turn());
            assert forall|j: int| 0 <= j < after.players.len() implies is_fresh(
                #[trigger] after.players[j],
            ) by {
                if j < room.players.len() {
                    assert(is_fresh(room.players[j]));
                }
            }
        },
    }
}

/// A connection that drops leaves a room in order.
pub proof fn disconnects_keep_order(room: RoomModel, id: Uuid)
    requires
        orderly(room),
        room.is_present(id),
    ensures
        orderly(room.after_disconnect(id)),
{
    lemma_first_row(room.players, has_id(id), 0);
    let i = room.row_of(id)->0;
    let p = room.players[i];
    let text = p.name + " disconnected"@;
    let gone = PlayerModel { connected: false, ..p };
    lemma_bound_order(room, i, gone, text);
    assert(room.with_row(i, gone).retargeted(p.id, p.id) =~= room.with_row(i, gone));
}

proof fn lemma_detach_order(room: RoomModel, i: int, ghost: Uuid)
    requires
        orderly(room),
        0 <= i < room.players.len(),
    ensures
        orderly(room.after_detach(i, ghost)),
{
    let gone = PlayerModel { id: ghost, connected: false, ..room.players[i] };
    lemma_bound_order(room, i, gone, room.status_message);
    assert(room.after_detach(i, ghost) =~= room.with_row(i, gone).retargeted(
        room.players[i].id,
        ghost,
    ).with_message(room.status_message));
}

/// A seat that is given up leaves a room in order.
pub proof fn vacating_keeps_order(room: RoomModel, seat_key: Uuid, ghost: Uuid, now: u64)
    requires
        orderly(room),
        room.row_of_seat(seat_key) is Some,
    ensures
        orderly(room.after_vacate(room.row_of_seat(seat_key)->0, ghost, now)),
{
    let i = room.row_of_seat(seat_key)->0;
    let p = room.players[i];
    lemma_first_row(room.players, has_seat(seat_key), 0);
    if room.phase == GamePhase::Lobby {
        let after = room.after_lobby_exit(i);
        let rest = room.players.remove(i);
        assert(after =~= after.with_fresh_turn());
        assert forall|j: int| 0 <= j < after.players.len() implies is_fresh(
            #[trigger] after.players[j],
        ) by {
            if j < i {
                assert(is_fresh(room.players[j]));
            } else {
                assert(is_fresh(room.players[j + 1]));
            }
        }
        if rest.len() > 0 {
            if room.host_id == p.id {
                assert(after.players[0].id == after.host_id);
            } else {
                let k = choose|k: int| 0 <= k < room.players.len() && (
                #[trigger] room.players[k]).id == room.host_id;
                if k < i {
                    assert(after.players[k].id == after.host_id);
                } else {
                    assert(after.players[k - 1].id == after.host_id);
                }
            }
        }
    } else if room.in_progress() && !p.forfeited && room.forfeit_refusal(p.id) is None {
        lemma_forfeit_order(room, p.id, ForfeitCause::Manual, now);
        lemma_forfeit_keeps_seats(room, p.id, ForfeitCause::Manual, now);
        lemma_detach_order(room.after_forfeit(p.id, ForfeitCause::Manual, now), i, ghost);
    } else {
        lemma_detach_order(room, i, ghost);
    }
}

} // verus!
