//! The hub comes to rest: every step and every reply brings it nearer to having nothing to do.

use crate::hub_model::{HubModel, JobModel, StoreReplyModel, VisitModel, WaitModel, replies_to};
use crate::ids::Uuid;
use crate::protocol::ClientMessageModel;
use crate::requests::LuckModel;
use crate::room_model::PlayerModel;
use crate::store::StoreEventModel;
use vstd::prelude::*;

verus! {

/// How far from done a kind of job is. A job only ever gives rise to jobs of lower ranks, or to a
/// smaller one of its own.
pub open spec fn rank(job: JobModel) -> nat {
    match job {
        JobModel::Command { .. } => 9,
        JobModel::Disconnect { .. } => 9,
        JobModel::Remote { .. } => 9,
        JobModel::Expire => 9,
        JobModel::Create { .. } => 8,
        JobModel::Load { visit, .. } => if visit is Reload {
            1
        } else {
            7
        },
        JobModel::Enter { visit, .. } => if visit is Reload {
            0
        } else {
            6
        },
        JobModel::Vacate { .. } => 5,
        JobModel::Sweep { .. } => 4,
        JobModel::SweepNext { .. } => 3,
        JobModel::ExpireNext { .. } => 3,
        JobModel::Purge { .. } => 2,
        JobModel::Refresh { .. } => 2,
        JobModel::Persist { .. } => 1,
        JobModel::SetSeat { .. } => 0,
        JobModel::Greet { .. } => 0,
        JobModel::Broadcast { .. } => 0,
    }
}

/// What is left of a list.
pub open spec fn left_of(codes: Seq<Seq<char>>, at: usize) -> nat {
    if at < codes.len() {
        (codes.len() - at + 1) as nat
    } else {
        1
    }
}

/// How much of its kind a job is.
pub open spec fn size(job: JobModel) -> nat {
    match job {
        JobModel::Create { tries, .. } => (2 * tries + 2) as nat,
        JobModel::Load { .. } => 2,
        JobModel::Vacate { .. } => 2,
        JobModel::SweepNext { codes, at, .. } => left_of(codes, at),
        JobModel::ExpireNext { codes, at, .. } => left_of(codes, at),
        JobModel::Purge { codes, at } => left_of(codes, at),
        JobModel::Refresh { codes, at, .. } => left_of(codes, at),
        JobModel::Persist { .. } => 4,
        JobModel::SetSeat { .. } => 2,
        _ => 1,
    }
}

pub open spec fn wait_rank(waiting: WaitModel) -> nat {
    match waiting {
        WaitModel::Insert { .. } => 8,
        WaitModel::Load { visit, .. } => if visit is Reload {
            1
        } else {
            7
        },
        WaitModel::Seat { .. } => 5,
        WaitModel::Save { .. } => 1,
        WaitModel::Done => 0,
    }
}

pub open spec fn wait_size(waiting: WaitModel) -> nat {
    match waiting {
        WaitModel::Insert { tries, .. } => (2 * tries + 1) as nat,
        WaitModel::Save { .. } => 3,
        _ => 1,
    }
}

/// How much there is to do of a rank in a list of jobs.
pub open spec fn jobs_load(jobs: Seq<JobModel>, r: nat) -> nat
    decreases jobs.len(),
{
    if jobs.len() == 0 {
        0
    } else {
        jobs_load(jobs.drop_last(), r) + (if rank(jobs.last()) == r {
            size(jobs.last())
        } else {
            0
        })
    }
}

/// How much there is to do of a rank.
pub open spec fn load(hub: HubModel, r: nat) -> nat {
    jobs_load(hub.jobs, r) + (match hub.waiting {
        Some(waiting) => if wait_rank(waiting) == r {
            wait_size(waiting)
        } else {
            0
        },
        None => 0,
    })
}

/// There is less to do: less of some rank, and no more of any higher one.
pub open spec fn nearer_to_done(before: HubModel, after: HubModel, r: nat) -> bool {
    &&& load(after, r) < load(before, r)
    &&& forall|higher: nat| higher > r ==> #[trigger] load(after, higher) <= load(before, higher)
}

/// The list of a job is one that a machine can hold.
pub open spec fn list_fits(job: JobModel) -> bool {
    match job {
        JobModel::SweepNext { codes, .. } => codes.len() <= usize::MAX,
        JobModel::ExpireNext { codes, .. } => codes.len() <= usize::MAX,
        JobModel::Purge { codes, .. } => codes.len() <= usize::MAX,
        JobModel::Refresh { codes, .. } => codes.len() <= usize::MAX,
        _ => true,
    }
}

proof fn lemma_load_push(jobs: Seq<JobModel>, job: JobModel, r: nat)
    ensures
        jobs_load(jobs.push(job), r) == jobs_load(jobs, r) + (if rank(job) == r {
            size(job)
        } else {
            0
        }),
{
    assert(jobs.push(job).drop_last() =~= jobs);
}

/// A hub that differs from another one in its rooms, its members or its outbox has as much to do.
spec fn same_work(a: HubModel, b: HubModel) -> bool {
    a.jobs == b.jobs && a.waiting == b.waiting
}

/// The hub has at most the given jobs more to do than the other one, all of ranks below `r`.
spec fn only_lower(before: HubModel, after: HubModel, r: nat) -> bool {
    forall|rr: nat| rr >= r ==> #[trigger] load(after, rr) <= load(before, rr)
}

proof fn lemma_then_do(before: HubModel, hub: HubModel, job: JobModel, r: nat)
    requires
        only_lower(before, hub, r),
        rank(job) < r,
    ensures
        only_lower(before, hub.then_do(job), r),
{
    assert forall|rr: nat| rr >= r implies #[trigger] load(hub.then_do(job), rr) <= load(
        before,
        rr,
    ) by {
        lemma_load_push(hub.jobs, job, rr);
        assert(load(hub, rr) <= load(before, rr));
    }
}

proof fn lemma_same(before: HubModel, hub: HubModel, other: HubModel, r: nat)
    requires
        only_lower(before, hub, r),
        same_work(hub, other),
    ensures
        only_lower(before, other, r),
{
    assert forall|rr: nat| rr >= r implies #[trigger] load(other, rr) <= load(before, rr) by {
        assert(load(hub, rr) <= load(before, rr));
    }
}

/// Where a job of rank `r` has given way to lower ones, there is less to do.
proof fn lemma_given_way(hub: HubModel, after: HubModel, r: nat)
    requires
        hub.waiting is None,
        hub.jobs.len() > 0,
        rank(hub.jobs.last()) == r,
        only_lower(HubModel { jobs: hub.jobs.drop_last(), ..hub }, after, r),
    ensures
        nearer_to_done(hub, after, r),
{
    let rest = HubModel { jobs: hub.jobs.drop_last(), ..hub };
    assert(load(after, r) <= load(rest, r));
    assert forall|higher: nat| higher > r implies #[trigger] load(after, higher) <= load(
        hub,
        higher,
    ) by {
        assert(load(after, higher) <= load(rest, higher));
    }
}

/// Where a job has given way to a smaller one of its rank on top of lower ones, there is less to
/// do.
proof fn lemma_grown_smaller(
    hub: HubModel,
    under: HubModel,
    smaller: JobModel,
    after: HubModel,
    r: nat,
)
    requires
        hub.waiting is None,
        hub.jobs.len() > 0,
        rank(hub.jobs.last()) == r,
        rank(smaller) == r,
        size(smaller) < size(hub.jobs.last()),
        same_work(under, HubModel { jobs: hub.jobs.drop_last(), ..hub }),
        only_lower(under.then_do(smaller), after, r),
    ensures
        nearer_to_done(hub, after, r),
{
    assert forall|rr: nat| rr >= r implies #[trigger] load(after, rr) <= load(hub, rr) by {
        lemma_load_push(under.jobs, smaller, rr);
        assert(load(after, rr) <= load(under.then_do(smaller), rr));
    }
    lemma_load_push(under.jobs, smaller, r);
    assert(load(after, r) <= load(under.then_do(smaller), r));
}

proof fn lemma_reflexive(hub: HubModel, r: nat)
    ensures
        only_lower(hub, hub, r),
{
}

proof fn lemma_wait(before: HubModel, hub: HubModel, waiting: WaitModel, r: nat)
    requires
        only_lower(before, hub, r),
        hub.waiting is None,
        wait_rank(waiting) < r,
    ensures
        only_lower(before, HubModel { waiting: Some(waiting), ..hub }, r),
{
    let after = HubModel { waiting: Some(waiting), ..hub };
    assert forall|rr: nat| rr >= r implies #[trigger] load(after, rr) <= load(before, rr) by {
        assert(load(hub, rr) <= load(before, rr));
    }
}

/// Where a job has given way to a wait of its rank and smaller size, there is less to do.
proof fn lemma_now_waits(hub: HubModel, under: HubModel, waiting: WaitModel, r: nat)
    requires
        hub.waiting is None,
        hub.jobs.len() > 0,
        rank(hub.jobs.last()) == r,
        wait_rank(waiting) == r,
        wait_size(waiting) < size(hub.jobs.last()),
        same_work(under, HubModel { jobs: hub.jobs.drop_last(), ..hub }),
    ensures
        nearer_to_done(hub, HubModel { waiting: Some(waiting), ..under }, r),
{
    let after = HubModel { waiting: Some(waiting), ..under };
    assert forall|higher: nat| higher > r implies #[trigger] load(after, higher) <= load(
        hub,
        higher,
    ) by {}
}

/// Every step brings the hub nearer to having nothing to do: of the rank of the job that it
/// carries out there is less left, and there is no more of any higher rank. There are ten ranks,
/// so the hub comes to rest.
pub proof fn steps_bring_the_hub_nearer_to_rest(hub: HubModel, luck: LuckModel)
    requires
        hub.waiting is None,
        hub.jobs.len() > 0,
        list_fits(hub.jobs.last()),
    ensures
        rank(hub.jobs.last()) <= 9,
        nearer_to_done(hub, hub.step(luck).hub, rank(hub.jobs.last())),
{
    let job = hub.jobs.last();
    let r = rank(job);
    let rest = HubModel { jobs: hub.jobs.drop_last(), ..hub };
    let after = hub.step(luck).hub;
    lemma_reflexive(rest, r);
    match job {
        JobModel::Command { player, msg } => lemma_command_progress(hub, player, msg),
        JobModel::Disconnect { player } => lemma_disconnect_progress(hub, player),
        JobModel::Remote { event } => lemma_remote_progress(hub, event),
        JobModel::Expire => {
            lemma_then_do(rest, rest, after.jobs.last(), r);
            lemma_given_way(hub, after, r);
        },
        JobModel::ExpireNext { now, codes, at, dirty } => {
            lemma_expire_progress(hub, now, codes, at, dirty, luck);
        },
        JobModel::Create { player, tries } => lemma_create_progress(hub, player, tries, luck),
        JobModel::Load { code, visit } => {
            lemma_now_waits(hub, rest, WaitModel::Load { code, visit }, r);
        },
        JobModel::Enter { code, visit } => lemma_enter_progress(hub, code, visit, luck),
        JobModel::Vacate { seat_key, keep } => {
            lemma_now_waits(hub, rest, WaitModel::Seat { seat_key, keep }, r);
            lemma_then_do(rest, rest, JobModel::Sweep { seat_key, keep }, r);
            lemma_given_way(hub, rest.then_do(JobModel::Sweep { seat_key, keep }), r);
        },
        JobModel::Sweep { .. } => {
            lemma_then_do(rest, rest, after.jobs.last(), r);
            lemma_given_way(hub, after, r);
        },
        JobModel::SweepNext { .. } => lemma_sweep_progress(hub, luck),
        JobModel::Purge { codes, at } => lemma_purge_progress(hub, codes, at),
        JobModel::Refresh { codes, at, save } => lemma_refresh_progress(hub, codes, at, save),
        JobModel::SetSeat { .. } => {
            lemma_now_waits(hub, rest, WaitModel::Done, r);
            lemma_given_way(hub, rest, r);
        },
        JobModel::Persist { code } => {
            lemma_given_way(hub, rest, r);
            if let Some(WaitModel::Save { version, .. }) = after.waiting {
                lemma_now_waits(hub, rest, WaitModel::Save { code, version }, r);
            }
        },
        JobModel::Greet { .. } => {
            lemma_same(rest, rest, after, r);
            lemma_given_way(hub, after, r);
        },
        JobModel::Broadcast { .. } => {
            lemma_same(rest, rest, after, r);
            lemma_given_way(hub, after, r);
        },
    }
}

proof fn lemma_command_progress(hub: HubModel, player: Uuid, msg: ClientMessageModel)
    requires
        hub.waiting is None,
        hub.jobs.len() > 0,
        hub.jobs.last() == (JobModel::Command { player, msg }),
    ensures
        nearer_to_done(
            hub,
            HubModel { jobs: hub.jobs.drop_last(), ..hub }.command(player, msg),
            9,
        ),
{
    let rest = HubModel { jobs: hub.jobs.drop_last(), ..hub };
    let after = rest.command(player, msg);
    lemma_reflexive(rest, 9);
    if after.jobs.len() > rest.jobs.len() {
        lemma_then_do(rest, rest, after.jobs.last(), 9);
        assert(after == rest.then_do(after.jobs.last()));
    } else {
        lemma_same(rest, rest, after, 9);
    }
    lemma_given_way(hub, after, 9);
}

proof fn lemma_disconnect_progress(hub: HubModel, player: Uuid)
    requires
        hub.waiting is None,
        hub.jobs.len() > 0,
        hub.jobs.last() == (JobModel::Disconnect { player }),
    ensures
        nearer_to_done(
            hub,
            HubModel { jobs: hub.jobs.drop_last(), ..hub }.disconnect(player),
            9,
        ),
{
    let rest = HubModel { jobs: hub.jobs.drop_last(), ..hub };
    let after = rest.disconnect(player);
    lemma_reflexive(rest, 9);
    if after != rest {
        let put = HubModel { rooms: after.rooms, ..rest };
        lemma_same(rest, rest, put, 9);
        let code = after.jobs.last()->Persist_code;
        lemma_then_do(rest, put, JobModel::Broadcast { code }, 9);
        lemma_then_do(
            rest,
            put.then_do(JobModel::Broadcast { code }),
            JobModel::Persist { code },
            9,
        );
        assert(after == put.saves_and_shows(code));
    }
    lemma_given_way(hub, after, 9);
}

proof fn lemma_remote_progress(hub: HubModel, event: StoreEventModel)
    requires
        hub.waiting is None,
        hub.jobs.len() > 0,
        hub.jobs.last() == (JobModel::Remote { event }),
    ensures
        nearer_to_done(hub, HubModel { jobs: hub.jobs.drop_last(), ..hub }.remote(event), 9),
{
    let rest = HubModel { jobs: hub.jobs.drop_last(), ..hub };
    let after = rest.remote(event);
    lemma_reflexive(rest, 9);
    let put = HubModel { rooms: after.rooms, ..rest };
    lemma_same(rest, rest, put, 9);
    if let StoreEventModel::Upsert { room } = event {
        lemma_then_do(rest, put, JobModel::Broadcast { code: room.code }, 9);
    }
    lemma_given_way(hub, after, 9);
}

proof fn lemma_expire_progress(
    hub: HubModel,
    now: u64,
    codes: Seq<Seq<char>>,
    at: usize,
    dirty: Seq<Seq<char>>,
    luck: LuckModel,
)
    requires
        hub.waiting is None,
        hub.jobs.len() > 0,
        hub.jobs.last() == (JobModel::ExpireNext { now, codes, at, dirty }),
        codes.len() <= usize::MAX,
    ensures
        nearer_to_done(
            hub,
            HubModel { jobs: hub.jobs.drop_last(), ..hub }.expire_next(now, codes, at, dirty, luck),
            3,
        ),
{
    let rest = HubModel { jobs: hub.jobs.drop_last(), ..hub };
    let after = rest.expire_next(now, codes, at, dirty, luck);
    lemma_reflexive(rest, 3);
    if at >= codes.len() {
        lemma_then_do(rest, rest, JobModel::Refresh { codes: dirty, at: 0, save: false }, 3);
        lemma_given_way(hub, after, 3);
    } else {
        let next = (at + 1) as usize;
        let code = codes[at as int];
        let put = HubModel { rooms: after.rooms, ..rest };
        let plain = JobModel::ExpireNext { now, codes, at: next, dirty };
        let noted = JobModel::ExpireNext { now, codes, at: next, dirty: dirty.push(code) };
        lemma_reflexive(put.then_do(plain), 3);
        lemma_reflexive(put.then_do(noted), 3);
        lemma_then_do(put.then_do(noted), put.then_do(noted), JobModel::Persist { code }, 3);
        if after == put.then_do(plain) {
            lemma_grown_smaller(hub, put, plain, after, 3);
        } else {
            assert(after == put.then_do(noted).then_do(JobModel::Persist { code }));
            lemma_grown_smaller(hub, put, noted, after, 3);
        }
    }
}

proof fn lemma_create_progress(hub: HubModel, player: PlayerModel, tries: usize, luck: LuckModel)
    requires
        hub.waiting is None,
        hub.jobs.len() > 0,
        hub.jobs.last() == (JobModel::Create { player, tries }),
    ensures
        nearer_to_done(
            hub,
            HubModel { jobs: hub.jobs.drop_last(), ..hub }.create(player, tries, luck).hub,
            8,
        ),
{
    let rest = HubModel { jobs: hub.jobs.drop_last(), ..hub };
    let after = rest.create(player, tries, luck).hub;
    lemma_reflexive(rest, 8);
    if tries == 0 {
        lemma_same(rest, rest, after, 8);
        lemma_given_way(hub, after, 8);
    } else {
        let again = JobModel::Create { player, tries: (tries - 1) as usize };
        lemma_reflexive(rest.then_do(again), 8);
        lemma_grown_smaller(hub, rest, again, rest.then_do(again), 8);
        lemma_now_waits(
            hub,
            rest,
            WaitModel::Insert { player, code: luck.code, tries },
            8,
        );
        lemma_opens_lower(rest, rest, player, luck.code, 8);
        lemma_given_way(hub, rest.opens(player, luck.code), 8);
    }
}

proof fn lemma_opens_lower(
    before: HubModel,
    hub: HubModel,
    player: PlayerModel,
    code: Seq<char>,
    r: nat,
)
    requires
        only_lower(before, hub, r),
        r > 5,
    ensures
        only_lower(before, hub.opens(player, code), r),
{
    let put = HubModel { rooms: hub.opens(player, code).rooms, ..hub };
    lemma_same(before, hub, put, r);
    let greet = JobModel::Greet { player: player.id, code, created: true };
    lemma_then_do(before, put, greet, r);
    lemma_then_do(
        before,
        put.then_do(greet),
        JobModel::Vacate { seat_key: player.seat_key, keep: Some(code) },
        r,
    );
}

proof fn lemma_enter_progress(hub: HubModel, code: Seq<char>, visit: VisitModel, luck: LuckModel)
    requires
        hub.waiting is None,
        hub.jobs.len() > 0,
        hub.jobs.last() == (JobModel::Enter { code, visit }),
    ensures
        nearer_to_done(
            hub,
            HubModel { jobs: hub.jobs.drop_last(), ..hub }.enter(code, visit, luck),
            rank(hub.jobs.last()),
        ),
{
    let r = rank(hub.jobs.last());
    let rest = HubModel { jobs: hub.jobs.drop_last(), ..hub };
    let after = rest.enter(code, visit, luck);
    lemma_reflexive(rest, r);
    let put = HubModel { rooms: after.rooms, members: after.members, outbox: after.outbox, ..rest };
    lemma_same(rest, rest, put, r);
    match visit {
        VisitModel::Act { .. } => {
            lemma_then_do(rest, put, JobModel::Broadcast { code }, r);
            lemma_then_do(
                rest,
                put.then_do(JobModel::Broadcast { code }),
                JobModel::Persist { code },
                r,
            );
            assert(after == put || after == put.saves_and_shows(code));
        },
        VisitModel::Join { player, seat_key, .. } => {
            let greet = JobModel::Greet { player, code, created: false };
            let persist = JobModel::Persist { code };
            let seat = JobModel::SetSeat { seat_key, code };
            let vacate = JobModel::Vacate { seat_key, keep: Some(code) };
            lemma_then_do(rest, put, greet, r);
            lemma_then_do(rest, put.then_do(greet), persist, r);
            lemma_then_do(rest, put.then_do(greet).then_do(persist), seat, r);
            lemma_then_do(rest, put.then_do(greet).then_do(persist).then_do(seat), vacate, r);
            assert(after == put || after == put.then_do(greet).then_do(persist).then_do(
                seat,
            ).then_do(vacate));
        },
        _ => {
            assert(after == put);
        },
    }
    lemma_given_way(hub, after, r);
}

proof fn lemma_sweep_progress(hub: HubModel, luck: LuckModel)
    requires
        hub.waiting is None,
        hub.jobs.len() > 0,
        hub.jobs.last() is SweepNext,
        list_fits(hub.jobs.last()),
    ensures
        nearer_to_done(hub, hub.step(luck).hub, 3),
{
    let rest = HubModel { jobs: hub.jobs.drop_last(), ..hub };
    let after = hub.step(luck).hub;
    lemma_reflexive(rest, 3);
    if let JobModel::SweepNext { seat_key, codes, at, empty, dirty } = hub.jobs.last() {
        if at >= codes.len() {
            let refresh = JobModel::Refresh { codes: dirty, at: 0, save: true };
            let purge = JobModel::Purge { codes: empty, at: 0 };
            lemma_then_do(rest, rest, refresh, 3);
            lemma_then_do(rest, rest.then_do(refresh), purge, 3);
            lemma_given_way(hub, after, 3);
        } else {
            let next = after.jobs.last();
            let put = HubModel { rooms: after.rooms, members: after.members, ..rest };
            assert(next is SweepNext && size(next) < size(hub.jobs.last()));
            lemma_reflexive(put.then_do(next), 3);
            lemma_wait(put.then_do(next), put.then_do(next), WaitModel::Done, 3);
            assert(after == put.then_do(next) || after == (HubModel {
                waiting: Some(WaitModel::Done),
                ..put.then_do(next)
            }));
            lemma_grown_smaller(hub, put, next, after, 3);
        }
    }
}

proof fn lemma_purge_progress(hub: HubModel, codes: Seq<Seq<char>>, at: usize)
    requires
        hub.waiting is None,
        hub.jobs.len() > 0,
        hub.jobs.last() == (JobModel::Purge { codes, at }),
        codes.len() <= usize::MAX,
    ensures
        nearer_to_done(
            hub,
            HubModel { jobs: hub.jobs.drop_last(), ..hub }.purge(codes, at).hub,
            2,
        ),
{
    let rest = HubModel { jobs: hub.jobs.drop_last(), ..hub };
    let after = rest.purge(codes, at).hub;
    lemma_reflexive(rest, 2);
    if at >= codes.len() {
        lemma_given_way(hub, after, 2);
    } else {
        let next = JobModel::Purge { codes, at: (at + 1) as usize };
        let put = HubModel { rooms: after.rooms, ..rest };
        lemma_reflexive(put.then_do(next), 2);
        lemma_wait(put.then_do(next), put.then_do(next), WaitModel::Done, 2);
        lemma_grown_smaller(hub, put, next, after, 2);
    }
}

proof fn lemma_refresh_progress(hub: HubModel, codes: Seq<Seq<char>>, at: usize, save: bool)
    requires
        hub.waiting is None,
        hub.jobs.len() > 0,
        hub.jobs.last() == (JobModel::Refresh { codes, at, save }),
        codes.len() <= usize::MAX,
    ensures
        nearer_to_done(
            hub,
            HubModel { jobs: hub.jobs.drop_last(), ..hub }.refresh(codes, at, save),
            2,
        ),
{
    let rest = HubModel { jobs: hub.jobs.drop_last(), ..hub };
    let after = rest.refresh(codes, at, save);
    lemma_reflexive(rest, 2);
    if at >= codes.len() {
        lemma_given_way(hub, after, 2);
    } else {
        let code = codes[at as int];
        let next = JobModel::Refresh { codes, at: (at + 1) as usize, save };
        let base = rest.then_do(next);
        lemma_reflexive(base, 2);
        lemma_then_do(base, base, JobModel::Broadcast { code }, 2);
        lemma_then_do(
            base,
            base.then_do(JobModel::Broadcast { code }),
            JobModel::Persist { code },
            2,
        );
        lemma_grown_smaller(hub, rest, next, after, 2);
    }
}

/// Every reply of the store brings the hub nearer to having nothing to do.
pub proof fn replies_bring_the_hub_nearer_to_rest(hub: HubModel, reply: StoreReplyModel)
    requires
        hub.waiting matches Some(waiting) && replies_to(waiting, reply),
    ensures
        wait_rank(hub.waiting->0) <= 9,
        nearer_to_done(hub, hub.resumed(reply), wait_rank(hub.waiting->0)),
{
    let waiting = hub.waiting->0;
    let r = wait_rank(waiting);
    let rest = HubModel { waiting: None, ..hub };
    let after = hub.resumed(reply);
    lemma_reflexive(rest, r);
    match (waiting, reply) {
        (WaitModel::Load { code, visit }, StoreReplyModel::Room(_)) => {
            let put = HubModel { rooms: after.rooms, outbox: after.outbox, ..rest };
            lemma_same(rest, rest, put, r);
            lemma_then_do(rest, put, JobModel::Enter { code, visit }, r);
            lemma_answered(hub, after, r);
        },
        (WaitModel::Insert { player, code, tries }, StoreReplyModel::Saved(saved)) => {
            match saved {
                Ok(true) => {
                    lemma_opens_lower(rest, rest, player, code, r);
                    lemma_then_do(
                        rest,
                        rest.opens(player, code),
                        JobModel::SetSeat { seat_key: player.seat_key, code },
                        r,
                    );
                    lemma_answered(hub, after, r);
                },
                Ok(false) => {
                    let again = JobModel::Create { player, tries: (tries - 1) as usize };
                    assert forall|rr: nat| rr >= r implies #[trigger] load(after, rr) <= load(
                        hub,
                        rr,
                    ) by {
                        lemma_load_push(rest.jobs, again, rr);
                    }
                    lemma_load_push(rest.jobs, again, r);
                },
                Err(_) => {
                    lemma_same(rest, rest, after, r);
                    lemma_answered(hub, after, r);
                },
            }
        },
        (WaitModel::Save { code, .. }, StoreReplyModel::Saved(saved)) => {
            match saved {
                Ok(false) => {
                    let again = JobModel::Load { code, visit: VisitModel::Reload };
                    assert forall|rr: nat| rr >= r implies #[trigger] load(after, rr) <= load(
                        hub,
                        rr,
                    ) by {
                        lemma_load_push(rest.jobs, again, rr);
                    }
                    lemma_load_push(rest.jobs, again, r);
                },
                _ => {
                    lemma_same(rest, rest, after, r);
                    lemma_answered(hub, after, r);
                },
            }
        },
        (WaitModel::Seat { seat_key, keep }, StoreReplyModel::Seat(got)) => {
            let sweep = JobModel::Sweep { seat_key, keep };
            lemma_then_do(rest, rest, sweep, r);
            if let Ok(Some(code)) = got {
                lemma_then_do(
                    rest,
                    rest.then_do(sweep),
                    JobModel::Load { code, visit: VisitModel::Reload },
                    r,
                );
            }
            lemma_answered(hub, after, r);
        },
        _ => {
            lemma_same(rest, rest, after, r);
            lemma_answered(hub, after, r);
        },
    }
}

/// Where a wait of rank `r` has given way to lower jobs, there is less to do.
proof fn lemma_answered(hub: HubModel, after: HubModel, r: nat)
    requires
        hub.waiting is Some,
        wait_rank(hub.waiting->0) == r,
        only_lower(HubModel { waiting: None, ..hub }, after, r),
    ensures
        nearer_to_done(hub, after, r),
{
    let rest = HubModel { waiting: None, ..hub };
    assert(load(after, r) <= load(rest, r));
    assert forall|higher: nat| higher > r implies #[trigger] load(after, higher) <= load(
        hub,
        higher,
    ) by {
        assert(load(after, higher) <= load(rest, higher));
    }
}

} // verus!
