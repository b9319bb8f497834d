//! What holds of a pool as a whole, across its steps.

use vstd::prelude::*;
use vstd::set_lib::*;

use crate::gpu::LookupView;
use crate::model::PoolView;
use crate::pool::LaunchError;
use crate::pool::Seat;
use crate::pool::SeatInfo;

verus! {

/// The seats, the launches under way and the replaced sessions.
pub open spec fn sessions<S>(pool: PoolView<S>) -> Set<u64> {
    pool.seats.dom().union(pool.launching.dom()).union(pool.replaced.dom())
}

/// Each session is pinned to a distinct slot: in multi-seat mode two sessions, of whatever
/// kind each is, never share one.
pub proof fn law_sessions_have_distinct_gpus<S>(pool: PoolView<S>, a: u64, b: u64)
    requires
        pool.wf(),
        pool.multi_seat(),
        pool.in_use(a),
        pool.in_use(b),
        a != b,
    ensures
        pool.slot_of(a) is Some,
        pool.slot_of(b) is Some,
        pool.slot_of(a) != pool.slot_of(b),
{
    let i = pool.slot_of(a)->0;
    assert(pool.holds(a, i));
    if pool.slot_of(a) == pool.slot_of(b) {
        assert(pool.holds(b, i));
    }
}

/// Up to N simultaneous sessions, N being the number of slots: in multi-seat mode there
/// are never more, and there is room exactly while there are fewer.
pub proof fn law_capacity_is_number_of_gpus<S>(pool: PoolView<S>)
    requires
        pool.wf(),
        pool.multi_seat(),
    ensures
        sessions(pool).finite(),
        sessions(pool).len() <= pool.gpus.len(),
        pool.seats.dom().len() <= sessions(pool).len(),
        pool.has_free_slot() <==> sessions(pool).len() < pool.gpus.len(),
{
    let ids = sessions(pool);
    let n = pool.gpus.len() as int;
    let slot = |id: u64| pool.slot_of(id)->0 as int;
    let used = ids.map(slot);
    let range = set_int_range(0, n);
    assert forall|id: u64| ids.contains(id) <==> #[trigger] pool.in_use(id) by {}
    assert forall|a: u64, b: u64|
        ids.contains(a) && ids.contains(b) && #[trigger] slot(a) == #[trigger] slot(
            b,
        ) implies a == b by {
        assert(pool.in_use(a) && pool.in_use(b));
        if a != b {
            law_sessions_have_distinct_gpus(pool, a, b);
        }
    }
    lemma_map_size(ids, used, slot);
    lemma_int_range(0, n);
    assert forall|i: int| used.contains(i) implies #[trigger] range.contains(i) by {
        let id = choose|id: u64| ids.contains(id) && slot(id) == i;
        assert(pool.in_use(id));
    }
    lemma_len_subset(used, range);
    assert forall|i: int| 0 <= i < n implies (used.contains(i) <==> (
    #[trigger] pool.gpus[i]).busy) by {
        let k = i as usize;
        assert(pool.gpus[k as int].busy <==> exists|id: u64| pool.holds(id, k));
        if used.contains(i) {
            let id = choose|id: u64| ids.contains(id) && slot(id) == i;
            assert(pool.in_use(id));
            assert(pool.holds(id, k));
        }
        if pool.gpus[i].busy {
            let id = choose|id: u64| pool.holds(id, k);
            assert(pool.in_use(id));
            assert(ids.contains(id) && slot(id) == i);
        }
    }
    if pool.has_free_slot() {
        let i = choose|i: int| 0 <= i < n && !(#[trigger] pool.gpus[i]).busy;
        assert(range.contains(i) && !used.contains(i));
        if used.len() == range.len() {
            lemma_subset_equality(used, range);
        }
    } else {
        assert forall|i: int| range.contains(i) implies #[trigger] used.contains(i) by {
            assert(pool.gpus[i].busy);
        }
        assert(used =~= range);
    }
    assert(pool.seats.dom().subset_of(ids));
    lemma_len_subset(pool.seats.dom(), ids);
}

/// What the pool says of its capacity is true: a launch without a constraint is accepted
/// exactly where there is capacity.
pub proof fn law_capacity_means_launch<S>(pool: PoolView<S>)
    requires
        pool.wf(),
    ensures
        pool.has_free_slot() <==> pool.reservation(None) is Ok,
{
    pool.lemma_first_free();
}

/// Without capacity every launch is refused for want of a GPU.
pub proof fn law_full_pool_refuses<S>(pool: PoolView<S>, app_gpu: Option<LookupView>)
    requires
        pool.wf(),
        crate::gpu::covers(app_gpu, pool.gpus),
        !pool.has_free_slot(),
    ensures
        pool.reservation(app_gpu) == Err::<Option<usize>, LaunchError>(LaunchError::NoGpuAvailable),
{
    pool.lemma_first_free();
    if let Some(lookup) = app_gpu {
        if let Some(want) = lookup.want {
            lookup.nodes.index_of_first_ensures(want);
        }
    }
}

/// An app's GPU is a hard constraint: in multi-seat mode a launch with one gets that very
/// GPU, free until then, or none.
pub proof fn law_app_gpu_is_hard_constraint<S>(pool: PoolView<S>, lookup: LookupView)
    requires
        pool.wf(),
        pool.multi_seat(),
        crate::gpu::covers(Some(lookup), pool.gpus),
    ensures
        match pool.reservation(Some(lookup)) {
            Ok(gpu_index) => {
                &&& gpu_index matches Some(i)
                &&& i < pool.gpus.len()
                &&& lookup.want == Some(lookup.nodes[i as int])
                &&& !pool.gpus[i as int].busy
            },
            Err(e) => e is NoGpuAvailable,
        },
{
    if let Some(want) = lookup.want {
        lookup.nodes.index_of_first_ensures(want);
    }
}

/// An app's GPU is granted where it is part of the pool and free. `i` is where it stands,
/// the nodes of the pool being distinct.
pub proof fn law_free_app_gpu_is_granted<S>(pool: PoolView<S>, lookup: LookupView, i: int)
    requires
        pool.wf(),
        pool.multi_seat(),
        crate::gpu::covers(Some(lookup), pool.gpus),
        lookup.nodes.no_duplicates(),
        0 <= i < pool.gpus.len(),
        lookup.want == Some(lookup.nodes[i]),
    ensures
        pool.reservation(Some(lookup)) == (if pool.gpus[i].busy {
            Err(LaunchError::NoGpuAvailable)
        } else {
            Ok(Some(i as usize))
        }),
{
    crate::gpu::lemma_first_index(lookup.nodes, lookup.nodes[i], i);
}

/// Two launches that are under way at the same time get different GPUs.
pub proof fn law_concurrent_launches_differ<S>(
    pool: PoolView<S>,
    first: Option<LookupView>,
    second: Option<LookupView>,
    owner: String,
    application_id: i32,
)
    requires
        pool.wf(),
        pool.multi_seat(),
        pool.next_id < u64::MAX,
        crate::gpu::covers(first, pool.gpus),
        crate::gpu::covers(second, pool.gpus),
        pool.reservation(first) is Ok,
    ensures
        pool.launched(pool.reservation(first)->Ok_0, owner, application_id).reservation(second)
            != pool.reservation(first),
{
    let gpu_index = pool.reservation(first)->Ok_0;
    pool.lemma_reservation(first);
    pool.lemma_launched_wf(gpu_index, owner, application_id);
    pool.launched(gpu_index, owner, application_id).lemma_reservation(second);
}

/// A failed launch leaves nothing behind: the reserved GPU is free again and only the id
/// is used up.
pub proof fn law_failed_launch_leaves_no_trace<S>(
    pool: PoolView<S>,
    gpu_index: Option<usize>,
    owner: String,
    application_id: i32,
)
    requires
        pool.wf(),
        pool.next_id < u64::MAX,
        pool.available(gpu_index),
    ensures
        pool.launched(gpu_index, owner, application_id).failed(pool.next_id as u64) == (PoolView {
            next_id: pool.next_id + 1,
            ..pool
        }),
{
    let after = pool.launched(gpu_index, owner, application_id).failed(pool.next_id as u64);
    assert(!pool.in_use(pool.next_id as u64));
    assert(after.gpus =~= pool.gpus);
    assert(after.launching =~= pool.launching);
}

/// A session that ends gives back all it took: its GPU, its seat and its client's entry.
/// Only the id is used up.
pub proof fn law_ended_session_gives_back<S>(
    pool: PoolView<S>,
    gpu_index: Option<usize>,
    owner: String,
    application_id: i32,
    rtsp_port: u16,
    session: S,
)
    requires
        pool.wf(),
        pool.next_id < u64::MAX,
        pool.available(gpu_index),
        pool.seat_id(owner@) is None,
    ensures
        ({
            let id = pool.next_id as u64;
            pool.launched(gpu_index, owner, application_id).committed(
                id,
                rtsp_port,
                session,
            ).removed(id) == (PoolView { next_id: pool.next_id + 1, ..pool })
        }),
{
    let id = pool.next_id as u64;
    let after = pool.launched(gpu_index, owner, application_id).committed(
        id,
        rtsp_port,
        session,
    ).removed(id);
    assert(!pool.in_use(id));
    assert(after.gpus =~= pool.gpus);
    assert(after.seats =~= pool.seats);
    assert(after.launching =~= pool.launching);
    assert(after.owners =~= pool.owners);
}

/// A session that is replaced keeps its GPU until it is torn down: it is no seat any more,
/// its slot is busy and its own, and once it is released the slot is free.
pub proof fn law_replaced_session_keeps_gpu<S>(
    pool: PoolView<S>,
    id: u64,
    rtsp_port: u16,
    session: S,
)
    requires
        pool.wf(),
        pool.launching.contains_key(id),
        pool.seat_id(pool.launching[id].owner@) is Some,
    ensures
        ({
            let owner = pool.launching[id].owner@;
            let other = pool.seat_id(owner)->0;
            let slot = pool.seats[other].gpu_index;
            let after = pool.committed(id, rtsp_port, session);
            &&& !after.seats.contains_key(other)
            &&& after.replaced.contains_key(other)
            &&& after.replaced[other] == slot
            &&& slot matches Some(i) && i < pool.gpus.len()
            &&& after.gpus[slot->0 as int].busy
            &&& !after.released(other).in_use(other)
            &&& !after.released(other).gpus[slot->0 as int].busy
            &&& after.released(other).info(owner) == after.info(owner)
        }),
{
    let other = pool.seat_id(pool.launching[id].owner@)->0;
    assert(pool.in_use(other));
    assert(pool.in_use(id));
    if let Some(i) = pool.slot_of(other) {
        assert(pool.holds(other, i));
        assert(pool.gpus[i as int].busy);
    }
}

/// The two ways to give a GPU up stay apart: a session that is torn down is no launch, so
/// its release leaves every launch under way and the slots of all of them as they are.
pub proof fn law_release_leaves_launches_alone<S>(pool: PoolView<S>, id: u64, launch: u64)
    requires
        pool.wf(),
        pool.launching.contains_key(launch),
    ensures
        pool.released(launch) == pool,
        pool.released(id).launching == pool.launching,
        pool.launching[launch].gpu_index matches Some(i) ==> pool.released(id).gpus[i as int].busy,
{
    pool.lemma_released_wf(id);
    let after = pool.released(id);
    assert(after.in_use(launch));
    if let Some(i) = pool.launching[launch].gpu_index {
        assert(after.holds(launch, i));
        assert(after.gpus[i as int].busy);
    }
}

/// Removing a seat is idempotent: doing it again changes nothing.
pub proof fn law_removal_is_idempotent<S>(pool: PoolView<S>, id: u64)
    ensures
        pool.removed(id).removed(id) == pool.removed(id),
{
}

/// A session that has ended stays ended, whatever happens after: its id comes into use by
/// no launch, start, failure, release or removal of another session. Removing it late, when
/// its GPU may be owned by another session already, therefore changes nothing.
pub proof fn law_late_removal_is_harmless<S>(
    pool: PoolView<S>,
    id: u64,
    gpu_index: Option<usize>,
    owner: String,
    application_id: i32,
    other: u64,
    rtsp_port: u16,
    session: S,
)
    requires
        pool.wf(),
        pool.next_id < u64::MAX,
        id < pool.next_id,
        !pool.in_use(id),
    ensures
        pool.removed(id) == pool,
        pool.released(id) == pool,
        ({
            let after = pool.launched(gpu_index, owner, application_id);
            id < after.next_id && !after.in_use(id)
        }),
        pool.launching.contains_key(other) ==> {
            let after = pool.committed(other, rtsp_port, session);
            id < after.next_id && !after.in_use(id)
        },
        id < pool.failed(other).next_id && !pool.failed(other).in_use(id),
        id < pool.released(other).next_id && !pool.released(other).in_use(id),
        id < pool.removed(other).next_id && !pool.removed(other).in_use(id),
{
    if pool.launching.contains_key(other) {
        assert(pool.in_use(other));
    }
}

/// A started seat is the one that its client is told of and resumes, with the application
/// that the launch was made for.
pub proof fn law_started_seat_is_reported<S>(
    pool: PoolView<S>,
    id: u64,
    rtsp_port: u16,
    session: S,
)
    ensures
        ({
            let after = pool.committed(id, rtsp_port, session);
            let owner = pool.launching[id].owner@;
            &&& after.seat_id(owner) == Some(id)
            &&& after.seats[id] == pool.started(id, rtsp_port, session)
            &&& after.info(owner) == Some(
                SeatInfo { rtsp_port, application_id: pool.launching[id].application_id },
            )
        }),
{
}

/// A launch, and how it ends, concern no client but its own.
pub proof fn law_launch_leaves_other_clients_alone<S>(
    pool: PoolView<S>,
    gpu_index: Option<usize>,
    launcher: String,
    application_id: i32,
    id: u64,
    rtsp_port: u16,
    session: S,
    owner: Seq<char>,
)
    requires
        pool.wf(),
        pool.launching.contains_key(id),
    ensures
        pool.launched(gpu_index, launcher, application_id).seat_id(owner) == pool.seat_id(owner),
        pool.launched(gpu_index, launcher, application_id).info(owner) == pool.info(owner),
        pool.launching[id].owner@ != owner ==> {
            let after = pool.committed(id, rtsp_port, session);
            after.seat_id(owner) == pool.seat_id(owner) && after.info(owner) == pool.info(owner)
        },
        pool.failed(id).seat_id(owner) == pool.seat_id(owner),
        pool.failed(id).info(owner) == pool.info(owner),
        pool.released(id).seat_id(owner) == pool.seat_id(owner),
        pool.released(id).info(owner) == pool.info(owner),
{
    assert(pool.owners.contains_key(owner) ==> pool.seats.contains_key(pool.owners[owner]));
    assert(!pool.seats.contains_key(id));
}

/// Removing a seat concerns no client but the one that is mapped to it.
pub proof fn law_removal_leaves_other_clients_alone<S>(pool: PoolView<S>, id: u64, owner: Seq<char>)
    requires
        pool.wf(),
        pool.seat_id(owner) != Some(id),
    ensures
        pool.removed(id).seat_id(owner) == pool.seat_id(owner),
        pool.removed(id).info(owner) == pool.info(owner),
{
}

/// Stopping a client ends its seat: no seat is reported for it any more, and the GPU is
/// free.
pub proof fn law_stopped_client_has_no_seat<S>(pool: PoolView<S>, owner: Seq<char>)
    requires
        pool.wf(),
        pool.seat_id(owner) is Some,
    ensures
        ({
            let id = pool.seat_id(owner)->0;
            let after = pool.removed(id);
            &&& after.seat_id(owner) is None
            &&& after.info(owner) is None
            &&& !after.in_use(id)
            &&& pool.seats[id].gpu_index matches Some(i) ==> !after.gpus[i as int].busy
        }),
{
    let id = pool.seat_id(owner)->0;
    assert(pool.in_use(id));
}

/// A client can always re-launch: once its old session is torn down there is room for the
/// new one, even in a full pool.
pub proof fn law_relaunch_finds_room<S>(pool: PoolView<S>, owner: Seq<char>)
    requires
        pool.wf(),
        pool.seat_id(owner) is Some,
    ensures
        pool.removed(pool.seat_id(owner)->0).reservation(None) is Ok,
{
    let id = pool.seat_id(owner)->0;
    let after = pool.removed(id);
    pool.lemma_removed_wf(id);
    law_stopped_client_has_no_seat(pool, owner);
    law_capacity_means_launch(after);
    assert(pool.in_use(id));
    if !pool.multi_seat() {
        assert forall|other: u64|
            #![trigger after.seats.dom().contains(other)]
            #![trigger after.launching.dom().contains(other)]
            #![trigger after.replaced.dom().contains(other)]
            !after.seats.dom().contains(other) && !after.launching.dom().contains(other)
                && !after.replaced.dom().contains(other) by {
            if after.in_use(other) {
                assert(pool.in_use(other));
            }
        }
        assert(after.seats.dom() =~= Set::empty());
        assert(after.launching.dom() =~= Set::empty());
        assert(after.replaced.dom() =~= Set::empty());
    }
}

/// No client has two seats: two seats of the same client are one, and it is the one that
/// the client is mapped to.
pub proof fn law_one_seat_per_client<S>(pool: PoolView<S>, a: u64, b: u64)
    requires
        pool.wf(),
        pool.seats.contains_key(a),
        pool.seats.contains_key(b),
        pool.seats[a].owner@ == pool.seats[b].owner@,
    ensures
        a == b,
        pool.seat_id(pool.seats[a].owner@) == Some(a),
{
}

/// A client that re-launches replaces its own session: its old seat, if any, is gone, the
/// new one is its only seat and the one that is reported.
pub proof fn law_relaunch_replaces_session<S>(
    pool: PoolView<S>,
    app_gpu: Option<LookupView>,
    gpu_index: Option<usize>,
    owner: String,
    application_id: i32,
    rtsp_port: u16,
    session: S,
)
    requires
        pool.wf(),
        pool.next_id < u64::MAX,
        crate::gpu::covers(app_gpu, pool.gpus),
        stopped(pool, owner@).reservation(app_gpu) == Ok::<Option<usize>, LaunchError>(gpu_index),
    ensures
        ({
            let id = pool.next_id as u64;
            let after = stopped(pool, owner@).launched(gpu_index, owner, application_id).committed(
                id,
                rtsp_port,
                session,
            );
            &&& after.wf()
            &&& after.seat_id(owner@) == Some(id)
            &&& after.seats[id] == (Seat { gpu_index, owner, application_id, rtsp_port, session })
            &&& after.info(owner@) == Some(SeatInfo { rtsp_port, application_id })
            &&& forall|a: u64| #[trigger]
                after.seats.contains_key(a) && after.seats[a].owner@ == owner@ ==> a == id
        }),
{
    let id = pool.next_id as u64;
    let free = stopped(pool, owner@);
    if let Some(old_id) = pool.seat_id(owner@) {
        pool.lemma_removed_wf(old_id);
    }
    free.lemma_reservation(app_gpu);
    free.lemma_launched_wf(gpu_index, owner, application_id);
    free.launched(gpu_index, owner, application_id).lemma_committed_wf(id, rtsp_port, session);
}

/// Of overlapping launches of one client the last to end wins: whatever its client had
/// before, the seat that a launch leads to is its client's only one.
pub proof fn law_last_launch_wins<S>(pool: PoolView<S>, id: u64, rtsp_port: u16, session: S)
    requires
        pool.wf(),
        pool.launching.contains_key(id),
    ensures
        ({
            let after = pool.committed(id, rtsp_port, session);
            &&& after.wf()
            &&& forall|a: u64| #[trigger]
                after.seats.contains_key(a) && after.seats[a].owner@ == pool.launching[id].owner@
                    ==> a == id
        }),
{
    pool.lemma_committed_wf(id, rtsp_port, session);
}

/// The pool once the seat of `owner`, if any, has been stopped and removed.
pub open spec fn stopped<S>(pool: PoolView<S>, owner: Seq<char>) -> PoolView<S> {
    match pool.seat_id(owner) {
        Some(id) => pool.removed(id),
        None => pool,
    }
}

/// Single-seat mode has capacity 1: there is at most one session at any time, and
/// while there is one, every launch is refused.
pub proof fn law_single_seat_hosts_one<S>(pool: PoolView<S>, app_gpu: Option<LookupView>)
    requires
        pool.wf(),
        !pool.multi_seat(),
    ensures
        sessions(pool).finite(),
        sessions(pool).len() <= 1,
        pool.seats.dom().len() <= sessions(pool).len(),
        pool.reservation(app_gpu) == (if sessions(pool).len() == 0 {
            Ok(None::<usize>)
        } else {
            Err(LaunchError::NoGpuAvailable)
        }),
{
    let ids = sessions(pool);
    assert forall|id: u64| ids.contains(id) <==> #[trigger] pool.in_use(id) by {}
    assert(pool.seats.dom().subset_of(ids));
    lemma_len_subset(pool.seats.dom(), ids);
    if ids.len() == 0 {
        ids.lemma_len0_is_empty();
        assert(forall|id: u64| !ids.contains(id));
        assert(pool.seats.dom() =~= Set::empty());
        assert(pool.launching.dom() =~= Set::empty());
        assert(pool.replaced.dom() =~= Set::empty());
    } else {
        let a = ids.choose();
        assert(pool.in_use(a));
        assert forall|b: u64| ids.contains(b) implies b == a by {
            assert(pool.in_use(b));
        }
        assert(ids =~= set![a]);
        assert(!pool.idle());
    }
}

/// In single-seat mode a launch that comes while another is under way, or has led to a
/// seat, is refused.
pub proof fn law_overlapping_single_seat_launch_is_refused<S>(
    pool: PoolView<S>,
    owner: String,
    application_id: i32,
    rtsp_port: u16,
    session: S,
    app_gpu: Option<LookupView>,
)
    requires
        pool.wf(),
        !pool.multi_seat(),
        pool.next_id < u64::MAX,
        pool.available(None),
    ensures
        ({
            let under_way = pool.launched(None, owner, application_id);
            let started = under_way.committed(pool.next_id as u64, rtsp_port, session);
            &&& under_way.reservation(app_gpu) == Err::<Option<usize>, LaunchError>(
                LaunchError::NoGpuAvailable,
            )
            &&& started.reservation(app_gpu) == Err::<Option<usize>, LaunchError>(
                LaunchError::NoGpuAvailable,
            )
        }),
{
    let id = pool.next_id as u64;
    let under_way = pool.launched(None, owner, application_id);
    assert(under_way.launching.dom().contains(id));
    assert(under_way.committed(id, rtsp_port, session).seats.dom().contains(id));
}

/// Seat ids are never reused: the next one is in use by no session, and no step goes back
/// to an earlier one.
pub proof fn law_ids_are_fresh<S>(
    pool: PoolView<S>,
    gpu_index: Option<usize>,
    owner: String,
    application_id: i32,
    id: u64,
    rtsp_port: u16,
    session: S,
)
    requires
        pool.wf(),
        pool.next_id < u64::MAX,
    ensures
        !pool.in_use(pool.next_id as u64),
        pool.plan(gpu_index, owner@).id == pool.next_id,
        pool.launched(gpu_index, owner, application_id).next_id > pool.next_id,
        pool.committed(id, rtsp_port, session).next_id == pool.next_id,
        pool.failed(id).next_id == pool.next_id,
        pool.released(id).next_id == pool.next_id,
        pool.removed(id).next_id == pool.next_id,
{
}

/// Concurrent seats have homes of their own: with a template by slot, no two sessions of a
/// multi-seat pool are given the same HOME.
pub proof fn law_sessions_have_own_homes<S>(
    pool: PoolView<S>,
    template: Seq<char>,
    a: u64,
    b: u64,
    owner_a: Seq<char>,
    owner_b: Seq<char>,
)
    requires
        pool.wf(),
        pool.multi_seat(),
        pool.in_use(a),
        pool.in_use(b),
        a != b,
        crate::text::occurs("{seat}"@, template),
        !crate::text::occurs("{owner}"@, template),
    ensures
        crate::seat_home::home(template, pool.slot_of(a), owner_a) != crate::seat_home::home(
            template,
            pool.slot_of(b),
            owner_b,
        ),
{
    law_sessions_have_distinct_gpus(pool, a, b);
    crate::seat_home::law_seat_homes_differ(
        template,
        pool.slot_of(a),
        pool.slot_of(b),
        owner_a,
        owner_b,
    );
}

} // verus!
