//! What a plan holds, and what each step of a pool changes and leaves alone.

use vstd::prelude::*;

use crate::gpu::LookupView;
use crate::gpu::NodeView;
use crate::history::Step;
use crate::model::PoolView;
use crate::model::SettingsView;
use crate::pool::Launch;
use crate::pool::LaunchError;
use crate::pool::Seat;
use crate::pool::SeatInfo;
use crate::pool::SeatPlan;

verus! {

/// A pool has exactly the settings that it was made with, from the start and after any
/// steps.
pub proof fn law_pool_keeps_its_settings<S>(
    settings: SettingsView,
    nodes: Seq<NodeView>,
    steps: Seq<Step<S>>,
)
    requires
        settings.compositor.gpus.len() == nodes.len(),
        nodes.len() <= usize::MAX,
        1 + steps.len() <= u64::MAX,
    ensures
        ({
            let pool = crate::history::after_all(PoolView::<S>::fresh(settings, nodes), steps);
            &&& pool.settings.rtsp_port == settings.rtsp_port
            &&& pool.settings.video_port == settings.video_port
            &&& pool.settings.audio_port == settings.audio_port
            &&& pool.settings.control_port == settings.control_port
            &&& pool.settings.address == settings.address
            &&& pool.settings.stream_timeout == settings.stream_timeout
            &&& pool.settings.compositor == settings.compositor
        }),
{
    PoolView::<S>::lemma_fresh_wf(settings, nodes);
    crate::history::law_any_steps_keep_the_invariant(PoolView::<S>::fresh(settings, nodes), steps);
}

/// A pool that was just made has no session and no client, ids from 1 on, and no busy slot.
pub proof fn law_new_pool_is_empty<S>(settings: SettingsView, nodes: Seq<NodeView>)
    ensures
        ({
            let pool = PoolView::<S>::fresh(settings, nodes);
            &&& pool.next_id == 1
            &&& pool.seats.is_empty() && pool.launching.is_empty() && pool.replaced.is_empty()
            &&& pool.owners.is_empty()
            &&& pool.gpus == crate::gpu::free_slots(crate::gpu::distinct(nodes))
            &&& forall|i: int| 0 <= i < pool.gpus.len() ==> !(#[trigger] pool.gpus[i]).busy
        }),
{
}

/// A plan stands for what each of its fields holds.
pub proof fn law_plan_holds_its_fields(plan: SeatPlan)
    ensures
        plan@.id == plan.id,
        plan@.gpu_index == plan.gpu_index,
        plan@.seat_home is Some <==> plan.seat_home is Some,
        plan.seat_home matches Some(home) ==> plan@.seat_home == Some(home@),
        plan@.steam_libraries.len() == plan.steam_libraries@.len(),
        forall|i: int|
            0 <= i < plan.steam_libraries@.len() ==> #[trigger] plan@.steam_libraries[i]
                == plan.steam_libraries@[i]@,
        plan@.compositor == plan.compositor_config@,
        plan@.video_port == plan.video_config.port,
        plan@.audio_port == plan.audio_config.port,
        plan@.control_port == plan.control_config.port,
        plan@.address == plan.address@,
        plan@.rtsp_bind_port == plan.rtsp_bind_port,
        plan@.stream_timeout == plan.stream_timeout,
{
}

/// Concurrent seats share no port: with GPUs to draw from, every plan leaves all four ports
/// to the OS, whatever else is set; without, every plan has the four configured ones.
pub proof fn law_ports_follow_the_mode<S>(
    pool: PoolView<S>,
    gpu_index: Option<usize>,
    owner: Seq<char>,
)
    ensures
        ({
            let plan = pool.plan(gpu_index, owner);
            if pool.settings.compositor.gpus.len() > 0 {
                &&& plan.video_port == 0
                &&& plan.audio_port == 0
                &&& plan.control_port == 0
                &&& plan.rtsp_bind_port == 0
            } else {
                &&& plan.video_port == pool.settings.video_port
                &&& plan.audio_port == pool.settings.audio_port
                &&& plan.control_port == pool.settings.control_port
                &&& plan.rtsp_bind_port == pool.settings.rtsp_port
            }
        }),
{
}

/// Every plan has the configured address and timeout, the next id, the slot that was
/// reserved, and the compositor settings but for the GPUs.
pub proof fn law_plan_follows_the_settings<S>(
    pool: PoolView<S>,
    gpu_index: Option<usize>,
    owner: Seq<char>,
)
    requires
        0 <= pool.next_id <= u64::MAX,
    ensures
        ({
            let plan = pool.plan(gpu_index, owner);
            &&& plan.id == pool.next_id
            &&& plan.gpu_index == gpu_index
            &&& plan.address == pool.settings.address
            &&& plan.stream_timeout == pool.settings.stream_timeout
            &&& plan.compositor.seat_home_template == pool.settings.compositor.seat_home_template
            &&& plan.compositor.seat_steam_libraries
                == pool.settings.compositor.seat_steam_libraries
        }),
{
}

/// A seat is pinned to the GPU of its slot and to no other: its plan names that slot's node
/// and no pool to draw from. Without a slot it keeps the configured GPU.
pub proof fn law_plan_pins_the_gpu<S>(
    pool: PoolView<S>,
    gpu_index: Option<usize>,
    owner: Seq<char>,
)
    ensures
        pool.plan(gpu_index, owner).compositor.gpus.len() == 0,
        gpu_index matches Some(i) ==> pool.plan(gpu_index, owner).compositor.gpu == Some(
            crate::pool::lossy_text(pool.gpus[i as int].node),
        ),
        gpu_index is None ==> pool.plan(gpu_index, owner).compositor.gpu
            == pool.settings.compositor.gpu,
{
}

/// A seat has a HOME of its own exactly where seats run concurrently and a template is set:
/// the one that the template gives for its slot and its client. The shared libraries are
/// for such a HOME, all of them, and for no other.
pub proof fn law_plan_gives_a_home<S>(
    pool: PoolView<S>,
    gpu_index: Option<usize>,
    owner: Seq<char>,
)
    ensures
        ({
            let plan = pool.plan(gpu_index, owner);
            match pool.settings.compositor.seat_home_template {
                Some(template) if pool.settings.compositor.gpus.len() > 0 => {
                    &&& plan.seat_home == Some(crate::seat_home::home(template, gpu_index, owner))
                    &&& plan.steam_libraries == pool.settings.compositor.seat_steam_libraries
                },
                _ => plan.seat_home is None && plan.steam_libraries.len() == 0,
            }
        }),
{
}

/// Without a constraint a launch gets the first free slot, and is refused for want of a GPU
/// where none is free.
pub proof fn law_first_free_slot_is_reserved<S>(pool: PoolView<S>)
    requires
        pool.wf(),
        pool.settings.compositor.gpus.len() > 0,
    ensures
        match pool.reservation(None) {
            Ok(gpu_index) => {
                &&& gpu_index matches Some(i)
                &&& i < pool.gpus.len()
                &&& !pool.gpus[i as int].busy
                &&& forall|j: int| 0 <= j < i ==> (#[trigger] pool.gpus[j]).busy
            },
            Err(e) => {
                &&& e == LaunchError::NoGpuAvailable
                &&& forall|j: int| 0 <= j < pool.gpus.len() ==> (#[trigger] pool.gpus[j]).busy
            },
        },
{
    pool.lemma_first_free();
}

/// With an app's GPU a launch gets the first slot that is this GPU, where that one is free;
/// it is refused where the GPU is unknown, not part of the pool or busy.
pub proof fn law_app_gpu_is_reserved_or_refused<S>(pool: PoolView<S>, lookup: LookupView)
    requires
        pool.wf(),
        pool.settings.compositor.gpus.len() > 0,
        crate::gpu::covers(Some(lookup), pool.gpus),
    ensures
        match pool.reservation(Some(lookup)) {
            Ok(gpu_index) => {
                &&& gpu_index matches Some(i)
                &&& i < pool.gpus.len()
                &&& !pool.gpus[i as int].busy
                &&& lookup.want == Some(lookup.nodes[i as int])
                &&& forall|j: int|
                    0 <= j < i ==> Some(#[trigger] lookup.nodes[j]) != lookup.want
            },
            Err(e) => {
                &&& e == LaunchError::NoGpuAvailable
                &&& forall|i: int|
                    0 <= i < pool.gpus.len() && Some(#[trigger] lookup.nodes[i]) == lookup.want
                        ==> pool.gpus[i].busy || exists|j: int|
                        0 <= j < i && Some(#[trigger] lookup.nodes[j]) == lookup.want
            },
        },
{
    if let Some(want) = lookup.want {
        lookup.nodes.index_of_first_ensures(want);
        if let Some(k) = lookup.nodes.index_of_first(want) {
            assert forall|i: int|
                0 <= i < pool.gpus.len() && Some(#[trigger] lookup.nodes[i]) == lookup.want
                    && i != k implies exists|j: int|
                0 <= j < i && Some(#[trigger] lookup.nodes[j]) == lookup.want by {
                assert(i > k);
                assert(Some(lookup.nodes[k]) == lookup.want);
            }
        } else {
            assert forall|i: int| 0 <= i < pool.gpus.len() implies Some(
                #[trigger] lookup.nodes[i],
            ) != lookup.want by {
                assert(lookup.nodes.contains(lookup.nodes[i]));
            }
        }
    }
}

/// In single-seat mode a launch is accepted exactly where there is no seat, no launch
/// under way and no replaced session, and gets no slot.
pub proof fn law_single_seat_is_reserved_once<S>(pool: PoolView<S>, app_gpu: Option<LookupView>)
    requires
        pool.wf(),
        pool.settings.compositor.gpus.len() == 0,
    ensures
        match pool.reservation(app_gpu) {
            Ok(gpu_index) => {
                &&& gpu_index is None
                &&& pool.seats.is_empty() && pool.launching.is_empty() && pool.replaced.is_empty()
            },
            Err(e) => {
                &&& e == LaunchError::NoGpuAvailable
                &&& !pool.seats.is_empty() || !pool.launching.is_empty()
                    || !pool.replaced.is_empty()
            },
        },
{
}

/// A launch takes one slot and one id, is noted with its client and its application, and
/// changes nothing else.
pub proof fn law_what_a_launch_changes<S>(
    pool: PoolView<S>,
    gpu_index: Option<usize>,
    owner: String,
    application_id: i32,
)
    requires
        pool.wf(),
    ensures
        ({
            let next = pool.launched(gpu_index, owner, application_id);
            &&& next.launching == pool.launching.insert(
                pool.next_id as u64,
                Launch { gpu_index, owner, application_id },
            )
            &&& next.next_id == pool.next_id + 1
            &&& next.settings == pool.settings
            &&& next.seats == pool.seats
            &&& next.owners == pool.owners
            &&& next.replaced == pool.replaced
            &&& next.gpus.len() == pool.gpus.len()
            &&& forall|i: int|
                0 <= i < pool.gpus.len() ==> {
                    let slot = #[trigger] next.gpus[i];
                    &&& slot.node == pool.gpus[i].node
                    &&& slot.busy == (pool.gpus[i].busy || gpu_index == Some(i as usize))
                }
        }),
{
}

/// A launch that succeeds ends with a seat of its client on its slot, for its application.
/// That client's seat from before, and no other, is replaced and keeps its slot; nothing
/// else changes.
pub proof fn law_what_a_start_changes<S>(pool: PoolView<S>, id: u64, rtsp_port: u16, session: S)
    requires
        pool.wf(),
        pool.launching.contains_key(id),
    ensures
        ({
            let next = pool.committed(id, rtsp_port, session);
            let launch = pool.launching[id];
            &&& next.seats.contains_key(id)
            &&& next.seats[id] == (Seat {
                gpu_index: launch.gpu_index,
                owner: launch.owner,
                application_id: launch.application_id,
                rtsp_port,
                session,
            })
            &&& forall|other: u64|
                other != id ==> (#[trigger] next.seats.contains_key(other) <==> (
                pool.seats.contains_key(other) && pool.seats[other].owner@ != launch.owner@))
            &&& forall|other: u64|
                other != id && #[trigger] next.seats.contains_key(other) ==> next.seats[other]
                    == pool.seats[other]
            &&& forall|other: u64| #[trigger]
                next.replaced.contains_key(other) <==> (pool.replaced.contains_key(other) || (
                pool.seats.contains_key(other) && pool.seats[other].owner@ == launch.owner@))
            &&& forall|other: u64| #[trigger]
                next.replaced.contains_key(other) ==> next.replaced[other] == pool.slot_of(other)
            &&& next.launching == pool.launching.remove(id)
            &&& next.owners == pool.owners.insert(launch.owner@, id)
            &&& next.gpus == pool.gpus
            &&& next.settings == pool.settings
            &&& next.next_id == pool.next_id
        }),
{
    assert(pool.in_use(id));
}

/// A launch that fails gives its slot up and is forgotten; nothing else changes.
pub proof fn law_what_a_failure_changes<S>(pool: PoolView<S>, id: u64)
    requires
        pool.wf(),
        pool.launching.contains_key(id),
    ensures
        ({
            let next = pool.failed(id);
            &&& next.launching == pool.launching.remove(id)
            &&& next.settings == pool.settings
            &&& next.seats == pool.seats
            &&& next.owners == pool.owners
            &&& next.replaced == pool.replaced
            &&& next.next_id == pool.next_id
            &&& next.gpus.len() == pool.gpus.len()
            &&& forall|i: int|
                0 <= i < pool.gpus.len() ==> {
                    let slot = #[trigger] next.gpus[i];
                    &&& slot.node == pool.gpus[i].node
                    &&& slot.busy == (pool.gpus[i].busy && pool.launching[id].gpu_index != Some(
                        i as usize,
                    ))
                }
        }),
{
}

/// A replaced session that is torn down gives its slot up and is forgotten; nothing else
/// changes.
pub proof fn law_what_a_release_changes<S>(pool: PoolView<S>, id: u64)
    requires
        pool.wf(),
    ensures
        ({
            let next = pool.released(id);
            &&& next.replaced == pool.replaced.remove(id)
            &&& next.settings == pool.settings
            &&& next.seats == pool.seats
            &&& next.owners == pool.owners
            &&& next.launching == pool.launching
            &&& next.next_id == pool.next_id
            &&& next.gpus.len() == pool.gpus.len()
            &&& forall|i: int|
                0 <= i < pool.gpus.len() ==> {
                    let slot = #[trigger] next.gpus[i];
                    &&& slot.node == pool.gpus[i].node
                    &&& slot.busy == (pool.gpus[i].busy && !(pool.replaced.contains_key(id)
                        && pool.replaced[id] == Some(i as usize)))
                }
        }),
{
    assert(pool.released(id).replaced =~= pool.replaced.remove(id));
}

/// A seat that is removed gives its slot up, and its client has no seat any more; nothing
/// else changes.
pub proof fn law_what_a_removal_changes<S>(pool: PoolView<S>, id: u64)
    requires
        pool.wf(),
    ensures
        ({
            let next = pool.removed(id);
            &&& next.seats == pool.seats.remove(id)
            &&& next.settings == pool.settings
            &&& next.launching == pool.launching
            &&& next.replaced == pool.replaced
            &&& next.next_id == pool.next_id
            &&& forall|owner: Seq<char>| #[trigger]
                next.owners.contains_key(owner) <==> (pool.owners.contains_key(owner)
                    && pool.owners[owner] != id)
            &&& forall|owner: Seq<char>| #[trigger]
                next.owners.contains_key(owner) ==> next.owners[owner] == pool.owners[owner]
            &&& next.gpus.len() == pool.gpus.len()
            &&& forall|i: int|
                0 <= i < pool.gpus.len() ==> {
                    let slot = #[trigger] next.gpus[i];
                    &&& slot.node == pool.gpus[i].node
                    &&& slot.busy == (pool.gpus[i].busy && !(pool.seats.contains_key(id)
                        && pool.seats[id].gpu_index == Some(i as usize)))
                }
        }),
{
    assert(pool.removed(id).seats =~= pool.seats.remove(id));
}

/// A client is told of its own seat and of no other: the port and the application of the
/// seat that it owns, or nothing where it owns none.
pub proof fn law_client_is_told_of_its_own_seat<S>(pool: PoolView<S>, owner: Seq<char>)
    requires
        pool.wf(),
    ensures
        pool.info(owner) is Some <==> exists|id: u64| #[trigger]
            pool.seats.contains_key(id) && pool.seats[id].owner@ == owner,
        forall|id: u64| #[trigger]
            pool.seats.contains_key(id) && pool.seats[id].owner@ == owner ==> {
                &&& pool.seat_id(owner) == Some(id)
                &&& pool.info(owner) == Some(
                    SeatInfo {
                        rtsp_port: pool.seats[id].rtsp_port,
                        application_id: pool.seats[id].application_id,
                    },
                )
            },
{
    if pool.owners.contains_key(owner) {
        assert(pool.seats.contains_key(pool.owners[owner]));
    }
}

/// There is capacity in multi-seat mode exactly while a slot is free, and in single-seat
/// mode exactly while there is no session.
pub proof fn law_what_capacity_means<S>(pool: PoolView<S>)
    requires
        pool.wf(),
    ensures
        pool.settings.compositor.gpus.len() > 0 ==> (pool.has_free_slot() <==> exists|i: int|
            0 <= i < pool.gpus.len() && !(#[trigger] pool.gpus[i]).busy),
        pool.settings.compositor.gpus.len() == 0 ==> (pool.has_free_slot()
            <==> pool.seats.is_empty() && pool.launching.is_empty() && pool.replaced.is_empty()),
{
}

} // verus!
