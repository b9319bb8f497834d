//! What holds of a pool after any number of steps, in whatever order they come.

use vstd::prelude::*;

use crate::gpu::LookupView;
use crate::gpu::NodeView;
use crate::model::PoolView;
use crate::model::SettingsView;
use crate::pool::LaunchError;

verus! {

/// A call that changes a pool.
pub enum Step<S> {
    /// A launch is asked for.
    Launch { owner: String, application_id: i32, app_gpu: Option<LookupView> },
    /// The launch `id` has led to a seat.
    Start { id: u64, rtsp_port: u16, session: S },
    /// The launch `id` has failed.
    Fail { id: u64 },
    /// The replaced session `id` is torn down.
    Release { id: u64 },
    /// The seat `id` has ended.
    Remove { id: u64 },
}

/// The pool after one step. A launch that is refused changes nothing, and neither does a
/// step whose launch is not under way.
pub open spec fn after<S>(pool: PoolView<S>, step: Step<S>) -> PoolView<S> {
    match step {
        Step::Launch { owner, application_id, app_gpu } => match pool.reservation(app_gpu) {
            Ok(gpu_index) if crate::gpu::covers(app_gpu, pool.gpus) => pool.launched(
                gpu_index,
                owner,
                application_id,
            ),
            _ => pool,
        },
        Step::Start { id, rtsp_port, session } => if pool.launching.contains_key(id) {
            pool.committed(id, rtsp_port, session)
        } else {
            pool
        },
        Step::Fail { id } => if pool.launching.contains_key(id) {
            pool.failed(id)
        } else {
            pool
        },
        Step::Release { id } => pool.released(id),
        Step::Remove { id } => pool.removed(id),
    }
}

/// The pool after all of `steps`.
pub open spec fn after_all<S>(pool: PoolView<S>, steps: Seq<Step<S>>) -> PoolView<S>
    decreases steps.len(),
{
    if steps.len() == 0 {
        pool
    } else {
        after(after_all(pool, steps.drop_last()), steps.last())
    }
}

/// Whether the slots of a pool stand for `nodes`, one after the other.
pub open spec fn stands_for<S>(pool: PoolView<S>, nodes: Seq<NodeView>) -> bool {
    &&& pool.gpus.len() == nodes.len()
    &&& forall|i: int| 0 <= i < nodes.len() ==> (#[trigger] pool.gpus[i]).node == nodes[i].node
}

/// The invariant of a pool holds after any steps. No step changes the settings or what the
/// slots stand for, and none goes back to an earlier id.
pub proof fn law_any_steps_keep_the_invariant<S>(pool: PoolView<S>, steps: Seq<Step<S>>)
    requires
        pool.wf(),
        pool.next_id + steps.len() <= u64::MAX,
    ensures
        after_all(pool, steps).wf(),
        after_all(pool, steps).settings == pool.settings,
        after_all(pool, steps).gpus.len() == pool.gpus.len(),
        forall|i: int|
            0 <= i < pool.gpus.len() ==> (#[trigger] after_all(pool, steps).gpus[i]).node
                == pool.gpus[i].node,
        pool.next_id <= after_all(pool, steps).next_id <= pool.next_id + steps.len(),
    decreases steps.len(),
{
    if steps.len() > 0 {
        let before = after_all(pool, steps.drop_last());
        law_any_steps_keep_the_invariant(pool, steps.drop_last());
        match steps.last() {
            Step::Launch { owner, application_id, app_gpu } => {
                if crate::gpu::covers(app_gpu, before.gpus) {
                    before.lemma_reservation(app_gpu);
                    if let Ok(gpu_index) = before.reservation(app_gpu) {
                        before.lemma_launched_wf(gpu_index, owner, application_id);
                    }
                }
            },
            Step::Start { id, rtsp_port, session } => {
                if before.launching.contains_key(id) {
                    before.lemma_committed_wf(id, rtsp_port, session);
                }
            },
            Step::Fail { id } => {
                if before.launching.contains_key(id) {
                    before.lemma_failed_wf(id);
                }
            },
            Step::Release { id } => before.lemma_released_wf(id),
            Step::Remove { id } => before.lemma_removed_wf(id),
        }
    }
}

/// Each session has hardware of its own: in a multi-seat pool, after any steps since it was
/// made, two sessions own slots whose nodes are different GPUs.
pub proof fn law_sessions_have_distinct_hardware<S>(
    settings: SettingsView,
    nodes: Seq<NodeView>,
    steps: Seq<Step<S>>,
    a: u64,
    b: u64,
)
    requires
        settings.compositor.gpus.len() == nodes.len(),
        0 < nodes.len() <= usize::MAX,
        1 + steps.len() <= u64::MAX,
        after_all(PoolView::fresh(settings, nodes), steps).in_use(a),
        after_all(PoolView::fresh(settings, nodes), steps).in_use(b),
        a != b,
    ensures
        ({
            let pool = after_all(PoolView::fresh(settings, nodes), steps);
            let gpus = crate::gpu::distinct(nodes);
            &&& stands_for(pool, gpus)
            &&& pool.slot_of(a) matches Some(i) && i < gpus.len()
            &&& pool.slot_of(b) matches Some(j) && j < gpus.len()
            &&& gpus[pool.slot_of(a)->0 as int].canonical != gpus[pool.slot_of(
                b,
            )->0 as int].canonical
        }),
{
    let fresh = PoolView::<S>::fresh(settings, nodes);
    let pool = after_all(fresh, steps);
    PoolView::<S>::lemma_fresh_wf(settings, nodes);
    law_any_steps_keep_the_invariant(fresh, steps);
    crate::laws::law_sessions_have_distinct_gpus(pool, a, b);
    let i = pool.slot_of(a)->0 as int;
    let j = pool.slot_of(b)->0 as int;
    if i < j {
        crate::gpu::law_slots_are_distinct(nodes, i, j);
    } else {
        crate::gpu::law_slots_are_distinct(nodes, j, i);
    }
}

/// No id is used twice: a launch that comes after another one, with any steps between the
/// two, gets a greater id.
pub proof fn law_later_launch_has_greater_id<S>(
    pool: PoolView<S>,
    gpu_index: Option<usize>,
    owner: String,
    application_id: i32,
    steps: Seq<Step<S>>,
    later_gpu_index: Option<usize>,
    later_owner: Seq<char>,
)
    requires
        pool.wf(),
        pool.available(gpu_index),
        pool.next_id + 1 + steps.len() <= u64::MAX,
    ensures
        after_all(pool.launched(gpu_index, owner, application_id), steps).plan(
            later_gpu_index,
            later_owner,
        ).id > pool.plan(gpu_index, owner@).id,
{
    pool.lemma_launched_wf(gpu_index, owner, application_id);
    law_any_steps_keep_the_invariant(pool.launched(gpu_index, owner, application_id), steps);
}

/// One launch without a constraint for each of `clients`, in a row: a client's identity and
/// the application that it asks for.
pub open spec fn launches<S>(clients: Seq<(String, i32)>) -> Seq<Step<S>> {
    clients.map_values(
        |client: (String, i32)|
            Step::Launch { owner: client.0, application_id: client.1, app_gpu: None },
    )
}

/// Launches in a row fill an idle multi-seat pool slot by slot: of N + 1 of them, N being
/// the number of slots, the first N get the slots 0 to N - 1 in this order, and the last is
/// refused, all slots being busy.
pub proof fn law_launches_in_a_row_fill_the_pool<S>(
    pool: PoolView<S>,
    clients: Seq<(String, i32)>,
)
    requires
        pool.wf(),
        pool.multi_seat(),
        forall|i: int| 0 <= i < pool.gpus.len() ==> !(#[trigger] pool.gpus[i]).busy,
        clients.len() == pool.gpus.len() + 1,
    ensures
        forall|k: int|
            0 <= k < pool.gpus.len() ==> (#[trigger] after_all(
                pool,
                launches(clients.take(k)),
            )).reservation(None) == Ok::<Option<usize>, LaunchError>(Some(k as usize)),
        ({
            let full = after_all(pool, launches(clients.drop_last()));
            &&& full.reservation(None) == Err::<Option<usize>, LaunchError>(
                LaunchError::NoGpuAvailable,
            )
            &&& !full.has_free_slot()
            &&& full.gpus.len() == pool.gpus.len()
            &&& forall|i: int| 0 <= i < full.gpus.len() ==> (#[trigger] full.gpus[i]).busy
            &&& after_all(pool, launches(clients)) == full
        }),
{
    let n = pool.gpus.len() as int;
    assert forall|k: int| 0 <= k < n implies (#[trigger] after_all(
        pool,
        launches(clients.take(k)),
    )).reservation(None) == Ok::<Option<usize>, LaunchError>(Some(k as usize)) by {
        lemma_launches_in_a_row(pool, clients.take(k));
    }
    assert(clients.drop_last() =~= clients.take(n));
    lemma_launches_in_a_row(pool, clients.take(n));
    assert(launches::<S>(clients).drop_last() =~= launches::<S>(clients.drop_last()));
}

/// After some launches in a row that many slots from the start are busy, and the next
/// launch gets the first of the others.
proof fn lemma_launches_in_a_row<S>(pool: PoolView<S>, clients: Seq<(String, i32)>)
    requires
        pool.wf(),
        pool.multi_seat(),
        forall|i: int| 0 <= i < pool.gpus.len() ==> !(#[trigger] pool.gpus[i]).busy,
        clients.len() <= pool.gpus.len(),
    ensures
        ({
            let filled = after_all(pool, launches(clients));
            &&& filled.settings == pool.settings
            &&& filled.gpus.len() == pool.gpus.len()
            &&& forall|i: int|
                0 <= i < pool.gpus.len() ==> ((#[trigger] filled.gpus[i]).busy <==> i
                    < clients.len())
            &&& filled.reservation(None) == (if clients.len() < pool.gpus.len() {
                Ok(Some(clients.len() as usize))
            } else {
                Err(LaunchError::NoGpuAvailable)
            })
        }),
    decreases clients.len(),
{
    if clients.len() > 0 {
        lemma_launches_in_a_row(pool, clients.drop_last());
        assert(launches::<S>(clients).drop_last() =~= launches::<S>(clients.drop_last()));
    }
    let filled = after_all(pool, launches(clients));
    filled.lemma_first_free();
    if clients.len() < pool.gpus.len() {
        let k = clients.len() as int;
        assert(!filled.gpus[k].busy);
    }
}

} // verus!
