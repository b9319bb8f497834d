//! The pool as a mathematical state, and the steps that change it.

use vstd::prelude::*;

use crate::config::CompositorView;
use crate::gpu::GpuView;
use crate::gpu::LookupView;
use crate::gpu::NodeView;
use crate::pool::Launch;
use crate::pool::LaunchError;
use crate::pool::Seat;
use crate::pool::SeatInfo;

verus! {

/// The settings that a pool was made with.
#[verifier::ext_equal]
pub struct SettingsView {
    pub compositor: CompositorView,
    pub video_port: u16,
    pub audio_port: u16,
    pub control_port: u16,
    pub address: Seq<char>,
    pub rtsp_port: u16,
    pub stream_timeout: u64,
}

/// What a seat is to be started with.
#[verifier::ext_equal]
pub struct PlanView {
    pub id: u64,
    pub gpu_index: Option<usize>,
    pub seat_home: Option<Seq<char>>,
    pub steam_libraries: Seq<Seq<char>>,
    pub compositor: CompositorView,
    pub video_port: u16,
    pub audio_port: u16,
    pub control_port: u16,
    pub address: Seq<char>,
    pub rtsp_bind_port: u16,
    pub stream_timeout: u64,
}

/// The state of a pool.
#[verifier::ext_equal]
#[verifier::reject_recursive_types(S)]
pub struct PoolView<S> {
    pub settings: SettingsView,
    /// GPU slots; none in single-seat mode.
    pub gpus: Seq<GpuView>,
    /// Active seats by id.
    pub seats: Map<u64, Seat<S>>,
    /// Client identity (cert fingerprint) -> seat id.
    pub owners: Map<Seq<char>, u64>,
    /// Launches under way, by the id that their seat will have.
    pub launching: Map<u64, Launch>,
    /// Slots of replaced sessions that are not torn down yet, by the id of their seat.
    pub replaced: Map<u64, Option<usize>>,
    /// The id that the next launch gets.
    pub next_id: int,
}

/// The slots once the one at `gpu_index` is owned, or no longer owned.
pub open spec fn marked(gpus: Seq<GpuView>, gpu_index: Option<usize>, busy: bool) -> Seq<GpuView> {
    match gpu_index {
        Some(i) => if i < gpus.len() {
            gpus.update(i as int, GpuView { node: gpus[i as int].node, busy })
        } else {
            gpus
        },
        None => gpus,
    }
}

impl<S> PoolView<S> {
    /// Whether seats run concurrently, each on a GPU of the pool and on ephemeral ports.
    pub open spec fn multi_seat(self) -> bool {
        self.settings.compositor.gpus.len() > 0
    }

    /// A pool that was just made, with a free slot for each GPU that `nodes` name.
    pub open spec fn fresh(settings: SettingsView, nodes: Seq<NodeView>) -> Self {
        PoolView {
            settings,
            gpus: crate::gpu::free_slots(crate::gpu::distinct(nodes)),
            seats: Map::empty(),
            owners: Map::empty(),
            launching: Map::empty(),
            replaced: Map::empty(),
            next_id: 1,
        }
    }

    /// Whether `id` is a session: an active seat, a launch under way, or a replaced session
    /// that is not torn down yet.
    pub open spec fn in_use(self, id: u64) -> bool {
        self.seats.contains_key(id) || self.launching.contains_key(id)
            || self.replaced.contains_key(id)
    }

    /// The slot of a session.
    pub open spec fn slot_of(self, id: u64) -> Option<usize> {
        if self.seats.contains_key(id) {
            self.seats[id].gpu_index
        } else if self.launching.contains_key(id) {
            self.launching[id].gpu_index
        } else {
            self.replaced[id]
        }
    }

    /// Whether the session `id` owns slot `i`.
    pub open spec fn holds(self, id: u64, i: usize) -> bool {
        self.in_use(id) && self.slot_of(id) == Some(i)
    }

    /// The invariant of a pool: ids in use were handed out before, and each is of one kind
    /// of session; in multi-seat mode each session owns a slot of its own, and a slot is
    /// busy exactly where one of them owns it; in single-seat mode there is at most one
    /// session; and each client that has a seat is mapped to it, so that none has two.
    pub open spec fn wf(self) -> bool {
        &&& self.seats.dom().finite()
        &&& self.launching.dom().finite()
        &&& self.replaced.dom().finite()
        &&& self.multi_seat() <==> self.gpus.len() > 0
        &&& self.gpus.len() <= usize::MAX
        &&& 0 <= self.next_id
        &&& forall|id: u64| #[trigger] self.in_use(id) ==> id < self.next_id
        &&& forall|id: u64| #[trigger]
            self.launching.contains_key(id) ==> !self.seats.contains_key(id)
                && !self.replaced.contains_key(id)
        &&& forall|id: u64| #[trigger]
            self.replaced.contains_key(id) ==> !self.seats.contains_key(id)
                && !self.launching.contains_key(id)
        &&& forall|id: u64| #[trigger]
            self.in_use(id) ==> match self.slot_of(id) {
                Some(i) => self.multi_seat() && i < self.gpus.len(),
                None => !self.multi_seat(),
            }
        &&& forall|a: u64, b: u64, i: usize|
            #![trigger self.holds(a, i), self.holds(b, i)]
            self.holds(a, i) && self.holds(b, i) ==> a == b
        &&& forall|i: usize|
            i < self.gpus.len() ==> ((#[trigger] self.gpus[i as int]).busy <==> exists|id: u64|
                self.holds(id, i))
        &&& forall|owner: Seq<char>| #[trigger]
            self.owners.contains_key(owner) ==> {
                &&& self.seats.contains_key(self.owners[owner])
                &&& self.seats[self.owners[owner]].owner@ == owner
            }
        &&& forall|id: u64| #[trigger]
            self.seats.contains_key(id) ==> self.seat_id(self.seats[id].owner@) == Some(id)
        &&& !self.multi_seat() ==> forall|a: u64, b: u64| #[trigger]
            self.in_use(a) && #[trigger] self.in_use(b) ==> a == b
    }

    /// Whether a new session can be launched.
    pub open spec fn has_free_slot(self) -> bool {
        if self.multi_seat() {
            exists|i: int| 0 <= i < self.gpus.len() && !(#[trigger] self.gpus[i]).busy
        } else {
            self.idle()
        }
    }

    /// Whether there is no session.
    pub open spec fn idle(self) -> bool {
        self.seats.is_empty() && self.launching.is_empty() && self.replaced.is_empty()
    }

    /// Which slot a launch gets. Without a constraint, the first that is free; with one,
    /// the first that is the wanted GPU, and none where that one is busy, not part of the
    /// pool or unknown. In single-seat mode no slot, and only while there is no other session.
    pub open spec fn reservation(self, app_gpu: Option<LookupView>) -> Result<
        Option<usize>,
        LaunchError,
    > {
        if !self.multi_seat() {
            if self.idle() {
                Ok(None)
            } else {
                Err(LaunchError::NoGpuAvailable)
            }
        } else {
            match app_gpu {
                None => match crate::gpu::busy_flags(self.gpus).index_of_first(false) {
                    Some(i) => Ok(Some(i as usize)),
                    None => Err(LaunchError::NoGpuAvailable),
                },
                Some(lookup) => match lookup.want {
                    None => Err(LaunchError::NoGpuAvailable),
                    Some(want) => match lookup.nodes.index_of_first(want) {
                        Some(i) => if !self.gpus[i].busy {
                            Ok(Some(i as usize))
                        } else {
                            Err(LaunchError::NoGpuAvailable)
                        },
                        None => Err(LaunchError::NoGpuAvailable),
                    },
                },
            }
        }
    }

    /// How the next seat is to be started for `owner` on the slot `gpu_index`: pinned to
    /// that slot's GPU, on ports that the OS picks in multi-seat mode and on the
    /// configured ones otherwise, and with a HOME of its own where a template is set.
    pub open spec fn plan(self, gpu_index: Option<usize>, owner: Seq<char>) -> PlanView {
        let seat_home = match self.settings.compositor.seat_home_template {
            Some(template) if self.multi_seat() => Some(
                crate::seat_home::home(template, gpu_index, owner),
            ),
            _ => None,
        };
        PlanView {
            id: self.next_id as u64,
            gpu_index,
            seat_home,
            steam_libraries: if seat_home is Some {
                self.settings.compositor.seat_steam_libraries
            } else {
                Seq::empty()
            },
            compositor: CompositorView {
                gpus: Seq::empty(),
                gpu: match gpu_index {
                    Some(i) => Some(crate::pool::lossy_text(self.gpus[i as int].node)),
                    None => self.settings.compositor.gpu,
                },
                ..self.settings.compositor
            },
            video_port: if self.multi_seat() { 0 } else { self.settings.video_port },
            audio_port: if self.multi_seat() { 0 } else { self.settings.audio_port },
            control_port: if self.multi_seat() { 0 } else { self.settings.control_port },
            address: self.settings.address,
            rtsp_bind_port: if self.multi_seat() { 0 } else { self.settings.rtsp_port },
            stream_timeout: self.settings.stream_timeout,
        }
    }

    /// The pool once a launch of the application for `owner` is under way on the slot
    /// `gpu_index`.
    pub open spec fn launched(
        self,
        gpu_index: Option<usize>,
        owner: String,
        application_id: i32,
    ) -> Self {
        PoolView {
            gpus: marked(self.gpus, gpu_index, true),
            launching: self.launching.insert(
                self.next_id as u64,
                Launch { gpu_index, owner, application_id },
            ),
            next_id: self.next_id + 1,
            ..self
        }
    }

    /// The seat that the launch `id` leads to: on the slot that it reserved, and of the
    /// client and the application that it was made for.
    pub open spec fn started(self, id: u64, rtsp_port: u16, session: S) -> Seat<S> {
        Seat {
            gpu_index: self.launching[id].gpu_index,
            owner: self.launching[id].owner,
            application_id: self.launching[id].application_id,
            rtsp_port,
            session,
        }
    }

    /// The pool once the launch `id` has led to a seat. A seat that its client has from
    /// before is replaced: no longer a seat, it keeps its slot until it is torn down.
    pub open spec fn committed(self, id: u64, rtsp_port: u16, session: S) -> Self {
        let seat = self.started(id, rtsp_port, session);
        match self.seat_id(seat.owner@) {
            Some(other) => PoolView {
                seats: self.seats.remove(other).insert(id, seat),
                owners: self.owners.insert(seat.owner@, id),
                launching: self.launching.remove(id),
                replaced: self.replaced.insert(other, self.seats[other].gpu_index),
                ..self
            },
            None => PoolView {
                seats: self.seats.insert(id, seat),
                owners: self.owners.insert(seat.owner@, id),
                launching: self.launching.remove(id),
                ..self
            },
        }
    }

    /// The pool once the launch `id` has failed.
    pub open spec fn failed(self, id: u64) -> Self {
        PoolView {
            gpus: marked(self.gpus, self.launching[id].gpu_index, false),
            launching: self.launching.remove(id),
            ..self
        }
    }

    /// The pool once the replaced session `id` is torn down.
    pub open spec fn released(self, id: u64) -> Self {
        if self.replaced.contains_key(id) {
            PoolView {
                gpus: marked(self.gpus, self.replaced[id], false),
                replaced: self.replaced.remove(id),
                ..self
            }
        } else {
            self
        }
    }

    /// The pool once the seat `id` is gone, and with it the mapping of its client to it.
    pub open spec fn removed(self, id: u64) -> Self {
        if self.seats.contains_key(id) {
            PoolView {
                gpus: marked(self.gpus, self.seats[id].gpu_index, false),
                seats: self.seats.remove(id),
                owners: if self.seat_id(self.seats[id].owner@) == Some(id) {
                    self.owners.remove(self.seats[id].owner@)
                } else {
                    self.owners
                },
                ..self
            }
        } else {
            self
        }
    }

    /// The seat id that `owner` is mapped to.
    pub open spec fn seat_id(self, owner: Seq<char>) -> Option<u64> {
        if self.owners.contains_key(owner) {
            Some(self.owners[owner])
        } else {
            None
        }
    }

    /// The first free slot exists exactly where some slot is free.
    pub proof fn lemma_first_free(self)
        ensures
            match crate::gpu::busy_flags(self.gpus).index_of_first(false) {
                Some(i) => 0 <= i < self.gpus.len() && !self.gpus[i].busy && forall|j: int|
                    0 <= j < i ==> (#[trigger] self.gpus[j]).busy,
                None => forall|j: int| 0 <= j < self.gpus.len() ==> (#[trigger] self.gpus[j]).busy,
            },
    {
        let flags = crate::gpu::busy_flags(self.gpus);
        flags.index_of_first_ensures(false);
        assert forall|j: int| 0 <= j < self.gpus.len() implies flags[j] == (
        #[trigger] self.gpus[j]).busy by {}
        if flags.index_of_first(false) is None {
            assert forall|j: int| 0 <= j < self.gpus.len() implies (
            #[trigger] self.gpus[j]).busy by {
                if !self.gpus[j].busy {
                    assert(flags[j] == false);
                }
            }
        }
    }

    /// What is told of the active seat of `owner`.
    pub open spec fn info(self, owner: Seq<char>) -> Option<SeatInfo> {
        match self.seat_id(owner) {
            Some(id) => Some(
                SeatInfo {
                    rtsp_port: self.seats[id].rtsp_port,
                    application_id: self.seats[id].application_id,
                },
            ),
            None => None,
        }
    }

    /// Whether `gpu_index` is what a launch may be given: a free slot in multi-seat mode,
    /// none otherwise.
    pub open spec fn available(self, gpu_index: Option<usize>) -> bool {
        match gpu_index {
            Some(i) => self.multi_seat() && i < self.gpus.len() && !self.gpus[i as int].busy,
            None => !self.multi_seat() && self.idle(),
        }
    }

    /// A reservation is a free slot.
    pub proof fn lemma_reservation(self, app_gpu: Option<LookupView>)
        requires
            self.wf(),
            crate::gpu::covers(app_gpu, self.gpus),
        ensures
            self.reservation(app_gpu) matches Ok(gpu_index) ==> self.available(gpu_index),
    {
        self.lemma_first_free();
        if let Some(lookup) = app_gpu {
            if let Some(want) = lookup.want {
                lookup.nodes.index_of_first_ensures(want);
            }
        }
    }

    /// A pool that was just made meets the invariant.
    pub proof fn lemma_fresh_wf(settings: SettingsView, nodes: Seq<NodeView>)
        requires
            settings.compositor.gpus.len() == nodes.len(),
            nodes.len() <= usize::MAX,
        ensures
            Self::fresh(settings, nodes).wf(),
    {
        crate::gpu::lemma_distinct_len(nodes);
    }

    /// A launch keeps the invariant.
    pub proof fn lemma_launched_wf(
        self,
        gpu_index: Option<usize>,
        owner: String,
        application_id: i32,
    )
        requires
            self.wf(),
            self.next_id < u64::MAX,
            self.available(gpu_index),
        ensures
            self.launched(gpu_index, owner, application_id).wf(),
    {
        let next = self.launched(gpu_index, owner, application_id);
        let id = self.next_id as u64;
        assert(!self.in_use(id));
        assert forall|other: u64| other != id implies {
            &&& next.in_use(other) == self.in_use(other)
            &&& next.slot_of(other) == self.slot_of(other)
        } by {}
        assert(forall|other: u64, i: usize|
            other != id ==> next.holds(other, i) == self.holds(other, i));
        assert(forall|i: usize| next.holds(id, i) <==> gpu_index == Some(i));
        assert forall|other: u64| #[trigger] next.in_use(other) implies match next.slot_of(other) {
            Some(i) => next.multi_seat() && i < next.gpus.len(),
            None => !next.multi_seat(),
        } by {
            if other != id {
                assert(self.in_use(other));
            }
        }
        assert forall|i: usize| i < next.gpus.len() implies ((
        #[trigger] next.gpus[i as int]).busy <==> exists|other: u64| next.holds(other, i)) by {
            if gpu_index == Some(i) {
                assert(next.holds(id, i));
            } else {
                assert(next.gpus[i as int] == self.gpus[i as int]);
                if self.gpus[i as int].busy {
                    let other = choose|other: u64| self.holds(other, i);
                    assert(next.holds(other, i));
                }
            }
        }
        assert forall|a: u64, b: u64, i: usize|
            #![trigger next.holds(a, i), next.holds(b, i)]
            next.holds(a, i) && next.holds(b, i) implies a == b by {
            if a != id && b != id {
                assert(self.holds(a, i) && self.holds(b, i));
            } else if a != b {
                let other = if a == id { b } else { a };
                assert(self.holds(other, i));
                assert(self.gpus[i as int].busy);
            }
        }
    }

    /// A launch that leads to a seat keeps the invariant.
    pub proof fn lemma_committed_wf(self, id: u64, rtsp_port: u16, session: S)
        requires
            self.wf(),
            self.launching.contains_key(id),
        ensures
            self.committed(id, rtsp_port, session).wf(),
    {
        let next = self.committed(id, rtsp_port, session);
        assert(self.in_use(id));
        assert forall|other: u64| true implies {
            &&& #[trigger] next.in_use(other) == self.in_use(other)
            &&& self.in_use(other) ==> next.slot_of(other) == self.slot_of(other)
        } by {}
        assert(forall|other: u64, i: usize| next.holds(other, i) == self.holds(other, i));
    }

    /// A launch that fails keeps the invariant.
    pub proof fn lemma_failed_wf(self, id: u64)
        requires
            self.wf(),
            self.launching.contains_key(id),
        ensures
            self.failed(id).wf(),
    {
        let next = self.failed(id);
        assert(self.in_use(id));
        assert(!self.seats.contains_key(id) && !self.replaced.contains_key(id));
        assert forall|other: u64| other != id implies {
            &&& #[trigger] next.in_use(other) == self.in_use(other)
            &&& next.slot_of(other) == self.slot_of(other)
        } by {}
        assert(!next.in_use(id));
        assert(forall|other: u64, i: usize|
            other != id ==> next.holds(other, i) == self.holds(other, i));
        if let Some(k) = self.launching[id].gpu_index {
            assert(self.holds(id, k));
        }
    }

    /// Tearing a replaced session down keeps the invariant.
    pub proof fn lemma_released_wf(self, id: u64)
        requires
            self.wf(),
        ensures
            self.released(id).wf(),
    {
        if self.replaced.contains_key(id) {
            let next = self.released(id);
            assert(self.in_use(id));
            assert(!self.seats.contains_key(id) && !self.launching.contains_key(id));
            assert forall|other: u64| other != id implies {
                &&& #[trigger] next.in_use(other) == self.in_use(other)
                &&& next.slot_of(other) == self.slot_of(other)
            } by {}
            assert(!next.in_use(id));
            assert(forall|other: u64, i: usize|
                other != id ==> next.holds(other, i) == self.holds(other, i));
            if let Some(k) = self.replaced[id] {
                assert(self.holds(id, k));
            }
        }
    }

    /// Taking a seat out keeps the invariant.
    pub proof fn lemma_removed_wf(self, id: u64)
        requires
            self.wf(),
        ensures
            self.removed(id).wf(),
    {
        if self.seats.contains_key(id) {
            let next = self.removed(id);
            assert(self.in_use(id));
            assert(!self.launching.contains_key(id) && !self.replaced.contains_key(id));
            assert forall|other: u64| other != id implies {
                &&& #[trigger] next.in_use(other) == self.in_use(other)
                &&& next.slot_of(other) == self.slot_of(other)
            } by {}
            assert(!next.in_use(id));
            assert(forall|other: u64, i: usize|
                other != id ==> next.holds(other, i) == self.holds(other, i));
            if let Some(k) = self.seats[id].gpu_index {
                assert(self.holds(id, k));
            }
        }
    }
}

} // verus!
