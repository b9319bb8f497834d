//! Concurrent multi-seat session pool.
//!
//! Hosts up to N simultaneous streaming sessions, each pinned to a distinct GPU drawn
//! from a pool and bound to OS-ephemeral ports, or one session on fixed ports.
//!
//! ## Modes
//! - Multi-seat: `compositor.gpus` non-empty. Each launch grabs a free GPU (or the
//!   app's `gpu`, treated as a hard constraint) and binds ephemeral ports.
//! - Single-seat: `compositor.gpus` empty. Capacity 1, fixed config ports, GPU
//!   resolution left to the session (honouring `compositor.gpu` and per-app `gpu`).
//!
//! A launch takes two calls: [`SessionPool::launch`] reserves a GPU and says how to
//! start the seat, and [`SessionPool::finish_launch`] records the seat that was started
//! or gives the GPU back. Of two launches of one client that overlap, the one that ends
//! last replaces the other's session, whose GPU [`SessionPool::release`] frees once that
//! session is torn down.

use std::collections::HashMap;
use vstd::hash_map::StringHashMap;
use vstd::prelude::*;

use crate::config::copy_optional;
use crate::config::copy_strings;
use crate::config::AudioStreamConfig;
use crate::config::CompositorConfig;
use crate::config::ControlStreamConfig;
use crate::config::VideoStreamConfig;
use crate::gpu::build_slots;
use crate::gpu::first_free;
use crate::gpu::position;
use crate::gpu::GpuEntry;
use crate::gpu::NodeLookup;
use crate::gpu::ResolvedNode;
use crate::model::PlanView;
use crate::model::PoolView;
use crate::model::SettingsView;
use crate::seat_home::seat_home_path;

verus! {

broadcast use vstd::std_specs::hash::group_hash_axioms;

/// Reason a launch could not be satisfied.
#[derive(Debug, Clone, Copy, PartialEq, Eq, Structural)]
pub enum LaunchError {
    /// No free GPU (pool at capacity, or the app's requested GPU is busy/unknown).
    NoGpuAvailable,
    /// The application/compositor failed to start.
    Failed,
}

/// Snapshot of a client's active seat, used for per-client `serverinfo`.
#[derive(Debug, Clone, Copy, PartialEq, Eq, Structural)]
pub struct SeatInfo {
    pub rtsp_port: u16,
    pub application_id: i32,
}

/// One active streaming seat.
pub struct Seat<S> {
    /// Slot of the GPU that the seat runs on; `None` in single-seat mode.
    pub gpu_index: Option<usize>,
    pub owner: String,
    pub application_id: i32,
    pub rtsp_port: u16,
    /// What keeps the session running, for as long as the seat is active.
    pub session: S,
}

/// A launch that is under way.
pub struct Launch {
    /// Slot of the GPU that is reserved for it; `None` in single-seat mode.
    pub gpu_index: Option<usize>,
    pub owner: String,
    pub application_id: i32,
}

/// How a launch ended.
pub struct FinishedLaunch<S> {
    /// The RTSP port of the seat that was started, or why none was.
    pub result: Result<u16, LaunchError>,
    /// The seat that the started one replaced, with its id; its session is still running.
    pub replaced: Option<(u64, Seat<S>)>,
}

/// Per-seat launch plan, made from the pool and executed without it.
pub struct SeatPlan {
    pub id: u64,
    pub gpu_index: Option<usize>,
    /// Per-seat isolated HOME (multi-seat only).
    pub seat_home: Option<String>,
    /// Shared Steam library folders to seed into a fresh seat HOME.
    pub steam_libraries: Vec<String>,
    pub compositor_config: CompositorConfig,
    pub video_config: VideoStreamConfig,
    pub audio_config: AudioStreamConfig,
    pub control_config: ControlStreamConfig,
    pub address: String,
    pub rtsp_bind_port: u16,
    pub stream_timeout: u64,
}

impl View for SeatPlan {
    type V = PlanView;

    open spec fn view(&self) -> PlanView {
        PlanView {
            id: self.id,
            gpu_index: self.gpu_index,
            seat_home: crate::config::optional_text(self.seat_home),
            steam_libraries: crate::config::texts(self.steam_libraries@),
            compositor: self.compositor_config@,
            video_port: self.video_config.port,
            audio_port: self.audio_config.port,
            control_port: self.control_config.port,
            address: self.address@,
            rtsp_bind_port: self.rtsp_bind_port,
            stream_timeout: self.stream_timeout,
        }
    }
}

/// What `String::from_utf8_lossy` of std makes of `bytes`.
pub uninterp spec fn lossy_text(bytes: Seq<u8>) -> Seq<char>;

/// `String::from_utf8_lossy` of std, as an owned string: [`lossy_text`] of the bytes,
/// which for valid UTF-8 is the text that they encode. What stands for bytes that are
/// not valid UTF-8 is left unsaid.
#[verifier::external_body]
fn to_text(bytes: &Vec<u8>) -> (r: String)
    ensures
        r@ == lossy_text(bytes@),
        vstd::utf8::valid_utf8(bytes@) ==> r@ == vstd::utf8::decode_utf8(bytes@),
{
    String::from_utf8_lossy(bytes).into_owned()
}

/// Manages all concurrent streaming sessions. `S` is what keeps a session running.
#[verifier::reject_recursive_types(S)]
pub struct SessionPool<S> {
    base_compositor: CompositorConfig,
    video_config: VideoStreamConfig,
    audio_config: AudioStreamConfig,
    control_config: ControlStreamConfig,
    address: String,
    /// Fixed RTSP port used in single-seat mode.
    rtsp_port: u16,
    stream_timeout: u64,
    /// GPU pool (multi-seat only; empty in single-seat mode).
    gpus: Vec<GpuEntry>,
    seats: HashMap<u64, Seat<S>>,
    /// Client identity (cert fingerprint) -> seat id.
    owners: StringHashMap<u64>,
    next_id: u64,
    /// Launches under way, by the id that their seat will have.
    launching: HashMap<u64, Launch>,
    /// Slots of replaced sessions that are not torn down yet, by the id of their seat.
    replaced: HashMap<u64, Option<usize>>,
}

impl<S> View for SessionPool<S> {
    type V = PoolView<S>;

    closed spec fn view(&self) -> PoolView<S> {
        PoolView {
            settings: SettingsView {
                compositor: self.base_compositor@,
                video_port: self.video_config.port,
                audio_port: self.audio_config.port,
                control_port: self.control_config.port,
                address: self.address@,
                rtsp_port: self.rtsp_port,
                stream_timeout: self.stream_timeout,
            },
            gpus: crate::gpu::slots(self.gpus@),
            seats: self.seats@,
            owners: self.owners@,
            launching: self.launching@,
            replaced: self.replaced@,
            next_id: self.next_id as int,
        }
    }
}

impl<S> SessionPool<S> {
    /// Makes a pool. `resolved` holds, for each selector of `compositor_config.gpus`, the
    /// render node that it was resolved to, or `None` where that failed.
    ///
    /// With selectors the pool has one slot for each distinct GPU; it fails where one of
    /// them could not be resolved. Without any it hosts a single seat.
    pub fn new(
        compositor_config: CompositorConfig,
        video_config: VideoStreamConfig,
        audio_config: AudioStreamConfig,
        control_config: ControlStreamConfig,
        address: String,
        rtsp_port: u16,
        stream_timeout: u64,
        resolved: &Vec<Option<ResolvedNode>>,
    ) -> (r: Result<Self, ()>)
        requires
            resolved@.len() == compositor_config.gpus@.len(),
        ensures
            r is Ok <==> forall|i: int|
                0 <= i < resolved@.len() ==> (#[trigger] resolved@[i]) is Some,
            match r {
                Ok(pool) => {
                    &&& pool@.wf()
                    &&& pool@ == PoolView::<S>::fresh(
                        SettingsView {
                            compositor: compositor_config@,
                            video_port: video_config.port,
                            audio_port: audio_config.port,
                            control_port: control_config.port,
                            address: address@,
                            rtsp_port,
                            stream_timeout,
                        },
                        crate::gpu::found(resolved@),
                    )
                    &&& pool@.settings.compositor == compositor_config@
                    &&& pool@.settings.video_port == video_config.port
                    &&& pool@.settings.audio_port == audio_config.port
                    &&& pool@.settings.control_port == control_config.port
                    &&& pool@.settings.address == address@
                    &&& pool@.settings.rtsp_port == rtsp_port
                    &&& pool@.settings.stream_timeout == stream_timeout
                },
                Err(_) => true,
            },
    {
        match build_slots(resolved) {
            Err(_) => Err(()),
            Ok(gpus) => {
                let pool = SessionPool {
                    base_compositor: compositor_config,
                    video_config,
                    audio_config,
                    control_config,
                    address,
                    rtsp_port,
                    stream_timeout,
                    gpus,
                    seats: HashMap::new(),
                    owners: StringHashMap::new(),
                    next_id: 1,
                    launching: HashMap::new(),
                    replaced: HashMap::new(),
                };
                proof {
                    assert(resolved@.len() == resolved.len());
                    PoolView::<S>::lemma_fresh_wf(pool@.settings, crate::gpu::found(resolved@));
                    assert(pool@ =~= PoolView::<S>::fresh(
                        pool@.settings,
                        crate::gpu::found(resolved@),
                    ));
                }
                Ok(pool)
            },
        }
    }

    /// Multi-seat with ephemeral ports (`compositor.gpus` non-empty).
    pub fn ephemeral(&self) -> (r: bool)
        ensures
            r == self@.multi_seat(),
            r == (self@.settings.compositor.gpus.len() > 0),
    {
        self.base_compositor.gpus.len() > 0
    }

    /// The id that the next launch gets.
    pub fn next_id(&self) -> (r: u64)
        ensures
            r == self@.next_id,
    {
        self.next_id
    }

    /// The slots of the pool, in order.
    pub fn gpus(&self) -> (r: &Vec<GpuEntry>)
        ensures
            crate::gpu::slots(r@) == self@.gpus,
    {
        &self.gpus
    }

    /// Whether there is no session.
    fn is_idle(&self) -> (r: bool)
        ensures
            r == self@.idle(),
    {
        self.seats.is_empty() && self.launching.is_empty() && self.replaced.is_empty()
    }

    /// Whether a new session can currently be launched.
    pub fn has_free_slot(&self) -> (r: bool)
        ensures
            r == self@.has_free_slot(),
    {
        if self.ephemeral() {
            let free = first_free(&self.gpus);
            proof {
                self@.lemma_first_free();
            }
            free.is_some()
        } else {
            self.is_idle()
        }
    }

    /// Whether the pool can currently accept a new session.
    pub fn has_capacity(&self) -> (r: bool)
        ensures
            r == self@.has_free_slot(),
    {
        self.has_free_slot()
    }

    /// The GPU selector that is to be looked up before a launch: the app's own, which
    /// counts in multi-seat mode only.
    pub fn gpu_selector<'a>(&self, app_gpu: &'a Option<String>) -> (r: Option<&'a String>)
        ensures
            r == (match *app_gpu {
                Some(selector) if self@.multi_seat() => Some(&selector),
                _ => None,
            }),
    {
        if self.ephemeral() {
            app_gpu.as_ref()
        } else {
            None
        }
    }

    /// Reserve a GPU for a new session, honouring an optional per-app hard
    /// constraint. Returns the reserved GPU index (None in single-seat mode).
    fn reserve_gpu(&mut self, app_gpu: &Option<NodeLookup>) -> (r: Result<
        Option<usize>,
        LaunchError,
    >)
        requires
            old(self)@.wf(),
            crate::gpu::covers(crate::gpu::lookup_view(*app_gpu), old(self)@.gpus),
        ensures
            r == old(self)@.reservation(crate::gpu::lookup_view(*app_gpu)),
            match r {
                Ok(gpu_index) => final(self)@ == (PoolView {
                    gpus: crate::model::marked(old(self)@.gpus, gpu_index, true),
                    ..old(self)@
                }),
                Err(_) => final(self)@ == old(self)@,
            },
    {
        if !self.ephemeral() {
            // Single-seat: capacity 1; GPU pinning handled by the session itself.
            return if self.is_idle() {
                Ok(None)
            } else {
                Err(LaunchError::NoGpuAvailable)
            };
        }
        let slot = match app_gpu {
            // Hard constraint: the app must run on this specific GPU.
            Some(lookup) => match &lookup.want {
                Some(want) => match position(&lookup.nodes, want) {
                    Some(i) => if self.gpus[i].busy {
                        None
                    } else {
                        Some(i)
                    },
                    None => None,
                },
                None => None,
            },
            None => first_free(&self.gpus),
        };
        match slot {
            Some(i) => {
                self.mark(Some(i), true);
                Ok(Some(i))
            },
            None => Err(LaunchError::NoGpuAvailable),
        }
    }

    /// Notes whether the slot is owned by a session.
    fn mark(&mut self, gpu_index: Option<usize>, busy: bool)
        ensures
            final(self)@ == (PoolView {
                gpus: crate::model::marked(old(self)@.gpus, gpu_index, busy),
                ..old(self)@
            }),
    {
        match gpu_index {
            Some(i) => if i < self.gpus.len() {
                self.gpus[i].busy = busy;
                assert(self@.gpus =~= crate::model::marked(old(self)@.gpus, gpu_index, busy));
            },
            None => {},
        }
    }

    /// Reserves a GPU and an id for a new session of `owner` that runs the application, and
    /// says how to start it.
    ///
    /// `app_gpu` is where the selector of [`SessionPool::gpu_selector`] leads, if there is
    /// one. On failure nothing changes. On success the launch is under way until
    /// [`SessionPool::finish_launch`] is told how it went.
    pub fn launch(
        &mut self,
        owner: String,
        application_id: i32,
        app_gpu: &Option<NodeLookup>,
    ) -> (r: Result<SeatPlan, LaunchError>)
        requires
            old(self)@.wf(),
            old(self)@.next_id < u64::MAX,
            crate::gpu::covers(crate::gpu::lookup_view(*app_gpu), old(self)@.gpus),
        ensures
            final(self)@.wf(),
            match old(self)@.reservation(crate::gpu::lookup_view(*app_gpu)) {
                Ok(gpu_index) => {
                    &&& r matches Ok(plan)
                    &&& plan@ == old(self)@.plan(gpu_index, owner@)
                    &&& final(self)@ == old(self)@.launched(gpu_index, owner, application_id)
                    &&& gpu_index matches Some(i) ==> {
                        let node = old(self)@.gpus[i as int].node;
                        vstd::utf8::valid_utf8(node) ==> plan@.compositor.gpu == Some(
                            vstd::utf8::decode_utf8(node),
                        )
                    }
                },
                Err(e) => r == Err::<SeatPlan, LaunchError>(e) && final(self)@ == old(self)@,
            },
            r matches Ok(plan) ==> {
                let settings = old(self)@.settings;
                let multi_seat = settings.compositor.gpus.len() > 0;
                &&& plan.id == old(self)@.next_id
                &&& plan.address@ == settings.address
                &&& plan.stream_timeout == settings.stream_timeout
                &&& plan.gpu_index is Some <==> multi_seat
                &&& plan.seat_home is Some <==> multi_seat
                    && settings.compositor.seat_home_template is Some
                &&& plan.video_config.port == if multi_seat { 0 } else { settings.video_port }
                &&& plan.audio_config.port == if multi_seat { 0 } else { settings.audio_port }
                &&& plan.control_config.port == if multi_seat { 0 } else { settings.control_port }
                &&& plan.rtsp_bind_port == if multi_seat { 0 } else { settings.rtsp_port }
            },
            r matches Ok(plan) ==> (plan.gpu_index matches Some(i) ==> {
                &&& i < old(self)@.gpus.len()
                &&& !old(self)@.gpus[i as int].busy
                &&& app_gpu is None ==> forall|j: int|
                    0 <= j < i ==> (#[trigger] old(self)@.gpus[j]).busy
                &&& *app_gpu matches Some(lookup) ==> (lookup.want matches Some(want) && want@
                    == lookup.nodes@[i as int]@)
            }),
    {
        let gpu_index = match self.reserve_gpu(app_gpu) {
            Ok(gpu_index) => gpu_index,
            Err(e) => {
                return Err(e);
            },
        };
        proof {
            old(self)@.lemma_reservation(crate::gpu::lookup_view(*app_gpu));
            old(self)@.lemma_first_free();
            if let Some(lookup) = crate::gpu::lookup_view(*app_gpu) {
                if let Some(want) = lookup.want {
                    lookup.nodes.index_of_first_ensures(want);
                }
            }
            old(self)@.lemma_launched_wf(gpu_index, owner, application_id);
        }
        let id = self.next_id;
        self.next_id = self.next_id + 1;
        // Per-seat isolated HOME (multi-seat only). `{owner}` keeps a client's
        // profile persistent across whatever GPU is free; `{seat}` ties it to
        // the GPU slot instead.
        let ephemeral = self.ephemeral();
        let seat_home = match &self.base_compositor.seat_home_template {
            Some(template) => if ephemeral {
                Some(seat_home_path(template.as_str(), gpu_index, owner.as_str()))
            } else {
                None
            },
            None => None,
        };
        // Only relevant alongside a per-seat HOME.
        let steam_libraries = if seat_home.is_some() {
            copy_strings(&self.base_compositor.seat_steam_libraries)
        } else {
            Vec::new()
        };
        // Pin both compositor and encoder to the reserved GPU.
        let gpu = match gpu_index {
            Some(i) => Some(to_text(&self.gpus[i].node)),
            None => copy_optional(&self.base_compositor.gpu),
        };
        let compositor_config = CompositorConfig {
            gpus: Vec::new(),
            gpu,
            seat_home_template: copy_optional(&self.base_compositor.seat_home_template),
            seat_steam_libraries: copy_strings(&self.base_compositor.seat_steam_libraries),
        };
        let plan = SeatPlan {
            id,
            gpu_index,
            seat_home,
            steam_libraries,
            compositor_config,
            video_config: if ephemeral {
                VideoStreamConfig { port: 0 }
            } else {
                self.video_config
            },
            audio_config: if ephemeral {
                AudioStreamConfig { port: 0 }
            } else {
                self.audio_config
            },
            control_config: if ephemeral {
                ControlStreamConfig { port: 0 }
            } else {
                self.control_config
            },
            address: self.address.clone(),
            rtsp_bind_port: if ephemeral {
                0
            } else {
                self.rtsp_port
            },
            stream_timeout: self.stream_timeout,
        };
        proof {
            if let Some(i) = gpu_index {
                assert(self@.gpus[i as int] == self.gpus@[i as int]@);
            }
        }
        assert(plan@ =~~= old(self)@.plan(gpu_index, owner@));
        self.launching.insert(id, Launch { gpu_index, owner, application_id });
        assert(self@ =~~= old(self)@.launched(gpu_index, owner, application_id));
        Ok(plan)
    }

    /// Whether the launch `id` is under way.
    pub fn is_launching(&self, id: u64) -> (r: bool)
        ensures
            r == self@.launching.contains_key(id),
    {
        self.launching.contains_key(&id)
    }

    /// Ends the launch `id`: records the seat that was started and returns its RTSP port, or
    /// releases the reserved GPU and passes the failure on.
    ///
    /// Where the client got a seat in the meantime, by a launch that overlapped with this
    /// one, that seat is replaced and handed out. The caller stops its session first and
    /// then gives its GPU up with [`SessionPool::release`].
    pub fn finish_launch(
        &mut self,
        id: u64,
        outcome: Result<(S, u16), LaunchError>,
    ) -> (r: FinishedLaunch<S>)
        requires
            old(self)@.wf(),
            old(self)@.launching.contains_key(id),
        ensures
            final(self)@.wf(),
            match outcome {
                Ok((session, rtsp_port)) => {
                    &&& r.result == Ok::<u16, LaunchError>(rtsp_port)
                    &&& r.replaced == (match old(self)@.seat_id(old(self)@.launching[id].owner@) {
                        Some(other) => Some((other, old(self)@.seats[other])),
                        None => None,
                    })
                    &&& final(self)@ == old(self)@.committed(id, rtsp_port, session)
                },
                Err(e) => {
                    &&& r.result == Err::<u16, LaunchError>(e)
                    &&& r.replaced is None
                    &&& final(self)@ == old(self)@.failed(id)
                },
            },
    {
        let launch = match self.launching.remove(&id) {
            Some(launch) => launch,
            None => {
                return FinishedLaunch { result: Err(LaunchError::Failed), replaced: None };
            },
        };
        match outcome {
            Ok((session, rtsp_port)) => {
                proof {
                    old(self)@.lemma_committed_wf(id, rtsp_port, session);
                }
                let mapped: Option<u64> = match self.owners.get(launch.owner.as_str()) {
                    Some(other) => Some(*other),
                    None => None,
                };
                let replaced = match mapped {
                    Some(other) => match self.seats.remove(&other) {
                        Some(seat) => {
                            self.replaced.insert(other, seat.gpu_index);
                            Some((other, seat))
                        },
                        None => None,
                    },
                    None => None,
                };
                let seat = Seat {
                    gpu_index: launch.gpu_index,
                    owner: launch.owner.clone(),
                    application_id: launch.application_id,
                    rtsp_port,
                    session,
                };
                self.seats.insert(id, seat);
                self.owners.insert(launch.owner, id);
                assert(self@ =~= old(self)@.committed(id, rtsp_port, session));
                FinishedLaunch { result: Ok(rtsp_port), replaced }
            },
            Err(e) => {
                proof {
                    old(self)@.lemma_failed_wf(id);
                }
                self.mark(launch.gpu_index, false);
                assert(self@ =~= old(self)@.failed(id));
                FinishedLaunch { result: Err(e), replaced: None }
            },
        }
    }

    /// Frees the GPU of a replaced session that has been torn down. Does nothing where `id`
    /// is no such session.
    pub fn release(&mut self, id: u64)
        requires
            old(self)@.wf(),
        ensures
            final(self)@.wf(),
            final(self)@ == old(self)@.released(id),
    {
        proof {
            old(self)@.lemma_released_wf(id);
        }
        match self.replaced.remove(&id) {
            Some(gpu_index) => {
                self.mark(gpu_index, false);
            },
            None => {},
        }
        assert(self@ =~= old(self)@.released(id));
    }

    /// The active seat of `owner`, if any, that is to be stopped: its id and its session.
    ///
    /// The caller stops that session first and then takes the seat out with
    /// [`SessionPool::remove_seat`].
    pub fn stop_owner(&self, owner: &str) -> (r: Option<(u64, &S)>)
        requires
            self@.wf(),
        ensures
            r == (match self@.seat_id(owner@) {
                Some(id) => Some((id, &self@.seats[id].session)),
                None => None,
            }),
    {
        match self.owners.get(owner) {
            Some(id) => match self.seats.get(id) {
                Some(seat) => Some((*id, &seat.session)),
                None => None,
            },
            None => None,
        }
    }

    /// The session of `owner`'s active seat, whose keys a reconnecting client refreshes,
    /// and the seat's RTSP port.
    pub fn resume(&self, owner: &str) -> (r: Result<(&S, u16), ()>)
        requires
            self@.wf(),
        ensures
            r == (match self@.seat_id(owner@) {
                Some(id) => Ok((&self@.seats[id].session, self@.seats[id].rtsp_port)),
                None => Err(()),
            }),
    {
        match self.owners.get(owner) {
            Some(id) => match self.seats.get(id) {
                Some(seat) => Ok((&seat.session, seat.rtsp_port)),
                None => Err(()),
            },
            None => Err(()),
        }
    }

    /// The active seat owned by `owner`, for per-client `serverinfo`.
    pub fn seat_info(&self, owner: &str) -> (r: Option<SeatInfo>)
        requires
            self@.wf(),
        ensures
            r == self@.info(owner@),
    {
        match self.owners.get(owner) {
            Some(id) => match self.seats.get(id) {
                Some(seat) => Some(
                    SeatInfo { rtsp_port: seat.rtsp_port, application_id: seat.application_id },
                ),
                None => None,
            },
            None => None,
        }
    }

    /// Removes a seat and frees its GPU + owner mapping. Idempotent: safe to call
    /// from both the end-monitor and an explicit stop. Hands the seat out, to be dropped.
    pub fn remove_seat(&mut self, id: u64) -> (r: Option<Seat<S>>)
        requires
            old(self)@.wf(),
        ensures
            final(self)@.wf(),
            final(self)@ == old(self)@.removed(id),
            r == (if old(self)@.seats.contains_key(id) {
                Some(old(self)@.seats[id])
            } else {
                None
            }),
    {
        proof {
            old(self)@.lemma_removed_wf(id);
        }
        let seat = self.seats.remove(&id);
        match &seat {
            Some(seat) => {
                self.mark(seat.gpu_index, false);
                self.owners.remove(seat.owner.as_str());
            },
            None => {},
        }
        assert(self@ =~= old(self)@.removed(id));
        seat
    }
}

/// What a reconnecting client is answered, given its seat's RTSP port and whether the
/// session took the new keys.
pub fn finish_resume(rtsp_port: u16, keys_updated: Result<(), ()>) -> (r: Result<u16, ()>)
    ensures
        r == (match keys_updated {
            Ok(()) => Ok(rtsp_port),
            Err(()) => Err(()),
        }),
{
    match keys_updated {
        Ok(()) => Ok(rtsp_port),
        Err(()) => Err(()),
    }
}

} // verus!
