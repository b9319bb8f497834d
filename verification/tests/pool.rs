use moonshine::config::{AudioStreamConfig, CompositorConfig, ControlStreamConfig, VideoStreamConfig};
use moonshine::gpu::{NodeLookup, ResolvedNode};
use moonshine::pool::{finish_resume, LaunchError, SeatInfo, SeatPlan, SessionPool};

fn compositor(gpus: &[&str]) -> CompositorConfig {
    CompositorConfig {
        gpus: gpus.iter().map(|g| g.to_string()).collect(),
        gpu: Some("auto".to_string()),
        seat_home_template: Some("/home/seats/{owner}".to_string()),
        seat_steam_libraries: vec!["/srv/steam".to_string()],
    }
}

fn resolved(nodes: &[(&str, &str)]) -> Vec<Option<ResolvedNode>> {
    nodes
        .iter()
        .map(|(node, canonical)| {
            Some(ResolvedNode {
                node: node.as_bytes().to_vec(),
                canonical: canonical.as_bytes().to_vec(),
            })
        })
        .collect()
}

fn make(config: CompositorConfig, nodes: &Vec<Option<ResolvedNode>>) -> Result<SessionPool<&'static str>, ()> {
    SessionPool::new(
        config,
        VideoStreamConfig { port: 47998 },
        AudioStreamConfig { port: 48000 },
        ControlStreamConfig { port: 47999 },
        "0.0.0.0".to_string(),
        48010,
        60,
        nodes,
    )
}

fn two_gpus() -> SessionPool<&'static str> {
    let nodes = resolved(&[
        ("/dev/dri/renderD128", "/dev/dri/renderD128"),
        ("/dev/dri/renderD129", "/dev/dri/renderD129"),
    ]);
    make(compositor(&["0", "1"]), &nodes).ok().unwrap()
}

fn single() -> SessionPool<&'static str> {
    make(compositor(&[]), &vec![]).ok().unwrap()
}

fn lookup(want: Option<&str>) -> Option<NodeLookup> {
    Some(NodeLookup {
        want: want.map(|w| w.as_bytes().to_vec()),
        nodes: vec![b"/dev/dri/renderD128".to_vec(), b"/dev/dri/renderD129".to_vec()],
    })
}

fn launch(pool: &mut SessionPool<&'static str>, owner: &str) -> SeatPlan {
    pool.launch(owner.to_string(), 7, &None).ok().unwrap()
}

fn start(pool: &mut SessionPool<&'static str>, owner: &str, port: u16) -> u64 {
    let plan = launch(pool, owner);
    let id = plan.id;
    assert!(pool.is_launching(id));
    let r = pool.finish_launch(id, Ok(("running", port)));
    assert_eq!(r.result, Ok(port));
    assert!(r.replaced.is_none());
    assert!(!pool.is_launching(id));
    id
}

#[test]
fn first_launch_takes_the_first_gpu_on_ephemeral_ports() {
    let mut pool = two_gpus();
    let plan = launch(&mut pool, "alice");
    assert_eq!(plan.id, 1);
    assert_eq!(plan.gpu_index, Some(0));
    assert_eq!(plan.seat_home.as_deref(), Some("/home/seats/alice"));
    assert_eq!(plan.steam_libraries, vec!["/srv/steam".to_string()]);
    assert!(plan.compositor_config.gpus.is_empty());
    assert_eq!(plan.compositor_config.gpu.as_deref(), Some("/dev/dri/renderD128"));
    assert_eq!(plan.compositor_config.seat_home_template.as_deref(), Some("/home/seats/{owner}"));
    assert_eq!(plan.compositor_config.seat_steam_libraries, vec!["/srv/steam".to_string()]);
    assert_eq!(plan.video_config.port, 0);
    assert_eq!(plan.audio_config.port, 0);
    assert_eq!(plan.control_config.port, 0);
    assert_eq!(plan.rtsp_bind_port, 0);
    assert_eq!(plan.address, "0.0.0.0");
    assert_eq!(plan.stream_timeout, 60);
}

#[test]
fn single_seat_uses_configured_ports_and_gpu() {
    let mut pool = single();
    assert!(!pool.ephemeral());
    let plan = launch(&mut pool, "alice");
    assert_eq!(plan.gpu_index, None);
    assert_eq!(plan.seat_home, None);
    assert!(plan.steam_libraries.is_empty());
    assert_eq!(plan.compositor_config.gpu.as_deref(), Some("auto"));
    assert_eq!(plan.video_config.port, 47998);
    assert_eq!(plan.audio_config.port, 48000);
    assert_eq!(plan.control_config.port, 47999);
    assert_eq!(plan.rtsp_bind_port, 48010);
}

#[test]
fn node_that_is_not_text_is_pinned_with_replacement_characters() {
    let nodes = vec![Some(ResolvedNode {
        node: vec![b'/', 0xff, b'a'],
        canonical: b"/a".to_vec(),
    })];
    let mut pool = make(compositor(&["0"]), &nodes).ok().unwrap();
    let plan = launch(&mut pool, "alice");
    assert_eq!(plan.compositor_config.gpu.as_deref(), Some("/\u{FFFD}a"));
}

#[test]
fn no_template_means_no_home_and_no_libraries() {
    let mut config = compositor(&["0"]);
    config.seat_home_template = None;
    let mut pool = make(config, &resolved(&[("/dev/dri/renderD128", "/x")])).ok().unwrap();
    let plan = launch(&mut pool, "alice");
    assert_eq!(plan.seat_home, None);
    assert!(plan.steam_libraries.is_empty());
}

#[test]
fn unresolved_selector_fails_the_pool() {
    let mut nodes = resolved(&[("/dev/dri/renderD128", "/dev/dri/renderD128")]);
    nodes.push(None);
    assert!(make(compositor(&["0", "1"]), &nodes).is_err());
}

#[test]
fn duplicate_gpus_are_pooled_once() {
    let nodes = resolved(&[
        ("/dev/dri/by-path/card0", "/dev/dri/renderD128"),
        ("/dev/dri/renderD129", "/dev/dri/renderD129"),
        ("/dev/dri/renderD128", "/dev/dri/renderD128"),
    ]);
    let pool = make(compositor(&["a", "b", "c"]), &nodes).ok().unwrap();
    assert_eq!(pool.gpus().len(), 2);
    assert_eq!(pool.gpus()[0].node, b"/dev/dri/by-path/card0".to_vec());
    assert_eq!(pool.gpus()[1].node, b"/dev/dri/renderD129".to_vec());
    assert!(!pool.gpus()[0].busy);
}

#[test]
fn concurrent_launches_get_distinct_gpus_until_full() {
    let mut pool = two_gpus();
    assert!(pool.has_capacity());
    let a = launch(&mut pool, "alice");
    let b = launch(&mut pool, "bob");
    assert_eq!(a.gpu_index, Some(0));
    assert_eq!(b.gpu_index, Some(1));
    assert_ne!(a.id, b.id);
    assert!(!pool.has_capacity());
    assert!(!pool.has_free_slot());
    assert_eq!(pool.launch("carol".to_string(), 7, &None).err(), Some(LaunchError::NoGpuAvailable));
    assert_eq!(pool.next_id(), 3);
}

#[test]
fn single_seat_refuses_a_second_session() {
    let mut pool = single();
    assert!(pool.has_capacity());
    let id = start(&mut pool, "alice", 48010);
    assert!(!pool.has_capacity());
    assert_eq!(pool.launch("bob".to_string(), 7, &None).err(), Some(LaunchError::NoGpuAvailable));
    assert!(pool.remove_seat(id).is_some());
    assert!(pool.has_capacity());
}

#[test]
fn app_gpu_is_granted_while_free_and_refused_while_busy() {
    let mut pool = two_gpus();
    let want = lookup(Some("/dev/dri/renderD129"));
    assert_eq!(pool.launch("alice".to_string(), 7, &want).ok().unwrap().gpu_index, Some(1));
    assert_eq!(pool.launch("bob".to_string(), 7, &want).err(), Some(LaunchError::NoGpuAvailable));
    assert!(pool.has_capacity());
}

#[test]
fn app_gpu_outside_the_pool_or_unresolved_is_refused() {
    let mut pool = two_gpus();
    assert_eq!(
        pool.launch("alice".to_string(), 7, &lookup(Some("/dev/dri/renderD130"))).err(),
        Some(LaunchError::NoGpuAvailable)
    );
    assert_eq!(pool.launch("alice".to_string(), 7, &lookup(None)).err(), Some(LaunchError::NoGpuAvailable));
    assert_eq!(pool.next_id(), 1);
}

#[test]
fn app_gpu_counts_in_multi_seat_mode_only() {
    let selector = Some("1".to_string());
    assert_eq!(two_gpus().gpu_selector(&selector), Some(&"1".to_string()));
    assert_eq!(two_gpus().gpu_selector(&None), None);
    assert_eq!(single().gpu_selector(&selector), None);
}

#[test]
fn failed_launch_releases_the_gpu() {
    let mut pool = two_gpus();
    let plan = launch(&mut pool, "alice");
    let r = pool.finish_launch(plan.id, Err(LaunchError::Failed));
    assert_eq!(r.result, Err(LaunchError::Failed));
    assert!(r.replaced.is_none());
    assert!(!pool.is_launching(plan.id));
    assert!(!pool.gpus()[0].busy);
    assert_eq!(pool.seat_info("alice"), None);
    assert_eq!(launch(&mut pool, "bob").gpu_index, Some(0));
}

#[test]
fn started_seat_is_reported_and_resumed() {
    let mut pool = two_gpus();
    start(&mut pool, "alice", 50001);
    start(&mut pool, "bob", 50002);
    assert_eq!(pool.seat_info("alice"), Some(SeatInfo { rtsp_port: 50001, application_id: 7 }));
    assert_eq!(pool.resume("bob"), Ok((&"running", 50002)));
    assert_eq!(pool.resume("carol"), Err(()));
    assert_eq!(pool.seat_info("carol"), None);
    assert_eq!(finish_resume(50002, Ok(())), Ok(50002));
    assert_eq!(finish_resume(50002, Err(())), Err(()));
}

#[test]
fn stopping_a_client_frees_its_seat_and_nobody_elses() {
    let mut pool = two_gpus();
    let a = start(&mut pool, "alice", 50001);
    start(&mut pool, "bob", 50002);
    assert_eq!(pool.stop_owner("carol"), None);
    assert_eq!(pool.stop_owner("alice"), Some((a, &"running")));
    let seat = pool.remove_seat(a).unwrap();
    assert_eq!(seat.owner, "alice");
    assert_eq!(seat.gpu_index, Some(0));
    assert_eq!(pool.stop_owner("alice"), None);
    assert_eq!(pool.seat_info("alice"), None);
    assert_eq!(pool.seat_info("bob"), Some(SeatInfo { rtsp_port: 50002, application_id: 7 }));
    assert!(!pool.gpus()[0].busy);
    assert!(pool.gpus()[1].busy);
}

#[test]
fn removing_a_seat_twice_is_harmless() {
    let mut pool = two_gpus();
    let a = start(&mut pool, "alice", 50001);
    assert!(pool.remove_seat(a).is_some());
    let b = launch(&mut pool, "bob");
    assert_eq!(b.gpu_index, Some(0));
    assert!(pool.remove_seat(a).is_none());
    assert!(pool.gpus()[0].busy);
}

#[test]
fn relaunch_in_a_full_pool_replaces_the_session() {
    let mut pool = two_gpus();
    let a = start(&mut pool, "alice", 50001);
    start(&mut pool, "bob", 50002);
    assert!(!pool.has_capacity());
    assert_eq!(pool.stop_owner("alice").map(|s| s.0), Some(a));
    pool.remove_seat(a);
    let again = start(&mut pool, "alice", 50003);
    assert_ne!(again, a);
    assert_eq!(pool.seat_info("alice"), Some(SeatInfo { rtsp_port: 50003, application_id: 7 }));
}

#[test]
fn last_of_overlapping_launches_replaces_the_other() {
    let mut pool = two_gpus();
    let a = pool.launch("alice".to_string(), 1, &None).ok().unwrap();
    let b = pool.launch("alice".to_string(), 2, &None).ok().unwrap();
    assert_eq!(pool.finish_launch(a.id, Ok(("one", 50001))).result, Ok(50001));
    let r = pool.finish_launch(b.id, Ok(("two", 50002)));
    assert_eq!(r.result, Ok(50002));
    let (replaced, seat) = r.replaced.unwrap();
    assert_eq!((replaced, seat.session, seat.gpu_index), (a.id, "one", Some(0)));
    assert_eq!(pool.seat_info("alice"), Some(SeatInfo { rtsp_port: 50002, application_id: 2 }));

    // The replaced session keeps its GPU until it is released, and its end changes nothing.
    assert!(pool.remove_seat(a.id).is_none());
    assert!(!pool.is_launching(a.id));
    assert!(pool.gpus()[0].busy);
    assert!(!pool.has_capacity());
    pool.release(a.id);
    assert!(!pool.gpus()[0].busy);
    pool.release(a.id);
    assert_eq!(pool.stop_owner("alice"), Some((b.id, &"two")));
    assert!(pool.gpus()[1].busy);
}

#[test]
fn release_leaves_launches_and_seats_alone() {
    let mut pool = two_gpus();
    let a = launch(&mut pool, "alice");
    let b = start(&mut pool, "bob", 50002);
    pool.release(a.id);
    pool.release(b);
    assert!(pool.is_launching(a.id));
    assert!(pool.gpus()[0].busy);
    assert!(pool.gpus()[1].busy);
    assert_eq!(pool.finish_launch(a.id, Ok(("running", 50001))).result, Ok(50001));
    assert_eq!(pool.seat_info("bob"), Some(SeatInfo { rtsp_port: 50002, application_id: 7 }));
}

#[test]
fn launches_in_a_row_fill_the_pool_slot_by_slot() {
    let nodes = resolved(&[("/a", "/a"), ("/b", "/b"), ("/c", "/c"), ("/d", "/d")]);
    let mut pool = make(compositor(&["0", "1", "2", "3"]), &nodes).ok().unwrap();
    for k in 0..4 {
        assert_eq!(launch(&mut pool, "alice").gpu_index, Some(k));
    }
    assert_eq!(pool.launch("bob".to_string(), 7, &None).err(), Some(LaunchError::NoGpuAvailable));
    assert!(pool.gpus().iter().all(|g| g.busy));
}

#[test]
fn sessions_run_on_different_hardware() {
    let nodes = resolved(&[("/by-path/0", "/a"), ("/a", "/a"), ("/b", "/b")]);
    let mut pool = make(compositor(&["0", "1", "2"]), &nodes).ok().unwrap();
    let first = launch(&mut pool, "alice");
    let second = launch(&mut pool, "bob");
    assert_eq!(first.compositor_config.gpu.as_deref(), Some("/by-path/0"));
    assert_eq!(second.compositor_config.gpu.as_deref(), Some("/b"));
    assert!(!pool.has_capacity());
    assert_eq!(second.id, first.id + 1);
}

#[test]
fn overlapping_single_seat_launch_is_refused() {
    let mut pool = single();
    let a = launch(&mut pool, "alice");
    assert!(!pool.has_capacity());
    assert_eq!(pool.launch("bob".to_string(), 7, &None).err(), Some(LaunchError::NoGpuAvailable));
    assert_eq!(pool.finish_launch(a.id, Ok(("running", 48010))).result, Ok(48010));
    assert_eq!(pool.launch("bob".to_string(), 7, &None).err(), Some(LaunchError::NoGpuAvailable));
    pool.remove_seat(a.id);
    let c = launch(&mut pool, "carol");
    assert_eq!(pool.finish_launch(c.id, Err(LaunchError::Failed)).result, Err(LaunchError::Failed));
    assert!(pool.has_capacity());
}

#[test]
fn late_removal_leaves_the_next_session_alone() {
    let mut pool = two_gpus();
    let a = start(&mut pool, "alice", 50001);
    pool.remove_seat(a);
    let b = start(&mut pool, "bob", 50002);
    assert!(pool.remove_seat(a).is_none());
    assert_eq!(pool.seat_info("bob"), Some(SeatInfo { rtsp_port: 50002, application_id: 7 }));
    assert!(pool.gpus()[0].busy);
    assert_eq!(b, 2);
}

#[test]
fn concurrent_seats_have_homes_of_their_own() {
    let mut config = compositor(&["0", "1"]);
    config.seat_home_template = Some("/home/seat-{seat}".to_string());
    let nodes = resolved(&[("/dev/dri/renderD128", "/a"), ("/dev/dri/renderD129", "/b")]);
    let mut pool = make(config, &nodes).ok().unwrap();
    assert_eq!(launch(&mut pool, "alice").seat_home.as_deref(), Some("/home/seat-0"));
    assert_eq!(launch(&mut pool, "alice").seat_home.as_deref(), Some("/home/seat-1"));
}
