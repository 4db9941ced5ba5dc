use bytes::Bytes;
use moq_mmtp::catalog::{
    FecAlgorithm, FecDescriptor, MmtpMode, MulticastConfig, MulticastEndpoint, MulticastTrackRef,
    Root, Track, TrackPackaging,
};
use moq_mmtp::mmt::{FragmentType, MmtpHeader, MpuHeader, PacketType};
use moq_mmtp::publisher::dispatch::DispatchError;
use moq_mmtp::publisher::framing::{
    datagram_event, frame_event, frame_length, read_one_frame, write_one_frame, FrameError,
    InputEvent, MAX_FRAME_BYTES,
};
use moq_mmtp::publisher::observe::{
    capture_route, flag_exporter_action, parse_seconds, reusable_active_bytes, ExporterAction,
    ProfileRoute,
};
use moq_mmtp::publisher::parse::RouteError;
use moq_mmtp::publisher::reconnect::{
    attempt_after_session, backoff_duration, describe_task_end, reconnect_after_failure, Reconnect,
    TaskEnd,
};
use moq_mmtp::publisher::router::{
    build_datagram_state, build_router, build_state_map, ceil_div_u128,
    check_namespace_consistency, is_routable, open_tracks, publish_catalog_track, repair_is_resolved,
    HandleError, Router,
    StateMapError, TrackPlan, TracksWriter, CONTROL_PRIORITY, PUBLISHER_HISTORY_WINDOW,
    SOURCE_PRIORITY,
};
use moq_mmtp::publisher::udp::{
    is_multicast, plan_udp_socket, IpAddress, SocketAddress, SocketPlan, SocketPlanError,
};
use moq_mmtp::serve::datagram::DatagramsReader;
use moq_mmtp::serve::object::SubgroupReader;
use moq_mmtp::serve::subgroup::SubgroupsReader;
use moq_mmtp::serve::ReadOutcome;
use moq_mmtp::table::Table;

fn track(name: &str, packaging: Option<TrackPackaging>) -> Track {
    let mmtp_mode = if matches!(packaging, Some(TrackPackaging::Mmtp)) {
        Some(MmtpMode::Mpu)
    } else {
        None
    };
    Track {
        name: name.into(),
        packaging,
        mmtp_mode,
        timescale: mmtp_mode.map(|_| 90_000),
        group_duration_ms: mmtp_mode.map(|_| 1_000),
        ..Default::default()
    }
}

fn catalog_with(tracks: Vec<Track>, multicast: Option<MulticastConfig>) -> Root {
    Root {
        version: 1,
        streaming_format: "mmtp".into(),
        streaming_format_version: "0.2".into(),
        supports_delta_updates: Some(true),
        tracks,
        multicast,
    }
}

fn endpoint(track_refs: Vec<(&str, u16)>) -> MulticastEndpoint {
    MulticastEndpoint {
        protocol: None,
        source_address: None,
        group_address: "232.0.1.1".into(),
        port: 5004,
        tracks: track_refs
            .into_iter()
            .map(|(name, packet_id)| MulticastTrackRef {
                name: name.into(),
                packet_id,
            })
            .collect(),
        bandwidth: None,
    }
}

fn endpoints(track_refs: Vec<(&str, u16)>) -> Option<MulticastConfig> {
    Some(MulticastConfig {
        endpoints: Some(vec![endpoint(track_refs)]),
        network_source: None,
    })
}

fn raptorq(repair_track: &str) -> FecDescriptor {
    FecDescriptor {
        algorithm: FecAlgorithm::RaptorQ,
        source_symbols: 32,
        repair_symbols: 8,
        symbol_size: 1312,
        interleave_depth_ms: None,
        repair_track: repair_track.into(),
        mode: None,
    }
}

fn expect_err(r: Result<Table<TrackPlan>, StateMapError>) -> StateMapError {
    match r {
        Err(e) => e,
        Ok(_) => panic!("expected Err, got Ok"),
    }
}

#[test]
fn build_state_map_errors_when_no_multicast_extension() {
    let cat = catalog_with(vec![track("v", Some(TrackPackaging::Mmtp))], None);
    let mut tw = TracksWriter::new();
    let err = expect_err(build_state_map(&mut tw, &cat));
    assert!(err.describe().contains("no `multicast` extension"));
}

#[test]
fn build_state_map_errors_when_endpoints_missing() {
    let cat = catalog_with(
        vec![track("v", Some(TrackPackaging::Mmtp))],
        Some(MulticastConfig::default()),
    );
    let mut tw = TracksWriter::new();
    let err = expect_err(build_state_map(&mut tw, &cat));
    assert!(err.describe().contains("endpoints is missing"));
}

#[test]
fn build_state_map_errors_on_duplicate_packet_id() {
    let cat = catalog_with(
        vec![
            track("v", Some(TrackPackaging::Mmtp)),
            track("a", Some(TrackPackaging::Mmtp)),
        ],
        endpoints(vec![("v", 1), ("a", 1)]),
    );
    let mut tw = TracksWriter::new();
    let err = expect_err(build_state_map(&mut tw, &cat));
    assert!(err.describe().contains("duplicate packet_id"));
    assert_eq!(
        StateMapError::DuplicatePacketId {
            packet_id: 17,
            name: "b".into()
        }
        .describe(),
        "duplicate packet_id 17 (used by track `b` and a prior endpoint)"
    );
    assert_eq!(
        err,
        StateMapError::DuplicatePacketId {
            packet_id: 1,
            name: "a".into()
        }
    );
}

#[test]
fn build_state_map_errors_on_missing_track_reference() {
    let cat = catalog_with(
        vec![track("v", Some(TrackPackaging::Mmtp))],
        endpoints(vec![("does-not-exist", 1)]),
    );
    let mut tw = TracksWriter::new();
    let err = expect_err(build_state_map(&mut tw, &cat));
    assert!(err.describe().contains("not present in catalog.tracks"));
}

#[test]
fn build_state_map_uses_fixed_runtime_history() {
    let cat = catalog_with(
        vec![track("v", Some(TrackPackaging::Mmtp))],
        endpoints(vec![("v", 1)]),
    );
    let mut tw = TracksWriter::new();
    let map = match build_state_map(&mut tw, &cat) {
        Ok(map) => map,
        Err(e) => panic!("schema catalog uses runtime history: {e:?}"),
    };
    assert!(map.contains_key(1));
    assert_eq!(map.get(1).unwrap().history_window, PUBLISHER_HISTORY_WINDOW);
}

#[test]
fn build_state_map_rejects_zero_timescale() {
    let mut source = track("v", Some(TrackPackaging::Mmtp));
    source.timescale = Some(0);
    let cat = catalog_with(vec![source], endpoints(vec![("v", 1)]));
    let mut tw = TracksWriter::new();
    let err = expect_err(build_state_map(&mut tw, &cat));
    assert!(err.describe().contains("effective timescale 0"));
}

#[test]
fn build_state_map_rejects_zero_effective_group_duration() {
    let mut source = track("v", Some(TrackPackaging::Mmtp));
    source.group_duration_ticks = None;
    source.group_duration_ms = Some(1);
    source.timescale = Some(1);
    let cat = catalog_with(vec![source], endpoints(vec![("v", 1)]));
    let mut tw = TracksWriter::new();
    let err = expect_err(build_state_map(&mut tw, &cat));
    assert!(err.describe().contains("effective group duration 0 ticks"));
}

#[test]
fn build_state_map_needs_timing_and_an_open_broadcast() {
    let mut source = track("v", Some(TrackPackaging::Mmtp));
    source.timescale = None;
    let cat = catalog_with(vec![source], endpoints(vec![("v", 1)]));
    assert_eq!(
        expect_err(build_state_map(&mut TracksWriter::new(), &cat)),
        StateMapError::NoTimescale { name: "v".into() }
    );
    let mut source = track("v", Some(TrackPackaging::Mmtp));
    source.group_duration_ms = None;
    let cat = catalog_with(vec![source], endpoints(vec![("v", 1)]));
    assert_eq!(
        expect_err(build_state_map(&mut TracksWriter::new(), &cat)),
        StateMapError::NoGroupDuration { name: "v".into() }
    );
    let cat = catalog_with(
        vec![track("v", Some(TrackPackaging::Mmtp))],
        endpoints(vec![("v", 1)]),
    );
    let mut closed = TracksWriter::new();
    closed.open = false;
    assert_eq!(
        expect_err(build_state_map(&mut closed, &cat)),
        StateMapError::CreateFailed { name: "v".into() }
    );
}

#[test]
fn interleaving_depth_spreads_repair_over_groups() {
    let depth_of = |depth_ms: Option<u32>| {
        let mut source = track("v", Some(TrackPackaging::Mmtp));
        let mut fec = raptorq("v/repair");
        fec.interleave_depth_ms = depth_ms;
        source.fec = Some(fec);
        let mut repair = track("v/repair", Some(TrackPackaging::FecRepair));
        repair.priority = Some(240);
        let cat = catalog_with(vec![source, repair], endpoints(vec![("v", 1)]));
        match build_state_map(&mut TracksWriter::new(), &cat) {
            Ok(map) => map.get(1).unwrap().repair_group_depth,
            Err(e) => panic!("{e:?}"),
        }
    };
    assert_eq!(depth_of(None), 1);
    assert_eq!(depth_of(Some(0)), 1);
    assert_eq!(depth_of(Some(1_000)), 1);
    assert_eq!(depth_of(Some(1_001)), 2);
    assert_eq!(depth_of(Some(2_500)), 3);
    assert_eq!(ceil_div_u128(7, 2), 4);
    assert_eq!(ceil_div_u128(0, 5), 0);
}

fn datagram_ring(router: Router) -> Vec<u64> {
    let Router::Datagram(mut state) = router else {
        panic!("a datagram catalog selects the datagram router");
    };
    let mut reader = DatagramsReader::start();
    for value in 0..10u8 {
        state.handle(Bytes::from(vec![value; 8])).unwrap();
    }
    state.sink.state.drop_side();
    let mut got = Vec::new();
    while let ReadOutcome::Item(datagram) = reader.read(&state.sink.state) {
        got.push(datagram.group_id);
    }
    assert_eq!(reader.dropped(), 0);
    got
}

#[test]
fn datagram_router_uses_bounded_ring_transport_mode() {
    let cat = catalog_with(
        vec![track("shreds", Some(TrackPackaging::Datagram))],
        Some(MulticastConfig {
            endpoints: None,
            network_source: None,
        }),
    );
    let mut tracks = TracksWriter::new();
    let router = match build_router(&mut tracks, &cat) {
        Ok(router) => router,
        Err(e) => panic!("{e:?}"),
    };
    assert!(tracks.has("shreds"), "datagram track registered");
    assert_eq!(router.kind(), "datagram");
    assert_eq!(datagram_ring(router), (0..10).collect::<Vec<_>>());
}

#[test]
fn datagram_router_requires_multicast_config() {
    let cat = catalog_with(vec![track("shreds", Some(TrackPackaging::Datagram))], None);
    let mut tracks = TracksWriter::new();
    let err = match build_datagram_state(&mut tracks, &cat) {
        Ok(_) => panic!("expected startup error for missing multicast config"),
        Err(err) => err,
    };
    assert!(err.describe().contains("multicast"));

    let two = catalog_with(
        vec![
            track("a", Some(TrackPackaging::Datagram)),
            track("b", Some(TrackPackaging::Datagram)),
        ],
        None,
    );
    assert!(matches!(
        build_datagram_state(&mut tracks, &two),
        Err(StateMapError::SeveralDatagramTracks)
    ));
    let none = catalog_with(vec![], None);
    assert!(matches!(
        build_datagram_state(&mut tracks, &none),
        Err(StateMapError::NoDatagramTrack)
    ));
}

#[test]
fn publish_catalog_track_registers_only_canonical_name() {
    let catalog_bytes = br#"{"version":1}"#;
    let mut tw = TracksWriter::new();
    let mut retained = match publish_catalog_track(&mut tw, catalog_bytes) {
        Ok(track) => track,
        Err(e) => panic!("publish_catalog_track returns Ok: {e:?}"),
    };

    assert!(tw.has("catalog"), "canonical catalog track is registered");
    assert!(!tw.has("catalog.json"));
    assert!(!tw.has(".catalog"));

    let mut reader = SubgroupsReader::new(&mut retained.state);
    assert!(!reader.is_closed(&retained.state));
    match reader.next(&mut retained.state) {
        ReadOutcome::Item(s) => {
            assert_eq!((s.group_id, s.subgroup_id), (0, 0));
            assert_eq!(s.priority, CONTROL_PRIORITY);
        }
        _ => panic!("the catalog's group is there"),
    }
    let mut objects = SubgroupReader::start();
    match objects.read_next(&retained.group) {
        ReadOutcome::Item(payload) => assert_eq!(&payload[..], &catalog_bytes[..]),
        _ => panic!("the catalog is there"),
    }
    assert!(matches!(objects.read_next(&retained.group), ReadOutcome::End));

    tw.open = false;
    assert!(matches!(
        publish_catalog_track(&mut tw, catalog_bytes),
        Err(StateMapError::CatalogFailed { .. })
    ));
}

#[test]
fn build_state_map_happy_path_with_two_tracks() {
    let cat = catalog_with(
        vec![
            track("v", Some(TrackPackaging::Mmtp)),
            track("a", Some(TrackPackaging::Mmtp)),
        ],
        endpoints(vec![("v", 17), ("a", 18)]),
    );
    let mut tw = TracksWriter::new();
    let plans = match build_state_map(&mut tw, &cat) {
        Ok(map) => map,
        Err(e) => panic!("{e:?}"),
    };
    assert_eq!(plans.len(), 2);
    let tracks = open_tracks(plans);
    assert_eq!(tracks.plans.len(), 2);
    let map = tracks.states;
    assert_eq!(map.len(), 2);
    let v = map.get(17).expect("packet_id 17 present");
    assert_eq!(v.name, "v");
    assert_eq!(v.priority, SOURCE_PRIORITY);
    assert!(v.last_seen_mpu_seq.is_none());
    assert!(v.repair.is_none(), "tracks without fec have no repair sink");
    let a = map.get(18).expect("packet_id 18 present");
    assert_eq!(a.name, "a");
    assert_eq!(a.priority, SOURCE_PRIORITY);
    assert!(a.repair.is_none(), "tracks without fec have no repair sink");
}

#[test]
fn build_state_map_skips_catalog_declared_fec_repair_tracks() {
    let cat = catalog_with(
        vec![
            track("v", Some(TrackPackaging::Mmtp)),
            track("v/repair", Some(TrackPackaging::FecRepair)),
        ],
        endpoints(vec![("v", 17), ("v/repair", 18)]),
    );
    let mut tw = TracksWriter::new();
    let map = match build_state_map(&mut tw, &cat) {
        Ok(map) => map,
        Err(e) => panic!("{e:?}"),
    };
    assert_eq!(map.len(), 1);
    assert!(map.contains_key(17));
    assert!(!map.contains_key(18));
}

#[test]
fn build_state_map_uses_catalog_fec_repair_track_name() {
    let mut v = track("v", Some(TrackPackaging::Mmtp));
    v.fec = Some(raptorq("v/fec-custom"));
    let mut repair = track("v/fec-custom", Some(TrackPackaging::FecRepair));
    repair.priority = Some(240);
    let cat = catalog_with(vec![v, repair], endpoints(vec![("v", 17)]));
    let mut tw = TracksWriter::new();
    let map = match build_state_map(&mut tw, &cat) {
        Ok(map) => map,
        Err(e) => panic!("{e:?}"),
    };
    let plan = map.get(17).expect("source track present");
    assert!(
        plan.repair.is_some(),
        "a fec-declaring track still gets a repair sibling"
    );
    assert_eq!(plan.repair.as_ref().unwrap().priority, 240);
    assert!(
        tw.has("v/fec-custom"),
        "repair sibling is registered under the catalog fec.repairTrack name"
    );
    assert!(
        !tw.has("v/repair"),
        "the `<source>/repair` convention name is not used when fec names one"
    );
    let tracks = open_tracks(map);
    assert!(tracks.states.get(17).unwrap().repair.is_some());
    let kept = tracks.plans.get(17).unwrap();
    assert_eq!(kept.repair.as_ref().unwrap().priority, 240);
    assert_eq!(
        tracks.states.get(17).unwrap().sink.history_window,
        Some(kept.history_window),
        "a track keeps its history window"
    );
}

#[test]
fn repair_tracks_are_resolved_by_name_and_priority() {
    let mut v = track("v", Some(TrackPackaging::Mmtp));
    v.fec = Some(raptorq("r"));
    let r = track("r", Some(TrackPackaging::FecRepair));
    let mut cat = catalog_with(vec![v, r], endpoints(vec![("v", 17)]));
    assert!(!repair_is_resolved(&cat), "no priority");
    cat.tracks[1].priority = Some(240);
    assert!(repair_is_resolved(&cat));
    assert!(is_routable(&cat));
    cat.tracks[1].name = "other".into();
    assert!(!repair_is_resolved(&cat), "no such track");
    assert!(!is_routable(&cat));
    cat.multicast = endpoints(vec![]);
    assert!(repair_is_resolved(&cat), "no endpoint refers to the track");
    cat.multicast = endpoints(vec![("v", 17)]);
    cat.tracks[1].packaging = Some(TrackPackaging::Datagram);
    assert!(is_routable(&cat), "datagram tracks have no repair");
}

#[test]
fn build_state_map_does_not_invent_repair_track_without_fec() {
    let cat = catalog_with(
        vec![track("v", Some(TrackPackaging::Mmtp))],
        endpoints(vec![("v", 17)]),
    );
    let mut tw = TracksWriter::new();
    let _map = build_state_map(&mut tw, &cat);
    assert!(tw.has("v"));
    assert!(!tw.has("v/repair"));
}

#[test]
fn build_state_map_registers_declared_repair_tracks_on_broadcast() {
    let mut source = track("v", Some(TrackPackaging::Mmtp));
    source.fec = Some(raptorq("v/repair"));
    let mut repair = track("v/repair", Some(TrackPackaging::FecRepair));
    repair.priority = Some(240);
    let cat = catalog_with(vec![source, repair], endpoints(vec![("v", 17)]));
    let mut tw = TracksWriter::new();
    let map = match build_state_map(&mut tw, &cat) {
        Ok(map) => map,
        Err(e) => panic!("{e:?}"),
    };
    assert!(tw.has("v"), "source track `v` registered");
    assert!(tw.has("v/repair"), "repair track `v/repair` registered");
    let mut states = open_tracks(map).states;
    let mut repair = states.remove(17).unwrap().repair.unwrap();
    let reader = SubgroupsReader::new(&mut repair.sink.state);
    assert!(!reader.is_closed(&repair.sink.state), "repair track is alive");
}

fn synth_mpu_init_packet(packet_id: u16, mpu_seq: u32) -> Vec<u8> {
    let hdr = MmtpHeader::new(packet_id, PacketType::Mpu);
    let mut buf = Vec::new();
    hdr.write_to(&mut buf);
    let mpu = MpuHeader::new(FragmentType::Init, mpu_seq);
    mpu.write_to(&mut buf);
    buf.extend_from_slice(&[0xAA, 0xBB]);
    buf
}

#[test]
fn a_received_datagram_is_routed_to_its_track() {
    let cat = catalog_with(
        vec![track("v", Some(TrackPackaging::Mmtp))],
        endpoints(vec![("v", 1)]),
    );
    let mut tw = TracksWriter::new();
    let mut router = match build_router(&mut tw, &cat) {
        Ok(router) => router,
        Err(e) => panic!("{e:?}"),
    };
    assert_eq!(router.kind(), "mmtp");
    let InputEvent::Packet(packet) = datagram_event(synth_mpu_init_packet(1, 42)) else {
        panic!("expected InputEvent::Packet for a non-empty UDP datagram");
    };
    router.handle(Bytes::from(packet)).unwrap();
    let Router::Mmtp(tracks) = &router else {
        panic!("expected Mmtp router");
    };
    let s = tracks.states.get(1).expect("packet_id 1 present");
    assert_eq!(s.last_seen_mpu_seq, Some(42));
    assert_eq!(s.current_group_id, Some(42));

    assert_eq!(
        router.handle(Bytes::from_static(b"short")),
        Err(HandleError::Route(RouteError::ShortPacket(5)))
    );
    assert_eq!(
        router.handle(Bytes::from(synth_mpu_init_packet(2, 42))),
        Err(HandleError::Dispatch(DispatchError::UnknownPacketId(2)))
    );
    assert_eq!(datagram_event(Vec::new()), InputEvent::Skip);
}

#[test]
fn stdin_input_reports_exhausted_on_clean_eof() {
    let frame = read_one_frame(&[], 0).unwrap();
    let event = frame_event(frame.map(|(payload, _)| payload));
    assert!(matches!(event, InputEvent::Exhausted));
}

#[test]
fn stdin_input_yields_packet_for_one_frame() {
    let payload = b"mmtp-frame";
    let mut wire = Vec::new();
    wire.extend_from_slice(&(payload.len() as u32).to_be_bytes());
    wire.extend_from_slice(payload);
    let frame = read_one_frame(&wire, 0).unwrap();
    let InputEvent::Packet(packet) = frame_event(frame.map(|(payload, _)| payload)) else {
        panic!("expected InputEvent::Packet for one length-prefixed frame");
    };
    assert_eq!(&packet[..], payload);
}

#[test]
fn backoff_duration_doubles_and_caps() {
    let min = 500;
    let max = 30_000;
    assert_eq!(backoff_duration(0, min, max), 500);
    assert_eq!(backoff_duration(1, min, max), 1_000);
    assert_eq!(backoff_duration(2, min, max), 2_000);
    assert_eq!(backoff_duration(6, min, max), 30_000);
    // Cap holds even for attempt counts far past where 2^attempt would
    // overflow a u32 shift.
    assert_eq!(backoff_duration(1_000, min, max), max);
}

#[test]
fn healthy_session_resets_the_reconnect_streak() {
    let max = 30_000;

    assert_eq!(attempt_after_session(6, max, max), 0);
    assert_eq!(attempt_after_session(6, 3_600_000, max), 0);
    // Boundary: `healthy_after` itself counts as healthy.
    assert_eq!(attempt_after_session(3, max, max), 0);

    assert_eq!(attempt_after_session(3, 29_999, max), 3);
    assert_eq!(attempt_after_session(1, 0, max), 1);
}

#[test]
fn reconnect_backoff_recovers_after_a_healthy_session() {
    let min = 500;
    let max = 30_000;

    // Six consecutive losses pin the backoff at the ceiling.
    assert_eq!(backoff_duration(6, min, max), max);

    let attempt = attempt_after_session(6, 3_600_000, max);
    assert_eq!(backoff_duration(attempt, min, max), min);
}

#[test]
fn reconnect_sleeps_the_current_attempt_then_increments() {
    let min = 500;
    let max = 30_000;

    let mut attempt = 0;
    assert_eq!(
        reconnect_after_failure(&mut attempt, min, max),
        min,
        "a reset attempt must sleep backoff_min, not the next step"
    );
    assert_eq!(attempt, 1, "attempt must increment after the sleep");

    // And the step after that is the doubled one, not the one just slept.
    assert_eq!(
        reconnect_after_failure(&mut attempt, min, max),
        backoff_duration(1, min, max)
    );
    assert_eq!(attempt, 2);
}

#[test]
fn a_reconnect_streak_ends_with_a_healthy_session() {
    let mut reconnect = Reconnect {
        attempt: 0,
        min: 500,
        max: 30_000,
    };
    assert_eq!(reconnect.session_lost(None), 500);
    assert_eq!(reconnect.session_lost(Some(29_999)), 1_000);
    assert_eq!(reconnect.session_lost(Some(0)), 2_000);
    assert_eq!(reconnect.session_lost(Some(30_000)), 500);
    assert_eq!(reconnect.attempt, 1);
}

#[test]
fn describe_task_end_distinguishes_clean_end_from_error_and_panic() {
    let clean = describe_task_end("session", TaskEnd::Clean);
    assert_eq!(clean.task, "session");
    assert!(!clean.failed);
    assert!(describe_task_end("session", TaskEnd::Failed).failed);
    assert!(describe_task_end("session", TaskEnd::Aborted).failed);
}

#[test]
fn check_namespace_consistency_passes_when_common_namespace_matches() {
    let mut cat = catalog_with(vec![track("v", Some(TrackPackaging::Mmtp))], None);
    cat.tracks[0].namespace = Some("bbb".into());
    check_namespace_consistency(&cat, "bbb").expect("matching namespace is OK");
}

#[test]
fn check_namespace_consistency_passes_when_no_common_namespace() {
    let cat = catalog_with(vec![track("v", Some(TrackPackaging::Mmtp))], None);
    check_namespace_consistency(&cat, "anything").expect("no common namespace is OK");
}

#[test]
fn check_namespace_consistency_errors_on_mismatch() {
    let mut cat = catalog_with(vec![track("v", Some(TrackPackaging::Mmtp))], None);
    cat.tracks[0].namespace = Some("foo".into());
    let err = match check_namespace_consistency(&cat, "bar") {
        Err(e) => e,
        Ok(()) => panic!("expected Err on mismatched namespace"),
    };
    assert!(err.describe().contains("namespace"));
    assert_eq!(
        err,
        StateMapError::NamespaceMismatch {
            track: "v".into(),
            namespace: "foo".into(),
            broadcast: "bar".into()
        }
    );
}

#[test]
fn reads_single_frame() {
    let payload = b"hello mmtp";
    let mut wire = Vec::new();
    wire.extend_from_slice(&(payload.len() as u32).to_be_bytes());
    wire.extend_from_slice(payload);
    let (f, end) = read_one_frame(&wire, 0).unwrap().unwrap();
    assert_eq!(f, payload);
    assert_eq!(end, wire.len());
}

#[test]
fn reads_two_frames_in_sequence() {
    let mut wire = Vec::new();
    for p in [b"AAAA".as_slice(), b"BB".as_slice()] {
        write_one_frame(&mut wire, p);
    }
    assert_eq!(&wire[..4], &4u32.to_be_bytes());
    let (first, at) = read_one_frame(&wire, 0).unwrap().unwrap();
    assert_eq!(first, b"AAAA");
    let (second, at) = read_one_frame(&wire, at).unwrap().unwrap();
    assert_eq!(second, b"BB");
    // Stream now drained; next read is clean EOF.
    assert!(read_one_frame(&wire, at).unwrap().is_none());
}

#[test]
fn returns_none_on_clean_eof_before_prefix() {
    assert!(read_one_frame(b"", 0).unwrap().is_none());
}

#[test]
fn errors_on_partial_length_prefix() {
    let err = read_one_frame(&[0x00, 0x00, 0x05], 0).unwrap_err();
    assert!(err.describe().contains("length prefix"), "err = {err:?}");
}

#[test]
fn errors_on_partial_payload() {
    let mut wire = Vec::new();
    wire.extend_from_slice(&10u32.to_be_bytes());
    wire.extend_from_slice(b"abcd");
    let err = read_one_frame(&wire, 0).unwrap_err();
    assert!(err.describe().contains("payload bytes"), "err = {err:?}");
}

#[test]
fn rejects_zero_length_frame() {
    let err = read_one_frame(&0u32.to_be_bytes(), 0).unwrap_err();
    assert!(err.describe().contains("zero-length"), "err = {err:?}");
}

#[test]
fn rejects_oversize_frame() {
    let oversize = (MAX_FRAME_BYTES as u32) + 1;
    let err = read_one_frame(&oversize.to_be_bytes(), 0).unwrap_err();
    assert!(err.describe().contains("MAX_FRAME_BYTES"), "err = {err:?}");
    assert_eq!(
        FrameError::Oversize(200_000).describe(),
        "MMTP frame length 200000 exceeds MAX_FRAME_BYTES=131072"
    );
    assert_eq!(
        FrameError::PartialPayload(10).describe(),
        "reading 10 payload bytes after length prefix"
    );
    assert_eq!(err, FrameError::Oversize(131_073));
    assert_eq!(frame_length(&[0, 2, 0, 0]), Ok(131_072));
}

fn v4(a: u8, b: u8, c: u8, d: u8) -> SocketAddress {
    SocketAddress {
        ip: IpAddress::V4([a, b, c, d]),
        port: 5004,
    }
}

fn v6(first: u16, last: u16) -> SocketAddress {
    let mut octets = [0u8; 16];
    octets[..2].copy_from_slice(&first.to_be_bytes());
    octets[14..].copy_from_slice(&last.to_be_bytes());
    SocketAddress {
        ip: IpAddress::V6(octets),
        port: 5004,
    }
}

#[test]
fn is_multicast_detects_ipv4_multicast_range() {
    assert!(is_multicast(v4(239, 255, 1, 1)));
    assert!(is_multicast(v4(224, 0, 0, 1)));
    assert!(is_multicast(v4(232, 0, 0, 1)));
}

#[test]
fn is_multicast_rejects_unicast_ipv4() {
    assert!(!is_multicast(v4(127, 0, 0, 1)));
    assert!(!is_multicast(v4(10, 0, 0, 1)));
    assert!(!is_multicast(v4(192, 168, 1, 1)));
    assert!(!is_multicast(v4(0, 0, 0, 0)));
}

#[test]
fn is_multicast_detects_ipv6_multicast() {
    assert!(is_multicast(v6(0xff02, 1)));
    assert!(is_multicast(v6(0xff05, 1)));
}

#[test]
fn is_multicast_rejects_unicast_ipv6() {
    assert!(!is_multicast(v6(0, 1)));
    assert!(!is_multicast(v6(0x2001, 1)));
}

#[test]
fn ssm_source_on_unicast_target_binds_unicast() {
    let target = SocketAddress {
        ip: IpAddress::V4([127, 0, 0, 1]),
        port: 0,
    };
    assert_eq!(
        plan_udp_socket(target, Some([203, 0, 113, 7]), None),
        Ok(SocketPlan::Unicast { bind: target })
    );
}

#[test]
fn ssm_source_rejects_ipv6_group() {
    let err = plan_udp_socket(v6(0xff3e, 0x1234), Some([203, 0, 113, 7]), None)
        .expect_err("v6 SSM must error");
    assert_eq!(err, SocketPlanError::SourceSpecificIsIpv4Only);
    assert!(err.describe().contains("IPv4-only"));
}

#[test]
fn multicast_targets_are_joined_with_or_without_a_source() {
    assert_eq!(
        plan_udp_socket(v4(232, 28, 99, 8), Some([203, 0, 113, 7]), None),
        Ok(SocketPlan::SourceSpecific {
            port: 5004,
            group: [232, 28, 99, 8],
            source: [203, 0, 113, 7],
            iface: [0, 0, 0, 0],
        })
    );
    assert_eq!(
        plan_udp_socket(v4(232, 28, 99, 7), None, Some([10, 0, 0, 1])),
        Ok(SocketPlan::AnySourceV4 {
            port: 5004,
            group: [232, 28, 99, 7],
            iface: [10, 0, 0, 1],
        })
    );
    assert!(matches!(
        plan_udp_socket(v6(0xff05, 1), None, None),
        Ok(SocketPlan::AnySourceV6 { port: 5004, .. })
    ));
}

#[test]
fn ignores_flag_when_env_already_installed() {
    assert_eq!(
        flag_exporter_action(true, true, true),
        ExporterAction::Ignore
    );
}

#[test]
fn none_flag_addr_is_a_no_op() {
    assert_eq!(
        flag_exporter_action(false, false, true),
        ExporterAction::Nothing
    );
    assert_eq!(
        flag_exporter_action(true, false, true),
        ExporterAction::Install
    );
    assert_eq!(
        flag_exporter_action(true, false, false),
        ExporterAction::Unavailable
    );
}

#[test]
fn profile_requests_name_what_they_want() {
    assert_eq!(parse_seconds("/debug/pprof/profile"), 30);
    assert_eq!(parse_seconds("/debug/pprof/profile?seconds=5"), 5);
    assert_eq!(parse_seconds("/p?x=1&seconds=7&y=2"), 7);
    assert_eq!(parse_seconds("/p?seconds=0"), 1);
    assert_eq!(parse_seconds("/p?seconds=999"), 120);
    assert_eq!(parse_seconds("/p?seconds=18446744073709551616"), 30);
    assert_eq!(parse_seconds("/p?seconds=soon"), 30);
    assert_eq!(
        capture_route("/debug/pprof/heap?x=1", true),
        ProfileRoute::Heap
    );
    assert_eq!(
        capture_route("/debug/allocator", true),
        ProfileRoute::Allocator
    );
    assert_eq!(
        capture_route("/debug/pprof/heap", false),
        ProfileRoute::Cpu {
            seconds: 30,
            flamegraph: false
        }
    );
    assert_eq!(
        capture_route("/debug/pprof/flamegraph?seconds=2", true),
        ProfileRoute::Cpu {
            seconds: 2,
            flamegraph: true
        }
    );
    assert_eq!(reusable_active_bytes(10, 4), 6);
    assert_eq!(reusable_active_bytes(4, 10), 0);
}
