use bytes::Bytes;
use moq_mmtp::canary::{
    probe_error_outcome, probe_once, probe_result, sleep_before_next, ProbeEnd, ProbeError,
    ProbeFailure,
};
use moq_mmtp::kvp::ExtensionHeaders;
use moq_mmtp::profile::WireProfile;
use moq_mmtp::publisher::udp::{IpAddress, SocketAddress};
use moq_mmtp::quic::{
    accept_settled, address_family, choose_address, classify_incoming, client_negotiation,
    connect_error_outcome, fallback_bind, offered_profiles_label, plan_connect, required_path_mtu, required_profile_label,
    select_wire_profile, server_mismatch, supported_profiles_label, validate_native_profile,
    validate_selected_profile, AddressFamily, Config, ConnectFailure, ConnectRefusal, Incoming,
    ProfileMismatch, ResolveError, Transport, INITIAL_UDP_PAYLOAD_MTU,
};
use moq_mmtp::serve::datagram::{Datagram, Datagrams};
use moq_mmtp::serve::object::SubgroupState;
use moq_mmtp::serve::contents::TrackContents;
use moq_mmtp::serve::subgroup::{Subgroup, Subgroups};
use moq_mmtp::serve::ServeError;
use moq_mmtp::session::subscriber::{RequestId, Subscriber};
use moq_mmtp::session::SessionError;
use moq_mmtp::sub_raw::{
    drain_datagram_track, validate_track_output_pairs, DrainError, PairError, TrackDrain,
};
use moq_mmtp::table::Table;
use moq_mmtp::watch::{State, StateChanged, StateError};

#[test]
fn probe_error_outcome_classifies_known_failure_modes() {
    assert_eq!(
        probe_error_outcome("probe did not complete within 10s"),
        "timeout"
    );
    assert_eq!(
        probe_error_outcome("connect_with_profile(moqt-blockcast-01) failed: refused"),
        "connect_failed"
    );
    assert_eq!(
        probe_error_outcome("SUBSCRIBE failed: Cancel"),
        "subscribe_failed"
    );
    assert_eq!(
        probe_error_outcome(
            "SUBSCRIBE_OK for `v` carried no key 0x40 (history window) under moqt-blockcast-01"
        ),
        "missing_history_window"
    );
    assert_eq!(
        probe_error_outcome("session ended before SUBSCRIBE_OK arrived"),
        "session_failed"
    );
    assert_eq!(probe_error_outcome("something else"), "other");
    assert_eq!(probe_error_outcome(""), "other");
    assert_eq!(probe_error_outcome("sessio"), "other");
    assert_eq!(probe_error_outcome("sesession"), "session_failed");
    assert_eq!(probe_error_outcome("\u{e9}session"), "session_failed");
}

#[test]
fn probes_end_in_one_of_four_ways() {
    assert_eq!(
        probe_result(ProbeEnd::<u64, u8>::Finished(Ok(32)), 1),
        Ok(32)
    );
    assert_eq!(
        probe_result(ProbeEnd::<u64, u8>::Finished(Err(3)), 1),
        Err(ProbeError::Probe(3))
    );
    assert_eq!(
        probe_result(ProbeEnd::<u64, u8>::Abnormal, 1),
        Err(ProbeError::Abnormal)
    );
    assert_eq!(
        probe_result(ProbeEnd::<u64, u8>::Expired, 1),
        Err(ProbeError::DidNotComplete { timeout_seconds: 1 })
    );
    assert_eq!(sleep_before_next(30_000, 1_200), 28_800);
    assert_eq!(sleep_before_next(30_000, 31_000), 0);
}

#[test]
fn a_probe_decodes_the_window_it_was_accepted_with() {
    let probe = |window: Option<u64>| {
        let mut subscriber = Subscriber::new(RequestId::new(0, 10));
        let subscribe = match subscriber.subscribe_open(&"ns".to_string(), &"v".to_string()) {
            Ok(subscribe) => subscribe,
            Err(e) => panic!("{e:?}"),
        };
        let recv = subscriber.subscription(0).unwrap();
        assert_eq!(probe_once(&subscribe, recv, false, None), None);
        assert_eq!(
            probe_once(&subscribe, recv, false, Some(Ok(()))),
            Some(Err(ProbeFailure::SessionEnded))
        );
        assert_eq!(
            probe_once(&subscribe, recv, false, Some(Err(SessionError::Connection))),
            Some(Err(ProbeFailure::SessionFailed))
        );
        assert_eq!(
            probe_once(&subscribe, recv, true, None),
            Some(Err(ProbeFailure::Subscribe(ServeError::Done)))
        );
        subscriber.recv_subscribe_ok(0, 7, window).unwrap();
        probe_once(&subscribe, subscriber.subscription(0).unwrap(), false, None)
    };
    assert_eq!(probe(Some(32)), Some(Ok(32)));
    assert_eq!(
        probe(None),
        Some(Err(ProbeFailure::MissingHistoryWindow))
    );
}

#[test]
fn negotiations_are_counted_by_what_came_of_them() {
    let selected = client_negotiation(
        Transport::RawQuic,
        None,
        WireProfile::Draft19,
        &[WireProfile::Draft19],
    );
    assert_eq!(selected.transport, "raw_quic");
    assert_eq!(selected.outcome, "selected");
    assert_eq!(selected.offered, "moqt-19");
    assert_eq!((selected.supported, selected.required), ("moqt-19", "moqt-19"));
    let failed = client_negotiation(
        Transport::WebTransport,
        Some(ConnectFailure::Other),
        WireProfile::Draft16,
        &[],
    );
    assert_eq!((failed.outcome, failed.supported), ("connect_error", "none"));
    let mismatch = server_mismatch(&["x".to_string()], &[WireProfile::Draft16]);
    assert_eq!(mismatch.transport, "webtransport");
    assert_eq!((mismatch.offered, mismatch.required), ("unknown", "unknown"));
    assert_eq!(
        accept_settled(
            Transport::WebTransport,
            WireProfile::Draft19,
            Some("moqt-19"),
            Some(b"h3")
        ),
        Ok(WireProfile::Draft19)
    );
    assert_eq!(
        accept_settled(
            Transport::RawQuic,
            WireProfile::Draft19,
            Some("moqt-19"),
            None
        ),
        Err(ProfileMismatch::MissingAlpn)
    );
}

#[test]
fn webtransport_requires_exact_selected_protocol() {
    assert_eq!(
        validate_selected_profile(WireProfile::Draft19, Some("moqt-19")).unwrap(),
        WireProfile::Draft19
    );
    assert!(validate_selected_profile(WireProfile::Draft19, Some("moqt-16")).is_err());
    assert!(validate_selected_profile(WireProfile::Draft19, None).is_err());
}

#[test]
fn native_quic_requires_exact_selected_protocol() {
    assert_eq!(
        validate_native_profile(WireProfile::Draft19, Some(b"moqt-19")),
        Ok(WireProfile::Draft19)
    );
    assert_eq!(
        validate_native_profile(WireProfile::Draft19, Some(b"moqt-16")),
        Err(ProfileMismatch::Native {
            required: WireProfile::Draft19,
            selected: WireProfile::Draft16
        })
    );
    assert_eq!(
        validate_native_profile(WireProfile::Draft19, Some(b"h3")),
        Err(ProfileMismatch::UnsupportedAlpn)
    );
    assert_eq!(
        validate_native_profile(WireProfile::Draft19, None),
        Err(ProfileMismatch::MissingAlpn)
    );
}

#[test]
fn webtransport_selects_only_an_exact_common_protocol() {
    let offered = vec!["moqt-19-preview".to_string(), "moqt-16".to_string()];
    assert_eq!(
        select_wire_profile(&offered, &[WireProfile::Draft19, WireProfile::Draft16]),
        Some(WireProfile::Draft16)
    );
    assert_eq!(
        select_wire_profile(&["moqt-19-preview".to_string()], &[WireProfile::Draft19]),
        None
    );
}

#[test]
fn wire_profiles_are_unique_in_preference_order() {
    let bind = SocketAddress {
        ip: IpAddress::V4([127, 0, 0, 1]),
        port: 0,
    };
    let config = Config::new(Some(bind), false).with_wire_profiles(&[
        WireProfile::Draft19,
        WireProfile::Draft16,
        WireProfile::Draft19,
    ]);

    assert_eq!(
        config.wire_profiles,
        vec![WireProfile::Draft19, WireProfile::Draft16]
    );
    assert_eq!(
        config.server_alpns(b"h3"),
        Some(vec![
            b"h3".to_vec(),
            b"moqt-19".to_vec(),
            b"moqt-16".to_vec()
        ])
    );
    assert_eq!(config.with_wire_profiles(&[]).server_alpns(b"h3"), None);
    let tagged = Config::new(None, true)
        .with_tag("a".into())
        .with_tag("b".into())
        .with_tag("a".into());
    assert_eq!(tagged.tags, vec!["a".to_string(), "b".to_string()]);
    assert_eq!(tagged.wire_profiles, vec![WireProfile::Draft16]);
}

/// What the transport's error says, as far as it matters here.
fn failure(error: &quinn::ConnectionError) -> ConnectFailure {
    match error {
        quinn::ConnectionError::TransportError(e) => ConnectFailure::TransportError {
            code: u64::from(e.code),
        },
        _ => ConnectFailure::Other,
    }
}

#[test]
fn only_no_application_protocol_is_a_negotiation_mismatch() {
    let mismatch =
        quinn::ConnectionError::TransportError(quinn::TransportErrorCode::crypto(120).into());

    assert_eq!(connect_error_outcome(&failure(&mismatch)), "mismatch");
    assert_eq!(
        connect_error_outcome(&failure(&quinn::ConnectionError::TimedOut)),
        "connect_error"
    );
}

#[test]
fn labels_name_what_was_offered_and_spoken() {
    let offered = |names: &[&str]| names.iter().map(|n| n.to_string()).collect::<Vec<_>>();
    assert_eq!(required_profile_label(&offered(&[])), "none");
    assert_eq!(required_profile_label(&offered(&["moqt-19"])), "moqt-19");
    assert_eq!(required_profile_label(&offered(&["x"])), "unknown");
    assert_eq!(
        required_profile_label(&offered(&["moqt-19", "moqt-16"])),
        "multiple"
    );
    assert_eq!(
        supported_profiles_label(&[WireProfile::Draft16, WireProfile::Draft19]),
        "moqt-19+moqt-16"
    );
    assert_ne!(
        offered_profiles_label(&offered(&["moqt-19"])),
        offered_profiles_label(&offered(&["moqt-16"]))
    );
}

#[test]
fn connections_are_planned_from_the_url() {
    let enabled = [WireProfile::Draft19];
    let native = plan_connect(&enabled, WireProfile::Draft19, "moqt", None, b"h3").unwrap();
    assert_eq!(native.transport, Transport::RawQuic);
    assert_eq!(native.alpn, b"moqt-19".to_vec());
    assert_eq!(native.port, 443);
    let web = plan_connect(&enabled, WireProfile::Draft19, "https", Some(4443), b"h3").unwrap();
    assert_eq!(web.transport, Transport::WebTransport);
    assert_eq!((web.alpn, web.port), (b"h3".to_vec(), 4443));
    assert_eq!(
        plan_connect(&enabled, WireProfile::Draft19, "ftp", None, b"h3").err(),
        Some(ConnectRefusal::UnsupportedScheme)
    );
    assert_eq!(
        plan_connect(&enabled, WireProfile::Draft16, "moqt", None, b"h3").err(),
        Some(ConnectRefusal::ProfileNotEnabled {
            required: WireProfile::Draft16
        })
    );
    assert_eq!(classify_incoming(b"h3", b"h3"), Incoming::WebTransport);
    assert_eq!(
        classify_incoming(b"moqt-19", b"h3"),
        Incoming::Raw(WireProfile::Draft19)
    );
    assert_eq!(classify_incoming(b"http/1.1", b"h3"), Incoming::Unsupported);
}

#[test]
fn addresses_are_chosen_by_family() {
    let v4 = SocketAddress {
        ip: IpAddress::V4([192, 0, 2, 1]),
        port: 443,
    };
    let v6 = SocketAddress {
        ip: IpAddress::V6([0; 16]),
        port: 0,
    };
    assert_eq!(address_family(v4, true), AddressFamily::Ipv4);
    assert_eq!(address_family(v6, true), AddressFamily::Ipv6DualStack);
    assert_eq!(address_family(v6, false), AddressFamily::Ipv6);
    assert_eq!(choose_address(&[v6, v4], AddressFamily::Ipv4), Ok(v4));
    assert_eq!(choose_address(&[v4, v6], AddressFamily::Ipv6), Ok(v6));
    assert_eq!(
        choose_address(&[v6], AddressFamily::Ipv4),
        Err(ResolveError::NoIpv4)
    );
    assert_eq!(
        choose_address(&[v4], AddressFamily::Ipv6),
        Err(ResolveError::NoIpv6)
    );
    assert_eq!(
        choose_address(&[], AddressFamily::Ipv4),
        Err(ResolveError::NoAddresses)
    );
    assert_eq!(
        fallback_bind(v6).map(|a| (a.ip, a.port)),
        Some((IpAddress::V4([0, 0, 0, 0]), 0))
    );
    assert_eq!(fallback_bind(v4), None);
    assert_eq!(INITIAL_UDP_PAYLOAD_MTU, 1280);
    assert_eq!(required_path_mtu(&v4.ip), 1308);
    assert_eq!(required_path_mtu(&v6.ip), 1328);
}

#[test]
fn validate_pairs_errors_when_no_args() {
    let err = validate_track_output_pairs(&[], &[]).unwrap_err();
    assert!(err.describe().contains("at least one"));
}

#[test]
fn validate_pairs_errors_on_count_mismatch() {
    let tracks = vec!["v".to_string(), "a".to_string()];
    let outputs = vec!["v.bin".to_string()];
    let err = validate_track_output_pairs(&tracks, &outputs).unwrap_err();
    assert!(err.describe().contains("does not match"));
    assert_eq!(
        err.describe(),
        "--track count 2 does not match --output count 1 (pair them positionally)"
    );
    assert_eq!(
        err,
        PairError::CountMismatch {
            tracks: 2,
            outputs: 1
        }
    );
}

#[test]
fn validate_pairs_passes_on_matched_counts() {
    let tracks = vec!["v".to_string(), "a".to_string()];
    let outputs = vec!["v.bin".to_string(), "a.bin".to_string()];
    validate_track_output_pairs(&tracks, &outputs).expect("matched counts OK");
}

fn subgroup(group_id: u64) -> Subgroup {
    Subgroup {
        group_id,
        subgroup_id: 0,
        priority: 0,
    }
}

/// Adds a subgroup with these objects to the contents of a track.
fn write_group(contents: &mut TrackContents, group_id: u64, payloads: &[&'static [u8]]) {
    let place = contents.len();
    let mut writer = contents.open(subgroup(group_id));
    let mut largest = None;
    for payload in payloads {
        writer
            .write(
                contents.group_mut(place),
                &mut largest,
                Bytes::from_static(payload),
            )
            .unwrap();
    }
    contents.group_mut(place).drop_side();
}

#[test]
fn drain_concatenates_object_payloads_in_arrival_order() {
    let (mut track, mut writer, reader) = Subgroups {}.produce();
    writer.append(&mut track, 0).expect("create subgroup");
    let mut contents = TrackContents::new();
    write_group(&mut contents, 0, &[b"alpha", b"beta", b"gamma"]);
    track.drop_side();

    let mut buf: Vec<u8> = Vec::new();
    let mut drain = TrackDrain::new(reader, &track);
    let n = drain
        .drain(&mut track, &contents, &mut buf)
        .expect("drain ok");
    assert_eq!(n, b"alphabetagamma".len());
    assert_eq!(buf, b"alphabetagamma");
}

#[test]
fn drain_concatenates_across_multiple_groups() {
    let (mut track, mut writer, reader) = Subgroups {}.produce();
    let mut contents = TrackContents::new();
    for (group_id, payload) in [(0, &b"first-mpu-bytes"[..]), (1, &b"second-mpu-bytes"[..])] {
        writer
            .create(&mut track, subgroup(group_id))
            .expect("group");
        write_group(&mut contents, group_id, &[payload]);
    }
    track.drop_side();

    let mut buf: Vec<u8> = Vec::new();
    let mut drain = TrackDrain::new(reader, &track);
    drain
        .drain(&mut track, &contents, &mut buf)
        .expect("drain ok");
    assert_eq!(buf, b"first-mpu-bytessecond-mpu-bytes");
}

#[test]
fn drain_stops_at_what_has_not_ended() {
    let (mut track, mut writer, reader) = Subgroups {}.produce();
    for _ in 0..2 {
        writer.append(&mut track, 0).expect("create subgroup");
    }
    let mut contents = TrackContents::new();
    write_group(&mut contents, 0, &[b"head-"]);
    let mut group_writer = contents.open(subgroup(1));
    let mut largest = None;
    group_writer
        .write(
            contents.group_mut(1),
            &mut largest,
            Bytes::from_static(b"tail"),
        )
        .unwrap();
    let mut drain = TrackDrain::new(reader, &track);

    let mut buf: Vec<u8> = Vec::new();
    assert_eq!(
        drain.drain(&mut track, &contents, &mut buf),
        Err(DrainError::Unfinished)
    );
    assert_eq!(buf, b"head-tail");
    contents.prune(&track);
    assert_eq!(contents.given_up(), 0, "a reader may be in the last one");

    group_writer
        .write(
            contents.group_mut(1),
            &mut largest,
            Bytes::from_static(b"-more"),
        )
        .unwrap();
    assert_eq!(
        drain.drain(&mut track, &contents, &mut buf),
        Err(DrainError::Unfinished)
    );
    assert_eq!(buf, b"head-tail-more", "draining goes on where it stopped");

    for group_id in 2..4 {
        writer.append(&mut track, 0).unwrap();
        write_group(&mut contents, group_id, &[b"rest"]);
    }
    group_writer
        .close(contents.group_mut(1), ServeError::Closed(3))
        .unwrap();
    assert_eq!(
        drain.drain(&mut track, &contents, &mut buf),
        Err(DrainError::Serve(ServeError::Closed(3)))
    );
    assert_eq!(buf, b"head-tail-more");
}

#[test]
fn contents_are_given_up_behind_the_readers() {
    let (mut track, mut writer, reader) = Subgroups {}.produce();
    let mut contents = TrackContents::new();
    let mut drain = TrackDrain::new(reader, &track);
    let mut buf: Vec<u8> = Vec::new();
    for group_id in 0..5 {
        writer.append(&mut track, 0).unwrap();
        write_group(&mut contents, group_id, &[b"x"]);
        assert_eq!(
            drain.drain(&mut track, &contents, &mut buf),
            Err(DrainError::Unfinished)
        );
        contents.prune(&track);
    }
    assert_eq!(buf, b"xxxxx");
    assert_eq!((contents.len(), contents.given_up()), (5, 3));
    assert!(contents.get(2).is_none());
    assert_eq!(contents.get(3).unwrap().info(), subgroup(3));
    assert!(contents.get(5).is_none());
}

#[test]
fn drain_writes_zero_bytes_on_empty_track() {
    let (mut track, _writer, reader) = Subgroups {}.produce();
    track.drop_side();

    let mut buf: Vec<u8> = Vec::new();
    let mut drain = TrackDrain::new(reader, &track);
    let n = drain
        .drain(&mut track, &TrackContents::new(), &mut buf)
        .expect("drain ok");
    assert_eq!(n, 0);
    assert!(buf.is_empty());
}

#[test]
fn drain_concatenates_datagram_payloads_in_arrival_order() {
    let (mut track, mut datagrams, mut reader) = Datagrams {}.produce_with_depth(8);
    for (group_id, payload) in [(0u64, "alpha"), (1, "beta"), (2, "gamma")] {
        datagrams
            .write(
                &mut track,
                Datagram {
                    group_id,
                    object_id: 0,
                    priority: 0,
                    payload: Bytes::from_static(payload.as_bytes()),
                    extension_headers: ExtensionHeaders::default(),
                },
            )
            .expect("write datagram");
    }

    let mut buf: Vec<u8> = Vec::new();
    assert_eq!(
        drain_datagram_track(&mut reader.clone(), &track, &mut Vec::new()),
        Err(DrainError::Unfinished)
    );
    track.drop_side();
    let n = drain_datagram_track(&mut reader, &track, &mut buf).expect("drain ok");
    assert_eq!(n, b"alphabetagamma".len());
    assert_eq!(buf, b"alphabetagamma");

    let (mut failed, datagrams, mut reader) = Datagrams {}.produce();
    datagrams.close(&mut failed, ServeError::Closed(4)).unwrap();
    assert_eq!(
        drain_datagram_track(&mut reader, &failed, &mut buf),
        Err(DrainError::Serve(ServeError::Closed(4)))
    );
}

/// What there is to wait for in a cell.
fn watch(state: State<u32>) -> (State<u32>, StateChanged) {
    let guard = state.lock();
    let changed = guard.modified().expect("live");
    (guard.release(), changed)
}

/// Changes a cell, and gives the tasks that are woken for it.
fn change(state: State<u32>, value: u32) -> (State<u32>, Vec<u64>) {
    match state.lock_mut() {
        Ok(mut guard) => {
            guard.set(value);
            guard.release()
        }
        Err(_) => panic!("live"),
    }
}

#[test]
fn idempotent_repoll_still_wakes() {
    let (mut state, changed) = watch(State::new(0u32));

    assert!(!changed.poll(&mut state, 1)); // registers
    assert!(!changed.poll(&mut state, 1)); // is registered

    let (mut state, woken) = change(state, 1);
    assert_eq!(woken, vec![1], "registered waker not woken after change");
    assert!(changed.poll(&mut state, 1));
    assert_eq!(*state.lock().get(), 1);
}

#[test]
fn multi_waiter_none_dropped() {
    let (state, fa) = watch(State::new(0u32));
    let (mut state, fb) = watch(state);

    assert!(!fa.poll(&mut state, 1));
    assert!(!fb.poll(&mut state, 2));
    // Polling A again must not disturb B's registration.
    assert!(!fa.poll(&mut state, 1));

    let (_state, woken) = change(state, 1);
    assert!(woken.contains(&1), "waiter A lost its wakeup");
    assert!(woken.contains(&2), "waiter B lost its wakeup");
    assert_eq!(woken.len(), 2);
}

#[test]
fn changed_waker_identity_still_wakes_latest() {
    let (mut state, changed) = watch(State::new(0u32));

    assert!(!changed.poll(&mut state, 1));
    assert!(!changed.poll(&mut state, 2));

    let (_state, woken) = change(state, 1);
    assert!(
        woken.contains(&2),
        "latest waker not woken (lost wakeup on waker-identity change)"
    );
}

#[test]
fn repeated_repoll_does_not_grow_wakers() {
    let (mut state, changed) = watch(State::new(0u32));
    for _ in 0..64 {
        assert!(!changed.poll(&mut state, 1));
    }
    let (_state, woken) = change(state, 1);
    assert_eq!(woken.len(), 1, "waker list grew under repeated polls");
}

#[test]
fn drop_wakes_waiters() {
    let (mut state, changed) = watch(State::new(0u32));
    assert!(!changed.poll(&mut state, 1));

    let woken = state.drop_handle(0);
    assert_eq!(woken, vec![1], "waiter not woken on state drop");
    assert!(changed.poll(&mut state, 1));
}

#[test]
fn a_cell_ends_when_a_side_is_gone() {
    let (mut state, side) = State::new(0u32).split();
    assert_eq!(side, 1);
    state.clone_handle(side);
    let weak = state.downgrade(side);
    assert!(weak.upgrade(&mut state));
    for _ in 0..2 {
        state.drop_handle(side);
        state = change(state, 1).0;
    }
    state.drop_handle(side);
    assert!(!weak.upgrade(&mut state));
    let guard = state.lock();
    assert!(guard.modified().is_none());
    let mut state = match guard.into_mut() {
        Ok(_) => panic!("a side is gone"),
        Err(state) => state,
    };
    assert!(matches!(State::new(1u32).try_lock_mut(), Ok(Ok(_))));
    state.poison();
    let Err((StateError::Poisoned, state)) = state.try_lock() else {
        panic!("a holder of a guard has failed");
    };
    assert!(matches!(
        state.try_lock_mut(),
        Err((StateError::Poisoned, _))
    ));
}

#[test]
fn a_failed_cell_stays_as_it_is_when_its_sides_go() {
    let (state, changed) = watch(State::new(7u32));
    let (state, second) = state.split();
    let (mut state, third) = state.split();
    assert_eq!((second, third), (1, 2));
    assert!(!changed.poll(&mut state, 1));
    state.poison();
    for side in 0..3 {
        assert!(state.drop_handle(side).is_empty(), "nobody is woken");
    }

    let (state, changed) = watch(State::new(7u32));
    let (state, _) = state.split();
    let (mut state, third) = state.split();
    assert!(!changed.poll(&mut state, 1));
    assert_eq!(state.drop_handle(third), vec![1], "any side ends the cell");
}

#[test]
fn tables_hold_one_value_under_each_number() {
    let mut table: Table<u64> = Table::new();
    assert!(table.is_empty());
    assert_eq!(table.insert(1, 10), None);
    assert_eq!(table.insert(2, 20), None);
    assert_eq!(table.insert(1, 30), Some(10));
    assert_eq!(table.len(), 2);
    assert_eq!(table.get(1), Some(&30));
    table.insert(3, 20);
    table.remove_target(20);
    assert_eq!(table.remove(2), None);
    assert_eq!(table.take_any(), Some((1, 30)));
    assert_eq!(table.take_any(), None);
}
