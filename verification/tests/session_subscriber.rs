use bytes::Bytes;
use moq_mmtp::kvp::{ExtensionHeaders, KeyValuePairs, Value};
use moq_mmtp::serve::contents::TrackContents;
use moq_mmtp::serve::object::{ObjectStatus, SubgroupReader};
use moq_mmtp::serve::{ReadOutcome, ServeError};
use moq_mmtp::session::receive::{ObjectHeader, StreamHeaderType, SubgroupReceiver};
use moq_mmtp::session::subscribe::{
    FilterType, GroupOrder, Location, ReceivedDatagram, SubgroupHeader, SubscribeInfo,
    SubscribeRecv, SubscribeRequest, TrackWriterMode,
};
use moq_mmtp::session::subscriber::{
    AliasBinding, AnswerRoute, ControlMessage, PublishMessage, PublishOutcome, PublisherMessage,
    RequestErrorCode, RequestId, RequestIdAllocation, Subscriber,
};
use moq_mmtp::session::SessionError;
use moq_mmtp::sub_raw::DrainError;
use moq_mmtp::wire::DecodeError;

fn subscriber() -> Subscriber {
    Subscriber::new(RequestId::new(0, 100))
}

fn name(text: &str) -> String {
    text.to_string()
}

#[test]
fn request_ok_routes_to_pending_track_status() {
    let mut subscriber = subscriber();
    subscriber.track_status(&name("test"), &name("0.mp4"));
    assert!(subscriber.awaits_track_status(0));

    assert_eq!(subscriber.recv_request_ok(0), AnswerRoute::TrackStatus);
    assert!(!subscriber.awaits_track_status(0));
    assert_eq!(subscriber.recv_request_ok(0), AnswerRoute::Unknown);
}

#[test]
fn request_error_routes_to_pending_track_status() {
    let mut subscriber = subscriber();
    subscriber.track_status(&name("test"), &name("0.mp4"));
    assert!(subscriber.awaits_track_status(0));

    let route = subscriber.recv_request_error(0, 0x10).unwrap();
    assert_eq!(route, AnswerRoute::TrackStatus);
    assert!(!subscriber.awaits_track_status(0));
}

#[test]
fn subscribe_open_cleans_up_when_cancelled_before_ok() {
    let mut subscriber = subscriber();
    let subscribe = match subscriber.subscribe_open(&name("test"), &name("0.mp4")) {
        Ok(subscribe) => subscribe,
        Err(err) => panic!("subscribe failed: {err:?}"),
    };
    let recv = subscriber.subscription(0).unwrap();
    assert_eq!(subscribe.ok(recv, false), None, "still pending");
    assert_eq!(subscriber.subscription_count(), 1);

    subscriber.unsubscribe(subscribe.info.id);
    assert_eq!(subscriber.subscription_count(), 0);
    assert_eq!(subscriber.resolve_alias(10), None);
    let outgoing = subscriber.take_outgoing();
    assert!(matches!(outgoing[0], ControlMessage::Subscribe(_)));
    assert!(matches!(outgoing[1], ControlMessage::Unsubscribe { id: 0 }));
}

#[test]
fn dropping_open_subscribe_removes_recv_state() {
    let mut subscriber = subscriber();
    let subscribe = match subscriber.subscribe_open(&name("test"), &name("0.mp4")) {
        Ok(subscribe) => subscribe,
        Err(err) => panic!("subscribe failed: {err:?}"),
    };
    assert_eq!(subscriber.subscription_count(), 1);

    subscriber.recv_subscribe_ok(0, 10, None).unwrap();
    assert_eq!(
        subscribe.ok(subscriber.subscription(0).unwrap(), false),
        Some(Ok(()))
    );
    assert_eq!(subscriber.subscription_count(), 1);
    assert_eq!(
        subscriber.resolve_alias(10),
        Some(AliasBinding::Subscribe(0))
    );
    assert_eq!(subscriber.get_subscribe_id_by_alias(10), Some(0));

    subscriber.unsubscribe(subscribe.info.id);
    assert_eq!(subscriber.subscription_count(), 0);
    assert_eq!(subscriber.resolve_alias(10), None);
}

#[test]
fn a_refused_subscription_learns_the_code() {
    let mut subscriber = subscriber();
    let subscribe = match subscriber.subscribe_open(&name("test"), &name("0.mp4")) {
        Ok(subscribe) => subscribe,
        Err(err) => panic!("subscribe failed: {err:?}"),
    };
    assert_eq!(
        subscriber.recv_request_error(0, 0x10),
        Ok(AnswerRoute::Subscribe)
    );
    assert!(!subscriber.is_subscribed(0));
    let ended = subscriber.take_ended();
    assert_eq!(ended.len(), 1);
    assert_eq!(ended[0].0, 0);
    assert_eq!(
        subscribe.closed(&ended[0].1, true),
        Some(Err(ServeError::Closed(0x10)))
    );
    assert_eq!(
        subscribe.ok(&ended[0].1, true),
        Some(Err(ServeError::Closed(0x10)))
    );
    // The track may be asked for again.
    assert!(subscriber
        .subscribe_open(&name("test"), &name("0.mp4"))
        .is_ok());
}

#[test]
fn a_track_is_subscribed_to_once() {
    let mut subscriber = subscriber();
    assert!(subscriber.subscribe_open(&name("ns"), &name("v")).is_ok());
    assert!(matches!(
        subscriber.subscribe_open(&name("ns"), &name("v")),
        Err(ServeError::Duplicate)
    ));
    // The refused one has used up a number.
    match subscriber.subscribe_open(&name("ns"), &name("a")) {
        Ok(subscribe) => assert_eq!(subscribe.info.id, 4),
        Err(err) => panic!("subscribe failed: {err:?}"),
    }
    subscriber.recv_subscribe_ok(0, 7, Some(4)).unwrap();
    assert_eq!(
        subscriber.recv_subscribe_ok(4, 7, None),
        Err(SessionError::Duplicate),
        "an alias belongs to one subscription"
    );
    assert_eq!(
        subscriber.recv_subscribe_ok(0, 8, None),
        Err(SessionError::Serve(ServeError::Duplicate)),
        "a subscription is accepted once"
    );
}

fn publish(id: u64, track_alias: u64, track_name: &str) -> PublishMessage {
    PublishMessage {
        id,
        track_alias,
        track_namespace: name("ns"),
        track_name: name(track_name),
        has_track_extensions: false,
        forward: Ok(None),
        largest_object: Ok(None),
    }
}

#[test]
fn published_tracks_are_bound_at_once() {
    let mut subscriber = subscriber();
    assert_eq!(
        subscriber.recv_publish(&publish(1, 5, "v"), true),
        Ok(PublishOutcome::Queued)
    );
    assert_eq!(
        subscriber.resolve_alias(5),
        Some(AliasBinding::Publish(1))
    );
    let recv = subscriber.published_track_recv(1).unwrap();
    assert!(recv.forward);
    assert!(subscriber.take_published_track_reader(1));
    assert!(!subscriber.take_published_track_reader(1));

    assert_eq!(
        subscriber.recv_publish(&publish(3, 5, "a"), true),
        Err(SessionError::Duplicate)
    );
    assert_eq!(
        subscriber.recv_publish(&publish(3, 6, "v"), true),
        Ok(PublishOutcome::Refused)
    );
    let mut extended = publish(5, 7, "b");
    extended.has_track_extensions = true;
    assert_eq!(
        subscriber.recv_publish(&extended, true),
        Ok(PublishOutcome::Refused)
    );
    let mut garbled = publish(7, 8, "c");
    garbled.forward = Err(DecodeError::InvalidUtf8);
    assert_eq!(
        subscriber.recv_publish(&garbled, true),
        Err(SessionError::Decode(DecodeError::InvalidUtf8))
    );
    assert_eq!(
        subscriber.recv_publish(&publish(9, 9, "d"), false),
        Ok(PublishOutcome::Unheard)
    );
    assert_eq!(subscriber.resolve_alias(9), None);
    let outgoing = subscriber.take_outgoing();
    assert!(matches!(
        outgoing[0],
        ControlMessage::RequestError {
            id: 3,
            error_code: RequestErrorCode::DuplicateSubscription,
            retry_interval: 0,
            reason: "duplicate subscription"
        }
    ));
    assert!(matches!(
        outgoing[1],
        ControlMessage::RequestError {
            id: 5,
            error_code: RequestErrorCode::NotSupported,
            retry_interval: 0,
            reason: "track extensions not supported"
        }
    ));
    assert!(matches!(
        outgoing[2],
        ControlMessage::RequestError {
            id: 9,
            error_code: RequestErrorCode::Cancelled,
            retry_interval: 0,
            ..
        }
    ));
    assert_eq!(outgoing.len(), 3);

    subscriber.recv_publish(&publish(11, 11, "e"), true).unwrap();
    subscriber.remove_published_track(11);
    assert_eq!(subscriber.resolve_alias(11), None);

    subscriber.recv_publish_done(1, 2).unwrap();
    assert_eq!(subscriber.resolve_alias(5), None);
    let done = subscriber.take_done_tracks();
    assert_eq!((done[0].0, done[0].1.done), (1, Some(2)));
}

#[test]
fn updates_are_answered() {
    let mut subscriber = subscriber();
    subscriber.recv_publish(&publish(1, 5, "v"), true).unwrap();
    assert_eq!(subscriber.send_request_update_for_publish(1, false), Ok(0));
    assert_eq!(subscriber.send_request_update_for_publish(1, true), Ok(2));
    assert_eq!(subscriber.recv_request_ok(0), AnswerRoute::RequestUpdate);
    assert_eq!(
        subscriber.recv_request_error(2, 9),
        Ok(AnswerRoute::RequestUpdate)
    );
    assert_eq!(
        subscriber.take_update_results(),
        vec![(0, Ok(())), (2, Err(ServeError::Closed(9)))]
    );
}

#[test]
fn requests_stop_at_the_limit() {
    let mut ids = RequestId::new(0, 3);
    assert_eq!(ids.allocate(), RequestIdAllocation::Allocated(0));
    assert_eq!(ids.allocate(), RequestIdAllocation::Allocated(2));
    assert_eq!(
        ids.allocate(),
        RequestIdAllocation::Blocked {
            limit: 3,
            report: true
        }
    );
    assert_eq!(
        ids.allocate(),
        RequestIdAllocation::Blocked {
            limit: 3,
            report: false
        }
    );

    let mut subscriber = Subscriber::new(RequestId::new(0, 0));
    subscriber.track_status(&name("ns"), &name("v"));
    assert!(subscriber.subscribe_open(&name("ns"), &name("v")).is_err());
    let outgoing = subscriber.take_outgoing();
    assert_eq!(outgoing.len(), 1, "the limit is reported once");
    assert!(matches!(
        outgoing[0],
        ControlMessage::RequestsBlocked { limit: 0 }
    ));
}

#[test]
fn namespaces_are_announced_once() {
    let mut subscriber = subscriber();
    assert_eq!(
        subscriber.recv_publish_namespace(1, &name("a"), true),
        Ok(true)
    );
    assert_eq!(
        subscriber.recv_publish_namespace(3, &name("a"), true),
        Err(SessionError::Duplicate)
    );
    assert_eq!(
        subscriber.recv_publish_namespace(3, &name("b"), false),
        Ok(false)
    );
    assert_eq!(subscriber.recv_publish_namespace_done(3), None);
    assert_eq!(subscriber.recv_publish_namespace_done(1), Some(name("a")));
    assert_eq!(
        subscriber.recv_publish_namespace(5, &name("a"), true),
        Ok(true)
    );
    assert_eq!(subscriber.cancel_publish_namespace(5), Some(name("a")));
    let outgoing = subscriber.take_outgoing();
    assert!(matches!(
        outgoing[0],
        ControlMessage::RequestError {
            id: 3,
            error_code: RequestErrorCode::Cancelled,
            ..
        }
    ));
    assert!(matches!(
        outgoing[1],
        ControlMessage::PublishNamespaceCancel { id: 5 }
    ));
    assert_eq!(outgoing.len(), 2);
}

#[test]
fn messages_reach_their_handlers() {
    let mut subscriber = subscriber();
    assert!(subscriber.subscribe_open(&name("ns"), &name("v")).is_ok());
    subscriber
        .recv_message(
            PublisherMessage::SubscribeOk {
                id: 0,
                track_alias: 4,
                history_window_groups: Some(8),
            },
            true,
        )
        .unwrap();
    assert_eq!(
        subscriber.resolve_alias(4),
        Some(AliasBinding::Subscribe(0))
    );
    subscriber
        .recv_message(PublisherMessage::Publish(publish(1, 5, "a")), true)
        .unwrap();
    subscriber
        .recv_message(PublisherMessage::FetchOk { id: 1 }, true)
        .unwrap();
    subscriber
        .recv_message(
            PublisherMessage::PublishNamespace {
                id: 7,
                namespace: name("n"),
            },
            true,
        )
        .unwrap();
    subscriber
        .recv_message(PublisherMessage::PublishNamespaceDone { id: 7 }, true)
        .unwrap();
    subscriber
        .recv_message(PublisherMessage::RequestOk { id: 9 }, true)
        .unwrap();
    subscriber
        .recv_message(
            PublisherMessage::RequestError {
                id: 9,
                error_code: 1,
            },
            true,
        )
        .unwrap();
    subscriber
        .recv_message(
            PublisherMessage::PublishDone {
                id: 0,
                status_code: 3,
            },
            true,
        )
        .unwrap();
    assert_eq!(subscriber.resolve_alias(4), None);
    assert_eq!(
        subscriber.take_ended()[0].1.closed,
        Err(ServeError::Closed(3))
    );
}

fn header(track_alias: u64, subgroup_id: Option<u64>) -> SubgroupHeader {
    SubgroupHeader {
        track_alias,
        group_id: 6,
        subgroup_id,
        publisher_priority: 3,
    }
}

fn datagram(track_alias: u64, group_id: u64) -> ReceivedDatagram {
    ReceivedDatagram {
        track_alias,
        group_id,
        object_id: None,
        publisher_priority: 1,
        payload: Some(Bytes::from_static(b"d")),
        extension_headers: None,
    }
}

fn subscribed() -> Subscriber {
    let mut subscriber = subscriber();
    assert!(subscriber.subscribe_open(&name("ns"), &name("v")).is_ok());
    subscriber.recv_subscribe_ok(0, 4, Some(2)).unwrap();
    subscriber
}

#[test]
fn datagrams_reach_their_track() {
    let mut subscriber = subscribed();
    for group_id in 0..3 {
        subscriber.recv_datagram(datagram(4, group_id)).unwrap();
    }
    subscriber.recv_datagram(datagram(99, 0)).unwrap();
    let recv = subscriber.subscription(0).unwrap();
    let TrackWriterMode::Datagrams { state, .. } = &recv.sink.mode else {
        panic!("the track is written as datagrams");
    };
    let mut reader = moq_mmtp::serve::datagram::DatagramsReader::start();
    let mut got = Vec::new();
    while let ReadOutcome::Item(d) = reader.read(state) {
        got.push((d.group_id, d.object_id, d.priority));
    }
    assert_eq!(got, vec![(1, 0, 1), (2, 0, 1)], "the window is two deep");
    assert_eq!(reader.dropped(), 1);
    assert_eq!(
        subscriber.open_subgroup(AliasBinding::Subscribe(0), header(4, None)),
        Err(SessionError::Serve(ServeError::Mode))
    );
    assert_eq!(
        subscriber.recv_datagram(datagram(4, 3)),
        Err(SessionError::Serve(ServeError::Done)),
        "the failed stream ended the writing"
    );
}

fn header_type(first_object: bool) -> StreamHeaderType {
    StreamHeaderType {
        is_subgroup: true,
        has_extension_headers: false,
        uses_first_object_id_as_subgroup_id: first_object,
    }
}

fn object(object_id_delta: u64, payload_length: usize) -> ObjectHeader {
    ObjectHeader {
        object_id_delta,
        payload_length,
        status: None,
        extension_headers: None,
    }
}

fn receiver(first_object: bool) -> SubgroupReceiver {
    match SubgroupReceiver::new(
        header_type(first_object),
        Some(header(4, None)),
        Some(AliasBinding::Subscribe(0)),
    ) {
        Ok(receiver) => receiver,
        Err(e) => panic!("{e:?}"),
    }
}

#[test]
fn objects_of_a_stream_reach_their_track() {
    let mut subscriber = subscribed();
    let mut contents = TrackContents::new();
    let mut receiver = receiver(true);
    assert!(receiver.place().is_none());
    receiver
        .recv_object(&mut subscriber, &mut contents, object(5, 3))
        .unwrap();
    assert_eq!(receiver.place(), Some(0));
    let mut drain = subscriber.read_track(0).expect("a track of subgroups");
    let mut out = Vec::new();
    receiver
        .recv_chunk(&mut contents, Some(Bytes::from_static(b"ab")))
        .unwrap();
    assert_eq!(receiver.remaining(), 1);
    assert_eq!(
        subscriber.drain_track(0, &mut drain, &contents, &mut out),
        Some(Err(DrainError::Unfinished))
    );
    assert_eq!(out, b"ab", "a reader of the track gets what was received");
    receiver
        .recv_chunk(&mut contents, Some(Bytes::from_static(b"c")))
        .unwrap();
    receiver
        .recv_object(&mut subscriber, &mut contents, object(0, 2))
        .unwrap();
    receiver
        .recv_chunk(&mut contents, Some(Bytes::from_static(b"de")))
        .unwrap();
    receiver
        .recv_object(&mut subscriber, &mut contents, object(0, 0))
        .unwrap();

    let group = contents.get(0).unwrap();
    assert_eq!((group.info().group_id, group.info().subgroup_id), (6, 5));
    let mut reader = SubgroupReader::start();
    let mut got = Vec::new();
    for _ in 0..3 {
        match reader.read_next(group) {
            ReadOutcome::Item(payload) => got.push(payload),
            _ => panic!("the objects are whole"),
        }
    }
    assert_eq!(
        got,
        vec![
            Bytes::from_static(b"abc"),
            Bytes::from_static(b"de"),
            Bytes::new()
        ]
    );
    assert!(matches!(reader.read_next(group), ReadOutcome::Pending));
    receiver.finish(&mut contents);
    assert!(matches!(
        reader.read_next(contents.get(0).unwrap()),
        ReadOutcome::End
    ));
    assert_eq!(
        subscriber.drain_track(0, &mut drain, &contents, &mut out),
        Some(Err(DrainError::Unfinished))
    );
    assert_eq!(out, b"abcde");
    assert_eq!(
        subscriber.drain_track(9, &mut drain, &contents, &mut out),
        None
    );
    assert!(subscriber.read_track(9).is_none());
    let recv = subscriber.subscription(0).unwrap();
    let TrackWriterMode::Subgroups { state, .. } = &recv.sink.mode else {
        panic!("the track is written as subgroups");
    };
    assert_eq!(state.retained(), 1);
    assert_eq!(
        state.largest_location(),
        Some((6, 2)),
        "objects are numbered as they come"
    );
    subscriber.finish_stream(4, Ok(())).unwrap();
    assert!(subscriber.is_subscribed(0));
}

#[test]
fn a_stream_that_ends_within_an_object_closes_it() {
    let mut subscriber = subscribed();
    let mut contents = TrackContents::new();
    let mut stream = receiver(false);
    stream
        .recv_object(&mut subscriber, &mut contents, object(0, 3))
        .unwrap();
    stream
        .recv_chunk(&mut contents, Some(Bytes::from_static(b"ab")))
        .unwrap();
    assert_eq!(
        stream.recv_chunk(&mut contents, None),
        Err(SessionError::WrongSize)
    );
    stream.finish(&mut contents);
    assert!(matches!(
        SubgroupReader::start().read_next(contents.get(0).unwrap()),
        ReadOutcome::Closed(ServeError::Size)
    ));
}

#[test]
fn a_stream_whose_subgroup_was_given_up_is_cancelled() {
    let mut subscriber = subscribed();
    let mut contents = TrackContents::new();
    let mut first = receiver(true);
    first
        .recv_object(&mut subscriber, &mut contents, object(1, 3))
        .unwrap();
    let mut waiting = receiver(true);
    waiting
        .recv_object(&mut subscriber, &mut contents, object(2, 0))
        .unwrap();
    let mut last = receiver(true);
    last.recv_object(&mut subscriber, &mut contents, object(3, 0))
        .unwrap();
    let recv = subscriber.subscription(0).unwrap();
    let TrackWriterMode::Subgroups { state, .. } = &recv.sink.mode else {
        panic!("the track is written as subgroups");
    };
    contents.prune(state);
    assert_eq!(contents.given_up(), 1);
    assert_eq!(
        first.recv_chunk(&mut contents, Some(Bytes::from_static(b"abc"))),
        Err(SessionError::Serve(ServeError::Cancel))
    );
    assert_eq!(
        first.recv_object(&mut subscriber, &mut contents, object(0, 0)),
        Err(SessionError::Serve(ServeError::Cancel))
    );
    waiting
        .recv_object(&mut subscriber, &mut contents, object(0, 0))
        .unwrap();
    assert_eq!(contents.get(1).unwrap().len(), 2);
}

#[test]
fn streams_that_cannot_be_read_say_why() {
    let mut fetch = header_type(false);
    fetch.is_subgroup = false;
    assert!(matches!(
        SubgroupReceiver::new(fetch, None, None),
        Err(SessionError::Unimplemented)
    ));
    assert!(matches!(
        SubgroupReceiver::new(header_type(false), None, None),
        Err(SessionError::Internal)
    ));
    assert!(matches!(
        SubgroupReceiver::new(header_type(false), Some(header(4, Some(0))), None),
        Err(SessionError::Serve(ServeError::NotFound))
    ));

    let mut subscriber = subscribed();
    let mut contents = TrackContents::new();
    let mut stream = receiver(false);
    stream
        .recv_object(&mut subscriber, &mut contents, object(u64::MAX, 0))
        .unwrap();
    assert_eq!(
        stream.recv_object(&mut subscriber, &mut contents, object(0, 0)),
        Err(SessionError::ObjectIdOverflow)
    );

    let mut headers = ExtensionHeaders::default();
    headers.set_bytesvalue(0x3d, vec![1]);
    let mut bad = object(0, 0);
    bad.status = Some(ObjectStatus::EndOfGroup);
    bad.extension_headers = Some(headers);
    let mut typed = header_type(false);
    typed.has_extension_headers = true;
    let mut stream = match SubgroupReceiver::new(
        typed,
        Some(header(4, Some(9))),
        Some(AliasBinding::Subscribe(0)),
    ) {
        Ok(stream) => stream,
        Err(e) => panic!("{e:?}"),
    };
    assert_eq!(
        stream.recv_object(&mut subscriber, &mut contents, bad),
        Err(SessionError::StatusWithExtensionHeaders)
    );

    assert_eq!(
        subscriber.finish_stream(4, Err(SessionError::Serve(ServeError::Size))),
        Err(SessionError::Serve(ServeError::Size))
    );
    assert!(!subscriber.is_subscribed(0));
    assert_eq!(subscriber.take_ended()[0].1.closed, Err(ServeError::Size));
}

#[test]
fn a_failed_subscription_closes_its_track_once() {
    let mut recv = SubscribeRecv::new();
    recv.ok(3, Some(8)).unwrap();
    assert_eq!(recv.track_alias(), Some(3));
    assert_eq!(recv.ok(4, None), Err(ServeError::Duplicate));
    recv.subgroup(header(3, Some(1))).unwrap();
    assert_eq!(recv.datagram(datagram(3, 0)), Err(ServeError::Mode));
    recv.error(ServeError::Closed(5)).unwrap();
    assert_eq!(recv.closed, Err(ServeError::Closed(5)));
    assert!(!recv.sink.writable);
    let TrackWriterMode::Subgroups {
        state,
        history_window,
        ..
    } = &mut recv.sink.mode
    else {
        panic!("the track is written as subgroups");
    };
    assert_eq!(*history_window, Some(8));
    let mut reader = moq_mmtp::serve::subgroup::SubgroupsReader::new(state);
    assert!(matches!(reader.next(state), ReadOutcome::Item(_)));
    assert!(matches!(
        reader.next(state),
        ReadOutcome::Closed(ServeError::Closed(5))
    ));
    assert_eq!(
        recv.error(ServeError::Done),
        Err(ServeError::Closed(5)),
        "a subscription ends once"
    );
    let mut gone = SubscribeRecv::new();
    gone.drop_side();
    assert_eq!(gone.error(ServeError::Done), Err(ServeError::Cancel));
}

#[test]
fn subscribe_info_mirrors_the_request() {
    let mut request = SubscribeRequest::for_track(8, &name("ns"), &name("v"));
    request.filter_type = FilterType::AbsoluteRange;
    request.start_location = Some(Location {
        group_id: 1,
        object_id: 2,
    });
    request.end_group_id = Some(9);
    request.group_order = GroupOrder::Descending;
    let mut params = KeyValuePairs::new();
    params.set_bytesvalue(3, vec![7]);
    request.params = params;
    let info = SubscribeInfo::new_from_subscribe(&request);
    assert_eq!((info.id, info.subscriber_priority), (8, 127));
    assert_eq!(
        (info.track_namespace.as_str(), info.track_name.as_str()),
        ("ns", "v")
    );
    assert_eq!(info.filter_type, FilterType::AbsoluteRange);
    assert_eq!(info.start_location, request.start_location);
    assert_eq!(info.end_group_id, Some(9));
    assert_eq!(info.group_order, GroupOrder::Descending);
    assert!(info.forward && !info.track_status);
    assert_eq!(
        info.params.get(3).unwrap().value,
        Value::BytesValue(vec![7])
    );
    assert!(!info.params.is_empty() && !info.params.has(4));
}
