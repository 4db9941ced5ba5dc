use bytes::{Buf, Bytes};
use moq_mmtp::draft19::goaway::{GoAway, GoAwayState, SessionUri, GOAWAY_TYPE};
use moq_mmtp::draft19::setup::{
    Frame, Setup, SetupOption, SetupOptionType, SetupOptionValue, SetupOptions,
};
use moq_mmtp::draft19::stream::{
    ControlStreamPair, RequestKind, RequestStream, RequestStreamRole, SessionErrorCode,
    StreamAction, StreamErrorCode, StreamProtocolError,
};
use moq_mmtp::profile::WireProfile;
use moq_mmtp::session::draft19::Draft19SessionRole;
use moq_mmtp::vi64::Vi64;
use moq_mmtp::wire::{DecodeError, EncodeError, Field};

fn encode_vi64(value: u64) -> Vec<u8> {
    let mut wire = Vec::new();
    Vi64::new(value).encode(&mut wire);
    wire
}

fn encode_frame(frame: &Frame) -> Vec<u8> {
    let mut wire = Vec::new();
    frame.encode(&mut wire).unwrap();
    wire
}

fn encode_setup(setup: &Setup) -> Vec<u8> {
    let mut wire = Vec::new();
    setup.encode(&mut wire).unwrap();
    wire
}

#[test]
fn draft19_vi64_matches_official_vectors_and_accepts_non_minimal_values() {
    let vectors = [
        (25, vec![0x19]),
        (37, vec![0x25]),
        (15_293, vec![0xbb, 0xbd]),
        (226_442_877, vec![0xed, 0x7f, 0x3e, 0x7d]),
        (2_893_212_287_960, vec![0xfa, 0xa1, 0xa0, 0xe4, 0x03, 0xd8]),
        (
            151_288_809_941_952,
            vec![0xfc, 0x89, 0x98, 0xab, 0xc6, 0x6b, 0xc0],
        ),
        (
            70_423_237_261_249_041,
            vec![0xfe, 0xfa, 0x31, 0x8f, 0xa8, 0xe3, 0xca, 0x11],
        ),
        (u64::MAX, vec![0xff; 9]),
    ];

    for (value, expected) in vectors {
        assert_eq!(encode_vi64(value), expected);
        let mut wire = Bytes::from(expected);
        assert_eq!(Vi64::decode(&mut wire).unwrap().into_inner(), value);
        assert!(!wire.has_remaining());
    }

    let mut non_minimal = Bytes::from_static(&[0x80, 0x25]);
    assert_eq!(Vi64::decode(&mut non_minimal).unwrap().into_inner(), 37);
}

#[test]
fn draft19_vi64_boundary_lengths_cover_the_full_u64_domain() {
    let vectors = [
        (0, vec![0x00]),
        (127, vec![0x7f]),
        (128, vec![0x80, 0x80]),
        (16_383, vec![0xbf, 0xff]),
        (16_384, vec![0xc0, 0x40, 0x00]),
        (u64::MAX, vec![0xff; 9]),
    ];
    for (value, expected) in vectors {
        assert_eq!(encode_vi64(value), expected);
    }
}

#[test]
fn vi64_lengths_and_round_trips_at_every_boundary() {
    for bits in 0..64u32 {
        for value in [(1u64 << bits) - 1, 1u64 << bits, (1u64 << bits) + 1] {
            let wire = encode_vi64(value);
            let expected = match value {
                0..=0x7f => 1,
                _ if bits_of(value) <= 56 => (bits_of(value) as usize + 6) / 7,
                _ => 9,
            };
            assert_eq!(wire.len(), expected, "value {value:#x}");
            assert_eq!(Vi64::new(value).encoded_len(), expected);
            let mut buf = Bytes::from([wire, vec![0xaa]].concat());
            assert_eq!(Vi64::decode(&mut buf).unwrap().into_inner(), value);
            assert_eq!(&buf[..], &[0xaa]);
        }
    }
    assert_eq!(Vi64::default().into_inner(), 0);
    assert_eq!(u64::from(Vi64::from(7)), 7);
}

fn bits_of(value: u64) -> u32 {
    64 - value.leading_zeros()
}

#[test]
fn vi64_reports_how_many_bytes_are_missing() {
    let mut empty = Bytes::new();
    assert_eq!(Vi64::decode(&mut empty), Err(DecodeError::More(1)));
    let mut short = Bytes::from_static(&[0xff, 1, 2]);
    assert_eq!(Vi64::decode(&mut short), Err(DecodeError::More(6)));
    assert_eq!(&short[..], &[1, 2]);
}

#[test]
fn draft19_setup_is_unified_length_bounded_and_has_no_option_count() {
    let setup = Setup {
        options: SetupOptions(vec![SetupOption::bytes(0x01, b"/".to_vec())]),
    };
    let expected = vec![0xaf, 0x00, 0x00, 0x03, 0x01, 0x01, b'/'];
    assert_eq!(encode_setup(&setup), expected);

    let mut wire = Bytes::from(expected);
    assert_eq!(Setup::decode(&mut wire).unwrap(), setup);
    assert!(!wire.has_remaining());
}

#[test]
fn draft19_setup_accepts_non_minimal_type_and_unknown_duplicate_options() {
    let mut wire = Bytes::from_static(&[
        0xc0, 0x2f, 0x00, 0x00, 0x06, // non-minimal SETUP type and body length
        0x09, 0x01, b'a', // unknown odd option 9
        0x00, 0x01, b'b', // duplicate unknown option 9
    ]);
    let setup = Setup::decode(&mut wire).unwrap();
    assert_eq!(setup.options.0.len(), 2);
    assert!(!wire.has_remaining());

    let mut unregistered_two = Bytes::from_static(&[
        0xaf, 0x00, 0x00, 0x04, // SETUP and body length
        0x02, 0x00, // unknown even option 2
        0x00, 0x01, // duplicate unknown option 2
    ]);
    assert_eq!(
        Setup::decode(&mut unregistered_two)
            .unwrap()
            .options
            .0
            .len(),
        2
    );
}

#[test]
fn another_profile_is_rejected_without_consuming_anything() {
    let mut wire = Bytes::from_static(&[0x20, 0x00, 0x02, 0x01, 0x00]);
    let remaining = wire.len();
    assert!(matches!(
        Setup::decode_for_profile(WireProfile::Draft16, &mut wire),
        Err(DecodeError::InvalidMessage(0x2f00))
    ));
    assert!(matches!(
        Frame::decode_for_profile(WireProfile::Blockcast01, &mut wire),
        Err(DecodeError::InvalidMessage(0x2f00))
    ));
    assert_eq!(wire.len(), remaining);
    assert!(matches!(
        Setup::decode_for_profile(WireProfile::Draft19, &mut wire),
        Err(DecodeError::InvalidMessage(0x20))
    ));
}

#[test]
fn setup_round_trips_several_options() {
    let setup = Setup {
        options: SetupOptions(vec![
            SetupOption::bytes(0x01, b"/demo".to_vec()),
            SetupOption::integer(0x04, 16),
            SetupOption::bytes(0x4243, vec![1, 1, 2, 2, 3]),
        ]),
    };
    let mut wire = Bytes::from(encode_setup(&setup));
    let decoded = Setup::decode_for_profile(WireProfile::Draft19, &mut wire).unwrap();
    assert_eq!(decoded, setup);
    assert_eq!(SetupOptionType::MaxAuthTokenCacheSize.code(), 0x04);
    assert!(!SetupOptionType::is_known(SetupOptionType::AuthorizationToken.code()));
    assert!(SetupOptionType::is_known(SetupOptionType::Path.code()));
    assert_eq!(Setup::default().options.0.len(), 0);
}

#[test]
fn setup_options_that_cannot_be_written_are_refused() {
    let cases = [
        (
            vec![SetupOption::integer(4, 1), SetupOption::integer(4, 2)],
            EncodeError::InvalidValue,
        ),
        (
            vec![SetupOption::integer(6, 1), SetupOption::integer(4, 2)],
            EncodeError::KvpKeyOrder,
        ),
        (vec![SetupOption::integer(5, 1)], EncodeError::InvalidValue),
        (
            vec![SetupOption::bytes(2, vec![1])],
            EncodeError::InvalidValue,
        ),
        (
            vec![SetupOption::bytes(9, vec![0; 65_536])],
            EncodeError::KeyValuePairLengthExceeded,
        ),
        (
            vec![
                SetupOption::bytes(9, vec![0; 40_000]),
                SetupOption::bytes(9, vec![0; 40_000]),
            ],
            EncodeError::MsgBoundsExceeded,
        ),
    ];
    for (options, expected) in cases {
        let mut wire = vec![7];
        let setup = Setup {
            options: SetupOptions(options),
        };
        assert_eq!(setup.encode(&mut wire), Err(expected));
        assert_eq!(wire, vec![7]);
    }
}

#[test]
fn setup_options_that_cannot_be_read_are_refused() {
    let body = |bytes: &[u8]| {
        let mut wire = vec![0xaf, 0x00, 0x00, bytes.len() as u8];
        wire.extend_from_slice(bytes);
        Bytes::from(wire)
    };
    let mut overflow = vec![0xff; 9];
    overflow.extend_from_slice(&[0x00, 0x01, 0x00]);
    assert_eq!(
        Setup::decode(&mut body(&overflow)),
        Err(DecodeError::KvpTypeOverflow)
    );
    assert_eq!(
        Setup::decode(&mut body(&[0x04, 0x01, 0x00, 0x01])),
        Err(DecodeError::DuplicateParameter(4))
    );
    assert_eq!(
        Setup::decode(&mut body(&[0x01, 0xe0, 0x01, 0x00, 0x00])),
        Err(DecodeError::KeyValuePairLengthExceeded)
    );
    assert_eq!(
        Setup::decode(&mut body(&[0x01, 0x05, b'a'])),
        Err(DecodeError::More(4))
    );
    assert_eq!(
        Setup::decode(&mut Bytes::from_static(&[0xaf, 0x00, 0x00])),
        Err(DecodeError::More(1))
    );
    let options = SetupOptions(vec![SetupOption {
        option_type: 9,
        value: SetupOptionValue::Bytes(vec![1, 2]),
    }]);
    let mut wire = Vec::new();
    options.encode_body(&mut wire).unwrap();
    assert_eq!(wire, vec![9, 2, 1, 2]);
    assert_eq!(
        SetupOptions::decode_body(&mut Bytes::from(wire)).unwrap(),
        options
    );
}

#[test]
fn draft19_frame_uses_vi64_type_and_exact_u16_payload_length() {
    let frame = Frame {
        message_type: 0x2f00,
        payload: Bytes::from_static(b"ok"),
    };
    assert_eq!(
        encode_frame(&frame),
        vec![0xaf, 0x00, 0x00, 0x02, b'o', b'k']
    );

    let mut truncated = Bytes::from_static(&[0x03, 0x00, 0x02, 0xff]);
    assert!(Frame::decode(&mut truncated).is_err());
}

#[test]
fn frame_round_trips_and_leaves_what_follows() {
    let frame = Frame {
        message_type: 0x10,
        payload: Bytes::from_static(b"payload"),
    };
    let mut wire = encode_frame(&frame);
    wire.extend_from_slice(b"next");
    let mut buf = Bytes::from(wire);
    assert_eq!(Frame::decode(&mut buf).unwrap(), frame.clone());
    assert_eq!(&buf[..], b"next");

    let oversized = Frame {
        message_type: 1,
        payload: Bytes::from(vec![0; 65_536]),
    };
    assert_eq!(
        oversized.encode(&mut Vec::new()),
        Err(EncodeError::MsgBoundsExceeded)
    );
    assert_eq!(
        Frame::decode(&mut Bytes::from_static(&[0x03, 0x00])),
        Err(DecodeError::More(1))
    );
}

#[test]
fn draft19_goaway_is_byte_exact_and_round_trips_uri_then_timeout() {
    let goaway = GoAway {
        new_session_uri: SessionUri("moqt://next.example".into()),
        timeout_ms: 250,
    };
    let frame = goaway.clone().into_frame().unwrap();
    assert_eq!(frame.message_type, GOAWAY_TYPE);
    assert_eq!(
        encode_frame(&frame),
        [
            vec![0x10, 0x00, 0x16, 0x13],
            b"moqt://next.example".to_vec(),
            vec![0x80, 0xfa],
        ]
        .concat()
    );
    assert_eq!(GoAway::from_frame(&frame).unwrap(), goaway);

    let no_redirect = GoAway {
        new_session_uri: SessionUri(String::new()),
        timeout_ms: 0,
    };
    assert_eq!(
        encode_frame(&no_redirect.into_frame().unwrap()),
        vec![0x10, 0, 2, 0, 0]
    );
}

#[test]
fn draft19_goaway_enforces_the_8192_byte_uri_cap_on_both_paths() {
    let maximum = GoAway {
        new_session_uri: SessionUri("x".repeat(8_192)),
        timeout_ms: 1,
    };
    assert_eq!(
        GoAway::from_frame(&maximum.clone().into_frame().unwrap()).unwrap(),
        maximum
    );

    let oversized = GoAway {
        new_session_uri: SessionUri("x".repeat(8_193)),
        timeout_ms: 1,
    };
    assert!(oversized.into_frame().is_err());

    let payload = encode_vi64(8_193);
    let oversized_frame = Frame {
        message_type: GOAWAY_TYPE,
        payload: payload.into(),
    };
    assert!(GoAway::from_frame(&oversized_frame).is_err());
}

#[test]
fn draft19_goaway_new_session_uri_is_role_aware_at_the_session_boundary() {
    let empty = GoAway {
        new_session_uri: SessionUri(String::new()),
        timeout_ms: 0,
    };
    Draft19SessionRole::Server
        .validate_received_goaway(&empty)
        .unwrap();
    Draft19SessionRole::Client
        .validate_received_goaway(&empty)
        .unwrap();

    let maximum = GoAway::from_frame(
        &GoAway {
            new_session_uri: SessionUri("x".repeat(8_192)),
            timeout_ms: 1,
        }
        .into_frame()
        .unwrap(),
    )
    .unwrap();
    Draft19SessionRole::Client
        .validate_received_goaway(&maximum)
        .unwrap();

    let error = Draft19SessionRole::Server
        .validate_received_goaway(&maximum)
        .unwrap_err();
    assert_eq!(error, StreamProtocolError::ServerGoAwayWithNewSessionUri);
    assert_eq!(
        error.session_code(),
        Some(SessionErrorCode::ProtocolViolation)
    );
}

#[test]
fn draft19_goaway_duplicate_tracking_is_scoped_per_stream() {
    let mut control = GoAwayState::default();
    let mut request_a = GoAwayState::default();
    let mut request_b = GoAwayState::default();

    control.record_received().unwrap();
    request_a.record_received().unwrap();
    request_b.record_received().unwrap();
    assert_eq!(
        request_a.record_received().unwrap_err(),
        StreamProtocolError::DuplicateGoAway
    );
    assert!(control.received());
    assert!(request_b.received());
}

#[test]
fn draft19_goaway_record_sent_rejects_a_second_send_on_one_stream() {
    let now = 1_000;
    let goaway = GoAway {
        new_session_uri: SessionUri(String::new()),
        timeout_ms: 1,
    };
    let mut state = GoAwayState::default();
    state.record_sent(&goaway, now).unwrap();
    assert_eq!(
        state.record_sent(&goaway, now).unwrap_err(),
        StreamProtocolError::DuplicateGoAway
    );
}

#[test]
fn draft19_goaway_sent_and_received_are_tracked_independently() {
    let now = 1_000;
    let goaway = GoAway {
        new_session_uri: SessionUri(String::new()),
        timeout_ms: 1,
    };

    // Recording a sent GOAWAY must not mark the stream as having received one.
    let mut sender = GoAwayState::default();
    sender.record_sent(&goaway, now).unwrap();
    assert!(sender.sent());
    assert!(!sender.received());

    // ...and vice versa: a received GOAWAY leaves the sent flag clear.
    let mut receiver = GoAwayState::default();
    receiver.record_received().unwrap();
    assert!(receiver.received());
    assert!(!receiver.sent());
}

#[test]
fn draft19_goaway_decode_rejects_a_within_cap_length_overrunning_the_payload() {
    // A URI length that is under the 8,192 cap but larger than the bytes that
    // actually follow must be a clean decode error, never a panic on the
    // fixed-size copy that materializes the URI.
    let mut payload = encode_vi64(64);
    payload.extend_from_slice(b"short");
    let truncated = Frame {
        message_type: GOAWAY_TYPE,
        payload: payload.into(),
    };
    assert!(GoAway::from_frame(&truncated).is_err());
}

#[test]
fn goaway_frames_that_cannot_be_read_say_why() {
    let frame = |payload: Vec<u8>| Frame {
        message_type: GOAWAY_TYPE,
        payload: payload.into(),
    };
    assert_eq!(
        GoAway::from_frame(&Frame {
            message_type: 5,
            payload: Bytes::new(),
        }),
        Err(DecodeError::InvalidMessage(5))
    );
    assert_eq!(
        GoAway::from_frame(&frame(encode_vi64(8_193))),
        Err(DecodeError::FieldBoundsExceeded(Field::SessionUri))
    );
    assert_eq!(
        GoAway::from_frame(&frame(vec![2, 0xff, 0xfe, 0])),
        Err(DecodeError::InvalidUtf8)
    );
    assert_eq!(
        GoAway::from_frame(&frame(vec![1, b'a', 3, 9])),
        Err(DecodeError::InvalidLength(4, 3))
    );
    let text = GoAway {
        new_session_uri: SessionUri("moqt://\u{e9}\u{4e16}\u{1f600}".into()),
        timeout_ms: u64::MAX,
    };
    assert_eq!(
        GoAway::from_frame(&text.clone().into_frame().unwrap()).unwrap(),
        text
    );
}

#[test]
fn draft19_goaway_timeout_zero_never_expires_and_nonzero_is_an_upper_hint() {
    let now = 1_000;
    let mut no_deadline = GoAwayState::default();
    no_deadline
        .record_sent(
            &GoAway {
                new_session_uri: SessionUri(String::new()),
                timeout_ms: 0,
            },
            now,
        )
        .unwrap();
    assert!(!no_deadline.timeout_expired(now + 86_400 * 1_000));

    let mut bounded = GoAwayState::default();
    bounded
        .record_sent(
            &GoAway {
                new_session_uri: SessionUri(String::new()),
                timeout_ms: 50,
            },
            now,
        )
        .unwrap();
    assert!(!bounded.timeout_expired(now + 49));
    assert!(bounded.timeout_expired(now + 50));
    assert!(bounded.active());
}

#[test]
fn draft19_request_goaway_allows_early_fin_and_uses_going_away_reset() {
    let mut early = RequestStream::new(WireProfile::Draft19, 0x1d).unwrap();
    early.finish_sending_for_goaway().unwrap();

    let mut expired = RequestStream::new(WireProfile::Draft19, 0x03).unwrap();
    assert_eq!(
        expired.reset_sending(StreamErrorCode::GoingAway).unwrap(),
        StreamAction::Reset(StreamErrorCode::GoingAway)
    );
    assert_eq!(StreamErrorCode::GoingAway.code(), 0x04);
    assert_eq!(SessionErrorCode::GoAwayTimeout.code(), 0x10);
}

#[test]
fn draft19_control_streams_are_paired_unidirectional_and_never_finish() {
    let mut pair = ControlStreamPair::new(WireProfile::Draft19).unwrap();
    assert!(!pair.is_ready());
    pair.sent_setup().unwrap();
    pair.received_setup().unwrap();
    assert!(pair.is_ready());

    let error = pair.on_fin_or_reset().unwrap_err();
    assert_eq!(
        error.session_code(),
        Some(SessionErrorCode::ProtocolViolation)
    );
    assert!(ControlStreamPair::new(WireProfile::Draft16).is_err());
}

#[test]
fn draft19_request_stream_rejects_invalid_first_messages_and_premature_fin() {
    let invalid = RequestStream::new(WireProfile::Draft19, 0x07).unwrap_err();
    assert_eq!(
        invalid.session_code(),
        Some(SessionErrorCode::ProtocolViolation)
    );

    let mut request = RequestStream::new(WireProfile::Draft19, 0x03).unwrap();
    assert_eq!(request.kind(), RequestKind::Subscribe);
    let premature = request.receive_fin().unwrap_err();
    assert_eq!(premature.stream_code(), Some(StreamErrorCode::Cancelled));

    request.receive_first_response(0x04).unwrap();
    let missing_done = request.receive_fin().unwrap_err();
    assert_eq!(missing_done.stream_code(), Some(StreamErrorCode::Cancelled));
    request.receive_publish_done().unwrap();
    request.receive_fin().unwrap();

    let mut publish = RequestStream::new(WireProfile::Draft19, 0x1d).unwrap();
    assert_eq!(
        publish.finish_sending().unwrap_err().stream_code(),
        Some(StreamErrorCode::Cancelled)
    );
    assert!(publish.send_publish_done().is_err());
    publish.receive_first_response(0x07).unwrap();
    publish.send_publish_done().unwrap();
    publish.finish_sending().unwrap();

    let mut responder =
        RequestStream::new_for_role(WireProfile::Draft19, 0x03, RequestStreamRole::Responder)
            .unwrap();
    assert!(responder.send_publish_done().is_err());
    assert!(!responder.can_send_followup());
    responder.send_first_response(0x04).unwrap();
    assert!(responder.can_send_followup());
    responder.send_publish_done().unwrap();
    responder.finish_sending().unwrap();
}

#[test]
fn draft19_request_reset_and_stop_sending_transitions_use_registry_codes() {
    let mut request = RequestStream::new(WireProfile::Draft19, 0x16).unwrap();
    assert_eq!(
        request
            .receive_stop_sending(StreamErrorCode::DeliveryTimeout)
            .unwrap(),
        StreamAction::Reset(StreamErrorCode::DeliveryTimeout)
    );
    let repeated = request
        .receive_stop_sending(StreamErrorCode::DeliveryTimeout)
        .unwrap_err();
    assert_eq!(repeated.stream_code(), Some(StreamErrorCode::InternalError));

    let mut cancelled = RequestStream::new(WireProfile::Draft19, 0x0d).unwrap();
    assert_eq!(
        cancelled.cancel(StreamErrorCode::Cancelled).unwrap(),
        StreamAction::ResetAndStop(StreamErrorCode::Cancelled)
    );
    assert!(matches!(
        cancelled.cancel(StreamErrorCode::Cancelled),
        Err(StreamProtocolError::InvalidTransition)
    ));
}

#[test]
fn request_stream_halves_end_one_by_one() {
    let mut stream = RequestStream::new(WireProfile::Draft19, 0x16).unwrap();
    assert_eq!(stream.role(), RequestStreamRole::Requester);
    assert!(!stream.can_receive_followup());
    stream.receive_first_response(0x05).unwrap();
    assert!(stream.first_response_complete());
    assert!(stream.can_receive_followup());
    stream.finish_sending().unwrap();
    assert_eq!(
        stream.receive_stop_sending(StreamErrorCode::Cancelled),
        Ok(StreamAction::Nothing)
    );
    assert_eq!(
        stream.cancel(StreamErrorCode::TooFarBehind),
        Ok(StreamAction::StopSending(StreamErrorCode::TooFarBehind))
    );
    assert_eq!(
        stream.receive_reset(StreamErrorCode::Cancelled),
        Ok(StreamAction::Nothing)
    );
    assert_eq!(
        stream.receive_reset(StreamErrorCode::Cancelled),
        Err(StreamProtocolError::InvalidTransition)
    );

    let mut other =
        RequestStream::new_for_role(WireProfile::Draft19, 0x06, RequestStreamRole::Responder)
            .unwrap();
    other.receive_fin().unwrap();
    assert_eq!(
        other.receive_reset(StreamErrorCode::Cancelled),
        Ok(StreamAction::Nothing)
    );
    assert_eq!(
        other.cancel(StreamErrorCode::ExcessiveLoad),
        Ok(StreamAction::Reset(StreamErrorCode::ExcessiveLoad))
    );
    assert_eq!(
        RequestStream::new(WireProfile::Draft16, 0x03),
        Err(StreamProtocolError::ProfileMismatch(WireProfile::Draft16))
    );
}

#[test]
fn draft19_validates_the_first_response_for_each_request_family() {
    for (request_type, response_type) in [
        (0x03, 0x04),
        (0x16, 0x18),
        (0x1d, 0x07),
        (0x0d, 0x07),
        (0x06, 0x07),
        (0x50, 0x07),
        (0x51, 0x07),
    ] {
        let mut request = RequestStream::new(WireProfile::Draft19, request_type).unwrap();
        request.receive_first_response(response_type).unwrap();
    }

    let mut request = RequestStream::new(WireProfile::Draft19, 0x03).unwrap();
    assert!(matches!(
        request.receive_first_response(0x07),
        Err(StreamProtocolError::InvalidFirstResponse { .. })
    ));
}

#[test]
fn draft19_error_registries_use_draft19_values() {
    assert_eq!(SessionErrorCode::InternalError.code(), 0x01);
    assert_eq!(SessionErrorCode::ProtocolViolation.code(), 0x03);
    assert_eq!(SessionErrorCode::KeyValueFormattingError.code(), 0x06);
    assert_eq!(StreamErrorCode::UnknownObjectStatus.code(), 0x06);
    assert_eq!(StreamErrorCode::MalformedTrack.code(), 0x12);
}

#[test]
fn protocol_errors_name_their_values() {
    assert_eq!(
        StreamProtocolError::ProfileMismatch(WireProfile::Blockcast01).describe(),
        "wire profile Blockcast01 cannot decode draft-19 framing"
    );
    assert_eq!(
        StreamProtocolError::InvalidFirstMessage {
            message_type: 0x2f00
        }
        .describe(),
        "invalid first request message 0x2f00"
    );
    assert_eq!(
        StreamProtocolError::InvalidFirstResponse { message_type: 0 }.describe(),
        "request stream received an invalid first response 0x0"
    );
}

#[test]
fn every_protocol_error_ends_a_session_or_a_stream() {
    let errors = [
        StreamProtocolError::ProfileMismatch(WireProfile::Draft16),
        StreamProtocolError::InvalidFirstMessage { message_type: 1 },
        StreamProtocolError::InvalidFirstResponse { message_type: 1 },
        StreamProtocolError::PrematureFin,
        StreamProtocolError::InvalidTransition,
        StreamProtocolError::ControlStreamClosed,
        StreamProtocolError::DuplicateGoAway,
        StreamProtocolError::ServerGoAwayWithNewSessionUri,
    ];
    for error in errors {
        assert_ne!(
            error.session_code().is_some(),
            error.stream_code().is_some(),
            "{}",
            error.describe()
        );
    }
}
