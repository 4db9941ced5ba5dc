use bytes::Bytes;
use moq_mmtp::draft19::goaway::{GoAway, GoAwayState, SessionUri, GOAWAY_TYPE};
use moq_mmtp::draft19::setup::{Frame, Setup, SetupOption, SetupOptions};
use moq_mmtp::draft19::stream::{
    RequestStream, SessionErrorCode, StreamAction, StreamErrorCode, StreamProtocolError,
};
use moq_mmtp::profile::WireProfile;
use moq_mmtp::session::draft19::{
    control_goaway_timeout_action, first_response_fin_error, request_goaway_timeout_action,
    Draft19Session, Draft19SessionError, Draft19SessionRole, StreamEvent,
};
use moq_mmtp::session::SessionError;
use moq_mmtp::wire::{DecodeError, EncodeError};

fn active_goaway(now: u64) -> GoAwayState {
    let mut goaway = GoAwayState::default();
    goaway
        .record_sent(
            &GoAway {
                new_session_uri: SessionUri(String::new()),
                timeout_ms: 1,
            },
            now,
        )
        .unwrap();
    goaway
}

#[test]
fn first_response_fin_is_an_error_before_and_after_a_response() {
    let mut waiting = RequestStream::new(WireProfile::Draft19, 0x16).unwrap();
    assert_eq!(
        first_response_fin_error(&mut waiting),
        StreamProtocolError::PrematureFin
    );

    let mut complete = RequestStream::new(WireProfile::Draft19, 0x16).unwrap();
    complete.receive_first_response(0x18).unwrap();
    assert_eq!(
        first_response_fin_error(&mut complete),
        StreamProtocolError::InvalidTransition
    );
}

#[test]
fn request_goaway_timeout_enforcement_is_idempotent() {
    let now = 5_000;
    let goaway = active_goaway(now);
    let expired = now + 1;
    let mut lifecycle = RequestStream::new(WireProfile::Draft19, 0x03).unwrap();

    assert_eq!(
        request_goaway_timeout_action(&goaway, &mut lifecycle, expired).unwrap(),
        Some(StreamAction::Reset(StreamErrorCode::GoingAway))
    );
    assert_eq!(
        request_goaway_timeout_action(&goaway, &mut lifecycle, expired).unwrap(),
        None
    );
}

#[test]
fn request_goaway_timeout_after_early_finish_is_a_noop() {
    let now = 5_000;
    let goaway = active_goaway(now);
    let mut lifecycle = RequestStream::new(WireProfile::Draft19, 0x03).unwrap();
    lifecycle.finish_sending_for_goaway().unwrap();

    assert_eq!(
        request_goaway_timeout_action(&goaway, &mut lifecycle, now + 1).unwrap(),
        None
    );
}

#[test]
fn control_goaway_timeout_closes_with_goaway_timeout_only_after_expiry_with_open_requests() {
    let now = 5_000;
    let goaway = active_goaway(now); // timeout_ms: 1
    let expired = now + 1;

    // Not yet expired: no close even with open requests.
    assert_eq!(control_goaway_timeout_action(&goaway, now, true), None);
    // Expired but nothing left to drain: no close.
    assert_eq!(control_goaway_timeout_action(&goaway, expired, false), None);
    // Expired with open requests: force close, and specifically with
    // GOAWAY_TIMEOUT (not any other session code).
    assert_eq!(
        control_goaway_timeout_action(&goaway, expired, true),
        Some(SessionErrorCode::GoAwayTimeout)
    );
}

fn session(role: Draft19SessionRole) -> Draft19Session {
    let setup = Setup {
        options: SetupOptions(vec![SetupOption::integer(4, 16)]),
    };
    match Draft19Session::establish(role, WireProfile::Draft19, Ok(setup)) {
        Ok(session) => session,
        Err(failure) => panic!("{failure:?}"),
    }
}

fn goaway_frame(uri: &str, timeout_ms: u64) -> Frame {
    GoAway {
        new_session_uri: SessionUri(uri.into()),
        timeout_ms,
    }
    .into_frame()
    .unwrap()
}

fn frame(message_type: u64) -> Frame {
    Frame {
        message_type,
        payload: Bytes::from_static(b"x"),
    }
}

#[test]
fn establishing_needs_the_profile_and_the_peers_setup() {
    let session = session(Draft19SessionRole::Client);
    assert!(session.control_ready());
    assert_eq!(session.selected_version(), WireProfile::Draft19);
    assert_eq!(session.peer_setup().options.0.len(), 1);

    let mismatch =
        Draft19Session::establish(Draft19SessionRole::Client, WireProfile::Draft16, Ok(Setup::default()));
    let failure = match mismatch {
        Ok(_) => panic!("another profile was accepted"),
        Err(failure) => failure,
    };
    assert_eq!(
        failure.error,
        Draft19SessionError::Protocol(StreamProtocolError::ProfileMismatch(WireProfile::Draft16))
    );
    assert_eq!(failure.close, None);

    let garbled = Draft19Session::establish(
        Draft19SessionRole::Server,
        WireProfile::Draft19,
        Err(SessionError::Decode(DecodeError::KvpTypeOverflow)),
    );
    let failure = match garbled {
        Ok(_) => panic!("a garbled setup was accepted"),
        Err(failure) => failure,
    };
    assert_eq!(failure.close, Some(SessionErrorCode::ProtocolViolation));
}

#[test]
fn control_stream_takes_one_goaway_in_each_direction() {
    let mut session = session(Draft19SessionRole::Client);
    assert!(session.close_after_goaway().is_err());

    let (bytes, held) = session.send_control(&goaway_frame("", 40)).unwrap();
    assert_eq!(bytes, vec![0x10, 0, 2, 0, 40]);
    session.control_sent(held, 100).unwrap();
    assert!(!session.control_goaway_timeout_expired(139));
    assert!(session.control_goaway_timeout_expired(140));
    assert_eq!(
        session.enforce_control_goaway_timeout(140, true),
        Some(SessionErrorCode::GoAwayTimeout)
    );
    assert_eq!(session.enforce_control_goaway_timeout(140, false), None);
    assert_eq!(
        session.close_after_goaway().unwrap(),
        SessionErrorCode::NoError
    );
    let again = session.send_control(&goaway_frame("", 0)).unwrap_err();
    assert_eq!(
        again.error,
        Draft19SessionError::Protocol(StreamProtocolError::DuplicateGoAway)
    );
    assert_eq!(again.close, Some(SessionErrorCode::ProtocolViolation));

    let received = session
        .receive_control(StreamEvent::Message(goaway_frame("moqt://b", 1)))
        .unwrap();
    assert_eq!(received.message_type, GOAWAY_TYPE);
    let twice = session
        .receive_control(StreamEvent::Message(goaway_frame("", 1)))
        .unwrap_err();
    assert_eq!(
        twice.error,
        Draft19SessionError::Protocol(StreamProtocolError::DuplicateGoAway)
    );
    let closed = session.receive_control(StreamEvent::Finished).unwrap_err();
    assert_eq!(
        closed.error,
        Draft19SessionError::Protocol(StreamProtocolError::ControlStreamClosed)
    );
    let broken = session
        .receive_control(StreamEvent::PollFailed(SessionError::Connection))
        .unwrap_err();
    assert_eq!(broken.close, Some(SessionErrorCode::ProtocolViolation));
}

#[test]
fn a_server_is_not_sent_elsewhere() {
    let mut session = session(Draft19SessionRole::Server);
    let failure = session
        .receive_control(StreamEvent::Message(goaway_frame("moqt://b", 1)))
        .unwrap_err();
    assert_eq!(
        failure.error,
        Draft19SessionError::Protocol(StreamProtocolError::ServerGoAwayWithNewSessionUri)
    );
}

#[test]
fn a_subscription_runs_over_two_request_streams() {
    let client = session(Draft19SessionRole::Client);
    let server = session(Draft19SessionRole::Server);

    let (mut requester, bytes) = client.open_request(&frame(0x03)).unwrap();
    assert_eq!(bytes, vec![0x03, 0, 1, b'x']);
    let mut responder = server.accept_request(Ok(frame(0x03))).unwrap();

    // Nothing but the answer may go first.
    let early = match responder.send_message(&frame(0x0b)) {
        Ok(_) => panic!("a follow-up went before the answer"),
        Err(failure) => failure,
    };
    assert_eq!(
        early.error,
        Draft19SessionError::Protocol(StreamProtocolError::InvalidFirstResponse {
            message_type: 0x0b
        })
    );
    let answer = responder.send_first_response(&frame(0x04)).unwrap();
    assert_eq!(answer.bytes, vec![0x04, 0, 1, b'x']);
    assert!(answer.goaway.is_none());
    requester
        .receive_first_response(StreamEvent::Message(frame(0x04)))
        .unwrap();

    let done = responder.send_publish_done(&frame(0x0b)).unwrap();
    assert_eq!(done.bytes[0], 0x0b);
    responder.finish_sending().unwrap();
    let message = requester.receive_message(StreamEvent::Message(frame(0x0b)));
    requester.receive_publish_done(message).unwrap();
    assert!(requester
        .receive_message(StreamEvent::Finished)
        .unwrap()
        .is_none());
    assert!(requester.lifecycle().first_response_complete());
}

#[test]
fn request_streams_report_what_went_wrong() {
    let client = session(Draft19SessionRole::Client);
    let bad = match client.open_request(&frame(0x07)) {
        Ok(_) => panic!("no request starts like this"),
        Err(failure) => failure,
    };
    assert_eq!(
        bad.error,
        Draft19SessionError::Protocol(StreamProtocolError::InvalidFirstMessage {
            message_type: 0x07
        })
    );
    assert_eq!(bad.close, None);

    let refused = match client.accept_request(Ok(frame(0x07))) {
        Ok(_) => panic!("no request starts like this"),
        Err(failure) => failure,
    };
    assert_eq!(refused.close, Some(SessionErrorCode::ProtocolViolation));
    let garbled = match client.accept_request(Err(SessionError::Decode(DecodeError::More(1)))) {
        Ok(_) => panic!("nothing was read"),
        Err(failure) => failure,
    };
    assert_eq!(garbled.close, Some(SessionErrorCode::ProtocolViolation));
    let lost = match client.accept_request(Err(SessionError::Connection)) {
        Ok(_) => panic!("nothing was read"),
        Err(failure) => failure,
    };
    assert_eq!(lost.close, None);

    let oversized = Frame {
        message_type: 0x03,
        payload: Bytes::from(vec![0; 65_536]),
    };
    let too_long = match client.open_request(&oversized) {
        Ok(_) => panic!("the payload does not fit"),
        Err(failure) => failure,
    };
    assert_eq!(
        too_long.error,
        Draft19SessionError::Transport(SessionError::Encode(EncodeError::MsgBoundsExceeded))
    );

    let (mut stream, _) = client.open_request(&frame(0x16)).unwrap();
    let fin = stream
        .receive_first_response(StreamEvent::Finished)
        .unwrap_err();
    assert_eq!(
        fin.error,
        Draft19SessionError::Protocol(StreamProtocolError::PrematureFin)
    );
    let out_of_turn = stream
        .receive_message(StreamEvent::Message(frame(0x0b)))
        .unwrap_err();
    assert_eq!(
        out_of_turn.error,
        Draft19SessionError::Protocol(StreamProtocolError::InvalidFirstResponse {
            message_type: 0
        })
    );
    assert!(stream.finish_after_goaway().is_err());
}

#[test]
fn an_expired_goaway_resets_a_request_once() {
    let client = session(Draft19SessionRole::Client);
    let (mut stream, _) = client.open_request(&frame(0x03)).unwrap();
    let out = stream
        .send_goaway(GoAway {
            new_session_uri: SessionUri(String::new()),
            timeout_ms: 10,
        })
        .unwrap();
    stream.message_sent(out.goaway, 1_000).unwrap();
    assert_eq!(stream.enforce_goaway_timeout(1_009), None);
    assert_eq!(
        stream.enforce_goaway_timeout(1_010),
        Some(StreamErrorCode::GoingAway)
    );
    assert_eq!(stream.enforce_goaway_timeout(1_011), None);
    assert!(stream.cancel(StreamErrorCode::Cancelled).is_err());
    assert!(stream
        .send_goaway(GoAway {
            new_session_uri: SessionUri(String::new()),
            timeout_ms: 10,
        })
        .is_err());
}
