//! A draft-19 session: its control streams and its request streams.
//!
//! The streams themselves belong to whoever runs the session. Every operation
//! here takes what was read, or says what is to be written; a failure says
//! whether the session closes with it.

use vstd::prelude::*;

use super::SessionError;
use crate::draft19::goaway::{
    goaway_deadline, goaway_decode, goaway_payload, GoAway, GoAwayState, GOAWAY_TYPE,
    MAX_SESSION_URI_LEN,
};
use crate::draft19::setup::{frame_bytes, Frame, OptionView, Setup};
use crate::draft19::stream::{
    ControlStreamPair, RequestKind, RequestStream, RequestStreamRole, RequestView,
    SessionErrorCode, StreamAction, StreamErrorCode, StreamProtocolError,
};
use crate::profile::WireProfile;
use crate::wire::{DecodeError, EncodeError, Field};
use vstd::utf8::encode_utf8;

verus! {

/// The message that ends a subscription.
pub const PUBLISH_DONE_TYPE: u64 = 0x0b;

#[derive(Copy, Clone, Debug, PartialEq, Eq, Structural)]
pub enum Draft19SessionError {
    Transport(SessionError),
    Protocol(StreamProtocolError),
}

/// A failed operation, with the code that the session closes with, where it
/// does.
#[derive(Copy, Clone, Debug, PartialEq, Eq)]
pub struct SessionFailure {
    pub error: Draft19SessionError,
    pub close: Option<SessionErrorCode>,
}

/// A request stream fails: the session closes only where the peer's bytes made
/// no sense.
pub open spec fn on_transport_error(error: SessionError) -> SessionFailure {
    SessionFailure {
        error: Draft19SessionError::Transport(error),
        close: if error.spec_is_decode() {
            Some(SessionErrorCode::ProtocolViolation)
        } else {
            None
        },
    }
}

/// A control stream fails: the session closes.
pub open spec fn on_control_error(error: SessionError) -> SessionFailure {
    SessionFailure {
        error: Draft19SessionError::Transport(error),
        close: Some(SessionErrorCode::ProtocolViolation),
    }
}

/// The rules of a stream were broken: the session closes where the error ends
/// it.
pub open spec fn on_protocol_error(error: StreamProtocolError) -> SessionFailure {
    SessionFailure {
        error: Draft19SessionError::Protocol(error),
        close: error.spec_session_code(),
    }
}

/// A failure that the session survives.
pub open spec fn local_transport(error: SessionError) -> SessionFailure {
    SessionFailure { error: Draft19SessionError::Transport(error), close: None }
}

/// The rules of a stream would be broken by this side; the session survives.
pub open spec fn local_protocol(error: StreamProtocolError) -> SessionFailure {
    SessionFailure { error: Draft19SessionError::Protocol(error), close: None }
}

pub fn transport_error(error: SessionError) -> (r: SessionFailure)
    ensures
        r == on_transport_error(error),
{
    SessionFailure {
        error: Draft19SessionError::Transport(error),
        close: if error.is_decode() {
            Some(SessionErrorCode::ProtocolViolation)
        } else {
            None
        },
    }
}

pub fn control_error(error: SessionError) -> (r: SessionFailure)
    ensures
        r == on_control_error(error),
{
    SessionFailure {
        error: Draft19SessionError::Transport(error),
        close: Some(SessionErrorCode::ProtocolViolation),
    }
}

pub fn protocol_error(error: StreamProtocolError) -> (r: SessionFailure)
    ensures
        r == on_protocol_error(error),
{
    SessionFailure { error: Draft19SessionError::Protocol(error), close: error.session_code() }
}

fn quiet_transport(error: SessionError) -> (r: SessionFailure)
    ensures
        r == local_transport(error),
{
    SessionFailure { error: Draft19SessionError::Transport(error), close: None }
}

fn quiet_protocol(error: StreamProtocolError) -> (r: SessionFailure)
    ensures
        r == local_protocol(error),
{
    SessionFailure { error: Draft19SessionError::Protocol(error), close: None }
}

/// The error of a stream that finished where an answer was due.
pub fn first_response_fin_error(lifecycle: &mut RequestStream) -> (r: StreamProtocolError)
    ensures
        match old(lifecycle)@.on_receive_fin() {
            Ok(next) => r == StreamProtocolError::InvalidTransition && final(lifecycle)@ == next,
            Err(e) => r == e && final(lifecycle)@ == old(lifecycle)@,
        },
{
    match lifecycle.receive_fin() {
        Ok(()) => StreamProtocolError::InvalidTransition,
        Err(error) => error,
    }
}

/// What an expired GOAWAY does to a request stream: its sending half is reset,
/// once, where it is still open.
pub fn request_goaway_timeout_action(
    goaway: &GoAwayState,
    lifecycle: &mut RequestStream,
    now_ms: u64,
) -> (r: Result<Option<StreamAction>, StreamProtocolError>)
    ensures
        match old(lifecycle)@.on_reset_sending(StreamErrorCode::GoingAway) {
            Ok((next, action)) if goaway.spec_expired(now_ms) => r == Ok::<_, StreamProtocolError>(
                Some(action),
            ) && final(lifecycle)@ == next,
            _ => r == Ok::<Option<StreamAction>, StreamProtocolError>(None) && final(lifecycle)@
                == old(lifecycle)@,
        },
{
    if !goaway.timeout_expired(now_ms) {
        return Ok(None);
    }
    match lifecycle.reset_sending(StreamErrorCode::GoingAway) {
        Ok(action) => Ok(Some(action)),
        Err(StreamProtocolError::InvalidTransition) => Ok(None),
        Err(error) => Err(error),
    }
}

/// The code that a session closes with once its GOAWAY has expired while
/// requests are still open.
pub fn control_goaway_timeout_action(
    goaway: &GoAwayState,
    now_ms: u64,
    has_open_requests: bool,
) -> (r: Option<SessionErrorCode>)
    ensures
        r == if has_open_requests && goaway.spec_expired(now_ms) {
            Some(SessionErrorCode::GoAwayTimeout)
        } else {
            None
        },
{
    if has_open_requests && goaway.timeout_expired(now_ms) {
        Some(SessionErrorCode::GoAwayTimeout)
    } else {
        None
    }
}

/// A second enforcement of an expired GOAWAY does nothing.
pub proof fn law_goaway_timeout_is_enforced_once(a: RequestView)
    ensures
        a.on_reset_sending(StreamErrorCode::GoingAway) matches Ok((b, _))
            ==> b.on_reset_sending(StreamErrorCode::GoingAway) == Err::<
            (RequestView, StreamAction),
            _,
        >(StreamProtocolError::InvalidTransition),
{
}

#[derive(Copy, Clone, Debug, PartialEq, Eq, Structural)]
pub enum Draft19SessionRole {
    Client,
    Server,
}

/// Only a client may be sent to another session.
pub open spec fn goaway_allowed(role: Draft19SessionRole, uri: Seq<char>) -> bool {
    role == Draft19SessionRole::Client || uri.len() == 0
}

impl Draft19SessionRole {
    pub fn validate_received_goaway(self, goaway: &GoAway) -> (r: Result<(), StreamProtocolError>)
        ensures
            r == if goaway_allowed(self, goaway@.uri) {
                Ok::<(), StreamProtocolError>(())
            } else {
                Err(StreamProtocolError::ServerGoAwayWithNewSessionUri)
            },
    {
        if self == Draft19SessionRole::Server && !goaway.new_session_uri.0.as_str().is_empty() {
            return Err(StreamProtocolError::ServerGoAwayWithNewSessionUri);
        }
        Ok(())
    }
}

/// What reading a stream came to.
pub enum StreamEvent {
    /// The stream could not be asked for more.
    PollFailed(SessionError),
    /// The peer finished the stream.
    Finished,
    /// What came could not be read.
    ReadFailed(SessionError),
    Message(Frame),
}

/// What a received frame means for a stream's GOAWAY: nothing, where it is
/// another message; else the stream has received one, where the frame holds
/// one, the peer may send it, and it is the first.
pub open spec fn on_received_frame(
    role: Draft19SessionRole,
    already_received: bool,
    message_type: u64,
    payload: Seq<u8>,
) -> Result<bool, Result<DecodeError, StreamProtocolError>> {
    if message_type != GOAWAY_TYPE {
        Ok(false)
    } else {
        match goaway_decode(payload) {
            Err(e) => Err(Ok(e)),
            Ok(g) => if !goaway_allowed(role, g.uri) {
                Err(Err(StreamProtocolError::ServerGoAwayWithNewSessionUri))
            } else if already_received {
                Err(Err(StreamProtocolError::DuplicateGoAway))
            } else {
                Ok(true)
            },
        }
    }
}

/// Records a GOAWAY where a frame holds one.
fn note_received_goaway(role: Draft19SessionRole, goaway: &mut GoAwayState, frame: &Frame) -> (r:
    Result<bool, Result<DecodeError, StreamProtocolError>>)
    ensures
        r == on_received_frame(
            role,
            old(goaway).spec_received(),
            frame.message_type,
            frame.spec_payload(),
        ),
        final(goaway).spec_sent() == old(goaway).spec_sent(),
        final(goaway).spec_deadline() == old(goaway).spec_deadline(),
        final(goaway).spec_received() == (old(goaway).spec_received() || r == Ok::<
            bool,
            Result<DecodeError, StreamProtocolError>,
        >(true)),
{
    if frame.message_type != GOAWAY_TYPE {
        return Ok(false);
    }
    let body: GoAway = match GoAway::from_frame(frame) {
        Ok(body) => body,
        Err(e) => {
            return Err(Ok(e));
        },
    };
    match role.validate_received_goaway(&body) {
        Ok(()) => {},
        Err(e) => {
            return Err(Err(e));
        },
    }
    match goaway.record_received() {
        Ok(()) => Ok(true),
        Err(e) => Err(Err(e)),
    }
}

/// The GOAWAY in a frame that is about to be sent, where it is one.
pub open spec fn outgoing_goaway(message_type: u64, payload: Seq<u8>) -> Result<
    Option<(Seq<char>, u64)>,
    DecodeError,
> {
    if message_type != GOAWAY_TYPE {
        Ok(None)
    } else {
        match goaway_decode(payload) {
            Ok(g) => Ok(Some((g.uri, g.timeout_ms))),
            Err(e) => Err(e),
        }
    }
}

/// The state of a session: its role, its control streams and their GOAWAY.
pub struct Draft19Session {
    role: Draft19SessionRole,
    control_state: ControlStreamPair,
    control_goaway: GoAwayState,
    peer_setup: Setup,
    selected_version: WireProfile,
}

impl Draft19Session {
    pub closed spec fn spec_role(&self) -> Draft19SessionRole {
        self.role
    }

    pub closed spec fn goaway(&self) -> GoAwayState {
        self.control_goaway
    }

    pub closed spec fn spec_control(&self) -> ControlStreamPair {
        self.control_state
    }

    pub closed spec fn spec_peer_options(&self) -> Seq<OptionView> {
        self.peer_setup.options@
    }

    pub closed spec fn spec_version(&self) -> WireProfile {
        self.selected_version
    }

    /// Everything but the GOAWAY of the control streams is as it was.
    pub open spec fn same_but_goaway(&self, before: &Draft19Session) -> bool {
        &&& self.spec_role() == before.spec_role()
        &&& self.spec_control() == before.spec_control()
        &&& self.spec_peer_options() == before.spec_peer_options()
        &&& self.spec_version() == before.spec_version()
    }

    /// A session whose local SETUP was sent, out of what reading the peer's
    /// came to.
    pub fn establish(
        role: Draft19SessionRole,
        profile: WireProfile,
        peer_setup: Result<Setup, SessionError>,
    ) -> (r: Result<Self, SessionFailure>)
        ensures
            match r {
                Ok(session) => {
                    &&& profile == WireProfile::Draft19
                    &&& peer_setup matches Ok(setup)
                    &&& session.spec_peer_options() == setup.options@
                    &&& session.spec_role() == role
                    &&& session.spec_version() == profile
                    &&& session.spec_control().spec_sent()
                    &&& session.spec_control().spec_received()
                    &&& !session.goaway().spec_sent()
                    &&& !session.goaway().spec_received()
                    &&& session.goaway().spec_deadline() is None
                },
                Err(e) => if profile != WireProfile::Draft19 {
                    e == local_protocol(StreamProtocolError::ProfileMismatch(profile))
                } else {
                    peer_setup matches Err(cause) && e == on_control_error(cause)
                },
            },
    {
        let mut control_state: ControlStreamPair = match ControlStreamPair::new(profile) {
            Ok(pair) => pair,
            Err(e) => {
                return Err(quiet_protocol(e));
            },
        };
        match control_state.sent_setup() {
            Ok(()) => {},
            Err(e) => {
                return Err(quiet_protocol(e));
            },
        }
        let peer_setup: Setup = match peer_setup {
            Ok(setup) => setup,
            Err(e) => {
                return Err(control_error(e));
            },
        };
        match control_state.received_setup() {
            Ok(()) => {},
            Err(e) => {
                return Err(quiet_protocol(e));
            },
        }
        Ok(
            Draft19Session {
                role,
                control_state,
                control_goaway: GoAwayState::default(),
                peer_setup,
                selected_version: profile,
            },
        )
    }

    pub fn peer_setup(&self) -> (r: &Setup)
        ensures
            r.options@ == self.spec_peer_options(),
    {
        &self.peer_setup
    }

    pub fn selected_version(&self) -> (r: WireProfile)
        ensures
            r == self.spec_version(),
    {
        self.selected_version
    }

    pub fn control_ready(&self) -> (r: bool)
        ensures
            r == (self.spec_control().spec_sent() && self.spec_control().spec_received()),
    {
        self.control_state.is_ready()
    }

    /// The bytes of a frame for the control stream, with the GOAWAY that it
    /// holds, to be recorded once the bytes were sent.
    pub fn send_control(&self, frame: &Frame) -> (r: Result<
        (Vec<u8>, Option<GoAway>),
        SessionFailure,
    >)
        ensures
            match outgoing_goaway(frame.message_type, frame.spec_payload()) {
                Err(e) => r matches Err(f) && f == local_transport(SessionError::Decode(e)),
                Ok(g) => if g is Some && self.goaway().spec_sent() {
                    r matches Err(f) && f == on_protocol_error(StreamProtocolError::DuplicateGoAway)
                } else if frame.spec_payload().len() > 0xffff {
                    r matches Err(f) && f == local_transport(
                        SessionError::Encode(EncodeError::MsgBoundsExceeded),
                    )
                } else {
                    &&& r matches Ok((bytes, held))
                    &&& bytes@ == frame_bytes(frame.message_type, frame.spec_payload())
                    &&& match (g, held) {
                        (None, None) => true,
                        (Some((uri, timeout)), Some(goaway)) => goaway@.uri == uri
                            && goaway.timeout_ms == timeout,
                        _ => false,
                    }
                },
            },
    {
        let goaway: Option<GoAway> = if frame.message_type == GOAWAY_TYPE {
            match GoAway::from_frame(frame) {
                Ok(g) => Some(g),
                Err(e) => {
                    return Err(quiet_transport(SessionError::Decode(e)));
                },
            }
        } else {
            None
        };
        if goaway.is_some() && self.control_goaway.sent() {
            return Err(protocol_error(StreamProtocolError::DuplicateGoAway));
        }
        match encode_frame(frame) {
            Ok(bytes) => Ok((bytes, goaway)),
            Err(e) => Err(quiet_transport(SessionError::Encode(e))),
        }
    }

    /// A control frame was sent; the timeout of a GOAWAY in it runs from now.
    pub fn control_sent(&mut self, goaway: Option<GoAway>, now_ms: u64) -> (r: Result<
        (),
        SessionFailure,
    >)
        ensures
            final(self).same_but_goaway(old(self)),
            final(self).goaway().spec_received() == old(self).goaway().spec_received(),
            match goaway {
                None => r is Ok && final(self).goaway() == old(self).goaway(),
                Some(g) => if old(self).goaway().spec_sent() {
                    &&& r == Err::<(), SessionFailure>(
                        local_protocol(StreamProtocolError::DuplicateGoAway),
                    )
                    &&& final(self).goaway() == old(self).goaway()
                } else {
                    &&& r is Ok
                    &&& final(self).goaway().spec_sent()
                    &&& final(self).goaway().spec_deadline() == goaway_deadline(
                        g.timeout_ms,
                        now_ms,
                    )
                },
            },
    {
        match goaway {
            None => Ok(()),
            Some(g) => match self.control_goaway.record_sent(&g, now_ms) {
                Ok(()) => Ok(()),
                Err(e) => Err(quiet_protocol(e)),
            },
        }
    }

    /// What reading the peer's control stream came to. The stream never ends
    /// in good order, and any failure on it ends the session.
    pub fn receive_control(&mut self, event: StreamEvent) -> (r: Result<Frame, SessionFailure>)
        ensures
            final(self).same_but_goaway(old(self)),
            final(self).goaway().spec_sent() == old(self).goaway().spec_sent(),
            final(self).goaway().spec_deadline() == old(self).goaway().spec_deadline(),
            match event {
                StreamEvent::PollFailed(e) | StreamEvent::ReadFailed(e) => {
                    &&& r matches Err(f)
                    &&& f == on_control_error(e)
                    &&& final(self).goaway().spec_received() == old(self).goaway().spec_received()
                },
                StreamEvent::Finished => {
                    &&& r matches Err(f)
                    &&& f == on_protocol_error(StreamProtocolError::ControlStreamClosed)
                    &&& final(self).goaway().spec_received() == old(self).goaway().spec_received()
                },
                StreamEvent::Message(frame) => match on_received_frame(
                    old(self).spec_role(),
                    old(self).goaway().spec_received(),
                    frame.message_type,
                    frame.spec_payload(),
                ) {
                    Ok(is_goaway) => {
                        &&& r matches Ok(f)
                        &&& f == frame
                        &&& final(self).goaway().spec_received() == (old(
                            self,
                        ).goaway().spec_received() || is_goaway)
                    },
                    Err(cause) => {
                        &&& r matches Err(f)
                        &&& f == match cause {
                            Ok(e) => on_control_error(SessionError::Decode(e)),
                            Err(e) => on_protocol_error(e),
                        }
                        &&& final(self).goaway().spec_received() == old(
                            self,
                        ).goaway().spec_received()
                    },
                },
            },
    {
        match event {
            StreamEvent::PollFailed(e) => Err(control_error(e)),
            StreamEvent::ReadFailed(e) => Err(control_error(e)),
            StreamEvent::Finished => Err(protocol_error(StreamProtocolError::ControlStreamClosed)),
            StreamEvent::Message(frame) => {
                match note_received_goaway(self.role, &mut self.control_goaway, &frame) {
                    Ok(_) => Ok(frame),
                    Err(Ok(e)) => Err(control_error(SessionError::Decode(e))),
                    Err(Err(e)) => Err(protocol_error(e)),
                }
            },
        }
    }

    pub fn control_goaway_timeout_expired(&self, now_ms: u64) -> (r: bool)
        ensures
            r == self.goaway().spec_expired(now_ms),
    {
        self.control_goaway.timeout_expired(now_ms)
    }

    /// The code that the session closes with, where its GOAWAY has expired
    /// while requests are open.
    pub fn enforce_control_goaway_timeout(&self, now_ms: u64, has_open_requests: bool) -> (r:
        Option<SessionErrorCode>)
        ensures
            r == if has_open_requests && self.goaway().spec_expired(now_ms) {
                Some(SessionErrorCode::GoAwayTimeout)
            } else {
                None
            },
    {
        control_goaway_timeout_action(&self.control_goaway, now_ms, has_open_requests)
    }

    /// The code of a graceful close, which follows a GOAWAY of either side.
    pub fn close_after_goaway(&self) -> (r: Result<SessionErrorCode, SessionFailure>)
        ensures
            r == if self.goaway().spec_sent() || self.goaway().spec_received() {
                Ok::<SessionErrorCode, SessionFailure>(SessionErrorCode::NoError)
            } else {
                Err(local_protocol(StreamProtocolError::InvalidTransition))
            },
    {
        if !self.control_goaway.active() {
            return Err(quiet_protocol(StreamProtocolError::InvalidTransition));
        }
        Ok(SessionErrorCode::NoError)
    }

    /// A request of this side, with the bytes that open its stream.
    pub fn open_request(&self, first: &Frame) -> (r: Result<
        (Draft19RequestStream, Vec<u8>),
        SessionFailure,
    >)
        ensures
            match r {
                Ok((stream, bytes)) => {
                    &&& stream.is_fresh(
                        self.spec_role(),
                        RequestStreamRole::Requester,
                        first.message_type,
                    )
                    &&& first.spec_payload().len() <= 0xffff
                    &&& bytes@ == frame_bytes(first.message_type, first.spec_payload())
                },
                Err(e) => if exists|kind: RequestKind|
                    #[trigger] kind.first_message() == first.message_type {
                    first.spec_payload().len() > 0xffff && e == local_transport(
                        SessionError::Encode(EncodeError::MsgBoundsExceeded),
                    )
                } else {
                    e == local_protocol(
                        StreamProtocolError::InvalidFirstMessage {
                            message_type: first.message_type,
                        },
                    )
                },
            },
    {
        let lifecycle: RequestStream = match RequestStream::new_for_role(
            WireProfile::Draft19,
            first.message_type,
            RequestStreamRole::Requester,
        ) {
            Ok(l) => l,
            Err(e) => {
                return Err(quiet_protocol(e));
            },
        };
        assert(lifecycle@.kind.first_message() == first.message_type);
        let bytes: Vec<u8> = match encode_frame(first) {
            Ok(bytes) => bytes,
            Err(e) => {
                return Err(quiet_transport(SessionError::Encode(e)));
            },
        };
        Ok(
            (
                Draft19RequestStream {
                    role: self.role,
                    lifecycle,
                    goaway: GoAwayState::default(),
                },
                bytes,
            ),
        )
    }

    /// A request of the peer, out of what reading its first message came to.
    pub fn accept_request(&self, first: Result<Frame, SessionError>) -> (r: Result<
        Draft19RequestStream,
        SessionFailure,
    >)
        ensures
            match first {
                Err(e) => r matches Err(f) && f == on_transport_error(e),
                Ok(frame) => match r {
                    Ok(stream) => stream.is_fresh(
                        self.spec_role(),
                        RequestStreamRole::Responder,
                        frame.message_type,
                    ),
                    Err(f) => {
                        &&& forall|kind: RequestKind|
                            #[trigger] kind.first_message() != frame.message_type
                        &&& f == on_protocol_error(
                            StreamProtocolError::InvalidFirstMessage {
                                message_type: frame.message_type,
                            },
                        )
                    },
                },
            },
    {
        let frame: Frame = match first {
            Ok(frame) => frame,
            Err(e) => {
                return Err(transport_error(e));
            },
        };
        match RequestStream::new_for_role(
            WireProfile::Draft19,
            frame.message_type,
            RequestStreamRole::Responder,
        ) {
            Ok(lifecycle) => Ok(
                Draft19RequestStream {
                    role: self.role,
                    lifecycle,
                    goaway: GoAwayState::default(),
                },
            ),
            Err(e) => Err(protocol_error(e)),
        }
    }
}

fn encode_frame(frame: &Frame) -> (r: Result<Vec<u8>, EncodeError>)
    ensures
        match r {
            Ok(bytes) => frame.spec_payload().len() <= 0xffff && bytes@ == frame_bytes(
                frame.message_type,
                frame.spec_payload(),
            ),
            Err(e) => frame.spec_payload().len() > 0xffff && e == EncodeError::MsgBoundsExceeded,
        },
{
    let mut bytes: Vec<u8> = Vec::new();
    match frame.encode(&mut bytes) {
        Ok(()) => {
            assert(bytes@ =~= frame_bytes(frame.message_type, frame.spec_payload()));
            Ok(bytes)
        },
        Err(e) => Err(e),
    }
}

/// What is to be written on a request stream: the bytes, and the GOAWAY in
/// them, to be recorded once they were sent.
pub struct Outgoing {
    pub bytes: Vec<u8>,
    pub goaway: Option<GoAway>,
}

/// The state of a request's stream within a session.
pub struct Draft19RequestStream {
    role: Draft19SessionRole,
    lifecycle: RequestStream,
    goaway: GoAwayState,
}

impl Draft19RequestStream {
    pub closed spec fn spec_role(&self) -> Draft19SessionRole {
        self.role
    }

    pub closed spec fn request(&self) -> RequestView {
        self.lifecycle@
    }

    pub closed spec fn spec_goaway(&self) -> GoAwayState {
        self.goaway
    }

    /// A stream that has just carried its first message.
    pub open spec fn is_fresh(
        &self,
        session_role: Draft19SessionRole,
        role: RequestStreamRole,
        first_message: u64,
    ) -> bool {
        &&& self.spec_role() == session_role
        &&& self.request() == RequestView::fresh(self.request().kind, role)
        &&& self.request().kind.first_message() == first_message
        &&& !self.spec_goaway().spec_sent()
        &&& !self.spec_goaway().spec_received()
        &&& self.spec_goaway().spec_deadline() is None
    }

    /// Nothing changed.
    pub open spec fn unchanged(&self, before: &Draft19RequestStream) -> bool {
        &&& self.spec_role() == before.spec_role()
        &&& self.request() == before.request()
        &&& self.spec_goaway() == before.spec_goaway()
    }

    /// What sending a GOAWAY on this stream comes to.
    pub open spec fn goaway_outcome(
        &self,
        uri: Seq<char>,
        timeout_ms: u64,
        r: Result<Outgoing, SessionFailure>,
    ) -> bool {
        if self.spec_goaway().spec_sent() {
            r matches Err(f) && f == on_protocol_error(StreamProtocolError::DuplicateGoAway)
        } else if encode_utf8(uri).len() > MAX_SESSION_URI_LEN {
            r matches Err(f) && f == local_transport(
                SessionError::Encode(EncodeError::FieldBoundsExceeded(Field::SessionUri)),
            )
        } else {
            &&& r matches Ok(out)
            &&& out.goaway matches Some(g)
            &&& g@.uri == uri
            &&& g.timeout_ms == timeout_ms
            &&& out.bytes@ == frame_bytes(GOAWAY_TYPE, goaway_payload(g@))
        }
    }

    /// What sending a frame comes to, where `allowed` says whether the life
    /// cycle lets another message than GOAWAY through.
    pub open spec fn send_outcome(
        &self,
        message_type: u64,
        payload: Seq<u8>,
        allowed: Result<(), StreamProtocolError>,
        r: Result<Outgoing, SessionFailure>,
    ) -> bool {
        if message_type == GOAWAY_TYPE {
            match goaway_decode(payload) {
                Err(e) => r matches Err(f) && f == local_transport(SessionError::Decode(e)),
                Ok(g) => self.goaway_outcome(g.uri, g.timeout_ms, r),
            }
        } else {
            match allowed {
                Err(e) => r matches Err(f) && f == on_protocol_error(e),
                Ok(()) => sent_plain(message_type, payload, r),
            }
        }
    }

    pub fn lifecycle(&self) -> (r: &RequestStream)
        ensures
            r@ == self.request(),
    {
        &self.lifecycle
    }

    /// Answers the request, or sends a GOAWAY first.
    pub fn send_first_response(&mut self, frame: &Frame) -> (r: Result<Outgoing, SessionFailure>)
        ensures
            final(self).spec_role() == old(self).spec_role(),
            final(self).spec_goaway() == old(self).spec_goaway(),
            ({
                let step = old(self).request().on_send_first_response(frame.message_type);
                &&& old(self).send_outcome(
                    frame.message_type,
                    frame.spec_payload(),
                    match step {
                        Ok(_) => Ok(()),
                        Err(e) => Err(e),
                    },
                    r,
                )
                &&& final(self).request() == match step {
                    Ok(next) if frame.message_type != GOAWAY_TYPE => next,
                    _ => old(self).request(),
                }
            }),
    {
        if frame.message_type == GOAWAY_TYPE {
            return self.send_goaway_frame(frame);
        }
        match self.lifecycle.send_first_response(frame.message_type) {
            Ok(()) => {},
            Err(e) => {
                return Err(protocol_error(e));
            },
        }
        outgoing_plain(frame)
    }

    /// What reading the answer came to. A GOAWAY may come before it.
    pub fn receive_first_response(&mut self, event: StreamEvent) -> (r: Result<
        Frame,
        SessionFailure,
    >)
        ensures
            first_response_received(*old(self), *final(self), event, r),
    {
        match event {
            StreamEvent::PollFailed(e) => Err(quiet_transport(e)),
            StreamEvent::Finished => {
                let e: StreamProtocolError = first_response_fin_error(&mut self.lifecycle);
                Err(protocol_error(e))
            },
            StreamEvent::ReadFailed(e) => Err(transport_error(e)),
            StreamEvent::Message(frame) => {
                match note_received_goaway(self.role, &mut self.goaway, &frame) {
                    Ok(true) => {
                        return Ok(frame);
                    },
                    Ok(false) => {},
                    Err(Ok(e)) => {
                        return Err(transport_error(SessionError::Decode(e)));
                    },
                    Err(Err(e)) => {
                        return Err(protocol_error(e));
                    },
                }
                match self.lifecycle.receive_first_response(frame.message_type) {
                    Ok(()) => Ok(frame),
                    Err(e) => Err(protocol_error(e)),
                }
            },
        }
    }

    /// Sends a message that follows the first ones.
    pub fn send_message(&mut self, frame: &Frame) -> (r: Result<Outgoing, SessionFailure>)
        ensures
            final(self).unchanged(old(self)),
            old(self).send_outcome(
                frame.message_type,
                frame.spec_payload(),
                if old(self).request().role == RequestStreamRole::Requester || old(
                    self,
                ).request().answered {
                    Ok(())
                } else {
                    Err(
                        StreamProtocolError::InvalidFirstResponse {
                            message_type: frame.message_type,
                        },
                    )
                },
                r,
            ),
    {
        if frame.message_type == GOAWAY_TYPE {
            return self.send_goaway_frame(frame);
        }
        if !self.lifecycle.can_send_followup() {
            return Err(
                protocol_error(
                    StreamProtocolError::InvalidFirstResponse { message_type: frame.message_type },
                ),
            );
        }
        outgoing_plain(frame)
    }

    /// What reading a message that follows the first ones came to.
    pub fn receive_message(&mut self, event: StreamEvent) -> (r: Result<
        Option<Frame>,
        SessionFailure,
    >)
        ensures
            followup_received(*old(self), *final(self), event, r),
    {
        if !self.lifecycle.can_receive_followup() {
            return Err(
                protocol_error(StreamProtocolError::InvalidFirstResponse { message_type: 0 }),
            );
        }
        match event {
            StreamEvent::PollFailed(e) => Err(quiet_transport(e)),
            StreamEvent::Finished => match self.lifecycle.receive_fin() {
                Ok(()) => Ok(None),
                Err(e) => Err(quiet_protocol(e)),
            },
            StreamEvent::ReadFailed(e) => Err(transport_error(e)),
            StreamEvent::Message(frame) => {
                match note_received_goaway(self.role, &mut self.goaway, &frame) {
                    Ok(_) => Ok(Some(frame)),
                    Err(Ok(e)) => Err(transport_error(SessionError::Decode(e))),
                    Err(Err(e)) => Err(protocol_error(e)),
                }
            },
        }
    }

    /// Ends the subscription that this side serves.
    pub fn send_publish_done(&mut self, frame: &Frame) -> (r: Result<Outgoing, SessionFailure>)
        ensures
            final(self).spec_role() == old(self).spec_role(),
            final(self).spec_goaway() == old(self).spec_goaway(),
            frame.message_type != PUBLISH_DONE_TYPE ==> {
                &&& r matches Err(f)
                &&& f == local_protocol(StreamProtocolError::InvalidTransition)
                &&& final(self).request() == old(self).request()
            },
            frame.message_type == PUBLISH_DONE_TYPE ==> match old(
                self,
            ).request().on_send_publish_done() {
                Ok(next) => final(self).request() == next && sent_plain(
                    frame.message_type,
                    frame.spec_payload(),
                    r,
                ),
                Err(e) => r matches Err(f) && f == on_protocol_error(e) && final(self).request()
                    == old(self).request(),
            },
    {
        if frame.message_type != PUBLISH_DONE_TYPE {
            return Err(quiet_protocol(StreamProtocolError::InvalidTransition));
        }
        match self.lifecycle.send_publish_done() {
            Ok(()) => outgoing_plain(frame),
            Err(e) => Err(protocol_error(e)),
        }
    }

    /// What reading the end of the peer's subscription came to, out of what
    /// [`Self::receive_message`] gave.
    pub fn receive_publish_done(&mut self, message: Result<Option<Frame>, SessionFailure>) -> (r:
        Result<Frame, SessionFailure>)
        ensures
            final(self).spec_role() == old(self).spec_role(),
            final(self).spec_goaway() == old(self).spec_goaway(),
            match message {
                Err(e) => r matches Err(f) && f == e && final(self).request() == old(
                    self,
                ).request(),
                Ok(None) => r matches Err(f) && f == local_protocol(
                    StreamProtocolError::PrematureFin,
                ) && final(self).request() == old(self).request(),
                Ok(Some(frame)) => if frame.message_type != PUBLISH_DONE_TYPE {
                    r matches Err(f) && f == local_protocol(StreamProtocolError::InvalidTransition)
                        && final(self).request() == old(self).request()
                } else {
                    match old(self).request().on_receive_publish_done() {
                        Ok(next) => r matches Ok(f) && f == frame && final(self).request() == next,
                        Err(e) => r matches Err(f) && f == on_protocol_error(e)
                            && final(self).request() == old(self).request(),
                    }
                },
            },
    {
        let frame: Frame = match message {
            Err(e) => {
                return Err(e);
            },
            Ok(None) => {
                return Err(quiet_protocol(StreamProtocolError::PrematureFin));
            },
            Ok(Some(frame)) => frame,
        };
        if frame.message_type != PUBLISH_DONE_TYPE {
            return Err(quiet_protocol(StreamProtocolError::InvalidTransition));
        }
        match self.lifecycle.receive_publish_done() {
            Ok(()) => Ok(frame),
            Err(e) => Err(protocol_error(e)),
        }
    }

    /// Whether the sending half may be finished.
    pub fn finish_sending(&mut self) -> (r: Result<(), SessionFailure>)
        ensures
            final(self).spec_role() == old(self).spec_role(),
            final(self).spec_goaway() == old(self).spec_goaway(),
            match old(self).request().on_finish_sending() {
                Ok(next) => r is Ok && final(self).request() == next,
                Err(e) => r == Err::<(), SessionFailure>(local_protocol(e))
                    && final(self).request() == old(self).request(),
            },
    {
        match self.lifecycle.finish_sending() {
            Ok(()) => Ok(()),
            Err(e) => Err(quiet_protocol(e)),
        }
    }

    /// The bytes of a GOAWAY for this stream.
    pub fn send_goaway(&self, goaway: GoAway) -> (r: Result<Outgoing, SessionFailure>)
        ensures
            self.goaway_outcome(goaway@.uri, goaway.timeout_ms, r),
    {
        if self.goaway.sent() {
            return Err(protocol_error(StreamProtocolError::DuplicateGoAway));
        }
        let frame: Frame = match goaway.clone().into_frame() {
            Ok(frame) => frame,
            Err(e) => {
                return Err(quiet_transport(SessionError::Encode(e)));
            },
        };
        proof {
            crate::draft19::goaway::law_goaway_round_trip(goaway@);
        }
        match encode_frame(&frame) {
            Ok(bytes) => Ok(Outgoing { bytes, goaway: Some(goaway) }),
            Err(e) => Err(quiet_transport(SessionError::Encode(e))),
        }
    }

    fn send_goaway_frame(&self, frame: &Frame) -> (r: Result<Outgoing, SessionFailure>)
        requires
            frame.message_type == GOAWAY_TYPE,
        ensures
            match goaway_decode(frame.spec_payload()) {
                Err(e) => r matches Err(f) && f == local_transport(SessionError::Decode(e)),
                Ok(g) => self.goaway_outcome(g.uri, g.timeout_ms, r),
            },
    {
        match GoAway::from_frame(frame) {
            Ok(g) => self.send_goaway(g),
            Err(e) => Err(quiet_transport(SessionError::Decode(e))),
        }
    }

    /// A frame was sent; the timeout of a GOAWAY in it runs from now.
    pub fn message_sent(&mut self, goaway: Option<GoAway>, now_ms: u64) -> (r: Result<
        (),
        SessionFailure,
    >)
        ensures
            final(self).spec_role() == old(self).spec_role(),
            final(self).request() == old(self).request(),
            final(self).spec_goaway().spec_received() == old(self).spec_goaway().spec_received(),
            match goaway {
                None => r is Ok && final(self).spec_goaway() == old(self).spec_goaway(),
                Some(g) => if old(self).spec_goaway().spec_sent() {
                    &&& r == Err::<(), SessionFailure>(
                        local_protocol(StreamProtocolError::DuplicateGoAway),
                    )
                    &&& final(self).spec_goaway() == old(self).spec_goaway()
                } else {
                    &&& r is Ok
                    &&& final(self).spec_goaway().spec_sent()
                    &&& final(self).spec_goaway().spec_deadline() == goaway_deadline(
                        g.timeout_ms,
                        now_ms,
                    )
                },
            },
    {
        match goaway {
            None => Ok(()),
            Some(g) => match self.goaway.record_sent(&g, now_ms) {
                Ok(()) => Ok(()),
                Err(e) => Err(quiet_protocol(e)),
            },
        }
    }

    /// Whether the sending half may be finished early, which follows a GOAWAY
    /// of either side.
    pub fn finish_after_goaway(&mut self) -> (r: Result<(), SessionFailure>)
        ensures
            final(self).spec_role() == old(self).spec_role(),
            final(self).spec_goaway() == old(self).spec_goaway(),
            ({
                let active = old(self).spec_goaway().spec_sent() || old(
                    self,
                ).spec_goaway().spec_received();
                match old(self).request().on_finish_for_goaway() {
                    Ok(next) if active => r is Ok && final(self).request() == next,
                    Err(e) if active => r == Err::<(), SessionFailure>(local_protocol(e))
                        && final(self).request() == old(self).request(),
                    _ => r == Err::<(), SessionFailure>(
                        local_protocol(StreamProtocolError::InvalidTransition),
                    ) && final(self).request() == old(self).request(),
                }
            }),
    {
        if !self.goaway.active() {
            return Err(quiet_protocol(StreamProtocolError::InvalidTransition));
        }
        match self.lifecycle.finish_sending_for_goaway() {
            Ok(()) => Ok(()),
            Err(e) => Err(quiet_protocol(e)),
        }
    }

    /// The code that the sending half is reset with, where this side's GOAWAY
    /// has expired and the half is still open.
    pub fn enforce_goaway_timeout(&mut self, now_ms: u64) -> (r: Option<StreamErrorCode>)
        ensures
            final(self).spec_role() == old(self).spec_role(),
            final(self).spec_goaway() == old(self).spec_goaway(),
            match old(self).request().on_reset_sending(StreamErrorCode::GoingAway) {
                Ok((next, _)) if old(self).spec_goaway().spec_expired(now_ms) => r == Some(
                    StreamErrorCode::GoingAway,
                ) && final(self).request() == next,
                _ => r is None && final(self).request() == old(self).request(),
            },
    {
        match request_goaway_timeout_action(&self.goaway, &mut self.lifecycle, now_ms) {
            Ok(Some(StreamAction::Reset(code))) => Some(code),
            _ => None,
        }
    }

    /// What is to be done to the transport's stream to give the request up.
    pub fn cancel(&mut self, code: StreamErrorCode) -> (r: Result<StreamAction, SessionFailure>)
        ensures
            final(self).spec_role() == old(self).spec_role(),
            final(self).spec_goaway() == old(self).spec_goaway(),
            match old(self).request().on_cancel(code) {
                Ok((next, action)) => r == Ok::<StreamAction, SessionFailure>(action)
                    && final(self).request() == next,
                Err(e) => r == Err::<StreamAction, SessionFailure>(local_protocol(e))
                    && final(self).request() == old(self).request(),
            },
    {
        match self.lifecycle.cancel(code) {
            Ok(action) => Ok(action),
            Err(e) => Err(quiet_protocol(e)),
        }
    }
}

/// What sending a frame that is no GOAWAY comes to.
pub open spec fn sent_plain(
    message_type: u64,
    payload: Seq<u8>,
    r: Result<Outgoing, SessionFailure>,
) -> bool {
    if payload.len() > 0xffff {
        r matches Err(f) && f == local_transport(
            SessionError::Encode(EncodeError::MsgBoundsExceeded),
        )
    } else {
        &&& r matches Ok(out)
        &&& out.bytes@ == frame_bytes(message_type, payload)
        &&& out.goaway is None
    }
}

fn outgoing_plain(frame: &Frame) -> (r: Result<Outgoing, SessionFailure>)
    ensures
        sent_plain(frame.message_type, frame.spec_payload(), r),
{
    match encode_frame(frame) {
        Ok(bytes) => Ok(Outgoing { bytes, goaway: None }),
        Err(e) => Err(quiet_transport(SessionError::Encode(e))),
    }
}

/// What a received frame does to a stream's GOAWAY, and what reading it comes
/// to.
pub open spec fn received_goaway(
    before: Draft19RequestStream,
    after: Draft19RequestStream,
    frame: Frame,
    r: Result<Frame, SessionFailure>,
) -> bool {
    match on_received_frame(
        before.spec_role(),
        before.spec_goaway().spec_received(),
        frame.message_type,
        frame.spec_payload(),
    ) {
        Ok(is_goaway) => {
            &&& r matches Ok(f)
            &&& f == frame
            &&& after.spec_goaway().spec_received() == (before.spec_goaway().spec_received()
                || is_goaway)
        },
        Err(cause) => {
            &&& r matches Err(f)
            &&& f == match cause {
                Ok(e) => on_transport_error(SessionError::Decode(e)),
                Err(e) => on_protocol_error(e),
            }
            &&& after.spec_goaway().spec_received() == before.spec_goaway().spec_received()
        },
    }
}

/// What reading the answer to a request comes to.
pub open spec fn first_response_received(
    before: Draft19RequestStream,
    after: Draft19RequestStream,
    event: StreamEvent,
    r: Result<Frame, SessionFailure>,
) -> bool {
    &&& after.spec_role() == before.spec_role()
    &&& after.spec_goaway().spec_sent() == before.spec_goaway().spec_sent()
    &&& after.spec_goaway().spec_deadline() == before.spec_goaway().spec_deadline()
    &&& match event {
        StreamEvent::PollFailed(e) => r matches Err(f) && f == local_transport(e)
            && after.unchanged(&before),
        StreamEvent::ReadFailed(e) => r matches Err(f) && f == on_transport_error(e)
            && after.unchanged(&before),
        StreamEvent::Finished => {
            &&& after.spec_goaway() == before.spec_goaway()
            &&& r matches Err(f)
            &&& match before.request().on_receive_fin() {
                Ok(next) => f == on_protocol_error(StreamProtocolError::InvalidTransition)
                    && after.request() == next,
                Err(e) => f == on_protocol_error(e) && after.request() == before.request(),
            }
        },
        StreamEvent::Message(frame) => if frame.message_type == GOAWAY_TYPE {
            &&& after.request() == before.request()
            &&& received_goaway(before, after, frame, r)
        } else {
            &&& after.spec_goaway().spec_received() == before.spec_goaway().spec_received()
            &&& match before.request().on_receive_first_response(frame.message_type) {
                Ok(next) => r matches Ok(f) && f == frame && after.request() == next,
                Err(e) => r matches Err(f) && f == on_protocol_error(e) && after.request()
                    == before.request(),
            }
        },
    }
}

/// What reading a message that follows the first ones comes to.
pub open spec fn followup_received(
    before: Draft19RequestStream,
    after: Draft19RequestStream,
    event: StreamEvent,
    r: Result<Option<Frame>, SessionFailure>,
) -> bool {
    &&& after.spec_role() == before.spec_role()
    &&& after.spec_goaway().spec_sent() == before.spec_goaway().spec_sent()
    &&& after.spec_goaway().spec_deadline() == before.spec_goaway().spec_deadline()
    &&& if !(before.request().role == RequestStreamRole::Responder || before.request().answered) {
        &&& r matches Err(f)
        &&& f == on_protocol_error(StreamProtocolError::InvalidFirstResponse { message_type: 0 })
        &&& after.unchanged(&before)
    } else {
        match event {
            StreamEvent::PollFailed(e) => r matches Err(f) && f == local_transport(e)
                && after.unchanged(&before),
            StreamEvent::ReadFailed(e) => r matches Err(f) && f == on_transport_error(e)
                && after.unchanged(&before),
            StreamEvent::Finished => {
                &&& after.spec_goaway() == before.spec_goaway()
                &&& match before.request().on_receive_fin() {
                    Ok(next) => r matches Ok(None) && after.request() == next,
                    Err(e) => r matches Err(f) && f == local_protocol(e) && after.request()
                        == before.request(),
                }
            },
            StreamEvent::Message(frame) => {
                &&& after.request() == before.request()
                &&& received_goaway(
                    before,
                    after,
                    frame,
                    match r {
                        Ok(Some(f)) => Ok(f),
                        Ok(None) => arbitrary(),
                        Err(f) => Err(f),
                    },
                )
                &&& !(r matches Ok(None))
            },
        }
    }
}

/// Who closes the session: a failure on the control stream always does; on a
/// request stream only bytes that make no sense do; a broken rule does where it
/// is one of the session; and what this side finds out before it sends never
/// does.
pub proof fn law_failures_close_the_session_for_cause(e: SessionError, p: StreamProtocolError)
    ensures
        on_control_error(e).close == Some(SessionErrorCode::ProtocolViolation),
        on_control_error(e).error == Draft19SessionError::Transport(e),
        e is Decode ==> on_transport_error(e).close == Some(SessionErrorCode::ProtocolViolation),
        !(e is Decode) ==> on_transport_error(e).close is None,
        on_transport_error(e).error == Draft19SessionError::Transport(e),
        on_protocol_error(p).error == Draft19SessionError::Protocol(p),
        p == StreamProtocolError::PrematureFin || p == StreamProtocolError::InvalidTransition
            ==> on_protocol_error(p).close is None,
        p != StreamProtocolError::PrematureFin && p != StreamProtocolError::InvalidTransition
            ==> on_protocol_error(p).close == Some(SessionErrorCode::ProtocolViolation),
        local_transport(e).close is None,
        local_transport(e).error == Draft19SessionError::Transport(e),
        local_protocol(p).close is None,
        local_protocol(p).error == Draft19SessionError::Protocol(p),
        PUBLISH_DONE_TYPE == 11,
{
}

/// A GOAWAY that the peer sent is noted as what it is: the first one on a stream,
/// where this side is a client or no new session is named. A second one is an
/// error, and so is one that names a server a new session. Any other message is
/// none.
pub proof fn law_first_goaway_is_noted(
    role: Draft19SessionRole,
    already: bool,
    g: crate::draft19::goaway::GoAwayView,
    message_type: u64,
    payload: Seq<u8>,
)
    requires
        encode_utf8(g.uri).len() <= 8192,
    ensures
        ({
            let r = on_received_frame(role, already, 16, goaway_payload(g));
            let allowed = role == Draft19SessionRole::Client || g.uri.len() == 0;
            &&& allowed && !already ==> r == Ok::<bool, Result<DecodeError, StreamProtocolError>>(
                true,
            )
            &&& allowed && already ==> r == Err::<bool, Result<DecodeError, StreamProtocolError>>(
                Err(StreamProtocolError::DuplicateGoAway),
            )
            &&& !allowed ==> r == Err::<bool, Result<DecodeError, StreamProtocolError>>(
                Err(StreamProtocolError::ServerGoAwayWithNewSessionUri),
            )
        }),
        message_type != 16 ==> on_received_frame(role, already, message_type, payload) == Ok::<
            bool,
            Result<DecodeError, StreamProtocolError>,
        >(false),
        goaway_decode(payload) matches Err(e) ==> on_received_frame(role, already, 16, payload)
            == Err::<bool, Result<DecodeError, StreamProtocolError>>(Ok(e)),
        outgoing_goaway(16, goaway_payload(g)) == Ok::<Option<(Seq<char>, u64)>, DecodeError>(
            Some((g.uri, g.timeout_ms)),
        ),
        message_type != 16 ==> outgoing_goaway(message_type, payload) == Ok::<
            Option<(Seq<char>, u64)>,
            DecodeError,
        >(None),
{
    crate::draft19::goaway::law_goaway_round_trip(g);
}

/// What is sent on a request stream is read by the peer as it is: a frame of the
/// same type with the same payload. One whose payload does not fit is not sent.
pub proof fn law_sent_frame_is_read_as_it_is(
    message_type: u64,
    payload: Seq<u8>,
    r: Result<Outgoing, SessionFailure>,
    rest: Seq<u8>,
)
    requires
        sent_plain(message_type, payload, r),
    ensures
        (r is Ok) == (payload.len() <= 0xffff),
        r matches Ok(out) ==> {
            let read = crate::draft19::setup::frame_decode(out.bytes@ + rest);
            &&& out.goaway is None
            &&& read is Ok
            &&& (read->Ok_0).0 == message_type
            &&& (read->Ok_0).1 == payload
        },
        r matches Err(f) ==> f.close is None,
{
    if payload.len() <= 0xffff {
        crate::draft19::setup::law_frame_round_trip(message_type, payload, rest);
    }
}

/// A GOAWAY on a request stream is sent once, with its URI and timeout, and is
/// read by the peer as what it is; a URI that is too long is not sent, and a
/// second GOAWAY would break the rules.
pub proof fn law_sent_goaway_is_read_as_it_is(
    stream: Draft19RequestStream,
    uri: Seq<char>,
    timeout_ms: u64,
    r: Result<Outgoing, SessionFailure>,
    rest: Seq<u8>,
)
    requires
        stream.goaway_outcome(uri, timeout_ms, r),
    ensures
        (r is Ok) == (!stream.spec_goaway().spec_sent() && encode_utf8(uri).len() <= 8192),
        stream.spec_goaway().spec_sent() ==> r is Err && r->Err_0.error
            == Draft19SessionError::Protocol(StreamProtocolError::DuplicateGoAway),
        r matches Ok(out) ==> {
            let read = crate::draft19::setup::frame_decode(out.bytes@ + rest);
            &&& out.goaway is Some
            &&& (out.goaway->0)@.uri == uri
            &&& (out.goaway->0).timeout_ms == timeout_ms
            &&& read is Ok
            &&& (read->Ok_0).0 == 16
            &&& goaway_decode((read->Ok_0).1) is Ok
            &&& (goaway_decode((read->Ok_0).1)->Ok_0).uri == uri
            &&& (goaway_decode((read->Ok_0).1)->Ok_0).timeout_ms == timeout_ms
        },
{
    if let Ok(out) = r {
        let g = (out.goaway->0)@;
        crate::draft19::goaway::law_goaway_round_trip(g);
        crate::draft19::setup::law_frame_round_trip(16, goaway_payload(g), rest);
    }
}

/// The life cycle says what may be sent, but a GOAWAY may be sent at any time.
pub proof fn law_lifecycle_governs_what_is_sent(
    stream: Draft19RequestStream,
    message_type: u64,
    payload: Seq<u8>,
    allowed: Result<(), StreamProtocolError>,
    r: Result<Outgoing, SessionFailure>,
)
    requires
        stream.send_outcome(message_type, payload, allowed, r),
    ensures
        message_type != 16 && allowed is Ok ==> (r is Ok) == (payload.len() <= 0xffff),
        message_type != 16 && allowed is Err ==> r is Err && r->Err_0.error
            == Draft19SessionError::Protocol(allowed->Err_0),
        message_type != 16 ==> (r matches Ok(out) ==> out.goaway is None),
        message_type == 16 ==> (r matches Ok(out) ==> out.goaway is Some),
        message_type == 16 && goaway_decode(payload) is Err ==> r is Err,
        message_type == 16 && goaway_decode(payload) is Ok && stream.spec_goaway().spec_sent()
            ==> r is Err,
{
}

/// The answer of the peer is taken where it answers the request: the stream is
/// answered then, and the message handed on as it came. A GOAWAY before it is
/// handed on and noted, and answers nothing. A stream that finishes instead is an
/// error.
pub proof fn law_answer_is_handed_on(
    before: Draft19RequestStream,
    after: Draft19RequestStream,
    event: StreamEvent,
    r: Result<crate::draft19::setup::Frame, SessionFailure>,
)
    requires
        first_response_received(before, after, event, r),
    ensures
        after.spec_role() == before.spec_role(),
        after.spec_goaway().spec_sent() == before.spec_goaway().spec_sent(),
        r is Ok ==> event is Message && r->Ok_0 == event->Message_0,
        event matches StreamEvent::Message(frame) ==> {
            &&& frame.message_type != 16 ==> {
                let fits = frame.message_type == 5 || frame.message_type
                    == before.request().kind.spec_success_response();
                let waits = before.request().role == RequestStreamRole::Requester
                    && !before.request().answered;
                &&& (r is Ok) == (waits && fits)
                &&& r is Ok ==> after.request().answered
                &&& r is Err ==> after.request() == before.request()
                &&& after.spec_goaway().spec_received() == before.spec_goaway().spec_received()
            }
            &&& frame.message_type == 16 ==> {
                &&& after.request() == before.request()
                &&& r is Ok ==> after.spec_goaway().spec_received()
                    && !before.spec_goaway().spec_received()
            }
        },
        event is Finished ==> r is Err && after.spec_goaway() == before.spec_goaway(),
        event matches StreamEvent::PollFailed(e) ==> r is Err && r->Err_0 == (SessionFailure {
            error: Draft19SessionError::Transport(e),
            close: None,
        }),
        event matches StreamEvent::ReadFailed(e) ==> r is Err && r->Err_0.error
            == Draft19SessionError::Transport(e) && (r->Err_0.close is Some) == (e is Decode),
{
}

/// What follows the answer is handed on as it came, and a stream that finishes in
/// good order gives nothing more; before the answer nothing is read by the one
/// who waits for it.
pub proof fn law_followups_are_handed_on(
    before: Draft19RequestStream,
    after: Draft19RequestStream,
    event: StreamEvent,
    r: Result<Option<crate::draft19::setup::Frame>, SessionFailure>,
)
    requires
        followup_received(before, after, event, r),
    ensures
        after.spec_role() == before.spec_role(),
        before.request().role == RequestStreamRole::Requester && !before.request().answered
            ==> r is Err && after.request() == before.request(),
        r matches Ok(Some(frame)) ==> event is Message && frame == event->Message_0
            && after.request() == before.request(),
        r matches Ok(None) ==> event is Finished && after.request().receive
            == crate::draft19::stream::ReceiveState::Finished && !before.request().owed,
        (before.request().role == RequestStreamRole::Responder || before.request().answered)
            && event is Message && event->Message_0.message_type != 16 ==> r is Ok,
        (before.request().role == RequestStreamRole::Responder || before.request().answered)
            && event is Finished && before.request().receive
            == crate::draft19::stream::ReceiveState::Open && !before.request().owed ==> r is Ok,
        r is Err ==> after.request() == before.request(),
{
}

/// A GOAWAY leaves all of a session as it was but what is known of the GOAWAY.
pub proof fn law_goaway_leaves_the_session(before: Draft19Session, after: Draft19Session)
    requires
        after.same_but_goaway(&before),
    ensures
        after.spec_role() == before.spec_role(),
        after.spec_control() == before.spec_control(),
        after.spec_peer_options() == before.spec_peer_options(),
        after.spec_version() == before.spec_version(),
{
}

/// Reading moves no deadline and sends nothing; where it fails before a message
/// is there the stream is as it was.
pub proof fn law_reading_moves_no_deadline(
    before: Draft19RequestStream,
    after: Draft19RequestStream,
    event: StreamEvent,
    first: Result<crate::draft19::setup::Frame, SessionFailure>,
    later: Result<Option<crate::draft19::setup::Frame>, SessionFailure>,
)
    requires
        first_response_received(before, after, event, first) || followup_received(
            before,
            after,
            event,
            later,
        ),
    ensures
        after.spec_role() == before.spec_role(),
        after.spec_goaway().spec_deadline() == before.spec_goaway().spec_deadline(),
        after.spec_goaway().spec_sent() == before.spec_goaway().spec_sent(),
        event is PollFailed || event is ReadFailed ==> {
            &&& after.request() == before.request()
            &&& after.spec_goaway().spec_received() == before.spec_goaway().spec_received()
        },
{
}

/// Whoever waits for an answer and asks for what follows it is told so, and the
/// session is closed for it.
pub proof fn law_answer_comes_first(
    before: Draft19RequestStream,
    after: Draft19RequestStream,
    event: StreamEvent,
    r: Result<Option<crate::draft19::setup::Frame>, SessionFailure>,
)
    requires
        followup_received(before, after, event, r),
        before.request().role == RequestStreamRole::Requester,
        !before.request().answered,
    ensures
        r is Err,
        r->Err_0.error == Draft19SessionError::Protocol(
            StreamProtocolError::InvalidFirstResponse { message_type: 0 },
        ),
        r->Err_0.close == Some(SessionErrorCode::ProtocolViolation),
        after.request() == before.request(),
{
}

/// A stream that has just carried its first message is that request's, waits for
/// its answer, and knows of no GOAWAY.
pub proof fn law_new_stream_knows_no_goaway(
    stream: Draft19RequestStream,
    session_role: Draft19SessionRole,
    role: RequestStreamRole,
    first_message: u64,
)
    requires
        stream.is_fresh(session_role, role, first_message),
    ensures
        stream.spec_role() == session_role,
        stream.request().role == role,
        stream.request().kind.first_message() == first_message,
        !stream.request().answered,
        stream.request().send == crate::draft19::stream::SendState::Open,
        stream.request().receive == crate::draft19::stream::ReceiveState::Open,
        !stream.spec_goaway().spec_sent(),
        !stream.spec_goaway().spec_received(),
        stream.spec_goaway().spec_deadline() is None,
{
}

/// A frame that holds a GOAWAY which cannot be read, or which may not come,
/// closes the session, is not handed on and leaves no trace; any other is handed
/// on as it is.
pub proof fn law_bad_goaway_closes_the_session(
    before: Draft19RequestStream,
    after: Draft19RequestStream,
    frame: crate::draft19::setup::Frame,
    r: Result<crate::draft19::setup::Frame, SessionFailure>,
)
    requires
        received_goaway(before, after, frame, r),
    ensures
        frame.message_type != 16 ==> r is Ok && after.spec_goaway().spec_received()
            == before.spec_goaway().spec_received(),
        r matches Ok(f) ==> f == frame,
        frame.message_type == 16 && r is Ok ==> {
            &&& goaway_decode(frame.spec_payload()) is Ok
            &&& !before.spec_goaway().spec_received()
            &&& after.spec_goaway().spec_received()
        },
        frame.message_type == 16 ==> (goaway_decode(frame.spec_payload()) matches Err(e) ==> {
            &&& r is Err
            &&& r->Err_0.error == Draft19SessionError::Transport(SessionError::Decode(e))
            &&& r->Err_0.close == Some(SessionErrorCode::ProtocolViolation)
        }),
        r is Err ==> {
            &&& r->Err_0.close == Some(SessionErrorCode::ProtocolViolation)
            &&& after.spec_goaway().spec_received() == before.spec_goaway().spec_received()
        },
{
}

} // verus!
