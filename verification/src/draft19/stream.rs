//! The life cycles of draft-19 control and request streams.

use vstd::prelude::*;

use crate::profile::WireProfile;
use crate::text::{hex, push_hex, push_text};

verus! {

#[derive(Copy, Clone, Debug, PartialEq, Eq, Structural)]
pub enum SessionErrorCode {
    NoError,
    InternalError,
    Unauthorized,
    ProtocolViolation,
    KeyValueFormattingError,
    GoAwayTimeout,
}

impl SessionErrorCode {
    /// The number of the code on the wire.
    pub open spec fn spec_code(self) -> u64 {
        match self {
            SessionErrorCode::NoError => 0x0,
            SessionErrorCode::InternalError => 0x1,
            SessionErrorCode::Unauthorized => 0x2,
            SessionErrorCode::ProtocolViolation => 0x3,
            SessionErrorCode::KeyValueFormattingError => 0x6,
            SessionErrorCode::GoAwayTimeout => 0x10,
        }
    }

    pub fn code(self) -> (r: u64)
        ensures
            r == self.spec_code(),
    {
        match self {
            SessionErrorCode::NoError => 0x0,
            SessionErrorCode::InternalError => 0x1,
            SessionErrorCode::Unauthorized => 0x2,
            SessionErrorCode::ProtocolViolation => 0x3,
            SessionErrorCode::KeyValueFormattingError => 0x6,
            SessionErrorCode::GoAwayTimeout => 0x10,
        }
    }
}

#[derive(Copy, Clone, Debug, PartialEq, Eq, Structural)]
pub enum StreamErrorCode {
    InternalError,
    Cancelled,
    DeliveryTimeout,
    SessionClosed,
    GoingAway,
    TooFarBehind,
    UnknownObjectStatus,
    ExpiredAuthToken,
    ExcessiveLoad,
    MalformedTrack,
}

impl StreamErrorCode {
    /// The number of the code on the wire.
    pub open spec fn spec_code(self) -> u64 {
        match self {
            StreamErrorCode::InternalError => 0x00,
            StreamErrorCode::Cancelled => 0x01,
            StreamErrorCode::DeliveryTimeout => 0x02,
            StreamErrorCode::SessionClosed => 0x03,
            StreamErrorCode::GoingAway => 0x04,
            StreamErrorCode::TooFarBehind => 0x05,
            StreamErrorCode::UnknownObjectStatus => 0x06,
            StreamErrorCode::ExpiredAuthToken => 0x07,
            StreamErrorCode::ExcessiveLoad => 0x09,
            StreamErrorCode::MalformedTrack => 0x12,
        }
    }

    pub fn code(self) -> (r: u64)
        ensures
            r == self.spec_code(),
    {
        match self {
            StreamErrorCode::InternalError => 0x00,
            StreamErrorCode::Cancelled => 0x01,
            StreamErrorCode::DeliveryTimeout => 0x02,
            StreamErrorCode::SessionClosed => 0x03,
            StreamErrorCode::GoingAway => 0x04,
            StreamErrorCode::TooFarBehind => 0x05,
            StreamErrorCode::UnknownObjectStatus => 0x06,
            StreamErrorCode::ExpiredAuthToken => 0x07,
            StreamErrorCode::ExcessiveLoad => 0x09,
            StreamErrorCode::MalformedTrack => 0x12,
        }
    }
}

/// No two codes of a registry share a number.
pub proof fn law_error_codes_distinct()
    ensures
        forall|a: SessionErrorCode, b: SessionErrorCode|
            #[trigger] a.spec_code() == #[trigger] b.spec_code() ==> a == b,
        forall|a: StreamErrorCode, b: StreamErrorCode|
            #[trigger] a.spec_code() == #[trigger] b.spec_code() ==> a == b,
{
}

/// A peer, or this side, broke the rules of a stream.
#[derive(Copy, Clone, Debug, PartialEq, Eq, Structural)]
pub enum StreamProtocolError {
    /// The session's profile has no draft-19 framing.
    ProfileMismatch(WireProfile),
    /// No request starts with a message of this type.
    InvalidFirstMessage { message_type: u64 },
    /// A message of this type does not answer the request.
    InvalidFirstResponse { message_type: u64 },
    /// The stream finished before its required messages.
    PrematureFin,
    /// The stream is not in a state for this.
    InvalidTransition,
    /// A control stream, which stays open with its session, closed.
    ControlStreamClosed,
    /// A second GOAWAY on one stream.
    DuplicateGoAway,
    /// A server was sent a GOAWAY that names a new session.
    ServerGoAwayWithNewSessionUri,
}

impl StreamProtocolError {
    /// The code that the session closes with, where the error ends it.
    pub open spec fn spec_session_code(self) -> Option<SessionErrorCode> {
        match self {
            StreamProtocolError::PrematureFin | StreamProtocolError::InvalidTransition => None,
            _ => Some(SessionErrorCode::ProtocolViolation),
        }
    }

    /// The code that the stream is reset with, where the error stays within it.
    pub open spec fn spec_stream_code(self) -> Option<StreamErrorCode> {
        match self {
            StreamProtocolError::PrematureFin => Some(StreamErrorCode::Cancelled),
            StreamProtocolError::InvalidTransition => Some(StreamErrorCode::InternalError),
            _ => None,
        }
    }

    pub fn session_code(&self) -> (r: Option<SessionErrorCode>)
        ensures
            r == self.spec_session_code(),
    {
        match self {
            StreamProtocolError::ProfileMismatch(_)
            | StreamProtocolError::InvalidFirstMessage { .. }
            | StreamProtocolError::InvalidFirstResponse { .. }
            | StreamProtocolError::ControlStreamClosed
            | StreamProtocolError::DuplicateGoAway
            | StreamProtocolError::ServerGoAwayWithNewSessionUri => Some(
                SessionErrorCode::ProtocolViolation,
            ),
            StreamProtocolError::PrematureFin | StreamProtocolError::InvalidTransition => None,
        }
    }

    pub fn stream_code(&self) -> (r: Option<StreamErrorCode>)
        ensures
            r == self.spec_stream_code(),
    {
        match self {
            StreamProtocolError::PrematureFin => Some(StreamErrorCode::Cancelled),
            StreamProtocolError::InvalidTransition => Some(StreamErrorCode::InternalError),
            _ => None,
        }
    }

    /// The error in words.
    pub open spec fn message(self) -> Seq<char> {
        match self {
            StreamProtocolError::ProfileMismatch(profile) => "wire profile "@
                + profile.spec_variant() + " cannot decode draft-19 framing"@,
            StreamProtocolError::InvalidFirstMessage { message_type } => "invalid first request message "@
                + hex(message_type as nat),
            StreamProtocolError::InvalidFirstResponse { message_type } => "request stream received an invalid first response "@
                + hex(message_type as nat),
            StreamProtocolError::PrematureFin => "stream finished before its required messages"@,
            StreamProtocolError::InvalidTransition => "invalid stream transition"@,
            StreamProtocolError::ControlStreamClosed => "control stream closed"@,
            StreamProtocolError::DuplicateGoAway => "received or sent multiple GOAWAY messages on one stream"@,
            StreamProtocolError::ServerGoAwayWithNewSessionUri => "server received a GOAWAY with a new session URI"@,
        }
    }

    pub fn describe(&self) -> (r: String)
        ensures
            r@ == self.message(),
    {
        let mut out: String = String::new();
        match self {
            StreamProtocolError::ProfileMismatch(profile) => {
                push_text(&mut out, "wire profile ");
                push_text(&mut out, profile.variant());
                push_text(&mut out, " cannot decode draft-19 framing");
            },
            StreamProtocolError::InvalidFirstMessage { message_type } => {
                push_text(&mut out, "invalid first request message ");
                push_hex(&mut out, *message_type);
            },
            StreamProtocolError::InvalidFirstResponse { message_type } => {
                push_text(&mut out, "request stream received an invalid first response ");
                push_hex(&mut out, *message_type);
            },
            StreamProtocolError::PrematureFin => {
                push_text(&mut out, "stream finished before its required messages");
            },
            StreamProtocolError::InvalidTransition => {
                push_text(&mut out, "invalid stream transition");
            },
            StreamProtocolError::ControlStreamClosed => {
                push_text(&mut out, "control stream closed");
            },
            StreamProtocolError::DuplicateGoAway => {
                push_text(&mut out, "received or sent multiple GOAWAY messages on one stream");
            },
            StreamProtocolError::ServerGoAwayWithNewSessionUri => {
                push_text(&mut out, "server received a GOAWAY with a new session URI");
            },
        }
        assert(out@ =~= self.message());
        out
    }
}

/// An error ends either the session or its stream, never both and never
/// neither.
pub proof fn law_error_ends_session_or_stream(e: StreamProtocolError)
    ensures
        e.spec_session_code() is Some <==> e.spec_stream_code() is None,
{
}

/// The two one-way control streams of a session.
#[derive(Debug, PartialEq, Eq, Structural)]
pub struct ControlStreamPair {
    local_setup_sent: bool,
    remote_setup_received: bool,
}

impl ControlStreamPair {
    pub closed spec fn spec_sent(&self) -> bool {
        self.local_setup_sent
    }

    pub closed spec fn spec_received(&self) -> bool {
        self.remote_setup_received
    }

    pub fn new(profile: WireProfile) -> (r: Result<Self, StreamProtocolError>)
        ensures
            profile != WireProfile::Draft19 ==> r == Err::<Self, StreamProtocolError>(
                StreamProtocolError::ProfileMismatch(profile),
            ),
            profile == WireProfile::Draft19 ==> (r matches Ok(pair) && !pair.spec_sent()
                && !pair.spec_received()),
    {
        if profile != WireProfile::Draft19 {
            return Err(StreamProtocolError::ProfileMismatch(profile));
        }
        Ok(ControlStreamPair { local_setup_sent: false, remote_setup_received: false })
    }

    pub fn sent_setup(&mut self) -> (r: Result<(), StreamProtocolError>)
        ensures
            r == if old(self).spec_sent() {
                Err::<(), StreamProtocolError>(StreamProtocolError::InvalidTransition)
            } else {
                Ok(())
            },
            final(self).spec_sent(),
            final(self).spec_received() == old(self).spec_received(),
    {
        if self.local_setup_sent {
            return Err(StreamProtocolError::InvalidTransition);
        }
        self.local_setup_sent = true;
        Ok(())
    }

    pub fn received_setup(&mut self) -> (r: Result<(), StreamProtocolError>)
        ensures
            r == if old(self).spec_received() {
                Err::<(), StreamProtocolError>(StreamProtocolError::InvalidTransition)
            } else {
                Ok(())
            },
            final(self).spec_received(),
            final(self).spec_sent() == old(self).spec_sent(),
    {
        if self.remote_setup_received {
            return Err(StreamProtocolError::InvalidTransition);
        }
        self.remote_setup_received = true;
        Ok(())
    }

    pub fn is_ready(&self) -> (r: bool)
        ensures
            r == (self.spec_sent() && self.spec_received()),
    {
        self.local_setup_sent && self.remote_setup_received
    }

    /// A control stream never finishes in good order.
    pub fn on_fin_or_reset(&self) -> (r: Result<(), StreamProtocolError>)
        ensures
            r == Err::<(), StreamProtocolError>(StreamProtocolError::ControlStreamClosed),
    {
        Err(StreamProtocolError::ControlStreamClosed)
    }
}

#[derive(Copy, Clone, Debug, PartialEq, Eq, Structural)]
pub enum RequestKind {
    Subscribe,
    Publish,
    Fetch,
    TrackStatus,
    PublishNamespace,
    SubscribeNamespace,
    SubscribeTracks,
}

#[derive(Copy, Clone, Debug, PartialEq, Eq, Structural)]
pub enum RequestStreamRole {
    Requester,
    Responder,
}

/// The answer that rejects a request of any kind.
pub const REQUEST_ERROR_TYPE: u64 = 0x05;

impl RequestKind {
    /// The message that a request of this kind starts with.
    pub open spec fn first_message(self) -> u64 {
        match self {
            RequestKind::Subscribe => 0x03,
            RequestKind::Publish => 0x1d,
            RequestKind::Fetch => 0x16,
            RequestKind::TrackStatus => 0x0d,
            RequestKind::PublishNamespace => 0x06,
            RequestKind::SubscribeNamespace => 0x50,
            RequestKind::SubscribeTracks => 0x51,
        }
    }

    /// The answer that accepts a request of this kind.
    pub open spec fn spec_success_response(self) -> u64 {
        match self {
            RequestKind::Subscribe => 0x04,
            RequestKind::Fetch => 0x18,
            _ => 0x07,
        }
    }

    pub fn from_first_message(message_type: u64) -> (r: Result<Self, StreamProtocolError>)
        ensures
            match r {
                Ok(kind) => kind.first_message() == message_type,
                Err(e) => e == (StreamProtocolError::InvalidFirstMessage { message_type })
                    && forall|kind: RequestKind| #[trigger] kind.first_message() != message_type,
            },
    {
        match message_type {
            0x03 => Ok(RequestKind::Subscribe),
            0x1d => Ok(RequestKind::Publish),
            0x16 => Ok(RequestKind::Fetch),
            0x0d => Ok(RequestKind::TrackStatus),
            0x06 => Ok(RequestKind::PublishNamespace),
            0x50 => Ok(RequestKind::SubscribeNamespace),
            0x51 => Ok(RequestKind::SubscribeTracks),
            _ => Err(StreamProtocolError::InvalidFirstMessage { message_type }),
        }
    }

    pub fn success_response(self) -> (r: u64)
        ensures
            r == self.spec_success_response(),
    {
        match self {
            RequestKind::Subscribe => 0x04,
            RequestKind::Fetch => 0x18,
            _ => 0x07,
        }
    }
}

/// How far the sending half of a stream has come.
#[derive(Copy, Clone, Debug, PartialEq, Eq, Structural)]
pub enum SendState {
    Open,
    Finished,
    Reset(StreamErrorCode),
}

/// How far the receiving half of a stream has come.
#[derive(Copy, Clone, Debug, PartialEq, Eq, Structural)]
pub enum ReceiveState {
    Open,
    Finished,
    StopSent(StreamErrorCode),
    Reset(StreamErrorCode),
}

/// What has to be done to the transport's stream.
#[derive(Copy, Clone, Debug, PartialEq, Eq, Structural)]
pub enum StreamAction {
    Nothing,
    Reset(StreamErrorCode),
    StopSending(StreamErrorCode),
    ResetAndStop(StreamErrorCode),
}

/// The life cycle of one request's stream.
#[derive(Debug, PartialEq, Eq, Structural)]
pub struct RequestStream {
    kind: RequestKind,
    role: RequestStreamRole,
    send: SendState,
    receive: ReceiveState,
    first_response_complete: bool,
    send_required_before_fin: bool,
    receive_required_before_fin: bool,
}

/// Everything that a request's stream remembers.
pub struct RequestView {
    pub kind: RequestKind,
    pub role: RequestStreamRole,
    pub send: SendState,
    pub receive: ReceiveState,
    /// The request was answered.
    pub answered: bool,
    /// This side still owes a message before it may finish.
    pub owes: bool,
    /// The peer still owes a message before it may finish.
    pub owed: bool,
}

impl View for RequestStream {
    type V = RequestView;

    closed spec fn view(&self) -> RequestView {
        RequestView {
            kind: self.kind,
            role: self.role,
            send: self.send,
            receive: self.receive,
            answered: self.first_response_complete,
            owes: self.send_required_before_fin,
            owed: self.receive_required_before_fin,
        }
    }
}

impl RequestView {
    /// A stream that has just carried its first message.
    pub open spec fn fresh(kind: RequestKind, role: RequestStreamRole) -> RequestView {
        RequestView {
            kind,
            role,
            send: SendState::Open,
            receive: ReceiveState::Open,
            answered: false,
            owes: role == RequestStreamRole::Responder || kind == RequestKind::Publish,
            owed: role == RequestStreamRole::Requester || kind == RequestKind::Publish,
        }
    }

    /// Whether this side publishes on the stream.
    pub open spec fn local_publishes(self) -> bool {
        ||| self.role == RequestStreamRole::Requester && self.kind == RequestKind::Publish
        ||| self.role == RequestStreamRole::Responder && self.kind == RequestKind::Subscribe
    }

    /// Whether the peer publishes on the stream.
    pub open spec fn remote_publishes(self) -> bool {
        ||| self.role == RequestStreamRole::Requester && self.kind == RequestKind::Subscribe
        ||| self.role == RequestStreamRole::Responder && self.kind == RequestKind::Publish
    }

    /// Whether a message of this type answers the request.
    pub open spec fn answers(self, message_type: u64) -> bool {
        message_type == REQUEST_ERROR_TYPE || message_type == self.kind.spec_success_response()
    }

    /// Whether, after an answer of this type, the publisher owes the end of
    /// its subscription.
    pub open spec fn opens_subscription(self, message_type: u64) -> bool {
        message_type == self.kind.spec_success_response() && self.kind == RequestKind::Subscribe
    }

    /// What every operation keeps: until the answer the responder owes it, and
    /// apart from that only a publisher owes anything.
    pub open spec fn wf(self) -> bool {
        match self.role {
            RequestStreamRole::Requester => {
                &&& self.owes ==> self.kind == RequestKind::Publish
                &&& !self.answered ==> self.owed
                &&& self.answered && self.owed ==> self.kind == RequestKind::Subscribe
            },
            RequestStreamRole::Responder => {
                &&& self.owed ==> self.kind == RequestKind::Publish
                &&& !self.answered && self.send == SendState::Open ==> self.owes
                &&& self.answered && self.owes ==> self.kind == RequestKind::Subscribe
            },
        }
    }
}

/// The outcome of an operation that leaves the stream alone when it fails.
pub open spec fn step(
    before: RequestView,
    after: RequestView,
    r: Result<(), StreamProtocolError>,
    allowed: Result<RequestView, StreamProtocolError>,
) -> bool {
    match allowed {
        Ok(next) => r == Ok::<(), StreamProtocolError>(()) && after == next,
        Err(e) => r == Err::<(), StreamProtocolError>(e) && after == before,
    }
}

/// The same, for an operation that asks for an action.
pub open spec fn step_action(
    before: RequestView,
    after: RequestView,
    r: Result<StreamAction, StreamProtocolError>,
    allowed: Result<(RequestView, StreamAction), StreamProtocolError>,
) -> bool {
    match allowed {
        Ok((next, action)) => r == Ok::<StreamAction, StreamProtocolError>(action) && after == next,
        Err(e) => r == Err::<StreamAction, StreamProtocolError>(e) && after == before,
    }
}

impl RequestView {
    /// The answer to the request arrives.
    pub open spec fn on_receive_first_response(self, message_type: u64) -> Result<
        RequestView,
        StreamProtocolError,
    > {
        if self.role != RequestStreamRole::Requester || self.answered {
            Err(StreamProtocolError::InvalidTransition)
        } else if !self.answers(message_type) {
            Err(StreamProtocolError::InvalidFirstResponse { message_type })
        } else {
            Ok(
                RequestView {
                    answered: true,
                    owed: self.opens_subscription(message_type),
                    ..self
                },
            )
        }
    }

    /// The request is answered.
    pub open spec fn on_send_first_response(self, message_type: u64) -> Result<
        RequestView,
        StreamProtocolError,
    > {
        if self.role != RequestStreamRole::Responder || self.answered {
            Err(StreamProtocolError::InvalidTransition)
        } else if !self.answers(message_type) {
            Err(StreamProtocolError::InvalidFirstResponse { message_type })
        } else {
            Ok(
                RequestView {
                    answered: true,
                    owes: self.opens_subscription(message_type),
                    ..self
                },
            )
        }
    }

    /// This side says that it publishes no more.
    pub open spec fn on_send_publish_done(self) -> Result<RequestView, StreamProtocolError> {
        if self.answered && self.local_publishes() && self.owes {
            Ok(RequestView { owes: false, ..self })
        } else {
            Err(StreamProtocolError::InvalidTransition)
        }
    }

    /// The peer says that it publishes no more.
    pub open spec fn on_receive_publish_done(self) -> Result<RequestView, StreamProtocolError> {
        if self.answered && self.remote_publishes() && self.owed {
            Ok(RequestView { owed: false, ..self })
        } else {
            Err(StreamProtocolError::InvalidTransition)
        }
    }

    /// The peer finishes.
    pub open spec fn on_receive_fin(self) -> Result<RequestView, StreamProtocolError> {
        if self.receive != ReceiveState::Open {
            Err(StreamProtocolError::InvalidTransition)
        } else if self.owed {
            Err(StreamProtocolError::PrematureFin)
        } else {
            Ok(RequestView { receive: ReceiveState::Finished, ..self })
        }
    }

    /// This side finishes.
    pub open spec fn on_finish_sending(self) -> Result<RequestView, StreamProtocolError> {
        if self.send != SendState::Open {
            Err(StreamProtocolError::InvalidTransition)
        } else if self.owes {
            Err(StreamProtocolError::PrematureFin)
        } else {
            Ok(RequestView { send: SendState::Finished, ..self })
        }
    }

    /// This side finishes because of a GOAWAY, whatever it still owes.
    pub open spec fn on_finish_for_goaway(self) -> Result<RequestView, StreamProtocolError> {
        if self.send != SendState::Open {
            Err(StreamProtocolError::InvalidTransition)
        } else {
            Ok(RequestView { send: SendState::Finished, owes: false, ..self })
        }
    }

    /// This side resets its half.
    pub open spec fn on_reset_sending(self, code: StreamErrorCode) -> Result<
        (RequestView, StreamAction),
        StreamProtocolError,
    > {
        if self.send != SendState::Open {
            Err(StreamProtocolError::InvalidTransition)
        } else {
            Ok((RequestView { send: SendState::Reset(code), ..self }, StreamAction::Reset(code)))
        }
    }

    /// The peer asks this side to stop.
    pub open spec fn on_receive_stop_sending(self, code: StreamErrorCode) -> Result<
        (RequestView, StreamAction),
        StreamProtocolError,
    > {
        match self.send {
            SendState::Open => Ok(
                (RequestView { send: SendState::Reset(code), ..self }, StreamAction::Reset(code)),
            ),
            SendState::Finished => Ok((self, StreamAction::Nothing)),
            SendState::Reset(_) => Err(StreamProtocolError::InvalidTransition),
        }
    }

    /// The peer resets its half.
    pub open spec fn on_receive_reset(self, code: StreamErrorCode) -> Result<
        (RequestView, StreamAction),
        StreamProtocolError,
    > {
        match self.receive {
            ReceiveState::Open | ReceiveState::StopSent(_) => Ok(
                (RequestView { receive: ReceiveState::Reset(code), ..self }, StreamAction::Nothing),
            ),
            ReceiveState::Finished => Ok((self, StreamAction::Nothing)),
            ReceiveState::Reset(_) => Err(StreamProtocolError::InvalidTransition),
        }
    }

    /// This side gives up whatever is still open.
    pub open spec fn on_cancel(self, code: StreamErrorCode) -> Result<
        (RequestView, StreamAction),
        StreamProtocolError,
    > {
        match (self.send, self.receive) {
            (SendState::Open, ReceiveState::Open) => Ok(
                (
                    RequestView {
                        send: SendState::Reset(code),
                        receive: ReceiveState::StopSent(code),
                        ..self
                    },
                    StreamAction::ResetAndStop(code),
                ),
            ),
            (SendState::Finished, ReceiveState::Open) => Ok(
                (
                    RequestView { receive: ReceiveState::StopSent(code), ..self },
                    StreamAction::StopSending(code),
                ),
            ),
            (SendState::Open, ReceiveState::Finished) => Ok(
                (RequestView { send: SendState::Reset(code), ..self }, StreamAction::Reset(code)),
            ),
            _ => Err(StreamProtocolError::InvalidTransition),
        }
    }
}

impl RequestStream {
    /// The stream of a request that this side makes.
    pub fn new(profile: WireProfile, first_message_type: u64) -> (r: Result<
        Self,
        StreamProtocolError,
    >)
        ensures
            match r {
                Ok(stream) => profile == WireProfile::Draft19 && stream@ == RequestView::fresh(
                    stream@.kind,
                    RequestStreamRole::Requester,
                ) && stream@.kind.first_message() == first_message_type,
                Err(e) => if profile != WireProfile::Draft19 {
                    e == StreamProtocolError::ProfileMismatch(profile)
                } else {
                    e == (StreamProtocolError::InvalidFirstMessage {
                        message_type: first_message_type,
                    }) && forall|kind: RequestKind|
                        #[trigger] kind.first_message() != first_message_type
                },
            },
    {
        RequestStream::new_for_role(profile, first_message_type, RequestStreamRole::Requester)
    }

    pub fn new_for_role(
        profile: WireProfile,
        first_message_type: u64,
        role: RequestStreamRole,
    ) -> (r: Result<Self, StreamProtocolError>)
        ensures
            match r {
                Ok(stream) => profile == WireProfile::Draft19 && stream@ == RequestView::fresh(
                    stream@.kind,
                    role,
                ) && stream@.kind.first_message() == first_message_type,
                Err(e) => if profile != WireProfile::Draft19 {
                    e == StreamProtocolError::ProfileMismatch(profile)
                } else {
                    e == (StreamProtocolError::InvalidFirstMessage {
                        message_type: first_message_type,
                    }) && forall|kind: RequestKind|
                        #[trigger] kind.first_message() != first_message_type
                },
            },
    {
        if profile != WireProfile::Draft19 {
            return Err(StreamProtocolError::ProfileMismatch(profile));
        }
        let kind: RequestKind = RequestKind::from_first_message(first_message_type)?;
        Ok(
            RequestStream {
                kind,
                role,
                send: SendState::Open,
                receive: ReceiveState::Open,
                first_response_complete: false,
                send_required_before_fin: match role {
                    RequestStreamRole::Requester => kind == RequestKind::Publish,
                    RequestStreamRole::Responder => true,
                },
                receive_required_before_fin: match role {
                    RequestStreamRole::Requester => true,
                    RequestStreamRole::Responder => kind == RequestKind::Publish,
                },
            },
        )
    }

    pub fn kind(&self) -> (r: RequestKind)
        ensures
            r == self@.kind,
    {
        self.kind
    }

    pub fn role(&self) -> (r: RequestStreamRole)
        ensures
            r == self@.role,
    {
        self.role
    }

    pub fn first_response_complete(&self) -> (r: bool)
        ensures
            r == self@.answered,
    {
        self.first_response_complete
    }

    /// A responder sends nothing before its answer.
    pub fn can_send_followup(&self) -> (r: bool)
        ensures
            r == (self@.role == RequestStreamRole::Requester || self@.answered),
    {
        matches!(self.role, RequestStreamRole::Requester) || self.first_response_complete
    }

    /// A requester reads nothing before the answer.
    pub fn can_receive_followup(&self) -> (r: bool)
        ensures
            r == (self@.role == RequestStreamRole::Responder || self@.answered),
    {
        matches!(self.role, RequestStreamRole::Responder) || self.first_response_complete
    }

    pub fn receive_first_response(&mut self, message_type: u64) -> (r: Result<
        (),
        StreamProtocolError,
    >)
        ensures
            step(old(self)@, final(self)@, r, old(self)@.on_receive_first_response(message_type)),
    {
        if self.role != RequestStreamRole::Requester || self.first_response_complete {
            return Err(StreamProtocolError::InvalidTransition);
        }
        let successful: bool = message_type == self.kind.success_response();
        if message_type != REQUEST_ERROR_TYPE && !successful {
            return Err(StreamProtocolError::InvalidFirstResponse { message_type });
        }
        self.first_response_complete = true;
        self.receive_required_before_fin = successful && self.kind == RequestKind::Subscribe;
        Ok(())
    }

    pub fn send_first_response(&mut self, message_type: u64) -> (r: Result<
        (),
        StreamProtocolError,
    >)
        ensures
            step(old(self)@, final(self)@, r, old(self)@.on_send_first_response(message_type)),
    {
        if self.role != RequestStreamRole::Responder || self.first_response_complete {
            return Err(StreamProtocolError::InvalidTransition);
        }
        let successful: bool = message_type == self.kind.success_response();
        if message_type != REQUEST_ERROR_TYPE && !successful {
            return Err(StreamProtocolError::InvalidFirstResponse { message_type });
        }
        self.first_response_complete = true;
        self.send_required_before_fin = successful && self.kind == RequestKind::Subscribe;
        Ok(())
    }

    pub fn send_publish_done(&mut self) -> (r: Result<(), StreamProtocolError>)
        ensures
            step(old(self)@, final(self)@, r, old(self)@.on_send_publish_done()),
    {
        let local_is_publisher: bool = match (self.role, self.kind) {
            (RequestStreamRole::Requester, RequestKind::Publish) => true,
            (RequestStreamRole::Responder, RequestKind::Subscribe) => true,
            _ => false,
        };
        if !self.first_response_complete || !local_is_publisher || !self.send_required_before_fin {
            return Err(StreamProtocolError::InvalidTransition);
        }
        self.send_required_before_fin = false;
        Ok(())
    }

    pub fn receive_publish_done(&mut self) -> (r: Result<(), StreamProtocolError>)
        ensures
            step(old(self)@, final(self)@, r, old(self)@.on_receive_publish_done()),
    {
        let remote_is_publisher: bool = match (self.role, self.kind) {
            (RequestStreamRole::Requester, RequestKind::Subscribe) => true,
            (RequestStreamRole::Responder, RequestKind::Publish) => true,
            _ => false,
        };
        if !self.first_response_complete || !remote_is_publisher
            || !self.receive_required_before_fin {
            return Err(StreamProtocolError::InvalidTransition);
        }
        self.receive_required_before_fin = false;
        Ok(())
    }

    pub fn receive_fin(&mut self) -> (r: Result<(), StreamProtocolError>)
        ensures
            step(old(self)@, final(self)@, r, old(self)@.on_receive_fin()),
    {
        if self.receive != ReceiveState::Open {
            return Err(StreamProtocolError::InvalidTransition);
        }
        if self.receive_required_before_fin {
            return Err(StreamProtocolError::PrematureFin);
        }
        self.receive = ReceiveState::Finished;
        Ok(())
    }

    pub fn finish_sending(&mut self) -> (r: Result<(), StreamProtocolError>)
        ensures
            step(old(self)@, final(self)@, r, old(self)@.on_finish_sending()),
    {
        if self.send != SendState::Open {
            return Err(StreamProtocolError::InvalidTransition);
        }
        if self.send_required_before_fin {
            return Err(StreamProtocolError::PrematureFin);
        }
        self.send = SendState::Finished;
        Ok(())
    }

    pub fn finish_sending_for_goaway(&mut self) -> (r: Result<(), StreamProtocolError>)
        ensures
            step(old(self)@, final(self)@, r, old(self)@.on_finish_for_goaway()),
    {
        if self.send != SendState::Open {
            return Err(StreamProtocolError::InvalidTransition);
        }
        self.send_required_before_fin = false;
        self.send = SendState::Finished;
        Ok(())
    }

    pub fn reset_sending(&mut self, code: StreamErrorCode) -> (r: Result<
        StreamAction,
        StreamProtocolError,
    >)
        ensures
            step_action(old(self)@, final(self)@, r, old(self)@.on_reset_sending(code)),
    {
        if self.send != SendState::Open {
            return Err(StreamProtocolError::InvalidTransition);
        }
        self.send = SendState::Reset(code);
        Ok(StreamAction::Reset(code))
    }

    pub fn receive_stop_sending(&mut self, code: StreamErrorCode) -> (r: Result<
        StreamAction,
        StreamProtocolError,
    >)
        ensures
            step_action(old(self)@, final(self)@, r, old(self)@.on_receive_stop_sending(code)),
    {
        match self.send {
            SendState::Open => {
                self.send = SendState::Reset(code);
                Ok(StreamAction::Reset(code))
            },
            SendState::Finished => Ok(StreamAction::Nothing),
            SendState::Reset(_) => Err(StreamProtocolError::InvalidTransition),
        }
    }

    pub fn receive_reset(&mut self, code: StreamErrorCode) -> (r: Result<
        StreamAction,
        StreamProtocolError,
    >)
        ensures
            step_action(old(self)@, final(self)@, r, old(self)@.on_receive_reset(code)),
    {
        match self.receive {
            ReceiveState::Open | ReceiveState::StopSent(_) => {
                self.receive = ReceiveState::Reset(code);
                Ok(StreamAction::Nothing)
            },
            ReceiveState::Finished => Ok(StreamAction::Nothing),
            ReceiveState::Reset(_) => Err(StreamProtocolError::InvalidTransition),
        }
    }

    pub fn cancel(&mut self, code: StreamErrorCode) -> (r: Result<
        StreamAction,
        StreamProtocolError,
    >)
        ensures
            step_action(old(self)@, final(self)@, r, old(self)@.on_cancel(code)),
    {
        match (self.send, self.receive) {
            (SendState::Open, ReceiveState::Open) => {
                self.send = SendState::Reset(code);
                self.receive = ReceiveState::StopSent(code);
                Ok(StreamAction::ResetAndStop(code))
            },
            (SendState::Finished, ReceiveState::Open) => {
                self.receive = ReceiveState::StopSent(code);
                Ok(StreamAction::StopSending(code))
            },
            (SendState::Open, ReceiveState::Finished) => {
                self.send = SendState::Reset(code);
                Ok(StreamAction::Reset(code))
            },
            _ => Err(StreamProtocolError::InvalidTransition),
        }
    }
}

/// Whether one operation takes a stream from `a` to `b`.
pub open spec fn steps_to(a: RequestView, b: RequestView) -> bool {
    ||| exists|m: u64| #[trigger] a.on_receive_first_response(m) == Ok::<_, StreamProtocolError>(b)
    ||| exists|m: u64| #[trigger] a.on_send_first_response(m) == Ok::<_, StreamProtocolError>(b)
    ||| a.on_send_publish_done() == Ok::<_, StreamProtocolError>(b)
    ||| a.on_receive_publish_done() == Ok::<_, StreamProtocolError>(b)
    ||| a.on_receive_fin() == Ok::<_, StreamProtocolError>(b)
    ||| a.on_finish_sending() == Ok::<_, StreamProtocolError>(b)
    ||| a.on_finish_for_goaway() == Ok::<_, StreamProtocolError>(b)
    ||| exists|c: StreamErrorCode|
        #[trigger] a.on_reset_sending(c) matches Ok((next, _)) && next == b
    ||| exists|c: StreamErrorCode|
        #[trigger] a.on_receive_stop_sending(c) matches Ok((next, _)) && next == b
    ||| exists|c: StreamErrorCode|
        #[trigger] a.on_receive_reset(c) matches Ok((next, _)) && next == b
    ||| exists|c: StreamErrorCode| #[trigger] a.on_cancel(c) matches Ok((next, _)) && next == b
}

/// A new stream is well formed, and every operation keeps it so.
pub proof fn law_request_stream_wf_kept(
    kind: RequestKind,
    role: RequestStreamRole,
    a: RequestView,
    b: RequestView,
)
    ensures
        RequestView::fresh(kind, role).wf(),
        a.wf() && steps_to(a, b) ==> b.wf(),
{
}

/// No operation changes whose request a stream carries, takes an answer back,
/// or reopens a half that has ended.
pub proof fn law_request_stream_only_moves_forward(a: RequestView, b: RequestView)
    requires
        steps_to(a, b),
    ensures
        b.kind == a.kind,
        b.role == a.role,
        a.answered ==> b.answered,
        a.send != SendState::Open ==> b.send == a.send,
        a.receive != ReceiveState::Open ==> b.receive != ReceiveState::Open,
        a.receive == ReceiveState::Finished ==> b.receive == ReceiveState::Finished,
{
}

/// A requester that sees the stream finish in good order has seen the answer,
/// and a subscriber that was accepted has seen the end of its subscription.
pub proof fn law_fin_comes_after_the_answer(a: RequestView, b: RequestView)
    requires
        a.wf(),
        a.on_receive_fin() == Ok::<_, StreamProtocolError>(b),
    ensures
        a.role == RequestStreamRole::Requester ==> a.answered,
        !a.owed,
{
}

/// A responder finishes in good order only after it has answered.
pub proof fn law_responder_finishes_after_the_answer(a: RequestView, b: RequestView)
    requires
        a.wf(),
        a.on_finish_sending() == Ok::<_, StreamProtocolError>(b),
    ensures
        a.role == RequestStreamRole::Responder ==> a.answered,
{
}

/// After a cancellation nothing is open, and a second one is refused.
pub proof fn law_cancel_is_final(a: RequestView, first: StreamErrorCode, second: StreamErrorCode)
    ensures
        a.on_cancel(first) matches Ok((b, _)) ==> {
            &&& b.send != SendState::Open
            &&& b.receive != ReceiveState::Open
            &&& b.on_cancel(second) == Err::<(RequestView, StreamAction), _>(
                StreamProtocolError::InvalidTransition,
            )
        },
{
}

/// After a reset of the sending half a second one is refused, and a request to
/// stop is too.
pub proof fn law_reset_is_final(a: RequestView, first: StreamErrorCode, second: StreamErrorCode)
    ensures
        a.on_reset_sending(first) matches Ok((b, _)) ==> {
            &&& b.on_reset_sending(second) == Err::<(RequestView, StreamAction), _>(
                StreamProtocolError::InvalidTransition,
            )
            &&& b.on_receive_stop_sending(second) == Err::<(RequestView, StreamAction), _>(
                StreamProtocolError::InvalidTransition,
            )
        },
{
}

/// The codes on the wire.
pub proof fn law_error_codes_have_their_numbers()
    ensures
        SessionErrorCode::NoError.spec_code() == 0,
        SessionErrorCode::InternalError.spec_code() == 1,
        SessionErrorCode::Unauthorized.spec_code() == 2,
        SessionErrorCode::ProtocolViolation.spec_code() == 3,
        SessionErrorCode::KeyValueFormattingError.spec_code() == 6,
        SessionErrorCode::GoAwayTimeout.spec_code() == 16,
        StreamErrorCode::InternalError.spec_code() == 0,
        StreamErrorCode::Cancelled.spec_code() == 1,
        StreamErrorCode::DeliveryTimeout.spec_code() == 2,
        StreamErrorCode::SessionClosed.spec_code() == 3,
        StreamErrorCode::GoingAway.spec_code() == 4,
        StreamErrorCode::TooFarBehind.spec_code() == 5,
        StreamErrorCode::UnknownObjectStatus.spec_code() == 6,
        StreamErrorCode::ExpiredAuthToken.spec_code() == 7,
        StreamErrorCode::ExcessiveLoad.spec_code() == 9,
        StreamErrorCode::MalformedTrack.spec_code() == 18,
{
}

/// What breaks the rules of the session closes it as a violation; a stream that
/// finishes early is given up, and a wrong step on it is this side's own fault.
pub proof fn law_violations_close_the_session(e: StreamProtocolError)
    ensures
        e == StreamProtocolError::PrematureFin ==> e.spec_session_code() is None
            && e.spec_stream_code() == Some(StreamErrorCode::Cancelled),
        e == StreamProtocolError::InvalidTransition ==> e.spec_session_code() is None
            && e.spec_stream_code() == Some(StreamErrorCode::InternalError),
        e != StreamProtocolError::PrematureFin && e != StreamProtocolError::InvalidTransition
            ==> e.spec_session_code() == Some(SessionErrorCode::ProtocolViolation)
            && e.spec_stream_code() is None,
{
}

/// Every kind of request starts with its own message, which no answer has as its
/// type.
pub proof fn law_requests_start_with_their_message(a: RequestKind, b: RequestKind)
    ensures
        a.first_message() == b.first_message() ==> a == b,
        a.first_message() != b.spec_success_response(),
        a.first_message() != 5,
        a.spec_success_response() != 5,
        RequestKind::Subscribe.first_message() == 0x03,
        RequestKind::Publish.first_message() == 0x1d,
        RequestKind::Fetch.first_message() == 0x16,
        RequestKind::TrackStatus.first_message() == 0x0d,
        RequestKind::PublishNamespace.first_message() == 0x06,
        RequestKind::SubscribeNamespace.first_message() == 0x50,
        RequestKind::SubscribeTracks.first_message() == 0x51,
        RequestKind::Subscribe.spec_success_response() == 0x04,
        RequestKind::Fetch.spec_success_response() == 0x18,
        a != RequestKind::Subscribe && a != RequestKind::Fetch ==> a.spec_success_response()
            == 0x07,
{
}

/// A new stream is open both ways and not answered; the responder owes the
/// answer, and whoever publishes owes the end of it.
pub proof fn law_new_stream_is_open(kind: RequestKind, role: RequestStreamRole)
    ensures
        ({
            let s = RequestView::fresh(kind, role);
            &&& s.kind == kind
            &&& s.role == role
            &&& s.send == SendState::Open
            &&& s.receive == ReceiveState::Open
            &&& !s.answered
            &&& s.owes == (role == RequestStreamRole::Responder || kind == RequestKind::Publish)
            &&& s.owed == (role == RequestStreamRole::Requester || kind == RequestKind::Publish)
        }),
{
}

/// The answer is taken from the one who owes it, once, and is a rejection or the
/// acceptance of that kind of request. An accepted subscription leaves the
/// publisher owing its end; after any other answer the responder owes nothing.
/// Nothing else changes.
pub proof fn law_answer_is_taken_once(a: RequestView, message_type: u64)
    ensures
        ({
            let fits = message_type == 5 || message_type == a.kind.spec_success_response();
            let subscribed = a.kind == RequestKind::Subscribe && message_type == 4;
            let received = a.on_receive_first_response(message_type);
            let sent = a.on_send_first_response(message_type);
            &&& a.role == RequestStreamRole::Responder || a.answered ==> received == Err::<
                RequestView,
                StreamProtocolError,
            >(StreamProtocolError::InvalidTransition)
            &&& a.role == RequestStreamRole::Requester || a.answered ==> sent == Err::<
                RequestView,
                StreamProtocolError,
            >(StreamProtocolError::InvalidTransition)
            &&& a.role == RequestStreamRole::Requester && !a.answered ==> {
                &&& !fits ==> received == Err::<RequestView, StreamProtocolError>(
                    StreamProtocolError::InvalidFirstResponse { message_type },
                )
                &&& fits ==> received is Ok && received->Ok_0 == (RequestView {
                    answered: true,
                    owed: subscribed,
                    ..a
                })
            }
            &&& a.role == RequestStreamRole::Responder && !a.answered ==> {
                &&& !fits ==> sent == Err::<RequestView, StreamProtocolError>(
                    StreamProtocolError::InvalidFirstResponse { message_type },
                )
                &&& fits ==> sent is Ok && sent->Ok_0 == (RequestView {
                    answered: true,
                    owes: subscribed,
                    ..a
                })
            }
        }),
{
}

/// The end of a subscription is told by the one who publishes, after the answer,
/// once; it is owed no more then.
pub proof fn law_end_is_told_by_the_publisher(a: RequestView)
    ensures
        ({
            let local = (a.role == RequestStreamRole::Requester && a.kind == RequestKind::Publish)
                || (a.role == RequestStreamRole::Responder && a.kind == RequestKind::Subscribe);
            let remote = (a.role == RequestStreamRole::Requester && a.kind
                == RequestKind::Subscribe) || (a.role == RequestStreamRole::Responder && a.kind
                == RequestKind::Publish);
            &&& !(local && remote)
            &&& (a.on_send_publish_done() is Ok) == (a.answered && local && a.owes)
            &&& (a.on_receive_publish_done() is Ok) == (a.answered && remote && a.owed)
            &&& a.on_send_publish_done() matches Ok(b) ==> b == (RequestView { owes: false, ..a })
                && b.on_send_publish_done() is Err
            &&& a.on_receive_publish_done() matches Ok(b) ==> b == (RequestView {
                owed: false,
                ..a
            }) && b.on_receive_publish_done() is Err
            &&& a.on_send_publish_done() matches Err(e) ==> e
                == StreamProtocolError::InvalidTransition
            &&& a.on_receive_publish_done() matches Err(e) ==> e
                == StreamProtocolError::InvalidTransition
        }),
{
}

/// A half that is open finishes exactly where nothing is owed on it; one that has
/// ended does not finish again. A GOAWAY lets this side finish whatever it owes.
pub proof fn law_halves_finish_when_nothing_is_owed(a: RequestView)
    ensures
        a.receive != ReceiveState::Open ==> a.on_receive_fin() == Err::<
            RequestView,
            StreamProtocolError,
        >(StreamProtocolError::InvalidTransition),
        a.receive == ReceiveState::Open && a.owed ==> a.on_receive_fin() == Err::<
            RequestView,
            StreamProtocolError,
        >(StreamProtocolError::PrematureFin),
        a.receive == ReceiveState::Open && !a.owed ==> a.on_receive_fin() is Ok
            && a.on_receive_fin()->Ok_0 == (RequestView { receive: ReceiveState::Finished, ..a }),
        a.send != SendState::Open ==> a.on_finish_sending() == Err::<
            RequestView,
            StreamProtocolError,
        >(StreamProtocolError::InvalidTransition) && a.on_finish_for_goaway() == Err::<
            RequestView,
            StreamProtocolError,
        >(StreamProtocolError::InvalidTransition),
        a.send == SendState::Open && a.owes ==> a.on_finish_sending() == Err::<
            RequestView,
            StreamProtocolError,
        >(StreamProtocolError::PrematureFin),
        a.send == SendState::Open && !a.owes ==> a.on_finish_sending() is Ok
            && a.on_finish_sending()->Ok_0 == (RequestView { send: SendState::Finished, ..a }),
        a.send == SendState::Open ==> a.on_finish_for_goaway() is Ok && a.on_finish_for_goaway()->Ok_0
            == (RequestView { send: SendState::Finished, owes: false, ..a }),
{
}

/// A reset reaches the half it is for, with its code, and leaves the other alone.
/// One that the peer asks for, or tells of, after the half has finished changes
/// nothing.
pub proof fn law_resets_reach_their_half(a: RequestView, code: StreamErrorCode)
    ensures
        (a.on_reset_sending(code) is Ok) == (a.send == SendState::Open),
        a.on_reset_sending(code) matches Ok((b, action)) ==> b == (RequestView {
            send: SendState::Reset(code),
            ..a
        }) && action == StreamAction::Reset(code),
        (a.on_receive_stop_sending(code) is Ok) == !(a.send is Reset),
        a.on_receive_stop_sending(code) matches Ok((b, action)) ==> {
            &&& a.send == SendState::Open ==> b == (RequestView {
                send: SendState::Reset(code),
                ..a
            }) && action == StreamAction::Reset(code)
            &&& a.send == SendState::Finished ==> b == a && action == StreamAction::Nothing
        },
        (a.on_receive_reset(code) is Ok) == !(a.receive is Reset),
        a.on_receive_reset(code) matches Ok((b, action)) ==> {
            &&& action == StreamAction::Nothing
            &&& a.receive == ReceiveState::Finished ==> b == a
            &&& a.receive != ReceiveState::Finished ==> b == (RequestView {
                receive: ReceiveState::Reset(code),
                ..a
            })
        },
{
}

/// Giving a request up ends exactly the halves that are open, with the code, and
/// says so to the transport; where neither is, or one was reset or stopped, there
/// is nothing to give up.
pub proof fn law_cancel_ends_what_is_open(a: RequestView, code: StreamErrorCode)
    ensures
        (a.on_cancel(code) is Ok) == ((a.send == SendState::Open || a.send
            == SendState::Finished) && (a.receive == ReceiveState::Open || a.receive
            == ReceiveState::Finished) && !(a.send == SendState::Finished && a.receive
            == ReceiveState::Finished)),
        a.on_cancel(code) matches Ok((b, action)) ==> {
            &&& a.send == SendState::Open ==> b.send == SendState::Reset(code)
            &&& a.send != SendState::Open ==> b.send == a.send
            &&& a.receive == ReceiveState::Open ==> b.receive == ReceiveState::StopSent(code)
            &&& a.receive != ReceiveState::Open ==> b.receive == a.receive
            &&& b.answered == a.answered
            &&& b.owes == a.owes
            &&& b.owed == a.owed
            &&& a.send == SendState::Open && a.receive == ReceiveState::Open ==> action
                == StreamAction::ResetAndStop(code)
            &&& a.send != SendState::Open ==> action == StreamAction::StopSending(code)
            &&& a.receive != ReceiveState::Open ==> action == StreamAction::Reset(code)
        },
{
}

/// A step that is refused leaves the stream as it was, and one that is allowed
/// does what it is allowed to.
pub proof fn law_refused_steps_change_nothing(
    before: RequestView,
    after: RequestView,
    r: Result<(), StreamProtocolError>,
    allowed: Result<RequestView, StreamProtocolError>,
)
    requires
        step(before, after, r, allowed),
    ensures
        r is Err ==> after == before && allowed is Err && r->Err_0 == allowed->Err_0,
        r is Ok ==> allowed is Ok && after == allowed->Ok_0,
{
}

/// A step that is refused leaves the stream as it was, and one that is allowed
/// takes place as a whole.
pub proof fn law_steps_are_taken_whole_or_not(
    before: RequestView,
    after: RequestView,
    r: Result<(), StreamProtocolError>,
    allowed: Result<RequestView, StreamProtocolError>,
    asked: Result<StreamAction, StreamProtocolError>,
    granted: Result<(RequestView, StreamAction), StreamProtocolError>,
)
    ensures
        step(before, after, r, allowed) ==> {
            &&& (r is Ok) == (allowed is Ok)
            &&& r is Err ==> after == before && r->Err_0 == allowed->Err_0
            &&& r is Ok ==> after == allowed->Ok_0
        },
        step_action(before, after, asked, granted) ==> {
            &&& (asked is Ok) == (granted is Ok)
            &&& asked is Err ==> after == before && asked->Err_0 == granted->Err_0
            &&& asked is Ok ==> after == (granted->Ok_0).0 && asked->Ok_0 == (granted->Ok_0).1
        },
{
}

} // verus!
