//! Draft-19 GOAWAY: its body, and what a stream remembers of it.

use bytes::Bytes;
use vstd::prelude::*;
use vstd::utf8::{decode_utf8, encode_utf8, valid_utf8};

use super::setup::Frame;
use super::stream::StreamProtocolError;
use crate::text::string_from_utf8;
use crate::vi64::{vi64_bytes, vi64_decode, vi64_size, Vi64};
use crate::wire::{
    bytes_as_slice, bytes_clone, bytes_from_vec, bytes_len, bytes_take, bytes_view,
    decode_remaining, DecodeError, EncodeError, Field,
};

verus! {

pub const GOAWAY_TYPE: u64 = 0x10;

/// The most bytes that a session URI may take.
pub const MAX_SESSION_URI_LEN: usize = 8192;

#[derive(Clone, Debug, PartialEq, Eq)]
pub struct SessionUri(pub String);

/// A GOAWAY body, for a control stream or a request stream.
#[derive(Debug, PartialEq, Eq)]
pub struct GoAway {
    pub new_session_uri: SessionUri,
    pub timeout_ms: u64,
}

impl Clone for GoAway {
    fn clone(&self) -> (r: Self)
        ensures
            r@ == self@,
    {
        GoAway {
            new_session_uri: SessionUri(self.new_session_uri.0.clone()),
            timeout_ms: self.timeout_ms,
        }
    }
}

/// A GOAWAY as the text of its URI and its timeout.
pub struct GoAwayView {
    pub uri: Seq<char>,
    pub timeout_ms: u64,
}

impl View for GoAway {
    type V = GoAwayView;

    open spec fn view(&self) -> GoAwayView {
        GoAwayView { uri: self.new_session_uri.0@, timeout_ms: self.timeout_ms }
    }
}

/// The payload of a GOAWAY: the length of the URI, the URI, the timeout.
pub open spec fn goaway_payload(g: GoAwayView) -> Seq<u8> {
    vi64_bytes(encode_utf8(g.uri).len() as u64) + encode_utf8(g.uri) + vi64_bytes(g.timeout_ms)
}

/// The GOAWAY that a payload holds.
pub open spec fn goaway_decode(p: Seq<u8>) -> Result<GoAwayView, DecodeError> {
    match vi64_decode(p) {
        Err(e) => Err(e),
        Ok((len, n)) => {
            let after_len = p.skip(n as int);
            if len > MAX_SESSION_URI_LEN {
                Err(DecodeError::FieldBoundsExceeded(Field::SessionUri))
            } else if after_len.len() < len {
                Err(DecodeError::More((len - after_len.len()) as usize))
            } else if !valid_utf8(after_len.take(len as int)) {
                Err(DecodeError::InvalidUtf8)
            } else {
                let after_uri = after_len.skip(len as int);
                match vi64_decode(after_uri) {
                    Err(e) => Err(e),
                    Ok((timeout_ms, m)) => if m < after_uri.len() {
                        Err(
                            DecodeError::InvalidLength(
                                p.len() as usize,
                                (n + len + m) as usize,
                            ),
                        )
                    } else {
                        Ok(GoAwayView { uri: decode_utf8(after_len.take(len as int)), timeout_ms })
                    },
                }
            }
        },
    }
}

/// A GOAWAY whose URI is within bounds is read back as it was written.
pub proof fn law_goaway_round_trip(g: GoAwayView)
    requires
        encode_utf8(g.uri).len() <= MAX_SESSION_URI_LEN,
    ensures
        goaway_decode(goaway_payload(g)) == Ok::<GoAwayView, DecodeError>(g),
        goaway_payload(g).len() <= 0xffff,
{
    let uri = encode_utf8(g.uri);
    let len = uri.len() as u64;
    let timeout = vi64_bytes(g.timeout_ms);
    let p = goaway_payload(g);
    let n = vi64_size(len) as int;
    crate::vi64::law_vi64_round_trip(len, uri + timeout);
    crate::vi64::lemma_vi64_bytes_len(len);
    crate::vi64::law_vi64_round_trip(g.timeout_ms, Seq::empty());
    crate::vi64::lemma_vi64_bytes_len(g.timeout_ms);
    assert(p =~= vi64_bytes(len) + (uri + timeout));
    assert(p.skip(n) =~= uri + timeout);
    assert(p.skip(n).take(len as int) =~= uri);
    assert(p.skip(n).skip(len as int) =~= timeout + Seq::<u8>::empty());
    vstd::utf8::encode_utf8_valid_utf8(g.uri);
    vstd::utf8::encode_utf8_decode_utf8(g.uri);
}

impl GoAway {
    /// The frame that carries this GOAWAY, where its URI is within bounds.
    pub fn into_frame(self) -> (r: Result<Frame, EncodeError>)
        ensures
            encode_utf8(self@.uri).len() <= MAX_SESSION_URI_LEN ==> {
                &&& r matches Ok(frame)
                &&& frame.message_type == GOAWAY_TYPE
                &&& frame.spec_payload() == goaway_payload(self@)
            },
            encode_utf8(self@.uri).len() > MAX_SESSION_URI_LEN ==> r == Err::<Frame, EncodeError>(
                EncodeError::FieldBoundsExceeded(Field::SessionUri),
            ),
    {
        let uri: &[u8] = self.new_session_uri.0.as_str().as_bytes();
        if uri.len() > MAX_SESSION_URI_LEN {
            return Err(EncodeError::FieldBoundsExceeded(Field::SessionUri));
        }
        let mut payload: Vec<u8> = Vec::new();
        Vi64::new(uri.len() as u64).encode(&mut payload);
        let ghost before = payload@;
        payload.extend_from_slice(uri);
        assert(payload@ =~= before + uri@);
        Vi64::new(self.timeout_ms).encode(&mut payload);
        assert(payload@ =~= goaway_payload(self@));
        Ok(Frame { message_type: GOAWAY_TYPE, payload: bytes_from_vec(payload) })
    }

    /// The GOAWAY that a frame carries.
    pub fn from_frame(frame: &Frame) -> (r: Result<Self, DecodeError>)
        ensures
            frame.message_type != GOAWAY_TYPE ==> (r matches Err(e) && e
                == DecodeError::InvalidMessage(frame.message_type)),
            frame.message_type == GOAWAY_TYPE ==> match goaway_decode(frame.spec_payload()) {
                Ok(g) => r matches Ok(x) && x@ == g,
                Err(e) => r matches Err(x) && x == e,
            },
    {
        if frame.message_type != GOAWAY_TYPE {
            return Err(DecodeError::InvalidMessage(frame.message_type));
        }
        let total: usize = bytes_len(&frame.payload);
        let mut payload: Bytes = bytes_clone(&frame.payload);
        let ghost p = bytes_view(payload);
        let len: u64 = Vi64::decode(&mut payload)?.into_inner();
        if len > MAX_SESSION_URI_LEN as u64 {
            return Err(DecodeError::FieldBoundsExceeded(Field::SessionUri));
        }
        let len: usize = len as usize;
        decode_remaining(&payload, len)?;
        let ghost after_len = bytes_view(payload);
        let head: Bytes = bytes_take(&mut payload, len);
        let mut uri: Vec<u8> = Vec::new();
        uri.extend_from_slice(bytes_as_slice(&head));
        assert(uri@ =~= after_len.take(len as int));
        let new_session_uri: SessionUri = match string_from_utf8(uri) {
            Some(text) => SessionUri(text),
            None => {
                return Err(DecodeError::InvalidUtf8);
            },
        };
        let timeout_ms: u64 = Vi64::decode(&mut payload)?.into_inner();
        let left: usize = bytes_len(&payload);
        if left > 0 {
            return Err(DecodeError::InvalidLength(total, total - left));
        }
        Ok(GoAway { new_session_uri, timeout_ms })
    }
}

/// What one stream remembers of GOAWAY. Every stream has its own, so that the
/// migration of a request does not use up the control stream's allowance.
///
/// Times are milliseconds on a clock that does not run backwards.
#[derive(Debug)]
pub struct GoAwayState {
    sent: bool,
    received: bool,
    deadline: Option<u64>,
}

/// The moment that a GOAWAY sent at `now_ms` expires: never, where it gives no
/// timeout or the moment is out of range.
pub open spec fn goaway_deadline(timeout_ms: u64, now_ms: u64) -> Option<u64> {
    if timeout_ms == 0 || now_ms + timeout_ms > u64::MAX {
        None
    } else {
        Some((now_ms + timeout_ms) as u64)
    }
}

impl GoAwayState {
    pub closed spec fn spec_sent(&self) -> bool {
        self.sent
    }

    pub closed spec fn spec_received(&self) -> bool {
        self.received
    }

    pub closed spec fn spec_deadline(&self) -> Option<u64> {
        self.deadline
    }

    /// A deadline stands only after a GOAWAY was sent.
    pub open spec fn wf(&self) -> bool {
        self.spec_deadline() is Some ==> self.spec_sent()
    }

    /// Whether the advertised timeout has run out.
    pub open spec fn spec_expired(&self, now_ms: u64) -> bool {
        self.spec_deadline() matches Some(d) && now_ms >= d
    }

    pub fn sent(&self) -> (r: bool)
        ensures
            r == self.spec_sent(),
    {
        self.sent
    }

    pub fn received(&self) -> (r: bool)
        ensures
            r == self.spec_received(),
    {
        self.received
    }

    pub fn active(&self) -> (r: bool)
        ensures
            r == (self.spec_sent() || self.spec_received()),
    {
        self.sent || self.received
    }

    pub fn record_sent(&mut self, goaway: &GoAway, now_ms: u64) -> (r: Result<
        (),
        StreamProtocolError,
    >)
        ensures
            old(self).spec_sent() ==> *final(self) == *old(self) && r == Err::<
                (),
                StreamProtocolError,
            >(StreamProtocolError::DuplicateGoAway),
            !old(self).spec_sent() ==> {
                &&& r == Ok::<(), StreamProtocolError>(())
                &&& final(self).spec_sent()
                &&& final(self).spec_received() == old(self).spec_received()
                &&& final(self).spec_deadline() == goaway_deadline(goaway.timeout_ms, now_ms)
            },
            old(self).wf() ==> final(self).wf(),
    {
        if self.sent {
            return Err(StreamProtocolError::DuplicateGoAway);
        }
        self.sent = true;
        self.deadline = if goaway.timeout_ms != 0 {
            now_ms.checked_add(goaway.timeout_ms)
        } else {
            None
        };
        Ok(())
    }

    pub fn record_received(&mut self) -> (r: Result<(), StreamProtocolError>)
        ensures
            old(self).spec_received() ==> *final(self) == *old(self) && r == Err::<
                (),
                StreamProtocolError,
            >(StreamProtocolError::DuplicateGoAway),
            !old(self).spec_received() ==> {
                &&& r == Ok::<(), StreamProtocolError>(())
                &&& final(self).spec_received()
                &&& final(self).spec_sent() == old(self).spec_sent()
                &&& final(self).spec_deadline() == old(self).spec_deadline()
            },
            old(self).wf() ==> final(self).wf(),
    {
        if self.received {
            return Err(StreamProtocolError::DuplicateGoAway);
        }
        self.received = true;
        Ok(())
    }

    pub fn timeout_expired(&self, now_ms: u64) -> (r: bool)
        ensures
            r == self.spec_expired(now_ms),
    {
        match self.deadline {
            Some(deadline) => now_ms >= deadline,
            None => false,
        }
    }
}

impl Default for GoAwayState {
    fn default() -> (r: Self)
        ensures
            !r.spec_sent(),
            !r.spec_received(),
            r.spec_deadline() is None,
            r.wf(),
    {
        GoAwayState { sent: false, received: false, deadline: None }
    }
}

/// A stream whose GOAWAY has expired stays expired.
pub proof fn law_goaway_expiry_is_stable(state: GoAwayState, now_ms: u64, later_ms: u64)
    requires
        now_ms <= later_ms,
        state.spec_expired(now_ms),
    ensures
        state.spec_expired(later_ms),
{
}

/// A GOAWAY with timeout zero never expires; with another timeout, in range, it
/// expires exactly when that much time has passed.
pub proof fn law_goaway_timeout_is_an_upper_bound(timeout_ms: u64, sent_at_ms: u64, now_ms: u64)
    requires
        sent_at_ms + timeout_ms <= u64::MAX,
        sent_at_ms <= now_ms,
    ensures
        timeout_ms == 0 ==> goaway_deadline(timeout_ms, sent_at_ms) is None,
        timeout_ms != 0 ==> (goaway_deadline(timeout_ms, sent_at_ms) matches Some(d) && (now_ms >= d
            <==> now_ms - sent_at_ms >= timeout_ms)),
{
}

/// What stands in a GOAWAY: the length of the URI, the URI, and then the timeout,
/// and nothing else.
pub proof fn law_goaway_layout(g: GoAwayView)
    requires
        encode_utf8(g.uri).len() <= 8192,
    ensures
        ({
            let p = goaway_payload(g);
            let uri = encode_utf8(g.uri);
            let n = vi64_size(uri.len() as u64) as int;
            &&& vi64_decode(p) == Ok::<(u64, nat), DecodeError>((uri.len() as u64, n as nat))
            &&& p.subrange(n, n + uri.len()) == uri
            &&& vi64_decode(p.skip(n + uri.len())) == Ok::<(u64, nat), DecodeError>(
                (g.timeout_ms, vi64_size(g.timeout_ms)),
            )
            &&& p.len() == n + uri.len() + vi64_size(g.timeout_ms)
        }),
{
    let uri = encode_utf8(g.uri);
    let len = uri.len() as u64;
    let timeout = vi64_bytes(g.timeout_ms);
    let p = goaway_payload(g);
    let n = vi64_size(len) as int;
    crate::vi64::law_vi64_round_trip(len, uri + timeout);
    crate::vi64::lemma_vi64_bytes_len(len);
    crate::vi64::law_vi64_round_trip(g.timeout_ms, Seq::empty());
    crate::vi64::lemma_vi64_bytes_len(g.timeout_ms);
    assert(p =~= vi64_bytes(len) + (uri + timeout));
    assert(p.subrange(n, n + uri.len()) =~= uri);
    assert(p.skip(n + uri.len()) =~= timeout + Seq::<u8>::empty());
}

/// A GOAWAY is refused where its URI is too long, cut short or no text, and where
/// bytes follow its timeout; what is accepted has none of these faults.
pub proof fn law_goaways_are_refused_for_cause(p: Seq<u8>)
    ensures
        vi64_decode(p) is Err ==> goaway_decode(p) is Err,
        vi64_decode(p) matches Ok((len, n)) ==> {
            &&& len > 8192 ==> goaway_decode(p) == Err::<GoAwayView, DecodeError>(
                DecodeError::FieldBoundsExceeded(Field::SessionUri),
            )
            &&& len <= 8192 && p.len() < n + len ==> goaway_decode(p) == Err::<
                GoAwayView,
                DecodeError,
            >(DecodeError::More((n + len - p.len()) as usize))
            &&& len <= 8192 && p.len() >= n + len && !valid_utf8(
                p.subrange(n as int, n + len),
            ) ==> goaway_decode(p) == Err::<GoAwayView, DecodeError>(DecodeError::InvalidUtf8)
            &&& goaway_decode(p) matches Ok(g) ==> {
                &&& len <= 8192
                &&& p.len() >= n + len
                &&& g.uri == decode_utf8(p.subrange(n as int, n + len))
                &&& vi64_decode(p.skip(n + len)) == Ok::<(u64, nat), DecodeError>(
                    (g.timeout_ms, (p.len() - n - len) as nat),
                )
            }
        },
{
    crate::vi64::law_vi64_encoding_is_minimal(p);
    if let Ok((len, n)) = vi64_decode(p) {
        let after_len = p.skip(n as int);
        if len <= 8192 && p.len() >= n + len {
            assert(after_len.take(len as int) =~= p.subrange(n as int, n + len));
            assert(after_len.skip(len as int) =~= p.skip(n + len));
            crate::vi64::law_vi64_encoding_is_minimal(p.skip(n + len));
        }
    }
}

/// A GOAWAY whose moment is out of range never expires.
pub proof fn law_far_goaway_never_expires(timeout_ms: u64, now_ms: u64)
    requires
        now_ms + timeout_ms > 0xffff_ffff_ffff_ffff,
    ensures
        goaway_deadline(timeout_ms, now_ms) is None,
{
}

/// A GOAWAY has expired from its deadline on and not before, and never without
/// one.
pub proof fn law_goaway_expires_at_its_deadline(state: GoAwayState, now_ms: u64)
    ensures
        state.spec_deadline() is None ==> !state.spec_expired(now_ms),
        state.spec_deadline() matches Some(d) ==> state.spec_expired(now_ms) == (now_ms >= d),
        GOAWAY_TYPE == 0x10,
{
}

} // verus!
