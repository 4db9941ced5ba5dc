//! Packets on a byte stream: each is preceded by its length in four bytes.

use vstd::prelude::*;

use crate::carriage::be_u32_at;
use crate::text::{decimal, push_decimal, push_text};
use crate::wire::{be_bytes, be_value, pow256, put_be};

verus! {

/// The longest packet that is accepted.
pub const MAX_FRAME_BYTES: usize = 131072;

/// Why a stream holds no further packet.
#[derive(Copy, Clone, Debug, PartialEq, Eq, Structural)]
pub enum FrameError {
    /// The stream ends within a length.
    PartialPrefix,
    ZeroLength,
    Oversize(usize),
    /// The stream ends within a packet of this length.
    PartialPayload(usize),
}

impl FrameError {
    /// The error in words.
    pub open spec fn message(self) -> Seq<char> {
        match self {
            FrameError::PartialPrefix => "reading length prefix"@,
            FrameError::ZeroLength => "zero-length MMTP frame on stdin (framing desync?)"@,
            FrameError::Oversize(len) => "MMTP frame length "@ + decimal(len as nat)
                + " exceeds MAX_FRAME_BYTES=131072"@,
            FrameError::PartialPayload(len) => "reading "@ + decimal(len as nat)
                + " payload bytes after length prefix"@,
        }
    }

    pub fn describe(&self) -> (r: String)
        ensures
            r@ == self.message(),
    {
        let mut out: String = String::new();
        match self {
            FrameError::PartialPrefix => {
                push_text(&mut out, "reading length prefix");
            },
            FrameError::ZeroLength => {
                push_text(&mut out, "zero-length MMTP frame on stdin (framing desync?)");
            },
            FrameError::Oversize(len) => {
                push_text(&mut out, "MMTP frame length ");
                push_decimal(&mut out, *len as u64);
                push_text(&mut out, " exceeds MAX_FRAME_BYTES=131072");
            },
            FrameError::PartialPayload(len) => {
                push_text(&mut out, "reading ");
                push_decimal(&mut out, *len as u64);
                push_text(&mut out, " payload bytes after length prefix");
            },
        }
        assert(out@ =~= self.message());
        out
    }
}

/// What the four bytes before a packet say.
pub open spec fn prefix_length(prefix: Seq<u8>) -> Result<usize, FrameError> {
    let len = be_value(prefix);
    if len == 0 {
        Err(FrameError::ZeroLength)
    } else if len > MAX_FRAME_BYTES {
        Err(FrameError::Oversize(len as usize))
    } else {
        Ok(len as usize)
    }
}

/// Reads the four bytes before a packet.
pub fn frame_length(prefix: &[u8]) -> (r: Result<usize, FrameError>)
    requires
        prefix@.len() == 4,
    ensures
        r == prefix_length(prefix@),
{
    let len: u32 = be_u32_at(prefix, 0);
    assert(prefix@.subrange(0, 4) =~= prefix@);
    let len: usize = len as usize;
    if len == 0 {
        return Err(FrameError::ZeroLength);
    }
    if len > MAX_FRAME_BYTES {
        return Err(FrameError::Oversize(len));
    }
    Ok(len)
}

/// The packet at the start of a stream that ends after `s`; nothing where the
/// stream ends before it.
pub open spec fn frame_at(s: Seq<u8>) -> Result<Option<Seq<u8>>, FrameError> {
    if s.len() == 0 {
        Ok(None)
    } else if s.len() < 4 {
        Err(FrameError::PartialPrefix)
    } else {
        match prefix_length(s.take(4)) {
            Err(e) => Err(e),
            Ok(len) => if s.len() < 4 + len {
                Err(FrameError::PartialPayload(len))
            } else {
                Ok(Some(s.subrange(4, 4 + len)))
            },
        }
    }
}

/// The bytes that carry a packet.
pub open spec fn frame_encode(payload: Seq<u8>) -> Seq<u8> {
    be_bytes(payload.len(), 4) + payload
}

/// A packet of acceptable length is read back as it was written, whatever
/// follows it.
pub proof fn law_frame_is_read_back(payload: Seq<u8>, rest: Seq<u8>)
    requires
        0 < payload.len() <= MAX_FRAME_BYTES,
    ensures
        frame_at(frame_encode(payload) + rest) == Ok::<Option<Seq<u8>>, FrameError>(Some(payload)),
        (frame_encode(payload) + rest).skip(4 + payload.len() as int) == rest,
{
    reveal_with_fuel(pow256, 5);
    let s = frame_encode(payload) + rest;
    crate::wire::lemma_be_bytes_len(payload.len(), 4);
    crate::wire::lemma_be_round_trip(payload.len(), 4);
    assert(s.take(4) =~= be_bytes(payload.len(), 4));
    assert(s.subrange(4, 4 + payload.len() as int) =~= payload);
    assert(s.skip(4 + payload.len() as int) =~= rest);
}

/// Takes the packet at a place of a stream that has ended, with the place after
/// it.
pub fn read_one_frame(input: &[u8], at: usize) -> (r: Result<Option<(Vec<u8>, usize)>, FrameError>)
    requires
        at <= input@.len(),
    ensures
        match frame_at(input@.skip(at as int)) {
            Err(e) => r matches Err(x) && x == e,
            Ok(None) => r matches Ok(None),
            Ok(Some(payload)) => {
                &&& r matches Ok(Some((bytes, next)))
                &&& bytes@ == payload
                &&& next == at + 4 + payload.len()
                &&& next <= input@.len()
            },
        },
{
    let n: usize = input.len();
    let ghost s = input@.skip(at as int);
    if n - at == 0 {
        return Ok(None);
    }
    if n - at < 4 {
        return Err(FrameError::PartialPrefix);
    }
    let prefix: &[u8] = vstd::slice::slice_subrange(input, at, at + 4);
    assert(prefix@ =~= s.take(4));
    let len: usize = match frame_length(prefix) {
        Ok(len) => len,
        Err(e) => {
            return Err(e);
        },
    };
    if n - at - 4 < len {
        return Err(FrameError::PartialPayload(len));
    }
    let body: &[u8] = vstd::slice::slice_subrange(input, at + 4, at + 4 + len);
    let mut payload: Vec<u8> = Vec::new();
    payload.extend_from_slice(body);
    assert(payload@ =~= s.subrange(4, 4 + len));
    Ok(Some((payload, at + 4 + len)))
}

/// Appends the bytes that carry a packet.
pub fn write_one_frame(out: &mut Vec<u8>, payload: &[u8])
    requires
        payload@.len() <= u32::MAX,
    ensures
        final(out)@ == old(out)@ + frame_encode(payload@),
{
    put_be(out, payload.len() as u64, 4);
    let ghost before = out@;
    out.extend_from_slice(payload);
    assert(out@ =~= before + payload@);
    assert(out@ =~= old(out)@ + frame_encode(payload@));
}

/// Where packets come from.
#[derive(Copy, Clone, Debug, PartialEq, Eq, Structural)]
pub enum MmtpInput {
    /// A stream of packets, each preceded by its length.
    Stdin,
    /// A socket, each datagram of which is a packet.
    Udp,
}

/// What an input gives at a time.
#[derive(Debug, PartialEq, Eq)]
pub enum InputEvent {
    /// A packet.
    Packet(Vec<u8>),
    /// An empty datagram, which is none.
    Skip,
    /// The input has ended.
    Exhausted,
}

/// What a received datagram comes to.
pub fn datagram_event(datagram: Vec<u8>) -> (r: InputEvent)
    ensures
        datagram@.len() == 0 ==> r is Skip,
        datagram@.len() > 0 ==> (r matches InputEvent::Packet(p) && p@ == datagram@),
{
    if datagram.len() == 0 {
        InputEvent::Skip
    } else {
        InputEvent::Packet(datagram)
    }
}

/// What a frame of a stream comes to.
pub fn frame_event(frame: Option<Vec<u8>>) -> (r: InputEvent)
    ensures
        match frame {
            Some(bytes) => r matches InputEvent::Packet(p) && p@ == bytes@,
            None => r is Exhausted,
        },
{
    match frame {
        Some(bytes) => InputEvent::Packet(bytes),
        None => InputEvent::Exhausted,
    }
}

/// What a stream that has ended starts with: nothing where it is empty; an error
/// where it ends within a length, where a length is zero or beyond 128 KiB, and
/// where it ends within a packet; and else the packet, all of it and nothing
/// behind it.
pub proof fn law_stream_starts_with_a_whole_packet(s: Seq<u8>)
    ensures
        s.len() == 0 ==> frame_at(s) == Ok::<Option<Seq<u8>>, FrameError>(None),
        0 < s.len() < 4 ==> frame_at(s) == Err::<Option<Seq<u8>>, FrameError>(
            FrameError::PartialPrefix,
        ),
        s.len() >= 4 ==> {
            let len = s[0] * 16777216 + s[1] * 65536 + s[2] * 256 + s[3];
            &&& len == 0 ==> frame_at(s) == Err::<Option<Seq<u8>>, FrameError>(
                FrameError::ZeroLength,
            )
            &&& len > 131072 ==> frame_at(s) == Err::<Option<Seq<u8>>, FrameError>(
                FrameError::Oversize(len as usize),
            )
            &&& 0 < len <= 131072 && s.len() < 4 + len ==> frame_at(s) == Err::<
                Option<Seq<u8>>,
                FrameError,
            >(FrameError::PartialPayload(len as usize))
            &&& 0 < len <= 131072 && s.len() >= 4 + len ==> frame_at(s) == Ok::<
                Option<Seq<u8>>,
                FrameError,
            >(Some(s.subrange(4, 4 + len)))
        },
{
    if s.len() >= 4 {
        let prefix = s.take(4);
        reveal_with_fuel(be_value, 5);
        assert(prefix.drop_last().drop_last().drop_last().drop_last() =~= Seq::<u8>::empty());
        assert(prefix.drop_last().drop_last().drop_last().last() == s[0]);
        assert(prefix.drop_last().drop_last().last() == s[1]);
        assert(prefix.drop_last().last() == s[2]);
        assert(prefix.last() == s[3]);
    }
}

/// Two packets that are written one after the other are read in that order.
pub proof fn law_packets_are_read_in_order(a: Seq<u8>, b: Seq<u8>, rest: Seq<u8>)
    requires
        0 < a.len() <= 131072,
        0 < b.len() <= 131072,
    ensures
        ({
            let s = frame_encode(a) + (frame_encode(b) + rest);
            &&& frame_at(s) == Ok::<Option<Seq<u8>>, FrameError>(Some(a))
            &&& frame_at(s.skip(4 + a.len() as int)) == Ok::<Option<Seq<u8>>, FrameError>(Some(b))
        }),
{
    law_frame_is_read_back(a, frame_encode(b) + rest);
    law_frame_is_read_back(b, rest);
}

} // verus!
