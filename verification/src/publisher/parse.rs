//! What the publisher needs to know of a packet to route it.

use vstd::prelude::*;

use crate::mmt::{
    mmtp_bytes, mmtp_decode, mpu_bytes, mpu_decode, FragmentType, MmtError, MmtpHeader,
    MmtpHeaderView, MpuHeader, PacketType, SourceFecPayloadId, MMTP_HEADER_SIZE, MPU_HEADER_SIZE,
};
use crate::text::{decimal, push_decimal, push_text};
use crate::wire::be_value;

verus! {

/// The routing key of a packet.
#[derive(Copy, Clone, Debug, PartialEq, Eq)]
pub struct PacketRouting {
    /// The packet id, which names the track.
    pub packet_id: u16,
    pub packet_type: PacketType,
    /// No FEC, source, or one of the two repair modes.
    pub fec_type: u8,
    /// Set on the first packet of an MPU that starts at a key frame.
    pub rap_flag: bool,
    /// The sequence number of the MPU, in media packets.
    pub mpu_sequence: Option<u32>,
    /// The kind of fragment, in media packets.
    pub fragment_type: Option<FragmentType>,
    /// The source symbol, in media packets that carry one behind their
    /// payload.
    pub source_fec_payload_id: Option<SourceFecPayloadId>,
}

/// Why a packet cannot be routed.
#[derive(Copy, Clone, Debug, PartialEq, Eq, Structural)]
pub enum RouteError {
    /// The packet is shorter than a packet header.
    ShortPacket(usize),
    /// The packet header makes no sense.
    Header(MmtError),
    /// The packet is a media packet, and its MPU header makes no sense.
    MpuHeader(MmtError),
}

impl RouteError {
    /// The error in words.
    pub open spec fn message(self) -> Seq<char> {
        match self {
            RouteError::ShortPacket(len) => "short MMTP packet: "@ + decimal(len as nat)
                + " bytes (need ≥12)"@,
            RouteError::Header(e) => "MMTP header decode failed: "@ + e.shape(),
            RouteError::MpuHeader(_) => "MMTP packet_type=Mpu but MPU header decode failed"@,
        }
    }

    pub fn describe(&self) -> (r: String)
        ensures
            r@ == self.message(),
    {
        let mut out: String = String::new();
        match self {
            RouteError::ShortPacket(len) => {
                push_text(&mut out, "short MMTP packet: ");
                push_decimal(&mut out, *len as u64);
                push_text(&mut out, " bytes (need ≥12)");
            },
            RouteError::Header(e) => {
                push_text(&mut out, "MMTP header decode failed: ");
                e.push_shape(&mut out);
            },
            RouteError::MpuHeader(_) => {
                push_text(&mut out, "MMTP packet_type=Mpu but MPU header decode failed");
            },
        }
        assert(out@ =~= self.message());
        out
    }
}

/// The source symbol behind a media packet's payload, where the packet says
/// that it carries one.
pub open spec fn source_symbol(fec_type: u8, payload: Seq<u8>) -> Option<SourceFecPayloadId> {
    if fec_type == 1 && payload.len() >= 4 {
        Some(SourceFecPayloadId { ss_id: be_value(payload.skip(payload.len() - 4)) as u32 })
    } else {
        None
    }
}

/// The routing key of a packet.
pub open spec fn routing_of(packet: Seq<u8>) -> Result<PacketRouting, RouteError> {
    if packet.len() < MMTP_HEADER_SIZE {
        Err(RouteError::ShortPacket(packet.len() as usize))
    } else {
        match mmtp_decode(packet) {
            Err(e) => Err(RouteError::Header(e)),
            Ok(h) => {
                let plain = PacketRouting {
                    packet_id: h.packet_id,
                    packet_type: h.packet_type,
                    fec_type: h.fec_type,
                    rap_flag: h.rap_flag,
                    mpu_sequence: None,
                    fragment_type: None,
                    source_fec_payload_id: None,
                };
                if h.packet_type != PacketType::Mpu {
                    Ok(plain)
                } else {
                    let body = packet.skip(MMTP_HEADER_SIZE as int);
                    match mpu_decode(body) {
                        Err(e) => Err(RouteError::MpuHeader(e)),
                        Ok(mpu) => Ok(
                            PacketRouting {
                                mpu_sequence: Some(mpu.mpu_sequence),
                                fragment_type: Some(mpu.fragment_type),
                                source_fec_payload_id: source_symbol(
                                    h.fec_type,
                                    body.skip(MPU_HEADER_SIZE as int),
                                ),
                                ..plain
                            },
                        ),
                    }
                }
            },
        }
    }
}

/// Reads the routing key of a packet.
pub fn route(packet: &[u8]) -> (r: Result<PacketRouting, RouteError>)
    ensures
        r == routing_of(packet@),
{
    if packet.len() < MMTP_HEADER_SIZE {
        return Err(RouteError::ShortPacket(packet.len()));
    }
    let hdr: MmtpHeader = match MmtpHeader::read_from(packet) {
        Ok(hdr) => hdr,
        Err(e) => {
            return Err(RouteError::Header(e));
        },
    };
    let mut routing = PacketRouting {
        packet_id: hdr.packet_id,
        packet_type: hdr.packet_type,
        fec_type: hdr.fec_type,
        rap_flag: hdr.rap_flag,
        mpu_sequence: None,
        fragment_type: None,
        source_fec_payload_id: None,
    };
    if hdr.packet_type == PacketType::Mpu {
        let body: &[u8] = vstd::slice::slice_subrange(packet, MMTP_HEADER_SIZE, packet.len());
        assert(body@ =~= packet@.skip(MMTP_HEADER_SIZE as int));
        let mpu: MpuHeader = match MpuHeader::read_from(body) {
            Ok(mpu) => mpu,
            Err(e) => {
                return Err(RouteError::MpuHeader(e));
            },
        };
        routing.mpu_sequence = Some(mpu.mpu_sequence);
        routing.fragment_type = Some(mpu.fragment_type);
        if hdr.fec_type == 1 {
            let payload: &[u8] = vstd::slice::slice_subrange(body, MPU_HEADER_SIZE, body.len());
            assert(payload@ =~= body@.skip(MPU_HEADER_SIZE as int));
            routing.source_fec_payload_id = match SourceFecPayloadId::read_trailer(payload) {
                Ok(id) => Some(id),
                Err(_) => None,
            };
        }
    }
    Ok(routing)
}

/// A media packet is routed by what its headers say: to its packet id, as media,
/// with the sequence number and the kind of fragment of its MPU header, and with
/// the source symbol in its last four bytes exactly where its FEC type says that
/// it carries one and there is room for one.
pub proof fn law_media_packet_is_routed_by_its_headers(
    h: MmtpHeaderView,
    mpu: MpuHeader,
    payload: Seq<u8>,
)
    requires
        h.version < 4,
        h.fec_type < 4,
        h.extension is None,
        h.packet_type == PacketType::Mpu,
        mpu.fragmentation_indicator < 4,
    ensures
        ({
            let r = routing_of(mmtp_bytes(h) + mpu_bytes(mpu) + payload);
            &&& r is Ok
            &&& r->Ok_0.packet_id == h.packet_id
            &&& r->Ok_0.packet_type == PacketType::Mpu
            &&& r->Ok_0.fec_type == h.fec_type
            &&& r->Ok_0.rap_flag == h.rap_flag
            &&& r->Ok_0.mpu_sequence == Some(mpu.mpu_sequence)
            &&& r->Ok_0.fragment_type == Some(mpu.fragment_type)
            &&& h.fec_type != 1 || payload.len() < 4 ==> r->Ok_0.source_fec_payload_id is None
            &&& h.fec_type == 1 && payload.len() >= 4 ==> {
                let n = payload.len() as int;
                &&& r->Ok_0.source_fec_payload_id is Some
                &&& (r->Ok_0.source_fec_payload_id->0).ss_id == payload[n - 4] * 16777216
                    + payload[n - 3] * 65536 + payload[n - 2] * 256 + payload[n - 1]
            }
        }),
{
    let packet = mmtp_bytes(h) + mpu_bytes(mpu) + payload;
    crate::mmt::law_mmtp_header_round_trip(h, mpu_bytes(mpu) + payload);
    crate::mmt::law_mpu_header_round_trip(mpu, payload);
    assert(packet =~= mmtp_bytes(h) + (mpu_bytes(mpu) + payload));
    assert(packet.skip(12) =~= mpu_bytes(mpu) + payload);
    assert((mpu_bytes(mpu) + payload).skip(8) =~= payload);
    if payload.len() >= 4 {
        let tail = payload.skip(payload.len() - 4);
        let n = payload.len() as int;
        reveal_with_fuel(be_value, 5);
        assert(tail.drop_last().drop_last().drop_last().drop_last() =~= Seq::<u8>::empty());
        assert(tail.drop_last().drop_last().drop_last().last() == payload[n - 4]);
        assert(tail.drop_last().drop_last().last() == payload[n - 3]);
        assert(tail.drop_last().last() == payload[n - 2]);
        assert(tail.last() == payload[n - 1]);
    }
}

/// A packet that carries no media is routed to its packet id by its header alone.
pub proof fn law_other_packet_is_routed_by_its_header(h: MmtpHeaderView, rest: Seq<u8>)
    requires
        h.version < 4,
        h.fec_type < 4,
        h.packet_type != PacketType::Mpu,
    ensures
        ({
            let r = routing_of(mmtp_bytes(h) + rest);
            &&& r is Ok
            &&& r->Ok_0.packet_id == h.packet_id
            &&& r->Ok_0.packet_type == h.packet_type
            &&& r->Ok_0.fec_type == h.fec_type
            &&& r->Ok_0.rap_flag == h.rap_flag
            &&& r->Ok_0.mpu_sequence is None
            &&& r->Ok_0.fragment_type is None
            &&& r->Ok_0.source_fec_payload_id is None
        }),
{
    crate::mmt::law_mmtp_header_round_trip(h, rest);
}

/// A packet cannot be routed exactly where it is shorter than a header, where
/// its header names no kind of packet, and where it is media whose MPU header is
/// cut short or names no kind of fragment.
pub proof fn law_packets_are_unroutable_for_cause(packet: Seq<u8>)
    ensures
        packet.len() < 12 ==> routing_of(packet) == Err::<PacketRouting, RouteError>(
            RouteError::ShortPacket(packet.len() as usize),
        ),
        packet.len() >= 12 && packet[1] % 64 > 3 ==> routing_of(packet) == Err::<
            PacketRouting,
            RouteError,
        >(RouteError::Header(MmtError::InvalidPacketType(packet[1] % 64))),
        packet.len() >= 12 && 0 < packet[1] % 64 <= 3 ==> routing_of(packet) is Ok,
        packet.len() >= 12 && packet[1] % 64 == 0 ==> {
            &&& (routing_of(packet) is Ok) == (packet.len() >= 20 && packet[14] / 16 <= 2)
            &&& routing_of(packet) is Err ==> routing_of(packet)->Err_0 is MpuHeader
        },
{
    if packet.len() >= 12 {
        let body = packet.skip(12);
        if packet.len() >= 20 {
            assert(body[2] == packet[14]);
        }
    }
}

} // verus!
