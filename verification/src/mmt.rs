//! MMTP packet headers (ISO/IEC 23008-1): the header of every packet, and the
//! MPU header that follows it in media packets.

use vstd::prelude::*;

use crate::carriage::be_u32_at;
use crate::text::{decimal, push_decimal, push_text};
use crate::wire::{be_bytes, be_value, pow256, put_be};

verus! {

/// The bytes of a packet header without extension.
pub const MMTP_HEADER_SIZE: usize = 12;

/// The bytes of an MPU header.
pub const MPU_HEADER_SIZE: usize = 8;

#[derive(Copy, Clone, Debug, PartialEq, Eq, Structural)]
pub enum MmtError {
    BufferTooSmall { need: usize, have: usize },
    InvalidPacketType(u8),
    InvalidFragmentType(u8),
    InvalidFecType(u8),
}

impl MmtError {
    /// The error as its variant with its values.
    pub open spec fn shape(self) -> Seq<char> {
        match self {
            MmtError::BufferTooSmall { need, have } => "BufferTooSmall { need: "@ + decimal(
                need as nat,
            ) + ", have: "@ + decimal(have as nat) + " }"@,
            MmtError::InvalidPacketType(n) => "InvalidPacketType("@ + decimal(n as nat) + ")"@,
            MmtError::InvalidFragmentType(n) => "InvalidFragmentType("@ + decimal(n as nat) + ")"@,
            MmtError::InvalidFecType(n) => "InvalidFecType("@ + decimal(n as nat) + ")"@,
        }
    }

    /// Appends the error as its variant with its values.
    pub fn push_shape(&self, out: &mut String)
        ensures
            final(out)@ == old(out)@ + self.shape(),
    {
        match self {
            MmtError::BufferTooSmall { need, have } => {
                push_text(out, "BufferTooSmall { need: ");
                push_decimal(out, *need as u64);
                push_text(out, ", have: ");
                push_decimal(out, *have as u64);
                push_text(out, " }");
            },
            MmtError::InvalidPacketType(n) => {
                push_text(out, "InvalidPacketType(");
                push_decimal(out, *n as u64);
                push_text(out, ")");
            },
            MmtError::InvalidFragmentType(n) => {
                push_text(out, "InvalidFragmentType(");
                push_decimal(out, *n as u64);
                push_text(out, ")");
            },
            MmtError::InvalidFecType(n) => {
                push_text(out, "InvalidFecType(");
                push_decimal(out, *n as u64);
                push_text(out, ")");
            },
        }
        assert(out@ =~= old(out)@ + self.shape());
    }
}

#[derive(Copy, Clone, Debug, PartialEq, Eq, Structural)]
pub enum PacketType {
    /// Media.
    Mpu,
    /// A generic object.
    Generic,
    /// Signalling.
    Control,
    /// A repair symbol.
    Repair,
}

impl PacketType {
    pub open spec fn spec_code(self) -> u8 {
        match self {
            PacketType::Mpu => 0,
            PacketType::Generic => 1,
            PacketType::Control => 2,
            PacketType::Repair => 3,
        }
    }

    /// The type that a number stands for.
    pub open spec fn spec_from(val: u8) -> Result<PacketType, MmtError> {
        if val == 0 {
            Ok(PacketType::Mpu)
        } else if val == 1 {
            Ok(PacketType::Generic)
        } else if val == 2 {
            Ok(PacketType::Control)
        } else if val == 3 {
            Ok(PacketType::Repair)
        } else {
            Err(MmtError::InvalidPacketType(val))
        }
    }

    pub fn code(self) -> (r: u8)
        ensures
            r == self.spec_code(),
    {
        match self {
            PacketType::Mpu => 0,
            PacketType::Generic => 1,
            PacketType::Control => 2,
            PacketType::Repair => 3,
        }
    }

    pub fn from_u8(val: u8) -> (r: Result<Self, MmtError>)
        ensures
            r == PacketType::spec_from(val),
    {
        match val {
            0 => Ok(PacketType::Mpu),
            1 => Ok(PacketType::Generic),
            2 => Ok(PacketType::Control),
            3 => Ok(PacketType::Repair),
            _ => Err(MmtError::InvalidPacketType(val)),
        }
    }
}

#[derive(Copy, Clone, Debug, PartialEq, Eq, Structural)]
pub enum FecType {
    /// No FEC, or FEC without a source payload id.
    Unprotected,
    /// A source packet that carries its payload id.
    WithSourcePayloadId,
    RepairMode0,
    RepairMode1,
}

impl FecType {
    pub open spec fn spec_code(self) -> u8 {
        match self {
            FecType::Unprotected => 0,
            FecType::WithSourcePayloadId => 1,
            FecType::RepairMode0 => 2,
            FecType::RepairMode1 => 3,
        }
    }

    pub fn code(self) -> (r: u8)
        ensures
            r == self.spec_code(),
    {
        match self {
            FecType::Unprotected => 0,
            FecType::WithSourcePayloadId => 1,
            FecType::RepairMode0 => 2,
            FecType::RepairMode1 => 3,
        }
    }

    pub fn from_u8(val: u8) -> (r: Result<Self, MmtError>)
        ensures
            match r {
                Ok(t) => t.spec_code() == val,
                Err(e) => val > 3 && e == MmtError::InvalidFecType(val),
            },
    {
        match val {
            0 => Ok(FecType::Unprotected),
            1 => Ok(FecType::WithSourcePayloadId),
            2 => Ok(FecType::RepairMode0),
            3 => Ok(FecType::RepairMode1),
            _ => Err(MmtError::InvalidFecType(val)),
        }
    }
}

#[derive(Copy, Clone, Debug, PartialEq, Eq, Structural)]
pub enum FragmentType {
    /// The metadata of an MPU.
    Init,
    /// A movie fragment.
    Fragment,
    /// A media fragment unit.
    Mfu,
}

impl FragmentType {
    /// What a type is called in messages.
    pub open spec fn spec_variant(self) -> Seq<char> {
        match self {
            FragmentType::Init => "Init"@,
            FragmentType::Fragment => "Fragment"@,
            FragmentType::Mfu => "Mfu"@,
        }
    }

    pub fn variant(self) -> (r: &'static str)
        ensures
            r@ == self.spec_variant(),
    {
        match self {
            FragmentType::Init => "Init",
            FragmentType::Fragment => "Fragment",
            FragmentType::Mfu => "Mfu",
        }
    }

    pub open spec fn spec_code(self) -> u8 {
        match self {
            FragmentType::Init => 0,
            FragmentType::Fragment => 1,
            FragmentType::Mfu => 2,
        }
    }

    /// The type that a number stands for.
    pub open spec fn spec_from(val: u8) -> Result<FragmentType, MmtError> {
        if val == 0 {
            Ok(FragmentType::Init)
        } else if val == 1 {
            Ok(FragmentType::Fragment)
        } else if val == 2 {
            Ok(FragmentType::Mfu)
        } else {
            Err(MmtError::InvalidFragmentType(val))
        }
    }

    pub fn code(self) -> (r: u8)
        ensures
            r == self.spec_code(),
    {
        match self {
            FragmentType::Init => 0,
            FragmentType::Fragment => 1,
            FragmentType::Mfu => 2,
        }
    }

    pub fn from_u8(val: u8) -> (r: Result<Self, MmtError>)
        ensures
            r == FragmentType::spec_from(val),
    {
        match val {
            0 => Ok(FragmentType::Init),
            1 => Ok(FragmentType::Fragment),
            2 => Ok(FragmentType::Mfu),
            _ => Err(MmtError::InvalidFragmentType(val)),
        }
    }
}

/// The number of a flag bit.
pub open spec fn bit(b: bool) -> u8 {
    if b {
        1
    } else {
        0
    }
}

fn flag(b: bool) -> (r: u8)
    ensures
        r == bit(b),
{
    if b {
        1
    } else {
        0
    }
}

/// The source symbol that a packet carries. Where blocks hold `k` symbols each,
/// the number gives the block and the place in it.
#[derive(Copy, Clone, Debug, PartialEq, Eq, Structural)]
pub struct SourceFecPayloadId {
    pub ss_id: u32,
}

impl SourceFecPayloadId {
    pub fn new(ss_id: u32) -> (r: Self)
        ensures
            r.ss_id == ss_id,
    {
        SourceFecPayloadId { ss_id }
    }

    /// The block of the symbol.
    pub open spec fn spec_sbn(self, k: u32) -> u32 {
        if k == 0 {
            0
        } else {
            self.ss_id / k
        }
    }

    /// The place of the symbol in its block.
    pub open spec fn spec_esi(self, k: u32) -> u32 {
        if k == 0 {
            0
        } else {
            self.ss_id % k
        }
    }

    pub fn sbn(&self, k: u32) -> (r: u32)
        ensures
            r == self.spec_sbn(k),
    {
        if k == 0 {
            0
        } else {
            self.ss_id / k
        }
    }

    pub fn esi(&self, k: u32) -> (r: u32)
        ensures
            r == self.spec_esi(k),
    {
        if k == 0 {
            0
        } else {
            self.ss_id % k
        }
    }

    /// Reads the id from the last four bytes.
    pub fn read_trailer(bytes: &[u8]) -> (r: Result<Self, MmtError>)
        ensures
            r == if bytes@.len() < 4 {
                Err::<Self, MmtError>(
                    MmtError::BufferTooSmall { need: 4, have: bytes@.len() as usize },
                )
            } else {
                Ok(
                    SourceFecPayloadId {
                        ss_id: be_value(bytes@.skip(bytes@.len() - 4)) as u32,
                    },
                )
            },
    {
        let n: usize = bytes.len();
        if n < 4 {
            return Err(MmtError::BufferTooSmall { need: 4, have: n });
        }
        assert(bytes@.subrange(n - 4, n as int) =~= bytes@.skip(n - 4));
        Ok(SourceFecPayloadId { ss_id: be_u32_at(bytes, n - 4) })
    }

    /// The trailer of a packet that carries the id.
    pub fn to_bytes(&self) -> (r: Vec<u8>)
        ensures
            r@ == be_bytes(self.ss_id as nat, 4),
    {
        let mut out: Vec<u8> = Vec::new();
        put_be(&mut out, self.ss_id as u64, 4);
        assert(out@ =~= be_bytes(self.ss_id as nat, 4));
        out
    }
}

/// A symbol is found again from its block and its place in it.
pub proof fn law_symbol_is_block_and_place(id: SourceFecPayloadId, k: u32)
    requires
        k > 0,
    ensures
        id.spec_sbn(k) * k + id.spec_esi(k) == id.ss_id,
        id.spec_esi(k) < k,
{
    vstd::arithmetic::div_mod::lemma_fundamental_div_mod(id.ss_id as int, k as int);
    assert(k * (id.ss_id / k) == (id.ss_id / k) * k) by (nonlinear_arith);
}

/// The header of every packet.
#[derive(Debug)]
pub struct MmtpHeader {
    pub version: u8,
    pub payload_type_extension_flag: bool,
    pub fec_type: u8,
    pub extension_flag: bool,
    pub rap_flag: bool,
    pub packet_type: PacketType,
    pub packet_id: u16,
    pub timestamp: u32,
    pub packet_sequence: u32,
    pub extension: Option<Vec<u8>>,
}

/// What a packet header says.
pub ghost struct MmtpHeaderView {
    pub version: u8,
    pub payload_type_extension_flag: bool,
    pub fec_type: u8,
    pub extension_flag: bool,
    pub rap_flag: bool,
    pub packet_type: PacketType,
    pub packet_id: u16,
    pub timestamp: u32,
    pub packet_sequence: u32,
    pub extension: Option<Seq<u8>>,
}

impl View for MmtpHeader {
    type V = MmtpHeaderView;

    open spec fn view(&self) -> MmtpHeaderView {
        MmtpHeaderView {
            version: self.version,
            payload_type_extension_flag: self.payload_type_extension_flag,
            fec_type: self.fec_type,
            extension_flag: self.extension_flag,
            rap_flag: self.rap_flag,
            packet_type: self.packet_type,
            packet_id: self.packet_id,
            timestamp: self.timestamp,
            packet_sequence: self.packet_sequence,
            extension: match self.extension {
                Some(e) => Some(e@),
                None => None,
            },
        }
    }
}

/// The bytes of a header: two bits of version, the payload extension flag, two
/// bits of FEC type, a reserved bit, the extension and random access flags;
/// the type; the packet id; the timestamp; the sequence number; the extension.
pub open spec fn mmtp_bytes(h: MmtpHeaderView) -> Seq<u8> {
    seq![
        ((h.version % 4) * 64 + bit(h.payload_type_extension_flag) * 32 + (h.fec_type % 4) * 8
            + bit(h.extension_flag) * 2 + bit(h.rap_flag)) as u8,
        h.packet_type.spec_code(),
    ] + be_bytes(h.packet_id as nat, 2) + be_bytes(h.timestamp as nat, 4) + be_bytes(
        h.packet_sequence as nat,
        4,
    ) + (match h.extension {
        Some(e) => e,
        None => Seq::empty(),
    })
}

/// The header at the start of `s`. An extension is left for the reader of what
/// follows.
pub open spec fn mmtp_decode(s: Seq<u8>) -> Result<MmtpHeaderView, MmtError> {
    if s.len() < MMTP_HEADER_SIZE {
        Err(MmtError::BufferTooSmall { need: MMTP_HEADER_SIZE, have: s.len() as usize })
    } else {
        match PacketType::spec_from(s[1] % 64) {
            Err(e) => Err(e),
            Ok(packet_type) => Ok(
                MmtpHeaderView {
                    version: s[0] / 64,
                    payload_type_extension_flag: s[0] / 32 % 2 == 1,
                    fec_type: s[0] / 8 % 4,
                    extension_flag: s[0] / 2 % 2 == 1,
                    rap_flag: s[0] % 2 == 1,
                    packet_type,
                    packet_id: be_value(s.subrange(2, 4)) as u16,
                    timestamp: be_value(s.subrange(4, 8)) as u32,
                    packet_sequence: be_value(s.subrange(8, 12)) as u32,
                    extension: None,
                },
            ),
        }
    }
}

/// A header is read back as it was written, where its version and FEC type fit
/// their two bits. The extension is not part of what is read.
pub proof fn law_mmtp_header_round_trip(h: MmtpHeaderView, rest: Seq<u8>)
    requires
        h.version < 4,
        h.fec_type < 4,
    ensures
        mmtp_decode(mmtp_bytes(h) + rest) == Ok::<MmtpHeaderView, MmtError>(
            MmtpHeaderView { extension: None, ..h },
        ),
        mmtp_bytes(h).len() == MMTP_HEADER_SIZE + (match h.extension {
            Some(e) => e.len(),
            None => 0,
        }),
{
    reveal_with_fuel(pow256, 5);
    let s = mmtp_bytes(h) + rest;
    let id = be_bytes(h.packet_id as nat, 2);
    let ts = be_bytes(h.timestamp as nat, 4);
    let sq = be_bytes(h.packet_sequence as nat, 4);
    crate::wire::lemma_be_bytes_len(h.packet_id as nat, 2);
    crate::wire::lemma_be_bytes_len(h.timestamp as nat, 4);
    crate::wire::lemma_be_bytes_len(h.packet_sequence as nat, 4);
    crate::wire::lemma_be_round_trip(h.packet_id as nat, 2);
    crate::wire::lemma_be_round_trip(h.timestamp as nat, 4);
    crate::wire::lemma_be_round_trip(h.packet_sequence as nat, 4);
    assert(s.subrange(2, 4) =~= id);
    assert(s.subrange(4, 8) =~= ts);
    assert(s.subrange(8, 12) =~= sq);
}

/// The number that two bytes of a slice spell.
fn be_u16_at(s: &[u8], at: usize) -> (r: u16)
    requires
        at + 2 <= s@.len(),
    ensures
        r == be_value(s@.subrange(at as int, at + 2)),
{
    proof {
        reveal_with_fuel(be_value, 3);
        let pair = s@.subrange(at as int, at + 2);
        assert(pair.drop_last().drop_last() =~= Seq::<u8>::empty());
        assert(pair.drop_last().last() == s@[at as int]);
        assert(pair.last() == s@[at + 1]);
    }
    s[at] as u16 * 256 + s[at + 1] as u16
}

impl MmtpHeader {
    pub fn new(packet_id: u16, packet_type: PacketType) -> (r: Self)
        ensures
            r@ == (MmtpHeaderView {
                version: 0,
                payload_type_extension_flag: false,
                fec_type: 0,
                extension_flag: false,
                rap_flag: false,
                packet_type,
                packet_id,
                timestamp: 0,
                packet_sequence: 0,
                extension: None,
            }),
    {
        MmtpHeader {
            version: 0,
            payload_type_extension_flag: false,
            fec_type: 0,
            extension_flag: false,
            rap_flag: false,
            packet_type,
            packet_id,
            timestamp: 0,
            packet_sequence: 0,
            extension: None,
        }
    }

    /// Appends the header and its extension.
    pub fn write_to(&self, buf: &mut Vec<u8>)
        ensures
            final(buf)@ == old(buf)@ + mmtp_bytes(self@),
    {
        let byte0: u8 = (self.version % 4) * 64 + flag(self.payload_type_extension_flag) * 32 + (
        self.fec_type % 4) * 8 + flag(self.extension_flag) * 2 + flag(self.rap_flag);
        buf.push(byte0);
        buf.push(self.packet_type.code());
        put_be(buf, self.packet_id as u64, 2);
        put_be(buf, self.timestamp as u64, 4);
        put_be(buf, self.packet_sequence as u64, 4);
        if let Some(e) = &self.extension {
            buf.extend_from_slice(e.as_slice());
        }
        assert(buf@ =~= old(buf)@ + mmtp_bytes(self@));
    }

    /// Reads the header at the start of a packet.
    pub fn read_from(buf: &[u8]) -> (r: Result<Self, MmtError>)
        ensures
            match mmtp_decode(buf@) {
                Ok(h) => r matches Ok(x) && x@ == h,
                Err(e) => r matches Err(x) && x == e,
            },
    {
        if buf.len() < MMTP_HEADER_SIZE {
            return Err(MmtError::BufferTooSmall { need: MMTP_HEADER_SIZE, have: buf.len() });
        }
        let byte0: u8 = buf[0];
        let packet_type: PacketType = PacketType::from_u8(buf[1] % 64)?;
        Ok(
            MmtpHeader {
                version: byte0 / 64,
                payload_type_extension_flag: byte0 / 32 % 2 == 1,
                fec_type: byte0 / 8 % 4,
                extension_flag: byte0 / 2 % 2 == 1,
                rap_flag: byte0 % 2 == 1,
                packet_type,
                packet_id: be_u16_at(buf, 2),
                timestamp: be_u32_at(buf, 4),
                packet_sequence: be_u32_at(buf, 8),
                extension: None,
            },
        )
    }
}

/// The header that follows in media packets.
#[derive(Copy, Clone, Debug, PartialEq, Eq, Structural)]
pub struct MpuHeader {
    pub payload_length: u16,
    pub fragment_type: FragmentType,
    pub timed: bool,
    /// Whether the packet is whole, or the first, a middle or the last
    /// fragment.
    pub fragmentation_indicator: u8,
    pub aggregation: bool,
    pub fragment_counter: u8,
    pub mpu_sequence: u32,
}

/// The bytes of an MPU header: the payload length; four bits of type, the timed
/// flag, two bits of fragmentation, the aggregation flag; the fragment counter;
/// the sequence number.
pub open spec fn mpu_bytes(h: MpuHeader) -> Seq<u8> {
    be_bytes(h.payload_length as nat, 2) + seq![
        (h.fragment_type.spec_code() * 16 + bit(h.timed) * 8 + (h.fragmentation_indicator % 4) * 2
            + bit(h.aggregation)) as u8,
        h.fragment_counter,
    ] + be_bytes(h.mpu_sequence as nat, 4)
}

/// The MPU header at the start of `s`.
pub open spec fn mpu_decode(s: Seq<u8>) -> Result<MpuHeader, MmtError> {
    if s.len() < MPU_HEADER_SIZE {
        Err(MmtError::BufferTooSmall { need: MPU_HEADER_SIZE, have: s.len() as usize })
    } else {
        match FragmentType::spec_from(s[2] / 16) {
            Err(e) => Err(e),
            Ok(fragment_type) => Ok(
                MpuHeader {
                    payload_length: be_value(s.subrange(0, 2)) as u16,
                    fragment_type,
                    timed: s[2] / 8 % 2 == 1,
                    fragmentation_indicator: s[2] / 2 % 4,
                    aggregation: s[2] % 2 == 1,
                    fragment_counter: s[3],
                    mpu_sequence: be_value(s.subrange(4, 8)) as u32,
                },
            ),
        }
    }
}

/// An MPU header is read back as it was written, where its fragmentation
/// indicator fits its two bits.
pub proof fn law_mpu_header_round_trip(h: MpuHeader, rest: Seq<u8>)
    requires
        h.fragmentation_indicator < 4,
    ensures
        mpu_decode(mpu_bytes(h) + rest) == Ok::<MpuHeader, MmtError>(h),
        mpu_bytes(h).len() == MPU_HEADER_SIZE,
{
    reveal_with_fuel(pow256, 5);
    let s = mpu_bytes(h) + rest;
    crate::wire::lemma_be_bytes_len(h.payload_length as nat, 2);
    crate::wire::lemma_be_bytes_len(h.mpu_sequence as nat, 4);
    crate::wire::lemma_be_round_trip(h.payload_length as nat, 2);
    crate::wire::lemma_be_round_trip(h.mpu_sequence as nat, 4);
    assert(s.subrange(0, 2) =~= be_bytes(h.payload_length as nat, 2));
    assert(s.subrange(4, 8) =~= be_bytes(h.mpu_sequence as nat, 4));
}

impl MpuHeader {
    pub fn new(fragment_type: FragmentType, mpu_sequence: u32) -> (r: Self)
        ensures
            r == (MpuHeader {
                payload_length: 0,
                fragment_type,
                timed: true,
                fragmentation_indicator: 0,
                aggregation: false,
                fragment_counter: 0,
                mpu_sequence,
            }),
    {
        MpuHeader {
            payload_length: 0,
            fragment_type,
            timed: true,
            fragmentation_indicator: 0,
            aggregation: false,
            fragment_counter: 0,
            mpu_sequence,
        }
    }

    /// Appends the header.
    pub fn write_to(&self, buf: &mut Vec<u8>)
        ensures
            final(buf)@ == old(buf)@ + mpu_bytes(*self),
    {
        put_be(buf, self.payload_length as u64, 2);
        let byte2: u8 = self.fragment_type.code() * 16 + flag(self.timed) * 8 + (
        self.fragmentation_indicator % 4) * 2 + flag(self.aggregation);
        buf.push(byte2);
        buf.push(self.fragment_counter);
        put_be(buf, self.mpu_sequence as u64, 4);
        assert(buf@ =~= old(buf)@ + mpu_bytes(*self));
    }

    /// Reads the header at the start of a payload.
    pub fn read_from(buf: &[u8]) -> (r: Result<Self, MmtError>)
        ensures
            r == mpu_decode(buf@),
    {
        if buf.len() < MPU_HEADER_SIZE {
            return Err(MmtError::BufferTooSmall { need: MPU_HEADER_SIZE, have: buf.len() });
        }
        let byte2: u8 = buf[2];
        let fragment_type: FragmentType = FragmentType::from_u8(byte2 / 16)?;
        Ok(
            MpuHeader {
                payload_length: be_u16_at(buf, 0),
                fragment_type,
                timed: byte2 / 8 % 2 == 1,
                fragmentation_indicator: byte2 / 2 % 4,
                aggregation: byte2 % 2 == 1,
                fragment_counter: buf[3],
                mpu_sequence: be_u32_at(buf, 4),
            },
        )
    }
}

/// Every kind of packet, protection and fragment has its number, and a number
/// stands for the kind that has it; other numbers are refused.
pub proof fn law_kinds_have_their_numbers(packet: PacketType, fragment: FragmentType, n: u8)
    ensures
        PacketType::spec_from(packet.spec_code()) == Ok::<PacketType, MmtError>(packet),
        FragmentType::spec_from(fragment.spec_code()) == Ok::<FragmentType, MmtError>(fragment),
        (PacketType::spec_from(n) is Ok) == (n <= 3),
        n > 3 ==> PacketType::spec_from(n) == Err::<PacketType, MmtError>(
            MmtError::InvalidPacketType(n),
        ),
        (FragmentType::spec_from(n) is Ok) == (n <= 2),
        n > 2 ==> FragmentType::spec_from(n) == Err::<FragmentType, MmtError>(
            MmtError::InvalidFragmentType(n),
        ),
        PacketType::Mpu.spec_code() == 0,
        PacketType::Generic.spec_code() == 1,
        PacketType::Control.spec_code() == 2,
        PacketType::Repair.spec_code() == 3,
        FragmentType::Init.spec_code() == 0,
        FragmentType::Fragment.spec_code() == 1,
        FragmentType::Mfu.spec_code() == 2,
        FecType::Unprotected.spec_code() == 0,
        FecType::WithSourcePayloadId.spec_code() == 1,
        FecType::RepairMode0.spec_code() == 2,
        FecType::RepairMode1.spec_code() == 3,
{
}

/// Where each part of a packet header stands: the version in the two top bits,
/// the flags and the FEC type in the rest of the first byte, then the type, the
/// packet id, the timestamp and the sequence number, most significant byte first,
/// and the extension behind the twelve.
pub proof fn law_packet_header_layout(h: MmtpHeaderView)
    ensures
        ({
            let s = mmtp_bytes(h);
            &&& s.len() >= 12
            &&& s[0] / 64 == h.version % 4
            &&& (s[0] / 32 % 2 == 1) == h.payload_type_extension_flag
            &&& s[0] / 8 % 4 == h.fec_type % 4
            &&& s[0] / 4 % 2 == 0
            &&& (s[0] / 2 % 2 == 1) == h.extension_flag
            &&& (s[0] % 2 == 1) == h.rap_flag
            &&& s[1] == h.packet_type.spec_code()
            &&& s[2] * 256 + s[3] == h.packet_id
            &&& be_value(s.subrange(4, 8)) == h.timestamp
            &&& be_value(s.subrange(8, 12)) == h.packet_sequence
            &&& h.extension matches Some(e) ==> s.skip(12) == e
            &&& h.extension is None ==> s.len() == 12
        }),
{
    reveal_with_fuel(pow256, 5);
    let s = mmtp_bytes(h);
    let id = be_bytes(h.packet_id as nat, 2);
    crate::wire::lemma_be_bytes_len(h.packet_id as nat, 2);
    crate::wire::lemma_be_bytes_len(h.timestamp as nat, 4);
    crate::wire::lemma_be_bytes_len(h.packet_sequence as nat, 4);
    crate::wire::lemma_be_round_trip(h.packet_id as nat, 2);
    crate::wire::lemma_be_round_trip(h.timestamp as nat, 4);
    crate::wire::lemma_be_round_trip(h.packet_sequence as nat, 4);
    assert(s.subrange(4, 8) =~= be_bytes(h.timestamp as nat, 4));
    assert(s.subrange(8, 12) =~= be_bytes(h.packet_sequence as nat, 4));
    if let Some(e) = h.extension {
        assert(s.skip(12) =~= e);
    }
    assert(s[2] == id[0]);
    assert(s[3] == id[1]);
    reveal_with_fuel(be_value, 3);
    assert(id.drop_last().drop_last() =~= Seq::<u8>::empty());
    assert(id.drop_last().last() == id[0]);
    assert(id.last() == id[1]);
}

/// Where each part of an MPU header stands: the payload length, the type in four
/// bits, the flags and the fragmentation in the rest of that byte, the fragment
/// counter, and the sequence number, most significant byte first.
pub proof fn law_mpu_header_layout(h: MpuHeader)
    ensures
        ({
            let s = mpu_bytes(h);
            &&& s.len() == 8
            &&& s[0] * 256 + s[1] == h.payload_length
            &&& s[2] / 16 == h.fragment_type.spec_code()
            &&& (s[2] / 8 % 2 == 1) == h.timed
            &&& s[2] / 2 % 4 == h.fragmentation_indicator % 4
            &&& (s[2] % 2 == 1) == h.aggregation
            &&& s[3] == h.fragment_counter
            &&& be_value(s.subrange(4, 8)) == h.mpu_sequence
        }),
{
    reveal_with_fuel(pow256, 5);
    let s = mpu_bytes(h);
    let len = be_bytes(h.payload_length as nat, 2);
    crate::wire::lemma_be_bytes_len(h.payload_length as nat, 2);
    crate::wire::lemma_be_bytes_len(h.mpu_sequence as nat, 4);
    crate::wire::lemma_be_round_trip(h.payload_length as nat, 2);
    crate::wire::lemma_be_round_trip(h.mpu_sequence as nat, 4);
    assert(s.subrange(4, 8) =~= be_bytes(h.mpu_sequence as nat, 4));
    assert(s[0] == len[0]);
    assert(s[1] == len[1]);
    reveal_with_fuel(be_value, 3);
    assert(len.drop_last().drop_last() =~= Seq::<u8>::empty());
    assert(len.drop_last().last() == len[0]);
    assert(len.last() == len[1]);
}

/// A packet header is refused exactly where it is cut short or names no kind of
/// packet, and an MPU header where it is cut short or names no kind of fragment.
pub proof fn law_headers_are_refused_for_cause(s: Seq<u8>)
    ensures
        s.len() < 12 ==> mmtp_decode(s) == Err::<MmtpHeaderView, MmtError>(
            MmtError::BufferTooSmall { need: 12, have: s.len() as usize },
        ),
        s.len() >= 12 ==> {
            &&& (mmtp_decode(s) is Ok) == (s[1] % 64 <= 3)
            &&& s[1] % 64 > 3 ==> mmtp_decode(s) == Err::<MmtpHeaderView, MmtError>(
                MmtError::InvalidPacketType(s[1] % 64),
            )
        },
        s.len() < 8 ==> mpu_decode(s) == Err::<MpuHeader, MmtError>(
            MmtError::BufferTooSmall { need: 8, have: s.len() as usize },
        ),
        s.len() >= 8 ==> {
            &&& (mpu_decode(s) is Ok) == (s[2] / 16 <= 2)
            &&& s[2] / 16 > 2 ==> mpu_decode(s) == Err::<MpuHeader, MmtError>(
                MmtError::InvalidFragmentType(s[2] / 16),
            )
        },
{
}

/// Without a block size there is but one block and one place.
pub proof fn law_no_block_size_is_one_block(id: SourceFecPayloadId)
    ensures
        id.spec_sbn(0) == 0,
        id.spec_esi(0) == 0,
{
}

} // verus!
