use bytes::Bytes;
use moq_mmtp::mmt::{
    FecType, FragmentType, MmtError, MmtpHeader, MpuHeader, PacketType, SourceFecPayloadId,
    MMTP_HEADER_SIZE,
};
use moq_mmtp::publisher::datagram::{DatagramError, DatagramState, TrackDatagrams};
use moq_mmtp::publisher::dispatch::{
    dispatch, DispatchError, GroupObjects, TrackGroups, TrackState,
};
use moq_mmtp::publisher::parse::{route, PacketRouting, RouteError};
use moq_mmtp::serve::datagram::Datagrams;
use moq_mmtp::serve::object::SubgroupReader;
use moq_mmtp::serve::subgroup::{Subgroups, SubgroupsReader};
use moq_mmtp::serve::{ReadOutcome, ServeError};
use moq_mmtp::table::Table;

/// A track with one subscriber, who has read nothing yet.
fn sink() -> (TrackGroups, SubgroupsReader) {
    let (state, writer, reader) = Subgroups {}.produce();
    (TrackGroups::new(state, writer, None), reader)
}

struct Published {
    map: Table<TrackState<TrackGroups>>,
    packet_id: u64,
    source: SubgroupsReader,
    repair: Option<SubgroupsReader>,
}

impl Published {
    fn new(packet_id: u16, priority: u8, with_repair: bool) -> Published {
        let (groups, source) = sink();
        let (repair_groups, repair) = if with_repair {
            let (groups, reader) = sink();
            (Some(groups), Some(reader))
        } else {
            (None, None)
        };
        let mut map = Table::new();
        map.insert(
            packet_id as u64,
            TrackState::new(
                format!("track-{packet_id}"),
                priority,
                groups,
                repair_groups,
            ),
        );
        Published {
            map,
            packet_id: packet_id as u64,
            source,
            repair,
        }
    }

    fn put(&mut self, routing: PacketRouting, payload: &[u8]) -> Result<(), DispatchError> {
        dispatch(&mut self.map, &routing, Bytes::copy_from_slice(payload))
    }

    fn state(&self) -> &TrackState<TrackGroups> {
        self.map.get(self.packet_id).unwrap()
    }

    fn groups_created(&mut self) -> Vec<(u64, u64, u8)> {
        let mut state = self.map.remove(self.packet_id).unwrap();
        let groups = drain(&mut self.source, &mut state.sink);
        self.map.insert(self.packet_id, state);
        groups
    }

    fn repair_groups_created(&mut self) -> Vec<(u64, u64, u8)> {
        let mut state = self.map.remove(self.packet_id).unwrap();
        let groups = drain(
            self.repair.as_mut().unwrap(),
            &mut state.repair.as_mut().unwrap().sink,
        );
        self.map.insert(self.packet_id, state);
        groups
    }
}

fn drain(reader: &mut SubgroupsReader, groups: &mut TrackGroups) -> Vec<(u64, u64, u8)> {
    let mut got = Vec::new();
    while let ReadOutcome::Item(s) = reader.next(&mut groups.state) {
        got.push((s.group_id, s.subgroup_id, s.priority));
    }
    got
}

fn writes(group: &GroupObjects) -> Vec<Bytes> {
    let mut reader = SubgroupReader::start();
    let mut got = Vec::new();
    while let ReadOutcome::Item(payload) = reader.read_next(&group.state) {
        got.push(payload);
    }
    got
}

fn mpu(packet_id: u16, mpu_seq: u32, frag: FragmentType) -> PacketRouting {
    PacketRouting {
        packet_id,
        packet_type: PacketType::Mpu,
        fec_type: 0,
        rap_flag: false,
        mpu_sequence: Some(mpu_seq),
        fragment_type: Some(frag),
        source_fec_payload_id: None,
    }
}

fn mpu_with_fec(packet_id: u16, mpu_seq: u32, frag: FragmentType, ss_id: u32) -> PacketRouting {
    PacketRouting {
        packet_id,
        packet_type: PacketType::Mpu,
        fec_type: FecType::WithSourcePayloadId.code(),
        rap_flag: false,
        mpu_sequence: Some(mpu_seq),
        fragment_type: Some(frag),
        source_fec_payload_id: Some(SourceFecPayloadId { ss_id }),
    }
}

fn repair(packet_id: u16) -> PacketRouting {
    PacketRouting {
        packet_id,
        packet_type: PacketType::Repair,
        fec_type: 2,
        rap_flag: false,
        mpu_sequence: None,
        fragment_type: None,
        source_fec_payload_id: None,
    }
}

#[test]
fn unknown_packet_id_hard_errors() {
    let mut track = Published::new(1, 5, false);
    let err = track
        .put(mpu(99, 1, FragmentType::Init), b"x")
        .unwrap_err();
    assert!(err.describe().contains("unknown packet_id"));
    assert_eq!(err, DispatchError::UnknownPacketId(99));
}

#[test]
fn first_packet_on_track_must_be_init() {
    let mut track = Published::new(1, 5, false);
    let err = track.put(mpu(1, 1, FragmentType::Mfu), b"x").unwrap_err();
    assert!(err.describe().contains("Init"));
}

#[test]
fn mpu_sequence_regression_hard_errors() {
    let mut track = Published::new(1, 5, false);
    track.put(mpu(1, 10, FragmentType::Init), b"init").unwrap();
    let err = track
        .put(mpu(1, 5, FragmentType::Init), b"oops")
        .unwrap_err();
    assert!(err.describe().contains("regression"));
    assert_eq!(
        DispatchError::FirstPacketNotInit {
            packet_id: 1,
            mpu_seq: 10,
            fragment_type: FragmentType::Mfu
        }
        .describe(),
        "first packet of MPU mpu_seq=10 on packet_id 1 has fragment_type=Mfu, expected Init \
         (A1: MPU metadata must be object 0 of the new group)"
    );
    assert_eq!(
        err,
        DispatchError::MpuRegression {
            packet_id: 1,
            mpu_seq: 5,
            last: 10
        }
    );
}

#[test]
fn mpu_advance_opens_new_subgroup() {
    let mut track = Published::new(1, 5, false);
    track.put(mpu(1, 10, FragmentType::Init), b"a").unwrap();
    track.put(mpu(1, 11, FragmentType::Init), b"b").unwrap();
    assert_eq!(
        track.groups_created(),
        vec![(10, 0, 5), (11, 0, 5)],
        "expected two create_group calls with explicit group_ids"
    );
    assert_eq!(track.state().current_group_id, Some(11));
    assert_eq!(track.state().last_seen_mpu_seq, Some(11));
}

#[test]
fn finished_groups_stay_as_long_as_the_track_retains_them() {
    let mut track = Published::new(1, 5, false);
    track.put(mpu(1, 10, FragmentType::Init), b"a").unwrap();
    track.put(mpu(1, 10, FragmentType::Mfu), b"b").unwrap();
    track.put(mpu(1, 11, FragmentType::Init), b"c").unwrap();
    // Nobody has read a group yet, so that none is given up.
    let group = track.state().sink.group(0).expect("the first group is kept");
    let mut reader = SubgroupReader::start();
    let mut got = Vec::new();
    while let ReadOutcome::Item(payload) = reader.read_next(group) {
        got.push(payload);
    }
    assert_eq!(got, vec![Bytes::from_static(b"a"), Bytes::from_static(b"b")]);
    assert!(matches!(reader.read_next(group), ReadOutcome::End));
    assert!(track.state().sink.group(1).is_none(), "still written");

    // The subscriber has read both: the next group makes room.
    assert_eq!(track.groups_created(), vec![(10, 0, 5), (11, 0, 5)]);
    track.put(mpu(1, 12, FragmentType::Init), b"d").unwrap();
    assert!(track.state().sink.group(0).is_none(), "given up");
    assert!(track.state().sink.group(1).is_some());
    assert!(track.state().sink.group(2).is_none(), "still written");
}

#[test]
fn repair_packet_for_unknown_packet_id_errors() {
    let mut track = Published::new(1, 5, true);
    let err = track.put(repair(99), b"r").unwrap_err();
    assert!(err.describe().contains("unknown packet_id"));
}

#[test]
fn repair_packet_for_track_without_repair_sibling_errors() {
    let mut track = Published::new(1, 5, false);
    // Open the source MPU with FEC first so that only the missing sibling is
    // left to complain about.
    track
        .put(mpu_with_fec(1, 10, FragmentType::Init, 0), b"i")
        .unwrap();
    let err = track.put(repair(1), b"r").unwrap_err();
    assert!(
        err.describe().contains("no /repair sibling") || err.describe().contains("repair sibling")
    );
    assert_eq!(
        err,
        DispatchError::NoRepairSibling {
            packet_id: 1,
            name: "track-1".into()
        }
    );
    assert_eq!(
        err.describe(),
        "repair packet for packet_id 1 but no /repair sibling track was registered for \
         `track-1` (build_state_map misconfiguration?)"
    );
}

#[test]
fn repair_before_source_fec_block_errors() {
    let mut track = Published::new(1, 5, true);
    let err = track.put(repair(1), b"r").unwrap_err();
    assert!(err.describe().contains("before any source FEC block"));
}

#[test]
fn repair_packet_routes_to_repair_sink_at_priority_7() {
    let mut track = Published::new(1, 5, true);
    // Source MPU 10, ss_id=0 -> SBN=0.
    track
        .put(mpu_with_fec(1, 10, FragmentType::Init, 0), b"i")
        .unwrap();
    // Now a repair packet for the same packet_id.
    track.put(repair(1), b"r1").unwrap();
    // Source sink: 1 create_group at priority 5.
    assert_eq!(track.groups_created(), vec![(10, 0, 5)]);
    // Repair sink: 1 create_group at priority 7, group_id=SBN=0.
    assert_eq!(
        track.repair_groups_created(),
        vec![(0, 0, 7)],
        "repair group_id is SBN (0); priority is 7"
    );
    let r = track.state().repair.as_ref().expect("repair sibling exists");
    assert_eq!(r.current_sbn, Some(0));
    // The repair payload landed on the repair group, not the source.
    let rg = r.current_group.as_ref().expect("repair group open");
    assert_eq!(writes(rg), vec![Bytes::from_static(b"r1")]);
}

#[test]
fn repair_group_advances_with_source_block() {
    let mut track = Published::new(1, 5, true);
    // Source packet in FEC block 0 (ss_id=0 -> SBN=0).
    track
        .put(mpu_with_fec(1, 10, FragmentType::Init, 0), b"i10")
        .unwrap();
    track.put(repair(1), b"r_sbn0").unwrap();
    // ss_id=31 is the last symbol of FEC block 0; SBN must still be 0.
    track
        .put(mpu_with_fec(1, 10, FragmentType::Mfu, 31), b"m10")
        .unwrap();
    assert_eq!(
        track.state().current_sbn,
        Some(0),
        "ss_id=31 must remain in SBN=0 (off-by-one guard)"
    );
    // Source advances to FEC block 1 (ss_id=32 -> SBN=1), new MPU 11.
    track
        .put(mpu_with_fec(1, 11, FragmentType::Init, 32), b"i11")
        .unwrap();
    track.put(repair(1), b"r_sbn1").unwrap();
    assert_eq!(
        track.repair_groups_created(),
        vec![(0, 0, 7), (1, 0, 7)],
        "repair opens a new group when SBN advances, keyed by SBN not MPU"
    );
    assert_eq!(
        track.state().repair.as_ref().unwrap().current_sbn,
        Some(1)
    );
}

#[test]
fn repair_group_keyed_by_sbn_not_mpu_group() {
    // MPU 10 -> ss_id=5  -> SBN=0
    // MPU 11 -> ss_id=10 -> SBN=0, the same block as MPU 10
    // MPU 12 -> ss_id=32 -> SBN=1, a new block
    let mut track = Published::new(1, 5, true);

    track
        .put(mpu_with_fec(1, 10, FragmentType::Init, 5), b"i10")
        .unwrap();
    track.put(repair(1), b"r_mpu10").unwrap();

    track
        .put(mpu_with_fec(1, 11, FragmentType::Init, 10), b"i11")
        .unwrap();
    track.put(repair(1), b"r_mpu11").unwrap();

    track
        .put(mpu_with_fec(1, 12, FragmentType::Init, 32), b"i12")
        .unwrap();
    track.put(repair(1), b"r_mpu12").unwrap();

    assert_eq!(
        track.repair_groups_created(),
        vec![(0, 0, 7), (1, 0, 7)],
        "repair subgroups keyed by SBN (2 groups), not by MPU sequence (3 groups)"
    );
    assert_eq!(
        track.state().repair.as_ref().unwrap().current_sbn,
        Some(1),
        "current SBN is 1 after block advance"
    );
}

#[test]
fn equal_mpu_appends_to_current_subgroup() {
    let mut track = Published::new(1, 5, false);
    track.put(mpu(1, 10, FragmentType::Init), b"init").unwrap();
    track.put(mpu(1, 10, FragmentType::Mfu), b"frame1").unwrap();
    track.put(mpu(1, 10, FragmentType::Mfu), b"frame2").unwrap();
    assert_eq!(
        track.groups_created(),
        vec![(10, 0, 5)],
        "exactly one subgroup created for the single MPU"
    );
    let group = track
        .state()
        .current_group
        .as_ref()
        .expect("current_group is open");
    let writes = writes(group);
    assert_eq!(writes.len(), 3);
    assert_eq!(writes[0], Bytes::from_static(b"init"));
    assert_eq!(writes[1], Bytes::from_static(b"frame1"));
    assert_eq!(writes[2], Bytes::from_static(b"frame2"));
}

#[test]
fn fragmented_mfu_packets_share_one_subgroup_raw_passthrough() {
    let mut track = Published::new(1, 5, false);
    let pkts: &[(FragmentType, &[u8])] = &[
        (FragmentType::Init, b"init-mpu-10"),
        (FragmentType::Mfu, b"mfu-fragment-1"),
        (FragmentType::Mfu, b"mfu-fragment-2"),
        (FragmentType::Mfu, b"mfu-fragment-3"),
    ];
    for (frag, payload) in pkts {
        track
            .put(mpu(1, 10, *frag), payload)
            .expect("raw-passthrough must accept all fragments of one MPU");
    }
    assert_eq!(
        track.groups_created(),
        vec![(10, 0, 5)],
        "exactly one subgroup created for the single MPU"
    );
    let group = track
        .state()
        .current_group
        .as_ref()
        .expect("current_group is open");
    let writes = writes(group);
    assert_eq!(
        writes.len(),
        4,
        "all 4 MMTP packets (Init + 3 MFU fragments) land as separate MoQ objects"
    );
    assert_eq!(writes[0], Bytes::from_static(b"init-mpu-10"));
    assert_eq!(writes[1], Bytes::from_static(b"mfu-fragment-1"));
    assert_eq!(writes[2], Bytes::from_static(b"mfu-fragment-2"));
    assert_eq!(writes[3], Bytes::from_static(b"mfu-fragment-3"));
}

#[test]
fn incomplete_routing_and_refused_groups_are_reported() {
    let mut track = Published::new(1, 5, false);
    let mut routing = mpu(1, 1, FragmentType::Init);
    routing.mpu_sequence = None;
    assert_eq!(
        track.put(routing, b"x"),
        Err(DispatchError::MissingMpuSequence(1))
    );
    let mut routing = mpu(1, 1, FragmentType::Init);
    routing.fragment_type = None;
    assert_eq!(
        track.put(routing, b"x"),
        Err(DispatchError::MissingFragmentType(1))
    );
    let mut skipped = mpu(1, 1, FragmentType::Init);
    skipped.packet_type = PacketType::Control;
    assert_eq!(track.put(skipped, b"x"), Ok(()));
    assert_eq!(track.groups_created(), vec![]);

    let mut state = track.map.remove(1).unwrap();
    state.last_seen_mpu_seq = Some(4);
    track.map.insert(1, state);
    assert_eq!(
        track.put(mpu(1, 4, FragmentType::Mfu), b"x"),
        Err(DispatchError::NoCurrentGroup {
            packet_id: 1,
            last: 4
        })
    );

    let mut state = track.map.remove(1).unwrap();
    state.sink.state.drop_side();
    track.map.insert(1, state);
    assert_eq!(
        track.put(mpu(1, 5, FragmentType::Init), b"x"),
        Err(DispatchError::Sink(ServeError::Cancel))
    );
    assert_eq!(track.state().last_seen_mpu_seq, Some(4));
}

#[test]
fn a_live_track_takes_every_packet_of_every_unit() {
    let mut track = Published::new(1, 5, false);
    for mpu_seq in 1..4 {
        track
            .put(mpu(1, mpu_seq, FragmentType::Init), b"first")
            .unwrap();
        track
            .put(mpu(1, mpu_seq, FragmentType::Mfu), b"second")
            .unwrap();
        let state = track.state();
        let group = state.current_group.as_ref().unwrap();
        assert_eq!(
            writes(group),
            vec![Bytes::from_static(b"first"), Bytes::from_static(b"second")]
        );
        assert_eq!(
            state.sink.latest(Some(group)),
            Some((mpu_seq as u64, 1)),
            "the track's mark is its last object"
        );
    }
    assert_eq!(
        track.groups_created(),
        vec![(1, 0, 5), (2, 0, 5), (3, 0, 5)]
    );
}

/// A packet with its headers and two bytes of payload.
fn synth_mmtp_packet(
    packet_id: u16,
    packet_type: PacketType,
    rap_flag: bool,
    fec_type: u8,
    mpu_sequence: Option<u32>,
) -> Vec<u8> {
    let mut hdr = MmtpHeader::new(packet_id, packet_type);
    hdr.rap_flag = rap_flag;
    hdr.fec_type = fec_type;
    let mut buf = Vec::new();
    hdr.write_to(&mut buf);
    if let Some(seq) = mpu_sequence {
        let mut mpu = MpuHeader::new(FragmentType::Init, seq);
        mpu.payload_length = 0;
        mpu.write_to(&mut buf);
    }
    buf.extend_from_slice(&[0xAA, 0xBB]);
    buf
}

#[test]
fn rejects_short_packet() {
    let err = route(&[0u8; 8]).unwrap_err();
    assert!(err.describe().contains("short MMTP"));
    assert_eq!(
        RouteError::ShortPacket(5).describe(),
        "short MMTP packet: 5 bytes (need ≥12)"
    );
    assert_eq!(
        RouteError::Header(MmtError::BufferTooSmall { need: 12, have: 5 }).describe(),
        "MMTP header decode failed: BufferTooSmall { need: 12, have: 5 }"
    );
    assert_eq!(
        RouteError::Header(MmtError::InvalidPacketType(63)).describe(),
        "MMTP header decode failed: InvalidPacketType(63)"
    );
}

#[test]
fn parses_mpu_packet_with_sequence() {
    let pkt = synth_mmtp_packet(17, PacketType::Mpu, true, 0, Some(42));
    let r = route(&pkt).unwrap();
    assert_eq!(r.packet_id, 17);
    assert_eq!(r.packet_type, PacketType::Mpu);
    assert!(r.rap_flag);
    assert_eq!(r.fec_type, 0);
    assert_eq!(r.mpu_sequence, Some(42));
    assert_eq!(r.fragment_type, Some(FragmentType::Init));
}

#[test]
fn parses_repair_packet_without_mpu() {
    let pkt = synth_mmtp_packet(18, PacketType::Repair, false, 2, None);
    let r = route(&pkt).unwrap();
    assert_eq!(r.packet_id, 18);
    assert_eq!(r.packet_type, PacketType::Repair);
    assert_eq!(r.fec_type, 2);
    assert_eq!(r.mpu_sequence, None);
    assert_eq!(r.fragment_type, None);
}

#[test]
fn fails_when_mpu_packet_lacks_mpu_header() {
    let mut pkt = synth_mmtp_packet(1, PacketType::Mpu, false, 0, Some(0));
    pkt.truncate(MMTP_HEADER_SIZE);
    let err = route(&pkt).unwrap_err();
    assert!(
        err.describe().contains("MPU header decode failed")
            || err.describe().contains("MMTP packet_type=Mpu")
    );
}

fn synth_mfu_fragment_packet(
    packet_id: u16,
    mpu_sequence: u32,
    fi: u8,
    fragment_counter: u8,
    payload: &[u8],
) -> Vec<u8> {
    let hdr = MmtpHeader::new(packet_id, PacketType::Mpu);
    let mut mpu = MpuHeader::new(FragmentType::Mfu, mpu_sequence);
    mpu.fragmentation_indicator = fi;
    mpu.fragment_counter = fragment_counter;
    mpu.payload_length = payload.len() as u16;
    let mut buf = Vec::new();
    hdr.write_to(&mut buf);
    mpu.write_to(&mut buf);
    buf.extend_from_slice(payload);
    buf
}

#[test]
fn accepts_fragmented_mfu_packets_at_fi_1_2_3() {
    for (fi, counter) in [(1u8, 0u8), (2, 1), (3, 2)] {
        let pkt = synth_mfu_fragment_packet(7, 42, fi, counter, b"frag");
        let r = route(&pkt)
            .unwrap_or_else(|e| panic!("route() rejected FI={fi}, counter={counter}: {e:?}"));
        assert_eq!(r.packet_id, 7);
        assert_eq!(r.packet_type, PacketType::Mpu);
        assert_eq!(r.mpu_sequence, Some(42));
        assert_eq!(
            r.fragment_type,
            Some(FragmentType::Mfu),
            "FI={fi}: routing key must carry FragmentType::Mfu",
        );
    }
}

#[test]
fn source_symbol_is_read_behind_the_payload() {
    let mut pkt = synth_mmtp_packet(3, PacketType::Mpu, false, 1, Some(9));
    pkt.extend_from_slice(&SourceFecPayloadId::new(0x0102_0344).to_bytes());
    let r = route(&pkt).unwrap();
    let id = r.source_fec_payload_id.unwrap();
    assert_eq!(id.ss_id, 0x0102_0344);
    assert_eq!((id.sbn(32), id.esi(32)), (0x0008_101a, 4));
    assert_eq!((id.sbn(0), id.esi(0)), (0, 0));
}

#[test]
fn headers_round_trip_and_reject_unknown_types() {
    let mut hdr = MmtpHeader::new(0xbeef, PacketType::Repair);
    hdr.rap_flag = true;
    hdr.fec_type = 3;
    hdr.timestamp = 0x0102_0304;
    hdr.packet_sequence = 0x0a0b_0c0d;
    let mut wire = Vec::new();
    hdr.write_to(&mut wire);
    assert_eq!(
        wire,
        vec![0x19, 0x03, 0xbe, 0xef, 1, 2, 3, 4, 0x0a, 0x0b, 0x0c, 0x0d]
    );
    let back = MmtpHeader::read_from(&wire).unwrap();
    assert_eq!(back.packet_id, 0xbeef);
    assert_eq!(back.fec_type, 3);
    assert!(back.rap_flag);
    assert_eq!((back.timestamp, back.packet_sequence), (0x0102_0304, 0x0a0b_0c0d));

    wire[1] = 0x3f;
    assert!(matches!(
        MmtpHeader::read_from(&wire),
        Err(MmtError::InvalidPacketType(0x3f))
    ));
    assert_eq!(
        route(&wire),
        Err(RouteError::Header(MmtError::InvalidPacketType(0x3f)))
    );

    let mut mpu = MpuHeader::new(FragmentType::Mfu, 77);
    mpu.payload_length = 0x0123;
    mpu.fragmentation_indicator = 2;
    mpu.fragment_counter = 5;
    let mut wire = Vec::new();
    mpu.write_to(&mut wire);
    assert_eq!(wire, vec![0x01, 0x23, 0x2c, 5, 0, 0, 0, 77]);
    assert_eq!(MpuHeader::read_from(&wire).unwrap(), mpu);
    wire[2] = 0xf0;
    assert_eq!(
        MpuHeader::read_from(&wire),
        Err(MmtError::InvalidFragmentType(15))
    );
    assert_eq!(
        MpuHeader::read_from(&wire[..3]),
        Err(MmtError::BufferTooSmall { need: 8, have: 3 })
    );
    assert_eq!(FecType::from_u8(4), Err(MmtError::InvalidFecType(4)));
}

#[test]
fn sustained_input_retains_only_latest_datagram() {
    let (state, writer, mut reader) = Datagrams {}.produce();
    let sink = TrackDatagrams {
        state,
        writer,
        count: 0,
    };
    let mut state = DatagramState::new("shreds".into(), 5, sink);

    // 1M production-sized shreds is >3.5 hours of input at 78 groups/sec.
    for value in 0..1_000_000u64 {
        state
            .handle(Bytes::from(vec![(value % 251) as u8; 1_228]))
            .unwrap();
    }

    assert_eq!(state.sink.count, 1_000_000);
    assert_eq!(state.next_group_id, 1_000_000);
    let latest = match reader.read(&state.sink.state) {
        ReadOutcome::Item(datagram) => datagram,
        _ => panic!("the latest datagram is retained"),
    };
    assert_eq!(latest.group_id, 999_999);
    assert_eq!(latest.priority, 5);
    assert_eq!(latest.payload.len(), 1_228);
}

#[test]
fn datagram_groups_run_out_and_tracks_end() {
    let (state, writer, _reader) = Datagrams {}.produce();
    let sink = TrackDatagrams {
        state,
        writer,
        count: 0,
    };
    let mut state = DatagramState::new("shreds".into(), 5, sink);
    state.next_group_id = u64::MAX;
    assert_eq!(
        state.handle(Bytes::from_static(b"last")),
        Err(DatagramError::GroupIdOverflow)
    );
    assert_eq!(state.sink.count, 1);
    state.sink.state.drop_side();
    assert_eq!(
        state.handle(Bytes::from_static(b"late")),
        Err(DatagramError::Sink(ServeError::Cancel))
    );
}
