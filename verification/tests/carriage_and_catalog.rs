use bytes::Bytes;
use moq_mmtp::carriage::{
    be_u32_at, AlFecMetadata, CarriageError, CarriageObject, CarriageWriter,
    WIRE_CONTRACT_VERSION,
};
use moq_mmtp::catalog::{
    AmtDiscovery, CatalogValidationError, FecAlgorithm, FecDescriptor, MmtpMode, MulticastConfig,
    MulticastEndpoint, MulticastProtocol, MulticastTrackRef, NetworkSource, Root, Track,
    TrackPackaging,
};
use moq_mmtp::kvp::{ExtensionHeaders, Value};
use moq_mmtp::serve::object::{SubgroupReader, SubgroupState};
use moq_mmtp::serve::subgroup::Subgroups;
use moq_mmtp::serve::{ReadOutcome, ServeError};

const TEST_FEC_EXTENSION_ID: u64 = 0x3d;

fn object(group_id: u64, subgroup_id: u64, payload: &'static [u8]) -> CarriageObject {
    CarriageObject {
        group_id,
        subgroup_id,
        priority: 128,
        payload: Bytes::from_static(payload),
        extension_headers: ExtensionHeaders::new(),
    }
}

#[test]
fn fec_metadata_round_trips_for_source_and_repair() {
    for repair in [false, true] {
        let metadata = AlFecMetadata {
            scheme: 6,
            source_block_number: 0x1020_3040,
            encoding_symbol_id: if repair { 48 } else { 7 },
            repair,
        };
        let mut carried = object(9, u64::from(repair), b"opaque MMTP packet");
        carried
            .set_fec_metadata(TEST_FEC_EXTENSION_ID, metadata)
            .unwrap();
        assert_eq!(
            carried.fec_metadata(TEST_FEC_EXTENSION_ID).unwrap(),
            Some(metadata)
        );
    }
}

#[test]
fn fec_metadata_has_one_form() {
    let metadata = AlFecMetadata {
        scheme: 6,
        source_block_number: 0x1020_3040,
        encoding_symbol_id: 7,
        repair: true,
    };
    let encoded = metadata.encode();
    assert_eq!(
        encoded,
        vec![1, 6, 1, 0, 0x10, 0x20, 0x30, 0x40, 0, 0, 0, 7]
    );
    assert_eq!(be_u32_at(&encoded, 4), 0x1020_3040);
    assert_eq!(
        AlFecMetadata::decode(&encoded[..11]),
        Err(CarriageError::InvalidFecMetadataLength(11))
    );
    let mut other = encoded.clone();
    other[0] = 2;
    assert_eq!(
        AlFecMetadata::decode(&other),
        Err(CarriageError::UnsupportedFecMetadataVersion(2))
    );
    for (at, value) in [(2, 2), (3, 1)] {
        let mut other = encoded.clone();
        other[at] = value;
        assert_eq!(
            AlFecMetadata::decode(&other),
            Err(CarriageError::InvalidFecMetadataFlags)
        );
    }
    let mut carried = object(1, 0, b"p");
    assert_eq!(carried.fec_metadata(TEST_FEC_EXTENSION_ID), Ok(None));
    assert_eq!(
        carried.set_fec_metadata(0x3c, metadata),
        Err(CarriageError::FecExtensionMustBeBytes(0x3c))
    );
    assert_eq!(WIRE_CONTRACT_VERSION, "moqt-16-v1");
}

#[test]
fn publisher_and_relay_model_preserve_payload_fec_and_unknown_extensions() {
    let (mut track, writer, mut reader) = Subgroups {}.produce();
    let mut groups: Vec<SubgroupState> = Vec::new();
    let mut publisher = CarriageWriter::new(writer);

    let metadata = AlFecMetadata {
        scheme: 6,
        source_block_number: 12,
        encoding_symbol_id: 3,
        repair: false,
    };
    let mut source = object(4, 0, b"DSR/libmmt MMTP source vector");
    source
        .extension_headers
        .set_bytesvalue(0x3f, vec![0xca, 0xfe]);
    source
        .set_fec_metadata(TEST_FEC_EXTENSION_ID, metadata)
        .unwrap();
    publisher
        .publish(&mut track, &mut groups, &source)
        .unwrap();

    match reader.next(&mut track) {
        ReadOutcome::Item(s) => assert_eq!((s.group_id, s.subgroup_id, s.priority), (4, 0, 128)),
        _ => panic!("the subgroup is there"),
    }
    let relayed = groups[0].object(0).expect("the object is there");
    match SubgroupReader::start().read_next(&groups[0]) {
        ReadOutcome::Item(payload) => assert_eq!(payload, source.payload),
        _ => panic!("the object is whole"),
    }
    assert_eq!(
        relayed.extension_headers.get(0x3f).unwrap().value,
        Value::BytesValue(vec![0xca, 0xfe])
    );
    let fec = match &relayed
        .extension_headers
        .get(TEST_FEC_EXTENSION_ID)
        .unwrap()
        .value
    {
        Value::BytesValue(value) => AlFecMetadata::decode(value).unwrap(),
        Value::IntValue(_) => panic!("FEC extension changed type"),
    };
    assert_eq!(fec, metadata);
}

#[test]
fn rejects_subgroup_regression_before_transport_silently_drops_it() {
    let (mut track, writer, _reader) = Subgroups {}.produce();
    let mut groups = Vec::new();
    let mut publisher = CarriageWriter::new(writer);

    publisher
        .publish(&mut track, &mut groups, &object(5, 1, b"new"))
        .unwrap();
    let error = publisher
        .publish(&mut track, &mut groups, &object(5, 0, b"stale"))
        .unwrap_err();
    assert!(error.describe().contains("regressed"));
    assert_eq!(
        error.describe(),
        "subgroup identity regressed from (5, 1) to (5, 0)"
    );
    assert_eq!(
        CarriageError::FecExtensionMustBeBytes(0xfa0e).describe(),
        "AL-FEC extension 0xfa0e must be bytes-valued (odd type)"
    );
    assert_eq!(
        CarriageError::InvalidFecMetadataLength(11).describe(),
        "AL-FEC metadata has 11 bytes; expected 12"
    );
    assert_eq!(
        CarriageError::UnsupportedFecMetadataVersion(200).describe(),
        "unsupported AL-FEC metadata version 200"
    );
    assert_eq!(
        error,
        CarriageError::NonMonotonicSubgroup {
            current: (5, 1),
            next: (5, 0)
        }
    );
    publisher
        .publish(&mut track, &mut groups, &object(5, 1, b"more"))
        .unwrap();
    assert_eq!((groups.len(), groups[0].len()), (1, 2));
    assert_eq!(track.largest_location(), Some((5, 1)));
    let mut reader = SubgroupReader::start();
    for expected in [&b"new"[..], &b"more"[..]] {
        match reader.read_next(&groups[0]) {
            ReadOutcome::Item(payload) => assert_eq!(&payload[..], expected),
            _ => panic!("the object is whole"),
        }
    }
    assert!(matches!(reader.read_next(&groups[0]), ReadOutcome::Pending));
    publisher
        .publish(&mut track, &mut groups, &object(5, 2, b"next"))
        .unwrap();
    assert!(
        matches!(reader.read_next(&groups[0]), ReadOutcome::End),
        "a subgroup ends with the one after it"
    );
    track.drop_side();
    assert_eq!(
        publisher.publish(&mut track, &mut groups, &object(6, 0, b"late")),
        Err(CarriageError::Transport(ServeError::Cancel))
    );
}

fn root(tracks: Vec<Track>, multicast: Option<MulticastConfig>) -> Root {
    Root {
        version: 1,
        streaming_format: "mmtp".into(),
        streaming_format_version: "x".into(),
        supports_delta_updates: None,
        tracks,
        multicast,
    }
}

fn mfu_track(name: &str) -> Track {
    Track {
        name: name.into(),
        packaging: Some(TrackPackaging::Mmtp),
        mmtp_mode: Some(MmtpMode::Mfu),
        timescale: Some(90_000),
        group_duration_ms: Some(1_000),
        ..Default::default()
    }
}

fn fec(repair_track: &str) -> FecDescriptor {
    FecDescriptor {
        algorithm: FecAlgorithm::RaptorQ,
        source_symbols: 8,
        repair_symbols: 4,
        symbol_size: 1312,
        interleave_depth_ms: None,
        repair_track: repair_track.into(),
        mode: None,
    }
}

fn repair_track(name: &str) -> Track {
    Track {
        name: name.into(),
        packaging: Some(TrackPackaging::FecRepair),
        priority: Some(240),
        ..Default::default()
    }
}

fn endpoint() -> MulticastEndpoint {
    MulticastEndpoint {
        protocol: None,
        source_address: Some("192.0.2.1".into()),
        group_address: "232.1.1.1".into(),
        port: 5000,
        tracks: vec![MulticastTrackRef {
            name: "v".into(),
            packet_id: 1,
        }],
        bandwidth: None,
    }
}

fn multicast(
    endpoint: MulticastEndpoint,
    network_source: Option<Vec<NetworkSource>>,
) -> Option<MulticastConfig> {
    Some(MulticastConfig {
        endpoints: Some(vec![endpoint]),
        network_source,
    })
}

#[test]
fn accepts_flat_msf_track() {
    let mut root = root(
        vec![Track {
            name: "video".into(),
            packaging: Some(TrackPackaging::Mmtp),
            codec: Some("avc1.640028".into()),
            framerate_bits: Some(29.97f64.to_bits()),
            mmtp_mode: Some(MmtpMode::Mfu),
            timescale: Some(90_000),
            group_duration_ticks: Some(3_000),
            ..Default::default()
        }],
        None,
    );
    root.streaming_format_version = "draft-ramadan-moq-mmt-00".into();
    root.validate().unwrap();
    assert_eq!(root.tracks[0].codec.as_deref(), Some("avc1.640028"));
    assert_eq!(
        root.tracks[0].framerate_bits.map(f64::from_bits),
        Some(29.97)
    );
}

#[test]
fn validates_repair_priority_and_reference() {
    let mut source = mfu_track("v");
    source.fec = Some(fec("v-repair"));
    root(vec![source, repair_track("v-repair")], None)
        .validate()
        .unwrap();
}

#[test]
fn accepts_equal_wall_clock_switching_set_durations() {
    let timed = |name: &str, timescale: u32, ticks: u64| Track {
        name: name.into(),
        packaging: Some(TrackPackaging::Mmtp),
        mmtp_mode: Some(MmtpMode::Mfu),
        timescale: Some(timescale),
        group_duration_ticks: Some(ticks),
        alt_group: Some(2),
        ..Default::default()
    };
    root(
        vec![timed("v", 90_000, 360_000), timed("a", 48_000, 192_000)],
        None,
    )
    .validate()
    .unwrap();
    assert_eq!(
        root(
            vec![timed("v", 90_000, 360_000), timed("a", 48_000, 192_001)],
            None,
        )
        .validate()
        .unwrap_err()
        .describe(),
        "switching set 2 has mismatched durations on `a` and `v`"
    );
}

#[test]
fn omitted_protocol_defaults_to_ssm_when_source_is_present() {
    root(
        vec![mfu_track("v")],
        multicast(
            endpoint(),
            Some(vec![NetworkSource::Amt {
                discovery: AmtDiscovery::Driad,
                relay: None,
                port: None,
            }]),
        ),
    )
    .validate()
    .unwrap();
}

#[test]
fn multicast_network_source_is_optional() {
    root(vec![mfu_track("v")], multicast(endpoint(), None))
        .validate()
        .unwrap();
}

#[test]
fn network_sources_are_checked() {
    let atsc3 = |sls_uri: &str| {
        root(
            vec![mfu_track("v")],
            multicast(
                endpoint(),
                Some(vec![NetworkSource::Atsc3 {
                    frequency: 587_000_000,
                    plp_id: 0,
                    service_id: 101,
                    sls_uri: sls_uri.into(),
                }]),
            ),
        )
        .validate()
    };
    atsc3("https://example.test/service/101/sls.xml").unwrap();
    // A URL parser decides what is a URI here.
    assert!(matches!(
        atsc3("not a uri"),
        Err(CatalogValidationError::InvalidMulticast(_))
    ));
    assert!(matches!(
        atsc3("/service/101/sls.xml"),
        Err(CatalogValidationError::InvalidMulticast(_))
    ));
    let amt = |relay: Option<&str>, port: Option<u16>| {
        root(
            vec![mfu_track("v")],
            multicast(
                endpoint(),
                Some(vec![NetworkSource::Amt {
                    discovery: AmtDiscovery::Manual,
                    relay: relay.map(|r| r.into()),
                    port,
                }]),
            ),
        )
        .validate()
    };
    amt(Some("relay.test"), Some(2268)).unwrap();
    assert!(amt(Some(""), None).is_err());
    assert!(amt(Some("relay.test"), Some(0)).is_err());
}

#[test]
fn invalid_catalogs_say_why() {
    let says = |root: Root, text: &str| {
        let message = root.validate().unwrap_err().describe();
        assert!(message.contains(text), "`{message}` does not say `{text}`");
    };
    let mut bad = root(vec![mfu_track("v")], None);
    bad.version = 2;
    says(bad, "invalid catalog root: ");

    let mut bad = mfu_track("v");
    bad.mmtp_mode = None;
    says(root(vec![bad], None), "MMTP track `v` is missing mmtpMode");

    let mut bad = mfu_track("v");
    bad.timescale = None;
    says(root(vec![bad], None), "MMTP track `v` is missing timescale");

    let mut bad = mfu_track("v");
    bad.group_duration_ms = None;
    says(
        root(vec![bad], None),
        "MMTP track `v` is missing group duration",
    );

    let mut bad = mfu_track("v");
    bad.timescale = Some(0);
    says(root(vec![bad], None), "track `v` has zero timescale");

    let mut bad = mfu_track("v");
    bad.group_duration_ms = Some(0);
    says(root(vec![bad], None), "track `v` has zero group duration");

    let mut bad = mfu_track("v");
    bad.group_duration_ms = Some(1);
    bad.timescale = Some(90_001);
    says(
        root(vec![bad], None),
        "track `v` groupDurationMs 1 is not exact at timescale 90001",
    );

    says(root(vec![mfu_track("")], None), "invalid track `");

    let mut source = mfu_track("v");
    source.fec = Some(fec("v-repair"));
    says(
        root(vec![source], None),
        "track `v` references unknown repair track `v-repair`",
    );

    let mut source = mfu_track("v");
    source.fec = Some(fec("v-repair"));
    let mut weak = repair_track("v-repair");
    weak.priority = Some(128);
    says(root(vec![source, weak], None), "repair track `v-repair` is invalid");

    let mut source = mfu_track("v");
    let mut unaligned = fec("v-repair");
    unaligned.symbol_size = 1311;
    source.fec = Some(unaligned);
    says(
        root(vec![source, repair_track("v-repair")], None),
        "track `v` has invalid FEC parameters",
    );

    let mut bad = endpoint();
    bad.source_address = None;
    says(
        root(vec![mfu_track("v")], multicast(bad, None)),
        "endpoint requires protocol or sourceAddress",
    );

    let mut bad = endpoint();
    bad.source_address = None;
    bad.protocol = Some(MulticastProtocol::Ssm);
    says(
        root(vec![mfu_track("v")], multicast(bad, None)),
        "SSM endpoint requires sourceAddress",
    );

    let mut bad = endpoint();
    bad.tracks[0].name = "w".into();
    says(
        root(vec![mfu_track("v")], multicast(bad, None)),
        "multicast references unknown track `w`",
    );

    let mut bad = endpoint();
    bad.tracks.push(MulticastTrackRef {
        name: "v".into(),
        packet_id: 1,
    });
    says(
        root(vec![mfu_track("v")], multicast(bad, None)),
        "packetId 1 is shared by `v` and `v` in one endpoint",
    );
}
