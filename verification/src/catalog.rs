//! The catalog of a broadcast: its tracks, how they are packaged and
//! protected, and where they are multicast.

use vstd::prelude::*;

use crate::text::{decimal, push_decimal, push_text, str_eq};

verus! {

#[derive(Debug)]
pub struct Root {
    pub version: u16,
    pub streaming_format: String,
    pub streaming_format_version: String,
    pub supports_delta_updates: Option<bool>,
    pub tracks: Vec<Track>,
    pub multicast: Option<MulticastConfig>,
}

#[derive(Clone, Debug)]
pub struct Track {
    pub namespace: Option<String>,
    pub name: String,
    pub init_track: Option<String>,
    pub init_data: Option<String>,
    pub packaging: Option<TrackPackaging>,
    pub is_live: Option<bool>,
    pub codec: Option<String>,
    pub mime_type: Option<String>,
    /// The frame rate, as the bits of a double.
    pub framerate_bits: Option<u64>,
    pub bitrate: Option<u64>,
    pub width: Option<u64>,
    pub height: Option<u64>,
    pub samplerate: Option<u64>,
    pub channel_config: Option<String>,
    pub mmtp_mode: Option<MmtpMode>,
    pub timescale: Option<u32>,
    pub group_duration_ms: Option<u32>,
    pub group_duration_ticks: Option<u64>,
    pub fec: Option<FecDescriptor>,
    pub priority: Option<u8>,
    pub render_group: Option<u32>,
    pub alt_group: Option<u32>,
    pub depends: Option<Vec<String>>,
}

impl Default for Track {
    fn default() -> (r: Self)
        ensures
            r.namespace is None,
            r.name@.len() == 0,
            r.init_track is None,
            r.init_data is None,
            r.packaging is None,
            r.is_live is None,
            r.codec is None,
            r.mime_type is None,
            r.framerate_bits is None,
            r.bitrate is None,
            r.width is None,
            r.height is None,
            r.samplerate is None,
            r.channel_config is None,
            r.mmtp_mode is None,
            r.timescale is None,
            r.group_duration_ms is None,
            r.group_duration_ticks is None,
            r.fec is None,
            r.priority is None,
            r.render_group is None,
            r.alt_group is None,
            r.depends is None,
    {
        Track {
            namespace: None,
            name: String::new(),
            init_track: None,
            init_data: None,
            packaging: None,
            is_live: None,
            codec: None,
            mime_type: None,
            framerate_bits: None,
            bitrate: None,
            width: None,
            height: None,
            samplerate: None,
            channel_config: None,
            mmtp_mode: None,
            timescale: None,
            group_duration_ms: None,
            group_duration_ticks: None,
            fec: None,
            priority: None,
            render_group: None,
            alt_group: None,
            depends: None,
        }
    }
}

#[derive(Copy, Clone, Debug, PartialEq, Eq, Structural)]
pub enum TrackPackaging {
    Cmaf,
    Loc,
    Mmtp,
    FecRepair,
    Datagram,
}

impl Default for TrackPackaging {
    fn default() -> (r: Self)
        ensures
            r == TrackPackaging::Cmaf,
    {
        TrackPackaging::Cmaf
    }
}

#[derive(Copy, Clone, Debug, PartialEq, Eq, Structural)]
pub enum MmtpMode {
    Mpu,
    Mfu,
}

#[derive(Copy, Clone, Debug, PartialEq, Eq, Structural)]
pub enum FecAlgorithm {
    RaptorQ,
    ReedSolomon,
}

#[derive(Copy, Clone, Debug, PartialEq, Eq, Structural)]
pub enum FecMode {
    Interleaved,
    Object,
}

/// How a track is protected, and on which track its repair symbols are.
#[derive(Clone, Debug)]
pub struct FecDescriptor {
    pub algorithm: FecAlgorithm,
    pub source_symbols: u32,
    pub repair_symbols: u32,
    pub symbol_size: u32,
    pub interleave_depth_ms: Option<u32>,
    pub repair_track: String,
    pub mode: Option<FecMode>,
}

#[derive(Copy, Clone, Debug, PartialEq, Eq, Structural)]
pub enum MulticastProtocol {
    Ssm,
    Asm,
    Amt,
    Atsc3,
}

#[derive(Copy, Clone, Debug, PartialEq, Eq, Structural)]
pub enum AmtDiscovery {
    Driad,
    Manual,
}

/// Where multicast packets can be had from.
#[derive(Clone, Debug, PartialEq)]
pub enum NetworkSource {
    Amt { discovery: AmtDiscovery, relay: Option<String>, port: Option<u16> },
    Atsc3 { frequency: u64, plp_id: u8, service_id: u16, sls_uri: String },
}

#[derive(Clone, Debug, PartialEq)]
pub struct MulticastTrackRef {
    pub name: String,
    pub packet_id: u16,
}

#[derive(Clone, Debug, PartialEq)]
pub struct MulticastEndpoint {
    pub protocol: Option<MulticastProtocol>,
    pub source_address: Option<String>,
    pub group_address: String,
    pub port: u16,
    pub tracks: Vec<MulticastTrackRef>,
    pub bandwidth: Option<u64>,
}

#[derive(Clone, Debug, PartialEq)]
pub struct MulticastConfig {
    pub endpoints: Option<Vec<MulticastEndpoint>>,
    pub network_source: Option<Vec<NetworkSource>>,
}

impl Default for MulticastConfig {
    fn default() -> (r: Self)
        ensures
            r.endpoints is None,
            r.network_source is None,
    {
        MulticastConfig { endpoints: None, network_source: None }
    }
}

/// Why a catalog is not valid.
#[derive(Clone, Debug, PartialEq, Eq)]
pub enum CatalogValidationError {
    InvalidRoot(&'static str),
    InvalidTrack { track_name: String, reason: &'static str },
    MissingMmtpMode { track_name: String },
    MissingTimescale { track_name: String },
    MissingGroupDuration { track_name: String },
    GroupDurationNotExact { track_name: String, group_duration_ms: u32, timescale: u32 },
    ZeroTimescale { track_name: String },
    ZeroGroupDuration { track_name: String },
    InvalidFecParams { track_name: String, reason: &'static str },
    UnknownRepairTrack { track_name: String, repair_track: String },
    InvalidRepairTrack { track_name: String, reason: &'static str },
    SwitchingSetGroupDurationMismatch {
        alt_group: u32,
        track_name: String,
        other_track: String,
    },
    InvalidMulticast(&'static str),
    UnknownTrackReference { track_name: String },
    DuplicatePacketId { packet_id: u16, first_track: String, duplicate_track: String },
}

impl CatalogValidationError {
    /// The error in words.
    pub open spec fn message(&self) -> Seq<char> {
        match self {
            CatalogValidationError::InvalidRoot(reason) => "invalid catalog root: "@ + reason@,
            CatalogValidationError::InvalidTrack { track_name, reason } => "invalid track `"@
                + track_name@ + "`: "@ + reason@,
            CatalogValidationError::MissingMmtpMode { track_name } => "MMTP track `"@
                + track_name@ + "` is missing mmtpMode"@,
            CatalogValidationError::MissingTimescale { track_name } => "MMTP track `"@
                + track_name@ + "` is missing timescale"@,
            CatalogValidationError::MissingGroupDuration { track_name } => "MMTP track `"@
                + track_name@ + "` is missing group duration"@,
            CatalogValidationError::GroupDurationNotExact {
                track_name,
                group_duration_ms,
                timescale,
            } => "track `"@ + track_name@ + "` groupDurationMs "@ + decimal(
                *group_duration_ms as nat,
            ) + " is not exact at timescale "@ + decimal(*timescale as nat),
            CatalogValidationError::ZeroTimescale { track_name } => "track `"@ + track_name@
                + "` has zero timescale"@,
            CatalogValidationError::ZeroGroupDuration { track_name } => "track `"@ + track_name@
                + "` has zero group duration"@,
            CatalogValidationError::InvalidFecParams { track_name, reason } => "track `"@
                + track_name@ + "` has invalid FEC parameters: "@ + reason@,
            CatalogValidationError::UnknownRepairTrack { track_name, repair_track } => "track `"@
                + track_name@ + "` references unknown repair track `"@ + repair_track@ + "`"@,
            CatalogValidationError::InvalidRepairTrack { track_name, reason } => "repair track `"@
                + track_name@ + "` is invalid: "@ + reason@,
            CatalogValidationError::SwitchingSetGroupDurationMismatch {
                alt_group,
                track_name,
                other_track,
            } => "switching set "@ + decimal(*alt_group as nat)
                + " has mismatched durations on `"@ + track_name@ + "` and `"@ + other_track@
                + "`"@,
            CatalogValidationError::InvalidMulticast(reason) =>
            "invalid multicast configuration: "@ + reason@,
            CatalogValidationError::UnknownTrackReference { track_name } =>
            "multicast references unknown track `"@ + track_name@ + "`"@,
            CatalogValidationError::DuplicatePacketId {
                packet_id,
                first_track,
                duplicate_track,
            } => "packetId "@ + decimal(*packet_id as nat) + " is shared by `"@ + first_track@
                + "` and `"@ + duplicate_track@ + "` in one endpoint"@,
        }
    }

    pub fn describe(&self) -> (r: String)
        ensures
            r@ == self.message(),
    {
        let mut out: String = String::new();
        match self {
            CatalogValidationError::InvalidRoot(reason) => {
                push_text(&mut out, "invalid catalog root: ");
                push_text(&mut out, reason);
            },
            CatalogValidationError::InvalidTrack { track_name, reason } => {
                push_text(&mut out, "invalid track `");
                push_text(&mut out, track_name.as_str());
                push_text(&mut out, "`: ");
                push_text(&mut out, reason);
            },
            CatalogValidationError::MissingMmtpMode { track_name } => {
                push_text(&mut out, "MMTP track `");
                push_text(&mut out, track_name.as_str());
                push_text(&mut out, "` is missing mmtpMode");
            },
            CatalogValidationError::MissingTimescale { track_name } => {
                push_text(&mut out, "MMTP track `");
                push_text(&mut out, track_name.as_str());
                push_text(&mut out, "` is missing timescale");
            },
            CatalogValidationError::MissingGroupDuration { track_name } => {
                push_text(&mut out, "MMTP track `");
                push_text(&mut out, track_name.as_str());
                push_text(&mut out, "` is missing group duration");
            },
            CatalogValidationError::GroupDurationNotExact {
                track_name,
                group_duration_ms,
                timescale,
            } => {
                push_text(&mut out, "track `");
                push_text(&mut out, track_name.as_str());
                push_text(&mut out, "` groupDurationMs ");
                push_decimal(&mut out, *group_duration_ms as u64);
                push_text(&mut out, " is not exact at timescale ");
                push_decimal(&mut out, *timescale as u64);
            },
            CatalogValidationError::ZeroTimescale { track_name } => {
                push_text(&mut out, "track `");
                push_text(&mut out, track_name.as_str());
                push_text(&mut out, "` has zero timescale");
            },
            CatalogValidationError::ZeroGroupDuration { track_name } => {
                push_text(&mut out, "track `");
                push_text(&mut out, track_name.as_str());
                push_text(&mut out, "` has zero group duration");
            },
            CatalogValidationError::InvalidFecParams { track_name, reason } => {
                push_text(&mut out, "track `");
                push_text(&mut out, track_name.as_str());
                push_text(&mut out, "` has invalid FEC parameters: ");
                push_text(&mut out, reason);
            },
            CatalogValidationError::UnknownRepairTrack { track_name, repair_track } => {
                push_text(&mut out, "track `");
                push_text(&mut out, track_name.as_str());
                push_text(&mut out, "` references unknown repair track `");
                push_text(&mut out, repair_track.as_str());
                push_text(&mut out, "`");
            },
            CatalogValidationError::InvalidRepairTrack { track_name, reason } => {
                push_text(&mut out, "repair track `");
                push_text(&mut out, track_name.as_str());
                push_text(&mut out, "` is invalid: ");
                push_text(&mut out, reason);
            },
            CatalogValidationError::SwitchingSetGroupDurationMismatch {
                alt_group,
                track_name,
                other_track,
            } => {
                push_text(&mut out, "switching set ");
                push_decimal(&mut out, *alt_group as u64);
                push_text(&mut out, " has mismatched durations on `");
                push_text(&mut out, track_name.as_str());
                push_text(&mut out, "` and `");
                push_text(&mut out, other_track.as_str());
                push_text(&mut out, "`");
            },
            CatalogValidationError::InvalidMulticast(reason) => {
                push_text(&mut out, "invalid multicast configuration: ");
                push_text(&mut out, reason);
            },
            CatalogValidationError::UnknownTrackReference { track_name } => {
                push_text(&mut out, "multicast references unknown track `");
                push_text(&mut out, track_name.as_str());
                push_text(&mut out, "`");
            },
            CatalogValidationError::DuplicatePacketId {
                packet_id,
                first_track,
                duplicate_track,
            } => {
                push_text(&mut out, "packetId ");
                push_decimal(&mut out, *packet_id as u64);
                push_text(&mut out, " is shared by `");
                push_text(&mut out, first_track.as_str());
                push_text(&mut out, "` and `");
                push_text(&mut out, duplicate_track.as_str());
                push_text(&mut out, "` in one endpoint");
            },
        }
        assert(out@ =~= self.message());
        out
    }
}

/// Whether a text is a URL.
pub uninterp spec fn is_url(text: Seq<char>) -> bool;

/// `url::Url::parse`: whether it accepts the text.
#[verifier::external_body]
fn parse_url(text: &str) -> (r: bool)
    ensures
        r == is_url(text@),
{
    url::Url::parse(text).is_ok()
}

/// The first error among `n` checks.
pub open spec fn first_failure(
    n: nat,
    check: spec_fn(int) -> Option<CatalogValidationError>,
) -> Option<CatalogValidationError>
    decreases n,
{
    if n == 0 {
        None
    } else {
        match first_failure((n - 1) as nat, check) {
            Some(e) => Some(e),
            None => check(n - 1),
        }
    }
}

proof fn lemma_first_failure(
    k: nat,
    n: nat,
    check: spec_fn(int) -> Option<CatalogValidationError>,
)
    requires
        k <= n,
        first_failure(k, check) is Some,
    ensures
        first_failure(n, check) == first_failure(k, check),
    decreases n,
{
    if k < n {
        lemma_first_failure(k, (n - 1) as nat, check);
    }
}

/// Where there is no first error, no check fails.
pub proof fn lemma_no_failure(
    n: nat,
    check: spec_fn(int) -> Option<CatalogValidationError>,
    i: int,
)
    requires
        first_failure(n, check) is None,
        0 <= i < n,
    ensures
        check(i) is None,
    decreases n,
{
    if i < n - 1 {
        lemma_no_failure((n - 1) as nat, check, i);
    }
}

/// Why an MMTP track is not valid.
pub open spec fn mmtp_track_error(track: Track) -> Option<CatalogValidationError> {
    if track.mmtp_mode is None {
        Some(CatalogValidationError::MissingMmtpMode { track_name: track.name })
    } else if track.timescale is None {
        Some(CatalogValidationError::MissingTimescale { track_name: track.name })
    } else if track.timescale == Some(0u32) {
        Some(CatalogValidationError::ZeroTimescale { track_name: track.name })
    } else if track.group_duration_ms is None && track.group_duration_ticks is None {
        Some(CatalogValidationError::MissingGroupDuration { track_name: track.name })
    } else if track.group_duration_ms == Some(0u32) || track.group_duration_ticks == Some(0u64) {
        Some(CatalogValidationError::ZeroGroupDuration { track_name: track.name })
    } else if track.group_duration_ticks is None && (track.group_duration_ms->0
        * track.timescale->0) % 1000 != 0 {
        Some(
            CatalogValidationError::GroupDurationNotExact {
                track_name: track.name,
                group_duration_ms: track.group_duration_ms->0,
                timescale: track.timescale->0,
            },
        )
    } else {
        match track.fec {
            None => None,
            Some(fec) => match fec_error(fec) {
                None => None,
                Some(reason) => Some(
                    CatalogValidationError::InvalidFecParams { track_name: track.name, reason },
                ),
            },
        }
    }
}

/// Why the parameters of a protection are not valid.
pub open spec fn fec_error(fec: FecDescriptor) -> Option<&'static str> {
    if fec.source_symbols == 0 || fec.repair_symbols == 0 || fec.symbol_size == 0 {
        Some("symbol counts and symbolSize must be positive")
    } else if fec.algorithm == FecAlgorithm::RaptorQ && fec.symbol_size % 8 != 0 {
        Some("RaptorQ symbolSize must be divisible by 8")
    } else if fec.interleave_depth_ms == Some(0u32) {
        Some("interleaveDepthMs must be positive when present")
    } else {
        None
    }
}

/// The priority of every repair track.
pub const REPAIR_PRIORITY: u8 = 240;

/// Why a repair track is not valid.
pub open spec fn repair_track_error(track: Track) -> Option<CatalogValidationError> {
    if track.priority != Some(REPAIR_PRIORITY) {
        Some(
            CatalogValidationError::InvalidRepairTrack {
                track_name: track.name,
                reason: "priority must be 240",
            },
        )
    } else if track.mmtp_mode is Some || track.timescale is Some || track.group_duration_ms is Some
        || track.group_duration_ticks is Some || track.fec is Some {
        Some(
            CatalogValidationError::InvalidRepairTrack {
                track_name: track.name,
                reason: "MMTP timing and fec fields are forbidden",
            },
        )
    } else {
        None
    }
}

/// Why a track is not valid by itself.
pub open spec fn track_error(track: Track) -> Option<CatalogValidationError> {
    if track.name@.len() == 0 {
        Some(
            CatalogValidationError::InvalidTrack {
                track_name: track.name,
                reason: "name must not be empty",
            },
        )
    } else {
        match track.packaging {
            None => Some(
                CatalogValidationError::InvalidTrack {
                    track_name: track.name,
                    reason: "packaging is required",
                },
            ),
            Some(TrackPackaging::Mmtp) => mmtp_track_error(track),
            Some(TrackPackaging::FecRepair) => repair_track_error(track),
            Some(_) => None,
        }
    }
}

/// Whether a catalog has a track of this name.
pub open spec fn has_track(tracks: Seq<Track>, name: Seq<char>) -> bool {
    exists|i: int| 0 <= i < tracks.len() && (#[trigger] tracks[i]).name@ == name
}

/// Whether a catalog has a repair track of this name.
pub open spec fn has_repair_track(tracks: Seq<Track>, name: Seq<char>) -> bool {
    exists|i: int|
        0 <= i < tracks.len() && (#[trigger] tracks[i]).name@ == name && tracks[i].packaging == Some(
            TrackPackaging::FecRepair,
        )
}

/// Why the protection of a track is not valid.
pub open spec fn fec_reference_error(tracks: Seq<Track>, i: int) -> Option<
    CatalogValidationError,
> {
    match tracks[i].fec {
        None => None,
        Some(fec) => if has_repair_track(tracks, fec.repair_track@) {
            None
        } else {
            Some(
                CatalogValidationError::UnknownRepairTrack {
                    track_name: tracks[i].name,
                    repair_track: fec.repair_track,
                },
            )
        },
    }
}

/// Whether a track belongs to a switching set.
pub open spec fn in_switching_set(track: Track, alt_group: u32) -> bool {
    track.packaging == Some(TrackPackaging::Mmtp) && track.alt_group == Some(alt_group)
}

/// The first of the first `n` tracks that belongs to a switching set.
pub open spec fn anchor(tracks: Seq<Track>, alt_group: u32, n: nat) -> Option<int>
    decreases n,
{
    if n == 0 {
        None
    } else {
        match anchor(tracks, alt_group, (n - 1) as nat) {
            Some(i) => Some(i),
            None => if in_switching_set(tracks[n - 1], alt_group) {
                Some(n - 1)
            } else {
                None
            },
        }
    }
}

/// The duration of a track's groups, in ticks of its timescale.
pub open spec fn group_ticks(track: Track) -> nat {
    match track.group_duration_ticks {
        Some(ticks) => ticks as nat,
        None => (track.group_duration_ms->0 * track.timescale->0 / 1000) as nat,
    }
}

/// Whether the groups of two tracks are equally long.
pub open spec fn same_duration(a: Track, b: Track) -> bool {
    group_ticks(a) * b.timescale->0 == group_ticks(b) * a.timescale->0
}

/// Why a track does not fit its switching set: its groups are not as long as
/// those of the first track in the set.
pub open spec fn switching_error(tracks: Seq<Track>, i: int) -> Option<CatalogValidationError> {
    if tracks[i].packaging != Some(TrackPackaging::Mmtp) || tracks[i].alt_group is None {
        None
    } else {
        let alt_group = tracks[i].alt_group->0;
        match anchor(tracks, alt_group, i as nat) {
            None => None,
            Some(a) => if same_duration(tracks[i], tracks[a]) {
                None
            } else {
                Some(
                    CatalogValidationError::SwitchingSetGroupDurationMismatch {
                        alt_group,
                        track_name: tracks[i].name,
                        other_track: tracks[a].name,
                    },
                )
            },
        }
    }
}

/// Why a network source is not valid, given whether its service list's URI is
/// a URL.
pub open spec fn source_error(source: NetworkSource, sls_uri_is_url: bool) -> Option<
    &'static str,
> {
    match source {
        NetworkSource::Amt { relay, port, .. } => if (relay matches Some(r) && r@.len() == 0)
            || port == Some(0u16) {
            Some("AMT relay must be nonempty and port must be positive")
        } else {
            None
        },
        NetworkSource::Atsc3 { frequency, plp_id, .. } => if frequency == 0 || plp_id > 63
            || !sls_uri_is_url {
            Some("invalid ATSC3 frequency, plpId, or slsUri")
        } else {
            None
        },
    }
}

/// Whether the service list's URI of a source, where it has one, is a URL.
pub open spec fn sls_uri_ok(source: NetworkSource) -> bool {
    match source {
        NetworkSource::Amt { .. } => true,
        NetworkSource::Atsc3 { sls_uri, .. } => is_url(sls_uri@),
    }
}

/// Why an endpoint is not valid by itself.
pub open spec fn endpoint_error(endpoint: MulticastEndpoint) -> Option<&'static str> {
    if endpoint.group_address@.len() == 0 || endpoint.port == 0 || endpoint.tracks@.len() == 0 {
        Some("endpoint groupAddress, port, and tracks are required")
    } else if endpoint.source_address matches Some(s) && s@.len() == 0 {
        Some("sourceAddress must not be empty")
    } else if endpoint.protocol is None && endpoint.source_address is None {
        Some("endpoint requires protocol or sourceAddress")
    } else if endpoint.protocol == Some(MulticastProtocol::Ssm) && endpoint.source_address is None {
        Some("SSM endpoint requires sourceAddress")
    } else if endpoint.bandwidth == Some(0u64) {
        Some("bandwidth must be positive")
    } else {
        None
    }
}

/// The first of the first `n` references that has a packet id.
pub open spec fn first_with_id(refs: Seq<MulticastTrackRef>, packet_id: u16, n: nat) -> Option<int>
    decreases n,
{
    if n == 0 {
        None
    } else {
        match first_with_id(refs, packet_id, (n - 1) as nat) {
            Some(i) => Some(i),
            None => if refs[n - 1].packet_id == packet_id {
                Some(n - 1)
            } else {
                None
            },
        }
    }
}

/// Why a reference of an endpoint is not valid.
pub open spec fn reference_error(
    tracks: Seq<Track>,
    refs: Seq<MulticastTrackRef>,
    i: int,
) -> Option<CatalogValidationError> {
    if refs[i].name@.len() == 0 || !has_track(tracks, refs[i].name@) {
        Some(CatalogValidationError::UnknownTrackReference { track_name: refs[i].name })
    } else {
        match first_with_id(refs, refs[i].packet_id, i as nat) {
            None => None,
            Some(first) => Some(
                CatalogValidationError::DuplicatePacketId {
                    packet_id: refs[i].packet_id,
                    first_track: refs[first].name,
                    duplicate_track: refs[i].name,
                },
            ),
        }
    }
}

/// The check of each reference of an endpoint.
pub open spec fn reference_check(
    tracks: Seq<Track>,
    refs: Seq<MulticastTrackRef>,
) -> spec_fn(int) -> Option<CatalogValidationError> {
    |i: int| reference_error(tracks, refs, i)
}

/// The check of each endpoint, with its references.
pub open spec fn endpoint_check(
    tracks: Seq<Track>,
    endpoints: Seq<MulticastEndpoint>,
) -> spec_fn(int) -> Option<CatalogValidationError> {
    |i: int|
        match endpoint_error(endpoints[i]) {
            Some(reason) => Some(CatalogValidationError::InvalidMulticast(reason)),
            None => first_failure(
                endpoints[i].tracks@.len(),
                reference_check(tracks, endpoints[i].tracks@),
            ),
        }
}

/// The check of each network source.
pub open spec fn source_check(sources: Seq<NetworkSource>) -> spec_fn(int) -> Option<
    CatalogValidationError,
> {
    |i: int|
        match source_error(sources[i], sls_uri_ok(sources[i])) {
            Some(reason) => Some(CatalogValidationError::InvalidMulticast(reason)),
            None => None,
        }
}

/// Why the network sources are not valid.
pub open spec fn sources_error(sources: Option<Vec<NetworkSource>>) -> Option<
    CatalogValidationError,
> {
    match sources {
        None => None,
        Some(list) => if list@.len() == 0 {
            Some(
                CatalogValidationError::InvalidMulticast(
                    "networkSource must not be empty when present",
                ),
            )
        } else {
            first_failure(list@.len(), source_check(list@))
        },
    }
}

/// Why the multicast part of a catalog is not valid.
pub open spec fn multicast_error(tracks: Seq<Track>, multicast: MulticastConfig) -> Option<
    CatalogValidationError,
> {
    match multicast.endpoints {
        None => Some(CatalogValidationError::InvalidMulticast("endpoints must not be empty")),
        Some(endpoints) => if endpoints@.len() == 0 {
            Some(CatalogValidationError::InvalidMulticast("endpoints must not be empty"))
        } else {
            match sources_error(multicast.network_source) {
                Some(e) => Some(e),
                None => first_failure(endpoints@.len(), endpoint_check(tracks, endpoints@)),
            }
        },
    }
}

/// The check of each track by itself.
pub open spec fn track_check(tracks: Seq<Track>) -> spec_fn(int) -> Option<
    CatalogValidationError,
> {
    |i: int| track_error(tracks[i])
}

/// The check of each track's protection.
pub open spec fn fec_reference_check(tracks: Seq<Track>) -> spec_fn(int) -> Option<
    CatalogValidationError,
> {
    |i: int| fec_reference_error(tracks, i)
}

/// The check of each track's switching set.
pub open spec fn switching_check(tracks: Seq<Track>) -> spec_fn(int) -> Option<
    CatalogValidationError,
> {
    |i: int| switching_error(tracks, i)
}

/// Why the head of a catalog is not valid.
pub open spec fn head_error(root: Root) -> Option<&'static str> {
    if root.version != 1 {
        Some("version must be 1")
    } else if root.streaming_format@ != "mmtp"@ {
        Some("streamingFormat must be mmtp")
    } else if root.streaming_format_version@.len() == 0 {
        Some("streamingFormatVersion must not be empty")
    } else if root.tracks@.len() == 0 {
        Some("tracks must not be empty")
    } else {
        None
    }
}

/// Why a catalog is not valid: the first error, in the order of the checks.
pub open spec fn catalog_error(root: Root) -> Option<CatalogValidationError> {
    let tracks = root.tracks@;
    match head_error(root) {
        Some(reason) => Some(CatalogValidationError::InvalidRoot(reason)),
        None => match first_failure(tracks.len(), track_check(tracks)) {
            Some(e) => Some(e),
            None => match first_failure(tracks.len(), fec_reference_check(tracks)) {
                Some(e) => Some(e),
                None => match first_failure(tracks.len(), switching_check(tracks)) {
                    Some(e) => Some(e),
                    None => match root.multicast {
                        None => None,
                        Some(multicast) => multicast_error(tracks, multicast),
                    },
                },
            },
        },
    }
}

/// The outcome of a check.
pub open spec fn outcome(error: Option<CatalogValidationError>) -> Result<
    (),
    CatalogValidationError,
> {
    match error {
        Some(e) => Err(e),
        None => Ok(()),
    }
}

/// Checks a network source, given whether its service list's URI is a URL.
pub fn check_network_source(source: &NetworkSource, sls_uri_is_url: bool) -> (r: Result<
    (),
    &'static str,
>)
    ensures
        r == match source_error(*source, sls_uri_is_url) {
            Some(reason) => Err::<(), &'static str>(reason),
            None => Ok(()),
        },
{
    match source {
        NetworkSource::Amt { relay, port, .. } => {
            let empty_relay: bool = match relay {
                Some(relay) => relay.as_str().is_empty(),
                None => false,
            };
            if empty_relay || matches!(port, Some(0)) {
                return Err("AMT relay must be nonempty and port must be positive");
            }
        },
        NetworkSource::Atsc3 { frequency, plp_id, .. } => {
            if *frequency == 0 || *plp_id > 63 || !sls_uri_is_url {
                return Err("invalid ATSC3 frequency, plpId, or slsUri");
            }
        },
    }
    Ok(())
}

impl Root {
    /// Checks a catalog.
    pub fn validate(&self) -> (r: Result<(), CatalogValidationError>)
        ensures
            r == outcome(catalog_error(*self)),
    {
        if self.version != 1 {
            return Err(CatalogValidationError::InvalidRoot("version must be 1"));
        }
        if !str_eq(self.streaming_format.as_str(), "mmtp") {
            return Err(CatalogValidationError::InvalidRoot("streamingFormat must be mmtp"));
        }
        if self.streaming_format_version.as_str().is_empty() {
            return Err(
                CatalogValidationError::InvalidRoot("streamingFormatVersion must not be empty"),
            );
        }
        if self.tracks.len() == 0 {
            return Err(CatalogValidationError::InvalidRoot("tracks must not be empty"));
        }
        let ghost check = track_check(self.tracks@);
        let mut i: usize = 0;
        while i < self.tracks.len()
            invariant
                head_error(*self) is None,
                check == track_check(self.tracks@),
                i <= self.tracks@.len(),
                first_failure(i as nat, check) is None,
            decreases self.tracks@.len() - i,
        {
            match Self::validate_track(&self.tracks[i]) {
                Ok(()) => {},
                Err(e) => {
                    proof {
                        lemma_first_failure((i + 1) as nat, self.tracks@.len(), check);
                    }
                    return Err(e);
                },
            }
            i = i + 1;
        }
        self.validate_fec_references()?;
        self.validate_switching_sets()?;
        if let Some(multicast) = &self.multicast {
            self.validate_multicast(multicast)?;
        }
        Ok(())
    }

    fn validate_track(track: &Track) -> (r: Result<(), CatalogValidationError>)
        ensures
            r == outcome(track_error(*track)),
    {
        if track.name.as_str().is_empty() {
            return Err(
                CatalogValidationError::InvalidTrack {
                    track_name: track.name.clone(),
                    reason: "name must not be empty",
                },
            );
        }
        match track.packaging {
            None => Err(
                CatalogValidationError::InvalidTrack {
                    track_name: track.name.clone(),
                    reason: "packaging is required",
                },
            ),
            Some(TrackPackaging::Mmtp) => Self::validate_mmtp_track(track),
            Some(TrackPackaging::FecRepair) => Self::validate_repair_track(track),
            Some(_) => Ok(()),
        }
    }

    fn validate_mmtp_track(track: &Track) -> (r: Result<(), CatalogValidationError>)
        ensures
            r == outcome(mmtp_track_error(*track)),
    {
        if track.mmtp_mode.is_none() {
            return Err(
                CatalogValidationError::MissingMmtpMode { track_name: track.name.clone() },
            );
        }
        let timescale: u32 = match track.timescale {
            Some(timescale) => timescale,
            None => {
                return Err(
                    CatalogValidationError::MissingTimescale { track_name: track.name.clone() },
                );
            },
        };
        if timescale == 0 {
            return Err(CatalogValidationError::ZeroTimescale { track_name: track.name.clone() });
        }
        if track.group_duration_ms.is_none() && track.group_duration_ticks.is_none() {
            return Err(
                CatalogValidationError::MissingGroupDuration { track_name: track.name.clone() },
            );
        }
        if matches!(track.group_duration_ms, Some(0)) || matches!(
            track.group_duration_ticks,
            Some(0)
        ) {
            return Err(
                CatalogValidationError::ZeroGroupDuration { track_name: track.name.clone() },
            );
        }
        if let (Some(ms), None) = (track.group_duration_ms, track.group_duration_ticks) {
            assert(ms as int * timescale as int <= 0xffff_ffff * 0xffff_ffff) by (nonlinear_arith)
                requires
                    ms <= 0xffff_ffff,
                    timescale <= 0xffff_ffff,
            ;
            if (ms as u64 * timescale as u64) % 1000 != 0 {
                return Err(
                    CatalogValidationError::GroupDurationNotExact {
                        track_name: track.name.clone(),
                        group_duration_ms: ms,
                        timescale,
                    },
                );
            }
        }
        if let Some(fec) = &track.fec {
            if fec.source_symbols == 0 || fec.repair_symbols == 0 || fec.symbol_size == 0 {
                return Err(
                    CatalogValidationError::InvalidFecParams {
                        track_name: track.name.clone(),
                        reason: "symbol counts and symbolSize must be positive",
                    },
                );
            }
            if fec.algorithm == FecAlgorithm::RaptorQ && fec.symbol_size % 8 != 0 {
                return Err(
                    CatalogValidationError::InvalidFecParams {
                        track_name: track.name.clone(),
                        reason: "RaptorQ symbolSize must be divisible by 8",
                    },
                );
            }
            if matches!(fec.interleave_depth_ms, Some(0)) {
                return Err(
                    CatalogValidationError::InvalidFecParams {
                        track_name: track.name.clone(),
                        reason: "interleaveDepthMs must be positive when present",
                    },
                );
            }
        }
        Ok(())
    }

    fn validate_repair_track(track: &Track) -> (r: Result<(), CatalogValidationError>)
        ensures
            r == outcome(repair_track_error(*track)),
    {
        let in_band: bool = match track.priority {
            Some(priority) => priority == REPAIR_PRIORITY,
            None => false,
        };
        if !in_band {
            return Err(
                CatalogValidationError::InvalidRepairTrack {
                    track_name: track.name.clone(),
                    reason: "priority must be 240",
                },
            );
        }
        if track.mmtp_mode.is_some() || track.timescale.is_some()
            || track.group_duration_ms.is_some() || track.group_duration_ticks.is_some()
            || track.fec.is_some() {
            return Err(
                CatalogValidationError::InvalidRepairTrack {
                    track_name: track.name.clone(),
                    reason: "MMTP timing and fec fields are forbidden",
                },
            );
        }
        Ok(())
    }

    /// Whether there is a track of this name, or only a repair track counts.
    fn names_track(&self, name: &str, repair_only: bool) -> (r: bool)
        ensures
            r == if repair_only {
                has_repair_track(self.tracks@, name@)
            } else {
                has_track(self.tracks@, name@)
            },
    {
        let mut i: usize = 0;
        while i < self.tracks.len()
            invariant
                i <= self.tracks@.len(),
                forall|j: int|
                    0 <= j < i ==> !((#[trigger] self.tracks@[j]).name@ == name@ && (!repair_only
                        || self.tracks@[j].packaging == Some(TrackPackaging::FecRepair))),
            decreases self.tracks@.len() - i,
        {
            let track: &Track = &self.tracks[i];
            let counts: bool = !repair_only || matches!(
                track.packaging,
                Some(TrackPackaging::FecRepair)
            );
            if counts && str_eq(track.name.as_str(), name) {
                return true;
            }
            i = i + 1;
        }
        false
    }

    fn validate_fec_references(&self) -> (r: Result<(), CatalogValidationError>)
        ensures
            r == outcome(first_failure(self.tracks@.len(), fec_reference_check(self.tracks@))),
    {
        let ghost check = fec_reference_check(self.tracks@);
        let mut i: usize = 0;
        while i < self.tracks.len()
            invariant
                check == fec_reference_check(self.tracks@),
                i <= self.tracks@.len(),
                first_failure(i as nat, check) is None,
            decreases self.tracks@.len() - i,
        {
            let track: &Track = &self.tracks[i];
            if let Some(fec) = &track.fec {
                if !self.names_track(fec.repair_track.as_str(), true) {
                    proof {
                        lemma_first_failure((i + 1) as nat, self.tracks@.len(), check);
                    }
                    return Err(
                        CatalogValidationError::UnknownRepairTrack {
                            track_name: track.name.clone(),
                            repair_track: fec.repair_track.clone(),
                        },
                    );
                }
            }
            i = i + 1;
        }
        Ok(())
    }

    /// The duration of a track's groups in ticks, and its timescale.
    fn duration(track: &Track) -> (r: (u128, u128))
        requires
            mmtp_track_error(*track) is None,
        ensures
            r.0 == group_ticks(*track),
            r.1 == track.timescale->0,
            r.0 <= u64::MAX,
            r.1 <= u32::MAX,
    {
        let timescale: u32 = match track.timescale {
            Some(timescale) => timescale,
            None => 0,
        };
        let ticks: u64 = match track.group_duration_ticks {
            Some(ticks) => ticks,
            None => match track.group_duration_ms {
                Some(ms) => {
                    assert(ms as int * timescale as int <= 0xffff_ffff * 0xffff_ffff)
                        by (nonlinear_arith)
                        requires
                            ms <= 0xffff_ffff,
                            timescale <= 0xffff_ffff,
                    ;
                    ms as u64 * timescale as u64 / 1000
                },
                None => 0,
            },
        };
        (ticks as u128, timescale as u128)
    }

    fn validate_switching_sets(&self) -> (r: Result<(), CatalogValidationError>)
        requires
            first_failure(self.tracks@.len(), track_check(self.tracks@)) is None,
        ensures
            r == outcome(first_failure(self.tracks@.len(), switching_check(self.tracks@))),
    {
        let ghost check = switching_check(self.tracks@);
        let mut i: usize = 0;
        while i < self.tracks.len()
            invariant
                check == switching_check(self.tracks@),
                first_failure(self.tracks@.len(), track_check(self.tracks@)) is None,
                i <= self.tracks@.len(),
                first_failure(i as nat, check) is None,
            decreases self.tracks@.len() - i,
        {
            let track: &Track = &self.tracks[i];
            let in_set: bool = matches!(track.packaging, Some(TrackPackaging::Mmtp));
            if in_set {
                if let Some(alt_group) = track.alt_group {
                    match self.find_anchor(alt_group, i) {
                        None => {},
                        Some(a) => {
                            let other: &Track = &self.tracks[a];
                            proof {
                                lemma_anchor(self.tracks@, alt_group, i as nat);
                                lemma_no_failure(
                                    self.tracks@.len(),
                                    track_check(self.tracks@),
                                    i as int,
                                );
                                lemma_no_failure(
                                    self.tracks@.len(),
                                    track_check(self.tracks@),
                                    a as int,
                                );
                            }
                            let (ticks, timescale) = Self::duration(track);
                            let (anchor_ticks, anchor_timescale) = Self::duration(other);
                            assert(ticks * anchor_timescale <= 0xffff_ffff_ffff_ffff * 0xffff_ffff
                                && anchor_ticks * timescale <= 0xffff_ffff_ffff_ffff
                                * 0xffff_ffff) by (nonlinear_arith)
                                requires
                                    0 <= ticks <= 0xffff_ffff_ffff_ffff,
                                    0 <= anchor_ticks <= 0xffff_ffff_ffff_ffff,
                                    0 <= timescale <= 0xffff_ffff,
                                    0 <= anchor_timescale <= 0xffff_ffff,
                            ;
                            if ticks * anchor_timescale != anchor_ticks * timescale {
                                proof {
                                    lemma_first_failure((i + 1) as nat, self.tracks@.len(), check);
                                }
                                return Err(
                                    CatalogValidationError::SwitchingSetGroupDurationMismatch {
                                        alt_group,
                                        track_name: track.name.clone(),
                                        other_track: other.name.clone(),
                                    },
                                );
                            }
                        },
                    }
                }
            }
            i = i + 1;
        }
        Ok(())
    }

    /// The first of the first `n` tracks that belongs to a switching set.
    fn find_anchor(&self, alt_group: u32, n: usize) -> (r: Option<usize>)
        requires
            n <= self.tracks@.len(),
        ensures
            match r {
                Some(a) => a < n && anchor(self.tracks@, alt_group, n as nat) == Some(a as int),
                None => anchor(self.tracks@, alt_group, n as nat) is None,
            },
    {
        let mut i: usize = 0;
        while i < n
            invariant
                i <= n <= self.tracks@.len(),
                anchor(self.tracks@, alt_group, i as nat) is None,
            decreases n - i,
        {
            let track: &Track = &self.tracks[i];
            let same: bool = match track.alt_group {
                Some(g) => g == alt_group,
                None => false,
            };
            if same && matches!(track.packaging, Some(TrackPackaging::Mmtp)) {
                proof {
                    lemma_anchor_stays(self.tracks@, alt_group, (i + 1) as nat, n as nat);
                }
                return Some(i);
            }
            i = i + 1;
        }
        None
    }

    fn validate_multicast(&self, multicast: &MulticastConfig) -> (r: Result<
        (),
        CatalogValidationError,
    >)
        ensures
            r == outcome(multicast_error(self.tracks@, *multicast)),
    {
        let endpoints: &Vec<MulticastEndpoint> = match &multicast.endpoints {
            Some(endpoints) => endpoints,
            None => {
                return Err(CatalogValidationError::InvalidMulticast("endpoints must not be empty"));
            },
        };
        if endpoints.len() == 0 {
            return Err(CatalogValidationError::InvalidMulticast("endpoints must not be empty"));
        }
        Self::validate_sources(&multicast.network_source)?;
        let ghost check = endpoint_check(self.tracks@, endpoints@);
        let mut i: usize = 0;
        while i < endpoints.len()
            invariant
                check == endpoint_check(self.tracks@, endpoints@),
                i <= endpoints@.len(),
                first_failure(i as nat, check) is None,
                sources_error(multicast.network_source) is None,
                multicast.endpoints == Some(*endpoints),
                endpoints@.len() > 0,
            decreases endpoints@.len() - i,
        {
            let endpoint: &MulticastEndpoint = &endpoints[i];
            match Self::check_endpoint(endpoint) {
                Ok(()) => {},
                Err(reason) => {
                    proof {
                        lemma_first_failure((i + 1) as nat, endpoints@.len(), check);
                    }
                    return Err(CatalogValidationError::InvalidMulticast(reason));
                },
            }
            match self.validate_references(&endpoint.tracks) {
                Ok(()) => {},
                Err(e) => {
                    proof {
                        lemma_first_failure((i + 1) as nat, endpoints@.len(), check);
                    }
                    return Err(e);
                },
            }
            i = i + 1;
        }
        Ok(())
    }

    fn validate_sources(sources: &Option<Vec<NetworkSource>>) -> (r: Result<
        (),
        CatalogValidationError,
    >)
        ensures
            r == outcome(sources_error(*sources)),
    {
        let list: &Vec<NetworkSource> = match sources {
            Some(list) => list,
            None => {
                return Ok(());
            },
        };
        if list.len() == 0 {
            return Err(
                CatalogValidationError::InvalidMulticast(
                    "networkSource must not be empty when present",
                ),
            );
        }
        let ghost check = source_check(list@);
        let mut i: usize = 0;
        while i < list.len()
            invariant
                check == source_check(list@),
                *sources == Some(*list),
                list@.len() > 0,
                i <= list@.len(),
                first_failure(i as nat, check) is None,
            decreases list@.len() - i,
        {
            let source: &NetworkSource = &list[i];
            let uri_ok: bool = match source {
                NetworkSource::Amt { .. } => true,
                NetworkSource::Atsc3 { sls_uri, .. } => parse_url(sls_uri.as_str()),
            };
            match check_network_source(source, uri_ok) {
                Ok(()) => {},
                Err(reason) => {
                    proof {
                        lemma_first_failure((i + 1) as nat, list@.len(), check);
                    }
                    return Err(CatalogValidationError::InvalidMulticast(reason));
                },
            }
            i = i + 1;
        }
        Ok(())
    }

    fn check_endpoint(endpoint: &MulticastEndpoint) -> (r: Result<(), &'static str>)
        ensures
            r == match endpoint_error(*endpoint) {
                Some(reason) => Err::<(), &'static str>(reason),
                None => Ok(()),
            },
    {
        if endpoint.group_address.as_str().is_empty() || endpoint.port == 0
            || endpoint.tracks.len() == 0 {
            return Err("endpoint groupAddress, port, and tracks are required");
        }
        let empty_source: bool = match &endpoint.source_address {
            Some(source) => source.as_str().is_empty(),
            None => false,
        };
        if empty_source {
            return Err("sourceAddress must not be empty");
        }
        if endpoint.protocol.is_none() && endpoint.source_address.is_none() {
            return Err("endpoint requires protocol or sourceAddress");
        }
        if matches!(endpoint.protocol, Some(MulticastProtocol::Ssm))
            && endpoint.source_address.is_none() {
            return Err("SSM endpoint requires sourceAddress");
        }
        if matches!(endpoint.bandwidth, Some(0)) {
            return Err("bandwidth must be positive");
        }
        Ok(())
    }

    fn validate_references(&self, refs: &Vec<MulticastTrackRef>) -> (r: Result<
        (),
        CatalogValidationError,
    >)
        ensures
            r == outcome(
                first_failure(refs@.len(), reference_check(self.tracks@, refs@)),
            ),
    {
        let ghost check = reference_check(self.tracks@, refs@);
        let mut i: usize = 0;
        while i < refs.len()
            invariant
                check == reference_check(self.tracks@, refs@),
                i <= refs@.len(),
                first_failure(i as nat, check) is None,
            decreases refs@.len() - i,
        {
            let track_ref: &MulticastTrackRef = &refs[i];
            if track_ref.name.as_str().is_empty() || !self.names_track(
                track_ref.name.as_str(),
                false,
            ) {
                proof {
                    lemma_first_failure((i + 1) as nat, refs@.len(), check);
                }
                return Err(
                    CatalogValidationError::UnknownTrackReference {
                        track_name: track_ref.name.clone(),
                    },
                );
            }
            let mut j: usize = 0;
            while j < i
                invariant
                    check == reference_check(self.tracks@, refs@),
                    j <= i < refs@.len(),
                    *track_ref == refs@[i as int],
                    first_failure(i as nat, check) is None,
                    first_with_id(refs@, track_ref.packet_id, j as nat) is None,
                    !(track_ref.name@.len() == 0 || !has_track(self.tracks@, track_ref.name@)),
                decreases i - j,
            {
                if refs[j].packet_id == track_ref.packet_id {
                    proof {
                        lemma_first_with_id_stays(
                            refs@,
                            track_ref.packet_id,
                            (j + 1) as nat,
                            i as nat,
                        );
                        lemma_first_failure((i + 1) as nat, refs@.len(), check);
                    }
                    return Err(
                        CatalogValidationError::DuplicatePacketId {
                            packet_id: track_ref.packet_id,
                            first_track: refs[j].name.clone(),
                            duplicate_track: track_ref.name.clone(),
                        },
                    );
                }
                j = j + 1;
            }
            i = i + 1;
        }
        Ok(())
    }
}

proof fn lemma_anchor_stays(tracks: Seq<Track>, alt_group: u32, k: nat, n: nat)
    requires
        k <= n,
        anchor(tracks, alt_group, k) is Some,
    ensures
        anchor(tracks, alt_group, n) == anchor(tracks, alt_group, k),
    decreases n,
{
    if k < n {
        lemma_anchor_stays(tracks, alt_group, k, (n - 1) as nat);
    }
}

/// The anchor of a switching set belongs to it, and where there is none no
/// track does.
pub proof fn lemma_anchor(tracks: Seq<Track>, alt_group: u32, n: nat)
    ensures
        match anchor(tracks, alt_group, n) {
            Some(a) => 0 <= a < n && in_switching_set(tracks[a], alt_group),
            None => forall|i: int| 0 <= i < n ==> !in_switching_set(#[trigger] tracks[i], alt_group),
        },
    decreases n,
{
    if n > 0 {
        lemma_anchor(tracks, alt_group, (n - 1) as nat);
    }
}

proof fn lemma_first_with_id_stays(refs: Seq<MulticastTrackRef>, packet_id: u16, k: nat, n: nat)
    requires
        k <= n,
        first_with_id(refs, packet_id, k) is Some,
    ensures
        first_with_id(refs, packet_id, n) == first_with_id(refs, packet_id, k),
    decreases n,
{
    if k < n {
        lemma_first_with_id_stays(refs, packet_id, k, (n - 1) as nat);
    }
}

proof fn lemma_first_with_id_none(refs: Seq<MulticastTrackRef>, packet_id: u16, n: nat, j: int)
    requires
        first_with_id(refs, packet_id, n) is None,
        0 <= j < n,
    ensures
        refs[j].packet_id != packet_id,
    decreases n,
{
    if j < n - 1 {
        lemma_first_with_id_none(refs, packet_id, (n - 1) as nat, j);
    }
}

/// In a valid catalog every MMTP track has a timescale and a group duration,
/// both positive.
pub proof fn law_valid_mmtp_track_is_timed(root: Root, i: int)
    requires
        catalog_error(root) is None,
        0 <= i < root.tracks@.len(),
        root.tracks@[i].packaging == Some(TrackPackaging::Mmtp),
    ensures
        root.tracks@[i].timescale matches Some(t) && t > 0,
        group_ticks(root.tracks@[i]) > 0,
{
    let t = root.tracks@[i];
    lemma_no_failure(root.tracks@.len(), track_check(root.tracks@), i);
    if t.group_duration_ticks is None {
        let ms = t.group_duration_ms->0 as int;
        let ts = t.timescale->0 as int;
        assert(ms * ts > 0) by (nonlinear_arith)
            requires
                ms > 0,
                ts > 0,
        ;
    }
}

/// In a valid catalog every protected track names a repair track, which runs
/// in the repair band.
pub proof fn law_valid_repair_reference(root: Root, i: int)
    requires
        catalog_error(root) is None,
        0 <= i < root.tracks@.len(),
        root.tracks@[i].fec is Some,
    ensures
        exists|j: int|
            0 <= j < root.tracks@.len() && (#[trigger] root.tracks@[j]).name@
                == root.tracks@[i].fec->0.repair_track@ && root.tracks@[j].packaging == Some(
                TrackPackaging::FecRepair,
            ) && root.tracks@[j].priority == Some(REPAIR_PRIORITY),
{
    let tracks = root.tracks@;
    let name = tracks[i].fec->0.repair_track@;
    lemma_no_failure(tracks.len(), fec_reference_check(tracks), i);
    let j = choose|j: int|
        0 <= j < tracks.len() && (#[trigger] tracks[j]).name@ == name && tracks[j].packaging
            == Some(TrackPackaging::FecRepair);
    lemma_no_failure(tracks.len(), track_check(tracks), j);
    assert(tracks[j].priority == Some(REPAIR_PRIORITY));
}

/// In a valid catalog the groups of any two tracks of a switching set are
/// equally long.
pub proof fn law_valid_switching_set_is_aligned(root: Root, i: int, j: int, alt_group: u32)
    requires
        catalog_error(root) is None,
        0 <= i < root.tracks@.len(),
        0 <= j < root.tracks@.len(),
        in_switching_set(root.tracks@[i], alt_group),
        in_switching_set(root.tracks@[j], alt_group),
    ensures
        same_duration(root.tracks@[i], root.tracks@[j]),
{
    let tracks = root.tracks@;
    let n = tracks.len();
    lemma_anchor(tracks, alt_group, n);
    let a = anchor(tracks, alt_group, n)->0;
    lemma_same_as_anchor(root, i, alt_group);
    lemma_same_as_anchor(root, j, alt_group);
    law_valid_mmtp_track_is_timed(root, a);
    let (xi, xj, xa) = (group_ticks(tracks[i]), group_ticks(tracks[j]), group_ticks(tracks[a]));
    let (ti, tj, ta) = (
        tracks[i].timescale->0 as nat,
        tracks[j].timescale->0 as nat,
        tracks[a].timescale->0 as nat,
    );
    assert(xi * tj == xj * ti) by (nonlinear_arith)
        requires
            xi * ta == xa * ti,
            xj * ta == xa * tj,
            ta > 0,
    {
        assert((xi * tj) * ta == (xa * ti) * tj);
        assert((xj * ti) * ta == (xa * tj) * ti);
        assert((xa * ti) * tj == (xa * tj) * ti);
        assert((xi * tj) * ta == (xj * ti) * ta);
        assert(xi * tj == xj * ti);
    }
}

proof fn lemma_same_as_anchor(root: Root, i: int, alt_group: u32)
    requires
        catalog_error(root) is None,
        0 <= i < root.tracks@.len(),
        in_switching_set(root.tracks@[i], alt_group),
    ensures
        anchor(root.tracks@, alt_group, root.tracks@.len()) matches Some(a) && same_duration(
            root.tracks@[i],
            root.tracks@[a],
        ),
{
    let tracks = root.tracks@;
    let n = tracks.len();
    lemma_anchor(tracks, alt_group, n);
    lemma_no_failure(n, switching_check(tracks), i);
    lemma_anchor(tracks, alt_group, i as nat);
    match anchor(tracks, alt_group, i as nat) {
        Some(a) => {
            lemma_anchor_stays(tracks, alt_group, i as nat, n);
        },
        None => {
            assert(anchor(tracks, alt_group, (i + 1) as nat) == Some(i));
            lemma_anchor_stays(tracks, alt_group, (i + 1) as nat, n);
        },
    }
}

/// In a valid catalog every reference of an endpoint names a track, and no two
/// of them share a packet id.
pub proof fn law_valid_endpoint_references(root: Root, e: int, i: int, j: int)
    requires
        catalog_error(root) is None,
        root.multicast matches Some(m) && m.endpoints matches Some(endpoints) && 0 <= e
            < endpoints@.len() && 0 <= i < j < endpoints@[e].tracks@.len(),
    ensures
        ({
            let refs = root.multicast->0.endpoints->0@[e].tracks@;
            &&& has_track(root.tracks@, refs[i].name@)
            &&& has_track(root.tracks@, refs[j].name@)
            &&& refs[i].packet_id != refs[j].packet_id
        }),
{
    let tracks = root.tracks@;
    let endpoints = root.multicast->0.endpoints->0@;
    let refs = endpoints[e].tracks@;
    lemma_no_failure(endpoints.len(), endpoint_check(tracks, endpoints), e);
    lemma_no_failure(refs.len(), reference_check(tracks, refs), i);
    lemma_no_failure(refs.len(), reference_check(tracks, refs), j);
    lemma_first_with_id_none(refs, refs[j].packet_id, j as nat, i);
}

/// The first failing check decides: there is no failure exactly where no check
/// fails, and a failure is that of a check before which none fails.
pub proof fn law_first_failure_decides(n: nat, check: spec_fn(int) -> Option<CatalogValidationError>)
    ensures
        (first_failure(n, check) is None) == (forall|i: int|
            0 <= i < n ==> (#[trigger] check(i)) is None),
        first_failure(n, check) matches Some(e) ==> exists|i: int|
            {
                &&& 0 <= i < n
                &&& #[trigger] check(i) == Some(e)
                &&& forall|j: int| 0 <= j < i ==> (#[trigger] check(j)) is None
            },
    decreases n,
{
    if n > 0 {
        law_first_failure_decides((n - 1) as nat, check);
        let k = n - 1;
        assert(check(k) is None || check(k) is Some);
    }
}

/// A check fails with its error, and passes without one.
pub proof fn law_outcome_is_the_error(error: Option<CatalogValidationError>)
    ensures
        (outcome(error) is Ok) == (error is None),
        error matches Some(e) ==> outcome(error) == Err::<(), CatalogValidationError>(e),
{
}

/// An MMTP track is valid exactly where it has a name, a mode, a timescale and a
/// group duration, none of them zero, a duration in milliseconds alone being a
/// whole number of ticks; and, where it is protected, where no symbol count or
/// size is zero, a symbol of RaptorQ is a multiple of eight bytes, and the
/// interleaving depth is not zero.
pub proof fn law_mmtp_track_is_valid_exactly_when(track: Track)
    requires
        track.packaging == Some(TrackPackaging::Mmtp),
    ensures
        (track_error(track) is None) == {
            &&& track.name@.len() > 0
            &&& track.mmtp_mode is Some
            &&& track.timescale matches Some(t) && t > 0
            &&& track.group_duration_ms is Some || track.group_duration_ticks is Some
            &&& track.group_duration_ms != Some(0u32)
            &&& track.group_duration_ticks != Some(0u64)
            &&& track.group_duration_ticks is None ==> (track.group_duration_ms->0
                * track.timescale->0) % 1000 == 0
            &&& track.fec matches Some(fec) ==> {
                &&& fec.source_symbols > 0
                &&& fec.repair_symbols > 0
                &&& fec.symbol_size > 0
                &&& fec.algorithm == FecAlgorithm::RaptorQ ==> fec.symbol_size % 8 == 0
                &&& fec.interleave_depth_ms != Some(0u32)
            }
        },
{
}

/// A repair track is valid exactly where it has a name, runs in the repair band,
/// and says nothing of timing or protection; a track of another packaging where
/// it has a name; a track without packaging never.
pub proof fn law_other_track_is_valid_exactly_when(track: Track)
    requires
        track.packaging != Some(TrackPackaging::Mmtp),
    ensures
        track.packaging is None ==> track_error(track) is Some,
        track.packaging == Some(TrackPackaging::FecRepair) ==> (track_error(track) is None) == {
            &&& track.name@.len() > 0
            &&& track.priority == Some(240u8)
            &&& track.mmtp_mode is None
            &&& track.timescale is None
            &&& track.group_duration_ms is None
            &&& track.group_duration_ticks is None
            &&& track.fec is None
        },
        track.packaging is Some && track.packaging != Some(TrackPackaging::FecRepair) ==> (
        track_error(track) is None) == (track.name@.len() > 0),
{
}

/// An error of a track names that track and what is wrong with it.
pub proof fn law_track_error_names_its_cause(track: Track)
    ensures
        match track_error(track) {
            None => true,
            Some(CatalogValidationError::InvalidTrack { track_name, .. }) => {
                &&& track_name == track.name
                &&& track.name@.len() == 0 || track.packaging is None
            },
            Some(CatalogValidationError::MissingMmtpMode { track_name }) => {
                &&& track_name == track.name
                &&& track.mmtp_mode is None
            },
            Some(CatalogValidationError::MissingTimescale { track_name }) => {
                &&& track_name == track.name
                &&& track.timescale is None
            },
            Some(CatalogValidationError::ZeroTimescale { track_name }) => {
                &&& track_name == track.name
                &&& track.timescale == Some(0u32)
            },
            Some(CatalogValidationError::MissingGroupDuration { track_name }) => {
                &&& track_name == track.name
                &&& track.group_duration_ms is None
                &&& track.group_duration_ticks is None
            },
            Some(CatalogValidationError::ZeroGroupDuration { track_name }) => {
                &&& track_name == track.name
                &&& track.group_duration_ms == Some(0u32) || track.group_duration_ticks == Some(
                    0u64,
                )
            },
            Some(
                CatalogValidationError::GroupDurationNotExact {
                    track_name,
                    group_duration_ms,
                    timescale,
                },
            ) => {
                &&& track_name == track.name
                &&& track.group_duration_ticks is None
                &&& track.group_duration_ms == Some(group_duration_ms)
                &&& track.timescale == Some(timescale)
                &&& (group_duration_ms * timescale) % 1000 != 0
            },
            Some(CatalogValidationError::InvalidFecParams { track_name, .. }) => {
                &&& track_name == track.name
                &&& track.fec is Some
            },
            Some(CatalogValidationError::InvalidRepairTrack { track_name, .. }) => {
                &&& track_name == track.name
                &&& track.packaging == Some(TrackPackaging::FecRepair)
            },
            Some(_) => false,
        },
{
}

/// A protection refers to a repair track exactly where some track of that name
/// is packaged as one; an error of it names both tracks.
pub proof fn law_protection_refers_to_repair(tracks: Seq<Track>, i: int)
    ensures
        (fec_reference_error(tracks, i) is None) == (tracks[i].fec matches Some(fec) ==> exists|
            j: int,
        |
            0 <= j < tracks.len() && (#[trigger] tracks[j]).name@ == fec.repair_track@
                && tracks[j].packaging == Some(TrackPackaging::FecRepair)),
        fec_reference_error(tracks, i) matches Some(e) ==> {
            &&& e matches CatalogValidationError::UnknownRepairTrack { track_name, repair_track }
            &&& track_name == tracks[i].name
            &&& tracks[i].fec matches Some(fec) && repair_track == fec.repair_track
        },
{
}

/// The duration of a valid track's groups in ticks is the one it is given in
/// ticks, and else exactly the one in milliseconds.
pub proof fn law_group_ticks_are_exact(track: Track)
    requires
        track.packaging == Some(TrackPackaging::Mmtp),
        track_error(track) is None,
    ensures
        track.group_duration_ticks matches Some(ticks) ==> group_ticks(track) == ticks,
        track.group_duration_ticks is None ==> group_ticks(track) * 1000
            == track.group_duration_ms->0 * track.timescale->0,
        group_ticks(track) > 0,
{
    let ms = track.group_duration_ms->0 as int;
    let ts = track.timescale->0 as int;
    if track.group_duration_ticks is None {
        assert(ms * ts > 0) by (nonlinear_arith)
            requires
                ms > 0,
                ts > 0,
        ;
    }
}

/// The groups of two valid tracks that are given in milliseconds are equally
/// long exactly where they last equally many milliseconds, whatever the
/// timescales.
pub proof fn law_equal_milliseconds_are_equal_durations(a: Track, b: Track)
    requires
        a.packaging == Some(TrackPackaging::Mmtp),
        b.packaging == Some(TrackPackaging::Mmtp),
        track_error(a) is None,
        track_error(b) is None,
        a.group_duration_ticks is None,
        b.group_duration_ticks is None,
    ensures
        same_duration(a, b) == (a.group_duration_ms == b.group_duration_ms),
{
    law_group_ticks_are_exact(a);
    law_group_ticks_are_exact(b);
    let (xa, xb) = (group_ticks(a) as int, group_ticks(b) as int);
    let (ma, mb) = (a.group_duration_ms->0 as int, b.group_duration_ms->0 as int);
    let (ta, tb) = (a.timescale->0 as int, b.timescale->0 as int);
    let t = ta * tb;
    assert(t > 0) by (nonlinear_arith)
        requires
            t == ta * tb,
            ta > 0,
            tb > 0,
    ;
    assert((xa * tb) * 1000 == ma * t) by (nonlinear_arith)
        requires
            xa * 1000 == ma * ta,
            t == ta * tb,
    ;
    assert((xb * ta) * 1000 == mb * t) by (nonlinear_arith)
        requires
            xb * 1000 == mb * tb,
            t == ta * tb,
    ;
    if xa * tb == xb * ta {
        assert(ma == mb) by (nonlinear_arith)
            requires
                ma * t == mb * t,
                t > 0,
        ;
    }
}

proof fn lemma_valid_tracks_are_aligned(tracks: Seq<Track>, i: int, j: int)
    requires
        first_failure(tracks.len(), track_check(tracks)) is None,
        first_failure(tracks.len(), switching_check(tracks)) is None,
        0 <= i < j < tracks.len(),
        tracks[i].packaging == Some(TrackPackaging::Mmtp),
        tracks[j].packaging == Some(TrackPackaging::Mmtp),
        tracks[i].alt_group is Some,
        tracks[i].alt_group == tracks[j].alt_group,
    ensures
        group_ticks(tracks[i]) * tracks[j].timescale->0 == group_ticks(tracks[j])
            * tracks[i].timescale->0,
{
    let g = tracks[i].alt_group->0;
    lemma_no_failure(tracks.len(), switching_check(tracks), i);
    lemma_no_failure(tracks.len(), switching_check(tracks), j);
    lemma_anchor(tracks, g, i as nat);
    match anchor(tracks, g, i as nat) {
        None => {
            assert(anchor(tracks, g, (i + 1) as nat) == Some(i));
            lemma_anchor_stays(tracks, g, (i + 1) as nat, j as nat);
        },
        Some(a) => {
            lemma_anchor_stays(tracks, g, i as nat, j as nat);
            lemma_no_failure(tracks.len(), track_check(tracks), a);
            let (xi, xj, xa) = (
                group_ticks(tracks[i]),
                group_ticks(tracks[j]),
                group_ticks(tracks[a]),
            );
            let (ti, tj, ta) = (
                tracks[i].timescale->0 as nat,
                tracks[j].timescale->0 as nat,
                tracks[a].timescale->0 as nat,
            );
            assert((xi * tj) * ta == (xj * ti) * ta) by (nonlinear_arith)
                requires
                    xi * ta == xa * ti,
                    xj * ta == xa * tj,
            ;
            assert(xi * tj == xj * ti) by (nonlinear_arith)
                requires
                    (xi * tj) * ta == (xj * ti) * ta,
                    ta > 0,
            ;
        },
    }
}

/// Among valid tracks the switching sets are valid exactly where the groups of
/// any two MMTP tracks of one set are equally long.
pub proof fn law_switching_sets_are_valid_exactly_when(tracks: Seq<Track>)
    requires
        first_failure(tracks.len(), track_check(tracks)) is None,
    ensures
        (first_failure(tracks.len(), switching_check(tracks)) is None) == (forall|i: int, j: int|
            #![trigger tracks[i], tracks[j]]
            0 <= i < j < tracks.len() && tracks[i].packaging == Some(TrackPackaging::Mmtp)
                && tracks[j].packaging == Some(TrackPackaging::Mmtp) && tracks[i].alt_group is Some
                && tracks[i].alt_group == tracks[j].alt_group ==> group_ticks(tracks[i])
                * tracks[j].timescale->0 == group_ticks(tracks[j]) * tracks[i].timescale->0),
{
    let n = tracks.len();
    let check = switching_check(tracks);
    if first_failure(n, check) is None {
        assert forall|i: int, j: int|
            #![trigger tracks[i], tracks[j]]
            0 <= i < j < tracks.len() && tracks[i].packaging == Some(TrackPackaging::Mmtp)
                && tracks[j].packaging == Some(TrackPackaging::Mmtp) && tracks[i].alt_group is Some
                && tracks[i].alt_group == tracks[j].alt_group implies group_ticks(tracks[i])
            * tracks[j].timescale->0 == group_ticks(tracks[j]) * tracks[i].timescale->0 by {
            lemma_valid_tracks_are_aligned(tracks, i, j);
        }
    } else {
        law_first_failure_decides(n, check);
        let i = choose|i: int| 0 <= i < n && (#[trigger] check(i)) is Some;
        assert(switching_error(tracks, i) is Some);
        let g = tracks[i].alt_group->0;
        lemma_anchor(tracks, g, i as nat);
        let a = anchor(tracks, g, i as nat)->0;
        assert(!same_duration(tracks[i], tracks[a]));
    }
}

/// A network source is valid exactly where an AMT relay, if named, has a name,
/// and its port, if given, is not zero; and where an ATSC 3.0 source has a
/// frequency, a pipe below 64 and a URL.
pub proof fn law_network_source_is_valid_exactly_when(source: NetworkSource, sls_uri_is_url: bool)
    ensures
        (source_error(source, sls_uri_is_url) is None) == match source {
            NetworkSource::Amt { relay, port, .. } => {
                &&& relay is None || relay->0@.len() > 0
                &&& port is None || port->0 > 0
            },
            NetworkSource::Atsc3 { frequency, plp_id, .. } => {
                &&& frequency > 0
                &&& plp_id < 64
                &&& sls_uri_is_url
            },
        },
        source matches NetworkSource::Atsc3 { sls_uri, .. } ==> sls_uri_ok(source) == is_url(
            sls_uri@,
        ),
        source is Amt ==> sls_uri_ok(source),
{
}

/// An endpoint, with its references, is valid exactly where it has a group
/// address, a port, and references; a source address, if given, is not empty, and
/// is given where the protocol is SSM or left out; the bandwidth, if given, is
/// not zero; and every reference names a track of the catalog, no two of them
/// under one packet id. So nothing more is asked of an endpoint of another
/// protocol than SSM: it needs no source address.
pub proof fn law_endpoint_is_valid_exactly_when(
    tracks: Seq<Track>,
    endpoints: Seq<MulticastEndpoint>,
    e: int,
)
    ensures
        (endpoint_check(tracks, endpoints)(e) is None) == {
            let endpoint = endpoints[e];
            let refs = endpoint.tracks@;
            &&& endpoint.group_address@.len() > 0
            &&& endpoint.port > 0
            &&& refs.len() > 0
            &&& endpoint.source_address matches Some(s) ==> s@.len() > 0
            &&& endpoint.source_address is None ==> {
                ||| endpoint.protocol == Some(MulticastProtocol::Asm)
                ||| endpoint.protocol == Some(MulticastProtocol::Amt)
                ||| endpoint.protocol == Some(MulticastProtocol::Atsc3)
            }
            &&& endpoint.bandwidth matches Some(b) ==> b > 0
            &&& forall|i: int|
                0 <= i < refs.len() ==> {
                    &&& (#[trigger] refs[i]).name@.len() > 0
                    &&& exists|t: int|
                        0 <= t < tracks.len() && (#[trigger] tracks[t]).name@ == refs[i].name@
                }
            &&& forall|i: int, j: int|
                0 <= i < j < refs.len() ==> (#[trigger] refs[i]).packet_id != (
                #[trigger] refs[j]).packet_id
        },
{
    let endpoint = endpoints[e];
    let refs = endpoint.tracks@;
    let check = reference_check(tracks, refs);
    let whole = endpoint_check(tracks, endpoints);
    assert(whole(e) == match endpoint_error(endpoint) {
        Some(reason) => Some(CatalogValidationError::InvalidMulticast(reason)),
        None => first_failure(refs.len(), check),
    });
    if endpoint.protocol is Some {
        match endpoint.protocol->0 {
            MulticastProtocol::Ssm => {},
            MulticastProtocol::Asm => {},
            MulticastProtocol::Amt => {},
            MulticastProtocol::Atsc3 => {},
        }
    }
    assert((endpoint_error(endpoint) is None) == ({
        &&& endpoint.group_address@.len() > 0
        &&& endpoint.port > 0
        &&& refs.len() > 0
        &&& endpoint.source_address matches Some(s) ==> s@.len() > 0
        &&& endpoint.source_address is None ==> {
            ||| endpoint.protocol == Some(MulticastProtocol::Asm)
            ||| endpoint.protocol == Some(MulticastProtocol::Amt)
            ||| endpoint.protocol == Some(MulticastProtocol::Atsc3)
        }
        &&& endpoint.bandwidth matches Some(b) ==> b > 0
    }));
    law_first_failure_decides(refs.len(), check);
    if first_failure(refs.len(), check) is None {
        assert forall|i: int| 0 <= i < refs.len() implies (#[trigger] refs[i]).name@.len() > 0
            && exists|t: int|
            0 <= t < tracks.len() && (#[trigger] tracks[t]).name@ == refs[i].name@ by {
            assert(check(i) is None);
            assert(has_track(tracks, refs[i].name@));
        }
        assert forall|i: int, j: int| 0 <= i < j < refs.len() implies (#[trigger] refs[i]).packet_id
            != (#[trigger] refs[j]).packet_id by {
            assert(check(j) is None);
            lemma_first_with_id_none(refs, refs[j].packet_id, j as nat, i);
        }
    } else {
        let i = choose|i: int| 0 <= i < refs.len() && (#[trigger] check(i)) is Some;
        assert(reference_error(tracks, refs, i) is Some);
        if refs[i].name@.len() > 0 && has_track(tracks, refs[i].name@) {
            lemma_first_with_id(refs, refs[i].packet_id, i as nat);
            let first = first_with_id(refs, refs[i].packet_id, i as nat)->0;
            assert(refs[first].packet_id == refs[i].packet_id);
        } else {
            assert(!(refs[i].name@.len() > 0 && exists|t: int|
                0 <= t < tracks.len() && (#[trigger] tracks[t]).name@ == refs[i].name@));
        }
    }
}

proof fn lemma_first_with_id(refs: Seq<MulticastTrackRef>, packet_id: u16, n: nat)
    ensures
        first_with_id(refs, packet_id, n) matches Some(i) ==> 0 <= i < n && refs[i].packet_id
            == packet_id && forall|j: int|
            0 <= j < i ==> (#[trigger] refs[j]).packet_id != packet_id,
        first_with_id(refs, packet_id, n) is None ==> forall|j: int|
            0 <= j < n ==> (#[trigger] refs[j]).packet_id != packet_id,
    decreases n,
{
    if n > 0 {
        lemma_first_with_id(refs, packet_id, (n - 1) as nat);
    }
}

/// An error of a reference names the reference, and for a packet id that is
/// shared the first reference that has it.
pub proof fn law_reference_error_names_its_cause(
    tracks: Seq<Track>,
    refs: Seq<MulticastTrackRef>,
    i: int,
)
    requires
        0 <= i < refs.len(),
    ensures
        match reference_error(tracks, refs, i) {
            None => true,
            Some(CatalogValidationError::UnknownTrackReference { track_name }) => {
                &&& track_name == refs[i].name
                &&& refs[i].name@.len() == 0 || forall|t: int|
                    0 <= t < tracks.len() ==> (#[trigger] tracks[t]).name@ != refs[i].name@
            },
            Some(
                CatalogValidationError::DuplicatePacketId {
                    packet_id,
                    first_track,
                    duplicate_track,
                },
            ) => {
                &&& packet_id == refs[i].packet_id
                &&& duplicate_track == refs[i].name
                &&& exists|j: int|
                    {
                        &&& 0 <= j < i
                        &&& (#[trigger] refs[j]).packet_id == packet_id
                        &&& first_track == refs[j].name
                        &&& forall|k: int| 0 <= k < j ==> (#[trigger] refs[k]).packet_id
                            != packet_id
                    }
            },
            Some(_) => false,
        },
{
    lemma_first_with_id(refs, refs[i].packet_id, i as nat);
}

/// The multicast part of a catalog is valid exactly where it has endpoints, all
/// valid, and network sources that are valid, where it has any.
pub proof fn law_multicast_is_valid_exactly_when(tracks: Seq<Track>, multicast: MulticastConfig)
    ensures
        (multicast_error(tracks, multicast) is None) == {
            &&& multicast.endpoints matches Some(endpoints) && endpoints@.len() > 0 && (forall|
                e: int,
            |
                #![trigger endpoints@[e]]
                0 <= e < endpoints@.len() ==> endpoint_check(tracks, endpoints@)(e) is None)
            &&& multicast.network_source matches Some(sources) ==> sources@.len() > 0 && (forall|
                i: int,
            |
                #![trigger sources@[i]]
                0 <= i < sources@.len() ==> source_error(
                    sources@[i],
                    sls_uri_ok(sources@[i]),
                ) is None)
        },
{
    if let Some(endpoints) = multicast.endpoints {
        let check = endpoint_check(tracks, endpoints@);
        law_first_failure_decides(endpoints@.len(), check);
        assert forall|e: int| 0 <= e < endpoints@.len() && first_failure(
            endpoints@.len(),
            check,
        ) is None implies #[trigger] check(e) is None by {}
        if forall|e: int|
            #![trigger endpoints@[e]]
            0 <= e < endpoints@.len() ==> endpoint_check(tracks, endpoints@)(e) is None {
            assert forall|e: int| 0 <= e < endpoints@.len() implies (#[trigger] check(
                e,
            )) is None by {
                let _ = endpoints@[e];
            }
        }
    }
    if let Some(sources) = multicast.network_source {
        let check = source_check(sources@);
        law_first_failure_decides(sources@.len(), check);
        if first_failure(sources@.len(), check) is None {
            assert forall|i: int|
                #![trigger sources@[i]]
                0 <= i < sources@.len() implies source_error(
                sources@[i],
                sls_uri_ok(sources@[i]),
            ) is None by {
                assert(check(i) is None);
            }
        } else {
            let i = choose|i: int| 0 <= i < sources@.len() && (#[trigger] check(i)) is Some;
            assert(source_error(sources@[i], sls_uri_ok(sources@[i])) is Some);
        }
    }
}

/// A catalog is valid exactly where its head is in order, it has tracks, every
/// one of them valid, every protection refers to a repair track, the switching
/// sets are aligned, and its multicast part, where it has one, is valid.
pub proof fn law_catalog_is_valid_exactly_when(root: Root)
    ensures
        (catalog_error(root) is None) == {
            let tracks = root.tracks@;
            &&& root.version == 1
            &&& root.streaming_format@ == "mmtp"@
            &&& root.streaming_format_version@.len() > 0
            &&& tracks.len() > 0
            &&& forall|i: int|
                0 <= i < tracks.len() ==> track_error(#[trigger] tracks[i]) is None
            &&& forall|i: int|
                #![trigger tracks[i]]
                0 <= i < tracks.len() ==> fec_reference_error(tracks, i) is None
            &&& first_failure(tracks.len(), switching_check(tracks)) is None
            &&& root.multicast matches Some(m) ==> multicast_error(tracks, m) is None
        },
{
    let tracks = root.tracks@;
    let n = tracks.len();
    law_first_failure_decides(n, track_check(tracks));
    law_first_failure_decides(n, fec_reference_check(tracks));
    if first_failure(n, track_check(tracks)) is None {
        assert forall|i: int| 0 <= i < n implies track_error(#[trigger] tracks[i]) is None by {
            assert(track_check(tracks)(i) is None);
        }
    } else {
        let i = choose|i: int| 0 <= i < n && (#[trigger] track_check(tracks)(i)) is Some;
        assert(track_error(tracks[i]) is Some);
    }
    if first_failure(n, fec_reference_check(tracks)) is None {
        assert forall|i: int|
            #![trigger tracks[i]]
            0 <= i < n implies fec_reference_error(tracks, i) is None by {
            assert(fec_reference_check(tracks)(i) is None);
        }
    } else {
        let i = choose|i: int| 0 <= i < n && (#[trigger] fec_reference_check(tracks)(i)) is Some;
        assert(fec_reference_error(tracks, i) is Some);
        let _ = tracks[i];
    }
}

/// An endpoint that needs no source address needs none in a whole catalog
/// either: a catalog that is valid without its multicast part stays valid with
/// one such endpoint.
pub proof fn law_endpoint_without_source_is_accepted(root: Root, bare: Root, endpoint: MulticastEndpoint)
    requires
        bare == (Root { multicast: None, ..root }),
        catalog_error(bare) is None,
        root.multicast matches Some(m) && m.network_source is None && (m.endpoints matches Some(
            endpoints,
        ) && endpoints@ == seq![endpoint]),
        endpoint.group_address@.len() > 0,
        endpoint.port != 0,
        endpoint.tracks@.len() > 0,
        endpoint.protocol is Some,
        endpoint.protocol != Some(MulticastProtocol::Ssm),
        endpoint.source_address is None,
        endpoint.bandwidth != Some(0u64),
        forall|i: int|
            0 <= i < endpoint.tracks@.len() ==> {
                &&& (#[trigger] endpoint.tracks@[i]).name@.len() > 0
                &&& exists|t: int|
                    0 <= t < root.tracks@.len() && (#[trigger] root.tracks@[t]).name@
                        == endpoint.tracks@[i].name@
            },
        forall|i: int, j: int|
            0 <= i < j < endpoint.tracks@.len() ==> (#[trigger] endpoint.tracks@[i]).packet_id != (
            #[trigger] endpoint.tracks@[j]).packet_id,
    ensures
        catalog_error(root) is None,
{
    let tracks = root.tracks@;
    let endpoints = root.multicast->0.endpoints->0@;
    law_catalog_is_valid_exactly_when(bare);
    law_catalog_is_valid_exactly_when(root);
    law_multicast_is_valid_exactly_when(tracks, root.multicast->0);
    law_endpoint_is_valid_exactly_when(tracks, endpoints, 0);
    assert(endpoints[0] == endpoint);
    match endpoint.protocol->0 {
        MulticastProtocol::Ssm => {},
        MulticastProtocol::Asm => {},
        MulticastProtocol::Amt => {},
        MulticastProtocol::Atsc3 => {},
    }
    assert(endpoint_check(tracks, endpoints)(0) is None);
    assert(multicast_error(tracks, root.multicast->0) is None);
}

/// An error of a track says in words what is wrong with it.
pub proof fn law_track_error_says_why(track: Track)
    ensures
        track.name@.len() == 0 ==> {
            &&& track_error(track) matches Some(CatalogValidationError::InvalidTrack { reason, .. })
            &&& reason@ == "name must not be empty"@
        },
        track.name@.len() > 0 && track.packaging is None ==> {
            &&& track_error(track) matches Some(CatalogValidationError::InvalidTrack { reason, .. })
            &&& reason@ == "packaging is required"@
        },
        track.name@.len() > 0 && track.packaging == Some(TrackPackaging::FecRepair)
            && track.priority != Some(240u8) ==> {
            &&& track_error(track) matches Some(
                CatalogValidationError::InvalidRepairTrack { reason, .. },
            )
            &&& reason@ == "priority must be 240"@
        },
        track.name@.len() > 0 && track.packaging == Some(TrackPackaging::FecRepair)
            && track.priority == Some(240u8) && (track.mmtp_mode is Some || track.fec is Some
            || track.timescale is Some || track.group_duration_ms is Some
            || track.group_duration_ticks is Some) ==> {
            &&& track_error(track) matches Some(
                CatalogValidationError::InvalidRepairTrack { reason, .. },
            )
            &&& reason@ == "MMTP timing and fec fields are forbidden"@
        },
        track_error(track) matches Some(CatalogValidationError::InvalidFecParams { reason, .. })
            ==> {
            let fec = track.fec->0;
            let zero = fec.source_symbols == 0 || fec.repair_symbols == 0 || fec.symbol_size == 0;
            let uneven = fec.algorithm == FecAlgorithm::RaptorQ && fec.symbol_size % 8 != 0;
            &&& zero ==> reason@ == "symbol counts and symbolSize must be positive"@
            &&& !zero && uneven ==> reason@ == "RaptorQ symbolSize must be divisible by 8"@
            &&& !zero && !uneven ==> reason@
                == "interleaveDepthMs must be positive when present"@
        },
{
}

} // verus!
