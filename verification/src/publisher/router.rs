//! From a catalog to the tracks that a publisher opens.

use bytes::Bytes;
use vstd::prelude::*;

use crate::catalog::{MulticastEndpoint, MulticastTrackRef, Root, Track, TrackPackaging};
use crate::publisher::datagram::{
    handled, DatagramError, DatagramState, DatagramWrite, TrackDatagrams,
};
use crate::publisher::dispatch::{
    dispatch, dispatched, flowing, map_wf, DispatchError, TrackGroups, TrackState, TrackSubgroups,
};
use crate::publisher::parse::{route, routing_of, RouteError};
use crate::serve::datagram::Datagrams;
use crate::serve::object::{whole_object, SubgroupState, SubgroupView};
use crate::serve::subgroup::{Subgroup, Subgroups, SubgroupsState, SubgroupsWriter};
use crate::table::Table;
use crate::text::{decimal, push_decimal, push_text, str_eq};
use crate::wire::{bytes_as_slice, bytes_from_vec, bytes_view};

verus! {

/// How many groups, or datagrams, a published track retains.
pub const PUBLISHER_HISTORY_WINDOW: u64 = 32;

/// The priority of control objects.
pub const CONTROL_PRIORITY: u8 = 32;

/// The priority of media objects.
pub const SOURCE_PRIORITY: u8 = 128;

/// The tracks of a broadcast, by name, while somebody can read them.
pub struct TracksWriter {
    pub open: bool,
    pub names: Vec<String>,
}

/// Names as texts.
pub open spec fn texts(names: Seq<String>) -> Seq<Seq<char>> {
    names.map_values(|s: String| s@)
}

impl TracksWriter {
    pub fn new() -> (r: Self)
        ensures
            r.open,
            texts(r.names@) == Seq::<Seq<char>>::empty(),
    {
        let r = TracksWriter { open: true, names: Vec::new() };
        assert(texts(r.names@) =~= Seq::empty());
        r
    }

    /// Registers a track, while the broadcast is open.
    pub fn create(&mut self, name: &String) -> (r: bool)
        ensures
            r == old(self).open,
            final(self).open == old(self).open,
            texts(final(self).names@) == if r {
                texts(old(self).names@).push(name@)
            } else {
                texts(old(self).names@)
            },
    {
        if !self.open {
            return false;
        }
        self.names.push(name.clone());
        assert(texts(self.names@) =~= texts(old(self).names@).push(name@));
        true
    }

    /// Whether a track was registered.
    pub fn has(&self, name: &str) -> (r: bool)
        ensures
            r == texts(self.names@).contains(name@),
    {
        let mut i: usize = 0;
        while i < self.names.len()
            invariant
                i <= self.names@.len(),
                forall|j: int| 0 <= j < i ==> #[trigger] texts(self.names@)[j] != name@,
            decreases self.names@.len() - i,
        {
            assert(texts(self.names@)[i as int] == self.names@[i as int]@);
            if str_eq(self.names[i].as_str(), name) {
                return true;
            }
            i = i + 1;
        }
        false
    }
}

/// The repair track of a planned track.
pub struct RepairPlan {
    pub track: String,
    pub priority: u8,
}

/// A track that is to be published.
pub struct TrackPlan {
    pub name: String,
    pub priority: u8,
    pub timescale: u32,
    pub group_duration_ticks: u64,
    /// How many groups a protected block spreads over.
    pub repair_group_depth: u64,
    pub history_window: u64,
    pub repair: Option<RepairPlan>,
}

/// Why a catalog cannot be published.
#[derive(Debug, PartialEq, Eq)]
pub enum StateMapError {
    NoMulticast,
    NoDatagramMulticast,
    NoEndpoints,
    DuplicatePacketId { packet_id: u16, name: String },
    UnknownTrack { name: String },
    NoTimescale { name: String },
    ZeroTimescale { name: String },
    NoGroupDuration { name: String },
    ZeroGroupDuration { name: String },
    CreateFailed { name: String },
    CatalogFailed { name: String },
    NoDatagramTrack,
    SeveralDatagramTracks,
    NamespaceMismatch { track: String, namespace: String, broadcast: String },
}

impl StateMapError {
    /// The error in words.
    pub open spec fn message(self) -> Seq<char> {
        match self {
            StateMapError::NoMulticast => "catalog has no `multicast` extension — required for moq-pub-mmtp"@,
            StateMapError::NoDatagramMulticast => "catalog has no `multicast` extension — required for datagram publishing"@,
            StateMapError::NoEndpoints => "catalog.multicast.endpoints is missing"@,
            StateMapError::DuplicatePacketId { packet_id, name } => "duplicate packet_id "@
                + decimal(packet_id as nat) + " (used by track `"@ + name@
                + "` and a prior endpoint)"@,
            StateMapError::UnknownTrack { name } => "multicast endpoint references track `"@
                + name@ + "` not present in catalog.tracks"@,
            StateMapError::NoTimescale { name } => "catalog track `"@ + name@
                + "` has no effective timescale"@,
            StateMapError::ZeroTimescale { name } => "catalog track `"@ + name@
                + "` has invalid effective timescale 0; expected > 0"@,
            StateMapError::NoGroupDuration { name } => "catalog track `"@ + name@
                + "` has no effective group duration"@,
            StateMapError::ZeroGroupDuration { name } => "catalog track `"@ + name@
                + "` has invalid effective group duration 0 ticks; expected > 0"@,
            StateMapError::CreateFailed { name } => "TracksWriter::create returned None for `"@
                + name@ + "` (broadcast already closed?)"@,
            StateMapError::CatalogFailed { name } => "TracksWriter::create returned None for `"@
                + name@ + "`"@,
            StateMapError::NoDatagramTrack => "datagram router selected but no packaging=datagram track present"@,
            StateMapError::SeveralDatagramTracks => "datagram router supports exactly one packaging=datagram track"@,
            StateMapError::NamespaceMismatch { track, namespace, broadcast } => "catalog track `"@
                + track@ + "` namespace `"@ + namespace@ + "` disagrees with broadcast --name `"@
                + broadcast@ + "`"@,
        }
    }

    pub fn describe(&self) -> (r: String)
        ensures
            r@ == self.message(),
    {
        let mut out: String = String::new();
        match self {
            StateMapError::NoMulticast => {
                push_text(&mut out, "catalog has no `multicast` extension — required for moq-pub-mmtp");
            },
            StateMapError::NoDatagramMulticast => {
                push_text(&mut out, "catalog has no `multicast` extension — required for datagram publishing");
            },
            StateMapError::NoEndpoints => {
                push_text(&mut out, "catalog.multicast.endpoints is missing");
            },
            StateMapError::DuplicatePacketId { packet_id, name } => {
                push_text(&mut out, "duplicate packet_id ");
                push_decimal(&mut out, *packet_id as u64);
                push_text(&mut out, " (used by track `");
                push_text(&mut out, name.as_str());
                push_text(&mut out, "` and a prior endpoint)");
            },
            StateMapError::UnknownTrack { name } => {
                push_text(&mut out, "multicast endpoint references track `");
                push_text(&mut out, name.as_str());
                push_text(&mut out, "` not present in catalog.tracks");
            },
            StateMapError::NoTimescale { name } => {
                push_text(&mut out, "catalog track `");
                push_text(&mut out, name.as_str());
                push_text(&mut out, "` has no effective timescale");
            },
            StateMapError::ZeroTimescale { name } => {
                push_text(&mut out, "catalog track `");
                push_text(&mut out, name.as_str());
                push_text(&mut out, "` has invalid effective timescale 0; expected > 0");
            },
            StateMapError::NoGroupDuration { name } => {
                push_text(&mut out, "catalog track `");
                push_text(&mut out, name.as_str());
                push_text(&mut out, "` has no effective group duration");
            },
            StateMapError::ZeroGroupDuration { name } => {
                push_text(&mut out, "catalog track `");
                push_text(&mut out, name.as_str());
                push_text(&mut out, "` has invalid effective group duration 0 ticks; expected > 0");
            },
            StateMapError::CreateFailed { name } => {
                push_text(&mut out, "TracksWriter::create returned None for `");
                push_text(&mut out, name.as_str());
                push_text(&mut out, "` (broadcast already closed?)");
            },
            StateMapError::CatalogFailed { name } => {
                push_text(&mut out, "TracksWriter::create returned None for `");
                push_text(&mut out, name.as_str());
                push_text(&mut out, "`");
            },
            StateMapError::NoDatagramTrack => {
                push_text(&mut out, "datagram router selected but no packaging=datagram track present");
            },
            StateMapError::SeveralDatagramTracks => {
                push_text(&mut out, "datagram router supports exactly one packaging=datagram track");
            },
            StateMapError::NamespaceMismatch { track, namespace, broadcast } => {
                push_text(&mut out, "catalog track `");
                push_text(&mut out, track.as_str());
                push_text(&mut out, "` namespace `");
                push_text(&mut out, namespace.as_str());
                push_text(&mut out, "` disagrees with broadcast --name `");
                push_text(&mut out, broadcast.as_str());
                push_text(&mut out, "`");
            },
        }
        assert(out@ =~= self.message());
        out
    }
}

/// The first of the first `n` tracks that has a name.
pub open spec fn first_named(tracks: Seq<Track>, name: Seq<char>, n: nat) -> Option<int>
    decreases n,
{
    if n == 0 {
        None
    } else {
        match first_named(tracks, name, (n - 1) as nat) {
            Some(i) => Some(i),
            None => if tracks[n - 1].name@ == name {
                Some(n - 1)
            } else {
                None
            },
        }
    }
}

/// The track of a catalog that has a name.
pub open spec fn named(catalog: Root, name: Seq<char>) -> Option<int> {
    first_named(catalog.tracks@, name, catalog.tracks@.len())
}

proof fn lemma_first_named_stays(tracks: Seq<Track>, name: Seq<char>, k: nat, n: nat)
    requires
        k <= n,
        first_named(tracks, name, k) is Some,
    ensures
        first_named(tracks, name, n) == first_named(tracks, name, k),
    decreases n,
{
    if k < n {
        lemma_first_named_stays(tracks, name, k, (n - 1) as nat);
    }
}

/// The first track of a name, where there is one.
pub proof fn lemma_first_named(tracks: Seq<Track>, name: Seq<char>, n: nat)
    ensures
        match first_named(tracks, name, n) {
            Some(i) => 0 <= i < n && tracks[i].name@ == name && forall|j: int|
                0 <= j < i ==> (#[trigger] tracks[j]).name@ != name,
            None => forall|j: int| 0 <= j < n ==> (#[trigger] tracks[j]).name@ != name,
        },
    decreases n,
{
    if n > 0 {
        lemma_first_named(tracks, name, (n - 1) as nat);
    }
}

fn find_track(tracks: &Vec<Track>, name: &str) -> (r: Option<usize>)
    ensures
        match r {
            Some(i) => i < tracks@.len() && first_named(tracks@, name@, tracks@.len()) == Some(
                i as int,
            ),
            None => first_named(tracks@, name@, tracks@.len()) is None,
        },
{
    let mut i: usize = 0;
    while i < tracks.len()
        invariant
            i <= tracks@.len(),
            first_named(tracks@, name@, i as nat) is None,
        decreases tracks@.len() - i,
    {
        if str_eq(tracks[i].name.as_str(), name) {
            proof {
                lemma_first_named_stays(tracks@, name@, (i + 1) as nat, tracks@.len());
            }
            return Some(i);
        }
        i = i + 1;
    }
    None
}

/// Whether the protection of a track, where it has one, names a track that has
/// a priority.
pub open spec fn track_resolved(catalog: Root, track: Track) -> bool {
    track.fec matches Some(fec) ==> (named(catalog, fec.repair_track@) matches Some(j)
        && catalog.tracks@[j].priority is Some)
}

/// Whether a reference leads to a track whose protection is resolved, or to no
/// track that is planned.
pub open spec fn ref_resolved(catalog: Root, track_ref: MulticastTrackRef) -> bool {
    match named(catalog, track_ref.name@) {
        None => true,
        Some(i) => catalog.tracks@[i].packaging == Some(TrackPackaging::FecRepair)
            || track_resolved(catalog, catalog.tracks@[i]),
    }
}

/// Every protected track that an endpoint refers to names a track that has a
/// priority.
pub open spec fn repair_resolved(catalog: Root) -> bool {
    match catalog.multicast {
        None => true,
        Some(m) => match m.endpoints {
            None => true,
            Some(endpoints) => forall|e: int, i: int|
                0 <= e < endpoints@.len() && 0 <= i < endpoints@[e].tracks@.len() ==> ref_resolved(
                    catalog,
                    #[trigger] endpoints@[e].tracks@[i],
                ),
        },
    }
}

/// Whether a catalog has a datagram track.
pub open spec fn has_datagram_track(catalog: Root) -> bool {
    exists|i: int| 0 <= i < catalog.tracks@.len() && is_datagram(#[trigger] catalog.tracks@[i])
}

/// A router can be built: opaque datagrams need no protection, and MMTP tracks
/// have theirs resolved.
pub open spec fn routable(catalog: Root) -> bool {
    has_datagram_track(catalog) || repair_resolved(catalog)
}

/// Tells whether a catalog has a datagram track.
fn carries_datagrams(catalog: &Root) -> (r: bool)
    ensures
        r == has_datagram_track(*catalog),
{
    let mut i: usize = 0;
    while i < catalog.tracks.len()
        invariant
            i <= catalog.tracks@.len(),
            forall|j: int| 0 <= j < i ==> !is_datagram(#[trigger] catalog.tracks@[j]),
        decreases catalog.tracks@.len() - i,
    {
        if matches!(catalog.tracks[i].packaging, Some(TrackPackaging::Datagram)) {
            assert(is_datagram(catalog.tracks@[i as int]));
            return true;
        }
        i = i + 1;
    }
    false
}

/// Tells whether a reference is resolved.
fn is_ref_resolved(catalog: &Root, track_ref: &MulticastTrackRef) -> (r: bool)
    ensures
        r == ref_resolved(*catalog, *track_ref),
{
    let tracks: &Vec<Track> = &catalog.tracks;
    match find_track(tracks, track_ref.name.as_str()) {
        None => true,
        Some(i) => if matches!(tracks[i].packaging, Some(TrackPackaging::FecRepair)) {
            true
        } else {
            match &tracks[i].fec {
                None => true,
                Some(fec) => match find_track(tracks, fec.repair_track.as_str()) {
                    Some(j) => tracks[j].priority.is_some(),
                    None => false,
                },
            }
        },
    }
}

/// Tells whether every protected track that an endpoint refers to names a track
/// that has a priority.
pub fn repair_is_resolved(catalog: &Root) -> (r: bool)
    ensures
        r == repair_resolved(*catalog),
{
    let endpoints: &Vec<MulticastEndpoint> = match &catalog.multicast {
        None => {
            return true;
        },
        Some(multicast) => match &multicast.endpoints {
            None => {
                return true;
            },
            Some(endpoints) => endpoints,
        },
    };
    let mut e: usize = 0;
    while e < endpoints.len()
        invariant
            catalog.multicast matches Some(m) && m.endpoints == Some(*endpoints),
            e <= endpoints@.len(),
            forall|a: int, b: int|
                0 <= a < e && 0 <= b < endpoints@[a].tracks@.len() ==> ref_resolved(
                    *catalog,
                    #[trigger] endpoints@[a].tracks@[b],
                ),
        decreases endpoints@.len() - e,
    {
        let refs: &Vec<MulticastTrackRef> = &endpoints[e].tracks;
        let mut i: usize = 0;
        while i < refs.len()
            invariant
                catalog.multicast matches Some(m) && m.endpoints == Some(*endpoints),
                e < endpoints@.len(),
                *refs == endpoints@[e as int].tracks,
                i <= refs@.len(),
                forall|b: int| 0 <= b < i ==> ref_resolved(*catalog, #[trigger] refs@[b]),
            decreases refs@.len() - i,
        {
            if !is_ref_resolved(catalog, &refs[i]) {
                assert(!ref_resolved(*catalog, endpoints@[e as int].tracks@[i as int]));
                return false;
            }
            i = i + 1;
        }
        e = e + 1;
    }
    true
}

/// Tells whether a router can be built.
pub fn is_routable(catalog: &Root) -> (r: bool)
    ensures
        r == routable(*catalog),
{
    carries_datagrams(catalog) || repair_is_resolved(catalog)
}

/// A valid catalog that names no track twice resolves its repair tracks.
pub proof fn law_valid_catalog_resolves_repair(catalog: Root)
    requires
        crate::catalog::catalog_error(catalog) is None,
        forall|i: int, j: int|
            0 <= i < j < catalog.tracks@.len() ==> (#[trigger] catalog.tracks@[i]).name@ != (
            #[trigger] catalog.tracks@[j]).name@,
    ensures
        repair_resolved(catalog),
{
    let tracks = catalog.tracks@;
    assert forall|i: int| 0 <= i < tracks.len() && (#[trigger] tracks[i]).fec
        is Some implies track_resolved(catalog, tracks[i]) by {
        let name = tracks[i].fec->0.repair_track@;
        crate::catalog::law_valid_repair_reference(catalog, i);
        let k = choose|k: int|
            0 <= k < tracks.len() && (#[trigger] tracks[k]).name@ == name && tracks[k].packaging
                == Some(TrackPackaging::FecRepair) && tracks[k].priority == Some(
                crate::catalog::REPAIR_PRIORITY,
            );
        lemma_first_named(tracks, name, tracks.len());
        let j = named(catalog, name)->0;
        assert(tracks[j].name@ == tracks[k].name@);
        if j < k {
            assert(tracks[j].name@ != tracks[k].name@);
        } else if k < j {
            assert(tracks[k].name@ != tracks[j].name@);
        }
    }
    assert forall|track_ref: MulticastTrackRef| #[trigger] ref_resolved(catalog, track_ref) by {
        lemma_first_named(tracks, track_ref.name@, tracks.len());
    }
}

/// A quotient, rounded up.
pub open spec fn ceil_div(numerator: nat, denominator: nat) -> nat {
    ((numerator + denominator - 1) / denominator as int) as nat
}

pub fn ceil_div_u128(numerator: u128, denominator: u128) -> (r: u128)
    requires
        denominator > 0,
        numerator + denominator - 1 <= u128::MAX,
    ensures
        r == ceil_div(numerator as nat, denominator as nat),
        r * denominator >= numerator,
        (r - 1) * denominator < numerator,
{
    let r: u128 = (numerator + (denominator - 1)) / denominator;
    proof {
        let n = numerator as int;
        let d = denominator as int;
        let q = (n + d - 1) / d;
        vstd::arithmetic::div_mod::lemma_fundamental_div_mod(n + d - 1, d);
        assert(d * q == q * d) by (nonlinear_arith);
        assert((q - 1) * d == q * d - d) by (nonlinear_arith);
    }
    r
}

/// The duration of a track's groups in ticks, where it is given in either way.
pub open spec fn effective_ticks(track: Track, timescale: u32) -> Option<u64> {
    match track.group_duration_ticks {
        Some(ticks) => Some(ticks),
        None => match track.group_duration_ms {
            Some(ms) => Some((ms * timescale / 1000) as u64),
            None => None,
        },
    }
}

/// How many groups a protected block spreads over: enough for its interleaving
/// depth, and at least one.
pub open spec fn group_depth(track: Track, timescale: u32, ticks: u64) -> u64 {
    match track.fec {
        Some(fec) => match fec.interleave_depth_ms {
            Some(depth_ms) => {
                let n = ceil_div((depth_ms * timescale) as nat, (ticks * 1000) as nat);
                if n < 1 {
                    1
                } else {
                    n as u64
                }
            },
            None => 1,
        },
        None => 1,
    }
}

/// The plan for a track of a catalog.
pub open spec fn plan_of(
    catalog: Root,
    track: Track,
    name: String,
    timescale: u32,
    ticks: u64,
) -> TrackPlan {
    TrackPlan {
        name,
        priority: SOURCE_PRIORITY,
        timescale,
        group_duration_ticks: ticks,
        repair_group_depth: group_depth(track, timescale, ticks),
        history_window: PUBLISHER_HISTORY_WINDOW,
        repair: match track.fec {
            None => None,
            Some(fec) => Some(
                RepairPlan {
                    track: fec.repair_track,
                    priority: catalog.tracks@[named(
                        catalog,
                        fec.repair_track@,
                    )->0].priority->0,
                },
            ),
        },
    }
}

/// What a reference of an endpoint comes to: a plan, nothing for a repair
/// track, or an error.
pub open spec fn plan_ref(
    catalog: Root,
    taken: Set<u64>,
    track_ref: MulticastTrackRef,
    open: bool,
) -> Result<Option<TrackPlan>, StateMapError> {
    let name = track_ref.name;
    if taken.contains(track_ref.packet_id as u64) {
        Err(StateMapError::DuplicatePacketId { packet_id: track_ref.packet_id, name })
    } else {
        match named(catalog, name@) {
            None => Err(StateMapError::UnknownTrack { name }),
            Some(i) => {
                let track = catalog.tracks@[i];
                if track.packaging == Some(TrackPackaging::FecRepair) {
                    Ok(None)
                } else {
                    match track.timescale {
                        None => Err(StateMapError::NoTimescale { name }),
                        Some(timescale) => if timescale == 0 {
                            Err(StateMapError::ZeroTimescale { name })
                        } else {
                            match effective_ticks(track, timescale) {
                                None => Err(StateMapError::NoGroupDuration { name }),
                                Some(ticks) => if ticks == 0 {
                                    Err(StateMapError::ZeroGroupDuration { name })
                                } else if !open {
                                    Err(StateMapError::CreateFailed { name })
                                } else {
                                    Ok(Some(plan_of(catalog, track, name, timescale, ticks)))
                                },
                            }
                        },
                    }
                }
            },
        }
    }
}

/// The tracks that a plan registers.
pub open spec fn names_of(plan: TrackPlan) -> Seq<Seq<char>> {
    match plan.repair {
        None => seq![plan.name@],
        Some(repair) => seq![plan.name@, repair.track@],
    }
}

/// What planning has come to.
pub ghost struct Planned {
    pub map: Map<u64, TrackPlan>,
    pub names: Seq<Seq<char>>,
    pub error: Option<StateMapError>,
}

/// Planning goes on with the first `n` references of a list, up to the first
/// error.
pub open spec fn planned_refs(
    start: Planned,
    catalog: Root,
    refs: Seq<MulticastTrackRef>,
    n: nat,
    open: bool,
) -> Planned
    decreases n,
{
    if n == 0 {
        start
    } else {
        let p = planned_refs(start, catalog, refs, (n - 1) as nat, open);
        if p.error is Some {
            p
        } else {
            match plan_ref(catalog, p.map.dom(), refs[n - 1], open) {
                Err(e) => Planned { error: Some(e), ..p },
                Ok(None) => p,
                Ok(Some(plan)) => Planned {
                    map: p.map.insert(refs[n - 1].packet_id as u64, plan),
                    names: p.names + names_of(plan),
                    ..p
                },
            }
        }
    }
}

/// Planning the first `n` endpoints.
pub open spec fn planned_endpoints(
    catalog: Root,
    endpoints: Seq<MulticastEndpoint>,
    n: nat,
    open: bool,
) -> Planned
    decreases n,
{
    if n == 0 {
        Planned { map: Map::empty(), names: Seq::empty(), error: None }
    } else {
        planned_refs(
            planned_endpoints(catalog, endpoints, (n - 1) as nat, open),
            catalog,
            endpoints[n - 1].tracks@,
            endpoints[n - 1].tracks@.len(),
            open,
        )
    }
}

proof fn lemma_error_stays_refs(
    start: Planned,
    catalog: Root,
    refs: Seq<MulticastTrackRef>,
    k: nat,
    n: nat,
    open: bool,
)
    requires
        k <= n,
        planned_refs(start, catalog, refs, k, open).error is Some,
    ensures
        planned_refs(start, catalog, refs, n, open) == planned_refs(
            start,
            catalog,
            refs,
            k,
            open,
        ),
    decreases n,
{
    if k < n {
        lemma_error_stays_refs(start, catalog, refs, k, (n - 1) as nat, open);
    }
}

proof fn lemma_error_stays(
    catalog: Root,
    endpoints: Seq<MulticastEndpoint>,
    k: nat,
    n: nat,
    open: bool,
)
    requires
        k <= n,
        planned_endpoints(catalog, endpoints, k, open).error is Some,
    ensures
        planned_endpoints(catalog, endpoints, n, open) == planned_endpoints(
            catalog,
            endpoints,
            k,
            open,
        ),
    decreases n,
{
    if k < n {
        lemma_error_stays(catalog, endpoints, k, (n - 1) as nat, open);
        let p = planned_endpoints(catalog, endpoints, (n - 1) as nat, open);
        let refs = endpoints[n - 1].tracks@;
        assert(planned_refs(p, catalog, refs, 0, open) == p);
        lemma_error_stays_refs(p, catalog, refs, 0, refs.len(), open);
    }
}

/// Registers the track that a reference names, where it is to be published.
fn plan_reference(
    tracks_writer: &mut TracksWriter,
    catalog: &Root,
    track_ref: &MulticastTrackRef,
    map: &mut Table<TrackPlan>,
) -> (r: Result<(), StateMapError>)
    requires
        ref_resolved(*catalog, *track_ref),
    ensures
        final(tracks_writer).open == old(tracks_writer).open,
        match plan_ref(*catalog, old(map)@.dom(), *track_ref, old(tracks_writer).open) {
            Err(e) => {
                &&& r == Err::<(), StateMapError>(e)
                &&& final(map)@ == old(map)@
                &&& texts(final(tracks_writer).names@) == texts(old(tracks_writer).names@)
            },
            Ok(None) => {
                &&& r == Ok::<(), StateMapError>(())
                &&& final(map)@ == old(map)@
                &&& texts(final(tracks_writer).names@) == texts(old(tracks_writer).names@)
            },
            Ok(Some(plan)) => {
                &&& r == Ok::<(), StateMapError>(())
                &&& final(map)@ == old(map)@.insert(track_ref.packet_id as u64, plan)
                &&& texts(final(tracks_writer).names@) == texts(old(tracks_writer).names@)
                    + names_of(plan)
            },
        },
{
    if map.contains_key(track_ref.packet_id as u64) {
        return Err(
            StateMapError::DuplicatePacketId {
                packet_id: track_ref.packet_id,
                name: track_ref.name.clone(),
            },
        );
    }
    let track: &Track = match find_track(&catalog.tracks, track_ref.name.as_str()) {
        Some(i) => &catalog.tracks[i],
        None => {
            return Err(StateMapError::UnknownTrack { name: track_ref.name.clone() });
        },
    };
    if matches!(track.packaging, Some(TrackPackaging::FecRepair)) {
        return Ok(());
    }
    let timescale: u32 = match track.timescale {
        Some(timescale) => timescale,
        None => {
            return Err(StateMapError::NoTimescale { name: track_ref.name.clone() });
        },
    };
    if timescale == 0 {
        return Err(StateMapError::ZeroTimescale { name: track_ref.name.clone() });
    }
    let ticks: u64 = match track.group_duration_ticks {
        Some(ticks) => ticks,
        None => match track.group_duration_ms {
            Some(ms) => {
                assert(ms as int * timescale as int <= 0xffff_ffff * 0xffff_ffff)
                    by (nonlinear_arith)
                    requires
                        ms <= 0xffff_ffff,
                        timescale <= 0xffff_ffff,
                ;
                ms as u64 * timescale as u64 / 1000
            },
            None => {
                return Err(StateMapError::NoGroupDuration { name: track_ref.name.clone() });
            },
        },
    };
    if ticks == 0 {
        return Err(StateMapError::ZeroGroupDuration { name: track_ref.name.clone() });
    }
    let repair_group_depth: u64 = depth_of(track, timescale, ticks);
    if !tracks_writer.create(&track_ref.name) {
        return Err(StateMapError::CreateFailed { name: track_ref.name.clone() });
    }
    let repair: Option<RepairPlan> = match &track.fec {
        None => None,
        Some(fec) => {
            let priority: u8 = match find_track(&catalog.tracks, fec.repair_track.as_str()) {
                Some(j) => match catalog.tracks[j].priority {
                    Some(priority) => priority,
                    None => 0,
                },
                None => 0,
            };
            if !tracks_writer.create(&fec.repair_track) {
                return Err(StateMapError::CreateFailed { name: fec.repair_track.clone() });
            }
            Some(RepairPlan { track: fec.repair_track.clone(), priority })
        },
    };
    let plan = TrackPlan {
        name: track_ref.name.clone(),
        priority: SOURCE_PRIORITY,
        timescale,
        group_duration_ticks: ticks,
        repair_group_depth,
        history_window: PUBLISHER_HISTORY_WINDOW,
        repair,
    };
    assert(texts(tracks_writer.names@) =~= texts(old(tracks_writer).names@) + names_of(plan));
    let _ = map.insert(track_ref.packet_id as u64, plan);
    Ok(())
}

fn depth_of(track: &Track, timescale: u32, ticks: u64) -> (r: u64)
    requires
        ticks > 0,
    ensures
        r == group_depth(*track, timescale, ticks),
{
    match &track.fec {
        Some(fec) => match fec.interleave_depth_ms {
            Some(depth_ms) => {
                proof {
                    let a = depth_ms as int;
                    let b = timescale as int;
                    assert(0 <= a * b <= 0xffff_ffff * 0xffff_ffff) by (nonlinear_arith)
                        requires
                            0 <= a <= 0xffff_ffff,
                            0 <= b <= 0xffff_ffff,
                    ;
                }
                let numerator: u128 = depth_ms as u128 * timescale as u128;
                let denominator: u128 = ticks as u128 * 1000;
                let n: u128 = ceil_div_u128(numerator, denominator);
                proof {
                    let q = n as int;
                    let d = denominator as int;
                    assert(q <= numerator + 1) by (nonlinear_arith)
                        requires
                            (q - 1) * d < numerator,
                            d >= 1,
                            numerator >= 0,
                    ;
                }
                if n < 1 {
                    1
                } else {
                    n as u64
                }
            },
            None => 1,
        },
        None => 1,
    }
}

/// Plans the tracks that a catalog's endpoints name, and registers them.
pub fn build_state_map(tracks_writer: &mut TracksWriter, catalog: &Root) -> (r: Result<
    Table<TrackPlan>,
    StateMapError,
>)
    requires
        repair_resolved(*catalog),
    ensures
        final(tracks_writer).open == old(tracks_writer).open,
        match catalog.multicast {
            None => {
                &&& r matches Err(e)
                &&& e == StateMapError::NoMulticast
                &&& texts(final(tracks_writer).names@) == texts(old(tracks_writer).names@)
            },
            Some(m) => match m.endpoints {
                None => {
                    &&& r matches Err(e)
                    &&& e == StateMapError::NoEndpoints
                    &&& texts(final(tracks_writer).names@) == texts(old(tracks_writer).names@)
                },
                Some(endpoints) => {
                    let p = planned_endpoints(
                        *catalog,
                        endpoints@,
                        endpoints@.len(),
                        old(tracks_writer).open,
                    );
                    &&& match p.error {
                        Some(e) => r matches Err(x) && x == e,
                        None => r matches Ok(map) && map@ == p.map,
                    }
                    &&& texts(final(tracks_writer).names@) == texts(old(tracks_writer).names@)
                        + p.names
                },
            },
        },
{
    let endpoints: &Vec<MulticastEndpoint> = match &catalog.multicast {
        None => {
            return Err(StateMapError::NoMulticast);
        },
        Some(multicast) => match &multicast.endpoints {
            None => {
                return Err(StateMapError::NoEndpoints);
            },
            Some(endpoints) => endpoints,
        },
    };
    let ghost open = tracks_writer.open;
    let ghost before = texts(tracks_writer.names@);
    let mut map: Table<TrackPlan> = Table::new();
    let mut e: usize = 0;
    assert(before + Seq::<Seq<char>>::empty() =~= before);
    while e < endpoints.len()
        invariant
            repair_resolved(*catalog),
            catalog.multicast matches Some(m) && m.endpoints == Some(*endpoints),
            open == old(tracks_writer).open,
            before == texts(old(tracks_writer).names@),
            tracks_writer.open == open,
            e <= endpoints@.len(),
            ({
                let p = planned_endpoints(*catalog, endpoints@, e as nat, open);
                &&& p.error is None
                &&& map@ == p.map
                &&& texts(tracks_writer.names@) == before + p.names
            }),
        decreases endpoints@.len() - e,
    {
        let refs: &Vec<MulticastTrackRef> = &endpoints[e].tracks;
        let ghost start = planned_endpoints(*catalog, endpoints@, e as nat, open);
        let mut i: usize = 0;
        while i < refs.len()
            invariant
                repair_resolved(*catalog),
                catalog.multicast matches Some(m) && m.endpoints == Some(*endpoints),
                open == old(tracks_writer).open,
                before == texts(old(tracks_writer).names@),
                tracks_writer.open == open,
                e < endpoints@.len(),
                *refs == endpoints@[e as int].tracks,
                start == planned_endpoints(*catalog, endpoints@, e as nat, open),
                i <= refs@.len(),
                ({
                    let p = planned_refs(start, *catalog, refs@, i as nat, open);
                    &&& p.error is None
                    &&& map@ == p.map
                    &&& texts(tracks_writer.names@) == before + p.names
                }),
            decreases refs@.len() - i,
        {
            let ghost p = planned_refs(start, *catalog, refs@, i as nat, open);
            assert(ref_resolved(*catalog, endpoints@[e as int].tracks@[i as int]));
            match plan_reference(tracks_writer, catalog, &refs[i], &mut map) {
                Ok(()) => {},
                Err(error) => {
                    proof {
                        lemma_error_stays_refs(
                            start,
                            *catalog,
                            refs@,
                            (i + 1) as nat,
                            refs@.len(),
                            open,
                        );
                        lemma_error_stays(
                            *catalog,
                            endpoints@,
                            (e + 1) as nat,
                            endpoints@.len(),
                            open,
                        );
                    }
                    return Err(error);
                },
            }
            proof {
                let q = planned_refs(start, *catalog, refs@, (i + 1) as nat, open);
                if let Ok(Some(plan)) = plan_ref(*catalog, p.map.dom(), refs@[i as int], open) {
                    assert(before + (p.names + names_of(plan)) =~= (before + p.names) + names_of(
                        plan,
                    ));
                }
                assert(texts(tracks_writer.names@) =~= before + q.names);
            }
            i = i + 1;
        }
        e = e + 1;
    }
    Ok(map)
}

/// A single stream of datagrams that is to be published.
pub struct DatagramPlan {
    pub name: String,
    pub priority: u8,
    pub history_window: u64,
}

/// Whether a track carries opaque datagrams.
pub open spec fn is_datagram(track: Track) -> bool {
    track.packaging == Some(TrackPackaging::Datagram)
}

/// The first of the first `n` tracks that carries opaque datagrams.
pub open spec fn first_datagram(tracks: Seq<Track>, n: nat) -> Option<int>
    decreases n,
{
    if n == 0 {
        None
    } else {
        match first_datagram(tracks, (n - 1) as nat) {
            Some(i) => Some(i),
            None => if is_datagram(tracks[n - 1]) {
                Some(n - 1)
            } else {
                None
            },
        }
    }
}

proof fn lemma_first_datagram_stays(tracks: Seq<Track>, k: nat, n: nat)
    requires
        k <= n,
        first_datagram(tracks, k) is Some,
    ensures
        first_datagram(tracks, n) == first_datagram(tracks, k),
    decreases n,
{
    if k < n {
        lemma_first_datagram_stays(tracks, k, (n - 1) as nat);
    }
}

/// What a catalog's datagram track comes to.
pub open spec fn datagram_plan(catalog: Root, open: bool) -> Result<int, StateMapError> {
    let tracks = catalog.tracks@;
    match first_datagram(tracks, tracks.len()) {
        None => Err(StateMapError::NoDatagramTrack),
        Some(i) => if exists|j: int| i < j < tracks.len() && is_datagram(#[trigger] tracks[j]) {
            Err(StateMapError::SeveralDatagramTracks)
        } else if catalog.multicast is None {
            Err(StateMapError::NoDatagramMulticast)
        } else if !open {
            Err(StateMapError::CreateFailed { name: tracks[i].name })
        } else {
            Ok(i)
        },
    }
}

/// Plans the one datagram track of a catalog, and registers it.
pub fn build_datagram_state(tracks_writer: &mut TracksWriter, catalog: &Root) -> (r: Result<
    DatagramPlan,
    StateMapError,
>)
    ensures
        final(tracks_writer).open == old(tracks_writer).open,
        match datagram_plan(*catalog, old(tracks_writer).open) {
            Err(e) => {
                &&& r matches Err(x)
                &&& x == e
                &&& texts(final(tracks_writer).names@) == texts(old(tracks_writer).names@)
            },
            Ok(i) => {
                let name = catalog.tracks@[i].name;
                &&& r matches Ok(plan)
                &&& plan.name == name
                &&& plan.priority == 0
                &&& plan.history_window == PUBLISHER_HISTORY_WINDOW
                &&& texts(final(tracks_writer).names@) == texts(old(tracks_writer).names@).push(
                    name@,
                )
            },
        },
{
    let tracks: &Vec<Track> = &catalog.tracks;
    let mut first: Option<usize> = None;
    let mut i: usize = 0;
    while i < tracks.len()
        invariant
            *tracks == catalog.tracks,
            *tracks_writer == *old(tracks_writer),
            i <= tracks@.len(),
            match first {
                None => first_datagram(tracks@, i as nat) is None,
                Some(f) => f < i && first_datagram(tracks@, i as nat) == Some(f as int) && forall|
                    j: int,
                |
                    f < j < i ==> !is_datagram(#[trigger] tracks@[j]),
            },
        decreases tracks@.len() - i,
    {
        if matches!(tracks[i].packaging, Some(TrackPackaging::Datagram)) {
            if let Some(f) = first {
                proof {
                    lemma_first_datagram_stays(tracks@, i as nat, tracks@.len());
                    assert(is_datagram(tracks@[i as int]));
                }
                return Err(StateMapError::SeveralDatagramTracks);
            }
            first = Some(i);
        }
        i = i + 1;
    }
    let track: &Track = match first {
        Some(f) => &tracks[f],
        None => {
            return Err(StateMapError::NoDatagramTrack);
        },
    };
    if catalog.multicast.is_none() {
        return Err(StateMapError::NoDatagramMulticast);
    }
    if !tracks_writer.create(&track.name) {
        return Err(StateMapError::CreateFailed { name: track.name.clone() });
    }
    Ok(
        DatagramPlan {
            name: track.name.clone(),
            priority: 0,
            history_window: PUBLISHER_HISTORY_WINDOW,
        },
    )
}

/// A track stands open as it was planned, and no packet has reached it.
pub open spec fn opened(state: TrackState<TrackGroups>, plan: TrackPlan) -> bool {
    &&& state.wf()
    &&& state.name == plan.name
    &&& state.priority == plan.priority
    &&& state.sink.created() == Seq::<(u64, u64, u8)>::empty()
    &&& state.sink.retired() == Seq::<Seq<Seq<u8>>>::empty()
    &&& state.sink.state.spec_live()
    &&& state.sink.history_window == Some(plan.history_window)
    &&& state.current_group is None
    &&& state.current_group_id is None
    &&& state.last_seen_mpu_seq is None
    &&& state.current_sbn is None
    &&& (state.repair is Some) == (plan.repair is Some)
    &&& state.repair matches Some(repair) ==> {
        &&& repair.sink.created() == Seq::<(u64, u64, u8)>::empty()
        &&& repair.sink.retired() == Seq::<Seq<Seq<u8>>>::empty()
        &&& repair.sink.state.spec_live()
        &&& repair.sink.history_window == Some(plan.history_window)
        &&& repair.current_group is None
        &&& repair.current_sbn is None
    }
}

/// A track that was just opened takes the packets that come.
pub proof fn law_opened_track_flows(state: TrackState<TrackGroups>, plan: TrackPlan)
    requires
        opened(state, plan),
    ensures
        flowing(state),
{
}

/// A track that nothing was written on.
fn open_groups(history_window: u64) -> (r: TrackGroups)
    ensures
        r.valid(),
        r.history_window == Some(history_window),
        r.created() == Seq::<(u64, u64, u8)>::empty(),
        r.retired() == Seq::<Seq<Seq<u8>>>::empty(),
        r.state.spec_live(),
{
    let (mut state, writer, reader) = (Subgroups {  }).produce();
    reader.release(&mut state);
    let r = TrackGroups::new(state, writer, Some(history_window));
    assert(r.created() =~= Seq::<(u64, u64, u8)>::empty());
    r
}

/// The tracks of a broadcast: how each was planned, and how it stands.
pub struct OpenTracks {
    pub plans: Table<TrackPlan>,
    pub states: Table<TrackState<TrackGroups>>,
}

impl OpenTracks {
    /// What every packet keeps.
    pub open spec fn valid(&self) -> bool {
        map_wf(self.states@)
    }
}

/// Opens the tracks that were planned.
pub fn open_tracks(plans: Table<TrackPlan>) -> (r: OpenTracks)
    ensures
        r.valid(),
        r.plans@ == plans@,
        r.states@.dom() == plans@.dom(),
        forall|id: u64| #[trigger]
            r.states@.dom().contains(id) ==> opened(r.states@[id], plans@[id]),
{
    let ghost all = plans@;
    let mut left: Table<TrackPlan> = plans;
    let mut kept: Table<TrackPlan> = Table::new();
    let mut states: Table<TrackState<TrackGroups>> = Table::new();
    assert(all.dom() =~= states@.dom().union(left@.dom()));
    loop
        invariant
            all == plans@,
            all.dom() == states@.dom().union(left@.dom()),
            kept@.dom() == states@.dom(),
            forall|id: u64| #[trigger] left@.dom().contains(id) ==> left@[id] == all[id],
            forall|id: u64| #[trigger] kept@.dom().contains(id) ==> kept@[id] == all[id],
            forall|id: u64| #[trigger]
                states@.dom().contains(id) ==> opened(states@[id], all[id]),
        ensures
            left@ == Map::<u64, TrackPlan>::empty(),
        decreases left@.dom().len(),
    {
        let ghost before = left@;
        match left.take_any() {
            None => {
                break;
            },
            Some((id, plan)) => {
                assert(before.dom().contains(id));
                let repair: Option<TrackGroups> = match &plan.repair {
                    Some(_) => Some(open_groups(plan.history_window)),
                    None => None,
                };
                let state = TrackState::new(
                    plan.name.clone(),
                    plan.priority,
                    open_groups(plan.history_window),
                    repair,
                );
                let _ = states.insert(id, state);
                let _ = kept.insert(id, plan);
                assert(all.dom() =~= states@.dom().union(left@.dom()));
                assert(kept@.dom() =~= states@.dom());
            },
        }
    }
    assert(states@.dom() =~= all.dom());
    assert(kept@ =~= all);
    OpenTracks { plans: kept, states }
}

/// How a publisher handles its packets.
pub enum Router {
    Mmtp(OpenTracks),
    Datagram(DatagramState<TrackDatagrams>),
}

/// Why a packet was not published.
#[derive(Clone, Debug, PartialEq, Eq)]
pub enum HandleError {
    /// Its headers make no sense.
    Route(RouteError),
    Dispatch(DispatchError),
    Datagram(DatagramError),
}

/// What a packet did: as MMTP it went to the track that its headers name, as
/// an opaque datagram to the one track there is.
pub open spec fn router_handled(
    before: Router,
    after: Router,
    packet: Seq<u8>,
    r: Result<(), HandleError>,
) -> bool {
    match (before, after) {
        (Router::Mmtp(b), Router::Mmtp(a)) => {
            &&& a.plans == b.plans
            &&& match routing_of(packet) {
                Err(e) => r == Err::<(), HandleError>(HandleError::Route(e)) && a.states@
                    == b.states@,
                Ok(routing) => match r {
                    Ok(_) => dispatched(b.states@, a.states@, routing, packet, Ok(())),
                    Err(HandleError::Dispatch(e)) => dispatched(
                        b.states@,
                        a.states@,
                        routing,
                        packet,
                        Err(e),
                    ),
                    Err(_) => false,
                },
            }
        },
        (Router::Datagram(b), Router::Datagram(a)) => match r {
            Ok(_) => handled(b, a, packet, Ok(())),
            Err(HandleError::Datagram(e)) => handled(b, a, packet, Err(e)),
            Err(_) => false,
        },
        _ => false,
    }
}

impl Router {
    /// What every packet keeps.
    pub open spec fn valid(&self) -> bool {
        match self {
            Router::Mmtp(tracks) => tracks.valid(),
            Router::Datagram(state) => state.sink.valid(),
        }
    }

    pub fn kind(&self) -> (r: &'static str)
        ensures
            r@ == (match self {
                Router::Mmtp(_) => "mmtp"@,
                Router::Datagram(_) => "datagram"@,
            }),
    {
        match self {
            Router::Mmtp(_) => "mmtp",
            Router::Datagram(_) => "datagram",
        }
    }

    /// Publishes a packet on its track.
    pub fn handle(&mut self, packet: Bytes) -> (r: Result<(), HandleError>)
        requires
            old(self).valid(),
        ensures
            final(self).valid(),
            router_handled(*old(self), *final(self), bytes_view(packet), r),
    {
        match self {
            Router::Mmtp(tracks) => match route(bytes_as_slice(&packet)) {
                Err(e) => Err(HandleError::Route(e)),
                Ok(routing) => match dispatch(&mut tracks.states, &routing, packet) {
                    Ok(()) => Ok(()),
                    Err(e) => Err(HandleError::Dispatch(e)),
                },
            },
            Router::Datagram(state) => match state.handle(packet) {
                Ok(()) => Ok(()),
                Err(e) => Err(HandleError::Datagram(e)),
            },
        }
    }
}

/// A router was built for a catalog, or could not be: a catalog with a
/// datagram track carries opaque datagrams, any other MMTP.
pub open spec fn router_built(
    catalog: Root,
    open: bool,
    names: Seq<Seq<char>>,
    names_after: Seq<Seq<char>>,
    r: Result<Router, StateMapError>,
) -> bool {
    if has_datagram_track(catalog) {
        match datagram_plan(catalog, open) {
            Err(e) => r == Err::<Router, StateMapError>(e) && names_after == names,
            Ok(i) => {
                &&& r matches Ok(Router::Datagram(state))
                &&& state.name == catalog.tracks@[i].name
                &&& state.priority == 0
                &&& state.next_group_id == 0
                &&& state.sink.valid()
                &&& state.sink.written() == Seq::<(u64, u8, Seq<u8>)>::empty()
                &&& state.sink.state.spec_live()
                &&& state.sink.state.spec_depth() == PUBLISHER_HISTORY_WINDOW
                &&& names_after == names.push(state.name@)
            },
        }
    } else {
        match catalog.multicast {
            None => r == Err::<Router, StateMapError>(StateMapError::NoMulticast) && names_after
                == names,
            Some(m) => match m.endpoints {
                None => r == Err::<Router, StateMapError>(StateMapError::NoEndpoints)
                    && names_after == names,
                Some(endpoints) => {
                    let p = planned_endpoints(catalog, endpoints@, endpoints@.len(), open);
                    &&& names_after == names + p.names
                    &&& match p.error {
                        Some(e) => r == Err::<Router, StateMapError>(e),
                        None => {
                            &&& r matches Ok(Router::Mmtp(tracks))
                            &&& tracks.valid()
                            &&& tracks.plans@ == p.map
                            &&& tracks.states@.dom() == p.map.dom()
                            &&& forall|id: u64| #[trigger]
                                tracks.states@.dom().contains(id) ==> opened(
                                    tracks.states@[id],
                                    p.map[id],
                                )
                        },
                    }
                },
            },
        }
    }
}

/// Chooses how packets are handled, and opens the tracks for it.
pub fn build_router(tracks_writer: &mut TracksWriter, catalog: &Root) -> (r: Result<
    Router,
    StateMapError,
>)
    requires
        routable(*catalog),
    ensures
        final(tracks_writer).open == old(tracks_writer).open,
        router_built(
            *catalog,
            old(tracks_writer).open,
            texts(old(tracks_writer).names@),
            texts(final(tracks_writer).names@),
            r,
        ),
        r matches Ok(router) ==> router.valid(),
{
    if carries_datagrams(catalog) {
        match build_datagram_state(tracks_writer, catalog) {
            Ok(plan) => {
                let (state, writer, _reader) = (Datagrams {  }).produce_with_depth(
                    plan.history_window as usize,
                );
                let sink = TrackDatagrams { state, writer, count: 0 };
                assert(sink.written() =~= Seq::<(u64, u8, Seq<u8>)>::empty());
                Ok(Router::Datagram(DatagramState::new(plan.name, plan.priority, sink)))
            },
            Err(e) => Err(e),
        }
    } else {
        match build_state_map(tracks_writer, catalog) {
            Ok(plans) => Ok(Router::Mmtp(open_tracks(plans))),
            Err(e) => Err(e),
        }
    }
}

/// The catalog's own track, with the catalog on it.
pub struct CatalogTrack {
    pub state: SubgroupsState,
    pub writer: SubgroupsWriter,
    pub group: SubgroupState,
}

/// A catalog was published on its own track, or could not be.
pub open spec fn catalog_published(
    open: bool,
    names: Seq<Seq<char>>,
    names_after: Seq<Seq<char>>,
    bytes: Seq<u8>,
    r: Result<CatalogTrack, StateMapError>,
) -> bool {
    match r {
        Ok(track) => {
            &&& open
            &&& names_after == names.push(
                "catalog"@,
            )
            &&& track.state.wf()
            &&& track.state.created() == seq![
                Subgroup { group_id: 0, subgroup_id: 0, priority: CONTROL_PRIORITY },
            ]
            &&& track.group@ == (SubgroupView {
                info: track.state.created()[0],
                objects: seq![whole_object(0, bytes, Seq::empty())],
                closed: Ok(()),
                live: false,
            })
            &&& track.state.largest() == Some((0u64, 0u64))
        },
        Err(e) => {
            &&& !open
            &&& e matches StateMapError::CatalogFailed { name }
            &&& name@ == "catalog"@
            &&& names_after == names
        },
    }
}

/// Publishes a catalog on its own track: one object, in group zero, in the
/// control band.
pub fn publish_catalog_track(tracks_writer: &mut TracksWriter, catalog_bytes: &[u8]) -> (r: Result<
    CatalogTrack,
    StateMapError,
>)
    ensures
        final(tracks_writer).open == old(tracks_writer).open,
        catalog_published(
            old(tracks_writer).open,
            texts(old(tracks_writer).names@),
            texts(final(tracks_writer).names@),
            catalog_bytes@,
            r,
        ),
{
    let name: String = "catalog".to_owned();
    if !tracks_writer.create(&name) {
        return Err(StateMapError::CatalogFailed { name });
    }
    let (mut state, mut writer, reader) = (Subgroups {  }).produce();
    reader.release(&mut state);
    proof {
        crate::serve::subgroup::lemma_given_up(state);
    }
    let subgroup = Subgroup { group_id: 0, subgroup_id: 0, priority: CONTROL_PRIORITY };
    match writer.create(&mut state, subgroup) {
        Ok(_) => {},
        Err(_) => {
            assert(false);
        },
    }
    let (mut group, mut group_writer, _group_reader) = SubgroupState::produce(subgroup);
    let mut payload: Vec<u8> = Vec::new();
    payload.extend_from_slice(catalog_bytes);
    assert(payload@ =~= catalog_bytes@);
    let mut largest: Option<(u64, u64)> = None;
    let _ = group_writer.write(&mut group, &mut largest, bytes_from_vec(payload));
    group.drop_side();
    state.record((0, 0));
    proof {
        assert(state.created() =~= seq![subgroup]);
        assert(group@.objects =~= seq![whole_object(0, catalog_bytes@, Seq::empty())]);
    }
    Ok(CatalogTrack { state, writer, group })
}

/// The first of the first `n` tracks whose namespace is another than the
/// broadcast's.
pub open spec fn first_mismatch(tracks: Seq<Track>, name: Seq<char>, n: nat) -> Option<int>
    decreases n,
{
    if n == 0 {
        None
    } else {
        match first_mismatch(tracks, name, (n - 1) as nat) {
            Some(i) => Some(i),
            None => if tracks[n - 1].namespace matches Some(ns) && ns@ != name {
                Some(n - 1)
            } else {
                None
            },
        }
    }
}

proof fn lemma_first_mismatch_stays(tracks: Seq<Track>, name: Seq<char>, k: nat, n: nat)
    requires
        k <= n,
        first_mismatch(tracks, name, k) is Some,
    ensures
        first_mismatch(tracks, name, n) == first_mismatch(tracks, name, k),
    decreases n,
{
    if k < n {
        lemma_first_mismatch_stays(tracks, name, k, (n - 1) as nat);
    }
}

/// Checks that every track that names a namespace names the broadcast's.
pub fn check_namespace_consistency(catalog: &Root, name: &str) -> (r: Result<(), StateMapError>)
    ensures
        match first_mismatch(catalog.tracks@, name@, catalog.tracks@.len()) {
            None => r == Ok::<(), StateMapError>(()),
            Some(i) => {
                &&& r matches Err(StateMapError::NamespaceMismatch { track, namespace, broadcast })
                &&& track == catalog.tracks@[i].name
                &&& namespace == catalog.tracks@[i].namespace->0
                &&& broadcast@ == name@
            },
        },
{
    let mut i: usize = 0;
    while i < catalog.tracks.len()
        invariant
            i <= catalog.tracks@.len(),
            first_mismatch(catalog.tracks@, name@, i as nat) is None,
        decreases catalog.tracks@.len() - i,
    {
        let track: &Track = &catalog.tracks[i];
        if let Some(ns) = &track.namespace {
            if !str_eq(ns.as_str(), name) {
                proof {
                    lemma_first_mismatch_stays(
                        catalog.tracks@,
                        name@,
                        (i + 1) as nat,
                        catalog.tracks@.len(),
                    );
                }
                return Err(
                    StateMapError::NamespaceMismatch {
                        track: track.name.clone(),
                        namespace: ns.clone(),
                        broadcast: name.to_owned(),
                    },
                );
            }
        }
        i = i + 1;
    }
    Ok(())
}

/// What a plan says of a track of the catalog: its duration is the one that is
/// given in ticks, else that in milliseconds, in whole ticks; its blocks spread
/// over the fewest groups, and at least one, that last as long as the
/// interleaving depth; it runs in the media band and retains the history window;
/// and its repair track, where it is protected, is the one its protection names,
/// at the priority that the catalog gives it.
pub proof fn law_plan_follows_the_catalog(
    catalog: Root,
    taken: Set<u64>,
    track_ref: MulticastTrackRef,
    open: bool,
    plan: TrackPlan,
    i: int,
)
    requires
        plan_ref(catalog, taken, track_ref, open) == Ok::<Option<TrackPlan>, StateMapError>(
            Some(plan),
        ),
        ref_resolved(catalog, track_ref),
        0 <= i < catalog.tracks@.len(),
        catalog.tracks@[i].name@ == track_ref.name@,
        forall|j: int| 0 <= j < i ==> (#[trigger] catalog.tracks@[j]).name@ != track_ref.name@,
    ensures
        ({
            let track = catalog.tracks@[i];
            let ticks = plan.group_duration_ticks;
            &&& plan.name == track_ref.name
            &&& track.timescale == Some(plan.timescale)
            &&& plan.timescale > 0
            &&& ticks > 0
            &&& track.group_duration_ticks matches Some(given) ==> ticks == given
            &&& track.group_duration_ticks is None ==> {
                &&& track.group_duration_ms is Some
                &&& ticks * 1000 <= track.group_duration_ms->0 * plan.timescale < (ticks + 1)
                    * 1000
            }
            &&& plan.priority == 128
            &&& plan.history_window == 32
            &&& plan.repair_group_depth >= 1
            &&& track.fec is None ==> plan.repair is None && plan.repair_group_depth == 1
            &&& track.fec matches Some(fec) ==> {
                &&& plan.repair matches Some(repair) && repair.track == fec.repair_track && exists|
                    j: int,
                |
                    {
                        &&& 0 <= j < catalog.tracks@.len()
                        &&& (#[trigger] catalog.tracks@[j]).name@ == fec.repair_track@
                        &&& catalog.tracks@[j].priority == Some(repair.priority)
                        &&& forall|k: int|
                            0 <= k < j ==> (#[trigger] catalog.tracks@[k]).name@
                                != fec.repair_track@
                    }
                &&& fec.interleave_depth_ms is None ==> plan.repair_group_depth == 1
                &&& fec.interleave_depth_ms matches Some(depth) ==> {
                    &&& plan.repair_group_depth * (ticks * 1000) >= depth * plan.timescale
                    &&& plan.repair_group_depth == 1 || (plan.repair_group_depth - 1) * (ticks
                        * 1000) < depth * plan.timescale
                }
            }
        }),
        open,
        !taken.contains(track_ref.packet_id as u64),
{
    let tracks = catalog.tracks@;
    let track = tracks[i];
    lemma_first_named(tracks, track_ref.name@, tracks.len());
    let k = named(catalog, track_ref.name@)->0;
    assert(k == i) by {
        if k < i {
            assert(tracks[k].name@ != track_ref.name@);
        } else if i < k {
            assert(tracks[i].name@ != track_ref.name@);
        }
    }
    let ticks = plan.group_duration_ticks as int;
    let ts = plan.timescale as int;
    if track.group_duration_ticks is None {
        let ms = track.group_duration_ms->0 as int;
        assert(0 <= ms * ts <= 0xffff_ffff * 0xffff_ffff) by (nonlinear_arith)
            requires
                0 <= ms <= 0xffff_ffff,
                0 <= ts <= 0xffff_ffff,
        ;
    }
    if let Some(fec) = track.fec {
        lemma_first_named(tracks, fec.repair_track@, tracks.len());
        let j = named(catalog, fec.repair_track@)->0;
        assert(tracks[j].name@ == fec.repair_track@);
        if let Some(depth) = fec.interleave_depth_ms {
            let n = depth as int * ts;
            let d = ticks * 1000;
            assert(0 <= n <= 0xffff_ffff * 0xffff_ffff) by (nonlinear_arith)
                requires
                    n == depth as int * ts,
                    0 <= depth as int <= 0xffff_ffff,
                    0 <= ts <= 0xffff_ffff,
            ;
            let q = (n + d - 1) / d;
            vstd::arithmetic::div_mod::lemma_fundamental_div_mod(n + d - 1, d);
            assert(d * q == q * d) by (nonlinear_arith);
            assert((q - 1) * d == q * d - d) by (nonlinear_arith);
            assert(0 <= q <= n + 1) by (nonlinear_arith)
                requires
                    (q - 1) * d < n,
                    q * d >= n,
                    d >= 1,
                    n >= 0,
            ;
            let chosen = plan.repair_group_depth as int;
            assert(chosen == if q < 1 {
                1
            } else {
                q
            });
            assert(chosen * d >= n && (chosen == 1 || (chosen - 1) * d < n)) by (nonlinear_arith)
                requires
                    chosen == q || (chosen == 1 && q == 0),
                    q * d >= n,
                    (q - 1) * d < n,
                    d >= 1,
            ;
        }
    }
}

/// A reference of an endpoint is refused exactly for what is wrong: its packet
/// id is in use; no track has its name; the track is to be published and has no
/// timescale, or a zero one, or no group duration, or one of no whole tick; or
/// the broadcast takes no tracks. A reference to a repair track is passed over.
pub proof fn law_references_are_refused_for_cause(
    catalog: Root,
    taken: Set<u64>,
    track_ref: MulticastTrackRef,
    open: bool,
    i: int,
)
    requires
        0 <= i < catalog.tracks@.len(),
        catalog.tracks@[i].name@ == track_ref.name@,
        forall|j: int| 0 <= j < i ==> (#[trigger] catalog.tracks@[j]).name@ != track_ref.name@,
    ensures
        ({
            let r = plan_ref(catalog, taken, track_ref, open);
            let name = track_ref.name;
            let track = catalog.tracks@[i];
            if taken.contains(track_ref.packet_id as u64) {
                r == Err::<Option<TrackPlan>, StateMapError>(
                    StateMapError::DuplicatePacketId { packet_id: track_ref.packet_id, name },
                )
            } else if track.packaging == Some(TrackPackaging::FecRepair) {
                r == Ok::<Option<TrackPlan>, StateMapError>(None)
            } else if track.timescale is None {
                r == Err::<Option<TrackPlan>, StateMapError>(StateMapError::NoTimescale { name })
            } else if track.timescale->0 == 0 {
                r == Err::<Option<TrackPlan>, StateMapError>(StateMapError::ZeroTimescale { name })
            } else if track.group_duration_ticks is None && track.group_duration_ms is None {
                r == Err::<Option<TrackPlan>, StateMapError>(
                    StateMapError::NoGroupDuration { name },
                )
            } else if track.group_duration_ticks == Some(0u64) || (track.group_duration_ticks
                is None && track.group_duration_ms->0 * track.timescale->0 < 1000) {
                r == Err::<Option<TrackPlan>, StateMapError>(
                    StateMapError::ZeroGroupDuration { name },
                )
            } else if !open {
                r == Err::<Option<TrackPlan>, StateMapError>(StateMapError::CreateFailed { name })
            } else {
                r is Ok && r->Ok_0 is Some
            }
        }),
{
    let tracks = catalog.tracks@;
    lemma_first_named(tracks, track_ref.name@, tracks.len());
    let k = named(catalog, track_ref.name@)->0;
    assert(k == i) by {
        if k < i {
            assert(tracks[k].name@ != track_ref.name@);
        } else if i < k {
            assert(tracks[i].name@ != track_ref.name@);
        }
    }
    if tracks[i].group_duration_ticks is None {
        let ms = tracks[i].group_duration_ms->0 as int;
        let ts = tracks[i].timescale->0 as int;
        assert(0 <= ms * ts <= 0xffff_ffff * 0xffff_ffff) by (nonlinear_arith)
            requires
                0 <= ms <= 0xffff_ffff,
                0 <= ts <= 0xffff_ffff,
        ;
    }
}

/// A reference that no track has the name of is unknown.
pub proof fn law_unknown_reference_is_refused(
    catalog: Root,
    taken: Set<u64>,
    track_ref: MulticastTrackRef,
    open: bool,
)
    requires
        forall|j: int|
            0 <= j < catalog.tracks@.len() ==> (#[trigger] catalog.tracks@[j]).name@
                != track_ref.name@,
        !taken.contains(track_ref.packet_id as u64),
    ensures
        plan_ref(catalog, taken, track_ref, open) == Err::<Option<TrackPlan>, StateMapError>(
            StateMapError::UnknownTrack { name: track_ref.name },
        ),
{
    lemma_first_named(catalog.tracks@, track_ref.name@, catalog.tracks@.len());
}

/// An MMTP track of a valid catalog is planned, never refused for its timing,
/// and with the duration that the catalog's validation reads: exactly that in
/// milliseconds, where it is given so.
pub proof fn law_valid_track_is_planned_exactly(
    catalog: Root,
    taken: Set<u64>,
    track_ref: MulticastTrackRef,
    i: int,
)
    requires
        crate::catalog::catalog_error(catalog) is None,
        0 <= i < catalog.tracks@.len(),
        catalog.tracks@[i].name@ == track_ref.name@,
        forall|j: int| 0 <= j < i ==> (#[trigger] catalog.tracks@[j]).name@ != track_ref.name@,
        catalog.tracks@[i].packaging == Some(TrackPackaging::Mmtp),
        !taken.contains(track_ref.packet_id as u64),
    ensures
        ({
            let r = plan_ref(catalog, taken, track_ref, true);
            let track = catalog.tracks@[i];
            &&& r is Ok
            &&& r->Ok_0 is Some
            &&& (r->Ok_0->0).group_duration_ticks == crate::catalog::group_ticks(track)
            &&& track.timescale == Some((r->Ok_0->0).timescale)
            &&& track.group_duration_ticks matches Some(given) ==> (r->Ok_0->0).group_duration_ticks
                == given
            &&& track.group_duration_ticks is None ==> (r->Ok_0->0).group_duration_ticks * 1000
                == track.group_duration_ms->0 * track.timescale->0
        }),
        plan_ref(catalog, taken, track_ref, false) == Err::<Option<TrackPlan>, StateMapError>(
            StateMapError::CreateFailed { name: track_ref.name },
        ),
{
    let track = catalog.tracks@[i];
    crate::catalog::lemma_no_failure(
        catalog.tracks@.len(),
        crate::catalog::track_check(catalog.tracks@),
        i,
    );
    crate::catalog::law_valid_mmtp_track_is_timed(catalog, i);
    crate::catalog::law_group_ticks_are_exact(track);
    law_references_are_refused_for_cause(catalog, taken, track_ref, true, i);
    law_references_are_refused_for_cause(catalog, taken, track_ref, false, i);
    let tracks = catalog.tracks@;
    lemma_first_named(tracks, track_ref.name@, tracks.len());
    let k = named(catalog, track_ref.name@)->0;
    assert(k == i) by {
        if k < i {
            assert(tracks[k].name@ != track_ref.name@);
        } else if i < k {
            assert(tracks[i].name@ != track_ref.name@);
        }
    }
    if track.group_duration_ticks is None {
        let ms = track.group_duration_ms->0 as int;
        let ts = track.timescale->0 as int;
        assert(0 <= ms * ts <= 0xffff_ffff * 0xffff_ffff) by (nonlinear_arith)
            requires
                0 <= ms <= 0xffff_ffff,
                0 <= ts <= 0xffff_ffff,
        ;
    }
}

proof fn lemma_planned_refs(
    start: Planned,
    catalog: Root,
    refs: Seq<MulticastTrackRef>,
    n: nat,
    open: bool,
)
    requires
        n <= refs.len(),
        planned_refs(start, catalog, refs, n, open).error is None,
    ensures
        ({
            let p = planned_refs(start, catalog, refs, n, open);
            &&& start.error is None
            &&& forall|id: u64| #[trigger]
                start.map.dom().contains(id) ==> p.map.dom().contains(id) && p.map[id]
                    == start.map[id]
            &&& forall|name: Seq<char>| #[trigger]
                start.names.contains(name) ==> p.names.contains(name)
            &&& forall|i: int|
                #![trigger refs[i]]
                0 <= i < n ==> {
                    let planned = plan_ref(catalog, Set::empty(), refs[i], open);
                    &&& planned is Ok
                    &&& planned->Ok_0 matches Some(plan) ==> {
                        &&& p.map.dom().contains(refs[i].packet_id as u64)
                        &&& p.map[refs[i].packet_id as u64] == plan
                        &&& !start.map.dom().contains(refs[i].packet_id as u64)
                        &&& p.names.contains(plan.name@)
                        &&& plan.repair matches Some(repair) ==> p.names.contains(repair.track@)
                    }
                }
            &&& forall|id: u64| #[trigger]
                p.map.dom().contains(id) ==> start.map.dom().contains(id) || exists|i: int|
                    0 <= i < n && (#[trigger] refs[i]).packet_id == id && plan_ref(
                        catalog,
                        Set::empty(),
                        refs[i],
                        open,
                    ) == Ok::<Option<TrackPlan>, StateMapError>(Some(p.map[id]))
        }),
    decreases n,
{
    if n > 0 {
        lemma_planned_refs(start, catalog, refs, (n - 1) as nat, open);
        let q = planned_refs(start, catalog, refs, (n - 1) as nat, open);
        let p = planned_refs(start, catalog, refs, n, open);
        let last = refs[n - 1];
        let id = last.packet_id as u64;
        let r = plan_ref(catalog, q.map.dom(), last, open);
        assert(r == plan_ref(catalog, Set::empty(), last, open));
        assert forall|name: Seq<char>| #[trigger] q.names.contains(name) implies p.names.contains(
            name,
        ) by {
            let k = choose|k: int| 0 <= k < q.names.len() && q.names[k] == name;
            assert(p.names[k] == name);
        }
        if let Ok(Some(plan)) = r {
            assert(!q.map.dom().contains(id));
            assert(p.map[id] == plan);
            assert(names_of(plan)[0] == plan.name@);
            assert(p.names[q.names.len() as int] == plan.name@);
            if let Some(repair) = plan.repair {
                assert(p.names[q.names.len() as int + 1] == repair.track@);
            }
            assert forall|i: int|
                #![trigger refs[i]]
                0 <= i < n implies {
                let planned = plan_ref(catalog, Set::empty(), refs[i], open);
                &&& planned is Ok
                &&& planned->Ok_0 matches Some(plan) ==> {
                    &&& p.map.dom().contains(refs[i].packet_id as u64)
                    &&& p.map[refs[i].packet_id as u64] == plan
                    &&& !start.map.dom().contains(refs[i].packet_id as u64)
                    &&& p.names.contains(plan.name@)
                    &&& plan.repair matches Some(repair) ==> p.names.contains(repair.track@)
                }
            } by {
                if i < n - 1 {
                    let planned = plan_ref(catalog, Set::empty(), refs[i], open);
                    if let Some(other) = planned->Ok_0 {
                        assert(q.map.dom().contains(refs[i].packet_id as u64));
                    }
                }
            }
            assert forall|other: u64| #[trigger] p.map.dom().contains(other) implies {
                ||| start.map.dom().contains(other)
                ||| exists|i: int|
                    0 <= i < n && (#[trigger] refs[i]).packet_id == other && plan_ref(
                        catalog,
                        Set::empty(),
                        refs[i],
                        open,
                    ) == Ok::<Option<TrackPlan>, StateMapError>(Some(p.map[other]))
            } by {
                if other == id {
                    assert(refs[n - 1].packet_id == other);
                } else {
                    assert(q.map.dom().contains(other));
                }
            }
        }
    }
}

proof fn lemma_planned_endpoints(
    catalog: Root,
    endpoints: Seq<MulticastEndpoint>,
    n: nat,
    open: bool,
)
    requires
        n <= endpoints.len(),
        planned_endpoints(catalog, endpoints, n, open).error is None,
    ensures
        ({
            let p = planned_endpoints(catalog, endpoints, n, open);
            &&& forall|e: int, i: int|
                #![trigger endpoints[e].tracks@[i]]
                0 <= e < n && 0 <= i < endpoints[e].tracks@.len() ==> {
                    let track_ref = endpoints[e].tracks@[i];
                    let planned = plan_ref(catalog, Set::empty(), track_ref, open);
                    &&& planned is Ok
                    &&& planned->Ok_0 matches Some(plan) ==> {
                        &&& p.map.dom().contains(track_ref.packet_id as u64)
                        &&& p.map[track_ref.packet_id as u64] == plan
                        &&& p.names.contains(plan.name@)
                        &&& plan.repair matches Some(repair) ==> p.names.contains(repair.track@)
                    }
                }
            &&& forall|id: u64| #[trigger]
                p.map.dom().contains(id) ==> exists|e: int, i: int|
                    {
                        &&& 0 <= e < n
                        &&& 0 <= i < endpoints[e].tracks@.len()
                        &&& (#[trigger] endpoints[e].tracks@[i]).packet_id == id
                        &&& plan_ref(catalog, Set::empty(), endpoints[e].tracks@[i], open) == Ok::<
                            Option<TrackPlan>,
                            StateMapError,
                        >(Some(p.map[id]))
                    }
        }),
    decreases n,
{
    if n > 0 {
        let q = planned_endpoints(catalog, endpoints, (n - 1) as nat, open);
        let p = planned_endpoints(catalog, endpoints, n, open);
        let refs = endpoints[n - 1].tracks@;
        lemma_planned_refs(q, catalog, refs, refs.len(), open);
        lemma_planned_endpoints(catalog, endpoints, (n - 1) as nat, open);
        assert forall|e: int, i: int|
            #![trigger endpoints[e].tracks@[i]]
            0 <= e < n && 0 <= i < endpoints[e].tracks@.len() implies {
            let track_ref = endpoints[e].tracks@[i];
            let planned = plan_ref(catalog, Set::empty(), track_ref, open);
            &&& planned is Ok
            &&& planned->Ok_0 matches Some(plan) ==> {
                &&& p.map.dom().contains(track_ref.packet_id as u64)
                &&& p.map[track_ref.packet_id as u64] == plan
                &&& p.names.contains(plan.name@)
                &&& plan.repair matches Some(repair) ==> p.names.contains(repair.track@)
            }
        } by {
            let track_ref = endpoints[e].tracks@[i];
            if e == n - 1 {
                assert(refs[i] == track_ref);
            } else {
                let planned = plan_ref(catalog, Set::empty(), track_ref, open);
                if let Some(plan) = planned->Ok_0 {
                    assert(q.map.dom().contains(track_ref.packet_id as u64));
                    assert(q.names.contains(plan.name@));
                }
            }
        }
        assert forall|id: u64| #[trigger] p.map.dom().contains(id) implies exists|e: int, i: int|
            {
                &&& 0 <= e < n
                &&& 0 <= i < endpoints[e].tracks@.len()
                &&& (#[trigger] endpoints[e].tracks@[i]).packet_id == id
                &&& plan_ref(catalog, Set::empty(), endpoints[e].tracks@[i], open) == Ok::<
                    Option<TrackPlan>,
                    StateMapError,
                >(Some(p.map[id]))
            } by {
            if q.map.dom().contains(id) {
                assert(p.map[id] == q.map[id]);
            } else {
                let i = choose|i: int|
                    0 <= i < refs.len() && (#[trigger] refs[i]).packet_id == id && plan_ref(
                        catalog,
                        Set::empty(),
                        refs[i],
                        open,
                    ) == Ok::<Option<TrackPlan>, StateMapError>(Some(p.map[id]));
                assert(endpoints[n - 1].tracks@[i] == refs[i]);
            }
        }
    }
}

/// A router that was built for MMTP holds a track for every reference of every
/// endpoint that is not to a repair track, under the reference's packet id: open,
/// under the reference's name, in the media band, with nothing written on it. It
/// is planned as the reference alone would be, its name and that of its repair
/// track are registered, and there is no other track.
pub proof fn law_router_opens_every_reference(
    catalog: Root,
    open: bool,
    names: Seq<Seq<char>>,
    names_after: Seq<Seq<char>>,
    router: Router,
)
    requires
        router_built(
            catalog,
            open,
            names,
            names_after,
            Ok::<Router, StateMapError>(router),
        ),
        router is Mmtp,
    ensures
        catalog.multicast matches Some(m) && m.endpoints is Some,
        ({
            let endpoints = catalog.multicast->0.endpoints->0@;
            let tracks = router->Mmtp_0;
            &&& tracks.states@.dom() == tracks.plans@.dom()
            &&& forall|e: int, i: int|
                #![trigger endpoints[e].tracks@[i]]
                0 <= e < endpoints.len() && 0 <= i < endpoints[e].tracks@.len() ==> {
                    let track_ref = endpoints[e].tracks@[i];
                    let id = track_ref.packet_id as u64;
                    let planned = plan_ref(catalog, Set::empty(), track_ref, open);
                    &&& planned is Ok
                    &&& planned->Ok_0 is Some ==> {
                        &&& tracks.plans@.dom().contains(id)
                        &&& tracks.plans@[id] == planned->Ok_0->0
                        &&& tracks.states@[id].name == track_ref.name
                        &&& tracks.states@[id].priority == 128
                        &&& tracks.states@[id].sink.created().len() == 0
                        &&& tracks.states@[id].sink.history_window == Some(32u64)
                        &&& tracks.states@[id].last_seen_mpu_seq is None
                        &&& tracks.states@[id].current_sbn is None
                        &&& (tracks.states@[id].repair is Some) == ((
                        planned->Ok_0->0).repair is Some)
                        &&& names_after.contains(track_ref.name@)
                        &&& (planned->Ok_0->0).repair matches Some(repair)
                            ==> names_after.contains(repair.track@)
                    }
                }
            &&& forall|id: u64| #[trigger]
                tracks.plans@.dom().contains(id) ==> exists|e: int, i: int|
                    {
                        &&& 0 <= e < endpoints.len()
                        &&& 0 <= i < endpoints[e].tracks@.len()
                        &&& (#[trigger] endpoints[e].tracks@[i]).packet_id == id
                        &&& tracks.plans@[id].name == endpoints[e].tracks@[i].name
                    }
        }),
        names.is_prefix_of(names_after),
{
    let endpoints = catalog.multicast->0.endpoints->0@;
    let p = planned_endpoints(catalog, endpoints, endpoints.len(), open);
    lemma_planned_endpoints(catalog, endpoints, endpoints.len(), open);
    let tracks = router->Mmtp_0;
    assert forall|name: Seq<char>| #[trigger] p.names.contains(name) implies names_after.contains(
        name,
    ) by {
        let k = choose|k: int| 0 <= k < p.names.len() && p.names[k] == name;
        assert(names_after[names.len() + k] == name);
    }
    assert forall|e: int, i: int|
        #![trigger endpoints[e].tracks@[i]]
        0 <= e < endpoints.len() && 0 <= i < endpoints[e].tracks@.len() implies {
        let track_ref = endpoints[e].tracks@[i];
        let id = track_ref.packet_id as u64;
        let planned = plan_ref(catalog, Set::empty(), track_ref, open);
        &&& planned is Ok
        &&& planned->Ok_0 is Some ==> {
            &&& tracks.plans@.dom().contains(id)
            &&& tracks.plans@[id] == planned->Ok_0->0
            &&& tracks.states@[id].name == track_ref.name
            &&& tracks.states@[id].priority == 128
            &&& tracks.states@[id].sink.created().len() == 0
            &&& tracks.states@[id].sink.history_window == Some(32u64)
            &&& tracks.states@[id].last_seen_mpu_seq is None
            &&& tracks.states@[id].current_sbn is None
            &&& (tracks.states@[id].repair is Some) == ((planned->Ok_0->0).repair is Some)
            &&& names_after.contains(track_ref.name@)
            &&& (planned->Ok_0->0).repair matches Some(repair) ==> names_after.contains(
                repair.track@,
            )
        }
    } by {
        let track_ref = endpoints[e].tracks@[i];
        let planned = plan_ref(catalog, Set::empty(), track_ref, open);
        if planned->Ok_0 is Some {
            let plan = planned->Ok_0->0;
            assert(tracks.states@.dom().contains(track_ref.packet_id as u64));
            assert(p.names.contains(plan.name@));
        }
    }
    assert(names.is_prefix_of(names_after)) by {
        assert(names_after.take(names.len() as int) =~= names);
    }
}

/// A catalog that carries MMTP is refused without a multicast part or without
/// endpoints, and no track is registered then.
pub proof fn law_router_needs_endpoints(
    catalog: Root,
    open: bool,
    names: Seq<Seq<char>>,
    names_after: Seq<Seq<char>>,
    r: Result<Router, StateMapError>,
)
    requires
        router_built(catalog, open, names, names_after, r),
        forall|i: int|
            0 <= i < catalog.tracks@.len() ==> (#[trigger] catalog.tracks@[i]).packaging != Some(
                TrackPackaging::Datagram,
            ),
    ensures
        r matches Ok(router) ==> router is Mmtp,
        catalog.multicast is None ==> r == Err::<Router, StateMapError>(StateMapError::NoMulticast)
            && names_after == names,
        catalog.multicast matches Some(m) && m.endpoints is None ==> r == Err::<
            Router,
            StateMapError,
        >(StateMapError::NoEndpoints) && names_after == names,
{
}

proof fn lemma_first_datagram(tracks: Seq<Track>, n: nat)
    ensures
        match first_datagram(tracks, n) {
            Some(i) => 0 <= i < n && tracks[i].packaging == Some(TrackPackaging::Datagram)
                && forall|j: int|
                0 <= j < i ==> (#[trigger] tracks[j]).packaging != Some(TrackPackaging::Datagram),
            None => forall|j: int|
                0 <= j < n ==> (#[trigger] tracks[j]).packaging != Some(TrackPackaging::Datagram),
        },
    decreases n,
{
    if n > 0 {
        lemma_first_datagram(tracks, (n - 1) as nat);
    }
}

/// A catalog with a datagram track is published as that one track: open, under
/// its name, retaining the history window, with nothing written on it. It is
/// refused where a second track carries datagrams, where it has no multicast
/// part, and where the broadcast takes no tracks.
pub proof fn law_datagram_track_is_opened_alone(
    catalog: Root,
    open: bool,
    names: Seq<Seq<char>>,
    names_after: Seq<Seq<char>>,
    r: Result<Router, StateMapError>,
    i: int,
)
    requires
        router_built(catalog, open, names, names_after, r),
        0 <= i < catalog.tracks@.len(),
        catalog.tracks@[i].packaging == Some(TrackPackaging::Datagram),
    ensures
        ({
            let alone = forall|j: int|
                0 <= j < catalog.tracks@.len() && j != i ==> (
                #[trigger] catalog.tracks@[j]).packaging != Some(TrackPackaging::Datagram);
            &&& !alone ==> r == Err::<Router, StateMapError>(StateMapError::SeveralDatagramTracks)
            &&& alone && catalog.multicast is None ==> r == Err::<Router, StateMapError>(
                StateMapError::NoDatagramMulticast,
            )
            &&& alone && catalog.multicast is Some && !open ==> r == Err::<Router, StateMapError>(
                StateMapError::CreateFailed { name: catalog.tracks@[i].name },
            )
            &&& alone && catalog.multicast is Some && open ==> {
                &&& r is Ok
                &&& r->Ok_0 is Datagram
                &&& ({
                    let state = r->Ok_0->Datagram_0;
                    &&& state.name == catalog.tracks@[i].name
                    &&& state.next_group_id == 0
                    &&& state.priority == 0
                    &&& state.sink.written().len() == 0
                    &&& state.sink.state.spec_live()
                    &&& state.sink.state.spec_depth() == 32
                })
                &&& names_after == names.push(catalog.tracks@[i].name@)
            }
            &&& r is Err ==> names_after == names
        }),
{
    let tracks = catalog.tracks@;
    lemma_first_datagram(tracks, tracks.len());
    let f = first_datagram(tracks, tracks.len())->0;
    assert(is_datagram(tracks[i]));
    assert(is_datagram(tracks[f]));
    assert(f <= i);
    if exists|j: int| f < j < tracks.len() && is_datagram(#[trigger] tracks[j]) {
        let j = choose|j: int| f < j < tracks.len() && is_datagram(#[trigger] tracks[j]);
        assert(tracks[j].packaging == Some(TrackPackaging::Datagram));
        assert(tracks[f].packaging == Some(TrackPackaging::Datagram));
        assert(f != i || j != i);
    } else {
        assert(f == i) by {
            if f < i {
                assert(is_datagram(tracks[i]));
            }
        }
        assert forall|j: int| 0 <= j < tracks.len() && j != i implies (
        #[trigger] tracks[j]).packaging != Some(TrackPackaging::Datagram) by {
            if j > f {
                assert(!is_datagram(tracks[j]));
            }
        }
    }
}

/// The catalog's own track comes before media, and media before repair; it
/// carries the catalog, byte for byte, as its one object, and is done.
pub proof fn law_catalog_track_carries_the_catalog(
    open: bool,
    names: Seq<Seq<char>>,
    names_after: Seq<Seq<char>>,
    bytes: Seq<u8>,
    r: Result<CatalogTrack, StateMapError>,
)
    requires
        catalog_published(open, names, names_after, bytes, r),
        bytes.len() <= usize::MAX,
    ensures
        (r is Ok) == open,
        r is Err ==> names_after == names,
        r matches Ok(track) ==> {
            &&& names_after.len() == names.len() + 1
            &&& names_after.last() == "catalog"@
            &&& names_after.drop_last() == names
            &&& track.state.created().len() == 1
            &&& track.state.created()[0].group_id == 0
            &&& track.state.created()[0].subgroup_id == 0
            &&& track.state.created()[0].priority == 32
            &&& track.group@.info == track.state.created()[0]
            &&& track.group@.objects.len() == 1
            &&& track.group@.objects[0].payload() == bytes
            &&& track.group@.objects[0].size == bytes.len()
            &&& track.group@.objects[0].object_id == 0
            &&& track.group@.objects[0].extension_headers.len() == 0
            &&& track.group@.objects[0].closed is Ok
            &&& !track.group@.objects[0].live
            &&& !track.group@.live
            &&& track.group@.closed is Ok
            &&& track.state.largest() == Some((0u64, 0u64))
        },
        CONTROL_PRIORITY < SOURCE_PRIORITY < crate::catalog::REPAIR_PRIORITY,
{
    if let Ok(track) = r {
        assert(names_after.drop_last() =~= names);
        crate::serve::object::law_whole_object_reads_back(0, bytes, Seq::empty());
    }
}

/// The namespaces of a catalog are in order exactly where every track that names
/// one names the broadcast's; else the first that does not is found.
pub proof fn law_namespaces_agree(tracks: Seq<Track>, name: Seq<char>, n: nat)
    requires
        n <= tracks.len(),
    ensures
        match first_mismatch(tracks, name, n) {
            None => forall|i: int|
                0 <= i < n ==> ((#[trigger] tracks[i]).namespace is None || tracks[i].namespace->0@
                    == name),
            Some(i) => {
                &&& 0 <= i < n
                &&& tracks[i].namespace is Some
                &&& tracks[i].namespace->0@ != name
                &&& forall|j: int|
                    0 <= j < i ==> ((#[trigger] tracks[j]).namespace is None
                        || tracks[j].namespace->0@ == name)
            },
        },
    decreases n,
{
    if n > 0 {
        law_namespaces_agree(tracks, name, (n - 1) as nat);
    }
}

/// A packet changes no plan, opens and closes no track, and leaves every track
/// but its own as it was. As MMTP it is refused where its headers make no sense,
/// and reaches no track then.
pub proof fn law_packets_keep_the_tracks(
    before: Router,
    after: Router,
    packet: Seq<u8>,
    r: Result<(), HandleError>,
)
    requires
        router_handled(before, after, packet, r),
    ensures
        (before is Mmtp) == (after is Mmtp),
        before is Mmtp ==> {
            let b = before->Mmtp_0;
            let a = after->Mmtp_0;
            &&& a.plans == b.plans
            &&& a.states@.dom() == b.states@.dom()
            &&& routing_of(packet) matches Err(e) ==> r == Err::<(), HandleError>(
                HandleError::Route(e),
            ) && a.states@ == b.states@
            &&& routing_of(packet) matches Ok(routing) ==> {
                &&& !(r matches Err(HandleError::Route(_)))
                &&& !(r matches Err(HandleError::Datagram(_)))
                &&& forall|id: u64|
                    b.states@.dom().contains(id) && id != routing.packet_id
                        ==> #[trigger] a.states@[id] == b.states@[id]
                &&& !b.states@.dom().contains(routing.packet_id as u64) ==> r == Err::<
                    (),
                    HandleError,
                >(HandleError::Dispatch(DispatchError::UnknownPacketId(routing.packet_id)))
            }
        },
        before is Datagram ==> r is Ok || r->Err_0 is Datagram,
{
    if let (Router::Mmtp(b), Router::Mmtp(a)) = (before, after) {
        if let Ok(routing) = routing_of(packet) {
            let x: Result<(), DispatchError> = match r {
                Ok(_) => Ok(()),
                Err(HandleError::Dispatch(e)) => Err(e),
                Err(_) => Ok(()),
            };
            crate::publisher::dispatch::law_packets_reach_their_track_alone(
                b.states@,
                a.states@,
                routing,
                packet,
                x,
            );
        }
    }
}

/// A track that was just opened is empty and takes what comes, and so is its
/// repair track, where it has one.
pub proof fn law_opened_track_is_empty(state: TrackState<TrackGroups>, plan: TrackPlan)
    requires
        opened(state, plan),
    ensures
        state.name == plan.name,
        state.priority == plan.priority,
        state.sink.created().len() == 0,
        state.sink.retired().len() == 0,
        state.sink.state.spec_live(),
        state.sink.history_window == Some(plan.history_window),
        state.current_group is None,
        state.current_group_id is None,
        state.last_seen_mpu_seq is None,
        state.current_sbn is None,
        (state.repair is Some) == (plan.repair is Some),
        state.repair is Some ==> {
            let repair = state.repair->0;
            &&& repair.sink.created().len() == 0
            &&& repair.sink.retired().len() == 0
            &&& repair.sink.state.spec_live()
            &&& repair.sink.history_window == Some(plan.history_window)
            &&& repair.current_group is None
            &&& repair.current_sbn is None
        },
{
}

/// A router for datagrams writes every packet that its track takes as one
/// datagram, whole and after all the others, and drops none without saying so.
pub proof fn law_datagram_router_drops_nothing(
    before: Router,
    after: Router,
    packet: Seq<u8>,
    r: Result<(), HandleError>,
)
    requires
        router_handled(before, after, packet, r),
        before is Datagram,
    ensures
        after is Datagram,
        ({
            let b = before->Datagram_0;
            let a = after->Datagram_0;
            let n = b.sink.written().len();
            &&& a.name == b.name
            &&& a.priority == b.priority
            &&& r is Ok ==> {
                &&& a.sink.written().len() == n + 1
                &&& a.sink.written()[n as int].2 == packet
                &&& a.sink.written()[n as int].1 == b.priority
                &&& a.sink.written()[n as int].0 == b.next_group_id
                &&& forall|i: int|
                    0 <= i < n ==> #[trigger] a.sink.written()[i] == b.sink.written()[i]
                &&& a.next_group_id == b.next_group_id + 1
            }
            &&& b.sink.standing().live && n < 0xffff_ffff_ffff_ffff && b.next_group_id
                < 0xffff_ffff_ffff_ffff ==> r is Ok
            &&& r matches Err(HandleError::Datagram(DatagramError::Sink(_)))
                ==> a.sink.written() == b.sink.written() && a.next_group_id == b.next_group_id
        }),
{
    let b = before->Datagram_0;
    let a = after->Datagram_0;
    let x: Result<(), DatagramError> = match r {
        Ok(_) => Ok(()),
        Err(HandleError::Datagram(e)) => Err(e),
        Err(_) => Ok(()),
    };
    assert(handled(b, a, packet, x));
    crate::publisher::datagram::law_datagrams_follow_each_other(b, a, packet, x);
    if b.sink.standing().live && b.sink.written().len() < 0xffff_ffff_ffff_ffff && b.next_group_id
        < 0xffff_ffff_ffff_ffff {
        crate::publisher::datagram::law_live_track_takes_every_datagram(b, a, packet, x);
    }
}

/// A catalog is refused only where the session takes no more tracks, and the
/// refusal names the catalog's track.
pub proof fn law_refused_catalog_is_named(
    open: bool,
    names: Seq<Seq<char>>,
    names_after: Seq<Seq<char>>,
    bytes: Seq<u8>,
    r: Result<CatalogTrack, StateMapError>,
)
    requires
        catalog_published(open, names, names_after, bytes, r),
    ensures
        (r is Ok) == open,
        r matches Err(e) ==> {
            &&& e is CatalogFailed
            &&& e->CatalogFailed_name@ == "catalog"@
            &&& names_after == names
        },
        r is Ok ==> names_after.len() == names.len() + 1 && names_after.last() == "catalog"@,
{
}

/// The datagram track of a catalog is the one that is packaged as one: without
/// any, with several, without a multicast extension, or where the session takes
/// no more tracks, there is none.
pub proof fn law_datagram_plan_is_the_only_one(catalog: Root, open: bool)
    ensures
        ({
            let r = datagram_plan(catalog, open);
            let tracks = catalog.tracks@;
            let none = forall|i: int|
                0 <= i < tracks.len() ==> (#[trigger] tracks[i]).packaging != Some(
                    TrackPackaging::Datagram,
                );
            &&& none ==> r == Err::<int, StateMapError>(StateMapError::NoDatagramTrack)
            &&& r == Err::<int, StateMapError>(StateMapError::NoDatagramTrack) ==> none
            &&& r matches Ok(i) ==> {
                &&& 0 <= i < tracks.len()
                &&& tracks[i].packaging == Some(TrackPackaging::Datagram)
                &&& forall|j: int|
                    0 <= j < tracks.len() && j != i ==> (#[trigger] tracks[j]).packaging != Some(
                        TrackPackaging::Datagram,
                    )
                &&& catalog.multicast is Some
                &&& open
            }
        }),
{
    lemma_first_datagram(catalog.tracks@, catalog.tracks@.len());
}

} // verus!
