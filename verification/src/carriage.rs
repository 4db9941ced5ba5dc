//! MMTP packets as objects of a track, with their AL-FEC identity in an
//! extension header.

use bytes::Bytes;
use vstd::prelude::*;

use crate::kvp::{assign, lookup, ExtensionHeaders, PairView, Value, ValueView};
use crate::serve::object::{groups_view, whole_object, SubgroupState, SubgroupView, SubgroupWriter};
use crate::serve::subgroup::{is_frontier, Subgroup, SubgroupsState, SubgroupsWriter};
use crate::serve::{advanced, at_most, location_at_most, ServeError};
use crate::text::{decimal, hex, pair, push_decimal, push_hex, push_pair, push_text};
use crate::wire::{be_bytes, be_value, bytes_clone, bytes_view, pow256, put_be};

verus! {

/// The version of the wire contract that objects are carried under.
pub const WIRE_CONTRACT_VERSION: &'static str = "moqt-16-v1";

const FEC_METADATA_VERSION: u8 = 1;

const FEC_METADATA_LEN: usize = 12;

/// The AL-FEC identity of a source or repair object. Repair symbols themselves
/// are neither made nor used here.
#[derive(Copy, Clone, Debug, PartialEq, Eq, Structural)]
pub struct AlFecMetadata {
    pub scheme: u8,
    pub source_block_number: u32,
    pub encoding_symbol_id: u32,
    pub repair: bool,
}

/// Why an object could not be carried.
#[derive(Copy, Clone, Debug, PartialEq, Eq)]
pub enum CarriageError {
    /// An extension of this even type holds no bytes.
    FecExtensionMustBeBytes(u64),
    InvalidFecMetadataLength(usize),
    UnsupportedFecMetadataVersion(u8),
    InvalidFecMetadataFlags,
    /// A subgroup is not beyond the one before it.
    NonMonotonicSubgroup { current: (u64, u64), next: (u64, u64) },
    Transport(ServeError),
}

impl CarriageError {
    /// The error in words.
    pub open spec fn message(self) -> Seq<char> {
        match self {
            CarriageError::FecExtensionMustBeBytes(id) => "AL-FEC extension "@ + hex(id as nat)
                + " must be bytes-valued (odd type)"@,
            CarriageError::InvalidFecMetadataLength(len) => "AL-FEC metadata has "@
                + decimal(len as nat) + " bytes; expected 12"@,
            CarriageError::UnsupportedFecMetadataVersion(version) => "unsupported AL-FEC metadata version "@
                + decimal(version as nat),
            CarriageError::InvalidFecMetadataFlags => "invalid AL-FEC metadata flags or reserved bits"@,
            CarriageError::NonMonotonicSubgroup { current, next } => "subgroup identity regressed from "@
                + pair(current) + " to "@ + pair(next),
            CarriageError::Transport(_) => "the track refused the object"@,
        }
    }

    pub fn describe(&self) -> (r: String)
        ensures
            r@ == self.message(),
    {
        let mut out: String = String::new();
        match self {
            CarriageError::FecExtensionMustBeBytes(id) => {
                push_text(&mut out, "AL-FEC extension ");
                push_hex(&mut out, *id);
                push_text(&mut out, " must be bytes-valued (odd type)");
            },
            CarriageError::InvalidFecMetadataLength(len) => {
                push_text(&mut out, "AL-FEC metadata has ");
                push_decimal(&mut out, *len as u64);
                push_text(&mut out, " bytes; expected 12");
            },
            CarriageError::UnsupportedFecMetadataVersion(version) => {
                push_text(&mut out, "unsupported AL-FEC metadata version ");
                push_decimal(&mut out, *version as u64);
            },
            CarriageError::InvalidFecMetadataFlags => {
                push_text(&mut out, "invalid AL-FEC metadata flags or reserved bits");
            },
            CarriageError::NonMonotonicSubgroup { current, next } => {
                push_text(&mut out, "subgroup identity regressed from ");
                push_pair(&mut out, *current);
                push_text(&mut out, " to ");
                push_pair(&mut out, *next);
            },
            CarriageError::Transport(_) => {
                push_text(&mut out, "the track refused the object");
            },
        }
        assert(out@ =~= self.message());
        out
    }
}

/// The bytes of an identity: version, scheme, whether it is repair, a reserved
/// zero, the source block and the symbol.
pub open spec fn fec_bytes(m: AlFecMetadata) -> Seq<u8> {
    seq![1u8, m.scheme, if m.repair { 1u8 } else { 0u8 }, 0u8] + be_bytes(
        m.source_block_number as nat,
        4,
    ) + be_bytes(m.encoding_symbol_id as nat, 4)
}

/// The identity that bytes hold.
pub open spec fn fec_decode(s: Seq<u8>) -> Result<AlFecMetadata, CarriageError> {
    if s.len() != 12 {
        Err(CarriageError::InvalidFecMetadataLength(s.len() as usize))
    } else if s[0] != 1 {
        Err(CarriageError::UnsupportedFecMetadataVersion(s[0]))
    } else if s[2] > 1 || s[3] != 0 {
        Err(CarriageError::InvalidFecMetadataFlags)
    } else {
        Ok(
            AlFecMetadata {
                scheme: s[1],
                source_block_number: be_value(s.subrange(4, 8)) as u32,
                encoding_symbol_id: be_value(s.subrange(8, 12)) as u32,
                repair: s[2] == 1,
            },
        )
    }
}

/// An identity is read back as it was written.
pub proof fn law_fec_metadata_round_trip(m: AlFecMetadata)
    ensures
        fec_decode(fec_bytes(m)) == Ok::<AlFecMetadata, CarriageError>(m),
{
    reveal_with_fuel(pow256, 5);
    let s = fec_bytes(m);
    crate::wire::lemma_be_bytes_len(m.source_block_number as nat, 4);
    crate::wire::lemma_be_bytes_len(m.encoding_symbol_id as nat, 4);
    crate::wire::lemma_be_round_trip(m.source_block_number as nat, 4);
    crate::wire::lemma_be_round_trip(m.encoding_symbol_id as nat, 4);
    assert(s.subrange(4, 8) =~= be_bytes(m.source_block_number as nat, 4));
    assert(s.subrange(8, 12) =~= be_bytes(m.encoding_symbol_id as nat, 4));
}

/// The number that four bytes of a slice spell.
pub fn be_u32_at(s: &[u8], at: usize) -> (r: u32)
    requires
        at + 4 <= s@.len(),
    ensures
        r == be_value(s@.subrange(at as int, at + 4)),
{
    let n: usize = s.len();
    let mut r: u32 = 0;
    let mut i: usize = 0;
    while i < 4
        invariant
            i <= 4,
            at + 4 <= n == s@.len(),
            r == be_value(s@.subrange(at as int, at + i)),
        decreases 4 - i,
    {
        proof {
            reveal_with_fuel(pow256, 5);
            let longer = s@.subrange(at as int, at + i + 1);
            assert(longer.drop_last() =~= s@.subrange(at as int, at + i));
            crate::wire::lemma_be_value_bound(longer);
            crate::wire::lemma_pow256_monotonic((i + 1) as nat, 4);
        }
        r = r * 256 + s[at + i] as u32;
        i = i + 1;
    }
    r
}

impl AlFecMetadata {
    pub fn encode(self) -> (r: Vec<u8>)
        ensures
            r@ == fec_bytes(self),
    {
        let mut encoded: Vec<u8> = Vec::new();
        encoded.push(FEC_METADATA_VERSION);
        encoded.push(self.scheme);
        encoded.push(
            if self.repair {
                1
            } else {
                0
            },
        );
        encoded.push(0);
        put_be(&mut encoded, self.source_block_number as u64, 4);
        put_be(&mut encoded, self.encoding_symbol_id as u64, 4);
        assert(encoded@ =~= fec_bytes(self));
        encoded
    }

    pub fn decode(encoded: &[u8]) -> (r: Result<Self, CarriageError>)
        ensures
            r == fec_decode(encoded@),
    {
        if encoded.len() != FEC_METADATA_LEN {
            return Err(CarriageError::InvalidFecMetadataLength(encoded.len()));
        }
        if encoded[0] != FEC_METADATA_VERSION {
            return Err(CarriageError::UnsupportedFecMetadataVersion(encoded[0]));
        }
        if encoded[2] > 1 || encoded[3] != 0 {
            return Err(CarriageError::InvalidFecMetadataFlags);
        }
        Ok(
            AlFecMetadata {
                scheme: encoded[1],
                repair: encoded[2] == 1,
                source_block_number: be_u32_at(encoded, 4),
                encoding_symbol_id: be_u32_at(encoded, 8),
            },
        )
    }
}

/// One opaque MMTP packet and the object that carries it.
pub struct CarriageObject {
    pub group_id: u64,
    pub subgroup_id: u64,
    pub priority: u8,
    pub payload: Bytes,
    pub extension_headers: ExtensionHeaders,
}

/// The identity that extension headers hold under a type.
pub open spec fn fec_lookup(headers: Seq<PairView>, extension_id: u64) -> Result<
    Option<AlFecMetadata>,
    CarriageError,
> {
    match lookup(headers, extension_id) {
        None => Ok(None),
        Some(ValueView::IntValue(_)) => Err(CarriageError::FecExtensionMustBeBytes(extension_id)),
        Some(ValueView::BytesValue(b)) => match fec_decode(b) {
            Ok(m) => Ok(Some(m)),
            Err(e) => Err(e),
        },
    }
}

impl CarriageObject {
    pub open spec fn key(&self) -> (u64, u64) {
        (self.group_id, self.subgroup_id)
    }

    pub open spec fn subgroup(&self) -> Subgroup {
        Subgroup {
            group_id: self.group_id,
            subgroup_id: self.subgroup_id,
            priority: self.priority,
        }
    }

    /// Attaches an AL-FEC identity under an odd extension type. Every other
    /// extension stays.
    pub fn set_fec_metadata(&mut self, extension_id: u64, metadata: AlFecMetadata) -> (r: Result<
        (),
        CarriageError,
    >)
        ensures
            final(self).group_id == old(self).group_id,
            final(self).subgroup_id == old(self).subgroup_id,
            final(self).priority == old(self).priority,
            final(self).payload == old(self).payload,
            extension_id % 2 == 0 ==> r == Err::<(), CarriageError>(
                CarriageError::FecExtensionMustBeBytes(extension_id),
            ) && final(self).extension_headers@ == old(self).extension_headers@,
            extension_id % 2 == 1 ==> r == Ok::<(), CarriageError>(())
                && final(self).extension_headers@ == assign(
                old(self).extension_headers@,
                extension_id,
                ValueView::BytesValue(fec_bytes(metadata)),
            ),
    {
        if extension_id % 2 == 0 {
            return Err(CarriageError::FecExtensionMustBeBytes(extension_id));
        }
        self.extension_headers.set_bytesvalue(extension_id, metadata.encode());
        Ok(())
    }

    /// The AL-FEC identity under an extension type.
    pub fn fec_metadata(&self, extension_id: u64) -> (r: Result<
        Option<AlFecMetadata>,
        CarriageError,
    >)
        ensures
            r == fec_lookup(self.extension_headers@, extension_id),
    {
        match self.extension_headers.get(extension_id) {
            None => Ok(None),
            Some(extension) => match &extension.value {
                Value::BytesValue(value) => match AlFecMetadata::decode(value.as_slice()) {
                    Ok(m) => Ok(Some(m)),
                    Err(e) => Err(e),
                },
                Value::IntValue(_) => Err(CarriageError::FecExtensionMustBeBytes(extension_id)),
            },
        }
    }
}

/// What was attached is what is found, and every other extension is as it was.
pub proof fn law_fec_metadata_is_carried(
    headers: Seq<PairView>,
    extension_id: u64,
    metadata: AlFecMetadata,
    other: u64,
)
    ensures
        ({
            let after = assign(headers, extension_id, ValueView::BytesValue(fec_bytes(metadata)));
            &&& fec_lookup(after, extension_id) == Ok::<_, CarriageError>(Some(metadata))
            &&& other != extension_id ==> lookup(after, other) == lookup(headers, other)
        }),
{
    crate::kvp::law_assign_then_lookup(
        headers,
        extension_id,
        ValueView::BytesValue(fec_bytes(metadata)),
        other,
    );
    law_fec_metadata_round_trip(metadata);
}

/// Publishes packets on a track, subgroup by subgroup, in ascending order.
pub struct CarriageWriter {
    subgroups: SubgroupsWriter,
    current: Option<SubgroupWriter>,
}

/// The subgroups of a track, once the last one is left where it was open: what
/// was written stays, and readers learn that nothing follows.
pub open spec fn left(groups: Seq<SubgroupView>, open: bool) -> Seq<SubgroupView> {
    if open {
        groups.drop_last().push(SubgroupView { live: false, ..groups.last() })
    } else {
        groups
    }
}

/// What publishing a packet comes to: it is the next object of the current
/// subgroup, or the first object of a new one. A subgroup that is not beyond
/// the current one is refused.
pub open spec fn published(
    before: CarriageWriter,
    after: CarriageWriter,
    track: SubgroupsState,
    track_after: SubgroupsState,
    groups: Seq<SubgroupView>,
    groups_after: Seq<SubgroupView>,
    object: CarriageObject,
    r: Result<(), CarriageError>,
) -> bool {
    let payload = bytes_view(object.payload);
    let headers = object.extension_headers@;
    match before.current_subgroup() {
        Some(c) if c.key() == object.key() => {
            let last = groups.last();
            &&& track_after.same_but_mark(&track)
            &&& after.spec_subgroups() == before.spec_subgroups()
            &&& after.current_subgroup() == Some(c)
            &&& after.next_object() == before.next_object() + 1
            &&& last.live ==> {
                &&& r == Ok::<(), CarriageError>(())
                &&& groups_after == groups.drop_last().push(
                    SubgroupView {
                        objects: last.objects.push(
                            whole_object(before.next_object(), payload, headers),
                        ),
                        ..last
                    },
                )
                &&& track_after.largest() == advanced(
                    track.largest(),
                    (c.group_id, before.next_object()),
                )
            }
            &&& !last.live ==> {
                &&& r == Err::<(), CarriageError>(
                    CarriageError::Transport(ServeError::Cancel),
                )
                &&& groups_after == groups
                &&& track_after.largest() == track.largest()
            }
        },
        Some(c) if at_most(object.key(), c.key()) => {
            &&& r == Err::<(), CarriageError>(
                CarriageError::NonMonotonicSubgroup {
                    current: c.key(),
                    next: object.key(),
                },
            )
            &&& track_after == track
            &&& groups_after == groups
            &&& after == before
        },
        _ => if !track.spec_live() || track.key_closed(object.key()) {
            &&& r == Err::<(), CarriageError>(
                CarriageError::Transport(
                    if track.spec_live() {
                        ServeError::Duplicate
                    } else {
                        ServeError::Cancel
                    },
                ),
            )
            &&& track_after == track
            &&& groups_after == groups
            &&& after == before
        } else {
            &&& r == Ok::<(), CarriageError>(())
            &&& track_after.created() == track.created().push(object.subgroup())
            &&& groups_after == left(groups, before.current_subgroup() is Some).push(
                SubgroupView {
                    info: object.subgroup(),
                    objects: seq![whole_object(0, payload, headers)],
                    closed: Ok(()),
                    live: true,
                },
            )
            &&& track_after.largest() == advanced(track.largest(), (object.group_id, 0))
            &&& track_after.first() >= track.first()
            &&& track_after.trimmed()
            &&& is_frontier(
                track_after.created().take(track_after.first() as int),
                track_after.frontier(),
            )
            &&& track_after.cursors() == track.cursors()
            &&& track_after.activations() == track.activations()
            &&& track_after.spec_closed() == track.spec_closed()
            &&& track_after.spec_live()
            &&& after.spec_subgroups()@ == before.spec_subgroups()@.created(object.subgroup())
            &&& after.current_subgroup() == Some(object.subgroup())
            &&& after.next_object() == 1
        },
    }
}

/// A published packet is carried whole, with its headers, as the one new object:
/// the last of the last subgroup, which is a new one unless it is current. No
/// other object changes.
pub proof fn law_published_packet_is_carried(
    before: CarriageWriter,
    after: CarriageWriter,
    track: SubgroupsState,
    track_after: SubgroupsState,
    groups: Seq<SubgroupView>,
    groups_after: Seq<SubgroupView>,
    object: CarriageObject,
)
    requires
        before.wf(&track, groups),
        published(
            before,
            after,
            track,
            track_after,
            groups,
            groups_after,
            object,
            Ok(()),
        ),
    ensures
        groups_after.len() > 0,
        groups_after.last().objects.len() > 0,
        ({
            let carried = groups_after.last().objects.last();
            &&& carried.payload() == bytes_view(object.payload)
            &&& carried.extension_headers == object.extension_headers@
        }),
        ({
            let same = before.current_subgroup() matches Some(c) && c.key() == object.key();
            &&& groups_after.len() == groups.len() + if same {
                0int
            } else {
                1
            }
            &&& groups_after.last().objects.drop_last() == if same {
                groups.last().objects
            } else {
                Seq::empty()
            }
        }),
        forall|i: int|
            0 <= i < groups_after.len() - 1 ==> (#[trigger] groups_after[i]).objects
                == groups[i].objects,
        before.current_subgroup() matches Some(c) ==> at_most(c.key(), object.key()),
{
    crate::serve::object::law_whole_object_reads_back(
        groups_after.last().objects.last().object_id,
        bytes_view(object.payload),
        object.extension_headers@,
    );
    assert(groups_after.last().objects.drop_last() =~= if before.current_subgroup() matches Some(c)
        && c.key() == object.key() {
        groups.last().objects
    } else {
        Seq::empty()
    });
}

/// Exactly the packets of a subgroup before the current one are refused as
/// regressions, and a refusal creates and writes nothing. A subgroup is created
/// only where the packet belongs to another one than the current.
pub proof fn law_exactly_regressions_are_refused(
    before: CarriageWriter,
    after: CarriageWriter,
    track: SubgroupsState,
    track_after: SubgroupsState,
    groups: Seq<SubgroupView>,
    groups_after: Seq<SubgroupView>,
    object: CarriageObject,
    r: Result<(), CarriageError>,
)
    requires
        published(before, after, track, track_after, groups, groups_after, object, r),
    ensures
        r matches Err(CarriageError::NonMonotonicSubgroup { current, next }) ==> {
            &&& next == object.key()
            &&& before.current_subgroup() matches Some(c)
            &&& c.key() == current
            &&& at_most(next, current)
            &&& next != current
        },
        (before.current_subgroup() matches Some(c) && at_most(object.key(), c.key())
            && object.key() != c.key()) ==> (r matches Err(
            CarriageError::NonMonotonicSubgroup { .. },
        )) && track_after == track && groups_after == groups && after == before,
        r is Err ==> track_after.created() == track.created() && groups_after == groups,
        r is Ok ==> track_after.created() == if before.current_subgroup() matches Some(c)
            && c.key() == object.key() {
            track.created()
        } else {
            track.created().push(object.subgroup())
        },
{
}

impl CarriageWriter {
    /// The subgroup that is being written.
    pub closed spec fn current_subgroup(&self) -> Option<Subgroup> {
        match self.current {
            Some(w) => Some(w.spec_info()),
            None => None,
        }
    }

    /// The number of the next object in the subgroup that is being written.
    pub closed spec fn next_object(&self) -> u64 {
        match self.current {
            Some(w) => w.next_object(),
            None => 0,
        }
    }

    pub closed spec fn spec_subgroups(&self) -> SubgroupsWriter {
        self.subgroups
    }

    /// The writer belongs to the track, and the last of the track's subgroups
    /// is the one being written.
    pub open spec fn wf(&self, track: &SubgroupsState, groups: Seq<SubgroupView>) -> bool {
        &&& self.spec_subgroups().wf(track)
        &&& self.current_subgroup() is Some ==> groups.len() > 0
    }

    pub fn new(subgroups: SubgroupsWriter) -> (r: Self)
        ensures
            r.spec_subgroups() == subgroups,
            r.current_subgroup() is None,
    {
        CarriageWriter { subgroups, current: None }
    }

    /// Publishes a packet: as the next object of the current subgroup, or as
    /// the first object of a new one. A subgroup that is not beyond the current
    /// one is refused.
    pub fn publish(
        &mut self,
        track: &mut SubgroupsState,
        groups: &mut Vec<SubgroupState>,
        object: &CarriageObject,
    ) -> (r: Result<(), CarriageError>)
        requires
            old(track).wf(),
            old(self).wf(old(track), groups_view(old(groups)@)),
            old(track).created().len() < usize::MAX,
            old(self).next_object() < u64::MAX,
        ensures
            final(track).wf(),
            final(self).wf(final(track), groups_view(final(groups)@)),
            published(
                *old(self),
                *final(self),
                *old(track),
                *final(track),
                groups_view(old(groups)@),
                groups_view(final(groups)@),
                *object,
                r,
            ),
    {
        let next: (u64, u64) = (object.group_id, object.subgroup_id);
        let ghost before = groups_view(groups@);
        let mut fresh: bool = true;
        if let Some(writer) = &self.current {
            let info: Subgroup = writer.info();
            let current: (u64, u64) = (info.group_id, info.subgroup_id);
            if current.0 == next.0 && current.1 == next.1 {
                fresh = false;
            } else if location_at_most(next, current) {
                return Err(CarriageError::NonMonotonicSubgroup { current, next });
            }
        }
        let subgroup = Subgroup {
            group_id: object.group_id,
            subgroup_id: object.subgroup_id,
            priority: object.priority,
        };
        if fresh {
            match self.subgroups.create(track, subgroup) {
                Err(e) => {
                    return Err(CarriageError::Transport(e));
                },
                Ok(_) => {},
            }
            if self.current.is_some() {
                let last: usize = groups.len() - 1;
                groups[last].drop_side();
            }
            assert(groups_view(groups@) =~= left(before, self.current is Some));
            let ghost kept = groups_view(groups@);
            let (state, writer, _reader) = SubgroupState::produce(subgroup);
            let ghost added = state@;
            groups.push(state);
            self.current = Some(writer);
            assert(groups_view(groups@) =~= kept.push(added));
        }
        let n: usize = groups.len();
        let ghost mid = groups_view(groups@);
        let payload: Bytes = bytes_clone(&object.payload);
        let headers: ExtensionHeaders = object.extension_headers.clone();
        if let Some(writer) = &mut self.current {
            let mut mark: Option<(u64, u64)> = track.largest_location();
            let group_id: u64 = writer.info().group_id;
            let object_id: u64 = writer.next_object_id();
            let r: Result<(), ServeError> = writer.write_with_headers(
                &mut groups[n - 1],
                &mut mark,
                payload,
                headers,
            );
            if r.is_ok() {
                track.record((group_id, object_id));
            }
            proof {
                let after = groups_view(groups@);
                let last = groups@[n - 1]@;
                assert(after =~= mid.drop_last().push(last));
                if !mid.last().live {
                    assert(after =~= before);
                }
                if fresh {
                    assert(mid.drop_last() =~= left(before, old(self).current_subgroup() is Some));
                    assert(last.objects =~= seq![
                        whole_object(0, bytes_view(object.payload), object.extension_headers@),
                    ]);
                }
            }
            match r {
                Ok(()) => Ok(()),
                Err(e) => Err(CarriageError::Transport(e)),
            }
        } else {
            Ok(())
        }
    }
}

/// Where each part of an identity stands: the version, the scheme, the repair
/// flag, a zero, and then the block and the symbol, most significant byte first.
pub proof fn law_fec_metadata_layout(m: AlFecMetadata)
    ensures
        ({
            let s = fec_bytes(m);
            &&& s.len() == 12
            &&& s[0] == 1
            &&& s[1] == m.scheme
            &&& s[2] == 1 <==> m.repair
            &&& s[2] <= 1
            &&& s[3] == 0
            &&& be_value(s.subrange(4, 8)) == m.source_block_number
            &&& be_value(s.subrange(8, 12)) == m.encoding_symbol_id
        }),
{
    reveal_with_fuel(pow256, 5);
    let s = fec_bytes(m);
    crate::wire::lemma_be_bytes_len(m.source_block_number as nat, 4);
    crate::wire::lemma_be_bytes_len(m.encoding_symbol_id as nat, 4);
    crate::wire::lemma_be_round_trip(m.source_block_number as nat, 4);
    crate::wire::lemma_be_round_trip(m.encoding_symbol_id as nat, 4);
    assert(s.subrange(4, 8) =~= be_bytes(m.source_block_number as nat, 4));
    assert(s.subrange(8, 12) =~= be_bytes(m.encoding_symbol_id as nat, 4));
}

/// Bytes hold an identity exactly where they are twelve, of the known version,
/// and have no flag or reserved bit but that for repair.
pub proof fn law_fec_metadata_is_refused_for_cause(s: Seq<u8>)
    ensures
        (fec_decode(s) is Ok) == (s.len() == 12 && s[0] == 1 && s[2] <= 1 && s[3] == 0),
        s.len() != 12 ==> fec_decode(s) == Err::<AlFecMetadata, CarriageError>(
            CarriageError::InvalidFecMetadataLength(s.len() as usize),
        ),
        s.len() == 12 && s[0] != 1 ==> fec_decode(s) == Err::<AlFecMetadata, CarriageError>(
            CarriageError::UnsupportedFecMetadataVersion(s[0]),
        ),
        s.len() == 12 && s[0] == 1 && (s[2] > 1 || s[3] != 0) ==> fec_decode(s) == Err::<
            AlFecMetadata,
            CarriageError,
        >(CarriageError::InvalidFecMetadataFlags),
{
}

/// Headers without the type hold no identity; a number under it is an error, and
/// so are bytes that hold none.
pub proof fn law_identity_is_found_under_its_type(headers: Seq<PairView>, extension_id: u64)
    ensures
        lookup(headers, extension_id) is None ==> fec_lookup(headers, extension_id) == Ok::<
            Option<AlFecMetadata>,
            CarriageError,
        >(None),
        lookup(headers, extension_id) matches Some(ValueView::IntValue(_)) ==> fec_lookup(
            headers,
            extension_id,
        ) == Err::<Option<AlFecMetadata>, CarriageError>(
            CarriageError::FecExtensionMustBeBytes(extension_id),
        ),
        lookup(headers, extension_id) matches Some(ValueView::BytesValue(b)) ==> {
            &&& fec_decode(b) matches Ok(m) ==> fec_lookup(headers, extension_id) == Ok::<
                Option<AlFecMetadata>,
                CarriageError,
            >(Some(m))
            &&& fec_decode(b) matches Err(e) ==> fec_lookup(headers, extension_id) == Err::<
                Option<AlFecMetadata>,
                CarriageError,
            >(e)
        },
{
}

/// A packet of the current subgroup is published exactly where somebody reads
/// that subgroup, under the next object number, and moves the track's largest
/// location no way but forward. A packet of a later subgroup is published exactly
/// where somebody reads the track and the subgroup was not there before; it is
/// the first object of a subgroup in its group and at its priority, and the one
/// before it is done.
pub proof fn law_packets_are_published_where_they_can_be(
    before: CarriageWriter,
    after: CarriageWriter,
    track: SubgroupsState,
    track_after: SubgroupsState,
    groups: Seq<SubgroupView>,
    groups_after: Seq<SubgroupView>,
    object: CarriageObject,
    r: Result<(), CarriageError>,
)
    requires
        before.wf(&track, groups),
        published(before, after, track, track_after, groups, groups_after, object, r),
    ensures
        ({
            let current = before.current_subgroup();
            let same = current is Some && (current->0).group_id == object.group_id && (
            current->0).subgroup_id == object.subgroup_id;
            let later = current is None || (current->0).group_id < object.group_id || ((
            current->0).group_id == object.group_id && (current->0).subgroup_id
                < object.subgroup_id);
            &&& same ==> {
                &&& (r is Ok) == groups.last().live
                &&& r is Err ==> r == Err::<(), CarriageError>(
                    CarriageError::Transport(ServeError::Cancel),
                )
                &&& r is Ok ==> {
                    &&& groups_after.last().objects.last().object_id == before.next_object()
                    &&& groups_after.last().info == groups.last().info
                    &&& groups_after.last().live
                    &&& track_after.created() == track.created()
                }
            }
            &&& later ==> {
                &&& (r is Ok) == (track.spec_live() && !track.key_closed(
                    (object.group_id, object.subgroup_id),
                ))
                &&& !track.spec_live() ==> r == Err::<(), CarriageError>(
                    CarriageError::Transport(ServeError::Cancel),
                )
                &&& track.spec_live() && r is Err ==> r == Err::<(), CarriageError>(
                    CarriageError::Transport(ServeError::Duplicate),
                )
                &&& r is Ok ==> {
                    let opened = groups_after.last();
                    &&& opened.info.group_id == object.group_id
                    &&& opened.info.subgroup_id == object.subgroup_id
                    &&& opened.info.priority == object.priority
                    &&& opened.live
                    &&& opened.closed is Ok
                    &&& opened.objects.len() == 1
                    &&& opened.objects[0].object_id == 0
                    &&& track_after.created().len() == track.created().len() + 1
                    &&& track_after.created().last() == opened.info
                    &&& current is Some ==> {
                        &&& groups.len() > 0
                        &&& !groups_after[groups.len() - 1].live
                        &&& groups_after[groups.len() - 1].closed == groups.last().closed
                        &&& groups_after[groups.len() - 1].info == groups.last().info
                    }
                    &&& forall|i: int|
                        0 <= i < groups.len() - 1 ==> #[trigger] groups_after[i] == groups[i]
                }
            }
            &&& r is Ok ==> {
                &&& after.current_subgroup() is Some
                &&& (after.current_subgroup()->0).group_id == object.group_id
                &&& (after.current_subgroup()->0).subgroup_id == object.subgroup_id
                &&& after.next_object() == groups_after.last().objects.last().object_id + 1
                &&& track_after.largest() is Some
                &&& track.largest() matches Some(was) ==> was.0 < (track_after.largest()->0).0 || (
                was.0 == (track_after.largest()->0).0 && was.1 <= (track_after.largest()->0).1)
            }
        }),
{
    if r is Ok {
        if let Some(c) = before.current_subgroup() {
            if c.key() == object.key() {
                assert(groups_after.last() == groups_after[groups_after.len() - 1]);
            }
        }
    }
}

/// Publishing a packet leaves the readers of the track where they are and the
/// track as open as it was; what is given up for it they have all read.
pub proof fn law_publishing_leaves_the_readers(
    before: CarriageWriter,
    after: CarriageWriter,
    track: SubgroupsState,
    track_after: SubgroupsState,
    groups: Seq<SubgroupView>,
    groups_after: Seq<SubgroupView>,
    object: CarriageObject,
    r: Result<(), CarriageError>,
)
    requires
        before.wf(&track, groups),
        published(before, after, track, track_after, groups, groups_after, object, r),
    ensures
        track_after.cursors() == track.cursors(),
        track_after.activations() == track.activations(),
        track_after.spec_closed() == track.spec_closed(),
        track_after.spec_live() == track.spec_live(),
        track_after.first() >= track.first(),
        track_after.created().len() > track.created().len() ==> {
            &&& track_after.first() <= track.created().len()
            &&& forall|id: u64| #[trigger]
                track.cursors().dom().contains(id) ==> track_after.first()
                    <= track.cursors()[id]
            &&& forall|i: int|
                0 <= i < track_after.first() ==> {
                    let key = (#[trigger] track_after.created()[i]).key();
                    &&& track_after.frontier() is Some
                    &&& key.0 < (track_after.frontier()->0).0 || (key.0 == (
                    track_after.frontier()->0).0 && key.1 <= (track_after.frontier()->0).1)
                }
            &&& after.next_object() == 1
        },
{
    if track_after.created().len() > track.created().len() {
        let given_up = track_after.created().take(track_after.first() as int);
        assert(crate::serve::subgroup::is_front(
            track_after.first(),
            track_after.created().len(),
            track_after.cursors(),
        ));
        assert forall|i: int| 0 <= i < track_after.first() implies {
            let key = (#[trigger] track_after.created()[i]).key();
            &&& track_after.frontier() is Some
            &&& key.0 < (track_after.frontier()->0).0 || (key.0 == (track_after.frontier()->0).0
                && key.1 <= (track_after.frontier()->0).1)
        } by {
            assert(given_up[i] == track_after.created()[i]);
        }
    }
}

/// A packet of a new subgroup tells the writer to go on with a later group, and
/// one of the current subgroup leaves it as it was.
pub proof fn law_new_subgroup_moves_the_writer(
    before: CarriageWriter,
    after: CarriageWriter,
    track: SubgroupsState,
    track_after: SubgroupsState,
    groups: Seq<SubgroupView>,
    groups_after: Seq<SubgroupView>,
    object: CarriageObject,
    r: Result<(), CarriageError>,
)
    requires
        before.wf(&track, groups),
        published(before, after, track, track_after, groups, groups_after, object, r),
    ensures
        ({
            let old_writer = before.spec_subgroups()@;
            let new_writer = after.spec_subgroups()@;
            &&& track_after.created().len() > track.created().len() ==> {
                &&& new_writer.last_group == object.group_id
                &&& new_writer.next_group >= old_writer.next_group
                &&& object.group_id < u64::MAX ==> new_writer.next_group > object.group_id
                &&& object.subgroup_id < u64::MAX ==> new_writer.next_subgroup
                    == object.subgroup_id + 1
            }
            &&& track_after.created() == track.created() ==> new_writer == old_writer
        }),
{
}

} // verus!
