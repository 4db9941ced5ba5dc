//! Packets onto tracks: one group per MPU, and the repair symbols of a track on
//! a track of their own, one group per source block.
//!
//! The first packet of an MPU carries its metadata. MPU sequence numbers never
//! go back. A packet id that no track has is an error.

use bytes::Bytes;
use std::collections::VecDeque;
use vstd::prelude::*;

use super::parse::PacketRouting;
use crate::mmt::{FragmentType, PacketType};
use crate::serve::object::{SubgroupState, SubgroupView, SubgroupWriter};
use crate::serve::subgroup::{Subgroup, SubgroupsState, SubgroupsWriter};
use crate::serve::{advance_mark, joined, ServeError, Standing};
use crate::table::Table;
use crate::text::{decimal, push_decimal, push_text};
use crate::wire::bytes_view;

verus! {

/// How many source symbols a block holds.
pub const FEC_K: u32 = 32;

/// The priority of repair groups.
pub const REPAIR_GROUP_PRIORITY: u8 = 7;

/// Where the objects of one group go.
pub trait SubgroupWrite: Sized {
    /// What the writer keeps true of itself.
    spec fn valid(&self) -> bool;

    /// The payloads that were written.
    spec fn objects(&self) -> Seq<Seq<u8>>;

    /// How the group stands with those who read it.
    spec fn standing(&self) -> Standing;

    /// Why a payload is not taken, if it is not.
    spec fn refusal(&self, payload: Seq<u8>) -> Option<ServeError>;

    /// Appends one packet as an object.
    fn put_object(&mut self, payload: Bytes) -> (r: Result<(), ServeError>)
        requires
            old(self).valid(),
        ensures
            final(self).valid(),
            final(self).standing() == old(self).standing(),
            match old(self).refusal(bytes_view(payload)) {
                None => {
                    &&& r == Ok::<(), ServeError>(())
                    &&& final(self).objects() == old(self).objects().push(bytes_view(payload))
                },
                Some(e) => {
                    &&& r == Err::<(), ServeError>(e)
                    &&& final(self).objects() == old(self).objects()
                },
            },
    ;
}

/// Where the groups of one track are opened.
pub trait TrackSubgroups: Sized {
    type Group: SubgroupWrite;

    /// What the track keeps true of itself.
    spec fn valid(&self) -> bool;

    /// The group, subgroup and priority of every group that was opened.
    spec fn created(&self) -> Seq<(u64, u64, u8)>;

    /// How the track stands with those who read it.
    spec fn standing(&self) -> Standing;

    /// How a group stands that was just opened.
    spec fn first_standing(&self, group_id: u64, subgroup_id: u64, priority: u8) -> Standing;

    /// The payloads of every group that is written no more.
    spec fn retired(&self) -> Seq<Seq<Seq<u8>>>;

    /// Why a group is not opened, if it is not.
    spec fn refusal(&self, group_id: u64, subgroup_id: u64, priority: u8) -> Option<ServeError>;

    /// Why a group that was just opened does not take a payload, if it does
    /// not.
    spec fn first_refusal(
        &self,
        group_id: u64,
        subgroup_id: u64,
        priority: u8,
        payload: Seq<u8>,
    ) -> Option<ServeError>;

    /// Opens a group.
    fn create_group(&mut self, group_id: u64, subgroup_id: u64, priority: u8) -> (r: Result<
        Self::Group,
        ServeError,
    >)
        requires
            old(self).valid(),
        ensures
            final(self).valid(),
            final(self).retired() == old(self).retired(),
            final(self).standing() == old(self).standing(),
            match old(self).refusal(group_id, subgroup_id, priority) {
                None => {
                    &&& final(self).created() == old(self).created().push(
                        (group_id, subgroup_id, priority),
                    )
                    &&& r matches Ok(group)
                    &&& group.valid()
                    &&& group.objects() == Seq::<Seq<u8>>::empty()
                    &&& group.standing() == old(self).first_standing(
                        group_id,
                        subgroup_id,
                        priority,
                    )
                    &&& forall|p: Seq<u8>| #[trigger]
                        group.refusal(p) == old(self).first_refusal(
                            group_id,
                            subgroup_id,
                            priority,
                            p,
                        )
                },
                Some(e) => {
                    &&& final(self).created() == old(self).created()
                    &&& r matches Err(x)
                    &&& x == e
                },
            },
    ;

    /// A group is written no more. What was written stays for those who read.
    fn retire(&mut self, group: Self::Group)
        requires
            old(self).valid(),
            group.valid(),
        ensures
            final(self).valid(),
            final(self).created() == old(self).created(),
            final(self).standing() == old(self).standing(),
            final(self).retired() == old(self).retired().push(group.objects()),
            forall|g: u64, s: u64, p: u8| #[trigger]
                final(self).refusal(g, s, p) == old(self).refusal(g, s, p),
    ;
}

/// The payloads of the groups that are written no more, once a group that may
/// have been open is among them.
pub open spec fn retired_with<G: SubgroupWrite>(
    retired: Seq<Seq<Seq<u8>>>,
    group: Option<G>,
) -> Seq<Seq<Seq<u8>>> {
    match group {
        Some(g) => retired.push(g.objects()),
        None => retired,
    }
}

/// The repair track of a source track.
pub struct RepairSink<T: TrackSubgroups> {
    pub sink: T,
    /// The group of the block that repair symbols are being written for.
    pub current_group: Option<T::Group>,
    pub current_sbn: Option<u32>,
}

/// A track as packets go by.
pub struct TrackState<T: TrackSubgroups> {
    pub name: String,
    pub priority: u8,
    pub sink: T,
    /// The group of the MPU that is being written.
    pub current_group: Option<T::Group>,
    pub current_group_id: Option<u64>,
    pub last_seen_mpu_seq: Option<u32>,
    /// The block of the last source symbol.
    pub current_sbn: Option<u32>,
    pub repair: Option<RepairSink<T>>,
}

impl<T: TrackSubgroups> TrackState<T> {
    /// What every packet keeps.
    pub open spec fn wf(&self) -> bool {
        &&& self.sink.valid()
        &&& self.current_group matches Some(g) ==> g.valid()
        &&& self.repair matches Some(repair) ==> {
            &&& repair.sink.valid()
            &&& repair.current_group matches Some(g) ==> g.valid()
            &&& repair.current_sbn is Some ==> repair.current_group is Some
        }
    }

    /// A track that no packet has reached.
    pub fn new(name: String, priority: u8, sink: T, repair: Option<T>) -> (r: Self)
        requires
            sink.valid(),
            repair matches Some(s) ==> s.valid(),
        ensures
            r.wf(),
            r.name == name,
            r.priority == priority,
            r.sink == sink,
            r.current_group is None,
            r.current_group_id is None,
            r.last_seen_mpu_seq is None,
            r.current_sbn is None,
            match repair {
                None => r.repair is None,
                Some(s) => r.repair == Some(
                    RepairSink { sink: s, current_group: None, current_sbn: None },
                ),
            },
    {
        TrackState {
            name,
            priority,
            sink,
            current_group: None,
            current_group_id: None,
            last_seen_mpu_seq: None,
            current_sbn: None,
            repair: match repair {
                Some(sink) => Some(RepairSink { sink, current_group: None, current_sbn: None }),
                None => None,
            },
        }
    }
}

/// Why a packet was not published.
#[derive(Clone, Debug, PartialEq, Eq)]
pub enum DispatchError {
    UnknownPacketId(u16),
    MissingMpuSequence(u16),
    MissingFragmentType(u16),
    MpuRegression { packet_id: u16, mpu_seq: u32, last: u32 },
    NoCurrentGroup { packet_id: u16, last: u32 },
    FirstPacketNotInit { packet_id: u16, mpu_seq: u32, fragment_type: FragmentType },
    RepairBeforeSource(u16),
    NoRepairSibling { packet_id: u16, name: String },
    /// The track did not take the packet.
    Sink(ServeError),
}

impl DispatchError {
    /// The error in words.
    pub open spec fn message(self) -> Seq<char> {
        match self {
            DispatchError::UnknownPacketId(packet_id) => "unknown packet_id "@
                + decimal(packet_id as nat) + ": not in catalog multicast.endpoints[].tracks[]"@,
            DispatchError::MissingMpuSequence(packet_id) => "packet_id "@
                + decimal(packet_id as nat)
                + " is Mpu but mmtp_parse::route did not populate mpu_sequence"@,
            DispatchError::MissingFragmentType(packet_id) => "packet_id "@
                + decimal(packet_id as nat)
                + " is Mpu but mmtp_parse::route did not populate fragment_type"@,
            DispatchError::MpuRegression { packet_id, mpu_seq, last } => "MPU sequence regression on packet_id "@
                + decimal(packet_id as nat) + ": got mpu_seq="@ + decimal(mpu_seq as nat)
                + ", last seen "@ + decimal(last as nat)
                + " (A2: moq-transport's SubgroupsWriter would silently drop this)"@,
            DispatchError::NoCurrentGroup { packet_id, last } => "internal invariant: packet_id "@
                + decimal(packet_id as nat) + " has last_seen_mpu_seq="@ + decimal(last as nat)
                + " but no current_group"@,
            DispatchError::FirstPacketNotInit { packet_id, mpu_seq, fragment_type } => "first packet of MPU mpu_seq="@
                + decimal(mpu_seq as nat) + " on packet_id "@ + decimal(packet_id as nat)
                + " has fragment_type="@ + fragment_type.spec_variant()
                + ", expected Init (A1: MPU metadata must be object 0 of the new group)"@,
            DispatchError::RepairBeforeSource(packet_id) => "repair packet for packet_id "@
                + decimal(packet_id as nat)
                + " arrived before any source FEC block (no SourceFecPayloadId seen; FEC encoder must emit source packets with fec_type=1 before repair symbols)"@,
            DispatchError::NoRepairSibling { packet_id, name } => "repair packet for packet_id "@
                + decimal(packet_id as nat)
                + " but no /repair sibling track was registered for `"@ + name@
                + "` (build_state_map misconfiguration?)"@,
            DispatchError::Sink(_) => "the track refused the packet"@,
        }
    }

    pub fn describe(&self) -> (r: String)
        ensures
            r@ == self.message(),
    {
        let mut out: String = String::new();
        match self {
            DispatchError::UnknownPacketId(packet_id) => {
                push_text(&mut out, "unknown packet_id ");
                push_decimal(&mut out, *packet_id as u64);
                push_text(&mut out, ": not in catalog multicast.endpoints[].tracks[]");
            },
            DispatchError::MissingMpuSequence(packet_id) => {
                push_text(&mut out, "packet_id ");
                push_decimal(&mut out, *packet_id as u64);
                push_text(&mut out, " is Mpu but mmtp_parse::route did not populate mpu_sequence");
            },
            DispatchError::MissingFragmentType(packet_id) => {
                push_text(&mut out, "packet_id ");
                push_decimal(&mut out, *packet_id as u64);
                push_text(&mut out, " is Mpu but mmtp_parse::route did not populate fragment_type");
            },
            DispatchError::MpuRegression { packet_id, mpu_seq, last } => {
                push_text(&mut out, "MPU sequence regression on packet_id ");
                push_decimal(&mut out, *packet_id as u64);
                push_text(&mut out, ": got mpu_seq=");
                push_decimal(&mut out, *mpu_seq as u64);
                push_text(&mut out, ", last seen ");
                push_decimal(&mut out, *last as u64);
                push_text(
                    &mut out,
                    " (A2: moq-transport's SubgroupsWriter would silently drop this)",
                );
            },
            DispatchError::NoCurrentGroup { packet_id, last } => {
                push_text(&mut out, "internal invariant: packet_id ");
                push_decimal(&mut out, *packet_id as u64);
                push_text(&mut out, " has last_seen_mpu_seq=");
                push_decimal(&mut out, *last as u64);
                push_text(&mut out, " but no current_group");
            },
            DispatchError::FirstPacketNotInit { packet_id, mpu_seq, fragment_type } => {
                push_text(&mut out, "first packet of MPU mpu_seq=");
                push_decimal(&mut out, *mpu_seq as u64);
                push_text(&mut out, " on packet_id ");
                push_decimal(&mut out, *packet_id as u64);
                push_text(&mut out, " has fragment_type=");
                push_text(&mut out, fragment_type.variant());
                push_text(&mut out, ", expected Init (A1: MPU metadata must be object 0 of the new group)");
            },
            DispatchError::RepairBeforeSource(packet_id) => {
                push_text(&mut out, "repair packet for packet_id ");
                push_decimal(&mut out, *packet_id as u64);
                push_text(&mut out, " arrived before any source FEC block (no SourceFecPayloadId seen; FEC encoder must emit source packets with fec_type=1 before repair symbols)");
            },
            DispatchError::NoRepairSibling { packet_id, name } => {
                push_text(&mut out, "repair packet for packet_id ");
                push_decimal(&mut out, *packet_id as u64);
                push_text(&mut out, " but no /repair sibling track was registered for `");
                push_text(&mut out, name.as_str());
                push_text(&mut out, "` (build_state_map misconfiguration?)");
            },
            DispatchError::Sink(_) => {
                push_text(&mut out, "the track refused the packet");
            },
        }
        assert(out@ =~= self.message());
        out
    }
}

/// What a packet does to its track.
pub enum Step {
    /// Nothing: it is no media.
    Skip,
    /// It continues the MPU that is being written.
    Append,
    /// It starts an MPU.
    Open(u32),
    /// It repairs the block that is being repaired.
    RepairAppend,
    /// It repairs another block.
    RepairOpen(u32),
}

/// What a media packet does to its track.
pub open spec fn decide_media(
    last: Option<u32>,
    group_open: bool,
    routing: PacketRouting,
) -> Result<Step, DispatchError> {
    match (routing.mpu_sequence, routing.fragment_type) {
        (None, _) => Err(DispatchError::MissingMpuSequence(routing.packet_id)),
        (_, None) => Err(DispatchError::MissingFragmentType(routing.packet_id)),
        (Some(mpu_seq), Some(fragment_type)) => if last matches Some(l) && mpu_seq < l {
            Err(
                DispatchError::MpuRegression {
                    packet_id: routing.packet_id,
                    mpu_seq,
                    last: last->0,
                },
            )
        } else if last == Some(mpu_seq) {
            if group_open {
                Ok(Step::Append)
            } else {
                Err(
                    DispatchError::NoCurrentGroup { packet_id: routing.packet_id, last: mpu_seq },
                )
            }
        } else if fragment_type != FragmentType::Init {
            Err(
                DispatchError::FirstPacketNotInit {
                    packet_id: routing.packet_id,
                    mpu_seq,
                    fragment_type,
                },
            )
        } else {
            Ok(Step::Open(mpu_seq))
        },
    }
}

/// What a packet does to its track, or why it does nothing.
pub open spec fn decide<T: TrackSubgroups>(
    state: TrackState<T>,
    routing: PacketRouting,
) -> Result<Step, DispatchError> {
    match routing.packet_type {
        PacketType::Mpu => decide_media(
            state.last_seen_mpu_seq,
            state.current_group is Some,
            routing,
        ),
        PacketType::Repair => match state.current_sbn {
            None => Err(DispatchError::RepairBeforeSource(routing.packet_id)),
            Some(sbn) => match state.repair {
                None => Err(
                    DispatchError::NoRepairSibling {
                        packet_id: routing.packet_id,
                        name: state.name,
                    },
                ),
                Some(repair) => if repair.current_sbn == Some(sbn) {
                    Ok(Step::RepairAppend)
                } else {
                    Ok(Step::RepairOpen(sbn))
                },
            },
        },
        _ => Ok(Step::Skip),
    }
}

/// The block of the last source symbol after a packet.
pub open spec fn sbn_after(current: Option<u32>, routing: PacketRouting) -> Option<u32> {
    match routing.source_fec_payload_id {
        Some(id) => Some(id.spec_sbn(FEC_K)),
        None => current,
    }
}

/// A payload was put into a group that was open.
pub open spec fn appended<G: SubgroupWrite>(
    before: Option<G>,
    after: Option<G>,
    payload: Seq<u8>,
    r: Result<(), DispatchError>,
) -> bool {
    &&& before matches Some(b)
    &&& after matches Some(a)
    &&& a.standing() == b.standing()
    &&& match b.refusal(payload) {
        None => r == Ok::<(), DispatchError>(()) && a.objects() == b.objects().push(payload),
        Some(e) => r == Err::<(), DispatchError>(DispatchError::Sink(e)) && a.objects()
            == b.objects(),
    }
}

/// A payload was put into a group that had just been opened.
pub open spec fn started<G: SubgroupWrite>(
    after: Option<G>,
    payload: Seq<u8>,
    standing: Standing,
    refusal: Option<ServeError>,
    r: Result<(), DispatchError>,
) -> bool {
    &&& after matches Some(a)
    &&& a.standing() == standing
    &&& match refusal {
        None => r == Ok::<(), DispatchError>(()) && a.objects() == seq![payload],
        Some(e) => r == Err::<(), DispatchError>(DispatchError::Sink(e)) && a.objects()
            == Seq::<Seq<u8>>::empty(),
    }
}

/// A packet was published, or a track did not take it.
pub open spec fn stepped<T: TrackSubgroups>(
    before: TrackState<T>,
    after: TrackState<T>,
    step: Step,
    routing: PacketRouting,
    payload: Seq<u8>,
    r: Result<(), DispatchError>,
) -> bool {
    let sbn_then = if r is Ok {
        sbn_after(before.current_sbn, routing)
    } else {
        before.current_sbn
    };
    match step {
        Step::Skip => r == Ok::<(), DispatchError>(()) && after == before,
        Step::Append => {
            &&& after == (TrackState {
                current_group: after.current_group,
                current_sbn: sbn_then,
                ..before
            })
            &&& appended(before.current_group, after.current_group, payload, r)
        },
        Step::Open(mpu_seq) => after.sink.standing() == before.sink.standing()
            && match before.sink.refusal(mpu_seq as u64, 0, before.priority) {
            Some(e) => {
                &&& r == Err::<(), DispatchError>(DispatchError::Sink(e))
                &&& after == (TrackState { sink: after.sink, ..before })
                &&& after.sink.created() == before.sink.created()
                &&& after.sink.retired() == before.sink.retired()
            },
            None => {
                &&& after == (TrackState {
                    sink: after.sink,
                    current_group: after.current_group,
                    current_group_id: Some(mpu_seq as u64),
                    last_seen_mpu_seq: Some(mpu_seq),
                    current_sbn: sbn_then,
                    ..before
                })
                &&& after.sink.created() == before.sink.created().push(
                    (mpu_seq as u64, 0u64, before.priority),
                )
                &&& after.sink.retired() == retired_with(
                    before.sink.retired(),
                    before.current_group,
                )
                &&& started(
                    after.current_group,
                    payload,
                    before.sink.first_standing(mpu_seq as u64, 0, before.priority),
                    before.sink.first_refusal(mpu_seq as u64, 0, before.priority, payload),
                    r,
                )
            },
        },
        Step::RepairAppend => {
            &&& after == (TrackState { repair: after.repair, ..before })
            &&& before.repair matches Some(b)
            &&& after.repair matches Some(a)
            &&& a == (RepairSink { current_group: a.current_group, ..b })
            &&& appended(b.current_group, a.current_group, payload, r)
        },
        Step::RepairOpen(sbn) => {
            &&& after == (TrackState { repair: after.repair, ..before })
            &&& before.repair matches Some(b)
            &&& after.repair matches Some(a)
            &&& a.sink.standing() == b.sink.standing()
            &&& match b.sink.refusal(sbn as u64, 0, REPAIR_GROUP_PRIORITY) {
                Some(e) => {
                    &&& r == Err::<(), DispatchError>(DispatchError::Sink(e))
                    &&& a == (RepairSink { sink: a.sink, ..b })
                    &&& a.sink.created() == b.sink.created()
                    &&& a.sink.retired() == b.sink.retired()
                },
                None => {
                    &&& a.current_sbn == Some(sbn)
                    &&& a.sink.created() == b.sink.created().push(
                        (sbn as u64, 0u64, REPAIR_GROUP_PRIORITY),
                    )
                    &&& a.sink.retired() == retired_with(b.sink.retired(), b.current_group)
                    &&& started(
                        a.current_group,
                        payload,
                        b.sink.first_standing(sbn as u64, 0, REPAIR_GROUP_PRIORITY),
                        b.sink.first_refusal(sbn as u64, 0, REPAIR_GROUP_PRIORITY, payload),
                        r,
                    )
                },
            }
        },
    }
}

/// What a packet did on its track, or why it did nothing.
pub open spec fn dispatched_to<T: TrackSubgroups>(
    before: TrackState<T>,
    after: TrackState<T>,
    routing: PacketRouting,
    payload: Seq<u8>,
    r: Result<(), DispatchError>,
) -> bool {
    match decide(before, routing) {
        Err(e) => r == Err::<(), DispatchError>(e) && after == before,
        Ok(step) => stepped(before, after, step, routing, payload, r),
    }
}

/// Publishes a packet on its track.
pub fn dispatch_to<T: TrackSubgroups>(
    state: &mut TrackState<T>,
    routing: &PacketRouting,
    payload: Bytes,
) -> (r: Result<(), DispatchError>)
    requires
        old(state).wf(),
    ensures
        final(state).wf(),
        dispatched_to(*old(state), *final(state), *routing, bytes_view(payload), r),
{
    match routing.packet_type {
        PacketType::Mpu => {
            let mpu_seq: u32 = match routing.mpu_sequence {
                Some(s) => s,
                None => {
                    return Err(DispatchError::MissingMpuSequence(routing.packet_id));
                },
            };
            let fragment_type: FragmentType = match routing.fragment_type {
                Some(f) => f,
                None => {
                    return Err(DispatchError::MissingFragmentType(routing.packet_id));
                },
            };
            let mut fresh: bool = true;
            if let Some(last) = state.last_seen_mpu_seq {
                if mpu_seq < last {
                    return Err(
                        DispatchError::MpuRegression {
                            packet_id: routing.packet_id,
                            mpu_seq,
                            last,
                        },
                    );
                }
                fresh = mpu_seq != last;
            }
            if fresh {
                if fragment_type != FragmentType::Init {
                    return Err(
                        DispatchError::FirstPacketNotInit {
                            packet_id: routing.packet_id,
                            mpu_seq,
                            fragment_type,
                        },
                    );
                }
                let mut group = match state.sink.create_group(mpu_seq as u64, 0, state.priority) {
                    Ok(g) => g,
                    Err(e) => {
                        return Err(DispatchError::Sink(e));
                    },
                };
                if let Some(done) = state.current_group.take() {
                    state.sink.retire(done);
                }
                let ghost fresh = group;
                let put: Result<(), ServeError> = group.put_object(payload);
                proof {
                    let p = bytes_view(payload);
                    assert(fresh.refusal(p) == old(state).sink.first_refusal(
                        mpu_seq as u64,
                        0,
                        old(state).priority,
                        p,
                    ));
                    assert(Seq::<Seq<u8>>::empty().push(p) =~= seq![p]);
                }
                state.current_group = Some(group);
                state.current_group_id = Some(mpu_seq as u64);
                state.last_seen_mpu_seq = Some(mpu_seq);
                match put {
                    Ok(()) => {},
                    Err(e) => {
                        return Err(DispatchError::Sink(e));
                    },
                }
            } else {
                match state.current_group.take() {
                    None => {
                        return Err(
                            DispatchError::NoCurrentGroup {
                                packet_id: routing.packet_id,
                                last: mpu_seq,
                            },
                        );
                    },
                    Some(g) => {
                        let mut group = g;
                        let put: Result<(), ServeError> = group.put_object(payload);
                        state.current_group = Some(group);
                        match put {
                            Ok(()) => {},
                            Err(e) => {
                                return Err(DispatchError::Sink(e));
                            },
                        }
                    },
                }
            }
            if let Some(id) = &routing.source_fec_payload_id {
                state.current_sbn = Some(id.sbn(FEC_K));
            }
            Ok(())
        },
        PacketType::Repair => {
            let sbn: u32 = match state.current_sbn {
                Some(sbn) => sbn,
                None => {
                    return Err(DispatchError::RepairBeforeSource(routing.packet_id));
                },
            };
            match state.repair.take() {
                None => Err(
                    DispatchError::NoRepairSibling {
                        packet_id: routing.packet_id,
                        name: state.name.clone(),
                    },
                ),
                Some(r) => {
                    let mut repair = r;
                    let same: bool = match repair.current_sbn {
                        Some(s) => s == sbn,
                        None => false,
                    };
                    if !same {
                        match repair.sink.create_group(sbn as u64, 0, REPAIR_GROUP_PRIORITY) {
                            Ok(group) => {
                                if let Some(done) = repair.current_group.take() {
                                    repair.sink.retire(done);
                                }
                                repair.current_group = Some(group);
                                repair.current_sbn = Some(sbn);
                            },
                            Err(e) => {
                                state.repair = Some(repair);
                                return Err(DispatchError::Sink(e));
                            },
                        }
                    }
                    match repair.current_group.take() {
                        None => {
                            assert(false);
                            Ok(())
                        },
                        Some(g) => {
                            let mut group = g;
                            let put: Result<(), ServeError> = group.put_object(payload);
                            proof {
                                let p = bytes_view(payload);
                                assert(!same ==> g.refusal(p) == old(
                                    state,
                                ).repair->0.sink.first_refusal(
                                    sbn as u64,
                                    0,
                                    REPAIR_GROUP_PRIORITY,
                                    p,
                                ));
                                assert(Seq::<Seq<u8>>::empty().push(p) =~= seq![p]);
                            }
                            repair.current_group = Some(group);
                            state.repair = Some(repair);
                            match put {
                                Ok(()) => Ok(()),
                                Err(e) => Err(DispatchError::Sink(e)),
                            }
                        },
                    }
                },
            }
        },
        PacketType::Generic => Ok(()),
        PacketType::Control => Ok(()),
    }
}

/// Every track of a map keeps what it keeps.
pub open spec fn map_wf<T: TrackSubgroups>(map: Map<u64, TrackState<T>>) -> bool {
    forall|id: u64| #[trigger] map.dom().contains(id) ==> map[id].wf()
}

/// A packet went to the track that its packet id names, and to no other.
pub open spec fn dispatched<T: TrackSubgroups>(
    before: Map<u64, TrackState<T>>,
    after: Map<u64, TrackState<T>>,
    routing: PacketRouting,
    payload: Seq<u8>,
    r: Result<(), DispatchError>,
) -> bool {
    let id = routing.packet_id as u64;
    if !before.dom().contains(id) {
        r == Err::<(), DispatchError>(DispatchError::UnknownPacketId(routing.packet_id)) && after
            == before
    } else {
        &&& after == before.insert(id, after[id])
        &&& dispatched_to(before[id], after[id], routing, payload, r)
    }
}

/// Publishes a packet on the track that its packet id names.
pub fn dispatch<T: TrackSubgroups>(
    state_map: &mut Table<TrackState<T>>,
    routing: &PacketRouting,
    payload: Bytes,
) -> (r: Result<(), DispatchError>)
    requires
        map_wf(old(state_map)@),
    ensures
        map_wf(final(state_map)@),
        dispatched(old(state_map)@, final(state_map)@, *routing, bytes_view(payload), r),
{
    let id: u64 = routing.packet_id as u64;
    match state_map.remove(id) {
        None => {
            assert(state_map@ =~= old(state_map)@);
            Err(DispatchError::UnknownPacketId(routing.packet_id))
        },
        Some(s) => {
            let mut state = s;
            assert(old(state_map)@.dom().contains(id));
            let r: Result<(), DispatchError> = dispatch_to(&mut state, routing, payload);
            let ghost after = state;
            let _ = state_map.insert(id, state);
            assert(state_map@ =~= old(state_map)@.insert(id, after));
            r
        },
    }
}

/// Groups in strictly ascending order, the last of which is that of an MPU.
pub open spec fn ascending(groups: Seq<(u64, u64, u8)>, last: Option<u32>) -> bool {
    &&& forall|i: int, j: int|
        0 <= i < j < groups.len() ==> (#[trigger] groups[i]).0 < (#[trigger] groups[j]).0
    &&& groups.len() > 0 ==> last is Some && groups.last().0 == last->0 as u64
}

/// The groups of a track ascend, whatever packets come and whatever the track
/// refuses: a packet that opens a group opens it beyond all before it.
pub proof fn law_groups_ascend<T: TrackSubgroups>(
    before: TrackState<T>,
    after: TrackState<T>,
    routing: PacketRouting,
    payload: Seq<u8>,
    r: Result<(), DispatchError>,
)
    requires
        ascending(before.sink.created(), before.last_seen_mpu_seq),
        match decide(before, routing) {
            Err(_) => after == before,
            Ok(step) => stepped(before, after, step, routing, payload, r),
        },
    ensures
        ascending(after.sink.created(), after.last_seen_mpu_seq),
{
    let groups = before.sink.created();
    let longer = after.sink.created();
    assert forall|i: int, j: int| 0 <= i < j < longer.len() implies (#[trigger] longer[i]).0 < (
    #[trigger] longer[j]).0 by {
        if j == groups.len() && i < groups.len() - 1 {
            assert(groups[i].0 < groups[groups.len() - 1].0);
        }
    }
}

/// Everything that was written on a track, group after group.
pub open spec fn contents<T: TrackSubgroups>(state: TrackState<T>) -> Seq<Seq<Seq<u8>>> {
    retired_with(state.sink.retired(), state.current_group)
}

/// A media packet is carried as it is: it becomes the last object of its MPU's
/// group, which is the last one, and everything before it stays as it was.
pub proof fn law_packets_are_carried_verbatim<T: TrackSubgroups>(
    before: TrackState<T>,
    after: TrackState<T>,
    routing: PacketRouting,
    payload: Seq<u8>,
)
    requires
        routing.packet_type == PacketType::Mpu,
        decide(before, routing) matches Ok(step) && stepped(
            before,
            after,
            step,
            routing,
            payload,
            Ok(()),
        ),
    ensures
        before.last_seen_mpu_seq == routing.mpu_sequence ==> contents(after) == contents(
            before,
        ).drop_last().push(contents(before).last().push(payload)),
        before.last_seen_mpu_seq != routing.mpu_sequence ==> contents(after) == contents(
            before,
        ).push(seq![payload]),
{
    let step = decide(before, routing)->Ok_0;
    if before.last_seen_mpu_seq == routing.mpu_sequence {
        assert(step is Append);
        assert(contents(before).drop_last() =~= before.sink.retired());
    } else {
        assert(step is Open);
        assert(Seq::<Seq<u8>>::empty().push(payload) =~= seq![payload]);
    }
}

/// A track of this library that somebody reads, with numbers left.
pub open spec fn flowing(state: TrackState<TrackGroups>) -> bool {
    &&& state.wf()
    &&& state.sink.standing().live
    &&& ascending(state.sink.created(), state.last_seen_mpu_seq)
    &&& state.sink.created().len() < usize::MAX
    &&& state.current_group matches Some(g) ==> g.standing().live && g.objects().len() < u64::MAX
}

/// On a track of this library that somebody reads, every media packet that may
/// be published is published: it opens its MPU's group or goes on with it, and
/// the track and the group are read on.
pub proof fn law_live_track_takes_every_packet(
    before: TrackState<TrackGroups>,
    after: TrackState<TrackGroups>,
    routing: PacketRouting,
    step: Step,
    payload: Seq<u8>,
    r: Result<(), DispatchError>,
)
    requires
        flowing(before),
        after.wf(),
        routing.packet_type == PacketType::Mpu,
        decide(before, routing) == Ok::<Step, DispatchError>(step),
        stepped(before, after, step, routing, payload, r),
    ensures
        r == Ok::<(), DispatchError>(()),
        after.sink.standing() == before.sink.standing(),
        after.current_group matches Some(g) && g.standing().live,
        contents(after).last().last() == payload,
        after.sink.created().len() < usize::MAX && after.current_group->0.objects().len()
            < u64::MAX ==> flowing(after),
{
    let track = before.sink.state;
    if let Step::Open(mpu_seq) = step {
        let key = (mpu_seq as u64, 0u64);
        crate::serve::subgroup::law_frontier_is_the_greatest_given_up(track);
        assert forall|i: int| 0 <= i < track.created().len() implies (
        #[trigger] track.created()[i]).group_id < mpu_seq by {
            let groups = before.sink.created();
            assert(groups[i].0 == track.created()[i].group_id);
            if i < groups.len() - 1 {
                assert(groups[i].0 < groups[groups.len() - 1].0);
            }
        }
        if let Some(f) = track.frontier() {
            let given_up = track.created().take(track.first() as int);
            let i = choose|i: int| 0 <= i < given_up.len() && (#[trigger] given_up[i]).key() == f;
            crate::serve::subgroup::lemma_given_up(track);
            assert(track.created()[i].group_id < mpu_seq);
        }
        assert(!track.key_closed(key));
    }
    law_groups_ascend(before, after, routing, payload, r);
}

/// A media packet is refused, with nothing changed, exactly where it cannot be
/// placed: where it does not say which MPU it is of or what fragment it is, where
/// its MPU comes before the last one, where its MPU is the last one and no group
/// is open for it, and where it would open an MPU with something else than the
/// metadata.
pub proof fn law_misplaced_media_is_refused<T: TrackSubgroups>(
    before: TrackState<T>,
    after: TrackState<T>,
    routing: PacketRouting,
    payload: Seq<u8>,
    r: Result<(), DispatchError>,
)
    requires
        routing.packet_type == PacketType::Mpu,
        dispatched_to(before, after, routing, payload, r),
    ensures
        routing.mpu_sequence is None ==> r == Err::<(), DispatchError>(
            DispatchError::MissingMpuSequence(routing.packet_id),
        ) && after == before,
        routing.mpu_sequence is Some && routing.fragment_type is None ==> r == Err::<
            (),
            DispatchError,
        >(DispatchError::MissingFragmentType(routing.packet_id)) && after == before,
        routing.mpu_sequence is Some && routing.fragment_type is Some && before.last_seen_mpu_seq
            is Some && routing.mpu_sequence->0 < before.last_seen_mpu_seq->0 ==> r == Err::<
            (),
            DispatchError,
        >(
            DispatchError::MpuRegression {
                packet_id: routing.packet_id,
                mpu_seq: routing.mpu_sequence->0,
                last: before.last_seen_mpu_seq->0,
            },
        ) && after == before,
        routing.mpu_sequence is Some && routing.fragment_type is Some && before.last_seen_mpu_seq
            == routing.mpu_sequence && before.current_group is None ==> r == Err::<
            (),
            DispatchError,
        >(
            DispatchError::NoCurrentGroup {
                packet_id: routing.packet_id,
                last: routing.mpu_sequence->0,
            },
        ) && after == before,
        routing.mpu_sequence is Some && routing.fragment_type is Some
            && routing.fragment_type->0 != FragmentType::Init && (
        before.last_seen_mpu_seq matches Some(last) ==> last < routing.mpu_sequence->0) ==> r
            == Err::<(), DispatchError>(
            DispatchError::FirstPacketNotInit {
                packet_id: routing.packet_id,
                mpu_seq: routing.mpu_sequence->0,
                fragment_type: routing.fragment_type->0,
            },
        ) && after == before,
        // anything else is up to the track
        r matches Err(e) && !(e is Sink) ==> {
            ||| routing.mpu_sequence is None
            ||| routing.fragment_type is None
            ||| before.last_seen_mpu_seq matches Some(last) && routing.mpu_sequence->0 < last
            ||| before.last_seen_mpu_seq == routing.mpu_sequence && before.current_group is None
            ||| before.last_seen_mpu_seq != routing.mpu_sequence && routing.fragment_type->0
                != FragmentType::Init
        },
{
}

/// A media packet that was published is the last object of the group that bears
/// the number of its MPU. A packet of the MPU before it follows the objects that
/// the group has; any other is the first object of a new group, in subgroup zero
/// and with the track's priority, and the group before is kept as it was. The
/// repair track is not touched.
pub proof fn law_media_packet_extends_its_mpu<T: TrackSubgroups>(
    before: TrackState<T>,
    after: TrackState<T>,
    routing: PacketRouting,
    payload: Seq<u8>,
)
    requires
        routing.packet_type == PacketType::Mpu,
        dispatched_to(before, after, routing, payload, Ok(())),
    ensures
        routing.mpu_sequence is Some,
        after.last_seen_mpu_seq == routing.mpu_sequence,
        after.name == before.name,
        after.priority == before.priority,
        after.repair == before.repair,
        after.current_group matches Some(g) && g.objects().len() > 0 && g.objects().last()
            == payload,
        before.last_seen_mpu_seq == routing.mpu_sequence ==> {
            &&& before.current_group matches Some(b)
            &&& after.current_group->0.objects() == b.objects().push(payload)
            &&& after.sink == before.sink
            &&& after.current_group_id == before.current_group_id
        },
        before.last_seen_mpu_seq != routing.mpu_sequence ==> {
            &&& after.current_group->0.objects().len() == 1
            &&& after.current_group_id == Some(routing.mpu_sequence->0 as u64)
            &&& after.sink.created() == before.sink.created().push(
                (routing.mpu_sequence->0 as u64, 0u64, before.priority),
            )
            &&& match before.current_group {
                Some(b) => after.sink.retired() == before.sink.retired().push(b.objects()),
                None => after.sink.retired() == before.sink.retired(),
            }
        },
{
}

/// The block that repair symbols are written for is that of the last published
/// source symbol: the one that, with 32 symbols in each, holds it. Packets
/// without a symbol, packets that were not published and repair packets leave
/// the block as it was.
pub proof fn law_block_follows_the_source_symbols<T: TrackSubgroups>(
    before: TrackState<T>,
    after: TrackState<T>,
    routing: PacketRouting,
    payload: Seq<u8>,
    r: Result<(), DispatchError>,
)
    requires
        dispatched_to(before, after, routing, payload, r),
    ensures
        r is Ok && routing.packet_type == PacketType::Mpu && routing.source_fec_payload_id is Some
            ==> {
            &&& after.current_sbn matches Some(block)
            &&& 32 * block <= routing.source_fec_payload_id->0.ss_id < 32 * block + 32
        },
        r is Err || routing.packet_type != PacketType::Mpu || routing.source_fec_payload_id is None
            ==> after.current_sbn == before.current_sbn,
{
    if let Some(id) = routing.source_fec_payload_id {
        crate::mmt::law_symbol_is_block_and_place(id, 32);
    }
}

/// A repair packet that was published is, as it is, the last object of the
/// repair group of the current source block: it follows what the group has where
/// the group is open, and is the first object of a new group, in subgroup zero
/// and with the repair priority, where it is not. All that was written on the
/// repair track before stays, and the source track is not touched.
pub proof fn law_repair_packets_are_carried_verbatim<T: TrackSubgroups>(
    before: TrackState<T>,
    after: TrackState<T>,
    routing: PacketRouting,
    payload: Seq<u8>,
)
    requires
        before.wf(),
        routing.packet_type == PacketType::Repair,
        dispatched_to(before, after, routing, payload, Ok(())),
    ensures
        after == (TrackState { repair: after.repair, ..before }),
        before.current_sbn is Some,
        before.repair is Some,
        after.repair is Some,
        ({
            let block = before.current_sbn->0;
            let b = before.repair->0;
            let a = after.repair->0;
            &&& a.current_sbn == Some(block)
            &&& a.current_group matches Some(g)
            &&& g.objects().len() > 0
            &&& g.objects().last() == payload
            &&& b.current_sbn == Some(block) ==> {
                &&& b.current_group matches Some(open)
                &&& g.objects() == open.objects().push(payload)
                &&& a.sink == b.sink
            }
            &&& b.current_sbn != Some(block) ==> {
                &&& g.objects().len() == 1
                &&& a.sink.created() == b.sink.created().push((block as u64, 0u64, 7u8))
                &&& match b.current_group {
                    Some(open) => a.sink.retired() == b.sink.retired().push(open.objects()),
                    None => a.sink.retired() == b.sink.retired(),
                }
            }
        }),
{
}

/// Two repair packets of one block share a group, in the order they came.
pub proof fn law_repair_packets_of_a_block_share_a_group<T: TrackSubgroups>(
    before: TrackState<T>,
    between: TrackState<T>,
    after: TrackState<T>,
    first: PacketRouting,
    second: PacketRouting,
    p: Seq<u8>,
    q: Seq<u8>,
)
    requires
        before.wf(),
        between.wf(),
        first.packet_type == PacketType::Repair,
        second.packet_type == PacketType::Repair,
        dispatched_to(before, between, first, p, Ok(())),
        dispatched_to(between, after, second, q, Ok(())),
    ensures
        after.repair matches Some(a) && a.current_group matches Some(g) && {
            let n = g.objects().len();
            &&& n >= 2
            &&& g.objects()[n - 2] == p
            &&& g.objects()[n - 1] == q
            &&& a.sink.created() == between.repair->0.sink.created()
        },
{
    law_repair_packets_are_carried_verbatim(before, between, first, p);
    law_repair_packets_are_carried_verbatim(between, after, second, q);
}

/// A repair packet is refused, with nothing changed, where no source symbol was
/// seen yet and where the track has no repair track; anything else is up to the
/// repair track.
pub proof fn law_misplaced_repair_is_refused<T: TrackSubgroups>(
    before: TrackState<T>,
    after: TrackState<T>,
    routing: PacketRouting,
    payload: Seq<u8>,
    r: Result<(), DispatchError>,
)
    requires
        routing.packet_type == PacketType::Repair,
        dispatched_to(before, after, routing, payload, r),
    ensures
        before.current_sbn is None ==> r == Err::<(), DispatchError>(
            DispatchError::RepairBeforeSource(routing.packet_id),
        ) && after == before,
        before.current_sbn is Some && before.repair is None ==> r == Err::<(), DispatchError>(
            DispatchError::NoRepairSibling { packet_id: routing.packet_id, name: before.name },
        ) && after == before,
        r is Err && before.current_sbn is Some && before.repair is Some ==> r->Err_0 is Sink,
{
}

/// On a repair track of this library that somebody reads, every repair packet of
/// a block that is open, or that is beyond all blocks so far, is published.
pub proof fn law_live_repair_track_takes_every_symbol(
    before: TrackState<TrackGroups>,
    after: TrackState<TrackGroups>,
    routing: PacketRouting,
    payload: Seq<u8>,
    r: Result<(), DispatchError>,
)
    requires
        before.wf(),
        routing.packet_type == PacketType::Repair,
        before.current_sbn is Some,
        before.repair is Some,
        ({
            let block = before.current_sbn->0;
            let b = before.repair->0;
            &&& b.sink.state.spec_live()
            &&& b.sink.state.created().len() < usize::MAX
            &&& b.current_sbn == Some(block) ==> b.current_group->0.state@.live
                && b.current_group->0.state@.objects.len() < u64::MAX
            &&& b.current_sbn != Some(block) ==> forall|i: int|
                0 <= i < b.sink.state.created().len() ==> (
                #[trigger] b.sink.state.created()[i]).group_id < block
        }),
        dispatched_to(before, after, routing, payload, r),
    ensures
        r == Ok::<(), DispatchError>(()),
{
    let block = before.current_sbn->0;
    let b = before.repair->0;
    let track = b.sink.state;
    if b.current_sbn != Some(block) {
        let key = (block as u64, 0u64);
        crate::serve::subgroup::law_frontier_is_the_greatest_given_up(track);
        if let Some(f) = track.frontier() {
            let given_up = track.created().take(track.first() as int);
            let i = choose|i: int| 0 <= i < given_up.len() && (#[trigger] given_up[i]).key() == f;
            crate::serve::subgroup::lemma_given_up(track);
            assert(track.created()[i].group_id < block);
        }
        assert(!track.key_closed(key));
    }
}

/// Packets that carry neither media nor repair are passed over: they are no
/// error, and nothing changes.
pub proof fn law_other_packets_change_nothing<T: TrackSubgroups>(
    before: TrackState<T>,
    after: TrackState<T>,
    routing: PacketRouting,
    payload: Seq<u8>,
    r: Result<(), DispatchError>,
)
    requires
        routing.packet_type != PacketType::Mpu,
        routing.packet_type != PacketType::Repair,
        dispatched_to(before, after, routing, payload, r),
    ensures
        r == Ok::<(), DispatchError>(()),
        after == before,
{
}

/// A packet reaches the track of its packet id and no other, and a packet whose
/// id names no track is refused and reaches none.
pub proof fn law_packets_reach_their_track_alone<T: TrackSubgroups>(
    before: Map<u64, TrackState<T>>,
    after: Map<u64, TrackState<T>>,
    routing: PacketRouting,
    payload: Seq<u8>,
    r: Result<(), DispatchError>,
)
    requires
        dispatched(before, after, routing, payload, r),
    ensures
        after.dom() == before.dom(),
        forall|id: u64|
            before.dom().contains(id) && id != routing.packet_id ==> #[trigger] after[id]
                == before[id],
        before.dom().contains(routing.packet_id as u64) ==> dispatched_to(
            before[routing.packet_id as u64],
            after[routing.packet_id as u64],
            routing,
            payload,
            r,
        ),
        !before.dom().contains(routing.packet_id as u64) ==> r == Err::<(), DispatchError>(
            DispatchError::UnknownPacketId(routing.packet_id),
        ),
{
    if before.dom().contains(routing.packet_id as u64) {
        assert(after.dom() =~= before.dom());
    }
}

/// Every group that was opened holds what was written in it.
pub proof fn law_every_group_has_its_contents<T: TrackSubgroups>(
    before: TrackState<T>,
    after: TrackState<T>,
    routing: PacketRouting,
    payload: Seq<u8>,
    r: Result<(), DispatchError>,
)
    requires
        contents(before).len() == before.sink.created().len(),
        match decide(before, routing) {
            Err(_) => after == before,
            Ok(step) => stepped(before, after, step, routing, payload, r),
        },
    ensures
        contents(after).len() == after.sink.created().len(),
{
}

/// A new MPU always starts with its metadata.
pub proof fn law_mpu_starts_with_init<T: TrackSubgroups>(
    state: TrackState<T>,
    routing: PacketRouting,
    mpu_seq: u32,
)
    requires
        decide(state, routing) == Ok::<Step, DispatchError>(Step::Open(mpu_seq)),
    ensures
        routing.fragment_type == Some(FragmentType::Init),
        routing.mpu_sequence == Some(mpu_seq),
        state.last_seen_mpu_seq matches Some(last) ==> last < mpu_seq,
{
}

/// Two source symbols of one block share a repair group: after a repair of a
/// block, another repair opens a group only once a symbol of another block was
/// seen.
pub proof fn law_repair_groups_follow_blocks<T: TrackSubgroups>(
    state: TrackState<T>,
    routing: PacketRouting,
    sbn: u32,
)
    requires
        decide(state, routing) == Ok::<Step, DispatchError>(Step::RepairOpen(sbn)),
    ensures
        state.current_sbn == Some(sbn),
        state.repair matches Some(repair) && repair.current_sbn != Some(sbn),
{
}

/// The payloads of a group's objects.
pub open spec fn payloads_of(group: SubgroupView) -> Seq<Seq<u8>> {
    group.objects.map_values(|o: crate::serve::object::ObjectView| o.payload())
}

/// A track of this library, as a place for groups. Groups that are written no
/// more are kept as long as the track retains them.
pub struct TrackGroups {
    pub state: SubgroupsState,
    pub writer: SubgroupsWriter,
    /// The groups that are written no more and still kept.
    pub done: VecDeque<SubgroupState>,
    /// The place, in the order of creation, of the first of them.
    pub base: usize,
    /// How many groups the publisher means to retain.
    pub history_window: Option<u64>,
    /// The numbers of all groups that are written no more.
    pub retired_ids: Ghost<Seq<u64>>,
    /// The payloads of all groups that are written no more.
    pub retired: Ghost<Seq<Seq<Seq<u8>>>>,
}

/// The place of the last of a group's objects.
pub open spec fn last_place(group_id: u64, objects: nat) -> Option<(u64, u64)> {
    if objects == 0 {
        None
    } else {
        Some((group_id, (objects - 1) as u64))
    }
}

/// The largest group and object among groups.
pub open spec fn largest_of(ids: Seq<u64>, contents: Seq<Seq<Seq<u8>>>) -> Option<(u64, u64)>
    decreases contents.len(),
{
    if contents.len() == 0 {
        None
    } else {
        joined(
            largest_of(ids.drop_last(), contents.drop_last()),
            last_place(ids.last(), contents.last().len()),
        )
    }
}

/// What is kept of the groups that are written no more.
pub open spec fn kept(
    done: Seq<SubgroupState>,
    base: int,
    retired: Seq<Seq<Seq<u8>>>,
) -> bool {
    &&& 0 <= base <= retired.len()
    &&& done.len() == retired.len() - base
    &&& forall|i: int|
        0 <= i < done.len() ==> payloads_of((#[trigger] done[i])@) == retired[base + i]
}

impl TrackGroups {
    /// A track that nothing was written on.
    pub fn new(
        state: SubgroupsState,
        writer: SubgroupsWriter,
        history_window: Option<u64>,
    ) -> (r: Self)
        requires
            state.wf(),
            writer.wf(&state),
            state.largest() is None,
        ensures
            r.state == state,
            r.writer == writer,
            r.history_window == history_window,
            r.valid(),
            r.retired() == Seq::<Seq<Seq<u8>>>::empty(),
    {
        TrackGroups {
            state,
            writer,
            done: VecDeque::new(),
            base: 0,
            history_window,
            retired_ids: Ghost(Seq::empty()),
            retired: Ghost(Seq::empty()),
        }
    }

    /// The largest group and object that was written on the track, with the
    /// group that is being written, where there is one.
    pub fn latest(&self, current: Option<&GroupObjects>) -> (r: Option<(u64, u64)>)
        requires
            self.valid(),
            current matches Some(g) ==> g.valid(),
        ensures
            r == joined(
                largest_of(self.retired_ids@, self.retired()),
                match current {
                    Some(g) => last_place(g.writer.spec_info().group_id, g.objects().len()),
                    None => None,
                },
            ),
    {
        match current {
            Some(group) => match group.largest {
                Some(location) => advance_mark(self.state.largest_location(), location),
                None => self.state.largest_location(),
            },
            None => self.state.largest_location(),
        }
    }

    /// The group at a place in the order of creation, where it is written no
    /// more and still kept.
    pub fn group(&self, i: usize) -> (r: Option<&SubgroupState>)
        requires
            self.valid(),
        ensures
            match r {
                Some(group) => {
                    &&& self.base <= i < self.retired().len()
                    &&& payloads_of(group@) == self.retired()[i as int]
                },
                None => !(self.base <= i < self.retired().len()),
            },
    {
        if i < self.base || i - self.base >= self.done.len() {
            return None;
        }
        Some(&self.done[i - self.base])
    }

    /// Gives up what the track no longer retains.
    fn prune(&mut self)
        requires
            old(self).valid(),
        ensures
            final(self).valid(),
            final(self).state == old(self).state,
            final(self).writer == old(self).writer,
            final(self).retired() == old(self).retired(),
            final(self).history_window == old(self).history_window,
            final(self).base == old(self).state.first() || (final(self).base < old(
                self,
            ).state.first() && final(self).base == old(self).retired().len()),
    {
        let first: usize = self.state.first_index();
        while self.base < first && self.done.len() > 0
            invariant
                self.valid(),
                self.state == old(self).state,
                self.writer == old(self).writer,
                self.retired() == old(self).retired(),
                self.history_window == old(self).history_window,
                first == self.state.first(),
            decreases self.done@.len(),
        {
            let ghost before = self.done@;
            let _ = self.done.pop_front();
            self.base = self.base + 1;
            assert forall|i: int| 0 <= i < self.done@.len() implies payloads_of(
                (#[trigger] self.done@[i])@,
            ) == self.retired@[self.base + i] by {
                assert(self.done@[i] == before[i + 1]);
            }
        }
    }
}

impl TrackSubgroups for TrackGroups {
    type Group = GroupObjects;

    open spec fn valid(&self) -> bool {
        &&& self.state.wf()
        &&& self.writer.wf(&self.state)
        &&& self.base <= self.state.first()
        &&& self.retired_ids@.len() == self.retired@.len()
        &&& self.state.largest() == largest_of(self.retired_ids@, self.retired@)
        &&& kept(self.done@, self.base as int, self.retired@)
    }

    open spec fn created(&self) -> Seq<(u64, u64, u8)> {
        self.state.created().map_values(
            |s: Subgroup| (s.group_id, s.subgroup_id, s.priority),
        )
    }

    open spec fn retired(&self) -> Seq<Seq<Seq<u8>>> {
        self.retired@
    }

    open spec fn standing(&self) -> Standing {
        Standing {
            live: self.state.spec_live(),
            closed: self.state.spec_closed(),
            readers: self.state.cursors(),
        }
    }

    /// Somebody reads a group that was just opened.
    open spec fn first_standing(&self, group_id: u64, subgroup_id: u64, priority: u8) -> Standing {
        Standing { live: true, closed: Ok(()), readers: Map::empty() }
    }

    /// A track refuses when there is no number left for a group, when nobody
    /// reads it any more, and when the group was opened before.
    open spec fn refusal(&self, group_id: u64, subgroup_id: u64, priority: u8) -> Option<
        ServeError,
    > {
        if self.state.created().len() >= usize::MAX {
            Some(ServeError::Internal)
        } else if !self.state.spec_live() {
            Some(ServeError::Cancel)
        } else if self.state.key_closed((group_id, subgroup_id)) {
            Some(ServeError::Duplicate)
        } else {
            None
        }
    }

    /// A group that was just opened takes every payload.
    open spec fn first_refusal(
        &self,
        group_id: u64,
        subgroup_id: u64,
        priority: u8,
        payload: Seq<u8>,
    ) -> Option<ServeError> {
        None
    }

    fn create_group(&mut self, group_id: u64, subgroup_id: u64, priority: u8) -> (r: Result<
        GroupObjects,
        ServeError,
    >)
        ensures
            r matches Ok(group) ==> {
                &&& group.state@ == SubgroupView::fresh(Subgroup { group_id, subgroup_id, priority })
                &&& group.writer.spec_info() == group.state@.info
                &&& final(self).history_window == old(self).history_window
            },
    {
        let first: usize = self.state.first_index();
        let held: usize = self.state.retained();
        proof {
            crate::serve::subgroup::lemma_given_up(self.state);
        }
        if held >= usize::MAX - first {
            return Err(ServeError::Internal);
        }
        let subgroup = Subgroup { group_id, subgroup_id, priority };
        match self.writer.create(&mut self.state, subgroup) {
            Err(e) => Err(e),
            Ok(s) => {
                self.prune();
                let (state, writer, _reader) = SubgroupState::produce(s);
                proof {
                    assert(self.created() =~= old(self).created().push(
                        (group_id, subgroup_id, priority),
                    ));
                }
                let group = GroupObjects { state, writer, largest: None };
                assert(group.objects() =~= Seq::<Seq<u8>>::empty());
                Ok(group)
            },
        }
    }

    fn retire(&mut self, group: GroupObjects) {
        let mut state: SubgroupState = group.state;
        state.drop_side();
        let info: Subgroup = group.writer.info();
        if let Some(location) = group.largest {
            self.state.record(location);
        }
        let ghost before = self.done@;
        let ghost payloads = group.objects();
        assert(payloads_of(state@) == payloads);
        self.done.push_back(state);
        proof {
            let ids = self.retired_ids@.push(info.group_id);
            let contents = self.retired@.push(payloads);
            assert(ids.drop_last() =~= self.retired_ids@);
            assert(contents.drop_last() =~= self.retired@);
        }
        self.retired_ids = Ghost(self.retired_ids@.push(info.group_id));
        self.retired = Ghost(self.retired@.push(payloads));
        assert forall|i: int| 0 <= i < self.done@.len() implies payloads_of(
            (#[trigger] self.done@[i])@,
        ) == self.retired@[self.base + i] by {
            if i < before.len() {
                assert(self.done@[i] == before[i]);
            }
        }
    }
}

/// A group of this library, as a place for objects.
pub struct GroupObjects {
    pub state: SubgroupState,
    pub writer: SubgroupWriter,
    pub largest: Option<(u64, u64)>,
}

impl SubgroupWrite for GroupObjects {
    open spec fn valid(&self) -> bool {
        &&& self.state@.live ==> self.writer.next_object() == self.objects().len()
        &&& self.objects().len() <= u64::MAX
        &&& self.largest == last_place(self.writer.spec_info().group_id, self.objects().len())
    }

    open spec fn standing(&self) -> Standing {
        Standing { live: self.state@.live, closed: self.state@.closed, readers: Map::empty() }
    }

    open spec fn objects(&self) -> Seq<Seq<u8>> {
        payloads_of(self.state@)
    }

    /// A group refuses when nobody reads it any more, and when there is no
    /// number left for an object.
    open spec fn refusal(&self, payload: Seq<u8>) -> Option<ServeError> {
        if !self.state@.live {
            Some(ServeError::Cancel)
        } else if self.objects().len() == u64::MAX {
            Some(ServeError::Internal)
        } else {
            None
        }
    }

    fn put_object(&mut self, payload: Bytes) -> (r: Result<(), ServeError>)
        ensures
            r is Ok ==> final(self).state@ == (SubgroupView {
                objects: old(self).state@.objects.push(
                    crate::serve::object::whole_object(
                        old(self).state@.objects.len() as u64,
                        bytes_view(payload),
                        Seq::empty(),
                    ),
                ),
                ..old(self).state@
            }),
            r is Err ==> final(self).state@ == old(self).state@,
    {
        if !self.state.is_live() {
            return Err(ServeError::Cancel);
        }
        if self.writer.next_object_id() == u64::MAX {
            return Err(ServeError::Internal);
        }
        let ghost before = self.state@.objects;
        let ghost bytes = bytes_view(payload);
        let r: Result<(), ServeError> = self.writer.write(
            &mut self.state,
            &mut self.largest,
            payload,
        );
        proof {
            if r is Ok {
                let o = self.state@.objects.last();
                assert(o.payload() =~= bytes) by {
                    crate::serve::object::lemma_concat_push(Seq::empty(), bytes);
                    assert(Seq::<Seq<u8>>::empty().push(bytes) =~= seq![bytes]);
                    reveal_with_fuel(crate::serve::object::concat, 2);
                }
                assert(self.objects() =~= old(self).objects().push(bytes));
            }
        }
        r
    }
}

/// A group that the track refuses to open is not there, and the track goes on as
/// if the packet had not come; the same holds of the repair track.
pub proof fn law_refused_group_is_not_opened<T: TrackSubgroups>(
    before: TrackState<T>,
    after: TrackState<T>,
    step: Step,
    routing: PacketRouting,
    payload: Seq<u8>,
    r: Result<(), DispatchError>,
)
    requires
        stepped(before, after, step, routing, payload, r),
    ensures
        step matches Step::Open(seq) ==> (before.sink.refusal(seq as u64, 0, before.priority)
            matches Some(e) ==> {
            &&& r == Err::<(), DispatchError>(DispatchError::Sink(e))
            &&& after.sink.created() == before.sink.created()
            &&& after.sink.retired() == before.sink.retired()
            &&& after.sink.standing() == before.sink.standing()
            &&& after.current_group == before.current_group
            &&& after.current_group_id == before.current_group_id
            &&& after.last_seen_mpu_seq == before.last_seen_mpu_seq
            &&& after.current_sbn == before.current_sbn
            &&& after.repair == before.repair
        }),
        step matches Step::RepairOpen(sbn) ==> {
            &&& before.repair is Some
            &&& after.repair is Some
            &&& after.sink == before.sink
            &&& after.current_group == before.current_group
            &&& (before.repair->0).sink.refusal(sbn as u64, 0, 7) matches Some(e) ==> {
                &&& r == Err::<(), DispatchError>(DispatchError::Sink(e))
                &&& (after.repair->0).sink.created() == (before.repair->0).sink.created()
                &&& (after.repair->0).sink.retired() == (before.repair->0).sink.retired()
                &&& (after.repair->0).current_group == (before.repair->0).current_group
                &&& (after.repair->0).current_sbn == (before.repair->0).current_sbn
            }
        },
{
}

} // verus!
