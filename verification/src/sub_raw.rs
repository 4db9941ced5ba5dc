//! The raw subscriber: each track goes to its own output.

use vstd::prelude::*;

use crate::serve::contents::{contents_grew, identities, TrackContents};
use crate::serve::datagram::{drain_datagrams, payloads, DatagramsReader, DatagramsState};
use crate::serve::object::{
    concat, group_grew, lemma_concat_first, object_grew, SubgroupObjectReader,
    SubgroupReader, SubgroupState, SubgroupView,
};
use crate::serve::subgroup::{SubgroupsReader, SubgroupsState, SubgroupsWriter};
use crate::serve::{ReadOutcome, ServeError};
use crate::session::subscribe::{ModeView, TrackSink, TrackWriterMode};
use crate::text::{decimal, push_decimal, push_text};
use crate::wire::{bytes_as_slice, bytes_view};

verus! {

/// Tracks and outputs do not pair up.
#[derive(Copy, Clone, Debug, PartialEq, Eq, Structural)]
pub enum PairError {
    Empty,
    CountMismatch { tracks: usize, outputs: usize },
}

impl PairError {
    /// The error in words.
    pub open spec fn message(self) -> Seq<char> {
        match self {
            PairError::Empty => "at least one --track/--output pair required"@,
            PairError::CountMismatch { tracks, outputs } => "--track count "@
                + decimal(tracks as nat) + " does not match --output count "@
                + decimal(outputs as nat) + " (pair them positionally)"@,
        }
    }

    pub fn describe(&self) -> (r: String)
        ensures
            r@ == self.message(),
    {
        let mut out: String = String::new();
        match self {
            PairError::Empty => {
                push_text(&mut out, "at least one --track/--output pair required");
            },
            PairError::CountMismatch { tracks, outputs } => {
                push_text(&mut out, "--track count ");
                push_decimal(&mut out, *tracks as u64);
                push_text(&mut out, " does not match --output count ");
                push_decimal(&mut out, *outputs as u64);
                push_text(&mut out, " (pair them positionally)");
            },
        }
        assert(out@ =~= self.message());
        out
    }
}

/// Checks that there is a track, and an output for each.
pub fn validate_track_output_pairs(tracks: &[String], outputs: &[String]) -> (r: Result<
    (),
    PairError,
>)
    ensures
        r == if tracks@.len() == 0 {
            Err::<(), PairError>(PairError::Empty)
        } else if tracks@.len() != outputs@.len() {
            Err(
                PairError::CountMismatch {
                    tracks: tracks@.len() as usize,
                    outputs: outputs@.len() as usize,
                },
            )
        } else {
            Ok(())
        },
{
    if tracks.len() == 0 {
        return Err(PairError::Empty);
    }
    if tracks.len() != outputs.len() {
        return Err(PairError::CountMismatch { tracks: tracks.len(), outputs: outputs.len() });
    }
    Ok(())
}

/// Why a track was not drained.
#[derive(Copy, Clone, Debug, PartialEq, Eq, Structural)]
pub enum DrainError {
    /// The track, or a part of it, ended with an error.
    Serve(ServeError),
    /// The track goes on.
    Unfinished,
}

/// How draining ends, out of how reading did.
pub open spec fn drain_end(closed: Result<(), ServeError>, live: bool) -> Result<(), DrainError> {
    match closed {
        Err(e) => Err(DrainError::Serve(e)),
        Ok(()) => if live {
            Err(DrainError::Unfinished)
        } else {
            Ok(())
        },
    }
}

fn end_of<T>(outcome: ReadOutcome<T>) -> (r: Result<(), DrainError>)
    requires
        !(outcome is Item),
    ensures
        r == match outcome {
            ReadOutcome::Closed(e) => Err::<(), DrainError>(DrainError::Serve(e)),
            ReadOutcome::End => Ok(()),
            _ => Err(DrainError::Unfinished),
        },
{
    match outcome {
        ReadOutcome::Closed(e) => Err(DrainError::Serve(e)),
        ReadOutcome::End => Ok(()),
        _ => Err(DrainError::Unfinished),
    }
}

/// Drains a track of datagrams: what it still retains, payload after payload,
/// with nothing between.
pub fn drain_datagram_track(
    reader: &mut DatagramsReader,
    state: &DatagramsState,
    out: &mut Vec<u8>,
) -> (r: Result<usize, DrainError>)
    requires
        state.wf(),
        old(reader).spec_next() <= state.written().len(),
    ensures
        final(out)@ == old(out)@ + payloads(
            state.written().skip(old(reader).resume(state) as int),
        ),
        match drain_end(state.spec_closed(), state.spec_live()) {
            Ok(()) => r == Ok::<usize, DrainError>(
                (final(out)@.len() - old(out)@.len()) as usize,
            ),
            Err(e) => r == Err::<usize, DrainError>(e),
        },
{
    let (n, outcome) = drain_datagrams(reader, state, out);
    match end_of(outcome) {
        Ok(()) => Ok(n),
        Err(e) => Err(e),
    }
}

/// How far a track of subgroups was drained.
pub ghost enum DrainPlace {
    /// Before a subgroup.
    Track { group: nat },
    /// In a subgroup, before an object.
    Group { group: nat, object: nat },
    /// In an object, before a chunk.
    Object { group: nat, object: nat, chunk: nat },
}

impl DrainPlace {
    /// The place is one of the track.
    pub open spec fn within(self, groups: Seq<SubgroupView>) -> bool {
        match self {
            DrainPlace::Track { group } => group <= groups.len(),
            DrainPlace::Group { group, object } => group < groups.len() && object
                <= groups[group as int].objects.len(),
            DrainPlace::Object { group, object, chunk } => {
                &&& group < groups.len()
                &&& object < groups[group as int].objects.len()
                &&& chunk <= groups[group as int].objects[object as int].chunks.len()
            },
        }
    }

    /// How many subgroups, objects and chunks are ahead.
    pub open spec fn ahead(self, groups: Seq<SubgroupView>) -> (int, int, int) {
        match self {
            DrainPlace::Track { group } => (2 * (groups.len() - group) + 1, 0, 0),
            DrainPlace::Group { group, object } => (
                2 * (groups.len() - group),
                2 * (groups[group as int].objects.len() - object) + 1,
                0,
            ),
            DrainPlace::Object { group, object, chunk } => (
                2 * (groups.len() - group),
                2 * (groups[group as int].objects.len() - object),
                groups[group as int].objects[object as int].chunks.len() - chunk,
            ),
        }
    }
}

/// What is left of a track of subgroups from a place on: the bytes up to where
/// draining stops, how it stops, and where.
pub open spec fn drain_from(
    groups: Seq<SubgroupView>,
    closed: Result<(), ServeError>,
    live: bool,
    place: DrainPlace,
) -> (Seq<u8>, Result<(), DrainError>, DrainPlace)
    decreases
        place.ahead(groups).0,
        place.ahead(groups).1,
        place.ahead(groups).2,
    when place.within(groups)
{
    match place {
        DrainPlace::Track { group } => if group < groups.len() {
            drain_from(groups, closed, live, DrainPlace::Group { group, object: 0 })
        } else {
            (Seq::empty(), drain_end(closed, live), place)
        },
        DrainPlace::Group { group, object } => {
            let g = groups[group as int];
            if object < g.objects.len() {
                drain_from(
                    groups,
                    closed,
                    live,
                    DrainPlace::Object { group, object, chunk: 0 },
                )
            } else {
                match drain_end(g.closed, g.live) {
                    Ok(()) => drain_from(
                        groups,
                        closed,
                        live,
                        DrainPlace::Track { group: group + 1 },
                    ),
                    Err(e) => (Seq::empty(), Err(e), place),
                }
            }
        },
        DrainPlace::Object { group, object, chunk } => {
            let o = groups[group as int].objects[object as int];
            if chunk < o.chunks.len() {
                let rest = drain_from(
                    groups,
                    closed,
                    live,
                    DrainPlace::Object { group, object, chunk: chunk + 1 },
                );
                (o.chunks[chunk as int] + rest.0, rest.1, rest.2)
            } else {
                match drain_end(o.closed, o.live) {
                    Ok(()) => drain_from(
                        groups,
                        closed,
                        live,
                        DrainPlace::Group { group, object: object + 1 },
                    ),
                    Err(e) => (Seq::empty(), Err(e), place),
                }
            }
        },
    }
}

/// Drains a track of subgroups as it grows: every subgroup in the order of
/// creation, every object in it, chunk after chunk, with nothing between.
pub struct TrackDrain {
    reader: SubgroupsReader,
    group: Option<(usize, SubgroupReader)>,
    object: Option<(usize, SubgroupObjectReader)>,
}

impl TrackDrain {
    /// How far the track was drained.
    pub closed spec fn place(&self) -> DrainPlace {
        match (self.group, self.object) {
            (Some((group, _)), Some((object, reader))) => DrainPlace::Object {
                group: group as nat,
                object: object as nat,
                chunk: reader.position(),
            },
            (Some((group, objects)), None) => DrainPlace::Group {
                group: group as nat,
                object: objects.position(),
            },
            _ => DrainPlace::Track { group: self.reader.position() },
        }
    }

    /// The drain belongs to a track.
    pub closed spec fn wf(&self, state: &SubgroupsState) -> bool {
        &&& self.reader.wf(state)
        &&& self.reader.cursor() is Some
        &&& self.object is Some ==> self.group is Some
        &&& self.group matches Some((group, objects)) ==> {
            &&& self.reader.position() == group + 1
            &&& self.object matches Some((object, _)) ==> objects.position() == object + 1
        }
    }

    /// Starts where an active reader stands.
    pub fn new(reader: SubgroupsReader, state: &SubgroupsState) -> (r: Self)
        requires
            reader.wf(state),
            reader.cursor() is Some,
        ensures
            r.wf(state),
            r.place() == (DrainPlace::Track { group: reader.position() }),
    {
        TrackDrain { reader, group: None, object: None }
    }

    /// Appends what is there to `out`, up to the end of the track or to what
    /// has not come yet. Draining may go on later from where it stopped.
    pub fn drain(
        &mut self,
        state: &mut SubgroupsState,
        contents: &TrackContents,
        out: &mut Vec<u8>,
    ) -> (r: Result<usize, DrainError>)
        requires
            old(state).wf(),
            old(self).wf(old(state)),
            contents.of(old(state)),
            old(self).place().within(contents@),
        ensures
            final(state).wf(),
            final(self).wf(final(state)),
            final(state).same_track(old(state)),
            contents.of(final(state)),
            final(self).place().within(contents@),
            ({
                let (bytes, end, place) = drain_from(
                    contents@,
                    old(state).spec_closed(),
                    old(state).spec_live(),
                    old(self).place(),
                );
                &&& final(out)@ == old(out)@ + bytes
                &&& final(self).place() == place
                &&& r == match end {
                    Ok(()) => Ok::<usize, DrainError>(bytes.len() as usize),
                    Err(e) => Err(e),
                }
            }),
    {
        let before: usize = out.len();
        let ghost closed = state.spec_closed();
        let ghost live = state.spec_live();
        let ghost views = contents@;
        let ghost all = drain_from(views, closed, live, self.place());
        loop
            invariant
                state.wf(),
                self.wf(state),
                state.same_track(old(state)),
                closed == old(state).spec_closed(),
                live == old(state).spec_live(),
                views == contents@,
                contents.of(state),
                before == old(out)@.len(),
                self.place().within(views),
                all == drain_from(views, closed, live, old(self).place()),
                ({
                    let rest = drain_from(views, closed, live, self.place());
                    &&& old(out)@ + all.0 == out@ + rest.0
                    &&& all.1 == rest.1
                    &&& all.2 == rest.2
                }),
            decreases
                    self.place().ahead(views).0,
                    self.place().ahead(views).1,
                    self.place().ahead(views).2,
        {
            let ghost so_far = out@;
            let ghost rest = drain_from(views, closed, live, self.place());
            proof {
                crate::serve::subgroup::law_active_reader_misses_nothing(*state, self.reader);
                assert(identities(contents@).len() == contents@.len());
            }
            let stop: Result<(), DrainError> = match self.group {
                None => {
                    let i: usize = self.reader.pos();
                    match self.reader.next(state) {
                        ReadOutcome::Item(_) => {
                            self.group = Some((i, SubgroupReader::start()));
                            continue;
                        },
                        other => end_of(other),
                    }
                },
                Some((i, objects)) => {
                    let group: &SubgroupState = match contents.get(i) {
                        Some(group) => group,
                        None => {
                            assert(false);
                            return Ok(0);
                        },
                    };
                    match self.object {
                        None => {
                            let mut objects = objects;
                            match objects.next(group) {
                                ReadOutcome::Item(k) => {
                                    self.group = Some((i, objects));
                                    self.object = Some((k, SubgroupObjectReader::start()));
                                    continue;
                                },
                                other => match end_of(other) {
                                    Ok(()) => {
                                        self.group = None;
                                        continue;
                                    },
                                    Err(e) => Err(e),
                                },
                            }
                        },
                        Some((k, chunks)) => {
                            let mut chunks = chunks;
                            match group.object(k) {
                                None => {
                                    assert(false);
                                    Ok(())
                                },
                                Some(object) => match chunks.read(object) {
                                    ReadOutcome::Item(chunk) => {
                                        out.extend_from_slice(bytes_as_slice(&chunk));
                                        self.object = Some((k, chunks));
                                        proof {
                                            let tail = drain_from(
                                                views,
                                                closed,
                                                live,
                                                self.place(),
                                            );
                                            assert(so_far + (bytes_view(chunk) + tail.0)
                                                =~= out@ + tail.0);
                                        }
                                        continue;
                                    },
                                    other => match end_of(other) {
                                        Ok(()) => {
                                            self.object = None;
                                            continue;
                                        },
                                        Err(e) => Err(e),
                                    },
                                },
                            }
                        },
                    }
                },
            };
            proof {
                assert(rest.0 =~= Seq::<u8>::empty());
                assert(out@ + rest.0 =~= out@);
                assert(out@.len() == old(out)@.len() + all.0.len());
            }
            return match stop {
                Ok(()) => Ok(out.len() - before),
                Err(e) => Err(e),
            };
        }
    }
}

/// How the draining of a local track goes: the track is read on, and `out` gets
/// what its contents hold from where draining stopped.
pub open spec fn sink_drained(
    before: TrackSink,
    after: TrackSink,
    drain: TrackDrain,
    drain_after: TrackDrain,
    contents: TrackContents,
    out: Seq<u8>,
    out_after: Seq<u8>,
    r: Result<usize, DrainError>,
) -> bool {
    match (before.mode, after.mode) {
        (
            TrackWriterMode::Subgroups { state: b, writer: bw, history_window: bh },
            TrackWriterMode::Subgroups { state: a, writer: aw, history_window: ah },
        ) => {
            let (bytes, end, place) = drain_from(
                contents@,
                b.spec_closed(),
                b.spec_live(),
                drain.place(),
            );
            &&& after.writable == before.writable
            &&& aw == bw
            &&& ah == bh
            &&& a.same_track(&b)
            &&& drain_after.wf(&a)
            &&& contents.of(&a)
            &&& drain_after.place() == place
            &&& place.within(contents@)
            &&& out_after == out + bytes
            &&& r == match end {
                Ok(()) => Ok::<usize, DrainError>(bytes.len() as usize),
                Err(e) => Err(e),
            }
        },
        _ => false,
    }
}

/// A drain that fits a local track and its contents.
pub open spec fn drains_sink(drain: TrackDrain, sink: TrackSink, contents: TrackContents) -> bool {
    match sink.mode {
        TrackWriterMode::Subgroups { state, .. } => {
            &&& drain.wf(&state)
            &&& contents.of(&state)
            &&& drain.place().within(contents@)
        },
        _ => false,
    }
}

/// How a local track is started to be read: a track of subgroups is read from
/// the first one on that it retains.
pub open spec fn sink_read(before: TrackSink, after: TrackSink, r: Option<TrackDrain>) -> bool {
    match (before.mode, after.mode) {
        (
            TrackWriterMode::Subgroups { state: b, writer: bw, history_window: bh },
            TrackWriterMode::Subgroups { state: a, writer: aw, history_window: ah },
        ) => {
            &&& r matches Some(drain)
            &&& drain.wf(&a)
            &&& drain.place() == (DrainPlace::Track { group: b.first() })
            &&& a.same_track(&b)
            &&& a.first() == b.first()
            &&& a.frontier() == b.frontier()
            &&& aw == bw
            &&& ah == bh
            &&& after.writable == before.writable
        },
        (TrackWriterMode::Subgroups { .. }, _) => false,
        _ => r is None && after == before,
    }
}

/// Starts to read a local track of subgroups, at the first one that it retains.
pub fn read_sink(sink: &mut TrackSink) -> (r: Option<TrackDrain>)
    requires
        old(sink).wf(),
        old(sink)@.mode matches ModeView::Subgroups(groups) ==> groups.activations < u64::MAX,
    ensures
        final(sink).wf(),
        sink_read(*old(sink), *final(sink), r),
{
    match &mut sink.mode {
        TrackWriterMode::Subgroups { state, writer, .. } => Some(read_state(state, writer)),
        _ => None,
    }
}

fn read_state(state: &mut SubgroupsState, writer: &SubgroupsWriter) -> (drain: TrackDrain)
    requires
        old(state).wf(),
        writer.wf(old(state)),
        old(state).activations() < u64::MAX,
    ensures
        final(state).wf(),
        writer.wf(final(state)),
        final(state).same_track(old(state)),
        final(state).first() == old(state).first(),
        final(state).frontier() == old(state).frontier(),
        drain.wf(final(state)),
        drain.place() == (DrainPlace::Track { group: old(state).first() }),
{
    let reader = SubgroupsReader::new(state);
    TrackDrain::new(reader, state)
}

/// Drains a local track of subgroups, up to its end or to what has not come yet.
pub fn drain_sink(
    sink: &mut TrackSink,
    drain: &mut TrackDrain,
    contents: &TrackContents,
    out: &mut Vec<u8>,
) -> (r: Result<usize, DrainError>)
    requires
        old(sink).wf(),
        drains_sink(*old(drain), *old(sink), *contents),
    ensures
        final(sink).wf(),
        sink_drained(
            *old(sink),
            *final(sink),
            *old(drain),
            *final(drain),
            *contents,
            old(out)@,
            final(out)@,
            r,
        ),
{
    match &mut sink.mode {
        TrackWriterMode::Subgroups { state, .. } => drain.drain(state, contents, out),
        _ => {
            assert(false);
            Ok(0)
        },
    }
}

/// Whether a subgroup and all its objects have ended in good order.
pub open spec fn group_complete(group: SubgroupView) -> bool {
    &&& drain_end(group.closed, group.live) is Ok
    &&& forall|i: int|
        0 <= i < group.objects.len() ==> drain_end(
            (#[trigger] group.objects[i]).closed,
            group.objects[i].live,
        ) is Ok
}

/// The payloads of a subgroup's objects, from one on.
pub open spec fn object_payloads(group: SubgroupView, from: nat) -> Seq<u8>
    decreases group.objects.len() - from,
{
    if from >= group.objects.len() {
        Seq::empty()
    } else {
        group.objects[from as int].payload() + object_payloads(group, from + 1)
    }
}

/// The payloads of a track's subgroups, from one on.
pub open spec fn group_payloads(groups: Seq<SubgroupView>, from: nat) -> Seq<u8>
    decreases groups.len() - from,
{
    if from >= groups.len() {
        Seq::empty()
    } else {
        object_payloads(groups[from as int], 0) + group_payloads(groups, from + 1)
    }
}

proof fn lemma_complete_object(groups: Seq<SubgroupView>, group: nat, object: nat, chunk: nat)
    requires
        (DrainPlace::Object { group, object, chunk }).within(groups),
        forall|i: int| group <= i < groups.len() ==> group_complete(#[trigger] groups[i]),
    ensures
        drain_from(groups, Ok(()), false, DrainPlace::Object { group, object, chunk }) == (
            concat(groups[group as int].objects[object as int].chunks.skip(chunk as int))
                + object_payloads(groups[group as int], object + 1) + group_payloads(
                groups,
                group + 1,
            ),
            Ok::<(), DrainError>(()),
            DrainPlace::Track { group: groups.len() },
        ),
    decreases
            groups.len() - group,
            1nat,
            groups[group as int].objects.len() - object,
            0nat,
            groups[group as int].objects[object as int].chunks.len() - chunk,
{
    let g = groups[group as int];
    let o = g.objects[object as int];
    let rest = object_payloads(g, object + 1);
    let after = group_payloads(groups, group + 1);
    let left = o.chunks.skip(chunk as int);
    if chunk < o.chunks.len() {
        lemma_complete_object(groups, group, object, chunk + 1);
        lemma_concat_first(left);
        assert(left.skip(1) =~= o.chunks.skip((chunk + 1) as int));
        assert(o.chunks[chunk as int] + (concat(left.skip(1)) + rest + after) =~= concat(left)
            + rest + after);
    } else {
        assert(group_complete(g));
        assert(drain_end(o.closed, o.live) is Ok);
        lemma_complete_group(groups, group, object + 1);
        assert(left =~= Seq::empty());
        assert(concat(left) + rest + after =~= rest + after);
    }
}

proof fn lemma_complete_group(groups: Seq<SubgroupView>, group: nat, object: nat)
    requires
        (DrainPlace::Group { group, object }).within(groups),
        forall|i: int| group <= i < groups.len() ==> group_complete(#[trigger] groups[i]),
    ensures
        drain_from(groups, Ok(()), false, DrainPlace::Group { group, object }) == (
            object_payloads(groups[group as int], object) + group_payloads(groups, group + 1),
            Ok::<(), DrainError>(()),
            DrainPlace::Track { group: groups.len() },
        ),
    decreases
            groups.len() - group,
            1nat,
            groups[group as int].objects.len() - object,
            1nat,
            0int,
{
    let g = groups[group as int];
    let after = group_payloads(groups, group + 1);
    if object < g.objects.len() {
        lemma_complete_object(groups, group, object, 0);
        assert(g.objects[object as int].chunks.skip(0) =~= g.objects[object as int].chunks);
    } else {
        assert(group_complete(g));
        law_complete_track_drains_whole(groups, group + 1);
        assert(Seq::<u8>::empty() + after =~= after);
    }
}

/// A track that has ended in good order, with all its parts, drains to its
/// payloads, one after the other, with nothing between and nothing left out.
pub proof fn law_complete_track_drains_whole(groups: Seq<SubgroupView>, from: nat)
    requires
        from <= groups.len(),
        forall|i: int| from <= i < groups.len() ==> group_complete(#[trigger] groups[i]),
    ensures
        drain_from(groups, Ok(()), false, DrainPlace::Track { group: from }) == (
            group_payloads(groups, from),
            Ok::<(), DrainError>(()),
            DrainPlace::Track { group: groups.len() },
        ),
    decreases groups.len() - from, 2nat, 0int, 0nat, 0int,
{
    if from < groups.len() {
        lemma_complete_group(groups, from, 0);
    }
}

/// Draining a track in parts, as it grows, gives the bytes that draining it at
/// once at the end gives: the parts follow one another, and nothing is read
/// twice or left out.
pub proof fn law_drained_in_parts_is_drained_at_once(
    before: Seq<SubgroupView>,
    closed: Result<(), ServeError>,
    live: bool,
    after: Seq<SubgroupView>,
    closed_after: Result<(), ServeError>,
    live_after: bool,
    place: DrainPlace,
)
    requires
        place.within(before),
        contents_grew(before, after),
    ensures
        ({
            let part = drain_from(before, closed, live, place);
            let rest = drain_from(after, closed_after, live_after, part.2);
            let whole = drain_from(after, closed_after, live_after, place);
            &&& place.within(after)
            &&& part.2.within(after)
            &&& whole == (part.0 + rest.0, rest.1, rest.2)
        }),
    decreases place.ahead(before).0, place.ahead(before).1, place.ahead(before).2,
{
    let rest = drain_from(after, closed_after, live_after, place);
    assert(Seq::<u8>::empty() + rest.0 =~= rest.0);
    match place {
        DrainPlace::Track { group } => if group < before.len() {
            law_drained_in_parts_is_drained_at_once(
                before,
                closed,
                live,
                after,
                closed_after,
                live_after,
                DrainPlace::Group { group, object: 0 },
            );
        },
        DrainPlace::Group { group, object } => {
            let g = before[group as int];
            assert(group_grew(g, after[group as int]));
            if object < g.objects.len() {
                assert(object_grew(
                    g.objects[object as int],
                    after[group as int].objects[object as int],
                ));
                law_drained_in_parts_is_drained_at_once(
                    before,
                    closed,
                    live,
                    after,
                    closed_after,
                    live_after,
                    DrainPlace::Object { group, object, chunk: 0 },
                );
            } else if drain_end(g.closed, g.live) is Ok {
                law_drained_in_parts_is_drained_at_once(
                    before,
                    closed,
                    live,
                    after,
                    closed_after,
                    live_after,
                    DrainPlace::Track { group: group + 1 },
                );
            }
        },
        DrainPlace::Object { group, object, chunk } => {
            let g = before[group as int];
            let o = g.objects[object as int];
            assert(group_grew(g, after[group as int]));
            assert(object_grew(o, after[group as int].objects[object as int]));
            if chunk < o.chunks.len() {
                let next = DrainPlace::Object { group, object, chunk: chunk + 1 };
                law_drained_in_parts_is_drained_at_once(
                    before,
                    closed,
                    live,
                    after,
                    closed_after,
                    live_after,
                    next,
                );
                let part = drain_from(before, closed, live, next);
                let last = drain_from(after, closed_after, live_after, part.2);
                assert(o.chunks[chunk as int] == after[group as int].objects[object as int]
                    .chunks[chunk as int]);
                assert(o.chunks[chunk as int] + (part.0 + last.0) =~= (o.chunks[chunk as int]
                    + part.0) + last.0);
            } else if drain_end(o.closed, o.live) is Ok {
                law_drained_in_parts_is_drained_at_once(
                    before,
                    closed,
                    live,
                    after,
                    closed_after,
                    live_after,
                    DrainPlace::Group { group, object: object + 1 },
                );
            }
        },
    }
}

/// What is said of tracks and outputs that do not pair up names both counts.
pub proof fn law_pair_errors_name_the_counts(tracks: usize, outputs: usize)
    ensures
        PairError::Empty.message() == "at least one --track/--output pair required"@,
        (PairError::CountMismatch { tracks, outputs }).message() == "--track count "@ + decimal(
            tracks as nat,
        ) + " does not match --output count "@ + decimal(outputs as nat)
            + " (pair them positionally)"@,
{
}

/// Draining ends well exactly where the writer is gone and did not close with an
/// error; it goes on where the writer is there.
pub proof fn law_draining_ends_with_the_writer(closed: Result<(), ServeError>, live: bool)
    ensures
        (drain_end(closed, live) is Ok) == (closed is Ok && !live),
        closed matches Err(e) ==> drain_end(closed, live) == Err::<(), DrainError>(
            DrainError::Serve(e),
        ),
        closed is Ok && live ==> drain_end(closed, live) == Err::<(), DrainError>(
            DrainError::Unfinished,
        ),
{
}

/// Draining stops at the first thing that has not ended or has failed, with the
/// bytes up to there and no more: where everything before one object has ended
/// well, and that object has not, its bytes are the last ones.
pub proof fn law_draining_stops_at_what_is_not_there(
    groups: Seq<SubgroupView>,
    closed: Result<(), ServeError>,
    live: bool,
    group: nat,
    object: nat,
    chunk: nat,
)
    requires
        (DrainPlace::Object { group, object, chunk }).within(groups),
        ({
            let o = groups[group as int].objects[object as int];
            o.closed is Err || o.live
        }),
    ensures
        ({
            let o = groups[group as int].objects[object as int];
            let (bytes, end, place) = drain_from(
                groups,
                closed,
                live,
                DrainPlace::Object { group, object, chunk },
            );
            &&& bytes == concat(o.chunks.skip(chunk as int))
            &&& place == (DrainPlace::Object { group, object, chunk: o.chunks.len() })
            &&& o.closed matches Err(e) ==> end == Err::<(), DrainError>(DrainError::Serve(e))
            &&& o.closed is Ok ==> end == Err::<(), DrainError>(DrainError::Unfinished)
        }),
    decreases groups[group as int].objects[object as int].chunks.len() - chunk,
{
    let o = groups[group as int].objects[object as int];
    let left = o.chunks.skip(chunk as int);
    if chunk < o.chunks.len() {
        law_draining_stops_at_what_is_not_there(groups, closed, live, group, object, chunk + 1);
        lemma_concat_first(left);
        assert(left.skip(1) =~= o.chunks.skip((chunk + 1) as int));
    } else {
        assert(left =~= Seq::empty());
        assert(concat(left) =~= Seq::<u8>::empty());
    }
}

/// A track of subgroups that is drained keeps what it carries and is written on
/// as before; what comes out is appended to what came out before, and a track
/// that is not one of subgroups is not drained.
pub proof fn law_draining_only_appends(
    before: TrackSink,
    after: TrackSink,
    drain: TrackDrain,
    drain_after: TrackDrain,
    contents: TrackContents,
    out: Seq<u8>,
    out_after: Seq<u8>,
    r: Result<usize, DrainError>,
)
    requires
        out_after.len() <= usize::MAX,
        sink_drained(before, after, drain, drain_after, contents, out, out_after, r),
    ensures
        after.writable == before.writable,
        before.mode is Subgroups,
        out.is_prefix_of(out_after),
        r matches Ok(n) ==> n == out_after.len() - out.len(),
        before.mode matches TrackWriterMode::Subgroups { state, .. } ==> {
            &&& after.mode matches TrackWriterMode::Subgroups { state: s, .. }
            &&& s.created() == state.created()
            &&& s.largest() == state.largest()
            &&& s.spec_closed() == state.spec_closed()
            &&& s.spec_live() == state.spec_live()
        },
{
}

/// Only a track of subgroups is started to be read as one, from what it retains
/// on.
pub proof fn law_reading_starts_at_what_is_retained(
    before: TrackSink,
    after: TrackSink,
    r: Option<TrackDrain>,
)
    requires
        sink_read(before, after, r),
    ensures
        (r is Some) == (before.mode is Subgroups),
        r is None ==> after == before,
        after.writable == before.writable,
        before.mode matches TrackWriterMode::Subgroups { state, .. } ==> {
            &&& (r->0).place() == (DrainPlace::Track { group: state.first() })
            &&& after.mode matches TrackWriterMode::Subgroups { state: s, .. }
            &&& s.created() == state.created()
            &&& s.first() == state.first()
        },
{
}

/// Whoever reads a local track leaves the one who writes it, and the window that
/// its publisher gave, as they were.
pub proof fn law_reading_leaves_the_writer(
    before: TrackSink,
    after: TrackSink,
    started: Option<TrackDrain>,
    drain: TrackDrain,
    drain_after: TrackDrain,
    contents: TrackContents,
    out: Seq<u8>,
    out_after: Seq<u8>,
    r: Result<usize, DrainError>,
)
    requires
        before.mode is Subgroups,
        sink_read(before, after, started) || sink_drained(
            before,
            after,
            drain,
            drain_after,
            contents,
            out,
            out_after,
            r,
        ),
    ensures
        after.mode is Subgroups,
        after.mode->Subgroups_writer == before.mode->Subgroups_writer,
        after.mode->Subgroups_history_window == before.mode->Subgroups_history_window,
        after.writable == before.writable,
{
}

} // verus!
