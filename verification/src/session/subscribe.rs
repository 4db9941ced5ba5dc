//! One subscription: the request for it, what became of it, and the local
//! track that its objects are written to.

use bytes::Bytes;
use vstd::prelude::*;

use crate::kvp::{ExtensionHeaders, KeyValuePairs, PairView};
use crate::serve::datagram::{
    Datagram, DatagramView, Datagrams, DatagramsState, DatagramsWriter,
};
use crate::serve::subgroup::{
    is_front, is_frontier, Subgroup, Subgroups, SubgroupsState, SubgroupsWriter, WriterView,
};
use crate::serve::{advanced, close_result, close_with, ServeError};
use crate::wire::{bytes_from_vec, bytes_view};

verus! {

#[derive(Copy, Clone, Debug, PartialEq, Eq, Structural)]
pub enum GroupOrder {
    Publisher,
    Ascending,
    Descending,
}

#[derive(Copy, Clone, Debug, PartialEq, Eq, Structural)]
pub enum FilterType {
    NextGroupStart,
    LargestObject,
    AbsoluteStart,
    AbsoluteRange,
}

#[derive(Copy, Clone, Debug, PartialEq, Eq, Structural)]
pub struct Location {
    pub group_id: u64,
    pub object_id: u64,
}

/// A request for a track.
pub struct SubscribeRequest {
    pub id: u64,
    pub track_namespace: String,
    pub track_name: String,
    pub subscriber_priority: u8,
    pub group_order: GroupOrder,
    pub forward: bool,
    pub filter_type: FilterType,
    pub start_location: Option<Location>,
    pub end_group_id: Option<u64>,
    pub params: KeyValuePairs,
}

/// What a subscription was asked for with.
pub struct SubscribeInfo {
    pub id: u64,
    pub track_namespace: String,
    pub track_name: String,
    pub subscriber_priority: u8,
    pub group_order: GroupOrder,
    /// Whether objects are to be forwarded.
    pub forward: bool,
    pub filter_type: FilterType,
    /// Where the subscription starts, for the absolute filters.
    pub start_location: Option<Location>,
    /// The last group, inclusive, for the absolute range.
    pub end_group_id: Option<u64>,
    pub params: KeyValuePairs,
    /// Whether only the status of the track was asked for.
    pub track_status: bool,
}

impl SubscribeRequest {
    /// The default request for a track: its largest object on, in the
    /// publisher's order, at middle priority.
    pub open spec fn is_for_track(
        &self,
        id: u64,
        track_namespace: String,
        track_name: String,
    ) -> bool {
        &&& self.id == id
        &&& self.track_namespace == track_namespace
        &&& self.track_name == track_name
        &&& self.subscriber_priority == 127
        &&& self.group_order == GroupOrder::Publisher
        &&& self.forward
        &&& self.filter_type == FilterType::LargestObject
        &&& self.start_location is None
        &&& self.end_group_id is None
        &&& self.params@ == Seq::<PairView>::empty()
    }

    /// The default request for a track.
    pub fn for_track(id: u64, track_namespace: &String, track_name: &String) -> (r: Self)
        ensures
            r.is_for_track(id, *track_namespace, *track_name),
    {
        SubscribeRequest {
            id,
            track_namespace: track_namespace.clone(),
            track_name: track_name.clone(),
            subscriber_priority: 127,
            group_order: GroupOrder::Publisher,
            forward: true,
            filter_type: FilterType::LargestObject,
            start_location: None,
            end_group_id: None,
            params: KeyValuePairs::default(),
        }
    }
}

impl SubscribeInfo {
    /// The information says what a request asks for.
    pub open spec fn mirrors(&self, msg: SubscribeRequest) -> bool {
        &&& self.id == msg.id
        &&& self.track_namespace == msg.track_namespace
        &&& self.track_name == msg.track_name
        &&& self.subscriber_priority == msg.subscriber_priority
        &&& self.group_order == msg.group_order
        &&& self.forward == msg.forward
        &&& self.filter_type == msg.filter_type
        &&& self.start_location == msg.start_location
        &&& self.end_group_id == msg.end_group_id
        &&& self.params@ == msg.params@
        &&& !self.track_status
    }

    pub fn new_from_subscribe(msg: &SubscribeRequest) -> (r: Self)
        ensures
            r.mirrors(*msg),
    {
        SubscribeInfo {
            id: msg.id,
            track_namespace: msg.track_namespace.clone(),
            track_name: msg.track_name.clone(),
            subscriber_priority: msg.subscriber_priority,
            group_order: msg.group_order,
            forward: msg.forward,
            filter_type: msg.filter_type,
            start_location: msg.start_location,
            end_group_id: msg.end_group_id,
            params: msg.params.clone(),
            track_status: false,
        }
    }
}

/// What opens a stream of a subgroup.
#[derive(Copy, Clone, Debug, PartialEq, Eq)]
pub struct SubgroupHeader {
    pub track_alias: u64,
    pub group_id: u64,
    /// The subgroup; the first one, where it is left out.
    pub subgroup_id: Option<u64>,
    pub publisher_priority: u8,
}

impl SubgroupHeader {
    /// The subgroup that the header opens.
    pub open spec fn spec_subgroup(self) -> Subgroup {
        Subgroup {
            group_id: self.group_id,
            subgroup_id: match self.subgroup_id {
                Some(id) => id,
                None => 0,
            },
            priority: self.publisher_priority,
        }
    }
}

/// A datagram as it came from the peer.
pub struct ReceivedDatagram {
    pub track_alias: u64,
    pub group_id: u64,
    pub object_id: Option<u64>,
    pub publisher_priority: u8,
    pub payload: Option<Bytes>,
    pub extension_headers: Option<ExtensionHeaders>,
}

impl ReceivedDatagram {
    /// The datagram with its absent parts filled in: object zero, no payload,
    /// no headers.
    pub open spec fn spec_datagram(&self) -> DatagramView {
        DatagramView {
            group_id: self.group_id,
            object_id: match self.object_id {
                Some(id) => id,
                None => 0,
            },
            priority: self.publisher_priority,
            payload: match self.payload {
                Some(b) => bytes_view(b),
                None => Seq::empty(),
            },
            extension_headers: match self.extension_headers {
                Some(h) => h@,
                None => Seq::empty(),
            },
        }
    }

    pub fn into_datagram(self) -> (r: Datagram)
        ensures
            r@ == self.spec_datagram(),
    {
        Datagram {
            group_id: self.group_id,
            object_id: match self.object_id {
                Some(id) => id,
                None => 0,
            },
            priority: self.publisher_priority,
            payload: match self.payload {
                Some(b) => b,
                None => bytes_from_vec(Vec::new()),
            },
            extension_headers: match self.extension_headers {
                Some(h) => h,
                None => ExtensionHeaders::default(),
            },
        }
    }
}

/// How a local track is written.
pub enum TrackWriterMode {
    /// It is not decided yet.
    Track { history_window: Option<u64>, closed: Result<(), ServeError>, live: bool },
    /// As one stream, which nothing here writes.
    Stream,
    Subgroups {
        state: SubgroupsState,
        writer: SubgroupsWriter,
        history_window: Option<u64>,
    },
    Datagrams { state: DatagramsState, writer: DatagramsWriter, history_window: Option<u64> },
}

/// What a local track of subgroups holds.
pub ghost struct GroupsView {
    pub created: Seq<Subgroup>,
    pub first: nat,
    pub frontier: Option<(u64, u64)>,
    /// How far each active reader has read.
    pub cursors: Map<u64, usize>,
    /// The largest group and object that was written.
    pub largest: Option<(u64, u64)>,
    /// How many readers were ever active.
    pub activations: u64,
    /// How the one who creates subgroups goes on.
    pub writer: WriterView,
    pub closed: Result<(), ServeError>,
    pub live: bool,
    pub history_window: Option<u64>,
}

/// What a local track holds.
pub ghost enum ModeView {
    Track { history_window: Option<u64>, closed: Result<(), ServeError>, live: bool },
    Stream,
    Subgroups(GroupsView),
    Datagrams {
        written: Seq<DatagramView>,
        depth: nat,
        closed: Result<(), ServeError>,
        live: bool,
        history_window: Option<u64>,
    },
}

impl ModeView {
    /// There is a number left for one more subgroup or datagram.
    pub open spec fn room(self) -> bool {
        match self {
            ModeView::Subgroups(groups) => groups.created.len() < usize::MAX,
            ModeView::Datagrams { written, .. } => written.len() < u64::MAX,
            _ => true,
        }
    }

    /// The history window that the publisher gave.
    pub open spec fn window(self) -> Option<u64> {
        match self {
            ModeView::Track { history_window, .. } => history_window,
            ModeView::Stream => None,
            ModeView::Subgroups(groups) => groups.history_window,
            ModeView::Datagrams { history_window, .. } => history_window,
        }
    }

    /// What the track was closed with.
    pub open spec fn outcome(self) -> Result<(), ServeError> {
        match self {
            ModeView::Track { closed, .. } => closed,
            ModeView::Stream => Ok(()),
            ModeView::Subgroups(groups) => groups.closed,
            ModeView::Datagrams { closed, .. } => closed,
        }
    }
}

impl View for TrackWriterMode {
    type V = ModeView;

    open spec fn view(&self) -> ModeView {
        match self {
            TrackWriterMode::Track { history_window, closed, live } => ModeView::Track {
                history_window: *history_window,
                closed: *closed,
                live: *live,
            },
            TrackWriterMode::Stream => ModeView::Stream,
            TrackWriterMode::Subgroups { state, writer, history_window } => ModeView::Subgroups(
                GroupsView {
                    created: state.created(),
                    first: state.first(),
                    frontier: state.frontier(),
                    cursors: state.cursors(),
                    largest: state.largest(),
                    activations: state.activations(),
                    writer: writer@,
                    closed: state.spec_closed(),
                    live: state.spec_live(),
                    history_window: *history_window,
                },
            ),
            TrackWriterMode::Datagrams { state, history_window, .. } => ModeView::Datagrams {
                written: state.written(),
                depth: state.spec_depth(),
                closed: state.spec_closed(),
                live: state.spec_live(),
                history_window: *history_window,
            },
        }
    }
}

impl TrackWriterMode {
    /// What every operation keeps.
    pub open spec fn wf(&self) -> bool {
        match self {
            TrackWriterMode::Subgroups { state, writer, .. } => state.wf() && writer.wf(state),
            TrackWriterMode::Datagrams { state, .. } => state.wf(),
            _ => true,
        }
    }

    /// There is a number left for one more subgroup or datagram.
    pub open spec fn room(&self) -> bool {
        self@.room()
    }

    /// A track that nothing was written to.
    pub fn new_track() -> (r: Self)
        ensures
            r@ == (ModeView::Track { history_window: None, closed: Ok(()), live: true }),
            r.wf(),
            r.room(),
    {
        TrackWriterMode::Track { history_window: None, closed: Ok(()), live: true }
    }

    /// Closes the track with an error.
    pub fn close(&mut self, err: ServeError) -> (r: Result<(), ServeError>)
        requires
            old(self).wf(),
        ensures
            final(self).wf(),
            final(self).room() == old(self).room(),
            r == mode_close_result(old(self)@),
            final(self)@ == if r is Ok {
                mode_closed(old(self)@, err)
            } else {
                old(self)@
            },
    {
        match self {
            TrackWriterMode::Track { closed, live, .. } => close_with(closed, *live, err),
            TrackWriterMode::Stream => Ok(()),
            TrackWriterMode::Subgroups { state, writer, .. } => {
                close_subgroups(state, writer, err)
            },
            TrackWriterMode::Datagrams { state, .. } => { DatagramsWriter {  }.close(state, err) },
        }
    }

    /// The writer goes. What was written stays for those who read.
    pub fn drop_writer(&mut self)
        requires
            old(self).wf(),
        ensures
            final(self).wf(),
            final(self).room() == old(self).room(),
            final(self)@ == mode_dropped(old(self)@),
    {
        match self {
            TrackWriterMode::Track { live, .. } => {
                *live = false;
            },
            TrackWriterMode::Stream => {},
            TrackWriterMode::Subgroups { state, writer, .. } => {
                drop_subgroups(state, writer);
            },
            TrackWriterMode::Datagrams { state, .. } => {
                state.drop_side();
            },
        }
    }
}

fn record_in(state: &mut SubgroupsState, writer: &SubgroupsWriter, location: (u64, u64))
    requires
        old(state).wf(),
        writer.wf(old(state)),
    ensures
        final(state).wf(),
        writer.wf(final(state)),
        final(state).same_but_mark(old(state)),
        final(state).largest() == advanced(old(state).largest(), location),
{
    state.record(location);
}

fn drop_subgroups(state: &mut SubgroupsState, writer: &SubgroupsWriter)
    requires
        old(state).wf(),
        writer.wf(old(state)),
    ensures
        final(state).wf(),
        writer.wf(final(state)),
        final(state).created() == old(state).created(),
        final(state).first() == old(state).first(),
        final(state).frontier() == old(state).frontier(),
        final(state).activations() == old(state).activations(),
        final(state).cursors() == old(state).cursors(),
        final(state).largest() == old(state).largest(),
        final(state).spec_closed() == old(state).spec_closed(),
        !final(state).spec_live(),
{
    state.drop_side();
}

fn close_subgroups(state: &mut SubgroupsState, writer: &SubgroupsWriter, err: ServeError) -> (r:
    Result<(), ServeError>)
    requires
        old(state).wf(),
        writer.wf(old(state)),
    ensures
        final(state).wf(),
        writer.wf(final(state)),
        final(state).created() == old(state).created(),
        final(state).first() == old(state).first(),
        final(state).frontier() == old(state).frontier(),
        final(state).activations() == old(state).activations(),
        final(state).cursors() == old(state).cursors(),
        final(state).largest() == old(state).largest(),
        final(state).spec_live() == old(state).spec_live(),
        r == close_result(old(state).spec_closed(), old(state).spec_live()),
        final(state).spec_closed() == if r is Ok {
            Err::<(), ServeError>(err)
        } else {
            old(state).spec_closed()
        },
{
    state.close(err)
}

/// How closing a track goes.
pub open spec fn mode_close_result(mode: ModeView) -> Result<(), ServeError> {
    match mode {
        ModeView::Track { closed, live, .. } => close_result(closed, live),
        ModeView::Stream => Ok(()),
        ModeView::Subgroups(groups) => close_result(groups.closed, groups.live),
        ModeView::Datagrams { closed, live, .. } => close_result(closed, live),
    }
}

/// A track that was closed.
pub open spec fn mode_closed(mode: ModeView, err: ServeError) -> ModeView {
    match mode {
        ModeView::Track { history_window, live, .. } => ModeView::Track {
            history_window,
            closed: Err(err),
            live,
        },
        ModeView::Stream => mode,
        ModeView::Subgroups(groups) => ModeView::Subgroups(
            GroupsView { closed: Err(err), ..groups },
        ),
        ModeView::Datagrams { written, depth, live, history_window, .. } => ModeView::Datagrams {
            written,
            depth,
            closed: Err(err),
            live,
            history_window,
        },
    }
}

/// A track whose writer has gone.
pub open spec fn mode_dropped(mode: ModeView) -> ModeView {
    match mode {
        ModeView::Track { history_window, closed, .. } => ModeView::Track {
            history_window,
            closed,
            live: false,
        },
        ModeView::Stream => mode,
        ModeView::Subgroups(groups) => ModeView::Subgroups(GroupsView { live: false, ..groups }),
        ModeView::Datagrams { written, depth, closed, history_window, .. } =>
            ModeView::Datagrams { written, depth, closed, live: false, history_window },
    }
}

/// A local track, and whether it is still written here. What was written stays
/// for those who read the track.
pub struct TrackSink {
    pub mode: TrackWriterMode,
    pub writable: bool,
}

/// What a local track holds, and whether it is still written.
pub ghost struct SinkView {
    pub mode: ModeView,
    pub writable: bool,
}

impl View for TrackSink {
    type V = SinkView;

    open spec fn view(&self) -> SinkView {
        SinkView { mode: self.mode@, writable: self.writable }
    }
}

impl SinkView {
    /// The subgroups that were created on the track.
    pub open spec fn created(self) -> Seq<Subgroup> {
        match self.mode {
            ModeView::Subgroups(groups) => groups.created,
            _ => Seq::empty(),
        }
    }

    /// A track that nothing was written to.
    pub open spec fn fresh() -> SinkView {
        SinkView {
            mode: ModeView::Track { history_window: None, closed: Ok(()), live: true },
            writable: true,
        }
    }

    /// A track that is written no more.
    pub open spec fn dropped(self) -> SinkView {
        SinkView { mode: mode_dropped(self.mode), writable: false }
    }

    /// A track on which an object was announced: its largest location moves
    /// there, where it is not beyond it.
    pub open spec fn recorded(self, location: (u64, u64)) -> SinkView {
        match self.mode {
            ModeView::Subgroups(groups) => SinkView {
                mode: ModeView::Subgroups(
                    GroupsView { largest: advanced(groups.largest, location), ..groups },
                ),
                ..self
            },
            _ => self,
        }
    }

    /// How closing the track goes, where it is still written.
    pub open spec fn close_result(self) -> Result<(), ServeError> {
        if self.writable {
            mode_close_result(self.mode)
        } else {
            Ok(())
        }
    }

    /// The track after it was closed, where it could be, and left.
    pub open spec fn closed(self, err: ServeError) -> SinkView {
        if !self.writable {
            self
        } else if self.close_result() is Ok {
            SinkView { mode: mode_dropped(mode_closed(self.mode, err)), writable: false }
        } else {
            self.dropped()
        }
    }
}

impl TrackSink {
    pub open spec fn wf(&self) -> bool {
        self.mode.wf()
    }

    pub open spec fn room(&self) -> bool {
        self@.mode.room()
    }

    /// A track that nothing was written to.
    pub fn new() -> (r: Self)
        ensures
            r@ == SinkView::fresh(),
            r.wf(),
            r.room(),
    {
        TrackSink { mode: TrackWriterMode::new_track(), writable: true }
    }

    /// The writer goes.
    pub fn drop_writer(&mut self)
        requires
            old(self).wf(),
        ensures
            final(self).wf(),
            final(self).room() == old(self).room(),
            final(self)@ == old(self)@.dropped(),
    {
        self.mode.drop_writer();
        self.writable = false;
    }

    /// Closes the track with an error, where it is still written, and leaves
    /// it.
    pub fn close(&mut self, err: ServeError) -> (r: Result<(), ServeError>)
        requires
            old(self).wf(),
        ensures
            final(self).wf(),
            r == old(self)@.close_result(),
            final(self)@ == old(self)@.closed(err),
    {
        if !self.writable {
            return Ok(());
        }
        let r: Result<(), ServeError> = self.mode.close(err);
        self.drop_writer();
        r
    }

    /// An object was announced on one of the track's subgroups.
    pub fn record(&mut self, location: (u64, u64))
        requires
            old(self).wf(),
        ensures
            final(self).wf(),
            final(self)@ == old(self)@.recorded(location),
    {
        match &mut self.mode {
            TrackWriterMode::Subgroups { state, writer, .. } => {
                record_in(state, writer, location);
            },
            _ => {},
        }
    }

    /// Opens a subgroup on the track. A track that is not written as subgroups
    /// yet becomes one; whatever fails ends the writing.
    pub fn subgroup(&mut self, header: SubgroupHeader) -> (r: Result<Subgroup, ServeError>)
        requires
            old(self).wf(),
            old(self).room(),
        ensures
            final(self).wf(),
            subgroup_opened(old(self)@, final(self)@, header.spec_subgroup(), r),
    {
        let subgroup = Subgroup {
            group_id: header.group_id,
            subgroup_id: match header.subgroup_id {
                Some(id) => id,
                None => 0,
            },
            priority: header.publisher_priority,
        };
        if !self.writable {
            return Err(ServeError::Done);
        }
        let r: Result<Subgroup, ServeError> = match &mut self.mode {
            TrackWriterMode::Track { history_window, live, .. } => {
                if !*live {
                    Err(ServeError::Cancel)
                } else {
                    let history_window: Option<u64> = *history_window;
                    let (mut state, mut writer, reader) = (Subgroups {  }).produce();
                    reader.release(&mut state);
                    proof {
                        crate::serve::subgroup::lemma_given_up(state);
                        assert(state.cursors() =~= Map::<u64, usize>::empty());
                    }
                    match writer.create(&mut state, subgroup) {
                        Err(e) => Err(e),
                        Ok(subgroup) => {
                            proof {
                                assert(state.created() =~= seq![subgroup]);
                                crate::serve::subgroup::lemma_given_up(state);
                            }
                            self.mode = TrackWriterMode::Subgroups {
                                state,
                                writer,
                                history_window,
                            };
                            Ok(subgroup)
                        },
                    }
                }
            },
            TrackWriterMode::Subgroups { state, writer, .. } => writer.create(state, subgroup),
            _ => Err(ServeError::Mode),
        };
        if r.is_err() {
            self.drop_writer();
        }
        r
    }

    /// Writes a datagram on the track. A track that is not written as datagrams
    /// yet becomes one, as deep as its history window; a track that is written
    /// in another way stays as it is.
    pub fn datagram(&mut self, datagram: ReceivedDatagram) -> (r: Result<(), ServeError>)
        requires
            old(self).wf(),
            old(self).room(),
        ensures
            final(self).wf(),
            datagram_written(old(self)@, final(self)@, datagram.spec_datagram(), r),
    {
        if !self.writable {
            return Err(ServeError::Done);
        }
        let r: Result<(), ServeError> = match &mut self.mode {
            TrackWriterMode::Track { history_window, live, .. } => {
                if !*live {
                    Err(ServeError::Cancel)
                } else {
                    let history_window: Option<u64> = *history_window;
                    let depth: usize = match history_window {
                        Some(window) => if window < usize::MAX as u64 {
                            window as usize
                        } else {
                            usize::MAX
                        },
                        None => 1,
                    };
                    let (mut state, mut writer, _reader) = (Datagrams {  }).produce_with_depth(
                        depth,
                    );
                    let ghost d = datagram.spec_datagram();
                    let r: Result<(), ServeError> = writer.write(
                        &mut state,
                        datagram.into_datagram(),
                    );
                    assert(state.written() =~= seq![d]);
                    self.mode = TrackWriterMode::Datagrams { state, writer, history_window };
                    r
                }
            },
            TrackWriterMode::Datagrams { state, writer, .. } => {
                writer.write(state, datagram.into_datagram())
            },
            _ => {
                return Err(ServeError::Mode);
            },
        };
        if r.is_err() {
            self.drop_writer();
        }
        r
    }
}

/// Whether an identity may not be created, out of what a track holds.
pub open spec fn mode_key_closed(
    created: Seq<Subgroup>,
    first: nat,
    frontier: Option<(u64, u64)>,
    key: (u64, u64),
) -> bool {
    ||| (frontier matches Some(f) && crate::serve::at_most(key, f))
    ||| exists|i: int| first <= i < created.len() && (#[trigger] created[i]).key() == key
}

/// What opening a subgroup on a track comes to.
pub open spec fn subgroup_opened(
    before: SinkView,
    after: SinkView,
    subgroup: Subgroup,
    r: Result<Subgroup, ServeError>,
) -> bool {
    if !before.writable {
        r == Err::<Subgroup, ServeError>(ServeError::Done) && after == before
    } else {
        match before.mode {
            ModeView::Track { live: true, history_window, .. } => {
                &&& r == Ok::<Subgroup, ServeError>(subgroup)
                &&& after.writable
                &&& after.mode == ModeView::Subgroups(
                    GroupsView {
                        created: seq![subgroup],
                        first: 0,
                        frontier: None,
                        cursors: Map::empty(),
                        largest: None,
                        activations: 1,
                        writer: WriterView::fresh().created(subgroup),
                        closed: Ok(()),
                        live: true,
                        history_window,
                    },
                )
            },
            ModeView::Track { live: false, .. } => r == Err::<Subgroup, ServeError>(
                ServeError::Cancel,
            ) && after == before.dropped(),
            ModeView::Subgroups(groups) => if !groups.live {
                r == Err::<Subgroup, ServeError>(ServeError::Cancel) && after == before.dropped()
            } else if mode_key_closed(
                groups.created,
                groups.first,
                groups.frontier,
                subgroup.key(),
            ) {
                r == Err::<Subgroup, ServeError>(ServeError::Duplicate) && after
                    == before.dropped()
            } else {
                &&& r == Ok::<Subgroup, ServeError>(subgroup)
                &&& after.writable
                &&& after.mode matches ModeView::Subgroups(now)
                &&& now == (GroupsView {
                    created: groups.created.push(subgroup),
                    first: now.first,
                    frontier: now.frontier,
                    writer: groups.writer.created(subgroup),
                    ..groups
                })
                &&& is_front(now.first, now.created.len(), now.cursors)
                &&& is_frontier(now.created.take(now.first as int), now.frontier)
            },
            _ => r == Err::<Subgroup, ServeError>(ServeError::Mode) && after == before.dropped(),
        }
    }
}

/// What writing a datagram on a track comes to.
pub open spec fn datagram_written(
    before: SinkView,
    after: SinkView,
    datagram: DatagramView,
    r: Result<(), ServeError>,
) -> bool {
    if !before.writable {
        r == Err::<(), ServeError>(ServeError::Done) && after == before
    } else {
        match before.mode {
            ModeView::Track { live: true, history_window, .. } => {
                &&& r == Ok::<(), ServeError>(())
                &&& after.writable
                &&& after.mode == (ModeView::Datagrams {
                    written: seq![datagram],
                    depth: ring_depth(history_window),
                    closed: Ok(()),
                    live: true,
                    history_window,
                })
            },
            ModeView::Track { live: false, .. } => r == Err::<(), ServeError>(ServeError::Cancel)
                && after == before.dropped(),
            ModeView::Datagrams { written, depth, closed, live, history_window } => if live {
                &&& r == Ok::<(), ServeError>(())
                &&& after.writable
                &&& after.mode == (ModeView::Datagrams {
                    written: written.push(datagram),
                    depth,
                    closed,
                    live,
                    history_window,
                })
            } else {
                r == Err::<(), ServeError>(ServeError::Cancel) && after == before.dropped()
            },
            _ => r == Err::<(), ServeError>(ServeError::Mode) && after == before,
        }
    }
}

/// How many datagrams a track retains whose publisher gave this history window.
pub open spec fn ring_depth(history_window: Option<u64>) -> nat {
    match history_window {
        None => 1,
        Some(0) => 1,
        Some(w) => if w < usize::MAX {
            w as nat
        } else {
            usize::MAX as nat
        },
    }
}

/// The receiving side of a subscription: whether the publisher has accepted
/// it, under which alias, and where its objects go.
pub struct SubscribeRecv {
    pub ok: bool,
    pub track_alias: Option<u64>,
    pub closed: Result<(), ServeError>,
    pub live: bool,
    pub sink: TrackSink,
}

/// What became of a subscription.
pub ghost struct SubscribeView {
    pub ok: bool,
    pub track_alias: Option<u64>,
    pub closed: Result<(), ServeError>,
    /// Whether the application still holds the subscription.
    pub live: bool,
    /// The track that its objects go to.
    pub sink: SinkView,
}

impl SubscribeView {
    /// A subscription that was asked for.
    pub open spec fn fresh() -> SubscribeView {
        SubscribeView {
            ok: false,
            track_alias: None,
            closed: Ok(()),
            live: true,
            sink: SinkView::fresh(),
        }
    }

    /// A subscription that was accepted under an alias, with a history window
    /// where there is one. One that nobody holds takes the window only.
    pub open spec fn accepted(self, alias: u64, window: Option<u64>) -> SubscribeView {
        let sink = with_window(self.sink, window);
        if self.live {
            SubscribeView { ok: true, track_alias: Some(alias), sink, ..self }
        } else {
            SubscribeView { sink, ..self }
        }
    }

    /// What the publisher has answered, if anything. A receiving side that is
    /// gone will not learn any more.
    pub open spec fn answer(self, recv_gone: bool) -> Option<Result<(), ServeError>> {
        match self.closed {
            Err(e) => Some(Err(e)),
            Ok(()) => if self.ok {
                Some(Ok(()))
            } else if recv_gone {
                Some(Err(ServeError::Done))
            } else {
                None
            },
        }
    }
}

impl View for SubscribeRecv {
    type V = SubscribeView;

    open spec fn view(&self) -> SubscribeView {
        SubscribeView {
            ok: self.ok,
            track_alias: self.track_alias,
            closed: self.closed,
            live: self.live,
            sink: self.sink@,
        }
    }
}

impl SubscribeRecv {
    pub open spec fn wf(&self) -> bool {
        self.sink.wf()
    }

    /// A subscription that was asked for.
    pub fn new() -> (r: Self)
        ensures
            r@ == SubscribeView::fresh(),
            r.wf(),
            r.sink.room(),
    {
        SubscribeRecv {
            ok: false,
            track_alias: None,
            closed: Ok(()),
            live: true,
            sink: TrackSink::new(),
        }
    }

    /// The publisher accepts, once, under an alias and with a history window
    /// where it gives one. The window is applied where the track still takes
    /// it; a window that cannot be applied is no failure.
    pub fn ok(&mut self, alias: u64, history_window_groups: Option<u64>) -> (r: Result<
        (),
        ServeError,
    >)
        requires
            old(self).wf(),
        ensures
            final(self).wf(),
            final(self).sink.room() == old(self).sink.room(),
            old(self)@.ok ==> r == Err::<(), ServeError>(ServeError::Duplicate) && *final(self)
                == *old(self),
            !old(self)@.ok ==> {
                &&& r == Ok::<(), ServeError>(())
                &&& final(self)@ == old(self)@.accepted(alias, history_window_groups)
            },
    {
        if self.ok {
            return Err(ServeError::Duplicate);
        }
        if self.live {
            self.ok = true;
            self.track_alias = Some(alias);
        }
        if let Some(window) = history_window_groups {
            if self.sink.writable {
                match &mut self.sink.mode {
                    TrackWriterMode::Track { history_window, live, .. } => {
                        if *live {
                            *history_window = Some(window);
                        }
                    },
                    TrackWriterMode::Subgroups { history_window, .. } => {
                        *history_window = Some(window);
                    },
                    _ => {},
                }
            }
        }
        Ok(())
    }

    pub fn track_alias(&self) -> (r: Option<u64>)
        ensures
            r == self@.track_alias,
    {
        self.track_alias
    }

    /// The history window that the publisher gave.
    pub fn history_window(&self) -> (r: Option<u64>)
        ensures
            r == self@.sink.mode.window(),
    {
        match &self.sink.mode {
            TrackWriterMode::Track { history_window, .. } => *history_window,
            TrackWriterMode::Stream => None,
            TrackWriterMode::Subgroups { history_window, .. } => *history_window,
            TrackWriterMode::Datagrams { history_window, .. } => *history_window,
        }
    }

    /// The subscription fails, and with it the track, where it is still
    /// written.
    pub fn error(&mut self, err: ServeError) -> (r: Result<(), ServeError>)
        requires
            old(self).wf(),
        ensures
            final(self).wf(),
            subscription_failed(*old(self), *final(self), err, r),
    {
        match self.sink.close(err) {
            Ok(()) => close_with(&mut self.closed, self.live, err),
            Err(e) => Err(e),
        }
    }

    pub fn subgroup(&mut self, header: SubgroupHeader) -> (r: Result<Subgroup, ServeError>)
        requires
            old(self).wf(),
            old(self).sink.room(),
        ensures
            final(self).wf(),
            final(self)@ == (SubscribeView { sink: final(self)@.sink, ..old(self)@ }),
            subgroup_opened(
                old(self)@.sink,
                final(self)@.sink,
                header.spec_subgroup(),
                r,
            ),
    {
        self.sink.subgroup(header)
    }

    pub fn datagram(&mut self, datagram: ReceivedDatagram) -> (r: Result<(), ServeError>)
        requires
            old(self).wf(),
            old(self).sink.room(),
        ensures
            final(self).wf(),
            final(self)@ == (SubscribeView { sink: final(self)@.sink, ..old(self)@ }),
            datagram_written(
                old(self)@.sink,
                final(self)@.sink,
                datagram.spec_datagram(),
                r,
            ),
    {
        self.sink.datagram(datagram)
    }

    /// The application lets go of the subscription.
    pub fn drop_side(&mut self)
        ensures
            final(self)@ == (SubscribeView { live: false, ..old(self)@ }),
            final(self).sink == old(self).sink,
    {
        self.live = false;
    }
}

/// What the failure of a subscription comes to: the track is closed where it is
/// still written, and then the subscription, once.
pub open spec fn subscription_failed(
    before: SubscribeRecv,
    after: SubscribeRecv,
    err: ServeError,
    r: Result<(), ServeError>,
) -> bool {
    &&& r == failure_result(before)
    &&& after@ == (SubscribeView {
        closed: if r is Ok {
            Err(err)
        } else {
            before@.closed
        },
        sink: before@.sink.closed(err),
        ..before@
    })
}

/// How the failure of a subscription goes.
pub open spec fn failure_result(recv: SubscribeRecv) -> Result<(), ServeError> {
    match recv.sink@.close_result() {
        Err(e) => Err(e),
        Ok(()) => close_result(recv@.closed, recv@.live),
    }
}

/// A track with a publisher's history window, where it still takes it.
pub open spec fn with_window(sink: SinkView, window: Option<u64>) -> SinkView {
    match (sink.mode, window) {
        (ModeView::Track { closed, live: true, .. }, Some(w)) => if sink.writable {
            SinkView {
                mode: ModeView::Track { history_window: Some(w), closed, live: true },
                writable: true,
            }
        } else {
            sink
        },
        (ModeView::Subgroups(groups), Some(w)) => if sink.writable {
            SinkView {
                mode: ModeView::Subgroups(GroupsView { history_window: Some(w), ..groups }),
                writable: true,
            }
        } else {
            sink
        },
        _ => sink,
    }
}

/// A subscription in the hands of the application.
pub struct Subscribe {
    pub info: SubscribeInfo,
}

impl Subscribe {
    /// The request for a track, and the subscription that follows from it.
    pub fn new(request_id: u64, track_namespace: &String, track_name: &String) -> (r: (
        Subscribe,
        SubscribeRecv,
        SubscribeRequest,
    ))
        ensures
            r.0.info.mirrors(r.2),
            r.1@ == SubscribeView::fresh(),
            r.1.wf(),
            r.1.sink.room(),
            r.2.is_for_track(request_id, *track_namespace, *track_name),
    {
        let request = SubscribeRequest::for_track(request_id, track_namespace, track_name);
        let info = SubscribeInfo::new_from_subscribe(&request);
        (Subscribe { info }, SubscribeRecv::new(), request)
    }

    /// Whether the subscription is over: with an error, or because the
    /// receiving side is gone. Nothing, where it still runs.
    pub fn closed(&self, recv: &SubscribeRecv, recv_gone: bool) -> (r: Option<
        Result<(), ServeError>,
    >)
        ensures
            r == match recv@.closed {
                Err(e) => Some(Err::<(), ServeError>(e)),
                Ok(()) => if recv_gone {
                    Some(Ok(()))
                } else {
                    None
                },
            },
    {
        match recv.closed {
            Err(e) => Some(Err(e)),
            Ok(()) => if recv_gone {
                Some(Ok(()))
            } else {
                None
            },
        }
    }

    /// Whether the publisher has answered. Nothing, where it has not yet.
    pub fn ok(&self, recv: &SubscribeRecv, recv_gone: bool) -> (r: Option<
        Result<(), ServeError>,
    >)
        ensures
            r == recv@.answer(recv_gone),
    {
        match recv.closed {
            Err(e) => Some(Err(e)),
            Ok(()) => if recv.ok {
                Some(Ok(()))
            } else if recv_gone {
                Some(Err(ServeError::Done))
            } else {
                None
            },
        }
    }
}

/// A received datagram that a track takes is the last that was written on it,
/// as it came: in its group, under its own object number where it names one and
/// else as object zero, at its priority, with its payload and its extension
/// headers. What was written before stays.
pub proof fn law_datagram_is_written_as_it_came(
    before: SinkView,
    after: SinkView,
    datagram: ReceivedDatagram,
    r: Result<(), ServeError>,
)
    requires
        datagram_written(before, after, datagram.spec_datagram(), r),
        r is Ok,
    ensures
        after.writable,
        after.mode is Datagrams,
        ({
            let written = after.mode->Datagrams_written;
            let last = written.last();
            &&& written.len() > 0
            &&& last.group_id == datagram.group_id
            &&& datagram.object_id matches Some(n) ==> last.object_id == n
            &&& datagram.object_id is None ==> last.object_id == 0
            &&& last.priority == datagram.publisher_priority
            &&& datagram.payload matches Some(b) ==> last.payload == bytes_view(b)
            &&& datagram.payload is None ==> last.payload.len() == 0
            &&& datagram.extension_headers matches Some(h) ==> last.extension_headers == h@
            &&& datagram.extension_headers is None ==> last.extension_headers.len() == 0
            &&& match before.mode {
                ModeView::Datagrams { written: earlier, depth, closed, history_window, .. } => {
                    &&& written.drop_last() == earlier
                    &&& after.mode->depth == depth
                    &&& after.mode->Datagrams_closed == closed
                    &&& after.mode->Datagrams_history_window == history_window
                },
                _ => written.len() == 1,
            }
        }),
{
    if let ModeView::Datagrams { written: earlier, .. } = before.mode {
        assert(after.mode->Datagrams_written.drop_last() =~= earlier);
    }
}

/// A track takes a datagram exactly where it is still written, somebody reads
/// it, and it is not written in another way. Why it does not is told, and
/// nothing is written then.
pub proof fn law_datagrams_are_refused_for_cause(
    before: SinkView,
    after: SinkView,
    datagram: ReceivedDatagram,
    r: Result<(), ServeError>,
)
    requires
        datagram_written(before, after, datagram.spec_datagram(), r),
    ensures
        !before.writable ==> r == Err::<(), ServeError>(ServeError::Done) && after == before,
        before.writable ==> match before.mode {
            ModeView::Track { live, .. } => if live {
                r is Ok
            } else {
                r == Err::<(), ServeError>(ServeError::Cancel) && !after.writable
            },
            ModeView::Datagrams { live, written, .. } => if live {
                r is Ok
            } else {
                &&& r == Err::<(), ServeError>(ServeError::Cancel)
                &&& !after.writable
                &&& after.mode is Datagrams
                &&& after.mode->Datagrams_written == written
            },
            _ => r == Err::<(), ServeError>(ServeError::Mode) && after == before,
        },
{
}

/// A track that becomes one of datagrams retains as many as its publisher's
/// history window says, at least one, and one where nothing was said.
pub proof fn law_history_window_is_the_ring(
    before: SinkView,
    after: SinkView,
    datagram: ReceivedDatagram,
    r: Result<(), ServeError>,
)
    requires
        datagram_written(before, after, datagram.spec_datagram(), r),
        before.writable,
        before.mode is Track,
        before.mode->Track_live,
    ensures
        after.mode is Datagrams,
        after.mode->Datagrams_live,
        after.mode->Datagrams_closed == Ok::<(), ServeError>(()),
        after.mode->Datagrams_history_window == before.mode->Track_history_window,
        match before.mode->Track_history_window {
            Some(window) => {
                &&& after.mode->depth >= 1
                &&& 1 <= window <= usize::MAX ==> after.mode->depth == window
            },
            None => after.mode->depth == 1,
        },
{
}

/// A subgroup is opened on a track exactly where the track is still written and
/// read, is no track of another kind, and holds or gave up no subgroup at that
/// place; it is then the last that was created, and what was created before
/// stays. Whatever else happens ends the writing, and creates nothing.
pub proof fn law_subgroup_is_opened_once(
    before: SinkView,
    after: SinkView,
    subgroup: Subgroup,
    r: Result<Subgroup, ServeError>,
)
    requires
        subgroup_opened(before, after, subgroup, r),
    ensures
        r matches Ok(opened) ==> opened == subgroup,
        r is Ok ==> {
            &&& before.writable
            &&& after.writable
            &&& after.mode is Subgroups
            &&& after.created() == before.created().push(subgroup)
            &&& after.mode.window() == before.mode.window()
            &&& match before.mode {
                ModeView::Track { live, .. } => {
                    &&& live
                    &&& (after.mode->Subgroups_0).live
                    &&& (after.mode->Subgroups_0).first == 0
                    &&& (after.mode->Subgroups_0).largest is None
                },
                ModeView::Subgroups(groups) => {
                    &&& groups.live
                    &&& (after.mode->Subgroups_0).live
                    &&& (after.mode->Subgroups_0).cursors == groups.cursors
                    &&& (after.mode->Subgroups_0).largest == groups.largest
                    &&& (after.mode->Subgroups_0).closed == groups.closed
                    &&& forall|i: int|
                        groups.first <= i < groups.created.len() ==> {
                            ||| (#[trigger] groups.created[i]).group_id != subgroup.group_id
                            ||| groups.created[i].subgroup_id != subgroup.subgroup_id
                        }
                    &&& groups.frontier matches Some(f) ==> f.0 < subgroup.group_id || (f.0
                        == subgroup.group_id && f.1 < subgroup.subgroup_id)
                },
                _ => false,
            }
        },
        r is Err ==> !after.writable && after.created() == before.created(),
        !before.writable ==> r == Err::<Subgroup, ServeError>(ServeError::Done) && after == before,
        before.writable ==> match before.mode {
            ModeView::Track { live, .. } => if live {
                r is Ok
            } else {
                r == Err::<Subgroup, ServeError>(ServeError::Cancel)
            },
            ModeView::Subgroups(groups) => {
                &&& !groups.live ==> r == Err::<Subgroup, ServeError>(ServeError::Cancel)
                &&& groups.live && r is Err ==> r == Err::<Subgroup, ServeError>(
                    ServeError::Duplicate,
                ) && {
                    ||| exists|i: int|
                        groups.first <= i < groups.created.len() && (
                        #[trigger] groups.created[i]).group_id == subgroup.group_id
                            && groups.created[i].subgroup_id == subgroup.subgroup_id
                    ||| (groups.frontier matches Some(f) && (subgroup.group_id < f.0 || (f.0
                        == subgroup.group_id && subgroup.subgroup_id <= f.1)))
                }
            },
            _ => r == Err::<Subgroup, ServeError>(ServeError::Mode),
        },
{
    assert(Seq::<Subgroup>::empty().push(subgroup) =~= seq![subgroup]);
}

/// Two subgroups at different places can be opened one after the other: one is
/// refused as a duplicate only where its place is held, or lies at or before
/// the frontier of what was given up.
pub proof fn law_only_duplicates_are_refused(
    before: SinkView,
    after: SinkView,
    subgroup: Subgroup,
    r: Result<Subgroup, ServeError>,
)
    requires
        subgroup_opened(before, after, subgroup, r),
        before.writable,
        before.mode is Subgroups,
        (before.mode->Subgroups_0).live,
        forall|i: int|
            0 <= i < (before.mode->Subgroups_0).created.len() ==> {
                ||| (#[trigger] (before.mode->Subgroups_0).created[i]).group_id < subgroup.group_id
                ||| ((before.mode->Subgroups_0).created[i].group_id == subgroup.group_id && (
                before.mode->Subgroups_0).created[i].subgroup_id < subgroup.subgroup_id)
            },
        is_frontier(
            (before.mode->Subgroups_0).created.take((before.mode->Subgroups_0).first as int),
            (before.mode->Subgroups_0).frontier,
        ),
        (before.mode->Subgroups_0).first <= (before.mode->Subgroups_0).created.len(),
    ensures
        r == Ok::<Subgroup, ServeError>(subgroup),
{
    let groups = before.mode->Subgroups_0;
    if let Some(f) = groups.frontier {
        let given_up = groups.created.take(groups.first as int);
        let i = choose|i: int| 0 <= i < given_up.len() && (#[trigger] given_up[i]).key() == f;
        assert(given_up[i] == groups.created[i]);
    }
}

/// An announced object moves the largest location of its track there, unless it
/// is beyond it already: the largest location is never before it nor before
/// where it was, and is one of the two.
pub proof fn law_largest_location_only_grows(sink: SinkView, location: (u64, u64))
    requires
        sink.mode is Subgroups,
    ensures
        sink.recorded(location).mode is Subgroups,
        sink.recorded(location).writable == sink.writable,
        ({
            let was = (sink.mode->Subgroups_0).largest;
            let now = (sink.recorded(location).mode->Subgroups_0).largest;
            &&& now is Some
            &&& location.0 < (now->0).0 || (location.0 == (now->0).0 && location.1 <= (now->0).1)
            &&& was matches Some(w) ==> {
                &&& w.0 < (now->0).0 || (w.0 == (now->0).0 && w.1 <= (now->0).1)
                &&& now == was || now == Some(location)
            }
            &&& was is None ==> now == Some(location)
        }),
        sink.recorded(location).created() == sink.created(),
        (sink.recorded(location).mode->Subgroups_0).closed == (sink.mode->Subgroups_0).closed,
        (sink.recorded(location).mode->Subgroups_0).live == (sink.mode->Subgroups_0).live,
{
}

/// Closing a track that is still written and read leaves the error for its
/// readers, and ends the writing; closing it again, or after it was left, changes
/// nothing. What was written stays.
pub proof fn law_first_close_counts(sink: SinkView, err: ServeError, other: ServeError)
    ensures
        !sink.closed(err).writable,
        sink.closed(err).closed(other) == sink.closed(err),
        sink.closed(err).created() == sink.created(),
        sink.mode is Datagrams ==> sink.closed(err).mode is Datagrams && sink.closed(
            err,
        ).mode->Datagrams_written == sink.mode->Datagrams_written,
        !sink.writable ==> sink.close_result() is Ok && sink.closed(err) == sink,
        sink.writable && !(sink.mode is Stream) ==> match sink.mode.outcome() {
            Err(e) => sink.close_result() == Err::<(), ServeError>(e) && sink.closed(
                err,
            ).mode.outcome() == Err::<(), ServeError>(e),
            Ok(_) => {
                &&& sink.close_result() is Ok ==> sink.closed(err).mode.outcome() == Err::<
                    (),
                    ServeError,
                >(err)
                &&& sink.close_result() is Err ==> sink.close_result() == Err::<(), ServeError>(
                    ServeError::Cancel,
                ) && sink.closed(err).mode.outcome() is Ok
            },
        },
{
    match sink.mode {
        ModeView::Track { closed, .. } => {},
        ModeView::Stream => {},
        ModeView::Subgroups(groups) => {},
        ModeView::Datagrams { closed, .. } => {},
    }
}

/// A track that is left is read to its end: it keeps its outcome, its history
/// window and what was written, and nothing more is written on it.
pub proof fn law_left_track_keeps_everything(sink: SinkView)
    ensures
        !sink.dropped().writable,
        sink.dropped().mode.outcome() == sink.mode.outcome(),
        sink.dropped().mode.window() == sink.mode.window(),
        sink.dropped().created() == sink.created(),
        match (sink.mode, sink.dropped().mode) {
            (ModeView::Track { .. }, ModeView::Track { live, .. }) => !live,
            (ModeView::Stream, ModeView::Stream) => true,
            (ModeView::Subgroups(was), ModeView::Subgroups(now)) => {
                &&& !now.live
                &&& now.first == was.first
                &&& now.cursors == was.cursors
                &&& now.largest == was.largest
            },
            (
                ModeView::Datagrams { written: was, depth: d, .. },
                ModeView::Datagrams { written: now, depth: e, live, .. },
            ) => !live && now == was && d == e,
            _ => false,
        },
{
}

/// An accepted subscription is accepted under its alias, and stays otherwise as
/// it was; one that nobody holds is not marked. A history window that came with
/// the answer is the track's from then on, where the track is still written and
/// holds no datagrams yet; without one the track stays as it is.
pub proof fn law_acceptance_is_recorded(s: SubscribeView, alias: u64, window: Option<u64>)
    ensures
        s.live ==> s.accepted(alias, window).ok && s.accepted(alias, window).track_alias == Some(
            alias,
        ),
        !s.live ==> s.accepted(alias, window).ok == s.ok && s.accepted(alias, window).track_alias
            == s.track_alias,
        s.accepted(alias, window).closed == s.closed,
        s.accepted(alias, window).live == s.live,
        s.accepted(alias, window).sink.writable == s.sink.writable,
        s.accepted(alias, window).sink.created() == s.sink.created(),
        s.accepted(alias, window).sink.mode.outcome() == s.sink.mode.outcome(),
        window is None ==> s.accepted(alias, window).sink == s.sink,
        window is Some && s.sink.writable && (s.sink.mode is Subgroups || (s.sink.mode is Track
            && s.sink.mode->Track_live)) ==> s.accepted(alias, window).sink.mode.window() == window,
        s.sink.mode is Datagrams || !s.sink.writable ==> s.accepted(alias, window).sink == s.sink,
{
}

/// Who holds a subscription learns its outcome: an error before all, then that
/// it was accepted, then that nothing will come; and nothing as long as none of
/// these is so.
pub proof fn law_answer_follows_the_subscription(s: SubscribeView, recv_gone: bool)
    ensures
        s.closed matches Err(e) ==> s.answer(recv_gone) == Some(Err::<(), ServeError>(e)),
        s.closed is Ok && s.ok ==> s.answer(recv_gone) == Some(Ok::<(), ServeError>(())),
        s.closed is Ok && !s.ok && recv_gone ==> s.answer(recv_gone) == Some(
            Err::<(), ServeError>(ServeError::Done),
        ),
        s.closed is Ok && !s.ok && !recv_gone ==> s.answer(recv_gone) is None,
        SubscribeView::fresh().answer(false) is None,
        s.live && s.closed is Ok ==> forall|alias: u64, window: Option<u64>| #[trigger]
            s.accepted(alias, window).answer(recv_gone) == Some(Ok::<(), ServeError>(())),
{
}

/// A subscription that fails while it is held and open is closed with the
/// error, as is its track where it is still written. One whose track cannot be
/// closed any more fails with what closed that, and keeps its own outcome.
pub proof fn law_failure_closes_subscription_and_track(
    before: SubscribeRecv,
    after: SubscribeRecv,
    err: ServeError,
    r: Result<(), ServeError>,
)
    requires
        subscription_failed(before, after, err, r),
    ensures
        r is Ok ==> after@.closed == Err::<(), ServeError>(err),
        r is Err ==> after@.closed == before@.closed,
        !after@.sink.writable,
        after@.ok == before@.ok,
        after@.track_alias == before@.track_alias,
        after@.live == before@.live,
        before@.closed is Ok && before@.live && !before@.sink.writable ==> r is Ok,
        before@.closed is Ok && before@.live && before@.sink.writable && before@.sink.mode
            is Track && before@.sink.mode->Track_live && before@.sink.mode->Track_closed is Ok ==> {
            &&& r is Ok
            &&& after@.sink.mode.outcome() == Err::<(), ServeError>(err)
        },
        before@.closed is Ok && before@.live && before@.sink.writable && before@.sink.mode
            is Subgroups && (before@.sink.mode->Subgroups_0).live && (
        before@.sink.mode->Subgroups_0).closed is Ok ==> {
            &&& r is Ok
            &&& after@.sink.mode.outcome() == Err::<(), ServeError>(err)
        },
        before@.closed is Ok && before@.live && before@.sink.writable && before@.sink.mode
            is Datagrams && before@.sink.mode->Datagrams_live
            && before@.sink.mode->Datagrams_closed is Ok ==> {
            &&& r is Ok
            &&& after@.sink.mode.outcome() == Err::<(), ServeError>(err)
        },
        before@.sink.writable && before@.sink.mode.outcome() is Err && !(before@.sink.mode
            is Stream) ==> r == Err::<(), ServeError>(before@.sink.mode.outcome()->Err_0),
{
}

/// A new subscription asks for the track it was opened for, from its largest
/// object on, forwarded, in the publisher's order and in the middle of the
/// priorities, and nothing else; what the application sees of it says the same.
pub proof fn law_default_request_is_plain(
    request: SubscribeRequest,
    info: SubscribeInfo,
    id: u64,
    track_namespace: String,
    track_name: String,
)
    requires
        request.is_for_track(id, track_namespace, track_name),
        info.mirrors(request),
    ensures
        info.id == id,
        info.track_namespace == track_namespace,
        info.track_name == track_name,
        info.subscriber_priority == 127,
        info.group_order == GroupOrder::Publisher,
        info.forward,
        info.filter_type == FilterType::LargestObject,
        info.start_location is None,
        info.end_group_id is None,
        info.params@.len() == 0,
        !info.track_status,
        request.id == id,
        request.forward,
        request.filter_type == FilterType::LargestObject,
        request.track_namespace == track_namespace,
        request.track_name == track_name,
{
}

/// A subgroup that is opened tells the writer how to go on: with a group beyond
/// it. What is given up for it every active reader has read, and the latest
/// subgroup stays. The first subgroup of a track makes it a track of subgroups
/// that nobody reads yet.
pub proof fn law_opened_subgroup_gives_up_what_was_read(
    before: SinkView,
    after: SinkView,
    subgroup: Subgroup,
    r: Result<Subgroup, ServeError>,
)
    requires
        subgroup_opened(before, after, subgroup, r),
        r is Ok,
    ensures
        after.mode is Subgroups,
        ({
            let now = after.mode->Subgroups_0;
            let n = before.created().len();
            &&& now.writer.last_group == subgroup.group_id
            &&& subgroup.group_id < 0xffff_ffff_ffff_ffff ==> now.writer.next_group
                > subgroup.group_id
            &&& subgroup.subgroup_id < 0xffff_ffff_ffff_ffff ==> now.writer.next_subgroup
                == subgroup.subgroup_id + 1
            &&& now.first <= n
            &&& forall|id: u64| #[trigger]
                now.cursors.dom().contains(id) ==> now.first <= now.cursors[id]
            &&& (forall|id: u64| #[trigger]
                now.cursors.dom().contains(id) ==> now.cursors[id] >= n) ==> now.first == n
            &&& (now.frontier is None) == (now.first == 0)
            &&& forall|i: int|
                0 <= i < now.first ==> {
                    let key = (#[trigger] now.created[i]).key();
                    &&& now.frontier is Some
                    &&& key.0 < (now.frontier->0).0 || (key.0 == (now.frontier->0).0 && key.1 <= (
                    now.frontier->0).1)
                }
            &&& before.mode is Track ==> {
                &&& now.cursors == Map::<u64, usize>::empty()
                &&& now.closed is Ok
                &&& now.activations == 1
                &&& now.frontier is None
            }
            &&& before.mode matches ModeView::Subgroups(groups) ==> {
                &&& now.activations == groups.activations
                &&& now.history_window == groups.history_window
                &&& subgroup.group_id < groups.writer.next_group ==> now.writer.next_group
                    == groups.writer.next_group
            }
        }),
{
    let now = after.mode->Subgroups_0;
    assert(is_front(now.first, now.created.len(), now.cursors) || before.mode is Track);
    assert forall|i: int| 0 <= i < now.first implies {
        let key = (#[trigger] now.created[i]).key();
        &&& now.frontier is Some
        &&& key.0 < (now.frontier->0).0 || (key.0 == (now.frontier->0).0 && key.1 <= (
        now.frontier->0).1)
    } by {
        let given_up = now.created.take(now.first as int);
        assert(given_up[i] == now.created[i]);
    }
}

/// A track keeps the history window that its publisher gave, whatever it
/// carries; a stream has none.
pub proof fn law_window_is_what_the_publisher_gave(mode: ModeView)
    ensures
        mode matches ModeView::Track { history_window, .. } ==> mode.window() == history_window,
        mode matches ModeView::Subgroups(groups) ==> mode.window() == groups.history_window,
        mode matches ModeView::Datagrams { history_window, .. } ==> mode.window()
            == history_window,
        mode is Stream ==> mode.window() is None,
{
}

/// A track that has become a stream has no outcome of its own and can always be
/// closed; any other keeps the first error, and cannot be closed once nobody
/// reads it.
pub proof fn law_closing_depends_on_the_readers(mode: ModeView)
    ensures
        mode is Stream ==> mode.outcome() is Ok && mode_close_result(mode) is Ok,
        !(mode is Stream) ==> {
            &&& mode.outcome() matches Err(e) ==> mode_close_result(mode) == Err::<(), ServeError>(
                e,
            )
            &&& mode_close_result(mode) is Ok ==> mode.outcome() is Ok
            &&& mode.outcome() is Ok && mode_close_result(mode) is Err ==> mode_close_result(mode)
                == Err::<(), ServeError>(ServeError::Cancel)
        },
        mode matches ModeView::Subgroups(groups) ==> mode.outcome() == groups.closed && (
        mode_close_result(mode) is Ok) == (groups.closed is Ok && groups.live),
        mode matches ModeView::Datagrams { closed, live, .. } ==> mode.outcome() == closed && (
        mode_close_result(mode) is Ok) == (closed is Ok && live),
        mode matches ModeView::Track { closed, live, .. } ==> mode.outcome() == closed && (
        mode_close_result(mode) is Ok) == (closed is Ok && live),
{
}

} // verus!
