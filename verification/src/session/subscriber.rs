//! The subscriber's side of a session: its subscriptions and the tracks that
//! the peer publishes to it, by request number, alias and name.

use vstd::prelude::*;

use super::subscribe::{
    datagram_written, failure_result, subgroup_opened, subscription_failed, Location, ModeView,
    ReceivedDatagram, SinkView, SubgroupHeader, Subscribe, SubscribeRecv, SubscribeRequest,
    SubscribeView, TrackSink,
};
use super::SessionError;
use crate::serve::contents::TrackContents;
use crate::serve::subgroup::Subgroup;
use crate::serve::ServeError;
use crate::sub_raw::{
    drain_sink, drains_sink, read_sink, sink_drained, sink_read, DrainError, TrackDrain,
};
use crate::table::{without_target, Table};
use crate::text::str_eq;
use crate::wire::DecodeError;

verus! {

/// How long data may wait for the answer that binds its alias.
pub const DEFAULT_ALIAS_WAIT_TIME_MS: u64 = 1000;

/// Why a request of the peer is refused.
#[derive(Copy, Clone, Debug, PartialEq, Eq, Structural)]
pub enum RequestErrorCode {
    NotSupported,
    DuplicateSubscription,
    DoesNotExist,
    /// The application no longer listens.
    Cancelled,
}

/// What this side sends on the control stream.
pub enum ControlMessage {
    Subscribe(SubscribeRequest),
    Unsubscribe { id: u64 },
    TrackStatus { id: u64, track_namespace: String, track_name: String },
    RequestUpdate { id: u64, existing_request_id: u64, forward: bool },
    /// A request of the peer is refused. It may come again after the interval,
    /// where that is not zero.
    RequestError {
        id: u64,
        error_code: RequestErrorCode,
        retry_interval: u64,
        reason: &'static str,
    },
    RequestsBlocked { limit: u64 },
    PublishNamespaceCancel { id: u64 },
}

/// The numbers of this side's requests: every second one, up to a limit that
/// the peer gives.
pub struct RequestId {
    pub next: u64,
    pub limit: u64,
    /// The limit that the peer was last told about.
    pub reported: Option<u64>,
}

/// The outcome of asking for a request number.
#[derive(Copy, Clone, Debug, PartialEq, Eq)]
pub enum RequestIdAllocation {
    Allocated(u64),
    /// The limit is reached; the peer is told once for each limit.
    Blocked { limit: u64, report: bool },
}

impl RequestId {
    pub open spec fn spec_allocate(self) -> (RequestId, RequestIdAllocation) {
        if self.next < self.limit {
            (
                RequestId {
                    next: if self.next + 2 > u64::MAX {
                        u64::MAX
                    } else {
                        (self.next + 2) as u64
                    },
                    ..self
                },
                RequestIdAllocation::Allocated(self.next),
            )
        } else {
            (
                RequestId { reported: Some(self.limit), ..self },
                RequestIdAllocation::Blocked {
                    limit: self.limit,
                    report: self.reported != Some(self.limit),
                },
            )
        }
    }

    pub fn new(first: u64, limit: u64) -> (r: Self)
        ensures
            r == (RequestId { next: first, limit, reported: None }),
    {
        RequestId { next: first, limit, reported: None }
    }

    pub fn allocate(&mut self) -> (r: RequestIdAllocation)
        ensures
            (*final(self), r) == old(self).spec_allocate(),
    {
        if self.next < self.limit {
            let id: u64 = self.next;
            self.next = self.next.saturating_add(2);
            return RequestIdAllocation::Allocated(id);
        }
        let report: bool = match self.reported {
            Some(limit) => limit != self.limit,
            None => true,
        };
        self.reported = Some(self.limit);
        RequestIdAllocation::Blocked { limit: self.limit, report }
    }
}

/// The peer announces a track that it publishes.
pub struct PublishMessage {
    pub id: u64,
    pub track_alias: u64,
    pub track_namespace: String,
    pub track_name: String,
    pub has_track_extensions: bool,
    /// The FORWARD parameter, where it is there and can be read.
    pub forward: Result<Option<bool>, DecodeError>,
    /// The LARGEST_OBJECT parameter, where it is there and can be read.
    pub largest_object: Result<Option<Location>, DecodeError>,
}

/// The receiving side of a track that the peer publishes.
pub struct PublishedTrackRecv {
    pub track_alias: u64,
    pub forward: bool,
    pub largest: Option<Location>,
    pub reader_taken: bool,
    pub done: Option<u64>,
    pub sink: TrackSink,
}

impl PublishedTrackRecv {
    /// A track that was just announced.
    pub open spec fn is_fresh(&self, msg: &PublishMessage) -> bool {
        &&& self.track_alias == msg.track_alias
        &&& msg.forward matches Ok(f) && self.forward == (match f {
            Some(x) => x,
            None => true,
        })
        &&& msg.largest_object == Ok::<Option<Location>, DecodeError>(self.largest)
        &&& !self.reader_taken
        &&& self.done is None
        &&& self.sink@ == SinkView::fresh()
    }

    pub open spec fn wf(&self) -> bool {
        self.sink.wf()
    }
}

/// Which kind of subscription an alias belongs to, with its request number.
#[derive(Copy, Clone, Debug, PartialEq, Eq)]
pub enum AliasBinding {
    Subscribe(u64),
    Publish(u64),
}

/// What a shared answer of the peer belonged to.
#[derive(Copy, Clone, Debug, PartialEq, Eq, Structural)]
pub enum AnswerRoute {
    Subscribe,
    TrackStatus,
    RequestUpdate,
    Unknown,
}

/// What became of a track that the peer announced.
#[derive(Copy, Clone, Debug, PartialEq, Eq, Structural)]
pub enum PublishOutcome {
    /// It was refused, and the peer told.
    Refused,
    /// It waits for the application.
    Queued,
    /// The application no longer listens; it was refused, and the peer told.
    Unheard,
}

/// A track's full name, with the number of the request that subscribes to it.
pub struct NameEntry {
    pub track_namespace: String,
    pub track_name: String,
    pub request_id: u64,
}

/// A name entry as texts.
pub ghost struct NameView {
    pub track_namespace: Seq<char>,
    pub track_name: Seq<char>,
    pub request_id: u64,
}

impl View for NameEntry {
    type V = NameView;

    open spec fn view(&self) -> NameView {
        NameView {
            track_namespace: self.track_namespace@,
            track_name: self.track_name@,
            request_id: self.request_id,
        }
    }
}

/// The entries of a list of names.
pub open spec fn names_view(names: Seq<NameEntry>) -> Seq<NameView> {
    names.map_values(|n: NameEntry| n@)
}

/// Whether this side already subscribes to a track.
pub open spec fn name_taken(names: Seq<NameView>, namespace: Seq<char>, name: Seq<char>) -> bool {
    exists|i: int|
        0 <= i < names.len() && (#[trigger] names[i]).track_namespace == namespace
            && names[i].track_name == name
}

/// The names without those of a request.
pub open spec fn names_without(names: Seq<NameView>, id: u64) -> Seq<NameView>
    decreases names.len(),
{
    if names.len() == 0 {
        Seq::empty()
    } else {
        let rest = names_without(names.drop_last(), id);
        if names.last().request_id == id {
            rest
        } else {
            rest.push(names.last())
        }
    }
}

/// What a subscriber knows of its session.
pub ghost struct SubscriberView {
    pub subscribes: Map<u64, SubscribeRecv>,
    pub track_statuses: Set<u64>,
    pub subscribe_aliases: Map<u64, u64>,
    pub published_tracks: Map<u64, PublishedTrackRecv>,
    pub publish_aliases: Map<u64, u64>,
    pub names: Seq<NameView>,
    /// The namespaces that the peer announced, each with its request.
    pub namespaces: Seq<(Seq<char>, u64)>,
    pub pending_updates: Set<u64>,
    pub outgoing: Seq<ControlMessage>,
    pub request_id: RequestId,
    /// The subscriptions that failed, as they were left, each with its request.
    pub ended: Seq<(u64, SubscribeRecv)>,
    /// The published tracks that are done, each with its request.
    pub done_tracks: Seq<(u64, PublishedTrackRecv)>,
    /// What became of updates, each with its request.
    pub update_results: Seq<(u64, Result<(), ServeError>)>,
}

impl SubscriberView {
    /// Whether an alias is bound, in either direction.
    pub open spec fn alias_bound(self, alias: u64) -> bool {
        self.subscribe_aliases.dom().contains(alias) || self.publish_aliases.dom().contains(alias)
    }

    /// The two kinds of aliases share one space of numbers, and this side
    /// subscribes to no track twice.
    pub open spec fn consistent(self) -> bool {
        &&& self.subscribe_aliases.dom().disjoint(self.publish_aliases.dom())
        &&& distinct_names(self.names)
    }

    /// Every track has a number left for one more subgroup or datagram.
    pub open spec fn room(self) -> bool {
        &&& forall|id: u64| #[trigger]
            self.subscribes.dom().contains(id) ==> self.subscribes[id].sink.room()
        &&& forall|id: u64| #[trigger]
            self.published_tracks.dom().contains(id) ==> self.published_tracks[id].sink.room()
    }

    /// The state after a subscription is forgotten.
    pub open spec fn without_subscribe(self, id: u64) -> SubscriberView {
        SubscriberView {
            subscribes: self.subscribes.remove(id),
            subscribe_aliases: if self.subscribes.dom().contains(id) {
                match self.subscribes[id]@.track_alias {
                    Some(alias) => self.subscribe_aliases.remove(alias),
                    None => self.subscribe_aliases,
                }
            } else {
                self.subscribe_aliases
            },
            names: names_without(self.names, id),
            ..self
        }
    }

    /// The state after a published track is forgotten.
    pub open spec fn without_published(self, id: u64) -> SubscriberView {
        SubscriberView {
            published_tracks: self.published_tracks.remove(id),
            publish_aliases: without_target(self.publish_aliases, id),
            names: names_without(self.names, id),
            ..self
        }
    }

    /// The state after a request of the peer was refused.
    pub open spec fn refusing(
        self,
        id: u64,
        error_code: RequestErrorCode,
        reason: &'static str,
    ) -> SubscriberView {
        SubscriberView {
            outgoing: self.outgoing.push(
                ControlMessage::RequestError { id, error_code, retry_interval: 0, reason },
            ),
            ..self
        }
    }

    /// The binding of an alias. What the peer publishes comes first.
    pub open spec fn binding(self, alias: u64) -> Option<AliasBinding> {
        if self.publish_aliases.dom().contains(alias) {
            Some(AliasBinding::Publish(self.publish_aliases[alias]))
        } else if self.subscribe_aliases.dom().contains(alias) {
            Some(AliasBinding::Subscribe(self.subscribe_aliases[alias]))
        } else {
            None
        }
    }
}

pub struct Subscriber {
    subscribes: Table<SubscribeRecv>,
    track_statuses: Table<()>,
    subscribe_alias_map: Table<u64>,
    published_tracks: Table<PublishedTrackRecv>,
    publish_alias_map: Table<u64>,
    subscriber_names: Vec<NameEntry>,
    published_namespaces: Vec<(String, u64)>,
    pending_publish_updates: Table<()>,
    outgoing: Vec<ControlMessage>,
    request_id: RequestId,
    ended: Vec<(u64, SubscribeRecv)>,
    done_tracks: Vec<(u64, PublishedTrackRecv)>,
    update_results: Vec<(u64, Result<(), ServeError>)>,
}

/// The namespaces of a list, as texts.
pub open spec fn namespaces_view(list: Seq<(String, u64)>) -> Seq<(Seq<char>, u64)> {
    list.map_values(|e: (String, u64)| (e.0@, e.1))
}

impl View for Subscriber {
    type V = SubscriberView;

    closed spec fn view(&self) -> SubscriberView {
        SubscriberView {
            subscribes: self.subscribes@,
            track_statuses: self.track_statuses@.dom(),
            subscribe_aliases: self.subscribe_alias_map@,
            published_tracks: self.published_tracks@,
            publish_aliases: self.publish_alias_map@,
            names: names_view(self.subscriber_names@),
            namespaces: namespaces_view(self.published_namespaces@),
            pending_updates: self.pending_publish_updates@.dom(),
            outgoing: self.outgoing@,
            request_id: self.request_id,
            ended: self.ended@,
            done_tracks: self.done_tracks@,
            update_results: self.update_results@,
        }
    }
}

impl Subscriber {
    /// What every operation keeps.
    pub closed spec fn wf(&self) -> bool {
        &&& forall|id: u64| #[trigger]
            self.subscribes@.dom().contains(id) ==> self.subscribes@[id].wf()
        &&& forall|id: u64| #[trigger]
            self.published_tracks@.dom().contains(id) ==> self.published_tracks@[id].wf()
        &&& self@.consistent()
    }

    /// Every track has a number left for one more subgroup or datagram.
    pub open spec fn room(&self) -> bool {
        self@.room()
    }

    pub fn new(request_id: RequestId) -> (r: Self)
        ensures
            r.wf(),
            r@ == (SubscriberView {
                subscribes: Map::empty(),
                track_statuses: Set::empty(),
                subscribe_aliases: Map::empty(),
                published_tracks: Map::empty(),
                publish_aliases: Map::empty(),
                names: Seq::empty(),
                namespaces: Seq::empty(),
                pending_updates: Set::empty(),
                outgoing: Seq::empty(),
                request_id,
                ended: Seq::empty(),
                done_tracks: Seq::empty(),
                update_results: Seq::empty(),
            }),
    {
        let r = Subscriber {
            subscribes: Table::new(),
            track_statuses: Table::new(),
            subscribe_alias_map: Table::new(),
            published_tracks: Table::new(),
            publish_alias_map: Table::new(),
            subscriber_names: Vec::new(),
            published_namespaces: Vec::new(),
            pending_publish_updates: Table::new(),
            outgoing: Vec::new(),
            request_id,
            ended: Vec::new(),
            done_tracks: Vec::new(),
            update_results: Vec::new(),
        };
        proof {
            assert(r@.names =~= Seq::empty());
            assert(r@.namespaces =~= Seq::empty());
            assert(r@.track_statuses =~= Set::empty());
            assert(r@.pending_updates =~= Set::empty());
        }
        r
    }

    pub fn is_subscribed(&self, id: u64) -> (r: bool)
        requires
            self.wf(),
        ensures
            r == self@.subscribes.dom().contains(id),
    {
        self.subscribes.contains_key(id)
    }

    pub fn subscription(&self, id: u64) -> (r: Option<&SubscribeRecv>)
        requires
            self.wf(),
        ensures
            match r {
                Some(recv) => self@.subscribes.dom().contains(id) && *recv
                    == self@.subscribes[id],
                None => !self@.subscribes.dom().contains(id),
            },
    {
        self.subscribes.get(id)
    }

    pub fn published_track_recv(&self, id: u64) -> (r: Option<&PublishedTrackRecv>)
        requires
            self.wf(),
        ensures
            match r {
                Some(recv) => self@.published_tracks.dom().contains(id) && *recv
                    == self@.published_tracks[id],
                None => !self@.published_tracks.dom().contains(id),
            },
    {
        self.published_tracks.get(id)
    }

    pub fn awaits_track_status(&self, id: u64) -> (r: bool)
        requires
            self.wf(),
        ensures
            r == self@.track_statuses.contains(id),
    {
        self.track_statuses.contains_key(id)
    }

    pub fn subscription_count(&self) -> (n: usize)
        requires
            self.wf(),
        ensures
            n == self@.subscribes.dom().len(),
    {
        self.subscribes.len()
    }

    /// Takes the messages that wait to be sent.
    pub fn take_outgoing(&mut self) -> (r: Vec<ControlMessage>)
        requires
            old(self).wf(),
        ensures
            final(self).wf(),
            r@ == old(self)@.outgoing,
            final(self)@ == (SubscriberView { outgoing: Seq::empty(), ..old(self)@ }),
    {
        let mut out: Vec<ControlMessage> = Vec::new();
        core::mem::swap(&mut self.outgoing, &mut out);
        out
    }

    /// Takes the subscriptions that failed, for those who hold them to be told.
    pub fn take_ended(&mut self) -> (r: Vec<(u64, SubscribeRecv)>)
        requires
            old(self).wf(),
        ensures
            final(self).wf(),
            r@ == old(self)@.ended,
            final(self)@ == (SubscriberView { ended: Seq::empty(), ..old(self)@ }),
    {
        let mut out: Vec<(u64, SubscribeRecv)> = Vec::new();
        core::mem::swap(&mut self.ended, &mut out);
        out
    }

    /// Takes the published tracks that are done.
    pub fn take_done_tracks(&mut self) -> (r: Vec<(u64, PublishedTrackRecv)>)
        requires
            old(self).wf(),
        ensures
            final(self).wf(),
            r@ == old(self)@.done_tracks,
            final(self)@ == (SubscriberView { done_tracks: Seq::empty(), ..old(self)@ }),
    {
        let mut out: Vec<(u64, PublishedTrackRecv)> = Vec::new();
        core::mem::swap(&mut self.done_tracks, &mut out);
        out
    }

    /// Takes the answers to updates.
    pub fn take_update_results(&mut self) -> (r: Vec<(u64, Result<(), ServeError>)>)
        requires
            old(self).wf(),
        ensures
            final(self).wf(),
            r@ == old(self)@.update_results,
            final(self)@ == (SubscriberView { update_results: Seq::empty(), ..old(self)@ }),
    {
        let mut out: Vec<(u64, Result<(), ServeError>)> = Vec::new();
        core::mem::swap(&mut self.update_results, &mut out);
        out
    }

    /// Whether this side subscribes to a track.
    fn has_name(&self, track_namespace: &str, track_name: &str) -> (r: bool)
        ensures
            r == name_taken(self@.names, track_namespace@, track_name@),
    {
        let mut i: usize = 0;
        while i < self.subscriber_names.len()
            invariant
                i <= self.subscriber_names@.len(),
                forall|j: int|
                    0 <= j < i ==> !((#[trigger] self@.names[j]).track_namespace
                        == track_namespace@ && self@.names[j].track_name == track_name@),
            decreases self.subscriber_names@.len() - i,
        {
            let e: &NameEntry = &self.subscriber_names[i];
            assert(self@.names[i as int] == e@);
            if str_eq(e.track_namespace.as_str(), track_namespace) && str_eq(
                e.track_name.as_str(),
                track_name,
            ) {
                return true;
            }
            i = i + 1;
        }
        false
    }

    /// Forgets the names of a request.
    fn remove_names(&mut self, id: u64)
        requires
            old(self).wf(),
        ensures
            final(self).wf(),
            final(self)@ == (SubscriberView {
                names: names_without(old(self)@.names, id),
                ..old(self)@
            }),
    {
        let ghost all = self@.names;
        let mut kept: Vec<NameEntry> = Vec::new();
        let mut i: usize = 0;
        assert(names_view(kept@) =~= names_without(all.take(0), id));
        while i < self.subscriber_names.len()
            invariant
                *self == *old(self),
                all == self@.names,
                i <= self.subscriber_names@.len(),
                names_view(kept@) == names_without(all.take(i as int), id),
            decreases self.subscriber_names@.len() - i,
        {
            let e: &NameEntry = &self.subscriber_names[i];
            let ghost before = names_view(kept@);
            assert(all.take(i + 1).drop_last() =~= all.take(i as int));
            assert(all.take(i + 1).last() == e@);
            if e.request_id != id {
                let copy = NameEntry {
                    track_namespace: e.track_namespace.clone(),
                    track_name: e.track_name.clone(),
                    request_id: e.request_id,
                };
                let ghost c = copy@;
                kept.push(copy);
                assert(names_view(kept@) =~= before.push(c));
            }
            i = i + 1;
        }
        proof {
            assert(all.take(i as int) =~= all);
            lemma_names_without(all, id);
        }
        self.subscriber_names = kept;
    }

    /// Forgets a published track that the application did not take.
    pub fn remove_published_track(&mut self, request_id: u64)
        requires
            old(self).wf(),
        ensures
            final(self).wf(),
            final(self)@ == old(self)@.without_published(request_id),
    {
        let _ = self.published_tracks.remove(request_id);
        self.publish_alias_map.remove_target(request_id);
        assert(self@.consistent());
        self.remove_names(request_id);
    }

    /// Hands the reader of a published track out, once.
    pub fn take_published_track_reader(&mut self, request_id: u64) -> (r: bool)
        requires
            old(self).wf(),
        ensures
            final(self).wf(),
            ({
                let known = old(self)@.published_tracks.dom().contains(request_id);
                &&& r == (known && !old(self)@.published_tracks[request_id].reader_taken)
                &&& final(self)@ == if known {
                    (SubscriberView {
                        published_tracks: old(self)@.published_tracks.insert(
                            request_id,
                            PublishedTrackRecv {
                                reader_taken: true,
                                ..old(self)@.published_tracks[request_id]
                            },
                        ),
                        ..old(self)@
                    })
                } else {
                    old(self)@
                }
            }),
    {
        match self.published_tracks.remove(request_id) {
            None => {
                assert(self@.published_tracks =~= old(self)@.published_tracks);
                false
            },
            Some(recv) => {
                let mut recv = recv;
                let fresh: bool = !recv.reader_taken;
                recv.reader_taken = true;
                let ghost taken = recv;
                let _ = self.published_tracks.insert(request_id, recv);
                assert(self@.published_tracks =~= old(self)@.published_tracks.insert(
                    request_id,
                    taken,
                ));
                fresh
            },
        }
    }

    /// A number for a request. Where the peer allows none, it is told, once
    /// for each limit.
    fn get_next_request_id(&mut self) -> (r: Result<u64, SessionError>)
        requires
            old(self).wf(),
        ensures
            final(self).wf(),
            allocated(old(self)@, final(self)@, r),
    {
        match self.request_id.allocate() {
            RequestIdAllocation::Allocated(id) => Ok(id),
            RequestIdAllocation::Blocked { limit, report } => {
                if report {
                    self.outgoing.push(ControlMessage::RequestsBlocked { limit });
                }
                Err(SessionError::TooManyRequests)
            },
        }
    }

    /// Asks for a change of whether a published track is forwarded.
    pub fn send_request_update_for_publish(&mut self, publish_request_id: u64, forward: bool) -> (r:
        Result<u64, ServeError>)
        requires
            old(self).wf(),
        ensures
            final(self).wf(),
            match old(self)@.request_id.spec_allocate() {
                (ids, RequestIdAllocation::Allocated(id)) => {
                    &&& r == Ok::<u64, ServeError>(id)
                    &&& final(self)@ == (SubscriberView {
                        request_id: ids,
                        pending_updates: old(self)@.pending_updates.insert(id),
                        outgoing: old(self)@.outgoing.push(
                            ControlMessage::RequestUpdate {
                                id,
                                existing_request_id: publish_request_id,
                                forward,
                            },
                        ),
                        ..old(self)@
                    })
                },
                (_, RequestIdAllocation::Blocked { .. }) => {
                    &&& r == Err::<u64, ServeError>(ServeError::Internal)
                    &&& allocated(
                        old(self)@,
                        final(self)@,
                        Err(SessionError::TooManyRequests),
                    )
                },
            },
    {
        let id: u64 = match self.get_next_request_id() {
            Ok(id) => id,
            Err(_) => {
                return Err(ServeError::Internal);
            },
        };
        let ghost before = self@.pending_updates;
        let _ = self.pending_publish_updates.insert(id, ());
        assert(self@.pending_updates =~= before.insert(id));
        self.outgoing.push(
            ControlMessage::RequestUpdate { id, existing_request_id: publish_request_id, forward },
        );
        Ok(id)
    }

    /// Asks for the status of a track, where the peer allows a request.
    pub fn track_status(&mut self, track_namespace: &String, track_name: &String)
        requires
            old(self).wf(),
        ensures
            final(self).wf(),
            match old(self)@.request_id.spec_allocate() {
                (ids, RequestIdAllocation::Allocated(id)) => final(self)@ == (SubscriberView {
                    request_id: ids,
                    track_statuses: old(self)@.track_statuses.insert(id),
                    outgoing: old(self)@.outgoing.push(
                        ControlMessage::TrackStatus {
                            id,
                            track_namespace: *track_namespace,
                            track_name: *track_name,
                        },
                    ),
                    ..old(self)@
                }),
                (_, RequestIdAllocation::Blocked { .. }) => allocated(
                    old(self)@,
                    final(self)@,
                    Err(SessionError::TooManyRequests),
                ),
            },
    {
        let id: u64 = match self.get_next_request_id() {
            Ok(id) => id,
            Err(_) => {
                return;
            },
        };
        let ghost before = self@.track_statuses;
        let _ = self.track_statuses.insert(id, ());
        assert(self@.track_statuses =~= before.insert(id));
        self.outgoing.push(
            ControlMessage::TrackStatus {
                id,
                track_namespace: track_namespace.clone(),
                track_name: track_name.clone(),
            },
        );
    }

    /// Subscribes to a track that this side does not subscribe to yet. The
    /// request's number is used up in any case.
    pub fn subscribe_open(&mut self, track_namespace: &String, track_name: &String) -> (r: Result<
        Subscribe,
        ServeError,
    >)
        requires
            old(self).wf(),
        ensures
            final(self).wf(),
            match old(self)@.request_id.spec_allocate() {
                (_, RequestIdAllocation::Blocked { .. }) => {
                    &&& r matches Err(e)
                    &&& e == ServeError::Internal
                    &&& allocated(
                        old(self)@,
                        final(self)@,
                        Err(SessionError::TooManyRequests),
                    )
                },
                (ids, RequestIdAllocation::Allocated(id)) => if name_taken(
                    old(self)@.names,
                    track_namespace@,
                    track_name@,
                ) {
                    &&& r matches Err(e)
                    &&& e == ServeError::Duplicate
                    &&& final(self)@ == (SubscriberView { request_id: ids, ..old(self)@ })
                } else {
                    &&& r matches Ok(s)
                    &&& final(self)@.outgoing.last() matches ControlMessage::Subscribe(request)
                    &&& s.info.mirrors(request)
                    &&& subscribed(
                        old(self)@,
                        final(self)@,
                        ids,
                        id,
                        *track_namespace,
                        *track_name,
                    )
                },
            },
    {
        let id: u64 = match self.get_next_request_id() {
            Ok(id) => id,
            Err(_) => {
                return Err(ServeError::Internal);
            },
        };
        if self.has_name(track_namespace.as_str(), track_name.as_str()) {
            return Err(ServeError::Duplicate);
        }
        let (subscribe, recv, request) = Subscribe::new(id, track_namespace, track_name);
        let entry = NameEntry {
            track_namespace: track_namespace.clone(),
            track_name: track_name.clone(),
            request_id: id,
        };
        let ghost before = self@.names;
        let ghost e = entry@;
        self.subscriber_names.push(entry);
        assert(self@.names =~= before.push(e));
        self.outgoing.push(ControlMessage::Subscribe(request));
        let ghost added = recv;
        let _ = self.subscribes.insert(id, recv);
        proof {
            assert(self@.outgoing.drop_last() =~= old(self)@.outgoing);
            assert(self@.subscribes.dom() =~= old(self)@.subscribes.dom().insert(id));
            assert(self@.subscribes[id] == added);
        }
        Ok(subscribe)
    }

    /// The application lets go of a subscription.
    pub fn unsubscribe(&mut self, id: u64) -> (r: Option<SubscribeRecv>)
        requires
            old(self).wf(),
        ensures
            final(self).wf(),
            final(self)@ == (SubscriberView {
                outgoing: old(self)@.outgoing.push(ControlMessage::Unsubscribe { id }),
                ..old(self)@.without_subscribe(id)
            }),
            match r {
                Some(recv) => old(self)@.subscribes.dom().contains(id) && recv == old(
                    self,
                )@.subscribes[id],
                None => !old(self)@.subscribes.dom().contains(id),
            },
    {
        self.outgoing.push(ControlMessage::Unsubscribe { id });
        self.remove_subscribe(id)
    }

    /// Forgets a subscription, its alias and its name.
    pub fn remove_subscribe(&mut self, id: u64) -> (r: Option<SubscribeRecv>)
        requires
            old(self).wf(),
        ensures
            final(self).wf(),
            final(self)@ == old(self)@.without_subscribe(id),
            match r {
                Some(recv) => old(self)@.subscribes.dom().contains(id) && recv == old(
                    self,
                )@.subscribes[id] && recv.wf(),
                None => !old(self)@.subscribes.dom().contains(id),
            },
    {
        let recv: Option<SubscribeRecv> = self.subscribes.remove(id);
        if let Some(sub) = &recv {
            if let Some(alias) = sub.track_alias() {
                let _ = self.subscribe_alias_map.remove(alias);
            }
        }
        assert(self@.consistent());
        self.remove_names(id);
        recv
    }

    /// Ends a subscription with an error, where there is one.
    fn fail_subscribe(&mut self, id: u64, err: ServeError) -> (r: Option<Result<(), ServeError>>)
        requires
            old(self).wf(),
        ensures
            final(self).wf(),
            match r {
                Some(x) => subscribe_failed(old(self)@, final(self)@, id, err, x),
                None => !old(self)@.subscribes.dom().contains(id) && final(self)@ == old(
                    self,
                )@.without_subscribe(id),
            },
    {
        match self.remove_subscribe(id) {
            None => None,
            Some(recv) => {
                let mut recv = recv;
                let r: Result<(), ServeError> = recv.error(err);
                let ghost left = recv;
                self.ended.push((id, recv));
                assert(self@.ended.last().1 == left);
                assert(self@.ended =~= old(self)@.ended.push((id, left)));
                Some(r)
            },
        }
    }

    /// Takes a message of the peer in.
    pub fn recv_message(&mut self, msg: PublisherMessage, queue_open: bool) -> (r: Result<
        (),
        SessionError,
    >)
        requires
            old(self).wf(),
        ensures
            final(self).wf(),
            message_received(old(self)@, final(self)@, msg, queue_open, r),
    {
        match msg {
            PublisherMessage::PublishNamespace { id, namespace } => {
                match self.recv_publish_namespace(id, &namespace, queue_open) {
                    Ok(_) => Ok(()),
                    Err(e) => Err(e),
                }
            },
            PublisherMessage::PublishNamespaceDone { id } => {
                let _ = self.recv_publish_namespace_done(id);
                Ok(())
            },
            PublisherMessage::Publish(publish) => {
                match self.recv_publish(&publish, queue_open) {
                    Ok(_) => Ok(()),
                    Err(e) => Err(e),
                }
            },
            PublisherMessage::PublishDone { id, status_code } => {
                self.recv_publish_done(id, status_code)
            },
            PublisherMessage::SubscribeOk { id, track_alias, history_window_groups } => {
                self.recv_subscribe_ok(id, track_alias, history_window_groups)
            },
            PublisherMessage::RequestOk { id } => {
                let _ = self.recv_request_ok(id);
                Ok(())
            },
            PublisherMessage::RequestError { id, error_code } => {
                match self.recv_request_error(id, error_code) {
                    Ok(_) => Ok(()),
                    Err(e) => Err(e),
                }
            },
            PublisherMessage::FetchOk { id: _ } => Ok(()),
        }
    }

    /// The peer accepts a subscription under an alias that nothing else has.
    pub fn recv_subscribe_ok(
        &mut self,
        id: u64,
        track_alias: u64,
        history_window_groups: Option<u64>,
    ) -> (r: Result<(), SessionError>)
        requires
            old(self).wf(),
        ensures
            final(self).wf(),
            subscribe_ok_received(
                old(self)@,
                final(self)@,
                id,
                track_alias,
                history_window_groups,
                r,
            ),
    {
        if !self.subscribes.contains_key(id) {
            return Ok(());
        }
        if self.subscribe_alias_map.contains_key(track_alias)
            || self.publish_alias_map.contains_key(track_alias) {
            return Err(SessionError::Duplicate);
        }
        let _ = self.subscribe_alias_map.insert(track_alias, id);
        match self.subscribes.remove(id) {
            None => Ok(()),
            Some(recv) => {
                let mut recv = recv;
                let r: Result<(), ServeError> = recv.ok(track_alias, history_window_groups);
                let _ = self.subscribes.insert(id, recv);
                proof {
                    assert(self@.subscribes =~= old(self)@.subscribes.insert(
                        id,
                        self@.subscribes[id],
                    ));
                }
                match r {
                    Ok(()) => Ok(()),
                    Err(e) => Err(SessionError::Serve(e)),
                }
            },
        }
    }

    /// The peer announces a track that it publishes. Data for it may come
    /// before the application takes it, so that its alias is bound at once.
    pub fn recv_publish(&mut self, msg: &PublishMessage, queue_open: bool) -> (r: Result<
        PublishOutcome,
        SessionError,
    >)
        requires
            old(self).wf(),
        ensures
            final(self).wf(),
            publish_received(old(self)@, final(self)@, *msg, queue_open, r),
    {
        if msg.has_track_extensions {
            self.outgoing.push(
                ControlMessage::RequestError {
                    id: msg.id,
                    error_code: RequestErrorCode::NotSupported,
                    retry_interval: 0,
                    reason: "track extensions not supported",
                },
            );
            return Ok(PublishOutcome::Refused);
        }
        if self.subscribe_alias_map.contains_key(msg.track_alias)
            || self.publish_alias_map.contains_key(msg.track_alias) {
            return Err(SessionError::Duplicate);
        }
        if self.has_name(msg.track_namespace.as_str(), msg.track_name.as_str()) {
            self.outgoing.push(
                ControlMessage::RequestError {
                    id: msg.id,
                    error_code: RequestErrorCode::DuplicateSubscription,
                    retry_interval: 0,
                    reason: "duplicate subscription",
                },
            );
            return Ok(PublishOutcome::Refused);
        }
        let forward: bool = match msg.forward {
            Ok(Some(f)) => f,
            Ok(None) => true,
            Err(e) => {
                return Err(SessionError::Decode(e));
            },
        };
        let largest: Option<Location> = match msg.largest_object {
            Ok(l) => l,
            Err(e) => {
                return Err(SessionError::Decode(e));
            },
        };
        let recv = PublishedTrackRecv {
            track_alias: msg.track_alias,
            forward,
            largest,
            reader_taken: false,
            done: None,
            sink: TrackSink::new(),
        };
        let _ = self.publish_alias_map.insert(msg.track_alias, msg.id);
        let entry = NameEntry {
            track_namespace: msg.track_namespace.clone(),
            track_name: msg.track_name.clone(),
            request_id: msg.id,
        };
        let ghost before = self@.names;
        let ghost e = entry@;
        self.subscriber_names.push(entry);
        assert(self@.names =~= before.push(e));
        let _ = self.published_tracks.insert(msg.id, recv);
        if !queue_open {
            let _ = self.publish_alias_map.remove(msg.track_alias);
            let _ = self.published_tracks.remove(msg.id);
            proof {
                assert(self@.publish_aliases =~= old(self)@.publish_aliases);
                assert(self@.published_tracks =~= old(self)@.published_tracks.remove(msg.id));
                assert(before.push(e).drop_last() =~= before);
            }
            self.remove_names(msg.id);
            self.outgoing.push(
                ControlMessage::RequestError {
                    id: msg.id,
                    error_code: RequestErrorCode::Cancelled,
                    retry_interval: 0,
                    reason: "",
                },
            );
            return Ok(PublishOutcome::Unheard);
        }
        Ok(PublishOutcome::Queued)
    }

    /// The peer ends a subscription, of either kind.
    pub fn recv_publish_done(&mut self, id: u64, status_code: u64) -> (r: Result<(), SessionError>)
        requires
            old(self).wf(),
        ensures
            final(self).wf(),
            publish_done_received(old(self)@, final(self)@, id, status_code, r),
    {
        if let Some(r) = self.fail_subscribe(id, ServeError::Closed(status_code)) {
            return match r {
                Ok(()) => Ok(()),
                Err(e) => Err(SessionError::Serve(e)),
            };
        }
        match self.published_tracks.remove(id) {
            Some(recv) => {
                let mut recv = recv;
                recv.done = Some(status_code);
                self.publish_alias_map.remove_target(id);
                assert(self@.consistent());
                self.remove_names(id);
                self.done_tracks.push((id, recv));
            },
            None => {
                assert(self@.published_tracks =~= old(self)@.published_tracks);
            },
        }
        Ok(())
    }

    /// Hands the answer to a request on that has no answer of its own.
    fn answer(&mut self, id: u64, result: Result<(), ServeError>) -> (r: AnswerRoute)
        requires
            old(self).wf(),
        ensures
            final(self).wf(),
            r == shared_route(old(self)@, id),
            final(self)@ == answered(old(self)@, id, result),
    {
        if self.drop_track_status(id) {
            return AnswerRoute::TrackStatus;
        }
        match self.pending_publish_updates.remove(id) {
            Some(_) => {
                self.update_results.push((id, result));
                assert(self@.pending_updates =~= old(self)@.pending_updates.remove(id));
                AnswerRoute::RequestUpdate
            },
            None => {
                assert(self@.pending_updates =~= old(self)@.pending_updates);
                AnswerRoute::Unknown
            },
        }
    }

    /// The peer accepts a request that has no answer of its own.
    pub fn recv_request_ok(&mut self, id: u64) -> (r: AnswerRoute)
        requires
            old(self).wf(),
        ensures
            final(self).wf(),
            r == shared_route(old(self)@, id),
            final(self)@ == answered(old(self)@, id, Ok(())),
    {
        self.answer(id, Ok(()))
    }

    /// The peer refuses a request: a subscription, else whatever the number
    /// belongs to.
    pub fn recv_request_error(&mut self, id: u64, error_code: u64) -> (r: Result<
        AnswerRoute,
        SessionError,
    >)
        requires
            old(self).wf(),
        ensures
            final(self).wf(),
            request_error_received(old(self)@, final(self)@, id, error_code, r),
    {
        if let Some(r) = self.fail_subscribe(id, ServeError::Closed(error_code)) {
            return match r {
                Ok(()) => Ok(AnswerRoute::Subscribe),
                Err(e) => Err(SessionError::Serve(e)),
            };
        }
        Ok(self.answer(id, Err(ServeError::Closed(error_code))))
    }

    /// Forgets a status request, where there is one.
    fn drop_track_status(&mut self, id: u64) -> (r: bool)
        requires
            old(self).wf(),
        ensures
            final(self).wf(),
            r == old(self)@.track_statuses.contains(id),
            final(self)@ == (SubscriberView {
                track_statuses: old(self)@.track_statuses.remove(id),
                ..old(self)@
            }),
            !r ==> final(self)@ == old(self)@,
    {
        match self.track_statuses.remove(id) {
            Some(_) => {
                assert(self@.track_statuses =~= old(self)@.track_statuses.remove(id));
                true
            },
            None => {
                assert(self@.track_statuses =~= old(self)@.track_statuses.remove(id));
                assert(self@.track_statuses =~= old(self)@.track_statuses);
                false
            },
        }
    }

    /// The peer announces a namespace, once. Where the application no longer
    /// listens, the announcement is refused.
    pub fn recv_publish_namespace(&mut self, id: u64, namespace: &String, queue_open: bool) -> (r:
        Result<bool, SessionError>)
        requires
            old(self).wf(),
        ensures
            final(self).wf(),
            namespace_received(old(self)@, final(self)@, id, namespace@, queue_open, r),
    {
        let mut i: usize = 0;
        while i < self.published_namespaces.len()
            invariant
                *self == *old(self),
                self.wf(),
                i <= self.published_namespaces@.len(),
                forall|j: int|
                    0 <= j < i ==> (#[trigger] self@.namespaces[j]).0 != namespace@,
            decreases self.published_namespaces@.len() - i,
        {
            assert(self@.namespaces[i as int].0 == self.published_namespaces@[i as int].0@);
            if str_eq(self.published_namespaces[i].0.as_str(), namespace.as_str()) {
                return Err(SessionError::Duplicate);
            }
            i = i + 1;
        }
        if !queue_open {
            self.outgoing.push(
                ControlMessage::RequestError {
                    id,
                    error_code: RequestErrorCode::Cancelled,
                    retry_interval: 0,
                    reason: "",
                },
            );
            return Ok(false);
        }
        let ghost before = self@.namespaces;
        self.published_namespaces.push((namespace.clone(), id));
        assert(self@.namespaces =~= before.push((namespace@, id)));
        Ok(true)
    }

    /// The peer takes a namespace back, by the number of its request.
    pub fn recv_publish_namespace_done(&mut self, id: u64) -> (r: Option<String>)
        requires
            old(self).wf(),
        ensures
            final(self).wf(),
            namespace_dropped(old(self)@, final(self)@, id, r),
    {
        self.drop_publish_namespace(id)
    }

    /// This side gives a namespace up.
    pub fn cancel_publish_namespace(&mut self, id: u64) -> (r: Option<String>)
        requires
            old(self).wf(),
        ensures
            final(self).wf(),
            namespace_dropped(
                old(self)@,
                (SubscriberView { outgoing: old(self)@.outgoing, ..final(self)@ }),
                id,
                r,
            ),
            final(self)@.outgoing == old(self)@.outgoing.push(
                ControlMessage::PublishNamespaceCancel { id },
            ),
    {
        let r: Option<String> = self.drop_publish_namespace(id);
        self.outgoing.push(ControlMessage::PublishNamespaceCancel { id });
        r
    }

    fn drop_publish_namespace(&mut self, id: u64) -> (r: Option<String>)
        requires
            old(self).wf(),
        ensures
            final(self).wf(),
            namespace_dropped(old(self)@, final(self)@, id, r),
    {
        let mut i: usize = 0;
        while i < self.published_namespaces.len()
            invariant
                *self == *old(self),
                self.wf(),
                i <= self.published_namespaces@.len(),
                forall|j: int| 0 <= j < i ==> (#[trigger] self@.namespaces[j]).1 != id,
            decreases self.published_namespaces@.len() - i,
        {
            assert(self@.namespaces[i as int].1 == self.published_namespaces@[i as int].1);
            if self.published_namespaces[i].1 == id {
                let ghost before = self@.namespaces;
                let (namespace, _) = self.published_namespaces.remove(i);
                assert(self@.namespaces =~= before.remove(i as int));
                return Some(namespace);
            }
            i = i + 1;
        }
        None
    }

    /// What an alias is bound to now. Where it is not bound, data may wait for
    /// the answer that binds it and ask again.
    pub fn resolve_alias(&self, track_alias: u64) -> (r: Option<AliasBinding>)
        requires
            self.wf(),
        ensures
            r == self@.binding(track_alias),
    {
        if let Some(id) = self.publish_alias_map.get(track_alias) {
            return Some(AliasBinding::Publish(*id));
        }
        match self.subscribe_alias_map.get(track_alias) {
            Some(id) => Some(AliasBinding::Subscribe(*id)),
            None => None,
        }
    }

    /// The subscription of this side that an alias is bound to.
    pub fn get_subscribe_id_by_alias(&self, track_alias: u64) -> (r: Option<u64>)
        requires
            self.wf(),
        ensures
            r == match self@.binding(track_alias) {
                Some(AliasBinding::Subscribe(id)) => Some(id),
                _ => None,
            },
    {
        match self.resolve_alias(track_alias) {
            Some(AliasBinding::Subscribe(id)) => Some(id),
            _ => None,
        }
    }

    /// A stream of a track failed in the track itself: the subscription of
    /// this side that it belongs to ends with the same error.
    pub fn stream_failed(&mut self, track_alias: u64, err: ServeError) -> (r: Result<
        (),
        SessionError,
    >)
        requires
            old(self).wf(),
        ensures
            final(self).wf(),
            stream_ended(old(self)@, final(self)@, track_alias, err, r),
    {
        if let Some(id) = self.get_subscribe_id_by_alias(track_alias) {
            if let Some(r) = self.fail_subscribe(id, err) {
                return match r {
                    Ok(()) => Ok(()),
                    Err(e) => Err(SessionError::Serve(e)),
                };
            }
        }
        Ok(())
    }

    /// A stream of a track was read to its end, or failed. A failure in the
    /// track itself ends the subscription of this side.
    pub fn finish_stream(&mut self, track_alias: u64, outcome: Result<(), SessionError>) -> (r:
        Result<(), SessionError>)
        requires
            old(self).wf(),
        ensures
            final(self).wf(),
            match outcome {
                Err(SessionError::Serve(err)) => exists|ended: Result<(), SessionError>|
                    #[trigger] stream_ended(old(self)@, final(self)@, track_alias, err, ended)
                        && r == if ended is Ok {
                        outcome
                    } else {
                        ended
                    },
                _ => r == outcome && final(self)@ == old(self)@,
            },
    {
        match outcome {
            Err(SessionError::Serve(err)) => match self.stream_failed(track_alias, err) {
                Ok(()) => outcome,
                Err(e) => Err(e),
            },
            _ => outcome,
        }
    }

    /// Opens a subgroup on the track that a binding leads to.
    pub fn open_subgroup(&mut self, binding: AliasBinding, header: SubgroupHeader) -> (r: Result<
        Subgroup,
        SessionError,
    >)
        requires
            old(self).wf(),
            old(self).room(),
        ensures
            final(self).wf(),
            subgroup_routed(old(self)@, final(self)@, binding, header, r),
    {
        match binding {
            AliasBinding::Subscribe(id) => match self.subscribes.remove(id) {
                None => {
                    assert(self@.subscribes =~= old(self)@.subscribes);
                    Err(SessionError::Serve(ServeError::NotFound))
                },
                Some(recv) => {
                    let mut recv = recv;
                    assert(old(self)@.subscribes.dom().contains(id));
                    let r: Result<Subgroup, ServeError> = recv.subgroup(header);
                    let ghost after = recv;
                    let _ = self.subscribes.insert(id, recv);
                    assert(self@.subscribes =~= old(self)@.subscribes.insert(id, after));
                    match r {
                        Ok(s) => Ok(s),
                        Err(e) => Err(SessionError::Serve(e)),
                    }
                },
            },
            AliasBinding::Publish(id) => match self.published_tracks.remove(id) {
                None => {
                    assert(self@.published_tracks =~= old(self)@.published_tracks);
                    Err(SessionError::Serve(ServeError::NotFound))
                },
                Some(recv) => {
                    let mut recv = recv;
                    assert(old(self)@.published_tracks.dom().contains(id));
                    let r: Result<Subgroup, ServeError> = recv.sink.subgroup(header);
                    let ghost after = recv;
                    let _ = self.published_tracks.insert(id, recv);
                    assert(self@.published_tracks =~= old(self)@.published_tracks.insert(
                        id,
                        after,
                    ));
                    match r {
                        Ok(s) => Ok(s),
                        Err(e) => Err(SessionError::Serve(e)),
                    }
                },
            },
        }
    }

    /// An object was announced on the track that a binding leads to: the track's
    /// largest location moves there, where it is not beyond it.
    pub fn record_object(&mut self, binding: AliasBinding, location: (u64, u64))
        requires
            old(self).wf(),
        ensures
            final(self).wf(),
            object_recorded(old(self)@, final(self)@, binding, location),
    {
        match binding {
            AliasBinding::Subscribe(id) => match self.subscribes.remove(id) {
                None => {
                    assert(self@.subscribes =~= old(self)@.subscribes);
                },
                Some(recv) => {
                    let mut recv = recv;
                    assert(old(self)@.subscribes.dom().contains(id));
                    recv.sink.record(location);
                    let ghost after = recv;
                    let _ = self.subscribes.insert(id, recv);
                    assert(self@.subscribes =~= old(self)@.subscribes.insert(id, after));
                },
            },
            AliasBinding::Publish(id) => match self.published_tracks.remove(id) {
                None => {
                    assert(self@.published_tracks =~= old(self)@.published_tracks);
                },
                Some(recv) => {
                    let mut recv = recv;
                    assert(old(self)@.published_tracks.dom().contains(id));
                    recv.sink.record(location);
                    let ghost after = recv;
                    let _ = self.published_tracks.insert(id, recv);
                    assert(self@.published_tracks =~= old(self)@.published_tracks.insert(
                        id,
                        after,
                    ));
                },
            },
        }
    }

    /// Starts to read the track of a subscription, where it is written as
    /// subgroups.
    pub fn read_track(&mut self, id: u64) -> (r: Option<TrackDrain>)
        requires
            old(self).wf(),
            old(self)@.subscribes.dom().contains(id) ==> (match old(
                self,
            )@.subscribes[id]@.sink.mode {
                ModeView::Subgroups(groups) => groups.activations < u64::MAX,
                _ => true,
            }),
        ensures
            final(self).wf(),
            if old(self)@.subscribes.dom().contains(id) {
                let before = old(self)@.subscribes[id];
                let after = final(self)@.subscribes[id];
                &&& final(self)@ == (SubscriberView {
                    subscribes: old(self)@.subscribes.insert(id, after),
                    ..old(self)@
                })
                &&& after == (SubscribeRecv { sink: after.sink, ..before })
                &&& sink_read(before.sink, after.sink, r)
            } else {
                r is None && final(self)@ == old(self)@
            },
    {
        match self.subscribes.remove(id) {
            None => {
                assert(self@.subscribes =~= old(self)@.subscribes);
                None
            },
            Some(recv) => {
                let mut recv = recv;
                assert(old(self)@.subscribes.dom().contains(id));
                let r: Option<TrackDrain> = read_sink(&mut recv.sink);
                let ghost after = recv;
                let _ = self.subscribes.insert(id, recv);
                assert(self@.subscribes =~= old(self)@.subscribes.insert(id, after));
                r
            },
        }
    }

    /// Drains the track of a subscription, up to its end or to what has not come
    /// yet: what comes out is what was received of it. Nothing, where there is
    /// no such subscription.
    pub fn drain_track(
        &mut self,
        id: u64,
        drain: &mut TrackDrain,
        contents: &TrackContents,
        out: &mut Vec<u8>,
    ) -> (r: Option<Result<usize, DrainError>>)
        requires
            old(self).wf(),
            old(self)@.subscribes.dom().contains(id) ==> drains_sink(
                *old(drain),
                old(self)@.subscribes[id].sink,
                *contents,
            ),
        ensures
            final(self).wf(),
            if old(self)@.subscribes.dom().contains(id) {
                let before = old(self)@.subscribes[id];
                let after = final(self)@.subscribes[id];
                &&& final(self)@ == (SubscriberView {
                    subscribes: old(self)@.subscribes.insert(id, after),
                    ..old(self)@
                })
                &&& after == (SubscribeRecv { sink: after.sink, ..before })
                &&& r matches Some(drained)
                &&& sink_drained(
                    before.sink,
                    after.sink,
                    *old(drain),
                    *final(drain),
                    *contents,
                    old(out)@,
                    final(out)@,
                    drained,
                )
            } else {
                &&& r is None
                &&& final(self)@ == old(self)@
                &&& *final(drain) == *old(drain)
                &&& final(out)@ == old(out)@
            },
    {
        match self.subscribes.remove(id) {
            None => {
                assert(self@.subscribes =~= old(self)@.subscribes);
                None
            },
            Some(recv) => {
                let mut recv = recv;
                assert(old(self)@.subscribes.dom().contains(id));
                let r: Result<usize, DrainError> = drain_sink(
                    &mut recv.sink,
                    drain,
                    contents,
                    out,
                );
                let ghost after = recv;
                let _ = self.subscribes.insert(id, recv);
                assert(self@.subscribes =~= old(self)@.subscribes.insert(id, after));
                Some(r)
            },
        }
    }

    /// Writes a datagram of the peer on the track that its alias is bound to.
    /// One for a track that nobody knows is dropped.
    pub fn recv_datagram(&mut self, datagram: ReceivedDatagram) -> (r: Result<(), SessionError>)
        requires
            old(self).wf(),
            old(self).room(),
        ensures
            final(self).wf(),
            datagram_routed(old(self)@, final(self)@, datagram, r),
    {
        match self.resolve_alias(datagram.track_alias) {
            Some(AliasBinding::Subscribe(id)) => match self.subscribes.remove(id) {
                None => {
                    assert(self@.subscribes =~= old(self)@.subscribes);
                    Ok(())
                },
                Some(recv) => {
                    let mut recv = recv;
                    assert(old(self)@.subscribes.dom().contains(id));
                    let r: Result<(), ServeError> = recv.datagram(datagram);
                    let ghost after = recv;
                    let _ = self.subscribes.insert(id, recv);
                    assert(self@.subscribes =~= old(self)@.subscribes.insert(id, after));
                    match r {
                        Ok(()) => Ok(()),
                        Err(e) => Err(SessionError::Serve(e)),
                    }
                },
            },
            Some(AliasBinding::Publish(id)) => match self.published_tracks.remove(id) {
                None => {
                    assert(self@.published_tracks =~= old(self)@.published_tracks);
                    Ok(())
                },
                Some(recv) => {
                    let mut recv = recv;
                    assert(old(self)@.published_tracks.dom().contains(id));
                    let r: Result<(), ServeError> = recv.sink.datagram(datagram);
                    let ghost after = recv;
                    let _ = self.published_tracks.insert(id, recv);
                    assert(self@.published_tracks =~= old(self)@.published_tracks.insert(
                        id,
                        after,
                    ));
                    match r {
                        Ok(()) => Ok(()),
                        Err(e) => Err(SessionError::Serve(e)),
                    }
                },
            },
            None => Ok(()),
        }
    }
}

/// What the acceptance of a subscription comes to.
pub open spec fn subscribe_ok_received(
    before: SubscriberView,
    after: SubscriberView,
    id: u64,
    track_alias: u64,
    history_window_groups: Option<u64>,
    r: Result<(), SessionError>,
) -> bool {
    if !before.subscribes.dom().contains(id) {
        r == Ok::<(), SessionError>(()) && after == before
    } else if before.alias_bound(track_alias) {
        r == Err::<(), SessionError>(SessionError::Duplicate) && after == before
    } else {
        let recv = before.subscribes[id];
        &&& r == if recv@.ok {
            Err::<(), SessionError>(SessionError::Serve(ServeError::Duplicate))
        } else {
            Ok(())
        }
        &&& after == (SubscriberView {
            subscribes: before.subscribes.insert(id, after.subscribes[id]),
            subscribe_aliases: before.subscribe_aliases.insert(track_alias, id),
            ..before
        })
        &&& if recv@.ok {
            after.subscribes[id] == recv
        } else {
            after.subscribes[id]@ == recv@.accepted(track_alias, history_window_groups)
        }
    }
}

/// A failure of a track, as the session sees it.
pub open spec fn as_session<T>(r: Result<T, ServeError>) -> Result<T, SessionError> {
    match r {
        Ok(v) => Ok(v),
        Err(e) => Err(SessionError::Serve(e)),
    }
}

/// A subscription failed: it is forgotten, and left for the one who holds it.
pub open spec fn subscribe_failed(
    before: SubscriberView,
    after: SubscriberView,
    id: u64,
    err: ServeError,
    r: Result<(), ServeError>,
) -> bool {
    let left = after.ended.last().1;
    &&& before.subscribes.dom().contains(id)
    &&& after == (SubscriberView {
        ended: before.ended.push((id, left)),
        ..before.without_subscribe(id)
    })
    &&& subscription_failed(before.subscribes[id], left, err, r)
}

/// What the failure of a stream comes to.
pub open spec fn stream_ended(
    before: SubscriberView,
    after: SubscriberView,
    track_alias: u64,
    err: ServeError,
    r: Result<(), SessionError>,
) -> bool {
    match before.binding(track_alias) {
        Some(AliasBinding::Subscribe(id)) => if before.subscribes.dom().contains(id) {
            &&& r == as_session(failure_result(before.subscribes[id]))
            &&& subscribe_failed(before, after, id, err, failure_result(before.subscribes[id]))
        } else {
            r == Ok::<(), SessionError>(()) && after == before.without_subscribe(id)
        },
        _ => r == Ok::<(), SessionError>(()) && after == before,
    }
}

/// What the end of a subscription comes to.
pub open spec fn publish_done_received(
    before: SubscriberView,
    after: SubscriberView,
    id: u64,
    status_code: u64,
    r: Result<(), SessionError>,
) -> bool {
    if before.subscribes.dom().contains(id) {
        let result = failure_result(before.subscribes[id]);
        &&& r == as_session(result)
        &&& subscribe_failed(before, after, id, ServeError::Closed(status_code), result)
    } else if before.published_tracks.dom().contains(id) {
        &&& r == Ok::<(), SessionError>(())
        &&& after == (SubscriberView {
            done_tracks: before.done_tracks.push(
                (
                    id,
                    PublishedTrackRecv { done: Some(status_code), ..before.published_tracks[id] },
                ),
            ),
            ..before.without_subscribe(id).without_published(id)
        })
    } else {
        r == Ok::<(), SessionError>(()) && after == before.without_subscribe(id)
    }
}

/// What an answer belongs to that has no request of its own kind.
pub open spec fn shared_route(before: SubscriberView, id: u64) -> AnswerRoute {
    if before.track_statuses.contains(id) {
        AnswerRoute::TrackStatus
    } else if before.pending_updates.contains(id) {
        AnswerRoute::RequestUpdate
    } else {
        AnswerRoute::Unknown
    }
}

/// What the refusal of a request comes to.
pub open spec fn request_error_received(
    before: SubscriberView,
    after: SubscriberView,
    id: u64,
    error_code: u64,
    r: Result<AnswerRoute, SessionError>,
) -> bool {
    let err = ServeError::Closed(error_code);
    if before.subscribes.dom().contains(id) {
        let result = failure_result(before.subscribes[id]);
        &&& r == match result {
            Ok(()) => Ok::<AnswerRoute, SessionError>(AnswerRoute::Subscribe),
            Err(e) => Err(SessionError::Serve(e)),
        }
        &&& subscribe_failed(before, after, id, err, result)
    } else {
        &&& r == Ok::<AnswerRoute, SessionError>(shared_route(before, id))
        &&& after == answered(before.without_subscribe(id), id, Err(err))
    }
}

/// What the announcement of a namespace comes to.
pub open spec fn namespace_received(
    before: SubscriberView,
    after: SubscriberView,
    id: u64,
    namespace: Seq<char>,
    queue_open: bool,
    r: Result<bool, SessionError>,
) -> bool {
    let known = exists|i: int|
        0 <= i < before.namespaces.len() && (#[trigger] before.namespaces[i]).0 == namespace;
    &&& r == if known {
        Err::<bool, SessionError>(SessionError::Duplicate)
    } else {
        Ok(queue_open)
    }
    &&& after == if known {
        before
    } else if queue_open {
        (SubscriberView { namespaces: before.namespaces.push((namespace, id)), ..before })
    } else {
        before.refusing(id, RequestErrorCode::Cancelled, "")
    }
}

/// A message of the peer on the control stream.
pub enum PublisherMessage {
    PublishNamespace { id: u64, namespace: String },
    PublishNamespaceDone { id: u64 },
    Publish(PublishMessage),
    PublishDone { id: u64, status_code: u64 },
    SubscribeOk { id: u64, track_alias: u64, history_window_groups: Option<u64> },
    RequestOk { id: u64 },
    RequestError { id: u64, error_code: u64 },
    /// FETCH is not supported, and its answer is ignored.
    FetchOk { id: u64 },
}

/// Whether an outcome is that of a step which also gives a value.
pub open spec fn forgets<T>(r: Result<(), SessionError>, full: Result<T, SessionError>) -> bool {
    match full {
        Ok(_) => r == Ok::<(), SessionError>(()),
        Err(e) => r == Err::<(), SessionError>(e),
    }
}

/// What a message of the peer comes to.
pub open spec fn message_received(
    before: SubscriberView,
    after: SubscriberView,
    msg: PublisherMessage,
    queue_open: bool,
    r: Result<(), SessionError>,
) -> bool {
    match msg {
        PublisherMessage::PublishNamespace { id, namespace } => exists|full: Result<
            bool,
            SessionError,
        >|
            #[trigger] namespace_received(before, after, id, namespace@, queue_open, full)
                && forgets(r, full),
        PublisherMessage::PublishNamespaceDone { id } => r == Ok::<(), SessionError>(())
            && exists|namespace: Option<String>| #[trigger]
            namespace_dropped(before, after, id, namespace),
        PublisherMessage::Publish(publish) => exists|full: Result<PublishOutcome, SessionError>|
            #[trigger] publish_received(before, after, publish, queue_open, full) && forgets(
                r,
                full,
            ),
        PublisherMessage::PublishDone { id, status_code } => publish_done_received(
            before,
            after,
            id,
            status_code,
            r,
        ),
        PublisherMessage::SubscribeOk { id, track_alias, history_window_groups } =>
        subscribe_ok_received(before, after, id, track_alias, history_window_groups, r),
        PublisherMessage::RequestOk { id } => r == Ok::<(), SessionError>(()) && after
            == answered(before, id, Ok(())),
        PublisherMessage::RequestError { id, error_code } => exists|
            full: Result<AnswerRoute, SessionError>,
        | #[trigger]
            request_error_received(before, after, id, error_code, full) && forgets(r, full),
        PublisherMessage::FetchOk { .. } => r == Ok::<(), SessionError>(()) && after == before,
    }
}

/// How a request's number is come by: it is the next one, or the limit is
/// reached and the peer is told, once for each limit.
pub open spec fn allocated(
    before: SubscriberView,
    after: SubscriberView,
    r: Result<u64, SessionError>,
) -> bool {
    match before.request_id.spec_allocate() {
        (ids, RequestIdAllocation::Allocated(id)) => {
            &&& r == Ok::<u64, SessionError>(id)
            &&& after == (SubscriberView { request_id: ids, ..before })
        },
        (ids, RequestIdAllocation::Blocked { limit, report }) => {
            &&& r == Err::<u64, SessionError>(SessionError::TooManyRequests)
            &&& after == (SubscriberView {
                request_id: ids,
                outgoing: if report {
                    before.outgoing.push(ControlMessage::RequestsBlocked { limit })
                } else {
                    before.outgoing
                },
                ..before
            })
        },
    }
}

/// The state after a subscription was asked for.
pub open spec fn subscribed(
    before: SubscriberView,
    after: SubscriberView,
    ids: RequestId,
    id: u64,
    track_namespace: String,
    track_name: String,
) -> bool {
    &&& after == (SubscriberView {
        request_id: ids,
        names: before.names.push(
            NameView {
                track_namespace: track_namespace@,
                track_name: track_name@,
                request_id: id,
            },
        ),
        subscribes: after.subscribes,
        outgoing: after.outgoing,
        ..before
    })
    &&& after.subscribes.dom() == before.subscribes.dom().insert(id)
    &&& after.subscribes == before.subscribes.insert(id, after.subscribes[id])
    &&& after.subscribes[id]@ == SubscribeView::fresh()
    &&& after.outgoing.len() == before.outgoing.len() + 1
    &&& after.outgoing.drop_last() == before.outgoing
    &&& after.outgoing.last() matches ControlMessage::Subscribe(request)
    &&& request.is_for_track(id, track_namespace, track_name)
}

/// What the announcement of a published track comes to.
pub open spec fn publish_received(
    before: SubscriberView,
    after: SubscriberView,
    msg: PublishMessage,
    queue_open: bool,
    r: Result<PublishOutcome, SessionError>,
) -> bool {
    if msg.has_track_extensions {
        r == Ok::<PublishOutcome, SessionError>(PublishOutcome::Refused) && after
            == before.refusing(
            msg.id,
            RequestErrorCode::NotSupported,
            "track extensions not supported",
        )
    } else if before.alias_bound(msg.track_alias) {
        r == Err::<PublishOutcome, SessionError>(SessionError::Duplicate) && after == before
    } else if name_taken(before.names, msg.track_namespace@, msg.track_name@) {
        r == Ok::<PublishOutcome, SessionError>(PublishOutcome::Refused) && after
            == before.refusing(
            msg.id,
            RequestErrorCode::DuplicateSubscription,
            "duplicate subscription",
        )
    } else if msg.forward is Err {
        r == Err::<PublishOutcome, SessionError>(SessionError::Decode(msg.forward->Err_0)) && after
            == before
    } else if msg.largest_object is Err {
        r == Err::<PublishOutcome, SessionError>(SessionError::Decode(msg.largest_object->Err_0))
            && after == before
    } else if queue_open {
        &&& r == Ok::<PublishOutcome, SessionError>(PublishOutcome::Queued)
        &&& after == (SubscriberView {
            publish_aliases: before.publish_aliases.insert(msg.track_alias, msg.id),
            names: before.names.push(
                NameView {
                    track_namespace: msg.track_namespace@,
                    track_name: msg.track_name@,
                    request_id: msg.id,
                },
            ),
            published_tracks: before.published_tracks.insert(
                msg.id,
                after.published_tracks[msg.id],
            ),
            ..before
        })
        &&& after.published_tracks[msg.id].is_fresh(&msg)
    } else {
        &&& r == Ok::<PublishOutcome, SessionError>(PublishOutcome::Unheard)
        &&& after == (SubscriberView {
            published_tracks: before.published_tracks.remove(msg.id),
            names: names_without(before.names, msg.id),
            ..before.refusing(msg.id, RequestErrorCode::Cancelled, "")
        })
    }
}

/// The state after an answer that belongs to a status request or to an update.
pub open spec fn answered(
    before: SubscriberView,
    id: u64,
    result: Result<(), ServeError>,
) -> SubscriberView {
    if before.track_statuses.contains(id) {
        SubscriberView { track_statuses: before.track_statuses.remove(id), ..before }
    } else if before.pending_updates.contains(id) {
        SubscriberView {
            pending_updates: before.pending_updates.remove(id),
            update_results: before.update_results.push((id, result)),
            ..before
        }
    } else {
        before
    }
}

/// What taking a namespace back comes to: the first that was announced under
/// the number goes.
pub open spec fn namespace_dropped(
    before: SubscriberView,
    after: SubscriberView,
    id: u64,
    r: Option<String>,
) -> bool {
    match r {
        None => {
            &&& after == before
            &&& forall|i: int| 0 <= i < before.namespaces.len() ==> (#[trigger] before.namespaces[i]).1
                != id
        },
        Some(namespace) => exists|i: int|
            {
                &&& 0 <= i < before.namespaces.len()
                &&& #[trigger] before.namespaces[i] == (namespace@, id)
                &&& forall|j: int| 0 <= j < i ==> (#[trigger] before.namespaces[j]).1 != id
                &&& after == (SubscriberView {
                    namespaces: before.namespaces.remove(i),
                    ..before
                })
            },
    }
}

/// What opening a subgroup through a binding comes to.
pub open spec fn subgroup_routed(
    before: SubscriberView,
    after: SubscriberView,
    binding: AliasBinding,
    header: SubgroupHeader,
    r: Result<Subgroup, SessionError>,
) -> bool {
    match binding {
        AliasBinding::Subscribe(id) => if before.subscribes.dom().contains(id) {
            let recv = after.subscribes[id];
            &&& after == (SubscriberView {
                subscribes: before.subscribes.insert(id, recv),
                ..before
            })
            &&& recv@ == (SubscribeView { sink: recv@.sink, ..before.subscribes[id]@ })
            &&& exists|x: Result<Subgroup, ServeError>| #[trigger]
                subgroup_opened(
                    before.subscribes[id]@.sink,
                    recv@.sink,
                    header.spec_subgroup(),
                    x,
                ) && r == as_session(x)
        } else {
            r == Err::<Subgroup, SessionError>(SessionError::Serve(ServeError::NotFound)) && after
                == before
        },
        AliasBinding::Publish(id) => if before.published_tracks.dom().contains(id) {
            let recv = after.published_tracks[id];
            &&& after == (SubscriberView {
                published_tracks: before.published_tracks.insert(id, recv),
                ..before
            })
            &&& recv == (PublishedTrackRecv { sink: recv.sink, ..before.published_tracks[id] })
            &&& exists|x: Result<Subgroup, ServeError>| #[trigger]
                subgroup_opened(
                    before.published_tracks[id].sink@,
                    recv.sink@,
                    header.spec_subgroup(),
                    x,
                ) && r == as_session(x)
        } else {
            r == Err::<Subgroup, SessionError>(SessionError::Serve(ServeError::NotFound)) && after
                == before
        },
    }
}

/// An object was announced on the track that a binding leads to, where there is
/// one.
pub open spec fn object_recorded(
    before: SubscriberView,
    after: SubscriberView,
    binding: AliasBinding,
    location: (u64, u64),
) -> bool {
    match binding {
        AliasBinding::Subscribe(id) => if before.subscribes.dom().contains(id) {
            let recv = after.subscribes[id];
            &&& after == (SubscriberView {
                subscribes: before.subscribes.insert(id, recv),
                ..before
            })
            &&& recv@ == (SubscribeView {
                sink: before.subscribes[id]@.sink.recorded(location),
                ..before.subscribes[id]@
            })
        } else {
            after == before
        },
        AliasBinding::Publish(id) => if before.published_tracks.dom().contains(id) {
            let recv = after.published_tracks[id];
            &&& after == (SubscriberView {
                published_tracks: before.published_tracks.insert(id, recv),
                ..before
            })
            &&& recv == (PublishedTrackRecv { sink: recv.sink, ..before.published_tracks[id] })
            &&& recv.sink@ == before.published_tracks[id].sink@.recorded(location)
        } else {
            after == before
        },
    }
}

/// What a received datagram comes to.
pub open spec fn datagram_routed(
    before: SubscriberView,
    after: SubscriberView,
    datagram: ReceivedDatagram,
    r: Result<(), SessionError>,
) -> bool {
    match before.binding(datagram.track_alias) {
        Some(AliasBinding::Subscribe(id)) => if before.subscribes.dom().contains(id) {
            let recv = after.subscribes[id];
            &&& after == (SubscriberView {
                subscribes: before.subscribes.insert(id, recv),
                ..before
            })
            &&& recv@ == (SubscribeView { sink: recv@.sink, ..before.subscribes[id]@ })
            &&& exists|x: Result<(), ServeError>| #[trigger]
                datagram_written(
                    before.subscribes[id]@.sink,
                    recv@.sink,
                    datagram.spec_datagram(),
                    x,
                ) && r == as_session(x)
        } else {
            r == Ok::<(), SessionError>(()) && after == before
        },
        Some(AliasBinding::Publish(id)) => if before.published_tracks.dom().contains(id) {
            let recv = after.published_tracks[id];
            &&& after == (SubscriberView {
                published_tracks: before.published_tracks.insert(id, recv),
                ..before
            })
            &&& recv == (PublishedTrackRecv { sink: recv.sink, ..before.published_tracks[id] })
            &&& exists|x: Result<(), ServeError>| #[trigger]
                datagram_written(
                    before.published_tracks[id].sink@,
                    recv.sink@,
                    datagram.spec_datagram(),
                    x,
                ) && r == as_session(x)
        } else {
            r == Ok::<(), SessionError>(()) && after == before
        },
        None => r == Ok::<(), SessionError>(()) && after == before,
    }
}

/// Forgetting the names of a request leaves the others, in order, and none of
/// the request.
pub proof fn lemma_names_without(names: Seq<NameView>, id: u64)
    ensures
        forall|i: int|
            0 <= i < names_without(names, id).len() ==> (#[trigger] names_without(
                names,
                id,
            )[i]).request_id != id,
        distinct_names(names) ==> distinct_names(names_without(names, id)),
        forall|i: int|
            0 <= i < names_without(names, id).len() ==> exists|j: int|
                0 <= j < names.len() && #[trigger] names[j] == #[trigger] names_without(
                    names,
                    id,
                )[i],
    decreases names.len(),
{
    if names.len() > 0 {
        let shorter = names.drop_last();
        let rest = names_without(shorter, id);
        let all = names_without(names, id);
        lemma_names_without(shorter, id);
        assert forall|i: int| 0 <= i < all.len() implies exists|j: int|
            0 <= j < names.len() && #[trigger] names[j] == #[trigger] all[i] by {
            if i < rest.len() {
                assert(all[i] == rest[i]);
                let j = choose|j: int|
                    0 <= j < shorter.len() && #[trigger] shorter[j] == #[trigger] rest[i];
                assert(names[j] == all[i]);
            } else {
                assert(names[names.len() - 1] == all[i]);
            }
        }
        if distinct_names(names) {
            assert(distinct_names(shorter)) by {
                assert forall|i: int, j: int| 0 <= i < j < shorter.len() implies !same_name(
                    #[trigger] shorter[i],
                    #[trigger] shorter[j],
                ) by {
                    assert(!same_name(names[i], names[j]));
                }
            }
            assert forall|i: int, j: int| 0 <= i < j < all.len() implies !same_name(
                #[trigger] all[i],
                #[trigger] all[j],
            ) by {
                if j < rest.len() {
                    assert(!same_name(rest[i], rest[j]));
                } else {
                    assert(all[i] == rest[i]);
                    let k = choose|k: int|
                        0 <= k < shorter.len() && #[trigger] shorter[k] == #[trigger] rest[i];
                    assert(!same_name(names[k], names[names.len() - 1]));
                }
            }
        }
    }
}

/// Whether two entries name the same track.
pub open spec fn same_name(a: NameView, b: NameView) -> bool {
    a.track_namespace == b.track_namespace && a.track_name == b.track_name
}

/// Whether no track is named twice.
pub open spec fn distinct_names(names: Seq<NameView>) -> bool {
    forall|i: int, j: int|
        0 <= i < j < names.len() ==> !same_name(#[trigger] names[i], #[trigger] names[j])
}

/// An alias is bound to one subscription at most, and no track is subscribed
/// to twice, whatever messages have come.
pub proof fn law_aliases_and_names_are_unique(s: Subscriber)
    requires
        s.wf(),
    ensures
        s@.consistent(),
        forall|alias: u64|
            !(s@.subscribe_aliases.dom().contains(alias) && s@.publish_aliases.dom().contains(
                alias,
            )),
{
}

/// Messages of the peer use up no numbers: a track that had room for one more
/// subgroup or datagram still has it, and a new track has room.
pub proof fn law_messages_keep_room(
    before: SubscriberView,
    after: SubscriberView,
    msg: PublisherMessage,
    queue_open: bool,
    r: Result<(), SessionError>,
)
    requires
        before.room(),
        message_received(before, after, msg, queue_open, r),
    ensures
        after.room(),
{
    match msg {
        PublisherMessage::SubscribeOk { id, .. } => {
            if before.subscribes.dom().contains(id) {
                assert(before.subscribes[id].sink.room());
            }
        },
        _ => {},
    }
}

/// A refused subscription is forgotten, and the one who holds it learns the
/// code that it was refused with, as does the reader of its track.
pub proof fn law_refusal_reaches_the_subscription(
    before: SubscriberView,
    after: SubscriberView,
    id: u64,
    error_code: u64,
    r: Result<AnswerRoute, SessionError>,
)
    requires
        request_error_received(before, after, id, error_code, r),
        before.subscribes.dom().contains(id),
        failure_result(before.subscribes[id]) is Ok,
    ensures
        r == Ok::<AnswerRoute, SessionError>(AnswerRoute::Subscribe),
        !after.subscribes.dom().contains(id),
        after.ended.len() == before.ended.len() + 1,
        after.ended.last().0 == id,
        after.ended.last().1@.closed == Err::<(), ServeError>(ServeError::Closed(error_code)),
        before.subscribes[id].sink@.writable && !(before.subscribes[id].sink@.mode is Stream)
            ==> after.ended.last().1.sink@.mode.outcome() == Err::<(), ServeError>(
            ServeError::Closed(error_code),
        ),
{
}

/// A track whose subscription was forgotten can be subscribed to again.
pub proof fn law_forgotten_track_is_free(names: Seq<NameView>, i: int)
    requires
        distinct_names(names),
        0 <= i < names.len(),
    ensures
        !name_taken(
            names_without(names, names[i].request_id),
            names[i].track_namespace,
            names[i].track_name,
        ),
{
    let id = names[i].request_id;
    let rest = names_without(names, id);
    lemma_names_without(names, id);
    if name_taken(rest, names[i].track_namespace, names[i].track_name) {
        let k = choose|k: int|
            0 <= k < rest.len() && (#[trigger] rest[k]).track_namespace
                == names[i].track_namespace && rest[k].track_name == names[i].track_name;
        let j = choose|j: int| 0 <= j < names.len() && #[trigger] names[j] == #[trigger] rest[k];
        assert(same_name(names[i], names[j]));
        if i < j {
            assert(!same_name(names[i], names[j]));
        } else if j < i {
            assert(!same_name(names[j], names[i]));
        }
    }
}

/// A received datagram goes to the one track that its alias is bound to, and is
/// the last that was written there, under its own object number where it names
/// one. Nothing else changes; one for an alias that leads to no track is dropped.
pub proof fn law_datagram_reaches_its_track(
    before: SubscriberView,
    after: SubscriberView,
    datagram: ReceivedDatagram,
    r: Result<(), SessionError>,
    id: u64,
)
    requires
        datagram_routed(before, after, datagram, r),
    ensures
        before.publish_aliases.dom().contains(datagram.track_alias)
            && before.publish_aliases[datagram.track_alias] == id
            && before.published_tracks.dom().contains(id) ==> {
            &&& after.published_tracks.dom() == before.published_tracks.dom()
            &&& after.subscribes == before.subscribes
            &&& forall|other: u64|
                other != id && before.published_tracks.dom().contains(other)
                    ==> #[trigger] after.published_tracks[other] == before.published_tracks[other]
            &&& r is Ok ==> datagram_is_last(after.published_tracks[id].sink@, datagram)
            &&& takes_datagrams(before.published_tracks[id].sink@) == (r is Ok)
        },
        !before.publish_aliases.dom().contains(datagram.track_alias)
            && before.subscribe_aliases.dom().contains(datagram.track_alias)
            && before.subscribe_aliases[datagram.track_alias] == id
            && before.subscribes.dom().contains(id) ==> {
            &&& after.subscribes.dom() == before.subscribes.dom()
            &&& after.published_tracks == before.published_tracks
            &&& forall|other: u64|
                other != id && before.subscribes.dom().contains(other)
                    ==> #[trigger] after.subscribes[other] == before.subscribes[other]
            &&& after.subscribes[id]@.ok == before.subscribes[id]@.ok
            &&& after.subscribes[id]@.closed == before.subscribes[id]@.closed
            &&& r is Ok ==> datagram_is_last(after.subscribes[id]@.sink, datagram)
            &&& takes_datagrams(before.subscribes[id]@.sink) == (r is Ok)
        },
        !before.alias_bound(datagram.track_alias) ==> r is Ok && after == before,
        after.names == before.names,
        after.outgoing == before.outgoing,
        after.publish_aliases == before.publish_aliases,
        after.subscribe_aliases == before.subscribe_aliases,
{
    match before.binding(datagram.track_alias) {
        Some(AliasBinding::Subscribe(n)) => {
            if before.subscribes.dom().contains(n) {
                let a = before.subscribes[n]@.sink;
                let b = after.subscribes[n]@.sink;
                let x = choose|x: Result<(), ServeError>| #[trigger]
                    datagram_written(a, b, datagram.spec_datagram(), x) && r == as_session(x);
                if x is Ok {
                    super::subscribe::law_datagram_is_written_as_it_came(a, b, datagram, x);
                }
                super::subscribe::law_datagrams_are_refused_for_cause(a, b, datagram, x);
                assert(after.subscribes.dom() =~= before.subscribes.dom());
            }
        },
        Some(AliasBinding::Publish(n)) => {
            if before.published_tracks.dom().contains(n) {
                let a = before.published_tracks[n].sink@;
                let b = after.published_tracks[n].sink@;
                let x = choose|x: Result<(), ServeError>| #[trigger]
                    datagram_written(a, b, datagram.spec_datagram(), x) && r == as_session(x);
                if x is Ok {
                    super::subscribe::law_datagram_is_written_as_it_came(a, b, datagram, x);
                }
                super::subscribe::law_datagrams_are_refused_for_cause(a, b, datagram, x);
                assert(after.published_tracks.dom() =~= before.published_tracks.dom());
            }
        },
        None => {},
    }
}

/// The last datagram that was written on a track is one that was received.
pub open spec fn datagram_is_last(sink: SinkView, datagram: ReceivedDatagram) -> bool {
    &&& sink.mode is Datagrams
    &&& sink.mode->Datagrams_written.len() > 0
    &&& ({
        let last = sink.mode->Datagrams_written.last();
        &&& last.group_id == datagram.group_id
        &&& datagram.object_id matches Some(n) ==> last.object_id == n
        &&& datagram.object_id is None ==> last.object_id == 0
        &&& last.priority == datagram.publisher_priority
        &&& datagram.payload matches Some(b) ==> last.payload == crate::wire::bytes_view(b)
        &&& datagram.payload is None ==> last.payload.len() == 0
        &&& datagram.extension_headers matches Some(h) ==> last.extension_headers == h@
        &&& datagram.extension_headers is None ==> last.extension_headers.len() == 0
    })
}

/// A track takes datagrams: it is still written, somebody reads it, and it is
/// not written in another way.
pub open spec fn takes_datagrams(sink: SinkView) -> bool {
    &&& sink.writable
    &&& match sink.mode {
        ModeView::Track { live, .. } => live,
        ModeView::Datagrams { live, .. } => live,
        _ => false,
    }
}

/// A subgroup is opened on the one track that a binding leads to; where there is
/// none, nothing is found and nothing changes.
pub proof fn law_subgroup_reaches_its_track(
    before: SubscriberView,
    after: SubscriberView,
    binding: AliasBinding,
    header: SubgroupHeader,
    r: Result<Subgroup, SessionError>,
)
    requires
        subgroup_routed(before, after, binding, header, r),
    ensures
        r matches Ok(s) ==> {
            &&& s.group_id == header.group_id
            &&& s.priority == header.publisher_priority
            &&& header.subgroup_id matches Some(n) ==> s.subgroup_id == n
            &&& header.subgroup_id is None ==> s.subgroup_id == 0
        },
        match binding {
            AliasBinding::Subscribe(id) => {
                &&& after.published_tracks == before.published_tracks
                &&& before.subscribes.dom().contains(id) ==> {
                    &&& after.subscribes.dom() == before.subscribes.dom()
                    &&& r matches Ok(s) ==> after.subscribes[id]@.sink.created()
                        == before.subscribes[id]@.sink.created().push(s)
                    &&& r is Err ==> after.subscribes[id]@.sink.created()
                        == before.subscribes[id]@.sink.created()
                    &&& after.subscribes[id]@.ok == before.subscribes[id]@.ok
                    &&& after.subscribes[id]@.closed == before.subscribes[id]@.closed
                    &&& before.subscribes[id]@.sink == SinkView::fresh() ==> r is Ok
                }
                &&& !before.subscribes.dom().contains(id) ==> r == Err::<Subgroup, SessionError>(
                    SessionError::Serve(ServeError::NotFound),
                ) && after == before
                &&& forall|other: u64|
                    other != id && before.subscribes.dom().contains(other)
                        ==> #[trigger] after.subscribes[other] == before.subscribes[other]
            },
            AliasBinding::Publish(id) => {
                &&& after.subscribes == before.subscribes
                &&& before.published_tracks.dom().contains(id) ==> {
                    &&& after.published_tracks.dom() == before.published_tracks.dom()
                    &&& r matches Ok(s) ==> after.published_tracks[id].sink@.created()
                        == before.published_tracks[id].sink@.created().push(s)
                    &&& r is Err ==> after.published_tracks[id].sink@.created()
                        == before.published_tracks[id].sink@.created()
                    &&& before.published_tracks[id].sink@ == SinkView::fresh() ==> r is Ok
                }
                &&& !before.published_tracks.dom().contains(id) ==> r == Err::<
                    Subgroup,
                    SessionError,
                >(SessionError::Serve(ServeError::NotFound)) && after == before
                &&& forall|other: u64|
                    other != id && before.published_tracks.dom().contains(other)
                        ==> #[trigger] after.published_tracks[other]
                        == before.published_tracks[other]
            },
        },
        after.names == before.names,
        after.outgoing == before.outgoing,
        after.publish_aliases == before.publish_aliases,
        after.subscribe_aliases == before.subscribe_aliases,
{
    match binding {
        AliasBinding::Subscribe(id) => {
            if before.subscribes.dom().contains(id) {
                let a = before.subscribes[id]@.sink;
                let b = after.subscribes[id]@.sink;
                let x = choose|x: Result<Subgroup, ServeError>| #[trigger]
                    subgroup_opened(a, b, header.spec_subgroup(), x) && r == as_session(x);
                super::subscribe::law_subgroup_is_opened_once(a, b, header.spec_subgroup(), x);
                assert(after.subscribes.dom() =~= before.subscribes.dom());
            }
        },
        AliasBinding::Publish(id) => {
            if before.published_tracks.dom().contains(id) {
                let a = before.published_tracks[id].sink@;
                let b = after.published_tracks[id].sink@;
                let x = choose|x: Result<Subgroup, ServeError>| #[trigger]
                    subgroup_opened(a, b, header.spec_subgroup(), x) && r == as_session(x);
                super::subscribe::law_subgroup_is_opened_once(a, b, header.spec_subgroup(), x);
                assert(after.published_tracks.dom() =~= before.published_tracks.dom());
            }
        },
    }
}

/// An accepted subscription is found under its alias from then on, and no other
/// alias leads elsewhere than before. An alias that is in use is refused, and an
/// answer to a request that is not known changes nothing.
pub proof fn law_accepted_alias_leads_to_its_subscription(
    before: SubscriberView,
    after: SubscriberView,
    id: u64,
    track_alias: u64,
    window: Option<u64>,
    r: Result<(), SessionError>,
    other: u64,
)
    requires
        subscribe_ok_received(before, after, id, track_alias, window, r),
    ensures
        before.subscribes.dom().contains(id) && !before.subscribe_aliases.dom().contains(
            track_alias,
        ) && !before.publish_aliases.dom().contains(track_alias) ==> {
            &&& after.binding(track_alias) == Some(AliasBinding::Subscribe(id))
            &&& after.subscribes.dom() == before.subscribes.dom()
            &&& before.subscribes[id]@.ok ==> {
                &&& r == Err::<(), SessionError>(SessionError::Serve(ServeError::Duplicate))
                &&& after.subscribes[id] == before.subscribes[id]
            }
            &&& !before.subscribes[id]@.ok ==> {
                &&& r is Ok
                &&& before.subscribes[id]@.live ==> after.subscribes[id]@.ok
                    && after.subscribes[id]@.track_alias == Some(track_alias)
                &&& after.subscribes[id]@.closed == before.subscribes[id]@.closed
                &&& window is None ==> after.subscribes[id]@.sink == before.subscribes[id]@.sink
                &&& window is Some && before.subscribes[id]@.sink == SinkView::fresh()
                    ==> after.subscribes[id]@.sink.mode.window() == window
            }
            &&& forall|n: u64|
                n != id && before.subscribes.dom().contains(n) ==> #[trigger] after.subscribes[n]
                    == before.subscribes[n]
        },
        before.subscribes.dom().contains(id) && before.alias_bound(track_alias) ==> r == Err::<
            (),
            SessionError,
        >(SessionError::Duplicate) && after == before,
        !before.subscribes.dom().contains(id) ==> r is Ok && after == before,
        other != track_alias ==> after.binding(other) == before.binding(other),
        after.published_tracks == before.published_tracks,
        after.names == before.names,
        after.outgoing == before.outgoing,
{
    if before.subscribes.dom().contains(id) && !before.alias_bound(track_alias) {
        assert(after.subscribes.dom() =~= before.subscribes.dom());
        super::subscribe::law_acceptance_is_recorded(before.subscribes[id]@, track_alias, window);
    }
}

/// A track that the peer announces, and that the application can take, is found
/// under its alias at once, as a track that nothing was written on, which is
/// forwarded unless the peer says otherwise; its name is taken from then on.
pub proof fn law_announced_track_is_found(
    before: SubscriberView,
    after: SubscriberView,
    msg: PublishMessage,
    r: Result<PublishOutcome, SessionError>,
    other: u64,
)
    requires
        publish_received(before, after, msg, true, r),
        !msg.has_track_extensions,
        !before.subscribe_aliases.dom().contains(msg.track_alias),
        !before.publish_aliases.dom().contains(msg.track_alias),
        forall|i: int|
            0 <= i < before.names.len() ==> (#[trigger] before.names[i]).track_namespace
                != msg.track_namespace@ || before.names[i].track_name != msg.track_name@,
        msg.forward is Ok,
        msg.largest_object is Ok,
    ensures
        r == Ok::<PublishOutcome, SessionError>(PublishOutcome::Queued),
        after.binding(msg.track_alias) == Some(AliasBinding::Publish(msg.id)),
        other != msg.track_alias ==> after.binding(other) == before.binding(other),
        after.published_tracks.dom().contains(msg.id),
        after.published_tracks[msg.id].track_alias == msg.track_alias,
        msg.forward->Ok_0 is None ==> after.published_tracks[msg.id].forward,
        msg.forward->Ok_0 matches Some(f) ==> after.published_tracks[msg.id].forward == f,
        after.published_tracks[msg.id].largest == msg.largest_object->Ok_0,
        !after.published_tracks[msg.id].reader_taken,
        after.published_tracks[msg.id].done is None,
        after.published_tracks[msg.id].sink@.writable,
        after.published_tracks[msg.id].sink@.created().len() == 0,
        takes_datagrams(after.published_tracks[msg.id].sink@),
        name_taken(after.names, msg.track_namespace@, msg.track_name@),
        after.names.drop_last() == before.names,
        after.outgoing == before.outgoing,
        after.subscribes == before.subscribes,
{
    assert(after.names.last().track_name == msg.track_name@);
    assert(after.names.drop_last() =~= before.names);
}

/// A track that the peer announces is refused, and the peer told, where it has
/// extensions, where this side subscribes to it already, and where the
/// application no longer listens; an alias that is in use, or a parameter that
/// cannot be read, is an error of the session. In none of these cases is the
/// track found, or anything bound that was not.
pub proof fn law_unwanted_track_is_refused(
    before: SubscriberView,
    after: SubscriberView,
    msg: PublishMessage,
    queue_open: bool,
    r: Result<PublishOutcome, SessionError>,
)
    requires
        publish_received(before, after, msg, queue_open, r),
        r != Ok::<PublishOutcome, SessionError>(PublishOutcome::Queued),
    ensures
        after.publish_aliases == before.publish_aliases,
        after.subscribe_aliases == before.subscribe_aliases,
        after.subscribes == before.subscribes,
        r is Err ==> after == before,
        r is Ok ==> {
            &&& after.outgoing.len() == before.outgoing.len() + 1
            &&& after.outgoing.drop_last() == before.outgoing
            &&& after.outgoing.last() matches ControlMessage::RequestError { id, .. }
            &&& id == msg.id
        },
        msg.has_track_extensions ==> r is Ok && after.outgoing.last()->RequestError_error_code
            == RequestErrorCode::NotSupported,
        !msg.has_track_extensions && before.alias_bound(msg.track_alias) ==> r == Err::<
            PublishOutcome,
            SessionError,
        >(SessionError::Duplicate),
        !msg.has_track_extensions && !before.alias_bound(msg.track_alias) && name_taken(
            before.names,
            msg.track_namespace@,
            msg.track_name@,
        ) ==> r is Ok && after.outgoing.last()->RequestError_error_code
            == RequestErrorCode::DuplicateSubscription,
        !msg.has_track_extensions && !before.alias_bound(msg.track_alias) && !name_taken(
            before.names,
            msg.track_namespace@,
            msg.track_name@,
        ) ==> {
            &&& msg.forward matches Err(e) ==> r == Err::<PublishOutcome, SessionError>(
                SessionError::Decode(e),
            )
            &&& msg.forward is Ok && msg.largest_object is Err ==> r == Err::<
                PublishOutcome,
                SessionError,
            >(SessionError::Decode(msg.largest_object->Err_0))
            &&& msg.forward is Ok && msg.largest_object is Ok ==> {
                &&& !queue_open
                &&& r == Ok::<PublishOutcome, SessionError>(PublishOutcome::Unheard)
                &&& !after.published_tracks.dom().contains(msg.id)
            }
        },
{
    if r is Ok {
        assert(after.outgoing.drop_last() =~= before.outgoing);
    }
}

/// The end of a published track: it is done with the peer's code, keeps what was
/// received, and neither its alias nor its name leads to it any more.
pub proof fn law_finished_track_is_done(
    before: SubscriberView,
    after: SubscriberView,
    id: u64,
    status_code: u64,
    r: Result<(), SessionError>,
    alias: u64,
)
    requires
        publish_done_received(before, after, id, status_code, r),
        !before.subscribes.dom().contains(id),
        before.published_tracks.dom().contains(id),
    ensures
        r is Ok,
        after.done_tracks.len() == before.done_tracks.len() + 1,
        after.done_tracks.drop_last() == before.done_tracks,
        after.done_tracks.last().0 == id,
        after.done_tracks.last().1.done == Some(status_code),
        after.done_tracks.last().1.sink == before.published_tracks[id].sink,
        after.done_tracks.last().1.largest == before.published_tracks[id].largest,
        !after.published_tracks.dom().contains(id),
        after.subscribes =~= before.subscribes,
        forall|other: u64|
            other != id && before.published_tracks.dom().contains(other) ==> {
                &&& #[trigger] after.published_tracks.dom().contains(other)
                &&& after.published_tracks[other] == before.published_tracks[other]
            },
        after.publish_aliases.dom().contains(alias) ==> after.publish_aliases[alias] != id,
        before.publish_aliases.dom().contains(alias) && before.publish_aliases[alias] != id
            ==> after.publish_aliases.dom().contains(alias) && after.publish_aliases[alias]
            == before.publish_aliases[alias],
        forall|i: int|
            0 <= i < after.names.len() ==> (#[trigger] after.names[i]).request_id != id,
{
    assert(after.done_tracks.drop_last() =~= before.done_tracks);
    lemma_names_without(before.names, id);
    lemma_names_without(names_without(before.names, id), id);
}

/// The end of a subscription: it is forgotten with its alias and its name, and
/// the one who holds it learns the peer's code.
pub proof fn law_ended_subscription_is_told(
    before: SubscriberView,
    after: SubscriberView,
    id: u64,
    status_code: u64,
    r: Result<(), SessionError>,
)
    requires
        publish_done_received(before, after, id, status_code, r),
        before.subscribes.dom().contains(id),
    ensures
        !after.subscribes.dom().contains(id),
        forall|other: u64|
            other != id && before.subscribes.dom().contains(other) ==> {
                &&& #[trigger] after.subscribes.dom().contains(other)
                &&& after.subscribes[other] == before.subscribes[other]
            },
        before.subscribes[id]@.track_alias matches Some(alias)
            ==> !after.subscribe_aliases.dom().contains(alias),
        forall|i: int|
            0 <= i < after.names.len() ==> (#[trigger] after.names[i]).request_id != id,
        after.ended.len() == before.ended.len() + 1,
        after.ended.drop_last() == before.ended,
        after.ended.last().0 == id,
        !after.ended.last().1@.sink.writable,
        r is Ok ==> after.ended.last().1@.closed == Err::<(), ServeError>(
            ServeError::Closed(status_code),
        ),
        before.subscribes[id]@.closed is Ok && before.subscribes[id]@.live
            && !before.subscribes[id]@.sink.writable ==> r is Ok,
        after.published_tracks == before.published_tracks,
        after.publish_aliases == before.publish_aliases,
        after.outgoing == before.outgoing,
{
    assert(after.ended.drop_last() =~= before.ended);
    lemma_names_without(before.names, id);
    super::subscribe::law_failure_closes_subscription_and_track(
        before.subscribes[id],
        after.ended.last().1,
        ServeError::Closed(status_code),
        failure_result(before.subscribes[id]),
    );
}

/// Forgetting a subscription takes it, its alias and its names, and nothing
/// else; forgetting one that is not there takes no subscription.
pub proof fn law_forgetting_takes_one_subscription(before: SubscriberView, id: u64, alias: u64)
    ensures
        ({
            let after = before.without_subscribe(id);
            &&& !after.subscribes.dom().contains(id)
            &&& forall|other: u64|
                other != id && before.subscribes.dom().contains(other) ==> {
                    &&& #[trigger] after.subscribes.dom().contains(other)
                    &&& after.subscribes[other] == before.subscribes[other]
                }
            &&& before.subscribes.dom().contains(id) ==> {
                &&& before.subscribes[id]@.track_alias == Some(alias)
                    ==> !after.subscribe_aliases.dom().contains(alias)
                &&& before.subscribes[id]@.track_alias != Some(alias)
                    && before.subscribe_aliases.dom().contains(alias)
                    ==> after.subscribe_aliases.dom().contains(alias)
                    && after.subscribe_aliases[alias] == before.subscribe_aliases[alias]
            }
            &&& !before.subscribes.dom().contains(id) ==> after.subscribe_aliases
                == before.subscribe_aliases && after.subscribes =~= before.subscribes
            &&& after.publish_aliases == before.publish_aliases
            &&& after.published_tracks == before.published_tracks
            &&& after.outgoing == before.outgoing
            &&& after.namespaces == before.namespaces
            &&& after.track_statuses == before.track_statuses
            &&& forall|i: int|
                0 <= i < after.names.len() ==> (#[trigger] after.names[i]).request_id != id
        }),
{
    lemma_names_without(before.names, id);
}

/// Only the names of the forgotten request go.
pub proof fn law_other_names_stay(names: Seq<NameView>, id: u64, i: int)
    requires
        0 <= i < names.len(),
        names[i].request_id != id,
    ensures
        exists|j: int|
            0 <= j < names_without(names, id).len() && #[trigger] names_without(names, id)[j]
                == names[i],
    decreases names.len(),
{
    let rest = names_without(names.drop_last(), id);
    let all = names_without(names, id);
    if i == names.len() - 1 {
        assert(all[all.len() - 1] == names[i]);
    } else {
        law_other_names_stay(names.drop_last(), id, i);
        let j = choose|j: int| 0 <= j < rest.len() && #[trigger] rest[j] == names.drop_last()[i];
        assert(all[j] == names[i]);
    }
}

/// Request numbers are given out in steps of two below the peer's limit, each
/// once, until the numbers run out; at the limit none is, and the peer is told
/// once for each limit.
pub proof fn law_request_numbers_are_given_once(ids: RequestId)
    ensures
        ({
            let (next, outcome) = ids.spec_allocate();
            &&& next.limit == ids.limit
            &&& ids.next < ids.limit ==> {
                &&& outcome == RequestIdAllocation::Allocated(ids.next)
                &&& next.next > ids.next
                &&& ids.next <= 0xffff_ffff_ffff_fffd ==> next.next == ids.next + 2
                &&& next.reported == ids.reported
            }
            &&& ids.next >= ids.limit ==> {
                &&& outcome matches RequestIdAllocation::Blocked { limit, report }
                &&& limit == ids.limit
                &&& report == (ids.reported != Some(ids.limit))
                &&& next.next == ids.next
                &&& next.spec_allocate().1 == (RequestIdAllocation::Blocked {
                    limit: ids.limit,
                    report: false,
                })
            }
        }),
{
}

/// A blocked request costs nothing but one message to the peer for each limit.
pub proof fn law_blocked_request_is_reported_once(
    before: SubscriberView,
    after: SubscriberView,
    again: SubscriberView,
    r: Result<u64, SessionError>,
    s: Result<u64, SessionError>,
)
    requires
        allocated(before, after, r),
        allocated(after, again, s),
        before.request_id.next >= before.request_id.limit,
    ensures
        r == Err::<u64, SessionError>(SessionError::TooManyRequests),
        s == Err::<u64, SessionError>(SessionError::TooManyRequests),
        before.request_id.reported == Some(before.request_id.limit) ==> after.outgoing
            == before.outgoing,
        before.request_id.reported != Some(before.request_id.limit) ==> after.outgoing
            == before.outgoing.push(
            ControlMessage::RequestsBlocked { limit: before.request_id.limit },
        ),
        again.outgoing == after.outgoing,
        after.subscribes == before.subscribes,
        after.names == before.names,
{
}

/// Two requests in a row get different numbers.
pub proof fn law_requests_get_distinct_numbers(
    before: SubscriberView,
    after: SubscriberView,
    again: SubscriberView,
    r: Result<u64, SessionError>,
    s: Result<u64, SessionError>,
)
    requires
        allocated(before, after, r),
        allocated(after, again, s),
        r is Ok,
        s is Ok,
    ensures
        r->Ok_0 == before.request_id.next,
        r->Ok_0 < s->Ok_0 < before.request_id.limit,
        after.outgoing == before.outgoing,
{
}

/// A track that this side asked for is subscribed to under the request's number
/// from then on, with nothing written on it, and is not subscribed to again; the
/// request for it is the last message to the peer.
pub proof fn law_subscribed_track_is_known(
    before: SubscriberView,
    after: SubscriberView,
    ids: RequestId,
    id: u64,
    track_namespace: String,
    track_name: String,
)
    requires
        subscribed(before, after, ids, id, track_namespace, track_name),
    ensures
        after.subscribes.dom().contains(id),
        !after.subscribes[id]@.ok,
        after.subscribes[id]@.track_alias is None,
        after.subscribes[id]@.closed is Ok,
        after.subscribes[id]@.live,
        after.subscribes[id]@.sink.writable,
        after.subscribes[id]@.sink.created().len() == 0,
        takes_datagrams(after.subscribes[id]@.sink),
        after.subscribes[id]@.answer(false) is None,
        forall|other: u64|
            other != id ==> #[trigger] after.subscribes.dom().contains(other)
                == before.subscribes.dom().contains(other),
        forall|other: u64|
            other != id && before.subscribes.dom().contains(other)
                ==> #[trigger] after.subscribes[other] == before.subscribes[other],
        name_taken(after.names, track_namespace@, track_name@),
        after.names.drop_last() == before.names,
        after.outgoing.drop_last() == before.outgoing,
        after.outgoing.len() == before.outgoing.len() + 1,
        after.outgoing.last() is Subscribe,
        ({
            let request = after.outgoing.last()->Subscribe_0;
            &&& request.id == id
            &&& request.track_namespace == track_namespace
            &&& request.track_name == track_name
            &&& request.forward
            &&& request.start_location is None
            &&& request.end_group_id is None
        }),
        after.subscribe_aliases == before.subscribe_aliases,
        after.publish_aliases == before.publish_aliases,
        after.published_tracks == before.published_tracks,
        after.request_id == ids,
{
    assert(after.names.last().track_name == track_name@);
    assert(after.names.drop_last() =~= before.names);
}

/// A namespace is announced once: again it is an error, until it was taken
/// back. One that the application does not hear of is refused to the peer.
pub proof fn law_namespace_is_announced_once(
    before: SubscriberView,
    after: SubscriberView,
    id: u64,
    namespace: Seq<char>,
    queue_open: bool,
    r: Result<bool, SessionError>,
)
    requires
        namespace_received(before, after, id, namespace, queue_open, r),
    ensures
        (r is Err) == (exists|i: int|
            0 <= i < before.namespaces.len() && (#[trigger] before.namespaces[i]).0 == namespace),
        r is Err ==> r == Err::<bool, SessionError>(SessionError::Duplicate) && after == before,
        r is Ok ==> r->Ok_0 == queue_open,
        r == Ok::<bool, SessionError>(true) ==> {
            &&& after.namespaces.len() == before.namespaces.len() + 1
            &&& after.namespaces.last().0 == namespace
            &&& after.namespaces.last().1 == id
            &&& after.namespaces.drop_last() == before.namespaces
            &&& after.outgoing == before.outgoing
        },
        r == Ok::<bool, SessionError>(false) ==> {
            &&& after.namespaces == before.namespaces
            &&& after.outgoing.len() == before.outgoing.len() + 1
            &&& after.outgoing.drop_last() == before.outgoing
            &&& after.outgoing.last() matches ControlMessage::RequestError { id: refused, .. }
            &&& refused == id
        },
        after.subscribes == before.subscribes,
        after.published_tracks == before.published_tracks,
        after.names == before.names,
{
    if r == Ok::<bool, SessionError>(true) {
        assert(after.namespaces.drop_last() =~= before.namespaces);
    }
    if r == Ok::<bool, SessionError>(false) {
        assert(after.outgoing.drop_last() =~= before.outgoing);
    }
}

/// Taking a namespace back takes the one of the request, and only that.
pub proof fn law_namespace_is_taken_back(
    before: SubscriberView,
    after: SubscriberView,
    id: u64,
    r: Option<String>,
)
    requires
        namespace_dropped(before, after, id, r),
    ensures
        (r is Some) == (exists|i: int|
            0 <= i < before.namespaces.len() && (#[trigger] before.namespaces[i]).1 == id),
        r is None ==> after == before,
        r is Some ==> {
            &&& after.namespaces.len() == before.namespaces.len() - 1
            &&& exists|i: int|
                {
                    &&& 0 <= i < before.namespaces.len()
                    &&& (#[trigger] before.namespaces[i]).0 == r->0@
                    &&& before.namespaces[i].1 == id
                    &&& forall|j: int| 0 <= j < i ==> after.namespaces[j] == before.namespaces[j]
                    &&& forall|j: int|
                        i <= j < after.namespaces.len() ==> after.namespaces[j]
                            == before.namespaces[j + 1]
                }
        },
        after.outgoing == before.outgoing,
        after.subscribes == before.subscribes,
        after.names == before.names,
{
    if let Some(namespace) = r {
        let i = choose|i: int|
            {
                &&& 0 <= i < before.namespaces.len()
                &&& #[trigger] before.namespaces[i] == (namespace@, id)
                &&& forall|j: int| 0 <= j < i ==> (#[trigger] before.namespaces[j]).1 != id
                &&& after == (SubscriberView {
                    namespaces: before.namespaces.remove(i),
                    ..before
                })
            };
        assert(before.namespaces[i].0 == r->0@);
    }
}

/// An answer goes to what waits for it: a status request is over with it, the
/// outcome of an update is kept for the one who asked, and an answer that
/// nothing waits for changes nothing. Nothing waits for a second answer.
pub proof fn law_answers_are_given_once(
    before: SubscriberView,
    id: u64,
    result: Result<(), ServeError>,
)
    ensures
        ({
            let after = answered(before, id, result);
            &&& before.track_statuses.contains(id) ==> {
                &&& !after.track_statuses.contains(id)
                &&& after.pending_updates == before.pending_updates
                &&& after.update_results == before.update_results
                &&& shared_route(before, id) == AnswerRoute::TrackStatus
            }
            &&& !before.track_statuses.contains(id) && before.pending_updates.contains(id) ==> {
                &&& !after.pending_updates.contains(id)
                &&& after.update_results == before.update_results.push((id, result))
                &&& after.track_statuses == before.track_statuses
                &&& shared_route(before, id) == AnswerRoute::RequestUpdate
            }
            &&& !before.track_statuses.contains(id) && !before.pending_updates.contains(id)
                ==> after == before && shared_route(before, id) == AnswerRoute::Unknown
            &&& forall|other: u64|
                other != id ==> (#[trigger] after.track_statuses.contains(other)
                    == before.track_statuses.contains(other))
            &&& forall|other: u64|
                other != id ==> (#[trigger] after.pending_updates.contains(other)
                    == before.pending_updates.contains(other))
            &&& after.subscribes == before.subscribes
            &&& after.outgoing == before.outgoing
            &&& after.names == before.names
        }),
{
}

/// A refusal that belongs to no subscription goes to what else waits for it,
/// with the peer's code.
pub proof fn law_refusal_reaches_the_update(
    before: SubscriberView,
    after: SubscriberView,
    id: u64,
    error_code: u64,
    r: Result<AnswerRoute, SessionError>,
)
    requires
        request_error_received(before, after, id, error_code, r),
        !before.subscribes.dom().contains(id),
    ensures
        r is Ok,
        after.subscribes =~= before.subscribes,
        before.track_statuses.contains(id) ==> !after.track_statuses.contains(id) && r == Ok::<
            AnswerRoute,
            SessionError,
        >(AnswerRoute::TrackStatus),
        !before.track_statuses.contains(id) && before.pending_updates.contains(id) ==> {
            &&& r == Ok::<AnswerRoute, SessionError>(AnswerRoute::RequestUpdate)
            &&& after.update_results.len() == before.update_results.len() + 1
            &&& after.update_results.last().0 == id
            &&& after.update_results.last().1 == Err::<(), ServeError>(
                ServeError::Closed(error_code),
            )
        },
        !before.track_statuses.contains(id) && !before.pending_updates.contains(id) ==> r == Ok::<
            AnswerRoute,
            SessionError,
        >(AnswerRoute::Unknown) && after.update_results == before.update_results,
{
}

/// A stream that fails ends the subscription that its alias belongs to, with
/// the same error, and no other; a failure on a track of the peer's, or under an
/// alias that leads nowhere, ends none.
pub proof fn law_failed_stream_ends_its_subscription(
    before: SubscriberView,
    after: SubscriberView,
    track_alias: u64,
    err: ServeError,
    r: Result<(), SessionError>,
)
    requires
        stream_ended(before, after, track_alias, err, r),
    ensures
        before.publish_aliases.dom().contains(track_alias)
            || !before.subscribe_aliases.dom().contains(track_alias) ==> r is Ok && after == before,
        !before.publish_aliases.dom().contains(track_alias)
            && before.subscribe_aliases.dom().contains(track_alias) ==> {
            let id = before.subscribe_aliases[track_alias];
            &&& !after.subscribes.dom().contains(id)
            &&& before.subscribes.dom().contains(id) ==> {
                &&& after.ended.len() == before.ended.len() + 1
                &&& after.ended.last().0 == id
                &&& r is Ok ==> after.ended.last().1@.closed == Err::<(), ServeError>(err)
                &&& r is Err ==> after.ended.last().1@.closed == before.subscribes[id]@.closed
                &&& before.subscribes[id]@.closed is Ok && before.subscribes[id]@.live
                    && !before.subscribes[id]@.sink.writable ==> r is Ok
            }
            &&& !before.subscribes.dom().contains(id) ==> r is Ok && after.ended == before.ended
            &&& forall|other: u64|
                other != id && before.subscribes.dom().contains(other) ==> {
                    &&& #[trigger] after.subscribes.dom().contains(other)
                    &&& after.subscribes[other] == before.subscribes[other]
                }
        },
        after.published_tracks == before.published_tracks,
        after.outgoing == before.outgoing,
{
}

/// The alias of a track leads to one place: to the peer's track of that alias,
/// else to this side's subscription, else nowhere.
pub proof fn law_alias_leads_to_one_track(s: SubscriberView, alias: u64)
    ensures
        s.publish_aliases.dom().contains(alias) ==> s.binding(alias) == Some(
            AliasBinding::Publish(s.publish_aliases[alias]),
        ),
        !s.publish_aliases.dom().contains(alias) && s.subscribe_aliases.dom().contains(alias)
            ==> s.binding(alias) == Some(AliasBinding::Subscribe(s.subscribe_aliases[alias])),
        (s.binding(alias) is None) == !s.alias_bound(alias),
{
}

/// An object that was announced is recorded on the one track of its binding.
pub proof fn law_object_is_recorded_on_its_track(
    before: SubscriberView,
    after: SubscriberView,
    binding: AliasBinding,
    location: (u64, u64),
)
    requires
        object_recorded(before, after, binding, location),
    ensures
        match binding {
            AliasBinding::Subscribe(id) => {
                &&& after.published_tracks == before.published_tracks
                &&& forall|other: u64|
                    other != id && before.subscribes.dom().contains(other)
                        ==> #[trigger] after.subscribes[other] == before.subscribes[other]
                &&& before.subscribes.dom().contains(id) && before.subscribes[id]@.sink.mode
                    is Subgroups ==> {
                    let largest = (after.subscribes[id]@.sink.mode->Subgroups_0).largest;
                    &&& after.subscribes[id]@.sink.mode is Subgroups
                    &&& largest matches Some(l) && (location.0 < l.0 || (location.0 == l.0
                        && location.1 <= l.1))
                    &&& largest == (before.subscribes[id]@.sink.mode->Subgroups_0).largest
                        || largest == Some(location)
                    &&& after.subscribes[id]@.sink.created()
                        == before.subscribes[id]@.sink.created()
                }
            },
            AliasBinding::Publish(id) => {
                &&& after.subscribes == before.subscribes
                &&& forall|other: u64|
                    other != id && before.published_tracks.dom().contains(other)
                        ==> #[trigger] after.published_tracks[other]
                        == before.published_tracks[other]
                &&& before.published_tracks.dom().contains(id) && before.published_tracks[id].sink@.mode
                    is Subgroups ==> {
                    let largest = (after.published_tracks[id].sink@.mode->Subgroups_0).largest;
                    &&& after.published_tracks[id].sink@.mode is Subgroups
                    &&& largest matches Some(l) && (location.0 < l.0 || (location.0 == l.0
                        && location.1 <= l.1))
                    &&& largest == (before.published_tracks[id].sink@.mode->Subgroups_0).largest
                        || largest == Some(location)
                    &&& after.published_tracks[id].sink@.created()
                        == before.published_tracks[id].sink@.created()
                }
            },
        },
        after.names == before.names,
        after.outgoing == before.outgoing,
{
}

/// A datagram changes nothing but the track it goes to, and of that track only
/// what it carries: a subscription stays as it was answered, and a published
/// track as it was announced.
pub proof fn law_datagram_leaves_the_rest(
    before: SubscriberView,
    after: SubscriberView,
    datagram: ReceivedDatagram,
    r: Result<(), SessionError>,
)
    requires
        datagram_routed(before, after, datagram, r),
    ensures
        tracks_stand(before, after),
{
}

/// A stream of a subgroup changes nothing but the track it goes to, and of that
/// track only what it carries.
pub proof fn law_subgroup_leaves_the_rest(
    before: SubscriberView,
    after: SubscriberView,
    binding: AliasBinding,
    header: SubgroupHeader,
    r: Result<Subgroup, SessionError>,
)
    requires
        subgroup_routed(before, after, binding, header, r),
    ensures
        tracks_stand(before, after),
{
}

/// The same tracks, with what they carry at most changed, and everything else as
/// it was.
pub open spec fn tracks_stand(before: SubscriberView, after: SubscriberView) -> bool {
    &&& after.outgoing == before.outgoing
    &&& after.names == before.names
    &&& after.subscribe_aliases == before.subscribe_aliases
    &&& after.publish_aliases == before.publish_aliases
    &&& after.request_id == before.request_id
    &&& forall|id: u64|
        #[trigger] after.subscribes.dom().contains(id) == before.subscribes.dom().contains(id)
    &&& forall|id: u64|
        #[trigger] after.published_tracks.dom().contains(id)
            == before.published_tracks.dom().contains(id)
    &&& forall|id: u64|
        before.subscribes.dom().contains(id) ==> {
            let now = (#[trigger] after.subscribes[id])@;
            &&& now.ok == before.subscribes[id]@.ok
            &&& now.track_alias == before.subscribes[id]@.track_alias
            &&& now.closed == before.subscribes[id]@.closed
            &&& now.live == before.subscribes[id]@.live
        }
    &&& forall|id: u64|
        before.published_tracks.dom().contains(id) ==> {
            let now = #[trigger] after.published_tracks[id];
            &&& now.track_alias == before.published_tracks[id].track_alias
            &&& now.forward == before.published_tracks[id].forward
            &&& now.largest == before.published_tracks[id].largest
            &&& now.reader_taken == before.published_tracks[id].reader_taken
            &&& now.done == before.published_tracks[id].done
        }
}

} // verus!
