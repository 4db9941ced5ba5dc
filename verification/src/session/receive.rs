//! The objects of a subgroup, as they come on a stream of the peer.

use bytes::Bytes;
use vstd::prelude::*;

use super::subscribe::{SinkView, SubgroupHeader};
use super::subscriber::{
    forgets, object_recorded, subgroup_routed, AliasBinding, Subscriber, SubscriberView,
};
use super::SessionError;
use crate::kvp::{lookup, ExtensionHeaders, PairView};
use crate::serve::contents::{contents_grew, identities, TrackContents};
use crate::serve::object::{
    lemma_concat_push, released, ObjectStatus, ObjectView, SubgroupObjectWriter, SubgroupState,
    SubgroupView, SubgroupWriter,
};
use crate::serve::subgroup::Subgroup;
use crate::serve::ServeError;
use crate::wire::{bytes_len, bytes_view};

verus! {

/// What the type of a stream's header says of its objects.
#[derive(Copy, Clone, Debug, PartialEq, Eq)]
pub struct StreamHeaderType {
    pub is_subgroup: bool,
    pub has_extension_headers: bool,
    /// The subgroup is numbered by its first object.
    pub uses_first_object_id_as_subgroup_id: bool,
}

/// An object's header on the stream.
pub struct ObjectHeader {
    /// The distance from the object before, less one; for the first object, its
    /// number.
    pub object_id_delta: u64,
    pub payload_length: usize,
    pub status: Option<ObjectStatus>,
    pub extension_headers: Option<ExtensionHeaders>,
}

/// The number of an object, after the number of the one before it.
pub open spec fn object_number(previous: Option<u64>, delta: u64) -> Option<u64> {
    match previous {
        None => Some(delta),
        Some(p) => if p + delta + 1 > u64::MAX {
            None
        } else {
            Some((p + delta + 1) as u64)
        },
    }
}

/// Whether an object's header contradicts itself: an object that is not a
/// normal one carries no extension headers.
pub open spec fn header_invalid(object: ObjectHeader) -> bool {
    &&& object.status matches Some(s) && s != ObjectStatus::NormalObject
    &&& object.extension_headers matches Some(h) && h@.len() > 0
}

/// The stream of a subgroup, as it is read.
pub struct SubgroupReceiver {
    header_type: StreamHeaderType,
    header: SubgroupHeader,
    binding: AliasBinding,
    previous_object_id: Option<u64>,
    /// The subgroup's place in the contents of its track, and who writes it.
    group: Option<(usize, SubgroupWriter)>,
    object: Option<SubgroupObjectWriter>,
    remaining: usize,
}

/// What was read of a subgroup.
pub ghost struct ReceiverView {
    pub header_type: StreamHeaderType,
    pub header: SubgroupHeader,
    pub binding: AliasBinding,
    /// The number of the last object.
    pub previous: Option<u64>,
    /// The subgroup and its place in the contents of its track, once it is
    /// open.
    pub group: Option<(nat, Subgroup)>,
    /// The number that the next object gets locally.
    pub next_object: u64,
    /// How much of the last object is still to come.
    pub remaining: usize,
}

impl View for SubgroupReceiver {
    type V = ReceiverView;

    closed spec fn view(&self) -> ReceiverView {
        ReceiverView {
            header_type: self.header_type,
            header: self.header,
            binding: self.binding,
            previous: self.previous_object_id,
            group: match self.group {
                Some((place, writer)) => Some((place as nat, writer.spec_info())),
                None => None,
            },
            next_object: match self.group {
                Some((_, writer)) => writer.next_object(),
                None => 0,
            },
            remaining: self.remaining,
        }
    }
}

/// The header of a subgroup whose first object has a number.
pub open spec fn opened_header(
    header_type: StreamHeaderType,
    header: SubgroupHeader,
    object_id: u64,
) -> SubgroupHeader {
    if header_type.uses_first_object_id_as_subgroup_id {
        SubgroupHeader { subgroup_id: Some(object_id), ..header }
    } else {
        header
    }
}

/// An announced object of which nothing has come. There is nothing to come of
/// an empty one.
pub open spec fn announced(object_id: u64, object: ObjectHeader) -> ObjectView {
    ObjectView {
        object_id,
        size: object.payload_length,
        status: ObjectStatus::NormalObject,
        extension_headers: match object.extension_headers {
            Some(h) => h@,
            None => Seq::empty(),
        },
        chunks: Seq::empty(),
        closed: Ok(()),
        live: object.payload_length > 0,
    }
}

/// A subgroup whose last object changes.
pub open spec fn with_last(group: SubgroupView, object: ObjectView) -> SubgroupView {
    SubgroupView { objects: group.objects.drop_last().push(object), ..group }
}

/// The last object with one more chunk of it.
pub open spec fn with_chunk(object: ObjectView, chunk: Seq<u8>, remaining: usize) -> ObjectView {
    ObjectView { chunks: object.chunks.push(chunk), live: remaining > 0, ..object }
}

/// A subgroup whose stream is over, with this much of its last object still to
/// come.
pub open spec fn finished(group: SubgroupView, remaining: usize) -> SubgroupView {
    if remaining > 0 {
        let short = with_last(group, released(group.objects.last(), remaining));
        SubgroupView { live: false, ..short }
    } else {
        SubgroupView { live: false, ..group }
    }
}

/// The first object of a subgroup: the subgroup is opened on its track, and the
/// object announced there.
pub open spec fn first_announced(
    before: SubscriberView,
    after: SubscriberView,
    binding: AliasBinding,
    header: SubgroupHeader,
    r: Result<(), SessionError>,
) -> bool {
    exists|mid: SubscriberView, opened: Result<Subgroup, SessionError>|
        {
            &&& #[trigger] subgroup_routed(before, mid, binding, header, opened)
            &&& forgets(r, opened)
            &&& r is Ok ==> object_recorded(mid, after, binding, (header.group_id, 0))
            &&& r is Err ==> after == mid
        }
}

/// The subgroups that the track of a binding has created, where there is such a
/// track.
pub open spec fn track_created(subscriber: SubscriberView, binding: AliasBinding) -> Option<
    Seq<Subgroup>,
> {
    match binding {
        AliasBinding::Subscribe(id) => if subscriber.subscribes.dom().contains(id) {
            Some(subscriber.subscribes[id]@.sink.created())
        } else {
            None
        },
        AliasBinding::Publish(id) => if subscriber.published_tracks.dom().contains(id) {
            Some(subscriber.published_tracks[id].sink@.created())
        } else {
            None
        },
    }
}

/// These are the contents of the track of a binding: at every place stands what
/// was received of the subgroup that the track created there.
pub open spec fn carried(
    subscriber: SubscriberView,
    binding: AliasBinding,
    contents: TrackContents,
) -> bool {
    &&& contents.wf()
    &&& track_created(subscriber, binding) matches Some(created) ==> contents.belong(created)
}

/// What an object's header comes to: the object is numbered, the subgroup opened
/// with the first one, and the object announced on it.
pub open spec fn object_received(
    before: ReceiverView,
    after: ReceiverView,
    subscriber: (SubscriberView, SubscriberView),
    contents: TrackContents,
    now: Seq<SubgroupView>,
    object: ObjectHeader,
    r: Result<(), SessionError>,
) -> bool {
    let number = object_number(before.previous, object.object_id_delta);
    if number is None {
        &&& r == Err::<(), SessionError>(SessionError::ObjectIdOverflow)
        &&& after == before
        &&& subscriber.1 == subscriber.0
        &&& now == contents@
    } else if header_invalid(object) {
        &&& r == Err::<(), SessionError>(SessionError::StatusWithExtensionHeaders)
        &&& after == (ReceiverView { previous: number, ..before })
        &&& subscriber.1 == subscriber.0
        &&& now == contents@
    } else {
        match before.group {
            None => {
                let header = opened_header(
                    before.header_type,
                    before.header,
                    number->0,
                );
                let info = header.spec_subgroup();
                &&& first_announced(
                    subscriber.0,
                    subscriber.1,
                    before.binding,
                    header,
                    r,
                )
                &&& r is Ok ==> {
                    &&& after == (ReceiverView {
                        header,
                        previous: number,
                        group: Some((contents@.len(), info)),
                        next_object: 1,
                        remaining: object.payload_length,
                        ..before
                    })
                    &&& now == contents@.push(
                        SubgroupView {
                            objects: seq![announced(0, object)],
                            ..SubgroupView::fresh(info)
                        },
                    )
                }
                &&& r is Err ==> {
                    &&& after == (ReceiverView { header, previous: number, ..before })
                    &&& now == contents@
                }
            },
            Some((place, _)) => {
                let group = contents@[place as int];
                if contents.keeps(place as int) && group.live {
                    &&& r == Ok::<(), SessionError>(())
                    &&& object_recorded(
                        subscriber.0,
                        subscriber.1,
                        before.binding,
                        (before.header.group_id, before.next_object),
                    )
                    &&& after == (ReceiverView {
                        previous: number,
                        next_object: (before.next_object + 1) as u64,
                        remaining: object.payload_length,
                        ..before
                    })
                    &&& now == contents@.update(
                        place as int,
                        SubgroupView {
                            objects: group.objects.push(
                                announced(before.next_object, object),
                            ),
                            ..group
                        },
                    )
                } else {
                    &&& r == Err::<(), SessionError>(
                        SessionError::Serve(ServeError::Cancel),
                    )
                    &&& subscriber.1 == subscriber.0
                    &&& after == (ReceiverView {
                        previous: number,
                        next_object: (before.next_object + 1) as u64,
                        ..before
                    })
                    &&& now == contents@
                }
            },
        }
    }
}

/// What a chunk of the last object comes to, or the end of the stream within it.
pub open spec fn chunk_received(
    before: ReceiverView,
    after: ReceiverView,
    contents: TrackContents,
    now: Seq<SubgroupView>,
    chunk: Option<Seq<u8>>,
    r: Result<(), SessionError>,
) -> bool {
    let place = (before.group->0).0 as int;
    let group = contents@[place];
    let last = group.objects.last();
    let kept = contents.keeps(place);
    &&& before.group is Some && group.objects.len() > 0
    &&& match chunk {
        None => {
            &&& r == Err::<(), SessionError>(SessionError::WrongSize)
            &&& after == (ReceiverView { remaining: 0, ..before })
            &&& now == if kept {
                contents@.update(
                    place,
                    with_last(group, released(last, before.remaining)),
                )
            } else {
                contents@
            }
        },
        Some(b) => if kept && last.live {
            let left = (before.remaining - b.len()) as usize;
            &&& r == Ok::<(), SessionError>(())
            &&& after == (ReceiverView { remaining: left, ..before })
            &&& now == contents@.update(
                place,
                with_last(group, with_chunk(last, b, left)),
            )
            &&& left == 0 ==> with_chunk(last, b, left).payload().len()
                == last.size
        } else {
            &&& r == Err::<(), SessionError>(SessionError::Serve(ServeError::Cancel))
            &&& after == (ReceiverView { remaining: 0, ..before })
            &&& now == contents@
        },
    }
}

/// What the end of a stream leaves in the contents of its track.
pub open spec fn stream_left(
    receiver: ReceiverView,
    contents: TrackContents,
    now: Seq<SubgroupView>,
) -> bool {
    now == match receiver.group {
        Some((place, _)) if contents.keeps(place as int) => contents@.update(
            place as int,
            finished(contents@[place as int], receiver.remaining),
        ),
        _ => contents@,
    }
}

impl SubgroupReceiver {
    /// What every operation keeps.
    pub closed spec fn wf(&self, contents: &TrackContents) -> bool {
        &&& contents.wf()
        &&& (self.object is Some) == (self.remaining > 0)
        &&& self.group matches Some((place, writer)) ==> {
            &&& place < contents@.len()
            &&& contents@[place as int].info == writer.spec_info()
            &&& writer.spec_info().group_id == self.header.group_id
        }
        &&& self.object matches Some(w) ==> {
            &&& w.remain() == self.remaining
            &&& self.group matches Some((place, _))
            &&& contents@[place as int].objects.len() > 0
            &&& w.writes(contents@[place as int].objects.last())
            &&& contents@[place as int].objects.last().closed == Ok::<(), ServeError>(())
        }
    }

    /// A stream whose header was read. Only streams of subgroups are known, and
    /// the header's alias must be bound.
    pub fn new(
        header_type: StreamHeaderType,
        header: Option<SubgroupHeader>,
        binding: Option<AliasBinding>,
    ) -> (r: Result<Self, SessionError>)
        ensures
            if !header_type.is_subgroup {
                r matches Err(e) && e == SessionError::Unimplemented
            } else if header is None {
                r matches Err(e) && e == SessionError::Internal
            } else if binding is None {
                r matches Err(e) && e == SessionError::Serve(ServeError::NotFound)
            } else {
                &&& r matches Ok(x)
                &&& forall|contents: TrackContents| #[trigger]
                    contents.wf() ==> x.wf(&contents)
                &&& x@ == (ReceiverView {
                    header_type,
                    header: header->0,
                    binding: binding->0,
                    previous: None,
                    group: None,
                    next_object: 0,
                    remaining: 0,
                })
            },
    {
        if !header_type.is_subgroup {
            return Err(SessionError::Unimplemented);
        }
        let header: SubgroupHeader = match header {
            Some(h) => h,
            None => {
                return Err(SessionError::Internal);
            },
        };
        let binding: AliasBinding = match binding {
            Some(b) => b,
            None => {
                return Err(SessionError::Serve(ServeError::NotFound));
            },
        };
        Ok(
            SubgroupReceiver {
                header_type,
                header,
                binding,
                previous_object_id: None,
                group: None,
                object: None,
                remaining: 0,
            },
        )
    }

    /// An object's header comes: the object is numbered, the subgroup opened
    /// with the first one, and the object announced on it.
    pub fn recv_object(
        &mut self,
        subscriber: &mut Subscriber,
        contents: &mut TrackContents,
        object: ObjectHeader,
    ) -> (r: Result<(), SessionError>)
        requires
            old(self).wf(old(contents)),
            old(self)@.remaining == 0,
            old(self)@.next_object < u64::MAX,
            old(self)@.group matches Some((place, _)) ==> old(contents)@[place as int].objects.len()
                < usize::MAX,
            old(subscriber).wf(),
            old(subscriber).room(),
            carried(old(subscriber)@, old(self)@.binding, *old(contents)),
        ensures
            final(self).wf(final(contents)),
            final(subscriber).wf(),
            carried(final(subscriber)@, final(self)@.binding, *final(contents)),
            final(contents).base() == old(contents).base(),
            contents_grew(old(contents)@, final(contents)@),
            object_received(
                old(self)@,
                final(self)@,
                (old(subscriber)@, final(subscriber)@),
                *old(contents),
                final(contents)@,
                object,
                r,
            ),
    {
        let number: u64 = match self.previous_object_id {
            None => object.object_id_delta,
            Some(p) => match p.checked_add(object.object_id_delta) {
                None => {
                    return Err(SessionError::ObjectIdOverflow);
                },
                Some(sum) => match sum.checked_add(1) {
                    None => {
                        return Err(SessionError::ObjectIdOverflow);
                    },
                    Some(n) => n,
                },
            },
        };
        self.previous_object_id = Some(number);
        let abnormal: bool = match object.status {
            Some(s) => s != ObjectStatus::NormalObject,
            None => false,
        };
        let carries: bool = match &object.extension_headers {
            Some(h) => !h.is_empty(),
            None => false,
        };
        if abnormal && carries {
            return Err(SessionError::StatusWithExtensionHeaders);
        }
        if self.group.is_none() {
            if self.header_type.uses_first_object_id_as_subgroup_id {
                self.header.subgroup_id = Some(number);
            }
            proof {
                assert(identities(contents@).len() == contents@.len());
            }
            let routed: Result<Subgroup, SessionError> = subscriber.open_subgroup(
                self.binding,
                self.header,
            );
            assert(subgroup_routed(
                old(subscriber)@,
                subscriber@,
                self.binding,
                self.header,
                routed,
            ));
            match routed {
                Err(e) => {
                    return Err(e);
                },
                Ok(subgroup) => {
                    assert(subgroup == self.header.spec_subgroup());
                    let place: usize = contents.len();
                    let writer: SubgroupWriter = contents.open(subgroup);
                    self.group = Some((place, writer));
                    assert(identities(contents@) =~= identities(old(contents)@).push(subgroup));
                },
            }
        }
        match self.group.take() {
            None => {
                assert(false);
                Ok(())
            },
            Some((place, writer)) => {
                let mut writer = writer;
                let ghost mid = contents@;
                let ghost before = mid[place as int].objects;
                let location: (u64, u64) = (self.header.group_id, writer.next_object_id());
                if place < contents.given_up() {
                    writer.skip();
                    self.group = Some((place, writer));
                    return Err(SessionError::Serve(ServeError::Cancel));
                }
                let mut mark: Option<(u64, u64)> = None;
                let state: &mut SubgroupState = contents.group_mut(place);
                let r: Result<SubgroupObjectWriter, ServeError> = writer.create(
                    state,
                    &mut mark,
                    object.payload_length,
                    object.extension_headers,
                );
                match r {
                    Ok(w) => {
                        if object.payload_length == 0 {
                            let last: usize = state.len() - 1;
                            writer.release_object(state, last, w);
                            self.object = None;
                        } else {
                            self.object = Some(w);
                        }
                        subscriber.record_object(self.binding, location);
                        self.remaining = object.payload_length;
                        self.group = Some((place, writer));
                        proof {
                            let added = announced(location.1, object);
                            assert(contents@[place as int].objects =~= before.push(added));
                            assert(identities(contents@) =~= identities(mid));
                            if old(self)@.group is None {
                                assert(before.push(added) =~= seq![added]);
                                assert(contents@ =~= old(contents)@.push(
                                    SubgroupView {
                                        objects: seq![added],
                                        ..SubgroupView::fresh(self.header.spec_subgroup())
                                    },
                                ));
                            }
                        }
                        Ok(())
                    },
                    Err(e) => {
                        self.group = Some((place, writer));
                        assert(contents@ =~= mid);
                        Err(SessionError::Serve(e))
                    },
                }
            },
        }
    }

    /// A chunk of the last object comes, or the stream ends within it. With its
    /// last chunk the object is whole; one that stays short is closed for it.
    pub fn recv_chunk(&mut self, contents: &mut TrackContents, chunk: Option<Bytes>) -> (r: Result<
        (),
        SessionError,
    >)
        requires
            old(self).wf(old(contents)),
            old(self)@.remaining > 0,
            chunk matches Some(b) ==> bytes_view(b).len() <= old(self)@.remaining,
        ensures
            final(self).wf(final(contents)),
            final(contents).base() == old(contents).base(),
            contents_grew(old(contents)@, final(contents)@),
            chunk_received(
                old(self)@,
                final(self)@,
                *old(contents),
                final(contents)@,
                match chunk {
                    Some(b) => Some(bytes_view(b)),
                    None => None,
                },
                r,
            ),
    {
        match (self.group.take(), self.object.take()) {
            (Some((place, writer)), Some(object)) => {
                let mut writer = writer;
                let mut object = object;
                let ghost all = contents@;
                let ghost before = contents@[place as int];
                let ghost o = before.objects.last();
                let ghost remaining = self.remaining;
                if place < contents.given_up() {
                    self.group = Some((place, writer));
                    self.remaining = 0;
                    return match chunk {
                        None => Err(SessionError::WrongSize),
                        Some(_) => Err(SessionError::Serve(ServeError::Cancel)),
                    };
                }
                let state: &mut SubgroupState = contents.group_mut(place);
                let last: usize = state.len() - 1;
                let chunk: Bytes = match chunk {
                    Some(b) => b,
                    None => {
                        writer.release_object(state, last, object);
                        self.group = Some((place, writer));
                        self.remaining = 0;
                        assert(contents@[place as int].objects =~= with_last(
                            before,
                            released(o, remaining),
                        ).objects);
                        return Err(SessionError::WrongSize);
                    },
                };
                let n: usize = bytes_len(&chunk);
                let ghost bytes = bytes_view(chunk);
                let r: Result<(), ServeError> = writer.write_chunk(
                    state,
                    last,
                    &mut object,
                    chunk,
                );
                self.remaining = self.remaining - n;
                match r {
                    Ok(()) => {
                        proof {
                            lemma_concat_push(o.chunks, bytes);
                        }
                        if self.remaining == 0 {
                            writer.release_object(state, last, object);
                        } else {
                            self.object = Some(object);
                        }
                        self.group = Some((place, writer));
                        assert(contents@[place as int].objects =~= with_last(
                            before,
                            with_chunk(o, bytes, self.remaining),
                        ).objects);
                        Ok(())
                    },
                    Err(e) => {
                        writer.release_object(state, last, object);
                        self.group = Some((place, writer));
                        self.remaining = 0;
                        assert(contents@[place as int].objects =~= before.objects);
                        assert(contents@ =~= all);
                        Err(SessionError::Serve(e))
                    },
                }
            },
            _ => {
                assert(false);
                Ok(())
            },
        }
    }

    /// The stream is over. What was read of it stays for those who read the
    /// track; an object that stays short is closed for it.
    pub fn finish(self, contents: &mut TrackContents)
        requires
            self.wf(old(contents)),
        ensures
            final(contents).wf(),
            final(contents).base() == old(contents).base(),
            contents_grew(old(contents)@, final(contents)@),
            stream_left(self@, *old(contents), final(contents)@),
    {
        let ghost remaining = self.remaining;
        if let Some((place, writer)) = self.group {
            if place < contents.given_up() {
                return;
            }
            let mut writer = writer;
            let ghost before = contents@[place as int];
            let state: &mut SubgroupState = contents.group_mut(place);
            if let Some(object) = self.object {
                let last: usize = state.len() - 1;
                writer.release_object(state, last, object);
            }
            state.drop_side();
            assert(contents@[place as int].objects =~= finished(before, remaining).objects);
        }
    }

    /// The subgroup's place in the contents of its track, once it is open.
    pub fn place(&self) -> (r: Option<usize>)
        ensures
            match r {
                Some(place) => self@.group matches Some((p, _)) && p == place,
                None => self@.group is None,
            },
    {
        match &self.group {
            Some((place, _)) => Some(*place),
            None => None,
        }
    }

    /// How much of the last object is still to come.
    pub fn remaining(&self) -> (n: usize)
        ensures
            n == self@.remaining,
    {
        self.remaining
    }
}

/// What a subscription's track hands to its readers is what was received: at the
/// place of every subgroup that it has created stand the objects that came for
/// that subgroup, and these are what draining the track reads.
pub proof fn law_track_holds_what_was_received(
    subscriber: SubscriberView,
    id: u64,
    contents: TrackContents,
    i: int,
)
    requires
        subscriber.subscribes.dom().contains(id),
        carried(subscriber, AliasBinding::Subscribe(id), contents),
        subscriber.subscribes[id].sink.mode is Subgroups,
        0 <= i < subscriber.subscribes[id]@.sink.created().len(),
    ensures
        contents@.len() == subscriber.subscribes[id]@.sink.created().len(),
        contents@[i].info == subscriber.subscribes[id]@.sink.created()[i],
        contents.base() == 0 ==> contents.of(
            &subscriber.subscribes[id].sink.mode->Subgroups_state,
        ),
{
    crate::serve::contents::law_contents_stand_by_identity(
        contents,
        subscriber.subscribes[id]@.sink.created(),
        i,
    );
}

/// Whoever reads a stream is not disturbed by what happens to the rest of its
/// track: by other streams, whose subgroups have other places, and by what is
/// given up.
pub proof fn law_streams_do_not_disturb_each_other(
    receiver: SubgroupReceiver,
    before: TrackContents,
    after: TrackContents,
)
    requires
        receiver.wf(&before),
        after.wf(),
        before@.len() <= after@.len(),
        receiver@.group matches Some((place, _)) ==> after@[place as int] == before@[place as int],
    ensures
        receiver.wf(&after),
{
}

/// An object is what its chunks make up, in the order they came.
pub proof fn law_chunks_add_up(object: ObjectView, chunk: Seq<u8>, remaining: usize)
    ensures
        with_chunk(object, chunk, remaining).payload() == object.payload() + chunk,
{
    lemma_concat_push(object.chunks, chunk);
}

/// The numbers of a subgroup's objects ascend.
pub proof fn law_object_numbers_ascend(previous: u64, delta: u64)
    ensures
        object_number(Some(previous), delta) matches Some(n) ==> n > previous,
{
}

/// An object whose header was taken stands as the last of its subgroup, as it
/// was announced: with the size and exactly the extension headers of the header,
/// so that looking any type up gives what it gives in the header, and with
/// nothing of its payload yet. The objects before it and all other subgroups
/// stay as they were.
pub proof fn law_object_stands_as_announced(
    before: ReceiverView,
    after: ReceiverView,
    subscriber: (SubscriberView, SubscriberView),
    contents: TrackContents,
    now: Seq<SubgroupView>,
    object: ObjectHeader,
    r: Result<(), SessionError>,
)
    requires
        object_received(before, after, subscriber, contents, now, object, r),
        r is Ok,
        before.group matches Some((place, _)) ==> place < contents@.len(),
        before.next_object < u64::MAX,
    ensures
        after.group is Some,
        ({
            let place = (after.group->0).0 as int;
            let group = now[place];
            let stored = group.objects.last();
            &&& 0 <= place < now.len()
            &&& group.objects.len() > 0
            &&& object.extension_headers matches Some(h) ==> stored.extension_headers == h@
            &&& object.extension_headers is None ==> stored.extension_headers.len() == 0
            &&& forall|key: u64| #[trigger]
                lookup(stored.extension_headers, key) == (match object.extension_headers {
                    Some(h) => lookup(h@, key),
                    None => None,
                })
            &&& stored.size == object.payload_length
            &&& stored.status == ObjectStatus::NormalObject
            &&& stored.chunks.len() == 0
            &&& stored.payload().len() == 0
            &&& stored.closed == Ok::<(), ServeError>(())
            &&& stored.live == (object.payload_length > 0)
            &&& after.next_object == stored.object_id + 1
            &&& after.remaining == object.payload_length
            &&& before.group is None ==> {
                &&& place == contents@.len()
                &&& now.len() == contents@.len() + 1
                &&& group.objects.len() == 1
                &&& stored.object_id == 0
            }
            &&& before.group is Some ==> {
                &&& after.group == before.group
                &&& now.len() == contents@.len()
                &&& stored.object_id == before.next_object
                &&& group.objects.drop_last() == contents@[place].objects
                &&& group.info == contents@[place].info
                &&& group.closed == contents@[place].closed
                &&& group.live == contents@[place].live
            }
            &&& forall|i: int|
                0 <= i < contents@.len() && i != place ==> #[trigger] now[i] == contents@[i]
        }),
        match before.previous {
            None => after.previous == Some(object.object_id_delta),
            Some(p) => after.previous matches Some(n) && n == p + object.object_id_delta + 1,
        },
        after.binding == before.binding,
        after.header_type == before.header_type,
{
    let place = (after.group->0).0 as int;
    let group = now[place];
    if before.group is Some {
        assert(group.objects.drop_last() =~= contents@[place].objects);
    }
    assert forall|key: u64| #[trigger]
        lookup(group.objects.last().extension_headers, key) == (match object.extension_headers {
            Some(h) => lookup(h@, key),
            None => None,
        }) by {
        assert(lookup(Seq::<PairView>::empty(), key) is None);
    }
}

/// The first object of a stream opens the subgroup that the stream's header
/// names: in the header's group, at its priority, and under its number, which is
/// that of the object where the header says so, and zero where it says nothing.
pub proof fn law_first_object_opens_its_subgroup(
    before: ReceiverView,
    after: ReceiverView,
    subscriber: (SubscriberView, SubscriberView),
    contents: TrackContents,
    now: Seq<SubgroupView>,
    object: ObjectHeader,
    r: Result<(), SessionError>,
)
    requires
        object_received(before, after, subscriber, contents, now, object, r),
        r is Ok,
        before.group is None,
    ensures
        ({
            let opened = now.last();
            &&& now.len() == contents@.len() + 1
            &&& after.group == Some((contents@.len(), opened.info))
            &&& opened.info.group_id == before.header.group_id
            &&& opened.info.priority == before.header.publisher_priority
            &&& opened.closed == Ok::<(), ServeError>(())
            &&& opened.live
            &&& before.header_type.uses_first_object_id_as_subgroup_id ==> after.previous == Some(
                opened.info.subgroup_id,
            )
            &&& !before.header_type.uses_first_object_id_as_subgroup_id ==> {
                &&& before.header.subgroup_id matches Some(n) ==> opened.info.subgroup_id == n
                &&& before.header.subgroup_id is None ==> opened.info.subgroup_id == 0
            }
        }),
{
}

/// An object is refused for its header exactly where its number leaves the
/// range, and else where it is no normal one and carries extension headers. A
/// refused object changes no contents.
pub proof fn law_bad_headers_are_refused(
    before: ReceiverView,
    after: ReceiverView,
    subscriber: (SubscriberView, SubscriberView),
    contents: TrackContents,
    now: Seq<SubgroupView>,
    object: ObjectHeader,
    r: Result<(), SessionError>,
)
    requires
        object_received(before, after, subscriber, contents, now, object, r),
    ensures
        ({
            let overflow = before.previous matches Some(p) && p + object.object_id_delta + 1
                > 0xffff_ffff_ffff_ffff;
            let contradiction = (object.status == Some(ObjectStatus::EndOfGroup) || object.status
                == Some(ObjectStatus::EndOfTrack)) && (object.extension_headers matches Some(h)
                && h@.len() > 0);
            &&& overflow ==> r == Err::<(), SessionError>(SessionError::ObjectIdOverflow) && after
                == before
            &&& !overflow && contradiction ==> r == Err::<(), SessionError>(
                SessionError::StatusWithExtensionHeaders,
            )
            &&& !overflow && !contradiction && before.group is Some ==> r is Ok || r == Err::<
                (),
                SessionError,
            >(SessionError::Serve(ServeError::Cancel))
            &&& (overflow || contradiction) ==> subscriber.1 == subscriber.0
        }),
        r is Err ==> now == contents@ && after.remaining == before.remaining && after.group
            == before.group,
{
}

/// A stream whose subgroup is kept and read takes every object whose header is
/// in order; one whose subgroup was given up, or that nobody reads, takes none.
pub proof fn law_open_stream_takes_every_object(
    before: ReceiverView,
    after: ReceiverView,
    subscriber: (SubscriberView, SubscriberView),
    contents: TrackContents,
    now: Seq<SubgroupView>,
    object: ObjectHeader,
    r: Result<(), SessionError>,
)
    requires
        object_received(before, after, subscriber, contents, now, object, r),
        before.group matches Some((place, _)) && place < contents@.len(),
        before.previous matches Some(p) ==> p + object.object_id_delta + 1 <= 0xffff_ffff_ffff_ffff,
        object.status is None || object.status == Some(ObjectStatus::NormalObject)
            || object.extension_headers is None || object.extension_headers->0@.len() == 0,
    ensures
        ({
            let place = (before.group->0).0 as int;
            (r is Ok) == (contents.base() <= place && contents@[place].live)
        }),
{
}

/// A chunk that was taken is appended, byte for byte, to what has come of the
/// last object of the stream's subgroup, and that much less is still to come.
/// Nothing else changes but that nobody waits for an object that is whole.
pub proof fn law_chunk_is_appended(
    before: ReceiverView,
    after: ReceiverView,
    contents: TrackContents,
    now: Seq<SubgroupView>,
    chunk: Seq<u8>,
    r: Result<(), SessionError>,
)
    requires
        chunk_received(before, after, contents, now, Some(chunk), r),
        before.group matches Some((place, _)) && place < contents@.len()
            && contents@[place as int].objects.len() > 0,
        chunk.len() <= before.remaining,
    ensures
        ({
            let place = (before.group->0).0 as int;
            let last = contents@[place].objects.last();
            (r is Ok) == (contents.base() <= place && last.live)
        }),
        r is Err ==> {
            &&& r == Err::<(), SessionError>(SessionError::Serve(ServeError::Cancel))
            &&& now == contents@
            &&& after.remaining == 0
        },
        r is Ok ==> {
            let place = (before.group->0).0 as int;
            let group = contents@[place];
            let last = group.objects.last();
            let grown = now[place].objects.last();
            &&& after.group == before.group
            &&& after.remaining == before.remaining - chunk.len()
            &&& after.next_object == before.next_object
            &&& after.previous == before.previous
            &&& now.len() == contents@.len()
            &&& now[place].objects.len() == group.objects.len()
            &&& now[place].objects.drop_last() == group.objects.drop_last()
            &&& now[place].info == group.info
            &&& now[place].closed == group.closed
            &&& now[place].live == group.live
            &&& grown.payload() == last.payload() + chunk
            &&& grown.object_id == last.object_id
            &&& grown.size == last.size
            &&& grown.status == last.status
            &&& grown.extension_headers == last.extension_headers
            &&& grown.closed == last.closed
            &&& grown.live == (after.remaining > 0)
            &&& forall|i: int|
                0 <= i < contents@.len() && i != place ==> #[trigger] now[i] == contents@[i]
        },
{
    let place = (before.group->0).0 as int;
    let group = contents@[place];
    lemma_concat_push(group.objects.last().chunks, chunk);
    if r is Ok {
        assert(now[place].objects.drop_last() =~= group.objects.drop_last());
    }
}

/// A stream that ends within an object is an error, and the object, where it is
/// still kept and read, is closed for its size: it keeps what has come, and
/// nothing more will.
pub proof fn law_short_object_is_closed(
    before: ReceiverView,
    after: ReceiverView,
    contents: TrackContents,
    now: Seq<SubgroupView>,
    r: Result<(), SessionError>,
)
    requires
        chunk_received(before, after, contents, now, None, r),
        before.group matches Some((place, _)) && place < contents@.len()
            && contents@[place as int].objects.len() > 0,
        before.remaining > 0,
    ensures
        r == Err::<(), SessionError>(SessionError::WrongSize),
        after.remaining == 0,
        after.group == before.group,
        ({
            let place = (before.group->0).0 as int;
            let group = contents@[place];
            let last = group.objects.last();
            let short = now[place].objects.last();
            &&& now.len() == contents@.len()
            &&& contents.base() <= place ==> {
                &&& now[place].objects.len() == group.objects.len()
                &&& now[place].objects.drop_last() == group.objects.drop_last()
                &&& now[place].info == group.info
                &&& now[place].live == group.live
                &&& short.payload() == last.payload()
                &&& short.object_id == last.object_id
                &&& short.size == last.size
                &&& short.extension_headers == last.extension_headers
                &&& last.live ==> short.closed == Err::<(), ServeError>(ServeError::Size)
                &&& !last.live ==> short.closed == last.closed
                &&& !short.live
            }
            &&& contents.base() > place ==> now == contents@
            &&& forall|i: int|
                0 <= i < contents@.len() && i != place ==> #[trigger] now[i] == contents@[i]
        }),
{
    let place = (before.group->0).0 as int;
    if contents.base() <= place {
        assert(now[place].objects.drop_last() =~= contents@[place].objects.drop_last());
    }
}

/// When a stream is over, nothing more is written on its subgroup, and every
/// object stays as it was, but for one that is short: that one is closed for its
/// size where somebody still reads it.
pub proof fn law_finished_stream_keeps_its_objects(
    receiver: ReceiverView,
    contents: TrackContents,
    now: Seq<SubgroupView>,
)
    requires
        stream_left(receiver, contents, now),
        receiver.group matches Some((place, _)) ==> place < contents@.len(),
        receiver.remaining > 0 ==> receiver.group is Some && contents@[(
        receiver.group->0).0 as int].objects.len() > 0,
    ensures
        now.len() == contents@.len(),
        receiver.group is None ==> now == contents@,
        receiver.group matches Some((place, _)) ==> {
            let place = place as int;
            let group = contents@[place];
            &&& forall|i: int|
                0 <= i < contents@.len() && i != place ==> #[trigger] now[i] == contents@[i]
            &&& now[place].info == group.info
            &&& now[place].closed == group.closed
            &&& now[place].objects.len() == group.objects.len()
            &&& contents.base() <= place ==> !now[place].live
            &&& contents.base() > place ==> now[place] == group
            &&& forall|j: int|
                0 <= j < group.objects.len() ==> {
                    &&& (#[trigger] now[place].objects[j]).payload() == group.objects[j].payload()
                    &&& now[place].objects[j].object_id == group.objects[j].object_id
                    &&& now[place].objects[j].size == group.objects[j].size
                    &&& now[place].objects[j].extension_headers
                        == group.objects[j].extension_headers
                    &&& receiver.remaining == 0 || j < group.objects.len() - 1
                        || contents.base() > place ==> now[place].objects[j] == group.objects[j]
                }
            &&& receiver.remaining > 0 && contents.base() <= place ==> {
                let last = group.objects.last();
                let short = now[place].objects.last();
                &&& !short.live
                &&& last.live ==> short.closed == Err::<(), ServeError>(ServeError::Size)
                &&& !last.live ==> short.closed == last.closed
            }
        },
{
}

/// What the track of a binding holds, where there is such a track.
pub open spec fn bound_sink(subscriber: SubscriberView, binding: AliasBinding) -> Option<
    SinkView,
> {
    match binding {
        AliasBinding::Subscribe(id) => if subscriber.subscribes.dom().contains(id) {
            Some(subscriber.subscribes[id]@.sink)
        } else {
            None
        },
        AliasBinding::Publish(id) => if subscriber.published_tracks.dom().contains(id) {
            Some(subscriber.published_tracks[id].sink@)
        } else {
            None
        },
    }
}

/// The first object of a stream opens a subgroup on the track that the stream is
/// bound to, with the header's group and priority, and is recorded as the first
/// of that group. A track that nothing was written on takes it; where there is
/// no track any more, or the track refuses, nothing is opened.
pub proof fn law_first_object_reaches_its_track(
    before: SubscriberView,
    after: SubscriberView,
    binding: AliasBinding,
    header: SubgroupHeader,
    r: Result<(), SessionError>,
)
    requires
        first_announced(before, after, binding, header, r),
    ensures
        bound_sink(before, binding) is None ==> r == Err::<(), SessionError>(
            SessionError::Serve(ServeError::NotFound),
        ) && after == before,
        bound_sink(before, binding) matches Some(sink) ==> {
            &&& bound_sink(after, binding) matches Some(now)
            &&& sink == SinkView::fresh() ==> r is Ok
            &&& !sink.writable ==> r == Err::<(), SessionError>(
                SessionError::Serve(ServeError::Done),
            )
            &&& r is Err ==> now.created() == sink.created()
            &&& r is Ok ==> {
                let s = now.created().last();
                &&& now.created().len() == sink.created().len() + 1
                &&& now.created().drop_last() == sink.created()
                &&& s.group_id == header.group_id
                &&& s.priority == header.publisher_priority
                &&& header.subgroup_id matches Some(n) ==> s.subgroup_id == n
                &&& header.subgroup_id is None ==> s.subgroup_id == 0
                &&& now.mode is Subgroups
                &&& (now.mode->Subgroups_0).largest is Some
                &&& ((now.mode->Subgroups_0).largest->0).0 >= header.group_id
            }
        },
{
    let (mid, opened) = choose|mid: SubscriberView, opened: Result<Subgroup, SessionError>|
        {
            &&& #[trigger] subgroup_routed(before, mid, binding, header, opened)
            &&& forgets(r, opened)
            &&& r is Ok ==> object_recorded(mid, after, binding, (header.group_id, 0))
            &&& r is Err ==> after == mid
        };
    crate::session::subscriber::law_subgroup_reaches_its_track(
        before,
        mid,
        binding,
        header,
        opened,
    );
    if r is Ok {
        crate::session::subscriber::law_object_is_recorded_on_its_track(
            mid,
            after,
            binding,
            (header.group_id, 0),
        );
        if let Some(sink) = bound_sink(before, binding) {
            let pushed = sink.created().push(opened->Ok_0);
            assert(pushed.drop_last() =~= sink.created());
        }
    }
}

/// An object that follows is recorded on the track that its stream is bound to,
/// at its group and number; one that is refused for its header, or that nobody
/// reads, leaves every track as it was.
pub proof fn law_following_object_is_recorded(
    before: ReceiverView,
    after: ReceiverView,
    subscriber: (SubscriberView, SubscriberView),
    contents: TrackContents,
    now: Seq<SubgroupView>,
    object: ObjectHeader,
    r: Result<(), SessionError>,
)
    requires
        object_received(before, after, subscriber, contents, now, object, r),
        before.group is Some,
    ensures
        r is Err ==> subscriber.1 == subscriber.0 && now == contents@,
        r is Ok ==> match bound_sink(subscriber.0, before.binding) {
            None => subscriber.1 == subscriber.0,
            Some(sink) => sink.mode is Subgroups ==> {
                &&& bound_sink(subscriber.1, before.binding) matches Some(later)
                &&& later.mode is Subgroups
                &&& (later.mode->Subgroups_0).largest matches Some(l)
                &&& before.header.group_id < l.0 || (before.header.group_id == l.0
                    && before.next_object <= l.1)
                &&& later.created() == sink.created()
            },
        },
{
    if r is Ok {
        crate::session::subscriber::law_object_is_recorded_on_its_track(
            subscriber.0,
            subscriber.1,
            before.binding,
            (before.header.group_id, before.next_object),
        );
    }
}

} // verus!
