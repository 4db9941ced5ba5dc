//! Opaque datagrams onto a track: each becomes one datagram of the track, in a
//! group of its own. The payload is carried as it is.

use bytes::Bytes;
use vstd::prelude::*;

use crate::kvp::ExtensionHeaders;
use crate::serve::datagram::{Datagram, DatagramView, DatagramsState, DatagramsWriter};
use crate::serve::{ServeError, Standing};
use crate::wire::bytes_view;

verus! {

/// Where the datagrams of a track go.
pub trait DatagramWrite: Sized {
    /// What the writer keeps true of itself.
    spec fn valid(&self) -> bool;

    /// The group, priority and payload of every datagram that was written.
    spec fn written(&self) -> Seq<(u64, u8, Seq<u8>)>;

    /// How the track stands with those who read it.
    spec fn standing(&self) -> Standing;

    /// Why a datagram is not taken, if it is not.
    spec fn refusal(&self, group_id: u64, priority: u8, payload: Seq<u8>) -> Option<ServeError>;

    fn put_datagram(&mut self, group_id: u64, priority: u8, payload: Bytes) -> (r: Result<
        (),
        ServeError,
    >)
        requires
            old(self).valid(),
        ensures
            final(self).valid(),
            final(self).standing() == old(self).standing(),
            match old(self).refusal(group_id, priority, bytes_view(payload)) {
                None => {
                    &&& r == Ok::<(), ServeError>(())
                    &&& final(self).written() == old(self).written().push(
                        (group_id, priority, bytes_view(payload)),
                    )
                },
                Some(e) => {
                    &&& r == Err::<(), ServeError>(e)
                    &&& final(self).written() == old(self).written()
                },
            },
    ;
}

/// Why a datagram was not published, or was the last one.
#[derive(Copy, Clone, Debug, PartialEq, Eq, Structural)]
pub enum DatagramError {
    Sink(ServeError),
    /// There is no further group number.
    GroupIdOverflow,
}

/// A stream of opaque datagrams.
pub struct DatagramState<T: DatagramWrite> {
    pub name: String,
    pub priority: u8,
    pub sink: T,
    pub next_group_id: u64,
}

/// A datagram was published in the next group, or the track did not take it.
/// The last group number is used, and then reported.
pub open spec fn handled<T: DatagramWrite>(
    before: DatagramState<T>,
    after: DatagramState<T>,
    payload: Seq<u8>,
    r: Result<(), DatagramError>,
) -> bool {
    let group_id = before.next_group_id;
    &&& after.name == before.name
    &&& after.priority == before.priority
    &&& after.sink.standing() == before.sink.standing()
    &&& match before.sink.refusal(group_id, before.priority, payload) {
        Some(e) => {
            &&& r == Err::<(), DatagramError>(DatagramError::Sink(e))
            &&& after.sink.written() == before.sink.written()
            &&& after.next_group_id == group_id
        },
        None => {
            &&& after.sink.written() == before.sink.written().push(
                (group_id, before.priority, payload),
            )
            &&& if group_id < u64::MAX {
                r == Ok::<(), DatagramError>(()) && after.next_group_id == group_id + 1
            } else {
                r == Err::<(), DatagramError>(DatagramError::GroupIdOverflow)
                    && after.next_group_id == group_id
            }
        },
    }
}

impl<T: DatagramWrite> DatagramState<T> {
    pub fn new(name: String, priority: u8, sink: T) -> (r: Self)
        ensures
            r == (DatagramState { name, priority, sink, next_group_id: 0 }),
    {
        DatagramState { name, priority, sink, next_group_id: 0 }
    }

    /// Publishes a datagram in the next group.
    pub fn handle(&mut self, payload: Bytes) -> (r: Result<(), DatagramError>)
        requires
            old(self).sink.valid(),
        ensures
            final(self).sink.valid(),
            handled(*old(self), *final(self), bytes_view(payload), r),
    {
        let group_id: u64 = self.next_group_id;
        match self.sink.put_datagram(group_id, self.priority, payload) {
            Ok(()) => {},
            Err(e) => {
                return Err(DatagramError::Sink(e));
            },
        }
        match self.next_group_id.checked_add(1) {
            Some(next) => {
                self.next_group_id = next;
                Ok(())
            },
            None => Err(DatagramError::GroupIdOverflow),
        }
    }
}

/// On a datagram track of this library that somebody reads, every datagram is
/// published, in a group of its own, and the track is read on.
pub proof fn law_live_track_takes_every_datagram(
    before: DatagramState<TrackDatagrams>,
    after: DatagramState<TrackDatagrams>,
    payload: Seq<u8>,
    r: Result<(), DatagramError>,
)
    requires
        handled(before, after, payload, r),
        before.sink.standing().live,
        before.sink.written().len() < u64::MAX,
        before.next_group_id < u64::MAX,
    ensures
        r == Ok::<(), DatagramError>(()),
        after.sink.written() == before.sink.written().push(
            (before.next_group_id, before.priority, payload),
        ),
        after.next_group_id == before.next_group_id + 1,
        after.sink.standing().live,
{
}

/// A datagram track of this library, as a place for datagrams.
pub struct TrackDatagrams {
    pub state: DatagramsState,
    pub writer: DatagramsWriter,
    pub count: u64,
}

impl DatagramWrite for TrackDatagrams {
    open spec fn valid(&self) -> bool {
        self.state.wf() && self.count == self.state.written().len()
    }

    open spec fn written(&self) -> Seq<(u64, u8, Seq<u8>)> {
        self.state.written().map_values(
            |d: DatagramView| (d.group_id, d.priority, d.payload),
        )
    }

    open spec fn standing(&self) -> Standing {
        Standing {
            live: self.state.spec_live(),
            closed: self.state.spec_closed(),
            readers: Map::empty(),
        }
    }

    /// A track refuses when there is no number left for a datagram, and when
    /// nobody reads it any more.
    open spec fn refusal(&self, group_id: u64, priority: u8, payload: Seq<u8>) -> Option<
        ServeError,
    > {
        if self.written().len() == u64::MAX {
            Some(ServeError::Internal)
        } else if !self.state.spec_live() {
            Some(ServeError::Cancel)
        } else {
            None
        }
    }

    fn put_datagram(&mut self, group_id: u64, priority: u8, payload: Bytes) -> (r: Result<
        (),
        ServeError,
    >)
        ensures
            r is Ok ==> final(self).state.written() == old(self).state.written().push(
                DatagramView {
                    group_id,
                    object_id: 0,
                    priority,
                    payload: bytes_view(payload),
                    extension_headers: Seq::empty(),
                },
            ),
    {
        if self.count == u64::MAX {
            return Err(ServeError::Internal);
        }
        let ghost bytes = bytes_view(payload);
        let datagram = Datagram {
            group_id,
            object_id: 0,
            priority,
            payload,
            extension_headers: ExtensionHeaders::default(),
        };
        match self.writer.write(&mut self.state, datagram) {
            Ok(()) => {
                self.count = self.count + 1;
                assert(self.written() =~= old(self).written().push((group_id, priority, bytes)));
                Ok(())
            },
            Err(e) => Err(e),
        }
    }
}

/// A published datagram is the last one on its track, byte for byte, in the group
/// after that of the one before it and at the priority of the track. One that the
/// track did not take leaves everything as it was.
pub proof fn law_datagrams_follow_each_other<T: DatagramWrite>(
    before: DatagramState<T>,
    after: DatagramState<T>,
    payload: Seq<u8>,
    r: Result<(), DatagramError>,
)
    requires
        handled(before, after, payload, r),
    ensures
        r is Ok ==> {
            &&& after.sink.written().len() == before.sink.written().len() + 1
            &&& after.sink.written().drop_last() == before.sink.written()
            &&& after.sink.written().last().0 == before.next_group_id
            &&& after.sink.written().last().1 == before.priority
            &&& after.sink.written().last().2 == payload
            &&& after.next_group_id == before.next_group_id + 1
        },
        r matches Err(DatagramError::Sink(_)) ==> after.sink.written() == before.sink.written()
            && after.next_group_id == before.next_group_id,
        r == Err::<(), DatagramError>(DatagramError::GroupIdOverflow) ==> {
            &&& before.next_group_id == 0xffff_ffff_ffff_ffff
            &&& after.sink.written().last().2 == payload
        },
        after.name == before.name,
        after.priority == before.priority,
{
    if r is Ok {
        assert(after.sink.written().drop_last() =~= before.sink.written());
    }
}

/// No two datagrams share a group.
pub proof fn law_every_datagram_has_its_group<T: DatagramWrite>(
    before: DatagramState<T>,
    mid: DatagramState<T>,
    after: DatagramState<T>,
    a: Seq<u8>,
    b: Seq<u8>,
)
    requires
        handled(before, mid, a, Ok(())),
        handled(mid, after, b, Ok(())),
    ensures
        ({
            let all = after.sink.written();
            let n = before.sink.written().len() as int;
            &&& all.len() == n + 2
            &&& all[n].2 == a
            &&& all[n + 1].2 == b
            &&& all[n + 1].0 == all[n].0 + 1
            &&& all[n].0 == before.next_group_id
        }),
{
}

/// A track that nobody reads takes no datagram.
pub proof fn law_unread_track_takes_no_datagram(
    before: DatagramState<TrackDatagrams>,
    after: DatagramState<TrackDatagrams>,
    payload: Seq<u8>,
    r: Result<(), DatagramError>,
)
    requires
        handled(before, after, payload, r),
        !before.sink.state.spec_live(),
        before.sink.written().len() < 0xffff_ffff_ffff_ffff,
    ensures
        r == Err::<(), DatagramError>(DatagramError::Sink(ServeError::Cancel)),
        after.sink.written() == before.sink.written(),
{
}

} // verus!
