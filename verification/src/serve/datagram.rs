//! A track of datagrams: a bounded ring of the latest ones.
//!
//! The ring bounds what the publisher holds. A write beyond the bound takes
//! the place of the oldest datagram; a reader that was too slow skips what it
//! missed and counts it.

use bytes::Bytes;
use std::collections::VecDeque;
use vstd::prelude::*;

use super::{close_result, close_with, drained, drained_outcome, ReadOutcome, ServeError};
use crate::kvp::{ExtensionHeaders, PairView};
use crate::wire::{bytes_as_slice, bytes_clone, bytes_view};

verus! {

pub struct Datagram {
    pub group_id: u64,
    pub object_id: u64,
    pub priority: u8,
    pub payload: Bytes,
    pub extension_headers: ExtensionHeaders,
}

/// What a datagram holds.
pub ghost struct DatagramView {
    pub group_id: u64,
    pub object_id: u64,
    pub priority: u8,
    pub payload: Seq<u8>,
    pub extension_headers: Seq<PairView>,
}

impl View for Datagram {
    type V = DatagramView;

    open spec fn view(&self) -> DatagramView {
        DatagramView {
            group_id: self.group_id,
            object_id: self.object_id,
            priority: self.priority,
            payload: bytes_view(self.payload),
            extension_headers: self.extension_headers@,
        }
    }
}

impl Clone for Datagram {
    fn clone(&self) -> (r: Self)
        ensures
            r@ == self@,
    {
        Datagram {
            group_id: self.group_id,
            object_id: self.object_id,
            priority: self.priority,
            payload: bytes_clone(&self.payload),
            extension_headers: self.extension_headers.clone(),
        }
    }
}

/// The datagrams of a track, as its writer and its readers share them.
pub struct DatagramsState {
    ring: VecDeque<Datagram>,
    depth: usize,
    epoch: u64,
    closed: Result<(), ServeError>,
    live: bool,
    written: Ghost<Seq<DatagramView>>,
}

impl DatagramsState {
    /// Every datagram that was ever written, in order.
    pub closed spec fn written(&self) -> Seq<DatagramView> {
        self.written@
    }

    /// The most datagrams that are retained.
    pub closed spec fn spec_depth(&self) -> nat {
        self.depth as nat
    }

    pub closed spec fn spec_closed(&self) -> Result<(), ServeError> {
        self.closed
    }

    /// Whether both the writer and a reader are there.
    pub closed spec fn spec_live(&self) -> bool {
        self.live
    }

    /// The place in the order of writes of the oldest datagram that is
    /// retained.
    pub open spec fn oldest(&self) -> nat {
        if self.written().len() <= self.spec_depth() {
            0
        } else {
            (self.written().len() - self.spec_depth()) as nat
        }
    }

    /// The ring holds exactly the latest writes, oldest first.
    pub closed spec fn wf(&self) -> bool {
        &&& self.depth >= 1
        &&& self.epoch == self.written@.len()
        &&& self.ring@.len() == self.written@.len() - self.oldest()
        &&& forall|i: int|
            0 <= i < self.ring@.len() ==> (#[trigger] self.ring@[i])@ == self.written@[self.oldest()
                + i]
    }

    /// A ring of this depth, or of depth one where none is given.
    pub fn with_depth(depth: usize) -> (r: Self)
        ensures
            r.wf(),
            r.written().len() == 0,
            r.spec_depth() == if depth == 0 {
                1
            } else {
                depth as nat
            },
            r.spec_closed() == Ok::<(), ServeError>(()),
            r.spec_live(),
    {
        let depth: usize = if depth == 0 {
            1
        } else {
            depth
        };
        let room: usize = if depth < 1024 {
            depth
        } else {
            1024
        };
        DatagramsState {
            ring: VecDeque::with_capacity(room),
            depth,
            epoch: 0,
            closed: Ok(()),
            live: true,
            written: Ghost(Seq::empty()),
        }
    }

    /// The other side goes.
    pub fn drop_side(&mut self)
        requires
            old(self).wf(),
        ensures
            final(self).wf(),
            final(self).written() == old(self).written(),
            final(self).spec_depth() == old(self).spec_depth(),
            final(self).spec_closed() == old(self).spec_closed(),
            !final(self).spec_live(),
    {
        self.live = false;
    }
}

impl Default for DatagramsState {
    fn default() -> (r: Self)
        ensures
            r.wf(),
            r.written().len() == 0,
            r.spec_depth() == 1,
            r.spec_closed() == Ok::<(), ServeError>(()),
            r.spec_live(),
    {
        DatagramsState::with_depth(1)
    }
}

/// A track that is served as datagrams.
pub struct Datagrams {}

impl Datagrams {
    /// A ring that keeps only the latest datagram.
    pub fn produce(self) -> (r: (DatagramsState, DatagramsWriter, DatagramsReader))
        ensures
            r.0.wf(),
            r.0.written().len() == 0,
            r.0.spec_depth() == 1,
            r.0.spec_closed() == Ok::<(), ServeError>(()),
            r.0.spec_live(),
            r.2.spec_next() == 0,
            r.2.spec_dropped() == 0,
    {
        self.produce_with_depth(1)
    }

    /// A ring that keeps the latest `depth` datagrams, at least one.
    pub fn produce_with_depth(self, depth: usize) -> (r: (
        DatagramsState,
        DatagramsWriter,
        DatagramsReader,
    ))
        ensures
            r.0.wf(),
            r.0.written().len() == 0,
            r.0.spec_depth() == if depth == 0 {
                1
            } else {
                depth as nat
            },
            r.0.spec_closed() == Ok::<(), ServeError>(()),
            r.0.spec_live(),
            r.2.spec_next() == 0,
            r.2.spec_dropped() == 0,
    {
        (
            DatagramsState::with_depth(depth),
            DatagramsWriter {  },
            DatagramsReader::start(),
        )
    }
}

/// The one who writes a track's datagrams.
pub struct DatagramsWriter {}

impl DatagramsWriter {
    /// Writes a datagram, in place of the oldest one where the ring is full.
    pub fn write(&mut self, state: &mut DatagramsState, datagram: Datagram) -> (r: Result<
        (),
        ServeError,
    >)
        requires
            old(state).wf(),
            old(state).written().len() < u64::MAX,
        ensures
            final(state).wf(),
            final(state).spec_depth() == old(state).spec_depth(),
            final(state).spec_closed() == old(state).spec_closed(),
            final(state).spec_live() == old(state).spec_live(),
            old(state).spec_live() ==> r == Ok::<(), ServeError>(()) && final(state).written() == old(
                state,
            ).written().push(datagram@),
            !old(state).spec_live() ==> r == Err::<(), ServeError>(ServeError::Cancel)
                && final(state).written() == old(state).written(),
    {
        if !state.live {
            return Err(ServeError::Cancel);
        }
        let ghost d = datagram@;
        if state.ring.len() >= state.depth {
            let _ = state.ring.pop_front();
        }
        state.ring.push_back(datagram);
        state.epoch = state.epoch + 1;
        state.written = Ghost(state.written@.push(d));
        Ok(())
    }

    pub fn close(self, state: &mut DatagramsState, err: ServeError) -> (r: Result<(), ServeError>)
        requires
            old(state).wf(),
        ensures
            final(state).wf(),
            final(state).written() == old(state).written(),
            final(state).spec_depth() == old(state).spec_depth(),
            final(state).spec_live() == old(state).spec_live(),
            r == close_result(old(state).spec_closed(), old(state).spec_live()),
            final(state).spec_closed() == if r is Ok {
                Err::<(), ServeError>(err)
            } else {
                old(state).spec_closed()
            },
    {
        close_with(&mut state.closed, state.live, err)
    }
}

/// A place in a track's datagrams. Every reader has its own.
#[derive(Copy, Clone, Debug)]
pub struct DatagramsReader {
    next: u64,
    dropped: u64,
}

/// A counter that stays at its largest value.
pub open spec fn saturating(n: int) -> u64 {
    if n > u64::MAX {
        u64::MAX
    } else {
        n as u64
    }
}

/// Where a reader of datagrams stands: the place of the datagram wanted next,
/// and how many were missed.
pub ghost struct ReaderView {
    pub next: nat,
    pub dropped: u64,
}

impl View for DatagramsReader {
    type V = ReaderView;

    open spec fn view(&self) -> ReaderView {
        ReaderView { next: self.spec_next(), dropped: self.spec_dropped() }
    }
}

/// What a reader finds, as a value.
pub open spec fn found(r: ReadOutcome<Datagram>) -> ReadOutcome<DatagramView> {
    match r {
        ReadOutcome::Item(d) => ReadOutcome::Item(d@),
        ReadOutcome::Closed(e) => ReadOutcome::Closed(e),
        ReadOutcome::End => ReadOutcome::End,
        ReadOutcome::Pending => ReadOutcome::Pending,
    }
}

/// What one read finds, and where the reader stands after it: what is no longer
/// retained is skipped and counted.
pub open spec fn read_step(
    written: Seq<DatagramView>,
    oldest: nat,
    closed: Result<(), ServeError>,
    live: bool,
    reader: ReaderView,
) -> (ReadOutcome<DatagramView>, ReaderView) {
    let at = if reader.next < oldest {
        oldest
    } else {
        reader.next
    };
    let dropped = saturating(reader.dropped + at - reader.next);
    if at < written.len() {
        (ReadOutcome::Item(written[at as int]), ReaderView { next: at + 1, dropped })
    } else {
        (drained(closed, live), ReaderView { next: at, dropped })
    }
}

/// What a number of reads in a row find, and where the reader stands after
/// them.
pub open spec fn read_run(
    written: Seq<DatagramView>,
    oldest: nat,
    closed: Result<(), ServeError>,
    live: bool,
    reader: ReaderView,
    n: nat,
) -> (Seq<ReadOutcome<DatagramView>>, ReaderView)
    decreases n,
{
    if n == 0 {
        (Seq::empty(), reader)
    } else {
        let (first, next) = read_step(written, oldest, closed, live, reader);
        let (rest, last) = read_run(written, oldest, closed, live, next, (n - 1) as nat);
        (seq![first] + rest, last)
    }
}

impl DatagramsReader {
    /// The place, in the order of writes, of the datagram wanted next.
    pub closed spec fn spec_next(&self) -> nat {
        self.next as nat
    }

    /// How many datagrams were missed.
    pub closed spec fn spec_dropped(&self) -> u64 {
        self.dropped
    }

    /// A reader that wants everything from the first datagram on.
    pub fn start() -> (r: Self)
        ensures
            r.spec_next() == 0,
            r.spec_dropped() == 0,
    {
        DatagramsReader { next: 0, dropped: 0 }
    }

    /// The place that reading goes on from: what is no longer retained is
    /// skipped.
    pub open spec fn resume(&self, state: &DatagramsState) -> nat {
        if self.spec_next() < state.oldest() {
            state.oldest()
        } else {
            self.spec_next()
        }
    }

    /// Reads the next datagram that is retained, in the order of writes.
    pub fn read(&mut self, state: &DatagramsState) -> (r: ReadOutcome<Datagram>)
        requires
            state.wf(),
            old(self).spec_next() <= state.written().len(),
        ensures
            (found(r), final(self)@) == read_step(
                state.written(),
                state.oldest(),
                state.spec_closed(),
                state.spec_live(),
                old(self)@,
            ),
            !(r is Item) ==> r == drained::<Datagram>(state.spec_closed(), state.spec_live()),
    {
        let oldest: u64 = state.epoch - state.ring.len() as u64;
        if self.next < oldest {
            self.dropped = self.dropped.saturating_add(oldest - self.next);
            self.next = oldest;
        }
        if self.next < state.epoch {
            let i: usize = (self.next - oldest) as usize;
            self.next = self.next + 1;
            return ReadOutcome::Item(state.ring[i].clone());
        }
        drained_outcome(&state.closed, state.live)
    }

    /// The group and object of the latest datagram.
    pub fn latest(&self, state: &DatagramsState) -> (r: Option<(u64, u64)>)
        requires
            state.wf(),
        ensures
            r == if state.written().len() == 0 {
                None
            } else {
                Some((state.written().last().group_id, state.written().last().object_id))
            },
    {
        let n: usize = state.ring.len();
        if n == 0 {
            return None;
        }
        let d: &Datagram = &state.ring[n - 1];
        assert(d@ == state.written@[state.oldest() + n - 1]);
        Some((d.group_id, d.object_id))
    }

    pub fn dropped(&self) -> (r: u64)
        ensures
            r == self.spec_dropped(),
    {
        self.dropped
    }

    pub fn is_closed(&self, state: &DatagramsState) -> (r: bool)
        ensures
            r == (state.spec_closed() is Err || !state.spec_live()),
    {
        state.closed.is_err() || !state.live
    }
}

/// The payloads of datagrams, one after the other.
pub open spec fn payloads(datagrams: Seq<DatagramView>) -> Seq<u8>
    decreases datagrams.len(),
{
    if datagrams.len() == 0 {
        Seq::empty()
    } else {
        datagrams[0].payload + payloads(datagrams.skip(1))
    }
}

proof fn lemma_payloads_push(datagrams: Seq<DatagramView>, d: DatagramView)
    ensures
        payloads(datagrams.push(d)) == payloads(datagrams) + d.payload,
    decreases datagrams.len(),
{
    reveal_with_fuel(payloads, 2);
    let longer = datagrams.push(d);
    if datagrams.len() == 0 {
        assert(longer.skip(1) =~= Seq::<DatagramView>::empty());
        assert(payloads(longer) =~= d.payload);
        assert(payloads(datagrams) + d.payload =~= d.payload);
    } else {
        lemma_payloads_push(datagrams.skip(1), d);
        assert(longer.skip(1) =~= datagrams.skip(1).push(d));
        assert(datagrams[0].payload + (payloads(datagrams.skip(1)) + d.payload) =~= (
        datagrams[0].payload + payloads(datagrams.skip(1))) + d.payload);
    }
}

/// Reads everything that is there and appends the payloads to `out`, with no
/// separators. Returns how many bytes that was, and what ended the reading.
pub fn drain_datagrams(reader: &mut DatagramsReader, state: &DatagramsState, out: &mut Vec<u8>) -> (r:
    (usize, ReadOutcome<Datagram>))
    requires
        state.wf(),
        old(reader).spec_next() <= state.written().len(),
    ensures
        final(out)@ == old(out)@ + payloads(
            state.written().skip(old(reader).resume(state) as int),
        ),
        r.0 == final(out)@.len() - old(out)@.len(),
        r.1 == drained::<Datagram>(state.spec_closed(), state.spec_live()),
        final(reader).spec_next() == state.written().len(),
        final(reader).spec_dropped() == saturating(
            old(reader).spec_dropped() + old(reader).resume(state) - old(reader).spec_next(),
        ),
{
    let ghost start = reader.resume(state) as int;
    let ghost all = state.written();
    let before: usize = out.len();
    let ghost mut at = start;
    let ghost mut first = true;
    proof {
        assert(all.subrange(start, start) =~= Seq::<DatagramView>::empty());
        assert(out@ + payloads(all.subrange(start, start)) =~= out@);
    }
    loop
        invariant
            state.wf(),
            all == state.written(),
            before == old(out)@.len(),
            start == old(reader).resume(state),
            start <= at <= all.len(),
            reader.resume(state) == at,
            reader.spec_next() <= all.len(),
            out@ == old(out)@ + payloads(all.subrange(start, at)),
            first ==> at == start && *reader == *old(reader),
            !first ==> reader.spec_next() == at && reader.spec_dropped() == saturating(
                old(reader).spec_dropped() + start - old(reader).spec_next(),
            ),
        decreases all.len() - at,
    {
        match reader.read(state) {
            ReadOutcome::Item(d) => {
                out.extend_from_slice(bytes_as_slice(&d.payload));
                proof {
                    let done = all.subrange(start, at);
                    lemma_payloads_push(done, all[at]);
                    assert(all.subrange(start, at + 1) =~= done.push(all[at]));
                    assert(out@ =~= old(out)@ + payloads(all.subrange(start, at + 1)));
                    at = at + 1;
                    first = false;
                }
            },
            other => {
                proof {
                    assert(all.subrange(start, at) =~= all.skip(start));
                }
                return (out.len() - before, other);
            },
        }
    }
}

/// A reader at the start of a track recovers exactly the latest `depth`
/// datagrams, and what it missed is counted.
pub proof fn law_ring_retains_exactly_the_window(state: DatagramsState, reader: DatagramsReader)
    requires
        state.wf(),
        reader.spec_next() == 0,
    ensures
        state.written().len() - reader.resume(&state) == if state.written().len()
            <= state.spec_depth() {
            state.written().len() as int
        } else {
            state.spec_depth() as int
        },
        reader.resume(&state) == state.oldest(),
{
}

/// The datagrams from a place on, as reads find them.
pub open spec fn items_from(written: Seq<DatagramView>, at: nat) -> Seq<ReadOutcome<DatagramView>> {
    written.skip(at as int).map_values(|d: DatagramView| ReadOutcome::Item(d))
}

proof fn lemma_run_from(written: Seq<DatagramView>, oldest: nat, reader: ReaderView)
    requires
        oldest <= reader.next <= written.len(),
    ensures
        read_run(
            written,
            oldest,
            Ok(()),
            false,
            reader,
            (written.len() - reader.next + 1) as nat,
        ) == (
            items_from(written, reader.next).push(ReadOutcome::End),
            ReaderView { next: written.len(), dropped: reader.dropped },
        ),
    decreases written.len() - reader.next,
{
    let n = (written.len() - reader.next + 1) as nat;
    let run = read_run(written, oldest, Ok(()), false, reader, n);
    if reader.next < written.len() {
        let next = ReaderView { next: reader.next + 1, dropped: reader.dropped };
        lemma_run_from(written, oldest, next);
        assert(run.0 =~= items_from(written, reader.next).push(ReadOutcome::End));
    } else {
        reveal_with_fuel(read_run, 2);
        assert(run.0 =~= items_from(written, reader.next).push(ReadOutcome::End));
    }
}

/// After any number of writes and the end of the writer, a reader that has read
/// nothing gets exactly the latest datagrams, as many as the ring is deep,
/// oldest first, and then the end; all the others are counted as dropped.
pub proof fn law_reader_drains_exactly_the_window(state: DatagramsState)
    requires
        state.wf(),
        state.spec_closed() == Ok::<(), ServeError>(()),
        !state.spec_live(),
    ensures
        ({
            let w = state.written().len();
            let k = if w <= state.spec_depth() {
                w
            } else {
                state.spec_depth()
            };
            read_run(
                state.written(),
                state.oldest(),
                state.spec_closed(),
                state.spec_live(),
                ReaderView { next: 0, dropped: 0 },
                k + 1,
            ) == (
                items_from(state.written(), (w - k) as nat).push(ReadOutcome::End),
                ReaderView { next: w, dropped: (w - k) as u64 },
            )
        }),
{
    let written = state.written();
    let oldest = state.oldest();
    let k = (written.len() - oldest) as nat;
    assert(state.epoch == written.len());
    let start = ReaderView { next: 0, dropped: 0 };
    let there = ReaderView { next: oldest, dropped: oldest as u64 };
    lemma_run_from(written, oldest, there);
    assert(read_step(written, oldest, Ok(()), false, start) == read_step(
        written,
        oldest,
        Ok(()),
        false,
        there,
    ));
    assert(read_run(written, oldest, Ok(()), false, start, k + 1) == read_run(
        written,
        oldest,
        Ok(()),
        false,
        there,
        k + 1,
    ));
}

/// A reader that is at most `depth` datagrams behind misses none.
pub proof fn law_keeping_up_loses_nothing(state: DatagramsState, reader: DatagramsReader)
    requires
        state.wf(),
        reader.spec_next() <= state.written().len(),
        state.written().len() - reader.spec_next() <= state.spec_depth(),
    ensures
        reader.resume(&state) == reader.spec_next(),
{
}

/// A read gives the datagram that the reader wants next, as long as the ring
/// still holds it, and misses none. A reader that is too far behind gets the
/// oldest of the latest `depth` datagrams, and each that it skips counts as
/// missed.
pub proof fn law_read_gives_the_next_that_is_left(
    state: DatagramsState,
    before: DatagramsReader,
    after: DatagramsReader,
    r: ReadOutcome<DatagramView>,
)
    requires
        state.wf(),
        before.spec_next() <= state.written().len(),
        (r, after@) == read_step(
            state.written(),
            state.oldest(),
            state.spec_closed(),
            state.spec_live(),
            before@,
        ),
    ensures
        ({
            let n = state.written().len();
            let behind = n - before.spec_next();
            let d = state.spec_depth();
            &&& 0 < behind <= d ==> {
                &&& r == ReadOutcome::Item(state.written()[before.spec_next() as int])
                &&& after.spec_next() == before.spec_next() + 1
                &&& after.spec_dropped() == before.spec_dropped()
            }
            &&& behind > d ==> {
                &&& r == ReadOutcome::Item(state.written()[n - d])
                &&& after.spec_next() == n - d + 1
                &&& before.spec_dropped() + (behind - d) <= u64::MAX ==> after.spec_dropped()
                    == before.spec_dropped() + (behind - d)
                &&& before.spec_dropped() + (behind - d) > u64::MAX ==> after.spec_dropped()
                    == u64::MAX
            }
            &&& behind == 0 ==> {
                &&& after.spec_next() == before.spec_next()
                &&& after.spec_dropped() == before.spec_dropped()
                &&& state.spec_closed() matches Err(e) ==> r == ReadOutcome::<
                    DatagramView,
                >::Closed(e)
                &&& state.spec_closed() is Ok && state.spec_live() ==> r is Pending
                &&& state.spec_closed() is Ok && !state.spec_live() ==> r is End
            }
        }),
{
}

/// The payloads of datagrams stand one after the other as they were written.
pub proof fn law_payloads_follow_each_other(a: Seq<DatagramView>, b: Seq<DatagramView>)
    ensures
        payloads(a + b) == payloads(a) + payloads(b),
        a.len() == 0 ==> payloads(a).len() == 0,
        a.len() == 1 ==> payloads(a) == a[0].payload,
    decreases a.len(),
{
    if a.len() == 0 {
        assert(a + b =~= b);
        assert(payloads(a) + payloads(b) =~= payloads(b));
    } else {
        law_payloads_follow_each_other(a.skip(1), b);
        assert((a + b).skip(1) =~= a.skip(1) + b);
        assert(payloads(a + b) =~= payloads(a) + payloads(b));
        if a.len() == 1 {
            assert(a.skip(1).len() == 0);
            assert(payloads(a) =~= a[0].payload);
        }
    }
}

} // verus!
