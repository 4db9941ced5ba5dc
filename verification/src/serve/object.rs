//! The objects of one subgroup, each written in chunks up to a promised size.

use bytes::Bytes;
use vstd::prelude::*;

use super::subgroup::Subgroup;
use super::{
    advance_mark, advanced, close_result, close_with, drained, drained_outcome, ReadOutcome,
    ServeError,
};
use crate::kvp::{ExtensionHeaders, PairView};
use crate::wire::{bytes_as_slice, bytes_clone, bytes_from_vec, bytes_len, bytes_view};

verus! {

/// What an object is announced as.
#[derive(Copy, Clone, Debug, PartialEq, Eq, Structural)]
pub enum ObjectStatus {
    NormalObject,
    EndOfGroup,
    EndOfTrack,
}

/// An object of a subgroup: what it was announced as, and the chunks of it
/// that were written.
pub struct SubgroupObject {
    pub object_id: u64,
    pub size: usize,
    pub status: ObjectStatus,
    pub extension_headers: ExtensionHeaders,
    chunks: Vec<Bytes>,
    closed: Result<(), ServeError>,
    live: bool,
}

/// What an object holds.
pub ghost struct ObjectView {
    pub object_id: u64,
    pub size: usize,
    pub status: ObjectStatus,
    pub extension_headers: Seq<PairView>,
    pub chunks: Seq<Seq<u8>>,
    pub closed: Result<(), ServeError>,
    pub live: bool,
}

/// The bytes that handles show.
pub open spec fn chunks_view(chunks: Seq<Bytes>) -> Seq<Seq<u8>> {
    chunks.map_values(|b: Bytes| bytes_view(b))
}

impl View for SubgroupObject {
    type V = ObjectView;

    closed spec fn view(&self) -> ObjectView {
        ObjectView {
            object_id: self.object_id,
            size: self.size,
            status: self.status,
            extension_headers: self.extension_headers@,
            chunks: chunks_view(self.chunks@),
            closed: self.closed,
            live: self.live,
        }
    }
}

/// Byte strings one after the other.
pub open spec fn concat(chunks: Seq<Seq<u8>>) -> Seq<u8>
    decreases chunks.len(),
{
    if chunks.len() == 0 {
        Seq::empty()
    } else {
        concat(chunks.drop_last()) + chunks.last()
    }
}

pub proof fn lemma_concat_push(chunks: Seq<Seq<u8>>, chunk: Seq<u8>)
    ensures
        concat(chunks.push(chunk)) == concat(chunks) + chunk,
{
    assert(chunks.push(chunk).drop_last() =~= chunks);
}

pub proof fn lemma_concat_first(chunks: Seq<Seq<u8>>)
    requires
        chunks.len() > 0,
    ensures
        concat(chunks) == chunks[0] + concat(chunks.skip(1)),
    decreases chunks.len(),
{
    if chunks.len() == 1 {
        assert(chunks.drop_last() =~= Seq::empty());
        assert(chunks.skip(1) =~= Seq::empty());
        assert(concat(chunks.drop_last()) =~= Seq::<u8>::empty());
    } else {
        lemma_concat_first(chunks.drop_last());
        assert(chunks.drop_last().skip(1) =~= chunks.skip(1).drop_last());
    }
    assert(concat(chunks) =~= chunks[0] + concat(chunks.skip(1)));
}

impl ObjectView {
    /// The bytes that were written.
    pub open spec fn payload(self) -> Seq<u8> {
        concat(self.chunks)
    }

    /// Nothing was written beyond the promised size.
    pub open spec fn wf(self) -> bool {
        self.payload().len() <= self.size
    }
}

impl SubgroupObject {
    /// An announced object of which nothing was written, with the one who
    /// writes it and a first reader.
    pub fn produce(
        object_id: u64,
        size: usize,
        status: ObjectStatus,
        extension_headers: ExtensionHeaders,
    ) -> (r: (SubgroupObject, SubgroupObjectWriter, SubgroupObjectReader))
        ensures
            r.0@ == (ObjectView {
                object_id,
                size,
                status,
                extension_headers: extension_headers@,
                chunks: Seq::empty(),
                closed: Ok(()),
                live: true,
            }),
            r.0@.wf(),
            r.1.remain() == size,
            r.1.writes(r.0@),
            r.2.position() == 0,
    {
        let object = SubgroupObject {
            object_id,
            size,
            status,
            extension_headers,
            chunks: Vec::new(),
            closed: Ok(()),
            live: true,
        };
        assert(object@.chunks =~= Seq::empty());
        (object, SubgroupObjectWriter { remain: size }, SubgroupObjectReader::start())
    }

    /// The other side goes.
    pub fn drop_side(&mut self)
        ensures
            final(self)@ == (ObjectView { live: false, ..old(self)@ }),
    {
        self.live = false;
    }
}

/// An object whose writer has gone, with this much still promised: where that
/// is anything, and somebody reads, the object is closed for it.
pub open spec fn released(object: ObjectView, remain: usize) -> ObjectView {
    if remain != 0 && object.live {
        ObjectView { closed: Err(ServeError::Size), live: false, ..object }
    } else {
        ObjectView { live: false, ..object }
    }
}

/// The one who writes an object.
pub struct SubgroupObjectWriter {
    remain: usize,
}

impl SubgroupObjectWriter {
    /// How many bytes are still promised.
    pub closed spec fn remain(&self) -> usize {
        self.remain
    }

    /// What is promised and what was written make up the object, as long as
    /// every write found a reader.
    pub open spec fn writes(&self, object: ObjectView) -> bool {
        object.live ==> self.remain() + object.payload().len() == object.size
    }

    /// Writes a chunk, within what is promised.
    pub fn write(&mut self, object: &mut SubgroupObject, chunk: Bytes) -> (r: Result<
        (),
        ServeError,
    >)
        ensures
            bytes_view(chunk).len() > old(self).remain() ==> {
                &&& r == Err::<(), ServeError>(ServeError::Size)
                &&& *final(self) == *old(self)
                &&& *final(object) == *old(object)
            },
            bytes_view(chunk).len() <= old(self).remain() ==> {
                &&& final(self).remain() == old(self).remain() - bytes_view(chunk).len()
                &&& r == if old(object)@.live {
                    Ok::<(), ServeError>(())
                } else {
                    Err(ServeError::Cancel)
                }
                &&& final(object)@ == if old(object)@.live {
                    (ObjectView {
                        chunks: old(object)@.chunks.push(bytes_view(chunk)),
                        ..old(object)@
                    })
                } else {
                    old(object)@
                }
            },
            old(self).writes(old(object)@) ==> final(self).writes(final(object)@),
    {
        let n: usize = bytes_len(&chunk);
        if n > self.remain {
            return Err(ServeError::Size);
        }
        self.remain = self.remain - n;
        if !object.live {
            return Err(ServeError::Cancel);
        }
        let ghost before = object@.chunks;
        let ghost bytes = bytes_view(chunk);
        object.chunks.push(chunk);
        proof {
            assert(object@.chunks =~= before.push(bytes));
            lemma_concat_push(before, bytes);
        }
        Ok(())
    }

    /// Closes the object with an error, once everything promised was written.
    pub fn close(self, object: &mut SubgroupObject, err: ServeError) -> (r: Result<
        (),
        ServeError,
    >)
        ensures
            r == if self.remain() != 0 {
                Err::<(), ServeError>(ServeError::Size)
            } else {
                close_result(old(object)@.closed, old(object)@.live)
            },
            final(object)@ == if r is Ok {
                (ObjectView { closed: Err(err), ..old(object)@ })
            } else {
                old(object)@
            },
    {
        if self.remain != 0 {
            return Err(ServeError::Size);
        }
        close_with(&mut object.closed, object.live, err)
    }

    /// The writer goes. An object that is short of its size is closed for it.
    pub fn release(self, object: &mut SubgroupObject)
        ensures
            final(object)@ == released(old(object)@, self.remain()),
    {
        if self.remain != 0 && object.live {
            object.closed = Err(ServeError::Size);
        }
        object.live = false;
    }
}

/// A place in an object.
#[derive(Copy, Clone, Debug)]
pub struct SubgroupObjectReader {
    index: usize,
}

impl SubgroupObjectReader {
    /// How many chunks were read.
    pub closed spec fn position(&self) -> nat {
        self.index as nat
    }

    /// A reader at the start of an object.
    pub fn start() -> (r: Self)
        ensures
            r.position() == 0,
    {
        SubgroupObjectReader { index: 0 }
    }

    /// Reads the next chunk.
    pub fn read(&mut self, object: &SubgroupObject) -> (r: ReadOutcome<Bytes>)
        requires
            old(self).position() <= object@.chunks.len(),
        ensures
            old(self).position() < object@.chunks.len() ==> {
                &&& r matches ReadOutcome::Item(chunk)
                &&& bytes_view(chunk) == object@.chunks[old(self).position() as int]
                &&& final(self).position() == old(self).position() + 1
            },
            old(self).position() == object@.chunks.len() ==> {
                &&& r == drained::<Bytes>(object@.closed, object@.live)
                &&& final(self).position() == old(self).position()
            },
    {
        if self.index < object.chunks.len() {
            let i: usize = self.index;
            self.index = i + 1;
            return ReadOutcome::Item(bytes_clone(&object.chunks[i]));
        }
        drained_outcome(&object.closed, object.live)
    }

    /// Reads all that is left, as one byte string. As long as the object is
    /// being written, nothing is read of it.
    pub fn read_all(&mut self, object: &SubgroupObject) -> (r: ReadOutcome<Bytes>)
        requires
            old(self).position() <= object@.chunks.len(),
        ensures
            match drained::<Bytes>(object@.closed, object@.live) {
                ReadOutcome::End => {
                    &&& r matches ReadOutcome::Item(all)
                    &&& bytes_view(all) == concat(object@.chunks.skip(old(self).position() as int))
                },
                other => r == other,
            },
            final(self).position() == if r is Pending {
                old(self).position()
            } else {
                object@.chunks.len()
            },
    {
        let start: usize = self.index;
        let mut out: Vec<u8> = Vec::new();
        match self.read_into(object, &mut out) {
            ReadOutcome::End => {
                assert(out@ =~= concat(object@.chunks.skip(old(self).position() as int)));
                ReadOutcome::Item(bytes_from_vec(out))
            },
            ReadOutcome::Pending => {
                self.index = start;
                ReadOutcome::Pending
            },
            other => other,
        }
    }

    /// Appends all that is left to `out`.
    pub fn read_into(&mut self, object: &SubgroupObject, out: &mut Vec<u8>) -> (r: ReadOutcome<
        Bytes,
    >)
        requires
            old(self).position() <= object@.chunks.len(),
        ensures
            final(self).position() == object@.chunks.len(),
            final(out)@ == old(out)@ + concat(object@.chunks.skip(old(self).position() as int)),
            r == drained::<Bytes>(object@.closed, object@.live),
    {
        let ghost start = self.index as int;
        let ghost chunks = object@.chunks;
        proof {
            assert(chunks.subrange(start, start) =~= Seq::empty());
            assert(out@ + concat(chunks.subrange(start, start)) =~= out@);
        }
        loop
            invariant
                chunks == object@.chunks,
                start == old(self).position(),
                start <= self.index <= chunks.len(),
                out@ == old(out)@ + concat(chunks.subrange(start, self.index as int)),
            decreases chunks.len() - self.index,
        {
            let ghost at = self.index as int;
            match self.read(object) {
                ReadOutcome::Item(chunk) => {
                    out.extend_from_slice(bytes_as_slice(&chunk));
                    proof {
                        let done = chunks.subrange(start, at);
                        lemma_concat_push(done, chunks[at]);
                        assert(chunks.subrange(start, at + 1) =~= done.push(chunks[at]));
                        assert(out@ =~= old(out)@ + concat(chunks.subrange(start, at + 1)));
                    }
                },
                other => {
                    assert(chunks.subrange(start, at) =~= chunks.skip(start));
                    return other;
                },
            }
        }
    }
}

/// The objects of a subgroup, as its writer and its readers share them.
pub struct SubgroupState {
    info: SubgroupInfo,
    objects: Vec<SubgroupObject>,
    closed: Result<(), ServeError>,
    live: bool,
}

/// What a subgroup holds.
pub ghost struct SubgroupView {
    /// What the subgroup is, within its track.
    pub info: SubgroupInfo,
    pub objects: Seq<ObjectView>,
    pub closed: Result<(), ServeError>,
    pub live: bool,
}

impl SubgroupView {
    /// A subgroup that nothing was written on.
    pub open spec fn fresh(info: SubgroupInfo) -> SubgroupView {
        SubgroupView { info, objects: Seq::empty(), closed: Ok(()), live: true }
    }
}

/// What a list of objects holds.
pub open spec fn objects_view(objects: Seq<SubgroupObject>) -> Seq<ObjectView> {
    objects.map_values(|o: SubgroupObject| o@)
}

impl View for SubgroupState {
    type V = SubgroupView;

    closed spec fn view(&self) -> SubgroupView {
        SubgroupView {
            info: self.info,
            objects: objects_view(self.objects@),
            closed: self.closed,
            live: self.live,
        }
    }
}

/// What a subgroup is, within its track.
pub type SubgroupInfo = Subgroup;

impl SubgroupState {
    /// An empty subgroup, with its writer and a first reader.
    pub fn produce(info: SubgroupInfo) -> (r: (SubgroupState, SubgroupWriter, SubgroupReader))
        ensures
            r.0@ == SubgroupView::fresh(info),
            r.1.spec_info() == info,
            r.1.next_object() == 0,
            r.2.position() == 0,
    {
        let state = SubgroupState { info, objects: Vec::new(), closed: Ok(()), live: true };
        assert(state@.objects =~= Seq::empty());
        (state, SubgroupWriter { info, next_object_id: 0 }, SubgroupReader { read_index: 0 })
    }

    /// What the subgroup is, within its track.
    pub fn info(&self) -> (r: SubgroupInfo)
        ensures
            r == self@.info,
    {
        self.info
    }

    /// Whether both the writer and a reader are there.
    pub fn is_live(&self) -> (r: bool)
        ensures
            r == self@.live,
    {
        self.live
    }

    /// The other side goes.
    pub fn drop_side(&mut self)
        ensures
            final(self)@ == (SubgroupView { live: false, ..old(self)@ }),
    {
        self.live = false;
    }

    /// The object at a place.
    pub fn object(&self, i: usize) -> (r: Option<&SubgroupObject>)
        ensures
            match r {
                Some(o) => i < self@.objects.len() && o@ == self@.objects[i as int],
                None => i >= self@.objects.len(),
            },
    {
        if i < self.objects.len() {
            Some(&self.objects[i])
        } else {
            None
        }
    }

    pub fn len(&self) -> (n: usize)
        ensures
            n == self@.objects.len(),
    {
        self.objects.len()
    }
}

/// An object that was written in one piece.
pub open spec fn whole_object(
    object_id: u64,
    payload: Seq<u8>,
    extension_headers: Seq<PairView>,
) -> ObjectView {
    ObjectView {
        object_id,
        size: payload.len() as usize,
        status: ObjectStatus::NormalObject,
        extension_headers,
        chunks: seq![payload],
        closed: Ok(()),
        live: false,
    }
}

/// What was written in one piece is read back as it is, with its headers, and
/// the object ends there.
pub proof fn law_whole_object_reads_back(
    object_id: u64,
    payload: Seq<u8>,
    extension_headers: Seq<PairView>,
)
    ensures
        ({
            let object = whole_object(object_id, payload, extension_headers);
            &&& object.payload() == payload
            &&& object.extension_headers == extension_headers
            &&& object.object_id == object_id
            &&& drained::<Bytes>(object.closed, object.live) is End
        }),
{
    reveal_with_fuel(concat, 2);
    assert(concat(seq![payload]) =~= payload);
}

/// How the writing of a whole object goes: it is the subgroup's next object
/// and moves the track's largest location, or, where nobody reads the subgroup
/// any more, only its number is used up.
pub open spec fn wrote_whole(
    writer: SubgroupWriter,
    writer_after: SubgroupWriter,
    state: SubgroupView,
    state_after: SubgroupView,
    largest: Option<(u64, u64)>,
    largest_after: Option<(u64, u64)>,
    payload: Seq<u8>,
    extension_headers: Seq<PairView>,
    r: Result<(), ServeError>,
) -> bool {
    &&& writer_after.spec_info() == writer.spec_info()
    &&& writer_after.next_object() == writer.next_object() + 1
    &&& if state.live {
        &&& r == Ok::<(), ServeError>(())
        &&& state_after == (SubgroupView {
            objects: state.objects.push(
                whole_object(writer.next_object(), payload, extension_headers),
            ),
            ..state
        })
        &&& largest_after == advanced(
            largest,
            (writer.spec_info().group_id, writer.next_object()),
        )
    } else {
        &&& r == Err::<(), ServeError>(ServeError::Cancel)
        &&& state_after == state
        &&& largest_after == largest
    }
}

/// The one who writes a subgroup's objects.
pub struct SubgroupWriter {
    info: SubgroupInfo,
    next_object_id: u64,
}

impl SubgroupWriter {
    pub closed spec fn spec_info(&self) -> SubgroupInfo {
        self.info
    }

    /// The number of the object created next.
    pub closed spec fn next_object(&self) -> u64 {
        self.next_object_id
    }

    pub fn next_object_id(&self) -> (r: u64)
        ensures
            r == self.next_object(),
    {
        self.next_object_id
    }

    pub fn info(&self) -> (r: SubgroupInfo)
        ensures
            r == self.spec_info(),
    {
        self.info
    }

    /// Uses a number up for an object that nobody reads.
    pub fn skip(&mut self)
        requires
            old(self).next_object() < u64::MAX,
        ensures
            final(self).spec_info() == old(self).spec_info(),
            final(self).next_object() == old(self).next_object() + 1,
    {
        self.next_object_id = self.next_object_id + 1;
    }

    /// Writes one whole object. `largest` is the largest location of the
    /// track.
    pub fn write(
        &mut self,
        state: &mut SubgroupState,
        largest: &mut Option<(u64, u64)>,
        payload: Bytes,
    ) -> (r: Result<(), ServeError>)
        requires
            old(self).next_object() < u64::MAX,
        ensures
            wrote_whole(
                *old(self),
                *final(self),
                old(state)@,
                final(state)@,
                *old(largest),
                *final(largest),
                bytes_view(payload),
                Seq::empty(),
                r,
            ),
    {
        self.write_with_headers(state, largest, payload, ExtensionHeaders::default())
    }

    /// Writes one whole object with extension headers.
    pub fn write_with_headers(
        &mut self,
        state: &mut SubgroupState,
        largest: &mut Option<(u64, u64)>,
        payload: Bytes,
        extension_headers: ExtensionHeaders,
    ) -> (r: Result<(), ServeError>)
        requires
            old(self).next_object() < u64::MAX,
        ensures
            wrote_whole(
                *old(self),
                *final(self),
                old(state)@,
                final(state)@,
                *old(largest),
                *final(largest),
                bytes_view(payload),
                extension_headers@,
                r,
            ),
    {
        let size: usize = bytes_len(&payload);
        let object_id: u64 = self.next_object_id;
        let (mut object, mut writer, _reader) = SubgroupObject::produce(
            object_id,
            size,
            ObjectStatus::NormalObject,
            extension_headers,
        );
        let ghost bytes = bytes_view(payload);
        self.next_object_id = object_id + 1;
        if !state.live {
            return Err(ServeError::Cancel);
        }
        let _ = writer.write(&mut object, payload);
        writer.release(&mut object);
        proof {
            assert(object@.chunks =~= seq![bytes]);
        }
        let ghost before = state@.objects;
        let ghost added = object@;
        state.objects.push(object);
        assert(state@.objects =~= before.push(added));
        *largest = advance_mark(*largest, (self.info.group_id, object_id));
        Ok(())
    }

    /// Announces the next object, to be written in chunks. The number is used
    /// up even where nobody reads the subgroup any more.
    pub fn create(
        &mut self,
        state: &mut SubgroupState,
        largest: &mut Option<(u64, u64)>,
        size: usize,
        extension_headers: Option<ExtensionHeaders>,
    ) -> (r: Result<SubgroupObjectWriter, ServeError>)
        requires
            old(self).next_object() < u64::MAX,
        ensures
            final(self).spec_info() == old(self).spec_info(),
            final(self).next_object() == old(self).next_object() + 1,
            !old(state)@.live ==> {
                &&& r matches Err(e)
                &&& e == ServeError::Cancel
                &&& final(state)@ == old(state)@
                &&& *final(largest) == *old(largest)
            },
            old(state)@.live ==> {
                &&& r matches Ok(writer)
                &&& writer.remain() == size
                &&& final(state)@ == (SubgroupView {
                    objects: old(state)@.objects.push(
                        ObjectView {
                            object_id: old(self).next_object(),
                            size,
                            status: ObjectStatus::NormalObject,
                            extension_headers: match extension_headers {
                                Some(h) => h@,
                                None => Seq::empty(),
                            },
                            chunks: Seq::empty(),
                            closed: Ok(()),
                            live: true,
                        },
                    ),
                    ..old(state)@
                })
                &&& *final(largest) == advanced(
                    *old(largest),
                    (old(self).spec_info().group_id, old(self).next_object()),
                )
            },
    {
        let headers: ExtensionHeaders = match extension_headers {
            Some(h) => h,
            None => ExtensionHeaders::default(),
        };
        let object_id: u64 = self.next_object_id;
        let (object, writer, _reader) = SubgroupObject::produce(
            object_id,
            size,
            ObjectStatus::NormalObject,
            headers,
        );
        self.next_object_id = object_id + 1;
        if !state.live {
            return Err(ServeError::Cancel);
        }
        let ghost before = state@.objects;
        let ghost added = object@;
        state.objects.push(object);
        assert(state@.objects =~= before.push(added));
        *largest = advance_mark(*largest, (self.info.group_id, object_id));
        Ok(writer)
    }

    /// Writes a chunk of the object at a place.
    pub fn write_chunk(
        &mut self,
        state: &mut SubgroupState,
        i: usize,
        writer: &mut SubgroupObjectWriter,
        chunk: Bytes,
    ) -> (r: Result<(), ServeError>)
        requires
            i < old(state)@.objects.len(),
        ensures
            *final(self) == *old(self),
            bytes_view(chunk).len() > old(writer).remain() ==> {
                &&& r == Err::<(), ServeError>(ServeError::Size)
                &&& *final(writer) == *old(writer)
                &&& final(state)@ == old(state)@
            },
            bytes_view(chunk).len() <= old(writer).remain() ==> {
                let o = old(state)@.objects[i as int];
                &&& final(writer).remain() == old(writer).remain() - bytes_view(chunk).len()
                &&& r == if o.live {
                    Ok::<(), ServeError>(())
                } else {
                    Err(ServeError::Cancel)
                }
                &&& final(state)@ == if o.live {
                    (SubgroupView {
                        objects: old(state)@.objects.update(
                            i as int,
                            ObjectView { chunks: o.chunks.push(bytes_view(chunk)), ..o },
                        ),
                        ..old(state)@
                    })
                } else {
                    old(state)@
                }
            },
    {
        let ghost before = state@.objects;
        let r: Result<(), ServeError> = writer.write(&mut state.objects[i], chunk);
        proof {
            assert(state@.objects =~= before.update(i as int, state.objects@[i as int]@));
            if state.objects@[i as int]@ == before[i as int] {
                assert(state@.objects =~= before);
            }
        }
        r
    }

    /// The writer of an object goes.
    pub fn release_object(
        &mut self,
        state: &mut SubgroupState,
        i: usize,
        writer: SubgroupObjectWriter,
    )
        requires
            i < old(state)@.objects.len(),
        ensures
            *final(self) == *old(self),
            final(state)@ == (SubgroupView {
                objects: old(state)@.objects.update(
                    i as int,
                    released(old(state)@.objects[i as int], writer.remain()),
                ),
                ..old(state)@
            }),
    {
        let ghost before = state@.objects;
        writer.release(&mut state.objects[i]);
        assert(state@.objects =~= before.update(i as int, state.objects@[i as int]@));
    }

    /// Closes the subgroup with an error.
    pub fn close(self, state: &mut SubgroupState, err: ServeError) -> (r: Result<(), ServeError>)
        ensures
            r == close_result(old(state)@.closed, old(state)@.live),
            final(state)@ == if r is Ok {
                (SubgroupView { closed: Err(err), ..old(state)@ })
            } else {
                old(state)@
            },
    {
        close_with(&mut state.closed, state.live, err)
    }

    pub fn len(&self, state: &SubgroupState) -> (n: usize)
        ensures
            n == state@.objects.len(),
    {
        state.objects.len()
    }

    pub fn is_empty(&self, state: &SubgroupState) -> (r: bool)
        ensures
            r == (state@.objects.len() == 0),
    {
        state.objects.len() == 0
    }
}

/// A place in a subgroup.
#[derive(Copy, Clone, Debug)]
pub struct SubgroupReader {
    read_index: usize,
}

impl SubgroupReader {
    /// How many objects were read.
    pub closed spec fn position(&self) -> nat {
        self.read_index as nat
    }

    /// A reader at the start of a subgroup.
    pub fn start() -> (r: Self)
        ensures
            r.position() == 0,
    {
        SubgroupReader { read_index: 0 }
    }

    /// The number of the last object.
    pub fn latest(&self, state: &SubgroupState) -> (r: Option<u64>)
        ensures
            r == if state@.objects.len() == 0 {
                None
            } else {
                Some(state@.objects.last().object_id)
            },
    {
        let n: usize = state.objects.len();
        if n == 0 {
            None
        } else {
            Some(state.objects[n - 1].object_id)
        }
    }

    /// Reads the next object, as its place in the subgroup.
    pub fn next(&mut self, state: &SubgroupState) -> (r: ReadOutcome<usize>)
        requires
            old(self).position() <= state@.objects.len(),
        ensures
            old(self).position() < state@.objects.len() ==> {
                &&& r matches ReadOutcome::Item(i)
                &&& i == old(self).position()
                &&& final(self).position() == old(self).position() + 1
            },
            old(self).position() == state@.objects.len() ==> {
                &&& r == drained::<usize>(state@.closed, state@.live)
                &&& final(self).position() == old(self).position()
            },
    {
        if self.read_index < state.objects.len() {
            let i: usize = self.read_index;
            self.read_index = i + 1;
            return ReadOutcome::Item(i);
        }
        drained_outcome(&state.closed, state.live)
    }

    /// Reads the next object whole. As long as the object is being written, the
    /// reader stays before it.
    pub fn read_next(&mut self, state: &SubgroupState) -> (r: ReadOutcome<Bytes>)
        requires
            old(self).position() <= state@.objects.len(),
        ensures
            shown(r) == next_whole(state@, old(self).position()).0,
            final(self).position() == next_whole(state@, old(self).position()).1,
    {
        if self.read_index < state.objects.len() {
            let object: &SubgroupObject = &state.objects[self.read_index];
            let mut reader = SubgroupObjectReader::start();
            assert(object@.chunks.skip(0) =~= object@.chunks);
            let r: ReadOutcome<Bytes> = reader.read_all(object);
            match &r {
                ReadOutcome::Pending => {},
                _ => {
                    self.read_index = self.read_index + 1;
                },
            }
            return r;
        }
        drained_outcome(&state.closed, state.live)
    }

    pub fn pos(&self) -> (n: usize)
        ensures
            n == self.position(),
    {
        self.read_index
    }

    pub fn len(&self, state: &SubgroupState) -> (n: usize)
        ensures
            n == state@.objects.len(),
    {
        state.objects.len()
    }

    pub fn is_empty(&self, state: &SubgroupState) -> (r: bool)
        ensures
            r == (state@.objects.len() == 0),
    {
        state.objects.len() == 0
    }
}

/// An outcome with the bytes that it shows.
pub open spec fn shown(r: ReadOutcome<Bytes>) -> ReadOutcome<Seq<u8>> {
    match r {
        ReadOutcome::Item(b) => ReadOutcome::Item(bytes_view(b)),
        ReadOutcome::Closed(e) => ReadOutcome::Closed(e),
        ReadOutcome::End => ReadOutcome::End,
        ReadOutcome::Pending => ReadOutcome::Pending,
    }
}

/// An object as it is read whole: its payload, the error it was closed with, or
/// nothing as long as it is being written.
pub open spec fn read_whole(object: ObjectView) -> ReadOutcome<Seq<u8>> {
    match drained::<Seq<u8>>(object.closed, object.live) {
        ReadOutcome::End => ReadOutcome::Item(object.payload()),
        other => other,
    }
}

/// What a reader before an object of a subgroup gets, and where it then is.
pub open spec fn next_whole(group: SubgroupView, at: nat) -> (ReadOutcome<Seq<u8>>, nat) {
    if at < group.objects.len() {
        let r = read_whole(group.objects[at as int]);
        (r, if r is Pending {
            at
        } else {
            at + 1
        })
    } else {
        (drained(group.closed, group.live), at)
    }
}

/// What a reader gets that reads a subgroup again and again as it grows, once
/// in each of the given states: all that led it on, in order, and where it then
/// is.
pub open spec fn whole_reads(states: Seq<SubgroupView>, at: nat) -> (
    Seq<ReadOutcome<Seq<u8>>>,
    nat,
)
    decreases states.len(),
{
    if states.len() == 0 {
        (Seq::empty(), at)
    } else {
        let (got, mid) = whole_reads(states.drop_last(), at);
        let (r, after) = next_whole(states.last(), mid);
        if after > mid {
            (got.push(r), after)
        } else {
            (got, mid)
        }
    }
}

/// An object as it may be later: it keeps its chunks, one that has ended stays
/// as it is, and one that was closed stays closed.
pub open spec fn object_grew(before: ObjectView, after: ObjectView) -> bool {
    &&& before.chunks.is_prefix_of(after.chunks)
    &&& match drained::<Seq<u8>>(before.closed, before.live) {
        ReadOutcome::End => after == before,
        ReadOutcome::Closed(e) => after.closed == before.closed,
        _ => true,
    }
}

/// A subgroup as it may be later: it keeps its objects, one that has ended gets
/// no more, and one that was closed stays closed.
pub open spec fn group_grew(before: SubgroupView, after: SubgroupView) -> bool {
    &&& after.info == before.info
    &&& before.objects.len() <= after.objects.len()
    &&& forall|i: int|
        0 <= i < before.objects.len() ==> object_grew(
            #[trigger] before.objects[i],
            after.objects[i],
        )
    &&& match drained::<Seq<u8>>(before.closed, before.live) {
        ReadOutcome::End => {
            &&& after.objects.len() == before.objects.len()
            &&& after.closed == before.closed
            &&& after.live == before.live
        },
        ReadOutcome::Closed(e) => after.closed == before.closed,
        _ => true,
    }
}

/// Writing a whole object only adds to its subgroup.
pub proof fn law_written_subgroup_grew(
    writer: SubgroupWriter,
    writer_after: SubgroupWriter,
    state: SubgroupView,
    state_after: SubgroupView,
    largest: Option<(u64, u64)>,
    largest_after: Option<(u64, u64)>,
    payload: Seq<u8>,
    extension_headers: Seq<PairView>,
    r: Result<(), ServeError>,
)
    requires
        wrote_whole(
            writer,
            writer_after,
            state,
            state_after,
            largest,
            largest_after,
            payload,
            extension_headers,
            r,
        ),
    ensures
        group_grew(state, state_after),
{
}

/// Whoever reads a subgroup object by object as it grows, however often an
/// object was not there or not whole yet, gets every object once and in order:
/// its payload whole, or the error that it was closed with. What was read is
/// what the subgroup holds in the end.
pub proof fn law_objects_are_read_whole_and_in_order(states: Seq<SubgroupView>, at: nat)
    requires
        states.len() > 0,
        at <= states[0].objects.len(),
        forall|i: int, j: int|
            0 <= i <= j < states.len() ==> group_grew(#[trigger] states[i], #[trigger] states[j]),
    ensures
        ({
            let (got, after) = whole_reads(states, at);
            let group = states.last();
            &&& at <= after <= group.objects.len()
            &&& got.len() == after - at
            &&& forall|k: int|
                0 <= k < got.len() ==> {
                    &&& (#[trigger] got[k]) == read_whole(group.objects[at + k])
                    &&& !(got[k] is Pending)
                }
        }),
    decreases states.len(),
{
    let group = states.last();
    let earlier = states.drop_last();
    let (got, mid) = whole_reads(earlier, at);
    if earlier.len() > 0 {
        law_objects_are_read_whole_and_in_order(earlier, at);
        let last = earlier.last();
        assert(last == states[states.len() - 2]);
        assert(group_grew(last, group));
        assert forall|k: int| 0 <= k < got.len() implies (#[trigger] got[k]) == read_whole(
            group.objects[at + k],
        ) by {
            assert(got[k] == read_whole(last.objects[at + k]));
            assert(object_grew(last.objects[at + k], group.objects[at + k]));
        }
    } else {
        assert(states[0] == group);
        assert(earlier =~= Seq::empty());
    }
}

/// What the subgroups of a track hold, in the order of creation.
pub open spec fn groups_view(groups: Seq<SubgroupState>) -> Seq<SubgroupView> {
    groups.map_values(|g: SubgroupState| g@)
}

/// Chunks one after the other give the bytes one after the other.
pub proof fn law_concat_joins(a: Seq<Seq<u8>>, b: Seq<Seq<u8>>)
    ensures
        concat(a + b) == concat(a) + concat(b),
        a.len() == 0 ==> concat(a).len() == 0,
        a.len() == 1 ==> concat(a) == a[0],
    decreases b.len(),
{
    reveal_with_fuel(concat, 2);
    if a.len() == 1 {
        assert(a.drop_last() =~= Seq::empty());
        assert(concat(a) =~= a[0]);
    }
    if b.len() == 0 {
        assert(a + b =~= a);
        assert(concat(a) + concat(b) =~= concat(a));
    } else {
        law_concat_joins(a, b.drop_last());
        assert((a + b).drop_last() =~= a + b.drop_last());
        assert((concat(a) + concat(b.drop_last())) + b.last() =~= concat(a) + concat(b));
    }
}

/// A whole object stands last in its subgroup, under the next number, with the
/// payload and the headers it was written with and of just that size; the others
/// stay, and the track's largest location is no longer before it. Where nobody
/// reads the subgroup nothing is written. Either way the number is used up.
pub proof fn law_written_object_stands_last(
    writer: SubgroupWriter,
    writer_after: SubgroupWriter,
    state: SubgroupView,
    state_after: SubgroupView,
    largest: Option<(u64, u64)>,
    largest_after: Option<(u64, u64)>,
    payload: Seq<u8>,
    extension_headers: Seq<PairView>,
    r: Result<(), ServeError>,
)
    requires
        payload.len() <= usize::MAX,
        wrote_whole(
            writer,
            writer_after,
            state,
            state_after,
            largest,
            largest_after,
            payload,
            extension_headers,
            r,
        ),
    ensures
        (r is Ok) == state.live,
        writer_after.next_object() == writer.next_object() + 1,
        writer_after.spec_info() == writer.spec_info(),
        state.live ==> {
            let n = state.objects.len();
            let o = state_after.objects[n as int];
            let g = writer.spec_info().group_id;
            &&& state_after.objects.len() == n + 1
            &&& forall|i: int| 0 <= i < n ==> #[trigger] state_after.objects[i] == state.objects[i]
            &&& o.object_id == writer.next_object()
            &&& o.size == payload.len()
            &&& o.status == ObjectStatus::NormalObject
            &&& o.extension_headers == extension_headers
            &&& o.payload() == payload
            &&& o.chunks.len() == 1
            &&& o.closed is Ok
            &&& !o.live
            &&& state_after.info == state.info
            &&& state_after.closed == state.closed
            &&& state_after.live
            &&& largest is None ==> largest_after == Some((g, writer.next_object()))
            &&& largest matches Some(l) ==> {
                &&& (l.0 < g || (l.0 == g && l.1 <= writer.next_object())) ==> largest_after
                    == Some((g, writer.next_object()))
                &&& !(l.0 < g || (l.0 == g && l.1 <= writer.next_object())) ==> largest_after
                    == largest
            }
        },
        !state.live ==> {
            &&& r == Err::<(), ServeError>(ServeError::Cancel)
            &&& state_after == state
            &&& largest_after == largest
        },
{
    law_whole_object_reads_back(writer.next_object(), payload, extension_headers);
}

/// An object whose writer goes keeps what was written. Only one that is read and
/// short of its size is closed, for its size; nothing more comes of any.
pub proof fn law_released_object_keeps_its_bytes(object: ObjectView, remain: usize)
    ensures
        ({
            let after = released(object, remain);
            &&& !after.live
            &&& after.chunks == object.chunks
            &&& after.object_id == object.object_id
            &&& after.size == object.size
            &&& after.status == object.status
            &&& after.extension_headers == object.extension_headers
            &&& remain == 0 ==> after.closed == object.closed
            &&& !object.live ==> after.closed == object.closed
            &&& remain > 0 && object.live ==> after.closed == Err::<(), ServeError>(
                ServeError::Size,
            )
        }),
{
}

/// An object is read whole where its writer is gone and it was not closed; one
/// that was closed gives its error, and one that is being written nothing. The
/// reader goes on to the next object exactly where it got something.
pub proof fn law_object_is_read_once_it_is_whole(group: SubgroupView, at: nat)
    ensures
        ({
            let (r, after) = next_whole(group, at);
            &&& at < group.objects.len() ==> {
                let o = group.objects[at as int];
                &&& o.closed matches Err(e) ==> r == ReadOutcome::<Seq<u8>>::Closed(e) && after
                    == at + 1
                &&& o.closed is Ok && !o.live ==> r == ReadOutcome::Item(o.payload()) && after
                    == at + 1
                &&& o.closed is Ok && o.live ==> r is Pending && after == at
            }
            &&& at >= group.objects.len() ==> {
                &&& after == at
                &&& group.closed matches Err(e) ==> r == ReadOutcome::<Seq<u8>>::Closed(e)
                &&& group.closed is Ok && !group.live ==> r is End
                &&& group.closed is Ok && group.live ==> r is Pending
            }
        }),
        SubgroupView::fresh(group.info).objects.len() == 0,
        SubgroupView::fresh(group.info).info == group.info,
        SubgroupView::fresh(group.info).live,
        SubgroupView::fresh(group.info).closed is Ok,
{
}

/// What is there of a subgroup stays: an object keeps the bytes that were
/// written of it, in their places, and one that has ended is never changed.
pub proof fn law_grown_subgroup_keeps_its_bytes(
    before: SubgroupView,
    after: SubgroupView,
    i: int,
    k: int,
)
    requires
        group_grew(before, after),
        0 <= i < before.objects.len(),
        0 <= k < before.objects[i].chunks.len(),
    ensures
        after.info == before.info,
        i < after.objects.len(),
        k < after.objects[i].chunks.len(),
        after.objects[i].chunks[k] == before.objects[i].chunks[k],
        !before.objects[i].live && before.objects[i].closed is Ok ==> after.objects[i]
            == before.objects[i],
        before.objects[i].closed is Err ==> after.objects[i].closed == before.objects[i].closed,
        !before.live && before.closed is Ok ==> after.objects.len() == before.objects.len(),
{
    assert(object_grew(before.objects[i], after.objects[i]));
    assert(before.objects[i].chunks =~= after.objects[i].chunks.take(
        before.objects[i].chunks.len() as int,
    ));
}

} // verus!
