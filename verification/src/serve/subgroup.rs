//! A track of subgroups: every subgroup reaches every reader, and what all of
//! them have read is given up.
//!
//! The queue keeps what some active reader has yet to read, and the latest
//! subgroup for whoever joins late. The identities of what was given up
//! collapse into one frontier, at or below which nothing can be created again.

use std::collections::VecDeque;
use vstd::prelude::*;

use super::{
    advance_mark, advanced, at_most, close_result, close_with, drained, drained_outcome,
    location_at_most, ReadOutcome, ServeError,
};

verus! {

/// What a subgroup is created with.
#[derive(Copy, Clone, Debug, PartialEq, Eq, Structural)]
pub struct Subgroup {
    /// The sequence number of the group within the track. Groups may come out
    /// of order and with gaps.
    pub group_id: u64,
    /// The sequence number of the subgroup within the group, likewise.
    pub subgroup_id: u64,
    pub priority: u8,
}

impl Subgroup {
    /// What identifies a subgroup within its track.
    pub open spec fn key(self) -> (u64, u64) {
        (self.group_id, self.subgroup_id)
    }
}

/// Where an active reader stands.
#[derive(Copy, Clone, Debug)]
struct Cursor {
    id: u64,
    index: usize,
}

/// No identity was created twice.
spec fn keys_distinct(created: Seq<Subgroup>) -> bool {
    forall|i: int, j: int|
        0 <= i < j < created.len() ==> (#[trigger] created[i]).key() != (
        #[trigger] created[j]).key()
}

/// A frontier is the greatest identity that was given up.
pub open spec fn is_frontier(given_up: Seq<Subgroup>, frontier: Option<(u64, u64)>) -> bool {
    match frontier {
        None => given_up.len() == 0,
        Some(f) => {
            &&& exists|i: int| 0 <= i < given_up.len() && (#[trigger] given_up[i]).key() == f
            &&& forall|i: int|
                0 <= i < given_up.len() ==> at_most((#[trigger] given_up[i]).key(), f)
        },
    }
}

/// The front of a queue is where the slowest active reader stands, and the
/// latest subgroup at most.
pub open spec fn is_front(first: nat, created: nat, cursors: Map<u64, usize>) -> bool {
    created > 0 ==> {
        &&& first < created
        &&& forall|id: u64| #[trigger] cursors.dom().contains(id) ==> first <= cursors[id]
        &&& first == created - 1 || exists|id: u64| #[trigger]
            cursors.dom().contains(id) && cursors[id] == first
    }
}

/// There is one front at most.
pub proof fn law_front_is_unique(a: nat, b: nat, created: nat, cursors: Map<u64, usize>)
    requires
        created > 0,
        is_front(a, created, cursors),
        is_front(b, created, cursors),
    ensures
        a == b,
{
}

/// No active reader misses what it has yet to read.
spec fn cursors_within(cursors: Map<u64, usize>, first: int, end: int, next: u64) -> bool {
    forall|id: u64| #[trigger]
        cursors.dom().contains(id) ==> first <= cursors[id] <= end && id < next
}

/// The list of cursors and the map of them say the same.
spec fn cursors_match(list: Seq<Cursor>, cursors: Map<u64, usize>) -> bool {
    &&& forall|i: int|
        0 <= i < list.len() ==> cursors.dom().contains((#[trigger] list[i]).id)
            && cursors[list[i].id] == list[i].index
    &&& forall|id: u64| #[trigger]
        cursors.dom().contains(id) ==> exists|i: int|
            0 <= i < list.len() && (#[trigger] list[i]).id == id
    &&& forall|i: int, j: int|
        0 <= i < j < list.len() ==> (#[trigger] list[i]).id != (#[trigger] list[j]).id
}

proof fn lemma_frontier_advances(
    given_up: Seq<Subgroup>,
    frontier: Option<(u64, u64)>,
    next: Subgroup,
)
    requires
        is_frontier(given_up, frontier),
    ensures
        is_frontier(given_up.push(next), advanced(frontier, next.key())),
{
    let n = given_up.len() as int;
    let longer = given_up.push(next);
    let f = advanced(frontier, next.key())->0;
    assert(longer[n] == next);
    if frontier == Some(f) {
        let k = choose|k: int| 0 <= k < n && (#[trigger] given_up[k]).key() == f;
        assert(longer[k].key() == f);
    }
    assert forall|k: int| 0 <= k < longer.len() implies at_most((#[trigger] longer[k]).key(), f) by {
        if k < n {
            assert(at_most(given_up[k].key(), frontier->0));
        }
    }
}

/// The subgroups of a track, as its writer and its readers share them.
pub struct SubgroupsState {
    subgroups: VecDeque<Subgroup>,
    first_index: usize,
    retired_through: Option<(u64, u64)>,
    reader_cursors: Vec<Cursor>,
    next_cursor: u64,
    closed: Result<(), ServeError>,
    live: bool,
    largest: Option<(u64, u64)>,
    created: Ghost<Seq<Subgroup>>,
    cursors: Ghost<Map<u64, usize>>,
}

impl SubgroupsState {
    /// Every subgroup that was ever created, in order.
    pub closed spec fn created(&self) -> Seq<Subgroup> {
        self.created@
    }

    /// How many subgroups at the front were given up.
    pub closed spec fn first(&self) -> nat {
        self.first_index as nat
    }

    /// The greatest identity among those given up.
    pub closed spec fn frontier(&self) -> Option<(u64, u64)> {
        self.retired_through
    }

    /// How far each active reader has read.
    pub closed spec fn cursors(&self) -> Map<u64, usize> {
        self.cursors@
    }

    /// How many readers were ever active.
    pub closed spec fn activations(&self) -> u64 {
        self.next_cursor
    }

    pub closed spec fn spec_closed(&self) -> Result<(), ServeError> {
        self.closed
    }

    /// Whether both the writer and a reader are there.
    pub closed spec fn spec_live(&self) -> bool {
        self.live
    }

    /// The largest group and object that was written on the track.
    pub closed spec fn largest(&self) -> Option<(u64, u64)> {
        self.largest
    }

    /// Whether an identity may not be created: it is at or below the frontier,
    /// or it is retained.
    pub open spec fn key_closed(&self, key: (u64, u64)) -> bool {
        ||| (self.frontier() matches Some(f) && at_most(key, f))
        ||| exists|i: int|
            self.first() <= i < self.created().len() && (#[trigger] self.created()[i]).key() == key
    }

    /// What every operation keeps.
    pub closed spec fn wf(&self) -> bool {
        // the queue holds what was created and not given up
        &&& self.created@.len() == self.first_index + self.subgroups@.len() <= usize::MAX
        &&& self.subgroups@ == self.created@.skip(self.first_index as int)
        &&& self.created@.len() > 0 ==> self.subgroups@.len() > 0
        &&& keys_distinct(self.created@)
        &&& is_frontier(self.created@.take(self.first_index as int), self.retired_through)
        &&& cursors_within(
            self.cursors@,
            self.first_index as int,
            self.created@.len() as int,
            self.next_cursor,
        )
        &&& cursors_match(self.reader_cursors@, self.cursors@)
    }

    /// Nothing is retained but what some active reader has yet to read, and
    /// the latest subgroup.
    pub open spec fn trimmed(&self) -> bool {
        is_front(self.first(), self.created().len(), self.cursors())
    }

    /// Everything but the queue's front and the readers is as it was.
    pub open spec fn same_track(&self, before: &SubgroupsState) -> bool {
        &&& self.created() == before.created()
        &&& self.spec_closed() == before.spec_closed()
        &&& self.spec_live() == before.spec_live()
        &&& self.largest() == before.largest()
    }

    /// Everything but the largest location is as it was.
    pub open spec fn same_but_mark(&self, before: &SubgroupsState) -> bool {
        &&& self.created() == before.created()
        &&& self.first() == before.first()
        &&& self.frontier() == before.frontier()
        &&& self.cursors() == before.cursors()
        &&& self.activations() == before.activations()
        &&& self.spec_closed() == before.spec_closed()
        &&& self.spec_live() == before.spec_live()
    }

    pub fn new() -> (r: Self)
        ensures
            r.wf(),
            r.created().len() == 0,
            r.first() == 0,
            r.frontier() is None,
            r.cursors() == Map::<u64, usize>::empty(),
            r.activations() == 0,
            r.spec_closed() == Ok::<(), ServeError>(()),
            r.spec_live(),
            r.largest() is None,
    {
        let r = SubgroupsState {
            subgroups: VecDeque::new(),
            first_index: 0,
            retired_through: None,
            reader_cursors: Vec::new(),
            next_cursor: 0,
            closed: Ok(()),
            live: true,
            largest: None,
            created: Ghost(Seq::empty()),
            cursors: Ghost(Map::empty()),
        };
        assert(r.created@.skip(0) =~= r.subgroups@);
        assert(r.created@.take(0).len() == 0);
        r
    }

    /// How many subgroups are retained.
    pub fn retained(&self) -> (n: usize)
        requires
            self.wf(),
        ensures
            n == self.created().len() - self.first(),
    {
        self.subgroups.len()
    }

    pub fn first_index(&self) -> (n: usize)
        ensures
            n == self.first(),
    {
        self.first_index
    }

    pub fn retired_through(&self) -> (r: Option<(u64, u64)>)
        ensures
            r == self.frontier(),
    {
        self.retired_through
    }

    /// The other side goes.
    pub fn drop_side(&mut self)
        requires
            old(self).wf(),
        ensures
            final(self).wf(),
            final(self).created() == old(self).created(),
            final(self).first() == old(self).first(),
            final(self).frontier() == old(self).frontier(),
            final(self).cursors() == old(self).cursors(),
            final(self).activations() == old(self).activations(),
            final(self).spec_closed() == old(self).spec_closed(),
            final(self).largest() == old(self).largest(),
            !final(self).spec_live(),
    {
        self.live = false;
    }

    /// Closes the track with an error.
    pub fn close(&mut self, err: ServeError) -> (r: Result<(), ServeError>)
        requires
            old(self).wf(),
        ensures
            final(self).wf(),
            final(self).created() == old(self).created(),
            final(self).first() == old(self).first(),
            final(self).frontier() == old(self).frontier(),
            final(self).cursors() == old(self).cursors(),
            final(self).activations() == old(self).activations(),
            final(self).spec_live() == old(self).spec_live(),
            final(self).largest() == old(self).largest(),
            r == close_result(old(self).spec_closed(), old(self).spec_live()),
            final(self).spec_closed() == if r is Ok {
                Err::<(), ServeError>(err)
            } else {
                old(self).spec_closed()
            },
    {
        close_with(&mut self.closed, self.live, err)
    }

    /// The largest group and object that was written on the track.
    pub fn largest_location(&self) -> (r: Option<(u64, u64)>)
        ensures
            r == self.largest(),
    {
        self.largest
    }

    /// An object was announced at a place: the largest location moves there,
    /// where it is not beyond it.
    pub fn record(&mut self, location: (u64, u64))
        requires
            old(self).wf(),
        ensures
            final(self).wf(),
            final(self).same_but_mark(old(self)),
            final(self).largest() == advanced(old(self).largest(), location),
    {
        self.largest = advance_mark(self.largest, location);
    }

    /// Registers an active reader at a place.
    fn register_reader(&mut self, read_index: usize) -> (id: u64)
        requires
            old(self).wf(),
            old(self).first() <= read_index <= old(self).created().len(),
            old(self).activations() < u64::MAX,
        ensures
            final(self).wf(),
            final(self).same_track(old(self)),
            final(self).first() == old(self).first(),
            final(self).frontier() == old(self).frontier(),
            final(self).activations() == old(self).activations() + 1,
            !old(self).cursors().dom().contains(id),
            final(self).cursors() == old(self).cursors().insert(id, read_index),
    {
        let id: u64 = self.next_cursor;
        self.next_cursor = id + 1;
        self.reader_cursors.push(Cursor { id, index: read_index });
        self.cursors = Ghost(self.cursors@.insert(id, read_index));
        proof {
            let n = old(self).reader_cursors@.len() as int;
            assert(self.reader_cursors@[n].id == id);
            assert forall|x: u64| #[trigger] self.cursors@.dom().contains(x) implies exists|i: int|
                0 <= i < self.reader_cursors@.len() && (#[trigger] self.reader_cursors@[i]).id
                    == x by {
                if x == id {
                    assert(self.reader_cursors@[n].id == x);
                } else {
                    assert(old(self).cursors@.dom().contains(x));
                    let i = choose|i: int|
                        0 <= i < n && (#[trigger] old(self).reader_cursors@[i]).id == x;
                    assert(self.reader_cursors@[i].id == x);
                }
            }
        }
        id
    }

    /// The index of a reader in the list of cursors.
    fn cursor_position(&self, id: u64) -> (i: usize)
        requires
            self.wf(),
            self.cursors().dom().contains(id),
        ensures
            i < self.reader_cursors@.len(),
            self.reader_cursors@[i as int].id == id,
    {
        let mut i: usize = 0;
        proof {
            let k = choose|k: int|
                0 <= k < self.reader_cursors@.len() && (#[trigger] self.reader_cursors@[k]).id == id;
            assert(self.reader_cursors@[k].id == id);
        }
        while i < self.reader_cursors.len()
            invariant
                i <= self.reader_cursors@.len(),
                forall|j: int| 0 <= j < i ==> (#[trigger] self.reader_cursors@[j]).id != id,
                exists|k: int|
                    0 <= k < self.reader_cursors@.len() && (#[trigger] self.reader_cursors@[k]).id
                        == id,
            decreases self.reader_cursors@.len() - i,
        {
            if self.reader_cursors[i].id == id {
                return i;
            }
            i = i + 1;
        }
        proof {
            assert(false);
        }
        0
    }

    /// Moves an active reader forward.
    fn store_cursor(&mut self, id: u64, read_index: usize)
        requires
            old(self).wf(),
            old(self).cursors().dom().contains(id),
            old(self).first() <= read_index <= old(self).created().len(),
        ensures
            final(self).wf(),
            final(self).same_track(old(self)),
            final(self).first() == old(self).first(),
            final(self).frontier() == old(self).frontier(),
            final(self).activations() == old(self).activations(),
            final(self).cursors() == old(self).cursors().insert(id, read_index),
    {
        let i: usize = self.cursor_position(id);
        self.reader_cursors[i] = Cursor { id, index: read_index };
        self.cursors = Ghost(self.cursors@.insert(id, read_index));
        proof {
            assert forall|x: u64| #[trigger] self.cursors@.dom().contains(x) implies exists|k: int|
                0 <= k < self.reader_cursors@.len() && (#[trigger] self.reader_cursors@[k]).id
                    == x by {
                assert(old(self).cursors@.dom().contains(x));
                let k = choose|k: int|
                    0 <= k < old(self).reader_cursors@.len() && (#[trigger] old(
                        self,
                    ).reader_cursors@[k]).id == x;
                assert(self.reader_cursors@[k].id == x);
            }
        }
    }

    /// Forgets an active reader.
    fn remove_cursor(&mut self, id: u64)
        requires
            old(self).wf(),
            old(self).cursors().dom().contains(id),
        ensures
            final(self).wf(),
            final(self).same_track(old(self)),
            final(self).first() == old(self).first(),
            final(self).frontier() == old(self).frontier(),
            final(self).activations() == old(self).activations(),
            final(self).cursors() == old(self).cursors().remove(id),
    {
        let i: usize = self.cursor_position(id);
        let _ = self.reader_cursors.remove(i);
        self.cursors = Ghost(self.cursors@.remove(id));
        proof {
            let before = old(self).reader_cursors@;
            let after = self.reader_cursors@;
            assert(after =~= before.remove(i as int));
            assert forall|k: int| 0 <= k < after.len() implies self.cursors@.dom().contains(
                (#[trigger] after[k]).id,
            ) && self.cursors@[after[k].id] == after[k].index by {
                let o = if k < i {
                    k
                } else {
                    k + 1
                };
                assert(after[k] == before[o]);
                assert(before[o].id != before[i as int].id);
            }
            assert forall|x: u64| #[trigger] self.cursors@.dom().contains(x) implies exists|k: int|
                0 <= k < after.len() && (#[trigger] after[k]).id == x by {
                assert(old(self).cursors@.dom().contains(x));
                let o = choose|o: int| 0 <= o < before.len() && (#[trigger] before[o]).id == x;
                if o < i {
                    assert(after[o].id == x);
                } else {
                    assert(after[o - 1].id == x);
                }
            }
        }
    }

    /// The place of the reader that is furthest behind, or the end of the
    /// track where no reader is active.
    fn oldest_needed(&self) -> (oldest: usize)
        requires
            self.wf(),
        ensures
            self.first() <= oldest <= self.created().len(),
            forall|id: u64| #[trigger]
                self.cursors().dom().contains(id) ==> oldest <= self.cursors()[id],
            oldest == self.created().len() || exists|id: u64| #[trigger]
                self.cursors().dom().contains(id) && self.cursors()[id] == oldest,
    {
        let mut oldest: usize = self.first_index + self.subgroups.len();
        let mut i: usize = 0;
        while i < self.reader_cursors.len()
            invariant
                self.wf(),
                i <= self.reader_cursors@.len(),
                self.first_index <= oldest <= self.created@.len(),
                forall|j: int|
                    0 <= j < i ==> oldest <= (#[trigger] self.reader_cursors@[j]).index,
                oldest == self.created@.len() || exists|id: u64| #[trigger]
                    self.cursors().dom().contains(id) && self.cursors()[id] == oldest,
            decreases self.reader_cursors@.len() - i,
        {
            let c: Cursor = self.reader_cursors[i];
            assert(self.cursors().dom().contains(c.id));
            if c.index < oldest {
                oldest = c.index;
            }
            i = i + 1;
        }
        proof {
            assert forall|id: u64| #[trigger] self.cursors().dom().contains(id) implies oldest
                <= self.cursors()[id] by {
                let k = choose|k: int|
                    0 <= k < self.reader_cursors@.len() && (#[trigger] self.reader_cursors@[k]).id
                        == id;
                assert(oldest <= self.reader_cursors@[k].index);
            }
        }
        oldest
    }

    /// Gives up what every active reader has read, but for the latest
    /// subgroup.
    fn prune_consumed(&mut self)
        requires
            old(self).wf(),
        ensures
            final(self).wf(),
            final(self).same_track(old(self)),
            final(self).cursors() == old(self).cursors(),
            final(self).activations() == old(self).activations(),
            final(self).first() >= old(self).first(),
            final(self).trimmed(),
    {
        let oldest: usize = self.oldest_needed();
        if self.subgroups.len() == 0 {
            return;
        }
        let latest: usize = self.first_index + (self.subgroups.len() - 1);
        let retain_from: usize = if oldest < latest {
            oldest
        } else {
            latest
        };
        let ghost standing = self.cursors();
        while self.first_index < retain_from
            invariant
                self.wf(),
                self.same_track(old(self)),
                self.cursors() == standing,
                standing == old(self).cursors(),
                self.next_cursor == old(self).next_cursor,
                old(self).first_index <= self.first_index <= retain_from,
                retain_from < self.created@.len(),
                forall|id: u64| #[trigger]
                    standing.dom().contains(id) ==> retain_from <= standing[id],
                retain_from == self.created@.len() - 1 || exists|id: u64| #[trigger]
                    standing.dom().contains(id) && standing[id] == retain_from,
            decreases retain_from - self.first_index,
        {
            proof {
                assert(self.subgroups@.len() > 1);
                assert(self.subgroups@[0] == self.created@[self.first_index as int]);
            }
            let ghost before = *self;
            match self.subgroups.pop_front() {
                Some(subgroup) => {
                    let key: (u64, u64) = (subgroup.group_id, subgroup.subgroup_id);
                    self.retired_through = advance_mark(self.retired_through, key);
                    self.first_index = self.first_index + 1;
                    proof {
                        let n = before.first_index as int;
                        assert(self.subgroups@ =~= self.created@.skip(n + 1));
                        lemma_frontier_advances(
                            self.created@.take(n),
                            before.retired_through,
                            subgroup,
                        );
                        assert(self.created@.take(n).push(subgroup) =~= self.created@.take(n + 1));
                    }
                },
                None => {},
            }
        }
    }
}

/// The one who creates a track's subgroups.
pub struct SubgroupsWriter {
    next_subgroup_id: u64,
    next_group_id: u64,
    last_group_id: u64,
}

/// A count with one more, where there is room.
pub open spec fn saturating_succ(n: u64) -> u64 {
    if n == u64::MAX {
        n
    } else {
        (n + 1) as u64
    }
}

/// How the one who creates a track's subgroups goes on.
pub ghost struct WriterView {
    /// The number after that of the last subgroup.
    pub next_subgroup: u64,
    /// The group that the next append opens.
    pub next_group: u64,
    /// The group of the last subgroup.
    pub last_group: u64,
}

impl WriterView {
    /// A writer that has created nothing.
    pub open spec fn fresh() -> WriterView {
        WriterView { next_subgroup: 0, next_group: 0, last_group: 0 }
    }

    /// The writer, once it has created a subgroup.
    pub open spec fn created(self, subgroup: Subgroup) -> WriterView {
        let after = saturating_succ(subgroup.group_id);
        WriterView {
            next_subgroup: saturating_succ(subgroup.subgroup_id),
            next_group: if after > self.next_group {
                after
            } else {
                self.next_group
            },
            last_group: subgroup.group_id,
        }
    }
}

impl View for SubgroupsWriter {
    type V = WriterView;

    closed spec fn view(&self) -> WriterView {
        WriterView {
            next_subgroup: self.next_subgroup_id,
            next_group: self.next_group_id,
            last_group: self.last_group_id,
        }
    }
}

impl SubgroupsWriter {
    /// The group that the next append opens.
    pub open spec fn next_group(&self) -> u64 {
        self@.next_group
    }

    /// The next append opens a group beyond every group so far, while there is
    /// one.
    pub open spec fn wf(&self, state: &SubgroupsState) -> bool {
        self.next_group() < u64::MAX ==> forall|i: int|
            0 <= i < state.created().len() ==> (#[trigger] state.created()[i]).group_id
                < self.next_group()
    }

    /// Opens the next group with one subgroup.
    pub fn append(&mut self, state: &mut SubgroupsState, priority: u8) -> (r: Result<
        Subgroup,
        ServeError,
    >)
        requires
            old(state).wf(),
            old(self).wf(old(state)),
            old(state).created().len() < usize::MAX,
        ensures
            final(state).wf(),
            final(self).wf(final(state)),
            !old(state).spec_live() ==> r == Err::<Subgroup, ServeError>(ServeError::Cancel),
            old(state).spec_live() && old(self).next_group() < u64::MAX ==> r is Ok,
            r matches Err(e) ==> {
                &&& *final(state) == *old(state)
                &&& *final(self) == *old(self)
                &&& old(state).spec_live() ==> e == ServeError::Duplicate && old(state).key_closed(
                    (old(self).next_group(), 0),
                )
            },
            r matches Ok(subgroup) ==> {
                &&& subgroup == (Subgroup {
                    group_id: old(self).next_group(),
                    subgroup_id: 0,
                    priority,
                })
                &&& final(state).created() == old(state).created().push(subgroup)
                &&& final(self)@ == old(self)@.created(subgroup)
                &&& created_rest(old(state), final(state))
            },
    {
        proof {
            if state.live && self.next_group_id < u64::MAX {
                let key = (self.next_group_id, 0u64);
                assert(!state.key_closed(key)) by {
                    if let Some(f) = state.retired_through {
                        let given_up = state.created@.take(state.first_index as int);
                        let i = choose|i: int|
                            0 <= i < given_up.len() && (#[trigger] given_up[i]).key() == f;
                        assert(state.created()[i].group_id < self.next_group_id);
                    }
                }
            }
        }
        self.create(state, Subgroup { group_id: self.next_group_id, subgroup_id: 0, priority })
    }

    /// Creates a subgroup. Groups may be created out of order, but nothing at
    /// or below what was given up, and nothing twice.
    pub fn create(&mut self, state: &mut SubgroupsState, subgroup: Subgroup) -> (r: Result<
        Subgroup,
        ServeError,
    >)
        requires
            old(state).wf(),
            old(self).wf(old(state)),
            old(state).created().len() < usize::MAX,
        ensures
            final(state).wf(),
            final(self).wf(final(state)),
            creation(*old(self), *final(self), *old(state), *final(state), subgroup, r),
    {
        if !state.live {
            return Err(ServeError::Cancel);
        }
        let key: (u64, u64) = (subgroup.group_id, subgroup.subgroup_id);
        if let Some(frontier) = state.retired_through {
            if location_at_most(key, frontier) {
                return Err(ServeError::Duplicate);
            }
        }
        let mut i: usize = 0;
        while i < state.subgroups.len()
            invariant
                state.wf(),
                *state == *old(state),
                *self == *old(self),
                old(self).wf(old(state)),
                state.live,
                key == subgroup.key(),
                i <= state.subgroups@.len(),
                forall|j: int|
                    state.first_index <= j < state.first_index + i ==> (
                    #[trigger] state.created@[j]).key() != key,
            decreases state.subgroups@.len() - i,
        {
            let s: Subgroup = state.subgroups[i];
            assert(s == state.created@[state.first_index + i]);
            if s.group_id == key.0 && s.subgroup_id == key.1 {
                assert(state.created()[state.first_index + i].key() == key);
                return Err(ServeError::Duplicate);
            }
            i = i + 1;
        }
        proof {
            assert(!state.key_closed(key));
        }
        self.next_subgroup_id = subgroup.subgroup_id.saturating_add(1);
        let after: u64 = subgroup.group_id.saturating_add(1);
        if after > self.next_group_id {
            self.next_group_id = after;
        }
        self.last_group_id = subgroup.group_id;
        state.subgroups.push_back(subgroup);
        state.created = Ghost(state.created@.push(subgroup));
        proof {
            let n = old(state).created@.len() as int;
            assert(state.created@[n] == subgroup);
            assert(state.subgroups@ =~= state.created@.skip(state.first_index as int));
            assert forall|a: int, b: int| 0 <= a < b < state.created@.len() implies (
            #[trigger] state.created@[a]).key() != (#[trigger] state.created@[b]).key() by {
                if b == n && a < state.first_index {
                    let given_up = old(state).created@.take(state.first_index as int);
                    assert(given_up[a] == old(state).created@[a]);
                    assert(at_most(given_up[a].key(), old(state).retired_through->0));
                }
            }
            assert(state.created@.take(state.first_index as int) =~= old(state).created@.take(
                state.first_index as int,
            ));
        }
        state.prune_consumed();
        Ok(subgroup)
    }

    /// Closes the track with an error.
    pub fn close(self, state: &mut SubgroupsState, err: ServeError) -> (r: Result<(), ServeError>)
        requires
            old(state).wf(),
        ensures
            final(state).wf(),
            final(state).created() == old(state).created(),
            final(state).first() == old(state).first(),
            final(state).frontier() == old(state).frontier(),
            final(state).cursors() == old(state).cursors(),
            final(state).activations() == old(state).activations(),
            final(state).spec_live() == old(state).spec_live(),
            final(state).largest() == old(state).largest(),
            r == close_result(old(state).spec_closed(), old(state).spec_live()),
            final(state).spec_closed() == if r is Ok {
                Err::<(), ServeError>(err)
            } else {
                old(state).spec_closed()
            },
    {
        state.close(err)
    }
}

/// What the creation of a subgroup leaves as it was, and what it gives up.
pub open spec fn created_rest(before: &SubgroupsState, after: &SubgroupsState) -> bool {
    &&& after.cursors() == before.cursors()
    &&& after.activations() == before.activations()
    &&& after.spec_closed() == before.spec_closed()
    &&& after.spec_live() == before.spec_live()
    &&& after.largest() == before.largest()
    &&& after.first() >= before.first()
    &&& after.trimmed()
    &&& is_frontier(after.created().take(after.first() as int), after.frontier())
}

/// A place in a track's subgroups. While it is active, what it has yet to read
/// is retained.
pub struct SubgroupsReader {
    read_index: usize,
    active_cursor: Option<u64>,
}

/// What a reader finds at a place of a track, and the place that it goes on
/// from.
pub open spec fn read_at(
    created: Seq<Subgroup>,
    closed: Result<(), ServeError>,
    live: bool,
    at: nat,
) -> (ReadOutcome<Subgroup>, nat) {
    if at < created.len() {
        (ReadOutcome::Item(created[at as int]), at + 1)
    } else {
        (drained(closed, live), at)
    }
}

/// What a number of reads in a row find, from a place on.
pub open spec fn reads(
    created: Seq<Subgroup>,
    closed: Result<(), ServeError>,
    live: bool,
    at: nat,
    n: nat,
) -> Seq<ReadOutcome<Subgroup>>
    decreases n,
{
    if n == 0 {
        Seq::empty()
    } else {
        let (found, next) = read_at(created, closed, live, at);
        seq![found] + reads(created, closed, live, next, (n - 1) as nat)
    }
}

impl SubgroupsReader {
    /// The place, in the order of creation, of the subgroup read next.
    pub closed spec fn position(&self) -> nat {
        self.read_index as nat
    }

    /// The number that the reader is registered under, while it is active.
    pub closed spec fn cursor(&self) -> Option<u64> {
        self.active_cursor
    }

    /// The reader belongs to the track.
    pub open spec fn wf(&self, state: &SubgroupsState) -> bool {
        &&& self.position() <= state.created().len()
        &&& self.cursor() matches Some(id) ==> state.cursors().dom().contains(id)
            && state.cursors()[id] == self.position()
    }

    /// The place that reading goes on from: an inactive reader skips what was
    /// given up.
    pub open spec fn resume(&self, state: &SubgroupsState) -> nat {
        if self.position() < state.first() {
            state.first()
        } else {
            self.position()
        }
    }

    /// A reader at the start of a new track.
    pub fn new(state: &mut SubgroupsState) -> (r: Self)
        requires
            old(state).wf(),
            old(state).activations() < u64::MAX,
        ensures
            final(state).wf(),
            final(state).same_track(old(state)),
            final(state).first() == old(state).first(),
            final(state).frontier() == old(state).frontier(),
            r.wf(final(state)),
            r.position() == old(state).first(),
            r.cursor() matches Some(id) && !old(state).cursors().dom().contains(id)
                && final(state).cursors() == old(state).cursors().insert(id, r.position() as usize),
            final(state).activations() == old(state).activations() + 1,
    {
        let mut reader = SubgroupsReader { read_index: 0, active_cursor: None };
        reader.activate(state);
        reader
    }

    pub fn pos(&self) -> (n: usize)
        ensures
            n == self.position(),
    {
        self.read_index
    }

    /// Registers the reader, where it is not.
    fn activate(&mut self, state: &mut SubgroupsState)
        requires
            old(state).wf(),
            old(self).wf(old(state)),
            old(self).cursor() is None ==> old(state).activations() < u64::MAX,
        ensures
            final(state).wf(),
            final(self).wf(final(state)),
            final(state).same_track(old(state)),
            final(state).first() == old(state).first(),
            final(state).frontier() == old(state).frontier(),
            final(self).position() == old(self).resume(old(state)),
            old(self).cursor() is Some ==> *final(state) == *old(state) && *final(self) == *old(
                self,
            ),
            old(self).cursor() is None ==> {
                &&& final(self).cursor() matches Some(id)
                &&& !old(state).cursors().dom().contains(id)
                &&& final(state).cursors() == old(state).cursors().insert(
                    id,
                    final(self).position() as usize,
                )
                &&& final(state).activations() == old(state).activations() + 1
            },
    {
        if self.active_cursor.is_some() {
            return;
        }
        if self.read_index < state.first_index {
            self.read_index = state.first_index;
        }
        self.active_cursor = Some(state.register_reader(self.read_index));
    }

    /// Moves an active reader forward and gives up what nobody needs any more.
    fn advance(&mut self, state: &mut SubgroupsState, read_index: usize)
        requires
            old(state).wf(),
            old(self).wf(old(state)),
            old(self).cursor() is Some,
            old(self).position() <= read_index <= old(state).created().len(),
        ensures
            final(state).wf(),
            final(self).wf(final(state)),
            final(state).same_track(old(state)),
            final(state).first() >= old(state).first(),
            final(state).activations() == old(state).activations(),
            final(self).position() == read_index,
            final(self).cursor() == old(self).cursor(),
            final(state).cursors() == old(state).cursors().insert(
                old(self).cursor()->0,
                read_index,
            ),
            final(state).trimmed(),
    {
        self.read_index = read_index;
        if let Some(id) = self.active_cursor {
            state.store_cursor(id, read_index);
        }
        state.prune_consumed();
    }

    /// Stops retaining anything: what is left is a template, to be cloned for
    /// whoever joins late.
    pub fn into_template(self, state: &mut SubgroupsState) -> (r: Self)
        requires
            old(state).wf(),
            self.wf(old(state)),
        ensures
            final(state).wf(),
            r.wf(final(state)),
            final(state).same_track(old(state)),
            final(state).first() >= old(state).first(),
            final(state).activations() == old(state).activations(),
            final(state).cursors() == (match self.cursor() {
                Some(id) => old(state).cursors().remove(id),
                None => old(state).cursors(),
            }),
            final(state).trimmed(),
            r.cursor() is None,
            r.position() == self.position(),
    {
        if let Some(id) = self.active_cursor {
            state.remove_cursor(id);
        }
        state.prune_consumed();
        SubgroupsReader { read_index: self.read_index, active_cursor: None }
    }

    /// Reads the next subgroup, in the order of creation.
    pub fn next(&mut self, state: &mut SubgroupsState) -> (r: ReadOutcome<Subgroup>)
        requires
            old(state).wf(),
            old(self).wf(old(state)),
            old(self).cursor() is None ==> old(state).activations() < u64::MAX,
        ensures
            final(state).wf(),
            final(self).wf(final(state)),
            final(state).same_track(old(state)),
            final(self).cursor() is Some,
            old(self).cursor() is Some ==> final(self).cursor() == old(self).cursor(),
            old(self).cursor() is None ==> !old(state).cursors().dom().contains(
                final(self).cursor()->0,
            ),
            final(state).cursors() == old(state).cursors().insert(
                final(self).cursor()->0,
                final(self).position() as usize,
            ),
            (r, final(self).position()) == read_at(
                old(state).created(),
                old(state).spec_closed(),
                old(state).spec_live(),
                old(self).resume(old(state)),
            ),
            final(state).activations() == old(state).activations() + if old(self).cursor()
                is None {
                1int
            } else {
                0
            },
            final(state).first() >= old(state).first(),
            r is Item ==> final(state).trimmed(),
            !(r is Item) ==> final(state).first() == old(state).first(),
            r is Item ==> is_frontier(
                final(state).created().take(final(state).first() as int),
                final(state).frontier(),
            ),
            !(r is Item) ==> final(state).frontier() == old(state).frontier(),
    {
        self.activate(state);
        let i: usize = self.read_index - state.first_index;
        if i < state.subgroups.len() {
            let subgroup: Subgroup = state.subgroups[i];
            assert(subgroup == state.created@[self.read_index as int]);
            self.advance(state, self.read_index + 1);
            proof {
                let id = self.active_cursor->0;
                assert(state.cursors@ =~= old(state).cursors@.insert(id, self.read_index));
            }
            return ReadOutcome::Item(subgroup);
        }
        proof {
            let id = self.active_cursor->0;
            assert(state.cursors@ =~= old(state).cursors@.insert(id, self.read_index));
        }
        drained_outcome(&state.closed, state.live)
    }

    /// A second reader. One made from an active reader goes on from the same
    /// place; one made from a template starts at the latest subgroup.
    pub fn fork(&self, state: &mut SubgroupsState) -> (r: Self)
        requires
            old(state).wf(),
            self.wf(old(state)),
            old(state).activations() < u64::MAX,
        ensures
            final(state).wf(),
            final(state).same_track(old(state)),
            final(state).first() == old(state).first(),
            final(state).frontier() == old(state).frontier(),
            r.wf(final(state)),
            self.wf(final(state)),
            r.cursor() matches Some(id) && !old(state).cursors().dom().contains(id)
                && final(state).cursors() == old(state).cursors().insert(id, r.position() as usize),
            final(state).activations() == old(state).activations() + 1,
            self.cursor() is Some ==> r.position() == self.position(),
            self.cursor() is None ==> r.position() == if old(state).created().len() == 0 {
                0
            } else {
                old(state).created().len() - 1
            },
    {
        let read_index: usize = if self.active_cursor.is_none() {
            let n: usize = state.subgroups.len();
            state.first_index + (if n == 0 {
                0
            } else {
                n - 1
            })
        } else if self.read_index < state.first_index {
            state.first_index
        } else {
            self.read_index
        };
        let id: u64 = state.register_reader(read_index);
        SubgroupsReader { read_index, active_cursor: Some(id) }
    }

    /// The reader goes, and with it what only it needed.
    pub fn release(self, state: &mut SubgroupsState)
        requires
            old(state).wf(),
            self.wf(old(state)),
        ensures
            final(state).wf(),
            final(state).same_track(old(state)),
            final(state).first() >= old(state).first(),
            final(state).activations() == old(state).activations(),
            final(state).cursors() == (match self.cursor() {
                Some(id) => old(state).cursors().remove(id),
                None => old(state).cursors(),
            }),
            final(state).trimmed(),
    {
        let _ = self.into_template(state);
    }

    /// The largest group and object that was written on the track.
    pub fn latest(&self, state: &SubgroupsState) -> (r: Option<(u64, u64)>)
        ensures
            r == state.largest(),
    {
        state.largest
    }

    pub fn is_closed(&self, state: &SubgroupsState) -> (r: bool)
        ensures
            r == (state.spec_closed() is Err || !state.spec_live()),
    {
        state.closed.is_err() || !state.live
    }
}

/// A track that is served as subgroups.
pub struct Subgroups {}

impl Subgroups {
    /// An empty track, with its writer and a first reader.
    pub fn produce(self) -> (r: (SubgroupsState, SubgroupsWriter, SubgroupsReader))
        ensures
            r.0.wf(),
            r.1.wf(&r.0),
            r.2.wf(&r.0),
            r.0.created().len() == 0,
            r.0.first() == 0,
            r.0.frontier() is None,
            r.0.activations() == 1,
            r.0.spec_closed() == Ok::<(), ServeError>(()),
            r.0.spec_live(),
            r.0.largest() is None,
            r.1@ == WriterView::fresh(),
            r.2.position() == 0,
            r.2.cursor() matches Some(id) && r.0.cursors() == Map::<u64, usize>::empty().insert(
                id,
                0,
            ),
    {
        let mut state = SubgroupsState::new();
        let reader = SubgroupsReader::new(&mut state);
        let writer = SubgroupsWriter { next_subgroup_id: 0, next_group_id: 0, last_group_id: 0 };
        (state, writer, reader)
    }
}

/// As long as nothing was given up there is no frontier, and no more is ever
/// given up than was created.
pub proof fn lemma_given_up(state: SubgroupsState)
    requires
        state.wf(),
    ensures
        state.first() == 0 ==> state.frontier() is None,
        state.first() <= state.created().len(),
        state.created().len() > 0 ==> state.first() < state.created().len(),
{
}

/// No identity is ever created twice, whatever was given up in between: an
/// identity that was created is closed for good.
pub proof fn law_created_identity_stays_closed(state: SubgroupsState, i: int)
    requires
        state.wf(),
        0 <= i < state.created().len(),
    ensures
        state.key_closed(state.created()[i].key()),
{
    if i < state.first() {
        let given_up = state.created@.take(state.first_index as int);
        assert(at_most(given_up[i].key(), state.retired_through->0));
    }
}

/// The identities on a track are all different.
pub proof fn law_identities_are_unique(state: SubgroupsState, i: int, j: int)
    requires
        state.wf(),
        0 <= i < state.created().len(),
        0 <= j < state.created().len(),
        i != j,
    ensures
        state.created()[i].key() != state.created()[j].key(),
{
    if i < j {
        assert(state.created@[i].key() != state.created@[j].key());
    } else {
        assert(state.created@[j].key() != state.created@[i].key());
    }
}

/// What an active reader has yet to read is retained, however far others are.
pub proof fn law_active_reader_misses_nothing(state: SubgroupsState, reader: SubgroupsReader)
    requires
        state.wf(),
        reader.wf(&state),
        reader.cursor() is Some,
    ensures
        state.first() <= reader.position(),
        reader.resume(&state) == reader.position(),
{
    let id = reader.cursor()->0;
    assert(state.cursors@.dom().contains(id));
}

/// How the creation of a subgroup goes: a key that is retained, or at or below
/// the greatest one that was given up, is refused, and nothing changes; any
/// other is created, in whatever order.
pub open spec fn creation(
    writer: SubgroupsWriter,
    writer_after: SubgroupsWriter,
    state: SubgroupsState,
    state_after: SubgroupsState,
    subgroup: Subgroup,
    r: Result<Subgroup, ServeError>,
) -> bool {
    &&& r == if !state.spec_live() {
        Err::<Subgroup, ServeError>(ServeError::Cancel)
    } else if state.key_closed(subgroup.key()) {
        Err(ServeError::Duplicate)
    } else {
        Ok(subgroup)
    }
    &&& r is Err ==> state_after == state && writer_after == writer
    &&& r is Ok ==> {
        &&& state_after.created() == state.created().push(subgroup)
        &&& writer_after@ == writer@.created(subgroup)
        &&& created_rest(&state, &state_after)
    }
}

/// On a track that is read, exactly the keys that are retained or at or below
/// the greatest one given up are refused as duplicates, among them every key
/// that was created before; a refusal delivers nothing and leaves the next
/// group as it was, and any other key is created.
pub proof fn law_creation_refuses_exactly_closed_keys(
    writer: SubgroupsWriter,
    writer_after: SubgroupsWriter,
    state: SubgroupsState,
    state_after: SubgroupsState,
    subgroup: Subgroup,
    r: Result<Subgroup, ServeError>,
)
    requires
        state.wf(),
        state.spec_live(),
        creation(writer, writer_after, state, state_after, subgroup, r),
    ensures
        (r == Err::<Subgroup, ServeError>(ServeError::Duplicate)) == state.key_closed(
            subgroup.key(),
        ),
        r is Ok == !state.key_closed(subgroup.key()),
        (exists|i: int|
            0 <= i < state.created().len() && (#[trigger] state.created()[i]).key()
                == subgroup.key()) ==> r == Err::<Subgroup, ServeError>(ServeError::Duplicate),
        r is Err ==> state_after.created() == state.created() && writer_after.next_group()
            == writer.next_group(),
        r is Ok ==> state_after.created() == state.created().push(subgroup),
{
    if exists|i: int|
        0 <= i < state.created().len() && (#[trigger] state.created()[i]).key() == subgroup.key() {
        let i = choose|i: int|
            0 <= i < state.created().len() && (#[trigger] state.created()[i]).key()
                == subgroup.key();
        law_created_identity_stays_closed(state, i);
    }
}

/// A reader that is active from a place on gets every subgroup created from
/// there on, once and in the order of creation, and then the end once the
/// writer is gone.
pub proof fn law_active_reader_gets_everything_in_order(created: Seq<Subgroup>, at: nat)
    requires
        at <= created.len(),
    ensures
        reads(created, Ok(()), false, at, (created.len() - at + 1) as nat) == created.skip(
            at as int,
        ).map_values(|s: Subgroup| ReadOutcome::Item(s)).push(ReadOutcome::End),
    decreases created.len() - at,
{
    let items = |from: nat|
        created.skip(from as int).map_values(|s: Subgroup| ReadOutcome::Item(s));
    if at < created.len() {
        law_active_reader_gets_everything_in_order(created, at + 1);
        assert(items(at) =~= seq![ReadOutcome::Item(created[at as int])] + items(at + 1));
        assert(reads(created, Ok(()), false, at, (created.len() - at + 1) as nat) =~= items(
            at,
        ).push(ReadOutcome::End));
    } else {
        reveal_with_fuel(reads, 2);
        assert(reads(created, Ok(()), false, at, 1) =~= items(at).push(ReadOutcome::End));
    }
}

/// The frontier is the greatest identity among the subgroups that were given
/// up.
pub proof fn law_frontier_is_the_greatest_given_up(state: SubgroupsState)
    requires
        state.wf(),
    ensures
        is_frontier(state.created().take(state.first() as int), state.frontier()),
{
}

/// Where every active reader has read everything, or none is active, only the
/// latest subgroup is retained.
pub proof fn law_retention_is_bounded(state: SubgroupsState)
    requires
        state.wf(),
        state.trimmed(),
        state.created().len() > 0,
        forall|id: u64| #[trigger]
            state.cursors().dom().contains(id) ==> state.cursors()[id] == state.created().len(),
    ensures
        state.first() == state.created().len() - 1,
{
    if state.first() != state.created().len() - 1 {
        let id = choose|id: u64| #[trigger]
            state.cursors().dom().contains(id) && state.cursors()[id] == state.first();
        assert(state.subgroups@.len() > 0);
        assert(state.cursors().dom().contains(id));
        assert(state.cursors()[id] == state.created().len());
        assert(state.created@.len() == state.first_index + state.subgroups@.len());
    }
}

/// A reader finds the subgroup that was created at its place and goes on to the
/// next one; where none was created yet it stays, and finds the error that the
/// track was closed with, or the end once the writer is gone.
pub proof fn law_read_gives_the_subgroup_at_its_place(
    created: Seq<Subgroup>,
    closed: Result<(), ServeError>,
    live: bool,
    at: nat,
)
    ensures
        ({
            let (r, next) = read_at(created, closed, live, at);
            &&& at < created.len() ==> r == ReadOutcome::Item(created[at as int]) && next == at + 1
            &&& at >= created.len() ==> {
                &&& next == at
                &&& closed matches Err(e) ==> r == ReadOutcome::<Subgroup>::Closed(e)
                &&& closed is Ok && live ==> r is Pending
                &&& closed is Ok && !live ==> r is End
            }
        }),
{
}

/// An active reader goes on from where it stands, and an inactive one from what
/// the track still retains, where that is later.
pub proof fn law_reading_goes_on_from_what_is_retained(
    state: SubgroupsState,
    reader: SubgroupsReader,
)
    requires
        state.wf(),
        reader.wf(&state),
    ensures
        reader.resume(&state) >= reader.position(),
        reader.resume(&state) >= state.first(),
        reader.resume(&state) == reader.position() || reader.resume(&state) == state.first(),
        reader.cursor() is Some ==> reader.resume(&state) == reader.position(),
{
    if reader.cursor() is Some {
        law_active_reader_misses_nothing(state, reader);
    }
}

/// What a track has given up is below or at its frontier, and only what is
/// retained or there is closed for new subgroups: any identity beyond the
/// frontier that is not retained may be created.
pub proof fn law_identity_is_free_beyond_the_frontier(state: SubgroupsState, key: (u64, u64))
    requires
        state.wf(),
        forall|i: int|
            0 <= i < state.created().len() ==> {
                let other = (#[trigger] state.created()[i]).key();
                &&& other != key
                &&& i < state.first() ==> other.0 < key.0 || (other.0 == key.0 && other.1 < key.1)
            },
    ensures
        !state.key_closed(key),
{
    if let Some(f) = state.frontier() {
        let given_up = state.created().take(state.first() as int);
        let i = choose|i: int| 0 <= i < given_up.len() && (#[trigger] given_up[i]).key() == f;
        assert(state.created()[i].key() == f);
    }
}

/// An identity below or at one that was given up is closed, though it was never
/// created itself.
pub proof fn law_late_identity_is_closed(state: SubgroupsState, i: int, key: (u64, u64))
    requires
        state.wf(),
        0 <= i < state.first(),
        key.0 < state.created()[i].group_id || (key.0 == state.created()[i].group_id && key.1
            <= state.created()[i].subgroup_id),
    ensures
        state.key_closed(key),
{
    let given_up = state.created().take(state.first() as int);
    lemma_given_up(state);
    assert(given_up[i].key() == state.created()[i].key());
    assert(at_most(given_up[i].key(), state.frontier()->0));
}

/// The writer goes on with the group after the largest one so far, and with the
/// subgroup after the last one. At the largest number it stays.
pub proof fn law_writer_goes_on_after_the_largest_group(w: WriterView, s: Subgroup)
    ensures
        ({
            let after = w.created(s);
            &&& after.last_group == s.group_id
            &&& s.group_id < u64::MAX ==> after.next_group > s.group_id
            &&& after.next_group >= w.next_group
            &&& s.group_id < w.next_group ==> after.next_group == w.next_group
            &&& w.next_group <= s.group_id < u64::MAX ==> after.next_group == s.group_id + 1
            &&& s.subgroup_id < u64::MAX ==> after.next_subgroup == s.subgroup_id + 1
            &&& s.subgroup_id == u64::MAX ==> after.next_subgroup == u64::MAX
            &&& s.group_id == u64::MAX ==> after.next_group == u64::MAX
        }),
        WriterView::fresh().next_group == 0,
        WriterView::fresh().next_subgroup == 0,
        WriterView::fresh().last_group == 0,
        s.key() == (s.group_id, s.subgroup_id),
{
}

/// A subgroup that was created stands last, with its numbers and its priority,
/// after all the others as they were; it neither moves nor wakes any reader, and
/// what is given up for it every active reader has read.
pub proof fn law_created_subgroup_stands_last(
    writer: SubgroupsWriter,
    writer_after: SubgroupsWriter,
    state: SubgroupsState,
    state_after: SubgroupsState,
    subgroup: Subgroup,
    r: Result<Subgroup, ServeError>,
)
    requires
        state.wf(),
        state_after.wf(),
        creation(writer, writer_after, state, state_after, subgroup, r),
    ensures
        !state.spec_live() ==> r == Err::<Subgroup, ServeError>(ServeError::Cancel),
        r is Err ==> state_after == state && writer_after == writer,
        r matches Ok(s) ==> {
            let n = state.created().len();
            &&& s == subgroup
            &&& state_after.created().len() == n + 1
            &&& state_after.created()[n as int] == subgroup
            &&& forall|i: int|
                0 <= i < n ==> #[trigger] state_after.created()[i] == state.created()[i]
            &&& state_after.cursors() == state.cursors()
            &&& state_after.largest() == state.largest()
            &&& state_after.spec_closed() == state.spec_closed()
            &&& state_after.spec_live() == state.spec_live()
            &&& state.first() <= state_after.first() <= n
            &&& forall|id: u64| #[trigger]
                state.cursors().dom().contains(id) ==> state_after.first() <= state.cursors()[id]
            &&& (forall|id: u64| #[trigger]
                state.cursors().dom().contains(id) ==> state.cursors()[id] >= n)
                ==> state_after.first() == n
        },
{
    if r is Ok {
        let n = state.created().len();
        assert(is_front(state_after.first(), n + 1, state.cursors()));
    }
}

/// A subgroup that was created tells its writer how to go on: with a later group,
/// and after it in its own.
pub proof fn law_creation_moves_the_writer(
    writer: SubgroupsWriter,
    writer_after: SubgroupsWriter,
    state: SubgroupsState,
    state_after: SubgroupsState,
    subgroup: Subgroup,
    r: Result<Subgroup, ServeError>,
)
    requires
        creation(writer, writer_after, state, state_after, subgroup, r),
        r is Ok,
    ensures
        writer_after@.last_group == subgroup.group_id,
        writer_after@.next_group >= writer@.next_group,
        subgroup.group_id < u64::MAX ==> writer_after@.next_group > subgroup.group_id,
        subgroup.group_id < writer@.next_group ==> writer_after@.next_group == writer@.next_group,
        writer@.next_group <= subgroup.group_id < u64::MAX ==> writer_after@.next_group
            == subgroup.group_id + 1,
        subgroup.subgroup_id < u64::MAX ==> writer_after@.next_subgroup == subgroup.subgroup_id
            + 1,
        state_after.activations() == state.activations(),
{
}

/// Readers that come, go on and leave change nothing of what a track carries.
pub proof fn law_readers_leave_the_track(before: SubgroupsState, after: SubgroupsState)
    requires
        after.same_track(&before),
    ensures
        after.created() == before.created(),
        after.largest() == before.largest(),
        after.spec_closed() == before.spec_closed(),
        after.spec_live() == before.spec_live(),
{
}

/// Recording an object moves the track's largest location and nothing else.
pub proof fn law_recording_moves_only_the_mark(before: SubgroupsState, after: SubgroupsState)
    requires
        after.same_but_mark(&before),
    ensures
        after.created() == before.created(),
        after.first() == before.first(),
        after.frontier() == before.frontier(),
        after.cursors() == before.cursors(),
        after.activations() == before.activations(),
        after.spec_closed() == before.spec_closed(),
        after.spec_live() == before.spec_live(),
{
}

} // verus!
