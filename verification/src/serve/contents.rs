//! What a track carries: its subgroups with their objects, each at the place
//! that its identity has in the track.

use vstd::prelude::*;

use super::object::{group_grew, groups_view, SubgroupState, SubgroupView, SubgroupWriter};
use super::subgroup::{Subgroup, SubgroupsState};

verus! {

/// The identities of subgroups.
pub open spec fn identities(groups: Seq<SubgroupView>) -> Seq<Subgroup> {
    groups.map_values(|g: SubgroupView| g.info)
}

/// The subgroups of a track, in the order of creation. Those that nobody reads
/// any more are given up, from the front on.
pub struct TrackContents {
    gone: Ghost<Seq<SubgroupView>>,
    base: usize,
    groups: Vec<SubgroupState>,
}

/// All the subgroups that there ever were. One that was given up stays as it
/// was then.
impl View for TrackContents {
    type V = Seq<SubgroupView>;

    closed spec fn view(&self) -> Seq<SubgroupView> {
        self.gone@ + groups_view(self.groups@)
    }
}

impl TrackContents {
    /// How many subgroups at the front were given up.
    pub closed spec fn base(&self) -> nat {
        self.base as nat
    }

    /// What every operation keeps.
    pub closed spec fn wf(&self) -> bool {
        &&& self.gone@.len() == self.base
        &&& self.base + self.groups@.len() <= usize::MAX
    }

    /// These are the contents of the track that has created these subgroups.
    pub open spec fn belong(&self, created: Seq<Subgroup>) -> bool {
        &&& self.wf()
        &&& identities(self@) == created
    }

    /// These are the contents of a track, and nothing was given up that an
    /// active reader may still be in.
    pub open spec fn of(&self, state: &SubgroupsState) -> bool {
        &&& self.belong(state.created())
        &&& self.base() == 0 || self.base() < state.first()
    }

    /// Whether what stands at a place was not given up.
    pub open spec fn keeps(&self, place: int) -> bool {
        self.base() <= place < self@.len()
    }

    pub fn new() -> (r: Self)
        ensures
            r.wf(),
            r@ == Seq::<SubgroupView>::empty(),
            r.base() == 0,
    {
        let r = TrackContents { gone: Ghost(Seq::empty()), base: 0, groups: Vec::new() };
        assert(r@ =~= Seq::empty());
        r
    }

    /// How many subgroups there ever were.
    pub fn len(&self) -> (n: usize)
        requires
            self.wf(),
        ensures
            n == self@.len(),
    {
        self.base + self.groups.len()
    }

    /// How many subgroups at the front were given up.
    pub fn given_up(&self) -> (n: usize)
        ensures
            n == self.base(),
    {
        self.base
    }

    /// The subgroup at a place, unless it was given up.
    pub fn get(&self, place: usize) -> (r: Option<&SubgroupState>)
        requires
            self.wf(),
        ensures
            match r {
                Some(group) => self.keeps(place as int) && group@ == self@[place as int],
                None => !self.keeps(place as int),
            },
    {
        if place < self.base || place - self.base >= self.groups.len() {
            return None;
        }
        Some(&self.groups[place - self.base])
    }

    /// The subgroup at a place, to be written.
    pub fn group_mut(&mut self, place: usize) -> (r: &mut SubgroupState)
        requires
            old(self).wf(),
            old(self).keeps(place as int),
        ensures
            r@ == old(self)@[place as int],
            final(self)@ == old(self)@.update(place as int, final(r)@),
            final(self).base() == old(self).base(),
            final(self).wf(),
    {
        let i: usize = place - self.base;
        &mut self.groups[i]
    }

    /// A subgroup was created on the track: its contents follow all the others.
    pub fn open(&mut self, info: Subgroup) -> (writer: SubgroupWriter)
        requires
            old(self).wf(),
            old(self)@.len() < usize::MAX,
        ensures
            final(self).wf(),
            final(self)@ == old(self)@.push(SubgroupView::fresh(info)),
            final(self).base() == old(self).base(),
            final(self).keeps(old(self)@.len() as int),
            writer.spec_info() == info,
            writer.next_object() == 0,
    {
        let (state, writer, _reader) = SubgroupState::produce(info);
        self.groups.push(state);
        assert(self@ =~= old(self)@.push(SubgroupView::fresh(info)));
        writer
    }

    /// Gives up what the track no longer retains, but for the last of it: a
    /// reader that has gone on to what the track retains may still be in that.
    pub fn prune(&mut self, state: &SubgroupsState)
        requires
            state.wf(),
            old(self).of(state),
        ensures
            final(self).of(state),
            final(self)@ == old(self)@,
            final(self).base() == if state.first() > old(self).base() + 1 {
                (state.first() - 1) as nat
            } else {
                old(self).base()
            },
    {
        let first: usize = state.first_index();
        proof {
            super::subgroup::lemma_given_up(*state);
            assert(identities(self@).len() == self@.len());
        }
        while self.base < first && first - self.base > 1
            invariant
                self.wf(),
                self@ == old(self)@,
                first == state.first(),
                first <= self@.len(),
                self.base == old(self).base() || self.base + 1 <= first,
                self.base >= old(self).base(),
            decreases first - self.base,
        {
            let ghost before = self.groups@;
            let group: SubgroupState = self.groups.remove(0);
            self.gone = Ghost(self.gone@.push(group@));
            self.base = self.base + 1;
            assert(self@ =~= old(self)@) by {
                assert(self.groups@ =~= before.skip(1));
            }
        }
    }
}

/// The contents of a track as they may be later: what is there stays, and grows.
pub open spec fn contents_grew(before: Seq<SubgroupView>, after: Seq<SubgroupView>) -> bool {
    &&& before.len() <= after.len()
    &&& forall|i: int| 0 <= i < before.len() ==> group_grew(#[trigger] before[i], after[i])
}

/// What stands at a place of a track's contents is what the track created there.
pub proof fn law_contents_stand_by_identity(contents: TrackContents, created: Seq<Subgroup>, i: int)
    requires
        contents.belong(created),
        0 <= i < created.len(),
    ensures
        contents@.len() == created.len(),
        contents@[i].info == created[i],
{
    assert(identities(contents@)[i] == contents@[i].info);
}

/// The contents of a track are those of its subgroups, in their order, and what
/// an active reader may be in was not given up.
pub proof fn law_read_contents_are_kept(contents: TrackContents, state: SubgroupsState, place: int)
    requires
        state.wf(),
        contents.of(&state),
        0 <= place < state.created().len(),
        place + 1 >= state.first(),
    ensures
        contents.keeps(place),
        contents@[place].info == state.created()[place],
{
    law_contents_stand_by_identity(contents, state.created(), place);
}

/// Contents only grow: every subgroup stays at its place, with its objects.
pub proof fn law_grown_contents_keep_their_places(
    before: Seq<SubgroupView>,
    after: Seq<SubgroupView>,
    i: int,
)
    requires
        contents_grew(before, after),
        0 <= i < before.len(),
    ensures
        i < after.len(),
        after[i].info == before[i].info,
        after[i].objects.len() >= before[i].objects.len(),
        !before[i].live && before[i].closed is Ok ==> after[i].objects.len()
            == before[i].objects.len(),
{
    assert(group_grew(before[i], after[i]));
}

} // verus!
