//! Watched values: a value, the tasks that wait for it to change, and whether
//! all sides that share it are still there.
//!
//! A waiting task is known by a number. Whoever owns the shared cell performs
//! the wake-ups that an operation hands back.

use vstd::prelude::*;

verus! {

/// A value with the tasks that wait for its next change.
pub struct StateInner<T> {
    value: T,
    wakers: Vec<u64>,
    epoch: usize,
    live: bool,
}

/// What a watched value holds.
pub ghost struct StateView<T> {
    pub value: T,
    /// The tasks to wake at the next change, in the order they came.
    pub wakers: Seq<u64>,
    /// How many changes there were.
    pub epoch: usize,
    /// Whether all sides are still there.
    pub live: bool,
}

impl<T> View for StateInner<T> {
    type V = StateView<T>;

    closed spec fn view(&self) -> StateView<T> {
        StateView { value: self.value, wakers: self.wakers@, epoch: self.epoch, live: self.live }
    }
}

impl<T> StateView<T> {
    /// No task is registered twice.
    pub open spec fn wf(self) -> bool {
        self.wakers.no_duplicates()
    }

    /// A task waits for the next change.
    pub open spec fn registered(self, waker: u64) -> StateView<T> {
        if self.wakers.contains(waker) {
            self
        } else {
            StateView { wakers: self.wakers.push(waker), ..self }
        }
    }

    /// A change happens, and nobody waits any more.
    pub open spec fn notified(self) -> StateView<T> {
        StateView { wakers: Seq::empty(), epoch: (self.epoch + 1) as usize, ..self }
    }
}

impl<T> StateInner<T> {
    pub fn new(value: T) -> (r: Self)
        ensures
            r@ == (StateView { value, wakers: Seq::empty(), epoch: 0, live: true }),
            r@.wf(),
    {
        StateInner { value, wakers: Vec::new(), epoch: 0, live: true }
    }

    /// Registers a task, once.
    pub fn register(&mut self, waker: u64)
        requires
            old(self)@.wf(),
        ensures
            final(self)@ == old(self)@.registered(waker),
            final(self)@.wakers.contains(waker),
            final(self)@.wf(),
    {
        let mut i: usize = 0;
        while i < self.wakers.len()
            invariant
                i <= self.wakers@.len(),
                *self == *old(self),
                old(self)@.wf(),
                forall|j: int| 0 <= j < i ==> self.wakers@[j] != waker,
            decreases self.wakers@.len() - i,
        {
            if self.wakers[i] == waker {
                assert(self@.wakers[i as int] == waker);
                return;
            }
            i = i + 1;
        }
        self.wakers.push(waker);
        proof {
            let n = old(self)@.wakers.len() as int;
            assert(self@.wakers[n] == waker);
            assert(!old(self)@.wakers.contains(waker));
        }
    }

    /// Counts a change and hands back the tasks to wake.
    pub fn notify(&mut self) -> (woken: Vec<u64>)
        requires
            old(self)@.epoch < usize::MAX,
        ensures
            final(self)@ == old(self)@.notified(),
            woken@ == old(self)@.wakers,
            final(self)@.wf(),
    {
        self.epoch = self.epoch + 1;
        let mut woken: Vec<u64> = Vec::new();
        core::mem::swap(&mut self.wakers, &mut woken);
        woken
    }
}

#[derive(Copy, Clone, Debug, PartialEq, Eq, Structural)]
pub enum StateError {
    Poisoned,
}

/// A shared value with the number of handles that each of its sides holds. Sides
/// are numbered in the order in which they were made.
///
/// A guard takes the cell and gives it back, so that no two guards can be held
/// at a time.
pub struct State<T> {
    inner: StateInner<T>,
    sides: Vec<usize>,
    poisoned: bool,
}

impl<T> State<T> {
    pub closed spec fn spec_inner(&self) -> StateView<T> {
        self.inner@
    }

    /// How many handles each side holds.
    pub closed spec fn handles(&self) -> Seq<usize> {
        self.sides@
    }

    pub closed spec fn spec_poisoned(&self) -> bool {
        self.poisoned
    }

    /// The same cell around another value.
    pub open spec fn same_cell<U>(&self, other: &State<U>) -> bool {
        &&& self.handles() == other.handles()
        &&& self.spec_poisoned() == other.spec_poisoned()
    }

    /// A value with one side, which holds one handle.
    pub fn new(initial: T) -> (r: Self)
        ensures
            r.spec_inner() == (StateView {
                value: initial,
                wakers: Seq::empty(),
                epoch: 0,
                live: true,
            }),
            r.handles() == seq![1usize],
            !r.spec_poisoned(),
    {
        let mut sides: Vec<usize> = Vec::new();
        sides.push(1);
        assert(sides@ =~= seq![1usize]);
        State { inner: StateInner::new(initial), sides, poisoned: false }
    }

    /// Takes the cell to read it.
    pub fn lock(self) -> (r: StateRef<T>)
        requires
            !self.spec_poisoned(),
        ensures
            r.spec_state() == self,
    {
        StateRef { state: self }
    }

    /// Takes the cell to read it, unless a holder of a guard has failed: then
    /// the cell comes back.
    pub fn try_lock(self) -> (r: Result<StateRef<T>, (StateError, State<T>)>)
        ensures
            match r {
                Ok(guard) => !self.spec_poisoned() && guard.spec_state() == self,
                Err((e, state)) => self.spec_poisoned() && e == StateError::Poisoned && state
                    == self,
            },
    {
        if self.poisoned {
            return Err((StateError::Poisoned, self));
        }
        Ok(StateRef { state: self })
    }

    /// Takes the cell to change it, while all sides are there.
    pub fn lock_mut(self) -> (r: Result<StateMut<T>, State<T>>)
        requires
            !self.spec_poisoned(),
        ensures
            match r {
                Ok(guard) => self.spec_inner().live && guard.spec_state() == self,
                Err(state) => !self.spec_inner().live && state == self,
            },
    {
        if !self.inner.live {
            return Err(self);
        }
        Ok(StateMut { state: self })
    }

    /// Takes the cell to change it, while all sides are there, unless a holder
    /// of a guard has failed. Where it is not taken, the cell comes back.
    pub fn try_lock_mut(self) -> (r: Result<
        Result<StateMut<T>, State<T>>,
        (StateError, State<T>),
    >)
        ensures
            match r {
                Ok(Ok(guard)) => !self.spec_poisoned() && self.spec_inner().live
                    && guard.spec_state() == self,
                Ok(Err(state)) => !self.spec_poisoned() && !self.spec_inner().live && state == self,
                Err((e, state)) => self.spec_poisoned() && e == StateError::Poisoned && state
                    == self,
            },
    {
        if self.poisoned {
            return Err((StateError::Poisoned, self));
        }
        Ok(self.lock_mut())
    }

    /// Makes one more side, with one handle, and tells its number.
    pub fn split(self) -> (r: (Self, usize))
        ensures
            r.0.spec_inner() == self.spec_inner(),
            r.0.handles() == self.handles().push(1),
            r.0.spec_poisoned() == self.spec_poisoned(),
            r.1 == self.handles().len(),
    {
        let mut state = self;
        let side: usize = state.sides.len();
        state.sides.push(1);
        (state, side)
    }

    /// A weak handle of a side, which keeps nothing alive.
    pub fn downgrade(&self, side: usize) -> (r: StateWeak)
        ensures
            r.spec_side() == side,
    {
        StateWeak { side }
    }

    /// One more handle of a side.
    pub fn clone_handle(&mut self, side: usize)
        requires
            side < old(self).handles().len(),
            0 < old(self).handles()[side as int] < usize::MAX,
        ensures
            final(self).spec_inner() == old(self).spec_inner(),
            final(self).spec_poisoned() == old(self).spec_poisoned(),
            final(self).handles() == old(self).handles().update(
                side as int,
                (old(self).handles()[side as int] + 1) as usize,
            ),
    {
        let held: usize = self.sides[side];
        self.sides.set(side, held + 1);
    }

    /// One handle of a side goes. With the last one the value is no longer
    /// live, and everybody who waits is woken; a value whose holder has failed
    /// stays as it is.
    pub fn drop_handle(&mut self, side: usize) -> (woken: Vec<u64>)
        requires
            side < old(self).handles().len(),
            0 < old(self).handles()[side as int],
            old(self).handles()[side as int] == 1 && !old(self).spec_poisoned() ==> old(
                self,
            ).spec_inner().epoch < usize::MAX,
        ensures
            final(self).spec_poisoned() == old(self).spec_poisoned(),
            final(self).handles() == old(self).handles().update(
                side as int,
                (old(self).handles()[side as int] - 1) as usize,
            ),
            if old(self).handles()[side as int] == 1 && !old(self).spec_poisoned() {
                &&& final(self).spec_inner() == (StateView {
                    live: false,
                    ..old(self).spec_inner().notified()
                })
                &&& woken@ == old(self).spec_inner().wakers
            } else {
                &&& final(self).spec_inner() == old(self).spec_inner()
                &&& woken@ == Seq::<u64>::empty()
            },
    {
        let left: usize = self.sides[side] - 1;
        self.sides.set(side, left);
        if left == 0 && !self.poisoned {
            self.inner.live = false;
            self.inner.notify()
        } else {
            Vec::new()
        }
    }

    /// Marks that the holder of a guard has failed.
    pub fn poison(&mut self)
        ensures
            final(self).spec_poisoned(),
            final(self).spec_inner() == old(self).spec_inner(),
            final(self).handles() == old(self).handles(),
    {
        self.poisoned = true;
    }
}

/// The cell, taken to be read.
pub struct StateRef<T> {
    state: State<T>,
}

impl<T> StateRef<T> {
    pub closed spec fn spec_state(&self) -> State<T> {
        self.state
    }

    pub fn get(&self) -> (r: &T)
        ensures
            *r == self.spec_state().spec_inner().value,
    {
        &self.state.inner.value
    }

    /// What to wait for, while all sides are there.
    pub fn modified(&self) -> (r: Option<StateChanged>)
        ensures
            r == if self.spec_state().spec_inner().live {
                Some(StateChanged { epoch: self.spec_state().spec_inner().epoch })
            } else {
                None
            },
    {
        if !self.state.inner.live {
            return None;
        }
        Some(StateChanged { epoch: self.state.inner.epoch })
    }

    /// Goes on to change the value, while all sides are there.
    pub fn into_mut(self) -> (r: Result<StateMut<T>, State<T>>)
        ensures
            match r {
                Ok(guard) => self.spec_state().spec_inner().live && guard.spec_state()
                    == self.spec_state(),
                Err(state) => !self.spec_state().spec_inner().live && state == self.spec_state(),
            },
    {
        if !self.state.inner.live {
            return Err(self.state);
        }
        Ok(StateMut { state: self.state })
    }

    /// Gives the cell back.
    pub fn release(self) -> (r: State<T>)
        ensures
            r == self.spec_state(),
    {
        self.state
    }
}

/// The cell, taken to be changed.
pub struct StateMut<T> {
    state: State<T>,
}

impl<T> StateMut<T> {
    pub closed spec fn spec_state(&self) -> State<T> {
        self.state
    }

    pub fn get(&self) -> (r: &T)
        ensures
            *r == self.spec_state().spec_inner().value,
    {
        &self.state.inner.value
    }

    pub fn set(&mut self, value: T)
        ensures
            final(self).spec_state().spec_inner() == (StateView {
                value,
                ..old(self).spec_state().spec_inner()
            }),
            final(self).spec_state().same_cell(&old(self).spec_state()),
    {
        self.state.inner.value = value;
    }

    /// Gives the cell back, with the tasks to wake: whoever could have changed
    /// the value is taken to have changed it.
    pub fn release(self) -> (r: (State<T>, Vec<u64>))
        requires
            self.spec_state().spec_inner().epoch < usize::MAX,
        ensures
            r.0.spec_inner() == self.spec_state().spec_inner().notified(),
            r.0.same_cell(&self.spec_state()),
            r.1@ == self.spec_state().spec_inner().wakers,
    {
        let mut state = self.state;
        let woken: Vec<u64> = state.inner.notify();
        (state, woken)
    }
}

/// A wait for the change after the one it was made at.
#[derive(Copy, Clone, Debug, PartialEq, Eq, Structural)]
pub struct StateChanged {
    pub epoch: usize,
}

impl StateChanged {
    /// Whether the wait is over; a task that still waits is registered.
    pub fn poll<T>(&self, state: &mut State<T>, waker: u64) -> (ready: bool)
        requires
            old(state).spec_inner().wf(),
            !old(state).spec_poisoned(),
        ensures
            ready == (old(state).spec_inner().epoch > self.epoch),
            ready ==> *final(state) == *old(state),
            !ready ==> {
                &&& final(state).spec_inner() == old(state).spec_inner().registered(waker)
                &&& final(state).same_cell(old(state))
            },
            final(state).spec_inner().wf(),
    {
        if state.inner.epoch > self.epoch {
            true
        } else {
            state.inner.register(waker);
            false
        }
    }
}

/// A handle that does not keep its side alive.
#[derive(Copy, Clone, Debug, PartialEq, Eq, Structural)]
pub struct StateWeak {
    side: usize,
}

impl StateWeak {
    pub closed spec fn spec_side(&self) -> usize {
        self.side
    }

    /// Becomes a full handle where its side still holds one.
    pub fn upgrade<T>(&self, state: &mut State<T>) -> (r: bool)
        requires
            self.spec_side() < old(state).handles().len(),
            old(state).handles()[self.spec_side() as int] < usize::MAX,
        ensures
            r == (old(state).handles()[self.spec_side() as int] > 0),
            final(state).spec_inner() == old(state).spec_inner(),
            final(state).spec_poisoned() == old(state).spec_poisoned(),
            final(state).handles() == if r {
                old(state).handles().update(
                    self.spec_side() as int,
                    (old(state).handles()[self.spec_side() as int] + 1) as usize,
                )
            } else {
                old(state).handles()
            },
    {
        if state.sides[self.side] == 0 {
            return false;
        }
        state.clone_handle(self.side);
        true
    }
}

/// A task that registered is among those woken by the next change, however
/// often it or others register in between.
pub proof fn law_registered_task_is_woken<T>(s: StateView<T>, task: u64, others: Seq<u64>)
    requires
        s.wf(),
        s.wakers.contains(task),
    ensures
        register_all(s, others).wakers.contains(task),
        register_all(s, others).wf(),
        register_all(s, others).epoch == s.epoch,
    decreases others.len(),
{
    if others.len() > 0 {
        let next = s.registered(others[0]);
        if !s.wakers.contains(others[0]) {
            let i = choose|i: int| 0 <= i < s.wakers.len() && s.wakers[i] == task;
            assert(next.wakers[i] == task);
        }
        law_registered_task_is_woken(next, task, others.skip(1));
    }
}

/// Registering several tasks in turn.
pub open spec fn register_all<T>(s: StateView<T>, tasks: Seq<u64>) -> StateView<T>
    decreases tasks.len(),
{
    if tasks.len() == 0 {
        s
    } else {
        register_all(s.registered(tasks[0]), tasks.skip(1))
    }
}

/// One task that registers again and again is registered once.
pub proof fn law_repeated_registration_does_not_grow<T>(s: StateView<T>, task: u64)
    ensures
        s.registered(task).registered(task) == s.registered(task),
{
    let once = s.registered(task);
    if !s.wakers.contains(task) {
        assert(once.wakers[s.wakers.len() as int] == task);
    }
}

/// A task that registers waits after all that wait already, who keep their
/// places, and the value stays as it is.
pub proof fn law_registering_keeps_the_others<T>(s: StateView<T>, task: u64, i: int)
    requires
        0 <= i < s.wakers.len(),
    ensures
        ({
            let after = s.registered(task);
            &&& after.wakers.contains(task)
            &&& after.wakers[i] == s.wakers[i]
            &&& s.wakers.contains(task) ==> after.wakers.len() == s.wakers.len()
            &&& !s.wakers.contains(task) ==> after.wakers.len() == s.wakers.len() + 1
                && after.wakers[s.wakers.len() as int] == task
            &&& after.value == s.value
            &&& after.epoch == s.epoch
            &&& after.live == s.live
        }),
{
    let after = s.registered(task);
    if !s.wakers.contains(task) {
        assert(after.wakers[s.wakers.len() as int] == task);
    }
}

/// A change is counted once, and leaves nobody waiting, and the value and its
/// sides as they are.
pub proof fn law_change_is_counted_once<T>(s: StateView<T>)
    requires
        s.epoch < usize::MAX,
    ensures
        s.notified().epoch == s.epoch + 1,
        s.notified().wakers.len() == 0,
        s.notified().value == s.value,
        s.notified().live == s.live,
{
}

} // verus!
