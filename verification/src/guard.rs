//! Reference-counted access guard.
//!
//! A guard holds a value, the state word of its borrows and the protection
//! that the pages of the value are to have. While nothing is borrowed the
//! value is locked. The first shared borrow unlocks it for reading, the last
//! one to end locks it again; an exclusive borrow unlocks it for reading and
//! writing. After each step `pending` gives the request that makes the pages
//! follow.
//!
//! This guard has one owner: each of its steps takes it by `&mut`. What the
//! borrowers of a word that threads share do is in `refs` and `protocol`.

use vstd::prelude::*;
use crate::pages::{Geometry, Protection, Request};
use crate::refs::{
    RefCount, EXCLUSIVE, MAX, count, exclusive, idle, settled, shared, word_of,
};
use crate::traits::{Protectable, request_of};

verus! {

/// What a guard shows: its state word and the protection of what it holds.
pub struct GuardState {
    pub word: usize,
    pub protection: Protection,
}

impl GuardState {
    /// Whether the protection is the one that goes with the state word: no
    /// access while nothing is borrowed, reading under shared borrows, reading
    /// and writing under the exclusive one.
    pub open spec fn wf(self) -> bool {
        &&& idle(self.word) ==> self.protection == Protection::NoAccess
        &&& shared(self.word) ==> self.protection == Protection::ReadOnly
        &&& exclusive(self.word) ==> self.protection == Protection::ReadWrite
        &&& settled(self.word)
    }

    /// Whether one more shared borrow can be taken.
    pub open spec fn can_acquire(self) -> bool {
        (idle(self.word) || shared(self.word)) && count(self.word) < MAX
    }

    /// The state after one more shared borrow.
    pub open spec fn acquired(self) -> GuardState {
        GuardState {
            word: word_of(true, count(self.word) + 1),
            protection: if idle(self.word) {
                Protection::ReadOnly
            } else {
                self.protection
            },
        }
    }

    /// The state after one shared borrow ended.
    pub open spec fn released(self) -> GuardState {
        if count(self.word) == 1 {
            GuardState { word: 0, protection: Protection::NoAccess }
        } else {
            GuardState { word: (self.word - 1) as usize, protection: self.protection }
        }
    }

    /// The state under the exclusive borrow.
    pub open spec fn acquired_mut(self) -> GuardState {
        GuardState { word: EXCLUSIVE, protection: Protection::ReadWrite }
    }

    /// The state after the exclusive borrow ended.
    pub open spec fn released_mut(self) -> GuardState {
        GuardState { word: 0, protection: Protection::NoAccess }
    }
}

/// Reference-counted access guard.
#[derive(Debug)]
pub struct Guard<T: Protectable> {
    count: RefCount,
    protection: Protection,
    value: T,
}

/// Handle of a shared borrow of a guarded value. The borrow ends when the
/// handle is dropped.
#[derive(Debug)]
pub struct Ref<'t, T: Protectable>(&'t mut Guard<T>);

/// Handle of the exclusive borrow of a guarded value. The borrow ends when the
/// handle is dropped.
#[derive(Debug)]
pub struct RefMut<'t, T: Protectable>(&'t mut Guard<T>);

impl<T: Protectable> View for Guard<T> {
    type V = GuardState;

    closed spec fn view(&self) -> GuardState {
        GuardState { word: self.count@, protection: self.protection }
    }
}

impl<T: Protectable> Guard<T> {
    /// The value that the guard holds.
    pub closed spec fn payload(&self) -> T {
        self.value
    }

    /// A guard of `inner` without borrows. The value is taken to be
    /// accessible, as it is in a fresh allocation: `lock` locks it.
    #[inline]
    pub fn from_inner(inner: T) -> (guard: Self)
        ensures
            guard@ == (GuardState { word: 0, protection: Protection::ReadWrite }),
            guard.payload() == inner,
    {
        Guard { count: RefCount::new(), protection: Protection::ReadWrite, value: inner }
    }

    /// Locks the value while nothing is borrowed.
    pub fn lock(&mut self)
        requires
            idle(old(self)@.word),
        ensures
            final(self)@ == (GuardState { word: 0, protection: Protection::NoAccess }),
            final(self)@.wf(),
            final(self).payload() == old(self).payload(),
    {
        self.protection = Protection::NoAccess;
    }

    /// The request that gives the pages of the value, which lies at the
    /// address `base`, the protection that the guard shows. A value without
    /// pages asks for nothing.
    pub fn pending(&mut self, base: usize, geometry: Geometry) -> (request: Option<Request>)
        requires
            old(self).payload().placeable(base, geometry),
        ensures
            request == request_of(
                base,
                old(self).payload().protected_size(geometry),
                old(self)@.protection,
            ),
            *final(self) == *old(self),
    {
        match self.protection {
            Protection::NoAccess => self.value.lock(base, geometry),
            Protection::ReadOnly => self.value.unlock(base, geometry),
            Protection::ReadWrite => self.value.unlock_mut(base, geometry),
        }
    }

    /// The state word.
    pub fn state(&self) -> (word: usize)
        ensures
            word == self@.word,
    {
        self.count.word()
    }

    /// The protection that the pages of the value are to have.
    pub fn payload_state(&self) -> (protection: Protection)
        ensures
            protection == self@.protection,
    {
        self.protection
    }

    /// Ends the guard and gives the value.
    pub fn into_inner(self) -> (inner: T)
        ensures
            inner == self.payload(),
    {
        self.value
    }

    /// Ends the guard and gives the state word.
    pub fn into_state(self) -> (word: usize)
        ensures
            word == self@.word,
    {
        self.count.word()
    }

    /// Takes one more shared borrow. The first one unlocks the value for
    /// reading.
    pub fn acquire(&mut self)
        requires
            old(self)@.can_acquire(),
        ensures
            final(self)@ == old(self)@.acquired(),
            final(self).payload() == old(self).payload(),
    {
        if self.count.acquire() {
            self.protection = Protection::ReadOnly;
        }
    }

    /// Ends one shared borrow. The last one locks the value.
    pub fn release(&mut self)
        requires
            shared(old(self)@.word),
        ensures
            final(self)@ == old(self)@.released(),
            final(self).payload() == old(self).payload(),
        opens_invariants none
        no_unwind
    {
        if self.count.release() {
            self.protection = Protection::NoAccess;
        }
    }

    /// Takes the exclusive borrow and unlocks the value for reading and
    /// writing.
    pub fn acquire_mut(&mut self)
        requires
            idle(old(self)@.word),
        ensures
            final(self)@ == old(self)@.acquired_mut(),
            final(self).payload() == old(self).payload(),
    {
        self.count.acquire_mut();
        self.protection = Protection::ReadWrite;
    }

    /// Ends the exclusive borrow and locks the value.
    pub fn release_mut(&mut self)
        requires
            exclusive(old(self)@.word),
        ensures
            final(self)@ == old(self)@.released_mut(),
            final(self).payload() == old(self).payload(),
        opens_invariants none
        no_unwind
    {
        self.count.release_mut();
        self.protection = Protection::NoAccess;
    }

    /// The value, whatever the state of the guard.
    #[inline]
    pub fn inner(&self) -> (inner: &T)
        ensures
            *inner == self.payload(),
    {
        &self.value
    }

    /// The value, whatever the state of the guard, for changing it.
    #[inline]
    pub fn inner_mut(&mut self) -> (inner: &mut T)
        ensures
            *inner == old(self).payload(),
            final(self).payload() == *final(inner),
            final(self)@ == old(self)@,
    {
        &mut self.value
    }

    /// Runs `mutation` on the value under an exclusive borrow that nobody
    /// else sees. It neither unlocks nor locks the value: that is left to
    /// `mutation`.
    pub fn mutate<M: FnOnce(T) -> T>(self, mutation: M) -> (guard: Self)
        requires
            idle(self@.word),
            call_requires(mutation, (self.payload(),)),
        ensures
            guard@ == self@,
            call_ensures(mutation, (self.payload(),), guard.payload()),
    {
        let mut count = self.count;
        count.acquire_mut();
        let value = mutation(self.value);
        count.release_mut();
        Guard { count, protection: self.protection, value }
    }

    /// Borrows the value for reading.
    #[inline]
    pub fn borrow(&mut self) -> (handle: Ref<'_, T>)
        requires
            old(self)@.can_acquire(),
        ensures
            handle.guard()@ == old(self)@.acquired(),
            handle.guard().payload() == old(self).payload(),
    {
        self.acquire();
        Ref(self)
    }

    /// Borrows the value for reading and writing.
    #[inline]
    pub fn borrow_mut(&mut self) -> (handle: RefMut<'_, T>)
        requires
            idle(old(self)@.word),
        ensures
            handle.guard()@ == old(self)@.acquired_mut(),
            handle.guard().payload() == old(self).payload(),
    {
        self.acquire_mut();
        RefMut(self)
    }
}

impl<'t, T: Protectable> Ref<'t, T> {
    /// The guard that the handle borrows from.
    pub closed spec fn guard(&self) -> Guard<T> {
        *self.0
    }

    /// The borrowed value.
    #[inline]
    pub fn inner(&self) -> (inner: &T)
        ensures
            *inner == self.guard().payload(),
    {
        &self.0.value
    }
}

impl<T: Protectable> Drop for Ref<'_, T> {
    /// Ends the shared borrow: the guard takes the step of `Guard::release`.
    /// A guard that shows no shared borrow is left as it is.
    #[inline]
    fn drop(&mut self)
        ensures
            shared(old(self).guard()@.word) ==> final(self).guard()@ == old(self).guard()@.released(),
            !shared(old(self).guard()@.word) ==> final(self).guard()@ == old(self).guard()@,
            final(self).guard().payload() == old(self).guard().payload(),
        opens_invariants none
        no_unwind
    {
        let word = self.0.count.word();
        if RefCount::is_accessible(word) && 1 <= RefCount::count_of(word) && RefCount::count_of(
            word,
        ) <= MAX {
            self.0.release();
        }
    }
}

impl<'t, T: Protectable> RefMut<'t, T> {
    /// The guard that the handle borrows from.
    pub closed spec fn guard(&self) -> Guard<T> {
        *self.0
    }

    /// The borrowed value.
    #[inline]
    pub fn inner(&self) -> (inner: &T)
        ensures
            *inner == self.guard().payload(),
    {
        &self.0.value
    }

    /// The borrowed value, for changing it.
    #[inline]
    pub fn inner_mut(&mut self) -> (inner: &mut T)
        ensures
            *inner == old(self).guard().payload(),
            final(self).guard().payload() == *final(inner),
            final(self).guard()@ == old(self).guard()@,
    {
        &mut self.0.value
    }
}

impl<T: Protectable> Drop for RefMut<'_, T> {
    /// Ends the exclusive borrow: the guard takes the step of
    /// `Guard::release_mut`. A guard that does not show the exclusive borrow
    /// is left as it is.
    #[inline]
    fn drop(&mut self)
        ensures
            exclusive(old(self).guard()@.word) ==> final(self).guard()@ == old(self).guard()@.released_mut(),
            !exclusive(old(self).guard()@.word) ==> final(self).guard()@ == old(self).guard()@,
            final(self).guard().payload() == old(self).guard().payload(),
        opens_invariants none
        no_unwind
    {
        if self.0.count.word() == EXCLUSIVE {
            self.0.release_mut();
        }
    }
}

/// One step of a shared borrower.
pub enum Step {
    /// A shared borrow is taken.
    Acquire,
    /// A shared borrow ends.
    Release,
}

/// The number of shared borrows that are open after `steps`: those taken less
/// those ended.
pub open spec fn open_borrows(steps: Seq<Step>) -> int
    decreases steps.len(),
{
    if steps.len() == 0 {
        0
    } else {
        open_borrows(steps.drop_last()) + match steps.last() {
            Step::Acquire => 1int,
            Step::Release => -1int,
        }
    }
}

/// Whether `steps` can happen: at no time have more borrows ended than were
/// taken, and at no time are more than `MAX` open.
pub open spec fn orderly(steps: Seq<Step>) -> bool
    decreases steps.len(),
{
    steps.len() > 0 ==> orderly(steps.drop_last()) && 0 <= open_borrows(steps) <= MAX
}

/// The state of a guard after `steps`.
pub open spec fn after(start: GuardState, steps: Seq<Step>) -> GuardState
    decreases steps.len(),
{
    if steps.len() == 0 {
        start
    } else {
        match steps.last() {
            Step::Acquire => after(start, steps.drop_last()).acquired(),
            Step::Release => after(start, steps.drop_last()).released(),
        }
    }
}

/// From a locked guard without borrows, after any orderly
/// sequence of shared borrows taken and ended the state word holds exactly
/// the borrows that are open, each step was allowed, and the protection goes
/// with the word: reading while a borrow is open, no access once all have
/// ended.
pub proof fn lemma_borrow_arithmetic(start: GuardState, steps: Seq<Step>)
    requires
        start.wf(),
        idle(start.word),
        orderly(steps),
    ensures
        after(start, steps).wf(),
        count(after(start, steps).word) == open_borrows(steps),
        open_borrows(steps) == 0 ==> idle(after(start, steps).word) && after(
            start,
            steps,
        ).protection == Protection::NoAccess,
        open_borrows(steps) > 0 ==> shared(after(start, steps).word) && after(
            start,
            steps,
        ).protection == Protection::ReadOnly,
        steps.len() > 0 ==> match steps.last() {
            Step::Acquire => after(start, steps.drop_last()).can_acquire(),
            Step::Release => shared(after(start, steps.drop_last()).word),
        },
    decreases steps.len(),
{
    if steps.len() > 0 {
        lemma_borrow_arithmetic(start, steps.drop_last());
    }
}

/// The states in which a guard without borrows is locked are kept by every
/// step that a guard takes, and in them a guard without borrows is locked.
pub proof fn lemma_steps_keep_wf(state: GuardState)
    requires
        state.wf(),
    ensures
        state.can_acquire() ==> state.acquired().wf() && shared(state.acquired().word),
        shared(state.word) ==> state.released().wf(),
        idle(state.word) ==> state.acquired_mut().wf() && exclusive(state.acquired_mut().word),
        exclusive(state.word) ==> state.released_mut().wf() && idle(state.released_mut().word),
        idle(state.word) ==> state.protection == Protection::NoAccess,
{
}

/// Acquiring beyond `MAX` is not allowed, and neither is a shared borrow
/// beside the exclusive one.
pub proof fn lemma_acquire_limit(state: GuardState)
    requires
        state.wf(),
    ensures
        shared(state.word) && count(state.word) == MAX ==> !state.can_acquire(),
        exclusive(state.word) ==> !state.can_acquire(),
{
}

} // verus!
