//! The state word of a guard that threads share.
//!
//! Each function is one atomic step on the word. What a borrower does
//! between the steps, the locking and unlocking of the payload and the wait
//! for the flag, is its caller's: see `protocol` for the order of the steps.

use vstd::prelude::*;
use core::sync::atomic::{AtomicUsize, Ordering};
use crate::refs::{
    Entry, RefCount, Settle, ACC, EXCLUSIVE, accessible, count, entry_of, left_of, settle_of,
};

verus! {

/// The state word of a guard that threads share.
pub struct SharedCount(AtomicUsize);

/// The word that a shared borrower puts in the place of `refs` when it
/// leaves; none where `refs` counts no borrower.
pub fn checked_leaving(refs: usize) -> (left: Option<usize>)
    ensures
        left == if count(refs) >= 1 {
            Some(left_of(refs))
        } else {
            None
        },
{
    if RefCount::count_of(refs) >= 1 {
        Some(RefCount::leaving(refs))
    } else {
        None
    }
}

/// `AtomicUsize::fetch_update` with `checked_leaving`: the word is replaced
/// by what `checked_leaving` makes of it, unless that is nothing. The answer
/// is the word that was replaced, or the word that was left in place.
#[verifier::external_body]
fn update_leaving(word: &AtomicUsize) -> (found: Result<usize, usize>)
    ensures
        found matches Ok(prev) ==> count(prev) >= 1,
        found matches Err(prev) ==> count(prev) == 0,
{
    word.fetch_update(Ordering::AcqRel, Ordering::Acquire, |refs| checked_leaving(refs))
}

impl SharedCount {
    /// A word without borrows.
    pub fn new() -> (word: Self) {
        SharedCount(AtomicUsize::new(0))
    }

    /// The first step of a shared borrower: adds one to the word. The answer
    /// is the word that was there, and what the borrower does next.
    pub fn arrive(&self) -> (found: (usize, Entry))
        ensures
            found.1 == entry_of(found.0),
    {
        let prev = self.0.fetch_add(1, Ordering::AcqRel);
        (prev, RefCount::entering(prev))
    }

    /// The step of the first borrower after it has unlocked the payload: sets
    /// the flag.
    pub fn publish(&self) {
        self.0.fetch_or(ACC, Ordering::Release);
    }

    /// The step of a waiting borrower: reads the word. The answer is the word,
    /// and whether its flag is set.
    pub fn poll(&self) -> (seen: (usize, bool))
        ensures
            seen.1 == accessible(seen.0),
    {
        let word = self.0.load(Ordering::Acquire);
        (word, RefCount::is_accessible(word))
    }

    /// The step of a holder that gives its borrow back: takes itself off the
    /// count, or, where it is the last, clears the flag and stays counted. The
    /// answer is the word that was there and whether the borrower is the
    /// last, which then goes on with `read`. A word that counts no borrower
    /// is left as it is, and is the error.
    pub fn leave(&self) -> (left: Result<(usize, bool), usize>)
        ensures
            left matches Ok(found) ==> count(found.0) >= 1 && found.1 == (count(found.0) == 1),
            left matches Err(found) ==> count(found) == 0,
    {
        match update_leaving(&self.0) {
            Ok(prev) => Ok((prev, RefCount::count_of(prev) == 1)),
            Err(prev) => Err(prev),
        }
    }

    /// The step of the last borrower before it locks or unlocks the payload:
    /// reads the word. The answer is the word and, where the word can be the
    /// one that the last borrower finds, what it does next and the word that
    /// it then tries to put in its place with `commit`.
    pub fn read(&self) -> (seen: (usize, Option<(Settle, usize)>))
        ensures
            seen.1 == if seen.0 >= 1 && !accessible(seen.0) {
                Some(settle_of(seen.0))
            } else {
                None
            },
    {
        let refs = self.0.load(Ordering::Acquire);
        if refs >= 1 && !RefCount::is_accessible(refs) {
            (refs, Some(RefCount::settling(refs)))
        } else {
            (refs, None)
        }
    }

    /// The step of the last borrower after it has locked or unlocked the
    /// payload: puts `word` in the place of `refs`, if `refs` is still there.
    /// Where it is not, the borrower goes back to `read`.
    pub fn commit(&self, refs: usize, word: usize) -> (done: bool) {
        self.0.compare_exchange(refs, word, Ordering::AcqRel, Ordering::Acquire).is_ok()
    }

    /// The step into the exclusive borrow: puts the word of the exclusive
    /// borrow in the place of the word. The answer is the word that was there:
    /// zero, unless the caller has broken the rule that nothing else is
    /// borrowed.
    pub fn seize(&self) -> (prev: usize) {
        self.0.swap(EXCLUSIVE, Ordering::AcqRel)
    }

    /// The step out of the exclusive borrow: puts zero in the place of the
    /// word. The answer is the word that was there.
    pub fn yield_up(&self) -> (prev: usize) {
        self.0.swap(0, Ordering::AcqRel)
    }
}

} // verus!
