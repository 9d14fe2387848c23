//! The state word of an access guard.
//!
//! One machine word holds a flag and a count. The flag says that the payload
//! is accessible. The count is the number of shared borrows, or the value
//! `MUT` for one exclusive borrow. The functions `entering`, `leaving` and
//! `settling` decide, from a word that was read, what a borrower does next:
//! they serve a word that several threads update. `RefCount` is the word of a
//! single owner.

use vstd::prelude::*;

verus! {

/// The flag, the top bit of the word: the payload is accessible.
pub const ACC: usize = usize::MAX / 2 + 1;

/// The bits of the word that hold the count.
pub const REF: usize = usize::MAX / 2;

/// The count that stands for one exclusive borrow.
pub const MUT: usize = usize::MAX / 2;

/// The largest number of shared borrows.
pub const MAX: usize = usize::MAX / 2 - 1;

/// The word of one exclusive borrow: the flag and the count `MUT`.
pub const EXCLUSIVE: usize = usize::MAX;

/// Whether the flag is set in `word`.
pub open spec fn accessible(word: usize) -> bool {
    word >= ACC
}

/// The count that `word` holds.
pub open spec fn count(word: usize) -> nat {
    if word >= ACC {
        (word - ACC) as nat
    } else {
        word as nat
    }
}

/// The word with the given flag and count.
pub open spec fn word_of(flag: bool, count: nat) -> usize
    recommends
        count <= MUT,
{
    if flag {
        (ACC + count) as usize
    } else {
        count as usize
    }
}

/// No borrow: the word is zero.
pub open spec fn idle(word: usize) -> bool {
    word == 0
}

/// At least one shared borrow, and access is given.
pub open spec fn shared(word: usize) -> bool {
    accessible(word) && 1 <= count(word) <= MAX
}

/// One exclusive borrow.
pub open spec fn exclusive(word: usize) -> bool {
    word == EXCLUSIVE
}

/// The words that a guard shows while no borrower is between two of its
/// steps.
pub open spec fn settled(word: usize) -> bool {
    idle(word) || shared(word) || exclusive(word)
}

/// What a shared borrower finds when it has added itself to the count.
#[derive(Clone, Copy, Debug, PartialEq, Eq, Structural)]
pub enum Entry {
    /// It is the first: it unlocks the payload, then sets the flag.
    First,
    /// Another borrower is unlocking or locking: it waits for the flag.
    Wait,
    /// Access is given already.
    Joined,
    /// The count was full: the borrow is refused.
    Overflow,
}

/// What the last shared borrower does once it has cleared the flag.
#[derive(Clone, Copy, Debug, PartialEq, Eq, Structural)]
pub enum Settle {
    /// Nobody came: it locks the payload, and the word becomes zero.
    Lock,
    /// Others came meanwhile: it unlocks the payload again, takes itself off
    /// the count and sets the flag for them.
    Unlock,
}

/// What `entering` answers for the word `prev`.
pub open spec fn entry_of(prev: usize) -> Entry {
    if count(prev) >= MAX {
        Entry::Overflow
    } else if prev == 0 {
        Entry::First
    } else if !accessible(prev) {
        Entry::Wait
    } else {
        Entry::Joined
    }
}

/// The word that a shared borrower leaves: the last one clears the flag and
/// stays counted, any other one takes itself off the count.
pub open spec fn left_of(refs: usize) -> usize
    recommends
        count(refs) >= 1,
{
    if count(refs) == 1 {
        word_of(false, 1)
    } else {
        (refs - 1) as usize
    }
}

/// What `settling` answers for the word `refs`.
pub open spec fn settle_of(refs: usize) -> (Settle, usize)
    recommends
        refs >= 1,
        !accessible(refs),
{
    if refs == 1 {
        (Settle::Lock, 0usize)
    } else {
        (Settle::Unlock, word_of(true, (refs - 1) as nat))
    }
}

/// The state word of a guard that has one owner.
#[derive(Debug)]
pub struct RefCount(usize);

impl View for RefCount {
    type V = usize;

    closed spec fn view(&self) -> usize {
        self.0
    }
}

impl Default for RefCount {
    fn default() -> (count: Self)
        ensures
            count@ == 0,
    {
        RefCount(0)
    }
}

impl RefCount {
    /// Whether the flag is set in `word`.
    pub fn is_accessible(word: usize) -> (flag: bool)
        ensures
            flag == accessible(word),
        opens_invariants none
        no_unwind
    {
        word >= ACC
    }

    /// The count that `word` holds.
    pub fn count_of(word: usize) -> (n: usize)
        ensures
            n == count(word),
        opens_invariants none
        no_unwind
    {
        if word >= ACC {
            word - ACC
        } else {
            word
        }
    }

    /// What a shared borrower does that found `prev` in the word when it
    /// added one to it.
    pub fn entering(prev: usize) -> (entry: Entry)
        ensures
            entry == entry_of(prev),
        opens_invariants none
        no_unwind
    {
        if Self::count_of(prev) >= MAX {
            Entry::Overflow
        } else if prev == 0 {
            Entry::First
        } else if !Self::is_accessible(prev) {
            Entry::Wait
        } else {
            Entry::Joined
        }
    }

    /// The word that a shared borrower puts in the place of `refs` when it
    /// leaves. It is the last borrower where the count of `refs` is one: then
    /// it goes on with `settling`.
    pub fn leaving(refs: usize) -> (left: usize)
        requires
            count(refs) >= 1,
        ensures
            left == left_of(refs),
        opens_invariants none
        no_unwind
    {
        if Self::count_of(refs) == 1 {
            1
        } else {
            refs - 1
        }
    }

    /// What the last shared borrower does that finds `refs` in the word after
    /// it cleared the flag, and the word that it puts in its place.
    pub fn settling(refs: usize) -> (settle: (Settle, usize))
        requires
            refs >= 1,
            !accessible(refs),
        ensures
            settle == settle_of(refs),
        opens_invariants none
        no_unwind
    {
        if refs == 1 {
            (Settle::Lock, 0)
        } else {
            (Settle::Unlock, refs - 1 + ACC)
        }
    }

    /// A word without borrows.
    pub fn new() -> (count: Self)
        ensures
            count@ == 0,
    {
        RefCount(0)
    }

    /// The word.
    pub fn word(&self) -> (word: usize)
        ensures
            word == self@,
        opens_invariants none
        no_unwind
    {
        self.0
    }

    /// Counts one more shared borrow. The answer is `true` for the first one:
    /// the caller then unlocks the payload for reading.
    pub fn acquire(&mut self) -> (first: bool)
        requires
            idle(old(self)@) || shared(old(self)@),
            count(old(self)@) < MAX,
        ensures
            final(self)@ == word_of(true, count(old(self)@) + 1),
            shared(final(self)@),
            first == idle(old(self)@),
        opens_invariants none
        no_unwind
    {
        let prev = self.0;
        self.0 = prev + 1;
        match Self::entering(prev) {
            Entry::First => {
                self.0 = self.0 + ACC;
                true
            },
            _ => false,
        }
    }

    /// Takes one shared borrow off the count. The answer is `true` for the
    /// last one: the caller then locks the payload.
    pub fn release(&mut self) -> (last: bool)
        requires
            shared(old(self)@),
        ensures
            last == (count(old(self)@) == 1),
            final(self)@ == if last {
                0usize
            } else {
                (old(self)@ - 1) as usize
            },
            idle(final(self)@) || shared(final(self)@),
        opens_invariants none
        no_unwind
    {
        let prev = self.0;
        self.0 = Self::leaving(prev);
        if Self::count_of(prev) == 1 {
            let (_, word) = Self::settling(self.0);
            self.0 = word;
            true
        } else {
            false
        }
    }

    /// Counts the one exclusive borrow. The caller then unlocks the payload
    /// for writing.
    pub fn acquire_mut(&mut self)
        requires
            idle(old(self)@),
        ensures
            exclusive(final(self)@),
        opens_invariants none
        no_unwind
    {
        self.0 = EXCLUSIVE;
    }

    /// Ends the exclusive borrow. The caller then locks the payload.
    pub fn release_mut(&mut self)
        requires
            exclusive(old(self)@),
        ensures
            idle(final(self)@),
        opens_invariants none
        no_unwind
    {
        self.0 = 0;
    }

    /// Runs `mutate` under an exclusive borrow that nobody else sees: once,
    /// between the word's step into the exclusive borrow and its step out.
    pub fn mutate<M: FnOnce()>(&mut self, mutate: M)
        requires
            idle(old(self)@),
            call_requires(mutate, ()),
        ensures
            idle(final(self)@),
            call_ensures(mutate, (), ()),
    {
        self.0 = EXCLUSIVE;
        mutate();
        self.0 = 0;
    }
}

} // verus!
