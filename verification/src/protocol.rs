//! The borrow protocol of a guard whose word is shared between threads.
//!
//! Each thread takes the steps that `refs::RefCount::entering`, `leaving` and
//! `settling` tell it to take, on a word that it reads and writes atomically.
//! This module follows all threads at once, whatever their order, and shows
//! that a thread that holds a shared borrow always finds the payload
//! readable, and that the payload is locked whenever nobody is at work.

use vstd::prelude::*;
use crate::pages::Protection;
use crate::refs::{Entry, Settle, MAX, accessible, count, entry_of, left_of, settle_of, word_of};

verus! {

/// How far the first borrower has come.
pub enum Opening {
    /// It has counted itself and unlocks the payload next.
    Unlocking,
    /// It has unlocked the payload and sets the flag next.
    Publishing,
}

/// How far the last borrower has come with locking the payload.
pub enum Closing {
    /// It has cleared the flag and reads the word next.
    Reading,
    /// It has read this word and locks or unlocks the payload next.
    Acting(usize),
    /// It has locked or unlocked the payload and tries next to replace this
    /// word, which it had read.
    Committing(usize),
}

/// The word, the protection of the payload, and where the threads stand.
pub struct World {
    /// The state word.
    pub word: usize,
    /// The protection of the payload.
    pub protection: Protection,
    /// The number of threads that hold no borrow and ask for none.
    pub resting: nat,
    /// The number of threads that wait for the flag.
    pub waiting: nat,
    /// The number of threads that hold a shared borrow.
    pub holding: nat,
    /// The thread that found the word zero, if there is one.
    pub first: Option<Opening>,
    /// The thread that took the count to one, if there is one.
    pub last: Option<Closing>,
}

/// What one thread does in one step.
pub enum Event {
    /// A resting thread adds one to the word and looks at what was there.
    Arrive,
    /// The first borrower unlocks the payload.
    Unlock,
    /// The first borrower sets the flag and holds its borrow.
    Publish,
    /// A waiting thread reads the word, finds the flag and holds its borrow.
    Wake,
    /// A holder gives its borrow back: it replaces the word by what
    /// `leaving` says.
    Leave,
    /// The last borrower reads the word.
    Read,
    /// The last borrower locks or unlocks the payload, as `settling` says for
    /// the word that it read.
    Act,
    /// The last borrower replaces the word that it read, if it is still
    /// there, by what `settling` says; else it reads again.
    Commit,
}

impl World {
    /// The world of `threads` threads before any of them has moved.
    pub open spec fn start(threads: nat) -> World {
        World {
            word: 0,
            protection: Protection::NoAccess,
            resting: threads,
            waiting: 0,
            holding: 0,
            first: None,
            last: None,
        }
    }

    /// The number of threads.
    pub open spec fn threads(self) -> nat {
        self.resting + self.waiting + self.holding + (if self.first is Some {
            1nat
        } else {
            0nat
        }) + (if self.last is Some {
            1nat
        } else {
            0nat
        })
    }

    /// Whether no thread is at work: all of them rest.
    pub open spec fn quiet(self) -> bool {
        self.waiting == 0 && self.holding == 0 && self.first is None && self.last is None
    }

    /// Whether some thread can take the step `event`.
    pub open spec fn enabled(self, event: Event) -> bool {
        match event {
            Event::Arrive => self.resting > 0,
            Event::Unlock => self.first == Some(Opening::Unlocking),
            Event::Publish => self.first == Some(Opening::Publishing),
            Event::Wake => self.waiting > 0 && accessible(self.word),
            Event::Leave => self.holding > 0,
            Event::Read => self.last == Some(Closing::Reading),
            Event::Act => self.last matches Some(Closing::Acting(_)),
            Event::Commit => self.last matches Some(Closing::Committing(_)),
        }
    }

    /// The world after the step `event`.
    pub open spec fn step(self, event: Event) -> World {
        match event {
            Event::Arrive => {
                let counted = World {
                    word: (self.word + 1) as usize,
                    resting: (self.resting - 1) as nat,
                    ..self
                };
                match entry_of(self.word) {
                    Entry::First => World { first: Some(Opening::Unlocking), ..counted },
                    Entry::Wait => World { waiting: self.waiting + 1, ..counted },
                    Entry::Joined => World { holding: self.holding + 1, ..counted },
                    Entry::Overflow => self,
                }
            },
            Event::Unlock => World {
                protection: Protection::ReadOnly,
                first: Some(Opening::Publishing),
                ..self
            },
            Event::Publish => World {
                word: word_of(true, count(self.word)),
                first: None,
                holding: self.holding + 1,
                ..self
            },
            Event::Wake => World {
                waiting: (self.waiting - 1) as nat,
                holding: self.holding + 1,
                ..self
            },
            Event::Leave => if count(self.word) == 1 {
                World {
                    word: left_of(self.word),
                    holding: (self.holding - 1) as nat,
                    last: Some(Closing::Reading),
                    ..self
                }
            } else {
                World {
                    word: left_of(self.word),
                    holding: (self.holding - 1) as nat,
                    resting: self.resting + 1,
                    ..self
                }
            },
            Event::Read => World { last: Some(Closing::Acting(self.word)), ..self },
            Event::Act => match self.last {
                Some(Closing::Acting(refs)) => World {
                    protection: match settle_of(refs).0 {
                        Settle::Lock => Protection::NoAccess,
                        Settle::Unlock => Protection::ReadOnly,
                    },
                    last: Some(Closing::Committing(refs)),
                    ..self
                },
                _ => self,
            },
            Event::Commit => match self.last {
                Some(Closing::Committing(refs)) => if self.word == refs {
                    World {
                        word: settle_of(refs).1,
                        last: None,
                        resting: self.resting + 1,
                        ..self
                    }
                } else {
                    World { last: Some(Closing::Reading), ..self }
                },
                _ => self,
            },
        }
    }

    /// What holds of every world that the threads can reach.
    pub open spec fn consistent(self) -> bool {
        &&& self.threads() <= MAX
        &&& count(self.word) == self.waiting + self.holding + (if self.first is Some {
            1nat
        } else {
            0nat
        }) + (if self.last is Some {
            1nat
        } else {
            0nat
        })
        &&& accessible(self.word) <==> self.first is None && self.last is None && count(self.word)
            > 0
        &&& accessible(self.word) ==> self.protection == Protection::ReadOnly
        &&& self.word == 0 ==> self.protection == Protection::NoAccess
        &&& self.first is Some ==> self.last is None && self.holding == 0
        &&& self.last is Some ==> self.holding == 0
        &&& self.first == Some(Opening::Unlocking) ==> self.protection == Protection::NoAccess
        &&& self.first == Some(Opening::Publishing) ==> self.protection == Protection::ReadOnly
        &&& match self.last {
            Some(Closing::Acting(refs)) => 1 <= refs <= self.word,
            Some(Closing::Committing(refs)) => 1 <= refs <= self.word && if refs == 1 {
                self.protection == Protection::NoAccess
            } else {
                self.protection == Protection::ReadOnly
            },
            _ => true,
        }
    }

    /// The world after the steps `events`, first to last.
    pub open spec fn run(self, events: Seq<Event>) -> World
        decreases events.len(),
    {
        if events.len() == 0 {
            self
        } else {
            self.run(events.drop_last()).step(events.last())
        }
    }

    /// Whether each of `events` can be taken when its turn comes.
    pub open spec fn possible(self, events: Seq<Event>) -> bool
        decreases events.len(),
    {
        events.len() > 0 ==> self.possible(events.drop_last()) && self.run(
            events.drop_last(),
        ).enabled(events.last())
    }

    /// Before any thread has moved, the world is consistent.
    pub proof fn lemma_start(threads: nat)
        requires
            threads <= MAX,
        ensures
            Self::start(threads).consistent(),
            Self::start(threads).quiet(),
    {
    }

    /// Every step that a thread can take keeps the world consistent and the number
    /// of threads.
    pub proof fn lemma_step(self, event: Event)
        requires
            self.consistent(),
            self.enabled(event),
        ensures
            self.step(event).consistent(),
            self.step(event).threads() == self.threads(),
    {
    }

    /// The steps of the model are the steps of the threads: a thread that
    /// arrives never finds the count full, it is the first exactly where the
    /// word is zero, and then no other thread is first or last; and a holder
    /// that takes the count to one finds no other thread that is last.
    pub proof fn lemma_faithful(self)
        requires
            self.consistent(),
        ensures
            self.resting > 0 ==> entry_of(self.word) != Entry::Overflow,
            entry_of(self.word) == Entry::First ==> self.first is None && self.last is None,
            self.holding > 0 ==> count(self.word) >= 1 && self.last is None,
            self.last matches Some(Closing::Acting(refs)) ==> refs >= 1 && !accessible(refs),
    {
    }

    /// In every world that is consistent, a thread that holds a shared borrow
    /// finds the flag set and the payload readable; and when no thread is at
    /// work, the word is zero and the payload is locked.
    pub proof fn lemma_safe(self)
        requires
            self.consistent(),
        ensures
            self.holding > 0 ==> accessible(self.word) && self.protection
                == Protection::ReadOnly,
            self.quiet() ==> self.word == 0 && self.protection == Protection::NoAccess,
    {
    }

    /// Whatever steps the threads take, and in whatever order, every holder
    /// finds the payload readable; and once all of them have given their
    /// borrows back, the word is zero and the payload is locked.
    pub proof fn lemma_runs(threads: nat, events: Seq<Event>)
        requires
            threads <= MAX,
            Self::start(threads).possible(events),
        ensures
            Self::start(threads).run(events).consistent(),
            Self::start(threads).run(events).threads() == threads,
            Self::start(threads).run(events).holding > 0 ==> accessible(
                Self::start(threads).run(events).word,
            ) && Self::start(threads).run(events).protection == Protection::ReadOnly,
            Self::start(threads).run(events).quiet() ==> Self::start(threads).run(events).word
                == 0 && Self::start(threads).run(events).protection == Protection::NoAccess,
        decreases events.len(),
    {
        if events.len() > 0 {
            Self::lemma_runs(threads, events.drop_last());
            Self::start(threads).run(events.drop_last()).lemma_step(events.last());
        }
    }
}

} // verus!
