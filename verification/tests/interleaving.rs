use rand::{Rng, SeedableRng};

use sensitive::pages::Protection;
use sensitive::refs::{Entry, RefCount, Settle, ACC};
use sensitive::vec::Vec;

/// Where a borrower stands between two of its steps on the shared word.
#[derive(Clone, Copy, Debug, PartialEq)]
enum Pc {
    Resting,
    Unlocking,
    Publishing,
    Waiting,
    Holding,
    Reading,
    Acting(usize),
    Committing(usize),
}

/// A state word that borrowers share, and the protection that they set.
struct Shared {
    word: usize,
    protection: Protection,
}

impl Shared {
    /// One atomic step of the borrower that stands at `pc`. A borrower that
    /// rests arrives if `wants` is set; one that holds leaves if it is not.
    fn step(&mut self, pc: Pc, wants: bool) -> Pc {
        match pc {
            Pc::Resting if wants => {
                let prev = self.word;
                self.word += 1;
                match RefCount::entering(prev) {
                    Entry::Overflow => panic!(),
                    Entry::First => Pc::Unlocking,
                    Entry::Wait => Pc::Waiting,
                    Entry::Joined => Pc::Holding,
                }
            }
            Pc::Resting => Pc::Resting,
            Pc::Unlocking => {
                self.protection = Protection::ReadOnly;
                Pc::Publishing
            }
            Pc::Publishing => {
                self.word |= ACC;
                Pc::Holding
            }
            Pc::Waiting => {
                if RefCount::is_accessible(self.word) {
                    Pc::Holding
                } else {
                    Pc::Waiting
                }
            }
            Pc::Holding if wants => {
                assert_eq!(self.protection, Protection::ReadOnly);
                assert!(RefCount::is_accessible(self.word));
                Pc::Holding
            }
            Pc::Holding => {
                let prev = self.word;
                self.word = RefCount::leaving(prev);
                if RefCount::count_of(prev) == 1 {
                    Pc::Reading
                } else {
                    Pc::Resting
                }
            }
            Pc::Reading => Pc::Acting(self.word),
            Pc::Acting(refs) => {
                match RefCount::settling(refs).0 {
                    Settle::Lock => self.protection = Protection::NoAccess,
                    Settle::Unlock => self.protection = Protection::ReadOnly,
                }
                Pc::Committing(refs)
            }
            Pc::Committing(refs) => {
                if self.word == refs {
                    self.word = RefCount::settling(refs).1;
                    Pc::Resting
                } else {
                    Pc::Reading
                }
            }
        }
    }
}

#[test]
fn interleaved_borrowers() {
    const LIMIT: usize = 262144;

    let mut rng = rand_xoshiro::Xoshiro256PlusPlus::from_os_rng();
    let concurrency = 16;
    let mut guard = Shared { word: 0, protection: Protection::NoAccess };
    let mut threads = vec![Pc::Resting; concurrency];
    let mut borrows = 0;

    for _ in 0..LIMIT * concurrency {
        let thread = rng.random_range(0..concurrency);
        let wants: bool = rng.random();
        let before = threads[thread];
        threads[thread] = guard.step(before, wants);
        if before != Pc::Holding && threads[thread] == Pc::Holding {
            borrows += 1;
        }
        for pc in &threads {
            if *pc == Pc::Holding {
                assert_eq!(guard.protection, Protection::ReadOnly);
                assert!(RefCount::is_accessible(guard.word));
            }
        }
    }

    assert!(borrows > LIMIT);

    while threads.iter().any(|pc| *pc != Pc::Resting) {
        let thread = rng.random_range(0..concurrency);
        threads[thread] = guard.step(threads[thread], false);
    }

    assert_eq!(guard.word, 0);
    assert_eq!(guard.protection, Protection::NoAccess);
}

#[test]
fn late_borrower_is_handed_the_access() {
    let mut guard = Shared { word: 0, protection: Protection::NoAccess };
    let mut first = guard.step(Pc::Resting, true);
    assert_eq!(first, Pc::Unlocking);
    assert_eq!(guard.word, 1);
    first = guard.step(first, true);
    first = guard.step(first, true);
    assert_eq!(first, Pc::Holding);
    assert_eq!(guard.word, ACC | 1);

    // the last borrower leaves and is about to lock
    first = guard.step(first, false);
    assert_eq!((first, guard.word), (Pc::Reading, 1));
    first = guard.step(first, false);
    first = guard.step(first, false);
    assert_eq!(first, Pc::Committing(1));
    assert_eq!(guard.protection, Protection::NoAccess);

    // meanwhile another one arrives, and waits
    let mut second = guard.step(Pc::Resting, true);
    assert_eq!((second, guard.word), (Pc::Waiting, 2));
    second = guard.step(second, true);
    assert_eq!(second, Pc::Waiting);

    // the word has changed: the last borrower unlocks again
    first = guard.step(first, false);
    assert_eq!(first, Pc::Reading);
    first = guard.step(first, false);
    assert_eq!(first, Pc::Acting(2));
    first = guard.step(first, false);
    assert_eq!(guard.protection, Protection::ReadOnly);
    first = guard.step(first, false);
    assert_eq!((first, guard.word), (Pc::Resting, ACC | 1));

    second = guard.step(second, true);
    assert_eq!(second, Pc::Holding);
    second = guard.step(second, false);
    second = guard.step(second, false);
    second = guard.step(second, false);
    second = guard.step(second, false);
    assert_eq!((second, guard.word), (Pc::Resting, 0));
    assert_eq!(guard.protection, Protection::NoAccess);
}

#[test]
fn repeated_shared_borrows() {
    const LIMIT: usize = 262144;

    let mut test: Vec<usize> = Vec::new();

    {
        let mut mutable = test.borrow_mut();

        for i in 0..LIMIT {
            mutable.push(i);
        }
    }

    let concurrency = 16;

    for _ in 0..concurrency {
        for i in 0..LIMIT {
            let immutable = test.borrow();
            assert_eq!(immutable.as_slice()[i], i);
        }
    }

    assert_eq!(test.state(), 0);
    assert_eq!(test.payload_state(), Protection::NoAccess);
}

#[test]
fn write_then_read() {
    const LIMIT: usize = 32768;

    let mut test: Vec<usize> = Vec::new();

    {
        let mut mutable = test.borrow_mut();

        for _ in 0..LIMIT {
            mutable.push(0);
        }
    }

    let concurrency = 16;

    for _ in 0..concurrency {
        for i in 0..LIMIT {
            {
                let mut mutable = test.borrow_mut();

                mutable.inner_mut().set(i, i);
            }

            {
                let immutable = test.borrow();

                assert_eq!(immutable.as_slice()[i], i);
            }
        }
    }
}
