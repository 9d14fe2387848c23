use sensitive::guard::Guard;
use sensitive::pages::{Geometry, Protection, Request};
use sensitive::refs::{Entry, Settle, ACC, EXCLUSIVE, MAX, MUT, REF};
use sensitive::shared::SharedCount;
use sensitive::traits::Protectable;

struct Dummy;

impl Protectable for Dummy {
    fn lock(&self, _base: usize, _geometry: Geometry) -> Option<Request> {
        None
    }

    fn unlock(&self, _base: usize, _geometry: Geometry) -> Option<Request> {
        None
    }

    fn unlock_mut(&mut self, _base: usize, _geometry: Geometry) -> Option<Request> {
        None
    }
}

#[test]
fn immutable() {
    let mut guard = Guard::from_inner(Dummy);

    for _ in 0..1024 {
        guard.acquire();
    }

    assert_eq!(guard.state(), ACC | 1024);

    for _ in 0..1024 {
        guard.release();
    }

    assert_eq!(guard.state(), 0);
}

#[test]
fn mutable() {
    let mut guard = Guard::from_inner(Dummy);

    for _ in 0..1024 {
        guard.acquire_mut();
        assert_eq!(guard.state(), EXCLUSIVE);
        guard.release_mut();
        assert_eq!(guard.state(), 0);
    }
}

#[test]
fn borrow() {
    const LIMIT: usize = 1024;

    let mut guard = Guard::from_inner(Dummy);

    {
        for _ in 0..LIMIT {
            let handle = guard.borrow();
            let _ = handle.inner();
        }
    }

    assert_eq!(guard.into_state(), 0);
}

#[test]
fn borrow_mut() {
    let mut guard = Guard::from_inner(Dummy);

    {
        guard.borrow_mut();
    }

    assert_eq!(guard.into_state(), 0);
}

#[test]
fn word_constants() {
    assert_eq!(ACC, usize::MAX / 2 + 1);
    assert_eq!(REF, !ACC);
    assert_eq!(MUT, usize::MAX & REF);
    assert_eq!(MAX, (usize::MAX & REF) - 1);
    assert_eq!(EXCLUSIVE, ACC | MUT);
}

#[test]
fn protection_follows_borrows() {
    let geometry = Geometry::new(4096, 4096).unwrap();
    let mut guard = Guard::from_inner(Dummy);
    guard.lock();
    assert_eq!(guard.payload_state(), Protection::NoAccess);
    assert_eq!(guard.pending(4096, geometry), None);
    guard.acquire();
    assert_eq!(guard.payload_state(), Protection::ReadOnly);
    guard.acquire();
    guard.release();
    assert_eq!(guard.payload_state(), Protection::ReadOnly);
    guard.release();
    assert_eq!(guard.payload_state(), Protection::NoAccess);
    guard.acquire_mut();
    assert_eq!(guard.payload_state(), Protection::ReadWrite);
    assert_eq!(guard.pending(4096, geometry), None);
    guard.release_mut();
    assert_eq!(guard.payload_state(), Protection::NoAccess);
}

#[test]
fn shared_word() {
    let word = SharedCount::new();
    assert_eq!(word.arrive(), (0, Entry::First));
    assert_eq!(word.poll(), (1, false));
    assert_eq!(word.arrive(), (1, Entry::Wait));
    word.publish();
    assert_eq!(word.poll(), (ACC | 2, true));
    assert_eq!(word.arrive(), (ACC | 2, Entry::Joined));
    assert_eq!(word.leave(), Ok((ACC | 3, false)));
    assert_eq!(word.leave(), Ok((ACC | 2, false)));
    assert_eq!(word.read(), (ACC | 1, None));
    assert_eq!(word.leave(), Ok((ACC | 1, true)));

    // a borrower arrives while the last one is locking
    assert_eq!(word.read(), (1, Some((Settle::Lock, 0))));
    assert_eq!(word.arrive(), (1, Entry::Wait));
    assert!(!word.commit(1, 0));
    assert_eq!(word.read(), (2, Some((Settle::Unlock, ACC | 1))));
    assert!(word.commit(2, ACC | 1));
    assert_eq!(word.poll(), (ACC | 1, true));
    assert_eq!(word.leave(), Ok((ACC | 1, true)));
    assert_eq!(word.read(), (1, Some((Settle::Lock, 0))));
    assert!(word.commit(1, 0));
    assert_eq!(word.poll(), (0, false));

    // nothing to give back
    assert_eq!(word.leave(), Err(0));
    assert_eq!(word.poll(), (0, false));

    assert_eq!(word.seize(), 0);
    assert_eq!(word.poll(), (EXCLUSIVE, true));
    assert_eq!(word.yield_up(), EXCLUSIVE);
    assert_eq!(word.poll(), (0, false));
}
