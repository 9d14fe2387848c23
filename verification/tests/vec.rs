use rand::{Rng, SeedableRng};

use sensitive::pages::{Geometry, Protection, Request};
use sensitive::traits::AsPages;
use sensitive::vec::{InnerVec, Vec, CMP_MIN};

fn capacity_for(wanted: usize) -> usize {
    Vec::<u8>::with_capacity(wanted).capacity()
}

#[test]
fn vec_protection() {
    let geometry = Geometry::new(4096, 4096).unwrap();
    let mut test = Vec::<u8>::new();
    test.borrow_mut().push(0xff);

    let base = 0x10000;
    let inner = 4096;
    assert_eq!(test.payload_state(), Protection::NoAccess);
    assert_eq!(
        test.pending(base, geometry),
        Some(Request::Protect { base, size: inner, prot: Protection::NoAccess })
    );

    {
        let immutable = test.borrow();
        assert_eq!(immutable.as_slice()[0], 0xff);
    }

    assert_eq!(test.payload_state(), Protection::NoAccess);

    {
        let mut mutable = test.borrow_mut();
        assert_eq!(mutable.as_slice()[0], 0xff);
        mutable.pop();
        mutable.push(0x55);
        assert_eq!(mutable.as_slice()[0], 0x55);
    }

    assert_eq!(test.payload_state(), Protection::NoAccess);
    assert_eq!(test.state(), 0);
}

#[test]
fn vec_vec_seq() {
    const LIMIT: usize = 1048576;

    let mut test: Vec<usize> = Vec::new();

    {
        let mut mutable = test.borrow_mut();

        for i in 0..LIMIT {
            mutable.push(i);
        }
    }

    {
        let immutable = test.borrow();

        for i in 0..LIMIT {
            assert_eq!(immutable.as_slice()[i], i);
        }
    }
}

#[test]
fn vec_eq() {
    assert!(Vec::<u8>::from_vec(vec![]).borrow().eq_slice(&[] as &[u8; 0]));
    assert!(Vec::<u8>::from_vec(vec![0x00]).borrow().eq_slice(&[0u8]));

    assert!(!Vec::<u8>::from_vec(vec![]).borrow().eq_slice(&[0u8]));
    assert!(!Vec::<u8>::from_vec(vec![0x00]).borrow().eq_slice(&[] as &[u8; 0]));
    assert!(!Vec::<u8>::from_vec(vec![0x00]).borrow().eq_slice(&[0x55u8]));

    assert!(Vec::<u8>::from_vec(vec![0x00]).borrow().eq_bytes(&[0u8]));
    assert!(!Vec::<u8>::from_vec(vec![0x00]).borrow().eq_bytes(&[0x55u8]));
    assert!(Vec::<u8>::from_vec(vec![7, 9]).borrow().eq_slice(&[7u16, 9]));
    assert!(!Vec::<u8>::from_vec(vec![7, 9]).borrow().eq_slice(&[7u16, 9 + 256]));

    assert!(Vec::from_string("".to_string()).borrow().eq_str(""));
    assert!(Vec::from_string("Some secret".to_string()).borrow().eq_str("Some secret"));

    assert!(!Vec::from_string("Warum Thunfische das?".to_string()).borrow().eq_str(""));
}

#[test]
fn from_slice_wipes_the_source() {
    let mut source = [1u8, 2, 3, 4, 5];
    let mut vec = Vec::<u8>::from_slice(&mut source);
    assert_eq!(source, [0u8; 5]);
    assert_eq!(vec.len(), 5);
    assert_eq!(vec.capacity(), CMP_MIN);
    assert_eq!(vec.state(), 0);
    assert!(vec.borrow().eq_bytes(&[1, 2, 3, 4, 5]));
}

#[test]
fn vec_vec_rng() {
    const LIMIT: usize = 1048576;

    let mut rng = rand_xoshiro::Xoshiro256PlusPlus::from_os_rng();
    let mut test: Vec<u8> = Vec::new();

    let mut mutable = test.borrow_mut();

    for i in 0..LIMIT {
        let rand: u8 = rng.random();

        mutable.push(rand);
        assert_eq!(mutable.as_slice()[i], rand);
    }

    for _ in 0..LIMIT {
        assert!(mutable.pop().is_some());
        mutable.shrink_to_fit();
    }

    assert_eq!(mutable.len(), 0);
}

#[test]
fn capacities() {
    let mut test: Vec<u8> = Vec::new();
    assert_eq!((test.len(), test.capacity(), test.is_empty()), (0, 0, true));
    assert_eq!(capacity_for(0), 0);

    let test: Vec<u8> = Vec::with_capacity(1);
    assert_eq!(test.capacity(), 32);
    assert_eq!(test.payload_state(), Protection::NoAccess);
    let test: Vec<u8> = Vec::with_capacity_unprotected(33);
    assert_eq!(test.capacity(), 33);
    assert_eq!(test.payload_state(), Protection::ReadWrite);
    let mut test: Vec<u8> = Vec::with_capacity(0);
    assert_eq!(test.capacity(), 0);

    test.reserve(5);
    assert_eq!(test.capacity(), 32);
    test.reserve_exact(40);
    assert_eq!(test.capacity(), 40);
    test.reserve(40);
    assert_eq!(test.capacity(), 40);
    assert_eq!(test.state(), 0);
    assert_eq!(test.payload_state(), Protection::NoAccess);

    let mut mutable = test.borrow_mut();
    for i in 0..40 {
        mutable.push(i);
    }
    assert_eq!(mutable.inner().capacity(), 40);
    mutable.push(40);
    assert_eq!(mutable.inner().capacity(), 80);
    mutable.resize(3, 9);
    assert_eq!(mutable.as_slice(), &[0, 1, 2]);
    mutable.resize(5, 9);
    assert_eq!(mutable.as_slice(), &[0, 1, 2, 9, 9]);
    mutable.shrink_to_fit();
    assert_eq!(mutable.inner().capacity(), 32);
    mutable.extend(vec![7; 30]);
    assert_eq!(mutable.len(), 35);
    assert_eq!(mutable.inner().capacity(), 35);
    mutable.reserve(100);
    assert_eq!(mutable.inner().capacity(), 135);
    mutable.reserve_exact(1);
    assert_eq!(mutable.inner().capacity(), 135);
    assert_eq!(mutable.pop(), Some(7));
    mutable.inner_mut().wipe_last(31);
    assert_eq!(mutable.as_slice(), &[0, 1, 2]);
    mutable.inner_mut().set(1, 5);
    assert_eq!(mutable.as_slice(), &[0, 5, 2]);
    assert!(mutable.eq_bytes(&[0, 5, 2]));
    assert!(!mutable.eq_bytes(&[0, 5, 3]));
    assert!(!mutable.eq_bytes(&[0, 5]));
    assert!(!mutable.eq_bytes(&[0, 5, 2, 0]));
}

#[test]
fn equality_looks_past_the_items() {
    let mut long = [0u8; 100];
    long[99] = 1;
    let mut vec = Vec::<u8>::from_vec(vec![0u8; 40]);
    assert!(!vec.borrow().eq_bytes(&long));
    assert!(!vec.borrow().eq_bytes(&long[..39]));
    assert!(vec.borrow().eq_bytes(&long[..40]));
    let mut other = [0u8; 40];
    for place in 0..40 {
        other[place] = 1;
        assert!(!vec.borrow().eq_bytes(&other));
        other[place] = 0;
    }
}

#[test]
fn pages_of_a_vector() {
    let geometry = Geometry::new(4096, 65536).unwrap();
    let empty: InnerVec<u64> = InnerVec::new();
    assert!(empty.as_pages(0x100000, geometry).is_none());
    let vec: InnerVec<u64> = InnerVec::with_capacity(1);
    let pages = vec.as_pages(0x101000, geometry).unwrap();
    assert_eq!(pages.into_slice(), (0x101000, 65536 - 8192));
    let vec: InnerVec<u64> = InnerVec::with_capacity(8192);
    let pages = vec.as_pages(0x101000, geometry).unwrap();
    assert_eq!(pages.into_slice(), (0x101000, 131072 - 8192));

    let mut guarded: Vec<u64> = Vec::with_capacity(1);
    assert_eq!(
        guarded.pending(0x101000, geometry),
        Some(Request::Protect { base: 0x101000, size: 57344, prot: Protection::NoAccess })
    );
    {
        let _shared = guarded.borrow();
    }
    guarded.acquire();
    assert_eq!(
        guarded.pending(0x101000, geometry),
        Some(Request::Protect { base: 0x101000, size: 57344, prot: Protection::ReadOnly })
    );
    guarded.release();
    guarded.acquire_mut();
    assert_eq!(
        guarded.pending(0x101000, geometry),
        Some(Request::Protect { base: 0x101000, size: 57344, prot: Protection::ReadWrite })
    );
    guarded.release_mut();
    assert_eq!(
        guarded.pending(0x101000, geometry),
        Some(Request::Protect { base: 0x101000, size: 57344, prot: Protection::NoAccess })
    );
}

#[test]
fn comparison_on_the_vector() {
    let mut vec = Vec::from_string("Warum Thunfische das?".to_string());
    assert!(!vec.eq_str(""));
    assert_eq!(vec.state(), 0);
    assert_eq!(vec.payload_state(), Protection::NoAccess);
    assert!(vec.eq_str("Warum Thunfische das?"));
    assert!(vec.eq_bytes(b"Warum Thunfische das?"));
    assert!(!vec.eq_bytes(b"Darum Thunfische das!"));
    assert!(vec.eq_slice(&[87u16, 97, 114, 117, 109][..]) == false);
    assert_eq!(vec.state(), 0);

    vec.acquire();
    assert!(vec.eq_str("Warum Thunfische das?"));
    assert_eq!(vec.payload_state(), Protection::ReadOnly);
    vec.release();
    assert_eq!(vec.payload_state(), Protection::NoAccess);

    let mut words: Vec<usize> = Vec::new();
    words.borrow_mut().extend(vec![1, usize::MAX, 3]);
    assert!(words.eq_words(&[1, usize::MAX, 3]));
    assert!(!words.eq_words(&[1, usize::MAX - 1, 3]));
    assert!(!words.eq_words(&[1, usize::MAX]));
    assert!(words.borrow().eq_words(&[1, usize::MAX, 3]));
    assert!(words.borrow_mut().eq_words(&[1, usize::MAX, 3]));
    assert!(words.inner().eq_words(&[1, usize::MAX, 3]));
    assert_eq!(words.state(), 0);
}

#[test]
fn places_behind_the_items() {
    let mut vec = InnerVec::<u8>::with_capacity(40);
    assert!(vec.spare().is_empty());
    vec.extend(vec![1, 2, 3, 4, 5, 6]);
    vec.wipe_last(2);
    assert_eq!(vec.as_slice(), &[1, 2, 3, 4]);
    assert_eq!(vec.spare(), &[0, 0]);
    vec.resize(2, 9);
    assert_eq!(vec.spare(), &[3, 4, 0, 0]);
    vec.push(7);
    assert_eq!(vec.spare(), &[4, 0, 0]);
    vec.wipe_last(1);
    assert_eq!(vec.spare(), &[0, 4, 0, 0]);
    vec.extend(vec![8, 8]);
    assert_eq!(vec.spare(), &[0, 0]);
    vec.resize(6, 5);
    assert_eq!(vec.as_slice(), &[1, 2, 8, 8, 5, 5]);
    assert!(vec.spare().is_empty());
    vec.wipe_last(3);
    assert_eq!(vec.spare(), &[0, 0, 0]);
    vec.reserve(10);
    assert_eq!(vec.spare(), &[0, 0, 0]);
    vec.set(0, 6);
    assert_eq!(vec.spare(), &[0, 0, 0]);
    assert_eq!(vec.pop(), Some(8));
    assert!(vec.spare().is_empty());
    vec.wipe_last(1);
    assert_eq!(vec.spare(), &[0]);
    vec.shrink_to_fit();
    assert!(vec.spare().is_empty());
    assert_eq!(vec.capacity(), 32);
    vec.wipe_last(1);
    vec.reserve(100);
    assert!(vec.spare().is_empty());
    assert_eq!(vec.payload(), Some(100));
    assert_eq!(InnerVec::<u64>::with_capacity(40).payload(), Some(320));
}
