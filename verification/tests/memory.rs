use std::collections::HashMap;

use rand::distr::{Distribution, Uniform};
use rand::{Rng, SeedableRng};

use sensitive::allocator::{AllocError, Allocate, Block, Deallocate, Layout, Next, Reply, Sensitive, Shrink};
use sensitive::pages::{Allocation, Geometry, GuardedAlloc, Pages, Protection, Request};
use sensitive::traits::{can_lie, can_place};
use sensitive::vec::InnerVec;

/// The pages that a test has mapped, with their protection.
struct Memory {
    geometry: Geometry,
    next: usize,
    pages: HashMap<usize, Protection>,
    wiped: Vec<(usize, usize)>,
    released: usize,
}

impl Memory {
    fn new(geometry: Geometry) -> Self {
        Memory {
            geometry,
            next: 16 * geometry.granularity(),
            pages: HashMap::new(),
            wiped: Vec::new(),
            released: 0,
        }
    }

    fn range(&self, base: usize, size: usize) -> std::ops::Range<usize> {
        let page = self.geometry.page_size();
        assert_eq!(base % page, 0);
        assert_eq!(size % page, 0);
        base / page..(base + size) / page
    }

    fn mapped(&self, base: usize, size: usize) -> bool {
        self.range(base, size).all(|page| self.pages.contains_key(&page))
    }

    fn perform(&mut self, request: Request) -> Reply {
        match request {
            Request::Reserve { size, prot } => {
                if size == 0 {
                    return Reply::Failed;
                }
                assert_eq!(size % self.geometry.granularity(), 0);
                let base = self.next;
                self.next += size + self.geometry.granularity();
                for page in self.range(base, size) {
                    self.pages.insert(page, prot);
                }
                Reply::Mapped(base)
            }
            Request::Release { base, size } | Request::Uncommit { base, size } => {
                if !self.mapped(base, size) {
                    return Reply::Failed;
                }
                for page in self.range(base, size) {
                    self.pages.remove(&page);
                }
                self.released += size;
                Reply::Done
            }
            Request::Protect { base, size, prot } => {
                if !self.mapped(base, size) {
                    return Reply::Failed;
                }
                for page in self.range(base, size) {
                    self.pages.insert(page, prot);
                }
                Reply::Done
            }
            Request::Lock { .. } | Request::Unlock { .. } => Reply::Failed,
            Request::Zero { base, size } => {
                for offset in (0..size).step_by(self.geometry.page_size()) {
                    assert_eq!(self.store(base + offset), Ok(()));
                }
                self.wiped.push((base, size));
                Reply::Done
            }
        }
    }

    fn load(&self, addr: usize) -> Result<(), ()> {
        match self.pages.get(&(addr / self.geometry.page_size())) {
            Some(Protection::ReadOnly) | Some(Protection::ReadWrite) => Ok(()),
            _ => Err(()),
        }
    }

    fn store(&self, addr: usize) -> Result<(), ()> {
        match self.pages.get(&(addr / self.geometry.page_size())) {
            Some(Protection::ReadWrite) => Ok(()),
            _ => Err(()),
        }
    }
}

fn small() -> Geometry {
    Geometry::new(4096, 4096).unwrap()
}

fn coarse() -> Geometry {
    Geometry::new(4096, 65536).unwrap()
}

fn stride(size: usize) -> usize {
    if size <= 65536 {
        1
    } else {
        4096
    }
}

fn allocate(rules: &Sensitive, memory: &mut Memory, layout: Layout) -> Result<Block, AllocError> {
    let mut next = rules.allocate(layout);
    loop {
        match next {
            Next::Ask(request, state) => next = rules.allocate_next(state, memory.perform(request)),
            Next::Done(result) => return result,
        }
    }
}

fn deallocate(
    rules: &Sensitive,
    memory: &mut Memory,
    base: usize,
    layout: Layout,
) -> Result<(), AllocError> {
    let mut next = rules.deallocate(base, layout);
    loop {
        match next {
            Next::Ask(request, state) => {
                next = rules.deallocate_next(state, memory.perform(request))
            }
            Next::Done(result) => return result,
        }
    }
}

fn shrink(
    rules: &Sensitive,
    memory: &mut Memory,
    base: usize,
    old: Layout,
    new: Layout,
) -> Result<Block, AllocError> {
    let mut next = rules.shrink(base, old, new);
    loop {
        match next {
            Next::Ask(request, state) => next = rules.shrink_next(state, memory.perform(request)),
            Next::Done(result) => return result,
        }
    }
}

#[test]
fn page_size() {
    let geometry = small();
    assert!(Pages::granularity(&geometry).is_power_of_two());

    // No modern architecture has a page size < 4096 bytes
    assert!(Pages::granularity(&geometry) >= 4096);
    assert!(Geometry::new(2048, 4096).is_none());
    assert!(Geometry::new(4096 + 1, 8192).is_none());
    assert!(Geometry::new(0, 4096).is_none());
}

#[test]
fn alloc_size() {
    for geometry in [small(), coarse()] {
        assert!(Allocation::granularity(&geometry).is_power_of_two());
        assert!(Allocation::granularity(&geometry) >= Pages::granularity(&geometry));
        assert_eq!(
            Pages::align(&geometry, Allocation::granularity(&geometry)),
            Allocation::granularity(&geometry)
        );
    }
    assert!(Geometry::new(8192, 4096).is_none());
    assert!(Geometry::new(4096, 12288).is_none());
}

fn pages_raw_range(range: std::ops::Range<usize>, samples: usize) {
    let mut rng = rand_xoshiro::Xoshiro256PlusPlus::from_os_rng();
    let dist = Uniform::try_from(range).unwrap();
    let geometry = small();
    let mut memory = Memory::new(geometry);

    for _ in 0..samples {
        let size = dist.sample(&mut rng);

        let request = Allocation::new(size, Protection::ReadWrite, &geometry);
        let aligned = Allocation::align(&geometry, size);
        assert_eq!(request, Request::Reserve { size: aligned, prot: Protection::ReadWrite });
        let addr = match memory.perform(request) {
            Reply::Mapped(addr) => addr,
            _ => unreachable!(),
        };
        let alloc = Allocation::from_ptr(addr, aligned, geometry);

        assert!(alloc.size() >= size);
        assert!(alloc.size() < size + 4096);
        assert_eq!(alloc.len() * 4096, alloc.size());

        for offset in (0..alloc.size()).step_by(stride(size)) {
            assert_eq!(memory.load(alloc.as_ptr() + offset), Ok(()));
            assert_eq!(memory.store(alloc.as_ptr() + offset), Ok(()));
        }

        assert_eq!(memory.perform(alloc.release()), Reply::Done);
        assert_eq!(memory.load(addr), Err(()));
    }
}

#[test]
fn pages_raw_tiny() {
    pages_raw_range(1..4096, 4095);
}

#[test]
fn pages_raw_small() {
    pages_raw_range(4096..65536, 256);
}

#[test]
fn pages_raw_medium() {
    pages_raw_range(65536..4194304, 64);
}

#[test]
fn pages_raw_large() {
    pages_raw_range(4194304..16777216, 16);
}

#[test]
fn pages_raw_huge() {
    pages_raw_range(4194304..268435456, 4);
}

#[test]
fn raw_protection() {
    let geometry = small();
    let mut memory = Memory::new(geometry);
    let size = Allocation::granularity(&geometry);
    let addr = match memory.perform(Allocation::new(size, Protection::NoAccess, &geometry)) {
        Reply::Mapped(addr) => addr,
        _ => unreachable!(),
    };
    let alloc = Allocation::from_ptr(addr, size, geometry);
    let ptr = alloc.as_ptr();

    for i in 0..size {
        assert_eq!(memory.load(ptr + i), Err(()));
        assert_eq!(memory.store(ptr + i), Err(()));
    }

    let all = alloc.pages(0..size / Pages::granularity(&geometry)).unwrap();
    assert_eq!(memory.perform(all.protect(Protection::ReadOnly)), Reply::Done);

    for i in 0..size {
        assert_eq!(memory.load(ptr + i), Ok(()));
        assert_eq!(memory.store(ptr + i), Err(()));
    }

    let all = alloc.pages(0..size / Pages::granularity(&geometry)).unwrap();
    assert_eq!(memory.perform(all.protect(Protection::ReadWrite)), Reply::Done);

    for i in 0..size {
        assert_eq!(memory.load(ptr + i), Ok(()));
        assert_eq!(memory.store(ptr + i), Ok(()));
    }
}

#[test]
fn pages_raw_shrink() {
    let geometry = small();
    let mut memory = Memory::new(geometry);
    let size_0 = std::cmp::max(
        Allocation::granularity(&geometry),
        2 * Pages::granularity(&geometry),
    );
    let addr = match memory.perform(Allocation::new(size_0, Protection::ReadWrite, &geometry)) {
        Reply::Mapped(addr) => addr,
        _ => unreachable!(),
    };
    let alloc_0 = Allocation::from_ptr(addr, size_0, geometry);
    assert_eq!(alloc_0.size(), size_0);

    let ptr = alloc_0.as_ptr();

    for i in 0..size_0 {
        assert_eq!(memory.load(ptr + i), Ok(()));
        assert_eq!(memory.store(ptr + i), Ok(()));
    }

    let size_1 = size_0 - Pages::granularity(&geometry);

    let (alloc_1, tail) = alloc_0.shrink(size_1);
    assert_eq!(tail, Some(Request::Uncommit { base: ptr + size_1, size: 4096 }));
    assert_eq!(memory.perform(tail.unwrap()), Reply::Done);
    assert_eq!(alloc_1.size(), size_1);
    assert_eq!(alloc_1.as_ptr(), ptr);

    for i in 0..size_1 {
        assert_eq!(memory.load(ptr + i), Ok(()));
    }

    for i in size_1..size_0 {
        assert_eq!(memory.load(ptr + i), Err(()));
    }
}

fn guarded_range(range: std::ops::Range<usize>, samples: usize) {
    let mut rng = rand_xoshiro::Xoshiro256PlusPlus::from_os_rng();
    let dist = Uniform::try_from(range).unwrap();
    let geometry = small();
    let mut memory = Memory::new(geometry);

    for _ in 0..samples {
        let size = dist.sample(&mut rng);

        let outer = GuardedAlloc::<1>::outer_size(&geometry, size);
        let addr = match memory.perform(Allocation::new(outer, Protection::NoAccess, &geometry)) {
            Reply::Mapped(addr) => addr,
            _ => unreachable!(),
        };
        let frame = Allocation::from_ptr(addr, outer, geometry);
        let (alloc, upgrade) = GuardedAlloc::<1>::new(frame, Protection::ReadWrite);
        if let Some(request) = upgrade {
            assert_eq!(memory.perform(request), Reply::Done);
        }

        assert!(alloc.inner().size() >= size);
        assert_eq!(alloc.inner().size(), GuardedAlloc::<1>::inner_size(&geometry, size));
        assert_eq!(alloc.inner().as_ptr(), addr + 4096);

        let base = alloc.inner().as_ptr();
        for offset in (0..alloc.inner().size()).step_by(stride(size)) {
            assert_eq!(memory.load(base + offset), Ok(()));
            assert_eq!(memory.store(base + offset), Ok(()));
        }
        assert_eq!(memory.load(base - 1), Err(()));
        assert_eq!(memory.load(base + alloc.inner().size()), Err(()));

        assert_eq!(memory.perform(alloc.release()), Reply::Done);
    }
}

#[test]
fn guarded_tiny() {
    guarded_range(0..4096, 4096);
}

#[test]
fn guarded_small() {
    guarded_range(4096..65536, 256);
}

#[test]
fn guarded_medium() {
    guarded_range(65536..4194304, 64);
}

#[test]
fn guarded_large() {
    guarded_range(4194304..16777216, 16);
}

#[test]
fn guarded_huge() {
    guarded_range(4194304..268435456, 4);
}

#[test]
fn guarded_guard() {
    let geometry = small();
    let mut memory = Memory::new(geometry);
    let size = Allocation::granularity(&geometry);
    let outer = GuardedAlloc::<1>::outer_size(&geometry, size);
    let addr = match memory.perform(Allocation::new(outer, Protection::NoAccess, &geometry)) {
        Reply::Mapped(addr) => addr,
        _ => unreachable!(),
    };
    let (alloc, upgrade) =
        GuardedAlloc::<1>::new(Allocation::from_ptr(addr, outer, geometry), Protection::ReadWrite);
    assert_eq!(memory.perform(upgrade.unwrap()), Reply::Done);
    let ptr = alloc.inner().as_ptr();

    // Preceding guard
    for i in 1..=GuardedAlloc::<1>::guard_size(&geometry) {
        assert_eq!(memory.load(ptr - i), Err(()));
        assert_eq!(memory.store(ptr - i), Err(()));
    }

    for i in 0..size {
        assert_eq!(memory.load(ptr + i), Ok(()));
        assert_eq!(memory.store(ptr + i), Ok(()));
    }

    // Trailing guard
    for i in size..size + GuardedAlloc::<1>::guard_size(&geometry) {
        assert_eq!(memory.load(ptr + i), Err(()));
        assert_eq!(memory.store(ptr + i), Err(()));
    }
}

#[test]
fn guarded_shrink() {
    let geometry = small();
    let mut memory = Memory::new(geometry);
    let guard = GuardedAlloc::<1>::guard_size(&geometry);
    let size_0 = std::cmp::max(Allocation::granularity(&geometry), 2 * guard);

    let outer = GuardedAlloc::<1>::outer_size(&geometry, size_0);
    let addr = match memory.perform(Allocation::new(outer, Protection::NoAccess, &geometry)) {
        Reply::Mapped(addr) => addr,
        _ => unreachable!(),
    };
    let (alloc_0, upgrade) =
        GuardedAlloc::<1>::new(Allocation::from_ptr(addr, outer, geometry), Protection::ReadWrite);
    assert_eq!(memory.perform(upgrade.unwrap()), Reply::Done);
    let ptr = alloc_0.inner().as_ptr();

    for i in 0..size_0 {
        assert_eq!(memory.load(ptr + i), Ok(()));
    }

    // The guard before the shrink
    for i in size_0..size_0 + guard {
        assert_eq!(memory.load(ptr + i), Err(()));
    }

    let size_1 = size_0 - guard;
    let (alloc_1, requests) = alloc_0.shrink(size_1);
    assert_eq!(
        requests,
        vec![
            Request::Protect { base: ptr + size_1, size: guard, prot: Protection::NoAccess },
            Request::Uncommit { base: ptr + size_1 + guard, size: guard },
        ]
    );
    for request in requests {
        assert_eq!(memory.perform(request), Reply::Done);
    }

    // Allocation should not move
    assert_eq!(alloc_1.inner().as_ptr(), ptr);
    assert_eq!(alloc_1.inner().size(), size_1);

    for i in 0..size_1 {
        assert_eq!(memory.load(ptr + i), Ok(()));
    }

    // New guard, and what lies behind it
    for i in size_1..size_0 + guard {
        assert_eq!(memory.load(ptr + i), Err(()));
    }

    // Nothing more to cut off
    let (alloc_2, requests) = alloc_1.shrink(size_1);
    assert!(requests.is_empty());
    assert_eq!(alloc_2.into_slice(), (ptr, size_1));
}

fn alloc_raw_range(range: std::ops::Range<usize>, samples: usize) {
    let mut rng = rand_xoshiro::Xoshiro256PlusPlus::from_os_rng();
    let dist = Uniform::try_from(range).unwrap();
    let geometry = small();
    let rules = Sensitive::new(geometry);
    let mut memory = Memory::new(geometry);

    for _ in 0..samples {
        let size = dist.sample(&mut rng);

        let layout = Layout::from_size_align(size, 1).unwrap();
        let alloc = allocate(&rules, &mut memory, layout).unwrap();
        assert!(alloc.size >= size);
        assert_eq!(alloc.size, rules.inner_size(size));
        assert_eq!(alloc.base % 4096, 0);

        for i in (0..size).step_by(stride(size)) {
            assert_eq!(memory.load(alloc.base + i), Ok(()));
            assert_eq!(memory.store(alloc.base + i), Ok(()));
        }

        memory.wiped.clear();
        assert_eq!(deallocate(&rules, &mut memory, alloc.base, layout), Ok(()));
        if size > 0 {
            assert_eq!(memory.wiped, vec![(alloc.base, size)]);
        }
        assert_eq!(memory.load(alloc.base), Err(()));
        assert!(memory.pages.is_empty());
    }
}

#[test]
fn alloc_raw_tiny() {
    alloc_raw_range(0..4096, 4096);
}

#[test]
fn alloc_raw_small() {
    alloc_raw_range(4096..65536, 256);
}

#[test]
fn alloc_raw_medium() {
    alloc_raw_range(65536..4194304, 64);
}

#[test]
fn alloc_raw_large() {
    alloc_raw_range(4194304..16777216, 16);
}

#[test]
fn alloc_raw_huge() {
    alloc_raw_range(4194304..268435456, 4);
}

#[test]
fn raw_guard() {
    let geometry = small();
    let rules = Sensitive::new(geometry);
    let mut memory = Memory::new(geometry);
    let size = Allocation::align(&geometry, 4194304);

    let layout = Layout::from_size_align(size, 1).unwrap();
    let alloc = allocate(&rules, &mut memory, layout).unwrap();
    let ptr = alloc.base;
    assert_eq!(alloc.size, size);

    // Preceding guard
    for i in 1..=rules.guard_size() {
        assert_eq!(memory.load(ptr - i), Err(()));
    }

    for i in 0..size {
        assert_eq!(memory.load(ptr + i), Ok(()));
    }

    // Trailing guard
    for i in size..size + rules.guard_size() {
        assert_eq!(memory.load(ptr + i), Err(()));
    }

    assert_eq!(deallocate(&rules, &mut memory, ptr, layout), Ok(()));
}

#[test]
fn alloc_raw_shrink() {
    let geometry = small();
    let rules = Sensitive::new(geometry);
    let mut memory = Memory::new(geometry);
    let size = geometry.granularity() + rules.guard_size();

    let layout_0 = Layout::from_size_align(size, 1).unwrap();
    let alloc_0 = allocate(&rules, &mut memory, layout_0).unwrap();
    let ptr = alloc_0.base;

    for i in 0..size {
        assert_eq!(memory.load(ptr + i), Ok(()));
    }

    // The guard before the shrink
    for i in size..size + rules.guard_size() {
        assert_eq!(memory.load(ptr + i), Err(()));
    }

    let layout_1 = Layout::from_size_align(size - rules.guard_size(), 1).unwrap();
    memory.wiped.clear();
    let alloc_1 = shrink(&rules, &mut memory, ptr, layout_0, layout_1).unwrap();

    // Allocation should not move
    assert_eq!(alloc_0.base, alloc_1.base);
    assert_eq!(alloc_1.size, size / 2);
    assert_eq!(memory.wiped, vec![(ptr + size / 2, 2 * rules.guard_size())]);

    for i in 0..size / 2 {
        assert_eq!(memory.load(ptr + i), Ok(()));
    }

    // New guard, and what lies behind it
    for i in size / 2..size + rules.guard_size() {
        assert_eq!(memory.load(ptr + i), Err(()));
    }

    assert_eq!(deallocate(&rules, &mut memory, alloc_1.base, layout_1), Ok(()));
    assert!(memory.pages.is_empty());
}

/// The allocator calls that a vector of `T` makes when it grows to
/// `capacity` places from `before`.
fn regrow(
    rules: &Sensitive,
    memory: &mut Memory,
    held: &mut Option<(usize, Layout)>,
    bytes: usize,
) {
    let layout = Layout::from_size_align(bytes, std::mem::align_of::<usize>()).unwrap();
    let block = allocate(rules, memory, layout).unwrap();
    assert!(block.size >= bytes);
    if let Some((base, old)) = held.take() {
        assert_eq!(deallocate(rules, memory, base, old), Ok(()));
    }
    *held = Some((block.base, layout));
}

#[test]
fn alloc_vec_seq() {
    const LIMIT: usize = 4194304;

    let geometry = small();
    let rules = Sensitive::new(geometry);
    let mut memory = Memory::new(geometry);
    let mut held = None;
    let mut test: InnerVec<usize> = InnerVec::new();

    for i in 0..LIMIT {
        let before = test.capacity();
        test.push(i);
        if test.capacity() != before {
            regrow(&rules, &mut memory, &mut held, test.capacity() * std::mem::size_of::<usize>());
        }
    }

    for i in 0..LIMIT {
        assert_eq!(test.as_slice()[i], i);
    }

    let (base, layout) = held.unwrap();
    assert_eq!(memory.load(base), Ok(()));
    assert_eq!(deallocate(&rules, &mut memory, base, layout), Ok(()));
    assert!(memory.pages.is_empty());
}

#[test]
fn alloc_vec_rng() {
    const LIMIT: usize = 4194304;

    let mut rng = rand_xoshiro::Xoshiro256PlusPlus::from_os_rng();
    let mut test: InnerVec<u8> = InnerVec::new();

    for i in 0..LIMIT {
        let rand: u8 = rng.random();

        test.push(rand);
        assert_eq!(test.as_slice()[i], rand);
    }

    for _ in 0..LIMIT {
        assert!(test.pop().is_some());
        test.shrink_to_fit();
    }

    assert!(test.is_empty());
    assert_eq!(test.capacity(), 0);
}

#[test]
fn allocation_refused_for_large_alignment() {
    let rules = Sensitive::new(small());
    let mut memory = Memory::new(small());
    let layout = Layout::from_size_align(16, 4096).unwrap();
    assert_eq!(allocate(&rules, &mut memory, layout), Err(AllocError::Unsupported));
    assert!(memory.pages.is_empty());
    let layout = Layout::from_size_align(16, 2048).unwrap();
    assert!(allocate(&rules, &mut memory, layout).is_ok());
}

#[test]
fn allocation_steps() {
    let rules = Sensitive::new(coarse());
    let layout = Layout::from_size_align(1, 1).unwrap();
    let state = match rules.allocate(layout) {
        Next::Ask(request, state) => {
            assert_eq!(request, Request::Reserve { size: 65536, prot: Protection::NoAccess });
            assert_eq!(state, Allocate::Reserving { outer: 65536 });
            state
        }
        Next::Done(_) => unreachable!(),
    };
    // a failed reservation
    assert!(matches!(
        rules.allocate_next(state, Reply::Failed),
        Next::Done(Err(AllocError::OutOfMemory))
    ));
    // an address that is no multiple of the granularity
    assert!(matches!(
        rules.allocate_next(state, Reply::Mapped(4096)),
        Next::Done(Err(AllocError::OutOfMemory))
    ));
    let state = match rules.allocate_next(state, Reply::Mapped(0x100000)) {
        Next::Ask(request, state) => {
            assert_eq!(request, Request::Lock { base: 0x101000, size: 57344 });
            state
        }
        Next::Done(_) => unreachable!(),
    };
    // a pin that fails is no failure
    let state = match rules.allocate_next(state, Reply::Failed) {
        Next::Ask(request, state) => {
            assert_eq!(
                request,
                Request::Protect { base: 0x101000, size: 57344, prot: Protection::ReadWrite }
            );
            state
        }
        Next::Done(_) => unreachable!(),
    };
    assert!(matches!(
        rules.allocate_next(state, Reply::Done),
        Next::Done(Ok(Block { base: 0x101000, size: 57344 }))
    ));
    // no access: the frame goes back and the allocation fails
    let state = match rules.allocate_next(state, Reply::Failed) {
        Next::Ask(request, state) => {
            assert_eq!(request, Request::Release { base: 0x100000, size: 65536 });
            assert_eq!(state, Allocate::Releasing);
            state
        }
        Next::Done(_) => unreachable!(),
    };
    assert!(matches!(
        rules.allocate_next(state, Reply::Done),
        Next::Done(Err(AllocError::OutOfMemory))
    ));
}

#[test]
fn zero_sized_allocation() {
    let geometry = small();
    let rules = Sensitive::new(geometry);
    let mut memory = Memory::new(geometry);
    let layout = Layout::from_size_align(0, 1).unwrap();
    let block = allocate(&rules, &mut memory, layout).unwrap();
    assert_eq!(block.size, 0);
    assert_ne!(block.base, 0);
    assert_eq!(block.base % 4096, 0);
    assert_eq!(memory.load(block.base - 1), Err(()));
    assert_eq!(memory.load(block.base), Err(()));
    assert_eq!(memory.pages.len(), 2);
    assert_eq!(deallocate(&rules, &mut memory, block.base, layout), Ok(()));
    assert!(memory.wiped.is_empty());
    assert!(memory.pages.is_empty());
}

#[test]
fn deallocation_steps() {
    let rules = Sensitive::new(small());
    let layout = Layout::from_size_align(5000, 8).unwrap();
    let base = 0x21000;
    let state = match rules.deallocate(base, layout) {
        Next::Ask(request, state) => {
            assert_eq!(
                request,
                Request::Protect { base, size: 8192, prot: Protection::ReadWrite }
            );
            assert_eq!(state, Deallocate::Protecting { base, size: 5000 });
            state
        }
        Next::Done(_) => unreachable!(),
    };
    assert!(matches!(
        rules.deallocate_next(state, Reply::Failed),
        Next::Done(Err(AllocError::Fatal))
    ));
    let state = match rules.deallocate_next(state, Reply::Done) {
        Next::Ask(request, state) => {
            assert_eq!(request, Request::Zero { base, size: 5000 });
            state
        }
        Next::Done(_) => unreachable!(),
    };
    let state = match rules.deallocate_next(state, Reply::Done) {
        Next::Ask(request, state) => {
            assert_eq!(request, Request::Release { base: 0x20000, size: 16384 });
            assert_eq!(state, Deallocate::Releasing);
            state
        }
        Next::Done(_) => unreachable!(),
    };
    assert!(matches!(
        rules.deallocate_next(state, Reply::Failed),
        Next::Done(Err(AllocError::Fatal))
    ));
    assert!(matches!(rules.deallocate_next(state, Reply::Done), Next::Done(Ok(()))));
}

#[test]
fn shrink_steps() {
    let rules = Sensitive::new(small());
    let old = Layout::from_size_align(3 * 4096, 1).unwrap();
    let new = Layout::from_size_align(4096, 1).unwrap();
    let base = 0x21000;
    let refused = Layout::from_size_align(4096, 4096).unwrap();
    assert!(matches!(
        rules.shrink(base, old, refused),
        Next::Done(Err(AllocError::Unsupported))
    ));
    // within the same page nothing is asked
    let near = Layout::from_size_align(2 * 4096 + 1, 1).unwrap();
    assert!(matches!(
        rules.shrink(base, old, near),
        Next::Done(Ok(Block { base: 0x21000, size: 12288 }))
    ));
    let state = match rules.shrink(base, old, new) {
        Next::Ask(request, state) => {
            assert_eq!(
                request,
                Request::Protect { base: base + 4096, size: 12288, prot: Protection::ReadWrite }
            );
            assert_eq!(state, Shrink::Protecting { base, kept: 4096, cut: 8192 });
            state
        }
        Next::Done(_) => unreachable!(),
    };
    assert!(matches!(
        rules.shrink_next(state, Reply::Failed),
        Next::Done(Err(AllocError::Fatal))
    ));
    let state = match rules.shrink_next(state, Reply::Done) {
        Next::Ask(request, state) => {
            assert_eq!(request, Request::Zero { base: base + 4096, size: 12288 });
            state
        }
        Next::Done(_) => unreachable!(),
    };
    let state = match rules.shrink_next(state, Reply::Done) {
        Next::Ask(request, state) => {
            assert_eq!(
                request,
                Request::Protect { base: base + 4096, size: 4096, prot: Protection::NoAccess }
            );
            state
        }
        Next::Done(_) => unreachable!(),
    };
    assert!(matches!(
        rules.shrink_next(state, Reply::Failed),
        Next::Done(Err(AllocError::Fatal))
    ));
    let state = match rules.shrink_next(state, Reply::Done) {
        Next::Ask(request, state) => {
            assert_eq!(request, Request::Uncommit { base: base + 8192, size: 8192 });
            state
        }
        Next::Done(_) => unreachable!(),
    };
    assert!(matches!(
        rules.shrink_next(state, Reply::Failed),
        Next::Done(Err(AllocError::Fatal))
    ));
    assert!(matches!(
        rules.shrink_next(state, Reply::Done),
        Next::Done(Ok(Block { base: 0x21000, size: 4096 }))
    ));
}

#[test]
fn sizes() {
    let geometry = small();
    let rules = Sensitive::new(geometry);
    assert_eq!(rules.guard_size(), 4096);
    for (size, outer) in [
        (0, 8192),
        (1, 12288),
        (4095, 12288),
        (4096, 12288),
        (4097, 16384),
    ] {
        assert_eq!(rules.outer_size(size), outer);
        assert_eq!(rules.inner_size(size), outer - 8192);
        assert_eq!(GuardedAlloc::<1>::outer_size(&geometry, size), outer);
        assert_eq!(GuardedAlloc::<1>::inner_size(&geometry, size), outer - 8192);
    }
    assert_eq!(GuardedAlloc::<2>::guard_size(&geometry), 8192);
    assert_eq!(GuardedAlloc::<2>::outer_size(&geometry, 1), 20480);

    let geometry = coarse();
    let rules = Sensitive::new(geometry);
    assert_eq!(rules.guard_size(), 4096);
    for (size, outer) in [
        (0, 65536),
        (1, 65536),
        (65535 - 8192, 65536),
        (65536 - 8192, 65536),
        (65537 - 8192, 131072),
        (65536, 131072),
    ] {
        assert_eq!(rules.outer_size(size), outer);
        assert_eq!(rules.inner_size(size), outer - 8192);
    }
    assert_eq!(rules.checked_outer_size(usize::MAX - 8192), None);
    assert_eq!(rules.checked_outer_size(usize::MAX), None);
    assert_eq!(Pages::align(&geometry, 0), 0);
    assert_eq!(Pages::align(&geometry, 1), 4096);
    assert_eq!(Allocation::align(&geometry, 1), 65536);
    assert_eq!(Allocation::align(&geometry, 65536), 65536);
    assert_eq!(Allocation::align(&geometry, 65537), 131072);
}

#[test]
fn layouts() {
    assert!(Layout::from_size_align(0, 1).is_some());
    assert!(Layout::from_size_align(1, 0).is_none());
    assert!(Layout::from_size_align(1, 3).is_none());
    assert!(Layout::from_size_align(isize::MAX as usize, 1).is_some());
    assert!(Layout::from_size_align(isize::MAX as usize + 1, 1).is_none());
    let layout = Layout::from_size_align(24, 8).unwrap();
    assert_eq!((layout.size(), layout.align()), (24, 8));
}

#[test]
fn sub_ranges() {
    let geometry = small();
    let alloc = Allocation::from_raw_parts(0x40000, 8 * 4096, geometry);
    assert_eq!(alloc.len(), 8);
    assert!(!alloc.is_empty());
    let pages = alloc.pages(2..5).unwrap();
    assert_eq!(pages.as_ptr(), 0x40000 + 2 * 4096);
    assert_eq!(pages.size(), 3 * 4096);
    assert_eq!(pages.len(), 3);
    assert!(alloc.pages(8..8).is_none());
    assert!(alloc.pages(0..9).is_none());
    assert!(alloc.pages(7..8).is_some());
    assert!(alloc.pages(3..3).unwrap().is_empty());

    // a range of pages gives the pages of a range without its last one
    let inner = pages.pages(0..3).unwrap();
    assert_eq!(inner.into_slice(), (0x40000 + 2 * 4096, 2 * 4096));
    assert!(pages.pages(3..3).is_none());
    assert!(pages.pages(0..4).is_none());

    assert_eq!(
        pages.protect(Protection::ReadOnly),
        Request::Protect { base: 0x42000, size: 3 * 4096, prot: Protection::ReadOnly }
    );
    assert_eq!(pages.lock(), Request::Lock { base: 0x42000, size: 3 * 4096 });
    assert_eq!(pages.unlock(), Request::Unlock { base: 0x42000, size: 3 * 4096 });
    assert_eq!(alloc.release(), Request::Release { base: 0x40000, size: 8 * 4096 });
}

#[test]
fn guarded_parts() {
    let geometry = coarse();
    let alloc = GuardedAlloc::<1>::from_ptr(0x100000 + 4096, 100, geometry);
    assert_eq!(alloc.inner().into_slice(), (0x101000, 65536 - 8192));
    let pages = alloc.into_pages();
    assert_eq!(pages.len(), 14);
    let alloc = GuardedAlloc::<1>::from_raw_parts(0x100000 + 4096, 65536, geometry);
    assert_eq!(alloc.release(), Request::Release { base: 0x100000, size: 131072 });
}

#[test]
fn boundary_sizes() {
    for geometry in [small(), coarse()] {
        let page = geometry.page_size();
        let granule = geometry.granularity();
        let rules = Sensitive::new(geometry);
        let mut memory = Memory::new(geometry);
        for size in [0, 1, page - 1, page, page + 1, granule - 1, granule, granule + 1] {
            let layout = Layout::from_size_align(size, 1).unwrap();
            let block = allocate(&rules, &mut memory, layout).unwrap();
            assert!(block.size >= size);
            assert!(block.size < size + granule);
            assert_eq!((block.size + 2 * page) % granule, 0);
            assert!(rules.owns(block.base, size));
            assert!(!rules.owns(block.base + 1, size));

            for i in 1..=page {
                assert_eq!(memory.load(block.base - i), Err(()));
                assert_eq!(memory.load(block.base + block.size + i - 1), Err(()));
            }
            for i in 0..block.size {
                assert_eq!(memory.load(block.base + i), Ok(()));
                assert_eq!(memory.store(block.base + i), Ok(()));
            }

            if size > page + 1 {
                let less = Layout::from_size_align(1, 1).unwrap();
                let kept = shrink(&rules, &mut memory, block.base, layout, less).unwrap();
                assert_eq!(kept.base, block.base);
                assert_eq!(kept.size, rules.inner_size(1));
                for i in 0..kept.size {
                    assert_eq!(memory.store(kept.base + i), Ok(()));
                }
                for i in kept.size..block.size + page {
                    assert_eq!(memory.load(kept.base + i), Err(()));
                }
                assert_eq!(deallocate(&rules, &mut memory, kept.base, less), Ok(()));
            } else {
                assert_eq!(deallocate(&rules, &mut memory, block.base, layout), Ok(()));
            }
            assert!(memory.pages.is_empty());
        }
    }
}

#[test]
fn reservation_of_a_guarded_allocation() {
    let geometry = coarse();
    assert_eq!(
        GuardedAlloc::<1>::reserve(1, &geometry),
        Request::Reserve { size: 65536, prot: Protection::NoAccess }
    );
    assert_eq!(
        GuardedAlloc::<2>::reserve(65536, &small()),
        Request::Reserve { size: 65536 + 16384, prot: Protection::NoAccess }
    );
}

#[test]
fn given_up_and_taken_back() {
    let geometry = small();
    let alloc = Allocation::from_raw_parts(0x40000, 3 * 4096, geometry);
    let size = alloc.size();
    let ptr = alloc.into_ptr();
    let again = Allocation::from_ptr(ptr, size, geometry);
    assert_eq!(again.into_slice(), (0x40000, 3 * 4096));

    let guarded = GuardedAlloc::<1>::from_raw_parts(0x41000, 4096, geometry);
    let (base, inner) = guarded.into_slice();
    let again = GuardedAlloc::<1>::from_raw_parts(base, inner, geometry);
    assert_eq!(again.release(), Request::Release { base: 0x40000, size: 3 * 4096 });
}

#[test]
fn placing() {
    let geometry = coarse();
    assert!(can_place(0x101000, 1, geometry));
    assert!(can_place(0x101000, 0, geometry));
    assert!(!can_place(0, 1, geometry));
    assert!(!can_place(0x101001, 1, geometry));
    assert!(!can_place(0x101000, usize::MAX, geometry));
    assert!(!can_place(usize::MAX - 4095, 1, geometry));
    let vec: InnerVec<u64> = InnerVec::with_capacity(8);
    assert!(can_lie(&vec, 0x101000, geometry));
    assert!(!can_lie(&vec, 0x101008, geometry));
    let empty: InnerVec<u64> = InnerVec::new();
    assert!(can_lie(&empty, 7, geometry));
}
