//! The sensitive allocator: guarded, pinned, wiped on release.
//!
//! The allocator decides; its caller talks to the operating system. Each
//! operation starts with a call that answers with the first request, or with
//! the result where nothing is to be asked. The caller performs the request
//! and hands the reply to the operation's `_next` function, until that gives
//! the result.

use vstd::prelude::*;
use vstd::arithmetic::power2::is_pow2;
use crate::memory::{
    Contents, Memory, fresh, has_protection, performed, reserved, traps, written, zeroed,
};
use crate::pages::{
    Geometry, GuardedAlloc, Protection, Request, align_up, checked_align, guard_bytes, inner_bytes,
    is_power_of_two, lemma_align_up, lemma_frame, lemma_frame_monotone,
    lemma_multiple_of_multiple, outer_bytes,
};

verus! {

/// Size and alignment of a block of memory.
#[derive(Clone, Copy, Debug, PartialEq, Eq, Structural)]
pub struct Layout {
    size: usize,
    align: usize,
}

impl Layout {
    /// The alignment is a power of two and the size is at most `isize::MAX`.
    /// This holds of every layout.
    #[verifier::type_invariant]
    pub closed spec fn wf(self) -> bool {
        is_pow2(self.align as int) && self.size <= isize::MAX
    }

    /// The size in bytes.
    pub closed spec fn bytes(self) -> usize {
        self.size
    }

    /// The alignment in bytes.
    pub closed spec fn alignment(self) -> usize {
        self.align
    }

    /// The layout of `size` bytes aligned to `align`, where `align` is a
    /// power of two and `size` is at most `isize::MAX`.
    pub fn from_size_align(size: usize, align: usize) -> (layout: Option<Layout>)
        ensures
            layout is Some <==> is_pow2(align as int) && size <= isize::MAX,
            layout matches Some(l) ==> l.wf() && l.bytes() == size && l.alignment() == align,
    {
        if is_power_of_two(align) && size <= isize::MAX as usize {
            Some(Layout { size, align })
        } else {
            None
        }
    }

    /// The size in bytes.
    pub fn size(&self) -> (size: usize)
        ensures
            size == self.bytes(),
            self.wf(),
    {
        proof {
            use_type_invariant(self);
        }
        self.size
    }

    /// The alignment in bytes.
    pub fn align(&self) -> (align: usize)
        ensures
            align == self.alignment(),
            self.wf(),
    {
        proof {
            use_type_invariant(self);
        }
        self.align
    }
}

/// Why the allocator did not do what it was asked.
#[derive(Clone, Copy, Debug, PartialEq, Eq, Structural)]
pub enum AllocError {
    /// The alignment is as large as the allocation granularity or larger.
    /// The caller gets an allocation error.
    Unsupported,
    /// The operating system did not reserve the memory or did not make it
    /// accessible. The caller gets an allocation error.
    OutOfMemory,
    /// The operating system refused a request that leaves sensitive pages in
    /// an unknown state. The program cannot go on.
    Fatal,
}

/// A block that the allocator hands out: `size` usable bytes at `base`.
#[derive(Clone, Copy, Debug, PartialEq, Eq, Structural)]
pub struct Block {
    pub base: usize,
    pub size: usize,
}

/// What the operating system answered to a request.
#[derive(Clone, Copy, Debug, PartialEq, Eq, Structural)]
pub enum Reply {
    /// The reservation was made, at this address.
    Mapped(usize),
    /// The request was performed.
    Done,
    /// The request failed.
    Failed,
}

/// How an operation goes on.
#[derive(Debug)]
pub enum Next<S, T> {
    /// The caller performs the request and hands the reply, with the state,
    /// to the operation's `_next` function.
    Ask(Request, S),
    /// The operation has ended with this result.
    Done(T),
}

/// Where an allocation stands.
#[derive(Clone, Copy, Debug, PartialEq, Eq, Structural)]
pub enum Allocate {
    /// The frame of `outer` bytes is being reserved.
    Reserving { outer: usize },
    /// The interior is being pinned.
    Locking { addr: usize, outer: usize },
    /// The interior is being made accessible.
    Protecting { addr: usize, outer: usize },
    /// The frame is being released, because its interior could not be made
    /// accessible.
    Releasing,
}

/// Where a deallocation stands.
#[derive(Clone, Copy, Debug, PartialEq, Eq, Structural)]
pub enum Deallocate {
    /// The block is being made accessible.
    Protecting { base: usize, size: usize },
    /// The block is being wiped.
    Zeroing { base: usize, size: usize },
    /// The frame is being released.
    Releasing,
}

/// Where a shrink stands.
#[derive(Clone, Copy, Debug, PartialEq, Eq, Structural)]
pub enum Shrink {
    /// What is cut off, with the old trailing guard band, is being made
    /// accessible.
    Protecting { base: usize, kept: usize, cut: usize },
    /// What is cut off, with the old trailing guard band, is being wiped.
    Zeroing { base: usize, kept: usize, cut: usize },
    /// The new trailing guard band is losing all access.
    Guarding { base: usize, kept: usize, cut: usize },
    /// The tail behind the new trailing guard band is being given back.
    Uncommitting { base: usize, kept: usize },
}

/// The sensitive allocator.
#[derive(Clone, Copy, Debug)]
pub struct Sensitive {
    geometry: Geometry,
}

/// The number of guard pages on each side of a sensitive allocation.
pub const GUARD_PAGES: usize = 1;

impl Sensitive {
    /// The geometry that the allocator measures with.
    pub closed spec fn geometry(self) -> Geometry {
        self.geometry
    }

    /// An allocator for a machine of the given geometry.
    pub fn new(geometry: Geometry) -> (allocator: Self)
        ensures
            allocator.geometry() == geometry,
    {
        Sensitive { geometry }
    }

    /// The size of one guard band in bytes: one page.
    pub fn guard_size(&self) -> (size: usize)
        ensures
            size == guard_bytes(1, self.geometry()),
            size == self.geometry().page(),
            self.geometry().wf(),
    {
        self.geometry.page_size()
    }

    /// The size of the frame for `size` bytes, where it fits the machine word.
    pub fn checked_outer_size(&self, size: usize) -> (outer: Option<usize>)
        ensures
            self.geometry().wf(),
            outer == if outer_bytes(1, size as nat, self.geometry()) <= usize::MAX {
                Some(outer_bytes(1, size as nat, self.geometry()) as usize)
            } else {
                None
            },
    {
        let page = self.geometry.page_size();
        let granule = self.geometry.granularity();
        proof {
            self.geometry.lemma_units();
            lemma_align_up((size + 2 * page) as nat, granule as nat);
        }
        match page.checked_add(page) {
            Some(guards) => match size.checked_add(guards) {
                Some(sum) => checked_align(sum, granule),
                None => None,
            },
            None => None,
        }
    }

    /// The size of the frame for `size` bytes.
    pub fn outer_size(&self, size: usize) -> (outer: usize)
        requires
            outer_bytes(1, size as nat, self.geometry()) <= usize::MAX,
        ensures
            outer == outer_bytes(1, size as nat, self.geometry()),
    {
        self.checked_outer_size(size).unwrap()
    }

    /// The size of the interior of the frame for `size` bytes: what a block
    /// for `size` bytes can hold.
    pub fn inner_size(&self, size: usize) -> (inner: usize)
        requires
            outer_bytes(1, size as nat, self.geometry()) <= usize::MAX,
        ensures
            inner == inner_bytes(1, size as nat, self.geometry()),
    {
        let page = self.geometry.page_size();
        proof {
            self.geometry.lemma_units();
            lemma_frame(1, size as nat, self.geometry);
        }
        self.outer_size(size) - 2 * page
    }
}

impl Sensitive {
    /// Whether `addr` can be the address of a frame of `outer` bytes: it is
    /// not zero, a multiple of the granularity, and the frame ends within the
    /// address space.
    pub open spec fn frame_at(self, addr: usize, outer: usize) -> bool {
        &&& addr > 0
        &&& addr % self.geometry().granule() == 0
        &&& addr + outer <= usize::MAX
    }

    /// How `allocate` starts for `layout`.
    pub open spec fn allocate_start(self, layout: Layout) -> Next<
        Allocate,
        Result<Block, AllocError>,
    > {
        let outer = outer_bytes(1, layout.bytes() as nat, self.geometry());
        if layout.alignment() >= self.geometry().granule() {
            Next::Done(Err(AllocError::Unsupported))
        } else if outer > usize::MAX {
            Next::Done(Err(AllocError::OutOfMemory))
        } else {
            Next::Ask(
                Request::Reserve { size: outer as usize, prot: Protection::NoAccess },
                Allocate::Reserving { outer: outer as usize },
            )
        }
    }

    /// How `allocate` goes on from `state` after `reply`.
    pub open spec fn allocate_step(self, state: Allocate, reply: Reply) -> Next<
        Allocate,
        Result<Block, AllocError>,
    > {
        let guard = self.geometry().page();
        match state {
            Allocate::Reserving { outer } => match reply {
                Reply::Mapped(addr) => if self.frame_at(addr, outer) && outer >= 2 * guard {
                    if outer - 2 * guard > 0 {
                        Next::Ask(
                            Request::Lock {
                                base: (addr + guard) as usize,
                                size: (outer - 2 * guard) as usize,
                            },
                            Allocate::Locking { addr, outer },
                        )
                    } else {
                        Next::Done(Ok(Block { base: (addr + guard) as usize, size: 0 }))
                    }
                } else {
                    Next::Done(Err(AllocError::OutOfMemory))
                },
                _ => Next::Done(Err(AllocError::OutOfMemory)),
            },
            Allocate::Locking { addr, outer } => Next::Ask(
                Request::Protect {
                    base: (addr + guard) as usize,
                    size: (outer - 2 * guard) as usize,
                    prot: Protection::ReadWrite,
                },
                Allocate::Protecting { addr, outer },
            ),
            Allocate::Protecting { addr, outer } => match reply {
                Reply::Done => Next::Done(
                    Ok(
                        Block {
                            base: (addr + guard) as usize,
                            size: (outer - 2 * guard) as usize,
                        },
                    ),
                ),
                _ => Next::Ask(Request::Release { base: addr, size: outer }, Allocate::Releasing),
            },
            Allocate::Releasing => Next::Done(Err(AllocError::OutOfMemory)),
        }
    }

    /// Whether `state` is one that `allocate` can be in.
    pub open spec fn allocate_state(self, state: Allocate) -> bool {
        let guard = self.geometry().page();
        match state {
            Allocate::Reserving { outer } => true,
            Allocate::Locking { addr, outer } => self.frame_at(addr, outer) && outer > 2 * guard,
            Allocate::Protecting { addr, outer } => self.frame_at(addr, outer) && outer > 2
                * guard,
            Allocate::Releasing => true,
        }
    }

    /// Starts the allocation of a block for `layout`. An alignment as large
    /// as the granularity is refused. Else the frame is reserved without
    /// access, its interior pinned as far as the operating system allows, and
    /// made accessible for reading and writing; where that fails, the frame is
    /// released and the allocation fails. The block is the interior.
    pub fn allocate(&self, layout: Layout) -> (next: Next<Allocate, Result<Block, AllocError>>)
        ensures
            next == self.allocate_start(layout),
            next matches Next::Ask(_, state) ==> self.allocate_state(state),
    {
        if layout.align() >= self.geometry.granularity() {
            return Next::Done(Err(AllocError::Unsupported));
        }
        match self.checked_outer_size(layout.size()) {
            Some(outer) => Next::Ask(
                Request::Reserve { size: outer, prot: Protection::NoAccess },
                Allocate::Reserving { outer },
            ),
            None => Next::Done(Err(AllocError::OutOfMemory)),
        }
    }

    /// Starts the allocation of a zeroed block for `layout`: the same as
    /// `allocate`, since fresh pages hold zeros.
    pub fn allocate_zeroed(&self, layout: Layout) -> (next: Next<
        Allocate,
        Result<Block, AllocError>,
    >)
        ensures
            next == self.allocate_start(layout),
            next matches Next::Ask(_, state) ==> self.allocate_state(state),
    {
        self.allocate(layout)
    }

    /// Goes on with an allocation that is in `state`, after the reply to its
    /// last request.
    pub fn allocate_next(&self, state: Allocate, reply: Reply) -> (next: Next<
        Allocate,
        Result<Block, AllocError>,
    >)
        requires
            self.allocate_state(state),
        ensures
            next == self.allocate_step(state, reply),
            next matches Next::Ask(_, state) ==> self.allocate_state(state),
    {
        let guard = self.guard_size();
        let granule = self.geometry.granularity();
        proof {
            self.geometry.lemma_units();
        }
        match state {
            Allocate::Reserving { outer } => match reply {
                Reply::Mapped(addr) => {
                    if addr > 0 && addr % granule == 0 && addr <= usize::MAX - outer && guard
                        <= outer / 2 {
                        let inner = outer - 2 * guard;
                        if inner > 0 {
                            Next::Ask(
                                Request::Lock { base: addr + guard, size: inner },
                                Allocate::Locking { addr, outer },
                            )
                        } else {
                            Next::Done(Ok(Block { base: addr + guard, size: 0 }))
                        }
                    } else {
                        Next::Done(Err(AllocError::OutOfMemory))
                    }
                },
                _ => Next::Done(Err(AllocError::OutOfMemory)),
            },
            Allocate::Locking { addr, outer } => Next::Ask(
                Request::Protect {
                    base: addr + guard,
                    size: outer - 2 * guard,
                    prot: Protection::ReadWrite,
                },
                Allocate::Protecting { addr, outer },
            ),
            Allocate::Protecting { addr, outer } => match reply {
                Reply::Done => Next::Done(
                    Ok(Block { base: addr + guard, size: outer - 2 * guard }),
                ),
                _ => Next::Ask(Request::Release { base: addr, size: outer }, Allocate::Releasing),
            },
            Allocate::Releasing => Next::Done(Err(AllocError::OutOfMemory)),
        }
    }
}

impl Sensitive {
    /// Whether a block at `base` can be one that `allocate` gave for `size`
    /// bytes: its frame starts at a multiple of the granularity above address
    /// zero and ends within the address space.
    pub open spec fn allocated(self, base: usize, size: usize) -> bool {
        &&& self.geometry().wf()
        &&& base > self.geometry().page()
        &&& (base - self.geometry().page()) % (self.geometry().granule() as int) == 0
        &&& base - self.geometry().page() + outer_bytes(1, size as nat, self.geometry())
            <= usize::MAX
    }

    /// Whether a block at `base` can be one that `allocate` gave for `size`
    /// bytes.
    pub fn owns(&self, base: usize, size: usize) -> (yes: bool)
        ensures
            yes == self.allocated(base, size),
    {
        let page = self.geometry.page_size();
        let granule = self.geometry.granularity();
        proof {
            self.geometry.lemma_units();
        }
        if base <= page {
            return false;
        }
        let addr = base - page;
        match self.checked_outer_size(size) {
            Some(outer) => addr % granule == 0 && outer <= usize::MAX - addr,
            None => false,
        }
    }

    /// How `deallocate` starts for the block at `base` with `layout`.
    pub open spec fn deallocate_start(self, base: usize, layout: Layout) -> Next<
        Deallocate,
        Result<(), AllocError>,
    > {
        if layout.bytes() > 0 {
            Next::Ask(
                Request::Protect {
                    base,
                    size: align_up(layout.bytes() as nat, self.geometry().page() as nat) as usize,
                    prot: Protection::ReadWrite,
                },
                Deallocate::Protecting { base, size: layout.bytes() },
            )
        } else {
            Next::Ask(self.release_of(base, layout.bytes()), Deallocate::Releasing)
        }
    }

    /// The request that releases the frame of the block at `base` that was
    /// made for `size` bytes.
    pub open spec fn release_of(self, base: usize, size: usize) -> Request {
        Request::Release {
            base: (base - self.geometry().page()) as usize,
            size: outer_bytes(1, size as nat, self.geometry()) as usize,
        }
    }

    /// How `deallocate` goes on from `state` after `reply`.
    pub open spec fn deallocate_step(self, state: Deallocate, reply: Reply) -> Next<
        Deallocate,
        Result<(), AllocError>,
    > {
        match state {
            Deallocate::Protecting { base, size } => match reply {
                Reply::Done => Next::Ask(
                    Request::Zero { base, size },
                    Deallocate::Zeroing { base, size },
                ),
                _ => Next::Done(Err(AllocError::Fatal)),
            },
            Deallocate::Zeroing { base, size } => Next::Ask(
                self.release_of(base, size),
                Deallocate::Releasing,
            ),
            Deallocate::Releasing => match reply {
                Reply::Done => Next::Done(Ok(())),
                _ => Next::Done(Err(AllocError::Fatal)),
            },
        }
    }

    /// Whether `state` is one that `deallocate` can be in.
    pub open spec fn deallocate_state(self, state: Deallocate) -> bool {
        match state {
            Deallocate::Protecting { base, size } => self.allocated(base, size),
            Deallocate::Zeroing { base, size } => self.allocated(base, size),
            Deallocate::Releasing => true,
        }
    }

    /// Starts the deallocation of the block at `base` that `allocate` gave
    /// for `layout`, or `shrink` left with `layout`. A block that is not empty
    /// is made accessible and wiped. Then the frame is released.
    pub fn deallocate(&self, base: usize, layout: Layout) -> (next: Next<
        Deallocate,
        Result<(), AllocError>,
    >)
        requires
            self.allocated(base, layout.bytes()),
        ensures
            next == self.deallocate_start(base, layout),
            next matches Next::Ask(_, state) ==> self.deallocate_state(state),
    {
        let size = layout.size();
        if size > 0 {
            proof {
                self.lemma_block(base, size);
            }
            let page = self.geometry.page_size();
            Next::Ask(
                Request::Protect {
                    base,
                    size: checked_align(size, page).unwrap(),
                    prot: Protection::ReadWrite,
                },
                Deallocate::Protecting { base, size },
            )
        } else {
            Next::Ask(self.release(base, size), Deallocate::Releasing)
        }
    }

    /// Goes on with a deallocation that is in `state`, after the reply to its
    /// last request.
    pub fn deallocate_next(&self, state: Deallocate, reply: Reply) -> (next: Next<
        Deallocate,
        Result<(), AllocError>,
    >)
        requires
            self.deallocate_state(state),
        ensures
            next == self.deallocate_step(state, reply),
            next matches Next::Ask(_, state) ==> self.deallocate_state(state),
    {
        match state {
            Deallocate::Protecting { base, size } => match reply {
                Reply::Done => Next::Ask(
                    Request::Zero { base, size },
                    Deallocate::Zeroing { base, size },
                ),
                _ => Next::Done(Err(AllocError::Fatal)),
            },
            Deallocate::Zeroing { base, size } => Next::Ask(
                self.release(base, size),
                Deallocate::Releasing,
            ),
            Deallocate::Releasing => match reply {
                Reply::Done => Next::Done(Ok(())),
                _ => Next::Done(Err(AllocError::Fatal)),
            },
        }
    }

    /// The request that releases the frame of the block at `base` that was
    /// made for `size` bytes.
    fn release(&self, base: usize, size: usize) -> (request: Request)
        requires
            self.allocated(base, size),
        ensures
            request == self.release_of(base, size),
    {
        let page = self.geometry.page_size();
        Request::Release { base: base - page, size: self.outer_size(size) }
    }

    /// What a block for `size` bytes at `base` measures: its interior is a
    /// whole number of pages that holds `size` bytes rounded up to pages, and
    /// lies, with the guard band behind it, within the address space.
    pub proof fn lemma_block(self, base: usize, size: usize)
        requires
            self.allocated(base, size),
        ensures
            self.geometry().page() >= 4096,
            outer_bytes(1, size as nat, self.geometry()) <= usize::MAX,
            guard_bytes(1, self.geometry()) == self.geometry().page(),
            outer_bytes(1, size as nat, self.geometry()) == inner_bytes(
                1,
                size as nat,
                self.geometry(),
            ) + 2 * self.geometry().page(),
            inner_bytes(1, size as nat, self.geometry()) % (self.geometry().page() as nat) == 0,
            size <= align_up(size as nat, self.geometry().page() as nat) <= inner_bytes(
                1,
                size as nat,
                self.geometry(),
            ),
            base + inner_bytes(1, size as nat, self.geometry()) + self.geometry().page()
                <= usize::MAX,
            base % self.geometry().page() == 0,
            GuardedAlloc::<1>::valid_parts(base, size, self.geometry()),
    {
        let geometry = self.geometry();
        geometry.lemma_units();
        lemma_frame(1, size as nat, geometry);
        lemma_align_up(size as nat, geometry.page() as nat);
        crate::pages::lemma_align_up_least(
            size as nat,
            geometry.page() as nat,
            inner_bytes(1, size as nat, geometry),
        );
        lemma_multiple_of_multiple(
            (base - geometry.page()) as nat,
            geometry.page() as nat,
            geometry.granule() as nat,
        );
        vstd::arithmetic::div_mod::lemma_mod_adds(
            (base - geometry.page()) as int,
            geometry.page() as int,
            geometry.page() as int,
        );
    }
}

impl Sensitive {
    /// How `shrink` starts for the block at `base`, from `old` to `new`.
    pub open spec fn shrink_start(self, base: usize, old: Layout, new: Layout) -> Next<
        Shrink,
        Result<Block, AllocError>,
    > {
        let kept = inner_bytes(1, new.bytes() as nat, self.geometry());
        let was = inner_bytes(1, old.bytes() as nat, self.geometry());
        if new.alignment() >= self.geometry().granule() {
            Next::Done(Err(AllocError::Unsupported))
        } else if kept < was {
            Next::Ask(
                Request::Protect {
                    base: (base + kept) as usize,
                    size: (was - kept + self.geometry().page()) as usize,
                    prot: Protection::ReadWrite,
                },
                Shrink::Protecting { base, kept: kept as usize, cut: (was - kept) as usize },
            )
        } else {
            Next::Done(Ok(Block { base, size: kept as usize }))
        }
    }

    /// How `shrink` goes on from `state` after `reply`.
    pub open spec fn shrink_step(self, state: Shrink, reply: Reply) -> Next<
        Shrink,
        Result<Block, AllocError>,
    > {
        let guard = self.geometry().page();
        match state {
            Shrink::Protecting { base, kept, cut } => match reply {
                Reply::Done => Next::Ask(
                    Request::Zero { base: (base + kept) as usize, size: (cut + guard) as usize },
                    Shrink::Zeroing { base, kept, cut },
                ),
                _ => Next::Done(Err(AllocError::Fatal)),
            },
            Shrink::Zeroing { base, kept, cut } => Next::Ask(
                Request::Protect {
                    base: (base + kept) as usize,
                    size: guard,
                    prot: Protection::NoAccess,
                },
                Shrink::Guarding { base, kept, cut },
            ),
            Shrink::Guarding { base, kept, cut } => match reply {
                Reply::Done => Next::Ask(
                    Request::Uncommit { base: (base + kept + guard) as usize, size: cut },
                    Shrink::Uncommitting { base, kept },
                ),
                _ => Next::Done(Err(AllocError::Fatal)),
            },
            Shrink::Uncommitting { base, kept } => match reply {
                Reply::Done => Next::Done(Ok(Block { base, size: kept })),
                _ => Next::Done(Err(AllocError::Fatal)),
            },
        }
    }

    /// Whether `state` is one that `shrink` can be in.
    pub open spec fn shrink_state(self, state: Shrink) -> bool {
        let guard = self.geometry().page();
        match state {
            Shrink::Protecting { base, kept, cut } => base + kept + cut + guard <= usize::MAX,
            Shrink::Zeroing { base, kept, cut } => base + kept + cut + guard <= usize::MAX,
            Shrink::Guarding { base, kept, cut } => base + kept + cut + guard <= usize::MAX,
            Shrink::Uncommitting { base, kept } => true,
        }
    }

    /// Starts the shrinking of the block at `base` from `old` to `new`, in
    /// place. An alignment as large as the granularity is refused. Where the
    /// interior of the frame for `new` is smaller, the pages that are cut
    /// off are made accessible and wiped together with the old trailing guard
    /// band, the first of them become the new trailing guard band, and the
    /// tail behind is given back. The block that comes out starts at `base`
    /// and measures the interior of the frame for `new`.
    pub fn shrink(&self, base: usize, old: Layout, new: Layout) -> (next: Next<
        Shrink,
        Result<Block, AllocError>,
    >)
        requires
            self.allocated(base, old.bytes()),
            new.bytes() < old.bytes(),
        ensures
            next == self.shrink_start(base, old, new),
            next matches Next::Ask(_, state) ==> self.shrink_state(state),
    {
        if new.align() >= self.geometry.granularity() {
            return Next::Done(Err(AllocError::Unsupported));
        }
        proof {
            self.lemma_block(base, old.bytes());
            lemma_frame_monotone(1, new.bytes() as nat, old.bytes() as nat, self.geometry);
            lemma_frame(1, new.bytes() as nat, self.geometry);
        }
        let guard = self.guard_size();
        let kept = self.inner_size(new.size());
        let was = self.inner_size(old.size());
        if kept < was {
            let cut = was - kept;
            Next::Ask(
                Request::Protect {
                    base: base + kept,
                    size: cut + guard,
                    prot: Protection::ReadWrite,
                },
                Shrink::Protecting { base, kept, cut },
            )
        } else {
            Next::Done(Ok(Block { base, size: kept }))
        }
    }

    /// Goes on with a shrink that is in `state`, after the reply to its last
    /// request.
    pub fn shrink_next(&self, state: Shrink, reply: Reply) -> (next: Next<
        Shrink,
        Result<Block, AllocError>,
    >)
        requires
            self.shrink_state(state),
        ensures
            next == self.shrink_step(state, reply),
            next matches Next::Ask(_, state) ==> self.shrink_state(state),
    {
        let guard = self.guard_size();
        match state {
            Shrink::Protecting { base, kept, cut } => match reply {
                Reply::Done => Next::Ask(
                    Request::Zero { base: base + kept, size: cut + guard },
                    Shrink::Zeroing { base, kept, cut },
                ),
                _ => Next::Done(Err(AllocError::Fatal)),
            },
            Shrink::Zeroing { base, kept, cut } => Next::Ask(
                Request::Protect { base: base + kept, size: guard, prot: Protection::NoAccess },
                Shrink::Guarding { base, kept, cut },
            ),
            Shrink::Guarding { base, kept, cut } => match reply {
                Reply::Done => Next::Ask(
                    Request::Uncommit { base: base + kept + guard, size: cut },
                    Shrink::Uncommitting { base, kept },
                ),
                _ => Next::Done(Err(AllocError::Fatal)),
            },
            Shrink::Uncommitting { base, kept } => match reply {
                Reply::Done => Next::Done(Ok(Block { base, size: kept })),
                _ => Next::Done(Err(AllocError::Fatal)),
            },
        }
    }
}

impl Sensitive {
    /// What a successful allocation leaves. Where the reservation of
    /// `allocate` is answered with the frame at `addr` and the interior is
    /// then made accessible, the block is the interior of that frame, it can
    /// be read and written, every byte of it is zero, it holds at least what
    /// `layout` asks for, and every address of the page before it and of the
    /// page behind it faults.
    pub proof fn lemma_allocate_guards(
        self,
        layout: Layout,
        addr: usize,
        pinned: Reply,
        memory: Memory,
        contents: Contents,
    )
        requires
            self.geometry().wf(),
            layout.alignment() < self.geometry().granule(),
            outer_bytes(1, layout.bytes() as nat, self.geometry()) <= usize::MAX,
            inner_bytes(1, layout.bytes() as nat, self.geometry()) > 0,
            self.frame_at(addr, outer_bytes(1, layout.bytes() as nat, self.geometry()) as usize),
        ensures
            ({
                let page = self.geometry().page();
                let outer = outer_bytes(1, layout.bytes() as nat, self.geometry()) as usize;
                let inner = inner_bytes(1, layout.bytes() as nat, self.geometry()) as usize;
                let block = Block { base: (addr + page) as usize, size: inner };
                let reserve = Request::Reserve { size: outer, prot: Protection::NoAccess };
                let lock = Request::Lock { base: block.base, size: inner };
                let protect = Request::Protect {
                    base: block.base,
                    size: inner,
                    prot: Protection::ReadWrite,
                };
                let after = performed(
                    performed(reserved(memory, addr as int, outer as nat, Protection::NoAccess), lock),
                    protect,
                );
                &&& self.allocate_start(layout) == Next::<
                    Allocate,
                    Result<Block, AllocError>,
                >::Ask(reserve, Allocate::Reserving { outer })
                &&& self.allocate_step(Allocate::Reserving { outer }, Reply::Mapped(addr))
                    == Next::<Allocate, Result<Block, AllocError>>::Ask(
                    lock,
                    Allocate::Locking { addr, outer },
                )
                &&& self.allocate_step(Allocate::Locking { addr, outer }, pinned) == Next::<
                    Allocate,
                    Result<Block, AllocError>,
                >::Ask(protect, Allocate::Protecting { addr, outer })
                &&& self.allocate_step(Allocate::Protecting { addr, outer }, Reply::Done)
                    == Next::<Allocate, Result<Block, AllocError>>::Done(Ok(block))
                &&& block.size >= layout.bytes()
                &&& block.base % page == 0
                &&& self.allocated(block.base, layout.bytes())
                &&& forall|a: int|
                    block.base <= a < block.base + block.size ==> has_protection(
                        after,
                        a,
                        Protection::ReadWrite,
                    )
                &&& zeroed(
                    written(written(fresh(contents, addr as int, outer as nat), lock), protect),
                    block.base as int,
                    block.size as nat,
                )
                &&& forall|a: int| block.base - page <= a < block.base ==> traps(after, a)
                &&& forall|a: int|
                    block.base + block.size <= a < block.base + block.size + page ==> traps(
                        after,
                        a,
                    )
            }),
    {
        let geometry = self.geometry();
        geometry.lemma_units();
        lemma_frame(1, layout.bytes() as nat, geometry);
        lemma_multiple_of_multiple(addr as nat, geometry.page() as nat, geometry.granule() as nat);
        vstd::arithmetic::div_mod::lemma_mod_adds(
            addr as int,
            geometry.page() as int,
            geometry.page() as int,
        );
    }

    /// An allocation whose interior cannot be made accessible gives its
    /// frame back and fails; so does one whose reservation fails.
    pub proof fn lemma_allocate_failure(self, addr: usize, outer: usize, reply: Reply, last: Reply)
        requires
            reply != Reply::Done,
        ensures
            self.allocate_step(Allocate::Protecting { addr, outer }, reply) == Next::<
                Allocate,
                Result<Block, AllocError>,
            >::Ask(Request::Release { base: addr, size: outer }, Allocate::Releasing),
            self.allocate_step(Allocate::Releasing, last) == Next::<
                Allocate,
                Result<Block, AllocError>,
            >::Done(Err(AllocError::OutOfMemory)),
            self.allocate_step(Allocate::Reserving { outer }, Reply::Failed) == Next::<
                Allocate,
                Result<Block, AllocError>,
            >::Done(Err(AllocError::OutOfMemory)),
    {
    }

    /// No release without a wipe. The deallocation of a block that is not
    /// empty asks for access to it, then for its wiping, and only then for
    /// the release of its frame; it ends well exactly where access and release
    /// are granted. When the release is asked for, every byte of the block is
    /// zero. Once the frame is released, every address of it faults.
    pub proof fn lemma_deallocate_wipes(
        self,
        base: usize,
        layout: Layout,
        granted: Reply,
        wiped: Reply,
        released: Reply,
        memory: Memory,
        contents: Contents,
    )
        requires
            self.allocated(base, layout.bytes()),
            layout.bytes() > 0,
        ensures
            ({
                let size = layout.bytes();
                let protect = Request::Protect {
                    base,
                    size: align_up(size as nat, self.geometry().page() as nat) as usize,
                    prot: Protection::ReadWrite,
                };
                let zero = Request::Zero { base, size };
                let release = self.release_of(base, size);
                &&& self.deallocate_start(base, layout) == Next::<
                    Deallocate,
                    Result<(), AllocError>,
                >::Ask(protect, Deallocate::Protecting { base, size })
                &&& self.deallocate_step(Deallocate::Protecting { base, size }, granted) == if granted
                    == Reply::Done {
                    Next::<Deallocate, Result<(), AllocError>>::Ask(
                        zero,
                        Deallocate::Zeroing { base, size },
                    )
                } else {
                    Next::<Deallocate, Result<(), AllocError>>::Done(Err(AllocError::Fatal))
                }
                &&& self.deallocate_step(Deallocate::Zeroing { base, size }, wiped) == Next::<
                    Deallocate,
                    Result<(), AllocError>,
                >::Ask(release, Deallocate::Releasing)
                &&& self.deallocate_step(Deallocate::Releasing, released) == if released
                    == Reply::Done {
                    Next::<Deallocate, Result<(), AllocError>>::Done(Ok(()))
                } else {
                    Next::<Deallocate, Result<(), AllocError>>::Done(Err(AllocError::Fatal))
                }
                &&& zeroed(written(written(contents, protect), zero), base as int, size as nat)
                &&& forall|a: int|
                    base - self.geometry().page() <= a < base - self.geometry().page()
                        + outer_bytes(1, size as nat, self.geometry()) ==> traps(
                        performed(performed(performed(memory, protect), zero), release),
                        a,
                    )
            }),
    {
        self.lemma_block(base, layout.bytes());
    }

    /// Shrinking leaves the block where it is. Where the interior of the
    /// frame for `new` is smaller, a shrink that is granted all it asks for
    /// gives a block at the same address. It asks for access to what is cut off and to the old trailing
    /// guard band, for their wiping, for no access to the first page behind
    /// what is kept, and for the return of the tail behind that page: the two
    /// requests of `GuardedAlloc::shrink`. What is cut off is zero before it
    /// is given back. After the requests every address behind what is kept
    /// faults, up to the end of the old frame, and what is kept has the
    /// protection and the bytes that it had.
    pub proof fn lemma_shrink_in_place(
        self,
        base: usize,
        old: Layout,
        new: Layout,
        wiped: Reply,
        memory: Memory,
        contents: Contents,
    )
        requires
            self.allocated(base, old.bytes()),
            new.bytes() < old.bytes(),
            new.alignment() < self.geometry().granule(),
            inner_bytes(1, new.bytes() as nat, self.geometry()) < inner_bytes(
                1,
                old.bytes() as nat,
                self.geometry(),
            ),
        ensures
            ({
                let page = self.geometry().page();
                let kept = inner_bytes(1, new.bytes() as nat, self.geometry()) as usize;
                let was = inner_bytes(1, old.bytes() as nat, self.geometry()) as usize;
                let cut = (was - kept) as usize;
                let tail = (base + kept) as usize;
                let access = Request::Protect {
                    base: tail,
                    size: (cut + page) as usize,
                    prot: Protection::ReadWrite,
                };
                let zero = Request::Zero { base: tail, size: (cut + page) as usize };
                let guard = Request::Protect { base: tail, size: page, prot: Protection::NoAccess };
                let uncommit = Request::Uncommit { base: (tail + page) as usize, size: cut };
                let after = performed(
                    performed(performed(performed(memory, access), zero), guard),
                    uncommit,
                );
                &&& self.shrink_start(base, old, new) == Next::<
                    Shrink,
                    Result<Block, AllocError>,
                >::Ask(access, Shrink::Protecting { base, kept, cut })
                &&& self.shrink_step(Shrink::Protecting { base, kept, cut }, Reply::Done)
                    == Next::<Shrink, Result<Block, AllocError>>::Ask(
                    zero,
                    Shrink::Zeroing { base, kept, cut },
                )
                &&& self.shrink_step(Shrink::Zeroing { base, kept, cut }, wiped) == Next::<
                    Shrink,
                    Result<Block, AllocError>,
                >::Ask(guard, Shrink::Guarding { base, kept, cut })
                &&& self.shrink_step(Shrink::Guarding { base, kept, cut }, Reply::Done) == Next::<
                    Shrink,
                    Result<Block, AllocError>,
                >::Ask(uncommit, Shrink::Uncommitting { base, kept })
                &&& self.shrink_step(Shrink::Uncommitting { base, kept }, Reply::Done) == Next::<
                    Shrink,
                    Result<Block, AllocError>,
                >::Done(Ok(Block { base, size: kept }))
                &&& kept >= new.bytes()
                &&& self.allocated(base, new.bytes())
                &&& seq![guard, uncommit] == GuardedAlloc::<1>::from_parts(
                    base,
                    old.bytes(),
                    self.geometry(),
                ).shrink_requests(new.bytes() as nat)
                &&& forall|a: int| base + kept <= a < base + was + page ==> traps(after, a)
                &&& zeroed(
                    written(written(contents, access), zero),
                    tail as int,
                    (cut + page) as nat,
                )
                &&& forall|a: int|
                    base <= a < base + kept && contents.dom().contains(a) ==> written(
                        written(written(written(contents, access), zero), guard),
                        uncommit,
                    )[a] == contents[a]
                &&& forall|a: int|
                    base - page <= a < base + kept && memory.dom().contains(a) ==> has_protection(
                        after,
                        a,
                        memory[a],
                    )
            }),
    {
        let geometry = self.geometry();
        self.lemma_block(base, old.bytes());
        lemma_frame(1, new.bytes() as nat, geometry);
        lemma_frame_monotone(1, new.bytes() as nat, old.bytes() as nat, geometry);
        GuardedAlloc::<1>::lemma_from_parts(base, old.bytes(), geometry);
        let alloc = GuardedAlloc::<1>::from_parts(base, old.bytes(), geometry);
        alloc.lemma_layout();
        let page = geometry.page();
        let kept = inner_bytes(1, new.bytes() as nat, geometry) as usize;
        let was = inner_bytes(1, old.bytes() as nat, geometry) as usize;
        let guard = Request::Protect {
            base: (base + kept) as usize,
            size: page,
            prot: Protection::NoAccess,
        };
        let uncommit = Request::Uncommit {
            base: (base + kept + page) as usize,
            size: (was - kept) as usize,
        };
        assert(alloc.shrink_requests(new.bytes() as nat) =~= seq![guard, uncommit]);
    }
}

} // verus!
