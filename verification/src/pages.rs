//! Page ranges, allocations and guarded allocations.
//!
//! Addresses are numbers here. A function that needs the operating system
//! gives the request to send as a value, and takes what the operating system
//! answered as an argument. Requests are to be performed in the order in which
//! they are given; one that fails ends what it belongs to, except for the pin
//! and its undoing, which may fail harmlessly. A release that fails leaves
//! inaccessible pages behind while pointers to them live: the caller cannot go
//! on.

use vstd::prelude::*;
use vstd::arithmetic::power2::is_pow2;

verus! {

/// Page access protection.
#[derive(Clone, Copy, Debug, PartialEq, Eq, Structural)]
pub enum Protection {
    /// Pages may not be accessed.
    NoAccess,
    /// Pages may be read.
    ReadOnly,
    /// Pages may be read and written.
    ReadWrite,
}

/// The smallest page size that is accepted.
pub const MIN_PAGE_SIZE: usize = 4096;

/// The smallest multiple of `unit` that is not below `offset`.
pub open spec fn align_up(offset: nat, unit: nat) -> nat
    recommends
        unit > 0,
{
    if offset % unit == 0 {
        offset
    } else {
        (offset + (unit - offset % unit)) as nat
    }
}

/// `align_up` gives a multiple of the unit, reached in less than one unit.
pub proof fn lemma_align_up(offset: nat, unit: nat)
    requires
        unit > 0,
    ensures
        align_up(offset, unit) % unit == 0,
        offset <= align_up(offset, unit) < offset + unit,
        offset % unit == 0 ==> align_up(offset, unit) == offset,
{
    if offset % unit != 0 {
        let r = offset % unit;
        assert(offset == unit * (offset / unit) + r) by {
            vstd::arithmetic::div_mod::lemma_fundamental_div_mod(offset as int, unit as int);
        }
        assert((offset + (unit - r)) % unit as int == 0) by {
            vstd::arithmetic::div_mod::lemma_mod_multiples_basic((offset / unit) as int + 1, unit as int);
            assert(offset + (unit - r) == ((offset / unit) as int + 1) * unit) by (nonlinear_arith)
                requires
                    offset == unit * (offset / unit) + r,
            ;
        }
    }
}

/// A multiple of the unit that is not below `offset` is not below `align_up` either.
pub proof fn lemma_align_up_least(offset: nat, unit: nat, multiple: nat)
    requires
        unit > 0,
        multiple % unit == 0,
        offset <= multiple,
    ensures
        align_up(offset, unit) <= multiple,
{
    lemma_align_up(offset, unit);
    let a = align_up(offset, unit);
    if a > multiple {
        // two multiples of the unit less than one unit apart are equal
        assert(a - multiple < unit);
        vstd::arithmetic::div_mod::lemma_fundamental_div_mod(a as int, unit as int);
        vstd::arithmetic::div_mod::lemma_fundamental_div_mod(multiple as int, unit as int);
        let qa = a as int / unit as int;
        let qm = multiple as int / unit as int;
        assert(a == unit * qa);
        assert(multiple == unit * qm);
        assert(qa > qm) by (nonlinear_arith)
            requires
                unit * qa > unit * qm,
                unit > 0,
        ;
        assert(unit * qa - unit * qm >= unit) by (nonlinear_arith)
            requires
                qa > qm,
                unit > 0,
        ;
    }
}

/// `align_up` is monotone in the offset.
pub proof fn lemma_align_up_monotone(a: nat, b: nat, unit: nat)
    requires
        unit > 0,
        a <= b,
    ensures
        align_up(a, unit) <= align_up(b, unit),
{
    lemma_align_up(b, unit);
    lemma_align_up_least(a, unit, align_up(b, unit));
}

/// Rounds `offset` up to a multiple of `unit`; `None` where that multiple
/// does not fit the machine word.
pub fn checked_align(offset: usize, unit: usize) -> (aligned: Option<usize>)
    requires
        unit > 0,
    ensures
        aligned == if align_up(offset as nat, unit as nat) <= usize::MAX {
            Some(align_up(offset as nat, unit as nat) as usize)
        } else {
            None
        },
{
    let rest = offset % unit;
    if rest == 0 {
        Some(offset)
    } else {
        offset.checked_add(unit - rest)
    }
}

/// Page size and allocation granularity of the machine.
///
/// Both are powers of two, the page size is at least `MIN_PAGE_SIZE`, and the
/// granularity is at least the page size.
#[derive(Clone, Copy, Debug)]
pub struct Geometry {
    page: usize,
    granule: usize,
}

/// What `Geometry` demands of a page size and a granularity.
pub open spec fn valid_geometry(page: usize, granule: usize) -> bool {
    &&& is_pow2(page as int)
    &&& is_pow2(granule as int)
    &&& page >= MIN_PAGE_SIZE
    &&& granule >= page
}

/// A power of two divides every power of two that is not smaller.
pub proof fn lemma_pow2_divides(small: int, large: int)
    requires
        is_pow2(small),
        is_pow2(large),
        small <= large,
    ensures
        large % small == 0,
    decreases small,
{
    reveal(is_pow2);
    if small == 1 {
        assert(large % 1 == 0);
    } else {
        assert(small % 2 == 0 && is_pow2(small / 2));
        assert(large >= 2);
        assert(large % 2 == 0 && is_pow2(large / 2));
        lemma_pow2_divides(small / 2, large / 2);
        let s = small / 2;
        let l = large / 2;
        assert(small == 2 * s);
        assert(large == 2 * l);
        vstd::arithmetic::div_mod::lemma_fundamental_div_mod(l, s);
        let q = l / s;
        assert(l == s * q);
        assert(large == small * q) by (nonlinear_arith)
            requires
                large == 2 * l,
                small == 2 * s,
                l == s * q,
        ;
        vstd::arithmetic::div_mod::lemma_mod_multiples_basic(q, small);
        assert(large == q * small) by (nonlinear_arith)
            requires
                large == small * q,
        ;
    }
}

/// Whether `n` is a power of two.
pub fn is_power_of_two(n: usize) -> (yes: bool)
    ensures
        yes == is_pow2(n as int),
{
    if n == 0 {
        proof {
            reveal(is_pow2);
        }
        return false;
    }
    let mut rest: usize = n;
    while rest % 2 == 0
        invariant
            rest > 0,
            is_pow2(rest as int) == is_pow2(n as int),
        decreases rest,
    {
        proof {
            reveal(is_pow2);
        }
        rest = rest / 2;
    }
    proof {
        reveal(is_pow2);
    }
    rest == 1
}

impl Geometry {
    /// Page size and granularity are valid. This holds of every geometry.
    #[verifier::type_invariant]
    pub closed spec fn wf(self) -> bool {
        valid_geometry(self.page, self.granule)
    }

    /// The page size, `P`.
    pub closed spec fn page(self) -> usize {
        self.page
    }

    /// The allocation granularity, `G`.
    pub closed spec fn granule(self) -> usize {
        self.granule
    }

    /// A geometry of the given page size and granularity, where they are valid.
    pub fn new(page: usize, granule: usize) -> (geometry: Option<Geometry>)
        ensures
            geometry is Some <==> valid_geometry(page, granule),
            geometry matches Some(g) ==> g.wf() && g.page() == page && g.granule() == granule,
    {
        if page >= MIN_PAGE_SIZE && granule >= page && is_power_of_two(page) && is_power_of_two(
            granule,
        ) {
            Some(Geometry { page, granule })
        } else {
            None
        }
    }

    /// The page size: the unit of protection.
    pub fn page_size(&self) -> (size: usize)
        ensures
            size == self.page(),
            self.wf(),
    {
        proof {
            use_type_invariant(self);
        }
        self.page
    }

    /// The allocation granularity: the unit of reservation.
    pub fn granularity(&self) -> (size: usize)
        ensures
            size == self.granule(),
            self.wf(),
    {
        proof {
            use_type_invariant(self);
        }
        self.granule
    }

    /// The granularity is a multiple of the page size, and neither is zero.
    pub proof fn lemma_units(self)
        requires
            self.wf(),
        ensures
            self.page() >= MIN_PAGE_SIZE,
            self.granule() >= self.page(),
            self.granule() % self.page() == 0,
    {
        lemma_pow2_divides(self.page as int, self.granule as int);
    }
}

/// A range of addresses: `size` bytes from `base` on.
pub struct Span {
    pub base: int,
    pub size: nat,
}

impl Span {
    /// The first address behind the range.
    pub open spec fn end(self) -> int {
        self.base + self.size
    }

    /// Whether `addr` lies in the range.
    pub open spec fn contains(self, addr: int) -> bool {
        self.base <= addr < self.end()
    }

    /// Whether the range starts at a multiple of `unit`, which is not address
    /// zero, measures a multiple of `unit` and ends within the address space.
    pub open spec fn aligned(self, unit: nat) -> bool {
        &&& self.base > 0
        &&& self.base % (unit as int) == 0
        &&& self.size % unit == 0
        &&& self.end() <= usize::MAX
    }
}

/// A request to the operating system. The caller of this library performs it.
#[derive(Clone, Copy, Debug, PartialEq, Eq, Structural)]
pub enum Request {
    /// Reserve and commit `size` bytes anywhere, with protection `prot`.
    Reserve { size: usize, prot: Protection },
    /// Release the whole reservation of `size` bytes at `base`.
    Release { base: usize, size: usize },
    /// Give back the `size` bytes at `base`, the tail of a reservation.
    Uncommit { base: usize, size: usize },
    /// Set the protection of the `size` bytes at `base` to `prot`.
    Protect { base: usize, size: usize, prot: Protection },
    /// Pin the `size` bytes at `base` in physical memory. May fail harmlessly.
    Lock { base: usize, size: usize },
    /// Undo a pin of the `size` bytes at `base`. May fail harmlessly.
    Unlock { base: usize, size: usize },
    /// Overwrite the `size` bytes at `base` with zeros, by writes that the
    /// compiler cannot remove.
    Zero { base: usize, size: usize },
}

/// Memory pages: a range of whole pages.
#[must_use]
#[derive(Debug)]
pub struct Pages {
    base: usize,
    size: usize,
    geometry: Geometry,
}

/// Memory page allocation: a range that was reserved as a whole and is
/// released as a whole. It starts at a multiple of the granularity.
#[must_use]
#[derive(Debug)]
pub struct Allocation {
    base: usize,
    size: usize,
    geometry: Geometry,
}

/// Guarded memory page allocation: an allocation whose first `N` and last `N`
/// pages stay inaccessible.
#[must_use]
#[derive(Debug)]
pub struct GuardedAlloc<const N: usize>(Allocation);

impl View for Pages {
    type V = Span;

    closed spec fn view(&self) -> Span {
        Span { base: self.base as int, size: self.size as nat }
    }
}

impl Pages {
    /// The range starts on a page above address zero, measures a whole number
    /// of pages and ends within the address space. This holds of all pages.
    #[verifier::type_invariant]
    pub closed spec fn wf(self) -> bool {
        &&& self.geometry.wf()
        &&& self@.aligned(self.geometry.page() as nat)
    }

    /// The geometry these pages were measured with.
    pub closed spec fn geometry(self) -> Geometry {
        self.geometry
    }

    /// What holds of all pages: the geometry is valid, and the range starts
    /// on a page above address zero, measures a whole number of pages and ends
    /// within the address space.
    pub proof fn lemma_valid(self)
        requires
            self.wf(),
        ensures
            self.geometry().wf(),
            self@.aligned(self.geometry().page() as nat),
    {
    }

    /// The page size.
    #[must_use]
    pub fn granularity(geometry: &Geometry) -> (size: usize)
        ensures
            size == geometry.page(),
    {
        geometry.page_size()
    }

    /// Rounds `offset` up to a whole number of pages.
    #[must_use]
    pub fn align(geometry: &Geometry, offset: usize) -> (aligned: usize)
        requires
            align_up(offset as nat, geometry.page() as nat) <= usize::MAX,
        ensures
            aligned == align_up(offset as nat, geometry.page() as nat),
    {
        let page = geometry.page_size();
        checked_align(offset, page).unwrap()
    }

    /// The pages that start at `base` and measure `size` bytes.
    pub fn from_raw_parts(base: usize, size: usize, geometry: Geometry) -> (pages: Pages)
        requires
            (Span { base: base as int, size: size as nat }).aligned(geometry.page() as nat),
        ensures
            pages@ == (Span { base: base as int, size: size as nat }),
            pages.geometry() == geometry,
            pages.wf(),
    {
        proof {
            use_type_invariant(geometry);
        }
        Pages { base, size, geometry }
    }

    /// The pages of the slice `(base, size)`.
    pub fn from_slice(slice: (usize, usize), geometry: Geometry) -> (pages: Pages)
        requires
            (Span { base: slice.0 as int, size: slice.1 as nat }).aligned(geometry.page() as nat),
        ensures
            pages@ == (Span { base: slice.0 as int, size: slice.1 as nat }),
            pages.geometry() == geometry,
            pages.wf(),
    {
        Self::from_raw_parts(slice.0, slice.1, geometry)
    }

    /// The pages that start at the address `ptr` and measure `size` bytes.
    pub fn from_ptr(ptr: usize, size: usize, geometry: Geometry) -> (pages: Pages)
        requires
            (Span { base: ptr as int, size: size as nat }).aligned(geometry.page() as nat),
        ensures
            pages@ == (Span { base: ptr as int, size: size as nat }),
            pages.geometry() == geometry,
            pages.wf(),
    {
        Self::from_raw_parts(ptr, size, geometry)
    }

    /// The address of the first page.
    #[must_use]
    pub fn as_ptr(&self) -> (ptr: usize)
        ensures
            ptr == self@.base,
            self.wf(),
            self@.aligned(self.geometry().page() as nat),
    {
        proof {
            use_type_invariant(self);
        }
        self.base
    }

    /// Address and size in bytes.
    #[must_use]
    pub fn into_slice(self) -> (slice: (usize, usize))
        ensures
            slice.0 == self@.base,
            slice.1 == self@.size,
            self.wf(),
            self@.aligned(self.geometry().page() as nat),
    {
        proof {
            use_type_invariant(&self);
        }
        (self.base, self.size)
    }

    /// The size in bytes.
    #[must_use]
    pub fn size(&self) -> (size: usize)
        ensures
            size == self@.size,
            self.wf(),
            self@.aligned(self.geometry().page() as nat),
    {
        proof {
            use_type_invariant(self);
        }
        self.size
    }

    /// The number of pages.
    #[must_use]
    pub fn len(&self) -> (len: usize)
        ensures
            len == self@.size / (self.geometry().page() as nat),
            len * self.geometry().page() == self@.size,
            self.wf(),
    {
        proof {
            use_type_invariant(self);
            use_type_invariant(self.geometry);
            vstd::arithmetic::div_mod::lemma_fundamental_div_mod(
                self.size as int,
                self.geometry.page as int,
            );
            assert((self.size / self.geometry.page) * self.geometry.page == self.geometry.page * (
            self.size / self.geometry.page)) by (nonlinear_arith);
        }
        self.size / self.geometry.page_size()
    }

    /// Whether the range holds no page.
    #[must_use]
    pub fn is_empty(&self) -> (empty: bool)
        ensures
            empty == (self@.size == 0),
    {
        self.size == 0
    }

    /// The request that sets the protection of these pages to `prot`.
    pub fn protect(&self, prot: Protection) -> (request: Request)
        ensures
            request == (Request::Protect {
                base: self@.base as usize,
                size: self@.size as usize,
                prot,
            }),
    {
        Request::Protect { base: self.base, size: self.size, prot }
    }

    /// The request that pins these pages in physical memory.
    pub fn lock(&self) -> (request: Request)
        ensures
            request == (Request::Lock { base: self@.base as usize, size: self@.size as usize }),
    {
        Request::Lock { base: self.base, size: self.size }
    }

    /// The request that undoes a pin of these pages.
    pub fn unlock(&self) -> (request: Request)
        ensures
            request == (Request::Unlock { base: self@.base as usize, size: self@.size as usize }),
    {
        Request::Unlock { base: self.base, size: self.size }
    }

    /// The pages from number `range.start` up to, but without, number
    /// `range.end - 1`; `None` unless `range` lies within these pages.
    #[must_use]
    pub fn pages(&self, range: core::ops::Range<usize>) -> (sub: Option<Pages>)
        requires
            range.start < self@.size / (self.geometry().page() as nat) && range.end <= self@.size
                / (self.geometry().page() as nat) ==> range.start < range.end,
        ensures
            sub is Some <==> range.start < self@.size / (self.geometry().page() as nat)
                && range.end <= self@.size / (self.geometry().page() as nat),
            sub matches Some(p) ==> p.wf() && p.geometry() == self.geometry() && p@ == (Span {
                base: self@.base + range.start * self.geometry().page(),
                size: ((range.end - range.start - 1) * self.geometry().page()) as nat,
            }),
    {
        let len = self.len();
        let page = self.geometry.page_size();
        if range.start < len && range.end <= len {
            let count = range.end - range.start - 1;
            proof {
                lemma_sub_range(
                    self.base as nat,
                    len as nat,
                    page as nat,
                    range.start as nat,
                    count as nat,
                );
            }
            Some(Pages::from_raw_parts(self.base + range.start * page, count * page, self.geometry))
        } else {
            None
        }
    }
}

/// `count` units from unit number `start` on lie within `len` units that start
/// at `base`, and stay aligned.
pub proof fn lemma_sub_range(base: nat, len: nat, unit: nat, start: nat, count: nat)
    requires
        unit > 0,
        base % unit == 0,
        start + count <= len,
    ensures
        start * unit + count * unit <= len * unit,
        (base + start * unit) % unit == 0,
        (count * unit) % unit == 0,
        (start * unit) % unit == 0,
        count * unit <= len * unit,
        start * unit <= len * unit,
{
    assert(start * unit + count * unit == (start + count) * unit) by (nonlinear_arith);
    assert((start + count) * unit <= len * unit) by (nonlinear_arith)
        requires
            start + count <= len,
    ;
    assert(count * unit <= (start + count) * unit) by (nonlinear_arith);
    assert(start * unit <= (start + count) * unit) by (nonlinear_arith);
    vstd::arithmetic::div_mod::lemma_mod_multiples_basic(count as int, unit as int);
    vstd::arithmetic::div_mod::lemma_mod_multiples_basic(start as int, unit as int);
    vstd::arithmetic::div_mod::lemma_mod_multiples_vanish(start as int, base as int, unit as int);
    assert(base + start * unit == unit * start + base) by (nonlinear_arith);
}

impl View for Allocation {
    type V = Span;

    closed spec fn view(&self) -> Span {
        Span { base: self.base as int, size: self.size as nat }
    }
}

impl Allocation {
    /// The range starts at a multiple of the granularity above address zero,
    /// measures a whole number of pages and ends within the address space.
    /// This holds of every allocation. When it is made an allocation measures
    /// a whole number of granules; a shrink may leave any number of pages.
    #[verifier::type_invariant]
    pub closed spec fn wf(self) -> bool {
        &&& self.geometry.wf()
        &&& self@.aligned(self.geometry.page() as nat)
        &&& self@.base % (self.geometry.granule() as int) == 0
    }

    /// The geometry this allocation was measured with.
    pub closed spec fn geometry(self) -> Geometry {
        self.geometry
    }

    /// What holds of every allocation: the geometry is valid, and address
    /// and size are parts that `from_raw_parts` takes.
    pub proof fn lemma_valid(self)
        requires
            self.wf(),
        ensures
            self.geometry().wf(),
            Self::valid_parts(self@.base as usize, self@.size as usize, self.geometry()),
    {
    }

    /// The allocation granularity.
    #[must_use]
    pub fn granularity(geometry: &Geometry) -> (size: usize)
        ensures
            size == geometry.granule(),
    {
        geometry.granularity()
    }

    /// Rounds `offset` up to a multiple of the allocation granularity.
    #[must_use]
    pub fn align(geometry: &Geometry, offset: usize) -> (aligned: usize)
        requires
            align_up(offset as nat, geometry.granule() as nat) <= usize::MAX,
        ensures
            aligned == align_up(offset as nat, geometry.granule() as nat),
    {
        let granule = geometry.granularity();
        checked_align(offset, granule).unwrap()
    }

    /// Whether `size` bytes at `base` can be an allocation: `base` is a
    /// multiple of the granularity and not zero, `size` a whole number of
    /// pages, and the range ends within the address space.
    pub open spec fn valid_parts(base: usize, size: usize, geometry: Geometry) -> bool {
        &&& (Span { base: base as int, size: size as nat }).aligned(geometry.page() as nat)
        &&& base % geometry.granule() == 0
    }

    /// The allocation of `size` bytes at `base`, which the caller reserved as
    /// a whole and hands over.
    pub fn from_raw_parts(base: usize, size: usize, geometry: Geometry) -> (allocation: Allocation)
        requires
            Self::valid_parts(base, size, geometry),
        ensures
            allocation@ == (Span { base: base as int, size: size as nat }),
            allocation.geometry() == geometry,
            allocation.wf(),
    {
        proof {
            use_type_invariant(geometry);
        }
        Allocation { base, size, geometry }
    }

    /// The allocation of the slice `(base, size)`.
    pub fn from_slice(slice: (usize, usize), geometry: Geometry) -> (allocation: Allocation)
        requires
            Self::valid_parts(slice.0, slice.1, geometry),
        ensures
            allocation@ == (Span { base: slice.0 as int, size: slice.1 as nat }),
            allocation.geometry() == geometry,
            allocation.wf(),
    {
        Self::from_raw_parts(slice.0, slice.1, geometry)
    }

    /// The allocation of `size` bytes at the address `ptr`.
    pub fn from_ptr(ptr: usize, size: usize, geometry: Geometry) -> (allocation: Allocation)
        requires
            Self::valid_parts(ptr, size, geometry),
        ensures
            allocation@ == (Span { base: ptr as int, size: size as nat }),
            allocation.geometry() == geometry,
            allocation.wf(),
    {
        Self::from_raw_parts(ptr, size, geometry)
    }

    /// The address of the allocation.
    #[must_use]
    pub fn as_ptr(&self) -> (ptr: usize)
        ensures
            ptr == self@.base,
            self.wf(),
            Self::valid_parts(self@.base as usize, self@.size as usize, self.geometry()),
    {
        proof {
            use_type_invariant(self);
        }
        self.base
    }

    /// Gives the allocation up without releasing it, for its address.
    #[must_use]
    pub fn into_ptr(self) -> (ptr: usize)
        ensures
            ptr == self@.base,
            self.wf(),
            Self::valid_parts(self@.base as usize, self@.size as usize, self.geometry()),
    {
        proof {
            use_type_invariant(&self);
        }
        self.base
    }

    /// Gives the allocation up without releasing it, for its address and size.
    #[must_use]
    pub fn into_slice(self) -> (slice: (usize, usize))
        ensures
            slice.0 == self@.base,
            slice.1 == self@.size,
            self.wf(),
            Self::valid_parts(self@.base as usize, self@.size as usize, self.geometry()),
    {
        proof {
            use_type_invariant(&self);
        }
        (self.base, self.size)
    }

    /// The size in bytes.
    #[must_use]
    pub fn size(&self) -> (size: usize)
        ensures
            size == self@.size,
            self.wf(),
            Self::valid_parts(self@.base as usize, self@.size as usize, self.geometry()),
    {
        proof {
            use_type_invariant(self);
        }
        self.size
    }

    /// The number of pages.
    #[must_use]
    pub fn len(&self) -> (len: usize)
        ensures
            len == self@.size / (self.geometry().page() as nat),
            len * self.geometry().page() == self@.size,
            self.wf(),
    {
        proof {
            use_type_invariant(self);
            use_type_invariant(self.geometry);
            vstd::arithmetic::div_mod::lemma_fundamental_div_mod(
                self.size as int,
                self.geometry.page as int,
            );
            assert((self.size / self.geometry.page) * self.geometry.page == self.geometry.page * (
            self.size / self.geometry.page)) by (nonlinear_arith);
        }
        self.size / self.geometry.page_size()
    }

    /// Whether the allocation holds no page.
    #[must_use]
    pub fn is_empty(&self) -> (empty: bool)
        ensures
            empty == (self@.size == 0),
    {
        self.size == 0
    }

    /// The reservation to ask of the operating system for an allocation of
    /// `size` bytes: `size` rounded up to the granularity, with protection
    /// `prot`. What it answers is taken over with `from_ptr`.
    pub fn new(size: usize, prot: Protection, geometry: &Geometry) -> (request: Request)
        requires
            align_up(size as nat, geometry.granule() as nat) <= usize::MAX,
        ensures
            request == (Request::Reserve {
                size: align_up(size as nat, geometry.granule() as nat) as usize,
                prot,
            }),
    {
        Request::Reserve { size: Self::align(geometry, size), prot }
    }

    /// Shrinks the allocation to `size` bytes, rounded up to whole pages. The
    /// address stays. Where that cuts a tail off, the request to give the tail
    /// back comes with the shrunk allocation.
    pub fn shrink(self, size: usize) -> (shrunk: (Allocation, Option<Request>))
        requires
            size < self@.size,
        ensures
            shrunk.0.wf(),
            shrunk.0.geometry() == self.geometry(),
            shrunk.0@ == (Span {
                base: self@.base,
                size: align_up(size as nat, self.geometry().page() as nat),
            }),
            shrunk.0@.size <= self@.size,
            shrunk.1 == if shrunk.0@.size < self@.size {
                Some(
                    Request::Uncommit {
                        base: (self@.base + shrunk.0@.size) as usize,
                        size: (self@.size - shrunk.0@.size) as usize,
                    },
                )
            } else {
                None
            },
    {
        proof {
            use_type_invariant(&self);
            use_type_invariant(self.geometry);
            lemma_align_up(size as nat, self.geometry.page as nat);
            lemma_align_up_least(size as nat, self.geometry.page as nat, self.size as nat);
        }
        let size = Pages::align(&self.geometry, size);
        let diff = self.size - size;
        if diff > 0 {
            let tail = Request::Uncommit { base: self.base + size, size: diff };
            (Allocation { base: self.base, size, geometry: self.geometry }, Some(tail))
        } else {
            (self, None)
        }
    }

    /// The pages from number `range.start` up to, but without, number
    /// `range.end`; `None` unless `range` lies within the allocation.
    #[must_use]
    pub fn pages(&self, range: core::ops::Range<usize>) -> (sub: Option<Pages>)
        requires
            range.start < self@.size / (self.geometry().page() as nat) && range.end <= self@.size
                / (self.geometry().page() as nat) ==> range.start <= range.end,
        ensures
            sub is Some <==> range.start < self@.size / (self.geometry().page() as nat)
                && range.end <= self@.size / (self.geometry().page() as nat),
            sub matches Some(p) ==> p.wf() && p.geometry() == self.geometry() && p@ == (Span {
                base: self@.base + range.start * self.geometry().page(),
                size: ((range.end - range.start) * self.geometry().page()) as nat,
            }),
    {
        let len = self.len();
        let page = self.geometry.page_size();
        if range.start < len && range.end <= len {
            let count = range.end - range.start;
            proof {
                lemma_sub_range(
                    self.base as nat,
                    len as nat,
                    page as nat,
                    range.start as nat,
                    count as nat,
                );
            }
            Some(Pages::from_raw_parts(self.base + range.start * page, count * page, self.geometry))
        } else {
            None
        }
    }

    /// Ends the allocation: the request that releases the whole range.
    pub fn release(self) -> (request: Request)
        ensures
            request == (Request::Release { base: self@.base as usize, size: self@.size as usize }),
    {
        Request::Release { base: self.base, size: self.size }
    }
}

/// A multiple of `large` is a multiple of every unit that divides `large`.
pub proof fn lemma_multiple_of_multiple(x: nat, small: nat, large: nat)
    requires
        small > 0,
        large > 0,
        large % small == 0,
        x % large == 0,
    ensures
        x % small == 0,
{
    vstd::arithmetic::div_mod::lemma_fundamental_div_mod(large as int, small as int);
    vstd::arithmetic::div_mod::lemma_fundamental_div_mod(x as int, large as int);
    let q = large / small;
    let k = x / large;
    assert(x == (k * q) * small) by (nonlinear_arith)
        requires
            x == large * k,
            large == small * q,
    ;
    vstd::arithmetic::div_mod::lemma_mod_multiples_basic((k * q) as int, small as int);
}

/// The bytes of `pages` guard pages.
pub open spec fn guard_bytes(pages: nat, geometry: Geometry) -> nat {
    pages * (geometry.page() as nat)
}

/// The size of the frame around `size` bytes between two bands of `pages`
/// guard pages: both bands and the bytes, rounded up to the granularity.
pub open spec fn outer_bytes(pages: nat, size: nat, geometry: Geometry) -> nat {
    align_up(size + 2 * guard_bytes(pages, geometry), geometry.granule() as nat)
}

/// What a frame for `size` bytes holds between its guard bands.
pub open spec fn inner_bytes(pages: nat, size: nat, geometry: Geometry) -> nat {
    (outer_bytes(pages, size, geometry) - 2 * guard_bytes(pages, geometry)) as nat
}

/// A guard band of at least one page is not empty.
pub proof fn lemma_guard_positive(pages: nat, geometry: Geometry)
    requires
        geometry.wf(),
    ensures
        pages > 0 ==> guard_bytes(pages, geometry) > 0,
        pages == 0 ==> guard_bytes(pages, geometry) == 0,
{
    geometry.lemma_units();
    assert(pages > 0 ==> pages * (geometry.page() as nat) > 0) by (nonlinear_arith)
        requires
            geometry.page() > 0,
    ;
}

/// A frame is a whole number of granules and of pages, and holds at least
/// the bytes it was made for between its guard bands.
pub proof fn lemma_frame(pages: nat, size: nat, geometry: Geometry)
    requires
        geometry.wf(),
    ensures
        outer_bytes(pages, size, geometry) % (geometry.granule() as nat) == 0,
        outer_bytes(pages, size, geometry) % (geometry.page() as nat) == 0,
        guard_bytes(pages, geometry) % (geometry.page() as nat) == 0,
        inner_bytes(pages, size, geometry) % (geometry.page() as nat) == 0,
        size <= inner_bytes(pages, size, geometry) < size + geometry.granule(),
        outer_bytes(pages, size, geometry) == inner_bytes(pages, size, geometry) + 2 * guard_bytes(
            pages,
            geometry,
        ),
{
    geometry.lemma_units();
    let page = geometry.page() as nat;
    let granule = geometry.granule() as nat;
    let guard = guard_bytes(pages, geometry);
    let outer = outer_bytes(pages, size, geometry);
    lemma_align_up(size + 2 * guard, granule);
    vstd::arithmetic::div_mod::lemma_mod_multiples_basic(pages as int, page as int);
    lemma_multiple_of_multiple(outer, page, granule);
    vstd::arithmetic::div_mod::lemma_fundamental_div_mod(outer as int, page as int);
    let count = outer as int / page as int - 2 * pages;
    assert(outer - 2 * guard == count * page) by (nonlinear_arith)
        requires
            guard == pages * page,
            outer == page * (outer as int / page as int),
            count == outer as int / page as int - 2 * pages,
    ;
    vstd::arithmetic::div_mod::lemma_mod_multiples_basic(count, page as int);
}

/// Frames grow with the bytes they are made for.
pub proof fn lemma_frame_monotone(pages: nat, small: nat, large: nat, geometry: Geometry)
    requires
        geometry.wf(),
        small <= large,
    ensures
        outer_bytes(pages, small, geometry) <= outer_bytes(pages, large, geometry),
        inner_bytes(pages, small, geometry) <= inner_bytes(pages, large, geometry),
{
    geometry.lemma_units();
    lemma_align_up_monotone(
        small + 2 * guard_bytes(pages, geometry),
        large + 2 * guard_bytes(pages, geometry),
        geometry.granule() as nat,
    );
    lemma_frame(pages, small, geometry);
    lemma_frame(pages, large, geometry);
}

impl<const N: usize> GuardedAlloc<N> {
    /// The frame is an allocation of a whole number of granules that holds
    /// both guard bands and at least one page. This holds of every guarded
    /// allocation.
    #[verifier::type_invariant]
    pub closed spec fn wf(self) -> bool {
        &&& self.0.wf()
        &&& self.0@.size >= 2 * guard_bytes(N as nat, self.0.geometry())
        &&& self.0@.size > guard_bytes(N as nat, self.0.geometry())
        &&& self.0@.size % (self.0.geometry().granule() as nat) == 0
    }

    /// The geometry this allocation was measured with.
    pub closed spec fn geometry(self) -> Geometry {
        self.0.geometry()
    }

    /// The whole frame, guard bands included.
    pub closed spec fn frame(self) -> Span {
        self.0@
    }

    /// The interior: what lies between the guard bands.
    pub open spec fn interior(self) -> Span {
        Span {
            base: self.frame().base + guard_bytes(N as nat, self.geometry()),
            size: (self.frame().size - 2 * guard_bytes(N as nat, self.geometry())) as nat,
        }
    }

    /// The band of guard pages before the interior.
    pub open spec fn leading_guard(self) -> Span {
        Span { base: self.frame().base, size: guard_bytes(N as nat, self.geometry()) }
    }

    /// The band of guard pages behind the interior.
    pub open spec fn trailing_guard(self) -> Span {
        Span { base: self.interior().end(), size: guard_bytes(N as nat, self.geometry()) }
    }

    /// The request that gives the interior the protection `prot`; none where
    /// the interior is empty.
    pub open spec fn upgrade(self, prot: Protection) -> Option<Request> {
        if self.interior().size > 0 {
            Some(
                Request::Protect {
                    base: self.interior().base as usize,
                    size: self.interior().size as usize,
                    prot,
                },
            )
        } else {
            None
        }
    }

    /// The size of the frame after `shrink` to `size` bytes.
    pub open spec fn shrunk_size(self, size: nat) -> nat {
        let outer = outer_bytes(N as nat, size, self.geometry());
        if outer < self.frame().size {
            outer
        } else {
            self.frame().size
        }
    }

    /// The requests of `shrink` to `size` bytes, in their order.
    pub open spec fn shrink_requests(self, size: nat) -> Seq<Request> {
        let outer = outer_bytes(N as nat, size, self.geometry());
        let guard = guard_bytes(N as nat, self.geometry());
        if outer < self.frame().size {
            seq![
                Request::Protect {
                    base: (self.frame().base + outer - guard) as usize,
                    size: guard as usize,
                    prot: Protection::NoAccess,
                },
                Request::Uncommit {
                    base: (self.frame().base + outer) as usize,
                    size: (self.frame().size - outer) as usize,
                },
            ]
        } else {
            Seq::empty()
        }
    }

    /// The size of one guard band in bytes.
    #[must_use]
    pub fn guard_size(geometry: &Geometry) -> (size: usize)
        requires
            guard_bytes(N as nat, *geometry) <= usize::MAX,
        ensures
            size == guard_bytes(N as nat, *geometry),
    {
        N * geometry.page_size()
    }

    /// The size of the frame for `size` bytes.
    #[must_use]
    pub fn outer_size(geometry: &Geometry, size: usize) -> (outer: usize)
        requires
            outer_bytes(N as nat, size as nat, *geometry) <= usize::MAX,
        ensures
            outer == outer_bytes(N as nat, size as nat, *geometry),
    {
        proof {
            use_type_invariant(geometry);
            geometry.lemma_units();
            lemma_align_up(
                size as nat + 2 * guard_bytes(N as nat, *geometry),
                geometry.granule() as nat,
            );
        }
        Allocation::align(geometry, size + 2 * Self::guard_size(geometry))
    }

    /// The size of the interior of the frame for `size` bytes.
    #[must_use]
    pub fn inner_size(geometry: &Geometry, size: usize) -> (inner: usize)
        requires
            outer_bytes(N as nat, size as nat, *geometry) <= usize::MAX,
        ensures
            inner == inner_bytes(N as nat, size as nat, *geometry),
    {
        proof {
            use_type_invariant(geometry);
            geometry.lemma_units();
            lemma_align_up(
                size as nat + 2 * guard_bytes(N as nat, *geometry),
                geometry.granule() as nat,
            );
        }
        Self::outer_size(geometry, size) - 2 * Self::guard_size(geometry)
    }

    /// The reservation to ask of the operating system for a guarded
    /// allocation of `size` bytes: the frame for `size` bytes, without access.
    /// What it answers is taken over with `Allocation::from_ptr` and handed to
    /// `new`.
    pub fn reserve(size: usize, geometry: &Geometry) -> (request: Request)
        requires
            outer_bytes(N as nat, size as nat, *geometry) <= usize::MAX,
        ensures
            request == (Request::Reserve {
                size: outer_bytes(N as nat, size as nat, *geometry) as usize,
                prot: Protection::NoAccess,
            }),
    {
        Request::Reserve { size: Self::outer_size(geometry, size), prot: Protection::NoAccess }
    }

    /// Whether `frame` can hold `N` guard pages on each side: it is a whole
    /// number of granules and larger than one band and not smaller than two.
    pub open spec fn fits(frame: Allocation) -> bool {
        &&& frame.wf()
        &&& frame@.size >= 2 * guard_bytes(N as nat, frame.geometry())
        &&& frame@.size > guard_bytes(N as nat, frame.geometry())
        &&& frame@.size % (frame.geometry().granule() as nat) == 0
    }

    /// Makes a guarded allocation of `frame`, which the caller reserved with
    /// `outer_size` bytes and no access. Where the interior is not empty, the
    /// request that gives it the protection `prot` comes with it.
    pub fn new(frame: Allocation, prot: Protection) -> (made: (Self, Option<Request>))
        requires
            Self::fits(frame),
        ensures
            made.0.wf(),
            made.0.frame() == frame@,
            made.0.geometry() == frame.geometry(),
            made.1 == made.0.upgrade(prot),
    {
        let alloc = GuardedAlloc::<N>(frame);
        let inner = alloc.inner();
        if !inner.is_empty() {
            let request = inner.protect(prot);
            (alloc, Some(request))
        } else {
            (alloc, None)
        }
    }

    /// The pages of the interior.
    pub fn inner(&self) -> (pages: Pages)
        ensures
            pages@ == self.interior(),
            pages.geometry() == self.geometry(),
            pages.wf(),
            self.wf(),
    {
        proof {
            use_type_invariant(self);
            use_type_invariant(&self.0);
            use_type_invariant(self.0.geometry);
            self.0.geometry.lemma_units();
        }
        let len = self.0.len();
        let page = self.0.geometry.page_size();
        proof {
            assert(N < len && 2 * N <= len) by (nonlinear_arith)
                requires
                    len * page == self.0.size,
                    self.0.size >= 2 * (N * page),
                    self.0.size > N * page,
                    page > 0,
            ;
            assert((len - N - N) * page == len * page - 2 * (N * page)) by (nonlinear_arith);
        }
        let pages = self.0.pages(N..len - N);
        pages.unwrap()
    }

    /// Whether an interior at `base`, made for `inner` bytes, can be taken
    /// back: the frame around it starts at a multiple of the granularity
    /// above address zero and ends within the address space.
    pub open spec fn valid_parts(base: usize, inner: usize, geometry: Geometry) -> bool {
        &&& N > 0 || inner > 0
        &&& base > guard_bytes(N as nat, geometry)
        &&& (base - guard_bytes(N as nat, geometry)) % (geometry.granule() as int) == 0
        &&& base - guard_bytes(N as nat, geometry) + outer_bytes(N as nat, inner as nat, geometry)
            <= usize::MAX
    }

    /// Takes back the guarded allocation whose interior starts at `base` and
    /// was made for `inner` bytes.
    pub fn from_raw_parts(base: usize, inner: usize, geometry: Geometry) -> (alloc: Self)
        requires
            Self::valid_parts(base, inner, geometry),
        ensures
            alloc == Self::from_parts(base, inner, geometry),
            alloc.wf(),
            alloc.geometry() == geometry,
            alloc.frame() == (Span {
                base: base - guard_bytes(N as nat, geometry),
                size: outer_bytes(N as nat, inner as nat, geometry),
            }),
            alloc.interior() == (Span {
                base: base as int,
                size: inner_bytes(N as nat, inner as nat, geometry),
            }),
    {
        proof {
            use_type_invariant(geometry);
            geometry.lemma_units();
            lemma_frame(N as nat, inner as nat, geometry);
            lemma_multiple_of_multiple(
                (base - guard_bytes(N as nat, geometry)) as nat,
                geometry.page() as nat,
                geometry.granule() as nat,
            );
        }
        let ptr = base - Self::guard_size(&geometry);
        let outer = Self::outer_size(&geometry, inner);
        proof {
            lemma_guard_positive(N as nat, geometry);
        }
        GuardedAlloc::<N>(Allocation::from_ptr(ptr, outer, geometry))
    }

    /// Takes back the guarded allocation whose interior starts at the address
    /// `base` and was made for `inner` bytes.
    pub fn from_ptr(base: usize, inner: usize, geometry: Geometry) -> (alloc: Self)
        requires
            Self::valid_parts(base, inner, geometry),
        ensures
            alloc == Self::from_parts(base, inner, geometry),
            alloc.wf(),
            alloc.geometry() == geometry,
            alloc.frame() == (Span {
                base: base - guard_bytes(N as nat, geometry),
                size: outer_bytes(N as nat, inner as nat, geometry),
            }),
            alloc.interior() == (Span {
                base: base as int,
                size: inner_bytes(N as nat, inner as nat, geometry),
            }),
    {
        Self::from_raw_parts(base, inner, geometry)
    }

    /// Gives the allocation up without releasing it, for the address and size
    /// of its interior.
    #[must_use]
    pub fn into_slice(self) -> (slice: (usize, usize))
        ensures
            slice.0 == self.interior().base,
            slice.1 == self.interior().size,
            self.wf(),
            Self::valid_parts(slice.0, slice.1, self.geometry()),
            Self::from_parts(slice.0, slice.1, self.geometry()).frame() == self.frame(),
    {
        proof {
            use_type_invariant(&self);
            self.lemma_parts();
        }
        self.inner().into_slice()
    }

    /// Gives the allocation up without releasing it, for the pages of its
    /// interior.
    pub fn into_pages(self) -> (pages: Pages)
        ensures
            pages@ == self.interior(),
            pages.geometry() == self.geometry(),
            pages.wf(),
            self.wf(),
    {
        self.inner()
    }

    /// Shrinks the allocation to the frame for `size` bytes, where that frame
    /// is smaller. The interior keeps its address. The requests come with the
    /// shrunk allocation, in the order in which they are to be performed: first
    /// the pages that become the trailing guard band lose all access, then the
    /// tail behind them is given back.
    pub fn shrink(self, size: usize) -> (shrunk: (Self, Vec<Request>))
        requires
            N > 0 || size > 0,
            outer_bytes(N as nat, size as nat, self.geometry()) <= usize::MAX,
        ensures
            shrunk.0.wf(),
            shrunk.0.geometry() == self.geometry(),
            shrunk.0.frame() == (Span {
                base: self.frame().base,
                size: self.shrunk_size(size as nat),
            }),
            shrunk.0.interior().base == self.interior().base,
            shrunk.1@ == self.shrink_requests(size as nat),
    {
        proof {
            use_type_invariant(&self);
            use_type_invariant(&self.0);
            use_type_invariant(self.0.geometry);
            self.0.geometry.lemma_units();
            lemma_frame(N as nat, size as nat, self.0.geometry);
            lemma_guard_positive(N as nat, self.0.geometry);
        }
        let geometry = self.0.geometry;
        let outer = Self::outer_size(&geometry, size);
        if outer < self.0.size() {
            let page = geometry.page_size();
            let pages = outer / page;
            let guard = Self::guard_size(&geometry);
            proof {
                vstd::arithmetic::div_mod::lemma_fundamental_div_mod(outer as int, page as int);
                assert(pages * page == outer) by (nonlinear_arith)
                    requires
                        outer == page * (outer as int / page as int),
                        pages == outer as int / page as int,
                ;
                assert(N <= pages) by (nonlinear_arith)
                    requires
                        pages * page == outer,
                        outer >= 2 * (N * page),
                        page > 0,
                ;
                let len = self.0@.size / (page as nat);
                vstd::arithmetic::div_mod::lemma_fundamental_div_mod(
                    self.0@.size as int,
                    page as int,
                );
                assert(pages < len) by (nonlinear_arith)
                    requires
                        pages * page == outer,
                        self.0@.size == page * len,
                        outer < self.0@.size,
                        page > 0,
                ;
                assert((pages - N) * page == outer - N * page) by (nonlinear_arith)
                    requires
                        pages * page == outer,
                ;
                assert((pages - (pages - N)) * page == N * page) by (nonlinear_arith);
                lemma_align_up(outer as nat, page as nat);
            }
            let band = self.0.pages(pages - N..pages).unwrap();
            let protect = band.protect(Protection::NoAccess);
            let (alloc, tail) = self.0.shrink(outer);
            (GuardedAlloc::<N>(alloc), vec![protect, tail.unwrap()])
        } else {
            (self, Vec::new())
        }
    }

    /// Ends the allocation: the request that releases the whole frame.
    pub fn release(self) -> (request: Request)
        ensures
            request == (Request::Release {
                base: self.frame().base as usize,
                size: self.frame().size as usize,
            }),
    {
        self.0.release()
    }

    /// The layout of a guarded allocation: leading guard band, interior and
    /// trailing guard band fill the frame in this order, and all of it lies
    /// within the address space.
    pub proof fn lemma_layout(self)
        requires
            self.wf(),
        ensures
            self.leading_guard().base == self.frame().base,
            self.leading_guard().end() == self.interior().base,
            self.interior().end() == self.trailing_guard().base,
            self.trailing_guard().end() == self.frame().end(),
            self.leading_guard().size == self.trailing_guard().size,
            self.frame().base > 0,
            self.frame().end() <= usize::MAX,
            self.interior().base % (self.geometry().page() as int) == 0,
            self.interior().size % (self.geometry().page() as nat) == 0,
            self.frame().size % (self.geometry().granule() as nat) == 0,
            self.frame().base % (self.geometry().granule() as int) == 0,
            self.frame().size >= 2 * guard_bytes(N as nat, self.geometry()),
            self.frame().size > guard_bytes(N as nat, self.geometry()),
            self.geometry().wf(),
    {
        let page = self.geometry().page() as nat;
        let guard = guard_bytes(N as nat, self.geometry());
        vstd::arithmetic::div_mod::lemma_mod_multiples_basic(N as int, page as int);
        vstd::arithmetic::div_mod::lemma_fundamental_div_mod(self.0@.base, page as int);
        vstd::arithmetic::div_mod::lemma_fundamental_div_mod(self.0@.size as int, page as int);
        let b = self.0@.base / (page as int);
        let k = self.0@.size as int / (page as int);
        assert(self.0@.base + guard == (b + N) * page) by (nonlinear_arith)
            requires
                self.0@.base == page * b,
                guard == N * page,
        ;
        assert(self.0@.size - 2 * guard == (k - 2 * N) * page) by (nonlinear_arith)
            requires
                self.0@.size == page * k,
                guard == N * page,
        ;
        vstd::arithmetic::div_mod::lemma_mod_multiples_basic(b + N, page as int);
        vstd::arithmetic::div_mod::lemma_mod_multiples_basic(k - 2 * N, page as int);
    }

    /// The interior of a guarded allocation, as address and size, is what
    /// `from_raw_parts` takes, and gives the same frame again.
    pub proof fn lemma_parts(self)
        requires
            self.wf(),
        ensures
            Self::valid_parts(
                self.interior().base as usize,
                self.interior().size as usize,
                self.geometry(),
            ),
            Self::from_parts(
                self.interior().base as usize,
                self.interior().size as usize,
                self.geometry(),
            ).frame() == self.frame(),
            Self::from_parts(
                self.interior().base as usize,
                self.interior().size as usize,
                self.geometry(),
            ).geometry() == self.geometry(),
    {
        self.lemma_layout();
        let geometry = self.geometry();
        geometry.lemma_units();
        lemma_guard_positive(N as nat, geometry);
        let guard = guard_bytes(N as nat, geometry);
        let inner = self.interior().size;
        assert(inner + 2 * guard == self.frame().size);
        lemma_align_up(self.frame().size, geometry.granule() as nat);
        assert(outer_bytes(N as nat, inner, geometry) == self.frame().size);
    }

    /// The guarded allocation that `from_raw_parts` gives for these parts.
    pub closed spec fn from_parts(base: usize, inner: usize, geometry: Geometry) -> Self {
        GuardedAlloc::<N>(
            Allocation {
                base: (base - guard_bytes(N as nat, geometry)) as usize,
                size: outer_bytes(N as nat, inner as nat, geometry) as usize,
                geometry,
            },
        )
    }

    /// What `from_parts` gives is a guarded allocation, with the frame and
    /// the interior that `from_raw_parts` states.
    pub proof fn lemma_from_parts(base: usize, inner: usize, geometry: Geometry)
        requires
            geometry.wf(),
            Self::valid_parts(base, inner, geometry),
        ensures
            Self::from_parts(base, inner, geometry).wf(),
            Self::from_parts(base, inner, geometry).geometry() == geometry,
            Self::from_parts(base, inner, geometry).frame() == (Span {
                base: base - guard_bytes(N as nat, geometry),
                size: outer_bytes(N as nat, inner as nat, geometry),
            }),
            Self::from_parts(base, inner, geometry).interior() == (Span {
                base: base as int,
                size: inner_bytes(N as nat, inner as nat, geometry),
            }),
    {
        geometry.lemma_units();
        lemma_frame(N as nat, inner as nat, geometry);
        lemma_guard_positive(N as nat, geometry);
        lemma_multiple_of_multiple(
            (base - guard_bytes(N as nat, geometry)) as nat,
            geometry.page() as nat,
            geometry.granule() as nat,
        );
    }

    /// The pages of the interior, at `base`, of a frame that was made for
    /// `size` bytes.
    pub fn pages_at(base: usize, size: usize, geometry: Geometry) -> (pages: Pages)
        requires
            base > 0,
            base % geometry.page() == 0,
            outer_bytes(N as nat, size as nat, geometry) <= usize::MAX,
            base + inner_bytes(N as nat, size as nat, geometry) <= usize::MAX,
        ensures
            pages.wf(),
            pages.geometry() == geometry,
            pages@ == (Span {
                base: base as int,
                size: inner_bytes(N as nat, size as nat, geometry),
            }),
    {
        proof {
            use_type_invariant(geometry);
            lemma_frame(N as nat, size as nat, geometry);
        }
        Pages::from_raw_parts(base, Self::inner_size(&geometry, size), geometry)
    }
}

} // verus!
