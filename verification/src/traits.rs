//! What a guard asks of the value it holds.

use vstd::prelude::*;
use crate::allocator::Sensitive;
use crate::pages::{
    Geometry, Pages, Protection, Request, Span, inner_bytes, lemma_frame, outer_bytes,
};

verus! {

/// Whether pages for a payload of `size` bytes can lie at the address `base`:
/// the interior of a frame with one guard page on each side that was made for
/// `size` bytes starts on a page above address zero and ends within the
/// address space.
pub open spec fn placed(base: usize, size: nat, geometry: Geometry) -> bool {
    &&& base > 0
    &&& base % geometry.page() == 0
    &&& outer_bytes(1, size, geometry) <= usize::MAX
    &&& base + inner_bytes(1, size, geometry) <= usize::MAX
}

/// Whether pages for a payload of `size` bytes can lie at the address `base`.
pub fn can_place(base: usize, size: usize, geometry: Geometry) -> (yes: bool)
    ensures
        yes == placed(base, size as nat, geometry),
{
    let rules = Sensitive::new(geometry);
    let page = rules.guard_size();
    proof {
        geometry.lemma_units();
        lemma_frame(1, size as nat, geometry);
    }
    if base == 0 || base % page != 0 {
        return false;
    }
    match rules.checked_outer_size(size) {
        Some(outer) => outer - 2 * page <= usize::MAX - base,
        None => false,
    }
}

/// Whether `value` can lie at the address `base`: the test of what `lock`,
/// `unlock` and `unlock_mut` ask of a value that knows its pages.
pub fn can_lie<T: AsPages>(value: &T, base: usize, geometry: Geometry) -> (yes: bool)
    ensures
        yes == value.placeable(base, geometry),
{
    match value.payload() {
        Some(size) => size == 0 || can_place(base, size, geometry),
        None => {
            proof {
                use_type_invariant(geometry);
                geometry.lemma_units();
                lemma_frame(1, value.payload_size(), geometry);
            }
            false
        },
    }
}

/// The request that gives `size` bytes of pages at `base` the protection
/// `prot`: none where there are no pages.
pub open spec fn request_of(base: usize, size: nat, prot: Protection) -> Option<Request> {
    if size > 0 {
        Some(Request::Protect { base, size: size as usize, prot })
    } else {
        None
    }
}

/// A value that knows which bytes of it are to be protected.
pub trait AsPages {
    /// The size of the payload in bytes. Zero: there are no pages, and that
    /// is what holds of a value that says nothing else.
    open spec fn payload_size(&self) -> nat {
        0
    }

    /// The size in bytes of the pages that hold the payload: a whole number
    /// of pages, and none for no payload.
    open spec fn pages_size(&self, geometry: Geometry) -> nat {
        0
    }

    /// The size of the payload in bytes; none where it does not fit the
    /// machine word.
    fn payload(&self) -> (size: Option<usize>)
        ensures
            size matches Some(bytes) ==> bytes == self.payload_size(),
            size is None ==> self.payload_size() > usize::MAX,
    ;

    /// The pages of the payload, which lies at the address `base`.
    fn as_pages(&self, base: usize, geometry: Geometry) -> (pages: Option<Pages>)
        requires
            self.payload_size() > 0 ==> placed(base, self.payload_size(), geometry),
        ensures
            pages is Some <==> self.pages_size(geometry) > 0,
            pages matches Some(p) ==> p.wf() && p.geometry() == geometry && p@ == (Span {
                base: base as int,
                size: self.pages_size(geometry),
            }),
    ;
}

/// A value whose pages can be locked and unlocked. Each method gives the
/// request that does so for the value at the address `base`; a value without
/// pages asks for nothing.
pub trait Protectable: Sized {
    /// Whether the value can lie at the address `base`. A value that says
    /// nothing else can lie anywhere.
    open spec fn placeable(&self, base: usize, geometry: Geometry) -> bool {
        true
    }

    /// The size in bytes of what is protected. Zero: there are no pages, and
    /// that is what holds of a value that says nothing else.
    open spec fn protected_size(&self, geometry: Geometry) -> nat {
        0
    }

    /// No access.
    fn lock(&self, base: usize, geometry: Geometry) -> (request: Option<Request>)
        requires
            self.placeable(base, geometry),
        ensures
            request == request_of(base, self.protected_size(geometry), Protection::NoAccess),
    ;

    /// Access for reading.
    fn unlock(&self, base: usize, geometry: Geometry) -> (request: Option<Request>)
        requires
            self.placeable(base, geometry),
        ensures
            request == request_of(base, self.protected_size(geometry), Protection::ReadOnly),
    ;

    /// Access for reading and writing.
    fn unlock_mut(&mut self, base: usize, geometry: Geometry) -> (request: Option<Request>)
        requires
            old(self).placeable(base, geometry),
        ensures
            request == request_of(
                base,
                old(self).protected_size(geometry),
                Protection::ReadWrite,
            ),
            *final(self) == *old(self),
    ;
}

impl<T: AsPages> Protectable for T {
    open spec fn placeable(&self, base: usize, geometry: Geometry) -> bool {
        self.payload_size() > 0 ==> placed(base, self.payload_size(), geometry)
    }

    open spec fn protected_size(&self, geometry: Geometry) -> nat {
        self.pages_size(geometry)
    }

    fn lock(&self, base: usize, geometry: Geometry) -> (request: Option<Request>) {
        match self.as_pages(base, geometry) {
            Some(pages) => Some(pages.protect(Protection::NoAccess)),
            None => None,
        }
    }

    fn unlock(&self, base: usize, geometry: Geometry) -> (request: Option<Request>) {
        match self.as_pages(base, geometry) {
            Some(pages) => Some(pages.protect(Protection::ReadOnly)),
            None => None,
        }
    }

    fn unlock_mut(&mut self, base: usize, geometry: Geometry) -> (request: Option<Request>) {
        match self.as_pages(base, geometry) {
            Some(pages) => Some(pages.protect(Protection::ReadWrite)),
            None => None,
        }
    }
}

} // verus!
