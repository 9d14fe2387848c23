//! Guarded box type.

use vstd::prelude::*;
use crate::guard::{Guard, GuardState, Ref, RefMut};
use crate::pages::{
    Geometry, Pages, Protection, align_up, inner_bytes, lemma_align_up, lemma_align_up_least,
    lemma_frame,
};
use crate::traits::AsPages;

verus! {

/// The box under the guard: one value.
#[derive(Debug)]
pub struct InnerBox<T> {
    value: T,
}

/// Guarded box type.
pub type Box<T> = Guard<InnerBox<T>>;

impl<T> View for InnerBox<T> {
    type V = T;

    closed spec fn view(&self) -> T {
        self.value
    }
}

/// The place of one value of a size: the whole pages that hold it, none for
/// a value without bytes.
#[derive(Clone, Copy, Debug)]
pub struct Slot {
    size: usize,
}

impl Slot {
    /// The size of the value in bytes.
    pub closed spec fn bytes(self) -> usize {
        self.size
    }

    /// The place of a value of `size` bytes.
    pub fn new(size: usize) -> (slot: Self)
        ensures
            slot.bytes() == size,
    {
        Slot { size }
    }

    /// The place of a value of type `T`.
    pub fn of<T>() -> (slot: Self)
        ensures
            slot.bytes() == vstd::layout::size_of::<T>(),
    {
        Slot { size: core::mem::size_of::<T>() }
    }
}

impl AsPages for Slot {
    open spec fn payload_size(&self) -> nat {
        self.bytes() as nat
    }

    open spec fn pages_size(&self, geometry: Geometry) -> nat {
        if self.payload_size() > 0 {
            align_up(self.payload_size(), geometry.page() as nat)
        } else {
            0
        }
    }

    fn payload(&self) -> (size: Option<usize>) {
        Some(self.size)
    }

    fn as_pages(&self, base: usize, geometry: Geometry) -> (pages: Option<Pages>) {
        let size = self.size;
        if size > 0 {
            proof {
                use_type_invariant(geometry);
                geometry.lemma_units();
                lemma_frame(1, size as nat, geometry);
                lemma_align_up(size as nat, geometry.page() as nat);
                lemma_align_up_least(
                    size as nat,
                    geometry.page() as nat,
                    inner_bytes(1, size as nat, geometry),
                );
            }
            Some(Pages::from_raw_parts(base, Pages::align(&geometry, size), geometry))
        } else {
            None
        }
    }
}

impl<T> AsPages for InnerBox<T> {
    open spec fn payload_size(&self) -> nat {
        vstd::layout::size_of::<T>()
    }

    open spec fn pages_size(&self, geometry: Geometry) -> nat {
        if self.payload_size() > 0 {
            align_up(self.payload_size(), geometry.page() as nat)
        } else {
            0
        }
    }

    fn payload(&self) -> (size: Option<usize>) {
        Slot::of::<T>().payload()
    }

    fn as_pages(&self, base: usize, geometry: Geometry) -> (pages: Option<Pages>) {
        Slot::of::<T>().as_pages(base, geometry)
    }
}

impl<T> InnerBox<T> {
    /// The value.
    pub fn get(&self) -> (value: &T)
        ensures
            *value == self@,
    {
        &self.value
    }

    /// Puts `value` in the place of the value.
    pub fn set(&mut self, value: T)
        ensures
            final(self)@ == value,
    {
        self.value = value;
    }
}

impl<T> Box<T> {
    /// A guarded box that holds `source`, and is locked.
    pub fn new_without_clear(source: T) -> (boxed: Self)
        ensures
            boxed@ == (GuardState { word: 0, protection: Protection::NoAccess }),
            boxed.payload()@ == source,
    {
        let mut guard = Guard::from_inner(InnerBox { value: source });
        guard.lock();
        guard
    }

    /// A guarded box that holds `source`, and is locked. The value is moved
    /// in: the caller keeps nothing of it.
    pub fn new(source: T) -> (boxed: Self)
        ensures
            boxed@ == (GuardState { word: 0, protection: Protection::NoAccess }),
            boxed.payload()@ == source,
    {
        Self::new_without_clear(source)
    }
}

impl<'t, T> Ref<'t, InnerBox<T>> {
    /// The value.
    #[inline]
    pub fn get(&self) -> (value: &T)
        ensures
            *value == self.guard().payload()@,
    {
        self.inner().get()
    }
}

impl<'t, T> RefMut<'t, InnerBox<T>> {
    /// The value.
    #[inline]
    pub fn get(&self) -> (value: &T)
        ensures
            *value == self.guard().payload()@,
    {
        self.inner().get()
    }

    /// Puts `value` in the place of the value.
    #[inline]
    pub fn set(&mut self, value: T)
        ensures
            final(self).guard().payload()@ == value,
            final(self).guard()@ == old(self).guard()@,
    {
        self.inner_mut().set(value);
    }
}

impl<T: Default> Default for Box<T> {
    fn default() -> (boxed: Self)
        ensures
            boxed@ == (GuardState { word: 0, protection: Protection::NoAccess }),
    {
        Self::new_without_clear(T::default())
    }
}

} // verus!
