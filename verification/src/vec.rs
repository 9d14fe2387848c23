//! Guarded vector type.

use vstd::prelude::*;
use vstd::std_specs::convert::IntoSpec;
use crate::guard::{Guard, GuardState, Ref, RefMut};
use crate::pages::{Geometry, GuardedAlloc, Pages, Protection, inner_bytes};
use crate::auxiliary::{zero, zeroes};
use crate::refs::idle;
use crate::traits::AsPages;

verus! {

/// The smallest capacity of a vector that holds anything: a comparison runs
/// over at least this many places.
pub const CMP_MIN: usize = 32;

/// The capacity that is made for `wanted` places: none for none, else at
/// least `CMP_MIN`.
pub open spec fn capacity_for(wanted: nat) -> nat {
    if wanted == 0 {
        0
    } else if wanted < CMP_MIN {
        CMP_MIN as nat
    } else {
        wanted
    }
}

/// The capacity that a full vector of capacity `capacity` grows to: twice as
/// much, as far as the machine word allows.
pub open spec fn grown(capacity: nat) -> nat {
    if capacity == 0 {
        CMP_MIN as nat
    } else if 2 * capacity <= usize::MAX {
        2 * capacity
    } else {
        usize::MAX as nat
    }
}

/// What is left of `behind` once `count` more places hold items: the places
/// behind the items are taken from the front.
pub open spec fn overwritten<T>(behind: Seq<T>, count: nat) -> Seq<T> {
    if count <= behind.len() {
        behind.skip(count as int)
    } else {
        Seq::empty()
    }
}

/// The vector under the guard: its items, what the places directly behind
/// the items are known to hold, nearest first, and the number of places that
/// its buffer has.
#[derive(Debug)]
pub struct InnerVec<T> {
    data: std::vec::Vec<T>,
    behind: std::vec::Vec<T>,
    capacity: usize,
}

/// Guarded vector type.
pub type Vec<T> = Guard<InnerVec<T>>;

impl<T> View for InnerVec<T> {
    type V = Seq<T>;

    closed spec fn view(&self) -> Seq<T> {
        self.data@
    }
}

impl<T> InnerVec<T> {
    /// The number of places of the buffer.
    pub closed spec fn cap(self) -> usize {
        self.capacity
    }

    /// What the places directly behind the items are known to hold, nearest
    /// first. A place that an item left by a move, and every place of a fresh
    /// buffer, is not among them.
    pub closed spec fn behind(self) -> Seq<T> {
        self.behind@
    }

    /// What the functions of a vector keep: the items and the places behind
    /// them fit the buffer, and a buffer has no places or at least `CMP_MIN`.
    pub open spec fn sound(self) -> bool {
        &&& self@.len() + self.behind().len() <= self.cap()
        &&& self.cap() == 0 || self.cap() >= CMP_MIN
    }

    /// An empty vector without buffer.
    pub fn new() -> (vec: Self)
        ensures
            vec@ == Seq::<T>::empty(),
            vec.behind() == Seq::<T>::empty(),
            vec.cap() == 0,
            vec.sound(),
    {
        InnerVec { data: std::vec::Vec::new(), behind: std::vec::Vec::new(), capacity: 0 }
    }

    /// An empty vector with a buffer for `capacity` items.
    pub fn with_capacity(capacity: usize) -> (vec: Self)
        ensures
            vec@ == Seq::<T>::empty(),
            vec.behind() == Seq::<T>::empty(),
            vec.cap() == capacity_for(capacity as nat),
            vec.sound(),
    {
        let capacity = if capacity == 0 {
            0
        } else if capacity < CMP_MIN {
            CMP_MIN
        } else {
            capacity
        };
        InnerVec {
            data: std::vec::Vec::with_capacity(capacity),
            behind: std::vec::Vec::new(),
            capacity,
        }
    }

    /// The number of places of the buffer.
    #[inline]
    pub fn capacity(&self) -> (capacity: usize)
        ensures
            capacity == self.cap(),
    {
        self.capacity
    }

    /// The number of items.
    #[inline]
    pub fn len(&self) -> (len: usize)
        ensures
            len == self@.len(),
    {
        self.data.len()
    }

    /// Whether there is no item.
    #[inline]
    pub fn is_empty(&self) -> (empty: bool)
        ensures
            empty == (self@.len() == 0),
    {
        self.data.len() == 0
    }

    /// The items.
    #[inline]
    pub fn as_slice(&self) -> (slice: &[T])
        ensures
            slice@ == self@,
    {
        self.data.as_slice()
    }

    /// What the places directly behind the items are known to hold, nearest
    /// first.
    #[inline]
    pub fn spare(&self) -> (slice: &[T])
        ensures
            slice@ == self.behind(),
    {
        self.behind.as_slice()
    }

    /// Makes room for `additional` more items. The items stay. A buffer that
    /// has the room stays as it is; a new one holds nothing known behind the
    /// items.
    pub fn reserve(&mut self, additional: usize)
        requires
            old(self).sound(),
            old(self)@.len() + additional <= usize::MAX,
        ensures
            final(self)@ == old(self)@,
            final(self).cap() == if old(self)@.len() + additional <= old(self).cap() {
                old(self).cap() as nat
            } else {
                capacity_for((old(self)@.len() + additional) as nat)
            },
            final(self).behind() == if old(self)@.len() + additional <= old(self).cap() {
                old(self).behind()
            } else {
                Seq::<T>::empty()
            },
            final(self).sound(),
    {
        let wanted = self.data.len() + additional;
        if wanted > self.capacity {
            self.data.reserve(additional);
            self.behind.clear();
            self.capacity = if wanted < CMP_MIN {
                CMP_MIN
            } else {
                wanted
            };
        }
    }

    /// Makes room for `additional` more items, as `reserve` does.
    pub fn reserve_exact(&mut self, additional: usize)
        requires
            old(self).sound(),
            old(self)@.len() + additional <= usize::MAX,
        ensures
            final(self)@ == old(self)@,
            final(self).cap() == if old(self)@.len() + additional <= old(self).cap() {
                old(self).cap() as nat
            } else {
                capacity_for((old(self)@.len() + additional) as nat)
            },
            final(self).behind() == if old(self)@.len() + additional <= old(self).cap() {
                old(self).behind()
            } else {
                Seq::<T>::empty()
            },
            final(self).sound(),
    {
        self.reserve(additional);
    }

    /// Appends `value`, in the first place behind the items. A full buffer
    /// grows first.
    pub fn push(&mut self, value: T)
        requires
            old(self).sound(),
        ensures
            final(self)@ == old(self)@.push(value),
            final(self).cap() == if old(self)@.len() < old(self).cap() {
                old(self).cap() as nat
            } else {
                grown(old(self).cap() as nat)
            },
            final(self).behind() == overwritten(old(self).behind(), 1),
            final(self).sound(),
    {
        if self.data.len() == self.capacity {
            assert(self.behind@ =~= Seq::<T>::empty());
            self.capacity = if self.capacity == 0 {
                CMP_MIN
            } else if self.capacity <= usize::MAX / 2 {
                2 * self.capacity
            } else {
                usize::MAX
            };
        } else if self.behind.len() > 0 {
            let rest = self.behind.split_off(1);
            self.behind = rest;
            assert(self.behind@ =~= old(self).behind().skip(1));
        } else {
            assert(self.behind@ =~= Seq::<T>::empty());
        }
        self.data.push(value);
        assert(self.data@.len() == self.data.len());
    }

    /// Takes the last item off, if there is one. The buffer stays. The item
    /// is moved out of its place, so that nothing is known of the places
    /// behind the items afterwards.
    pub fn pop(&mut self) -> (value: Option<T>)
        requires
            old(self).sound(),
        ensures
            old(self)@.len() > 0 ==> value == Some(old(self)@.last()) && final(self)@ == old(self)@.drop_last()
                && final(self).behind() == Seq::<T>::empty(),
            old(self)@.len() == 0 ==> value is None && final(self)@ == old(self)@ && final(self).behind() == old(self).behind(),
            final(self).cap() == old(self).cap(),
            final(self).sound(),
    {
        if self.data.len() > 0 {
            self.behind.clear();
        }
        self.data.pop()
    }

    /// Puts `value` in the place of item number `index`.
    pub fn set(&mut self, index: usize, value: T)
        requires
            old(self).sound(),
            index < old(self)@.len(),
        ensures
            final(self)@ == old(self)@.update(index as int, value),
            final(self).cap() == old(self).cap(),
            final(self).behind() == old(self).behind(),
            final(self).sound(),
    {
        self.data[index] = value;
    }

    /// Cuts the buffer down to what the items need. A buffer that is cut
    /// holds nothing known behind the items.
    pub fn shrink_to_fit(&mut self)
        requires
            old(self).sound(),
        ensures
            final(self)@ == old(self)@,
            final(self).cap() == capacity_for(old(self)@.len()),
            final(self).behind() == if capacity_for(old(self)@.len()) == old(self).cap() {
                old(self).behind()
            } else {
                Seq::<T>::empty()
            },
            final(self).sound(),
    {
        let len = self.data.len();
        let capacity = if len == 0 {
            0
        } else if len < CMP_MIN {
            CMP_MIN
        } else {
            len
        };
        if capacity != self.capacity {
            self.behind.clear();
            self.capacity = capacity;
        }
    }
}

impl<T> InnerVec<T> {
    /// Appends all of `items`, in their order.
    pub fn extend(&mut self, items: std::vec::Vec<T>)
        requires
            old(self).sound(),
        ensures
            final(self)@ == old(self)@ + items@,
            final(self).cap() == if old(self)@.len() + items@.len() <= old(self).cap() {
                old(self).cap() as nat
            } else {
                capacity_for((old(self)@.len() + items@.len()) as nat)
            },
            final(self).behind() == overwritten(old(self).behind(), items@.len()),
            final(self).sound(),
    {
        let mut items = items;
        let count = items.len();
        if count <= self.behind.len() {
            let rest = self.behind.split_off(count);
            self.behind = rest;
            assert(self.behind@ =~= old(self).behind().skip(count as int));
        } else {
            self.behind.clear();
        }
        self.data.append(&mut items);
        assert(self.data@.len() == self.data.len());
        let len = self.data.len();
        if len > self.capacity {
            self.capacity = if len < CMP_MIN {
                CMP_MIN
            } else {
                len
            };
        }
    }
}

impl<T: Copy> InnerVec<T> {
    /// Makes the vector `len` items long: items behind `len` go, and stay in
    /// their places behind the items; places that are missing are filled with
    /// `value`.
    pub fn resize(&mut self, len: usize, value: T)
        requires
            old(self).sound(),
        ensures
            final(self)@ == if len <= old(self)@.len() {
                old(self)@.take(len as int)
            } else {
                old(self)@ + Seq::new((len - old(self)@.len()) as nat, |i: int| value)
            },
            final(self).cap() == if len <= old(self).cap() {
                old(self).cap() as nat
            } else {
                capacity_for(len as nat)
            },
            final(self).behind() == if len <= old(self)@.len() {
                old(self)@.skip(len as int) + old(self).behind()
            } else if len <= old(self).cap() {
                overwritten(old(self).behind(), (len - old(self)@.len()) as nat)
            } else {
                Seq::<T>::empty()
            },
            final(self).sound(),
    {
        let before = self.data.len();
        if len <= before {
            let mut gone = self.data.split_off(len);
            gone.append(&mut self.behind);
            self.behind = gone;
            assert(self.data@ =~= old(self)@.take(len as int));
            assert(self.behind@ =~= old(self)@.skip(len as int) + old(self).behind());
        } else {
            self.reserve(len - before);
            let mut filling: std::vec::Vec<T> = std::vec::Vec::new();
            let mut i: usize = before;
            while i < len
                invariant
                    before <= i <= len,
                    filling@ == Seq::new((i - before) as nat, |j: int| value),
                decreases len - i,
            {
                filling.push(value);
                i += 1;
                assert(filling@ =~= Seq::new((i - before) as nat, |j: int| value));
            }
            self.extend(filling);
        }
    }
}

impl<T> AsPages for InnerVec<T> {
    open spec fn payload_size(&self) -> nat {
        self.cap() as nat * vstd::layout::size_of::<T>()
    }

    open spec fn pages_size(&self, geometry: Geometry) -> nat {
        if self.payload_size() > 0 {
            inner_bytes(1, self.payload_size(), geometry)
        } else {
            0
        }
    }

    fn payload(&self) -> (size: Option<usize>) {
        let item = core::mem::size_of::<T>();
        let size = self.capacity.checked_mul(item);
        proof {
            assert(self.capacity as nat * item as nat == self.capacity * item) by (nonlinear_arith);
        }
        size
    }

    fn as_pages(&self, base: usize, geometry: Geometry) -> (pages: Option<Pages>) {
        let size = core::mem::size_of::<T>();
        if self.capacity > 0 && size > 0 {
            proof {
                assert(self.capacity as nat * size as nat > 0) by (nonlinear_arith)
                    requires
                        self.capacity > 0,
                        size > 0,
                ;
                use_type_invariant(geometry);
                crate::pages::lemma_frame(1, self.payload_size(), geometry);
            }
            let bytes = self.capacity * size;
            Some(GuardedAlloc::<1>::pages_at(base, bytes, geometry))
        } else {
            proof {
                assert(self.capacity == 0 || size == 0 ==> self.capacity as nat * size as nat == 0)
                    by (nonlinear_arith);
            }
            None
        }
    }
}

/// Two words are both zero exactly where their bitwise or is zero.
proof fn lemma_or_zero(a: usize, b: usize)
    ensures
        (a | b) == 0 <==> a == 0 && b == 0,
{
    assert((a | b) == 0 <==> a == 0 && b == 0) by (bit_vector);
}

/// Two words are equal exactly where their bitwise exclusive or is zero.
proof fn lemma_xor_zero(a: usize, b: usize)
    ensures
        (a ^ b) == 0 <==> a == b,
{
    assert((a ^ b) == 0 <==> a == b) by (bit_vector);
}

/// The numbers that stand for `items` in a comparison: what `into` makes of
/// each.
pub open spec fn numbers<T: Into<usize>>(items: Seq<T>) -> Seq<usize> {
    Seq::new(items.len(), |i: int| items[i].into_spec())
}

/// The number at place `i` of a buffer that holds `items`: places behind the
/// items count as zero.
pub open spec fn place<T: Into<usize>>(items: Seq<T>, i: int) -> usize {
    if 0 <= i < items.len() {
        items[i].into_spec()
    } else {
        0usize
    }
}

impl<T: Copy + Into<usize>> InnerVec<T> {
    /// Compares the items with `other`, as numbers. Two vectors without
    /// buffer and without items need no look. Else the comparison looks at
    /// every place up to the shorter of `other` and the buffer, whatever it
    /// finds, and folds the differences and the difference of the lengths
    /// into one word.
    pub fn eq_slice<U: Copy + Into<usize>>(&self, other: &[U]) -> (equal: bool)
        ensures
            T::obeys_into_spec() && U::obeys_into_spec() ==> equal == (numbers(self@) == numbers(
                other@,
            )),
    {
        let len = self.data.len();
        assert(numbers(self@).len() == self@.len());
        assert(numbers(other@).len() == other@.len());
        if self.capacity == 0 && len == 0 {
            assert(other@.len() == 0 ==> numbers(self@) =~= numbers(other@));
            other.len() == 0
        } else {
            let room = if self.capacity < len {
                len
            } else {
                self.capacity
            };
            let places = if other.len() < room {
                other.len()
            } else {
                room
            };
            let mut folded: usize = 0;
            let mut i: usize = 0;
            while i < places
                invariant
                    i <= places,
                    places <= other@.len(),
                    len == self.data@.len(),
                    T::obeys_into_spec() && U::obeys_into_spec() ==> (folded == 0 <==> forall|
                        j: int,
                    |
                        0 <= j < i ==> place(self.data@, j) == #[trigger] numbers(other@)[j]),
                decreases places - i,
            {
                let mine: usize = if i < len {
                    self.data[i].into()
                } else {
                    0
                };
                let theirs: usize = other[i].into();
                let ghost before = folded;
                folded = folded | (mine ^ theirs);
                proof {
                    lemma_or_zero(before, mine ^ theirs);
                    lemma_xor_zero(mine, theirs);
                    if T::obeys_into_spec() && U::obeys_into_spec() {
                        assert(mine == place(self.data@, i as int));
                        assert(theirs == numbers(other@)[i as int]);
                        if folded == 0 {
                            assert forall|j: int| 0 <= j < i + 1 implies place(self.data@, j)
                                == #[trigger] numbers(other@)[j] by {
                                if j == i {
                                }
                            }
                        } else {
                            if before == 0 {
                                assert(place(self.data@, i as int) != numbers(other@)[i as int]);
                            }
                        }
                    }
                }
                i += 1;
            }
            let apart = if len < other.len() {
                other.len() - len
            } else {
                len - other.len()
            };
            proof {
                lemma_or_zero(folded, apart);
                if T::obeys_into_spec() && U::obeys_into_spec() {
                    if folded == 0 && apart == 0 {
                        assert forall|j: int| 0 <= j < len implies numbers(self@)[j] == numbers(
                            other@,
                        )[j] by {
                            assert(place(self.data@, j) == numbers(other@)[j]);
                        }
                        assert(numbers(self@) =~= numbers(other@));
                    }
                    if numbers(self@) == numbers(other@) {
                        assert(self@.len() == numbers(self@).len());
                        assert(other@.len() == numbers(other@).len());
                        assert forall|j: int| 0 <= j < places implies place(self.data@, j)
                            == #[trigger] numbers(other@)[j] by {
                            assert(numbers(self@)[j] == place(self.data@, j));
                        }
                    }
                }
            }
            (folded | apart) == 0
        }
    }
}

/// Bytes are equal exactly where the numbers that stand for them are.
pub proof fn lemma_numbers_of_bytes(first: Seq<u8>, second: Seq<u8>)
    ensures
        (numbers(first) == numbers(second)) == (first == second),
        <u8 as IntoSpec<usize>>::obeys_into_spec(),
{
    if numbers(first) == numbers(second) {
        assert(first.len() == numbers(first).len());
        assert(second.len() == numbers(second).len());
        assert forall|i: int| 0 <= i < first.len() implies first[i] == second[i] by {
            assert(numbers(first)[i] == first[i] as usize);
            assert(numbers(second)[i] == second[i] as usize);
        }
        assert(first =~= second);
    }
}

impl InnerVec<u8> {
    /// Compares the bytes with `other`, as `eq_slice` does.
    pub fn eq_bytes(&self, other: &[u8]) -> (equal: bool)
        ensures
            equal == (self@ == other@),
    {
        proof {
            lemma_numbers_of_bytes(self@, other@);
        }
        self.eq_slice(other)
    }
}

/// The word at place `i` of a buffer that holds `items`: places behind the
/// items count as zero.
pub open spec fn word_at(items: Seq<usize>, i: int) -> usize {
    if 0 <= i < items.len() {
        items[i]
    } else {
        0usize
    }
}

impl InnerVec<usize> {
    /// Compares the words with `other`, in the way of `eq_slice`: no look for
    /// two vectors without buffer and without items, else a look at every
    /// place up to the shorter of `other` and the buffer, whatever it finds.
    pub fn eq_words(&self, other: &[usize]) -> (equal: bool)
        ensures
            equal == (self@ == other@),
    {
        let len = self.data.len();
        if self.capacity == 0 && len == 0 {
            assert(other@.len() == 0 ==> self@ =~= other@);
            other.len() == 0
        } else {
            let room = if self.capacity < len {
                len
            } else {
                self.capacity
            };
            let places = if other.len() < room {
                other.len()
            } else {
                room
            };
            let mut folded: usize = 0;
            let mut i: usize = 0;
            while i < places
                invariant
                    i <= places,
                    places <= other@.len(),
                    len == self.data@.len(),
                    folded == 0 <==> forall|j: int|
                        0 <= j < i ==> word_at(self.data@, j) == #[trigger] other@[j],
                decreases places - i,
            {
                let mine: usize = if i < len {
                    self.data[i]
                } else {
                    0
                };
                let theirs: usize = other[i];
                let ghost before = folded;
                folded = folded | (mine ^ theirs);
                proof {
                    lemma_or_zero(before, mine ^ theirs);
                    lemma_xor_zero(mine, theirs);
                    assert(mine == word_at(self.data@, i as int));
                    if folded == 0 {
                        assert forall|j: int| 0 <= j < i + 1 implies word_at(self.data@, j)
                            == #[trigger] other@[j] by {
                            if j == i {
                            }
                        }
                    } else {
                        if before == 0 {
                            assert(word_at(self.data@, i as int) != other@[i as int]);
                        }
                    }
                }
                i += 1;
            }
            let apart = if len < other.len() {
                other.len() - len
            } else {
                len - other.len()
            };
            proof {
                lemma_or_zero(folded, apart);
                if folded == 0 && apart == 0 {
                    assert forall|j: int| 0 <= j < len implies self@[j] == other@[j] by {
                        assert(word_at(self.data@, j) == other@[j]);
                    }
                    assert(self@ =~= other@);
                }
                if self@ == other@ {
                    assert forall|j: int| 0 <= j < places implies word_at(self.data@, j)
                        == #[trigger] other@[j] by {
                    }
                }
            }
            (folded | apart) == 0
        }
    }
}

impl<T: Copy + Into<usize>> Vec<T> {
    /// Compares the items with `other` under a shared borrow of its own: it
    /// takes the borrow, compares as `InnerVec::eq_slice` does, and gives the
    /// borrow back.
    pub fn eq_slice<U: Copy + Into<usize>>(&mut self, other: &[U]) -> (equal: bool)
        requires
            old(self)@.can_acquire(),
        ensures
            T::obeys_into_spec() && U::obeys_into_spec() ==> equal == (numbers(
                old(self).payload()@,
            ) == numbers(other@)),
            final(self)@ == old(self)@.acquired().released(),
            idle(old(self)@.word) ==> final(self)@ == (GuardState {
                word: 0,
                protection: Protection::NoAccess,
            }),
            final(self).payload() == old(self).payload(),
    {
        self.acquire();
        let equal = self.inner().eq_slice(other);
        self.release();
        equal
    }
}

impl Vec<usize> {
    /// Compares the words with `other` under a shared borrow of its own, as
    /// `InnerVec::eq_words` does.
    pub fn eq_words(&mut self, other: &[usize]) -> (equal: bool)
        requires
            old(self)@.can_acquire(),
        ensures
            equal == (old(self).payload()@ == other@),
            final(self)@ == old(self)@.acquired().released(),
            idle(old(self)@.word) ==> final(self)@ == (GuardState {
                word: 0,
                protection: Protection::NoAccess,
            }),
            final(self).payload() == old(self).payload(),
    {
        self.acquire();
        let equal = self.inner().eq_words(other);
        self.release();
        equal
    }
}

impl<T> Vec<T> {
    /// An empty guarded vector without buffer.
    pub fn new() -> (vec: Self)
        ensures
            vec@ == (GuardState { word: 0, protection: Protection::NoAccess }),
            vec.payload()@ == Seq::<T>::empty(),
            vec.payload().behind() == Seq::<T>::empty(),
            vec.payload().cap() == 0,
            vec.payload().sound(),
    {
        let mut guard = Guard::from_inner(InnerVec::new());
        guard.lock();
        guard
    }

    /// An empty guarded vector with a buffer for `capacity` items, which is
    /// not locked yet.
    pub fn with_capacity_unprotected(capacity: usize) -> (vec: Self)
        ensures
            vec@ == (GuardState { word: 0, protection: Protection::ReadWrite }),
            vec.payload()@ == Seq::<T>::empty(),
            vec.payload().behind() == Seq::<T>::empty(),
            vec.payload().cap() == capacity_for(capacity as nat),
            vec.payload().sound(),
    {
        Guard::from_inner(InnerVec::with_capacity(capacity))
    }

    /// An empty guarded vector with a buffer for `capacity` items.
    pub fn with_capacity(capacity: usize) -> (vec: Self)
        ensures
            vec@ == (GuardState { word: 0, protection: Protection::NoAccess }),
            vec.payload()@ == Seq::<T>::empty(),
            vec.payload().behind() == Seq::<T>::empty(),
            vec.payload().cap() == capacity_for(capacity as nat),
            vec.payload().sound(),
    {
        let mut guard = Self::with_capacity_unprotected(capacity);
        guard.lock();
        guard
    }

    /// The number of places of the buffer.
    #[inline]
    pub fn capacity(&self) -> (capacity: usize)
        ensures
            capacity == self.payload().cap(),
    {
        self.inner().capacity()
    }

    /// The number of items.
    #[inline]
    pub fn len(&self) -> (len: usize)
        ensures
            len == self.payload()@.len(),
    {
        self.inner().len()
    }

    /// Whether there is no item.
    #[inline]
    pub fn is_empty(&self) -> (empty: bool)
        ensures
            empty == (self.payload()@.len() == 0),
    {
        self.inner().is_empty()
    }

    /// Makes room for `capacity` more items while nothing is borrowed, and
    /// locks the buffer that comes out of it.
    pub fn reserve(&mut self, capacity: usize)
        requires
            idle(old(self)@.word),
            old(self).payload().sound(),
            old(self).payload()@.len() + capacity <= usize::MAX,
        ensures
            final(self)@ == (GuardState { word: 0, protection: Protection::NoAccess }),
            final(self).payload()@ == old(self).payload()@,
            final(self).payload().cap() == if old(self).payload()@.len() + capacity <= old(self).payload().cap() {
                old(self).payload().cap() as nat
            } else {
                capacity_for((old(self).payload()@.len() + capacity) as nat)
            },
            final(self).payload().behind() == if old(self).payload()@.len() + capacity <= old(self).payload().cap() {
                old(self).payload().behind()
            } else {
                Seq::<T>::empty()
            },
            final(self).payload().sound(),
    {
        self.inner_mut().reserve(capacity);
        self.lock();
    }

    /// Makes room for `capacity` more items while nothing is borrowed, and
    /// locks the buffer that comes out of it.
    pub fn reserve_exact(&mut self, capacity: usize)
        requires
            idle(old(self)@.word),
            old(self).payload().sound(),
            old(self).payload()@.len() + capacity <= usize::MAX,
        ensures
            final(self)@ == (GuardState { word: 0, protection: Protection::NoAccess }),
            final(self).payload()@ == old(self).payload()@,
            final(self).payload().cap() == if old(self).payload()@.len() + capacity <= old(self).payload().cap() {
                old(self).payload().cap() as nat
            } else {
                capacity_for((old(self).payload()@.len() + capacity) as nat)
            },
            final(self).payload().behind() == if old(self).payload()@.len() + capacity <= old(self).payload().cap() {
                old(self).payload().behind()
            } else {
                Seq::<T>::empty()
            },
            final(self).payload().sound(),
    {
        self.inner_mut().reserve_exact(capacity);
        self.lock();
    }
}

impl Vec<u8> {
    /// Compares the bytes with `other` under a shared borrow of its own, as
    /// `InnerVec::eq_slice` does.
    pub fn eq_bytes(&mut self, other: &[u8]) -> (equal: bool)
        requires
            old(self)@.can_acquire(),
        ensures
            equal == (old(self).payload()@ == other@),
            final(self)@ == old(self)@.acquired().released(),
            idle(old(self)@.word) ==> final(self)@ == (GuardState {
                word: 0,
                protection: Protection::NoAccess,
            }),
            final(self).payload() == old(self).payload(),
    {
        self.acquire();
        let equal = self.inner().eq_bytes(other);
        self.release();
        equal
    }

    /// Compares the bytes with the bytes of `other` under a shared borrow of
    /// its own, as `InnerVec::eq_slice` does.
    pub fn eq_str(&mut self, other: &str) -> (equal: bool)
        requires
            old(self)@.can_acquire(),
        ensures
            equal == (old(self).payload()@ == vstd::utf8::encode_utf8(other@)),
            final(self)@ == old(self)@.acquired().released(),
            idle(old(self)@.word) ==> final(self)@ == (GuardState {
                word: 0,
                protection: Protection::NoAccess,
            }),
            final(self).payload() == old(self).payload(),
    {
        self.eq_bytes(other.as_bytes())
    }

    /// Moves the bytes of `source` into a guarded vector, which it locks, and
    /// wipes `source`.
    pub fn from_slice(source: &mut [u8]) -> (vec: Self)
        ensures
            vec@ == (GuardState { word: 0, protection: Protection::NoAccess }),
            vec.payload()@ == old(source)@,
            vec.payload().behind() == Seq::<u8>::empty(),
            vec.payload().cap() == capacity_for(old(source)@.len()),
            vec.payload().sound(),
            final(source)@ == zeroes(old(source)@.len()),
    {
        let len = source.len();
        let mut guard = Self::with_capacity_unprotected(len);
        let mut i: usize = 0;
        while i < len
            invariant
                i <= len,
                len == source@.len(),
                source@ == old(source)@,
                guard@ == (GuardState { word: 0, protection: Protection::ReadWrite }),
                guard.payload().sound(),
                guard.payload().cap() == capacity_for(len as nat),
                guard.payload().behind() == Seq::<u8>::empty(),
                guard.payload()@ == source@.take(i as int),
            decreases len - i,
        {
            let byte = source[i];
            guard.inner_mut().push(byte);
            i += 1;
            assert(guard.payload()@ =~= source@.take(i as int));
        }
        assert(source@.take(len as int) =~= source@);
        zero(source);
        guard.lock();
        guard
    }

    /// Moves the bytes of `source` into a guarded vector, which it locks, and
    /// wipes the buffer of `source` before that is freed.
    pub fn from_vec(source: std::vec::Vec<u8>) -> (vec: Self)
        ensures
            vec@ == (GuardState { word: 0, protection: Protection::NoAccess }),
            vec.payload()@ == source@,
            vec.payload().behind() == Seq::<u8>::empty(),
            vec.payload().cap() == capacity_for(source@.len()),
            vec.payload().sound(),
    {
        let mut source = source;
        Self::from_slice(source.as_mut_slice())
    }

    /// Moves the bytes of the text `source` into a guarded vector, which it
    /// locks, and wipes the buffer of `source` before that is freed.
    pub fn from_string(source: std::string::String) -> (vec: Self)
        ensures
            vec@ == (GuardState { word: 0, protection: Protection::NoAccess }),
            vec.payload()@ == vstd::utf8::encode_utf8(source@),
            vec.payload().behind() == Seq::<u8>::empty(),
            vec.payload().cap() == capacity_for(vstd::utf8::encode_utf8(source@).len()),
            vec.payload().sound(),
    {
        Self::from_vec(into_bytes(source))
    }
}

/// `String::into_bytes`: the bytes of the text, which are its UTF-8 encoding,
/// in the buffer that the text had.
#[verifier::external_body]
pub(crate) fn into_bytes(source: std::string::String) -> (bytes: std::vec::Vec<u8>)
    ensures
        bytes@ == vstd::utf8::encode_utf8(source@),
{
    source.into_bytes()
}

impl<'t, T> Ref<'t, InnerVec<T>> {
    /// The items.
    #[inline]
    pub fn as_slice(&self) -> (slice: &[T])
        ensures
            slice@ == self.guard().payload()@,
    {
        self.inner().as_slice()
    }

    /// The number of items.
    #[inline]
    pub fn len(&self) -> (len: usize)
        ensures
            len == self.guard().payload()@.len(),
    {
        self.inner().len()
    }
}

impl<'t, T: Copy + Into<usize>> Ref<'t, InnerVec<T>> {
    /// Compares the items with `other`, as `InnerVec::eq_slice` does.
    #[inline]
    pub fn eq_slice<U: Copy + Into<usize>>(&self, other: &[U]) -> (equal: bool)
        ensures
            T::obeys_into_spec() && U::obeys_into_spec() ==> equal == (numbers(
                self.guard().payload()@,
            ) == numbers(other@)),
    {
        self.inner().eq_slice(other)
    }
}

impl<'t> Ref<'t, InnerVec<usize>> {
    /// Compares the words with `other`, as `InnerVec::eq_words` does.
    #[inline]
    pub fn eq_words(&self, other: &[usize]) -> (equal: bool)
        ensures
            equal == (self.guard().payload()@ == other@),
    {
        self.inner().eq_words(other)
    }
}

impl<'t> Ref<'t, InnerVec<u8>> {
    /// Compares the bytes with `other`, as `InnerVec::eq_slice` does.
    #[inline]
    pub fn eq_bytes(&self, other: &[u8]) -> (equal: bool)
        ensures
            equal == (self.guard().payload()@ == other@),
    {
        self.inner().eq_bytes(other)
    }

    /// Compares the bytes with the bytes of `other`, as `InnerVec::eq_slice`
    /// does.
    #[inline]
    pub fn eq_str(&self, other: &str) -> (equal: bool)
        ensures
            equal == (self.guard().payload()@ == vstd::utf8::encode_utf8(other@)),
    {
        self.inner().eq_bytes(other.as_bytes())
    }
}

impl<'t, T> RefMut<'t, InnerVec<T>> {
    /// The items.
    #[inline]
    pub fn as_slice(&self) -> (slice: &[T])
        ensures
            slice@ == self.guard().payload()@,
    {
        self.inner().as_slice()
    }

    /// The number of items.
    #[inline]
    pub fn len(&self) -> (len: usize)
        ensures
            len == self.guard().payload()@.len(),
    {
        self.inner().len()
    }

    /// Appends `value`. A full buffer grows first.
    #[inline]
    pub fn push(&mut self, value: T)
        requires
            old(self).guard().payload().sound(),
        ensures
            final(self).guard().payload()@ == old(self).guard().payload()@.push(value),
            final(self).guard().payload().cap() == if old(self).guard().payload()@.len() < old(self).guard().payload().cap() {
                old(self).guard().payload().cap() as nat
            } else {
                grown(old(self).guard().payload().cap() as nat)
            },
            final(self).guard().payload().behind() == overwritten(
                old(self).guard().payload().behind(),
                1,
            ),
            final(self).guard().payload().sound(),
            final(self).guard()@ == old(self).guard()@,
    {
        self.inner_mut().push(value);
    }

    /// Takes the last item off, if there is one.
    #[inline]
    pub fn pop(&mut self) -> (value: Option<T>)
        requires
            old(self).guard().payload().sound(),
        ensures
            old(self).guard().payload()@.len() > 0 ==> value == Some(
                old(self).guard().payload()@.last(),
            ) && final(self).guard().payload()@ == old(self).guard().payload()@.drop_last()
                && final(self).guard().payload().behind() == Seq::<T>::empty(),
            old(self).guard().payload()@.len() == 0 ==> value is None && final(self).guard().payload()@ == old(self).guard().payload()@ && final(self).guard().payload().behind() == old(self).guard().payload().behind(),
            final(self).guard().payload().cap() == old(self).guard().payload().cap(),
            final(self).guard().payload().sound(),
            final(self).guard()@ == old(self).guard()@,
    {
        self.inner_mut().pop()
    }

    /// Cuts the buffer down to what the items need.
    #[inline]
    pub fn shrink_to_fit(&mut self)
        requires
            old(self).guard().payload().sound(),
        ensures
            final(self).guard().payload()@ == old(self).guard().payload()@,
            final(self).guard().payload().cap() == capacity_for(
                old(self).guard().payload()@.len(),
            ),
            final(self).guard().payload().behind() == if capacity_for(
                old(self).guard().payload()@.len(),
            ) == old(self).guard().payload().cap() {
                old(self).guard().payload().behind()
            } else {
                Seq::<T>::empty()
            },
            final(self).guard().payload().sound(),
            final(self).guard()@ == old(self).guard()@,
    {
        self.inner_mut().shrink_to_fit();
    }

    /// Appends all of `items`, in their order.
    #[inline]
    pub fn extend(&mut self, items: std::vec::Vec<T>)
        requires
            old(self).guard().payload().sound(),
        ensures
            final(self).guard().payload()@ == old(self).guard().payload()@ + items@,
            final(self).guard().payload().cap() == if old(self).guard().payload()@.len()
                + items@.len() <= old(self).guard().payload().cap() {
                old(self).guard().payload().cap() as nat
            } else {
                capacity_for((old(self).guard().payload()@.len() + items@.len()) as nat)
            },
            final(self).guard().payload().behind() == overwritten(
                old(self).guard().payload().behind(),
                items@.len(),
            ),
            final(self).guard().payload().sound(),
            final(self).guard()@ == old(self).guard()@,
    {
        self.inner_mut().extend(items);
    }

    /// Makes room for `capacity` more items.
    #[inline]
    pub fn reserve(&mut self, capacity: usize)
        requires
            old(self).guard().payload().sound(),
            old(self).guard().payload()@.len() + capacity <= usize::MAX,
        ensures
            final(self).guard().payload()@ == old(self).guard().payload()@,
            final(self).guard().payload().cap() == if old(self).guard().payload()@.len()
                + capacity <= old(self).guard().payload().cap() {
                old(self).guard().payload().cap() as nat
            } else {
                capacity_for((old(self).guard().payload()@.len() + capacity) as nat)
            },
            final(self).guard().payload().behind() == if old(self).guard().payload()@.len()
                + capacity <= old(self).guard().payload().cap() {
                old(self).guard().payload().behind()
            } else {
                Seq::<T>::empty()
            },
            final(self).guard().payload().sound(),
            final(self).guard()@ == old(self).guard()@,
    {
        self.inner_mut().reserve(capacity);
    }

    /// Makes room for `capacity` more items.
    #[inline]
    pub fn reserve_exact(&mut self, capacity: usize)
        requires
            old(self).guard().payload().sound(),
            old(self).guard().payload()@.len() + capacity <= usize::MAX,
        ensures
            final(self).guard().payload()@ == old(self).guard().payload()@,
            final(self).guard().payload().cap() == if old(self).guard().payload()@.len()
                + capacity <= old(self).guard().payload().cap() {
                old(self).guard().payload().cap() as nat
            } else {
                capacity_for((old(self).guard().payload()@.len() + capacity) as nat)
            },
            final(self).guard().payload().behind() == if old(self).guard().payload()@.len()
                + capacity <= old(self).guard().payload().cap() {
                old(self).guard().payload().behind()
            } else {
                Seq::<T>::empty()
            },
            final(self).guard().payload().sound(),
            final(self).guard()@ == old(self).guard()@,
    {
        self.inner_mut().reserve_exact(capacity);
    }
}

impl<'t, T: Copy> RefMut<'t, InnerVec<T>> {
    /// Makes the vector `len` items long: items behind `len` go, and places
    /// that are missing are filled with `value`.
    #[inline]
    pub fn resize(&mut self, len: usize, value: T)
        requires
            old(self).guard().payload().sound(),
        ensures
            final(self).guard().payload()@ == if len <= old(self).guard().payload()@.len() {
                old(self).guard().payload()@.take(len as int)
            } else {
                old(self).guard().payload()@ + Seq::new(
                    (len - old(self).guard().payload()@.len()) as nat,
                    |i: int| value,
                )
            },
            final(self).guard().payload().cap() == if len <= old(self).guard().payload().cap() {
                old(self).guard().payload().cap() as nat
            } else {
                capacity_for(len as nat)
            },
            final(self).guard().payload().behind() == if len <= old(self).guard().payload()@.len() {
                old(self).guard().payload()@.skip(len as int) + old(self).guard().payload().behind()
            } else if len <= old(self).guard().payload().cap() {
                overwritten(
                    old(self).guard().payload().behind(),
                    (len - old(self).guard().payload()@.len()) as nat,
                )
            } else {
                Seq::<T>::empty()
            },
            final(self).guard().payload().sound(),
            final(self).guard()@ == old(self).guard()@,
    {
        self.inner_mut().resize(len, value);
    }
}

impl<'t, T: Copy + Into<usize>> RefMut<'t, InnerVec<T>> {
    /// Compares the items with `other`, as `InnerVec::eq_slice` does.
    #[inline]
    pub fn eq_slice<U: Copy + Into<usize>>(&self, other: &[U]) -> (equal: bool)
        ensures
            T::obeys_into_spec() && U::obeys_into_spec() ==> equal == (numbers(
                self.guard().payload()@,
            ) == numbers(other@)),
    {
        self.inner().eq_slice(other)
    }
}

impl<'t> RefMut<'t, InnerVec<usize>> {
    /// Compares the words with `other`, as `InnerVec::eq_words` does.
    #[inline]
    pub fn eq_words(&self, other: &[usize]) -> (equal: bool)
        ensures
            equal == (self.guard().payload()@ == other@),
    {
        self.inner().eq_words(other)
    }
}

impl<'t> RefMut<'t, InnerVec<u8>> {
    /// Compares the bytes with `other`, as `InnerVec::eq_slice` does.
    #[inline]
    pub fn eq_bytes(&self, other: &[u8]) -> (equal: bool)
        ensures
            equal == (self.guard().payload()@ == other@),
    {
        self.inner().eq_bytes(other)
    }
}

impl InnerVec<u8> {
    /// Takes the last `count` bytes off and wipes the places that held them:
    /// these places, now the first behind the items, hold zeros.
    pub fn wipe_last(&mut self, count: usize)
        requires
            old(self).sound(),
            count <= old(self)@.len(),
        ensures
            final(self)@ == old(self)@.take(old(self)@.len() - count),
            final(self).behind() == zeroes(count as nat) + old(self).behind(),
            final(self).cap() == old(self).cap(),
            final(self).sound(),
    {
        let len = self.data.len();
        let keep = len - count;
        let (_, tail) = self.data.as_mut_slice().split_at_mut(keep);
        zero(tail);
        let mut wiped = self.data.split_off(keep);
        assert(wiped@ =~= zeroes(count as nat));
        wiped.append(&mut self.behind);
        self.behind = wiped;
        assert(self.data@ =~= old(self)@.take(keep as int));
    }
}

impl<T> Default for Vec<T> {
    #[inline]
    fn default() -> (vec: Self)
        ensures
            vec@ == (GuardState { word: 0, protection: Protection::NoAccess }),
            vec.payload()@ == Seq::<T>::empty(),
            vec.payload().cap() == 0,
    {
        Self::new()
    }
}

} // verus!
