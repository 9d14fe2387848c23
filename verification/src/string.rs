//! Guarded string type, held in canonical decomposition.
//!
//! The bytes of a string are the UTF-8 encoding of its scalars. Every scalar
//! that is pushed, and every text that a string is made from, is replaced by
//! its canonical decomposition first.

use vstd::prelude::*;
use vstd::string::*;
use vstd::utf8::*;
use unicode_normalization::UnicodeNormalization;
use crate::auxiliary::zero;
use crate::guard;
use crate::guard::GuardState;
use crate::pages::Protection;
use crate::refs::idle;
use crate::auxiliary::zeroes;
use crate::vec::{InnerVec, Vec, CMP_MIN, capacity_for, into_bytes, overwritten};

verus! {

/// The canonical decomposition of one scalar: what
/// `unicode_normalization::char::decompose_canonical` emits for it.
pub uninterp spec fn canonical_decomposition(ch: char) -> Seq<char>;

/// The canonical decomposition of a text, its Normalization Form D: what the
/// iterator `nfd` of `unicode_normalization` yields for it.
pub uninterp spec fn nfd_of(text: Seq<char>) -> Seq<char>;

/// The canonical decompositions of the scalars of `text`, one after another.
pub open spec fn decompositions(text: Seq<char>) -> Seq<char>
    decreases text.len(),
{
    if text.len() == 0 {
        Seq::<char>::empty()
    } else {
        decompositions(text.drop_last()) + canonical_decomposition(text.last())
    }
}

/// `unicode_normalization::char::decompose_canonical`: the scalars that it
/// emits for `ch`, in their order. A scalar of 7-bit ASCII is emitted as it
/// is.
#[verifier::external_body]
fn decompose(ch: char) -> (scalars: std::vec::Vec<char>)
    ensures
        scalars@ == canonical_decomposition(ch),
        ch as u32 <= 0x7f ==> scalars@ == seq![ch],
{
    let mut scalars = std::vec::Vec::new();
    unicode_normalization::char::decompose_canonical(ch, |scalar| collect(&mut scalars, scalar));
    scalars
}

/// Appends `scalar` to `scalars`.
fn collect(scalars: &mut std::vec::Vec<char>, scalar: char)
    ensures
        final(scalars)@ == old(scalars)@.push(scalar),
{
    scalars.push(scalar);
}

/// `UnicodeNormalization::nfd` on a text: the scalars that the iterator
/// yields, in their order.
#[verifier::external_body]
fn decomposed(text: &str) -> (scalars: std::vec::Vec<char>)
    ensures
        scalars@ == nfd_of(text@),
{
    text.nfd().collect()
}

/// `core::str::from_utf8`: the text that `bytes` encode. Bytes that are valid
/// UTF-8 have one, and its bytes are `bytes`.
#[verifier::external_body]
fn from_utf8(bytes: &[u8]) -> (text: Option<&str>)
    ensures
        valid_utf8(bytes@) ==> text is Some,
        text matches Some(t) ==> encode_utf8(t@) == bytes@,
{
    core::str::from_utf8(bytes).ok()
}

/// Encoding one text after another is encoding them as one.
pub proof fn lemma_encode_concat(first: Seq<char>, second: Seq<char>)
    ensures
        encode_utf8(first + second) == encode_utf8(first) + encode_utf8(second),
    decreases first.len(),
{
    if first.len() == 0 {
        assert(first + second =~= second);
        assert(encode_utf8(first) =~= Seq::<u8>::empty());
        assert(encode_utf8(first) + encode_utf8(second) =~= encode_utf8(second));
    } else {
        lemma_encode_concat(first.drop_first(), second);
        assert((first + second).drop_first() =~= first.drop_first() + second);
        assert((first + second)[0] == first[0]);
        assert(encode_utf8(first + second) =~= encode_scalar(first[0] as u32) + (encode_utf8(
            first.drop_first(),
        ) + encode_utf8(second)));
        assert(encode_utf8(first) + encode_utf8(second) =~= encode_scalar(first[0] as u32) + (
        encode_utf8(first.drop_first()) + encode_utf8(second)));
    }
}

/// The encoding of one scalar is the encoding of the text that holds it alone.
pub proof fn lemma_encode_one(ch: char)
    ensures
        encode_utf8(seq![ch]) == encode_scalar(ch as u32),
        1 <= encode_scalar(ch as u32).len() <= 4,
{
    let text = seq![ch];
    assert(text.drop_first() =~= Seq::<char>::empty());
    assert(encode_utf8(text.drop_first()) =~= Seq::<u8>::empty());
    assert(encode_utf8(text) =~= encode_scalar(ch as u32));
}

/// Bytes that are valid UTF-8 followed by the encoding of a text are valid
/// UTF-8, and decode to what the bytes decode to followed by the text.
pub proof fn lemma_append(bytes: Seq<u8>, text: Seq<char>)
    requires
        valid_utf8(bytes),
    ensures
        valid_utf8(bytes + encode_utf8(text)),
        decode_utf8(bytes + encode_utf8(text)) == decode_utf8(bytes) + text,
{
    decode_utf8_encode_utf8(bytes);
    lemma_encode_concat(decode_utf8(bytes), text);
    encode_utf8_valid_utf8(decode_utf8(bytes) + text);
    encode_utf8_decode_utf8(decode_utf8(bytes) + text);
}

/// The number of bytes of the encoding of `ch`.
pub fn len_utf8(ch: char) -> (len: usize)
    ensures
        len == encode_scalar(ch as u32).len(),
        1 <= len <= 4,
{
    let scalar = ch as u32;
    if scalar <= 0x7f {
        1
    } else if scalar <= 0x7ff {
        2
    } else if scalar <= 0xffff {
        3
    } else {
        4
    }
}

/// Appends the encoding of `ch` to `bytes`.
pub fn encode(bytes: &mut std::vec::Vec<u8>, ch: char)
    ensures
        final(bytes)@ == old(bytes)@ + encode_scalar(ch as u32),
{
    let scalar = ch as u32;
    if scalar <= 0x7f {
        assert(scalar & 0x7f <= 0x7f) by (bit_vector);
        bytes.push((scalar & 0x7F) as u8);
        assert(bytes@ =~= old(bytes)@ + encode_scalar(scalar));
    } else if scalar <= 0x7ff {
        assert((scalar >> 6) & 0x1f <= 0x1f) by (bit_vector);
        assert(scalar & 0x3f <= 0x3f) by (bit_vector);
        bytes.push(0xC0 | ((scalar >> 6) & 0x1F) as u8);
        bytes.push(0x80 | (scalar & 0x3F) as u8);
        assert(bytes@ =~= old(bytes)@ + encode_scalar(scalar));
    } else if scalar <= 0xffff {
        assert((scalar >> 12) & 0x0f <= 0x0f) by (bit_vector);
        assert((scalar >> 6) & 0x3f <= 0x3f) by (bit_vector);
        assert(scalar & 0x3f <= 0x3f) by (bit_vector);
        bytes.push(0xE0 | ((scalar >> 12) & 0x0F) as u8);
        bytes.push(0x80 | ((scalar >> 6) & 0x3F) as u8);
        bytes.push(0x80 | (scalar & 0x3F) as u8);
        assert(bytes@ =~= old(bytes)@ + encode_scalar(scalar));
    } else {
        assert((scalar >> 18) & 0x7 <= 0x7) by (bit_vector);
        assert((scalar >> 12) & 0x3f <= 0x3f) by (bit_vector);
        assert((scalar >> 6) & 0x3f <= 0x3f) by (bit_vector);
        assert(scalar & 0x3f <= 0x3f) by (bit_vector);
        bytes.push(0xF0 | ((scalar >> 18) & 0x7) as u8);
        bytes.push(0x80 | ((scalar >> 12) & 0x3F) as u8);
        bytes.push(0x80 | ((scalar >> 6) & 0x3F) as u8);
        bytes.push(0x80 | (scalar & 0x3F) as u8);
        assert(bytes@ =~= old(bytes)@ + encode_scalar(scalar));
    }
}

/// Appends the encoding of `text` to `bytes`.
pub fn encode_all(bytes: &mut std::vec::Vec<u8>, text: &std::vec::Vec<char>)
    ensures
        final(bytes)@ == old(bytes)@ + encode_utf8(text@),
{
    let mut i: usize = 0;
    assert(text@.take(0) =~= Seq::<char>::empty());
    assert(bytes@ =~= old(bytes)@ + encode_utf8(text@.take(0)));
    while i < text.len()
        invariant
            i <= text@.len(),
            bytes@ == old(bytes)@ + encode_utf8(text@.take(i as int)),
        decreases text@.len() - i,
    {
        let ch = text[i];
        encode(bytes, ch);
        proof {
            lemma_encode_one(ch);
            lemma_encode_concat(text@.take(i as int), seq![ch]);
            assert(text@.take(i as int + 1) =~= text@.take(i as int) + seq![ch]);
            assert(bytes@ =~= old(bytes)@ + encode_utf8(text@.take(i as int + 1)));
        }
        i += 1;
    }
    assert(text@.take(text@.len() as int) =~= text@);
}

/// Guarded string type.
#[derive(Debug)]
pub struct String(Vec<u8>);

/// Handle of a shared borrow of a guarded string.
#[derive(Debug)]
pub struct Ref<'t>(guard::Ref<'t, InnerVec<u8>>);

/// Handle of the exclusive borrow of a guarded string.
#[derive(Debug)]
pub struct RefMut<'t>(guard::RefMut<'t, InnerVec<u8>>);

/// Whether `bytes` can be the bytes of a string with a buffer of `room`
/// places whose places behind the bytes hold `behind`: the bytes are valid
/// UTF-8, they and the places behind them fit the buffer, and a buffer has no
/// places or at least `CMP_MIN`.
pub open spec fn well_formed(bytes: Seq<u8>, behind: Seq<u8>, room: usize) -> bool {
    &&& valid_utf8(bytes)
    &&& bytes.len() + behind.len() <= room
    &&& room == 0 || room >= CMP_MIN
}

impl View for String {
    type V = Seq<char>;

    open spec fn view(&self) -> Seq<char> {
        decode_utf8(self.bytes())
    }
}

impl String {
    /// The bytes.
    pub closed spec fn bytes(&self) -> Seq<u8> {
        self.0.payload()@
    }

    /// The number of places of the buffer.
    pub closed spec fn room(&self) -> usize {
        self.0.payload().cap()
    }

    /// What the places directly behind the bytes are known to hold, nearest
    /// first.
    pub closed spec fn behind(&self) -> Seq<u8> {
        self.0.payload().behind()
    }

    /// What the guard shows.
    pub closed spec fn state(&self) -> GuardState {
        self.0@
    }

    /// What the functions of a string keep.
    pub open spec fn wf(&self) -> bool {
        well_formed(self.bytes(), self.behind(), self.room())
    }

    /// An empty guarded string without buffer.
    pub fn new() -> (string: Self)
        ensures
            string.bytes() == Seq::<u8>::empty(),
            string.behind() == Seq::<u8>::empty(),
            string.room() == 0,
            string.state() == (GuardState { word: 0, protection: Protection::NoAccess }),
            string.wf(),
    {
        String(Vec::new())
    }

    /// An empty guarded string with a buffer for `capacity` bytes.
    pub fn with_capacity(capacity: usize) -> (string: Self)
        ensures
            string.bytes() == Seq::<u8>::empty(),
            string.behind() == Seq::<u8>::empty(),
            string.room() == capacity_for(capacity as nat),
            string.state() == (GuardState { word: 0, protection: Protection::NoAccess }),
            string.wf(),
    {
        String(Vec::with_capacity(capacity))
    }

    /// The number of places of the buffer.
    pub fn capacity(&self) -> (capacity: usize)
        ensures
            capacity == self.room(),
    {
        self.0.capacity()
    }

    /// The number of bytes.
    pub fn len(&self) -> (len: usize)
        ensures
            len == self.bytes().len(),
    {
        self.0.len()
    }

    /// Whether there is no byte.
    pub fn is_empty(&self) -> (empty: bool)
        ensures
            empty == (self.bytes().len() == 0),
    {
        self.0.is_empty()
    }

    /// Makes room for `capacity` more bytes while nothing is borrowed.
    pub fn reserve(&mut self, capacity: usize)
        requires
            idle(old(self).state().word),
            old(self).wf(),
            old(self).bytes().len() + capacity <= usize::MAX,
        ensures
            final(self).state() == (GuardState { word: 0, protection: Protection::NoAccess }),
            final(self).bytes() == old(self).bytes(),
            final(self).room() == if old(self).bytes().len() + capacity <= old(self).room() {
                old(self).room() as nat
            } else {
                capacity_for((old(self).bytes().len() + capacity) as nat)
            },
            final(self).behind() == if old(self).bytes().len() + capacity <= old(self).room() {
                old(self).behind()
            } else {
                Seq::<u8>::empty()
            },
            final(self).wf(),
    {
        self.0.reserve(capacity);
    }

    /// Makes room for `capacity` more bytes while nothing is borrowed.
    pub fn reserve_exact(&mut self, capacity: usize)
        requires
            idle(old(self).state().word),
            old(self).wf(),
            old(self).bytes().len() + capacity <= usize::MAX,
        ensures
            final(self).state() == (GuardState { word: 0, protection: Protection::NoAccess }),
            final(self).bytes() == old(self).bytes(),
            final(self).room() == if old(self).bytes().len() + capacity <= old(self).room() {
                old(self).room() as nat
            } else {
                capacity_for((old(self).bytes().len() + capacity) as nat)
            },
            final(self).behind() == if old(self).bytes().len() + capacity <= old(self).room() {
                old(self).behind()
            } else {
                Seq::<u8>::empty()
            },
            final(self).wf(),
    {
        self.0.reserve_exact(capacity);
    }

    /// Borrows the string for reading.
    pub fn borrow(&mut self) -> (handle: Ref<'_>)
        requires
            old(self).state().can_acquire(),
        ensures
            handle.bytes() == old(self).bytes(),
            handle.room() == old(self).room(),
            handle.behind() == old(self).behind(),
            handle.state() == old(self).state().acquired(),
    {
        Ref(self.0.borrow())
    }

    /// Borrows the string for reading and writing.
    pub fn borrow_mut(&mut self) -> (handle: RefMut<'_>)
        requires
            idle(old(self).state().word),
        ensures
            handle.bytes() == old(self).bytes(),
            handle.room() == old(self).room(),
            handle.behind() == old(self).behind(),
            handle.state() == old(self).state().acquired_mut(),
    {
        RefMut(self.0.borrow_mut())
    }

    /// The bytes of the string that `from` makes of a text: the encoding of
    /// its canonical decomposition.
    pub open spec fn bytes_of(text: Seq<char>) -> Seq<u8> {
        encode_utf8(nfd_of(text))
    }

    /// A locked guarded string that holds the canonical decomposition of
    /// `source`.
    pub fn from(source: &str) -> (string: Self)
        ensures
            string.bytes() == Self::bytes_of(source@),
            string@ == nfd_of(source@),
            string.behind() == Seq::<u8>::empty(),
            string.room() == capacity_for(Self::bytes_of(source@).len()),
            string.state() == (GuardState { word: 0, protection: Protection::NoAccess }),
            string.wf(),
    {
        let scalars = decomposed(source);
        let mut bytes: std::vec::Vec<u8> = std::vec::Vec::new();
        encode_all(&mut bytes, &scalars);
        proof {
            assert(bytes@ =~= encode_utf8(scalars@));
            encode_utf8_valid_utf8(scalars@);
            encode_utf8_decode_utf8(scalars@);
        }
        String(Vec::from_vec(bytes))
    }

    /// A locked guarded string that holds the canonical decomposition of
    /// `source`, whose buffer is wiped before it is freed.
    pub fn from_string(source: std::string::String) -> (string: Self)
        ensures
            string.bytes() == Self::bytes_of(source@),
            string@ == nfd_of(source@),
            string.behind() == Seq::<u8>::empty(),
            string.room() == capacity_for(Self::bytes_of(source@).len()),
            string.state() == (GuardState { word: 0, protection: Protection::NoAccess }),
            string.wf(),
    {
        let string = Self::from(source.as_str());
        let mut bytes = into_bytes(source);
        zero(bytes.as_mut_slice());
        string
    }

    /// A locked guarded string that holds the canonical decompositions of the
    /// scalars of `scalars`, one after another.
    pub fn from_iter(scalars: std::vec::Vec<char>) -> (string: Self)
        ensures
            string.bytes() == encode_utf8(decompositions(scalars@)),
            string@ == decompositions(scalars@),
            string.behind() == Seq::<u8>::empty(),
            string.room() == capacity_for(encode_utf8(decompositions(scalars@)).len()),
            string.state() == (GuardState { word: 0, protection: Protection::NoAccess }),
            string.wf(),
    {
        let mut bytes: std::vec::Vec<u8> = std::vec::Vec::new();
        let mut i: usize = 0;
        assert(scalars@.take(0) =~= Seq::<char>::empty());
        assert(bytes@ =~= encode_utf8(decompositions(scalars@.take(0))));
        while i < scalars.len()
            invariant
                i <= scalars@.len(),
                bytes@ == encode_utf8(decompositions(scalars@.take(i as int))),
            decreases scalars@.len() - i,
        {
            let parts = decompose(scalars[i]);
            encode_all(&mut bytes, &parts);
            proof {
                let before = scalars@.take(i as int);
                let now = scalars@.take(i as int + 1);
                assert(now.drop_last() =~= before);
                assert(now.last() == scalars@[i as int]);
                lemma_encode_concat(decompositions(before), parts@);
            }
            i += 1;
        }
        proof {
            assert(scalars@.take(scalars@.len() as int) =~= scalars@);
            encode_utf8_valid_utf8(decompositions(scalars@));
            encode_utf8_decode_utf8(decompositions(scalars@));
        }
        String(Vec::from_vec(bytes))
    }
}

impl<'t> View for Ref<'t> {
    type V = Seq<char>;

    open spec fn view(&self) -> Seq<char> {
        decode_utf8(self.bytes())
    }
}

impl<'t> Ref<'t> {
    /// The bytes.
    pub closed spec fn bytes(&self) -> Seq<u8> {
        self.0.guard().payload()@
    }

    /// The number of places of the buffer.
    pub closed spec fn room(&self) -> usize {
        self.0.guard().payload().cap()
    }

    /// What the places directly behind the bytes are known to hold, nearest
    /// first.
    pub closed spec fn behind(&self) -> Seq<u8> {
        self.0.guard().payload().behind()
    }

    /// What the guard shows.
    pub closed spec fn state(&self) -> GuardState {
        self.0.guard()@
    }

    /// The bytes.
    pub fn as_bytes(&self) -> (bytes: &[u8])
        ensures
            bytes@ == self.bytes(),
    {
        self.0.as_slice()
    }

    /// What the places directly behind the bytes are known to hold, nearest
    /// first.
    pub fn spare(&self) -> (bytes: &[u8])
        ensures
            bytes@ == self.behind(),
    {
        self.0.inner().spare()
    }

    /// The text.
    pub fn as_str(&self) -> (text: &str)
        requires
            valid_utf8(self.bytes()),
        ensures
            text@ == self@,
    {
        let text = from_utf8(self.0.as_slice()).unwrap();
        proof {
            encode_utf8_decode_utf8(text@);
        }
        text
    }

    /// The scalars, one after another.
    pub fn chars(&self) -> (scalars: std::vec::Vec<char>)
        requires
            valid_utf8(self.bytes()),
        ensures
            scalars@ == self@,
    {
        scalars_of(self.as_str())
    }
}

/// The scalars of `text`, one after another.
pub fn scalars_of(text: &str) -> (scalars: std::vec::Vec<char>)
    ensures
        scalars@ == text@,
{
    let len = text.unicode_len();
    let mut scalars: std::vec::Vec<char> = std::vec::Vec::new();
    let mut i: usize = 0;
    while i < len
        invariant
            i <= len,
            len == text@.len(),
            scalars@ == text@.take(i as int),
        decreases len - i,
    {
        scalars.push(text.get_char(i));
        i += 1;
        assert(scalars@ =~= text@.take(i as int));
    }
    assert(text@.take(len as int) =~= text@);
    scalars
}

impl<'t> View for RefMut<'t> {
    type V = Seq<char>;

    open spec fn view(&self) -> Seq<char> {
        decode_utf8(self.bytes())
    }
}

impl<'t> RefMut<'t> {
    /// The bytes.
    pub closed spec fn bytes(&self) -> Seq<u8> {
        self.0.guard().payload()@
    }

    /// The number of places of the buffer.
    pub closed spec fn room(&self) -> usize {
        self.0.guard().payload().cap()
    }

    /// What the places directly behind the bytes are known to hold, nearest
    /// first.
    pub closed spec fn behind(&self) -> Seq<u8> {
        self.0.guard().payload().behind()
    }

    /// What the guard shows.
    pub closed spec fn state(&self) -> GuardState {
        self.0.guard()@
    }

    /// What the functions of a string keep.
    pub open spec fn wf(&self) -> bool {
        well_formed(self.bytes(), self.behind(), self.room())
    }

    /// The room after `more` bytes were appended to a string with `len` bytes
    /// in a buffer of `room` places: the buffer grows to what is needed.
    pub open spec fn room_for(len: nat, more: nat, room: usize) -> nat {
        if len + more <= room {
            room as nat
        } else {
            capacity_for(len + more)
        }
    }

    /// The bytes.
    pub fn as_bytes(&self) -> (bytes: &[u8])
        ensures
            bytes@ == self.bytes(),
    {
        self.0.as_slice()
    }

    /// What the places directly behind the bytes are known to hold, nearest
    /// first.
    pub fn spare(&self) -> (bytes: &[u8])
        ensures
            bytes@ == self.behind(),
    {
        self.0.inner().spare()
    }

    /// The text.
    pub fn as_str(&self) -> (text: &str)
        requires
            valid_utf8(self.bytes()),
        ensures
            text@ == self@,
    {
        let text = from_utf8(self.0.as_slice()).unwrap();
        proof {
            encode_utf8_decode_utf8(text@);
        }
        text
    }

    /// The scalars, one after another.
    pub fn chars(&self) -> (scalars: std::vec::Vec<char>)
        requires
            valid_utf8(self.bytes()),
        ensures
            scalars@ == self@,
    {
        scalars_of(self.as_str())
    }

    /// Makes room for `capacity` more bytes.
    pub fn reserve(&mut self, capacity: usize)
        requires
            old(self).wf(),
            old(self).bytes().len() + capacity <= usize::MAX,
        ensures
            final(self).bytes() == old(self).bytes(),
            final(self).room() == Self::room_for(
                old(self).bytes().len(),
                capacity as nat,
                old(self).room(),
            ),
            final(self).behind() == if old(self).bytes().len() + capacity <= old(self).room() {
                old(self).behind()
            } else {
                Seq::<u8>::empty()
            },
            final(self).state() == old(self).state(),
            final(self).wf(),
    {
        self.0.reserve(capacity);
    }

    /// Makes room for `capacity` more bytes.
    pub fn reserve_exact(&mut self, capacity: usize)
        requires
            old(self).wf(),
            old(self).bytes().len() + capacity <= usize::MAX,
        ensures
            final(self).bytes() == old(self).bytes(),
            final(self).room() == Self::room_for(
                old(self).bytes().len(),
                capacity as nat,
                old(self).room(),
            ),
            final(self).behind() == if old(self).bytes().len() + capacity <= old(self).room() {
                old(self).behind()
            } else {
                Seq::<u8>::empty()
            },
            final(self).state() == old(self).state(),
            final(self).wf(),
    {
        self.0.reserve_exact(capacity);
    }

    /// Appends the canonical decomposition of `ch`. A scalar of 7-bit ASCII
    /// is its own.
    pub fn push(&mut self, ch: char)
        requires
            old(self).wf(),
        ensures
            final(self).bytes() == old(self).bytes() + encode_utf8(canonical_decomposition(ch)),
            final(self)@ == old(self)@ + canonical_decomposition(ch),
            ch as u32 <= 0x7f ==> canonical_decomposition(ch) == seq![ch],
            final(self).room() == Self::room_for(
                old(self).bytes().len(),
                encode_utf8(canonical_decomposition(ch)).len(),
                old(self).room(),
            ),
            final(self).behind() == overwritten(
                old(self).behind(),
                encode_utf8(canonical_decomposition(ch)).len(),
            ),
            final(self).state() == old(self).state(),
            final(self).wf(),
    {
        let parts = decompose(ch);
        let mut bytes: std::vec::Vec<u8> = std::vec::Vec::new();
        encode_all(&mut bytes, &parts);
        proof {
            assert(bytes@ =~= encode_utf8(parts@));
            lemma_append(old(self).bytes(), parts@);
        }
        self.0.extend(bytes);
    }

    /// Appends the canonical decomposition of `string`.
    pub fn push_str(&mut self, string: &str)
        requires
            old(self).wf(),
        ensures
            final(self).bytes() == old(self).bytes() + encode_utf8(nfd_of(string@)),
            final(self)@ == old(self)@ + nfd_of(string@),
            final(self).room() == Self::room_for(
                old(self).bytes().len(),
                encode_utf8(nfd_of(string@)).len(),
                old(self).room(),
            ),
            final(self).behind() == overwritten(
                old(self).behind(),
                encode_utf8(nfd_of(string@)).len(),
            ),
            final(self).state() == old(self).state(),
            final(self).wf(),
    {
        let parts = decomposed(string);
        let mut bytes: std::vec::Vec<u8> = std::vec::Vec::new();
        encode_all(&mut bytes, &parts);
        proof {
            assert(bytes@ =~= encode_utf8(parts@));
            lemma_append(old(self).bytes(), parts@);
        }
        self.0.extend(bytes);
    }

    /// Takes the last scalar off, if there is one, and wipes the places that
    /// held its bytes: these places, now the first behind the bytes, hold
    /// zeros.
    pub fn pop(&mut self) -> (last: Option<char>)
        requires
            old(self).wf(),
        ensures
            old(self)@.len() > 0 ==> last == Some(old(self)@.last()) && final(self)@ == old(self)@.drop_last() && final(self).bytes() == encode_utf8(old(self)@.drop_last())
                && final(self).behind() == zeroes(
                encode_scalar(old(self)@.last() as u32).len(),
            ) + old(self).behind(),
            old(self)@.len() == 0 ==> last is None && final(self).bytes() == old(self).bytes()
                && final(self).behind() == old(self).behind(),
            final(self).room() == old(self).room(),
            final(self).state() == old(self).state(),
            final(self).wf(),
    {
        let found = last_scalar(self.0.as_slice());
        match found {
            Some(ch) => {
                let count = len_utf8(ch);
                proof {
                    let text = old(self)@;
                    let rest = text.drop_last();
                    decode_utf8_encode_utf8(old(self).bytes());
                    assert(text =~= rest + seq![ch]);
                    lemma_encode_concat(rest, seq![ch]);
                    lemma_encode_one(ch);
                    assert((encode_utf8(rest) + encode_scalar(ch as u32)).take(
                        encode_utf8(rest).len() as int,
                    ) =~= encode_utf8(rest));
                    encode_utf8_valid_utf8(rest);
                    encode_utf8_decode_utf8(rest);
                }
                self.0.inner_mut().wipe_last(count);
                Some(ch)
            },
            None => None,
        }
    }
}

/// The last scalar that `bytes` encode, if they encode any.
pub fn last_scalar(bytes: &[u8]) -> (last: Option<char>)
    requires
        valid_utf8(bytes@),
    ensures
        decode_utf8(bytes@).len() > 0 ==> last == Some(decode_utf8(bytes@).last()),
        decode_utf8(bytes@).len() == 0 ==> last is None,
{
    let text = from_utf8(bytes).unwrap();
    proof {
        encode_utf8_decode_utf8(text@);
    }
    let len = text.unicode_len();
    if len == 0 {
        None
    } else {
        Some(text.get_char(len - 1))
    }
}

/// Texts that are canonically equivalent, which is to say that they have the
/// same canonical decomposition, make strings with the same bytes.
pub proof fn lemma_equivalent_texts(first: Seq<char>, second: Seq<char>)
    requires
        nfd_of(first) == nfd_of(second),
    ensures
        String::bytes_of(first) == String::bytes_of(second),
{
}

/// Where the last scalar of a string is its own canonical decomposition,
/// taking it off with `pop` and appending it with `push` gives the bytes that
/// the string had.
pub proof fn lemma_pop_push(bytes: Seq<u8>)
    requires
        valid_utf8(bytes),
        decode_utf8(bytes).len() > 0,
        canonical_decomposition(decode_utf8(bytes).last()) == seq![decode_utf8(bytes).last()],
    ensures
        encode_utf8(decode_utf8(bytes).drop_last()) + encode_utf8(
            canonical_decomposition(decode_utf8(bytes).last()),
        ) == bytes,
{
    let text = decode_utf8(bytes);
    decode_utf8_encode_utf8(bytes);
    assert(text =~= text.drop_last() + seq![text.last()]);
    lemma_encode_concat(text.drop_last(), seq![text.last()]);
}

impl<'t> PartialEq for Ref<'t> {
    fn eq(&self, other: &Self) -> (equal: bool) {
        self.0.inner().eq_bytes(other.0.inner().as_slice())
    }
}

impl<'t> vstd::std_specs::cmp::PartialEqSpecImpl for Ref<'t> {
    open spec fn obeys_eq_spec() -> bool {
        true
    }

    open spec fn eq_spec(&self, other: &Self) -> bool {
        self.bytes() == other.bytes()
    }
}

impl<'t> PartialEq for RefMut<'t> {
    fn eq(&self, other: &Self) -> (equal: bool) {
        self.0.inner().eq_bytes(other.0.inner().as_slice())
    }
}

impl<'t> vstd::std_specs::cmp::PartialEqSpecImpl for RefMut<'t> {
    open spec fn obeys_eq_spec() -> bool {
        true
    }

    open spec fn eq_spec(&self, other: &Self) -> bool {
        self.bytes() == other.bytes()
    }
}

impl<'t, 'u> PartialEq<RefMut<'u>> for Ref<'t> {
    fn eq(&self, other: &RefMut<'u>) -> (equal: bool) {
        self.0.inner().eq_bytes(other.0.inner().as_slice())
    }
}

impl<'t, 'u> vstd::std_specs::cmp::PartialEqSpecImpl<RefMut<'u>> for Ref<'t> {
    open spec fn obeys_eq_spec() -> bool {
        true
    }

    open spec fn eq_spec(&self, other: &RefMut<'u>) -> bool {
        self.bytes() == other.bytes()
    }
}

impl<'t, 'u> PartialEq<Ref<'u>> for RefMut<'t> {
    fn eq(&self, other: &Ref<'u>) -> (equal: bool) {
        self.0.inner().eq_bytes(other.0.inner().as_slice())
    }
}

impl<'t, 'u> vstd::std_specs::cmp::PartialEqSpecImpl<Ref<'u>> for RefMut<'t> {
    open spec fn obeys_eq_spec() -> bool {
        true
    }

    open spec fn eq_spec(&self, other: &Ref<'u>) -> bool {
        self.bytes() == other.bytes()
    }
}

impl Default for String {
    fn default() -> (string: Self)
        ensures
            string.bytes() == Seq::<u8>::empty(),
            string.room() == 0,
            string.state() == (GuardState { word: 0, protection: Protection::NoAccess }),
    {
        Self::new()
    }
}

} // verus!
