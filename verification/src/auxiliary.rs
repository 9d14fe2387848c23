//! Auxiliary functions.

use vstd::prelude::*;

verus! {

/// A sequence of `len` zero bytes.
pub open spec fn zeroes(len: nat) -> Seq<u8> {
    Seq::new(len, |i: int| 0u8)
}

/// Zeroes memory out: every byte of `buffer` becomes zero. The buffer is then
/// shown to `std::hint::black_box`, which promises no more than to hand it
/// back. The wipe of pages by writes that the compiler cannot remove is the
/// request `pages::Request::Zero`, which the caller of this library performs.
pub fn zero(buffer: &mut [u8])
    ensures
        final(buffer)@ == zeroes(old(buffer)@.len()),
{
    let len = buffer.len();
    let mut i: usize = 0;
    while i < len
        invariant
            i <= len,
            buffer@.len() == len,
            forall|j: int| 0 <= j < i ==> buffer@[j] == 0u8,
        decreases len - i,
    {
        buffer[i] = 0;
        i += 1;
    }
    assert(buffer@ =~= zeroes(len as nat));
    observe(buffer);
}

/// `std::hint::black_box` on a buffer: the buffer stays as it is.
#[verifier::external_body]
fn observe(buffer: &mut [u8])
    ensures
        final(buffer)@ == old(buffer)@,
{
    std::hint::black_box(buffer);
}

} // verus!
