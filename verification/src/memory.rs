//! What the requests do to the protection of addresses and to the bytes at
//! them, and what follows for guarded allocations.

use vstd::prelude::*;
use crate::pages::{
    GuardedAlloc, Protection, Request, Span, lemma_frame, lemma_guard_positive, outer_bytes,
};

verus! {

/// The protection of every mapped address. An address that is no key is not
/// mapped.
pub type Memory = Map<int, Protection>;

/// Whether a load or a store at `addr` faults.
pub open spec fn traps(memory: Memory, addr: int) -> bool {
    !memory.dom().contains(addr) || memory[addr] == Protection::NoAccess
}

/// Whether `addr` is mapped with protection `prot`.
pub open spec fn has_protection(memory: Memory, addr: int, prot: Protection) -> bool {
    memory.dom().contains(addr) && memory[addr] == prot
}

/// The memory after the operating system answered a reservation of `size`
/// bytes with protection `prot` by the address `base`.
pub open spec fn reserved(memory: Memory, base: int, size: nat, prot: Protection) -> Memory {
    Map::new(
        |addr: int| memory.dom().contains(addr) || base <= addr < base + size,
        |addr: int|
            if base <= addr < base + size {
                prot
            } else {
                memory[addr]
            },
    )
}

/// The memory after `request` was performed with success. What a reservation
/// does depends on the address that the operating system picks: see
/// `reserved`.
pub open spec fn performed(memory: Memory, request: Request) -> Memory {
    match request {
        Request::Protect { base, size, prot } => Map::new(
            |addr: int| memory.dom().contains(addr),
            |addr: int|
                if base <= addr < base + size {
                    prot
                } else {
                    memory[addr]
                },
        ),
        Request::Release { base, size } => Map::new(
            |addr: int| memory.dom().contains(addr) && !(base <= addr < base + size),
            |addr: int| memory[addr],
        ),
        Request::Uncommit { base, size } => Map::new(
            |addr: int| memory.dom().contains(addr) && !(base <= addr < base + size),
            |addr: int| memory[addr],
        ),
        _ => memory,
    }
}

/// The byte at every address.
pub type Contents = Map<int, u8>;

/// The bytes after the operating system answered a reservation of `size`
/// bytes by the address `base`: fresh pages hold zeros.
pub open spec fn fresh(contents: Contents, base: int, size: nat) -> Contents {
    Map::new(
        |addr: int| contents.dom().contains(addr) || base <= addr < base + size,
        |addr: int|
            if base <= addr < base + size {
                0u8
            } else {
                contents[addr]
            },
    )
}

/// The bytes after `request` was performed with success: a wipe leaves
/// zeros, and no other request writes.
pub open spec fn written(contents: Contents, request: Request) -> Contents {
    match request {
        Request::Zero { base, size } => Map::new(
            |addr: int| contents.dom().contains(addr) || base <= addr < base + size,
            |addr: int|
                if base <= addr < base + size {
                    0u8
                } else {
                    contents[addr]
                },
        ),
        _ => contents,
    }
}

/// Whether every byte of the `size` bytes at `base` is zero.
pub open spec fn zeroed(contents: Contents, base: int, size: nat) -> bool {
    forall|addr: int|
        base <= addr < base + size ==> contents.dom().contains(addr) && contents[addr] == 0u8
}

/// The memory after all of `requests` were performed with success, first to
/// last.
pub open spec fn performed_all(memory: Memory, requests: Seq<Request>) -> Memory
    decreases requests.len(),
{
    if requests.len() == 0 {
        memory
    } else {
        performed(performed_all(memory, requests.drop_last()), requests.last())
    }
}

/// Whether every address of both guard bands of `alloc` faults.
pub open spec fn guards_trap<const N: usize>(memory: Memory, alloc: GuardedAlloc<N>) -> bool {
    forall|addr: int|
        alloc.leading_guard().contains(addr) || alloc.trailing_guard().contains(addr) ==> traps(
            memory,
            addr,
        )
}

/// Whether every address of `span` is mapped with protection `prot`.
pub open spec fn span_has(memory: Memory, span: Span, prot: Protection) -> bool {
    forall|addr: int| span.contains(addr) ==> has_protection(memory, addr, prot)
}

/// Once a request for a protection was performed, every mapped address of
/// its range has that protection, and every other address is as it was. After
/// a request for no access every address of the range faults.
pub proof fn lemma_protect(memory: Memory, base: usize, size: usize, prot: Protection)
    ensures
        ({
            let after = performed(memory, Request::Protect { base, size, prot });
            &&& after.dom() == memory.dom()
            &&& forall|addr: int|
                base <= addr < base + size && memory.dom().contains(addr) ==> has_protection(
                    after,
                    addr,
                    prot,
                )
            &&& forall|addr: int|
                !(base <= addr < base + size) && memory.dom().contains(addr) ==> after[addr]
                    == memory[addr]
            &&& prot == Protection::NoAccess ==> forall|addr: int|
                base <= addr < base + size ==> traps(after, addr)
        }),
{
    let after = performed(memory, Request::Protect { base, size, prot });
    assert(after.dom() =~= memory.dom());
}

/// A new guarded allocation has guard bands that fault and an interior with
/// the protection that was asked for: this holds once the frame was reserved
/// with no access and the request of `GuardedAlloc::new` was performed.
pub proof fn lemma_new_guards<const N: usize>(
    memory: Memory,
    alloc: GuardedAlloc<N>,
    prot: Protection,
)
    requires
        alloc.wf(),
    ensures
        ({
            let fresh = reserved(
                memory,
                alloc.frame().base,
                alloc.frame().size,
                Protection::NoAccess,
            );
            let after = match alloc.upgrade(prot) {
                Some(request) => performed(fresh, request),
                None => fresh,
            };
            guards_trap(after, alloc) && span_has(after, alloc.interior(), prot)
        }),
{
    alloc.lemma_layout();
}

/// A request that changes the protection of addresses of the interior alone
/// leaves the guard bands as they are.
pub proof fn lemma_protect_keeps_guards<const N: usize>(
    memory: Memory,
    alloc: GuardedAlloc<N>,
    base: usize,
    size: usize,
    prot: Protection,
)
    requires
        alloc.wf(),
        guards_trap(memory, alloc),
        alloc.interior().base <= base,
        base + size <= alloc.interior().end(),
    ensures
        guards_trap(performed(memory, Request::Protect { base, size, prot }), alloc),
{
    alloc.lemma_layout();
    let after = performed(memory, Request::Protect { base, size, prot });
    assert forall|addr: int|
        alloc.leading_guard().contains(addr) || alloc.trailing_guard().contains(
            addr,
        ) implies traps(after, addr) by {
        assert(traps(memory, addr));
    }
}

/// Shrinking in place: after the requests of `GuardedAlloc::shrink` the guard
/// bands of the shrunk allocation fault, every address of the old frame behind
/// the new one faults, and the protection of the interior that is left is what
/// it was.
pub proof fn lemma_shrink_guards<const N: usize>(
    memory: Memory,
    alloc: GuardedAlloc<N>,
    shrunk: GuardedAlloc<N>,
    size: nat,
)
    requires
        alloc.wf(),
        shrunk.wf(),
        N > 0 || size > 0,
        outer_bytes(N as nat, size, alloc.geometry()) <= usize::MAX,
        shrunk.geometry() == alloc.geometry(),
        shrunk.frame() == (Span { base: alloc.frame().base, size: alloc.shrunk_size(size) }),
        guards_trap(memory, alloc),
    ensures
        ({
            let after = performed_all(memory, alloc.shrink_requests(size));
            &&& guards_trap(after, shrunk)
            &&& shrunk.interior().base == alloc.interior().base
            &&& shrunk.interior().size <= alloc.interior().size
            &&& forall|addr: int|
                shrunk.frame().end() <= addr < alloc.frame().end() ==> traps(after, addr)
            &&& forall|addr: int|
                shrunk.interior().contains(addr) && memory.dom().contains(addr)
                    ==> has_protection(after, addr, memory[addr])
        }),
{
    alloc.lemma_layout();
    shrunk.lemma_layout();
    let requests = alloc.shrink_requests(size);
    let outer = outer_bytes(N as nat, size, alloc.geometry());
    lemma_frame(N as nat, size, alloc.geometry());
    if outer < alloc.frame().size {
        assert(requests.len() == 2);
        let first = requests[0];
        let second = requests[1];
        assert(requests.drop_last() =~= seq![first]);
        assert(requests.drop_last().drop_last() =~= Seq::<Request>::empty());
        assert(requests.last() == second);
        assert(requests.drop_last().last() == first);
        assert(performed_all(memory, requests.drop_last().drop_last()) == memory);
        assert(performed_all(memory, requests.drop_last()) == performed(memory, first));
        assert(performed_all(memory, requests) == performed(performed(memory, first), second));
        let after = performed(performed(memory, first), second);
        lemma_guard_positive(N as nat, alloc.geometry());
        assert forall|addr: int|
            shrunk.leading_guard().contains(addr) || shrunk.trailing_guard().contains(
                addr,
            ) implies traps(after, addr) by {
            if shrunk.leading_guard().contains(addr) {
                assert(alloc.leading_guard().contains(addr));
                assert(traps(memory, addr));
            }
        }
    } else {
        assert(performed_all(memory, requests) == memory);
        assert(shrunk.frame() == alloc.frame());
    }
}

} // verus!
