//! The word-granular entry point to the allocator.
//!
//! Other guest modules ask for raw memory under this one fixed name, without
//! going through the byte-and-alignment interface. It works on the same
//! allocator as every other request, so the two can never drift apart.

use vstd::prelude::*;
use crate::bump::BumpPointerAlloc;
use crate::error::AllocError;
use crate::region::outcome_model;

verus! {

/// Hands out `nwords` whole words from `heap`, at its watermark. Where fewer
/// words remain the request is refused with `OutOfMemory` and the heap is
/// left untouched; the caller is then to halt the machine. A request for no
/// words returns the watermark and changes nothing.
pub fn zkvm_abi_alloc_words(
    heap: &mut BumpPointerAlloc,
    nwords: usize,
) -> (r: Result<usize, AllocError>)
    ensures
        old(heap)@.wf(),
        final(heap)@.wf(),
        final(heap)@ == old(heap)@.take_words(nwords as nat).0,
        outcome_model(r) == old(heap)@.take_words(nwords as nat).1,
    no_unwind
{
    heap.allocate_words(nwords)
}

} // verus!
