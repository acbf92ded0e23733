//! Why an allocation request was turned down.

use vstd::prelude::*;

verus! {

/// The two ways in which the allocator refuses a request. Both are fatal to
/// the guest: the caller halts the machine.
#[derive(Clone, Copy, Debug, PartialEq, Eq, Structural)]
pub enum AllocError {
    /// The requested alignment is not a power of two, or is larger than the
    /// machine word, which is the strongest alignment the allocator gives.
    UnsupportedAlignment,
    /// The region has fewer words left than the request needs.
    OutOfMemory,
}

} // verus!
