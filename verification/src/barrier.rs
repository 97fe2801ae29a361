//! The two calls of a reclamation pass that only the machine gives meaning to.

use vstd::prelude::*;

verus! {

/// `membarrier::heavy` issues a memory barrier on behalf of every thread of
/// the process and returns nothing. Nothing is claimed of it: it orders
/// memory accesses, of which no contract here speaks. Where the kernel
/// refuses the barrier, the call ends the process.
pub assume_specification[ membarrier::heavy ]();

/// `core::hint::spin_loop` tells the processor that the caller is waiting in
/// a loop and returns nothing. Nothing is claimed of it.
pub assume_specification[ core::hint::spin_loop ]();

} // verus!
