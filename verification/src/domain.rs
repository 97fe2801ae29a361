//! The registry of hazard pointers, as the reclamation engine sees it.

use std::collections::HashSet;
use vstd::prelude::*;

verus! {

/// The authority that knows which addresses are announced as in use.
///
/// The methods carry no contract: what a registry answers depends on what
/// every other thread is doing at that moment, so the engine is verified for
/// whatever comes back.
pub trait Domain {
    /// A handle that keeps one address announced for as long as it lives, and
    /// retracts the announcement when it is dropped.
    type Guard;

    /// Acquires a guard and points it at `addr`.
    fn protect(&self, addr: usize) -> Self::Guard;

    /// Every address that some live guard, on any thread, announces right now.
    fn collect_guarded_ptrs(&self) -> HashSet<usize>;
}

/// `guard` is one that `domain` handed out when asked to protect `addr`.
pub open spec fn protects<D: Domain>(domain: &D, addr: usize, guard: D::Guard) -> bool {
    call_ensures(D::protect, (domain, addr), guard)
}

/// `guards` holds one guard for each address of `links`, in the same order,
/// each handed out by `domain` for that address.
pub open spec fn protects_all<D: Domain>(
    domain: &D,
    links: Seq<usize>,
    guards: Seq<D::Guard>,
) -> bool {
    &&& guards.len() == links.len()
    &&& forall|i: int| 0 <= i < links.len() ==> protects(domain, links[i], #[trigger] guards[i])
}

/// `guarded` is an answer that `domain` gave when asked for the guarded addresses.
pub open spec fn snapshot_of<D: Domain>(domain: &D, guarded: HashSet<usize>) -> bool {
    call_ensures(D::collect_guarded_ptrs, (domain,), guarded)
}

} // verus!
