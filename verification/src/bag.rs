//! The per-thread bag of pending frees and its retire / reclaim cycle.

use crate::domain::{snapshot_of, Domain};
use crate::record::{all_freed, all_wf, kept, released, sweep, LocalRetired};
use std::collections::HashSet;
use vstd::prelude::*;

verus! {

/// A reclamation pass runs each time this many records have been retired.
pub const COUNTS_BETWEEN_COLLECT: usize = 128;

/// What a bag holds, as plain values: its records in the order they were
/// retired, the guards it keeps alive until its next pass, and how many
/// records it has been handed so far (wrapping at the width of `usize`).
pub struct BagState<F, G> {
    pub retired: Seq<LocalRetired<F>>,
    pub guards: Seq<G>,
    pub count: usize,
}

/// A counter value at which a pass is due.
pub open spec fn reclaim_due(count: usize) -> bool {
    count % COUNTS_BETWEEN_COLLECT == 0
}

impl<F: FnOnce(usize), G> BagState<F, G> {
    /// A bag that has never been handed anything.
    pub open spec fn empty() -> Self {
        BagState { retired: Seq::empty(), guards: Seq::empty(), count: 0 }
    }

    /// Every record can be freed by its own destructor.
    pub open spec fn wf(self) -> bool {
        all_wf(self.retired)
    }

    /// The bag after `record` has been appended and counted.
    pub open spec fn push(self, record: LocalRetired<F>) -> Self {
        BagState {
            retired: self.retired.push(record),
            guards: self.guards,
            count: self.count.wrapping_add(1),
        }
    }

    /// The bag after it has taken over `guards`.
    pub open spec fn retain(self, guards: Seq<G>) -> Self {
        BagState { retired: self.retired, guards: self.guards + guards, count: self.count }
    }

    /// The bag after it has let go of the guards it kept.
    pub open spec fn release_guards(self) -> Self {
        BagState { retired: self.retired, guards: Seq::empty(), count: self.count }
    }

    /// The bag after a pass that found `guarded` announced: the records at
    /// those addresses stay, in their order, and the others are gone.
    pub open spec fn reclaim(self, guarded: Set<usize>) -> Self {
        BagState { retired: kept(self.retired, guarded), guards: self.guards, count: self.count }
    }

    /// A pass that found `guarded` announced turned `self` into `post`, and
    /// ran the destructor of every record that it took out.
    pub open spec fn pass(self, post: Self, guarded: Set<usize>) -> bool {
        &&& post == self.reclaim(guarded)
        &&& all_freed(released(self.retired, guarded))
    }

    /// The bag after `record` was retired into it, where a pass that came due
    /// found `guarded` announced.
    pub open spec fn retire(self, record: LocalRetired<F>, guarded: Set<usize>) -> Self {
        if reclaim_due(self.push(record).count) {
            self.push(record).reclaim(guarded)
        } else {
            self.push(record)
        }
    }

    /// The bag after `records` were retired into it one after the other,
    /// where a pass that came due with the `i`th of them found `seen[i]`
    /// announced.
    pub open spec fn retire_all(self, records: Seq<LocalRetired<F>>, seen: Seq<Set<usize>>) -> Self
        recommends
            seen.len() == records.len(),
        decreases records.len(),
    {
        if records.len() == 0 {
            self
        } else {
            self.retire_all(records.drop_last(), seen.drop_last()).retire(
                records.last(),
                seen.last(),
            )
        }
    }

    /// The bag in the middle of the `k`th of these retirements, counting
    /// from one: the record has been appended and counted, and the pass, if
    /// one is due, has not begun.
    pub open spec fn pushed_at(
        self,
        records: Seq<LocalRetired<F>>,
        seen: Seq<Set<usize>>,
        k: int,
    ) -> Self
        recommends
            seen.len() == records.len(),
            1 <= k <= records.len(),
    {
        self.retire_all(records.take(k - 1), seen.take(k - 1)).push(records[k - 1])
    }

    /// Every pass that came due while `records` were retired ran the
    /// destructor of each record that it took out.
    pub open spec fn passes_freed(
        self,
        records: Seq<LocalRetired<F>>,
        seen: Seq<Set<usize>>,
    ) -> bool
        recommends
            seen.len() == records.len(),
    {
        forall|k: int|
            1 <= k <= records.len() && reclaim_due(
                (#[trigger] self.pushed_at(records, seen, k)).count,
            ) ==> all_freed(released(self.pushed_at(records, seen, k).retired, seen[k - 1]))
    }

    /// `record` has not been lost: it waits in the bag, or its destructor
    /// has run.
    pub open spec fn accounts_for(self, record: LocalRetired<F>) -> bool {
        self.retired.contains(record) || record.freed()
    }

    /// No record of the bag is at `addr`.
    pub open spec fn holds_none_at(self, addr: usize) -> bool {
        forall|i: int| 0 <= i < self.retired.len() ==> (#[trigger] self.retired[i]).ptr != addr
    }
}

/// A pass over `pre` that asked `domain` for the guarded addresses left `post`.
pub open spec fn swept<D: Domain, F: FnOnce(usize)>(
    domain: &D,
    pre: BagState<F, D::Guard>,
    post: BagState<F, D::Guard>,
) -> bool {
    exists|guarded: HashSet<usize>| #[trigger]
        snapshot_of(domain, guarded) && pre.pass(post, guarded@)
}

/// A retirement of `record` into a bag in state `pre` left the bag in
/// state `post`: the record was appended and counted, and where that made
/// a pass due, the pass ran on the result.
pub open spec fn retired<D: Domain, F: FnOnce(usize)>(
    domain: &D,
    pre: BagState<F, D::Guard>,
    record: LocalRetired<F>,
    post: BagState<F, D::Guard>,
) -> bool {
    if reclaim_due(pre.push(record).count) {
        swept(domain, pre.push(record), post)
    } else {
        post == pre.push(record)
    }
}

/// As [`retired`], for the retirement that lets the kept guards go
/// before its pass.
pub open spec fn retired_pp<D: Domain, F: FnOnce(usize)>(
    domain: &D,
    pre: BagState<F, D::Guard>,
    record: LocalRetired<F>,
    post: BagState<F, D::Guard>,
) -> bool {
    if reclaim_due(pre.push(record).count) {
        swept(domain, pre.push(record).release_guards(), post)
    } else {
        post == pre.push(record)
    }
}

/// `post` is what retiring the nodes at `addrs`, one after the other and
/// each with `deleter`, as [`LocalBag::retire_pp`] does, made of `pre`.
pub open spec fn retired_all_pp<D: Domain, F: FnOnce(usize)>(
    domain: &D,
    pre: BagState<F, D::Guard>,
    addrs: Seq<usize>,
    deleter: F,
    post: BagState<F, D::Guard>,
) -> bool
    decreases addrs.len(),
{
    if addrs.len() == 0 {
        post == pre
    } else {
        exists|mid: BagState<F, D::Guard>|
            retired_all_pp(domain, pre, addrs.drop_last(), deleter, mid)
                && #[trigger] retired_pp(
                domain,
                mid,
                (LocalRetired { ptr: addrs.last(), deleter }),
                post,
            )
    }
}

/// `post` is what `run` passes in a row made of `pre`, each of them begun
/// because the one before had left some record in the bag.
pub open spec fn drained<D: Domain, F: FnOnce(usize)>(
    domain: &D,
    pre: BagState<F, D::Guard>,
    run: nat,
    post: BagState<F, D::Guard>,
) -> bool
    decreases run,
{
    if run == 0 {
        post == pre
    } else {
        exists|mid: BagState<F, D::Guard>|
            {
                &&& drained(domain, pre, (run - 1) as nat, mid)
                &&& mid.retired.len() > 0
                &&& #[trigger] swept(domain, mid, post)
            }
    }
}

/// A thread's own collection of retired records, bound to one domain.
pub struct LocalBag<'s, D: Domain, F> {
    domain: &'s D,
    retired: Vec<LocalRetired<F>>,
    hps: Vec<D::Guard>,
    collect_count: usize,
}

impl<'s, D: Domain, F: FnOnce(usize)> View for LocalBag<'s, D, F> {
    type V = BagState<F, D::Guard>;

    closed spec fn view(&self) -> BagState<F, D::Guard> {
        BagState { retired: self.retired@, guards: self.hps@, count: self.collect_count }
    }
}

impl<'s, D: Domain, F: FnOnce(usize)> LocalBag<'s, D, F> {
    /// The domain whose guards hold this bag's records back.
    pub closed spec fn spec_domain(&self) -> &'s D {
        self.domain
    }

    /// The domain that the bag was made for.
    #[verifier::when_used_as_spec(spec_domain)]
    pub fn domain(&self) -> (domain: &'s D)
        ensures
            domain == self.domain(),
    {
        self.domain
    }

    /// An empty bag whose passes will ask `domain` what is guarded.
    pub fn new(domain: &'s D) -> (bag: Self)
        ensures
            bag.domain() == domain,
            bag@ == BagState::<F, D::Guard>::empty(),
    {
        LocalBag { domain, retired: Vec::new(), hps: Vec::new(), collect_count: 0 }
    }

    /// Frees every record whose address is not in `guarded` and keeps the rest.
    pub fn reclaim_unguarded(&mut self, guarded: &HashSet<usize>)
        requires
            old(self)@.wf(),
        ensures
            final(self).domain() == old(self).domain(),
            final(self)@.wf(),
            old(self)@.pass(final(self)@, guarded@),
    {
        let mut records: Vec<LocalRetired<F>> = Vec::new();
        core::mem::swap(&mut self.retired, &mut records);
        self.retired = sweep(records, guarded);
    }

    /// Takes over guards that must stay alive until the next pass.
    pub fn retain_guards(&mut self, guards: Vec<D::Guard>)
        ensures
            final(self).domain() == old(self).domain(),
            final(self)@ == old(self)@.retain(guards@),
    {
        let mut guards = guards;
        self.hps.append(&mut guards);
    }

    /// One reclamation pass: a barrier, then the domain's word on what is
    /// guarded, then every record that is not guarded is freed.
    pub fn do_reclamation(&mut self)
        requires
            old(self)@.wf(),
        ensures
            final(self).domain() == old(self).domain(),
            final(self)@.wf(),
            swept(old(self).domain(), old(self)@, final(self)@),
    {
        membarrier::heavy();
        let guarded_ptrs = self.domain.collect_guarded_ptrs();
        self.reclaim_unguarded(&guarded_ptrs);
        assert(snapshot_of(self.domain, guarded_ptrs));
    }

    /// One reclamation pass that first lets go of the guards the bag kept:
    /// once the barrier has fired, what they protected is visibly unlinked.
    pub fn do_reclamation_pp(&mut self)
        requires
            old(self)@.wf(),
        ensures
            final(self).domain() == old(self).domain(),
            final(self)@.wf(),
            swept(old(self).domain(), old(self)@.release_guards(), final(self)@),
    {
        membarrier::heavy();
        self.hps = Vec::new();
        let guarded_ptrs = self.domain.collect_guarded_ptrs();
        self.reclaim_unguarded(&guarded_ptrs);
        assert(snapshot_of(self.domain, guarded_ptrs));
    }

    /// Hands the node at `ptr` to the bag, to be freed by `deleter` once no
    /// guard announces it. Every [`COUNTS_BETWEEN_COLLECT`]th retirement runs
    /// a pass.
    pub fn retire(&mut self, ptr: usize, deleter: F)
        requires
            old(self)@.wf(),
            call_requires(deleter, (ptr,)),
        ensures
            final(self).domain() == old(self).domain(),
            final(self)@.wf(),
            retired(
                old(self).domain(),
                old(self)@,
                (LocalRetired { ptr, deleter }),
                final(self)@,
            ),
    {
        self.retired.push(LocalRetired::new(ptr, deleter));
        let collect_count = self.collect_count.wrapping_add(1);
        self.collect_count = collect_count;
        if collect_count % COUNTS_BETWEEN_COLLECT == 0 {
            self.do_reclamation();
        }
    }

    /// As [`Self::retire`], but a pass that it runs first lets go of the
    /// guards that the bag kept.
    pub fn retire_pp(&mut self, ptr: usize, deleter: F)
        requires
            old(self)@.wf(),
            call_requires(deleter, (ptr,)),
        ensures
            final(self).domain() == old(self).domain(),
            final(self)@.wf(),
            retired_pp(
                old(self).domain(),
                old(self)@,
                (LocalRetired { ptr, deleter }),
                final(self)@,
            ),
    {
        self.retired.push(LocalRetired::new(ptr, deleter));
        let collect_count = self.collect_count.wrapping_add(1);
        self.collect_count = collect_count;
        if collect_count % COUNTS_BETWEEN_COLLECT == 0 {
            self.do_reclamation_pp();
        }
    }

    /// Runs passes until no record is left, `passes` of them at most, with
    /// a spin-loop hint after each, and says whether the bag is empty now. A
    /// record whose address stays guarded keeps the bag from emptying,
    /// however many passes run.
    pub fn drain(&mut self, passes: usize) -> (empty: bool)
        requires
            old(self)@.wf(),
        ensures
            final(self).domain() == old(self).domain(),
            final(self)@.wf(),
            empty == (final(self)@.retired.len() == 0),
            exists|run: nat|
                {
                    &&& run <= passes
                    &&& #[trigger] drained(old(self).domain(), old(self)@, run, final(self)@)
                    &&& run == passes || empty
                },
    {
        let mut left = passes;
        let ghost mut run: nat = 0;
        while !self.retired.is_empty() && left > 0
            invariant
                self.domain() == old(self).domain(),
                self@.wf(),
                run + left == passes,
                drained(old(self).domain(), old(self)@, run, self@),
            decreases left,
        {
            self.do_reclamation();
            core::hint::spin_loop();
            left = left - 1;
            proof {
                run = run + 1;
            }
        }
        self.retired.is_empty()
    }

    /// How many records wait in the bag.
    pub fn len(&self) -> (n: usize)
        ensures
            n == self@.retired.len(),
    {
        self.retired.len()
    }

    /// How many guards the bag keeps alive.
    pub fn guards_held(&self) -> (n: usize)
        ensures
            n == self@.guards.len(),
    {
        self.hps.len()
    }

    /// How many records the bag has been handed so far, wrapping at the
    /// width of `usize`.
    pub fn collect_count(&self) -> (count: usize)
        ensures
            count == self@.count,
    {
        self.collect_count
    }

    /// The addresses of the records that wait in the bag, in their order.
    pub fn pending(&self) -> (ptrs: Vec<usize>)
        ensures
            ptrs@ == self@.retired.map_values(|r: LocalRetired<F>| r.ptr),
    {
        let mut ptrs: Vec<usize> = Vec::new();
        for i in 0..self.retired.len()
            invariant
                ptrs@ == self@.retired.take(i as int).map_values(|r: LocalRetired<F>| r.ptr),
        {
            ptrs.push(self.retired[i].ptr);
        }
        assert(self@.retired.take(self@.retired.len() as int) == self@.retired);
        ptrs
    }
}

} // verus!
