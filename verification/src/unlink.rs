//! Removing nodes from a shared structure under the cover of hazard pointers.

use crate::bag::{retired_all_pp, retired_pp, LocalBag};
use crate::domain::{protects_all, Domain};
use crate::record::LocalRetired;
use vstd::prelude::*;

verus! {

/// `f` may be called on each address of `addrs`.
pub open spec fn takes_each<F: FnOnce(usize)>(f: F, addrs: Seq<usize>) -> bool {
    forall|i: int| 0 <= i < addrs.len() ==> call_requires(f, (#[trigger] addrs[i],))
}

/// For each address of `addrs`, a call of `f` on it has returned.
pub open spec fn ran_on_each<F: FnOnce(usize)>(f: F, addrs: Seq<usize>) -> bool {
    forall|i: int| 0 <= i < addrs.len() ==> call_ensures(f, (#[trigger] addrs[i],), ())
}

/// Acquires one guard for each address of `links`, in order.
fn protect_all<D: Domain>(domain: &D, links: &[usize]) -> (guards: Vec<D::Guard>)
    ensures
        protects_all(domain, links@, guards@),
{
    let mut guards: Vec<D::Guard> = Vec::new();
    for i in 0..links.len()
        invariant
            protects_all(domain, links@.take(i as int), guards@),
    {
        let guard = domain.protect(links[i]);
        guards.push(guard);
        assert(links@.take(i + 1) == links@.take(i as int).push(links@[i as int]));
    }
    assert(links@.take(links@.len() as int) == links@);
    guards
}

/// Calls `set_stop` on each address of `to_be_unlinked`, in order.
fn mark_all<M: Fn(usize)>(to_be_unlinked: &[usize], set_stop: &M)
    requires
        takes_each(*set_stop, to_be_unlinked@),
    ensures
        ran_on_each(*set_stop, to_be_unlinked@),
{
    for i in 0..to_be_unlinked.len()
        invariant
            takes_each(*set_stop, to_be_unlinked@),
            ran_on_each(*set_stop, to_be_unlinked@.take(i as int)),
    {
        set_stop(to_be_unlinked[i]);
        assert(to_be_unlinked@.take(i + 1) == to_be_unlinked@.take(i as int).push(
            to_be_unlinked@[i as int],
        ));
    }
    assert(to_be_unlinked@.take(to_be_unlinked@.len() as int) == to_be_unlinked@);
}

/// The first half of [`try_unlink`], which needs no bag: guards are acquired
/// for the addresses of `links`, `do_unlink` makes its attempt, and where it
/// reports success `set_stop` marks each address of `to_be_unlinked`. The
/// guards come back on success, for the bag to keep; on failure they are let
/// go and nothing comes back.
pub fn attempt_unlink<D: Domain, U: FnOnce() -> bool, M: Fn(usize)>(
    domain: &D,
    links: &[usize],
    to_be_unlinked: &[usize],
    do_unlink: U,
    set_stop: M,
) -> (guards: Option<Vec<D::Guard>>)
    requires
        call_requires(do_unlink, ()),
        call_ensures(do_unlink, (), true) ==> takes_each(set_stop, to_be_unlinked@),
    ensures
        call_ensures(do_unlink, (), guards is Some),
        guards matches Some(hps) ==> {
            &&& protects_all(domain, links@, hps@)
            &&& ran_on_each(set_stop, to_be_unlinked@)
        },
{
    let hps = protect_all(domain, links);
    let unlinked = do_unlink();
    if unlinked {
        mark_all(to_be_unlinked, &set_stop);
        Some(hps)
    } else {
        None
    }
}

/// The second half of [`try_unlink`]: the bag takes over the guards under
/// which the nodes were unlinked, then each address of `to_be_unlinked` is
/// retired with `deleter`, in order.
pub fn retire_unlinked<'s, D: Domain, F: FnOnce(usize) + Copy>(
    bag: &mut LocalBag<'s, D, F>,
    guards: Vec<D::Guard>,
    to_be_unlinked: &[usize],
    deleter: F,
)
    requires
        old(bag)@.wf(),
        takes_each(deleter, to_be_unlinked@),
    ensures
        final(bag).domain() == old(bag).domain(),
        final(bag)@.wf(),
        retired_all_pp(
            old(bag).domain(),
            old(bag)@.retain(guards@),
            to_be_unlinked@,
            deleter,
            final(bag)@,
        ),
{
    bag.retain_guards(guards);
    let ghost start = bag@;
    for i in 0..to_be_unlinked.len()
        invariant
            bag.domain() == old(bag).domain(),
            bag@.wf(),
            takes_each(deleter, to_be_unlinked@),
            retired_all_pp(
                old(bag).domain(),
                start,
                to_be_unlinked@.take(i as int),
                deleter,
                bag@,
            ),
    {
        let ghost before = bag@;
        bag.retire_pp(to_be_unlinked[i], deleter);
        proof {
            let done = to_be_unlinked@.take(i + 1);
            assert(done.drop_last() == to_be_unlinked@.take(i as int));
            assert(retired_pp(
                old(bag).domain(),
                before,
                (LocalRetired { ptr: done.last(), deleter }),
                bag@,
            ));
        }
    }
    assert(to_be_unlinked@.take(to_be_unlinked@.len() as int) == to_be_unlinked@);
}

/// One attempt to remove nodes from a shared structure.
///
/// Guards are acquired for the addresses of `links`, then `do_unlink` makes
/// the attempt. Where it reports success, `set_stop` marks each address of
/// `to_be_unlinked`, the bag takes the guards over, and each of those
/// addresses is retired with `deleter`. Where it reports failure the guards
/// are let go and the bag is as it was. The result is what `do_unlink` said.
pub fn try_unlink<'s, D: Domain, F: FnOnce(usize) + Copy, U: FnOnce() -> bool, M: Fn(usize)>(
    bag: &mut LocalBag<'s, D, F>,
    links: &[usize],
    to_be_unlinked: &[usize],
    do_unlink: U,
    set_stop: M,
    deleter: F,
) -> (unlinked: bool)
    requires
        old(bag)@.wf(),
        call_requires(do_unlink, ()),
        call_ensures(do_unlink, (), true) ==> {
            &&& takes_each(set_stop, to_be_unlinked@)
            &&& takes_each(deleter, to_be_unlinked@)
        },
    ensures
        call_ensures(do_unlink, (), unlinked),
        final(bag).domain() == old(bag).domain(),
        final(bag)@.wf(),
        !unlinked ==> final(bag)@ == old(bag)@,
        unlinked ==> ran_on_each(set_stop, to_be_unlinked@),
        unlinked ==> exists|guards: Seq<D::Guard>|
            #![trigger protects_all(old(bag).domain(), links@, guards)]
            {
                &&& protects_all(old(bag).domain(), links@, guards)
                &&& retired_all_pp(
                    old(bag).domain(),
                    old(bag)@.retain(guards),
                    to_be_unlinked@,
                    deleter,
                    final(bag)@,
                )
            },
{
    match attempt_unlink(bag.domain(), links, to_be_unlinked, do_unlink, set_stop) {
        Some(hps) => {
            retire_unlinked(bag, hps, to_be_unlinked, deleter);
            true
        },
        None => false,
    }
}

} // verus!
