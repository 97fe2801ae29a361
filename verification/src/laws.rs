//! What holds of every bag, whatever its domain answers.

use crate::bag::{
    drained, reclaim_due, retired, retired_all_pp, retired_pp, swept, BagState,
    COUNTS_BETWEEN_COLLECT,
};
use crate::domain::{snapshot_of, Domain};
use crate::record::{
    all_freed, kept, lemma_kept_all, lemma_split_members, lemma_split_push, lemma_split_twice,
    records_for, released, LocalRetired,
};
use std::collections::HashSet;
use vstd::multiset::Multiset;
use vstd::prelude::*;

verus! {

/// A record whose address is announced when a pass asks is not freed by that
/// pass: it is in the bag afterwards, and no record that the pass took out
/// is at its address.
pub proof fn lemma_guarded_record_is_kept<F: FnOnce(usize), G>(
    pre: BagState<F, G>,
    post: BagState<F, G>,
    guarded: Set<usize>,
    i: int,
)
    requires
        pre.pass(post, guarded),
        0 <= i < pre.retired.len(),
        guarded.contains(pre.retired[i].ptr),
    ensures
        post.retired.contains(pre.retired[i]),
        forall|j: int|
            0 <= j < released(pre.retired, guarded).len()
                ==> (#[trigger] released(pre.retired, guarded)[j]).ptr != pre.retired[i].ptr,
{
    pre.retired.lemma_filter_contains(|r: LocalRetired<F>| guarded.contains(r.ptr), i);
    lemma_split_members(pre.retired, guarded);
}

/// A pass sends every record one way and one way only: the records it keeps
/// and the records it frees, taken together, are the records it found, each
/// as often as it was there; the kept ones are at guarded addresses, the
/// freed ones are not, and the destructor of every freed one has run.
pub proof fn lemma_pass_partitions<F: FnOnce(usize), G>(
    pre: BagState<F, G>,
    post: BagState<F, G>,
    guarded: Set<usize>,
)
    requires
        pre.pass(post, guarded),
    ensures
        pre.retired.to_multiset() == post.retired.to_multiset().add(
            released(pre.retired, guarded).to_multiset(),
        ),
        forall|i: int|
            0 <= i < post.retired.len() ==> guarded.contains((#[trigger] post.retired[i]).ptr),
        forall|i: int|
            0 <= i < released(pre.retired, guarded).len() ==> !guarded.contains(
                (#[trigger] released(pre.retired, guarded)[i]).ptr,
            ),
        all_freed(released(pre.retired, guarded)),
{
    lemma_split_members(pre.retired, guarded);
    lemma_split_multiset(pre.retired, guarded);
}

/// The two parts of a split hold, between them, each record as often as the
/// whole does.
pub proof fn lemma_split_multiset<F>(records: Seq<LocalRetired<F>>, guarded: Set<usize>)
    ensures
        records.to_multiset() == kept(records, guarded).to_multiset().add(
            released(records, guarded).to_multiset(),
        ),
    decreases records.len(),
{
    broadcast use {
        vstd::seq_lib::to_multiset_build,
        vstd::seq_lib::to_multiset_len,
        vstd::multiset::lemma_multiset_empty_len,
        vstd::multiset::group_multiset_axioms,
    };

    if records.len() == 0 {
        let stay = kept(records, guarded);
        let go = released(records, guarded);
        lemma_split_members(records, guarded);
        assert(stay.len() == 0 && go.len() == 0) by {
            reveal(Seq::filter);
        }
        assert(records.to_multiset().len() == 0);
        assert(stay.to_multiset().len() == 0);
        assert(go.to_multiset().len() == 0);
        assert(records.to_multiset() =~= Multiset::empty());
        assert(stay.to_multiset() =~= Multiset::empty());
        assert(go.to_multiset() =~= Multiset::empty());
        assert(records.to_multiset() =~= stay.to_multiset().add(go.to_multiset()));
    } else {
        let front = records.drop_last();
        let last = records.last();
        assert(front.push(last) == records);
        lemma_split_multiset(front, guarded);
        lemma_split_push(front, last, guarded);
        assert(records.to_multiset() =~= kept(records, guarded).to_multiset().add(
            released(records, guarded).to_multiset(),
        ));
    }
}

/// Counting one more record moves the counter's place within its batch
/// forward by one, also where the counter wraps: the width of `usize` is a
/// multiple of the batch.
pub proof fn lemma_count_wraps_in_step(count: usize)
    ensures
        count.wrapping_add(1) % COUNTS_BETWEEN_COLLECT
            == (count + 1) % (COUNTS_BETWEEN_COLLECT as int),
{
    if usize::MAX == 0xffff_ffff {
        assert(0x1_0000_0000int % 128 == 0);
    } else {
        assert(usize::MAX == 0xffff_ffff_ffff_ffff);
        assert(0x1_0000_0000_0000_0000int % 128 == 0);
    }
}

/// What a retirement leaves of a bag's records and counter is what
/// [`BagState::retire`] says of them for some set of addresses. Where a pass
/// came due, that set is what the domain answered with, and the destructor
/// of every record that the pass took out has run.
pub proof fn lemma_retired_is_retire<D: Domain, F: FnOnce(usize)>(
    domain: &D,
    pre: BagState<F, D::Guard>,
    record: LocalRetired<F>,
    post: BagState<F, D::Guard>,
)
    requires
        retired(domain, pre, record, post) || retired_pp(domain, pre, record, post),
    ensures
        exists|seen: HashSet<usize>|
            {
                &&& post.retired == (#[trigger] pre.retire(record, seen@)).retired
                &&& post.count == pre.retire(record, seen@).count
                &&& reclaim_due(pre.push(record).count) ==> {
                    &&& snapshot_of(domain, seen)
                    &&& all_freed(released(pre.push(record).retired, seen@))
                }
            },
{
    let pushed = pre.push(record);
    if reclaim_due(pushed.count) {
        if retired(domain, pre, record, post) {
            let seen = choose|seen: HashSet<usize>| #[trigger]
                snapshot_of(domain, seen) && pushed.pass(post, seen@);
            assert(post.retired == pre.retire(record, seen@).retired);
        } else {
            let seen = choose|seen: HashSet<usize>| #[trigger]
                snapshot_of(domain, seen) && pushed.release_guards().pass(post, seen@);
            assert(post.retired == pre.retire(record, seen@).retired);
        }
    } else {
        let any = choose|seen: HashSet<usize>| #[trigger] snapshot_of(domain, seen);
        assert(post.retired == pre.retire(record, any@).retired);
    }
}

/// While the counter stays inside one batch no pass runs: the bag holds what
/// it held, then the records that were retired, in order.
pub proof fn lemma_retire_all_quiet<F: FnOnce(usize), G>(
    state: BagState<F, G>,
    records: Seq<LocalRetired<F>>,
    seen: Seq<Set<usize>>,
)
    requires
        seen.len() == records.len(),
        state.count % COUNTS_BETWEEN_COLLECT + records.len() < COUNTS_BETWEEN_COLLECT,
    ensures
        state.retire_all(records, seen).retired == state.retired + records,
        state.retire_all(records, seen).guards == state.guards,
        state.retire_all(records, seen).count == state.count + records.len(),
    decreases records.len(),
{
    if records.len() > 0 {
        let before = state.retire_all(records.drop_last(), seen.drop_last());
        lemma_retire_all_quiet(state, records.drop_last(), seen.drop_last());
        lemma_count_wraps_in_step(before.count);
        assert(usize::MAX == 0xffff_ffff || usize::MAX == 0xffff_ffff_ffff_ffff);
        assert(before.count < usize::MAX);
        assert(state.retired + records == (state.retired + records.drop_last()).push(
            records.last(),
        ));
    } else {
        assert(state.retired + records == state.retired);
    }
}

/// A retired record whose address is never announced again is freed within
/// one batch: among the next `COUNTS_BETWEEN_COLLECT` retirements there is
/// one that runs a pass, that pass leaves no record at the address, and the
/// destructor of every record that was in the bag at that address has run.
pub proof fn lemma_freed_within_a_batch<F: FnOnce(usize), G>(
    state: BagState<F, G>,
    records: Seq<LocalRetired<F>>,
    seen: Seq<Set<usize>>,
    addr: usize,
)
    requires
        records.len() == COUNTS_BETWEEN_COLLECT,
        seen.len() == COUNTS_BETWEEN_COLLECT,
        state.passes_freed(records, seen),
        forall|j: int| 0 <= j < seen.len() ==> !(#[trigger] seen[j]).contains(addr),
    ensures
        exists|k: int|
            1 <= k <= COUNTS_BETWEEN_COLLECT && reclaim_due(
                (#[trigger] state.retire_all(records.take(k), seen.take(k))).count,
            ) && state.retire_all(records.take(k), seen.take(k)).holds_none_at(addr),
        forall|i: int|
            0 <= i < state.retired.len() && state.retired[i].ptr == addr
                ==> (#[trigger] state.retired[i]).freed(),
{
    let k = COUNTS_BETWEEN_COLLECT - state.count % COUNTS_BETWEEN_COLLECT;
    let before = state.retire_all(records.take(k - 1), seen.take(k - 1));
    let pushed = state.pushed_at(records, seen, k);
    let after = state.retire_all(records.take(k), seen.take(k));
    assert(records.take(k).drop_last() == records.take(k - 1));
    assert(seen.take(k).drop_last() == seen.take(k - 1));
    assert(after == before.retire(records[k - 1], seen[k - 1]));
    lemma_retire_all_quiet(state, records.take(k - 1), seen.take(k - 1));
    lemma_count_wraps_in_step(before.count);
    assert(reclaim_due(pushed.count));
    assert(after.retired == kept(pushed.retired, seen[k - 1]));
    lemma_split_members(pushed.retired, seen[k - 1]);
    assert(after.holds_none_at(addr));
    assert forall|i: int|
        0 <= i < state.retired.len() && state.retired[i].ptr == addr
    implies (#[trigger] state.retired[i]).freed() by {
        let gone = released(pushed.retired, seen[k - 1]);
        assert(pushed.retired[i] == state.retired[i]);
        pushed.retired.lemma_filter_contains(
            |r: LocalRetired<F>| !seen[k - 1].contains(r.ptr),
            i,
        );
        let j = choose|j: int| 0 <= j < gone.len() && gone[j] == state.retired[i];
        assert(gone[j].freed());
    }
}

/// A pass loses no record: one that was in the bag is in it afterwards, or
/// its destructor has run.
pub proof fn lemma_pass_accounts<F: FnOnce(usize), G>(
    pre: BagState<F, G>,
    post: BagState<F, G>,
    guarded: Set<usize>,
    record: LocalRetired<F>,
)
    requires
        pre.pass(post, guarded),
        pre.retired.contains(record),
    ensures
        post.accounts_for(record),
{
    let i = choose|i: int| 0 <= i < pre.retired.len() && pre.retired[i] == record;
    if guarded.contains(record.ptr) {
        pre.retired.lemma_filter_contains(|r: LocalRetired<F>| guarded.contains(r.ptr), i);
    } else {
        let gone = released(pre.retired, guarded);
        pre.retired.lemma_filter_contains(|r: LocalRetired<F>| !guarded.contains(r.ptr), i);
        let j = choose|j: int| 0 <= j < gone.len() && gone[j] == record;
        assert(gone[j].freed());
    }
}

/// A retirement loses no record, neither the one it is handed nor one that
/// was in the bag, and it counts the one it is handed once.
pub proof fn lemma_retired_accounts<D: Domain, F: FnOnce(usize)>(
    domain: &D,
    pre: BagState<F, D::Guard>,
    new: LocalRetired<F>,
    post: BagState<F, D::Guard>,
    record: LocalRetired<F>,
)
    requires
        retired(domain, pre, new, post) || retired_pp(domain, pre, new, post),
        pre.retired.contains(record) || record == new,
    ensures
        post.accounts_for(record),
        post.count == pre.count.wrapping_add(1),
{
    let pushed = pre.push(new);
    assert(pushed.retired.contains(record)) by {
        if pre.retired.contains(record) {
            let i = choose|i: int| 0 <= i < pre.retired.len() && pre.retired[i] == record;
            assert(pushed.retired[i] == record);
        } else {
            assert(pushed.retired[pre.retired.len() as int] == record);
        }
    }
    if reclaim_due(pushed.count) {
        if retired(domain, pre, new, post) {
            let seen = choose|seen: HashSet<usize>| #[trigger]
                snapshot_of(domain, seen) && pushed.pass(post, seen@);
            lemma_pass_accounts(pushed, post, seen@, record);
        } else {
            let seen = choose|seen: HashSet<usize>| #[trigger]
                snapshot_of(domain, seen) && pushed.release_guards().pass(post, seen@);
            lemma_pass_accounts(pushed.release_guards(), post, seen@, record);
        }
    }
}

/// Retiring a run of addresses loses none of them and counts each once: the
/// record of each is in the bag afterwards or has been freed, and so is
/// every record that was in the bag before; the counter has advanced by
/// their number, wrapping at the width of `usize`; and the guards are those
/// that the bag kept, unless a pass came due and let all of them go.
pub proof fn lemma_retired_all_accounts<D: Domain, F: FnOnce(usize)>(
    domain: &D,
    pre: BagState<F, D::Guard>,
    addrs: Seq<usize>,
    deleter: F,
    post: BagState<F, D::Guard>,
)
    requires
        retired_all_pp(domain, pre, addrs, deleter, post),
    ensures
        forall|i: int|
            0 <= i < addrs.len() ==> post.accounts_for(
                (LocalRetired { ptr: #[trigger] addrs[i], deleter }),
            ),
        forall|i: int|
            0 <= i < pre.retired.len() ==> post.accounts_for(#[trigger] pre.retired[i]),
        post.count == (pre.count + addrs.len()) % (usize::MAX + 1),
        post.guards == pre.guards || post.guards.len() == 0,
    decreases addrs.len(),
{
    if addrs.len() > 0 {
        let new = LocalRetired { ptr: addrs.last(), deleter };
        let mid = choose|mid: BagState<F, D::Guard>|
            retired_all_pp(domain, pre, addrs.drop_last(), deleter, mid)
                && #[trigger] retired_pp(domain, mid, new, post);
        lemma_retired_all_accounts(domain, pre, addrs.drop_last(), deleter, mid);
        lemma_retired_accounts(domain, mid, new, post, new);
        assert(post.count == (pre.count + addrs.len()) % (usize::MAX + 1)) by {
            let before = pre.count + addrs.len() - 1;
            if usize::MAX == 0xffff_ffff {
                assert(mid.count == before % 0x1_0000_0000);
                assert(post.count == (before + 1) % 0x1_0000_0000);
            } else {
                assert(usize::MAX == 0xffff_ffff_ffff_ffff);
                assert(mid.count == before % 0x1_0000_0000_0000_0000);
                assert(post.count == (before + 1) % 0x1_0000_0000_0000_0000);
            }
        }
        assert forall|i: int| 0 <= i < addrs.len() implies post.accounts_for(
            (LocalRetired { ptr: #[trigger] addrs[i], deleter }),
        ) by {
            let record = LocalRetired { ptr: addrs[i], deleter };
            if i < addrs.len() - 1 {
                assert(addrs.drop_last()[i] == addrs[i]);
                if mid.retired.contains(record) {
                    lemma_retired_accounts(domain, mid, new, post, record);
                }
            }
        }
        assert forall|i: int| 0 <= i < pre.retired.len() implies post.accounts_for(
            #[trigger] pre.retired[i],
        ) by {
            if mid.retired.contains(pre.retired[i]) {
                lemma_retired_accounts(domain, mid, new, post, pre.retired[i]);
            }
        }
    } else {
        assert forall|i: int| 0 <= i < pre.retired.len() implies post.accounts_for(
            #[trigger] pre.retired[i],
        ) by {}
        if usize::MAX == 0xffff_ffff {
            assert(pre.count == (pre.count as int) % 0x1_0000_0000);
        } else {
            assert(usize::MAX == 0xffff_ffff_ffff_ffff);
            assert(pre.count == (pre.count as int) % 0x1_0000_0000_0000_0000);
        }
    }
}

/// Where no pass comes due while a run of addresses is retired, the bag
/// afterwards holds what it held, then one record for each address in
/// order, and the guards it kept.
pub proof fn lemma_retired_all_quiet<D: Domain, F: FnOnce(usize)>(
    domain: &D,
    pre: BagState<F, D::Guard>,
    addrs: Seq<usize>,
    deleter: F,
    post: BagState<F, D::Guard>,
)
    requires
        retired_all_pp(domain, pre, addrs, deleter, post),
        pre.count % COUNTS_BETWEEN_COLLECT + addrs.len() < COUNTS_BETWEEN_COLLECT,
    ensures
        post.retired == pre.retired + records_for(addrs, deleter),
        post.guards == pre.guards,
        post.count == pre.count + addrs.len(),
    decreases addrs.len(),
{
    let records = records_for(addrs, deleter);
    assert(usize::MAX == 0xffff_ffff || usize::MAX == 0xffff_ffff_ffff_ffff);
    if addrs.len() > 0 {
        let new = LocalRetired { ptr: addrs.last(), deleter };
        let mid = choose|mid: BagState<F, D::Guard>|
            retired_all_pp(domain, pre, addrs.drop_last(), deleter, mid)
                && #[trigger] retired_pp(domain, mid, new, post);
        lemma_retired_all_quiet(domain, pre, addrs.drop_last(), deleter, mid);
        let front = records_for(addrs.drop_last(), deleter);
        assert(records == front.push(new));
        assert(post.retired == pre.retired + records);
    } else {
        assert(post.retired == pre.retired + records);
    }
}

/// A pass that finds every address announced changes nothing.
pub proof fn lemma_pass_none<F: FnOnce(usize), G>(state: BagState<F, G>)
    ensures
        state.pass(state, Set::full()),
{
    let guarded = Set::<usize>::full();
    lemma_split_members(state.retired, guarded);
    assert(released(state.retired, guarded).len() == 0) by {
        if released(state.retired, guarded).len() > 0 {
            assert(!guarded.contains(released(state.retired, guarded)[0].ptr));
        }
    }
    lemma_kept_all(state.retired, guarded);
    assert(state.reclaim(guarded).retired == state.retired);
}

/// Two passes in a row amount to one pass that found announced only what
/// both of them found announced.
pub proof fn lemma_pass_twice<F: FnOnce(usize), G>(
    first: BagState<F, G>,
    second: BagState<F, G>,
    third: BagState<F, G>,
    seen_first: Set<usize>,
    seen_second: Set<usize>,
)
    requires
        first.pass(second, seen_first),
        second.pass(third, seen_second),
    ensures
        first.pass(third, seen_first.intersect(seen_second)),
{
    lemma_split_twice(first.retired, seen_first, seen_second);
}

/// However many passes a drain runs, they amount to a single pass: there
/// is a set of addresses such that the records at those addresses are left,
/// in their order, and every other record has been freed. The counter and
/// the guards are as they were.
pub proof fn lemma_drained_is_pass<D: Domain, F: FnOnce(usize)>(
    domain: &D,
    pre: BagState<F, D::Guard>,
    run: nat,
    post: BagState<F, D::Guard>,
)
    requires
        drained(domain, pre, run, post),
    ensures
        exists|guarded: Set<usize>| #[trigger] pre.pass(post, guarded),
    decreases run,
{
    if run == 0 {
        lemma_pass_none(pre);
    } else {
        let mid = choose|mid: BagState<F, D::Guard>|
            {
                &&& drained(domain, pre, (run - 1) as nat, mid)
                &&& mid.retired.len() > 0
                &&& #[trigger] swept(domain, mid, post)
            };
        lemma_drained_is_pass(domain, pre, (run - 1) as nat, mid);
        let first = choose|guarded: Set<usize>| #[trigger] pre.pass(mid, guarded);
        let second = choose|guarded: HashSet<usize>| #[trigger]
            snapshot_of(domain, guarded) && mid.pass(post, guarded@);
        lemma_pass_twice(pre, mid, post, first, second@);
    }
}

} // verus!
