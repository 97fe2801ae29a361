//! A pending free: an address and the destructor that frees it.

use std::collections::HashSet;
use vstd::prelude::*;

verus! {

broadcast use vstd::std_specs::hash::group_hash_axioms;

/// One record of a bag: the address of a node that was unlinked, and the
/// destructor that frees it. The destructor is consumed by its one call.
pub struct LocalRetired<F> {
    pub ptr: usize,
    pub deleter: F,
}

impl<F: FnOnce(usize)> LocalRetired<F> {
    /// The destructor accepts the record's own address.
    pub open spec fn wf(self) -> bool {
        call_requires(self.deleter, (self.ptr,))
    }

    /// The destructor has been called on the record's address and has
    /// returned. Of a destructor that nothing else is known of, this can be
    /// shown only by making the call.
    pub open spec fn freed(self) -> bool {
        call_ensures(self.deleter, (self.ptr,), ())
    }

    /// The record that frees the node at `ptr` by calling `deleter` on it.
    pub fn new(ptr: usize, deleter: F) -> (record: Self)
        ensures
            record == (LocalRetired { ptr, deleter }),
    {
        LocalRetired { ptr, deleter }
    }

    /// Runs the destructor on the record's address, which uses the record up.
    pub fn free(self)
        requires
            self.wf(),
        ensures
            self.freed(),
    {
        let LocalRetired { ptr, deleter } = self;
        deleter(ptr)
    }
}

/// The records of `records` whose address is in `guarded`, in their order.
pub open spec fn kept<F>(
    records: Seq<LocalRetired<F>>,
    guarded: Set<usize>,
) -> Seq<LocalRetired<F>> {
    records.filter(|r: LocalRetired<F>| guarded.contains(r.ptr))
}

/// The records of `records` whose address is not in `guarded`, in their order.
pub open spec fn released<F>(
    records: Seq<LocalRetired<F>>,
    guarded: Set<usize>,
) -> Seq<LocalRetired<F>> {
    records.filter(|r: LocalRetired<F>| !guarded.contains(r.ptr))
}

/// One record for each address of `addrs`, in order, each to be freed by
/// `deleter`.
pub open spec fn records_for<F>(addrs: Seq<usize>, deleter: F) -> Seq<LocalRetired<F>> {
    addrs.map_values(|ptr: usize| LocalRetired { ptr, deleter })
}

/// Every record's destructor accepts the record's address.
pub open spec fn all_wf<F: FnOnce(usize)>(records: Seq<LocalRetired<F>>) -> bool {
    forall|i: int| 0 <= i < records.len() ==> (#[trigger] records[i]).wf()
}

/// Every record's destructor has run.
pub open spec fn all_freed<F: FnOnce(usize)>(records: Seq<LocalRetired<F>>) -> bool {
    forall|i: int| 0 <= i < records.len() ==> (#[trigger] records[i]).freed()
}

/// Appending one record to `records` appends it to exactly one of the two
/// parts: the kept part if its address is guarded, the released part if not.
pub proof fn lemma_split_push<F>(
    records: Seq<LocalRetired<F>>,
    record: LocalRetired<F>,
    guarded: Set<usize>,
)
    ensures
        guarded.contains(record.ptr) ==> kept(records.push(record), guarded) == kept(
            records,
            guarded,
        ).push(record) && released(records.push(record), guarded) == released(records, guarded),
        !guarded.contains(record.ptr) ==> kept(records.push(record), guarded) == kept(
            records,
            guarded,
        ) && released(records.push(record), guarded) == released(records, guarded).push(record),
{
    records.lemma_filter_push(record, |r: LocalRetired<F>| guarded.contains(r.ptr));
    records.lemma_filter_push(record, |r: LocalRetired<F>| !guarded.contains(r.ptr));
}

/// Both parts hold records of `records` only: a guarded address on every
/// record of the kept part, an unguarded one on every record of the other.
pub proof fn lemma_split_members<F>(records: Seq<LocalRetired<F>>, guarded: Set<usize>)
    ensures
        forall|i: int|
            0 <= i < kept(records, guarded).len() ==> {
                &&& records.contains(#[trigger] kept(records, guarded)[i])
                &&& guarded.contains(kept(records, guarded)[i].ptr)
            },
        forall|i: int|
            0 <= i < released(records, guarded).len() ==> {
                &&& records.contains(#[trigger] released(records, guarded)[i])
                &&& !guarded.contains(released(records, guarded)[i].ptr)
            },
{
    let keep = |r: LocalRetired<F>| guarded.contains(r.ptr);
    let drop = |r: LocalRetired<F>| !guarded.contains(r.ptr);
    assert forall|i: int| 0 <= i < kept(records, guarded).len() implies {
        &&& records.contains(#[trigger] kept(records, guarded)[i])
        &&& guarded.contains(kept(records, guarded)[i].ptr)
    } by {
        let r = records.filter(keep)[i];
        assert(records.filter(keep).contains(r));
        records.lemma_filter_contains_rev(keep, r);
        records.lemma_filter_pred(keep, i);
    }
    assert forall|i: int| 0 <= i < released(records, guarded).len() implies {
        &&& records.contains(#[trigger] released(records, guarded)[i])
        &&& !guarded.contains(released(records, guarded)[i].ptr)
    } by {
        let r = records.filter(drop)[i];
        assert(records.filter(drop).contains(r));
        records.lemma_filter_contains_rev(drop, r);
        records.lemma_filter_pred(drop, i);
    }
}

/// Where every record's address is guarded, all of them are kept.
pub proof fn lemma_kept_all<F>(records: Seq<LocalRetired<F>>, guarded: Set<usize>)
    requires
        forall|i: int| 0 <= i < records.len() ==> guarded.contains(#[trigger] records[i].ptr),
    ensures
        kept(records, guarded) == records,
        released(records, guarded).len() == 0,
    decreases records.len(),
{
    if records.len() == 0 {
        reveal(Seq::filter);
    } else {
        let front = records.drop_last();
        lemma_kept_all(front, guarded);
        lemma_split_push(front, records.last(), guarded);
        assert(front.push(records.last()) == records);
    }
}

/// Splitting by `first` and then splitting the kept part by `second` keeps
/// what a single split by both keeps, and releases, between the two steps,
/// every record that the single split releases.
pub proof fn lemma_split_twice<F: FnOnce(usize)>(
    records: Seq<LocalRetired<F>>,
    first: Set<usize>,
    second: Set<usize>,
)
    ensures
        kept(kept(records, first), second) == kept(records, first.intersect(second)),
        all_freed(released(records, first)) && all_freed(released(kept(records, first), second))
            ==> all_freed(released(records, first.intersect(second))),
    decreases records.len(),
{
    let both = first.intersect(second);
    if records.len() == 0 {
        reveal(Seq::filter);
    } else {
        let front = records.drop_last();
        let last = records.last();
        assert(front.push(last) == records);
        lemma_split_twice(front, first, second);
        lemma_split_push(front, last, first);
        lemma_split_push(front, last, both);
        lemma_split_push(kept(front, first), last, second);
        if all_freed(released(records, first))
            && all_freed(released(kept(records, first), second)) {
            let gone_first = released(front, first);
            let gone_second = released(kept(front, first), second);
            assert(all_freed(gone_first)) by {
                assert forall|i: int| 0 <= i < gone_first.len() implies (
                #[trigger] gone_first[i]).freed() by {
                    assert(released(records, first)[i] == gone_first[i]);
                }
            }
            assert(all_freed(gone_second)) by {
                assert forall|i: int| 0 <= i < gone_second.len() implies (
                #[trigger] gone_second[i]).freed() by {
                    assert(released(kept(records, first), second)[i] == gone_second[i]);
                }
            }
            if !both.contains(last.ptr) {
                assert(last.freed()) by {
                    if !first.contains(last.ptr) {
                        assert(released(records, first).last() == last);
                    } else {
                        assert(released(kept(records, first), second).last() == last);
                    }
                }
            }
        }
    }
}

/// Goes through `records` in order, frees every record whose address is
/// not in `guarded`, and hands back the others.
pub fn sweep<F: FnOnce(usize)>(
    records: Vec<LocalRetired<F>>,
    guarded: &HashSet<usize>,
) -> (rest: Vec<LocalRetired<F>>)
    requires
        all_wf(records@),
    ensures
        rest@ == kept(records@, guarded@),
        all_wf(rest@),
        all_freed(released(records@, guarded@)),
{
    let ghost all = records@;
    let mut rest: Vec<LocalRetired<F>> = Vec::new();
    for record in it: records
        invariant
            it.seq() == all,
            all_wf(all),
            rest@ == kept(all.take(it.index() as int), guarded@),
            all_freed(released(all.take(it.index() as int), guarded@)),
    {
        proof {
            let i = it.index() as int;
            assert(record == all[i]);
            assert(all.take(i + 1) == all.take(i).push(all[i]));
            lemma_split_push(all.take(i), all[i], guarded@);
        }
        if guarded.contains(&record.ptr) {
            rest.push(record);
        } else {
            record.free();
        }
    }
    proof {
        assert(all.take(all.len() as int) == all);
        lemma_split_members(all, guarded@);
    }
    rest
}

} // verus!
