use hp_reclaim::record::sweep;
use hp_reclaim::{
    attempt_unlink, retire_unlinked, try_unlink, Domain, LocalBag, LocalRetired,
    COUNTS_BETWEEN_COLLECT,
};
use std::cell::RefCell;
use std::collections::HashSet;
use std::rc::Rc;

/// A registry for one thread: each live guard owns one slot.
struct Registry {
    slots: Rc<RefCell<Vec<Option<usize>>>>,
    asked: RefCell<usize>,
}

struct Guard {
    slots: Rc<RefCell<Vec<Option<usize>>>>,
    slot: usize,
}

impl Drop for Guard {
    fn drop(&mut self) {
        self.slots.borrow_mut()[self.slot] = None;
    }
}

impl Registry {
    fn new() -> Self {
        Registry { slots: Rc::new(RefCell::new(Vec::new())), asked: RefCell::new(0) }
    }

    fn guarded(&self) -> Vec<usize> {
        let mut all: Vec<usize> = self.slots.borrow().iter().filter_map(|s| *s).collect();
        all.sort();
        all
    }

    fn times_asked(&self) -> usize {
        *self.asked.borrow()
    }
}

impl Domain for Registry {
    type Guard = Guard;

    fn protect(&self, addr: usize) -> Guard {
        let mut slots = self.slots.borrow_mut();
        slots.push(Some(addr));
        Guard { slots: self.slots.clone(), slot: slots.len() - 1 }
    }

    fn collect_guarded_ptrs(&self) -> HashSet<usize> {
        *self.asked.borrow_mut() += 1;
        self.slots.borrow().iter().filter_map(|s| *s).collect()
    }
}

fn set_of(addrs: &[usize]) -> HashSet<usize> {
    addrs.iter().copied().collect()
}

#[test]
fn threshold_is_128() {
    assert_eq!(COUNTS_BETWEEN_COLLECT, 128);
}

#[test]
fn new_bag_is_empty() {
    let registry = Registry::new();
    let freed = RefCell::new(Vec::<usize>::new());
    let deleter = |addr: usize| freed.borrow_mut().push(addr);
    let mut bag = LocalBag::new(&registry);
    assert_eq!(bag.len(), 0);
    assert_eq!(bag.guards_held(), 0);
    assert_eq!(bag.collect_count(), 0);
    assert_eq!(bag.pending(), Vec::<usize>::new());
    assert!(std::ptr::eq(bag.domain(), &registry));
    bag.retire(8, deleter);
    assert_eq!(bag.len(), 1);
}

#[test]
fn record_keeps_address_and_frees_once() {
    let freed = RefCell::new(Vec::<usize>::new());
    let record = LocalRetired::new(0x40, |addr: usize| freed.borrow_mut().push(addr));
    assert_eq!(record.ptr, 0x40);
    assert!(freed.borrow().is_empty());
    record.free();
    assert_eq!(*freed.borrow(), vec![0x40]);
}

#[test]
fn retire_127_then_one_more_frees_all() {
    let registry = Registry::new();
    let freed = RefCell::new(Vec::<usize>::new());
    let deleter = |addr: usize| freed.borrow_mut().push(addr);
    let mut bag = LocalBag::new(&registry);
    for i in 1..=127usize {
        bag.retire(i * 16, deleter);
    }
    assert_eq!(bag.len(), 127);
    assert_eq!(bag.collect_count(), 127);
    assert!(freed.borrow().is_empty());
    assert_eq!(registry.times_asked(), 0);
    bag.retire(128 * 16, deleter);
    assert_eq!(registry.times_asked(), 1);
    assert_eq!(bag.len(), 0);
    assert_eq!(bag.collect_count(), 128);
    let expected: Vec<usize> = (1..=128usize).map(|i| i * 16).collect();
    assert_eq!(*freed.borrow(), expected);
}

#[test]
fn guarded_address_survives_until_released() {
    let registry = Registry::new();
    let freed = RefCell::new(Vec::<usize>::new());
    let deleter = |addr: usize| freed.borrow_mut().push(addr);
    let mut bag = LocalBag::new(&registry);
    let a = 0xA000usize;
    let guard = registry.protect(a);
    bag.retire(a, deleter);
    for i in 1..=127usize {
        bag.retire(i * 16, deleter);
    }
    assert_eq!(registry.times_asked(), 1);
    assert_eq!(bag.pending(), vec![a]);
    assert_eq!(freed.borrow().len(), 127);
    assert!(!freed.borrow().contains(&a));

    drop(guard);
    for i in 1..=127usize {
        bag.retire(0x10000 + i * 16, deleter);
    }
    assert_eq!(registry.times_asked(), 1);
    assert_eq!(bag.len(), 128);
    assert_eq!(bag.pending()[0], a);
    assert!(!freed.borrow().contains(&a));
    bag.retire(0x20000, deleter);
    assert_eq!(registry.times_asked(), 2);
    assert_eq!(bag.len(), 0);
    assert_eq!(freed.borrow().len(), 256);
    assert_eq!(freed.borrow().iter().filter(|&&p| p == a).count(), 1);
}

#[test]
fn every_record_is_freed_exactly_once() {
    let registry = Registry::new();
    let freed = RefCell::new(Vec::<usize>::new());
    let deleter = |addr: usize| freed.borrow_mut().push(addr);
    let mut bag = LocalBag::new(&registry);
    let held = registry.protect(5 * 8);
    for i in 1..=300usize {
        bag.retire(i * 8, deleter);
    }
    drop(held);
    assert!(bag.drain(4));
    let mut seen = freed.borrow().clone();
    seen.sort();
    let expected: Vec<usize> = (1..=300usize).map(|i| i * 8).collect();
    assert_eq!(seen, expected);
}

#[test]
fn reclaim_unguarded_keeps_guarded_in_order() {
    let registry = Registry::new();
    let freed = RefCell::new(Vec::<usize>::new());
    let deleter = |addr: usize| freed.borrow_mut().push(addr);
    let mut bag = LocalBag::new(&registry);
    for addr in [10usize, 20, 30, 20, 40] {
        bag.retire(addr, deleter);
    }
    bag.reclaim_unguarded(&set_of(&[20, 40, 99]));
    assert_eq!(bag.pending(), vec![20, 20, 40]);
    assert_eq!(*freed.borrow(), vec![10, 30]);
    assert_eq!(bag.collect_count(), 5);
    assert_eq!(registry.times_asked(), 0);
    bag.reclaim_unguarded(&set_of(&[]));
    assert_eq!(bag.len(), 0);
    assert_eq!(*freed.borrow(), vec![10, 30, 20, 20, 40]);
}

#[test]
fn do_reclamation_asks_the_domain() {
    let registry = Registry::new();
    let freed = RefCell::new(Vec::<usize>::new());
    let deleter = |addr: usize| freed.borrow_mut().push(addr);
    let mut bag = LocalBag::new(&registry);
    let guard = registry.protect(2);
    bag.retire(1, deleter);
    bag.retire(2, deleter);
    bag.retire(3, deleter);
    bag.do_reclamation();
    assert_eq!(registry.times_asked(), 1);
    assert_eq!(bag.pending(), vec![2]);
    assert_eq!(*freed.borrow(), vec![1, 3]);
    drop(guard);
    bag.do_reclamation();
    assert_eq!(bag.len(), 0);
    assert_eq!(*freed.borrow(), vec![1, 3, 2]);
}

#[test]
fn do_reclamation_keeps_the_bags_guards() {
    let registry = Registry::new();
    let freed = RefCell::new(Vec::<usize>::new());
    let deleter = |addr: usize| freed.borrow_mut().push(addr);
    let mut bag = LocalBag::new(&registry);
    bag.retain_guards(vec![registry.protect(7)]);
    bag.retire(7, deleter);
    bag.do_reclamation();
    assert_eq!(bag.guards_held(), 1);
    assert_eq!(bag.pending(), vec![7]);
    assert!(freed.borrow().is_empty());
}

#[test]
fn do_reclamation_pp_lets_guards_go_before_it_asks() {
    let registry = Registry::new();
    let freed = RefCell::new(Vec::<usize>::new());
    let deleter = |addr: usize| freed.borrow_mut().push(addr);
    let mut bag = LocalBag::new(&registry);
    bag.retain_guards(vec![registry.protect(7), registry.protect(9)]);
    assert_eq!(bag.guards_held(), 2);
    assert_eq!(registry.guarded(), vec![7, 9]);
    bag.retire_pp(7, deleter);
    bag.do_reclamation_pp();
    assert_eq!(bag.guards_held(), 0);
    assert_eq!(registry.guarded(), Vec::<usize>::new());
    assert_eq!(bag.len(), 0);
    assert_eq!(*freed.borrow(), vec![7]);
}

#[test]
fn retire_pp_runs_a_pass_on_the_128th() {
    let registry = Registry::new();
    let freed = RefCell::new(Vec::<usize>::new());
    let deleter = |addr: usize| freed.borrow_mut().push(addr);
    let mut bag = LocalBag::new(&registry);
    bag.retain_guards(vec![registry.protect(16)]);
    for i in 1..=127usize {
        bag.retire_pp(i * 16, deleter);
    }
    assert_eq!(bag.len(), 127);
    assert_eq!(bag.guards_held(), 1);
    assert!(freed.borrow().is_empty());
    bag.retire_pp(128 * 16, deleter);
    assert_eq!(bag.guards_held(), 0);
    assert_eq!(bag.len(), 0);
    assert_eq!(freed.borrow().len(), 128);
    assert_eq!(freed.borrow()[0], 16);
}

#[test]
fn drain_empties_an_unguarded_bag() {
    let registry = Registry::new();
    let freed = RefCell::new(Vec::<usize>::new());
    let deleter = |addr: usize| freed.borrow_mut().push(addr);
    let mut bag = LocalBag::new(&registry);
    assert!(bag.drain(0));
    assert_eq!(registry.times_asked(), 0);
    bag.retire(1, deleter);
    bag.retire(2, deleter);
    assert!(!bag.drain(0));
    assert_eq!(bag.len(), 2);
    assert!(bag.drain(5));
    assert_eq!(registry.times_asked(), 1);
    assert_eq!(bag.len(), 0);
    assert_eq!(*freed.borrow(), vec![1, 2]);
}

#[test]
fn drain_stalls_while_a_record_is_guarded() {
    let registry = Registry::new();
    let freed = RefCell::new(Vec::<usize>::new());
    let deleter = |addr: usize| freed.borrow_mut().push(addr);
    let mut bag = LocalBag::new(&registry);
    let guard = registry.protect(2);
    bag.retire(1, deleter);
    bag.retire(2, deleter);
    assert!(!bag.drain(3));
    assert_eq!(registry.times_asked(), 3);
    assert_eq!(bag.pending(), vec![2]);
    assert_eq!(*freed.borrow(), vec![1]);
    drop(guard);
    assert!(bag.drain(3));
    assert_eq!(registry.times_asked(), 4);
    assert_eq!(*freed.borrow(), vec![1, 2]);
}

#[test]
fn try_unlink_failure_changes_nothing() {
    let registry = Registry::new();
    let freed = RefCell::new(Vec::<usize>::new());
    let marked = RefCell::new(Vec::<usize>::new());
    let deleter = |addr: usize| freed.borrow_mut().push(addr);
    let mut bag = LocalBag::new(&registry);
    bag.retire(3, deleter);
    let seen_inside = RefCell::new(Vec::<usize>::new());
    let unlinked = try_unlink(
        &mut bag,
        &[100, 200],
        &[300, 400],
        || {
            *seen_inside.borrow_mut() = registry.guarded();
            false
        },
        |addr: usize| marked.borrow_mut().push(addr),
        deleter,
    );
    assert!(!unlinked);
    assert_eq!(*seen_inside.borrow(), vec![100, 200]);
    assert_eq!(bag.pending(), vec![3]);
    assert_eq!(bag.collect_count(), 1);
    assert_eq!(bag.guards_held(), 0);
    assert_eq!(registry.guarded(), Vec::<usize>::new());
    assert!(marked.borrow().is_empty());
    assert!(freed.borrow().is_empty());
}

#[test]
fn try_unlink_success_marks_and_retires() {
    let registry = Registry::new();
    let freed = RefCell::new(Vec::<usize>::new());
    let marked = RefCell::new(Vec::<usize>::new());
    let deleter = |addr: usize| freed.borrow_mut().push(addr);
    let mut bag = LocalBag::new(&registry);
    let calls = RefCell::new(0usize);
    let unlinked = try_unlink(
        &mut bag,
        &[100, 200],
        &[300, 400, 500],
        || {
            *calls.borrow_mut() += 1;
            true
        },
        |addr: usize| marked.borrow_mut().push(addr),
        deleter,
    );
    assert!(unlinked);
    assert_eq!(*calls.borrow(), 1);
    assert_eq!(*marked.borrow(), vec![300, 400, 500]);
    assert_eq!(bag.pending(), vec![300, 400, 500]);
    assert_eq!(bag.collect_count(), 3);
    assert_eq!(bag.guards_held(), 2);
    assert_eq!(registry.guarded(), vec![100, 200]);
    assert!(freed.borrow().is_empty());
}

#[test]
fn try_unlink_guards_last_until_the_next_pass() {
    let registry = Registry::new();
    let freed = RefCell::new(Vec::<usize>::new());
    let deleter = |addr: usize| freed.borrow_mut().push(addr);
    let mut bag = LocalBag::new(&registry);
    for i in 1..=126usize {
        bag.retire_pp(i * 8, deleter);
    }
    let unlinked =
        try_unlink(&mut bag, &[4000], &[4000, 5000], || true, |_addr: usize| (), deleter);
    assert!(unlinked);
    assert_eq!(bag.collect_count(), 128);
    assert_eq!(registry.times_asked(), 1);
    assert_eq!(bag.guards_held(), 0);
    assert_eq!(registry.guarded(), Vec::<usize>::new());
    assert_eq!(bag.len(), 0);
    assert_eq!(freed.borrow().len(), 128);
    assert_eq!(freed.borrow()[126], 4000);
    assert_eq!(freed.borrow()[127], 5000);
}

#[test]
fn try_unlink_with_nothing_to_do() {
    let registry = Registry::new();
    let freed = RefCell::new(Vec::<usize>::new());
    let deleter = |addr: usize| freed.borrow_mut().push(addr);
    let mut bag = LocalBag::new(&registry);
    assert!(try_unlink(&mut bag, &[], &[], || true, |_addr: usize| (), deleter));
    assert_eq!(bag.len(), 0);
    assert_eq!(bag.guards_held(), 0);
    assert_eq!(bag.collect_count(), 0);
}

#[test]
fn attempt_unlink_hands_back_the_guards() {
    let registry = Registry::new();
    let marked = RefCell::new(Vec::<usize>::new());
    let guards = attempt_unlink(
        &registry,
        &[100, 200, 100],
        &[300],
        || true,
        |addr: usize| marked.borrow_mut().push(addr),
    );
    let guards = guards.expect("the attempt succeeded");
    assert_eq!(guards.len(), 3);
    assert_eq!(registry.guarded(), vec![100, 100, 200]);
    assert_eq!(*marked.borrow(), vec![300]);
    drop(guards);
    assert_eq!(registry.guarded(), Vec::<usize>::new());
}

#[test]
fn attempt_unlink_failure_lets_guards_go() {
    let registry = Registry::new();
    let marked = RefCell::new(Vec::<usize>::new());
    let guards = attempt_unlink(
        &registry,
        &[100, 200],
        &[300],
        || false,
        |addr: usize| marked.borrow_mut().push(addr),
    );
    assert!(guards.is_none());
    assert_eq!(registry.guarded(), Vec::<usize>::new());
    assert!(marked.borrow().is_empty());
}

#[test]
fn retire_unlinked_keeps_guards_and_retires_in_order() {
    let registry = Registry::new();
    let freed = RefCell::new(Vec::<usize>::new());
    let deleter = |addr: usize| freed.borrow_mut().push(addr);
    let mut bag = LocalBag::new(&registry);
    bag.retire(1, deleter);
    let guards = vec![registry.protect(50), registry.protect(60)];
    retire_unlinked(&mut bag, guards, &[70, 80], deleter);
    assert_eq!(bag.pending(), vec![1, 70, 80]);
    assert_eq!(bag.guards_held(), 2);
    assert_eq!(bag.collect_count(), 3);
    assert_eq!(registry.guarded(), vec![50, 60]);
    assert!(freed.borrow().is_empty());
}

#[test]
fn a_pass_after_the_counter_passes_256() {
    let registry = Registry::new();
    let freed = RefCell::new(Vec::<usize>::new());
    let deleter = |addr: usize| freed.borrow_mut().push(addr);
    let mut bag = LocalBag::new(&registry);
    for i in 1..=255usize {
        bag.retire(i, deleter);
    }
    assert_eq!(registry.times_asked(), 1);
    assert_eq!(bag.len(), 127);
    bag.retire(256, deleter);
    assert_eq!(registry.times_asked(), 2);
    assert_eq!(bag.len(), 0);
    assert_eq!(bag.collect_count(), 256);
    let expected: Vec<usize> = (1..=256usize).collect();
    assert_eq!(*freed.borrow(), expected);
}

#[test]
fn sweep_frees_what_is_not_guarded() {
    let freed = RefCell::new(Vec::<usize>::new());
    let deleter = |addr: usize| freed.borrow_mut().push(addr);
    let records = vec![
        LocalRetired::new(3, deleter),
        LocalRetired::new(1, deleter),
        LocalRetired::new(2, deleter),
        LocalRetired::new(1, deleter),
    ];
    let rest = sweep(records, &set_of(&[1]));
    let left: Vec<usize> = rest.iter().map(|r| r.ptr).collect();
    assert_eq!(left, vec![1, 1]);
    assert_eq!(*freed.borrow(), vec![3, 2]);
    let rest = sweep(rest, &set_of(&[1, 2, 3]));
    assert_eq!(rest.len(), 2);
    assert_eq!(*freed.borrow(), vec![3, 2]);
    let rest = sweep(rest, &set_of(&[]));
    assert!(rest.is_empty());
    assert_eq!(*freed.borrow(), vec![3, 2, 1, 1]);
}

#[test]
fn sweep_of_nothing() {
    let records: Vec<LocalRetired<fn(usize)>> = Vec::new();
    let rest = sweep(records, &set_of(&[1]));
    assert!(rest.is_empty());
}
