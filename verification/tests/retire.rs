use std::cell::RefCell;
use std::collections::HashSet;
use std::rc::Rc;
use std::sync::atomic::{AtomicUsize, Ordering};

use hazard_pointer::retire::THRESHOLD;
use hazard_pointer::{HazardBag, RetiredSet, Shield};

struct Tester(Rc<RefCell<HashSet<usize>>>, usize);

impl Drop for Tester {
    fn drop(&mut self) {
        let _ = self.0.borrow_mut().insert(self.1);
    }
}

/// Payload that records the order in which payloads are destroyed.
struct Ordered(Rc<RefCell<Vec<usize>>>, usize);

impl Drop for Ordered {
    fn drop(&mut self) {
        self.0.borrow_mut().push(self.1);
    }
}

// retire `THRESHOLD` pointers to trigger collection
#[test]
fn retire_threshold_collect() {
    let hazards = HazardBag::new();
    let mut retires = RetiredSet::new(&hazards);
    let freed = Rc::new(RefCell::new(HashSet::new()));
    for i in 0..THRESHOLD {
        retires.retire(0x1000 + 8 * i, Tester(freed.clone(), i));
    }
    assert!(retires.is_empty());
    drop(retires);
    let freed = Rc::try_unwrap(freed).unwrap().into_inner();

    assert_eq!(freed, (0..THRESHOLD).collect())
}

#[test]
fn threshold_is_sixty_four() {
    assert_eq!(THRESHOLD, 64);
}

#[test]
fn below_threshold_nothing_is_released() {
    let hazards = HazardBag::new();
    let mut retires = RetiredSet::new(&hazards);
    let freed = Rc::new(RefCell::new(HashSet::new()));
    for i in 0..THRESHOLD - 1 {
        retires.retire(0x1000 + 8 * i, Tester(freed.clone(), i));
        assert_eq!(retires.len(), i + 1);
    }
    assert!(freed.borrow().is_empty());
    retires.retire(0x9000, Tester(freed.clone(), 1000));
    assert_eq!(retires.len(), 0);
    assert_eq!(freed.borrow().len(), THRESHOLD);
}

#[test]
fn new_queue_is_empty() {
    let hazards = HazardBag::new();
    let retires: RetiredSet<()> = RetiredSet::new(&hazards);
    assert_eq!(retires.len(), 0);
    assert!(retires.is_empty());
}

#[test]
fn collect_against_keeps_exactly_the_snapshot() {
    let hazards = HazardBag::new();
    let mut retires = RetiredSet::new(&hazards);
    let freed = Rc::new(RefCell::new(Vec::new()));
    for i in 1..=6 {
        retires.retire(i * 0x10, Ordered(freed.clone(), i));
    }
    let snapshot = HashSet::from([0x20, 0x50, 0x70]);
    retires.collect_against(&snapshot);
    assert_eq!(retires.len(), 2);
    // released oldest first
    assert_eq!(*freed.borrow(), vec![1, 3, 4, 6]);
    // the two that stay go, in their order, once nothing protects them
    retires.collect_against(&HashSet::new());
    assert!(retires.is_empty());
    assert_eq!(*freed.borrow(), vec![1, 3, 4, 6, 2, 5]);
}

#[test]
fn collect_against_keeps_duplicates_of_a_protected_address() {
    let hazards = HazardBag::new();
    let mut retires = RetiredSet::new(&hazards);
    let freed = Rc::new(RefCell::new(Vec::new()));
    retires.retire(0x10, Ordered(freed.clone(), 1));
    retires.retire(0x20, Ordered(freed.clone(), 2));
    retires.retire(0x10, Ordered(freed.clone(), 3));
    retires.collect_against(&HashSet::from([0x10]));
    assert_eq!(retires.len(), 2);
    assert_eq!(*freed.borrow(), vec![2]);
}

#[test]
fn null_address_is_never_protected() {
    let hazards = HazardBag::new();
    let shield = Shield::new(&hazards).unwrap();
    shield.set(0);
    let mut retires = RetiredSet::new(&hazards);
    let freed = Rc::new(RefCell::new(HashSet::new()));
    retires.retire(0, Tester(freed.clone(), 1));
    retires.collect();
    assert!(retires.is_empty());
    assert_eq!(*freed.borrow(), HashSet::from([1]));
}

// A protected object survives the collection that the threshold triggers and is
// released by the first collection after its shield is gone.
#[test]
fn protected_pointer_survives_until_released() {
    let hazards = HazardBag::new();
    let cell = AtomicUsize::new(0xA000);
    let freed = Rc::new(RefCell::new(HashSet::new()));

    // reader
    let shield = Shield::new(&hazards).unwrap();
    let p = shield.protect(&cell, usize::MAX).unwrap();
    assert_eq!(p, 0xA000);

    // writer
    let mut retires = RetiredSet::new(&hazards);
    let old = cell.swap(0xB000, Ordering::SeqCst);
    assert_eq!(old, p);
    retires.retire(old, Tester(freed.clone(), 0));
    for i in 1..THRESHOLD {
        retires.retire(0x1000 + 8 * i, Tester(freed.clone(), i));
    }
    assert_eq!(retires.len(), 1);
    assert!(!freed.borrow().contains(&0));
    assert_eq!(freed.borrow().len(), THRESHOLD - 1);

    retires.collect();
    assert_eq!(retires.len(), 1);
    assert!(!freed.borrow().contains(&0));

    drop(shield);
    retires.collect();
    assert!(retires.is_empty());
    assert!(freed.borrow().contains(&0));
}

#[test]
fn reprotecting_another_value_unprotects_the_first() {
    let hazards = HazardBag::new();
    let cell = AtomicUsize::new(0xA000);
    let freed = Rc::new(RefCell::new(HashSet::new()));
    let shield = Shield::new(&hazards).unwrap();
    assert_eq!(shield.protect(&cell, 1), Some(0xA000));

    let mut retires = RetiredSet::new(&hazards);
    let old = cell.swap(0xB000, Ordering::SeqCst);
    retires.retire(old, Tester(freed.clone(), 0));
    retires.collect();
    assert_eq!(retires.len(), 1);

    assert_eq!(shield.protect(&cell, 1), Some(0xB000));
    retires.collect();
    assert!(retires.is_empty());
    assert!(freed.borrow().contains(&0));
}

#[test]
fn drain_without_rounds_changes_nothing() {
    let hazards = HazardBag::new();
    let mut retires = RetiredSet::new(&hazards);
    let freed = Rc::new(RefCell::new(HashSet::new()));
    retires.retire(0x10, Tester(freed.clone(), 1));
    assert!(!retires.drain(0));
    assert_eq!(retires.len(), 1);
    assert!(freed.borrow().is_empty());
    assert!(retires.drain(1));
    assert_eq!(*freed.borrow(), HashSet::from([1]));
}

#[test]
fn drain_of_empty_queue_succeeds() {
    let hazards = HazardBag::new();
    let mut retires: RetiredSet<()> = RetiredSet::new(&hazards);
    assert!(retires.drain(0));
    assert!(retires.drain(5));
}

#[test]
fn drain_waits_for_the_shield() {
    let hazards = HazardBag::new();
    let freed = Rc::new(RefCell::new(HashSet::new()));
    let shield = Shield::new(&hazards).unwrap();
    shield.set(0x10);
    let mut retires = RetiredSet::new(&hazards);
    retires.retire(0x10, Tester(freed.clone(), 1));
    retires.retire(0x20, Tester(freed.clone(), 2));
    assert!(!retires.drain(100));
    assert_eq!(retires.len(), 1);
    assert_eq!(*freed.borrow(), HashSet::from([2]));
    shield.clear();
    assert!(retires.drain(100));
    assert_eq!(*freed.borrow(), HashSet::from([1, 2]));
}

#[test]
fn dropping_the_queue_releases_nothing() {
    let hazards = HazardBag::new();
    let freed = Rc::new(RefCell::new(HashSet::new()));
    let shield = Shield::new(&hazards).unwrap();
    shield.set(0x10);
    let mut retires = RetiredSet::new(&hazards);
    retires.retire(0x10, Tester(freed.clone(), 1));
    drop(retires);
    assert!(freed.borrow().is_empty());
}

#[test]
fn queue_validates_against_its_own_registry() {
    let quiet = HazardBag::new();
    let busy = HazardBag::new();
    let shield = Shield::new(&busy).unwrap();
    shield.set(0x10);
    let freed = Rc::new(RefCell::new(HashSet::new()));

    let mut on_busy = RetiredSet::new(&busy);
    on_busy.retire(0x10, Tester(freed.clone(), 1));
    on_busy.collect();
    assert_eq!(on_busy.len(), 1);
    assert!(freed.borrow().is_empty());

    let mut on_quiet = RetiredSet::new(&quiet);
    on_quiet.retire(0x10, Tester(freed.clone(), 2));
    on_quiet.collect();
    assert!(on_quiet.is_empty());
    assert_eq!(*freed.borrow(), HashSet::from([2]));
}

#[test]
fn queue_prints_itself() {
    let hazards = HazardBag::new();
    let retires: RetiredSet<u8> = RetiredSet::new(&hazards);
    let text = format!("{:?}", retires);
    assert!(text.starts_with("RetiredSet"));
}

#[test]
fn take_unprotected_hands_over_what_is_released() {
    let hazards = HazardBag::new();
    let mut retires = RetiredSet::new(&hazards);
    for i in 1..=6usize {
        retires.retire(i * 0x10, i);
    }
    let snapshot = HashSet::from([0x20, 0x50, 0x70]);
    let freed = retires.take_unprotected(&snapshot);
    assert_eq!(freed, vec![(0x10, 1), (0x30, 3), (0x40, 4), (0x60, 6)]);
    assert_eq!(retires.len(), 2);
    let rest = retires.take_unprotected(&HashSet::new());
    assert_eq!(rest, vec![(0x20, 2), (0x50, 5)]);
    assert!(retires.is_empty());
    assert_eq!(retires.take_unprotected(&snapshot), vec![]);
}
