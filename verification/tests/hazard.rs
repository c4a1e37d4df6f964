use std::collections::HashSet;
use std::mem;
use std::ops::Range;
use std::sync::atomic::{AtomicUsize, Ordering};

use hazard_pointer::hazard::{
    after_attempt, after_install, after_segment, after_validation, segment_to_install, Installed,
    Retry, Search,
};
use hazard_pointer::layout::{add_capped, segment_at, CAPACITY, FIRST_SEGMENT, SEGMENTS};
use hazard_pointer::{HazardBag, Shield};

const THREADS: usize = 8;
const VALUES: Range<usize> = 1..1024;

// `all_hazards` should return hazards protected by shield(s).
#[test]
fn all_hazards_protected() {
    let hazard_bag = HazardBag::new();
    (0..THREADS).for_each(|_| {
        for data in VALUES {
            let src = AtomicUsize::new(data);
            let shield = Shield::new(&hazard_bag).unwrap();
            let _ = shield.protect(&src, usize::MAX);
            // leak the shield so that it is not unprotected.
            mem::forget(shield);
        }
    });
    let all = hazard_bag.all_hazards();
    let values = VALUES.collect();
    assert!(all.is_superset(&values))
}

// `all_hazards` should not return values that are no longer protected.
#[test]
fn all_hazards_unprotected() {
    let hazard_bag = HazardBag::new();
    (0..THREADS).for_each(|_| {
        for data in VALUES {
            let src = AtomicUsize::new(data);
            let shield = Shield::new(&hazard_bag).unwrap();
            let _ = shield.protect(&src, usize::MAX);
        }
    });
    let all = hazard_bag.all_hazards();
    let values = VALUES.collect();
    let intersection: HashSet<_> = all.intersection(&values).collect();
    assert!(intersection.is_empty())
}

// `acquire_slot` should recycle existing slots.
#[test]
fn recycle_slots() {
    let hazard_bag = HazardBag::new();
    // allocate slots
    let shields = (0..1024)
        .map(|_| Shield::new(&hazard_bag).unwrap())
        .collect::<Vec<_>>();
    // slot positions
    let old_slots = shields
        .iter()
        .map(|s| s.slot_index())
        .collect::<HashSet<_>>();
    // release the slots
    drop(shields);

    let shields = (0..128)
        .map(|_| Shield::new(&hazard_bag).unwrap())
        .collect::<Vec<_>>();
    let new_slots = shields
        .iter()
        .map(|s| s.slot_index())
        .collect::<HashSet<_>>();

    // no new slots should've been created
    assert!(new_slots.is_subset(&old_slots));
}

#[test]
fn live_shields_hold_distinct_slots() {
    let hazard_bag = HazardBag::new();
    let shields = (0..1024)
        .map(|_| Shield::new(&hazard_bag).unwrap())
        .collect::<Vec<_>>();
    let slots = shields
        .iter()
        .map(|s| s.slot_index())
        .collect::<HashSet<_>>();
    assert_eq!(slots.len(), 1024);
    assert_eq!(hazard_bag.leased_count(), 1024);
    assert!(slots.iter().all(|&index| index < hazard_bag.slot_count()));
}

#[test]
fn lease_and_release_never_grows_the_table() {
    let hazard_bag = HazardBag::new();
    assert_eq!(hazard_bag.slot_count(), 0);
    let shields = (0..100)
        .map(|_| Shield::new(&hazard_bag).unwrap())
        .collect::<Vec<_>>();
    // 100 leases need the first two segments: 64 + 128 slots.
    let high_water = hazard_bag.slot_count();
    assert_eq!(high_water, 192);
    drop(shields);
    assert_eq!(hazard_bag.leased_count(), 0);
    for _ in 0..10 {
        let shields = (0..100)
            .map(|_| Shield::new(&hazard_bag).unwrap())
            .collect::<Vec<_>>();
        assert_eq!(hazard_bag.leased_count(), 100);
        drop(shields);
        assert_eq!(hazard_bag.slot_count(), high_water);
    }
}

#[test]
fn first_lease_installs_first_segment() {
    let hazard_bag = HazardBag::new();
    let shield = Shield::new(&hazard_bag).unwrap();
    assert_eq!(shield.slot_index(), 0);
    assert_eq!(hazard_bag.slot_count(), FIRST_SEGMENT);
    let second = Shield::new(&hazard_bag).unwrap();
    assert_eq!(second.slot_index(), 1);
    drop(shield);
    let third = Shield::new(&hazard_bag).unwrap();
    assert_eq!(third.slot_index(), 0);
}

#[test]
fn table_geometry() {
    assert_eq!(SEGMENTS, 25);
    assert_eq!(FIRST_SEGMENT, 64);
    assert_eq!(CAPACITY, 64 * ((1usize << 25) - 1));
}

#[test]
fn default_registry_is_empty() {
    let hazard_bag = HazardBag::default();
    assert_eq!(hazard_bag.slot_count(), 0);
    assert_eq!(hazard_bag.leased_count(), 0);
    assert!(hazard_bag.all_hazards().is_empty());
}

#[test]
fn set_publishes_and_clear_withdraws() {
    let hazard_bag = HazardBag::new();
    let shield = Shield::new(&hazard_bag).unwrap();
    assert!(hazard_bag.all_hazards().is_empty());
    shield.set(0x1000);
    assert_eq!(hazard_bag.all_hazards(), HashSet::from([0x1000]));
    shield.set(0x2000);
    assert_eq!(hazard_bag.all_hazards(), HashSet::from([0x2000]));
    shield.clear();
    assert!(hazard_bag.all_hazards().is_empty());
}

#[test]
fn snapshot_never_holds_null() {
    let hazard_bag = HazardBag::new();
    let idle = Shield::new(&hazard_bag).unwrap();
    let busy = Shield::new(&hazard_bag).unwrap();
    idle.set(0);
    busy.set(7);
    let all = hazard_bag.all_hazards();
    assert!(!all.contains(&0));
    assert_eq!(all, HashSet::from([7]));
}

#[test]
fn snapshot_merges_equal_values() {
    let hazard_bag = HazardBag::new();
    let a = Shield::new(&hazard_bag).unwrap();
    let b = Shield::new(&hazard_bag).unwrap();
    a.set(42);
    b.set(42);
    assert_eq!(hazard_bag.all_hazards(), HashSet::from([42]));
    drop(a);
    assert_eq!(hazard_bag.all_hazards(), HashSet::from([42]));
    drop(b);
    assert!(hazard_bag.all_hazards().is_empty());
}

#[test]
fn drop_clears_and_releases() {
    let hazard_bag = HazardBag::new();
    {
        let shield = Shield::new(&hazard_bag).unwrap();
        shield.set(99);
        assert_eq!(hazard_bag.leased_count(), 1);
        assert_eq!(hazard_bag.all_hazards(), HashSet::from([99]));
    }
    assert_eq!(hazard_bag.leased_count(), 0);
    assert!(hazard_bag.all_hazards().is_empty());
}

#[test]
fn check_decides_by_equality() {
    assert_eq!(Shield::check(5, 5), Ok(()));
    assert_eq!(Shield::check(5, 6), Err(6));
    assert_eq!(Shield::check(0, 0), Ok(()));
    assert_eq!(Shield::check(7, 0), Err(0));
}

#[test]
fn validate_reads_the_source() {
    let src = AtomicUsize::new(10);
    assert_eq!(Shield::validate(10, &src), Ok(()));
    assert_eq!(Shield::validate(11, &src), Err(10));
    // a pure read
    assert_eq!(src.load(Ordering::SeqCst), 10);
}

#[test]
fn try_protect_publishes_on_match() {
    let hazard_bag = HazardBag::new();
    let shield = Shield::new(&hazard_bag).unwrap();
    let src = AtomicUsize::new(0x30);
    assert_eq!(shield.try_protect(0x30, &src), Ok(()));
    assert_eq!(hazard_bag.all_hazards(), HashSet::from([0x30]));
}

#[test]
fn try_protect_clears_on_mismatch() {
    let hazard_bag = HazardBag::new();
    let shield = Shield::new(&hazard_bag).unwrap();
    let src = AtomicUsize::new(0x30);
    shield.set(0x10);
    assert_eq!(shield.try_protect(0x20, &src), Err(0x30));
    assert!(hazard_bag.all_hazards().is_empty());
}

#[test]
fn protect_returns_the_source_value() {
    let hazard_bag = HazardBag::new();
    let shield = Shield::new(&hazard_bag).unwrap();
    let src = AtomicUsize::new(0x40);
    assert_eq!(shield.protect(&src, 1), Some(0x40));
    assert_eq!(hazard_bag.all_hazards(), HashSet::from([0x40]));
    src.store(0x50, Ordering::SeqCst);
    assert_eq!(shield.protect(&src, 3), Some(0x50));
    assert_eq!(hazard_bag.all_hazards(), HashSet::from([0x50]));
}

#[test]
fn protect_without_attempts_gives_up() {
    let hazard_bag = HazardBag::new();
    let shield = Shield::new(&hazard_bag).unwrap();
    let src = AtomicUsize::new(0x40);
    assert_eq!(shield.protect(&src, 0), None);
    assert!(hazard_bag.all_hazards().is_empty());
}

// The source changes between the first read and the validation: the stale value is
// withdrawn and the value seen by the validation is reported.
#[test]
fn try_protect_reports_the_newer_value() {
    let hazard_bag = HazardBag::new();
    let shield = Shield::new(&hazard_bag).unwrap();
    let src = AtomicUsize::new(1);
    let stale = src.load(Ordering::SeqCst);
    src.store(2, Ordering::SeqCst);
    assert_eq!(shield.try_protect(stale, &src), Err(2));
    assert!(hazard_bag.all_hazards().is_empty());
    assert_eq!(shield.try_protect(2, &src), Ok(()));
    assert_eq!(hazard_bag.all_hazards(), HashSet::from([2]));
}

#[test]
fn leaked_shields_fill_distinct_slots() {
    let hazard_bag = HazardBag::new();
    for data in VALUES {
        let shield = Shield::new(&hazard_bag).unwrap();
        shield.set(data);
        mem::forget(shield);
    }
    assert_eq!(hazard_bag.leased_count(), 1023);
    // 64 + 128 + 256 + 512 = 960 slots are not enough, the fifth segment adds 1024
    assert_eq!(hazard_bag.slot_count(), 1984);
    assert_eq!(hazard_bag.all_hazards().len(), 1023);
}

#[test]
fn note_hazard_skips_null() {
    let mut hazards = HashSet::from([5]);
    hazard_pointer::snapshot::note_hazard(&mut hazards, 0);
    assert_eq!(hazards, HashSet::from([5]));
    hazard_pointer::snapshot::note_hazard(&mut hazards, 7);
    assert_eq!(hazards, HashSet::from([5, 7]));
    hazard_pointer::snapshot::note_hazard(&mut hazards, 7);
    assert_eq!(hazards, HashSet::from([5, 7]));
}

#[test]
fn segments_double() {
    assert_eq!(hazard_pointer::layout::next_segment(0, 0, 64), (64, 128));
    assert_eq!(hazard_pointer::layout::next_segment(1, 64, 128), (192, 256));
    assert_eq!(hazard_pointer::layout::next_segment(2, 192, 256), (448, 512));
    let mut base = 0;
    let mut len = FIRST_SEGMENT;
    for k in 0..SEGMENTS {
        let next = hazard_pointer::layout::next_segment(k, base, len);
        base = next.0;
        len = next.1;
    }
    assert_eq!(base, CAPACITY);
}

#[test]
fn search_stops_at_the_first_lease() {
    assert_eq!(after_attempt(3, 10, true), Search::Leased { position: 3 });
    assert_eq!(after_attempt(10, 10, true), Search::Leased { position: 10 });
    assert_eq!(after_attempt(0, 0, true), Search::Leased { position: 0 });
}

#[test]
fn search_goes_on_in_order() {
    assert_eq!(after_attempt(0, 10, false), Search::Try { position: 1 });
    assert_eq!(after_attempt(3, 10, false), Search::Try { position: 4 });
    assert_eq!(after_attempt(9, 10, false), Search::Try { position: 10 });
}

#[test]
fn search_gives_up_after_the_last_slot() {
    assert_eq!(after_attempt(10, 10, false), Search::Exhausted);
    assert_eq!(after_attempt(0, 0, false), Search::Exhausted);
}

#[test]
fn scan_goes_through_the_installed_segments() {
    assert_eq!(after_segment(0, 1), None);
    assert_eq!(after_segment(0, 2), Some(1));
    assert_eq!(after_segment(3, 5), Some(4));
    assert_eq!(after_segment(4, 5), None);
    assert_eq!(after_segment(24, 25), None);
}

#[test]
fn table_grows_by_the_next_segment() {
    assert_eq!(segment_to_install(0), Some(0));
    assert_eq!(segment_to_install(1), Some(1));
    assert_eq!(segment_to_install(24), Some(24));
    assert_eq!(segment_to_install(25), None);
    assert_eq!(segment_to_install(usize::MAX), None);
}

#[test]
fn segment_geometry() {
    assert_eq!(segment_at(0), (0, 64));
    assert_eq!(segment_at(1), (64, 128));
    assert_eq!(segment_at(2), (192, 256));
    assert_eq!(segment_at(4), (960, 1024));
    assert_eq!(segment_at(24), (64 * ((1 << 24) - 1), 64 << 24));
}

#[test]
fn counts_stop_at_the_capacity() {
    assert_eq!(add_capped(0, 5), 5);
    assert_eq!(add_capped(7, 0), 7);
    assert_eq!(add_capped(CAPACITY - 1, 1), CAPACITY);
    assert_eq!(add_capped(CAPACITY, 1), CAPACITY);
    assert_eq!(add_capped(10, usize::MAX), CAPACITY);
}

// The thread that installs a segment gets its first slot, which is born leased;
// the other slots of the segment are born free.
#[test]
fn installer_gets_the_first_slot_of_its_segment() {
    let hazard_bag = HazardBag::new();
    let first = Shield::new(&hazard_bag).unwrap();
    assert_eq!(first.slot_index(), 0);
    assert_eq!(hazard_bag.slot_count(), 64);
    assert_eq!(hazard_bag.leased_count(), 1);
    let rest = (1..64)
        .map(|_| Shield::new(&hazard_bag).unwrap())
        .collect::<Vec<_>>();
    assert_eq!(
        rest.iter().map(|s| s.slot_index()).collect::<Vec<_>>(),
        (1..64).collect::<Vec<_>>()
    );
    assert_eq!(hazard_bag.slot_count(), 64);
    let next = Shield::new(&hazard_bag).unwrap();
    assert_eq!(next.slot_index(), 64);
    assert_eq!(hazard_bag.slot_count(), 192);
    assert_eq!(hazard_bag.leased_count(), 65);
}

#[test]
fn registry_prints_itself() {
    let hazard_bag = HazardBag::new();
    let text = format!("{:?}", hazard_bag);
    assert!(text.starts_with("HazardBag"));
}

#[test]
fn validation_success_ends_the_protection() {
    assert_eq!(after_validation(0x10, 1, Ok(())), Retry::Protected { value: 0x10 });
    assert_eq!(after_validation(0x10, 5, Ok(())), Retry::Protected { value: 0x10 });
    assert_eq!(after_validation(0, 1, Ok(())), Retry::Protected { value: 0 });
}

#[test]
fn validation_mismatch_goes_on_with_the_observed_value() {
    assert_eq!(after_validation(0x10, 5, Err(0x20)), Retry::Again { value: 0x20, left: 4 });
    assert_eq!(after_validation(0x10, 2, Err(0)), Retry::Again { value: 0, left: 1 });
    assert_eq!(
        after_validation(0x10, usize::MAX, Err(0x30)),
        Retry::Again { value: 0x30, left: usize::MAX - 1 }
    );
}

#[test]
fn validation_mismatch_on_the_last_round_gives_up() {
    assert_eq!(after_validation(0x10, 1, Err(0x20)), Retry::GiveUp);
}

#[test]
fn install_decisions() {
    assert_eq!(after_install(true, true, 64), Installed::First);
    assert_eq!(after_install(true, true, 1), Installed::First);
    assert_eq!(after_install(true, true, 0), Installed::Nothing);
    assert_eq!(after_install(false, true, 64), Installed::Search);
    assert_eq!(after_install(false, true, 0), Installed::Search);
    assert_eq!(after_install(true, false, 64), Installed::Nothing);
    assert_eq!(after_install(false, false, 0), Installed::Nothing);
}

#[test]
fn protect_of_a_null_source_publishes_nothing() {
    let hazard_bag = HazardBag::new();
    let shield = Shield::new(&hazard_bag).unwrap();
    let src = AtomicUsize::new(0);
    assert_eq!(shield.protect(&src, 1), Some(0));
    assert!(hazard_bag.all_hazards().is_empty());
}

#[test]
fn protect_of_a_steady_source_returns_its_value() {
    let hazard_bag = HazardBag::new();
    let shield = Shield::new(&hazard_bag).unwrap();
    let src = AtomicUsize::new(0x10);
    assert_eq!(shield.protect(&src, 1), Some(0x10));
    assert_eq!(hazard_bag.all_hazards(), HashSet::from([0x10]));
    assert_eq!(src.load(Ordering::Relaxed), 0x10);
}

#[test]
fn second_protection_replaces_the_first() {
    let hazard_bag = HazardBag::new();
    let shield = Shield::new(&hazard_bag).unwrap();
    let a = AtomicUsize::new(0x10);
    let b = AtomicUsize::new(0x20);
    assert_eq!(shield.protect(&a, 1), Some(0x10));
    assert_eq!(shield.protect(&b, 1), Some(0x20));
    assert_eq!(hazard_bag.all_hazards(), HashSet::from([0x20]));
}
