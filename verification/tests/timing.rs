use faf_dns_bench::timing::{Slot, TimingStore};

#[test]
fn a_new_table_is_unset() {
    let store = TimingStore::new(3);
    assert_eq!(store.len(), 3);
    for id in 0..3 {
        assert_eq!(store.slot(id), Some(Slot { start: None, end: None }));
    }
    assert_eq!(store.slot(3), None);
    assert_eq!(store.elapsed(), Vec::<u64>::new());
}

#[test]
fn start_is_recorded_once() {
    let mut store = TimingStore::new(2);
    assert!(store.record_start(1, 100));
    assert_eq!(store.slot(1), Some(Slot { start: Some(100), end: None }));
    assert!(!store.record_start(1, 200));
    assert_eq!(store.slot(1), Some(Slot { start: Some(100), end: None }));
    assert!(!store.record_start(2, 100));
    assert_eq!(store.slot(0), Some(Slot { start: None, end: None }));
}

#[test]
fn end_needs_a_start_and_is_recorded_once() {
    let mut store = TimingStore::new(2);
    assert!(!store.record_end(0, 50));
    assert!(store.record_start(0, 100));
    assert!(!store.record_end(0, 99));
    assert!(store.record_end(0, 130));
    assert_eq!(store.slot(0), Some(Slot { start: Some(100), end: Some(130) }));
    assert!(!store.record_end(0, 170));
    assert_eq!(store.slot(0), Some(Slot { start: Some(100), end: Some(130) }));
    assert!(!store.record_end(5, 170));
}

#[test]
fn elapsed_times_are_those_of_complete_records_in_order() {
    let mut store = TimingStore::new(4);
    assert!(store.record_start(0, 10));
    assert!(store.record_start(1, 20));
    assert!(store.record_start(2, 30));
    assert!(store.record_end(2, 35));
    assert!(store.record_end(0, 110));
    assert_eq!(store.elapsed(), vec![100, 5]);
    assert!(store.record_end(1, 20));
    assert_eq!(store.elapsed(), vec![100, 0, 5]);
}
