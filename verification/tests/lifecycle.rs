use pim_daemon::cleanup::{lifecycle_last_seen, observe_paired, record_connected};
use pim_daemon::forwarding::needs_fragmentation;
use pim_daemon::log_history::{LogHistory, HISTORY_CAPACITY};

#[test]
fn rfcomm_observe_paired_inserts_then_preserves() {
    let row = observe_paired(false, "00:15:83:3D:0A:57", "PIM-foo", 1000).expect("new row");
    assert!(observe_paired(true, "00:15:83:3D:0A:57", "PIM-renamed", 2000).is_none());
    assert_eq!(row.name, "PIM-foo");
    assert_eq!(row.first_paired_at_s, 1000);
    assert_eq!(row.last_connected_at_s, None);
}

#[test]
fn rfcomm_record_connected_creates_then_updates() {
    let row = record_connected(None, "00:15:83:3D:0A:57", "PIM-foo", 5000);
    assert_eq!(lifecycle_last_seen(row.first_paired_at_s, row.last_connected_at_s), 5000);
    let row = record_connected(Some(&row), "00:15:83:3D:0A:57", "PIM-foo", 6000);
    assert_eq!(lifecycle_last_seen(row.first_paired_at_s, row.last_connected_at_s), 6000);
    let row = record_connected(Some(&row), "00:15:83:3D:0A:57", "PIM-foo", 5500);
    assert_eq!(lifecycle_last_seen(row.first_paired_at_s, row.last_connected_at_s), 6000);
}

#[test]
fn rfcomm_last_seen_uses_max_of_paired_and_connected() {
    let row = observe_paired(false, "00:15:83:3D:0A:57", "PIM-foo", 9000).expect("row");
    let row = record_connected(Some(&row), "00:15:83:3D:0A:57", "PIM-foo", 8000);
    assert_eq!(lifecycle_last_seen(row.first_paired_at_s, row.last_connected_at_s), 9000);
}

#[test]
fn history_keeps_the_newest_entries() {
    let mut h: LogHistory<u32> = LogHistory::new(3);
    for i in 0..5 {
        h.record(i);
    }
    assert_eq!(h.len(), 3);
    assert_eq!((*h.get(0), *h.get(1), *h.get(2)), (2, 3, 4));
    let mut big: LogHistory<usize> = LogHistory::new(HISTORY_CAPACITY);
    for i in 0..HISTORY_CAPACITY + 10 {
        big.record(i);
    }
    assert_eq!(big.len(), HISTORY_CAPACITY);
    assert_eq!(*big.get(0), 10);
}

#[test]
fn fragmentation_threshold() {
    assert!(!needs_fragmentation(1160, 1200));
    assert!(needs_fragmentation(1161, 1200));
    assert!(needs_fragmentation(1, 10));
    assert!(!needs_fragmentation(0, 10));
}

#[test]
fn zero_capacity_history_keeps_nothing() {
    let mut h: LogHistory<u32> = LogHistory::new(0);
    h.record(1);
    h.record(2);
    assert_eq!(h.len(), 0);
}
