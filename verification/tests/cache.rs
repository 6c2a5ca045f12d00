use sheldrive::cache::{eviction_order, staged_read_len, DiskCache, EvictionPlan, StagingArea};

#[test]
fn cache_paths_are_sanitised() {
    let c = DiskCache::new("/home/u/.sheldrive/cache".to_string(), 100);
    assert_eq!(c.cid_path("bafy-abc_1"), "/home/u/.sheldrive/cache/bafy-abc_1");
    assert_eq!(c.cid_path("local:ab/c"), "/home/u/.sheldrive/cache/local_ab_c");
    assert_eq!(c.max_bytes(), 100);
    let slash = DiskCache::new("/tmp/".to_string(), 1);
    assert_eq!(slash.cid_path("x"), "/tmp/x");
}

#[test]
fn staging_paths_use_hex_inodes() {
    let s = StagingArea::new("/s".to_string());
    assert_eq!(s.ino_path(255), "/s/ff");
    assert_eq!(s.ino_path(0x1_0000_0000), "/s/100000000");
}

#[test]
fn eviction_order_is_stable_by_time() {
    assert_eq!(eviction_order(&vec![30, 10, 20, 10]), vec![1, 3, 2, 0]);
    assert_eq!(eviction_order(&vec![]), Vec::<usize>::new());
}

#[test]
fn eviction_stops_within_budget() {
    assert!(EvictionPlan::new(vec![10, 20], &vec![1, 2], 30).is_none());
    let mut plan = EvictionPlan::new(vec![10, 20, 30], &vec![3, 1, 2], 25).unwrap();
    // oldest first: index 1 (20 bytes), then index 2, then index 0
    assert_eq!(plan.next_victim(), Some(1));
    plan.confirm_removed();
    // 40 bytes left, still over budget; removal of index 2 fails
    assert_eq!(plan.next_victim(), Some(2));
    assert_eq!(plan.next_victim(), Some(0));
    plan.confirm_removed();
    // 30 bytes left but nothing more to offer
    assert_eq!(plan.next_victim(), None);
}

#[test]
fn eviction_ends_once_under_budget() {
    let mut plan = EvictionPlan::new(vec![50, 50], &vec![1, 2], 60).unwrap();
    assert_eq!(plan.next_victim(), Some(0));
    assert!(plan.has_pending());
    plan.confirm_removed();
    assert!(!plan.has_pending());
    assert_eq!(plan.next_victim(), None);
}

#[test]
fn distinct_inodes_stage_in_distinct_files() {
    let s = StagingArea::new("/tmp/staging".to_string());
    assert_eq!(s.ino_path(255), "/tmp/staging/ff");
    assert_eq!(s.ino_path(16), "/tmp/staging/10");
    assert_ne!(s.ino_path(1), s.ino_path(16));
    assert_ne!(s.ino_path(0x1_0000_0000), s.ino_path(1));
}

#[test]
fn staged_reads_stop_at_the_end_of_the_file() {
    assert_eq!(staged_read_len(10, 4, 100), 6);
    assert_eq!(staged_read_len(10, 4, 3), 3);
    assert_eq!(staged_read_len(10, 10, 5), 0);
    assert_eq!(staged_read_len(10, 12, 5), 0);
    assert_eq!(staged_read_len(1 << 32, 0, 7), 7);
    assert_eq!(staged_read_len((1 << 32) + 5, 0, u32::MAX), u32::MAX);
}
