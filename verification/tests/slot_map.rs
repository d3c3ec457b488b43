use redis_cluster_async::slots::{build_slot_map, sort_slots, Slot, SlotMap, SlotMapError};

fn slot(start: u16, end: u16, master: &str) -> Slot {
    Slot::new(start, end, master.to_string(), Vec::new())
}

fn three_shards() -> Vec<Slot> {
    vec![
        slot(5461, 10922, "redis://127.0.0.1:7001"),
        slot(0, 5460, "redis://127.0.0.1:7000"),
        slot(10923, 16383, "redis://127.0.0.1:7002"),
    ]
}

#[test]
fn slot_getters_return_the_parts() {
    let s = Slot::new(
        1,
        9,
        "redis://a:1".to_string(),
        vec!["redis://b:2".to_string(), "redis://c:3".to_string()],
    );
    assert_eq!(s.start(), 1);
    assert_eq!(s.end(), 9);
    assert_eq!(s.master(), "redis://a:1");
    assert_eq!(s.replicas(), &vec!["redis://b:2".to_string(), "redis://c:3".to_string()]);
}

#[test]
fn sorting_orders_by_start_and_is_stable() {
    let sorted = sort_slots(vec![
        slot(7, 1, "d"),
        slot(3, 1, "b1"),
        slot(0, 1, "a"),
        slot(3, 2, "b2"),
        slot(5, 1, "c"),
        slot(3, 3, "b3"),
    ]);
    let order: Vec<(u16, &str)> = sorted.iter().map(|s| (s.start(), s.master())).collect();
    assert_eq!(
        order,
        vec![(0, "a"), (3, "b1"), (3, "b2"), (3, "b3"), (5, "c"), (7, "d")]
    );
    assert!(sort_slots(Vec::new()).is_empty());
}

#[test]
fn built_map_routes_every_slot_to_its_master() {
    let map = build_slot_map(three_shards()).unwrap();
    assert_eq!(map.len(), 3);
    assert_eq!(map.owner(0).unwrap(), "redis://127.0.0.1:7000");
    assert_eq!(map.owner(5460).unwrap(), "redis://127.0.0.1:7000");
    assert_eq!(map.owner(5461).unwrap(), "redis://127.0.0.1:7001");
    assert_eq!(map.owner(10922).unwrap(), "redis://127.0.0.1:7001");
    assert_eq!(map.owner(10923).unwrap(), "redis://127.0.0.1:7002");
    assert_eq!(map.owner(16383).unwrap(), "redis://127.0.0.1:7002");
    // Past the last slot nobody owns anything.
    assert_eq!(map.owner(16384), None);
    assert_eq!(map.owner(u16::MAX), None);
}

#[test]
fn built_map_covers_all_slots() {
    let map = build_slot_map(three_shards()).unwrap();
    for s in 0u16..16384 {
        assert!(map.owner(s).is_some(), "slot {} has no owner", s);
    }
}

#[test]
fn masters_come_by_increasing_last_slot() {
    let map = build_slot_map(vec![
        slot(10923, 16383, "redis://c:1"),
        slot(0, 5460, "redis://a:1"),
        slot(5461, 10922, "redis://a:1"),
    ])
    .unwrap();
    assert_eq!(
        map.masters(),
        vec!["redis://a:1".to_string(), "redis://a:1".to_string(), "redis://c:1".to_string()]
    );
}

#[test]
fn single_range_covering_everything() {
    let map = build_slot_map(vec![slot(0, 16383, "redis://only:1")]).unwrap();
    assert_eq!(map.len(), 1);
    assert_eq!(map.owner(0).unwrap(), "redis://only:1");
    assert_eq!(map.owner(16383).unwrap(), "redis://only:1");
}

#[test]
fn overlapping_ranges_fail() {
    let built = build_slot_map(vec![
        slot(0, 5460, "a"),
        slot(5000, 10922, "b"),
        slot(10923, 16383, "c"),
    ]);
    assert_eq!(
        built.err(),
        Some(SlotMapError::Misaligned { expected: 5461, start: 5000, end: 10922 })
    );
}

#[test]
fn gapped_ranges_fail() {
    let built = build_slot_map(vec![
        slot(0, 5460, "a"),
        slot(5462, 10922, "b"),
        slot(10923, 16383, "c"),
    ]);
    assert_eq!(
        built.err(),
        Some(SlotMapError::Misaligned { expected: 5461, start: 5462, end: 10922 })
    );
}

#[test]
fn first_range_must_start_at_zero() {
    let built = build_slot_map(vec![slot(1, 16383, "a")]);
    assert_eq!(
        built.err(),
        Some(SlotMapError::Misaligned { expected: 0, start: 1, end: 16383 })
    );
}

#[test]
fn short_ranges_fail() {
    let built = build_slot_map(vec![slot(0, 5460, "a"), slot(5461, 10922, "b")]);
    assert_eq!(built.err(), Some(SlotMapError::Incomplete { next: 10923 }));
}

#[test]
fn no_ranges_fail() {
    assert_eq!(
        build_slot_map(Vec::new()).err(),
        Some(SlotMapError::Incomplete { next: 0 })
    );
}

#[test]
fn ranges_past_the_last_slot_fail() {
    let built = build_slot_map(vec![slot(0, 16384, "a")]);
    assert_eq!(built.err(), Some(SlotMapError::Incomplete { next: 16385 }));
    let built = build_slot_map(vec![slot(0, u16::MAX, "a")]);
    assert_eq!(built.err(), Some(SlotMapError::Incomplete { next: 65536 }));
}

#[test]
fn duplicate_ranges_fail() {
    let built = build_slot_map(vec![slot(0, 16383, "a"), slot(0, 16383, "b")]);
    assert_eq!(
        built.err(),
        Some(SlotMapError::Misaligned { expected: 16384, start: 0, end: 16383 })
    );
}

#[test]
fn later_range_with_the_same_end_replaces_the_earlier() {
    // The second range is empty: it ends where the first one does.
    let map = build_slot_map(vec![
        slot(0, 99, "first"),
        slot(100, 99, "second"),
        slot(100, 16383, "third"),
    ])
    .unwrap();
    assert_eq!(map.len(), 2);
    assert_eq!(map.owner(50).unwrap(), "second");
    assert_eq!(map.owner(100).unwrap(), "third");
}

#[test]
fn insert_keeps_the_map_ordered() {
    let mut map = SlotMap::new();
    assert_eq!(map.len(), 0);
    assert_eq!(map.owner(0), None);
    map.insert(200, "c".to_string());
    map.insert(100, "b".to_string());
    map.insert(300, "d".to_string());
    map.insert(50, "a".to_string());
    assert_eq!(map.len(), 4);
    assert_eq!(map.owner(0).unwrap(), "a");
    assert_eq!(map.owner(50).unwrap(), "a");
    assert_eq!(map.owner(51).unwrap(), "b");
    assert_eq!(map.owner(150).unwrap(), "c");
    assert_eq!(map.owner(201).unwrap(), "d");
    assert_eq!(map.owner(301), None);
    map.insert(100, "z".to_string());
    assert_eq!(map.len(), 4);
    assert_eq!(map.owner(100).unwrap(), "z");
    assert_eq!(
        map.masters(),
        vec!["a".to_string(), "z".to_string(), "c".to_string(), "d".to_string()]
    );
}
