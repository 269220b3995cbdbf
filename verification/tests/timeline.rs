use vanguard::timeline::ChronosDB;

#[test]
fn timeline_reads_the_version_current_at_a_time() {
    let mut db = ChronosDB::new();
    let t1 = 1_000u64;
    let t2 = t1 + 100;
    let t3 = t2 + 100;
    db.set("estado".to_string(), t1, 0);
    db.set("estado".to_string(), t2, 40);
    db.set("estado".to_string(), t3, 82);
    assert_eq!(db.get_at_time("estado", t1 + 50), Some(0));
    assert_eq!(db.get_at_time("estado", t2), Some(40));
    assert_eq!(db.get_at_time("estado", t3 + 1), Some(82));
    assert_eq!(db.get_at_time("estado", t1 - 1), None);
    assert_eq!(db.get_at_time("otro", t3), None);
}

#[test]
fn timeline_keeps_keys_apart() {
    let mut db = ChronosDB::new();
    db.set("a".to_string(), 10, 1);
    db.set("b".to_string(), 10, 2);
    db.set("a".to_string(), 20, 3);
    assert_eq!(db.get_at_time("a", 15), Some(1));
    assert_eq!(db.get_at_time("b", 15), Some(2));
    assert_eq!(db.get_at_time("a", 25), Some(3));
    assert_eq!(db.get_at_time("b", 5), None);
}

#[test]
fn timeline_equal_timestamps_take_the_last_write() {
    let mut db = ChronosDB::new();
    db.set("k".to_string(), 7, 100);
    db.set("k".to_string(), 7, 200);
    assert_eq!(db.get_at_time("k", 7), Some(200));
}
