use vanguard::pool::{Pool, MAX_HOT_PIPES};

#[test]
fn pool_hands_out_oldest_first() {
    let mut p: Pool<u32> = Pool::unbounded();
    assert!(p.take().is_none());
    assert!(p.give(1).is_none());
    assert!(p.give(2).is_none());
    assert_eq!(p.take(), Some(1));
    assert_eq!(p.take(), Some(2));
    assert!(p.take().is_none());
}

#[test]
fn bounded_pool_turns_items_away_when_full() {
    let mut p: Pool<usize> = Pool::bounded(MAX_HOT_PIPES);
    for i in 0..MAX_HOT_PIPES {
        assert!(p.give(i).is_none());
    }
    assert_eq!(p.give(999), Some(999));
    assert_eq!(p.len(), MAX_HOT_PIPES);
    assert_eq!(p.take(), Some(0));
    assert!(p.give(1000).is_none());
}
