use vanguard::ring::{
    AegisProducer, CelerConsumer, SharedRing, StrokeEvent, ACTION_DOWN, ACTION_MOVE, ACTION_UP,
    RING_CAPACITY,
};

fn event(session_id: u32, timestamp: u64) -> StrokeEvent {
    let mut e = StrokeEvent::zeroed();
    e.session_id = session_id;
    e.timestamp = timestamp;
    e.action = ACTION_MOVE;
    e
}

#[test]
fn spsc_roundtrip_single_process() {
    let mut ring = SharedRing::new();
    let mut producer = AegisProducer::new(&ring);
    let mut consumer = CelerConsumer::new(&ring);

    let trace = [0xab; 16];
    let span = [0xcd; 8];
    let evt = StrokeEvent {
        session_id: 42,
        timestamp: 1_700_000_000_000_000_000,
        x_bits: 100.5f32.to_bits(),
        y_bits: 200.25f32.to_bits(),
        pressure_bits: 0.7f32.to_bits(),
        action: 1,
        trace_id: trace,
        parent_span_id: span,
    };
    producer.push(&mut ring, evt).expect("push should succeed");

    let read = consumer.pop(&mut ring).expect("debería haber un evento");
    assert_eq!(read.session_id, 42);
    assert_eq!(f32::from_bits(read.x_bits), 100.5);
    assert_eq!(f32::from_bits(read.y_bits), 200.25);
    assert_eq!(f32::from_bits(read.pressure_bits), 0.7);
    assert_eq!(read.action, 1);
    assert_eq!(read.trace_id, trace, "trace_id debe sobrevivir el roundtrip byte a byte");
    assert_eq!(read.parent_span_id, span, "parent_span_id debe sobrevivir el roundtrip byte a byte");

    assert!(consumer.pop(&mut ring).is_none(), "ring debería estar vacío");
}

#[test]
fn action_constants_form_dense_lifecycle() {
    assert_eq!(ACTION_DOWN, 0);
    assert_eq!(ACTION_MOVE, 1);
    assert_eq!(ACTION_UP, 2);
}

#[test]
fn ring_pops_in_push_order() {
    let mut ring = SharedRing::new();
    let mut producer = AegisProducer::new(&ring);
    let mut consumer = CelerConsumer::new(&ring);
    for t in 0..10u64 {
        producer.push(&mut ring, event(1, t)).unwrap();
    }
    for t in 0..10u64 {
        assert_eq!(consumer.pop(&mut ring).unwrap().timestamp, t);
    }
    assert!(consumer.pop(&mut ring).is_none());
    assert_eq!(ring.head.0, 10);
    assert_eq!(ring.tail.0, 10);
}

#[test]
fn ring_refuses_when_full_and_accepts_after_a_pop() {
    let mut ring = SharedRing::new();
    let mut producer = AegisProducer::new(&ring);
    let mut consumer = CelerConsumer::new(&ring);
    for t in 0..RING_CAPACITY as u64 {
        assert!(producer.push(&mut ring, event(2, t)).is_ok());
    }
    assert_eq!(producer.push(&mut ring, event(2, 999_999)), Err("Queue Full"));
    assert_eq!(ring.head.0, RING_CAPACITY);
    assert_eq!(consumer.pop(&mut ring).unwrap().timestamp, 0);
    assert!(producer.push(&mut ring, event(2, 777)).is_ok());
    let mut last = 0;
    let mut count = 0usize;
    while let Some(e) = consumer.pop(&mut ring) {
        last = e.timestamp;
        count += 1;
    }
    assert_eq!(count, RING_CAPACITY);
    assert_eq!(last, 777);
}

#[test]
fn ring_counters_wrap_around_the_word() {
    let mut ring = SharedRing::new();
    ring.head.0 = usize::MAX - 1;
    ring.tail.0 = usize::MAX - 1;
    let mut producer = AegisProducer::new(&ring);
    let mut consumer = CelerConsumer::new(&ring);
    for t in 0..5u64 {
        producer.push(&mut ring, event(3, t)).unwrap();
    }
    assert_eq!(ring.head.0, 3);
    for t in 0..5u64 {
        assert_eq!(consumer.pop(&mut ring).unwrap().timestamp, t);
    }
    assert_eq!(ring.tail.0, 3);
    assert!(consumer.pop(&mut ring).is_none());
}

#[test]
fn zeroed_event_is_all_zero() {
    let e = StrokeEvent::zeroed();
    assert_eq!(e.session_id, 0);
    assert_eq!(e.timestamp, 0);
    assert_eq!(e.trace_id, [0u8; 16]);
    assert_eq!(e.parent_span_id, [0u8; 8]);
}

#[test]
fn ring_handles_can_be_made_for_a_ring_in_use() {
    let mut ring = SharedRing::new();
    let mut producer = AegisProducer::new(&ring);
    let mut first = CelerConsumer::new(&ring);
    for t in 0..5u64 {
        producer.push(&mut ring, event(4, t)).unwrap();
        assert!(first.pop(&mut ring).is_some());
    }
    drop(first);
    let mut second = CelerConsumer::new(&ring);
    assert!(second.pop(&mut ring).is_none());
    assert_eq!(ring.head.0, 5);
    assert_eq!(ring.tail.0, 5);
    let mut late_producer = AegisProducer::new(&ring);
    late_producer.push(&mut ring, event(4, 42)).unwrap();
    assert_eq!(second.pop(&mut ring).unwrap().timestamp, 42);
}

#[test]
fn push_writes_only_the_head_slot() {
    let mut ring = SharedRing::new();
    let mut producer = AegisProducer::new(&ring);
    let before: Vec<u64> = ring.events.iter().map(|e| e.timestamp).collect();
    producer.push(&mut ring, event(5, 9)).unwrap();
    for (i, e) in ring.events.iter().enumerate() {
        if i == 0 {
            assert_eq!(e.timestamp, 9);
        } else {
            assert_eq!(e.timestamp, before[i]);
        }
    }
}

#[test]
fn producer_copies_push_in_turn() {
    let mut ring = SharedRing::new();
    let mut p = AegisProducer::new(&ring);
    let mut q = p.clone();
    let mut consumer = CelerConsumer::new(&ring);
    p.push(&mut ring, event(6, 1)).unwrap();
    q.push(&mut ring, event(6, 2)).unwrap();
    p.push(&mut ring, event(6, 3)).unwrap();
    assert_eq!(consumer.pop(&mut ring).unwrap().timestamp, 1);
    assert_eq!(consumer.pop(&mut ring).unwrap().timestamp, 2);
    assert_eq!(consumer.pop(&mut ring).unwrap().timestamp, 3);
    assert!(consumer.pop(&mut ring).is_none());
}
