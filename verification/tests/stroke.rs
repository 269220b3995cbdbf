use vanguard::ring::{StrokeEvent, ACTION_DOWN, ACTION_MOVE, ACTION_UP};
use vanguard::stroke::{
    action_for_flag, decode_point_frame, decode_stroke_frame, has_remote_parent, move_report,
    quiet_report, session_slot, start_report, threat_label, Anomaly, StrokeOrder,
};

fn frame(x: f32, y: f32, pressure: f32, flag: u8) -> Vec<u8> {
    let mut v = Vec::new();
    v.extend_from_slice(&x.to_le_bytes());
    v.extend_from_slice(&y.to_le_bytes());
    v.extend_from_slice(&pressure.to_le_bytes());
    v.push(flag);
    v
}

#[test]
fn point_frame_decodes_little_endian_floats() {
    let f = decode_point_frame(&frame(1.5, -2.25, 0.5, 1)).unwrap();
    assert_eq!(f32::from_bits(f.x_bits), 1.5);
    assert_eq!(f32::from_bits(f.y_bits), -2.25);
    assert_eq!(f32::from_bits(f.pressure_bits), 0.5);
    assert_eq!(f.flag, 1);
    assert!(decode_point_frame(&[0u8; 12]).is_none());
    assert!(decode_point_frame(&[0u8; 17]).is_none());
}

#[test]
fn flags_map_to_actions() {
    assert_eq!(action_for_flag(1), Some(ACTION_DOWN));
    assert_eq!(action_for_flag(0), Some(ACTION_MOVE));
    assert_eq!(action_for_flag(2), Some(ACTION_UP));
    assert_eq!(action_for_flag(3), None);
}

#[test]
fn stroke_frame_becomes_an_event() {
    let e = decode_stroke_frame(&frame(3.0, 4.0, 0.9, 2), 7, 123).unwrap();
    assert_eq!(e.session_id, 7);
    assert_eq!(e.timestamp, 123);
    assert_eq!(f32::from_bits(e.x_bits), 3.0);
    assert_eq!(f32::from_bits(e.y_bits), 4.0);
    assert_eq!(e.pressure_bits, 0);
    assert_eq!(e.action, ACTION_UP);
    let mut long = frame(3.0, 4.0, 0.9, 1);
    long.extend_from_slice(&[0, 0, 0, 0]);
    assert_eq!(decode_stroke_frame(&long, 1, 1).unwrap().action, ACTION_DOWN);
    assert!(decode_stroke_frame(&frame(0.0, 0.0, 0.0, 9), 1, 1).is_none());
    assert!(decode_stroke_frame(&[0u8; 14], 1, 1).is_none());
}

#[test]
fn session_slots_wrap_at_the_pool_size() {
    assert_eq!(session_slot(5), 5);
    assert_eq!(session_slot(65536 + 5), 5);
    assert_eq!(session_slot(u32::MAX), 65535);
}

#[test]
fn remote_parent_needs_both_ids() {
    let mut e = StrokeEvent::zeroed();
    assert!(!has_remote_parent(&e));
    e.trace_id[15] = 1;
    assert!(!has_remote_parent(&e));
    e.parent_span_id[0] = 9;
    assert!(has_remote_parent(&e));
    e.trace_id[15] = 0;
    assert!(!has_remote_parent(&e));
}

#[test]
fn stroke_order_in_step_is_never_wrong() {
    let mut o = StrokeOrder::new();
    for _ in 0..10 {
        assert!(!o.start_stroke());
    }
    assert_eq!(o.stroke_count, 10);
    assert_eq!(o.expected_stroke, 11);
    let mut skewed = StrokeOrder { stroke_count: 0, expected_stroke: 3 };
    assert!(skewed.start_stroke());
}

#[test]
fn point_reports_score_and_flag() {
    let r = start_report(true);
    assert_eq!((r.score, r.anomaly), (60, Some(Anomaly::WrongStrokeOrder)));
    let r = start_report(false);
    assert_eq!((r.score, r.anomaly), (100, None));
    let r = move_report(true, true, true);
    assert_eq!((r.score, r.anomaly), (45, Some(Anomaly::SharpDirectionChange)));
    let r = move_report(true, true, false);
    assert_eq!((r.score, r.anomaly), (65, Some(Anomaly::ErraticJitter)));
    let r = move_report(true, false, false);
    assert_eq!((r.score, r.anomaly), (80, Some(Anomaly::ExcessiveSpeed)));
    let r = move_report(false, false, false);
    assert_eq!((r.score, r.anomaly), (100, None));
    let r = quiet_report();
    assert_eq!((r.score, r.anomaly), (100, None));
}

#[test]
fn threat_labels() {
    assert_eq!(threat_label(None), "STABLE");
    assert_eq!(threat_label(Some(Anomaly::WrongStrokeOrder)), "WRONG_STROKE_ORDER");
    assert_eq!(threat_label(Some(Anomaly::ExcessiveSpeed)), "EXCESSIVE_SPEED");
    assert_eq!(threat_label(Some(Anomaly::ErraticJitter)), "ERRATIC_JITTER");
    assert_eq!(Anomaly::SharpDirectionChange.label(), "SHARP_DIRECTION_CHANGE");
}

#[test]
fn score_point_dispatches_on_the_flag() {
    let mut o = StrokeOrder::new();
    let r = o.score_point(1, true, true, true);
    assert_eq!((r.score, r.anomaly), (100, None));
    assert_eq!(o.stroke_count, 1);
    let r = o.score_point(0, false, true, false);
    assert_eq!((r.score, r.anomaly), (85, Some(Anomaly::ErraticJitter)));
    let r = o.score_point(2, true, true, true);
    assert_eq!((r.score, r.anomaly), (100, None));
    let r = o.score_point(7, true, false, false);
    assert_eq!((r.score, r.anomaly), (100, None));
    assert_eq!(o.stroke_count, 1);
}
