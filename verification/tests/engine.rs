use vanguard::engine::{Engine, TOMBSTONE};
use vanguard::record::{read_record, record_line};

#[test]
fn engine_set_then_get() {
    let mut e = Engine::new();
    let line = e.set("user", "venom");
    assert_eq!(line, "user,venom\n");
    assert_eq!(e.get("user").map(|s| s.as_str()), Some("venom"));
    assert!(e.get("other").is_none());
    e.set("user", "eddie");
    assert_eq!(e.get("user").map(|s| s.as_str()), Some("eddie"));
}

#[test]
fn engine_replay_splits_at_the_first_comma() {
    let mut e = Engine::new();
    e.replay_record("k,v,with,commas");
    e.replay_record("no comma here");
    e.replay_record(",empty key");
    assert_eq!(e.get("k").map(|s| s.as_str()), Some("v,with,commas"));
    assert!(e.get("no comma here").is_none());
    assert_eq!(e.get("").map(|s| s.as_str()), Some("empty key"));
}

#[test]
fn engine_replay_restores_what_set_logged() {
    let mut a = Engine::new();
    let l1 = a.set("x", "1");
    let l2 = a.set("y", "2,3");
    let l3 = a.set("x", "4");
    let mut b = Engine::new();
    for l in [l1, l2, l3] {
        b.replay_record(l.trim_end_matches('\n'));
    }
    assert_eq!(b.get("x").map(|s| s.as_str()), Some("4"));
    assert_eq!(b.get("y").map(|s| s.as_str()), Some("2,3"));
}

#[test]
fn engine_compact_drops_tombstones_and_keeps_first_write_order() {
    let mut e = Engine::new();
    e.set("b", "1");
    e.set("a", "2");
    e.set("c", TOMBSTONE);
    e.set("b", "3");
    let lines = e.compact();
    assert_eq!(lines, vec!["b,3\n".to_string(), "a,2\n".to_string()]);
    assert!(e.get("c").is_none());
    let again = e.compact();
    assert_eq!(again, lines);
}

#[test]
fn engine_compaction_log_replays_to_the_same_table() {
    let mut a = Engine::new();
    a.set("alpha", "1");
    a.set("beta", "x,y");
    a.set("gamma", "3");
    a.set("beta", TOMBSTONE);
    a.set("alpha", "11");
    let lines = a.compact();
    let mut b = Engine::new();
    for l in &lines {
        b.replay_record(l.strip_suffix('\n').unwrap());
    }
    for k in ["alpha", "beta", "gamma"] {
        assert_eq!(a.get(k), b.get(k));
    }
    assert_eq!(b.get("alpha").map(|s| s.as_str()), Some("11"));
    assert!(b.get("beta").is_none());
}

#[test]
fn engine_replay_keeps_keys_with_commas_and_line_breaks() {
    let mut a = Engine::new();
    let l1 = a.set("a,b", "c");
    let l2 = a.set("back\\slash", "two\nlines\r");
    assert_eq!(l1, "a\\,b,c\n");
    assert_eq!(l2, "back\\\\slash,two\\nlines\\r\n");
    let mut b = Engine::new();
    let records: Vec<String> = [l1, l2].iter().map(|l| l.strip_suffix('\n').unwrap().to_string()).collect();
    b.replay(&records);
    assert_eq!(b.get("a,b").map(|s| s.as_str()), Some("c"));
    assert!(b.get("a").is_none());
    assert_eq!(b.get("back\\slash").map(|s| s.as_str()), Some("two\nlines\r"));
}

#[test]
fn engine_compaction_lines_leave_the_table_alone() {
    let mut e = Engine::new();
    e.set("x", "1");
    e.set("y", TOMBSTONE);
    let lines = e.compaction_lines();
    assert_eq!(lines, vec!["x,1\n".to_string()]);
    assert_eq!(e.get("y").map(|s| s.as_str()), Some(TOMBSTONE));
    assert_eq!(e.compact(), lines);
    assert!(e.get("y").is_none());
}

#[test]
fn record_codec_roundtrip() {
    let line = record_line("k\\,x", "v,w\n");
    let rec = line.strip_suffix('\n').unwrap();
    assert!(!rec.contains('\n'));
    assert_eq!(read_record(rec), Some(("k\\,x".to_string(), "v,w\n".to_string())));
    assert_eq!(read_record("no separator"), None);
    assert_eq!(read_record("old,style,record"), Some(("old".to_string(), "style,record".to_string())));
}
