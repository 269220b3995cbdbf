use vanguard::engine::Engine;
use vanguard::parser::Command;
use vanguard::server::{
    answer, compact_failed_reply, execute, handle_message, is_read_only, read_command,
    write_failed_reply, Effect,
};

fn reply(e: Effect) -> String {
    match e {
        Effect::Reply(r) => r,
        _ => panic!("expected a reply"),
    }
}

#[test]
fn server_set_get_del_flow() {
    let mut e = Engine::new();
    match handle_message(&mut e, b"SET user:101 {\"role\": \"Symbiote\"}\n") {
        Effect::Append(line, ok) => {
            assert_eq!(line, "user:101,{\"role\": \"Symbiote\"}\n");
            assert_eq!(ok, "OK\n");
        }
        _ => panic!("expected an append"),
    }
    assert_eq!(reply(handle_message(&mut e, b"GET user:101\n")), "{\"role\": \"Symbiote\"}\n");
    match handle_message(&mut e, b"DEL user:101") {
        Effect::Append(line, ok) => {
            assert_eq!(line, "user:101,__TOMBSTONE__\n");
            assert_eq!(ok, "OK_DELETED\n");
        }
        _ => panic!("expected an append"),
    }
    assert_eq!(reply(handle_message(&mut e, b"GET user:101")), "NULL\n");
    assert_eq!(reply(handle_message(&mut e, b"GET missing")), "NULL\n");
}

#[test]
fn server_ping_unknown_compact_and_blank() {
    let mut e = Engine::new();
    assert_eq!(reply(handle_message(&mut e, b"PING\n")), "PONG\n");
    assert_eq!(reply(handle_message(&mut e, b"FLY away\n")), "ERR_UNKNOWN_COMMAND\n");
    assert!(matches!(handle_message(&mut e, b"compact"), Effect::Compact(ref r) if r == "OK_COMPACTED\n"));
    assert_eq!(reply(handle_message(&mut e, b" \r\n")), "ERR_UNKNOWN_COMMAND\n");
    assert_eq!(reply(handle_message(&mut e, b"")), "ERR_UNKNOWN_COMMAND\n");
}

#[test]
fn server_replaces_invalid_utf8() {
    let mut e = Engine::new();
    let msg: &[u8] = &[b'S', b'E', b'T', b' ', b'k', b' ', 0xff, b'x'];
    assert!(matches!(handle_message(&mut e, msg), Effect::Append(_, _)));
    assert_eq!(reply(handle_message(&mut e, b"GET k")), "\u{fffd}x\n");
}

#[test]
fn execute_applies_a_parsed_command() {
    let mut e = Engine::new();
    let eff = execute(&mut e, Command::SetValue("a".to_string(), "b".to_string()));
    assert!(matches!(eff, Effect::Append(ref l, ref ok) if l == "a,b\n" && ok == "OK\n"));
    let eff = execute(&mut e, Command::Get("a".to_string()));
    assert!(matches!(eff, Effect::Reply(ref r) if r == "b\n"));
}

#[test]
fn server_read_only_commands_are_answered_without_change() {
    let mut e = Engine::new();
    e.set("k", "v");
    let get = read_command(b"  get k \n");
    assert!(is_read_only(&get));
    assert!(matches!(answer(&e, get), Effect::Reply(ref r) if r == "v\n"));
    let set = read_command(b"SET k w");
    assert!(!is_read_only(&set));
    assert!(!is_read_only(&read_command(b"COMPACT")));
    assert!(is_read_only(&read_command(b"nonsense")));
    assert!(matches!(read_command(b"\t\n"), Command::Unknown));
}

#[test]
fn server_error_replies() {
    assert_eq!(write_failed_reply("disk full"), "ERR disk full\n");
    assert_eq!(compact_failed_reply("denied"), "ERR_COMPACT denied\n");
}

#[test]
fn server_get_after_del_across_other_commands() {
    let mut e = Engine::new();
    handle_message(&mut e, b"SET k v");
    handle_message(&mut e, b"DEL k");
    handle_message(&mut e, b"SET other 1");
    handle_message(&mut e, b"PING");
    handle_message(&mut e, b"GET other");
    let _ = e.compact();
    handle_message(&mut e, b"DEL other");
    assert_eq!(reply(handle_message(&mut e, b"GET k")), "NULL\n");
    handle_message(&mut e, b"SET k again");
    assert_eq!(reply(handle_message(&mut e, b"GET k")), "again\n");
}
