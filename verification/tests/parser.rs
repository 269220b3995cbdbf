use vanguard::parser::{command_from_words, has_word, parse, Command};
use vanguard::text::split_words;

#[test]
fn parse_set_joins_the_value_words() {
    match parse("  SET user:101 {\"name\": \"Venom\"}  \n") {
        Command::SetValue(k, v) => {
            assert_eq!(k, "user:101");
            assert_eq!(v, "{\"name\": \"Venom\"}");
        }
        _ => panic!("expected SET"),
    }
}

#[test]
fn parse_is_case_insensitive_on_the_verb() {
    assert!(matches!(parse("get key"), Command::Get(k) if k == "key"));
    assert!(matches!(parse("Del key\n"), Command::Del(k) if k == "key"));
    assert!(matches!(parse("ping"), Command::Ping));
    assert!(matches!(parse("PING extra words"), Command::Ping));
    assert!(matches!(parse("CoMpAcT"), Command::Compact));
}

#[test]
fn parse_checks_the_number_of_words() {
    assert!(matches!(parse("SET onlykey"), Command::Unknown));
    assert!(matches!(parse("GET a b"), Command::Unknown));
    assert!(matches!(parse("DEL"), Command::Unknown));
    assert!(matches!(parse("HELLO world"), Command::Unknown));
}

#[test]
fn parse_splits_on_unicode_whitespace() {
    match parse("SET\u{3000}k\tv1\u{a0}v2") {
        Command::SetValue(k, v) => {
            assert_eq!(k, "k");
            assert_eq!(v, "v1 v2");
        }
        _ => panic!("expected SET"),
    }
}

#[test]
fn parse_uppercases_with_unicode_rules() {
    // U+017F LATIN SMALL LETTER LONG S uppercases to 'S'.
    assert!(matches!(parse("\u{17f}et k v"), Command::SetValue(_, _)));
}

#[test]
fn split_words_and_has_word() {
    let parts = split_words("  a  bb\n ccc ");
    assert_eq!(parts, vec!["a".to_string(), "bb".to_string(), "ccc".to_string()]);
    assert!(!has_word(" \t\n "));
    assert!(has_word(" x "));
}

#[test]
fn command_from_words_takes_the_verb_as_given() {
    let parts = vec!["whatever".to_string(), "k".to_string()];
    assert!(matches!(command_from_words(&parts, "GET"), Command::Get(k) if k == "k"));
    assert!(matches!(command_from_words(&parts, "get"), Command::Unknown));
}

#[test]
fn parse_blank_message_is_unknown() {
    assert!(matches!(parse(""), Command::Unknown));
    assert!(matches!(parse(" \r\n"), Command::Unknown));
}
