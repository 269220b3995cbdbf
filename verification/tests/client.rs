use vanguard::client::{classify_input, ClientInput};

#[test]
fn client_skips_blank_lines() {
    assert!(matches!(classify_input("\n"), ClientInput::Skip));
    assert!(matches!(classify_input("  \t \n"), ClientInput::Skip));
}

#[test]
fn client_quits_on_exit_or_quit() {
    assert!(matches!(classify_input("exit\n"), ClientInput::Quit));
    assert!(matches!(classify_input("  QuIt  \n"), ClientInput::Quit));
    assert!(matches!(classify_input("EXIT"), ClientInput::Quit));
}

#[test]
fn client_sends_the_trimmed_line() {
    match classify_input("  SET a b  \r\n") {
        ClientInput::Send(m) => assert_eq!(m, "SET a b\n"),
        _ => panic!("expected a message"),
    }
    match classify_input("exits\n") {
        ClientInput::Send(m) => assert_eq!(m, "exits\n"),
        _ => panic!("expected a message"),
    }
}
