use magic::session::{handle_first_payload, handshake_reply, FirstStep};

#[test]
fn matching_auth_is_accepted() {
    let step = handle_first_payload("AUTH admin sesame\n", "admin", "sesame");
    assert!(matches!(step, FirstStep::AuthOk));
    assert_eq!(handshake_reply(&step), Some("AUTH OK\n".to_string()));
}

#[test]
fn mismatched_auth_always_fails() {
    let step = handle_first_payload("AUTH admin wrong", "admin", "sesame");
    assert!(matches!(step, FirstStep::AuthFailed));
    assert_eq!(handshake_reply(&step), Some("AUTH FAILED\n".to_string()));

    let step = handle_first_payload("AUTH nobody sesame", "admin", "sesame");
    assert!(matches!(step, FirstStep::AuthFailed));
}

#[test]
fn auth_needs_exactly_two_tokens() {
    assert!(matches!(
        handle_first_payload("AUTH admin", "admin", "sesame"),
        FirstStep::AuthFailed
    ));
    assert!(matches!(
        handle_first_payload("AUTH admin sesame extra", "admin", "sesame"),
        FirstStep::AuthFailed
    ));
}

#[test]
fn auth_marker_is_case_sensitive() {
    assert!(matches!(
        handle_first_payload("auth admin sesame", "admin", "sesame"),
        FirstStep::Command
    ));
}

#[test]
fn non_auth_payload_is_the_command() {
    let step = handle_first_payload("CONJURE wand", "admin", "sesame");
    assert!(matches!(step, FirstStep::Command));
    assert_eq!(handshake_reply(&step), None);
}
