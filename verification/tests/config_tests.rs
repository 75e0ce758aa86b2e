use magic::config::{classify_protocol, Mode};

#[test]
fn absent_protocol_defaults_to_tcp() {
    assert!(matches!(classify_protocol(&None), Mode::Tcp));
}

#[test]
fn protocol_names_are_case_insensitive() {
    assert!(matches!(classify_protocol(&Some("tcp".to_string())), Mode::Tcp));
    assert!(matches!(classify_protocol(&Some("TCP".to_string())), Mode::Tcp));
    assert!(matches!(classify_protocol(&Some("udp".to_string())), Mode::Udp));
    assert!(matches!(classify_protocol(&Some("Udp".to_string())), Mode::Udp));
    assert!(matches!(classify_protocol(&Some("reflect".to_string())), Mode::Reflect));
    assert!(matches!(classify_protocol(&Some("REFLECT".to_string())), Mode::Reflect));
}

#[test]
fn other_protocol_names_are_unknown() {
    assert!(matches!(classify_protocol(&Some("sctp".to_string())), Mode::Unknown));
    assert!(matches!(classify_protocol(&Some("".to_string())), Mode::Unknown));
}
