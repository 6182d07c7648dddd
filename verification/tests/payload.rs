use nautilus_ovpn::credentials::payload::{parse_secret, parse_secret_text, secret_payload};
use nautilus_ovpn::credentials::VpnCredentials;

#[test]
fn parses_username_and_password() {
    let credentials = parse_secret(b"alice\ncorrect horse battery staple\n")
        .unwrap()
        .unwrap();

    assert_eq!(credentials.username, "alice");
    assert_eq!(credentials.password, "correct horse battery staple");
    assert!(credentials.private_key_password.is_empty());
    assert!(!credentials.legacy_auth);
}

#[test]
fn parses_options_without_username_or_password() {
    let credentials = parse_secret(b"\n\n\ntrue").unwrap().unwrap();

    assert!(credentials.username.is_empty());
    assert!(credentials.password.is_empty());
    assert!(credentials.private_key_password.is_empty());
    assert!(credentials.legacy_auth);
}

#[test]
fn rejects_empty_or_malformed_payloads() {
    assert!(parse_secret(b"").unwrap().is_none());
    assert!(parse_secret(b"alice").unwrap().is_none());
    assert!(parse_secret(b"\nalice").unwrap().is_none());
    assert!(parse_secret(b"alice\n").unwrap().is_none());
    assert!(parse_secret(&[0xff]).is_err());
}

#[test]
fn invalid_utf8_error_names_the_problem() {
    let error = match parse_secret(&[b'a', 0xc3]) {
        Err(e) => e,
        Ok(_) => panic!("invalid UTF-8 must be rejected"),
    };
    assert!(error.starts_with("stored VPN credentials are not valid UTF-8: "));
    assert!(error.len() > "stored VPN credentials are not valid UTF-8: ".len());
}

#[test]
fn parses_all_four_fields_and_non_ascii_text() {
    let credentials = parse_secret("jürgen\npässwort\nkey pw\ntrue\n\n".as_bytes())
        .unwrap()
        .unwrap();
    assert_eq!(credentials.username, "jürgen");
    assert_eq!(credentials.password, "pässwort");
    assert_eq!(credentials.private_key_password, "key pw");
    assert!(credentials.legacy_auth);
}

#[test]
fn legacy_flag_is_true_only_for_the_word_true() {
    let c = parse_secret_text("u\np\n\nTrue").unwrap();
    assert!(!c.legacy_auth);
    let c = parse_secret_text("u\np\n\nfalse").unwrap();
    assert!(!c.legacy_auth);
    let c = parse_secret_text("u\np\n\ntrue\nextra").unwrap();
    assert!(!c.legacy_auth);
}

#[test]
fn empty_username_without_legacy_field_is_rejected() {
    assert!(parse_secret_text("\n\nkey").is_none());
    assert!(parse_secret_text("\n\n").is_none());
    assert!(parse_secret_text("\n\n\nfalse").is_some());
}

#[test]
fn stored_payload_reads_back() {
    let credentials = VpnCredentials {
        username: "alice".to_string(),
        password: "s3cret pass".to_string(),
        private_key_password: "pk".to_string(),
        legacy_auth: true,
    };
    let payload = secret_payload(&credentials);
    assert_eq!(payload, "alice\ns3cret pass\npk\ntrue");
    let back = parse_secret(payload.as_bytes()).unwrap().unwrap();
    assert_eq!(back.username, "alice");
    assert_eq!(back.password, "s3cret pass");
    assert_eq!(back.private_key_password, "pk");
    assert!(back.legacy_auth);

    let empty = VpnCredentials {
        username: String::new(),
        password: String::new(),
        private_key_password: String::new(),
        legacy_auth: false,
    };
    let payload = secret_payload(&empty);
    assert_eq!(payload, "\n\n\nfalse");
    let back = parse_secret(payload.as_bytes()).unwrap().unwrap();
    assert!(back.username.is_empty() && back.password.is_empty());
    assert!(!back.legacy_auth);
}

#[test]
fn stored_payload_with_username_but_no_password_does_not_read_back() {
    let credentials = VpnCredentials {
        username: "alice".to_string(),
        password: String::new(),
        private_key_password: String::new(),
        legacy_auth: false,
    };
    let payload = secret_payload(&credentials);
    assert!(parse_secret(payload.as_bytes()).unwrap().is_none());
}
