use servedir::auth::{check_auth, decode, BasicAuth, Credentials};

fn with_creds(user: &str, pass: &str) -> BasicAuth {
    BasicAuth {
        credentials: Some(Credentials {
            username: user.to_string(),
            password: pass.to_string(),
        }),
    }
}

fn anonymous() -> BasicAuth {
    BasicAuth { credentials: None }
}

#[test]
fn decode_well_formed_header() {
    // base64 of "user:pass"
    let creds = decode("dXNlcjpwYXNz").expect("should decode");
    assert_eq!(creds.username, "user");
    assert_eq!(creds.password, "pass");
}

#[test]
fn decode_round_trip() {
    let header = base64::encode("alice:open sesame");
    let creds = decode(&header).expect("should decode");
    assert_eq!(creds.username, "alice");
    assert_eq!(creds.password, "open sesame");
}

#[test]
fn decode_splits_on_first_colon() {
    let header = base64::encode("a:b:c");
    let creds = decode(&header).expect("should decode");
    assert_eq!(creds.username, "a");
    assert_eq!(creds.password, "b:c");
}

#[test]
fn decode_rejects_invalid_base64() {
    assert!(decode("!!!not base64!!!").is_none());
}

#[test]
fn decode_rejects_missing_colon() {
    let header = base64::encode("nocolon");
    assert!(decode(&header).is_none());
}

#[test]
fn decode_rejects_invalid_utf8() {
    let header = base64::encode([0xffu8, 0xfe, 0x3a, 0x61]);
    assert!(decode(&header).is_none());
}

#[test]
fn decode_empty_sides() {
    let header = base64::encode(":");
    let creds = decode(&header).expect("should decode");
    assert_eq!(creds.username, "");
    assert_eq!(creds.password, "");
}

#[test]
fn unconfigured_gate_admits_everyone() {
    assert!(check_auth(None, None, &anonymous()));
    assert!(check_auth(None, None, &with_creds("a", "b")));
}

#[test]
fn configured_gate_admits_matching_credentials() {
    assert!(check_auth(Some("a"), Some("b"), &with_creds("a", "b")));
}

#[test]
fn configured_gate_rejects_wrong_password() {
    assert!(!check_auth(Some("a"), Some("b"), &with_creds("a", "x")));
}

#[test]
fn configured_gate_rejects_wrong_username() {
    assert!(!check_auth(Some("a"), Some("b"), &with_creds("x", "b")));
}

#[test]
fn configured_gate_rejects_missing_credentials() {
    assert!(!check_auth(Some("a"), Some("b"), &anonymous()));
}

#[test]
fn half_configured_gate_admits() {
    assert!(check_auth(Some("a"), None, &anonymous()));
    assert!(check_auth(None, Some("b"), &with_creds("x", "y")));
}
