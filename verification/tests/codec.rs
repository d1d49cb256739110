use hashed_password::HashedPassword;

#[test]
fn all() {
    let secret = b"1234567890";
    let plain = "abcdefg";

    let password = HashedPassword::from_plain(plain, secret);
    assert!(password.validate("abcdefg", secret));
    assert!(!password.validate("abcdef", secret));
}

#[test]
fn round_trip_empty_plaintext() {
    let secret = b"server key";
    let password = HashedPassword::from_plain("", secret);
    assert!(password.validate("", secret));
    assert!(!password.validate("x", secret));
}

#[test]
fn round_trip_empty_secret() {
    let password = HashedPassword::from_plain("hunter2", b"");
    assert!(password.validate("hunter2", b""));
    assert!(!password.validate("hunter3", b""));
}

#[test]
fn wrong_candidate_rejected() {
    let secret = b"pepper";
    let password = HashedPassword::from_plain("correct horse", secret);
    assert!(!password.validate("correct horsf", secret));
    assert!(!password.validate("correct hors", secret));
    assert!(!password.validate("correct horse ", secret));
    assert!(!password.validate("", secret));
}

#[test]
fn wrong_secret_rejected() {
    let password = HashedPassword::from_plain("swordfish", b"secret a");
    assert!(!password.validate("swordfish", b"secret b"));
    assert!(!password.validate("swordfish", b""));
}

#[test]
fn two_calls_differ_and_both_validate() {
    let secret = b"pepper";
    let first = HashedPassword::from_plain("same plain", secret);
    let second = HashedPassword::from_plain("same plain", secret);
    // Different random salts: equal outputs have probability 62^-6.
    assert_ne!(first.as_str(), second.as_str());
    assert!(first.validate("same plain", secret));
    assert!(second.validate("same plain", secret));
}

#[test]
fn malformed_no_delimiter() {
    let stored = HashedPassword::from_stored("deadbeef".to_string());
    assert!(!stored.validate("deadbeef", b"secret"));
    assert!(!stored.validate("", b""));
}

#[test]
fn malformed_empty_salt() {
    let stored = HashedPassword::from_stored(
        "$53860c6dfb863eeccfbba4a4ae49409d061a53ecfdddea81cdd304b0bf3fc4c2".to_string(),
    );
    assert!(!stored.validate("abcdefg", b"1234567890"));
}

#[test]
fn malformed_empty_hash() {
    let stored = HashedPassword::from_stored("ABC123$".to_string());
    assert!(!stored.validate("abcdefg", b"1234567890"));
}

#[test]
fn malformed_empty_string() {
    let stored = HashedPassword::from_stored(String::new());
    assert!(!stored.validate("", b""));
}

#[test]
fn output_format() {
    let password = HashedPassword::from_plain("pa55w0rd", b"\x00\xffkey");
    let s = password.as_str();
    assert_eq!(s.len(), 71);
    let bytes = s.as_bytes();
    for i in 0..6 {
        assert!(bytes[i].is_ascii_alphanumeric());
    }
    assert_eq!(bytes[6], b'$');
    for i in 7..71 {
        let c = bytes[i];
        assert!(c.is_ascii_digit() || (b'a'..=b'f').contains(&c));
    }
}

// The exact digest for salt "ABC123", plaintext "abcdefg", secret "1234567890":
// SHA-256 of "ABC123abcdefg31323334353637383930".
#[test]
fn known_answer_validates() {
    let stored = HashedPassword::from_stored(
        "ABC123$53860c6dfb863eeccfbba4a4ae49409d061a53ecfdddea81cdd304b0bf3fc4c2".to_string(),
    );
    assert!(stored.validate("abcdefg", b"1234567890"));
    assert!(!stored.validate("abcdef", b"1234567890"));
    assert!(!stored.validate("abcdefg", b"1234567891"));
}

#[test]
fn known_answer_altered_digest_rejected() {
    let stored = HashedPassword::from_stored(
        "ABC123$53860c6dfb863eeccfbba4a4ae49409d061a53ecfdddea81cdd304b0bf3fc4c3".to_string(),
    );
    assert!(!stored.validate("abcdefg", b"1234567890"));
}

#[test]
fn as_str_returns_stored_value() {
    let stored = HashedPassword::from_stored("ABC123$cafe".to_string());
    assert_eq!(stored.as_str(), "ABC123$cafe");
}
