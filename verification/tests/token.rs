use equarior::token::{authenticate, issue, read_token, verify, AuthError, GuardOutcome};
use hmac::Mac;

fn hex_of(bytes: &[u8]) -> String {
    let mut s = String::new();
    for b in bytes {
        s.push(char::from_digit((b >> 4) as u32, 16).unwrap());
        s.push(char::from_digit((b & 15) as u32, 16).unwrap());
    }
    s
}

fn hmac_hex(msg: &str) -> String {
    let mut mac =
        <hmac::Hmac<sha2::Sha256> as hmac::KeyInit>::new_from_slice(b"secret").unwrap();
    mac.update(msg.as_bytes());
    hex_of(&mac.finalize().into_bytes())
}

#[test]
fn round_trip_simple_subject() {
    let t = issue("123");
    assert_eq!(verify(&t), Ok("123".to_string()));
}

#[test]
fn round_trip_empty_subject() {
    let t = issue("");
    assert_eq!(verify(&t), Ok("".to_string()));
}

#[test]
fn round_trip_subject_with_separator() {
    let t = issue("a.b.c");
    assert_eq!(verify(&t), Ok("a.b.c".to_string()));
}

#[test]
fn round_trip_unicode_subject() {
    let t = issue("jeu\u{00e9}\u{4e16}");
    assert_eq!(verify(&t), Ok("jeu\u{00e9}\u{4e16}".to_string()));
}

#[test]
fn token_shape_matches_keyed_digest() {
    let t = issue("7");
    let expected = format!("s7.{}", hmac_hex("s7"));
    assert_eq!(t, expected);
}

#[test]
fn garbage_tokens_are_rejected() {
    assert_eq!(verify(""), Err(AuthError::InvalidSignature));
    assert_eq!(verify("notatoken"), Err(AuthError::InvalidSignature));
    assert_eq!(verify("abc.def"), Err(AuthError::InvalidSignature));
    assert_eq!(verify("s1."), Err(AuthError::InvalidSignature));
}

#[test]
fn wrong_signature_is_rejected() {
    let forged = format!("s1.{}", hmac_hex("s2"));
    assert_eq!(verify(&forged), Err(AuthError::InvalidSignature));
}

#[test]
fn signed_claim_without_subject_is_rejected() {
    let no_marker = format!("x7.{}", hmac_hex("x7"));
    assert_eq!(verify(&no_marker), Err(AuthError::MissingSubject));
    let empty_claim = format!(".{}", hmac_hex(""));
    assert_eq!(verify(&empty_claim), Err(AuthError::MissingSubject));
}

#[test]
fn tampering_any_byte_fails_verification() {
    let t = issue("42");
    let chars: Vec<char> = t.chars().collect();
    for i in 0..chars.len() {
        let mut tampered: Vec<char> = chars.clone();
        tampered[i] = if chars[i] != 'x' { 'x' } else { 'y' };
        let bad: String = tampered.into_iter().collect();
        assert!(verify(&bad).is_err(), "position {} accepted", i);
    }
}

#[test]
fn read_token_reports_reasons() {
    let t = issue("9");
    assert_eq!(read_token(&t), Ok("9".to_string()));
    assert_eq!(read_token("junk"), Err("invalid signature".to_string()));
    let no_subject = format!(".{}", hmac_hex(""));
    assert_eq!(read_token(&no_subject), Err("No subject".to_string()));
}

#[test]
fn guard_forwards_without_exactly_one_header() {
    assert!(matches!(authenticate(&vec![]), GuardOutcome::Forward));
    let two = vec![issue("1"), issue("2")];
    assert!(matches!(authenticate(&two), GuardOutcome::Forward));
}

#[test]
fn guard_accepts_one_valid_header() {
    let headers = vec![issue("31")];
    match authenticate(&headers) {
        GuardOutcome::Success(key) => assert_eq!(key.0, "31"),
        _ => panic!("expected an authenticated subject"),
    }
}

#[test]
fn guard_rejects_one_bad_header() {
    let headers = vec!["bogus".to_string()];
    assert!(matches!(authenticate(&headers), GuardOutcome::Failure));
}
