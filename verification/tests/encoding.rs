//! Building blocks: hex and base64url codecs, field validation,
//! configuration defaults, and error names.

use delirium_auth::base64url::{b64_decode, b64_push_encoded};
use delirium_auth::config::{field_length, Database, Jwt, Validation};
use delirium_auth::error::{AuthError, ValidationError};
use delirium_auth::hex::{parse_hex, push_hex};
use delirium_auth::validation::validate_string;

fn b64(input: &[u8]) -> String {
    let mut out: Vec<u8> = Vec::new();
    b64_push_encoded(&mut out, &input.to_vec());
    String::from_utf8(out).unwrap()
}

#[test]
fn hex_renders_fixed_width() {
    let mut out: Vec<u8> = Vec::new();
    push_hex(&mut out, 0x2a, 4);
    assert_eq!(out, b"002a");
    push_hex(&mut out, 0xdeadbeef, 8);
    assert_eq!(out, b"002adeadbeef");
}

#[test]
fn hex_parses_what_it_renders() {
    let mut out: Vec<u8> = Vec::new();
    push_hex(&mut out, 0x0123_4567_89ab_cdef_0123_4567_89ab_cdef, 32);
    assert_eq!(parse_hex(&out, 0, 32), Some(0x0123_4567_89ab_cdef_0123_4567_89ab_cdef));
}

#[test]
fn hex_rejects_non_digits_and_uppercase() {
    assert_eq!(parse_hex(&b"00zz".to_vec(), 0, 4), None);
    assert_eq!(parse_hex(&b"00AA".to_vec(), 0, 4), None);
    assert_eq!(parse_hex(&b"00aa".to_vec(), 0, 4), Some(0xaa));
}

#[test]
fn base64url_encodes_known_vectors() {
    assert_eq!(b64(b""), "");
    assert_eq!(b64(b"M"), "TQ");
    assert_eq!(b64(b"Ma"), "TWE");
    assert_eq!(b64(b"Man"), "TWFu");
    assert_eq!(b64(&[0xfb, 0xff, 0xfe]), "-__-");
}

#[test]
fn base64url_decodes_what_it_encodes() {
    for input in [&b""[..], b"M", b"Ma", b"Man", b"Many hands make light work."] {
        let mut enc: Vec<u8> = Vec::new();
        b64_push_encoded(&mut enc, &input.to_vec());
        let dec = b64_decode(&enc, 0).unwrap();
        assert_eq!(dec, input.to_vec());
    }
}

#[test]
fn base64url_rejects_padding_stray_bits_and_bad_lengths() {
    assert_eq!(b64_decode(&b"TQ==".to_vec(), 0), None);
    assert_eq!(b64_decode(&b"T".to_vec(), 0), None);
    assert_eq!(b64_decode(&b"TR".to_vec(), 0), None);
    assert_eq!(b64_decode(&b"T!".to_vec(), 0), None);
    assert_eq!(b64_decode(&b"TQ".to_vec(), 0), Some(vec![0x4d]));
}

#[test]
fn validate_string_accepts_plain_fields() {
    let cfg = Validation::default();
    assert!(validate_string("player1", "account", &cfg, false).is_ok());
    assert!(validate_string("p4ss!w0rd#", "password", &cfg, true).is_ok());
}

#[test]
fn validate_string_rejects_short_fields() {
    let cfg = Validation::default();
    assert!(matches!(
        validate_string("abc", "account", &cfg, false),
        Err(ValidationError::MinLength { field: "account", min: 4 })
    ));
}

#[test]
fn validate_string_rejects_long_fields() {
    let cfg = Validation::default();
    let long = "a".repeat(33);
    assert!(matches!(
        validate_string(&long, "account", &cfg, false),
        Err(ValidationError::MaxLength { field: "account", max: 32 })
    ));
}

#[test]
fn validate_string_rejects_bad_characters() {
    let cfg = Validation::default();
    assert!(matches!(
        validate_string("play er", "account", &cfg, false),
        Err(ValidationError::Alphanumeric { field: "account" })
    ));
    assert!(matches!(
        validate_string("pl!y3r", "account", &cfg, false),
        Err(ValidationError::Alphanumeric { field: "account" })
    ));
    assert!(validate_string("pl!y3r", "password", &cfg, true).is_ok());
    assert!(matches!(
        validate_string("pass word", "password", &cfg, true),
        Err(ValidationError::Ascii { field: "password" })
    ));
}

#[test]
fn length_checks_precede_character_checks() {
    let cfg = Validation::default();
    assert!(matches!(
        validate_string("a!", "account", &cfg, false),
        Err(ValidationError::MinLength { .. })
    ));
}

#[test]
fn field_length_reads_the_configuration() {
    let cfg = Validation { min_length: 2, max_length: 9 };
    assert_eq!(field_length(&cfg), (2, 9));
}

#[test]
fn configuration_defaults() {
    let jwt = Jwt::default();
    assert_eq!(jwt.secret, "");
    assert!(jwt.subject.is_none());
    assert!(jwt.audience.is_none());
    assert_eq!(jwt.time, 900);
    assert_eq!(jwt.refresh_time, 604800);
    let v = Validation::default();
    assert_eq!((v.min_length, v.max_length), (4, 32));
    let db = Database::default();
    assert_eq!(db.host, "localhost");
    assert_eq!(db.database, "delirium");
    assert_eq!(db.connections, 10);
    let dbg = delirium_auth::config::Debug::default();
    assert!(!dbg.swagger);
}

#[test]
fn error_names_are_stable() {
    assert_eq!(AuthError::SessionNotFound.name(), "session not found");
    assert_eq!(AuthError::Expired.name(), "token expired");
    assert_eq!(AuthError::LockCorrupted.name(), "lock corrupted");
}
