//! The envelope and the canonical index text: round trips and the error
//! taxonomy.
use goostr::jsontext::{parse_i64, parse_quoted};
use goostr::keyjson::{parse_keyfile, print_keyfile};
use goostr::keys::{KeyEntry, KeyFile};
use goostr::keystore::{decrypt_index, encrypt_index};
use goostr::storage::{open_envelope, seal_envelope, CodecError};
use base64::Engine;

fn pass1() -> Vec<u8> {
    vec![7u8; 32]
}

fn pass2() -> Vec<u8> {
    vec![8u8; 32]
}

fn sample_keyfile() -> KeyFile {
    KeyFile {
        active: Some("alice".to_string()),
        keys: vec![
            KeyEntry {
                label: "alice".to_string(),
                public_key: "npub1alice".to_string(),
                created_at: 1700000000,
            },
            KeyEntry {
                label: "bob \"quoted\" \\slash\n".to_string(),
                public_key: "npub1bob".to_string(),
                created_at: -42,
            },
        ],
    }
}

#[test]
fn envelope_round_trip() {
    let pt: Vec<char> = "hello envelope".chars().collect();
    let blob = seal_envelope(&pt, &pass1());
    let back = open_envelope(&blob, &pass1()).unwrap();
    assert_eq!(back, pt);
}

#[test]
fn envelope_wrong_pass_is_auth_failed() {
    let pt: Vec<char> = "secret text".chars().collect();
    let blob = seal_envelope(&pt, &pass1());
    let err = open_envelope(&blob, &pass2()).unwrap_err();
    assert_eq!(err, CodecError::AuthFailed);
}

#[test]
fn envelope_bad_base64() {
    let err = open_envelope("!!!not base64!!!", &pass1()).unwrap_err();
    assert_eq!(err, CodecError::Base64);
}

#[test]
fn envelope_too_short() {
    // ten zero bytes, far below the smallest frame
    let blob = base64::engine::general_purpose::STANDARD.encode(vec![0u8; 10]);
    let err = open_envelope(&blob, &pass1()).unwrap_err();
    assert_eq!(err, CodecError::TooShort);
}

#[test]
fn envelope_bad_magic() {
    let data = vec![0u8; 64];
    let blob = base64::engine::general_purpose::STANDARD.encode(&data);
    let err = open_envelope(&blob, &pass1()).unwrap_err();
    assert_eq!(err, CodecError::BadMagic);
}

#[test]
fn index_round_trip() {
    let kf = sample_keyfile();
    let blob = encrypt_index(&kf, &pass1()).unwrap();
    let back = decrypt_index(&blob, &pass1()).unwrap();
    assert_eq!(back.active, kf.active);
    assert_eq!(back.keys.len(), kf.keys.len());
    for (a, b) in back.keys.iter().zip(kf.keys.iter()) {
        assert_eq!(a.label, b.label);
        assert_eq!(a.public_key, b.public_key);
        assert_eq!(a.created_at, b.created_at);
    }
}

#[test]
fn index_wrong_pass_is_auth_failed_not_json_parse() {
    let kf = sample_keyfile();
    let blob = encrypt_index(&kf, &pass1()).unwrap();
    let err = decrypt_index(&blob, &pass2()).unwrap_err();
    assert_eq!(err, CodecError::AuthFailed);
}

#[test]
fn envelope_of_garbage_text_is_json_parse() {
    let pt: Vec<char> = "this is not an index".chars().collect();
    let blob = seal_envelope(&pt, &pass1());
    let err = decrypt_index(&blob, &pass1()).unwrap_err();
    assert_eq!(err, CodecError::JsonParse);
}

#[test]
fn printed_index_text_is_canonical() {
    let kf = KeyFile {
        active: None,
        keys: vec![KeyEntry {
            label: "a".to_string(),
            public_key: "npub1x".to_string(),
            created_at: 5,
        }],
    };
    let text: String = print_keyfile(&kf).into_iter().collect();
    assert_eq!(
        text,
        "{\"active\":null,\"keys\":{\"a\":{\"label\":\"a\",\"public_key\":\"npub1x\",\"created_at\":5}}}"
    );
}

#[test]
fn printed_index_parses_back() {
    let kf = sample_keyfile();
    let text = print_keyfile(&kf);
    let back = parse_keyfile(&text).unwrap();
    assert_eq!(back.active, kf.active);
    assert_eq!(back.keys.len(), 2);
    assert_eq!(back.keys[1].label, kf.keys[1].label);
    assert_eq!(back.keys[1].created_at, -42);
}

#[test]
fn unsorted_index_is_rejected_on_load() {
    let text: Vec<char> =
        "{\"active\":null,\"keys\":{\"b\":{\"label\":\"b\",\"public_key\":\"n\",\"created_at\":1},\"a\":{\"label\":\"a\",\"public_key\":\"n\",\"created_at\":1}}}"
            .chars()
            .collect();
    let blob = seal_envelope(&text, &pass1());
    assert_eq!(decrypt_index(&blob, &pass1()).unwrap_err(), CodecError::JsonParse);
}

#[test]
fn dangling_active_is_rejected_on_load() {
    let text: Vec<char> = "{\"active\":\"ghost\",\"keys\":{}}".chars().collect();
    let blob = seal_envelope(&text, &pass1());
    assert_eq!(decrypt_index(&blob, &pass1()).unwrap_err(), CodecError::JsonParse);
}

#[test]
fn parse_i64_handles_bounds() {
    let min: Vec<char> = "-9223372036854775808".chars().collect();
    assert_eq!(parse_i64(&min, 0), Some((i64::MIN, min.len())));
    let max: Vec<char> = "9223372036854775807".chars().collect();
    assert_eq!(parse_i64(&max, 0), Some((i64::MAX, max.len())));
    let over: Vec<char> = "9223372036854775808".chars().collect();
    assert_eq!(parse_i64(&over, 0), None);
    let under: Vec<char> = "-9223372036854775809".chars().collect();
    assert_eq!(parse_i64(&under, 0), None);
}

#[test]
fn parse_quoted_unescapes() {
    let text: Vec<char> = "\"a\\\"b\\\\c\\n\"".chars().collect();
    let (s, j) = parse_quoted(&text, 0).unwrap();
    assert_eq!(s, "a\"b\\c\n");
    assert_eq!(j, text.len());
}
