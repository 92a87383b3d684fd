//! The binding codec: round trips, cross-checks against the encoding
//! crates, and rejection of malformed input.

use base64::Engine;
use std::io::Read;
use saml_proxy::codec::{decode_post, decode_redirect, encode_post, encode_redirect};
use saml_proxy::error::Error;

const SAMPLE_XML: &str = "<samlp:AuthnRequest xmlns:samlp=\"urn:oasis:names:tc:SAML:2.0:protocol\" ID=\"_test\" Version=\"2.0\" IssueInstant=\"2026-01-01T00:00:00Z\" AssertionConsumerServiceURL=\"http://sp/acs\"></samlp:AuthnRequest>";

#[test]
fn redirect_round_trip() {
    let encoded = encode_redirect(SAMPLE_XML);
    let decoded = decode_redirect(&encoded).unwrap();
    assert_eq!(decoded, SAMPLE_XML);
}

#[test]
fn post_round_trip() {
    let encoded = encode_post(SAMPLE_XML);
    let decoded = decode_post(&encoded).unwrap();
    assert_eq!(decoded, SAMPLE_XML);
}

#[test]
fn round_trip_keeps_non_ascii_text() {
    let message = "<x>Universit\u{e4}t M\u{fc}nchen \u{2014} caf\u{e9}</x>";
    assert_eq!(decode_redirect(&encode_redirect(message)).unwrap(), message);
    assert_eq!(decode_post(&encode_post(message)).unwrap(), message);
}

#[test]
fn post_encoding_is_plain_base64() {
    let encoded = encode_post(SAMPLE_XML);
    let direct = base64::engine::general_purpose::STANDARD.encode(SAMPLE_XML.as_bytes());
    assert_eq!(encoded, direct);
}

#[test]
fn redirect_encoding_inflates_with_flate2() {
    let encoded = encode_redirect(SAMPLE_XML);
    let compressed = base64::engine::general_purpose::STANDARD.decode(&encoded).unwrap();
    let mut decoder = flate2::read::DeflateDecoder::new(&compressed[..]);
    let mut xml = String::new();
    decoder.read_to_string(&mut xml).unwrap();
    assert_eq!(xml, SAMPLE_XML);
}

#[test]
fn decode_rejects_bad_base64() {
    let err = decode_redirect("!!!not-base64!!!").unwrap_err();
    assert!(matches!(err, Error::InvalidSamlRequest(_)));
    assert_eq!(err.status_code(), 400);
}

#[test]
fn decode_rejects_uncompressed_payload_on_redirect() {
    // Valid base64, but the bytes are not a DEFLATE stream of anything.
    let err = decode_redirect(&encode_post(SAMPLE_XML)).unwrap_err();
    assert!(matches!(err, Error::InvalidSamlRequest(_)));
}

#[test]
fn decode_rejects_non_utf8_payload_on_post() {
    let bad = base64::engine::general_purpose::STANDARD.encode([0xffu8, 0xfe, 0xfd]);
    let err = decode_post(&bad).unwrap_err();
    assert!(matches!(err, Error::InvalidSamlRequest(_)));
}

#[test]
fn error_status_codes() {
    assert_eq!(Error::SessionNotFound("x".into()).status_code(), 404);
    assert_eq!(Error::InvalidSamlRequest("x".into()).status_code(), 400);
    assert_eq!(Error::MissingUniversitySelection.status_code(), 400);
    assert_eq!(Error::InvalidSamlResponse("x".into()).status_code(), 502);
    assert_eq!(Error::MdqFetchFailed("x".into()).status_code(), 502);
    assert_eq!(Error::Internal("x".into()).status_code(), 500);
}

#[test]
fn error_messages() {
    assert_eq!(
        Error::SessionNotFound("abc".into()).message(),
        "session not found: abc",
    );
    assert_eq!(
        Error::MissingUniversitySelection.message(),
        "missing university selection",
    );
    assert_eq!(
        Error::MdqFetchFailed("timeout".into()).message(),
        "MDQ fetch failed: timeout",
    );
}
