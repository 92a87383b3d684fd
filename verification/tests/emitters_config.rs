//! The self-metadata emitters, the text encoders and the
//! configuration assembly.

use base64::Engine;
use saml_proxy::config::{parse_port, Config};
use saml_proxy::selfmeta::{build_idp_metadata, build_sp_metadata};
use saml_proxy::textenc::{escape_attr, urlencode};

#[test]
fn idp_metadata_names_the_entity_and_endpoints() {
    let cert = vec![1u8, 2, 3, 4];
    let xml = build_idp_metadata(
        "https://proxy.example/saml/idp",
        "https://proxy.example",
        &cert,
    );
    assert!(xml.contains(r#"entityID="https://proxy.example/saml/idp""#));
    assert!(xml.contains("IDPSSODescriptor"));
    assert!(xml.contains(r#"Location="https://proxy.example/saml/sso""#));
    assert!(xml.contains("urn:oasis:names:tc:SAML:2.0:bindings:HTTP-Redirect"));
    assert!(xml.contains("urn:oasis:names:tc:SAML:2.0:bindings:HTTP-POST"));
    let b64 = base64::engine::general_purpose::STANDARD.encode(&cert);
    assert!(xml.contains(&b64));
    // The document parses as an entity descriptor with an IdP role.
    let mut cache = saml_proxy::mdq::MdqCache::new(1, 60);
    let info = cache
        .admit_descriptor("https://proxy.example/saml/idp", &xml, true, 0)
        .unwrap();
    assert_eq!(info.entity_id.as_deref(), Some("https://proxy.example/saml/idp"));
    assert_eq!(info.sso_endpoints.len(), 2);
}

#[test]
fn sp_metadata_names_the_services() {
    let cert = vec![9u8, 8, 7];
    let xml = build_sp_metadata(
        "https://proxy.example/saml/idp",
        "https://proxy.example",
        &cert,
    );
    assert!(xml.contains("SPSSODescriptor"));
    assert!(xml.contains(r#"AuthnRequestsSigned="true""#));
    assert!(xml.contains(r#"WantAssertionsSigned="true""#));
    assert!(xml.contains(r#"Location="https://proxy.example/sp/acs""#));
    assert!(xml.contains(r#"Location="https://proxy.example/sp/slo""#));
    assert!(xml.contains("SingleLogoutService"));
}

#[test]
fn metadata_escapes_the_entity_id() {
    let xml = build_idp_metadata("https://e.example/?a=1&b=2", "https://e.example", &vec![]);
    assert!(xml.contains(r#"entityID="https://e.example/?a=1&amp;b=2""#));
}

#[test]
fn attribute_escaping_covers_the_five_entities() {
    assert_eq!(escape_attr(r#"a&b<c>d"e'f"#), "a&amp;b&lt;c&gt;d&quot;e&#39;f");
    assert_eq!(escape_attr("plain"), "plain");
}

#[test]
fn urlencoding_keeps_unreserved_and_escapes_the_rest() {
    assert_eq!(urlencode("AZaz09-._~"), "AZaz09-._~");
    assert_eq!(urlencode("a b+c/d"), "a%20b%2Bc%2Fd");
    assert_eq!(urlencode("caf\u{e9}"), "caf%C3%A9");
}

#[test]
fn port_parsing_accepts_numbers_and_rejects_the_rest() {
    assert_eq!(parse_port("8443"), Some(8443));
    assert_eq!(parse_port("0"), Some(0));
    assert_eq!(parse_port("65535"), Some(65535));
    assert_eq!(parse_port("65536"), None);
    assert_eq!(parse_port(""), None);
    assert_eq!(parse_port("8 443"), None);
    assert_eq!(parse_port("-1"), None);
}

#[test]
fn config_applies_defaults() {
    let c = Config::from_parts(
        "https://proxy.example".into(),
        "https://proxy.example/saml/idp".into(),
        "certs/idp-cert.pem".into(),
        "certs/idp-key.pem".into(),
        None,
        None,
        None,
    )
    .unwrap();
    assert_eq!(c.mdq_signing_cert_path, "certs/incommon-mdq.pem");
    assert_eq!(c.host, "0.0.0.0");
    assert_eq!(c.port, 8443);
}

#[test]
fn config_rejects_a_bad_port() {
    let r = Config::from_parts(
        "https://proxy.example".into(),
        "e".into(),
        "c".into(),
        "k".into(),
        None,
        Some("127.0.0.1".into()),
        Some("eighty".into()),
    );
    assert!(r.is_err());
}
