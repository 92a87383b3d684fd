//! The re-issuer's validation of upstream responses, and the form it
//! emits.

use saml_proxy::error::Error;
use saml_proxy::reissue::{acs_form_html, plan_reissue, validate_response, ReissuePlan};
use saml_proxy::saml::{AssertionCore, EntityInfo, KeyInfoRow, ResponseHead};

fn good_head() -> ResponseHead {
    ResponseHead {
        in_response_to: Some("id-42".into()),
        status_code: Some("urn:oasis:names:tc:SAML:2.0:status:Success".into()),
        issuer: Some("https://idp.example.edu".into()),
        destination: Some("https://proxy.example/sp/acs".into()),
        issue_instant: 1000,
    }
}

fn good_assertion() -> Option<AssertionCore> {
    Some(AssertionCore {
        name_id: Some("someone@example.edu".into()),
        not_before: Some(900),
        not_on_or_after: Some(2000),
        audiences: vec!["https://proxy.example/saml/idp".into()],
    })
}

const PROXY: &str = "https://proxy.example/saml/idp";

#[test]
fn valid_response_is_accepted() {
    let r = validate_response(&good_head(), &good_assertion(), true, "id-42", PROXY, 1100);
    assert!(r.is_ok());
}

#[test]
fn wrong_in_response_to_is_rejected() {
    let r = validate_response(&good_head(), &good_assertion(), true, "id-other", PROXY, 1100);
    assert!(matches!(r.unwrap_err(), Error::InvalidSamlResponse(_)));
}

#[test]
fn missing_in_response_to_is_rejected() {
    let mut head = good_head();
    head.in_response_to = None;
    let r = validate_response(&head, &good_assertion(), true, "id-42", PROXY, 1100);
    assert!(matches!(r.unwrap_err(), Error::InvalidSamlResponse(_)));
}

#[test]
fn failed_signature_is_rejected() {
    let r = validate_response(&good_head(), &good_assertion(), false, "id-42", PROXY, 1100);
    assert!(matches!(r.unwrap_err(), Error::InvalidSamlResponse(_)));
}

#[test]
fn non_success_status_is_rejected() {
    let mut head = good_head();
    head.status_code = Some("urn:oasis:names:tc:SAML:2.0:status:Requester".into());
    let r = validate_response(&head, &good_assertion(), true, "id-42", PROXY, 1100);
    assert!(r.is_err());
}

#[test]
fn stale_response_is_rejected() {
    // Issued at 1000, judged 301 seconds later: past the tolerated skew.
    let r = validate_response(&good_head(), &good_assertion(), true, "id-42", PROXY, 1301);
    assert!(r.is_err());
    let r = validate_response(&good_head(), &good_assertion(), true, "id-42", PROXY, 1300);
    assert!(r.is_ok());
}

#[test]
fn response_minted_slightly_ahead_is_accepted() {
    // Issued at 1000 by a clock 300 seconds ahead: within the skew.
    let mut assertion = good_assertion();
    assertion.as_mut().unwrap().not_before = None;
    let r = validate_response(&good_head(), &assertion, true, "id-42", PROXY, 700);
    assert!(r.is_ok());
    let r = validate_response(&good_head(), &assertion, true, "id-42", PROXY, 699);
    assert!(r.is_err());
}

#[test]
fn wrong_audience_is_rejected() {
    let mut assertion = good_assertion();
    assertion.as_mut().unwrap().audiences = vec!["https://someone.else".into()];
    let r = validate_response(&good_head(), &assertion, true, "id-42", PROXY, 1100);
    assert!(r.is_err());
}

#[test]
fn missing_assertion_is_rejected() {
    let r = validate_response(&good_head(), &None, true, "id-42", PROXY, 1100);
    assert!(r.is_err());
}

#[test]
fn plan_rejects_unverified_response() {
    let err = plan_reissue(
        "<Response/>",
        false,
        "id-42",
        PROXY,
        "http://sp/acs".into(),
        "http://sp".into(),
        "_orig".into(),
        None,
        1100,
    )
    .unwrap_err();
    assert!(matches!(err, Error::InvalidSamlResponse(_)));
    assert_eq!(err.status_code(), 502);
}

#[test]
fn plan_carries_the_curated_subset_only() {
    let response_xml = "<samlp:Response xmlns:samlp=\"urn:oasis:names:tc:SAML:2.0:protocol\" xmlns:saml=\"urn:oasis:names:tc:SAML:2.0:assertion\" ID=\"_r1\" Version=\"2.0\" IssueInstant=\"2026-01-01T00:00:00Z\" InResponseTo=\"id-42\"><saml:Issuer>https://idp.example.edu</saml:Issuer><samlp:Status><samlp:StatusCode Value=\"urn:oasis:names:tc:SAML:2.0:status:Success\"/></samlp:Status><saml:Assertion ID=\"_a1\" Version=\"2.0\" IssueInstant=\"2026-01-01T00:00:00Z\"><saml:Issuer>https://idp.example.edu</saml:Issuer><saml:Subject><saml:NameID>someone@example.edu</saml:NameID></saml:Subject><saml:AttributeStatement><saml:Attribute Name=\"urn:oid:0.9.2342.19200300.100.1.3\"><saml:AttributeValue>u@x</saml:AttributeValue></saml:Attribute><saml:Attribute Name=\"urn:oid:9.9.9.9.9\"><saml:AttributeValue>x</saml:AttributeValue></saml:Attribute></saml:AttributeStatement></saml:Assertion></samlp:Response>";
    // 2026-01-01T00:00:00Z as a Unix timestamp.
    let now: i64 = 1_767_225_600;
    let plan = plan_reissue(
        response_xml,
        true,
        "id-42",
        PROXY,
        "http://sp/acs".into(),
        "http://sp".into(),
        "_orig".into(),
        Some("rs".into()),
        now,
    )
    .unwrap();
    assert_eq!(plan.name_id, "someone@example.edu");
    assert_eq!(plan.attributes.len(), 1);
    assert_eq!(plan.attributes[0].0, "urn:oid:0.9.2342.19200300.100.1.3");
    assert_eq!(plan.attributes[0].1, "u@x");
    assert_eq!(plan.sp_acs_url, "http://sp/acs");
    assert_eq!(plan.original_request_id, "_orig");
}

#[test]
fn plan_rejects_replayed_response() {
    let response_xml = "<samlp:Response xmlns:samlp=\"urn:oasis:names:tc:SAML:2.0:protocol\" xmlns:saml=\"urn:oasis:names:tc:SAML:2.0:assertion\" ID=\"_r1\" Version=\"2.0\" IssueInstant=\"2026-01-01T00:00:00Z\" InResponseTo=\"id-somebody-else\"><saml:Issuer>https://idp.example.edu</saml:Issuer><samlp:Status><samlp:StatusCode Value=\"urn:oasis:names:tc:SAML:2.0:status:Success\"/></samlp:Status><saml:Assertion ID=\"_a1\" Version=\"2.0\" IssueInstant=\"2026-01-01T00:00:00Z\"><saml:Issuer>https://idp.example.edu</saml:Issuer></saml:Assertion></samlp:Response>";
    let err = plan_reissue(
        response_xml,
        true,
        "id-42",
        PROXY,
        "http://sp/acs".into(),
        "http://sp".into(),
        "_orig".into(),
        None,
        1_767_225_600,
    )
    .unwrap_err();
    assert!(matches!(err, Error::InvalidSamlResponse(_)));
}

#[test]
fn form_html_escapes_destination_and_relay_state() {
    let html = acs_form_html("http://sp/acs?a=1&b=\"2\"", "QUJD", Some("r<s>"));
    assert!(html.contains(r#"action="http://sp/acs?a=1&amp;b=&quot;2&quot;""#));
    assert!(html.contains(r#"name="SAMLResponse" value="QUJD""#));
    assert!(html.contains(r#"name="RelayState" value="r&lt;s&gt;""#));
    assert!(html.contains("document.forms[0].submit()"));
}

#[test]
fn form_html_omits_absent_relay_state() {
    let html = acs_form_html("http://sp/acs", "QUJD", None);
    assert!(!html.contains("RelayState"));
}

#[test]
fn plan_fields_are_plain_data() {
    let plan = ReissuePlan {
        name_id: "unknown".into(),
        attributes: vec![],
        sp_acs_url: "http://sp/acs".into(),
        sp_entity_id: "http://sp".into(),
        proxy_entity_id: PROXY.into(),
        original_request_id: "_orig".into(),
        relay_state: None,
    };
    assert_eq!(plan.name_id, "unknown");
}

#[test]
fn reissued_response_parses_back_and_validates() {
    let plan = ReissuePlan {
        name_id: "someone@example.edu".into(),
        attributes: vec![
            ("urn:oid:0.9.2342.19200300.100.1.3".into(), "u@x".into()),
            ("urn:oid:2.5.4.42".into(), "Someone".into()),
        ],
        sp_acs_url: "http://sp/acs".into(),
        sp_entity_id: "http://sp".into(),
        proxy_entity_id: PROXY.into(),
        original_request_id: "_orig".into(),
        relay_state: None,
    };
    let xml = saml_proxy::reissue::build_reissued_response_xml(
        &plan,
        "_r1",
        "_a1",
        "2026-01-01T00:00:00Z",
    );
    // The document the proxy emits passes its own acceptance rules,
    // judged as if the receiving side were the original provider.
    let plan2 = plan_reissue(
        &xml,
        true,
        "_orig",
        "http://sp",
        "http://next/acs".into(),
        "http://next".into(),
        "_next".into(),
        None,
        1_767_225_700,
    )
    .unwrap();
    assert_eq!(plan2.name_id, "someone@example.edu");
    assert_eq!(plan2.attributes.len(), 2);
    assert_eq!(plan2.attributes[0].0, "urn:oid:0.9.2342.19200300.100.1.3");
    assert_eq!(plan2.attributes[0].1, "u@x");
    assert_eq!(plan2.attributes[1].0, "urn:oid:2.5.4.42");
    assert_eq!(plan2.attributes[1].1, "Someone");
}

#[test]
fn signing_certificates_keep_signing_and_undeclared_keys() {
    let info = EntityInfo {
        entity_id: Some("https://idp.example.edu".into()),
        display_names: vec![],
        sso_endpoints: vec![],
        keys: vec![
            KeyInfoRow { key_use: Some("signing".into()), certificates: vec!["AAA".into()] },
            KeyInfoRow { key_use: Some("encryption".into()), certificates: vec!["BBB".into()] },
            KeyInfoRow { key_use: None, certificates: vec!["CCC".into(), "DDD".into()] },
        ],
    };
    let certs = saml_proxy::reissue::signing_certificates(&info);
    assert_eq!(certs, vec!["AAA".to_string(), "CCC".into(), "DDD".into()]);
}

#[test]
fn metadata_keys_reach_the_certificate_selection() {
    let xml = "<EntityDescriptor xmlns=\"urn:oasis:names:tc:SAML:2.0:metadata\" entityID=\"https://idp.example.edu\"><IDPSSODescriptor protocolSupportEnumeration=\"urn:oasis:names:tc:SAML:2.0:protocol\"><KeyDescriptor use=\"signing\"><KeyInfo xmlns=\"http://www.w3.org/2000/09/xmldsig#\"><X509Data><X509Certificate>QUJD</X509Certificate></X509Data></KeyInfo></KeyDescriptor><SingleSignOnService Binding=\"urn:oasis:names:tc:SAML:2.0:bindings:HTTP-Redirect\" Location=\"https://idp.example.edu/sso\"/></IDPSSODescriptor></EntityDescriptor>";
    let mut cache = saml_proxy::mdq::MdqCache::new(1, 60);
    let info = cache.admit_descriptor("https://idp.example.edu", xml, true, 0).unwrap();
    let certs = saml_proxy::reissue::signing_certificates(&info);
    assert_eq!(certs, vec!["QUJD".to_string()]);
}
