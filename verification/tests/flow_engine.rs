//! The flow engine, edge by edge: ingress, discovery, initiation, the
//! assertion-consumer step and logout.

use saml_proxy::codec::{decode_post, encode_post, encode_redirect};
use saml_proxy::error::Error;
use saml_proxy::flow::{
    acs_consume_session, build_authn_request_xml, build_sso_redirect_url,
    handle_discovery_submit, handle_slo, handle_sso_post, handle_sso_redirect,
    initiate_select_entity,
};
use saml_proxy::session::SessionStore;

const AUTHN_REQUEST: &str = "<samlp:AuthnRequest xmlns:samlp=\"urn:oasis:names:tc:SAML:2.0:protocol\" xmlns:saml=\"urn:oasis:names:tc:SAML:2.0:assertion\" ID=\"_test\" Version=\"2.0\" IssueInstant=\"2026-01-01T00:00:00Z\" AssertionConsumerServiceURL=\"http://sp/acs\"><saml:Issuer>http://sp</saml:Issuer></samlp:AuthnRequest>";

fn session_id_of(path: &str) -> &str {
    path.strip_prefix("/discovery?session=").expect("a discovery redirect")
}

#[test]
fn sso_post_creates_session_and_redirects_to_discovery() {
    let mut store = SessionStore::new();
    let encoded = encode_post(AUTHN_REQUEST);
    let path = handle_sso_post(&mut store, &encoded, Some("test".into()), 100).unwrap();
    let id = session_id_of(&path);

    let session = store.get(id, 100).unwrap();
    assert_eq!(session.original_request_id, "_test");
    assert_eq!(session.sp_acs_url, "http://sp/acs");
    assert_eq!(session.sp_entity_id, "http://sp");
    assert_eq!(session.relay_state.as_deref(), Some("test"));
}

#[test]
fn sso_redirect_creates_session_and_redirects_to_discovery() {
    let mut store = SessionStore::new();
    let encoded = encode_redirect(AUTHN_REQUEST);
    let path = handle_sso_redirect(&mut store, &encoded, None, 100).unwrap();
    let id = session_id_of(&path);
    assert!(store.get(id, 100).is_some());
}

#[test]
fn sso_rejects_request_without_acs_url() {
    let mut store = SessionStore::new();
    let xml = "<samlp:AuthnRequest xmlns:samlp=\"urn:oasis:names:tc:SAML:2.0:protocol\" ID=\"_test\" Version=\"2.0\" IssueInstant=\"2026-01-01T00:00:00Z\"></samlp:AuthnRequest>";
    let err = handle_sso_post(&mut store, &encode_post(xml), None, 0).unwrap_err();
    assert!(matches!(err, Error::InvalidSamlRequest(_)));
}

#[test]
fn discovery_submit_records_selection_and_advances() {
    let mut store = SessionStore::new();
    let path = handle_sso_post(&mut store, &encode_post(AUTHN_REQUEST), None, 0).unwrap();
    let id = session_id_of(&path).to_owned();

    let next = handle_discovery_submit(
        &mut store,
        &id,
        "https://login.cmu.edu/idp/shibboleth".into(),
    )
    .unwrap();
    assert_eq!(next, format!("/sp/initiate?session={id}"));

    let session = store.get(&id, 0).unwrap();
    assert_eq!(
        session.selected_university.as_deref(),
        Some("https://login.cmu.edu/idp/shibboleth"),
    );
}

#[test]
fn discovery_submit_unknown_session_is_not_found() {
    let mut store = SessionStore::new();
    let err = handle_discovery_submit(&mut store, "nope", "x".into()).unwrap_err();
    assert!(matches!(err, Error::SessionNotFound(_)));
    assert_eq!(err.status_code(), 404);
}

#[test]
fn initiate_requires_a_selection() {
    let mut store = SessionStore::new();
    let path = handle_sso_post(&mut store, &encode_post(AUTHN_REQUEST), None, 0).unwrap();
    let id = session_id_of(&path).to_owned();

    let err = initiate_select_entity(&mut store, &id, 0).unwrap_err();
    assert!(matches!(err, Error::MissingUniversitySelection));

    store.update_university(&id, "https://idp.example.edu".into());
    let entity = initiate_select_entity(&mut store, &id, 0).unwrap();
    assert_eq!(entity, "https://idp.example.edu");
}

#[test]
fn outbound_authn_request_parses_back() {
    let xml = build_authn_request_xml(
        "id-42",
        "2026-01-01T00:00:00Z",
        "https://idp.example.edu/sso",
        "https://proxy.example/sp/acs",
        "https://proxy.example/saml/idp",
    );
    // Feed the emitted request back through ingress: the parsed fields
    // land in the session.
    let mut store = SessionStore::new();
    let path = handle_sso_post(&mut store, &encode_post(&xml), None, 0).unwrap();
    let session = store.get(session_id_of(&path), 0).unwrap();
    assert_eq!(session.original_request_id, "id-42");
    assert_eq!(session.sp_acs_url, "https://proxy.example/sp/acs");
    assert_eq!(session.sp_entity_id, "https://proxy.example/saml/idp");
}

#[test]
fn redirect_url_carries_request_and_relay_state() {
    let url = build_sso_redirect_url("https://idp.example.edu/sso", "<x/>", "sess-1");
    assert!(url.starts_with("https://idp.example.edu/sso?SAMLRequest="));
    assert!(url.ends_with("&RelayState=sess-1"));
    let with_query = build_sso_redirect_url("https://idp.example.edu/sso?p=1", "<x/>", "s");
    assert!(with_query.starts_with("https://idp.example.edu/sso?p=1&SAMLRequest="));
}

#[test]
fn acs_consumes_the_session_in_order() {
    let mut store = SessionStore::new();
    let path = handle_sso_post(&mut store, &encode_post(AUTHN_REQUEST), None, 0).unwrap();
    let id = session_id_of(&path).to_owned();

    // Out of order: no selection yet, an ordering violation at ACS.
    let path2 = handle_sso_post(&mut store, &encode_post(AUTHN_REQUEST), None, 0).unwrap();
    let id2 = session_id_of(&path2).to_owned();
    let err = acs_consume_session(&mut store, Some(&id2)).unwrap_err();
    assert!(matches!(err, Error::InvalidSamlResponse(_)));
    assert_eq!(err.status_code(), 502);

    store.update_university(&id, "https://idp.example.edu".into());
    store.update_proxy_request_id(&id, "id-42".into());
    let session = acs_consume_session(&mut store, Some(&id)).unwrap();
    assert_eq!(session.proxy_request_id.as_deref(), Some("id-42"));
    // Consumed: a second arrival finds nothing.
    let err = acs_consume_session(&mut store, Some(&id)).unwrap_err();
    assert!(matches!(err, Error::SessionNotFound(_)));
}

#[test]
fn acs_without_relay_state_is_invalid() {
    let mut store = SessionStore::new();
    let err = acs_consume_session(&mut store, None).unwrap_err();
    assert!(matches!(err, Error::InvalidSamlResponse(_)));
}

#[test]
fn slo_acknowledges_with_a_success_response() {
    let logout_request = "<samlp:LogoutRequest xmlns:samlp=\"urn:oasis:names:tc:SAML:2.0:protocol\" xmlns:saml=\"urn:oasis:names:tc:SAML:2.0:assertion\" ID=\"_logout_1\" Version=\"2.0\" IssueInstant=\"2026-01-01T00:00:00Z\" Destination=\"https://idp.example.edu/slo\"><saml:Issuer>https://idp.example.edu</saml:Issuer></samlp:LogoutRequest>";
    let html = handle_slo(
        &encode_post(logout_request),
        Some("rs"),
        "https://proxy.example/saml/idp",
        "_slo_1".into(),
        1_760_000_000,
    )
    .unwrap();
    assert!(html.contains(r#"action="https://idp.example.edu/slo""#));
    assert!(html.contains(r#"name="RelayState" value="rs""#));

    let b64 = html
        .split(r#"name="SAMLResponse" value=""#)
        .nth(1)
        .unwrap()
        .split('"')
        .next()
        .unwrap();
    let response = decode_post(b64).unwrap();
    assert!(response.contains("urn:oasis:names:tc:SAML:2.0:status:Success"));
    assert!(response.contains(r#"InResponseTo="_logout_1""#));
}
