//! The authentication-flow engine.
//!
//! One sign-in walks five edges: the service provider's AuthnRequest
//! arrives and opens a session; the user picks an institution; the
//! proxy issues its own AuthnRequest towards that IdP; the IdP's
//! Response comes back to the proxy's ACS and consumes the session;
//! and the re-issued Response leaves for the original provider.  The
//! decisions on every edge live here; transport and cryptography hand
//! in plain values.

use vstd::prelude::*;
use crate::bytes::{contains_bytes, find_bytes};
use crate::codec::{
    decode_post, decode_redirect, encode_redirect, post_decoding, post_encoding,
    redirect_decoding, redirect_encoding,
};
use crate::error::Error;
use crate::saml::{
    authn_request_info_of, logout_request_info_of, parse_authn_request, parse_logout_request,
    EntityInfo, LogoutRequestInfo, LogoutRequestInfoV,
};
use crate::session::{opt_str_view, AuthSession, AuthSessionV, SessionStore};
use crate::textenc::{escape_attr, escape_seq, urlenc_seq, urlencode};
use vstd::string::StrSliceExecFns;
use vstd::utf8::encode_utf8;

verus! {

/// The SAML HTTP-Redirect binding URI.
pub const HTTP_REDIRECT_BINDING: &'static str =
    "urn:oasis:names:tc:SAML:2.0:bindings:HTTP-Redirect";

/// The SAML HTTP-POST binding URI.
pub const HTTP_POST_BINDING: &'static str = "urn:oasis:names:tc:SAML:2.0:bindings:HTTP-POST";

/// What chrono renders for a Unix timestamp as RFC 3339 in UTC with
/// second precision, a function of the timestamp alone.
pub uninterp spec fn rfc3339_of(secs: i64) -> Seq<char>;

/// Relies on chrono's `DateTime::from_timestamp` and
/// `to_rfc3339_opts`: a deterministic rendering of the instant.
#[verifier::external_body]
pub(crate) fn format_rfc3339(secs: i64) -> (r: String)
    requires
        0 <= secs < 253402300800,
    ensures
        r@ == rfc3339_of(secs),
{
    chrono::DateTime::from_timestamp(secs, 0)
        .expect("timestamp is within chrono's range")
        .to_rfc3339_opts(chrono::SecondsFormat::Secs, true)
}

/// What ingress does with an inbound AuthnRequest text: rejected
/// unless it parses and names an assertion-consumer-service URL; the
/// session records that URL, the issuer (empty if absent) and the
/// relay state.
pub open spec fn ingress_session(
    xml: Seq<char>,
    relay_state: Option<Seq<char>>,
    now: u64,
) -> Option<AuthSessionV> {
    match authn_request_info_of(xml) {
        None => None,
        Some(info) => match info.acs_url {
            None => None,
            Some(acs) => Some(
                AuthSessionV {
                    relay_state: relay_state,
                    original_request_id: info.id,
                    sp_acs_url: acs,
                    sp_entity_id: match info.issuer {
                        Some(iss) => iss,
                        None => Seq::empty(),
                    },
                    selected_university: None,
                    proxy_request_id: None,
                    created_at: now,
                },
            ),
        },
    }
}

/// Parses an inbound AuthnRequest and opens a session for it.
///
/// The request must name an `AssertionConsumerServiceURL`, else it is
/// `InvalidSamlRequest`; the issuer falls back to the empty string.
/// On success the returned ID is filed in the store with exactly the
/// session `ingress_session` describes.
pub fn process_authn_request(
    store: &mut SessionStore,
    xml: &str,
    relay_state: Option<String>,
    now: u64,
) -> (r: Result<String, Error>)
    requires
        old(store).wf(),
    ensures
        final(store).wf(),
        match ingress_session(xml@, opt_str_view(relay_state), now) {
            None => r is Err && *final(store) == *old(store),
            Some(s) => match r {
                Ok(id) => final(store).spec_get(id@) == Some(s) && (forall|k: Seq<char>|
                    k != id@ ==> final(store).spec_get(k) == old(store).spec_get(k)),
                Err(_) => false,
            },
        },
        r matches Err(e) ==> e is InvalidSamlRequest,
{
    let info = match parse_authn_request(xml) {
        Some(info) => info,
        None => {
            return Err(Error::InvalidSamlRequest("failed to parse AuthnRequest".to_owned()));
        },
    };
    let acs_url = match info.acs_url {
        Some(acs) => acs,
        None => {
            return Err(
                Error::InvalidSamlRequest(
                    "AuthnRequest missing AssertionConsumerServiceURL".to_owned(),
                ),
            );
        },
    };
    let sp_entity_id = match info.issuer {
        Some(iss) => iss,
        None => String::new(),
    };
    let id = store.create(info.id, acs_url, sp_entity_id, relay_state, now);
    Ok(id)
}

/// The discovery page a fresh session is sent to.
pub open spec fn discovery_path(session_id: Seq<char>) -> Seq<char> {
    "/discovery?session="@ + urlenc_seq(session_id)
}

/// The initiation page a session with a chosen institution is sent to.
pub open spec fn initiate_path(session_id: Seq<char>) -> Seq<char> {
    "/sp/initiate?session="@ + urlenc_seq(session_id)
}

/// Serves one inbound AuthnRequest on the HTTP-Redirect binding: the
/// query value is decoded, a session opened, and the browser is sent
/// to discovery.
pub fn handle_sso_redirect(
    store: &mut SessionStore,
    saml_request: &str,
    relay_state: Option<String>,
    now: u64,
) -> (r: Result<String, Error>)
    requires
        old(store).wf(),
    ensures
        final(store).wf(),
        r matches Err(e) ==> e is InvalidSamlRequest && *final(store) == *old(store),
        match redirect_decoding(saml_request@) {
            None => r is Err,
            Some(m) => match ingress_session(m, opt_str_view(relay_state), now) {
                None => r is Err,
                Some(s) => r matches Ok(path) && exists|id: Seq<char>|
                    path@ == discovery_path(id) && final(store).spec_get(id) == Some(s) && (
                    forall|k: Seq<char>| k != id ==> final(store).spec_get(k) == old(
                        store,
                    ).spec_get(k)),
            },
        },
{
    let xml = match decode_redirect(saml_request) {
        Ok(xml) => xml,
        Err(e) => {
            return Err(e);
        },
    };
    let ghost m = xml@;
    let id = match process_authn_request(store, xml.as_str(), relay_state, now) {
        Ok(id) => id,
        Err(e) => {
            return Err(e);
        },
    };
    let mut path = String::new();
    path.append("/discovery?session=");
    let enc = urlencode(id.as_str());
    path.append(enc.as_str());
    proof {
        assert(redirect_decoding(saml_request@) == Some(m));
        assert(ingress_session(m, opt_str_view(relay_state), now) is Some);
        assert(path@ == discovery_path(id@));
        assert(store.spec_get(id@) == Some(
            ingress_session(m, opt_str_view(relay_state), now).unwrap(),
        ));
    }
    Ok(path)
}

/// Serves one inbound AuthnRequest on the HTTP-POST binding.
pub fn handle_sso_post(
    store: &mut SessionStore,
    saml_request: &str,
    relay_state: Option<String>,
    now: u64,
) -> (r: Result<String, Error>)
    requires
        old(store).wf(),
    ensures
        final(store).wf(),
        r matches Err(e) ==> e is InvalidSamlRequest && *final(store) == *old(store),
        match post_decoding(saml_request@) {
            None => r is Err,
            Some(m) => match ingress_session(m, opt_str_view(relay_state), now) {
                None => r is Err,
                Some(s) => r matches Ok(path) && exists|id: Seq<char>|
                    path@ == discovery_path(id) && final(store).spec_get(id) == Some(s) && (
                    forall|k: Seq<char>| k != id ==> final(store).spec_get(k) == old(
                        store,
                    ).spec_get(k)),
            },
        },
{
    let xml = match decode_post(saml_request) {
        Ok(xml) => xml,
        Err(e) => {
            return Err(e);
        },
    };
    let ghost m = xml@;
    let id = match process_authn_request(store, xml.as_str(), relay_state, now) {
        Ok(id) => id,
        Err(e) => {
            return Err(e);
        },
    };
    let mut path = String::new();
    path.append("/discovery?session=");
    let enc = urlencode(id.as_str());
    path.append(enc.as_str());
    proof {
        assert(post_decoding(saml_request@) == Some(m));
        assert(ingress_session(m, opt_str_view(relay_state), now) is Some);
        assert(path@ == discovery_path(id@));
        assert(store.spec_get(id@) == Some(
            ingress_session(m, opt_str_view(relay_state), now).unwrap(),
        ));
    }
    Ok(path)
}

/// Records the institution the user picked and sends the browser on
/// to initiation; a missing session is `SessionNotFound`.
pub fn handle_discovery_submit(
    store: &mut SessionStore,
    session_id: &str,
    entity_id: String,
) -> (r: Result<String, Error>)
    requires
        old(store).wf(),
    ensures
        final(store).wf(),
        match old(store).spec_get(session_id@) {
            None => r is Err && (r matches Err(e) ==> e is SessionNotFound) && final(store).spec_get(session_id@) is None,
            Some(s) => {
                &&& final(store).spec_get(session_id@) == Some(
                    AuthSessionV { selected_university: Some(entity_id@), ..s },
                )
                &&& r matches Ok(path) && path@ == initiate_path(session_id@)
            },
        },
        forall|k: Seq<char>| k != session_id@ ==> final(store).spec_get(k) == old(
            store,
        ).spec_get(k),
{
    if !store.update_university(session_id, entity_id) {
        return Err(Error::SessionNotFound(session_id.to_owned()));
    }
    let mut path = String::new();
    path.append("/sp/initiate?session=");
    let enc = urlencode(session_id);
    path.append(enc.as_str());
    Ok(path)
}

/// Reads the institution a session selected, without touching the
/// store beyond TTL eviction: absent or expired sessions are
/// `SessionNotFound`, an unselected one is
/// `MissingUniversitySelection`.
pub fn initiate_select_entity(store: &mut SessionStore, session_id: &str, now: u64) -> (r:
    Result<String, Error>)
    requires
        old(store).wf(),
    ensures
        final(store).wf(),
        match old(store).spec_get(session_id@) {
            None => r is Err && (r matches Err(e) ==> e is SessionNotFound) && final(store).spec_get(session_id@) is None,
            Some(s) => {
                if crate::session::expired(s, now) {
                    r is Err && (r matches Err(e) ==> e is SessionNotFound) && final(store).spec_get(session_id@) is None
                } else {
                    (match s.selected_university {
                        Some(u) => r matches Ok(entity) && entity@ == u,
                        None => r is Err && (r matches Err(e)
                            ==> e is MissingUniversitySelection),
                    }) && final(store).spec_get(session_id@) == Some(s)
                }
            },
        },
        forall|k: Seq<char>| k != session_id@ ==> final(store).spec_get(k) == old(
            store,
        ).spec_get(k),
{
    let session = match store.get(session_id, now) {
        Some(s) => s,
        None => {
            return Err(Error::SessionNotFound(session_id.to_owned()));
        },
    };
    match session.selected_university {
        Some(u) => Ok(u),
        None => Err(Error::MissingUniversitySelection),
    }
}

/// The first HTTP-Redirect single-sign-on endpoint of an IdP.
pub open spec fn sso_redirect_location(info: crate::saml::EntityInfoV) -> Option<Seq<char>> {
    first_redirect_endpoint(info.sso_endpoints)
}

/// The first endpoint bound to HTTP-Redirect.
pub open spec fn first_redirect_endpoint(eps: Seq<crate::saml::SsoEndpointV>) -> Option<
    Seq<char>,
>
    decreases eps.len(),
{
    if eps.len() == 0 {
        None
    } else if eps[0].binding == HTTP_REDIRECT_BINDING@ {
        Some(eps[0].location)
    } else {
        first_redirect_endpoint(eps.drop_first())
    }
}

/// Picks the IdP's HTTP-Redirect single-sign-on endpoint.
pub fn choose_sso_redirect_url(info: &EntityInfo) -> (r: Option<String>)
    ensures
        opt_str_view(r) == sso_redirect_location(info@),
{
    let n: usize = info.sso_endpoints.len();
    let mut i: usize = 0;
    proof {
        assert(info@.sso_endpoints.skip(0) =~= info@.sso_endpoints);
    }
    while i < n
        invariant
            0 <= i <= n,
            n == info.sso_endpoints@.len(),
            first_redirect_endpoint(info@.sso_endpoints) == first_redirect_endpoint(
                info@.sso_endpoints.skip(i as int),
            ),
        decreases n - i,
    {
        let ep = &info.sso_endpoints[i];
        proof {
            assert(info@.sso_endpoints[i as int] == info.sso_endpoints@[i as int]@);
            assert(info@.sso_endpoints.skip(i as int)[0] == info@.sso_endpoints[i as int]);
            assert(info@.sso_endpoints.skip(i as int).drop_first() =~= info@.sso_endpoints.skip(
                i + 1,
            ));
        }
        if crate::bytes::str_eq(ep.binding.as_str(), HTTP_REDIRECT_BINDING) {
            return Some(ep.location.clone());
        }
        i = i + 1;
    }
    proof {
        assert(info@.sso_endpoints.skip(n as int) =~= Seq::<crate::saml::SsoEndpointV>::empty());
    }
    None
}

/// The proxy's outbound AuthnRequest document, every interpolation
/// attribute-escaped.
pub open spec fn authn_request_xml(
    id: Seq<char>,
    instant: Seq<char>,
    destination: Seq<char>,
    acs_url: Seq<char>,
    issuer: Seq<char>,
) -> Seq<char> {
    "<saml2p:AuthnRequest xmlns:saml2p=\"urn:oasis:names:tc:SAML:2.0:protocol\" ID=\""@
        + escape_seq(id) + "\" Version=\"2.0\" IssueInstant=\""@ + escape_seq(instant)
        + "\" Destination=\""@ + escape_seq(destination)
        + "\" AssertionConsumerServiceURL=\""@ + escape_seq(acs_url)
        + "\" ProtocolBinding=\"urn:oasis:names:tc:SAML:2.0:bindings:HTTP-POST\"><saml2:Issuer xmlns:saml2=\"urn:oasis:names:tc:SAML:2.0:assertion\" Format=\"urn:oasis:names:tc:SAML:2.0:nameid-format:entity\">"@
        + escape_seq(issuer) + "</saml2:Issuer></saml2p:AuthnRequest>"@
}

/// Emits the proxy's outbound AuthnRequest.
pub fn build_authn_request_xml(
    id: &str,
    instant: &str,
    destination: &str,
    acs_url: &str,
    issuer: &str,
) -> (r: String)
    ensures
        r@ == authn_request_xml(id@, instant@, destination@, acs_url@, issuer@),
{
    let mut out = String::new();
    out.append("<saml2p:AuthnRequest xmlns:saml2p=\"urn:oasis:names:tc:SAML:2.0:protocol\" ID=\"");
    let v = escape_attr(id);
    out.append(v.as_str());
    out.append("\" Version=\"2.0\" IssueInstant=\"");
    let v = escape_attr(instant);
    out.append(v.as_str());
    out.append("\" Destination=\"");
    let v = escape_attr(destination);
    out.append(v.as_str());
    out.append("\" AssertionConsumerServiceURL=\"");
    let v = escape_attr(acs_url);
    out.append(v.as_str());
    out.append(
        "\" ProtocolBinding=\"urn:oasis:names:tc:SAML:2.0:bindings:HTTP-POST\"><saml2:Issuer xmlns:saml2=\"urn:oasis:names:tc:SAML:2.0:assertion\" Format=\"urn:oasis:names:tc:SAML:2.0:nameid-format:entity\">",
    );
    let v = escape_attr(issuer);
    out.append(v.as_str());
    out.append("</saml2:Issuer></saml2p:AuthnRequest>");
    out
}

/// The redirect URL that carries the encoded request to the IdP's SSO
/// endpoint, with the session ID as the relay state.
pub open spec fn sso_redirect_url(
    sso_url: Seq<char>,
    xml: Seq<char>,
    relay_state: Seq<char>,
) -> Seq<char> {
    sso_url + (if contains_bytes(encode_utf8(sso_url), seq![63u8]) {
        "&"@
    } else {
        "?"@
    }) + "SAMLRequest="@ + urlenc_seq(redirect_encoding(xml)) + "&RelayState="@ + urlenc_seq(
        relay_state,
    )
}

/// Builds the browser redirect towards the IdP: the request travels
/// deflated, base64-encoded and percent-encoded in the query, the
/// relay state beside it.
pub fn build_sso_redirect_url(sso_url: &str, xml: &str, relay_state: &str) -> (r: String)
    ensures
        r@ == sso_redirect_url(sso_url@, xml@, relay_state@),
{
    let mut out = String::new();
    out.append(sso_url);
    let ub = sso_url.as_bytes_vec();
    let qmark: Vec<u8> = question_mark_vec();
    if find_bytes(&ub, &qmark) {
        out.append("&");
    } else {
        out.append("?");
    }
    out.append("SAMLRequest=");
    let encoded = encode_redirect(xml);
    let enc = urlencode(encoded.as_str());
    out.append(enc.as_str());
    out.append("&RelayState=");
    let rs = urlencode(relay_state);
    out.append(rs.as_str());
    out
}

/// The byte of `?`.
fn question_mark_vec() -> (r: Vec<u8>)
    ensures
        r@ == seq![63u8],
{
    let r: Vec<u8> = vec![63u8];
    proof {
        assert(r@ =~= seq![63u8]);
    }
    r
}

/// Consumes the session a returning IdP Response names through its
/// relay state.  The relay state must be present, the session must
/// exist, and its fields must have advanced in order: an institution
/// chosen and a proxy request recorded.  A session that has not is an
/// ordering violation, answered as an invalid response.
pub fn acs_consume_session(
    store: &mut SessionStore,
    relay_state: Option<&str>,
) -> (r: Result<AuthSession, Error>)
    requires
        old(store).wf(),
    ensures
        final(store).wf(),
        match relay_state {
            None => r is Err && (r matches Err(e) ==> e is InvalidSamlResponse) && *final(store)
                == *old(store),
            Some(id) => {
                &&& final(store).spec_get(id@) is None
                &&& (forall|k: Seq<char>| k != id@ ==> final(store).spec_get(k) == old(
                    store,
                ).spec_get(k))
                &&& match old(store).spec_get(id@) {
                    None => r is Err && (r matches Err(e) ==> e is SessionNotFound),
                    Some(s) => {
                        if s.selected_university is None || s.proxy_request_id is None {
                            r is Err && (r matches Err(e) ==> e is InvalidSamlResponse)
                        } else {
                            r matches Ok(out) && out@ == s
                        }
                    },
                }
            },
        },
{
    let id = match relay_state {
        Some(id) => id,
        None => {
            return Err(Error::InvalidSamlResponse("missing RelayState".to_owned()));
        },
    };
    let session = match store.remove(id) {
        Some(s) => s,
        None => {
            return Err(Error::SessionNotFound(id.to_owned()));
        },
    };
    if session.selected_university.is_none() {
        return Err(Error::InvalidSamlResponse("no university selection in session".to_owned()));
    }
    if session.proxy_request_id.is_none() {
        return Err(Error::InvalidSamlResponse("no proxy request ID in session".to_owned()));
    }
    Ok(session)
}

/// The logout acknowledgement document, every interpolation
/// attribute-escaped.
pub open spec fn logout_response_xml(
    id: Seq<char>,
    in_response_to: Option<Seq<char>>,
    instant: Seq<char>,
    destination: Option<Seq<char>>,
    issuer: Seq<char>,
) -> Seq<char> {
    "<saml2p:LogoutResponse xmlns:saml2p=\"urn:oasis:names:tc:SAML:2.0:protocol\" ID=\""@
        + escape_seq(id) + "\" Version=\"2.0\" IssueInstant=\""@ + escape_seq(instant) + "\""@
        + (match in_response_to {
        Some(irt) => " InResponseTo=\""@ + escape_seq(irt) + "\""@,
        None => Seq::empty(),
    }) + (match destination {
        Some(d) => " Destination=\""@ + escape_seq(d) + "\""@,
        None => Seq::empty(),
    })
        + "><saml2:Issuer xmlns:saml2=\"urn:oasis:names:tc:SAML:2.0:assertion\">"@
        + escape_seq(issuer)
        + "</saml2:Issuer><saml2p:Status><saml2p:StatusCode Value=\"urn:oasis:names:tc:SAML:2.0:status:Success\"/></saml2p:Status></saml2p:LogoutResponse>"@
}

/// Emits the logout acknowledgement.
pub fn build_logout_response_xml(
    id: &str,
    in_response_to: Option<&str>,
    instant: &str,
    destination: Option<&str>,
    issuer: &str,
) -> (r: String)
    ensures
        r@ == logout_response_xml(
            id@,
            match in_response_to {
                Some(irt) => Some(irt@),
                None => None,
            },
            instant@,
            match destination {
                Some(d) => Some(d@),
                None => None,
            },
            issuer@,
        ),
{
    let mut out = String::new();
    out.append(
        "<saml2p:LogoutResponse xmlns:saml2p=\"urn:oasis:names:tc:SAML:2.0:protocol\" ID=\"",
    );
    let v = escape_attr(id);
    out.append(v.as_str());
    out.append("\" Version=\"2.0\" IssueInstant=\"");
    let v = escape_attr(instant);
    out.append(v.as_str());
    out.append("\"");
    match in_response_to {
        Some(irt) => {
            out.append(" InResponseTo=\"");
            let v = escape_attr(irt);
            out.append(v.as_str());
            out.append("\"");
        },
        None => {},
    }
    match destination {
        Some(d) => {
            out.append(" Destination=\"");
            let v = escape_attr(d);
            out.append(v.as_str());
            out.append("\"");
        },
        None => {},
    }
    out.append("><saml2:Issuer xmlns:saml2=\"urn:oasis:names:tc:SAML:2.0:assertion\">");
    let v = escape_attr(issuer);
    out.append(v.as_str());
    out.append(
        "</saml2:Issuer><saml2p:Status><saml2p:StatusCode Value=\"urn:oasis:names:tc:SAML:2.0:status:Success\"/></saml2p:Status></saml2p:LogoutResponse>",
    );
    out
}

/// Where the logout acknowledgement is posted: the request's
/// destination, else its issuer, else nowhere.
pub open spec fn slo_destination(info: LogoutRequestInfoV) -> Seq<char> {
    match info.destination {
        Some(d) => d,
        None => match info.issuer {
            Some(iss) => iss,
            None => Seq::empty(),
        },
    }
}

/// The acknowledgement a logout request is answered with: the success
/// response, post-encoded, in an auto-submitting form towards the
/// request's destination.
pub open spec fn slo_ack_html(
    info: LogoutRequestInfoV,
    relay_state: Option<Seq<char>>,
    proxy_entity_id: Seq<char>,
    response_id: Seq<char>,
    now: i64,
) -> Seq<char> {
    crate::reissue::acs_form_html_spec(
        slo_destination(info),
        post_encoding(
            logout_response_xml(
                response_id,
                info.id,
                rfc3339_of(now),
                info.destination,
                proxy_entity_id,
            ),
        ),
        relay_state,
    )
}

/// Acknowledges an upstream logout request.
///
/// The proxy keeps no user sessions, so whatever logout request
/// arrives is answered with an unconditional success response, posted
/// back to the request's destination (or its issuer, or nowhere).
/// The decoded request must parse, else `InvalidSamlRequest`.
pub fn handle_slo(
    saml_request: &str,
    relay_state: Option<&str>,
    proxy_entity_id: &str,
    response_id: String,
    now: i64,
) -> (r: Result<String, Error>)
    requires
        0 <= now < 253402300800,
    ensures
        r matches Err(e) ==> e is InvalidSamlRequest,
        match post_decoding(saml_request@) {
            None => r is Err,
            Some(m) => match logout_request_info_of(m) {
                None => r is Err,
                Some(info) => r matches Ok(html) && html@ == slo_ack_html(
                    info,
                    match relay_state {
                        Some(rs) => Some(rs@),
                        None => None,
                    },
                    proxy_entity_id@,
                    response_id@,
                    now,
                ),
            },
        },
{
    let xml = match decode_post(saml_request) {
        Ok(xml) => xml,
        Err(e) => {
            return Err(e);
        },
    };
    let info: LogoutRequestInfo = match parse_logout_request(xml.as_str()) {
        Some(info) => info,
        None => {
            proof {
                assert(post_decoding(saml_request@) == Some(xml@));
            }
            return Err(Error::InvalidSamlRequest("failed to parse LogoutRequest".to_owned()));
        },
    };
    let instant = format_rfc3339(now);
    let response_xml = build_logout_response_xml(
        response_id.as_str(),
        match &info.id {
            Some(id) => Some(id.as_str()),
            None => None,
        },
        instant.as_str(),
        match &info.destination {
            Some(d) => Some(d.as_str()),
            None => None,
        },
        proxy_entity_id,
    );
    let b64 = crate::codec::encode_post(response_xml.as_str());
    let dest: &str = match &info.destination {
        Some(d) => d.as_str(),
        None => match &info.issuer {
            Some(iss) => iss.as_str(),
            None => "",
        },
    };
    let html = crate::reissue::acs_form_html(dest, b64.as_str(), relay_state);
    proof {
        reveal_strlit("");
        assert(""@ =~= Seq::<char>::empty());
        assert(dest@ == slo_destination(info@));
        assert(response_xml@ == logout_response_xml(
            response_id@,
            info@.id,
            rfc3339_of(now),
            info@.destination,
            proxy_entity_id@,
        ));
        assert(b64@ == post_encoding(response_xml@));
        assert(post_decoding(saml_request@) == Some(xml@));
        assert(logout_request_info_of(xml@) == Some(info@));
        assert(html@ == slo_ack_html(
            info@,
            match relay_state {
                Some(rs) => Some(rs@),
                None => None,
            },
            proxy_entity_id@,
            response_id@,
            now,
        ));
    }
    Ok(html)
}

} // verus!
