//! The assertion re-issuer.
//!
//! An upstream IdP's Response is accepted only when its signature
//! verified, its status is success, it answers exactly the request the
//! proxy issued, it is fresh, and its audience is the proxy.  From an
//! accepted assertion the proxy takes the subject and the curated
//! attributes and emits a new Response addressed to the original
//! service provider; signing the emitted document and verifying the
//! inbound one are the collaborating crypto library's work, and only
//! their outcomes pass through here.

use vstd::prelude::*;
use crate::attributes::{extract_attributes, extracted, pairs_view};
use crate::bytes::str_eq;
use crate::error::Error;
use crate::saml::{
    parse_response_assertion, parse_response_attributes, parse_response_head,
    response_assertion_of, response_attrs_of, response_head_of, AssertionCore, AssertionCoreV,
    AttributeRow, EntityInfo, KeyInfoRowV, ResponseHead, ResponseHeadV,
};
use crate::session::opt_str_view;
use crate::textenc::{escape_attr, escape_seq};

verus! {

/// The SAML success status URI.
pub const SAML_SUCCESS: &'static str = "urn:oasis:names:tc:SAML:2.0:status:Success";

/// Seconds of clock skew tolerated on response freshness and
/// conditions.
pub const MAX_ISSUE_DELAY_SECS: i64 = 300;

/// When a parsed response is acceptable: its signature verified, its
/// status is success, it answers exactly the expected request, it is
/// fresh within the tolerated skew, its assertion is present, within
/// its validity window, and addressed to the proxy.
pub open spec fn response_ok(
    head: ResponseHeadV,
    assertion: Option<AssertionCoreV>,
    sig_ok: bool,
    expected_request_id: Seq<char>,
    proxy_entity_id: Seq<char>,
    now: i64,
) -> bool {
    &&& sig_ok
    &&& head.status_code == Some(SAML_SUCCESS@)
    &&& head.in_response_to == Some(expected_request_id)
    &&& head.issue_instant <= now + MAX_ISSUE_DELAY_SECS
    &&& now <= head.issue_instant + MAX_ISSUE_DELAY_SECS
    &&& match assertion {
        None => false,
        Some(a) => {
            &&& match a.not_before {
                Some(nb) => now + MAX_ISSUE_DELAY_SECS >= nb,
                None => true,
            }
            &&& match a.not_on_or_after {
                Some(noa) => now < noa + MAX_ISSUE_DELAY_SECS,
                None => true,
            }
            &&& (a.audiences.len() == 0 || a.audiences.contains(proxy_entity_id))
        },
    }
}

/// Law: replay protection.  A response whose `InResponseTo` is not
/// exactly the request ID the proxy recorded is never acceptable.
pub proof fn lemma_replay_rejected(
    head: ResponseHeadV,
    assertion: Option<AssertionCoreV>,
    sig_ok: bool,
    expected_request_id: Seq<char>,
    proxy_entity_id: Seq<char>,
    now: i64,
)
    requires
        head.in_response_to != Some(expected_request_id),
    ensures
        !response_ok(head, assertion, sig_ok, expected_request_id, proxy_entity_id, now),
{
}

/// Law: a response whose signature did not verify is never acceptable.
pub proof fn lemma_unsigned_rejected(
    head: ResponseHeadV,
    assertion: Option<AssertionCoreV>,
    expected_request_id: Seq<char>,
    proxy_entity_id: Seq<char>,
    now: i64,
)
    ensures
        !response_ok(head, assertion, false, expected_request_id, proxy_entity_id, now),
{
}

/// Decides whether a parsed response is acceptable, exactly as
/// `response_ok` says; anything else is `InvalidSamlResponse`.
pub fn validate_response(
    head: &ResponseHead,
    assertion: &Option<AssertionCore>,
    sig_ok: bool,
    expected_request_id: &str,
    proxy_entity_id: &str,
    now: i64,
) -> (r: Result<(), Error>)
    ensures
        r is Ok <==> response_ok(
            head@,
            match *assertion {
                Some(ref a) => Some(a@),
                None => None,
            },
            sig_ok,
            expected_request_id@,
            proxy_entity_id@,
            now,
        ),
        r matches Err(e) ==> e is InvalidSamlResponse,
{
    if !sig_ok {
        return Err(Error::InvalidSamlResponse("signature verification failed".to_owned()));
    }
    match &head.status_code {
        None => {
            return Err(Error::InvalidSamlResponse("missing status code".to_owned()));
        },
        Some(code) => {
            if !str_eq(code.as_str(), SAML_SUCCESS) {
                return Err(Error::InvalidSamlResponse("non-success status".to_owned()));
            }
        },
    }
    match &head.in_response_to {
        None => {
            return Err(Error::InvalidSamlResponse("response lacks InResponseTo".to_owned()));
        },
        Some(irt) => {
            if !str_eq(irt.as_str(), expected_request_id) {
                return Err(
                    Error::InvalidSamlResponse("InResponseTo does not answer us".to_owned()),
                );
            }
        },
    }
    if !(head.issue_instant as i128 <= now as i128 + MAX_ISSUE_DELAY_SECS as i128
        && now as i128 <= head.issue_instant as i128 + MAX_ISSUE_DELAY_SECS as i128) {
        return Err(Error::InvalidSamlResponse("response is not fresh".to_owned()));
    }
    let a = match assertion {
        None => {
            return Err(Error::InvalidSamlResponse("response carries no assertion".to_owned()));
        },
        Some(a) => a,
    };
    match a.not_before {
        Some(nb) => {
            if !(now as i128 + MAX_ISSUE_DELAY_SECS as i128 >= nb as i128) {
                return Err(Error::InvalidSamlResponse("assertion not yet valid".to_owned()));
            }
        },
        None => {},
    }
    match a.not_on_or_after {
        Some(noa) => {
            if !((now as i128) < noa as i128 + MAX_ISSUE_DELAY_SECS as i128) {
                return Err(Error::InvalidSamlResponse("assertion expired".to_owned()));
            }
        },
        None => {},
    }
    if a.audiences.len() > 0 {
        let n: usize = a.audiences.len();
        let mut i: usize = 0;
        loop
            invariant
                0 <= i <= n,
                n == a.audiences@.len(),
                forall|k: int| 0 <= k < i ==> a@.audiences[k] != proxy_entity_id@,
            ensures
                i < n ==> a@.audiences[i as int] == proxy_entity_id@,
                i == n ==> forall|k: int| 0 <= k < n ==> a@.audiences[k] != proxy_entity_id@,
            decreases n - i,
        {
            if i == n {
                break;
            }
            proof {
                assert(a@.audiences[i as int] == a.audiences@[i as int]@);
            }
            if str_eq(a.audiences[i].as_str(), proxy_entity_id) {
                break;
            }
            i = i + 1;
        }
        if i == n {
            proof {
                if a@.audiences.contains(proxy_entity_id@) {
                    let k = choose|k: int|
                        0 <= k < a@.audiences.len() && a@.audiences[k] == proxy_entity_id@;
                    assert(false);
                }
            }
            return Err(Error::InvalidSamlResponse("assertion audience is not us".to_owned()));
        }
        proof {
            assert(a@.audiences.contains(proxy_entity_id@));
        }
    }
    Ok(())
}

/// Everything the re-issued Response needs: the subject and curated
/// attributes taken from the upstream assertion, and the addressing
/// taken from the consumed session.
#[derive(Debug)]
pub struct ReissuePlan {
    pub name_id: String,
    pub attributes: Vec<(String, String)>,
    pub sp_acs_url: String,
    pub sp_entity_id: String,
    pub proxy_entity_id: String,
    pub original_request_id: String,
    pub relay_state: Option<String>,
}

/// The subject of a planned re-issuance: the parsed assertion's
/// NameID, else the literal `unknown`.
pub open spec fn planned_name_id(assertion: Option<AssertionCoreV>) -> Seq<char> {
    match assertion {
        Some(a) => match a.name_id {
            Some(n) => n,
            None => "unknown"@,
        },
        None => "unknown"@,
    }
}

/// Validates an upstream Response and plans the re-issued one.
///
/// A plan is produced exactly when the document parses and
/// `response_ok` accepts it; anything else is `InvalidSamlResponse`.
/// The plan's subject is the assertion's NameID (else the literal
/// `unknown`), its attributes are the curated extraction of the
/// response's attribute rows, and its addressing carries the consumed
/// session's fields through unchanged.
pub fn plan_reissue(
    response_xml: &str,
    sig_ok: bool,
    expected_request_id: &str,
    proxy_entity_id: &str,
    sp_acs_url: String,
    sp_entity_id: String,
    original_request_id: String,
    relay_state: Option<String>,
    now: i64,
) -> (r: Result<ReissuePlan, Error>)
    ensures
        r is Ok <==> {
            &&& response_head_of(response_xml@) is Some
            &&& response_assertion_of(response_xml@) is Some
            &&& response_attrs_of(response_xml@) is Some
            &&& response_ok(
                response_head_of(response_xml@).unwrap(),
                response_assertion_of(response_xml@).unwrap(),
                sig_ok,
                expected_request_id@,
                proxy_entity_id@,
                now,
            )
        },
        r matches Err(e) ==> e is InvalidSamlResponse,
        r matches Ok(plan) ==> {
            &&& plan.name_id@ == planned_name_id(response_assertion_of(response_xml@).unwrap())
            &&& pairs_view(plan.attributes@) == extracted(
                response_attrs_of(response_xml@).unwrap(),
            )
            &&& plan.sp_acs_url@ == sp_acs_url@
            &&& plan.sp_entity_id@ == sp_entity_id@
            &&& plan.proxy_entity_id@ == proxy_entity_id@
            &&& plan.original_request_id@ == original_request_id@
            &&& opt_str_view(plan.relay_state) == opt_str_view(relay_state)
            &&& sig_ok
        },
{
    let head = match parse_response_head(response_xml) {
        Some(h) => h,
        None => {
            return Err(Error::InvalidSamlResponse("response did not parse".to_owned()));
        },
    };
    let assertion = match parse_response_assertion(response_xml) {
        Some(a) => a,
        None => {
            return Err(Error::InvalidSamlResponse("response did not parse".to_owned()));
        },
    };
    let rows: Vec<AttributeRow> = match parse_response_attributes(response_xml) {
        Some(rows) => rows,
        None => {
            return Err(Error::InvalidSamlResponse("response did not parse".to_owned()));
        },
    };
    match validate_response(&head, &assertion, sig_ok, expected_request_id, proxy_entity_id, now) {
        Ok(_) => {},
        Err(e) => {
            return Err(e);
        },
    }
    let name_id: String = match &assertion {
        Some(a) => match &a.name_id {
            Some(n) => n.clone(),
            None => "unknown".to_owned(),
        },
        None => "unknown".to_owned(),
    };
    let attributes = extract_attributes(&rows);
    Ok(
        ReissuePlan {
            name_id,
            attributes,
            sp_acs_url,
            sp_entity_id,
            proxy_entity_id: proxy_entity_id.to_owned(),
            original_request_id,
            relay_state,
        },
    )
}

/// Whether a key descriptor offers a signing key: its use is
/// `signing` or undeclared.
pub open spec fn signing_use(u: Option<Seq<char>>) -> bool {
    match u {
        None => true,
        Some(s) => s == "signing"@,
    }
}

/// The certificates of the signing keys, in document order.
pub open spec fn signing_key_certs(keys: Seq<KeyInfoRowV>) -> Seq<Seq<char>>
    decreases keys.len(),
{
    if keys.len() == 0 {
        Seq::empty()
    } else {
        let rest = signing_key_certs(keys.drop_first());
        if signing_use(keys[0].key_use) {
            keys[0].certificates + rest
        } else {
            rest
        }
    }
}

/// The ghost image of a list of certificates.
pub open spec fn certs_view(s: Seq<String>) -> Seq<Seq<char>> {
    s.map_values(|c: String| c@)
}

/// Collects the certificates an IdP's metadata offers for signature
/// verification: those of every key descriptor whose use is `signing`
/// or undeclared, base64 DER, in document order.
pub fn signing_certificates(info: &EntityInfo) -> (r: Vec<String>)
    ensures
        certs_view(r@) == signing_key_certs(info@.keys),
{
    let mut out: Vec<String> = Vec::new();
    let n: usize = info.keys.len();
    let mut i: usize = 0;
    proof {
        assert(info@.keys.skip(0) =~= info@.keys);
        assert(certs_view(out@) =~= Seq::<Seq<char>>::empty());
    }
    while i < n
        invariant
            0 <= i <= n,
            n == info.keys@.len(),
            signing_key_certs(info@.keys) == certs_view(out@) + signing_key_certs(
                info@.keys.skip(i as int),
            ),
        decreases n - i,
    {
        let key = &info.keys[i];
        proof {
            assert(info@.keys[i as int] == info.keys@[i as int]@);
            assert(info@.keys.skip(i as int)[0] == info@.keys[i as int]);
            assert(info@.keys.skip(i as int).drop_first() =~= info@.keys.skip(i + 1));
        }
        let offers_signing = match &key.key_use {
            None => true,
            Some(u) => str_eq(u.as_str(), "signing"),
        };
        if offers_signing {
            let ghost before = certs_view(out@);
            let m: usize = key.certificates.len();
            let mut j: usize = 0;
            proof {
                assert(info@.keys[i as int].certificates.take(0) =~= Seq::<Seq<char>>::empty());
                assert(certs_view(out@) =~= before + info@.keys[i as int].certificates.take(0));
            }
            while j < m
                invariant
                    0 <= j <= m,
                    m == key.certificates@.len(),
                    info@.keys[i as int] == key@,
                    certs_view(out@) == before + info@.keys[i as int].certificates.take(
                        j as int,
                    ),
                decreases m - j,
            {
                proof {
                    assert(info@.keys[i as int].certificates[j as int]
                        == key.certificates@[j as int]@);
                    assert(info@.keys[i as int].certificates.take(j + 1)
                        =~= info@.keys[i as int].certificates.take(j as int).push(
                        info@.keys[i as int].certificates[j as int],
                    ));
                }
                let cert = key.certificates[j].clone();
                proof {
                    assert(certs_view(out@.push(cert)) =~= certs_view(out@).push(cert@));
                }
                out.push(cert);
                j = j + 1;
            }
            proof {
                assert(info@.keys[i as int].certificates.take(m as int) =~= info@.keys[
                    i as int
                ].certificates);
                assert(certs_view(out@) + signing_key_certs(info@.keys.skip(i + 1)) =~= before
                    + (info@.keys[i as int].certificates + signing_key_certs(
                    info@.keys.skip(i + 1),
                )));
            }
        }
        i = i + 1;
    }
    proof {
        assert(info@.keys.skip(n as int) =~= Seq::<KeyInfoRowV>::empty());
    }
    out
}

/// One passthrough attribute of the re-issued assertion.
pub open spec fn attribute_xml(p: (Seq<char>, Seq<char>)) -> Seq<char> {
    "<saml2:Attribute Name=\""@ + escape_seq(p.0)
        + "\" NameFormat=\"urn:oasis:names:tc:SAML:2.0:attrname-format:uri\"><saml2:AttributeValue>"@
        + escape_seq(p.1) + "</saml2:AttributeValue></saml2:Attribute>"@
}

/// The attribute statement's body, in attribute order.
pub open spec fn attributes_xml(attrs: Seq<(Seq<char>, Seq<char>)>) -> Seq<char>
    decreases attrs.len(),
{
    if attrs.len() == 0 {
        Seq::empty()
    } else {
        attributes_xml(attrs.drop_last()) + attribute_xml(attrs.last())
    }
}

/// The re-issued Response document, before signing: success status,
/// addressed to the original provider, answering its request, carrying
/// one assertion with the subject and the passthrough attributes.
pub open spec fn reissued_response_xml(
    response_id: Seq<char>,
    assertion_id: Seq<char>,
    instant: Seq<char>,
    plan_name_id: Seq<char>,
    plan_attrs: Seq<(Seq<char>, Seq<char>)>,
    destination: Seq<char>,
    audience: Seq<char>,
    issuer: Seq<char>,
    in_response_to: Seq<char>,
) -> Seq<char> {
    "<saml2p:Response xmlns:saml2p=\"urn:oasis:names:tc:SAML:2.0:protocol\" ID=\""@
        + escape_seq(response_id) + "\" Version=\"2.0\" IssueInstant=\""@ + escape_seq(instant)
        + "\" Destination=\""@ + escape_seq(destination) + "\" InResponseTo=\""@ + escape_seq(
        in_response_to,
    )
        + "\"><saml2:Issuer xmlns:saml2=\"urn:oasis:names:tc:SAML:2.0:assertion\">"@
        + escape_seq(issuer)
        + "</saml2:Issuer><saml2p:Status><saml2p:StatusCode Value=\"urn:oasis:names:tc:SAML:2.0:status:Success\"/></saml2p:Status><saml2:Assertion xmlns:saml2=\"urn:oasis:names:tc:SAML:2.0:assertion\" ID=\""@
        + escape_seq(assertion_id) + "\" Version=\"2.0\" IssueInstant=\""@ + escape_seq(instant)
        + "\"><saml2:Issuer>"@ + escape_seq(issuer)
        + "</saml2:Issuer><saml2:Subject><saml2:NameID Format=\"urn:oasis:names:tc:SAML:2.0:nameid-format:unspecified\">"@
        + escape_seq(plan_name_id)
        + "</saml2:NameID><saml2:SubjectConfirmation Method=\"urn:oasis:names:tc:SAML:2.0:cm:bearer\"><saml2:SubjectConfirmationData Recipient=\""@
        + escape_seq(destination) + "\" InResponseTo=\""@ + escape_seq(in_response_to)
        + "\"/></saml2:SubjectConfirmation></saml2:Subject><saml2:Conditions><saml2:AudienceRestriction><saml2:Audience>"@
        + escape_seq(audience)
        + "</saml2:Audience></saml2:AudienceRestriction></saml2:Conditions><saml2:AuthnStatement AuthnInstant=\""@
        + escape_seq(instant)
        + "\"><saml2:AuthnContext><saml2:AuthnContextClassRef>urn:oasis:names:tc:SAML:2.0:ac:classes:unspecified</saml2:AuthnContextClassRef></saml2:AuthnContext></saml2:AuthnStatement><saml2:AttributeStatement>"@
        + attributes_xml(plan_attrs)
        + "</saml2:AttributeStatement></saml2:Assertion></saml2p:Response>"@
}

/// Emits the re-issued Response, ready for the signer.
pub fn build_reissued_response_xml(
    plan: &ReissuePlan,
    response_id: &str,
    assertion_id: &str,
    instant: &str,
) -> (r: String)
    ensures
        r@ == reissued_response_xml(
            response_id@,
            assertion_id@,
            instant@,
            plan.name_id@,
            crate::attributes::pairs_view(plan.attributes@),
            plan.sp_acs_url@,
            plan.sp_entity_id@,
            plan.proxy_entity_id@,
            plan.original_request_id@,
        ),
{
    let mut out = String::new();
    out.append("<saml2p:Response xmlns:saml2p=\"urn:oasis:names:tc:SAML:2.0:protocol\" ID=\"");
    let v = escape_attr(response_id);
    out.append(v.as_str());
    out.append("\" Version=\"2.0\" IssueInstant=\"");
    let v = escape_attr(instant);
    out.append(v.as_str());
    out.append("\" Destination=\"");
    let v = escape_attr(plan.sp_acs_url.as_str());
    out.append(v.as_str());
    out.append("\" InResponseTo=\"");
    let v = escape_attr(plan.original_request_id.as_str());
    out.append(v.as_str());
    out.append("\"><saml2:Issuer xmlns:saml2=\"urn:oasis:names:tc:SAML:2.0:assertion\">");
    let v = escape_attr(plan.proxy_entity_id.as_str());
    out.append(v.as_str());
    out.append(
        "</saml2:Issuer><saml2p:Status><saml2p:StatusCode Value=\"urn:oasis:names:tc:SAML:2.0:status:Success\"/></saml2p:Status><saml2:Assertion xmlns:saml2=\"urn:oasis:names:tc:SAML:2.0:assertion\" ID=\"",
    );
    let v = escape_attr(assertion_id);
    out.append(v.as_str());
    out.append("\" Version=\"2.0\" IssueInstant=\"");
    let v = escape_attr(instant);
    out.append(v.as_str());
    out.append("\"><saml2:Issuer>");
    let v = escape_attr(plan.proxy_entity_id.as_str());
    out.append(v.as_str());
    out.append(
        "</saml2:Issuer><saml2:Subject><saml2:NameID Format=\"urn:oasis:names:tc:SAML:2.0:nameid-format:unspecified\">",
    );
    let v = escape_attr(plan.name_id.as_str());
    out.append(v.as_str());
    out.append(
        "</saml2:NameID><saml2:SubjectConfirmation Method=\"urn:oasis:names:tc:SAML:2.0:cm:bearer\"><saml2:SubjectConfirmationData Recipient=\"",
    );
    let v = escape_attr(plan.sp_acs_url.as_str());
    out.append(v.as_str());
    out.append("\" InResponseTo=\"");
    let v = escape_attr(plan.original_request_id.as_str());
    out.append(v.as_str());
    out.append(
        "\"/></saml2:SubjectConfirmation></saml2:Subject><saml2:Conditions><saml2:AudienceRestriction><saml2:Audience>",
    );
    let v = escape_attr(plan.sp_entity_id.as_str());
    out.append(v.as_str());
    out.append(
        "</saml2:Audience></saml2:AudienceRestriction></saml2:Conditions><saml2:AuthnStatement AuthnInstant=\"",
    );
    let v = escape_attr(instant);
    out.append(v.as_str());
    out.append(
        "\"><saml2:AuthnContext><saml2:AuthnContextClassRef>urn:oasis:names:tc:SAML:2.0:ac:classes:unspecified</saml2:AuthnContextClassRef></saml2:AuthnContext></saml2:AuthnStatement><saml2:AttributeStatement>",
    );
    let ghost attrs_view = crate::attributes::pairs_view(plan.attributes@);
    let mut attrs_str = String::new();
    let n: usize = plan.attributes.len();
    let mut i: usize = 0;
    proof {
        assert(attrs_view.take(0) =~= Seq::<(Seq<char>, Seq<char>)>::empty());
    }
    while i < n
        invariant
            0 <= i <= n,
            n == plan.attributes@.len(),
            attrs_view == crate::attributes::pairs_view(plan.attributes@),
            attrs_str@ == attributes_xml(attrs_view.take(i as int)),
        decreases n - i,
    {
        let pair = &plan.attributes[i];
        proof {
            assert(attrs_view[i as int] == (plan.attributes@[i as int].0@, plan.attributes@[
                i as int
            ].1@));
            assert(attrs_view.take(i + 1).drop_last() =~= attrs_view.take(i as int));
            assert(attrs_view.take(i + 1).last() == attrs_view[i as int]);
        }
        attrs_str.append("<saml2:Attribute Name=\"");
        let v = escape_attr(pair.0.as_str());
        attrs_str.append(v.as_str());
        attrs_str.append(
            "\" NameFormat=\"urn:oasis:names:tc:SAML:2.0:attrname-format:uri\"><saml2:AttributeValue>",
        );
        let v = escape_attr(pair.1.as_str());
        attrs_str.append(v.as_str());
        attrs_str.append("</saml2:AttributeValue></saml2:Attribute>");
        i = i + 1;
    }
    proof {
        assert(attrs_view.take(n as int) =~= attrs_view);
    }
    out.append(attrs_str.as_str());
    out.append("</saml2:AttributeStatement></saml2:Assertion></saml2p:Response>");
    out
}

/// The auto-submitting form that posts a response to its destination:
/// the base64 payload travels raw (its alphabet is markup-safe), the
/// destination and relay state are attribute-escaped.
pub open spec fn acs_form_html_spec(
    dest: Seq<char>,
    b64: Seq<char>,
    relay: Option<Seq<char>>,
) -> Seq<char> {
    "<!DOCTYPE html>\n<html><body onload=\"document.forms[0].submit()\">\n<form method=\"POST\" action=\""@
        + escape_seq(dest) + "\">\n<input type=\"hidden\" name=\"SAMLResponse\" value=\""@ + b64
        + "\" />\n"@ + (match relay {
        Some(rs) => "<input type=\"hidden\" name=\"RelayState\" value=\""@ + escape_seq(rs)
            + "\" />\n"@,
        None => Seq::empty(),
    }) + "</form></body></html>"@
}

/// Builds the auto-submitting form for the browser.
pub fn acs_form_html(dest: &str, b64: &str, relay: Option<&str>) -> (r: String)
    ensures
        r@ == acs_form_html_spec(
            dest@,
            b64@,
            match relay {
                Some(rs) => Some(rs@),
                None => None,
            },
        ),
{
    let mut out = String::new();
    out.append(
        "<!DOCTYPE html>\n<html><body onload=\"document.forms[0].submit()\">\n<form method=\"POST\" action=\"",
    );
    let dest_escaped = escape_attr(dest);
    out.append(dest_escaped.as_str());
    out.append("\">\n<input type=\"hidden\" name=\"SAMLResponse\" value=\"");
    out.append(b64);
    out.append("\" />\n");
    match relay {
        Some(rs) => {
            out.append("<input type=\"hidden\" name=\"RelayState\" value=\"");
            let rs_escaped = escape_attr(rs);
            out.append(rs_escaped.as_str());
            out.append("\" />\n");
        },
        None => {},
    }
    out.append("</form></body></html>");
    out
}

} // verus!
