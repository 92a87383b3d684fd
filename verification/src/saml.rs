//! Plain-value views of parsed SAML documents.
//!
//! Parsing SAML XML is delegated to the samael crate behind the trusted
//! wrappers in this module.  Each wrapper hands back only plain values
//! — the fields the proxy's logic reads — so that everything decided on
//! those fields is verified.  Building and validating on these values
//! happens elsewhere, in verified code.

use vstd::prelude::*;
use samael::metadata::EntityDescriptor;

verus! {

/// One localized organization display name.
#[derive(Debug)]
pub struct DisplayName {
    pub lang: Option<String>,
    pub value: String,
}

/// The ghost image of a `DisplayName`.
pub struct DisplayNameV {
    pub lang: Option<Seq<char>>,
    pub value: Seq<char>,
}

impl View for DisplayName {
    type V = DisplayNameV;

    open spec fn view(&self) -> DisplayNameV {
        DisplayNameV {
            lang: match self.lang {
                Some(l) => Some(l@),
                None => None,
            },
            value: self.value@,
        }
    }
}

/// One single-sign-on endpoint of an IdP role descriptor.
#[derive(Debug)]
pub struct SsoEndpoint {
    pub binding: String,
    pub location: String,
}

/// The ghost image of an `SsoEndpoint`.
pub struct SsoEndpointV {
    pub binding: Seq<char>,
    pub location: Seq<char>,
}

impl View for SsoEndpoint {
    type V = SsoEndpointV;

    open spec fn view(&self) -> SsoEndpointV {
        SsoEndpointV { binding: self.binding@, location: self.location@ }
    }
}

/// One key descriptor of an IdP role: its declared use and its
/// certificates, base64 DER.
#[derive(Debug)]
pub struct KeyInfoRow {
    pub key_use: Option<String>,
    pub certificates: Vec<String>,
}

/// The ghost image of a `KeyInfoRow`.
pub struct KeyInfoRowV {
    pub key_use: Option<Seq<char>>,
    pub certificates: Seq<Seq<char>>,
}

impl View for KeyInfoRow {
    type V = KeyInfoRowV;

    open spec fn view(&self) -> KeyInfoRowV {
        KeyInfoRowV {
            key_use: match self.key_use {
                Some(u) => Some(u@),
                None => None,
            },
            certificates: self.certificates@.map_values(|c: String| c@),
        }
    }
}

/// What the proxy reads from one parsed `EntityDescriptor`: the entity
/// ID, the organization display names, the SSO endpoints and the key
/// descriptors of its IdP role descriptors, all in document order.
#[derive(Debug)]
pub struct EntityInfo {
    pub entity_id: Option<String>,
    pub display_names: Vec<DisplayName>,
    pub sso_endpoints: Vec<SsoEndpoint>,
    pub keys: Vec<KeyInfoRow>,
}

/// The ghost image of an `EntityInfo`.
pub struct EntityInfoV {
    pub entity_id: Option<Seq<char>>,
    pub display_names: Seq<DisplayNameV>,
    pub sso_endpoints: Seq<SsoEndpointV>,
    pub keys: Seq<KeyInfoRowV>,
}

impl View for EntityInfo {
    type V = EntityInfoV;

    open spec fn view(&self) -> EntityInfoV {
        EntityInfoV {
            entity_id: match self.entity_id {
                Some(id) => Some(id@),
                None => None,
            },
            display_names: self.display_names@.map_values(|n: DisplayName| n@),
            sso_endpoints: self.sso_endpoints@.map_values(|e: SsoEndpoint| e@),
            keys: self.keys@.map_values(|k: KeyInfoRow| k@),
        }
    }
}

/// The ghost image of an optional `EntityInfo`.
pub open spec fn view_opt_entity(r: Option<EntityInfo>) -> Option<EntityInfoV> {
    match r {
        Some(e) => Some(e@),
        None => None,
    }
}

/// What samael's `EntityDescriptor` parser yields on a document, as the
/// proxy reads it; `None` where the document does not parse.
pub uninterp spec fn entity_info_of(xml: Seq<char>) -> Option<EntityInfoV>;

/// Relies on samael's `EntityDescriptor` parser (`str::parse`): the
/// result is a function of the document text alone.
#[verifier::external_body]
pub(crate) fn parse_entity_info(xml: &str) -> (r: Option<EntityInfo>)
    ensures
        view_opt_entity(r) == entity_info_of(xml@),
{
    let ed: EntityDescriptor = xml.parse().ok()?;
    let names = ed.organization.and_then(|o| o.organization_display_names).unwrap_or_default()
        .into_iter().map(|n| DisplayName { lang: n.lang, value: n.value }).collect();
    let mut sso_endpoints = vec![];
    let mut keys = vec![];
    for d in ed.idp_sso_descriptors.unwrap_or_default() {
        sso_endpoints.extend(d.single_sign_on_services.into_iter().map(|e| SsoEndpoint { binding: e.binding, location: e.location }));
        keys.extend(d.key_descriptors.into_iter().map(|k| KeyInfoRow { key_use: k.key_use, certificates: k.key_info.x509_data.map(|x| x.certificates).unwrap_or_default() }));
    }
    Some(EntityInfo { entity_id: ed.entity_id, display_names: names, sso_endpoints, keys })
}

/// What the proxy reads from one parsed `AuthnRequest`.
pub struct AuthnRequestInfo {
    pub id: String,
    pub acs_url: Option<String>,
    pub issuer: Option<String>,
}

/// The ghost image of an `AuthnRequestInfo`.
pub struct AuthnRequestInfoV {
    pub id: Seq<char>,
    pub acs_url: Option<Seq<char>>,
    pub issuer: Option<Seq<char>>,
}

impl View for AuthnRequestInfo {
    type V = AuthnRequestInfoV;

    open spec fn view(&self) -> AuthnRequestInfoV {
        AuthnRequestInfoV {
            id: self.id@,
            acs_url: match self.acs_url {
                Some(u) => Some(u@),
                None => None,
            },
            issuer: match self.issuer {
                Some(i) => Some(i@),
                None => None,
            },
        }
    }
}

/// The ghost image of an optional `AuthnRequestInfo`.
pub open spec fn view_opt_authn_request(r: Option<AuthnRequestInfo>) -> Option<
    AuthnRequestInfoV,
> {
    match r {
        Some(a) => Some(a@),
        None => None,
    }
}

/// What samael's `AuthnRequest` parser yields on a document, as the
/// proxy reads it; `None` where the document does not parse.
pub uninterp spec fn authn_request_info_of(xml: Seq<char>) -> Option<AuthnRequestInfoV>;

/// Relies on samael's `AuthnRequest` parser (`str::parse`): the result
/// is a function of the document text alone.
#[verifier::external_body]
pub(crate) fn parse_authn_request(xml: &str) -> (r: Option<AuthnRequestInfo>)
    ensures
        view_opt_authn_request(r) == authn_request_info_of(xml@),
{
    let rq: samael::schema::AuthnRequest = match xml.parse() {
        Ok(r) => r,
        Err(_) => return None,
    };
    Some(AuthnRequestInfo {
        id: rq.id,
        acs_url: rq.assertion_consumer_service_url,
        issuer: rq.issuer.and_then(|i| i.value),
    })
}

/// What the proxy reads from one parsed `LogoutRequest`.
pub struct LogoutRequestInfo {
    pub id: Option<String>,
    pub issuer: Option<String>,
    pub destination: Option<String>,
}

/// The ghost image of a `LogoutRequestInfo`.
pub struct LogoutRequestInfoV {
    pub id: Option<Seq<char>>,
    pub issuer: Option<Seq<char>>,
    pub destination: Option<Seq<char>>,
}

impl View for LogoutRequestInfo {
    type V = LogoutRequestInfoV;

    open spec fn view(&self) -> LogoutRequestInfoV {
        LogoutRequestInfoV {
            id: match self.id {
                Some(s) => Some(s@),
                None => None,
            },
            issuer: match self.issuer {
                Some(s) => Some(s@),
                None => None,
            },
            destination: match self.destination {
                Some(s) => Some(s@),
                None => None,
            },
        }
    }
}

/// The ghost image of an optional `LogoutRequestInfo`.
pub open spec fn view_opt_logout_request(r: Option<LogoutRequestInfo>) -> Option<
    LogoutRequestInfoV,
> {
    match r {
        Some(a) => Some(a@),
        None => None,
    }
}

/// What samael's `LogoutRequest` parser yields on a document, as the
/// proxy reads it; `None` where the document does not parse.
pub uninterp spec fn logout_request_info_of(xml: Seq<char>) -> Option<LogoutRequestInfoV>;

/// Relies on samael's `LogoutRequest` parser (`str::parse`): the
/// result is a function of the document text alone.
#[verifier::external_body]
pub(crate) fn parse_logout_request(xml: &str) -> (r: Option<LogoutRequestInfo>)
    ensures
        view_opt_logout_request(r) == logout_request_info_of(xml@),
{
    let rq: samael::schema::LogoutRequest = match xml.parse() {
        Ok(r) => r,
        Err(_) => return None,
    };
    Some(LogoutRequestInfo {
        id: rq.id,
        issuer: rq.issuer.and_then(|i| i.value),
        destination: rq.destination,
    })
}

/// The envelope fields of a parsed SAML `Response`.
pub struct ResponseHead {
    pub in_response_to: Option<String>,
    pub status_code: Option<String>,
    pub issuer: Option<String>,
    pub destination: Option<String>,
    pub issue_instant: i64,
}

/// The ghost image of a `ResponseHead`.
pub struct ResponseHeadV {
    pub in_response_to: Option<Seq<char>>,
    pub status_code: Option<Seq<char>>,
    pub issuer: Option<Seq<char>>,
    pub destination: Option<Seq<char>>,
    pub issue_instant: i64,
}

impl View for ResponseHead {
    type V = ResponseHeadV;

    open spec fn view(&self) -> ResponseHeadV {
        ResponseHeadV {
            in_response_to: match self.in_response_to {
                Some(s) => Some(s@),
                None => None,
            },
            status_code: match self.status_code {
                Some(s) => Some(s@),
                None => None,
            },
            issuer: match self.issuer {
                Some(s) => Some(s@),
                None => None,
            },
            destination: match self.destination {
                Some(s) => Some(s@),
                None => None,
            },
            issue_instant: self.issue_instant,
        }
    }
}

/// The assertion-level fields of a parsed SAML `Response`.
pub struct AssertionCore {
    pub name_id: Option<String>,
    pub not_before: Option<i64>,
    pub not_on_or_after: Option<i64>,
    pub audiences: Vec<String>,
}

/// The ghost image of an `AssertionCore`.
pub struct AssertionCoreV {
    pub name_id: Option<Seq<char>>,
    pub not_before: Option<i64>,
    pub not_on_or_after: Option<i64>,
    pub audiences: Seq<Seq<char>>,
}

impl View for AssertionCore {
    type V = AssertionCoreV;

    open spec fn view(&self) -> AssertionCoreV {
        AssertionCoreV {
            name_id: match self.name_id {
                Some(s) => Some(s@),
                None => None,
            },
            not_before: self.not_before,
            not_on_or_after: self.not_on_or_after,
            audiences: self.audiences@.map_values(|a: String| a@),
        }
    }
}

/// One attribute of an assertion: its name and its values in document
/// order, a value possibly absent.
pub struct AttributeRow {
    pub name: Option<String>,
    pub values: Vec<Option<String>>,
}

/// The ghost image of an `AttributeRow`.
pub struct AttributeRowV {
    pub name: Option<Seq<char>>,
    pub values: Seq<Option<Seq<char>>>,
}

impl View for AttributeRow {
    type V = AttributeRowV;

    open spec fn view(&self) -> AttributeRowV {
        AttributeRowV {
            name: match self.name {
                Some(n) => Some(n@),
                None => None,
            },
            values: self.values@.map_values(
                |v: Option<String>| match v {
                    Some(x) => Some(x@),
                    None => None,
                },
            ),
        }
    }
}

/// The ghost image of an optional `ResponseHead`.
pub open spec fn view_opt_response_head(r: Option<ResponseHead>) -> Option<ResponseHeadV> {
    match r {
        Some(h) => Some(h@),
        None => None,
    }
}

/// The envelope fields samael's `Response` parser yields on a
/// document, as the proxy reads them; `None` where it does not parse.
pub uninterp spec fn response_head_of(xml: Seq<char>) -> Option<ResponseHeadV>;

/// Relies on samael's `Response` parser (`str::parse`): the result is
/// a function of the document text alone; yields the envelope fields
/// the proxy validates.
#[verifier::external_body]
pub(crate) fn parse_response_head(xml: &str) -> (r: Option<ResponseHead>)
    ensures
        view_opt_response_head(r) == response_head_of(xml@),
{
    let resp: samael::schema::Response = match xml.parse() {
        Ok(r) => r,
        Err(_) => return None,
    };
    Some(ResponseHead {
        in_response_to: resp.in_response_to,
        status_code: resp.status.and_then(|s| s.status_code.value),
        issuer: resp.issuer.and_then(|i| i.value),
        destination: resp.destination,
        issue_instant: resp.issue_instant.timestamp(),
    })
}

/// The ghost image of an optional, possibly absent `AssertionCore`.
pub open spec fn view_opt_assertion(r: Option<Option<AssertionCore>>) -> Option<
    Option<AssertionCoreV>,
> {
    match r {
        Some(Some(a)) => Some(Some(a@)),
        Some(None) => Some(None),
        None => None,
    }
}

/// The assertion fields samael's `Response` parser yields on a
/// document: the outer `None` is a parse failure, the inner `None` a
/// response without an assertion.
pub uninterp spec fn response_assertion_of(xml: Seq<char>) -> Option<Option<AssertionCoreV>>;

/// Relies on samael's `Response` parser (`str::parse`): the result is
/// a function of the document text alone; yields the assertion fields
/// the proxy validates.
#[verifier::external_body]
pub(crate) fn parse_response_assertion(xml: &str) -> (r: Option<Option<AssertionCore>>)
    ensures
        view_opt_assertion(r) == response_assertion_of(xml@),
{
    let resp: samael::schema::Response = match xml.parse() {
        Ok(r) => r,
        Err(_) => return None,
    };
    Some(resp.assertion.map(|a| AssertionCore {
        name_id: a.subject.and_then(|s| s.name_id).map(|n| n.value),
        not_before: a.conditions.as_ref().and_then(|c| c.not_before).map(|t| t.timestamp()),
        not_on_or_after: a.conditions.as_ref().and_then(|c| c.not_on_or_after)
            .map(|t| t.timestamp()),
        audiences: a.conditions.and_then(|c| c.audience_restrictions).unwrap_or_default()
            .into_iter().flat_map(|r| r.audience).collect(),
    }))
}

/// The ghost image of optional attribute rows.
pub open spec fn view_opt_rows(r: Option<Vec<AttributeRow>>) -> Option<Seq<AttributeRowV>> {
    match r {
        Some(rows) => Some(rows@.map_values(|a: AttributeRow| a@)),
        None => None,
    }
}

/// The attribute rows samael's `Response` parser yields on a
/// document, in document order; `None` where it does not parse.
pub uninterp spec fn response_attrs_of(xml: Seq<char>) -> Option<Seq<AttributeRowV>>;

/// Relies on samael's `Response` parser (`str::parse`): the result is
/// a function of the document text alone; yields the assertion's
/// attributes in document order.
#[verifier::external_body]
pub(crate) fn parse_response_attributes(xml: &str) -> (r: Option<Vec<AttributeRow>>)
    ensures
        view_opt_rows(r) == response_attrs_of(xml@),
{
    let resp: samael::schema::Response = match xml.parse() {
        Ok(r) => r,
        Err(_) => return None,
    };
    Some(resp.assertion.and_then(|a| a.attribute_statements).unwrap_or_default()
        .into_iter().flat_map(|s| s.attributes)
        .map(|a| AttributeRow {
            name: a.name,
            values: a.values.into_iter().map(|v| v.value).collect(),
        }).collect())
}

} // verus!
