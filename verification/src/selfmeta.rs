//! The proxy's own metadata documents.
//!
//! Downstream service providers read the proxy's IdP descriptor;
//! upstream identity providers read its SP descriptor.  Both are
//! emitted here from the entity ID, the base URL and the signing
//! certificate, every interpolation attribute-escaped.

use vstd::prelude::*;
use crate::codec::{b64_encode, b64_of};
use crate::textenc::{escape_attr, escape_seq};

verus! {

/// The proxy's IdP descriptor: one signing key, transient and
/// persistent name IDs, and both single-sign-on bindings at
/// `{base_url}/saml/sso`.
pub open spec fn idp_metadata_xml(
    entity_id: Seq<char>,
    base_url: Seq<char>,
    cert_b64: Seq<char>,
) -> Seq<char> {
    "<md:EntityDescriptor xmlns:md=\"urn:oasis:names:tc:SAML:2.0:metadata\" entityID=\""@
        + escape_seq(entity_id)
        + "\"><md:IDPSSODescriptor WantAuthnRequestsSigned=\"false\" protocolSupportEnumeration=\"urn:oasis:names:tc:SAML:2.0:protocol\"><md:KeyDescriptor use=\"signing\"><ds:KeyInfo xmlns:ds=\"http://www.w3.org/2000/09/xmldsig#\"><ds:X509Data><ds:X509Certificate>"@
        + escape_seq(cert_b64)
        + "</ds:X509Certificate></ds:X509Data></ds:KeyInfo></md:KeyDescriptor><md:NameIDFormat>urn:oasis:names:tc:SAML:2.0:nameid-format:transient</md:NameIDFormat><md:NameIDFormat>urn:oasis:names:tc:SAML:2.0:nameid-format:persistent</md:NameIDFormat><md:SingleSignOnService Binding=\"urn:oasis:names:tc:SAML:2.0:bindings:HTTP-Redirect\" Location=\""@
        + escape_seq(base_url)
        + "/saml/sso\"/><md:SingleSignOnService Binding=\"urn:oasis:names:tc:SAML:2.0:bindings:HTTP-POST\" Location=\""@
        + escape_seq(base_url) + "/saml/sso\"/></md:IDPSSODescriptor></md:EntityDescriptor>"@
}

/// Emits the proxy's IdP metadata.
pub fn build_idp_metadata(entity_id: &str, base_url: &str, cert_der: &Vec<u8>) -> (r: String)
    ensures
        r@ == idp_metadata_xml(entity_id@, base_url@, b64_of(cert_der@)),
{
    let cert_b64 = b64_encode(cert_der);
    let mut out = String::new();
    out.append(
        "<md:EntityDescriptor xmlns:md=\"urn:oasis:names:tc:SAML:2.0:metadata\" entityID=\"",
    );
    let v = escape_attr(entity_id);
    out.append(v.as_str());
    out.append(
        "\"><md:IDPSSODescriptor WantAuthnRequestsSigned=\"false\" protocolSupportEnumeration=\"urn:oasis:names:tc:SAML:2.0:protocol\"><md:KeyDescriptor use=\"signing\"><ds:KeyInfo xmlns:ds=\"http://www.w3.org/2000/09/xmldsig#\"><ds:X509Data><ds:X509Certificate>",
    );
    let v = escape_attr(cert_b64.as_str());
    out.append(v.as_str());
    out.append(
        "</ds:X509Certificate></ds:X509Data></ds:KeyInfo></md:KeyDescriptor><md:NameIDFormat>urn:oasis:names:tc:SAML:2.0:nameid-format:transient</md:NameIDFormat><md:NameIDFormat>urn:oasis:names:tc:SAML:2.0:nameid-format:persistent</md:NameIDFormat><md:SingleSignOnService Binding=\"urn:oasis:names:tc:SAML:2.0:bindings:HTTP-Redirect\" Location=\"",
    );
    let v = escape_attr(base_url);
    out.append(v.as_str());
    out.append(
        "/saml/sso\"/><md:SingleSignOnService Binding=\"urn:oasis:names:tc:SAML:2.0:bindings:HTTP-POST\" Location=\"",
    );
    let v = escape_attr(base_url);
    out.append(v.as_str());
    out.append("/saml/sso\"/></md:IDPSSODescriptor></md:EntityDescriptor>");
    out
}

/// The proxy's SP descriptor: signed requests, signed assertions
/// wanted, one signing key, a single logout service at
/// `{base_url}/sp/slo`, transient name IDs, and the default
/// assertion-consumer service at `{base_url}/sp/acs`.
pub open spec fn sp_metadata_xml(
    entity_id: Seq<char>,
    base_url: Seq<char>,
    cert_b64: Seq<char>,
) -> Seq<char> {
    "<md:EntityDescriptor xmlns:md=\"urn:oasis:names:tc:SAML:2.0:metadata\" entityID=\""@
        + escape_seq(entity_id)
        + "\"><md:SPSSODescriptor AuthnRequestsSigned=\"true\" WantAssertionsSigned=\"true\" protocolSupportEnumeration=\"urn:oasis:names:tc:SAML:2.0:protocol\"><md:KeyDescriptor use=\"signing\"><ds:KeyInfo xmlns:ds=\"http://www.w3.org/2000/09/xmldsig#\"><ds:X509Data><ds:X509Certificate>"@
        + escape_seq(cert_b64)
        + "</ds:X509Certificate></ds:X509Data></ds:KeyInfo></md:KeyDescriptor><md:SingleLogoutService Binding=\"urn:oasis:names:tc:SAML:2.0:bindings:HTTP-POST\" Location=\""@
        + escape_seq(base_url)
        + "/sp/slo\"/><md:NameIDFormat>urn:oasis:names:tc:SAML:2.0:nameid-format:transient</md:NameIDFormat><md:AssertionConsumerService Binding=\"urn:oasis:names:tc:SAML:2.0:bindings:HTTP-POST\" Location=\""@
        + escape_seq(base_url)
        + "/sp/acs\" index=\"0\" isDefault=\"true\"/></md:SPSSODescriptor></md:EntityDescriptor>"@
}

/// Emits the proxy's SP metadata.
pub fn build_sp_metadata(entity_id: &str, base_url: &str, cert_der: &Vec<u8>) -> (r: String)
    ensures
        r@ == sp_metadata_xml(entity_id@, base_url@, b64_of(cert_der@)),
{
    let cert_b64 = b64_encode(cert_der);
    let mut out = String::new();
    out.append(
        "<md:EntityDescriptor xmlns:md=\"urn:oasis:names:tc:SAML:2.0:metadata\" entityID=\"",
    );
    let v = escape_attr(entity_id);
    out.append(v.as_str());
    out.append(
        "\"><md:SPSSODescriptor AuthnRequestsSigned=\"true\" WantAssertionsSigned=\"true\" protocolSupportEnumeration=\"urn:oasis:names:tc:SAML:2.0:protocol\"><md:KeyDescriptor use=\"signing\"><ds:KeyInfo xmlns:ds=\"http://www.w3.org/2000/09/xmldsig#\"><ds:X509Data><ds:X509Certificate>",
    );
    let v = escape_attr(cert_b64.as_str());
    out.append(v.as_str());
    out.append(
        "</ds:X509Certificate></ds:X509Data></ds:KeyInfo></md:KeyDescriptor><md:SingleLogoutService Binding=\"urn:oasis:names:tc:SAML:2.0:bindings:HTTP-POST\" Location=\"",
    );
    let v = escape_attr(base_url);
    out.append(v.as_str());
    out.append(
        "/sp/slo\"/><md:NameIDFormat>urn:oasis:names:tc:SAML:2.0:nameid-format:transient</md:NameIDFormat><md:AssertionConsumerService Binding=\"urn:oasis:names:tc:SAML:2.0:bindings:HTTP-POST\" Location=\"",
    );
    let v = escape_attr(base_url);
    out.append(v.as_str());
    out.append("/sp/acs\" index=\"0\" isDefault=\"true\"/></md:SPSSODescriptor></md:EntityDescriptor>");
    out
}

} // verus!
