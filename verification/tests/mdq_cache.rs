//! The metadata-query cache: TTL, LRU eviction, and the rule that an
//! unverified document never enters it.

use saml_proxy::error::Error;
use saml_proxy::mdq::{mdq_request_url, MdqCache};

fn descriptor_xml(entity_id: &str) -> String {
    format!(
        "<EntityDescriptor xmlns=\"urn:oasis:names:tc:SAML:2.0:metadata\" entityID=\"{}\"><IDPSSODescriptor protocolSupportEnumeration=\"urn:oasis:names:tc:SAML:2.0:protocol\"><SingleSignOnService Binding=\"urn:oasis:names:tc:SAML:2.0:bindings:HTTP-Redirect\" Location=\"{}/sso\"/></IDPSSODescriptor></EntityDescriptor>",
        entity_id, entity_id,
    )
}

#[test]
fn verified_descriptor_is_cached_and_summarized() {
    let mut cache = MdqCache::new(10, 3600);
    let xml = descriptor_xml("https://idp.example.edu");
    let info = cache.admit_descriptor("https://idp.example.edu", &xml, true, 0).unwrap();
    assert_eq!(info.entity_id.as_deref(), Some("https://idp.example.edu"));
    assert_eq!(info.sso_endpoints.len(), 1);
    assert_eq!(info.sso_endpoints[0].location, "https://idp.example.edu/sso");

    let cached = cache.lookup("https://idp.example.edu", 100).unwrap();
    assert_eq!(cached, xml);
}

#[test]
fn unverified_descriptor_never_enters_the_cache() {
    let mut cache = MdqCache::new(10, 3600);
    let xml = descriptor_xml("https://idp.example.edu");
    let err = cache.admit_descriptor("https://idp.example.edu", &xml, false, 0).unwrap_err();
    assert!(matches!(err, Error::MdqFetchFailed(_)));
    assert!(cache.lookup("https://idp.example.edu", 0).is_none());
}

#[test]
fn unparsable_descriptor_never_enters_the_cache() {
    let mut cache = MdqCache::new(10, 3600);
    let err = cache.admit_descriptor("https://idp.example.edu", "<<<", true, 0).unwrap_err();
    assert!(matches!(err, Error::MdqFetchFailed(_)));
    assert!(cache.lookup("https://idp.example.edu", 0).is_none());
}

#[test]
fn entry_expires_by_ttl_on_read() {
    let mut cache = MdqCache::new(10, 3600);
    let xml = descriptor_xml("https://idp.example.edu");
    cache.admit_descriptor("https://idp.example.edu", &xml, true, 0).unwrap();
    assert!(cache.lookup("https://idp.example.edu", 3600).is_some());
    assert!(cache.lookup("https://idp.example.edu", 3601).is_none());
    // The expired entry was evicted, so it stays gone even earlier.
    assert!(cache.lookup("https://idp.example.edu", 100).is_none());
}

#[test]
fn overflow_evicts_least_recently_used() {
    let mut cache = MdqCache::new(2, 3600);
    let one = descriptor_xml("https://one.example.edu");
    let two = descriptor_xml("https://two.example.edu");
    let three = descriptor_xml("https://three.example.edu");
    cache.admit_descriptor("https://one.example.edu", &one, true, 0).unwrap();
    cache.admit_descriptor("https://two.example.edu", &two, true, 1).unwrap();
    // Touch the older entry so the other becomes least recently used.
    assert!(cache.lookup("https://one.example.edu", 2).is_some());
    cache.admit_descriptor("https://three.example.edu", &three, true, 3).unwrap();

    assert!(cache.lookup("https://two.example.edu", 4).is_none());
    assert!(cache.lookup("https://one.example.edu", 4).is_some());
    assert!(cache.lookup("https://three.example.edu", 4).is_some());
}

#[test]
fn request_url_percent_encodes_the_entity_id() {
    let url = mdq_request_url("https://mdq.incommon.org", "https://idp.example.edu/shib");
    assert_eq!(
        url,
        "https://mdq.incommon.org/entities/https%3A%2F%2Fidp.example.edu%2Fshib",
    );
}
