//! The aggregate scanner and entry extraction, on the kind of document
//! the federation publishes.

use saml_proxy::aggregate::{entity_descriptor_fragments, parse_idp_entries};

const AGGREGATE_XML: &str = r#"<EntitiesDescriptor xmlns="urn:oasis:names:tc:SAML:2.0:metadata">
<EntityDescriptor entityID="https://idp.example.edu">
    <IDPSSODescriptor protocolSupportEnumeration="urn:oasis:names:tc:SAML:2.0:protocol">
        <SingleSignOnService Binding="urn:oasis:names:tc:SAML:2.0:bindings:HTTP-Redirect" Location="https://idp.example.edu/sso"/>
    </IDPSSODescriptor>
    <Organization>
        <OrganizationDisplayName xml:lang="en">Example University</OrganizationDisplayName>
    </Organization>
</EntityDescriptor>
<EntityDescriptor entityID="https://sp.example.com">
    <SPSSODescriptor protocolSupportEnumeration="urn:oasis:names:tc:SAML:2.0:protocol">
        <AssertionConsumerService Binding="urn:oasis:names:tc:SAML:2.0:bindings:HTTP-POST" Location="https://sp.example.com/acs" index="0"/>
    </SPSSODescriptor>
</EntityDescriptor>
<EntityDescriptor entityID="https://idp2.example.org">
    <IDPSSODescriptor protocolSupportEnumeration="urn:oasis:names:tc:SAML:2.0:protocol">
        <SingleSignOnService Binding="urn:oasis:names:tc:SAML:2.0:bindings:HTTP-Redirect" Location="https://idp2.example.org/sso"/>
    </IDPSSODescriptor>
</EntityDescriptor>
</EntitiesDescriptor>"#;

#[test]
fn fragments_splits_entity_descriptors() {
    let fragments = entity_descriptor_fragments(AGGREGATE_XML);
    assert_eq!(fragments.len(), 3);
    assert!(fragments[0].contains("idp.example.edu"));
    assert!(fragments[1].contains("sp.example.com"));
    assert!(fragments[2].contains("idp2.example.org"));
}

#[test]
fn fragments_empty_input() {
    let fragments = entity_descriptor_fragments("");
    assert!(fragments.is_empty());
}

#[test]
fn fragments_no_descriptors() {
    let fragments = entity_descriptor_fragments("<EntitiesDescriptor></EntitiesDescriptor>");
    assert!(fragments.is_empty());
}

#[test]
fn fragments_are_slices_of_the_input() {
    let fragments = entity_descriptor_fragments(AGGREGATE_XML);
    for fragment in &fragments {
        assert!(AGGREGATE_XML.contains(fragment));
        assert!(fragment.starts_with("<EntityDescriptor"));
        assert!(fragment.ends_with("</EntityDescriptor>"));
    }
}

#[test]
fn parse_filters_to_idp_only() {
    let entries = parse_idp_entries(AGGREGATE_XML);
    assert_eq!(entries.len(), 2);
    assert!(entries.iter().all(|e| e.entity_id != "https://sp.example.com"));
}

#[test]
fn parse_extracts_display_name() {
    let entries = parse_idp_entries(AGGREGATE_XML);
    let example = entries
        .iter()
        .find(|e| e.entity_id == "https://idp.example.edu")
        .unwrap();
    assert_eq!(example.display_name, "Example University");
}

#[test]
fn parse_falls_back_to_entity_id() {
    let entries = parse_idp_entries(AGGREGATE_XML);
    let idp2 = entries
        .iter()
        .find(|e| e.entity_id == "https://idp2.example.org")
        .unwrap();
    assert_eq!(idp2.display_name, "https://idp2.example.org");
}

#[test]
fn parse_results_sorted_alphabetically() {
    let entries = parse_idp_entries(AGGREGATE_XML);
    let names: Vec<&str> = entries.iter().map(|e| e.display_name.as_str()).collect();
    let mut sorted = names.clone();
    sorted.sort();
    assert_eq!(names, sorted);
}

#[test]
fn parse_prefers_english_display_name() {
    let xml = "<EntityDescriptor xmlns=\"urn:oasis:names:tc:SAML:2.0:metadata\" entityID=\"https://idp.example.edu\"><IDPSSODescriptor protocolSupportEnumeration=\"urn:oasis:names:tc:SAML:2.0:protocol\"><SingleSignOnService Binding=\"urn:oasis:names:tc:SAML:2.0:bindings:HTTP-Redirect\" Location=\"https://idp.example.edu/sso\"/></IDPSSODescriptor><Organization><OrganizationDisplayName xml:lang=\"de\">Beispieluni</OrganizationDisplayName><OrganizationDisplayName xml:lang=\"en\">Example University</OrganizationDisplayName></Organization></EntityDescriptor>";
    let entries = parse_idp_entries(xml);
    assert_eq!(entries.len(), 1);
    assert_eq!(entries[0].display_name, "Example University");
}
