//! The discovery index and its search.

use saml_proxy::index::FederationIndex;

fn idp_fragment(entity_id: &str, display_name: &str) -> String {
    format!(
        "<EntityDescriptor xmlns=\"urn:oasis:names:tc:SAML:2.0:metadata\" entityID=\"{}\"><IDPSSODescriptor protocolSupportEnumeration=\"urn:oasis:names:tc:SAML:2.0:protocol\"><SingleSignOnService Binding=\"urn:oasis:names:tc:SAML:2.0:bindings:HTTP-Redirect\" Location=\"{}/sso\"/></IDPSSODescriptor><Organization><OrganizationDisplayName xml:lang=\"en\">{}</OrganizationDisplayName></Organization></EntityDescriptor>",
        entity_id, entity_id, display_name,
    )
}

fn index_of(pairs: &[(&str, &str)]) -> FederationIndex {
    let mut aggregate = String::from(r#"<EntitiesDescriptor>"#);
    for (id, name) in pairs {
        aggregate.push_str(&idp_fragment(id, name));
    }
    aggregate.push_str("</EntitiesDescriptor>");
    let mut index = FederationIndex::new();
    index.apply_aggregate(&aggregate);
    index
}

#[test]
fn search_filters_by_query() {
    let index = index_of(&[
        ("https://a.edu", "Alpha University"),
        ("https://b.edu", "Beta College"),
        ("https://c.edu", "Alpha Tech"),
    ]);
    let results = index.search("alpha", 20);
    assert_eq!(results.len(), 2);
    assert!(results.iter().all(|e| e.display_name.to_lowercase().contains("alpha")));
}

#[test]
fn search_respects_limit() {
    let pairs: Vec<(String, String)> = (0..30)
        .map(|i| (format!("https://{i}.edu"), format!("University {i}")))
        .collect();
    let borrowed: Vec<(&str, &str)> =
        pairs.iter().map(|(a, b)| (a.as_str(), b.as_str())).collect();
    let index = index_of(&borrowed);
    let results = index.search("University", 5);
    assert_eq!(results.len(), 5);
}

#[test]
fn search_case_insensitive() {
    let index = index_of(&[("https://cmu.edu", "Carnegie Mellon University")]);
    let results = index.search("CARNEGIE", 20);
    assert_eq!(results.len(), 1);
}

#[test]
fn search_returns_matches_in_sorted_order() {
    let index = index_of(&[
        ("https://c.edu", "Alpha Tech"),
        ("https://a.edu", "Alpha University"),
        ("https://b.edu", "Beta College"),
    ]);
    let results = index.search("alpha", 20);
    let names: Vec<&str> = results.iter().map(|e| e.display_name.as_str()).collect();
    assert_eq!(names, vec!["Alpha Tech", "Alpha University"]);
}

#[test]
fn search_empty_index_is_empty() {
    let index = FederationIndex::new();
    assert!(index.search("anything", 20).is_empty());
    assert!(index.entries().is_empty());
}

#[test]
fn refresh_replaces_snapshot_wholesale() {
    let mut index = FederationIndex::new();
    let one = format!(
        "<EntitiesDescriptor>{}</EntitiesDescriptor>",
        idp_fragment("https://a.edu", "Alpha University"),
    );
    index.apply_aggregate(&one);
    assert_eq!(index.entries().len(), 1);
    let two = format!(
        "<EntitiesDescriptor>{}{}</EntitiesDescriptor>",
        idp_fragment("https://b.edu", "Beta College"),
        idp_fragment("https://c.edu", "Gamma Institute"),
    );
    index.apply_aggregate(&two);
    assert_eq!(index.entries().len(), 2);
    assert!(index.search("alpha", 20).is_empty());
}

#[test]
fn search_returns_empty_for_no_match() {
    let index = index_of(&[("https://cmu.edu", "Carnegie Mellon University")]);
    assert!(index.search("nonexistent", 20).is_empty());
}

#[test]
fn search_limit_one_truncates_to_the_first_match() {
    let index = index_of(&[
        ("https://a.edu", "Alpha University"),
        ("https://b.edu", "Beta College"),
        ("https://c.edu", "Alpha Tech"),
    ]);
    let results = index.search("alpha", 1);
    assert_eq!(results.len(), 1);
    assert_eq!(results[0].display_name, "Alpha Tech");
}
