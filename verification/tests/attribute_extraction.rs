//! The curated attribute extraction.

use saml_proxy::attributes::{
    extract_attributes, DISPLAY_NAME, EDU_PERSON_PRINCIPAL_NAME, MAIL,
};
use saml_proxy::saml::AttributeRow;

fn row(name: &str, value: &str) -> AttributeRow {
    AttributeRow { name: Some(name.into()), values: vec![Some(value.into())] }
}

fn value_of<'a>(attrs: &'a [(String, String)], name: &str) -> Option<&'a str> {
    attrs.iter().find(|(n, _)| n == name).map(|(_, v)| v.as_str())
}

#[test]
fn extracts_known_attributes() {
    let rows = vec![
        row(MAIL, "user@example.edu"),
        row(DISPLAY_NAME, "Test User"),
        row(EDU_PERSON_PRINCIPAL_NAME, "user@example.edu"),
    ];

    let attrs = extract_attributes(&rows);
    assert_eq!(attrs.len(), 3);
    assert_eq!(value_of(&attrs, MAIL), Some("user@example.edu"));
    assert_eq!(value_of(&attrs, DISPLAY_NAME), Some("Test User"));
    assert_eq!(value_of(&attrs, EDU_PERSON_PRINCIPAL_NAME), Some("user@example.edu"));
}

#[test]
fn skips_unknown_attributes() {
    let rows = vec![
        row(MAIL, "user@example.edu"),
        row("urn:oid:9.9.9.9.9", "should be skipped"),
    ];

    let attrs = extract_attributes(&rows);
    assert_eq!(attrs.len(), 1);
    assert!(value_of(&attrs, MAIL).is_some());
    assert!(value_of(&attrs, "urn:oid:9.9.9.9.9").is_none());
}

#[test]
fn empty_attribute_statements() {
    let rows: Vec<AttributeRow> = Vec::new();
    let attrs = extract_attributes(&rows);
    assert!(attrs.is_empty());
}

#[test]
fn attribute_without_value() {
    let rows = vec![AttributeRow { name: Some(MAIL.into()), values: vec![] }];

    let attrs = extract_attributes(&rows);
    assert!(attrs.is_empty());
}

#[test]
fn takes_first_value_only() {
    let rows = vec![AttributeRow {
        name: Some(MAIL.into()),
        values: vec![Some("first@example.edu".into()), Some("second@example.edu".into())],
    }];

    let attrs = extract_attributes(&rows);
    assert_eq!(value_of(&attrs, MAIL), Some("first@example.edu"));
}

#[test]
fn first_row_wins_for_repeated_names() {
    let rows = vec![row(MAIL, "first@example.edu"), row(MAIL, "second@example.edu")];

    let attrs = extract_attributes(&rows);
    assert_eq!(attrs.len(), 1);
    assert_eq!(value_of(&attrs, MAIL), Some("first@example.edu"));
}

#[test]
fn nameless_row_is_dropped() {
    let rows = vec![AttributeRow { name: None, values: vec![Some("orphan".into())] }];
    let attrs = extract_attributes(&rows);
    assert!(attrs.is_empty());
}
