use testx::coverage::parsers::jacoco::extract_attr_value;


#[test]
fn extract_attr() {
    assert_eq!(
        extract_attr_value(r#"<package name="com/example">"#, "name"),
        Some("com/example".into())
    );
    assert_eq!(
        extract_attr_value(r#"<line nr="42" ci="3"/>"#, "nr"),
        Some("42".into())
    );
}
