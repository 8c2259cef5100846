use testx::coverage::parsers::cobertura::{extract_attr_value, parse_condition_coverage};


#[test]
fn extract_attr_value_test() {
    assert_eq!(
        extract_attr_value(r#"<class name="Foo" filename="foo.py">"#, "filename"),
        Some("foo.py".into())
    );
    assert_eq!(
        extract_attr_value(r#"<line number="42" hits="5"/>"#, "number"),
        Some("42".into())
    );
    assert_eq!(
        extract_attr_value(r#"<line number="1"/>"#, "hits"),
        None
    );
}

#[test]
fn parse_condition_coverage_test() {
    assert_eq!(parse_condition_coverage("50% (1/2)"), (2, 1));
    assert_eq!(parse_condition_coverage("100% (4/4)"), (4, 4));
    assert_eq!(parse_condition_coverage("0% (0/3)"), (3, 0));
    assert_eq!(parse_condition_coverage("invalid"), (0, 0));
}

#[test]
fn cobertura_condition_without_slash() {
    assert_eq!(parse_condition_coverage("50% (12)"), (0, 0));
    assert_eq!(parse_condition_coverage("(x/3)"), (3, 0));
}
