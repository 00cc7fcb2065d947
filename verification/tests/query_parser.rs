use kdl::query_parser::parse_query;

#[test]
fn parse_simple_node() {
    let q = parse_query("foo").unwrap();
    assert_eq!(q.0.len(), 1);
}

#[test]
fn parse_node_with_type() {
    let q = parse_query("(string)foo").unwrap();
    assert_eq!(q.0.len(), 1);
}

#[test]
fn parse_node_with_attribute() {
    let q = parse_query("foo[bar]").unwrap();
    assert_eq!(q.0.len(), 1);
}

#[test]
fn parse_node_with_attribute_value() {
    let q = parse_query(r#"foo[bar="baz"]"#).unwrap();
    assert_eq!(q.0.len(), 1);
}

#[test]
fn parse_child_combinator() {
    let q = parse_query("foo > bar").unwrap();
    assert_eq!(q.0.len(), 1);
    assert_eq!(q.0[0].0.len(), 2);
}

#[test]
fn parse_descendant_combinator() {
    let q = parse_query("foo >> bar").unwrap();
    assert_eq!(q.0.len(), 1);
}

#[test]
fn parse_multiple_selectors() {
    let q = parse_query("foo, bar").unwrap();
    assert_eq!(q.0.len(), 2);
}

#[test]
fn parse_scope() {
    let q = parse_query("scope()").unwrap();
    assert_eq!(q.0.len(), 1);
}

#[test]
fn parse_arg_accessor() {
    let q = parse_query("[arg(0)]").unwrap();
    assert_eq!(q.0.len(), 1);
}

#[test]
fn parse_prop_accessor() {
    let q = parse_query("[prop(name)]").unwrap();
    assert_eq!(q.0.len(), 1);
}

#[test]
fn parse_type_accessor() {
    let q = parse_query(r#"[type()="string"]"#).unwrap();
    assert_eq!(q.0.len(), 1);
}

#[test]
fn parse_numeric_comparison() {
    let q = parse_query("[arg(0) >= 10]").unwrap();
    assert_eq!(q.0.len(), 1);
}
