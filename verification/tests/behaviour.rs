use kdl::query_parser::parse_query;
use kdl::schema::validate::find_matching_node_def;
use kdl::schema::KdlSchema;
use kdl::schema_v2::{resolve_schema_path, KdlSchemaV2, SchemaDirective, ValidationResult, ValueFormat};
use kdl::{KdlDocument, KdlValue, Severity, SourceSpan};

fn doc(src: &str) -> KdlDocument {
    src.parse().unwrap()
}

fn messages(diags: &[kdl::KdlDiagnostic]) -> Vec<String> {
    diags.iter().map(|d| d.message.clone().unwrap_or_default()).collect()
}

#[test]
fn warn_only_turns_errors_into_warnings_and_keeps_the_rest() {
    let schema = KdlSchemaV2::parse(
        r#"
document {
    node "a" {
        required
    }
    node "b" {
        arg {
            type string
        }
    }
}
"#,
    )
    .unwrap();
    let target = doc("b 1");
    let plain = schema.validate(&target);
    let same = schema.validate_with_severity(&target, false);
    let warned = schema.validate_with_severity(&target, true);
    assert_eq!(plain.len(), 2);
    assert_eq!(messages(&plain), messages(&same));
    assert_eq!(messages(&plain), messages(&warned));
    for (p, s) in plain.iter().zip(same.iter()) {
        assert_eq!(p.severity, s.severity);
        assert_eq!(p.span, s.span);
    }
    for (p, w) in plain.iter().zip(warned.iter()) {
        assert_eq!(p.severity, Severity::Error);
        assert_eq!(w.severity, Severity::Warning);
        assert_eq!(p.span, w.span);
        assert_eq!(p.label, w.label);
        assert_eq!(p.help, w.help);
    }
}

#[test]
fn read_failure_names_the_file_and_the_reason() {
    let e = KdlSchemaV2::read_failure("/tmp/x.kdl", "No such file or directory");
    assert_eq!(e.input, "");
    assert_eq!(e.diagnostics.len(), 1);
    assert_eq!(
        e.diagnostics[0].message.as_deref(),
        Some("Failed to read schema file '/tmp/x.kdl': No such file or directory")
    );
    assert_eq!(e.diagnostics[0].severity, Severity::Error);
    assert_eq!(e.diagnostics[0].span, SourceSpan::new(0, 0));
}

fn directive(path: &str, warn_only: bool) -> SchemaDirective {
    SchemaDirective { path: path.to_string(), span: SourceSpan::new(3, 7), warn_only }
}

#[test]
fn record_a_schema_that_did_not_load() {
    let target = doc("test-node");
    let mut result = ValidationResult::new();
    let err = KdlSchemaV2::read_failure("/dir/missing.kdl", "not found");
    result.record(&target, &directive("missing.kdl", false), "/dir/missing.kdl".to_string(), Err(err));
    assert_eq!(result.diagnostics.len(), 1);
    let d = &result.diagnostics[0];
    assert_eq!(
        d.message.as_deref(),
        Some("Failed to load schema 'missing.kdl': Failed to read schema file '/dir/missing.kdl': not found")
    );
    assert_eq!(d.label.as_deref(), Some("schema directive"));
    assert_eq!(d.help.as_deref(), Some("Check that the schema file exists and is valid"));
    assert_eq!(d.severity, Severity::Error);
    assert_eq!(d.span, SourceSpan::new(3, 7));
    assert!(result.validated_schemas.is_empty());
    assert_eq!(
        result.failed_schemas,
        vec![("/dir/missing.kdl".to_string(), "missing.kdl".to_string())]
    );
}

#[test]
fn record_a_warn_only_schema_that_did_not_load() {
    let target = doc("test-node");
    let mut result = ValidationResult::new();
    let err = KdlSchemaV2::read_failure("/dir/missing.kdl", "not found");
    result.record(&target, &directive("missing.kdl", true), "/dir/missing.kdl".to_string(), Err(err));
    assert_eq!(result.diagnostics[0].severity, Severity::Warning);
    assert_eq!(result.failed_schemas.len(), 1);
}

#[test]
fn record_an_error_without_diagnostics() {
    let target = doc("test-node");
    let mut result = ValidationResult::new();
    let err = kdl::KdlError { input: String::new(), diagnostics: Vec::new() };
    result.record(&target, &directive("s.kdl", false), "/d/s.kdl".to_string(), Err(err));
    assert_eq!(
        result.diagnostics[0].message.as_deref(),
        Some("Failed to load schema 's.kdl': unknown error")
    );
}

#[test]
fn record_loaded_schemas_adds_their_diagnostics() {
    let target = doc("other-node");
    let strict = KdlSchemaV2::parse("document { node \"required-node\" { required; }; node \"other-node\"; }").unwrap();
    let loose = KdlSchemaV2::parse("document { node \"other-node\"; }").unwrap();
    let mut result = ValidationResult::new();
    result.record(&target, &directive("a.kdl", true), "/d/a.kdl".to_string(), Ok(strict));
    result.record(&target, &directive("b.kdl", false), "/d/b.kdl".to_string(), Ok(loose));
    assert_eq!(result.diagnostics.len(), 1);
    assert_eq!(result.diagnostics[0].severity, Severity::Warning);
    assert_eq!(
        result.diagnostics[0].message.as_deref(),
        Some("Missing required node: 'required-node'")
    );
    assert_eq!(result.validated_schemas, vec!["/d/a.kdl".to_string(), "/d/b.kdl".to_string()]);
    assert!(result.failed_schemas.is_empty());
}

#[test]
fn schema_paths_are_joined_to_the_document_directory() {
    assert_eq!(resolve_schema_path("/abs/s.kdl", "/doc/dir"), "/abs/s.kdl");
    assert_eq!(resolve_schema_path("s.kdl", "/doc/dir"), "/doc/dir/s.kdl");
    assert_eq!(resolve_schema_path("s.kdl", "/doc/dir/"), "/doc/dir/s.kdl");
    assert_eq!(resolve_schema_path("s.kdl", ""), "s.kdl");
    assert_eq!(resolve_schema_path("", "/doc"), "/doc/");
}

#[test]
fn exact_node_definition_wins_over_a_wildcard() {
    let schema = KdlSchema::parse(
        r#"
document {
    node {
        value { type "number" }
    }
    node "foo" {
        value { type "string" }
    }
}
"#,
    )
    .unwrap();
    assert!(schema.validate(&doc("foo \"text\"")).is_empty());
    let errs = schema.validate(&doc("bar \"text\""));
    assert_eq!(messages(&errs), vec!["Expected type 'number', found 'string'".to_string()]);
}

#[test]
fn find_matching_node_def_prefers_exact_then_wildcard() {
    let defs = doc("node; node \"foo\" 1; node \"bar\"");
    let refs: Vec<&kdl::KdlNode> = defs.nodes.iter().collect();
    let foo = find_matching_node_def(&refs, "foo").unwrap();
    assert_eq!(foo.entries.len(), 2);
    let other = find_matching_node_def(&refs, "zzz").unwrap();
    assert!(other.entries.is_empty());
    let none: Vec<&kdl::KdlNode> = refs.iter().copied().filter(|n| !n.entries.is_empty()).collect();
    assert!(find_matching_node_def(&none, "zzz").is_none());
}

#[test]
fn required_without_repeatable_asks_for_exactly_one() {
    let schema = KdlSchemaV2::parse("document { node \"a\" { required; }; }").unwrap();
    assert_eq!(messages(&schema.validate(&doc("b"))), vec!["Missing required node: 'a'".to_string()]);
    assert!(schema.validate(&doc("a")).is_empty());
    assert_eq!(
        messages(&schema.validate(&doc("a; a"))),
        vec!["Node 'a' is not repeatable but appears 2 times".to_string()]
    );
}

#[test]
fn required_repeatable_asks_for_at_least_one() {
    let schema = KdlSchemaV2::parse("document { node \"a\" { required; repeatable; }; }").unwrap();
    assert_eq!(messages(&schema.validate(&doc(""))), vec!["Missing required node: 'a'".to_string()]);
    assert!(schema.validate(&doc("a; a; a")).is_empty());
}

#[test]
fn node_count_bounds_in_the_first_schema_form() {
    let schema = KdlSchema::parse("document { node \"a\" { min 2; max 3; }; }").unwrap();
    assert_eq!(
        messages(&schema.validate(&doc("a"))),
        vec!["Too few 'a' nodes: expected at least 2, found 1".to_string()]
    );
    assert!(schema.validate(&doc("a; a")).is_empty());
    assert!(schema.validate(&doc("a; a; a")).is_empty());
    assert_eq!(
        messages(&schema.validate(&doc("a; a; a; a"))),
        vec!["Too many 'a' nodes: expected at most 3, found 4".to_string()]
    );
}

#[test]
fn required_property_in_the_first_schema_form() {
    let schema = KdlSchema::parse("document { node \"p\" { prop \"name\" { required #true; }; }; }").unwrap();
    let errs = schema.validate(&doc("p"));
    assert_eq!(messages(&errs), vec!["Missing required property: 'name'".to_string()]);
    assert_eq!(errs[0].label.as_deref(), Some("required property not found"));
    assert!(schema.validate(&doc("p name=1")).is_empty());
}

#[test]
fn unknown_property_and_tag_messages() {
    let schema = KdlSchema::parse("document { node \"p\" { prop \"name\"; }; tag \"t\"; }").unwrap();
    let errs = schema.validate(&doc("(u)p age=1"));
    assert_eq!(
        messages(&errs),
        vec!["Unknown property: 'age'".to_string(), "Unknown tag: 'u'".to_string()]
    );
    assert_eq!(
        errs[1].help.as_deref(),
        Some("Add this tag to the schema or set 'other-tags-allowed #true'")
    );
}

#[test]
fn argument_count_messages() {
    let schema = KdlSchema::parse("document { node \"p\" { value { min 1; max 2; }; }; }").unwrap();
    assert_eq!(
        messages(&schema.validate(&doc("p"))),
        vec!["Too few arguments: expected at least 1, found 0".to_string()]
    );
    assert_eq!(
        messages(&schema.validate(&doc("p 1 2 3"))),
        vec!["Too many arguments: expected at most 2, found 3".to_string()]
    );
}

#[test]
fn schema_parse_errors() {
    let missing = KdlSchema::parse("node \"x\"").unwrap_err();
    assert_eq!(
        missing.diagnostics[0].message.as_deref(),
        Some("Schema must have a 'document' node at root level")
    );
    assert_eq!(missing.input, "node \"x\"");
    let broken = KdlSchemaV2::parse("document {").unwrap_err();
    assert_eq!(broken.input, "document {");
    assert_eq!(broken.diagnostics.len(), 1);
    assert_eq!(broken.diagnostics[0].severity, Severity::Error);
}

#[test]
fn first_schema_form_definitions_live_inside_document() {
    let schema = KdlSchema::parse(
        r#"
document {
    definitions {
        node id="num" { value { type "number" } }
    }
    node "n" ref="num"
}
"#,
    )
    .unwrap();
    assert!(schema.definitions().is_some());
    assert!(schema.validate(&doc("n 1")).is_empty());
    assert_eq!(
        messages(&schema.validate(&doc("n \"x\""))),
        vec!["Expected type 'number', found 'string'".to_string()]
    );
}

#[test]
fn value_formats_by_name() {
    assert!(matches!(ValueFormat::parse("date-time"), ValueFormat::DateTime));
    assert!(matches!(ValueFormat::parse("uuid"), ValueFormat::Uuid));
    match ValueFormat::parse("no-such-format") {
        ValueFormat::Custom(s) => assert_eq!(s, "no-such-format"),
        _ => panic!("expected a custom format"),
    }
}

#[test]
fn query_errors_carry_help() {
    let e = parse_query("foo[").unwrap_err();
    assert_eq!(e.severity, Severity::Error);
    assert!(e.help.is_some());
    let trailing = parse_query("foo )").unwrap_err();
    assert_eq!(trailing.message.as_deref(), Some("Unexpected content after query"));
}

#[test]
fn query_selects_first_match() {
    let d = doc("a 1; b 2; b 3");
    let q = parse_query("b").unwrap();
    let n = d.query(&q).unwrap();
    assert!(matches!(n.entries[0].value, KdlValue::Integer(2)));
    let none = parse_query("c").unwrap();
    assert!(d.query(&none).is_none());
}

#[test]
fn unicode_escapes_in_strings() {
    let d = doc("a \"\\u{1F600}x\"");
    match &d.nodes[0].entries[0].value {
        KdlValue::String(s) => assert_eq!(s, "\u{1F600}x"),
        _ => panic!("expected a string"),
    }
    assert!("a \"\\u{D800}\"".parse::<KdlDocument>().is_err());
}

#[test]
fn date_formats_use_the_calendar() {
    let schema = KdlSchemaV2::parse("document { node \"d\" { arg { format date; }; }; }").unwrap();
    assert!(schema.validate(&doc("d \"2024-02-29\"")).is_empty());
    assert!(!schema.validate(&doc("d \"2023-02-29\"")).is_empty());
}

#[test]
fn patterns_use_regular_expressions() {
    let schema = KdlSchemaV2::parse("document { node \"c\" { arg { pattern \"^[a-z]+$\"; }; }; }").unwrap();
    assert!(schema.validate(&doc("c \"abc\"")).is_empty());
    assert_eq!(
        messages(&schema.validate(&doc("c \"abc1\""))),
        vec!["Value does not match pattern: ^[a-z]+$".to_string()]
    );
}

#[test]
fn formatted_text_lays_out_nodes() {
    let d = doc("(t)node \"a b\"   key=1 {child #true;}\nother 1.5 #null");
    assert_eq!(
        d.to_formatted_string(),
        "(t)node \"a b\" key=1 {\n    child #true\n}\nother 1.5 #null\n"
    );
}

#[test]
fn formatted_names_are_quoted_when_they_would_not_read_back() {
    let d = doc("\"my node\" \"123\"=1; \"true\"; \"12ab\"; @ksl:schema x");
    assert_eq!(
        d.to_formatted_string(),
        "\"my node\" \"123\"=1\n\"true\"\n\"12ab\"\n@ksl:schema \"x\"\n"
    );
}

#[test]
fn formatting_twice_changes_nothing() {
    let src = "a { b { c 1 2 key=\"v\\n\" }; d }; (ty)e";
    let once = doc(src).to_formatted_string();
    let twice = doc(&once).to_formatted_string();
    assert_eq!(once, twice);
}

#[test]
fn config_mappings_read_the_schemas_block() {
    let d = doc(
        r#"
other { mapping "x" schema="ignored.kdl" }
schemas {
    mapping "config/*.kdl" schema="schemas/config.kdl"
    mapping "no-schema.kdl"
    mapping 1 schema="bad.kdl"
    note "not a mapping"
    mapping "**/*.kdl" schema="/abs/all.kdl"
}
"#,
    );
    let ms = kdl::config::config_mappings(&d);
    let pairs: Vec<(String, String)> = ms.into_iter().map(|m| (m.pattern, m.schema)).collect();
    assert_eq!(
        pairs,
        vec![
            ("config/*.kdl".to_string(), "schemas/config.kdl".to_string()),
            ("**/*.kdl".to_string(), "/abs/all.kdl".to_string()),
        ]
    );
    assert!(kdl::config::config_mappings(&doc("schemas")).is_empty());
}

#[test]
fn formatted_strings_escape_what_a_document_cannot_hold() {
    let d = doc("a \"x\\u{2028}y\\u{1}z\\t\"");
    let text = d.to_formatted_string();
    assert_eq!(text, "a \"x\\u{2028}y\\u{1}z\\t\"\n");
    let again = doc(&text);
    match &again.nodes[0].entries[0].value {
        KdlValue::String(s) => assert_eq!(s, "x\u{2028}y\u{1}z\t"),
        _ => panic!("expected a string"),
    }
}

#[test]
fn positions_count_lines_and_columns() {
    let rope = ropey::Rope::from_str("ab\ncd\r\nef");
    assert_eq!(kdl::position::char_to_position(0, &rope), (0, 0));
    assert_eq!(kdl::position::char_to_position(4, &rope), (1, 1));
    assert_eq!(kdl::position::char_to_position(8, &rope), (2, 1));
    assert_eq!(kdl::position::char_to_position(100, &rope), (2, 93));
    let empty = ropey::Rope::from_str("");
    assert_eq!(kdl::position::char_to_position(3, &empty), (0, 3));
}

#[test]
fn formatted_names_read_back() {
    let d = doc("\"\" 1; \"a=b\" x=1; \"(t)\"");
    let text = d.to_formatted_string();
    assert_eq!(text, "\"\" 1\n\"a=b\" x=1\n\"(t)\"\n");
    let again = doc(&text);
    let names: Vec<&str> = again.nodes.iter().map(|n| n.name.value.as_str()).collect();
    assert_eq!(names, vec!["", "a=b", "(t)"]);
}

#[test]
fn disallowed_nodes_draw_one_error_each() {
    let schema = KdlSchemaV2::parse(
        "document { children { node \"ok\"; disallow { node \"bad\"; }; }; }",
    )
    .unwrap();
    let errs = schema.validate(&doc("bad; ok; bad"));
    assert_eq!(
        messages(&errs),
        vec![
            "Node 'bad' is not allowed here".to_string(),
            "Node 'bad' is not allowed here".to_string()
        ]
    );
    assert!(errs.iter().all(|e| e.severity == Severity::Error));
    assert!(schema.validate(&doc("ok")).is_empty());
}

#[test]
fn undefined_definitions_no_longer_match() {
    let schema = KdlSchemaV2::parse(
        "document { children { node \"a\"; node \"b\"; undefine { node \"b\"; }; disallow-others; }; }",
    )
    .unwrap();
    assert!(schema.validate(&doc("a")).is_empty());
    assert_eq!(messages(&schema.validate(&doc("b"))), vec!["Unknown node: 'b'".to_string()]);
}

#[test]
fn first_schema_form_example() {
    let schema_src = r#"
document {
    node "person" {
        min 1
        prop "name" {
            required #true
            type "string"
        }
        value {
            min 0
            max 1
            type "number"
        }
    }
}
"#;
    let schema = KdlSchema::parse(schema_src).expect("valid schema");
    let errors = schema.validate(&doc("person name=\"Alice\" 30"));
    assert!(errors.is_empty());
}

#[test]
fn second_schema_form_example() {
    let schema_src = r#"
document {
    node "person" {
        required
        prop "name" {
            required
            type string
        }
        arg {
            optional
            type number
        }
    }
}
"#;
    let schema = KdlSchemaV2::parse(schema_src).expect("valid schema");
    let errors = schema.validate(&doc("person name=\"Alice\" 30"));
    assert!(errors.is_empty());
}

#[test]
fn large_decimals_are_written_with_an_exponent() {
    let d = doc("a 1e40 1.5e3 -2.5e-3 0.0");
    let text = d.to_formatted_string();
    assert_eq!(text, "a 1E40 1500.0 -0.0025 0.0\n");
    let again = doc(&text);
    assert_eq!(again.to_formatted_string(), text);
}

#[test]
fn open_schema_accepts_any_document() {
    let schema =
        KdlSchema::parse("document {\n    other-nodes-allowed #true\n    other-tags-allowed #true\n}")
            .unwrap();
    let target = doc("(t)a 1 x=2 { b #null }\nc \"s\"\n(u)d");
    assert!(schema.validate(&target).is_empty());
    assert!(schema.validate(&doc("")).is_empty());
}

#[test]
fn a_result_has_errors_only_with_an_error_diagnostic() {
    let target = doc("node");
    let mut result = ValidationResult::new();
    assert!(!result.has_errors());
    let soft = SchemaDirective { path: "a.kdl".to_string(), span: SourceSpan { offset: 0, len: 4 }, warn_only: true };
    result.record(&target, &soft, "/x/a.kdl".to_string(), Err(KdlSchemaV2::read_failure("/x/a.kdl", "gone")));
    assert!(!result.has_errors());
    let hard = SchemaDirective { path: "b.kdl".to_string(), span: SourceSpan { offset: 0, len: 4 }, warn_only: false };
    result.record(&target, &hard, "/x/b.kdl".to_string(), Err(KdlSchemaV2::read_failure("/x/b.kdl", "gone")));
    assert!(result.has_errors());
}

#[test]
fn schemas_keep_the_parsed_document() {
    let v1 = "document {\n    node \"a\" { min 1 }\n    other-tags-allowed #true\n}";
    let s1 = KdlSchema::parse(v1).unwrap();
    assert_eq!(format!("{:?}", s1.document()), format!("{:?}", doc(v1)));
    let v2 = "@ksl:schema \"x\"\ndocument {\n    node \"b\" { required; arg { type string } }\n}";
    let s2 = KdlSchemaV2::parse(v2).unwrap();
    assert_eq!(format!("{:?}", s2.document()), format!("{:?}", doc(v2)));
}
