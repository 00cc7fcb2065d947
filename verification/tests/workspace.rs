use kdl::config::ConfigMapping;
use kdl::workspace::{
    config_load_failure_diag, config_schema_for, directive_load_failure_diag, glob_pattern_usable,
    schema_source_for, workspace_schema_for, SchemaChoice, WorkspaceConfig,
};
use kdl::{KdlDocument, Severity, SourceSpan};

fn mapping(pattern: &str, schema: &str) -> ConfigMapping {
    ConfigMapping { pattern: pattern.to_string(), schema: schema.to_string() }
}

fn workspace(root: &str, mappings: &[(&str, &str)]) -> WorkspaceConfig {
    WorkspaceConfig {
        root: root.to_string(),
        mappings: mappings.iter().map(|(p, s)| mapping(p, s)).collect(),
    }
}

fn doc(src: &str) -> KdlDocument {
    KdlDocument::parse(src).unwrap()
}

#[test]
fn first_matching_mapping_wins() {
    let ms = vec![
        mapping("*.json", "a.kdl"),
        mapping("config/*.kdl", "b.kdl"),
        mapping("**/*.kdl", "c.kdl"),
    ];
    assert_eq!(config_schema_for(&ms, "/proj", "/proj/config/app.kdl"), Some(1));
    assert_eq!(config_schema_for(&ms, "/proj", "/proj/other/x.kdl"), Some(2));
    assert_eq!(config_schema_for(&ms, "/proj", "/proj/x.txt"), None);
}

#[test]
fn patterns_match_the_path_relative_to_the_root() {
    let ms = vec![mapping("x.kdl", "s.kdl")];
    assert_eq!(config_schema_for(&ms, "/proj", "/proj/x.kdl"), Some(0));
    assert_eq!(config_schema_for(&ms, "/other", "/proj/x.kdl"), None);
}

#[test]
fn patterns_match_the_whole_path_too() {
    let ms = vec![mapping("/abs/*.kdl", "s.kdl")];
    assert_eq!(config_schema_for(&ms, "/proj", "/abs/x.kdl"), Some(0));
}

#[test]
fn an_invalid_pattern_never_matches() {
    let ms = vec![mapping("a[", "bad.kdl"), mapping("a*", "good.kdl")];
    assert_eq!(config_schema_for(&ms, "/proj", "/proj/a["), Some(1));
    assert_eq!(config_schema_for(&vec![mapping("a[", "bad.kdl")], "/proj", "/proj/a["), None);
}

#[test]
fn workspaces_are_tried_in_order_and_schemas_resolved_against_their_root() {
    let ws = vec![
        workspace("/a", &[("*.kdl", "s1.kdl")]),
        workspace("/b", &[("**", "/abs/s2.kdl")]),
    ];
    assert_eq!(workspace_schema_for(&ws, "/b/x.txt"), Some("/abs/s2.kdl".to_string()));
    assert_eq!(workspace_schema_for(&ws, "/a/x.kdl"), Some("/a/s1.kdl".to_string()));
    assert_eq!(workspace_schema_for(&ws, "/b/x.kdl"), Some("/a/s1.kdl".to_string()));
    assert_eq!(workspace_schema_for(&Vec::new(), "/b/x.kdl"), None);
}

#[test]
fn directives_are_resolved_against_the_documents_directory() {
    let d = doc("@ksl:schema \"schemas/s.kdl\" \"/abs/t.kdl\" warn-only=#true\nnode");
    let ws = vec![workspace("/proj", &[("**", "other.kdl")])];
    match schema_source_for(&d, "file:///proj/docs/a.kdl", &ws) {
        SchemaChoice::Directives(ds) => {
            assert_eq!(ds.len(), 2);
            assert_eq!(ds[0].path, "/proj/docs/schemas/s.kdl");
            assert!(ds[0].relative);
            assert!(ds[0].warn_only);
            assert_eq!(ds[0].span, d.nodes[0].span);
            assert_eq!(ds[1].path, "/abs/t.kdl");
            assert!(!ds[1].relative);
        }
        other => panic!("unexpected: {:?}", other),
    }
}

#[test]
fn uri_paths_are_percent_decoded() {
    let d = doc("@ksl:schema \"s.kdl\"");
    match schema_source_for(&d, "file:///proj/my%20docs/a.kdl", &Vec::new()) {
        SchemaChoice::Directives(ds) => assert_eq!(ds[0].path, "/proj/my docs/s.kdl"),
        other => panic!("unexpected: {:?}", other),
    }
}

#[test]
fn without_directives_the_workspace_mapping_applies() {
    let ws = vec![workspace("/proj", &[("config/*.kdl", "schemas/c.kdl")])];
    match schema_source_for(&doc("node"), "file:///proj/config/app.kdl", &ws) {
        SchemaChoice::ConfigFile(p) => assert_eq!(p, "/proj/schemas/c.kdl"),
        other => panic!("unexpected: {:?}", other),
    }
    assert!(matches!(
        schema_source_for(&doc("node"), "file:///elsewhere/x.txt", &ws),
        SchemaChoice::Absent
    ));
}

#[test]
fn a_uri_that_names_no_local_file_gets_no_schema() {
    let ws = vec![workspace("/proj", &[("**", "s.kdl")])];
    let d = doc("@ksl:schema \"s.kdl\"");
    assert!(matches!(schema_source_for(&d, "untitled:Untitled-1", &ws), SchemaChoice::Absent));
    assert!(matches!(schema_source_for(&d, "file://host/proj/x.kdl", &ws), SchemaChoice::Absent));
    assert!(matches!(schema_source_for(&d, "not a uri", &ws), SchemaChoice::Absent));
}

#[test]
fn patterns_beyond_the_limits_match_nothing() {
    let deep = format!("{}x{}", "{a,".repeat(65), "}".repeat(65));
    assert!(!glob_pattern_usable(&deep));
    assert!(glob_pattern_usable(&format!("{}x{}", "{a,".repeat(64), "}".repeat(64))));
    let long = format!("{}*", "a".repeat(1024));
    assert!(!glob_pattern_usable(&long));
    let longest = format!("{}*", "a".repeat(1023));
    assert!(glob_pattern_usable(&longest));
    let ms = vec![mapping(&deep, "deep.kdl"), mapping(&long, "long.kdl"), mapping("**", "any.kdl")];
    let path = format!("/proj/{}", "a".repeat(1030));
    assert_eq!(config_schema_for(&ms, "/proj", &path), Some(2));
    let fine = vec![mapping(&longest, "s.kdl")];
    assert_eq!(config_schema_for(&fine, "/proj", &path), Some(0));
}

#[test]
fn sixty_four_nested_groups_still_match() {
    let nested = format!("{}x{}", "{a,".repeat(64), "}".repeat(64));
    let ms = vec![mapping(&nested, "s.kdl")];
    assert_eq!(config_schema_for(&ms, "/proj", "/proj/x"), Some(0));
    assert_eq!(config_schema_for(&ms, "/proj", "/proj/a"), Some(0));
    assert_eq!(config_schema_for(&ms, "/proj", "/proj/b"), None);
}

#[test]
fn load_failures_in_the_editor() {
    let span = SourceSpan { offset: 3, len: 7 };
    let d = directive_load_failure_diag(span, false, "Failed to read schema file 'x': gone");
    assert_eq!(d.span, span);
    assert_eq!(d.severity, Severity::Error);
    assert_eq!(d.message.as_deref(), Some("Failed to load schema: Failed to read schema file 'x': gone"));
    assert_eq!(d.label, None);
    assert_eq!(d.help, None);
    let w = directive_load_failure_diag(span, true, "bad");
    assert_eq!(w.severity, Severity::Warning);
    let c = config_load_failure_diag("/s/c.kdl", "bad");
    assert_eq!(c.span, SourceSpan { offset: 0, len: 1 });
    assert_eq!(c.severity, Severity::Warning);
    assert_eq!(c.message.as_deref(), Some("Failed to load schema '/s/c.kdl': bad"));
}
