use kdl::tracking::SchemaIndex;

fn sorted(mut v: Vec<String>) -> Vec<String> {
    v.sort();
    v.dedup();
    v
}

#[test]
fn tracked_documents_are_listed_under_their_schema() {
    let mut index = SchemaIndex::new();
    index.track("file:///a.kdl", Some("/s/one.kdl"));
    index.track("file:///b.kdl", Some("/s/one.kdl"));
    index.track("file:///c.kdl", None);
    assert_eq!(index.schema_of_document("file:///a.kdl"), Some("/s/one.kdl".to_string()));
    assert_eq!(index.schema_of_document("file:///c.kdl"), None);
    assert_eq!(
        sorted(index.documents_using("/s/one.kdl")),
        vec!["file:///a.kdl".to_string(), "file:///b.kdl".to_string()]
    );
    assert!(index.documents_using("/s/other.kdl").is_empty());
}

#[test]
fn retracking_moves_a_document_to_its_new_schema() {
    let mut index = SchemaIndex::new();
    index.track("file:///a.kdl", Some("/s/one.kdl"));
    index.track("file:///a.kdl", Some("/s/two.kdl"));
    assert!(index.documents_using("/s/one.kdl").is_empty());
    assert_eq!(index.documents_using("/s/two.kdl"), vec!["file:///a.kdl".to_string()]);
    index.track("file:///a.kdl", Some("/s/two.kdl"));
    assert_eq!(index.documents_using("/s/two.kdl"), vec!["file:///a.kdl".to_string()]);
    index.track("file:///a.kdl", None);
    assert!(index.documents_using("/s/two.kdl").is_empty());
    assert_eq!(index.schema_of_document("file:///a.kdl"), None);
}

#[test]
fn untracking_removes_a_document_from_both_sides() {
    let mut index = SchemaIndex::new();
    index.track("file:///a.kdl", Some("/s/one.kdl"));
    index.track("file:///b.kdl", Some("/s/one.kdl"));
    index.untrack("file:///a.kdl");
    assert_eq!(index.schema_of_document("file:///a.kdl"), None);
    assert_eq!(index.documents_using("/s/one.kdl"), vec!["file:///b.kdl".to_string()]);
    index.untrack("file:///never.kdl");
    assert_eq!(index.documents_using("/s/one.kdl"), vec!["file:///b.kdl".to_string()]);
}
