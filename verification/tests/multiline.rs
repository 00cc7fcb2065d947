use kdl::{KdlDocument, KdlValue};

fn first_string(src: &str) -> String {
    let doc = KdlDocument::parse(src).unwrap();
    match &doc.nodes[0].entries[0].value {
        KdlValue::String(s) => s.clone(),
        other => panic!("not a string: {:?}", other),
    }
}

fn failure(src: &str) -> (usize, String) {
    let e = KdlDocument::parse(src).unwrap_err();
    let d = &e.diagnostics[0];
    (d.span.offset, d.message.clone().unwrap_or_default())
}

#[test]
fn multiline_string_loses_the_closing_lines_indentation() {
    let src = "node \"\"\"\n    hello\n      world\n    \"\"\"\n";
    assert_eq!(first_string(src), "hello\n  world");
}

#[test]
fn multiline_string_without_indentation() {
    assert_eq!(first_string("node \"\"\"\nfoo\nbar\n\"\"\""), "foo\nbar");
}

#[test]
fn multiline_string_with_no_lines_is_empty() {
    assert_eq!(first_string("node \"\"\"\n\"\"\""), "");
    assert_eq!(first_string("node \"\"\"\n   \"\"\""), "");
}

#[test]
fn multiline_string_whitespace_only_lines_become_empty() {
    let src = "node \"\"\"\n  a\n \n\n  b\n  \"\"\"";
    assert_eq!(first_string(src), "a\n\n\nb");
}

#[test]
fn multiline_string_line_breaks_become_line_feeds() {
    let src = "node \"\"\"\r\n  a\r\n  b\r  c\n  \"\"\"";
    assert_eq!(first_string(src), "a\nb\nc");
}

#[test]
fn multiline_string_resolves_escapes_after_dedenting() {
    let src = "node \"\"\"\n  a\\tb \\u{41}\n  \\\"\\\"\\\" \\n  x\n  \"\"\"";
    assert_eq!(first_string(src), "a\tb A\n\"\"\" \n  x");
}

#[test]
fn multiline_string_takes_whitespace_escapes_out_first() {
    let src = "node \"\"\"\n  one \\\n     two\n  \"\"\"";
    assert_eq!(first_string(src), "one two");
}

#[test]
fn multiline_string_may_hold_single_and_double_quotes() {
    let src = "node \"\"\"\n  say \"hi\" and \"\"\n  \"\"\"";
    assert_eq!(first_string(src), "say \"hi\" and \"\"");
}

#[test]
fn raw_multiline_string_keeps_backslashes() {
    let src = "node #\"\"\"\n    C:\\path\\n\n      \"\"\" inside\n    \"\"\"#";
    assert_eq!(first_string(src), "C:\\path\\n\n  \"\"\" inside");
}

#[test]
fn raw_multiline_string_with_two_hashes() {
    let src = "node ##\"\"\"\n  a\"\"\"#\n  \"\"\"##";
    assert_eq!(first_string(src), "a\"\"\"#");
}

#[test]
fn multiline_strings_as_property_and_before_more_entries() {
    let doc = KdlDocument::parse("node key=\"\"\"\n  v\n  \"\"\" 2\nnext").unwrap();
    assert_eq!(doc.nodes.len(), 2);
    let node = &doc.nodes[0];
    assert_eq!(node.entries.len(), 2);
    assert_eq!(node.entries[0].name.as_ref().unwrap().value, "key");
    assert!(matches!(&node.entries[0].value, KdlValue::String(s) if s == "v"));
    assert!(matches!(&node.entries[1].value, KdlValue::Integer(2)));
    assert_eq!(doc.nodes[1].name.value, "next");
}

#[test]
fn multiline_string_must_start_with_a_line_break() {
    let (offset, message) = failure("node \"\"\"abc\"\"\"");
    assert_eq!(offset, 5);
    assert_eq!(message, "A multi-line string must start with a line break");
}

#[test]
fn multiline_string_must_close_on_its_own_line() {
    let (offset, message) = failure("node \"\"\"\n  abc\"\"\"");
    assert_eq!(offset, 5);
    assert_eq!(message, "A multi-line string must close on a line of its own");
}

#[test]
fn multiline_string_lines_need_the_closing_indentation() {
    let (offset, message) = failure("node \"\"\"\n  a\n b\n  \"\"\"");
    assert_eq!(offset, 5);
    assert_eq!(
        message,
        "Each line of a multi-line string must start with the indentation of its closing line"
    );
}

#[test]
fn multiline_string_indentation_must_match_exactly() {
    let (_, message) = failure("node \"\"\"\n\ta\n  \"\"\"");
    assert_eq!(
        message,
        "Each line of a multi-line string must start with the indentation of its closing line"
    );
}

#[test]
fn unterminated_multiline_string() {
    let src = "node \"\"\"\n  a\n";
    let (offset, message) = failure(src);
    assert_eq!(offset, src.chars().count());
    assert_eq!(message, "Unterminated string");
}

#[test]
fn multiline_string_with_a_bad_escape() {
    let (offset, message) = failure("node \"\"\"\n  \\q\n  \"\"\"");
    assert_eq!(offset, 5);
    assert_eq!(message, "Invalid escape sequence");
}

#[test]
fn whitespace_escape_into_the_closing_line_is_refused() {
    let (_, message) = failure("node \"\"\"\n  a \\\n  \"\"\"");
    assert_eq!(message, "A multi-line string must close on a line of its own");
}

#[test]
fn empty_quoted_string_is_still_a_string() {
    assert_eq!(first_string("node \"\" 1"), "");
    assert_eq!(first_string("node #\"\"#"), "");
}

#[test]
fn multiline_string_is_formatted_as_a_quoted_string_that_reads_back() {
    let d = KdlDocument::parse("node \"\"\"\n    hello\n      \"world\"\n    \"\"\"\n").unwrap();
    let text = d.to_formatted_string();
    assert_eq!(text, "node \"hello\\n  \\\"world\\\"\"\n");
    assert_eq!(first_string(&text), "hello\n  \"world\"");
}
