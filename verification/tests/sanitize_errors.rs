//! The sanitizer's bound, the error messages, and re-parse determinism.

use rssss::rss::{parse_rss, Rss};

fn parse_ok(doc: &str) -> Vec<Rss> {
    parse_rss(doc.as_bytes()).expect("document should parse")
}

fn rss2_with_description(description: &str) -> String {
    format!(
        "<rss version=\"2.0\"><channel><item><description>{}</description></item></channel></rss>",
        description
    )
}

#[test]
fn markup_is_stripped_from_description() {
    let doc = rss2_with_description("<![CDATA[<p>Hello <b>World</b></p>]]>");
    let entries = parse_ok(&doc);
    assert_eq!(entries[0].description, "Hello World");
}

#[test]
fn long_description_truncated_with_ellipsis() {
    let doc = rss2_with_description(&"a".repeat(600));
    let entries = parse_ok(&doc);
    let expected = format!("{}...", "a".repeat(500));
    assert_eq!(entries[0].description, expected);
    assert_eq!(entries[0].description.chars().count(), 503);
    assert!(entries[0].description.ends_with("..."));
}

#[test]
fn description_at_limit_unchanged() {
    let doc = rss2_with_description(&"b".repeat(500));
    let entries = parse_ok(&doc);
    assert_eq!(entries[0].description, "b".repeat(500));
}

#[test]
fn trim_removes_leading_and_trailing_whitespace() {
    assert_eq!(Rss::trim("  \t x y \n ".to_string()), "x y");
    assert_eq!(Rss::trim("plain".to_string()), "plain");
    assert_eq!(Rss::trim("   ".to_string()), "");
}

#[test]
fn rss_new_sanitizes_fields() {
    let entry = Rss::new(
        " A title ".to_string(),
        "<p>one</p><p>two</p>".to_string(),
        "http://x".to_string(),
        None,
    );
    assert_eq!(entry.title, "A title");
    assert_eq!(entry.description, "onetwo");
    assert_eq!(entry.link, "http://x");
    assert_eq!(entry.pub_date, None);
}

#[test]
fn malformed_root_reports_three_tagged_messages() {
    let doc = "<channel><item><title>T</title></item></channel>";
    let err = parse_rss(doc.as_bytes()).expect_err("no dialect should accept");
    assert_eq!(err.messages.len(), 3);
    assert_eq!(err.messages[0], "[RSS V2] invalid root element: channel");
    assert_eq!(err.messages[1], "[Atom] invalid root element: channel");
    assert_eq!(err.messages[2], "[RSS V1] invalid root element: channel");
    assert_ne!(err.messages[0], err.messages[1]);
    assert_ne!(err.messages[1], err.messages[2]);
    assert_ne!(err.messages[0], err.messages[2]);
}

#[test]
fn unsupported_rss_version_reported() {
    let doc = "<rss version=\"1.5\"><channel></channel></rss>";
    let err = parse_rss(doc.as_bytes()).expect_err("wrong version");
    assert_eq!(err.messages[0], "[RSS V2] unsupported RSS version: 1.5");
    assert_eq!(err.messages[1], "[Atom] invalid root element: rss");
    assert_eq!(err.messages[2], "[RSS V1] invalid root element: rss");
}

#[test]
fn missing_rss_version_reported() {
    let doc = "<rss><channel></channel></rss>";
    let err = parse_rss(doc.as_bytes()).expect_err("missing version");
    assert_eq!(err.messages[0], "[RSS V2] undefined RSS version");
}

#[test]
fn wrong_atom_namespace_reported() {
    let doc = "<feed xmlns=\"http://example.com/not-atom\"><entry/></feed>";
    let err = parse_rss(doc.as_bytes()).expect_err("wrong namespace");
    assert_eq!(err.messages[0], "[RSS V2] invalid root element: feed");
    assert_eq!(
        err.messages[1],
        "[Atom] invalid root namespace: http://example.com/not-atom"
    );
}

#[test]
fn unsupported_encoding_rejected() {
    let doc = "<?xml version=\"1.0\" encoding=\"ISO-8859-1\"?>\
        <rss version=\"2.0\"><channel></channel></rss>";
    let err = parse_rss(doc.as_bytes()).expect_err("bad encoding");
    assert_eq!(err.messages.len(), 3);
    assert_eq!(err.messages[0], "[RSS V2] unsupported encoding: ISO-8859-1");
    assert_eq!(err.messages[1], "[Atom] unsupported encoding: ISO-8859-1");
    assert_eq!(err.messages[2], "[RSS V1] unsupported encoding: ISO-8859-1");
}

#[test]
fn garbage_input_fails_every_dialect() {
    let err = parse_rss(b"this is not xml at all").expect_err("not xml");
    assert_eq!(err.messages.len(), 3);
}

#[test]
fn reparsing_same_bytes_yields_identical_entries() {
    let doc = "<rss version=\"2.0\"><channel>\
        <item><title>One</title><description>D1</description></item>\
        <item><title>Two</title><pubDate>2024</pubDate></item>\
        </channel></rss>";
    let first = parse_ok(doc);
    let second = parse_ok(doc);
    assert_eq!(first, second);
}

#[test]
fn reparsing_same_failure_yields_identical_messages() {
    let doc = "<nope/>";
    let e1 = parse_rss(doc.as_bytes()).expect_err("bad root");
    let e2 = parse_rss(doc.as_bytes()).expect_err("bad root");
    assert_eq!(e1.messages, e2.messages);
}

#[test]
fn unbalanced_document_fails_after_root_checks() {
    let doc = "<rss version=\"2.0\"><channel><item><title>T</title>";
    let err = parse_rss(doc.as_bytes()).expect_err("unbalanced");
    assert_eq!(err.messages.len(), 3);
    assert!(!err.messages[0].is_empty());
    assert_eq!(err.messages[1], "[Atom] invalid root element: rss");
    assert_eq!(err.messages[2], "[RSS V1] invalid root element: rss");
}

#[test]
fn encoding_case_is_ignored() {
    let doc = "<?xml version=\"1.0\" encoding=\"utf-8\"?>\
        <rss version=\"2.0\"><channel>\
        <item><title>T</title></item></channel></rss>";
    let entries = parse_ok(doc);
    assert_eq!(entries[0].title, "T");
}
