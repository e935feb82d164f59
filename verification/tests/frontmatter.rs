use lettersmith::doc::Doc;
use lettersmith::frontmatter::extract_front_matter_and_content;
use lettersmith::value::Value;

#[test]
fn test_extract_front_matter_and_content() {
    let input = "---
title: Test Document
date: 2023-04-14
tags: [test, example]
---

This is the main content of the document.
It can span multiple lines.";

    let (front_matter, content) = extract_front_matter_and_content(input);

    assert_eq!(
        front_matter,
        "title: Test Document\ndate: 2023-04-14\ntags: [test, example]"
    );
    assert_eq!(
        content,
        "This is the main content of the document.\nIt can span multiple lines."
    );
}

#[test]
fn test_extract_front_matter_and_content_no_frontmatter() {
    let input = "This is a document without front matter.";

    let (front_matter, content) = extract_front_matter_and_content(input);

    assert_eq!(front_matter, "");
    assert_eq!(content, "This is a document without front matter.");
}

#[test]
fn test_extract_front_matter_and_content_empty_frontmatter() {
    let input = "---\n\n---\nContent after empty front matter.";

    let (front_matter, content) = extract_front_matter_and_content(input);

    assert_eq!(front_matter, "");
    assert_eq!(content, "Content after empty front matter.");
}

#[test]
fn test_parse_frontmatter_reads_mapping() {
    let doc = Doc::draft("post.md")
        .set_content("---\ntitle: From Frontmatter\n---\nBody text.");

    let parsed = doc.parse_frontmatter();

    assert_eq!(parsed.content, "Body text.");
    let title = parsed.meta.get("title").unwrap();
    match title.as_str() {
        Some(s) => assert_eq!(s, "From Frontmatter"),
        None => panic!("title should be a string"),
    }
}

#[test]
fn test_parse_frontmatter_no_block_keeps_doc() {
    let doc = Doc::draft("post.md")
        .set_meta(Value::Str(String::from("sentinel")))
        .set_content("Plain content with no block.");

    let parsed = doc.parse_frontmatter();

    assert_eq!(parsed.content, "Plain content with no block.");
    match &parsed.meta {
        Value::Str(s) => assert_eq!(s, "sentinel"),
        _ => panic!("meta should be untouched"),
    }
}

#[test]
fn test_parse_frontmatter_bad_yaml_keeps_doc() {
    let doc = Doc::draft("post.md")
        .set_meta(Value::Bool(true))
        .set_content("---\n[ unclosed\n---\nBody.");

    let parsed = doc.parse_frontmatter();

    // A failed parse never half-consumes: metadata and content both stay.
    assert_eq!(parsed.content, "---\n[ unclosed\n---\nBody.");
    assert!(matches!(parsed.meta, Value::Bool(true)));
}

#[test]
fn test_parse_frontmatter_merges_into_meta() {
    let mut pairs: Vec<(String, Value)> = Vec::new();
    pairs.push((String::from("kept"), Value::Int(1)));
    pairs.push((String::from("title"), Value::Str(String::from("Old"))));
    let doc = Doc::draft("post.md")
        .set_meta(Value::Obj(pairs))
        .set_content("---\ntitle: New\n---\nBody.");

    let parsed = doc.parse_frontmatter();

    assert!(matches!(parsed.meta.get("kept"), Some(Value::Int(1))));
    let title = parsed.meta.get("title").unwrap();
    assert!(matches!(title.as_str(), Some(s) if s == "New"));
}

#[test]
fn test_parse_and_uplift_frontmatter_sets_fields() {
    let doc = Doc::draft("post.md").set_content(
        "---\ntitle: Lifted Title\nsummary: Lifted summary\ncreated: 2023-05-15T00:00:00Z\n---\nBody.",
    );

    let parsed = doc.parse_and_uplift_frontmatter();

    assert_eq!(parsed.title, "Lifted Title");
    assert_eq!(parsed.summary, "Lifted summary");
    assert_eq!(parsed.created.year, 2023);
    assert_eq!(parsed.created.month, 5);
    assert_eq!(parsed.created.day, 15);
    assert_eq!(parsed.content, "Body.");
}
