use lettersmith::doc::Doc;
use lettersmith::html::strip_html;
use lettersmith::markdown::render_markdown;
use lettersmith::markdown::strip_markdown;

#[test]
fn test_render_markdown() {
    let input = "# Hello\n\nThis is a **test**";
    let expected = "<h1>Hello</h1>\n<p>This is a <strong>test</strong></p>\n";
    assert_eq!(render_markdown(input), expected);
}

#[test]
fn test_strip_markdown() {
    let input = "# Hello\n\nThis is a **test**";
    let expected = "Hello\nThis is a test\n";
    assert_eq!(strip_markdown(input), expected);
}

#[test]
fn test_doc_render_markdown() {
    let doc = Doc::draft("test.md").set_content("# Test");
    let rendered = doc.render_markdown();
    assert_eq!(rendered.content, "<h1>Test</h1>\n");
}

#[test]
fn test_markdown_docs_render() {
    let docs = vec![
        Doc::draft("foo.md").set_content("# One"),
        Doc::draft("bar.md").set_content("## Two"),
    ];
    let rendered: Vec<Doc> = docs.into_iter().map(|doc| doc.render_markdown()).collect();
    assert_eq!(rendered[0].content, "<h1>One</h1>\n");
    assert_eq!(rendered[1].content, "<h2>Two</h2>\n");
}

#[test]
fn test_strip_html_tags() {
    assert_eq!(strip_html("<p>Hello <b>world</b></p>"), "Hello world");
    assert_eq!(strip_html("no tags at all"), "no tags at all");
    assert_eq!(strip_html("a < b and c > d"), "a  d");
}

#[test]
fn test_doc_render_markdown_auto_summary() {
    let doc = Doc::draft("test.md").set_content("Plain words here.");
    let rendered = doc.render_markdown();
    assert_eq!(rendered.summary, "Plain words here.");
}
