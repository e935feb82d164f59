use lettersmith::absolutize::absolutize_urls_in_html;
use lettersmith::absolutize::qualify_url;
use lettersmith::doc::Doc;

#[test]
fn test_qualify_url() {
    assert_eq!(
        qualify_url("/path", "https://example.com"),
        "https://example.com/path"
    );
    assert_eq!(
        qualify_url("https://other.com", "https://example.com"),
        "https://other.com"
    );
    assert_eq!(
        qualify_url("/path", "https://example.com/"),
        "https://example.com/path"
    );
}

#[test]
fn test_absolutize_urls_in_html() {
    let html = "<a href=\"/relative\">Link</a><img src=\"https://absolute.com/image.jpg\">";
    let base_url = "https://example.com";
    let expected =
        "<a href=\"https://example.com/relative\">Link</a><img src=\"https://absolute.com/image.jpg\">";
    assert_eq!(absolutize_urls_in_html(html, base_url), expected);
}

#[test]
fn test_doc_absolutize_urls() {
    let doc = Doc::draft("test.md")
        .set_output_path("test.html")
        .set_title("Test")
        .set_content("<a href='/relative'>Link</a>");
    let base_url = "https://example.com";
    let expected_content = "<a href=\"https://example.com/relative\">Link</a>";
    let absolutized = doc.absolutize_urls(base_url);
    assert_eq!(absolutized.content, expected_content);
}
