use lettersmith::doc::Doc;
use lettersmith::wikilink::Wikilink;
use lettersmith::wikilink::find_wikilinks;
use lettersmith::wikilink::index_by_title_slug;
use lettersmith::wikilink::parse_wikilink;
use lettersmith::wikilink::render_wikilinks_with_template;
use lettersmith::wikilink::render_wikilinks_between;
use lettersmith::wikilink::strip_wikilinks;

#[test]
fn test_parse_wikilink() {
    let wikilink = parse_wikilink("[[Page Name]]");
    assert_eq!(wikilink.text, "Page Name");
    assert_eq!(wikilink.slug, "page-name");

    let wikilink = parse_wikilink("[[slug|Display Text]]");
    assert_eq!(wikilink.text, "Display Text");
    assert_eq!(wikilink.slug, "slug");
}

#[test]
fn test_find_wikilinks() {
    let text = "This is a [[wikilink]] and another [[link|Custom Text]].";
    let wikilinks: Vec<Wikilink> = find_wikilinks(text);

    assert_eq!(wikilinks.len(), 2);
    assert_eq!(wikilinks[0].text, "wikilink");
    assert_eq!(wikilinks[0].slug, "wikilink");
    assert_eq!(wikilinks[1].text, "Custom Text");
    assert_eq!(wikilinks[1].slug, "link");
}

#[test]
fn test_strip_wikilinks() {
    let text = "This is a [[wikilink]] and a [[link|Custom Text]].";
    let stripped = strip_wikilinks(text);
    assert_eq!(stripped, "This is a wikilink and a Custom Text.");
}

#[test]
fn test_strip_wikilinks_round_trip() {
    assert_eq!(strip_wikilinks("[[a|B]] text"), "B text");
}

#[test]
fn test_strip_wikilinks_transclude_line() {
    assert_eq!(strip_wikilinks("[[whole line]]"), "");
}

#[test]
fn test_render_wikilinks_link() {
    let text = "This is a [[wikilink]] and a [[link|Custom Text]].";

    let mut slug_to_stub_index: Vec<(String, Doc)> = Vec::new();
    slug_to_stub_index.push((String::from("wikilink"), Doc::draft("wikilink.html")));
    slug_to_stub_index.push((String::from("link"), Doc::draft("custom-text.html")));

    let rendered = render_wikilinks_with_template(
        text,
        "<a class=\"wikilink\" href=\"{slug}.html\">{text}</a>",
        "<span class=\"nolink\">{text}</span>",
        &slug_to_stub_index,
    );
    assert_eq!(
        rendered,
        "This is a <a class=\"wikilink\" href=\"wikilink.html\">wikilink</a> and a <a class=\"wikilink\" href=\"link.html\">Custom Text</a>."
    );
}

#[test]
fn test_render_wikilinks_nolink() {
    let text = "This is a [[wikilink]] and a [[link|Custom Text]].";
    let rendered = render_wikilinks_with_template(
        text,
        "<a class=\"wikilink\" href=\\\"{slug}.html\\\">{text}</a>",
        "<span class=\"nolink\">{text}</span>",
        &Vec::new(),
    );
    assert_eq!(
        rendered,
        "This is a <span class=\"nolink\">wikilink</span> and a <span class=\"nolink\">Custom Text</span>."
    );
}

#[test]
fn test_find_wikilinks_empty() {
    let text = "This text has no wikilinks.";
    let wikilinks: Vec<Wikilink> = find_wikilinks(text);
    assert_eq!(wikilinks.len(), 0);
}

#[test]
fn test_resolve_wikilinks_found_and_dangling() {
    let index = index_by_title_slug(vec![Doc::draft("a.html").set_title("a")]);

    let linked = render_wikilinks_with_template(
        "[[a|B]] text",
        "<a href=\"{output_path}\">{text}</a>",
        "<span>{text}</span>",
        &index,
    );
    assert_eq!(linked, "<a href=\"a.html\">B</a> text");

    let dangling = render_wikilinks_with_template(
        "[[a|B]] text",
        "<a href=\"{output_path}\">{text}</a>",
        "<span>{text}</span>",
        &Vec::new(),
    );
    assert_eq!(dangling, "<span>B</span> text");
}

#[test]
fn test_render_wikilinks_between_collection() {
    let docs = vec![
        Doc::draft("one.md")
            .set_title("First Post")
            .set_content("See [[Second Post]]."),
        Doc::draft("two.md")
            .set_title("Second Post")
            .set_content("See [[First Post]] and [[Missing]]."),
    ];

    let rendered = render_wikilinks_between(docs);

    assert_eq!(
        rendered[0].content,
        "See <a class=\"wikilink\" href=\"two.md\">Second Post</a>."
    );
    assert_eq!(
        rendered[1].content,
        "See <a class=\"wikilink\" href=\"one.md\">First Post</a> and <span class=\"nolink\">Missing</span>."
    );
}

#[test]
fn test_doc_get_summary_wiki_html() {
    let doc = Doc::draft("a.md")
        .set_content("Intro with a [[link|name]] and <b>bold</b>. More text.");
    assert_eq!(doc.get_summary_wiki_html(), "Intro with a name and bold");
}
