use lettersmith::doc::Doc;
use lettersmith::permalink::sluggify_path;
use lettersmith::permalink::to_nice_path;
use lettersmith::time::Time;
use lettersmith::token_template;

fn created_2023_05_15() -> Time {
    Time { year: 2023, month: 5, day: 15, secs: 0 }
}

fn part_of(parts: &Vec<(String, String)>, key: &str) -> Option<String> {
    for (k, v) in parts {
        if k == key {
            return Some(v.clone());
        }
    }
    None
}

#[test]
fn test_get_permalink_template_parts() {
    let doc = Doc::draft("a/b/test file.md").set_created(created_2023_05_15());

    let parts = doc.get_permalink_template_parts().unwrap();

    assert_eq!(part_of(&parts, "name"), Some(String::from("test file.md")));
    assert_eq!(part_of(&parts, "stem"), Some(String::from("test file")));
    assert_eq!(part_of(&parts, "slug"), Some(String::from("test-file")));
    assert_eq!(part_of(&parts, "ext"), Some(String::from("md")));
    assert_eq!(part_of(&parts, "parents"), Some(String::from("a/b")));
    assert_eq!(part_of(&parts, "parent"), Some(String::from("b")));
    assert_eq!(part_of(&parts, "yyyy"), Some(String::from("2023")));
    assert_eq!(part_of(&parts, "yy"), Some(String::from("23")));
    assert_eq!(part_of(&parts, "mm"), Some(String::from("05")));
    assert_eq!(part_of(&parts, "dd"), Some(String::from("15")));
}

#[test]
fn test_permalink() {
    let doc = Doc::draft("parent/test_file.md").set_created(created_2023_05_15());

    let permalink_doc = doc.set_permalink("{yyyy}/{mm}/{dd}/{stem}/index.html");
    assert_eq!(permalink_doc.output_path, "2023/05/15/test_file/index.html");
}

#[test]
fn test_permalink_renders_slug_and_year() {
    let doc = Doc::draft("posts/Test File.md").set_created(created_2023_05_15());

    let rendered = doc.set_permalink("{yyyy}/{slug}/index.html");
    assert_eq!(rendered.output_path, "2023/test-file/index.html");
}

#[test]
fn test_permalink_root_doc_keeps_tokens_verbatim() {
    // A root-level document has no parent, so the parts map is empty and
    // every token stays as written.
    let doc = Doc::draft("Test File.md").set_created(created_2023_05_15());

    let rendered = doc.set_permalink("{yyyy}/{slug}/{parent}/index.html");
    assert_eq!(rendered.output_path, "{yyyy}/{slug}/{parent}/index.html");
}

#[test]
fn test_nice_path() {
    let nice = to_nice_path("foo bar/Baz/Some.md").unwrap();
    assert_eq!(nice, "foo-bar/baz/some/index.html");
}

#[test]
fn test_nice_path_index() {
    let nice = to_nice_path("foo bar/Baz/index.md").unwrap();
    assert_eq!(nice, "foo-bar/baz/index.html");
}

#[test]
fn test_sluggify_path() {
    let sluggified_path = sluggify_path("Foo bar/baZ/INDEX.md");
    assert_eq!(sluggified_path, "foo-bar/baz/index.md");
}

#[test]
fn test_render_with_substitutions() {
    let mut parts: Vec<(String, String)> = Vec::new();
    parts.push((String::from("name"), String::from("Alice")));
    parts.push((String::from("age"), String::from("30")));

    let template = "Hello, :name! You are :age years old.";
    let result = token_template::render(template, &parts);

    assert_eq!(result, "Hello, Alice! You are 30 years old.");
}

#[test]
fn test_render_with_missing_substitutions() {
    let mut parts: Vec<(String, String)> = Vec::new();
    parts.push((String::from("name"), String::from("Bob")));

    let template = "Hello, :name! Your email is :email.";
    let result = token_template::render(template, &parts);

    assert_eq!(result, "Hello, Bob! Your email is :email.");
}

#[test]
fn test_render_with_empty_template() {
    let parts: Vec<(String, String)> = Vec::new();
    let template = "";
    let result = token_template::render(template, &parts);

    assert_eq!(result, "");
}

#[test]
fn test_render_with_empty_hashmap() {
    let parts: Vec<(String, String)> = Vec::new();
    let template = "This is a :test template.";
    let result = token_template::render(template, &parts);

    assert_eq!(result, "This is a :test template.");
}
