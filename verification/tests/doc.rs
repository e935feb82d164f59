use lettersmith::doc::Doc;
use lettersmith::stub::Stub;
use lettersmith::stub::stubs;
use lettersmith::time::Time;
use lettersmith::value::Value;
use lettersmith::value::get_deep;

fn obj(pairs: Vec<(&str, Value)>) -> Value {
    let mut out: Vec<(String, Value)> = Vec::new();
    for (k, v) in pairs {
        out.push((String::from(k), v));
    }
    Value::Obj(out)
}

fn s(text: &str) -> Value {
    Value::Str(String::from(text))
}

#[test]
fn test_new() {
    let doc = Doc::new(
        String::from("test.md"),
        String::from("test.html"),
        None,
        None,
        Time::now(),
        Time::now(),
        String::from("Test Title"),
        String::from("Test Summary"),
        String::from("Test Content"),
        Value::Null,
    );

    assert_eq!(doc.title, "Test Title");
    assert_eq!(doc.summary, "Test Summary");
    assert_eq!(doc.content, "Test Content");
}

#[test]
fn test_draft() {
    let doc = Doc::draft("test.md");
    assert_eq!(doc.id_path, "test.md");
    assert_eq!(doc.output_path, "test.md");
    assert!(doc.input_path.is_none());
    assert!(doc.template_path.is_none());
}

#[test]
fn test_title_slug() {
    let doc = Doc::draft("test.md").set_title("My Test Title");
    assert_eq!(doc.get_title_slug(), "my-test-title");
}

#[test]
fn test_auto_template() {
    let doc = Doc::draft("posts/test.md").auto_template();
    assert_eq!(doc.template_path, Some(String::from("posts.html")));

    let doc = Doc::draft("test.md").auto_template();
    assert_eq!(doc.template_path, Some(String::from("default.html")));
}

#[test]
fn test_uplift_meta() {
    let meta = obj(vec![
        ("title", s("Meta Title")),
        ("summary", s("Meta Summary")),
        ("permalink", s("meta.html")),
        ("template", s("meta.html")),
    ]);

    let doc = Doc::draft("test.md").set_meta(meta).uplift_meta();

    assert_eq!(doc.title, "Meta Title");
    assert_eq!(doc.summary, "Meta Summary");
    assert_eq!(doc.output_path, "meta.html");
    assert_eq!(doc.template_path, Some(String::from("meta.html")));
}

#[test]
fn test_uplift_meta_parses_created() {
    let meta = obj(vec![("created", s("2023-05-15T06:30:00Z"))]);

    let doc = Doc::draft("test.md").set_meta(meta).uplift_meta();

    assert_eq!(
        doc.created,
        Time { year: 2023, month: 5, day: 15, secs: 6 * 3600 + 30 * 60 }
    );
}

#[test]
fn test_merge_meta() {
    let initial = obj(vec![("a", Value::Int(1)), ("b", obj(vec![("c", Value::Int(2))]))]);
    let patch = obj(vec![("b", obj(vec![("d", Value::Int(3))]))]);

    let doc = Doc::draft("test.md").set_meta(initial).merge_meta(patch);

    assert!(matches!(doc.meta.get("a"), Some(Value::Int(1))));
    let b = doc.meta.get("b").unwrap();
    assert!(matches!(b.get("c"), Some(Value::Int(2))));
    assert!(matches!(b.get("d"), Some(Value::Int(3))));
}

#[test]
fn test_merge_meta_null_deletes() {
    let initial = obj(vec![("keep", Value::Int(1)), ("drop", Value::Int(2))]);
    let patch = obj(vec![("drop", Value::Null)]);

    let doc = Doc::draft("test.md").set_meta(initial).merge_meta(patch);

    assert!(matches!(doc.meta.get("keep"), Some(Value::Int(1))));
    assert!(doc.meta.get("drop").is_none());
}

#[test]
fn test_get_deep() {
    let json = obj(vec![
        ("a", obj(vec![("b", obj(vec![("c", s("value"))]))])),
        ("x", Value::Int(42)),
    ]);

    assert!(matches!(get_deep(&json, "a.b.c"), Some(Value::Str(v)) if v == "value"));
    assert!(matches!(get_deep(&json, "x"), Some(Value::Int(42))));
    assert!(matches!(get_deep(&json, "a.b"), Some(Value::Obj(_))));
    assert!(get_deep(&json, "nonexistent").is_none());
    assert!(get_deep(&json, "a.nonexistent").is_none());
}

#[test]
fn test_stub_from_doc() {
    let doc = Doc::new(
        String::from("test/path"),
        String::from("output/path"),
        None,
        None,
        Time::now(),
        Time::now(),
        String::from("Test Title"),
        String::new(),
        String::from("Test content"),
        obj(vec![("summary", s("Test summary"))]),
    );

    let doc = doc.uplift_meta();

    let stub = Stub::from(&doc);

    assert_eq!(stub.id_path, doc.id_path);
    assert_eq!(stub.output_path, doc.output_path);
    assert_eq!(stub.created, doc.created);
    assert_eq!(stub.modified, doc.modified);
    assert_eq!(stub.title, doc.title);
    assert_eq!(stub.summary, "Test summary");
}

#[test]
fn test_stubs_iterator() {
    let docs = vec![
        Doc::new(
            String::from("test/path1"),
            String::from("output/path1"),
            None,
            None,
            Time::now(),
            Time::now(),
            String::from("Test Title 1"),
            String::new(),
            String::from("Test content 1"),
            obj(vec![]),
        ),
        Doc::new(
            String::from("test/path2"),
            String::from("output/path2"),
            None,
            None,
            Time::now(),
            Time::now(),
            String::from("Test Title 2"),
            String::new(),
            String::from("Test content 2"),
            obj(vec![]),
        ),
    ];

    let stubs: Vec<Stub> = stubs(&docs);

    assert_eq!(stubs.len(), 2);
    assert_eq!(stubs[0].title, "Test Title 1");
    assert_eq!(stubs[1].title, "Test Title 2");
}

#[test]
fn test_set_summary_if_empty_keeps_existing() {
    let doc = Doc::draft("a.md").set_summary("kept").set_summary_if_empty("new");
    assert_eq!(doc.summary, "kept");

    let doc = Doc::draft("a.md").set_summary_if_empty("new");
    assert_eq!(doc.summary, "new");
}
