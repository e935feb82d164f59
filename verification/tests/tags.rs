use lettersmith::doc::Doc;
use lettersmith::json::to_json_string;
use lettersmith::tags::generate_tag_archives;
use lettersmith::tags::generate_tag_index_doc;
use lettersmith::tags::get_union_for_index_keys;
use lettersmith::tags::index_by_tag;
use lettersmith::tags::to_tag;
use lettersmith::value::Value;

fn tagged_doc(id: &str, tags: Vec<&str>) -> Doc {
    let mut items: Vec<Value> = Vec::new();
    for t in tags {
        items.push(Value::Str(String::from(t)));
    }
    let mut pairs: Vec<(String, Value)> = Vec::new();
    pairs.push((String::from("tags"), Value::Arr(items)));
    Doc::draft(id).set_meta(Value::Obj(pairs))
}

#[test]
fn test_to_tag() {
    assert_eq!(to_tag("  Deep Thoughts  "), "deep_thoughts");
    assert_eq!(to_tag("News!"), "news");
    assert_eq!(to_tag("a b c"), "a_b_c");
}

#[test]
fn test_get_meta_tags_dedupes() {
    let doc = tagged_doc("a.md", vec!["News", "news", "Life"]);
    let tags = doc.get_meta_tags("tags");
    assert_eq!(tags, vec![String::from("news"), String::from("life")]);
}

#[test]
fn test_index_by_tag_buckets() {
    let docs = vec![
        tagged_doc("a.md", vec!["x", "y"]),
        tagged_doc("b.md", vec!["y"]),
        tagged_doc("c.md", vec!["z"]),
    ];

    let index = index_by_tag(&docs, "tags");

    assert_eq!(index.len(), 3);
    assert_eq!(index[0].0, "x");
    assert_eq!(index[0].1.len(), 1);
    assert_eq!(index[1].0, "y");
    assert_eq!(index[1].1.len(), 2);
    assert_eq!(index[1].1[0].id_path, "a.md");
    assert_eq!(index[1].1[1].id_path, "b.md");
    assert_eq!(index[2].0, "z");
}

#[test]
fn test_related_union_excludes_self() {
    // A(tags: x, y), B(tags: y), C(tags: z): related-for(A) without A is
    // exactly B, and related-for(C) without C is empty.
    let a = tagged_doc("a.md", vec!["x", "y"]);
    let b = tagged_doc("b.md", vec!["y"]);
    let c = tagged_doc("c.md", vec!["z"]);
    let docs = vec![a.clone(), b.clone(), c.clone()];
    let index = index_by_tag(&docs, "tags");

    let related_a = a.get_related_from_tag_index("tags", &index);
    assert_eq!(related_a.len(), 1);
    assert_eq!(related_a[0].id_path, "b.md");

    let related_c = c.get_related_from_tag_index("tags", &index);
    assert_eq!(related_c.len(), 0);
}

#[test]
fn test_union_for_index_keys_orders_and_dedupes() {
    let docs = vec![
        tagged_doc("a.md", vec!["x", "y"]),
        tagged_doc("b.md", vec!["y"]),
    ];
    let index = index_by_tag(&docs, "tags");
    let keys = vec![String::from("y"), String::from("x")];

    let union = get_union_for_index_keys(&index, &keys);

    assert_eq!(union.len(), 2);
    assert_eq!(union[0].id_path, "a.md");
    assert_eq!(union[1].id_path, "b.md");
}

#[test]
fn test_generate_tag_archives_end_to_end() {
    // Three source documents; only the tagged ones land in archives, and
    // one archive page appears for each term.
    let docs = vec![
        tagged_doc("posts/a.md", vec!["news"]),
        tagged_doc("posts/b.md", vec!["news", "life"]),
        Doc::draft("pages/about.md"),
    ];

    let archives = generate_tag_archives(&docs, "tags", "tags/{term}/index.html", None);

    assert_eq!(archives.len(), 2);
    assert_eq!(archives[0].title, "news");
    assert_eq!(archives[0].output_path, "tags/news/index.html");
    let items = archives[0].meta.get("items").unwrap();
    match items {
        Value::Arr(members) => {
            assert_eq!(members.len(), 2);
            let first = members[0].get("id_path").unwrap();
            assert!(matches!(first.as_str(), Some(p) if p == "posts/a.md"));
            let second = members[1].get("id_path").unwrap();
            assert!(matches!(second.as_str(), Some(p) if p == "posts/b.md"));
        },
        _ => panic!("items should be an array"),
    }
    assert_eq!(archives[1].title, "life");
    assert_eq!(archives[1].output_path, "tags/life/index.html");
    match archives[1].meta.get("items").unwrap() {
        Value::Arr(members) => assert_eq!(members.len(), 1),
        _ => panic!("items should be an array"),
    }
}

#[test]
fn test_generate_tag_index_doc_serializes_index() {
    let docs = vec![tagged_doc("a.md", vec!["news"])];

    let doc = generate_tag_index_doc(&docs, "tags", "data/tags.json").unwrap();

    assert_eq!(doc.id_path, "data/tags.json");
    assert_eq!(doc.title, "tags");
    assert!(doc.content.starts_with("{\"news\":[{\"id_path\":\"a.md\""));
}

#[test]
fn test_to_json_string_exact() {
    let mut pairs: Vec<(String, Value)> = Vec::new();
    pairs.push((String::from("a"), Value::Int(-7)));
    pairs.push((
        String::from("b"),
        Value::Arr(vec![Value::Null, Value::Bool(true), Value::Str(String::from("x\"y"))]),
    ));
    let v = Value::Obj(pairs);
    assert_eq!(to_json_string(&v), "{\"a\":-7,\"b\":[null,true,\"x\\\"y\"]}");
}
