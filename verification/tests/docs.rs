use lettersmith::doc::Doc;
use lettersmith::docs::SortKey;
use lettersmith::docs::dedupe;
use lettersmith::docs::filter_matching;
use lettersmith::docs::most_recent;
use lettersmith::docs::panic_at_first_error;
use lettersmith::docs::remove_drafts;
use lettersmith::docs::remove_index;
use lettersmith::docs::remove_with_id_path;
use lettersmith::docs::set_extension;
use lettersmith::docs::sorted_by;
use lettersmith::docs::split_errors;
use lettersmith::error::Error;
use lettersmith::error::ErrorKind;
use lettersmith::paths::path_extension;
use lettersmith::time::Time;

fn make_test_doc(id: &str, title: &str) -> Doc {
    Doc::draft(id).set_title(title)
}

#[test]
fn test_remove_with_id_path() {
    let docs = vec![
        make_test_doc("doc1.md", "Doc 1"),
        make_test_doc("doc2.md", "Doc 2"),
    ];

    let filtered = remove_with_id_path(docs, "doc1.md");

    assert_eq!(filtered.len(), 1);
    assert_eq!(filtered[0].id_path, "doc2.md");
}

#[test]
fn test_filter_matching() {
    let docs = vec![
        make_test_doc("posts/doc1.md", "Doc 1"),
        make_test_doc("pages/doc2.md", "Doc 2"),
    ];

    let filtered = filter_matching(docs, "posts/*").unwrap();

    assert_eq!(filtered.len(), 1);
    assert_eq!(filtered[0].id_path, "posts/doc1.md");
}

#[test]
fn test_filter_matching_bad_pattern() {
    let docs = vec![make_test_doc("doc1.md", "Doc 1")];
    match filter_matching(docs, "a**b") {
        Ok(_) => panic!("a malformed pattern must be refused"),
        Err(err) => assert!(matches!(err.kind, ErrorKind::Value)),
    }
}

#[test]
fn test_remove_drafts() {
    let docs = vec![
        make_test_doc("doc1.md", "Doc 1"),
        make_test_doc("_draft.md", "Draft"),
    ];

    let filtered = remove_drafts(docs);

    assert_eq!(filtered.len(), 1);
    assert_eq!(filtered[0].id_path, "doc1.md");
}

#[test]
fn test_remove_index() {
    let docs = vec![
        make_test_doc("doc1.md", "Doc 1"),
        make_test_doc("index.md", "Index"),
    ];

    let filtered = remove_index(docs);

    assert_eq!(filtered.len(), 1);
    assert_eq!(filtered[0].id_path, "doc1.md");
}

#[test]
fn test_dedupe() {
    let docs = vec![
        make_test_doc("doc1.md", "Doc 1"),
        make_test_doc("doc1.md", "Doc 1 Dupe"),
    ];

    let deduped = dedupe(docs);

    assert_eq!(deduped.len(), 1);
    assert_eq!(deduped[0].id_path, "doc1.md");
    assert_eq!(deduped[0].title, "Doc 1");
}

#[test]
fn test_dedupe_keeps_first_of_many() {
    let docs = vec![
        make_test_doc("a.md", "First A"),
        make_test_doc("b.md", "B"),
        make_test_doc("a.md", "Second A"),
        make_test_doc("c.md", "C"),
        make_test_doc("a.md", "Third A"),
    ];

    let deduped = dedupe(docs);

    assert_eq!(deduped.len(), 3);
    assert_eq!(deduped[0].id_path, "a.md");
    assert_eq!(deduped[0].title, "First A");
    assert_eq!(deduped[1].id_path, "b.md");
    assert_eq!(deduped[2].id_path, "c.md");
}

#[test]
fn test_sorted_by() {
    let docs = vec![
        make_test_doc("doc2.md", "B Doc"),
        make_test_doc("doc1.md", "A Doc"),
    ];

    let sorted = sorted_by(docs, SortKey::Title, true);

    assert_eq!(sorted[0].title, "A Doc");
    assert_eq!(sorted[1].title, "B Doc");
}

#[test]
fn test_sorted_by_is_stable() {
    let docs = vec![
        make_test_doc("b.md", "Same"),
        make_test_doc("a.md", "Same"),
        make_test_doc("c.md", "Other"),
    ];

    let sorted = sorted_by(docs, SortKey::Title, true);

    assert_eq!(sorted[0].title, "Other");
    assert_eq!(sorted[1].id_path, "b.md");
    assert_eq!(sorted[2].id_path, "a.md");
}

#[test]
fn test_sort_key_from_string() {
    assert_eq!(SortKey::try_from("title").unwrap(), SortKey::Title);
    assert_eq!(SortKey::try_from("id_path").unwrap(), SortKey::IdPath);
    assert_eq!(
        SortKey::try_from("output_path").unwrap(),
        SortKey::OutputPath
    );
    assert_eq!(SortKey::try_from("created").unwrap(), SortKey::Created);
    assert_eq!(SortKey::try_from("modified").unwrap(), SortKey::Modified);
    assert!(SortKey::try_from("invalid").is_err());
}

#[test]
fn test_sort_key_invalid_is_value_error() {
    let err = SortKey::try_from("invalid").unwrap_err();
    assert!(matches!(err.kind, ErrorKind::Value));
}

#[test]
fn test_sort_key_into_string() {
    assert_eq!(SortKey::Title.as_str(), "title");
    assert_eq!(SortKey::IdPath.as_str(), "id_path");
    assert_eq!(SortKey::OutputPath.as_str(), "output_path");
    assert_eq!(SortKey::Created.as_str(), "created");
    assert_eq!(SortKey::Modified.as_str(), "modified");
}

#[test]
fn test_set_extension() {
    let docs = vec![make_test_doc("doc1.md", "Doc 1")];

    let modified = set_extension(docs, "html");

    assert_eq!(
        path_extension(&modified[0].output_path),
        Some(String::from("html"))
    );
}

#[test]
fn test_most_recent_takes_newest() {
    let old = Doc::draft("old.md").set_created(Time {
        year: 2020,
        month: 1,
        day: 1,
        secs: 0,
    });
    let mid = Doc::draft("mid.md").set_created(Time {
        year: 2021,
        month: 6,
        day: 15,
        secs: 0,
    });
    let new = Doc::draft("new.md").set_created(Time {
        year: 2023,
        month: 5,
        day: 15,
        secs: 0,
    });

    let recent = most_recent(vec![old, mid, new], 2);

    assert_eq!(recent.len(), 2);
    assert_eq!(recent[0].id_path, "new.md");
    assert_eq!(recent[1].id_path, "mid.md");
}

#[test]
fn test_split_errors_parts_results() {
    let results: Vec<Result<Doc, Error>> = vec![
        Ok(Doc::draft("a.md")),
        Err(Error::value(String::from("bad document"))),
        Ok(Doc::draft("b.md")),
    ];

    let (docs, errs) = split_errors(results);

    assert_eq!(docs.len(), 2);
    assert_eq!(docs[0].id_path, "a.md");
    assert_eq!(docs[1].id_path, "b.md");
    assert_eq!(errs.len(), 1);
    assert!(matches!(errs[0].kind, ErrorKind::Value));
}

#[test]
fn test_panic_at_first_error_unwraps() {
    let results: Vec<Result<Doc, Error>> =
        vec![Ok(Doc::draft("a.md")), Ok(Doc::draft("b.md"))];

    let docs = panic_at_first_error(results);

    assert_eq!(docs.len(), 2);
    assert_eq!(docs[0].id_path, "a.md");
}
