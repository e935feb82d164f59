//! Combinators over a materialized collection of documents: filtering,
//! de-duplication, stable sorting, and the per-document transforms mapped
//! across the whole collection.

use vstd::prelude::*;
use crate::doc::Doc;
use crate::doc::DocView;
use crate::error::Error;
use crate::error::ErrorKind;
use crate::paths;
use crate::strutil;

verus! {

/// The shapes of a sequence of documents.
pub open spec fn docs_view(s: Seq<Doc>) -> Seq<DocView> {
    Seq::new(
        s.len(),
        |i: int|
            if 0 <= i < s.len() {
                s[i]@
            } else {
                arbitrary()
            },
    )
}

/// The key a sort compares documents under.
#[derive(Copy, Clone, Debug, PartialEq, Eq, Structural, Hash)]
pub enum SortKey {
    IdPath,
    OutputPath,
    Created,
    Modified,
    Title,
}

/// The sort key a name stands for.
pub open spec fn sort_key_of(s: Seq<char>) -> Option<SortKey> {
    if s == "id_path"@ {
        Some(SortKey::IdPath)
    } else if s == "output_path"@ {
        Some(SortKey::OutputPath)
    } else if s == "created"@ {
        Some(SortKey::Created)
    } else if s == "modified"@ {
        Some(SortKey::Modified)
    } else if s == "title"@ {
        Some(SortKey::Title)
    } else {
        None
    }
}

impl SortKey {
    /// The sort key named by a string; any other name is a value error.
    pub fn try_from(value: &str) -> (r: Result<SortKey, Error>)
        ensures
            match sort_key_of(value@) {
                Some(k) => r == Ok::<SortKey, Error>(k),
                None => r matches Err(e) && e.kind == ErrorKind::Value,
            },
    {
        if strutil::str_eq(value, "id_path") {
            Ok(SortKey::IdPath)
        } else if strutil::str_eq(value, "output_path") {
            Ok(SortKey::OutputPath)
        } else if strutil::str_eq(value, "created") {
            Ok(SortKey::Created)
        } else if strutil::str_eq(value, "modified") {
            Ok(SortKey::Modified)
        } else if strutil::str_eq(value, "title") {
            Ok(SortKey::Title)
        } else {
            let mut msg = String::from_str("String ");
            msg.append(value);
            msg.append(" does not correspond to any SortKey");
            Err(Error::value(msg))
        }
    }

    /// The name of this sort key.
    pub fn as_str(self) -> (r: &'static str)
        ensures
            self == SortKey::IdPath ==> r@ == "id_path"@,
            self == SortKey::OutputPath ==> r@ == "output_path"@,
            self == SortKey::Created ==> r@ == "created"@,
            self == SortKey::Modified ==> r@ == "modified"@,
            self == SortKey::Title ==> r@ == "title"@,
    {
        match self {
            SortKey::IdPath => "id_path",
            SortKey::OutputPath => "output_path",
            SortKey::Created => "created",
            SortKey::Modified => "modified",
            SortKey::Title => "title",
        }
    }
}

/// The order a key puts two documents in.
pub open spec fn key_le(key: SortKey, a: DocView, b: DocView) -> bool {
    match key {
        SortKey::IdPath => strutil::lex_le(a.id_path, b.id_path),
        SortKey::OutputPath => strutil::lex_le(a.output_path, b.output_path),
        SortKey::Created => a.created.le_spec(b.created),
        SortKey::Modified => a.modified.le_spec(b.modified),
        SortKey::Title => strutil::lex_le(a.title, b.title),
    }
}

/// Two documents that compare equal under a key.
pub open spec fn key_eq(key: SortKey, a: DocView, b: DocView) -> bool {
    key_le(key, a, b) && key_le(key, b, a)
}

/// The direction a sort compares in: the key's order ascending, or its
/// mirror descending.
pub open spec fn dir_le(key: SortKey, asc: bool, a: DocView, b: DocView) -> bool {
    if asc {
        key_le(key, a, b)
    } else {
        key_le(key, b, a)
    }
}

/// Every key orders every pair of documents one way or the other.
pub proof fn lemma_key_le_total(key: SortKey, a: DocView, b: DocView)
    ensures
        key_le(key, a, b) || key_le(key, b, a),
{
    match key {
        SortKey::IdPath => strutil::lemma_lex_le_total(a.id_path, b.id_path),
        SortKey::OutputPath => strutil::lemma_lex_le_total(a.output_path, b.output_path),
        SortKey::Created => crate::time::lemma_time_le_total(a.created, b.created),
        SortKey::Modified => crate::time::lemma_time_le_total(a.modified, b.modified),
        SortKey::Title => strutil::lemma_lex_le_total(a.title, b.title),
    }
}

/// Every key's order is transitive.
pub proof fn lemma_key_le_trans(key: SortKey, a: DocView, b: DocView, c: DocView)
    requires
        key_le(key, a, b),
        key_le(key, b, c),
    ensures
        key_le(key, a, c),
{
    match key {
        SortKey::IdPath => strutil::lemma_lex_le_trans(a.id_path, b.id_path, c.id_path),
        SortKey::OutputPath => strutil::lemma_lex_le_trans(
            a.output_path,
            b.output_path,
            c.output_path,
        ),
        SortKey::Created => crate::time::lemma_time_le_trans(a.created, b.created, c.created),
        SortKey::Modified => crate::time::lemma_time_le_trans(a.modified, b.modified, c.modified),
        SortKey::Title => strutil::lemma_lex_le_trans(a.title, b.title, c.title),
    }
}

/// Compare two documents under a key.
pub fn doc_key_le(key: SortKey, a: &Doc, b: &Doc) -> (r: bool)
    ensures
        r == key_le(key, a@, b@),
{
    match key {
        SortKey::IdPath => strutil::str_le(a.id_path.as_str(), b.id_path.as_str()),
        SortKey::OutputPath => strutil::str_le(a.output_path.as_str(), b.output_path.as_str()),
        SortKey::Created => a.created.le(&b.created),
        SortKey::Modified => a.modified.le(&b.modified),
        SortKey::Title => strutil::str_le(a.title.as_str(), b.title.as_str()),
    }
}

/// The documents whose identity is not the given one, in order.
pub open spec fn remove_with_id_spec(s: Seq<DocView>, id: Seq<char>) -> Seq<DocView>
    decreases s.len(),
{
    if s.len() == 0 {
        Seq::empty()
    } else if s.last().id_path == id {
        remove_with_id_spec(s.drop_last(), id)
    } else {
        remove_with_id_spec(s.drop_last(), id).push(s.last())
    }
}

/// Drop every document with the given `id_path`.
pub fn remove_with_id_path(docs: Vec<Doc>, id_path: &str) -> (r: Vec<Doc>)
    ensures
        docs_view(r@) == remove_with_id_spec(docs_view(docs@), id_path@),
{
    let ghost dv = docs_view(docs@);
    let total = docs.len();
    let mut out: Vec<Doc> = Vec::new();
    let mut input = docs;
    let mut i: usize = 0;
    while input.len() > 0
        invariant
            dv == docs_view(docs@),
            total == dv.len(),
            i + input@.len() == total,
            docs_view(input@) =~= dv.skip(i as int),
            docs_view(out@) == remove_with_id_spec(dv.take(i as int), id_path@),
        decreases input@.len(),
    {
        let ghost in0 = input@;
        let d = input.remove(0);
        proof {
            assert(docs_view(in0)[0] == in0[0]@);
            assert(docs_view(in0) == dv.skip(i as int));
            assert(d@ == dv[i as int]);
            assert forall|l: int| 0 <= l < input@.len() implies docs_view(input@)[l] == dv.skip(
                i as int + 1,
            )[l] by {
                assert(input@[l] == in0[l + 1]);
                assert(docs_view(in0)[l + 1] == in0[l + 1]@);
            }
            assert(docs_view(input@) =~= dv.skip(i as int + 1));
        }
        let ghost prev = docs_view(out@);
        if !strutil::str_eq(d.id_path.as_str(), id_path) {
            out.push(d);
            proof {
                assert(docs_view(out@) =~= prev.push(dv[i as int]));
            }
        }
        i = i + 1;
        proof {
            let t = dv.take(i as int);
            assert(t.drop_last() =~= dv.take(i - 1));
            assert(t.last() == dv[i - 1]);
        }
    }
    proof {
        assert(dv.take(dv.len() as int) =~= dv);
    }
    out
}

/// Whether a document's file name marks it as a draft: the name of its
/// `id_path` starts with an underscore.
pub open spec fn is_draft_doc(d: DocView) -> bool {
    let nm = paths::file_name_spec(d.id_path);
    nm.len() > 0 && nm[0] == '_'
}

/// The documents that are not drafts, in order.
pub open spec fn remove_drafts_spec(s: Seq<DocView>) -> Seq<DocView>
    decreases s.len(),
{
    if s.len() == 0 {
        Seq::empty()
    } else if is_draft_doc(s.last()) {
        remove_drafts_spec(s.drop_last())
    } else {
        remove_drafts_spec(s.drop_last()).push(s.last())
    }
}

/// Drop every document whose file name starts with an underscore.
pub fn remove_drafts(docs: Vec<Doc>) -> (r: Vec<Doc>)
    ensures
        docs_view(r@) == remove_drafts_spec(docs_view(docs@)),
{
    let ghost dv = docs_view(docs@);
    let total = docs.len();
    let mut out: Vec<Doc> = Vec::new();
    let mut input = docs;
    let mut i: usize = 0;
    while input.len() > 0
        invariant
            dv == docs_view(docs@),
            total == dv.len(),
            i + input@.len() == total,
            docs_view(input@) =~= dv.skip(i as int),
            docs_view(out@) == remove_drafts_spec(dv.take(i as int)),
        decreases input@.len(),
    {
        let ghost in0 = input@;
        let d = input.remove(0);
        proof {
            assert(docs_view(in0)[0] == in0[0]@);
            assert(docs_view(in0) == dv.skip(i as int));
            assert(d@ == dv[i as int]);
            assert forall|l: int| 0 <= l < input@.len() implies docs_view(input@)[l] == dv.skip(
                i as int + 1,
            )[l] by {
                assert(input@[l] == in0[l + 1]);
                assert(docs_view(in0)[l + 1] == in0[l + 1]@);
            }
            assert(docs_view(input@) =~= dv.skip(i as int + 1));
        }
        let ghost prev = docs_view(out@);
        let keep = match paths::path_file_name(d.id_path.as_str()) {
            Some(nm) => !(nm.as_str().get_char(0) == '_'),
            None => true,
        };
        if keep {
            out.push(d);
            proof {
                assert(docs_view(out@) =~= prev.push(dv[i as int]));
            }
        }
        i = i + 1;
        proof {
            let t = dv.take(i as int);
            assert(t.drop_last() =~= dv.take(i - 1));
            assert(t.last() == dv[i - 1]);
        }
    }
    proof {
        assert(dv.take(dv.len() as int) =~= dv);
    }
    out
}

/// Whether a document is an index page: the stem of its `id_path` is
/// `index`.
pub open spec fn is_index_doc(d: DocView) -> bool {
    paths::file_stem_spec(d.id_path) == "index"@
}

/// The documents that are not index pages, in order.
pub open spec fn remove_index_spec(s: Seq<DocView>) -> Seq<DocView>
    decreases s.len(),
{
    if s.len() == 0 {
        Seq::empty()
    } else if is_index_doc(s.last()) {
        remove_index_spec(s.drop_last())
    } else {
        remove_index_spec(s.drop_last()).push(s.last())
    }
}

/// Drop every document whose file stem is `index`.
pub fn remove_index(docs: Vec<Doc>) -> (r: Vec<Doc>)
    ensures
        docs_view(r@) == remove_index_spec(docs_view(docs@)),
{
    let ghost dv = docs_view(docs@);
    let total = docs.len();
    let mut out: Vec<Doc> = Vec::new();
    let mut input = docs;
    let mut i: usize = 0;
    while input.len() > 0
        invariant
            dv == docs_view(docs@),
            total == dv.len(),
            i + input@.len() == total,
            docs_view(input@) =~= dv.skip(i as int),
            docs_view(out@) == remove_index_spec(dv.take(i as int)),
        decreases input@.len(),
    {
        let ghost in0 = input@;
        let d = input.remove(0);
        proof {
            assert(docs_view(in0)[0] == in0[0]@);
            assert(docs_view(in0) == dv.skip(i as int));
            assert(d@ == dv[i as int]);
            assert forall|l: int| 0 <= l < input@.len() implies docs_view(input@)[l] == dv.skip(
                i as int + 1,
            )[l] by {
                assert(input@[l] == in0[l + 1]);
                assert(docs_view(in0)[l + 1] == in0[l + 1]@);
            }
            assert(docs_view(input@) =~= dv.skip(i as int + 1));
        }
        let ghost prev = docs_view(out@);
        proof {
            reveal_strlit("index");
        }
        let keep = match paths::path_file_stem(d.id_path.as_str()) {
            Some(st) => !strutil::str_eq(st.as_str(), "index"),
            None => true,
        };
        if keep {
            out.push(d);
            proof {
                assert(docs_view(out@) =~= prev.push(dv[i as int]));
            }
        }
        i = i + 1;
        proof {
            let t = dv.take(i as int);
            assert(t.drop_last() =~= dv.take(i - 1));
            assert(t.last() == dv[i - 1]);
        }
    }
    proof {
        assert(dv.take(dv.len() as int) =~= dv);
    }
    out
}

/// Whether some document in the sequence carries the identity.
pub open spec fn has_id(s: Seq<DocView>, id: Seq<char>) -> bool {
    exists|j: int| 0 <= j < s.len() && s[j].id_path == id
}

/// The documents with later repeats of an identity dropped: the first
/// occurrence of each `id_path` is kept, in its place.
pub open spec fn dedupe_spec(s: Seq<DocView>) -> Seq<DocView>
    decreases s.len(),
{
    if s.len() == 0 {
        Seq::empty()
    } else if has_id(s.drop_last(), s.last().id_path) {
        dedupe_spec(s.drop_last())
    } else {
        dedupe_spec(s.drop_last()).push(s.last())
    }
}

/// De-duplicate documents by `id_path`, keeping first occurrences in
/// their order.
pub fn dedupe(docs: Vec<Doc>) -> (r: Vec<Doc>)
    ensures
        docs_view(r@) == dedupe_spec(docs_view(docs@)),
{
    let ghost dv = docs_view(docs@);
    let total = docs.len();
    let mut out: Vec<Doc> = Vec::new();
    let mut input = docs;
    let mut i: usize = 0;
    while input.len() > 0
        invariant
            dv == docs_view(docs@),
            total == dv.len(),
            i + input@.len() == total,
            docs_view(input@) =~= dv.skip(i as int),
            docs_view(out@) == dedupe_spec(dv.take(i as int)),
            forall|id: Seq<char>| has_id(docs_view(out@), id) == has_id(dv.take(i as int), id),
        decreases input@.len(),
    {
        let ghost in0 = input@;
        let d = input.remove(0);
        proof {
            assert(docs_view(in0)[0] == in0[0]@);
            assert(docs_view(in0) == dv.skip(i as int));
            assert(d@ == dv[i as int]);
            assert forall|l: int| 0 <= l < input@.len() implies docs_view(input@)[l] == dv.skip(
                i as int + 1,
            )[l] by {
                assert(input@[l] == in0[l + 1]);
                assert(docs_view(in0)[l + 1] == in0[l + 1]@);
            }
            assert(docs_view(input@) =~= dv.skip(i as int + 1));
        }
        let ghost prev = docs_view(out@);
        // Scan what is already kept for this identity.
        let mut seen: bool = false;
        let mut j: usize = 0;
        let m = out.len();
        while j < m && !seen
            invariant
                m == out@.len(),
                0 <= j <= m,
                prev == docs_view(out@),
                seen ==> has_id(prev, d@.id_path),
                !seen ==> forall|l: int| 0 <= l < j ==> prev[l].id_path != d@.id_path,
            decreases m - j + (if seen { 0int } else { 1int }),
        {
            if strutil::str_eq(out[j].id_path.as_str(), d.id_path.as_str()) {
                proof {
                    assert(prev[j as int].id_path == d@.id_path);
                }
                seen = true;
            } else {
                j = j + 1;
            }
        }
        if !seen {
            out.push(d);
            proof {
                assert(docs_view(out@) =~= prev.push(dv[i as int]));
            }
        }
        i = i + 1;
        proof {
            let t = dv.take(i as int);
            assert(t.drop_last() =~= dv.take(i - 1));
            assert(t.last() == dv[i - 1]);
            let outv = docs_view(out@);
            if seen {
                assert(has_id(prev, dv[i - 1].id_path));
                assert(has_id(dv.take(i - 1), dv[i - 1].id_path));
                assert(dedupe_spec(t) == dedupe_spec(dv.take(i - 1)));
                assert(outv == prev);
            } else {
                assert(!has_id(prev, dv[i - 1].id_path)) by {
                    if has_id(prev, dv[i - 1].id_path) {
                        let w = choose|l: int|
                            0 <= l < prev.len() && #[trigger] prev[l].id_path == dv[
                                i - 1
                            ].id_path;
                    }
                };
                assert(!has_id(dv.take(i - 1), dv[i - 1].id_path));
                assert(dedupe_spec(t) == dedupe_spec(dv.take(i - 1)).push(t.last()));
                assert(outv == prev.push(dv[i - 1]));
            }
            assert forall|id: Seq<char>| has_id(outv, id) == has_id(t, id) by {
                if has_id(t, id) {
                    let w = choose|l: int| 0 <= l < t.len() && #[trigger] t[l].id_path == id;
                    if w < i - 1 {
                        assert(dv.take(i - 1)[w].id_path == id);
                        assert(has_id(dv.take(i - 1), id));
                        assert(has_id(prev, id));
                        let u = choose|l: int|
                            0 <= l < prev.len() && #[trigger] prev[l].id_path == id;
                        assert(outv[u].id_path == id);
                    } else {
                        assert(dv[i - 1].id_path == id);
                        if seen {
                            let u = choose|l: int|
                                0 <= l < prev.len() && #[trigger] prev[l].id_path == id;
                            assert(outv[u].id_path == id);
                        } else {
                            assert(outv[outv.len() - 1].id_path == id);
                        }
                    }
                }
                if has_id(outv, id) {
                    let w = choose|l: int| 0 <= l < outv.len() && #[trigger] outv[l].id_path == id;
                    if w < prev.len() {
                        assert(prev[w].id_path == id);
                        assert(has_id(prev, id));
                        assert(has_id(dv.take(i - 1), id));
                        let v = choose|l: int|
                            0 <= l < dv.take(i - 1).len() && #[trigger] dv.take(i - 1)[l].id_path
                                == id;
                        assert(t[v].id_path == id);
                    } else {
                        assert(outv[w] == dv[i - 1]);
                        assert(t[i - 1].id_path == id);
                    }
                }
            }
        }
    }
    proof {
        assert(dv.take(dv.len() as int) =~= dv);
    }
    out
}

/// How many documents in a sequence carry an identity.
pub open spec fn count_id(s: Seq<DocView>, id: Seq<char>) -> int
    decreases s.len(),
{
    if s.len() == 0 {
        0
    } else {
        count_id(s.drop_last(), id) + if s.last().id_path == id {
            1int
        } else {
            0int
        }
    }
}

/// Position of the first document carrying an identity.
pub open spec fn first_id_pos(s: Seq<DocView>, id: Seq<char>) -> int
    decreases s.len(),
{
    if s.len() == 0 {
        0
    } else if has_id(s.drop_last(), id) {
        first_id_pos(s.drop_last(), id)
    } else {
        s.len() - 1
    }
}

proof fn lemma_first_id_pos(s: Seq<DocView>, id: Seq<char>)
    requires
        has_id(s, id),
    ensures
        0 <= first_id_pos(s, id) < s.len(),
        s[first_id_pos(s, id)].id_path == id,
        forall|l: int| 0 <= l < first_id_pos(s, id) ==> s[l].id_path != id,
    decreases s.len(),
{
    if s.len() > 0 {
        if has_id(s.drop_last(), id) {
            lemma_first_id_pos(s.drop_last(), id);
            assert forall|l: int| 0 <= l < first_id_pos(s, id) implies s[l].id_path != id by {
                assert(s.drop_last()[l] == s[l]);
            }
        } else {
            let w = choose|j: int| 0 <= j < s.len() && s[j].id_path == id;
            assert(w == s.len() - 1) by {
                if w < s.len() - 1 {
                    assert(s.drop_last()[w].id_path == id);
                }
            };
            assert forall|l: int| 0 <= l < s.len() - 1 implies s[l].id_path != id by {
                if s[l].id_path == id {
                    assert(s.drop_last()[l].id_path == id);
                }
            }
        }
    }
}

/// De-duplication law: whatever identity occurs in a collection, however
/// often, exactly one document with it survives de-duplication, and it is
/// the one from the identity's first occurrence.
pub proof fn lemma_dedupe_keeps_first(s: Seq<DocView>, id: Seq<char>)
    requires
        has_id(s, id),
    ensures
        count_id(dedupe_spec(s), id) == 1,
        has_id(dedupe_spec(s), id),
        dedupe_spec(s)[first_id_pos(dedupe_spec(s), id)] == s[first_id_pos(s, id)],
    decreases s.len(),
{
    lemma_first_id_pos(s, id);
    let out = dedupe_spec(s);
    let rest = s.drop_last();
    let last = s.last();
    if has_id(rest, id) {
        lemma_dedupe_keeps_first(rest, id);
        lemma_first_id_pos(rest, id);
        assert(first_id_pos(s, id) == first_id_pos(rest, id)) by {
            assert(s[first_id_pos(rest, id)] == rest[first_id_pos(rest, id)]);
        };
        if has_id(rest, last.id_path) {
            assert(out == dedupe_spec(rest));
        } else {
            assert(last.id_path != id);
            assert(out == dedupe_spec(rest).push(last));
            assert(out.drop_last() =~= dedupe_spec(rest));
            assert(count_id(out, id) == count_id(dedupe_spec(rest), id));
            lemma_first_id_pos(dedupe_spec(rest), id);
            assert(out[first_id_pos(dedupe_spec(rest), id)] == dedupe_spec(rest)[first_id_pos(
                dedupe_spec(rest),
                id,
            )]);
            assert(first_id_pos(out, id) == first_id_pos(dedupe_spec(rest), id)) by {
                lemma_first_id_pos(out, id);
                let a = first_id_pos(out, id);
                let b = first_id_pos(dedupe_spec(rest), id);
                if a < b {
                    assert(dedupe_spec(rest)[a].id_path != id);
                    assert(out[a] == dedupe_spec(rest)[a]);
                }
                if b < a {
                    assert(out[b] == dedupe_spec(rest)[b]);
                }
            };
        }
    } else {
        // The identity only occurs at the last position.
        assert(last.id_path == id) by {
            let w = choose|j: int| 0 <= j < s.len() && s[j].id_path == id;
            if w < s.len() - 1 {
                assert(rest[w].id_path == id);
            }
        };
        assert(!has_id(rest, last.id_path));
        assert(out == dedupe_spec(rest).push(last));
        lemma_dedupe_no_id(rest, id);
        lemma_count_no_id(dedupe_spec(rest), id);
        assert(count_id(out, id) == 1) by {
            assert(out.drop_last() =~= dedupe_spec(rest));
        };
        assert(out[out.len() - 1].id_path == id);
        assert(first_id_pos(s, id) == s.len() - 1) by {
            lemma_first_id_pos(s, id);
            if first_id_pos(s, id) < s.len() - 1 {
                assert(rest[first_id_pos(s, id)].id_path == id);
            }
        };
        assert(first_id_pos(out, id) == out.len() - 1) by {
            lemma_first_id_pos(out, id);
            if first_id_pos(out, id) < out.len() - 1 {
                assert(dedupe_spec(rest)[first_id_pos(out, id)].id_path == id);
            }
        };
    }
}

/// Pairwise order of a whole sequence under a key and direction.
pub open spec fn sorted_dir(s: Seq<DocView>, key: SortKey, asc: bool) -> bool {
    forall|i: int, j: int| 0 <= i < j < s.len() ==> dir_le(key, asc, s[i], s[j])
}

/// The documents of a sequence that compare equal to `d` under a key, in
/// their order.
pub open spec fn filter_keq(s: Seq<DocView>, key: SortKey, d: DocView) -> Seq<DocView>
    decreases s.len(),
{
    if s.len() == 0 {
        Seq::empty()
    } else if key_eq(key, s.last(), d) {
        filter_keq(s.drop_last(), key, d).push(s.last())
    } else {
        filter_keq(s.drop_last(), key, d)
    }
}

proof fn lemma_filter_keq_add(a: Seq<DocView>, b: Seq<DocView>, key: SortKey, d: DocView)
    ensures
        filter_keq(a + b, key, d) == filter_keq(a, key, d) + filter_keq(b, key, d),
    decreases b.len(),
{
    if b.len() == 0 {
        assert(a + b =~= a);
        assert(filter_keq(a, key, d) + filter_keq(b, key, d) =~= filter_keq(a, key, d));
    } else {
        lemma_filter_keq_add(a, b.drop_last(), key, d);
        assert((a + b).drop_last() =~= a + b.drop_last());
        assert((a + b).last() == b.last());
        if key_eq(key, b.last(), d) {
            assert(filter_keq(a, key, d) + filter_keq(b.drop_last(), key, d).push(b.last()) =~=
                (filter_keq(a, key, d) + filter_keq(b.drop_last(), key, d)).push(b.last()));
        }
    }
}

proof fn lemma_filter_keq_none(s: Seq<DocView>, key: SortKey, d: DocView)
    requires
        forall|l: int| 0 <= l < s.len() ==> !key_eq(key, s[l], d),
    ensures
        filter_keq(s, key, d).len() == 0,
    decreases s.len(),
{
    if s.len() > 0 {
        lemma_filter_keq_none(s.drop_last(), key, d);
    }
}

/// Compare two documents in the sort's direction.
fn doc_dir_le(key: SortKey, asc: bool, a: &Doc, b: &Doc) -> (r: bool)
    ensures
        r == dir_le(key, asc, a@, b@),
{
    if asc {
        doc_key_le(key, a, b)
    } else {
        doc_key_le(key, b, a)
    }
}

/// Sort documents by a key, ascending or descending: the result carries
/// the same documents, in order under the key, and never reorders two
/// documents that compare equal under it.
#[verifier::loop_isolation(false)]
#[verifier::rlimit(60)]
pub fn sorted_by(docs: Vec<Doc>, key: SortKey, asc: bool) -> (r: Vec<Doc>)
    ensures
        docs_view(r@).len() == docs_view(docs@).len(),
        sorted_dir(docs_view(r@), key, asc),
        forall|d: DocView| #[trigger] filter_keq(docs_view(r@), key, d) == filter_keq(
            docs_view(docs@),
            key,
            d,
        ),
        docs_view(r@).to_multiset() == docs_view(docs@).to_multiset(),
{
    broadcast use vstd::seq_lib::group_to_multiset_ensures;

    let ghost dv = docs_view(docs@);
    let total = docs.len();
    let mut out: Vec<Doc> = Vec::new();
    let mut input = docs;
    let mut i: usize = 0;
    while input.len() > 0
        invariant
            dv == docs_view(docs@),
            total == dv.len(),
            i + input@.len() == total,
            docs_view(input@) =~= dv.skip(i as int),
            docs_view(out@).len() == i,
            sorted_dir(docs_view(out@), key, asc),
            forall|d: DocView| #[trigger] filter_keq(docs_view(out@), key, d) == filter_keq(
                dv.take(i as int),
                key,
                d,
            ),
            docs_view(out@).to_multiset() == dv.take(i as int).to_multiset(),
        decreases input@.len(),
    {
        let ghost in0 = input@;
        let d = input.remove(0);
        proof {
            assert(docs_view(in0)[0] == in0[0]@);
            assert(docs_view(in0) == dv.skip(i as int));
            assert(d@ == dv[i as int]);
            assert forall|l: int| 0 <= l < input@.len() implies docs_view(input@)[l] == dv.skip(
                i as int + 1,
            )[l] by {
                assert(input@[l] == in0[l + 1]);
                assert(docs_view(in0)[l + 1] == in0[l + 1]@);
            }
            assert(docs_view(input@) =~= dv.skip(i as int + 1));
        }
        let ghost outv = docs_view(out@);
        // Scan backwards for the insertion position: everything after it
        // is strictly greater than the new document.
        let mut p: usize = out.len();
        while p > 0 && !doc_dir_le(key, asc, &out[p - 1], &d)
            invariant
                0 <= p <= out@.len(),
                outv == docs_view(out@),
                forall|l: int| p <= l < outv.len() ==> !dir_le(key, asc, outv[l], d@),
            decreases p,
        {
            p = p - 1;
        }
        proof {
            assert forall|l: int| p <= l < outv.len() implies !key_eq(key, outv[l], d@) by {
                if key_eq(key, outv[l], d@) {
                    assert(dir_le(key, asc, outv[l], d@));
                }
            }
        }
        out.insert(p, d);
        i = i + 1;
        proof {
            let out2 = docs_view(out@);
            let dval = dv[i - 1];
            assert forall|l: int| 0 <= l < out2.len() implies out2[l] == outv.insert(
                p as int,
                dval,
            )[l] by {
                if l < p {
                    assert(out@[l] == out@[l]);
                } else if l == p {
                } else {
                    assert(out@[l] == out@[l]);
                }
            }
            assert(out2 =~= outv.insert(p as int, dval));
            assert(outv.insert(p as int, dval) =~= outv.take(p as int) + seq![dval] + outv.skip(
                p as int,
            ));
            let t = dv.take(i as int);
            assert(t.drop_last() =~= dv.take(i - 1));
            assert(t.last() == dval);
            assert(t =~= dv.take(i - 1).push(dval));
            // The new document sits between its neighbours.
            assert forall|a: int, b: int| 0 <= a < b < out2.len() implies dir_le(
                key,
                asc,
                out2[a],
                out2[b],
            ) by {
                lemma_key_le_total(key, out2[a], out2[b]);
                if b == p {
                    if a < p {
                        if a == p - 1 {
                            assert(dir_le(key, asc, outv[p - 1], dval));
                        } else {
                            assert(dir_le(key, asc, outv[a], outv[p - 1]));
                            if asc {
                                lemma_key_le_trans(key, outv[a], outv[p - 1], dval);
                            } else {
                                lemma_key_le_trans(key, dval, outv[p - 1], outv[a]);
                            }
                        }
                    }
                } else if a == p {
                    assert(!dir_le(key, asc, outv[b - 1], dval));
                    lemma_key_le_total(key, outv[b - 1], dval);
                } else if a < p && b > p {
                    assert(dir_le(key, asc, outv[a], outv[b - 1]));
                } else if b < p {
                    assert(dir_le(key, asc, outv[a], outv[b]));
                } else {
                    assert(dir_le(key, asc, outv[a - 1], outv[b - 1]));
                }
            }
            // Each key class keeps its order.
            assert forall|x: DocView| #[trigger] filter_keq(out2, key, x) == filter_keq(
                t,
                key,
                x,
            ) by {
                lemma_filter_keq_add(outv.take(p as int) + seq![dval], outv.skip(p as int), key, x);
                lemma_filter_keq_add(outv.take(p as int), seq![dval], key, x);
                lemma_filter_keq_add(outv.take(p as int), outv.skip(p as int), key, x);
                assert(outv.take(p as int) + outv.skip(p as int) =~= outv);
                assert(seq![dval].drop_last() =~= Seq::<DocView>::empty());
                assert(filter_keq(Seq::<DocView>::empty(), key, x) == Seq::<DocView>::empty());
                if key_eq(key, dval, x) {
                    assert(filter_keq(seq![dval], key, x) =~= Seq::<DocView>::empty().push(dval));
                    assert forall|l: int|
                        0 <= l < outv.skip(p as int).len() implies !key_eq(
                        key,
                        outv.skip(p as int)[l],
                        x,
                    ) by {
                        assert(outv.skip(p as int)[l] == outv[p + l]);
                        assert(!key_eq(key, outv[p + l], dval));
                        if key_eq(key, outv[p + l], x) {
                            lemma_key_le_trans(key, outv[p + l], x, dval);
                            lemma_key_le_trans(key, dval, x, outv[p + l]);
                        }
                    }
                    lemma_filter_keq_none(outv.skip(p as int), key, x);
                    assert(filter_keq(out2, key, x) =~= filter_keq(outv, key, x).push(dval));
                    assert(filter_keq(t, key, x) == filter_keq(dv.take(i - 1), key, x).push(dval));
                } else {
                    assert(filter_keq(seq![dval], key, x) =~= Seq::<DocView>::empty());
                    assert(filter_keq(out2, key, x) =~= filter_keq(outv, key, x));
                    assert(filter_keq(t, key, x) == filter_keq(dv.take(i - 1), key, x));
                }
            }
            // The collection is a permutation.
            assert(out2.remove(p as int) =~= outv);
            assert(out2.to_multiset().remove(dval) =~= outv.to_multiset());
            assert(out2.to_multiset().contains(dval)) by {
                assert(out2[p as int] == dval);
            }
            assert(out2.to_multiset() =~= outv.to_multiset().insert(dval));
            assert(t.to_multiset() == dv.take(i - 1).to_multiset().insert(dval));
        }
    }
    proof {
        assert(dv.take(dv.len() as int) =~= dv);
    }
    out
}

/// The most recent documents: sorted by creation time, newest first, cut
/// to at most `n`. The witness is the full sorted ordering the cut is a
/// prefix of.
pub fn most_recent(docs: Vec<Doc>, n: usize) -> (r: Vec<Doc>)
    ensures
        exists|full: Seq<DocView>|
            {
                &&& sorted_dir(full, SortKey::Created, false)
                &&& full.to_multiset() == docs_view(docs@).to_multiset()
                &&& forall|d: DocView| #[trigger] filter_keq(full, SortKey::Created, d)
                    == filter_keq(docs_view(docs@), SortKey::Created, d)
                &&& docs_view(r@) == full.take(
                    if n <= full.len() {
                        n as int
                    } else {
                        full.len() as int
                    },
                )
            },
{
    let ghost dv = docs_view(docs@);
    let mut sorted = sorted_by(docs, SortKey::Created, false);
    let ghost full = docs_view(sorted@);
    sorted.truncate(n);
    proof {
        let cut = if n <= full.len() {
            n as int
        } else {
            full.len() as int
        };
        assert forall|l: int| 0 <= l < docs_view(sorted@).len() implies docs_view(sorted@)[l]
            == full.take(cut)[l] by {
            assert(docs_view(sorted@)[l] == sorted@[l]@);
        }
        assert(docs_view(sorted@) =~= full.take(cut));
    }
    sorted
}

/// Swap the output path extension of every document.
pub fn set_extension(docs: Vec<Doc>, extension: &str) -> (r: Vec<Doc>)
    ensures
        r@.len() == docs@.len(),
        forall|l: int| 0 <= l < docs@.len() ==> docs_view(r@)[l] == (DocView {
            output_path: paths::set_extension_spec(docs_view(docs@)[l].output_path, extension@),
            ..docs_view(docs@)[l]
        }),
{
    let ghost dv = docs_view(docs@);
    let total = docs.len();
    let mut out: Vec<Doc> = Vec::new();
    let mut input = docs;
    let mut i: usize = 0;
    while input.len() > 0
        invariant
            dv == docs_view(docs@),
            total == dv.len(),
            i + input@.len() == total,
            docs_view(input@) =~= dv.skip(i as int),
            out@.len() == i,
            forall|l: int| 0 <= l < i ==> docs_view(out@)[l] == (DocView {
                output_path: paths::set_extension_spec(dv[l].output_path, extension@),
                ..dv[l]
            }),
        decreases input@.len(),
    {
        let ghost in0 = input@;
        let d = input.remove(0);
        proof {
            assert(docs_view(in0)[0] == in0[0]@);
            assert(docs_view(in0) == dv.skip(i as int));
            assert(d@ == dv[i as int]);
            assert forall|l: int| 0 <= l < input@.len() implies docs_view(input@)[l] == dv.skip(
                i as int + 1,
            )[l] by {
                assert(input@[l] == in0[l + 1]);
                assert(docs_view(in0)[l + 1] == in0[l + 1]@);
            }
            assert(docs_view(input@) =~= dv.skip(i as int + 1));
        }
        let ghost prev = out@;
        let d2 = d.set_extension(extension);
        out.push(d2);
        i = i + 1;
        proof {
            assert forall|l: int| 0 <= l < i implies docs_view(out@)[l] == (DocView {
                    output_path: paths::set_extension_spec(dv[l].output_path, extension@),
                    ..dv[l]
                }) by {
                assert(docs_view(out@)[l] == out@[l]@);
                if l < i - 1 {
                    assert(out@[l] == prev[l]);
                    assert(docs_view(prev)[l] == prev[l]@);
                } else {
                    assert(out@[l] == d2);
                }
            }
        }
    }
    out
}

/// Swap every document's output path extension for `.html`.
pub fn set_extension_html(docs: Vec<Doc>) -> (r: Vec<Doc>)
    ensures
        r@.len() == docs@.len(),
        forall|l: int| 0 <= l < docs@.len() ==> docs_view(r@)[l] == (DocView {
            output_path: paths::set_extension_spec(docs_view(docs@)[l].output_path, "html"@),
            ..docs_view(docs@)[l]
        }),
{
    set_extension(docs, "html")
}

/// Bind every document to the given template.
pub fn set_template(docs: Vec<Doc>, template_path: &str) -> (r: Vec<Doc>)
    ensures
        r@.len() == docs@.len(),
        forall|l: int| 0 <= l < docs@.len() ==> docs_view(r@)[l] == (DocView {
            template_path: Some(template_path@),
            ..docs_view(docs@)[l]
        }),
{
    let ghost dv = docs_view(docs@);
    let total = docs.len();
    let mut out: Vec<Doc> = Vec::new();
    let mut input = docs;
    let mut i: usize = 0;
    while input.len() > 0
        invariant
            dv == docs_view(docs@),
            total == dv.len(),
            i + input@.len() == total,
            docs_view(input@) =~= dv.skip(i as int),
            out@.len() == i,
            forall|l: int| 0 <= l < i ==> docs_view(out@)[l] == (DocView {
                template_path: Some(template_path@),
                ..dv[l]
            }),
        decreases input@.len(),
    {
        let ghost in0 = input@;
        let d = input.remove(0);
        proof {
            assert(docs_view(in0)[0] == in0[0]@);
            assert(docs_view(in0) == dv.skip(i as int));
            assert(d@ == dv[i as int]);
            assert forall|l: int| 0 <= l < input@.len() implies docs_view(input@)[l] == dv.skip(
                i as int + 1,
            )[l] by {
                assert(input@[l] == in0[l + 1]);
                assert(docs_view(in0)[l + 1] == in0[l + 1]@);
            }
            assert(docs_view(input@) =~= dv.skip(i as int + 1));
        }
        let ghost prev = out@;
        let d2 = d.set_template(template_path);
        out.push(d2);
        i = i + 1;
        proof {
            assert forall|l: int| 0 <= l < i implies docs_view(out@)[l] == (DocView { template_path: Some(template_path@), ..dv[l] }) by {
                assert(docs_view(out@)[l] == out@[l]@);
                if l < i - 1 {
                    assert(out@[l] == prev[l]);
                    assert(docs_view(prev)[l] == prev[l]@);
                } else {
                    assert(out@[l] == d2);
                }
            }
        }
    }
    out
}

/// Assign a template from each document's parent directory name, keeping
/// templates already set.
pub fn auto_template(docs: Vec<Doc>) -> (r: Vec<Doc>)
    ensures
        r@.len() == docs@.len(),
        forall|l: int| 0 <= l < docs@.len() ==> docs_view(r@)[l] == (if docs_view(docs@)[l].template_path is Some {
            docs_view(docs@)[l]
        } else {
            DocView {
                template_path: Some(Doc::auto_template_name(docs_view(docs@)[l])),
                ..docs_view(docs@)[l]
            }
        }),
{
    let ghost dv = docs_view(docs@);
    let total = docs.len();
    let mut out: Vec<Doc> = Vec::new();
    let mut input = docs;
    let mut i: usize = 0;
    while input.len() > 0
        invariant
            dv == docs_view(docs@),
            total == dv.len(),
            i + input@.len() == total,
            docs_view(input@) =~= dv.skip(i as int),
            out@.len() == i,
            forall|l: int| 0 <= l < i ==> docs_view(out@)[l] == (if dv[l].template_path is Some {
                dv[l]
            } else {
                DocView { template_path: Some(Doc::auto_template_name(dv[l])), ..dv[l] }
            }),
        decreases input@.len(),
    {
        let ghost in0 = input@;
        let d = input.remove(0);
        proof {
            assert(docs_view(in0)[0] == in0[0]@);
            assert(docs_view(in0) == dv.skip(i as int));
            assert(d@ == dv[i as int]);
            assert forall|l: int| 0 <= l < input@.len() implies docs_view(input@)[l] == dv.skip(
                i as int + 1,
            )[l] by {
                assert(input@[l] == in0[l + 1]);
                assert(docs_view(in0)[l + 1] == in0[l + 1]@);
            }
            assert(docs_view(input@) =~= dv.skip(i as int + 1));
        }
        let ghost prev = out@;
        let d2 = d.auto_template();
        out.push(d2);
        i = i + 1;
        proof {
            assert forall|l: int| 0 <= l < i implies docs_view(out@)[l] == (if dv[l].template_path is Some {
                    dv[l]
                } else {
                    DocView { template_path: Some(Doc::auto_template_name(dv[l])), ..dv[l] }
                }) by {
                assert(docs_view(out@)[l] == out@[l]@);
                if l < i - 1 {
                    assert(out@[l] == prev[l]);
                    assert(docs_view(prev)[l] == prev[l]@);
                } else {
                    assert(out@[l] == d2);
                }
            }
        }
    }
    out
}

/// Stands for what `glob::Pattern::new` decides about a pattern text:
/// whether it compiles.
pub uninterp spec fn glob_pattern_ok(p: Seq<char>) -> bool;

/// Stands for what `glob::Pattern::matches` returns: whether a text
/// matches a pattern, a function of the two alone.
pub uninterp spec fn glob_match(p: Seq<char>, t: Seq<char>) -> bool;

/// Relies on the glob crate: `Pattern::new` fails exactly on malformed
/// patterns, and `matches` depends on the compiled pattern and the text
/// alone.
#[verifier::external_body]
fn glob_matches(pattern: &str, text: &str) -> (r: Option<bool>)
    ensures
        r is Some <==> glob_pattern_ok(pattern@),
        r matches Some(b) ==> b == glob_match(pattern@, text@),
{
    match glob::Pattern::new(pattern) {
        Ok(m) => Some(m.matches(text)),
        Err(_) => None,
    }
}

/// The documents whose identity matches a glob pattern, in order.
pub open spec fn filter_matching_spec(s: Seq<DocView>, pattern: Seq<char>) -> Seq<DocView>
    decreases s.len(),
{
    if s.len() == 0 {
        Seq::empty()
    } else if glob_match(pattern, s.last().id_path) {
        filter_matching_spec(s.drop_last(), pattern).push(s.last())
    } else {
        filter_matching_spec(s.drop_last(), pattern)
    }
}

/// Keep the documents whose `id_path` matches a glob pattern; a malformed
/// pattern is a value error.
pub fn filter_matching(docs: Vec<Doc>, glob_pattern: &str) -> (r: Result<Vec<Doc>, Error>)
    ensures
        glob_pattern_ok(glob_pattern@) ==> (r matches Ok(v) && docs_view(v@)
            == filter_matching_spec(docs_view(docs@), glob_pattern@)),
        !glob_pattern_ok(glob_pattern@) ==> (r matches Err(e) && e.kind == ErrorKind::Value),
{
    // One probe settles whether the pattern compiles at all.
    match glob_matches(glob_pattern, "") {
        Some(_) => {},
        None => {
            let mut msg = String::from_str("Invalid glob pattern: ");
            msg.append(glob_pattern);
            return Err(Error::value(msg));
        },
    }
    let ghost dv = docs_view(docs@);
    let total = docs.len();
    let mut out: Vec<Doc> = Vec::new();
    let mut input = docs;
    let mut i: usize = 0;
    while input.len() > 0
        invariant
            glob_pattern_ok(glob_pattern@),
            dv == docs_view(docs@),
            total == dv.len(),
            i + input@.len() == total,
            docs_view(input@) =~= dv.skip(i as int),
            docs_view(out@) == filter_matching_spec(dv.take(i as int), glob_pattern@),
        decreases input@.len(),
    {
        let ghost in0 = input@;
        let d = input.remove(0);
        proof {
            assert(docs_view(in0)[0] == in0[0]@);
            assert(docs_view(in0) == dv.skip(i as int));
            assert(d@ == dv[i as int]);
            assert forall|l: int| 0 <= l < input@.len() implies docs_view(input@)[l] == dv.skip(
                i as int + 1,
            )[l] by {
                assert(input@[l] == in0[l + 1]);
                assert(docs_view(in0)[l + 1] == in0[l + 1]@);
            }
            assert(docs_view(input@) =~= dv.skip(i as int + 1));
        }
        let ghost prev = docs_view(out@);
        let keep = match glob_matches(glob_pattern, d.id_path.as_str()) {
            Some(b) => b,
            None => unreached(),
        };
        if keep {
            out.push(d);
            proof {
                assert(docs_view(out@) =~= prev.push(dv[i as int]));
            }
        }
        i = i + 1;
        proof {
            let t = dv.take(i as int);
            assert(t.drop_last() =~= dv.take(i - 1));
            assert(t.last() == dv[i - 1]);
        }
    }
    proof {
        assert(dv.take(dv.len() as int) =~= dv);
    }
    Ok(out)
}

/// The successful documents among per-document results, in order.
pub open spec fn oks_spec(s: Seq<Result<Doc, Error>>) -> Seq<Doc>
    decreases s.len(),
{
    if s.len() == 0 {
        Seq::empty()
    } else {
        match s.last() {
            Ok(d) => oks_spec(s.drop_last()).push(d),
            Err(_) => oks_spec(s.drop_last()),
        }
    }
}

/// The errors among per-document results, in order.
pub open spec fn errs_spec(s: Seq<Result<Doc, Error>>) -> Seq<Error>
    decreases s.len(),
{
    if s.len() == 0 {
        Seq::empty()
    } else {
        match s.last() {
            Ok(_) => errs_spec(s.drop_last()),
            Err(e) => errs_spec(s.drop_last()).push(e),
        }
    }
}

/// The drop-and-continue policy: part the results into the documents that
/// succeeded and the errors, each in order, so the caller can report the
/// errors and go on with the rest.
pub fn split_errors(results: Vec<Result<Doc, Error>>) -> (r: (Vec<Doc>, Vec<Error>))
    ensures
        r.0@ == oks_spec(results@),
        r.1@ == errs_spec(results@),
{
    let ghost rv = results@;
    let total = results.len();
    let mut docs: Vec<Doc> = Vec::new();
    let mut errs: Vec<Error> = Vec::new();
    let mut input = results;
    let mut i: usize = 0;
    while input.len() > 0
        invariant
            total == rv.len(),
            i + input@.len() == total,
            input@ =~= rv.skip(i as int),
            docs@ == oks_spec(rv.take(i as int)),
            errs@ == errs_spec(rv.take(i as int)),
        decreases input@.len(),
    {
        let item = input.remove(0);
        proof {
            assert(item == rv[i as int]);
            assert(input@ =~= rv.skip(i as int + 1));
        }
        match item {
            Ok(d) => docs.push(d),
            Err(e) => errs.push(e),
        }
        i = i + 1;
        proof {
            let t = rv.take(i as int);
            assert(t.drop_last() =~= rv.take(i - 1));
            assert(t.last() == rv[i - 1]);
        }
    }
    proof {
        assert(rv.take(rv.len() as int) =~= rv);
    }
    (docs, errs)
}

/// The abort-on-first-error policy: with every result successful, the
/// plain documents; the caller refuses the run before calling this where
/// any failed.
pub fn panic_at_first_error(results: Vec<Result<Doc, Error>>) -> (r: Vec<Doc>)
    requires
        forall|l: int| 0 <= l < results@.len() ==> results@[l] is Ok,
    ensures
        r@.len() == results@.len(),
        forall|l: int| 0 <= l < results@.len() ==> r@[l] == results@[l]->Ok_0,
{
    let ghost rv = results@;
    let total = results.len();
    let mut docs: Vec<Doc> = Vec::new();
    let mut input = results;
    let mut i: usize = 0;
    while input.len() > 0
        invariant
            total == rv.len(),
            i + input@.len() == total,
            input@ =~= rv.skip(i as int),
            forall|l: int| 0 <= l < rv.len() ==> rv[l] is Ok,
            docs@.len() == i,
            forall|l: int| 0 <= l < i ==> docs@[l] == rv[l]->Ok_0,
        decreases input@.len(),
    {
        let item = input.remove(0);
        proof {
            assert(item == rv[i as int]);
            assert(input@ =~= rv.skip(i as int + 1));
        }
        match item {
            Ok(d) => docs.push(d),
            Err(_) => unreached(),
        }
        i = i + 1;
    }
    docs
}

/// A sequence without an identity de-duplicates to one without it.
proof fn lemma_dedupe_no_id(s: Seq<DocView>, id: Seq<char>)
    requires
        !has_id(s, id),
    ensures
        !has_id(dedupe_spec(s), id),
    decreases s.len(),
{
    if s.len() > 0 {
        assert(!has_id(s.drop_last(), id)) by {
            if has_id(s.drop_last(), id) {
                let w = choose|j: int|
                    0 <= j < s.drop_last().len() && s.drop_last()[j].id_path == id;
                assert(s[w].id_path == id);
            }
        };
        lemma_dedupe_no_id(s.drop_last(), id);
        if !has_id(s.drop_last(), s.last().id_path) {
            assert(s.last().id_path != id);
            assert forall|j: int|
                0 <= j < dedupe_spec(s).len() implies dedupe_spec(s)[j].id_path != id by {
                if j < dedupe_spec(s.drop_last()).len() {
                    assert(dedupe_spec(s)[j] == dedupe_spec(s.drop_last())[j]);
                    assert(!has_id(dedupe_spec(s.drop_last()), id));
                }
            }
        }
    }
}

/// A sequence without an identity counts zero of it.
proof fn lemma_count_no_id(s: Seq<DocView>, id: Seq<char>)
    requires
        !has_id(s, id),
    ensures
        count_id(s, id) == 0,
    decreases s.len(),
{
    if s.len() > 0 {
        assert(!has_id(s.drop_last(), id)) by {
            if has_id(s.drop_last(), id) {
                let w = choose|j: int|
                    0 <= j < s.drop_last().len() && s.drop_last()[j].id_path == id;
                assert(s[w].id_path == id);
            }
        };
        lemma_count_no_id(s.drop_last(), id);
        assert(s.last().id_path != id) by {
            if s.last().id_path == id {
                assert(s[s.len() - 1].id_path == id);
            }
        };
    }
}

} // verus!
