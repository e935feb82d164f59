//! The taxonomy index: terms read from a metadata field, normalized to
//! tag form, fanned out into term buckets over a whole collection, and
//! the related-document lookup that unions buckets for a document's own
//! terms.

use vstd::prelude::*;
use crate::doc::Doc;
use crate::doc::DocView;
use crate::docs::docs_view;
use crate::docs::has_id;
use crate::text;
use crate::value::JsonVal;
use crate::value::Value;
use crate::value::jv_get;
use crate::value::list_view;

verus! {

/// A term in tag form: trimmed, lowercased, spaces swapped for
/// underscores (hashtag-friendly), reserved punctuation stripped.
pub open spec fn tag_of(s: Seq<char>) -> Seq<char> {
    text::slug_with_sep(s, '_')
}

/// Convert a string to a tag.
pub fn to_tag(term: &str) -> (r: String)
    ensures
        r@ == tag_of(term@),
{
    let t = text::trim(term);
    let lo = text::lowercase(t.as_str());
    text::swap_and_strip(lo.as_str(), '_')
}

/// The tags of an array's string elements, in order; other elements give
/// none.
pub open spec fn tags_of_list(xs: Seq<JsonVal>) -> Seq<Seq<char>>
    decreases xs.len(),
{
    if xs.len() == 0 {
        Seq::empty()
    } else {
        match xs.last() {
            JsonVal::Str(s) => tags_of_list(xs.drop_last()).push(tag_of(s)),
            _ => tags_of_list(xs.drop_last()),
        }
    }
}

/// Whether a term occurs among terms.
pub open spec fn has_term(ts: Seq<Seq<char>>, t: Seq<char>) -> bool {
    exists|j: int| 0 <= j < ts.len() && ts[j] == t
}

/// Terms with repeats dropped, first occurrences kept in order.
pub open spec fn dedup_terms(ts: Seq<Seq<char>>) -> Seq<Seq<char>>
    decreases ts.len(),
{
    if ts.len() == 0 {
        Seq::empty()
    } else if has_term(ts.drop_last(), ts.last()) {
        dedup_terms(ts.drop_last())
    } else {
        dedup_terms(ts.drop_last()).push(ts.last())
    }
}

/// The terms a document contributes under a taxonomy key: the tags of
/// the array stored there, de-duplicated before any fan-out.
pub open spec fn meta_tags_spec(meta: JsonVal, key: Seq<char>) -> Seq<Seq<char>> {
    match jv_get(meta, key) {
        Some(v) => match v {
            JsonVal::Arr(xs) => dedup_terms(tags_of_list(xs)),
            _ => Seq::empty(),
        },
        None => Seq::empty(),
    }
}

impl Doc {
    /// The tags stored under a taxonomy key in this document's metadata,
    /// normalized and de-duplicated, in first-seen order.
    pub fn get_meta_tags(&self, taxonomy_key: &str) -> (r: Vec<String>)
        ensures
            r.deep_view() == meta_tags_spec(self@.meta, taxonomy_key@),
    {
        let arr = match self.meta.get(taxonomy_key) {
            Some(v) => match v {
                Value::Arr(xs) => xs,
                _ => {
                    return Vec::new();
                },
            },
            None => {
                return Vec::new();
            },
        };
        let ghost lv = list_view(arr@);
        let n = arr.len();
        let mut out: Vec<String> = Vec::new();
        let mut i: usize = 0;
        while i < n
            invariant
                n == arr@.len(),
                lv == list_view(arr@),
                0 <= i <= n,
                out.deep_view() == dedup_terms(tags_of_list(lv.take(i as int))),
                forall|t: Seq<char>| has_term(out.deep_view(), t) == has_term(
                    tags_of_list(lv.take(i as int)),
                    t,
                ),
            decreases n - i,
        {
            proof {
                assert(lv[i as int] == arr@[i as int]@);
            }
            let ghost prev = out.deep_view();
            let ghost ts = tags_of_list(lv.take(i as int));
            let elem = &arr[i];
            let mut tagged: Option<String> = None;
            match elem.as_str() {
                Some(s) => {
                    tagged = Some(to_tag(s.as_str()));
                },
                None => {},
            }
            match tagged {
                Some(tag) => {
                    // Keep a term only at its first occurrence.
                    let m = out.len();
                    let mut j: usize = 0;
                    let mut seen: bool = false;
                    while j < m && !seen
                        invariant
                            m == out@.len(),
                            prev == out.deep_view(),
                            0 <= j <= m,
                            seen ==> has_term(prev, tag@),
                            !seen ==> forall|l: int| 0 <= l < j ==> prev[l] != tag@,
                        decreases m - j + (if seen { 0int } else { 1int }),
                    {
                        if crate::strutil::str_eq(out[j].as_str(), tag.as_str()) {
                            proof {
                                assert(prev[j as int] == tag@);
                            }
                            seen = true;
                        } else {
                            j = j + 1;
                        }
                    }
                    if !seen {
                        proof {
                            assert(!has_term(prev, tag@)) by {
                                if has_term(prev, tag@) {
                                    let w = choose|l: int|
                                        0 <= l < prev.len() && #[trigger] prev[l] == tag@;
                                }
                            };
                        }
                        out.push(tag);
                        proof {
                            assert(out.deep_view() =~= prev.push(tag_of(arr@[
                                i as int
                            ]@->Str_0)));
                        }
                    }
                },
                None => {},
            }
            i = i + 1;
            proof {
                let t2 = lv.take(i as int);
                assert(t2.drop_last() =~= lv.take(i - 1));
                assert(t2.last() == lv[i - 1]);
                let ts2 = tags_of_list(t2);
                let outv = out.deep_view();
                if lv[i - 1] is Str {
                    let tg = tag_of(lv[i - 1]->Str_0);
                    assert(ts2 == ts.push(tg));
                    assert(ts2.drop_last() =~= ts);
                    if has_term(ts, tg) {
                        assert(dedup_terms(ts2) == dedup_terms(ts));
                    } else {
                        assert(dedup_terms(ts2) == dedup_terms(ts).push(tg));
                    }
                    assert forall|t: Seq<char>| has_term(outv, t) == has_term(ts2, t) by {
                        if has_term(ts2, t) {
                            let w = choose|l: int|
                                0 <= l < ts2.len() && #[trigger] ts2[l] == t;
                            if w < ts.len() {
                                assert(ts[w] == t);
                                assert(has_term(ts, t));
                                assert(has_term(prev, t));
                                let u = choose|l: int|
                                    0 <= l < prev.len() && #[trigger] prev[l] == t;
                                assert(outv[u] == t);
                            } else {
                                assert(t == tg);
                                if has_term(ts, tg) {
                                    assert(has_term(prev, t));
                                    let u = choose|l: int|
                                        0 <= l < prev.len() && #[trigger] prev[l] == t;
                                    assert(outv[u] == t);
                                } else {
                                    assert(outv[outv.len() - 1] == t);
                                }
                            }
                        }
                        if has_term(outv, t) {
                            let w = choose|l: int|
                                0 <= l < outv.len() && #[trigger] outv[l] == t;
                            if w < prev.len() {
                                assert(prev[w] == t);
                                assert(has_term(prev, t));
                                assert(has_term(ts, t));
                                let v = choose|l: int|
                                    0 <= l < ts.len() && #[trigger] ts[l] == t;
                                assert(ts2[v] == t);
                            } else {
                                assert(t == tg);
                                assert(ts2[ts2.len() - 1] == t);
                            }
                        }
                    }
                } else {
                    assert(ts2 == ts);
                    assert(outv == prev);
                }
            }
        }
        proof {
            assert(lv.take(n as int) =~= lv);
        }
        out
    }
}

/// The shapes of a taxonomy index: each term with its bucket of
/// documents.
pub open spec fn tag_index_view(idx: Seq<(String, Vec<Doc>)>) -> Seq<(Seq<char>, Seq<DocView>)> {
    Seq::new(
        idx.len(),
        |i: int|
            if 0 <= i < idx.len() {
                (idx[i].0@, docs_view(idx[i].1@))
            } else {
                (Seq::empty(), Seq::empty())
            },
    )
}

/// The first bucket a term is bound to in an index.
pub open spec fn bucket_for(idx: Seq<(Seq<char>, Seq<DocView>)>, k: Seq<char>) -> Option<
    Seq<DocView>,
>
    decreases idx.len(),
{
    if idx.len() == 0 {
        None
    } else if idx[0].0 == k {
        Some(idx[0].1)
    } else {
        bucket_for(idx.skip(1), k)
    }
}

proof fn lemma_bucket_for_skip(idx: Seq<(Seq<char>, Seq<DocView>)>, k: Seq<char>, i: int)
    requires
        0 <= i <= idx.len(),
        forall|j: int| 0 <= j < i ==> idx[j].0 != k,
    ensures
        bucket_for(idx, k) == bucket_for(idx.skip(i), k),
    decreases i,
{
    if i > 0 {
        lemma_bucket_for_skip(idx.skip(1), k, i - 1);
        assert(idx.skip(1).skip(i - 1) =~= idx.skip(i));
    } else {
        assert(idx.skip(0) =~= idx);
    }
}

/// A union extended by one bucket: each of the bucket's documents
/// appended unless its identity is already present.
pub open spec fn add_bucket(u: Seq<DocView>, b: Seq<DocView>) -> Seq<DocView>
    decreases b.len(),
{
    if b.len() == 0 {
        u
    } else {
        let u2 = add_bucket(u, b.drop_last());
        if has_id(u2, b.last().id_path) {
            u2
        } else {
            u2.push(b.last())
        }
    }
}

/// The union of the buckets for the given keys, in key order then bucket
/// order, de-duplicated by identity with first occurrences kept.
pub open spec fn union_spec(idx: Seq<(Seq<char>, Seq<DocView>)>, keys: Seq<Seq<char>>) -> Seq<
    DocView,
>
    decreases keys.len(),
{
    if keys.len() == 0 {
        Seq::empty()
    } else {
        let u = union_spec(idx, keys.drop_last());
        match bucket_for(idx, keys.last()) {
            Some(b) => add_bucket(u, b),
            None => u,
        }
    }
}

/// The combined, de-duplicated documents of the buckets for a list of
/// keys, in first-seen order.
pub fn get_union_for_index_keys(index: &Vec<(String, Vec<Doc>)>, keys: &Vec<String>) -> (r: Vec<
    Doc,
>)
    ensures
        docs_view(r@) == union_spec(tag_index_view(index@), keys.deep_view()),
{
    let ghost iv = tag_index_view(index@);
    let ghost kv = keys.deep_view();
    let nk = keys.len();
    let mut out: Vec<Doc> = Vec::new();
    let mut i: usize = 0;
    while i < nk
        invariant
            nk == keys@.len(),
            iv == tag_index_view(index@),
            kv == keys.deep_view(),
            kv.len() == nk,
            0 <= i <= nk,
            docs_view(out@) == union_spec(iv, kv.take(i as int)),
        decreases nk - i,
    {
        proof {
            assert(kv[i as int] == keys@[i as int]@);
        }
        let ghost ubase = docs_view(out@);
        let key = &keys[i];
        // Find the bucket for this key, if there is one.
        let m = index.len();
        let mut j: usize = 0;
        let mut found: bool = false;
        while j < m && !found
            invariant
                m == index@.len(),
                iv == tag_index_view(index@),
                0 <= j <= m,
                found ==> j < m && iv[j as int].0 == key@ && forall|l: int|
                    0 <= l < j ==> iv[l].0 != key@,
                !found ==> forall|l: int| 0 <= l < j ==> iv[l].0 != key@,
            decreases m - j + (if found { 0int } else { 1int }),
        {
            if crate::strutil::str_eq(index[j].0.as_str(), key.as_str()) {
                found = true;
            } else {
                j = j + 1;
            }
        }
        if found {
            proof {
                lemma_bucket_for_skip(iv, key@, j as int);
                assert(iv.skip(j as int)[0] == iv[j as int]);
                assert(bucket_for(iv, key@) == Some(iv[j as int].1));
            }
            let bucket = &index[j].1;
            let ghost bv = docs_view(bucket@);
            let bn = bucket.len();
            let mut p: usize = 0;
            while p < bn
                invariant
                    bn == bucket@.len(),
                    bv == docs_view(bucket@),
                    0 <= p <= bn,
                    docs_view(out@) == add_bucket(ubase, bv.take(p as int)),
                decreases bn - p,
            {
                proof {
                    assert(bv[p as int] == bucket@[p as int]@);
                }
                let ghost ucur = docs_view(out@);
                let d = &bucket[p];
                // Keep a document only at its first occurrence.
                let q = out.len();
                let mut l: usize = 0;
                let mut seen: bool = false;
                while l < q && !seen
                    invariant
                        q == out@.len(),
                        ucur == docs_view(out@),
                        0 <= l <= q,
                        seen ==> has_id(ucur, d@.id_path),
                        !seen ==> forall|w: int| 0 <= w < l ==> ucur[w].id_path != d@.id_path,
                    decreases q - l + (if seen { 0int } else { 1int }),
                {
                    if crate::strutil::str_eq(out[l].id_path.as_str(), d.id_path.as_str()) {
                        proof {
                            assert(ucur[l as int].id_path == d@.id_path);
                        }
                        seen = true;
                    } else {
                        l = l + 1;
                    }
                }
                if !seen {
                    proof {
                        assert(!has_id(ucur, d@.id_path)) by {
                            if has_id(ucur, d@.id_path) {
                                let w = choose|w: int|
                                    0 <= w < ucur.len() && #[trigger] ucur[w].id_path
                                        == d@.id_path;
                            }
                        };
                    }
                    out.push(d.clone());
                    proof {
                        assert(docs_view(out@) =~= ucur.push(bv[p as int]));
                    }
                }
                p = p + 1;
                proof {
                    let bt = bv.take(p as int);
                    assert(bt.drop_last() =~= bv.take(p - 1));
                    assert(bt.last() == bv[p - 1]);
                }
            }
            proof {
                assert(bv.take(bn as int) =~= bv);
            }
        } else {
            proof {
                lemma_bucket_for_skip(iv, key@, m as int);
                assert(iv.skip(m as int).len() == 0);
            }
        }
        i = i + 1;
        proof {
            let kt = kv.take(i as int);
            assert(kt.drop_last() =~= kv.take(i - 1));
            assert(kt.last() == kv[i - 1]);
        }
    }
    proof {
        assert(kv.take(nk as int) =~= kv);
    }
    out
}

/// An index with one document appended to a term's bucket: the first
/// bucket bound to the term grows, or a new bucket opens at the end.
pub open spec fn add_to_bucket(
    idx: Seq<(Seq<char>, Seq<DocView>)>,
    term: Seq<char>,
    d: DocView,
) -> Seq<(Seq<char>, Seq<DocView>)>
    decreases idx.len(),
{
    if idx.len() == 0 {
        seq![(term, seq![d])]
    } else if idx[0].0 == term {
        seq![(idx[0].0, idx[0].1.push(d))] + idx.skip(1)
    } else {
        seq![idx[0]] + add_to_bucket(idx.skip(1), term, d)
    }
}

proof fn lemma_add_to_bucket_update(
    idx: Seq<(Seq<char>, Seq<DocView>)>,
    term: Seq<char>,
    d: DocView,
    j: int,
)
    requires
        0 <= j < idx.len(),
        idx[j].0 == term,
        forall|l: int| 0 <= l < j ==> idx[l].0 != term,
    ensures
        add_to_bucket(idx, term, d) == idx.update(j, (idx[j].0, idx[j].1.push(d))),
    decreases j,
{
    if j == 0 {
        assert(seq![(idx[0].0, idx[0].1.push(d))] + idx.skip(1) =~= idx.update(
            0,
            (idx[0].0, idx[0].1.push(d)),
        ));
    } else {
        lemma_add_to_bucket_update(idx.skip(1), term, d, j - 1);
        assert(seq![idx[0]] + idx.skip(1).update(j - 1, (idx[j].0, idx[j].1.push(d)))
            =~= idx.update(j, (idx[j].0, idx[j].1.push(d))));
    }
}

proof fn lemma_add_to_bucket_push(
    idx: Seq<(Seq<char>, Seq<DocView>)>,
    term: Seq<char>,
    d: DocView,
)
    requires
        forall|l: int| 0 <= l < idx.len() ==> idx[l].0 != term,
    ensures
        add_to_bucket(idx, term, d) == idx.push((term, seq![d])),
    decreases idx.len(),
{
    if idx.len() == 0 {
        assert(seq![(term, seq![d])] =~= idx.push((term, seq![d])));
    } else {
        lemma_add_to_bucket_push(idx.skip(1), term, d);
        assert(seq![idx[0]] + idx.skip(1).push((term, seq![d])) =~= idx.push((term, seq![d])));
    }
}

/// One document fanned out to the buckets for its terms, term by term.
pub open spec fn fanout(
    idx: Seq<(Seq<char>, Seq<DocView>)>,
    terms: Seq<Seq<char>>,
    d: DocView,
) -> Seq<(Seq<char>, Seq<DocView>)>
    decreases terms.len(),
{
    if terms.len() == 0 {
        idx
    } else {
        add_to_bucket(fanout(idx, terms.drop_last(), d), terms.last(), d)
    }
}

/// The taxonomy index a collection builds under a key: each document
/// fanned out once per term, documents in input order, buckets in order
/// of first appearance.
pub open spec fn build_tag_index(s: Seq<DocView>, key: Seq<char>) -> Seq<
    (Seq<char>, Seq<DocView>),
>
    decreases s.len(),
{
    if s.len() == 0 {
        Seq::empty()
    } else {
        fanout(
            build_tag_index(s.drop_last(), key),
            meta_tags_spec(s.last().meta, key),
            s.last(),
        )
    }
}

/// Index documents by taxonomy: a bucket of documents for every term
/// found under the key, terms normalized to tag form.
#[verifier::rlimit(30)]
pub fn index_by_tag(docs: &Vec<Doc>, taxonomy_key: &str) -> (r: Vec<(String, Vec<Doc>)>)
    ensures
        tag_index_view(r@) == build_tag_index(docs_view(docs@), taxonomy_key@),
{
    let ghost dv = docs_view(docs@);
    let n = docs.len();
    let mut out: Vec<(String, Vec<Doc>)> = Vec::new();
    let mut i: usize = 0;
    while i < n
        invariant
            n == docs@.len(),
            dv == docs_view(docs@),
            0 <= i <= n,
            tag_index_view(out@) == build_tag_index(dv.take(i as int), taxonomy_key@),
        decreases n - i,
    {
        proof {
            assert(dv[i as int] == docs@[i as int]@);
        }
        let d = &docs[i];
        let terms = d.get_meta_tags(taxonomy_key);
        let ghost tv = terms.deep_view();
        let ghost base = tag_index_view(out@);
        let tn = terms.len();
        let mut t: usize = 0;
        while t < tn
            invariant
                tn == terms@.len(),
                tv == terms.deep_view(),
                tv.len() == tn,
                0 <= t <= tn,
                d@ == dv[i as int],
                d == &docs[i as int],
                i < n,
                n == docs@.len(),
                dv == docs_view(docs@),
                tag_index_view(out@) == fanout(base, tv.take(t as int), dv[i as int]),
            decreases tn - t,
        {
            proof {
                assert(tv[t as int] == terms@[t as int]@);
            }
            let ghost cur = tag_index_view(out@);
            let term = &terms[t];
            // Find the term's bucket, if it is already open.
            let m = out.len();
            let mut j: usize = 0;
            let mut found: bool = false;
            while j < m && !found
                invariant
                    m == out@.len(),
                    cur == tag_index_view(out@),
                    0 <= j <= m,
                    found ==> j < m && cur[j as int].0 == term@ && forall|l: int|
                        0 <= l < j ==> cur[l].0 != term@,
                    !found ==> forall|l: int| 0 <= l < j ==> cur[l].0 != term@,
                decreases m - j + (if found { 0int } else { 1int }),
            {
                if crate::strutil::str_eq(out[j].0.as_str(), term.as_str()) {
                    found = true;
                } else {
                    j = j + 1;
                }
            }
            if found {
                proof {
                    lemma_add_to_bucket_update(cur, term@, dv[i as int], j as int);
                }
                let ghost out0 = out@;
                let mut entry = out.remove(j);
                entry.1.push(d.clone());
                out.insert(j, entry);
                proof {
                    assert(out@ =~= out0.update(
                        j as int,
                        (out0[j as int].0, out@[j as int].1),
                    ));
                    assert forall|l: int|
                        0 <= l < out@.len() implies tag_index_view(out@)[l] == cur.update(
                        j as int,
                        (cur[j as int].0, cur[j as int].1.push(dv[i as int])),
                    )[l] by {
                        if l != j {
                            assert(out@[l] == out0[l]);
                            assert(tag_index_view(out0)[l] == (out0[l].0@, docs_view(
                                out0[l].1@,
                            )));
                        } else {
                            assert(docs_view(out@[j as int].1@) =~= docs_view(
                                out0[j as int].1@,
                            ).push(dv[i as int]));
                        }
                    }
                    assert(tag_index_view(out@) =~= cur.update(
                        j as int,
                        (cur[j as int].0, cur[j as int].1.push(dv[i as int])),
                    ));
                }
            } else {
                proof {
                    lemma_add_to_bucket_push(cur, term@, dv[i as int]);
                }
                let mut bucket: Vec<Doc> = Vec::new();
                bucket.push(d.clone());
                let key_owned = term.clone();
                out.push((key_owned, bucket));
                proof {
                    assert(docs_view(out@[out@.len() - 1].1@) =~= seq![dv[i as int]]);
                    assert(tag_index_view(out@) =~= cur.push((term@, seq![dv[i as int]])));
                }
            }
            t = t + 1;
            proof {
                let tt = tv.take(t as int);
                assert(tt.drop_last() =~= tv.take(t - 1));
                assert(tt.last() == tv[t - 1]);
            }
        }
        i = i + 1;
        proof {
            assert(tv.take(tn as int) =~= tv);
            let st = dv.take(i as int);
            assert(st.drop_last() =~= dv.take(i - 1));
            assert(st.last() == dv[i - 1]);
        }
    }
    proof {
        assert(dv.take(n as int) =~= dv);
    }
    out
}

impl Doc {
    /// The documents related to this one: the union of the index buckets
    /// for this document's own terms, first-seen order kept, with this
    /// document itself left out.
    pub fn get_related_from_tag_index(
        self,
        taxonomy_key: &str,
        taxonomy_index: &Vec<(String, Vec<Doc>)>,
    ) -> (r: Vec<Doc>)
        ensures
            docs_view(r@) == crate::docs::remove_with_id_spec(
                union_spec(
                    tag_index_view(taxonomy_index@),
                    meta_tags_spec(self@.meta, taxonomy_key@),
                ),
                self@.id_path,
            ),
    {
        let tags = self.get_meta_tags(taxonomy_key);
        let union = get_union_for_index_keys(taxonomy_index, &tags);
        crate::docs::remove_with_id_path(union, self.id_path.as_str())
    }
}

/// A document's summary details as a metadata value, for carrying bucket
/// members inside an archive page's metadata.
pub open spec fn stub_jv(d: DocView) -> JsonVal {
    JsonVal::Obj(
        seq![
            ("id_path"@, JsonVal::Str(d.id_path)),
            ("output_path"@, JsonVal::Str(d.output_path)),
            ("created"@, JsonVal::Str(crate::time::time_text(d.created))),
            ("modified"@, JsonVal::Str(crate::time::time_text(d.modified))),
            ("title"@, JsonVal::Str(d.title)),
            ("summary"@, JsonVal::Str(d.summary)),
        ],
    )
}

/// A document's summary details as a metadata value.
pub fn stub_value(d: &Doc) -> (r: Value)
    ensures
        r@ == stub_jv(d@),
{
    let mut ps: Vec<(String, Value)> = Vec::new();
    ps.push((String::from_str("id_path"), Value::Str(d.id_path.clone())));
    ps.push((String::from_str("output_path"), Value::Str(d.output_path.clone())));
    ps.push((String::from_str("created"), Value::Str(crate::time::time_string(&d.created))));
    ps.push((String::from_str("modified"), Value::Str(crate::time::time_string(&d.modified))));
    ps.push((String::from_str("title"), Value::Str(d.title.clone())));
    ps.push((String::from_str("summary"), Value::Str(d.summary.clone())));
    let r = Value::Obj(ps);
    proof {
        assert(r@->Obj_0 == crate::value::pairs_view(ps@));
        assert(crate::value::pairs_view(ps@).len() == 6);
        assert(crate::value::pairs_view(ps@)[0] == (ps@[0].0@, ps@[0].1@));
        assert(r@->Obj_0 =~~= seq![
            ("id_path"@, JsonVal::Str(d@.id_path)),
            ("output_path"@, JsonVal::Str(d@.output_path)),
            ("created"@, JsonVal::Str(crate::time::time_text(d@.created))),
            ("modified"@, JsonVal::Str(crate::time::time_text(d@.modified))),
            ("title"@, JsonVal::Str(d@.title)),
            ("summary"@, JsonVal::Str(d@.summary)),
        ]);
        assert(r@ == stub_jv(d@));
    }
    r
}

/// The summary details of a whole bucket, in order.
pub open spec fn stubs_jv(ds: Seq<DocView>) -> Seq<JsonVal>
    decreases ds.len(),
{
    if ds.len() == 0 {
        Seq::empty()
    } else {
        stubs_jv(ds.drop_last()).push(stub_jv(ds.last()))
    }
}

/// The summary details of a whole bucket as a metadata array.
fn stubs_value(bucket: &Vec<Doc>) -> (r: Value)
    ensures
        r@ == JsonVal::Arr(stubs_jv(docs_view(bucket@))),
{
    let ghost bv = docs_view(bucket@);
    let n = bucket.len();
    let mut xs: Vec<Value> = Vec::new();
    let mut i: usize = 0;
    while i < n
        invariant
            n == bucket@.len(),
            bv == docs_view(bucket@),
            0 <= i <= n,
            list_view(xs@) == stubs_jv(bv.take(i as int)),
        decreases n - i,
    {
        proof {
            assert(bv[i as int] == bucket@[i as int]@);
        }
        let v = stub_value(&bucket[i]);
        xs.push(v);
        i = i + 1;
        proof {
            let t = bv.take(i as int);
            assert(t.drop_last() =~= bv.take(i - 1));
            assert(t.last() == bv[i - 1]);
            assert(list_view(xs@) =~= stubs_jv(t));
        }
    }
    proof {
        assert(bv.take(n as int) =~= bv);
    }
    Value::Arr(xs)
}

/// The output path an archive page for a term renders to.
pub open spec fn archive_path(
    tmpl: Seq<char>,
    taxonomy_key: Seq<char>,
    term: Seq<char>,
) -> Seq<char> {
    crate::token_template::render_spec(
        tmpl,
        seq![
            ("taxonomy"@, text::slug_with_sep(taxonomy_key, '-')),
            ("term"@, text::slug_with_sep(term, '-')),
        ],
    )
}

/// The shape of one archive page for a term: output path rendered from
/// the template, the term as title, the bucket's members carried in the
/// metadata under `items`.
pub open spec fn archive_shape(
    a: DocView,
    tmpl: Seq<char>,
    key: Seq<char>,
    term: Seq<char>,
    bucket: Seq<DocView>,
    tp: Option<Seq<char>>,
) -> bool {
    &&& a.id_path == archive_path(tmpl, key, term)
    &&& a.output_path == a.id_path
    &&& a.input_path is None
    &&& a.template_path == tp
    &&& a.title == term
    &&& a.summary.len() == 0
    &&& a.content == "content"@
    &&& a.meta == JsonVal::Obj(seq![("items"@, JsonVal::Arr(stubs_jv(bucket)))])
    &&& a.created.wf()
    &&& a.modified == a.created
}

/// Generate one archive page per term of the taxonomy index that `docs`
/// builds: output path rendered from the template over `{taxonomy}` and
/// `{term}`, the term as title, and the bucket's members carried in the
/// page's metadata under `items`.
pub fn generate_tag_archives(
    docs: &Vec<Doc>,
    taxonomy_key: &str,
    output_path_template: &str,
    template_path: Option<&str>,
) -> (r: Vec<Doc>)
    ensures
        ({
            let idx = build_tag_index(docs_view(docs@), taxonomy_key@);
            let tp = match template_path {
                Some(p) => Some(p@),
                None => None::<Seq<char>>,
            };
            &&& r@.len() == idx.len()
            &&& forall|l: int|
                0 <= l < idx.len() ==> archive_shape(
                    #[trigger] docs_view(r@)[l],
                    output_path_template@,
                    taxonomy_key@,
                    idx[l].0,
                    idx[l].1,
                    tp,
                )
        }),
{
    let index = index_by_tag(docs, taxonomy_key);
    let ghost idx = tag_index_view(index@);
    let ghost tp = match template_path {
        Some(p) => Some(p@),
        None => None::<Seq<char>>,
    };
    let taxonomy_slug = text::to_slug(taxonomy_key);
    let n = index.len();
    let mut out: Vec<Doc> = Vec::new();
    let mut i: usize = 0;
    while i < n
        invariant
            n == index@.len(),
            idx == tag_index_view(index@),
            tp == (match template_path {
                Some(p) => Some(p@),
                None => None::<Seq<char>>,
            }),
            0 <= i <= n,
            out@.len() == i,
            taxonomy_slug@ == text::slug_with_sep(taxonomy_key@, '-'),
            forall|l: int|
                0 <= l < i ==> archive_shape(
                    #[trigger] docs_view(out@)[l],
                    output_path_template@,
                    taxonomy_key@,
                    idx[l].0,
                    idx[l].1,
                    tp,
                ),
        decreases n - i,
    {
        proof {
            assert(idx[i as int] == (index@[i as int].0@, docs_view(index@[i as int].1@)));
        }
        let ghost prev = out@;
        let entry = &index[i];
        let term_slug = text::to_slug(entry.0.as_str());
        let mut parts: Vec<(String, String)> = Vec::new();
        parts.push((String::from_str("taxonomy"), taxonomy_slug.clone()));
        parts.push((String::from_str("term"), term_slug));
        proof {
            assert(crate::token_template::parts_view(parts@) =~= seq![
                ("taxonomy"@, text::slug_with_sep(taxonomy_key@, '-')),
                ("term"@, text::slug_with_sep(idx[i as int].0, '-')),
            ]);
        }
        let output_path = crate::token_template::render(output_path_template, &parts);
        let items = stubs_value(&entry.1);
        let mut meta_ps: Vec<(String, Value)> = Vec::new();
        meta_ps.push((String::from_str("items"), items));
        let ghost mpv = meta_ps@;
        let meta = Value::Obj(meta_ps);
        proof {
            assert(meta@->Obj_0 == crate::value::pairs_view(mpv));
            assert(crate::value::pairs_view(mpv).len() == 1);
            assert(crate::value::pairs_view(mpv)[0] == (mpv[0].0@, mpv[0].1@));
            assert(meta@->Obj_0 =~~= seq![
                ("items"@, JsonVal::Arr(stubs_jv(idx[i as int].1))),
            ]);
            assert(meta@ == JsonVal::Obj(seq![
                ("items"@, JsonVal::Arr(stubs_jv(idx[i as int].1))),
            ]));
        }
        let now = crate::time::Time::now();
        let tmpl: Option<String> = match template_path {
            Some(p) => Some(p.to_owned()),
            None => None,
        };
        let archive = Doc::new(
            output_path.clone(),
            output_path,
            None,
            tmpl,
            now,
            now,
            entry.0.clone(),
            String::new(),
            String::from_str("content"),
            meta,
        );
        let ghost av = archive@;
        proof {
            assert(archive_shape(
                av,
                output_path_template@,
                taxonomy_key@,
                idx[i as int].0,
                idx[i as int].1,
                tp,
            ));
        }
        out.push(archive);
        i = i + 1;
        proof {
            assert forall|l: int|
                0 <= l < i implies archive_shape(
                #[trigger] docs_view(out@)[l],
                output_path_template@,
                taxonomy_key@,
                idx[l].0,
                idx[l].1,
                tp,
            ) by {
                assert(docs_view(out@)[l] == out@[l]@);
                if l < i - 1 {
                    assert(out@[l] == prev[l]);
                    assert(docs_view(prev)[l] == prev[l]@);
                } else {
                    assert(out@[l] == out@[i - 1]);
                    assert(out@[i - 1]@ == av);
                }
            }
        }
    }
    out
}

/// The whole taxonomy index as one metadata value: each term bound to
/// the summary details of its bucket.
pub open spec fn index_jv(idx: Seq<(Seq<char>, Seq<DocView>)>) -> Seq<(Seq<char>, JsonVal)>
    decreases idx.len(),
{
    if idx.len() == 0 {
        Seq::empty()
    } else {
        index_jv(idx.drop_last()).push((idx.last().0, JsonVal::Arr(stubs_jv(idx.last().1))))
    }
}

/// Generate one document carrying the whole taxonomy index, rendered as
/// JSON, for use as site-level template data.
pub fn generate_tag_index_doc(
    docs: &Vec<Doc>,
    taxonomy_key: &str,
    output_path: &str,
) -> (r: Result<Doc, crate::error::Error>)
    ensures
        r matches Ok(d) && {
            let idx = build_tag_index(docs_view(docs@), taxonomy_key@);
            &&& d@.id_path == output_path@
            &&& d@.output_path == output_path@
            &&& d@.input_path is None
            &&& d@.template_path is None
            &&& d@.title == taxonomy_key@
            &&& d@.summary.len() == 0
            &&& d@.content == crate::json::json_of(JsonVal::Obj(index_jv(idx)))
            &&& d@.meta == JsonVal::Obj(Seq::<(Seq<char>, JsonVal)>::empty())
            &&& d@.created.wf()
            &&& d@.modified == d@.created
        },
{
    let index = index_by_tag(docs, taxonomy_key);
    let ghost idx = tag_index_view(index@);
    let n = index.len();
    let mut ps: Vec<(String, Value)> = Vec::new();
    let mut i: usize = 0;
    while i < n
        invariant
            n == index@.len(),
            idx == tag_index_view(index@),
            0 <= i <= n,
            crate::value::pairs_view(ps@) == index_jv(idx.take(i as int)),
        decreases n - i,
    {
        proof {
            assert(idx[i as int] == (index@[i as int].0@, docs_view(index@[i as int].1@)));
        }
        let entry = &index[i];
        let items = stubs_value(&entry.1);
        ps.push((entry.0.clone(), items));
        i = i + 1;
        proof {
            let t = idx.take(i as int);
            assert(t.drop_last() =~= idx.take(i - 1));
            assert(t.last() == idx[i - 1]);
            assert(crate::value::pairs_view(ps@) =~= index_jv(t));
        }
    }
    proof {
        assert(idx.take(n as int) =~= idx);
    }
    let index_value = Value::Obj(ps);
    let json_string = crate::json::to_json_string(&index_value);
    let created = crate::time::Time::now();
    let empty_vec: Vec<(String, Value)> = Vec::new();
    let ghost epv = empty_vec@;
    let empty_meta = Value::Obj(empty_vec);
    proof {
        assert(empty_meta@->Obj_0 == crate::value::pairs_view(epv));
        assert(crate::value::pairs_view(epv).len() == 0);
        assert(empty_meta@->Obj_0 =~= Seq::<(Seq<char>, JsonVal)>::empty());
        assert(empty_meta@ == JsonVal::Obj(Seq::<(Seq<char>, JsonVal)>::empty()));
    }
    Ok(
        Doc::new(
            output_path.to_owned(),
            output_path.to_owned(),
            None,
            None,
            created,
            created,
            taxonomy_key.to_owned(),
            String::new(),
            json_string,
            empty_meta,
        ),
    )
}

} // verus!
