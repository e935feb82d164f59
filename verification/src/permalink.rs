//! Permalinks: deriving a parts map from a document's path and creation
//! date, and rendering an output path from a token template. Parts that
//! cannot be derived degrade to an empty map, never to a failure.

use vstd::prelude::*;
use crate::doc::Doc;
use crate::doc::DocView;
use crate::paths;
use crate::strutil;
use crate::text;
use crate::time;
use crate::token_template;

verus! {

/// Every piece slugged, in place.
pub open spec fn slug_pieces(ps: Seq<Seq<char>>) -> Seq<Seq<char>>
    decreases ps.len(),
{
    if ps.len() == 0 {
        Seq::empty()
    } else {
        slug_pieces(ps.drop_last()).push(text::slug_with_sep(ps.last(), '-'))
    }
}

/// A path with every slash-separated piece slugged.
pub open spec fn sluggify_path_spec(p: Seq<char>) -> Seq<char> {
    strutil::join_with(slug_pieces(strutil::split_spec(p, '/')), '/')
}

/// Slug every component of a path.
pub fn sluggify_path(path: &str) -> (r: String)
    ensures
        r@ == sluggify_path_spec(path@),
{
    let pieces = strutil::split_char(path, '/');
    let ghost pv = pieces.deep_view();
    let n = pieces.len();
    let mut slugged: Vec<String> = Vec::new();
    let mut i: usize = 0;
    while i < n
        invariant
            n == pieces@.len(),
            pv == pieces.deep_view(),
            0 <= i <= n,
            slugged@.len() == i,
            slugged.deep_view() == slug_pieces(pv.take(i as int)),
        decreases n - i,
    {
        proof {
            assert(pv[i as int] == pieces@[i as int]@);
        }
        let s = text::to_slug(pieces[i].as_str());
        slugged.push(s);
        i = i + 1;
        proof {
            let t = pv.take(i as int);
            assert(t.drop_last() =~= pv.take(i - 1));
            assert(t.last() == pv[i - 1]);
            assert(slugged.deep_view() =~= slug_pieces(t));
        }
    }
    proof {
        assert(pv.take(n as int) =~= pv);
    }
    let ghost sp = slug_pieces(pv);
    let mut out = String::new();
    let mut k: usize = 0;
    while k < n
        invariant
            n == slugged@.len(),
            sp == slugged.deep_view(),
            sp.len() == n,
            0 <= k <= n,
            out@ == strutil::join_with(sp.take(k as int), '/'),
        decreases n - k,
    {
        if k > 0 {
            crate::strutil::push_char(&mut out, '/');
        }
        out.append(slugged[k].as_str());
        proof {
            assert(sp[k as int] == slugged@[k as int]@);
            let t = sp.take(k as int + 1);
            assert(t.drop_last() =~= sp.take(k as int));
            assert(t.last() == sp[k as int]);
            if k == 0 {
                assert(strutil::join_with(t, '/') == t[0]);
                assert(out@ =~= t[0]);
            } else {
                assert(out@ =~= strutil::join_with(t.drop_last(), '/') + seq!['/'] + t.last());
            }
        }
        k = k + 1;
    }
    proof {
        assert(sp.take(n as int) =~= sp);
    }
    out
}

/// The nice form of a path, when it has a file name: `some/File.md`
/// becomes `some/file/index.html`, while an index file stays flat as
/// `some/index.html`.
pub open spec fn nice_path_spec(p: Seq<char>) -> Option<Seq<char>> {
    let sp = sluggify_path_spec(p);
    let nm = paths::file_name_spec(sp);
    if nm.len() == 0 {
        None
    } else {
        let st = paths::stem_of_name(nm);
        if st == "index"@ {
            Some(sp.take(sp.len() - nm.len()) + "index.html"@)
        } else {
            Some(paths::join_spec(paths::parent_spec(sp), st + "/index.html"@))
        }
    }
}

/// Make an ugly path into a nice path that ends with an index file, so it
/// can be referenced as a directory.
pub fn to_nice_path(path: &str) -> (r: Option<String>)
    ensures
        match r {
            Some(np) => nice_path_spec(path@) == Some(np@),
            None => nice_path_spec(path@) is None,
        },
{
    let sp = sluggify_path(path);
    match paths::path_file_name(sp.as_str()) {
        Some(nm) => {
            match paths::path_file_stem(sp.as_str()) {
                Some(st) => {
                    proof {
                        reveal_strlit("index");
                    }
                    if strutil::str_eq(st.as_str(), "index") {
                        let n = sp.as_str().unicode_len();
                        proof {
                            paths::lemma_last_sep_range(sp@);
                        }
                        let keep = n - nm.as_str().unicode_len();
                        let mut out = String::new();
                        crate::strutil::push_subrange(&mut out, sp.as_str(), 0, keep);
                        out.append("index.html");
                        proof {
                            assert(sp@.subrange(0, keep as int) =~= sp@.take(
                                sp@.len() - paths::file_name_spec(sp@).len(),
                            ));
                        }
                        Some(out)
                    } else {
                        match paths::path_parent(sp.as_str()) {
                            Some(par) => {
                                let mut tail = st;
                                tail.append("/index.html");
                                proof {
                                    assert(tail@ =~= paths::file_stem_spec(sp@) + "/index.html"@);
                                }
                                let joined = paths::path_join(par.as_str(), tail.as_str());
                                Some(joined)
                            },
                            None => {
                                // A path with a file name is never empty.
                                proof {
                                    assert(sp@.len() > 0);
                                }
                                None
                            },
                        }
                    }
                },
                None => None,
            }
        },
        None => None,
    }
}

/// The parts a permalink template can draw from, derived from a
/// document's `id_path` and creation date; nothing when the path misses a
/// name, an extension or a parent directory.
pub open spec fn permalink_parts_spec(d: DocView) -> Option<Seq<(Seq<char>, Seq<char>)>> {
    let nm = paths::file_name_spec(d.id_path);
    let st = paths::stem_of_name(nm);
    let ext = paths::ext_of_name(nm);
    let parents = paths::parent_spec(d.id_path);
    let dir = paths::file_name_spec(parents);
    let y: int = if d.created.year < 0 {
        0
    } else {
        d.created.year as int
    };
    if nm.len() == 0 || ext is None || dir.len() == 0 {
        None
    } else {
        Some(
            seq![
                ("name"@, nm),
                ("stem"@, st),
                ("slug"@, text::slug_with_sep(st, '-')),
                ("ext"@, ext->Some_0),
                ("parents"@, parents),
                ("parent"@, dir),
                ("yyyy"@, time::pad4(y)),
                ("yy"@, time::pad2(y % 100)),
                ("mm"@, time::pad2(d.created.month as int)),
                ("dd"@, time::pad2(d.created.day as int)),
            ],
        )
    }
}

impl Doc {
    /// The permalink template parts of this document: file name pieces,
    /// the slug, the parent directories, and the zero-padded parts of the
    /// creation date.
    pub fn get_permalink_template_parts(&self) -> (r: Option<Vec<(String, String)>>)
        ensures
            match r {
                Some(v) => permalink_parts_spec(self@) matches Some(ps)
                    && token_template::parts_view(v@) == ps,
                None => permalink_parts_spec(self@) is None,
            },
    {
        let nm = match paths::path_file_name(self.id_path.as_str()) {
            Some(nm) => nm,
            None => {
                return None;
            },
        };
        let st = match paths::path_file_stem(self.id_path.as_str()) {
            Some(st) => st,
            None => {
                return None;
            },
        };
        let slug = text::to_slug(st.as_str());
        let ext = match paths::path_extension(self.id_path.as_str()) {
            Some(ext) => ext,
            None => {
                return None;
            },
        };
        let parents = match paths::path_parent(self.id_path.as_str()) {
            Some(par) => par,
            None => {
                return None;
            },
        };
        let dir = match paths::path_file_name(parents.as_str()) {
            Some(dir) => dir,
            None => {
                return None;
            },
        };
        let y: u32 = if self.created.year < 0 {
            0
        } else {
            self.created.year as u32
        };
        let mut yyyy = String::new();
        time::push_pad4(&mut yyyy, y);
        let mut yy = String::new();
        time::push_pad2(&mut yy, y % 100);
        let mut mm = String::new();
        time::push_pad2(&mut mm, self.created.month as u32);
        let mut dd = String::new();
        time::push_pad2(&mut dd, self.created.day as u32);
        let mut parts: Vec<(String, String)> = Vec::new();
        parts.push((String::from_str("name"), nm));
        parts.push((String::from_str("stem"), st));
        parts.push((String::from_str("slug"), slug));
        parts.push((String::from_str("ext"), ext));
        parts.push((String::from_str("parents"), parents));
        parts.push((String::from_str("parent"), dir));
        parts.push((String::from_str("yyyy"), yyyy));
        parts.push((String::from_str("yy"), yy));
        parts.push((String::from_str("mm"), mm));
        parts.push((String::from_str("dd"), dd));
        proof {
            assert(token_template::parts_view(parts@) =~~= permalink_parts_spec(
                self@,
            )->Some_0);
        }
        Some(parts)
    }

    /// What a permalink template renders to for this document: every
    /// token swapped for its part, or, where the parts cannot be derived,
    /// rendered against an empty map so every token stays verbatim.
    pub open spec fn permalink_of(d: DocView, template: Seq<char>) -> Seq<char> {
        token_template::render_spec(
            template,
            match permalink_parts_spec(d) {
                Some(ps) => ps,
                None => Seq::empty(),
            },
        )
    }

    /// Set the output path from a permalink template.
    pub fn set_permalink(self, permalink_template: &str) -> (r: Self)
        ensures
            r@ == (DocView {
                output_path: Self::permalink_of(self@, permalink_template@),
                ..self@
            }),
    {
        let parts = match self.get_permalink_template_parts() {
            Some(parts) => parts,
            None => Vec::new(),
        };
        proof {
            if permalink_parts_spec(self@) is None {
                assert(token_template::parts_view(Seq::<(String, String)>::empty()) =~= Seq::<
                    (Seq<char>, Seq<char>),
                >::empty());
            }
        }
        let output_path = token_template::render(permalink_template, &parts);
        self.set_output_path(output_path.as_str())
    }

    /// Set a blog-style permalink: `yyyy/mm/dd/slug/index.html`.
    pub fn set_blog_permalink(self) -> (r: Self)
        ensures
            r@ == (DocView {
                output_path: Self::permalink_of(self@, "{yyyy}/{mm}/{dd}/{slug}/index.html"@),
                ..self@
            }),
    {
        self.set_permalink("{yyyy}/{mm}/{dd}/{slug}/index.html")
    }

    /// Set a page-style permalink: `parent/directories/slug/index.html`.
    pub fn set_page_permalink(self) -> (r: Self)
        ensures
            r@ == (DocView {
                output_path: Self::permalink_of(self@, "{parents}/{slug}/index.html"@),
                ..self@
            }),
    {
        self.set_permalink("{parents}/{slug}/index.html")
    }
}

/// Set every document's output path from a permalink template.
pub fn set_permalink(docs: Vec<Doc>, permalink_template: &str) -> (r: Vec<Doc>)
    ensures
        r@.len() == docs@.len(),
        forall|l: int| 0 <= l < docs@.len() ==> crate::docs::docs_view(r@)[l] == (DocView {
            output_path: Doc::permalink_of(
                crate::docs::docs_view(docs@)[l],
                permalink_template@,
            ),
            ..crate::docs::docs_view(docs@)[l]
        }),
{
    let ghost dv = crate::docs::docs_view(docs@);
    let total = docs.len();
    let mut out: Vec<Doc> = Vec::new();
    let mut input = docs;
    let mut i: usize = 0;
    while input.len() > 0
        invariant
            dv == crate::docs::docs_view(docs@),
            total == dv.len(),
            i + input@.len() == total,
            crate::docs::docs_view(input@) =~= dv.skip(i as int),
            out@.len() == i,
            forall|l: int| 0 <= l < i ==> crate::docs::docs_view(out@)[l] == (DocView {
                output_path: Doc::permalink_of(dv[l], permalink_template@),
                ..dv[l]
            }),
        decreases input@.len(),
    {
        let ghost in0 = input@;
        let d = input.remove(0);
        proof {
            assert(crate::docs::docs_view(in0)[0] == in0[0]@);
            assert(crate::docs::docs_view(in0) == dv.skip(i as int));
            assert(d@ == dv[i as int]);
            assert forall|l: int|
                0 <= l < input@.len() implies crate::docs::docs_view(input@)[l] == dv.skip(
                i as int + 1,
            )[l] by {
                assert(input@[l] == in0[l + 1]);
                assert(crate::docs::docs_view(in0)[l + 1] == in0[l + 1]@);
            }
            assert(crate::docs::docs_view(input@) =~= dv.skip(i as int + 1));
        }
        let ghost prev = out@;
        let d2 = d.set_permalink(permalink_template);
        out.push(d2);
        i = i + 1;
        proof {
            assert forall|l: int|
                0 <= l < i implies crate::docs::docs_view(out@)[l] == (DocView {
                output_path: Doc::permalink_of(dv[l], permalink_template@),
                ..dv[l]
            }) by {
                assert(crate::docs::docs_view(out@)[l] == out@[l]@);
                if l < i - 1 {
                    assert(out@[l] == prev[l]);
                    assert(crate::docs::docs_view(prev)[l] == prev[l]@);
                } else {
                    assert(out@[l] == d2);
                }
            }
        }
    }
    out
}

} // verus!
