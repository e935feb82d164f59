//! The document: the unit of work that flows through the pipeline.
//! Every transform takes a document and yields a new one; `id_path` is
//! the stable identity and never changes after creation.

use vstd::prelude::*;
use crate::paths;
use crate::time::Time;
use crate::time::rfc3339_parts_of;
use crate::value::JsonVal;
use crate::value::Value;
use crate::value::jv_get;
use crate::value::merge_spec;
use crate::value::get_deep_spec;
use crate::text;

verus! {

/// The mathematical shape of a document.
#[verifier::ext_equal]
pub struct DocView {
    pub id_path: Seq<char>,
    pub output_path: Seq<char>,
    pub input_path: Option<Seq<char>>,
    pub template_path: Option<Seq<char>>,
    pub created: Time,
    pub modified: Time,
    pub title: Seq<char>,
    pub summary: Seq<char>,
    pub content: Seq<char>,
    pub meta: JsonVal,
}

/// A page or post moving through the pipeline.
pub struct Doc {
    /// Stable logical identity; never changes after creation.
    pub id_path: String,
    /// Destination path; rewritten by permalink and extension transforms.
    pub output_path: String,
    /// Original source location; absent for synthetic documents.
    pub input_path: Option<String>,
    /// Template to render with, when one is assigned.
    pub template_path: Option<String>,
    /// When the document was created.
    pub created: Time,
    /// When the document was last changed.
    pub modified: Time,
    pub title: String,
    pub summary: String,
    pub content: String,
    /// Open, arbitrarily nested metadata from frontmatter and plugins.
    pub meta: Value,
}

impl View for Doc {
    type V = DocView;

    open spec fn view(&self) -> DocView {
        DocView {
            id_path: self.id_path@,
            output_path: self.output_path@,
            input_path: match self.input_path {
                Some(p) => Some(p@),
                None => None,
            },
            template_path: match self.template_path {
                Some(p) => Some(p@),
                None => None,
            },
            created: self.created,
            modified: self.modified,
            title: self.title@,
            summary: self.summary@,
            content: self.content@,
            meta: self.meta@,
        }
    }
}

impl Clone for Doc {
    /// A clone is the same document.
    fn clone(&self) -> (res: Self)
        ensures
            res@ == self@,
    {
        let res = Doc {
            id_path: self.id_path.clone(),
            output_path: self.output_path.clone(),
            input_path: match &self.input_path {
                Some(p) => Some(p.clone()),
                None => None,
            },
            template_path: match &self.template_path {
                Some(p) => Some(p.clone()),
                None => None,
            },
            created: self.created,
            modified: self.modified,
            title: self.title.clone(),
            summary: self.summary.clone(),
            content: self.content.clone(),
            meta: self.meta.clone(),
        };
        proof {
            assert(res@ =~= self@);
        }
        res
    }
}

impl Doc {
    /// A document from all its parts.
    pub fn new(
        id_path: String,
        output_path: String,
        input_path: Option<String>,
        template_path: Option<String>,
        created: Time,
        modified: Time,
        title: String,
        summary: String,
        content: String,
        meta: Value,
    ) -> (r: Self)
        ensures
            r.id_path == id_path,
            r.output_path == output_path,
            r.input_path == input_path,
            r.template_path == template_path,
            r.created == created,
            r.modified == modified,
            r.title == title,
            r.summary == summary,
            r.content == content,
            r.meta@ == meta@,
    {
        Doc {
            id_path,
            output_path,
            input_path,
            template_path,
            created,
            modified,
            title,
            summary,
            content,
            meta,
        }
    }

    /// A draft: only the identity is known; the output path starts as the
    /// id path, the times default to now, everything else is empty.
    pub fn draft(id_path: &str) -> (r: Self)
        ensures
            r@ == (DocView {
                id_path: id_path@,
                output_path: id_path@,
                input_path: None,
                template_path: None,
                created: r@.created,
                modified: r@.created,
                title: Seq::empty(),
                summary: Seq::empty(),
                content: Seq::empty(),
                meta: JsonVal::Null,
            }),
            r@.created.wf(),
    {
        let now = Time::now();
        let r = Doc {
            id_path: id_path.to_owned(),
            output_path: id_path.to_owned(),
            input_path: None,
            template_path: None,
            created: now,
            modified: now,
            title: String::new(),
            summary: String::new(),
            content: String::new(),
            meta: Value::Null,
        };
        proof {
            assert(r@ =~= DocView {
                id_path: id_path@,
                output_path: id_path@,
                input_path: None,
                template_path: None,
                created: r@.created,
                modified: r@.created,
                title: Seq::empty(),
                summary: Seq::empty(),
                content: Seq::empty(),
                meta: JsonVal::Null,
            });
        }
        r
    }

    /// The same document with a new output path.
    pub fn set_output_path(self, output_path: &str) -> (r: Self)
        ensures
            r@ == (DocView { output_path: output_path@, ..self@ }),
    {
        let r = Doc { output_path: output_path.to_owned(), ..self };
        proof {
            assert(r@ =~= DocView { output_path: output_path@, ..self@ });
        }
        r
    }

    /// The same document created at another time.
    pub fn set_created(self, created: Time) -> (r: Self)
        ensures
            r@ == (DocView { created: created, ..self@ }),
    {
        let r = Doc { created, ..self };
        proof {
            assert(r@ =~= DocView { created: created, ..self@ });
        }
        r
    }

    /// The same document changed at another time.
    pub fn set_modified(self, modified: Time) -> (r: Self)
        ensures
            r@ == (DocView { modified: modified, ..self@ }),
    {
        let r = Doc { modified, ..self };
        proof {
            assert(r@ =~= DocView { modified: modified, ..self@ });
        }
        r
    }

    /// The same document with a new title.
    pub fn set_title(self, title: &str) -> (r: Self)
        ensures
            r@ == (DocView { title: title@, ..self@ }),
    {
        let r = Doc { title: title.to_owned(), ..self };
        proof {
            assert(r@ =~= DocView { title: title@, ..self@ });
        }
        r
    }

    /// The title as a slug: "My Title" becomes "my-title".
    pub fn get_title_slug(&self) -> (r: String)
        ensures
            r@ == text::slug_with_sep(self@.title, '-'),
    {
        text::to_slug(self.title.as_str())
    }

    /// The same document with new content.
    pub fn set_content(self, content: &str) -> (r: Self)
        ensures
            r@ == (DocView { content: content@, ..self@ }),
    {
        let r = Doc { content: content.to_owned(), ..self };
        proof {
            assert(r@ =~= DocView { content: content@, ..self@ });
        }
        r
    }

    /// The same document with a new summary.
    pub fn set_summary(self, summary: &str) -> (r: Self)
        ensures
            r@ == (DocView { summary: summary@, ..self@ }),
    {
        let r = Doc { summary: summary.to_owned(), ..self };
        proof {
            assert(r@ =~= DocView { summary: summary@, ..self@ });
        }
        r
    }

    /// Assign the summary only where none is set yet.
    pub fn set_summary_if_empty(self, summary: &str) -> (r: Self)
        ensures
            r@ == if self@.summary.len() == 0 {
                DocView { summary: summary@, ..self@ }
            } else {
                self@
            },
    {
        if self.summary.as_str().unicode_len() == 0 {
            self.set_summary(summary)
        } else {
            self
        }
    }

    /// Derive a summary from the content where none is set: the content
    /// with tags stripped, truncated to 280 characters.
    pub fn auto_summary(self) -> (r: Self)
        ensures
            r@ == if self@.summary.len() == 0 {
                DocView {
                    summary: text::truncate_spec(
                        crate::html::strip_html_spec(self@.content),
                        280,
                        "…"@,
                    ),
                    ..self@
                }
            } else {
                self@
            },
    {
        let stripped = crate::html::strip_html(self.content.as_str());
        let summary = text::truncate_280(stripped.as_str());
        self.set_summary_if_empty(summary.as_str())
    }

    /// The same document bound to a template, whatever was there before.
    pub fn set_template(self, template_path: &str) -> (r: Self)
        ensures
            r@ == (DocView { template_path: Some(template_path@), ..self@ }),
    {
        let r = Doc { template_path: Some(template_path.to_owned()), ..self };
        proof {
            assert(r@ =~= DocView { template_path: Some(template_path@), ..self@ });
        }
        r
    }

    /// The template a document falls back to: named after the nearest
    /// parent directory, or `default.html` at the root.
    pub open spec fn auto_template_name(d: DocView) -> Seq<char> {
        let dir = paths::file_name_spec(paths::parent_spec(d.id_path));
        if dir.len() > 0 {
            dir + ".html"@
        } else {
            "default.html"@
        }
    }

    /// Assign a template from the parent directory name, keeping any
    /// template already set. `posts/a.md` gets `posts.html`; a document
    /// at the root gets `default.html`.
    pub fn auto_template(self) -> (r: Self)
        ensures
            r@ == if self@.template_path is Some {
                self@
            } else {
                DocView { template_path: Some(Self::auto_template_name(self@)), ..self@ }
            },
    {
        if self.template_path.is_some() {
            return self;
        }
        let ghost target = Self::auto_template_name(self@);
        match paths::path_parent(self.id_path.as_str()) {
            Some(par) => {
                match paths::path_file_name(par.as_str()) {
                    Some(dir) => {
                        let mut name = dir;
                        name.append(".html");
                        proof {
                            assert(name@ =~= target);
                        }
                        self.set_template(name.as_str())
                    },
                    None => self.set_template("default.html"),
                }
            },
            None => {
                proof {
                    assert(paths::parent_spec(self@.id_path) =~= Seq::<char>::empty());
                    assert(paths::file_name_spec(Seq::<char>::empty()).len() == 0);
                }
                self.set_template("default.html")
            },
        }
    }

    /// The same document with the output path's extension swapped.
    pub fn set_extension(self, extension: &str) -> (r: Self)
        ensures
            r@ == (DocView {
                output_path: paths::set_extension_spec(self@.output_path, extension@),
                ..self@
            }),
    {
        let p = paths::path_set_extension(self.output_path.as_str(), extension);
        self.set_output_path(p.as_str())
    }

    /// Swap the output path's extension for `.md`.
    pub fn set_extension_md(self) -> (r: Self)
        ensures
            r@ == (DocView {
                output_path: paths::set_extension_spec(self@.output_path, "md"@),
                ..self@
            }),
    {
        self.set_extension("md")
    }

    /// Swap the output path's extension for `.html`.
    pub fn set_extension_html(self) -> (r: Self)
        ensures
            r@ == (DocView {
                output_path: paths::set_extension_spec(self@.output_path, "html"@),
                ..self@
            }),
    {
        self.set_extension("html")
    }

    /// The metadata value at a dot-separated path, when every segment
    /// resolves.
    pub fn meta(self, path: &str) -> (r: Option<Value>)
        ensures
            match r {
                Some(v) => get_deep_spec(self@.meta, path@) == Some(v@),
                None => get_deep_spec(self@.meta, path@) is None,
            },
    {
        crate::value::get_deep(&self.meta, path)
    }

    /// The same document with its metadata replaced.
    pub fn set_meta(self, meta: Value) -> (r: Self)
        ensures
            r@ == (DocView { meta: meta@, ..self@ }),
    {
        let r = Doc { meta, ..self };
        proof {
            assert(r@ =~= DocView { meta: meta@, ..self@ });
        }
        r
    }

    /// Merge a patch into the document's metadata.
    pub fn merge_meta(self, patch: Value) -> (r: Self)
        ensures
            r@ == (DocView { meta: merge_spec(self@.meta, patch@), ..self@ }),
    {
        let merged = crate::value::merged(&self.meta, &patch);
        let r = Doc { meta: merged, ..self };
        proof {
            assert(r@ =~= DocView { meta: merge_spec(self@.meta, patch@), ..self@ });
        }
        r
    }

    /// What uplifting does to a document: each blessed metadata field, when
    /// bound to a string (and, for the times, when that string parses),
    /// lands in the document field of the same name.
    pub open spec fn uplift_spec(d: DocView) -> DocView {
        let title = match jv_get(d.meta, "title"@) {
            Some(JsonVal::Str(s)) => s,
            _ => d.title,
        };
        let summary = match jv_get(d.meta, "summary"@) {
            Some(JsonVal::Str(s)) => s,
            _ => d.summary,
        };
        let created = match jv_get(d.meta, "created"@) {
            Some(JsonVal::Str(s)) => match rfc3339_parts_of(s) {
                Some(p) => if 0 <= p.0 <= 9999 {
                    Time { year: p.0 as i32, month: p.1 as u8, day: p.2 as u8, secs: p.3 as u32 }
                } else {
                    d.created
                },
                None => d.created,
            },
            _ => d.created,
        };
        let modified = match jv_get(d.meta, "modified"@) {
            Some(JsonVal::Str(s)) => match rfc3339_parts_of(s) {
                Some(p) => if 0 <= p.0 <= 9999 {
                    Time { year: p.0 as i32, month: p.1 as u8, day: p.2 as u8, secs: p.3 as u32 }
                } else {
                    d.modified
                },
                None => d.modified,
            },
            _ => d.modified,
        };
        let output_path = match jv_get(d.meta, "permalink"@) {
            Some(JsonVal::Str(s)) => s,
            _ => d.output_path,
        };
        let template_path = match jv_get(d.meta, "template"@) {
            Some(JsonVal::Str(s)) => Some(s),
            _ => d.template_path,
        };
        DocView {
            title: title,
            summary: summary,
            created: created,
            modified: modified,
            output_path: output_path,
            template_path: template_path,
            ..d
        }
    }

    /// Uplift blessed metadata fields into the document: title, summary,
    /// created, modified, permalink and template.
    pub fn uplift_meta(self) -> (r: Self)
        ensures
            r@ == Self::uplift_spec(self@),
    {
        let mut doc = self;
        let title = match doc.meta.get("title") {
            Some(v) => match v.as_str() {
                Some(s) => Some(s.clone()),
                None => None,
            },
            None => None,
        };
        if let Some(t) = title {
            doc.title = t;
        }
        let summary = match doc.meta.get("summary") {
            Some(v) => match v.as_str() {
                Some(s) => Some(s.clone()),
                None => None,
            },
            None => None,
        };
        if let Some(s) = summary {
            doc.summary = s;
        }
        let created = match doc.meta.get("created") {
            Some(v) => match v.as_str() {
                Some(s) => Time::parse_rfc3339(s.as_str()),
                None => None,
            },
            None => None,
        };
        if let Some(t) = created {
            doc.created = t;
        }
        let modified = match doc.meta.get("modified") {
            Some(v) => match v.as_str() {
                Some(s) => Time::parse_rfc3339(s.as_str()),
                None => None,
            },
            None => None,
        };
        if let Some(t) = modified {
            doc.modified = t;
        }
        let permalink = match doc.meta.get("permalink") {
            Some(v) => match v.as_str() {
                Some(s) => Some(s.clone()),
                None => None,
            },
            None => None,
        };
        if let Some(p) = permalink {
            doc.output_path = p;
        }
        let template = match doc.meta.get("template") {
            Some(v) => match v.as_str() {
                Some(s) => Some(s.clone()),
                None => None,
            },
            None => None,
        };
        if let Some(p) = template {
            doc.template_path = Some(p);
        }
        proof {
            assert(doc@ =~= Self::uplift_spec(self@));
        }
        doc
    }
}

} // verus!
