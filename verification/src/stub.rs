//! A stub: the summary details of a document, for indexes and listings
//! where the full content would be wasteful. A stub is a point-in-time
//! projection and never changes with its source document.

use vstd::prelude::*;
use crate::doc::Doc;
use crate::text;
use crate::time::Time;

verus! {

/// The mathematical shape of a stub.
#[verifier::ext_equal]
pub struct StubView {
    pub id_path: Seq<char>,
    pub output_path: Seq<char>,
    pub created: Time,
    pub modified: Time,
    pub title: Seq<char>,
    pub summary: Seq<char>,
}

/// The summary details of a document: paths, times, title and summary.
pub struct Stub {
    pub id_path: String,
    pub output_path: String,
    pub created: Time,
    pub modified: Time,
    pub title: String,
    pub summary: String,
}

impl View for Stub {
    type V = StubView;

    open spec fn view(&self) -> StubView {
        StubView {
            id_path: self.id_path@,
            output_path: self.output_path@,
            created: self.created,
            modified: self.modified,
            title: self.title@,
            summary: self.summary@,
        }
    }
}

impl Clone for Stub {
    /// A clone is the same stub.
    fn clone(&self) -> (res: Self)
        ensures
            res@ == self@,
    {
        let res = Stub {
            id_path: self.id_path.clone(),
            output_path: self.output_path.clone(),
            created: self.created,
            modified: self.modified,
            title: self.title.clone(),
            summary: self.summary.clone(),
        };
        proof {
            assert(res@ =~= self@);
        }
        res
    }
}

/// What a document projects to: identity, destination, times, title and
/// summary, with content and metadata left behind.
pub open spec fn stub_of(d: crate::doc::DocView) -> StubView {
    StubView {
        id_path: d.id_path,
        output_path: d.output_path,
        created: d.created,
        modified: d.modified,
        title: d.title,
        summary: d.summary,
    }
}

impl Stub {
    /// A draft stub: only the identity is known; the times default to
    /// now.
    pub fn draft(id_path: &str) -> (r: Self)
        ensures
            r@ == (StubView {
                id_path: id_path@,
                output_path: id_path@,
                created: r@.created,
                modified: r@.created,
                title: Seq::empty(),
                summary: Seq::empty(),
            }),
            r@.created.wf(),
    {
        let now = Time::now();
        let r = Stub {
            id_path: id_path.to_owned(),
            output_path: id_path.to_owned(),
            created: now,
            modified: now,
            title: String::new(),
            summary: String::new(),
        };
        proof {
            assert(r@ =~= StubView {
                id_path: id_path@,
                output_path: id_path@,
                created: r@.created,
                modified: r@.created,
                title: Seq::empty(),
                summary: Seq::empty(),
            });
        }
        r
    }

    /// The title as a slug.
    pub fn get_title_slug(&self) -> (r: String)
        ensures
            r@ == text::slug_with_sep(self@.title, '-'),
    {
        text::to_slug(self.title.as_str())
    }
}

impl Doc {
    /// Project this document to a stub.
    pub fn to_stub(&self) -> (r: Stub)
        ensures
            r@ == stub_of(self@),
    {
        let r = Stub {
            id_path: self.id_path.clone(),
            output_path: self.output_path.clone(),
            created: self.created,
            modified: self.modified,
            title: self.title.clone(),
            summary: self.summary.clone(),
        };
        proof {
            assert(r@ =~= stub_of(self@));
        }
        r
    }
}

impl From<&Doc> for Stub {
    /// The stub of a document.
    fn from(doc: &Doc) -> (r: Stub)
        ensures
            r@ == stub_of(doc@),
    {
        doc.to_stub()
    }
}

impl vstd::std_specs::convert::FromSpecImpl<&Doc> for Stub {
    open spec fn obeys_from_spec() -> bool {
        false
    }

    open spec fn from_spec(doc: &Doc) -> Stub {
        arbitrary()
    }
}

/// Project a whole collection of documents to stubs, in order.
pub fn stubs(docs: &Vec<Doc>) -> (r: Vec<Stub>)
    ensures
        r@.len() == docs@.len(),
        forall|i: int| 0 <= i < docs@.len() ==> r@[i]@ == stub_of(docs@[i]@),
{
    let mut out: Vec<Stub> = Vec::new();
    let mut i: usize = 0;
    while i < docs.len()
        invariant
            0 <= i <= docs@.len(),
            out@.len() == i,
            forall|j: int| 0 <= j < i ==> out@[j]@ == stub_of(docs@[j]@),
        decreases docs@.len() - i,
    {
        out.push(docs[i].to_stub());
        i = i + 1;
    }
    out
}

} // verus!
