//! Well-known site configuration: where templates live, the site's URL
//! and description, and open-ended template data.

use vstd::prelude::*;
use crate::value::JsonVal;
use crate::value::Value;

verus! {

/// Site-wide settings handed to the pipeline by the person running it.
pub struct Config {
    /// Glob for templates to load.
    pub templates: String,
    /// The site's URL.
    pub site_url: String,
    /// The site's title.
    pub site_title: String,
    /// The site's description.
    pub site_description: String,
    /// The site's author.
    pub site_author: String,
    /// Open-ended metadata available in templates.
    pub data: Value,
}

fn templates_default() -> (r: String)
    ensures
        r@ == "templates/*.html"@,
{
    let r = String::from_str("templates/*.html");
    r
}

fn site_url_default() -> (r: String)
    ensures
        r@ == "/"@,
{
    let r = String::from_str("/");
    r
}

fn data_default() -> (r: Value)
    ensures
        r@ == JsonVal::Obj(Seq::empty()),
{
    let r = Value::Obj(Vec::new());
    proof {
        assert(crate::value::pairs_view(Seq::<(String, Value)>::empty()) =~= Seq::<
            (Seq<char>, JsonVal),
        >::empty());
    }
    r
}

impl Default for Config {
    /// Sensible defaults: templates under `templates/`, the site rooted
    /// at `/`, empty titles and empty data.
    fn default() -> (r: Self)
        ensures
            r.templates@ == "templates/*.html"@,
            r.site_url@ == "/"@,
            r.site_title@.len() == 0,
            r.site_description@.len() == 0,
            r.site_author@.len() == 0,
            r.data@ == JsonVal::Obj(Seq::<(Seq<char>, JsonVal)>::empty()),
    {
        Config {
            templates: templates_default(),
            site_url: site_url_default(),
            site_title: String::new(),
            site_description: String::new(),
            site_author: String::new(),
            data: data_default(),
        }
    }
}

impl Config {
    /// This configuration as a metadata object, for template context.
    pub fn to_json(&self) -> (r: Value)
        ensures
            r@ == JsonVal::Obj(
                seq![
                    ("templates"@, JsonVal::Str(self.templates@)),
                    ("site_url"@, JsonVal::Str(self.site_url@)),
                    ("site_title"@, JsonVal::Str(self.site_title@)),
                    ("site_description"@, JsonVal::Str(self.site_description@)),
                    ("site_author"@, JsonVal::Str(self.site_author@)),
                    ("data"@, self.data@),
                ],
            ),
    {
        let mut ps: Vec<(String, Value)> = Vec::new();
        ps.push((String::from_str("templates"), Value::Str(self.templates.clone())));
        ps.push((String::from_str("site_url"), Value::Str(self.site_url.clone())));
        ps.push((String::from_str("site_title"), Value::Str(self.site_title.clone())));
        ps.push(
            (String::from_str("site_description"), Value::Str(self.site_description.clone())),
        );
        ps.push((String::from_str("site_author"), Value::Str(self.site_author.clone())));
        ps.push((String::from_str("data"), self.data.clone()));
        let r = Value::Obj(ps);
        proof {
            assert(r@->Obj_0 == crate::value::pairs_view(ps@));
            assert(crate::value::pairs_view(ps@).len() == 6);
            assert(crate::value::pairs_view(ps@)[0] == (ps@[0].0@, ps@[0].1@));
            assert(ps@[0].0@ == "templates"@);
            assert(ps@[0].1@ == JsonVal::Str(self.templates@));
            assert(r@->Obj_0 =~~= seq![
                ("templates"@, JsonVal::Str(self.templates@)),
                ("site_url"@, JsonVal::Str(self.site_url@)),
                ("site_title"@, JsonVal::Str(self.site_title@)),
                ("site_description"@, JsonVal::Str(self.site_description@)),
                ("site_author"@, JsonVal::Str(self.site_author@)),
                ("data"@, self.data@),
            ]);
        }
        r
    }
}

} // verus!
