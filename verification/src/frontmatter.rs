//! Frontmatter: a leading block bounded by lines of three dashes, parsed
//! as YAML and merged into a document's metadata. A failed or non-mapping
//! parse leaves the whole document untouched, metadata and content alike:
//! a parse never half-consumes.

use vstd::prelude::*;
use serde_yml::Value as YamlValue;
use crate::doc::Doc;
use crate::doc::DocView;
use crate::text::trim_spec;
use crate::value::JsonVal;
use crate::value::Value;

verus! {

/// Whether the text opens with a dash line: `---` then a line break.
pub open spec fn has_open(s: Seq<char>) -> bool {
    s.len() >= 4 && s[0] == '-' && s[1] == '-' && s[2] == '-' && s[3] == '\n'
}

/// Three dashes at position `j`.
pub open spec fn dashes_at(s: Seq<char>, j: int) -> bool {
    0 <= j && j + 3 <= s.len() && s[j] == '-' && s[j + 1] == '-' && s[j + 2] == '-'
}

/// The last position at or after 4 where three dashes stand.
pub open spec fn close_pos(s: Seq<char>, j: int) -> Option<int>
    decreases j,
{
    if j < 4 {
        None
    } else if dashes_at(s, j) {
        Some(j)
    } else {
        close_pos(s, j - 1)
    }
}

/// Where the frontmatter block ends: the last three-dash marker, when
/// the text opens with a dash line at all.
pub open spec fn fm_close(s: Seq<char>) -> Option<int> {
    if has_open(s) {
        close_pos(s, s.len() - 3)
    } else {
        None
    }
}

/// The frontmatter text: what stands between the dash lines, trimmed.
pub open spec fn fm_spec(s: Seq<char>) -> Seq<char> {
    match fm_close(s) {
        Some(c) => trim_spec(s.subrange(4, c)),
        None => Seq::empty(),
    }
}

/// The content: what stands after the closing marker (and one following
/// line break, when there is one), trimmed; or the whole text, untouched,
/// when there is no frontmatter block.
pub open spec fn content_spec(s: Seq<char>) -> Seq<char> {
    match fm_close(s) {
        Some(c) => {
            let e = if c + 3 < s.len() && s[c + 3] == '\n' {
                c + 4
            } else {
                c + 3
            };
            trim_spec(s.subrange(e, s.len() as int))
        },
        None => s,
    }
}

/// Split a text into its frontmatter block and its content. A text with
/// no leading dash line yields empty frontmatter and the text unchanged.
pub fn extract_front_matter_and_content(text: &str) -> (r: (String, String))
    ensures
        r.0@ == fm_spec(text@),
        r.1@ == content_spec(text@),
{
    let n = text.unicode_len();
    let opens = n >= 4 && text.get_char(0) == '-' && text.get_char(1) == '-' && text.get_char(2)
        == '-' && text.get_char(3) == '\n';
    if !opens {
        let r0 = String::new();
        let r1 = text.to_owned();
        return (r0, r1);
    }
    // Scan backwards for the last three-dash marker.
    let mut j: usize = n - 3;
    let mut close: usize = 0;
    let mut found: bool = false;
    while j >= 4 && !found
        invariant
            n == text@.len(),
            n >= 4,
            found ==> 4 <= close <= n - 3 && close_pos(text@, (n - 3) as int) == Some(
                close as int,
            ),
            !found ==> 0 <= j <= n - 3,
            !found ==> close_pos(text@, (n - 3) as int) == close_pos(text@, j as int),
        decreases j + (if found { 0int } else { 1int }),
    {
        if text.get_char(j) == '-' && text.get_char(j + 1) == '-' && text.get_char(j + 2) == '-' {
            close = j;
            found = true;
            proof {
                assert(dashes_at(text@, j as int));
            }
        } else {
            proof {
                assert(!dashes_at(text@, j as int));
            }
            j = j - 1;
        }
    }
    if !found {
        proof {
            assert(close_pos(text@, (n - 3) as int) is None);
        }
        let r0 = String::new();
        let r1 = text.to_owned();
        proof {
            assert(fm_close(text@) is None);
        }
        return (r0, r1);
    }
    let fm_raw = text.substring_char(4, close);
    let fm = crate::text::trim(fm_raw);
    let e = if close + 3 < n && text.get_char(close + 3) == '\n' {
        close + 4
    } else {
        close + 3
    };
    let content_raw = text.substring_char(e, n);
    let content = crate::text::trim(content_raw);
    proof {
        assert(fm_close(text@) == Some(close as int));
        assert(text@.subrange(4, close as int) == text@.subrange(4, close as int));
    }
    (fm, content)
}

/// Stands for what the YAML parser makes of a frontmatter text, carried
/// into the library's own metadata shape: an object for a YAML mapping,
/// nothing for anything else.
pub uninterp spec fn yaml_meta_of(s: Seq<char>) -> Option<JsonVal>;

/// Relies on serde_yml::from_str for its `Value`: the parse is a function
/// of the text alone. Only a mapping comes back as metadata; scalars,
/// sequences and failed parses yield nothing.
#[verifier::external_body]
fn parse_yaml_meta(s: &str) -> (r: Option<Value>)
    ensures
        match r {
            Some(m) => yaml_meta_of(s@) == Some(m@) && m@ is Obj,
            None => yaml_meta_of(s@) is None,
        },
{
    match serde_yml::from_str::<YamlValue>(s) {
        Ok(v) => match yaml_own(&v) {
            Some(m @ Value::Obj(_)) => Some(m),
            _ => None,
        },
        Err(_) => None,
    }
}

/// The YAML parser's own value tree, opaque here; `yaml_own` carries it
/// over into the library's form.
#[verifier::external_type_specification]
#[verifier::external_body]
pub struct ExYamlValue(YamlValue);

/// Relies on serde_yml's `Value` shape: each variant carried over to the
/// library's own form, one arm each; integer-valued numbers as integers,
/// other numbers as their text, tagged values refused. Mapping keys are
/// strings by the mapping's own shape.
#[verifier::external_body]
fn yaml_own(v: &YamlValue) -> Option<Value> {
    match v {
        YamlValue::Null => Some(Value::Null),
        YamlValue::Bool(b) => Some(Value::Bool(*b)),
        YamlValue::Number(n) => Some(n.as_i64().map_or(Value::Str(n.to_string()), Value::Int)),
        YamlValue::String(s) => Some(Value::Str(s.clone())),
        YamlValue::Sequence(xs) => xs.iter().map(yaml_own).collect::<Option<Vec<_>>>().map(
            Value::Arr,
        ),
        YamlValue::Mapping(m) => m.iter().map(
            |(k, w)| Some((k.clone(), yaml_own(w)?)),
        ).collect::<Option<Vec<_>>>().map(Value::Obj),
        _ => None,
    }
}

/// What parsing frontmatter does to a document: when the block parses to
/// a mapping, the mapping is merged into the metadata and the content
/// loses its frontmatter block; on any failed or non-mapping parse, and
/// on a document with no frontmatter block at all, the document stays
/// exactly as it was, content included.
pub open spec fn parse_frontmatter_spec(d: DocView) -> DocView {
    let fm = fm_spec(d.content);
    if fm.len() > 0 && yaml_meta_of(fm) is Some {
        DocView {
            content: content_spec(d.content),
            meta: crate::value::merge_spec(d.meta, yaml_meta_of(fm)->Some_0),
            ..d
        }
    } else {
        d
    }
}

impl Doc {
    /// Parse YAML frontmatter out of the content and merge it into the
    /// metadata; a failed parse changes nothing.
    pub fn parse_frontmatter(self) -> (r: Self)
        ensures
            r@ == parse_frontmatter_spec(self@),
            !has_open(self@.content) ==> r@ == self@,
    {
        let (fm, content) = extract_front_matter_and_content(self.content.as_str());
        let mut doc = self;
        if fm.as_str().unicode_len() > 0 {
            match parse_yaml_meta(fm.as_str()) {
                Some(m) => {
                    let merged_meta = crate::value::merged(&doc.meta, &m);
                    doc.meta = merged_meta;
                    doc.content = content;
                },
                None => {},
            }
        }
        proof {
            assert(doc@ =~= parse_frontmatter_spec(self@));
            if !has_open(self@.content) {
                assert(doc@ =~= self@);
            }
        }
        doc
    }

    /// Parse frontmatter, then uplift the blessed fields into the
    /// document.
    pub fn parse_and_uplift_frontmatter(self) -> (r: Self)
        ensures
            r@ == Self::uplift_spec(parse_frontmatter_spec(self@)),
    {
        self.parse_frontmatter().uplift_meta()
    }
}

/// Parse frontmatter across a whole collection.
pub fn parse_frontmatter(docs: Vec<Doc>) -> (r: Vec<Doc>)
    ensures
        r@.len() == docs@.len(),
        forall|l: int| 0 <= l < docs@.len() ==> crate::docs::docs_view(r@)[l]
            == parse_frontmatter_spec(crate::docs::docs_view(docs@)[l]),
{
    let ghost dv = crate::docs::docs_view(docs@);
    let total = docs.len();
    let mut out: Vec<Doc> = Vec::new();
    let mut input = docs;
    let mut i: usize = 0;
    while input.len() > 0
        invariant
            dv == crate::docs::docs_view(docs@),
            total == dv.len(),
            i + input@.len() == total,
            crate::docs::docs_view(input@) =~= dv.skip(i as int),
            out@.len() == i,
            forall|l: int| 0 <= l < i ==> crate::docs::docs_view(out@)[l]
                == parse_frontmatter_spec(dv[l]),
        decreases input@.len(),
    {
        let ghost in0 = input@;
        let d = input.remove(0);
        proof {
            assert(crate::docs::docs_view(in0)[0] == in0[0]@);
            assert(crate::docs::docs_view(in0) == dv.skip(i as int));
            assert(d@ == dv[i as int]);
            assert forall|l: int|
                0 <= l < input@.len() implies crate::docs::docs_view(input@)[l] == dv.skip(
                i as int + 1,
            )[l] by {
                assert(input@[l] == in0[l + 1]);
                assert(crate::docs::docs_view(in0)[l + 1] == in0[l + 1]@);
            }
            assert(crate::docs::docs_view(input@) =~= dv.skip(i as int + 1));
        }
        let ghost prev = out@;
        let d2 = d.parse_frontmatter();
        out.push(d2);
        i = i + 1;
        proof {
            assert forall|l: int|
                0 <= l < i implies crate::docs::docs_view(out@)[l] == parse_frontmatter_spec(
                dv[l],
            ) by {
                assert(crate::docs::docs_view(out@)[l] == out@[l]@);
                if l < i - 1 {
                    assert(out@[l] == prev[l]);
                    assert(crate::docs::docs_view(prev)[l] == prev[l]@);
                } else {
                    assert(out@[l] == d2);
                }
            }
        }
    }
    out
}

} // verus!
