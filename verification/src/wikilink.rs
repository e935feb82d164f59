//! Wikilinks: `[[target]]` or `[[target|display text]]` inside content,
//! resolved against an index of documents keyed by title slug, rendered
//! through templates, or stripped to plain display text. A dangling link
//! degrades to the no-link template, never to an error.

use vstd::prelude::*;
use crate::doc::Doc;
use crate::doc::DocView;
use crate::strutil::char_off;
use crate::strutil::lemma_char_off_in_range;
use crate::strutil::push_char;
use crate::text;
use crate::token_template;

verus! {

/// A parsed wikilink: the display text and the slug it points at.
pub struct Wikilink {
    pub text: String,
    pub slug: String,
}

/// The mathematical shape of a wikilink.
#[verifier::ext_equal]
pub struct WikilinkView {
    pub text: Seq<char>,
    pub slug: Seq<char>,
}

impl View for Wikilink {
    type V = WikilinkView;

    open spec fn view(&self) -> WikilinkView {
        WikilinkView { text: self.text@, slug: self.slug@ }
    }
}

impl DeepView for Wikilink {
    type V = WikilinkView;

    open spec fn deep_view(&self) -> WikilinkView {
        self@
    }
}

/// Whether a wikilink starts at position `i`: two opening brackets, at
/// least one character that is no closing bracket, then two closing
/// brackets. Yields the length of the inner text.
pub open spec fn wl_match_at(s: Seq<char>, i: int) -> Option<nat> {
    if 0 <= i && i + 1 < s.len() && s[i] == '[' && s[i + 1] == '[' {
        match char_off(s, ']', i + 2) {
            Some(k) => if k >= 1 && i + 3 + k < s.len() && s[i + 3 + k] == ']' {
                Some(k)
            } else {
                None
            },
            None => None,
        }
    } else {
        None
    }
}

/// The characters trimmed from a wikilink's ends: brackets and spaces.
pub open spec fn is_wl_trim(c: char) -> bool {
    c == '[' || c == ']' || c == ' '
}

fn is_wl_trim_exec(c: char) -> (r: bool)
    ensures
        r == is_wl_trim(c),
{
    c == '[' || c == ']' || c == ' '
}

/// The sequence with leading bracket-or-space characters dropped.
pub open spec fn wl_trim_front(s: Seq<char>) -> Seq<char>
    decreases s.len(),
{
    if s.len() > 0 && is_wl_trim(s[0]) {
        wl_trim_front(s.skip(1))
    } else {
        s
    }
}

/// The sequence with trailing bracket-or-space characters dropped.
pub open spec fn wl_trim_back(s: Seq<char>) -> Seq<char>
    decreases s.len(),
{
    if s.len() > 0 && is_wl_trim(s.last()) {
        wl_trim_back(s.drop_last())
    } else {
        s
    }
}

/// Brackets and spaces trimmed from both ends.
pub open spec fn wl_trim(s: Seq<char>) -> Seq<char> {
    wl_trim_back(wl_trim_front(s))
}

proof fn lemma_wl_trim_front_at(s: Seq<char>, a: int)
    requires
        0 <= a <= s.len(),
        forall|j: int| 0 <= j < a ==> is_wl_trim(s[j]),
        a < s.len() ==> !is_wl_trim(s[a]),
    ensures
        wl_trim_front(s) == s.skip(a),
    decreases a,
{
    if a == 0 {
        assert(s.skip(0) =~= s);
    } else {
        lemma_wl_trim_front_at(s.skip(1), a - 1);
        assert(s.skip(1).skip(a - 1) =~= s.skip(a));
    }
}

proof fn lemma_wl_trim_back_at(s: Seq<char>, b: int)
    requires
        0 <= b <= s.len(),
        forall|j: int| b <= j < s.len() ==> is_wl_trim(s[j]),
        b > 0 ==> !is_wl_trim(s[b - 1]),
    ensures
        wl_trim_back(s) == s.take(b),
    decreases s.len() - b,
{
    if b == s.len() {
        assert(s.take(b) =~= s);
    } else {
        lemma_wl_trim_back_at(s.drop_last(), b);
        assert(s.drop_last().take(b) =~= s.take(b));
    }
}

/// What a wikilink's raw text parses to: the display text and the slug.
/// With a pipe, the slug comes from the part before it and the text from
/// the part after; without one, the slug is the slugged text itself.
pub open spec fn parse_wikilink_spec(w: Seq<char>) -> WikilinkView {
    let inner = wl_trim(w);
    match char_off(inner, '|', 0) {
        Some(q) => WikilinkView {
            text: text::trim_spec(inner.skip(q as int + 1)),
            slug: text::slug_with_sep(text::trim_spec(inner.take(q as int)), '-'),
        },
        None => WikilinkView {
            text: text::trim_spec(inner),
            slug: text::slug_with_sep(text::trim_spec(inner), '-'),
        },
    }
}

/// Trim brackets and spaces from both ends of a wikilink's raw text.
fn wl_trim_exec(s: &str) -> (r: String)
    ensures
        r@ == wl_trim(s@),
{
    let n = s.unicode_len();
    let mut a: usize = 0;
    while a < n && is_wl_trim_exec(s.get_char(a))
        invariant
            n == s@.len(),
            0 <= a <= n,
            forall|j: int| 0 <= j < a ==> is_wl_trim(s@[j]),
        decreases n - a,
    {
        a = a + 1;
    }
    proof {
        lemma_wl_trim_front_at(s@, a as int);
    }
    let mut b: usize = n;
    while b > a && is_wl_trim_exec(s.get_char(b - 1))
        invariant
            n == s@.len(),
            a <= b <= n,
            forall|j: int| b <= j < n ==> is_wl_trim(s@[j]),
        decreases b,
    {
        b = b - 1;
    }
    let sub = s.substring_char(a, b);
    let r = sub.to_owned();
    proof {
        let f = s@.skip(a as int);
        if b == a {
            lemma_wl_trim_back_at(f, 0);
        } else {
            lemma_wl_trim_back_at(f, b - a);
        }
        assert(f.take(b - a) =~= s@.subrange(a as int, b as int));
    }
    r
}

/// Parse one wikilink's raw text (brackets and all) into its display text
/// and slug.
pub fn parse_wikilink(wikilink_str: &str) -> (r: Wikilink)
    ensures
        r@ == parse_wikilink_spec(wikilink_str@),
{
    let inner = wl_trim_exec(wikilink_str);
    let n = inner.as_str().unicode_len();
    // Scan for a pipe.
    let mut q: usize = 0;
    while q < n && inner.as_str().get_char(q) != '|'
        invariant
            n == inner@.len(),
            0 <= q <= n,
            forall|j: int| 0 <= j < q ==> inner@[j] != '|',
        decreases n - q,
    {
        q = q + 1;
    }
    proof {
        lemma_char_off_in_range(inner@, '|', 0);
        match char_off(inner@, '|', 0) {
            Some(k) => {
                assert(q == k) by {
                    if q < k {
                        assert(inner@[q as int] == '|');
                    }
                    if q > k {
                        assert(inner@[k as int] != '|');
                    }
                };
            },
            None => {
                assert(q == n) by {
                    if q < n {
                        assert(inner@[q as int] == '|');
                    }
                };
            },
        }
    }
    if q < n {
        let slug_raw = inner.as_str().substring_char(0, q);
        let text_raw = inner.as_str().substring_char(q + 1, n);
        proof {
            assert(inner@.subrange(0, q as int) =~= inner@.take(q as int));
            assert(inner@.subrange(q + 1, n as int) =~= inner@.skip(q + 1));
        }
        let display = text::trim(text_raw);
        let trimmed = text::trim(slug_raw);
        let slug = text::to_slug(trimmed.as_str());
        let r = Wikilink { text: display, slug };
        proof {
            assert(r@ =~= parse_wikilink_spec(wikilink_str@));
        }
        r
    } else {
        let display = text::trim(inner.as_str());
        let slug = text::to_slug(display.as_str());
        let r = Wikilink { text: display, slug };
        proof {
            assert(r@ =~= parse_wikilink_spec(wikilink_str@));
        }
        r
    }
}

/// The wikilinks of a text from position `i` on, in order of appearance.
pub open spec fn wikilinks_from(s: Seq<char>, i: int) -> Seq<WikilinkView>
    decreases s.len() - i,
    via wikilinks_from_dec
{
    if i < 0 || i >= s.len() {
        Seq::empty()
    } else {
        match wl_match_at(s, i) {
            Some(k) => seq![parse_wikilink_spec(s.subrange(i, i + 4 + k))] + wikilinks_from(
                s,
                i + 4 + k,
            ),
            None => wikilinks_from(s, i + 1),
        }
    }
}

#[via_fn]
proof fn wikilinks_from_dec(s: Seq<char>, i: int) {
    lemma_char_off_in_range(s, ']', i + 2);
}

/// All the wikilinks of a text.
pub open spec fn wikilinks_spec(s: Seq<char>) -> Seq<WikilinkView> {
    wikilinks_from(s, 0)
}

/// Whether the whole text is exactly one wikilink: a transclusion marker
/// rather than an inline link.
pub open spec fn is_transclude(s: Seq<char>) -> bool {
    match wl_match_at(s, 0) {
        Some(k) => 4 + k == s.len(),
        None => false,
    }
}

/// The text from position `i` on with every wikilink swapped for its
/// display text.
pub open spec fn strip_wl_from(s: Seq<char>, i: int) -> Seq<char>
    decreases s.len() - i,
    via strip_wl_from_dec
{
    if i < 0 || i >= s.len() {
        Seq::empty()
    } else {
        match wl_match_at(s, i) {
            Some(k) => parse_wikilink_spec(s.subrange(i, i + 4 + k)).text + strip_wl_from(
                s,
                i + 4 + k,
            ),
            None => seq![s[i]] + strip_wl_from(s, i + 1),
        }
    }
}

#[via_fn]
proof fn strip_wl_from_dec(s: Seq<char>, i: int) {
    lemma_char_off_in_range(s, ']', i + 2);
}

/// The whole text with wikilinks stripped to display text; a pure
/// transclusion line strips to nothing.
pub open spec fn strip_wikilinks_spec(s: Seq<char>) -> Seq<char> {
    if is_transclude(s) {
        Seq::empty()
    } else {
        strip_wl_from(s, 0)
    }
}

/// Scan for a wikilink starting at `i`; yields the inner length.
fn wl_match_exec(s: &str, i: usize, n: usize) -> (r: Option<usize>)
    requires
        n == s@.len(),
        i < n,
    ensures
        match r {
            Some(k) => wl_match_at(s@, i as int) == Some(k as nat) && i + 4 + k <= n,
            None => wl_match_at(s@, i as int) is None,
        },
{
    if !(i + 1 < n && s.get_char(i) == '[' && s.get_char(i + 1) == '[') {
        return None;
    }
    // Scan for the first closing bracket.
    let mut j: usize = i + 2;
    while j < n && s.get_char(j) != ']'
        invariant
            n == s@.len(),
            i + 2 <= j <= n,
            forall|l: int| i + 2 <= l < j ==> s@[l] != ']',
        decreases n - j,
    {
        j = j + 1;
    }
    proof {
        lemma_char_off_in_range(s@, ']', i + 2);
        match char_off(s@, ']', i + 2) {
            Some(k) => {
                assert(j == i + 2 + k) by {
                    if j < i + 2 + k {
                        assert(s@[j as int] == ']');
                    }
                    if j > i + 2 + k {
                        assert(s@[i + 2 + k] != ']');
                    }
                };
            },
            None => {
                assert(j == n) by {
                    if j < n {
                        assert(s@[j as int] == ']');
                    }
                };
            },
        }
    }
    if j >= n {
        return None;
    }
    let k = j - (i + 2);
    if k >= 1 && j + 1 < n && s.get_char(j + 1) == ']' {
        Some(k)
    } else {
        None
    }
}

/// Find every wikilink in a text, in order of appearance.
pub fn find_wikilinks(s: &str) -> (r: Vec<Wikilink>)
    ensures
        r.deep_view() == wikilinks_spec(s@),
{
    let n = s.unicode_len();
    let mut out: Vec<Wikilink> = Vec::new();
    let mut i: usize = 0;
    while i < n
        invariant
            n == s@.len(),
            0 <= i <= n,
            wikilinks_spec(s@) == out.deep_view() + wikilinks_from(s@, i as int),
        decreases n - i,
    {
        let ghost prev = out.deep_view();
        match wl_match_exec(s, i, n) {
            Some(k) => {
                let token = s.substring_char(i, i + 4 + k);
                let wl = parse_wikilink(token);
                out.push(wl);
                proof {
                    assert(out.deep_view() =~= prev.push(
                        parse_wikilink_spec(s@.subrange(i as int, i + 4 + k)),
                    ));
                    assert(out.deep_view() + wikilinks_from(s@, i + 4 + k) =~= prev + (seq![
                        parse_wikilink_spec(s@.subrange(i as int, i + 4 + k)),
                    ] + wikilinks_from(s@, i + 4 + k)));
                }
                i = i + 4 + k;
            },
            None => {
                i = i + 1;
            },
        }
    }
    out
}

/// Strip wikilink syntax down to plain display text; a line that is only
/// one wikilink is a transclusion marker and strips to nothing.
pub fn strip_wikilinks(text: &str) -> (r: String)
    ensures
        r@ == strip_wikilinks_spec(text@),
{
    let n = text.unicode_len();
    if n > 0 {
        match wl_match_exec(text, 0, n) {
            Some(k) => {
                if 4 + k == n {
                    return String::new();
                }
            },
            None => {},
        }
    }
    let mut out = String::new();
    let mut i: usize = 0;
    while i < n
        invariant
            n == text@.len(),
            0 <= i <= n,
            strip_wl_from(text@, 0) == out@ + strip_wl_from(text@, i as int),
        decreases n - i,
    {
        match wl_match_exec(text, i, n) {
            Some(k) => {
                let token = text.substring_char(i, i + 4 + k);
                let wl = parse_wikilink(token);
                out.append(wl.text.as_str());
                proof {
                    assert(out@ + strip_wl_from(text@, i + 4 + k) =~= strip_wl_from(text@, 0));
                }
                i = i + 4 + k;
            },
            None => {
                let c = text.get_char(i);
                push_char(&mut out, c);
                i = i + 1;
                proof {
                    assert(out@.drop_last() + (seq![c] + strip_wl_from(text@, i as int)) =~= out@
                        + strip_wl_from(text@, i as int));
                }
            },
        }
    }
    out
}

/// The shapes of a slug index: each slug with the document it points at.
pub open spec fn wl_index_view(idx: Seq<(String, Doc)>) -> Seq<(Seq<char>, DocView)> {
    Seq::new(
        idx.len(),
        |i: int|
            if 0 <= i < idx.len() {
                (idx[i].0@, idx[i].1@)
            } else {
                (Seq::empty(), arbitrary())
            },
    )
}

/// The first document a slug is bound to in an index.
pub open spec fn lookup_slug(idx: Seq<(Seq<char>, DocView)>, k: Seq<char>) -> Option<DocView>
    decreases idx.len(),
{
    if idx.len() == 0 {
        None
    } else if idx[0].0 == k {
        Some(idx[0].1)
    } else {
        lookup_slug(idx.skip(1), k)
    }
}

proof fn lemma_lookup_slug_skip(idx: Seq<(Seq<char>, DocView)>, k: Seq<char>, i: int)
    requires
        0 <= i <= idx.len(),
        forall|j: int| 0 <= j < i ==> idx[j].0 != k,
    ensures
        lookup_slug(idx, k) == lookup_slug(idx.skip(i), k),
    decreases i,
{
    if i > 0 {
        lemma_lookup_slug_skip(idx.skip(1), k, i - 1);
        assert(idx.skip(1).skip(i - 1) =~= idx.skip(i));
    } else {
        assert(idx.skip(0) =~= idx);
    }
}

/// The template parts a resolved wikilink renders with.
pub open spec fn linked_parts(dv: DocView, tx: Seq<char>, sl: Seq<char>) -> Seq<
    (Seq<char>, Seq<char>),
> {
    seq![
        ("output_path"@, dv.output_path),
        ("title"@, dv.title),
        ("summary"@, dv.summary),
        ("text"@, tx),
        ("slug"@, sl),
    ]
}

/// The template parts a dangling wikilink renders with.
pub open spec fn nolink_parts(tx: Seq<char>, sl: Seq<char>) -> Seq<(Seq<char>, Seq<char>)> {
    seq![("text"@, tx), ("slug"@, sl)]
}

/// The text from position `i` on with every wikilink rendered: through
/// the wikilink template when its slug is in the index, through the
/// no-link template otherwise.
pub open spec fn render_wl_from(
    s: Seq<char>,
    wt: Seq<char>,
    nt: Seq<char>,
    idx: Seq<(Seq<char>, DocView)>,
    i: int,
) -> Seq<char>
    decreases s.len() - i,
    via render_wl_from_dec
{
    if i < 0 || i >= s.len() {
        Seq::empty()
    } else {
        match wl_match_at(s, i) {
            Some(k) => {
                let wl = parse_wikilink_spec(s.subrange(i, i + 4 + k));
                let piece = match lookup_slug(idx, wl.slug) {
                    Some(dv) => token_template::render_spec(
                        wt,
                        linked_parts(dv, wl.text, wl.slug),
                    ),
                    None => token_template::render_spec(nt, nolink_parts(wl.text, wl.slug)),
                };
                piece + render_wl_from(s, wt, nt, idx, i + 4 + k)
            },
            None => seq![s[i]] + render_wl_from(s, wt, nt, idx, i + 1),
        }
    }
}

#[via_fn]
proof fn render_wl_from_dec(
    s: Seq<char>,
    wt: Seq<char>,
    nt: Seq<char>,
    idx: Seq<(Seq<char>, DocView)>,
    i: int,
) {
    lemma_char_off_in_range(s, ']', i + 2);
}

/// A whole text with every wikilink rendered against an index.
pub open spec fn render_wikilinks_spec(
    s: Seq<char>,
    wt: Seq<char>,
    nt: Seq<char>,
    idx: Seq<(Seq<char>, DocView)>,
) -> Seq<char> {
    render_wl_from(s, wt, nt, idx, 0)
}

proof fn lemma_render_no_match_from(
    s: Seq<char>,
    wt: Seq<char>,
    nt: Seq<char>,
    idx: Seq<(Seq<char>, DocView)>,
    i: int,
)
    requires
        0 <= i <= s.len(),
        forall|j: int| wl_match_at(s, j) is None,
    ensures
        render_wl_from(s, wt, nt, idx, i) == s.skip(i),
    decreases s.len() - i,
{
    if i >= s.len() {
        assert(s.skip(i) =~= Seq::<char>::empty());
    } else {
        assert(wl_match_at(s, i) is None);
        lemma_render_no_match_from(s, wt, nt, idx, i + 1);
        assert(seq![s[i]] + s.skip(i + 1) =~= s.skip(i));
    }
}

/// Wikilink law: a text holding no wikilink renders to itself, whatever
/// the templates and the index.
pub proof fn lemma_render_without_wikilinks(
    s: Seq<char>,
    wt: Seq<char>,
    nt: Seq<char>,
    idx: Seq<(Seq<char>, DocView)>,
)
    requires
        forall|j: int| wl_match_at(s, j) is None,
    ensures
        render_wikilinks_spec(s, wt, nt, idx) == s,
{
    lemma_render_no_match_from(s, wt, nt, idx, 0);
    assert(s.skip(0) =~= s);
}

/// Wikilink law: at a wikilink that an empty index cannot resolve, the
/// rendering takes the no-link template with only the link's text and
/// slug — a dangling wikilink degrades to styled text, never to an error.
pub proof fn lemma_dangling_uses_nolink_template(
    s: Seq<char>,
    wt: Seq<char>,
    nt: Seq<char>,
    i: int,
    k: nat,
)
    requires
        wl_match_at(s, i) == Some(k),
    ensures
        render_wl_from(s, wt, nt, Seq::empty(), i) == token_template::render_spec(
            nt,
            nolink_parts(
                parse_wikilink_spec(s.subrange(i, i + 4 + k)).text,
                parse_wikilink_spec(s.subrange(i, i + 4 + k)).slug,
            ),
        ) + render_wl_from(s, wt, nt, Seq::empty(), i + 4 + k),
{
    assert(lookup_slug(
        Seq::empty(),
        parse_wikilink_spec(s.subrange(i, i + 4 + k)).slug,
    ) is None);
}

proof fn lemma_dangling_same_from(
    s: Seq<char>,
    wt1: Seq<char>,
    wt2: Seq<char>,
    nt: Seq<char>,
    i: int,
)
    ensures
        render_wl_from(s, wt1, nt, Seq::empty(), i) == render_wl_from(
            s,
            wt2,
            nt,
            Seq::empty(),
            i,
        ),
    decreases s.len() - i,
{
    if 0 <= i < s.len() {
        match wl_match_at(s, i) {
            Some(k) => {
                lemma_char_off_in_range(s, ']', i + 2);
                lemma_dangling_same_from(s, wt1, wt2, nt, i + 4 + k);
                assert(lookup_slug(
                    Seq::empty(),
                    parse_wikilink_spec(s.subrange(i, i + 4 + k)).slug,
                ) is None);
            },
            None => {
                lemma_dangling_same_from(s, wt1, wt2, nt, i + 1);
            },
        }
    }
}

/// Wikilink law: against an empty index every wikilink is dangling, so
/// the whole rendering goes through the no-link template alone — the
/// wikilink template is never consulted.
pub proof fn lemma_dangling_ignores_wikilink_template(
    s: Seq<char>,
    wt1: Seq<char>,
    wt2: Seq<char>,
    nt: Seq<char>,
)
    ensures
        render_wikilinks_spec(s, wt1, nt, Seq::empty()) == render_wikilinks_spec(
            s,
            wt2,
            nt,
            Seq::empty(),
        ),
{
    lemma_dangling_same_from(s, wt1, wt2, nt, 0);
}

/// Render every wikilink in a text: a slug found in the index goes
/// through the wikilink template with the document's details, a missing
/// one through the no-link template with only the text and slug.
pub fn render_wikilinks_with_template(
    text: &str,
    wikilink_template: &str,
    nolink_template: &str,
    slug_to_doc_index: &Vec<(String, Doc)>,
) -> (r: String)
    ensures
        r@ == render_wikilinks_spec(
            text@,
            wikilink_template@,
            nolink_template@,
            wl_index_view(slug_to_doc_index@),
        ),
{
    let ghost iv = wl_index_view(slug_to_doc_index@);
    let ghost wtv = wikilink_template@;
    let ghost ntv = nolink_template@;
    let n = text.unicode_len();
    let mut out = String::new();
    let mut i: usize = 0;
    while i < n
        invariant
            n == text@.len(),
            0 <= i <= n,
            iv == wl_index_view(slug_to_doc_index@),
            wtv == wikilink_template@,
            ntv == nolink_template@,
            render_wikilinks_spec(text@, wtv, ntv, iv) == out@ + render_wl_from(
                text@,
                wtv,
                ntv,
                iv,
                i as int,
            ),
        decreases n - i,
    {
        match wl_match_exec(text, i, n) {
            Some(k) => {
                let token = text.substring_char(i, i + 4 + k);
                let wl = parse_wikilink(token);
                // Look the slug up in the index.
                let m = slug_to_doc_index.len();
                let mut j: usize = 0;
                let mut found: bool = false;
                while j < m && !found
                    invariant
                        m == slug_to_doc_index@.len(),
                        iv == wl_index_view(slug_to_doc_index@),
                        0 <= j <= m,
                        found ==> j < m && iv[j as int].0 == wl@.slug && forall|l: int|
                            0 <= l < j ==> iv[l].0 != wl@.slug,
                        !found ==> forall|l: int| 0 <= l < j ==> iv[l].0 != wl@.slug,
                    decreases m - j + (if found { 0int } else { 1int }),
                {
                    if crate::strutil::str_eq(
                        slug_to_doc_index[j].0.as_str(),
                        wl.slug.as_str(),
                    ) {
                        found = true;
                    } else {
                        j = j + 1;
                    }
                }
                let piece = if found {
                    proof {
                        lemma_lookup_slug_skip(iv, wl@.slug, j as int);
                        assert(iv.skip(j as int)[0] == iv[j as int]);
                        assert(lookup_slug(iv, wl@.slug) == Some(iv[j as int].1));
                    }
                    let doc = &slug_to_doc_index[j].1;
                    let mut parts: Vec<(String, String)> = Vec::new();
                    parts.push((String::from_str("output_path"), doc.output_path.clone()));
                    parts.push((String::from_str("title"), doc.title.clone()));
                    parts.push((String::from_str("summary"), doc.summary.clone()));
                    parts.push((String::from_str("text"), wl.text));
                    parts.push((String::from_str("slug"), wl.slug));
                    proof {
                        assert(token_template::parts_view(parts@) =~= linked_parts(
                            iv[j as int].1,
                            parse_wikilink_spec(text@.subrange(i as int, i + 4 + k)).text,
                            parse_wikilink_spec(text@.subrange(i as int, i + 4 + k)).slug,
                        ));
                    }
                    let p = token_template::render(wikilink_template, &parts);
                    proof {
                        assert(p@ == token_template::render_spec(
                            wtv,
                            linked_parts(
                                iv[j as int].1,
                                parse_wikilink_spec(text@.subrange(i as int, i + 4 + k)).text,
                                parse_wikilink_spec(text@.subrange(i as int, i + 4 + k)).slug,
                            ),
                        ));
                    }
                    p
                } else {
                    proof {
                        lemma_lookup_slug_skip(iv, wl@.slug, m as int);
                        assert(iv.skip(m as int).len() == 0);
                    }
                    let mut parts: Vec<(String, String)> = Vec::new();
                    parts.push((String::from_str("text"), wl.text));
                    parts.push((String::from_str("slug"), wl.slug));
                    proof {
                        assert(token_template::parts_view(parts@) =~= nolink_parts(
                            parse_wikilink_spec(text@.subrange(i as int, i + 4 + k)).text,
                            parse_wikilink_spec(text@.subrange(i as int, i + 4 + k)).slug,
                        ));
                    }
                    let p = token_template::render(nolink_template, &parts);
                    proof {
                        assert(p@ == token_template::render_spec(
                            ntv,
                            nolink_parts(
                                parse_wikilink_spec(text@.subrange(i as int, i + 4 + k)).text,
                                parse_wikilink_spec(text@.subrange(i as int, i + 4 + k)).slug,
                            ),
                        ));
                    }
                    p
                };
                out.append(piece.as_str());
                proof {
                    let wls = parse_wikilink_spec(text@.subrange(i as int, i + 4 + k));
                    assert(wl@ == wls);
                    if found {
                        assert(lookup_slug(iv, wls.slug) matches Some(dv) && piece@
                            == token_template::render_spec(
                            wtv,
                            linked_parts(dv, wls.text, wls.slug),
                        ));
                    } else {
                        assert(lookup_slug(iv, wls.slug) is None);
                        assert(piece@ == token_template::render_spec(
                            ntv,
                            nolink_parts(wls.text, wls.slug),
                        ));
                    }
                    assert(render_wl_from(text@, wtv, ntv, iv, i as int) == piece@
                        + render_wl_from(text@, wtv, ntv, iv, i + 4 + k));
                    assert(out@ + render_wl_from(text@, wtv, ntv, iv, i + 4 + k)
                        =~= render_wikilinks_spec(text@, wtv, ntv, iv));
                }
                i = i + 4 + k;
            },
            None => {
                let c = text.get_char(i);
                push_char(&mut out, c);
                i = i + 1;
                proof {
                    assert(out@.drop_last() + (seq![c] + render_wl_from(text@, wtv, ntv, iv, i as int))
                        =~= out@ + render_wl_from(text@, wtv, ntv, iv, i as int));
                }
            },
        }
    }
    out
}

/// A plain-text summary of HTML content: the first sentence, wikilinks
/// stripped, tags stripped.
pub fn get_summary_wiki_html(text: &str) -> (r: String)
    ensures
        r@ == crate::html::strip_html_spec(
            strip_wikilinks_spec(text::first_sentence_spec(text@)),
        ),
{
    let fs = text::first_sentence(text);
    let sw = strip_wikilinks(fs.as_str());
    crate::html::strip_html(sw.as_str())
}

/// A plain-text summary of markdown content: the first sentence,
/// wikilinks stripped, markdown reduced to plain text.
pub fn get_summary_wiki_markdown(text: &str) -> (r: String)
    ensures
        r@ == crate::html::strip_html_spec(
            crate::markdown::markdown_html_of(
                strip_wikilinks_spec(text::first_sentence_spec(text@)),
            ),
        ),
{
    let fs = text::first_sentence(text);
    let sw = strip_wikilinks(fs.as_str());
    crate::markdown::strip_markdown(sw.as_str())
}

/// A slug index with one binding replaced or appended: the late writer
/// wins the slug.
pub open spec fn index_insert(
    idx: Seq<(Seq<char>, DocView)>,
    k: Seq<char>,
    d: DocView,
) -> Seq<(Seq<char>, DocView)>
    decreases idx.len(),
{
    if idx.len() == 0 {
        seq![(k, d)]
    } else if idx[0].0 == k {
        seq![(k, d)] + idx.skip(1)
    } else {
        seq![idx[0]] + index_insert(idx.skip(1), k, d)
    }
}

/// The slug index a collection builds: every document keyed by its title
/// slug, in order, the last writer winning a contested slug.
pub open spec fn build_slug_index(s: Seq<DocView>) -> Seq<(Seq<char>, DocView)>
    decreases s.len(),
{
    if s.len() == 0 {
        Seq::empty()
    } else {
        index_insert(
            build_slug_index(s.drop_last()),
            text::slug_with_sep(s.last().title, '-'),
            s.last(),
        )
    }
}

proof fn lemma_index_insert_update(
    idx: Seq<(Seq<char>, DocView)>,
    k: Seq<char>,
    d: DocView,
    j: int,
)
    requires
        0 <= j < idx.len(),
        idx[j].0 == k,
        forall|l: int| 0 <= l < j ==> idx[l].0 != k,
    ensures
        index_insert(idx, k, d) == idx.update(j, (k, d)),
    decreases j,
{
    if j == 0 {
        assert(seq![(k, d)] + idx.skip(1) =~= idx.update(0, (k, d)));
    } else {
        lemma_index_insert_update(idx.skip(1), k, d, j - 1);
        assert(seq![idx[0]] + idx.skip(1).update(j - 1, (k, d)) =~= idx.update(j, (k, d)));
    }
}

proof fn lemma_index_insert_push(idx: Seq<(Seq<char>, DocView)>, k: Seq<char>, d: DocView)
    requires
        forall|l: int| 0 <= l < idx.len() ==> idx[l].0 != k,
    ensures
        index_insert(idx, k, d) == idx.push((k, d)),
    decreases idx.len(),
{
    if idx.len() == 0 {
        assert(seq![(k, d)] =~= idx.push((k, d)));
    } else {
        lemma_index_insert_push(idx.skip(1), k, d);
        assert(seq![idx[0]] + idx.skip(1).push((k, d)) =~= idx.push((k, d)));
    }
}

/// Index documents by their title slugs, for wikilink resolution. When
/// two documents share a slug, the later one wins it.
pub fn index_by_title_slug(docs: Vec<Doc>) -> (r: Vec<(String, Doc)>)
    ensures
        wl_index_view(r@) == build_slug_index(crate::docs::docs_view(docs@)),
{
    let ghost dv = crate::docs::docs_view(docs@);
    let total = docs.len();
    let mut out: Vec<(String, Doc)> = Vec::new();
    let mut input = docs;
    let mut i: usize = 0;
    while input.len() > 0
        invariant
            dv == crate::docs::docs_view(docs@),
            total == dv.len(),
            i + input@.len() == total,
            crate::docs::docs_view(input@) =~= dv.skip(i as int),
            wl_index_view(out@) == build_slug_index(dv.take(i as int)),
        decreases input@.len(),
    {
        let ghost in0 = input@;
        let d = input.remove(0);
        proof {
            assert(crate::docs::docs_view(in0)[0] == in0[0]@);
            assert(crate::docs::docs_view(in0) == dv.skip(i as int));
            assert(d@ == dv[i as int]);
            assert forall|l: int|
                0 <= l < input@.len() implies crate::docs::docs_view(input@)[l] == dv.skip(
                i as int + 1,
            )[l] by {
                assert(input@[l] == in0[l + 1]);
                assert(crate::docs::docs_view(in0)[l + 1] == in0[l + 1]@);
            }
            assert(crate::docs::docs_view(input@) =~= dv.skip(i as int + 1));
        }
        let ghost prev = wl_index_view(out@);
        let slug = d.get_title_slug();
        // Find the slug's binding, if it is already taken.
        let m = out.len();
        let mut j: usize = 0;
        let mut found: bool = false;
        while j < m && !found
            invariant
                m == out@.len(),
                prev == wl_index_view(out@),
                0 <= j <= m,
                found ==> j < m && prev[j as int].0 == slug@ && forall|l: int|
                    0 <= l < j ==> prev[l].0 != slug@,
                !found ==> forall|l: int| 0 <= l < j ==> prev[l].0 != slug@,
            decreases m - j + (if found { 0int } else { 1int }),
        {
            if crate::strutil::str_eq(out[j].0.as_str(), slug.as_str()) {
                found = true;
            } else {
                j = j + 1;
            }
        }
        if found {
            proof {
                lemma_index_insert_update(prev, slug@, dv[i as int], j as int);
            }
            out.set(j, (slug, d));
            proof {
                assert(wl_index_view(out@) =~= prev.update(j as int, (slug@, dv[i as int])));
            }
        } else {
            proof {
                lemma_index_insert_push(prev, slug@, dv[i as int]);
            }
            out.push((slug, d));
            proof {
                assert(wl_index_view(out@) =~= prev.push((slug@, dv[i as int])));
            }
        }
        i = i + 1;
        proof {
            let t = dv.take(i as int);
            assert(t.drop_last() =~= dv.take(i - 1));
            assert(t.last() == dv[i - 1]);
        }
    }
    proof {
        assert(dv.take(dv.len() as int) =~= dv);
    }
    out
}

impl Doc {
    /// The wikilinks in this document's content.
    pub fn find_wikilinks(&self) -> (r: Vec<Wikilink>)
        ensures
            r.deep_view() == wikilinks_spec(self@.content),
    {
        find_wikilinks(self.content.as_str())
    }

    /// A plain-text summary of this document's HTML content.
    pub fn get_summary_wiki_html(&self) -> (r: String)
        ensures
            r@ == crate::html::strip_html_spec(
                strip_wikilinks_spec(text::first_sentence_spec(self@.content)),
            ),
    {
        get_summary_wiki_html(self.content.as_str())
    }

    /// A plain-text summary of this document's markdown content.
    pub fn get_summary_wiki_markdown(&self) -> (r: String)
        ensures
            r@ == crate::html::strip_html_spec(
                crate::markdown::markdown_html_of(
                    strip_wikilinks_spec(text::first_sentence_spec(self@.content)),
                ),
            ),
    {
        get_summary_wiki_markdown(self.content.as_str())
    }

    /// Render the wikilinks in this document's content through the given
    /// templates.
    pub fn render_wikilinks_with_template(
        self,
        wikilink_template: &str,
        nolink_template: &str,
        slug_to_doc_index: &Vec<(String, Doc)>,
    ) -> (r: Self)
        ensures
            r@ == (DocView {
                content: render_wikilinks_spec(
                    self@.content,
                    wikilink_template@,
                    nolink_template@,
                    wl_index_view(slug_to_doc_index@),
                ),
                ..self@
            }),
    {
        let content = render_wikilinks_with_template(
            self.content.as_str(),
            wikilink_template,
            nolink_template,
            slug_to_doc_index,
        );
        self.set_content(content.as_str())
    }

    /// Render the wikilinks in this document's content through the
    /// default templates: an anchor for a resolved link, a styled span
    /// for a dangling one.
    pub fn render_wikilinks(self, slug_to_doc_index: &Vec<(String, Doc)>) -> (r: Self)
        ensures
            r@ == (DocView {
                content: render_wikilinks_spec(
                    self@.content,
                    "<a class=\"wikilink\" href=\"{output_path}\">{text}</a>"@,
                    "<span class=\"nolink\">{text}</span>"@,
                    wl_index_view(slug_to_doc_index@),
                ),
                ..self@
            }),
    {
        self.render_wikilinks_with_template(
            "<a class=\"wikilink\" href=\"{output_path}\">{text}</a>",
            "<span class=\"nolink\">{text}</span>",
            slug_to_doc_index,
        )
    }
}

/// Copy a whole collection of documents.
fn clone_docs(docs: &Vec<Doc>) -> (r: Vec<Doc>)
    ensures
        crate::docs::docs_view(r@) == crate::docs::docs_view(docs@),
{
    let mut out: Vec<Doc> = Vec::new();
    let mut i: usize = 0;
    while i < docs.len()
        invariant
            0 <= i <= docs@.len(),
            out@.len() == i,
            forall|j: int| 0 <= j < i ==> out@[j]@ == docs@[j]@,
        decreases docs@.len() - i,
    {
        out.push(docs[i].clone());
        i = i + 1;
    }
    proof {
        assert forall|j: int|
            0 <= j < docs@.len() implies crate::docs::docs_view(out@)[j] == crate::docs::docs_view(
            docs@,
        )[j] by {
            assert(crate::docs::docs_view(out@)[j] == out@[j]@);
            assert(crate::docs::docs_view(docs@)[j] == docs@[j]@);
        }
        assert(crate::docs::docs_view(out@) =~= crate::docs::docs_view(docs@));
    }
    out
}

/// Resolve wikilinks between the documents of one collection: build the
/// title-slug index from the collection itself, then render every
/// document's wikilinks against it with the default templates.
pub fn render_wikilinks_between(docs: Vec<Doc>) -> (r: Vec<Doc>)
    ensures
        r@.len() == docs@.len(),
        forall|l: int| 0 <= l < docs@.len() ==> crate::docs::docs_view(r@)[l] == (DocView {
            content: render_wikilinks_spec(
                crate::docs::docs_view(docs@)[l].content,
                "<a class=\"wikilink\" href=\"{output_path}\">{text}</a>"@,
                "<span class=\"nolink\">{text}</span>"@,
                build_slug_index(crate::docs::docs_view(docs@)),
            ),
            ..crate::docs::docs_view(docs@)[l]
        }),
{
    let ghost dv = crate::docs::docs_view(docs@);
    let copies = clone_docs(&docs);
    let index = index_by_title_slug(copies);
    let total = docs.len();
    let mut out: Vec<Doc> = Vec::new();
    let mut input = docs;
    let mut i: usize = 0;
    while input.len() > 0
        invariant
            dv == crate::docs::docs_view(docs@),
            wl_index_view(index@) == build_slug_index(dv),
            total == dv.len(),
            i + input@.len() == total,
            crate::docs::docs_view(input@) =~= dv.skip(i as int),
            out@.len() == i,
            forall|l: int| 0 <= l < i ==> crate::docs::docs_view(out@)[l] == (DocView {
                content: render_wikilinks_spec(
                    dv[l].content,
                    "<a class=\"wikilink\" href=\"{output_path}\">{text}</a>"@,
                    "<span class=\"nolink\">{text}</span>"@,
                    build_slug_index(dv),
                ),
                ..dv[l]
            }),
        decreases input@.len(),
    {
        let ghost in0 = input@;
        let d = input.remove(0);
        proof {
            assert(crate::docs::docs_view(in0)[0] == in0[0]@);
            assert(crate::docs::docs_view(in0) == dv.skip(i as int));
            assert(d@ == dv[i as int]);
            assert forall|l: int|
                0 <= l < input@.len() implies crate::docs::docs_view(input@)[l] == dv.skip(
                i as int + 1,
            )[l] by {
                assert(input@[l] == in0[l + 1]);
                assert(crate::docs::docs_view(in0)[l + 1] == in0[l + 1]@);
            }
            assert(crate::docs::docs_view(input@) =~= dv.skip(i as int + 1));
        }
        let ghost prev = out@;
        let d2 = d.render_wikilinks(&index);
        out.push(d2);
        i = i + 1;
        proof {
            assert forall|l: int|
                0 <= l < i implies crate::docs::docs_view(out@)[l] == (DocView {
                content: render_wikilinks_spec(
                    dv[l].content,
                    "<a class=\"wikilink\" href=\"{output_path}\">{text}</a>"@,
                    "<span class=\"nolink\">{text}</span>"@,
                    build_slug_index(dv),
                ),
                ..dv[l]
            }) by {
                assert(crate::docs::docs_view(out@)[l] == out@[l]@);
                if l < i - 1 {
                    assert(out@[l] == prev[l]);
                    assert(crate::docs::docs_view(prev)[l] == prev[l]@);
                } else {
                    assert(out@[l] == d2);
                }
            }
        }
    }
    out
}

} // verus!
