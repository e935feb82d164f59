//! Rewriting relative URLs in rendered content to absolute ones.

use vstd::prelude::*;
use crate::doc::Doc;
use crate::doc::DocView;
use crate::strutil::push_char;

verus! {

/// The base with any trailing slashes dropped.
pub open spec fn trim_end_slashes(s: Seq<char>) -> Seq<char>
    decreases s.len(),
{
    if s.len() > 0 && s.last() == '/' {
        trim_end_slashes(s.drop_last())
    } else {
        s
    }
}

proof fn lemma_trim_end_slashes_at(s: Seq<char>, b: int)
    requires
        0 <= b <= s.len(),
        forall|j: int| b <= j < s.len() ==> s[j] == '/',
        b > 0 ==> s[b - 1] != '/',
    ensures
        trim_end_slashes(s) == s.take(b),
    decreases s.len() - b,
{
    if b == s.len() {
        assert(s.take(b) =~= s);
    } else {
        lemma_trim_end_slashes_at(s.drop_last(), b);
        assert(s.drop_last().take(b) =~= s.take(b));
    }
}

/// A URL qualified against a base: a rooted path gets the base (with its
/// trailing slashes dropped) put in front; anything else is left alone.
pub open spec fn qualify_spec(url: Seq<char>, base: Seq<char>) -> Seq<char> {
    if url.len() > 0 && url[0] == '/' {
        trim_end_slashes(base) + url
    } else {
        url
    }
}

/// Qualify a URL with a base URL if it is relative.
pub fn qualify_url(url: &str, base_url: &str) -> (r: String)
    ensures
        r@ == qualify_spec(url@, base_url@),
{
    let un = url.unicode_len();
    if un > 0 && url.get_char(0) == '/' {
        let bn = base_url.unicode_len();
        let mut b: usize = bn;
        while b > 0 && base_url.get_char(b - 1) == '/'
            invariant
                bn == base_url@.len(),
                0 <= b <= bn,
                forall|j: int| b <= j < bn ==> base_url@[j] == '/',
            decreases b,
        {
            b = b - 1;
        }
        proof {
            lemma_trim_end_slashes_at(base_url@, b as int);
        }
        let head = base_url.substring_char(0, b);
        let mut out = head.to_owned();
        out.append(url);
        proof {
            assert(base_url@.subrange(0, b as int) =~= base_url@.take(b as int));
        }
        out
    } else {
        url.to_owned()
    }
}

/// A quote character, either kind.
pub open spec fn is_quote(c: char) -> bool {
    c == '"' || c == '\''
}

/// Offset of the first quote at or after `j`, unless a line break or the
/// end of the text comes first.
pub open spec fn quote_off(s: Seq<char>, j: int) -> Option<nat>
    decreases s.len() - j,
{
    if j < 0 || j >= s.len() || s[j] == '\n' {
        None
    } else if is_quote(s[j]) {
        Some(0nat)
    } else {
        match quote_off(s, j + 1) {
            Some(k) => Some((k + 1) as nat),
            None => None,
        }
    }
}

pub proof fn lemma_quote_off_in_range(s: Seq<char>, j: int)
    ensures
        match quote_off(s, j) {
            Some(k) => 0 <= j && j + k < s.len() && is_quote(s[j + k]),
            None => true,
        },
    decreases s.len() - j,
{
    if 0 <= j < s.len() && s[j] != '\n' && !is_quote(s[j]) {
        lemma_quote_off_in_range(s, j + 1);
    }
}

/// Length of the URL attribute marker starting at `i`: `src=` or `href=`,
/// each followed by an opening quote.
pub open spec fn attr_len_at(s: Seq<char>, i: int) -> Option<int> {
    if i >= 0 && i + 4 <= s.len() && s[i] == 's' && s[i + 1] == 'r' && s[i + 2] == 'c' && s[i + 3]
        == '=' {
        Some(4)
    } else if i >= 0 && i + 5 <= s.len() && s[i] == 'h' && s[i + 1] == 'r' && s[i + 2] == 'e' && s[i
        + 3] == 'f' && s[i + 4] == '=' {
        Some(5)
    } else {
        None
    }
}

/// A URL attribute match at `i`: the marker, an opening quote, and a
/// closing quote on the same line. Yields the marker length and the length
/// of the quoted value.
pub open spec fn url_match_at(s: Seq<char>, i: int) -> Option<(int, nat)> {
    match attr_len_at(s, i) {
        Some(alen) => if i + alen < s.len() && is_quote(s[i + alen]) {
            match quote_off(s, i + alen + 1) {
                Some(k) => Some((alen, k)),
                None => None,
            }
        } else {
            None
        },
        None => None,
    }
}

/// The text from `i` on with every URL attribute value qualified against
/// the base and rewritten between double quotes.
pub open spec fn absolutize_from(s: Seq<char>, base: Seq<char>, i: int) -> Seq<char>
    decreases s.len() - i,
    via absolutize_from_dec
{
    if i < 0 || i >= s.len() {
        Seq::empty()
    } else {
        match url_match_at(s, i) {
            Some((alen, k)) => s.subrange(i, i + alen) + seq!['"'] + qualify_spec(
                s.subrange(i + alen + 1, i + alen + 1 + k),
                base,
            ) + seq!['"'] + absolutize_from(s, base, i + alen + k + 2),
            None => seq![s[i]] + absolutize_from(s, base, i + 1),
        }
    }
}

#[via_fn]
proof fn absolutize_from_dec(s: Seq<char>, base: Seq<char>, i: int) {
    if 0 <= i < s.len() {
        match attr_len_at(s, i) {
            Some(alen) => {
                lemma_quote_off_in_range(s, i + alen + 1);
            },
            None => {},
        }
    }
}

/// The whole text with every URL attribute qualified against the base.
pub open spec fn absolutize_spec(s: Seq<char>, base: Seq<char>) -> Seq<char> {
    absolutize_from(s, base, 0)
}

/// Check for a `src=` or `href=` marker at position `i`.
fn attr_len_exec(s: &str, i: usize, n: usize) -> (r: Option<usize>)
    requires
        n == s@.len(),
        i < n,
    ensures
        match r {
            Some(alen) => attr_len_at(s@, i as int) == Some(alen as int),
            None => attr_len_at(s@, i as int) is None,
        },
{
    if n - i >= 4 && s.get_char(i) == 's' && s.get_char(i + 1) == 'r' && s.get_char(i + 2) == 'c'
        && s.get_char(i + 3) == '=' {
        Some(4)
    } else if n - i >= 5 && s.get_char(i) == 'h' && s.get_char(i + 1) == 'r' && s.get_char(i + 2)
        == 'e' && s.get_char(i + 3) == 'f' && s.get_char(i + 4) == '=' {
        Some(5)
    } else {
        None
    }
}

fn is_quote_exec(c: char) -> (r: bool)
    ensures
        r == is_quote(c),
{
    c == '"' || c == '\''
}

/// Replace relative URLs in `src`/`href` attributes with absolute URLs.
pub fn absolutize_urls_in_html(html: &str, base_url: &str) -> (r: String)
    ensures
        r@ == absolutize_spec(html@, base_url@),
{
    let n = html.unicode_len();
    let mut out = String::new();
    let mut i: usize = 0;
    while i < n
        invariant
            n == html@.len(),
            0 <= i <= n,
            absolutize_spec(html@, base_url@) == out@ + absolutize_from(html@, base_url@, i as int),
        decreases n - i,
    {
        let ghost base = base_url@;
        let mut matched: bool = false;
        match attr_len_exec(html, i, n) {
            Some(alen) => {
                if i + alen < n && is_quote_exec(html.get_char(i + alen)) {
                    // Scan for the closing quote on the same line.
                    let start = i + alen + 1;
                    let mut j: usize = start;
                    let mut close: usize = 0;
                    let mut found: bool = false;
                    loop
                        invariant
                            n == html@.len(),
                            start <= j <= n,
                            start == i + alen + 1,
                            i + alen < n,
                            found ==> start <= close < n && quote_off(html@, start as int) == Some(
                                (close - start) as nat,
                            ),
                            !found && j < n ==> quote_off(html@, start as int) == match quote_off(
                                html@,
                                j as int,
                            ) {
                                Some(k) => Some((k + j - start) as nat),
                                None => None::<nat>,
                            },
                            !found && j >= n ==> quote_off(html@, start as int) is None,
                        ensures
                            found ==> start <= close < n && quote_off(html@, start as int) == Some(
                                (close - start) as nat,
                            ),
                            !found ==> quote_off(html@, start as int) is None,
                        decreases n - j + (if found { 0int } else { 1int }),
                    {
                        if j >= n || found {
                            break;
                        }
                        let cj = html.get_char(j);
                        if is_quote_exec(cj) {
                            close = j;
                            found = true;
                        } else if cj == '\n' {
                            proof {
                                assert(quote_off(html@, j as int) is None);
                            }
                            j = n;
                        } else {
                            j = j + 1;
                        }
                    }
                    if found {
                        matched = true;
                        let ghost k = (close - start) as nat;
                        assert(url_match_at(html@, i as int) == Some((alen as int, k)));
                        let marker = html.substring_char(i, i + alen);
                        out.append(marker);
                        push_char(&mut out, '"');
                        let value = html.substring_char(start, close);
                        let q = qualify_url(value, base_url);
                        out.append(q.as_str());
                        push_char(&mut out, '"');
                        i = close + 1;
                    }
                }
            },
            None => {},
        }
        if !matched {
            assert(url_match_at(html@, i as int) is None);
            let c = html.get_char(i);
            push_char(&mut out, c);
            i = i + 1;
            proof {
                assert(out@.drop_last() + (seq![c] + absolutize_from(html@, base, i as int)) =~= out@
                    + absolutize_from(html@, base, i as int));
            }
        } else {
            proof {
                assert(out@ + absolutize_from(html@, base, i as int) =~= absolutize_spec(
                    html@,
                    base,
                ));
            }
        }
    }
    out
}

impl Doc {
    /// Absolutize the URLs in this document's content.
    pub fn absolutize_urls(self, base_url: &str) -> (r: Self)
        ensures
            r@ == (DocView { content: absolutize_spec(self@.content, base_url@), ..self@ }),
    {
        let content = absolutize_urls_in_html(self.content.as_str(), base_url);
        self.set_content(content.as_str())
    }
}

} // verus!
