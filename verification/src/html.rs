//! A very simple tag stripper that removes anything between angle brackets.

use vstd::prelude::*;
use crate::strutil::push_char;

verus! {

/// Offset of the first `>` at or after `j`, unless a `<` or the end of the
/// text comes first. A tag body may not hold a second `<`.
pub open spec fn tag_close_off(s: Seq<char>, j: int) -> Option<nat>
    decreases s.len() - j,
{
    if j < 0 || j >= s.len() || s[j] == '<' {
        None
    } else if s[j] == '>' {
        Some(0nat)
    } else {
        match tag_close_off(s, j + 1) {
            Some(k) => Some((k + 1) as nat),
            None => None,
        }
    }
}

/// Whether a tag starts at position `i`: a `<`, at least one character that
/// is neither `<` nor `>`, then a `>`.
pub open spec fn tag_at(s: Seq<char>, i: int) -> bool {
    &&& 0 <= i < s.len()
    &&& s[i] == '<'
    &&& match tag_close_off(s, i + 1) {
        Some(k) => k >= 1,
        None => false,
    }
}

/// A closing offset lies inside the text, on a `>`.
pub proof fn lemma_tag_close_in_range(s: Seq<char>, j: int)
    ensures
        match tag_close_off(s, j) {
            Some(k) => 0 <= j && j + k < s.len() && s[j + k] == '>',
            None => true,
        },
    decreases s.len() - j,
{
    if 0 <= j < s.len() && s[j] != '<' && s[j] != '>' {
        lemma_tag_close_in_range(s, j + 1);
    }
}

/// The text from position `i` on, with every tag removed.
pub open spec fn strip_html_from(s: Seq<char>, i: int) -> Seq<char>
    decreases s.len() - i,
    via strip_html_from_dec
{
    if i < 0 || i >= s.len() {
        Seq::empty()
    } else if tag_at(s, i) {
        let k = tag_close_off(s, i + 1)->Some_0;
        strip_html_from(s, i + 2 + k)
    } else {
        seq![s[i]] + strip_html_from(s, i + 1)
    }
}

#[via_fn]
proof fn strip_html_from_dec(s: Seq<char>, i: int) {
    lemma_tag_close_in_range(s, i + 1);
}

/// The whole text with every `<...>` span removed.
pub open spec fn strip_html_spec(s: Seq<char>) -> Seq<char> {
    strip_html_from(s, 0)
}

/// Remove anything between angle brackets.
pub fn strip_html(html_str: &str) -> (r: String)
    ensures
        r@ == strip_html_spec(html_str@),
{
    let n = html_str.unicode_len();
    let mut out = String::new();
    let mut i: usize = 0;
    while i < n
        invariant
            n == html_str@.len(),
            0 <= i <= n,
            strip_html_spec(html_str@) == out@ + strip_html_from(html_str@, i as int),
        decreases n - i,
    {
        let c = html_str.get_char(i);
        if c == '<' {
            // Scan for the closing bracket.
            let mut j: usize = i + 1;
            let mut close: usize = 0;
            let mut found: bool = false;
            loop
                invariant
                    n == html_str@.len(),
                    i + 1 <= j <= n,
                    i < n,
                    found ==> i + 1 <= close < n && tag_close_off(html_str@, i + 1) == Some(
                        (close - i - 1) as nat,
                    ),
                    !found && j < n ==> tag_close_off(html_str@, i + 1) == match tag_close_off(
                        html_str@,
                        j as int,
                    ) {
                        Some(k) => Some((k + j - i - 1) as nat),
                        None => None::<nat>,
                    },
                    !found && j >= n ==> tag_close_off(html_str@, i + 1) is None,
                ensures
                    found ==> i + 1 <= close < n && tag_close_off(html_str@, i + 1) == Some(
                        (close - i - 1) as nat,
                    ),
                    !found ==> tag_close_off(html_str@, i + 1) is None,
                decreases n - j + (if found { 0int } else { 1int }),
            {
                if j >= n {
                    break;
                }
                if found {
                    break;
                }
                let cj = html_str.get_char(j);
                if cj == '>' {
                    close = j;
                    found = true;
                } else if cj == '<' {
                    proof {
                        assert(tag_close_off(html_str@, j as int) is None);
                        assert(tag_close_off(html_str@, i + 1) is None);
                    }
                    j = n;
                } else {
                    j = j + 1;
                }
            }
            if found && close > i + 1 {
                assert(tag_at(html_str@, i as int));
                i = close + 1;
            } else {
                assert(!tag_at(html_str@, i as int));
                push_char(&mut out, c);
                i = i + 1;
                proof {
                    assert(out@.drop_last() + (seq![c] + strip_html_from(html_str@, i as int))
                        =~= out@ + strip_html_from(html_str@, i as int));
                }
            }
        } else {
            assert(!tag_at(html_str@, i as int));
            push_char(&mut out, c);
            i = i + 1;
            proof {
                assert(out@.drop_last() + (seq![c] + strip_html_from(html_str@, i as int)) =~= out@
                    + strip_html_from(html_str@, i as int));
            }
        }
    }
    out
}

} // verus!
